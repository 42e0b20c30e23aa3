use mod_installer::errors::InstallError;
use mod_installer::paths::{ensure_safe_path, sanitize_entry_path, SafePath};
use mod_installer::plan::FsAction;
use mod_installer::uninstall::{uninstall_mod, validate_uninstall_path};

fn path(parts: &[&str]) -> SafePath {
    SafePath::from_segments(parts.iter().map(|s| s.to_string()).collect()).unwrap()
}

#[test]
fn uninstalling_the_mods_root_is_invalid_state() {
    let root = path(&["config", "Balatro", "Mods"]);
    let same = path(&["config", "Balatro", "Mods"]);
    let err = validate_uninstall_path(&same, &root, true).unwrap_err();
    assert!(matches!(err, InstallError::InvalidState { .. }));
    let err = uninstall_mod(&same, &root, true).unwrap_err();
    assert!(matches!(err, InstallError::InvalidState { .. }));
}

#[test]
fn uninstalling_outside_the_mods_root_is_rejected() {
    let root = path(&["config", "Balatro", "Mods"]);
    let outside = path(&["config", "Other", "X"]);
    let err = validate_uninstall_path(&outside, &root, true).unwrap_err();
    assert_eq!(
        err,
        InstallError::PathTraversal { path: "config/Other/X".to_string() }
    );
    let err = uninstall_mod(&outside, &root, true).unwrap_err();
    assert!(matches!(err, InstallError::PathTraversal { .. }));
}

#[test]
fn uninstalling_a_missing_path_is_rejected() {
    let root = path(&["Mods"]);
    let missing = path(&["Mods", "Gone"]);
    let err = validate_uninstall_path(&missing, &root, false).unwrap_err();
    assert!(matches!(err, InstallError::PathTraversal { .. }));
}

#[test]
fn uninstalling_an_installed_mod_removes_its_tree() {
    let root = path(&["Mods"]);
    let target = path(&["Mods", "CoolMod"]);
    let action = uninstall_mod(&target, &root, true).unwrap();
    assert_eq!(
        action,
        FsAction::RemoveDirAll { path: path(&["Mods", "CoolMod"]) }
    );
}

#[test]
fn safe_path_check_accepts_descendants_only() {
    let base = path(&["Mods", "M"]);
    assert!(ensure_safe_path(&base, &path(&["Mods", "M", "a.txt"])).is_ok());
    assert!(ensure_safe_path(&base, &path(&["Mods", "M"])).is_ok());
    let err = ensure_safe_path(&base, &path(&["Mods", "N", "a.txt"])).unwrap_err();
    assert_eq!(
        err,
        InstallError::PathTraversal { path: "Mods/N/a.txt".to_string() }
    );
    assert!(ensure_safe_path(&base, &path(&["Mods"])).is_err());
}

#[test]
fn sanitizer_resolves_and_rejects() {
    let rootp = path(&["Mods", "M"]);
    let ok = sanitize_entry_path(&rootp, "a/b.txt").unwrap();
    assert_eq!(ok.segments, vec!["Mods", "M", "a", "b.txt"]);
    let dotted = sanitize_entry_path(&rootp, "./a//b/../c.txt").unwrap();
    assert_eq!(dotted.segments, vec!["Mods", "M", "a", "c.txt"]);
    let err = sanitize_entry_path(&rootp, "../x").unwrap_err();
    assert_eq!(err, InstallError::PathTraversal { path: "../x".to_string() });
    let err = sanitize_entry_path(&rootp, "/abs").unwrap_err();
    assert!(matches!(err, InstallError::PathTraversal { .. }));
}

#[test]
fn malformed_segments_cannot_form_a_safe_path() {
    assert!(SafePath::from_segments(vec!["ok".to_string(), "..".to_string()]).is_none());
    assert!(SafePath::from_segments(vec!["a/b".to_string()]).is_none());
    assert!(SafePath::from_segments(vec!["".to_string()]).is_none());
    assert!(SafePath::from_segments(vec![".".to_string()]).is_none());
    assert!(SafePath::from_segments(Vec::new()).is_some());
}
