use std::collections::BTreeMap;

use mod_installer::archive::Entry;
use mod_installer::errors::InstallError;
use mod_installer::paths::SafePath;
use mod_installer::plan::{plan_entries, plan_install, plan_tar, plan_zip, FsAction};

#[derive(Clone, PartialEq, Eq, Debug)]
enum Node {
    Dir,
    File(Vec<u8>),
}

type Fs = BTreeMap<Vec<String>, Node>;

fn apply(fs: &mut Fs, a: &FsAction) {
    match a {
        FsAction::RemoveDirAll { path } => {
            let p = path.segments.clone();
            fs.retain(|k, _| !k.starts_with(&p[..]));
        }
        FsAction::CreateDirAll { path } => {
            let p = path.segments.clone();
            for i in 1..=p.len() {
                fs.entry(p[..i].to_vec()).or_insert(Node::Dir);
            }
        }
        FsAction::WriteFile { path, data } => {
            fs.insert(path.segments.clone(), Node::File(data.clone()));
        }
        FsAction::RenameDir { from, to } => {
            let f = from.segments.clone();
            let t = to.segments.clone();
            let moved: Vec<(Vec<String>, Node)> = fs
                .iter()
                .filter(|(k, _)| k.starts_with(&f[..]))
                .map(|(k, v)| {
                    let mut nk = t.clone();
                    nk.extend_from_slice(&k[f.len()..]);
                    (nk, v.clone())
                })
                .collect();
            fs.retain(|k, _| !k.starts_with(&f[..]));
            for (k, v) in moved {
                fs.insert(k, v);
            }
        }
    }
}

fn run(fs: &mut Fs, plan: &[FsAction]) {
    for a in plan {
        apply(fs, a);
    }
}

fn zip_bytes(entries: &[(&str, Option<&[u8]>)]) -> Vec<u8> {
    let mut w = zip::ZipWriter::new(std::io::Cursor::new(Vec::new()));
    let opts = zip::write::SimpleFileOptions::default();
    for (name, data) in entries {
        match data {
            Some(d) => {
                w.start_file(*name, opts).unwrap();
                std::io::Write::write_all(&mut w, d).unwrap();
            }
            None => {
                w.add_directory(*name, opts).unwrap();
            }
        }
    }
    w.finish().unwrap().into_inner()
}

fn tar_bytes(entries: &[(&str, &[u8])]) -> Vec<u8> {
    let mut b = tar::Builder::new(Vec::new());
    for (name, data) in entries {
        let mut h = tar::Header::new_ustar();
        h.set_size(data.len() as u64);
        h.set_mode(0o644);
        h.set_cksum();
        b.append_data(&mut h, *name, *data).unwrap();
    }
    b.into_inner().unwrap()
}

fn gz_bytes(inner: &[u8]) -> Vec<u8> {
    let mut enc = flate2::write::GzEncoder::new(Vec::new(), flate2::Compression::default());
    std::io::Write::write_all(&mut enc, inner).unwrap();
    enc.finish().unwrap()
}

fn root() -> SafePath {
    SafePath::from_segments(vec!["Mods".to_string()]).unwrap()
}

fn key(parts: &[&str]) -> Vec<String> {
    parts.iter().map(|s| s.to_string()).collect()
}

#[test]
fn nested_zip_drops_wrapping_folder() {
    let bytes = zip_bytes(&[("Foo/a.txt", Some(b"aa")), ("Foo/b.txt", Some(b"bb"))]);
    let url = "https://example.com/CoolMod.zip".to_string();
    let (target, plan) = plan_install(&bytes, &url, None, &root(), 7, false).unwrap();
    assert_eq!(target.segments, key(&["Mods", "CoolMod"]));
    let mut fs = Fs::new();
    run(&mut fs, &plan);
    assert_eq!(
        fs.get(&key(&["Mods", "CoolMod", "a.txt"])),
        Some(&Node::File(b"aa".to_vec()))
    );
    assert_eq!(
        fs.get(&key(&["Mods", "CoolMod", "b.txt"])),
        Some(&Node::File(b"bb".to_vec()))
    );
    assert!(fs.get(&key(&["Mods", "CoolMod", "Foo"])).is_none());
    assert!(fs.get(&key(&["Mods", "temp_extract"])).is_none());
}

#[test]
fn flat_zip_keeps_top_level_files() {
    let bytes = zip_bytes(&[("a.txt", Some(b"1")), ("b.txt", Some(b"2"))]);
    let url = "https://example.com/CoolMod.zip".to_string();
    let (target, plan) = plan_install(&bytes, &url, None, &root(), 7, false).unwrap();
    assert_eq!(target.segments, key(&["Mods", "CoolMod"]));
    let mut fs = Fs::new();
    run(&mut fs, &plan);
    assert_eq!(
        fs.get(&key(&["Mods", "CoolMod", "a.txt"])),
        Some(&Node::File(b"1".to_vec()))
    );
    assert_eq!(
        fs.get(&key(&["Mods", "CoolMod", "b.txt"])),
        Some(&Node::File(b"2".to_vec()))
    );
}

#[test]
fn tar_keeps_declared_layout() {
    let bytes = tar_bytes(&[("sub/x.lua", b"print(1)")]);
    let url = "https://example.com/CoolMod.tar".to_string();
    let (target, plan) = plan_install(&bytes, &url, None, &root(), 7, false).unwrap();
    assert_eq!(target.segments, key(&["Mods", "CoolMod"]));
    let mut fs = Fs::new();
    run(&mut fs, &plan);
    assert_eq!(
        fs.get(&key(&["Mods", "CoolMod", "sub", "x.lua"])),
        Some(&Node::File(b"print(1)".to_vec()))
    );
}

#[test]
fn gzip_tar_matches_tar() {
    let bytes = gz_bytes(&tar_bytes(&[("sub/x.lua", b"print(1)")]));
    let url = "https://example.com/CoolMod.tar.gz".to_string();
    let (_, plan) = plan_install(&bytes, &url, None, &root(), 7, false).unwrap();
    let mut fs = Fs::new();
    run(&mut fs, &plan);
    assert_eq!(
        fs.get(&key(&["Mods", "CoolMod", "sub", "x.lua"])),
        Some(&Node::File(b"print(1)".to_vec()))
    );
}

#[test]
fn reinstall_leaves_only_second_archive() {
    let url = "https://example.com/CoolMod.zip".to_string();
    let mut fs = Fs::new();
    let first = zip_bytes(&[("old.txt", Some(b"old")), ("both.txt", Some(b"v1"))]);
    let (_, plan1) = plan_install(&first, &url, None, &root(), 7, false).unwrap();
    run(&mut fs, &plan1);
    assert!(fs.contains_key(&key(&["Mods", "CoolMod", "old.txt"])));
    let second = zip_bytes(&[("both.txt", Some(b"v2")), ("new.txt", Some(b"new"))]);
    let (_, plan2) = plan_install(&second, &url, None, &root(), 8, true).unwrap();
    run(&mut fs, &plan2);
    assert!(!fs.contains_key(&key(&["Mods", "CoolMod", "old.txt"])));
    assert_eq!(
        fs.get(&key(&["Mods", "CoolMod", "both.txt"])),
        Some(&Node::File(b"v2".to_vec()))
    );
    assert_eq!(
        fs.get(&key(&["Mods", "CoolMod", "new.txt"])),
        Some(&Node::File(b"new".to_vec()))
    );
}

#[test]
fn reinstall_plan_starts_with_target_removal() {
    let bytes = tar_bytes(&[("x.lua", b"x")]);
    let url = "https://example.com/CoolMod.tar".to_string();
    let (target, plan) = plan_install(&bytes, &url, None, &root(), 7, true).unwrap();
    assert_eq!(
        plan[0],
        FsAction::RemoveDirAll {
            path: SafePath { segments: target.segments.clone() }
        }
    );
}

#[test]
fn zip_dir_entries_create_directories() {
    let bytes = zip_bytes(&[("top.txt", Some(b"t")), ("d/", None), ("d/in.txt", Some(b"i"))]);
    let url = "https://example.com/CoolMod.zip".to_string();
    let (_, plan) = plan_install(&bytes, &url, None, &root(), 7, false).unwrap();
    let mut fs = Fs::new();
    run(&mut fs, &plan);
    assert_eq!(fs.get(&key(&["Mods", "CoolMod", "d"])), Some(&Node::Dir));
    assert_eq!(
        fs.get(&key(&["Mods", "CoolMod", "d", "in.txt"])),
        Some(&Node::File(b"i".to_vec()))
    );
}

#[test]
fn macosx_entries_are_skipped() {
    let entries = vec![
        Entry::new("__MACOSX/._junk".to_string(), false, b"j".to_vec()),
        Entry::new("keep.txt".to_string(), false, b"k".to_vec()),
    ];
    let target = SafePath::from_segments(key(&["Mods", "M"])).unwrap();
    let plan = plan_entries(&target, &entries).unwrap();
    let mut fs = Fs::new();
    run(&mut fs, &plan);
    assert!(fs.contains_key(&key(&["Mods", "M", "keep.txt"])));
    assert!(!fs.keys().any(|k| k.iter().any(|s| s.contains("__MACOSX"))));
}

#[test]
fn parent_segments_cannot_escape() {
    let entries = vec![
        Entry::new("ok.txt".to_string(), false, b"o".to_vec()),
        Entry::new("../evil.txt".to_string(), false, b"e".to_vec()),
    ];
    let name = "M".to_string();
    let err = plan_zip(&entries, &root(), &name).unwrap_err();
    assert!(matches!(err, InstallError::PathTraversal { .. }));
}

#[test]
fn absolute_entry_is_rejected() {
    let entries = vec![Entry::new("/etc/evil".to_string(), true, Vec::new())];
    let name = "M".to_string();
    let err = plan_tar(&entries, &root(), &name).unwrap_err();
    assert!(matches!(err, InstallError::PathTraversal { .. }));
}

#[test]
fn deep_escape_is_rejected() {
    let entries = vec![Entry::new("a/../../evil.txt".to_string(), false, b"e".to_vec())];
    let name = "M".to_string();
    let err = plan_tar(&entries, &root(), &name).unwrap_err();
    assert!(matches!(err, InstallError::PathTraversal { .. }));
}

#[test]
fn inner_parent_segments_resolve_in_place() {
    let entries = vec![Entry::new("a/../b.txt".to_string(), false, b"b".to_vec())];
    let name = "M".to_string();
    let (_, plan) = plan_tar(&entries, &root(), &name).unwrap();
    let mut fs = Fs::new();
    run(&mut fs, &plan);
    assert_eq!(
        fs.get(&key(&["Mods", "M", "b.txt"])),
        Some(&Node::File(b"b".to_vec()))
    );
    assert!(!fs.contains_key(&key(&["Mods", "M", "a"])));
}

#[test]
fn empty_zip_entry_list_is_invalid_state() {
    let entries: Vec<Entry> = Vec::new();
    let name = "M".to_string();
    let err = plan_zip(&entries, &root(), &name).unwrap_err();
    assert!(matches!(err, InstallError::InvalidState { .. }));
}

#[test]
fn unreadable_zip_payload_is_file_read_failure() {
    let mut bytes = vec![0x50u8, 0x4b, 0x03, 0x04];
    bytes.extend_from_slice(b"garbage that is not a zip archive");
    let url = "https://example.com/CoolMod.zip".to_string();
    let err = plan_install(&bytes, &url, None, &root(), 7, false).unwrap_err();
    assert_eq!(
        err,
        InstallError::FileReadFailure { path: url.clone() }
    );
}

#[test]
fn explicit_name_with_separator_is_rejected() {
    let bytes = tar_bytes(&[("x.lua", b"x")]);
    let url = "https://example.com/CoolMod.tar".to_string();
    let explicit = "../Outside".to_string();
    let err = plan_install(&bytes, &url, Some(&explicit), &root(), 7, false).unwrap_err();
    assert!(matches!(err, InstallError::PathTraversal { .. }));
}
