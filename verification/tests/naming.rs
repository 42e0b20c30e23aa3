use mod_installer::names::resolve_name;

#[test]
fn url_stem_becomes_the_name() {
    let r = resolve_name(None, "https://github.com/user/repo/archive/CoolMod.zip", 42);
    assert_eq!(r, "CoolMod");
}

#[test]
fn generic_main_falls_back_to_timestamped_name() {
    let r = resolve_name(None, "https://github.com/user/repo/archive/main.zip", 1699999999);
    assert_eq!(r, "mod_1699999999");
    assert!(r.starts_with("mod_"));
    assert!(r["mod_".len()..].chars().all(|c| c.is_ascii_digit()));
    assert_ne!(r, "main");
}

#[test]
fn generic_master_falls_back() {
    let r = resolve_name(None, "https://example.com/master.tar.gz", 5);
    assert_eq!(r, "mod_5");
}

#[test]
fn short_stem_falls_back() {
    let r = resolve_name(None, "https://example.com/ab.zip", 12);
    assert_eq!(r, "mod_12");
}

#[test]
fn zero_timestamp_renders_as_single_digit() {
    let r = resolve_name(None, "https://example.com/main.zip", 0);
    assert_eq!(r, "mod_0");
}

#[test]
fn explicit_name_wins_over_url() {
    let explicit = "Neat".to_string();
    let r = resolve_name(Some(&explicit), "https://example.com/main.zip", 7);
    assert_eq!(r, "Neat");
}

#[test]
fn explicit_name_is_trimmed() {
    let explicit = "  Neat Mod \n".to_string();
    let r = resolve_name(Some(&explicit), "https://example.com/CoolMod.zip", 7);
    assert_eq!(r, "Neat Mod");
}

#[test]
fn blank_explicit_name_is_treated_as_absent() {
    let explicit = "   ".to_string();
    let r = resolve_name(Some(&explicit), "https://example.com/CoolMod.zip", 7);
    assert_eq!(r, "CoolMod");
}

#[test]
fn stem_stops_at_first_dot() {
    let r = resolve_name(None, "https://example.com/Cool.Mod.tar.gz", 7);
    assert_eq!(r, "Cool");
}

#[test]
fn url_without_separators_is_its_own_segment() {
    let r = resolve_name(None, "CoolMod", 7);
    assert_eq!(r, "CoolMod");
}

#[test]
fn largest_timestamp_renders_exactly() {
    let r = resolve_name(None, "https://example.com/main.zip", u64::MAX);
    assert_eq!(r, "mod_18446744073709551615");
}
