use mist::MonitorConfig;

fn cfg(id: &str, notify: bool) -> MonitorConfig {
    MonitorConfig {
        id: id.to_string(),
        name: id.to_uppercase(),
        path: "/tmp".to_string(),
        threshold_micro_mb: 1_000_000,
        enabled: true,
        notify,
        max_depth: None,
        last_scan_at: None,
    }
}

#[test]
fn defaults_are_three_well_formed_monitors() {
    let d = mist::get_default_monitors();
    assert_eq!(d.len(), 3);
    assert!(mist::validate_monitors(&d));
    assert_eq!(d[0].id, "windows-temp");
    assert_eq!(d[0].path, "%LOCALAPPDATA%\\Temp");
    assert_eq!(d[0].threshold_micro_mb, 1_024_000_000);
    assert!(d.iter().all(|m| m.enabled && m.notify && m.last_scan_at.is_none()));
}

#[test]
fn validation_rejects_duplicate_ids() {
    let ok = vec![cfg("a", true), cfg("b", true)];
    assert!(mist::validate_monitors(&ok));
    let dup = vec![cfg("a", true), cfg("b", true), cfg("a", false)];
    assert!(!mist::validate_monitors(&dup));
}

#[test]
fn import_accepts_a_well_formed_document() {
    let ms = vec![cfg("a", true), cfg("b", false)];
    let json = mist::monitors_to_json(&ms);
    assert_eq!(mist::import_monitors(&json), Ok(ms));
}

#[test]
fn import_rejects_malformed_and_duplicate_documents() {
    assert_eq!(
        mist::import_monitors("not a config"),
        Err("Invalid config file".to_string())
    );
    let dup = vec![cfg("a", true), cfg("a", true)];
    let json = mist::monitors_to_json(&dup);
    assert_eq!(mist::import_monitors(&json), Err("Invalid config file".to_string()));
}

#[test]
fn mute_clears_the_first_match_only() {
    let mut ms = vec![cfg("a", true), cfg("b", true), cfg("b", true)];
    assert!(mist::apply_mute(&mut ms, "b"));
    assert!(ms[0].notify);
    assert!(!ms[1].notify);
    assert!(ms[2].notify);
    assert_eq!(ms[1].id, "b");
}

#[test]
fn mute_of_an_unknown_id_changes_nothing() {
    let mut ms = vec![cfg("a", true)];
    let before = ms.clone();
    assert!(!mist::apply_mute(&mut ms, "zz"));
    assert_eq!(ms, before);
}

#[test]
fn default_check_interval_is_an_hour() {
    assert_eq!(mist::default_check_interval(), 60);
    let s = <mist::AppSettings as Default>::default();
    assert!(s.minimize_to_tray);
    assert_eq!(s.check_interval_minutes, 60);
}
