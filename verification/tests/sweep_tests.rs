use mist::{EnvMap, MonitorConfig};
use std::io::Write;

fn no_env() -> EnvMap {
    EnvMap { vars: Vec::new() }
}

fn cfg(id: &str, path: &str, threshold_micro_mb: u64, enabled: bool, notify: bool) -> MonitorConfig {
    MonitorConfig {
        id: id.to_string(),
        name: id.to_uppercase(),
        path: path.to_string(),
        threshold_micro_mb,
        enabled,
        notify,
        max_depth: None,
        last_scan_at: None,
    }
}

#[test]
fn threshold_is_strictly_exceeded() {
    // Exactly 100 binary megabytes against a 100 MB threshold: no breach.
    assert!(!mist::breaches(100 * 1024 * 1024, 100_000_000));
    // One byte more breaches.
    assert!(mist::breaches(100 * 1024 * 1024 + 1, 100_000_000));
    // 100.0001 MB measured (rounded up to whole bytes) breaches a 100 MB threshold.
    assert!(mist::breaches(104_857_705, 100_000_000));
    // A measured size just under a fractional threshold does not breach it.
    assert!(!mist::breaches(100 * 1024 * 1024, 100_000_100));
    // Zero against zero: no breach.
    assert!(!mist::breaches(0, 0));
    assert!(mist::breaches(1, 0));
}

#[test]
fn apply_scan_outcome_success_stamps_and_alerts() {
    let mut m = cfg("m", "/tmp", 0, true, true);
    let (ev, alert) = mist::apply_scan_outcome(&mut m, Ok((1024, 3)), "/tmp".to_string(), 555);
    assert_eq!(m.last_scan_at, Some(555));
    assert!(ev.done);
    assert_eq!(ev.size_bytes, 1024);
    assert_eq!(ev.file_count, 3);
    assert_eq!(ev.last_scan_at, Some(555));
    assert_eq!(ev.error, None);
    let a = alert.expect("a breach with notify raises an alert");
    assert_eq!(a.monitor_id, "m");
    assert_eq!(a.size_bytes, 1024);
    assert_eq!(a.threshold_micro_mb, 0);
    assert_eq!(a.path, "/tmp");
}

#[test]
fn apply_scan_outcome_without_notify_never_alerts() {
    let mut m = cfg("m", "/tmp", 0, true, false);
    let (_, alert) = mist::apply_scan_outcome(&mut m, Ok((1024, 3)), "/tmp".to_string(), 5);
    assert_eq!(alert, None);
    assert_eq!(m.last_scan_at, Some(5));
}

#[test]
fn apply_scan_outcome_failure_leaves_monitor_untouched() {
    let mut m = cfg("m", "/tmp", 0, true, true);
    let (ev, alert) =
        mist::apply_scan_outcome(&mut m, Err("Path not found".to_string()), String::new(), 5);
    assert_eq!(m.last_scan_at, None);
    assert!(ev.done);
    assert_eq!(ev.size_bytes, 0);
    assert_eq!(ev.file_count, 0);
    assert_eq!(ev.error, Some("Path not found".to_string()));
    assert_eq!(ev.last_scan_at, None);
    assert_eq!(alert, None);
}

#[test]
fn sweep_isolates_a_failing_monitor() {
    // Three enabled monitors; the second points nowhere. The first and third
    // are still scanned and stamped.
    let root_a = tempfile::tempdir().unwrap();
    let root_c = tempfile::tempdir().unwrap();
    let mut f = tempfile::NamedTempFile::new_in(root_c.path()).unwrap();
    f.write_all(&[1u8; 32]).unwrap();
    f.flush().unwrap();
    let mut ms = vec![
        cfg("a", root_a.path().to_str().unwrap(), 1_000_000, true, true),
        cfg("b", "/no/such/directory/anywhere-at-all", 1_000_000, true, true),
        cfg("c", root_c.path().to_str().unwrap(), 0, true, true),
    ];
    let out = mist::run_sweep_cycle(&mut ms, &no_env(), 900);
    assert_eq!(ms[0].last_scan_at, Some(900));
    assert_eq!(ms[1].last_scan_at, None);
    assert_eq!(ms[2].last_scan_at, Some(900));
    assert!(out.changed);
    assert_eq!(out.completed_at, 900);
    // Two events per enabled monitor: a start event and a terminal event.
    assert_eq!(out.events.len(), 6);
    assert!(!out.events[0].done && out.events[1].done);
    assert_eq!(out.events[2].error, None);
    assert_eq!(out.events[3].error, Some("Path not found".to_string()));
    assert!(out.events[3].done);
    // Only the third monitor breaches its zero threshold.
    assert_eq!(out.alerts.len(), 1);
    assert_eq!(out.alerts[0].monitor_id, "c");
    assert_eq!(out.alerts[0].size_bytes, 32);
}

#[test]
fn sweep_skips_disabled_monitors() {
    let root = tempfile::tempdir().unwrap();
    let mut ms = vec![
        cfg("off", root.path().to_str().unwrap(), 0, false, true),
        cfg("on", root.path().to_str().unwrap(), 1_000_000, true, false),
    ];
    let before = ms[0].clone();
    let out = mist::run_sweep_cycle(&mut ms, &no_env(), 7);
    assert_eq!(ms[0], before);
    assert_eq!(ms[1].last_scan_at, Some(7));
    assert_eq!(out.events.len(), 2);
    assert_eq!(out.alerts.len(), 0);
}

#[test]
fn sweep_of_nothing_changes_nothing() {
    let mut ms: Vec<MonitorConfig> = Vec::new();
    let out = mist::run_sweep_cycle(&mut ms, &no_env(), 1);
    assert!(!out.changed);
    assert_eq!(out.events.len(), 0);
    assert_eq!(out.alerts.len(), 0);
    assert_eq!(out.completed_at, 1);
}
