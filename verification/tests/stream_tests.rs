use mist::{EnvMap, FsEntry};
use std::io::Write;

fn entry(depth: usize, is_file: bool, size_bytes: u64) -> FsEntry {
    FsEntry { depth, is_file, size_bytes }
}

#[test]
fn emits_progress_at_interval_multiples() {
    // Five files, interval two: progress after the second and fourth file,
    // then the terminal event.
    let entries: Vec<FsEntry> = (0..5).map(|_| entry(1, true, 10)).collect();
    let evs = mist::streaming_events("m1", &entries, None, 2, 777);
    assert_eq!(evs.len(), 3);
    assert_eq!(evs[0].file_count, 2);
    assert_eq!(evs[0].size_bytes, 20);
    assert!(!evs[0].done);
    assert_eq!(evs[0].last_scan_at, None);
    assert_eq!(evs[1].file_count, 4);
    assert_eq!(evs[1].size_bytes, 40);
    assert!(!evs[1].done);
    let t = &evs[2];
    assert!(t.done);
    assert_eq!(t.file_count, 5);
    assert_eq!(t.size_bytes, 50);
    assert_eq!(t.last_scan_at, Some(777));
    assert_eq!(t.error, None);
    for e in &evs {
        assert_eq!(e.monitor_id, "m1");
    }
}

#[test]
fn terminal_totals_match_synchronous_scan() {
    let entries = vec![
        entry(0, false, 0),
        entry(1, true, 5),
        entry(2, true, 11),
        entry(3, true, 2),
    ];
    for depth in [None, Some(1), Some(2), Some(0)] {
        let (size, count) = mist::scan_entries(&entries, depth);
        let evs = mist::streaming_events("x", &entries, depth, 500, 1);
        let t = evs.last().unwrap();
        assert!(t.done);
        assert_eq!(t.size_bytes, size);
        assert_eq!(t.file_count, count);
    }
}

#[test]
fn totals_never_decrease_and_only_last_is_done() {
    let entries: Vec<FsEntry> = (0..10).map(|i| entry(1, true, i as u64)).collect();
    let evs = mist::streaming_events("m", &entries, None, 3, 0);
    assert!(evs.len() >= 1);
    for w in evs.windows(2) {
        assert!(w[0].file_count <= w[1].file_count);
        assert!(w[0].size_bytes <= w[1].size_bytes);
    }
    for (i, e) in evs.iter().enumerate() {
        assert_eq!(e.done, i == evs.len() - 1);
    }
}

#[test]
fn missing_path_streams_one_error_event() {
    let env = EnvMap { vars: Vec::new() };
    let evs = mist::check_monitor_path_streaming(
        "m9",
        "/no/such/directory/anywhere-at-all",
        None,
        &env,
        500,
        42,
    );
    assert_eq!(evs.len(), 1);
    assert!(evs[0].done);
    assert_eq!(evs[0].size_bytes, 0);
    assert_eq!(evs[0].file_count, 0);
    assert_eq!(evs[0].error, Some("Path not found".to_string()));
    assert_eq!(evs[0].last_scan_at, None);
    assert_eq!(evs[0].monitor_id, "m9");
}

#[test]
fn streaming_a_real_tree_ends_done_with_totals() {
    let root = tempfile::tempdir().unwrap();
    let mut f = tempfile::NamedTempFile::new_in(root.path()).unwrap();
    f.write_all(&[7u8; 64]).unwrap();
    f.flush().unwrap();
    let env = EnvMap { vars: Vec::new() };
    let evs = mist::check_monitor_path_streaming(
        "real",
        root.path().to_str().unwrap(),
        None,
        &env,
        mist::DEFAULT_PROGRESS_INTERVAL,
        99,
    );
    let t = evs.last().unwrap();
    assert!(t.done);
    assert_eq!(t.size_bytes, 64);
    assert_eq!(t.file_count, 1);
    assert_eq!(t.last_scan_at, Some(99));
}
