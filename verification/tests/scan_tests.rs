use mist::{EnvMap, FsEntry};
use std::io::Write;

fn no_env() -> EnvMap {
    EnvMap { vars: Vec::new() }
}

fn entry(depth: usize, is_file: bool, size_bytes: u64) -> FsEntry {
    FsEntry { depth, is_file, size_bytes }
}

#[test]
fn aggregates_files_only() {
    let entries = vec![
        entry(0, false, 0),
        entry(1, true, 100),
        entry(1, false, 0),
        entry(2, true, 50),
        entry(3, true, 7),
    ];
    assert_eq!(mist::scan_entries(&entries, None), (157, 3));
}

#[test]
fn depth_bound_counts_shallow_files_only() {
    let entries = vec![
        entry(0, false, 0),
        entry(1, true, 100),
        entry(2, true, 50),
        entry(3, true, 7),
    ];
    assert_eq!(mist::scan_entries(&entries, Some(1)), (100, 1));
    assert_eq!(mist::scan_entries(&entries, Some(2)), (150, 2));
}

#[test]
fn zero_depth_means_unlimited() {
    let entries = vec![entry(1, true, 1), entry(5, true, 2)];
    assert_eq!(mist::scan_entries(&entries, Some(0)), (3, 2));
    assert_eq!(mist::scan_entries(&entries, None), (3, 2));
}

#[test]
fn empty_tree_is_zero() {
    let entries: Vec<FsEntry> = Vec::new();
    assert_eq!(mist::scan_entries(&entries, None), (0, 0));
}

#[test]
fn byte_total_saturates() {
    let entries = vec![entry(1, true, u64::MAX), entry(1, true, 10)];
    assert_eq!(mist::scan_entries(&entries, None), (u64::MAX, 2));
}

#[test]
fn missing_root_is_path_not_found() {
    let r = mist::scan_directory("/no/such/directory/anywhere-at-all", None, &no_env());
    assert_eq!(r, Err("Path not found".to_string()));
    let c = mist::check_monitor_path("/no/such/directory/anywhere-at-all", None, &no_env());
    assert_eq!(c.size_bytes, 0);
    assert_eq!(c.file_count, 0);
    assert_eq!(c.error, Some("Path not found".to_string()));
}

fn write_file(dir: &std::path::Path, bytes: usize) -> tempfile::NamedTempFile {
    let mut f = tempfile::NamedTempFile::new_in(dir).unwrap();
    f.write_all(&vec![0u8; bytes]).unwrap();
    f.flush().unwrap();
    f
}

#[test]
fn scans_a_real_tree() {
    let root = tempfile::tempdir().unwrap();
    let level1 = tempfile::tempdir_in(root.path()).unwrap();
    let level2 = tempfile::tempdir_in(level1.path()).unwrap();
    let _a = write_file(root.path(), 10);
    let _b = write_file(level1.path(), 20);
    let _c = write_file(level2.path(), 40);
    let path = root.path().to_str().unwrap();
    let r = mist::scan_directory(path, None, &no_env()).unwrap();
    assert_eq!(r, (70, 3));
}

#[test]
fn depth_one_counts_root_level_files_only() {
    // Three levels of directories; only the file directly under the root is
    // within a depth bound of one.
    let root = tempfile::tempdir().unwrap();
    let level1 = tempfile::tempdir_in(root.path()).unwrap();
    let level2 = tempfile::tempdir_in(level1.path()).unwrap();
    let _a = write_file(root.path(), 10);
    let _b = write_file(level1.path(), 20);
    let _c = write_file(level2.path(), 40);
    let path = root.path().to_str().unwrap();
    assert_eq!(mist::scan_directory(path, Some(1), &no_env()).unwrap(), (10, 1));
    assert_eq!(mist::scan_directory(path, Some(2), &no_env()).unwrap(), (30, 2));
    assert_eq!(mist::scan_directory(path, Some(0), &no_env()).unwrap(), (70, 3));
}

#[test]
fn check_monitor_path_reports_totals() {
    let root = tempfile::tempdir().unwrap();
    let _a = write_file(root.path(), 123);
    let c = mist::check_monitor_path(root.path().to_str().unwrap(), None, &no_env());
    assert_eq!(c.size_bytes, 123);
    assert_eq!(c.file_count, 1);
    assert_eq!(c.error, None);
}
