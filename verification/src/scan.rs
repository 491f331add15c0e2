//! Directory scanning: a depth-bounded walk of a directory tree, aggregated
//! into a total byte size and file count. The walk itself is delegated to the
//! `walkdir` crate; everything computed from the walked entries is verified.

use crate::resolve::{expand_env_vars, EnvMap};
use crate::types::{depth_unlimited, CheckResult};
use vstd::prelude::*;

verus! {

/// One entry met during a walk: its depth below the root (the root itself is
/// depth 0), whether it is a regular file, and its size in bytes. Entries
/// whose metadata could not be read are carried with size 0, matching the
/// best-effort policy: an unreadable entry never fails the whole scan.
#[derive(Debug, Clone, Copy, PartialEq, Eq, Structural)]
pub struct FsEntry {
    pub depth: usize,
    pub is_file: bool,
    pub size_bytes: u64,
}

/// Whether an entry contributes to the totals: only regular files within the
/// depth bound count; a bound of `None` or `Some(0)` admits every depth.
pub open spec fn counted(e: FsEntry, max_depth: Option<usize>) -> bool {
    e.is_file && (depth_unlimited(max_depth) || e.depth <= max_depth.unwrap())
}

/// Sum of the sizes of the counted entries, as an unbounded integer.
pub open spec fn total_size(entries: Seq<FsEntry>, max_depth: Option<usize>) -> int
    decreases entries.len(),
{
    if entries.len() == 0 {
        0
    } else {
        total_size(entries.drop_last(), max_depth) + if counted(entries.last(), max_depth) {
            entries.last().size_bytes as int
        } else {
            0
        }
    }
}

/// Number of counted entries.
pub open spec fn total_count(entries: Seq<FsEntry>, max_depth: Option<usize>) -> int
    decreases entries.len(),
{
    if entries.len() == 0 {
        0
    } else {
        total_count(entries.drop_last(), max_depth) + if counted(entries.last(), max_depth) {
            1int
        } else {
            0int
        }
    }
}

/// `x` clamped into `u64`.
pub open spec fn sat64(x: int) -> u64 {
    if x > u64::MAX {
        u64::MAX
    } else if x < 0 {
        0u64
    } else {
        x as u64
    }
}

/// Extending the entries by one changes the totals by that entry's
/// contribution.
pub proof fn lemma_totals_step(entries: Seq<FsEntry>, max_depth: Option<usize>, i: int)
    requires
        0 <= i < entries.len(),
    ensures
        total_size(entries.take(i + 1), max_depth) == total_size(entries.take(i), max_depth)
            + if counted(entries[i], max_depth) {
            entries[i].size_bytes as int
        } else {
            0
        },
        total_count(entries.take(i + 1), max_depth) == total_count(entries.take(i), max_depth)
            + if counted(entries[i], max_depth) {
            1int
        } else {
            0int
        },
{
    assert(entries.take(i + 1).drop_last() =~= entries.take(i));
    assert(entries.take(i + 1).last() == entries[i]);
}

/// The totals are never negative, and the count never exceeds the number of
/// entries.
pub proof fn lemma_totals_bounds(entries: Seq<FsEntry>, max_depth: Option<usize>)
    ensures
        0 <= total_size(entries, max_depth),
        0 <= total_count(entries, max_depth) <= entries.len(),
    decreases entries.len(),
{
    if entries.len() > 0 {
        lemma_totals_bounds(entries.drop_last(), max_depth);
    }
}

/// Totals over a longer prefix are at least those over a shorter one.
pub proof fn lemma_totals_monotone(entries: Seq<FsEntry>, max_depth: Option<usize>, i: int, j: int)
    requires
        0 <= i <= j <= entries.len(),
    ensures
        total_size(entries.take(i), max_depth) <= total_size(entries.take(j), max_depth),
        total_count(entries.take(i), max_depth) <= total_count(entries.take(j), max_depth),
    decreases j - i,
{
    if i < j {
        lemma_totals_step(entries, max_depth, j - 1);
        lemma_totals_monotone(entries, max_depth, i, j - 1);
    }
}

/// Aggregates walked entries into `(size_bytes, file_count)`. A file at depth
/// `d` is counted iff the bound is absent or zero or `d` is within it. The
/// byte total saturates at `u64::MAX`; the true sum of any real tree fits.
pub fn scan_entries(entries: &Vec<FsEntry>, max_depth: Option<usize>) -> (r: (u64, u64))
    ensures
        r.0 == sat64(total_size(entries@, max_depth)),
        r.1 == total_count(entries@, max_depth),
{
    let mut size: u64 = 0;
    let mut count: u64 = 0;
    let n = entries.len();
    proof {
        assert(entries@.take(0) =~= Seq::<FsEntry>::empty());
    }
    let mut i: usize = 0;
    while i < n
        invariant
            i <= n == entries@.len(),
            size == sat64(total_size(entries@.take(i as int), max_depth)),
            count == total_count(entries@.take(i as int), max_depth),
        decreases n - i,
    {
        let e = entries[i];
        proof {
            lemma_totals_step(entries@, max_depth, i as int);
            lemma_totals_bounds(entries@.take(i as int), max_depth);
            lemma_totals_bounds(entries@.take(i + 1), max_depth);
        }
        let within = match max_depth {
            Some(d) => d == 0 || e.depth <= d,
            None => true,
        };
        if e.is_file && within {
            size = saturating_add(size, e.size_bytes);
            count = count + 1;
        }
        i = i + 1;
    }
    proof {
        assert(entries@.take(n as int) =~= entries@);
    }
    (size, count)
}

/// `a + b` clamped into `u64`.
fn saturating_add(a: u64, b: u64) -> (r: u64)
    ensures
        r == sat64(a + b),
{
    if a <= u64::MAX - b {
        a + b
    } else {
        u64::MAX
    }
}

/// Relies on `walkdir::WalkDir::max_depth`: the walk yields the entries of
/// the tree rooted at `root` that are at most `limit` levels below it (the
/// root itself is depth 0), skipping entries it cannot read. Each yielded
/// entry is converted to its depth, file flag, and size; an entry whose
/// metadata cannot be read is carried with size 0.
#[verifier::external_body]
fn walk_tree_bounded(root: &str, limit: usize) -> (entries: Vec<FsEntry>)
    ensures
        forall|i: int| 0 <= i < entries@.len() ==> entries@[i].depth <= limit,
{
    let mut out = Vec::new();
    for entry in walkdir::WalkDir::new(root).max_depth(limit).into_iter().filter_map(|e| e.ok()) {
        out.push(FsEntry {
            depth: entry.depth(),
            is_file: entry.file_type().is_file(),
            size_bytes: entry.metadata().map(|m| m.len()).unwrap_or(0),
        });
    }
    out
}

/// Relies on `walkdir::WalkDir`: the walk yields every entry of the tree
/// rooted at `root` it can read, at any depth, converted as in
/// `walk_tree_bounded`.
#[verifier::external_body]
fn walk_tree_unbounded(root: &str) -> (entries: Vec<FsEntry>)
{
    let mut out = Vec::new();
    for entry in walkdir::WalkDir::new(root).into_iter().filter_map(|e| e.ok()) {
        out.push(FsEntry {
            depth: entry.depth(),
            is_file: entry.file_type().is_file(),
            size_bytes: entry.metadata().map(|m| m.len()).unwrap_or(0),
        });
    }
    out
}

/// Relies on `std::path::Path::exists`.
#[verifier::external_body]
pub(crate) fn path_exists(path: &str) -> bool {
    std::path::Path::new(path).exists()
}

/// The error message of a scan whose resolved root does not exist.
pub open spec fn path_not_found_msg() -> Seq<char> {
    seq!['P', 'a', 't', 'h', ' ', 'n', 'o', 't', ' ', 'f', 'o', 'u', 'n', 'd']
}

pub(crate) fn path_not_found() -> (r: String)
    ensures
        r@ == path_not_found_msg(),
{
    proof {
        reveal_strlit("Path not found");
    }
    let r = String::from_str("Path not found");
    proof {
        assert(r@ =~= path_not_found_msg());
    }
    r
}

/// Walks the directory at `path` (placeholders expanded against `env`) and
/// returns its total byte size and file count, each aggregated from the
/// walked entries exactly as `scan_entries` states. A missing root is the
/// only error; an unreadable entry inside the tree is skipped silently.
pub fn scan_directory(path: &str, max_depth: Option<usize>, env: &EnvMap) -> (r: Result<
    (u64, u64),
    String,
>)
    ensures
        r matches Err(e) ==> e@ == path_not_found_msg(),
{
    let expanded = expand_env_vars(path, env);
    if !path_exists(expanded.as_str()) {
        return Err(path_not_found());
    }
    let entries = walk(expanded.as_str(), max_depth);
    Ok(scan_entries(&entries, max_depth))
}

/// Walks with `walkdir`, bounding the walk itself whenever the depth bound is
/// a positive number.
pub(crate) fn walk(root: &str, max_depth: Option<usize>) -> (entries: Vec<FsEntry>) {
    match max_depth {
        Some(d) => {
            if d > 0 {
                walk_tree_bounded(root, d)
            } else {
                walk_tree_unbounded(root)
            }
        },
        None => walk_tree_unbounded(root),
    }
}

/// A synchronous scan, packaged for the command surface: a missing root
/// yields the error with zero counts instead of a failure.
pub fn check_monitor_path(path: &str, max_depth: Option<usize>, env: &EnvMap) -> (r: CheckResult)
    ensures
        r@.error matches Some(e) ==> e == path_not_found_msg() && r@.size_bytes == 0
            && r@.file_count == 0,
{
    match scan_directory(path, max_depth, env) {
        Ok((size_bytes, file_count)) => CheckResult { size_bytes, file_count, error: None },
        Err(e) => CheckResult { size_bytes: 0, file_count: 0, error: Some(e) },
    }
}

} // verus!
