//! Streaming scans: the same walk as the synchronous scan, but emitting a
//! progress event each time the running file count crosses a multiple of the
//! progress interval, and exactly one terminal event with the final totals.

use crate::resolve::{expand_env_vars, EnvMap};
use crate::scan::{
    counted, lemma_totals_bounds, lemma_totals_monotone, lemma_totals_step, path_exists,
    path_not_found, sat64, total_count, total_size, walk, FsEntry,
};
use crate::types::{ScanProgress, ScanProgressV};
use vstd::prelude::*;

verus! {

/// Progress events are emitted every time this many files have been counted.
pub const DEFAULT_PROGRESS_INTERVAL: u64 = 500;

/// The views of a whole event list, element by element.
pub open spec fn progress_view(evs: Seq<ScanProgress>) -> Seq<ScanProgressV> {
    evs.map_values(|p: ScanProgress| p@)
}

/// The non-terminal event emitted right after the entry at `i` is counted.
pub open spec fn progress_event_at(
    id: Seq<char>,
    entries: Seq<FsEntry>,
    max_depth: Option<usize>,
    i: int,
) -> ScanProgressV {
    ScanProgressV {
        monitor_id: id,
        size_bytes: sat64(total_size(entries.take(i + 1), max_depth)),
        file_count: sat64(total_count(entries.take(i + 1), max_depth)),
        done: false,
        error: None,
        last_scan_at: None,
    }
}

/// The non-terminal events of a streaming scan, from position `pos` on: one
/// per counted entry whose running count is a multiple of `interval`.
pub open spec fn mid_events(
    id: Seq<char>,
    entries: Seq<FsEntry>,
    max_depth: Option<usize>,
    interval: u64,
    pos: int,
) -> Seq<ScanProgressV>
    decreases entries.len() - pos,
{
    if pos < 0 || pos >= entries.len() {
        Seq::empty()
    } else {
        let rest = mid_events(id, entries, max_depth, interval, pos + 1);
        if counted(entries[pos], max_depth) && interval > 0 && total_count(
            entries.take(pos + 1),
            max_depth,
        ) % (interval as int) == 0 {
            seq![progress_event_at(id, entries, max_depth, pos)] + rest
        } else {
            rest
        }
    }
}

/// The one terminal event of a completed streaming scan.
pub open spec fn terminal_event(
    id: Seq<char>,
    entries: Seq<FsEntry>,
    max_depth: Option<usize>,
    now: u64,
) -> ScanProgressV {
    ScanProgressV {
        monitor_id: id,
        size_bytes: sat64(total_size(entries, max_depth)),
        file_count: sat64(total_count(entries, max_depth)),
        done: true,
        error: None,
        last_scan_at: Some(now),
    }
}

/// The full event list of a streaming scan over the given entries.
pub open spec fn stream_events(
    id: Seq<char>,
    entries: Seq<FsEntry>,
    max_depth: Option<usize>,
    interval: u64,
    now: u64,
) -> Seq<ScanProgressV> {
    mid_events(id, entries, max_depth, interval, 0) + seq![
        terminal_event(id, entries, max_depth, now),
    ]
}

/// Every non-terminal event reflects a prefix of the walk: within one scan's
/// event list the totals never decrease, no event before the last is
/// terminal, and every event carries the scan's monitor id.
pub proof fn lemma_mid_events_shape(
    id: Seq<char>,
    entries: Seq<FsEntry>,
    max_depth: Option<usize>,
    interval: u64,
    pos: int,
)
    requires
        0 <= pos,
    ensures
        forall|k: int|
            0 <= k < mid_events(id, entries, max_depth, interval, pos).len() ==> {
                let ev = #[trigger] mid_events(id, entries, max_depth, interval, pos)[k];
                &&& !ev.done
                &&& ev.error is None
                &&& ev.monitor_id == id
                &&& sat64(total_size(entries.take(pos), max_depth)) <= ev.size_bytes <= sat64(
                    total_size(entries, max_depth),
                )
                &&& sat64(total_count(entries.take(pos), max_depth)) <= ev.file_count <= sat64(
                    total_count(entries, max_depth),
                )
            },
        forall|k1: int, k2: int|
            0 <= k1 <= k2 < mid_events(id, entries, max_depth, interval, pos).len() ==> {
                let e1 = #[trigger] mid_events(id, entries, max_depth, interval, pos)[k1];
                let e2 = #[trigger] mid_events(id, entries, max_depth, interval, pos)[k2];
                e1.size_bytes <= e2.size_bytes && e1.file_count <= e2.file_count
            },
    decreases entries.len() - pos,
{
    if pos >= entries.len() {
    } else {
        lemma_mid_events_shape(id, entries, max_depth, interval, pos + 1);
        lemma_totals_monotone(entries, max_depth, pos, pos + 1);
        assert(entries.take(entries.len() as int) =~= entries);
        lemma_totals_monotone(entries, max_depth, pos + 1, entries.len() as int);
    }
}

/// Builds the streamed event list for already-walked entries: a progress
/// event whenever the running count crosses a multiple of `interval`, then
/// the terminal event carrying the final totals and the scan timestamp.
pub fn streaming_events(
    monitor_id: &str,
    entries: &Vec<FsEntry>,
    max_depth: Option<usize>,
    interval: u64,
    now: u64,
) -> (r: Vec<ScanProgress>)
    requires
        interval > 0,
    ensures
        progress_view(r@) == stream_events(monitor_id@, entries@, max_depth, interval, now),
{
    let mut out: Vec<ScanProgress> = Vec::new();
    let mut size: u64 = 0;
    let mut count: u64 = 0;
    let n = entries.len();
    proof {
        assert(entries@.take(0) =~= Seq::<FsEntry>::empty());
        assert(progress_view(out@) =~= Seq::<ScanProgressV>::empty());
    }
    let mut i: usize = 0;
    while i < n
        invariant
            interval > 0,
            i <= n == entries@.len(),
            size == sat64(total_size(entries@.take(i as int), max_depth)),
            count == total_count(entries@.take(i as int), max_depth),
            progress_view(out@) + mid_events(monitor_id@, entries@, max_depth, interval, i as int)
                == mid_events(monitor_id@, entries@, max_depth, interval, 0),
        decreases n - i,
    {
        let ghost before = progress_view(out@);
        let e = entries[i];
        proof {
            lemma_totals_step(entries@, max_depth, i as int);
            lemma_totals_bounds(entries@.take(i as int), max_depth);
            lemma_totals_bounds(entries@.take(i + 1), max_depth);
        }
        let within = match max_depth {
            Some(d) => d == 0 || e.depth <= d,
            None => true,
        };
        if e.is_file && within {
            size = saturating_add(size, e.size_bytes);
            count = count + 1;
            if count % interval == 0 {
                let ev = ScanProgress {
                    monitor_id: String::from_str(monitor_id),
                    size_bytes: size,
                    file_count: count,
                    done: false,
                    error: None,
                    last_scan_at: None,
                };
                proof {
                    assert(ev@ == progress_event_at(monitor_id@, entries@, max_depth, i as int));
                }
                out.push(ev);
                proof {
                    assert(progress_view(out@) =~= before + seq![
                        progress_event_at(monitor_id@, entries@, max_depth, i as int),
                    ]);
                    assert(mid_events(monitor_id@, entries@, max_depth, interval, i as int)
                        == seq![progress_event_at(monitor_id@, entries@, max_depth, i as int)]
                        + mid_events(monitor_id@, entries@, max_depth, interval, i + 1));
                    assert(progress_view(out@) + mid_events(
                        monitor_id@,
                        entries@,
                        max_depth,
                        interval,
                        i + 1,
                    ) =~= before + mid_events(monitor_id@, entries@, max_depth, interval, i as int));
                }
            } else {
                proof {
                    assert(mid_events(monitor_id@, entries@, max_depth, interval, i as int)
                        == mid_events(monitor_id@, entries@, max_depth, interval, i + 1));
                }
            }
        } else {
            proof {
                assert(mid_events(monitor_id@, entries@, max_depth, interval, i as int)
                    == mid_events(monitor_id@, entries@, max_depth, interval, i + 1));
            }
        }
        i = i + 1;
    }
    proof {
        assert(entries@.take(n as int) =~= entries@);
        assert(mid_events(monitor_id@, entries@, max_depth, interval, n as int)
            == Seq::<ScanProgressV>::empty());
        assert(progress_view(out@) + Seq::<ScanProgressV>::empty() =~= progress_view(out@));
        lemma_totals_bounds(entries@, max_depth);
    }
    let ghost mids = progress_view(out@);
    let terminal = ScanProgress {
        monitor_id: String::from_str(monitor_id),
        size_bytes: size,
        file_count: count,
        done: true,
        error: None,
        last_scan_at: Some(now),
    };
    proof {
        assert(terminal@ == terminal_event(monitor_id@, entries@, max_depth, now));
    }
    out.push(terminal);
    proof {
        assert(progress_view(out@) =~= mids + seq![
            terminal_event(monitor_id@, entries@, max_depth, now),
        ]);
    }
    out
}

/// `a + b` clamped into `u64`.
fn saturating_add(a: u64, b: u64) -> (r: u64)
    ensures
        r == sat64(a + b),
{
    if a <= u64::MAX - b {
        a + b
    } else {
        u64::MAX
    }
}

/// A streaming scan of the directory at `path`: resolves the path, walks the
/// tree, and returns the events to deliver, in order. A missing root yields a
/// single terminal error event. Whatever the walk met, the event list ends in
/// exactly one terminal event, all events carry this scan's monitor id, and
/// the streamed totals never decrease.
pub fn check_monitor_path_streaming(
    monitor_id: &str,
    path: &str,
    max_depth: Option<usize>,
    env: &EnvMap,
    interval: u64,
    now: u64,
) -> (r: Vec<ScanProgress>)
    requires
        interval > 0,
    ensures
        r@.len() >= 1,
        r@[r@.len() - 1]@.done,
        forall|i: int| 0 <= i < r@.len() - 1 ==> !r@[i]@.done,
        forall|i: int| 0 <= i < r@.len() ==> r@[i]@.monitor_id == monitor_id@,
        forall|i: int, j: int|
            0 <= i <= j < r@.len() ==> r@[i]@.size_bytes <= r@[j]@.size_bytes
                && r@[i]@.file_count <= r@[j]@.file_count,
{
    let expanded = expand_env_vars(path, env);
    if !path_exists(expanded.as_str()) {
        let ev = ScanProgress {
            monitor_id: String::from_str(monitor_id),
            size_bytes: 0,
            file_count: 0,
            done: true,
            error: Some(path_not_found()),
            last_scan_at: None,
        };
        let mut out: Vec<ScanProgress> = Vec::new();
        out.push(ev);
        return out;
    }
    let entries = walk(expanded.as_str(), max_depth);
    let r = streaming_events(monitor_id, &entries, max_depth, interval, now);
    proof {
        lemma_stream_events_shape(monitor_id@, entries@, max_depth, interval, now);
        assert(forall|i: int| 0 <= i < r@.len() ==> #[trigger] progress_view(r@)[i] == r@[i]@);
        let evs = stream_events(monitor_id@, entries@, max_depth, interval, now);
        assert(progress_view(r@).len() == r@.len());
        assert forall|i: int| 0 <= i < r@.len() - 1 implies !(#[trigger] r@[i])@.done by {
            assert(r@[i]@ == evs[i]);
        }
        assert forall|i: int| 0 <= i < r@.len() implies (#[trigger] r@[i])@.monitor_id
            == monitor_id@ by {
            assert(r@[i]@ == evs[i]);
        }
        assert forall|i: int, j: int| 0 <= i <= j < r@.len() implies (#[trigger] r@[i])@.size_bytes
            <= (#[trigger] r@[j])@.size_bytes && r@[i]@.file_count <= r@[j]@.file_count by {
            assert(r@[i]@ == evs[i]);
            assert(r@[j]@ == evs[j]);
        }
        assert(r@[r@.len() - 1]@ == evs.last());
    }
    r
}

/// Monotonicity of streaming: a scan's event list holds at least one event;
/// exactly the last one is terminal; every event carries the scan's monitor
/// id; and neither the streamed file counts nor the streamed byte totals
/// ever decrease, because every event reflects a prefix of the walk.
pub proof fn lemma_stream_events_shape(
    id: Seq<char>,
    entries: Seq<FsEntry>,
    max_depth: Option<usize>,
    interval: u64,
    now: u64,
)
    ensures
        stream_events(id, entries, max_depth, interval, now).len() >= 1,
        stream_events(id, entries, max_depth, interval, now).last().done,
        forall|i: int|
            0 <= i < stream_events(id, entries, max_depth, interval, now).len() - 1
                ==> !(#[trigger] stream_events(id, entries, max_depth, interval, now)[i]).done,
        forall|i: int|
            0 <= i < stream_events(id, entries, max_depth, interval, now).len() ==> (
            #[trigger] stream_events(id, entries, max_depth, interval, now)[i]).monitor_id == id,
        forall|i: int, j: int|
            0 <= i <= j < stream_events(id, entries, max_depth, interval, now).len() ==> {
                let e1 = #[trigger] stream_events(id, entries, max_depth, interval, now)[i];
                let e2 = #[trigger] stream_events(id, entries, max_depth, interval, now)[j];
                e1.size_bytes <= e2.size_bytes && e1.file_count <= e2.file_count
            },
{
    lemma_mid_events_shape(id, entries, max_depth, interval, 0);
    lemma_totals_bounds(entries, max_depth);
    assert(entries.take(0) =~= Seq::<FsEntry>::empty());
    lemma_totals_monotone(entries, max_depth, 0, entries.len() as int);
    assert(entries.take(entries.len() as int) =~= entries);
    let evs = stream_events(id, entries, max_depth, interval, now);
    let mids = mid_events(id, entries, max_depth, interval, 0);
    assert(evs.len() == mids.len() + 1);
    assert(evs[evs.len() - 1] == terminal_event(id, entries, max_depth, now));
    assert(forall|i: int| 0 <= i < mids.len() ==> evs[i] == mids[i]);
}

/// Streaming idempotence: the terminal event of a streaming scan carries
/// exactly the totals the synchronous `scan_entries` computes for the same
/// entries and depth bound, together with the scan timestamp.
pub proof fn lemma_streaming_matches_scan(
    id: Seq<char>,
    entries: Seq<FsEntry>,
    max_depth: Option<usize>,
    interval: u64,
    now: u64,
)
    requires
        entries.len() <= u64::MAX,
    ensures
        stream_events(id, entries, max_depth, interval, now).last() == terminal_event(
            id,
            entries,
            max_depth,
            now,
        ),
        terminal_event(id, entries, max_depth, now).size_bytes == sat64(
            total_size(entries, max_depth),
        ),
        terminal_event(id, entries, max_depth, now).file_count as int == total_count(
            entries,
            max_depth,
        ),
        terminal_event(id, entries, max_depth, now).done,
        terminal_event(id, entries, max_depth, now).last_scan_at == Some(now),
{
    lemma_totals_bounds(entries, max_depth);
}

} // verus!
