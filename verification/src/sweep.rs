//! The background sweep: one pass over all enabled monitors, scanning each,
//! refreshing its last-scan timestamp, and collecting an alert for every
//! monitor whose measured size strictly exceeds its threshold.

use crate::resolve::{expand_env_vars, EnvMap};
use crate::scan::scan_directory;
use crate::types::{Alert, AlertV, MonitorConfig, MonitorConfigV, ScanProgress, ScanProgressV};
use vstd::prelude::*;

verus! {

/// The strict threshold comparison, stated over exact integers. Measured
/// megabytes are binary (`size_bytes / 2^20`) and the threshold is kept in
/// millionths of a megabyte, so `size / 2^20 > threshold / 10^6` holds
/// exactly when `size * 10^6 > threshold * 2^20`. A size exactly at the
/// threshold does not breach.
pub open spec fn spec_breaches(size_bytes: u64, threshold_micro_mb: u64) -> bool {
    size_bytes * 1_000_000 > threshold_micro_mb * 1_048_576
}

/// Whether `size_bytes` strictly exceeds a threshold of
/// `threshold_micro_mb` millionths of a binary megabyte.
pub fn breaches(size_bytes: u64, threshold_micro_mb: u64) -> (r: bool)
    ensures
        r == spec_breaches(size_bytes, threshold_micro_mb),
{
    (size_bytes as u128) * 1_000_000 > (threshold_micro_mb as u128) * 1_048_576
}

/// `m` with its last-scan timestamp set to `now` and every other field kept.
pub open spec fn with_last_scan(m: MonitorConfigV, now: u64) -> MonitorConfigV {
    MonitorConfigV { last_scan_at: Some(now), ..m }
}

/// Folds one monitor's scan outcome into the registry entry: a successful
/// scan stamps `last_scan_at` and yields the terminal progress event plus an
/// alert exactly when the monitor wants notification and the size strictly
/// exceeds the threshold; a failed scan leaves the entry untouched and yields
/// the terminal error event.
pub fn apply_scan_outcome(
    monitor: &mut MonitorConfig,
    outcome: Result<(u64, u64), String>,
    expanded_path: String,
    now: u64,
) -> (r: (ScanProgress, Option<Alert>))
    ensures
        outcome matches Ok(t) ==> {
            &&& final(monitor)@ == with_last_scan(old(monitor)@, now)
            &&& r.0@ == (ScanProgressV {
                monitor_id: old(monitor)@.id,
                size_bytes: t.0,
                file_count: t.1,
                done: true,
                error: None,
                last_scan_at: Some(now),
            })
            &&& (old(monitor)@.notify && spec_breaches(t.0, old(monitor)@.threshold_micro_mb)
                <==> r.1 is Some)
            &&& (r.1 matches Some(a) ==> a@ == (AlertV {
                monitor_id: old(monitor)@.id,
                name: old(monitor)@.name,
                path: expanded_path@,
                size_bytes: t.0,
                threshold_micro_mb: old(monitor)@.threshold_micro_mb,
            }))
        },
        outcome matches Err(e) ==> {
            &&& final(monitor)@ == old(monitor)@
            &&& r.0@ == (ScanProgressV {
                monitor_id: old(monitor)@.id,
                size_bytes: 0,
                file_count: 0,
                done: true,
                error: Some(e@),
                last_scan_at: None,
            })
            &&& r.1 is None
        },
{
    match outcome {
        Ok((size_bytes, file_count)) => {
            monitor.last_scan_at = Some(now);
            let ev = ScanProgress {
                monitor_id: monitor.id.clone(),
                size_bytes,
                file_count,
                done: true,
                error: None,
                last_scan_at: Some(now),
            };
            let alert = if monitor.notify && breaches(size_bytes, monitor.threshold_micro_mb) {
                Some(
                    Alert {
                        monitor_id: monitor.id.clone(),
                        name: monitor.name.clone(),
                        path: expanded_path,
                        size_bytes,
                        threshold_micro_mb: monitor.threshold_micro_mb,
                    },
                )
            } else {
                None
            };
            (ev, alert)
        },
        Err(e) => {
            let ev = ScanProgress {
                monitor_id: monitor.id.clone(),
                size_bytes: 0,
                file_count: 0,
                done: true,
                error: Some(e),
                last_scan_at: None,
            };
            (ev, None)
        },
    }
}

/// Number of enabled monitors.
pub open spec fn enabled_count(s: Seq<MonitorConfigV>) -> int
    decreases s.len(),
{
    if s.len() == 0 {
        0
    } else {
        enabled_count(s.drop_last()) + if s.last().enabled {
            1int
        } else {
            0int
        }
    }
}

proof fn lemma_enabled_count_step(s: Seq<MonitorConfigV>, i: int)
    requires
        0 <= i < s.len(),
    ensures
        enabled_count(s.take(i + 1)) == enabled_count(s.take(i)) + if s[i].enabled {
            1int
        } else {
            0int
        },
{
    assert(s.take(i + 1).drop_last() =~= s.take(i));
    assert(s.take(i + 1).last() == s[i]);
}

/// What one sweep cycle hands back to its caller: the progress events to
/// deliver in order, the alerts to raise, whether any registry entry changed
/// (and the registry therefore needs one batched save), and the cycle's
/// completion timestamp.
pub struct SweepOutcome {
    pub events: Vec<ScanProgress>,
    pub alerts: Vec<Alert>,
    pub changed: bool,
    pub completed_at: u64,
}

/// One full sweep: every enabled monitor is scanned (two events each: a
/// zero-count start event and a terminal event); a disabled monitor is left
/// completely untouched; a failed scan never stops the rest of the sweep.
/// Alerts are raised only for enabled monitors that asked for notification,
/// and only on a strict threshold breach, at most once per monitor per cycle.
pub fn run_sweep_cycle(monitors: &mut Vec<MonitorConfig>, env: &EnvMap, now: u64) -> (r:
    SweepOutcome)
    ensures
        final(monitors)@.len() == old(monitors)@.len(),
        forall|i: int|
            0 <= i < old(monitors)@.len() ==> {
                let m0 = (#[trigger] old(monitors)@[i])@;
                let m1 = final(monitors)@[i]@;
                &&& (!m0.enabled ==> m1 == m0)
                &&& (m1 == m0 || m1 == with_last_scan(m0, now))
            },
        r.changed ==> exists|i: int|
            0 <= i < old(monitors)@.len() && (#[trigger] old(monitors)@[i])@.enabled
                && final(monitors)@[i]@ == with_last_scan(old(monitors)@[i]@, now),
        !r.changed ==> forall|i: int|
            0 <= i < old(monitors)@.len() ==> (#[trigger] final(monitors)@[i])@ == old(
                monitors,
            )@[i]@,
        r.completed_at == now,
        r.events@.len() == 2 * enabled_count(crate::types::monitors_view(old(monitors)@)),
        r.alerts@.len() <= enabled_count(crate::types::monitors_view(old(monitors)@)),
        crate::registry::monitors_well_formed(crate::types::monitors_view(old(monitors)@))
            ==> forall|j1: int, j2: int|
            0 <= j1 < j2 < r.alerts@.len() ==> (#[trigger] r.alerts@[j1])@.monitor_id != (
            #[trigger] r.alerts@[j2])@.monitor_id,
        forall|j: int|
            0 <= j < r.alerts@.len() ==> {
                let a = (#[trigger] r.alerts@[j])@;
                &&& spec_breaches(a.size_bytes, a.threshold_micro_mb)
                &&& exists|i: int|
                    0 <= i < old(monitors)@.len() && {
                        let m0 = (#[trigger] old(monitors)@[i])@;
                        m0.enabled && m0.notify && m0.id == a.monitor_id
                            && m0.threshold_micro_mb == a.threshold_micro_mb
                    }
            },
{
    let ghost orig = monitors@;
    let ghost origv = crate::types::monitors_view(monitors@);
    let mut events: Vec<ScanProgress> = Vec::new();
    let mut alerts: Vec<Alert> = Vec::new();
    let ghost mut wits: Seq<int> = Seq::empty();
    let mut changed = false;
    let n = monitors.len();
    proof {
        assert(origv.take(0) =~= Seq::<MonitorConfigV>::empty());
    }
    let mut i: usize = 0;
    while i < n
        invariant
            n == monitors@.len() == orig.len(),
            origv == crate::types::monitors_view(orig),
            origv.len() == orig.len(),
            forall|k: int| 0 <= k < orig.len() ==> (#[trigger] origv[k]) == orig[k]@,
            i <= n,
            forall|k: int| i <= k < n ==> (#[trigger] monitors@[k]) == orig[k],
            forall|k: int|
                0 <= k < i ==> {
                    let m0 = (#[trigger] orig[k])@;
                    let m1 = monitors@[k]@;
                    &&& (!m0.enabled ==> m1 == m0)
                    &&& (m1 == m0 || m1 == with_last_scan(m0, now))
                },
            changed ==> exists|k: int|
                0 <= k < i && (#[trigger] orig[k])@.enabled && monitors@[k]@ == with_last_scan(
                    orig[k]@,
                    now,
                ),
            !changed ==> forall|k: int| 0 <= k < i ==> (#[trigger] monitors@[k])@ == orig[k]@,
            events@.len() == 2 * enabled_count(origv.take(i as int)),
            alerts@.len() <= enabled_count(origv.take(i as int)),
            wits.len() == alerts@.len(),
            forall|j: int|
                0 <= j < wits.len() ==> 0 <= #[trigger] wits[j] < i && alerts@[j]@.monitor_id
                    == orig[wits[j]]@.id,
            forall|j1: int, j2: int| 0 <= j1 < j2 < wits.len() ==> #[trigger] wits[j1] < #[trigger] wits[j2],
            forall|j: int|
                0 <= j < alerts@.len() ==> {
                    let a = (#[trigger] alerts@[j])@;
                    &&& spec_breaches(a.size_bytes, a.threshold_micro_mb)
                    &&& exists|k: int|
                        0 <= k < orig.len() && {
                            let m0 = (#[trigger] orig[k])@;
                            m0.enabled && m0.notify && m0.id == a.monitor_id
                                && m0.threshold_micro_mb == a.threshold_micro_mb
                        }
                },
        decreases n - i,
    {
        proof {
            lemma_enabled_count_step(origv, i as int);
        }
        if monitors[i].enabled {
            let start_ev = ScanProgress {
                monitor_id: monitors[i].id.clone(),
                size_bytes: 0,
                file_count: 0,
                done: false,
                error: None,
                last_scan_at: None,
            };
            events.push(start_ev);
            let outcome = scan_directory(monitors[i].path.as_str(), monitors[i].max_depth, env);
            let succeeded = outcome.is_ok();
            let expanded = expand_env_vars(monitors[i].path.as_str(), env);
            let ghost before = monitors@[i as int];
            let m = &mut monitors[i];
            let (ev, alert) = apply_scan_outcome(m, outcome, expanded, now);
            events.push(ev);
            if let Some(a) = alert {
                let ghost prev_alerts = alerts@;
                let ghost av = a@;
                proof {
                    assert(before == orig[i as int]);
                    assert(spec_breaches(av.size_bytes, av.threshold_micro_mb));
                    assert(before@.enabled && before@.notify && before@.id == av.monitor_id
                        && before@.threshold_micro_mb == av.threshold_micro_mb);
                }
                alerts.push(a);
                proof {
                    wits = wits.push(i as int);
                }
                proof {
                    assert forall|j: int|
                        0 <= j < alerts@.len() implies {
                        let x = (#[trigger] alerts@[j])@;
                        &&& spec_breaches(x.size_bytes, x.threshold_micro_mb)
                        &&& exists|k: int|
                            0 <= k < orig.len() && {
                                let m0 = (#[trigger] orig[k])@;
                                m0.enabled && m0.notify && m0.id == x.monitor_id
                                    && m0.threshold_micro_mb == x.threshold_micro_mb
                            }
                    } by {
                        if j < prev_alerts.len() {
                            assert(alerts@[j] == prev_alerts[j]);
                        } else {
                            assert(alerts@[j] == a);
                            assert(0 <= i < orig.len() && {
                                let m0 = (orig[i as int])@;
                                m0.enabled && m0.notify && m0.id == av.monitor_id
                                    && m0.threshold_micro_mb == av.threshold_micro_mb
                            });
                        }
                    }
                }
            }
            if succeeded {
                changed = true;
            }
        }
        i = i + 1;
    }
    proof {
        assert(origv.take(n as int) =~= origv);
    }
    let ghost ga = alerts@;
    let r = SweepOutcome { events, alerts, changed, completed_at: now };
    proof {
        assert(r.alerts@ == ga);
        if crate::registry::monitors_well_formed(origv) {
            assert forall|j1: int, j2: int|
                0 <= j1 < j2 < r.alerts@.len() implies (#[trigger] r.alerts@[j1])@.monitor_id != (
            #[trigger] r.alerts@[j2])@.monitor_id by {
                let k1 = wits[j1];
                let k2 = wits[j2];
                assert(origv[k1] == orig[k1]@ && origv[k2] == orig[k2]@);
                assert(origv[k1].id != origv[k2].id);
            }
        }
        assert forall|j: int|
            0 <= j < r.alerts@.len() implies {
            let a = (#[trigger] r.alerts@[j])@;
            &&& spec_breaches(a.size_bytes, a.threshold_micro_mb)
            &&& exists|k: int|
                0 <= k < old(monitors)@.len() && {
                    let m0 = (#[trigger] old(monitors)@[k])@;
                    m0.enabled && m0.notify && m0.id == a.monitor_id && m0.threshold_micro_mb
                        == a.threshold_micro_mb
                }
        } by {
            assert(r.alerts@[j] == ga[j]);
            let a = ga[j]@;
            let k = choose|k: int|
                0 <= k < orig.len() && {
                    let m0 = (#[trigger] orig[k])@;
                    m0.enabled && m0.notify && m0.id == a.monitor_id && m0.threshold_micro_mb
                        == a.threshold_micro_mb
                };
            assert(old(monitors)@[k] == orig[k]);
        }
    }
    r
}

} // verus!
