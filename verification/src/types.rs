//! Data model: monitor definitions, process settings, and the transient
//! results and progress events a scan produces.

use vstd::prelude::*;

verus! {

/// Persisted definition of one watched directory.
///
/// The threshold is kept in micro-megabytes (millionths of one binary
/// megabyte), so that fractional megabyte limits are exact integers:
/// a limit of 100.5 MB is stored as `100_500_000`.
#[derive(Debug, Clone, PartialEq)]
pub struct MonitorConfig {
    pub id: String,
    pub name: String,
    pub path: String,
    pub threshold_micro_mb: u64,
    pub enabled: bool,
    pub notify: bool,
    /// `None` or `Some(0)` means the walk is unbounded.
    pub max_depth: Option<usize>,
    /// Unix timestamp (seconds) of the last completed background scan.
    pub last_scan_at: Option<u64>,
}

/// Mathematical image of a `MonitorConfig`.
pub ghost struct MonitorConfigV {
    pub id: Seq<char>,
    pub name: Seq<char>,
    pub path: Seq<char>,
    pub threshold_micro_mb: u64,
    pub enabled: bool,
    pub notify: bool,
    pub max_depth: Option<usize>,
    pub last_scan_at: Option<u64>,
}

impl View for MonitorConfig {
    type V = MonitorConfigV;

    open spec fn view(&self) -> MonitorConfigV {
        MonitorConfigV {
            id: self.id@,
            name: self.name@,
            path: self.path@,
            threshold_micro_mb: self.threshold_micro_mb,
            enabled: self.enabled,
            notify: self.notify,
            max_depth: self.max_depth,
            last_scan_at: self.last_scan_at,
        }
    }
}

/// The views of a whole monitor list, element by element.
pub open spec fn monitors_view(ms: Seq<MonitorConfig>) -> Seq<MonitorConfigV> {
    ms.map_values(|m: MonitorConfig| m@)
}

/// A depth limit of `None` or `Some(0)` places no bound on the walk.
pub open spec fn depth_unlimited(max_depth: Option<usize>) -> bool {
    match max_depth {
        None => true,
        Some(d) => d == 0,
    }
}

/// Process-wide configuration.
#[derive(Debug, Clone, Copy, PartialEq, Eq, Structural)]
pub struct AppSettings {
    pub minimize_to_tray: bool,
    /// Background sweep cadence in minutes; positive.
    pub check_interval_minutes: u32,
}

impl Default for AppSettings {
    fn default() -> (r: Self)
        ensures
            r.minimize_to_tray == true,
            r.check_interval_minutes == 60,
    {
        AppSettings { minimize_to_tray: true, check_interval_minutes: 60 }
    }
}

/// Outcome of one synchronous scan.
#[derive(Debug, Clone, PartialEq)]
pub struct CheckResult {
    pub size_bytes: u64,
    pub file_count: u64,
    pub error: Option<String>,
}

/// Mathematical image of a `CheckResult`.
pub ghost struct CheckResultV {
    pub size_bytes: u64,
    pub file_count: u64,
    pub error: Option<Seq<char>>,
}

impl View for CheckResult {
    type V = CheckResultV;

    open spec fn view(&self) -> CheckResultV {
        CheckResultV {
            size_bytes: self.size_bytes,
            file_count: self.file_count,
            error: match self.error {
                Some(ref e) => Some(e@),
                None => None,
            },
        }
    }
}

/// One event of a streaming scan. For a given scan the events arrive with
/// non-decreasing totals and end in exactly one event with `done == true`.
#[derive(Debug, Clone, PartialEq)]
pub struct ScanProgress {
    pub monitor_id: String,
    pub size_bytes: u64,
    pub file_count: u64,
    pub done: bool,
    pub error: Option<String>,
    /// Populated only on the terminal event of a completed scan.
    pub last_scan_at: Option<u64>,
}

/// Mathematical image of a `ScanProgress`.
pub ghost struct ScanProgressV {
    pub monitor_id: Seq<char>,
    pub size_bytes: u64,
    pub file_count: u64,
    pub done: bool,
    pub error: Option<Seq<char>>,
    pub last_scan_at: Option<u64>,
}

impl View for ScanProgress {
    type V = ScanProgressV;

    open spec fn view(&self) -> ScanProgressV {
        ScanProgressV {
            monitor_id: self.monitor_id@,
            size_bytes: self.size_bytes,
            file_count: self.file_count,
            done: self.done,
            error: match self.error {
                Some(ref e) => Some(e@),
                None => None,
            },
            last_scan_at: self.last_scan_at,
        }
    }
}

/// Snapshot of one monitor for a consumer of the command surface.
#[derive(Debug, Clone, PartialEq)]
pub struct MonitorStatus {
    pub id: String,
    pub name: String,
    pub path: String,
    pub threshold_micro_mb: u64,
    pub current_size_bytes: Option<u64>,
    pub loading: bool,
    pub error: Option<String>,
    pub enabled: bool,
    pub notify: bool,
    pub last_scan_at: Option<u64>,
}

/// What the coordinator hands to the notification boundary when a monitor's
/// measured size strictly exceeds its threshold.
#[derive(Debug, Clone, PartialEq)]
pub struct Alert {
    pub monitor_id: String,
    pub name: String,
    /// The monitor's path with placeholders already expanded.
    pub path: String,
    pub size_bytes: u64,
    pub threshold_micro_mb: u64,
}

/// Mathematical image of an `Alert`.
pub ghost struct AlertV {
    pub monitor_id: Seq<char>,
    pub name: Seq<char>,
    pub path: Seq<char>,
    pub size_bytes: u64,
    pub threshold_micro_mb: u64,
}

impl View for Alert {
    type V = AlertV;

    open spec fn view(&self) -> AlertV {
        AlertV {
            monitor_id: self.monitor_id@,
            name: self.name@,
            path: self.path@,
            size_bytes: self.size_bytes,
            threshold_micro_mb: self.threshold_micro_mb,
        }
    }
}

} // verus!
