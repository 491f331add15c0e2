//! Directory-size monitoring engine: a depth-bounded directory walker with
//! progress streaming, a persisted registry of monitor definitions, and a
//! background sweep coordinator that raises an alert when a watched directory
//! grows past its configured threshold.

pub mod config_codec;
pub mod json;
pub mod registry;
pub mod resolve;
pub mod scan;
pub mod stream;
pub mod sweep;
pub mod utils;
pub mod text;
pub mod types;

pub use config_codec::monitors_to_json;
pub use config_codec::parse_monitors_json;
pub use config_codec::parse_settings_json;
pub use config_codec::settings_to_json;
pub use registry::apply_mute;
pub use registry::get_default_monitors;
pub use registry::import_monitors;
pub use registry::load_monitors_from_file;
pub use registry::load_settings;
pub use registry::validate_monitors;
pub use resolve::expand_env_vars;
pub use resolve::EnvMap;
pub use scan::check_monitor_path;
pub use scan::scan_directory;
pub use scan::scan_entries;
pub use scan::FsEntry;
pub use stream::check_monitor_path_streaming;
pub use stream::streaming_events;
pub use stream::DEFAULT_PROGRESS_INTERVAL;
pub use sweep::apply_scan_outcome;
pub use sweep::breaches;
pub use sweep::run_sweep_cycle;
pub use sweep::SweepOutcome;
pub use types::Alert;
pub use types::AppSettings;
pub use types::CheckResult;
pub use types::MonitorConfig;
pub use types::MonitorStatus;
pub use types::ScanProgress;
pub use utils::get_folder_name;
pub use utils::get_windows_accent_color;

use vstd::prelude::*;

verus! {

/// Default background sweep cadence, in minutes.
pub fn default_check_interval() -> (r: u32)
    ensures
        r == 60,
{
    60
}

} // verus!
