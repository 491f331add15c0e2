//! The monitor registry: the built-in default seed, loading with fallback to
//! the defaults when nothing usable is persisted, import validation, and the
//! mute mutation the notification boundary can request.

use crate::config_codec::{parse_monitors_doc, parse_monitors_json, parse_settings_doc,
    parse_settings_json};
use crate::text::{str_eq_chars, str_to_chars};
use crate::types::{monitors_view, AppSettings, MonitorConfig, MonitorConfigV};
use vstd::prelude::*;

verus! {

/// The built-in seed: the user's temporary files, the download folder, and
/// the system temporary folder.
pub open spec fn spec_default_monitors() -> Seq<MonitorConfigV> {
    seq![
        MonitorConfigV {
            id: "windows-temp"@,
            name: "Windows Temp"@,
            path: "%LOCALAPPDATA%\\Temp"@,
            threshold_micro_mb: 1_024_000_000,
            enabled: true,
            notify: true,
            max_depth: None,
            last_scan_at: None,
        },
        MonitorConfigV {
            id: "downloads"@,
            name: "Downloads"@,
            path: "%USERPROFILE%\\Downloads"@,
            threshold_micro_mb: 2_048_000_000,
            enabled: true,
            notify: true,
            max_depth: None,
            last_scan_at: None,
        },
        MonitorConfigV {
            id: "user-temp"@,
            name: "User Temp"@,
            path: "%TEMP%"@,
            threshold_micro_mb: 512_000_000,
            enabled: true,
            notify: true,
            max_depth: None,
            last_scan_at: None,
        },
    ]
}

/// The built-in default monitor set.
pub fn get_default_monitors() -> (r: Vec<MonitorConfig>)
    ensures
        monitors_view(r@) == spec_default_monitors(),
{
    let mut r: Vec<MonitorConfig> = Vec::new();
    r.push(
        MonitorConfig {
            id: String::from_str("windows-temp"),
            name: String::from_str("Windows Temp"),
            path: String::from_str("%LOCALAPPDATA%\\Temp"),
            threshold_micro_mb: 1_024_000_000,
            enabled: true,
            notify: true,
            max_depth: None,
            last_scan_at: None,
        },
    );
    r.push(
        MonitorConfig {
            id: String::from_str("downloads"),
            name: String::from_str("Downloads"),
            path: String::from_str("%USERPROFILE%\\Downloads"),
            threshold_micro_mb: 2_048_000_000,
            enabled: true,
            notify: true,
            max_depth: None,
            last_scan_at: None,
        },
    );
    r.push(
        MonitorConfig {
            id: String::from_str("user-temp"),
            name: String::from_str("User Temp"),
            path: String::from_str("%TEMP%"),
            threshold_micro_mb: 512_000_000,
            enabled: true,
            notify: true,
            max_depth: None,
            last_scan_at: None,
        },
    );
    proof {
        assert(monitors_view(r@) =~= spec_default_monitors());
    }
    r
}

/// A registry is well-formed when its identifiers are pairwise distinct.
pub open spec fn monitors_well_formed(ms: Seq<MonitorConfigV>) -> bool {
    forall|i: int, j: int| 0 <= i < j < ms.len() ==> (#[trigger] ms[i]).id != (#[trigger] ms[j]).id
}

/// Whether the identifiers of the given monitors are pairwise distinct.
pub fn validate_monitors(monitors: &Vec<MonitorConfig>) -> (r: bool)
    ensures
        r == monitors_well_formed(monitors_view(monitors@)),
{
    let ghost msv = monitors_view(monitors@);
    proof {
        assert(forall|k: int| 0 <= k < msv.len() ==> (#[trigger] msv[k]) == monitors@[k]@);
    }
    let n = monitors.len();
    let mut i: usize = 0;
    while i < n
        invariant
            n == monitors@.len() == msv.len(),
            msv == monitors_view(monitors@),
            forall|k: int| 0 <= k < msv.len() ==> (#[trigger] msv[k]) == monitors@[k]@,
            i <= n,
            forall|a: int, b: int| 0 <= a < b < n && a < i ==> (#[trigger] msv[a]).id != (
            #[trigger] msv[b]).id,
        decreases n - i,
    {
        let idc = str_to_chars(monitors[i].id.as_str());
        let mut j: usize = i + 1;
        while j < n
            invariant
                n == monitors@.len() == msv.len(),
                msv == monitors_view(monitors@),
                forall|k: int| 0 <= k < msv.len() ==> (#[trigger] msv[k]) == monitors@[k]@,
                i < j <= n || (i + 1 == j && j > n),
                i < n,
                idc@ == msv[i as int].id,
                forall|b: int| i < b < j ==> (#[trigger] msv[b]).id != msv[i as int].id,
            decreases n - j,
        {
            if str_eq_chars(monitors[j].id.as_str(), &idc, 0, idc.len()) {
                proof {
                    assert(idc@.subrange(0, idc@.len() as int) =~= idc@);
                    assert(msv[j as int].id == msv[i as int].id);
                }
                return false;
            }
            proof {
                assert(idc@.subrange(0, idc@.len() as int) =~= idc@);
            }
            j = j + 1;
        }
        i = i + 1;
    }
    true
}

/// Loads the monitor registry from the persisted document, if one is there
/// and parses; anything else degrades to the built-in defaults, never to an
/// error.
pub fn load_monitors_from_file(content: Option<&str>) -> (r: Vec<MonitorConfig>)
    ensures
        match content {
            None => monitors_view(r@) == spec_default_monitors(),
            Some(c) => match parse_monitors_doc(c@) {
                Some(l) => monitors_view(r@) == l,
                None => monitors_view(r@) == spec_default_monitors(),
            },
        },
{
    match content {
        None => get_default_monitors(),
        Some(c) => match parse_monitors_json(c) {
            Some(v) => v,
            None => get_default_monitors(),
        },
    }
}

/// Loads the settings from the persisted document, if one is there and
/// parses; anything else degrades to the defaults.
pub fn load_settings(content: Option<&str>) -> (r: AppSettings)
    ensures
        match content {
            None => r.minimize_to_tray == true && r.check_interval_minutes == 60,
            Some(c) => match parse_settings_doc(c@) {
                Some(t) => r.minimize_to_tray == t.0 && r.check_interval_minutes == t.1,
                None => r.minimize_to_tray == true && r.check_interval_minutes == 60,
            },
        },
{
    match content {
        None => AppSettings::default(),
        Some(c) => match parse_settings_json(c) {
            Some((minimize_to_tray, check_interval_minutes)) => AppSettings {
                minimize_to_tray,
                check_interval_minutes,
            },
            None => AppSettings::default(),
        },
    }
}

/// The error an import of an unusable document reports.
pub open spec fn invalid_config_msg() -> Seq<char> {
    seq!['I', 'n', 'v', 'a', 'l', 'i', 'd', ' ', 'c', 'o', 'n', 'f', 'i', 'g', ' ', 'f', 'i',
        'l', 'e']
}

/// Imports a monitor list from a serialized document: the document must
/// parse and the parsed list must be well-formed, else the import fails and
/// nothing is replaced.
pub fn import_monitors(content: &str) -> (r: Result<Vec<MonitorConfig>, String>)
    ensures
        r matches Ok(v) ==> parse_monitors_doc(content@) == Some(monitors_view(v@))
            && monitors_well_formed(monitors_view(v@)),
        r is Ok <==> (parse_monitors_doc(content@) matches Some(l) && monitors_well_formed(l)),
        r matches Err(e) ==> e@ == invalid_config_msg(),
{
    match parse_monitors_json(content) {
        Some(v) => {
            if validate_monitors(&v) {
                Ok(v)
            } else {
                Err(invalid_config())
            }
        },
        None => Err(invalid_config()),
    }
}

fn invalid_config() -> (r: String)
    ensures
        r@ == invalid_config_msg(),
{
    proof {
        reveal_strlit("Invalid config file");
    }
    let r = String::from_str("Invalid config file");
    proof {
        assert(r@ =~= invalid_config_msg());
    }
    r
}

/// The first index holding the given identifier, at or after `from`.
pub open spec fn first_with_id(ms: Seq<MonitorConfigV>, id: Seq<char>, from: int) -> Option<int>
    decreases ms.len() - from,
{
    if from < 0 || from >= ms.len() {
        None
    } else if ms[from].id == id {
        Some(from)
    } else {
        first_with_id(ms, id, from + 1)
    }
}

/// `m` with notification turned off and every other field kept.
pub open spec fn with_muted(m: MonitorConfigV) -> MonitorConfigV {
    MonitorConfigV { notify: false, ..m }
}

/// Mutes the first monitor with the given identifier: its `notify` flag is
/// cleared, every other monitor is untouched, and nothing changes when no
/// monitor carries the identifier.
pub fn apply_mute(monitors: &mut Vec<MonitorConfig>, id: &str) -> (changed: bool)
    ensures
        final(monitors)@.len() == old(monitors)@.len(),
        match first_with_id(monitors_view(old(monitors)@), id@, 0) {
            None => !changed && monitors_view(final(monitors)@) == monitors_view(old(monitors)@),
            Some(i) => changed && monitors_view(final(monitors)@) == monitors_view(
                old(monitors)@,
            ).update(i, with_muted(monitors_view(old(monitors)@)[i])),
        },
{
    let ghost origv = monitors_view(monitors@);
    proof {
        assert(forall|k: int| 0 <= k < origv.len() ==> (#[trigger] origv[k]) == monitors@[k]@);
    }
    let idc = str_to_chars(id);
    let n = monitors.len();
    let mut i: usize = 0;
    while i < n
        invariant
            n == monitors@.len() == origv.len(),
            monitors@ == old(monitors)@,
            origv == monitors_view(monitors@),
            forall|k: int| 0 <= k < origv.len() ==> (#[trigger] origv[k]) == monitors@[k]@,
            idc@ == id@,
            i <= n,
            first_with_id(origv, id@, 0) == first_with_id(origv, id@, i as int),
        decreases n - i,
    {
        if str_eq_chars(monitors[i].id.as_str(), &idc, 0, idc.len()) {
            proof {
                assert(idc@.subrange(0, idc@.len() as int) =~= idc@);
                assert(first_with_id(origv, id@, i as int) == Some(i as int));
            }
            let m = &mut monitors[i];
            m.notify = false;
            proof {
                assert(monitors_view(monitors@) =~= origv.update(
                    i as int,
                    with_muted(origv[i as int]),
                ));
            }
            return true;
        }
        proof {
            assert(idc@.subrange(0, idc@.len() as int) =~= idc@);
        }
        i = i + 1;
    }
    proof {
        assert(monitors_view(monitors@) =~= origv);
    }
    false
}

} // verus!
