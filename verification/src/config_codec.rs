//! The persisted documents: a monitor list and the process settings, written
//! as JSON with a fixed member order and read back by a whitespace-tolerant
//! parser. Parsing inverts writing exactly; a malformed document parses to
//! `None` and the caller falls back to the built-in defaults.

use crate::json::{
    digits_of, parse_lit, parse_lit_exec, parse_string, parse_string_exec, parse_u64,
    parse_u64_exec, pow10, push_string, push_u64, ser_string, skip_ws, skip_ws_exec, val_of,
};
use crate::text::str_to_chars;
use crate::types::{MonitorConfig, MonitorConfigV};
use vstd::prelude::*;

verus! {

// ---------------------------------------------------------------------------
// Writing
// ---------------------------------------------------------------------------

/// `true` or `false`.
pub open spec fn ser_bool(b: bool) -> Seq<char> {
    if b {
        seq!['t', 'r', 'u', 'e']
    } else {
        seq!['f', 'a', 'l', 's', 'e']
    }
}

/// The word `null`.
pub open spec fn null_chars() -> Seq<char> {
    seq!['n', 'u', 'l', 'l']
}

/// An optional number: `null` or its digits.
pub open spec fn ser_opt_u64(o: Option<u64>) -> Seq<char> {
    match o {
        None => null_chars(),
        Some(v) => digits_of(v as int),
    }
}

/// An optional depth: `null` or its digits.
pub open spec fn ser_opt_usize(o: Option<usize>) -> Seq<char> {
    match o {
        None => null_chars(),
        Some(v) => digits_of(v as int),
    }
}

/// Exactly `k` decimal digits, zero-padded, writing `f` modulo ten to the
/// `k`.
pub open spec fn pad(k: nat, f: int) -> Seq<char>
    decreases k,
{
    if k == 0 {
        Seq::empty()
    } else {
        pad((k - 1) as nat, f / 10) + seq![crate::json::digit_char(f % 10)]
    }
}

/// A threshold in micro-megabytes, written as megabytes with six fraction
/// digits: `100.500000` for `100_500_000`.
pub open spec fn ser_threshold(t: u64) -> Seq<char> {
    digits_of(t as int / 1_000_000) + seq!['.'] + pad(6, t as int % 1_000_000)
}

/// One member of an object: the quoted key, a colon, the value, and whatever
/// follows the member.
pub open spec fn ser_kv(key: Seq<char>, val: Seq<char>, rest: Seq<char>) -> Seq<char> {
    key + (seq![':'] + (val + rest))
}

/// The writing of a monitor object from the `lastScanAt` member on.
pub open spec fn sm_last_scan(m: MonitorConfigV) -> Seq<char> {
    ser_kv("\"lastScanAt\""@, ser_opt_u64(m.last_scan_at), seq!['}'])
}

/// ... from the `maxDepth` member on.
pub open spec fn sm_max_depth(m: MonitorConfigV) -> Seq<char> {
    ser_kv("\"maxDepth\""@, ser_opt_usize(m.max_depth), seq![','] + sm_last_scan(m))
}

/// ... from the `notify` member on.
pub open spec fn sm_notify(m: MonitorConfigV) -> Seq<char> {
    ser_kv("\"notify\""@, ser_bool(m.notify), seq![','] + sm_max_depth(m))
}

/// ... from the `enabled` member on.
pub open spec fn sm_enabled(m: MonitorConfigV) -> Seq<char> {
    ser_kv("\"enabled\""@, ser_bool(m.enabled), seq![','] + sm_notify(m))
}

/// ... from the `thresholdMb` member on.
pub open spec fn sm_threshold(m: MonitorConfigV) -> Seq<char> {
    ser_kv("\"thresholdMb\""@, ser_threshold(m.threshold_micro_mb), seq![','] + sm_enabled(m))
}

/// ... from the `path` member on.
pub open spec fn sm_path(m: MonitorConfigV) -> Seq<char> {
    ser_kv("\"path\""@, ser_string(m.path), seq![','] + sm_threshold(m))
}

/// ... from the `name` member on.
pub open spec fn sm_name(m: MonitorConfigV) -> Seq<char> {
    ser_kv("\"name\""@, ser_string(m.name), seq![','] + sm_path(m))
}

/// ... from the `id` member on.
pub open spec fn sm_id(m: MonitorConfigV) -> Seq<char> {
    ser_kv("\"id\""@, ser_string(m.id), seq![','] + sm_name(m))
}

/// One monitor, as a JSON object with a fixed member order.
pub open spec fn ser_monitor(m: MonitorConfigV) -> Seq<char> {
    seq!['{'] + sm_id(m)
}

/// The monitors from index `i` on, separated by commas.
pub open spec fn ser_list_from(ms: Seq<MonitorConfigV>, i: int) -> Seq<char>
    decreases ms.len() - i,
{
    if i < 0 || i >= ms.len() {
        Seq::empty()
    } else if i == ms.len() - 1 {
        ser_monitor(ms[i])
    } else {
        ser_monitor(ms[i]) + (seq![','] + ser_list_from(ms, i + 1))
    }
}

/// A whole monitor list document.
pub open spec fn ser_monitors(ms: Seq<MonitorConfigV>) -> Seq<char> {
    if ms.len() == 0 {
        seq!['[', ']']
    } else {
        seq!['['] + (ser_list_from(ms, 0) + seq![']'])
    }
}

/// The settings document, from the `checkIntervalMinutes` member on.
pub open spec fn st_interval(check_interval_minutes: u32) -> Seq<char> {
    ser_kv("\"checkIntervalMinutes\""@, digits_of(check_interval_minutes as int), seq!['}'])
}

/// The settings document.
pub open spec fn ser_settings(minimize_to_tray: bool, check_interval_minutes: u32) -> Seq<char> {
    seq!['{'] + ser_kv(
        "\"minimizeToTray\""@,
        ser_bool(minimize_to_tray),
        seq![','] + st_interval(check_interval_minutes),
    )
}

/// Appends the characters of `s`.
fn push_str_lit(out: &mut Vec<char>, s: &str)
    ensures
        final(out)@ == old(out)@ + s@,
{
    let cs = str_to_chars(s);
    let ghost base = out@;
    let mut i: usize = 0;
    while i < cs.len()
        invariant
            i <= cs@.len(),
            cs@ == s@,
            out@ == base + cs@.subrange(0, i as int),
        decreases cs@.len() - i,
    {
        out.push(cs[i]);
        proof {
            assert(cs@.subrange(0, i as int) + seq![cs@[i as int]] =~= cs@.subrange(0, i + 1));
        }
        i = i + 1;
    }
    proof {
        assert(cs@.subrange(0, cs@.len() as int) =~= cs@);
    }
}

/// Appends `true` or `false`.
fn push_bool(out: &mut Vec<char>, b: bool)
    ensures
        final(out)@ == old(out)@ + ser_bool(b),
{
    if b {
        push_str_lit(out, "true");
        proof {
            reveal_strlit("true");
            assert("true"@ =~= ser_bool(true));
        }
    } else {
        push_str_lit(out, "false");
        proof {
            reveal_strlit("false");
            assert("false"@ =~= ser_bool(false));
        }
    }
}

/// Appends `null` or the digits of the number.
fn push_opt_u64(out: &mut Vec<char>, o: Option<u64>)
    ensures
        final(out)@ == old(out)@ + ser_opt_u64(o),
{
    match o {
        None => {
            push_str_lit(out, "null");
            proof {
                reveal_strlit("null");
                assert("null"@ =~= null_chars());
            }
        },
        Some(v) => {
            push_u64(out, v);
        },
    }
}

/// Appends `null` or the digits of the depth.
fn push_opt_usize(out: &mut Vec<char>, o: Option<usize>)
    ensures
        final(out)@ == old(out)@ + ser_opt_usize(o),
{
    match o {
        None => {
            push_str_lit(out, "null");
            proof {
                reveal_strlit("null");
                assert("null"@ =~= null_chars());
            }
        },
        Some(v) => {
            push_u64(out, v as u64);
            proof {
                assert(digits_of((v as u64) as int) == digits_of(v as int));
            }
        },
    }
}

/// Appends exactly `k` zero-padded digits of `f`.
fn push_pad(out: &mut Vec<char>, k: u32, f: u64)
    ensures
        final(out)@ == old(out)@ + pad(k as nat, f as int),
    decreases k,
{
    if k == 0 {
        proof {
            assert(old(out)@ + pad(0, f as int) =~= out@);
        }
    } else {
        push_pad(out, k - 1, f / 10);
        let d = f % 10;
        let c = match d {
            0 => '0',
            1 => '1',
            2 => '2',
            3 => '3',
            4 => '4',
            5 => '5',
            6 => '6',
            7 => '7',
            8 => '8',
            _ => '9',
        };
        out.push(c);
        proof {
            assert(c == crate::json::digit_char((f % 10) as int));
            assert(old(out)@ + pad(k as nat, f as int) =~= out@);
        }
    }
}

/// Appends the threshold, as megabytes with six fraction digits.
fn push_threshold(out: &mut Vec<char>, t: u64)
    ensures
        final(out)@ == old(out)@ + ser_threshold(t),
{
    push_u64(out, t / 1_000_000);
    out.push('.');
    push_pad(out, 6, t % 1_000_000);
    proof {
        assert(old(out)@ + ser_threshold(t) =~= out@);
    }
}

/// Appends one member: the quoted key, a colon, and the already-appended
/// value is left to the caller; this helper covers key and colon.
fn push_key(out: &mut Vec<char>, key: &str)
    ensures
        final(out)@ == old(out)@ + key@ + seq![':'],
{
    push_str_lit(out, key);
    out.push(':');
    proof {
        assert(out@ =~= old(out)@ + key@ + seq![':']);
    }
}

/// Appends one monitor object.
#[verifier::rlimit(100)]
fn push_monitor(out: &mut Vec<char>, m: &MonitorConfig)
    ensures
        final(out)@ == old(out)@ + ser_monitor(m@),
{
    let ghost base = out@;
    out.push('{');
    proof {
        assert(out@ =~= base + seq!['{']);
    }
    // id
    let ghost c0 = out@;
    push_key(out, "\"id\"");
    push_string(out, m.id.as_str());
    out.push(',');
    proof {
        assert(out@ =~= c0 + (ser_kv("\"id\""@, ser_string(m@.id), Seq::empty()) + seq![',']));
    }
    // name
    let ghost c1 = out@;
    push_key(out, "\"name\"");
    push_string(out, m.name.as_str());
    out.push(',');
    proof {
        assert(out@ =~= c1 + (ser_kv("\"name\""@, ser_string(m@.name), Seq::empty()) + seq![',']));
    }
    // path
    let ghost c2 = out@;
    push_key(out, "\"path\"");
    push_string(out, m.path.as_str());
    out.push(',');
    proof {
        assert(out@ =~= c2 + (ser_kv("\"path\""@, ser_string(m@.path), Seq::empty()) + seq![',']));
    }
    // thresholdMb
    let ghost c3 = out@;
    push_key(out, "\"thresholdMb\"");
    push_threshold(out, m.threshold_micro_mb);
    out.push(',');
    proof {
        assert(out@ =~= c3 + (ser_kv(
            "\"thresholdMb\""@,
            ser_threshold(m@.threshold_micro_mb),
            Seq::empty(),
        ) + seq![',']));
    }
    // enabled
    let ghost c4 = out@;
    push_key(out, "\"enabled\"");
    push_bool(out, m.enabled);
    out.push(',');
    proof {
        assert(out@ =~= c4 + (ser_kv("\"enabled\""@, ser_bool(m@.enabled), Seq::empty()) + seq![
            ',',
        ]));
    }
    // notify
    let ghost c5 = out@;
    push_key(out, "\"notify\"");
    push_bool(out, m.notify);
    out.push(',');
    proof {
        assert(out@ =~= c5 + (ser_kv("\"notify\""@, ser_bool(m@.notify), Seq::empty()) + seq![
            ',',
        ]));
    }
    // maxDepth
    let ghost c6 = out@;
    push_key(out, "\"maxDepth\"");
    push_opt_usize(out, m.max_depth);
    out.push(',');
    proof {
        assert(out@ =~= c6 + (ser_kv("\"maxDepth\""@, ser_opt_usize(m@.max_depth), Seq::empty())
            + seq![',']));
    }
    // lastScanAt
    let ghost c7 = out@;
    push_key(out, "\"lastScanAt\"");
    push_opt_u64(out, m.last_scan_at);
    out.push('}');
    proof {
        assert(out@ =~= c7 + ser_kv("\"lastScanAt\""@, ser_opt_u64(m@.last_scan_at), seq!['}']));
        lemma_kv_chain(m@, base, c0, c1, c2, c3, c4, c5, c6, c7, out@);
    }
}

/// One member checkpoint step: what was written for one member, followed by
/// the rest, is the member with the rest folded in.
proof fn lemma_kv_step(cprev: Seq<char>, cnext: Seq<char>, key: Seq<char>, val: Seq<char>, rest: Seq<char>)
    requires
        cnext == cprev + (ser_kv(key, val, Seq::empty()) + seq![',']),
    ensures
        cprev + ser_kv(key, val, seq![','] + rest) == cnext + rest,
{
    assert(cprev + ser_kv(key, val, seq![','] + rest) =~= cnext + rest);
}

/// Folds the eight member checkpoints of `push_monitor` into the one
/// right-nested writing `ser_monitor`.
proof fn lemma_kv_chain(
    m: MonitorConfigV,
    base: Seq<char>,
    c0: Seq<char>,
    c1: Seq<char>,
    c2: Seq<char>,
    c3: Seq<char>,
    c4: Seq<char>,
    c5: Seq<char>,
    c6: Seq<char>,
    c7: Seq<char>,
    fin: Seq<char>,
)
    requires
        c0 == base + seq!['{'],
        c1 == c0 + (ser_kv("\"id\""@, ser_string(m.id), Seq::empty()) + seq![',']),
        c2 == c1 + (ser_kv("\"name\""@, ser_string(m.name), Seq::empty()) + seq![',']),
        c3 == c2 + (ser_kv("\"path\""@, ser_string(m.path), Seq::empty()) + seq![',']),
        c4 == c3 + (ser_kv("\"thresholdMb\""@, ser_threshold(m.threshold_micro_mb), Seq::empty())
            + seq![',']),
        c5 == c4 + (ser_kv("\"enabled\""@, ser_bool(m.enabled), Seq::empty()) + seq![',']),
        c6 == c5 + (ser_kv("\"notify\""@, ser_bool(m.notify), Seq::empty()) + seq![',']),
        c7 == c6 + (ser_kv("\"maxDepth\""@, ser_opt_usize(m.max_depth), Seq::empty()) + seq![',']),
        fin == c7 + ser_kv("\"lastScanAt\""@, ser_opt_u64(m.last_scan_at), seq!['}']),
    ensures
        fin == base + ser_monitor(m),
{
    assert(c7 + sm_last_scan(m) == fin);
    lemma_kv_step(c6, c7, "\"maxDepth\""@, ser_opt_usize(m.max_depth), sm_last_scan(m));
    lemma_kv_step(c5, c6, "\"notify\""@, ser_bool(m.notify), sm_max_depth(m));
    lemma_kv_step(c4, c5, "\"enabled\""@, ser_bool(m.enabled), sm_notify(m));
    lemma_kv_step(c3, c4, "\"thresholdMb\""@, ser_threshold(m.threshold_micro_mb), sm_enabled(m));
    lemma_kv_step(c2, c3, "\"path\""@, ser_string(m.path), sm_threshold(m));
    lemma_kv_step(c1, c2, "\"name\""@, ser_string(m.name), sm_path(m));
    lemma_kv_step(c0, c1, "\"id\""@, ser_string(m.id), sm_name(m));
    assert(base + ser_monitor(m) =~= c0 + sm_id(m));
}

/// Writes the whole monitor list document.
pub fn monitors_to_json(monitors: &Vec<MonitorConfig>) -> (r: String)
    ensures
        r@ == ser_monitors(crate::types::monitors_view(monitors@)),
{
    let ghost msv = crate::types::monitors_view(monitors@);
    let mut out: Vec<char> = Vec::new();
    out.push('[');
    let n = monitors.len();
    proof {
        assert(msv.len() == n);
        assert(forall|k: int| 0 <= k < n ==> (#[trigger] msv[k]) == monitors@[k]@);
        assert(out@ =~= seq!['[']);
        assert(out@ + tail_from(msv, 0) =~= seq!['['] + (ser_list_from(msv, 0) + seq![']']));
    }
    let mut i: usize = 0;
    while i < n
        invariant
            n == monitors@.len(),
            msv == crate::types::monitors_view(monitors@),
            msv.len() == n,
            forall|k: int| 0 <= k < n ==> (#[trigger] msv[k]) == monitors@[k]@,
            i <= n,
            out@ + tail_from(msv, i as int) == seq!['['] + (ser_list_from(msv, 0) + seq![']']),
        decreases n - i,
    {
        let ghost before = out@;
        push_monitor(&mut out, &monitors[i]);
        proof {
            if i + 1 < n {
                assert(ser_list_from(msv, i as int) == ser_monitor(msv[i as int]) + (seq![',']
                    + ser_list_from(msv, i + 1)));
            } else {
                assert(ser_list_from(msv, i as int) == ser_monitor(msv[i as int]));
            }
        }
        if i + 1 < n {
            out.push(',');
            proof {
                assert(out@ + (ser_list_from(msv, i + 1) + seq![']']) =~= before + tail_from(
                    msv,
                    i as int,
                ));
            }
        } else {
            proof {
                assert(out@ + seq![']'] =~= before + tail_from(msv, i as int));
            }
        }
        i = i + 1;
    }
    let ghost done = out@;
    out.push(']');
    proof {
        assert(out@ =~= done + seq![']']);
        assert(done + tail_from(msv, n as int) == seq!['['] + (ser_list_from(msv, 0) + seq![']']));
        if n == 0 {
            assert(seq!['['] + (ser_list_from(msv, 0) + seq![']']) =~= seq!['[', ']']);
        }
        assert(out@ == ser_monitors(msv));
    }
    crate::text::chars_to_string(&out)
}

/// What is still to write when the first `i` monitors are done: the rest of
/// the list and the closing bracket.
pub open spec fn tail_from(ms: Seq<MonitorConfigV>, i: int) -> Seq<char> {
    if i >= ms.len() {
        seq![']']
    } else if i == 0 {
        ser_list_from(ms, 0) + seq![']']
    } else {
        ser_list_from(ms, i) + seq![']']
    }
}

/// Writes the settings document.
pub fn settings_to_json(minimize_to_tray: bool, check_interval_minutes: u32) -> (r: String)
    ensures
        r@ == ser_settings(minimize_to_tray, check_interval_minutes),
{
    let mut out: Vec<char> = Vec::new();
    let ghost base = out@;
    out.push('{');
    let ghost c0 = out@;
    push_key(&mut out, "\"minimizeToTray\"");
    push_bool(&mut out, minimize_to_tray);
    out.push(',');
    let ghost c1 = out@;
    push_key(&mut out, "\"checkIntervalMinutes\"");
    push_u64(&mut out, check_interval_minutes as u64);
    out.push('}');
    proof {
        assert(digits_of((check_interval_minutes as u64) as int) == digits_of(
            check_interval_minutes as int,
        ));
        assert(out@ =~= c1 + st_interval(check_interval_minutes));
        assert(c1 =~= c0 + (ser_kv("\"minimizeToTray\""@, ser_bool(minimize_to_tray), Seq::empty())
            + seq![',']));
        assert(c0 + ser_kv(
            "\"minimizeToTray\""@,
            ser_bool(minimize_to_tray),
            seq![','] + st_interval(check_interval_minutes),
        ) =~= out@);
        assert(base + ser_settings(minimize_to_tray, check_interval_minutes) =~= out@);
        assert(base + ser_settings(minimize_to_tray, check_interval_minutes) =~= ser_settings(
            minimize_to_tray,
            check_interval_minutes,
        ));
    }
    crate::text::chars_to_string(&out)
}

// ---------------------------------------------------------------------------
// Parsing
// ---------------------------------------------------------------------------

/// `true` or `false` at `pos`.
pub open spec fn parse_bool(s: Seq<char>, pos: int) -> Option<(bool, int)> {
    match parse_lit(s, pos, "true"@) {
        Some(p) => Some((true, p)),
        None => match parse_lit(s, pos, "false"@) {
            Some(p) => Some((false, p)),
            None => None,
        },
    }
}

/// `null` or a number at `pos`.
pub open spec fn parse_opt_u64(s: Seq<char>, pos: int) -> Option<(Option<u64>, int)> {
    match parse_lit(s, pos, "null"@) {
        Some(p) => Some((None, p)),
        None => match parse_u64(s, pos) {
            Some((v, p)) => Some((Some(v), p)),
            None => None,
        },
    }
}

/// The first position at or after `pos` holding no digit.
pub open spec fn digit_run_end(s: Seq<char>, pos: int) -> int
    decreases s.len() - pos,
{
    if pos < 0 || pos >= s.len() {
        pos
    } else if crate::json::is_digit(s[pos]) {
        digit_run_end(s, pos + 1)
    } else {
        pos
    }
}

/// A threshold in megabytes at `pos` — digits with up to six fraction
/// digits — read into micro-megabytes.
pub open spec fn parse_threshold(s: Seq<char>, pos: int) -> Option<(u64, int)> {
    match parse_u64(s, pos) {
        None => None,
        Some((ip, p1)) => {
            if p1 < s.len() && s[p1] == '.' {
                let e = digit_run_end(s, p1 + 1);
                let k = e - (p1 + 1);
                if 1 <= k <= 6 {
                    let fv = val_of(s.subrange(p1 + 1, e));
                    let total = (ip as int) * 1_000_000 + fv * pow10((6 - k) as nat);
                    if total <= u64::MAX {
                        Some((total as u64, e))
                    } else {
                        None
                    }
                } else {
                    None
                }
            } else {
                let total = (ip as int) * 1_000_000;
                if total <= u64::MAX {
                    Some((total as u64, p1))
                } else {
                    None
                }
            }
        },
    }
}

/// A member key at `pos`: optional whitespace, the quoted key, optional
/// whitespace, a colon, optional whitespace. Lands on the value.
pub open spec fn parse_key(s: Seq<char>, pos: int, key: Seq<char>) -> Option<int> {
    let q = skip_ws(s, pos);
    match parse_lit(s, q, key) {
        None => None,
        Some(p2) => {
            let q3 = skip_ws(s, p2);
            if q3 < s.len() && s[q3] == ':' {
                Some(skip_ws(s, q3 + 1))
            } else {
                None
            }
        },
    }
}

/// A comma followed by a member key.
pub open spec fn parse_sep_key(s: Seq<char>, pos: int, key: Seq<char>) -> Option<int> {
    let q = skip_ws(s, pos);
    if q < s.len() && s[q] == ',' {
        parse_key(s, q + 1, key)
    } else {
        None
    }
}

/// An optional trailing member: absent (the position is left unchanged and
/// the value is `None`), or a comma, the key, and `null` or a number.
pub open spec fn parse_opt_member(s: Seq<char>, pos: int, key: Seq<char>) -> Option<
    (Option<u64>, int),
> {
    let q = skip_ws(s, pos);
    if q >= s.len() || s[q] != ',' {
        Some((None, pos))
    } else {
        match parse_key(s, q + 1, key) {
            None => Some((None, pos)),
            Some(p2) => match parse_opt_u64(s, p2) {
                None => None,
                Some((v, p3)) => Some((v, p3)),
            },
        }
    }
}

/// One monitor object at `pos`, with the fixed member order and the two
/// optional trailing members.
#[verifier::opaque]
pub open spec fn parse_monitor(s: Seq<char>, pos: int) -> Option<(MonitorConfigV, int)> {
    let p = skip_ws(s, pos);
    if !(0 <= p && p < s.len() && s[p] == '{') {
        None
    } else {
        match parse_key(s, p + 1, "\"id\""@) {
            None => None,
            Some(p1) => match parse_string(s, p1) {
                None => None,
                Some((id, p2)) => match parse_sep_key(s, p2, "\"name\""@) {
                    None => None,
                    Some(p3) => match parse_string(s, p3) {
                        None => None,
                        Some((name, p4)) => match parse_sep_key(s, p4, "\"path\""@) {
                            None => None,
                            Some(p5) => match parse_string(s, p5) {
                                None => None,
                                Some((path, p6)) => match parse_sep_key(
                                    s,
                                    p6,
                                    "\"thresholdMb\""@,
                                ) {
                                    None => None,
                                    Some(p7) => match parse_threshold(s, p7) {
                                        None => None,
                                        Some((t, p8)) => match parse_sep_key(
                                            s,
                                            p8,
                                            "\"enabled\""@,
                                        ) {
                                            None => None,
                                            Some(p9) => match parse_bool(s, p9) {
                                                None => None,
                                                Some((en, p10)) => parse_monitor_rest(
                                                    s,
                                                    p10,
                                                    id,
                                                    name,
                                                    path,
                                                    t,
                                                    en,
                                                ),
                                            },
                                        },
                                    },
                                },
                            },
                        },
                    },
                },
            },
        }
    }
}

/// The tail of a monitor object: `notify`, the optional members, and the
/// closing brace.
pub open spec fn parse_monitor_rest(
    s: Seq<char>,
    pos: int,
    id: Seq<char>,
    name: Seq<char>,
    path: Seq<char>,
    t: u64,
    en: bool,
) -> Option<(MonitorConfigV, int)> {
    match parse_sep_key(s, pos, "\"notify\""@) {
        None => None,
        Some(p11) => match parse_bool(s, p11) {
            None => None,
            Some((no, p12)) => match parse_opt_member(s, p12, "\"maxDepth\""@) {
                None => None,
                Some((mdv, p13)) => {
                    if mdv matches Some(d) && d > usize::MAX as u64 {
                        None
                    } else {
                        let md: Option<usize> = match mdv {
                            None => None,
                            Some(d) => Some(d as usize),
                        };
                        match parse_opt_member(s, p13, "\"lastScanAt\""@) {
                            None => None,
                            Some((ls, p14)) => {
                                let q = skip_ws(s, p14);
                                if q < s.len() && s[q] == '}' {
                                    Some(
                                        (
                                            MonitorConfigV {
                                                id: id,
                                                name: name,
                                                path: path,
                                                threshold_micro_mb: t,
                                                enabled: en,
                                                notify: no,
                                                max_depth: md,
                                                last_scan_at: ls,
                                            },
                                            q + 1,
                                        ),
                                    )
                                } else {
                                    None
                                }
                            },
                        }
                    }
                },
            },
        },
    }
}

/// The monitors of a list, from the one at `pos` on; `acc` holds those
/// already read.
pub open spec fn parse_monitor_list(s: Seq<char>, pos: int, acc: Seq<MonitorConfigV>) -> Option<
    (Seq<MonitorConfigV>, int),
>
    decreases s.len() - pos,
{
    match parse_monitor(s, pos) {
        None => None,
        Some((m, p1)) => {
            let q = skip_ws(s, p1);
            if !(pos < q + 1 <= s.len()) {
                None
            } else if q < s.len() && s[q] == ']' {
                Some((acc.push(m), q + 1))
            } else if q < s.len() && s[q] == ',' {
                parse_monitor_list(s, q + 1, acc.push(m))
            } else {
                None
            }
        },
    }
}

/// A whole monitor list at `pos`.
pub open spec fn parse_monitors(s: Seq<char>, pos: int) -> Option<(Seq<MonitorConfigV>, int)> {
    let p = skip_ws(s, pos);
    if !(0 <= p && p < s.len() && s[p] == '[') {
        None
    } else {
        let q = skip_ws(s, p + 1);
        if q < s.len() && s[q] == ']' {
            Some((Seq::empty(), q + 1))
        } else {
            parse_monitor_list(s, p + 1, Seq::empty())
        }
    }
}

/// A whole monitor list document: the list and nothing else but whitespace.
pub open spec fn parse_monitors_doc(s: Seq<char>) -> Option<Seq<MonitorConfigV>> {
    match parse_monitors(s, 0) {
        None => None,
        Some((l, p)) => {
            if skip_ws(s, p) == s.len() {
                Some(l)
            } else {
                None
            }
        },
    }
}

/// A whole settings document: the two members and nothing else but
/// whitespace.
pub open spec fn parse_settings_doc(s: Seq<char>) -> Option<(bool, u32)> {
    let p = skip_ws(s, 0);
    if !(0 <= p && p < s.len() && s[p] == '{') {
        None
    } else {
        match parse_key(s, p + 1, "\"minimizeToTray\""@) {
            None => None,
            Some(p1) => match parse_bool(s, p1) {
                None => None,
                Some((mt, p2)) => match parse_sep_key(s, p2, "\"checkIntervalMinutes\""@) {
                    None => None,
                    Some(p3) => match parse_u64(s, p3) {
                        None => None,
                        Some((iv, p4)) => {
                            if iv > u32::MAX as u64 {
                                None
                            } else {
                                let q = skip_ws(s, p4);
                                if q < s.len() && s[q] == '}' && skip_ws(s, q + 1) == s.len() {
                                    Some((mt, iv as u32))
                                } else {
                                    None
                                }
                            }
                        },
                    },
                },
            },
        }
    }
}

/// `true` or `false` at `pos`.
fn parse_bool_exec(cs: &Vec<char>, pos: usize) -> (r: Option<(bool, usize)>)
    requires
        pos <= cs@.len(),
    ensures
        match r {
            Some(t) => parse_bool(cs@, pos as int) == Some((t.0, t.1 as int)) && pos <= t.1
                <= cs@.len(),
            None => parse_bool(cs@, pos as int) is None,
        },
{
    match parse_lit_exec(cs, pos, "true") {
        Some(p) => Some((true, p)),
        None => match parse_lit_exec(cs, pos, "false") {
            Some(p) => Some((false, p)),
            None => None,
        },
    }
}

/// `null` or a number at `pos`.
fn parse_opt_u64_exec(cs: &Vec<char>, pos: usize) -> (r: Option<(Option<u64>, usize)>)
    requires
        pos <= cs@.len(),
    ensures
        match r {
            Some(t) => parse_opt_u64(cs@, pos as int) == Some((t.0, t.1 as int)) && pos <= t.1
                <= cs@.len(),
            None => parse_opt_u64(cs@, pos as int) is None,
        },
{
    match parse_lit_exec(cs, pos, "null") {
        Some(p) => Some((None, p)),
        None => match parse_u64_exec(cs, pos) {
            Some((v, p)) => Some((Some(v), p)),
            None => None,
        },
    }
}

/// The first position at or after `pos` holding no digit.
fn digit_run_end_exec(cs: &Vec<char>, pos: usize) -> (r: usize)
    requires
        pos <= cs@.len(),
    ensures
        r == digit_run_end(cs@, pos as int),
        pos <= r <= cs@.len(),
{
    let mut i = pos;
    while i < cs.len() && 48 <= (cs[i] as u32) && (cs[i] as u32) <= 57
        invariant
            pos <= i <= cs@.len(),
            digit_run_end(cs@, pos as int) == digit_run_end(cs@, i as int),
        decreases cs@.len() - i,
    {
        i = i + 1;
    }
    i
}

/// A threshold in megabytes at `pos`, read into micro-megabytes.
fn parse_threshold_exec(cs: &Vec<char>, pos: usize) -> (r: Option<(u64, usize)>)
    requires
        pos <= cs@.len(),
    ensures
        match r {
            Some(t) => parse_threshold(cs@, pos as int) == Some((t.0, t.1 as int)) && pos <= t.1
                <= cs@.len(),
            None => parse_threshold(cs@, pos as int) is None,
        },
{
    match parse_u64_exec(cs, pos) {
        None => None,
        Some((ip, p1)) => {
            if p1 < cs.len() && cs[p1] == '.' {
                let e = digit_run_end_exec(cs, p1 + 1);
                proof {
                    lemma_digit_run(cs@, p1 + 1);
                }
                let k = e - (p1 + 1);
                if 1 <= k && k <= 6 {
                    let fv = frac_value(cs, p1 + 1, e);
                    let scale = pow10_exec(6 - (k as u32));
                    proof {
                        assert((fv as int) * (scale as int) <= 1_000_000_000_000)
                            by (nonlinear_arith)
                            requires
                                0 <= fv <= 999_999,
                                0 <= scale <= 1_000_000,
                        ;
                    }
                    let total128 = (ip as u128) * 1_000_000 + (fv as u128) * (scale as u128);
                    proof {
                        assert(pow10((6 - (k as int)) as nat) == scale as int);
                        assert((ip as int) * 1_000_000 + (fv as int) * (scale as int)
                            == total128 as int);
                    }
                    if total128 <= u64::MAX as u128 {
                        Some((total128 as u64, e))
                    } else {
                        None
                    }
                } else {
                    None
                }
            } else {
                if ip <= u64::MAX / 1_000_000 {
                    proof {
                        assert((ip as int) * 1_000_000 <= u64::MAX) by (nonlinear_arith)
                            requires
                                ip <= u64::MAX / 1_000_000,
                        ;
                    }
                    Some((ip * 1_000_000, p1))
                } else {
                    proof {
                        assert((ip as int) * 1_000_000 > u64::MAX) by (nonlinear_arith)
                            requires
                                ip > u64::MAX / 1_000_000,
                        ;
                    }
                    None
                }
            }
        },
    }
}

/// The value of the digit run `cs[lo..hi]` (at most six digits).
fn frac_value(cs: &Vec<char>, lo: usize, hi: usize) -> (r: u64)
    requires
        lo <= hi <= cs@.len(),
        hi - lo <= 6,
        forall|k: int| lo <= k < hi ==> crate::json::is_digit(#[trigger] cs@[k]),
    ensures
        r == val_of(cs@.subrange(lo as int, hi as int)),
        r <= 999_999,
{
    let mut acc: u64 = 0;
    let mut i = lo;
    proof {
        assert(cs@.subrange(lo as int, lo as int) =~= Seq::<char>::empty());
    }
    while i < hi
        invariant
            lo <= i <= hi <= cs@.len(),
            hi - lo <= 6,
            forall|k: int| lo <= k < hi ==> crate::json::is_digit(#[trigger] cs@[k]),
            acc == val_of(cs@.subrange(lo as int, i as int)),
            acc <= pow10((i - lo) as nat) - 1,
        decreases hi - i,
    {
        proof {
            assert(crate::json::is_digit(cs@[i as int]));
            lemma_pow10_bound((i + 1 - lo) as nat);
            lemma_pow10_mono((i + 1 - lo) as nat, 6);
            lemma_pow10_vals();
        }
        let d = ((cs[i] as u32) - 48) as u64;
        proof {
            assert(cs@.subrange(lo as int, i + 1).drop_last() =~= cs@.subrange(
                lo as int,
                i as int,
            ));
            assert(cs@.subrange(lo as int, i + 1).last() == cs@[i as int]);
            assert(acc * 10 + d <= pow10((i + 1 - lo) as nat) - 1) by (nonlinear_arith)
                requires
                    acc <= pow10((i - lo) as nat) - 1,
                    0 <= d <= 9,
                    pow10((i + 1 - lo) as nat) == 10 * pow10((i - lo) as nat),
                    pow10((i - lo) as nat) >= 1,
            ;
        }
        acc = acc * 10 + d;
        i = i + 1;
    }
    proof {
        lemma_pow10_vals();
        lemma_pow10_mono((i - lo) as nat, 6);
    }
    acc
}

/// Ten to the `k`, executably.
fn pow10_exec(k: u32) -> (r: u64)
    requires
        k <= 6,
    ensures
        r as int == pow10(k as nat),
        r <= 1_000_000,
    decreases k,
{
    proof {
        lemma_pow10_vals();
    }
    if k == 0 {
        1
    } else {
        let rest = pow10_exec(k - 1);
        proof {
            lemma_pow10_mono((k - 1) as nat, 5);
        }
        10 * rest
    }
}

/// The concrete powers of ten up to the sixth.
proof fn lemma_pow10_vals()
    ensures
        pow10(0) == 1,
        pow10(1) == 10,
        pow10(2) == 100,
        pow10(3) == 1_000,
        pow10(4) == 10_000,
        pow10(5) == 100_000,
        pow10(6) == 1_000_000,
{
    assert(pow10(0) == 1);
    assert(pow10(1) == 10);
    assert(pow10(2) == 100);
    assert(pow10(3) == 1_000);
    assert(pow10(4) == 10_000);
    assert(pow10(5) == 100_000);
    assert(pow10(6) == 1_000_000);
}

/// Every character before the end of a digit run is a digit, and the run
/// ends at the string's end or at a non-digit.
proof fn lemma_digit_run(s: Seq<char>, pos: int)
    requires
        0 <= pos <= s.len(),
    ensures
        pos <= digit_run_end(s, pos) <= s.len(),
        forall|k: int|
            pos <= k < digit_run_end(s, pos) ==> crate::json::is_digit(#[trigger] s[k]),
        digit_run_end(s, pos) < s.len() ==> !crate::json::is_digit(s[digit_run_end(s, pos)]),
    decreases s.len() - pos,
{
    if pos < s.len() && crate::json::is_digit(s[pos]) {
        lemma_digit_run(s, pos + 1);
    }
}

proof fn lemma_pow10_bound(k: nat)
    ensures
        pow10(k) >= 1,
        pow10(k) == 10 * pow10((k - 1) as nat) || k == 0,
    decreases k,
{
    if k > 0 {
        lemma_pow10_bound((k - 1) as nat);
    }
}

proof fn lemma_pow10_mono(a: nat, b: nat)
    requires
        a <= b,
    ensures
        pow10(a) <= pow10(b),
    decreases b,
{
    if a < b {
        lemma_pow10_mono(a, (b - 1) as nat);
        lemma_pow10_bound(b);
        lemma_pow10_bound((b - 1) as nat);
    }
}


/// A member key at `pos`, landing on the value.
fn parse_key_exec(cs: &Vec<char>, pos: usize, key: &str) -> (r: Option<usize>)
    requires
        pos <= cs@.len(),
    ensures
        match r {
            Some(p) => parse_key(cs@, pos as int, key@) == Some(p as int) && pos <= p <= cs@.len(),
            None => parse_key(cs@, pos as int, key@) is None,
        },
{
    let q = skip_ws_exec(cs, pos);
    match parse_lit_exec(cs, q, key) {
        None => None,
        Some(p2) => {
            proof {
                crate::json::lemma_skip_ws_bounds(cs@, pos as int);
            }
            let q3 = skip_ws_exec(cs, p2);
            if q3 < cs.len() && cs[q3] == ':' {
                Some(skip_ws_exec(cs, q3 + 1))
            } else {
                None
            }
        },
    }
}

/// A comma followed by a member key.
fn parse_sep_key_exec(cs: &Vec<char>, pos: usize, key: &str) -> (r: Option<usize>)
    requires
        pos <= cs@.len(),
    ensures
        match r {
            Some(p) => parse_sep_key(cs@, pos as int, key@) == Some(p as int) && pos <= p
                <= cs@.len(),
            None => parse_sep_key(cs@, pos as int, key@) is None,
        },
{
    let q = skip_ws_exec(cs, pos);
    if q < cs.len() && cs[q] == ',' {
        parse_key_exec(cs, q + 1, key)
    } else {
        None
    }
}

/// An optional trailing member.
fn parse_opt_member_exec(cs: &Vec<char>, pos: usize, key: &str) -> (r: Option<
    (Option<u64>, usize),
>)
    requires
        pos <= cs@.len(),
    ensures
        match r {
            Some(t) => parse_opt_member(cs@, pos as int, key@) == Some((t.0, t.1 as int)) && pos
                <= t.1 <= cs@.len(),
            None => parse_opt_member(cs@, pos as int, key@) is None,
        },
{
    let q = skip_ws_exec(cs, pos);
    if q >= cs.len() || cs[q] != ',' {
        return Some((None, pos));
    }
    match parse_key_exec(cs, q + 1, key) {
        None => Some((None, pos)),
        Some(p2) => match parse_opt_u64_exec(cs, p2) {
            None => None,
            Some((v, p3)) => Some((v, p3)),
        },
    }
}

/// One monitor object at `pos`.
fn parse_monitor_exec(cs: &Vec<char>, pos: usize) -> (r: Option<(MonitorConfig, usize)>)
    requires
        pos <= cs@.len(),
    ensures
        match r {
            Some(t) => parse_monitor(cs@, pos as int) == Some((t.0@, t.1 as int)) && pos < t.1
                <= cs@.len(),
            None => parse_monitor(cs@, pos as int) is None,
        },
{
    proof {
        reveal(parse_monitor);
    }
    let p = skip_ws_exec(cs, pos);
    if !(p < cs.len() && cs[p] == '{') {
        return None;
    }
    let p1 = match parse_key_exec(cs, p + 1, "\"id\"") {
        None => {
            return None;
        },
        Some(x) => x,
    };
    let (id, p2) = match parse_string_exec(cs, p1) {
        None => {
            return None;
        },
        Some(x) => x,
    };
    let p3 = match parse_sep_key_exec(cs, p2, "\"name\"") {
        None => {
            return None;
        },
        Some(x) => x,
    };
    let (name, p4) = match parse_string_exec(cs, p3) {
        None => {
            return None;
        },
        Some(x) => x,
    };
    let p5 = match parse_sep_key_exec(cs, p4, "\"path\"") {
        None => {
            return None;
        },
        Some(x) => x,
    };
    let (path, p6) = match parse_string_exec(cs, p5) {
        None => {
            return None;
        },
        Some(x) => x,
    };
    let p7 = match parse_sep_key_exec(cs, p6, "\"thresholdMb\"") {
        None => {
            return None;
        },
        Some(x) => x,
    };
    let (t, p8) = match parse_threshold_exec(cs, p7) {
        None => {
            return None;
        },
        Some(x) => x,
    };
    let p9 = match parse_sep_key_exec(cs, p8, "\"enabled\"") {
        None => {
            return None;
        },
        Some(x) => x,
    };
    let (en, p10) = match parse_bool_exec(cs, p9) {
        None => {
            return None;
        },
        Some(x) => x,
    };
    let p11 = match parse_sep_key_exec(cs, p10, "\"notify\"") {
        None => {
            return None;
        },
        Some(x) => x,
    };
    let (no, p12) = match parse_bool_exec(cs, p11) {
        None => {
            return None;
        },
        Some(x) => x,
    };
    let (mdv, p13) = match parse_opt_member_exec(cs, p12, "\"maxDepth\"") {
        None => {
            return None;
        },
        Some(x) => x,
    };
    let md: Option<usize> = match mdv {
        None => None,
        Some(d) => {
            if d > usize::MAX as u64 {
                return None;
            }
            Some(d as usize)
        },
    };
    let (ls, p14) = match parse_opt_member_exec(cs, p13, "\"lastScanAt\"") {
        None => {
            return None;
        },
        Some(x) => x,
    };
    let q = skip_ws_exec(cs, p14);
    if q < cs.len() && cs[q] == '}' {
        let m = MonitorConfig {
            id,
            name,
            path,
            threshold_micro_mb: t,
            enabled: en,
            notify: no,
            max_depth: md,
            last_scan_at: ls,
        };
        Some((m, q + 1))
    } else {
        None
    }
}

/// A whole monitor list document in `content`: the parsed monitors, or
/// `None` when the document is malformed.
#[verifier::rlimit(100)]
pub fn parse_monitors_json(content: &str) -> (r: Option<Vec<MonitorConfig>>)
    ensures
        match r {
            Some(v) => parse_monitors_doc(content@) == Some(crate::types::monitors_view(v@)),
            None => parse_monitors_doc(content@) is None,
        },
{
    let cs = str_to_chars(content);
    let p = skip_ws_exec(&cs, 0);
    if !(p < cs.len() && cs[p] == '[') {
        return None;
    }
    let q = skip_ws_exec(&cs, p + 1);
    let mut out: Vec<MonitorConfig> = Vec::new();
    if q < cs.len() && cs[q] == ']' {
        proof {
            assert(crate::types::monitors_view(out@) =~= Seq::<MonitorConfigV>::empty());
        }
        let e = skip_ws_exec(&cs, q + 1);
        if e == cs.len() {
            return Some(out);
        } else {
            return None;
        }
    }
    let mut cur = p + 1;
    let ghost start = (p + 1) as int;
    proof {
        assert(crate::types::monitors_view(out@) =~= Seq::<MonitorConfigV>::empty());
    }
    loop
        invariant
            cs@ == content@,
            cur <= cs@.len(),
            parse_monitor_list(cs@, start, Seq::empty()) == parse_monitor_list(
                cs@,
                cur as int,
                crate::types::monitors_view(out@),
            ),
            parse_monitors(cs@, 0) == parse_monitor_list(cs@, start, Seq::empty()),
        decreases cs@.len() - cur,
    {
        let (m, p1) = match parse_monitor_exec(&cs, cur) {
            None => {
                return None;
            },
            Some(x) => x,
        };
        let ghost before = crate::types::monitors_view(out@);
        let qq = skip_ws_exec(&cs, p1);
        if qq >= cs.len() {
            return None;
        }
        if cs[qq] == ']' {
            out.push(m);
            proof {
                assert(crate::types::monitors_view(out@) =~= before.push(m@));
            }
            let e = skip_ws_exec(&cs, qq + 1);
            if e == cs.len() {
                return Some(out);
            } else {
                return None;
            }
        } else if cs[qq] == ',' {
            out.push(m);
            proof {
                assert(crate::types::monitors_view(out@) =~= before.push(m@));
            }
            cur = qq + 1;
        } else {
            return None;
        }
    }
}

/// A whole settings document in `content`: minimize-to-tray and the check
/// interval, or `None` when the document is malformed.
pub fn parse_settings_json(content: &str) -> (r: Option<(bool, u32)>)
    ensures
        match r {
            Some(t) => parse_settings_doc(content@) == Some((t.0, t.1)),
            None => parse_settings_doc(content@) is None,
        },
{
    let cs = str_to_chars(content);
    let p = skip_ws_exec(&cs, 0);
    if !(p < cs.len() && cs[p] == '{') {
        return None;
    }
    let p1 = match parse_key_exec(&cs, p + 1, "\"minimizeToTray\"") {
        None => {
            return None;
        },
        Some(x) => x,
    };
    let (mt, p2) = match parse_bool_exec(&cs, p1) {
        None => {
            return None;
        },
        Some(x) => x,
    };
    let p3 = match parse_sep_key_exec(&cs, p2, "\"checkIntervalMinutes\"") {
        None => {
            return None;
        },
        Some(x) => x,
    };
    let (iv, p4) = match parse_u64_exec(&cs, p3) {
        None => {
            return None;
        },
        Some(x) => x,
    };
    if iv > u32::MAX as u64 {
        return None;
    }
    let q = skip_ws_exec(&cs, p4);
    if q < cs.len() && cs[q] == '}' {
        let e = skip_ws_exec(&cs, q + 1);
        if e == cs.len() {
            return Some((mt, iv as u32));
        }
    }
    None
}

// ---------------------------------------------------------------------------
// Round trip: parsing inverts writing
// ---------------------------------------------------------------------------

/// Splits a matched concatenation: when `a + b` stands at `pos`, `a` stands
/// at `pos` and `b` right after it.
proof fn lemma_piece_at(s: Seq<char>, pos: int, a: Seq<char>, b: Seq<char>)
    requires
        0 <= pos,
        pos + a.len() + b.len() <= s.len(),
        s.subrange(pos, pos + a.len() + b.len()) == a + b,
    ensures
        s.subrange(pos, pos + a.len()) == a,
        s.subrange(pos + a.len(), pos + a.len() + b.len()) == b,
        forall|k: int| 0 <= k < a.len() ==> s[pos + k] == #[trigger] a[k],
        forall|k: int| 0 <= k < b.len() ==> s[pos + a.len() + k] == #[trigger] b[k],
        a.len() >= 1 ==> s[pos] == a[0],
        b.len() >= 1 ==> s[pos + a.len()] == b[0],
{
    let whole = a + b;
    assert forall|k: int| 0 <= k < whole.len() implies s[pos + k] == #[trigger] whole[k] by {
        assert(s.subrange(pos, pos + whole.len())[k] == whole[k]);
    }
    assert forall|k: int| 0 <= k < a.len() implies s[pos + k] == #[trigger] a[k] by {
        assert(s[pos + k] == whole[k]);
        assert(whole[k] == a[k]);
    }
    assert forall|k: int| 0 <= k < b.len() implies s[pos + a.len() + k] == #[trigger] b[k] by {
        assert(s[pos + a.len() + k] == whole[a.len() + k]);
        assert(whole[a.len() + k] == b[k]);
    }
    assert forall|k: int|
        0 <= k < a.len() implies s.subrange(pos, pos + a.len())[k] == a[k] by {
        assert(s[pos + k] == a[k]);
    }
    assert(s.subrange(pos, pos + a.len()) =~= a);
    assert forall|k: int|
        0 <= k < b.len() implies s.subrange(pos + a.len(), pos + a.len() + b.len())[k] == b[k] by {
        assert(s[pos + a.len() + k] == b[k]);
    }
    assert(s.subrange(pos + a.len(), pos + a.len() + b.len()) =~= b);
    if a.len() >= 1 {
        assert(s[pos + 0] == a[0]);
    }
    if b.len() >= 1 {
        assert(s[pos + a.len() + 0] == b[0]);
    }
}

/// Peels one member: when `ser_kv(key, val, rest)` stands at `c`, the key
/// parses, the value stands right after the colon, and `rest` follows it.
proof fn lemma_member_at(s: Seq<char>, c: int, key: Seq<char>, val: Seq<char>, rest: Seq<char>)
    requires
        0 <= c,
        c + ser_kv(key, val, rest).len() <= s.len(),
        s.subrange(c, c + ser_kv(key, val, rest).len()) == ser_kv(key, val, rest),
        key.len() >= 1,
        !crate::json::is_ws(key[0]),
        val.len() >= 1,
        !crate::json::is_ws(val[0]),
    ensures
        parse_key(s, c, key) == Some(c + key.len() + 1),
        s.subrange(c + key.len() + 1, c + key.len() + 1 + val.len()) == val,
        s.subrange(c + key.len() + 1 + val.len(), c + ser_kv(key, val, rest).len()) == rest,
        forall|k: int| 0 <= k < val.len() ==> s[c + key.len() + 1 + k] == #[trigger] val[k],
{
    let tail1 = seq![':'] + (val + rest);
    assert(ser_kv(key, val, rest) == key + tail1);
    lemma_piece_at(s, c, key, tail1);
    let ckl = c + key.len();
    lemma_piece_at(s, ckl, seq![':'], val + rest);
    assert(s[ckl] == ':');
    lemma_piece_at(s, ckl + 1, val, rest);
    assert(s[c] == key[0]);
    crate::json::lemma_skip_ws_none(s, c);
    crate::json::lemma_skip_ws_none(s, ckl);
    assert(s[ckl + 1] == val[0]);
    crate::json::lemma_skip_ws_none(s, ckl + 1);
    assert(parse_lit(s, c, key) == Some(ckl));
}

/// Parsing inverts writing for booleans.
proof fn lemma_parse_print_bool(s: Seq<char>, pos: int, b: bool)
    requires
        0 <= pos,
        pos + ser_bool(b).len() <= s.len(),
        s.subrange(pos, pos + ser_bool(b).len()) == ser_bool(b),
    ensures
        parse_bool(s, pos) == Some((b, pos + ser_bool(b).len())),
{
    reveal_strlit("true");
    reveal_strlit("false");
    assert forall|k: int|
        0 <= k < ser_bool(b).len() implies s[pos + k] == #[trigger] ser_bool(b)[k] by {
        assert(s.subrange(pos, pos + ser_bool(b).len())[k] == ser_bool(b)[k]);
    }
    if b {
        assert("true"@ =~= ser_bool(true));
        assert(parse_lit(s, pos, "true"@) == Some(pos + 4));
    } else {
        assert("false"@ =~= ser_bool(false));
        if pos + 4 <= s.len() && s.subrange(pos, pos + 4) == "true"@ {
            assert(s[pos] == 't');
            assert(s[pos] == 'f');
        }
        assert(parse_lit(s, pos, "true"@) is None);
        assert(parse_lit(s, pos, "false"@) == Some(pos + 5));
    }
}

/// Parsing inverts writing for optional numbers: the writing followed by a
/// non-digit parses back to the same option.
proof fn lemma_parse_print_opt_u64(s: Seq<char>, pos: int, o: Option<u64>)
    requires
        0 <= pos,
        pos + ser_opt_u64(o).len() <= s.len(),
        s.subrange(pos, pos + ser_opt_u64(o).len()) == ser_opt_u64(o),
        pos + ser_opt_u64(o).len() == s.len() || !crate::json::is_digit(
            s[pos + ser_opt_u64(o).len()],
        ),
    ensures
        parse_opt_u64(s, pos) == Some((o, pos + ser_opt_u64(o).len())),
{
    reveal_strlit("null");
    assert forall|k: int|
        0 <= k < ser_opt_u64(o).len() implies s[pos + k] == #[trigger] ser_opt_u64(o)[k] by {
        assert(s.subrange(pos, pos + ser_opt_u64(o).len())[k] == ser_opt_u64(o)[k]);
    }
    match o {
        None => {
            assert("null"@ =~= null_chars());
            assert(parse_lit(s, pos, "null"@) == Some(pos + 4));
        },
        Some(v) => {
            crate::json::lemma_digits_of(v as int);
            assert(s[pos] == digits_of(v as int)[0]);
            assert(crate::json::is_digit(s[pos]));
            assert("null"@ =~= null_chars());
            if pos + 4 <= s.len() && s.subrange(pos, pos + 4) == "null"@ {
                assert(s[pos] == 'n');
            }
            assert(parse_lit(s, pos, "null"@) is None);
            crate::json::lemma_parse_print_u64(s, pos, v);
        },
    }
}

/// All characters of a fixed-width digit writing are digits, it has exactly
/// `k` of them, and its value is the written number.
proof fn lemma_pad(k: nat, f: int)
    requires
        0 <= f < pow10(k),
    ensures
        pad(k, f).len() == k,
        forall|i: int| 0 <= i < k ==> crate::json::is_digit(#[trigger] pad(k, f)[i]),
        val_of(pad(k, f)) == f,
    decreases k,
{
    if k == 0 {
    } else {
        lemma_pow10_bound(k);
        assert(0 <= f / 10 < pow10((k - 1) as nat)) by (nonlinear_arith)
            requires
                0 <= f < pow10(k),
                pow10(k) == 10 * pow10((k - 1) as nat),
        ;
        lemma_pad((k - 1) as nat, f / 10);
        crate::json::lemma_digit_char(f % 10);
        assert(pad(k, f).drop_last() =~= pad((k - 1) as nat, f / 10));
        assert(pad(k, f).last() == crate::json::digit_char(f % 10));
        assert(val_of(pad(k, f)) == val_of(pad((k - 1) as nat, f / 10)) * 10 + f % 10);
    }
}

/// A run of exactly the digits in `[pos, q)` ends at `q`.
proof fn lemma_run_end_is(s: Seq<char>, pos: int, q: int)
    requires
        0 <= pos <= q <= s.len(),
        forall|k: int| pos <= k < q ==> crate::json::is_digit(#[trigger] s[k]),
        q == s.len() || !crate::json::is_digit(s[q]),
    ensures
        digit_run_end(s, pos) == q,
    decreases q - pos,
{
    if pos < q {
        lemma_run_end_is(s, pos + 1, q);
    }
}

/// Parsing inverts writing for thresholds: the writing followed by a
/// non-digit parses back to the same micro-megabyte count.
proof fn lemma_parse_print_threshold(s: Seq<char>, pos: int, t: u64)
    requires
        0 <= pos,
        pos + ser_threshold(t).len() <= s.len(),
        s.subrange(pos, pos + ser_threshold(t).len()) == ser_threshold(t),
        pos + ser_threshold(t).len() == s.len() || !crate::json::is_digit(
            s[pos + ser_threshold(t).len()],
        ),
    ensures
        parse_threshold(s, pos) == Some((t, pos + ser_threshold(t).len())),
{
    let ip = t as int / 1_000_000;
    let f = t as int % 1_000_000;
    let ds = digits_of(ip);
    let fr = pad(6, f);
    lemma_pow10_vals();
    lemma_pad(6, f);
    crate::json::lemma_digits_of(ip);
    assert(ser_threshold(t) =~= ds + (seq!['.'] + fr));
    lemma_piece_at(s, pos, ds, seq!['.'] + fr);
    let p1 = pos + ds.len();
    lemma_piece_at(s, p1, seq!['.'], fr);
    assert(s[p1] == '.');
    crate::json::lemma_digit_char(0);
    crate::json::lemma_parse_print_u64(s, pos, (ip as u64));
    assert(parse_u64(s, pos) == Some(((ip as u64), p1)));
    assert forall|k: int| p1 + 1 <= k < p1 + 7 implies crate::json::is_digit(#[trigger] s[k]) by {
        assert(s[p1 + 1 + (k - p1 - 1)] == fr[k - p1 - 1]);
    }
    lemma_run_end_is(s, p1 + 1, p1 + 7);
    assert(s.subrange(p1 + 1, p1 + 7) =~= fr);
    assert(val_of(s.subrange(p1 + 1, p1 + 7)) == f);
    assert((ip as int) * 1_000_000 + f * pow10(0) == t);
}


/// Literal facts about the grammar's punctuation and first characters.
proof fn lemma_punct()
    ensures
        !crate::json::is_ws(','),
        !crate::json::is_ws('{'),
        !crate::json::is_ws('}'),
        !crate::json::is_ws('['),
        !crate::json::is_ws(']'),
        !crate::json::is_ws('"'),
        !crate::json::is_ws('t'),
        !crate::json::is_ws('f'),
        !crate::json::is_ws('n'),
        !crate::json::is_digit(','),
        !crate::json::is_digit('}'),
        !crate::json::is_digit(']'),
        !crate::json::is_digit('n'),
        forall|c: char| crate::json::is_digit(c) ==> !crate::json::is_ws(c),
{
    assert forall|c: char| crate::json::is_digit(c) implies !crate::json::is_ws(c) by {
        if c == ' ' || c == '\n' || c == '\r' || c == '\t' {
            assert((c as u32) < 48);
        }
    }
}

/// Parsing inverts writing for one monitor object.
#[verifier::rlimit(100)]
proof fn lemma_parse_print_monitor(s: Seq<char>, pos: int, m: MonitorConfigV)
    requires
        0 <= pos,
        pos + ser_monitor(m).len() <= s.len(),
        s.subrange(pos, pos + ser_monitor(m).len()) == ser_monitor(m),
    ensures
        parse_monitor(s, pos) == Some((m, pos + ser_monitor(m).len())),
{
    reveal(parse_monitor);
    lemma_punct();
    reveal_strlit("\"id\"");
    reveal_strlit("\"name\"");
    reveal_strlit("\"path\"");
    reveal_strlit("\"thresholdMb\"");
    reveal_strlit("\"enabled\"");
    reveal_strlit("\"notify\"");
    reveal_strlit("\"maxDepth\"");
    reveal_strlit("\"lastScanAt\"");

    assert(ser_monitor(m) == seq!['{'] + sm_id(m));
    lemma_piece_at(s, pos, seq!['{'], sm_id(m));
    crate::json::lemma_skip_ws_none(s, pos);

    // "id"
    let c1 = pos + 1;
    let k1 = "\"id\""@;
    let v1 = ser_string(m.id);
    let r1 = seq![','] + sm_name(m);
    assert(sm_id(m) == ser_kv(k1, v1, r1));
    assert(v1[0] == '"');
    lemma_member_at(s, c1, k1, v1, r1);
    let w1 = c1 + k1.len() + 1;
    let e1 = w1 + v1.len();
    lemma_piece_at(s, e1, seq![','], sm_name(m));
    crate::json::lemma_skip_ws_none(s, e1);
    crate::json::lemma_parse_print_string(s, w1, m.id);
    assert(c1 + sm_id(m).len() == e1 + 1 + sm_name(m).len());

    // "name"
    let c2 = e1 + 1;
    let k2 = "\"name\""@;
    let v2 = ser_string(m.name);
    let r2 = seq![','] + sm_path(m);
    assert(sm_name(m) == ser_kv(k2, v2, r2));
    assert(v2[0] == '"');
    lemma_member_at(s, c2, k2, v2, r2);
    let w2 = c2 + k2.len() + 1;
    let e2 = w2 + v2.len();
    lemma_piece_at(s, e2, seq![','], sm_path(m));
    crate::json::lemma_skip_ws_none(s, e2);
    crate::json::lemma_parse_print_string(s, w2, m.name);
    assert(c2 + sm_name(m).len() == e2 + 1 + sm_path(m).len());

    // "path"
    let c3 = e2 + 1;
    let k3 = "\"path\""@;
    let v3 = ser_string(m.path);
    let r3 = seq![','] + sm_threshold(m);
    assert(sm_path(m) == ser_kv(k3, v3, r3));
    assert(v3[0] == '"');
    lemma_member_at(s, c3, k3, v3, r3);
    let w3 = c3 + k3.len() + 1;
    let e3 = w3 + v3.len();
    lemma_piece_at(s, e3, seq![','], sm_threshold(m));
    crate::json::lemma_skip_ws_none(s, e3);
    crate::json::lemma_parse_print_string(s, w3, m.path);
    assert(c3 + sm_path(m).len() == e3 + 1 + sm_threshold(m).len());

    // "thresholdMb"
    let c4 = e3 + 1;
    let k4 = "\"thresholdMb\""@;
    let v4 = ser_threshold(m.threshold_micro_mb);
    let r4 = seq![','] + sm_enabled(m);
    assert(sm_threshold(m) == ser_kv(k4, v4, r4));
    crate::json::lemma_digits_of(m.threshold_micro_mb as int / 1_000_000);
    assert(v4[0] == digits_of(m.threshold_micro_mb as int / 1_000_000)[0]);
    assert(crate::json::is_digit(v4[0]));
    lemma_member_at(s, c4, k4, v4, r4);
    let w4 = c4 + k4.len() + 1;
    let e4 = w4 + v4.len();
    lemma_piece_at(s, e4, seq![','], sm_enabled(m));
    crate::json::lemma_skip_ws_none(s, e4);
    assert(!crate::json::is_digit(s[e4]));
    lemma_parse_print_threshold(s, w4, m.threshold_micro_mb);
    assert(c4 + sm_threshold(m).len() == e4 + 1 + sm_enabled(m).len());

    // "enabled"
    let c5 = e4 + 1;
    let k5 = "\"enabled\""@;
    let v5 = ser_bool(m.enabled);
    let r5 = seq![','] + sm_notify(m);
    assert(sm_enabled(m) == ser_kv(k5, v5, r5));
    assert(!crate::json::is_ws(v5[0]));
    lemma_member_at(s, c5, k5, v5, r5);
    let w5 = c5 + k5.len() + 1;
    let e5 = w5 + v5.len();
    lemma_piece_at(s, e5, seq![','], sm_notify(m));
    crate::json::lemma_skip_ws_none(s, e5);
    lemma_parse_print_bool(s, w5, m.enabled);
    assert(c5 + sm_enabled(m).len() == e5 + 1 + sm_notify(m).len());

    lemma_parse_print_monitor_rest(s, e5, m);
    assert(e5 + 1 + sm_notify(m).len() == pos + ser_monitor(m).len());
}

/// Parsing inverts writing for the tail of a monitor object, from the comma
/// before the `notify` member on.
#[verifier::rlimit(100)]
proof fn lemma_parse_print_monitor_rest(s: Seq<char>, p: int, m: MonitorConfigV)
    requires
        0 <= p,
        p + 1 + sm_notify(m).len() <= s.len(),
        s[p] == ',',
        s.subrange(p + 1, p + 1 + sm_notify(m).len()) == sm_notify(m),
    ensures
        parse_monitor_rest(s, p, m.id, m.name, m.path, m.threshold_micro_mb, m.enabled) == Some(
            (m, p + 1 + sm_notify(m).len()),
        ),
{
    lemma_punct();
    reveal_strlit("\"notify\"");
    reveal_strlit("\"maxDepth\"");
    reveal_strlit("\"lastScanAt\"");
    crate::json::lemma_skip_ws_none(s, p);
    // "notify"
    let c6 = p + 1;
    let k6 = "\"notify\""@;
    let v6 = ser_bool(m.notify);
    let r6 = seq![','] + sm_max_depth(m);
    assert(sm_notify(m) == ser_kv(k6, v6, r6));
    assert(!crate::json::is_ws(v6[0]));
    lemma_member_at(s, c6, k6, v6, r6);
    let w6 = c6 + k6.len() + 1;
    let e6 = w6 + v6.len();
    lemma_piece_at(s, e6, seq![','], sm_max_depth(m));
    crate::json::lemma_skip_ws_none(s, e6);
    lemma_parse_print_bool(s, w6, m.notify);
    assert(c6 + sm_notify(m).len() == e6 + 1 + sm_max_depth(m).len());

    // "maxDepth"
    let c7 = e6 + 1;
    let k7 = "\"maxDepth\""@;
    let v7 = ser_opt_usize(m.max_depth);
    let r7 = seq![','] + sm_last_scan(m);
    assert(sm_max_depth(m) == ser_kv(k7, v7, r7));
    match m.max_depth {
        None => {
            assert(v7[0] == 'n');
        },
        Some(d) => {
            crate::json::lemma_digits_of(d as int);
            assert(v7[0] == digits_of(d as int)[0]);
            assert(crate::json::is_digit(v7[0]));
        },
    }
    lemma_member_at(s, c7, k7, v7, r7);
    let w7 = c7 + k7.len() + 1;
    let e7 = w7 + v7.len();
    lemma_piece_at(s, e7, seq![','], sm_last_scan(m));
    crate::json::lemma_skip_ws_none(s, e7);
    assert(!crate::json::is_digit(s[e7]));
    let mdo: Option<u64> = match m.max_depth {
        None => None,
        Some(d) => Some(d as u64),
    };
    assert(ser_opt_usize(m.max_depth) == ser_opt_u64(mdo));
    lemma_parse_print_opt_u64(s, w7, mdo);
    assert(c7 + sm_max_depth(m).len() == e7 + 1 + sm_last_scan(m).len());

    // "lastScanAt"
    let c8 = e7 + 1;
    let k8 = "\"lastScanAt\""@;
    let v8 = ser_opt_u64(m.last_scan_at);
    let r8 = seq!['}'];
    assert(sm_last_scan(m) == ser_kv(k8, v8, r8));
    match m.last_scan_at {
        None => {
            assert(v8[0] == 'n');
        },
        Some(d) => {
            crate::json::lemma_digits_of(d as int);
            assert(v8[0] == digits_of(d as int)[0]);
            assert(crate::json::is_digit(v8[0]));
        },
    }
    lemma_member_at(s, c8, k8, v8, r8);
    let w8 = c8 + k8.len() + 1;
    let e8 = w8 + v8.len();
    assert(s.subrange(e8, c8 + sm_last_scan(m).len())[0] == r8[0]);
    assert(s[e8] == '}');
    crate::json::lemma_skip_ws_none(s, e8);
    assert(!crate::json::is_digit(s[e8]));
    lemma_parse_print_opt_u64(s, w8, m.last_scan_at);
    assert(c8 + sm_last_scan(m).len() == e8 + 1);


    let mv = MonitorConfigV {
        id: m.id,
        name: m.name,
        path: m.path,
        threshold_micro_mb: m.threshold_micro_mb,
        enabled: m.enabled,
        notify: m.notify,
        max_depth: m.max_depth,
        last_scan_at: m.last_scan_at,
    };
    assert(mv == m);
    assert(c6 + sm_notify(m).len() == e8 + 1);
}


/// Parsing inverts writing for the tail of a monitor list: the monitors from
/// `i` on, followed by the closing bracket.
proof fn lemma_parse_print_list(
    s: Seq<char>,
    pos: int,
    ms: Seq<MonitorConfigV>,
    i: int,
    acc: Seq<MonitorConfigV>,
)
    requires
        0 <= pos,
        0 <= i < ms.len(),
        pos + ser_list_from(ms, i).len() + 1 <= s.len(),
        s.subrange(pos, pos + ser_list_from(ms, i).len() + 1) == ser_list_from(ms, i) + seq![']'],
    ensures
        parse_monitor_list(s, pos, acc) == Some(
            (acc + ms.skip(i), pos + ser_list_from(ms, i).len() + 1),
        ),
    decreases ms.len() - i,
{
    lemma_punct();
    if i == ms.len() - 1 {
        assert(ser_list_from(ms, i) == ser_monitor(ms[i]));
        lemma_piece_at(s, pos, ser_monitor(ms[i]), seq![']']);
        lemma_parse_print_monitor(s, pos, ms[i]);
        let p1 = pos + ser_monitor(ms[i]).len();
        assert(s[p1] == ']');
        crate::json::lemma_skip_ws_none(s, p1);
        assert(acc.push(ms[i]) =~= acc + ms.skip(i));
    } else {
        let a = ser_monitor(ms[i]);
        let b = ser_list_from(ms, i + 1);
        assert(ser_list_from(ms, i) == a + (seq![','] + b));
        assert(ser_list_from(ms, i) + seq![']'] =~= a + ((seq![','] + (b + seq![']']))));
        lemma_piece_at(s, pos, a, seq![','] + (b + seq![']']));
        lemma_parse_print_monitor(s, pos, ms[i]);
        let p1 = pos + a.len();
        lemma_piece_at(s, p1, seq![','], b + seq![']']);
        assert(s[p1] == ',');
        crate::json::lemma_skip_ws_none(s, p1);
        lemma_parse_print_list(s, p1 + 1, ms, i + 1, acc.push(ms[i]));
        assert(acc.push(ms[i]) + ms.skip(i + 1) =~= acc + ms.skip(i));
    }
}

/// Registry round trip: parsing the written monitor list document yields
/// exactly the written list, for every monitor list.
pub proof fn lemma_monitors_round_trip(ms: Seq<MonitorConfigV>)
    ensures
        parse_monitors_doc(ser_monitors(ms)) == Some(ms),
{
    let s = ser_monitors(ms);
    lemma_punct();
    assert(s.subrange(0, s.len() as int) =~= s);
    if ms.len() == 0 {
        assert(s == seq!['[', ']']);
        assert(s[0] == '[');
        crate::json::lemma_skip_ws_none(s, 0);
        assert(s[1] == ']');
        crate::json::lemma_skip_ws_none(s, 1);
        assert(parse_monitors(s, 0) == Some((Seq::<MonitorConfigV>::empty(), 2int)));
        assert(Seq::<MonitorConfigV>::empty() =~= ms);
    } else {
        assert(s == seq!['['] + (ser_list_from(ms, 0) + seq![']']));
        lemma_piece_at(s, 0, seq!['['], ser_list_from(ms, 0) + seq![']']);
        assert(s[0] == '[');
        crate::json::lemma_skip_ws_none(s, 0);
        if ms.len() == 1 {
            assert(ser_list_from(ms, 0) == ser_monitor(ms[0]));
        } else {
            assert(ser_list_from(ms, 0) == ser_monitor(ms[0]) + (seq![','] + ser_list_from(
                ms,
                1,
            )));
        }
        assert(ser_monitor(ms[0]) == seq!['{'] + sm_id(ms[0]));
        assert(ser_monitor(ms[0])[0] == '{');
        assert(ser_list_from(ms, 0)[0] == '{');
        assert((ser_list_from(ms, 0) + seq![']'])[0] == '{');
        assert(s[1] == '{');
        crate::json::lemma_skip_ws_none(s, 1);
        assert(s.subrange(1, 1 + ser_list_from(ms, 0).len() as int + 1) == ser_list_from(ms, 0) + seq![
            ']',
        ]);
        lemma_parse_print_list(s, 1, ms, 0, Seq::empty());
        assert(Seq::<MonitorConfigV>::empty() + ms.skip(0) =~= ms);
        assert(parse_monitors(s, 0) == Some((ms, s.len() as int)));
    }
}

/// Settings round trip: parsing the written settings document yields exactly
/// the written values, for every pair of values.
#[verifier::rlimit(100)]
pub proof fn lemma_settings_round_trip(minimize_to_tray: bool, check_interval_minutes: u32)
    ensures
        parse_settings_doc(ser_settings(minimize_to_tray, check_interval_minutes)) == Some(
            (minimize_to_tray, check_interval_minutes),
        ),
{
    let s = ser_settings(minimize_to_tray, check_interval_minutes);
    lemma_punct();
    reveal_strlit("\"minimizeToTray\"");
    reveal_strlit("\"checkIntervalMinutes\"");
    assert(s.subrange(0, s.len() as int) =~= s);
    let k1 = "\"minimizeToTray\""@;
    let v1 = ser_bool(minimize_to_tray);
    let r1 = seq![','] + st_interval(check_interval_minutes);
    assert(s == seq!['{'] + ser_kv(k1, v1, r1));
    lemma_piece_at(s, 0, seq!['{'], ser_kv(k1, v1, r1));
    assert(s[0] == '{');
    crate::json::lemma_skip_ws_none(s, 0);
    let c1 = 1int;
    assert(!crate::json::is_ws(v1[0]));
    lemma_member_at(s, c1, k1, v1, r1);
    let w1 = c1 + k1.len() + 1;
    let e1 = w1 + v1.len();
    lemma_parse_print_bool(s, w1, minimize_to_tray);
    lemma_piece_at(s, e1, seq![','], st_interval(check_interval_minutes));
    assert(s[e1] == ',');
    crate::json::lemma_skip_ws_none(s, e1);
    let c2 = e1 + 1;
    let k2 = "\"checkIntervalMinutes\""@;
    let v2 = digits_of(check_interval_minutes as int);
    let r2 = seq!['}'];
    assert(st_interval(check_interval_minutes) == ser_kv(k2, v2, r2));
    crate::json::lemma_digits_of(check_interval_minutes as int);
    assert(crate::json::is_digit(v2[0]));
    lemma_member_at(s, c2, k2, v2, r2);
    let w2 = c2 + k2.len() + 1;
    let e2 = w2 + v2.len();
    assert(s.subrange(e2, c2 + st_interval(check_interval_minutes).len())[0] == r2[0]);
    assert(s[e2] == '}');
    assert(!crate::json::is_digit(s[e2]));
    crate::json::lemma_parse_print_u64(s, w2, check_interval_minutes as u64);
    crate::json::lemma_skip_ws_none(s, e2);
    assert(e2 + 1 == s.len());
}

} // verus!
