//! Small helpers of the command surface: turning raw accent-color registry
//! values into a hex color string, and naming a folder from its path.

use crate::resolve::{expand_env_vars, expand_spec, EnvMap};
use crate::text::{chars_to_string, str_to_chars};
use vstd::prelude::*;

verus! {

/// An upper-case hexadecimal digit character.
pub open spec fn hex_upper(d: int) -> char {
    if d == 0 {
        '0'
    } else if d == 1 {
        '1'
    } else if d == 2 {
        '2'
    } else if d == 3 {
        '3'
    } else if d == 4 {
        '4'
    } else if d == 5 {
        '5'
    } else if d == 6 {
        '6'
    } else if d == 7 {
        '7'
    } else if d == 8 {
        '8'
    } else if d == 9 {
        '9'
    } else if d == 10 {
        'A'
    } else if d == 11 {
        'B'
    } else if d == 12 {
        'C'
    } else if d == 13 {
        'D'
    } else if d == 14 {
        'E'
    } else {
        'F'
    }
}

/// Two upper-case hexadecimal digits of a byte value.
pub open spec fn hex2(v: int) -> Seq<char> {
    seq![hex_upper((v / 16) % 16), hex_upper(v % 16)]
}

/// A `#RRGGBB` string from a colorization value whose low 24 bits are RGB.
pub open spec fn rgb_color_chars(c: u32) -> Seq<char> {
    seq!['#'] + hex2(((c as int) / 65536) % 256) + hex2(((c as int) / 256) % 256) + hex2(
        (c as int) % 256,
    )
}

/// A `#RRGGBB` string from an accent value whose bytes are ABGR: the low
/// byte is red, the next green, the next blue.
pub open spec fn abgr_color_chars(c: u32) -> Seq<char> {
    seq!['#'] + hex2((c as int) % 256) + hex2(((c as int) / 256) % 256) + hex2(
        ((c as int) / 65536) % 256,
    )
}

/// An upper-case hexadecimal digit character.
fn hex_upper_exec(d: u32) -> (c: char)
    requires
        d <= 15,
    ensures
        c == hex_upper(d as int),
{
    match d {
        0 => '0',
        1 => '1',
        2 => '2',
        3 => '3',
        4 => '4',
        5 => '5',
        6 => '6',
        7 => '7',
        8 => '8',
        9 => '9',
        10 => 'A',
        11 => 'B',
        12 => 'C',
        13 => 'D',
        14 => 'E',
        _ => 'F',
    }
}

/// Appends the two hexadecimal digits of a byte value.
fn push_hex2(out: &mut Vec<char>, v: u32)
    requires
        v <= 255,
    ensures
        final(out)@ == old(out)@ + hex2(v as int),
{
    out.push(hex_upper_exec((v / 16) % 16));
    out.push(hex_upper_exec(v % 16));
    proof {
        assert(out@ =~= old(out)@ + hex2(v as int));
    }
}

/// The accent color of the desktop, as a `#RRGGBB` string, from the two raw
/// registry values the platform offers: the colorization value (ARGB, tried
/// first) and the menu accent value (ABGR, the fallback). With neither
/// present there is no color.
pub fn get_windows_accent_color(colorization: Option<u32>, accent_menu: Option<u32>) -> (r: Option<
    String,
>)
    ensures
        match colorization {
            Some(c) => r matches Some(s) && s@ == rgb_color_chars(c),
            None => match accent_menu {
                Some(c) => r matches Some(s) && s@ == abgr_color_chars(c),
                None => r is None,
            },
        },
{
    match colorization {
        Some(c) => {
            let mut out: Vec<char> = Vec::new();
            out.push('#');
            push_hex2(&mut out, (c / 65536) % 256);
            push_hex2(&mut out, (c / 256) % 256);
            push_hex2(&mut out, c % 256);
            proof {
                assert(out@ =~= rgb_color_chars(c));
            }
            Some(chars_to_string(&out))
        },
        None => match accent_menu {
            Some(c) => {
                let mut out: Vec<char> = Vec::new();
                out.push('#');
                push_hex2(&mut out, c % 256);
                push_hex2(&mut out, (c / 256) % 256);
                push_hex2(&mut out, (c / 65536) % 256);
                proof {
                    assert(out@ =~= abgr_color_chars(c));
                }
                Some(chars_to_string(&out))
            },
            None => None,
        },
    }
}

/// A path separator, on either convention.
pub open spec fn is_sep(c: char) -> bool {
    c == '/' || c == '\\'
}

/// The path with its trailing separators removed.
pub open spec fn trim_trailing_seps(s: Seq<char>) -> Seq<char>
    decreases s.len(),
{
    if s.len() > 0 && is_sep(s.last()) {
        trim_trailing_seps(s.drop_last())
    } else {
        s
    }
}

/// The position right after the last separator, or 0 with none present.
pub open spec fn after_last_sep(s: Seq<char>) -> int
    decreases s.len(),
{
    if s.len() == 0 {
        0
    } else if is_sep(s.last()) {
        s.len() as int
    } else {
        after_last_sep(s.drop_last())
    }
}

/// The fallback display name of a folder whose path yields no component.
pub open spec fn default_folder_name() -> Seq<char> {
    seq!['N', 'e', 'w', ' ', 'F', 'o', 'l', 'd', 'e', 'r']
}

/// The display name of the folder at `s`: its last non-empty path component,
/// or the fallback.
pub open spec fn folder_name_spec(s: Seq<char>) -> Seq<char> {
    let t = trim_trailing_seps(s);
    let comp = t.subrange(after_last_sep(t), t.len() as int);
    if comp.len() == 0 {
        default_folder_name()
    } else {
        comp
    }
}

/// The display name of the folder at `path`, placeholders expanded: the last
/// non-empty path component, or a fallback name.
pub fn get_folder_name(path: &str, env: &EnvMap) -> (r: String)
    ensures
        r@ == folder_name_spec(expand_spec(path@, env@)),
{
    let expanded = expand_env_vars(path, env);
    let cs = str_to_chars(expanded.as_str());
    let ghost full = cs@;
    proof {
        assert(full.subrange(0, full.len() as int) =~= full);
    }
    let mut end: usize = cs.len();
    while end > 0 && (cs[end - 1] == '/' || cs[end - 1] == '\\')
        invariant
            full == cs@,
            end <= cs@.len(),
            trim_trailing_seps(full) == trim_trailing_seps(full.subrange(0, end as int)),
        decreases end,
    {
        proof {
            assert(full.subrange(0, end as int).drop_last() =~= full.subrange(0, end - 1));
            assert(full.subrange(0, end as int).last() == full[end - 1]);
        }
        end = end - 1;
    }
    let ghost t = trim_trailing_seps(full);
    proof {
        if end > 0 {
            assert(full.subrange(0, end as int).last() == full[end - 1]);
        }
        assert(trim_trailing_seps(full.subrange(0, end as int)) == full.subrange(0, end as int));
        assert(t == full.subrange(0, end as int));
    }
    let mut start: usize = end;
    while start > 0 && !(cs[start - 1] == '/' || cs[start - 1] == '\\')
        invariant
            full == cs@,
            start <= end <= cs@.len(),
            t == full.subrange(0, end as int),
            after_last_sep(t) == after_last_sep(full.subrange(0, start as int)),
            forall|k: int| start <= k < end ==> !is_sep(#[trigger] full[k]),
        decreases start,
    {
        proof {
            assert(full.subrange(0, start as int).drop_last() =~= full.subrange(0, start - 1));
            assert(full.subrange(0, start as int).last() == full[start - 1]);
        }
        start = start - 1;
    }
    proof {
        if start > 0 {
            assert(full.subrange(0, start as int).last() == full[start - 1]);
        }
        assert(after_last_sep(full.subrange(0, start as int)) == start as int) by {
            if start > 0 {
                assert(is_sep(full[start - 1]));
            } else {
                assert(full.subrange(0, 0) =~= Seq::<char>::empty());
            }
        }
        assert(after_last_sep(t) == start as int);
    }
    if start == end {
        proof {
            assert(t.subrange(start as int, end as int).len() == 0);
        }
        let mut out: Vec<char> = Vec::new();
        out.push('N');
        out.push('e');
        out.push('w');
        out.push(' ');
        out.push('F');
        out.push('o');
        out.push('l');
        out.push('d');
        out.push('e');
        out.push('r');
        proof {
            assert(out@ =~= default_folder_name());
        }
        chars_to_string(&out)
    } else {
        let mut out: Vec<char> = Vec::new();
        let mut k = start;
        while k < end
            invariant
                start <= k <= end <= cs@.len(),
                full == cs@,
                out@ == full.subrange(start as int, k as int),
            decreases end - k,
        {
            out.push(cs[k]);
            proof {
                assert(full.subrange(start as int, k as int) + seq![full[k as int]]
                    =~= full.subrange(start as int, k + 1));
            }
            k = k + 1;
        }
        proof {
            assert(t.subrange(start as int, end as int) =~= full.subrange(
                start as int,
                end as int,
            ));
            assert(out@ == t.subrange(after_last_sep(t), t.len() as int));
        }
        chars_to_string(&out)
    }
}

} // verus!
