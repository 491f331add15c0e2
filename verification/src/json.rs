//! Building blocks of the persisted JSON documents: whitespace, literals,
//! unsigned numbers, and strings with escapes. Each value has a printing
//! function, a parsing function, and a proof that parsing inverts printing.

use vstd::prelude::*;

verus! {

// ---------------------------------------------------------------------------
// Character classes
// ---------------------------------------------------------------------------

/// JSON insignificant whitespace.
pub open spec fn is_ws(c: char) -> bool {
    c == ' ' || c == '\n' || c == '\r' || c == '\t'
}

/// A decimal digit.
pub open spec fn is_digit(c: char) -> bool {
    48 <= (c as u32) <= 57
}

/// The numeric value of a decimal digit character.
pub open spec fn digit_val(c: char) -> int {
    (c as u32) - 48
}

/// The character of a decimal digit value.
pub open spec fn digit_char(d: int) -> char {
    if d == 0 {
        '0'
    } else if d == 1 {
        '1'
    } else if d == 2 {
        '2'
    } else if d == 3 {
        '3'
    } else if d == 4 {
        '4'
    } else if d == 5 {
        '5'
    } else if d == 6 {
        '6'
    } else if d == 7 {
        '7'
    } else if d == 8 {
        '8'
    } else {
        '9'
    }
}

/// For digit values, `digit_char` produces a digit and `digit_val` reads it
/// back; digits are neither whitespace nor any delimiter of the grammar.
pub proof fn lemma_digit_char(d: int)
    requires
        0 <= d <= 9,
    ensures
        is_digit(digit_char(d)),
        digit_val(digit_char(d)) == d,
        !is_ws(digit_char(d)),
        digit_char(d) != '.' && digit_char(d) != ',' && digit_char(d) != '}' && digit_char(d)
            != ']' && digit_char(d) != '"',
{
}

// ---------------------------------------------------------------------------
// Whitespace skipping
// ---------------------------------------------------------------------------

/// The first position at or after `pos` holding a non-whitespace character.
pub open spec fn skip_ws(s: Seq<char>, pos: int) -> int
    decreases s.len() - pos,
{
    if pos < 0 || pos >= s.len() {
        pos
    } else if is_ws(s[pos]) {
        skip_ws(s, pos + 1)
    } else {
        pos
    }
}

/// Skipping whitespace at a non-whitespace character stays put.
pub proof fn lemma_skip_ws_none(s: Seq<char>, pos: int)
    requires
        pos >= s.len() || !is_ws(s[pos]),
    ensures
        skip_ws(s, pos) == pos,
{
}

/// `skip_ws` never moves backwards and never leaves the string.
pub proof fn lemma_skip_ws_bounds(s: Seq<char>, pos: int)
    requires
        0 <= pos <= s.len(),
    ensures
        pos <= skip_ws(s, pos) <= s.len(),
        skip_ws(s, pos) < s.len() ==> !is_ws(s[skip_ws(s, pos)]),
    decreases s.len() - pos,
{
    if pos < s.len() && is_ws(s[pos]) {
        lemma_skip_ws_bounds(s, pos + 1);
    }
}

/// The first position at or after `pos` holding a non-whitespace character.
pub fn skip_ws_exec(cs: &Vec<char>, pos: usize) -> (r: usize)
    requires
        pos <= cs@.len(),
    ensures
        r == skip_ws(cs@, pos as int),
        pos <= r <= cs@.len(),
{
    let mut i = pos;
    while i < cs.len()
        invariant
            pos <= i <= cs@.len(),
            skip_ws(cs@, pos as int) == skip_ws(cs@, i as int),
        decreases cs@.len() - i,
    {
        let c = cs[i];
        if !(c == ' ' || c == '\n' || c == '\r' || c == '\t') {
            return i;
        }
        i = i + 1;
    }
    i
}

// ---------------------------------------------------------------------------
// Literals
// ---------------------------------------------------------------------------

/// Succeeds when `lit` occurs verbatim at `pos`, landing right after it.
pub open spec fn parse_lit(s: Seq<char>, pos: int, lit: Seq<char>) -> Option<int> {
    if 0 <= pos && pos + lit.len() <= s.len() && s.subrange(pos, pos + lit.len()) == lit {
        Some(pos + lit.len())
    } else {
        None
    }
}

/// Matches `lit` verbatim at `pos`.
pub fn parse_lit_exec(cs: &Vec<char>, pos: usize, lit: &str) -> (r: Option<usize>)
    requires
        pos <= cs@.len(),
    ensures
        match r {
            Some(p) => parse_lit(cs@, pos as int, lit@) == Some(p as int),
            None => parse_lit(cs@, pos as int, lit@) is None,
        },
{
    let n = lit.unicode_len();
    if n > cs.len() - pos {
        proof {
            assert(pos + lit@.len() > cs@.len());
        }
        return None;
    }
    if crate::text::str_eq_chars(lit, cs, pos, pos + n) {
        Some(pos + n)
    } else {
        None
    }
}

// ---------------------------------------------------------------------------
// Unsigned numbers
// ---------------------------------------------------------------------------

/// The decimal digits of `n`, most significant first.
pub open spec fn digits_of(n: int) -> Seq<char>
    decreases n,
{
    if n < 10 {
        seq![digit_char(n)]
    } else {
        digits_of(n / 10) + seq![digit_char(n % 10)]
    }
}

/// The value of a digit string, most significant first.
pub open spec fn val_of(ds: Seq<char>) -> int
    decreases ds.len(),
{
    if ds.len() == 0 {
        0
    } else {
        val_of(ds.drop_last()) * 10 + digit_val(ds.last())
    }
}

/// `digits_of` yields at least one character, all of them digits, and
/// `val_of` reads the number back.
pub proof fn lemma_digits_of(n: int)
    requires
        0 <= n,
    ensures
        digits_of(n).len() >= 1,
        forall|i: int| 0 <= i < digits_of(n).len() ==> is_digit(#[trigger] digits_of(n)[i]),
        val_of(digits_of(n)) == n,
    decreases n,
{
    if n < 10 {
        lemma_digit_char(n);
        assert(digits_of(n).drop_last() =~= Seq::<char>::empty());
        assert(val_of(Seq::<char>::empty()) == 0);
        assert(val_of(digits_of(n)) == val_of(Seq::<char>::empty()) * 10 + digit_val(
            digit_char(n),
        ));
    } else {
        lemma_digits_of(n / 10);
        lemma_digit_char(n % 10);
        assert(digits_of(n).drop_last() =~= digits_of(n / 10));
        assert(digits_of(n).last() == digit_char(n % 10));
        assert(val_of(digits_of(n)) == val_of(digits_of(n / 10)) * 10 + digit_val(
            digit_char(n % 10),
        ));
    }
}

/// Appends the decimal digits of `n`.
pub fn push_u64(out: &mut Vec<char>, n: u64)
    ensures
        final(out)@ == old(out)@ + digits_of(n as int),
    decreases n,
{
    if n < 10 {
        let c = match n {
            0 => '0',
            1 => '1',
            2 => '2',
            3 => '3',
            4 => '4',
            5 => '5',
            6 => '6',
            7 => '7',
            8 => '8',
            _ => '9',
        };
        out.push(c);
        proof {
            assert(old(out)@ + digits_of(n as int) =~= out@);
        }
    } else {
        push_u64(out, n / 10);
        let d = n % 10;
        let c = match d {
            0 => '0',
            1 => '1',
            2 => '2',
            3 => '3',
            4 => '4',
            5 => '5',
            6 => '6',
            7 => '7',
            8 => '8',
            _ => '9',
        };
        out.push(c);
        proof {
            assert(c == digit_char((n % 10) as int));
            assert(old(out)@ + digits_of(n as int) =~= out@);
        }
    }
}

/// Greedy digit accumulation: consumes digits from `pos`, extending `acc`,
/// and fails only when the value would leave `u64`.
pub open spec fn parse_digits(s: Seq<char>, pos: int, acc: u64) -> Option<(u64, int)>
    decreases s.len() - pos,
{
    if pos < 0 || pos >= s.len() || !is_digit(s[pos]) {
        Some((acc, pos))
    } else if acc * 10 + digit_val(s[pos]) > u64::MAX {
        None
    } else {
        parse_digits(s, pos + 1, (acc * 10 + digit_val(s[pos])) as u64)
    }
}

/// A number: at least one digit at `pos`, accumulated greedily.
pub open spec fn parse_u64(s: Seq<char>, pos: int) -> Option<(u64, int)> {
    if 0 <= pos < s.len() && is_digit(s[pos]) {
        parse_digits(s, pos, 0)
    } else {
        None
    }
}

/// A number at `pos`: at least one digit, accumulated greedily; fails when
/// there is no digit or the value leaves `u64`.
pub fn parse_u64_exec(cs: &Vec<char>, pos: usize) -> (r: Option<(u64, usize)>)
    requires
        pos <= cs@.len(),
    ensures
        match r {
            Some(t) => parse_u64(cs@, pos as int) == Some((t.0, t.1 as int)) && pos < t.1
                <= cs@.len(),
            None => parse_u64(cs@, pos as int) is None,
        },
{
    if pos >= cs.len() {
        return None;
    }
    let u0 = cs[pos] as u32;
    if !(48 <= u0 && u0 <= 57) {
        return None;
    }
    let mut acc: u64 = 0;
    let mut i = pos;
    while i < cs.len() && 48 <= (cs[i] as u32) && (cs[i] as u32) <= 57
        invariant
            pos <= i <= cs@.len(),
            parse_digits(cs@, pos as int, 0) == parse_digits(cs@, i as int, acc),
        decreases cs@.len() - i,
    {
        let d = ((cs[i] as u32) - 48) as u64;
        if acc > (u64::MAX - d) / 10 {
            proof {
                assert(acc * 10 + digit_val(cs@[i as int]) > u64::MAX) by (nonlinear_arith)
                    requires
                        acc > (u64::MAX - d) / 10,
                        d == digit_val(cs@[i as int]),
                        0 <= d <= 9,
                ;
            }
            return None;
        }
        proof {
            assert(acc * 10 + d <= u64::MAX) by (nonlinear_arith)
                requires
                    acc <= (u64::MAX - d) / 10,
                    0 <= d <= 9,
            ;
        }
        acc = acc * 10 + d;
        i = i + 1;
    }
    Some((acc, i))
}

/// Ten to the `k`.
pub open spec fn pow10(k: nat) -> int
    decreases k,
{
    if k == 0 {
        1
    } else {
        10 * pow10((k - 1) as nat)
    }
}

pub proof fn lemma_pow10_pos(k: nat)
    ensures
        pow10(k) >= 1,
    decreases k,
{
    if k > 0 {
        lemma_pow10_pos((k - 1) as nat);
    }
}

/// `val_of` of a digit string with its first digit split off.
proof fn lemma_val_of_first(ds: Seq<char>)
    requires
        ds.len() >= 1,
    ensures
        val_of(ds) == digit_val(ds[0]) * pow10((ds.len() - 1) as nat) + val_of(ds.drop_first()),
    decreases ds.len(),
{
    if ds.len() == 1 {
        assert(ds.drop_last() =~= Seq::<char>::empty());
        assert(ds.drop_first() =~= Seq::<char>::empty());
        assert(ds.last() == ds[0]);
    } else {
        lemma_val_of_first(ds.drop_last());
        assert(ds.drop_last()[0] == ds[0]);
        assert(ds.drop_last().drop_first() =~= ds.drop_first().drop_last());
        assert(ds.drop_first().last() == ds.last());
        assert(val_of(ds) == val_of(ds.drop_last()) * 10 + digit_val(ds.last()));
        assert(val_of(ds.drop_last()) == digit_val(ds[0]) * pow10((ds.len() - 2) as nat) + val_of(
            ds.drop_first().drop_last(),
        ));
        assert(digit_val(ds[0]) * pow10((ds.len() - 2) as nat) * 10 == digit_val(ds[0]) * pow10(
            (ds.len() - 1) as nat,
        )) by (nonlinear_arith)
            requires
                pow10((ds.len() - 1) as nat) == 10 * pow10((ds.len() - 2) as nat),
                ds.len() >= 2,
        ;
        assert(val_of(ds.drop_first()) == val_of(ds.drop_first().drop_last()) * 10 + digit_val(
            ds.drop_first().last(),
        ));
    }
}

/// `val_of` is non-negative on digit strings.
proof fn lemma_val_of_nonneg(ds: Seq<char>)
    requires
        forall|i: int| 0 <= i < ds.len() ==> is_digit(#[trigger] ds[i]),
    ensures
        val_of(ds) >= 0,
    decreases ds.len(),
{
    if ds.len() > 0 {
        assert(forall|i: int|
            0 <= i < ds.drop_last().len() ==> is_digit(#[trigger] ds.drop_last()[i]));
        lemma_val_of_nonneg(ds.drop_last());
    }
}

/// Greedy digit parsing inverts printing: a digit string at `pos` followed by
/// a non-digit accumulates to exactly its value.
proof fn lemma_parse_digits_exact(s: Seq<char>, pos: int, acc: u64, ds: Seq<char>)
    requires
        0 <= pos,
        pos + ds.len() <= s.len(),
        s.subrange(pos, pos + ds.len()) == ds,
        forall|i: int| 0 <= i < ds.len() ==> is_digit(#[trigger] ds[i]),
        pos + ds.len() == s.len() || !is_digit(s[pos + ds.len()]),
        acc * pow10(ds.len() as nat) + val_of(ds) <= u64::MAX,
    ensures
        parse_digits(s, pos, acc) == Some(
            ((acc * pow10(ds.len() as nat) + val_of(ds)) as u64, pos + ds.len()),
        ),
    decreases ds.len(),
{
    lemma_pow10_pos(ds.len() as nat);
    lemma_val_of_nonneg(ds);
    if ds.len() == 0 {
        assert(pos >= s.len() || !is_digit(s[pos]));
    } else {
        let d = digit_val(ds[0]);
        assert(s[pos] == ds[0]);
        lemma_val_of_first(ds);
        let k1 = (ds.len() - 1) as nat;
        lemma_pow10_pos(k1);
        let rest = ds.drop_first();
        assert(forall|i: int| 0 <= i < rest.len() ==> is_digit(#[trigger] rest[i]));
        lemma_val_of_nonneg(rest);
        let acc1 = acc * 10 + d;
        assert(acc1 * pow10(k1) + val_of(rest) == acc * pow10(ds.len() as nat) + val_of(ds))
            by (nonlinear_arith)
            requires
                acc1 == acc * 10 + d,
                pow10(ds.len() as nat) == 10 * pow10(k1),
                val_of(ds) == d * pow10(k1) + val_of(rest),
        ;
        assert(acc1 <= acc1 * pow10(k1)) by (nonlinear_arith)
            requires
                acc1 >= 0,
                pow10(k1) >= 1,
        ;
        assert(acc1 <= u64::MAX);
        assert(s.subrange(pos + 1, pos + 1 + rest.len()) =~= rest);
        lemma_parse_digits_exact(s, pos + 1, acc1 as u64, rest);
    }
}

// ---------------------------------------------------------------------------
// Strings
// ---------------------------------------------------------------------------

/// A lower-case hexadecimal digit character.
pub open spec fn hex_char(d: int) -> char {
    if d < 10 {
        digit_char(d)
    } else if d == 10 {
        'a'
    } else if d == 11 {
        'b'
    } else if d == 12 {
        'c'
    } else if d == 13 {
        'd'
    } else if d == 14 {
        'e'
    } else {
        'f'
    }
}

/// A hexadecimal digit, either case.
pub open spec fn is_hex(c: char) -> bool {
    is_digit(c) || (97 <= (c as u32) <= 102) || (65 <= (c as u32) <= 70)
}

/// The numeric value of a hexadecimal digit character.
pub open spec fn hex_val(c: char) -> int {
    if is_digit(c) {
        digit_val(c)
    } else if 97 <= (c as u32) <= 102 {
        (c as u32) - 87
    } else {
        (c as u32) - 55
    }
}

pub proof fn lemma_hex_char(d: int)
    requires
        0 <= d <= 15,
    ensures
        is_hex(hex_char(d)),
        hex_val(hex_char(d)) == d,
{
}

/// How one character is written inside a JSON string: quote and backslash
/// are escaped, control characters take the `\u00XX` form, and every other
/// character stands for itself.
pub open spec fn esc_char(c: char) -> Seq<char> {
    if c == '"' {
        seq!['\\', '"']
    } else if c == '\\' {
        seq!['\\', '\\']
    } else if (c as u32) < 32 {
        seq!['\\', 'u', '0', '0', hex_char((c as u32) as int / 16), hex_char((c as u32) as int % 16)]
    } else {
        seq![c]
    }
}

/// The escaped writing of `s` from position `i` on.
pub open spec fn esc_from(s: Seq<char>, i: int) -> Seq<char>
    decreases s.len() - i,
{
    if i < 0 || i >= s.len() {
        Seq::empty()
    } else {
        esc_char(s[i]) + esc_from(s, i + 1)
    }
}

/// A whole JSON string: quote, escaped content, quote.
pub open spec fn ser_string(s: Seq<char>) -> Seq<char> {
    seq!['"'] + esc_from(s, 0) + seq!['"']
}

/// The lower-case hexadecimal digit character of `d`.
fn hex_char_exec(d: u32) -> (c: char)
    requires
        d <= 15,
    ensures
        c == hex_char(d as int),
{
    match d {
        0 => '0',
        1 => '1',
        2 => '2',
        3 => '3',
        4 => '4',
        5 => '5',
        6 => '6',
        7 => '7',
        8 => '8',
        9 => '9',
        10 => 'a',
        11 => 'b',
        12 => 'c',
        13 => 'd',
        14 => 'e',
        _ => 'f',
    }
}

/// Appends the escaped writing of `cs`, without the surrounding quotes.
fn push_escaped(out: &mut Vec<char>, cs: &Vec<char>)
    ensures
        final(out)@ == old(out)@ + esc_from(cs@, 0),
{
    let ghost base = out@;
    let mut i: usize = 0;
    while i < cs.len()
        invariant
            i <= cs@.len(),
            out@ + esc_from(cs@, i as int) == base + esc_from(cs@, 0),
        decreases cs@.len() - i,
    {
        let ghost before = out@;
        let ghost pos = i as int;
        let c = cs[i];
        let u = c as u32;
        if c == '"' {
            out.push('\\');
            out.push('"');
        } else if c == '\\' {
            out.push('\\');
            out.push('\\');
        } else if u < 32 {
            out.push('\\');
            out.push('u');
            out.push('0');
            out.push('0');
            out.push(hex_char_exec(u / 16));
            out.push(hex_char_exec(u % 16));
        } else {
            out.push(c);
        }
        proof {
            assert(out@ =~= before + esc_char(cs@[pos]));
            assert(esc_from(cs@, pos) == esc_char(cs@[pos]) + esc_from(cs@, pos + 1));
            assert(out@ + esc_from(cs@, pos + 1) =~= before + esc_from(cs@, pos));
        }
        i = i + 1;
    }
    proof {
        assert(esc_from(cs@, cs@.len() as int) == Seq::<char>::empty());
        assert(out@ + Seq::<char>::empty() =~= out@);
    }
}

/// Appends `ser_string` of the given text.
pub fn push_string(out: &mut Vec<char>, s: &str)
    ensures
        final(out)@ == old(out)@ + ser_string(s@),
{
    let cs = crate::text::str_to_chars(s);
    out.push('"');
    push_escaped(out, &cs);
    out.push('"');
    proof {
        assert(out@ =~= old(out)@ + ser_string(s@));
    }
}

/// The content of a JSON string, read from right after the opening quote
/// until the closing quote, undoing the escapes `esc_char` can produce as
/// well as the short escapes other writers use.
pub open spec fn parse_str_chars(s: Seq<char>, pos: int, acc: Seq<char>) -> Option<
    (Seq<char>, int),
>
    decreases s.len() - pos,
{
    if pos < 0 || pos >= s.len() {
        None
    } else if s[pos] == '"' {
        Some((acc, pos + 1))
    } else if s[pos] == '\\' {
        if pos + 1 >= s.len() {
            None
        } else {
            let e = s[pos + 1];
            if e == '"' || e == '\\' || e == '/' {
                parse_str_chars(s, pos + 2, acc + seq![e])
            } else if e == 'n' {
                parse_str_chars(s, pos + 2, acc + seq!['\n'])
            } else if e == 'r' {
                parse_str_chars(s, pos + 2, acc + seq!['\r'])
            } else if e == 't' {
                parse_str_chars(s, pos + 2, acc + seq!['\t'])
            } else if e == 'b' {
                parse_str_chars(s, pos + 2, acc + seq!['\u{0008}'])
            } else if e == 'f' {
                parse_str_chars(s, pos + 2, acc + seq!['\u{000c}'])
            } else if e == 'u' {
                if pos + 5 < s.len() && s[pos + 2] == '0' && s[pos + 3] == '0' && is_hex(
                    s[pos + 4],
                ) && is_hex(s[pos + 5]) {
                    let code = hex_val(s[pos + 4]) * 16 + hex_val(s[pos + 5]);
                    parse_str_chars(s, pos + 6, acc + seq![(code as u8) as char])
                } else {
                    None
                }
            } else {
                None
            }
        }
    } else {
        parse_str_chars(s, pos + 1, acc + seq![s[pos]])
    }
}

/// A whole JSON string at `pos`: an opening quote, content, closing quote.
pub open spec fn parse_string(s: Seq<char>, pos: int) -> Option<(Seq<char>, int)> {
    if 0 <= pos < s.len() && s[pos] == '"' {
        parse_str_chars(s, pos + 1, Seq::empty())
    } else {
        None
    }
}

/// A whole JSON string at `pos`.
pub fn parse_string_exec(cs: &Vec<char>, pos: usize) -> (r: Option<(String, usize)>)
    requires
        pos <= cs@.len(),
    ensures
        match r {
            Some(t) => parse_string(cs@, pos as int) == Some((t.0@, t.1 as int)) && pos < t.1
                <= cs@.len(),
            None => parse_string(cs@, pos as int) is None,
        },
{
    if pos >= cs.len() || cs[pos] != '"' {
        return None;
    }
    let mut acc: Vec<char> = Vec::new();
    let mut i = pos + 1;
    loop
        invariant
            pos < cs@.len(),
            cs@[pos as int] == '"',
            pos + 1 <= i <= cs@.len(),
            parse_str_chars(cs@, pos + 1, Seq::empty()) == parse_str_chars(cs@, i as int, acc@),
        decreases cs@.len() - i,
    {
        if i >= cs.len() {
            return None;
        }
        let c = cs[i];
        if c == '"' {
            proof {
                assert(parse_str_chars(cs@, i as int, acc@) == Some((acc@, i + 1)));
            }
            let st = crate::text::chars_to_string(&acc);
            return Some((st, i + 1));
        } else if c == '\\' {
            if i + 1 >= cs.len() {
                return None;
            }
            let ghost prev = acc@;
            let e = cs[i + 1];
            if e == '"' || e == '\\' || e == '/' {
                acc.push(e);
                proof {
                    assert(acc@ =~= prev + seq![cs@[i + 1]]);
                }
                i = i + 2;
            } else if e == 'n' {
                acc.push('\n');
                proof {
                    assert(acc@ =~= prev + seq!['\n']);
                }
                i = i + 2;
            } else if e == 'r' {
                acc.push('\r');
                proof {
                    assert(acc@ =~= prev + seq!['\r']);
                }
                i = i + 2;
            } else if e == 't' {
                acc.push('\t');
                proof {
                    assert(acc@ =~= prev + seq!['\t']);
                }
                i = i + 2;
            } else if e == 'b' {
                acc.push('\u{0008}');
                proof {
                    assert(acc@ =~= prev + seq!['\u{0008}']);
                }
                i = i + 2;
            } else if e == 'f' {
                acc.push('\u{000c}');
                proof {
                    assert(acc@ =~= prev + seq!['\u{000c}']);
                }
                i = i + 2;
            } else if e == 'u' {
                if cs.len() - i > 5 && cs[i + 2] == '0' && cs[i + 3] == '0' && hex_ok(cs[i + 4])
                    && hex_ok(cs[i + 5]) {
                    let code = hex_val_exec(cs[i + 4]) * 16 + hex_val_exec(cs[i + 5]);
                    let ghost code_spec = hex_val(cs@[i + 4]) * 16 + hex_val(cs@[i + 5]);
                    acc.push((code as u8) as char);
                    proof {
                        assert(code == code_spec);
                        assert(acc@ =~= prev + seq![(code_spec as u8) as char]);
                    }
                    i = i + 6;
                } else {
                    return None;
                }
            } else {
                return None;
            }
        } else {
            let ghost prev = acc@;
            acc.push(c);
            proof {
                assert(acc@ =~= prev + seq![cs@[i as int]]);
            }
            i = i + 1;
        }
    }
}

/// Whether `c` is a hexadecimal digit.
fn hex_ok(c: char) -> (r: bool)
    ensures
        r == is_hex(c),
{
    let u = c as u32;
    (48 <= u && u <= 57) || (97 <= u && u <= 102) || (65 <= u && u <= 70)
}

/// The numeric value of a hexadecimal digit character.
fn hex_val_exec(c: char) -> (r: u32)
    requires
        is_hex(c),
    ensures
        r == hex_val(c),
        r <= 15,
{
    let u = c as u32;
    if 48 <= u && u <= 57 {
        u - 48
    } else if 97 <= u && u <= 102 {
        u - 87
    } else {
        u - 55
    }
}

/// Parsing inverts printing for string content: the escaped writing of `v`
/// from `i` on, followed by the closing quote, parses back to `v`'s tail.
proof fn lemma_parse_esc(s: Seq<char>, pos: int, acc: Seq<char>, v: Seq<char>, i: int)
    requires
        0 <= pos,
        0 <= i <= v.len(),
        pos + esc_from(v, i).len() + 1 <= s.len(),
        s.subrange(pos, pos + esc_from(v, i).len() + 1) == esc_from(v, i) + seq!['"'],
    ensures
        parse_str_chars(s, pos, acc) == Some((acc + v.skip(i), pos + esc_from(v, i).len() + 1)),
    decreases v.len() - i,
{
    let piece = esc_from(v, i) + seq!['"'];
    if i == v.len() {
        assert(esc_from(v, i) == Seq::<char>::empty());
        assert(s[pos] == piece[0]);
        assert(acc + v.skip(i) =~= acc);
    } else {
        let c = v[i];
        let ec = esc_char(c);
        let rest = esc_from(v, i + 1) + seq!['"'];
        assert(esc_from(v, i) == ec + esc_from(v, i + 1));
        assert(piece =~= ec + rest);
        assert forall|k: int| 0 <= k < piece.len() implies s[pos + k] == #[trigger] piece[k] by {
            assert(s.subrange(pos, pos + piece.len())[k] == piece[k]);
        }
        assert forall|k: int| 0 <= k < ec.len() implies s[pos + k] == #[trigger] ec[k] by {
            assert(piece[k] == (ec + rest)[k]);
        }
        assert(s.subrange(pos + ec.len(), pos + ec.len() + rest.len()) =~= rest) by {
            assert forall|k: int|
                0 <= k < rest.len() implies #[trigger] s.subrange(
                    pos + ec.len(),
                    pos + ec.len() + rest.len(),
                )[k] == rest[k] by {
                assert(s[pos + ec.len() + k] == piece[ec.len() + k]);
                assert(piece[ec.len() + k] == (ec + rest)[ec.len() + k]);
            }
        }
        lemma_parse_esc(s, pos + ec.len(), acc + seq![c], v, i + 1);
        assert((acc + seq![c]) + v.skip(i + 1) =~= acc + v.skip(i));
        if c == '"' {
            assert(s[pos] == ec[0] && s[pos + 1] == ec[1]);
            assert(s[pos] == '\\' && s[pos + 1] == '"');
        } else if c == '\\' {
            assert(s[pos] == ec[0] && s[pos + 1] == ec[1]);
            assert(s[pos] == '\\' && s[pos + 1] == '\\');
        } else if (c as u32) < 32 {
            let u = c as u32;
            lemma_hex_char(u as int / 16);
            lemma_hex_char(u as int % 16);
            assert(s[pos] == ec[0] && s[pos + 1] == ec[1] && s[pos + 2] == ec[2] && s[pos + 3]
                == ec[3] && s[pos + 4] == ec[4] && s[pos + 5] == ec[5]);
            assert(s[pos] == '\\' && s[pos + 1] == 'u' && s[pos + 2] == '0' && s[pos + 3] == '0');
            assert(s[pos + 4] == hex_char(u as int / 16) && s[pos + 5] == hex_char(u as int % 16));
            let code = hex_val(s[pos + 4]) * 16 + hex_val(s[pos + 5]);
            assert(code == u);
            assert(((code as u8) as char) == c) by {
                let y = code as u8;
                assert(y as u32 == c as u32);
                assert((y as char) as u32 == y as u32);
                vstd::utf8::char_u32_cast(y as char, (y as char) as u32);
                vstd::utf8::char_u32_cast(c, c as u32);
            }
        } else {
            assert(s[pos] == ec[0]);
            assert(s[pos] == c);
            assert(c != '"' && c != '\\');
        }
    }
}

/// Parsing inverts printing for strings: `ser_string(v)` at `pos` parses
/// back to exactly `v`, landing right after the closing quote.
pub proof fn lemma_parse_print_string(s: Seq<char>, pos: int, v: Seq<char>)
    requires
        0 <= pos,
        pos + ser_string(v).len() <= s.len(),
        s.subrange(pos, pos + ser_string(v).len()) == ser_string(v),
    ensures
        parse_string(s, pos) == Some((v, pos + ser_string(v).len())),
{
    assert(s[pos] == ser_string(v)[0]);
    assert(s.subrange(pos + 1, pos + 1 + esc_from(v, 0).len() + 1) =~= esc_from(v, 0) + seq!['"'])
        by {
        assert(forall|k: int|
            0 <= k < esc_from(v, 0).len() + 1 ==> #[trigger] s.subrange(
                pos + 1,
                pos + 1 + esc_from(v, 0).len() + 1,
            )[k] == ser_string(v)[1 + k]);
    }
    lemma_parse_esc(s, pos + 1, Seq::empty(), v, 0);
    assert(Seq::<char>::empty() + v.skip(0) =~= v);
}

/// Parsing inverts printing for numbers: the digits of `n` at `pos`, followed
/// by a non-digit, parse to exactly `n`.
pub proof fn lemma_parse_print_u64(s: Seq<char>, pos: int, n: u64)
    requires
        0 <= pos,
        pos + digits_of(n as int).len() <= s.len(),
        s.subrange(pos, pos + digits_of(n as int).len()) == digits_of(n as int),
        pos + digits_of(n as int).len() == s.len() || !is_digit(s[pos + digits_of(n as int).len()]),
    ensures
        parse_u64(s, pos) == Some((n, pos + digits_of(n as int).len())),
{
    let ds = digits_of(n as int);
    lemma_digits_of(n as int);
    assert(s[pos] == ds[0]);
    lemma_parse_digits_exact(s, pos, 0, ds);
}

} // verus!
