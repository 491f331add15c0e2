//! Conversions between `String`/`&str` and `Vec<char>`, the representation
//! the parsing and formatting code works on, plus small comparison helpers.

use vstd::prelude::*;

verus! {

/// Relies on `str::chars` (via `Iterator::collect`): yields exactly the
/// characters of the string, in order.
#[verifier::external_body]
pub fn str_to_chars(s: &str) -> (r: Vec<char>)
    ensures
        r@ == s@,
{
    s.chars().collect()
}

/// Relies on `String::from_iter` (via `Iterator::collect`): builds the string
/// holding exactly the given characters, in order.
#[verifier::external_body]
pub fn chars_to_string(v: &Vec<char>) -> (r: String)
    ensures
        r@ == v@,
{
    v.iter().collect()
}

/// Character-wise equality of a string and a slice of a character vector.
pub fn str_eq_chars(s: &str, cs: &Vec<char>, lo: usize, hi: usize) -> (r: bool)
    requires
        lo <= hi <= cs@.len(),
    ensures
        r == (s@ == cs@.subrange(lo as int, hi as int)),
{
    let n = s.unicode_len();
    if n != hi - lo {
        proof {
            assert(s@.len() != cs@.subrange(lo as int, hi as int).len());
        }
        return false;
    }
    let mut i: usize = 0;
    while i < n
        invariant
            lo <= hi <= cs@.len(),
            n == s@.len() == hi - lo,
            i <= n,
            forall|k: int| 0 <= k < i ==> s@[k] == cs@[lo + k],
        decreases n - i,
    {
        if s.get_char(i) != cs[lo + i] {
            proof {
                assert(s@[i as int] != cs@.subrange(lo as int, hi as int)[i as int]);
            }
            return false;
        }
        i = i + 1;
    }
    proof {
        assert(s@ =~= cs@.subrange(lo as int, hi as int));
    }
    true
}

} // verus!
