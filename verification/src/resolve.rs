//! Placeholder expansion: rewrites `%NAME%` tokens in a path against a
//! snapshot of the environment. The function is pure in its two inputs, the
//! path string and the environment snapshot the caller supplies.

use crate::text::{chars_to_string, str_eq_chars, str_to_chars};
use vstd::prelude::*;

verus! {

/// A snapshot of environment variables, as name/value pairs. When a name
/// occurs more than once, the first entry wins.
pub struct EnvMap {
    pub vars: Vec<(String, String)>,
}

impl View for EnvMap {
    type V = Seq<(Seq<char>, Seq<char>)>;

    open spec fn view(&self) -> Seq<(Seq<char>, Seq<char>)> {
        self.vars@.map_values(|p: (String, String)| (p.0@, p.1@))
    }
}

/// The value of the first entry named `name`, if any.
pub open spec fn env_lookup(env: Seq<(Seq<char>, Seq<char>)>, name: Seq<char>) -> Option<
    Seq<char>,
>
    decreases env.len(),
{
    if env.len() == 0 {
        None
    } else if env[0].0 == name {
        Some(env[0].1)
    } else {
        env_lookup(env.drop_first(), name)
    }
}

/// The first index at or after `from` holding `'%'`, if any.
pub open spec fn find_pct(s: Seq<char>, from: int) -> Option<int>
    decreases s.len() - from,
{
    if from < 0 || from >= s.len() {
        None
    } else if s[from] == '%' {
        Some(from)
    } else {
        find_pct(s, from + 1)
    }
}

/// The expansion of `s` from position `pos` on: a single left-to-right scan.
/// A token is a pair of percent signs with a non-empty name between them; a
/// token whose name the environment holds is replaced by the value, any other
/// token is kept verbatim, and a `'%'` with no later partner ends the scan
/// with the rest of the string unchanged.
pub open spec fn expand_from(
    s: Seq<char>,
    env: Seq<(Seq<char>, Seq<char>)>,
    pos: int,
) -> Seq<char>
    decreases s.len() - pos,
{
    if pos < 0 || pos >= s.len() {
        Seq::empty()
    } else if s[pos] != '%' {
        seq![s[pos]] + expand_from(s, env, pos + 1)
    } else {
        match find_pct(s, pos + 1) {
            None => s.subrange(pos, s.len() as int),
            Some(j) => {
                if j == pos + 1 {
                    seq!['%'] + expand_from(s, env, pos + 1)
                } else if pos + 1 < j < s.len() {
                    match env_lookup(env, s.subrange(pos + 1, j)) {
                        Some(v) => v + expand_from(s, env, j + 1),
                        None => s.subrange(pos, j + 1) + expand_from(s, env, j + 1),
                    }
                } else {
                    // `find_pct` never returns an index out of range.
                    Seq::empty()
                }
            },
        }
    }
}

/// What `expand_env_vars` returns for a given path and environment.
pub open spec fn expand_spec(s: Seq<char>, env: Seq<(Seq<char>, Seq<char>)>) -> Seq<char> {
    expand_from(s, env, 0)
}

impl EnvMap {
    /// The value of the first entry whose name equals `cs[lo..hi]`, if any.
    fn lookup_range(&self, cs: &Vec<char>, lo: usize, hi: usize) -> (r: Option<String>)
        requires
            lo <= hi <= cs@.len(),
        ensures
            match r {
                Some(v) => env_lookup(self@, cs@.subrange(lo as int, hi as int)) == Some(v@),
                None => env_lookup(self@, cs@.subrange(lo as int, hi as int)) is None,
            },
    {
        let ghost name = cs@.subrange(lo as int, hi as int);
        proof {
            assert(self@.skip(0) =~= self@);
        }
        let mut i: usize = 0;
        while i < self.vars.len()
            invariant
                lo <= hi <= cs@.len(),
                name == cs@.subrange(lo as int, hi as int),
                i <= self.vars@.len(),
                self@.len() == self.vars@.len(),
                env_lookup(self@, name) == env_lookup(self@.skip(i as int), name),
            decreases self.vars@.len() - i,
        {
            proof {
                assert(self@.skip(i as int)[0] == self@[i as int]);
                assert(self@[i as int] == (self.vars@[i as int].0@, self.vars@[i as int].1@));
            }
            if str_eq_chars(self.vars[i].0.as_str(), cs, lo, hi) {
                return Some(self.vars[i].1.clone());
            }
            proof {
                assert(self@.skip(i as int).drop_first() =~= self@.skip(i + 1));
            }
            i = i + 1;
        }
        proof {
            assert(env_lookup(self@.skip(i as int), name) is None);
        }
        None
    }
}

/// The first index at or after `from` holding `'%'`, if any.
fn find_pct_exec(cs: &Vec<char>, from: usize) -> (r: Option<usize>)
    requires
        from <= cs@.len(),
    ensures
        match r {
            Some(j) => find_pct(cs@, from as int) == Some(j as int) && from <= j < cs@.len(),
            None => find_pct(cs@, from as int) is None,
        },
{
    let mut i: usize = from;
    while i < cs.len()
        invariant
            from <= i <= cs@.len(),
            find_pct(cs@, from as int) == find_pct(cs@, i as int),
        decreases cs@.len() - i,
    {
        if cs[i] == '%' {
            return Some(i);
        }
        i = i + 1;
    }
    None
}

/// Expands `%NAME%` placeholders in `path` against `env`: each token whose
/// name is set is replaced by the value; a token whose name is unset, an
/// empty token, and an unpaired `'%'` are kept unchanged.
pub fn expand_env_vars(path: &str, env: &EnvMap) -> (r: String)
    ensures
        r@ == expand_spec(path@, env@),
{
    let cs = str_to_chars(path);
    let mut out: Vec<char> = Vec::new();
    let mut i: usize = 0;
    while i < cs.len()
        invariant
            i <= cs@.len(),
            out@ + expand_from(cs@, env@, i as int) == expand_from(cs@, env@, 0),
        decreases cs@.len() - i,
    {
        let ghost base = out@;
        let ghost pos = i as int;
        let c = cs[i];
        if c != '%' {
            out.push(c);
            proof {
                assert(expand_from(cs@, env@, pos) == seq![cs@[pos]] + expand_from(
                    cs@,
                    env@,
                    pos + 1,
                ));
                assert(out@ + expand_from(cs@, env@, pos + 1) =~= base + expand_from(
                    cs@,
                    env@,
                    pos,
                ));
            }
            i = i + 1;
        } else {
            match find_pct_exec(&cs, i + 1) {
                None => {
                    proof {
                        assert(expand_from(cs@, env@, pos) == cs@.subrange(
                            pos,
                            cs@.len() as int,
                        ));
                    }
                    let mut k: usize = i;
                    while k < cs.len()
                        invariant
                            i <= k <= cs@.len(),
                            pos == i as int,
                            out@ == base + cs@.subrange(pos, k as int),
                        decreases cs@.len() - k,
                    {
                        out.push(cs[k]);
                        proof {
                            assert(cs@.subrange(pos, k as int) + seq![cs@[k as int]]
                                =~= cs@.subrange(pos, k + 1));
                        }
                        k = k + 1;
                    }
                    proof {
                        assert(expand_from(cs@, env@, cs@.len() as int)
                            == Seq::<char>::empty());
                        assert(out@ + Seq::<char>::empty() =~= base + expand_from(
                            cs@,
                            env@,
                            pos,
                        ));
                    }
                    i = cs.len();
                },
                Some(j) => {
                    if j == i + 1 {
                        out.push('%');
                        proof {
                            assert(expand_from(cs@, env@, pos) == seq!['%'] + expand_from(
                                cs@,
                                env@,
                                pos + 1,
                            ));
                            assert(out@ + expand_from(cs@, env@, pos + 1) =~= base
                                + expand_from(cs@, env@, pos));
                        }
                        i = i + 1;
                    } else {
                        let ghost jj = j as int;
                        match env.lookup_range(&cs, i + 1, j) {
                            Some(v) => {
                                proof {
                                    assert(expand_from(cs@, env@, pos) == v@ + expand_from(
                                        cs@,
                                        env@,
                                        jj + 1,
                                    ));
                                }
                                let vcs = str_to_chars(v.as_str());
                                let mut k: usize = 0;
                                while k < vcs.len()
                                    invariant
                                        k <= vcs@.len(),
                                        out@ == base + vcs@.subrange(0, k as int),
                                    decreases vcs@.len() - k,
                                {
                                    out.push(vcs[k]);
                                    proof {
                                        assert(vcs@.subrange(0, k as int) + seq![
                                            vcs@[k as int],
                                        ] =~= vcs@.subrange(0, k + 1));
                                    }
                                    k = k + 1;
                                }
                                proof {
                                    assert(vcs@.subrange(0, vcs@.len() as int) =~= vcs@);
                                    assert(out@ + expand_from(cs@, env@, jj + 1) =~= base
                                        + expand_from(cs@, env@, pos));
                                }
                                i = j + 1;
                            },
                            None => {
                                proof {
                                    assert(expand_from(cs@, env@, pos) == cs@.subrange(
                                        pos,
                                        jj + 1,
                                    ) + expand_from(cs@, env@, jj + 1));
                                }
                                let mut k: usize = i;
                                while k < j + 1
                                    invariant
                                        i <= k <= j + 1,
                                        j < cs@.len(),
                                        pos == i as int,
                                        out@ == base + cs@.subrange(pos, k as int),
                                    decreases j + 1 - k,
                                {
                                    out.push(cs[k]);
                                    proof {
                                        assert(cs@.subrange(pos, k as int) + seq![
                                            cs@[k as int],
                                        ] =~= cs@.subrange(pos, k + 1));
                                    }
                                    k = k + 1;
                                }
                                proof {
                                    assert(out@ + expand_from(cs@, env@, jj + 1) =~= base
                                        + expand_from(cs@, env@, pos));
                                }
                                i = j + 1;
                            },
                        }
                    }
                },
            }
        }
    }
    proof {
        assert(expand_from(cs@, env@, cs@.len() as int) == Seq::<char>::empty());
        assert(out@ + Seq::<char>::empty() =~= out@);
    }
    chars_to_string(&out)
}

} // verus!
