//! Character-level helpers: string equality, substring search, and the
//! single-pass collapse of doubled spaces used by text reconstruction.

use vstd::prelude::*;
use vstd::string::StrSliceExecFns;
use vstd::string::StringExecFns;

verus! {

/// Two strings are equal exactly when their character sequences are.
pub fn str_eq(a: &str, b: &str) -> (r: bool)
    ensures
        r == (a@ == b@),
{
    let n = a.unicode_len();
    let m = b.unicode_len();
    if n != m {
        proof {
            if a@ == b@ {
                assert(a@.len() == b@.len());
            }
        }
        return false;
    }
    let mut i: usize = 0;
    while i < n
        invariant
            i <= n,
            n == a@.len(),
            n == b@.len(),
            forall|j: int| 0 <= j < i ==> a@[j] == b@[j],
        decreases n - i,
    {
        let ca = a.get_char(i);
        let cb = b.get_char(i);
        if ca != cb {
            proof {
                if a@ == b@ {
                    assert(a@[i as int] == b@[i as int]);
                }
            }
            return false;
        }
        i = i + 1;
    }
    proof {
        assert(a@ =~= b@);
    }
    true
}

/// `pat` occurs in `s`: some offset of `s` starts a run of characters equal
/// to `pat`.
pub open spec fn has_substring(s: Seq<char>, pat: Seq<char>) -> bool {
    exists|k: int|
        0 <= k && k + pat.len() <= s.len() && #[trigger] s.subrange(k, k + pat.len()) == pat
}

fn matches_at(s: &str, pat: &str, k: usize) -> (r: bool)
    requires
        s@.len() <= usize::MAX,
        k + pat@.len() <= s@.len(),
    ensures
        r == (s@.subrange(k as int, k + pat@.len()) == pat@),
{
    let m = pat.unicode_len();
    let mut j: usize = 0;
    while j < m
        invariant
            j <= m,
            m == pat@.len(),
            s@.len() <= usize::MAX,
            k + m <= s@.len(),
            forall|l: int| 0 <= l < j ==> s@[k + l] == pat@[l],
        decreases m - j,
    {
        let cs = s.get_char(k + j);
        let cp = pat.get_char(j);
        if cs != cp {
            proof {
                if s@.subrange(k as int, k + pat@.len()) == pat@ {
                    assert(s@.subrange(k as int, k + pat@.len())[j as int] == s@[k + j]);
                }
            }
            return false;
        }
        j = j + 1;
    }
    proof {
        assert(s@.subrange(k as int, k + pat@.len()) =~= pat@);
    }
    true
}

/// Substring search, proved against `has_substring`.
pub fn contains_substring(s: &str, pat: &str) -> (r: bool)
    ensures
        r == has_substring(s@, pat@),
{
    let n = s.unicode_len();
    let m = pat.unicode_len();
    if m > n {
        return false;
    }
    if m == 0 {
        proof {
            assert(s@.subrange(0, 0 + pat@.len() as int) =~= pat@);
            assert(has_substring(s@, pat@));
        }
        return true;
    }
    let mut k: usize = 0;
    while k <= n - m
        invariant
            1 <= m <= n,
            n == s@.len(),
            m == pat@.len(),
            k <= n - m + 1,
            forall|k2: int| 0 <= k2 < k ==> #[trigger] s@.subrange(k2, k2 + pat@.len()) != pat@,
        decreases n - k,
    {
        if matches_at(s, pat, k) {
            proof {
                assert(s@.subrange(k as int, k + pat@.len()) == pat@);
            }
            return true;
        }
        k = k + 1;
    }
    proof {
        assert forall|k2: int| 0 <= k2 && k2 + pat@.len() <= s@.len() implies #[trigger] s@.subrange(
            k2,
            k2 + pat@.len(),
        ) != pat@ by {
            assert(k2 < k);
        }
    }
    false
}

/// One left-to-right pass that replaces each non-overlapping pair of
/// consecutive spaces by a single space. A run of three spaces leaves two
/// behind: the pass does not iterate to a fixed point.
pub open spec fn collapse_double_spaces(s: Seq<char>) -> Seq<char>
    decreases s.len(),
{
    if s.len() < 2 {
        s
    } else if s[0] == ' ' && s[1] == ' ' {
        seq![' '] + collapse_double_spaces(s.skip(2))
    } else {
        seq![s[0]] + collapse_double_spaces(s.skip(1))
    }
}

/// Rewrites `s` with every non-overlapping pair of consecutive spaces
/// collapsed to one, in a single pass.
pub fn collapse_spaces(s: &str) -> (r: String)
    ensures
        r@ == collapse_double_spaces(s@),
{
    let n = s.unicode_len();
    let mut out = String::new();
    let mut i: usize = 0;
    proof {
        assert(s@.skip(0) =~= s@);
        assert(out@ + collapse_double_spaces(s@) =~= collapse_double_spaces(s@));
    }
    while i < n
        invariant
            i <= n,
            n == s@.len(),
            out@ + collapse_double_spaces(s@.skip(i as int)) == collapse_double_spaces(s@),
        decreases n - i,
    {
        let c = s.get_char(i);
        if c == ' ' && i + 1 < n && s.get_char(i + 1) == ' ' {
            proof {
                reveal_strlit(" ");
                assert(" "@ =~= seq![' ']);
                assert(s@.skip(i as int)[0] == s@[i as int]);
                assert(s@.skip(i as int)[1] == s@[i + 1]);
                assert(s@.skip(i as int).skip(2) =~= s@.skip(i + 2));
            }
            out.append(" ");
            i = i + 2;
        } else {
            proof {
                assert(s@.skip(i as int)[0] == s@[i as int]);
                assert(s@.subrange(i as int, i + 1) =~= seq![s@[i as int]]);
                if i + 1 < n {
                    assert(s@.skip(i as int).skip(1) =~= s@.skip(i + 1));
                } else {
                    assert(s@.skip(i as int) =~= seq![s@[i as int]]);
                    assert(s@.skip(i + 1) =~= Seq::<char>::empty());
                }
            }
            let piece = s.substring_char(i, i + 1);
            out.append(piece);
            i = i + 1;
        }
        proof {
            if s@.skip(i as int).len() == 0 {
                assert(collapse_double_spaces(s@.skip(i as int)) =~= Seq::<char>::empty());
            }
        }
    }
    proof {
        assert(s@.skip(n as int) =~= Seq::<char>::empty());
        assert(out@ + Seq::<char>::empty() =~= out@);
    }
    out
}

} // verus!
