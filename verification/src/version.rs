//! The program's own version, and normalization of version tags as the
//! release feed reports them.

use vstd::prelude::*;
use crate::strutil::{chars_to_string, str_chars, subchars};

verus! {

/// The version of this build.
pub fn current_version() -> (r: String)
    ensures
        r@ == "1.0.0"@,
{
    String::from_str("1.0.0")
}

/// A release tag without its leading `v` letters and trailing newlines.
pub open spec fn normalized_tag(s: Seq<char>) -> Seq<char> {
    s.subrange(leading_v_count(s, 0), s.len() - trailing_newline_count(s))
}

/// Number of consecutive `v` characters at the front, counting from `i`.
pub open spec fn leading_v_count(s: Seq<char>, i: int) -> int
    decreases s.len() - i,
{
    if i < 0 || i >= s.len() {
        if i < 0 {
            0
        } else {
            i
        }
    } else if s[i] == 'v' {
        leading_v_count(s, i + 1)
    } else {
        i
    }
}

/// Number of consecutive newline characters at the back.
pub open spec fn trailing_newline_count(s: Seq<char>) -> int
    decreases s.len(),
{
    if s.len() > 0 && s.last() == '\n' {
        1 + trailing_newline_count(s.drop_last())
    } else {
        0
    }
}

/// Strips leading `v` letters and trailing newlines from a release tag, as
/// in `v1.2.3` reported with a final newline.
pub fn normalize_tag(tag: &str) -> (r: String)
    ensures
        r@ == normalized_tag(tag@),
{
    let v = str_chars(tag);
    let n = v.len();
    let mut lo: usize = 0;
    while lo < n && v[lo] == 'v'
        invariant
            n == v@.len(),
            lo <= n,
            leading_v_count(v@, 0) == leading_v_count(v@, lo as int),
        decreases n - lo,
    {
        lo = lo + 1;
    }
    proof {
        assert(leading_v_count(v@, lo as int) == lo as int);
    }
    let mut hi: usize = n;
    proof {
        assert(v@.take(n as int) =~= v@);
    }
    while hi > lo && v[hi - 1] == '\n'
        invariant
            lo <= hi <= n,
            n == v@.len(),
            lo as int == leading_v_count(v@, 0),
            trailing_newline_count(v@) == (n - hi) + trailing_newline_count(v@.take(hi as int)),
        decreases hi,
    {
        proof {
            assert(v@.take(hi as int).last() == v@[hi - 1]);
            assert(v@.take(hi as int).drop_last() =~= v@.take(hi - 1));
        }
        hi = hi - 1;
    }
    proof {
        let t = v@.take(hi as int);
        if t.len() > 0 && t.last() == '\n' {
            assert(t.last() == v@[hi - 1]);
            if hi > lo {
                assert(false);
            } else {
                assert(hi == lo);
                assert(v@[lo - 1] == 'v') by {
                    lemma_leading_v_prefix(v@, 0, lo as int);
                }
                assert(false);
            }
        }
        assert(trailing_newline_count(t) == 0);
        assert(v@.subrange(lo as int, hi as int) =~= normalized_tag(v@));
    }
    chars_to_string(&subchars(&v, lo, hi))
}

/// Every character before the leading-`v` boundary is a `v`.
proof fn lemma_leading_v_prefix(s: Seq<char>, i: int, j: int)
    requires
        0 <= i <= s.len(),
        leading_v_count(s, i) == j,
        i < j,
    ensures
        j <= s.len(),
        forall|k: int| i <= k < j ==> s[k] == 'v',
    decreases s.len() - i,
{
    if i < s.len() && s[i] == 'v' {
        if i + 1 < j {
            lemma_leading_v_prefix(s, i + 1, j);
        }
    }
}

} // verus!
