//! Character-level helpers over `&str`: equality, prefix and substring
//! tests, concatenation. The schema builder keys its conventions on these.

use vstd::prelude::*;

verus! {

/// Character-for-character string equality.
pub fn streq(a: &str, b: &str) -> (r: bool)
    ensures
        r == (a@ == b@),
{
    let x = a.to_owned();
    let y = b.to_owned();
    x == y
}

/// Whether `p` is a prefix of `s`.
pub open spec fn spec_has_prefix(s: Seq<char>, p: Seq<char>) -> bool {
    s.len() >= p.len() && s.subrange(0, p.len() as int) == p
}

/// Prefix test, one character at a time.
#[verifier::loop_isolation(false)]
pub fn has_prefix(s: &str, p: &str) -> (r: bool)
    ensures
        r == spec_has_prefix(s@, p@),
{
    let sl = s.unicode_len();
    let pl = p.unicode_len();
    if sl < pl {
        return false;
    }
    let mut i: usize = 0;
    while i < pl
        invariant
            0 <= i <= pl,
            forall|j: int| 0 <= j < i as int ==> s@[j] == p@[j],
        decreases pl - i,
    {
        if s.get_char(i) != p.get_char(i) {
            proof {
                assert(s@.subrange(0, p@.len() as int)[i as int] != p@[i as int]);
            }
            return false;
        }
        i = i + 1;
    }
    proof {
        assert(s@.subrange(0, p@.len() as int) =~= p@);
    }
    true
}

/// The characters of `s` from position `k` on.
pub fn suffix_from(s: &str, k: usize) -> (r: String)
    requires
        k <= s@.len(),
    ensures
        r@ == s@.subrange(k as int, s@.len() as int),
{
    let l = s.unicode_len();
    s.substring_char(k, l).to_owned()
}

/// Whether `n` occurs contiguously somewhere in `h`.
pub open spec fn spec_contains_str(h: Seq<char>, n: Seq<char>) -> bool {
    exists|k: int|
        0 <= k <= h.len() - n.len() && #[trigger] h.subrange(k, k + n.len() as int) == n
}

/// Substring search by scanning every shift.
#[verifier::loop_isolation(false)]
pub fn str_contains(h: &str, n: &str) -> (r: bool)
    ensures
        r == spec_contains_str(h@, n@),
{
    let hl = h.unicode_len();
    let nl = n.unicode_len();
    if nl > hl {
        return false;
    }
    if nl == 0 {
        proof {
            assert(h@.subrange(0, 0 + n@.len() as int) =~= n@);
        }
        return true;
    }
    let mut k: usize = 0;
    while k < hl - nl + 1
        invariant
            0 <= k <= hl - nl + 1,
            forall|x: int|
                0 <= x < k as int ==> #[trigger] h@.subrange(x, x + n@.len() as int) != n@,
        decreases hl - nl + 1 - k,
    {
        let mut j: usize = 0;
        let mut matched = true;
        while j < nl
            invariant
                0 <= j <= nl,
                matched ==> forall|y: int| 0 <= y < j as int ==> h@[k as int + y] == n@[y],
                !matched ==> h@.subrange(k as int, k as int + n@.len() as int) != n@,
            decreases nl - j,
        {
            if h.get_char(k + j) != n.get_char(j) {
                matched = false;
                proof {
                    let ji = j as int;
                    assert(h@.subrange(k as int, k as int + n@.len() as int)[ji] != n@[ji]);
                }
                j = nl;
            } else {
                j = j + 1;
            }
        }
        if matched {
            proof {
                assert(h@.subrange(k as int, k as int + n@.len() as int) =~= n@);
            }
            return true;
        }
        proof {
            assert(h@.subrange(k as int, k as int + n@.len() as int) != n@);
        }
        k = k + 1;
    }
    false
}

/// The concatenation of two character sequences, executably.
pub fn concat2(a: &str, b: &str) -> (r: String)
    ensures
        r@ == a@ + b@,
{
    let x = a.to_owned();
    x.concat(b)
}

/// Three-way concatenation.
pub fn concat3(a: &str, b: &str, c: &str) -> (r: String)
    ensures
        r@ == a@ + b@ + c@,
{
    let x = a.to_owned();
    let y = x.concat(b);
    y.concat(c)
}

} // verus!
