//! First-match search over sequences of keyed entries, the executable
//! replacement for the derived name indexes of the catalog and the stores.

use vstd::prelude::*;

verus! {

/// The index of the first element of `s` whose key (under `keyf`) is `key`,
/// or `s.len()` if there is none.
pub open spec fn find_idx<T, K>(s: Seq<T>, key: K, keyf: spec_fn(T) -> K) -> int
    decreases s.len(),
{
    if s.len() <= 0 {
        0
    } else if keyf(s[0]) == key {
        0
    } else {
        1 + find_idx(s.subrange(1, s.len() as int), key, keyf)
    }
}

/// `find_idx` lands on the first match: everything before it differs from
/// `key`, and it matches unless it is `s.len()`.
pub proof fn lemma_find_idx<T, K>(s: Seq<T>, key: K, keyf: spec_fn(T) -> K)
    ensures
        0 <= find_idx(s, key, keyf) <= s.len(),
        find_idx(s, key, keyf) < s.len() ==> keyf(s[find_idx(s, key, keyf)]) == key,
        forall|j: int| 0 <= j < find_idx(s, key, keyf) ==> keyf(#[trigger] s[j]) != key,
    decreases s.len(),
{
    if s.len() > 0 && keyf(s[0]) != key {
        let t = s.subrange(1, s.len() as int);
        lemma_find_idx(t, key, keyf);
        assert(forall|j: int| 1 <= j < s.len() ==> #[trigger] s[j] == t[j - 1]);
    }
}

/// A scan that rejects everything before `i` and accepts at `i` (if within
/// bounds) has found exactly `find_idx`.
pub proof fn lemma_find_idx_is_first<T, K>(s: Seq<T>, key: K, keyf: spec_fn(T) -> K, i: int)
    requires
        0 <= i <= s.len(),
        forall|j: int| 0 <= j < i ==> keyf(#[trigger] s[j]) != key,
        i < s.len() ==> keyf(s[i]) == key,
    ensures
        find_idx(s, key, keyf) == i,
{
    lemma_find_idx(s, key, keyf);
}

/// Appending an element leaves an earlier first match where it was; with no
/// earlier match the appended element is found exactly when it matches.
pub proof fn lemma_find_idx_push<T, K>(s: Seq<T>, key: K, keyf: spec_fn(T) -> K, x: T)
    ensures
        find_idx(s.push(x), key, keyf) == if find_idx(s, key, keyf) < s.len() {
            find_idx(s, key, keyf)
        } else if keyf(x) == key {
            s.len() as int
        } else {
            s.len() as int + 1
        },
    decreases s.len(),
{
    lemma_find_idx(s, key, keyf);
    if s.len() == 0 {
        assert(s.push(x)[0] == x);
        assert(s.push(x).subrange(1, 1) =~= Seq::<T>::empty());
        assert(find_idx(s.push(x).subrange(1, 1), key, keyf) == 0);
        if keyf(x) == key {
            assert(find_idx(s.push(x), key, keyf) == 0);
        } else {
            assert(find_idx(s.push(x), key, keyf) == 1);
        }
    } else {
        let t = s.subrange(1, s.len() as int);
        assert(s.push(x)[0] == s[0]);
        assert(s.push(x).subrange(1, s.len() as int + 1) =~= t.push(x));
        lemma_find_idx_push(t, key, keyf, x);
        lemma_find_idx(t, key, keyf);
        if keyf(s[0]) == key {
            assert(find_idx(s.push(x), key, keyf) == 0);
        } else {
            assert(find_idx(s.push(x), key, keyf) == 1 + find_idx(t.push(x), key, keyf));
            assert(find_idx(s, key, keyf) == 1 + find_idx(t, key, keyf));
        }
    }
}

/// Two entry sequences with pointwise equal keys are searched alike.
pub proof fn lemma_find_idx_keys_eq<T, K>(a: Seq<T>, b: Seq<T>, key: K, keyf: spec_fn(T) -> K)
    requires
        a.len() == b.len(),
        forall|j: int| 0 <= j < a.len() ==> keyf(#[trigger] a[j]) == keyf(b[j]),
    ensures
        find_idx(a, key, keyf) == find_idx(b, key, keyf),
    decreases a.len(),
{
    if a.len() > 0 && keyf(a[0]) != key {
        let ta = a.subrange(1, a.len() as int);
        let tb = b.subrange(1, b.len() as int);
        assert(forall|j: int| 0 <= j < ta.len() ==> #[trigger] ta[j] == a[j + 1]);
        assert(forall|j: int| 0 <= j < tb.len() ==> #[trigger] tb[j] == b[j + 1]);
        lemma_find_idx_keys_eq(ta, tb, key, keyf);
    }
}

} // verus!

verus! {

/// Appending entries none of which carries `key` leaves an earlier first
/// match where it was, and an absent key absent.
pub proof fn lemma_find_idx_append_absent<T, K>(
    s: Seq<T>,
    extra: Seq<T>,
    key: K,
    keyf: spec_fn(T) -> K,
)
    requires
        forall|j: int| 0 <= j < extra.len() ==> keyf(#[trigger] extra[j]) != key,
    ensures
        find_idx(s + extra, key, keyf) == if find_idx(s, key, keyf) < s.len() {
            find_idx(s, key, keyf)
        } else {
            (s + extra).len() as int
        },
    decreases extra.len(),
{
    lemma_find_idx(s, key, keyf);
    if extra.len() == 0 {
        assert(s + extra =~= s);
    } else {
        let init = extra.drop_last();
        assert(forall|j: int| 0 <= j < init.len() ==> #[trigger] init[j] == extra[j]);
        assert(s + extra =~= (s + init).push(extra.last()));
        lemma_find_idx_append_absent(s, init, key, keyf);
        lemma_find_idx_push(s + init, key, keyf, extra.last());
        lemma_find_idx(s + init, key, keyf);
    }
}

} // verus!
