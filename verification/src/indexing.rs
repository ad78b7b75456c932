//! The per-type identity index: for every indexable object type, a map
//! from id value to the positions of the records carrying that id.

use vstd::prelude::*;

use crate::parsing::{db_get, db_has, db_records, DatabaseIndex};
use crate::search::{
    find_idx, lemma_find_idx, lemma_find_idx_is_first, lemma_find_idx_keys_eq,
    lemma_find_idx_push,
};
use crate::structure::{StructureDataKind, StructureIndex};
use crate::text::streq;
use crate::value::{spec_as_i64, spec_prop, vview, SpecValue, Value};

verus! {

/// One type's id index, keyed as the id field's primitive kind demands.
/// A value may map to several positions; every list is non-empty.
#[derive(Clone, Debug)]
pub enum FieldHashmaps {
    Str(Vec<(String, Vec<usize>)>),
    I32(Vec<(i32, Vec<usize>)>),
    U64(Vec<(u64, Vec<usize>)>),
    Null,
}

/// The whole identity index: type name to an optional (absent if
/// unindexable) map from the indexed field name to its typed index.
pub type DatabaseHashmaps = Vec<(String, Option<Vec<(String, FieldHashmaps)>>)>;

/// Why an index could not be built from a dataset.
#[derive(Debug)]
pub enum BuildError {
    /// The id field's primitive kind has no index variant.
    UnsupportedIdKind { object_name: String },
    /// A record's id property is missing or of the wrong run-time type.
    IdMismatch { object_name: String, position: usize },
    /// The catalog declares no root Query object to hang the dataset on.
    MissingQueryType,
}

/// All positions (in order) at which `keys` carries `key`.
pub open spec fn positions_of<K>(keys: Seq<K>, key: K) -> Seq<int>
    decreases keys.len(),
{
    if keys.len() <= 0 {
        Seq::empty()
    } else {
        let init = positions_of(keys.drop_last(), key);
        if keys.last() == key {
            init.push(keys.len() - 1)
        } else {
            init
        }
    }
}

/// Appending a key appends its position to that key's list and leaves
/// every other list alone.
pub proof fn lemma_positions_of_push<K>(keys: Seq<K>, key: K, x: K)
    ensures
        positions_of(keys.push(x), key) == if x == key {
            positions_of(keys, key).push(keys.len() as int)
        } else {
            positions_of(keys, key)
        },
{
    assert(keys.push(x).drop_last() =~= keys);
    assert(keys.push(x).last() == x);
}

/// Every recorded position indexes into `keys`.
pub proof fn lemma_positions_of_bounds<K>(keys: Seq<K>, key: K)
    ensures
        forall|t: int|
            0 <= t < positions_of(keys, key).len() ==> 0 <= #[trigger] positions_of(keys, key)[t]
                < keys.len(),
    decreases keys.len(),
{
    if keys.len() > 0 {
        lemma_positions_of_bounds(keys.drop_last(), key);
        let init = positions_of(keys.drop_last(), key);
        assert forall|t: int|
            0 <= t < positions_of(keys, key).len() implies 0 <= #[trigger] positions_of(
            keys,
            key,
        )[t] < keys.len() by {
            if keys.last() == key {
                if t < init.len() {
                    assert(positions_of(keys, key)[t] == init[t]);
                } else {
                    assert(positions_of(keys, key)[t] == keys.len() - 1);
                }
            } else {
                assert(positions_of(keys, key)[t] == init[t]);
            }
        }
    }
}

/// Every occurrence of `key` is recorded: position `i` with `keys[i] ==
/// key` appears in the list.
pub proof fn lemma_positions_of_occurrence<K>(keys: Seq<K>, key: K, i: int)
    requires
        0 <= i < keys.len(),
        keys[i] == key,
    ensures
        positions_of(keys, key).contains(i),
    decreases keys.len(),
{
    if i == keys.len() - 1 {
        assert(keys.last() == key);
        let ps = positions_of(keys, key);
        assert(ps[ps.len() - 1] == i);
    } else {
        assert(keys.drop_last()[i] == keys[i]);
        lemma_positions_of_occurrence(keys.drop_last(), key, i);
        let init = positions_of(keys.drop_last(), key);
        let w = choose|w: int| 0 <= w < init.len() && init[w] == i;
        if keys.last() == key {
            assert(positions_of(keys, key)[w] == i);
        } else {
            assert(positions_of(keys, key)[w] == i);
        }
    }
}

/// Position lists as mathematical integers.
pub open spec fn mapped_positions(ps: Seq<usize>) -> Seq<int> {
    ps.map_values(|p: usize| p as int)
}

/// No two entries of the association list carry the same key.
pub open spec fn distinct_keys<E, K>(m: Seq<E>, keyf: spec_fn(E) -> K) -> bool {
    forall|i: int, j: int|
        0 <= i < j < m.len() ==> keyf(#[trigger] m[i]) != keyf(#[trigger] m[j])
}

/// What it means for an association list `m` to index `keys`: looking any
/// key up finds exactly the positions at which it occurs, and misses
/// exactly the keys that never occur.
pub open spec fn index_models<E, K>(
    m: Seq<E>,
    keys: Seq<K>,
    keyf: spec_fn(E) -> K,
    valf: spec_fn(E) -> Seq<usize>,
) -> bool {
    forall|k: K|
        #![trigger find_idx(m, k, keyf)]
        #![trigger positions_of(keys, k)]
        {
            let fi = find_idx(m, k, keyf);
            &&& fi < m.len() ==> positions_of(keys, k).len() > 0 && mapped_positions(valf(m[fi]))
                == positions_of(keys, k)
            &&& fi >= m.len() ==> positions_of(keys, k).len() == 0
        }
}

/// The empty index models the empty key sequence.
pub proof fn lemma_index_models_empty<E, K>(keyf: spec_fn(E) -> K, valf: spec_fn(E) -> Seq<usize>)
    ensures
        index_models(Seq::<E>::empty(), Seq::<K>::empty(), keyf, valf),
{
    assert forall|k: K| #[trigger] find_idx(Seq::<E>::empty(), k, keyf) == 0 by {
        assert(Seq::<E>::empty().len() == 0);
    }
    assert forall|k: K| #[trigger] positions_of(Seq::<K>::empty(), k).len() == 0 by {
        assert(Seq::<K>::empty().len() == 0);
    }
}

/// Pushing position `n` onto the entry of key `kv` (already present) makes
/// the index model `keys.push(kv)`.
pub proof fn lemma_index_models_update<E, K>(
    m: Seq<E>,
    m2: Seq<E>,
    keys: Seq<K>,
    kv: K,
    n: usize,
    keyf: spec_fn(E) -> K,
    valf: spec_fn(E) -> Seq<usize>,
)
    requires
        index_models(m, keys, keyf, valf),
        keys.len() == n as int,
        find_idx(m, kv, keyf) < m.len(),
        m2.len() == m.len(),
        forall|j: int| 0 <= j < m.len() ==> keyf(#[trigger] m2[j]) == keyf(m[j]),
        forall|j: int| 0 <= j < m.len() && j != find_idx(m, kv, keyf) ==> #[trigger] m2[j] == m[j],
        valf(m2[find_idx(m, kv, keyf)]) == valf(m[find_idx(m, kv, keyf)]).push(n),
    ensures
        index_models(m2, keys.push(kv), keyf, valf),
{
    let e = find_idx(m, kv, keyf);
    lemma_find_idx(m, kv, keyf);
    assert forall|k: K|
        #![trigger find_idx(m2, k, keyf)]
        #![trigger positions_of(keys.push(kv), k)]
        {
            let fi = find_idx(m2, k, keyf);
            &&& fi < m2.len() ==> positions_of(keys.push(kv), k).len() > 0 && mapped_positions(
                valf(m2[fi]),
            ) == positions_of(keys.push(kv), k)
            &&& fi >= m2.len() ==> positions_of(keys.push(kv), k).len() == 0
        } by {
        lemma_find_idx_keys_eq(m2, m, k, keyf);
        lemma_positions_of_push(keys, k, kv);
        let fi = find_idx(m, k, keyf);
        if fi < m.len() {
            lemma_find_idx(m, k, keyf);
            if fi == e && k == kv {
                assert(mapped_positions(valf(m[e]).push(n)) =~= mapped_positions(
                    valf(m[e]),
                ).push(n as int));
            } else {
                assert(fi != e || k == kv);
                if fi == e {
                } else {
                    assert(m2[fi] == m[fi]);
                    assert(k != kv || find_idx(m, k, keyf) == find_idx(m, kv, keyf));
                }
            }
        } else {
            assert(k != kv);
        }
    }
}

/// Appending a brand-new entry for key `kv` at position `n` makes the
/// index model `keys.push(kv)`.
pub proof fn lemma_index_models_append<E, K>(
    m: Seq<E>,
    keys: Seq<K>,
    kv: K,
    n: usize,
    x: E,
    keyf: spec_fn(E) -> K,
    valf: spec_fn(E) -> Seq<usize>,
)
    requires
        index_models(m, keys, keyf, valf),
        keys.len() == n as int,
        find_idx(m, kv, keyf) >= m.len(),
        keyf(x) == kv,
        valf(x) == seq![n],
    ensures
        index_models(m.push(x), keys.push(kv), keyf, valf),
{
    assert forall|k: K|
        #![trigger find_idx(m.push(x), k, keyf)]
        #![trigger positions_of(keys.push(kv), k)]
        {
            let fi = find_idx(m.push(x), k, keyf);
            &&& fi < m.push(x).len() ==> positions_of(keys.push(kv), k).len() > 0
                && mapped_positions(valf(m.push(x)[fi])) == positions_of(keys.push(kv), k)
            &&& fi >= m.push(x).len() ==> positions_of(keys.push(kv), k).len() == 0
        } by {
        lemma_find_idx_push(m, k, keyf, x);
        lemma_positions_of_push(keys, k, kv);
        lemma_find_idx(m, k, keyf);
        let fi0 = find_idx(m, k, keyf);
        if k == kv {
            assert(fi0 >= m.len());
            assert(positions_of(keys, k).len() == 0);
            assert(positions_of(keys, k) =~= Seq::<int>::empty());
            assert(m.push(x)[m.len() as int] == x);
            assert(mapped_positions(seq![n]) =~= seq![n as int]);
            assert(positions_of(keys, k).push(keys.len() as int) =~= seq![n as int]);
        } else {
            if fi0 < m.len() {
                assert(m.push(x)[fi0] == m[fi0]);
            }
        }
    }
}

/// The id of a record when the declared kind stores strings: the `id`
/// property, which must be a string.
pub open spec fn spec_id_str(v: SpecValue) -> Option<Seq<char>> {
    match spec_prop(v, "id"@) {
        SpecValue::Str(s) => Some(s),
        _ => Option::None,
    }
}

/// The id of a record when the declared kind stores 32-bit integers: the
/// `id` property read as a signed number that fits in 32 bits.
pub open spec fn spec_id_i32(v: SpecValue) -> Option<i32> {
    match spec_as_i64(spec_prop(v, "id"@)) {
        Some(x) => if i32::MIN as i64 <= x <= i32::MAX as i64 {
            Some(x as i32)
        } else {
            Option::None
        },
        Option::None => Option::None,
    }
}

/// The id of a record when the declared kind stores 64-bit unsigned
/// integers.
pub open spec fn spec_id_u64(v: SpecValue) -> Option<u64> {
    crate::value::spec_as_u64(spec_prop(v, "id"@))
}

/// The views of a sequence of string keys.
pub open spec fn str_views(keys: Seq<String>) -> Seq<Seq<char>> {
    keys.map_values(|s: String| s@)
}

/// Collect every record's string id, in record order; the position of the
/// first record whose id is missing or mistyped otherwise.
#[verifier::loop_isolation(false)]
pub fn subindex_keys_str(records: &Vec<Value>) -> (r: Result<Vec<String>, usize>)
    ensures
        match r {
            Ok(keys) => keys@.len() == records@.len() && forall|i: int|
                0 <= i < records@.len() ==> #[trigger] spec_id_str(vview(records@[i])) == Some(
                    keys@[i]@,
                ),
            Err(p) => p < records@.len() && spec_id_str(vview(records@[p as int])) is None
                && forall|i: int|
                0 <= i < p as int ==> #[trigger] spec_id_str(vview(records@[i])) is Some,
        },
{
    let mut keys: Vec<String> = Vec::new();
    let mut i: usize = 0;
    while i < records.len()
        invariant
            i <= records.len(),
            keys@.len() == i as int,
            forall|j: int|
                0 <= j < i as int ==> #[trigger] spec_id_str(vview(records@[j])) == Some(
                    keys@[j]@,
                ),
        decreases records.len() - i,
    {
        match crate::value::prop_of(&records[i], "id") {
            Some(v) => match v.str_of() {
                Some(s) => {
                    keys.push(s.clone());
                },
                None => {
                    return Err(i);
                },
            },
            None => {
                return Err(i);
            },
        }
        i = i + 1;
    }
    Ok(keys)
}

/// Collect every record's 32-bit id, in record order; the position of the
/// first record whose id is missing, mistyped or out of range otherwise.
#[verifier::loop_isolation(false)]
pub fn subindex_keys_i32(records: &Vec<Value>) -> (r: Result<Vec<i32>, usize>)
    ensures
        match r {
            Ok(keys) => keys@.len() == records@.len() && forall|i: int|
                0 <= i < records@.len() ==> #[trigger] spec_id_i32(vview(records@[i])) == Some(
                    keys@[i],
                ),
            Err(p) => p < records@.len() && spec_id_i32(vview(records@[p as int])) is None
                && forall|i: int|
                0 <= i < p as int ==> #[trigger] spec_id_i32(vview(records@[i])) is Some,
        },
{
    let mut keys: Vec<i32> = Vec::new();
    let mut i: usize = 0;
    while i < records.len()
        invariant
            i <= records.len(),
            keys@.len() == i as int,
            forall|j: int|
                0 <= j < i as int ==> #[trigger] spec_id_i32(vview(records@[j])) == Some(keys@[j]),
        decreases records.len() - i,
    {
        let got: Option<i64> = match crate::value::prop_of(&records[i], "id") {
            Some(v) => v.as_i64(),
            None => None,
        };
        match got {
            Some(x) => {
                if i32::MIN as i64 <= x && x <= i32::MAX as i64 {
                    keys.push(x as i32);
                } else {
                    return Err(i);
                }
            },
            None => {
                return Err(i);
            },
        }
        i = i + 1;
    }
    Ok(keys)
}

/// Collect every record's unsigned 64-bit id, in record order; the
/// position of the first record whose id is missing or mistyped otherwise.
#[verifier::loop_isolation(false)]
pub fn subindex_keys_u64(records: &Vec<Value>) -> (r: Result<Vec<u64>, usize>)
    ensures
        match r {
            Ok(keys) => keys@.len() == records@.len() && forall|i: int|
                0 <= i < records@.len() ==> #[trigger] spec_id_u64(vview(records@[i])) == Some(
                    keys@[i],
                ),
            Err(p) => p < records@.len() && spec_id_u64(vview(records@[p as int])) is None
                && forall|i: int|
                0 <= i < p as int ==> #[trigger] spec_id_u64(vview(records@[i])) is Some,
        },
{
    let mut keys: Vec<u64> = Vec::new();
    let mut i: usize = 0;
    while i < records.len()
        invariant
            i <= records.len(),
            keys@.len() == i as int,
            forall|j: int|
                0 <= j < i as int ==> #[trigger] spec_id_u64(vview(records@[j])) == Some(keys@[j]),
        decreases records.len() - i,
    {
        let got: Option<u64> = match crate::value::prop_of(&records[i], "id") {
            Some(v) => v.as_u64(),
            None => None,
        };
        match got {
            Some(x) => {
                keys.push(x);
            },
            None => {
                return Err(i);
            },
        }
        i = i + 1;
    }
    Ok(keys)
}

/// The position of the first entry keyed by `k`, or `m.len()`.
#[verifier::loop_isolation(false)]
fn find_str_entry(m: &Vec<(String, Vec<usize>)>, k: &str) -> (r: usize)
    ensures
        r as int == find_idx(m@, k@, |e: (String, Vec<usize>)| e.0@),
{
    let mut j: usize = 0;
    while j < m.len()
        invariant
            j <= m.len(),
            forall|t: int| 0 <= t < j as int ==> #[trigger] m@[t].0@ != k@,
        decreases m.len() - j,
    {
        if streq(m[j].0.as_str(), k) {
            proof {
                lemma_find_idx_is_first(m@, k@, |e: (String, Vec<usize>)| e.0@, j as int);
            }
            return j;
        }
        j = j + 1;
    }
    proof {
        lemma_find_idx_is_first(m@, k@, |e: (String, Vec<usize>)| e.0@, m@.len() as int);
    }
    m.len()
}

/// The position of the first entry keyed by `k`, or `m.len()`.
#[verifier::loop_isolation(false)]
fn find_i32_entry(m: &Vec<(i32, Vec<usize>)>, k: i32) -> (r: usize)
    ensures
        r as int == find_idx(m@, k, |e: (i32, Vec<usize>)| e.0),
{
    let mut j: usize = 0;
    while j < m.len()
        invariant
            j <= m.len(),
            forall|t: int| 0 <= t < j as int ==> #[trigger] m@[t].0 != k,
        decreases m.len() - j,
    {
        if m[j].0 == k {
            proof {
                lemma_find_idx_is_first(m@, k, |e: (i32, Vec<usize>)| e.0, j as int);
            }
            return j;
        }
        j = j + 1;
    }
    proof {
        lemma_find_idx_is_first(m@, k, |e: (i32, Vec<usize>)| e.0, m@.len() as int);
    }
    m.len()
}

/// The position of the first entry keyed by `k`, or `m.len()`.
#[verifier::loop_isolation(false)]
fn find_u64_entry(m: &Vec<(u64, Vec<usize>)>, k: u64) -> (r: usize)
    ensures
        r as int == find_idx(m@, k, |e: (u64, Vec<usize>)| e.0),
{
    let mut j: usize = 0;
    while j < m.len()
        invariant
            j <= m.len(),
            forall|t: int| 0 <= t < j as int ==> #[trigger] m@[t].0 != k,
        decreases m.len() - j,
    {
        if m[j].0 == k {
            proof {
                lemma_find_idx_is_first(m@, k, |e: (u64, Vec<usize>)| e.0, j as int);
            }
            return j;
        }
        j = j + 1;
    }
    proof {
        lemma_find_idx_is_first(m@, k, |e: (u64, Vec<usize>)| e.0, m@.len() as int);
    }
    m.len()
}

/// Group string keys: walking `keys` in order, append each position to the
/// list of its key.
#[verifier::loop_isolation(false)]
pub fn subindex_hashmaps_str(keys: &Vec<String>) -> (m: Vec<(String, Vec<usize>)>)
    ensures
        index_models(
            m@,
            str_views(keys@),
            |e: (String, Vec<usize>)| e.0@,
            |e: (String, Vec<usize>)| e.1@,
        ),
        distinct_keys(m@, |e: (String, Vec<usize>)| e.0@),
{
    let ghost keyf = |e: (String, Vec<usize>)| e.0@;
    let ghost valf = |e: (String, Vec<usize>)| e.1@;
    let mut m: Vec<(String, Vec<usize>)> = Vec::new();
    proof {
        lemma_index_models_empty(keyf, valf);
        assert(str_views(keys@).take(0) =~= Seq::<Seq<char>>::empty());
        assert(m@ =~= Seq::<(String, Vec<usize>)>::empty());
    }
    let mut idx: usize = 0;
    while idx < keys.len()
        invariant
            idx <= keys.len(),
            index_models(m@, str_views(keys@).take(idx as int), keyf, valf),
            distinct_keys(m@, keyf),
        decreases keys.len() - idx,
    {
        let ghost prev = m@;
        let ghost kv = keys@[idx as int]@;
        let ghost taken = str_views(keys@).take(idx as int);
        let e = find_str_entry(&m, keys[idx].as_str());
        if e < m.len() {
            let mut entry = m.remove(e);
            entry.1.push(idx);
            m.insert(e, entry);
            proof {
                assert(m@ =~= prev.update(e as int, m@[e as int]));
                assert(forall|j: int|
                    0 <= j < prev.len() ==> keyf(#[trigger] m@[j]) == keyf(prev[j]));
                assert(valf(m@[e as int]) == valf(prev[e as int]).push(idx));
                lemma_index_models_update(prev, m@, taken, kv, idx, keyf, valf);
                assert forall|a: int, b: int|
                    0 <= a < b < m@.len() implies keyf(#[trigger] m@[a]) != keyf(
                    #[trigger] m@[b],
                ) by {
                    assert(keyf(m@[a]) == keyf(prev[a]));
                    assert(keyf(m@[b]) == keyf(prev[b]));
                }
            }
        } else {
            let mut ps: Vec<usize> = Vec::new();
            ps.push(idx);
            m.push((keys[idx].clone(), ps));
            proof {
                assert(valf(m@[m@.len() - 1]) =~= seq![idx]);
                lemma_index_models_append(prev, taken, kv, idx, m@[m@.len() - 1], keyf, valf);
                lemma_find_idx(prev, kv, keyf);
                assert forall|a: int, b: int|
                    0 <= a < b < m@.len() implies keyf(#[trigger] m@[a]) != keyf(
                    #[trigger] m@[b],
                ) by {
                    assert(m@[a] == prev[a]);
                    if b < prev.len() {
                        assert(m@[b] == prev[b]);
                    } else {
                        assert(keyf(m@[b]) == kv);
                    }
                }
            }
        }
        proof {
            assert(str_views(keys@).take(idx as int + 1) =~= taken.push(kv));
        }
        idx = idx + 1;
    }
    proof {
        assert(str_views(keys@).take(keys@.len() as int) =~= str_views(keys@));
    }
    m
}

/// Group 32-bit keys, as `subindex_hashmaps_str` does for strings.
#[verifier::loop_isolation(false)]
pub fn subindex_hashmaps_i32(keys: &Vec<i32>) -> (m: Vec<(i32, Vec<usize>)>)
    ensures
        index_models(m@, keys@, |e: (i32, Vec<usize>)| e.0, |e: (i32, Vec<usize>)| e.1@),
        distinct_keys(m@, |e: (i32, Vec<usize>)| e.0),
{
    let ghost keyf = |e: (i32, Vec<usize>)| e.0;
    let ghost valf = |e: (i32, Vec<usize>)| e.1@;
    let mut m: Vec<(i32, Vec<usize>)> = Vec::new();
    proof {
        lemma_index_models_empty(keyf, valf);
        assert(keys@.take(0) =~= Seq::<i32>::empty());
        assert(m@ =~= Seq::<(i32, Vec<usize>)>::empty());
    }
    let mut idx: usize = 0;
    while idx < keys.len()
        invariant
            idx <= keys.len(),
            index_models(m@, keys@.take(idx as int), keyf, valf),
            distinct_keys(m@, keyf),
        decreases keys.len() - idx,
    {
        let ghost prev = m@;
        let ghost kv = keys@[idx as int];
        let ghost taken = keys@.take(idx as int);
        let e = find_i32_entry(&m, keys[idx]);
        if e < m.len() {
            let mut entry = m.remove(e);
            entry.1.push(idx);
            m.insert(e, entry);
            proof {
                assert(m@ =~= prev.update(e as int, m@[e as int]));
                assert(forall|j: int|
                    0 <= j < prev.len() ==> keyf(#[trigger] m@[j]) == keyf(prev[j]));
                assert(valf(m@[e as int]) == valf(prev[e as int]).push(idx));
                lemma_index_models_update(prev, m@, taken, kv, idx, keyf, valf);
                assert forall|a: int, b: int|
                    0 <= a < b < m@.len() implies keyf(#[trigger] m@[a]) != keyf(
                    #[trigger] m@[b],
                ) by {
                    assert(keyf(m@[a]) == keyf(prev[a]));
                    assert(keyf(m@[b]) == keyf(prev[b]));
                }
            }
        } else {
            let mut ps: Vec<usize> = Vec::new();
            ps.push(idx);
            m.push((keys[idx], ps));
            proof {
                assert(valf(m@[m@.len() - 1]) =~= seq![idx]);
                lemma_index_models_append(prev, taken, kv, idx, m@[m@.len() - 1], keyf, valf);
                lemma_find_idx(prev, kv, keyf);
                assert forall|a: int, b: int|
                    0 <= a < b < m@.len() implies keyf(#[trigger] m@[a]) != keyf(
                    #[trigger] m@[b],
                ) by {
                    assert(m@[a] == prev[a]);
                    if b < prev.len() {
                        assert(m@[b] == prev[b]);
                    } else {
                        assert(keyf(m@[b]) == kv);
                    }
                }
            }
        }
        proof {
            assert(keys@.take(idx as int + 1) =~= taken.push(kv));
        }
        idx = idx + 1;
    }
    proof {
        assert(keys@.take(keys@.len() as int) =~= keys@);
    }
    m
}

/// Group unsigned 64-bit keys, as `subindex_hashmaps_str` does for
/// strings.
#[verifier::loop_isolation(false)]
pub fn subindex_hashmaps_u64(keys: &Vec<u64>) -> (m: Vec<(u64, Vec<usize>)>)
    ensures
        index_models(m@, keys@, |e: (u64, Vec<usize>)| e.0, |e: (u64, Vec<usize>)| e.1@),
        distinct_keys(m@, |e: (u64, Vec<usize>)| e.0),
{
    let ghost keyf = |e: (u64, Vec<usize>)| e.0;
    let ghost valf = |e: (u64, Vec<usize>)| e.1@;
    let mut m: Vec<(u64, Vec<usize>)> = Vec::new();
    proof {
        lemma_index_models_empty(keyf, valf);
        assert(keys@.take(0) =~= Seq::<u64>::empty());
        assert(m@ =~= Seq::<(u64, Vec<usize>)>::empty());
    }
    let mut idx: usize = 0;
    while idx < keys.len()
        invariant
            idx <= keys.len(),
            index_models(m@, keys@.take(idx as int), keyf, valf),
            distinct_keys(m@, keyf),
        decreases keys.len() - idx,
    {
        let ghost prev = m@;
        let ghost kv = keys@[idx as int];
        let ghost taken = keys@.take(idx as int);
        let e = find_u64_entry(&m, keys[idx]);
        if e < m.len() {
            let mut entry = m.remove(e);
            entry.1.push(idx);
            m.insert(e, entry);
            proof {
                assert(m@ =~= prev.update(e as int, m@[e as int]));
                assert(forall|j: int|
                    0 <= j < prev.len() ==> keyf(#[trigger] m@[j]) == keyf(prev[j]));
                assert(valf(m@[e as int]) == valf(prev[e as int]).push(idx));
                lemma_index_models_update(prev, m@, taken, kv, idx, keyf, valf);
                assert forall|a: int, b: int|
                    0 <= a < b < m@.len() implies keyf(#[trigger] m@[a]) != keyf(
                    #[trigger] m@[b],
                ) by {
                    assert(keyf(m@[a]) == keyf(prev[a]));
                    assert(keyf(m@[b]) == keyf(prev[b]));
                }
            }
        } else {
            let mut ps: Vec<usize> = Vec::new();
            ps.push(idx);
            m.push((keys[idx], ps));
            proof {
                assert(valf(m@[m@.len() - 1]) =~= seq![idx]);
                lemma_index_models_append(prev, taken, kv, idx, m@[m@.len() - 1], keyf, valf);
                lemma_find_idx(prev, kv, keyf);
                assert forall|a: int, b: int|
                    0 <= a < b < m@.len() implies keyf(#[trigger] m@[a]) != keyf(
                    #[trigger] m@[b],
                ) by {
                    assert(m@[a] == prev[a]);
                    if b < prev.len() {
                        assert(m@[b] == prev[b]);
                    } else {
                        assert(keyf(m@[b]) == kv);
                    }
                }
            }
        }
        proof {
            assert(keys@.take(idx as int + 1) =~= taken.push(kv));
        }
        idx = idx + 1;
    }
    proof {
        assert(keys@.take(keys@.len() as int) =~= keys@);
    }
    m
}

} // verus!

verus! {

/// Whether an object type gets an index at all: it must have records in
/// the store and declare an `id` field.
pub open spec fn obj_indexed(obj: crate::structure::StructureType, db: Seq<(String, Vec<Value>)>) -> bool {
    db_has(db, obj.name@) && obj.has_field("id"@)
}

/// The declared primitive kind of an object's `id` field.
pub open spec fn id_kind_of(obj: crate::structure::StructureType) -> StructureDataKind {
    obj.fields@[obj.field_idx("id"@)].data_type.kind
}

/// The kinds an index variant exists for.
pub open spec fn id_kind_supported(k: StructureDataKind) -> bool {
    k is Str || k is I32 || k is U64
}

/// Whether the record at position `i` fails id extraction under `kind`.
pub open spec fn id_fails_at(kind: StructureDataKind, records: Seq<Value>, i: int) -> bool {
    match kind {
        StructureDataKind::Str => spec_id_str(vview(records[i])) is None,
        StructureDataKind::I32 => spec_id_i32(vview(records[i])) is None,
        StructureDataKind::U64 => spec_id_u64(vview(records[i])) is None,
        _ => false,
    }
}

/// Every record's id extracts under `kind`.
pub open spec fn ids_ok(kind: StructureDataKind, records: Seq<Value>) -> bool {
    forall|i: int| 0 <= i < records.len() ==> !id_fails_at(kind, records, i)
}

/// An object builds cleanly: either it is not indexed at all, or its id
/// kind is supported and every record's id extracts.
pub open spec fn obj_ok(obj: crate::structure::StructureType, db: Seq<(String, Vec<Value>)>) -> bool {
    !obj_indexed(obj, db) || (id_kind_supported(id_kind_of(obj)) && ids_ok(
        id_kind_of(obj),
        db_records(db, obj.name@),
    ))
}

/// The first object (in catalog order) that does not build cleanly, or
/// `objs.len()`.
pub open spec fn first_bad_obj(objs: Seq<crate::structure::StructureType>, db: Seq<(String, Vec<Value>)>) -> int
    decreases objs.len(),
{
    if objs.len() <= 0 {
        0
    } else if !obj_ok(objs[0], db) {
        0
    } else {
        1 + first_bad_obj(objs.subrange(1, objs.len() as int), db)
    }
}

/// A scan that found every object before `i` clean, and `i` dirty if in
/// bounds, has located `first_bad_obj`.
pub proof fn lemma_first_bad_obj_is(
    objs: Seq<crate::structure::StructureType>,
    db: Seq<(String, Vec<Value>)>,
    i: int,
)
    requires
        0 <= i <= objs.len(),
        forall|j: int| 0 <= j < i ==> obj_ok(#[trigger] objs[j], db),
        i < objs.len() ==> !obj_ok(objs[i], db),
    ensures
        first_bad_obj(objs, db) == i,
    decreases i,
{
    if objs.len() > 0 && obj_ok(objs[0], db) {
        let t = objs.subrange(1, objs.len() as int);
        assert(forall|j: int| 1 <= j < objs.len() ==> #[trigger] objs[j] == t[j - 1]);
        assert(forall|j: int| 0 <= j < t.len() ==> #[trigger] t[j] == objs[j + 1]);
        lemma_first_bad_obj_is(t, db, i - 1);
    }
}

/// The records' string ids with a default for extraction failures; under
/// `ids_ok` this is exactly the id of each record, in store order.
pub open spec fn ids_str_of(records: Seq<Value>) -> Seq<Seq<char>> {
    Seq::new(
        records.len(),
        |i: int|
            match spec_id_str(vview(records[i])) {
                Some(s) => s,
                Option::None => Seq::empty(),
            },
    )
}

/// The records' 32-bit ids, with a default for extraction failures.
pub open spec fn ids_i32_of(records: Seq<Value>) -> Seq<i32> {
    Seq::new(
        records.len(),
        |i: int|
            match spec_id_i32(vview(records[i])) {
                Some(x) => x,
                Option::None => 0,
            },
    )
}

/// The records' unsigned 64-bit ids, with a default for extraction
/// failures.
pub open spec fn ids_u64_of(records: Seq<Value>) -> Seq<u64> {
    Seq::new(
        records.len(),
        |i: int|
            match spec_id_u64(vview(records[i])) {
                Some(x) => x,
                Option::None => 0,
            },
    )
}

/// What a type's index must hold: the variant chosen by the id field's
/// kind, indexing the records' ids in store order.
pub open spec fn fh_models(fh: FieldHashmaps, kind: StructureDataKind, records: Seq<Value>) -> bool {
    match kind {
        StructureDataKind::Str => fh matches FieldHashmaps::Str(m) && index_models(
            m@,
            ids_str_of(records),
            |e: (String, Vec<usize>)| e.0@,
            |e: (String, Vec<usize>)| e.1@,
        ) && distinct_keys(m@, |e: (String, Vec<usize>)| e.0@),
        StructureDataKind::I32 => fh matches FieldHashmaps::I32(m) && index_models(
            m@,
            ids_i32_of(records),
            |e: (i32, Vec<usize>)| e.0,
            |e: (i32, Vec<usize>)| e.1@,
        ) && distinct_keys(m@, |e: (i32, Vec<usize>)| e.0),
        StructureDataKind::U64 => fh matches FieldHashmaps::U64(m) && index_models(
            m@,
            ids_u64_of(records),
            |e: (u64, Vec<usize>)| e.0,
            |e: (u64, Vec<usize>)| e.1@,
        ) && distinct_keys(m@, |e: (u64, Vec<usize>)| e.0),
        _ => false,
    }
}

/// What one entry of the built identity index holds for its object type.
pub open spec fn hm_entry_models(
    entry: (String, Option<Vec<(String, FieldHashmaps)>>),
    obj: crate::structure::StructureType,
    db: Seq<(String, Vec<Value>)>,
) -> bool {
    &&& entry.0@ == obj.name@
    &&& if obj_indexed(obj, db) {
        entry.1 matches Some(inner) && inner@.len() == 1 && inner@[0].0@ == "id"@ && fh_models(
            inner@[0].1,
            id_kind_of(obj),
            db_records(db, obj.name@),
        )
    } else {
        entry.1 is None
    }
}

/// Build the identity index for every object type of the catalog: one
/// entry per object, in catalog order; `None` for types without records
/// or without an `id` field; otherwise the typed value-to-positions map.
/// Fails on the first object whose id kind is unsupported or whose
/// records carry missing or mistyped ids, naming it.
#[verifier::loop_isolation(false)]
pub fn build_hashmaps(db: &DatabaseIndex, schema: &StructureIndex) -> (r: Result<
    DatabaseHashmaps,
    BuildError,
>)
    ensures
        r is Ok <==> (forall|i: int|
            0 <= i < schema.objects@.len() ==> obj_ok(#[trigger] schema.objects@[i], db@)),
        r matches Ok(h) ==> h@.len() == schema.objects@.len() && forall|i: int|
            0 <= i < schema.objects@.len() ==> hm_entry_models(
                #[trigger] h@[i],
                schema.objects@[i],
                db@,
            ),
        r matches Err(e) ==> ({
            let b = first_bad_obj(schema.objects@, db@);
            let obj = schema.objects@[b];
            &&& 0 <= b < schema.objects@.len()
            &&& obj_indexed(obj, db@)
            &&& match e {
                BuildError::UnsupportedIdKind { object_name } => object_name@ == obj.name@
                    && !id_kind_supported(id_kind_of(obj)),
                BuildError::IdMismatch { object_name, position } => {
                    let records = db_records(db@, obj.name@);
                    &&& object_name@ == obj.name@
                    &&& id_kind_supported(id_kind_of(obj))
                    &&& (position as int) < records.len()
                    &&& id_fails_at(id_kind_of(obj), records, position as int)
                    &&& forall|j: int|
                        0 <= j < position as int ==> !id_fails_at(id_kind_of(obj), records, j)
                },
                BuildError::MissingQueryType => false,
            }
        }),
{
    let mut hashes: DatabaseHashmaps = Vec::new();
    let mut oi: usize = 0;
    while oi < schema.objects.len()
        invariant
            oi <= schema.objects.len(),
            hashes@.len() == oi as int,
            forall|i: int|
                0 <= i < oi as int ==> hm_entry_models(
                    #[trigger] hashes@[i],
                    schema.objects@[i],
                    db@,
                ),
            forall|i: int| 0 <= i < oi as int ==> obj_ok(#[trigger] schema.objects@[i], db@),
        decreases schema.objects.len() - oi,
    {
        let obj = &schema.objects[oi];
        let mut entry_val: Option<Vec<(String, FieldHashmaps)>> = None;
        match db_get(db, obj.name.as_str()) {
            None => {},
            Some(recs) => {
                match obj.find_field("id") {
                    None => {},
                    Some(f) => {
                        let fh: FieldHashmaps = match &f.data_type.kind {
                            StructureDataKind::Str => {
                                match subindex_keys_str(recs) {
                                    Ok(keys) => {
                                        let m = subindex_hashmaps_str(&keys);
                                        proof {
                                            assert(str_views(keys@) =~= ids_str_of(recs@));
                                        }
                                        FieldHashmaps::Str(m)
                                    },
                                    Err(p) => {
                                        proof {
                                            assert(db_records(db@, obj.name@) == recs@);
                                            assert(id_fails_at(
                                                id_kind_of(*obj),
                                                db_records(db@, obj.name@),
                                                p as int,
                                            ));
                                            assert(!obj_ok(schema.objects@[oi as int], db@));
                                            lemma_first_bad_obj_is(schema.objects@, db@, oi as int);
                                        }
                                        return Err(
                                            BuildError::IdMismatch {
                                                object_name: obj.name.clone(),
                                                position: p,
                                            },
                                        );
                                    },
                                }
                            },
                            StructureDataKind::I32 => {
                                match subindex_keys_i32(recs) {
                                    Ok(keys) => {
                                        let m = subindex_hashmaps_i32(&keys);
                                        proof {
                                            assert(keys@ =~= ids_i32_of(recs@));
                                        }
                                        FieldHashmaps::I32(m)
                                    },
                                    Err(p) => {
                                        proof {
                                            assert(db_records(db@, obj.name@) == recs@);
                                            assert(id_fails_at(
                                                id_kind_of(*obj),
                                                db_records(db@, obj.name@),
                                                p as int,
                                            ));
                                            assert(!obj_ok(schema.objects@[oi as int], db@));
                                            lemma_first_bad_obj_is(schema.objects@, db@, oi as int);
                                        }
                                        return Err(
                                            BuildError::IdMismatch {
                                                object_name: obj.name.clone(),
                                                position: p,
                                            },
                                        );
                                    },
                                }
                            },
                            StructureDataKind::U64 => {
                                match subindex_keys_u64(recs) {
                                    Ok(keys) => {
                                        let m = subindex_hashmaps_u64(&keys);
                                        proof {
                                            assert(keys@ =~= ids_u64_of(recs@));
                                        }
                                        FieldHashmaps::U64(m)
                                    },
                                    Err(p) => {
                                        proof {
                                            assert(db_records(db@, obj.name@) == recs@);
                                            assert(id_fails_at(
                                                id_kind_of(*obj),
                                                db_records(db@, obj.name@),
                                                p as int,
                                            ));
                                            assert(!obj_ok(schema.objects@[oi as int], db@));
                                            lemma_first_bad_obj_is(schema.objects@, db@, oi as int);
                                        }
                                        return Err(
                                            BuildError::IdMismatch {
                                                object_name: obj.name.clone(),
                                                position: p,
                                            },
                                        );
                                    },
                                }
                            },
                            _ => {
                                proof {
                                    assert(!id_kind_supported(id_kind_of(*obj)));
                                    assert(!obj_ok(schema.objects@[oi as int], db@));
                                    lemma_first_bad_obj_is(schema.objects@, db@, oi as int);
                                }
                                return Err(
                                    BuildError::UnsupportedIdKind { object_name: obj.name.clone() },
                                );
                            },
                        };
                        let mut inner: Vec<(String, FieldHashmaps)> = Vec::new();
                        inner.push(("id".to_owned(), fh));
                        entry_val = Some(inner);
                    },
                }
            },
        }
        hashes.push((obj.name.clone(), entry_val));
        oi = oi + 1;
    }
    proof {
        lemma_first_bad_obj_is(schema.objects@, db@, schema.objects@.len() as int);
    }
    Ok(hashes)
}

/// The positions stored under string key `k`, if any.
pub fn lookup_subindex_str<'a>(m: &'a Vec<(String, Vec<usize>)>, k: &str) -> (r: Option<
    &'a Vec<usize>,
>)
    ensures
        ({
            let fi = find_idx(m@, k@, |e: (String, Vec<usize>)| e.0@);
            &&& fi < m@.len() ==> (r matches Some(ps) && *ps == m@[fi].1)
            &&& fi >= m@.len() ==> r is None
        }),
{
    let j = find_str_entry(m, k);
    if j < m.len() {
        Some(&m[j].1)
    } else {
        None
    }
}

/// The positions stored under 32-bit key `k`, if any.
pub fn lookup_subindex_i32<'a>(m: &'a Vec<(i32, Vec<usize>)>, k: i32) -> (r: Option<
    &'a Vec<usize>,
>)
    ensures
        ({
            let fi = find_idx(m@, k, |e: (i32, Vec<usize>)| e.0);
            &&& fi < m@.len() ==> (r matches Some(ps) && *ps == m@[fi].1)
            &&& fi >= m@.len() ==> r is None
        }),
{
    let j = find_i32_entry(m, k);
    if j < m.len() {
        Some(&m[j].1)
    } else {
        None
    }
}

/// The positions stored under unsigned 64-bit key `k`, if any.
pub fn lookup_subindex_u64<'a>(m: &'a Vec<(u64, Vec<usize>)>, k: u64) -> (r: Option<
    &'a Vec<usize>,
>)
    ensures
        ({
            let fi = find_idx(m@, k, |e: (u64, Vec<usize>)| e.0);
            &&& fi < m@.len() ==> (r matches Some(ps) && *ps == m@[fi].1)
            &&& fi >= m@.len() ==> r is None
        }),
{
    let j = find_u64_entry(m, k);
    if j < m.len() {
        Some(&m[j].1)
    } else {
        None
    }
}

/// The identity-index entry for a type name, if any.
#[verifier::loop_isolation(false)]
pub fn hashmaps_get<'a>(h: &'a DatabaseHashmaps, name: &str) -> (r: Option<
    &'a Option<Vec<(String, FieldHashmaps)>>,
>)
    ensures
        ({
            let fi = find_idx(
                h@,
                name@,
                |e: (String, Option<Vec<(String, FieldHashmaps)>>)| e.0@,
            );
            &&& fi < h@.len() ==> (r matches Some(o) && *o == h@[fi].1)
            &&& fi >= h@.len() ==> r is None
        }),
{
    let mut j: usize = 0;
    while j < h.len()
        invariant
            j <= h.len(),
            forall|t: int| 0 <= t < j as int ==> #[trigger] h@[t].0@ != name@,
        decreases h.len() - j,
    {
        if streq(h[j].0.as_str(), name) {
            proof {
                lemma_find_idx_is_first(
                    h@,
                    name@,
                    |e: (String, Option<Vec<(String, FieldHashmaps)>>)| e.0@,
                    j as int,
                );
            }
            return Some(&h[j].1);
        }
        j = j + 1;
    }
    proof {
        lemma_find_idx_is_first(
            h@,
            name@,
            |e: (String, Option<Vec<(String, FieldHashmaps)>>)| e.0@,
            h@.len() as int,
        );
    }
    None
}

/// The index stored for field `name` inside one type's entry, if any.
#[verifier::loop_isolation(false)]
pub fn field_index_get<'a>(inner: &'a Vec<(String, FieldHashmaps)>, name: &str) -> (r: Option<
    &'a FieldHashmaps,
>)
    ensures
        ({
            let fi = find_idx(inner@, name@, |e: (String, FieldHashmaps)| e.0@);
            &&& fi < inner@.len() ==> (r matches Some(fh) && *fh == inner@[fi].1)
            &&& fi >= inner@.len() ==> r is None
        }),
{
    let mut j: usize = 0;
    while j < inner.len()
        invariant
            j <= inner.len(),
            forall|t: int| 0 <= t < j as int ==> #[trigger] inner@[t].0@ != name@,
        decreases inner.len() - j,
    {
        if streq(inner[j].0.as_str(), name) {
            proof {
                lemma_find_idx_is_first(
                    inner@,
                    name@,
                    |e: (String, FieldHashmaps)| e.0@,
                    j as int,
                );
            }
            return Some(&inner[j].1);
        }
        j = j + 1;
    }
    proof {
        lemma_find_idx_is_first(
            inner@,
            name@,
            |e: (String, FieldHashmaps)| e.0@,
            inner@.len() as int,
        );
    }
    None
}

} // verus!
