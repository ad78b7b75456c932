//! The tree-structured record value: null, booleans, numbers, strings,
//! arrays and keyed objects, together with its mathematical model.

use vstd::prelude::*;

use crate::text::streq;

verus! {

/// An opaque tree-structured record value. Numbers keep their source
/// representation: signed, unsigned, or a floating-point bit pattern
/// (the engine never computes with floats, it only stores them).
#[derive(Debug)]
pub enum Value {
    Null,
    Bool(bool),
    Int(i64),
    UInt(u64),
    FloatBits(u64),
    Str(String),
    Array(Vec<Value>),
    Object(Vec<(String, Value)>),
}

/// The mathematical model of a `Value`: the same tree over `Seq`.
#[verifier::ext_equal]
pub enum SpecValue {
    Null,
    Bool(bool),
    Int(i64),
    UInt(u64),
    FloatBits(u64),
    Str(Seq<char>),
    Array(Seq<SpecValue>),
    Object(Seq<(Seq<char>, SpecValue)>),
}

/// The model of one record value.
pub open spec fn vview(v: Value) -> SpecValue
    decreases v,
{
    match v {
        Value::Null => SpecValue::Null,
        Value::Bool(b) => SpecValue::Bool(b),
        Value::Int(i) => SpecValue::Int(i),
        Value::UInt(u) => SpecValue::UInt(u),
        Value::FloatBits(u) => SpecValue::FloatBits(u),
        Value::Str(s) => SpecValue::Str(s@),
        Value::Array(a) => SpecValue::Array(vview_seq(a@)),
        Value::Object(o) => SpecValue::Object(vview_entries(o@)),
    }
}

/// The models of the elements of an array, in order.
pub open spec fn vview_seq(s: Seq<Value>) -> Seq<SpecValue>
    decreases s,
{
    if s.len() <= 0 {
        Seq::<SpecValue>::empty()
    } else {
        seq![vview(s[0])] + vview_seq(s.subrange(1, s.len() as int))
    }
}

/// The models of the key/value entries of an object, in order.
pub open spec fn vview_entries(s: Seq<(String, Value)>) -> Seq<(Seq<char>, SpecValue)>
    decreases s,
{
    if s.len() <= 0 {
        Seq::<(Seq<char>, SpecValue)>::empty()
    } else {
        seq![(s[0].0@, vview(s[0].1))] + vview_entries(s.subrange(1, s.len() as int))
    }
}

impl DeepView for Value {
    type V = SpecValue;

    open spec fn deep_view(&self) -> SpecValue {
        vview(*self)
    }
}

/// Each element of an array contributes its model at its own position.
pub proof fn lemma_vview_seq_index(s: Seq<Value>, i: int)
    requires
        0 <= i < s.len(),
    ensures
        vview_seq(s).len() == s.len(),
        vview_seq(s)[i] == vview(s[i]),
    decreases s,
{
    lemma_vview_seq_len(s);
    if i > 0 {
        lemma_vview_seq_index(s.subrange(1, s.len() as int), i - 1);
    }
}

/// An array's model has one element per source element.
pub proof fn lemma_vview_seq_len(s: Seq<Value>)
    ensures
        vview_seq(s).len() == s.len(),
    decreases s,
{
    if s.len() > 0 {
        lemma_vview_seq_len(s.subrange(1, s.len() as int));
    }
}

/// Each entry of an object contributes its model at its own position.
pub proof fn lemma_vview_entries_index(s: Seq<(String, Value)>, i: int)
    requires
        0 <= i < s.len(),
    ensures
        vview_entries(s).len() == s.len(),
        vview_entries(s)[i] == (s[i].0@, vview(s[i].1)),
    decreases s,
{
    lemma_vview_entries_len(s);
    if i > 0 {
        lemma_vview_entries_index(s.subrange(1, s.len() as int), i - 1);
    }
}

/// An object's model has one entry per source entry.
pub proof fn lemma_vview_entries_len(s: Seq<(String, Value)>)
    ensures
        vview_entries(s).len() == s.len(),
    decreases s,
{
    if s.len() > 0 {
        lemma_vview_entries_len(s.subrange(1, s.len() as int));
    }
}

impl Clone for Value {
    /// A deep copy: the copy has the same model as the source value.
    #[verifier::loop_isolation(false)]
    fn clone(&self) -> (r: Value)
        ensures
            r.deep_view() == self.deep_view(),
        decreases *self,
    {
        match self {
            Value::Null => Value::Null,
            Value::Bool(b) => Value::Bool(*b),
            Value::Int(i) => Value::Int(*i),
            Value::UInt(u) => Value::UInt(*u),
            Value::FloatBits(u) => Value::FloatBits(*u),
            Value::Str(s) => Value::Str(s.clone()),
            Value::Array(a) => {
                let mut out: Vec<Value> = Vec::new();
                let mut i: usize = 0;
                while i < a.len()
                    invariant
                        i <= a.len(),
                        out@.len() == i as int,
                        forall|j: int|
                            0 <= j < i as int ==> #[trigger] vview(out@[j]) == vview(a@[j]),
                    decreases a.len() - i,
                {
                    proof {
                        let sv = *self;
                        assert(decreases_to!(sv => sv->Array_0));
                        assert(*a == sv->Array_0);
                        assert(decreases_to!(*a => a@));
                        assert(decreases_to!(a@ => a@[i as int]));
                    }
                    out.push(a[i].clone());
                    i = i + 1;
                }
                let r = Value::Array(out);
                proof {
                    lemma_vview_seq_eq_pointwise(out@, a@);
                }
                r
            },
            Value::Object(o) => {
                let mut out: Vec<(String, Value)> = Vec::new();
                let mut i: usize = 0;
                while i < o.len()
                    invariant
                        i <= o.len(),
                        out@.len() == i as int,
                        forall|j: int|
                            0 <= j < i as int ==> #[trigger] vview(out@[j].1) == vview(o@[j].1)
                                && out@[j].0@ == o@[j].0@,
                    decreases o.len() - i,
                {
                    proof {
                        let sv = *self;
                        assert(decreases_to!(sv => sv->Object_0));
                        assert(*o == sv->Object_0);
                        assert(decreases_to!(*o => o@));
                        assert(decreases_to!(o@ => o@[i as int]));
                        assert(decreases_to!(o@[i as int] => o@[i as int].1));
                    }
                    let (k, v) = &o[i];
                    out.push((k.clone(), v.clone()));
                    i = i + 1;
                }
                let r = Value::Object(out);
                proof {
                    lemma_vview_entries_eq_pointwise(out@, o@);
                }
                r
            },
        }
    }
}

/// The value stored under `key` in an object's entries, first match;
/// `Null` when the key is absent.
pub open spec fn spec_prop_entries(entries: Seq<(Seq<char>, SpecValue)>, key: Seq<char>) -> SpecValue
    decreases entries.len(),
{
    if entries.len() <= 0 {
        SpecValue::Null
    } else if entries[0].0 == key {
        entries[0].1
    } else {
        spec_prop_entries(entries.subrange(1, entries.len() as int), key)
    }
}

/// Property lookup on a value: objects yield the entry stored under `key`
/// (or `Null`), anything else yields `Null`.
pub open spec fn spec_prop(v: SpecValue, key: Seq<char>) -> SpecValue {
    match v {
        SpecValue::Object(entries) => spec_prop_entries(entries, key),
        _ => SpecValue::Null,
    }
}

/// A scan of an object's entries that rejects everything before `i` and
/// accepts at `i` has found the property's first entry.
pub proof fn lemma_spec_prop_entries_first(
    entries: Seq<(Seq<char>, SpecValue)>,
    key: Seq<char>,
    i: int,
)
    requires
        0 <= i <= entries.len(),
        forall|j: int| 0 <= j < i ==> (#[trigger] entries[j]).0 != key,
        i < entries.len() ==> entries[i].0 == key,
    ensures
        spec_prop_entries(entries, key) == if i < entries.len() {
            entries[i].1
        } else {
            SpecValue::Null
        },
    decreases i,
{
    if i > 0 {
        let t = entries.subrange(1, entries.len() as int);
        assert(forall|j: int| 1 <= j < entries.len() ==> #[trigger] entries[j] == t[j - 1]);
        assert(forall|j: int| 0 <= j < t.len() ==> #[trigger] t[j] == entries[j + 1]);
        lemma_spec_prop_entries_first(t, key, i - 1);
    }
}

/// Property lookup, executably: `Some` of a reference to the first entry
/// under `key`, or `None` when the lookup would model to `Null` because the
/// key is missing or the value is not an object.
#[verifier::loop_isolation(false)]
pub fn prop_of<'a>(v: &'a Value, key: &str) -> (r: Option<&'a Value>)
    ensures
        match r {
            Some(x) => vview(*x) == spec_prop(vview(*v), key@),
            None => spec_prop(vview(*v), key@) == SpecValue::Null,
        },
{
    match v {
        Value::Object(entries) => {
            proof {
                lemma_vview_entries_len(entries@);
            }
            let mut i: usize = 0;
            while i < entries.len()
                invariant
                    i <= entries.len(),
                    forall|j: int| 0 <= j < i as int ==> #[trigger] entries@[j].0@ != key@,
                decreases entries.len() - i,
            {
                if streq(entries[i].0.as_str(), key) {
                    proof {
                        let m = vview_entries(entries@);
                        assert forall|j: int| 0 <= j < i as int implies (#[trigger] m[j]).0
                            != key@ by {
                            lemma_vview_entries_index(entries@, j);
                        }
                        lemma_vview_entries_index(entries@, i as int);
                        lemma_spec_prop_entries_first(m, key@, i as int);
                    }
                    return Some(&entries[i].1);
                }
                i = i + 1;
            }
            proof {
                let m = vview_entries(entries@);
                assert forall|j: int| 0 <= j < entries@.len() implies (#[trigger] m[j]).0
                    != key@ by {
                    lemma_vview_entries_index(entries@, j);
                }
                lemma_spec_prop_entries_first(m, key@, entries@.len() as int);
            }
            None
        },
        _ => None,
    }
}

/// The signed reading of a numeric value: signed numbers directly, unsigned
/// numbers that fit, nothing else.
pub open spec fn spec_as_i64(v: SpecValue) -> Option<i64> {
    match v {
        SpecValue::Int(i) => Some(i),
        SpecValue::UInt(u) => if u <= i64::MAX as u64 {
            Some(u as i64)
        } else {
            Option::None
        },
        _ => Option::None,
    }
}

/// The unsigned reading of a numeric value: unsigned numbers directly,
/// non-negative signed numbers, nothing else.
pub open spec fn spec_as_u64(v: SpecValue) -> Option<u64> {
    match v {
        SpecValue::UInt(u) => Some(u),
        SpecValue::Int(i) => if i >= 0 {
            Some(i as u64)
        } else {
            Option::None
        },
        _ => Option::None,
    }
}

impl Value {
    /// The signed reading of this value, as `spec_as_i64` states it.
    pub fn as_i64(&self) -> (r: Option<i64>)
        ensures
            r == spec_as_i64(vview(*self)),
    {
        match self {
            Value::Int(i) => Some(*i),
            Value::UInt(u) => if *u <= i64::MAX as u64 {
                Some(*u as i64)
            } else {
                None
            },
            _ => None,
        }
    }

    /// The unsigned reading of this value, as `spec_as_u64` states it.
    pub fn as_u64(&self) -> (r: Option<u64>)
        ensures
            r == spec_as_u64(vview(*self)),
    {
        match self {
            Value::UInt(u) => Some(*u),
            Value::Int(i) => if *i >= 0 {
                Some(*i as u64)
            } else {
                None
            },
            _ => None,
        }
    }

    /// The string carried by this value, if it is a string.
    pub fn str_of(&self) -> (r: Option<&String>)
        ensures
            match r {
                Some(s) => vview(*self) == SpecValue::Str(s@),
                None => !(vview(*self) is Str),
            },
    {
        match self {
            Value::Str(s) => Some(s),
            _ => None,
        }
    }
}

/// Appending an element appends its model.
pub proof fn lemma_vview_seq_push(s: Seq<Value>, x: Value)
    ensures
        vview_seq(s.push(x)) == vview_seq(s).push(vview(x)),
    decreases s.len(),
{
    if s.len() == 0 {
        assert(s.push(x)[0] == x);
        assert(s.push(x).subrange(1, 1) =~= Seq::<Value>::empty());
        assert(vview_seq(s.push(x).subrange(1, 1)) =~= Seq::<SpecValue>::empty());
        assert(vview_seq(s.push(x)) =~= vview_seq(s).push(vview(x)));
    } else {
        let t = s.subrange(1, s.len() as int);
        assert(s.push(x)[0] == s[0]);
        assert(s.push(x).subrange(1, s.len() as int + 1) =~= t.push(x));
        lemma_vview_seq_push(t, x);
        lemma_vview_seq_len(s);
        lemma_vview_seq_len(t);
        assert(vview_seq(s) == seq![vview(s[0])] + vview_seq(t));
        assert(vview_seq(s.push(x)) == seq![vview(s[0])] + vview_seq(t).push(vview(x)));
        assert(vview_seq(s.push(x)) =~= vview_seq(s).push(vview(x)));
    }
}

/// Appending an entry appends its model.
pub proof fn lemma_vview_entries_push(s: Seq<(String, Value)>, x: (String, Value))
    ensures
        vview_entries(s.push(x)) == vview_entries(s).push((x.0@, vview(x.1))),
    decreases s.len(),
{
    if s.len() == 0 {
        assert(s.push(x)[0] == x);
        assert(s.push(x).subrange(1, 1) =~= Seq::<(String, Value)>::empty());
        assert(vview_entries(s.push(x).subrange(1, 1)) =~= Seq::<(Seq<char>, SpecValue)>::empty());
        assert(vview_entries(s.push(x)) =~= vview_entries(s).push((x.0@, vview(x.1))));
    } else {
        let t = s.subrange(1, s.len() as int);
        assert(s.push(x)[0] == s[0]);
        assert(s.push(x).subrange(1, s.len() as int + 1) =~= t.push(x));
        lemma_vview_entries_push(t, x);
        lemma_vview_entries_len(s);
        lemma_vview_entries_len(t);
        assert(vview_entries(s) == seq![(s[0].0@, vview(s[0].1))] + vview_entries(t));
        assert(vview_entries(s.push(x)) == seq![(s[0].0@, vview(s[0].1))] + vview_entries(
            t,
        ).push((x.0@, vview(x.1))));
        assert(vview_entries(s.push(x)) =~= vview_entries(s).push((x.0@, vview(x.1))));
    }
}

/// An array models exactly the sequence its elements model to, pointwise.
pub proof fn lemma_vview_seq_models(a: Seq<Value>, m: Seq<SpecValue>)
    requires
        a.len() == m.len(),
        forall|j: int| 0 <= j < a.len() ==> #[trigger] vview(a[j]) == m[j],
    ensures
        vview_seq(a) == m,
    decreases a.len(),
{
    if a.len() > 0 {
        let at = a.subrange(1, a.len() as int);
        let mt = m.subrange(1, m.len() as int);
        assert(forall|j: int| 0 <= j < at.len() ==> #[trigger] at[j] == a[j + 1]);
        lemma_vview_seq_models(at, mt);
        lemma_vview_seq_len(a);
        assert(vview_seq(a) == seq![vview(a[0])] + vview_seq(at));
        assert(vview_seq(a) =~= m);
    } else {
        assert(vview_seq(a) =~= m);
    }
}

/// An object models exactly the entry sequence its entries model to,
/// pointwise.
pub proof fn lemma_vview_entries_models(o: Seq<(String, Value)>, m: Seq<(Seq<char>, SpecValue)>)
    requires
        o.len() == m.len(),
        forall|j: int|
            0 <= j < o.len() ==> (#[trigger] o[j]).0@ == m[j].0 && vview(o[j].1) == m[j].1,
    ensures
        vview_entries(o) == m,
    decreases o.len(),
{
    if o.len() > 0 {
        let ot = o.subrange(1, o.len() as int);
        let mt = m.subrange(1, m.len() as int);
        assert(forall|j: int| 0 <= j < ot.len() ==> #[trigger] ot[j] == o[j + 1]);
        lemma_vview_entries_models(ot, mt);
        lemma_vview_entries_len(o);
        assert(vview_entries(o) == seq![(o[0].0@, vview(o[0].1))] + vview_entries(ot));
        assert(vview_entries(o) =~= m);
    } else {
        assert(vview_entries(o) =~= m);
    }
}

/// Arrays equal element-model by element-model have the same model.
pub proof fn lemma_vview_seq_eq_pointwise(a: Seq<Value>, b: Seq<Value>)
    requires
        a.len() == b.len(),
        forall|j: int| 0 <= j < a.len() ==> #[trigger] vview(a[j]) == vview(b[j]),
    ensures
        vview_seq(a) == vview_seq(b),
    decreases a,
{
    if a.len() > 0 {
        let at = a.subrange(1, a.len() as int);
        let bt = b.subrange(1, b.len() as int);
        assert(forall|j: int| 0 <= j < at.len() ==> #[trigger] at[j] == a[j + 1]);
        assert(forall|j: int| 0 <= j < bt.len() ==> #[trigger] bt[j] == b[j + 1]);
        lemma_vview_seq_eq_pointwise(at, bt);
        assert(vview(a[0]) == vview(b[0]));
        assert(vview_seq(a) =~= vview_seq(b));
    } else {
        assert(vview_seq(a) =~= vview_seq(b));
    }
}

/// Objects equal entry-model by entry-model have the same model.
pub proof fn lemma_vview_entries_eq_pointwise(a: Seq<(String, Value)>, b: Seq<(String, Value)>)
    requires
        a.len() == b.len(),
        forall|j: int|
            0 <= j < a.len() ==> #[trigger] vview(a[j].1) == vview(b[j].1) && a[j].0@ == b[j].0@,
    ensures
        vview_entries(a) == vview_entries(b),
    decreases a,
{
    if a.len() > 0 {
        let at = a.subrange(1, a.len() as int);
        let bt = b.subrange(1, b.len() as int);
        assert(forall|j: int| 0 <= j < at.len() ==> #[trigger] at[j] == a[j + 1]);
        assert(forall|j: int| 0 <= j < bt.len() ==> #[trigger] bt[j] == b[j + 1]);
        lemma_vview_entries_eq_pointwise(at, bt);
        assert(vview(a[0].1) == vview(b[0].1));
        assert(vview_entries(a) =~= vview_entries(b));
    } else {
        assert(vview_entries(a) =~= vview_entries(b));
    }
}

} // verus!
