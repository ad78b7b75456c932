//! The record store and the query engine built over it: one immutable
//! `QueryParser` per dataset, and the recursive selection traversal.

use vstd::prelude::*;

use crate::search::{find_idx, lemma_find_idx, lemma_find_idx_append_absent, lemma_find_idx_is_first, lemma_find_idx_keys_eq, lemma_find_idx_push};
use crate::text::streq;
use crate::structure::StructureIndex;
use crate::value::{spec_as_i64, spec_as_u64, vview, SpecValue, Value};

verus! {

/// The record store: type name to the ordered records of that type.
pub type DatabaseIndex = Vec<(String, Vec<Value>)>;

/// Position of the first store entry named `name`, or `db.len()`.
pub open spec fn db_idx(db: Seq<(String, Vec<Value>)>, name: Seq<char>) -> int {
    find_idx(db, name, |e: (String, Vec<Value>)| e.0@)
}

pub open spec fn db_has(db: Seq<(String, Vec<Value>)>, name: Seq<char>) -> bool {
    db_idx(db, name) < db.len()
}

/// The records stored under `name` (meaningful when `db_has`).
pub open spec fn db_records(db: Seq<(String, Vec<Value>)>, name: Seq<char>) -> Seq<Value> {
    db[db_idx(db, name)].1@
}

/// The records stored under `name`, if any.
#[verifier::loop_isolation(false)]
pub fn db_get<'a>(db: &'a DatabaseIndex, name: &str) -> (r: Option<&'a Vec<Value>>)
    ensures
        db_has(db@, name@) ==> (r matches Some(v) && *v == db@[db_idx(db@, name@)].1),
        !db_has(db@, name@) ==> r is None,
{
    let mut i: usize = 0;
    while i < db.len()
        invariant
            i <= db.len(),
            forall|j: int| 0 <= j < i as int ==> #[trigger] db@[j].0@ != name@,
        decreases db.len() - i,
    {
        if streq(db[i].0.as_str(), name) {
            proof {
                lemma_find_idx_is_first(db@, name@, |e: (String, Vec<Value>)| e.0@, i as int);
            }
            return Some(&db[i].1);
        }
        i = i + 1;
    }
    proof {
        lemma_find_idx_is_first(db@, name@, |e: (String, Vec<Value>)| e.0@, db@.len() as int);
    }
    None
}

/// Whether the store has an entry named `name`.
pub fn db_contains(db: &DatabaseIndex, name: &str) -> (r: bool)
    ensures
        r == db_has(db@, name@),
{
    match db_get(db, name) {
        Some(_) => true,
        None => false,
    }
}

/// Store `records` under `name`: replace the first entry of that name, or
/// append a new one.
#[verifier::loop_isolation(false)]
pub fn db_insert(db: &mut DatabaseIndex, name: String, records: Vec<Value>)
    ensures
        db_has(old(db)@, name@) ==> final(db)@ == old(db)@.update(
            db_idx(old(db)@, name@),
            (name, records),
        ),
        !db_has(old(db)@, name@) ==> final(db)@ == old(db)@.push((name, records)),
{
    let mut i: usize = 0;
    while i < db.len()
        invariant
            i <= db.len(),
            *db == *old(db),
            forall|j: int| 0 <= j < i as int ==> #[trigger] db@[j].0@ != name@,
        decreases db.len() - i,
    {
        if streq(db[i].0.as_str(), name.as_str()) {
            proof {
                lemma_find_idx_is_first(db@, name@, |e: (String, Vec<Value>)| e.0@, i as int);
            }
            let _ = db.remove(i);
            db.insert(i, (name, records));
            proof {
                assert(db@ =~= old(db)@.update(i as int, (name, records)));
            }
            return ;
        }
        i = i + 1;
    }
    proof {
        lemma_find_idx_is_first(db@, name@, |e: (String, Vec<Value>)| e.0@, db@.len() as int);
    }
    db.push((name, records));
}

} // verus!

verus! {

/// A parsed query document.
#[derive(Debug)]
pub struct Document {
    pub definitions: Vec<Definition>,
}

/// One definition of a query document.
#[derive(Debug)]
pub enum Definition {
    Operation(OperationDefinition),
    Fragment(FragmentDefinition),
}

/// One operation: a bare selection set defaults to a query.
#[derive(Debug)]
pub enum OperationDefinition {
    Query(SelectionSet),
    SelectionSet(SelectionSet),
    Mutation(SelectionSet),
    Subscription(SelectionSet),
}

/// A named fragment with its type condition and body.
#[derive(Debug)]
pub struct FragmentDefinition {
    pub name: String,
    pub type_condition: String,
    pub selection_set: SelectionSet,
}

/// The fields and fragment spreads requested at one level.
#[derive(Debug)]
pub struct SelectionSet {
    pub items: Vec<Selection>,
}

/// One requested item.
#[derive(Debug)]
pub enum Selection {
    Field(Field),
    FragmentSpread(FragmentSpread),
    InlineFragment(SelectionSet),
}

/// One requested field, under its optional alias.
#[derive(Debug)]
pub struct Field {
    pub alias: Option<String>,
    pub name: String,
    pub arguments: Vec<(String, Value)>,
    pub selection_set: SelectionSet,
}

/// A spread of a named fragment.
#[derive(Debug)]
pub struct FragmentSpread {
    pub fragment_name: String,
}

/// One dataset's compiled state: catalog, record store and identity
/// index, immutable after load.
pub struct QueryParser {
    pub schema: crate::structure::StructureIndex,
    pub database: DatabaseIndex,
    pub hashmaps: crate::indexing::DatabaseHashmaps,
    pub is_canonical: bool,
}

impl QueryParser {
    /// Well-formedness: the three root types each hold at least one
    /// record, so every operation has a root record to start from.
    pub open spec fn wf(self) -> bool {
        &&& db_has(self.database@, "Query"@) && db_records(self.database@, "Query"@).len() > 0
        &&& db_has(self.database@, "Mutation"@) && db_records(self.database@, "Mutation"@).len()
            > 0
        &&& db_has(self.database@, "Subscription"@) && db_records(
            self.database@,
            "Subscription"@,
        ).len() > 0
    }
}

} // verus!

verus! {

/// The five built-in scalar type names: references to them resolve to the
/// value itself.
pub open spec fn is_builtin_scalar(n: Seq<char>) -> bool {
    n == "String"@ || n == "ID"@ || n == "Float"@ || n == "Int"@ || n == "Boolean"@
}

/// Built-in scalar test, executably.
pub fn is_builtin_scalar_name(n: &str) -> (r: bool)
    ensures
        r == is_builtin_scalar(n@),
{
    streq(n, "String") || streq(n, "ID") || streq(n, "Float") || streq(n, "Int") || streq(
        n,
        "Boolean",
    )
}

/// Identity-index lookup of one id value against the typed index of the
/// target's store: the first position's record, or null when the id is
/// absent, mistyped against the index's key kind, or the index carries no
/// usable entry.
pub open spec fn spec_resolve_positions(
    p: QueryParser,
    x: SpecValue,
    cls: Seq<char>,
    fh: crate::indexing::FieldHashmaps,
) -> SpecValue {
    let records = db_records(p.database@, cls);
    match fh {
        crate::indexing::FieldHashmaps::Str(m) => match x {
            SpecValue::Str(s) => {
                let ki = find_idx(m@, s, |e: (String, Vec<usize>)| e.0@);
                if ki < m@.len() {
                    let ps = m@[ki].1@;
                    if ps.len() > 0 && (ps[0] as int) < records.len() {
                        vview(records[ps[0] as int])
                    } else {
                        SpecValue::Null
                    }
                } else {
                    SpecValue::Null
                }
            },
            _ => SpecValue::Null,
        },
        crate::indexing::FieldHashmaps::I32(m) => match spec_as_i64(x) {
            Some(n) => if i32::MIN as i64 <= n <= i32::MAX as i64 {
                let ki = find_idx(m@, n as i32, |e: (i32, Vec<usize>)| e.0);
                if ki < m@.len() {
                    let ps = m@[ki].1@;
                    if ps.len() > 0 && (ps[0] as int) < records.len() {
                        vview(records[ps[0] as int])
                    } else {
                        SpecValue::Null
                    }
                } else {
                    SpecValue::Null
                }
            } else {
                SpecValue::Null
            },
            Option::None => SpecValue::Null,
        },
        crate::indexing::FieldHashmaps::U64(m) => match spec_as_u64(x) {
            Some(n) => {
                let ki = find_idx(m@, n, |e: (u64, Vec<usize>)| e.0);
                if ki < m@.len() {
                    let ps = m@[ki].1@;
                    if ps.len() > 0 && (ps[0] as int) < records.len() {
                        vview(records[ps[0] as int])
                    } else {
                        SpecValue::Null
                    }
                } else {
                    SpecValue::Null
                }
            },
            Option::None => SpecValue::Null,
        },
        crate::indexing::FieldHashmaps::Null => SpecValue::Null,
    }
}

/// One non-array, non-null value resolved against a store type that is
/// present: follow the type's identity index, or null when it has none.
pub open spec fn spec_resolve_single(p: QueryParser, x: SpecValue, cls: Seq<char>) -> SpecValue {
    let hmi = find_idx(
        p.hashmaps@,
        cls,
        |e: (String, Option<Vec<(String, crate::indexing::FieldHashmaps)>>)| e.0@,
    );
    if hmi >= p.hashmaps@.len() {
        SpecValue::Null
    } else {
        match p.hashmaps@[hmi].1 {
            Option::None => SpecValue::Null,
            Some(inner) => {
                let fii = find_idx(inner@, "id"@, |e: (String, crate::indexing::FieldHashmaps)| e.0@);
                if fii >= inner@.len() {
                    SpecValue::Null
                } else {
                    spec_resolve_positions(p, x, cls, inner@[fii].1)
                }
            },
        }
    }
}

/// Reference expansion. Arrays resolve element-wise, dropping elements
/// that resolve to null; null stays null; a built-in scalar target
/// returns the value verbatim; a target type absent from the store
/// returns the value verbatim; otherwise the value is an id looked up in
/// the target's identity index, and a failed lookup is null.
pub open spec fn spec_resolve_id(p: QueryParser, id: SpecValue, cls: Seq<char>) -> SpecValue
    decreases id,
{
    match id {
        SpecValue::Array(arr) => SpecValue::Array(spec_resolve_id_elems(p, arr, cls)),
        SpecValue::Null => SpecValue::Null,
        x => {
            if is_builtin_scalar(cls) {
                x
            } else if !db_has(p.database@, cls) {
                x
            } else {
                spec_resolve_single(p, x, cls)
            }
        },
    }
}

/// Element-wise reference expansion: null elements and elements that
/// resolve to null are omitted; the rest keep their order.
pub open spec fn spec_resolve_id_elems(p: QueryParser, arr: Seq<SpecValue>, cls: Seq<char>) -> Seq<
    SpecValue,
>
    decreases arr,
{
    if arr.len() <= 0 {
        Seq::empty()
    } else {
        let rest = spec_resolve_id_elems(p, arr.subrange(1, arr.len() as int), cls);
        if arr[0] is Null {
            rest
        } else {
            let y = spec_resolve_id(p, arr[0], cls);
            if y is Null {
                rest
            } else {
                seq![y] + rest
            }
        }
    }
}

impl QueryParser {
    /// Expand an id (or id array) into full record(s) by identity lookup,
    /// as `spec_resolve_id` states it.
    #[verifier::loop_isolation(false)]
    pub fn resolve_id_to_object(&self, id: &Value, class_name: &String) -> (r: Value)
        ensures
            vview(r) == spec_resolve_id(*self, vview(*id), class_name@),
        decreases *id,
    {
        match id {
            Value::Array(arr) => {
                let ghost model = crate::value::vview_seq(arr@);
                proof {
                    crate::value::lemma_vview_seq_len(arr@);
                }
                let mut out: Vec<Value> = Vec::new();
                let mut i: usize = 0;
                proof {
                    assert(model.skip(0) =~= model);
                    assert(crate::value::vview_seq(out@) =~= Seq::<SpecValue>::empty());
                    assert(Seq::<SpecValue>::empty() + spec_resolve_id_elems(
                        *self,
                        model,
                        class_name@,
                    ) =~= spec_resolve_id_elems(*self, model, class_name@));
                }
                while i < arr.len()
                    invariant
                        i <= arr.len(),
                        spec_resolve_id_elems(*self, model, class_name@) == crate::value::vview_seq(
                            out@,
                        ) + spec_resolve_id_elems(*self, model.skip(i as int), class_name@),
                    decreases arr.len() - i,
                {
                    proof {
                        let sv = *id;
                        assert(decreases_to!(sv => sv->Array_0));
                        assert(*arr == sv->Array_0);
                        assert(decreases_to!(*arr => arr@));
                        assert(decreases_to!(arr@ => arr@[i as int]));
                        crate::value::lemma_vview_seq_index(arr@, i as int);
                        assert(model.skip(i as int).subrange(1, model.skip(i as int).len() as int)
                            =~= model.skip(i as int + 1));
                        assert(model.skip(i as int)[0] == model[i as int]);
                    }
                    let x = &arr[i];
                    let skip_it = match x {
                        Value::Null => true,
                        _ => false,
                    };
                    if !skip_it {
                        let y = self.resolve_id_to_object(x, class_name);
                        let keep = match &y {
                            Value::Null => false,
                            _ => true,
                        };
                        if keep {
                            let ghost prev = out@;
                            out.push(y);
                            proof {
                                crate::value::lemma_vview_seq_push(prev, out@[out@.len() - 1]);
                                assert(crate::value::vview_seq(out@) + spec_resolve_id_elems(
                                    *self,
                                    model.skip(i as int + 1),
                                    class_name@,
                                ) =~= crate::value::vview_seq(prev) + (seq![
                                    spec_resolve_id(*self, model[i as int], class_name@),
                                ] + spec_resolve_id_elems(
                                    *self,
                                    model.skip(i as int + 1),
                                    class_name@,
                                )));
                            }
                        }
                    }
                    i = i + 1;
                }
                proof {
                    assert(model.skip(arr@.len() as int) =~= Seq::<SpecValue>::empty());
                }
                let ghost gout = out@;
                let r = Value::Array(out);
                proof {
                    assert(crate::value::vview_seq(gout) + Seq::<SpecValue>::empty() =~= crate::value::vview_seq(gout));
                }
                r
            },
            Value::Null => Value::Null,
            x => {
                if is_builtin_scalar_name(class_name.as_str()) {
                    x.clone()
                } else if !db_contains(&self.database, class_name.as_str()) {
                    x.clone()
                } else {
                    self.resolve_single(x, class_name)
                }
            },
        }
    }

    /// One plain value resolved against a present store type, as
    /// `spec_resolve_single` states it.
    fn resolve_single(&self, x: &Value, class_name: &String) -> (r: Value)
        requires
            !(vview(*x) is Array),
            !(vview(*x) is Null),
            db_has(self.database@, class_name@),
        ensures
            vview(r) == spec_resolve_single(*self, vview(*x), class_name@),
    {
        let inner = match crate::indexing::hashmaps_get(&self.hashmaps, class_name.as_str()) {
            Some(o) => match o {
                Some(inner) => inner,
                None => {
                    return Value::Null;
                },
            },
            None => {
                return Value::Null;
            },
        };
        let fh = match crate::indexing::field_index_get(inner, "id") {
            Some(fh) => fh,
            None => {
                return Value::Null;
            },
        };
        let records = match db_get(&self.database, class_name.as_str()) {
            Some(v) => v,
            None => {
                proof {
                    assert(false);
                }
                return Value::Null;
            },
        };
        match fh {
            crate::indexing::FieldHashmaps::Str(m) => {
                match x.str_of() {
                    Some(s) => {
                        match crate::indexing::lookup_subindex_str(m, s.as_str()) {
                            Some(ps) => {
                                if ps.len() > 0 && ps[0] < records.len() {
                                    let p0 = ps[0];
                                    proof {
                                        crate::value::lemma_vview_seq_index(records@, p0 as int);
                                    }
                                    records[p0].clone()
                                } else {
                                    Value::Null
                                }
                            },
                            None => Value::Null,
                        }
                    },
                    None => Value::Null,
                }
            },
            crate::indexing::FieldHashmaps::I32(m) => {
                match x.as_i64() {
                    Some(n) => {
                        if i32::MIN as i64 <= n && n <= i32::MAX as i64 {
                            match crate::indexing::lookup_subindex_i32(m, n as i32) {
                                Some(ps) => {
                                    if ps.len() > 0 && ps[0] < records.len() {
                                        let p0 = ps[0];
                                        proof {
                                            crate::value::lemma_vview_seq_index(
                                                records@,
                                                p0 as int,
                                            );
                                        }
                                        records[p0].clone()
                                    } else {
                                        Value::Null
                                    }
                                },
                                None => Value::Null,
                            }
                        } else {
                            Value::Null
                        }
                    },
                    None => Value::Null,
                }
            },
            crate::indexing::FieldHashmaps::U64(m) => {
                match x.as_u64() {
                    Some(n) => {
                        match crate::indexing::lookup_subindex_u64(m, n) {
                            Some(ps) => {
                                if ps.len() > 0 && ps[0] < records.len() {
                                    let p0 = ps[0];
                                    proof {
                                        crate::value::lemma_vview_seq_index(records@, p0 as int);
                                    }
                                    records[p0].clone()
                                } else {
                                    Value::Null
                                }
                            },
                            None => Value::Null,
                        }
                    },
                    None => Value::Null,
                }
            },
            crate::indexing::FieldHashmaps::Null => Value::Null,
        }
    }
}

} // verus!

verus! {

/// The key a requested field is emitted under: its alias if given, else
/// its name.
pub open spec fn spec_field_key(f: Field) -> Seq<char> {
    match f.alias {
        Some(a) => a@,
        Option::None => f.name@,
    }
}

/// Store `v` under `key` in a result object: the first entry of that key
/// is overwritten in place, or a new entry is appended. Last write wins
/// on a key collision.
pub open spec fn obj_insert(
    entries: Seq<(Seq<char>, SpecValue)>,
    key: Seq<char>,
    v: SpecValue,
) -> Seq<(Seq<char>, SpecValue)> {
    let i = find_idx(entries, key, |e: (Seq<char>, SpecValue)| e.0);
    if i < entries.len() {
        entries.update(i, (key, v))
    } else {
        entries.push((key, v))
    }
}

/// Merge a fragment's result entries into the current result, in order,
/// each by `obj_insert`.
pub open spec fn obj_merge(
    acc: Seq<(Seq<char>, SpecValue)>,
    entries: Seq<(Seq<char>, SpecValue)>,
) -> Seq<(Seq<char>, SpecValue)>
    decreases entries.len(),
{
    if entries.len() <= 0 {
        acc
    } else {
        obj_merge(
            obj_insert(acc, entries[0].0, entries[0].1),
            entries.subrange(1, entries.len() as int),
        )
    }
}

/// The first fragment definition of the document carrying `name`.
pub open spec fn fragment_find(defs: Seq<Definition>, name: Seq<char>) -> Option<
    FragmentDefinition,
>
    decreases defs.len(),
{
    if defs.len() <= 0 {
        Option::None
    } else {
        match defs[0] {
            Definition::Fragment(f) => if f.name@ == name {
                Some(f)
            } else {
                fragment_find(defs.subrange(1, defs.len() as int), name)
            },
            _ => fragment_find(defs.subrange(1, defs.len() as int), name),
        }
    }
}

/// A scan that found no matching fragment before `i`, and one at `i` if
/// within bounds, has located `fragment_find`'s answer.
pub proof fn lemma_fragment_find_first(defs: Seq<Definition>, name: Seq<char>, i: int)
    requires
        0 <= i <= defs.len(),
        forall|j: int|
            0 <= j < i ==> !((#[trigger] defs[j]) matches Definition::Fragment(f) && f.name@
                == name),
        i < defs.len() ==> (defs[i] matches Definition::Fragment(f) && f.name@ == name),
    ensures
        i < defs.len() ==> fragment_find(defs, name) == Some(defs[i]->Fragment_0),
        i >= defs.len() ==> fragment_find(defs, name) is None,
    decreases i, defs.len(),
{
    if defs.len() > 0 {
        let t = defs.subrange(1, defs.len() as int);
        assert(forall|j: int| 0 <= j < t.len() ==> #[trigger] t[j] == defs[j + 1]);
        if i == 0 {
            if i < defs.len() {
            } else {
            }
        } else {
            lemma_fragment_find_first(t, name, i - 1);
        }
    }
}

/// The fragment definition spread under `name`, if the document has one.
#[verifier::loop_isolation(false)]
pub fn fragment_get<'a>(ast: &'a Document, name: &str) -> (r: Option<&'a FragmentDefinition>)
    ensures
        match r {
            Some(f) => fragment_find(ast.definitions@, name@) == Some(*f),
            None => fragment_find(ast.definitions@, name@) is None,
        },
{
    let mut i: usize = 0;
    while i < ast.definitions.len()
        invariant
            i <= ast.definitions.len(),
            forall|j: int|
                0 <= j < i as int ==> !((#[trigger] ast.definitions@[j])
                    matches Definition::Fragment(f) && f.name@ == name@),
        decreases ast.definitions.len() - i,
    {
        match &ast.definitions[i] {
            Definition::Fragment(f) => {
                if streq(f.name.as_str(), name) {
                    proof {
                        lemma_fragment_find_first(ast.definitions@, name@, i as int);
                    }
                    return Some(f);
                }
            },
            _ => {},
        }
        i = i + 1;
    }
    proof {
        lemma_fragment_find_first(ast.definitions@, name@, ast.definitions@.len() as int);
    }
    None
}

/// Recursive evaluation of a selection set against a resolved value and
/// its declared type name. Arrays map element-wise; built-in scalars and
/// enum-typed values are leaves returned unchanged; an object type
/// evaluates its selections in order; an unknown type name is null. The
/// depth budget pays only for fragment spreads; one whose budget is
/// exhausted is skipped.
pub open spec fn spec_traverse(
    p: QueryParser,
    doc: Document,
    parent: SpecValue,
    sel: SelectionSet,
    info: Seq<char>,
    fuel: nat,
) -> SpecValue
    decreases fuel, sel, parent,
{
    match parent {
        SpecValue::Array(arr) => SpecValue::Array(
            spec_traverse_elems(p, doc, arr, sel, info, fuel),
        ),
        _ => {
            if is_builtin_scalar(info) {
                parent
            } else if p.schema.has_object(info) {
                SpecValue::Object(
                    spec_apply_selections(
                        p,
                        doc,
                        parent,
                        p.schema.objects@[p.schema.object_idx(info)],
                        info,
                        sel.items@,
                        fuel,
                        Seq::empty(),
                    ),
                )
            } else if p.schema.has_enum(info) {
                parent
            } else {
                SpecValue::Null
            }
        },
    }
}

/// Element-wise traversal of an array value, preserving order.
pub open spec fn spec_traverse_elems(
    p: QueryParser,
    doc: Document,
    arr: Seq<SpecValue>,
    sel: SelectionSet,
    info: Seq<char>,
    fuel: nat,
) -> Seq<SpecValue>
    decreases fuel, sel, arr,
{
    if arr.len() <= 0 {
        Seq::empty()
    } else {
        seq![spec_traverse(p, doc, arr[0], sel, info, fuel)] + spec_traverse_elems(
            p,
            doc,
            arr.subrange(1, arr.len() as int),
            sel,
            info,
            fuel,
        )
    }
}

/// Evaluate the selection items left to right, folding each into the
/// result entries.
pub open spec fn spec_apply_selections(
    p: QueryParser,
    doc: Document,
    parent: SpecValue,
    obj: crate::structure::StructureType,
    info: Seq<char>,
    items: Seq<Selection>,
    fuel: nat,
    acc: Seq<(Seq<char>, SpecValue)>,
) -> Seq<(Seq<char>, SpecValue)>
    decreases fuel, items, parent,
{
    if items.len() <= 0 {
        acc
    } else {
        spec_apply_selections(
            p,
            doc,
            parent,
            obj,
            info,
            items.subrange(1, items.len() as int),
            fuel,
            spec_apply_one(p, doc, parent, obj, info, items[0], fuel, acc),
        )
    }
}

/// Evaluate one selection item. A field undeclared on the type emits null
/// under its requested key; a declared field resolves and recurses; a
/// fragment spread evaluates the fragment's body against the same parent
/// and merges the resulting entries, last write winning; an unknown
/// fragment name, an exhausted depth budget, and an inline fragment are
/// skipped.
pub open spec fn spec_apply_one(
    p: QueryParser,
    doc: Document,
    parent: SpecValue,
    obj: crate::structure::StructureType,
    info: Seq<char>,
    item: Selection,
    fuel: nat,
    acc: Seq<(Seq<char>, SpecValue)>,
) -> Seq<(Seq<char>, SpecValue)>
    decreases fuel, item, parent,
{
    match item {
        Selection::Field(field) => {
            let key = spec_field_key(field);
            let fi = obj.field_idx(field.name@);
            let v = if fi < obj.fields@.len() {
                spec_resolve_field(p, doc, parent, field, obj.fields@[fi], fuel)
            } else {
                SpecValue::Null
            };
            obj_insert(acc, key, v)
        },
        Selection::FragmentSpread(spread) => {
            match fragment_find(doc.definitions@, spread.fragment_name@) {
                Some(fd) => if fuel <= 0 {
                    acc
                } else {
                    let sub = spec_traverse(
                        p,
                        doc,
                        parent,
                        fd.selection_set,
                        info,
                        (fuel - 1) as nat,
                    );
                    match sub {
                        SpecValue::Object(es) => obj_merge(acc, es),
                        _ => acc,
                    }
                },
                Option::None => acc,
            }
        },
        Selection::InlineFragment(_) => acc,
    }
}

/// Resolve one declared field from the parent record and traverse into
/// the result: dispatch by strategy, then reference expansion, then the
/// field's own sub-selection against its declared type. A null raw value,
/// and a reference whose lookup failed, stay null without recursion.
pub open spec fn spec_resolve_field(
    p: QueryParser,
    doc: Document,
    parent: SpecValue,
    field: Field,
    info: crate::structure::StructureField,
    fuel: nat,
) -> SpecValue
    decreases fuel, field, parent,
{
    let rv = crate::resolver::spec_resolve(p.database@, parent, info);
    if rv is Null {
        SpecValue::Null
    } else {
        let expanded = spec_resolve_id(p, rv, info.return_type.name@);
        if expanded is Null {
            SpecValue::Null
        } else {
            spec_traverse(p, doc, expanded, field.selection_set, info.return_type.name@, fuel)
        }
    }
}

} // verus!

verus! {

/// Insert executably, as `obj_insert` states it.
#[verifier::loop_isolation(false)]
fn object_insert(values: &mut Vec<(String, Value)>, key: String, v: Value)
    ensures
        crate::value::vview_entries(final(values)@) == obj_insert(
            crate::value::vview_entries(old(values)@),
            key@,
            vview(v),
        ),
{
    let ghost m0 = crate::value::vview_entries(old(values)@);
    proof {
        crate::value::lemma_vview_entries_len(old(values)@);
    }
    let mut i: usize = 0;
    while i < values.len()
        invariant
            i <= values.len(),
            *values == *old(values),
            forall|j: int| 0 <= j < i as int ==> #[trigger] values@[j].0@ != key@,
        decreases values.len() - i,
    {
        if streq(values[i].0.as_str(), key.as_str()) {
            proof {
                assert forall|j: int| 0 <= j < i as int implies (#[trigger] m0[j]).0 != key@ by {
                    crate::value::lemma_vview_entries_index(old(values)@, j);
                }
                crate::value::lemma_vview_entries_index(old(values)@, i as int);
                lemma_find_idx_is_first(m0, key@, |e: (Seq<char>, SpecValue)| e.0, i as int);
            }
            let _ = values.remove(i);
            values.insert(i, (key, v));
            proof {
                assert(values@ =~= old(values)@.update(i as int, values@[i as int]));
                let mu = m0.update(i as int, (values@[i as int].0@, vview(values@[i as int].1)));
                assert forall|j: int|
                    0 <= j < values@.len() implies (#[trigger] values@[j]).0@ == mu[j].0 && vview(
                    values@[j].1,
                ) == mu[j].1 by {
                    if j != i as int {
                        crate::value::lemma_vview_entries_index(old(values)@, j);
                        assert(values@[j] == old(values)@[j]);
                    }
                }
                crate::value::lemma_vview_entries_models(values@, mu);
                assert(mu =~= obj_insert(m0, key@, vview(values@[i as int].1)));
            }
            return ;
        }
        i = i + 1;
    }
    proof {
        assert forall|j: int| 0 <= j < m0.len() implies (#[trigger] m0[j]).0 != key@ by {
            crate::value::lemma_vview_entries_index(old(values)@, j);
        }
        lemma_find_idx_is_first(m0, key@, |e: (Seq<char>, SpecValue)| e.0, m0.len() as int);
    }
    let ghost prev = values@;
    values.push((key, v));
    proof {
        crate::value::lemma_vview_entries_push(prev, values@[values@.len() - 1]);
    }
}

/// Element-wise traversal equals the pointwise traversal of each element.
pub proof fn lemma_traverse_elems_models(
    p: QueryParser,
    doc: Document,
    arr: Seq<SpecValue>,
    sel: SelectionSet,
    info: Seq<char>,
    fuel: nat,
    m: Seq<SpecValue>,
)
    requires
        m.len() == arr.len(),
        forall|j: int| 0 <= j < arr.len() ==> m[j] == spec_traverse(p, doc, arr[j], sel, info, fuel),
    ensures
        spec_traverse_elems(p, doc, arr, sel, info, fuel) == m,
    decreases arr.len(),
{
    if arr.len() > 0 {
        let at = arr.subrange(1, arr.len() as int);
        let mt = m.subrange(1, m.len() as int);
        assert(forall|j: int| 0 <= j < at.len() ==> #[trigger] at[j] == arr[j + 1]);
        lemma_traverse_elems_models(p, doc, at, sel, info, fuel, mt);
        assert(spec_traverse_elems(p, doc, arr, sel, info, fuel) =~= m);
    } else {
        assert(spec_traverse_elems(p, doc, arr, sel, info, fuel) =~= m);
    }
}

impl QueryParser {
    /// Evaluate a selection set against a resolved value and its declared
    /// type name, as `spec_traverse` states it. `fuel` bounds the nesting
    /// depth the evaluation may follow.
    #[verifier::loop_isolation(false)]
    pub fn traverse_selection(
        &self,
        parent: &Value,
        selector: &SelectionSet,
        ast: &Document,
        info: &str,
        fuel: u64,
    ) -> (r: Value)
        ensures
            vview(r) == spec_traverse(*self, *ast, vview(*parent), *selector, info@, fuel as nat),
        decreases fuel, *selector, vview(*parent),
    {
        match parent {
            Value::Array(arr) => {
                let ghost model = crate::value::vview_seq(arr@);
                proof {
                    crate::value::lemma_vview_seq_len(arr@);
                }
                let mut out: Vec<Value> = Vec::new();
                let mut i: usize = 0;
                while i < arr.len()
                    invariant
                        i <= arr.len(),
                        out@.len() == i as int,
                        forall|j: int|
                            0 <= j < i as int ==> #[trigger] vview(out@[j]) == spec_traverse(
                                *self,
                                *ast,
                                model[j],
                                *selector,
                                info@,
                                fuel as nat,
                            ),
                    decreases arr.len() - i,
                {
                    proof {
                        let sv = vview(*parent);
                        assert(decreases_to!(sv => sv->Array_0));
                        assert(sv->Array_0 == model);
                        assert(decreases_to!(model => model[i as int]));
                        crate::value::lemma_vview_seq_index(arr@, i as int);
                    }
                    out.push(self.traverse_selection(&arr[i], selector, ast, info, fuel));
                    i = i + 1;
                }
                let ghost gout = out@;
                let r = Value::Array(out);
                proof {
                    crate::value::lemma_vview_seq_len(gout);
                    assert forall|j: int|
                        0 <= j < gout.len() implies #[trigger] crate::value::vview_seq(gout)[j]
                        == spec_traverse(
                        *self,
                        *ast,
                        model[j],
                        *selector,
                        info@,
                        fuel as nat,
                    ) by {
                        crate::value::lemma_vview_seq_index(gout, j);
                    }
                    lemma_traverse_elems_models(
                        *self,
                        *ast,
                        model,
                        *selector,
                        info@,
                        fuel as nat,
                        crate::value::vview_seq(gout),
                    );
                }
                r
            },
            _ => {
                if is_builtin_scalar_name(info) {
                    return parent.clone();
                }
                match self.schema.find_object(info) {
                    crate::structure::StructureItem::Enum(_) => parent.clone(),
                    crate::structure::StructureItem::Missing => Value::Null,
                    crate::structure::StructureItem::Object(t) => {
                        let ghost obj = *t;
                        let mut values: Vec<(String, Value)> = Vec::new();
                        proof {
                            assert(crate::value::vview_entries(values@) =~= Seq::<
                                (Seq<char>, SpecValue),
                            >::empty());
                            assert(selector.items@.skip(0) =~= selector.items@);
                        }
                        let mut i: usize = 0;
                        while i < selector.items.len()
                            invariant
                                i <= selector.items.len(),
                                spec_apply_selections(
                                    *self,
                                    *ast,
                                    vview(*parent),
                                    obj,
                                    info@,
                                    selector.items@,
                                    fuel as nat,
                                    Seq::empty(),
                                ) == spec_apply_selections(
                                    *self,
                                    *ast,
                                    vview(*parent),
                                    obj,
                                    info@,
                                    selector.items@.skip(i as int),
                                    fuel as nat,
                                    crate::value::vview_entries(values@),
                                ),
                            decreases selector.items.len() - i,
                        {
                            let ghost rem = selector.items@.skip(i as int);
                            let ghost acc0 = crate::value::vview_entries(values@);
                            proof {
                                assert(rem.subrange(1, rem.len() as int) =~= selector.items@.skip(
                                    i as int + 1,
                                ));
                                assert(rem[0] == selector.items@[i as int]);
                            }
                            match &selector.items[i] {
                                Selection::Field(field) => {
                                    let key: String = match &field.alias {
                                        Some(a) => a.clone(),
                                        None => field.name.clone(),
                                    };
                                    let v: Value = match t.find_field(field.name.as_str()) {
                                        Some(ff) => {
                                            proof {
                                                let ssv = *selector;
                                                assert(decreases_to!(ssv => ssv.items));
                                                assert(decreases_to!(ssv.items => ssv.items@));
                                                assert(decreases_to!(ssv.items@ => ssv.items@[i as int]));
                                                let itv = ssv.items@[i as int];
                                                assert(decreases_to!(itv => itv->Field_0));
                                                assert(*field == itv->Field_0);
                                            }
                                            self.resolve_field(
                                                parent,
                                                &field.arguments,
                                                field,
                                                ast,
                                                ff,
                                                fuel,
                                            )
                                        },
                                        None => Value::Null,
                                    };
                                    object_insert(&mut values, key, v);
                                },
                                Selection::FragmentSpread(spread) => {
                                    match fragment_get(ast, spread.fragment_name.as_str()) {
                                        Some(fd) => {
                                            if fuel > 0 {
                                                let sub = self.traverse_selection(
                                                    parent,
                                                    &fd.selection_set,
                                                    ast,
                                                    info,
                                                    fuel - 1,
                                                );
                                                match sub {
                                                    Value::Object(entries) => {
                                                        let ghost es = crate::value::vview_entries(
                                                            entries@,
                                                        );
                                                        proof {
                                                            crate::value::lemma_vview_entries_len(
                                                                entries@,
                                                            );
                                                            assert(es.skip(0) =~= es);
                                                        }
                                                        let mut j: usize = 0;
                                                        while j < entries.len()
                                                            invariant
                                                                j <= entries.len(),
                                                                obj_merge(acc0, es) == obj_merge(
                                                                    crate::value::vview_entries(
                                                                        values@,
                                                                    ),
                                                                    es.skip(j as int),
                                                                ),
                                                            decreases entries.len() - j,
                                                        {
                                                            proof {
                                                                let rem2 = es.skip(j as int);
                                                                assert(rem2.subrange(
                                                                    1,
                                                                    rem2.len() as int,
                                                                ) =~= es.skip(j as int + 1));
                                                                crate::value::lemma_vview_entries_index(
                                                                    entries@,
                                                                    j as int,
                                                                );
                                                                assert(rem2[0] == es[j as int]);
                                                            }
                                                            let kj = entries[j].0.clone();
                                                            let vj = entries[j].1.clone();
                                                            object_insert(&mut values, kj, vj);
                                                            j = j + 1;
                                                        }
                                                        proof {
                                                            assert(es.skip(es.len() as int)
                                                                =~= Seq::<
                                                                (Seq<char>, SpecValue),
                                                            >::empty());
                                                        }
                                                    },
                                                    _ => {},
                                                }
                                            }
                                        },
                                        None => {},
                                    }
                                },
                                Selection::InlineFragment(_) => {},
                            }
                            proof {
                                assert(crate::value::vview_entries(values@) == spec_apply_one(
                                    *self,
                                    *ast,
                                    vview(*parent),
                                    obj,
                                    info@,
                                    selector.items@[i as int],
                                    fuel as nat,
                                    acc0,
                                ));
                            }
                            i = i + 1;
                        }
                        proof {
                            assert(selector.items@.skip(selector.items@.len() as int) =~= Seq::<
                                Selection,
                            >::empty());
                        }
                        let ghost gv = crate::value::vview_entries(values@);
                        let r = Value::Object(values);
                        proof {
                            assert(vview(r) == SpecValue::Object(gv));
                        }
                        r
                    },
                }
            },
        }
    }

    /// Resolve one declared field and traverse into the result, as
    /// `spec_resolve_field` states it.
    fn resolve_field(
        &self,
        parent: &Value,
        args: &crate::resolver::ResolverArgs,
        selector: &Field,
        ast: &Document,
        info: &crate::structure::StructureField,
        fuel: u64,
    ) -> (r: Value)
        ensures
            vview(r) == spec_resolve_field(
                *self,
                *ast,
                vview(*parent),
                *selector,
                *info,
                fuel as nat,
            ),
        decreases fuel, *selector, vview(*parent),
    {
        let ctx = crate::resolver::ResolverContext { parser: self };
        let results = crate::resolver::resolve(parent, args, &ctx, info);
        let is_null = match &results {
            Value::Null => true,
            _ => false,
        };
        if is_null {
            Value::Null
        } else {
            let expanded = self.resolve_id_to_object(&results, &info.return_type.name);
            let lookup_failed = match &expanded {
                Value::Null => true,
                _ => false,
            };
            if lookup_failed {
                Value::Null
            } else {
                proof {
                    let sv = *selector;
                    assert(decreases_to!(sv => sv.selection_set));
                }
                self.traverse_selection(
                    &expanded,
                    &selector.selection_set,
                    ast,
                    info.return_type.name.as_str(),
                    fuel,
                )
            }
        }
    }
}

} // verus!

verus! {

/// The depth budget every request is evaluated under: how many nested
/// fragment spreads one traversal may follow. Plain field nesting costs
/// nothing; only spreading a fragment spends one unit, which bounds the
/// cyclic spreads the grammar cannot rule out.
pub const TRAVERSE_DEPTH: u64 = 64;

/// The selection set and root type name of an operation.
pub open spec fn op_parts(op: OperationDefinition) -> (SelectionSet, Seq<char>) {
    match op {
        OperationDefinition::Query(s) => (s, "Query"@),
        OperationDefinition::SelectionSet(s) => (s, "Query"@),
        OperationDefinition::Mutation(m) => (m, "Mutation"@),
        OperationDefinition::Subscription(s) => (s, "Subscription"@),
    }
}

/// The first operation of the document, if any.
pub open spec fn spec_first_operation(defs: Seq<Definition>) -> Option<(SelectionSet, Seq<char>)>
    decreases defs.len(),
{
    if defs.len() <= 0 {
        Option::None
    } else {
        match defs[0] {
            Definition::Operation(op) => Some(op_parts(op)),
            _ => spec_first_operation(defs.subrange(1, defs.len() as int)),
        }
    }
}

/// A scan that found no operation before `i`, and one at `i` if within
/// bounds, has located the first operation.
pub proof fn lemma_first_operation_first(defs: Seq<Definition>, i: int)
    requires
        0 <= i <= defs.len(),
        forall|j: int| 0 <= j < i ==> !((#[trigger] defs[j]) is Operation),
        i < defs.len() ==> defs[i] is Operation,
    ensures
        i < defs.len() ==> spec_first_operation(defs) == Some(op_parts(defs[i]->Operation_0)),
        i >= defs.len() ==> spec_first_operation(defs) is None,
    decreases i, defs.len(),
{
    if defs.len() > 0 {
        let t = defs.subrange(1, defs.len() as int);
        assert(forall|j: int| 0 <= j < t.len() ==> #[trigger] t[j] == defs[j + 1]);
        if i > 0 {
            lemma_first_operation_first(t, i - 1);
        }
    }
}

/// Whether the document holds an operation to evaluate.
#[verifier::loop_isolation(false)]
pub fn has_operation(ast: &Document) -> (r: bool)
    ensures
        r == (spec_first_operation(ast.definitions@) is Some),
{
    let mut i: usize = 0;
    while i < ast.definitions.len()
        invariant
            i <= ast.definitions.len(),
            forall|j: int| 0 <= j < i as int ==> !((#[trigger] ast.definitions@[j]) is Operation),
        decreases ast.definitions.len() - i,
    {
        match &ast.definitions[i] {
            Definition::Operation(_) => {
                proof {
                    lemma_first_operation_first(ast.definitions@, i as int);
                }
                return true;
            },
            _ => {},
        }
        i = i + 1;
    }
    proof {
        lemma_first_operation_first(ast.definitions@, ast.definitions@.len() as int);
    }
    false
}

/// What evaluating a request document yields: the first operation's
/// selection set, evaluated from its root type's first record under the
/// standard depth budget.
pub open spec fn spec_traverse_query(p: QueryParser, ast: Document) -> SpecValue {
    match spec_first_operation(ast.definitions@) {
        Some(op) => spec_traverse(
            p,
            ast,
            vview(db_records(p.database@, op.1)[0]),
            op.0,
            op.1,
            TRAVERSE_DEPTH as nat,
        ),
        Option::None => SpecValue::Null,
    }
}

impl QueryParser {
    /// Evaluate a request document: select its first operation and
    /// evaluate it from the corresponding root record, as
    /// `spec_traverse_query` states it.
    #[verifier::loop_isolation(false)]
    pub fn traverse_query(&self, ast: &Document) -> (r: Value)
        requires
            self.wf(),
            spec_first_operation(ast.definitions@) is Some,
        ensures
            vview(r) == spec_traverse_query(*self, *ast),
    {
        let mut i: usize = 0;
        while i < ast.definitions.len()
            invariant
                i <= ast.definitions.len(),
                forall|j: int|
                    0 <= j < i as int ==> !((#[trigger] ast.definitions@[j]) is Operation),
            decreases ast.definitions.len() - i,
        {
            match &ast.definitions[i] {
                Definition::Operation(op) => {
                    proof {
                        lemma_first_operation_first(ast.definitions@, i as int);
                    }
                    let (sel, root): (&SelectionSet, &str) = match op {
                        OperationDefinition::Query(s) => (s, "Query"),
                        OperationDefinition::SelectionSet(s) => (s, "Query"),
                        OperationDefinition::Mutation(m) => (m, "Mutation"),
                        OperationDefinition::Subscription(s) => (s, "Subscription"),
                    };
                    let records = match db_get(&self.database, root) {
                        Some(v) => v,
                        None => {
                            proof {
                                assert(false);
                            }
                            return Value::Null;
                        },
                    };
                    return self.traverse_selection(&records[0], sel, ast, root, TRAVERSE_DEPTH);
                },
                _ => {},
            }
            i = i + 1;
        }
        proof {
            lemma_first_operation_first(ast.definitions@, ast.definitions@.len() as int);
            assert(false);
        }
        Value::Null
    }
}

} // verus!

verus! {

/// The record store at the level of its mathematical model: type name to
/// the models of its records.
pub open spec fn db_model(db: Seq<(String, Vec<Value>)>) -> Seq<(Seq<char>, Seq<SpecValue>)> {
    Seq::new(db.len(), |i: int| (db[i].0@, crate::value::vview_seq(db[i].1@)))
}

pub open spec fn mdb_idx(m: Seq<(Seq<char>, Seq<SpecValue>)>, name: Seq<char>) -> int {
    find_idx(m, name, |e: (Seq<char>, Seq<SpecValue>)| e.0)
}

pub open spec fn mdb_has(m: Seq<(Seq<char>, Seq<SpecValue>)>, name: Seq<char>) -> bool {
    mdb_idx(m, name) < m.len()
}

/// Model-level search agrees with store-level search.
pub proof fn lemma_db_model_idx(db: Seq<(String, Vec<Value>)>, name: Seq<char>)
    ensures
        mdb_idx(db_model(db), name) == db_idx(db, name),
{
    lemma_find_idx(db, name, |e: (String, Vec<Value>)| e.0@);
    let m = db_model(db);
    assert forall|j: int| 0 <= j < db_idx(db, name) implies (#[trigger] m[j]).0 != name by {
        assert(m[j].0 == db[j].0@);
    }
    if db_idx(db, name) < db.len() {
        assert(m[db_idx(db, name)].0 == name);
    }
    lemma_find_idx_is_first(
        m,
        name,
        |e: (Seq<char>, Seq<SpecValue>)| e.0,
        db_idx(db, name),
    );
}

/// Store an entry in the model: replace the first entry of its name, or
/// append.
/// The record models stored under `name` in the model (meaningful when
/// `mdb_has`).
pub open spec fn mdb_records(m: Seq<(Seq<char>, Seq<SpecValue>)>, name: Seq<char>) -> Seq<
    SpecValue,
> {
    m[mdb_idx(m, name)].1
}

/// Whether an object type gets an index, at the level of the store model.
pub open spec fn mobj_indexed(
    obj: crate::structure::StructureType,
    m: Seq<(Seq<char>, Seq<SpecValue>)>,
) -> bool {
    mdb_has(m, obj.name@) && obj.has_field("id"@)
}

/// Whether the record model at position `i` fails id extraction under
/// `kind`.
pub open spec fn mid_fails_at(
    kind: crate::structure::StructureDataKind,
    records: Seq<SpecValue>,
    i: int,
) -> bool {
    match kind {
        crate::structure::StructureDataKind::Str => crate::indexing::spec_id_str(records[i])
            is None,
        crate::structure::StructureDataKind::I32 => crate::indexing::spec_id_i32(records[i])
            is None,
        crate::structure::StructureDataKind::U64 => crate::indexing::spec_id_u64(records[i])
            is None,
        _ => false,
    }
}

/// An object builds cleanly against the store model: either it is not
/// indexed, or its id kind is supported and every record's id extracts.
pub open spec fn mobj_ok(
    obj: crate::structure::StructureType,
    m: Seq<(Seq<char>, Seq<SpecValue>)>,
) -> bool {
    !mobj_indexed(obj, m) || (crate::indexing::id_kind_supported(crate::indexing::id_kind_of(obj))
        && forall|i: int|
        0 <= i < mdb_records(m, obj.name@).len() ==> !mid_fails_at(
            crate::indexing::id_kind_of(obj),
            mdb_records(m, obj.name@),
            i,
        ))
}

/// The first object (in order) that does not build cleanly against the
/// store model, or `objs.len()`.
pub open spec fn m_first_bad_obj(
    objs: Seq<crate::structure::StructureType>,
    m: Seq<(Seq<char>, Seq<SpecValue>)>,
) -> int
    decreases objs.len(),
{
    if objs.len() <= 0 {
        0
    } else if !mobj_ok(objs[0], m) {
        0
    } else {
        1 + m_first_bad_obj(objs.subrange(1, objs.len() as int), m)
    }
}

/// Building against a store agrees with building against its model.
pub proof fn lemma_obj_ok_model(
    obj: crate::structure::StructureType,
    db: Seq<(String, Vec<Value>)>,
)
    ensures
        crate::indexing::obj_indexed(obj, db) == mobj_indexed(obj, db_model(db)),
        crate::indexing::obj_ok(obj, db) == mobj_ok(obj, db_model(db)),
        db_has(db, obj.name@) ==> ({
            let recs = db_records(db, obj.name@);
            let mrecs = mdb_records(db_model(db), obj.name@);
            &&& mrecs == crate::value::vview_seq(recs)
            &&& mrecs.len() == recs.len()
            &&& forall|i: int|
                0 <= i < recs.len() ==> crate::indexing::id_fails_at(
                    crate::indexing::id_kind_of(obj),
                    recs,
                    i,
                ) == mid_fails_at(crate::indexing::id_kind_of(obj), mrecs, i)
        }),
{
    lemma_db_model_idx(db, obj.name@);
    lemma_find_idx(db, obj.name@, |e: (String, Vec<Value>)| e.0@);
    if db_has(db, obj.name@) {
        let recs = db_records(db, obj.name@);
        let mrecs = mdb_records(db_model(db), obj.name@);
        assert(mrecs == crate::value::vview_seq(recs));
        crate::value::lemma_vview_seq_len(recs);
        assert forall|i: int|
            0 <= i < recs.len() implies crate::indexing::id_fails_at(
            crate::indexing::id_kind_of(obj),
            recs,
            i,
        ) == mid_fails_at(crate::indexing::id_kind_of(obj), mrecs, i) by {
            crate::value::lemma_vview_seq_index(recs, i);
        }
    }
}

/// Two object sequences whose entries build equally have the same first
/// bad position.
pub proof fn lemma_m_first_bad_obj_agrees(
    aug: Seq<crate::structure::StructureType>,
    base: Seq<crate::structure::StructureType>,
    db: Seq<(String, Vec<Value>)>,
)
    requires
        aug.len() == base.len(),
        forall|i: int|
            0 <= i < aug.len() ==> crate::indexing::obj_ok(#[trigger] aug[i], db) == mobj_ok(
                base[i],
                db_model(db),
            ),
    ensures
        m_first_bad_obj(base, db_model(db)) == crate::indexing::first_bad_obj(aug, db),
    decreases aug.len(),
{
    if aug.len() > 0 && crate::indexing::obj_ok(aug[0], db) {
        let ta = aug.subrange(1, aug.len() as int);
        let tb = base.subrange(1, base.len() as int);
        assert(forall|j: int| 0 <= j < ta.len() ==> #[trigger] ta[j] == aug[j + 1]);
        assert(forall|j: int| 0 <= j < tb.len() ==> #[trigger] tb[j] == base[j + 1]);
        lemma_m_first_bad_obj_agrees(ta, tb, db);
    }
}

/// Building is insensitive to everything but the object's name and id
/// field: two objects with the same name and the same `id` declaration
/// build alike.
pub proof fn lemma_obj_ok_same_id_profile(
    a: crate::structure::StructureType,
    b: crate::structure::StructureType,
    db: Seq<(String, Vec<Value>)>,
)
    requires
        a.name@ == b.name@,
        a.has_field("id"@) == b.has_field("id"@),
        a.has_field("id"@) ==> crate::indexing::id_kind_of(a) == crate::indexing::id_kind_of(b),
    ensures
        crate::indexing::obj_ok(a, db) == crate::indexing::obj_ok(b, db),
        crate::indexing::obj_indexed(a, db) == crate::indexing::obj_indexed(b, db),
{
}

/// What a dataset must satisfy to load: after the introspection stores
/// are merged and the roots guaranteed, every declared object and every
/// meta-schema object builds cleanly against the resulting store model.
pub open spec fn dataset_builds(
    schema: StructureIndex,
    instropection: StructureIndex,
    dbm: Seq<(Seq<char>, Seq<SpecValue>)>,
) -> bool {
    let m = final_db_model(dbm, schema);
    &&& forall|i: int|
        0 <= i < schema.objects@.len() ==> mobj_ok(#[trigger] schema.objects@[i], m)
    &&& forall|j: int|
        0 <= j < instropection.objects@.len() ==> mobj_ok(#[trigger] instropection.objects@[j], m)
}

pub open spec fn mdb_insert(
    m: Seq<(Seq<char>, Seq<SpecValue>)>,
    e: (Seq<char>, Seq<SpecValue>),
) -> Seq<(Seq<char>, Seq<SpecValue>)> {
    if mdb_has(m, e.0) {
        m.update(mdb_idx(m, e.0), e)
    } else {
        m.push(e)
    }
}

/// Inserting finds its own entry afterwards.
pub proof fn lemma_mdb_insert_found(
    m: Seq<(Seq<char>, Seq<SpecValue>)>,
    e: (Seq<char>, Seq<SpecValue>),
)
    ensures
        mdb_has(mdb_insert(m, e), e.0),
        mdb_records(mdb_insert(m, e), e.0) == e.1,
{
    let keyf = |x: (Seq<char>, Seq<SpecValue>)| x.0;
    lemma_find_idx(m, e.0, keyf);
    let out = mdb_insert(m, e);
    if mdb_has(m, e.0) {
        let fi = mdb_idx(m, e.0);
        assert forall|j: int| 0 <= j < fi implies keyf(#[trigger] out[j]) != e.0 by {
            assert(out[j] == m[j]);
        }
        lemma_find_idx_is_first(out, e.0, keyf, fi);
    } else {
        assert forall|j: int| 0 <= j < m.len() implies keyf(#[trigger] out[j]) != e.0 by {
            assert(out[j] == m[j]);
        }
        lemma_find_idx_is_first(out, e.0, keyf, m.len() as int);
    }
}

/// Inserting leaves every other key's lookup alone.
pub proof fn lemma_mdb_insert_other(
    m: Seq<(Seq<char>, Seq<SpecValue>)>,
    e: (Seq<char>, Seq<SpecValue>),
    k: Seq<char>,
)
    requires
        k != e.0,
    ensures
        mdb_has(mdb_insert(m, e), k) == mdb_has(m, k),
        mdb_has(m, k) ==> mdb_records(mdb_insert(m, e), k) == mdb_records(m, k),
{
    let keyf = |x: (Seq<char>, Seq<SpecValue>)| x.0;
    lemma_find_idx(m, e.0, keyf);
    lemma_find_idx(m, k, keyf);
    let out = mdb_insert(m, e);
    if mdb_has(m, e.0) {
        let fi = mdb_idx(m, e.0);
        assert forall|j: int| 0 <= j < m.len() implies keyf(#[trigger] out[j]) == keyf(m[j]) by {
            if j != fi {
                assert(out[j] == m[j]);
            }
        }
        lemma_find_idx_keys_eq(out, m, k, keyf);
        if mdb_has(m, k) {
            assert(mdb_idx(m, k) != fi);
            assert(out[mdb_idx(m, k)] == m[mdb_idx(m, k)]);
        }
    } else {
        lemma_find_idx_push(m, k, keyf, e);
        if mdb_has(m, k) {
            assert(out[mdb_idx(m, k)] == m[mdb_idx(m, k)]);
        }
    }
}

/// Guaranteeing a root leaves every other key's lookup alone.
pub proof fn lemma_mdb_ensure_root_other(
    m: Seq<(Seq<char>, Seq<SpecValue>)>,
    name: Seq<char>,
    k: Seq<char>,
)
    requires
        k != name,
    ensures
        mdb_has(mdb_ensure_root(m, name), k) == mdb_has(m, k),
        mdb_has(m, k) ==> mdb_records(mdb_ensure_root(m, name), k) == mdb_records(m, k),
{
    if !(mdb_has(m, name) && m[mdb_idx(m, name)].1.len() > 0) {
        lemma_mdb_insert_other(m, (name, seq![SpecValue::Object(Seq::empty())]), k);
    }
}

/// Fold a sequence of entries into the model, left to right.
pub open spec fn mdb_extend(
    m: Seq<(Seq<char>, Seq<SpecValue>)>,
    add: Seq<(Seq<char>, Seq<SpecValue>)>,
) -> Seq<(Seq<char>, Seq<SpecValue>)>
    decreases add.len(),
{
    if add.len() <= 0 {
        m
    } else {
        mdb_extend(mdb_insert(m, add[0]), add.subrange(1, add.len() as int))
    }
}

/// Guarantee one record under a root type name: a type that is absent or
/// empty gets the singleton store of one empty record.
pub open spec fn mdb_ensure_root(
    m: Seq<(Seq<char>, Seq<SpecValue>)>,
    name: Seq<char>,
) -> Seq<(Seq<char>, Seq<SpecValue>)> {
    if mdb_has(m, name) && m[mdb_idx(m, name)].1.len() > 0 {
        m
    } else {
        mdb_insert(m, (name, seq![SpecValue::Object(Seq::empty())]))
    }
}

/// The models of the four introspection stores synthesized from `doc`.
pub open spec fn intros_model(doc: crate::structure::StructureIndex) -> Seq<
    (Seq<char>, Seq<SpecValue>),
> {
    seq![
        ("__Schema"@, seq![crate::schema::schema_record(doc)]),
        ("__Type"@, crate::schema::type_records(doc)),
        ("__Field"@, crate::schema::all_field_records(doc.objects@)),
        ("__EnumValue"@, crate::schema::all_enum_value_records(doc.enums@)),
    ]
}

/// The model of the record store a dataset is loaded with: the source
/// store, the introspection stores merged over it, and the three root
/// types guaranteed.
pub open spec fn final_db_model(
    dbm: Seq<(Seq<char>, Seq<SpecValue>)>,
    doc: crate::structure::StructureIndex,
) -> Seq<(Seq<char>, Seq<SpecValue>)> {
    mdb_ensure_root(
        mdb_ensure_root(
            mdb_ensure_root(mdb_extend(dbm, intros_model(doc)), "Query"@),
            "Mutation"@,
        ),
        "Subscription"@,
    )
}

/// The bulk-listing field injected into Query for `__Schema`.
pub open spec fn injected_schema_field(f: crate::structure::StructureField) -> bool {
    &&& f.name@ == "__schema"@
    &&& f.description@ == Seq::<char>::empty()
    &&& crate::structure::kind_models(f.data_type.kind, "__Schema"@)
    &&& crate::schema::mutation_resolver_models(
        f.data_type.resolver,
        crate::structure::ResolverKind::AllReferences,
        Seq::empty(),
    )
    &&& f.return_type.name@ == "__Schema"@
    &&& !f.return_type.is_array
    &&& !f.return_type.is_nullable
    &&& !f.return_type.is_array_nonnullable
}

/// The bulk-listing field injected into Query for one declared object
/// type.
pub open spec fn injected_values_field(
    f: crate::structure::StructureField,
    tname: Seq<char>,
) -> bool {
    &&& f.name@ == "values__of_"@ + tname
    &&& f.description@ == Seq::<char>::empty()
    &&& crate::structure::kind_models(f.data_type.kind, tname)
    &&& crate::schema::mutation_resolver_models(
        f.data_type.resolver,
        crate::structure::ResolverKind::AllReferences,
        Seq::empty(),
    )
    &&& f.return_type.name@ == tname
    &&& f.return_type.is_array
    &&& !f.return_type.is_nullable
    &&& !f.return_type.is_array_nonnullable
}

fn one_empty_record() -> (r: Vec<Value>)
    ensures
        crate::value::vview_seq(r@) == seq![SpecValue::Object(Seq::<(Seq<char>, SpecValue)>::empty())],
{
    let mut one: Vec<Value> = Vec::new();
    let ghost prev = one@;
    one.push(Value::Object(Vec::new()));
    proof {
        crate::value::lemma_vview_seq_push(prev, one@[0]);
        assert(crate::value::vview_seq(prev) =~= Seq::<SpecValue>::empty());
        assert(crate::value::vview_entries(one@[0]->Object_0@) =~= Seq::<
            (Seq<char>, SpecValue),
        >::empty());
        assert(crate::value::vview_seq(one@) =~= seq![
            SpecValue::Object(Seq::<(Seq<char>, SpecValue)>::empty()),
        ]);
    }
    one
}

/// Guarantee a root type's singleton record, executably: afterwards the
/// root has at least one record, and every other type's store is
/// untouched.
#[verifier::loop_isolation(false)]
fn ensure_root(db: &mut DatabaseIndex, name: &str)
    ensures
        db_model(final(db)@) == mdb_ensure_root(db_model(old(db)@), name@),
        db_has(final(db)@, name@),
        db_records(final(db)@, name@).len() > 0,
        forall|n: Seq<char>|
            n != name@ ==> db_has(final(db)@, n) == db_has(old(db)@, n) && (db_has(old(db)@, n)
                ==> db_records(final(db)@, n) == db_records(old(db)@, n)),
{
    let ghost m0 = db_model(old(db)@);
    proof {
        lemma_db_model_idx(old(db)@, name@);
        lemma_find_idx(old(db)@, name@, |e: (String, Vec<Value>)| e.0@);
        if db_has(old(db)@, name@) {
            crate::value::lemma_vview_seq_len(old(db)@[db_idx(old(db)@, name@)].1@);
        }
    }
    let present = match db_get(db, name) {
        Some(v) => v.len() > 0,
        None => false,
    };
    if !present {
        let key = name.to_owned();
        let fresh = one_empty_record();
        let ghost gk = key;
        let ghost gr = fresh;
        db_insert(db, key, fresh);
        proof {
            assert(gk@ == name@);
            let me = (name@, seq![SpecValue::Object(Seq::<(Seq<char>, SpecValue)>::empty())]);
            if db_has(old(db)@, gk@) {
                let idx = db_idx(old(db)@, gk@);
                assert(db@ == old(db)@.update(idx, (gk, gr)));
                assert(0 <= idx < old(db)@.len());
                assert(old(db)@.update(idx, (gk, gr)).len() == old(db)@.len());
                assert(db@.len() == old(db)@.len());
                assert(db@[idx].0@ == name@);
                assert(crate::value::vview_seq(db@[idx].1@) == me.1);
                assert forall|j: int|
                    0 <= j < db@.len() implies #[trigger] db_model(db@)[j] == m0.update(
                    idx,
                    me,
                )[j] by {
                    if j != idx {
                        assert(db@[j] == old(db)@[j]);
                    }
                }
                assert(db_model(db@) =~= m0.update(idx, me));
            } else {
                assert(db@[db@.len() - 1].0@ == name@);
                assert(crate::value::vview_seq(db@[db@.len() - 1].1@) == me.1);
                assert forall|j: int|
                    0 <= j < db@.len() implies #[trigger] db_model(db@)[j] == m0.push(me)[j] by {
                    if j < db@.len() - 1 {
                        assert(db@[j] == old(db)@[j]);
                    }
                }
                assert(db_model(db@) =~= m0.push(me));
            }
            assert(db_model(db@) =~= mdb_ensure_root(m0, name@));
            if db_has(old(db)@, gk@) {
                let idx = db_idx(old(db)@, gk@);
                assert forall|n: Seq<char>| #[trigger]
                    db_idx(db@, n) == db_idx(old(db)@, n) by {
                    lemma_find_idx_keys_eq(db@, old(db)@, n, |e: (String, Vec<Value>)| e.0@);
                }
                assert forall|n: Seq<char>|
                    n != name@ && db_has(old(db)@, n) implies db_records(db@, n) == db_records(
                    old(db)@,
                    n,
                ) by {
                    lemma_find_idx(old(db)@, n, |e: (String, Vec<Value>)| e.0@);
                    if db_idx(old(db)@, n) != idx {
                        assert(db@[db_idx(old(db)@, n)] == old(db)@[db_idx(old(db)@, n)]);
                    }
                }
                assert(db_records(db@, name@).len() > 0);
            } else {
                assert forall|n: Seq<char>| #[trigger]
                    db_has(db@, n) == (db_has(old(db)@, n) || n == gk@) by {
                    lemma_find_idx_push(old(db)@, n, |e: (String, Vec<Value>)| e.0@, (gk, gr));
                    lemma_find_idx(old(db)@, n, |e: (String, Vec<Value>)| e.0@);
                }
                assert forall|n: Seq<char>|
                    n != name@ && db_has(old(db)@, n) implies db_records(db@, n) == db_records(
                    old(db)@,
                    n,
                ) by {
                    lemma_find_idx_push(old(db)@, n, |e: (String, Vec<Value>)| e.0@, (gk, gr));
                    lemma_find_idx(old(db)@, n, |e: (String, Vec<Value>)| e.0@);
                    assert(db@[db_idx(old(db)@, n)] == old(db)@[db_idx(old(db)@, n)]);
                }
                assert(db_idx(db@, gk@) == old(db)@.len()) by {
                    lemma_find_idx_push(old(db)@, gk@, |e: (String, Vec<Value>)| e.0@, (gk, gr));
                }
                assert(db_records(db@, name@).len() > 0);
            }
        }
    } else {
        proof {
            assert(db_model(db@) =~~= mdb_ensure_root(m0, name@));
        }
    }
}

} // verus!

verus! {

/// Replacing a store entry replaces its model entry.
pub proof fn lemma_db_model_update(db: Seq<(String, Vec<Value>)>, i: int, e: (String, Vec<Value>))
    requires
        0 <= i < db.len(),
    ensures
        db_model(db.update(i, e)) == db_model(db).update(
            i,
            (e.0@, crate::value::vview_seq(e.1@)),
        ),
{
    assert(db_model(db.update(i, e)) =~= db_model(db).update(
        i,
        (e.0@, crate::value::vview_seq(e.1@)),
    ));
}

/// Appending a store entry appends its model entry.
pub proof fn lemma_db_model_push(db: Seq<(String, Vec<Value>)>, e: (String, Vec<Value>))
    ensures
        db_model(db.push(e)) == db_model(db).push((e.0@, crate::value::vview_seq(e.1@))),
{
    assert(db_model(db.push(e)) =~= db_model(db).push((e.0@, crate::value::vview_seq(e.1@))));
}

/// Merge a batch of stores into the record store, replacing clashing type
/// names, as `mdb_extend` states it.
#[verifier::loop_isolation(false)]
fn merge_database(db: &mut DatabaseIndex, add: DatabaseIndex)
    ensures
        db_model(final(db)@) == mdb_extend(db_model(old(db)@), db_model(add@)),
{
    let mut add = add;
    let ghost add0 = add@;
    proof {
        assert(db_model(add@).skip(0) =~= db_model(add@));
    }
    while add.len() > 0
        invariant
            mdb_extend(db_model(old(db)@), db_model(add0)) == mdb_extend(
                db_model(db@),
                db_model(add@),
            ),
        decreases add.len(),
    {
        let ghost dbp = db@;
        let ghost addp = add@;
        let e = add.remove(0);
        let ghost ge = e;
        db_insert(db, e.0, e.1);
        proof {
            let me = (ge.0@, crate::value::vview_seq(ge.1@));
            lemma_db_model_idx(dbp, ge.0@);
            lemma_find_idx(dbp, ge.0@, |x: (String, Vec<Value>)| x.0@);
            if db_has(dbp, ge.0@) {
                lemma_db_model_update(dbp, db_idx(dbp, ge.0@), ge);
            } else {
                lemma_db_model_push(dbp, ge);
            }
            assert(db_model(db@) =~= mdb_insert(db_model(dbp), me));
            assert(db_model(addp)[0] == me);
            assert(db_model(addp).subrange(1, db_model(addp).len() as int) =~= db_model(add@));
        }
    }
    proof {
        assert(db_model(add@).len() == 0);
    }
}

/// Append a batch of fields to an object type, in order.
#[verifier::loop_isolation(false)]
fn append_fields(q: &mut crate::structure::StructureType, extra: Vec<crate::structure::StructureField>)
    ensures
        final(q).fields@ == old(q).fields@ + extra@,
        final(q).name == old(q).name,
        final(q).description == old(q).description,
{
    let mut extra = extra;
    let ghost ex0 = extra@;
    while extra.len() > 0
        invariant
            q.name == old(q).name,
            q.description == old(q).description,
            extra@.len() <= ex0.len(),
            extra@ == ex0.skip(ex0.len() - extra@.len()),
            q.fields@ == old(q).fields@ + ex0.take(ex0.len() - extra@.len()),
        decreases extra.len(),
    {
        let ghost pre = extra@;
        let ghost k = ex0.len() - pre.len();
        let f = extra.remove(0);
        q.add_field(f);
        proof {
            assert(extra@ =~= pre.subrange(1, pre.len() as int));
            assert(extra@ =~= ex0.skip(k + 1));
            assert(ex0.take(k + 1) =~= ex0.take(k).push(ex0[k]));
            assert(q.fields@ =~= old(q).fields@ + ex0.take(k + 1));
        }
    }
    proof {
        assert(ex0.take(ex0.len() as int) =~= ex0);
        assert(q.fields@ =~= old(q).fields@ + ex0);
    }
}

/// Append a batch of object declarations to the catalog, in order.
#[verifier::loop_isolation(false)]
fn append_objects(schema: &mut crate::structure::StructureIndex, io: Vec<crate::structure::StructureType>)
    ensures
        final(schema).objects@ == old(schema).objects@ + io@,
        final(schema).enums@ == old(schema).enums@,
        final(schema).scalars@ == old(schema).scalars@,
        final(schema).name == old(schema).name,
{
    let mut io = io;
    let ghost io0 = io@;
    while io.len() > 0
        invariant
            schema.enums@ == old(schema).enums@,
            schema.scalars@ == old(schema).scalars@,
            schema.name == old(schema).name,
            io@.len() <= io0.len(),
            io@ == io0.skip(io0.len() - io@.len()),
            schema.objects@ == old(schema).objects@ + io0.take(io0.len() - io@.len()),
        decreases io.len(),
    {
        let ghost pre = io@;
        let ghost k = io0.len() - pre.len();
        let o = io.remove(0);
        schema.add_object(o);
        proof {
            assert(io@ =~= pre.subrange(1, pre.len() as int));
            assert(io@ =~= io0.skip(k + 1));
            assert(io0.take(k + 1) =~= io0.take(k).push(io0[k]));
            assert(schema.objects@ =~= old(schema).objects@ + io0.take(k + 1));
        }
    }
    proof {
        assert(io0.take(io0.len() as int) =~= io0);
        assert(schema.objects@ =~= old(schema).objects@ + io0);
    }
}

/// Append a batch of enum declarations to the catalog, in order.
#[verifier::loop_isolation(false)]
fn append_enums(schema: &mut crate::structure::StructureIndex, ie: Vec<crate::structure::StructureEnum>)
    ensures
        final(schema).enums@ == old(schema).enums@ + ie@,
        final(schema).objects@ == old(schema).objects@,
        final(schema).scalars@ == old(schema).scalars@,
        final(schema).name == old(schema).name,
{
    let mut ie = ie;
    let ghost ie0 = ie@;
    while ie.len() > 0
        invariant
            schema.objects@ == old(schema).objects@,
            schema.scalars@ == old(schema).scalars@,
            schema.name == old(schema).name,
            ie@.len() <= ie0.len(),
            ie@ == ie0.skip(ie0.len() - ie@.len()),
            schema.enums@ == old(schema).enums@ + ie0.take(ie0.len() - ie@.len()),
        decreases ie.len(),
    {
        let ghost pre = ie@;
        let ghost k = ie0.len() - pre.len();
        let e = ie.remove(0);
        schema.add_enum(e);
        proof {
            assert(ie@ =~= pre.subrange(1, pre.len() as int));
            assert(ie@ =~= ie0.skip(k + 1));
            assert(ie0.take(k + 1) =~= ie0.take(k).push(ie0[k]));
            assert(schema.enums@ =~= old(schema).enums@ + ie0.take(k + 1));
        }
    }
    proof {
        assert(ie0.take(ie0.len() as int) =~= ie0);
        assert(schema.enums@ =~= old(schema).enums@ + ie0);
    }
}

} // verus!

verus! {

impl QueryParser {
    /// Compile one dataset: synthesize and merge its introspection
    /// records, inject the `__schema` and per-type bulk-listing fields
    /// into the root Query object, append the meta-schema's declarations,
    /// guarantee the three root records, and build the identity index.
    /// Succeeds exactly when the catalog declares a Query object and the
    /// merged dataset builds cleanly (`dataset_builds`); fails otherwise,
    /// naming the first object whose index cannot be built.
    #[verifier::loop_isolation(false)]
    pub fn new(
        database: DatabaseIndex,
        schema: StructureIndex,
        instropection: StructureIndex,
    ) -> (r: Result<QueryParser, crate::indexing::BuildError>)
        ensures
            (r matches Err(e) && e is MissingQueryType) <==> !schema.has_object("Query"@),
            r is Ok <==> (schema.has_object("Query"@) && dataset_builds(
                schema,
                instropection,
                db_model(database@),
            )),
            r matches Err(e) ==> e is MissingQueryType || ({
                let m = final_db_model(db_model(database@), schema);
                let objs = schema.objects@ + instropection.objects@;
                let b = m_first_bad_obj(objs, m);
                let obj = objs[b];
                &&& 0 <= b < objs.len()
                &&& mobj_indexed(obj, m)
                &&& match e {
                    crate::indexing::BuildError::UnsupportedIdKind { object_name } => object_name@
                        == obj.name@ && !crate::indexing::id_kind_supported(
                        crate::indexing::id_kind_of(obj),
                    ),
                    crate::indexing::BuildError::IdMismatch { object_name, position } => {
                        let records = mdb_records(m, obj.name@);
                        &&& object_name@ == obj.name@
                        &&& crate::indexing::id_kind_supported(crate::indexing::id_kind_of(obj))
                        &&& (position as int) < records.len()
                        &&& mid_fails_at(crate::indexing::id_kind_of(obj), records, position as int)
                        &&& forall|j: int|
                            0 <= j < position as int ==> !mid_fails_at(
                                crate::indexing::id_kind_of(obj),
                                records,
                                j,
                            )
                    },
                    crate::indexing::BuildError::MissingQueryType => false,
                }
            }),
            r matches Ok(p) ==> ({
                let qi = schema.object_idx("Query"@);
                let q0 = schema.objects@[qi];
                let q = p.schema.objects@[qi];
                &&& p.wf()
                &&& p.is_canonical == (schema.name@ == "canonical"@)
                &&& p.schema.name == schema.name
                &&& p.schema.scalars@ == schema.scalars@
                &&& p.schema.enums@ == schema.enums@ + instropection.enums@
                &&& p.schema.objects@.len() == schema.objects@.len()
                    + instropection.objects@.len()
                &&& q.name == q0.name
                &&& q.description == q0.description
                &&& q.fields@.len() == q0.fields@.len() + 1 + schema.objects@.len()
                &&& q.fields@.subrange(0, q0.fields@.len() as int) == q0.fields@
                &&& injected_schema_field(q.fields@[q0.fields@.len() as int])
                &&& forall|j: int|
                    0 <= j < schema.objects@.len() ==> injected_values_field(
                        #[trigger] q.fields@[q0.fields@.len() + 1 + j],
                        schema.objects@[j].name@,
                    )
                &&& forall|i: int|
                    0 <= i < schema.objects@.len() && i != qi ==> #[trigger] p.schema.objects@[i]
                        == schema.objects@[i]
                &&& forall|j: int|
                    0 <= j < instropection.objects@.len() ==> #[trigger] p.schema.objects@[schema.objects@.len() + j]
                        == instropection.objects@[j]
                &&& db_model(p.database@) == final_db_model(db_model(database@), schema)
                &&& p.hashmaps@.len() == p.schema.objects@.len()
                &&& forall|i: int|
                    0 <= i < p.schema.objects@.len() ==> crate::indexing::hm_entry_models(
                        #[trigger] p.hashmaps@[i],
                        p.schema.objects@[i],
                        p.database@,
                    )
            }),
    {
        let mut schema = schema;
        let ghost schema0 = schema;
        let intros = crate::schema::build_schema_instropection(&schema, instropection);
        let crate::schema::InstropectionParser { schema: ischema, database: idb } = intros;
        let mut db = database;
        let ghost db0 = db@;
        proof {
            assert(db_model(idb@) =~~= intros_model(schema0));
        }
        merge_database(&mut db, idb);
        ensure_root(&mut db, "Query");
        ensure_root(&mut db, "Mutation");
        ensure_root(&mut db, "Subscription");
        proof {
            assert(db_model(db@) == final_db_model(db_model(db0), schema0));
        }
        let qi = match schema.find_object_mut("Query") {
            Some(i) => i,
            None => {
                return Err(crate::indexing::BuildError::MissingQueryType);
            },
        };
        proof {
            lemma_find_idx(schema.objects@, "Query"@, |t: crate::structure::StructureType| t.name@);
        }
        let mut qfields: Vec<crate::structure::StructureField> = Vec::new();
        let f0 = crate::structure::StructureField::from(
            "__schema".to_owned(),
            String::new(),
            "__Schema".to_owned(),
            false,
            Some(
                crate::structure::StructureDataResolver {
                    args: Vec::new(),
                    flags: Vec::new(),
                    kind: crate::structure::ResolverKind::AllReferences,
                },
            ),
        );
        qfields.push(f0);
        let mut v: usize = 0;
        while v < schema.objects.len()
            invariant
                v <= schema.objects.len(),
                qfields@.len() == v as int + 1,
                injected_schema_field(qfields@[0]),
                forall|j: int|
                    0 <= j < v as int ==> injected_values_field(
                        #[trigger] qfields@[j + 1],
                        schema.objects@[j].name@,
                    ),
            decreases schema.objects.len() - v,
        {
            let name = crate::text::concat2("values__of_", schema.objects[v].name.as_str());
            let f = crate::structure::StructureField::from(
                name,
                String::new(),
                schema.objects[v].name.clone(),
                true,
                Some(
                    crate::structure::StructureDataResolver {
                        args: Vec::new(),
                        flags: Vec::new(),
                        kind: crate::structure::ResolverKind::AllReferences,
                    },
                ),
            );
            qfields.push(f);
            v = v + 1;
        }
        let ghost base_objs = schema.objects@;
        let ghost qf0 = qfields@;
        let mut q = schema.objects.remove(qi);
        let ghost q0 = q;
        append_fields(&mut q, qfields);
        schema.objects.insert(qi, q);
        proof {
            assert(schema.objects@ =~= base_objs.update(qi as int, schema.objects@[qi as int]));
        }
        let crate::structure::StructureIndex { objects: io, enums: ie, .. } = ischema;
        append_objects(&mut schema, io);
        append_enums(&mut schema, ie);
        let ghost base = schema0.objects@;
        let ghost objs_model = base + instropection.objects@;
        proof {
            // Each object of the built catalog builds (against the merged
            // store) exactly as its pre-augmentation counterpart builds
            // against the store model: the injected Query fields never
            // touch the `id` declaration.
            reveal_strlit("id");
            reveal_strlit("__schema");
            reveal_strlit("values__of_");
            let fieldkeyf = |f: crate::structure::StructureField| f.name@;
            assert forall|j: int| 0 <= j < qf0.len() implies fieldkeyf(#[trigger] qf0[j])
                != "id"@ by {
                if j == 0 {
                    assert(injected_schema_field(qf0[0]));
                    assert(qf0[j].name@ == "__schema"@);
                    assert("__schema"@.len() != "id"@.len());
                } else {
                    let t = j - 1;
                    assert(injected_values_field(qf0[t + 1], schema0.objects@[t].name@));
                    assert(qf0[j].name@ == "values__of_"@ + schema0.objects@[t].name@);
                    assert(qf0[j].name@.len() >= 11);
                }
            }
            let gq = schema.objects@[qi as int];
            let gq0 = base[qi as int];
            lemma_find_idx_append_absent(gq0.fields@, qf0, "id"@, fieldkeyf);
            lemma_find_idx(gq0.fields@, "id"@, fieldkeyf);
            assert(gq.fields@ == gq0.fields@ + qf0);
            assert(gq.has_field("id"@) == gq0.has_field("id"@));
            if gq0.has_field("id"@) {
                assert(gq.fields@[gq0.field_idx("id"@)] == gq0.fields@[gq0.field_idx("id"@)]);
                assert(crate::indexing::id_kind_of(gq) == crate::indexing::id_kind_of(gq0));
            }
            lemma_obj_ok_same_id_profile(gq, gq0, db@);
            assert forall|i: int|
                0 <= i < schema.objects@.len() implies crate::indexing::obj_ok(
                #[trigger] schema.objects@[i],
                db@,
            ) == mobj_ok(objs_model[i], db_model(db@)) by {
                if i == qi as int {
                    lemma_obj_ok_model(gq0, db@);
                } else if i < base.len() {
                    assert(schema.objects@[i] == base[i]);
                    lemma_obj_ok_model(base[i], db@);
                } else {
                    assert(schema.objects@[i] == instropection.objects@[i - base.len()]);
                    lemma_obj_ok_model(instropection.objects@[i - base.len()], db@);
                }
            }
            assert(db_model(db@) == final_db_model(db_model(database@), schema0));
        }
        let hashmaps = match crate::indexing::build_hashmaps(&db, &schema) {
            Ok(h) => h,
            Err(e) => {
                proof {
                    let m = final_db_model(db_model(database@), schema0);
                    let b = crate::indexing::first_bad_obj(schema.objects@, db@);
                    lemma_m_first_bad_obj_agrees(schema.objects@, objs_model, db@);
                    assert(m_first_bad_obj(objs_model, db_model(db@)) == b);
                    let obj_aug = schema.objects@[b];
                    let obj_m = objs_model[b];
                    assert(obj_aug.name@ == obj_m.name@);
                    assert(!mobj_ok(obj_m, m));
                    if b < base.len() {
                        assert(!mobj_ok(schema0.objects@[b], m));
                    } else {
                        assert(!mobj_ok(instropection.objects@[b - base.len()], m));
                    }
                    assert(!dataset_builds(schema0, instropection, db_model(database@)));
                    lemma_obj_ok_model(obj_m, db@);
                    if b == qi as int {
                        let gq0 = base[qi as int];
                        assert(crate::indexing::obj_indexed(obj_aug, db@)
                            == crate::indexing::obj_indexed(gq0, db@));
                        if crate::indexing::obj_indexed(obj_aug, db@) {
                            assert(crate::indexing::id_kind_of(obj_aug)
                                == crate::indexing::id_kind_of(gq0));
                        }
                    }
                    assert(mobj_indexed(obj_m, m));
                }
                return Err(e);
            },
        };
        proof {
            assert forall|i: int|
                0 <= i < schema0.objects@.len() implies mobj_ok(
                #[trigger] schema0.objects@[i],
                final_db_model(db_model(database@), schema0),
            ) by {
                assert(objs_model[i] == schema0.objects@[i]);
                assert(crate::indexing::obj_ok(schema.objects@[i], db@));
                assert(mobj_ok(objs_model[i], db_model(db@)));
            }
            assert forall|j: int|
                0 <= j < instropection.objects@.len() implies mobj_ok(
                #[trigger] instropection.objects@[j],
                final_db_model(db_model(database@), schema0),
            ) by {
                assert(objs_model[base.len() + j] == instropection.objects@[j]);
                assert(crate::indexing::obj_ok(schema.objects@[base.len() + j], db@));
                assert(mobj_ok(objs_model[base.len() + j], db_model(db@)));
            }
            assert(dataset_builds(schema0, instropection, db_model(database@)));
        }
        let is_canonical = streq(schema.name.as_str(), "canonical");
        let p = QueryParser { schema, database: db, hashmaps, is_canonical };
        proof {
            reveal_strlit("Query");
            reveal_strlit("Mutation");
            reveal_strlit("Subscription");
            let gqi = schema0.object_idx("Query"@);
            let gq0 = schema0.objects@[gqi];
            let gq = p.schema.objects@[gqi];
            assert(gqi == qi as int);
            assert(p.wf());
            assert(p.schema.name == schema0.name);
            assert(p.schema.scalars@ == schema0.scalars@);
            assert(p.schema.enums@ == schema0.enums@ + instropection.enums@);
            assert(p.schema.objects@.len() == schema0.objects@.len()
                + instropection.objects@.len());
            assert(gq.name == gq0.name);
            assert(gq.description == gq0.description);
            assert(gq.fields@.len() == gq0.fields@.len() + 1 + schema0.objects@.len());
            assert(gq.fields@.subrange(0, gq0.fields@.len() as int) =~= gq0.fields@);
            assert(injected_schema_field(gq.fields@[gq0.fields@.len() as int]));
            assert forall|j: int|
                0 <= j < schema0.objects@.len() implies injected_values_field(
                #[trigger] gq.fields@[gq0.fields@.len() + 1 + j],
                schema0.objects@[j].name@,
            ) by {
                assert(gq.fields@[gq0.fields@.len() + 1 + j] == qf0[j + 1]);
            }
            assert(forall|i: int|
                0 <= i < schema0.objects@.len() && i != gqi ==> #[trigger] p.schema.objects@[i]
                    == schema0.objects@[i]);
            assert(forall|j: int|
                0 <= j < instropection.objects@.len()
                    ==> #[trigger] p.schema.objects@[schema0.objects@.len() + j]
                    == instropection.objects@[j]);
            assert(db_model(p.database@) == final_db_model(db_model(database@), schema0));
            assert(p.hashmaps@.len() == p.schema.objects@.len());
        }
        Ok(p)
    }
}

} // verus!
