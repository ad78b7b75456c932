//! The engine's cross-cutting guarantees, each stated and proved over the
//! models that the components' own contracts use.

use vstd::prelude::*;

use crate::indexing::{
    hm_entry_models, id_kind_of, ids_i32_of, ids_str_of, ids_u64_of, index_models,
    lemma_positions_of_occurrence, mapped_positions, obj_indexed, positions_of, FieldHashmaps,
};
use crate::parsing::{
    db_has, db_records, is_builtin_scalar, obj_insert, obj_merge, spec_resolve_id,
    spec_resolve_id_elems, spec_resolve_single, spec_traverse, Document, QueryParser,
    SelectionSet,
};
use crate::resolver::spec_all_references;
use crate::search::{find_idx, lemma_find_idx, lemma_find_idx_is_first};
use crate::structure::{StructureDataKind, StructureType};
use crate::value::{
    lemma_spec_prop_entries_first, spec_prop, spec_prop_entries, vview, SpecValue, Value,
};

verus! {

/// For every id-indexed object type and every record, looking the identity
/// index up by that record's id finds a position list containing the
/// record's own position.
pub proof fn lemma_identity_index_complete(
    entry: (String, Option<Vec<(String, FieldHashmaps)>>),
    obj: StructureType,
    db: Seq<(String, Vec<Value>)>,
    i: int,
)
    requires
        hm_entry_models(entry, obj, db),
        obj_indexed(obj, db),
        0 <= i < db_records(db, obj.name@).len(),
    ensures
        ({
            let records = db_records(db, obj.name@);
            &&& entry.1 matches Some(inner) && match inner@[0].1 {
                FieldHashmaps::Str(m) => {
                    let key = ids_str_of(records)[i];
                    let fi = find_idx(m@, key, |e: (String, Vec<usize>)| e.0@);
                    &&& fi < m@.len()
                    &&& mapped_positions(m@[fi].1@).contains(i)
                },
                FieldHashmaps::I32(m) => {
                    let key = ids_i32_of(records)[i];
                    let fi = find_idx(m@, key, |e: (i32, Vec<usize>)| e.0);
                    &&& fi < m@.len()
                    &&& mapped_positions(m@[fi].1@).contains(i)
                },
                FieldHashmaps::U64(m) => {
                    let key = ids_u64_of(records)[i];
                    let fi = find_idx(m@, key, |e: (u64, Vec<usize>)| e.0);
                    &&& fi < m@.len()
                    &&& mapped_positions(m@[fi].1@).contains(i)
                },
                FieldHashmaps::Null => false,
            }
        }),
{
    let records = db_records(db, obj.name@);
    match id_kind_of(obj) {
        StructureDataKind::Str => {
            let inner = choose|inner: Vec<(String, FieldHashmaps)>| entry.1 == Some(inner);
            match inner@[0].1 {
                FieldHashmaps::Str(m) => {
                    let keys = ids_str_of(records);
                    lemma_positions_of_occurrence(keys, keys[i], i);
                },
                _ => {},
            }
        },
        StructureDataKind::I32 => {
            let inner = choose|inner: Vec<(String, FieldHashmaps)>| entry.1 == Some(inner);
            match inner@[0].1 {
                FieldHashmaps::I32(m) => {
                    let keys = ids_i32_of(records);
                    lemma_positions_of_occurrence(keys, keys[i], i);
                },
                _ => {},
            }
        },
        StructureDataKind::U64 => {
            let inner = choose|inner: Vec<(String, FieldHashmaps)>| entry.1 == Some(inner);
            match inner@[0].1 {
                FieldHashmaps::U64(m) => {
                    let keys = ids_u64_of(records);
                    lemma_positions_of_occurrence(keys, keys[i], i);
                },
                _ => {},
            }
        },
        _ => {},
    }
}

/// The reference resolver is the identity on built-in scalar targets, for
/// every non-array input (null elements of an array input are dropped, so
/// an array such as `[null]` comes back shorter, not unchanged).
pub proof fn lemma_reference_resolver_scalar_identity(
    p: QueryParser,
    v: SpecValue,
    cls: Seq<char>,
)
    requires
        is_builtin_scalar(cls),
        !(v is Array),
    ensures
        spec_resolve_id(p, v, cls) == v,
{
}

/// A missing id resolves to null in singular context: when the target's
/// string index carries no occurrence of the id, the lookup yields null.
pub proof fn lemma_missing_id_resolves_null(
    p: QueryParser,
    s: Seq<char>,
    cls: Seq<char>,
    m: Vec<(String, Vec<usize>)>,
    keys: Seq<Seq<char>>,
)
    requires
        ({
            let hmi = find_idx(
                p.hashmaps@,
                cls,
                |e: (String, Option<Vec<(String, FieldHashmaps)>>)| e.0@,
            );
            &&& hmi < p.hashmaps@.len()
            &&& p.hashmaps@[hmi].1 matches Some(inner) && inner@.len() == 1 && inner@[0].0@
                == "id"@ && inner@[0].1 == FieldHashmaps::Str(m)
        }),
        index_models(m@, keys, |e: (String, Vec<usize>)| e.0@, |e: (String, Vec<usize>)| e.1@),
        positions_of(keys, s).len() == 0,
    ensures
        spec_resolve_single(p, SpecValue::Str(s), cls) == SpecValue::Null,
{
    let hmi = find_idx(
        p.hashmaps@,
        cls,
        |e: (String, Option<Vec<(String, FieldHashmaps)>>)| e.0@,
    );
    let inner = choose|inner: Vec<(String, FieldHashmaps)>|
        p.hashmaps@[hmi].1 == Some(inner) && inner@.len() == 1 && inner@[0].0@ == "id"@
            && inner@[0].1 == FieldHashmaps::Str(m);
    lemma_find_idx_is_first(inner@, "id"@, |e: (String, FieldHashmaps)| e.0@, 0);
    lemma_find_idx(m@, s, |e: (String, Vec<usize>)| e.0@);
}

/// A failed lookup contributes nothing in array context: the element-wise
/// expansion of an id array never contains null elements.
pub proof fn lemma_resolve_id_elems_no_nulls(p: QueryParser, arr: Seq<SpecValue>, cls: Seq<char>)
    ensures
        forall|t: int|
            0 <= t < spec_resolve_id_elems(p, arr, cls).len() ==> !((
            #[trigger] spec_resolve_id_elems(p, arr, cls)[t]) is Null),
    decreases arr.len(),
{
    if arr.len() > 0 {
        lemma_resolve_id_elems_no_nulls(p, arr.subrange(1, arr.len() as int), cls);
    }
}

/// Enum-typed leaves come back unchanged, whatever sub-selection the
/// request put under them.
pub proof fn lemma_enum_leaf_unchanged(
    p: QueryParser,
    doc: Document,
    parent: SpecValue,
    sel: SelectionSet,
    info: Seq<char>,
    fuel: nat,
)
    requires
        !(parent is Array),
        !is_builtin_scalar(info),
        !p.schema.has_object(info),
        p.schema.has_enum(info),
    ensures
        spec_traverse(p, doc, parent, sel, info, fuel) == parent,
{
}

/// Storing under a key overwrites that key's value in place and leaves
/// every other key's value alone.
pub proof fn lemma_obj_insert_overwrites(
    entries: Seq<(Seq<char>, SpecValue)>,
    key: Seq<char>,
    v: SpecValue,
    k2: Seq<char>,
)
    ensures
        spec_prop_entries(obj_insert(entries, key, v), key) == v,
        k2 != key ==> spec_prop_entries(obj_insert(entries, key, v), k2) == spec_prop_entries(
            entries,
            k2,
        ),
{
    let keyf = |e: (Seq<char>, SpecValue)| e.0;
    lemma_find_idx(entries, key, keyf);
    let fi = find_idx(entries, key, keyf);
    let out = obj_insert(entries, key, v);
    if fi < entries.len() {
        assert forall|j: int| 0 <= j < fi implies (#[trigger] out[j]).0 != key by {
            assert(out[j] == entries[j]);
        }
        lemma_spec_prop_entries_first(out, key, fi);
    } else {
        assert forall|j: int| 0 <= j < entries.len() implies (#[trigger] out[j]).0 != key by {
            assert(out[j] == entries[j]);
        }
        lemma_spec_prop_entries_first(out, key, entries.len() as int);
    }
    if k2 != key {
        lemma_find_idx(entries, k2, keyf);
        let j2 = find_idx(entries, k2, keyf);
        lemma_spec_prop_entries_first(entries, k2, j2);
        if j2 < entries.len() {
            assert(out[j2] == entries[j2]);
            assert forall|j: int| 0 <= j < j2 implies (#[trigger] out[j]).0 != k2 by {
                if fi < entries.len() && j == fi {
                    assert(out[j].0 == key);
                } else {
                    assert(out[j] == entries[j]);
                }
            }
            lemma_spec_prop_entries_first(out, k2, j2);
        } else {
            assert forall|j: int| 0 <= j < out.len() implies (#[trigger] out[j]).0 != k2 by {
                if fi < entries.len() {
                    if j == fi {
                        assert(out[j].0 == key);
                    } else {
                        assert(out[j] == entries[j]);
                    }
                } else {
                    if j < entries.len() {
                        assert(out[j] == entries[j]);
                    } else {
                        assert(out[j].0 == key);
                    }
                }
            }
            lemma_spec_prop_entries_first(out, k2, out.len() as int);
        }
    }
}

/// Merging entries whose keys all differ from `k` leaves `k`'s value
/// alone.
pub proof fn lemma_obj_merge_preserves(
    acc: Seq<(Seq<char>, SpecValue)>,
    es: Seq<(Seq<char>, SpecValue)>,
    k: Seq<char>,
)
    requires
        forall|j: int| 0 <= j < es.len() ==> (#[trigger] es[j]).0 != k,
    ensures
        spec_prop_entries(obj_merge(acc, es), k) == spec_prop_entries(acc, k),
    decreases es.len(),
{
    if es.len() > 0 {
        let t = es.subrange(1, es.len() as int);
        assert(forall|j: int| 0 <= j < t.len() ==> #[trigger] t[j] == es[j + 1]);
        lemma_obj_insert_overwrites(acc, es[0].0, es[0].1, k);
        lemma_obj_merge_preserves(obj_insert(acc, es[0].0, es[0].1), t, k);
    }
}

/// Fragment-spread merges are last-write-wins by selection order: after
/// merging, a key collided on carries the value of its last entry.
pub proof fn lemma_obj_merge_last_write_wins(
    acc: Seq<(Seq<char>, SpecValue)>,
    es: Seq<(Seq<char>, SpecValue)>,
    k: Seq<char>,
    i: int,
)
    requires
        0 <= i < es.len(),
        es[i].0 == k,
        forall|j: int| i < j < es.len() ==> (#[trigger] es[j]).0 != k,
    ensures
        spec_prop_entries(obj_merge(acc, es), k) == es[i].1,
    decreases es.len(),
{
    let t = es.subrange(1, es.len() as int);
    assert(forall|j: int| 0 <= j < t.len() ==> #[trigger] t[j] == es[j + 1]);
    let acc2 = obj_insert(acc, es[0].0, es[0].1);
    if i == 0 {
        lemma_obj_insert_overwrites(acc, es[0].0, es[0].1, k);
        lemma_obj_merge_preserves(acc2, t, k);
    } else {
        lemma_obj_merge_last_write_wins(acc2, t, k, i - 1);
    }
}

/// A bulk listing returns exactly the target type's current id list in
/// store order; a non-array field gets the first record's id.
pub proof fn lemma_all_references_exact(
    db: Seq<(String, Vec<Value>)>,
    info: crate::structure::StructureField,
)
    requires
        db_has(db, info.return_type.name@),
    ensures
        info.return_type.is_array ==> spec_all_references(db, info) == SpecValue::Array(
            Seq::new(
                db_records(db, info.return_type.name@).len(),
                |i: int| spec_prop(vview(db_records(db, info.return_type.name@)[i]), "id"@),
            ),
        ),
        !info.return_type.is_array && db_records(db, info.return_type.name@).len() > 0
            ==> spec_all_references(db, info) == spec_prop(
            vview(db_records(db, info.return_type.name@)[0]),
            "id"@,
        ),
{
}

} // verus!

verus! {

/// The kind tag the type meta-record at position `i` must carry:
/// declared scalars, then objects, then enums, then the built-in scalars.
pub open spec fn type_kind_tag_at(doc: crate::structure::StructureIndex, i: int) -> Seq<char> {
    if i < doc.scalars@.len() {
        "SCALAR"@
    } else if i < doc.scalars@.len() + doc.objects@.len() {
        "OBJECT"@
    } else if i < doc.scalars@.len() + doc.objects@.len() + doc.enums@.len() {
        "ENUM"@
    } else {
        "SCALAR"@
    }
}

proof fn lemma_type_record_props(e: Seq<(Seq<char>, SpecValue)>, id: SpecValue, kind: Seq<char>)
    requires
        e.len() >= 3,
        e[0] == ("id"@, id),
        e[1].0 == "name"@ && e[1].1 == id,
        e[2] == ("kind"@, SpecValue::Str(kind)),
    ensures
        spec_prop_entries(e, "id"@) == id,
        spec_prop_entries(e, "name"@) == id,
        spec_prop_entries(e, "kind"@) == SpecValue::Str(kind),
{
    reveal_strlit("id");
    reveal_strlit("name");
    reveal_strlit("kind");
    assert("id"@.len() == 2);
    assert("name"@.len() == 4);
    assert("kind"@.len() == 4);
    assert("name"@[0] == 'n' && "kind"@[0] == 'k');
    assert("name"@ != "kind"@);
    lemma_spec_prop_entries_first(e, "id"@, 0);
    lemma_spec_prop_entries_first(e, "name"@, 1);
    lemma_spec_prop_entries_first(e, "kind"@, 2);
}

/// The introspection dataset is complete and exact: the `__Schema`
/// record's type list holds one id per declared scalar, object and enum,
/// in catalog order, followed by the five built-in scalars; and the
/// `__Type` record at each position carries that very name, both as its
/// id and name properties, together with its kind tag (SCALAR, OBJECT or
/// ENUM).
pub proof fn lemma_introspection_types_complete(doc: crate::structure::StructureIndex)
    ensures
        crate::schema::type_ids(doc).len() == doc.scalars@.len() + doc.objects@.len()
            + doc.enums@.len() + 5,
        crate::schema::type_records(doc).len() == crate::schema::type_ids(doc).len(),
        spec_prop(crate::schema::schema_record(doc), "types"@) == SpecValue::Array(
            crate::schema::type_ids(doc),
        ),
        forall|i: int|
            0 <= i < doc.scalars@.len() ==> #[trigger] crate::schema::type_ids(doc)[i]
                == SpecValue::Str(doc.scalars@[i].name@),
        forall|i: int|
            0 <= i < doc.objects@.len() ==> #[trigger] crate::schema::type_ids(doc)[doc.scalars@.len() + i]
                == SpecValue::Str(doc.objects@[i].name@),
        forall|i: int|
            0 <= i < doc.enums@.len() ==> #[trigger] crate::schema::type_ids(doc)[doc.scalars@.len()
                + doc.objects@.len() + i] == SpecValue::Str(doc.enums@[i].name@),
        forall|k: int|
            0 <= k < 5 ==> #[trigger] crate::schema::type_ids(doc)[doc.scalars@.len()
                + doc.objects@.len() + doc.enums@.len() + k] == SpecValue::Str(
                seq!["ID"@, "Float"@, "Int"@, "String"@, "Boolean"@][k],
            ),
        forall|i: int|
            0 <= i < crate::schema::type_records(doc).len() ==> ({
                let r = #[trigger] crate::schema::type_records(doc)[i];
                &&& spec_prop(r, "id"@) == crate::schema::type_ids(doc)[i]
                &&& spec_prop(r, "name"@) == crate::schema::type_ids(doc)[i]
                &&& spec_prop(r, "kind"@) == SpecValue::Str(type_kind_tag_at(doc, i))
            }),
{
    let ns = doc.scalars@.len() as int;
    let no = doc.objects@.len() as int;
    let ne = doc.enums@.len() as int;
    let ids = crate::schema::type_ids(doc);
    let recs = crate::schema::type_records(doc);
    let builtins = seq!["ID"@, "Float"@, "Int"@, "String"@, "Boolean"@];
    reveal_strlit("id");
    reveal_strlit("queryType");
    reveal_strlit("types");
    assert("id"@.len() == 2);
    assert("queryType"@.len() == 9);
    assert("types"@.len() == 5);
    let se = crate::schema::schema_record(doc)->Object_0;
    lemma_spec_prop_entries_first(se, "types"@, 2);
    assert forall|i: int|
        0 <= i < recs.len() implies ({
            let r = #[trigger] recs[i];
            &&& spec_prop(r, "id"@) == ids[i]
            &&& spec_prop(r, "name"@) == ids[i]
            &&& spec_prop(r, "kind"@) == SpecValue::Str(type_kind_tag_at(doc, i))
        }) by {
        if i < ns {
            let sdef = doc.scalars@[i];
            assert(recs[i] == crate::schema::scalar_type_record(sdef));
            assert(ids[i] == SpecValue::Str(sdef.name@));
            lemma_type_record_props(
                crate::schema::scalar_type_record(sdef)->Object_0,
                SpecValue::Str(sdef.name@),
                "SCALAR"@,
            );
        } else if i < ns + no {
            let odef = doc.objects@[i - ns];
            assert(recs[i] == crate::schema::object_type_record(odef));
            assert(ids[i] == SpecValue::Str(odef.name@));
            lemma_type_record_props(
                crate::schema::object_type_record(odef)->Object_0,
                SpecValue::Str(odef.name@),
                "OBJECT"@,
            );
        } else if i < ns + no + ne {
            let edef = doc.enums@[i - ns - no];
            assert(recs[i] == crate::schema::enum_type_record(edef));
            assert(ids[i] == SpecValue::Str(edef.name@));
            lemma_type_record_props(
                crate::schema::enum_type_record(edef)->Object_0,
                SpecValue::Str(edef.name@),
                "ENUM"@,
            );
        } else {
            let bname = builtins[i - ns - no - ne];
            assert(recs[i] == crate::schema::builtin_type_record(bname));
            assert(ids[i] == SpecValue::Str(bname));
            lemma_type_record_props(
                crate::schema::builtin_type_record(bname)->Object_0,
                SpecValue::Str(bname),
                "SCALAR"@,
            );
        }
    }
}

} // verus!

verus! {

/// Merging the introspection stores and guaranteeing the roots never
/// disturbs them: the store model every dataset is loaded with still
/// carries the four meta-type stores exactly. Together with
/// `lemma_introspection_types_complete` and `QueryParser::new`'s store
/// ensures, every loaded dataset's `__Type` store lists each declared
/// type and the five built-in scalars, once each.
pub proof fn lemma_loaded_store_keeps_introspection(
    dbm: Seq<(Seq<char>, Seq<SpecValue>)>,
    doc: crate::structure::StructureIndex,
)
    ensures
        ({
            let f = crate::parsing::final_db_model(dbm, doc);
            &&& crate::parsing::mdb_has(f, "__Schema"@) && crate::parsing::mdb_records(
                f,
                "__Schema"@,
            ) == seq![crate::schema::schema_record(doc)]
            &&& crate::parsing::mdb_has(f, "__Type"@) && crate::parsing::mdb_records(f, "__Type"@)
                == crate::schema::type_records(doc)
            &&& crate::parsing::mdb_has(f, "__Field"@) && crate::parsing::mdb_records(
                f,
                "__Field"@,
            ) == crate::schema::all_field_records(doc.objects@)
            &&& crate::parsing::mdb_has(f, "__EnumValue"@) && crate::parsing::mdb_records(
                f,
                "__EnumValue"@,
            ) == crate::schema::all_enum_value_records(doc.enums@)
        }),
{
    reveal_strlit("__Schema");
    reveal_strlit("__Type");
    reveal_strlit("__Field");
    reveal_strlit("__EnumValue");
    reveal_strlit("Query");
    reveal_strlit("Mutation");
    reveal_strlit("Subscription");
    assert("__Schema"@.len() == 8 && "__Type"@.len() == 6 && "__Field"@.len() == 7
        && "__EnumValue"@.len() == 11);
    assert("Query"@.len() == 5 && "Mutation"@.len() == 8 && "Subscription"@.len() == 12);
    assert("__Schema"@[0] == '_' && "Mutation"@[0] == 'M');
    assert("__Schema"@ != "Mutation"@);
    let im = crate::parsing::intros_model(doc);
    let t1 = im.subrange(1, im.len() as int);
    let t2 = t1.subrange(1, t1.len() as int);
    let t3 = t2.subrange(1, t2.len() as int);
    let t4 = t3.subrange(1, t3.len() as int);
    let m1 = crate::parsing::mdb_insert(dbm, im[0]);
    let m2 = crate::parsing::mdb_insert(m1, im[1]);
    let m3 = crate::parsing::mdb_insert(m2, im[2]);
    let m4 = crate::parsing::mdb_insert(m3, im[3]);
    assert(t1[0] == im[1] && t2[0] == im[2] && t3[0] == im[3]);
    assert(t4.len() == 0);
    assert(crate::parsing::mdb_extend(dbm, im) == crate::parsing::mdb_extend(m1, t1));
    assert(crate::parsing::mdb_extend(m1, t1) == crate::parsing::mdb_extend(m2, t2));
    assert(crate::parsing::mdb_extend(m2, t2) == crate::parsing::mdb_extend(m3, t3));
    assert(crate::parsing::mdb_extend(m3, t3) == crate::parsing::mdb_extend(m4, t4));
    assert(crate::parsing::mdb_extend(m4, t4) == m4);

    crate::parsing::lemma_mdb_insert_found(dbm, im[0]);
    crate::parsing::lemma_mdb_insert_other(m1, im[1], "__Schema"@);
    crate::parsing::lemma_mdb_insert_other(m2, im[2], "__Schema"@);
    crate::parsing::lemma_mdb_insert_other(m3, im[3], "__Schema"@);

    crate::parsing::lemma_mdb_insert_found(m1, im[1]);
    crate::parsing::lemma_mdb_insert_other(m2, im[2], "__Type"@);
    crate::parsing::lemma_mdb_insert_other(m3, im[3], "__Type"@);

    crate::parsing::lemma_mdb_insert_found(m2, im[2]);
    crate::parsing::lemma_mdb_insert_other(m3, im[3], "__Field"@);

    crate::parsing::lemma_mdb_insert_found(m3, im[3]);

    let r1 = crate::parsing::mdb_ensure_root(m4, "Query"@);
    let r2 = crate::parsing::mdb_ensure_root(r1, "Mutation"@);
    crate::parsing::lemma_mdb_ensure_root_other(m4, "Query"@, "__Schema"@);
    crate::parsing::lemma_mdb_ensure_root_other(m4, "Query"@, "__Type"@);
    crate::parsing::lemma_mdb_ensure_root_other(m4, "Query"@, "__Field"@);
    crate::parsing::lemma_mdb_ensure_root_other(m4, "Query"@, "__EnumValue"@);
    crate::parsing::lemma_mdb_ensure_root_other(r1, "Mutation"@, "__Schema"@);
    crate::parsing::lemma_mdb_ensure_root_other(r1, "Mutation"@, "__Type"@);
    crate::parsing::lemma_mdb_ensure_root_other(r1, "Mutation"@, "__Field"@);
    crate::parsing::lemma_mdb_ensure_root_other(r1, "Mutation"@, "__EnumValue"@);
    crate::parsing::lemma_mdb_ensure_root_other(r2, "Subscription"@, "__Schema"@);
    crate::parsing::lemma_mdb_ensure_root_other(r2, "Subscription"@, "__Type"@);
    crate::parsing::lemma_mdb_ensure_root_other(r2, "Subscription"@, "__Field"@);
    crate::parsing::lemma_mdb_ensure_root_other(r2, "Subscription"@, "__EnumValue"@);
}

} // verus!
