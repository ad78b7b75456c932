//! The canonical cross-dataset view: synthetic records enumerating every
//! loaded dataset and its object types.

use vstd::prelude::*;

use crate::parsing::DatabaseIndex;
use crate::schema::member_id;
use crate::structure::{StructureIndex, StructureType};
use crate::value::{
    lemma_vview_entries_models, lemma_vview_seq_push, vview, vview_seq, SpecValue, Value,
};

verus! {

/// The record describing one loaded dataset.
pub open spec fn database_record(name: Seq<char>) -> SpecValue {
    SpecValue::Object(
        seq![
            ("id"@, SpecValue::Str(name)),
            ("name"@, SpecValue::Str(name)),
            ("types"@, SpecValue::Array(Seq::empty())),
            ("enums"@, SpecValue::Array(Seq::empty())),
        ],
    )
}

/// The record describing one object type of one dataset, under the id
/// `dataset.Type`.
pub open spec fn object_record(ds: Seq<char>, o: StructureType) -> SpecValue {
    SpecValue::Object(
        seq![
            ("id"@, SpecValue::Str(member_id(ds, o.name@))),
            ("name"@, SpecValue::Str(o.name@)),
            ("description"@, SpecValue::Str(o.description@)),
        ],
    )
}

/// The object records of one dataset, in catalog order.
pub open spec fn dataset_object_records(ds: Seq<char>, objs: Seq<StructureType>) -> Seq<SpecValue> {
    Seq::new(objs.len(), |i: int| object_record(ds, objs[i]))
}

/// The object records of every dataset, flattened in directory order.
pub open spec fn all_object_records(all: Seq<(String, StructureIndex)>) -> Seq<SpecValue>
    decreases all.len(),
{
    if all.len() <= 0 {
        Seq::empty()
    } else {
        all_object_records(all.drop_last()) + dataset_object_records(
            all.last().0@,
            all.last().1.objects@,
        )
    }
}

/// One dataset record per loaded dataset, in directory order.
pub open spec fn all_database_records(all: Seq<(String, StructureIndex)>) -> Seq<SpecValue> {
    Seq::new(all.len(), |i: int| database_record(all[i].0@))
}

/// What the canonical dataset's record store holds.
pub open spec fn canonical_db_models(
    db: Seq<(String, Vec<Value>)>,
    all: Seq<(String, StructureIndex)>,
) -> bool {
    &&& db.len() == 3
    &&& db[0].0@ == "Database"@ && vview_seq(db[0].1@) == all_database_records(all)
    &&& db[1].0@ == "Object"@ && vview_seq(db[1].1@) == all_object_records(all)
    &&& db[2].0@ == "Query"@ && vview_seq(db[2].1@) == seq![
        SpecValue::Object(seq![("databases"@, SpecValue::Array(Seq::empty()))]),
    ]
}

fn database_record_value(name: &str) -> (r: Value)
    ensures
        vview(r) == database_record(name@),
{
    let mut e: Vec<(String, Value)> = Vec::new();
    e.push(("id".to_owned(), Value::Str(name.to_owned())));
    e.push(("name".to_owned(), Value::Str(name.to_owned())));
    e.push(("types".to_owned(), Value::Array(Vec::new())));
    e.push(("enums".to_owned(), Value::Array(Vec::new())));
    let ghost ge = e@;
    let r = Value::Object(e);
    proof {
        assert(vview(ge[2].1) =~~= SpecValue::Array(Seq::<SpecValue>::empty()));
        assert(vview(ge[3].1) =~~= SpecValue::Array(Seq::<SpecValue>::empty()));
        lemma_vview_entries_models(
            ge,
            seq![
                ("id"@, SpecValue::Str(name@)),
                ("name"@, SpecValue::Str(name@)),
                ("types"@, SpecValue::Array(Seq::empty())),
                ("enums"@, SpecValue::Array(Seq::empty())),
            ],
        );
    }
    r
}

fn object_record_value(ds: &str, o: &StructureType) -> (r: Value)
    ensures
        vview(r) == object_record(ds@, *o),
{
    let mut e: Vec<(String, Value)> = Vec::new();
    e.push(("id".to_owned(), Value::Str(crate::text::concat3(ds, ".", o.name.as_str()))));
    e.push(("name".to_owned(), Value::Str(o.name.clone())));
    e.push(("description".to_owned(), Value::Str(o.description.clone())));
    let ghost ge = e@;
    let r = Value::Object(e);
    proof {
        lemma_vview_entries_models(
            ge,
            seq![
                ("id"@, SpecValue::Str(member_id(ds@, o.name@))),
                ("name"@, SpecValue::Str(o.name@)),
                ("description"@, SpecValue::Str(o.description@)),
            ],
        );
    }
    r
}

/// Synthesize the canonical dataset's records from the loaded datasets'
/// names and catalogs: one `Database` record per dataset, one `Object`
/// record per (dataset, object type) pair, and the singleton Query root.
#[verifier::loop_isolation(false)]
pub fn build_canonical_records(all: &Vec<(String, StructureIndex)>) -> (r: DatabaseIndex)
    ensures
        canonical_db_models(r@, all@),
{
    let mut databases: Vec<Value> = Vec::new();
    let mut objects: Vec<Value> = Vec::new();
    let mut i: usize = 0;
    while i < all.len()
        invariant
            i <= all.len(),
            vview_seq(databases@) == all_database_records(all@.take(i as int)),
            vview_seq(objects@) == all_object_records(all@.take(i as int)),
        decreases all.len() - i,
    {
        let ds = &all[i].0;
        let schema = &all[i].1;
        let mut v: usize = 0;
        while v < schema.objects.len()
            invariant
                v <= schema.objects.len(),
                vview_seq(objects@) == all_object_records(all@.take(i as int))
                    + dataset_object_records(ds@, schema.objects@).take(v as int),
            decreases schema.objects.len() - v,
        {
            let ghost prev = objects@;
            objects.push(object_record_value(ds.as_str(), &schema.objects[v]));
            proof {
                lemma_vview_seq_push(prev, objects@[objects@.len() - 1]);
                assert(vview_seq(objects@) =~= all_object_records(all@.take(i as int))
                    + dataset_object_records(ds@, schema.objects@).take(v as int + 1));
            }
            v = v + 1;
        }
        let ghost prevd = databases@;
        databases.push(database_record_value(ds.as_str()));
        proof {
            lemma_vview_seq_push(prevd, databases@[databases@.len() - 1]);
            let t1 = all@.take(i as int + 1);
            assert(t1.drop_last() =~= all@.take(i as int));
            assert(vview_seq(databases@) =~= all_database_records(t1));
            assert(dataset_object_records(ds@, schema.objects@).take(
                schema.objects@.len() as int,
            ) =~= dataset_object_records(t1.last().0@, t1.last().1.objects@));
            assert(vview_seq(objects@) =~= all_object_records(t1));
        }
        i = i + 1;
    }
    proof {
        assert(all@.take(all@.len() as int) =~= all@);
    }
    let mut qe: Vec<(String, Value)> = Vec::new();
    qe.push(("databases".to_owned(), Value::Array(Vec::new())));
    let ghost gqe = qe@;
    let qrec = Value::Object(qe);
    proof {
        assert(vview(gqe[0].1) =~~= SpecValue::Array(Seq::<SpecValue>::empty()));
        lemma_vview_entries_models(
            gqe,
            seq![("databases"@, SpecValue::Array(Seq::<SpecValue>::empty()))],
        );
    }
    let mut qstore: Vec<Value> = Vec::new();
    let ghost prevq = qstore@;
    qstore.push(qrec);
    proof {
        lemma_vview_seq_push(prevq, qstore@[0]);
        assert(vview_seq(prevq) =~= Seq::<SpecValue>::empty());
        assert(vview_seq(qstore@) =~= seq![
            SpecValue::Object(seq![("databases"@, SpecValue::Array(Seq::empty()))]),
        ]);
    }
    let mut db: DatabaseIndex = Vec::new();
    db.push(("Database".to_owned(), databases));
    db.push(("Object".to_owned(), objects));
    db.push(("Query".to_owned(), qstore));
    db
}

} // verus!
