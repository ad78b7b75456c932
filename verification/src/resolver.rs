//! Resolver dispatch: produce a field's raw value from a parent record,
//! by the field's resolution strategy.

use vstd::prelude::*;

use crate::parsing::{db_has, db_idx, db_records, QueryParser};
use crate::structure::{ResolverKind, StructureField};
use crate::value::{
    lemma_vview_seq_index, lemma_vview_seq_models, spec_prop, vview, vview_seq, SpecValue, Value,
};

verus! {

/// The (name, value) arguments a field was requested with. The reference
/// behaviour accepts them but never substitutes them.
pub type ResolverArgs = Vec<(String, Value)>;

/// What resolution sees: the dataset's parser.
pub struct ResolverContext<'a> {
    pub parser: &'a QueryParser,
}

/// Plain data resolution: the parent's property of the field's name; a
/// stored single-element array unwraps to its element when the field is
/// declared non-array (an empty one degrades to null); a missing property
/// is null.
pub open spec fn spec_data_resolver(parent: SpecValue, info: StructureField) -> SpecValue {
    let p = spec_prop(parent, info.name@);
    match p {
        SpecValue::Array(arr) => if !info.return_type.is_array {
            if arr.len() > 0 {
                arr[0]
            } else {
                SpecValue::Null
            }
        } else {
            p
        },
        _ => p,
    }
}

/// Bulk reference listing: the id of every record currently stored under
/// the field's declared type, in store order; a non-array field gets the
/// first record's id. A type with no store entry, or a non-array field of
/// an empty store, degrades to null.
pub open spec fn spec_all_references(db: Seq<(String, Vec<Value>)>, info: StructureField) -> SpecValue {
    let tname = info.return_type.name@;
    if !db_has(db, tname) {
        SpecValue::Null
    } else {
        let records = db_records(db, tname);
        if !info.return_type.is_array {
            if records.len() > 0 {
                spec_prop(vview(records[0]), "id"@)
            } else {
                SpecValue::Null
            }
        } else {
            SpecValue::Array(Seq::new(records.len(), |i: int| spec_prop(vview(records[i]), "id"@)))
        }
    }
}

/// Dispatch: mutation strategies are unimplemented stubs that resolve to
/// null; bulk listings read the store; everything else (an explicit Data
/// strategy, or no strategy at all) reads the parent record.
pub open spec fn spec_resolve(db: Seq<(String, Vec<Value>)>, parent: SpecValue, info: StructureField) -> SpecValue {
    match info.data_type.resolver {
        Some(v) => match v.kind {
            ResolverKind::Create => SpecValue::Null,
            ResolverKind::Update => SpecValue::Null,
            ResolverKind::Delete => SpecValue::Null,
            ResolverKind::Substitution => SpecValue::Null,
            ResolverKind::AllReferences => spec_all_references(db, info),
            ResolverKind::Data => spec_data_resolver(parent, info),
        },
        Option::None => spec_data_resolver(parent, info),
    }
}

fn data_resolver(
    parent: &Value,
    _args: &ResolverArgs,
    _context: &ResolverContext,
    info: &StructureField,
) -> (r: Value)
    ensures
        vview(r) == spec_data_resolver(vview(*parent), *info),
{
    match crate::value::prop_of(parent, info.name.as_str()) {
        Some(v) => match v {
            Value::Array(arr) => {
                if !info.return_type.is_array {
                    if arr.len() > 0 {
                        proof {
                            lemma_vview_seq_index(arr@, 0);
                        }
                        arr[0].clone()
                    } else {
                        proof {
                            crate::value::lemma_vview_seq_len(arr@);
                        }
                        Value::Null
                    }
                } else {
                    v.clone()
                }
            },
            _ => v.clone(),
        },
        None => Value::Null,
    }
}

#[verifier::loop_isolation(false)]
fn all_references_resolver(
    _parent: &Value,
    _args: &ResolverArgs,
    context: &ResolverContext,
    info: &StructureField,
) -> (r: Value)
    ensures
        vview(r) == spec_all_references(context.parser.database@, *info),
{
    let records = match crate::parsing::db_get(&context.parser.database, info.return_type.name.as_str()) {
        Some(v) => v,
        None => {
            return Value::Null;
        },
    };
    if !info.return_type.is_array {
        if records.len() > 0 {
            match crate::value::prop_of(&records[0], "id") {
                Some(v) => v.clone(),
                None => Value::Null,
            }
        } else {
            Value::Null
        }
    } else {
        let mut ids: Vec<Value> = Vec::new();
        let mut i: usize = 0;
        while i < records.len()
            invariant
                i <= records.len(),
                ids@.len() == i as int,
                forall|j: int|
                    0 <= j < i as int ==> #[trigger] vview(ids@[j]) == spec_prop(
                        vview(records@[j]),
                        "id"@,
                    ),
            decreases records.len() - i,
        {
            match crate::value::prop_of(&records[i], "id") {
                Some(v) => ids.push(v.clone()),
                None => ids.push(Value::Null),
            }
            i = i + 1;
        }
        let ghost gids = ids@;
        let r = Value::Array(ids);
        proof {
            lemma_vview_seq_models(
                gids,
                Seq::new(records@.len(), |i: int| spec_prop(vview(records@[i]), "id"@)),
            );
        }
        r
    }
}

fn subtitution_resolver(
    _parent: &Value,
    _args: &ResolverArgs,
    _context: &ResolverContext,
    _info: &StructureField,
) -> (r: Value)
    ensures
        vview(r) == SpecValue::Null,
{
    Value::Null
}

fn create_resolver(
    _parent: &Value,
    _args: &ResolverArgs,
    _context: &ResolverContext,
    _info: &StructureField,
) -> (r: Value)
    ensures
        vview(r) == SpecValue::Null,
{
    Value::Null
}

fn update_resolver(
    _parent: &Value,
    _args: &ResolverArgs,
    _context: &ResolverContext,
    _info: &StructureField,
) -> (r: Value)
    ensures
        vview(r) == SpecValue::Null,
{
    Value::Null
}

fn delete_resolver(
    _parent: &Value,
    _args: &ResolverArgs,
    _context: &ResolverContext,
    _info: &StructureField,
) -> (r: Value)
    ensures
        vview(r) == SpecValue::Null,
{
    Value::Null
}

/// Produce a field's raw value from a parent record, as `spec_resolve`
/// states it for the field's strategy.
pub fn resolve(
    parent: &Value,
    args: &ResolverArgs,
    context: &ResolverContext,
    info: &StructureField,
) -> (r: Value)
    ensures
        vview(r) == spec_resolve(context.parser.database@, vview(*parent), *info),
{
    match &info.data_type.resolver {
        Some(v) => match v.kind {
            ResolverKind::Create => create_resolver(parent, args, context, info),
            ResolverKind::Update => update_resolver(parent, args, context, info),
            ResolverKind::Delete => delete_resolver(parent, args, context, info),
            ResolverKind::AllReferences => all_references_resolver(parent, args, context, info),
            ResolverKind::Substitution => subtitution_resolver(parent, args, context, info),
            ResolverKind::Data => data_resolver(parent, args, context, info),
        },
        None => data_resolver(parent, args, context, info),
    }
}

} // verus!
