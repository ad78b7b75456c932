//! The schema builder: compile a parsed schema document into an indexed
//! catalog, assigning each field its return shape, its primitive kind and
//! its resolver by naming convention.

use vstd::prelude::*;

use crate::structure::{
    kind_models, primitive_kind_of, ResolverKind, StructureDataResolver, StructureDataType,
    StructureEnum, StructureField, StructureIndex, StructureReturnType, StructureScalar,
    StructureType,
};
use crate::text::{
    has_prefix, spec_contains_str, spec_has_prefix, str_contains, streq, suffix_from,
};
use crate::value::{
    lemma_vview_entries_models, lemma_vview_seq_models, vview, vview_seq, SpecValue, Value,
};

verus! {

/// A field's declared type expression: a named terminal under any nesting
/// of list and non-null wrappers.
#[derive(Debug)]
pub enum TypeExpr {
    Named(String),
    List(Box<TypeExpr>),
    NonNull(Box<TypeExpr>),
}

/// One scalar declaration of a schema document.
#[derive(Debug)]
pub struct ScalarDef {
    pub name: String,
    pub description: Option<String>,
}

/// One field declaration of an object.
#[derive(Debug)]
pub struct FieldDef {
    pub name: String,
    pub description: Option<String>,
    pub field_type: TypeExpr,
}

/// One object declaration of a schema document.
#[derive(Debug)]
pub struct ObjectDef {
    pub name: String,
    pub description: Option<String>,
    pub fields: Vec<FieldDef>,
}

/// One enum declaration of a schema document.
#[derive(Debug)]
pub struct EnumDef {
    pub name: String,
    pub description: Option<String>,
    pub values: Vec<String>,
}

/// One type declaration; kinds the catalog does not compile are `Other`.
#[derive(Debug)]
pub enum TypeDefinition {
    Scalar(ScalarDef),
    Object(ObjectDef),
    Enum(EnumDef),
    Other,
}

/// One definition of a schema document.
#[derive(Debug)]
pub enum SchemaDefinition {
    Type(TypeDefinition),
    Other,
}

/// A parsed schema document.
#[derive(Debug)]
pub struct SchemaDocument {
    pub definitions: Vec<SchemaDefinition>,
}

/// The characters of an optional description; absent means empty.
pub open spec fn opt_view(o: Option<String>) -> Seq<char> {
    match o {
        Some(s) => s@,
        Option::None => Seq::empty(),
    }
}

/// Unwrapping a type expression, outside in. A non-null wrapper clears the
/// current nullability; a list wrapper sets arrayness, moves the current
/// non-null flag onto the array's own, and resets nullability for what it
/// wraps; the terminal name ends the walk. The result is (name, is_array,
/// is_nullable, is_array_nonnullable).
pub open spec fn spec_unwrap_type(t: TypeExpr, arr: bool, nullable: bool, arr_nn: bool) -> (
    Seq<char>,
    bool,
    bool,
    bool,
)
    decreases t,
{
    match t {
        TypeExpr::Named(n) => (n@, arr, nullable, arr_nn),
        TypeExpr::List(inner) => spec_unwrap_type(*inner, true, true, !nullable),
        TypeExpr::NonNull(inner) => spec_unwrap_type(*inner, arr, false, arr_nn),
    }
}

/// The return shape of a type expression, from the initial state: not an
/// array, nullable.
pub open spec fn spec_field_type(t: TypeExpr) -> (Seq<char>, bool, bool, bool) {
    spec_unwrap_type(t, false, true, false)
}

/// Whether a return type carries exactly the given shape.
pub open spec fn return_type_models(r: StructureReturnType, shape: (Seq<char>, bool, bool, bool)) -> bool {
    &&& r.name@ == shape.0
    &&& r.is_array == shape.1
    &&& r.is_nullable == shape.2
    &&& r.is_array_nonnullable == shape.3
}

fn unwrap_type(t: &TypeExpr, arr: bool, nullable: bool, arr_nn: bool) -> (r: StructureReturnType)
    ensures
        return_type_models(r, spec_unwrap_type(*t, arr, nullable, arr_nn)),
    decreases *t,
{
    match t {
        TypeExpr::Named(n) => StructureReturnType {
            name: n.clone(),
            is_array: arr,
            is_nullable: nullable,
            is_array_nonnullable: arr_nn,
        },
        TypeExpr::List(inner) => unwrap_type(inner, true, true, !nullable),
        TypeExpr::NonNull(inner) => unwrap_type(inner, arr, false, arr_nn),
    }
}

/// Compile a field's type expression into its return shape.
pub fn get_field_type(t: &TypeExpr) -> (r: StructureReturnType)
    ensures
        return_type_models(r, spec_field_type(*t)),
{
    unwrap_type(t, false, true, false)
}

/// The resolver a field gets by convention: every field of the root Query
/// is a bulk reference listing; fields of the root Mutation dispatch on
/// their name's prefix, carrying the remainder as the target flag; any
/// other field keeps no resolver (and is resolved as plain data).
pub open spec fn resolver_convention(
    obj: Seq<char>,
    field: Seq<char>,
    r: Option<StructureDataResolver>,
) -> bool {
    if obj == "Query"@ {
        mutation_resolver_models(r, ResolverKind::AllReferences, Seq::empty())
    } else if obj == "Mutation"@ {
        if spec_has_prefix(field, "create"@) {
            mutation_resolver_models(r, ResolverKind::Create, seq![field.skip(6)])
        } else if spec_has_prefix(field, "update"@) {
            mutation_resolver_models(r, ResolverKind::Update, seq![field.skip(6)])
        } else if spec_has_prefix(field, "delete"@) {
            mutation_resolver_models(r, ResolverKind::Delete, seq![field.skip(6)])
        } else {
            r is None
        }
    } else {
        r is None
    }
}

/// A resolver of the given kind with exactly the given flags and no
/// argument declarations.
pub open spec fn mutation_resolver_models(
    r: Option<StructureDataResolver>,
    kind: ResolverKind,
    flags: Seq<Seq<char>>,
) -> bool {
    &&& r matches Some(res)
    &&& res.kind == kind
    &&& res.args@.len() == 0
    &&& res.flags@.len() == flags.len()
    &&& forall|i: int| 0 <= i < flags.len() ==> #[trigger] res.flags@[i]@ == flags[i]
}

/// Compile a field's stored-data type: its primitive kind from the return
/// type's terminal name (with the description marker forcing 32-bit
/// integers), and its resolver by the naming convention. `d` is the
/// field's description, `n` the owning object's name, `f` the field's
/// name.
pub fn get_data_type(t: &StructureReturnType, d: &str, n: &str, f: &str) -> (r: StructureDataType)
    ensures
        if spec_contains_str(d@, "@type as i32;"@) {
            r.kind is I32
        } else {
            kind_models(r.kind, t.name@)
        },
        resolver_convention(n@, f@, r.resolver),
{
    let kind = if str_contains(d, "@type as i32;") {
        crate::structure::StructureDataKind::I32
    } else {
        primitive_kind_of(t.name.as_str())
    };
    let resolver: Option<StructureDataResolver> = if streq(n, "Query") {
        Some(
            StructureDataResolver {
                kind: ResolverKind::AllReferences,
                args: Vec::new(),
                flags: Vec::new(),
            },
        )
    } else if streq(n, "Mutation") {
        if has_prefix(f, "create") {
            proof {
                reveal_strlit("create");
                assert(f@.skip(6) == f@.subrange(6, f@.len() as int));
            }
            let mut flags: Vec<String> = Vec::new();
            flags.push(suffix_from(f, 6));
            Some(StructureDataResolver { kind: ResolverKind::Create, args: Vec::new(), flags })
        } else if has_prefix(f, "update") {
            proof {
                reveal_strlit("update");
                assert(f@.skip(6) == f@.subrange(6, f@.len() as int));
            }
            let mut flags: Vec<String> = Vec::new();
            flags.push(suffix_from(f, 6));
            Some(StructureDataResolver { kind: ResolverKind::Update, args: Vec::new(), flags })
        } else if has_prefix(f, "delete") {
            proof {
                reveal_strlit("delete");
                assert(f@.skip(6) == f@.subrange(6, f@.len() as int));
            }
            let mut flags: Vec<String> = Vec::new();
            flags.push(suffix_from(f, 6));
            Some(StructureDataResolver { kind: ResolverKind::Delete, args: Vec::new(), flags })
        } else {
            None
        }
    } else {
        None
    };
    StructureDataType { kind, resolver }
}

/// What the compiled form of one declared field must hold.
pub open spec fn field_models(sf: StructureField, fd: FieldDef, obj_name: Seq<char>) -> bool {
    &&& sf.name == fd.name
    &&& sf.description@ == opt_view(fd.description)
    &&& return_type_models(sf.return_type, spec_field_type(fd.field_type))
    &&& if spec_contains_str(opt_view(fd.description), "@type as i32;"@) {
        sf.data_type.kind is I32
    } else {
        kind_models(sf.data_type.kind, spec_field_type(fd.field_type).0)
    }
    &&& resolver_convention(obj_name, fd.name@, sf.data_type.resolver)
}

/// What the compiled form of one declared object must hold.
pub open spec fn object_models(st: StructureType, od: ObjectDef) -> bool {
    &&& st.name == od.name
    &&& st.description@ == opt_view(od.description)
    &&& st.fields@.len() == od.fields@.len()
    &&& forall|i: int|
        0 <= i < od.fields@.len() ==> field_models(#[trigger] st.fields@[i], od.fields@[i], od.name@)
}

/// What the compiled form of one declared enum must hold.
pub open spec fn enum_models(se: StructureEnum, ed: EnumDef) -> bool {
    &&& se.name == ed.name
    &&& se.description@ == opt_view(ed.description)
    &&& se.values@.len() == ed.values@.len()
    &&& forall|i: int| 0 <= i < ed.values@.len() ==> #[trigger] se.values@[i]@ == ed.values@[i]@
}

/// What the compiled form of one declared scalar must hold.
pub open spec fn scalar_models(ss: StructureScalar, sd: ScalarDef) -> bool {
    &&& ss.name == sd.name
    &&& ss.description@ == opt_view(sd.description)
}

fn opt_description(d: &Option<String>) -> (r: String)
    ensures
        r@ == opt_view(*d),
{
    match d {
        Some(v) => v.clone(),
        None => String::new(),
    }
}

fn traverse_object(object: &ObjectDef) -> (r: StructureType)
    ensures
        object_models(r, *object),
{
    let mut fields: Vec<StructureField> = Vec::new();
    let mut i: usize = 0;
    while i < object.fields.len()
        invariant
            i <= object.fields.len(),
            fields@.len() == i as int,
            forall|j: int|
                0 <= j < i as int ==> field_models(
                    #[trigger] fields@[j],
                    object.fields@[j],
                    object.name@,
                ),
        decreases object.fields.len() - i,
    {
        let field = &object.fields[i];
        let return_type = get_field_type(&field.field_type);
        let description = opt_description(&field.description);
        let data_type = get_data_type(
            &return_type,
            description.as_str(),
            object.name.as_str(),
            field.name.as_str(),
        );
        fields.push(
            StructureField {
                name: field.name.clone(),
                description,
                return_type,
                data_type,
            },
        );
        i = i + 1;
    }
    StructureType {
        name: object.name.clone(),
        description: opt_description(&object.description),
        fields,
    }
}

/// The object declarations of a document, in order.
pub open spec fn spec_object_defs(defs: Seq<SchemaDefinition>) -> Seq<ObjectDef>
    decreases defs.len(),
{
    if defs.len() <= 0 {
        Seq::empty()
    } else {
        let rest = spec_object_defs(defs.drop_last());
        match defs.last() {
            SchemaDefinition::Type(TypeDefinition::Object(o)) => rest.push(o),
            _ => rest,
        }
    }
}

/// The enum declarations of a document, in order.
pub open spec fn spec_enum_defs(defs: Seq<SchemaDefinition>) -> Seq<EnumDef>
    decreases defs.len(),
{
    if defs.len() <= 0 {
        Seq::empty()
    } else {
        let rest = spec_enum_defs(defs.drop_last());
        match defs.last() {
            SchemaDefinition::Type(TypeDefinition::Enum(e)) => rest.push(e),
            _ => rest,
        }
    }
}

/// The scalar declarations of a document, in order.
pub open spec fn spec_scalar_defs(defs: Seq<SchemaDefinition>) -> Seq<ScalarDef>
    decreases defs.len(),
{
    if defs.len() <= 0 {
        Seq::empty()
    } else {
        let rest = spec_scalar_defs(defs.drop_last());
        match defs.last() {
            SchemaDefinition::Type(TypeDefinition::Scalar(s)) => rest.push(s),
            _ => rest,
        }
    }
}

/// Compile a schema document into a catalog: objects, enums and scalars in
/// declaration order, each compiled as `object_models` / `enum_models` /
/// `scalar_models` state; the catalog starts unnamed.
#[verifier::loop_isolation(false)]
pub fn traverse_schema(doc: &SchemaDocument) -> (r: StructureIndex)
    ensures
        r.name@ == Seq::<char>::empty(),
        r.objects@.len() == spec_object_defs(doc.definitions@).len(),
        forall|i: int|
            0 <= i < r.objects@.len() ==> object_models(
                #[trigger] r.objects@[i],
                spec_object_defs(doc.definitions@)[i],
            ),
        r.enums@.len() == spec_enum_defs(doc.definitions@).len(),
        forall|i: int|
            0 <= i < r.enums@.len() ==> enum_models(
                #[trigger] r.enums@[i],
                spec_enum_defs(doc.definitions@)[i],
            ),
        r.scalars@.len() == spec_scalar_defs(doc.definitions@).len(),
        forall|i: int|
            0 <= i < r.scalars@.len() ==> scalar_models(
                #[trigger] r.scalars@[i],
                spec_scalar_defs(doc.definitions@)[i],
            ),
{
    let mut objects: Vec<StructureType> = Vec::new();
    let mut enums: Vec<StructureEnum> = Vec::new();
    let mut scalars: Vec<StructureScalar> = Vec::new();
    let mut i: usize = 0;
    while i < doc.definitions.len()
        invariant
            i <= doc.definitions.len(),
            objects@.len() == spec_object_defs(doc.definitions@.take(i as int)).len(),
            forall|j: int|
                0 <= j < objects@.len() ==> object_models(
                    #[trigger] objects@[j],
                    spec_object_defs(doc.definitions@.take(i as int))[j],
                ),
            enums@.len() == spec_enum_defs(doc.definitions@.take(i as int)).len(),
            forall|j: int|
                0 <= j < enums@.len() ==> enum_models(
                    #[trigger] enums@[j],
                    spec_enum_defs(doc.definitions@.take(i as int))[j],
                ),
            scalars@.len() == spec_scalar_defs(doc.definitions@.take(i as int)).len(),
            forall|j: int|
                0 <= j < scalars@.len() ==> scalar_models(
                    #[trigger] scalars@[j],
                    spec_scalar_defs(doc.definitions@.take(i as int))[j],
                ),
        decreases doc.definitions.len() - i,
    {
        let ghost taken = doc.definitions@.take(i as int);
        proof {
            assert(doc.definitions@.take(i as int + 1) =~= taken.push(doc.definitions@[i as int]));
            assert(doc.definitions@.take(i as int + 1).drop_last() =~= taken);
        }
        match &doc.definitions[i] {
            SchemaDefinition::Type(typedef) => match typedef {
                TypeDefinition::Scalar(scl) => {
                    scalars.push(
                        StructureScalar {
                            name: scl.name.clone(),
                            description: opt_description(&scl.description),
                        },
                    );
                },
                TypeDefinition::Object(object) => {
                    objects.push(traverse_object(object));
                },
                TypeDefinition::Enum(enu) => {
                    let mut values: Vec<String> = Vec::new();
                    let mut v: usize = 0;
                    while v < enu.values.len()
                        invariant
                            v <= enu.values.len(),
                            values@.len() == v as int,
                            forall|t: int|
                                0 <= t < v as int ==> #[trigger] values@[t]@ == enu.values@[t]@,
                        decreases enu.values.len() - v,
                    {
                        values.push(enu.values[v].clone());
                        v = v + 1;
                    }
                    enums.push(
                        StructureEnum {
                            name: enu.name.clone(),
                            description: opt_description(&enu.description),
                            values,
                        },
                    );
                },
                TypeDefinition::Other => {},
            },
            SchemaDefinition::Other => {},
        }
        i = i + 1;
    }
    proof {
        assert(doc.definitions@.take(doc.definitions@.len() as int) =~= doc.definitions@);
    }
    StructureIndex { name: String::new(), objects, enums, scalars }
}

} // verus!

verus! {

/// A compiled catalog's introspection dataset: the meta-schema plus the
/// synthesized meta-records.
pub struct InstropectionParser {
    pub schema: StructureIndex,
    pub database: crate::parsing::DatabaseIndex,
}

/// The meta-record id of a member: `Owner.member`.
pub open spec fn member_id(oname: Seq<char>, mname: Seq<char>) -> Seq<char> {
    oname + "."@ + mname
}

/// The meta-record describing one declared scalar.
pub open spec fn scalar_type_record(s: StructureScalar) -> SpecValue {
    SpecValue::Object(
        seq![
            ("id"@, SpecValue::Str(s.name@)),
            ("name"@, SpecValue::Str(s.name@)),
            ("kind"@, SpecValue::Str("SCALAR"@)),
            ("description"@, SpecValue::Str(s.description@)),
            ("interfaces"@, SpecValue::Array(Seq::empty())),
        ],
    )
}

/// The meta-record describing one declared object type.
pub open spec fn object_type_record(o: StructureType) -> SpecValue {
    SpecValue::Object(
        seq![
            ("id"@, SpecValue::Str(o.name@)),
            ("name"@, SpecValue::Str(o.name@)),
            ("kind"@, SpecValue::Str("OBJECT"@)),
            ("description"@, SpecValue::Str(o.description@)),
            (
                "fields"@,
                SpecValue::Array(
                    Seq::new(
                        o.fields@.len(),
                        |i: int| SpecValue::Str(member_id(o.name@, o.fields@[i].name@)),
                    ),
                ),
            ),
            ("interfaces"@, SpecValue::Array(Seq::empty())),
        ],
    )
}

/// The meta-record describing one declared enum.
pub open spec fn enum_type_record(e: StructureEnum) -> SpecValue {
    SpecValue::Object(
        seq![
            ("id"@, SpecValue::Str(e.name@)),
            ("name"@, SpecValue::Str(e.name@)),
            ("kind"@, SpecValue::Str("ENUM"@)),
            ("description"@, SpecValue::Str(e.description@)),
            (
                "enumValues"@,
                SpecValue::Array(
                    Seq::new(
                        e.values@.len(),
                        |i: int| SpecValue::Str(member_id(e.name@, e.values@[i]@)),
                    ),
                ),
            ),
            ("interfaces"@, SpecValue::Array(Seq::empty())),
        ],
    )
}

/// The meta-record describing one built-in scalar.
pub open spec fn builtin_type_record(name: Seq<char>) -> SpecValue {
    SpecValue::Object(
        seq![
            ("id"@, SpecValue::Str(name)),
            ("name"@, SpecValue::Str(name)),
            ("kind"@, SpecValue::Str("SCALAR"@)),
            ("description"@, SpecValue::Null),
            ("interfaces"@, SpecValue::Array(Seq::empty())),
        ],
    )
}

/// The meta-record describing one field of an object type.
pub open spec fn field_record(oname: Seq<char>, f: StructureField) -> SpecValue {
    SpecValue::Object(
        seq![
            ("id"@, SpecValue::Str(member_id(oname, f.name@))),
            ("name"@, SpecValue::Str(f.name@)),
            ("description"@, SpecValue::Str(f.description@)),
            ("isDeprecated"@, SpecValue::Bool(false)),
            ("args"@, SpecValue::Array(Seq::empty())),
            ("type"@, SpecValue::Str(f.return_type.name@)),
        ],
    )
}

/// The field meta-records of one object, in field order.
pub open spec fn object_field_records(o: StructureType) -> Seq<SpecValue> {
    Seq::new(o.fields@.len(), |i: int| field_record(o.name@, o.fields@[i]))
}

/// The field meta-records of a catalog's objects, flattened in order.
pub open spec fn all_field_records(objs: Seq<StructureType>) -> Seq<SpecValue>
    decreases objs.len(),
{
    if objs.len() <= 0 {
        Seq::empty()
    } else {
        all_field_records(objs.drop_last()) + object_field_records(objs.last())
    }
}

/// The meta-record describing one enum value.
pub open spec fn enum_value_record(ename: Seq<char>, v: Seq<char>) -> SpecValue {
    SpecValue::Object(
        seq![
            ("id"@, SpecValue::Str(member_id(ename, v))),
            ("name"@, SpecValue::Str(v)),
            ("description"@, SpecValue::Str(Seq::empty())),
        ],
    )
}

/// The value meta-records of one enum, in declaration order.
pub open spec fn enum_value_records_of(e: StructureEnum) -> Seq<SpecValue> {
    Seq::new(e.values@.len(), |i: int| enum_value_record(e.name@, e.values@[i]@))
}

/// The value meta-records of a catalog's enums, flattened in order.
pub open spec fn all_enum_value_records(es: Seq<StructureEnum>) -> Seq<SpecValue>
    decreases es.len(),
{
    if es.len() <= 0 {
        Seq::empty()
    } else {
        all_enum_value_records(es.drop_last()) + enum_value_records_of(es.last())
    }
}

/// Every type meta-record: declared scalars, objects and enums in catalog
/// order, then the five built-in scalars.
pub open spec fn type_records(doc: StructureIndex) -> Seq<SpecValue> {
    Seq::new(doc.scalars@.len(), |i: int| scalar_type_record(doc.scalars@[i])) + Seq::new(
        doc.objects@.len(),
        |i: int| object_type_record(doc.objects@[i]),
    ) + Seq::new(doc.enums@.len(), |i: int| enum_type_record(doc.enums@[i])) + Seq::new(
        5,
        |i: int| builtin_type_record(seq!["ID"@, "Float"@, "Int"@, "String"@, "Boolean"@][i]),
    )
}

/// The ids of every type meta-record, in the same order.
pub open spec fn type_ids(doc: StructureIndex) -> Seq<SpecValue> {
    Seq::new(doc.scalars@.len(), |i: int| SpecValue::Str(doc.scalars@[i].name@)) + Seq::new(
        doc.objects@.len(),
        |i: int| SpecValue::Str(doc.objects@[i].name@),
    ) + Seq::new(doc.enums@.len(), |i: int| SpecValue::Str(doc.enums@[i].name@)) + Seq::new(
        5,
        |i: int| SpecValue::Str(seq!["ID"@, "Float"@, "Int"@, "String"@, "Boolean"@][i]),
    )
}

/// The single meta-record describing the schema itself: it lists every
/// type meta-record by id.
pub open spec fn schema_record(doc: StructureIndex) -> SpecValue {
    SpecValue::Object(
        seq![
            ("id"@, SpecValue::Str("__Schema"@)),
            ("queryType"@, SpecValue::Str("Query"@)),
            ("types"@, SpecValue::Array(type_ids(doc))),
            ("directives"@, SpecValue::Array(Seq::empty())),
            ("mutationType"@, SpecValue::Null),
        ],
    )
}

/// What the synthesized introspection dataset holds: the four meta-type
/// stores, in a fixed order.
pub open spec fn introspection_db_models(db: Seq<(String, Vec<Value>)>, doc: StructureIndex) -> bool {
    &&& db.len() == 4
    &&& db[0].0@ == "__Schema"@ && vview_seq(db[0].1@) == seq![schema_record(doc)]
    &&& db[1].0@ == "__Type"@ && vview_seq(db[1].1@) == type_records(doc)
    &&& db[2].0@ == "__Field"@ && vview_seq(db[2].1@) == all_field_records(doc.objects@)
    &&& db[3].0@ == "__EnumValue"@ && vview_seq(db[3].1@) == all_enum_value_records(doc.enums@)
}

fn empty_array_value() -> (r: Value)
    ensures
        vview(r) == SpecValue::Array(Seq::<SpecValue>::empty()),
{
    let v: Vec<Value> = Vec::new();
    let ghost gv = v@;
    let r = Value::Array(v);
    proof {
        assert(vview_seq(gv) =~= Seq::<SpecValue>::empty());
    }
    r
}

fn str_value(s: &str) -> (r: Value)
    ensures
        vview(r) == SpecValue::Str(s@),
{
    Value::Str(s.to_owned())
}

fn scalar_type_value(s: &StructureScalar) -> (r: Value)
    ensures
        vview(r) == scalar_type_record(*s),
{
    let mut e: Vec<(String, Value)> = Vec::new();
    e.push(("id".to_owned(), Value::Str(s.name.clone())));
    e.push(("name".to_owned(), Value::Str(s.name.clone())));
    e.push(("kind".to_owned(), str_value("SCALAR")));
    e.push(("description".to_owned(), Value::Str(s.description.clone())));
    e.push(("interfaces".to_owned(), empty_array_value()));
    let ghost ge = e@;
    let r = Value::Object(e);
    proof {
        lemma_vview_entries_models(
            ge,
            seq![
                ("id"@, SpecValue::Str(s.name@)),
                ("name"@, SpecValue::Str(s.name@)),
                ("kind"@, SpecValue::Str("SCALAR"@)),
                ("description"@, SpecValue::Str(s.description@)),
                ("interfaces"@, SpecValue::Array(Seq::empty())),
            ],
        );
    }
    r
}

fn builtin_type_value(name: &str) -> (r: Value)
    ensures
        vview(r) == builtin_type_record(name@),
{
    let mut e: Vec<(String, Value)> = Vec::new();
    e.push(("id".to_owned(), str_value(name)));
    e.push(("name".to_owned(), str_value(name)));
    e.push(("kind".to_owned(), str_value("SCALAR")));
    e.push(("description".to_owned(), Value::Null));
    e.push(("interfaces".to_owned(), empty_array_value()));
    let ghost ge = e@;
    let r = Value::Object(e);
    proof {
        lemma_vview_entries_models(
            ge,
            seq![
                ("id"@, SpecValue::Str(name@)),
                ("name"@, SpecValue::Str(name@)),
                ("kind"@, SpecValue::Str("SCALAR"@)),
                ("description"@, SpecValue::Null),
                ("interfaces"@, SpecValue::Array(Seq::empty())),
            ],
        );
    }
    r
}

fn field_record_value(oname: &str, f: &StructureField) -> (r: Value)
    ensures
        vview(r) == field_record(oname@, *f),
{
    let mut e: Vec<(String, Value)> = Vec::new();
    e.push(("id".to_owned(), Value::Str(crate::text::concat3(oname, ".", f.name.as_str()))));
    e.push(("name".to_owned(), Value::Str(f.name.clone())));
    e.push(("description".to_owned(), Value::Str(f.description.clone())));
    e.push(("isDeprecated".to_owned(), Value::Bool(false)));
    e.push(("args".to_owned(), empty_array_value()));
    e.push(("type".to_owned(), Value::Str(f.return_type.name.clone())));
    let ghost ge = e@;
    let r = Value::Object(e);
    proof {
        lemma_vview_entries_models(
            ge,
            seq![
                ("id"@, SpecValue::Str(member_id(oname@, f.name@))),
                ("name"@, SpecValue::Str(f.name@)),
                ("description"@, SpecValue::Str(f.description@)),
                ("isDeprecated"@, SpecValue::Bool(false)),
                ("args"@, SpecValue::Array(Seq::empty())),
                ("type"@, SpecValue::Str(f.return_type.name@)),
            ],
        );
    }
    r
}

fn enum_value_record_value(ename: &str, v: &str) -> (r: Value)
    ensures
        vview(r) == enum_value_record(ename@, v@),
{
    let mut e: Vec<(String, Value)> = Vec::new();
    e.push(("id".to_owned(), Value::Str(crate::text::concat3(ename, ".", v))));
    e.push(("name".to_owned(), str_value(v)));
    e.push(("description".to_owned(), Value::Str(String::new())));
    let ghost ge = e@;
    let r = Value::Object(e);
    proof {
        lemma_vview_entries_models(
            ge,
            seq![
                ("id"@, SpecValue::Str(member_id(ename@, v@))),
                ("name"@, SpecValue::Str(v@)),
                ("description"@, SpecValue::Str(Seq::empty())),
            ],
        );
    }
    r
}

#[verifier::loop_isolation(false)]
fn object_type_value(o: &StructureType) -> (r: Value)
    ensures
        vview(r) == object_type_record(*o),
{
    let mut subfields: Vec<Value> = Vec::new();
    let mut i: usize = 0;
    while i < o.fields.len()
        invariant
            i <= o.fields.len(),
            subfields@.len() == i as int,
            forall|j: int|
                0 <= j < i as int ==> #[trigger] vview(subfields@[j]) == SpecValue::Str(
                    member_id(o.name@, o.fields@[j].name@),
                ),
        decreases o.fields.len() - i,
    {
        subfields.push(Value::Str(crate::text::concat3(o.name.as_str(), ".", o.fields[i].name.as_str())));
        i = i + 1;
    }
    proof {
        lemma_vview_seq_models(
            subfields@,
            Seq::new(
                o.fields@.len(),
                |i: int| SpecValue::Str(member_id(o.name@, o.fields@[i].name@)),
            ),
        );
    }
    let ghost subm = vview_seq(subfields@);
    let mut e: Vec<(String, Value)> = Vec::new();
    e.push(("id".to_owned(), Value::Str(o.name.clone())));
    e.push(("name".to_owned(), Value::Str(o.name.clone())));
    e.push(("kind".to_owned(), str_value("OBJECT")));
    e.push(("description".to_owned(), Value::Str(o.description.clone())));
    e.push(("fields".to_owned(), Value::Array(subfields)));
    e.push(("interfaces".to_owned(), empty_array_value()));
    let ghost ge = e@;
    let r = Value::Object(e);
    proof {
        lemma_vview_entries_models(
            ge,
            seq![
                ("id"@, SpecValue::Str(o.name@)),
                ("name"@, SpecValue::Str(o.name@)),
                ("kind"@, SpecValue::Str("OBJECT"@)),
                ("description"@, SpecValue::Str(o.description@)),
                ("fields"@, SpecValue::Array(subm)),
                ("interfaces"@, SpecValue::Array(Seq::empty())),
            ],
        );
    }
    r
}

#[verifier::loop_isolation(false)]
fn enum_type_value(e: &StructureEnum) -> (r: Value)
    ensures
        vview(r) == enum_type_record(*e),
{
    let mut subvalues: Vec<Value> = Vec::new();
    let mut i: usize = 0;
    while i < e.values.len()
        invariant
            i <= e.values.len(),
            subvalues@.len() == i as int,
            forall|j: int|
                0 <= j < i as int ==> #[trigger] vview(subvalues@[j]) == SpecValue::Str(
                    member_id(e.name@, e.values@[j]@),
                ),
        decreases e.values.len() - i,
    {
        subvalues.push(Value::Str(crate::text::concat3(e.name.as_str(), ".", e.values[i].as_str())));
        i = i + 1;
    }
    proof {
        lemma_vview_seq_models(
            subvalues@,
            Seq::new(e.values@.len(), |i: int| SpecValue::Str(member_id(e.name@, e.values@[i]@))),
        );
    }
    let ghost subm = vview_seq(subvalues@);
    let mut en: Vec<(String, Value)> = Vec::new();
    en.push(("id".to_owned(), Value::Str(e.name.clone())));
    en.push(("name".to_owned(), Value::Str(e.name.clone())));
    en.push(("kind".to_owned(), str_value("ENUM")));
    en.push(("description".to_owned(), Value::Str(e.description.clone())));
    en.push(("enumValues".to_owned(), Value::Array(subvalues)));
    en.push(("interfaces".to_owned(), empty_array_value()));
    let ghost ge = en@;
    let r = Value::Object(en);
    proof {
        lemma_vview_entries_models(
            ge,
            seq![
                ("id"@, SpecValue::Str(e.name@)),
                ("name"@, SpecValue::Str(e.name@)),
                ("kind"@, SpecValue::Str("ENUM"@)),
                ("description"@, SpecValue::Str(e.description@)),
                ("enumValues"@, SpecValue::Array(subm)),
                ("interfaces"@, SpecValue::Array(Seq::empty())),
            ],
        );
    }
    r
}

} // verus!

verus! {


/// Every field meta-record of the given objects, flattened in order.
#[verifier::loop_isolation(false)]
fn field_values(objs: &Vec<StructureType>) -> (r: Vec<Value>)
    ensures
        vview_seq(r@) == all_field_records(objs@),
{
    let mut fields: Vec<Value> = Vec::new();
    let mut oi: usize = 0;
    while oi < objs.len()
        invariant
            oi <= objs.len(),
            vview_seq(fields@) == all_field_records(objs@.take(oi as int)),
        decreases objs.len() - oi,
    {
        let obj = &objs[oi];
        let mut fi: usize = 0;
        while fi < obj.fields.len()
            invariant
                fi <= obj.fields.len(),
                vview_seq(fields@) == all_field_records(objs@.take(oi as int))
                    + object_field_records(*obj).take(fi as int),
            decreases obj.fields.len() - fi,
        {
            let ghost prevf = fields@;
            fields.push(field_record_value(obj.name.as_str(), &obj.fields[fi]));
            proof {
                crate::value::lemma_vview_seq_push(prevf, fields@[fields@.len() - 1]);
                assert(vview_seq(fields@) =~= all_field_records(objs@.take(oi as int))
                    + object_field_records(*obj).take(fi as int + 1));
            }
            fi = fi + 1;
        }
        proof {
            let t1 = objs@.take(oi as int + 1);
            assert(t1.drop_last() =~= objs@.take(oi as int));
            assert(object_field_records(*obj).take(obj.fields@.len() as int)
                =~= object_field_records(t1.last()));
            assert(vview_seq(fields@) =~= all_field_records(t1));
        }
        oi = oi + 1;
    }
    proof {
        assert(objs@.take(objs@.len() as int) =~= objs@);
    }
    fields
}

/// Every enum-value meta-record of the given enums, flattened in order.
#[verifier::loop_isolation(false)]
fn enum_value_values(es: &Vec<StructureEnum>) -> (r: Vec<Value>)
    ensures
        vview_seq(r@) == all_enum_value_records(es@),
{
    let mut enums: Vec<Value> = Vec::new();
    let mut ei: usize = 0;
    while ei < es.len()
        invariant
            ei <= es.len(),
            vview_seq(enums@) == all_enum_value_records(es@.take(ei as int)),
        decreases es.len() - ei,
    {
        let enu = &es[ei];
        let mut vi: usize = 0;
        while vi < enu.values.len()
            invariant
                vi <= enu.values.len(),
                vview_seq(enums@) == all_enum_value_records(es@.take(ei as int))
                    + enum_value_records_of(*enu).take(vi as int),
            decreases enu.values.len() - vi,
        {
            let ghost preve = enums@;
            enums.push(enum_value_record_value(enu.name.as_str(), enu.values[vi].as_str()));
            proof {
                crate::value::lemma_vview_seq_push(preve, enums@[enums@.len() - 1]);
                assert(vview_seq(enums@) =~= all_enum_value_records(es@.take(ei as int))
                    + enum_value_records_of(*enu).take(vi as int + 1));
            }
            vi = vi + 1;
        }
        proof {
            let t1 = es@.take(ei as int + 1);
            assert(t1.drop_last() =~= es@.take(ei as int));
            assert(enum_value_records_of(*enu).take(enu.values@.len() as int)
                =~= enum_value_records_of(t1.last()));
            assert(vview_seq(enums@) =~= all_enum_value_records(t1));
        }
        ei = ei + 1;
    }
    proof {
        assert(es@.take(es@.len() as int) =~= es@);
    }
    enums
}

/// Every type meta-record of the catalog, declared types then built-ins.
#[verifier::loop_isolation(false)]
fn type_values(doc: &StructureIndex) -> (r: Vec<Value>)
    ensures
        vview_seq(r@) == type_records(*doc),
{
    let ghost scalar_recs = Seq::new(
        doc.scalars@.len(),
        |i: int| scalar_type_record(doc.scalars@[i]),
    );
    let ghost object_recs = Seq::new(
        doc.objects@.len(),
        |i: int| object_type_record(doc.objects@[i]),
    );
    let ghost enum_recs = Seq::new(doc.enums@.len(), |i: int| enum_type_record(doc.enums@[i]));
    let mut types: Vec<Value> = Vec::new();
    let mut si: usize = 0;
    while si < doc.scalars.len()
        invariant
            si <= doc.scalars.len(),
            vview_seq(types@) == scalar_recs.take(si as int),
        decreases doc.scalars.len() - si,
    {
        let ghost prev = types@;
        types.push(scalar_type_value(&doc.scalars[si]));
        proof {
            crate::value::lemma_vview_seq_push(prev, types@[types@.len() - 1]);
            assert(vview_seq(types@) =~= scalar_recs.take(si as int + 1));
        }
        si = si + 1;
    }
    proof {
        assert(scalar_recs.take(doc.scalars@.len() as int) =~= scalar_recs);
    }
    let mut oi: usize = 0;
    while oi < doc.objects.len()
        invariant
            oi <= doc.objects.len(),
            vview_seq(types@) == scalar_recs + object_recs.take(oi as int),
        decreases doc.objects.len() - oi,
    {
        let ghost prev = types@;
        types.push(object_type_value(&doc.objects[oi]));
        proof {
            crate::value::lemma_vview_seq_push(prev, types@[types@.len() - 1]);
            assert(vview_seq(types@) =~= scalar_recs + object_recs.take(oi as int + 1));
        }
        oi = oi + 1;
    }
    proof {
        assert(object_recs.take(doc.objects@.len() as int) =~= object_recs);
    }
    let mut ei: usize = 0;
    while ei < doc.enums.len()
        invariant
            ei <= doc.enums.len(),
            vview_seq(types@) == scalar_recs + object_recs + enum_recs.take(ei as int),
        decreases doc.enums.len() - ei,
    {
        let ghost prev = types@;
        types.push(enum_type_value(&doc.enums[ei]));
        proof {
            crate::value::lemma_vview_seq_push(prev, types@[types@.len() - 1]);
            assert(vview_seq(types@) =~= scalar_recs + object_recs + enum_recs.take(ei as int + 1));
        }
        ei = ei + 1;
    }
    proof {
        assert(enum_recs.take(doc.enums@.len() as int) =~= enum_recs);
    }
    let ghost p1 = types@;
    types.push(builtin_type_value("ID"));
    proof {
        crate::value::lemma_vview_seq_push(p1, types@[types@.len() - 1]);
    }
    let ghost p2 = types@;
    types.push(builtin_type_value("Float"));
    proof {
        crate::value::lemma_vview_seq_push(p2, types@[types@.len() - 1]);
    }
    let ghost p3 = types@;
    types.push(builtin_type_value("Int"));
    proof {
        crate::value::lemma_vview_seq_push(p3, types@[types@.len() - 1]);
    }
    let ghost p4 = types@;
    types.push(builtin_type_value("String"));
    proof {
        crate::value::lemma_vview_seq_push(p4, types@[types@.len() - 1]);
    }
    let ghost p5 = types@;
    types.push(builtin_type_value("Boolean"));
    proof {
        crate::value::lemma_vview_seq_push(p5, types@[types@.len() - 1]);
        assert(vview_seq(types@) =~= type_records(*doc));
    }
    types
}

/// The ids of every type meta-record, declared types then built-ins.
#[verifier::loop_isolation(false)]
fn type_id_values(doc: &StructureIndex) -> (r: Vec<Value>)
    ensures
        vview_seq(r@) == type_ids(*doc),
{
    let ghost scalar_ids = Seq::new(
        doc.scalars@.len(),
        |i: int| SpecValue::Str(doc.scalars@[i].name@),
    );
    let ghost object_ids = Seq::new(
        doc.objects@.len(),
        |i: int| SpecValue::Str(doc.objects@[i].name@),
    );
    let ghost enum_ids = Seq::new(doc.enums@.len(), |i: int| SpecValue::Str(doc.enums@[i].name@));
    let mut declared: Vec<Value> = Vec::new();
    let mut di: usize = 0;
    while di < doc.scalars.len()
        invariant
            di <= doc.scalars.len(),
            vview_seq(declared@) == scalar_ids.take(di as int),
        decreases doc.scalars.len() - di,
    {
        let ghost prev = declared@;
        declared.push(Value::Str(doc.scalars[di].name.clone()));
        proof {
            crate::value::lemma_vview_seq_push(prev, declared@[declared@.len() - 1]);
            assert(vview_seq(declared@) =~= scalar_ids.take(di as int + 1));
        }
        di = di + 1;
    }
    proof {
        assert(scalar_ids.take(doc.scalars@.len() as int) =~= scalar_ids);
    }
    let mut di2: usize = 0;
    while di2 < doc.objects.len()
        invariant
            di2 <= doc.objects.len(),
            vview_seq(declared@) == scalar_ids + object_ids.take(di2 as int),
        decreases doc.objects.len() - di2,
    {
        let ghost prev = declared@;
        declared.push(Value::Str(doc.objects[di2].name.clone()));
        proof {
            crate::value::lemma_vview_seq_push(prev, declared@[declared@.len() - 1]);
            assert(vview_seq(declared@) =~= scalar_ids + object_ids.take(di2 as int + 1));
        }
        di2 = di2 + 1;
    }
    proof {
        assert(object_ids.take(doc.objects@.len() as int) =~= object_ids);
    }
    let mut di3: usize = 0;
    while di3 < doc.enums.len()
        invariant
            di3 <= doc.enums.len(),
            vview_seq(declared@) == scalar_ids + object_ids + enum_ids.take(di3 as int),
        decreases doc.enums.len() - di3,
    {
        let ghost prev = declared@;
        declared.push(Value::Str(doc.enums[di3].name.clone()));
        proof {
            crate::value::lemma_vview_seq_push(prev, declared@[declared@.len() - 1]);
            assert(vview_seq(declared@) =~= scalar_ids + object_ids + enum_ids.take(di3 as int + 1));
        }
        di3 = di3 + 1;
    }
    proof {
        assert(enum_ids.take(doc.enums@.len() as int) =~= enum_ids);
    }
    let ghost p1 = declared@;
    declared.push(str_value("ID"));
    proof {
        crate::value::lemma_vview_seq_push(p1, declared@[declared@.len() - 1]);
    }
    let ghost p2 = declared@;
    declared.push(str_value("Float"));
    proof {
        crate::value::lemma_vview_seq_push(p2, declared@[declared@.len() - 1]);
    }
    let ghost p3 = declared@;
    declared.push(str_value("Int"));
    proof {
        crate::value::lemma_vview_seq_push(p3, declared@[declared@.len() - 1]);
    }
    let ghost p4 = declared@;
    declared.push(str_value("String"));
    proof {
        crate::value::lemma_vview_seq_push(p4, declared@[declared@.len() - 1]);
    }
    let ghost p5 = declared@;
    declared.push(str_value("Boolean"));
    proof {
        crate::value::lemma_vview_seq_push(p5, declared@[declared@.len() - 1]);
        assert(vview_seq(declared@) =~= type_ids(*doc));
    }
    declared
}

/// The `__Schema` meta-record of the catalog.
fn schema_record_value(doc: &StructureIndex) -> (r: Value)
    ensures
        vview(r) == schema_record(*doc),
{
    let declared = type_id_values(doc);
    let ghost declared_m = vview_seq(declared@);
    let mut e: Vec<(String, Value)> = Vec::new();
    e.push(("id".to_owned(), str_value("__Schema")));
    e.push(("queryType".to_owned(), str_value("Query")));
    e.push(("types".to_owned(), Value::Array(declared)));
    e.push(("directives".to_owned(), empty_array_value()));
    e.push(("mutationType".to_owned(), Value::Null));
    let ghost ge = e@;
    let r = Value::Object(e);
    proof {
        lemma_vview_entries_models(
            ge,
            seq![
                ("id"@, SpecValue::Str("__Schema"@)),
                ("queryType"@, SpecValue::Str("Query"@)),
                ("types"@, SpecValue::Array(declared_m)),
                ("directives"@, SpecValue::Array(Seq::empty())),
                ("mutationType"@, SpecValue::Null),
            ],
        );
    }
    r
}

/// Synthesize a catalog's introspection dataset: one meta-record per
/// declared type, field and enum value, the five built-in scalars, and a
/// `__Schema` record listing every type id — paired with the fixed
/// meta-schema that describes those records.
pub fn build_schema_instropection(doc: &StructureIndex, instropection: StructureIndex) -> (r:
    InstropectionParser)
    ensures
        r.schema == instropection,
        introspection_db_models(r.database@, *doc),
{
    let types = type_values(doc);
    let fields = field_values(&doc.objects);
    let enums = enum_value_values(&doc.enums);
    let schema_value = schema_record_value(doc);
    let mut schema_store: Vec<Value> = Vec::new();
    let ghost prevs = schema_store@;
    schema_store.push(schema_value);
    proof {
        crate::value::lemma_vview_seq_push(prevs, schema_store@[0]);
        assert(vview_seq(prevs) =~= Seq::<SpecValue>::empty());
        assert(vview_seq(schema_store@) =~= seq![schema_record(*doc)]);
    }
    let mut db: crate::parsing::DatabaseIndex = Vec::new();
    db.push(("__Schema".to_owned(), schema_store));
    db.push(("__Type".to_owned(), types));
    db.push(("__Field".to_owned(), fields));
    db.push(("__EnumValue".to_owned(), enums));
    InstropectionParser { schema: instropection, database: db }
}

} // verus!
