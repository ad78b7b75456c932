use graphdb::canonical::build_canonical_records;
use graphdb::indexing::{
    build_hashmaps, lookup_subindex_str, subindex_hashmaps_str, subindex_keys_str, BuildError,
    FieldHashmaps,
};
use graphdb::parsing::{
    has_operation, DatabaseIndex, Definition, Document, Field, FragmentDefinition,
    FragmentSpread, OperationDefinition, QueryParser, Selection, SelectionSet,
};
use graphdb::resolver::{resolve, ResolverContext};
use graphdb::schema::{
    build_schema_instropection, get_data_type, get_field_type, traverse_schema, EnumDef,
    FieldDef, ObjectDef, SchemaDefinition, SchemaDocument, TypeDefinition, TypeExpr,
};
use graphdb::structure::{
    ResolverKind, StructureDataKind, StructureDataResolver, StructureDataType, StructureEnum,
    StructureField, StructureIndex, StructureReturnType, StructureScalar, StructureType,
};
use graphdb::value::Value;

fn s(x: &str) -> String {
    x.to_string()
}

fn vs(x: &str) -> Value {
    Value::Str(s(x))
}

fn rec(entries: Vec<(&str, Value)>) -> Value {
    Value::Object(entries.into_iter().map(|(k, v)| (s(k), v)).collect())
}

/// Structural equality, with object keys compared without regard to order.
fn veq(a: &Value, b: &Value) -> bool {
    match (a, b) {
        (Value::Null, Value::Null) => true,
        (Value::Bool(x), Value::Bool(y)) => x == y,
        (Value::Int(x), Value::Int(y)) => x == y,
        (Value::UInt(x), Value::UInt(y)) => x == y,
        (Value::FloatBits(x), Value::FloatBits(y)) => x == y,
        (Value::Str(x), Value::Str(y)) => x == y,
        (Value::Array(x), Value::Array(y)) => {
            x.len() == y.len() && x.iter().zip(y.iter()).all(|(u, w)| veq(u, w))
        }
        (Value::Object(x), Value::Object(y)) => {
            x.len() == y.len()
                && x.iter().all(|(k, v)| match y.iter().find(|(k2, _)| k2 == k) {
                    Some((_, w)) => veq(v, w),
                    None => false,
                })
        }
        _ => false,
    }
}

fn field_def(name: &str, kind: &str, array: bool) -> StructureField {
    StructureField::from(s(name), s(""), s(kind), array, None)
}

fn obj_type(name: &str, fields: Vec<StructureField>) -> StructureType {
    StructureType { name: s(name), description: s(""), fields }
}

fn catalog(
    objects: Vec<StructureType>,
    enums: Vec<StructureEnum>,
    scalars: Vec<StructureScalar>,
) -> StructureIndex {
    StructureIndex { name: s(""), objects, enums, scalars }
}

/// The meta-schema every dataset reuses: the shapes of the introspection
/// records.
fn meta_schema() -> StructureIndex {
    catalog(
        vec![
            obj_type(
                "__Schema",
                vec![field_def("id", "ID", false), field_def("types", "__Type", true)],
            ),
            obj_type(
                "__Type",
                vec![
                    field_def("id", "ID", false),
                    field_def("name", "String", false),
                    field_def("kind", "String", false),
                    field_def("fields", "__Field", true),
                ],
            ),
            obj_type(
                "__Field",
                vec![
                    field_def("id", "ID", false),
                    field_def("name", "String", false),
                    field_def("type", "String", false),
                ],
            ),
            obj_type(
                "__EnumValue",
                vec![field_def("id", "ID", false), field_def("name", "String", false)],
            ),
        ],
        vec![],
        vec![],
    )
}

/// The Author/Book dataset of the worked scenarios.
fn book_schema() -> StructureIndex {
    catalog(
        vec![
            obj_type("Query", vec![]),
            obj_type("Author", vec![field_def("id", "ID", false), field_def("name", "String", false)]),
            obj_type(
                "Book",
                vec![
                    field_def("id", "ID", false),
                    field_def("title", "String", false),
                    field_def("author", "Author", false),
                ],
            ),
        ],
        vec![],
        vec![],
    )
}

fn book_db(author_ref: &str) -> DatabaseIndex {
    vec![
        (s("Author"), vec![rec(vec![("id", vs("a1")), ("name", vs("Ada"))])]),
        (
            s("Book"),
            vec![rec(vec![("id", vs("b1")), ("title", vs("X")), ("author", vs(author_ref))])],
        ),
    ]
}

fn book_parser(author_ref: &str) -> QueryParser {
    QueryParser::new(book_db(author_ref), book_schema(), meta_schema()).unwrap()
}

fn fld(name: &str, sub: Vec<Selection>) -> Selection {
    Selection::Field(Field {
        alias: None,
        name: s(name),
        arguments: vec![],
        selection_set: SelectionSet { items: sub },
    })
}

fn fld_as(alias: &str, name: &str, sub: Vec<Selection>) -> Selection {
    Selection::Field(Field {
        alias: Some(s(alias)),
        name: s(name),
        arguments: vec![],
        selection_set: SelectionSet { items: sub },
    })
}

fn query_doc(items: Vec<Selection>) -> Document {
    Document {
        definitions: vec![Definition::Operation(OperationDefinition::Query(SelectionSet {
            items,
        }))],
    }
}

#[test]
fn scenario_values_of_book_expands_reference() {
    let p = book_parser("a1");
    let ast = query_doc(vec![fld(
        "values__of_Book",
        vec![fld("title", vec![]), fld("author", vec![fld("name", vec![])])],
    )]);
    assert!(has_operation(&ast));
    let out = p.traverse_query(&ast);
    let expected = rec(vec![(
        "values__of_Book",
        Value::Array(vec![rec(vec![
            ("title", vs("X")),
            ("author", rec(vec![("name", vs("Ada"))])),
        ])]),
    )]);
    assert!(veq(&out, &expected));
}

#[test]
fn scenario_undeclared_field_is_null() {
    let p = book_parser("a1");
    let ast = query_doc(vec![fld(
        "values__of_Book",
        vec![fld("nope", vec![]), fld("title", vec![])],
    )]);
    let out = p.traverse_query(&ast);
    let expected = rec(vec![(
        "values__of_Book",
        Value::Array(vec![rec(vec![("nope", Value::Null), ("title", vs("X"))])]),
    )]);
    assert!(veq(&out, &expected));
}

#[test]
fn scenario_absent_reference_resolves_null() {
    let p = book_parser("zzz");
    let ast = query_doc(vec![fld(
        "values__of_Book",
        vec![fld("title", vec![]), fld("author", vec![fld("name", vec![])])],
    )]);
    let out = p.traverse_query(&ast);
    let expected = rec(vec![(
        "values__of_Book",
        Value::Array(vec![rec(vec![("title", vs("X")), ("author", Value::Null)])]),
    )]);
    assert!(veq(&out, &expected));
}

#[test]
fn scenario_fragment_merge_last_write_wins() {
    let p = book_parser("a1");
    // Inline, `t` is the title; the fragment rebinds `t` to the expanded
    // author. The fragment is merged after the inline field, so it wins.
    let frag = FragmentDefinition {
        name: s("F"),
        type_condition: s("Book"),
        selection_set: SelectionSet {
            items: vec![fld_as("t", "author", vec![fld("name", vec![])])],
        },
    };
    let ast = Document {
        definitions: vec![
            Definition::Operation(OperationDefinition::Query(SelectionSet {
                items: vec![fld(
                    "values__of_Book",
                    vec![
                        fld_as("t", "title", vec![]),
                        Selection::FragmentSpread(FragmentSpread { fragment_name: s("F") }),
                    ],
                )],
            })),
            Definition::Fragment(frag),
        ],
    };
    let out = p.traverse_query(&ast);
    let expected = rec(vec![(
        "values__of_Book",
        Value::Array(vec![rec(vec![("t", rec(vec![("name", vs("Ada"))]))])]),
    )]);
    assert!(veq(&out, &expected));
}

#[test]
fn scenario_introspection_lists_all_types() {
    let p = book_parser("a1");
    let ast = query_doc(vec![fld(
        "__schema",
        vec![fld("types", vec![fld("name", vec![]), fld("kind", vec![])])],
    )]);
    let out = p.traverse_query(&ast);
    let entry = |n: &str, k: &str| rec(vec![("name", vs(n)), ("kind", vs(k))]);
    let expected = rec(vec![(
        "__schema",
        rec(vec![(
            "types",
            Value::Array(vec![
                entry("Query", "OBJECT"),
                entry("Author", "OBJECT"),
                entry("Book", "OBJECT"),
                entry("ID", "SCALAR"),
                entry("Float", "SCALAR"),
                entry("Int", "SCALAR"),
                entry("String", "SCALAR"),
                entry("Boolean", "SCALAR"),
            ]),
        )]),
    )]);
    assert!(veq(&out, &expected));
}

#[test]
fn identity_index_lists_every_position_of_a_duplicate_id() {
    let records = vec![
        rec(vec![("id", vs("a1"))]),
        rec(vec![("id", vs("x"))]),
        rec(vec![("id", vs("a1"))]),
    ];
    let keys = subindex_keys_str(&records).unwrap();
    assert_eq!(keys, vec![s("a1"), s("x"), s("a1")]);
    let m = subindex_hashmaps_str(&keys);
    let ps = lookup_subindex_str(&m, "a1").unwrap();
    assert_eq!(ps, &vec![0usize, 2usize]);
    let ps = lookup_subindex_str(&m, "x").unwrap();
    assert_eq!(ps, &vec![1usize]);
    assert!(lookup_subindex_str(&m, "zzz").is_none());
}

#[test]
fn reference_resolver_is_identity_on_builtin_scalars() {
    let p = book_parser("a1");
    for cls in ["String", "ID", "Float", "Int", "Boolean"] {
        let out = p.resolve_id_to_object(&vs("whatever"), &s(cls));
        assert!(veq(&out, &vs("whatever")));
        let out = p.resolve_id_to_object(&Value::Int(7), &s(cls));
        assert!(veq(&out, &Value::Int(7)));
    }
}

#[test]
fn missing_id_is_null_singular_and_omitted_in_arrays() {
    let p = book_parser("a1");
    let out = p.resolve_id_to_object(&vs("zzz"), &s("Author"));
    assert!(veq(&out, &Value::Null));
    let out = p.resolve_id_to_object(
        &Value::Array(vec![vs("a1"), vs("zzz"), Value::Null]),
        &s("Author"),
    );
    match out {
        Value::Array(items) => {
            assert_eq!(items.len(), 1);
            assert!(veq(&items[0], &rec(vec![("id", vs("a1")), ("name", vs("Ada"))])));
        }
        _ => panic!("expected an array"),
    }
}

#[test]
fn enum_leaves_keep_their_literal() {
    let schema = catalog(
        vec![
            obj_type("Query", vec![]),
            obj_type("Item", vec![field_def("id", "ID", false), field_def("color", "Color", false)]),
        ],
        vec![StructureEnum { name: s("Color"), description: s(""), values: vec![s("RED")] }],
        vec![],
    );
    let db: DatabaseIndex =
        vec![(s("Item"), vec![rec(vec![("id", vs("i1")), ("color", vs("RED"))])])];
    let p = QueryParser::new(db, schema, meta_schema()).unwrap();
    let ast = query_doc(vec![fld(
        "values__of_Item",
        vec![fld("color", vec![fld("ignored", vec![])])],
    )]);
    let out = p.traverse_query(&ast);
    let expected = rec(vec![("values__of_Item", Value::Array(vec![rec(vec![("color", vs("RED"))])]))]);
    assert!(veq(&out, &expected));
}

#[test]
fn all_references_array_and_singular() {
    let db: DatabaseIndex = vec![(
        s("Book"),
        vec![rec(vec![("id", vs("b1"))]), rec(vec![("id", vs("b2"))])],
    )];
    let schema = catalog(vec![obj_type("Query", vec![]), obj_type("Book", vec![field_def("id", "ID", false)])], vec![], vec![]);
    let p = QueryParser::new(db, schema, meta_schema()).unwrap();
    let ctx = ResolverContext { parser: &p };
    let all_refs = Some(StructureDataResolver {
        kind: ResolverKind::AllReferences,
        flags: vec![],
        args: vec![],
    });
    let array_field = StructureField {
        name: s("books"),
        description: s(""),
        data_type: StructureDataType { kind: StructureDataKind::Reference(s("Book")), resolver: all_refs.clone() },
        return_type: StructureReturnType {
            name: s("Book"),
            is_array: true,
            is_nullable: false,
            is_array_nonnullable: false,
        },
    };
    let out = resolve(&Value::Null, &vec![], &ctx, &array_field);
    assert!(veq(&out, &Value::Array(vec![vs("b1"), vs("b2")])));
    let mut single_field = array_field;
    single_field.return_type.is_array = false;
    let out = resolve(&Value::Null, &vec![], &ctx, &single_field);
    assert!(veq(&out, &vs("b1")));
}

#[test]
fn data_resolver_unwraps_single_element_arrays() {
    let p = book_parser("a1");
    let ctx = ResolverContext { parser: &p };
    let info = field_def("tag", "String", false);
    let parent = rec(vec![("tag", Value::Array(vec![vs("only")]))]);
    let out = resolve(&parent, &vec![], &ctx, &info);
    assert!(veq(&out, &vs("only")));
    let missing = resolve(&rec(vec![]), &vec![], &ctx, &info);
    assert!(veq(&missing, &Value::Null));
}

#[test]
fn mutation_resolvers_are_null_stubs() {
    let p = book_parser("a1");
    let ctx = ResolverContext { parser: &p };
    for kind in [ResolverKind::Create, ResolverKind::Update, ResolverKind::Delete, ResolverKind::Substitution] {
        let mut info = field_def("createBook", "Book", false);
        info.data_type.resolver =
            Some(StructureDataResolver { kind, flags: vec![s("Book")], args: vec![] });
        let out = resolve(&rec(vec![]), &vec![], &ctx, &info);
        assert!(veq(&out, &Value::Null));
    }
}

#[test]
fn integer_id_kinds_index_and_resolve() {
    let mut item = obj_type("Item", vec![field_def("id", "Int", false)]);
    assert!(matches!(item.fields[0].data_type.kind, StructureDataKind::I32));
    let schema = catalog(vec![obj_type("Query", vec![]), item.clone()], vec![], vec![]);
    let db: DatabaseIndex = vec![(s("Item"), vec![rec(vec![("id", Value::Int(7))])])];
    let p = QueryParser::new(db, schema, meta_schema()).unwrap();
    let out = p.resolve_id_to_object(&Value::Int(7), &s("Item"));
    assert!(veq(&out, &rec(vec![("id", Value::Int(7))])));
    assert!(veq(&p.resolve_id_to_object(&Value::Int(8), &s("Item")), &Value::Null));

    // An unsigned 64-bit id field, as a hand-written catalog would declare it.
    item.fields[0].data_type.kind = StructureDataKind::U64;
    item.name = s("Wide");
    let schema = catalog(vec![obj_type("Query", vec![]), item], vec![], vec![]);
    let db: DatabaseIndex = vec![(s("Wide"), vec![rec(vec![("id", Value::UInt(u64::MAX))])])];
    let p = QueryParser::new(db, schema, meta_schema()).unwrap();
    let out = p.resolve_id_to_object(&Value::UInt(u64::MAX), &s("Wide"));
    assert!(veq(&out, &rec(vec![("id", Value::UInt(u64::MAX))])));
}

#[test]
fn build_error_missing_query_type() {
    let schema = catalog(vec![obj_type("Author", vec![field_def("id", "ID", false)])], vec![], vec![]);
    let r = QueryParser::new(vec![], schema, meta_schema());
    assert!(matches!(r, Err(BuildError::MissingQueryType)));
}

#[test]
fn build_error_unsupported_id_kind() {
    let schema = catalog(
        vec![obj_type("Query", vec![]), obj_type("Bad", vec![field_def("id", "Float", false)])],
        vec![],
        vec![],
    );
    let db: DatabaseIndex = vec![(s("Bad"), vec![rec(vec![("id", vs("x"))])])];
    match QueryParser::new(db, schema, meta_schema()) {
        Err(BuildError::UnsupportedIdKind { object_name }) => assert_eq!(object_name, s("Bad")),
        other => panic!("expected an unsupported id kind: {:?}", other.err()),
    }
}

#[test]
fn build_error_id_mismatch_names_first_bad_record() {
    let schema = book_schema();
    let db: DatabaseIndex = vec![
        (s("Author"), vec![rec(vec![("id", vs("a1"))]), rec(vec![("id", Value::Int(5))])]),
    ];
    match QueryParser::new(db, schema, meta_schema()) {
        Err(BuildError::IdMismatch { object_name, position }) => {
            assert_eq!(object_name, s("Author"));
            assert_eq!(position, 1);
        }
        other => panic!("expected an id mismatch: {:?}", other.err()),
    }
}

#[test]
fn unindexed_types_build_without_an_index() {
    // A type with records but no id field, and a type with no records, both
    // stay unindexable; referencing into them degrades to null.
    let schema = catalog(
        vec![
            obj_type("Query", vec![]),
            obj_type("NoId", vec![field_def("label", "String", false)]),
            obj_type("Empty", vec![field_def("id", "ID", false)]),
        ],
        vec![],
        vec![],
    );
    let db: DatabaseIndex = vec![(s("NoId"), vec![rec(vec![("label", vs("l"))])])];
    let h = build_hashmaps(&db, &schema).unwrap();
    assert!(h.iter().find(|(k, _)| k == "NoId").unwrap().1.is_none());
    assert!(h.iter().find(|(k, _)| k == "Empty").unwrap().1.is_none());
    let p = QueryParser::new(db, schema, meta_schema()).unwrap();
    assert!(veq(&p.resolve_id_to_object(&vs("x"), &s("NoId")), &Value::Null));
}

#[test]
fn type_expression_wrappers_stay_distinguishable() {
    let nn_list = TypeExpr::NonNull(Box::new(TypeExpr::List(Box::new(TypeExpr::Named(s("T"))))));
    let r = get_field_type(&nn_list);
    assert_eq!(r.name, s("T"));
    assert!(r.is_array);
    assert!(r.is_array_nonnullable);
    assert!(r.is_nullable);

    let list_nn = TypeExpr::List(Box::new(TypeExpr::NonNull(Box::new(TypeExpr::Named(s("T"))))));
    let r = get_field_type(&list_nn);
    assert_eq!(r.name, s("T"));
    assert!(r.is_array);
    assert!(!r.is_array_nonnullable);
    assert!(!r.is_nullable);
}

#[test]
fn resolver_convention_by_object_and_prefix() {
    let rt = |n: &str| StructureReturnType {
        name: s(n),
        is_array: false,
        is_nullable: true,
        is_array_nonnullable: false,
    };
    let r = get_data_type(&rt("Book"), "", "Query", "anything");
    assert!(matches!(r.resolver, Some(StructureDataResolver { kind: ResolverKind::AllReferences, .. })));

    let r = get_data_type(&rt("Book"), "", "Mutation", "createBook");
    match r.resolver {
        Some(res) => {
            assert!(matches!(res.kind, ResolverKind::Create));
            assert_eq!(res.flags, vec![s("Book")]);
        }
        None => panic!("expected a resolver"),
    }
    let r = get_data_type(&rt("Book"), "", "Mutation", "deleteBook");
    assert!(matches!(r.resolver, Some(StructureDataResolver { kind: ResolverKind::Delete, .. })));
    let r = get_data_type(&rt("Book"), "", "Mutation", "renameBook");
    assert!(r.resolver.is_none());
    let r = get_data_type(&rt("Book"), "", "Book", "title");
    assert!(r.resolver.is_none());

    // The description marker forces a 32-bit kind.
    let r = get_data_type(&rt("String"), "stored @type as i32; really", "Book", "n");
    assert!(matches!(r.kind, StructureDataKind::I32));
}

#[test]
fn traverse_schema_compiles_declarations_in_order() {
    let doc = SchemaDocument {
        definitions: vec![
            SchemaDefinition::Type(TypeDefinition::Object(ObjectDef {
                name: s("Query"),
                description: None,
                fields: vec![],
            })),
            SchemaDefinition::Type(TypeDefinition::Enum(EnumDef {
                name: s("Color"),
                description: Some(s("colors")),
                values: vec![s("RED"), s("BLUE")],
            })),
            SchemaDefinition::Type(TypeDefinition::Object(ObjectDef {
                name: s("Book"),
                description: None,
                fields: vec![FieldDef {
                    name: s("id"),
                    description: None,
                    field_type: TypeExpr::NonNull(Box::new(TypeExpr::Named(s("ID")))),
                }],
            })),
        ],
    };
    let c = traverse_schema(&doc);
    assert_eq!(c.objects.len(), 2);
    assert_eq!(c.objects[0].name, s("Query"));
    assert_eq!(c.objects[1].name, s("Book"));
    assert_eq!(c.objects[1].fields.len(), 1);
    assert!(matches!(c.objects[1].fields[0].data_type.kind, StructureDataKind::Str));
    assert!(!c.objects[1].fields[0].return_type.is_nullable);
    assert_eq!(c.enums.len(), 1);
    assert_eq!(c.enums[0].values, vec![s("RED"), s("BLUE")]);
    assert_eq!(c.scalars.len(), 0);
}

#[test]
fn introspection_records_have_the_declared_shape() {
    let c = catalog(
        vec![obj_type("Book", vec![field_def("title", "String", false)])],
        vec![StructureEnum { name: s("Color"), description: s(""), values: vec![s("RED")] }],
        vec![StructureScalar { name: s("Date"), description: s("a date") }],
    );
    let intros = build_schema_instropection(&c, meta_schema());
    let types = &intros.database.iter().find(|(k, _)| k == "__Type").unwrap().1;
    // One record per declared scalar, object and enum, plus five built-ins.
    assert_eq!(types.len(), 1 + 1 + 1 + 5);
    assert!(veq(
        &types[0],
        &rec(vec![
            ("id", vs("Date")),
            ("name", vs("Date")),
            ("kind", vs("SCALAR")),
            ("description", vs("a date")),
            ("interfaces", Value::Array(vec![])),
        ]),
    ));
    let fields = &intros.database.iter().find(|(k, _)| k == "__Field").unwrap().1;
    assert_eq!(fields.len(), 1);
    assert!(veq(
        &fields[0],
        &rec(vec![
            ("id", vs("Book.title")),
            ("name", vs("title")),
            ("description", vs("")),
            ("isDeprecated", Value::Bool(false)),
            ("args", Value::Array(vec![])),
            ("type", vs("String")),
        ]),
    ));
    let evs = &intros.database.iter().find(|(k, _)| k == "__EnumValue").unwrap().1;
    assert_eq!(evs.len(), 1);
    let schemas = &intros.database.iter().find(|(k, _)| k == "__Schema").unwrap().1;
    assert_eq!(schemas.len(), 1);
    match &schemas[0] {
        Value::Object(entries) => {
            let types_ids = &entries.iter().find(|(k, _)| k == "types").unwrap().1;
            assert!(veq(
                types_ids,
                &Value::Array(vec![
                    vs("Date"),
                    vs("Book"),
                    vs("Color"),
                    vs("ID"),
                    vs("Float"),
                    vs("Int"),
                    vs("String"),
                    vs("Boolean"),
                ]),
            ));
        }
        _ => panic!("expected an object"),
    }
}

#[test]
fn canonical_records_enumerate_datasets_and_types() {
    let all = vec![(s("library"), book_schema())];
    let db = build_canonical_records(&all);
    assert_eq!(db.len(), 3);
    let dbs = &db.iter().find(|(k, _)| k == "Database").unwrap().1;
    assert_eq!(dbs.len(), 1);
    assert!(veq(
        &dbs[0],
        &rec(vec![
            ("id", vs("library")),
            ("name", vs("library")),
            ("types", Value::Array(vec![])),
            ("enums", Value::Array(vec![])),
        ]),
    ));
    let objs = &db.iter().find(|(k, _)| k == "Object").unwrap().1;
    assert_eq!(objs.len(), 3);
    assert!(veq(
        &objs[2],
        &rec(vec![("id", vs("library.Book")), ("name", vs("Book")), ("description", vs(""))]),
    ));
}

#[test]
fn canonical_dataset_answers_queries() {
    let canon_schema = catalog(
        vec![
            obj_type("Query", vec![]),
            obj_type("Database", vec![field_def("id", "ID", false), field_def("name", "String", false)]),
            obj_type(
                "Object",
                vec![
                    field_def("id", "ID", false),
                    field_def("name", "String", false),
                    field_def("description", "String", false),
                ],
            ),
        ],
        vec![],
        vec![],
    );
    let mut canon_schema = canon_schema;
    canon_schema.name = s("canonical");
    let records = build_canonical_records(&vec![(s("library"), book_schema())]);
    let p = QueryParser::new(records, canon_schema, meta_schema()).unwrap();
    assert!(p.is_canonical);
    let ast = query_doc(vec![fld("values__of_Database", vec![fld("name", vec![])])]);
    let out = p.traverse_query(&ast);
    let expected = rec(vec![(
        "values__of_Database",
        Value::Array(vec![rec(vec![("name", vs("library"))])]),
    )]);
    assert!(veq(&out, &expected));
}

#[test]
fn unknown_fragment_is_skipped_and_cycles_exhaust_quietly() {
    let p = book_parser("a1");
    let ast = Document {
        definitions: vec![Definition::Operation(OperationDefinition::Query(SelectionSet {
            items: vec![Selection::FragmentSpread(FragmentSpread { fragment_name: s("Nope") })],
        }))],
    };
    let out = p.traverse_query(&ast);
    assert!(veq(&out, &rec(vec![])));

    // A fragment that spreads itself burns the depth budget and ends.
    let ast = Document {
        definitions: vec![
            Definition::Operation(OperationDefinition::Query(SelectionSet {
                items: vec![Selection::FragmentSpread(FragmentSpread { fragment_name: s("F") })],
            })),
            Definition::Fragment(FragmentDefinition {
                name: s("F"),
                type_condition: s("Query"),
                selection_set: SelectionSet {
                    items: vec![Selection::FragmentSpread(FragmentSpread {
                        fragment_name: s("F"),
                    })],
                },
            }),
        ],
    };
    let out = p.traverse_query(&ast);
    assert!(veq(&out, &rec(vec![])));
}

#[test]
fn bare_selection_set_defaults_to_query_and_documents_without_operations_are_detected() {
    let p = book_parser("a1");
    let ast = Document {
        definitions: vec![Definition::Operation(OperationDefinition::SelectionSet(
            SelectionSet { items: vec![fld("values__of_Author", vec![fld("name", vec![])])] },
        ))],
    };
    assert!(has_operation(&ast));
    let out = p.traverse_query(&ast);
    let expected = rec(vec![(
        "values__of_Author",
        Value::Array(vec![rec(vec![("name", vs("Ada"))])]),
    )]);
    assert!(veq(&out, &expected));

    let empty = Document { definitions: vec![] };
    assert!(!has_operation(&empty));
    let only_frag = Document {
        definitions: vec![Definition::Fragment(FragmentDefinition {
            name: s("F"),
            type_condition: s("Book"),
            selection_set: SelectionSet { items: vec![] },
        })],
    };
    assert!(!has_operation(&only_frag));
}

#[test]
fn roots_are_synthesized_even_when_empty() {
    // The source data leaves Query present but empty; loading replaces it
    // with the singleton root record.
    let db: DatabaseIndex = vec![(s("Query"), vec![])];
    let p = QueryParser::new(db, book_schema(), meta_schema()).unwrap();
    // Book itself has no store entry, so its bulk listing degrades to null;
    // what matters is that the synthesized Query root made the request
    // answerable at all.
    let ast = query_doc(vec![fld("values__of_Book", vec![fld("title", vec![])])]);
    let out = p.traverse_query(&ast);
    assert!(veq(&out, &rec(vec![("values__of_Book", Value::Null)])));
}

#[test]
fn inline_fragments_are_ignored() {
    let p = book_parser("a1");
    let ast = query_doc(vec![fld(
        "values__of_Book",
        vec![
            fld("title", vec![]),
            Selection::InlineFragment(SelectionSet { items: vec![fld("author", vec![])] }),
        ],
    )]);
    let out = p.traverse_query(&ast);
    let expected = rec(vec![(
        "values__of_Book",
        Value::Array(vec![rec(vec![("title", vs("X"))])]),
    )]);
    assert!(veq(&out, &expected));
}

#[test]
fn mutation_operations_dispatch_to_null_stubs() {
    let mut schema = book_schema();
    schema.objects.push(obj_type(
        "Mutation",
        vec![StructureField::from(
            s("createBook"),
            s(""),
            s("Book"),
            false,
            Some(StructureDataResolver {
                kind: ResolverKind::Create,
                flags: vec![s("Book")],
                args: vec![],
            }),
        )],
    ));
    let p = QueryParser::new(book_db("a1"), schema, meta_schema()).unwrap();
    let ast = Document {
        definitions: vec![Definition::Operation(OperationDefinition::Mutation(SelectionSet {
            items: vec![fld("createBook", vec![fld("title", vec![])])],
        }))],
    };
    let out = p.traverse_query(&ast);
    assert!(veq(&out, &rec(vec![("createBook", Value::Null)])));
}

#[test]
fn aliases_key_the_result() {
    let p = book_parser("a1");
    let ast = query_doc(vec![fld_as(
        "books",
        "values__of_Book",
        vec![fld_as("heading", "title", vec![])],
    )]);
    let out = p.traverse_query(&ast);
    let expected = rec(vec![(
        "books",
        Value::Array(vec![rec(vec![("heading", vs("X"))])]),
    )]);
    assert!(veq(&out, &expected));
}

#[test]
fn mistyped_query_time_id_fails_softly() {
    // The Author index is keyed by strings; probing it with a number is a
    // failed lookup, not a fault.
    let p = book_parser("a1");
    let out = p.resolve_id_to_object(&Value::Int(3), &s("Author"));
    assert!(veq(&out, &Value::Null));
    let out = p.resolve_id_to_object(&Value::Bool(true), &s("Author"));
    assert!(veq(&out, &Value::Null));
}
