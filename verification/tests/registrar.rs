use cornucopia::assembler::{prepare_type, prepare_types, PreparedContent};
use cornucopia::pg::{PgField, PgKind, PgType};
use cornucopia::prepare_queries::PreparedField;
use cornucopia::type_registrar::{
    scalar_copy, CornucopiaType, Error, RegisteredType, TypeHandle, TypeRegistrar, UnsupportedKind,
};

fn scalar(oid: u32, name: &str) -> PgType {
    PgType { oid, schema: "pg_catalog".to_string(), name: name.to_string(), kind: PgKind::Simple }
}

fn public(name: &str, kind: PgKind) -> PgType {
    PgType { oid: 70000, schema: "public".to_string(), name: name.to_string(), kind }
}

fn composite(name: &str, fields: Vec<(&str, PgType)>) -> PgType {
    public(
        name,
        PgKind::Composite(
            fields.into_iter().map(|(name, ty)| PgField { name: name.to_string(), ty }).collect(),
        ),
    )
}

#[test]
fn registering_twice_gives_the_same_handle() {
    let mut registrar = TypeRegistrar::new();
    let first = registrar.register(&scalar(23, "int4")).unwrap();
    let second = registrar.register(&scalar(23, "int4")).unwrap();
    assert_eq!(first, TypeHandle { index: 0 });
    assert_eq!(first, second);
    assert_eq!(registrar.len(), 1);
}

#[test]
fn scalars_are_copies_or_not_by_a_fixed_table() {
    // int4, float8, uuid and timestamp are copies; text, bytea and json are not.
    assert_eq!(scalar_copy(23), Some(true));
    assert_eq!(scalar_copy(701), Some(true));
    assert_eq!(scalar_copy(2950), Some(true));
    assert_eq!(scalar_copy(1114), Some(true));
    assert_eq!(scalar_copy(25), Some(false));
    assert_eq!(scalar_copy(17), Some(false));
    assert_eq!(scalar_copy(114), Some(false));
    // numeric is outside the set.
    assert_eq!(scalar_copy(1700), None);
}

#[test]
fn a_scalar_outside_the_table_is_refused() {
    let mut registrar = TypeRegistrar::new();
    let error = registrar.register(&scalar(1700, "numeric")).unwrap_err();
    match &error {
        Error::UnsupportedPostgresType { schema, name, kind } => {
            assert_eq!(schema, "pg_catalog");
            assert_eq!(name, "numeric");
            assert_eq!(*kind, UnsupportedKind::Scalar);
        },
    }
    assert_eq!(
        error.message(),
        "Couldn't register SQL type `pg_catalog.numeric`: unsupported scalar"
    );
    assert_eq!(registrar.len(), 0);
}

#[test]
fn a_pseudo_type_is_refused() {
    let mut registrar = TypeRegistrar::new();
    let record = PgType {
        oid: 2249,
        schema: "pg_catalog".to_string(),
        name: "record".to_string(),
        kind: PgKind::Pseudo,
    };
    let error = registrar.register(&record).unwrap_err();
    assert_eq!(
        error.message(),
        "Couldn't register SQL type `pg_catalog.record`: unsupported pseudo type"
    );
}

#[test]
fn an_array_is_never_a_copy() {
    let mut registrar = TypeRegistrar::new();
    let array = PgType {
        oid: 1007,
        schema: "pg_catalog".to_string(),
        name: "_int4".to_string(),
        kind: PgKind::Array(Box::new(scalar(23, "int4"))),
    };
    let handle = registrar.register(&array).unwrap();
    // The element first, then the array.
    assert_eq!(handle, TypeHandle { index: 1 });
    assert_eq!(registrar.types[0].name, "int4");
    assert!(matches!(
        registrar.types[1].ty,
        CornucopiaType::Array { inner: TypeHandle { index: 0 } }
    ));
    assert!(registrar.is_copy(TypeHandle { index: 0 }));
    assert!(!registrar.is_copy(handle));
    assert!(!registrar.is_params(handle));
}

#[test]
fn an_array_of_an_unsupported_type_is_refused_for_its_element() {
    let mut registrar = TypeRegistrar::new();
    let array = PgType {
        oid: 1231,
        schema: "pg_catalog".to_string(),
        name: "_numeric".to_string(),
        kind: PgKind::Array(Box::new(scalar(1700, "numeric"))),
    };
    match registrar.register(&array).unwrap_err() {
        Error::UnsupportedPostgresType { name, .. } => assert_eq!(name, "numeric"),
    }
}

#[test]
fn a_domain_is_what_its_base_is() {
    let mut registrar = TypeRegistrar::new();
    let over_int = public("positive", PgKind::Domain(Box::new(scalar(23, "int4"))));
    let over_text = public("label", PgKind::Domain(Box::new(scalar(25, "text"))));
    let over_bytes = public("blob", PgKind::Domain(Box::new(scalar(17, "bytea"))));
    let positive = registrar.register(&over_int).unwrap();
    let label = registrar.register(&over_text).unwrap();
    let blob = registrar.register(&over_bytes).unwrap();
    assert!(matches!(registrar.get(positive).ty, CornucopiaType::Domain { .. }));
    assert!(registrar.is_copy(positive));
    assert!(registrar.is_params(positive));
    assert!(!registrar.is_copy(label));
    assert!(registrar.is_params(label));
    assert!(!registrar.is_copy(blob));
    assert!(!registrar.is_params(blob));
}

#[test]
fn a_composite_is_a_copy_exactly_if_all_fields_are() {
    let mut registrar = TypeRegistrar::new();
    let point = composite("point2", vec![("x", scalar(701, "float8")), ("y", scalar(701, "float8"))]);
    let named = composite("named", vec![("at", point.deep_clone()), ("name", scalar(25, "text"))]);
    let blobbed = composite("blobbed", vec![("at", point.deep_clone()), ("data", scalar(17, "bytea"))]);
    let point_handle = registrar.register(&point).unwrap();
    let named_handle = registrar.register(&named).unwrap();
    let blobbed_handle = registrar.register(&blobbed).unwrap();
    assert!(registrar.is_copy(point_handle));
    assert!(registrar.is_params(point_handle));
    // A string makes it no copy, but it can still stand in a parameter.
    assert!(!registrar.is_copy(named_handle));
    assert!(registrar.is_params(named_handle));
    // Bytes have no borrowed form among the fields of a parameter.
    assert!(!registrar.is_copy(blobbed_handle));
    assert!(!registrar.is_params(blobbed_handle));
    let names: Vec<&str> = registrar.types.iter().map(|t| t.name.as_str()).collect();
    assert_eq!(names, vec!["float8", "point2", "text", "named", "bytea", "blobbed"]);
    match &registrar.get(named_handle).ty {
        CornucopiaType::Custom { struct_name, pg_ty, .. } => {
            assert_eq!(struct_name, "Named");
            assert_eq!(pg_ty.name, "named");
        },
        other => panic!("not a custom type: {other:?}"),
    }
}

#[test]
fn what_was_registered_before_a_failure_stays() {
    let mut registrar = TypeRegistrar::new();
    let mixed = composite("mixed", vec![("n", scalar(23, "int4")), ("amount", scalar(1700, "numeric"))]);
    assert!(registrar.register(&mixed).is_err());
    assert_eq!(registrar.len(), 1);
    assert_eq!(registrar.types[0].name, "int4");
    assert!(registrar.find(&"public".to_string(), &"mixed".to_string()).is_none());
}

#[test]
fn types_are_keyed_by_schema_and_name() {
    let mut registrar = TypeRegistrar::new();
    let here = public("mood", PgKind::Enum(vec!["sad".to_string(), "happy".to_string()]));
    let there = PgType {
        oid: 70001,
        schema: "other".to_string(),
        name: "mood".to_string(),
        kind: PgKind::Enum(vec!["calm".to_string()]),
    };
    let first = registrar.register(&here).unwrap();
    let second = registrar.register(&there).unwrap();
    assert_ne!(first, second);
    assert_eq!(registrar.find(&"other".to_string(), &"mood".to_string()), Some(second));
    assert_eq!(registrar.ref_of(&here), first);
    assert_eq!(registrar.find(&"public".to_string(), &"mode".to_string()), None);
}

#[test]
fn deep_clone_copies_everything() {
    let nested = composite(
        "outer",
        vec![(
            "inner",
            public("inner", PgKind::Array(Box::new(public("mood", PgKind::Enum(vec!["a".to_string()]))))),
        )],
    );
    let copy = nested.deep_clone();
    assert_eq!(format!("{copy:?}"), format!("{nested:?}"));
}

#[test]
fn only_custom_types_get_a_definition() {
    let mut registrar = TypeRegistrar::default();
    let int = registrar.register(&scalar(23, "int4")).unwrap();
    let entry = registrar.get(int);
    assert_eq!(prepare_type(&registrar, &entry.name, &entry.ty), None);
    let array = CornucopiaType::Array { inner: int };
    assert_eq!(prepare_type(&registrar, &"_int4".to_string(), &array), None);
    let domain = CornucopiaType::Domain { inner: int };
    assert_eq!(prepare_type(&registrar, &"positive".to_string(), &domain), None);
}

#[test]
fn a_custom_type_over_a_domain_has_the_base_as_its_inner_field() {
    let mut registrar = TypeRegistrar::new();
    let int = registrar.register(&scalar(23, "int4")).unwrap();
    let custom = CornucopiaType::Custom {
        pg_ty: public("positive", PgKind::Domain(Box::new(scalar(23, "int4")))),
        struct_name: "Positive".to_string(),
        is_copy: true,
        is_params: true,
    };
    let prepared = prepare_type(&registrar, &"positive".to_string(), &custom).unwrap();
    assert_eq!(prepared.name, "positive");
    assert_eq!(prepared.struct_name, "Positive");
    assert_eq!(
        prepared.content,
        PreparedContent::Domain(PreparedField {
            name: "inner".to_string(),
            ty: int,
            is_nullable: false,
            is_inner_nullable: false,
        })
    );
    assert!(prepared.is_copy && prepared.is_params);
}

#[test]
fn custom_types_are_collected_by_schema_in_registration_order() {
    let mut registrar = TypeRegistrar::new();
    let mood = |schema: &str, name: &str| PgType {
        oid: 70000,
        schema: schema.to_string(),
        name: name.to_string(),
        kind: PgKind::Enum(vec!["a".to_string()]),
    };
    for (schema, name) in [("b", "one"), ("a", "two"), ("b", "three"), ("a", "four")] {
        registrar.register(&mood(schema, name)).unwrap();
    }
    registrar.register(&scalar(23, "int4")).unwrap();
    let types = prepare_types(&registrar);
    assert_eq!(types.len(), 2);
    assert_eq!(types.name_at(0), Some(&"b".to_string()));
    assert_eq!(types.name_at(1), Some(&"a".to_string()));
    let names = |i: usize| types.get(i).iter().map(|t| t.name.clone()).collect::<Vec<_>>();
    assert_eq!(names(0), vec!["one", "three"]);
    assert_eq!(names(1), vec!["two", "four"]);
    let entry: &RegisteredType = registrar.get(TypeHandle { index: 4 });
    assert_eq!(entry.schema, "pg_catalog");
}
