use cornucopia::assembler::{prepare, Preparation, PreparedContent};
use cornucopia::grammar::parse_module;
use cornucopia::pg::{Column, DbError, PgField, PgKind, PgType, Statement};
use cornucopia::prepare_queries::PreparedField;
use cornucopia::validation::{validate_module, ValidatedModule};

fn prepare_ok(
    modules: Vec<ValidatedModule>,
    outcomes: Vec<Vec<Result<Statement, DbError>>>,
) -> Preparation {
    let (preparation, errors) = prepare(modules, outcomes);
    assert!(errors.is_empty(), "{errors:?}");
    preparation
}

fn scalar(oid: u32, name: &str) -> PgType {
    PgType { oid, schema: "pg_catalog".to_string(), name: name.to_string(), kind: PgKind::Simple }
}

fn column(name: &str, ty: PgType) -> Column {
    Column { name: name.to_string(), ty }
}

fn address() -> PgType {
    PgType {
        oid: 50000,
        schema: "public".to_string(),
        name: "address".to_string(),
        kind: PgKind::Composite(vec![
            PgField { name: "street".to_string(), ty: scalar(25, "text") },
            PgField { name: "number".to_string(), ty: scalar(23, "int4") },
        ]),
    }
}

const AUTHORS: &str = "\
Author(id: int4, name: text, home: address?)
all_authors([], Author) SELECT name, id, home FROM Author;
by_name([], Author) SELECT home, name, id FROM Author WHERE name = :name;
rename([], []) UPDATE Author SET name = :new WHERE id = :id AND name = :old;
";

const BOOKS: &str = "\
titles([], []) SELECT title FROM Book;
add([title], []) INSERT INTO Book(title, author) VALUES (:title, :author);
add_again([title], []) INSERT INTO Book(author, title) VALUES (:author, :title);
";

fn validated(name: &str, text: &str) -> ValidatedModule {
    let parsed = parse_module(format!("queries/{name}.sql"), name.to_string(), text).unwrap();
    let (module, errors) = validate_module(parsed);
    assert!(errors.is_empty(), "{errors:?}");
    module
}

fn author_columns(order: &[&str]) -> Vec<Column> {
    order
        .iter()
        .map(|name| match *name {
            "id" => column("id", scalar(23, "int4")),
            "name" => column("name", scalar(25, "text")),
            _ => column("home", address()),
        })
        .collect()
}

fn outcomes() -> Vec<Vec<Result<Statement, DbError>>> {
    let text = || scalar(25, "text");
    vec![
        vec![
            Ok(Statement { params: vec![], columns: vec![column("title", text())] }),
            Ok(Statement { params: vec![text(), scalar(23, "int4")], columns: vec![] }),
            Ok(Statement { params: vec![scalar(23, "int4"), text()], columns: vec![] }),
        ],
        vec![
            Ok(Statement { params: vec![], columns: author_columns(&["name", "id", "home"]) }),
            Ok(Statement { params: vec![text()], columns: author_columns(&["home", "name", "id"]) }),
            Ok(Statement { params: vec![text(), scalar(23, "int4"), text()], columns: vec![] }),
        ],
    ]
}

fn run() -> Preparation {
    prepare_ok(vec![validated("books", BOOKS), validated("authors", AUTHORS)], outcomes())
}

#[test]
fn the_same_input_gives_the_same_preparation() {
    assert_eq!(format!("{:?}", run().modules), format!("{:?}", run().modules));
    assert_eq!(format!("{:?}", run().types.as_vec()), format!("{:?}", run().types.as_vec()));
    assert_eq!(format!("{:?}", run().registrar), format!("{:?}", run().registrar));
    let names: Vec<String> = run().modules.iter().map(|m| m.name.clone()).collect();
    assert_eq!(names, vec!["authors", "books"]);
}

#[test]
fn each_row_field_stands_for_the_wire_column_its_place_names() {
    let preparation = run();
    let wire = outcomes();
    // Modules come out sorted, so `authors` is first though it was given second.
    let authors = &preparation.modules[0];
    for (q, stmt) in wire[1].iter().enumerate() {
        let stmt = stmt.as_ref().unwrap();
        let query = authors.queries.get(q);
        let Some((row_idx, col_idx)) = &query.row else {
            assert!(stmt.columns.is_empty());
            continue;
        };
        let row = authors.rows.get(*row_idx);
        assert_eq!(row.fields.len(), col_idx.len());
        assert_eq!(row.fields.len(), stmt.columns.len());
        for (i, field) in row.fields.iter().enumerate() {
            let column = &stmt.columns[col_idx[i]];
            assert_eq!(field.name, column.name);
            let registered = preparation.registrar.get(field.ty);
            assert_eq!((&registered.schema, &registered.name), (&column.ty.schema, &column.ty.name));
            assert_eq!(field.is_nullable, field.name == "home");
        }
    }
    assert_eq!(authors.queries.get(0).row, Some((0, vec![2, 1, 0])));
    assert_eq!(authors.queries.get(1).row, Some((0, vec![0, 2, 1])));
    assert_eq!(authors.rows.len(), 1);
}

fn sorted_by_name(fields: &[PreparedField]) -> Vec<PreparedField> {
    let mut sorted = fields.to_vec();
    sorted.sort_by(|a, b| a.name.cmp(&b.name));
    sorted
}

#[test]
fn each_params_struct_lists_the_queries_that_have_its_fields() {
    let preparation = run();
    let mut edges = 0;
    for module in &preparation.modules {
        for params in module.params.as_vec() {
            assert_eq!(params.fields, sorted_by_name(&params.fields));
            for q in &params.queries {
                assert_eq!(sorted_by_name(&module.queries.get(*q).params), params.fields);
                edges += 1;
            }
        }
    }
    assert_eq!(edges, 4);
    let books = &preparation.modules[1];
    assert_eq!(books.params.get(0).name, "AddParams");
    assert_eq!(books.params.get(0).queries, vec![1]);
    assert_eq!(books.params.get(1).name, "AddAgainParams");
}

#[test]
fn every_field_has_a_type_of_the_table() {
    let preparation = run();
    let len = preparation.registrar.len();
    let mut seen = 0;
    let mut check = |fields: &[PreparedField]| {
        for field in fields {
            assert!(field.ty.index < len);
            seen += 1;
        }
    };
    for module in &preparation.modules {
        for query in module.queries.as_vec() {
            check(&query.params);
        }
        for params in module.params.as_vec() {
            check(&params.fields);
        }
        for row in module.rows.as_vec() {
            check(&row.fields);
        }
    }
    for types in preparation.types.as_vec() {
        for ty in types {
            match &ty.content {
                PreparedContent::Enum(_) => {},
                PreparedContent::Domain(inner) => check(std::slice::from_ref(inner)),
                PreparedContent::Composite(fields) => check(fields),
            }
        }
    }
    assert_eq!(seen, 22);
}

#[test]
fn a_row_that_comes_in_order_has_the_identity_as_column_order() {
    let module = validated("m", "q([], []) SELECT a, b, c FROM t;");
    let columns = vec![
        column("a", scalar(23, "int4")),
        column("b", scalar(23, "int4")),
        column("c", scalar(23, "int4")),
    ];
    let preparation =
        prepare_ok(vec![module], vec![vec![Ok(Statement { params: vec![], columns })]]);
    assert_eq!(preparation.modules[0].queries.get(0).row, Some((0, vec![0, 1, 2])));
    assert!(preparation.modules[0].rows.get(0).is_copy);
}

#[test]
fn nullable_names_of_a_prepared_query_are_names_of_its_statement() {
    let module = validated(
        "m",
        "q([a, c], [x]) SELECT x, y FROM t WHERE a = :a AND b = :b AND c = :c;",
    );
    let int = || scalar(23, "int4");
    let stmt = Statement {
        params: vec![int(), int(), int()],
        columns: vec![column("x", int()), column("y", int())],
    };
    let preparation = prepare_ok(vec![module], vec![vec![Ok(stmt)]]);
    let query = preparation.modules[0].queries.get(0);
    let nullable: Vec<&str> =
        query.params.iter().filter(|p| p.is_nullable).map(|p| p.name.as_str()).collect();
    assert_eq!(nullable, vec!["a", "c"]);
    let row = preparation.modules[0].rows.get(0);
    let nullable: Vec<&str> =
        row.fields.iter().filter(|p| p.is_nullable).map(|p| p.name.as_str()).collect();
    assert_eq!(nullable, vec!["x"]);
}

#[test]
fn a_struct_with_an_array_field_is_no_copy_and_a_domain_is_what_its_base_is() {
    let ints = PgType {
        oid: 1007,
        schema: "pg_catalog".to_string(),
        name: "_int4".to_string(),
        kind: PgKind::Array(Box::new(scalar(23, "int4"))),
    };
    let domain = |name: &str, base: PgType| PgType {
        oid: 60000,
        schema: "public".to_string(),
        name: name.to_string(),
        kind: PgKind::Domain(Box::new(base)),
    };
    let modules = vec![validated(
        "m",
        "plain([], []) SELECT n, positive FROM t;\n\
         listed([], []) SELECT n, many FROM t WHERE tags = :tags;\n\
         labelled([], []) SELECT label FROM t;",
    )];
    let outcomes = vec![vec![
        Ok(Statement {
            params: vec![],
            columns: vec![
                column("n", scalar(23, "int4")),
                column("positive", domain("positive", scalar(23, "int4"))),
            ],
        }),
        Ok(Statement {
            params: vec![ints.deep_clone()],
            columns: vec![column("n", scalar(23, "int4")), column("many", ints)],
        }),
        Ok(Statement {
            params: vec![],
            columns: vec![column("label", domain("label", scalar(25, "text")))],
        }),
    ]];
    let preparation = prepare_ok(modules, outcomes);
    let module = &preparation.modules[0];
    let copy_of = |name: &str| {
        let at = module.rows.index_of(name).unwrap();
        module.rows.get(at).is_copy
    };
    assert!(copy_of("Plain"));
    assert!(!copy_of("Listed"));
    assert!(!copy_of("Labelled"));
    assert!(!module.params.get(0).is_copy);
    for (i, entry) in preparation.registrar.types.iter().enumerate() {
        let handle = cornucopia::type_registrar::TypeHandle { index: i };
        match &entry.ty {
            cornucopia::type_registrar::CornucopiaType::Array { .. } => {
                assert!(!preparation.registrar.is_copy(handle))
            },
            cornucopia::type_registrar::CornucopiaType::Domain { inner } => assert_eq!(
                preparation.registrar.is_copy(handle),
                preparation.registrar.is_copy(*inner)
            ),
            _ => {},
        }
    }
}
