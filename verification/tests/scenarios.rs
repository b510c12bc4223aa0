use cornucopia::assembler::{prepare, Preparation, PreparedContent, PreparedType};
use cornucopia::parser::{
    AnnotationField, NullableIdent, Parsed, Position, QueryDataStructure, TypeAnnotation,
};
use cornucopia::pg::{Column, DbError, PgField, PgKind, PgType, Statement};
use cornucopia::prepare_queries::{Error, ErrorVariant, PreparedField, PreparedModule};
use cornucopia::preparer::{assemble, prepare_module, prepare_query};
use cornucopia::type_registrar::{
    CornucopiaType, Error as TypeError, TypeHandle, TypeRegistrar, UnsupportedKind,
};
use cornucopia::validation::{Error as ValidationError, ValidatedModule, ValidatedQuery};

fn prepare_ok(
    modules: Vec<ValidatedModule>,
    outcomes: Vec<Vec<Result<Statement, DbError>>>,
) -> Preparation {
    let (preparation, errors) = prepare(modules, outcomes);
    assert!(errors.is_empty(), "{errors:?}");
    preparation
}

fn prepare_err(
    modules: Vec<ValidatedModule>,
    outcomes: Vec<Vec<Result<Statement, DbError>>>,
) -> Error {
    let (_, mut errors) = prepare(modules, outcomes);
    assert_eq!(errors.len(), 1, "{errors:?}");
    errors.remove(0)
}

fn parsed(line: usize, col: usize, value: &str) -> Parsed<String> {
    Parsed { pos: Position { line, col }, value: value.to_string() }
}

fn scalar(oid: u32, name: &str) -> PgType {
    PgType { oid, schema: "pg_catalog".to_string(), name: name.to_string(), kind: PgKind::Simple }
}

fn int4() -> PgType {
    scalar(23, "int4")
}

fn text() -> PgType {
    scalar(25, "text")
}

fn column(name: &str, ty: PgType) -> Column {
    Column { name: name.to_string(), ty }
}

fn persona() -> PgType {
    PgType {
        oid: 16385,
        schema: "public".to_string(),
        name: "spongebob_character".to_string(),
        kind: PgKind::Enum(vec![
            "bob".to_string(),
            "patrick".to_string(),
            "squidward".to_string(),
        ]),
    }
}

fn implicit(idents: Vec<Parsed<String>>) -> QueryDataStructure {
    QueryDataStructure::Implicit { idents }
}

fn extended(
    name: &str,
    line: usize,
    params: QueryDataStructure,
    bind_params: Vec<Parsed<String>>,
    row: QueryDataStructure,
    sql: &str,
) -> ValidatedQuery {
    ValidatedQuery::Extended {
        name: parsed(line, 4, name),
        params,
        bind_params,
        row,
        sql_str: sql.to_string(),
    }
}

fn module(name: &str, queries: Vec<ValidatedQuery>) -> ValidatedModule {
    ValidatedModule {
        path: format!("queries/{name}.sql"),
        name: name.to_string(),
        queries,
        param_types: vec![],
        row_types: vec![],
    }
}

fn field(name: &str, ty: usize, is_nullable: bool) -> PreparedField {
    PreparedField {
        name: name.to_string(),
        ty: TypeHandle { index: ty },
        is_nullable,
        is_inner_nullable: false,
    }
}

#[test]
fn insert_book_has_params_and_no_row() {
    let books = module(
        "books",
        vec![extended(
            "insert_book",
            1,
            implicit(vec![]),
            vec![parsed(1, 50, "title")],
            implicit(vec![]),
            "INSERT INTO Book(title) VALUES ($1)",
        )],
    );
    let outcomes = vec![vec![Ok(Statement { params: vec![text()], columns: vec![] })]];
    let preparation = prepare_ok(vec![books], outcomes);
    assert_eq!(preparation.modules.len(), 1);
    let module = &preparation.modules[0];
    assert_eq!(module.name, "books");
    assert_eq!(module.queries.len(), 1);
    let query = module.queries.get(0);
    assert_eq!(query.name, "insert_book");
    assert_eq!(query.params, vec![field("title", 0, false)]);
    assert_eq!(query.row, None);
    assert_eq!(query.sql, "INSERT INTO Book(title) VALUES ($1)");
    assert_eq!(module.rows.len(), 0);
    assert_eq!(module.params.len(), 1);
    let params = module.params.get(0);
    assert_eq!(params.name, "InsertBookParams");
    assert_eq!(params.fields, vec![field("title", 0, false)]);
    assert!(!params.is_copy);
    assert_eq!(params.queries, vec![0]);
    assert_eq!(module.params.index_of("InsertBookParams"), Some(0));
    assert_eq!(preparation.types.len(), 0);
}

#[test]
fn authors_row_is_sorted_and_keeps_the_wire_order() {
    let authors = module(
        "authors",
        vec![extended(
            "authors",
            3,
            implicit(vec![]),
            vec![],
            implicit(vec![]),
            "SELECT id, name, country FROM Author",
        )],
    );
    let stmt = Statement {
        params: vec![],
        columns: vec![column("id", int4()), column("name", text()), column("country", text())],
    };
    let preparation = prepare_ok(vec![authors], vec![vec![Ok(stmt)]]);
    let module = &preparation.modules[0];
    assert_eq!(module.params.len(), 0);
    assert_eq!(module.rows.len(), 1);
    let row = module.rows.get(0);
    assert_eq!(row.name, "Authors");
    assert_eq!(
        row.fields,
        vec![field("country", 1, false), field("id", 0, false), field("name", 1, false)]
    );
    assert!(!row.is_copy);
    let query = module.queries.get(0);
    assert_eq!(query.row, Some((0, vec![2, 0, 1])));
    assert!(query.params.is_empty());
    // Two types were registered, in the order of first mention.
    assert_eq!(preparation.registrar.len(), 2);
    assert_eq!(preparation.registrar.types[0].name, "int4");
    assert_eq!(preparation.registrar.types[1].name, "text");
}

fn author_annotation() -> TypeAnnotation {
    TypeAnnotation {
        name: parsed(1, 1, "Author"),
        fields: vec![
            AnnotationField { name: parsed(1, 8, "id"), ty: "int4".to_string(), is_nullable: false },
            AnnotationField { name: parsed(1, 18, "name"), ty: "text".to_string(), is_nullable: true },
        ],
    }
}

#[test]
fn same_named_row_is_interned_once() {
    let mut module = PreparedModule::new("authors".to_string(), "queries/authors.sql".to_string());
    let mut registrar = TypeRegistrar::new();
    let row_types = vec![author_annotation()];
    let first = extended(
        "by_id",
        2,
        implicit(vec![]),
        vec![],
        QueryDataStructure::Named(parsed(2, 10, "Author")),
        "SELECT id, name FROM Author",
    );
    let second = extended(
        "by_name",
        4,
        implicit(vec![]),
        vec![],
        QueryDataStructure::Named(parsed(4, 12, "Author")),
        "SELECT name, id FROM Author",
    );
    let stmt_first = Statement {
        params: vec![],
        columns: vec![column("id", int4()), column("name", text())],
    };
    let stmt_second = Statement {
        params: vec![],
        columns: vec![column("name", text()), column("id", int4())],
    };
    prepare_query(&mut module, &mut registrar, &vec![], &row_types, first, Ok(stmt_first)).unwrap();
    prepare_query(&mut module, &mut registrar, &vec![], &row_types, second, Ok(stmt_second))
        .unwrap();
    assert_eq!(module.rows.len(), 1);
    let row = module.rows.get(0);
    assert_eq!(row.name, "Author");
    assert_eq!(row.fields, vec![field("id", 0, false), field("name", 1, true)]);
    assert_eq!(module.queries.get(0).row, Some((0, vec![0, 1])));
    assert_eq!(module.queries.get(1).row, Some((0, vec![1, 0])));
}

#[test]
fn enum_column_registers_a_custom_type() {
    let characters = module(
        "characters",
        vec![extended(
            "personas",
            1,
            implicit(vec![]),
            vec![],
            implicit(vec![]),
            "SELECT persona FROM Character",
        )],
    );
    let stmt = Statement { params: vec![], columns: vec![column("persona", persona())] };
    let preparation = prepare_ok(vec![characters], vec![vec![Ok(stmt)]]);
    assert_eq!(preparation.registrar.len(), 1);
    match &preparation.registrar.types[0].ty {
        CornucopiaType::Custom { struct_name, is_copy, is_params, .. } => {
            assert_eq!(struct_name, "SpongebobCharacter");
            assert!(*is_copy);
            assert!(*is_params);
        },
        other => panic!("not a custom type: {other:?}"),
    }
    assert_eq!(preparation.types.len(), 1);
    assert_eq!(preparation.types.index_of("public"), Some(0));
    assert_eq!(
        preparation.types.get(0),
        &vec![PreparedType {
            name: "spongebob_character".to_string(),
            struct_name: "SpongebobCharacter".to_string(),
            content: PreparedContent::Enum(vec![
                "bob".to_string(),
                "patrick".to_string(),
                "squidward".to_string(),
            ]),
            is_copy: true,
            is_params: true,
        }]
    );
    let row = preparation.modules[0].rows.get(0);
    assert_eq!(row.name, "Personas");
    assert!(row.is_copy);
}

#[test]
fn two_columns_named_id_are_refused() {
    let queries = module(
        "module_1",
        vec![extended(
            "ids",
            7,
            implicit(vec![]),
            vec![],
            implicit(vec![]),
            "SELECT a.id, b.id FROM a, b",
        )],
    );
    let stmt = Statement {
        params: vec![],
        columns: vec![column("id", int4()), column("other", text()), column("id", int4())],
    };
    let error = prepare_err(vec![queries], vec![vec![Ok(stmt)]]);
    assert_eq!(error.query_name.value, "ids");
    assert_eq!(error.query_name.pos.line, 7);
    assert_eq!(error.path, "queries/module_1.sql");
    match &error.err {
        ErrorVariant::DuplicateSqlColName { name } => assert_eq!(name, "id"),
        other => panic!("another failure: {other:?}"),
    }
    assert_eq!(
        error.message(),
        "Error while preparing query \"ids\" [file: \"queries/module_1.sql\", line: 7] \
         (Two or more columns have the same name: `id`. \
         Consider disambiguing the column names with `AS` clauses.)"
    );
}

#[test]
fn same_named_row_with_other_fields_fails_and_the_first_stays() {
    let mut module = PreparedModule::new("authors".to_string(), "queries/authors.sql".to_string());
    let mut registrar = TypeRegistrar::new();
    let row_types = vec![author_annotation()];
    let first = extended(
        "by_id",
        2,
        implicit(vec![]),
        vec![],
        QueryDataStructure::Named(parsed(2, 10, "Author")),
        "SELECT id, name FROM Author",
    );
    let second = extended(
        "by_number",
        4,
        implicit(vec![]),
        vec![],
        QueryDataStructure::Named(parsed(4, 12, "Author")),
        "SELECT id, length(name) AS name FROM Author",
    );
    let stmt_first = Statement {
        params: vec![],
        columns: vec![column("id", int4()), column("name", text())],
    };
    let stmt_second = Statement {
        params: vec![],
        columns: vec![column("id", int4()), column("name", int4())],
    };
    prepare_query(&mut module, &mut registrar, &vec![], &row_types, first, Ok(stmt_first)).unwrap();
    let error =
        prepare_query(&mut module, &mut registrar, &vec![], &row_types, second, Ok(stmt_second))
            .unwrap_err();
    match &error.err {
        ErrorVariant::Validation(ValidationError::IncompatibleNamedStruct { name, prev, new }) => {
            assert_eq!(name.value, "Author");
            assert_eq!(name.pos, Position { line: 4, col: 12 });
            assert_eq!(prev, &vec![field("id", 0, false), field("name", 1, true)]);
            assert_eq!(new, &vec![field("id", 0, false), field("name", 0, true)]);
        },
        other => panic!("another failure: {other:?}"),
    }
    assert_eq!(
        error.message(),
        "Named struct `Author` is already used with other fields [line: 4, col: 12]"
    );
    assert_eq!(module.rows.len(), 1);
    assert_eq!(module.rows.get(0).fields, vec![field("id", 0, false), field("name", 1, true)]);
    assert_eq!(module.queries.len(), 1);
    assert_eq!(module.queries.get(0).name, "by_id");
}

#[test]
fn database_refusal_is_reported_with_its_message() {
    let queries = module(
        "module_1",
        vec![extended("broken", 12, implicit(vec![]), vec![], implicit(vec![]), "SELCT 1")],
    );
    let refusal = DbError { message: "syntax error at or near \"SELCT\"".to_string() };
    let error = prepare_err(vec![queries], vec![vec![Err(refusal)]]);
    assert!(matches!(error.err, ErrorVariant::Db(_)));
    assert_eq!(
        error.message(),
        "Error while preparing query \"broken\" [file: \"queries/module_1.sql\", line: 12] \
         (syntax error at or near \"SELCT\")"
    );
}

#[test]
fn unknown_named_struct_is_refused_for_params_before_rows() {
    let query = extended(
        "q",
        1,
        QueryDataStructure::Named(parsed(1, 3, "Missing")),
        vec![parsed(1, 30, "id")],
        QueryDataStructure::Named(parsed(1, 12, "AlsoMissing")),
        "SELECT id FROM t WHERE id = $1",
    );
    let stmt = Statement { params: vec![int4()], columns: vec![column("id", int4())] };
    let error = prepare_err(vec![module("m", vec![query])], vec![vec![Ok(stmt)]]);
    match &error.err {
        ErrorVariant::Validation(ValidationError::UnknownNamedStruct { name, in_params }) => {
            assert_eq!(name.value, "Missing");
            assert!(*in_params);
        },
        other => panic!("another failure: {other:?}"),
    }
    assert_eq!(
        error.message(),
        "No type annotation named `Missing` is declared for parameters [line: 1, col: 3]"
    );
}

#[test]
fn unknown_named_row_is_refused() {
    let query = extended(
        "q",
        1,
        implicit(vec![]),
        vec![],
        QueryDataStructure::Named(parsed(1, 12, "Missing")),
        "SELECT id FROM t",
    );
    let stmt = Statement { params: vec![], columns: vec![column("id", int4())] };
    let error = prepare_err(vec![module("m", vec![query])], vec![vec![Ok(stmt)]]);
    match &error.err {
        ErrorVariant::Validation(ValidationError::UnknownNamedStruct { name, in_params }) => {
            assert_eq!(name.value, "Missing");
            assert!(!*in_params);
        },
        other => panic!("another failure: {other:?}"),
    }
    assert_eq!(
        error.message(),
        "No type annotation named `Missing` is declared for rows [line: 1, col: 12]"
    );
}

#[test]
fn nullable_column_that_is_no_column_is_refused() {
    let query = extended(
        "q",
        1,
        implicit(vec![]),
        vec![],
        implicit(vec![parsed(1, 9, "nam")]),
        "SELECT name FROM t",
    );
    let stmt = Statement { params: vec![], columns: vec![column("name", text())] };
    let error = prepare_err(vec![module("m", vec![query])], vec![vec![Ok(stmt)]]);
    match &error.err {
        ErrorVariant::Validation(ValidationError::UnknownNullableColumn { name }) => {
            assert_eq!(name.value, "nam");
        },
        other => panic!("another failure: {other:?}"),
    }
    assert_eq!(error.message(), "No column named `nam` found for the row [line: 1, col: 9]");
}

#[test]
fn nullable_param_that_is_no_param_is_refused() {
    let query = extended(
        "q",
        1,
        implicit(vec![parsed(1, 5, "titel")]),
        vec![parsed(1, 40, "title")],
        implicit(vec![]),
        "INSERT INTO Book(title) VALUES ($1)",
    );
    let stmt = Statement { params: vec![text()], columns: vec![] };
    let error = prepare_err(vec![module("m", vec![query])], vec![vec![Ok(stmt)]]);
    match &error.err {
        ErrorVariant::Validation(ValidationError::UnknownNullableParam { name }) => {
            assert_eq!(name.value, "titel");
        },
        other => panic!("another failure: {other:?}"),
    }
    assert_eq!(
        error.message(),
        "No parameter named `titel` found for the query [line: 1, col: 5]"
    );
}

#[test]
fn unsupported_type_is_refused_and_named() {
    let range = PgType {
        oid: 3904,
        schema: "pg_catalog".to_string(),
        name: "int4range".to_string(),
        kind: PgKind::Range(Box::new(int4())),
    };
    let query =
        extended("q", 2, implicit(vec![]), vec![], implicit(vec![]), "SELECT span FROM t");
    let stmt = Statement { params: vec![], columns: vec![column("span", range)] };
    let error = prepare_err(vec![module("m", vec![query])], vec![vec![Ok(stmt)]]);
    match &error.err {
        ErrorVariant::PostgresType(TypeError::UnsupportedPostgresType { schema, name, kind }) => {
            assert_eq!(schema, "pg_catalog");
            assert_eq!(name, "int4range");
            assert_eq!(*kind, UnsupportedKind::Range);
        },
        other => panic!("another failure: {other:?}"),
    }
    assert_eq!(
        error.message(),
        "Error while preparing query \"q\" [file: \"queries/m.sql\", line: 2] \
         (Couldn't register SQL type `pg_catalog.int4range`: unsupported range)"
    );
}

#[test]
fn nullable_marks_reach_the_fields() {
    let query = extended(
        "find",
        1,
        implicit(vec![parsed(1, 6, "country")]),
        vec![parsed(1, 60, "name"), parsed(1, 70, "country")],
        implicit(vec![parsed(1, 20, "name")]),
        "SELECT id, name FROM Author WHERE name = $1 AND country = $2",
    );
    let stmt = Statement {
        params: vec![text(), text()],
        columns: vec![column("id", int4()), column("name", text())],
    };
    let preparation = prepare_ok(vec![module("m", vec![query])], vec![vec![Ok(stmt)]]);
    let module = &preparation.modules[0];
    let query = module.queries.get(0);
    assert_eq!(query.params, vec![field("name", 0, false), field("country", 0, true)]);
    let params = module.params.get(0);
    assert_eq!(params.name, "FindParams");
    assert_eq!(params.fields, vec![field("country", 0, true), field("name", 0, false)]);
    let row = module.rows.get(0);
    assert_eq!(row.name, "Find");
    assert_eq!(row.fields, vec![field("id", 1, false), field("name", 0, true)]);
}

#[test]
fn older_form_names_its_parameters() {
    let query = ValidatedQuery::PgCompatible {
        name: parsed(5, 4, "author_by_id"),
        params: vec![
            Parsed {
                pos: Position { line: 5, col: 20 },
                value: NullableIdent { name: "id".to_string(), is_nullable: false },
            },
            Parsed {
                pos: Position { line: 5, col: 24 },
                value: NullableIdent { name: "hint".to_string(), is_nullable: true },
            },
            Parsed {
                pos: Position { line: 5, col: 30 },
                value: NullableIdent { name: "unused".to_string(), is_nullable: false },
            },
        ],
        row: vec![parsed(5, 40, "name")],
        sql_str: "SELECT name FROM Author WHERE id = $1 AND hint = $2".to_string(),
    };
    let stmt = Statement { params: vec![int4(), text()], columns: vec![column("name", text())] };
    let preparation = prepare_ok(vec![module("m", vec![query])], vec![vec![Ok(stmt)]]);
    let module = &preparation.modules[0];
    let query = module.queries.get(0);
    // The statement has two parameters, so the third name gets no field.
    assert_eq!(query.params, vec![field("id", 0, false), field("hint", 1, true)]);
    assert_eq!(module.params.get(0).name, "AuthorByIdParams");
    assert!(!module.params.get(0).is_copy);
    assert_eq!(module.rows.get(0).name, "AuthorById");
    assert_eq!(module.rows.get(0).fields, vec![field("name", 1, true)]);
}

#[test]
fn modules_come_out_in_the_order_of_their_names() {
    let one = |name: &str| {
        module(
            name,
            vec![extended("q", 1, implicit(vec![]), vec![], implicit(vec![]), "SELECT 1")],
        )
    };
    let stmt = || Ok(Statement { params: vec![], columns: vec![column("n", int4())] });
    let preparation = prepare_ok(
        vec![one("zebra"), one("apple"), one("mango")],
        vec![vec![stmt()], vec![stmt()], vec![stmt()]],
    );
    let names: Vec<&str> = preparation.modules.iter().map(|m| m.name.as_str()).collect();
    assert_eq!(names, vec!["apple", "mango", "zebra"]);
    // One table of types serves all modules.
    assert_eq!(preparation.registrar.len(), 1);
}

#[test]
fn a_broken_query_does_not_mask_the_others() {
    let ok = extended("first", 1, implicit(vec![]), vec![], implicit(vec![]), "SELECT 1");
    let bad = extended("second", 2, implicit(vec![]), vec![], implicit(vec![]), "SELCT");
    let late = extended("third", 3, implicit(vec![]), vec![], implicit(vec![]), "SELECT 3");
    let worse = extended("fourth", 4, implicit(vec![]), vec![], implicit(vec![]), "SELEC");
    let mut registrar = TypeRegistrar::new();
    let (prepared, errors) = prepare_module(
        module("m", vec![ok, bad, late, worse]),
        vec![
            Ok(Statement { params: vec![], columns: vec![column("n", int4())] }),
            Err(DbError { message: "second is wrong".to_string() }),
            Ok(Statement { params: vec![], columns: vec![column("t", text())] }),
            Err(DbError { message: "fourth is wrong".to_string() }),
        ],
        &mut registrar,
    );
    let kept: Vec<&str> = prepared.queries.as_vec().iter().map(|q| q.name.as_str()).collect();
    assert_eq!(kept, vec!["first", "third"]);
    let failed: Vec<&str> = errors.iter().map(|e| e.query_name.value.as_str()).collect();
    assert_eq!(failed, vec!["second", "fourth"]);
    assert_eq!(
        errors[1].message(),
        "Error while preparing query \"fourth\" [file: \"queries/m.sql\", line: 4] \
         (fourth is wrong)"
    );
    assert_eq!(registrar.len(), 2);
}

#[test]
fn a_query_with_other_fields_for_a_row_fails_alone() {
    let named = |name: &str, line: usize, sql: &str| {
        extended(
            name,
            line,
            implicit(vec![]),
            vec![],
            QueryDataStructure::Named(parsed(line, 10, "Author")),
            sql,
        )
    };
    let mut books = module(
        "authors",
        vec![
            named("by_id", 2, "SELECT id, name FROM Author"),
            named("by_number", 4, "SELECT id, length(name) AS name FROM Author"),
            named("by_name", 6, "SELECT name, id FROM Author"),
        ],
    );
    books.row_types = vec![author_annotation()];
    let columns = |second: PgType| vec![column("id", int4()), column("name", second)];
    let outcomes = vec![vec![
        Ok(Statement { params: vec![], columns: columns(text()) }),
        Ok(Statement { params: vec![], columns: columns(int4()) }),
        Ok(Statement {
            params: vec![],
            columns: vec![column("name", text()), column("id", int4())],
        }),
    ]];
    let (preparation, errors) = prepare(vec![books], outcomes);
    assert_eq!(errors.len(), 1);
    assert_eq!(errors[0].query_name.value, "by_number");
    assert_eq!(errors[0].path, "queries/authors.sql");
    assert!(matches!(
        errors[0].err,
        ErrorVariant::Validation(ValidationError::IncompatibleNamedStruct { .. })
    ));
    let module = &preparation.modules[0];
    assert_eq!(module.rows.len(), 1);
    assert_eq!(module.rows.get(0).fields, vec![field("id", 0, false), field("name", 1, true)]);
    let kept: Vec<&str> = module.queries.as_vec().iter().map(|q| q.name.as_str()).collect();
    assert_eq!(kept, vec!["by_id", "by_name"]);
    assert_eq!(module.queries.get(0).row, Some((0, vec![0, 1])));
    assert_eq!(module.queries.get(1).row, Some((0, vec![1, 0])));
}

#[test]
fn a_query_with_other_fields_for_a_params_struct_leaves_no_trace() {
    let mut module = PreparedModule::new("m".to_string(), "queries/m.sql".to_string());
    let registrar = TypeRegistrar::new();
    let put = |module: &mut PreparedModule, query: &str, params: Vec<PreparedField>| {
        assemble(
            module,
            &registrar,
            &parsed(1, 1, query),
            parsed(1, 8, "Filter"),
            parsed(1, 16, "Found"),
            params,
            vec![field("id", 0, false)],
            "SELECT id FROM t".to_string(),
        )
    };
    put(&mut module, "first", vec![field("b", 1, false), field("a", 0, false)]).unwrap();
    let error = put(&mut module, "second", vec![field("a", 0, false)]).unwrap_err();
    assert!(matches!(
        error,
        ErrorVariant::Validation(ValidationError::IncompatibleNamedStruct { .. })
    ));
    // The fields in the other order are taken.
    put(&mut module, "third", vec![field("a", 0, false), field("b", 1, false)]).unwrap();
    let kept: Vec<&str> = module.queries.as_vec().iter().map(|q| q.name.as_str()).collect();
    assert_eq!(kept, vec!["first", "third"]);
    assert_eq!(module.params.len(), 1);
    assert_eq!(module.params.get(0).name, "Filter");
    assert_eq!(module.params.get(0).fields, vec![field("a", 0, false), field("b", 1, false)]);
    assert_eq!(module.params.get(0).queries, vec![0, 1]);
    assert_eq!(module.rows.len(), 1);
    assert_eq!(module.rows.get(0).name, "Found");
}

#[test]
fn fields_of_one_name_are_taken_in_either_order() {
    let mut module = PreparedModule::new("m".to_string(), "queries/m.sql".to_string());
    let registrar = TypeRegistrar::new();
    let one = || field("x", 0, false);
    let other = || field("x", 1, true);
    let first = module.add_row(&registrar, parsed(1, 1, "Pair"), vec![one(), other()]).unwrap();
    assert_eq!(first, (0, vec![0, 1]));
    let second = module.add_row(&registrar, parsed(2, 1, "Pair"), vec![other(), one()]).unwrap();
    assert_eq!(second, (0, vec![1, 0]));
    // Twice the same field is not the pair.
    assert!(module.add_row(&registrar, parsed(3, 1, "Pair"), vec![one(), one()]).is_err());
    assert!(module.add_row(&registrar, parsed(4, 1, "Pair"), vec![one()]).is_err());
    assert_eq!(module.rows.len(), 1);
    assert_eq!(module.rows.get(0).fields, vec![one(), other()]);
}

#[test]
fn composite_fields_keep_declaration_order() {
    let composite = PgType {
        oid: 20000,
        schema: "public".to_string(),
        name: "custom_composite".to_string(),
        kind: PgKind::Composite(vec![
            PgField { name: "name".to_string(), ty: text() },
            PgField { name: "age".to_string(), ty: int4() },
            PgField { name: "persona".to_string(), ty: persona() },
        ]),
    };
    let query = extended("q", 1, implicit(vec![]), vec![], implicit(vec![]), "SELECT c FROM t");
    let stmt = Statement { params: vec![], columns: vec![column("c", composite)] };
    let preparation = prepare_ok(vec![module("m", vec![query])], vec![vec![Ok(stmt)]]);
    // Depth first, in declaration order, the composite last.
    let registered: Vec<&str> =
        preparation.registrar.types.iter().map(|t| t.name.as_str()).collect();
    assert_eq!(registered, vec!["text", "int4", "spongebob_character", "custom_composite"]);
    let types = preparation.types.get(0);
    assert_eq!(types.len(), 2);
    assert_eq!(types[0].name, "spongebob_character");
    assert_eq!(
        types[1],
        PreparedType {
            name: "custom_composite".to_string(),
            struct_name: "CustomComposite".to_string(),
            content: PreparedContent::Composite(vec![
                field("name", 0, false),
                field("age", 1, false),
                field("persona", 2, false),
            ]),
            is_copy: false,
            is_params: true,
        }
    );
}
