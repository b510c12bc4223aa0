use cornucopia::assembler::{prepare, Preparation};
use cornucopia::grammar::{parse_module, position, read_bind_params};
use cornucopia::parser::{
    ParseError, ParseErrorKind, Parsed, ParsedModule, ParsedQuery, Position, QueryDataStructure,
};
use cornucopia::pg::{DbError, PgKind, PgType, Statement};
use cornucopia::validation::{validate_module, Error as ValidationError, ValidatedModule};

fn prepare_ok(
    modules: Vec<ValidatedModule>,
    outcomes: Vec<Vec<Result<Statement, DbError>>>,
) -> Preparation {
    let (preparation, errors) = prepare(modules, outcomes);
    assert!(errors.is_empty(), "{errors:?}");
    preparation
}

fn parse(text: &str) -> Result<ParsedModule, ParseError> {
    parse_module("queries/books.sql".to_string(), "books".to_string(), text)
}

fn names(list: &[Parsed<String>]) -> Vec<&str> {
    list.iter().map(|n| n.value.as_str()).collect()
}

#[test]
fn insert_book_is_read_and_prepared() {
    let module =
        parse("insert_book([], [])! : INSERT INTO Book(title) VALUES (:title);").unwrap();
    assert_eq!(module.name, "books");
    assert_eq!(module.path, "queries/books.sql");
    assert!(module.param_types.is_empty());
    assert_eq!(module.queries.len(), 1);
    match &module.queries[0] {
        ParsedQuery::Extended { name, params, bind_params, row, sql_str } => {
            assert_eq!(name.value, "insert_book");
            assert_eq!(name.pos, Position { line: 1, col: 1 });
            assert!(matches!(params, QueryDataStructure::Implicit { idents } if idents.is_empty()));
            assert!(matches!(row, QueryDataStructure::Implicit { idents } if idents.is_empty()));
            assert_eq!(names(bind_params), vec!["title"]);
            assert_eq!(bind_params[0].pos, Position { line: 1, col: 57 });
            assert_eq!(sql_str, "INSERT INTO Book(title) VALUES ($1)");
        },
        other => panic!("another form: {other:?}"),
    }
    let (validated, errors) = validate_module(module);
    assert!(errors.is_empty());
    let text = PgType {
        oid: 25,
        schema: "pg_catalog".to_string(),
        name: "text".to_string(),
        kind: PgKind::Simple,
    };
    let stmt = Statement { params: vec![text], columns: vec![] };
    let preparation = prepare_ok(vec![validated], vec![vec![Ok(stmt)]]);
    let module = &preparation.modules[0];
    assert_eq!(module.queries.get(0).name, "insert_book");
    assert_eq!(module.queries.get(0).params.len(), 1);
    assert_eq!(module.queries.get(0).params[0].name, "title");
    assert!(!module.queries.get(0).params[0].is_nullable);
    assert_eq!(module.queries.get(0).row, None);
    assert_eq!(module.params.get(0).name, "InsertBookParams");
    assert!(!module.params.get(0).is_copy);
}

#[test]
fn annotations_and_queries_are_read_in_file_order() {
    let text = "\
Author(id: int4, name : text ?, tags: text[], big: double precision,)
AuthorParams ( id : int4 )

authors([], [name]) : SELECT id, name FROM Author;
by_id(AuthorParams, Author)
    SELECT id, name
    FROM Author
    WHERE id = :id ;
";
    let module = parse(text).unwrap();
    assert_eq!(module.param_types.len(), 2);
    assert_eq!(module.row_types.len(), 2);
    let author = &module.row_types[0];
    assert_eq!(author.name.value, "Author");
    let fields: Vec<(&str, &str, bool)> = author
        .fields
        .iter()
        .map(|f| (f.name.value.as_str(), f.ty.as_str(), f.is_nullable))
        .collect();
    assert_eq!(
        fields,
        vec![
            ("id", "int4", false),
            ("name", "text", true),
            ("tags", "text[]", false),
            ("big", "double precision", false),
        ]
    );
    assert_eq!(module.param_types[1].name.value, "AuthorParams");
    assert_eq!(module.param_types[1].name.pos, Position { line: 2, col: 1 });
    assert_eq!(module.queries.len(), 2);
    match &module.queries[0] {
        ParsedQuery::Extended { name, row, sql_str, bind_params, .. } => {
            assert_eq!(name.value, "authors");
            assert_eq!(name.pos, Position { line: 4, col: 1 });
            match row {
                QueryDataStructure::Implicit { idents } => {
                    assert_eq!(names(idents), vec!["name"]);
                    assert_eq!(idents[0].pos, Position { line: 4, col: 14 });
                },
                other => panic!("another description: {other:?}"),
            }
            assert!(bind_params.is_empty());
            assert_eq!(sql_str, "SELECT id, name FROM Author");
        },
        other => panic!("another form: {other:?}"),
    }
    match &module.queries[1] {
        ParsedQuery::Extended { name, params, row, sql_str, bind_params } => {
            assert_eq!(name.value, "by_id");
            assert!(matches!(params, QueryDataStructure::Named(n) if n.value == "AuthorParams"));
            assert!(matches!(row, QueryDataStructure::Named(n) if n.value == "Author"));
            assert_eq!(names(bind_params), vec!["id"]);
            assert_eq!(sql_str, "SELECT id, name\n    FROM Author\n    WHERE id = $1 ");
        },
        other => panic!("another form: {other:?}"),
    }
}

#[test]
fn the_older_form_is_read() {
    let module = parse(
        "find(params => [id, hint?], row => [name]) : SELECT name FROM a WHERE id = $1;\n\
         plain() SELECT 1;\n\
         rows_only(row => [a, b]) : SELECT a, b FROM t;",
    )
    .unwrap();
    assert_eq!(module.queries.len(), 3);
    match &module.queries[0] {
        ParsedQuery::PgCompatible { name, params, row, sql_str } => {
            assert_eq!(name.value, "find");
            let params: Vec<(&str, bool)> =
                params.iter().map(|p| (p.value.name.as_str(), p.value.is_nullable)).collect();
            assert_eq!(params, vec![("id", false), ("hint", true)]);
            assert_eq!(names(row), vec!["name"]);
            assert_eq!(sql_str, "SELECT name FROM a WHERE id = $1");
        },
        other => panic!("another form: {other:?}"),
    }
    match &module.queries[1] {
        ParsedQuery::PgCompatible { name, params, row, sql_str } => {
            assert_eq!(name.value, "plain");
            assert!(params.is_empty() && row.is_empty());
            assert_eq!(sql_str, "SELECT 1");
        },
        other => panic!("another form: {other:?}"),
    }
    match &module.queries[2] {
        ParsedQuery::PgCompatible { params, row, .. } => {
            assert!(params.is_empty());
            assert_eq!(names(row), vec!["a", "b"]);
        },
        other => panic!("another form: {other:?}"),
    }
}

fn bind(sql: &str) -> (String, Vec<String>) {
    let chars: Vec<char> = sql.chars().collect();
    let (out, names) = read_bind_params(sql, &chars, 0, chars.len());
    (out, names.into_iter().map(|n| n.value).collect())
}

#[test]
fn bind_parameters_are_numbered_by_first_mention() {
    assert_eq!(bind("SELECT 1"), ("SELECT 1".to_string(), vec![]));
    assert_eq!(
        bind("WHERE a = :a AND b = :b OR c = :a"),
        ("WHERE a = $1 AND b = $2 OR c = $1".to_string(), vec!["a".to_string(), "b".to_string()])
    );
    // A cast is no bind parameter, nor is a colon before anything but a name.
    assert_eq!(
        bind("SELECT :x::text, a::int, ':', :1, b :: c"),
        ("SELECT $1::text, a::int, ':', :1, b :: c".to_string(), vec!["x".to_string()])
    );
    assert_eq!(bind(":é"), (":é".to_string(), vec![]));
    assert_eq!(bind(":a"), ("$1".to_string(), vec!["a".to_string()]));
    assert_eq!(bind(":a:b"), ("$1$2".to_string(), vec!["a".to_string(), "b".to_string()]));
    let many = (1..=11).map(|i| format!(":p{i}")).collect::<Vec<_>>().join(",");
    assert!(bind(&many).0.ends_with("$10,$11"));
}

#[test]
fn a_query_without_semicolon_is_unterminated() {
    let error = parse("q([], []) : SELECT 1").unwrap_err();
    assert_eq!(error.kind, ParseErrorKind::UnterminatedQuery);
    assert_eq!(error.pos, Position { line: 1, col: 13 });
}

#[test]
fn what_is_no_name_is_an_unexpected_token() {
    let error = parse("\n  ?q([], []) : SELECT 1;").unwrap_err();
    assert_eq!(error, ParseError { kind: ParseErrorKind::UnexpectedToken, pos: Position { line: 2, col: 3 } });
    let error = parse("q([a, 1], []) : SELECT 1;").unwrap_err();
    assert_eq!(error, ParseError { kind: ParseErrorKind::UnexpectedToken, pos: Position { line: 1, col: 7 } });
    let error = parse("A(id: int4; name: text)").unwrap_err();
    assert_eq!(error, ParseError { kind: ParseErrorKind::UnexpectedToken, pos: Position { line: 1, col: 11 } });
    let error = parse("A(id: , name: text)").unwrap_err();
    assert_eq!(error.kind, ParseErrorKind::UnexpectedToken);
}

#[test]
fn a_header_of_no_form_is_refused() {
    for text in [
        "q : SELECT 1;",
        "q(] : SELECT 1;",
        "q([]) : SELECT 1;",
        "q([], [], []) : SELECT 1;",
        "q(A B) : SELECT 1;",
        "q(params = [a]) : SELECT 1;",
        "q(params => a) : SELECT 1;",
        "q(other => [a]) : SELECT 1;",
        "q([], []) : SELECT 1; A(id: int4)",
    ] {
        let error = parse(text).unwrap_err();
        assert_eq!(error.kind, ParseErrorKind::BadMetadataForm, "{text}");
    }
    assert_eq!(parse("q([]) : SELECT 1;").unwrap_err().pos, Position { line: 1, col: 5 });
}

#[test]
fn an_empty_file_is_an_empty_module() {
    let module = parse(" \n\t ").unwrap();
    assert!(module.queries.is_empty());
    assert!(module.param_types.is_empty());
    assert!(module.row_types.is_empty());
}

#[test]
fn positions_count_lines_and_columns_from_one() {
    let chars: Vec<char> = "ab\ncd\n\nef".chars().collect();
    assert_eq!(position(&chars, 0), Position { line: 1, col: 1 });
    assert_eq!(position(&chars, 2), Position { line: 1, col: 3 });
    assert_eq!(position(&chars, 3), Position { line: 2, col: 1 });
    assert_eq!(position(&chars, 6), Position { line: 3, col: 1 });
    assert_eq!(position(&chars, 9), Position { line: 4, col: 3 });
}

#[test]
fn validation_reports_every_broken_rule_and_keeps_the_rest() {
    let module = parse(
        "A(id: int4)\nA(name: text)\n\
         first([], []) SELECT 1;\n\
         first([], []) SELECT 2;\n\
         second(Missing, A) SELECT 3;\n\
         third(A, Missing) SELECT 4;\n\
         fourth(A, A) SELECT :x, :y;\n",
    )
    .unwrap();
    let (validated, errors) = validate_module(module);
    let kept: Vec<&str> = validated.queries.iter().map(|q| q.name().value.as_str()).collect();
    assert_eq!(kept, vec!["first", "fourth"]);
    assert_eq!(validated.param_types.len(), 2);
    let messages: Vec<String> = errors.iter().map(|e| e.message()).collect();
    assert_eq!(
        messages,
        vec![
            "A type annotation named `A` already exists for parameters [line: 2, col: 1]",
            "A query named `first` already exists [line: 4, col: 1]",
            "No type annotation named `Missing` is declared for parameters [line: 5, col: 8]",
            "No type annotation named `Missing` is declared for rows [line: 6, col: 10]",
        ]
    );
    assert!(matches!(errors[1], ValidationError::DuplicateQueryName { .. }));
}

#[test]
fn a_bind_parameter_listed_twice_is_refused() {
    let name = |value: &str, col: usize| Parsed {
        pos: Position { line: 1, col },
        value: value.to_string(),
    };
    let module = ParsedModule {
        path: "queries/m.sql".to_string(),
        name: "m".to_string(),
        queries: vec![ParsedQuery::Extended {
            name: name("q", 1),
            params: QueryDataStructure::Implicit { idents: vec![] },
            bind_params: vec![name("a", 20), name("b", 30), name("a", 40)],
            row: QueryDataStructure::Implicit { idents: vec![] },
            sql_str: "SELECT $1, $2, $3".to_string(),
        }],
        param_types: vec![],
        row_types: vec![],
    };
    let (validated, errors) = validate_module(module);
    assert!(validated.queries.is_empty());
    assert_eq!(errors.len(), 1);
    assert_eq!(
        errors[0].message(),
        "The bind parameter `a` is listed twice [line: 1, col: 40]"
    );
}
