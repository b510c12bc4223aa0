use cornucopia::read_queries::module_name;
use cornucopia::suite::{trim, white_space, Test, TestSuite};
use cornucopia::text::decimal_string;

fn case(error: &str) -> Test {
    Test {
        name: "case".to_string(),
        query: Some("q() : SELECT 1;".to_string()),
        migration: None,
        query_name: None,
        migration_name: None,
        error: error.to_string(),
    }
}

#[test]
fn trimming_takes_white_space_off_both_ends_only() {
    assert_eq!(trim(""), "");
    assert_eq!(trim(" \t\n"), "");
    assert_eq!(trim("  a b  "), "a b");
    assert_eq!(trim("\n\nline one\nline two\n"), "line one\nline two");
    assert_eq!(trim("\u{2003}x\u{3000}"), "x");
    assert_eq!(trim("x"), "x");
}

#[test]
fn trimming_agrees_with_the_standard_library() {
    for text in ["", "  ", " a", "a ", "\u{a0}a\u{85}", "\u{200b}a", "a\u{1680}b\u{2028}"] {
        assert_eq!(trim(text), text.trim(), "{text:?}");
    }
    for c in ['\u{8}', '\t', '\r', ' ', '!', '\u{85}', '\u{a0}', '\u{200a}', '\u{200b}', '\u{3000}'] {
        assert_eq!(white_space(c), c.is_whitespace(), "{c:?}");
    }
}

#[test]
fn a_case_names_its_files_or_gets_the_defaults() {
    let mut test = case("");
    assert_eq!(test.migration_file(), "1653210840_first.sql");
    assert_eq!(test.query_file(), "module_1.sql");
    test.migration_name = Some("1_init.sql".to_string());
    test.query_name = Some("authors.sql".to_string());
    assert_eq!(test.migration_file(), "1_init.sql");
    assert_eq!(test.query_file(), "authors.sql");
}

#[test]
fn a_case_accepts_its_diagnostic_up_to_white_space() {
    let test = case("  Two or more columns have the same name\n");
    assert!(test.accepts("Two or more columns have the same name"));
    assert!(test.accepts("\nTwo or more columns have the same name  "));
    assert!(!test.accepts("Two or more columns  have the same name"));
    assert!(!test.accepts(""));
    assert!(case("").accepts("  \n"));
}

#[test]
fn recording_stores_the_trimmed_diagnostic() {
    let mut test = case("old");
    test.record("\n new diagnostic \n");
    assert_eq!(test.error, "new diagnostic");
    assert_eq!(test.name, "case");
    assert_eq!(test.query, Some("q() : SELECT 1;".to_string()));
}

#[test]
fn a_suite_is_successful_if_every_case_accepts() {
    let suite = TestSuite { test: vec![case("a"), case("b"), case("")] };
    let got = |list: &[&str]| list.iter().map(|s| s.to_string()).collect::<Vec<_>>();
    assert!(suite.successful(&got(&[" a", "b ", ""])));
    assert!(!suite.successful(&got(&["a", "c", ""])));
    assert!(TestSuite { test: vec![] }.successful(&vec![]));
}

#[test]
fn numbers_are_written_in_decimal() {
    assert_eq!(decimal_string(0), "0");
    assert_eq!(decimal_string(7), "7");
    assert_eq!(decimal_string(10), "10");
    assert_eq!(decimal_string(1653210840), "1653210840");
    assert_eq!(decimal_string(usize::MAX), usize::MAX.to_string());
}

#[test]
fn a_query_file_gives_its_module_name() {
    assert_eq!(module_name("books.sql"), Some("books".to_string()));
    assert_eq!(module_name("module_1.sql"), Some("module_1".to_string()));
    assert_eq!(module_name(".sql"), None);
    assert_eq!(module_name("books"), None);
    assert_eq!(module_name("books.txt"), None);
    assert_eq!(module_name("books.old.sql"), None);
    assert_eq!(module_name("dir/books.sql"), None);
    assert_eq!(module_name("dir\\books.sql"), None);
    assert_eq!(module_name("books.sqlx"), None);
    assert_eq!(module_name("büch.sql"), Some("büch".to_string()));
}
