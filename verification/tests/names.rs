use cornucopia::names::{has_duplicate, name_le_exec, position_by_name, reversed, sort_vec_by_name};
use cornucopia::parser::{Parsed, Position};
use cornucopia::prepare_queries::PreparedField;
use cornucopia::type_registrar::TypeHandle;

fn field(name: &str, ty: usize) -> PreparedField {
    PreparedField {
        name: name.to_string(),
        ty: TypeHandle { index: ty },
        is_nullable: false,
        is_inner_nullable: false,
    }
}

fn parsed(value: &str) -> Parsed<String> {
    Parsed { pos: Position { line: 1, col: 1 }, value: value.to_string() }
}

#[test]
fn names_are_ordered_by_code_point() {
    assert!(name_le_exec("", ""));
    assert!(name_le_exec("", "a"));
    assert!(!name_le_exec("a", ""));
    assert!(name_le_exec("abc", "abc"));
    assert!(name_le_exec("abc", "abd"));
    assert!(!name_le_exec("abd", "abc"));
    assert!(name_le_exec("ab", "abc"));
    assert!(!name_le_exec("abc", "ab"));
    // Upper case comes before lower case, and both before 'é'.
    assert!(name_le_exec("Zebra", "apple"));
    assert!(name_le_exec("z", "é"));
    assert!(!name_le_exec("é", "z"));
}

#[test]
fn the_order_agrees_with_the_order_of_strings() {
    let names = ["", "a", "A", "ab", "abc", "b", "_x", "é", "z", "10", "9"];
    for a in names {
        for b in names {
            assert_eq!(name_le_exec(a, b), a <= b, "{a:?} against {b:?}");
        }
    }
}

#[test]
fn sorting_is_by_name_and_keeps_the_order_of_equal_names() {
    let sorted = sort_vec_by_name(vec![
        field("name", 0),
        field("id", 1),
        field("country", 2),
        field("id", 3),
        field("age", 4),
    ]);
    assert_eq!(
        sorted,
        vec![field("age", 4), field("country", 2), field("id", 1), field("id", 3), field("name", 0)]
    );
    assert!(sort_vec_by_name(Vec::<PreparedField>::new()).is_empty());
}

#[test]
fn the_first_repeated_name_is_found() {
    let names = |list: &[&str]| list.iter().map(|n| parsed(n)).collect::<Vec<_>>();
    assert_eq!(has_duplicate(&names(&[])), None);
    assert_eq!(has_duplicate(&names(&["a", "b", "c"])), None);
    assert_eq!(has_duplicate(&names(&["a", "b", "a", "b"])), Some(2));
    assert_eq!(has_duplicate(&names(&["a", "b", "b", "a"])), Some(2));
    assert_eq!(has_duplicate(&names(&["x", "x"])), Some(1));
}

#[test]
fn a_name_is_found_at_its_first_place() {
    let items = vec![parsed("a"), parsed("b"), parsed("a")];
    assert_eq!(position_by_name(&items, 3, &"a".to_string()), Some(0));
    assert_eq!(position_by_name(&items, 3, &"b".to_string()), Some(1));
    assert_eq!(position_by_name(&items, 1, &"b".to_string()), None);
    assert_eq!(position_by_name(&items, 3, &"c".to_string()), None);
}

#[test]
fn reversing_turns_the_order_round() {
    assert_eq!(reversed(vec![1, 2, 3]), vec![3, 2, 1]);
    assert_eq!(reversed(Vec::<u8>::new()), Vec::<u8>::new());
}
