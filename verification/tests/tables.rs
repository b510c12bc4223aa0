use cornucopia::named_table::NamedTable;

#[test]
fn a_table_keeps_the_order_of_first_insertion() {
    let mut table: NamedTable<u32> = NamedTable::new();
    assert_eq!(table.len(), 0);
    assert_eq!(table.index_of("a"), None);
    assert_eq!(table.insert_full("b".to_string(), 1), (0, None));
    assert_eq!(table.insert_full("a".to_string(), 2), (1, None));
    assert_eq!(table.insert_full("c".to_string(), 3), (2, None));
    assert_eq!(table.len(), 3);
    assert_eq!(table.index_of("a"), Some(1));
    assert_eq!(table.index_of("b"), Some(0));
    assert_eq!(table.index_of("c"), Some(2));
    assert_eq!(table.index_of("d"), None);
    assert_eq!(table.as_vec(), &vec![1, 2, 3]);
    assert_eq!(table.name_at(0), Some(&"b".to_string()));
    assert_eq!(table.name_at(2), Some(&"c".to_string()));
    assert_eq!(table.name_at(3), None);
}

#[test]
fn inserting_under_a_name_that_exists_replaces_in_place() {
    let mut table: NamedTable<&str> = NamedTable::new();
    table.insert_full("x".to_string(), "first");
    table.insert_full("y".to_string(), "second");
    assert_eq!(table.insert_full("x".to_string(), "third"), (0, Some("first")));
    assert_eq!(table.len(), 2);
    assert_eq!(*table.get(0), "third");
    assert_eq!(*table.get(1), "second");
    assert_eq!(table.index_of("x"), Some(0));
}

#[test]
fn a_value_can_be_changed_where_it_stands() {
    let mut table: NamedTable<Vec<u8>> = NamedTable::new();
    table.insert_full("bytes".to_string(), vec![1]);
    table.get_mut(0).push(2);
    assert_eq!(table.get(0), &vec![1, 2]);
}
