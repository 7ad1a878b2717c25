use jsdb::database::row::Row;

#[test]
fn new_row_has_no_columns() {
    let row: Row<String> = Row::create_row();
    assert_eq!(row.len(), 0);
    assert!(row.columns.is_empty());
}

#[test]
fn column_set_then_read() {
    let mut row: Row<String> = Row::create_row();
    row.create_column("name", String::from("hello"));
    assert_eq!(row.column("name"), Some(&String::from("hello")));
    assert_eq!(row.columns.get(&String::from("name")), Some(&String::from("hello")));
    assert_eq!(row.column("other"), None);
    assert_eq!(row.len(), 1);
}

#[test]
fn column_overwrite_keeps_one_entry() {
    let mut row: Row<i64> = Row::create_row();
    row.create_column("n", 1);
    row.create_column("m", 5);
    assert_eq!(row.len(), 2);
    row.create_column("n", 2);
    assert_eq!(row.len(), 2);
    assert_eq!(row.column("n"), Some(&2));
    assert_eq!(row.column("m"), Some(&5));
}

#[test]
fn column_delete_present() {
    let mut row: Row<String> = Row::create_row();
    row.create_column("name", String::from("hello"));
    row.create_column("city", String::from("Kyiv"));
    row.delete_column("name");
    assert_eq!(row.len(), 1);
    assert_eq!(row.column("name"), None);
    assert_eq!(row.column("city"), Some(&String::from("Kyiv")));
    row.delete_column("city");
    assert!(row.columns.is_empty());
}

#[test]
fn column_delete_absent_is_no_op() {
    let mut row: Row<u8> = Row::create_row();
    row.delete_column("missing");
    assert_eq!(row.len(), 0);
    row.create_column("a", 9);
    row.delete_column("b");
    assert_eq!(row.len(), 1);
    assert_eq!(row.column("a"), Some(&9));
}

#[test]
fn column_names_are_case_sensitive_and_may_be_empty() {
    let mut row: Row<u8> = Row::create_row();
    row.create_column("", 1);
    row.create_column("A", 2);
    row.create_column("a", 3);
    assert_eq!(row.len(), 3);
    assert_eq!(row.column(""), Some(&1));
    assert_eq!(row.column("A"), Some(&2));
    assert_eq!(row.column("a"), Some(&3));
}
