use jsdb::database::row::Row;
use jsdb::database::table::Table;

fn row_of(cols: &[(&str, &str)]) -> Row<String> {
    let mut row = Row::create_row();
    for (name, value) in cols {
        row.create_column(name, value.to_string());
    }
    row
}

#[test]
fn new_table_has_no_rows() {
    let table: Table<String> = Table::create_table();
    assert_eq!(table.len(), 0);
    assert!(table.rows.is_empty());
}

#[test]
fn row_add_then_read() {
    let mut table: Table<String> = Table::create_table();
    table.add_row(1, row_of(&[("name", "hello")]));
    assert!(table.rows.contains_key(&1));
    let row = table.row(1).unwrap();
    assert_eq!(row.column("name"), Some(&String::from("hello")));
    assert!(table.row(2).is_none());
}

#[test]
fn row_readded_replaces_whole_row() {
    let mut table: Table<String> = Table::create_table();
    table.add_row(1, row_of(&[("a", "1"), ("b", "2")]));
    table.add_row(1, row_of(&[("c", "3")]));
    assert_eq!(table.len(), 1);
    let row = table.row(1).unwrap();
    assert_eq!(row.len(), 1);
    assert_eq!(row.column("a"), None);
    assert_eq!(row.column("b"), None);
    assert_eq!(row.column("c"), Some(&String::from("3")));
}

#[test]
fn row_delete_present_and_absent() {
    let mut table: Table<String> = Table::create_table();
    table.add_row(1, Row::create_row());
    table.add_row(u32::MAX, Row::create_row());
    table.add_row(0, Row::create_row());
    assert_eq!(table.len(), 3);
    table.delete_row(1);
    assert_eq!(table.len(), 2);
    assert!(table.row(1).is_none());
    table.delete_row(1);
    table.delete_row(7);
    assert_eq!(table.len(), 2);
    assert!(table.row(0).is_some());
    assert!(table.row(u32::MAX).is_some());
}

#[test]
fn row_edited_in_place() {
    let mut table: Table<i32> = Table::create_table();
    table.add_row(5, Row::create_row());
    table.row_mut(5).unwrap().create_column("x", -4);
    assert!(table.row_mut(6).is_none());
    assert_eq!(table.row(5).unwrap().column("x"), Some(&-4));
    assert_eq!(table.len(), 1);
}

#[test]
fn row_keys_listed_once() {
    let mut table: Table<i32> = Table::create_table();
    table.add_row(3, Row::create_row());
    table.add_row(1, Row::create_row());
    table.add_row(3, Row::create_row());
    let mut keys: Vec<u32> = table.rows.keys().clone();
    keys.sort();
    assert_eq!(keys, vec![1, 3]);
}
