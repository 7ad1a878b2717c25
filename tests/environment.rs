use jsdb::database::database::Database;
use jsdb::database::row::Row;
use jsdb::database::table::Table;
use jsdb::JSDB;

#[test]
fn new_environment_has_no_databases() {
    let env: JSDB<String> = JSDB::new();
    assert_eq!(env.len(), 0);
    assert!(env.databases.is_empty());
}

#[test]
fn database_add_overwrite_delete() {
    let mut project: JSDB<String> = JSDB::new();
    project.add_database("my_database", Database::create_database());
    assert_eq!(project.len(), 1);
    project
        .database_mut("my_database")
        .unwrap()
        .add_table("t", Table::create_table());
    project.add_database("my_database", Database::create_database());
    assert_eq!(project.len(), 1);
    assert_eq!(project.database("my_database").unwrap().len(), 0);
    project.delete_database("absent");
    assert_eq!(project.len(), 1);
    project.delete_database("my_database");
    assert_eq!(project.len(), 0);
    assert!(project.database("my_database").is_none());
}

#[test]
fn nested_path_then_table_deleted() {
    let mut env: JSDB<String> = JSDB::new();
    env.add_database("d1", Database::create_database());
    let d1 = env.database_mut("d1").unwrap();
    d1.add_table("t1", Table::create_table());
    let mut row = Row::create_row();
    row.create_column("name", String::from("hello"));
    d1.table_mut("t1").unwrap().add_row(1, row);
    let value = env
        .database("d1")
        .unwrap()
        .table("t1")
        .unwrap()
        .row(1)
        .unwrap()
        .column("name");
    assert_eq!(value, Some(&String::from("hello")));

    env.database_mut("d1").unwrap().delete_table("t1");
    let d1 = env.database("d1").unwrap();
    assert_eq!(d1.len(), 0);
    assert!(d1.table("t1").is_none());
}

#[test]
fn same_key_twice_keeps_second_row_only() {
    let mut table: Table<String> = Table::create_table();
    let mut first = Row::create_row();
    first.create_column("a", String::from("x"));
    first.create_column("b", String::from("y"));
    table.add_row(1, first);
    let mut second = Row::create_row();
    second.create_column("c", String::from("z"));
    table.add_row(1, second);
    assert_eq!(table.len(), 1);
    let row = table.row(1).unwrap();
    assert_eq!(row.len(), 1);
    assert_eq!(row.column("c"), Some(&String::from("z")));
    assert!(row.column("a").is_none());
    assert!(row.column("b").is_none());
}

#[test]
fn rows_under_same_key_in_other_tables_are_independent() {
    let mut env: JSDB<i32> = JSDB::new();
    env.add_database("d1", Database::create_database());
    env.add_database("d2", Database::create_database());
    for d in ["d1", "d2"] {
        let db = env.database_mut(d).unwrap();
        for t in ["t1", "t2"] {
            let mut table = Table::create_table();
            let mut row = Row::create_row();
            row.create_column("v", 0);
            table.add_row(1, row);
            db.add_table(t, table);
        }
    }
    env.database_mut("d1")
        .unwrap()
        .table_mut("t1")
        .unwrap()
        .row_mut(1)
        .unwrap()
        .create_column("v", 42);
    let read = |d: &str, t: &str| -> i32 {
        *env.database(d).unwrap().table(t).unwrap().row(1).unwrap().column("v").unwrap()
    };
    assert_eq!(read("d1", "t1"), 42);
    assert_eq!(read("d1", "t2"), 0);
    assert_eq!(read("d2", "t1"), 0);
    assert_eq!(read("d2", "t2"), 0);
}
