use rowstore::schema::{Column, ColumnKind, DatabaseSchema, StringColumn, TableSchema};

fn users_schema() -> TableSchema {
    TableSchema::new(vec![
        Column { name: String::from("id"), kind: ColumnKind::Int },
        Column {
            name: String::from("name"),
            kind: ColumnKind::String(StringColumn { length: 16 }),
        },
        Column {
            name: String::from("email"),
            kind: ColumnKind::String(StringColumn { length: 32 }),
        },
    ])
}

#[test]
fn column_sizes() {
    let id = Column { name: String::from("id"), kind: ColumnKind::Int };
    let name = Column {
        name: String::from("name"),
        kind: ColumnKind::String(StringColumn { length: 16 }),
    };
    assert_eq!(id.size(), 4);
    assert_eq!(name.size(), 16);
}

#[test]
fn schema_size_is_sum_of_columns() {
    let schema = users_schema();
    assert!(schema.check_wf());
    assert_eq!(schema.size(), 4 + 16 + 32);
}

#[test]
fn schema_offsets() {
    let schema = users_schema();
    assert_eq!(schema.offset("id"), Some(0));
    assert_eq!(schema.offset("name"), Some(4));
    assert_eq!(schema.offset("email"), Some(20));
    assert_eq!(schema.offset("missing"), None);
}

#[test]
fn schema_size_overflow_is_detected() {
    let schema = TableSchema::new(vec![
        Column {
            name: String::from("a"),
            kind: ColumnKind::String(StringColumn { length: usize::MAX }),
        },
        Column { name: String::from("b"), kind: ColumnKind::Int },
    ]);
    assert!(!schema.check_wf());
}

#[test]
fn database_schema_add_get_list() {
    let mut db = DatabaseSchema::new();
    assert!(db.get_table_schema("users").is_none());

    db.add_table("users", users_schema());
    let got = db.get_table_schema("users").expect("stored");
    assert_eq!(got.columns.len(), 3);
    assert!(db.get_table_schema("orders").is_none());

    db.add_table("orders", TableSchema::new(vec![]));
    let mut names = db.list_tables();
    names.sort();
    assert_eq!(names, vec![String::from("orders"), String::from("users")]);
}

#[test]
fn add_table_replaces_existing_entry() {
    let mut db = DatabaseSchema::new();
    db.add_table("users", users_schema());
    db.add_table("users", TableSchema::new(vec![Column {
        name: String::from("only"),
        kind: ColumnKind::Int,
    }]));
    let got = db.get_table_schema("users").expect("stored");
    assert_eq!(got.columns.len(), 1);
    assert_eq!(db.list_tables().len(), 1);
}
