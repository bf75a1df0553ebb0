use metaparse::sqlite_schema::{
    build_table_info, extract_sqlite_metadata, primary_keys, ForeignKeyRow, IndexAnswer,
    SqliteDatabase, TableAnswers, TableInfoRow,
};

fn col(name: &str, declared: Option<&str>, not_null: i64, pk: i64) -> TableInfoRow {
    TableInfoRow {
        name: name.to_string(),
        declared_type: declared.map(|s| s.to_string()),
        not_null,
        default_value: None,
        pk,
    }
}

fn orders() -> TableAnswers {
    TableAnswers {
        name: "orders".to_string(),
        table_info: Ok(vec![
            col("id", Some("integer"), 1, 2),
            col("customer", Some("VARCHAR(20)"), 0, 0),
            col("region", Some(""), 0, 1),
            col("note", None, 0, 0),
        ]),
        row_count: Some(7),
        foreign_keys: Ok(vec![ForeignKeyRow {
            references_table: "customers".to_string(),
            from_column: "customer".to_string(),
            to_column: "id".to_string(),
        }]),
        indexes: Ok((
            vec![IndexAnswer { name: "idx_c".to_string(), columns: vec!["customer".to_string()] }],
            vec![("other".to_string(), 1), ("idx_c".to_string(), 1), ("idx_c".to_string(), 0)],
        )),
    }
}

fn empty_table(name: &str, rows: Option<usize>) -> TableAnswers {
    TableAnswers {
        name: name.to_string(),
        table_info: Ok(vec![]),
        row_count: rows,
        foreign_keys: Ok(vec![]),
        indexes: Ok((vec![], vec![])),
    }
}

#[test]
fn sqlite_table_columns_keys_and_indexes() {
    let t = build_table_info(&orders()).ok().unwrap();
    assert_eq!(t.name, "orders");
    assert_eq!(t.column_count, Some(4));
    let cols = t.columns.unwrap();
    assert_eq!(cols[0].column_type.as_deref(), Some("INTEGER"));
    assert_eq!(cols[1].column_type.as_deref(), Some("TEXT"));
    assert_eq!(cols[2].column_type.as_deref(), Some("BLOB"));
    assert_eq!(cols[3].column_type, None);
    assert_eq!(cols[0].not_null, Some(true));
    assert_eq!(cols[0].is_primary_key, Some(true));
    assert_eq!(cols[1].is_primary_key, Some(false));
    assert_eq!(cols[1].is_foreign_key, Some(true));
    assert_eq!(cols[0].is_foreign_key, Some(false));
    assert_eq!(t.primary_keys, Some(vec!["region".to_string(), "id".to_string()]));
    assert_eq!(t.row_count, Some(7));
    let fks = t.foreign_keys.unwrap();
    assert_eq!(fks[0].column, "customer");
    assert_eq!(fks[0].references_table, "customers");
    assert_eq!(fks[0].references_column, "id");
    let ix = t.indexes.unwrap();
    assert_eq!(ix[0].name, "idx_c");
    assert_eq!(ix[0].table, "orders");
    assert_eq!(ix[0].columns, vec!["customer".to_string()]);
    assert_eq!(ix[0].unique, Some(true));
}

#[test]
fn sqlite_primary_keys_sort_is_stable() {
    let rows = vec![col("b", None, 0, 2), col("a", None, 0, 1), col("c", None, 0, 2), col("x", None, 0, 0)];
    assert_eq!(primary_keys(&rows), vec!["a".to_string(), "b".to_string(), "c".to_string()]);
}

#[test]
fn sqlite_table_query_failure_gives_its_message() {
    let mut t = orders();
    t.foreign_keys = Err("fk failed".to_string());
    t.indexes = Err("index failed".to_string());
    assert_eq!(build_table_info(&t).err(), Some("fk failed".to_string()));
    t.table_info = Err("columns failed".to_string());
    assert_eq!(build_table_info(&t).err(), Some("columns failed".to_string()));
}

#[test]
fn sqlite_metadata_totals() {
    let db = SqliteDatabase {
        page_size: Some(4096),
        encoding: Some("UTF-8".to_string()),
        sqlite_version: Some("3.45.0".to_string()),
        tables: Ok(vec![orders(), empty_table("log", Some(5)), empty_table("view_like", None)]),
    };
    let m = extract_sqlite_metadata(&Ok(db), 8192);
    assert_eq!(m.file_size, Some(8192));
    assert_eq!(m.page_size, Some(4096));
    assert_eq!(m.encoding.as_deref(), Some("UTF-8"));
    assert_eq!(m.sqlite_version.as_deref(), Some("3.45.0"));
    assert_eq!(m.table_count, Some(3));
    assert_eq!(m.total_rows, Some(12));
    assert_eq!(m.tables.unwrap().len(), 3);
    assert!(m.error.is_none());
}

#[test]
fn sqlite_metadata_stops_at_first_failing_table() {
    let mut bad = empty_table("bad", Some(1));
    bad.indexes = Err("Failed to query index names".to_string());
    let db = SqliteDatabase {
        page_size: Some(-1),
        encoding: None,
        sqlite_version: None,
        tables: Ok(vec![orders(), bad, empty_table("later", Some(3))]),
    };
    let m = extract_sqlite_metadata(&Ok(db), 10);
    assert_eq!(m.page_size, None);
    assert_eq!(m.table_count, Some(3));
    assert_eq!(m.error.as_deref(), Some("Failed to query index names"));
    assert_eq!(m.total_rows, None);
    assert!(m.tables.is_none());
}

#[test]
fn sqlite_metadata_open_and_listing_failures() {
    let m = extract_sqlite_metadata(&Err("file is not a database".to_string()), 3);
    assert_eq!(m.file_size, Some(3));
    assert_eq!(m.error.as_deref(), Some("file is not a database"));
    assert_eq!(m.table_count, None);
    let db = SqliteDatabase { page_size: None, encoding: None, sqlite_version: None, tables: Err("no tables".to_string()) };
    let m = extract_sqlite_metadata(&Ok(db), 3);
    assert_eq!(m.error.as_deref(), Some("no tables"));
    assert_eq!(m.table_count, None);
    assert_eq!(m.total_rows, None);
    let db = SqliteDatabase { page_size: None, encoding: None, sqlite_version: None, tables: Ok(vec![]) };
    let m = extract_sqlite_metadata(&Ok(db), 3);
    assert_eq!(m.table_count, Some(0));
    assert_eq!(m.total_rows, Some(0));
    assert!(m.tables.is_none());
}
