use metaparse::column_tallies::accumulate_column_tallies;

fn row(cells: &[&str]) -> Vec<String> {
    cells.iter().map(|c| c.to_string()).collect()
}

fn sample() -> (Vec<String>, Vec<Vec<String>>) {
    let types = row(&["string", "boolean", "string"]);
    let rows = vec![
        row(&["a", "true", "x"]),
        row(&["NULL", "no"]),
        row(&["b", "Yes", ""]),
        row(&["a", "1", "z"]),
    ];
    (types, rows)
}

#[test]
fn column_tallies_count_nulls_distinct_and_booleans() {
    let (types, rows) = sample();
    let c = accumulate_column_tallies(&types, 0, 3, 10, 1, &rows).unwrap();
    assert_eq!(c.rows_used, 4);
    assert_eq!(c.columns.len(), 3);
    assert_eq!(c.columns[0].nulls, 1);
    assert_eq!(c.columns[0].distinct, vec!["a".to_string()]);
    assert_eq!(c.columns[0].boolean_non_null, 0);
    assert_eq!(c.columns[1].nulls, 0);
    assert_eq!(c.columns[1].boolean_non_null, 4);
    assert_eq!(c.columns[1].boolean_true, 3);
    assert_eq!(c.columns[2].nulls, 2);
    assert_eq!(c.columns[2].distinct, vec!["x".to_string()]);
}

#[test]
fn column_tallies_keep_distinct_values_in_first_order() {
    let (types, rows) = sample();
    let c = accumulate_column_tallies(&types, 0, 1, 10, 5, &rows).unwrap();
    assert_eq!(c.columns.len(), 1);
    assert_eq!(c.columns[0].distinct, vec!["a".to_string(), "b".to_string()]);
}

#[test]
fn column_tallies_look_at_the_first_rows_only() {
    let (types, rows) = sample();
    let c = accumulate_column_tallies(&types, 1, 2, 2, 5, &rows).unwrap();
    assert_eq!(c.rows_used, 2);
    assert_eq!(c.columns[0].boolean_true, 1);
    assert_eq!(c.columns[0].boolean_non_null, 2);
}

#[test]
fn column_tallies_refuse_empty_or_out_of_range_runs() {
    let (types, rows) = sample();
    assert!(accumulate_column_tallies(&types, 2, 2, 10, 5, &rows).is_none());
    assert!(accumulate_column_tallies(&types, 0, 4, 10, 5, &rows).is_none());
    assert!(accumulate_column_tallies(&types, 0, 3, 0, 5, &rows).is_none());
    assert!(accumulate_column_tallies(&types, 0, 3, 10, 5, &[]).is_none());
}
