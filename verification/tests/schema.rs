use pgpad::schema::{build_schema, CellValue};

fn t(s: &str) -> CellValue {
    CellValue::Text(s.to_string())
}

fn j(s: &str) -> CellValue {
    CellValue::Json(s.to_string())
}

fn row(db: &str, table: &str, col: &str, ty: &str, has_default: CellValue, expr: &str) -> Vec<CellValue> {
    vec![t(db), t(table), t(col), t(ty), has_default, t(expr)]
}

#[test]
fn groups_columns_by_table() {
    let rows = vec![
        row("default", "users", "id", "UInt32", j("0"), ""),
        row("default", "users", "name", "Nullable(String)", j("1"), "'anon'"),
        row("default", "events", "id", "UInt64", t("true"), "now()"),
        row("other", "users", "id", "UInt8", j("false"), "x"),
        vec![t("short"), t("row")],
        row("default", "users", "age", "UInt8", t("1"), "18"),
    ];
    let s = build_schema(&rows);
    assert_eq!(s.schemas, vec!["default".to_string(), "other".to_string()]);
    assert_eq!(s.unique_columns, vec!["id".to_string(), "name".to_string(), "age".to_string()]);
    assert_eq!(s.tables.len(), 3);

    let users = &s.tables[0];
    assert_eq!((users.schema.as_str(), users.name.as_str()), ("default", "users"));
    let names: Vec<&str> = users.columns.iter().map(|c| c.name.as_str()).collect();
    assert_eq!(names, vec!["id", "name", "age"]);
    assert!(!users.columns[0].is_nullable);
    assert_eq!(users.columns[0].default_value, None);
    assert!(users.columns[1].is_nullable);
    assert_eq!(users.columns[1].default_value.as_deref(), Some("'anon'"));
    assert_eq!(users.columns[2].default_value.as_deref(), Some("18"));
    assert_eq!(users.columns[2].data_type, "UInt8");

    let events = &s.tables[1];
    assert_eq!((events.schema.as_str(), events.name.as_str()), ("default", "events"));
    assert_eq!(events.columns.len(), 1);
    assert_eq!(events.columns[0].default_value.as_deref(), Some("now()"));

    let other = &s.tables[2];
    assert_eq!((other.schema.as_str(), other.name.as_str()), ("other", "users"));
    assert_eq!(other.columns[0].default_value, None);
}

#[test]
fn empty_and_short_rows() {
    let s = build_schema(&vec![]);
    assert!(s.tables.is_empty() && s.schemas.is_empty() && s.unique_columns.is_empty());
    let s = build_schema(&vec![vec![t("a"), t("b"), t("c"), t("d"), t("1")]]);
    assert!(s.tables.is_empty() && s.schemas.is_empty() && s.unique_columns.is_empty());
}

#[test]
fn json_cells_keep_their_text() {
    assert_eq!(j("42").to_text(), "42");
    assert_eq!(t("x").to_text(), "x");
    let s = build_schema(&vec![vec![j("1"), j("2"), j("3"), t("Int8"), j("true"), j("null")]]);
    assert_eq!(s.schemas, vec!["1".to_string()]);
    assert_eq!(s.tables[0].name, "2");
    assert_eq!(s.tables[0].columns[0].name, "3");
    // a JSON `true` is written out as the text `true`, which counts as a default
    assert_eq!(s.tables[0].columns[0].default_value.as_deref(), Some("null"));
}

#[test]
fn every_complete_row_becomes_one_column() {
    let mut rows = Vec::new();
    for i in 0..40 {
        rows.push(row(&format!("db{}", i % 3), &format!("t{}", i % 5), &format!("c{}", i), "String", t("0"), ""));
    }
    let s = build_schema(&rows);
    let total: usize = s.tables.iter().map(|t| t.columns.len()).sum();
    assert_eq!(total, 40);
    assert_eq!(s.unique_columns.len(), 40);
    assert_eq!(s.schemas.len(), 3);
    assert_eq!(s.tables.len(), 15);
}

#[test]
fn schema_query_and_decode_error() {
    let q = pgpad::schema::schema_query();
    assert!(q.contains("FROM system.columns"));
    assert!(q.contains("default_kind != '' as has_default"));
    assert!(q.contains("ORDER BY database, table, position"));
    assert!(q.trim_end().ends_with("FORMAT JSONCompact"));
    let pgpad::error::ClickHouseError::Any(m) = pgpad::schema::schema_decode_error("EOF");
    assert_eq!(m, "Failed to parse schema response: EOF");
}
