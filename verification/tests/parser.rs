use pgpad::parser::{parse_statements, returns_values, StatementKind};

#[test]
fn parses_select_statements() {
    let results = parse_statements("SELECT * FROM system.tables").unwrap();
    assert_eq!(results.len(), 1);
    assert!(results[0].returns_values);
}

#[test]
fn parses_create_table() {
    let results = parse_statements(
        "CREATE TABLE test (id UInt32, name String) ENGINE = MergeTree() ORDER BY id",
    )
    .unwrap();
    assert_eq!(results.len(), 1);
    assert!(!results[0].returns_values);
}

#[test]
fn parses_insert() {
    let results = parse_statements("INSERT INTO test (id, name) VALUES (1, 'Alice')").unwrap();
    assert_eq!(results.len(), 1);
    assert!(!results[0].returns_values);
}

#[test]
fn parses_show_statements() {
    let results = parse_statements("SHOW TABLES").unwrap();
    assert_eq!(results.len(), 1);
    assert!(results[0].returns_values);

    let results = parse_statements("SHOW DATABASES").unwrap();
    assert_eq!(results.len(), 1);
    assert!(results[0].returns_values);

    let results = parse_statements("SHOW CREATE TABLE test").unwrap();
    assert_eq!(results.len(), 1);
    assert!(results[0].returns_values);
}

#[test]
fn parses_explain() {
    let results = parse_statements("EXPLAIN SELECT 1").unwrap();
    assert_eq!(results.len(), 1);
    assert!(results[0].returns_values);
}

#[test]
fn parses_multiple_statements() {
    let results = parse_statements("SELECT 1; SELECT 2").unwrap();
    assert_eq!(results.len(), 2);
    assert!(results[0].returns_values);
    assert!(results[1].returns_values);
}

#[test]
fn query_with_limit_is_marked_explicit() {
    let results = parse_statements("SELECT * FROM t LIMIT 5").unwrap();
    assert_eq!(results.len(), 1);
    assert!(results[0].has_explicit_limit);
    let results = parse_statements("SELECT * FROM t").unwrap();
    assert!(!results[0].has_explicit_limit);
}

#[test]
fn statement_text_is_printed_back() {
    let results = parse_statements("select 1").unwrap();
    assert_eq!(results[0].statement, "SELECT 1");
}

#[test]
fn refused_sql_reports_parser_error() {
    let err = parse_statements("SELEC 1 FROM").unwrap_err();
    let pgpad::error::ClickHouseError::Any(message) = err;
    assert!(message.starts_with("sql parser error: "), "{message}");
    let expected = sqlparser::parser::Parser::parse_sql(
        &sqlparser::dialect::ClickHouseDialect {},
        "SELEC 1 FROM",
    )
    .unwrap_err()
    .to_string();
    assert_eq!(message, expected);
    assert!(message.len() > "sql parser error: ".len());
}

#[test]
fn drop_does_not_return_values() {
    let results = parse_statements("DROP TABLE t").unwrap();
    assert_eq!(results.len(), 1);
    assert!(!results[0].returns_values);
}

#[test]
fn kinds_that_return_values() {
    for k in [
        StatementKind::Query,
        StatementKind::ShowVariable,
        StatementKind::ShowColumns,
        StatementKind::ShowTables,
        StatementKind::ShowDatabases,
        StatementKind::ShowCreate,
        StatementKind::Explain,
        StatementKind::ExplainTable,
    ] {
        assert!(returns_values(k));
    }
    assert!(!returns_values(StatementKind::Other));
}

#[test]
fn describe_and_show_columns_return_values() {
    for sql in ["DESCRIBE t", "SHOW COLUMNS FROM t", "EXPLAIN SELECT a FROM t"] {
        let results = parse_statements(sql).unwrap();
        assert_eq!(results.len(), 1, "{sql}");
        assert!(results[0].returns_values, "{sql}");
    }
}

#[test]
fn updates_do_not_return_values() {
    for sql in ["UPDATE t SET a = 1 WHERE b = 2", "DELETE FROM t WHERE a = 1", "TRUNCATE TABLE t"] {
        let results = parse_statements(sql).unwrap();
        assert_eq!(results.len(), 1, "{sql}");
        assert!(!results[0].returns_values, "{sql}");
    }
}
