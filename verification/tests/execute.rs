use pgpad::execute::{
    encode_columns, prepare_query, ExecEvent, RunInput, RunState, DEFAULT_LIMIT, PAGE_SIZE,
};
use pgpad::parser::ParsedStatement;

fn stmt(text: &str, returns_values: bool, has_explicit_limit: bool) -> ParsedStatement {
    ParsedStatement { statement: text.to_string(), returns_values, has_explicit_limit }
}

fn finished(e: &ExecEvent) -> (Option<String>, bool) {
    match e {
        ExecEvent::Finished { affected_rows, error, truncated } => {
            assert_eq!(*affected_rows, 0);
            (error.clone(), *truncated)
        }
        other => panic!("expected Finished, got {:?}", other),
    }
}

#[test]
fn prepared_query_adds_limit_and_format() {
    assert_eq!(
        prepare_query("  SELECT * FROM t;; \n", false),
        "SELECT * FROM t LIMIT 1001 FORMAT JSONCompact"
    );
    assert_eq!(
        prepare_query("SELECT * FROM t LIMIT 5;", true),
        "SELECT * FROM t LIMIT 5 FORMAT JSONCompact"
    );
}

#[test]
fn start_sends_statement_text() {
    let (state, sql) = RunState::start(&stmt("INSERT INTO t VALUES (1)", false, false));
    assert_eq!(sql, "INSERT INTO t VALUES (1)");
    assert_eq!(state, RunState::AwaitingResponse { returns_values: false, has_explicit_limit: false });
    let (state, sql) = RunState::start(&stmt("SELECT 1", true, false));
    assert_eq!(sql, "SELECT 1 LIMIT 1001 FORMAT JSONCompact");
    assert_eq!(state, RunState::AwaitingResponse { returns_values: true, has_explicit_limit: false });
}

#[test]
fn modification_success_finishes_without_error() {
    let (state, _) = RunState::start(&stmt("DROP TABLE t", false, false));
    let step = state.advance(RunInput::Responded);
    assert_eq!(step.state, RunState::Done);
    assert_eq!(step.events.len(), 1);
    assert_eq!(finished(&step.events[0]), (None, false));
    assert!(matches!(step.outcome, Some(Ok(()))));
}

#[test]
fn request_failure_is_reported_once() {
    let (state, _) = RunState::start(&stmt("SELECT 1", true, false));
    let input = RunInput::RequestFailed("connection refused".to_string());
    assert!(state.accepts(&input));
    let step = state.advance(input);
    assert_eq!(step.state, RunState::Done);
    assert_eq!(step.events.len(), 1);
    assert_eq!(finished(&step.events[0]), (Some("Query failed: connection refused".to_string()), false));
    match step.outcome {
        Some(Err(pgpad::error::ClickHouseError::Any(m))) => assert_eq!(m, "Query failed: connection refused"),
        other => panic!("unexpected outcome {:?}", other),
    }
}

#[test]
fn decode_failure_is_reported_once() {
    let state = RunState::AwaitingRows { has_explicit_limit: false };
    assert!(!state.accepts(&RunInput::Responded));
    let step = state.advance(RunInput::DecodeFailed("expected value".to_string()));
    assert_eq!(step.events.len(), 1);
    assert_eq!(
        finished(&step.events[0]),
        (Some("Failed to parse ClickHouse response: expected value".to_string()), false)
    );
    assert!(matches!(step.outcome, Some(Err(_))));
}

#[test]
fn rows_are_paged_and_truncated() {
    let (state, _) = RunState::start(&stmt("SELECT n FROM numbers(2000)", true, false));
    let step = state.advance(RunInput::Responded);
    assert_eq!(step.state, RunState::AwaitingRows { has_explicit_limit: false });
    assert!(step.events.is_empty());
    assert!(step.outcome.is_none());
    let rows: Vec<String> = (0..1001).map(|i| format!("[{}]", i)).collect();
    let step = step.state.advance(RunInput::RowsDecoded { columns: vec!["n".to_string()], rows });
    assert_eq!(step.state, RunState::Done);
    assert!(matches!(step.outcome, Some(Ok(()))));
    // columns, 20 pages of 50, finished
    assert_eq!(step.events.len(), 1 + DEFAULT_LIMIT / PAGE_SIZE + 1);
    match &step.events[0] {
        ExecEvent::TypesResolved { columns } => assert_eq!(columns, "[\"n\"]"),
        other => panic!("{:?}", other),
    }
    let mut total = 0;
    for e in &step.events[1..step.events.len() - 1] {
        match e {
            ExecEvent::Page { page_amount, page } => {
                assert_eq!(*page_amount, PAGE_SIZE);
                let parsed: Vec<Vec<u32>> = serde_json::from_str(page).unwrap();
                assert_eq!(parsed.len(), *page_amount);
                for (k, row) in parsed.iter().enumerate() {
                    assert_eq!(row, &vec![(total + k) as u32]);
                }
                total += page_amount;
            }
            other => panic!("{:?}", other),
        }
    }
    assert_eq!(total, DEFAULT_LIMIT);
    assert_eq!(finished(step.events.last().unwrap()), (None, true));
}

#[test]
fn explicit_limit_keeps_all_rows() {
    let state = RunState::AwaitingRows { has_explicit_limit: true };
    let rows: Vec<String> = (0..1203).map(|i| format!("[{},\"a\"]", i)).collect();
    let step = state.advance(RunInput::RowsDecoded {
        columns: vec!["n".to_string(), "s".to_string()],
        rows,
    });
    let pages: Vec<usize> = step.events[1..step.events.len() - 1]
        .iter()
        .map(|e| match e {
            ExecEvent::Page { page_amount, .. } => *page_amount,
            other => panic!("{:?}", other),
        })
        .collect();
    assert_eq!(pages.len(), 25);
    assert_eq!(pages[24], 3);
    assert_eq!(pages.iter().sum::<usize>(), 1203);
    assert_eq!(finished(step.events.last().unwrap()), (None, false));
}

#[test]
fn no_rows_gives_no_pages() {
    let state = RunState::AwaitingRows { has_explicit_limit: false };
    let step = state.advance(RunInput::RowsDecoded { columns: vec![], rows: vec![] });
    assert_eq!(step.events.len(), 2);
    match &step.events[0] {
        ExecEvent::TypesResolved { columns } => assert_eq!(columns, "[]"),
        other => panic!("{:?}", other),
    }
    assert_eq!(finished(&step.events[1]), (None, false));
}

#[test]
fn small_page_json() {
    let state = RunState::AwaitingRows { has_explicit_limit: false };
    let step = state.advance(RunInput::RowsDecoded {
        columns: vec!["a".to_string(), "b\"c".to_string()],
        rows: vec!["[1,\"x\"]".to_string(), "[2,null]".to_string()],
    });
    assert_eq!(step.events.len(), 3);
    match &step.events[0] {
        ExecEvent::TypesResolved { columns } => assert_eq!(columns, "[\"a\",\"b\\\"c\"]"),
        other => panic!("{:?}", other),
    }
    match &step.events[1] {
        ExecEvent::Page { page_amount, page } => {
            assert_eq!(*page_amount, 2);
            assert_eq!(page, "[[1,\"x\"],[2,null]]");
        }
        other => panic!("{:?}", other),
    }
}

#[test]
fn column_names_are_json_strings() {
    let names = vec!["id".to_string(), "line\nbreak".to_string()];
    assert_eq!(encode_columns(&names), "[\"id\",\"line\\nbreak\"]");
    let names = vec!["a\u{1}b\u{1f}".to_string(), "q\"\\".to_string(), "é\u{7f}".to_string()];
    assert_eq!(encode_columns(&names), "[\"a\\u0001b\\u001f\",\"q\\\"\\\\\",\"é\u{7f}\"]");
    assert_eq!(encode_columns(&names), serde_json::to_string(&names).unwrap());
}

#[test]
fn row_encoding_error_message() {
    let pgpad::error::ClickHouseError::Any(m) = pgpad::execute::row_encoding_error("bad");
    assert_eq!(m, "Failed to serialize rows: bad");
}
