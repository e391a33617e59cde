use vstd::prelude::*;

use sqlparser::ast::Statement as Ast;
use sqlparser::dialect::ClickHouseDialect;
use sqlparser::parser::Parser;

use crate::error::ClickHouseError;

verus! {

#[verifier::external_type_specification]
#[verifier::external_body]
pub struct ExSqlParserError(sqlparser::parser::ParserError);

/// The kinds of SQL statement that tell whether a statement returns rows.
#[derive(Debug, PartialEq, Eq, Structural, Clone, Copy)]
pub enum StatementKind {
    Query,
    ShowVariable,
    ShowColumns,
    ShowTables,
    ShowDatabases,
    ShowCreate,
    Explain,
    ExplainTable,
    Other,
}

/// One statement as the SQL parser read it.
#[derive(Debug)]
pub struct SqlStatement {
    pub kind: StatementKind,
    /// The statement as the parser prints it back.
    pub text: String,
    /// The LIMIT clause of a query, as the parser prints it back.
    pub limit: Option<String>,
}

pub struct SqlStatementView {
    pub kind: StatementKind,
    pub text: Seq<char>,
    pub limit: Option<Seq<char>>,
}

impl View for SqlStatement {
    type V = SqlStatementView;

    open spec fn view(&self) -> SqlStatementView {
        SqlStatementView {
            kind: self.kind,
            text: self.text@,
            limit: match self.limit {
                Some(l) => Some(l@),
                None => None,
            },
        }
    }
}

pub open spec fn sql_views(v: Seq<SqlStatement>) -> Seq<SqlStatementView> {
    v.map_values(|s: SqlStatement| s@)
}

/// What `sqlparser`'s parser, with the ClickHouse dialect, makes of `query`:
/// its statements, or `None` where it refuses the text.
pub uninterp spec fn clickhouse_statements(query: Seq<char>) -> Option<Seq<SqlStatementView>>;

/// Calls `sqlparser::parser::Parser::parse_sql` with the ClickHouse dialect and
/// copies out, for each statement, its variant, its printed text and its LIMIT
/// clause. The contract claims only that the outcome is a function of the
/// query text, named `clickhouse_statements`; SQL grammar is not stated.
#[verifier::external_body]
fn parse_clickhouse_sql(query: &str) -> (r: Result<Vec<SqlStatement>, sqlparser::parser::ParserError>)
    ensures
        r is Ok <==> clickhouse_statements(query@) is Some,
        r matches Ok(v) ==> sql_views(v@) == clickhouse_statements(query@).unwrap(),
{
    Ok(Parser::parse_sql(&ClickHouseDialect {}, query)?.iter().map(|s| {
        let kind = match s {
            Ast::Query(_) => StatementKind::Query,
            Ast::ShowVariable { .. } => StatementKind::ShowVariable,
            Ast::ShowColumns { .. } => StatementKind::ShowColumns,
            Ast::ShowTables { .. } => StatementKind::ShowTables,
            Ast::ShowDatabases { .. } => StatementKind::ShowDatabases,
            Ast::ShowCreate { .. } => StatementKind::ShowCreate,
            Ast::Explain { .. } => StatementKind::Explain,
            Ast::ExplainTable { .. } => StatementKind::ExplainTable,
            _ => StatementKind::Other,
        };
        let limit = if let Ast::Query(q) = s { q.limit_clause.as_ref().map(|l| l.to_string()) } else { None };
        SqlStatement { kind, text: s.to_string(), limit }
    }).collect())
}

/// Why the SQL parser refused a text.
#[derive(Debug)]
pub enum ParseFailure {
    Tokenizer(String),
    Syntax(String),
    RecursionLimitExceeded,
}

pub enum ParseFailureView {
    Tokenizer(Seq<char>),
    Syntax(Seq<char>),
    RecursionLimitExceeded,
}

impl View for ParseFailure {
    type V = ParseFailureView;

    open spec fn view(&self) -> ParseFailureView {
        match self {
            ParseFailure::Tokenizer(m) => ParseFailureView::Tokenizer(m@),
            ParseFailure::Syntax(m) => ParseFailureView::Syntax(m@),
            ParseFailure::RecursionLimitExceeded => ParseFailureView::RecursionLimitExceeded,
        }
    }
}

/// Why `sqlparser`'s parser, with the ClickHouse dialect, refuses `query`;
/// `None` where it accepts it.
pub uninterp spec fn clickhouse_parse_failure(query: Seq<char>) -> Option<ParseFailureView>;

/// Calls `sqlparser::parser::Parser::parse_sql` with the ClickHouse dialect
/// and copies out the variant and message of the `ParserError` it returns.
/// The contract claims that the outcome is a function of the query text,
/// named `clickhouse_parse_failure`, and, since both run the same
/// deterministic parse, that it is `None` exactly where the statements are
/// there.
#[verifier::external_body]
fn parse_failure(query: &str) -> (r: Option<ParseFailure>)
    ensures
        r is None <==> clickhouse_statements(query@) is Some,
        r matches Some(f) ==> clickhouse_parse_failure(query@) == Some(f@),
        r is None ==> clickhouse_parse_failure(query@) is None,
{
    match Parser::parse_sql(&ClickHouseDialect {}, query) {
        Ok(_) => None,
        Err(sqlparser::parser::ParserError::TokenizerError(m)) => Some(ParseFailure::Tokenizer(m)),
        Err(sqlparser::parser::ParserError::ParserError(m)) => Some(ParseFailure::Syntax(m)),
        Err(sqlparser::parser::ParserError::RecursionLimitExceeded) => Some(
            ParseFailure::RecursionLimitExceeded,
        ),
    }
}

/// The message that `ParserError`'s `Display` writes for `f`.
pub open spec fn failure_text(f: ParseFailureView) -> Seq<char> {
    "sql parser error: "@ + match f {
        ParseFailureView::Tokenizer(m) => m,
        ParseFailureView::Syntax(m) => m,
        ParseFailureView::RecursionLimitExceeded => "recursion limit exceeded"@,
    }
}

/// The message that `ParserError`'s `Display` writes for `f`.
pub open spec fn failure_message(f: ParseFailure) -> Seq<char> {
    failure_text(f@)
}

/// The error that a refused SQL text is reported as.
pub fn failure_error(f: &ParseFailure) -> (e: ClickHouseError)
    ensures
        e.message() == failure_message(*f),
{
    match f {
        ParseFailure::Tokenizer(m) => ClickHouseError::with_detail("sql parser error: ", m.as_str()),
        ParseFailure::Syntax(m) => ClickHouseError::with_detail("sql parser error: ", m.as_str()),
        ParseFailure::RecursionLimitExceeded => ClickHouseError::with_detail(
            "sql parser error: ",
            "recursion limit exceeded",
        ),
    }
}

/// Whether a statement of kind `k` returns rows in ClickHouse: queries,
/// SHOW statements and EXPLAIN statements do.
pub open spec fn spec_returns_values(k: StatementKind) -> bool {
    match k {
        StatementKind::Query => true,
        StatementKind::ShowVariable => true,
        StatementKind::ShowColumns => true,
        StatementKind::ShowTables => true,
        StatementKind::ShowDatabases => true,
        StatementKind::ShowCreate => true,
        StatementKind::Explain => true,
        StatementKind::ExplainTable => true,
        StatementKind::Other => false,
    }
}

/// Whether a statement of kind `k` returns rows in ClickHouse.
pub fn returns_values(k: StatementKind) -> (r: bool)
    ensures
        r == spec_returns_values(k),
{
    match k {
        StatementKind::Query => true,
        StatementKind::ShowVariable => true,
        StatementKind::ShowColumns => true,
        StatementKind::ShowTables => true,
        StatementKind::ShowDatabases => true,
        StatementKind::ShowCreate => true,
        StatementKind::Explain => true,
        StatementKind::ExplainTable => true,
        StatementKind::Other => false,
    }
}

/// A statement ready to run: its text, whether it returns rows, and whether
/// it sets its own row limit.
#[derive(Debug)]
pub struct ParsedStatement {
    pub statement: String,
    pub returns_values: bool,
    pub has_explicit_limit: bool,
}

pub struct ParsedStatementView {
    pub statement: Seq<char>,
    pub returns_values: bool,
    pub has_explicit_limit: bool,
}

impl View for ParsedStatement {
    type V = ParsedStatementView;

    open spec fn view(&self) -> ParsedStatementView {
        ParsedStatementView {
            statement: self.statement@,
            returns_values: self.returns_values,
            has_explicit_limit: self.has_explicit_limit,
        }
    }
}

pub open spec fn parsed_views(v: Seq<ParsedStatement>) -> Seq<ParsedStatementView> {
    v.map_values(|s: ParsedStatement| s@)
}

/// What a statement the parser read becomes.
pub open spec fn spec_summarize(s: SqlStatementView) -> ParsedStatementView {
    ParsedStatementView {
        statement: s.text,
        returns_values: spec_returns_values(s.kind),
        has_explicit_limit: s.limit is Some,
    }
}

/// Whether a statement returns rows depends on its kind alone: queries, SHOW
/// and EXPLAIN statements do and all others do not, whatever their LIMIT
/// clause. A statement sets its own LIMIT exactly when it has a LIMIT clause,
/// and its text is kept as the parser printed it.
pub proof fn law_summary_follows_kind(s: SqlStatementView)
    ensures
        spec_summarize(s).returns_values <==> s.kind != StatementKind::Other,
        spec_summarize(s).has_explicit_limit <==> s.limit is Some,
        spec_summarize(s).statement == s.text,
{
}

/// Two statements of the same kind either both return rows or both do not,
/// whatever else differs between them.
pub proof fn law_same_kind_same_rows(a: SqlStatementView, b: SqlStatementView)
    requires
        a.kind == b.kind,
    ensures
        spec_summarize(a).returns_values == spec_summarize(b).returns_values,
{
}

/// The statements the parser read, each with whether it returns rows and
/// whether it carries its own LIMIT.
pub fn summarize_statements(stmts: Vec<SqlStatement>) -> (r: Vec<ParsedStatement>)
    ensures
        parsed_views(r@) == sql_views(stmts@).map_values(|s: SqlStatementView| spec_summarize(s)),
{
    let mut r: Vec<ParsedStatement> = Vec::new();
    let n = stmts.len();
    let mut i: usize = 0;
    while i < n
        invariant
            i <= n == stmts@.len(),
            r@.len() == i,
            forall|j: int| 0 <= j < i ==> #[trigger] r@[j]@ == spec_summarize(stmts@[j]@),
        decreases n - i,
    {
        let s = &stmts[i];
        r.push(
            ParsedStatement {
                statement: s.text.clone(),
                returns_values: returns_values(s.kind),
                has_explicit_limit: s.limit.is_some(),
            },
        );
        i = i + 1;
    }
    assert(parsed_views(r@) =~= sql_views(stmts@).map_values(|s: SqlStatementView| spec_summarize(s)));
    r
}

/// Splits `query` into its ClickHouse statements and says of each whether it
/// returns rows and whether it sets its own LIMIT. A refused text is reported
/// with the parser's own message; the reason is read by parsing once more.
pub fn parse_statements(query: &str) -> (r: Result<Vec<ParsedStatement>, ClickHouseError>)
    ensures
        r is Ok <==> clickhouse_statements(query@) is Some,
        r matches Ok(v) ==> parsed_views(v@) == clickhouse_statements(query@).unwrap().map_values(
            |s: SqlStatementView| spec_summarize(s),
        ),
        r matches Err(e) ==> clickhouse_parse_failure(query@) matches Some(f) && e.message()
            == failure_text(f),
{
    match parse_clickhouse_sql(query) {
        Ok(stmts) => Ok(summarize_statements(stmts)),
        Err(_) => match parse_failure(query) {
            Some(f) => Err(failure_error(&f)),
            None => {
                proof {
                    assert(false);
                }
                Err(ClickHouseError::from_text("sql parser error: "))
            },
        },
    }
}

} // verus!
