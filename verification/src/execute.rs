use vstd::prelude::*;

use crate::error::ClickHouseError;
use crate::parser::ParsedStatement;
use crate::text::{
    decimal, decimal_string, digit_char, frame_json_array, json_array_text, spec_trim, strip_trailing, texts,
    trim, trim_end_char, Strip,
};

verus! {

#[verifier::external_type_specification]
#[verifier::external_body]
pub struct ExJsonError(serde_json::Error);

/// Rows returned at most when a query sets no LIMIT of its own.
pub const DEFAULT_LIMIT: usize = 1000;

/// Rows sent per page of results.
pub const PAGE_SIZE: usize = 50;

/// Lower-case hexadecimal digit `d`, as serde_json writes them in `\u00XX`.
pub open spec fn hex_digit(d: nat) -> char {
    if d < 10 {
        digit_char(d)
    } else if d == 10 {
        'a'
    } else if d == 11 {
        'b'
    } else if d == 12 {
        'c'
    } else if d == 13 {
        'd'
    } else if d == 14 {
        'e'
    } else {
        'f'
    }
}

/// How serde_json writes one character inside a JSON string: `"` and `\`
/// behind a backslash, backspace, tab, line feed, form feed and carriage
/// return as `\b \t \n \f \r`, the other characters below U+0020 as
/// `\u00XX`, and every other character as itself.
pub open spec fn json_char_escape(c: char) -> Seq<char> {
    if c == '"' {
        seq!['\\', '"']
    } else if c == '\\' {
        seq!['\\', '\\']
    } else if c == '\u{8}' {
        seq!['\\', 'b']
    } else if c == '\t' {
        seq!['\\', 't']
    } else if c == '\n' {
        seq!['\\', 'n']
    } else if c == '\u{c}' {
        seq!['\\', 'f']
    } else if c == '\r' {
        seq!['\\', 'r']
    } else if (c as nat) < 0x20 {
        seq!['\\', 'u', '0', '0', hex_digit((c as nat) / 16), hex_digit((c as nat) % 16)]
    } else {
        seq![c]
    }
}

/// The characters of `s`, each written as inside a JSON string.
pub open spec fn json_escaped(s: Seq<char>) -> Seq<char>
    decreases s.len(),
{
    if s.len() == 0 {
        seq![]
    } else {
        json_escaped(s.drop_last()) + json_char_escape(s.last())
    }
}

/// The JSON string literal that serde_json writes for `s`.
pub open spec fn json_string(s: Seq<char>) -> Seq<char> {
    seq!['"'] + json_escaped(s) + seq!['"']
}

/// Calls `serde_json::to_string` on a string slice: the text between double
/// quotes, escaped by the table of `json_char_escape` (serde_json's `ESCAPE`
/// table and `write_char_escape`). Serializing a string into a `Vec<u8>`
/// never fails, so the result is always `Ok`.
#[verifier::external_body]
fn encode_json_string(text: &str) -> (r: Result<String, serde_json::Error>)
    ensures
        r is Ok,
        r matches Ok(s) ==> s@ == json_string(text@),
{
    serde_json::to_string(text)
}

/// The error for rows that could not be written back as JSON, quoting the
/// encoder's message.
pub fn row_encoding_error(detail: &str) -> (e: ClickHouseError)
    ensures
        e.message() == "Failed to serialize rows: "@ + detail@,
{
    ClickHouseError::with_detail("Failed to serialize rows: ", detail)
}

/// The text sent to the server for a statement that returns rows: the
/// statement trimmed and without trailing semicolons, limited to one row more
/// than `DEFAULT_LIMIT` unless it sets its own LIMIT, and asking for the
/// `JSONCompact` format.
pub open spec fn spec_prepared_query(statement: Seq<char>, has_explicit_limit: bool) -> Seq<char> {
    let base = strip_trailing(spec_trim(statement), Strip::Char(';'));
    let limited = if has_explicit_limit {
        base
    } else {
        base + " LIMIT "@ + decimal((DEFAULT_LIMIT + 1) as nat)
    };
    limited + " FORMAT JSONCompact"@
}

/// Builds the text sent to the server for a statement that returns rows.
pub fn prepare_query(statement: &str, has_explicit_limit: bool) -> (r: String)
    ensures
        r@ == spec_prepared_query(statement@, has_explicit_limit),
{
    let base = trim_end_char(trim(statement), ';');
    let mut r = String::from_str(base);
    if !has_explicit_limit {
        r.append(" LIMIT ");
        let n = decimal_string((DEFAULT_LIMIT + 1) as u64);
        r.append(n.as_str());
    }
    r.append(" FORMAT JSONCompact");
    r
}

/// `s` cut into consecutive pieces of `k` items, the last one possibly shorter.
pub open spec fn chunks<A>(s: Seq<A>, k: nat) -> Seq<Seq<A>>
    decreases s.len(),
{
    if s.len() == 0 || k == 0 {
        seq![]
    } else if s.len() <= k {
        seq![s]
    } else {
        seq![s.take(k as int)] + chunks(s.skip(k as int), k)
    }
}

/// The number of rows that reach the user out of `n` fetched.
pub open spec fn spec_kept(n: nat, has_explicit_limit: bool) -> nat {
    if !has_explicit_limit && n > DEFAULT_LIMIT {
        DEFAULT_LIMIT as nat
    } else {
        n
    }
}

/// Whether rows were cut off: the query set no LIMIT and more than
/// `DEFAULT_LIMIT` rows came back.
pub open spec fn spec_truncated(n: nat, has_explicit_limit: bool) -> bool {
    !has_explicit_limit && n > DEFAULT_LIMIT
}

/// What a running query reports to whoever shows its results.
#[derive(Debug)]
pub enum ExecEvent {
    /// The column names, as a JSON array of strings.
    TypesResolved { columns: String },
    /// A page of rows, as a JSON array of rows.
    Page { page_amount: usize, page: String },
    /// The end of the run.
    Finished { affected_rows: usize, error: Option<String>, truncated: bool },
}

pub enum EventView {
    TypesResolved { columns: Seq<char> },
    Page { page_amount: nat, page: Seq<char> },
    Finished { affected_rows: nat, error: Option<Seq<char>>, truncated: bool },
}

impl View for ExecEvent {
    type V = EventView;

    open spec fn view(&self) -> EventView {
        match self {
            ExecEvent::TypesResolved { columns } => EventView::TypesResolved { columns: columns@ },
            ExecEvent::Page { page_amount, page } => EventView::Page {
                page_amount: *page_amount as nat,
                page: page@,
            },
            ExecEvent::Finished { affected_rows, error, truncated } => EventView::Finished {
                affected_rows: *affected_rows as nat,
                error: match error {
                    Some(e) => Some(e@),
                    None => None,
                },
                truncated: *truncated,
            },
        }
    }
}

pub open spec fn event_views(v: Seq<ExecEvent>) -> Seq<EventView> {
    v.map_values(|e: ExecEvent| e@)
}

/// The page that carries the rows `chunk`, each row a JSON text.
pub open spec fn page_event(chunk: Seq<Seq<char>>) -> EventView {
    EventView::Page { page_amount: chunk.len(), page: json_array_text(chunk) }
}

/// The pages that carry `rows`, `PAGE_SIZE` rows to a page.
pub open spec fn page_events(rows: Seq<Seq<char>>) -> Seq<EventView> {
    chunks(rows, PAGE_SIZE as nat).map_values(|c: Seq<Seq<char>>| page_event(c))
}

/// The event that ends a run.
pub open spec fn finished_event(error: Option<Seq<char>>, truncated: bool) -> EventView {
    EventView::Finished { affected_rows: 0, error, truncated }
}

proof fn lemma_chunks_step<A>(s: Seq<A>, k: nat)
    requires
        s.len() > 0,
        k > 0,
    ensures
        ({
            let m = if s.len() <= k { s.len() as int } else { k as int };
            &&& chunks(s, k).len() > 0
            &&& chunks(s, k)[0] == s.take(m)
            &&& chunks(s, k).skip(1) == chunks(s.skip(m), k)
        }),
{
    if s.len() <= k {
        assert(s.take(s.len() as int) =~= s);
        assert(s.skip(s.len() as int) =~= Seq::<A>::empty());
        assert(chunks(s, k).skip(1) =~= Seq::<Seq<A>>::empty());
    } else {
        assert(chunks(s, k).skip(1) =~= chunks(s.skip(k as int), k));
    }
}

/// The page events for `rows[0..kept]`, each built from its rows.
fn pages_of(rows: &Vec<String>, kept: usize) -> (r: Vec<ExecEvent>)
    requires
        kept <= rows@.len(),
    ensures
        event_views(r@) == page_events(texts(rows@).take(kept as int)),
{
    let ghost all = texts(rows@);
    let ghost target = chunks(all.take(kept as int), PAGE_SIZE as nat);
    let mut r: Vec<ExecEvent> = Vec::new();
    let mut i: usize = 0;
    assert(all.take(kept as int).skip(0) =~= all.take(kept as int));
    while i < kept
        invariant
            i <= kept <= rows@.len(),
            all == texts(rows@),
            target == chunks(all.take(kept as int), PAGE_SIZE as nat),
            r@.len() <= target.len(),
            chunks(all.subrange(i as int, kept as int), PAGE_SIZE as nat) == target.skip(
                r@.len() as int,
            ),
            forall|j: int| 0 <= j < r@.len() ==> #[trigger] r@[j]@ == page_event(target[j]),
        decreases kept - i,
    {
        let end = if kept - i <= PAGE_SIZE {
            kept
        } else {
            i + PAGE_SIZE
        };
        let ghost rest = all.subrange(i as int, kept as int);
        proof {
            lemma_chunks_step(rest, PAGE_SIZE as nat);
            assert(rest.take(end - i) =~= all.subrange(i as int, end as int));
            assert(rest.skip(end - i) =~= all.subrange(end as int, kept as int));
            assert(target.skip(r@.len() as int)[0] == target[r@.len() as int]);
            assert(target.skip(r@.len() as int).skip(1) =~= target.skip(r@.len() as int + 1));
        }
        let page = frame_json_array(rows, i, end);
        r.push(ExecEvent::Page { page_amount: end - i, page });
        i = end;
    }
    proof {
        assert(all.subrange(kept as int, kept as int) =~= Seq::<Seq<char>>::empty());
        assert(target.skip(r@.len() as int).len() == 0);
        assert(event_views(r@) =~= page_events(all.take(kept as int)));
    }
    r
}

/// The JSON array of the column names, each a JSON string.
pub open spec fn spec_columns_json(names: Seq<Seq<char>>) -> Seq<char> {
    json_array_text(names.map_values(|n: Seq<char>| json_string(n)))
}

/// The column names as a JSON array of strings.
pub fn encode_columns(names: &Vec<String>) -> (r: String)
    ensures
        r@ == spec_columns_json(texts(names@)),
{
    let ghost all = texts(names@);
    let mut encoded: Vec<String> = Vec::new();
    let n = names.len();
    let mut i: usize = 0;
    while i < n
        invariant
            i <= n == names@.len(),
            all == texts(names@),
            encoded@.len() == i,
            forall|j: int| 0 <= j < i ==> encoded@[j]@ == json_string(#[trigger] all[j]),
        decreases n - i,
    {
        match encode_json_string(names[i].as_str()) {
            Ok(s) => encoded.push(s),
            Err(_) => {
                proof {
                    assert(false);
                }
            },
        }
        i = i + 1;
    }
    let r = frame_json_array(&encoded, 0, n);
    assert(texts(encoded@).subrange(0, n as int) =~= all.map_values(|m: Seq<char>| json_string(m)));
    r
}

/// The events of a run whose rows arrived: the columns, the pages of the rows
/// that are kept, and the end, which tells whether rows were cut off.
pub open spec fn spec_row_events(
    columns: Seq<Seq<char>>,
    rows: Seq<Seq<char>>,
    has_explicit_limit: bool,
) -> Seq<EventView> {
    seq![EventView::TypesResolved { columns: spec_columns_json(columns) }] + page_events(
        rows.take(spec_kept(rows.len(), has_explicit_limit) as int),
    ) + seq![finished_event(None, spec_truncated(rows.len(), has_explicit_limit))]
}

/// Where a run of one statement stands.
#[derive(Debug, PartialEq, Eq, Structural, Clone, Copy)]
pub enum RunState {
    /// The statement was sent; the server has not answered yet.
    AwaitingResponse { returns_values: bool, has_explicit_limit: bool },
    /// The server answered a statement that returns rows; they are being decoded.
    AwaitingRows { has_explicit_limit: bool },
    /// The run is over.
    Done,
}

/// What happened outside since the last step.
#[derive(Debug)]
pub enum RunInput {
    /// The request failed; the error, as displayed.
    RequestFailed(String),
    /// The server accepted the statement.
    Responded,
    /// The answer could not be decoded; the decoder's error, as displayed.
    DecodeFailed(String),
    /// The answer was decoded: the column names and each row as compact JSON.
    RowsDecoded { columns: Vec<String>, rows: Vec<String> },
}

/// The result of a step: where the run stands now, the events to report in
/// order, and, once the run is over, its outcome.
#[derive(Debug)]
pub struct RunStep {
    pub state: RunState,
    pub events: Vec<ExecEvent>,
    pub outcome: Option<Result<(), ClickHouseError>>,
}

/// Which inputs a state can take.
pub open spec fn accepts(state: RunState, input: RunInput) -> bool {
    match state {
        RunState::AwaitingResponse { .. } => input is RequestFailed || input is Responded,
        RunState::AwaitingRows { .. } => input is DecodeFailed || input is RowsDecoded,
        RunState::Done => false,
    }
}

/// A step that ends the run with the error `message`, reported in one
/// `Finished` event.
pub open spec fn fails_with(r: RunStep, message: Seq<char>) -> bool {
    &&& r.state == RunState::Done
    &&& event_views(r.events@) == seq![finished_event(Some(message), false)]
    &&& r.outcome matches Some(Err(e)) && e.message() == message
}

/// What one step does with `input` in `state`.
pub open spec fn spec_advance(state: RunState, input: RunInput, r: RunStep) -> bool {
    match state {
        RunState::AwaitingResponse { returns_values, has_explicit_limit } => match input {
            RunInput::RequestFailed(e) => fails_with(r, "Query failed: "@ + e@),
            RunInput::Responded => if returns_values {
                &&& r.state == (RunState::AwaitingRows { has_explicit_limit })
                &&& r.events@.len() == 0
                &&& r.outcome is None
            } else {
                &&& r.state == RunState::Done
                &&& event_views(r.events@) == seq![finished_event(None, false)]
                &&& r.outcome == Some(Ok::<(), ClickHouseError>(()))
            },
            _ => false,
        },
        RunState::AwaitingRows { has_explicit_limit } => match input {
            RunInput::DecodeFailed(e) => fails_with(
                r,
                "Failed to parse ClickHouse response: "@ + e@,
            ),
            RunInput::RowsDecoded { columns, rows } => {
                &&& r.state == RunState::Done
                &&& event_views(r.events@) == spec_row_events(
                    texts(columns@),
                    texts(rows@),
                    has_explicit_limit,
                )
                &&& r.outcome == Some(Ok::<(), ClickHouseError>(()))
            },
            _ => false,
        },
        RunState::Done => false,
    }
}

fn failed(message: ClickHouseError) -> (r: RunStep)
    ensures
        fails_with(r, message.message()),
{
    let mut events: Vec<ExecEvent> = Vec::new();
    events.push(
        ExecEvent::Finished { affected_rows: 0, error: Some(message.to_message()), truncated: false },
    );
    assert(event_views(events@) =~= seq![finished_event(Some(message.message()), false)]);
    RunStep { state: RunState::Done, events, outcome: Some(Err(message)) }
}

impl RunState {
    /// Starts running `stmt`: the state to wait in, and the text to send to
    /// the server (prepared for rows where the statement returns them).
    pub fn start(stmt: &ParsedStatement) -> (r: (RunState, String))
        ensures
            r.0 == (RunState::AwaitingResponse {
                returns_values: stmt.returns_values,
                has_explicit_limit: stmt.has_explicit_limit,
            }),
            r.1@ == (if stmt.returns_values {
                spec_prepared_query(stmt.statement@, stmt.has_explicit_limit)
            } else {
                stmt.statement@
            }),
    {
        let request = if stmt.returns_values {
            prepare_query(stmt.statement.as_str(), stmt.has_explicit_limit)
        } else {
            stmt.statement.clone()
        };
        (
            RunState::AwaitingResponse {
                returns_values: stmt.returns_values,
                has_explicit_limit: stmt.has_explicit_limit,
            },
            request,
        )
    }

    /// Whether this state can take `input`.
    pub fn accepts(&self, input: &RunInput) -> (r: bool)
        ensures
            r == accepts(*self, *input),
    {
        match self {
            RunState::AwaitingResponse { .. } => match input {
                RunInput::RequestFailed(_) => true,
                RunInput::Responded => true,
                _ => false,
            },
            RunState::AwaitingRows { .. } => match input {
                RunInput::DecodeFailed(_) => true,
                RunInput::RowsDecoded { .. } => true,
                _ => false,
            },
            RunState::Done => false,
        }
    }

    /// Takes one step of the run.
    pub fn advance(self, input: RunInput) -> (r: RunStep)
        requires
            accepts(self, input),
        ensures
            spec_advance(self, input, r),
    {
        match self {
            RunState::AwaitingResponse { returns_values, has_explicit_limit } => match input {
                RunInput::RequestFailed(e) => failed(
                    ClickHouseError::with_detail("Query failed: ", e.as_str()),
                ),
                _ => {
                    if returns_values {
                        RunStep {
                            state: RunState::AwaitingRows { has_explicit_limit },
                            events: Vec::new(),
                            outcome: None,
                        }
                    } else {
                        let mut events: Vec<ExecEvent> = Vec::new();
                        events.push(
                            ExecEvent::Finished { affected_rows: 0, error: None, truncated: false },
                        );
                        assert(event_views(events@) =~= seq![finished_event(None, false)]);
                        RunStep { state: RunState::Done, events, outcome: Some(Ok(())) }
                    }
                },
            },
            RunState::AwaitingRows { has_explicit_limit } => match input {
                RunInput::DecodeFailed(e) => failed(
                    ClickHouseError::with_detail("Failed to parse ClickHouse response: ", e.as_str()),
                ),
                RunInput::RowsDecoded { columns, rows } => row_events(&columns, &rows, has_explicit_limit),
                _ => {
                    proof {
                        assert(false);
                    }
                    RunStep { state: RunState::Done, events: Vec::new(), outcome: None }
                },
            },
            RunState::Done => {
                proof {
                    assert(false);
                }
                RunStep { state: RunState::Done, events: Vec::new(), outcome: None }
            },
        }
    }
}

/// The step that reports decoded rows.
fn row_events(columns: &Vec<String>, rows: &Vec<String>, has_explicit_limit: bool) -> (r: RunStep)
    ensures
        r.state == RunState::Done,
        event_views(r.events@) == spec_row_events(texts(columns@), texts(rows@), has_explicit_limit),
        r.outcome == Some(Ok::<(), ClickHouseError>(())),
{
    let columns_json = encode_columns(columns);
    let n = rows.len();
    let truncated = !has_explicit_limit && n > DEFAULT_LIMIT;
    let kept = if truncated {
        DEFAULT_LIMIT
    } else {
        n
    };
    let mut events: Vec<ExecEvent> = Vec::new();
    events.push(ExecEvent::TypesResolved { columns: columns_json });
    let mut pages = pages_of(rows, kept);
    let ghost page_views = event_views(pages@);
    events.append(&mut pages);
    events.push(ExecEvent::Finished { affected_rows: 0, error: None, truncated });
    assert(event_views(events@) =~= seq![EventView::TypesResolved { columns: spec_columns_json(texts(columns@)) }]
        + page_views + seq![finished_event(None, truncated)]);
    RunStep { state: RunState::Done, events, outcome: Some(Ok(())) }
}

/// Cutting into pages loses, repeats and reorders no row: the pages put back
/// together are the rows, and every page holds between one and `k` rows.
pub proof fn law_pages_cover_rows<A>(s: Seq<A>, k: nat)
    requires
        k > 0,
    ensures
        chunks(s, k).flatten() == s,
        forall|j: int| 0 <= j < chunks(s, k).len() ==> 0 < #[trigger] chunks(s, k)[j].len() <= k,
    decreases s.len(),
{
    if s.len() == 0 {
        assert(chunks(s, k) =~= Seq::<Seq<A>>::empty());
        assert(s =~= Seq::<A>::empty());
    } else if s.len() <= k {
        assert(chunks(s, k) =~= seq![s]);
        assert(seq![s].drop_first() =~= Seq::<Seq<A>>::empty());
        assert(seq![s].flatten() =~= s + Seq::<Seq<A>>::empty().flatten());
        assert(s + Seq::<A>::empty() =~= s);
    } else {
        let rest = s.skip(k as int);
        law_pages_cover_rows(rest, k);
        let c = chunks(s, k);
        assert(c == seq![s.take(k as int)] + chunks(rest, k));
        assert(c.drop_first() =~= chunks(rest, k));
        assert(c.flatten() == c[0] + c.drop_first().flatten());
        assert(s.take(k as int) + rest =~= s);
        assert forall|j: int| 0 <= j < c.len() implies 0 < #[trigger] c[j].len() <= k by {
            if j > 0 {
                assert(c[j] == chunks(rest, k)[j - 1]);
            }
        }
    }
}

/// A `Page` event that carries between one and `PAGE_SIZE` rows.
pub open spec fn is_sized_page(e: EventView) -> bool {
    match e {
        EventView::Page { page_amount, .. } => 0 < page_amount <= PAGE_SIZE,
        _ => false,
    }
}

/// The number of rows that the `Page` events of `evs` carry together.
pub open spec fn delivered_rows(evs: Seq<EventView>) -> nat
    decreases evs.len(),
{
    if evs.len() == 0 {
        0
    } else {
        (match evs[0] {
            EventView::Page { page_amount, .. } => page_amount,
            _ => 0,
        }) + delivered_rows(evs.drop_first())
    }
}

proof fn lemma_delivered_concat(a: Seq<EventView>, b: Seq<EventView>)
    ensures
        delivered_rows(a + b) == delivered_rows(a) + delivered_rows(b),
    decreases a.len(),
{
    if a.len() == 0 {
        assert(a + b =~= b);
    } else {
        assert((a + b).drop_first() =~= a.drop_first() + b);
        assert((a + b)[0] == a[0]);
        lemma_delivered_concat(a.drop_first(), b);
    }
}

proof fn lemma_delivered_pages(s: Seq<Seq<char>>)
    ensures
        delivered_rows(page_events(s)) == s.len(),
        forall|j: int|
            0 <= j < page_events(s).len() ==> is_sized_page(#[trigger] page_events(s)[j]),
    decreases s.len(),
{
    let k = PAGE_SIZE as nat;
    let p = page_events(s);
    if s.len() == 0 {
        assert(chunks(s, k) =~= Seq::<Seq<Seq<char>>>::empty());
        assert(p.len() == 0);
    } else {
        lemma_chunks_step(s, k);
        let m = if s.len() <= k {
            s.len() as int
        } else {
            k as int
        };
        let rest = s.skip(m);
        lemma_delivered_pages(rest);
        assert(p.drop_first() =~= page_events(rest)) by {
            assert(chunks(s, k).skip(1) == chunks(rest, k));
        }
        assert(p[0] == page_event(s.take(m)));
        assert forall|j: int| 0 <= j < p.len() implies is_sized_page(#[trigger] p[j]) by {
            if j > 0 {
                assert(p[j] == page_events(rest)[j - 1]);
            }
        }
    }
}

/// Piece `j` of `s` cut into pieces of `k` items holds the items from
/// `j * k` up to `(j + 1) * k` or the end.
pub proof fn law_chunk_items<A>(s: Seq<A>, k: nat, j: int)
    requires
        k > 0,
        0 <= j < chunks(s, k).len(),
    ensures
        j * k < s.len(),
        chunks(s, k)[j] == s.subrange(
            j * k,
            if (j + 1) * k <= s.len() {
                (j + 1) * k
            } else {
                s.len() as int
            },
        ),
    decreases s.len(),
{
    lemma_chunks_step(s, k);
    let m = if s.len() <= k {
        s.len() as int
    } else {
        k as int
    };
    if j == 0 {
        assert(s.take(m) =~= s.subrange(0, m));
    } else {
        let rest = s.skip(m);
        assert(chunks(s, k)[j] == chunks(s, k).skip(1)[j - 1]);
        assert(m == k) by {
            if s.len() <= k {
                assert(chunks(s, k).skip(1) == chunks(rest, k));
                assert(rest.len() == 0);
                assert(chunks(rest, k).len() == 0);
            }
        }
        law_chunk_items(rest, k, j - 1);
        assert(j * k == (j - 1) * k + k) by (nonlinear_arith);
        assert((j + 1) * k == j * k + k) by (nonlinear_arith);
        let hi = if (j + 1) * k <= s.len() {
            (j + 1) * k
        } else {
            s.len() as int
        };
        assert(rest.subrange((j - 1) * k, hi - k) =~= s.subrange(j * k, hi));
    }
}

/// Page `j` of decoded rows is the JSON array of the rows from `j *
/// PAGE_SIZE` on, up to `PAGE_SIZE` of them or up to the last row kept, in
/// the order they came.
pub proof fn law_page_holds_consecutive_rows(
    has_explicit_limit: bool,
    columns: Vec<String>,
    rows: Vec<String>,
    r: RunStep,
    j: int,
)
    requires
        spec_advance(
            RunState::AwaitingRows { has_explicit_limit },
            RunInput::RowsDecoded { columns, rows },
            r,
        ),
        0 <= j,
        j + 1 < r.events@.len() - 1,
    ensures
        ({
            let kept: int = if !has_explicit_limit && rows@.len() > DEFAULT_LIMIT {
                DEFAULT_LIMIT as int
            } else {
                rows@.len() as int
            };
            let lo = j * PAGE_SIZE;
            let hi = if lo + PAGE_SIZE <= kept {
                lo + PAGE_SIZE
            } else {
                kept
            };
            &&& 0 <= lo < hi <= kept
            &&& event_views(r.events@)[j + 1] == (EventView::Page {
                page_amount: (hi - lo) as nat,
                page: json_array_text(texts(rows@).subrange(lo, hi)),
            })
        }),
{
    let rs = texts(rows@);
    let n = rs.len();
    let kept_rows = rs.take(spec_kept(n, has_explicit_limit) as int);
    let first = seq![EventView::TypesResolved { columns: spec_columns_json(texts(columns@)) }];
    let pages = page_events(kept_rows);
    let last = seq![finished_event(None, spec_truncated(n, has_explicit_limit))];
    let ev = event_views(r.events@);
    assert(ev == first + pages + last);
    assert(ev[j + 1] == (first + pages)[j + 1]);
    assert((first + pages)[j + 1] == pages[j]);
    let c = chunks(kept_rows, PAGE_SIZE as nat);
    assert(pages[j] == page_event(c[j]));
    law_chunk_items(kept_rows, PAGE_SIZE as nat, j);
    let kept = spec_kept(n, has_explicit_limit) as int;
    let lo = j * PAGE_SIZE;
    let hi = if lo + PAGE_SIZE <= kept {
        lo + PAGE_SIZE
    } else {
        kept
    };
    assert((j + 1) * PAGE_SIZE == lo + PAGE_SIZE);
    assert(c[j] =~= rs.subrange(lo, hi));
}

/// When a statement that returns rows is answered, the run goes on to wait
/// for its rows with the LIMIT flag it started with, reporting nothing yet.
pub proof fn law_limit_flag_kept(has_explicit_limit: bool, r: RunStep)
    requires
        spec_advance(
            RunState::AwaitingResponse { returns_values: true, has_explicit_limit },
            RunInput::Responded,
            r,
        ),
    ensures
        r.state == (RunState::AwaitingRows { has_explicit_limit }),
        r.events@.len() == 0,
        r.outcome is None,
{
}

/// Decoded rows are reported as the column names, then pages of one to
/// `PAGE_SIZE` rows, then one `Finished` event without error. A statement
/// with a LIMIT of its own delivers every row it fetched and is never cut
/// off; one without delivers all `n` fetched rows when `n <= DEFAULT_LIMIT`,
/// and exactly `DEFAULT_LIMIT` of them, reported as cut off, when more came.
pub proof fn law_rows_delivered(
    has_explicit_limit: bool,
    columns: Vec<String>,
    rows: Vec<String>,
    r: RunStep,
)
    requires
        spec_advance(
            RunState::AwaitingRows { has_explicit_limit },
            RunInput::RowsDecoded { columns, rows },
            r,
        ),
    ensures
        r.state == RunState::Done,
        r.outcome == Some(Ok::<(), ClickHouseError>(())),
        has_explicit_limit ==> delivered_rows(event_views(r.events@)) == rows@.len(),
        !has_explicit_limit && rows@.len() <= DEFAULT_LIMIT ==> delivered_rows(
            event_views(r.events@),
        ) == rows@.len(),
        !has_explicit_limit && rows@.len() > DEFAULT_LIMIT ==> delivered_rows(
            event_views(r.events@),
        ) == DEFAULT_LIMIT,
        r.events@.len() >= 2,
        event_views(r.events@)[0] is TypesResolved,
        event_views(r.events@).last() == (EventView::Finished {
            affected_rows: 0,
            error: None,
            truncated: !has_explicit_limit && rows@.len() > DEFAULT_LIMIT,
        }),
        forall|j: int|
            0 < j < r.events@.len() - 1 ==> is_sized_page(#[trigger] event_views(r.events@)[j]),
{
    let rs = texts(rows@);
    let n = rs.len();
    let kept = rs.take(spec_kept(n, has_explicit_limit) as int);
    let first = seq![EventView::TypesResolved { columns: spec_columns_json(texts(columns@)) }];
    let pages = page_events(kept);
    let last = seq![finished_event(None, spec_truncated(n, has_explicit_limit))];
    let ev = event_views(r.events@);
    assert(ev == first + pages + last);
    lemma_delivered_pages(kept);
    lemma_delivered_concat(first, pages);
    lemma_delivered_concat(first + pages, last);
    assert(delivered_rows(Seq::<EventView>::empty()) == 0);
    assert(delivered_rows(first) == 0) by {
        assert(first.drop_first() =~= Seq::<EventView>::empty());
    }
    assert(delivered_rows(last) == 0) by {
        assert(last.drop_first() =~= Seq::<EventView>::empty());
    }
    assert(ev.len() == r.events@.len());
    assert forall|j: int| 0 < j < r.events@.len() - 1 implies is_sized_page(#[trigger] ev[j]) by {
        assert(ev[j] == (first + pages)[j]);
        assert((first + pages)[j] == pages[j - 1]);
    }
}

/// Without a LIMIT of its own a query delivers at most `DEFAULT_LIMIT` rows;
/// with one it delivers all it fetched; rows are reported cut off exactly when
/// fewer are delivered than were fetched.
pub proof fn law_row_cap(n: nat, has_explicit_limit: bool)
    ensures
        !has_explicit_limit ==> spec_kept(n, has_explicit_limit) <= DEFAULT_LIMIT,
        has_explicit_limit ==> spec_kept(n, has_explicit_limit) == n,
        spec_kept(n, has_explicit_limit) <= n,
        spec_truncated(n, has_explicit_limit) <==> spec_kept(n, has_explicit_limit) < n,
{
}

/// A query without a LIMIT of its own asks for one row more than
/// `DEFAULT_LIMIT`, which is how cut-off results are detected; one with a
/// LIMIT is sent as it is. Either way the statement is trimmed, loses its
/// trailing semicolons and asks for the `JSONCompact` format.
pub proof fn law_unlimited_query_asks_one_more(statement: Seq<char>)
    ensures
        spec_prepared_query(statement, false) == strip_trailing(spec_trim(statement), Strip::Char(';'))
            + " LIMIT 1001 FORMAT JSONCompact"@,
        spec_prepared_query(statement, true) == strip_trailing(spec_trim(statement), Strip::Char(';'))
            + " FORMAT JSONCompact"@,
{
    reveal_strlit(" LIMIT ");
    reveal_strlit(" FORMAT JSONCompact");
    reveal_strlit(" LIMIT 1001 FORMAT JSONCompact");
    assert(decimal(1) == seq!['1']);
    assert(decimal(10) == seq!['1', '0']);
    assert(decimal(100) == seq!['1', '0', '0']);
    assert(decimal(1001) == seq!['1', '0', '0', '1']);
    assert(" LIMIT "@ + decimal(1001) + " FORMAT JSONCompact"@ =~= " LIMIT 1001 FORMAT JSONCompact"@);
}

/// Every step either moves on without reporting anything, or ends the run;
/// a step that ends the run reports exactly one `Finished` event, as its last
/// event, carrying an error exactly when the run failed.
pub proof fn law_one_finish_per_run(state: RunState, input: RunInput, r: RunStep)
    requires
        spec_advance(state, input, r),
    ensures
        (r.state == RunState::Done) <==> r.outcome is Some,
        r.outcome is None ==> r.events@.len() == 0,
        r.state == RunState::Done ==> r.events@.len() > 0,
        forall|j: int|
            0 <= j < r.events@.len() - 1 ==> !((#[trigger] r.events@[j])@ is Finished),
        r.events@.len() > 0 ==> (r.events@.last()@ matches EventView::Finished { error, .. } && (
        error is Some <==> r.outcome matches Some(Err(_)))),
{
    let ev = event_views(r.events@);
    let n = r.events@.len();
    assert forall|j: int| 0 <= j < n implies ev[j] == (#[trigger] r.events@[j])@ by {}
    if n > 0 {
        assert(r.events@.last() == r.events@[n - 1]);
        assert(ev[n - 1] == r.events@.last()@);
    }
    match state {
        RunState::AwaitingRows { has_explicit_limit } => {
            match input {
                RunInput::RowsDecoded { columns, rows } => {
                    {
                        let rs = texts(rows@);
                        let kept = rs.take(spec_kept(rs.len(), has_explicit_limit) as int);
                        let pages = page_events(kept);
                        let first = seq![EventView::TypesResolved { columns: spec_columns_json(texts(columns@)) }];
                        let last = seq![finished_event(None, spec_truncated(rs.len(), has_explicit_limit))];
                        let fp = first + pages;
                        assert(ev == fp + last);
                        assert forall|j: int| 0 <= j < n - 1 implies !((#[trigger] r.events@[j])@ is Finished) by {
                            assert(ev[j] == fp[j]);
                            if j > 0 {
                                assert(fp[j] == pages[j - 1]);
                            }
                        }
                        assert(ev[n - 1] == last[0]);
                    }
                },
                RunInput::DecodeFailed(e) => {
                    assert(fails_with(r, "Failed to parse ClickHouse response: "@ + e@));
                    assert(ev == seq![finished_event(Some("Failed to parse ClickHouse response: "@ + e@), false)]);
                    assert(ev.len() == 1);
                    assert(n == 1);
                },
                _ => {},
            }
        },
        RunState::AwaitingResponse { returns_values, .. } => {
            match input {
                RunInput::RequestFailed(e) => {
                    assert(fails_with(r, "Query failed: "@ + e@));
                    assert(ev == seq![finished_event(Some("Query failed: "@ + e@), false)]);
                    assert(ev.len() == 1);
                    assert(n == 1);
                },
                RunInput::Responded => {
                    if !returns_values {
                        assert(ev == seq![finished_event(None, false)]);
                        assert(ev.len() == 1);
                        assert(n == 1);
                    }
                },
                _ => {},
            }
        },
        RunState::Done => {},
    }
}

} // verus!
