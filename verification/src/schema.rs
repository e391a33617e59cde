use vstd::prelude::*;

use vstd::hash_map::StringHashMap;

use crate::error::ClickHouseError;
use crate::text::{same_text, starts_with, texts};

verus! {

/// The query that lists every column of the current database: database,
/// table, column name, type, whether it has a default, and the default
/// expression, ordered by database, table and position, in `JSONCompact`.
pub open spec fn spec_schema_query() -> Seq<char> {
    r#"
        SELECT
            database,
            table,
            name,
            type,
            default_kind != '' as has_default,
            default_expression
        FROM system.columns
        WHERE database = currentDatabase()
        ORDER BY database, table, position
        FORMAT JSONCompact
    "#@
}

/// The query that lists every column of the current database.
pub fn schema_query() -> (r: &'static str)
    ensures
        r@ == spec_schema_query(),
{
    r#"
        SELECT
            database,
            table,
            name,
            type,
            default_kind != '' as has_default,
            default_expression
        FROM system.columns
        WHERE database = currentDatabase()
        ORDER BY database, table, position
        FORMAT JSONCompact
    "#
}

/// The error for an answer to the schema query that could not be decoded,
/// quoting the decoder's message.
pub fn schema_decode_error(detail: &str) -> (e: ClickHouseError)
    ensures
        e.message() == "Failed to parse schema response: "@ + detail@,
{
    ClickHouseError::with_detail("Failed to parse schema response: ", detail)
}

/// One cell of a schema row as the server's JSON gave it: a JSON string, or
/// any other JSON value written out as JSON text.
#[derive(Debug)]
pub enum CellValue {
    Text(String),
    Json(String),
}

impl CellValue {
    /// The text that stands for the cell: a string's contents, or the JSON
    /// text of any other value.
    pub open spec fn text(self) -> Seq<char> {
        match self {
            CellValue::Text(s) => s@,
            CellValue::Json(j) => j@,
        }
    }

    /// The text that stands for the cell.
    pub fn to_text(&self) -> (r: String)
        ensures
            r@ == self.text(),
    {
        match self {
            CellValue::Text(s) => s.clone(),
            CellValue::Json(j) => j.clone(),
        }
    }
}

/// A column of a table.
#[derive(Debug)]
pub struct ColumnInfo {
    pub name: String,
    pub data_type: String,
    pub is_nullable: bool,
    pub default_value: Option<String>,
}

/// A table and its columns, in the order of their positions.
#[derive(Debug)]
pub struct TableInfo {
    pub name: String,
    pub schema: String,
    pub columns: Vec<ColumnInfo>,
}

/// The tables of a database, the databases (schemas) they lie in, and the
/// column names that occur in them, each name once.
#[derive(Debug)]
pub struct DatabaseSchema {
    pub tables: Vec<TableInfo>,
    pub schemas: Vec<String>,
    pub unique_columns: Vec<String>,
}

pub struct ColumnView {
    pub name: Seq<char>,
    pub data_type: Seq<char>,
    pub is_nullable: bool,
    pub default_value: Option<Seq<char>>,
}

pub struct TableView {
    pub name: Seq<char>,
    pub schema: Seq<char>,
    pub columns: Seq<ColumnView>,
}

pub struct SchemaView {
    pub tables: Seq<TableView>,
    pub schemas: Seq<Seq<char>>,
    pub unique_columns: Seq<Seq<char>>,
}

impl View for ColumnInfo {
    type V = ColumnView;

    open spec fn view(&self) -> ColumnView {
        ColumnView {
            name: self.name@,
            data_type: self.data_type@,
            is_nullable: self.is_nullable,
            default_value: match self.default_value {
                Some(d) => Some(d@),
                None => None,
            },
        }
    }
}

pub open spec fn column_views(v: Seq<ColumnInfo>) -> Seq<ColumnView> {
    v.map_values(|c: ColumnInfo| c@)
}

impl View for TableInfo {
    type V = TableView;

    open spec fn view(&self) -> TableView {
        TableView { name: self.name@, schema: self.schema@, columns: column_views(self.columns@) }
    }
}

pub open spec fn table_views(v: Seq<TableInfo>) -> Seq<TableView> {
    v.map_values(|t: TableInfo| t@)
}

impl View for DatabaseSchema {
    type V = SchemaView;

    open spec fn view(&self) -> SchemaView {
        SchemaView {
            tables: table_views(self.tables@),
            schemas: texts(self.schemas@),
            unique_columns: texts(self.unique_columns@),
        }
    }
}

/// A row of the schema query, cell by cell: database, table, column name,
/// type, whether it has a default, and the default expression.
pub type Row = Seq<Seq<char>>;

pub open spec fn row_text(row: Seq<CellValue>) -> Row {
    row.map_values(|c: CellValue| c.text())
}

pub open spec fn rows_text(rows: Seq<Vec<CellValue>>) -> Seq<Row> {
    rows.map_values(|r: Vec<CellValue>| row_text(r@))
}

/// A row with all six cells; shorter rows are skipped.
pub open spec fn is_complete(row: Row) -> bool {
    row.len() >= 6
}

/// The complete rows, in order.
pub open spec fn complete_rows(rows: Seq<Row>) -> Seq<Row>
    decreases rows.len(),
{
    if rows.len() == 0 {
        seq![]
    } else {
        let p = complete_rows(rows.drop_last());
        if is_complete(rows.last()) {
            p.push(rows.last())
        } else {
            p
        }
    }
}

/// The table a row describes a column of: its database and table name.
pub open spec fn table_key(row: Row) -> (Seq<char>, Seq<char>) {
    (row[0], row[1])
}

/// Whether a row says the column has a default: `1` or `true`.
pub open spec fn has_default(row: Row) -> bool {
    row[4] == "1"@ || row[4] == "true"@
}

/// The column a row describes. A column is nullable where its type is
/// `Nullable(..)`; its default expression counts only where it has a default.
pub open spec fn column_of(row: Row) -> ColumnView {
    ColumnView {
        name: row[2],
        data_type: row[3],
        is_nullable: "Nullable("@.len() <= row[3].len() && row[3].subrange(0, "Nullable("@.len() as int)
            == "Nullable("@,
        default_value: if has_default(row) {
            Some(row[5])
        } else {
            None
        },
    }
}

/// The columns that the complete rows give the table `key`, in row order.
pub open spec fn table_columns(rows: Seq<Row>, key: (Seq<char>, Seq<char>)) -> Seq<ColumnView>
    decreases rows.len(),
{
    if rows.len() == 0 {
        seq![]
    } else {
        let p = table_columns(rows.drop_last(), key);
        if is_complete(rows.last()) && table_key(rows.last()) == key {
            p.push(column_of(rows.last()))
        } else {
            p
        }
    }
}

/// `s` with every item after its first occurrence left out.
pub open spec fn distinct<A>(s: Seq<A>) -> Seq<A>
    decreases s.len(),
{
    if s.len() == 0 {
        seq![]
    } else {
        let d = distinct(s.drop_last());
        if d.contains(s.last()) {
            d
        } else {
            d.push(s.last())
        }
    }
}

/// The tables the rows describe, in order of first mention.
pub open spec fn table_keys(rows: Seq<Row>) -> Seq<(Seq<char>, Seq<char>)> {
    distinct(complete_rows(rows).map_values(|r: Row| table_key(r)))
}

/// The table `key` with the columns the rows give it.
pub open spec fn table_of(rows: Seq<Row>, key: (Seq<char>, Seq<char>)) -> TableView {
    TableView { name: key.1, schema: key.0, columns: table_columns(rows, key) }
}

/// The distinct values of cell `j` of the complete rows, in order of first mention.
pub open spec fn distinct_cells(rows: Seq<Row>, j: int) -> Seq<Seq<char>> {
    distinct(complete_rows(rows).map_values(|r: Row| r[j]))
}

/// The schema that the rows of the schema query describe.
pub open spec fn spec_schema(rows: Seq<Row>) -> SchemaView {
    SchemaView {
        tables: table_keys(rows).map_values(|k: (Seq<char>, Seq<char>)| table_of(rows, k)),
        schemas: distinct_cells(rows, 0),
        unique_columns: distinct_cells(rows, 2),
    }
}

proof fn lemma_distinct_push<A>(s: Seq<A>, x: A)
    ensures
        distinct(s.push(x)) == (if distinct(s).contains(x) {
            distinct(s)
        } else {
            distinct(s).push(x)
        }),
{
    assert(s.push(x).drop_last() =~= s);
}

/// An item occurs in `distinct(s)` exactly where it occurs in `s`.
pub proof fn lemma_distinct_contains<A>(s: Seq<A>, x: A)
    ensures
        distinct(s).contains(x) <==> s.contains(x),
    decreases s.len(),
{
    if s.len() > 0 {
        let p = s.drop_last();
        lemma_distinct_contains(p, x);
        assert(s =~= p.push(s.last()));
        if p.contains(x) {
            let j = choose|j: int| 0 <= j < p.len() && p[j] == x;
            assert(s[j] == x);
        }
        if s.contains(x) {
            let j = choose|j: int| 0 <= j < s.len() && s[j] == x;
            if j < p.len() {
                assert(p[j] == x);
            }
        }
        let d = distinct(p);
        if !d.contains(s.last()) {
            assert(d.push(s.last())[d.len() as int] == s.last());
            if d.contains(x) {
                let j = choose|j: int| 0 <= j < d.len() && d[j] == x;
                assert(d.push(s.last())[j] == x);
            }
            if d.push(s.last()).contains(x) {
                let j = choose|j: int| 0 <= j < d.len() + 1 && d.push(s.last())[j] == x;
                if j < d.len() {
                    assert(d[j] == x);
                }
            }
        }
    }
}

/// `distinct(s)` holds no item twice.
pub proof fn lemma_distinct_no_duplicates<A>(s: Seq<A>)
    ensures
        distinct(s).no_duplicates(),
    decreases s.len(),
{
    if s.len() > 0 {
        lemma_distinct_no_duplicates(s.drop_last());
        let d = distinct(s.drop_last());
        if !d.contains(s.last()) {
            let e = d.push(s.last());
            assert forall|i: int, j: int| 0 <= i < e.len() && 0 <= j < e.len() && i != j implies e[i]
                != e[j] by {
                if i < d.len() && j < d.len() {
                } else if i < d.len() {
                    assert(d.contains(d[i]));
                } else {
                    assert(d.contains(d[j]));
                }
            }
        }
    }
}

proof fn lemma_rows_push(rows: Seq<Row>, r: Row, key: (Seq<char>, Seq<char>))
    ensures
        complete_rows(rows.push(r)) == (if is_complete(r) {
            complete_rows(rows).push(r)
        } else {
            complete_rows(rows)
        }),
        table_columns(rows.push(r), key) == (if is_complete(r) && table_key(r) == key {
            table_columns(rows, key).push(column_of(r))
        } else {
            table_columns(rows, key)
        }),
{
    assert(rows.push(r).drop_last() =~= rows);
}

proof fn lemma_table_columns_absent(rows: Seq<Row>, key: (Seq<char>, Seq<char>))
    requires
        !complete_rows(rows).map_values(|r: Row| table_key(r)).contains(key),
    ensures
        table_columns(rows, key) == Seq::<ColumnView>::empty(),
    decreases rows.len(),
{
    if rows.len() > 0 {
        let p = rows.drop_last();
        assert(rows =~= p.push(rows.last()));
        lemma_rows_push(p, rows.last(), key);
        let m = complete_rows(p).map_values(|r: Row| table_key(r));
        if is_complete(rows.last()) {
            assert(complete_rows(rows).map_values(|r: Row| table_key(r)) =~= m.push(
                table_key(rows.last()),
            ));
            assert(m.push(table_key(rows.last()))[m.len() as int] == table_key(rows.last()));
            if m.contains(key) {
                let j = choose|j: int| 0 <= j < m.len() && m[j] == key;
                assert(m.push(table_key(rows.last()))[j] == key);
            }
        }
        lemma_table_columns_absent(p, key);
    }
}

proof fn lemma_complete_rows_contains(rows: Seq<Row>, i: int)
    requires
        0 <= i < rows.len(),
        is_complete(rows[i]),
    ensures
        complete_rows(rows).contains(rows[i]),
        table_columns(rows, table_key(rows[i])).contains(column_of(rows[i])),
    decreases rows.len(),
{
    let p = rows.drop_last();
    let r = rows.last();
    let key = table_key(rows[i]);
    assert(rows =~= p.push(r));
    lemma_rows_push(p, r, key);
    if i == rows.len() - 1 {
        assert(complete_rows(p).push(r)[complete_rows(p).len() as int] == r);
        assert(table_columns(p, key).push(column_of(r))[table_columns(p, key).len() as int]
            == column_of(r));
    } else {
        assert(p[i] == rows[i]);
        lemma_complete_rows_contains(p, i);
        let a = choose|a: int| 0 <= a < complete_rows(p).len() && complete_rows(p)[a] == rows[i];
        let b = choose|b: int|
            0 <= b < table_columns(p, key).len() && table_columns(p, key)[b] == column_of(rows[i]);
        if is_complete(r) {
            assert(complete_rows(p).push(r)[a] == rows[i]);
            if table_key(r) == key {
                assert(table_columns(p, key).push(column_of(r))[b] == column_of(rows[i]));
            }
        }
    }
}

proof fn lemma_map_contains<A, B>(s: Seq<A>, f: spec_fn(A) -> B, x: A)
    requires
        s.contains(x),
    ensures
        s.map_values(f).contains(f(x)),
{
    let j = choose|j: int| 0 <= j < s.len() && s[j] == x;
    assert(s.map_values(f)[j] == f(x));
}

/// The schema names no database twice and no column name twice, and no two
/// of its tables share both database and name.
pub proof fn law_schema_no_repeats(rows: Seq<Row>)
    ensures
        spec_schema(rows).schemas.no_duplicates(),
        spec_schema(rows).unique_columns.no_duplicates(),
        forall|i: int, j: int|
            0 <= i < j < spec_schema(rows).tables.len() ==> !(
            #[trigger] spec_schema(rows).tables[i].schema == #[trigger] spec_schema(rows).tables[j].schema
                && spec_schema(rows).tables[i].name == spec_schema(rows).tables[j].name),
{
    let c = complete_rows(rows);
    lemma_distinct_no_duplicates(c.map_values(|r: Row| r[0]));
    lemma_distinct_no_duplicates(c.map_values(|r: Row| r[2]));
    lemma_distinct_no_duplicates(c.map_values(|r: Row| table_key(r)));
    let keys = table_keys(rows);
    assert forall|i: int, j: int|
        0 <= i < j < spec_schema(rows).tables.len() implies !(
        #[trigger] spec_schema(rows).tables[i].schema == #[trigger] spec_schema(rows).tables[j].schema
            && spec_schema(rows).tables[i].name == spec_schema(rows).tables[j].name) by {
        assert(spec_schema(rows).tables[i] == table_of(rows, keys[i]));
        assert(spec_schema(rows).tables[j] == table_of(rows, keys[j]));
        assert(keys[i] != keys[j]);
    }
}

/// Every row with all six cells is accounted for: its database is among the
/// schemas, its column name among the column names, and its column among the
/// columns of the table it names.
pub proof fn law_schema_covers_rows(rows: Seq<Row>, i: int)
    requires
        0 <= i < rows.len(),
        is_complete(rows[i]),
    ensures
        spec_schema(rows).schemas.contains(rows[i][0]),
        spec_schema(rows).unique_columns.contains(rows[i][2]),
        exists|t: int|
            0 <= t < spec_schema(rows).tables.len() && (#[trigger] spec_schema(rows).tables[t]).schema
                == rows[i][0] && spec_schema(rows).tables[t].name == rows[i][1]
                && spec_schema(rows).tables[t].columns.contains(column_of(rows[i])),
{
    let c = complete_rows(rows);
    let r = rows[i];
    lemma_complete_rows_contains(rows, i);
    lemma_map_contains(c, |x: Row| x[0], r);
    lemma_map_contains(c, |x: Row| x[2], r);
    lemma_map_contains(c, |x: Row| table_key(x), r);
    lemma_distinct_contains(c.map_values(|x: Row| x[0]), r[0]);
    lemma_distinct_contains(c.map_values(|x: Row| x[2]), r[2]);
    lemma_distinct_contains(c.map_values(|x: Row| table_key(x)), table_key(r));
    let keys = table_keys(rows);
    let t = choose|t: int| 0 <= t < keys.len() && keys[t] == table_key(r);
    assert(spec_schema(rows).tables[t] == table_of(rows, keys[t]));
}

proof fn lemma_distinct_from(s: Seq<Seq<char>>, x: Seq<char>)
    requires
        distinct(s).contains(x),
    ensures
        s.contains(x),
{
    lemma_distinct_contains(s, x);
}

proof fn lemma_complete_from_rows(rows: Seq<Row>, j: int)
    requires
        0 <= j < complete_rows(rows).len(),
    ensures
        exists|i: int| 0 <= i < rows.len() && is_complete(rows[i]) && #[trigger] rows[i] == complete_rows(rows)[j],
    decreases rows.len(),
{
    let p = rows.drop_last();
    let r = rows.last();
    assert(rows =~= p.push(r));
    lemma_rows_push(p, r, (Seq::empty(), Seq::empty()));
    if j < complete_rows(p).len() {
        lemma_complete_from_rows(p, j);
        let i = choose|i: int| 0 <= i < p.len() && is_complete(p[i]) && #[trigger] p[i] == complete_rows(p)[j];
        assert(rows[i] == p[i]);
    } else {
        assert(rows[rows.len() - 1] == r);
    }
}

/// Some complete row has `x` in cell `k`.
pub open spec fn some_row_has(rows: Seq<Row>, k: int, x: Seq<char>) -> bool {
    exists|i: int| 0 <= i < rows.len() && is_complete(rows[i]) && #[trigger] rows[i][k] == x
}

/// Some complete row names the database and the name of `t`.
pub open spec fn some_row_names_table(rows: Seq<Row>, t: TableView) -> bool {
    exists|i: int|
        0 <= i < rows.len() && is_complete(rows[i]) && rows[i][0] == t.schema && #[trigger] rows[i][1]
            == t.name
}

/// The schema holds nothing that no row gave: each database, each column
/// name and each table comes from a complete row.
pub proof fn law_schema_only_from_rows(rows: Seq<Row>)
    ensures
        forall|j: int|
            0 <= j < spec_schema(rows).schemas.len() ==> some_row_has(
                rows,
                0,
                #[trigger] spec_schema(rows).schemas[j],
            ),
        forall|j: int|
            0 <= j < spec_schema(rows).unique_columns.len() ==> some_row_has(
                rows,
                2,
                #[trigger] spec_schema(rows).unique_columns[j],
            ),
        forall|t: int|
            0 <= t < spec_schema(rows).tables.len() ==> some_row_names_table(
                rows,
                #[trigger] spec_schema(rows).tables[t],
            ),
{
    let c = complete_rows(rows);
    let sc = spec_schema(rows);
    assert forall|j: int| 0 <= j < sc.schemas.len() implies some_row_has(rows, 0, #[trigger] sc.schemas[j]) by {
        let m = c.map_values(|x: Row| x[0]);
        assert(distinct(m).contains(sc.schemas[j]));
        lemma_distinct_from(m, sc.schemas[j]);
        let a = choose|a: int| 0 <= a < m.len() && m[a] == sc.schemas[j];
        lemma_complete_from_rows(rows, a);
        let i = choose|i: int| 0 <= i < rows.len() && is_complete(rows[i]) && #[trigger] rows[i] == c[a];
        assert(rows[i][0] == sc.schemas[j]);
    }
    assert forall|j: int| 0 <= j < sc.unique_columns.len() implies some_row_has(rows, 2, #[trigger] sc.unique_columns[j]) by {
        let m = c.map_values(|x: Row| x[2]);
        assert(distinct(m).contains(sc.unique_columns[j]));
        lemma_distinct_from(m, sc.unique_columns[j]);
        let a = choose|a: int| 0 <= a < m.len() && m[a] == sc.unique_columns[j];
        lemma_complete_from_rows(rows, a);
        let i = choose|i: int| 0 <= i < rows.len() && is_complete(rows[i]) && #[trigger] rows[i] == c[a];
        assert(rows[i][2] == sc.unique_columns[j]);
    }
    assert forall|t: int| 0 <= t < sc.tables.len() implies some_row_names_table(rows, #[trigger] sc.tables[t]) by {
        let m = c.map_values(|x: Row| table_key(x));
        let k = table_keys(rows)[t];
        assert(sc.tables[t] == table_of(rows, k));
        assert(distinct(m).contains(k));
        lemma_distinct_contains(m, k);
        let a = choose|a: int| 0 <= a < m.len() && m[a] == k;
        lemma_complete_from_rows(rows, a);
        let i = choose|i: int| 0 <= i < rows.len() && is_complete(rows[i]) && #[trigger] rows[i] == c[a];
        assert(rows[i][1] == sc.tables[t].name);
    }
}

/// Every table lies in one of the schemas that the schema lists.
pub proof fn law_tables_in_schemas(rows: Seq<Row>, t: int)
    requires
        0 <= t < spec_schema(rows).tables.len(),
    ensures
        spec_schema(rows).schemas.contains(spec_schema(rows).tables[t].schema),
{
    let c = complete_rows(rows);
    let keys_all = c.map_values(|x: Row| table_key(x));
    let keys = table_keys(rows);
    assert(spec_schema(rows).tables[t] == table_of(rows, keys[t]));
    assert(keys.contains(keys[t]));
    lemma_distinct_contains(keys_all, keys[t]);
    let j = choose|j: int| 0 <= j < keys_all.len() && keys_all[j] == keys[t];
    lemma_map_contains(c, |x: Row| x[0], c[j]);
    lemma_distinct_contains(c.map_values(|x: Row| x[0]), c[j][0]);
}

/// A row with fewer than six cells changes nothing.
pub proof fn law_short_rows_ignored(rows: Seq<Row>, r: Row)
    requires
        !is_complete(r),
    ensures
        spec_schema(rows.push(r)) == spec_schema(rows),
{
    let q = rows.push(r);
    lemma_rows_push(rows, r, (Seq::empty(), Seq::empty()));
    assert(table_keys(q) == table_keys(rows));
    assert forall|k: (Seq<char>, Seq<char>)| table_of(q, k) == table_of(rows, k) by {
        lemma_rows_push(rows, r, k);
    }
    assert(spec_schema(q).tables =~= spec_schema(rows).tables);
}

proof fn lemma_complete_only(rows: Seq<Row>, key: (Seq<char>, Seq<char>))
    ensures
        complete_rows(complete_rows(rows)) == complete_rows(rows),
        table_columns(complete_rows(rows), key) == table_columns(rows, key),
    decreases rows.len(),
{
    if rows.len() > 0 {
        let p = rows.drop_last();
        let r = rows.last();
        assert(rows =~= p.push(r));
        lemma_complete_only(p, key);
        lemma_rows_push(p, r, key);
        if is_complete(r) {
            lemma_rows_push(complete_rows(p), r, key);
        }
    }
}

/// The schema depends on the complete rows alone: rows with fewer than six
/// cells change nothing, wherever they stand.
pub proof fn law_schema_depends_on_complete_rows(rows: Seq<Row>)
    ensures
        spec_schema(complete_rows(rows)) == spec_schema(rows),
{
    let c = complete_rows(rows);
    lemma_complete_only(rows, (Seq::empty(), Seq::empty()));
    assert forall|k: (Seq<char>, Seq<char>)| table_of(c, k) == table_of(rows, k) by {
        lemma_complete_only(rows, k);
    }
    assert(spec_schema(c).tables =~= spec_schema(rows).tables);
}

/// A column is nullable exactly when its type begins with `Nullable(`, which
/// depends on the type cell alone; it has a default expression exactly when
/// the row says `1` or `true`, and then it is the last cell; its name and
/// type are the third and fourth cells.
pub proof fn law_column_from_cells(row: Row)
    requires
        is_complete(row),
    ensures
        column_of(row).is_nullable <==> "Nullable("@.is_prefix_of(row[3]),
        column_of(row).default_value == (if row[4] == "1"@ || row[4] == "true"@ {
            Some(row[5])
        } else {
            None
        }),
        column_of(row).name == row[2],
        column_of(row).data_type == row[3],
{
}

proof fn lemma_columns_come_from_rows(rows: Seq<Row>, key: (Seq<char>, Seq<char>), j: int)
    requires
        0 <= j < table_columns(rows, key).len(),
    ensures
        exists|i: int|
            0 <= i < rows.len() && is_complete(rows[i]) && table_key(rows[i]) == key
                && table_columns(rows, key)[j] == column_of(#[trigger] rows[i]),
    decreases rows.len(),
{
    let p = rows.drop_last();
    let r = rows.last();
    assert(rows =~= p.push(r));
    lemma_rows_push(p, r, key);
    if j < table_columns(p, key).len() {
        lemma_columns_come_from_rows(p, key, j);
        let i = choose|i: int|
            0 <= i < p.len() && is_complete(p[i]) && table_key(p[i]) == key
                && table_columns(p, key)[j] == column_of(#[trigger] p[i]);
        assert(rows[i] == p[i]);
    } else {
        assert(rows[rows.len() - 1] == r);
    }
}

/// In every table of the schema, each column is nullable exactly when its
/// type begins with `Nullable(`, and each column comes from a complete row
/// that names the table, its database and the column's name and type.
pub proof fn law_schema_columns_from_rows(rows: Seq<Row>, t: int, j: int)
    requires
        0 <= t < spec_schema(rows).tables.len(),
        0 <= j < spec_schema(rows).tables[t].columns.len(),
    ensures
        ({
            let table = spec_schema(rows).tables[t];
            let c = table.columns[j];
            &&& c.is_nullable <==> "Nullable("@.is_prefix_of(c.data_type)
            &&& exists|i: int|
                0 <= i < rows.len() && is_complete(#[trigger] rows[i]) && rows[i][0] == table.schema
                    && rows[i][1] == table.name && rows[i][2] == c.name && rows[i][3]
                    == c.data_type
        }),
{
    let key = table_keys(rows)[t];
    assert(spec_schema(rows).tables[t] == table_of(rows, key));
    lemma_columns_come_from_rows(rows, key, j);
    let i = choose|i: int|
        0 <= i < rows.len() && is_complete(rows[i]) && table_key(rows[i]) == key
            && table_columns(rows, key)[j] == column_of(#[trigger] rows[i]);
    law_column_from_cells(rows[i]);
}

/// The number of columns of all the tables together.
pub open spec fn column_count(tables: Seq<TableView>) -> nat
    decreases tables.len(),
{
    if tables.len() == 0 {
        0
    } else {
        column_count(tables.drop_last()) + tables.last().columns.len()
    }
}

proof fn lemma_column_count_update(s: Seq<TableView>, t: int, x: TableView)
    requires
        0 <= t < s.len(),
    ensures
        column_count(s.update(t, x)) + s[t].columns.len() == column_count(s) + x.columns.len(),
    decreases s.len(),
{
    let u = s.update(t, x);
    if t == s.len() - 1 {
        assert(u.drop_last() =~= s.drop_last());
    } else {
        assert(u.drop_last() =~= s.drop_last().update(t, x));
        lemma_column_count_update(s.drop_last(), t, x);
    }
}

/// Each row with all six cells becomes exactly one column: the tables hold as
/// many columns together as there are such rows.
pub proof fn law_one_column_per_row(rows: Seq<Row>)
    ensures
        column_count(spec_schema(rows).tables) == complete_rows(rows).len(),
    decreases rows.len(),
{
    if rows.len() == 0 {
        assert(spec_schema(rows).tables.len() == 0);
    } else {
        let p = rows.drop_last();
        let r = rows.last();
        assert(rows =~= p.push(r));
        law_one_column_per_row(p);
        if !is_complete(r) {
            law_short_rows_ignored(p, r);
            lemma_rows_push(p, r, table_key(r));
        } else {
            let key = table_key(r);
            let keys_all = complete_rows(p).map_values(|x: Row| table_key(x));
            lemma_rows_push(p, r, key);
            assert(complete_rows(rows).map_values(|x: Row| table_key(x)) =~= keys_all.push(key));
            lemma_distinct_push(keys_all, key);
            lemma_distinct_no_duplicates(keys_all);
            let kp = table_keys(p);
            let tp = spec_schema(p).tables;
            let tq = spec_schema(rows).tables;
            if kp.contains(key) {
                let t = choose|t: int| 0 <= t < kp.len() && kp[t] == key;
                assert(tq =~= tp.update(t, table_of(rows, key))) by {
                    assert forall|u: int| 0 <= u < tq.len() implies tq[u] == tp.update(
                        t,
                        table_of(rows, key),
                    )[u] by {
                        lemma_rows_push(p, r, kp[u]);
                        if u != t {
                            assert(kp[u] != kp[t]);
                        }
                    }
                }
                lemma_column_count_update(tp, t, table_of(rows, key));
            } else {
                lemma_distinct_contains(keys_all, key);
                lemma_table_columns_absent(p, key);
                assert(tq =~= tp.push(table_of(rows, key))) by {
                    assert forall|u: int| 0 <= u < tp.len() implies tq[u] == tp[u] by {
                        lemma_rows_push(p, r, kp[u]);
                    }
                }
                assert(tp.push(table_of(rows, key)).drop_last() =~= tp);
            }
        }
    }
}

/// `m` gives, for each text of `v`, the position of that text in `v`, and
/// holds no other key.
pub open spec fn indexes(m: Map<Seq<char>, usize>, v: Seq<String>) -> bool {
    &&& forall|k: Seq<char>|
        #[trigger] m.contains_key(k) ==> m[k] < v.len() && v[m[k] as int]@ == k
    &&& forall|j: int| 0 <= j < v.len() ==> #[trigger] m.contains_key(v[j]@) && m[v[j]@] == j
}

/// Hash indexes over the lists being built, so that each row is placed in
/// constant expected time: the position of each database and of each column
/// name, and for each database the position of each of its tables.
struct Lookup {
    schema_pos: StringHashMap<usize>,
    column_pos: StringHashMap<usize>,
    table_pos: Vec<StringHashMap<usize>>,
}

impl Lookup {
    spec fn tables_indexed(self, schemas: Seq<String>, tables: Seq<TableInfo>) -> bool {
        &&& self.table_pos@.len() == schemas.len()
        &&& forall|s: int, k: Seq<char>|
            0 <= s < schemas.len() && #[trigger] self.table_pos@[s]@.contains_key(k) ==> {
                let t = self.table_pos@[s]@[k];
                &&& t < tables.len()
                &&& tables[t as int].schema@ == schemas[s]@
                &&& tables[t as int].name@ == k
            }
        &&& forall|t: int|
            0 <= t < tables.len() ==> {
                &&& self.schema_pos@.contains_key(#[trigger] tables[t].schema@)
                &&& self.table_pos@[self.schema_pos@[tables[t].schema@] as int]@.contains_key(
                    tables[t].name@,
                )
            }
    }

    spec fn wf(self, schemas: Seq<String>, columns: Seq<String>, tables: Seq<TableInfo>) -> bool {
        &&& indexes(self.schema_pos@, schemas)
        &&& indexes(self.column_pos@, columns)
        &&& self.tables_indexed(schemas, tables)
    }

    fn new() -> (r: Lookup)
        ensures
            r.wf(Seq::empty(), Seq::empty(), Seq::empty()),
    {
        Lookup { schema_pos: StringHashMap::new(), column_pos: StringHashMap::new(), table_pos: Vec::new() }
    }

    /// Position of `x` among `v`, if it is there.
    fn position(m: &StringHashMap<usize>, v: &Vec<String>, x: &String) -> (r: Option<usize>)
        requires
            indexes(m@, v@),
        ensures
            r matches Some(j) ==> j < v@.len() && v@[j as int]@ == x@,
            r is None ==> !texts(v@).contains(x@),
    {
        match m.get(x.as_str()) {
            Some(j) => Some(*j),
            None => {
                proof {
                    if texts(v@).contains(x@) {
                        let k = choose|k: int| 0 <= k < texts(v@).len() && texts(v@)[k] == x@;
                        assert(m@.contains_key(v@[k]@));
                    }
                }
                None
            },
        }
    }

    /// Appends `x`, which `v` does not hold yet, and indexes it.
    fn append(m: &mut StringHashMap<usize>, v: &mut Vec<String>, x: String) -> (j: usize)
        requires
            indexes(old(m)@, old(v)@),
            !texts(old(v)@).contains(x@),
        ensures
            indexes(final(m)@, final(v)@),
            final(v)@ == old(v)@.push(x),
            final(m)@ == old(m)@.insert(x@, j),
            j == old(v)@.len(),
    {
        let j = v.len();
        proof {
            assert forall|k: int| 0 <= k < old(v)@.len() implies old(v)@[k]@ != x@ by {
                assert(texts(old(v)@)[k] == old(v)@[k]@);
            }
        }
        m.insert(x.clone(), j);
        v.push(x);
        proof {
            assert forall|k: int| 0 <= k < v@.len() implies #[trigger] m@.contains_key(v@[k]@)
                && m@[v@[k]@] == k by {
                if k < j {
                    assert(v@[k] == old(v)@[k]);
                }
            }
        }
        j
    }

    /// Position of the table `name` of the database at position `s`, if any.
    fn table_position(&self, schemas: &Vec<String>, tables: &Vec<TableInfo>, s: usize, name: &String) -> (r: Option<usize>)
        requires
            indexes(self.schema_pos@, schemas@),
            self.tables_indexed(schemas@, tables@),
            s < schemas@.len(),
        ensures
            r matches Some(t) ==> t < tables@.len() && tables@[t as int].schema@ == schemas@[s as int]@
                && tables@[t as int].name@ == name@,
            r is None ==> forall|t: int|
                0 <= t < tables@.len() ==> !(tables@[t].schema@ == schemas@[s as int]@
                    && tables@[t].name@ == name@),
    {
        match self.table_pos[s].get(name.as_str()) {
            Some(t) => Some(*t),
            None => {
                proof {
                    assert forall|t: int| 0 <= t < tables@.len() implies !(tables@[t].schema@
                        == schemas@[s as int]@ && tables@[t].name@ == name@) by {
                        if tables@[t].schema@ == schemas@[s as int]@ && tables@[t].name@ == name@ {
                            assert(self.schema_pos@.contains_key(tables@[t].schema@));
                            assert(self.schema_pos@[schemas@[s as int]@] == s);
                        }
                    }
                }
                None
            },
        }
    }

    /// Appends the database `x`, not listed yet, with no tables.
    fn add_schema(&mut self, schemas: &mut Vec<String>, tables: &Vec<TableInfo>, x: String) -> (s: usize)
        requires
            indexes(old(self).schema_pos@, old(schemas)@),
            old(self).tables_indexed(old(schemas)@, tables@),
            !texts(old(schemas)@).contains(x@),
        ensures
            indexes(final(self).schema_pos@, final(schemas)@),
            final(self).tables_indexed(final(schemas)@, tables@),
            final(self).column_pos == old(self).column_pos,
            final(schemas)@ == old(schemas)@.push(x),
            s == old(schemas)@.len(),
    {
        let ghost old_self = *self;
        let ghost old_schemas = schemas@;
        let s = Self::append(&mut self.schema_pos, schemas, x);
        self.table_pos.push(StringHashMap::new());
        proof {
            assert forall|t: int| 0 <= t < tables@.len() implies tables@[t].schema@ != schemas@[s as int]@ by {
                let p = old_self.schema_pos@[tables@[t].schema@];
                assert(old_schemas[p as int]@ == tables@[t].schema@);
                assert(texts(old_schemas)[p as int] == tables@[t].schema@);
            }
            assert forall|u: int, k: Seq<char>|
                0 <= u < schemas@.len() && #[trigger] self.table_pos@[u]@.contains_key(k) implies {
                    let t = self.table_pos@[u]@[k];
                    &&& t < tables@.len()
                    &&& tables@[t as int].schema@ == schemas@[u]@
                    &&& tables@[t as int].name@ == k
                } by {
                if u < s {
                    assert(self.table_pos@[u] == old_self.table_pos@[u]);
                    assert(schemas@[u] == old_schemas[u]);
                } else {
                    assert(self.table_pos@[u]@ == Map::<Seq<char>, usize>::empty());
                }
            }
            assert forall|t: int| 0 <= t < tables@.len() implies {
                &&& self.schema_pos@.contains_key(#[trigger] tables@[t].schema@)
                &&& self.table_pos@[self.schema_pos@[tables@[t].schema@] as int]@.contains_key(
                    tables@[t].name@,
                )
            } by {
                let p = old_self.schema_pos@[tables@[t].schema@];
                assert(self.schema_pos@[tables@[t].schema@] == p);
                assert(self.table_pos@[p as int] == old_self.table_pos@[p as int]);
            }
        }
        s
    }

    /// Appends `table`, the first of its name in the database at position `s`.
    fn add_table(&mut self, schemas: &Vec<String>, tables: &mut Vec<TableInfo>, s: usize, table: TableInfo)
        requires
            indexes(old(self).schema_pos@, schemas@),
            old(self).tables_indexed(schemas@, old(tables)@),
            s < schemas@.len(),
            table.schema@ == schemas@[s as int]@,
            forall|t: int|
                0 <= t < old(tables)@.len() ==> !(old(tables)@[t].schema@ == table.schema@
                    && old(tables)@[t].name@ == table.name@),
        ensures
            final(self).tables_indexed(schemas@, final(tables)@),
            final(self).schema_pos == old(self).schema_pos,
            final(self).column_pos == old(self).column_pos,
            final(tables)@ == old(tables)@.push(table),
    {
        let ghost old_self = *self;
        let ghost old_tables = tables@;
        let ghost name = table.name@;
        let t = tables.len();
        let key = table.name.clone();
        tables.push(table);
        let mut m: StringHashMap<usize> = StringHashMap::new();
        self.table_pos.set_and_swap(s, &mut m);
        proof {
            assert(m@ == old_self.table_pos@[s as int]@);
            assert(!m@.contains_key(name)) by {
                if m@.contains_key(name) {
                    let u = m@[name];
                    assert(old_tables[u as int].schema@ == schemas@[s as int]@);
                }
            }
        }
        m.insert(key, t);
        self.table_pos.set(s, m);
        proof {
            assert(self.table_pos@ == old_self.table_pos@.update(s as int, m));
            assert forall|u: int, k: Seq<char>|
                0 <= u < schemas@.len() && #[trigger] self.table_pos@[u]@.contains_key(k) implies {
                    let x = self.table_pos@[u]@[k];
                    &&& x < tables@.len()
                    &&& tables@[x as int].schema@ == schemas@[u]@
                    &&& tables@[x as int].name@ == k
                } by {
                if u == s && k == name {
                } else {
                    assert(old_self.table_pos@[u]@.contains_key(k));
                    let x = old_self.table_pos@[u]@[k];
                    assert(self.table_pos@[u]@[k] == x);
                    assert(tables@[x as int] == old_tables[x as int]);
                }
            }
            assert forall|x: int| 0 <= x < tables@.len() implies {
                &&& self.schema_pos@.contains_key(#[trigger] tables@[x].schema@)
                &&& self.table_pos@[self.schema_pos@[tables@[x].schema@] as int]@.contains_key(
                    tables@[x].name@,
                )
            } by {
                if x < t {
                    assert(tables@[x] == old_tables[x]);
                    let p = self.schema_pos@[tables@[x].schema@];
                    assert(old_self.table_pos@[p as int]@.contains_key(tables@[x].name@));
                } else {
                    assert(self.schema_pos@.contains_key(schemas@[s as int]@));
                }
            }
        }
    }
}

proof fn lemma_same_names(ix: Lookup, schemas: Seq<String>, a: Seq<TableInfo>, b: Seq<TableInfo>)
    requires
        ix.tables_indexed(schemas, a),
        a.len() == b.len(),
        forall|u: int| #![trigger b[u]] 0 <= u < a.len() ==> b[u].schema == a[u].schema && b[u].name == a[u].name,
    ensures
        ix.tables_indexed(schemas, b),
{
    assert forall|t: int| 0 <= t < b.len() implies {
        &&& ix.schema_pos@.contains_key(#[trigger] b[t].schema@)
        &&& ix.table_pos@[ix.schema_pos@[b[t].schema@] as int]@.contains_key(b[t].name@)
    } by {
        assert(b[t].schema == a[t].schema && b[t].name == a[t].name);
        assert(ix.schema_pos@.contains_key(a[t].schema@));
    }
    assert forall|s: int, k: Seq<char>|
        0 <= s < schemas.len() && #[trigger] ix.table_pos@[s]@.contains_key(k) implies {
            let t = ix.table_pos@[s]@[k];
            &&& t < b.len()
            &&& b[t as int].schema@ == schemas[s]@
            &&& b[t as int].name@ == k
        } by {
        let t = ix.table_pos@[s]@[k];
        assert(b[t as int].schema == a[t as int].schema && b[t as int].name == a[t as int].name);
    }
}

/// The column a complete row describes.
fn column_from_row(row: &Vec<CellValue>) -> (c: ColumnInfo)
    requires
        row@.len() >= 6,
    ensures
        c@ == column_of(row_text(row@)),
{
    let name = row[2].to_text();
    let data_type = row[3].to_text();
    let flag = row[4].to_text();
    let is_nullable = starts_with(data_type.as_str(), "Nullable(");
    let default_value = if same_text(flag.as_str(), "1") || same_text(flag.as_str(), "true") {
        Some(row[5].to_text())
    } else {
        None
    };
    ColumnInfo { name, data_type, is_nullable, default_value }
}

/// Assembles the schema from the rows of the schema query, each row giving
/// database, table, column name, type, whether there is a default, and the
/// default expression. Rows with fewer than six cells are skipped.
pub fn build_schema(rows: &Vec<Vec<CellValue>>) -> (s: DatabaseSchema)
    ensures
        s@ == spec_schema(rows_text(rows@)),
{
    let ghost all = rows_text(rows@);
    let mut tables: Vec<TableInfo> = Vec::new();
    let mut schemas: Vec<String> = Vec::new();
    let mut unique_columns: Vec<String> = Vec::new();
    let mut ix = Lookup::new();
    let n = rows.len();
    let mut i: usize = 0;
    proof {
        assert(all.take(0) =~= Seq::<Row>::empty());
        assert(complete_rows(all.take(0)) =~= Seq::<Row>::empty());
    }
    while i < n
        invariant
            i <= n == rows@.len(),
            all == rows_text(rows@),
            texts(schemas@) == distinct_cells(all.take(i as int), 0),
            texts(unique_columns@) == distinct_cells(all.take(i as int), 2),
            ix.wf(schemas@, unique_columns@, tables@),
            tables@.len() == table_keys(all.take(i as int)).len(),
            forall|t: int|
                0 <= t < tables@.len() ==> #[trigger] tables@[t]@ == table_of(
                    all.take(i as int),
                    table_keys(all.take(i as int))[t],
                ),
        decreases n - i,
    {
        let ghost p = all.take(i as int);
        let ghost r = all[i as int];
        let ghost q = all.take(i + 1);
        assert(q =~= p.push(r));
        assert(r == row_text(rows@[i as int]@));
        let row = &rows[i];
        if row.len() >= 6 {
            let database = row[0].to_text();
            let table_name = row[1].to_text();
            let column_name = row[2].to_text();
            let column = column_from_row(row);
            assert(r[0] == database@ && r[1] == table_name@ && r[2] == column_name@);
            assert(column@ == column_of(r));
            let ghost key = table_key(r);
            let ghost keys_p = complete_rows(p).map_values(|x: Row| table_key(x));
            let ghost c0_p = complete_rows(p).map_values(|x: Row| x[0]);
            let ghost c2_p = complete_rows(p).map_values(|x: Row| x[2]);
            proof {
                lemma_rows_push(p, r, key);
                assert(complete_rows(q).map_values(|x: Row| table_key(x)) =~= keys_p.push(key));
                assert(complete_rows(q).map_values(|x: Row| x[0]) =~= c0_p.push(r[0]));
                assert(complete_rows(q).map_values(|x: Row| x[2]) =~= c2_p.push(r[2]));
                lemma_distinct_push(keys_p, key);
                lemma_distinct_push(c0_p, r[0]);
                lemma_distinct_push(c2_p, r[2]);
            }
            let s_pos = match Lookup::position(&ix.schema_pos, &schemas, &database) {
                Some(s_pos) => {
                    assert(texts(schemas@)[s_pos as int] == database@);
                    s_pos
                },
                None => {
                    let s_pos = ix.add_schema(&mut schemas, &tables, database.clone());
                    assert(texts(schemas@) =~= distinct_cells(q, 0));
                    s_pos
                },
            };
            match Lookup::position(&ix.column_pos, &unique_columns, &column_name) {
                Some(j) => {
                    assert(texts(unique_columns@)[j as int] == column_name@);
                },
                None => {
                    Lookup::append(&mut ix.column_pos, &mut unique_columns, column_name);
                    assert(texts(unique_columns@) =~= distinct_cells(q, 2));
                },
            }
            let ghost old_tables = tables@;
            match ix.table_position(&schemas, &tables, s_pos, &table_name) {
                Some(t) => {
                    proof {
                        assert(tables@[t as int]@ == table_of(p, table_keys(p)[t as int]));
                        assert(table_keys(p)[t as int] == key);
                        assert(table_keys(p).contains(key));
                        assert(table_keys(q) == table_keys(p));
                    }
                    let mut tb = TableInfo { name: String::new(), schema: String::new(), columns: Vec::new() };
                    tables.set_and_swap(t, &mut tb);
                    let ghost old_columns = tb.columns@;
                    tb.columns.push(column);
                    tables.set(t, tb);
                    proof {
                        assert(tables@ =~= old_tables.update(t as int, tables@[t as int]));
                        assert(tables@[t as int].columns@ =~= old_columns.push(column));
                        assert(tables@[t as int].name == old_tables[t as int].name);
                        assert(tables@[t as int].schema == old_tables[t as int].schema);
                        assert forall|u: int| 0 <= u < tables@.len() implies #[trigger] tables@[u]@
                            == table_of(q, table_keys(q)[u]) by {
                            lemma_rows_push(p, r, table_keys(p)[u]);
                            if u == t {
                                assert(old_tables[u]@ == table_of(p, table_keys(p)[u]));
                                assert(column_views(tables@[u].columns@) =~= column_views(
                                    old_tables[u].columns@,
                                ).push(column@));
                                assert(table_keys(q)[u] == key);
                                assert(table_columns(q, key) == table_columns(p, key).push(column_of(r)));
                            } else {
                                assert(old_tables[u]@ == table_of(p, table_keys(p)[u]));
                                assert(table_keys(q)[u] == table_keys(p)[u]);
                                lemma_distinct_no_duplicates(keys_p);
                                assert(table_keys(p)[u] != key);
                                assert(tables@[u] == old_tables[u]);
                            }
                        }
                        assert forall|u: int| #![trigger tables@[u]] 0 <= u < tables@.len() implies tables@[u].schema
                            == old_tables[u].schema && tables@[u].name == old_tables[u].name by {}
                        lemma_same_names(ix, schemas@, old_tables, tables@);
                    }
                },
                None => {
                    proof {
                        if table_keys(p).contains(key) {
                            let u = choose|u: int|
                                0 <= u < table_keys(p).len() && table_keys(p)[u] == key;
                            assert(tables@[u]@ == table_of(p, table_keys(p)[u]));
                        }
                        lemma_distinct_contains(keys_p, key);
                        lemma_table_columns_absent(p, key);
                    }
                    let mut columns: Vec<ColumnInfo> = Vec::new();
                    columns.push(column);
                    ix.add_table(&schemas, &mut tables, s_pos, TableInfo { name: table_name, schema: database, columns });
                    proof {
                        assert forall|u: int| 0 <= u < tables@.len() implies #[trigger] tables@[u]@
                            == table_of(q, table_keys(q)[u]) by {
                            if u < old_tables.len() {
                                lemma_rows_push(p, r, table_keys(p)[u]);
                                assert(tables@[u] == old_tables[u]);
                                assert(table_keys(q)[u] == table_keys(p)[u]);
                            } else {
                                assert(column_views(tables@[u].columns@) =~= seq![column@]);
                                assert(table_keys(q)[u] == key);
                                assert(table_columns(p, key).push(column@) =~= seq![column@]);
                            }
                        }
                    }
                },
            }
        } else {
            proof {
                lemma_rows_push(p, r, (Seq::empty(), Seq::empty()));
                assert forall|u: int| 0 <= u < tables@.len() implies #[trigger] tables@[u]@
                    == table_of(q, table_keys(q)[u]) by {
                    lemma_rows_push(p, r, table_keys(p)[u]);
                }
            }
        }
        i = i + 1;
    }
    proof {
        assert(all.take(n as int) =~= all);
    }
    let s = DatabaseSchema { tables, schemas, unique_columns };
    assert(s@.tables =~= spec_schema(all).tables);
    s
}

} // verus!
