# pgpad ClickHouse support, verified

The ClickHouse back end of a SQL client, written in Verus. `src/` is the
verified library; `app/` performs the network requests and JSON decoding that
the library's functions plan and interpret.

- `connect`: reading a `clickhouse://user@host:port/database` connection string
  into connection settings (with `clickhouses://` for HTTPS), the client, and
  what a ping or a query answer amounts to.
- `parser`: splitting SQL text into statements with `sqlparser` and telling
  which of them return rows and which set their own LIMIT.
- `execute`: the run of one statement as a state machine, from the text sent to
  the server (limited to one row more than the default limit) to the events
  reported: column names, pages of 50 rows, and one final event.
- `schema`: assembling tables, databases and column names from the rows of the
  `system.columns` query.
- `text`: string helpers with exact specifications (trimming, prefixes, decimal
  notation, JSON array framing).
