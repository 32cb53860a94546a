# trino_arrow

Turns the rows that a Trino coordinator sends into Arrow record batches, and settles what is
asked of the coordinator and how its replies are read. The library is verified with Verus.

* `src/schema.rs` reads Trino type names; `src/types.rs` holds the column types.
* `src/values.rs` turns JSON values into cells; `src/rows.rs` turns rows into a record batch.
* `src/store.rs` is the model of what Arrow's builders and columns hold; `src/builder.rs` is the
  boundary to those builders, `src/arrow_types.rs` the one to Arrow's types.
* `src/columns.rs` and `src/success.rs` state what a record batch holds of the rows, and when rows
  become one; `src/joined.rs` states that rows have no part in what becomes of one another;
  `src/runs.rs` states what one builder holds after many values;
  `src/flat.rs` states how deep types nest.
* `src/json.rs`, `src/decimal.rs`, `src/temporal.rs`, `src/encoding.rs`, `src/number.rs` and
  `src/text.rs` read and write the values themselves.
* `src/trinoconn.rs` is a connection: statements, pages, table descriptions, chunks.
* `src/trinodbpool.rs` is a pool: parameters, authentication, headers.
* `app/` sends the requests and shows the errors.

Functions whose names begin with `try_` take any input, and say so where the function of that name
cannot answer.
