# eventsdb

An embedded, append-only event log: JSON events in streams, in one SQLite
file, with one order over all of them.

The crate is a Verus library. `src/` holds what the log decides and computes,
each function with its contract and proved against it:

- `json`, `event`, `upcast`, `store`, `position`, `error`: values, the event
  envelope, how an old event reads now, coordinates and failures.
- `log`, `sql`, `row`, `read`, `page`, `catalog`: what a read selects, the
  statements that select it, and the pages a replay, a subscription or a
  listing is made of.
- `append`, `transfer`: what one transaction writes, and moving a log
  somewhere else.
- `retention`, `project`: what may be removed and what is written down about
  it, and where a projection's cursor moves.
- `hatch`, `params`: what a caller's own SQL may do, and what it answers.
- `mem`: a whole store of one stream, in memory.
- `schema`, `shared`, `options`, `backup`, `trace`: the tables' shape, retries,
  and how each failure is told.

The public proof functions beside them state what holds across calls.

JSON text is `serde_json`'s. What the proofs take from it, and from the
standard library, stands in the few functions marked `external_body` and in
the `assume_specification` items, each with a comment that says what is
believed.

`app/` is ordinary Rust around the library: the connections, the threads, the
waiting and the `async` traits. `tests/` runs the library.
