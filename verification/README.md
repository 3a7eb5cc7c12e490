# Durable Evals

The store behind a durable eval harness: it remembers which units of work of an eval are done,
running, waiting or failed, so that a run can be resumed where it left off and transient failures
are retried.

A unit of work is found by `(run_id, kind, input_digest)`, where `kind` is the name of a step (a
group of one) or of a dataset (a registered set of tasks). Work is content-addressed: running an
eval again reuses completed outputs, a changed input becomes a new task, and changing it back
restores the old output.

## Layout

- `src/` is the library, verified with Verus. `Ledger` holds the rows of every table; each request
  is a method of it. A method whose name ends in `_at` takes the moment of the request; its contract
  gives the store after the request and the reply as functions of the store before, the request and
  the moment. The method without that ending reads the clock.
  - `text`, `time`, `json`, `digest`, `csv`, `jitter`: values and their text.
  - `failure`, `retry`, `error`: failure classes, retry policies, errors and how they are answered.
  - `table`, `order`, `rows`: tables of rows by key, and their listings.
  - `work`: what a claim, a completion, a failure and a heartbeat do to a unit of work.
  - `ledger`, `steps`, `datasets`, `tasks`, `unified`, `registry`, `traces`, `report`, `export`,
    `live`: the requests.
  - `history`, `laws`: what holds over several requests.
- `app/` is the server: HTTP, SQLite, Postgres and JSON. It loads the rows that a request is about,
  lets the library serve it, and writes back what changed, in one transaction.
- `tests/` runs the library.

## Server

- `DURABLE_EVALS_DB`: the SQLite database path, or a Postgres URL.
- `DURABLE_EVALS_ADDR`: the address to bind.
- `DURABLE_EVALS_TOKEN`: the bearer token that requests need; unset, the API is open.
