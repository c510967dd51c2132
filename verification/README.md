# hermes_usage

Imports the usage that Hermes Agent records in its session databases. Hermes keeps cumulative
counters and costs for each session, model, route and task. This library turns them into deltas: it
remembers how each row was last seen, and stores what has been used since.

- A row that is new, or whose counters went down, only sets a baseline.
- Any other row gives a delta of its counters, and of the part of its cost above the baseline. A
  correction of the cost takes back at most what was imported.
- Main-loop calls that only the total of a session knows of become a row of their own.
- A profile that cannot be read or imported is reported, and does not stand in the way of others.

## Layout

- `src/` is the library, verified with Verus. `reader` and `source` read the rows of a database,
  `snapshot` and `import` compare and store them, `sync` runs over all profiles, `query` reads the
  deltas back. `cost`, `counter`, `digest`, `value` and `text` are what these are built of. The
  modules that end in `_laws` state and prove what holds across functions.
- `tests/` holds tests of the library with the real `rust_decimal` and `sha2`.
- `app/` is ordinary Rust around it: files, SQLite connections and the clock.

## What is trusted

Decimal arithmetic, parsing and printing are those of `rust_decimal`, SHA-256 is that of `sha2`.
The functions marked `#[verifier::external_body]` in `cost`, `digest` and `value`, and the
specification of `String::push` in `text`, say what is assumed of them.

Baselines and balances are stored with six decimal places. The laws on repeated imports and on the
ledger therefore speak of costs that six decimal places keep.
