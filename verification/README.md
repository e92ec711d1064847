# picante

An incremental query runtime whose decisions are verified with Verus.

A database holds *inputs* that are set from outside, *interned* values that get a
small id each, and *derived* queries whose results are memoised. A result is computed
again only if something that it read has changed. Databases can be saved to a cache
file, with a write-ahead log beside it for what changed since.

- `src/` is the library. It does no input or output, starts no tasks and takes no
  locks: where a step has to wait, it tells its caller what to do and is told what
  came of it.
  - `key`, `revision`, `error`, `text`, `order`: the small values.
  - `share`, `index`, `table`: maps from byte strings, in insertion order.
  - `graph`, `runtime`, `frame`: dependencies, the revision counter with its events,
    the stack of running queries.
  - `ingredient`: inputs, interned values and derived queries. `ingredient::access` is
    the state machine of an access to a derived query, `ingredient::access_laws` what
    holds of it, `ingredient::value_laws` why the values that it hands out are right, and
    `ingredient::view_laws` why it cannot be observed that snapshots share results;
    `ingredient::persist_laws` says what holds of saving and loading, and
    `ingredient::history_laws` what holds over many calls.
  - `inflight`: results that snapshots share, and the registry of computations that
    they follow; `sharing_laws` says what holds over many calls. They are filed under the
    identity of the database. A snapshot has that identity until it is changed, and
    one of its own from then on; `identity_laws` says that identity and revision
    determine the inputs.
  - `postcard`, `wal`, `persist`: the file formats, what is saved and what is loaded;
    `format_laws` says that the formats are unambiguous.
  - `debug`: dependency graphs, statistics and traces.
  - `macros`: what the attribute macros accept, and the names that they generate.
- `tests/` runs the library.
- `app/` puts Tokio, files and typed values around it.
