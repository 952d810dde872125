# standardoc_core

The core of the Standardoc code-graph indexer, written in Verus: the
decisions the indexer makes about paths, symbols, edges, lockfiles,
workspaces and queries, each stated as a contract and proved.

- `src/` — the verified library, in these modules:
  `text` (sequence and string helpers), `paths`, `manifest`, `lockfiles`,
  `fts`, `query`, `rows`, `neighbors`, `body`, `comments`, `similarity`,
  `diff`, `ingest`, `writer`, `cold_start`, `filters`, `discovery`,
  `peers`, `workspace`, `projects`, `graph`, `call_sites`, `lookup`,
  `cross_workspace`, `builtins`, `resolve`, `joins`, `provider`.
  Calls into `blake3`, `ignore`, `serde_json` and a few `std` functions
  stand behind small trusted wrappers whose contracts name what they
  return.
- `tests/` — unit tests of the library on concrete values.
- `app/` — the unverified shell: some reads of the SQLite index
  (`rusqlite`: schema metadata, lockfile hashes, symbol listing and
  search, the graph's symbol pages), directory walks (`walkdir`) and
  `.stdignore` file reads, the loops that drive the verified decisions
  (graph walk, cross-workspace lookups, builtin seeding, the
  unresolved-edge sweep, the C and FFI join passes), file watchers (`notify-debouncer-full`),
  project detection (`standarbuild-detect`), serde-facing copies of
  library types, and the floating-point similarity scores (`strsim`).
  The index layer's own modules (schema, upserts, the workspace catalog,
  the linked-workspace resolver) are not part of this crate; the
  drivers that need them take those operations as arguments.
