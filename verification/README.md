# ZachDB

A lightweight document database: named collections of JSON documents,
filtering queries with sorting and paging, per-field indexes, on-disk storage
and a REST API.

## Layout

- `src/` — the library, verified with Verus.
  - `database.rs`, `collection.rs`: collections of documents and their
    operations, with a mathematical view (maps from names and identifiers to
    values) that every contract speaks of.
  - `query.rs`: conditions on dotted paths, value ordering, sorting, paging.
  - `json.rs`, `number.rs`: JSON values, with numbers compared by their value
    as doubles (integer-to-double rounding is proved bit for bit).
  - `index.rs`: which fields get an index, which conditions an index answers,
    how index answers combine.
  - `api.rs`: the HTTP handlers' decisions (statuses, messages, request to
    query).
  - `storage.rs`: the on-disk layout (paths, document files).
  - `laws.rs`: properties that relate several operations.
  - `dashmaps.rs`, `clock.rs`: the concurrent maps, the clock and UUIDs,
    behind trusted declarations.
- `tests/` — tests of the library.
- `app/` — the server: command line, logging, HTTP (axum), file storage
  (bincode), full-text indexes (tantivy).

## Dependencies

`zstd-sys` is not used by the code: it is pinned (`=2.0.8`, without default
features) only so that the zstd bindings that tantivy 0.21 builds on
compile; a newer `zstd-sys` breaks that build.
