# redb_store

A verified library (Verus) for two things:

- the on-disk formats of a page store: the 320-byte database header with its
  god byte and two checksummed commit slots, b-tree roots, and serialized
  savepoints, together with the choice of the primary slot when a database is
  repaired (`src/header.rs`, `src/btree_header.rs`, `src/savepoint.rs`,
  `src/layout.rs`, `src/error.rs`, `src/ids.rs`);
- a small column-store benchmark: a bit-counting group-by over a boolean
  column, and counts of trips by passenger count, pickup year and distance
  (`src/columns.rs`, `src/queries.rs`).

Checksums are XXH3-128 (seed 0) from `xxhash-rust`; pickup years come from
`chrono`; benchmark data is drawn with `rand`. `app/main.rs` runs the
benchmark, times it, and does the floating-point parts (fares, distances).
