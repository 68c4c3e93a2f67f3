# bindle-store

A store for bindles in a directory tree, written in Rust and verified with Verus.

A bindle has an invoice, a document that lists its parcels. The store keeps

- each invoice as `invoices/<digest of the bindle's identifier>/invoice.toml`, and
- the data of each parcel as `parcels/<SHA-256 of the data>/parcel.dat`.

A file is first written under its name with a further `.part` extension and gets its proper name
when it is whole. The invoices read last are kept in memory.

## Layout

- `src/` is the library. Its operations are state machines: an operation names an action, is
  handed the event that came of it, and names the next action or is done. `provider.rs` is the
  store, `create_invoice.rs`, `fetch_invoice.rs`, `yank_invoice.rs`, `create_parcel.rs`,
  `read_parcel.rs` and `warm_index.rs` are the operations, `path.rs` and `layout.rs` say where
  things are, `digest.rs` and `cache.rs` hold the hashing and the caching.
- `src/world.rs` is a model of the file system, and the `*_laws.rs` files state what holds of every
  run of an operation on it: files are never seen half written, what was stored is read back, every
  stored parcel has the digest it is stored under. `src/history_laws.rs` follows a store through
  many operations: it holds what was created, and a new provider tells its index of just that.
  `src/caching_laws.rs` says how long an invoice that was read is served from memory.
- `app/` performs the actions with tokio, and reads and writes the documents.
- `tests/` run the operations on a file system in memory.

## What is believed

The contracts of the functions marked `external_body` in `digest.rs` (the `sha2` crate) and
`cache.rs` (the `lru` crate) are believed without proof. `world.rs` is the assumption under which
the laws hold: a path, written as on Unix, stands for one place, only the operation itself changes anything, a listing
goes once through what is in a directory, and an invoice is written out as one document, which
reads back as that invoice.
