# ts_kv_store

A key-value store with tables, indexes, singletons and transactions, verified with Verus.

* Tables hold rows by key. A table can have indexes, which find rows by keys computed from them.
  A key of an index has to identify a row: an index with an ambiguous key is *poisoned*, and a
  transaction which leaves an index poisoned cannot be committed.
* Transactions are committed as a whole or not at all. Operations outside of a transaction are
  transactions of one operation.
* Subscribers are told what a committed transaction has changed.

## Layout

* `src/storage.rs`: values and rows with their committed and their uncommitted version.
* `src/index_table.rs`, `src/index_list.rs`: one index, and all indexes of a table.
* `src/table.rs`: the rows of a table together with its indexes.
* `src/tables.rs`: all tables and singletons of a store.
* `src/schema.rs`: the traits which describe a schema; `src/graph.rs`: an example of one.
* `src/operations.rs`: the operations on a table, on a table via an index, and on a singleton.
* `src/store.rs`, `src/transactions.rs`: the store and its transactions.
* `src/accessors.rs`, `src/index.rs`: access to tables and indexes, in and outside of transactions.
* `src/iter.rs`, `src/events.rs`, `src/pub_sub.rs`, `src/owner.rs`, `src/error.rs`: iterators,
  notifications, subscribers, owners, errors.
* `src/laws.rs`: what holds of indexes and stores as a whole.
* `app/`: a store behind a lock, delivery of notifications, and a macro for declaring schemas.

## Contracts

What is visible of a table is its rows, as a map, and the state of its indexes (`TableState`).
The view of a store is its committed state. Each operation says which state it leads to, and
`TableState::consistent`, that the indexes are those of the rows, holds of every table at any time.

A closure which is handed to an operation is described by its own contract: the operation calls it
with the row it says, and keeps what the closure leaves there. `with_iter_mut` hands out an iterator,
and changes only the rows which the closure takes from it (`Graph::forget_b` in `src/graph.rs` is an
example).

A state also holds what a transaction has written, and how. That decides which changes subscribers
are told of: rows which were assigned, and rows which were lent out and are not known to be equal.

Keys have to hash and compare by value (`storage::key_model`). That can be shown of integers and
other types for which `vstd` says so.
