//! A key-value store with tables, indexes, singletons and transactions.
//!
//! A store holds tables of rows and singletons, as described by a schema (see [`schema`], and
//! [`graph`] for an example). Rows are found by their key or by the keys that they have in an
//! index of the table. All changes are made by transactions, which are committed as a whole or not
//! at all.
//!
//! Contracts speak of what is visible at some point: the rows of each table as a map, and the
//! indexes which are kept with them. The view of a store is its committed state.

pub mod accessors;
pub mod basics;
pub mod error;
pub mod events;
pub mod graph;
pub mod index;
pub mod index_list;
pub mod index_table;
pub mod iter;
pub mod laws;
pub mod operations;
pub mod owner;
pub mod pub_sub;
pub mod schema;
pub mod storage;
pub mod store;
pub mod table;
pub mod tables;
pub mod transactions;

pub use accessors::{Singleton, Table};
pub use error::{Error, KvErrorExt};
pub use events::{Event, Notification, SingletonEvent};
pub use index::{Index, IndexTransaction, IndexWithOwner, RoIndexTransaction};
pub use iter::{
    IndexIterMut, IndexIterator, Keys, KeysAndValues, TableIterMut, TableIterator, Values,
};
pub use owner::{is_owner, Owner};
pub use pub_sub::{Subscriber, Subscription, Subscriptions};
pub use store::{KvStore, RoTransaction, Transaction};
pub use transactions::{
    RoSingletonTransaction, RoTableTransaction, SingletonTransaction, TableTransaction,
};
