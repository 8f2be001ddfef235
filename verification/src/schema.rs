//! Traits for describing the schema of a store.

use crate::error::Error;
use crate::events::{Event, SingleState, SingletonEvent};
use crate::owner::Owner;
use crate::pub_sub::Subscriptions;
use crate::index_table;
use crate::index_table::{IndexState, IndexTable};
use crate::storage;
use crate::storage::{Mark, TxnId, VersionedValue};
use crate::store::KvStore;
use crate::table::{Table, TableState};
use crate::transactions::{RoTableTransaction, TableTransaction};
use std::hash::Hash;
use std::marker::PhantomData;
use vstd::prelude::*;

verus! {

/// The index keys of a row, in order.
pub type KeySeq<K> = Seq<K>;

/// Describes the keys of an index: which keys a row of the base table has in it.
pub trait IndexKeys: Sized + 'static {
    /// The name of the index.
    const NAME: &'static str;
    /// Whether storing several rows with the same index key is a programming error (rather than
    /// an error of the transaction which stores them).
    const ASSERT_UNIQUE: bool;
    /// The type of the index's keys.
    type Key: Hash + Eq + Clone;
    /// The type of the base table's keys.
    type BaseKey: Hash + Eq + Clone;
    /// The type of the base table's values.
    type Row;

    /// The index keys of a row.
    spec fn keys(row: Self::Row) -> KeySeq<Self::Key>;

    /// Compute the index keys of a row.
    fn index_keys(row: &Self::Row) -> (r: Vec<Self::Key>)
        ensures
            r@ == Self::keys(*row),
    ;
}

/// The indexes of a table with keys `K` and values `V`.
pub trait IndexStorage<K, V>: Sized + 'static {
    /// What is visible of the indexes at some point.
    type State;

    /// The key types of the indexes can be used as keys.
    spec fn key_model() -> bool;

    /// Nothing is newer than the transaction `txn_id`.
    spec fn wf(&self, txn_id: TxnId) -> bool;

    /// What is visible of the indexes at `txn_id`.
    spec fn state(&self, txn_id: TxnId) -> Self::State;

    /// Indexes without entries.
    spec fn empty() -> Self::State;

    /// The indexes with a row added.
    spec fn inserted(state: Self::State, key: K, value: V) -> Self::State;

    /// The indexes with a row removed.
    spec fn removed(state: Self::State, value: V) -> Self::State;

    /// Whether a row can be added without a second row for an index key that was asserted to be
    /// unique.
    spec fn may_insert(state: Self::State, value: V) -> bool;

    /// Whether the index keys of a row are all new to the indexes, and none occurs twice.
    spec fn fresh(state: Self::State, value: V) -> bool;

    /// The name of the first poisoned index, if there is one.
    spec fn poisoned(state: Self::State) -> Option<&'static str>;

    /// The indexes are those of a table with these rows.
    spec fn consistent(state: Self::State, rows: Map<K, V>) -> bool;

    /// The name of the first index with an index key for several of the rows, if there is one.
    spec fn violated(rows: Map<K, V>) -> Option<&'static str>;

    /// Each index key which was asserted to be unique identifies one of the rows.
    spec fn admits(rows: Map<K, V>) -> bool;

    /// Poisoned indexes stay poisoned, and each that is newly poisoned has an index key for
    /// several of the rows.
    spec fn poison_justified(before: Self::State, after: Self::State, rows: Map<K, V>) -> bool;

    /// Indexes without entries are those of an empty table.
    proof fn lemma_empty()
        ensures
            Self::consistent(Self::empty(), Map::empty()),
            Self::poisoned(Self::empty()) is None,
    ;

    /// An index key which does not identify a row poisons its index, and nothing else does.
    proof fn lemma_poisoned(before: Self::State, after: Self::State, rows: Map<K, V>)
        ensures
            Self::poison_justified(before, before, rows),
            Self::consistent(after, rows) && Self::poisoned(after) is None ==> Self::violated(
                rows,
            ) is None,
            Self::consistent(after, rows) && Self::poison_justified(before, after, rows) ==> (
            Self::poisoned(after) is None <==> Self::poisoned(before) is None && Self::violated(
                rows,
            ) is None),
            Self::consistent(after, rows) && Self::poison_justified(before, after, rows)
                && Self::poisoned(before) is None ==> Self::poisoned(after) == Self::violated(rows),
    ;

    /// Adding a row to a table and to its indexes leaves the indexes of the table.
    proof fn lemma_inserted(state: Self::State, rows: Map<K, V>, key: K, value: V)
        requires
            Self::consistent(state, rows),
            !rows.contains_key(key),
        ensures
            Self::admits(rows.insert(key, value)) ==> Self::may_insert(state, value),
            Self::may_insert(state, value) ==> Self::consistent(
                Self::inserted(state, key, value),
                rows.insert(key, value),
            ),
            forall|before: Self::State, all: Map<K, V>|
                rows.insert(key, value).submap_of(all) && #[trigger] Self::poison_justified(
                    before,
                    state,
                    all,
                ) ==> Self::poison_justified(before, Self::inserted(state, key, value), all),
    ;

    /// Removing a row from a table and from its indexes leaves the indexes of the table.
    proof fn lemma_removed(state: Self::State, rows: Map<K, V>, key: K)
        requires
            Self::consistent(state, rows),
            rows.contains_key(key),
        ensures
            Self::consistent(Self::removed(state, rows[key]), rows.remove(key)),
            Self::poisoned(Self::removed(state, rows[key])) == Self::poisoned(state),
            forall|before: Self::State, all: Map<K, V>| #[trigger]
                Self::poison_justified(before, state, all) ==> Self::poison_justified(
                    before,
                    Self::removed(state, rows[key]),
                    all,
                ),
    ;

    /// A part of admissible rows is admissible.
    proof fn lemma_admits(part: Map<K, V>, rows: Map<K, V>)
        requires
            Self::admits(rows),
            part.submap_of(rows),
        ensures
            Self::admits(part),
    ;

    /// The index keys of a row which leaves all index keys unambiguous are new.
    proof fn lemma_fresh(state: Self::State, rows: Map<K, V>, key: K, value: V)
        requires
            Self::consistent(state, rows),
            !rows.contains_key(key),
            Self::violated(rows.insert(key, value)) is None,
        ensures
            Self::fresh(state, value),
    ;

    /// Removing a row with new index keys undoes adding it.
    proof fn lemma_undo(state: Self::State, key: K, value: V)
        requires
            Self::fresh(state, value),
        ensures
            Self::removed(Self::inserted(state, key, value), value) == state,
    ;

    /// Rows which each of their index keys identifies are admissible.
    proof fn lemma_violated(rows: Map<K, V>)
        requires
            Self::violated(rows) is None,
        ensures
            Self::admits(rows),
    ;

    /// Indexes without entries.
    fn new() -> (r: Self)
        requires
            Self::key_model(),
        ensures
            forall|t: TxnId| t > 0 ==> #[trigger] r.wf(t),
            forall|t: TxnId| #[trigger] r.state(t) == Self::empty(),
    ;

    /// Clear the indexes.
    fn clear(&mut self, txn_id: TxnId)
        requires
            old(self).wf(txn_id),
        ensures
            final(self).wf(txn_id),
            final(self).state(txn_id) == Self::empty(),
            final(self).state(storage::prior(txn_id)) == old(self).state(storage::prior(txn_id)),
    ;

    /// An item has been inserted into the table.
    fn on_insert(&mut self, key: &K, value: &V, txn_id: TxnId)
        requires
            old(self).wf(txn_id),
            Self::may_insert(old(self).state(txn_id), *value),
        ensures
            final(self).wf(txn_id),
            final(self).state(txn_id) == Self::inserted(old(self).state(txn_id), *key, *value),
            final(self).state(storage::prior(txn_id)) == old(self).state(storage::prior(txn_id)),
    ;

    /// An item has been removed from the table.
    fn on_remove(&mut self, value: &V, txn_id: TxnId)
        requires
            old(self).wf(txn_id),
        ensures
            final(self).wf(txn_id),
            final(self).state(txn_id) == Self::removed(old(self).state(txn_id), *value),
            final(self).state(storage::prior(txn_id)) == old(self).state(storage::prior(txn_id)),
    ;

    /// Whether the transaction `txn_id` leaves all indexes usable.
    fn check_txn_consistency(&self, txn_id: TxnId) -> (r: Result<(), Error>)
        ensures
            r == match Self::poisoned(self.state(txn_id)) {
                Some(name) => Err::<(), Error>(Error::NonUniqueIndexKey(name)),
                None => Ok(()),
            },
    ;

    /// End the transaction `txn_id`: what it has written is what later transactions find.
    fn commit(&mut self, txn_id: TxnId)
        requires
            old(self).wf(txn_id),
            Self::poisoned(old(self).state(txn_id)) is None,
            txn_id < TxnId::MAX,
        ensures
            final(self).wf(storage::following(txn_id)),
            final(self).state(txn_id) == old(self).state(txn_id),
            final(self).state(storage::following(txn_id)) == old(self).state(txn_id),
    ;

    /// Forget what the transaction `txn_id` has written.
    fn gc_txn(&mut self, txn_id: TxnId)
        requires
            old(self).wf(txn_id),
        ensures
            final(self).wf(txn_id),
            final(self).state(storage::prior(txn_id)) == old(self).state(storage::prior(txn_id)),
            final(self).state(txn_id) == old(self).state(storage::prior(txn_id)),
    ;
}

/// Describes the rows of a table, and the indexes which are kept with them.
pub trait RowDesc: Sized + 'static {
    /// The name of the table.
    const NAME: &'static str;
    /// The table's owner.
    const OWNER: Owner;
    /// The type of the key.
    type Key: Hash + Eq + Clone;
    /// The type of the value.
    type Value;
    /// The storage type for keeping this table's indexes.
    type IndexStorage: IndexStorage<Self::Key, Self::Value>;

    /// Compare two values of this table: `true` if they are known to be equal.
    ///
    /// Values of a type without equality are never known to be equal.
    fn value_eq(a: &Self::Value, b: &Self::Value) -> (r: bool)
        ensures
            r ==> *a == *b,
    ;
}

/// A table where changes can generate notifications to subscribers.
pub trait Notifiable: RowDesc {
    /// The type of the notification for this table (either `Self::Value` or `()`).
    type NotificationValue;

    /// Create a value for a notification, possibly by cloning `value`.
    fn clone_value_for_notification(value: &Self::Value) -> Self::NotificationValue;
}

/// A table without indexes.
impl<K, V> IndexStorage<K, V> for () {
    type State = ();

    open spec fn key_model() -> bool {
        true
    }

    open spec fn wf(&self, txn_id: TxnId) -> bool {
        true
    }

    open spec fn state(&self, txn_id: TxnId) -> () {
        ()
    }

    open spec fn empty() -> () {
        ()
    }

    open spec fn inserted(state: (), key: K, value: V) -> () {
        ()
    }

    open spec fn removed(state: (), value: V) -> () {
        ()
    }

    open spec fn may_insert(state: (), value: V) -> bool {
        true
    }

    open spec fn fresh(state: (), value: V) -> bool {
        true
    }

    open spec fn poisoned(state: ()) -> Option<&'static str> {
        None
    }

    open spec fn consistent(state: (), rows: Map<K, V>) -> bool {
        true
    }

    open spec fn violated(rows: Map<K, V>) -> Option<&'static str> {
        None
    }

    open spec fn admits(rows: Map<K, V>) -> bool {
        true
    }

    open spec fn poison_justified(before: (), after: (), rows: Map<K, V>) -> bool {
        true
    }

    proof fn lemma_empty() {
    }

    proof fn lemma_poisoned(before: (), after: (), rows: Map<K, V>) {
    }

    proof fn lemma_inserted(state: (), rows: Map<K, V>, key: K, value: V) {
    }

    proof fn lemma_removed(state: (), rows: Map<K, V>, key: K) {
    }

    proof fn lemma_admits(part: Map<K, V>, rows: Map<K, V>) {
    }

    proof fn lemma_fresh(state: (), rows: Map<K, V>, key: K, value: V) {
    }

    proof fn lemma_undo(state: (), key: K, value: V) {
    }

    proof fn lemma_violated(rows: Map<K, V>) {
    }

    fn new() -> (r: Self) {
        ()
    }

    fn clear(&mut self, txn_id: TxnId) {
    }

    fn on_insert(&mut self, key: &K, value: &V, txn_id: TxnId) {
    }

    fn on_remove(&mut self, value: &V, txn_id: TxnId) {
    }

    fn check_txn_consistency(&self, txn_id: TxnId) -> (r: Result<(), Error>) {
        Ok(())
    }

    fn commit(&mut self, txn_id: TxnId) {
    }

    fn gc_txn(&mut self, txn_id: TxnId) {
    }
}

/// Describes the value of a singleton.
pub trait SingletonValue: Sized + 'static {
    /// The datum's owner.
    const OWNER: Owner;
    /// The type of the value.
    type Value;
    /// The type of the notification for this singleton (either `Self::Value` or `()`).
    type NotificationValue;

    /// Create a value for a notification, possibly by cloning `value`.
    fn notif_value(value: &Self::Value) -> Self::NotificationValue;
}

/// A storage implementation: the tables and singletons of a store.
pub trait GeneratedStorage: Sized + 'static {
    /// What is visible of the tables and singletons at some point.
    type State;
    /// An enum of all notification types.
    type Notification;

    /// The key types of the tables and of their indexes can be used as keys.
    spec fn key_model() -> bool;

    /// Nothing is newer than the transaction `txn_id`, and no index of the committed state is
    /// poisoned.
    spec fn wf(&self, txn_id: TxnId) -> bool;

    /// What is visible at `txn_id`, and what the transaction `txn_id` has written.
    spec fn state(&self, txn_id: TxnId) -> Self::State;

    /// What is visible in the committed state, from which the transaction `txn_id` started.
    spec fn committed(&self, txn_id: TxnId) -> Self::State;

    /// The state as the next transaction finds it.
    spec fn settled(state: Self::State) -> Self::State;

    /// Empty tables, and singletons without values.
    spec fn initial() -> Self::State;

    /// The indexes of each table are those of its rows.
    spec fn consistent(state: Self::State) -> bool;

    /// The name of the first poisoned index, if there is one.
    spec fn poisoned(state: Self::State) -> Option<&'static str>;

    /// Whether the tables and singletons are the same, except for the one in the place with the
    /// number `pos`.
    spec fn agree_except(a: Self::State, b: Self::State, pos: int) -> bool;

    /// Whether `events` report what a transaction has written to the singletons.
    spec fn reports_singletons(after: Self::State, events: Seq<Self::Notification>) -> bool;

    /// Whether `events` report how a transaction has changed the tables.
    spec fn reports_tables(
        before: Self::State,
        after: Self::State,
        events: Seq<Self::Notification>,
    ) -> bool;

    /// Settling a state changes nothing but what was written.
    proof fn lemma_settled(state: Self::State)
        ensures
            Self::settled(Self::settled(state)) == Self::settled(state),
            Self::consistent(Self::settled(state)) == Self::consistent(state),
            Self::poisoned(Self::settled(state)) == Self::poisoned(state),
    ;

    /// A state agrees with itself.
    proof fn lemma_agree(state: Self::State, pos: int)
        ensures
            Self::agree_except(state, state, pos),
    ;

    /// Empty tables have the right indexes.
    proof fn lemma_initial()
        ensures
            Self::consistent(Self::initial()),
            Self::poisoned(Self::initial()) is None,
    ;

    /// The indexes of each table are always those of its rows.
    proof fn lemma_wf(&self, txn_id: TxnId)
        requires
            self.wf(txn_id),
        ensures
            txn_id > 0,
            Self::key_model(),
            Self::consistent(self.state(txn_id)),
            Self::consistent(self.committed(txn_id)),
            Self::poisoned(self.committed(txn_id)) is None,
            Self::settled(self.committed(txn_id)) == self.committed(txn_id),
    ;

    /// Empty tables, and singletons without values.
    fn new() -> (r: Self)
        requires
            Self::key_model(),
        ensures
            forall|t: TxnId| t > 0 ==> #[trigger] r.wf(t),
            forall|t: TxnId| #[trigger] r.state(t) == Self::initial(),
            forall|t: TxnId| #[trigger] r.committed(t) == Self::initial(),
    ;

    /// Whether the transaction `txn_id` leaves all indexes usable.
    fn check_txn_consistency(&self, txn_id: TxnId) -> (r: Result<(), Error>)
        ensures
            r == match Self::poisoned(self.state(txn_id)) {
                Some(name) => Err::<(), Error>(Error::NonUniqueIndexKey(name)),
                None => Ok(()),
            },
    ;

    /// What the transaction `txn_id` has written to the singletons.
    fn singleton_events(&self, txn_id: TxnId) -> (r: Vec<Self::Notification>)
        requires
            self.wf(txn_id),
        ensures
            Self::reports_singletons(self.state(txn_id), r@),
    ;

    /// How the transaction `txn_id` has changed the tables.
    fn table_events(&self, txn_id: TxnId) -> (r: Vec<Self::Notification>)
        requires
            self.wf(txn_id),
        ensures
            Self::reports_tables(self.committed(txn_id), self.state(txn_id), r@),
    ;

    /// Apply all tables' transaction state to their permanent data.
    fn apply_txn(&mut self, txn_id: TxnId)
        requires
            old(self).wf(txn_id),
            Self::poisoned(old(self).state(txn_id)) is None,
            txn_id < TxnId::MAX,
        ensures
            final(self).wf(storage::following(txn_id)),
            final(self).committed(storage::following(txn_id)) == Self::settled(
                old(self).state(txn_id),
            ),
            final(self).state(storage::following(txn_id)) == Self::settled(
                old(self).state(txn_id),
            ),
    ;

    /// Delete any uncommitted per-transaction state associated with `txn_id` held in tables.
    fn gc_txn(&mut self, txn_id: TxnId)
        requires
            old(self).wf(txn_id),
        ensures
            final(self).wf(txn_id),
            final(self).committed(txn_id) == old(self).committed(txn_id),
            final(self).state(txn_id) == old(self).committed(txn_id),
    ;

    /// Commit a transaction by applying all tables' transaction state to their permanent data.
    ///
    /// This operation is atomic. I.e., it will only fail without any tables committed, and if it
    /// succeeds, then all tables have committed.
    fn commit_txn(
        &mut self,
        txn_id: TxnId,
        notifications: &mut Vec<Self::Notification>,
        subscriptions: &Subscriptions,
    ) -> (r: Result<(), Error>)
        requires
            old(self).wf(txn_id),
            txn_id < TxnId::MAX,
        ensures
            r == match Self::poisoned(old(self).state(txn_id)) {
                Some(name) => Err::<(), Error>(Error::NonUniqueIndexKey(name)),
                None => Ok(()),
            },
            r is Err ==> *final(self) == *old(self) && final(notifications)@ == old(
                notifications,
            )@,
            r is Ok ==> {
                &&& final(self).wf(storage::following(txn_id))
                &&& final(self).committed(storage::following(txn_id)) == Self::settled(
                    old(self).state(txn_id),
                )
                &&& final(self).state(storage::following(txn_id)) == Self::settled(
                    old(self).state(txn_id),
                )
                &&& old(notifications)@.is_prefix_of(final(notifications)@)
                &&& if subscriptions.any() {
                    exists|singles: Seq<Self::Notification>, tables: Seq<Self::Notification>|
                        {
                            &&& final(notifications)@ == old(notifications)@ + singles + tables
                            &&& #[trigger] Self::reports_singletons(
                                old(self).state(txn_id),
                                singles,
                            )
                            &&& #[trigger] Self::reports_tables(
                                old(self).committed(txn_id),
                                old(self).state(txn_id),
                                tables,
                            )
                        }
                } else {
                    final(notifications)@ == old(notifications)@
                }
            },
    {
        match self.check_txn_consistency(txn_id) {
            Ok(()) => {
                if subscriptions.has_subscribers() {
                    let mut singles = self.singleton_events(txn_id);
                    let mut tables = self.table_events(txn_id);
                    let ghost (a, b) = (singles@, tables@);
                    notifications.append(&mut singles);
                    notifications.append(&mut tables);
                    assert(Self::reports_singletons(old(self).state(txn_id), a));
                    assert(Self::reports_tables(
                        old(self).committed(txn_id),
                        old(self).state(txn_id),
                        b,
                    ));
                    assert(notifications@ == old(notifications)@ + a + b);
                }
                self.apply_txn(txn_id);
                Ok(())
            },
            Err(e) => Err(e),
        }
    }
}

/// A place in a list of tables and singletons, or of indexes.
pub trait Place: Sized {
    /// The number of places before this one.
    spec fn pos() -> int;
}

/// The first place of a list.
pub struct Here;

/// The place `P` of a list without its first place.
pub struct There<P> {
    place: PhantomData<P>,
}

impl Place for Here {
    open spec fn pos() -> int {
        0
    }
}

impl<P: Place> Place for There<P> {
    open spec fn pos() -> int {
        P::pos() + 1
    }
}

/// A storage which has the table `D` in the place `P`.
pub trait HasTable<D: RowDesc, P: Place>: GeneratedStorage {
    /// The table.
    spec fn table(self) -> Table<D>;

    /// The storage with another table in the place of this one.
    spec fn with_table(self, table: Table<D>) -> Self;

    /// What is visible of the table.
    spec fn table_state(state: Self::State) -> TableState<D>;

    /// The same with something else visible of the table.
    spec fn with_table_state(state: Self::State, table: TableState<D>) -> Self::State;

    /// What is visible of the table is part of what is visible of the storage.
    proof fn lemma_table(self, txn_id: TxnId)
        ensures
            Self::table_state(self.state(txn_id)) == self.table().state(txn_id),
            Self::table_state(self.committed(txn_id)) == self.table().state(
                storage::prior(txn_id),
            ),
            self.wf(txn_id) ==> self.table().wf(txn_id),
    ;

    /// Another table in the place of this one is visible in its place.
    proof fn lemma_with_table(self, table: Table<D>, txn_id: TxnId)
        ensures
            self.with_table(table).table() == table,
            self.with_table(table).state(txn_id) == Self::with_table_state(
                self.state(txn_id),
                table.state(txn_id),
            ),
            self.with_table(table).committed(txn_id) == Self::with_table_state(
                self.committed(txn_id),
                table.state(storage::prior(txn_id)),
            ),
            self.wf(txn_id) && table.wf(txn_id) ==> self.with_table(table).wf(txn_id),
    ;

    /// The table's state is one part of the whole state.
    proof fn lemma_table_state(state: Self::State, table: TableState<D>)
        ensures
            Self::table_state(Self::with_table_state(state, table)) == table,
            Self::with_table_state(state, Self::table_state(state)) == state,
            forall|other: TableState<D>| #[trigger]
                Self::with_table_state(Self::with_table_state(state, table), other)
                    == Self::with_table_state(state, other),
            Self::consistent(state) ==> Self::table_state(state).consistent(),
            Self::consistent(state) && table.consistent() ==> Self::consistent(
                Self::with_table_state(state, table),
            ),
            Self::poisoned(state) is None ==> Self::table_state(state).poisoned() is None
                && Self::poisoned(Self::with_table_state(state, table)) == table.poisoned(),
            Self::agree_except(state, Self::with_table_state(state, table), P::pos()),
            Self::table_state(Self::settled(state)) == Self::table_state(state).settled(),
            Self::table_state(Self::initial()) == TableState::<D>::empty(),
            Self::settled(Self::with_table_state(state, table)) == Self::with_table_state(
                Self::settled(state),
                table.settled(),
            ),
    ;

    /// A change in another place leaves the table as it is.
    proof fn lemma_elsewhere(a: Self::State, b: Self::State, pos: int)
        requires
            Self::agree_except(a, b, pos),
            pos != P::pos(),
        ensures
            Self::table_state(a) == Self::table_state(b),
    ;

    /// Get a reference to the table.
    fn get_table(&self) -> (r: &Table<D>)
        ensures
            *r == self.table(),
    ;

    /// Get a mutable reference to the table.
    fn table_mut(&mut self) -> (r: &mut Table<D>)
        ensures
            *r == old(self).table(),
            *final(self) == old(self).with_table(*final(r)),
    ;
}

/// A storage which has the singleton `S` in the place `P`.
pub trait HasSingleton<S: SingletonValue, P: Place>: GeneratedStorage {
    /// The singleton.
    spec fn single(self) -> VersionedValue<Option<S::Value>>;

    /// The storage with another singleton in the place of this one.
    spec fn with_single(self, single: VersionedValue<Option<S::Value>>) -> Self;

    /// What is visible of the singleton.
    spec fn single_state(state: Self::State) -> SingleState<S::Value>;

    /// The same with something else visible of the singleton.
    spec fn with_single_state(state: Self::State, value: SingleState<S::Value>) -> Self::State;

    /// What is visible of the singleton is part of what is visible of the storage.
    proof fn lemma_single(self, txn_id: TxnId)
        ensures
            Self::single_state(self.state(txn_id)) == visible(self.single(), txn_id),
            Self::single_state(self.committed(txn_id)) == visible(
                self.single(),
                storage::prior(txn_id),
            ).settled(),
            self.wf(txn_id) ==> self.single().wf(txn_id),
    ;

    /// Another singleton in the place of this one is visible in its place.
    proof fn lemma_with_single(self, single: VersionedValue<Option<S::Value>>, txn_id: TxnId)
        ensures
            self.with_single(single).single() == single,
            self.with_single(single).state(txn_id) == Self::with_single_state(
                self.state(txn_id),
                visible(single, txn_id),
            ),
            self.with_single(single).committed(txn_id) == Self::with_single_state(
                self.committed(txn_id),
                visible(single, storage::prior(txn_id)).settled(),
            ),
            self.wf(txn_id) && single.wf(txn_id) ==> self.with_single(single).wf(txn_id),
    ;

    /// The singleton's state is one part of the whole state.
    proof fn lemma_single_state(state: Self::State, value: SingleState<S::Value>)
        ensures
            Self::single_state(Self::with_single_state(state, value)) == value,
            Self::with_single_state(state, Self::single_state(state)) == state,
            forall|other: SingleState<S::Value>| #[trigger]
                Self::with_single_state(Self::with_single_state(state, value), other)
                    == Self::with_single_state(state, other),
            Self::consistent(state) ==> Self::consistent(Self::with_single_state(state, value)),
            Self::poisoned(Self::with_single_state(state, value)) == Self::poisoned(state),
            Self::agree_except(state, Self::with_single_state(state, value), P::pos()),
            Self::single_state(Self::settled(state)) == Self::single_state(state).settled(),
            Self::single_state(Self::initial()) == SingleState::<S::Value>::empty(),
            Self::settled(Self::with_single_state(state, value)) == Self::with_single_state(
                Self::settled(state),
                value.settled(),
            ),
    ;

    /// A change in another place leaves the singleton as it is.
    proof fn lemma_elsewhere_single(a: Self::State, b: Self::State, pos: int)
        requires
            Self::agree_except(a, b, pos),
            pos != P::pos(),
        ensures
            Self::single_state(a) == Self::single_state(b),
    ;

    /// Get a reference to the field storing the singleton.
    fn get_single(&self) -> (r: &VersionedValue<Option<S::Value>>)
        ensures
            *r == self.single(),
    ;

    /// Get a mutable reference to the field storing the singleton.
    fn single_mut(&mut self) -> (r: &mut VersionedValue<Option<S::Value>>)
        ensures
            *r == old(self).single(),
            *final(self) == old(self).with_single(*final(r)),
    ;
}

/// A storage which reports changes of the table `D` in the place `P`.
pub trait ReportsTable<D: Notifiable, P: Place>: HasTable<D, P> {
    /// The notification of an event of the table.
    spec fn notification(event: Event<D::Key, D::NotificationValue>) -> Self::Notification;

    /// Different events give different notifications.
    proof fn lemma_notification(
        a: Event<D::Key, D::NotificationValue>,
        b: Event<D::Key, D::NotificationValue>,
    )
        requires
            Self::notification(a) == Self::notification(b),
        ensures
            a == b,
    ;

    /// A row which has changed, or has been assigned, is reported, whatever else has changed.
    proof fn lemma_reported(
        before: Self::State,
        after: Self::State,
        events: Seq<Self::Notification>,
        key: D::Key,
    ) -> (r: (int, Event<D::Key, D::NotificationValue>))
        requires
            Self::reports_tables(before, after, events),
            Self::table_state(before).rows.get(key) != Self::table_state(after).rows.get(key)
                || Self::table_state(after).marks.get(key) == Some(Mark::Assigned)
                && Self::table_state(after).rows.contains_key(key),
        ensures
            0 <= r.0 < events.len(),
            events[r.0] == Self::notification(r.1),
            r.1.key == key,
    ;

    /// What is reported of a row is what the row is now. Only rows which were written are reported,
    /// and each once.
    proof fn lemma_report(
        before: Self::State,
        after: Self::State,
        events: Seq<Self::Notification>,
        i: int,
        event: Event<D::Key, D::NotificationValue>,
    )
        requires
            Self::reports_tables(before, after, events),
            0 <= i < events.len(),
            events[i] == Self::notification(event),
        ensures
            match event.value {
                Some(sent) => Self::table_state(after).rows.contains_key(event.key) && call_ensures(
                    D::clone_value_for_notification,
                    (&Self::table_state(after).rows[event.key],),
                    sent,
                ),
                None => !Self::table_state(after).rows.contains_key(event.key),
            },
            Self::table_state(after).marks.contains_key(event.key),
            match (
                Self::table_state(before).rows.get(event.key),
                Self::table_state(after).rows.get(event.key),
            ) {
                (Some(b), Some(a)) => Self::table_state(after).marks[event.key] == Mark::Assigned
                    || call_ensures(D::value_eq, (&b, &a), false),
                (None, None) => false,
                _ => true,
            },
            forall|j: int, other: Event<D::Key, D::NotificationValue>|
                0 <= j < events.len() && j != i && #[trigger] events[j]
                    == #[trigger] Self::notification(other) ==> other.key != event.key,
    ;

    /// Create a notification from an event.
    fn make_notification(event: Event<D::Key, D::NotificationValue>) -> (r: Self::Notification)
        ensures
            r == Self::notification(event),
    ;
}

/// A storage which reports changes of the singleton `S` in the place `P`.
pub trait ReportsSingleton<S: SingletonValue, P: Place>: HasSingleton<S, P> {
    /// The notification of an event of the singleton.
    spec fn single_notification(event: SingletonEvent<S::NotificationValue>) -> Self::Notification;

    /// A singleton which was written is reported once, with its value, whatever else was written.
    /// One which was not written is not reported.
    proof fn lemma_single_reported(after: Self::State, events: Seq<Self::Notification>) -> (r: (
        int,
        SingletonEvent<S::NotificationValue>,
    ))
        requires
            Self::reports_singletons(after, events),
        ensures
            Self::single_state(after).written ==> {
                &&& 0 <= r.0 < events.len()
                &&& events[r.0] == Self::single_notification(r.1)
                &&& match (r.1.value, Self::single_state(after).value) {
                    (Some(sent), Some(value)) => call_ensures(S::notif_value, (&value,), sent),
                    (None, None) => true,
                    _ => false,
                }
            },
            forall|i: int, event: SingletonEvent<S::NotificationValue>|
                0 <= i < events.len() && #[trigger] events[i]
                    == #[trigger] Self::single_notification(event) ==> Self::single_state(
                    after,
                ).written,
            forall|
                i: int,
                j: int,
                a: SingletonEvent<S::NotificationValue>,
                b: SingletonEvent<S::NotificationValue>,
            |
                0 <= i < events.len() && 0 <= j < events.len() && #[trigger] events[i]
                    == #[trigger] Self::single_notification(a) && #[trigger] events[j]
                    == #[trigger] Self::single_notification(b) ==> i == j,
    ;

    /// Create a notification from an event.
    fn make_single_notification(event: SingletonEvent<S::NotificationValue>) -> (r:
        Self::Notification)
        ensures
            r == Self::single_notification(event),
    ;
}

/// What is visible of a singleton at `txn_id`, and whether the transaction `txn_id` has written it.
pub open spec fn visible<T>(single: VersionedValue<Option<T>>, txn_id: TxnId) -> SingleState<T> {
    SingleState {
        value: match single.at(txn_id) {
            Some(value) => value,
            None => None,
        },
        written: single.modified(txn_id),
    }
}

/// Indexes which have the index `X` in the place `P`.
pub trait HasIndex<X: IndexKeys, P: Place>: IndexStorage<X::BaseKey, X::Row> {
    /// What is visible of the index.
    spec fn index_state(state: Self::State) -> IndexState<X::Key, X::BaseKey>;

    /// The index has its entries and is consistent and poisoned together with the others.
    proof fn lemma_index(state: Self::State, rows: Map<X::BaseKey, X::Row>)
        ensures
            Self::key_model() ==> storage::key_model::<X::Key>(),
            Self::consistent(state, rows) ==> Self::index_state(state).is_index_of::<X>(rows),
            Self::poisoned(state) is None ==> !Self::index_state(state).poisoned,
            Self::index_state(Self::empty()) == IndexState::<X::Key, X::BaseKey>::empty(),
            forall|key: X::BaseKey, row: X::Row| #[trigger]
                Self::index_state(Self::inserted(state, key, row)) == Self::index_state(
                    state,
                ).insert(X::keys(row), key),
            forall|row: X::Row| #[trigger]
                Self::index_state(Self::removed(state, row)) == Self::index_state(state).remove(
                    X::keys(row),
                ),
            forall|before: Self::State| #[trigger]
                Self::poison_justified(before, state, rows) && Self::consistent(state, rows) ==> (
                Self::index_state(state).poisoned <==> Self::index_state(before).poisoned
                    || !index_table::unique::<X>(rows)),
    ;

    /// Get a reference to the index.
    fn get_index(&self) -> (r: &IndexTable<X>)
        ensures
            forall|t: TxnId| #[trigger] r.state(t) == Self::index_state(self.state(t)),
    ;
}

/// What is visible of the tables and singletons of a store with the storage `S` at some point.
pub type StateOf<S> = <S as GeneratedStorage>::State;

/// Describes tabular key/values in the store.
pub trait TableDesc: RowDesc {
    /// The storage for the table.
    type Storage: HasTable<Self, Self::Place>;
    /// The place of the table in the storage.
    type Place: Place;

    /// Get a reference to the table in storage.
    fn get_table(storage: &Self::Storage) -> (r: &Table<Self>)
        ensures
            *r == <Self::Storage as HasTable<Self, Self::Place>>::table(*storage),
    {
        storage.get_table()
    }

    /// Get a mutable reference to the table in storage.
    fn table_mut(storage: &mut Self::Storage) -> (r: &mut Table<Self>)
        ensures
            *r == <Self::Storage as HasTable<Self, Self::Place>>::table(*old(storage)),
            *final(storage) == <Self::Storage as HasTable<Self, Self::Place>>::with_table(
                *old(storage),
                *final(r),
            ),
    {
        storage.table_mut()
    }
}

/// The table `D` in storage.
pub open spec fn stored<D: TableDesc>(storage: D::Storage) -> Table<D> {
    <D::Storage as HasTable<D, D::Place>>::table(storage)
}

/// The storage with another table in the place of `D`.
pub open spec fn with_stored<D: TableDesc>(storage: D::Storage, table: Table<D>) -> D::Storage {
    <D::Storage as HasTable<D, D::Place>>::with_table(storage, table)
}

/// What is visible of the table `D` is part of what is visible of the storage.
pub proof fn lemma_stored<D: TableDesc>(storage: D::Storage, txn_id: TxnId)
    ensures
        state_of::<D>(storage.state(txn_id)) == stored::<D>(storage).state(txn_id),
        state_of::<D>(storage.committed(txn_id)) == stored::<D>(storage).state(
            storage::prior(txn_id),
        ),
        storage.wf(txn_id) ==> stored::<D>(storage).wf(txn_id),
{
    <D::Storage as HasTable<D, D::Place>>::lemma_table(storage, txn_id);
}

/// Another table in the place of `D` is visible in its place.
pub proof fn lemma_with_stored<D: TableDesc>(storage: D::Storage, table: Table<D>, txn_id: TxnId)
    ensures
        stored::<D>(with_stored::<D>(storage, table)) == table,
        with_stored::<D>(storage, table).state(txn_id) == with_state::<D>(
            storage.state(txn_id),
            table.state(txn_id),
        ),
        with_stored::<D>(storage, table).committed(txn_id) == with_state::<D>(
            storage.committed(txn_id),
            table.state(storage::prior(txn_id)),
        ),
        storage.wf(txn_id) && table.wf(txn_id) ==> with_stored::<D>(storage, table).wf(txn_id),
{
    <D::Storage as HasTable<D, D::Place>>::lemma_with_table(storage, table, txn_id);
}

/// What is visible of the table `D`.
pub open spec fn state_of<D: TableDesc>(state: StateOf<D::Storage>) -> TableState<D> {
    <D::Storage as HasTable<D, D::Place>>::table_state(state)
}

/// The same with something else visible of the table `D`.
pub open spec fn with_state<D: TableDesc>(
    state: StateOf<D::Storage>,
    table: TableState<D>,
) -> StateOf<D::Storage> {
    <D::Storage as HasTable<D, D::Place>>::with_table_state(state, table)
}

/// The state of the table `D` is one part of the whole state.
pub proof fn lemma_state<D: TableDesc>(state: StateOf<D::Storage>, table: TableState<D>)
    ensures
        state_of::<D>(with_state::<D>(state, table)) == table,
        with_state::<D>(state, state_of::<D>(state)) == state,
        forall|other: TableState<D>| #[trigger]
            with_state::<D>(with_state::<D>(state, table), other) == with_state::<D>(state, other),
        <D::Storage>::consistent(state) ==> state_of::<D>(state).consistent(),
        <D::Storage>::consistent(state) && table.consistent() ==> <D::Storage>::consistent(
            with_state::<D>(state, table),
        ),
        <D::Storage>::poisoned(state) is None ==> state_of::<D>(state).poisoned() is None
            && <D::Storage>::poisoned(with_state::<D>(state, table)) == table.poisoned(),
        <D::Storage>::agree_except(state, with_state::<D>(state, table), <D::Place>::pos()),
        state_of::<D>(<D::Storage>::settled(state)) == state_of::<D>(state).settled(),
        state_of::<D>(<D::Storage>::initial()) == TableState::<D>::empty(),
        <D::Storage>::settled(with_state::<D>(state, table)) == with_state::<D>(
            <D::Storage>::settled(state),
            table.settled(),
        ),
{
    <D::Storage as HasTable<D, D::Place>>::lemma_table_state(state, table);
}

/// A change in another place leaves the table `D` as it is.
pub proof fn lemma_elsewhere<D: TableDesc>(
    a: StateOf<D::Storage>,
    b: StateOf<D::Storage>,
    pos: int,
)
    requires
        <D::Storage>::agree_except(a, b, pos),
        pos != <D::Place>::pos(),
    ensures
        state_of::<D>(a) == state_of::<D>(b),
{
    <D::Storage as HasTable<D, D::Place>>::lemma_elsewhere(a, b, pos);
}

/// A singleton key/value.
pub trait SingletonDesc: SingletonValue {
    /// The storage for this singleton KV.
    type Storage: HasSingleton<Self, Self::Place>;
    /// The place of the singleton in the storage.
    type Place: Place;

    /// Get a reference to the field storing this singleton in `storage`.
    fn get_ref(storage: &Self::Storage) -> (r: &VersionedValue<Option<Self::Value>>)
        ensures
            *r == <Self::Storage as HasSingleton<Self, Self::Place>>::single(*storage),
    {
        storage.get_single()
    }

    /// Get a mutable reference to the field storing this singleton in `storage`.
    fn get_mut(storage: &mut Self::Storage) -> (r: &mut VersionedValue<Option<Self::Value>>)
        ensures
            *r == <Self::Storage as HasSingleton<Self, Self::Place>>::single(*old(storage)),
            *final(storage) == <Self::Storage as HasSingleton<Self, Self::Place>>::with_single(
                *old(storage),
                *final(r),
            ),
    {
        storage.single_mut()
    }

    /// Get the notification value of the singleton in `storage`, if it has a value.
    fn get_cloned(storage: &Self::Storage, txn_id: TxnId) -> (r: Option<Self::NotificationValue>)
        ensures
            match visible(
                <Self::Storage as HasSingleton<Self, Self::Place>>::single(*storage),
                txn_id,
            ).value {
                Some(value) => r matches Some(sent) && call_ensures(
                    Self::notif_value,
                    (&value,),
                    sent,
                ),
                None => r is None,
            },
    {
        match Self::get_ref(storage).get(txn_id) {
            Some(Some(value)) => Some(Self::notif_value(value)),
            _ => None,
        }
    }
}

/// The singleton `D` in storage.
pub open spec fn stored_single<D: SingletonDesc>(storage: D::Storage) -> VersionedValue<
    Option<D::Value>,
> {
    <D::Storage as HasSingleton<D, D::Place>>::single(storage)
}

/// The storage with another singleton in the place of `D`.
pub open spec fn with_stored_single<D: SingletonDesc>(
    storage: D::Storage,
    single: VersionedValue<Option<D::Value>>,
) -> D::Storage {
    <D::Storage as HasSingleton<D, D::Place>>::with_single(storage, single)
}

/// What is visible of the singleton `D` is part of what is visible of the storage.
pub proof fn lemma_stored_single<D: SingletonDesc>(storage: D::Storage, txn_id: TxnId)
    ensures
        single_of::<D>(storage.state(txn_id)) == visible(stored_single::<D>(storage), txn_id),
        single_of::<D>(storage.committed(txn_id)) == visible(
            stored_single::<D>(storage),
            storage::prior(txn_id),
        ).settled(),
        storage.wf(txn_id) ==> stored_single::<D>(storage).wf(txn_id),
{
    <D::Storage as HasSingleton<D, D::Place>>::lemma_single(storage, txn_id);
}

/// Another singleton in the place of `D` is visible in its place.
pub proof fn lemma_with_stored_single<D: SingletonDesc>(
    storage: D::Storage,
    single: VersionedValue<Option<D::Value>>,
    txn_id: TxnId,
)
    ensures
        stored_single::<D>(with_stored_single::<D>(storage, single)) == single,
        with_stored_single::<D>(storage, single).state(txn_id) == with_single::<D>(
            storage.state(txn_id),
            visible(single, txn_id),
        ),
        with_stored_single::<D>(storage, single).committed(txn_id) == with_single::<D>(
            storage.committed(txn_id),
            visible(single, storage::prior(txn_id)).settled(),
        ),
        storage.wf(txn_id) && single.wf(txn_id) ==> with_stored_single::<D>(storage, single).wf(
            txn_id,
        ),
{
    <D::Storage as HasSingleton<D, D::Place>>::lemma_with_single(storage, single, txn_id);
}

/// What is visible of the singleton `D`.
pub open spec fn single_of<D: SingletonDesc>(state: StateOf<D::Storage>) -> SingleState<
    D::Value,
> {
    <D::Storage as HasSingleton<D, D::Place>>::single_state(state)
}

/// The same with something else visible of the singleton `D`.
pub open spec fn with_single<D: SingletonDesc>(
    state: StateOf<D::Storage>,
    value: SingleState<D::Value>,
) -> StateOf<D::Storage> {
    <D::Storage as HasSingleton<D, D::Place>>::with_single_state(state, value)
}

/// The state of the singleton `D` is one part of the whole state.
pub proof fn lemma_single<D: SingletonDesc>(
    state: StateOf<D::Storage>,
    value: SingleState<D::Value>,
)
    ensures
        single_of::<D>(with_single::<D>(state, value)) == value,
        with_single::<D>(state, single_of::<D>(state)) == state,
        forall|other: SingleState<D::Value>| #[trigger]
            with_single::<D>(with_single::<D>(state, value), other) == with_single::<D>(
                state,
                other,
            ),
        <D::Storage>::consistent(state) ==> <D::Storage>::consistent(
            with_single::<D>(state, value),
        ),
        <D::Storage>::poisoned(with_single::<D>(state, value)) == <D::Storage>::poisoned(state),
        <D::Storage>::agree_except(state, with_single::<D>(state, value), <D::Place>::pos()),
        single_of::<D>(<D::Storage>::settled(state)) == single_of::<D>(state).settled(),
        single_of::<D>(<D::Storage>::initial()) == SingleState::<D::Value>::empty(),
        <D::Storage>::settled(with_single::<D>(state, value)) == with_single::<D>(
            <D::Storage>::settled(state),
            value.settled(),
        ),
{
    <D::Storage as HasSingleton<D, D::Place>>::lemma_single_state(state, value);
}

/// A change in another place leaves the singleton `D` as it is.
pub proof fn lemma_elsewhere_single<D: SingletonDesc>(
    a: StateOf<D::Storage>,
    b: StateOf<D::Storage>,
    pos: int,
)
    requires
        <D::Storage>::agree_except(a, b, pos),
        pos != <D::Place>::pos(),
    ensures
        single_of::<D>(a) == single_of::<D>(b),
{
    <D::Storage as HasSingleton<D, D::Place>>::lemma_elsewhere_single(a, b, pos);
}

/// Describes a table used as an index.
///
/// An index table is stored within its base table. The index table's values are keys of the base
/// table.
pub trait IndexDesc: IndexKeys {
    /// The table which is indexed.
    type BaseTable: TableDesc<
        Key = Self::BaseKey,
        Value = Self::Row,
        IndexStorage: HasIndex<Self, Self::Place>,
    > + Notifiable;
    /// The place of the index among the indexes of the base table.
    type Place: Place;

    /// Get a reference to this index table from its base table.
    fn index(base: &Table<Self::BaseTable>) -> (r: &IndexTable<Self>)
        ensures
            forall|t: TxnId| #[trigger]
                r.state(t) == <IndexesOf<Self> as HasIndex<Self, Self::Place>>::index_state(
                    base.state(t).indexes,
                ),
    {
        base.indexes().get_index()
    }
}

/// The indexes of the base table of the index `X`.
pub type IndexesOf<X> = <<X as IndexDesc>::BaseTable as RowDesc>::IndexStorage;

/// What is visible of the index `X` of its base table.
pub open spec fn index_state<X: IndexDesc>(base: TableState<X::BaseTable>) -> IndexState<
    X::Key,
    X::BaseKey,
> {
    <IndexesOf<X> as HasIndex<X, X::Place>>::index_state(base.indexes)
}

/// The index `X` is one of the indexes of the base table: it has its entries, and is consistent
/// and poisoned together with them.
pub proof fn lemma_index<X: IndexDesc>(state: TableState<X::BaseTable>)
    ensures
        <IndexesOf<X>>::key_model() ==> storage::key_model::<X::Key>(),
        state.consistent() ==> index_state::<X>(state).is_index_of::<X>(state.rows),
        state.poisoned() is None ==> !index_state::<X>(state).poisoned,
        index_state::<X>(TableState::empty()) == IndexState::<X::Key, X::BaseKey>::empty(),
        forall|key: X::BaseKey, row: X::Row| #[trigger]
            index_state::<X>(state.insert(key, row)) == index_state::<X>(state.remove(key)).insert(
                X::keys(row),
                key,
            ),
        forall|key: X::BaseKey|
            state.rows.contains_key(key) ==> #[trigger] index_state::<X>(state.remove(key))
                == index_state::<X>(state).remove(X::keys(state.rows[key])),
        forall|before: TableState<X::BaseTable>| #[trigger]
            before.leads_to(state) ==> (index_state::<X>(state).poisoned <==> index_state::<X>(
                before,
            ).poisoned || !index_table::unique::<X>(state.rows)),
{
    <IndexesOf<X> as HasIndex<X, X::Place>>::lemma_index(state.indexes, state.rows);
    assert forall|key: X::BaseKey, row: X::Row| #[trigger]
        index_state::<X>(state.insert(key, row)) == index_state::<X>(state.remove(key)).insert(
            X::keys(row),
            key,
        ) by {
        let without = state.remove(key);
        <IndexesOf<X> as HasIndex<X, X::Place>>::lemma_index(without.indexes, without.rows);
    }
}

/// A table with indexes.
pub trait Indexable: TableDesc {
    /// Access to each of the table's indexes.
    type Indexes<'store>: From<&'store mut KvStore<Self::Storage>>;

    /// The owner-carrying counterpart of [`Self::Indexes`].
    type IndexesWithOwner<'store>: From<(&'store mut KvStore<Self::Storage>, Owner)>;

    /// The transactional counterpart of [`Self::Indexes`].
    type TransactionIndexes<'guard>: From<TableTransaction<'guard, Self>>;

    /// The read-only transactional counterpart of [`Self::Indexes`].
    type RoTransactionIndexes<'guard>: From<RoTableTransaction<'guard, Self>>;
}

/// Implemented by the stores of a schema.
pub trait GeneratedStore<S: GeneratedStorage>: Sized {
    /// The underlying store.
    spec fn kv_store(&self) -> KvStore<S>;

    /// Get a reference to the underlying store.
    fn store(&self) -> (r: &KvStore<S>)
        ensures
            *r == self.kv_store(),
    ;

    /// Get a mutable reference to the underlying store.
    fn store_mut(&mut self) -> (r: &mut KvStore<S>)
        ensures
            *r == old(self).kv_store(),
            final(self).kv_store() == *final(r),
    ;
}

} // verus!
