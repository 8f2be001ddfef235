//! The key-value store, and its transactions.

use crate::error::Error;
use crate::operations::{SingletonRef, TableRef};
use crate::owner::Owner;
use crate::pub_sub::{Subscriber, Subscription, Subscriptions};
use crate::schema;
use crate::schema::{GeneratedStorage, SingletonDesc, TableDesc};
use crate::storage;
use crate::storage::TxnId;
use crate::transactions::{
    RoSingletonTransaction, RoTableTransaction, SingletonTransaction, TableTransaction,
};
use vstd::prelude::*;

verus! {

/// A key-value store.
///
/// What a store holds is what has been committed to it: see its view.
#[verifier::reject_recursive_types(S)]
pub struct KvStore<S: GeneratedStorage> {
    tables: S,
    /// The id of the next transaction, or of the one in progress.
    next: TxnId,
    subscriptions: Subscriptions,
    /// Notifications which have not been sent yet.
    pending: Vec<S::Notification>,
}

impl<S: GeneratedStorage> View for KvStore<S> {
    type V = S::State;

    /// The committed state.
    closed spec fn view(&self) -> S::State {
        self.tables.committed(self.next)
    }
}

impl<S: GeneratedStorage> KvStore<S> {
    /// The state as the transaction in progress sees it.
    pub closed spec fn working(&self) -> S::State {
        self.tables.state(self.next)
    }

    /// How many more transactions there can be.
    pub closed spec fn txns_left(&self) -> nat {
        (TxnId::MAX - self.next) as nat
    }

    /// Who is subscribed to the store.
    pub closed spec fn subscriptions(&self) -> Subscriptions {
        self.subscriptions
    }

    /// The notifications which have not been sent yet.
    pub closed spec fn pending(&self) -> Seq<S::Notification> {
        self.pending@
    }

    /// The indexes of each table are those of its rows, in the committed state and as the
    /// transaction in progress sees them, and no index of the committed state is poisoned.
    pub closed spec fn wf(&self) -> bool {
        self.tables.wf(self.next) && self.subscriptions.wf()
    }

    /// `after` differs from this store at most in what a transaction in progress sees.
    pub open spec fn unchanged(self, after: Self) -> bool {
        &&& after.wf()
        &&& after@ == self@
        &&& after.subscriptions() == self.subscriptions()
        &&& after.pending() == self.pending()
        &&& after.txns_left() == self.txns_left()
    }

    /// Whether `events` report how a transaction came from the state `before` to the state
    /// `after`: first what it has written to the singletons, then how it has changed the tables.
    pub open spec fn reports(
        before: S::State,
        after: S::State,
        events: Seq<S::Notification>,
    ) -> bool {
        exists|singles: Seq<S::Notification>, tables: Seq<S::Notification>|
            {
                &&& events == singles + tables
                &&& #[trigger] S::reports_singletons(after, singles)
                &&& #[trigger] S::reports_tables(before, after, tables)
            }
    }

    /// `after` is this store after a transaction which led to `state`.
    pub open spec fn stepped(self, after: Self, state: S::State) -> bool {
        &&& after.wf()
        &&& after@ == S::settled(state)
        &&& after.subscriptions() == self.subscriptions()
        &&& self.pending().is_prefix_of(after.pending())
        &&& if self.subscriptions().any() {
            Self::reports(self@, state, after.pending().skip(self.pending().len() as int))
        } else {
            after.pending() == self.pending()
        }
        &&& after.txns_left() == self.txns_left() - 1
    }

    /// The indexes of each table are always those of its rows, and no index of the committed
    /// state is poisoned.
    pub proof fn lemma_wf(&self)
        requires
            self.wf(),
        ensures
            S::key_model(),
            S::consistent(self@),
            S::poisoned(self@) is None,
            S::settled(self@) == self@,
            S::consistent(self.working()),
            self.subscriptions().wf(),
    {
        self.tables.lemma_wf(self.next);
    }

    /// Create a new, empty KV store.
    pub fn new() -> (r: Self)
        requires
            S::key_model(),
        ensures
            r.wf(),
            r@ == S::initial(),
            r.subscriptions().registered() == Set::<Subscriber>::empty(),
            r.subscriptions().global() == Seq::<(Subscription, Subscriber)>::empty(),
            r.subscriptions().capacity() == u64::MAX,
            forall|s: Subscriber| !#[trigger] r.subscriptions().issued(s),
            r.pending() == Seq::<S::Notification>::empty(),
            r.txns_left() == TxnId::MAX - 1,
    {
        let r = KvStore {
            tables: S::new(),
            next: 1,
            subscriptions: Subscriptions::new(),
            pending: Vec::new(),
        };
        assert(r.pending() =~= Seq::<S::Notification>::empty());
        r
    }

    /// Whether there can be another transaction.
    pub fn has_txns_left(&self) -> (r: bool)
        ensures
            r <==> self.txns_left() > 0,
    {
        self.next < TxnId::MAX
    }

    /// Start a transaction.
    pub fn begin_transaction(&mut self, owner: Owner) -> (r: Transaction<'_, S>)
        requires
            old(self).wf(),
        ensures
            *final(r.store) == *final(self),
            old(self).unchanged(*r.store),
            r.state() == old(self)@,
            r.owner == owner,
    {
        self.tables.gc_txn(self.next);
        Transaction { store: self, owner }
    }

    /// Start a read-only transaction (i.e., only supports non-mutating access to the store).
    pub fn begin_ro_transaction(&self, owner: Owner) -> (r: RoTransaction<'_, S>)
        ensures
            *r.store == *self,
            r.owner == owner,
    {
        RoTransaction { store: self, owner }
    }

    /// Access a table in the committed state.
    pub fn table_ref<D: TableDesc<Storage = S>>(&self) -> (r: TableRef<'_, D>)
        requires
            self.wf(),
        ensures
            r.wf(),
            r.state() == schema::state_of::<D>(self@),
    {
        proof {
            self.lemma_wf();
            schema::lemma_stored::<D>(self.tables, self.next);
            self.tables.lemma_wf(self.next);
        }
        TableRef::new(D::get_table(&self.tables), self.next - 1)
    }

    /// Access a singleton in the committed state.
    pub fn singleton_ref<D: SingletonDesc<Storage = S>>(&self) -> (r: SingletonRef<'_, D>)
        requires
            self.wf(),
        ensures
            r.state() == schema::single_of::<D>(self@).value,
    {
        proof {
            schema::lemma_stored_single::<D>(self.tables, self.next);
            self.tables.lemma_wf(self.next);
        }
        SingletonRef::new(D::get_ref(&self.tables), self.next - 1)
    }

    /// Whether there can be another subscriber or subscription.
    pub fn has_capacity(&self) -> (r: bool)
        ensures
            r <==> self.subscriptions().capacity() > 0,
    {
        self.subscriptions.has_capacity()
    }

    /// Register a new subscriber to the store.
    ///
    /// Does not create any subscriptions.
    pub fn register_subscriber(&mut self) -> (r: Subscriber)
        requires
            old(self).wf(),
            old(self).subscriptions().capacity() > 0,
        ensures
            final(self).wf(),
            final(self)@ == old(self)@,
            final(self).pending() == old(self).pending(),
            final(self).txns_left() == old(self).txns_left(),
            !old(self).subscriptions().issued(r),
            final(self).subscriptions().registered() == old(self).subscriptions().registered().insert(
                r,
            ),
            final(self).subscriptions().global() == old(self).subscriptions().global(),
            forall|s: Subscriber| #[trigger]
                final(self).subscriptions().issued(s) <==> old(self).subscriptions().issued(s) || s
                    == r,
            final(self).subscriptions().capacity() >= old(self).subscriptions().capacity() - 1,
    {
        self.subscriptions.register_subscriber()
    }

    /// Remove a subscriber from the store, along with all of its subscriptions.
    ///
    /// The subscriber receives no further notifications and cannot subscribe again (subscribing
    /// with a removed subscriber gives [`Error::UnknownSubscriber`]). Unsubscribing any of its
    /// subscriptions is harmless but pointless.
    ///
    /// Does nothing if the subscriber is unknown (e.g., because it has already been removed).
    pub fn remove_subscriber(&mut self, subscriber: Subscriber)
        requires
            old(self).wf(),
        ensures
            final(self).wf(),
            final(self)@ == old(self)@,
            final(self).pending() == old(self).pending(),
            final(self).txns_left() == old(self).txns_left(),
            final(self).subscriptions().registered() == old(self).subscriptions().registered().remove(
                subscriber,
            ),
            final(self).subscriptions().global() == old(self).subscriptions().global().filter(
                |s: (Subscription, Subscriber)| s.1 != subscriber,
            ),
            !final(self).subscriptions().notifies(subscriber),
            !old(self).subscriptions().registered().contains(subscriber)
                ==> final(self).subscriptions().global() == old(self).subscriptions().global(),
            forall|s: Subscriber| #[trigger]
                final(self).subscriptions().issued(s) <==> old(self).subscriptions().issued(s),
            final(self).subscriptions().capacity() == old(self).subscriptions().capacity(),
    {
        self.subscriptions.remove_subscriber(subscriber)
    }

    /// Subscribe to the whole store.
    pub fn subscribe_global(&mut self, subscriber: Subscriber) -> (r: Result<Subscription, Error>)
        requires
            old(self).wf(),
            old(self).subscriptions().capacity() > 0,
        ensures
            final(self).wf(),
            final(self)@ == old(self)@,
            final(self).pending() == old(self).pending(),
            final(self).txns_left() == old(self).txns_left(),
            r is Ok <==> old(self).subscriptions().registered().contains(subscriber),
            r is Err ==> {
                &&& r == Err::<Subscription, Error>(Error::UnknownSubscriber)
                &&& final(self).subscriptions() == old(self).subscriptions()
            },
            r matches Ok(subscription) ==> {
                &&& final(self).subscriptions().global() == old(self).subscriptions().global().push(
                    (subscription, subscriber),
                )
                &&& final(self).subscriptions().registered() == old(
                    self,
                ).subscriptions().registered()
                &&& final(self).subscriptions().notifies(subscriber)
                &&& forall|i: int|
                    0 <= i < old(self).subscriptions().global().len() ==> (
                    #[trigger] old(self).subscriptions().global()[i]).0 != subscription
            },
            forall|s: Subscriber| #[trigger]
                final(self).subscriptions().issued(s) <==> old(self).subscriptions().issued(s),
            final(self).subscriptions().capacity() >= old(self).subscriptions().capacity() - 1,
    {
        self.subscriptions.subscribe_global(subscriber)
    }

    /// Remove a subscription to the whole store.
    pub fn unsubscribe_global(&mut self, subscription: Subscription)
        requires
            old(self).wf(),
        ensures
            final(self).wf(),
            final(self)@ == old(self)@,
            final(self).pending() == old(self).pending(),
            final(self).txns_left() == old(self).txns_left(),
            final(self).subscriptions().registered() == old(self).subscriptions().registered(),
            final(self).subscriptions().global() == old(self).subscriptions().global().filter(
                |s: (Subscription, Subscriber)| s.0 != subscription,
            ),
            (forall|i: int|
                0 <= i < old(self).subscriptions().global().len() ==> (
                #[trigger] old(self).subscriptions().global()[i]).0 != subscription)
                ==> final(self).subscriptions().global() == old(self).subscriptions().global(),
            forall|s: Subscriber| #[trigger]
                final(self).subscriptions().issued(s) <==> old(self).subscriptions().issued(s),
            final(self).subscriptions().capacity() == old(self).subscriptions().capacity(),
    {
        self.subscriptions.unsubscribe_global(subscription)
    }

    /// Take the notifications which have not been sent yet.
    pub fn take_notifications(&mut self) -> (r: Vec<S::Notification>)
        requires
            old(self).wf(),
        ensures
            r@ == old(self).pending(),
            final(self).pending() == Seq::<S::Notification>::empty(),
            final(self).wf(),
            final(self)@ == old(self)@,
            final(self).subscriptions() == old(self).subscriptions(),
            final(self).txns_left() == old(self).txns_left(),
    {
        let mut pending: Vec<S::Notification> = Vec::new();
        std::mem::swap(&mut pending, &mut self.pending);
        assert(self.pending() =~= Seq::<S::Notification>::empty());
        pending
    }
}

/// A transaction: changes to a store which are committed all together, or not at all.
///
/// Dropping a transaction rolls it back: nothing of it is part of the committed state.
#[verifier::reject_recursive_types(S)]
pub struct Transaction<'a, S: GeneratedStorage> {
    pub store: &'a mut KvStore<S>,
    pub owner: Owner,
}

impl<'a, S: GeneratedStorage> Transaction<'a, S> {
    /// The state as the transaction sees it.
    pub open spec fn state(&self) -> S::State {
        self.store.working()
    }

    /// The store is well-formed.
    pub open spec fn wf(&self) -> bool {
        self.store.wf()
    }

    /// Access a table within the transaction.
    pub fn table<D: TableDesc<Storage = S>>(&mut self) -> (r: TableTransaction<'_, D>)
        requires
            old(self).wf(),
        ensures
            r.wf(),
            r.state() == schema::state_of::<D>(old(self).state()),
            r.committed() == schema::state_of::<D>(old(self).store@),
            r.owner == old(self).owner,
            final(self).owner == old(self).owner,
            *final(final(self).store) == *final(old(self).store),
            final(r.table).wf(r.txn_id) && final(r.table).state(storage::prior(r.txn_id))
                == r.committed() ==> {
                &&& old(self).store.unchanged(*final(self).store)
                &&& final(self).state() == schema::with_state::<D>(
                    old(self).state(),
                    final(r.table).state(r.txn_id),
                )
            },
    {
        let txn_id = self.store.next;
        let ghost tables = self.store.tables;
        proof {
            tables.lemma_wf(txn_id);
            schema::lemma_stored::<D>(tables, txn_id);
            schema::lemma_state::<D>(
                tables.committed(txn_id),
                schema::stored::<D>(tables).state(txn_id),
            );
        }
        let table = D::table_mut(&mut self.store.tables);
        proof {
            schema::lemma_with_stored::<D>(tables, *final(table), txn_id);
        }
        TableTransaction { table, txn_id, owner: self.owner }
    }

    /// Access a singleton within the transaction.
    pub fn singleton<D: SingletonDesc<Storage = S>>(&mut self) -> (r: SingletonTransaction<'_, D>)
        requires
            old(self).wf(),
        ensures
            r.wf(),
            r.state() == schema::single_of::<D>(old(self).state()).value,
            r.committed() == schema::single_of::<D>(old(self).store@).value,
            r.owner == old(self).owner,
            final(self).owner == old(self).owner,
            *final(final(self).store) == *final(old(self).store),
            final(r.value).wf(r.txn_id) && schema::visible(
                *final(r.value),
                storage::prior(r.txn_id),
            ).value == r.committed() ==> {
                &&& old(self).store.unchanged(*final(self).store)
                &&& final(self).state() == schema::with_single::<D>(
                    old(self).state(),
                    schema::visible(*final(r.value), r.txn_id),
                )
            },
    {
        let txn_id = self.store.next;
        let ghost tables = self.store.tables;
        proof {
            tables.lemma_wf(txn_id);
            schema::lemma_stored_single::<D>(tables, txn_id);
            schema::lemma_single::<D>(
                tables.committed(txn_id),
                schema::visible(schema::stored_single::<D>(tables), txn_id),
            );
        }
        let value = D::get_mut(&mut self.store.tables);
        proof {
            schema::lemma_with_stored_single::<D>(tables, *final(value), txn_id);
        }
        SingletonTransaction { value, txn_id, owner: self.owner }
    }

    /// Commit the transaction.
    ///
    /// Fails, and changes nothing, if an index key does not identify a row.
    pub fn commit(self) -> (r: Result<(), Error>)
        requires
            self.wf(),
            self.store.txns_left() > 0,
        ensures
            r == match S::poisoned(self.state()) {
                Some(name) => Err::<(), Error>(Error::NonUniqueIndexKey(name)),
                None => Ok(()),
            },
            r is Err ==> old(self.store).unchanged(*final(self.store)),
            r is Ok ==> old(self.store).stepped(*final(self.store), self.state()),
    {
        let txn_id = self.store.next;
        let store = self.store;
        let r = store.tables.commit_txn(txn_id, &mut store.pending, &store.subscriptions);
        match r {
            Ok(()) => {
                store.next = txn_id + 1;
                assert(old(self.store).subscriptions().any() ==> KvStore::<S>::reports(
                    old(self.store)@,
                    self.state(),
                    store.pending().skip(old(self.store).pending().len() as int),
                )) by {
                    if old(self.store).subscriptions().any() {
                        let before = old(self.store).tables;
                        let (singles, tables) = choose|
                            singles: Seq<S::Notification>,
                            tables: Seq<S::Notification>,
                        |
                            {
                                &&& store.pending@ == old(self.store).pending@ + singles + tables
                                &&& #[trigger] S::reports_singletons(before.state(txn_id), singles)
                                &&& #[trigger] S::reports_tables(
                                    before.committed(txn_id),
                                    before.state(txn_id),
                                    tables,
                                )
                            };
                        assert(store.pending@.skip(old(self.store).pending@.len() as int)
                            =~= singles + tables);
                    }
                }
            },
            Err(_) => {
                store.tables.gc_txn(txn_id);
            },
        }
        r
    }

    /// Roll back the transaction.
    pub fn rollback(self)
        requires
            self.wf(),
        ensures
            old(self.store).unchanged(*final(self.store)),
    {
        self.store.tables.gc_txn(self.store.next);
    }
}

/// A read-only transaction: it sees the committed state.
#[verifier::reject_recursive_types(S)]
pub struct RoTransaction<'a, S: GeneratedStorage> {
    pub store: &'a KvStore<S>,
    pub owner: Owner,
}

impl<'a, S: GeneratedStorage> RoTransaction<'a, S> {
    /// Access a table within the transaction.
    pub fn table<D: TableDesc<Storage = S>>(&self) -> (r: RoTableTransaction<'a, D>)
        requires
            self.store.wf(),
        ensures
            r.wf(),
            r.state() == schema::state_of::<D>(self.store@),
    {
        RoTableTransaction { table: self.store.table_ref() }
    }

    /// Access a singleton within the transaction.
    pub fn singleton<D: SingletonDesc<Storage = S>>(&self) -> (r: RoSingletonTransaction<'a, D>)
        requires
            self.store.wf(),
        ensures
            r.state() == schema::single_of::<D>(self.store@).value,
    {
        RoSingletonTransaction { value: self.store.singleton_ref() }
    }

    /// End the transaction.
    pub fn commit(self) -> (r: Result<(), Error>)
        ensures
            r is Ok,
    {
        Ok(())
    }

    /// End the transaction.
    pub fn rollback(self) {
    }
}

} // verus!
