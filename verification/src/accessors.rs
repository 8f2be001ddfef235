//! Access to tables and singletons outside of transactions.

use crate::error::Error;
use crate::events::SingleState;
use crate::iter;
use crate::iter::TableIterMut;
use crate::operations;
use crate::operations::{SingletonRef, TableRef};
use crate::owner::Owner;
use crate::schema;
use crate::schema::{GeneratedStorage, IndexStorage, SingletonDesc, TableDesc};
use crate::storage::Mark;
use crate::store::KvStore;
use crate::table;
use crate::table::TableState;
use std::marker::PhantomData;
use vstd::prelude::*;

verus! {

/// An abstraction for operating on a table of key/values pairs.
///
/// `Table` has no transactional semantics and only exists as a convenience for accessing tabular
/// data; each mutating operation is its own single-operation transaction.
#[verifier::reject_recursive_types(D)]
pub struct Table<'store, D: TableDesc> {
    pub store: &'store mut KvStore<D::Storage>,
    pub desc: PhantomData<D>,
}

impl<'store, D: TableDesc> Table<'store, D> {
    /// What is visible of the table.
    pub open spec fn state(&self) -> TableState<D> {
        schema::state_of::<D>(self.store@)
    }

    /// Create a table accessor for `store`.
    pub fn new(store: &'store mut KvStore<D::Storage>) -> (r: Self)
        ensures
            *r.store == *old(store),
            *final(r.store) == *final(store),
    {
        Table { store, desc: PhantomData }
    }

    /// The number of rows.
    pub fn len(&self) -> (r: usize)
        requires
            self.store.wf(),
        ensures
            self.state().rows.dom().finite(),
            r == self.state().rows.len(),
    {
        TableRef::<D>::from_storage(self.store).len()
    }

    /// Whether there are no rows.
    pub fn is_empty(&self) -> (r: bool)
        requires
            self.store.wf(),
        ensures
            r <==> self.state().rows == Map::<D::Key, D::Value>::empty(),
    {
        TableRef::<D>::from_storage(self.store).is_empty()
    }

    /// Get a row of the table from the store by cloning the value.
    pub fn get(&self, _owner: Owner, key: &D::Key) -> (r: Option<D::Value>) where D::Value: Clone
        requires
            self.store.wf(),
        ensures
            r is Some <==> self.state().rows.contains_key(*key),
            r matches Some(v) ==> cloned(self.state().rows[*key], v),
    {
        match TableRef::<D>::from_storage(self.store).get(key) {
            Some(v) => Some(v.clone()),
            None => None,
        }
    }

    /// Insert a row, in place of an earlier one with the same key.
    ///
    /// Fails, and changes nothing, if an index key does not identify a row then.
    pub fn try_insert(&mut self, owner: Owner, key: D::Key, value: D::Value) -> (r: Result<
        (),
        Error,
    >)
        requires
            old(self).store.wf(),
            old(self).store.txns_left() > 0,
            owner@ == D::OWNER@,
            table::admits::<D>(old(self).state().rows.insert(key, value)),
        ensures
            *final(final(self).store) == *final(old(self).store),
            match table::violated::<D>(old(self).state().rows.insert(key, value)) {
                Some(name) => {
                    &&& r == Err::<(), Error>(Error::NonUniqueIndexKey(name))
                    &&& old(self).store.unchanged(*final(self).store)
                },
                None => {
                    &&& r is Ok
                    &&& old(self).store.stepped(
                        *final(self).store,
                        schema::with_state::<D>(old(self).store@, old(self).state().insert(key, value)),
                    )
                },
            },
    {
        let ghost start = self.store@;
        let ghost state = self.state();
        let ghost after = state.insert(key, value);
        proof {
            self.store.lemma_wf();
            schema::lemma_state::<D>(start, after);
            state.lemma_insert(key, value, Mark::Assigned);
            state.lemma_leads_to(after);
        }
        let mut txn = self.store.begin_transaction(owner);
        let mut view = txn.table::<D>();
        view.insert(key, value);
        txn.commit()
    }

    /// Insert a row, in place of an earlier one with the same key.
    ///
    /// Each index key has to identify a row then.
    pub fn insert(&mut self, owner: Owner, key: D::Key, value: D::Value)
        requires
            old(self).store.wf(),
            old(self).store.txns_left() > 0,
            owner@ == D::OWNER@,
            table::violated::<D>(old(self).state().rows.insert(key, value)) is None,
        ensures
            *final(final(self).store) == *final(old(self).store),
            old(self).store.stepped(
                *final(self).store,
                schema::with_state::<D>(old(self).store@, old(self).state().insert(key, value)),
            ),
    {
        proof {
            <D::IndexStorage>::lemma_violated(self.state().rows.insert(key, value));
        }
        match self.try_insert(owner, key, value) {
            Ok(()) => {},
            Err(_) => vstd::pervasive::unreached(),
        }
    }

    /// Pass the row of `key` to `f`, and keep what `f` leaves in its place.
    ///
    /// Returns `Error::NotPresent` (and does not call `f`) if there is no value for the specified
    /// key. Fails, and changes nothing, if an index key does not identify a row after `f`.
    pub fn with_mut<T, F: FnOnce(&mut D::Value) -> T>(
        &mut self,
        owner: Owner,
        key: &D::Key,
        f: F,
    ) -> (r: Result<T, Error>) where D::Value: Clone
        requires
            old(self).store.wf(),
            old(self).store.txns_left() > 0,
            owner@ == D::OWNER@,
            old(self).state().rows.contains_key(*key) ==> {
                &&& forall|m: &mut D::Value|
                    cloned(old(self).state().rows[*key], *m) ==> #[trigger] f.requires((m,))
                &&& forall|m: &mut D::Value, out: T|
                    cloned(old(self).state().rows[*key], *m) && #[trigger] f.ensures((m,), out)
                        ==> table::admits::<D>(old(self).state().rows.insert(*key, *final(m)))
            },
        ensures
            *final(final(self).store) == *final(old(self).store),
            if old(self).state().rows.contains_key(*key) {
                exists|m: &mut D::Value, out: T|
                    {
                        &&& cloned(old(self).state().rows[*key], *m)
                        &&& #[trigger] f.ensures((m,), out)
                        &&& match table::violated::<D>(
                            old(self).state().rows.insert(*key, *final(m)),
                        ) {
                            Some(name) => {
                                &&& r == Err::<T, Error>(Error::NonUniqueIndexKey(name))
                                &&& old(self).store.unchanged(*final(self).store)
                            },
                            None => {
                                &&& r == Ok::<T, Error>(out)
                                &&& old(self).store.stepped(
                                    *final(self).store,
                                    schema::with_state::<D>(
                                        old(self).store@,
                                        old(self).state().mutate(*key, *final(m)),
                                    ),
                                )
                            },
                        }
                    }
            } else {
                &&& r == Err::<T, Error>(Error::NotPresent)
                &&& old(self).store.unchanged(*final(self).store)
            },
    {
        let ghost start = self.store@;
        let ghost state = self.state();
        proof {
            self.store.lemma_wf();
            schema::lemma_state::<D>(start, state);
            assert forall|m: &mut D::Value, out: T|
                state.rows.contains_key(*key) && cloned(state.rows[*key], *m)
                    && #[trigger] f.ensures((m,), out) implies {
                let after = state.mutate(*key, *final(m));
                &&& after.poisoned() == table::violated::<D>(after.rows)
                &&& <D::Storage>::poisoned(schema::with_state::<D>(start, after)) == after.poisoned()
            } by {
                state.lemma_insert(*key, *final(m), Mark::Lent);
                state.lemma_leads_to(state.mutate(*key, *final(m)));
                schema::lemma_state::<D>(start, state.mutate(*key, *final(m)));
            }
        }
        let mut txn = self.store.begin_transaction(owner);
        let mut view = txn.table::<D>();
        match view.with_mut(key, f) {
            Some(out) => match txn.commit() {
                Ok(()) => Ok(out),
                Err(e) => Err(e),
            },
            None => {
                txn.rollback();
                Err(Error::NotPresent)
            },
        }
    }

    /// Remove the row of `key`, if there is one.
    pub fn remove(&mut self, owner: Owner, key: &D::Key)
        requires
            old(self).store.wf(),
            old(self).store.txns_left() > 0,
            owner@ == D::OWNER@,
        ensures
            *final(final(self).store) == *final(old(self).store),
            old(self).store.stepped(
                *final(self).store,
                schema::with_state::<D>(old(self).store@, old(self).state().remove(*key)),
            ),
    {
        let ghost start = self.store@;
        let ghost state = self.state();
        proof {
            self.store.lemma_wf();
            schema::lemma_state::<D>(start, state.remove(*key));
            state.lemma_remove(*key);
        }
        let mut txn = self.store.begin_transaction(owner);
        let mut view = txn.table::<D>();
        view.remove(key);
        match txn.commit() {
            Ok(()) => {},
            Err(_) => vstd::pervasive::unreached(),
        }
    }

    /// Remove all rows.
    pub fn clear(&mut self, owner: Owner)
        requires
            old(self).store.wf(),
            old(self).store.txns_left() > 0,
            owner@ == D::OWNER@,
        ensures
            *final(final(self).store) == *final(old(self).store),
            old(self).store.stepped(
                *final(self).store,
                schema::with_state::<D>(old(self).store@, old(self).state().clear()),
            ),
    {
        let ghost start = self.store@;
        proof {
            self.store.lemma_wf();
            schema::lemma_state::<D>(start, self.state().clear());
            <D::IndexStorage>::lemma_empty();
        }
        let mut txn = self.store.begin_transaction(owner);
        let mut view = txn.table::<D>();
        view.clear();
        match txn.commit() {
            Ok(()) => {},
            Err(_) => vstd::pervasive::unreached(),
        }
    }

    /// Pass an iterator over the table giving mutable access to its values to `f`.
    ///
    /// Each index key has to identify a row again after `f`.
    pub fn with_iter_mut<T, F: FnOnce(&mut TableIterMut<'_, D>) -> T>(
        &mut self,
        owner: Owner,
        f: F,
    ) -> (r: T) where D::Value: Clone
        requires
            old(self).store.wf(),
            old(self).store.txns_left() > 0,
            owner@ == D::OWNER@,
            forall|it: &mut TableIterMut<D>|
                operations::lists_mut(it.left(), old(self).state().rows)
                    ==> #[trigger] f.requires((it,)),
            forall|it: &mut TableIterMut<D>, out: T, values: Seq<D::Value>|
                #![trigger f.ensures((it,), out), table::violated::<D>(table::with_values(
                    old(self).state().rows,
                    operations::listed_keys(it.left(), values.len()),
                    values,
                ))]
                operations::lists_mut(it.left(), old(self).state().rows) && f.ensures((it,), out)
                    && values.len() == iter::taken(it.left().len(), final(it).left().len()) && (
                forall|i: int|
                    0 <= i < values.len() ==> #[trigger] values[i] == *final(it.left()[i].1))
                    ==> table::violated::<D>(table::with_values(
                    old(self).state().rows,
                    operations::listed_keys(it.left(), values.len()),
                    values,
                )) is None,
        ensures
            *final(final(self).store) == *final(old(self).store),
            exists|it: &mut TableIterMut<D>, values: Seq<D::Value>|
                {
                    &&& operations::lists_mut(it.left(), old(self).state().rows)
                    &&& #[trigger] f.ensures((it,), r)
                    &&& values.len() == iter::taken(it.left().len(), final(it).left().len())
                    &&& forall|i: int|
                        0 <= i < values.len() ==> #[trigger] values[i] == *final(it.left()[i].1)
                    &&& final(it).left().len() <= it.left().len()
                        ==> values.len() + final(it).left().len()
                        == it.left().len()
                    &&& forall|i: int|
                        #![trigger it.left()[i]]
                        0 <= i < values.len()
                            ==> final(self).state().rows[*it.left()[i].0] == *final(it.left()[i].1)
                    &&& forall|k: D::Key| #[trigger]
                        final(self).state().rows.contains_key(k)
                            <==> old(self).state().rows.contains_key(k)
                    &&& forall|k: D::Key| #[trigger]
                        old(self).state().rows.contains_key(k) && (forall|i: int|
                            0 <= i < values.len() ==> *(#[trigger] it.left()[i]).0 != k)
                                ==> final(self).state().rows[k]
                            == old(self).state().rows[k]
                    &&& old(self).store.stepped(
                        *final(self).store,
                        schema::with_state::<D>(
                            old(self).store@,
                            #[trigger] old(self).state().rewrite(
                                operations::listed_keys(it.left(), values.len()),
                                values,
                            ),
                        ),
                    )
                },
    {
        let ghost start = self.store@;
        let ghost state = self.state();
        proof {
            self.store.lemma_wf();
            schema::lemma_state::<D>(start, state);
            assert forall|rows: Map<D::Key, D::Value>|
                table::violated::<D>(rows) is None implies #[trigger] table::admits::<D>(rows) by {
                <D::IndexStorage>::lemma_violated(rows);
            }
            assert forall|after: TableState<D>| #[trigger] state.leads_to(after) implies {
                &&& after.poisoned() == table::violated::<D>(after.rows)
                &&& <D::Storage>::poisoned(schema::with_state::<D>(start, after)) == after.poisoned()
                &&& schema::state_of::<D>(
                    <D::Storage>::settled(schema::with_state::<D>(start, after)),
                ).rows == after.rows
            } by {
                state.lemma_leads_to(after);
                schema::lemma_state::<D>(start, after);
                schema::lemma_state::<D>(start, after.settled());
            }
        }
        let mut txn = self.store.begin_transaction(owner);
        let mut view = txn.table::<D>();
        let out = view.with_iter_mut(f);
        match txn.commit() {
            Ok(()) => out,
            Err(_) => vstd::pervasive::unreached(),
        }
    }
}

/// An abstraction for operating on a singleton.
///
/// `Singleton` has no transactional semantics; each mutating operation is its own single-operation
/// transaction.
#[verifier::reject_recursive_types(D)]
pub struct Singleton<'store, D: SingletonDesc> {
    pub store: &'store mut KvStore<D::Storage>,
    pub desc: PhantomData<D>,
}

impl<'store, D: SingletonDesc> Singleton<'store, D> {
    /// The value which is visible.
    pub open spec fn state(&self) -> Option<D::Value> {
        schema::single_of::<D>(self.store@).value
    }

    /// Create a singleton accessor for `store`.
    pub fn new(store: &'store mut KvStore<D::Storage>) -> (r: Self)
        ensures
            *r.store == *old(store),
            *final(r.store) == *final(store),
    {
        Singleton { store, desc: PhantomData }
    }

    /// Get the value by cloning it.
    pub fn get(&self, _owner: Owner) -> (r: Option<D::Value>) where D::Value: Clone
        requires
            self.store.wf(),
        ensures
            r is Some <==> self.state() is Some,
            r matches Some(v) ==> cloned(self.state()->0, v),
    {
        match SingletonRef::<D>::from_storage(self.store).get() {
            Some(v) => Some(v.clone()),
            None => None,
        }
    }

    /// Set the value.
    pub fn insert(&mut self, owner: Owner, value: D::Value)
        requires
            old(self).store.wf(),
            old(self).store.txns_left() > 0,
            owner@ == D::OWNER@,
        ensures
            *final(final(self).store) == *final(old(self).store),
            old(self).store.stepped(
                *final(self).store,
                schema::with_single::<D>(
                    old(self).store@,
                    SingleState::assigned(Some(value)),
                ),
            ),
    {
        let ghost start = self.store@;
        proof {
            self.store.lemma_wf();
            schema::lemma_single::<D>(start, SingleState::assigned(Some(value)));
        }
        let mut txn = self.store.begin_transaction(owner);
        let mut view = txn.singleton::<D>();
        view.insert(value);
        match txn.commit() {
            Ok(()) => {},
            Err(_) => vstd::pervasive::unreached(),
        }
    }

    /// Remove the value.
    pub fn remove(&mut self, owner: Owner)
        requires
            old(self).store.wf(),
            old(self).store.txns_left() > 0,
            owner@ == D::OWNER@,
        ensures
            *final(final(self).store) == *final(old(self).store),
            old(self).store.stepped(
                *final(self).store,
                schema::with_single::<D>(old(self).store@, SingleState::assigned(None)),
            ),
    {
        let ghost start = self.store@;
        proof {
            self.store.lemma_wf();
            schema::lemma_single::<D>(start, SingleState::assigned(None));
        }
        let mut txn = self.store.begin_transaction(owner);
        let mut view = txn.singleton::<D>();
        view.remove();
        match txn.commit() {
            Ok(()) => {},
            Err(_) => vstd::pervasive::unreached(),
        }
    }
}

} // verus!
