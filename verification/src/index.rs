//! Access to tables via their indexes.

use crate::basics;
use crate::error::Error;
use crate::iter;
use crate::iter::{IndexIterMut, IndexIterator, Keys, KeysAndValues};
use crate::operations;
use crate::operations::{IndexMut, IndexRef, TableRef};
use crate::owner::Owner;
use crate::schema;
use crate::schema::{GeneratedStorage, IndexDesc, IndexStorage, RowDesc, TableDesc};
use crate::storage;
use crate::storage::{Mark, TxnId};
use crate::store::KvStore;
use crate::table;
use crate::table::TableState;
use crate::transactions::{RoTableTransaction, TableTransaction};
use std::marker::PhantomData;
use vstd::prelude::*;

verus! {

/// What is got by an index key is a copy of the row which has it.
proof fn lemma_got<D: IndexDesc>(state: TableState<D::BaseTable>, key: D::Key) where D::Row: Clone
    requires
        state.consistent(),
    ensures
        forall|r: Result<(D::BaseKey, D::Row), Error>, k: D::BaseKey|
            #![trigger operations::found_copy::<D>(state, key, r), D::keys(state.rows[k]).contains(key)]
            operations::found_copy::<D>(state, key, r) && !schema::index_state::<D>(state).poisoned
                && state.rows.contains_key(k) && D::keys(state.rows[k]).contains(key) ==> r is Ok
                && r->Ok_0.0 == k && cloned(state.rows[k], r->Ok_0.1),
        forall|r: Result<(D::BaseKey, D::Row), Error>| #[trigger]
            operations::found_copy::<D>(state, key, r) && r is Ok ==> {
                &&& !schema::index_state::<D>(state).poisoned
                &&& state.rows.contains_key(r->Ok_0.0)
                &&& D::keys(state.rows[r->Ok_0.0]).contains(key)
                &&& cloned(state.rows[r->Ok_0.0], r->Ok_0.1)
            },
{
    assert forall|r: Result<(D::BaseKey, D::Row), Error>, k: D::BaseKey|
        #![trigger operations::found_copy::<D>(state, key, r), D::keys(state.rows[k]).contains(key)]
        operations::found_copy::<D>(state, key, r) && !schema::index_state::<D>(state).poisoned
            && state.rows.contains_key(k) && D::keys(state.rows[k]).contains(key) implies r is Ok
        && r->Ok_0.0 == k && cloned(state.rows[k], r->Ok_0.1) by {
        basics::law_get::<D>(state, k, key, r);
    }
    assert forall|r: Result<(D::BaseKey, D::Row), Error>| #[trigger]
        operations::found_copy::<D>(state, key, r) && r is Ok implies {
        &&& !schema::index_state::<D>(state).poisoned
        &&& state.rows.contains_key(r->Ok_0.0)
        &&& D::keys(state.rows[r->Ok_0.0]).contains(key)
        &&& cloned(state.rows[r->Ok_0.0], r->Ok_0.1)
    } by {
        basics::law_get::<D>(state, r->Ok_0.0, key, r);
    }
}

/// An abstraction for operating on a table of key/values pairs (accessed as part of a transaction)
/// via an index.
///
/// The transactional counterpart of [`Index`]: the operations are the same, but they are part of
/// the transaction this was created from rather than being atomic on their own, and the owner comes
/// from the transaction.
///
/// `D` describes the index table, its base table is `D::BaseTable`.
///
/// An `IndexTransaction` mutably borrows the base table's view for `'txn`, so only one index of a
/// table can be used at a time.
#[verifier::reject_recursive_types(D)]
pub struct IndexTransaction<'guard, 'txn, D: IndexDesc> {
    pub base: &'txn mut TableTransaction<'guard, D::BaseTable>,
    pub desc: PhantomData<D>,
}

impl<'guard, 'txn, D: IndexDesc> IndexTransaction<'guard, 'txn, D> {
    /// What the transaction sees of the base table.
    pub open spec fn state(&self) -> TableState<D::BaseTable> {
        self.base.state()
    }

    /// What is visible of the base table in the committed state.
    pub open spec fn committed(&self) -> TableState<D::BaseTable> {
        self.base.committed()
    }

    /// The base table has nothing newer than the transaction.
    pub open spec fn wf(&self) -> bool {
        self.base.wf()
    }

    /// The transaction's owner.
    pub open spec fn owner(&self) -> Owner {
        self.base.owner
    }

    /// The transaction's id.
    pub open spec fn txn_id(&self) -> TxnId {
        self.base.txn_id
    }

    /// Create a view of the index `D` of the table viewed by `base`.
    pub fn new(base: &'txn mut TableTransaction<'guard, D::BaseTable>) -> (r: Self)
        ensures
            *r.base == *old(base),
            *final(r.base) == *final(base),
    {
        IndexTransaction { base, desc: PhantomData }
    }

    fn index_ref(&self) -> (r: IndexRef<'_, D>)
        requires
            self.wf(),
        ensures
            r.wf(),
            r.state() == self.state(),
    {
        IndexRef::new(self.base.table_ref())
    }

    fn index_mut(&mut self) -> (r: IndexMut<'_, D>)
        requires
            old(self).wf(),
        ensures
            r.wf(),
            r.txn_id == old(self).txn_id(),
            r.state() == old(self).state(),
            r.committed() == old(self).committed(),
            *final(self).base.table == *final(r.base),
            final(self).txn_id() == old(self).txn_id(),
            final(self).owner() == old(self).owner(),
            *final(final(self).base) == *final(old(self).base),
            *final(final(self).base.table) == *final(old(self).base.table),
    {
        IndexMut::new(self.base.table_mut())
    }

    /// Returns `Ok` if the index is consistent, and an error with some kind of explanation if not.
    pub fn check_consistent(&self) -> (r: Result<(), Error>)
        requires
            self.wf(),
        ensures
            r == if schema::index_state::<D>(self.state()).poisoned {
                Err::<(), Error>(Error::NonUniqueIndexKey(D::NAME))
            } else {
                Ok(())
            },
    {
        self.index_ref().check_consistent()
    }

    /// Get a row of the table from the store by cloning the value.
    ///
    /// Returns `Error::NotPresent` if there is no value for the specified key.
    pub fn get(&self, key: &D::Key) -> (r: Result<(D::BaseKey, D::Row), Error>) where D::Row: Clone
        requires
            self.wf(),
        ensures
            operations::found_copy::<D>(self.state(), *key, r),
            forall|k: D::BaseKey|
                !schema::index_state::<D>(self.state()).poisoned && self.state().rows.contains_key(k)
                    && #[trigger] D::keys(self.state().rows[k]).contains(*key) ==> r is Ok
                    && r->Ok_0.0 == k && cloned(self.state().rows[k], r->Ok_0.1),
            r is Ok ==> {
                &&& !schema::index_state::<D>(self.state()).poisoned
                &&& self.state().rows.contains_key(r->Ok_0.0)
                &&& D::keys(self.state().rows[r->Ok_0.0]).contains(*key)
                &&& cloned(self.state().rows[r->Ok_0.0], r->Ok_0.1)
            },
    {
        proof {
            lemma_got::<D>(self.state(), *key);
        }
        self.index_ref().get_cloned(key)
    }

    /// Get immutable access to a row of the table in the store by reference.
    ///
    /// Returns `Error::NotPresent` (and does not call `f`) if there is no value for the specified key.
    pub fn with<T, F: FnOnce(&D::BaseKey, &D::Row) -> T>(&self, key: &D::Key, f: F) -> (r: Result<
        T,
        Error,
    >)
        requires
            self.wf(),
            operations::lookup::<D>(self.state(), *key) matches Ok((k, v)) ==> f.requires((&k, &v)),
        ensures
            match operations::lookup::<D>(self.state(), *key) {
                Ok((k, v)) => r matches Ok(out) && f.ensures((&k, &v), out),
                Err(e) => r == Err::<T, Error>(e),
            },
    {
        match self.index_ref().get(key) {
            Ok((k, v)) => Ok(f(k, v)),
            Err(e) => Err(e),
        }
    }

    /// Iterate all the keys in the index and value in the base table.
    pub fn iter(&self) -> (r: IndexIterator<'_, D, KeysAndValues>)
        requires
            self.wf(),
        ensures
            storage::lists(r.left(), schema::index_state::<D>(self.state()).entries),
            r.rows() == self.state().rows,
    {
        self.index_ref().iter()
    }

    /// Iterate all the keys in the index.
    pub fn keys(&self) -> (r: IndexIterator<'_, D, Keys>)
        requires
            self.wf(),
        ensures
            storage::lists(r.left(), schema::index_state::<D>(self.state()).entries),
    {
        self.index_ref().iter()
    }

    /// Get mutable access to a row of the table in the store.
    ///
    /// Returns `Error::NotPresent` (and does not call `f`) if there is no value for the specified key.
    pub fn with_mut<T, F: FnOnce(&D::BaseKey, &mut D::Row) -> T>(
        &mut self,
        key: &D::Key,
        f: F,
    ) -> (r: Result<T, Error>) where D::Row: Clone
        requires
            old(self).wf(),
            !schema::index_state::<D>(old(self).state()).poisoned ==> old(self).owner()@
                == <D::BaseTable as RowDesc>::OWNER@,
            operations::lookup::<D>(old(self).state(), *key) matches Ok((k, v)) ==> {
                &&& forall|m: &mut D::Row| cloned(v, *m) ==> #[trigger] f.requires((&k, m))
                &&& forall|m: &mut D::Row, out: T|
                    cloned(v, *m) && #[trigger] f.ensures((&k, m), out) ==> table::admits::<
                        D::BaseTable,
                    >(old(self).state().rows.insert(k, *final(m)))
            },
        ensures
            final(self).wf(),
            final(self).committed() == old(self).committed(),
            final(self).txn_id() == old(self).txn_id(),
            final(self).owner() == old(self).owner(),
            *final(final(self).base) == *final(old(self).base),
            *final(final(self).base.table) == *final(old(self).base.table),
            r is Ok <==> operations::lookup::<D>(old(self).state(), *key) is Ok,
            r is Err ==> operations::lookup::<D>(old(self).state(), *key) == Err::<
                (D::BaseKey, D::Row),
                _,
            >(r->Err_0) && final(self).state() == old(self).state(),
            r is Ok ==> ({
                let (k, v) = operations::lookup::<D>(old(self).state(), *key)->Ok_0;
                exists|m: &mut D::Row|
                    cloned(v, *m) && #[trigger] f.ensures((&k, m), r->Ok_0)
                        && final(self).state() == old(self).state().mutate(k, *final(m))
            }),
    {
        let owner = self.base.txn_owner();
        self.index_mut().with_mut(key, f, owner)
    }

    /// Remove a row from the table.
    pub fn remove(&mut self, key: &D::Key)
        requires
            old(self).wf(),
            old(self).owner()@ == <D::BaseTable as RowDesc>::OWNER@,
        ensures
            final(self).wf(),
            final(self).committed() == old(self).committed(),
            final(self).txn_id() == old(self).txn_id(),
            final(self).owner() == old(self).owner(),
            *final(final(self).base) == *final(old(self).base),
            *final(final(self).base.table) == *final(old(self).base.table),
            final(self).state() == match schema::index_state::<D>(old(self).state()).entries.get(
                *key,
            ) {
                Some(k) => old(self).state().remove(k),
                None => old(self).state(),
            },
    {
        let owner = self.base.txn_owner();
        self.index_mut().remove(key, owner)
    }

    /// Pass an iterator over all the key/value pairs in the table which have an index key, with
    /// mutable access to the values, to `f`.
    ///
    /// Access is scoped by a closure, because the table's indexes are updated from the mutated
    /// values once `f` returns.
    pub fn with_iter_mut<T, F: FnOnce(&mut IndexIterMut<'_, D>) -> T>(
        &mut self,
        f: F,
    ) -> (r: T) where D::Row: Clone
        requires
            old(self).wf(),
            old(self).owner()@ == <D::BaseTable as RowDesc>::OWNER@,
            forall|it: &mut IndexIterMut<D>|
                operations::lists_indexed_mut(
                    it.left(),
                    schema::index_state::<D>(old(self).state()).entries,
                    old(self).state().rows,
                ) ==> #[trigger] f.requires((it,)),
            forall|it: &mut IndexIterMut<D>, out: T, values: Seq<D::Row>|
                #![trigger f.ensures((it,), out), table::admits::<D::BaseTable>(table::with_values(
                    old(self).state().rows,
                    operations::listed_base_keys(it.left(), values.len()),
                    values,
                ))]
                operations::lists_indexed_mut(
                    it.left(),
                    schema::index_state::<D>(old(self).state()).entries,
                    old(self).state().rows,
                ) && f.ensures((it,), out)
                    && values.len() == iter::taken(it.left().len(), final(it).left().len()) && (
                forall|i: int|
                    0 <= i < values.len() ==> #[trigger] values[i] == *final(it.left()[i].2))
                    ==> table::admits::<D::BaseTable>(table::with_values(
                    old(self).state().rows,
                    operations::listed_base_keys(it.left(), values.len()),
                    values,
                )),
        ensures
            final(self).wf(),
            final(self).committed() == old(self).committed(),
            final(self).txn_id() == old(self).txn_id(),
            final(self).owner() == old(self).owner(),
            *final(final(self).base) == *final(old(self).base),
            *final(final(self).base.table) == *final(old(self).base.table),
            old(self).state().leads_to(final(self).state()),
            exists|it: &mut IndexIterMut<D>, values: Seq<D::Row>|
                {
                    &&& operations::lists_indexed_mut(
                        it.left(),
                        schema::index_state::<D>(old(self).state()).entries,
                        old(self).state().rows,
                    )
                    &&& #[trigger] f.ensures((it,), r)
                    &&& values.len() == iter::taken(it.left().len(), final(it).left().len())
                    &&& forall|i: int|
                        0 <= i < values.len() ==> #[trigger] values[i] == *final(it.left()[i].2)
                    &&& final(it).left().len() <= it.left().len()
                        ==> values.len() + final(it).left().len()
                        == it.left().len()
                    &&& forall|i: int|
                        #![trigger it.left()[i]]
                        0 <= i < values.len()
                            ==> final(self).state().rows[*it.left()[i].1] == *final(it.left()[i].2)
                    &&& forall|k: D::BaseKey| #[trigger]
                        final(self).state().rows.contains_key(k)
                            <==> old(self).state().rows.contains_key(k)
                    &&& forall|k: D::BaseKey| #[trigger]
                        old(self).state().rows.contains_key(k) && (forall|i: int|
                            0 <= i < values.len() ==> *(#[trigger] it.left()[i]).1 != k)
                                ==> final(self).state().rows[k]
                            == old(self).state().rows[k]
                    &&& final(self).state() == #[trigger] old(self).state().rewrite(
                        operations::listed_base_keys(it.left(), values.len()),
                        values,
                    )
                },
    {
        let owner = self.base.txn_owner();
        self.index_mut().with_iter_mut(owner, f)
    }
}

/// An abstraction for operating on a table of key/values pairs (accessed as part of a read-only
/// transaction) via an index.
///
/// The read-only counterpart of [`IndexTransaction`], with only the non-mutating operations.
///
/// `D` describes the index table, its base table is `D::BaseTable`.
#[verifier::reject_recursive_types(D)]
pub struct RoIndexTransaction<'guard, 'txn, D: IndexDesc> {
    pub base: &'txn RoTableTransaction<'guard, D::BaseTable>,
    pub desc: PhantomData<D>,
}

impl<'guard, 'txn, D: IndexDesc> RoIndexTransaction<'guard, 'txn, D> {
    /// What the transaction sees of the base table.
    pub open spec fn state(&self) -> TableState<D::BaseTable> {
        self.base.state()
    }

    /// The base table's indexes are those of its rows.
    pub open spec fn wf(&self) -> bool {
        self.base.wf()
    }

    /// Create a view of the index `D` of the table viewed by `base`.
    pub fn new(base: &'txn RoTableTransaction<'guard, D::BaseTable>) -> (r: Self)
        ensures
            r.base == base,
    {
        RoIndexTransaction { base, desc: PhantomData }
    }

    fn index_ref(&self) -> (r: IndexRef<'guard, D>)
        requires
            self.wf(),
        ensures
            r.wf(),
            r.state() == self.state(),
    {
        IndexRef::new(self.base.table_ref())
    }

    /// Returns `Ok` if the index is consistent, and an error with some kind of explanation if not.
    pub fn check_consistent(&self) -> (r: Result<(), Error>)
        requires
            self.wf(),
        ensures
            r == if schema::index_state::<D>(self.state()).poisoned {
                Err::<(), Error>(Error::NonUniqueIndexKey(D::NAME))
            } else {
                Ok(())
            },
    {
        self.index_ref().check_consistent()
    }

    /// Get a row of the table from the store by cloning the value.
    ///
    /// Returns `Error::NotPresent` if there is no value for the specified key.
    pub fn get(&self, key: &D::Key) -> (r: Result<(D::BaseKey, D::Row), Error>) where D::Row: Clone
        requires
            self.wf(),
        ensures
            operations::found_copy::<D>(self.state(), *key, r),
            forall|k: D::BaseKey|
                !schema::index_state::<D>(self.state()).poisoned && self.state().rows.contains_key(k)
                    && #[trigger] D::keys(self.state().rows[k]).contains(*key) ==> r is Ok
                    && r->Ok_0.0 == k && cloned(self.state().rows[k], r->Ok_0.1),
            r is Ok ==> {
                &&& !schema::index_state::<D>(self.state()).poisoned
                &&& self.state().rows.contains_key(r->Ok_0.0)
                &&& D::keys(self.state().rows[r->Ok_0.0]).contains(*key)
                &&& cloned(self.state().rows[r->Ok_0.0], r->Ok_0.1)
            },
    {
        proof {
            lemma_got::<D>(self.state(), *key);
        }
        self.index_ref().get_cloned(key)
    }

    /// Get immutable access to a row of the table in the store by reference.
    ///
    /// Returns `Error::NotPresent` (and does not call `f`) if there is no value for the specified key.
    pub fn with<T, F: FnOnce(&D::BaseKey, &D::Row) -> T>(&self, key: &D::Key, f: F) -> (r: Result<
        T,
        Error,
    >)
        requires
            self.wf(),
            operations::lookup::<D>(self.state(), *key) matches Ok((k, v)) ==> f.requires((&k, &v)),
        ensures
            match operations::lookup::<D>(self.state(), *key) {
                Ok((k, v)) => r matches Ok(out) && f.ensures((&k, &v), out),
                Err(e) => r == Err::<T, Error>(e),
            },
    {
        match self.index_ref().get(key) {
            Ok((k, v)) => Ok(f(k, v)),
            Err(e) => Err(e),
        }
    }

    /// Iterate all the keys in the index and value in the base table.
    pub fn iter(&self) -> (r: IndexIterator<'guard, D, KeysAndValues>)
        requires
            self.wf(),
        ensures
            storage::lists(r.left(), schema::index_state::<D>(self.state()).entries),
            r.rows() == self.state().rows,
    {
        self.index_ref().iter()
    }

    /// Iterate all the keys in the index.
    pub fn keys(&self) -> (r: IndexIterator<'guard, D, Keys>)
        requires
            self.wf(),
        ensures
            storage::lists(r.left(), schema::index_state::<D>(self.state()).entries),
    {
        self.index_ref().iter()
    }
}

/// The storage of the index `D` and its base table.
pub type StorageOf<D> = <<D as IndexDesc>::BaseTable as TableDesc>::Storage;

/// Whether `view` is the first one of a transaction which `owner` has begun on a store with the
/// committed state `state`.
pub open spec fn begun<D: IndexDesc>(
    view: IndexTransaction<D>,
    state: <StorageOf<D> as GeneratedStorage>::State,
    owner: Owner,
) -> bool {
    &&& view.wf()
    &&& view.state() == schema::state_of::<D::BaseTable>(state)
    &&& view.committed() == view.state()
    &&& view.owner() == owner
}

/// Apply `f` to `D`'s view of a transaction which contains only that operation, and commit it.
///
/// Returns the error from committing, if there is one. This is how the non-transactional index
/// operations get their atomicity: each one is a single-operation transaction.
fn in_index_txn<D: IndexDesc, T, F: FnOnce(&mut IndexTransaction<'_, '_, D>) -> T>(
    store: &mut KvStore<StorageOf<D>>,
    owner: Owner,
    f: F,
) -> (r: Result<T, Error>)
    requires
        old(store).wf(),
        old(store).txns_left() > 0,
        forall|view: &mut IndexTransaction<D>|
            begun::<D>(*view, old(store)@, owner) ==> #[trigger] f.requires((view,)),
        forall|view: &mut IndexTransaction<D>, out: T|
            begun::<D>(*view, old(store)@, owner) && #[trigger] f.ensures((view,), out) ==> {
                &&& final(view).wf()
                &&& final(view).committed() == view.committed()
                &&& final(view).txn_id() == view.txn_id()
                &&& *final(final(view).base) == *final(view.base)
                &&& *final(final(view).base.table) == *final(view.base.table)
            },
    ensures
        exists|view: &mut IndexTransaction<D>, out: T|
            {
                &&& begun::<D>(*view, old(store)@, owner)
                &&& #[trigger] f.ensures((view,), out)
                &&& r == match final(view).state().poisoned() {
                    Some(name) => Err(Error::NonUniqueIndexKey(name)),
                    None => Ok(out),
                }
                &&& r is Err ==> old(store).unchanged(*final(store))
                &&& r is Ok ==> old(store).stepped(
                    *final(store),
                    schema::with_state::<D::BaseTable>(old(store)@, final(view).state()),
                )
            },
{
    proof {
        store.lemma_wf();
    }
    let mut txn = store.begin_transaction(owner);
    let ghost start = txn.state();
    let out;
    let ghost after;
    {
        let mut base = txn.table::<D::BaseTable>();
        let mut view = IndexTransaction::<D>::new(&mut base);
        assert(begun::<D>(view, start, owner));
        out = f(&mut view);
        proof {
            after = view.state();
        }
        assert(exists|v: &mut IndexTransaction<D>|
            begun::<D>(*v, start, owner) && #[trigger] f.ensures((v,), out) && final(v).state()
                == after);
    }
    assert(txn.state() == schema::with_state::<D::BaseTable>(start, after));
    proof {
        schema::lemma_state::<D::BaseTable>(start, after);
    }
    let r = match txn.commit() {
        Ok(()) => Ok(out),
        Err(e) => Err(e),
    };
    assert(r == match after.poisoned() {
        Some(name) => Err(Error::NonUniqueIndexKey(name)),
        None => Ok(out),
    });
    r
}

/// Apply `f` to the index `D` of `store` (not as part of any transaction).
fn read_index<D: IndexDesc, T, F: FnOnce(IndexRef<'_, D>) -> T>(
    store: &KvStore<StorageOf<D>>,
    f: F,
) -> (r: T)
    requires
        store.wf(),
        forall|index: IndexRef<D>|
            index.wf() && index.state() == schema::state_of::<D::BaseTable>(store@)
                ==> #[trigger] f.requires((index,)),
    ensures
        exists|index: IndexRef<D>|
            index.wf() && index.state() == schema::state_of::<D::BaseTable>(store@)
                && #[trigger] f.ensures((index,), r),
{
    f(IndexRef::new(TableRef::from_storage(store)))
}

/// An abstraction for operating on a table of key/values pairs via an index.
///
/// `Index` has no transactional semantics and only exists as a convenience for accessing tabular
/// data; each mutating operation is its own single-operation transaction.
///
/// `D` describes the index table, its base table is `D::BaseTable`.
#[verifier::reject_recursive_types(D)]
pub struct Index<'store, D: IndexDesc> {
    pub store: &'store mut KvStore<StorageOf<D>>,
    pub desc: PhantomData<D>,
}

impl<'store, D: IndexDesc> Index<'store, D> {
    /// What is visible of the base table.
    pub open spec fn state(&self) -> TableState<D::BaseTable> {
        schema::state_of::<D::BaseTable>(self.store@)
    }

    /// Create an index accessor for `store`.
    pub fn new(store: &'store mut KvStore<StorageOf<D>>) -> (r: Self)
        ensures
            *r.store == *old(store),
            *final(r.store) == *final(store),
    {
        Index { store, desc: PhantomData }
    }

    /// Returns `Ok` if the index is consistent, and an error with some kind of explanation if not.
    pub fn check_consistent(&self) -> (r: Result<(), Error>)
        requires
            self.store.wf(),
        ensures
            r == if schema::index_state::<D>(self.state()).poisoned {
                Err::<(), Error>(Error::NonUniqueIndexKey(D::NAME))
            } else {
                Ok(())
            },
            r is Ok,
    {
        proof {
            self.store.lemma_wf();
            schema::lemma_state::<D::BaseTable>(self.store@, self.state());
            schema::lemma_index::<D>(self.state());
        }
        let check = |index: IndexRef<'_, D>| -> (out: Result<(), Error>)
            requires
                index.wf(),
            ensures
                out == if index.index_state().poisoned {
                    Err::<(), Error>(Error::NonUniqueIndexKey(D::NAME))
                } else {
                    Ok(())
                },
            { index.check_consistent() };
        read_index(self.store, check)
    }

    /// Get a row of the table from the store by cloning the value.
    ///
    /// Returns `Error::NotPresent` if there is no value for the specified key.
    pub fn get(&self, _owner: Owner, key: &D::Key) -> (r: Result<(D::BaseKey, D::Row), Error>) where
        D::Row: Clone,

        requires
            self.store.wf(),
        ensures
            operations::found_copy::<D>(self.state(), *key, r),
            forall|k: D::BaseKey|
                !schema::index_state::<D>(self.state()).poisoned && self.state().rows.contains_key(k)
                    && #[trigger] D::keys(self.state().rows[k]).contains(*key) ==> r is Ok
                    && r->Ok_0.0 == k && cloned(self.state().rows[k], r->Ok_0.1),
            r is Ok ==> {
                &&& !schema::index_state::<D>(self.state()).poisoned
                &&& self.state().rows.contains_key(r->Ok_0.0)
                &&& D::keys(self.state().rows[r->Ok_0.0]).contains(*key)
                &&& cloned(self.state().rows[r->Ok_0.0], r->Ok_0.1)
            },
    {
        proof {
            self.store.lemma_wf();
            schema::lemma_state::<D::BaseTable>(self.store@, self.state());
            lemma_got::<D>(self.state(), *key);
        }
        let find = |index: IndexRef<'_, D>| -> (out: Result<(D::BaseKey, D::Row), Error>)
            requires
                index.wf(),
            ensures
                operations::found_copy::<D>(index.state(), *key, out),
            { index.get_cloned(key) };
        read_index(self.store, find)
    }

    /// Get immutable access to a row of the table in the store by reference.
    ///
    /// Returns `Error::NotPresent` (and does not call `f`) if there is no value for the specified key.
    pub fn with<T, F: FnOnce(&D::BaseKey, &D::Row) -> T>(
        &self,
        _owner: Owner,
        key: &D::Key,
        f: F,
    ) -> (r: Result<T, Error>)
        requires
            self.store.wf(),
            operations::lookup::<D>(self.state(), *key) matches Ok((k, v)) ==> f.requires((&k, &v)),
        ensures
            match operations::lookup::<D>(self.state(), *key) {
                Ok((k, v)) => r matches Ok(out) && f.ensures((&k, &v), out),
                Err(e) => r == Err::<T, Error>(e),
            },
    {
        let ghost found = operations::lookup::<D>(self.state(), *key);
        let apply = |index: IndexRef<'_, D>| -> (out: Result<T, Error>)
            requires
                index.wf(),
                operations::lookup::<D>(index.state(), *key) == found,
                found matches Ok((k, v)) ==> f.requires((&k, &v)),
            ensures
                match found {
                    Ok((k, v)) => out matches Ok(o) && f.ensures((&k, &v), o),
                    Err(e) => out == Err::<T, Error>(e),
                },
            {
                match index.get(key) {
                    Ok((k, v)) => Ok(f(k, v)),
                    Err(e) => Err(e),
                }
            };
        read_index(self.store, apply)
    }

    /// Get mutable access to a row of the table in the store.
    ///
    /// Returns `Error::NotPresent` (and does not call `f`) if there is no value for the specified
    /// key. Fails, and changes nothing, if an index key does not identify a row after `f`.
    pub fn with_mut<T, F: FnOnce(&D::BaseKey, &mut D::Row) -> T>(
        &mut self,
        owner: Owner,
        key: &D::Key,
        f: F,
    ) -> (r: Result<T, Error>) where D::Row: Clone
        requires
            old(self).store.wf(),
            old(self).store.txns_left() > 0,
            owner@ == <D::BaseTable as RowDesc>::OWNER@,
            operations::lookup::<D>(old(self).state(), *key) matches Ok((k, v)) ==> {
                &&& forall|m: &mut D::Row| cloned(v, *m) ==> #[trigger] f.requires((&k, m))
                &&& forall|m: &mut D::Row, out: T|
                    cloned(v, *m) && #[trigger] f.ensures((&k, m), out) ==> table::admits::<
                        D::BaseTable,
                    >(old(self).state().rows.insert(k, *final(m)))
            },
        ensures
            *final(final(self).store) == *final(old(self).store),
            match operations::lookup::<D>(old(self).state(), *key) {
                Ok((k, v)) => exists|m: &mut D::Row, out: T|
                    {
                        &&& cloned(v, *m)
                        &&& #[trigger] f.ensures((&k, m), out)
                        &&& match table::violated::<D::BaseTable>(
                            old(self).state().rows.insert(k, *final(m)),
                        ) {
                            Some(name) => {
                                &&& r == Err::<T, Error>(Error::NonUniqueIndexKey(name))
                                &&& old(self).store.unchanged(*final(self).store)
                            },
                            None => {
                                &&& r == Ok::<T, Error>(out)
                                &&& old(self).store.stepped(
                                    *final(self).store,
                                    schema::with_state::<D::BaseTable>(
                                        old(self).store@,
                                        old(self).state().mutate(k, *final(m)),
                                    ),
                                )
                            },
                        }
                    },
                Err(e) => {
                    &&& r == Err::<T, Error>(e)
                    &&& old(self).store.stepped(*final(self).store, old(self).store@)
                },
            },
    {
        let ghost start = self.store@;
        let ghost state = self.state();
        let ghost found = operations::lookup::<D>(state, *key);
        proof {
            self.store.lemma_wf();
            schema::lemma_state::<D::BaseTable>(start, state);
        }
        let change = |view: &mut IndexTransaction<'_, '_, D>| -> (out: Result<T, Error>)
            requires
                view.wf(),
                view.state() == state,
                view.owner() == owner,
            ensures
                final(view).wf(),
                final(view).committed() == old(view).committed(),
                final(view).txn_id() == old(view).txn_id(),
                *final(final(view).base) == *final(old(view).base),
                *final(final(view).base.table) == *final(old(view).base.table),
                out is Ok <==> found is Ok,
                out is Err ==> found == Err::<(D::BaseKey, D::Row), _>(out->Err_0)
                    && final(view).state() == state,
                out is Ok ==> exists|m: &mut D::Row|
                    cloned(found->Ok_0.1, *m)
                        && #[trigger] f.ensures((&found->Ok_0.0, m), out->Ok_0)
                        && final(view).state() == state.mutate(found->Ok_0.0, *final(m)),
            { view.with_mut(key, f) };
        proof {
            let (k, v) = found->Ok_0;
            assert forall|m: &mut D::Row, out: T|
                found is Ok && cloned(v, *m) && #[trigger] f.ensures(
                    (&k, m),
                    out,
                ) implies state.mutate(k, *final(m)).poisoned() == table::violated::<D::BaseTable>(
                state.rows.insert(k, *final(m)),
            ) by {
                state.lemma_insert(k, *final(m), Mark::Lent);
                state.lemma_leads_to(state.mutate(k, *final(m)));
            }
        }
        let done = in_index_txn(self.store, owner, change);
        assert(found is Ok ==> exists|m: &mut D::Row, out: T|
            {
                &&& cloned(found->Ok_0.1, *m)
                &&& #[trigger] f.ensures((&found->Ok_0.0, m), out)
                &&& done == match state.mutate(found->Ok_0.0, *final(m)).poisoned() {
                    Some(name) => Err(Error::NonUniqueIndexKey(name)),
                    None => Ok(Ok::<T, Error>(out)),
                }
            });
        match done {
            Ok(out) => out,
            Err(e) => Err(e),
        }
    }

    /// Remove a row from the table.
    pub fn remove(&mut self, owner: Owner, key: &D::Key)
        requires
            old(self).store.wf(),
            old(self).store.txns_left() > 0,
            owner@ == <D::BaseTable as RowDesc>::OWNER@,
        ensures
            *final(final(self).store) == *final(old(self).store),
            old(self).store.stepped(
                *final(self).store,
                match operations::lookup::<D>(old(self).state(), *key) {
                    Ok((k, _)) => schema::with_state::<D::BaseTable>(
                        old(self).store@,
                        old(self).state().remove(k),
                    ),
                    Err(_) => old(self).store@,
                },
            ),
    {
        let ghost start = self.store@;
        let ghost state = self.state();
        proof {
            self.store.lemma_wf();
            schema::lemma_state::<D::BaseTable>(start, state);
            schema::lemma_index::<D>(state);
            operations::lemma_lookup::<D>(state, *key);
            if schema::index_state::<D>(state).entries.contains_key(*key) {
                state.lemma_remove(schema::index_state::<D>(state).entries[*key]);
            }
        }
        let remove = |view: &mut IndexTransaction<'_, '_, D>|
            requires
                view.wf(),
                view.owner()@ == <D::BaseTable as RowDesc>::OWNER@,
            ensures
                final(view).wf(),
                final(view).committed() == old(view).committed(),
                final(view).txn_id() == old(view).txn_id(),
                *final(final(view).base) == *final(old(view).base),
                *final(final(view).base.table) == *final(old(view).base.table),
                final(view).state() == match schema::index_state::<D>(old(view).state()).entries.get(
                    *key,
                ) {
                    Some(k) => old(view).state().remove(k),
                    None => old(view).state(),
                },
            { view.remove(key) };
        let r = in_index_txn(self.store, owner, remove);
        // Committing fails on index inserts only.
        match r {
            Ok(()) => {},
            Err(_) => vstd::pervasive::unreached(),
        }
    }

    /// Pass an iterator over all the keys in the index and values in the base table to `f`.
    pub fn with_iter<T, F: FnOnce(&mut IndexIterator<'_, D, KeysAndValues>) -> T>(
        &self,
        _owner: Owner,
        f: F,
    ) -> (r: T)
        requires
            self.store.wf(),
            forall|it: &mut IndexIterator<D, KeysAndValues>|
                storage::lists(it.left(), schema::index_state::<D>(self.state()).entries)
                    && it.rows() == self.state().rows ==> #[trigger] f.requires((it,)),
        ensures
            exists|it: &mut IndexIterator<D, KeysAndValues>|
                storage::lists(it.left(), schema::index_state::<D>(self.state()).entries)
                    && it.rows() == self.state().rows && #[trigger] f.ensures((it,), r),
    {
        let ghost state = self.state();
        let apply = |index: IndexRef<'_, D>| -> (out: T)
            requires
                index.wf(),
                index.state() == state,
            ensures
                exists|it: &mut IndexIterator<D, KeysAndValues>|
                    storage::lists(it.left(), schema::index_state::<D>(state).entries) && it.rows()
                        == state.rows && #[trigger] f.ensures((it,), out),
            {
                let mut it = index.iter::<KeysAndValues>();
                f(&mut it)
            };
        read_index(self.store, apply)
    }

    /// Pass an iterator over all the keys in the index to `f`.
    pub fn with_keys<T, F: FnOnce(&mut IndexIterator<'_, D, Keys>) -> T>(
        &self,
        _owner: Owner,
        f: F,
    ) -> (r: T)
        requires
            self.store.wf(),
            forall|it: &mut IndexIterator<D, Keys>|
                storage::lists(it.left(), schema::index_state::<D>(self.state()).entries)
                    && it.rows() == self.state().rows ==> #[trigger] f.requires((it,)),
        ensures
            exists|it: &mut IndexIterator<D, Keys>|
                storage::lists(it.left(), schema::index_state::<D>(self.state()).entries)
                    && it.rows() == self.state().rows && #[trigger] f.ensures((it,), r),
    {
        let ghost state = self.state();
        let apply = |index: IndexRef<'_, D>| -> (out: T)
            requires
                index.wf(),
                index.state() == state,
            ensures
                exists|it: &mut IndexIterator<D, Keys>|
                    storage::lists(it.left(), schema::index_state::<D>(state).entries) && it.rows()
                        == state.rows && #[trigger] f.ensures((it,), out),
            {
                let mut it = index.iter::<Keys>();
                f(&mut it)
            };
        read_index(self.store, apply)
    }

    /// Pass an iterator over all the key/value pairs in the table which have an index key, with
    /// mutable access to the values, to `f`.
    ///
    /// Each index key has to identify a row again after `f`.
    pub fn with_iter_mut<T, F: FnOnce(&mut IndexIterMut<'_, D>) -> T>(
        &mut self,
        owner: Owner,
        f: F,
    ) -> (r: T) where D::Row: Clone
        requires
            old(self).store.wf(),
            old(self).store.txns_left() > 0,
            owner@ == <D::BaseTable as RowDesc>::OWNER@,
            forall|it: &mut IndexIterMut<D>|
                operations::lists_indexed_mut(
                    it.left(),
                    schema::index_state::<D>(old(self).state()).entries,
                    old(self).state().rows,
                ) ==> #[trigger] f.requires((it,)),
            forall|it: &mut IndexIterMut<D>, out: T, values: Seq<D::Row>|
                #![trigger f.ensures((it,), out), table::violated::<D::BaseTable>(table::with_values(
                    old(self).state().rows,
                    operations::listed_base_keys(it.left(), values.len()),
                    values,
                ))]
                operations::lists_indexed_mut(
                    it.left(),
                    schema::index_state::<D>(old(self).state()).entries,
                    old(self).state().rows,
                ) && f.ensures((it,), out)
                    && values.len() == iter::taken(it.left().len(), final(it).left().len()) && (
                forall|i: int|
                    0 <= i < values.len() ==> #[trigger] values[i] == *final(it.left()[i].2))
                    ==> table::violated::<D::BaseTable>(table::with_values(
                    old(self).state().rows,
                    operations::listed_base_keys(it.left(), values.len()),
                    values,
                )) is None,
        ensures
            *final(final(self).store) == *final(old(self).store),
            exists|it: &mut IndexIterMut<D>, values: Seq<D::Row>|
                {
                    &&& operations::lists_indexed_mut(
                        it.left(),
                        schema::index_state::<D>(old(self).state()).entries,
                        old(self).state().rows,
                    )
                    &&& #[trigger] f.ensures((it,), r)
                    &&& values.len() == iter::taken(it.left().len(), final(it).left().len())
                    &&& forall|i: int|
                        0 <= i < values.len() ==> #[trigger] values[i] == *final(it.left()[i].2)
                    &&& final(it).left().len() <= it.left().len()
                        ==> values.len() + final(it).left().len()
                        == it.left().len()
                    &&& forall|i: int|
                        #![trigger it.left()[i]]
                        0 <= i < values.len()
                            ==> final(self).state().rows[*it.left()[i].1] == *final(it.left()[i].2)
                    &&& forall|k: D::BaseKey| #[trigger]
                        final(self).state().rows.contains_key(k)
                            <==> old(self).state().rows.contains_key(k)
                    &&& forall|k: D::BaseKey| #[trigger]
                        old(self).state().rows.contains_key(k) && (forall|i: int|
                            0 <= i < values.len() ==> *(#[trigger] it.left()[i]).1 != k)
                                ==> final(self).state().rows[k]
                            == old(self).state().rows[k]
                    &&& old(self).store.stepped(
                        *final(self).store,
                        schema::with_state::<D::BaseTable>(
                            old(self).store@,
                            #[trigger] old(self).state().rewrite(
                                operations::listed_base_keys(it.left(), values.len()),
                                values,
                            ),
                        ),
                    )
                },
    {
        let ghost start = self.store@;
        let ghost state = self.state();
        let ghost entries = schema::index_state::<D>(state).entries;
        proof {
            self.store.lemma_wf();
            schema::lemma_state::<D::BaseTable>(start, state);
            assert forall|rows: Map<D::BaseKey, D::Row>|
                table::violated::<D::BaseTable>(rows) is None implies #[trigger] table::admits::<
                D::BaseTable,
            >(rows) by {
                <<D::BaseTable as RowDesc>::IndexStorage>::lemma_violated(rows);
            }
            assert forall|after: TableState<D::BaseTable>| #[trigger]
                state.leads_to(after) implies after.poisoned() == table::violated::<D::BaseTable>(
                after.rows,
            ) by {
                state.lemma_leads_to(after);
            }
            assert forall|after: TableState<D::BaseTable>| schema::state_of::<D::BaseTable>(
                <StorageOf<D>>::settled(
                    #[trigger] schema::with_state::<D::BaseTable>(start, after),
                ),
            ).rows == after.rows by {
                schema::lemma_state::<D::BaseTable>(start, after);
                schema::lemma_state::<D::BaseTable>(start, after.settled());
            }
        }
        let change = |view: &mut IndexTransaction<'_, '_, D>| -> (out: T)
            requires
                view.wf(),
                view.state() == state,
                view.owner() == owner,
            ensures
                final(view).wf(),
                final(view).committed() == old(view).committed(),
                final(view).txn_id() == old(view).txn_id(),
                *final(final(view).base) == *final(old(view).base),
                *final(final(view).base.table) == *final(old(view).base.table),
                state.leads_to(final(view).state()),
                exists|it: &mut IndexIterMut<D>, values: Seq<D::Row>|
                    {
                        &&& operations::lists_indexed_mut(
                            it.left(),
                            entries,
                            state.rows,
                        )
                        &&& #[trigger] f.ensures((it,), out)
                        &&& values.len() == iter::taken(it.left().len(), final(it).left().len())
                        &&& forall|i: int|
                            0 <= i < values.len() ==> #[trigger] values[i] == *final(it.left()[i].2)
                        &&& final(it).left().len() <= it.left().len()
                            ==> values.len() + final(it).left().len()
                            == it.left().len()
                        &&& forall|i: int|
                            #![trigger it.left()[i]]
                            0 <= i < values.len()
                                ==> final(view).state().rows[*it.left()[i].1] == *final(it.left()[i].2)
                        &&& forall|k: D::BaseKey| #[trigger]
                            final(view).state().rows.contains_key(k) <==> state.rows.contains_key(k)
                        &&& forall|k: D::BaseKey| #[trigger]
                            state.rows.contains_key(k) && (forall|i: int|
                                0 <= i < values.len() ==> *(#[trigger] it.left()[i]).1 != k)
                                    ==> final(view).state().rows[k]
                                == state.rows[k]
                        &&& final(view).state() == #[trigger] state.rewrite(
                            operations::listed_base_keys(it.left(), values.len()),
                            values,
                        )
                    },
            { view.with_iter_mut(f) };
        let r = in_index_txn(self.store, owner, change);
        match r {
            Ok(out) => out,
            Err(_) => vstd::pervasive::unreached(),
        }
    }
}

/// An abstraction for operating on a table of key/values pairs via an index, with a fixed owner.
///
/// The owner-carrying counterpart of [`Index`]: the operations are the same, but the owner is
/// supplied once rather than on each call. Each operation says so first: what it gives is what the
/// operation of [`Index`] can give for that owner.
///
/// `D` describes the index table, its base table is `D::BaseTable`.
#[verifier::reject_recursive_types(D)]
pub struct IndexWithOwner<'store, D: IndexDesc> {
    pub inner: Index<'store, D>,
    pub owner: Owner,
}

impl<'store, D: IndexDesc> IndexWithOwner<'store, D> {
    /// What is visible of the base table.
    pub open spec fn state(&self) -> TableState<D::BaseTable> {
        self.inner.state()
    }

    /// Create an index accessor for `store`, used by `owner`.
    pub fn new(store: &'store mut KvStore<StorageOf<D>>, owner: Owner) -> (r: Self)
        ensures
            *r.inner.store == *old(store),
            *final(r.inner.store) == *final(store),
            r.owner == owner,
    {
        IndexWithOwner { inner: Index::new(store), owner }
    }

    /// Returns `Ok` if the index is consistent, and an error with some kind of explanation if not.
    pub fn check_consistent(&self) -> (r: Result<(), Error>)
        requires
            self.inner.store.wf(),
        ensures
            call_ensures(Index::<'store, D>::check_consistent, (&self.inner,), r),
            r == if schema::index_state::<D>(self.state()).poisoned {
                Err::<(), Error>(Error::NonUniqueIndexKey(D::NAME))
            } else {
                Ok(())
            },
            r is Ok,
    {
        self.inner.check_consistent()
    }

    /// Get a row of the table from the store by cloning the value.
    ///
    /// Returns `Error::NotPresent` if there is no value for the specified key.
    pub fn get(&self, key: &D::Key) -> (r: Result<(D::BaseKey, D::Row), Error>) where
        D::Row: Clone,

        requires
            self.inner.store.wf(),
        ensures
            call_ensures(Index::<'store, D>::get, (&self.inner, self.owner, key), r),
            operations::found_copy::<D>(self.state(), *key, r),
            forall|k: D::BaseKey|
                !schema::index_state::<D>(self.state()).poisoned && self.state().rows.contains_key(k)
                    && #[trigger] D::keys(self.state().rows[k]).contains(*key) ==> r is Ok
                    && r->Ok_0.0 == k && cloned(self.state().rows[k], r->Ok_0.1),
            r is Ok ==> {
                &&& !schema::index_state::<D>(self.state()).poisoned
                &&& self.state().rows.contains_key(r->Ok_0.0)
                &&& D::keys(self.state().rows[r->Ok_0.0]).contains(*key)
                &&& cloned(self.state().rows[r->Ok_0.0], r->Ok_0.1)
            },
    {
        proof {
            self.inner.store.lemma_wf();
            schema::lemma_state::<D::BaseTable>(self.inner.store@, self.state());
            lemma_got::<D>(self.state(), *key);
        }
        self.inner.get(self.owner, key)
    }

    /// Get immutable access to a row of the table in the store by reference.
    ///
    /// Returns `Error::NotPresent` (and does not call `f`) if there is no value for the specified key.
    pub fn with<T, F: FnOnce(&D::BaseKey, &D::Row) -> T>(
        &self,
        key: &D::Key,
        f: F,
    ) -> (r: Result<T, Error>)
        requires
            self.inner.store.wf(),
            operations::lookup::<D>(self.state(), *key) matches Ok((k, v)) ==> f.requires((&k, &v)),
        ensures
            call_ensures(Index::<'store, D>::with::<T, F>, (&self.inner, self.owner, key, f), r),
            match operations::lookup::<D>(self.state(), *key) {
                Ok((k, v)) => r matches Ok(out) && f.ensures((&k, &v), out),
                Err(e) => r == Err::<T, Error>(e),
            },
    {
        self.inner.with(self.owner, key, f)
    }

    /// Get mutable access to a row of the table in the store.
    ///
    /// Returns `Error::NotPresent` (and does not call `f`) if there is no value for the specified
    /// key. Fails, and changes nothing, if an index key does not identify a row after `f`.
    pub fn with_mut<T, F: FnOnce(&D::BaseKey, &mut D::Row) -> T>(
        &mut self,
        key: &D::Key,
        f: F,
    ) -> (r: Result<T, Error>) where D::Row: Clone
        requires
            old(self).inner.store.wf(),
            old(self).inner.store.txns_left() > 0,
            old(self).owner@ == <D::BaseTable as RowDesc>::OWNER@,
            operations::lookup::<D>(old(self).state(), *key) matches Ok((k, v)) ==> {
                &&& forall|m: &mut D::Row| cloned(v, *m) ==> #[trigger] f.requires((&k, m))
                &&& forall|m: &mut D::Row, out: T|
                    cloned(v, *m) && #[trigger] f.ensures((&k, m), out) ==> table::admits::<
                        D::BaseTable,
                    >(old(self).state().rows.insert(k, *final(m)))
            },
        ensures
            exists|inner: &mut Index<'store, D>|
                *inner == old(self).inner && *final(inner) == final(self).inner
                    && #[trigger] call_ensures(
                    Index::<'store, D>::with_mut::<T, F>,
                    (inner, old(self).owner, key, f),
                    r,
                ),
            final(self).owner == old(self).owner,
            *final(final(self).inner.store) == *final(old(self).inner.store),
            match operations::lookup::<D>(old(self).state(), *key) {
                Ok((k, v)) => exists|m: &mut D::Row, out: T|
                    {
                        &&& cloned(v, *m)
                        &&& #[trigger] f.ensures((&k, m), out)
                        &&& match table::violated::<D::BaseTable>(
                            old(self).state().rows.insert(k, *final(m)),
                        ) {
                            Some(name) => {
                                &&& r == Err::<T, Error>(Error::NonUniqueIndexKey(name))
                                &&& old(self).inner.store.unchanged(*final(self).inner.store)
                            },
                            None => {
                                &&& r == Ok::<T, Error>(out)
                                &&& old(self).inner.store.stepped(
                                    *final(self).inner.store,
                                    schema::with_state::<D::BaseTable>(
                                        old(self).inner.store@,
                                        old(self).state().mutate(k, *final(m)),
                                    ),
                                )
                            },
                        }
                    },
                Err(e) => {
                    &&& r == Err::<T, Error>(e)
                    &&& old(self).inner.store.stepped(*final(self).inner.store, old(self).inner.store@)
                },
            },
    {
        self.inner.with_mut(self.owner, key, f)
    }

    /// Remove a row from the table.
    pub fn remove(&mut self, key: &D::Key)
        requires
            old(self).inner.store.wf(),
            old(self).inner.store.txns_left() > 0,
            old(self).owner@ == <D::BaseTable as RowDesc>::OWNER@,
        ensures
            exists|inner: &mut Index<'store, D>|
                *inner == old(self).inner && *final(inner) == final(self).inner
                    && #[trigger] call_ensures(
                    Index::<'store, D>::remove,
                    (inner, old(self).owner, key),
                    (),
                ),
            final(self).owner == old(self).owner,
            *final(final(self).inner.store) == *final(old(self).inner.store),
            old(self).inner.store.stepped(
                *final(self).inner.store,
                match operations::lookup::<D>(old(self).state(), *key) {
                    Ok((k, _)) => schema::with_state::<D::BaseTable>(
                        old(self).inner.store@,
                        old(self).state().remove(k),
                    ),
                    Err(_) => old(self).inner.store@,
                },
            ),
    {
        self.inner.remove(self.owner, key)
    }

    /// Pass an iterator over all the keys in the index and values in the base table to `f`.
    pub fn with_iter<T, F: FnOnce(&mut IndexIterator<'_, D, KeysAndValues>) -> T>(
        &self,
        f: F,
    ) -> (r: T)
        requires
            self.inner.store.wf(),
            forall|it: &mut IndexIterator<D, KeysAndValues>|
                storage::lists(it.left(), schema::index_state::<D>(self.state()).entries)
                    && it.rows() == self.state().rows ==> #[trigger] f.requires((it,)),
        ensures
            call_ensures(Index::<'store, D>::with_iter::<T, F>, (&self.inner, self.owner, f), r),
            exists|it: &mut IndexIterator<D, KeysAndValues>|
                storage::lists(it.left(), schema::index_state::<D>(self.state()).entries)
                    && it.rows() == self.state().rows && #[trigger] f.ensures((it,), r),
    {
        self.inner.with_iter(self.owner, f)
    }

    /// Pass an iterator over all the keys in the index to `f`.
    pub fn with_keys<T, F: FnOnce(&mut IndexIterator<'_, D, Keys>) -> T>(
        &self,
        f: F,
    ) -> (r: T)
        requires
            self.inner.store.wf(),
            forall|it: &mut IndexIterator<D, Keys>|
                storage::lists(it.left(), schema::index_state::<D>(self.state()).entries)
                    && it.rows() == self.state().rows ==> #[trigger] f.requires((it,)),
        ensures
            call_ensures(Index::<'store, D>::with_keys::<T, F>, (&self.inner, self.owner, f), r),
            exists|it: &mut IndexIterator<D, Keys>|
                storage::lists(it.left(), schema::index_state::<D>(self.state()).entries)
                    && it.rows() == self.state().rows && #[trigger] f.ensures((it,), r),
    {
        self.inner.with_keys(self.owner, f)
    }

    /// Pass an iterator over all the key/value pairs in the table which have an index key, with
    /// mutable access to the values, to `f`.
    ///
    /// Each index key has to identify a row again after `f`.
    pub fn with_iter_mut<T, F: FnOnce(&mut IndexIterMut<'_, D>) -> T>(
        &mut self,
        f: F,
    ) -> (r: T) where D::Row: Clone
        requires
            old(self).inner.store.wf(),
            old(self).inner.store.txns_left() > 0,
            old(self).owner@ == <D::BaseTable as RowDesc>::OWNER@,
            forall|it: &mut IndexIterMut<D>|
                operations::lists_indexed_mut(
                    it.left(),
                    schema::index_state::<D>(old(self).state()).entries,
                    old(self).state().rows,
                ) ==> #[trigger] f.requires((it,)),
            forall|it: &mut IndexIterMut<D>, out: T, values: Seq<D::Row>|
                #![trigger f.ensures((it,), out), table::violated::<D::BaseTable>(table::with_values(
                    old(self).state().rows,
                    operations::listed_base_keys(it.left(), values.len()),
                    values,
                ))]
                operations::lists_indexed_mut(
                    it.left(),
                    schema::index_state::<D>(old(self).state()).entries,
                    old(self).state().rows,
                ) && f.ensures((it,), out)
                    && values.len() == iter::taken(it.left().len(), final(it).left().len()) && (
                forall|i: int|
                    0 <= i < values.len() ==> #[trigger] values[i] == *final(it.left()[i].2))
                    ==> table::violated::<D::BaseTable>(table::with_values(
                    old(self).state().rows,
                    operations::listed_base_keys(it.left(), values.len()),
                    values,
                )) is None,
        ensures
            exists|inner: &mut Index<'store, D>|
                *inner == old(self).inner && *final(inner) == final(self).inner
                    && #[trigger] call_ensures(
                    Index::<'store, D>::with_iter_mut::<T, F>,
                    (inner, old(self).owner, f),
                    r,
                ),
            final(self).owner == old(self).owner,
            *final(final(self).inner.store) == *final(old(self).inner.store),
            exists|it: &mut IndexIterMut<D>, values: Seq<D::Row>|
                {
                    &&& operations::lists_indexed_mut(
                        it.left(),
                        schema::index_state::<D>(old(self).state()).entries,
                        old(self).state().rows,
                    )
                    &&& #[trigger] f.ensures((it,), r)
                    &&& values.len() == iter::taken(it.left().len(), final(it).left().len())
                    &&& forall|i: int|
                        0 <= i < values.len() ==> #[trigger] values[i] == *final(it.left()[i].2)
                    &&& final(it).left().len() <= it.left().len()
                        ==> values.len() + final(it).left().len()
                        == it.left().len()
                    &&& forall|i: int|
                        #![trigger it.left()[i]]
                        0 <= i < values.len()
                            ==> final(self).state().rows[*it.left()[i].1] == *final(it.left()[i].2)
                    &&& forall|k: D::BaseKey| #[trigger]
                        final(self).state().rows.contains_key(k)
                            <==> old(self).state().rows.contains_key(k)
                    &&& forall|k: D::BaseKey| #[trigger]
                        old(self).state().rows.contains_key(k) && (forall|i: int|
                            0 <= i < values.len() ==> *(#[trigger] it.left()[i]).1 != k)
                                ==> final(self).state().rows[k]
                            == old(self).state().rows[k]
                    &&& old(self).inner.store.stepped(
                        *final(self).inner.store,
                        schema::with_state::<D::BaseTable>(
                            old(self).inner.store@,
                            #[trigger] old(self).state().rewrite(
                                operations::listed_base_keys(it.left(), values.len()),
                                values,
                            ),
                        ),
                    )
                },
    {
        assert(self.state() == self.inner.state());
        self.inner.with_iter_mut(self.owner, f)
    }
}

} // verus!
