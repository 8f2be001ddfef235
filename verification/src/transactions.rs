//! Access to tables and singletons within transactions.

use crate::iter;
use crate::iter::{Keys, KeysAndValues, TableIterMut, TableIterator, Values};
use crate::operations;
use crate::operations::{SingletonMut, SingletonRef, TableMut, TableRef};
use crate::owner::Owner;
use crate::schema;
use crate::schema::{SingletonDesc, TableDesc};
use crate::storage;
use crate::storage::{TxnId, VersionedValue};
use crate::table;
use crate::table::{Table, TableState};
use vstd::prelude::*;

verus! {

/// Access to a table within a transaction.
#[verifier::reject_recursive_types(D)]
pub struct TableTransaction<'a, D: TableDesc> {
    pub table: &'a mut Table<D>,
    pub txn_id: TxnId,
    pub owner: Owner,
}

impl<'a, D: TableDesc> TableTransaction<'a, D> {
    /// What the transaction sees of the table.
    pub open spec fn state(&self) -> TableState<D> {
        self.table.state(self.txn_id)
    }

    /// What is visible of the table in the committed state.
    pub open spec fn committed(&self) -> TableState<D> {
        self.table.state(storage::prior(self.txn_id))
    }

    /// The table has nothing newer than the transaction.
    pub open spec fn wf(&self) -> bool {
        self.table.wf(self.txn_id)
    }

    /// Read access to the table.
    pub fn table_ref(&self) -> (r: TableRef<'_, D>)
        requires
            self.wf(),
        ensures
            r.wf(),
            r.state() == self.state(),
    {
        TableRef::new(&*self.table, self.txn_id)
    }

    /// Mutable access to the table.
    pub fn table_mut(&mut self) -> (r: TableMut<'_, D>)
        requires
            old(self).wf(),
        ensures
            r.wf(),
            r.txn_id == old(self).txn_id,
            r.state() == old(self).state(),
            r.committed() == old(self).committed(),
            *final(self).table == *final(r.table),
            final(self).txn_id == old(self).txn_id,
            final(self).owner == old(self).owner,
            *final(final(self).table) == *final(old(self).table),
    {
        TableMut::new(&mut *self.table, self.txn_id)
    }

    /// The transaction's owner.
    pub fn txn_owner(&self) -> (r: Owner)
        ensures
            r == self.owner,
    {
        self.owner
    }

    /// The number of rows.
    pub fn len(&self) -> (r: usize)
        requires
            self.wf(),
        ensures
            self.state().rows.dom().finite(),
            r == self.state().rows.len(),
    {
        self.table_ref().len()
    }

    /// Whether there are no rows.
    pub fn is_empty(&self) -> (r: bool)
        requires
            self.wf(),
        ensures
            r <==> self.state().rows == Map::<D::Key, D::Value>::empty(),
    {
        self.table_ref().is_empty()
    }

    /// Get a row of the table by cloning the value.
    pub fn get(&self, key: &D::Key) -> (r: Option<D::Value>) where D::Value: Clone
        requires
            self.wf(),
        ensures
            r is Some <==> self.state().rows.contains_key(*key),
            r matches Some(v) ==> cloned(self.state().rows[*key], v),
    {
        match self.table_ref().get(key) {
            Some(v) => Some(v.clone()),
            None => None,
        }
    }

    /// Get immutable access to a row of the table by reference.
    ///
    /// Returns `None` (and does not call `f`) if there is no value for the specified key.
    pub fn with<T, F: FnOnce(&D::Value) -> T>(&self, key: &D::Key, f: F) -> (r: Option<T>)
        requires
            self.wf(),
            self.state().rows.contains_key(*key) ==> f.requires((&self.state().rows[*key],)),
        ensures
            r is Some <==> self.state().rows.contains_key(*key),
            r matches Some(out) ==> f.ensures((&self.state().rows[*key],), out),
    {
        match self.table_ref().get(key) {
            Some(v) => Some(f(v)),
            None => None,
        }
    }

    /// Iterate over the rows.
    pub fn iter(&self) -> (r: TableIterator<'_, D, KeysAndValues>)
        requires
            self.wf(),
        ensures
            storage::lists(r.left(), self.state().rows),
    {
        self.table_ref().iter()
    }

    /// Iterate over the keys.
    pub fn keys(&self) -> (r: TableIterator<'_, D, Keys>)
        requires
            self.wf(),
        ensures
            storage::lists(r.left(), self.state().rows),
    {
        self.table_ref().iter()
    }

    /// Iterate over the values.
    pub fn values(&self) -> (r: TableIterator<'_, D, Values>)
        requires
            self.wf(),
        ensures
            storage::lists(r.left(), self.state().rows),
    {
        self.table_ref().iter()
    }

    /// Remove all rows.
    pub fn clear(&mut self)
        requires
            old(self).wf(),
            old(self).owner@ == D::OWNER@,
        ensures
            final(self).wf(),
            final(self).committed() == old(self).committed(),
            final(self).txn_id == old(self).txn_id,
            final(self).owner == old(self).owner,
            *final(final(self).table) == *final(old(self).table),
            final(self).state() == old(self).state().clear(),
    {
        let owner = self.txn_owner();
        self.table_mut().clear(owner)
    }

    /// Insert a row, in place of an earlier one with the same key.
    pub fn insert(&mut self, key: D::Key, value: D::Value)
        requires
            old(self).wf(),
            old(self).owner@ == D::OWNER@,
            table::admits::<D>(old(self).state().rows.insert(key, value)),
        ensures
            final(self).wf(),
            final(self).committed() == old(self).committed(),
            final(self).txn_id == old(self).txn_id,
            final(self).owner == old(self).owner,
            *final(final(self).table) == *final(old(self).table),
            final(self).state() == old(self).state().insert(key, value),
    {
        let owner = self.txn_owner();
        self.table_mut().insert(key, value, owner)
    }

    /// Pass the row of `key` to `f`, and keep what `f` leaves in its place.
    ///
    /// Returns `None` (and does not call `f`) if there is no value for the specified key.
    pub fn with_mut<T, F: FnOnce(&mut D::Value) -> T>(&mut self, key: &D::Key, f: F) -> (r: Option<
        T,
    >) where D::Value: Clone
        requires
            old(self).wf(),
            old(self).owner@ == D::OWNER@,
            old(self).state().rows.contains_key(*key) ==> {
                &&& forall|m: &mut D::Value|
                    cloned(old(self).state().rows[*key], *m) ==> #[trigger] f.requires((m,))
                &&& forall|m: &mut D::Value, out: T|
                    cloned(old(self).state().rows[*key], *m) && #[trigger] f.ensures((m,), out)
                        ==> table::admits::<D>(old(self).state().rows.insert(*key, *final(m)))
            },
        ensures
            final(self).wf(),
            final(self).committed() == old(self).committed(),
            final(self).txn_id == old(self).txn_id,
            final(self).owner == old(self).owner,
            *final(final(self).table) == *final(old(self).table),
            r is Some <==> old(self).state().rows.contains_key(*key),
            r is None ==> final(self).state() == old(self).state(),
            r is Some ==> exists|m: &mut D::Value|
                cloned(old(self).state().rows[*key], *m) && #[trigger] f.ensures((m,), r->0)
                    && final(self).state() == old(self).state().mutate(*key, *final(m)),
    {
        let owner = self.txn_owner();
        self.table_mut().with_mut(key, f, owner)
    }

    /// Remove the row of `key`, if there is one.
    pub fn remove(&mut self, key: &D::Key)
        requires
            old(self).wf(),
            old(self).owner@ == D::OWNER@,
        ensures
            final(self).wf(),
            final(self).committed() == old(self).committed(),
            final(self).txn_id == old(self).txn_id,
            final(self).owner == old(self).owner,
            *final(final(self).table) == *final(old(self).table),
            final(self).state() == old(self).state().remove(*key),
    {
        let owner = self.txn_owner();
        self.table_mut().remove(key, owner)
    }

    /// Pass an iterator over the table giving mutable access to its values to `f`.
    ///
    /// Access is scoped by a closure, because the table's indexes are updated from the mutated
    /// values once `f` returns.
    pub fn with_iter_mut<T, F: FnOnce(&mut TableIterMut<'_, D>) -> T>(
        &mut self,
        f: F,
    ) -> (r: T) where D::Value: Clone
        requires
            old(self).wf(),
            old(self).owner@ == D::OWNER@,
            forall|it: &mut TableIterMut<D>|
                operations::lists_mut(it.left(), old(self).state().rows)
                    ==> #[trigger] f.requires((it,)),
            forall|it: &mut TableIterMut<D>, out: T, values: Seq<D::Value>|
                #![trigger f.ensures((it,), out), table::admits::<D>(table::with_values(
                    old(self).state().rows,
                    operations::listed_keys(it.left(), values.len()),
                    values,
                ))]
                operations::lists_mut(it.left(), old(self).state().rows) && f.ensures((it,), out)
                    && values.len() == iter::taken(it.left().len(), final(it).left().len()) && (
                forall|i: int|
                    0 <= i < values.len() ==> #[trigger] values[i] == *final(it.left()[i].1))
                    ==> table::admits::<D>(table::with_values(
                    old(self).state().rows,
                    operations::listed_keys(it.left(), values.len()),
                    values,
                )),
        ensures
            final(self).wf(),
            final(self).committed() == old(self).committed(),
            final(self).txn_id == old(self).txn_id,
            final(self).owner == old(self).owner,
            *final(final(self).table) == *final(old(self).table),
            old(self).state().leads_to(final(self).state()),
            exists|it: &mut TableIterMut<D>, values: Seq<D::Value>|
                {
                    &&& operations::lists_mut(it.left(), old(self).state().rows)
                    &&& #[trigger] f.ensures((it,), r)
                    &&& values.len() == iter::taken(it.left().len(), final(it).left().len())
                    &&& forall|i: int|
                        0 <= i < values.len() ==> #[trigger] values[i] == *final(it.left()[i].1)
                    &&& final(it).left().len() <= it.left().len()
                        ==> values.len() + final(it).left().len()
                        == it.left().len()
                    &&& forall|i: int|
                        #![trigger it.left()[i]]
                        0 <= i < values.len()
                            ==> final(self).state().rows[*it.left()[i].0] == *final(it.left()[i].1)
                    &&& forall|k: D::Key| #[trigger]
                        final(self).state().rows.contains_key(k)
                            <==> old(self).state().rows.contains_key(k)
                    &&& forall|k: D::Key| #[trigger]
                        old(self).state().rows.contains_key(k) && (forall|i: int|
                            0 <= i < values.len() ==> *(#[trigger] it.left()[i]).0 != k)
                                ==> final(self).state().rows[k]
                            == old(self).state().rows[k]
                    &&& final(self).state() == #[trigger] old(self).state().rewrite(
                        operations::listed_keys(it.left(), values.len()),
                        values,
                    )
                },
    {
        let owner = self.txn_owner();
        self.table_mut().with_iter_mut(owner, f)
    }
}

/// Access to a singleton within a transaction.
#[verifier::reject_recursive_types(S)]
pub struct SingletonTransaction<'a, S: SingletonDesc> {
    pub value: &'a mut VersionedValue<Option<S::Value>>,
    pub txn_id: TxnId,
    pub owner: Owner,
}

impl<'a, S: SingletonDesc> SingletonTransaction<'a, S> {
    /// What the transaction sees of the singleton.
    pub open spec fn state(&self) -> Option<S::Value> {
        schema::visible(*self.value, self.txn_id).value
    }

    /// Whether the transaction has written the singleton.
    pub open spec fn written(&self) -> bool {
        schema::visible(*self.value, self.txn_id).written
    }

    /// The value in the committed state.
    pub open spec fn committed(&self) -> Option<S::Value> {
        schema::visible(*self.value, storage::prior(self.txn_id)).value
    }

    /// The singleton has nothing newer than the transaction.
    pub open spec fn wf(&self) -> bool {
        self.txn_id > 0 && self.value.wf(self.txn_id)
    }

    /// Get the value by cloning it.
    pub fn get(&self) -> (r: Option<S::Value>) where S::Value: Clone
        ensures
            r is Some <==> self.state() is Some,
            r matches Some(v) ==> cloned(self.state()->0, v),
    {
        match SingletonRef::<S>::new(&*self.value, self.txn_id).get() {
            Some(v) => Some(v.clone()),
            None => None,
        }
    }

    /// Get immutable access to the value by reference.
    ///
    /// Returns `None` (and does not call `f`) if there is no value.
    pub fn with<T, F: FnOnce(&S::Value) -> T>(&self, f: F) -> (r: Option<T>)
        requires
            self.state() matches Some(v) ==> f.requires((&v,)),
        ensures
            r is Some <==> self.state() is Some,
            r matches Some(out) ==> f.ensures((&self.state()->0,), out),
    {
        match SingletonRef::<S>::new(&*self.value, self.txn_id).get() {
            Some(v) => Some(f(v)),
            None => None,
        }
    }

    /// Set the value.
    pub fn insert(&mut self, value: S::Value)
        requires
            old(self).wf(),
            old(self).owner@ == S::OWNER@,
        ensures
            final(self).wf(),
            final(self).committed() == old(self).committed(),
            final(self).txn_id == old(self).txn_id,
            final(self).owner == old(self).owner,
            *final(final(self).value) == *final(old(self).value),
            final(self).state() == Some(value),
            final(self).written(),
    {
        SingletonMut::<S>::new(&mut *self.value, self.txn_id).insert(value, self.owner)
    }

    /// Remove the value.
    pub fn remove(&mut self)
        requires
            old(self).wf(),
            old(self).owner@ == S::OWNER@,
        ensures
            final(self).wf(),
            final(self).committed() == old(self).committed(),
            final(self).txn_id == old(self).txn_id,
            final(self).owner == old(self).owner,
            *final(final(self).value) == *final(old(self).value),
            final(self).state() == None::<S::Value>,
            final(self).written(),
    {
        SingletonMut::<S>::new(&mut *self.value, self.txn_id).remove(self.owner)
    }

    /// Pass the value to `f`, and keep what `f` leaves in its place.
    ///
    /// Returns `None` (and does not call `f`) if there is no value.
    pub fn with_mut<T, F: FnOnce(&mut S::Value) -> T>(&mut self, f: F) -> (r: Option<T>) where
        S::Value: Clone,

        requires
            old(self).wf(),
            old(self).owner@ == S::OWNER@,
            old(self).state() matches Some(v) ==> forall|m: &mut S::Value|
                cloned(v, *m) ==> #[trigger] f.requires((m,)),
        ensures
            final(self).wf(),
            final(self).committed() == old(self).committed(),
            final(self).txn_id == old(self).txn_id,
            final(self).owner == old(self).owner,
            *final(final(self).value) == *final(old(self).value),
            r is Some <==> old(self).state() is Some,
            r is None ==> final(self).state() == old(self).state() && final(self).written()
                == old(self).written(),
            r is Some ==> final(self).written(),
            r is Some ==> exists|m: &mut S::Value|
                cloned(old(self).state()->0, *m) && #[trigger] f.ensures((m,), r->0)
                    && final(self).state() == Some(*final(m)),
    {
        SingletonMut::<S>::new(&mut *self.value, self.txn_id).with_mut(f, self.owner)
    }
}

/// Access to a table within a read-only transaction.
#[verifier::reject_recursive_types(D)]
pub struct RoTableTransaction<'a, D: TableDesc> {
    pub table: TableRef<'a, D>,
}

impl<'a, D: TableDesc> RoTableTransaction<'a, D> {
    /// What the transaction sees of the table.
    pub open spec fn state(&self) -> TableState<D> {
        self.table.state()
    }

    /// The table's indexes are those of its rows.
    pub open spec fn wf(&self) -> bool {
        self.table.wf()
    }

    /// Read access to the table.
    pub fn table_ref(&self) -> (r: TableRef<'a, D>)
        ensures
            r == self.table,
    {
        self.table
    }

    /// The number of rows.
    pub fn len(&self) -> (r: usize)
        requires
            self.wf(),
        ensures
            self.state().rows.dom().finite(),
            r == self.state().rows.len(),
    {
        self.table_ref().len()
    }

    /// Whether there are no rows.
    pub fn is_empty(&self) -> (r: bool)
        requires
            self.wf(),
        ensures
            r <==> self.state().rows == Map::<D::Key, D::Value>::empty(),
    {
        self.table_ref().is_empty()
    }

    /// Get a row of the table by cloning the value.
    pub fn get(&self, key: &D::Key) -> (r: Option<D::Value>) where D::Value: Clone
        requires
            self.wf(),
        ensures
            r is Some <==> self.state().rows.contains_key(*key),
            r matches Some(v) ==> cloned(self.state().rows[*key], v),
    {
        match self.table_ref().get(key) {
            Some(v) => Some(v.clone()),
            None => None,
        }
    }

    /// Get immutable access to a row of the table by reference.
    ///
    /// Returns `None` (and does not call `f`) if there is no value for the specified key.
    pub fn with<T, F: FnOnce(&D::Value) -> T>(&self, key: &D::Key, f: F) -> (r: Option<T>)
        requires
            self.wf(),
            self.state().rows.contains_key(*key) ==> f.requires((&self.state().rows[*key],)),
        ensures
            r is Some <==> self.state().rows.contains_key(*key),
            r matches Some(out) ==> f.ensures((&self.state().rows[*key],), out),
    {
        match self.table_ref().get(key) {
            Some(v) => Some(f(v)),
            None => None,
        }
    }

    /// Iterate over the rows.
    pub fn iter(&self) -> (r: TableIterator<'a, D, KeysAndValues>)
        requires
            self.wf(),
        ensures
            storage::lists(r.left(), self.state().rows),
    {
        self.table_ref().iter()
    }

    /// Iterate over the keys.
    pub fn keys(&self) -> (r: TableIterator<'a, D, Keys>)
        requires
            self.wf(),
        ensures
            storage::lists(r.left(), self.state().rows),
    {
        self.table_ref().iter()
    }

    /// Iterate over the values.
    pub fn values(&self) -> (r: TableIterator<'a, D, Values>)
        requires
            self.wf(),
        ensures
            storage::lists(r.left(), self.state().rows),
    {
        self.table_ref().iter()
    }
}

/// Access to a singleton within a read-only transaction.
#[verifier::reject_recursive_types(S)]
pub struct RoSingletonTransaction<'a, S: SingletonDesc> {
    pub value: SingletonRef<'a, S>,
}

impl<'a, S: SingletonDesc> RoSingletonTransaction<'a, S> {
    /// What the transaction sees of the singleton.
    pub open spec fn state(&self) -> Option<S::Value> {
        self.value.state()
    }

    /// Get the value by cloning it.
    pub fn get(&self) -> (r: Option<S::Value>) where S::Value: Clone
        ensures
            r is Some <==> self.state() is Some,
            r matches Some(v) ==> cloned(self.state()->0, v),
    {
        match self.value.get() {
            Some(v) => Some(v.clone()),
            None => None,
        }
    }

    /// Get immutable access to the value by reference.
    ///
    /// Returns `None` (and does not call `f`) if there is no value.
    pub fn with<T, F: FnOnce(&S::Value) -> T>(&self, f: F) -> (r: Option<T>)
        requires
            self.state() matches Some(v) ==> f.requires((&v,)),
        ensures
            r is Some <==> self.state() is Some,
            r matches Some(out) ==> f.ensures((&self.state()->0,), out),
    {
        match self.value.get() {
            Some(v) => Some(f(v)),
            None => None,
        }
    }
}

} // verus!
