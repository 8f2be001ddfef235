//! Generic implementations of the various storage operations.
//!
//! Operations are implemented on handle types which give access to exactly the data an operation
//! needs: a single table (`TableRef` and `TableMut`), a table accessed via one of its indexes
//! (`IndexRef` and `IndexMut`), or a single singleton (`SingletonRef` and `SingletonMut`). The
//! public accessor types (raw, owned, transactional, and read-only transactional) create these
//! handles and delegate to them.
//!
//! All mutating operations happen within a transaction; raw (non-transactional) mutations are
//! single-operation transactions.

use crate::error::Error;
use crate::events::SingleState;
use crate::index_table::IndexState;
use crate::iter;
use crate::iter::{IndexIterMut, IndexIterator, TableIterMut, TableIterator};
use crate::owner::{assert_is_owner, Owner};
use crate::schema;
use crate::schema::{
    IndexDesc, IndexKeys, IndexStorage, RowDesc, SingletonDesc, SingletonValue, TableDesc,
};
use crate::storage;
use crate::storage::{clone_key, Mark, TxnId, VersionedValue};
use crate::store::KvStore;
use crate::table;
use crate::table::{Table, TableState};
use std::collections::HashMap;
use vstd::prelude::*;

verus! {

/// Read access to a single table, as seen by a transaction (or the latest committed state).
#[verifier::reject_recursive_types(D)]
pub struct TableRef<'a, D: TableDesc> {
    pub table: &'a Table<D>,
    pub txn_id: TxnId,
}

impl<'a, D: TableDesc> Clone for TableRef<'a, D> {
    fn clone(&self) -> (r: Self)
        ensures
            r == *self,
    {
        *self
    }
}

impl<'a, D: TableDesc> Copy for TableRef<'a, D> {

}

impl<'a, D: TableDesc> TableRef<'a, D> {
    /// What is visible of the table.
    pub open spec fn state(&self) -> TableState<D> {
        self.table.state(self.txn_id)
    }

    /// The table's indexes are those of its rows.
    pub open spec fn wf(&self) -> bool {
        &&& storage::key_model::<D::Key>()
        &&& <D::IndexStorage>::key_model()
        &&& self.state().consistent()
    }

    /// Access `table` as visible at `txn_id`.
    pub fn new(table: &'a Table<D>, txn_id: TxnId) -> (r: Self)
        ensures
            r == (TableRef { table, txn_id }),
    {
        TableRef { table, txn_id }
    }

    /// Access `D`'s table in the committed state of `store`.
    pub fn from_storage(store: &'a KvStore<D::Storage>) -> (r: Self)
        requires
            store.wf(),
        ensures
            r.wf(),
            r.state() == schema::state_of::<D>(store@),
    {
        store.table_ref()
    }

    /// The number of rows.
    pub fn len(self) -> (r: usize)
        requires
            self.wf(),
        ensures
            self.state().rows.dom().finite(),
            r == self.state().rows.len(),
    {
        self.table.len(self.txn_id)
    }

    /// Whether there are no rows.
    pub fn is_empty(self) -> (r: bool)
        requires
            self.wf(),
        ensures
            r <==> self.state().rows == Map::<D::Key, D::Value>::empty(),
    {
        self.table.is_empty(self.txn_id)
    }

    /// The row of `key`.
    pub fn get(self, key: &D::Key) -> (r: Option<&'a D::Value>)
        requires
            self.wf(),
        ensures
            r == match self.state().rows.get(*key) {
                Some(v) => Some(&v),
                None => None,
            },
    {
        self.table.get(key, self.txn_id)
    }

    /// Iterate over the rows.
    pub fn iter<Kind>(self) -> (r: TableIterator<'a, D, Kind>)
        requires
            self.wf(),
        ensures
            storage::lists(r.left(), self.state().rows),
    {
        TableIterator::new(self.table.visible(self.txn_id))
    }
}

/// Pair each of `keys` with access to the value in the same place of `values`.
fn pair_up<'b, K, V>(keys: &'b [K], values: &'b mut [V]) -> (r: Vec<(&'b K, &'b mut V)>)
    requires
        keys@.len() == old(values)@.len(),
    ensures
        r@.len() == keys@.len(),
        final(values)@.len() == keys@.len(),
        forall|i: int| #![trigger r@[i]]
            0 <= i < keys@.len() ==> {
                &&& *r@[i].0 == keys@[i]
                &&& *r@[i].1 == old(values)@[i]
                &&& *final(r@[i].1) == final(values)@[i]
            },
{
    let ghost start = values@;
    let ghost end = final(values)@;
    let mut pairs: Vec<(&'b K, &'b mut V)> = Vec::new();
    let mut left = values;
    let mut n: usize = 0;
    while n < keys.len()
        invariant
            n <= keys@.len(),
            start.len() == keys@.len(),
            pairs@.len() == n,
            left@ == start.skip(n as int),
            n <= end.len(),
            final(left)@ == end.skip(n as int),
            forall|i: int| #![trigger pairs@[i]]
                0 <= i < n ==> {
                    &&& *pairs@[i].0 == keys@[i]
                    &&& *pairs@[i].1 == start[i]
                    &&& *final(pairs@[i].1) == end[i]
                },
        decreases keys.len() - n,
    {
        let ghost future = final(left)@;
        let (first, rest) = left.split_at_mut(1);
        if let Some(value) = first.first_mut() {
            pairs.push((&keys[n], value));
        }
        proof {
            let tail = final(rest)@;
            assert(future =~= seq![future[0]] + tail);
            assert(future.skip(1) =~= tail);
            assert(end.skip(n as int).skip(1) =~= end.skip(n + 1));
            assert(end[n as int] == future[0]);
        }
        left = rest;
        n += 1;
    }
    pairs
}

/// Put each of `index_keys` and `keys` together with access to the value in the same place of
/// `values`.
fn triple_up<'b, X, K, V>(
    index_keys: &'b [X],
    keys: &'b [K],
    values: &'b mut [V],
) -> (r: Vec<(&'b X, &'b K, &'b mut V)>)
    requires
        index_keys@.len() == old(values)@.len(),
        keys@.len() == old(values)@.len(),
    ensures
        r@.len() == keys@.len(),
        final(values)@.len() == keys@.len(),
        forall|i: int| #![trigger r@[i]]
            0 <= i < keys@.len() ==> {
                &&& *r@[i].0 == index_keys@[i]
                &&& *r@[i].1 == keys@[i]
                &&& *r@[i].2 == old(values)@[i]
                &&& *final(r@[i].2) == final(values)@[i]
            },
{
    let pairs = pair_up(keys, values);
    let ghost all = pairs@;
    let mut triples: Vec<(&'b X, &'b K, &'b mut V)> = Vec::new();
    for pair in it: pairs.into_iter()
        invariant
            it.seq() == all,
            all.len() == index_keys@.len(),
            triples@.len() == it.index(),
            forall|i: int| #![trigger triples@[i]]
                0 <= i < it.index() ==> {
                    &&& *triples@[i].0 == index_keys@[i]
                    &&& triples@[i].1 == all[i].0
                    &&& *triples@[i].2 == *all[i].1
                    &&& *final(triples@[i].2) == *final(all[i].1)
                },
    {
        let n: usize = triples.len();
        triples.push((&index_keys[n], pair.0, pair.1));
    }
    triples
}

/// Whether `listed` are the rows, each once, with access to copies of their values.
pub open spec fn lists_mut<K, V: Clone>(listed: Seq<(&K, &mut V)>, rows: Map<K, V>) -> bool {
    &&& forall|i: int|
        0 <= i < listed.len() ==> rows.contains_key(*(#[trigger] listed[i]).0) && cloned(
            rows[*listed[i].0],
            *listed[i].1,
        )
    &&& forall|k: K| #[trigger]
        rows.contains_key(k) ==> exists|i: int|
            0 <= i < listed.len() && *(#[trigger] listed[i]).0 == k
    &&& forall|i: int, j: int|
        0 <= i < j < listed.len() ==> *(#[trigger] listed[i]).0 != *(#[trigger] listed[j]).0
}

/// The keys of the first `n` listed rows.
pub open spec fn listed_keys<K, V>(listed: Seq<(&K, &mut V)>, n: nat) -> Seq<K> {
    Seq::new(n, |i: int| *listed[i].0)
}

/// Rows which are not among the first ones listed keep their values when those are changed.
proof fn lemma_others_kept<D: RowDesc>(
    state: TableState<D>,
    listed: Seq<(&D::Key, &mut D::Value)>,
    values: Seq<D::Value>,
) where D::Value: Clone
    requires
        lists_mut(listed, state.rows),
        values.len() <= listed.len(),
    ensures
        forall|k: D::Key| #[trigger]
            state.rows.contains_key(k) && (forall|i: int|
                0 <= i < values.len() ==> *(#[trigger] listed[i]).0 != k) ==> state.rewrite(
                listed_keys(listed, values.len()),
                values,
            ).rows[k] == state.rows[k],
{
    crate::basics::law_iterated_rows::<D>(state, listed, values);
    assert forall|k: D::Key| #[trigger]
        state.rows.contains_key(k) && (forall|i: int|
            0 <= i < values.len() ==> *(#[trigger] listed[i]).0 != k) implies state.rewrite(
        listed_keys(listed, values.len()),
        values,
    ).rows[k] == state.rows[k] by {
        let i = choose|i: int| 0 <= i < listed.len() && *(#[trigger] listed[i]).0 == k;
        assert(i >= values.len());
    }
}

/// Mutable access to a single table, within a transaction.
#[verifier::reject_recursive_types(D)]
pub struct TableMut<'a, D: TableDesc> {
    pub table: &'a mut Table<D>,
    pub txn_id: TxnId,
}

impl<'a, D: TableDesc> TableMut<'a, D> {
    /// What is visible of the table.
    pub open spec fn state(&self) -> TableState<D> {
        self.table.state(self.txn_id)
    }

    /// What is visible of the table in the committed state.
    pub open spec fn committed(&self) -> TableState<D> {
        self.table.state(storage::prior(self.txn_id))
    }

    /// The table has nothing newer than the transaction.
    pub open spec fn wf(&self) -> bool {
        self.table.wf(self.txn_id)
    }

    /// Access `table` within the transaction `txn_id`.
    pub fn new(table: &'a mut Table<D>, txn_id: TxnId) -> (r: Self)
        ensures
            *r.table == *old(table),
            *final(r.table) == *final(table),
            r.txn_id == txn_id,
    {
        TableMut { table, txn_id }
    }

    /// Remove all rows.
    pub fn clear(self, owner: Owner)
        requires
            self.wf(),
            owner@ == D::OWNER@,
        ensures
            final(self.table).wf(self.txn_id),
            final(self.table).state(self.txn_id) == self.state().clear(),
            final(self.table).state(storage::prior(self.txn_id)) == self.committed(),
    {
        assert_is_owner(D::OWNER, owner);
        self.table.clear(self.txn_id);
    }

    /// Insert a row, in place of an earlier one with the same key.
    pub fn insert(self, key: D::Key, value: D::Value, owner: Owner)
        requires
            self.wf(),
            owner@ == D::OWNER@,
            table::admits::<D>(self.state().rows.insert(key, value)),
        ensures
            final(self.table).wf(self.txn_id),
            final(self.table).state(self.txn_id) == self.state().insert(key, value),
            final(self.table).state(storage::prior(self.txn_id)) == self.committed(),
    {
        assert_is_owner(D::OWNER, owner);
        self.table.insert(key, value, self.txn_id);
    }

    /// Pass the row of `key` to `f`, and keep what `f` leaves in its place.
    pub fn with_mut<T, F: FnOnce(&mut D::Value) -> T>(
        self,
        key: &D::Key,
        f: F,
        owner: Owner,
    ) -> (r: Option<T>) where D::Value: Clone
        requires
            self.wf(),
            owner@ == D::OWNER@,
            self.state().rows.contains_key(*key) ==> {
                &&& forall|m: &mut D::Value|
                    cloned(self.state().rows[*key], *m) ==> #[trigger] f.requires((m,))
                &&& forall|m: &mut D::Value, out: T|
                    cloned(self.state().rows[*key], *m) && #[trigger] f.ensures((m,), out)
                        ==> table::admits::<D>(self.state().rows.insert(*key, *final(m)))
            },
        ensures
            final(self.table).wf(self.txn_id),
            final(self.table).state(storage::prior(self.txn_id)) == self.committed(),
            r is Some <==> self.state().rows.contains_key(*key),
            r is None ==> *final(self.table) == *old(self.table),
            r is Some ==> exists|m: &mut D::Value|
                cloned(self.state().rows[*key], *m) && #[trigger] f.ensures((m,), r->0)
                    && final(self.table).state(self.txn_id) == self.state().mutate(
                    *key,
                    *final(m),
                ),
    {
        assert_is_owner(D::OWNER, owner);
        self.table.with_mut(key, f, self.txn_id)
    }

    /// Remove the row of `key`, if there is one.
    pub fn remove(self, key: &D::Key, owner: Owner)
        requires
            self.wf(),
            owner@ == D::OWNER@,
        ensures
            final(self.table).wf(self.txn_id),
            final(self.table).state(self.txn_id) == self.state().remove(*key),
            final(self.table).state(storage::prior(self.txn_id)) == self.committed(),
    {
        assert_is_owner(D::OWNER, owner);
        self.table.remove(key, self.txn_id);
    }

    /// Pass an iterator over the table giving mutable access to its values to `f`.
    ///
    /// Access is scoped by a closure (rather than returning an iterator) because the table's
    /// indexes must be rebuilt from the mutated values, which is only possible once no references
    /// to those values remain.
    pub fn with_iter_mut<T, F: FnOnce(&mut TableIterMut<'_, D>) -> T>(
        self,
        owner: Owner,
        f: F,
    ) -> (r: T) where D::Value: Clone
        requires
            self.wf(),
            owner@ == D::OWNER@,
            forall|it: &mut TableIterMut<D>|
                lists_mut(it.left(), self.state().rows) ==> #[trigger] f.requires((it,)),
            forall|it: &mut TableIterMut<D>, out: T, values: Seq<D::Value>|
                #![trigger f.ensures((it,), out), table::admits::<D>(table::with_values(
                    self.state().rows,
                    listed_keys(it.left(), values.len()),
                    values,
                ))]
                lists_mut(it.left(), self.state().rows) && f.ensures((it,), out)
                    && values.len() == iter::taken(it.left().len(), final(it).left().len()) && (
                forall|i: int|
                    0 <= i < values.len() ==> #[trigger] values[i] == *final(it.left()[i].1))
                    ==> table::admits::<D>(table::with_values(
                    self.state().rows,
                    listed_keys(it.left(), values.len()),
                    values,
                )),
        ensures
            final(self.table).wf(self.txn_id),
            final(self.table).state(storage::prior(self.txn_id)) == self.committed(),
            self.state().leads_to(final(self.table).state(self.txn_id)),
            exists|it: &mut TableIterMut<D>, values: Seq<D::Value>|
                {
                    &&& lists_mut(it.left(), self.state().rows)
                    &&& #[trigger] f.ensures((it,), r)
                    &&& values.len() == iter::taken(it.left().len(), final(it).left().len())
                    &&& forall|i: int|
                        0 <= i < values.len() ==> #[trigger] values[i] == *final(it.left()[i].1)
                    &&& final(it).left().len() <= it.left().len()
                        ==> values.len() + final(it).left().len()
                        == it.left().len()
                    &&& forall|i: int|
                        #![trigger it.left()[i]]
                        0 <= i < values.len()
                            ==> final(self.table).state(self.txn_id).rows[*it.left()[i].0] == *final(it.left()[i].1)
                    &&& forall|k: D::Key| #[trigger]
                        final(self.table).state(self.txn_id).rows.contains_key(k)
                            <==> self.state().rows.contains_key(k)
                    &&& forall|k: D::Key| #[trigger]
                        self.state().rows.contains_key(k) && (forall|i: int|
                            0 <= i < values.len() ==> *(#[trigger] it.left()[i]).0 != k)
                                ==> final(self.table).state(self.txn_id).rows[k]
                            == self.state().rows[k]
                    &&& final(self.table).state(self.txn_id) == #[trigger] self.state().rewrite(
                        listed_keys(it.left(), values.len()),
                        values,
                    )
                },
    {
        assert_is_owner(D::OWNER, owner);
        let ghost before = self.state().rows;
        let visible = self.table.visible(self.txn_id);
        let mut keys: Vec<D::Key> = Vec::new();
        let mut values: Vec<D::Value> = Vec::new();
        let mut n: usize = 0;
        while n < visible.len()
            invariant
                n <= visible.len(),
                storage::key_model::<D::Key>(),
                keys@.len() == n,
                values@.len() == n,
                forall|i: int|
                    0 <= i < n ==> (#[trigger] keys@[i]) == *visible@[i].0 && cloned(
                        *visible@[i].1,
                        values@[i],
                    ),
            decreases visible.len() - n,
        {
            let (k, v) = visible[n];
            keys.push(clone_key(k));
            values.push(v.clone());
            n += 1;
        }
        let ghost ks = keys@;
        proof {
            assert forall|k: D::Key| #[trigger] ks.contains(k) <==> before.contains_key(k) by {
                if before.contains_key(k) {
                    let i = choose|i: int|
                        0 <= i < visible@.len() && *(#[trigger] visible@[i]).0 == k;
                    assert(ks[i] == k);
                }
                if ks.contains(k) {
                    let i = ks.index_of(k);
                    assert(*visible@[i].0 == k);
                }
            }
        }
        let pairs = pair_up(&keys, &mut values);
        let mut it = TableIterMut::<D>::new(pairs);
        let ghost listed = it.left();
        proof {
            assert forall|k: D::Key| #[trigger] before.contains_key(k) implies exists|i: int|
                0 <= i < listed.len() && *(#[trigger] listed[i]).0 == k by {
                assert(ks.contains(k));
                let i = ks.index_of(k);
                assert(*listed[i].0 == k);
            }
            assert(lists_mut(listed, before));
        }
        let out = f(&mut it);
        let ghost untaken = it.left();
        assert(exists|m: &mut TableIterMut<D>|
            m.left() == listed && final(m).left() == untaken && #[trigger] f.ensures((m,), out));
        let left = it.remaining();
        let n: usize = if left <= keys.len() {
            keys.len() - left
        } else {
            0
        };
        // The rows which were not taken are left alone.
        keys.truncate(n);
        values.truncate(n);
        proof {
            assert(keys@ =~= listed_keys(listed, n as nat));
            assert forall|k: D::Key| #[trigger] keys@.contains(k) implies before.contains_key(k) by {
                let i = keys@.index_of(k);
                assert(ks[i] == k);
                assert(ks.contains(k));
            }
            assert(forall|i: int|
                0 <= i < values@.len() ==> #[trigger] values@[i] == *final(listed[i].1));
            assert(values@.len() == iter::taken(listed.len(), untaken.len()));
            assert(table::admits::<D>(
                table::with_values(before, listed_keys(listed, values@.len()), values@),
            ));
            crate::basics::law_iterated_rows::<D>(self.state(), listed, values@);
            crate::basics::law_taken(listed, untaken.len());
            lemma_others_kept::<D>(self.state(), listed, values@);
        }
        self.table.set_values(keys, values, self.txn_id);
        out
    }
}

/// Whether the row of `base_key` has the index key `key`.
pub open spec fn has_index_key<I: IndexKeys>(
    rows: Map<I::BaseKey, I::Row>,
    base_key: I::BaseKey,
    key: I::Key,
) -> bool {
    rows.contains_key(base_key) && I::keys(rows[base_key]).contains(key)
}

/// The row which is found by `key` in the index `I`.
pub open spec fn lookup<I: IndexDesc>(state: TableState<I::BaseTable>, key: I::Key) -> Result<
    (I::BaseKey, I::Row),
    Error,
> {
    if schema::index_state::<I>(state).poisoned {
        Err(Error::NonUniqueIndexKey(I::NAME))
    } else if exists|k: I::BaseKey| has_index_key::<I>(state.rows, k, key) {
        let k = choose|k: I::BaseKey| has_index_key::<I>(state.rows, k, key);
        Ok((k, state.rows[k]))
    } else {
        Err(Error::NotPresent)
    }
}

/// Whether `r` is a copy of what is found by `key` in the index `I`.
pub open spec fn found_copy<I: IndexDesc>(
    state: TableState<I::BaseTable>,
    key: I::Key,
    r: Result<(I::BaseKey, I::Row), Error>,
) -> bool where I::Row: Clone {
    match lookup::<I>(state, key) {
        Ok((k, v)) => r matches Ok(copy) && copy.0 == k && cloned(v, copy.1),
        Err(e) => r == Err::<(I::BaseKey, I::Row), Error>(e),
    }
}

/// An index which is not poisoned leads to the one row with an index key.
pub proof fn lemma_lookup<I: IndexDesc>(state: TableState<I::BaseTable>, key: I::Key)
    requires
        state.consistent(),
    ensures
        !schema::index_state::<I>(state).poisoned ==> lookup::<I>(state, key) == (
        match schema::index_state::<I>(state).entries.get(key) {
            Some(k) => Ok::<(I::BaseKey, I::Row), Error>((k, state.rows[k])),
            None => Err(Error::NotPresent),
        }),
        schema::index_state::<I>(state).entries.get(key) matches Some(k) ==> has_index_key::<I>(
            state.rows,
            k,
            key,
        ),
{
    schema::lemma_index::<I>(state);
    let index = schema::index_state::<I>(state);
    if !index.poisoned {
        if index.entries.contains_key(key) {
            assert(has_index_key::<I>(state.rows, index.entries[key], key));
        }
        if exists|k: I::BaseKey| has_index_key::<I>(state.rows, k, key) {
            let k = choose|k: I::BaseKey| has_index_key::<I>(state.rows, k, key);
            assert(I::keys(state.rows[k]).contains(key));
        }
    }
}

/// Read access to a table via the index `I`, as seen by a transaction (or the latest committed
/// state).
#[verifier::reject_recursive_types(I)]
pub struct IndexRef<'a, I: IndexDesc> {
    pub base: &'a Table<I::BaseTable>,
    pub txn_id: TxnId,
}

impl<'a, I: IndexDesc> Clone for IndexRef<'a, I> {
    fn clone(&self) -> (r: Self)
        ensures
            r == *self,
    {
        *self
    }
}

impl<'a, I: IndexDesc> Copy for IndexRef<'a, I> {

}

impl<'a, I: IndexDesc> IndexRef<'a, I> {
    /// What is visible of the base table.
    pub open spec fn state(&self) -> TableState<I::BaseTable> {
        self.base.state(self.txn_id)
    }

    /// What is visible of the index.
    pub open spec fn index_state(&self) -> IndexState<I::Key, I::BaseKey> {
        schema::index_state::<I>(self.state())
    }

    /// The base table's indexes are those of its rows.
    pub open spec fn wf(&self) -> bool {
        &&& storage::key_model::<I::BaseKey>()
        &&& <<I::BaseTable as RowDesc>::IndexStorage>::key_model()
        &&& self.state().consistent()
    }

    /// Access a table via the index.
    pub fn new(base: TableRef<'a, I::BaseTable>) -> (r: Self)
        ensures
            r.base == base.table,
            r.txn_id == base.txn_id,
    {
        IndexRef { base: base.table, txn_id: base.txn_id }
    }

    /// Returns `Ok` if the index is consistent, and an error if not.
    pub fn check_consistent(self) -> (r: Result<(), Error>)
        ensures
            r == if self.index_state().poisoned {
                Err::<(), Error>(Error::NonUniqueIndexKey(I::NAME))
            } else {
                Ok(())
            },
    {
        if I::index(self.base).is_poisoned(self.txn_id) {
            Err(Error::NonUniqueIndexKey(I::NAME))
        } else {
            Ok(())
        }
    }

    /// The row which is found by `key`.
    pub fn get(self, key: &I::Key) -> (r: Result<(&'a I::BaseKey, &'a I::Row), Error>)
        requires
            self.wf(),
        ensures
            match r {
                Ok((k, v)) => lookup::<I>(self.state(), *key) == Ok::<_, Error>((*k, *v)),
                Err(e) => lookup::<I>(self.state(), *key) == Err::<(I::BaseKey, I::Row), _>(e),
            },
    {
        proof {
            schema::lemma_index::<I>(self.state());
            lemma_lookup::<I>(self.state(), *key);
        }
        match self.check_consistent() {
            Ok(()) => {},
            Err(e) => return Err(e),
        }
        let base_key = match I::index(self.base).get(key, self.txn_id) {
            Some(base_key) => base_key,
            None => return Err(Error::NotPresent),
        };
        match self.base.get(base_key, self.txn_id) {
            Some(value) => Ok((base_key, value)),
            None => Err(Error::NotPresent),
        }
    }

    /// A copy of the row which is found by `key`.
    pub fn get_cloned(self, key: &I::Key) -> (r: Result<(I::BaseKey, I::Row), Error>) where
        I::Row: Clone,

        requires
            self.wf(),
        ensures
            found_copy::<I>(self.state(), *key, r),
    {
        match self.get(key) {
            Ok((k, v)) => Ok((clone_key(k), v.clone())),
            Err(e) => Err(e),
        }
    }

    /// Iterate over the index.
    pub fn iter<Kind>(self) -> (r: IndexIterator<'a, I, Kind>)
        requires
            self.wf(),
        ensures
            storage::lists(r.left(), self.index_state().entries),
            r.rows() == self.state().rows,
    {
        proof {
            schema::lemma_index::<I>(self.state());
        }
        let entries = I::index(self.base).visible(self.txn_id);
        proof {
            assert forall|i: int| 0 <= i < entries@.len() implies self.base.state(
                self.txn_id,
            ).rows.contains_key(*(#[trigger] entries@[i]).1) by {
                assert(self.index_state().entries.contains_key(*entries@[i].0));
            }
        }
        IndexIterator::new(self.base, entries, self.txn_id)
    }
}

/// Whether `listed` are the rows which have an entry in an index, each once and with one of its
/// index keys, with access to copies of their values.
pub open spec fn lists_indexed_mut<X, K, V: Clone>(
    listed: Seq<(&X, &K, &mut V)>,
    entries: Map<X, K>,
    rows: Map<K, V>,
) -> bool {
    &&& forall|i: int|
        0 <= i < listed.len() ==> {
            &&& entries.contains_key(*(#[trigger] listed[i]).0)
            &&& entries[*listed[i].0] == *listed[i].1
            &&& rows.contains_key(*listed[i].1)
            &&& cloned(rows[*listed[i].1], *listed[i].2)
        }
    &&& forall|x: X| #[trigger]
        entries.contains_key(x) ==> exists|i: int|
            0 <= i < listed.len() && *(#[trigger] listed[i]).1 == entries[x]
    &&& forall|i: int, j: int|
        0 <= i < j < listed.len() ==> *(#[trigger] listed[i]).1 != *(#[trigger] listed[j]).1
}

/// The keys of the first `n` listed rows.
pub open spec fn listed_base_keys<X, K, V>(listed: Seq<(&X, &K, &mut V)>, n: nat) -> Seq<K> {
    Seq::new(n, |i: int| *listed[i].1)
}

/// Rows which were put together from index keys, keys and copies of values.
proof fn lemma_lists_indexed<X, K, V: Clone>(
    xs: Seq<X>,
    ks: Seq<K>,
    vs: Seq<V>,
    listed: Seq<(&X, &K, &mut V)>,
    entries: Map<X, K>,
    rows: Map<K, V>,
)
    requires
        xs.len() == ks.len(),
        vs.len() == ks.len(),
        listed.len() == ks.len(),
        ks.no_duplicates(),
        forall|j: int|
            0 <= j < ks.len() ==> entries.contains_key(#[trigger] xs[j]) && entries[xs[j]] == ks[j],
        forall|j: int| 0 <= j < ks.len() ==> rows.contains_key(#[trigger] ks[j]),
        forall|j: int| 0 <= j < ks.len() ==> cloned(rows[ks[j]], #[trigger] vs[j]),
        forall|x: X| #[trigger] entries.contains_key(x) ==> ks.contains(entries[x]),
        forall|i: int| #![trigger listed[i]]
            0 <= i < ks.len() ==> *listed[i].0 == xs[i] && *listed[i].1 == ks[i] && *listed[i].2
                == vs[i],
    ensures
        lists_indexed_mut(listed, entries, rows),
{
    assert forall|x: X| #[trigger] entries.contains_key(x) implies exists|i: int|
        0 <= i < listed.len() && *(#[trigger] listed[i]).1 == entries[x] by {
        assert(ks.contains(entries[x]));
        assert(*listed[ks.index_of(entries[x])].1 == entries[x]);
    }
    assert forall|i: int| 0 <= i < listed.len() implies {
        &&& entries.contains_key(*(#[trigger] listed[i]).0)
        &&& entries[*listed[i].0] == *listed[i].1
        &&& rows.contains_key(*listed[i].1)
        &&& cloned(rows[*listed[i].1], *listed[i].2)
    } by {
        assert(rows.contains_key(ks[i]));
    }
}

/// Mutable access to a table via the index `I`, within a transaction.
#[verifier::reject_recursive_types(I)]
pub struct IndexMut<'a, I: IndexDesc> {
    pub base: &'a mut Table<I::BaseTable>,
    pub txn_id: TxnId,
}

impl<'a, I: IndexDesc> IndexMut<'a, I> {
    /// What is visible of the base table.
    pub open spec fn state(&self) -> TableState<I::BaseTable> {
        self.base.state(self.txn_id)
    }

    /// What is visible of the base table in the committed state.
    pub open spec fn committed(&self) -> TableState<I::BaseTable> {
        self.base.state(storage::prior(self.txn_id))
    }

    /// What is visible of the index.
    pub open spec fn index_state(&self) -> IndexState<I::Key, I::BaseKey> {
        schema::index_state::<I>(self.state())
    }

    /// The base table has nothing newer than the transaction.
    pub open spec fn wf(&self) -> bool {
        self.base.wf(self.txn_id)
    }

    /// Access a table via the index.
    pub fn new(base: TableMut<'a, I::BaseTable>) -> (r: Self)
        ensures
            *r.base == *old(base.table),
            *final(r.base) == *final(base.table),
            r.txn_id == base.txn_id,
    {
        IndexMut { base: base.table, txn_id: base.txn_id }
    }

    /// Pass the row which is found by `key` to `f`, and keep what `f` leaves in its place.
    pub fn with_mut<T, F: FnOnce(&I::BaseKey, &mut I::Row) -> T>(
        self,
        key: &I::Key,
        f: F,
        owner: Owner,
    ) -> (r: Result<T, Error>) where I::Row: Clone
        requires
            self.wf(),
            !self.index_state().poisoned ==> owner@ == <I::BaseTable as RowDesc>::OWNER@,
            lookup::<I>(self.state(), *key) matches Ok((k, v)) ==> {
                &&& forall|m: &mut I::Row| cloned(v, *m) ==> #[trigger] f.requires((&k, m))
                &&& forall|m: &mut I::Row, out: T|
                    cloned(v, *m) && #[trigger] f.ensures((&k, m), out) ==> table::admits::<
                        I::BaseTable,
                    >(self.state().rows.insert(k, *final(m)))
            },
        ensures
            final(self.base).wf(self.txn_id),
            final(self.base).state(storage::prior(self.txn_id)) == self.committed(),
            r is Ok <==> lookup::<I>(self.state(), *key) is Ok,
            r is Err ==> lookup::<I>(self.state(), *key) == Err::<(I::BaseKey, I::Row), _>(
                r->Err_0,
            ) && *final(self.base) == *old(self.base),
            r is Ok ==> ({
                let (k, v) = lookup::<I>(self.state(), *key)->Ok_0;
                exists|m: &mut I::Row|
                    cloned(v, *m) && #[trigger] f.ensures((&k, m), r->Ok_0)
                        && final(self.base).state(self.txn_id) == self.state().mutate(k, *final(m))
            }),
    {
        proof {
            schema::lemma_index::<I>(self.state());
            lemma_lookup::<I>(self.state(), *key);
        }
        if I::index(self.base).is_poisoned(self.txn_id) {
            return Err(Error::NonUniqueIndexKey(I::NAME));
        }
        assert_is_owner(<I::BaseTable as RowDesc>::OWNER, owner);

        // Cloned because the key is borrowed from the index, which is part of the base table and
        // is updated by `replace`.
        let base_key = match I::index(self.base).get(key, self.txn_id) {
            Some(base_key) => clone_key(base_key),
            None => return Err(Error::NotPresent),
        };
        let mut value = match self.base.get(&base_key, self.txn_id) {
            Some(value) => value.clone(),
            None => return Err(Error::NotPresent),
        };
        assert(lookup::<I>(self.state(), *key)->Ok_0.0 == base_key);
        assert(cloned(lookup::<I>(self.state(), *key)->Ok_0.1, value));
        let out = f(&base_key, &mut value);
        self.base.replace(base_key, value, Mark::Lent, self.txn_id);
        let r: Result<T, Error> = Ok(out);
        assert(r->Ok_0 == out);
        r
    }

    /// Remove the row which `key` leads to, if there is one.
    pub fn remove(self, key: &I::Key, owner: Owner)
        requires
            self.wf(),
            owner@ == <I::BaseTable as RowDesc>::OWNER@,
        ensures
            final(self.base).wf(self.txn_id),
            final(self.base).state(storage::prior(self.txn_id)) == self.committed(),
            final(self.base).state(self.txn_id) == match self.index_state().entries.get(*key) {
                Some(k) => self.state().remove(k),
                None => self.state(),
            },
    {
        proof {
            schema::lemma_index::<I>(self.state());
        }
        assert_is_owner(<I::BaseTable as RowDesc>::OWNER, owner);

        // Cloned for the same reason as in `with_mut`.
        let base_key = match I::index(self.base).get(key, self.txn_id) {
            Some(base_key) => clone_key(base_key),
            None => return,
        };
        self.base.remove(&base_key, self.txn_id);
    }

    /// One index key for each row which has an entry in the index.
    fn index_keys(&self) -> (r: HashMap<I::BaseKey, I::Key>)
        requires
            self.wf(),
        ensures
            forall|k: I::BaseKey| #[trigger]
                r@.contains_key(k) ==> self.index_state().entries.contains_key(r@[k])
                    && self.index_state().entries[r@[k]] == k,
            forall|x: I::Key| #[trigger]
                self.index_state().entries.contains_key(x) ==> r@.contains_key(
                    self.index_state().entries[x],
                ),
    {
        broadcast use vstd::std_specs::hash::group_hash_axioms;

        proof {
            schema::lemma_index::<I>(self.state());
        }
        let ghost entries = self.index_state().entries;
        let listed = I::index(self.base).visible(self.txn_id);
        let mut index_keys: HashMap<I::BaseKey, I::Key> = HashMap::new();
        let mut n: usize = 0;
        while n < listed.len()
            invariant
                n <= listed.len(),
                storage::key_model::<I::Key>(),
                storage::key_model::<I::BaseKey>(),
                storage::lists(listed@, entries),
                forall|k: I::BaseKey| #[trigger]
                    index_keys@.contains_key(k) ==> entries.contains_key(index_keys@[k])
                        && entries[index_keys@[k]] == k,
                forall|i: int|
                    0 <= i < n ==> index_keys@.contains_key(*(#[trigger] listed@[i]).1),
            decreases listed.len() - n,
        {
            let (index_key, base_key) = listed[n];
            if !index_keys.contains_key(base_key) {
                index_keys.insert(clone_key(base_key), clone_key(index_key));
            }
            n += 1;
        }
        index_keys
    }

    /// The rows which have an entry in the index: index keys, keys, and copies of the values.
    fn copies(&self) -> (r: (Vec<I::Key>, Vec<I::BaseKey>, Vec<I::Row>)) where I::Row: Clone
        requires
            self.wf(),
        ensures
            r.0@.len() == r.1@.len(),
            r.2@.len() == r.1@.len(),
            r.1@.no_duplicates(),
            forall|j: int| #![trigger r.1@[j]]
                0 <= j < r.1@.len() ==> {
                    &&& self.index_state().entries.contains_key(r.0@[j])
                    &&& self.index_state().entries[r.0@[j]] == r.1@[j]
                    &&& self.state().rows.contains_key(r.1@[j])
                    &&& cloned(self.state().rows[r.1@[j]], r.2@[j])
                },
            forall|x: I::Key| #[trigger]
                self.index_state().entries.contains_key(x) ==> r.1@.contains(
                    self.index_state().entries[x],
                ),
    {
        broadcast use vstd::std_specs::hash::group_hash_axioms;

        proof {
            schema::lemma_index::<I>(self.state());
        }
        let ghost entries = self.index_state().entries;
        let ghost before = self.state().rows;
        let chosen = self.index_keys();
        let visible = self.base.visible(self.txn_id);
        let mut index_keys: Vec<I::Key> = Vec::new();
        let mut keys: Vec<I::BaseKey> = Vec::new();
        let mut values: Vec<I::Row> = Vec::new();
        let ghost mut places: Seq<int> = Seq::empty();
        let mut n: usize = 0;
        while n < visible.len()
            invariant
                n <= visible.len(),
                storage::key_model::<I::BaseKey>(),
                storage::key_model::<I::Key>(),
                storage::lists(visible@, before),
                forall|k: I::BaseKey| #[trigger]
                    chosen@.contains_key(k) ==> entries.contains_key(chosen@[k])
                        && entries[chosen@[k]] == k,
                index_keys@.len() == keys@.len(),
                values@.len() == keys@.len(),
                forall|j: int| #![trigger keys@[j]]
                    0 <= j < keys@.len() ==> {
                        &&& before.contains_key(keys@[j])
                        &&& cloned(before[keys@[j]], values@[j])
                        &&& entries.contains_key(index_keys@[j])
                        &&& entries[index_keys@[j]] == keys@[j]
                    },
                places.len() == keys@.len(),
                forall|j: int|
                    0 <= j < keys@.len() ==> 0 <= #[trigger] places[j] < n && keys@[j]
                        == *visible@[places[j]].0,
                keys@.no_duplicates(),
                forall|i: int|
                    0 <= i < n && chosen@.contains_key(*(#[trigger] visible@[i]).0)
                        ==> keys@.contains(*visible@[i].0),
            decreases visible.len() - n,
        {
            let (k, v) = visible[n];
            let ghost found = keys@;
            match chosen.get(k) {
                Some(index_key) => {
                    index_keys.push(clone_key(index_key));
                    keys.push(clone_key(k));
                    values.push(v.clone());
                    proof {
                        assert(!found.contains(*k)) by {
                            if found.contains(*k) {
                                let j = found.index_of(*k);
                                assert(*visible@[places[j]].0 == *k);
                            }
                        }
                        places = places.push(n as int);
                        assert(keys@ == found.push(*k));
                        assert(keys@[found.len() as int] == *k);
                        assert forall|q: I::BaseKey| #[trigger] found.contains(q) implies
                            keys@.contains(q) by {
                            assert(keys@[found.index_of(q)] == q);
                        }
                        assert(keys@.contains(*k));
                    }
                },
                None => {},
            }
            n += 1;
        }
        proof {
            assert forall|x: I::Key| #[trigger] entries.contains_key(x) implies keys@.contains(
                entries[x],
            ) by {
                let k = entries[x];
                assert(before.contains_key(k));
                let i = choose|i: int| 0 <= i < visible@.len() && *(#[trigger] visible@[i]).0 == k;
                assert(chosen@.contains_key(*visible@[i].0));
            }
        }
        let ghost (xs, ks, vs) = (index_keys@, keys@, values@);
        let r = (index_keys, keys, values);
        assert(r.0@ == xs && r.1@ == ks && r.2@ == vs);
        assert forall|j: int| 0 <= j < ks.len() implies entries.contains_key(xs[j]) by {
            assert(before.contains_key(ks[j]));
        }
        r
    }

    /// Pass an iterator over the index giving mutable access to the base table's values to `f`.
    ///
    /// Each row of the base table which has at least one key in the index is yielded once (with
    /// one of its index keys). See `TableMut::with_iter_mut` for why access is scoped by a closure.
    pub fn with_iter_mut<T, F: FnOnce(&mut IndexIterMut<'_, I>) -> T>(
        self,
        owner: Owner,
        f: F,
    ) -> (r: T) where I::Row: Clone
        requires
            self.wf(),
            owner@ == <I::BaseTable as RowDesc>::OWNER@,
            forall|it: &mut IndexIterMut<I>|
                lists_indexed_mut(
                    it.left(),
                    self.index_state().entries,
                    self.state().rows,
                ) ==> #[trigger] f.requires((it,)),
            forall|it: &mut IndexIterMut<I>, out: T, values: Seq<I::Row>|
                #![trigger f.ensures((it,), out), table::admits::<I::BaseTable>(table::with_values(
                    self.state().rows,
                    listed_base_keys(it.left(), values.len()),
                    values,
                ))]
                lists_indexed_mut(
                    it.left(),
                    self.index_state().entries,
                    self.state().rows,
                ) && f.ensures((it,), out)
                    && values.len() == iter::taken(it.left().len(), final(it).left().len()) && (
                forall|i: int|
                    0 <= i < values.len() ==> #[trigger] values[i] == *final(it.left()[i].2))
                    ==> table::admits::<I::BaseTable>(table::with_values(
                    self.state().rows,
                    listed_base_keys(it.left(), values.len()),
                    values,
                )),
        ensures
            final(self.base).wf(self.txn_id),
            final(self.base).state(storage::prior(self.txn_id)) == self.committed(),
            self.state().leads_to(final(self.base).state(self.txn_id)),
            exists|it: &mut IndexIterMut<I>, values: Seq<I::Row>|
                {
                    &&& lists_indexed_mut(
                        it.left(),
                        self.index_state().entries,
                        self.state().rows,
                    )
                    &&& #[trigger] f.ensures((it,), r)
                    &&& values.len() == iter::taken(it.left().len(), final(it).left().len())
                    &&& forall|i: int|
                        0 <= i < values.len() ==> #[trigger] values[i] == *final(it.left()[i].2)
                    &&& final(it).left().len() <= it.left().len()
                        ==> values.len() + final(it).left().len()
                        == it.left().len()
                    &&& forall|i: int|
                        #![trigger it.left()[i]]
                        0 <= i < values.len()
                            ==> final(self.base).state(self.txn_id).rows[*it.left()[i].1] == *final(it.left()[i].2)
                    &&& forall|k: I::BaseKey| #[trigger]
                        final(self.base).state(self.txn_id).rows.contains_key(k)
                            <==> self.state().rows.contains_key(k)
                    &&& forall|k: I::BaseKey| #[trigger]
                        self.state().rows.contains_key(k) && (forall|i: int|
                            0 <= i < values.len() ==> *(#[trigger] it.left()[i]).1 != k)
                                ==> final(self.base).state(self.txn_id).rows[k]
                            == self.state().rows[k]
                    &&& final(self.base).state(self.txn_id) == #[trigger] self.state().rewrite(
                        listed_base_keys(it.left(), values.len()),
                        values,
                    )
                },
    {
        assert_is_owner(<I::BaseTable as RowDesc>::OWNER, owner);
        let ghost entries = self.index_state().entries;
        let ghost before = self.state().rows;
        let copies = self.copies();
        let ghost (xs, ks, vs) = (copies.0@, copies.1@, copies.2@);
        proof {
            assert forall|j: int| 0 <= j < ks.len() implies entries.contains_key(#[trigger] xs[j])
                && entries[xs[j]] == ks[j] by {
                assert(before.contains_key(copies.1@[j]));
            }
            assert forall|j: int| 0 <= j < ks.len() implies before.contains_key(#[trigger] ks[j]) by {
                assert(before.contains_key(copies.1@[j]));
            }
            assert forall|j: int| 0 <= j < ks.len() implies cloned(
                before[ks[j]],
                #[trigger] vs[j],
            ) by {
                assert(before.contains_key(copies.1@[j]));
            }
        }
        let (index_keys, mut keys, mut values) = copies;
        let triples = triple_up(&index_keys, &keys, &mut values);
        let mut it = IndexIterMut::<I>::new(triples);
        let ghost listed = it.left();
        proof {
            lemma_lists_indexed(xs, ks, vs, listed, entries, before);
        }
        let out = f(&mut it);
        let ghost untaken = it.left();
        assert(exists|m: &mut IndexIterMut<I>|
            m.left() == listed && final(m).left() == untaken && #[trigger] f.ensures((m,), out));
        let left = it.remaining();
        let n: usize = if left <= keys.len() {
            keys.len() - left
        } else {
            0
        };
        // The rows which were not taken are left alone.
        keys.truncate(n);
        values.truncate(n);
        proof {
            assert(keys@ =~= listed_base_keys(listed, n as nat));
            assert forall|k: I::BaseKey| #[trigger] keys@.contains(k) implies before.contains_key(
                k,
            ) by {
                let i = keys@.index_of(k);
                assert(ks[i] == k);
            }
            assert(forall|i: int|
                0 <= i < values@.len() ==> #[trigger] values@[i] == *final(listed[i].2));
            assert(values@.len() == iter::taken(listed.len(), untaken.len()));
            assert(table::admits::<I::BaseTable>(
                table::with_values(before, listed_base_keys(listed, values@.len()), values@),
            ));
            crate::basics::law_iterated_index::<I>(self.state(), listed, values@);
        }
        self.base.set_values(keys, values, self.txn_id);
        out
    }
}

/// Read access to a singleton, as seen by a transaction (or the latest committed state).
#[verifier::reject_recursive_types(S)]
pub struct SingletonRef<'a, S: SingletonDesc> {
    pub value: &'a VersionedValue<Option<S::Value>>,
    pub txn_id: TxnId,
}

impl<'a, S: SingletonDesc> SingletonRef<'a, S> {
    /// The value which is visible.
    pub open spec fn state(&self) -> Option<S::Value> {
        schema::visible(*self.value, self.txn_id).value
    }

    /// Access `value` as visible at `txn_id`.
    pub fn new(value: &'a VersionedValue<Option<S::Value>>, txn_id: TxnId) -> (r: Self)
        ensures
            r == (SingletonRef::<S> { value, txn_id }),
    {
        SingletonRef { value, txn_id }
    }

    /// Access `S` in the committed state of `store`.
    pub fn from_storage(store: &'a KvStore<S::Storage>) -> (r: Self)
        requires
            store.wf(),
        ensures
            r.state() == schema::single_of::<S>(store@).value,
    {
        store.singleton_ref()
    }

    /// The value, if there is one.
    pub fn get(&self) -> (r: Option<&'a S::Value>)
        ensures
            r == match self.state() {
                Some(v) => Some(&v),
                None => None,
            },
    {
        match self.value.get(self.txn_id) {
            Some(Some(value)) => Some(value),
            _ => None,
        }
    }
}

/// Mutable access to a singleton, within a transaction.
#[verifier::reject_recursive_types(S)]
pub struct SingletonMut<'a, S: SingletonDesc> {
    pub value: &'a mut VersionedValue<Option<S::Value>>,
    pub txn_id: TxnId,
}

impl<'a, S: SingletonDesc> SingletonMut<'a, S> {
    /// The value which is visible.
    pub open spec fn state(&self) -> Option<S::Value> {
        schema::visible(*self.value, self.txn_id).value
    }

    /// The value which is visible in the committed state.
    pub open spec fn committed(&self) -> Option<S::Value> {
        schema::visible(*self.value, storage::prior(self.txn_id)).value
    }

    /// The singleton has nothing newer than the transaction.
    pub open spec fn wf(&self) -> bool {
        self.txn_id > 0 && self.value.wf(self.txn_id)
    }

    /// Access `value` within the transaction `txn_id`.
    pub fn new(value: &'a mut VersionedValue<Option<S::Value>>, txn_id: TxnId) -> (r: Self)
        ensures
            *r.value == *old(value),
            *final(r.value) == *final(value),
            r.txn_id == txn_id,
    {
        SingletonMut { value, txn_id }
    }

    /// Set the value.
    pub fn insert(self, value: S::Value, owner: Owner)
        requires
            self.wf(),
            owner@ == S::OWNER@,
        ensures
            final(self.value).wf(self.txn_id),
            schema::visible(*final(self.value), self.txn_id) == SingleState::assigned(Some(value)),
            schema::visible(*final(self.value), storage::prior(self.txn_id)).value
                == self.committed(),
    {
        assert_owner::<S>(owner);
        self.value.set(Some(value), self.txn_id);
    }

    /// Remove the value.
    pub fn remove(self, owner: Owner)
        requires
            self.wf(),
            owner@ == S::OWNER@,
        ensures
            final(self.value).wf(self.txn_id),
            schema::visible(*final(self.value), self.txn_id) == SingleState::<S::Value>::assigned(None),
            schema::visible(*final(self.value), storage::prior(self.txn_id)).value
                == self.committed(),
    {
        assert_owner::<S>(owner);
        self.value.set(None, self.txn_id);
    }

    /// Pass the value to `f`, and keep what `f` leaves in its place.
    pub fn with_mut<T, F: FnOnce(&mut S::Value) -> T>(self, f: F, owner: Owner) -> (r: Option<
        T,
    >) where S::Value: Clone
        requires
            self.wf(),
            owner@ == S::OWNER@,
            self.state() matches Some(v) ==> forall|m: &mut S::Value|
                cloned(v, *m) ==> #[trigger] f.requires((m,)),
        ensures
            final(self.value).wf(self.txn_id),
            schema::visible(*final(self.value), storage::prior(self.txn_id)).value
                == self.committed(),
            r is Some <==> self.state() is Some,
            r is None ==> *final(self.value) == *old(self.value),
            r is Some ==> exists|m: &mut S::Value|
                cloned(self.state()->0, *m) && #[trigger] f.ensures((m,), r->0)
                    && schema::visible(*final(self.value), self.txn_id) == SingleState::assigned(
                    Some(*final(m)),
                ),
    {
        assert_owner::<S>(owner);
        let mut value = match self.value.get(self.txn_id) {
            Some(Some(value)) => value.clone(),
            _ => return None,
        };
        assert(cloned(self.state()->0, value));
        let out = f(&mut value);
        self.value.set(Some(value), self.txn_id);
        let r = Some(out);
        assert(r->0 == out);
        r
    }
}

/// Check that `owner` may change the singleton `D`.
fn assert_owner<D: SingletonValue>(owner: Owner)
    requires
        owner@ == D::OWNER@,
    ensures
        owner@ == D::OWNER@,
{
    assert_is_owner(D::OWNER, owner)
}

} // verus!
