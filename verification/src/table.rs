//! The rows of one table together with its indexes.

use crate::error::Error;
use crate::events;
use crate::events::Event;
use crate::schema::{IndexStorage, Notifiable, RowDesc};
use crate::storage;
use crate::storage::{clone_key, Mark, Rows, TxnId};
use vstd::prelude::*;

verus! {

/// What is visible of the indexes of `D` at some point.
pub type IndexesState<D> = <<D as RowDesc>::IndexStorage as IndexStorage<
    <D as RowDesc>::Key,
    <D as RowDesc>::Value,
>>::State;

/// What is visible of a table at some point, and what a transaction has written up to there.
#[verifier::reject_recursive_types(D)]
pub struct TableState<D: RowDesc> {
    pub rows: Map<D::Key, D::Value>,
    pub indexes: IndexesState<D>,
    /// How the transaction in progress has written the rows that it has written.
    pub marks: Map<D::Key, Mark>,
}

/// Whether a table with these rows meets what was asserted of the uniqueness of index keys.
pub open spec fn admits<D: RowDesc>(rows: Map<D::Key, D::Value>) -> bool {
    <D::IndexStorage>::admits(rows)
}

/// The name of the first index with an index key for several of these rows, if there is one.
pub open spec fn violated<D: RowDesc>(rows: Map<D::Key, D::Value>) -> Option<&'static str> {
    <D::IndexStorage>::violated(rows)
}

impl<D: RowDesc> TableState<D> {
    /// A table without rows.
    pub open spec fn empty() -> Self {
        TableState {
            rows: Map::empty(),
            indexes: <D::IndexStorage>::empty(),
            marks: Map::empty(),
        }
    }

    /// The table as the next transaction finds it.
    pub open spec fn settled(self) -> Self {
        TableState { rows: self.rows, indexes: self.indexes, marks: Map::empty() }
    }

    /// The table without the row of `key`.
    pub open spec fn remove(self, key: D::Key) -> Self {
        if self.rows.contains_key(key) {
            TableState {
                rows: self.rows.remove(key),
                indexes: <D::IndexStorage>::removed(self.indexes, self.rows[key]),
                marks: self.marks.insert(key, Mark::Assigned),
            }
        } else {
            self
        }
    }

    /// The table without any row.
    pub open spec fn clear(self) -> Self {
        TableState {
            rows: Map::empty(),
            indexes: <D::IndexStorage>::empty(),
            marks: storage::marked_removed(self.marks, self.rows),
        }
    }

    /// The table with `value` as the row of `key` (in place of an earlier one), written in the way
    /// `mark`.
    pub open spec fn replace(self, key: D::Key, value: D::Value, mark: Mark) -> Self {
        TableState {
            rows: self.rows.insert(key, value),
            indexes: <D::IndexStorage>::inserted(self.remove(key).indexes, key, value),
            marks: storage::marked(self.marks, key, mark),
        }
    }

    /// The table with `value` inserted as the row of `key` (in place of an earlier one).
    pub open spec fn insert(self, key: D::Key, value: D::Value) -> Self {
        self.replace(key, value, Mark::Assigned)
    }

    /// The table with the row of `key` changed to `value`.
    pub open spec fn mutate(self, key: D::Key, value: D::Value) -> Self {
        self.replace(key, value, Mark::Lent)
    }

    /// The indexes with the rows of `keys` removed, one after the other.
    pub open spec fn deindexed(self, keys: Seq<D::Key>) -> IndexesState<D>
        decreases keys.len(),
    {
        if keys.len() == 0 {
            self.indexes
        } else {
            <D::IndexStorage>::removed(self.deindexed(keys.drop_last()), self.rows[keys.last()])
        }
    }

    /// The table with the rows of `keys` changed to `values`: all of them are removed from the
    /// indexes, and then added again one after the other.
    pub open spec fn rewrite(self, keys: Seq<D::Key>, values: Seq<D::Value>) -> Self {
        TableState {
            rows: with_values(self.rows, keys, values),
            indexes: reindexed::<D>(self.deindexed(keys), keys, values),
            marks: lent(self.marks, keys),
        }
    }

    /// The indexes are those of the rows.
    pub open spec fn consistent(self) -> bool {
        <D::IndexStorage>::consistent(self.indexes, self.rows)
    }

    /// The name of the first poisoned index, if there is one.
    pub open spec fn poisoned(self) -> Option<&'static str> {
        <D::IndexStorage>::poisoned(self.indexes)
    }

    /// Changing rows of this table can lead to `after`: its indexes are those of its rows, and
    /// only index keys which do not identify a row have poisoned any.
    pub open spec fn leads_to(self, after: Self) -> bool {
        &&& after.consistent()
        &&& <D::IndexStorage>::poison_justified(self.indexes, after.indexes, after.rows)
    }

    /// After changing rows, an index is poisoned if it was before or has an index key for several
    /// rows.
    pub proof fn lemma_leads_to(self, after: Self)
        requires
            self.leads_to(after),
        ensures
            after.poisoned() is None <==> self.poisoned() is None && violated::<D>(
                after.rows,
            ) is None,
            self.poisoned() is None ==> after.poisoned() == violated::<D>(after.rows),
    {
        <D::IndexStorage>::lemma_poisoned(self.indexes, after.indexes, after.rows);
    }

    /// Removing a row keeps the indexes consistent, and poisons none.
    pub proof fn lemma_remove(self, key: D::Key)
        requires
            self.consistent(),
        ensures
            self.leads_to(self.remove(key)),
            self.remove(key).poisoned() == self.poisoned(),
            self.remove(key).rows == self.rows.remove(key),
    {
        let after = self.remove(key);
        if self.rows.contains_key(key) {
            <D::IndexStorage>::lemma_removed(self.indexes, self.rows, key);
        }
        <D::IndexStorage>::lemma_poisoned(self.indexes, after.indexes, after.rows);
        assert(after.rows =~= self.rows.remove(key));
    }

    /// Inserting or changing a row keeps the indexes consistent.
    pub proof fn lemma_insert(self, key: D::Key, value: D::Value, mark: Mark)
        requires
            self.consistent(),
            admits::<D>(self.rows.insert(key, value)),
        ensures
            <D::IndexStorage>::may_insert(self.remove(key).indexes, value),
            self.leads_to(self.replace(key, value, mark)),
    {
        let without = self.remove(key);
        let after = self.replace(key, value, mark);
        self.lemma_remove(key);
        assert(without.rows.insert(key, value) =~= after.rows);
        if self.rows.contains_key(key) {
            <D::IndexStorage>::lemma_removed(self.indexes, self.rows, key);
        }
        <D::IndexStorage>::lemma_inserted(without.indexes, without.rows, key, value);
        <D::IndexStorage>::lemma_poisoned(self.indexes, after.indexes, after.rows);
        assert(<D::IndexStorage>::poison_justified(self.indexes, without.indexes, after.rows));
    }
}

/// The rows with new values for some of the keys.
pub open spec fn with_values<K, V>(rows: Map<K, V>, keys: Seq<K>, values: Seq<V>) -> Map<K, V> {
    Map::new(
        |k: K| rows.contains_key(k),
        |k: K|
            if keys.contains(k) {
                values[keys.index_of(k)]
            } else {
                rows[k]
            },
    )
}

/// The marks after the rows of `keys` were lent out to be changed.
pub open spec fn lent<K>(marks: Map<K, Mark>, keys: Seq<K>) -> Map<K, Mark> {
    Map::new(
        |k: K| marks.contains_key(k) || keys.contains(k),
        |k: K|
            if marks.contains_key(k) {
                marks[k]
            } else {
                Mark::Lent
            },
    )
}

/// The indexes with the rows `keys` and `values` added, one after the other.
pub open spec fn reindexed<D: RowDesc>(
    indexes: IndexesState<D>,
    keys: Seq<D::Key>,
    values: Seq<D::Value>,
) -> IndexesState<D>
    decreases keys.len(),
{
    if keys.len() == 0 {
        indexes
    } else {
        <D::IndexStorage>::inserted(
            reindexed::<D>(indexes, keys.drop_last(), values.drop_last()),
            keys.last(),
            values.last(),
        )
    }
}

/// One more row with a new value.
proof fn lemma_rewrite_next<K, V>(
    rows: Map<K, V>,
    marks: Map<K, Mark>,
    keys: Seq<K>,
    values: Seq<V>,
    n: int,
)
    requires
        0 <= n < keys.len(),
        keys.len() == values.len(),
        keys.no_duplicates(),
        forall|k: K| #[trigger] keys.contains(k) ==> rows.contains_key(k),
    ensures
        with_values(rows, keys.take(n + 1), values.take(n + 1)) == with_values(
            rows,
            keys.take(n),
            values.take(n),
        ).insert(keys[n], values[n]),
        lent(marks, keys.take(n + 1)) == storage::marked(
            lent(marks, keys.take(n)),
            keys[n],
            Mark::Lent,
        ),
        !with_values(rows, keys, values).remove_keys(keys.skip(n).to_set()).contains_key(keys[n]),
        with_values(rows, keys, values).remove_keys(keys.skip(n + 1).to_set()) == with_values(
            rows,
            keys,
            values,
        ).remove_keys(keys.skip(n).to_set()).insert(keys[n], values[n]),
        with_values(rows, keys, values).remove_keys(keys.skip(n + 1).to_set()).submap_of(
            with_values(rows, keys, values),
        ),
{
    storage::lemma_take_next(keys, n);
    let all = with_values(rows, keys, values);
    assert(keys.contains(keys[n]));
    assert(keys.index_of(keys[n]) == n);
    assert(keys.skip(n)[0] == keys[n]);
    assert(keys.skip(n).contains(keys[n]));
    assert forall|k: K| #[trigger] keys.skip(n).contains(k) <==> k == keys[n] || keys.skip(
        n + 1,
    ).contains(k) by {
        if keys.skip(n).contains(k) {
            let i = keys.skip(n).index_of(k);
            if i > 0 {
                assert(keys.skip(n + 1)[i - 1] == k);
            }
        }
        if keys.skip(n + 1).contains(k) {
            let i = keys.skip(n + 1).index_of(k);
            assert(keys.skip(n)[i + 1] == k);
        }
    }
    assert(!keys.skip(n + 1).contains(keys[n])) by {
        if keys.skip(n + 1).contains(keys[n]) {
            let i = keys.skip(n + 1).index_of(keys[n]);
            assert(keys[n + 1 + i] == keys[n]);
        }
    }
    assert(all.remove_keys(keys.skip(n + 1).to_set()) =~= all.remove_keys(
        keys.skip(n).to_set(),
    ).insert(keys[n], values[n]));
    let now = with_values(rows, keys.take(n), values.take(n));
    let next = with_values(rows, keys.take(n + 1), values.take(n + 1));
    assert forall|k: K| rows.contains_key(k) implies next[k] == #[trigger] now.insert(
        keys[n],
        values[n],
    )[k] by {
        if k == keys[n] {
            assert(keys.take(n + 1)[n] == k);
            let i = keys.take(n + 1).index_of(k);
            assert(keys.take(n + 1)[i] == keys[i]);
        } else if keys.take(n).contains(k) {
            let i = keys.take(n).index_of(k);
            let j = keys.take(n + 1).index_of(k);
            assert(keys.take(n)[i] == keys[i]);
            assert(keys.take(n + 1)[j] == keys[j]);
        }
    }
    assert(next =~= now.insert(keys[n], values[n]));
    assert(lent(marks, keys.take(n + 1)) =~= storage::marked(
        lent(marks, keys.take(n)),
        keys[n],
        Mark::Lent,
    ));
}

/// A table: its rows, and an index table for each of its indexes.
#[verifier::reject_recursive_types(D)]
pub struct Table<D: RowDesc> {
    rows: Rows<D::Key, D::Value>,
    indexes: D::IndexStorage,
}

impl<D: RowDesc> Table<D> {
    /// The rows which are visible at `txn_id`.
    pub closed spec fn rows_at(&self, txn_id: TxnId) -> Map<D::Key, D::Value> {
        self.rows.at(txn_id)
    }

    /// How `txn_id` has written the rows that it has written.
    pub closed spec fn marks_at(&self, txn_id: TxnId) -> Map<D::Key, Mark> {
        self.rows.marks(txn_id)
    }

    /// The indexes, as they are kept.
    pub closed spec fn index_storage(&self) -> D::IndexStorage {
        self.indexes
    }

    /// What is visible of the table at `txn_id`.
    pub open spec fn state(&self, txn_id: TxnId) -> TableState<D> {
        TableState {
            rows: self.rows_at(txn_id),
            indexes: self.index_storage().state(txn_id),
            marks: self.marks_at(txn_id),
        }
    }

    /// No stored version is newer than the transaction `txn_id`.
    pub closed spec fn stored(&self, txn_id: TxnId) -> bool {
        &&& self.rows.wf(txn_id)
        &&& self.indexes.wf(txn_id)
    }

    /// Nothing is newer than the transaction `txn_id`, the indexes are those of the rows, and no
    /// index of the committed state is poisoned.
    pub open spec fn wf(&self, txn_id: TxnId) -> bool {
        &&& self.stored(txn_id)
        &&& txn_id > 0
        &&& storage::key_model::<D::Key>()
        &&& <D::IndexStorage>::key_model()
        &&& self.state(txn_id).consistent()
        &&& self.state(storage::prior(txn_id)).consistent()
        &&& self.state(storage::prior(txn_id)).poisoned() is None
        &&& self.state(storage::prior(txn_id)).marks == Map::<D::Key, Mark>::empty()
    }

    /// An empty table.
    pub fn new() -> (r: Self)
        requires
            storage::key_model::<D::Key>(),
            <D::IndexStorage>::key_model(),
        ensures
            forall|t: TxnId| t > 0 ==> #[trigger] r.wf(t),
            forall|t: TxnId| #[trigger] r.state(t) == TableState::<D>::empty(),
    {
        proof {
            <D::IndexStorage>::lemma_empty();
        }
        Table { rows: Rows::new(), indexes: <D::IndexStorage>::new() }
    }

    /// The table's indexes.
    pub fn indexes(&self) -> (r: &D::IndexStorage)
        ensures
            *r == self.index_storage(),
    {
        &self.indexes
    }

    /// The row of `key` which is visible at `txn_id`.
    pub fn get(&self, key: &D::Key, txn_id: TxnId) -> (r: Option<&D::Value>)
        requires
            storage::key_model::<D::Key>(),
        ensures
            r == match self.state(txn_id).rows.get(*key) {
                Some(v) => Some(&v),
                None => None,
            },
    {
        self.rows.get(key, txn_id)
    }

    /// The rows which are visible at `txn_id`, each once.
    pub fn visible(&self, txn_id: TxnId) -> (r: Vec<(&D::Key, &D::Value)>)
        requires
            storage::key_model::<D::Key>(),
        ensures
            storage::lists(r@, self.state(txn_id).rows),
    {
        self.rows.visible(txn_id)
    }

    /// The number of rows which are visible at `txn_id`.
    pub fn len(&self, txn_id: TxnId) -> (r: usize)
        requires
            storage::key_model::<D::Key>(),
        ensures
            self.state(txn_id).rows.dom().finite(),
            r == self.state(txn_id).rows.len(),
    {
        self.rows.len(txn_id)
    }

    /// Whether no row is visible at `txn_id`.
    pub fn is_empty(&self, txn_id: TxnId) -> (r: bool)
        requires
            storage::key_model::<D::Key>(),
        ensures
            r <==> self.state(txn_id).rows == Map::<D::Key, D::Value>::empty(),
    {
        self.rows.is_empty(txn_id)
    }

    /// Write a row, in place of an earlier one with the same key.
    pub fn replace(&mut self, key: D::Key, value: D::Value, mark: Mark, txn_id: TxnId)
        requires
            old(self).wf(txn_id),
            admits::<D>(old(self).state(txn_id).rows.insert(key, value)),
        ensures
            final(self).wf(txn_id),
            final(self).state(txn_id) == old(self).state(txn_id).replace(key, value, mark),
            final(self).state(storage::prior(txn_id)) == old(self).state(storage::prior(txn_id)),
    {
        proof {
            self.state(txn_id).lemma_insert(key, value, mark);
            self.rows.lemma_marks(txn_id);
        }
        match self.rows.get(&key, txn_id) {
            Some(row) => self.indexes.on_remove(row, txn_id),
            None => {},
        }
        self.indexes.on_insert(&key, &value, txn_id);
        self.rows.insert(key, value, mark, txn_id);
        proof {
            self.rows.lemma_marks(txn_id);
        }
    }

    /// Insert a row, in place of an earlier one with the same key.
    pub fn insert(&mut self, key: D::Key, value: D::Value, txn_id: TxnId)
        requires
            old(self).wf(txn_id),
            admits::<D>(old(self).state(txn_id).rows.insert(key, value)),
        ensures
            final(self).wf(txn_id),
            final(self).state(txn_id) == old(self).state(txn_id).insert(key, value),
            final(self).state(storage::prior(txn_id)) == old(self).state(storage::prior(txn_id)),
    {
        self.replace(key, value, Mark::Assigned, txn_id)
    }

    /// Remove the row of `key`, if there is one.
    pub fn remove(&mut self, key: &D::Key, txn_id: TxnId)
        requires
            old(self).wf(txn_id),
        ensures
            final(self).wf(txn_id),
            final(self).state(txn_id) == old(self).state(txn_id).remove(*key),
            final(self).state(storage::prior(txn_id)) == old(self).state(storage::prior(txn_id)),
    {
        proof {
            self.state(txn_id).lemma_remove(*key);
        }
        match self.rows.get(key, txn_id) {
            Some(row) => self.indexes.on_remove(row, txn_id),
            None => {},
        }
        proof {
            self.rows.lemma_marks(txn_id);
        }
        self.rows.remove(key, txn_id);
        proof {
            self.rows.lemma_marks(txn_id);
        }
        assert(self.state(txn_id) == old(self).state(txn_id).remove(*key));
    }

    /// Remove all rows.
    pub fn clear(&mut self, txn_id: TxnId)
        requires
            old(self).wf(txn_id),
        ensures
            final(self).wf(txn_id),
            final(self).state(txn_id) == old(self).state(txn_id).clear(),
            final(self).state(storage::prior(txn_id)) == old(self).state(storage::prior(txn_id)),
    {
        proof {
            <D::IndexStorage>::lemma_empty();
            self.rows.lemma_marks(txn_id);
        }
        self.rows.clear(txn_id);
        self.indexes.clear(txn_id);
        proof {
            self.rows.lemma_marks(txn_id);
        }
    }

    /// Pass the row of `key` to `f`, and keep what `f` leaves in its place.
    pub fn with_mut<T, F: FnOnce(&mut D::Value) -> T>(
        &mut self,
        key: &D::Key,
        f: F,
        txn_id: TxnId,
    ) -> (r: Option<T>) where D::Value: Clone
        requires
            old(self).wf(txn_id),
            old(self).state(txn_id).rows.contains_key(*key) ==> {
                &&& forall|m: &mut D::Value|
                    cloned(old(self).state(txn_id).rows[*key], *m) ==> #[trigger] f.requires((m,))
                &&& forall|m: &mut D::Value, out: T|
                    cloned(old(self).state(txn_id).rows[*key], *m) && #[trigger] f.ensures(
                        (m,),
                        out,
                    ) ==> admits::<D>(old(self).state(txn_id).rows.insert(*key, *final(m)))
            },
        ensures
            final(self).wf(txn_id),
            final(self).state(storage::prior(txn_id)) == old(self).state(storage::prior(txn_id)),
            r is Some <==> old(self).state(txn_id).rows.contains_key(*key),
            r is None ==> *final(self) == *old(self),
            r is Some ==> exists|m: &mut D::Value|
                cloned(old(self).state(txn_id).rows[*key], *m) && #[trigger] f.ensures((m,), r->0)
                    && final(self).state(txn_id) == old(self).state(txn_id).mutate(*key, *final(m)),
    {
        let mut value = match self.rows.get(key, txn_id) {
            Some(row) => row.clone(),
            None => return None,
        };
        let out = f(&mut value);
        self.replace(clone_key(key), value, Mark::Lent, txn_id);
        let r = Some(out);
        assert(r->0 == out);
        r
    }

    /// Replace the values of the rows of `keys`.
    ///
    /// Index keys may move from one of the rows to another.
    pub fn set_values(&mut self, keys: Vec<D::Key>, values: Vec<D::Value>, txn_id: TxnId)
        requires
            old(self).wf(txn_id),
            keys@.len() == values@.len(),
            keys@.no_duplicates(),
            forall|k: D::Key| #[trigger]
                keys@.contains(k) ==> old(self).state(txn_id).rows.contains_key(k),
            admits::<D>(with_values(old(self).state(txn_id).rows, keys@, values@)),
        ensures
            final(self).wf(txn_id),
            final(self).state(storage::prior(txn_id)) == old(self).state(storage::prior(txn_id)),
            final(self).state(txn_id) == old(self).state(txn_id).rewrite(keys@, values@),
            old(self).state(txn_id).leads_to(final(self).state(txn_id)),
    {
        let mut values = values;
        let ghost start = self.state(txn_id);
        let ghost (ks, vs) = (keys@, values@);
        let ghost all = with_values(start.rows, ks, vs);
        proof {
            self.rows.lemma_marks(txn_id);
            <D::IndexStorage>::lemma_poisoned(start.indexes, start.indexes, all);
            assert(start.rows.remove_keys(ks.take(0).to_set()) =~= start.rows);
            assert(ks.take(0) =~= Seq::empty());
        }
        let mut n: usize = 0;
        while n < keys.len()
            invariant
                n <= keys.len(),
                keys@ == ks,
                self.rows == old(self).rows,
                start == old(self).state(txn_id),
                storage::key_model::<D::Key>(),
                self.indexes.wf(txn_id),
                self.indexes.state(storage::prior(txn_id)) == old(self).indexes.state(
                    storage::prior(txn_id),
                ),
                self.indexes.state(txn_id) == start.deindexed(ks.take(n as int)),
                <D::IndexStorage>::consistent(
                    self.indexes.state(txn_id),
                    start.rows.remove_keys(ks.take(n as int).to_set()),
                ),
                <D::IndexStorage>::poison_justified(
                    start.indexes,
                    self.indexes.state(txn_id),
                    all,
                ),
                ks.no_duplicates(),
                forall|k: D::Key| #[trigger] ks.contains(k) ==> start.rows.contains_key(k),
            decreases keys.len() - n,
        {
            let ghost left = start.rows.remove_keys(ks.take(n as int).to_set());
            proof {
                storage::lemma_take_next(ks, n as int);
                assert(ks.contains(ks[n as int]));
                assert(!ks.take(n as int).to_set().contains(ks[n as int]));
                <D::IndexStorage>::lemma_removed(self.indexes.state(txn_id), left, ks[n as int]);
                assert(ks.take(n + 1).drop_last() =~= ks.take(n as int));
                assert(left.remove(ks[n as int]) =~= start.rows.remove_keys(
                    ks.take(n + 1).to_set(),
                ));
            }
            match self.rows.get(&keys[n], txn_id) {
                Some(row) => self.indexes.on_remove(row, txn_id),
                None => {},
            }
            n += 1;
        }
        let mut back: Vec<D::Value> = Vec::new();
        while values.len() > 0
            invariant
                values@.len() <= vs.len(),
                values@ == vs.take(values@.len() as int),
                back@ == vs.skip(values@.len() as int).reverse(),
            decreases values.len(),
        {
            let ghost m = values@.len() - 1;
            if let Some(value) = values.pop() {
                back.push(value);
                assert(values@ =~= vs.take(m));
                assert(back@ =~= vs.skip(m).reverse());
            }
        }
        let ghost taken = self.indexes.state(txn_id);
        proof {
            assert(ks.take(ks.len() as int) =~= ks);
            assert(vs.skip(0) =~= vs);
            assert(ks.skip(0) =~= ks);
            assert(ks.take(0) =~= Seq::empty());
            assert(start.rows.remove_keys(ks.to_set()) =~= all.remove_keys(ks.skip(0).to_set()));
            assert(with_values(start.rows, ks.take(0), vs.take(0)) =~= start.rows);
            assert(lent(start.marks, ks.take(0)) =~= start.marks);
        }
        for key in it: keys.into_iter()
            invariant
                it.seq() == ks,
                ks.len() == vs.len(),
                back@ == vs.skip(it.index()).reverse(),
                self.rows.wf(txn_id),
                self.rows.at(storage::prior(txn_id)) == old(self).rows.at(storage::prior(txn_id)),
                self.rows.at(txn_id) == with_values(
                    start.rows,
                    ks.take(it.index()),
                    vs.take(it.index()),
                ),
                self.rows.marks(txn_id) == lent(start.marks, ks.take(it.index())),
                storage::key_model::<D::Key>(),
                self.indexes.wf(txn_id),
                self.indexes.state(storage::prior(txn_id)) == old(self).indexes.state(
                    storage::prior(txn_id),
                ),
                self.indexes.state(txn_id) == reindexed::<D>(
                    taken,
                    ks.take(it.index()),
                    vs.take(it.index()),
                ),
                <D::IndexStorage>::consistent(
                    self.indexes.state(txn_id),
                    all.remove_keys(ks.skip(it.index()).to_set()),
                ),
                <D::IndexStorage>::poison_justified(
                    start.indexes,
                    self.indexes.state(txn_id),
                    all,
                ),
                ks.no_duplicates(),
                forall|k: D::Key| #[trigger] ks.contains(k) ==> start.rows.contains_key(k),
                all == with_values(start.rows, ks, vs),
                admits::<D>(all),
        {
            let ghost n = it.index();
            let ghost part = all.remove_keys(ks.skip(n).to_set());
            assert(vs.skip(n).reverse().last() == vs[n]);
            if let Some(value) = back.pop() {
                proof {
                    assert(value == vs[n]);
                    assert(back@ =~= vs.skip(n + 1).reverse());
                    lemma_rewrite_next::<D::Key, D::Value>(start.rows, start.marks, ks, vs, n);
                    <D::IndexStorage>::lemma_admits(part.insert(key, value), all);
                    <D::IndexStorage>::lemma_inserted(
                        self.indexes.state(txn_id),
                        part,
                        key,
                        value,
                    );
                    assert(ks.take(n + 1).drop_last() =~= ks.take(n));
                    assert(vs.take(n + 1).drop_last() =~= vs.take(n));
                }
                self.indexes.on_insert(&key, &value, txn_id);
                self.rows.insert(key, value, Mark::Lent, txn_id);
            }
        }
        proof {
            self.rows.lemma_marks(txn_id);
            assert(ks.take(ks.len() as int) =~= ks);
            assert(vs.take(ks.len() as int) =~= vs);
            assert(all.remove_keys(ks.skip(ks.len() as int).to_set()) =~= all);
        }
    }

    /// Whether the transaction `txn_id` leaves all indexes usable.
    pub fn check_txn_consistency(&self, txn_id: TxnId) -> (r: Result<(), Error>)
        ensures
            r == match self.state(txn_id).poisoned() {
                Some(name) => Err::<(), Error>(Error::NonUniqueIndexKey(name)),
                None => Ok(()),
            },
    {
        self.indexes.check_txn_consistency(txn_id)
    }

    /// End the transaction `txn_id`: what it has written is what later transactions find.
    pub fn commit(&mut self, txn_id: TxnId)
        requires
            old(self).wf(txn_id),
            old(self).state(txn_id).poisoned() is None,
            txn_id < TxnId::MAX,
        ensures
            final(self).wf(storage::following(txn_id)),
            final(self).state(txn_id) == old(self).state(txn_id).settled(),
            final(self).state(storage::following(txn_id)) == old(self).state(txn_id).settled(),
            final(self).state(storage::following(txn_id)).rows == old(self).state(txn_id).rows,
            final(self).state(storage::following(txn_id)).indexes == old(self).state(
                txn_id,
            ).indexes,
    {
        self.rows.commit(txn_id);
        self.indexes.commit(txn_id);
        proof {
            self.rows.lemma_marks(storage::following(txn_id));
        }
    }

    /// The event for the row of `key`, which the transaction `txn_id` has written, if there is one.
    fn event(&self, key: &D::Key, txn_id: TxnId) -> (r: Option<
        Event<D::Key, D::NotificationValue>,
    >) where D: Notifiable
        requires
            self.wf(txn_id),
            self.state(txn_id).marks.contains_key(*key),
        ensures
            r matches Some(e) ==> {
                &&& e.key == *key
                &&& events::describes::<D>(e, self.state(txn_id).rows)
                &&& events::changed::<D>(
                    self.state(storage::prior(txn_id)).rows.get(*key),
                    self.state(txn_id).rows.get(*key),
                    self.state(txn_id).marks[*key],
                )
            },
            r is None ==> {
                &&& self.state(storage::prior(txn_id)).rows.get(*key) == self.state(
                    txn_id,
                ).rows.get(*key)
                &&& self.state(txn_id).marks[*key] == Mark::Lent || self.state(txn_id).rows.get(
                    *key,
                ) is None
            },
    {
        let same = match (self.rows.get(key, txn_id - 1), self.rows.get(key, txn_id)) {
            (Some(before), Some(after)) => match self.rows.mark(key, txn_id) {
                Some(Mark::Lent) => D::value_eq(before, after),
                _ => false,
            },
            (None, None) => true,
            _ => false,
        };
        if same {
            None
        } else {
            let value = match self.rows.get(key, txn_id) {
                Some(after) => Some(D::clone_value_for_notification(after)),
                None => None,
            };
            Some(Event { key: clone_key(key), value })
        }
    }

    /// What the transaction `txn_id` has changed.
    pub fn events(&self, txn_id: TxnId) -> (r: Vec<Event<D::Key, D::NotificationValue>>) where
        D: Notifiable,

        requires
            self.wf(txn_id),
        ensures
            events::reports::<D>(
                self.state(storage::prior(txn_id)).rows,
                self.state(txn_id).rows,
                self.state(txn_id).marks,
                r@,
            ),
    {
        let ghost before = self.state(storage::prior(txn_id)).rows;
        let ghost after = self.state(txn_id).rows;
        let ghost marks = self.state(txn_id).marks;
        let keys = self.rows.written(txn_id);
        proof {
            self.rows.lemma_marks(txn_id);
            assert forall|k: D::Key| #[trigger] keys@.contains(k) <==> marks.contains_key(k) by {
                assert(marks.dom().contains(k) <==> self.rows.modified(txn_id).contains(k));
            }
        }
        let mut events: Vec<Event<D::Key, D::NotificationValue>> = Vec::new();
        let mut n: usize = 0;
        while n < keys.len()
            invariant
                n <= keys.len(),
                self.wf(txn_id),
                keys@.no_duplicates(),
                forall|k: D::Key| #[trigger] keys@.contains(k) <==> marks.contains_key(k),
                before == self.state(storage::prior(txn_id)).rows,
                after == self.state(txn_id).rows,
                marks == self.state(txn_id).marks,
                forall|i: int|
                    0 <= i < events@.len() ==> {
                        &&& events::describes::<D>(#[trigger] events@[i], after)
                        &&& events::changed::<D>(
                            before.get(events@[i].key),
                            after.get(events@[i].key),
                            marks[events@[i].key],
                        )
                        &&& keys@.take(n as int).contains(events@[i].key)
                        &&& marks.contains_key(events@[i].key)
                    },
                forall|i: int, j: int|
                    0 <= i < j < events@.len() ==> (#[trigger] events@[i]).key != (
                    #[trigger] events@[j]).key,
                forall|k: D::Key| #[trigger]
                    keys@.take(n as int).contains(k) && (before.get(k) != after.get(k) || marks[k]
                        == Mark::Assigned && after.get(k) is Some) ==> exists|i: int|
                        0 <= i < events@.len() && (#[trigger] events@[i]).key == k,
            decreases keys.len() - n,
        {
            proof {
                storage::lemma_take_next(keys@, n as int);
                assert(keys@.contains(keys@[n as int]));
            }
            let ghost found = events@;
            match self.event(&keys[n], txn_id) {
                Some(e) => {
                    events.push(e);
                    assert(events@[found.len() as int].key == keys@[n as int]);
                },
                None => {},
            }
            n += 1;
            assert forall|k: D::Key| #[trigger]
                keys@.take(n as int).contains(k) && (before.get(k) != after.get(k) || marks[k]
                    == Mark::Assigned && after.get(k) is Some) implies exists|i: int|
                0 <= i < events@.len() && (#[trigger] events@[i]).key == k by {
                if keys@.take(n - 1).contains(k) {
                    let i = choose|i: int| 0 <= i < found.len() && (#[trigger] found[i]).key == k;
                    assert(events@[i] == found[i]);
                }
            }
        }
        assert forall|k: D::Key|
            before.get(k) != after.get(k) || marks.get(k) == Some(Mark::Assigned) && after.get(
                k,
            ) is Some implies exists|i: int|
            0 <= i < events@.len() && (#[trigger] events@[i]).key == k by {
            if !self.rows.modified(txn_id).contains(k) {
                self.rows.lemma_unmodified(k, txn_id);
            }
            assert(keys@.contains(k));
            assert(keys@.take(n as int) =~= keys@);
        }
        events
    }

    /// Forget what the transaction `txn_id` has written.
    pub fn gc_txn(&mut self, txn_id: TxnId)
        requires
            old(self).wf(txn_id),
        ensures
            final(self).wf(txn_id),
            final(self).state(storage::prior(txn_id)) == old(self).state(storage::prior(txn_id)),
            final(self).state(txn_id) == old(self).state(storage::prior(txn_id)),
    {
        proof {
            self.rows.lemma_marks(txn_id);
        }
        self.rows.gc_txn(txn_id);
        self.indexes.gc_txn(txn_id);
        proof {
            self.rows.lemma_marks(txn_id);
        }
    }
}

} // verus!
