//! Indexes of a table: entries which lead from the keys of an index to the rows of its base table.

use crate::error::Error;
use crate::schema::IndexKeys;
use crate::storage;
use crate::storage::{clone_key, Mark, Rows, TxnId};
use vstd::prelude::*;

verus! {

/// Whether each index key of `X` identifies one row of `rows`.
pub open spec fn unique<X: IndexKeys>(rows: Map<X::BaseKey, X::Row>) -> bool {
    &&& forall|k: X::BaseKey| #[trigger]
        rows.contains_key(k) ==> X::keys(rows[k]).no_duplicates()
    &&& forall|a: X::BaseKey, b: X::BaseKey, key: X::Key|
        rows.contains_key(a) && rows.contains_key(b) && #[trigger] X::keys(rows[a]).contains(key)
            && #[trigger] X::keys(rows[b]).contains(key) ==> a == b
}

/// What is visible of an index at some point.
#[verifier::reject_recursive_types(K)]
pub struct IndexState<K, B> {
    /// The entries: from index key to key of the base table.
    pub entries: Map<K, B>,
    /// Whether several rows had the same index key.
    pub poisoned: bool,
}

impl<K, B> IndexState<K, B> {
    /// An index without entries.
    pub open spec fn empty() -> Self {
        IndexState { entries: Map::empty(), poisoned: false }
    }

    /// Whether rows with these index keys can be added.
    pub open spec fn fresh(self, keys: Seq<K>) -> bool {
        &&& keys.no_duplicates()
        &&& forall|key: K| #[trigger] keys.contains(key) ==> !self.entries.contains_key(key)
    }

    /// Add a row: an index key which already leads to a row keeps doing so, and poisons the index.
    pub open spec fn insert(self, keys: Seq<K>, base_key: B) -> Self {
        IndexState {
            entries: Map::new(
                |key: K| self.entries.contains_key(key) || keys.contains(key),
                |key: K|
                    if self.entries.contains_key(key) {
                        self.entries[key]
                    } else {
                        base_key
                    },
            ),
            poisoned: self.poisoned || !self.fresh(keys),
        }
    }

    /// Adding a row with the first `n + 1` of `keys` is adding one with the first `n`, and then
    /// the key at `n`.
    proof fn lemma_insert_next(self, keys: Seq<K>, n: int, base_key: B)
        requires
            0 <= n < keys.len(),
        ensures
            ({
                let a = self.insert(keys.take(n), base_key);
                let b = self.insert(keys.take(n + 1), base_key);
                if a.entries.contains_key(keys[n]) {
                    b.entries == a.entries && b.poisoned && !self.fresh(keys)
                } else {
                    b.entries == a.entries.insert(keys[n], base_key) && b.poisoned == a.poisoned
                }
            }),
    {
        storage::lemma_take_next(keys, n);
        let a = self.insert(keys.take(n), base_key);
        let b = self.insert(keys.take(n + 1), base_key);
        assert(keys.take(n + 1).contains(keys[n]));
        if a.entries.contains_key(keys[n]) {
            assert(b.entries =~= a.entries);
            assert(keys.contains(keys[n]));
            if keys.no_duplicates() && keys.take(n).contains(keys[n]) {
                let i = keys.take(n).index_of(keys[n]);
                assert(keys[i] == keys[n]);
            }
        } else {
            assert(b.entries =~= a.entries.insert(keys[n], base_key));
            if self.fresh(keys.take(n + 1)) {
                assert forall|key: K| #[trigger] keys.take(n).contains(key) implies
                    !self.entries.contains_key(key) by {
                    assert(keys.take(n + 1).contains(key));
                }
            }
        }
    }

    /// Remove the index keys of a row.
    pub open spec fn remove(self, keys: Seq<K>) -> Self {
        IndexState { entries: self.entries.remove_keys(keys.to_set()), poisoned: self.poisoned }
    }

    /// Whether this is the index `X` of `rows`: each entry leads to a row which has that index
    /// key, and, unless the index is poisoned, each index key of each row has its entry.
    pub open spec fn is_index_of<X: IndexKeys<Key = K, BaseKey = B>>(
        self,
        rows: Map<B, X::Row>,
    ) -> bool {
        &&& forall|key: K| #[trigger]
            self.entries.contains_key(key) ==> rows.contains_key(self.entries[key]) && X::keys(
                rows[self.entries[key]],
            ).contains(key)
        &&& !self.poisoned ==> {
            &&& unique::<X>(rows)
            &&& forall|k: B, key: K|
                rows.contains_key(k) && #[trigger] X::keys(rows[k]).contains(key)
                    ==> self.entries.contains_key(key)
        }
        &&& X::ASSERT_UNIQUE ==> !self.poisoned
    }
}

impl<K, B> IndexState<K, B> {
    /// A row can be added if the table's index keys are still unique with it.
    pub proof fn lemma_fresh<X: IndexKeys<Key = K, BaseKey = B>>(
        self,
        rows: Map<B, X::Row>,
        base_key: B,
        row: X::Row,
    )
        requires
            self.is_index_of::<X>(rows),
            !rows.contains_key(base_key),
            unique::<X>(rows.insert(base_key, row)),
        ensures
            self.fresh(X::keys(row)),
    {
        let all = rows.insert(base_key, row);
        assert(all.contains_key(base_key));
        assert forall|key: K| #[trigger] X::keys(row).contains(key) implies
            !self.entries.contains_key(key) by {
            if self.entries.contains_key(key) {
                let other = self.entries[key];
                assert(X::keys(all[other]).contains(key));
                assert(X::keys(all[base_key]).contains(key));
            }
        }
    }

    /// Adding a row to a table and its index keys to the index leaves an index of the table.
    pub proof fn lemma_insert<X: IndexKeys<Key = K, BaseKey = B>>(
        self,
        rows: Map<B, X::Row>,
        base_key: B,
        row: X::Row,
    )
        requires
            self.is_index_of::<X>(rows),
            !rows.contains_key(base_key),
            X::ASSERT_UNIQUE ==> self.fresh(X::keys(row)),
        ensures
            self.insert(X::keys(row), base_key).is_index_of::<X>(rows.insert(base_key, row)),
    {
        let all = rows.insert(base_key, row);
        let after = self.insert(X::keys(row), base_key);
        assert forall|key: K| #[trigger] after.entries.contains_key(key) implies all.contains_key(
            after.entries[key],
        ) && X::keys(all[after.entries[key]]).contains(key) by {}
        if !after.poisoned {
            assert forall|k: B| #[trigger] all.contains_key(k) implies X::keys(
                all[k],
            ).no_duplicates() by {
                if k != base_key {
                    assert(rows.contains_key(k));
                }
            }
            assert forall|a: B, b: B, key: K|
                all.contains_key(a) && all.contains_key(b) && #[trigger] X::keys(all[a]).contains(
                    key,
                ) && #[trigger] X::keys(all[b]).contains(key) implies a == b by {
                if a != base_key {
                    assert(X::keys(rows[a]).contains(key));
                    assert(self.entries.contains_key(key));
                }
                if b != base_key {
                    assert(X::keys(rows[b]).contains(key));
                    assert(self.entries.contains_key(key));
                }
            }
            assert forall|k: B, key: K|
                all.contains_key(k) && #[trigger] X::keys(all[k]).contains(
                    key,
                ) implies after.entries.contains_key(key) by {
                if k != base_key {
                    assert(X::keys(rows[k]).contains(key));
                }
            }
        }
    }

    /// Removing a row from a table and its index keys from the index leaves an index of the table.
    pub proof fn lemma_remove<X: IndexKeys<Key = K, BaseKey = B>>(
        self,
        rows: Map<B, X::Row>,
        base_key: B,
    )
        requires
            self.is_index_of::<X>(rows),
            rows.contains_key(base_key),
        ensures
            self.remove(X::keys(rows[base_key])).is_index_of::<X>(rows.remove(base_key)),
    {
        let less = rows.remove(base_key);
        let gone = X::keys(rows[base_key]);
        let after = self.remove(gone);
        assert forall|key: K| #[trigger] after.entries.contains_key(key) implies less.contains_key(
            after.entries[key],
        ) && X::keys(less[after.entries[key]]).contains(key) by {
            assert(self.entries.contains_key(key));
            assert(!gone.to_set().contains(key));
            assert(!gone.contains(key));
        }
        if !after.poisoned {
            lemma_unique_sub::<X>(less, rows);
            assert forall|k: B, key: K|
                less.contains_key(k) && #[trigger] X::keys(less[k]).contains(
                    key,
                ) implies after.entries.contains_key(key) by {
                assert(X::keys(rows[k]).contains(key));
                if gone.contains(key) {
                    assert(X::keys(rows[base_key]).contains(key));
                }
            }
        }
    }
}

/// A part of rows with unique index keys has unique index keys.
pub proof fn lemma_unique_sub<X: IndexKeys>(
    part: Map<X::BaseKey, X::Row>,
    rows: Map<X::BaseKey, X::Row>,
)
    requires
        unique::<X>(rows),
        part.submap_of(rows),
    ensures
        unique::<X>(part),
{
    assert forall|k: X::BaseKey| #[trigger] part.contains_key(k) implies X::keys(
        part[k],
    ).no_duplicates() by {
        assert(rows.contains_key(k));
    }
    assert forall|a: X::BaseKey, b: X::BaseKey, key: X::Key|
        part.contains_key(a) && part.contains_key(b) && #[trigger] X::keys(part[a]).contains(key)
            && #[trigger] X::keys(part[b]).contains(key) implies a == b by {
        assert(rows.contains_key(a) && rows.contains_key(b));
        assert(X::keys(rows[a]).contains(key));
        assert(X::keys(rows[b]).contains(key));
    }
}

/// The stored entries of the index `X`.
#[verifier::reject_recursive_types(X)]
pub struct IndexTable<X: IndexKeys> {
    entries: Rows<X::Key, X::BaseKey>,
    /// The transaction in which several rows had the same index key.
    poisoned: Option<TxnId>,
}

impl<X: IndexKeys> IndexTable<X> {
    /// What is visible of the index at `txn_id`.
    pub closed spec fn state(&self, txn_id: TxnId) -> IndexState<X::Key, X::BaseKey> {
        IndexState {
            entries: self.entries.at(txn_id),
            poisoned: self.poisoned == Some(txn_id),
        }
    }

    pub closed spec fn wf(&self, txn_id: TxnId) -> bool {
        &&& txn_id > 0
        &&& storage::key_model::<X::Key>()
        &&& storage::key_model::<X::BaseKey>()
        &&& self.entries.wf(txn_id)
        &&& self.poisoned matches Some(t) ==> t == txn_id
    }

    /// An index without entries.
    pub fn new() -> (r: Self)
        requires
            storage::key_model::<X::Key>(),
            storage::key_model::<X::BaseKey>(),
        ensures
            forall|t: TxnId| t > 0 ==> #[trigger] r.wf(t),
            forall|t: TxnId| #[trigger] r.state(t) == IndexState::<X::Key, X::BaseKey>::empty(),
    {
        IndexTable { entries: Rows::new(), poisoned: None }
    }

    /// Whether several rows had the same index key, as `txn_id` sees it.
    pub fn is_poisoned(&self, txn_id: TxnId) -> (r: bool)
        ensures
            r == self.state(txn_id).poisoned,
    {
        match self.poisoned {
            Some(t) => t == txn_id,
            None => false,
        }
    }

    /// The key of the row which an index key leads to.
    pub fn get(&self, key: &X::Key, txn_id: TxnId) -> (r: Option<&X::BaseKey>)
        requires
            storage::key_model::<X::Key>(),
        ensures
            r == match self.state(txn_id).entries.get(*key) {
                Some(k) => Some(&k),
                None => None,
            },
    {
        self.entries.get(key, txn_id)
    }

    /// The entries of the index, in no particular order.
    pub fn visible(&self, txn_id: TxnId) -> (r: Vec<(&X::Key, &X::BaseKey)>)
        requires
            storage::key_model::<X::Key>(),
        ensures
            storage::lists(r@, self.state(txn_id).entries),
    {
        self.entries.visible(txn_id)
    }

    /// Add the index keys of a row.
    pub fn add_row(&mut self, base_key: &X::BaseKey, row: &X::Row, txn_id: TxnId)
        requires
            old(self).wf(txn_id),
            X::ASSERT_UNIQUE ==> old(self).state(txn_id).fresh(X::keys(*row)),
        ensures
            final(self).wf(txn_id),
            final(self).state(txn_id) == old(self).state(txn_id).insert(X::keys(*row), *base_key),
            final(self).state(storage::prior(txn_id)) == old(self).state(storage::prior(txn_id)),
    {
        let keys = X::index_keys(row);
        let ghost start = *self;
        let mut n: usize = 0;
        proof {
            assert(start.state(txn_id).insert(keys@.take(0), *base_key).entries
                =~= start.state(txn_id).entries);
        }
        while n < keys.len()
            invariant
                keys@ == X::keys(*row),
                n <= keys@.len(),
                start.wf(txn_id),
                self.wf(txn_id),
                X::ASSERT_UNIQUE ==> start.state(txn_id).fresh(keys@),
                self.state(txn_id) == start.state(txn_id).insert(keys@.take(n as int), *base_key),
                self.state(storage::prior(txn_id)) == start.state(storage::prior(txn_id)),
            decreases keys@.len() - n,
        {
            proof {
                start.state(txn_id).lemma_insert_next(keys@, n as int, *base_key);
            }
            let taken = self.entries.get(&keys[n], txn_id).is_some();
            if taken {
                if X::ASSERT_UNIQUE {
                    vstd::pervasive::unreached::<()>();
                }
                self.poisoned = Some(txn_id);
            } else {
                self.entries.insert(clone_key(&keys[n]), clone_key(base_key), Mark::Assigned, txn_id);
            }
            n += 1;
        }
        proof {
            assert(keys@.take(n as int) =~= keys@);
        }
    }

    /// Remove the index keys of a row.
    pub fn remove_row(&mut self, row: &X::Row, txn_id: TxnId)
        requires
            old(self).wf(txn_id),
        ensures
            final(self).wf(txn_id),
            final(self).state(txn_id) == old(self).state(txn_id).remove(X::keys(*row)),
            final(self).state(storage::prior(txn_id)) == old(self).state(
                storage::prior(txn_id),
            ),
    {
        let keys = X::index_keys(row);
        let ghost start = *self;
        let mut n: usize = 0;
        proof {
            assert(start.state(txn_id).remove(keys@.take(0)).entries
                =~= start.state(txn_id).entries);
        }
        while n < keys.len()
            invariant
                keys@ == X::keys(*row),
                n <= keys@.len(),
                self.wf(txn_id),
                self.state(txn_id) == start.state(txn_id).remove(keys@.take(n as int)),
                self.state(storage::prior(txn_id)) == start.state(
                    storage::prior(txn_id),
                ),
            decreases keys@.len() - n,
        {
            proof {
                storage::lemma_take_next(keys@, n as int);
                assert(start.state(txn_id).remove(keys@.take(n + 1)).entries
                    =~= self.state(txn_id).entries.remove(keys@[n as int]));
            }
            self.entries.remove(&keys[n], txn_id);
            n += 1;
        }
        proof {
            assert(keys@.take(n as int) =~= keys@);
        }
    }

    /// Remove all entries.
    pub fn clear(&mut self, txn_id: TxnId)
        requires
            old(self).wf(txn_id),
        ensures
            final(self).wf(txn_id),
            final(self).state(txn_id) == IndexState::<X::Key, X::BaseKey>::empty(),
            final(self).state(storage::prior(txn_id)) == old(self).state(
                storage::prior(txn_id),
            ),
    {
        self.entries.clear(txn_id);
        self.poisoned = None;
    }

    /// Whether the transaction `txn_id` leaves the index usable.
    pub fn check_txn_consistency(&self, txn_id: TxnId) -> (r: Result<(), Error>)
        ensures
            r == if self.state(txn_id).poisoned {
                Err::<(), Error>(Error::NonUniqueIndexKey(X::NAME))
            } else {
                Ok(())
            },
    {
        if self.is_poisoned(txn_id) {
            Err(Error::NonUniqueIndexKey(X::NAME))
        } else {
            Ok(())
        }
    }

    /// End the transaction `txn_id`: what it has written is what later transactions find.
    pub fn commit(&mut self, txn_id: TxnId)
        requires
            old(self).wf(txn_id),
            !old(self).state(txn_id).poisoned,
            txn_id < TxnId::MAX,
        ensures
            final(self).wf(storage::following(txn_id)),
            final(self).state(txn_id) == old(self).state(txn_id),
            final(self).state(storage::following(txn_id)) == old(self).state(txn_id),
    {
        self.entries.commit(txn_id);
    }

    /// Forget what the transaction `txn_id` has written.
    pub fn gc_txn(&mut self, txn_id: TxnId)
        requires
            old(self).wf(txn_id),
        ensures
            final(self).wf(txn_id),
            final(self).state(storage::prior(txn_id)) == old(self).state(
                storage::prior(txn_id),
            ),
            final(self).state(txn_id) == old(self).state(storage::prior(txn_id)),
    {
        self.entries.gc_txn(txn_id);
        self.poisoned = None;
    }
}

} // verus!
