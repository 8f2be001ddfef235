//! Versioned storage: values, rows and index entries that hold a committed state and, beside it,
//! the changes of the transaction in progress.

use std::collections::HashMap;
use std::hash::Hash;
use vstd::prelude::*;

verus! {

broadcast use vstd::std_specs::hash::group_hash_axioms;

/// Identifies a transaction.
///
/// A store numbers its transactions one after the other. What is visible at the id of the
/// transaction in progress includes that transaction's own changes; what is visible at the id
/// before it is the committed state.
pub type TxnId = u64;

/// The id before `txn_id`, at which the state that the transaction `txn_id` started from is visible.
pub open spec fn prior(txn_id: TxnId) -> TxnId {
    (txn_id - 1) as TxnId
}

/// The id of the transaction after `txn_id`.
pub open spec fn following(txn_id: TxnId) -> TxnId {
    (txn_id + 1) as TxnId
}

/// What a key type has to do for a hash map to find its keys: hash and compare by value, and
/// clone to an equal key.
pub open spec fn key_model<K: Clone>() -> bool {
    &&& vstd::std_specs::hash::obeys_key_model::<K>()
    &&& forall|a: K, b: K| #[trigger] cloned::<K>(a, b) ==> a == b
}

/// A copy of `key`.
pub fn clone_key<K: Clone>(key: &K) -> (r: K)
    requires
        key_model::<K>(),
    ensures
        r == *key,
{
    let r = key.clone();
    assert(cloned::<K>(*key, r));
    r
}

/// One version of a value, with the id of the transaction that wrote it.
pub struct Version<T> {
    id: TxnId,
    value: T,
}

/// A value which keeps its committed version while a transaction changes it.
pub struct VersionedValue<T> {
    latest: Option<Version<T>>,
    previous: Option<Version<T>>,
}

impl<T> VersionedValue<T> {
    /// The value which is visible at `txn_id`: the newest one that was not written later.
    pub closed spec fn at(&self, txn_id: TxnId) -> Option<T> {
        match self.latest {
            Some(v) if v.id <= txn_id => Some(v.value),
            _ => match self.previous {
                Some(v) if v.id <= txn_id => Some(v.value),
                _ => None,
            },
        }
    }

    /// Whether `txn_id` has written this value.
    pub closed spec fn modified(&self, txn_id: TxnId) -> bool {
        self.latest matches Some(v) && v.id == txn_id
    }

    /// The versions are in order, and none is newer than the transaction `txn_id`.
    pub closed spec fn wf(&self, txn_id: TxnId) -> bool {
        &&& self.latest matches Some(v) ==> v.id <= txn_id
        &&& self.previous matches Some(p) ==> self.latest matches Some(v) && p.id < v.id
    }

    /// A value that `txn_id` has not written is the same to it as in the committed state.
    pub proof fn lemma_unmodified(&self, txn_id: TxnId)
        requires
            self.wf(txn_id),
            !self.modified(txn_id),
            txn_id > 0,
        ensures
            self.at(txn_id) == self.at(prior(txn_id)),
    {
    }

    /// Once a transaction is over, its value is what the next transaction finds.
    pub proof fn lemma_next(&self, txn_id: TxnId)
        requires
            self.wf(txn_id),
            txn_id < TxnId::MAX,
        ensures
            self.wf(following(txn_id)),
            !self.modified(following(txn_id)),
            self.at(following(txn_id)) == self.at(txn_id),
    {
    }

    /// A value without any version.
    pub fn new() -> (r: Self)
        ensures
            forall|t: TxnId| #[trigger] r.wf(t),
            forall|t: TxnId| !#[trigger] r.modified(t),
            forall|t: TxnId| (#[trigger] r.at(t)) is None,
    {
        VersionedValue { latest: None, previous: None }
    }

    /// The value which is visible at `txn_id`.
    pub fn get(&self, txn_id: TxnId) -> (r: Option<&T>)
        ensures
            r == match self.at(txn_id) {
                Some(v) => Some(&v),
                None => None,
            },
    {
        if let Some(v) = &self.latest {
            if v.id <= txn_id {
                return Some(&v.value);
            }
        }
        if let Some(v) = &self.previous {
            if v.id <= txn_id {
                return Some(&v.value);
            }
        }
        None
    }

    /// The value that `txn_id` has written, if it has written one.
    pub fn modified_in_txn(&self, txn_id: TxnId) -> (r: Option<&T>)
        ensures
            r is Some <==> self.modified(txn_id),
            r matches Some(v) ==> self.at(txn_id) == Some(*v),
    {
        match &self.latest {
            Some(v) if v.id == txn_id => Some(&v.value),
            _ => None,
        }
    }

    /// Write `value` as part of the transaction `txn_id`.
    pub fn set(&mut self, value: T, txn_id: TxnId)
        requires
            old(self).wf(txn_id),
        ensures
            final(self).wf(txn_id),
            final(self).modified(txn_id),
            final(self).at(txn_id) == Some(value),
            txn_id > 0 ==> final(self).at(prior(txn_id)) == old(self).at(prior(txn_id)),
    {
        let latest = self.latest.take();
        match latest {
            Some(v) if v.id == txn_id => {},
            other => {
                self.previous = other;
            },
        }
        self.latest = Some(Version { id: txn_id, value });
    }

    /// Forget what the transaction `txn_id` has written.
    pub fn gc_txn(&mut self, txn_id: TxnId)
        requires
            old(self).wf(txn_id),
            txn_id > 0,
        ensures
            final(self).wf(txn_id),
            !final(self).modified(txn_id),
            final(self).at(txn_id) == old(self).at(prior(txn_id)),
            final(self).at(prior(txn_id)) == old(self).at(prior(txn_id)),
    {
        let latest = self.latest.take();
        match latest {
            Some(v) if v.id == txn_id => {
                self.latest = self.previous.take();
            },
            other => {
                self.latest = other;
            },
        }
    }
}

/// How a transaction has written a row.
#[derive(Clone, Copy, Debug, PartialEq, Eq, Structural)]
pub enum Mark {
    /// It has given the row a value, or removed it.
    Assigned,
    /// It has lent the value out to be changed, and has not assigned it before.
    Lent,
}

/// The marks after a row was written in the way `mark`.
pub open spec fn marked<K>(marks: Map<K, Mark>, key: K, mark: Mark) -> Map<K, Mark> {
    if mark == Mark::Lent && marks.contains_key(key) {
        marks
    } else {
        marks.insert(key, mark)
    }
}

/// The marks after all `rows` were removed.
pub open spec fn marked_removed<K, V>(marks: Map<K, Mark>, rows: Map<K, V>) -> Map<K, Mark> {
    Map::new(
        |k: K| marks.contains_key(k) || rows.contains_key(k),
        |k: K|
            if rows.contains_key(k) {
                Mark::Assigned
            } else {
                marks[k]
            },
    )
}

/// Rows of a table (or entries of an index), found by key, with the changes of the transaction in
/// progress.
#[verifier::reject_recursive_types(K)]
pub struct Rows<K, V> {
    data: HashMap<K, VersionedValue<Option<V>>>,
    /// The keys that the transaction in progress has written, each once.
    touched: Vec<K>,
    /// How it has written them.
    marks: HashMap<K, Mark>,
}

impl<K: Hash + Eq + Clone, V> Rows<K, V> {
    spec fn row_at(&self, key: K, txn_id: TxnId) -> Option<V> {
        if self.data@.contains_key(key) {
            match self.data@[key].at(txn_id) {
                Some(Some(v)) => Some(v),
                _ => None,
            }
        } else {
            None
        }
    }

    /// The rows which are visible at `txn_id`.
    pub closed spec fn at(&self, txn_id: TxnId) -> Map<K, V> {
        Map::new(
            |k: K| self.row_at(k, txn_id) is Some,
            |k: K| self.row_at(k, txn_id)->0,
        )
    }

    /// The keys that the transaction `txn_id` has written.
    pub closed spec fn modified(&self, txn_id: TxnId) -> Set<K> {
        Set::new(|k: K| self.data@.contains_key(k) && self.data@[k].modified(txn_id))
    }

    /// How the transaction `txn_id` has written the rows that it has written.
    pub closed spec fn marks(&self, txn_id: TxnId) -> Map<K, Mark> {
        Map::new(
            |k: K| self.marks@.contains_key(k) && self.modified(txn_id).contains(k),
            |k: K| self.marks@[k],
        )
    }

    pub closed spec fn wf(&self, txn_id: TxnId) -> bool {
        &&& key_model::<K>()
        &&& txn_id > 0
        &&& forall|k: K| #[trigger] self.data@.contains_key(k) ==> self.data@[k].wf(txn_id)
        &&& self.touched@.no_duplicates()
        &&& forall|k: K| #[trigger] self.touched@.contains(k) <==> self.modified(txn_id).contains(k)
        &&& forall|k: K| #[trigger]
            self.marks@.contains_key(k) <==> self.modified(txn_id).contains(k)
    }

    /// Each row that a transaction has written is marked, and no row of the committed state is.
    pub proof fn lemma_marks(&self, txn_id: TxnId)
        requires
            self.wf(txn_id),
        ensures
            self.marks(txn_id).dom() == self.modified(txn_id),
            self.marks(prior(txn_id)) == Map::<K, Mark>::empty(),
    {
        assert(self.marks(txn_id).dom() =~= self.modified(txn_id));
        assert(self.marks(prior(txn_id)) =~= Map::<K, Mark>::empty());
    }

    /// No rows at all.
    pub fn new() -> (r: Self)
        requires
            key_model::<K>(),
        ensures
            forall|t: TxnId| t > 0 ==> #[trigger] r.wf(t),
            forall|t: TxnId| #[trigger] r.at(t) == Map::<K, V>::empty(),
            forall|t: TxnId| #[trigger] r.modified(t) == Set::<K>::empty(),
            forall|t: TxnId| #[trigger] r.marks(t) == Map::<K, Mark>::empty(),
    {
        let r = Rows { data: HashMap::new(), touched: Vec::new(), marks: HashMap::new() };
        assert forall|t: TxnId| #[trigger] r.marks(t) == Map::<K, Mark>::empty() by {
            assert(r.marks(t) =~= Map::<K, Mark>::empty());
        }
        assert forall|t: TxnId| #[trigger] r.at(t) == Map::<K, V>::empty() by {
            assert(r.at(t) =~= Map::<K, V>::empty());
        }
        assert forall|t: TxnId| #[trigger] r.modified(t) == Set::<K>::empty() by {
            assert(r.modified(t) =~= Set::<K>::empty());
        }
        r
    }

    /// A row that `txn_id` has not written is the same to it as in the committed state.
    pub proof fn lemma_unmodified(&self, key: K, txn_id: TxnId)
        requires
            self.wf(txn_id),
            !self.modified(txn_id).contains(key),
        ensures
            self.at(txn_id).get(key) == self.at(prior(txn_id)).get(key),
    {
        if self.data@.contains_key(key) {
            self.data@[key].lemma_unmodified(txn_id);
        }
    }

    /// The keys that the transaction `txn_id` has written, each once.
    pub fn written(&self, txn_id: TxnId) -> (r: &Vec<K>)
        requires
            self.wf(txn_id),
        ensures
            r@.no_duplicates(),
            forall|k: K| #[trigger] r@.contains(k) <==> self.modified(txn_id).contains(k),
    {
        &self.touched
    }

    /// How the transaction `txn_id` has written the row of `key`, if it has.
    pub fn mark(&self, key: &K, txn_id: TxnId) -> (r: Option<Mark>)
        requires
            self.wf(txn_id),
        ensures
            r == self.marks(txn_id).get(*key),
    {
        match self.marks.get(key) {
            Some(mark) => Some(*mark),
            None => None,
        }
    }

    /// The row with the given key, as `txn_id` sees it.
    pub fn get(&self, key: &K, txn_id: TxnId) -> (r: Option<&V>)
        requires
            key_model::<K>(),
        ensures
            r == match self.at(txn_id).get(*key) {
                Some(v) => Some(&v),
                None => None,
            },
    {
        match self.data.get(key) {
            Some(versions) => match versions.get(txn_id) {
                Some(Some(v)) => Some(v),
                _ => None,
            },
            None => None,
        }
    }

    /// Write a row, or its absence.
    fn put(&mut self, key: K, value: Option<V>, mark: Mark, txn_id: TxnId)
        requires
            old(self).wf(txn_id),
        ensures
            final(self).wf(txn_id),
            final(self).at(prior(txn_id)) == old(self).at(prior(txn_id)),
            final(self).at(txn_id) == match value {
                Some(v) => old(self).at(txn_id).insert(key, v),
                None => old(self).at(txn_id).remove(key),
            },
            final(self).modified(txn_id) == old(self).modified(txn_id).insert(key),
            final(self).marks(txn_id) == marked(old(self).marks(txn_id), key, mark),
    {
        let ghost written = value;
        let lent = match mark {
            Mark::Lent => true,
            Mark::Assigned => false,
        };
        if !lent || !self.marks.contains_key(&key) {
            self.marks.insert(clone_key(&key), mark);
        }
        let mut versions = match self.data.remove(&key) {
            Some(versions) => versions,
            None => VersionedValue::new(),
        };
        if versions.modified_in_txn(txn_id).is_none() {
            assert(!old(self).modified(txn_id).contains(key));
            assert(!old(self).touched@.contains(key));
            self.touched.push(clone_key(&key));
            proof {
                assert(self.touched@.drop_last() =~= old(self).touched@);
                assert forall|k: K| #[trigger] self.touched@.contains(k) <==> old(
                    self,
                ).touched@.contains(k) || k == key by {
                    if old(self).touched@.contains(k) {
                        let i = choose|i: int|
                            0 <= i < old(self).touched@.len() && old(self).touched@[i] == k;
                        assert(self.touched@[i] == k);
                    }
                    if k == key {
                        assert(self.touched@[self.touched@.len() - 1] == k);
                    }
                }
            }
        }
        versions.set(value, txn_id);
        self.data.insert(key, versions);
        proof {
            assert(self.at(prior(txn_id)) =~= old(self).at(prior(txn_id)));
            match written {
                Some(v) => {
                    assert(self.at(txn_id) =~= old(self).at(txn_id).insert(key, v));
                },
                None => {
                    assert(self.at(txn_id) =~= old(self).at(txn_id).remove(key));
                },
            }
            assert(self.modified(txn_id) =~= old(self).modified(txn_id).insert(key));
            assert(self.marks(txn_id) =~= marked(old(self).marks(txn_id), key, mark));
            assert forall|k: K| #[trigger] self.touched@.contains(k) <==> self.modified(
                txn_id,
            ).contains(k) by {
                assert(old(self).touched@.contains(k) <==> old(self).modified(txn_id).contains(k));
            }
        }
    }

    /// Write the row `value` at `key`.
    pub fn insert(&mut self, key: K, value: V, mark: Mark, txn_id: TxnId)
        requires
            old(self).wf(txn_id),
        ensures
            final(self).wf(txn_id),
            final(self).at(prior(txn_id)) == old(self).at(prior(txn_id)),
            final(self).at(txn_id) == old(self).at(txn_id).insert(key, value),
            final(self).modified(txn_id) == old(self).modified(txn_id).insert(key),
            final(self).marks(txn_id) == marked(old(self).marks(txn_id), key, mark),
    {
        self.put(key, Some(value), mark, txn_id)
    }

    /// Remove the row at `key`, if there is one.
    pub fn remove(&mut self, key: &K, txn_id: TxnId)
        requires
            old(self).wf(txn_id),
        ensures
            final(self).wf(txn_id),
            final(self).at(prior(txn_id)) == old(self).at(prior(txn_id)),
            final(self).at(txn_id) == old(self).at(txn_id).remove(*key),
            final(self).modified(txn_id) == if old(self).at(txn_id).contains_key(*key) {
                old(self).modified(txn_id).insert(*key)
            } else {
                old(self).modified(txn_id)
            },
            final(self).marks(txn_id) == if old(self).at(txn_id).contains_key(*key) {
                old(self).marks(txn_id).insert(*key, Mark::Assigned)
            } else {
                old(self).marks(txn_id)
            },
    {
        if self.get(key, txn_id).is_some() {
            self.put(clone_key(key), None, Mark::Assigned, txn_id)
        } else {
            proof {
                assert(self.at(txn_id).remove(*key) =~= self.at(txn_id));
            }
        }
    }

    /// The rows which are visible at `txn_id`, in no particular order.
    pub fn visible(&self, txn_id: TxnId) -> (r: Vec<(&K, &V)>)
        requires
            key_model::<K>(),
        ensures
            lists(r@, self.at(txn_id)),
    {
        let mut r: Vec<(&K, &V)> = Vec::new();
        // Where in the walk of the map each listed row was met.
        let ghost mut met: Seq<int> = Seq::empty();
        let ghost walk = vstd::std_specs::iter::IteratorSpec::remaining(
            &vstd::std_specs::hash::spec_hash_map_iter(&self.data),
        );
        for entry in it: self.data.iter()
            invariant
                it.seq() == walk,
                key_model::<K>(),
                walk.no_duplicates(),
                forall|i: int|
                    0 <= i < walk.len() ==> self.data@.contains_key(*(#[trigger] walk[i]).0)
                        && self.data@[*walk[i].0] == *walk[i].1,
                forall|k: K| #[trigger]
                    self.data@.contains_key(k) ==> walk.contains((&k, &self.data@[k])),
                met.len() == r@.len(),
                forall|i: int|
                    0 <= i < r@.len() ==> 0 <= #[trigger] met[i] < it.index() && walk[met[i]].0
                        == r@[i].0 && self.row_at(*r@[i].0, txn_id) == Some(*r@[i].1),
                forall|i: int, j: int| 0 <= i < j < r@.len() ==> met[i] < met[j],
                forall|p: int|
                    0 <= p < it.index() && self.row_at(*(#[trigger] walk[p]).0, txn_id) is Some
                        ==> met.contains(p),
        {
            let (key, versions) = entry;
            let ghost before = met;
            let ghost here = it.index() as int;
            if let Some(Some(value)) = versions.get(txn_id) {
                r.push((key, value));
                proof {
                    met = met.push(here);
                    assert(met[met.len() - 1] == here);
                    assert forall|p: int| before.contains(p) implies met.contains(p) by {
                        let q = before.index_of(p);
                        assert(met[q] == p);
                    }
                }
            }
        }
        proof {
            assert forall|i: int| 0 <= i < r@.len() implies self.at(txn_id).contains_key(
                *(#[trigger] r@[i]).0,
            ) && self.at(txn_id)[*r@[i].0] == *r@[i].1 by {
                assert(walk[met[i]].0 == r@[i].0);
            }
            assert forall|k: K| #[trigger] self.at(txn_id).contains_key(k) implies exists|i: int|
                0 <= i < r@.len() && *(#[trigger] r@[i]).0 == k by {
                let p = walk.index_of((&k, &self.data@[k]));
                assert(met.contains(p));
                let i = met.index_of(p);
                assert(*r@[i].0 == k);
            }
            assert forall|i: int, j: int| 0 <= i < j < r@.len() implies *(#[trigger] r@[i]).0
                != *(#[trigger] r@[j]).0 by {
                assert(met[i] < met[j]);
                assert(walk[met[i]] != walk[met[j]]);
            }
        }
        r
    }

    /// The number of rows which are visible at `txn_id`.
    pub fn len(&self, txn_id: TxnId) -> (r: usize)
        requires
            key_model::<K>(),
        ensures
            self.at(txn_id).dom().finite(),
            r == self.at(txn_id).len(),
    {
        let listed = self.visible(txn_id);
        proof {
            lemma_lists_len(listed@, self.at(txn_id));
        }
        listed.len()
    }

    /// Whether no row is visible at `txn_id`.
    pub fn is_empty(&self, txn_id: TxnId) -> (r: bool)
        requires
            key_model::<K>(),
        ensures
            r <==> self.at(txn_id) == Map::<K, V>::empty(),
    {
        let listed = self.visible(txn_id);
        proof {
            if listed@.len() == 0 {
                assert(self.at(txn_id) =~= Map::<K, V>::empty());
            } else {
                assert(self.at(txn_id).contains_key(*listed@[0].0));
            }
        }
        listed.len() == 0
    }

    /// Remove all rows.
    pub fn clear(&mut self, txn_id: TxnId)
        requires
            old(self).wf(txn_id),
        ensures
            final(self).wf(txn_id),
            final(self).at(prior(txn_id)) == old(self).at(prior(txn_id)),
            final(self).at(txn_id) == Map::<K, V>::empty(),
            final(self).modified(txn_id) == old(self).modified(txn_id) + old(self).at(txn_id).dom(),
            final(self).marks(txn_id) == marked_removed(
                old(self).marks(txn_id),
                old(self).at(txn_id),
            ),
    {
        let mut keys: Vec<K> = Vec::new();
        {
            let listed = self.visible(txn_id);
            let mut n: usize = 0;
            while n < listed.len()
                invariant
                    key_model::<K>(),
                    n <= listed@.len(),
                    keys@.len() == n,
                    forall|i: int| 0 <= i < n ==> #[trigger] keys@[i] == *listed@[i].0,
                decreases listed@.len() - n,
            {
                keys.push(clone_key(listed[n].0));
                n += 1;
            }
            assert forall|k: K| #[trigger] self.at(txn_id).contains_key(k) implies keys@.contains(
                k,
            ) by {
                let i = choose|i: int| 0 <= i < listed@.len() && *(#[trigger] listed@[i]).0 == k;
                assert(keys@[i] == k);
            }
            assert forall|i: int| 0 <= i < keys@.len() implies self.at(txn_id).contains_key(
                #[trigger] keys@[i],
            ) by {
                assert(keys@[i] == *listed@[i].0);
            }
            assert(keys@.no_duplicates());
        }
        let ghost start = *self;
        let mut n: usize = 0;
        while n < keys.len()
            invariant
                n <= keys@.len(),
                keys@.no_duplicates(),
                self.wf(txn_id),
                self.at(prior(txn_id)) == start.at(prior(txn_id)),
                forall|k: K| #[trigger]
                    self.at(txn_id).contains_key(k) <==> start.at(txn_id).contains_key(k)
                        && !keys@.take(n as int).contains(k),
                forall|i: int|
                    0 <= i < keys@.len() ==> start.at(txn_id).contains_key(#[trigger] keys@[i]),
                forall|k: K| #[trigger]
                    self.modified(txn_id).contains(k) <==> start.modified(txn_id).contains(k)
                        || keys@.take(n as int).contains(k),
                forall|k: K|
                    #![trigger keys@.take(n as int).contains(k)]
                    self.marks(txn_id).get(k) == if keys@.take(n as int).contains(k) {
                        Some(Mark::Assigned)
                    } else {
                        start.marks(txn_id).get(k)
                    },
            decreases keys@.len() - n,
        {
            proof {
                lemma_take_next(keys@, n as int);
            }
            assert(self.at(txn_id).contains_key(keys@[n as int]));
            self.remove(&keys[n], txn_id);
            n += 1;
        }
        proof {
            assert(keys@.take(n as int) =~= keys@);
            assert(self.at(txn_id) =~= Map::<K, V>::empty());
            assert(self.modified(txn_id) =~= start.modified(txn_id) + start.at(txn_id).dom()) by {
                assert forall|k: K| keys@.contains(k) implies start.at(txn_id).contains_key(k) by {
                    let i = keys@.index_of(k);
                    assert(start.at(txn_id).contains_key(keys@[i]));
                }
            }
            let all = marked_removed(start.marks(txn_id), start.at(txn_id));
            let now = self.marks(txn_id);
            assert forall|k: K| now.get(k) == #[trigger] all.get(k) by {
                assert(keys@.take(n as int).contains(k) <==> start.at(txn_id).contains_key(k)) by {
                    if keys@.contains(k) {
                        assert(start.at(txn_id).contains_key(keys@[keys@.index_of(k)]));
                    }
                }
            }
            assert forall|k: K| #[trigger] now.dom().contains(k) <==> all.dom().contains(k) by {
                assert(now.get(k) == all.get(k));
            }
            assert forall|k: K| #[trigger] now.dom().contains(k) implies now[k] == all[k] by {
                assert(now.get(k) == all.get(k));
            }
            assert(now =~= all);
        }
    }

    /// Forget what the transaction `txn_id` has written.
    pub fn gc_txn(&mut self, txn_id: TxnId)
        requires
            old(self).wf(txn_id),
        ensures
            final(self).wf(txn_id),
            final(self).at(prior(txn_id)) == old(self).at(prior(txn_id)),
            final(self).at(txn_id) == old(self).at(prior(txn_id)),
            final(self).modified(txn_id) == Set::<K>::empty(),
            final(self).marks(txn_id) == Map::<K, Mark>::empty(),
    {
        let ghost start = *self;
        let ghost committed = prior(txn_id);
        let mut keys: Vec<K> = Vec::new();
        std::mem::swap(&mut keys, &mut self.touched);
        self.marks = HashMap::new();
        let mut n: usize = 0;
        while n < keys.len()
            invariant
                start.wf(txn_id),
                committed == txn_id - 1,
                keys@ == start.touched@,
                n <= keys@.len(),
                self.touched@.len() == 0,
                self.marks@ == Map::<K, Mark>::empty(),
                forall|k: K|
                    #![trigger keys@.take(n as int).contains(k)]
                    if keys@.take(n as int).contains(k) {
                        &&& self.data@.contains_key(k) ==> self.data@[k].wf(txn_id)
                            && !self.data@[k].modified(txn_id)
                        &&& self.row_at(k, txn_id) == start.row_at(k, committed)
                        &&& self.row_at(k, committed) == start.row_at(k, committed)
                    } else {
                        self.data@.get(k) == start.data@.get(k)
                    },
            decreases keys@.len() - n,
        {
            proof {
                lemma_take_next(keys@, n as int);
                assert(keys@.contains(keys@[n as int]));
                assert(start.modified(txn_id).contains(keys@[n as int]));
                assert(!keys@.take(n as int).contains(keys@[n as int]));
            }
            let ghost before = *self;
            if let Some(mut versions) = self.data.remove(&keys[n]) {
                versions.gc_txn(txn_id);
                let keep = match versions.get(txn_id) {
                    Some(Some(_)) => true,
                    _ => false,
                };
                if keep {
                    self.data.insert(clone_key(&keys[n]), versions);
                }
            }
            proof {
                assert forall|k: K| k != keys@[n as int] implies #[trigger] self.data@.get(k)
                    == before.data@.get(k) by {}
            }
            n += 1;
        }
        proof {
            assert(keys@.take(n as int) =~= keys@);
            assert forall|k: K|
                #![trigger self.row_at(k, txn_id)]
                #![trigger self.row_at(k, committed)]
                #![trigger self.data@.contains_key(k)]
                self.row_at(k, txn_id) == start.row_at(k, committed) && self.row_at(k, committed)
                    == start.row_at(k, committed) && (self.data@.contains_key(k)
                    ==> self.data@[k].wf(txn_id) && !self.data@[k].modified(txn_id)) by {
                if !keys@.take(n as int).contains(k) {
                    assert(self.data@.get(k) == start.data@.get(k));
                    assert(!start.modified(txn_id).contains(k));
                    if start.data@.contains_key(k) {
                        start.data@[k].lemma_unmodified(txn_id);
                    }
                }
            }
            assert(self.at(txn_id) =~= start.at(committed));
            assert(self.at(committed) =~= start.at(committed));
            assert(self.modified(txn_id) =~= Set::<K>::empty());
            assert(self.marks(txn_id) =~= Map::<K, Mark>::empty());
        }
    }

    /// End the transaction `txn_id`: what it has written is what later transactions find.
    pub fn commit(&mut self, txn_id: TxnId)
        requires
            old(self).wf(txn_id),
            txn_id < TxnId::MAX,
        ensures
            final(self).wf(following(txn_id)),
            final(self).at(txn_id) == old(self).at(txn_id),
            final(self).at(following(txn_id)) == old(self).at(txn_id),
            final(self).modified(following(txn_id)) == Set::<K>::empty(),
            final(self).marks(following(txn_id)) == Map::<K, Mark>::empty(),
    {
        let ghost start = *self;
        let ghost next = following(txn_id);
        let mut keys: Vec<K> = Vec::new();
        std::mem::swap(&mut keys, &mut self.touched);
        self.marks = HashMap::new();
        let mut n: usize = 0;
        while n < keys.len()
            invariant
                start.wf(txn_id),
                keys@ == start.touched@,
                n <= keys@.len(),
                self.touched@.len() == 0,
                self.marks@ == Map::<K, Mark>::empty(),
                forall|k: K|
                    #![trigger keys@.take(n as int).contains(k)]
                    if keys@.take(n as int).contains(k) {
                        &&& self.data@.contains_key(k) ==> self.data@[k].wf(txn_id)
                        &&& self.row_at(k, txn_id) == start.row_at(k, txn_id)
                    } else {
                        self.data@.get(k) == start.data@.get(k)
                    },
            decreases keys@.len() - n,
        {
            proof {
                lemma_take_next(keys@, n as int);
                assert(keys@.contains(keys@[n as int]));
                assert(!keys@.take(n as int).contains(keys@[n as int]));
            }
            let ghost before = *self;
            let gone = match self.data.get(&keys[n]) {
                Some(versions) => match versions.get(txn_id) {
                    Some(Some(_)) => false,
                    _ => true,
                },
                None => false,
            };
            if gone {
                self.data.remove(&keys[n]);
            }
            proof {
                assert forall|k: K| k != keys@[n as int] implies #[trigger] self.data@.get(k)
                    == before.data@.get(k) by {}
            }
            n += 1;
        }
        proof {
            assert(keys@.take(n as int) =~= keys@);
            assert forall|k: K|
                #![trigger self.row_at(k, txn_id)]
                #![trigger self.row_at(k, next)]
                #![trigger self.data@.contains_key(k)]
                self.row_at(k, txn_id) == start.row_at(k, txn_id) && self.row_at(k, next)
                    == start.row_at(k, txn_id) && (self.data@.contains_key(k) ==> self.data@[k].wf(
                    next,
                ) && !self.data@[k].modified(next)) by {
                if !keys@.take(n as int).contains(k) {
                    assert(self.data@.get(k) == start.data@.get(k));
                }
                if self.data@.contains_key(k) {
                    self.data@[k].lemma_next(txn_id);
                }
            }
            assert(self.at(txn_id) =~= start.at(txn_id));
            assert(self.marks(next) =~= Map::<K, Mark>::empty());
            assert(self.at(next) =~= start.at(txn_id));
            assert(self.modified(next) =~= Set::<K>::empty());
        }
    }
}

/// The first `n + 1` items of `s` are the first `n` and the one at `n`.
pub proof fn lemma_take_next<A>(s: Seq<A>, n: int)
    requires
        0 <= n < s.len(),
    ensures
        s.take(n + 1) == s.take(n).push(s[n]),
        s.take(n + 1).no_duplicates() <==> s.take(n).no_duplicates() && !s.take(n).contains(s[n]),
        forall|a: A| #[trigger] s.take(n + 1).contains(a) <==> s.take(n).contains(a) || a == s[n],
        s.no_duplicates() ==> !s.take(n).contains(s[n]),
{
    assert forall|a: A| #[trigger] s.take(n + 1).contains(a) <==> s.take(n).contains(a) || a
        == s[n] by {
        if s.take(n).contains(a) {
            let i = s.take(n).index_of(a);
            assert(s.take(n + 1)[i] == a);
        }
        assert(s.take(n + 1)[n] == s[n]);
        if s.take(n + 1).contains(a) && a != s[n] {
            let i = s.take(n + 1).index_of(a);
            assert(s.take(n)[i] == a);
        }
    }
    assert(s.take(n + 1) =~= s.take(n).push(s[n]));
    if s.take(n + 1).no_duplicates() {
        assert forall|i: int, j: int| 0 <= i < n && 0 <= j < n && i != j implies s.take(n)[i]
            != s.take(n)[j] by {
            assert(s.take(n + 1)[i] != s.take(n + 1)[j]);
        }
        if s.take(n).contains(s[n]) {
            let i = s.take(n).index_of(s[n]);
            assert(s.take(n + 1)[i] == s.take(n + 1)[n]);
        }
    }
    if s.no_duplicates() && s.take(n).contains(s[n]) {
        let i = s.take(n).index_of(s[n]);
        assert(s[i] == s[n]);
    }
}

/// Listing the rows of a finite table gives as many rows as the table has.
pub proof fn lemma_lists_len<K, V>(listed: Seq<(&K, &V)>, rows: Map<K, V>)
    requires
        lists(listed, rows),
    ensures
        rows.dom().finite(),
        rows.len() == listed.len(),
{
    let keys = Seq::new(listed.len(), |i: int| *listed[i].0);
    assert(keys.no_duplicates());
    keys.unique_seq_to_set();
    assert(keys.to_set() =~= rows.dom()) by {
        assert forall|k: K| rows.contains_key(k) implies keys.contains(k) by {
            let i = choose|i: int| 0 <= i < listed.len() && *(#[trigger] listed[i]).0 == k;
            assert(keys[i] == k);
        }
    }
}

/// `listed` holds each row of `rows` exactly once.
pub open spec fn lists<K, V>(listed: Seq<(&K, &V)>, rows: Map<K, V>) -> bool {
    &&& forall|i: int|
        0 <= i < listed.len() ==> rows.contains_key(*(#[trigger] listed[i]).0)
            && rows[*listed[i].0] == *listed[i].1
    &&& forall|k: K| #[trigger]
        rows.contains_key(k) ==> exists|i: int|
            0 <= i < listed.len() && *(#[trigger] listed[i]).0 == k
    &&& forall|i: int, j: int|
        0 <= i < j < listed.len() ==> *(#[trigger] listed[i]).0 != *(#[trigger] listed[j]).0
}

} // verus!
