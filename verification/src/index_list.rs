//! Several indexes of one table.

use crate::error::Error;
use crate::index_table;
use crate::index_table::{IndexState, IndexTable};
use crate::schema::{HasIndex, Here, IndexKeys, IndexStorage, Place, There};
use crate::storage;
use crate::storage::TxnId;
use vstd::prelude::*;

verus! {

/// The index `X` of a table, and the table's other indexes.
///
/// A table with the indexes `A` and `B` stores `Indexed<A, Indexed<B, ()>>`.
#[verifier::reject_recursive_types(X)]
pub struct Indexed<X: IndexKeys, R> {
    pub index: IndexTable<X>,
    pub rest: R,
}

impl<X: IndexKeys, R: IndexStorage<X::BaseKey, X::Row>> IndexStorage<
    X::BaseKey,
    X::Row,
> for Indexed<X, R> {
    type State = (IndexState<X::Key, X::BaseKey>, R::State);

    open spec fn key_model() -> bool {
        &&& storage::key_model::<X::Key>()
        &&& storage::key_model::<X::BaseKey>()
        &&& R::key_model()
    }

    open spec fn wf(&self, txn_id: TxnId) -> bool {
        self.index.wf(txn_id) && self.rest.wf(txn_id)
    }

    open spec fn state(&self, txn_id: TxnId) -> Self::State {
        (self.index.state(txn_id), self.rest.state(txn_id))
    }

    open spec fn empty() -> Self::State {
        (IndexState::empty(), R::empty())
    }

    open spec fn inserted(state: Self::State, key: X::BaseKey, value: X::Row) -> Self::State {
        (state.0.insert(X::keys(value), key), R::inserted(state.1, key, value))
    }

    open spec fn removed(state: Self::State, value: X::Row) -> Self::State {
        (state.0.remove(X::keys(value)), R::removed(state.1, value))
    }

    open spec fn may_insert(state: Self::State, value: X::Row) -> bool {
        &&& X::ASSERT_UNIQUE ==> state.0.fresh(X::keys(value))
        &&& R::may_insert(state.1, value)
    }

    open spec fn fresh(state: Self::State, value: X::Row) -> bool {
        state.0.fresh(X::keys(value)) && R::fresh(state.1, value)
    }

    open spec fn poisoned(state: Self::State) -> Option<&'static str> {
        if state.0.poisoned {
            Some(X::NAME)
        } else {
            R::poisoned(state.1)
        }
    }

    open spec fn consistent(state: Self::State, rows: Map<X::BaseKey, X::Row>) -> bool {
        state.0.is_index_of::<X>(rows) && R::consistent(state.1, rows)
    }

    open spec fn violated(rows: Map<X::BaseKey, X::Row>) -> Option<&'static str> {
        if index_table::unique::<X>(rows) {
            R::violated(rows)
        } else {
            Some(X::NAME)
        }
    }

    open spec fn admits(rows: Map<X::BaseKey, X::Row>) -> bool {
        (X::ASSERT_UNIQUE ==> index_table::unique::<X>(rows)) && R::admits(rows)
    }

    open spec fn poison_justified(
        before: Self::State,
        after: Self::State,
        rows: Map<X::BaseKey, X::Row>,
    ) -> bool {
        &&& before.0.poisoned ==> after.0.poisoned
        &&& after.0.poisoned ==> before.0.poisoned || !index_table::unique::<X>(rows)
        &&& R::poison_justified(before.1, after.1, rows)
    }

    proof fn lemma_empty() {
        R::lemma_empty();
    }

    proof fn lemma_poisoned(
        before: Self::State,
        after: Self::State,
        rows: Map<X::BaseKey, X::Row>,
    ) {
        R::lemma_poisoned(before.1, after.1, rows);
    }

    proof fn lemma_inserted(
        state: Self::State,
        rows: Map<X::BaseKey, X::Row>,
        key: X::BaseKey,
        value: X::Row,
    ) {
        R::lemma_inserted(state.1, rows, key, value);
        if index_table::unique::<X>(rows.insert(key, value)) {
            state.0.lemma_fresh::<X>(rows, key, value);
        }
        if Self::may_insert(state, value) {
            state.0.lemma_insert::<X>(rows, key, value);
        }
        let after = Self::inserted(state, key, value);
        assert forall|before: Self::State, all: Map<X::BaseKey, X::Row>|
            rows.insert(key, value).submap_of(all) && #[trigger] Self::poison_justified(
                before,
                state,
                all,
            ) implies Self::poison_justified(before, after, all) by {
            if after.0.poisoned && !state.0.poisoned && index_table::unique::<X>(all) {
                index_table::lemma_unique_sub::<X>(rows.insert(key, value), all);
            }
            assert(R::poison_justified(before.1, state.1, all));
        }
    }

    proof fn lemma_removed(state: Self::State, rows: Map<X::BaseKey, X::Row>, key: X::BaseKey) {
        R::lemma_removed(state.1, rows, key);
        state.0.lemma_remove::<X>(rows, key);
        let after = Self::removed(state, rows[key]);
        assert forall|before: Self::State, all: Map<X::BaseKey, X::Row>| #[trigger]
            Self::poison_justified(before, state, all) implies Self::poison_justified(
            before,
            after,
            all,
        ) by {
            assert(R::poison_justified(before.1, state.1, all));
        }
    }

    proof fn lemma_admits(part: Map<X::BaseKey, X::Row>, rows: Map<X::BaseKey, X::Row>) {
        R::lemma_admits(part, rows);
        if X::ASSERT_UNIQUE {
            index_table::lemma_unique_sub::<X>(part, rows);
        }
    }

    proof fn lemma_fresh(
        state: Self::State,
        rows: Map<X::BaseKey, X::Row>,
        key: X::BaseKey,
        value: X::Row,
    ) {
        state.0.lemma_fresh::<X>(rows, key, value);
        R::lemma_fresh(state.1, rows, key, value);
    }

    proof fn lemma_undo(state: Self::State, key: X::BaseKey, value: X::Row) {
        let keys = X::keys(value);
        assert(state.0.insert(keys, key).remove(keys).entries =~= state.0.entries);
        R::lemma_undo(state.1, key, value);
    }

    proof fn lemma_violated(rows: Map<X::BaseKey, X::Row>) {
        R::lemma_violated(rows);
    }

    fn new() -> (r: Self) {
        Indexed { index: IndexTable::new(), rest: R::new() }
    }

    fn clear(&mut self, txn_id: TxnId) {
        self.index.clear(txn_id);
        self.rest.clear(txn_id);
    }

    fn on_insert(&mut self, key: &X::BaseKey, value: &X::Row, txn_id: TxnId) {
        self.index.add_row(key, value, txn_id);
        self.rest.on_insert(key, value, txn_id);
    }

    fn on_remove(&mut self, value: &X::Row, txn_id: TxnId) {
        self.index.remove_row(value, txn_id);
        self.rest.on_remove(value, txn_id);
    }

    fn check_txn_consistency(&self, txn_id: TxnId) -> (r: Result<(), Error>) {
        match self.index.check_txn_consistency(txn_id) {
            Ok(()) => self.rest.check_txn_consistency(txn_id),
            Err(e) => Err(e),
        }
    }

    fn commit(&mut self, txn_id: TxnId) {
        self.index.commit(txn_id);
        self.rest.commit(txn_id);
    }

    fn gc_txn(&mut self, txn_id: TxnId) {
        self.index.gc_txn(txn_id);
        self.rest.gc_txn(txn_id);
    }
}

impl<X: IndexKeys, R: IndexStorage<X::BaseKey, X::Row>> HasIndex<X, Here> for Indexed<X, R> {
    open spec fn index_state(state: Self::State) -> IndexState<X::Key, X::BaseKey> {
        state.0
    }

    proof fn lemma_index(state: Self::State, rows: Map<X::BaseKey, X::Row>) {
    }

    fn get_index(&self) -> (r: &IndexTable<X>) {
        &self.index
    }
}

impl<
    Y: IndexKeys,
    X: IndexKeys<BaseKey = Y::BaseKey, Row = Y::Row>,
    P: Place,
    R: HasIndex<X, P>,
> HasIndex<X, There<P>> for Indexed<Y, R> {
    open spec fn index_state(state: Self::State) -> IndexState<X::Key, X::BaseKey> {
        R::index_state(state.1)
    }

    proof fn lemma_index(state: Self::State, rows: Map<X::BaseKey, X::Row>) {
        R::lemma_index(state.1, rows);
    }

    fn get_index(&self) -> (r: &IndexTable<X>) {
        self.rest.get_index()
    }
}

} // verus!
