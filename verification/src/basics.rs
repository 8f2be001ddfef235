//! The basic laws: what the operations do to rows, index entries, marks and notifications, spelled
//! out.
//!
//! Contracts speak of states and of how one state leads to another. Here is what that comes to for
//! the rows of a table, for the entries of its indexes and for what subscribers are told.

use crate::error::{Error, KvErrorExt};
use crate::events;
use crate::events::{Event, Notification, SingleState, SingletonEvent};
use crate::index::{Index, IndexTransaction, IndexWithOwner, RoIndexTransaction};
use crate::index_list::Indexed;
use crate::index_table;
use crate::iter;
use crate::operations;
use crate::pub_sub::{Subscriber, Subscriptions};
use crate::schema;
use crate::schema::{
    GeneratedStorage, IndexDesc, IndexKeys, IndexStorage, Notifiable, RowDesc, SingletonDesc,
    SingletonValue, StateOf, TableDesc,
};
use crate::storage;
use crate::storage::{Mark, TxnId};
use crate::store::KvStore;
use crate::table;
use crate::table::TableState;
use crate::tables::{Singletons, Tables};
use crate::transactions::TableTransaction;
use vstd::prelude::*;

verus! {

/// Inserting or changing a row sets the row of that key, and leaves all other rows as they are.
pub proof fn law_rows_after_insert<D: RowDesc>(state: TableState<D>, key: D::Key, value: D::Value)
    ensures
        state.insert(key, value).rows == state.rows.insert(key, value),
        state.mutate(key, value).rows == state.rows.insert(key, value),
        state.replace(key, value, Mark::Assigned) == state.insert(key, value),
        state.replace(key, value, Mark::Lent) == state.mutate(key, value),
{
}

/// Removing a row removes the row of that key, and leaves all other rows as they are. Clearing
/// removes all rows.
pub proof fn law_rows_after_remove<D: RowDesc>(state: TableState<D>, key: D::Key)
    ensures
        state.remove(key).rows == state.rows.remove(key),
        state.clear().rows == Map::<D::Key, D::Value>::empty(),
        TableState::<D>::empty().rows == Map::<D::Key, D::Value>::empty(),
{
    assert(state.remove(key).rows =~= state.rows.remove(key));
}

/// Committing keeps what the transaction saw: the rows and the indexes stay, and the marks go.
pub proof fn law_commit_keeps_table<D: RowDesc>(state: TableState<D>)
    ensures
        state.settled().rows == state.rows,
        state.settled().indexes == state.indexes,
        state.settled().marks == Map::<D::Key, Mark>::empty(),
        TableState::<D>::empty().marks == Map::<D::Key, Mark>::empty(),
{
}

/// Committing keeps the value of a singleton that the transaction saw.
pub proof fn law_commit_keeps_singleton<V>(state: SingleState<V>, value: Option<V>)
    ensures
        state.settled().value == state.value,
        !state.settled().written,
        SingleState::assigned(value).value == value,
        SingleState::assigned(value).written,
        SingleState::<V>::empty().value is None,
        !SingleState::<V>::empty().written,
{
}

/// Committing a transaction keeps the rows and the index entries that it saw of each table.
pub proof fn law_commit_keeps_each_table<X: IndexDesc>(
    state: StateOf<<X::BaseTable as TableDesc>::Storage>,
)
    ensures
        schema::state_of::<X::BaseTable>(
            <<X::BaseTable as TableDesc>::Storage>::settled(state),
        ).rows == schema::state_of::<X::BaseTable>(state).rows,
        schema::index_state::<X>(
            schema::state_of::<X::BaseTable>(
                <<X::BaseTable as TableDesc>::Storage>::settled(state),
            ),
        ) == schema::index_state::<X>(schema::state_of::<X::BaseTable>(state)),
{
    schema::lemma_state::<X::BaseTable>(state, schema::state_of::<X::BaseTable>(state));
}

/// The same for a table without regard to indexes.
pub proof fn law_commit_keeps_each_row<D: TableDesc>(state: StateOf<D::Storage>, key: D::Key)
    ensures
        schema::state_of::<D>(<D::Storage>::settled(state)).rows.get(key) == schema::state_of::<D>(
            state,
        ).rows.get(key),
{
    schema::lemma_state::<D>(state, schema::state_of::<D>(state));
}

/// Committing a transaction keeps the value that it saw of each singleton.
pub proof fn law_commit_keeps_each_singleton<S: SingletonDesc>(state: StateOf<S::Storage>)
    ensures
        schema::single_of::<S>(<S::Storage>::settled(state)).value == schema::single_of::<S>(
            state,
        ).value,
{
    schema::lemma_single::<S>(state, schema::single_of::<S>(state));
}

/// What a transaction has written to a table is what other operations of the store find there
/// after it was committed, and what it has not written is as it was.
pub proof fn law_committed_rows<D: TableDesc, E: TableDesc<Storage = D::Storage>>(
    before: KvStore<D::Storage>,
    after: KvStore<D::Storage>,
    state: TableState<D>,
)
    requires
        before.stepped(after, schema::with_state::<D>(before@, state)),
        before.wf(),
    ensures
        schema::state_of::<D>(after@).rows == state.rows,
        schema::state_of::<D>(after@).indexes == state.indexes,
        <D::Place as schema::Place>::pos() != <E::Place as schema::Place>::pos()
            ==> schema::state_of::<E>(after@) == schema::state_of::<E>(before@),
{
    before.lemma_wf();
    schema::lemma_state::<D>(before@, state);
    let whole = schema::with_state::<D>(before@, state);
    schema::lemma_state::<D>(whole, state);
    if <D::Place as schema::Place>::pos() != <E::Place as schema::Place>::pos() {
        schema::lemma_elsewhere::<E>(before@, whole, <D::Place as schema::Place>::pos());
        schema::lemma_state::<E>(whole, schema::state_of::<E>(whole));
        schema::lemma_state::<E>(before@, schema::state_of::<E>(before@));
    }
}

/// How a transaction marks the rows that it writes.
pub proof fn law_marks<D: RowDesc>(
    state: TableState<D>,
    key: D::Key,
    value: D::Value,
    other: D::Key,
)
    ensures
        state.insert(key, value).marks.get(other) == if other == key {
            Some(Mark::Assigned)
        } else {
            state.marks.get(other)
        },
        state.mutate(key, value).marks.get(other) == if other == key && state.marks.get(
            key,
        ) is None {
            Some(Mark::Lent)
        } else {
            state.marks.get(other)
        },
        state.remove(key).marks.get(other) == if other == key && state.rows.contains_key(key) {
            Some(Mark::Assigned)
        } else {
            state.marks.get(other)
        },
        state.clear().marks.get(other) == if state.rows.contains_key(other) {
            Some(Mark::Assigned)
        } else {
            state.marks.get(other)
        },
{
}

/// Changing several rows gives each of them its own new value. All other rows stay as they are, and
/// no row is added or removed.
pub proof fn law_rows_after_rewrite<D: RowDesc>(
    state: TableState<D>,
    keys: Seq<D::Key>,
    values: Seq<D::Value>,
)
    requires
        keys.len() == values.len(),
        forall|i: int, j: int| 0 <= i < j < keys.len() ==> keys[i] != keys[j],
        forall|i: int| 0 <= i < keys.len() ==> state.rows.contains_key(#[trigger] keys[i]),
    ensures
        forall|k: D::Key| #[trigger]
            state.rewrite(keys, values).rows.contains_key(k) <==> state.rows.contains_key(k),
        forall|i: int|
            0 <= i < keys.len() ==> state.rewrite(keys, values).rows[#[trigger] keys[i]]
                == values[i],
        forall|k: D::Key| #[trigger]
            state.rows.contains_key(k) && (forall|i: int| 0 <= i < keys.len() ==> keys[i] != k)
                ==> state.rewrite(keys, values).rows[k] == state.rows[k],
        forall|k: D::Key| #[trigger]
            state.rewrite(keys, values).marks.get(k) == if state.marks.get(k) is None && exists|
                i: int,
            | 0 <= i < keys.len() && keys[i] == k {
                Some(Mark::Lent)
            } else {
                state.marks.get(k)
            },
{
    let after = state.rewrite(keys, values);
    assert forall|i: int| 0 <= i < keys.len() implies after.rows[#[trigger] keys[i]] == values[i] by {
        assert(keys.contains(keys[i]));
        let j = keys.index_of(keys[i]);
        assert(keys[j] == keys[i]);
    }
    assert forall|k: D::Key| #[trigger] after.marks.get(k) == if state.marks.get(k) is None
        && exists|i: int| 0 <= i < keys.len() && keys[i] == k {
        Some(Mark::Lent)
    } else {
        state.marks.get(k)
    } by {
        assert(keys.contains(k) <==> exists|i: int| 0 <= i < keys.len() && keys[i] == k);
    }
}

/// The rows which are taken from an iterator are those at its front.
pub proof fn law_taken<K, V>(listed: Seq<(&K, &mut V)>, left: nat)
    ensures
        left <= listed.len() ==> iter::taken(listed.len(), left) == listed.len() - left,
        iter::taken(listed.len(), left) <= listed.len(),
        operations::listed_keys(listed, iter::taken(listed.len(), left)).len() == iter::taken(
            listed.len(),
            left,
        ),
        forall|i: int|
            0 <= i < iter::taken(listed.len(), left) ==> #[trigger] operations::listed_keys(
                listed,
                iter::taken(listed.len(), left),
            )[i] == *listed[i].0,
{
}

/// The same for an iterator over an index.
pub proof fn law_taken_from_index<X, K, V>(listed: Seq<(&X, &K, &mut V)>, left: nat)
    ensures
        left <= listed.len() ==> iter::taken(listed.len(), left) == listed.len() - left,
        operations::listed_base_keys(listed, iter::taken(listed.len(), left)).len() == iter::taken(
            listed.len(),
            left,
        ),
        forall|i: int|
            0 <= i < iter::taken(listed.len(), left) ==> #[trigger] operations::listed_base_keys(
                listed,
                iter::taken(listed.len(), left),
            )[i] == *listed[i].1,
{
}

/// After changing rows through an iterator over a table, each row which was taken is what was left
/// in its own item. All other rows stay as they are.
pub proof fn law_iterated_rows<D: RowDesc>(
    state: TableState<D>,
    listed: Seq<(&D::Key, &mut D::Value)>,
    values: Seq<D::Value>,
) where D::Value: Clone
    requires
        operations::lists_mut(listed, state.rows),
        values.len() <= listed.len(),
    ensures
        forall|i: int|
            #![trigger listed[i]]
            0 <= i < values.len() ==> state.rewrite(
                operations::listed_keys(listed, values.len()),
                values,
            ).rows[*listed[i].0] == values[i],
        forall|i: int|
            #![trigger listed[i]]
            values.len() <= i < listed.len() ==> state.rewrite(
                operations::listed_keys(listed, values.len()),
                values,
            ).rows[*listed[i].0] == state.rows[*listed[i].0],
        forall|k: D::Key| #[trigger]
            state.rewrite(
                operations::listed_keys(listed, values.len()),
                values,
            ).rows.contains_key(k) <==> state.rows.contains_key(k),
{
    let keys = operations::listed_keys(listed, values.len());
    assert(forall|i: int| 0 <= i < keys.len() ==> #[trigger] keys[i] == *listed[i].0);
    assert forall|i: int, j: int| 0 <= i < j < keys.len() implies keys[i] != keys[j] by {
        assert(*listed[i].0 != *listed[j].0);
    }
    law_rows_after_rewrite::<D>(state, keys, values);
    assert forall|i: int| #![trigger listed[i]] 0 <= i < values.len() implies state.rewrite(
        keys,
        values,
    ).rows[*listed[i].0] == values[i] by {
        assert(keys[i] == *listed[i].0);
    }
    assert forall|i: int| #![trigger listed[i]] values.len() <= i < listed.len() implies state.rewrite(
        keys,
        values,
    ).rows[*listed[i].0] == state.rows[*listed[i].0] by {
        assert forall|j: int| 0 <= j < keys.len() implies keys[j] != *listed[i].0 by {
            assert(*listed[j].0 != *listed[i].0);
        }
        assert(state.rows.contains_key(*listed[i].0));
    }
}

/// After changing rows through an iterator over an index, each row which was taken is what was left
/// in its own item. All other rows stay as they are.
pub proof fn law_iterated_index<X: IndexDesc>(
    state: TableState<X::BaseTable>,
    listed: Seq<(&X::Key, &X::BaseKey, &mut X::Row)>,
    values: Seq<X::Row>,
) where X::Row: Clone
    requires
        operations::lists_indexed_mut(
            listed,
            schema::index_state::<X>(state).entries,
            state.rows,
        ),
        values.len() <= listed.len(),
    ensures
        forall|i: int|
            #![trigger listed[i]]
            0 <= i < values.len() ==> state.rewrite(
                operations::listed_base_keys(listed, values.len()),
                values,
            ).rows[*listed[i].1] == values[i],
        forall|k: X::BaseKey| #[trigger]
            state.rows.contains_key(k) && (forall|i: int|
                0 <= i < values.len() ==> *(#[trigger] listed[i]).1 != k) ==> state.rewrite(
                operations::listed_base_keys(listed, values.len()),
                values,
            ).rows[k] == state.rows[k],
        forall|k: X::BaseKey| #[trigger]
            state.rewrite(
                operations::listed_base_keys(listed, values.len()),
                values,
            ).rows.contains_key(k) <==> state.rows.contains_key(k),
{
    let keys = operations::listed_base_keys(listed, values.len());
    assert(forall|i: int| 0 <= i < keys.len() ==> #[trigger] keys[i] == *listed[i].1);
    assert forall|i: int, j: int| 0 <= i < j < keys.len() implies keys[i] != keys[j] by {
        assert(*listed[i].1 != *listed[j].1);
    }
    assert forall|i: int| 0 <= i < keys.len() implies state.rows.contains_key(#[trigger] keys[i]) by {
        assert(state.rows.contains_key(*listed[i].1));
    }
    law_rows_after_rewrite::<X::BaseTable>(state, keys, values);
    assert forall|i: int| #![trigger listed[i]] 0 <= i < values.len() implies state.rewrite(
        keys,
        values,
    ).rows[*listed[i].1] == values[i] by {
        assert(keys[i] == *listed[i].1);
    }
    assert forall|k: X::BaseKey| #[trigger]
        state.rows.contains_key(k) && (forall|i: int|
            0 <= i < values.len() ==> *(#[trigger] listed[i]).1 != k) implies state.rewrite(
        keys,
        values,
    ).rows[k] == state.rows[k] by {
        assert forall|i: int| 0 <= i < keys.len() implies keys[i] != k by {
            assert(*listed[i].1 != k);
        }
    }
}

/// An iterator yields each row once, with its own value.
pub proof fn law_lists<K, V>(listed: Seq<(&K, &V)>, rows: Map<K, V>)
    requires
        storage::lists(listed, rows),
    ensures
        rows.dom().finite(),
        listed.len() == rows.len(),
        forall|i: int|
            #![trigger listed[i]]
            0 <= i < listed.len() ==> rows.contains_key(*listed[i].0) && rows[*listed[i].0]
                == *listed[i].1,
        forall|k: K| #[trigger]
            rows.contains_key(k) ==> exists|i: int|
                0 <= i < listed.len() && *(#[trigger] listed[i]).0 == k,
        forall|i: int, j: int|
            0 <= i < j < listed.len() ==> *(#[trigger] listed[i]).0 != *(#[trigger] listed[j]).0,
{
    storage::lemma_lists_len(listed, rows);
}

/// An iterator with mutable access yields each row once, with a copy of its own value.
pub proof fn law_lists_mut<K, V: Clone>(listed: Seq<(&K, &mut V)>, rows: Map<K, V>)
    requires
        operations::lists_mut(listed, rows),
    ensures
        forall|i: int|
            #![trigger listed[i]]
            0 <= i < listed.len() ==> rows.contains_key(*listed[i].0) && cloned(
                rows[*listed[i].0],
                *listed[i].1,
            ),
        forall|k: K| #[trigger]
            rows.contains_key(k) ==> exists|i: int|
                0 <= i < listed.len() && *(#[trigger] listed[i]).0 == k,
        forall|i: int, j: int|
            0 <= i < j < listed.len() ==> *(#[trigger] listed[i]).0 != *(#[trigger] listed[j]).0,
{
}

/// An iterator over an index with mutable access yields each row which has an entry in the index
/// once, with one of its index keys and a copy of its own value.
pub proof fn law_lists_indexed_mut<X, K, V: Clone>(
    listed: Seq<(&X, &K, &mut V)>,
    entries: Map<X, K>,
    rows: Map<K, V>,
)
    requires
        operations::lists_indexed_mut(listed, entries, rows),
    ensures
        forall|i: int|
            #![trigger listed[i]]
            0 <= i < listed.len() ==> {
                &&& entries.get(*listed[i].0) == Some(*listed[i].1)
                &&& rows.contains_key(*listed[i].1)
                &&& cloned(rows[*listed[i].1], *listed[i].2)
            },
        forall|x: X| #[trigger]
            entries.contains_key(x) ==> exists|i: int|
                0 <= i < listed.len() && *(#[trigger] listed[i]).1 == entries[x],
        forall|i: int, j: int|
            0 <= i < j < listed.len() ==> *(#[trigger] listed[i]).1 != *(#[trigger] listed[j]).1,
{
}

/// A new store is empty: no table has rows or index entries, and no singleton has a value.
pub proof fn law_new_store<X: IndexDesc, S: SingletonDesc>()
    ensures
        schema::state_of::<X::BaseTable>(
            <<X::BaseTable as TableDesc>::Storage>::initial(),
        ).rows == Map::<X::BaseKey, X::Row>::empty(),
        schema::index_state::<X>(
            schema::state_of::<X::BaseTable>(<<X::BaseTable as TableDesc>::Storage>::initial()),
        ).entries == Map::<X::Key, X::BaseKey>::empty(),
        !schema::index_state::<X>(
            schema::state_of::<X::BaseTable>(<<X::BaseTable as TableDesc>::Storage>::initial()),
        ).poisoned,
        schema::single_of::<S>(<S::Storage>::initial()).value is None,
{
    let initial = <<X::BaseTable as TableDesc>::Storage>::initial();
    schema::lemma_state::<X::BaseTable>(initial, TableState::empty());
    schema::lemma_index::<X>(TableState::empty());
    schema::lemma_single::<S>(<S::Storage>::initial(), SingleState::empty());
}

/// An index which is not poisoned finds the row with an index key, and nothing only if no row has
/// that index key. A poisoned index gives an error which names it.
pub proof fn law_find<X: IndexDesc>(
    state: TableState<X::BaseTable>,
    base_key: X::BaseKey,
    key: X::Key,
)
    requires
        state.consistent(),
    ensures
        !schema::index_state::<X>(state).poisoned && state.rows.contains_key(base_key) && X::keys(
            state.rows[base_key],
        ).contains(key) ==> operations::lookup::<X>(state, key) == Ok::<
            (X::BaseKey, X::Row),
            Error,
        >((base_key, state.rows[base_key])),
        !schema::index_state::<X>(state).poisoned && (forall|k: X::BaseKey| #[trigger]
            state.rows.contains_key(k) ==> !X::keys(state.rows[k]).contains(key))
            ==> operations::lookup::<X>(state, key) == Err::<(X::BaseKey, X::Row), Error>(
            Error::NotPresent,
        ),
        schema::index_state::<X>(state).poisoned ==> operations::lookup::<X>(state, key) == Err::<
            (X::BaseKey, X::Row),
            Error,
        >(Error::NonUniqueIndexKey(X::NAME)),
{
    if !schema::index_state::<X>(state).poisoned {
        crate::laws::law_lookup::<X>(state, key);
        if state.rows.contains_key(base_key) && X::keys(state.rows[base_key]).contains(key) {
            assert(operations::has_index_key::<X>(state.rows, base_key, key));
        }
        let found = operations::lookup::<X>(state, key);
        if found is Ok {
            assert(operations::has_index_key::<X>(state.rows, found->Ok_0.0, key));
        }
    }
}

/// Getting a row by an index key gives the key and a copy of the row which has that index key, and
/// gives nothing only if no row has it.
pub proof fn law_get<X: IndexDesc>(
    state: TableState<X::BaseTable>,
    base_key: X::BaseKey,
    key: X::Key,
    r: Result<(X::BaseKey, X::Row), Error>,
) where X::Row: Clone
    requires
        state.consistent(),
        operations::found_copy::<X>(state, key, r),
    ensures
        !schema::index_state::<X>(state).poisoned && state.rows.contains_key(base_key) && X::keys(
            state.rows[base_key],
        ).contains(key) ==> (r matches Ok(copy) && copy.0 == base_key && cloned(
            state.rows[base_key],
            copy.1,
        )),
        r matches Ok(copy) ==> {
            &&& !schema::index_state::<X>(state).poisoned
            &&& state.rows.contains_key(copy.0)
            &&& X::keys(state.rows[copy.0]).contains(key)
            &&& cloned(state.rows[copy.0], copy.1)
        },
        r matches Err(e) ==> if schema::index_state::<X>(state).poisoned {
            e == Error::NonUniqueIndexKey(X::NAME)
        } else {
            &&& e == Error::NotPresent
            &&& !(state.rows.contains_key(base_key) && X::keys(state.rows[base_key]).contains(key))
        },
{
    law_find::<X>(state, base_key, key);
    if let Ok(copy) = r {
        crate::laws::law_lookup::<X>(state, key);
        let found = operations::lookup::<X>(state, key);
        assert(operations::has_index_key::<X>(state.rows, found->Ok_0.0, key));
    }
    if !schema::index_state::<X>(state).poisoned {
        crate::laws::law_lookup::<X>(state, key);
    }
}

/// Each entry of an index leads to a row which has that index key. If the index is not poisoned,
/// each index key of each row has an entry, and no index key belongs to two rows or twice to one.
pub proof fn law_index_of_rows<X: IndexDesc>(state: TableState<X::BaseTable>)
    requires
        state.consistent(),
    ensures
        forall|x: X::Key| #[trigger]
            schema::index_state::<X>(state).entries.contains_key(x) ==> {
                let k = schema::index_state::<X>(state).entries[x];
                state.rows.contains_key(k) && X::keys(state.rows[k]).contains(x)
            },
        !schema::index_state::<X>(state).poisoned ==> {
            &&& forall|k: X::BaseKey, x: X::Key|
                state.rows.contains_key(k) && #[trigger] X::keys(state.rows[k]).contains(x)
                    ==> schema::index_state::<X>(state).entries.get(x) == Some(k)
            &&& forall|k: X::BaseKey, i: int, j: int|
                state.rows.contains_key(k) && 0 <= i < j < X::keys(state.rows[k]).len()
                    ==> #[trigger] X::keys(state.rows[k])[i] != #[trigger] X::keys(state.rows[k])[j]
        },
        X::ASSERT_UNIQUE ==> !schema::index_state::<X>(state).poisoned,
{
    schema::lemma_index::<X>(state);
    let index = schema::index_state::<X>(state);
    if !index.poisoned {
        assert forall|k: X::BaseKey, x: X::Key|
            state.rows.contains_key(k) && #[trigger] X::keys(state.rows[k]).contains(
                x,
            ) implies index.entries.get(x) == Some(k) by {
            crate::laws::law_entries::<X>(state, k, x);
            assert(operations::has_index_key::<X>(state.rows, k, x));
        }
    }
}

/// What inserting or changing a row does to the entries of an index, and when it poisons the index.
pub proof fn law_index_after_insert<X: IndexDesc>(
    state: TableState<X::BaseTable>,
    base_key: X::BaseKey,
    row: X::Row,
    mark: Mark,
    key: X::Key,
)
    requires
        state.consistent(),
        table::admits::<X::BaseTable>(state.rows.insert(base_key, row)),
    ensures
        ({
            let before = schema::index_state::<X>(state).entries;
            let after = schema::index_state::<X>(state.replace(base_key, row, mark)).entries;
            let kept = before.contains_key(key) && !(state.rows.contains_key(base_key) && X::keys(
                state.rows[base_key],
            ).contains(key));
            after.get(key) == if kept {
                before.get(key)
            } else if X::keys(row).contains(key) {
                Some(base_key)
            } else {
                None
            }
        }),
        !schema::index_state::<X>(state.replace(base_key, row, mark)).poisoned ==> {
            &&& !schema::index_state::<X>(state).poisoned
            &&& forall|k: X::BaseKey, x: X::Key|
                k != base_key && state.rows.contains_key(k) && #[trigger] X::keys(
                    state.rows[k],
                ).contains(x) ==> !X::keys(row).contains(x)
            &&& forall|i: int, j: int|
                0 <= i < j < X::keys(row).len() ==> X::keys(row)[i] != X::keys(row)[j]
        },
        !schema::index_state::<X>(state).poisoned && (forall|k: X::BaseKey, x: X::Key|
            k != base_key && state.rows.contains_key(k) && #[trigger] X::keys(
                state.rows[k],
            ).contains(x) ==> !X::keys(row).contains(x)) && (forall|i: int, j: int|
            0 <= i < j < X::keys(row).len() ==> X::keys(row)[i] != X::keys(row)[j])
            ==> !schema::index_state::<X>(state.replace(base_key, row, mark)).poisoned,
{
    let after = state.replace(base_key, row, mark);
    state.lemma_insert(base_key, row, mark);
    schema::lemma_index::<X>(state);
    schema::lemma_index::<X>(after);
    assert(schema::index_state::<X>(after) == schema::index_state::<X>(
        state.insert(base_key, row),
    ));
    if state.rows.contains_key(base_key) {
        let keys = X::keys(state.rows[base_key]);
        assert(schema::index_state::<X>(state.remove(base_key)) == schema::index_state::<X>(
            state,
        ).remove(keys));
        assert(keys.to_set().contains(key) <==> keys.contains(key));
    }
    crate::laws::law_poison::<X>(state, base_key, row, mark);
    let rows = state.rows.insert(base_key, row);
    if !schema::index_state::<X>(after).poisoned {
        assert(index_table::unique::<X>(rows));
        assert(rows.contains_key(base_key) && rows[base_key] == row);
        assert forall|k: X::BaseKey, x: X::Key|
            k != base_key && state.rows.contains_key(k) && #[trigger] X::keys(
                state.rows[k],
            ).contains(x) implies !X::keys(row).contains(x) by {
            assert(rows.contains_key(k) && rows[k] == state.rows[k]);
            assert(X::keys(rows[k]).contains(x));
            if X::keys(row).contains(x) {
                assert(X::keys(rows[base_key]).contains(x));
            }
        }
    }
    if !schema::index_state::<X>(state).poisoned && (forall|k: X::BaseKey, x: X::Key|
        k != base_key && state.rows.contains_key(k) && #[trigger] X::keys(
            state.rows[k],
        ).contains(x) ==> !X::keys(row).contains(x)) && (forall|i: int, j: int|
        0 <= i < j < X::keys(row).len() ==> X::keys(row)[i] != X::keys(row)[j]) {
        assert(index_table::unique::<X>(state.rows));
        assert forall|a: X::BaseKey, b: X::BaseKey, x: X::Key|
            rows.contains_key(a) && rows.contains_key(b) && #[trigger] X::keys(rows[a]).contains(x)
                && #[trigger] X::keys(rows[b]).contains(x) implies a == b by {
            if a != b {
                if a != base_key {
                    assert(X::keys(state.rows[a]).contains(x));
                }
                if b != base_key {
                    assert(X::keys(state.rows[b]).contains(x));
                }
            }
        }
        assert forall|k: X::BaseKey| #[trigger]
            rows.contains_key(k) implies X::keys(rows[k]).no_duplicates() by {
            if k != base_key {
                assert(state.rows.contains_key(k));
            }
        }
        assert(index_table::unique::<X>(rows));
    }
}

/// What removing a row does to the entries of an index: those of its index keys go, and all others
/// stay. It neither poisons the index nor the other way round.
pub proof fn law_index_after_remove<X: IndexDesc>(
    state: TableState<X::BaseTable>,
    base_key: X::BaseKey,
    key: X::Key,
)
    ensures
        schema::index_state::<X>(state.remove(base_key)).entries.get(key) == if
        state.rows.contains_key(base_key) && X::keys(state.rows[base_key]).contains(key) {
            None
        } else {
            schema::index_state::<X>(state).entries.get(key)
        },
        schema::index_state::<X>(state.remove(base_key)).poisoned == schema::index_state::<X>(
            state,
        ).poisoned,
        schema::index_state::<X>(state.clear()).entries.get(key) is None,
        !schema::index_state::<X>(state.clear()).poisoned,
        schema::index_state::<X>(state.settled()) == schema::index_state::<X>(state),
{
    schema::lemma_index::<X>(state);
    schema::lemma_index::<X>(state.clear());
    if state.rows.contains_key(base_key) {
        let keys = X::keys(state.rows[base_key]);
        assert(keys.to_set().contains(key) <==> keys.contains(key));
    }
}

/// What changing several rows at once does to an entry of an index which was not poisoned: one of a
/// row that was not changed stays. Any other leads to the first changed row which has that index
/// key now, and there is one if any changed row has it.
pub proof fn law_index_after_rewrite<X: IndexDesc>(
    state: TableState<X::BaseTable>,
    keys: Seq<X::BaseKey>,
    values: Seq<X::Row>,
    base_key: X::BaseKey,
    key: X::Key,
)
    requires
        state.consistent(),
        !schema::index_state::<X>(state).poisoned,
        keys.len() == values.len(),
        forall|i: int| 0 <= i < keys.len() ==> state.rows.contains_key(#[trigger] keys[i]),
    ensures
        state.rows.contains_key(base_key) && X::keys(state.rows[base_key]).contains(key) && (forall|
            i: int,
        |
            0 <= i < keys.len() ==> keys[i] != base_key) ==> schema::index_state::<X>(
            state.rewrite(keys, values),
        ).entries.get(key) == Some(base_key),
        schema::index_state::<X>(state.rewrite(keys, values)).entries.get(key) == Some(base_key)
            ==> {
            ||| state.rows.contains_key(base_key) && X::keys(state.rows[base_key]).contains(key) && (
            forall|i: int| 0 <= i < keys.len() ==> keys[i] != base_key)
            ||| exists|i: int|
                0 <= i < keys.len() && keys[i] == base_key && #[trigger] X::keys(
                    values[i],
                ).contains(key) && forall|j: int|
                    0 <= j < i ==> !#[trigger] X::keys(values[j]).contains(key)
        },
        forall|i: int|
            0 <= i < values.len() && #[trigger] X::keys(values[i]).contains(key)
                ==> schema::index_state::<X>(state.rewrite(keys, values)).entries.contains_key(key),
{
    assert forall|k: X::BaseKey| #[trigger] keys.contains(k) implies state.rows.contains_key(k) by {
        let i = keys.index_of(k);
        assert(state.rows.contains_key(keys[i]));
    }
    crate::laws::law_rewrite_entries::<X>(state, keys, values, key);
    law_index_of_rows::<X>(state);
    let after = schema::index_state::<X>(state.rewrite(keys, values)).entries;
    if state.rows.contains_key(base_key) && X::keys(state.rows[base_key]).contains(key) {
        assert(schema::index_state::<X>(state).entries.get(key) == Some(base_key));
    }
    assert((forall|i: int| 0 <= i < keys.len() ==> keys[i] != base_key) ==> !keys.contains(
        base_key,
    ));
    if after.get(key) == Some(base_key) {
        if !(!keys.contains(base_key) && schema::index_state::<X>(state).entries.get(key) == Some(
            base_key,
        )) {
            let i = choose|i: int| #[trigger]
                crate::laws::first_with::<X>(values, key, i) && keys[i] == base_key;
            assert(X::keys(values[i]).contains(key));
        } else {
            assert(schema::index_state::<X>(state).entries.contains_key(key));
            assert forall|i: int| 0 <= i < keys.len() implies keys[i] != base_key by {
                assert(keys.contains(keys[i]));
            }
        }
    }
}

/// After changing rows, an index is poisoned if it was before or if two rows have the same index
/// key (or one has it twice), and only then.
pub proof fn law_poisoned_after<X: IndexDesc>(
    before: TableState<X::BaseTable>,
    after: TableState<X::BaseTable>,
)
    requires
        before.leads_to(after),
    ensures
        schema::index_state::<X>(before).poisoned ==> schema::index_state::<X>(after).poisoned,
        !schema::index_state::<X>(before).poisoned ==> (!schema::index_state::<X>(after).poisoned
            <==> ((forall|a: X::BaseKey, b: X::BaseKey, x: X::Key|
            after.rows.contains_key(a) && after.rows.contains_key(b) && #[trigger] X::keys(
                after.rows[a],
            ).contains(x) && #[trigger] X::keys(after.rows[b]).contains(x) ==> a == b) && (forall|
            k: X::BaseKey,
            i: int,
            j: int,
        |
            after.rows.contains_key(k) && 0 <= i < j < X::keys(after.rows[k]).len()
                ==> #[trigger] X::keys(after.rows[k])[i] != #[trigger] X::keys(
                after.rows[k],
            )[j]))),
{
    schema::lemma_index::<X>(after);
    law_unique::<X>(after.rows);
}

/// Index keys are unambiguous if no two rows have the same one and no row has one twice.
pub proof fn law_unique<X: IndexKeys>(rows: Map<X::BaseKey, X::Row>)
    ensures
        index_table::unique::<X>(rows) <==> ((forall|a: X::BaseKey, b: X::BaseKey, x: X::Key|
            rows.contains_key(a) && rows.contains_key(b) && #[trigger] X::keys(rows[a]).contains(x)
                && #[trigger] X::keys(rows[b]).contains(x) ==> a == b) && (forall|
            k: X::BaseKey,
            i: int,
            j: int,
        |
            rows.contains_key(k) && 0 <= i < j < X::keys(rows[k]).len() ==> #[trigger] X::keys(
                rows[k],
            )[i] != #[trigger] X::keys(rows[k])[j])),
{
    if forall|k: X::BaseKey, i: int, j: int|
        rows.contains_key(k) && 0 <= i < j < X::keys(rows[k]).len() ==> #[trigger] X::keys(
            rows[k],
        )[i] != #[trigger] X::keys(rows[k])[j] {
        assert forall|k: X::BaseKey| #[trigger]
            rows.contains_key(k) implies X::keys(rows[k]).no_duplicates() by {
            assert forall|i: int, j: int|
                0 <= i < X::keys(rows[k]).len() && 0 <= j < X::keys(rows[k]).len() && i
                    != j implies X::keys(rows[k])[i] != X::keys(rows[k])[j] by {
                if i < j {
                    assert(X::keys(rows[k])[i] != X::keys(rows[k])[j]);
                } else {
                    assert(X::keys(rows[k])[j] != X::keys(rows[k])[i]);
                }
            }
        }
    }
}

/// Which of several indexes an error names, and which rows a table with them takes: the first one
/// with ambiguous index keys, and rows whose asserted index keys are unambiguous.
pub proof fn law_indexes<X: IndexKeys, R: IndexStorage<X::BaseKey, X::Row>>(
    state: <Indexed<X, R> as IndexStorage<X::BaseKey, X::Row>>::State,
    rows: Map<X::BaseKey, X::Row>,
)
    ensures
        Indexed::<X, R>::poisoned(state) == if state.0.poisoned {
            Some(X::NAME)
        } else {
            R::poisoned(state.1)
        },
        Indexed::<X, R>::violated(rows) == if index_table::unique::<X>(rows) {
            R::violated(rows)
        } else {
            Some(X::NAME)
        },
        Indexed::<X, R>::admits(rows) <==> (X::ASSERT_UNIQUE ==> index_table::unique::<X>(rows))
            && R::admits(rows),
        <() as IndexStorage<X::BaseKey, X::Row>>::poisoned(()) is None,
        <() as IndexStorage<X::BaseKey, X::Row>>::violated(rows) is None,
        <() as IndexStorage<X::BaseKey, X::Row>>::admits(rows),
{
}

/// A table refuses exactly what its indexes refuse.
pub proof fn law_table_refuses<D: RowDesc>(state: TableState<D>)
    ensures
        state.poisoned() == <D::IndexStorage>::poisoned(state.indexes),
        table::violated::<D>(state.rows) == <D::IndexStorage>::violated(state.rows),
        table::admits::<D>(state.rows) <==> <D::IndexStorage>::admits(state.rows),
{
}

/// Which table an error is about: the first one with a poisoned index.
pub proof fn law_store_refuses<D: Notifiable, S: SingletonValue, R: GeneratedStorage>(
    table: TableState<D>,
    single: SingleState<S::Value>,
    rest: R::State,
)
    ensures
        Tables::<D, R>::poisoned((table, rest)) == if table.poisoned() is Some {
            table.poisoned()
        } else {
            R::poisoned(rest)
        },
        Singletons::<S, R>::poisoned((single, rest)) == R::poisoned(rest),
        <() as GeneratedStorage>::poisoned(()) is None,
{
}

/// Notifications which are put together are all there, in order: first these, then the others.
pub proof fn law_joined<E, R>(all: Seq<Notification<E, R>>, these: Seq<E>, others: Seq<R>)
    ensures
        events::joined(all, these, others) <==> {
            &&& all.len() == these.len() + others.len()
            &&& forall|i: int|
                0 <= i < these.len() ==> #[trigger] all[i] == Notification::<E, R>::This(these[i])
            &&& forall|j: int|
                0 <= j < others.len() ==> all[these.len() + j] == Notification::<E, R>::Other(
                    #[trigger] others[j],
                )
        },
{
    let parts = these.map_values(|e: E| Notification::<E, R>::This(e)) + others.map_values(
        |e: R| Notification::<E, R>::Other(e),
    );
    if all.len() == these.len() + others.len() && (forall|i: int|
        0 <= i < these.len() ==> #[trigger] all[i] == Notification::<E, R>::This(these[i])) && (
    forall|j: int|
        0 <= j < others.len() ==> all[these.len() + j] == Notification::<E, R>::Other(
            #[trigger] others[j],
        )) {
        assert forall|i: int| 0 <= i < all.len() implies #[trigger] all[i] == parts[i] by {
            if i >= these.len() {
                assert(others[i - these.len()] == others[i - these.len()]);
            }
        }
        assert(all =~= parts);
    }
}

/// What the events of a table report: each row which has changed, or was assigned, once; of a row
/// what it is now; and no row which was not written, or was only lent out and is known to be equal.
pub proof fn law_reports<D: Notifiable>(
    before: Map<D::Key, D::Value>,
    after: Map<D::Key, D::Value>,
    marks: Map<D::Key, Mark>,
    events: Seq<Event<D::Key, D::NotificationValue>>,
)
    requires
        events::reports::<D>(before, after, marks, events),
    ensures
        forall|k: D::Key|
            #![trigger before.get(k)]
            #![trigger after.get(k)]
            before.get(k) != after.get(k) || marks.get(k) == Some(Mark::Assigned)
                && after.contains_key(k) ==> exists|i: int|
                0 <= i < events.len() && (#[trigger] events[i]).key == k,
        forall|i: int, j: int|
            0 <= i < j < events.len() ==> (#[trigger] events[i]).key != (#[trigger] events[j]).key,
        forall|i: int|
            #![trigger events[i]]
            0 <= i < events.len() ==> {
                &&& marks.contains_key(events[i].key)
                &&& match events[i].value {
                    Some(sent) => after.contains_key(events[i].key) && call_ensures(
                        D::clone_value_for_notification,
                        (&after[events[i].key],),
                        sent,
                    ),
                    None => !after.contains_key(events[i].key)
                        && before.contains_key(events[i].key),
                }
                &&& before.contains_key(events[i].key) && after.contains_key(events[i].key)
                    && marks[events[i].key] == Mark::Lent ==> call_ensures(
                    D::value_eq,
                    (&before[events[i].key], &after[events[i].key]),
                    false,
                )
            },
{
}

/// What the events of a singleton report: its value, if it was written, and nothing if not.
pub proof fn law_reports_single<S: SingletonValue>(
    state: SingleState<S::Value>,
    events: Seq<SingletonEvent<S::NotificationValue>>,
)
    requires
        events::reports_single::<S>(state, events),
    ensures
        events.len() == if state.written {
            1int
        } else {
            0int
        },
        state.written && state.value is Some ==> (events[0].value matches Some(sent)
            && call_ensures(S::notif_value, (&state.value->0,), sent)),
        state.written && state.value is None ==> events[0].value is None,
{
}

/// A step of the store, spelled out: who is subscribed stays, earlier notifications stay, and if
/// anybody is subscribed then what the transaction has done is added to them, first for the
/// singletons (up to the place that is returned) and then for the tables.
pub proof fn law_step<S: GeneratedStorage>(
    before: KvStore<S>,
    after: KvStore<S>,
    state: S::State,
) -> (n: int)
    requires
        before.stepped(after, state),
    ensures
        after.wf(),
        after@ == S::settled(state),
        after.subscriptions() == before.subscriptions(),
        after.txns_left() + 1 == before.txns_left(),
        after.pending().len() >= before.pending().len(),
        forall|i: int|
            0 <= i < before.pending().len() ==> #[trigger] after.pending()[i]
                == before.pending()[i],
        before.subscriptions().global().len() == 0 ==> after.pending() == before.pending(),
        before.subscriptions().global().len() > 0 ==> {
            &&& before.pending().len() <= n <= after.pending().len()
            &&& S::reports_singletons(
                state,
                after.pending().subrange(before.pending().len() as int, n),
            )
            &&& S::reports_tables(
                before@,
                state,
                after.pending().subrange(n, after.pending().len() as int),
            )
        },
{
    let old_len = before.pending().len() as int;
    let added = after.pending().skip(old_len);
    if before.subscriptions().global().len() > 0 {
        let (singles, tables) = choose|singles: Seq<S::Notification>, tables: Seq<S::Notification>|
            {
                &&& added == singles + tables
                &&& #[trigger] S::reports_singletons(state, singles)
                &&& #[trigger] S::reports_tables(before@, state, tables)
            };
        let n = old_len + singles.len();
        assert(added.len() == after.pending().len() - old_len);
        assert(added.len() == singles.len() + tables.len());
        assert forall|i: int| 0 <= i < singles.len() implies #[trigger] singles[i]
            == after.pending()[old_len + i] by {
            assert(added[i] == (singles + tables)[i]);
        }
        assert forall|i: int| 0 <= i < tables.len() implies #[trigger] tables[i]
            == after.pending()[n + i] by {
            assert(added[singles.len() + i] == (singles + tables)[singles.len() + i]);
        }
        assert(after.pending().subrange(old_len, n) =~= singles);
        assert(after.pending().subrange(n, after.pending().len() as int) =~= tables);
        n
    } else {
        old_len
    }
}

/// A store which is unchanged has the same committed state, subscriptions and notifications.
pub proof fn law_unchanged<S: GeneratedStorage>(before: KvStore<S>, after: KvStore<S>)
    requires
        before.unchanged(after),
    ensures
        after.wf(),
        after@ == before@,
        after.subscriptions() == before.subscriptions(),
        after.pending() == before.pending(),
        after.txns_left() == before.txns_left(),
{
}

/// Each row of each table that a committed transaction has changed or assigned is reported to
/// subscribers, whatever else it has changed. Returned are the place of the notification and the
/// event.
pub proof fn law_change_is_reported<D: TableDesc + Notifiable>(
    before: KvStore<D::Storage>,
    after: KvStore<D::Storage>,
    state: StateOf<D::Storage>,
    key: D::Key,
) -> (r: (int, Event<D::Key, D::NotificationValue>)) where
    D::Storage: schema::ReportsTable<D, D::Place>,

    requires
        before.stepped(after, state),
        before.subscriptions().global().len() > 0,
        schema::state_of::<D>(before@).rows.get(key) != schema::state_of::<D>(after@).rows.get(key)
            || schema::state_of::<D>(state).marks.get(key) == Some(Mark::Assigned)
            && schema::state_of::<D>(after@).rows.contains_key(key),
    ensures
        before.pending().len() <= r.0 < after.pending().len(),
        after.pending()[r.0] == <D::Storage as schema::ReportsTable<D, D::Place>>::notification(
            r.1,
        ),
        r.1.key == key,
        match r.1.value {
            Some(sent) => schema::state_of::<D>(after@).rows.contains_key(key) && call_ensures(
                D::clone_value_for_notification,
                (&schema::state_of::<D>(after@).rows[key],),
                sent,
            ),
            None => !schema::state_of::<D>(after@).rows.contains_key(key),
        },
{
    let n = law_step::<D::Storage>(before, after, state);
    schema::lemma_state::<D>(state, schema::state_of::<D>(state));
    let events = after.pending().subrange(n, after.pending().len() as int);
    let (i, event) = <D::Storage as schema::ReportsTable<D, D::Place>>::lemma_reported(
        before@,
        state,
        events,
        key,
    );
    <D::Storage as schema::ReportsTable<D, D::Place>>::lemma_report(
        before@,
        state,
        events,
        i,
        event,
    );
    (n + i, event)
}

/// Each singleton that a committed transaction has written is reported to subscribers, whatever
/// else it has written.
pub proof fn law_singleton_is_reported<T: SingletonDesc>(
    before: KvStore<T::Storage>,
    after: KvStore<T::Storage>,
    state: StateOf<T::Storage>,
) -> (r: (int, SingletonEvent<T::NotificationValue>)) where
    T::Storage: schema::ReportsSingleton<T, T::Place>,

    requires
        before.stepped(after, state),
        before.subscriptions().global().len() > 0,
        schema::single_of::<T>(state).written,
    ensures
        before.pending().len() <= r.0 < after.pending().len(),
        after.pending()[r.0] == <T::Storage as schema::ReportsSingleton<
            T,
            T::Place,
        >>::single_notification(r.1),
        match (r.1.value, schema::single_of::<T>(after@).value) {
            (Some(sent), Some(value)) => call_ensures(T::notif_value, (&value,), sent),
            (None, None) => true,
            _ => false,
        },
{
    let n = law_step::<T::Storage>(before, after, state);
    schema::lemma_single::<T>(state, schema::single_of::<T>(state));
    let old_len = before.pending().len() as int;
    let (i, event) = <T::Storage as schema::ReportsSingleton<T, T::Place>>::lemma_single_reported(
        state,
        after.pending().subrange(old_len, n),
    );
    (old_len + i, event)
}

/// What an accessor shows of a store is the committed state of its table.
pub proof fn law_accessors<X: IndexDesc, D: TableDesc, S: SingletonDesc>(
    index: Index<X>,
    indexed: KvStore<<X::BaseTable as TableDesc>::Storage>,
    owned: IndexWithOwner<X>,
    table: crate::accessors::Table<D>,
    tabular: KvStore<D::Storage>,
    single: crate::accessors::Singleton<S>,
    singular: KvStore<S::Storage>,
)
    requires
        *index.store == indexed,
        *owned.inner.store == indexed,
        *table.store == tabular,
        *single.store == singular,
    ensures
        index.state() == schema::state_of::<X::BaseTable>(indexed@),
        owned.state() == schema::state_of::<X::BaseTable>(indexed@),
        table.state() == schema::state_of::<D>(tabular@),
        single.state() == schema::single_of::<S>(singular@).value,
{
}

/// What a view of a table in a transaction, or of an index, shows is what the table is to that
/// transaction.
pub proof fn law_views<X: IndexDesc>(
    view: IndexTransaction<X>,
    base: TableTransaction<X::BaseTable>,
    stored: table::Table<X::BaseTable>,
    ro_view: RoIndexTransaction<X>,
    index: operations::IndexRef<X>,
)
    requires
        *view.base == base,
        *base.table == stored,
    ensures
        base.state() == stored.state(base.txn_id),
        base.committed() == stored.state(storage::prior(base.txn_id)),
        view.state() == stored.state(base.txn_id),
        view.committed() == stored.state(storage::prior(base.txn_id)),
        view.owner() == base.owner,
        view.txn_id() == base.txn_id,
        ro_view.state() == ro_view.base.table.table.state(ro_view.base.table.txn_id),
        index.state() == index.base.state(index.txn_id),
        index.index_state() == schema::index_state::<X>(index.base.state(index.txn_id)),
{
}

/// A transaction sees the state that it works on, and started from the one before.
pub proof fn law_transaction_ids(txn_id: TxnId)
    ensures
        txn_id > 0 ==> storage::prior(txn_id) == txn_id - 1,
        txn_id < TxnId::MAX ==> storage::following(txn_id) == txn_id + 1,
{
}

/// Anybody is notified if there is a subscription, and each subscriber is who has one.
pub proof fn law_subscribers(subscriptions: Subscriptions, subscriber: Subscriber)
    ensures
        subscriptions.any() <==> subscriptions.global().len() > 0,
        subscriptions.notifies(subscriber) <==> exists|i: int|
            0 <= i < subscriptions.global().len() && (#[trigger] subscriptions.global()[i]).1
                == subscriber,
{
}

/// A result is there, missing or unavailable as the result itself is.
pub proof fn law_outcome<T>(r: Result<T, Error>)
    ensures
        r.outcome() == r,
{
}

/// Keys can be used if they hash and compare by value and clone to an equal key.
pub proof fn law_key_model<K: Clone>()
    ensures
        storage::key_model::<K>() <==> vstd::std_specs::hash::obeys_key_model::<K>() && forall|
            a: K,
            b: K,
        | #[trigger]
            cloned::<K>(a, b) ==> a == b,
{
}

/// A store can be used if the keys of its tables and of their indexes can.
pub proof fn law_key_models<
    D: Notifiable,
    S: SingletonValue,
    R: GeneratedStorage,
    X: IndexKeys,
    Q: IndexStorage<X::BaseKey, X::Row>,
>()
    ensures
        storage::key_model::<D::Key>() && <D::IndexStorage>::key_model() && R::key_model()
            ==> Tables::<D, R>::key_model(),
        R::key_model() ==> Singletons::<S, R>::key_model(),
        <() as GeneratedStorage>::key_model(),
        storage::key_model::<X::Key>() && storage::key_model::<X::BaseKey>() && Q::key_model()
            ==> Indexed::<X, Q>::key_model(),
        <() as IndexStorage<X::BaseKey, X::Row>>::key_model(),
{
}

/// What is reported of the tables of a store is what is reported of the first table, once for each
/// of its events, and then what is reported of the others, and nothing else.
pub proof fn law_tables_report<D: Notifiable, R: GeneratedStorage>(
    before: (TableState<D>, R::State),
    after: (TableState<D>, R::State),
    events: Seq<Notification<Event<D::Key, D::NotificationValue>, R::Notification>>,
) -> (r: (Seq<Event<D::Key, D::NotificationValue>>, Seq<R::Notification>))
    requires
        Tables::<D, R>::reports_tables(before, after, events),
    ensures
        events::reports::<D>(before.0.rows, after.0.rows, after.0.marks, r.0),
        R::reports_tables(before.1, after.1, r.1),
        events.len() == r.0.len() + r.1.len(),
        forall|i: int|
            0 <= i < r.0.len() ==> #[trigger] events[i] == Notification::<
                Event<D::Key, D::NotificationValue>,
                R::Notification,
            >::This(r.0[i]),
        forall|j: int|
            0 <= j < r.1.len() ==> events[r.0.len() + j] == Notification::<
                Event<D::Key, D::NotificationValue>,
                R::Notification,
            >::Other(#[trigger] r.1[j]),
{
    let (these, others) = choose|
        these: Seq<Event<D::Key, D::NotificationValue>>,
        others: Seq<R::Notification>,
    |
        {
            &&& #[trigger] events::joined(events, these, others)
            &&& events::reports::<D>(before.0.rows, after.0.rows, after.0.marks, these)
            &&& R::reports_tables(before.1, after.1, others)
        };
    law_joined(events, these, others);
    (these, others)
}

/// What is reported of the singletons of a store is what is reported of the first one, and then
/// what is reported of the others, and nothing else.
pub proof fn law_singletons_report<S: SingletonValue, R: GeneratedStorage>(
    after: (SingleState<S::Value>, R::State),
    events: Seq<Notification<SingletonEvent<S::NotificationValue>, R::Notification>>,
) -> (r: (Seq<SingletonEvent<S::NotificationValue>>, Seq<R::Notification>))
    requires
        Singletons::<S, R>::reports_singletons(after, events),
    ensures
        events::reports_single::<S>(after.0, r.0),
        R::reports_singletons(after.1, r.1),
        events.len() == r.0.len() + r.1.len(),
        forall|i: int|
            0 <= i < r.0.len() ==> #[trigger] events[i] == Notification::<
                SingletonEvent<S::NotificationValue>,
                R::Notification,
            >::This(r.0[i]),
        forall|j: int|
            0 <= j < r.1.len() ==> events[r.0.len() + j] == Notification::<
                SingletonEvent<S::NotificationValue>,
                R::Notification,
            >::Other(#[trigger] r.1[j]),
{
    let (these, others) = choose|
        these: Seq<SingletonEvent<S::NotificationValue>>,
        others: Seq<R::Notification>,
    |
        {
            &&& #[trigger] events::joined(events, these, others)
            &&& events::reports_single::<S>(after.0, these)
            &&& R::reports_singletons(after.1, others)
        };
    law_joined(events, these, others);
    (these, others)
}

/// A table has nothing to report among the singletons, nor a singleton among the tables, nor an
/// empty store at all.
pub proof fn law_reports_elsewhere<D: Notifiable, S: SingletonValue, R: GeneratedStorage>(
    tabular: (TableState<D>, R::State),
    of_tables: Seq<Notification<Event<D::Key, D::NotificationValue>, R::Notification>>,
    singular: (SingleState<S::Value>, R::State),
    other: (SingleState<S::Value>, R::State),
    of_singles: Seq<Notification<SingletonEvent<S::NotificationValue>, R::Notification>>,
    of_nothing: Seq<()>,
) -> (r: (Seq<R::Notification>, Seq<R::Notification>))
    requires
        Tables::<D, R>::reports_singletons(tabular, of_tables),
        Singletons::<S, R>::reports_tables(other, singular, of_singles),
        <() as GeneratedStorage>::reports_singletons((), of_nothing)
            || <() as GeneratedStorage>::reports_tables((), (), of_nothing),
    ensures
        R::reports_singletons(tabular.1, r.0),
        of_tables.len() == r.0.len(),
        forall|i: int|
            0 <= i < r.0.len() ==> #[trigger] of_tables[i] == Notification::<
                Event<D::Key, D::NotificationValue>,
                R::Notification,
            >::Other(r.0[i]),
        R::reports_tables(other.1, singular.1, r.1),
        of_singles.len() == r.1.len(),
        forall|i: int|
            0 <= i < r.1.len() ==> #[trigger] of_singles[i] == Notification::<
                SingletonEvent<S::NotificationValue>,
                R::Notification,
            >::Other(r.1[i]),
        of_nothing.len() == 0,
{
    let a = choose|others: Seq<R::Notification>|
        {
            &&& #[trigger] events::joined(of_tables, Seq::empty(), others)
            &&& R::reports_singletons(tabular.1, others)
        };
    let b = choose|others: Seq<R::Notification>|
        {
            &&& #[trigger] events::joined(of_singles, Seq::empty(), others)
            &&& R::reports_tables(other.1, singular.1, others)
        };
    law_joined(of_tables, Seq::empty(), a);
    law_joined(of_singles, Seq::empty(), b);
    assert forall|i: int| 0 <= i < a.len() implies #[trigger] of_tables[i] == Notification::<
        Event<D::Key, D::NotificationValue>,
        R::Notification,
    >::Other(a[i]) by {
        assert(of_tables[0 + i] == of_tables[i]);
    }
    assert forall|i: int| 0 <= i < b.len() implies #[trigger] of_singles[i] == Notification::<
        SingletonEvent<S::NotificationValue>,
        R::Notification,
    >::Other(b[i]) by {
        assert(of_singles[0 + i] == of_singles[i]);
    }
    (a, b)
}

/// A table which is used in a transaction has the indexes of its rows, to the transaction and in the
/// committed state, and there none is poisoned.
pub proof fn law_table_wf<X: IndexDesc>(table: table::Table<X::BaseTable>, txn_id: TxnId)
    requires
        table.wf(txn_id),
    ensures
        table.state(txn_id).consistent(),
        table.state(storage::prior(txn_id)).consistent(),
        !schema::index_state::<X>(table.state(storage::prior(txn_id))).poisoned,
        table.state(storage::prior(txn_id)).marks == Map::<X::BaseKey, Mark>::empty(),
{
    schema::lemma_index::<X>(table.state(storage::prior(txn_id)));
}

/// Committing is refused exactly if an index of a table is poisoned to the transaction: no index of
/// a table is, if it is not refused.
pub proof fn law_refused<X: IndexDesc>(state: StateOf<<X::BaseTable as TableDesc>::Storage>)
    requires
        <<X::BaseTable as TableDesc>::Storage>::poisoned(state) is None,
    ensures
        !schema::index_state::<X>(schema::state_of::<X::BaseTable>(state)).poisoned,
{
    schema::lemma_state::<X::BaseTable>(state, schema::state_of::<X::BaseTable>(state));
    schema::lemma_index::<X>(schema::state_of::<X::BaseTable>(state));
}

} // verus!
