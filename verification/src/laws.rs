//! What holds of tables, indexes and stores as a whole.
//!
//! The laws speak of states: what is visible of a table, or of a whole store. The operations say in
//! their contracts which state they lead to.

use crate::error::Error;
use crate::events::SingleState;
use crate::index_table;
use crate::operations;
use crate::schema;
use crate::schema::{
    GeneratedStorage, HasIndex, IndexDesc, IndexKeys, IndexStorage, Place, RowDesc, SingletonDesc, StateOf,
    TableDesc,
};
use crate::storage::Mark;
use crate::store::KvStore;
use crate::table;
use crate::table::TableState;
use vstd::prelude::*;

verus! {

/// An index finds the row which has an index key, and finds nothing by an index key which no row
/// has.
pub proof fn law_lookup<X: IndexDesc>(state: TableState<X::BaseTable>, key: X::Key)
    requires
        state.consistent(),
        !schema::index_state::<X>(state).poisoned,
    ensures
        forall|k: X::BaseKey| #[trigger]
            operations::has_index_key::<X>(state.rows, k, key) <==> operations::lookup::<X>(
                state,
                key,
            ) == Ok::<_, Error>((k, state.rows[k])),
        operations::lookup::<X>(state, key) is Err ==> operations::lookup::<X>(state, key) == Err::<
            (X::BaseKey, X::Row),
            _,
        >(Error::NotPresent),
{
    operations::lemma_lookup::<X>(state, key);
    schema::lemma_index::<X>(state);
    let found = operations::lookup::<X>(state, key);
    if found is Ok {
        let k = found->Ok_0.0;
        assert(operations::has_index_key::<X>(state.rows, k, key));
        assert forall|other: X::BaseKey| #[trigger]
            operations::has_index_key::<X>(state.rows, other, key) implies other == k by {
            assert(X::keys(state.rows[other]).contains(key));
            assert(X::keys(state.rows[k]).contains(key));
        }
    }
}

/// Each entry of an index leads to a row with that index key. An index which is not poisoned has an
/// entry for each index key of each row.
pub proof fn law_entries<X: IndexDesc>(
    state: TableState<X::BaseTable>,
    base_key: X::BaseKey,
    key: X::Key,
)
    requires
        state.consistent(),
    ensures
        schema::index_state::<X>(state).entries.get(key) == Some(base_key)
            ==> operations::has_index_key::<X>(state.rows, base_key, key),
        !schema::index_state::<X>(state).poisoned && operations::has_index_key::<X>(
            state.rows,
            base_key,
            key,
        ) ==> schema::index_state::<X>(state).entries.get(key) == Some(base_key),
{
    schema::lemma_index::<X>(state);
    let entries = schema::index_state::<X>(state).entries;
    if operations::has_index_key::<X>(state.rows, base_key, key) && entries.contains_key(key) {
        assert(X::keys(state.rows[base_key]).contains(key));
        assert(X::keys(state.rows[entries[key]]).contains(key));
    }
}

/// The entries of an index which is not poisoned are determined by the rows.
pub proof fn law_index_determined<X: IndexDesc>(
    a: TableState<X::BaseTable>,
    b: TableState<X::BaseTable>,
)
    requires
        a.consistent(),
        b.consistent(),
        a.rows == b.rows,
        !schema::index_state::<X>(a).poisoned,
        !schema::index_state::<X>(b).poisoned,
    ensures
        schema::index_state::<X>(a) == schema::index_state::<X>(b),
{
    schema::lemma_index::<X>(a);
    schema::lemma_index::<X>(b);
    let (p, q) = (schema::index_state::<X>(a).entries, schema::index_state::<X>(b).entries);
    assert forall|key: X::Key| p.contains_key(key) <==> q.contains_key(key) by {
        if p.contains_key(key) {
            assert(X::keys(b.rows[p[key]]).contains(key));
        }
        if q.contains_key(key) {
            assert(X::keys(a.rows[q[key]]).contains(key));
        }
    }
    assert forall|key: X::Key| p.contains_key(key) implies p[key] == q[key] by {
        assert(X::keys(a.rows[p[key]]).contains(key));
        assert(X::keys(a.rows[q[key]]).contains(key));
    }
    assert(p =~= q);
}

/// A row which was inserted or changed (`insert` and `mutate` are `replace` with a mark each) is
/// found by each of its index keys. The index keys which its earlier value had are not found any
/// more, unless the new value has them too.
pub proof fn law_insert<X: IndexDesc>(
    state: TableState<X::BaseTable>,
    base_key: X::BaseKey,
    row: X::Row,
    mark: Mark,
    key: X::Key,
)
    requires
        state.consistent(),
        table::admits::<X::BaseTable>(state.rows.insert(base_key, row)),
        !schema::index_state::<X>(state.replace(base_key, row, mark)).poisoned,
    ensures
        X::keys(row).contains(key) ==> operations::lookup::<X>(state.replace(base_key, row, mark), key)
            == Ok::<_, Error>((base_key, row)),
        operations::has_index_key::<X>(state.rows, base_key, key) && !X::keys(row).contains(key)
            ==> operations::lookup::<X>(state.replace(base_key, row, mark), key) == Err::<
            (X::BaseKey, X::Row),
            _,
        >(Error::NotPresent),
{
    let after = state.replace(base_key, row, mark);
    state.lemma_insert(base_key, row, mark);
    schema::lemma_index::<X>(state);
    schema::lemma_index::<X>(after);
    law_lookup::<X>(after, key);
    if X::keys(row).contains(key) {
        assert(operations::has_index_key::<X>(after.rows, base_key, key));
    } else if operations::has_index_key::<X>(state.rows, base_key, key) {
        assert(X::keys(state.rows[base_key]).contains(key));
        let found = operations::lookup::<X>(after, key);
        if found is Ok {
            let other = found->Ok_0.0;
            assert(operations::has_index_key::<X>(after.rows, other, key));
            assert(X::keys(state.rows[other]).contains(key));
        }
    }
}

/// Inserting or changing a row leaves what is found by the index keys of the other rows as it is.
pub proof fn law_insert_others<X: IndexDesc>(
    state: TableState<X::BaseTable>,
    base_key: X::BaseKey,
    row: X::Row,
    mark: Mark,
    other: X::BaseKey,
    key: X::Key,
)
    requires
        state.consistent(),
        table::admits::<X::BaseTable>(state.rows.insert(base_key, row)),
        !schema::index_state::<X>(state.replace(base_key, row, mark)).poisoned,
        other != base_key,
        operations::has_index_key::<X>(state.rows, other, key),
    ensures
        operations::lookup::<X>(state.replace(base_key, row, mark), key) == operations::lookup::<X>(
            state,
            key,
        ),
{
    let after = state.replace(base_key, row, mark);
    state.lemma_insert(base_key, row, mark);
    schema::lemma_index::<X>(after);
    schema::lemma_index::<X>(state);
    assert(state.leads_to(after));
    law_lookup::<X>(state, key);
    law_lookup::<X>(after, key);
    assert(operations::has_index_key::<X>(after.rows, other, key));
}

/// Removing a row removes it from each index of the table: none of its index keys finds a row any
/// more. The other rows are found as before.
pub proof fn law_remove<X: IndexDesc>(
    state: TableState<X::BaseTable>,
    base_key: X::BaseKey,
    key: X::Key,
)
    requires
        state.consistent(),
        !schema::index_state::<X>(state).poisoned,
    ensures
        !state.remove(base_key).rows.contains_key(base_key),
        operations::lookup::<X>(state.remove(base_key), key) == if operations::has_index_key::<X>(
            state.rows,
            base_key,
            key,
        ) {
            Err::<(X::BaseKey, X::Row), Error>(Error::NotPresent)
        } else {
            operations::lookup::<X>(state, key)
        },
{
    let after = state.remove(base_key);
    state.lemma_remove(base_key);
    schema::lemma_index::<X>(state);
    schema::lemma_index::<X>(after);
    law_lookup::<X>(state, key);
    law_lookup::<X>(after, key);
    let found = operations::lookup::<X>(state, key);
    let left = operations::lookup::<X>(after, key);
    if left is Ok {
        let k = left->Ok_0.0;
        assert(operations::has_index_key::<X>(after.rows, k, key));
        assert(operations::has_index_key::<X>(state.rows, k, key));
    }
    if found is Ok && found->Ok_0.0 != base_key {
        let k = found->Ok_0.0;
        assert(operations::has_index_key::<X>(state.rows, k, key));
        assert(operations::has_index_key::<X>(after.rows, k, key));
    }
}

/// Removing a row undoes inserting it: if there was no row with that key, and the index keys of the
/// row are new and do not repeat (which they are if they leave all index keys unambiguous), then
/// the rows and all indexes are as before. Only the mark of the written row stays.
pub proof fn law_remove_undoes_insert<D: RowDesc>(
    state: TableState<D>,
    key: D::Key,
    value: D::Value,
)
    requires
        state.consistent(),
        !state.rows.contains_key(key),
        <D::IndexStorage>::fresh(state.indexes, value) || table::violated::<D>(
            state.rows.insert(key, value),
        ) is None,
    ensures
        state.insert(key, value).remove(key).rows == state.rows,
        state.insert(key, value).remove(key).indexes == state.indexes,
        state.insert(key, value).remove(key).marks == state.marks.insert(key, Mark::Assigned),
        !state.insert(key, value).remove(key).rows.contains_key(key),
{
    if table::violated::<D>(state.rows.insert(key, value)) is None {
        <D::IndexStorage>::lemma_fresh(state.indexes, state.rows, key, value);
    }
    <D::IndexStorage>::lemma_undo(state.indexes, key, value);
    assert(state.insert(key, value).remove(key).rows =~= state.rows);
    assert(state.insert(key, value).remove(key).marks =~= state.marks.insert(key, Mark::Assigned));
}

/// Removing the row which an index leads to removes the entry, even if the index is poisoned.
pub proof fn law_remove_entry<X: IndexDesc>(
    state: TableState<X::BaseTable>,
    base_key: X::BaseKey,
    key: X::Key,
)
    requires
        state.consistent(),
        schema::index_state::<X>(state).entries.get(key) == Some(base_key),
    ensures
        state.rows.contains_key(base_key),
        !schema::index_state::<X>(state.remove(base_key)).entries.contains_key(key),
{
    schema::lemma_index::<X>(state);
    assert(X::keys(state.rows[base_key]).contains(key));
    assert(X::keys(state.rows[base_key]).to_set().contains(key));
}

/// Removing the row which one index finds removes it from every other index.
pub proof fn law_remove_via_sibling<
    X: IndexDesc,
    Y: IndexDesc<BaseTable = X::BaseTable, BaseKey = X::BaseKey, Row = X::Row>,
>(state: TableState<X::BaseTable>, key: X::Key, sibling_key: Y::Key)
    requires
        state.consistent(),
        operations::lookup::<X>(state, key) is Ok,
        !schema::index_state::<Y>(state).poisoned,
        Y::keys(operations::lookup::<X>(state, key)->Ok_0.1).contains(sibling_key),
    ensures
        operations::lookup::<Y>(
            state.remove(operations::lookup::<X>(state, key)->Ok_0.0),
            sibling_key,
        ) == Err::<(Y::BaseKey, Y::Row), Error>(Error::NotPresent),
{
    let k = operations::lookup::<X>(state, key)->Ok_0.0;
    law_lookup::<X>(state, key);
    law_remove::<Y>(state, k, sibling_key);
    assert(operations::has_index_key::<X>(state.rows, k, key));
    assert(operations::has_index_key::<Y>(state.rows, k, sibling_key));
}

/// A row which was changed (or replaced) via one index is found by the index keys which its new value has in
/// another.
pub proof fn law_change_via_sibling<
    X: IndexDesc,
    Y: IndexDesc<BaseTable = X::BaseTable, BaseKey = X::BaseKey, Row = X::Row>,
>(state: TableState<X::BaseTable>, key: X::Key, row: X::Row, mark: Mark, sibling_key: Y::Key)
    requires
        state.consistent(),
        operations::lookup::<X>(state, key) is Ok,
        table::admits::<X::BaseTable>(
            state.rows.insert(operations::lookup::<X>(state, key)->Ok_0.0, row),
        ),
        !schema::index_state::<Y>(
            state.replace(operations::lookup::<X>(state, key)->Ok_0.0, row, mark),
        ).poisoned,
        Y::keys(row).contains(sibling_key),
    ensures
        operations::lookup::<Y>(
            state.replace(operations::lookup::<X>(state, key)->Ok_0.0, row, mark),
            sibling_key,
        ) == Ok::<_, Error>((operations::lookup::<X>(state, key)->Ok_0.0, row)),
{
    let k = operations::lookup::<X>(state, key)->Ok_0.0;
    law_insert::<Y>(state, k, row, mark, sibling_key);
}

/// An index becomes poisoned by an inserted or changed row which makes its index keys ambiguous, and only by that: what
/// happens to the other indexes of the table does not matter.
pub proof fn law_poison<X: IndexDesc>(
    state: TableState<X::BaseTable>,
    base_key: X::BaseKey,
    row: X::Row,
    mark: Mark,
)
    requires
        state.consistent(),
        table::admits::<X::BaseTable>(state.rows.insert(base_key, row)),
    ensures
        schema::index_state::<X>(state.replace(base_key, row, mark)).poisoned <==> schema::index_state::<X>(
            state,
        ).poisoned || !index_table::unique::<X>(state.rows.insert(base_key, row)),
{
    state.lemma_insert(base_key, row, mark);
    schema::lemma_index::<X>(state.replace(base_key, row, mark));
}

/// After changing several rows at once, an index which was not poisoned finds each row by its
/// index keys, whether it was changed or not, as long as the index keys are unambiguous.
pub proof fn law_rewrite<X: IndexDesc>(
    before: TableState<X::BaseTable>,
    after: TableState<X::BaseTable>,
    base_key: X::BaseKey,
    key: X::Key,
)
    requires
        before.leads_to(after),
        !schema::index_state::<X>(before).poisoned,
        index_table::unique::<X>(after.rows),
        operations::has_index_key::<X>(after.rows, base_key, key),
    ensures
        operations::lookup::<X>(after, key) == Ok::<_, Error>((base_key, after.rows[base_key])),
{
    schema::lemma_index::<X>(after);
    law_lookup::<X>(after, key);
}

/// Removing rows from an index removes the entries of their index keys, and no others.
proof fn lemma_deindexed<X: IndexDesc>(
    state: TableState<X::BaseTable>,
    keys: Seq<X::BaseKey>,
    key: X::Key,
)
    ensures
        indexed::<X>(state.deindexed(keys)).entries.get(key) == if exists|i: int|
            0 <= i < keys.len() && #[trigger] X::keys(state.rows[keys[i]]).contains(key) {
            None
        } else {
            indexed::<X>(state.indexes).entries.get(key)
        },
    decreases keys.len(),
{
    if keys.len() > 0 {
        let front = keys.drop_last();
        lemma_deindexed::<X>(state, front, key);
        <schema::IndexesOf<X> as HasIndex<X, X::Place>>::lemma_index(
            state.deindexed(front),
            state.rows,
        );
        let row = state.rows[keys.last()];
        let (e, last) = (indexed::<X>(state.deindexed(front)).entries, X::keys(row));
        assert(indexed::<X>(state.deindexed(keys)).entries == e.remove_keys(last.to_set()));
        if exists|i: int| 0 <= i < front.len() && X::keys(state.rows[front[i]]).contains(key) {
            let i = choose|i: int|
                0 <= i < front.len() && X::keys(state.rows[front[i]]).contains(key);
            assert(X::keys(state.rows[keys[i]]).contains(key));
        }
        if last.contains(key) {
            assert(X::keys(state.rows[keys[keys.len() - 1]]).contains(key));
            assert(last.to_set().contains(key));
        } else {
            assert(!last.to_set().contains(key));
            assert forall|i: int|
                0 <= i < keys.len() && #[trigger] X::keys(state.rows[keys[i]]).contains(
                    key,
                ) implies X::keys(state.rows[front[i]]).contains(key) && i < front.len() by {
                if i == keys.len() - 1 {
                    assert(keys[i] == keys.last());
                }
            }
        }
    }
}

/// Adding rows to an index leaves the entries which are there, and adds one for each new index
/// key: it leads to the first of the rows which has that index key.
proof fn lemma_reindexed<X: IndexDesc>(
    indexes: table::IndexesState<X::BaseTable>,
    keys: Seq<X::BaseKey>,
    values: Seq<X::Row>,
    key: X::Key,
)
    requires
        keys.len() == values.len(),
    ensures
        indexed::<X>(indexes).entries.contains_key(key) ==> indexed::<X>(
            table::reindexed::<X::BaseTable>(indexes, keys, values),
        ).entries.get(key) == indexed::<X>(indexes).entries.get(key),
        !indexed::<X>(indexes).entries.contains_key(key) ==> match indexed::<X>(
            table::reindexed::<X::BaseTable>(indexes, keys, values),
        ).entries.get(key) {
            Some(k) => exists|i: int| #[trigger] first_with::<X>(values, key, i) && keys[i] == k,
            None => forall|i: int|
                0 <= i < values.len() ==> !#[trigger] X::keys(values[i]).contains(key),
        },
    decreases keys.len(),
{
    if keys.len() > 0 {
        let (ks, vs) = (keys.drop_last(), values.drop_last());
        let before = table::reindexed::<X::BaseTable>(indexes, ks, vs);
        lemma_reindexed::<X>(indexes, ks, vs, key);
        <schema::IndexesOf<X> as HasIndex<X, X::Place>>::lemma_index(before, Map::empty());
        let e = indexed::<X>(before).entries;
        let after = indexed::<X>(table::reindexed::<X::BaseTable>(indexes, keys, values)).entries;
        assert(after == indexed::<X>(before).insert(X::keys(values.last()), keys.last()).entries);
        if !indexed::<X>(indexes).entries.contains_key(key) {
            if e.contains_key(key) {
                let i = choose|i: int| #[trigger] first_with::<X>(vs, key, i) && ks[i] == e[key];
                assert(first_with::<X>(values, key, i)) by {
                    assert(X::keys(values[i]).contains(key));
                    assert forall|j: int| 0 <= j < i implies !#[trigger] X::keys(
                        values[j],
                    ).contains(key) by {
                        assert(vs[j] == values[j]);
                        assert(!X::keys(vs[j]).contains(key));
                    }
                }
                assert(keys[i] == e[key]);
            } else {
                assert forall|j: int| 0 <= j < vs.len() implies !#[trigger] X::keys(
                    values[j],
                ).contains(key) by {
                    assert(vs[j] == values[j]);
                    assert(!X::keys(vs[j]).contains(key));
                }
                if X::keys(values.last()).contains(key) {
                    assert(X::keys(values[values.len() - 1]).contains(key));
                    assert(first_with::<X>(values, key, values.len() - 1));
                }
            }
        }
    }
}

/// What is visible of the index `X` among the indexes of its base table.
pub open spec fn indexed<X: IndexDesc>(
    indexes: table::IndexesState<X::BaseTable>,
) -> index_table::IndexState<X::Key, X::BaseKey> {
    <schema::IndexesOf<X> as HasIndex<X, X::Place>>::index_state(indexes)
}

/// Whether the row in the place `i` is the first one with an index key.
pub open spec fn first_with<X: IndexKeys>(values: Seq<X::Row>, key: X::Key, i: int) -> bool {
    &&& 0 <= i < values.len()
    &&& X::keys(values[i]).contains(key)
    &&& forall|j: int| 0 <= j < i ==> !#[trigger] X::keys(values[j]).contains(key)
}

/// After changing several rows at once, whether this has poisoned an index or not: an entry which
/// leads to a row that was not changed stays, unless one of the changed rows had its index key as
/// well, which is only so in a poisoned index. Each other entry leads to the first of the changed
/// rows with that index key.
pub proof fn law_rewrite_entries<X: IndexDesc>(
    state: TableState<X::BaseTable>,
    keys: Seq<X::BaseKey>,
    values: Seq<X::Row>,
    key: X::Key,
)
    requires
        state.consistent(),
        keys.len() == values.len(),
        forall|k: X::BaseKey| #[trigger] keys.contains(k) ==> state.rows.contains_key(k),
    ensures
        schema::index_state::<X>(state).entries.get(key) matches Some(k) ==> !keys.contains(k) && (
        !schema::index_state::<X>(state).poisoned || forall|i: int|
            0 <= i < keys.len() ==> !#[trigger] X::keys(state.rows[keys[i]]).contains(key))
            ==> schema::index_state::<X>(state.rewrite(keys, values)).entries.get(key) == Some(k),
        schema::index_state::<X>(state.rewrite(keys, values)).entries.get(key) matches Some(k) ==> {
            ||| !keys.contains(k) && schema::index_state::<X>(state).entries.get(key) == Some(k)
            ||| exists|i: int| #[trigger] first_with::<X>(values, key, i) && keys[i] == k
        },
        schema::index_state::<X>(state.rewrite(keys, values)).entries.get(key) is None
            ==> forall|i: int|
            0 <= i < values.len() ==> !#[trigger] X::keys(values[i]).contains(key),
{
    schema::lemma_index::<X>(state);
    lemma_deindexed::<X>(state, keys, key);
    lemma_reindexed::<X>(state.deindexed(keys), keys, values, key);
    let before = schema::index_state::<X>(state);
    if before.entries.contains_key(key) {
        let k = before.entries[key];
        assert(X::keys(state.rows[k]).contains(key));
        if keys.contains(k) {
            let i = keys.index_of(k);
            assert(X::keys(state.rows[keys[i]]).contains(key));
        } else if !before.poisoned {
            assert forall|i: int| 0 <= i < keys.len() implies !#[trigger] X::keys(
                state.rows[keys[i]],
            ).contains(key) by {
                assert(keys.contains(keys[i]));
            }
        }
    }
}

/// Rows which were not changed keep their values, and no row is added or removed.
pub proof fn law_rewrite_others<D: RowDesc>(
    state: TableState<D>,
    keys: Seq<D::Key>,
    values: Seq<D::Value>,
    key: D::Key,
)
    ensures
        state.rewrite(keys, values).rows.dom() == state.rows.dom(),
        !keys.contains(key) && state.rows.contains_key(key) ==> state.rewrite(
            keys,
            values,
        ).rows[key] == state.rows[key],
{
    assert(state.rewrite(keys, values).rows.dom() =~= state.rows.dom());
}

/// Clearing a table unpoisons its indexes, and they find nothing.
pub proof fn law_clear<X: IndexDesc>(state: TableState<X::BaseTable>, key: X::Key)
    ensures
        state.clear().rows == Map::<X::BaseKey, X::Row>::empty(),
        !schema::index_state::<X>(state.clear()).poisoned,
        operations::lookup::<X>(state.clear(), key) == Err::<(X::BaseKey, X::Row), Error>(
            Error::NotPresent,
        ),
{
    schema::lemma_index::<X>(state.clear());
}

/// An index whose keys were asserted to be unique is never poisoned.
pub proof fn law_asserted_unique<X: IndexDesc>(state: TableState<X::BaseTable>)
    requires
        state.consistent(),
        X::ASSERT_UNIQUE,
    ensures
        !schema::index_state::<X>(state).poisoned,
        index_table::unique::<X>(state.rows),
{
    schema::lemma_index::<X>(state);
}

/// A poisoned index gives an error for each index key, and names itself in it.
pub proof fn law_poisoned_lookup<X: IndexDesc>(state: TableState<X::BaseTable>, key: X::Key)
    requires
        schema::index_state::<X>(state).poisoned,
    ensures
        operations::lookup::<X>(state, key) == Err::<(X::BaseKey, X::Row), Error>(
            Error::NonUniqueIndexKey(X::NAME),
        ),
{
}

/// In the committed state no index is poisoned, and each index finds exactly the rows of its table.
pub proof fn law_committed<X: IndexDesc>(
    store: KvStore<<X::BaseTable as TableDesc>::Storage>,
    base_key: X::BaseKey,
    key: X::Key,
)
    requires
        store.wf(),
    ensures
        !schema::index_state::<X>(schema::state_of::<X::BaseTable>(store@)).poisoned,
        operations::has_index_key::<X>(
            schema::state_of::<X::BaseTable>(store@).rows,
            base_key,
            key,
        ) ==> operations::lookup::<X>(schema::state_of::<X::BaseTable>(store@), key) == Ok::<
            _,
            Error,
        >((base_key, schema::state_of::<X::BaseTable>(store@).rows[base_key])),
{
    let state = schema::state_of::<X::BaseTable>(store@);
    store.lemma_wf();
    schema::lemma_state::<X::BaseTable>(store@, state);
    schema::lemma_index::<X>(state);
    law_lookup::<X>(state, key);
}

/// Changing one table leaves the other tables as they are.
pub proof fn law_other_tables<D: TableDesc, E: TableDesc<Storage = D::Storage>>(
    state: StateOf<D::Storage>,
    table: TableState<D>,
)
    requires
        <D::Place>::pos() != <E::Place>::pos(),
    ensures
        schema::state_of::<E>(schema::with_state::<D>(state, table)) == schema::state_of::<E>(
            state,
        ),
{
    schema::lemma_state::<D>(state, table);
    schema::lemma_elsewhere::<E>(state, schema::with_state::<D>(state, table), <D::Place>::pos());
}

/// Changing a table leaves the singletons as they are.
pub proof fn law_table_beside_singleton<D: TableDesc, S: SingletonDesc<Storage = D::Storage>>(
    state: StateOf<D::Storage>,
    table: TableState<D>,
)
    requires
        <D::Place>::pos() != <S::Place>::pos(),
    ensures
        schema::single_of::<S>(schema::with_state::<D>(state, table)) == schema::single_of::<S>(
            state,
        ),
{
    schema::lemma_state::<D>(state, table);
    schema::lemma_elsewhere_single::<S>(
        state,
        schema::with_state::<D>(state, table),
        <D::Place>::pos(),
    );
}

/// Changing a singleton leaves the tables as they are.
pub proof fn law_singleton_beside_table<S: SingletonDesc, D: TableDesc<Storage = S::Storage>>(
    state: StateOf<S::Storage>,
    value: SingleState<S::Value>,
)
    requires
        <S::Place>::pos() != <D::Place>::pos(),
    ensures
        schema::state_of::<D>(schema::with_single::<S>(state, value)) == schema::state_of::<D>(
            state,
        ),
{
    schema::lemma_single::<S>(state, value);
    schema::lemma_elsewhere::<D>(state, schema::with_single::<S>(state, value), <S::Place>::pos());
}

/// Changing one singleton leaves the other singletons as they are.
pub proof fn law_other_singletons<S: SingletonDesc, T: SingletonDesc<Storage = S::Storage>>(
    state: StateOf<S::Storage>,
    value: SingleState<S::Value>,
)
    requires
        <S::Place>::pos() != <T::Place>::pos(),
    ensures
        schema::single_of::<T>(schema::with_single::<S>(state, value)) == schema::single_of::<T>(
            state,
        ),
{
    schema::lemma_single::<S>(state, value);
    schema::lemma_elsewhere_single::<T>(
        state,
        schema::with_single::<S>(state, value),
        <S::Place>::pos(),
    );
}

/// As long as a transaction is not committed, the store stays unchanged, however many operations
/// the transaction has made.
pub proof fn law_uncommitted<S: GeneratedStorage>(
    before: KvStore<S>,
    during: KvStore<S>,
    after: KvStore<S>,
)
    requires
        before.unchanged(during),
        during.unchanged(after),
    ensures
        before.unchanged(after),
{
}

/// A transaction takes the store in one step from the state in which it began to the state in which
/// it was committed.
pub proof fn law_one_step<S: GeneratedStorage>(
    before: KvStore<S>,
    during: KvStore<S>,
    after: KvStore<S>,
    state: S::State,
)
    requires
        before.unchanged(during),
        during.stepped(after, state),
    ensures
        before.stepped(after, state),
{
}

} // verus!
