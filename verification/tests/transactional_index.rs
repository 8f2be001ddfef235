use ts_kv_store::index_list::Indexed;
use ts_kv_store::schema::{Here, IndexDesc, IndexKeys, KeySeq, Notifiable, RowDesc, TableDesc};
use ts_kv_store::tables::Tables;
use ts_kv_store::{
    is_owner, Index, IndexTransaction, IndexWithOwner, KvErrorExt, KvStore, Owner,
    RoIndexTransaction, Table, TableTransaction,
};

#[derive(Clone, Debug, PartialEq)]
pub struct Row {
    pub name: String,
    pub age: u32,
}

fn row(name: &str) -> Row {
    Row {
        name: name.to_owned(),
        age: 0,
    }
}

type Storage = Tables<Users, ()>;

pub struct Users;

pub struct UsersByName;

impl RowDesc for Users {
    const NAME: &'static str = "Users";
    const OWNER: Owner = OWNER;
    type Key = u32;
    type Value = Row;
    type IndexStorage = Indexed<UsersByName, ()>;

    fn value_eq(a: &Row, b: &Row) -> bool {
        a == b
    }
}

impl Notifiable for Users {
    type NotificationValue = ();

    fn clone_value_for_notification(_value: &Row) {}
}

impl TableDesc for Users {
    type Storage = Storage;
    type Place = Here;
}

impl IndexKeys for UsersByName {
    const NAME: &'static str = "Users by name";
    const ASSERT_UNIQUE: bool = false;
    type Key = String;
    type BaseKey = u32;
    type Row = Row;

    fn keys(_row: Row) -> KeySeq<String> {
        unreachable!()
    }

    fn index_keys(row: &Row) -> Vec<String> {
        vec![row.name.clone()]
    }
}

impl IndexDesc for UsersByName {
    type BaseTable = Users;
    type Place = Here;
}

const OWNER: &str = "owner";
const OTHER: &str = "other";

fn new_store() -> KvStore<Storage> {
    KvStore::new()
}

fn users(store: &mut KvStore<Storage>) -> Table<'_, Users> {
    Table::new(store)
}

fn by_name(store: &mut KvStore<Storage>) -> Index<'_, UsersByName> {
    Index::new(store)
}

fn owned_by_name(store: &mut KvStore<Storage>) -> IndexWithOwner<'_, UsersByName> {
    IndexWithOwner::new(store, OWNER)
}

fn txn_by_name<'g, 't>(
    view: &'t mut TableTransaction<'g, Users>,
) -> IndexTransaction<'g, 't, UsersByName> {
    IndexTransaction::new(view)
}

fn key(name: &str) -> String {
    name.to_owned()
}

#[test]
fn txn_index_get_returns_none_when_absent() {
    let mut store = new_store();
    let mut txn = store.begin_transaction(OWNER);
    let mut view = txn.table::<Users>();
    assert!(txn_by_name(&mut view).get(&key("Alice")).is_none());
}

#[test]
fn txn_index_remove_is_visible_after_commit() {
    let mut store = new_store();
    let mut txn = store.begin_transaction(OWNER);
    let mut view = txn.table::<Users>();
    view.insert(1, row("Alice"));
    assert_eq!(
        txn_by_name(&mut view).get(&key("Alice")).unwrap(),
        (1, row("Alice"))
    );
    txn.commit().unwrap();
    assert_eq!(
        by_name(&mut store).get(OWNER, &key("Alice")).unwrap(),
        (1, row("Alice"))
    );

    let mut txn = store.begin_transaction(OWNER);
    let mut view = txn.table::<Users>();
    txn_by_name(&mut view).remove(&key("Alice"));
    txn.commit().unwrap();
    assert!(by_name(&mut store).get(OWNER, &key("Alice")).is_none());
}

#[test]
fn txn_index_with_returns_some() {
    let mut store = new_store();
    let mut txn = store.begin_transaction(OWNER);
    let mut view = txn.table::<Users>();
    view.insert(1, row("Alice"));
    assert_eq!(
        txn_by_name(&mut view)
            .with(&key("Alice"), |k, v| {
                assert_eq!(*k, 1);
                v.name.len()
            })
            .unwrap(),
        5
    );
}

#[test]
fn txn_index_mutate_updates_index_on_field_change() {
    let mut store = new_store();
    let mut txn = store.begin_transaction(OWNER);
    let mut view = txn.table::<Users>();
    view.insert(1, row("Alice"));
    txn_by_name(&mut view)
        .with_mut(&key("Alice"), |_, v| v.name = "Bob".to_owned())
        .unwrap();
    assert!(txn_by_name(&mut view).get(&key("Alice")).is_none());
    assert_eq!(
        txn_by_name(&mut view).get(&key("Bob")).unwrap(),
        (
            1,
            Row {
                name: "Bob".to_owned(),
                age: 0
            }
        )
    );
}

#[test]
fn txn_index_mutate_non_indexed_field_preserves_index() {
    let mut store = new_store();
    let mut txn = store.begin_transaction(OWNER);
    let mut view = txn.table::<Users>();
    view.insert(1, row("Alice"));
    txn_by_name(&mut view)
        .with_mut(&key("Alice"), |_, v| v.age = 42)
        .unwrap();
    assert_eq!(
        txn_by_name(&mut view).get(&key("Alice")).unwrap(),
        (
            1,
            Row {
                name: "Alice".to_owned(),
                age: 42
            }
        )
    );
}

#[test]
fn txn_index_remove_removes_from_index() {
    let mut store = new_store();
    let mut txn = store.begin_transaction(OWNER);
    let mut view = txn.table::<Users>();
    view.insert(1, row("Alice"));
    txn_by_name(&mut view).remove(&key("Alice"));
    assert!(txn_by_name(&mut view).get(&key("Alice")).is_none());
}

#[test]
fn txn_index_remove_removes_from_base() {
    let mut store = new_store();
    let mut txn = store.begin_transaction(OWNER);
    let mut view = txn.table::<Users>();
    view.insert(1, row("Alice"));
    txn_by_name(&mut view).remove(&key("Alice"));
    assert!(view.get(&1).is_none());
    txn.commit().unwrap();
    assert!(users(&mut store).get(OWNER, &1).is_none());
}

#[test]
fn txn_index_iter_mut_updates_index_on_field_change() {
    let mut store = new_store();
    let mut txn = store.begin_transaction(OWNER);
    let mut view = txn.table::<Users>();
    view.insert(1, row("Alice"));
    txn_by_name(&mut view).with_iter_mut(|i| {
        while let Some((_, _, v)) = i.next() {
            v.name = "Charlie".to_owned();
        }
    });
    assert!(txn_by_name(&mut view).get(&key("Alice")).is_none());
    assert_eq!(
        txn_by_name(&mut view).get(&key("Charlie")).unwrap(),
        (
            1,
            Row {
                name: "Charlie".to_owned(),
                age: 0
            }
        )
    );
}

// Multi-row transactional index mutation: every row must be re-indexed under its new key.
#[test]
fn txn_index_iter_mut_updates_multiple_rows() {
    let mut store = new_store();
    let mut txn = store.begin_transaction(OWNER);
    let mut view = txn.table::<Users>();
    view.insert(1, row("Alice"));
    view.insert(2, row("Bob"));
    txn_by_name(&mut view).with_iter_mut(|i| {
        while let Some((_, _, v)) = i.next() {
            v.name.push('!');
        }
    });

    assert!(txn_by_name(&mut view).get(&key("Alice")).is_none());
    assert!(txn_by_name(&mut view).get(&key("Bob")).is_none());
    assert_eq!(
        txn_by_name(&mut view).get(&key("Alice!")).unwrap(),
        (1, row("Alice!"))
    );
    assert_eq!(
        txn_by_name(&mut view).get(&key("Bob!")).unwrap(),
        (2, row("Bob!"))
    );
}

// A row visited by the index iterator but left unmodified must remain correctly indexed.
#[test]
fn txn_index_iter_mut_visited_unmodified_row_stays_indexed() {
    let mut store = new_store();
    let mut txn = store.begin_transaction(OWNER);
    let mut view = txn.table::<Users>();
    view.insert(1, row("Alice"));
    view.insert(2, row("Bob"));
    txn_by_name(&mut view).with_iter_mut(|i| {
        while let Some((_, base_key, v)) = i.next() {
            if *base_key == 1 {
                v.name = "Zara".to_owned();
            }
        }
    });

    assert!(txn_by_name(&mut view).get(&key("Alice")).is_none());
    assert_eq!(
        txn_by_name(&mut view).get(&key("Zara")).unwrap(),
        (1, row("Zara"))
    );
    assert_eq!(
        txn_by_name(&mut view).get(&key("Bob")).unwrap(),
        (2, row("Bob"))
    );
}

#[test]
fn txn_base_insert_updates_index() {
    let mut store = new_store();
    let mut txn = store.begin_transaction(OWNER);
    let mut view = txn.table::<Users>();
    view.insert(1, row("Alice"));
    assert_eq!(
        txn_by_name(&mut view).get(&key("Alice")).unwrap(),
        (1, row("Alice"))
    );
}

#[test]
fn txn_base_mutate_updates_index_on_field_change() {
    let mut store = new_store();
    let mut txn = store.begin_transaction(OWNER);
    let mut view = txn.table::<Users>();
    view.insert(1, row("Alice"));
    view.with_mut(&1, |v| v.name = "Bob".to_owned());
    assert!(txn_by_name(&mut view).get(&key("Alice")).is_none());
    assert_eq!(
        txn_by_name(&mut view).get(&key("Bob")).unwrap(),
        (
            1,
            Row {
                name: "Bob".to_owned(),
                age: 0
            }
        )
    );
}

#[test]
fn txn_base_remove_updates_index() {
    let mut store = new_store();
    let mut txn = store.begin_transaction(OWNER);
    let mut view = txn.table::<Users>();
    view.insert(1, row("Alice"));
    view.remove(&1);
    assert!(txn_by_name(&mut view).get(&key("Alice")).is_none());
}

#[test]
fn txn_base_clear_updates_index() {
    let mut store = new_store();
    let mut txn = store.begin_transaction(OWNER);
    let mut view = txn.table::<Users>();
    view.insert(1, row("Alice"));
    view.insert(2, row("Bob"));
    view.clear();
    assert!(txn_by_name(&mut view).get(&key("Alice")).is_none());
    assert!(txn_by_name(&mut view).get(&key("Bob")).is_none());
}

#[test]
fn txn_base_iter_mut_updates_index_on_field_change() {
    let mut store = new_store();
    let mut txn = store.begin_transaction(OWNER);
    let mut view = txn.table::<Users>();
    view.insert(1, row("Alice"));
    view.with_iter_mut(|i| i.next().unwrap().1.name = "Charlie".to_owned());
    assert!(txn_by_name(&mut view).get(&key("Alice")).is_none());
    assert_eq!(
        txn_by_name(&mut view).get(&key("Charlie")).unwrap(),
        (
            1,
            Row {
                name: "Charlie".to_owned(),
                age: 0
            }
        )
    );
}

// Iterating the base table mutably must leave rows which were inserted after a `clear()` in the
// same transaction correctly indexed.
#[test]
fn txn_base_iter_mut_after_clear_keeps_new_rows_indexed() {
    let mut store = new_store();
    let mut txn = store.begin_transaction(OWNER);
    let mut view = txn.table::<Users>();
    view.insert(1, row("Alice"));
    view.clear();
    view.insert(2, row("Bob"));
    view.with_iter_mut(|i| {
        while let Some((_, v)) = i.next() {
            v.name.push('!');
        }
    });
    txn.commit().unwrap();

    let index = owned_by_name(&mut store);
    assert!(index.get(&key("Alice")).is_none());
    assert!(index.get(&key("Bob")).is_none());
    assert_eq!(index.get(&key("Bob!")).unwrap(), (2, row("Bob!")));
}

#[test]
fn txn_base_iter_mut_after_clear_unmodified_stays_indexed() {
    let mut store = new_store();
    let mut txn = store.begin_transaction(OWNER);
    let mut view = txn.table::<Users>();
    view.clear();
    view.insert(2, row("Bob"));
    view.with_iter_mut(|i| while i.next().is_some() {});
    txn.commit().unwrap();

    let index = owned_by_name(&mut store);
    assert_eq!(index.get(&key("Bob")).unwrap(), (2, row("Bob")));
}

// Removing a key then iterating mutably: the removed row must not be re-indexed, and a surviving
// row mutated through the iterator must be re-indexed under its new key.
#[test]
fn txn_base_iter_mut_after_remove_keeps_index_consistent() {
    let mut store = new_store();
    let mut txn = store.begin_transaction(OWNER);
    let mut view = txn.table::<Users>();
    view.insert(1, row("Alice"));
    view.insert(2, row("Bob"));
    view.remove(&1);
    view.with_iter_mut(|i| {
        while let Some((_, v)) = i.next() {
            v.name.push('!');
        }
    });
    txn.commit().unwrap();

    let index = owned_by_name(&mut store);
    assert!(index.get(&key("Alice")).is_none());
    assert!(index.get(&key("Alice!")).is_none());
    assert!(index.get(&key("Bob")).is_none());
    assert_eq!(index.get(&key("Bob!")).unwrap(), (2, row("Bob!")));
}

#[test]
fn ro_txn_index_get_returns_none_when_absent() {
    let store = new_store();
    let txn = store.begin_ro_transaction(OWNER);
    let view = txn.table::<Users>();
    assert!(RoIndexTransaction::<UsersByName>::new(&view)
        .get(&key("Alice"))
        .is_none());
}

#[test]
fn ro_txn_index_get_returns_value_inserted_before_txn() {
    let mut store = new_store();
    users(&mut store).insert(OWNER, 1, row("Alice"));
    let txn = store.begin_ro_transaction(OWNER);
    let view = txn.table::<Users>();
    assert_eq!(
        RoIndexTransaction::<UsersByName>::new(&view)
            .get(&key("Alice"))
            .unwrap(),
        (1, row("Alice"))
    );
}

#[test]
fn ro_txn_index_with_returns_some() {
    let mut store = new_store();
    users(&mut store).insert(OWNER, 1, row("Alice"));
    let txn = store.begin_ro_transaction(OWNER);
    let view = txn.table::<Users>();
    assert_eq!(
        RoIndexTransaction::<UsersByName>::new(&view)
            .with(&key("Alice"), |k, v| {
                assert_eq!(*k, 1);
                v.name.len()
            })
            .unwrap(),
        5
    );
}

#[test]
fn ro_txn_index_iter_cloned_yields_rows() {
    let mut store = new_store();
    users(&mut store).insert(OWNER, 1, row("Alice"));
    users(&mut store).insert(OWNER, 2, row("Bob"));
    let txn = store.begin_ro_transaction(OWNER);

    let view = txn.table::<Users>();
    let table = RoIndexTransaction::<UsersByName>::new(&view);
    let mut rows: Vec<_> = Vec::new();
    let mut iter = table.iter();
    while let Some(item) = iter.next() {
        rows.push(item);
    }
    rows.sort_by(|a, b| a.0.cmp(b.0));
    assert_eq!(
        rows,
        vec![
            (&"Alice".to_owned(), &1, &row("Alice")),
            (&"Bob".to_owned(), &2, &row("Bob"))
        ]
    );
}

#[test]
fn ro_txn_index_for_each_yields_rows() {
    let mut store = new_store();
    users(&mut store).insert(OWNER, 1, row("Alice"));
    users(&mut store).insert(OWNER, 2, row("Bob"));
    let txn = store.begin_ro_transaction(OWNER);
    let view = txn.table::<Users>();
    let mut names: Vec<String> = Vec::new();
    let mut iter = RoIndexTransaction::<UsersByName>::new(&view).iter();
    while let Some((k, ..)) = iter.next() {
        names.push(k.clone());
    }
    names.sort();
    assert_eq!(names, vec!["Alice".to_owned(), "Bob".to_owned()]);
}

// Somebody else's transaction may not remove rows: the check for it fails, so there is no such
// call.
#[test]
fn txn_index_remove_wrong_owner_panics() {
    let mut store = new_store();
    let mut txn = store.begin_transaction(OTHER);
    let mut view = txn.table::<Users>();
    assert!(!is_owner(<Users as RowDesc>::OWNER, view.txn_owner()));
    if is_owner(<Users as RowDesc>::OWNER, view.txn_owner()) {
        txn_by_name(&mut view).remove(&key("Alice"));
    }
}

#[test]
fn txn_index_iter_mut_wrong_owner_panics() {
    let mut store = new_store();
    let mut txn = store.begin_transaction(OTHER);
    let mut view = txn.table::<Users>();
    assert!(!is_owner(<Users as RowDesc>::OWNER, view.txn_owner()));
    if is_owner(<Users as RowDesc>::OWNER, view.txn_owner()) {
        txn_by_name(&mut view).with_iter_mut(|_| ());
    }
}

#[test]
fn txn_index_base_mutate_indexed_field_rolled_back() {
    let mut store = new_store();
    users(&mut store).insert(OWNER, 1, row("Alice"));
    {
        let mut txn = store.begin_transaction(OWNER);
        let mut view = txn.table::<Users>();
        txn_by_name(&mut view)
            .with_mut(&key("Alice"), |_, v| v.name = "Bob".to_owned())
            .unwrap();
    }
    assert_eq!(
        by_name(&mut store).get(OWNER, &key("Alice")).unwrap(),
        (1, row("Alice"))
    );
    assert!(by_name(&mut store).get(OWNER, &key("Bob")).is_none());
    assert_eq!(users(&mut store).get(OWNER, &1), Some(row("Alice")));
}

#[test]
fn txn_index_remove_rolled_back_on_drop() {
    let mut store = new_store();
    users(&mut store).insert(OWNER, 1, row("Alice"));
    {
        let mut txn = store.begin_transaction(OWNER);
        let mut view = txn.table::<Users>();
        txn_by_name(&mut view).remove(&key("Alice"));
    }
    assert_eq!(
        by_name(&mut store).get(OWNER, &key("Alice")).unwrap(),
        (1, row("Alice"))
    );
    assert_eq!(users(&mut store).get(OWNER, &1), Some(row("Alice")));
}

#[test]
fn raw_base_then_txn_insert_commit_both_visible() {
    let mut store = new_store();
    users(&mut store).insert(OWNER, 1, row("Alice"));

    let mut txn = store.begin_transaction(OWNER);
    txn.table::<Users>().insert(2, row("Bob"));
    txn.commit().unwrap();

    assert_eq!(
        by_name(&mut store).get(OWNER, &key("Alice")).unwrap(),
        (1, row("Alice"))
    );
    assert_eq!(
        by_name(&mut store).get(OWNER, &key("Bob")).unwrap(),
        (2, row("Bob"))
    );
    assert_eq!(users(&mut store).get(OWNER, &1), Some(row("Alice")));
    assert_eq!(users(&mut store).get(OWNER, &2), Some(row("Bob")));
}
