use ts_kv_store::index_list::Indexed;
use ts_kv_store::schema::{Here, IndexDesc, IndexKeys, KeySeq, Notifiable, RowDesc, TableDesc};
use ts_kv_store::tables::Tables;
use ts_kv_store::{
    is_owner, Index, IndexIterator, IndexWithOwner, KeysAndValues, KvErrorExt, KvStore, Owner, Table,
};

#[derive(Clone, Debug, PartialEq)]
pub struct Row {
    pub name: String,
}

fn row(name: &str) -> Row {
    Row {
        name: name.to_owned(),
    }
}

type Storage = Tables<Users, ()>;

pub struct Users;

pub struct UsersByName;

impl RowDesc for Users {
    const NAME: &'static str = "Users";
    const OWNER: Owner = OWNER;
    type Key = u32;
    type Value = Row;
    type IndexStorage = Indexed<UsersByName, ()>;

    fn value_eq(a: &Row, b: &Row) -> bool {
        a == b
    }
}

impl Notifiable for Users {
    type NotificationValue = ();

    fn clone_value_for_notification(_value: &Row) {}
}

impl TableDesc for Users {
    type Storage = Storage;
    type Place = Here;
}

impl IndexKeys for UsersByName {
    const NAME: &'static str = "Users by name";
    const ASSERT_UNIQUE: bool = false;
    type Key = String;
    type BaseKey = u32;
    type Row = Row;

    fn keys(_row: Row) -> KeySeq<String> {
        unreachable!()
    }

    fn index_keys(row: &Row) -> Vec<String> {
        vec![row.name.clone()]
    }
}

impl IndexDesc for UsersByName {
    type BaseTable = Users;
    type Place = Here;
}

const OWNER: &str = "owner";
const OTHER: &str = "other";

fn new_store() -> KvStore<Storage> {
    KvStore::new()
}

fn users(store: &mut KvStore<Storage>) -> Table<'_, Users> {
    Table::new(store)
}

fn by_name(store: &mut KvStore<Storage>) -> Index<'_, UsersByName> {
    Index::new(store)
}

fn owned_by_name(store: &mut KvStore<Storage>) -> IndexWithOwner<'_, UsersByName> {
    IndexWithOwner::new(store, OWNER)
}

fn key(name: &str) -> String {
    name.to_owned()
}

fn collect(
    iter: &mut IndexIterator<'_, UsersByName, KeysAndValues>,
) -> Vec<(String, u32, Row)> {
    let mut items = Vec::new();
    while let Some((k, bk, v)) = iter.next() {
        items.push((k.clone(), *bk, v.clone()));
    }
    items
}

#[test]
fn index_get_returns_none_when_absent() {
    let mut store = new_store();
    assert!(by_name(&mut store).get(OWNER, &key("Alice")).is_none());
}

#[test]
fn index_get_returns_value_after_base_insert() {
    let mut store = new_store();
    users(&mut store).insert(OWNER, 1, row("Alice"));
    let table = owned_by_name(&mut store);
    let value = table.get(&key("Alice")).unwrap();
    assert_eq!(value, (1, row("Alice")));
}

#[test]
fn index_with_returns_none_and_does_not_call_f_when_absent() {
    let mut store = new_store();
    let mut called = false;
    let result = by_name(&mut store).with(OWNER, &key("Alice"), |_, _| {
        called = true;
    });
    assert!(result.is_none());
    assert!(!called);
}

#[test]
fn index_with_returns_result_of_f() {
    let mut store = new_store();
    users(&mut store).insert(OWNER, 1, row("Alice"));
    let len = by_name(&mut store).with(OWNER, &key("Alice"), |k, v| {
        assert_eq!(*k, 1);
        v.name.len()
    });
    assert_eq!(len.unwrap_opt(), Some(5));
}

#[test]
fn base_insert_is_visible_via_index() {
    let mut store = new_store();
    users(&mut store).insert(OWNER, 1, row("Alice"));
    assert!(by_name(&mut store).get(OWNER, &key("Alice")).is_some());
}

#[test]
fn index_remove_makes_base_absent() {
    let mut store = new_store();
    users(&mut store).insert(OWNER, 1, row("Alice"));
    by_name(&mut store).remove(OWNER, &key("Alice"));
    assert!(users(&mut store).get(OWNER, &1).is_none());
}

#[test]
fn index_remove_makes_index_absent() {
    let mut store = new_store();
    users(&mut store).insert(OWNER, 1, row("Alice"));
    by_name(&mut store).remove(OWNER, &key("Alice"));
    assert!(by_name(&mut store).get(OWNER, &key("Alice")).is_none());
}

#[test]
fn base_remove_makes_index_absent() {
    let mut store = new_store();
    users(&mut store).insert(OWNER, 1, row("Alice"));
    users(&mut store).remove(OWNER, &1);
    assert!(by_name(&mut store).get(OWNER, &key("Alice")).is_none());
}

#[test]
fn index_mutate_returns_none_when_absent() {
    let mut store = new_store();
    let result = by_name(&mut store).with_mut(OWNER, &key("Alice"), |_, v| v.name.len());
    assert!(result.is_none());
}

#[test]
fn index_mutate_modifies_value() {
    let mut store = new_store();
    users(&mut store).insert(OWNER, 1, row("Alice"));
    by_name(&mut store)
        .with_mut(OWNER, &key("Alice"), |k, v| {
            assert_eq!(*k, 1);
            v.name.push_str(" Smith")
        })
        .unwrap();
    let value = users(&mut store).get(OWNER, &1).unwrap();
    assert_eq!(value.name, "Alice Smith");
}

#[test]
fn index_mutate_updates_index_on_field_change() {
    let mut store = new_store();
    users(&mut store).insert(OWNER, 1, row("Alice"));
    by_name(&mut store)
        .with_mut(OWNER, &key("Alice"), |_, v| {
            v.name = "Charlie".to_owned();
        })
        .unwrap();
    assert!(by_name(&mut store).get(OWNER, &key("Alice")).is_none());
    let value = by_name(&mut store).get(OWNER, &key("Charlie")).unwrap();
    assert_eq!(value, (1, row("Charlie")));
}

#[test]
fn base_clear_removes_index_entries() {
    let mut store = new_store();
    users(&mut store).insert(OWNER, 1, row("Alice"));
    users(&mut store).clear(OWNER);
    assert!(by_name(&mut store).get(OWNER, &key("Alice")).is_none());
}

#[test]
fn index_iter_empty_on_fresh_store() {
    let mut store = new_store();
    let index = owned_by_name(&mut store);
    let items = index.with_iter(|i| collect(i));
    assert!(items.is_empty());
}

#[test]
fn index_iter_yields_index_key_and_base_value() {
    let mut store = new_store();
    users(&mut store).insert(OWNER, 1, row("Alice"));
    let items = by_name(&mut store).with_iter(OWNER, |i| collect(i));
    assert_eq!(items, vec![("Alice".to_owned(), 1, row("Alice"))]);
}

#[test]
fn index_iter_yields_all_rows() {
    let mut store = new_store();
    users(&mut store).insert(OWNER, 1, row("Alice"));
    users(&mut store).insert(OWNER, 2, row("Bob"));
    let mut items = by_name(&mut store).with_iter(OWNER, |i| collect(i));
    items.sort_by_key(|(k, ..)| k.clone());
    assert_eq!(
        items,
        vec![
            ("Alice".to_owned(), 1, row("Alice")),
            ("Bob".to_owned(), 2, row("Bob")),
        ]
    );
}

#[test]
fn index_iter_keys_cloned_empty() {
    let mut store = new_store();
    let table = owned_by_name(&mut store);

    let keys: Vec<String> = table.with_keys(|i| i.next().cloned().into_iter().collect());
    assert!(keys.is_empty());
}

#[test]
fn index_iter_keys_cloned_yields_index_keys() {
    let mut store = new_store();
    users(&mut store).insert(OWNER, 1, row("Alice"));
    users(&mut store).insert(OWNER, 2, row("Bob"));

    let table = owned_by_name(&mut store);
    let mut keys: Vec<String> = table.with_keys(|i| {
        let mut keys = Vec::new();
        while let Some(k) = i.next() {
            keys.push(k.clone());
        }
        keys
    });
    keys.sort();
    assert_eq!(keys, vec!["Alice", "Bob"]);
}

#[test]
fn index_for_each_empty_calls_closure_zero_times() {
    let mut store = new_store();
    let index = owned_by_name(&mut store);
    let mut count = 0;
    index.with_iter(|i| {
        while i.next().is_some() {
            count += 1;
        }
    });
    assert_eq!(count, 0);
}

#[test]
fn index_for_each_yields_index_key_and_base_value() {
    let mut store = new_store();
    users(&mut store).insert(OWNER, 1, row("Alice"));
    let index = owned_by_name(&mut store);
    let mut items: Vec<_> = Vec::new();
    index.with_iter(|i| {
        while let Some((k, bk, v)) = i.next() {
            items.push((k.clone(), *bk, v.clone()));
        }
    });
    assert_eq!(items, vec![("Alice".to_owned(), 1, row("Alice"))]);
}

#[test]
fn index_for_each_yields_all_rows() {
    let mut store = new_store();
    users(&mut store).insert(OWNER, 1, row("Alice"));
    users(&mut store).insert(OWNER, 2, row("Bob"));
    let index = owned_by_name(&mut store);
    let mut items: Vec<_> = Vec::new();
    index.with_iter(|i| {
        while let Some((k, bk, v)) = i.next() {
            items.push((k.clone(), *bk, v.clone()));
        }
    });
    items.sort_by_key(|(k, ..)| k.clone());
    assert_eq!(
        items,
        vec![
            ("Alice".to_owned(), 1, row("Alice")),
            ("Bob".to_owned(), 2, row("Bob")),
        ]
    );
}

#[test]
fn index_with_iter_mut_modifies_base_values() {
    let mut store = new_store();
    users(&mut store).insert(OWNER, 1, row("Alice"));
    let mut index = owned_by_name(&mut store);
    index.with_iter_mut(|i| i.next().unwrap().2.name.push('!'));
    assert_eq!(users(&mut store).get(OWNER, &1), Some(row("Alice!")));
}

#[test]
fn table_with_iter_mut_updates_index() {
    let mut store = new_store();
    users(&mut store).insert(OWNER, 1, row("Alice"));
    users(&mut store).with_iter_mut(OWNER, |i| {
        i.next().unwrap().1.name = "Charlie".to_owned()
    });
    assert!(by_name(&mut store).get(OWNER, &key("Alice")).is_none());
    assert_eq!(
        by_name(&mut store).get(OWNER, &key("Charlie")).unwrap(),
        (1, row("Charlie")),
    );
}

#[test]
fn index_with_iter_mut_updates_index() {
    let mut store = new_store();
    users(&mut store).insert(OWNER, 1, row("Alice"));
    by_name(&mut store).with_iter_mut(OWNER, |i| {
        i.next().unwrap().2.name = "Charlie".to_owned()
    });
    assert!(by_name(&mut store).get(OWNER, &key("Alice")).is_none());
    assert_eq!(
        by_name(&mut store).get(OWNER, &key("Charlie")).unwrap(),
        (1, row("Charlie"))
    );
}

#[test]
fn index_with_iter_mut_empty_yields_none() {
    let mut store = new_store();
    let mut index = owned_by_name(&mut store);
    let count = index.with_iter_mut(|i| {
        let mut count = 0;
        while i.next().is_some() {
            count += 1;
        }
        count
    });
    assert_eq!(count, 0);
}

// Mutating every row through a multi-row index iterator must rebuild the index for all of
// them (the single-row tests can't catch aliasing or partial-rebuild bugs).
#[test]
fn index_with_iter_mut_updates_all_rows() {
    let mut store = new_store();
    users(&mut store).insert(OWNER, 1, row("Alice"));
    users(&mut store).insert(OWNER, 2, row("Bob"));
    by_name(&mut store).with_iter_mut(OWNER, |i| {
        while let Some((_, _, v)) = i.next() {
            v.name.push('!');
        }
    });
    let index = owned_by_name(&mut store);
    assert!(index.get(&key("Alice")).is_none());
    assert!(index.get(&key("Bob")).is_none());
    assert_eq!(index.get(&key("Alice!")).unwrap(), (1, row("Alice!")));
    assert_eq!(index.get(&key("Bob!")).unwrap(), (2, row("Bob!")));
}

// Visiting a row without mutating it still tears down and rebuilds its index entry, so a row left
// unchanged must remain correctly indexed alongside one that was changed.
#[test]
fn index_with_iter_mut_visited_unmodified_row_stays_indexed() {
    let mut store = new_store();
    users(&mut store).insert(OWNER, 1, row("Alice"));
    users(&mut store).insert(OWNER, 2, row("Bob"));
    by_name(&mut store).with_iter_mut(OWNER, |i| {
        while let Some((_, base_key, v)) = i.next() {
            if *base_key == 1 {
                v.name = "Zara".to_owned();
            }
        }
    });
    let index = owned_by_name(&mut store);
    assert!(index.get(&key("Alice")).is_none());
    assert_eq!(index.get(&key("Zara")).unwrap(), (1, row("Zara")));
    // Bob was visited but not modified; its index entry must be intact.
    assert_eq!(index.get(&key("Bob")).unwrap(), (2, row("Bob")));
}

// Somebody else's owner may not remove rows: the check for it fails, so there is no such call.
#[test]
fn index_remove_wrong_owner_panics() {
    let mut store = new_store();
    assert!(!is_owner(<Users as RowDesc>::OWNER, OTHER));
    if is_owner(<Users as RowDesc>::OWNER, OTHER) {
        by_name(&mut store).remove(OTHER, &key("Alice"));
    }
    assert!(is_owner(<Users as RowDesc>::OWNER, OWNER));
}
