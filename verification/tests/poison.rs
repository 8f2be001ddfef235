use ts_kv_store::index_list::Indexed;
use ts_kv_store::schema::{
    Here, IndexDesc, IndexKeys, KeySeq, Notifiable, RowDesc, TableDesc, There,
};
use ts_kv_store::tables::Tables;
use ts_kv_store::{
    Error, Index, IndexTransaction, IndexWithOwner, KvErrorExt, KvStore, Owner, Table,
    TableTransaction,
};

#[derive(Clone, Debug, PartialEq)]
pub struct Row {
    pub name: String,
    pub email: String,
}

fn row(name: &str, email: &str) -> Row {
    Row {
        name: name.to_owned(),
        email: email.to_owned(),
    }
}

type Storage = Tables<Users, Tables<AssertingUsers, ()>>;

pub struct Users;

pub struct UsersByName;

pub struct UsersByEmail;

pub struct AssertingUsers;

pub struct AssertingUsersByName;

impl RowDesc for Users {
    const NAME: &'static str = "Users";
    const OWNER: Owner = OWNER;
    type Key = u32;
    type Value = Row;
    type IndexStorage = Indexed<UsersByName, Indexed<UsersByEmail, ()>>;

    fn value_eq(a: &Row, b: &Row) -> bool {
        a == b
    }
}

impl Notifiable for Users {
    type NotificationValue = ();

    fn clone_value_for_notification(_value: &Row) {}
}

impl TableDesc for Users {
    type Storage = Storage;
    type Place = Here;
}

impl IndexKeys for UsersByName {
    const NAME: &'static str = "Users by name";
    const ASSERT_UNIQUE: bool = false;
    type Key = String;
    type BaseKey = u32;
    type Row = Row;

    fn keys(_row: Row) -> KeySeq<String> {
        unreachable!()
    }

    fn index_keys(row: &Row) -> Vec<String> {
        vec![row.name.clone()]
    }
}

impl IndexDesc for UsersByName {
    type BaseTable = Users;
    type Place = Here;
}

impl IndexKeys for UsersByEmail {
    const NAME: &'static str = "Users by email";
    const ASSERT_UNIQUE: bool = false;
    type Key = String;
    type BaseKey = u32;
    type Row = Row;

    fn keys(_row: Row) -> KeySeq<String> {
        unreachable!()
    }

    fn index_keys(row: &Row) -> Vec<String> {
        vec![row.email.clone()]
    }
}

impl IndexDesc for UsersByEmail {
    type BaseTable = Users;
    type Place = There<Here>;
}

impl RowDesc for AssertingUsers {
    const NAME: &'static str = "AssertingUsers";
    const OWNER: Owner = OWNER;
    type Key = u32;
    type Value = Row;
    type IndexStorage = Indexed<AssertingUsersByName, ()>;

    fn value_eq(a: &Row, b: &Row) -> bool {
        a == b
    }
}

impl Notifiable for AssertingUsers {
    type NotificationValue = ();

    fn clone_value_for_notification(_value: &Row) {}
}

impl TableDesc for AssertingUsers {
    type Storage = Storage;
    type Place = There<Here>;
}

impl IndexKeys for AssertingUsersByName {
    const NAME: &'static str = "AssertingUsers by name";
    const ASSERT_UNIQUE: bool = true;
    type Key = String;
    type BaseKey = u32;
    type Row = Row;

    fn keys(_row: Row) -> KeySeq<String> {
        unreachable!()
    }

    fn index_keys(row: &Row) -> Vec<String> {
        vec![row.name.clone()]
    }
}

impl IndexDesc for AssertingUsersByName {
    type BaseTable = AssertingUsers;
    type Place = Here;
}

const OWNER: &str = "owner";

fn new_store() -> KvStore<Storage> {
    KvStore::new()
}

fn users(store: &mut KvStore<Storage>) -> Table<'_, Users> {
    Table::new(store)
}

fn by_name(store: &mut KvStore<Storage>) -> Index<'_, UsersByName> {
    Index::new(store)
}

fn owned_by_name(store: &mut KvStore<Storage>) -> IndexWithOwner<'_, UsersByName> {
    IndexWithOwner::new(store, OWNER)
}

fn txn_by_name<'g, 't>(
    view: &'t mut TableTransaction<'g, Users>,
) -> IndexTransaction<'g, 't, UsersByName> {
    IndexTransaction::new(view)
}

fn key(name: &str) -> String {
    name.to_owned()
}

#[test]
fn ops_return_error_when_poisoned() {
    let mut store = new_store();
    let mut txn = store.begin_transaction(OWNER);
    let mut view = txn.table::<Users>();
    view.insert(1, row("Alice", "alice1@x.com"));
    view.insert(2, row("Alice", "alice2@x.com"));

    let mut index_name = txn_by_name(&mut view);
    assert_eq!(
        index_name.check_consistent(),
        Err(Error::NonUniqueIndexKey("Users by name"))
    );

    let result = index_name.get(&key("Alice"));
    assert!(matches!(result, Err(Error::NonUniqueIndexKey(_))));

    // The `panic`s ensure that the closure is not called.
    let result: Result<(), Error> = index_name.with(&key("Alice"), |_, _| panic!());
    assert!(matches!(result, Err(Error::NonUniqueIndexKey(_))));

    let result: Result<(), Error> = index_name.with_mut(&key("Alice"), |_, _| panic!());
    assert!(matches!(result, Err(Error::NonUniqueIndexKey(_))));
}

#[test]
fn check_consistent_ok_when_unique() {
    let mut store = new_store();
    users(&mut store).insert(OWNER, 1, row("Alice", "alice1@x.com"));
    assert!(by_name(&mut store).check_consistent().is_ok());
}

#[test]
fn base_table_unaffected_when_index_poisoned() {
    let mut store = new_store();
    let mut txn = store.begin_transaction(OWNER);
    let mut view = txn.table::<Users>();
    view.insert(1, row("Alice", "alice1@x.com"));
    view.insert(2, row("Alice", "alice2@x.com"));

    // The `name` index is poisoned, but the base table can still be read by primary key.
    assert_eq!(view.get(&1), Some(row("Alice", "alice1@x.com")));
    assert_eq!(view.get(&2), Some(row("Alice", "alice2@x.com")));
}

#[test]
fn sibling_index_not_poisoned() {
    let mut store = new_store();
    let mut txn = store.begin_transaction(OWNER);
    let mut view = txn.table::<Users>();
    view.insert(1, row("Alice", "alice1@x.com"));
    view.insert(2, row("Alice", "alice2@x.com"));

    // `name` is poisoned (both "Alice")...
    assert!(matches!(
        txn_by_name(&mut view).check_consistent(),
        Err(Error::NonUniqueIndexKey(_))
    ));
    // ...but `email` has distinct keys and stays consistent.
    let email_index = IndexTransaction::<UsersByEmail>::new(&mut view);
    assert!(email_index.check_consistent().is_ok());
    assert_eq!(
        email_index.get(&key("alice1@x.com")).unwrap(),
        (1, row("Alice", "alice1@x.com"))
    );
    assert_eq!(
        email_index.get(&key("alice2@x.com")).unwrap(),
        (2, row("Alice", "alice2@x.com"))
    );
}

#[test]
fn clear_unpoisons() {
    let mut store = new_store();
    let mut txn = store.begin_transaction(OWNER);
    let mut view = txn.table::<Users>();
    view.insert(1, row("Alice", "alice1@x.com"));
    view.insert(2, row("Alice", "alice2@x.com"));

    assert!(txn_by_name(&mut view).check_consistent().is_err());

    view.clear();
    let index = txn_by_name(&mut view);
    assert!(index.check_consistent().is_ok());
    assert!(index.get(&key("Alice")).is_none());
}

#[test]
fn txn_get_returns_error_when_poisoned() {
    let mut store = new_store();
    let mut txn = store.begin_transaction(OWNER);
    let mut view = txn.table::<Users>();
    view.insert(1, row("Alice", "alice1@x.com"));
    view.insert(2, row("Alice", "alice2@x.com"));

    assert!(matches!(
        txn_by_name(&mut view).get(&key("Alice")),
        Err(Error::NonUniqueIndexKey(_))
    ));
}

#[test]
fn txn_check_consistent_errors_when_poisoned() {
    let mut store = new_store();
    let mut txn = store.begin_transaction(OWNER);
    let mut view = txn.table::<Users>();
    view.insert(1, row("Alice", "alice1@x.com"));
    view.insert(2, row("Alice", "alice2@x.com"));

    assert!(matches!(
        txn_by_name(&mut view).check_consistent(),
        Err(Error::NonUniqueIndexKey(_))
    ));
}

#[test]
fn txn_commit_fails_when_index_poisoned() {
    let mut store = new_store();
    {
        let mut txn = store.begin_transaction(OWNER);
        let mut view = txn.table::<Users>();
        view.insert(1, row("Alice", "alice1@x.com"));
        view.insert(2, row("Alice", "alice2@x.com"));
        assert!(matches!(txn.commit(), Err(Error::NonUniqueIndexKey(_))));
    }

    // The failed commit rolled everything back: the store is clean and consistent.
    assert!(users(&mut store).get(OWNER, &1).is_none());
    assert!(users(&mut store).get(OWNER, &2).is_none());
    assert!(by_name(&mut store).check_consistent().is_ok());
}

#[test]
fn txn_poison_rolled_back_on_drop() {
    let mut store = new_store();
    {
        let mut txn = store.begin_transaction(OWNER);
        let mut view = txn.table::<Users>();
        view.insert(1, row("Alice", "alice1@x.com"));
        view.insert(2, row("Alice", "alice2@x.com"));
        // dropped without committing
    }

    let index = owned_by_name(&mut store);
    assert!(index.check_consistent().is_ok());
    assert!(index.get(&key("Alice")).is_none());
    assert!(users(&mut store).is_empty());
}

#[test]
fn txn_poison_against_committed_rolled_back() {
    let mut store = new_store();
    // Commit Alice(1) first, so the "Alice" name-index entry is already committed.
    users(&mut store).insert(OWNER, 1, row("Alice", "alice1@x.com"));

    {
        // This txn collides with the *already-committed* "Alice" index entry, so the index is
        // poisoned without an entry of it being written within the txn.
        let mut txn = store.begin_transaction(OWNER);
        txn.table::<Users>().insert(2, row("Alice", "alice2@x.com"));
        // rollback on drop
    }

    // An unrelated, valid commit must succeed — the rolled-back poison must not leak into it.
    let mut txn = store.begin_transaction(OWNER);
    txn.table::<Users>().insert(3, row("Bob", "bob@x.com"));
    txn.commit().unwrap();

    let index = owned_by_name(&mut store);
    assert!(
        index.check_consistent().is_ok(),
        "index should not be poisoned after the colliding txn was rolled back"
    );
    assert_eq!(
        index.get(&key("Alice")).unwrap(),
        (1, row("Alice", "alice1@x.com"))
    );
    assert_eq!(index.get(&key("Bob")).unwrap(), (3, row("Bob", "bob@x.com")));
}

#[test]
fn assert_unique_distinct_keys_ok() {
    let mut store = new_store();
    Table::<AssertingUsers>::new(&mut store).insert(OWNER, 1, row("Alice", "alice1@x.com"));
    Table::<AssertingUsers>::new(&mut store).insert(OWNER, 2, row("Bob", "bob@x.com"));
    assert_eq!(
        Index::<AssertingUsersByName>::new(&mut store)
            .get(OWNER, &key("Alice"))
            .unwrap(),
        (1, row("Alice", "alice1@x.com"))
    );
}

#[test]
#[should_panic]
fn assert_unique_duplicate_base_insert_panics() {
    let mut store = new_store();
    Table::<AssertingUsers>::new(&mut store).insert(OWNER, 1, row("Alice", "alice1@x.com"));
    Table::<AssertingUsers>::new(&mut store).insert(OWNER, 2, row("Alice", "alice2@x.com"));
}

#[test]
fn raw_base_try_insert_duplicate_errors_and_rolls_back() {
    let mut store = new_store();
    users(&mut store).insert(OWNER, 1, row("Alice", "alice1@x.com"));

    // The duplicate "Alice" name-index key makes the insert fail.
    assert!(matches!(
        users(&mut store).try_insert(OWNER, 2, row("Alice", "alice2@x.com")),
        Err(Error::NonUniqueIndexKey(_))
    ));

    // The failed insert rolled back: the index is consistent and only the original row remains.
    let index = owned_by_name(&mut store);
    assert!(index.check_consistent().is_ok());
    assert_eq!(
        index.get(&key("Alice")).unwrap(),
        (1, row("Alice", "alice1@x.com"))
    );
    assert_eq!(
        users(&mut store).get(OWNER, &1),
        Some(row("Alice", "alice1@x.com"))
    );
    assert_eq!(users(&mut store).get(OWNER, &2), None);
}

#[test]
fn raw_with_mut_collision_returns_error_and_rolls_back() {
    let mut store = new_store();
    users(&mut store).insert(OWNER, 1, row("Alice", "alice1@x.com"));
    users(&mut store).insert(OWNER, 2, row("Bob", "bob@x.com"));

    // Renaming Bob to "Alice" collides on the `name` index, so the mini-transaction fails.
    assert!(matches!(
        users(&mut store).with_mut(OWNER, &2, |r| r.name = "Alice".to_owned()),
        Err(Error::NonUniqueIndexKey(_))
    ));

    // Rolled back: Bob is unchanged and the index is consistent.
    assert_eq!(
        users(&mut store).get(OWNER, &2),
        Some(row("Bob", "bob@x.com"))
    );
    let index = owned_by_name(&mut store);
    assert!(index.check_consistent().is_ok());
    assert_eq!(index.get(&key("Bob")).unwrap(), (2, row("Bob", "bob@x.com")));
    assert_eq!(
        index.get(&key("Alice")).unwrap(),
        (1, row("Alice", "alice1@x.com"))
    );
}

// The same collision through an index.
#[test]
fn index_with_mut_collision_returns_error_and_rolls_back() {
    let mut store = new_store();
    users(&mut store).insert(OWNER, 1, row("Alice", "alice1@x.com"));
    users(&mut store).insert(OWNER, 2, row("Bob", "bob@x.com"));
    assert_eq!(
        by_name(&mut store).with_mut(OWNER, &key("Bob"), |_, r| r.email = "alice1@x.com".to_owned()),
        Err(Error::NonUniqueIndexKey("Users by email"))
    );
    assert_eq!(
        by_name(&mut store).get(OWNER, &key("Bob")).unwrap(),
        (2, row("Bob", "bob@x.com"))
    );
}

// Index keys which move from one row to another do not collide.
#[test]
fn swapping_index_keys_does_not_poison() {
    let mut store = new_store();
    users(&mut store).insert(OWNER, 1, row("Alice", "alice1@x.com"));
    users(&mut store).insert(OWNER, 2, row("Bob", "bob@x.com"));
    users(&mut store).with_iter_mut(OWNER, |rows| {
        while let Some((k, r)) = rows.next() {
            r.name = if *k == 1 { "Bob" } else { "Alice" }.to_owned();
        }
    });
    let index = owned_by_name(&mut store);
    assert_eq!(
        index.get(&key("Bob")).unwrap(),
        (1, row("Bob", "alice1@x.com"))
    );
    assert_eq!(
        index.get(&key("Alice")).unwrap(),
        (2, row("Alice", "bob@x.com"))
    );
}
