use ts_kv_store::index_list::Indexed;
use ts_kv_store::schema::{
    Here, IndexDesc, IndexKeys, KeySeq, Notifiable, RowDesc, TableDesc, There,
};
use ts_kv_store::tables::Tables;
use ts_kv_store::{Index, IndexTransaction, KvErrorExt, KvStore, Owner, Table};

#[derive(Clone, Debug, PartialEq)]
pub struct Person {
    pub email: String,
    pub username: Vec<u8>,
}

fn person(email: &str, username: &[u8]) -> Person {
    Person {
        email: email.to_owned(),
        username: username.to_owned(),
    }
}

type Storage = Tables<People, ()>;

pub struct People;

pub struct PeopleByEmail;

pub struct PeopleByUsername;

impl RowDesc for People {
    const NAME: &'static str = "People";
    const OWNER: Owner = OWNER;
    type Key = u32;
    type Value = Person;
    type IndexStorage = Indexed<PeopleByEmail, Indexed<PeopleByUsername, ()>>;

    fn value_eq(a: &Person, b: &Person) -> bool {
        a == b
    }
}

impl Notifiable for People {
    type NotificationValue = ();

    fn clone_value_for_notification(_value: &Person) {}
}

impl TableDesc for People {
    type Storage = Storage;
    type Place = Here;
}

impl IndexKeys for PeopleByEmail {
    const NAME: &'static str = "People by email";
    const ASSERT_UNIQUE: bool = false;
    type Key = String;
    type BaseKey = u32;
    type Row = Person;

    fn keys(_row: Person) -> KeySeq<String> {
        unreachable!()
    }

    fn index_keys(row: &Person) -> Vec<String> {
        vec![row.email.clone()]
    }
}

impl IndexDesc for PeopleByEmail {
    type BaseTable = People;
    type Place = Here;
}

impl IndexKeys for PeopleByUsername {
    const NAME: &'static str = "People by username";
    const ASSERT_UNIQUE: bool = false;
    type Key = Vec<u8>;
    type BaseKey = u32;
    type Row = Person;

    fn keys(_row: Person) -> KeySeq<Vec<u8>> {
        unreachable!()
    }

    fn index_keys(row: &Person) -> Vec<Vec<u8>> {
        vec![row.username.clone()]
    }
}

impl IndexDesc for PeopleByUsername {
    type BaseTable = People;
    type Place = There<Here>;
}

const OWNER: &str = "owner";

fn new_store() -> KvStore<Storage> {
    KvStore::new()
}

fn people(store: &mut KvStore<Storage>) -> Table<'_, People> {
    Table::new(store)
}

fn by_email(store: &mut KvStore<Storage>) -> Index<'_, PeopleByEmail> {
    Index::new(store)
}

fn by_username(store: &mut KvStore<Storage>) -> Index<'_, PeopleByUsername> {
    Index::new(store)
}

fn has_email(store: &mut KvStore<Storage>, email: &str) -> bool {
    let result = by_email(store).get(OWNER, &email.to_owned());
    assert_ne!(result.is_some(), result.is_none());
    result.is_some()
}

fn has_username(store: &mut KvStore<Storage>, username: &[u8]) -> bool {
    let result = by_username(store).get(OWNER, &username.to_vec());
    assert_ne!(result.is_some(), result.is_none());
    result.is_some()
}

#[test]
fn both_indexes_queryable_after_base_insert() {
    let mut store = new_store();
    people(&mut store).insert(OWNER, 1, person("a@example.com", b"alice"));
    assert!(has_email(&mut store, "a@example.com"));
    assert!(has_username(&mut store, b"alice".as_slice()));
}

#[test]
fn each_index_returns_correct_value() {
    let mut store = new_store();
    people(&mut store).insert(OWNER, 1, person("a@example.com", b"alice"));
    people(&mut store).insert(OWNER, 2, person("b@example.com", b"bob"));

    assert_eq!(
        by_email(&mut store)
            .get(OWNER, &"a@example.com".to_owned())
            .unwrap(),
        (1, person("a@example.com", b"alice"))
    );
    assert_eq!(
        by_username(&mut store)
            .get(OWNER, &b"bob".to_vec())
            .unwrap(),
        (2, person("b@example.com", b"bob"))
    );
}

#[test]
fn base_remove_clears_both_indexes() {
    let mut store = new_store();
    people(&mut store).insert(OWNER, 1, person("a@example.com", b"alice"));
    people(&mut store).remove(OWNER, &1);
    assert!(!has_email(&mut store, "a@example.com"));
    assert!(!has_username(&mut store, b"alice".as_slice()));
}

#[test]
fn email_index_remove_clears_both_indexes() {
    let mut store = new_store();
    people(&mut store).insert(OWNER, 1, person("a@example.com", b"alice"));
    by_email(&mut store).remove(OWNER, &"a@example.com".to_owned());
    assert!(!has_email(&mut store, "a@example.com"));
    assert!(!has_username(&mut store, b"alice".as_slice()));
}

#[test]
fn username_index_remove_clears_both_indexes() {
    let mut store = new_store();
    people(&mut store).insert(OWNER, 1, person("a@example.com", b"alice"));
    by_username(&mut store).remove(OWNER, &b"alice".to_vec());
    assert!(!has_email(&mut store, "a@example.com"));
    assert!(!has_username(&mut store, b"alice".as_slice()));
}

#[test]
fn index_remove_removes_from_base_table() {
    let mut store = new_store();
    people(&mut store).insert(OWNER, 1, person("a@example.com", b"alice"));
    by_email(&mut store).remove(OWNER, &"a@example.com".to_owned());
    assert!(people(&mut store).get(OWNER, &1).is_none());
}

#[test]
fn base_clear_clears_both_indexes() {
    let mut store = new_store();
    people(&mut store).insert(OWNER, 1, person("a@example.com", b"alice"));
    people(&mut store).clear(OWNER);
    assert!(!has_email(&mut store, "a@example.com"));
    assert!(!has_username(&mut store, b"alice".as_slice()));
}

#[test]
fn table_with_iter_mut_updates_both_indexes() {
    let mut store = new_store();
    people(&mut store).insert(OWNER, 1, person("a@example.com", b"alice"));
    people(&mut store).with_iter_mut(OWNER, |i| {
        let v = &mut i.next().unwrap().1;
        v.email = "b@example.com".to_owned();
        v.username = b"bob".to_vec();
    });
    assert!(!has_email(&mut store, "a@example.com"));
    assert!(!has_username(&mut store, b"alice".as_slice()));
    assert!(has_email(&mut store, "b@example.com"));
    assert!(has_username(&mut store, b"bob".as_slice()));
}

#[test]
fn email_index_with_iter_mut_updates_both_indexes() {
    let mut store = new_store();
    people(&mut store).insert(OWNER, 1, person("a@example.com", b"alice"));
    by_email(&mut store).with_iter_mut(OWNER, |iter| {
        while let Some((_, _, v)) = iter.next() {
            v.email = "b@example.com".to_owned();
            v.username = b"bob".to_vec();
        }
    });
    assert!(!has_email(&mut store, "a@example.com"));
    assert!(!has_username(&mut store, b"alice".as_slice()));
    assert!(has_email(&mut store, "b@example.com"));
    assert!(has_username(&mut store, b"bob".as_slice()));
}

#[test]
fn both_indexes_of_one_table_are_usable_at_once() {
    let mut store = new_store();
    people(&mut store).insert(OWNER, 1, person("a@example.com", b"alice"));

    // A mutation made through one index is visible through the other.
    by_email(&mut store)
        .with_mut(OWNER, &"a@example.com".to_owned(), |_, v| {
            v.username = b"bob".to_vec();
        })
        .unwrap();
    let username = by_username(&mut store);
    assert!(username.get(OWNER, &b"alice".to_vec()).is_none());
    assert_eq!(
        username.get(OWNER, &b"bob".to_vec()).unwrap(),
        (1, person("a@example.com", b"bob"))
    );
}

#[test]
fn both_indexes_of_one_table_are_mutable_at_once_in_a_txn() {
    let mut store = new_store();
    let mut txn = store.begin_transaction(OWNER);
    let mut view = txn.table::<People>();
    view.insert(1, person("a@example.com", b"alice"));

    // A mutation made through one index is visible through the other.
    IndexTransaction::<PeopleByEmail>::new(&mut view)
        .with_mut(&"a@example.com".to_owned(), |_, v| {
            v.username = b"bob".to_vec();
        })
        .unwrap();
    let username = IndexTransaction::<PeopleByUsername>::new(&mut view);
    assert!(username.get(&b"alice".to_vec()).is_none());
    assert_eq!(
        username.get(&b"bob".to_vec()).unwrap(),
        (1, person("a@example.com", b"bob"))
    );

    txn.commit().unwrap();
    assert!(has_username(&mut store, b"bob".as_slice()));
}
