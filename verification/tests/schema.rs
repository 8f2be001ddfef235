use std::sync::Arc;
use ts_kv_store::index_list::Indexed;
use ts_kv_store::schema::{
    Here, IndexDesc, IndexKeys, KeySeq, Notifiable, RowDesc, SingletonDesc, SingletonValue,
    TableDesc, There,
};
use ts_kv_store::tables::{Singletons, Tables};
use ts_kv_store::{Index, KvStore, Owner, Singleton, Table};

// A store with four singletons.
type SingleStorage = Singletons<Foo, Singletons<Bar, Singletons<Baz, Singletons<Qux, ()>>>>;

pub struct Foo;

pub struct Bar;

pub struct Baz;

pub struct Qux;

impl SingletonValue for Foo {
    const OWNER: Owner = "owner";
    type Value = Box<u64>;
    type NotificationValue = Box<u64>;

    fn notif_value(value: &Box<u64>) -> Box<u64> {
        value.clone()
    }
}

impl SingletonDesc for Foo {
    type Storage = SingleStorage;
    type Place = Here;
}

impl SingletonValue for Bar {
    const OWNER: Owner = "owner";
    type Value = Arc<u64>;
    type NotificationValue = ();

    fn notif_value(_value: &Arc<u64>) {}
}

impl SingletonValue for Baz {
    const OWNER: Owner = "owner";
    type Value = &'static u64;
    type NotificationValue = ();

    fn notif_value(_value: &&'static u64) {}
}

impl SingletonValue for Qux {
    const OWNER: Owner = "owner";
    type Value = u64;
    type NotificationValue = ();

    fn notif_value(_value: &u64) {}
}

impl SingletonDesc for Qux {
    type Storage = SingleStorage;
    type Place = There<There<There<Here>>>;
}

#[test]
fn single() {
    let mut store: KvStore<SingleStorage> = KvStore::new();
    Singleton::<Foo>::new(&mut store).insert("owner", Box::new(42));
    assert_eq!(
        Singleton::<Foo>::new(&mut store).get("owner").unwrap(),
        Box::new(42)
    );
}

#[test]
fn singletons_are_separate() {
    let mut store: KvStore<SingleStorage> = KvStore::new();
    Singleton::<Qux>::new(&mut store).insert("owner", 7);
    assert_eq!(Singleton::<Foo>::new(&mut store).get("owner"), None);
    assert_eq!(Singleton::<Qux>::new(&mut store).get("owner"), Some(7));
    Singleton::<Qux>::new(&mut store).remove("owner");
    assert_eq!(Singleton::<Qux>::new(&mut store).get("owner"), None);
}

// A store with two tables.
type TableStorage = Tables<Names, Tables<Lists, ()>>;

pub struct Names;

pub struct Lists;

impl RowDesc for Names {
    const NAME: &'static str = "Foo";
    const OWNER: Owner = "owner";
    type Key = &'static str;
    type Value = String;
    type IndexStorage = ();

    fn value_eq(a: &String, b: &String) -> bool {
        a == b
    }
}

impl Notifiable for Names {
    type NotificationValue = String;

    fn clone_value_for_notification(value: &String) -> String {
        value.clone()
    }
}

impl TableDesc for Names {
    type Storage = TableStorage;
    type Place = Here;
}

impl RowDesc for Lists {
    const NAME: &'static str = "Bar";
    const OWNER: Owner = "owner";
    type Key = u32;
    type Value = Vec<String>;
    type IndexStorage = ();

    fn value_eq(a: &Vec<String>, b: &Vec<String>) -> bool {
        a == b
    }
}

impl Notifiable for Lists {
    type NotificationValue = ();

    fn clone_value_for_notification(_value: &Vec<String>) {}
}

impl TableDesc for Lists {
    type Storage = TableStorage;
    type Place = There<Here>;
}

#[test]
fn table() {
    let mut store: KvStore<TableStorage> = KvStore::new();

    Table::<Names>::new(&mut store).insert("owner", "hello", "world".to_owned());
    assert_eq!(
        Table::<Names>::new(&mut store).get("owner", &"hello").unwrap(),
        "world"
    );

    Table::<Lists>::new(&mut store).insert("owner", 5, vec!["boo".to_owned(), "bang".to_owned()]);
    assert_eq!(
        Table::<Lists>::new(&mut store).get("owner", &5).unwrap(),
        vec!["boo".to_owned(), "bang".to_owned()]
    );
}

#[test]
fn send_and_sync() {
    fn require_send<T: Send>(_t: T) {}
    fn require_sync<T: Sync>(_t: T) {}

    require_send(KvStore::<TableStorage>::new());
    require_sync(KvStore::<TableStorage>::new());
    assert_eq!(<Names as RowDesc>::NAME, "Foo");
    assert_eq!(<Names as RowDesc>::OWNER, "owner");
    assert_eq!(<Lists as RowDesc>::NAME, "Bar");
}

// A store with an index of its own for each of two tables.
#[derive(Clone, Debug)]
pub struct BarT {
    a: String,
}

type IndexedStorage = Tables<Words, Tables<Bars, ()>>;

pub struct Words;

pub struct WordsByLen;

pub struct Bars;

pub struct BarsByA;

impl RowDesc for Words {
    const NAME: &'static str = "Foo";
    const OWNER: Owner = "owner";
    type Key = &'static str;
    type Value = String;
    type IndexStorage = Indexed<WordsByLen, ()>;

    fn value_eq(a: &String, b: &String) -> bool {
        a == b
    }
}

impl Notifiable for Words {
    type NotificationValue = ();

    fn clone_value_for_notification(_value: &String) {}
}

impl TableDesc for Words {
    type Storage = IndexedStorage;
    type Place = Here;
}

impl IndexKeys for WordsByLen {
    const NAME: &'static str = "Foo by len";
    const ASSERT_UNIQUE: bool = false;
    type Key = usize;
    type BaseKey = &'static str;
    type Row = String;

    fn keys(_row: String) -> KeySeq<usize> {
        unreachable!()
    }

    fn index_keys(row: &String) -> Vec<usize> {
        vec![row.len()]
    }
}

impl IndexDesc for WordsByLen {
    type BaseTable = Words;
    type Place = Here;
}

impl RowDesc for Bars {
    const NAME: &'static str = "Bar";
    const OWNER: Owner = "owner";
    type Key = u32;
    type Value = BarT;
    type IndexStorage = Indexed<BarsByA, ()>;

    fn value_eq(_a: &BarT, _b: &BarT) -> bool {
        false
    }
}

impl Notifiable for Bars {
    type NotificationValue = ();

    fn clone_value_for_notification(_value: &BarT) {}
}

impl TableDesc for Bars {
    type Storage = IndexedStorage;
    type Place = There<Here>;
}

impl IndexKeys for BarsByA {
    const NAME: &'static str = "Bar by a";
    const ASSERT_UNIQUE: bool = true;
    type Key = String;
    type BaseKey = u32;
    type Row = BarT;

    fn keys(_row: BarT) -> KeySeq<String> {
        unreachable!()
    }

    fn index_keys(row: &BarT) -> Vec<String> {
        vec![row.a.clone()]
    }
}

impl IndexDesc for BarsByA {
    type BaseTable = Bars;
    type Place = Here;
}

#[test]
fn table_with_indexes() {
    let mut store: KvStore<IndexedStorage> = KvStore::new();
    Table::<Bars>::new(&mut store).insert(
        "owner",
        5,
        BarT {
            a: "hello".to_owned(),
        },
    );
    let value = Index::<BarsByA>::new(&mut store)
        .get("owner", &"hello".to_owned())
        .unwrap();
    assert_eq!(value.1.a, "hello");

    Table::<Words>::new(&mut store).insert("owner", "foo", "hello".to_owned());
    let value = Index::<WordsByLen>::new(&mut store).get("owner", &5).unwrap();
    assert_eq!(value, ("foo", "hello".to_owned()));
}
