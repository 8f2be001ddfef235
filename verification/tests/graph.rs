use ts_kv_store::graph::{
    Graph, GraphId, GraphStorage, Node, NodeIndexesWithOwner, NodeRoTransactionIndexes, NodeTransactionIndexes,
    Nodes, NodesByA, NodesByB,
};
use ts_kv_store::schema::{GeneratedStorage, GeneratedStore, IndexDesc, SingletonDesc, TableDesc};
use ts_kv_store::{
    is_owner, Error, Event, Index, IndexTransaction, KvErrorExt, Notification, SingletonEvent,
    Subscriptions,
};

const NODES: &str = "nodes";
const GRAPH: &str = "graph";

fn node(a: u32, b: Option<u64>) -> Node {
    Node { a, b }
}

fn graph(nodes: &[(u32, u32, Option<u64>)]) -> Graph {
    let mut graph = Graph::new();
    for (k, a, b) in nodes {
        graph.nodes().insert(NODES, *k, node(*a, *b));
    }
    graph
}

#[test]
fn insert_is_found_by_each_index_key() {
    let mut graph = graph(&[(1, 10, Some(100)), (2, 20, None)]);
    assert_eq!(graph.node_indexes().a().get(NODES, &10), Ok((1, node(10, Some(100)))));
    assert_eq!(graph.node_indexes().b().get(NODES, &100), Ok((1, node(10, Some(100)))));
    assert_eq!(graph.node_indexes().a().get(NODES, &20), Ok((2, node(20, None))));
    assert_eq!(graph.node_indexes().a().get(NODES, &30), Err(Error::NotPresent));
}

#[test]
fn rows_without_index_key_are_not_in_the_index() {
    let mut graph = graph(&[(1, 10, Some(100)), (2, 20, None)]);
    let listed = graph.node_indexes().b().with_iter(NODES, |i| {
        let mut listed = Vec::new();
        while let Some((k, bk, v)) = i.next() {
            listed.push((*k, *bk, *v));
        }
        listed
    });
    assert_eq!(listed, vec![(100, 1, node(10, Some(100)))]);
    let changed = graph.node_indexes().b().with_iter_mut(NODES, |rows| {
        let mut changed = Vec::new();
        while let Some((k, bk, v)) = rows.next() {
            v.a += 1;
            changed.push((*k, *bk));
        }
        changed
    });
    assert_eq!(changed, vec![(100, 1)]);
    assert_eq!(graph.nodes().get(NODES, &1), Some(node(11, Some(100))));
    assert_eq!(graph.nodes().get(NODES, &2), Some(node(20, None)));
}

#[test]
fn replacing_a_row_replaces_its_index_keys() {
    let mut graph = graph(&[(1, 10, Some(100))]);
    graph.nodes().insert(NODES, 1, node(11, None));
    assert_eq!(graph.node_indexes().a().get(NODES, &10), Err(Error::NotPresent));
    assert_eq!(graph.node_indexes().b().get(NODES, &100), Err(Error::NotPresent));
    assert_eq!(graph.node_indexes().a().get(NODES, &11), Ok((1, node(11, None))));
    assert_eq!(graph.nodes().len(), 1);
}

#[test]
fn inserting_leaves_other_rows() {
    let mut graph = graph(&[(1, 10, Some(100))]);
    graph.nodes().insert(NODES, 2, node(20, Some(200)));
    assert_eq!(graph.node_indexes().b().get(NODES, &100), Ok((1, node(10, Some(100)))));
}

#[test]
fn removing_via_one_index_removes_from_the_other() {
    let mut graph = graph(&[(1, 10, Some(100)), (2, 20, Some(200))]);
    graph.node_indexes().b().remove(NODES, &100);
    assert_eq!(graph.nodes().get(NODES, &1), None);
    assert_eq!(graph.node_indexes().a().get(NODES, &10), Err(Error::NotPresent));
    assert_eq!(graph.node_indexes().a().get(NODES, &20), Ok((2, node(20, Some(200)))));
    // A key that is not there removes nothing.
    graph.node_indexes().b().remove(NODES, &100);
    assert_eq!(graph.nodes().len(), 1);
}

#[test]
fn changing_via_one_index_is_visible_via_the_other() {
    let mut graph = graph(&[(1, 10, Some(100))]);
    let r = graph.node_indexes().b().with_mut(NODES, &100, |k, v| {
        v.a = 11;
        *k
    });
    assert_eq!(r, Ok(1));
    assert_eq!(graph.node_indexes().a().get(NODES, &10), Err(Error::NotPresent));
    assert_eq!(graph.node_indexes().a().get(NODES, &11), Ok((1, node(11, Some(100)))));
}

#[test]
fn a_collision_poisons_only_its_index() {
    let mut graph = graph(&[(1, 10, Some(100))]);
    let mut txn = graph.store_mut().begin_transaction(NODES);
    let mut nodes = txn.table::<Nodes>();
    nodes.insert(2, node(10, Some(200)));
    let mut indexes = NodeTransactionIndexes::from(nodes);
    assert_eq!(
        indexes.a().check_consistent(),
        Err(Error::NonUniqueIndexKey("Nodes by a"))
    );
    assert_eq!(indexes.a().get(&10), Err(Error::NonUniqueIndexKey("Nodes by a")));
    assert_eq!(indexes.b().check_consistent(), Ok(()));
    assert_eq!(indexes.b().get(&200), Ok((2, node(10, Some(200)))));
    assert_eq!(txn.commit(), Err(Error::NonUniqueIndexKey("Nodes by a")));
    assert_eq!(graph.nodes().len(), 1);
    assert_eq!(graph.node_indexes().a().get(NODES, &10), Ok((1, node(10, Some(100)))));
}

#[test]
fn removing_a_row_does_not_unpoison() {
    let mut graph = graph(&[(1, 10, None)]);
    let mut txn = graph.store_mut().begin_transaction(NODES);
    let mut nodes = txn.table::<Nodes>();
    nodes.insert(2, node(10, None));
    nodes.remove(&2);
    assert_eq!(
        IndexTransaction::<NodesByA>::new(&mut nodes).check_consistent(),
        Err(Error::NonUniqueIndexKey("Nodes by a"))
    );
    nodes.clear();
    let index = IndexTransaction::<NodesByA>::new(&mut nodes);
    assert_eq!(index.check_consistent(), Ok(()));
    assert_eq!(index.get(&10), Err(Error::NotPresent));
    assert_eq!(txn.commit(), Ok(()));
    assert!(graph.nodes().is_empty());
}

#[test]
fn removing_via_a_poisoned_index_removes_the_row_it_leads_to() {
    let mut graph = graph(&[(1, 10, None)]);
    let mut txn = graph.store_mut().begin_transaction(NODES);
    let mut nodes = txn.table::<Nodes>();
    nodes.insert(2, node(10, None));
    IndexTransaction::<NodesByA>::new(&mut nodes).remove(&10);
    assert_eq!(nodes.get(&1), None);
    assert_eq!(nodes.get(&2), Some(node(10, None)));
}

#[test]
fn tables_and_singletons_are_separate() {
    let mut graph = graph(&[(1, 10, None)]);
    graph.graph_id().insert(GRAPH, 7);
    assert_eq!(graph.nodes().get(NODES, &1), Some(node(10, None)));
    graph.nodes().clear(NODES);
    assert_eq!(graph.graph_id().get(GRAPH), Some(7));
    graph.graph_id().remove(GRAPH);
    assert_eq!(graph.graph_id().get(GRAPH), None);
}

#[test]
fn a_dropped_transaction_changes_nothing() {
    let mut graph = graph(&[(1, 10, Some(100))]);
    {
        let mut txn = graph.store_mut().begin_transaction(NODES);
        let mut nodes = txn.table::<Nodes>();
        nodes.remove(&1);
        nodes.insert(3, node(30, None));
        assert_eq!(nodes.len(), 1);
    }
    assert_eq!(graph.nodes().get(NODES, &1), Some(node(10, Some(100))));
    assert_eq!(graph.nodes().get(NODES, &3), None);
    // The next transaction does not see any of it either.
    let mut txn = graph.store_mut().begin_transaction(NODES);
    assert_eq!(txn.table::<Nodes>().len(), 1);
    assert_eq!(txn.table::<Nodes>().get(&1), Some(node(10, Some(100))));
}

#[test]
fn a_rolled_back_transaction_changes_nothing() {
    let mut graph = graph(&[(1, 10, Some(100))]);
    let mut txn = graph.store_mut().begin_transaction(NODES);
    txn.table::<Nodes>().clear();
    txn.rollback();
    assert_eq!(graph.node_indexes().b().get(NODES, &100), Ok((1, node(10, Some(100)))));
}

#[test]
fn a_transaction_commits_tables_and_singletons_together() {
    let mut graph = graph(&[]);
    let mut txn = graph.store_mut().begin_transaction(GRAPH);
    let mut id = txn.singleton::<GraphId>();
    assert_eq!(id.get(), None);
    assert_eq!(id.with_mut(|v| *v), None);
    id.insert(5);
    assert_eq!(id.with_mut(|v| std::mem::replace(v, 6)), Some(5));
    assert_eq!(id.with(|v| *v), Some(6));
    assert_eq!(txn.commit(), Ok(()));
    let txn = graph.store().begin_ro_transaction(GRAPH);
    assert_eq!(txn.singleton::<GraphId>().get(), Some(6));
    assert_eq!(txn.singleton::<GraphId>().with(|v| *v + 1), Some(7));
    assert_eq!(txn.commit(), Ok(()));
}

#[test]
fn table_iterators_yield_each_row() {
    let mut graph = graph(&[(1, 10, None), (2, 20, None)]);
    let mut txn = graph.store_mut().begin_transaction(NODES);
    let mut nodes = txn.table::<Nodes>();
    nodes.insert(3, node(30, None));
    let mut rows = Vec::new();
    let mut iter = nodes.iter();
    while let Some((k, v)) = iter.next() {
        rows.push((*k, v.a));
    }
    rows.sort();
    assert_eq!(rows, vec![(1, 10), (2, 20), (3, 30)]);
    let mut keys = Vec::new();
    let mut iter = nodes.keys();
    while let Some(k) = iter.next() {
        keys.push(*k);
    }
    keys.sort();
    assert_eq!(keys, vec![1, 2, 3]);
    let mut values = Vec::new();
    let mut iter = nodes.values();
    while let Some(v) = iter.next() {
        values.push(v.a);
    }
    values.sort();
    assert_eq!(values, vec![10, 20, 30]);
    assert!(iter.next().is_none());
    assert_eq!(nodes.with(&2, |v| v.a), Some(20));
    assert_eq!(nodes.with(&4, |v| v.a), None);
}

#[test]
fn ro_transactions_see_the_committed_state() {
    let graph = graph(&[(1, 10, Some(100)), (2, 20, None)]);
    let txn = graph.store().begin_ro_transaction(NODES);
    let nodes = txn.table::<Nodes>();
    assert_eq!(nodes.len(), 2);
    assert!(!nodes.is_empty());
    assert_eq!(nodes.get(&1), Some(node(10, Some(100))));
    assert_eq!(nodes.with(&2, |v| v.a), Some(20));
    // Both indexes can be used at once.
    let indexes = NodeRoTransactionIndexes::from(nodes);
    let (a, b) = (indexes.a(), indexes.b());
    assert_eq!(a.get(&20), Ok((2, node(20, None))));
    assert_eq!(b.get(&100), Ok((1, node(10, Some(100)))));
    assert_eq!(b.with(&100, |k, v| (*k, v.a)), Ok((1, 10)));
    assert_eq!(b.with(&101, |k, v| (*k, v.a)), Err(Error::NotPresent));
    assert_eq!(a.check_consistent(), Ok(()));
    let mut keys = Vec::new();
    let mut iter = b.keys();
    while let Some(k) = iter.next() {
        keys.push(*k);
    }
    assert_eq!(keys, vec![100]);
}

#[test]
fn indexes_with_owner() {
    let mut graph = graph(&[(1, 10, Some(100))]);
    let mut indexes = NodeIndexesWithOwner::from((graph.store_mut(), NODES));
    assert_eq!(indexes.a().with(&10, |k, v| (*k, v.b)), Ok((1, Some(100))));
    assert_eq!(indexes.b().with_mut(&100, |_, v| v.a = 12), Ok(()));
    assert_eq!(indexes.a().get(&12), Ok((1, node(12, Some(100)))));
    indexes.a().with_iter_mut(|rows| {
        while let Some((_, _, v)) = rows.next() {
            v.b = None;
        }
    });
    assert_eq!(indexes.b().get(&100), Err(Error::NotPresent));
    assert_eq!(indexes.b().check_consistent(), Ok(()));
    indexes.a().remove(&12);
    assert!(graph.nodes().is_empty());
}

#[test]
fn with_mut_of_a_missing_row() {
    let mut graph = graph(&[]);
    assert_eq!(graph.nodes().with_mut(NODES, &1, |v| v.a), Err(Error::NotPresent));
    assert_eq!(
        Index::<NodesByB>::new(graph.store_mut()).with_mut(NODES, &1, |_, v| v.a),
        Err(Error::NotPresent)
    );
}

#[test]
fn changes_are_reported_to_subscribers() {
    let mut graph = graph(&[(1, 10, None), (2, 20, None)]);
    // Nobody was subscribed.
    assert_eq!(graph.store_mut().take_notifications().len(), 0);

    let subscriber = graph.store_mut().register_subscriber();
    let subscription = graph.store_mut().subscribe_global(subscriber).unwrap();
    let mut txn = graph.store_mut().begin_transaction(NODES);
    let mut nodes = txn.table::<Nodes>();
    nodes.remove(&1);
    nodes.insert(3, node(30, None));
    // A value which is not changed is not reported.
    nodes.with_mut(&2, |v| v.a = 20);
    txn.commit().unwrap();
    let mut changes = Vec::new();
    for n in graph.store_mut().take_notifications() {
        match n {
            Notification::This(Event { key, value }) => changes.push((key, value)),
            Notification::Other(_) => unreachable!(),
        }
    }
    changes.sort_by_key(|c| c.0);
    assert_eq!(changes, vec![(1, None), (3, Some(node(30, None)))]);
    assert_eq!(graph.store_mut().take_notifications().len(), 0);

    graph.graph_id().insert(GRAPH, 9);
    let notifications = graph.store_mut().take_notifications();
    assert_eq!(notifications.len(), 1);
    assert!(matches!(
        notifications[0],
        Notification::Other(Notification::This(SingletonEvent { value: Some(()) }))
    ));

    graph.store_mut().unsubscribe_global(subscription);
    graph.nodes().clear(NODES);
    assert_eq!(graph.store_mut().take_notifications().len(), 0);
}

#[test]
fn failed_and_dropped_transactions_report_nothing() {
    let mut graph = graph(&[(1, 10, None)]);
    let subscriber = graph.store_mut().register_subscriber();
    graph.store_mut().subscribe_global(subscriber).unwrap();
    assert!(graph.nodes().try_insert(NODES, 2, node(10, None)).is_err());
    {
        let mut txn = graph.store_mut().begin_transaction(NODES);
        txn.table::<Nodes>().clear();
    }
    assert_eq!(graph.store_mut().take_notifications().len(), 0);
}

#[test]
fn removed_subscribers_cannot_subscribe() {
    let mut graph = graph(&[]);
    let first = graph.store_mut().register_subscriber();
    let second = graph.store_mut().register_subscriber();
    assert_ne!(first, second);
    let old = graph.store_mut().subscribe_global(first).unwrap();
    graph.store_mut().remove_subscriber(first);
    assert_eq!(
        graph.store_mut().subscribe_global(first),
        Err(Error::UnknownSubscriber)
    );
    // It is not notified any more.
    graph.nodes().insert(NODES, 1, node(10, None));
    assert_eq!(graph.store_mut().take_notifications().len(), 0);
    // Removing it again, or its subscription, does nothing.
    graph.store_mut().remove_subscriber(first);
    graph.store_mut().unsubscribe_global(old);
    assert!(graph.store_mut().subscribe_global(second).is_ok());
    // Ids are not used again.
    let third = graph.store_mut().register_subscriber();
    assert_ne!(third, first);
    assert!(graph.store().has_txns_left());
}

#[test]
fn errors_as_options() {
    let missing: Result<u32, Error> = Err(Error::NotPresent);
    let poisoned: Result<u32, Error> = Err(Error::NonUniqueIndexKey("Nodes by a"));
    let present: Result<u32, Error> = Ok(1);
    assert!(missing.is_none() && !missing.is_some());
    assert!(!poisoned.is_none() && !poisoned.is_some());
    assert!(!present.is_none() && present.is_some());
    assert_eq!(missing.unwrap_opt(), None);
    assert_eq!(present.unwrap_opt(), Some(1));
}

#[test]
fn owners_are_compared_by_name() {
    assert!(is_owner("nodes", "nodes"));
    assert!(is_owner("", ""));
    assert!(!is_owner("nodes", "node"));
    assert!(!is_owner("node", "nodes"));
    assert!(!is_owner("nodes", "nodez"));
    assert!(is_owner("Knöten", "Knöten"));
    assert!(!is_owner("Knöten", "Knoten"));
}

#[test]
fn storage_commits_all_or_nothing() {
    let mut storage = GraphStorage::new();
    let subscriptions = Subscriptions::new();
    let mut notifications = Vec::new();

    Nodes::table_mut(&mut storage).insert(1, node(10, None), 1);
    GraphId::get_mut(&mut storage).set(Some(5), 1);
    assert_eq!(GraphId::get_cloned(&storage, 0), None);
    assert_eq!(GraphId::get_cloned(&storage, 1), Some(()));
    assert_eq!(storage.commit_txn(1, &mut notifications, &subscriptions), Ok(()));
    assert!(notifications.is_empty());

    // A collision of two nodes: nothing of the transaction is committed.
    Nodes::table_mut(&mut storage).insert(2, node(10, None), 2);
    GraphId::get_mut(&mut storage).set(None, 2);
    assert_eq!(
        storage.check_txn_consistency(2),
        Err(Error::NonUniqueIndexKey("Nodes by a"))
    );
    assert_eq!(
        storage.commit_txn(2, &mut notifications, &subscriptions),
        Err(Error::NonUniqueIndexKey("Nodes by a"))
    );
    storage.gc_txn(2);
    assert_eq!(storage.check_txn_consistency(2), Ok(()));
    assert_eq!(GraphId::get_cloned(&storage, 2), Some(()));
    assert_eq!(Nodes::get_table(&storage).get(&1, 2), Some(&node(10, None)));
    assert_eq!(Nodes::get_table(&storage).get(&2, 2), None);
    assert_eq!(NodesByA::index(Nodes::get_table(&storage)).get(&10, 2), Some(&1));
}

#[test]
fn with_iter_mut_leaves_rows_alone_which_are_not_taken() {
    let mut graph = graph(&[(1, 10, None), (2, 20, None)]);
    let subscriber = graph.store_mut().register_subscriber();
    graph.store_mut().subscribe_global(subscriber).unwrap();
    let taken = graph.nodes().with_iter_mut(NODES, |i| {
        let (k, v) = i.next().unwrap();
        assert_eq!(i.remaining(), 1);
        v.a += 5;
        *k
    });
    let changed = node(taken * 10 + 5, None);
    assert_eq!(graph.nodes().get(NODES, &taken), Some(changed));
    assert_eq!(graph.nodes().get(NODES, &(3 - taken)), Some(node((3 - taken) * 10, None)));
    assert_eq!(
        graph.store_mut().take_notifications(),
        vec![Notification::This(Event { key: taken, value: Some(changed) })]
    );
}

#[test]
fn entries_of_rows_which_are_not_taken_stay_in_a_poisoned_index() {
    let mut graph = graph(&[(1, 10, None), (2, 20, None)]);
    let mut txn = graph.store_mut().begin_transaction(NODES);
    let mut nodes = txn.table::<Nodes>();
    let taken = IndexTransaction::<NodesByA>::new(&mut nodes).with_iter_mut(|i| {
        let (_, k, v) = i.next().unwrap();
        // The index key of the other row.
        v.a = (3 - *k) * 10;
        *k
    });
    let other = 3 - taken;
    let mut index = IndexTransaction::<NodesByA>::new(&mut nodes);
    assert!(index.check_consistent().is_err());
    // The entry still leads to the other row.
    index.remove(&(other * 10));
    assert_eq!(nodes.get(&other), None);
    assert_eq!(nodes.get(&taken), Some(node(other * 10, None)));
}

#[test]
fn inserting_an_equal_row_is_reported() {
    let mut graph = graph(&[(1, 10, None)]);
    let subscriber = graph.store_mut().register_subscriber();
    graph.store_mut().subscribe_global(subscriber).unwrap();
    graph.nodes().with_mut(NODES, &1, |v| v.a = 10).unwrap();
    assert_eq!(graph.store_mut().take_notifications(), vec![]);
    graph.nodes().insert(NODES, 1, node(10, None));
    assert_eq!(
        graph.store_mut().take_notifications(),
        vec![Notification::This(Event { key: 1, value: Some(node(10, None)) })]
    );
    // A row which was assigned and then changed back is reported as well.
    let mut txn = graph.store_mut().begin_transaction(NODES);
    let mut nodes = txn.table::<Nodes>();
    nodes.insert(1, node(11, None));
    nodes.with_mut(&1, |v| v.a = 10);
    // One which was inserted and removed again is not.
    nodes.insert(2, node(20, None));
    nodes.remove(&2);
    txn.commit().unwrap();
    assert_eq!(
        graph.store_mut().take_notifications(),
        vec![Notification::This(Event { key: 1, value: Some(node(10, None)) })]
    );
}

#[test]
fn singletons_are_reported_before_tables() {
    let mut storage = GraphStorage::new();
    let mut subscriptions = Subscriptions::new();
    let subscriber = subscriptions.register_subscriber();
    subscriptions.subscribe_global(subscriber).unwrap();
    let mut notifications = Vec::new();
    Nodes::table_mut(&mut storage).insert(1, node(10, None), 1);
    GraphId::get_mut(&mut storage).set(Some(5), 1);
    storage.commit_txn(1, &mut notifications, &subscriptions).unwrap();
    assert_eq!(
        notifications,
        vec![
            Notification::Other(Notification::This(SingletonEvent { value: Some(()) })),
            Notification::This(Event { key: 1, value: Some(node(10, None)) }),
        ]
    );
    // A singleton which was not written is not reported, one which was written is.
    notifications.clear();
    Nodes::table_mut(&mut storage).remove(&1, 2);
    storage.commit_txn(2, &mut notifications, &subscriptions).unwrap();
    assert_eq!(notifications, vec![Notification::This(Event { key: 1, value: None })]);
    notifications.clear();
    GraphId::get_mut(&mut storage).set(Some(5), 3);
    storage.commit_txn(3, &mut notifications, &subscriptions).unwrap();
    assert_eq!(
        notifications,
        vec![Notification::Other(Notification::This(SingletonEvent { value: Some(()) }))]
    );
}

#[test]
fn forgetting_b_of_all_nodes() {
    let mut graph = graph(&[(1, 10, Some(100)), (2, 20, Some(200)), (3, 30, None)]);
    graph.forget_b();
    assert_eq!(graph.nodes().get(NODES, &1), Some(node(10, None)));
    assert_eq!(graph.nodes().get(NODES, &2), Some(node(20, None)));
    assert_eq!(graph.nodes().get(NODES, &3), Some(node(30, None)));
    assert_eq!(graph.node_indexes().b().get(NODES, &100), Err(Error::NotPresent));
}

#[test]
fn the_owner_carrying_accessor_does_what_the_plain_one_does() {
    let rows = [(1, 10, Some(100)), (2, 20, None)];
    let (mut plain, mut owned) = (graph(&rows), graph(&rows));
    for key in [10, 30] {
        let a = plain.node_indexes().a().with_mut(NODES, &key, |k, v| {
            v.a += 1;
            *k
        });
        let b = NodeIndexesWithOwner::from((owned.store_mut(), NODES))
            .a()
            .with_mut(&key, |k, v| {
                v.a += 1;
                *k
            });
        assert_eq!(a, b);
    }
    for key in [1, 2] {
        assert_eq!(plain.nodes().get(NODES, &key), owned.nodes().get(NODES, &key));
    }
}

#[test]
fn removing_a_row_undoes_inserting_it() {
    let mut graph = graph(&[(1, 10, Some(100))]);
    let mut txn = graph.store_mut().begin_transaction(NODES);
    let mut nodes = txn.table::<Nodes>();
    nodes.insert(2, node(20, Some(200)));
    nodes.remove(&2);
    assert_eq!(nodes.len(), 1);
    assert_eq!(nodes.get(&1), Some(node(10, Some(100))));
    assert_eq!(nodes.get(&2), None);
    let a = IndexTransaction::<NodesByA>::new(&mut nodes);
    assert_eq!(a.check_consistent(), Ok(()));
    assert_eq!(a.get(&10), Ok((1, node(10, Some(100)))));
    assert_eq!(a.get(&20), Err(Error::NotPresent));
    let b = IndexTransaction::<NodesByB>::new(&mut nodes);
    assert_eq!(b.check_consistent(), Ok(()));
    assert_eq!(b.get(&100), Ok((1, node(10, Some(100)))));
    assert_eq!(b.get(&200), Err(Error::NotPresent));
}

#[test]
fn subscriptions_are_new() {
    let mut graph = graph(&[]);
    let subscriber = graph.store_mut().register_subscriber();
    let first = graph.store_mut().subscribe_global(subscriber).unwrap();
    let second = graph.store_mut().subscribe_global(subscriber).unwrap();
    assert_ne!(first, second);
    assert!(graph.store().has_capacity());
}

#[test]
fn forgetting_b_leaves_the_id_and_the_subscriptions() {
    let mut graph = graph(&[(1, 10, Some(100)), (2, 20, None)]);
    graph.graph_id().insert(GRAPH, 7);
    let subscriber = graph.store_mut().register_subscriber();
    graph.store_mut().subscribe_global(subscriber).unwrap();
    graph.forget_b();
    assert_eq!(graph.graph_id().get(GRAPH), Some(7));
    assert_eq!(
        graph.store_mut().take_notifications(),
        vec![Notification::This(Event { key: 1, value: Some(node(10, None)) })]
    );
    graph.nodes().remove(NODES, &2);
    assert_eq!(graph.store_mut().take_notifications().len(), 1);
}
