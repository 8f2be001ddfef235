//! An example schema: a graph of nodes.

use crate::accessors;
use crate::index::{Index, IndexTransaction, IndexWithOwner, RoIndexTransaction};
use crate::index_list::Indexed;
use crate::index_table;
use crate::iter;
use crate::iter::TableIterMut;
use crate::laws;
use crate::operations;
use crate::owner::Owner;
use crate::pub_sub::{Subscriber, Subscription};
use crate::schema;
use crate::schema::{
    GeneratedStorage, GeneratedStore, Here, IndexDesc, IndexKeys, IndexStorage, Indexable, Notifiable,
    RowDesc, SingletonDesc, SingletonValue, TableDesc, There,
};
use crate::storage;
use crate::storage::{Mark, TxnId};
use crate::store::KvStore;
use crate::table;
use crate::table::TableState;
use crate::tables::{Singletons, Tables};
use crate::transactions::{RoTableTransaction, TableTransaction};
use vstd::prelude::*;
use vstd::std_specs::convert::FromSpecImpl;

verus! {

/// A node of the graph.
#[derive(Clone, Copy, Debug, PartialEq, Eq, Structural)]
pub struct Node {
    pub a: u32,
    pub b: Option<u64>,
}

/// The storage of a graph.
pub type GraphStorage = Tables<Nodes, Singletons<GraphId, ()>>;

/// The indexes of nodes.
pub type NodesIndexes = Indexed<NodesByA, Indexed<NodesByB, ()>>;

/// The table of nodes.
pub struct Nodes;

/// The index of nodes by `a`.
pub struct NodesByA;

/// The index of nodes by `b`, which not every node has.
pub struct NodesByB;

/// The graph's id.
pub struct GraphId;

impl IndexKeys for NodesByA {
    const NAME: &'static str = "Nodes by a";

    const ASSERT_UNIQUE: bool = false;

    type Key = u32;

    type BaseKey = u32;

    type Row = Node;

    open spec fn keys(row: Node) -> Seq<u32> {
        seq![row.a]
    }

    fn index_keys(row: &Node) -> (r: Vec<u32>) {
        vec![row.a]
    }
}

impl IndexKeys for NodesByB {
    const NAME: &'static str = "Nodes by b";

    const ASSERT_UNIQUE: bool = true;

    type Key = u64;

    type BaseKey = u32;

    type Row = Node;

    open spec fn keys(row: Node) -> Seq<u64> {
        match row.b {
            Some(b) => seq![b],
            None => seq![],
        }
    }

    fn index_keys(row: &Node) -> (r: Vec<u64>) {
        match row.b {
            Some(b) => vec![b],
            None => Vec::new(),
        }
    }
}

impl RowDesc for Nodes {
    const NAME: &'static str = "Nodes";

    const OWNER: Owner = "nodes";

    type Key = u32;

    type Value = Node;

    type IndexStorage = NodesIndexes;

    fn value_eq(a: &Node, b: &Node) -> (r: bool)
        ensures
            r == (*a == *b),
    {
        *a == *b
    }
}

impl Notifiable for Nodes {
    type NotificationValue = Node;

    fn clone_value_for_notification(value: &Node) -> (r: Node)
        ensures
            r == *value,
    {
        *value
    }
}

impl TableDesc for Nodes {
    type Storage = GraphStorage;

    type Place = Here;
}

impl IndexDesc for NodesByA {
    type BaseTable = Nodes;

    type Place = Here;
}

impl IndexDesc for NodesByB {
    type BaseTable = Nodes;

    type Place = There<Here>;
}

impl SingletonValue for GraphId {
    const OWNER: Owner = "graph";

    type Value = u64;

    type NotificationValue = ();

    fn notif_value(value: &u64) -> (r: ()) {
    }
}

impl SingletonDesc for GraphId {
    type Storage = GraphStorage;

    type Place = There<Here>;
}

/// Access to the indexes of nodes.
pub struct NodeIndexes<'store> {
    pub store: &'store mut KvStore<GraphStorage>,
}

impl<'store> From<&'store mut KvStore<GraphStorage>> for NodeIndexes<'store> {
    fn from(store: &'store mut KvStore<GraphStorage>) -> (r: Self)
        ensures
            *r.store == *old(store),
            *final(r.store) == *final(store),
    {
        NodeIndexes { store }
    }
}

impl<'store> FromSpecImpl<&'store mut KvStore<GraphStorage>> for NodeIndexes<'store> {
    open spec fn obeys_from_spec() -> bool {
        false
    }

    open spec fn from_spec(store: &'store mut KvStore<GraphStorage>) -> Self {
        NodeIndexes { store }
    }
}

impl<'store> NodeIndexes<'store> {
    /// The index by `a`.
    pub fn a(&mut self) -> (r: Index<'_, NodesByA>)
        ensures
            *r.store == *old(self).store,
            *final(self).store == *final(r.store),
            *final(final(self).store) == *final(old(self).store),
    {
        Index::new(self.store)
    }

    /// The index by `b`.
    pub fn b(&mut self) -> (r: Index<'_, NodesByB>)
        ensures
            *r.store == *old(self).store,
            *final(self).store == *final(r.store),
            *final(final(self).store) == *final(old(self).store),
    {
        Index::new(self.store)
    }
}

/// Access to the indexes of nodes with a fixed owner.
pub struct NodeIndexesWithOwner<'store> {
    pub store: &'store mut KvStore<GraphStorage>,
    pub owner: Owner,
}

impl<'store> From<(&'store mut KvStore<GraphStorage>, Owner)> for NodeIndexesWithOwner<'store> {
    fn from(source: (&'store mut KvStore<GraphStorage>, Owner)) -> (r: Self)
        ensures
            *r.store == *old(source.0),
            *final(r.store) == *final(source.0),
            r.owner == source.1,
    {
        NodeIndexesWithOwner { store: source.0, owner: source.1 }
    }
}

impl<'store> FromSpecImpl<(&'store mut KvStore<GraphStorage>, Owner)> for NodeIndexesWithOwner<'store> {
    open spec fn obeys_from_spec() -> bool {
        false
    }

    open spec fn from_spec(source: (&'store mut KvStore<GraphStorage>, Owner)) -> Self {
        NodeIndexesWithOwner { store: source.0, owner: source.1 }
    }
}

impl<'store> NodeIndexesWithOwner<'store> {
    /// The index by `a`.
    pub fn a(&mut self) -> (r: IndexWithOwner<'_, NodesByA>)
        ensures
            *r.inner.store == *old(self).store,
            *final(self).store == *final(r.inner.store),
            *final(final(self).store) == *final(old(self).store),
            r.owner == old(self).owner,
            final(self).owner == old(self).owner,
    {
        IndexWithOwner::new(self.store, self.owner)
    }

    /// The index by `b`.
    pub fn b(&mut self) -> (r: IndexWithOwner<'_, NodesByB>)
        ensures
            *r.inner.store == *old(self).store,
            *final(self).store == *final(r.inner.store),
            *final(final(self).store) == *final(old(self).store),
            r.owner == old(self).owner,
            final(self).owner == old(self).owner,
    {
        IndexWithOwner::new(self.store, self.owner)
    }
}

/// Access to the indexes of nodes within a transaction.
pub struct NodeTransactionIndexes<'guard> {
    pub nodes: TableTransaction<'guard, Nodes>,
}

impl<'guard> From<TableTransaction<'guard, Nodes>> for NodeTransactionIndexes<'guard> {
    fn from(nodes: TableTransaction<'guard, Nodes>) -> (r: Self) {
        NodeTransactionIndexes { nodes }
    }
}

impl<'guard> FromSpecImpl<TableTransaction<'guard, Nodes>> for NodeTransactionIndexes<'guard> {
    open spec fn obeys_from_spec() -> bool {
        true
    }

    open spec fn from_spec(nodes: TableTransaction<'guard, Nodes>) -> Self {
        NodeTransactionIndexes { nodes }
    }
}

impl<'guard> NodeTransactionIndexes<'guard> {
    /// The index by `a`.
    pub fn a(&mut self) -> (r: IndexTransaction<'guard, '_, NodesByA>)
        ensures
            *r.base == old(self).nodes,
            final(self).nodes == *final(r.base),
    {
        IndexTransaction::new(&mut self.nodes)
    }

    /// The index by `b`.
    pub fn b(&mut self) -> (r: IndexTransaction<'guard, '_, NodesByB>)
        ensures
            *r.base == old(self).nodes,
            final(self).nodes == *final(r.base),
    {
        IndexTransaction::new(&mut self.nodes)
    }
}

/// Access to the indexes of nodes within a read-only transaction.
pub struct NodeRoTransactionIndexes<'guard> {
    pub nodes: RoTableTransaction<'guard, Nodes>,
}

impl<'guard> From<RoTableTransaction<'guard, Nodes>> for NodeRoTransactionIndexes<'guard> {
    fn from(nodes: RoTableTransaction<'guard, Nodes>) -> (r: Self) {
        NodeRoTransactionIndexes { nodes }
    }
}

impl<'guard> FromSpecImpl<RoTableTransaction<'guard, Nodes>> for NodeRoTransactionIndexes<'guard> {
    open spec fn obeys_from_spec() -> bool {
        true
    }

    open spec fn from_spec(nodes: RoTableTransaction<'guard, Nodes>) -> Self {
        NodeRoTransactionIndexes { nodes }
    }
}

impl<'guard> NodeRoTransactionIndexes<'guard> {
    /// The index by `a`.
    pub fn a(&self) -> (r: RoIndexTransaction<'guard, '_, NodesByA>)
        ensures
            *r.base == self.nodes,
    {
        RoIndexTransaction::new(&self.nodes)
    }

    /// The index by `b`.
    pub fn b(&self) -> (r: RoIndexTransaction<'guard, '_, NodesByB>)
        ensures
            *r.base == self.nodes,
    {
        RoIndexTransaction::new(&self.nodes)
    }
}

impl Indexable for Nodes {
    type Indexes<'store> = NodeIndexes<'store>;

    type IndexesWithOwner<'store> = NodeIndexesWithOwner<'store>;

    type TransactionIndexes<'guard> = NodeTransactionIndexes<'guard>;

    type RoTransactionIndexes<'guard> = NodeRoTransactionIndexes<'guard>;
}

/// A store which holds a graph.
pub struct Graph {
    store: KvStore<GraphStorage>,
}

impl GeneratedStore<GraphStorage> for Graph {
    closed spec fn kv_store(&self) -> KvStore<GraphStorage> {
        self.store
    }

    fn store(&self) -> (r: &KvStore<GraphStorage>) {
        &self.store
    }

    fn store_mut(&mut self) -> (r: &mut KvStore<GraphStorage>) {
        &mut self.store
    }
}

/// Whether `after` are the nodes `before` without `b`.
pub open spec fn forgotten(before: Map<u32, Node>, after: Map<u32, Node>) -> bool {
    &&& after.dom() == before.dom()
    &&& forall|k: u32| #[trigger]
        before.contains_key(k) ==> after[k] == (Node { a: before[k].a, b: None })
}

/// Whether `keys` are the keys of the nodes.
pub open spec fn covers(rows: Map<u32, Node>, keys: Seq<u32>) -> bool {
    forall|k: u32| #[trigger] rows.contains_key(k) <==> keys.contains(k)
}

/// Nodes without `b` are still identified by their index keys.
proof fn lemma_forgotten(before: Map<u32, Node>, keys: Seq<u32>, values: Seq<Node>)
    requires
        index_table::unique::<NodesByA>(before),
        keys.len() == values.len(),
        forall|k: u32| #[trigger] before.contains_key(k) ==> keys.contains(k),
        forall|i: int|
            0 <= i < values.len() ==> #[trigger] values[i] == (Node {
                a: before[keys[i]].a,
                b: None,
            }),
    ensures
        forgotten(before, table::with_values(before, keys, values)),
        table::violated::<Nodes>(table::with_values(before, keys, values)) is None,
{
    let after = table::with_values(before, keys, values);
    assert(after.dom() =~= before.dom());
    assert forall|k: u32| #[trigger] before.contains_key(k) implies after[k] == (Node {
        a: before[k].a,
        b: None,
    }) by {
        assert(values[keys.index_of(k)] == after[k]);
    }
    assert forall|k: u32, x: u32|
        before.contains_key(k) && #[trigger] NodesByA::keys(after[k]).contains(
            x,
        ) implies NodesByA::keys(before[k]).contains(x) by {
        assert(NodesByA::keys(after[k]) == NodesByA::keys(before[k]));
    }
    assert(index_table::unique::<NodesByA>(after));
    assert(index_table::unique::<NodesByB>(after));
    lemma_indexes(after);
}

/// The names and owners of the graph's tables, indexes and singletons.
pub proof fn lemma_schema()
    ensures
        <Nodes as RowDesc>::NAME@ == "Nodes"@,
        <Nodes as RowDesc>::OWNER@ == "nodes"@,
        NodesByA::NAME@ == "Nodes by a"@,
        !NodesByA::ASSERT_UNIQUE,
        NodesByB::NAME@ == "Nodes by b"@,
        NodesByB::ASSERT_UNIQUE,
        GraphId::OWNER@ == "graph"@,
        forall|node: Node| #[trigger] NodesByA::keys(node) == seq![node.a],
        forall|node: Node| node.b is Some ==> #[trigger] NodesByB::keys(node) == seq![node.b->0],
        forall|node: Node| node.b is None
            ==> #[trigger] NodesByB::keys(node) == Seq::<u64>::empty(),
{
}

/// The nodes of a graph are the rows of its table in the committed state. Those without `b` are the
/// same nodes, with the same `a`.
pub proof fn law_nodes(graph: Graph, before: Map<u32, Node>, after: Map<u32, Node>)
    ensures
        graph.rows() == schema::state_of::<Nodes>(graph.kv_store()@).rows,
        forgotten(before, after) <==> {
            &&& forall|k: u32| #[trigger] after.contains_key(k) <==> before.contains_key(k)
            &&& forall|k: u32| #[trigger]
                before.contains_key(k) ==> after[k].b is None && after[k].a == before[k].a
        },
{
    if forall|k: u32| #[trigger] after.contains_key(k) <==> before.contains_key(k) {
        assert(after.dom() =~= before.dom());
    }
    if forgotten(before, after) {
        assert forall|k: u32| #[trigger] after.contains_key(k) <==> before.contains_key(k) by {
            assert(after.dom().contains(k) <==> before.dom().contains(k));
        }
    }
}

/// What each index key of nodes has to identify.
pub proof fn lemma_indexes(rows: Map<u32, Node>)
    ensures
        table::admits::<Nodes>(rows) <==> index_table::unique::<NodesByB>(rows),
        table::violated::<Nodes>(rows) == if !index_table::unique::<NodesByA>(rows) {
            Some(NodesByA::NAME)
        } else if !index_table::unique::<NodesByB>(rows) {
            Some(NodesByB::NAME)
        } else {
            None
        },
{
    assert(NodesIndexes::admits(rows) <==> Indexed::<NodesByB, ()>::admits(rows));
    assert(NodesIndexes::violated(rows) == if index_table::unique::<NodesByA>(rows) {
        Indexed::<NodesByB, ()>::violated(rows)
    } else {
        Some(NodesByA::NAME)
    });
}

impl Graph {
    /// The nodes in the committed state.
    pub open spec fn rows(&self) -> Map<u32, Node> {
        schema::state_of::<Nodes>(self.kv_store()@).rows
    }

    /// Create a new, empty graph.
    pub fn new() -> (r: Self)
        ensures
            r.kv_store().wf(),
            r.kv_store()@ == GraphStorage::initial(),
            r.kv_store().subscriptions().registered() == Set::<Subscriber>::empty(),
            r.kv_store().subscriptions().global() == Seq::<(Subscription, Subscriber)>::empty(),
            r.kv_store().subscriptions().capacity() == u64::MAX,
            forall|s: Subscriber| !#[trigger] r.kv_store().subscriptions().issued(s),
            r.kv_store().pending().len() == 0,
            r.kv_store().txns_left() == TxnId::MAX - 1,
    {
        broadcast use vstd::std_specs::hash::group_hash_axioms;

        assert(storage::key_model::<u32>());
        assert(storage::key_model::<u64>());
        assert(NodesIndexes::key_model());
        assert(GraphStorage::key_model());
        Graph { store: KvStore::new() }
    }

    /// The nodes.
    pub fn nodes(&mut self) -> (r: accessors::Table<'_, Nodes>)
        ensures
            *r.store == old(self).kv_store(),
            final(self).kv_store() == *final(r.store),
    {
        accessors::Table::new(&mut self.store)
    }

    /// The graph's id.
    pub fn graph_id(&mut self) -> (r: accessors::Singleton<'_, GraphId>)
        ensures
            *r.store == old(self).kv_store(),
            final(self).kv_store() == *final(r.store),
    {
        accessors::Singleton::new(&mut self.store)
    }

    /// The indexes of the nodes.
    pub fn node_indexes(&mut self) -> (r: NodeIndexes<'_>)
        ensures
            *r.store == old(self).kv_store(),
            final(self).kv_store() == *final(r.store),
    {
        NodeIndexes::from(&mut self.store)
    }

    /// Take `b` from all nodes.
    pub fn forget_b(&mut self)
        requires
            old(self).kv_store().wf(),
            old(self).kv_store().txns_left() > 0,
        ensures
            forgotten(old(self).rows(), final(self).rows()),
            final(self).rows().dom() == old(self).rows().dom(),
            forall|k: u32| #[trigger]
                old(self).rows().contains_key(k)
                    ==> final(self).rows()[k].b is None && final(self).rows()[k].a == old(self).rows()[k].a,
            schema::single_of::<GraphId>(final(self).kv_store()@) == schema::single_of::<GraphId>(
                old(self).kv_store()@,
            ),
            exists|after: TableState<Nodes>|
                {
                    &&& after.rows == final(self).rows()
                    &&& after.marks == Map::new(
                        |k: u32| old(self).rows().contains_key(k),
                        |k: u32| Mark::Lent,
                    )
                    &&& #[trigger] old(self).kv_store().stepped(
                        final(self).kv_store(),
                        schema::with_state::<Nodes>(old(self).kv_store()@, after),
                    )
                },
    {
        let ghost before = self.rows();
        let ghost start = self.kv_store()@;
        let ghost state = schema::state_of::<Nodes>(start);
        let forget = |it: &mut TableIterMut<'_, Nodes>|
            ensures
                final(it).left().len() == 0,
                forall|i: int|
                    0 <= i < old(it).left().len() ==> *final((#[trigger] old(it).left()[i]).1) == (
                    Node { a: old(it).left()[i].1.a, b: None }),
            {
                let ghost all = it.left();
                let ghost mut n: int = 0;
                loop
                    invariant
                        0 <= n <= all.len(),
                        all == old(it).left(),
                        it.left() == all.skip(n),
                        forall|i: int|
                            0 <= i < n ==> *final((#[trigger] all[i]).1) == (Node {
                                a: all[i].1.a,
                                b: None,
                            }),
                    decreases all.len() - n,
                {
                    match it.next() {
                        Some((_, node)) => {
                            assert(node == all[n].1);
                            node.b = None;
                        },
                        None => return,
                    }
                    proof {
                        n = n + 1;
                    }
                }
            };
        proof {
            self.kv_store().lemma_wf();
            schema::lemma_state::<Nodes>(
                self.kv_store()@,
                schema::state_of::<Nodes>(self.kv_store()@),
            );
            schema::lemma_index::<NodesByA>(schema::state_of::<Nodes>(self.kv_store()@));
            assert forall|it: &mut TableIterMut<Nodes>, out: (), values: Seq<Node>|
                #![trigger forget.ensures((it,), out), operations::listed_keys(it.left(), values.len())]
                operations::lists_mut(it.left(), before) && forget.ensures((it,), out)
                    && values.len() == iter::taken(it.left().len(), final(it).left().len()) && (
                forall|i: int|
                    0 <= i < values.len() ==> #[trigger] values[i] == *final(it.left()[i].1))
                implies covers(
                before,
                operations::listed_keys(it.left(), values.len()),
            ) && forgotten(
                before,
                table::with_values(
                    before,
                    operations::listed_keys(it.left(), values.len()),
                    values,
                ),
            ) && table::violated::<Nodes>(
                table::with_values(
                    before,
                    operations::listed_keys(it.left(), values.len()),
                    values,
                ),
            ) is None by {
                let keys = operations::listed_keys(it.left(), values.len());
                assert forall|i: int| 0 <= i < values.len() implies #[trigger] values[i] == (Node {
                    a: before[keys[i]].a,
                    b: None,
                }) by {
                    assert(cloned(before[*it.left()[i].0], *it.left()[i].1));
                }
                assert forall|k: u32| #[trigger] before.contains_key(k) <==> keys.contains(k) by {
                    if before.contains_key(k) {
                        let i = choose|i: int|
                            0 <= i < it.left().len() && *(#[trigger] it.left()[i]).0 == k;
                        assert(keys[i] == k);
                    }
                    if keys.contains(k) {
                        let i = keys.index_of(k);
                        assert(before.contains_key(*it.left()[i].0));
                    }
                }
                lemma_forgotten(before, keys, values);
            }
        }
        self.nodes().with_iter_mut("nodes", forget);
        proof {
            let (keys, values) = choose|keys: Seq<u32>, values: Seq<Node>|
                {
                    &&& keys.len() == values.len()
                    &&& covers(before, keys)
                    &&& old(self).kv_store().stepped(
                        self.kv_store(),
                        schema::with_state::<Nodes>(start, #[trigger] state.rewrite(keys, values)),
                    )
                };
            let after = state.rewrite(keys, values);
            assert(state.marks == Map::<u32, Mark>::empty());
            schema::lemma_state::<Nodes>(start, after);
            laws::law_table_beside_singleton::<Nodes, GraphId>(start, after);
            schema::lemma_single::<GraphId>(
                schema::with_state::<Nodes>(start, after),
                schema::single_of::<GraphId>(start),
            );
            schema::lemma_single::<GraphId>(start, schema::single_of::<GraphId>(start));
            assert(after.marks =~= Map::new(|k: u32| before.contains_key(k), |k: u32| Mark::Lent));
        }
    }
}

} // verus!
