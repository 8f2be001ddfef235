//! The tables and singletons of a store.

use crate::error::Error;
use crate::events;
use crate::events::{join, Event, Notification, SingleState, SingletonEvent};
use crate::schema;
use crate::schema::{
    GeneratedStorage, HasSingleton, HasTable, Here, IndexStorage, Notifiable, Place, ReportsSingleton, ReportsTable,
    RowDesc, SingletonValue, There,
};
use crate::storage;
use crate::storage::{TxnId, VersionedValue};
use crate::table::{Table, TableState};
use vstd::prelude::*;

verus! {

/// The table `D` of a store, and the store's other tables and singletons.
///
/// A store with the tables `A` and `B` and the singleton `C` has the storage
/// `Tables<A, Tables<B, Singletons<C, ()>>>`.
#[verifier::reject_recursive_types(D)]
pub struct Tables<D: Notifiable, R> {
    pub table: Table<D>,
    pub rest: R,
}

/// The singleton `S` of a store, and the store's other tables and singletons.
#[verifier::reject_recursive_types(S)]
pub struct Singletons<S: SingletonValue, R> {
    pub single: VersionedValue<Option<S::Value>>,
    pub rest: R,
}

impl<D: Notifiable, R: GeneratedStorage> GeneratedStorage for Tables<D, R> {
    type State = (TableState<D>, R::State);

    type Notification = Notification<Event<D::Key, D::NotificationValue>, R::Notification>;

    open spec fn key_model() -> bool {
        &&& storage::key_model::<D::Key>()
        &&& <D::IndexStorage>::key_model()
        &&& R::key_model()
    }

    open spec fn wf(&self, txn_id: TxnId) -> bool {
        self.table.wf(txn_id) && self.rest.wf(txn_id)
    }

    open spec fn state(&self, txn_id: TxnId) -> Self::State {
        (self.table.state(txn_id), self.rest.state(txn_id))
    }

    open spec fn committed(&self, txn_id: TxnId) -> Self::State {
        (self.table.state(storage::prior(txn_id)), self.rest.committed(txn_id))
    }

    open spec fn settled(state: Self::State) -> Self::State {
        (state.0.settled(), R::settled(state.1))
    }

    open spec fn initial() -> Self::State {
        (TableState::empty(), R::initial())
    }

    open spec fn consistent(state: Self::State) -> bool {
        state.0.consistent() && R::consistent(state.1)
    }

    open spec fn poisoned(state: Self::State) -> Option<&'static str> {
        match state.0.poisoned() {
            Some(name) => Some(name),
            None => R::poisoned(state.1),
        }
    }

    open spec fn agree_except(a: Self::State, b: Self::State, pos: int) -> bool {
        (pos == 0 || a.0 == b.0) && R::agree_except(a.1, b.1, pos - 1)
    }

    open spec fn reports_singletons(after: Self::State, events: Seq<Self::Notification>) -> bool {
        exists|others: Seq<R::Notification>|
            {
                &&& #[trigger] events::joined(events, Seq::empty(), others)
                &&& R::reports_singletons(after.1, others)
            }
    }

    open spec fn reports_tables(
        before: Self::State,
        after: Self::State,
        events: Seq<Self::Notification>,
    ) -> bool {
        exists|
            these: Seq<Event<D::Key, D::NotificationValue>>,
            others: Seq<R::Notification>,
        |
            {
                &&& #[trigger] events::joined(events, these, others)
                &&& events::reports::<D>(before.0.rows, after.0.rows, after.0.marks, these)
                &&& R::reports_tables(before.1, after.1, others)
            }
    }

    proof fn lemma_settled(state: Self::State) {
        R::lemma_settled(state.1);
    }

    proof fn lemma_agree(state: Self::State, pos: int) {
        R::lemma_agree(state.1, pos - 1);
    }

    proof fn lemma_initial() {
        <D::IndexStorage>::lemma_empty();
        R::lemma_initial();
    }

    proof fn lemma_wf(&self, txn_id: TxnId) {
        self.rest.lemma_wf(txn_id);
    }

    fn new() -> (r: Self) {
        Tables { table: Table::new(), rest: R::new() }
    }

    fn check_txn_consistency(&self, txn_id: TxnId) -> (r: Result<(), Error>) {
        match self.table.check_txn_consistency(txn_id) {
            Ok(()) => self.rest.check_txn_consistency(txn_id),
            Err(e) => Err(e),
        }
    }

    fn singleton_events(&self, txn_id: TxnId) -> (r: Vec<Self::Notification>) {
        let others = self.rest.singleton_events(txn_id);
        let these: Vec<Event<D::Key, D::NotificationValue>> = Vec::new();
        assert(these@ =~= Seq::empty());
        join(these, others)
    }

    fn table_events(&self, txn_id: TxnId) -> (r: Vec<Self::Notification>) {
        let these = self.table.events(txn_id);
        let others = self.rest.table_events(txn_id);
        join(these, others)
    }

    fn apply_txn(&mut self, txn_id: TxnId) {
        self.table.commit(txn_id);
        self.rest.apply_txn(txn_id);
    }

    fn gc_txn(&mut self, txn_id: TxnId) {
        self.table.gc_txn(txn_id);
        self.rest.gc_txn(txn_id);
    }
}

impl<S: SingletonValue, R: GeneratedStorage> GeneratedStorage for Singletons<S, R> {
    type State = (SingleState<S::Value>, R::State);

    type Notification = Notification<SingletonEvent<S::NotificationValue>, R::Notification>;

    open spec fn key_model() -> bool {
        R::key_model()
    }

    open spec fn wf(&self, txn_id: TxnId) -> bool {
        self.single.wf(txn_id) && self.rest.wf(txn_id)
    }

    open spec fn state(&self, txn_id: TxnId) -> Self::State {
        (schema::visible(self.single, txn_id), self.rest.state(txn_id))
    }

    open spec fn committed(&self, txn_id: TxnId) -> Self::State {
        (
            schema::visible(self.single, storage::prior(txn_id)).settled(),
            self.rest.committed(txn_id),
        )
    }

    open spec fn settled(state: Self::State) -> Self::State {
        (state.0.settled(), R::settled(state.1))
    }

    open spec fn initial() -> Self::State {
        (SingleState::empty(), R::initial())
    }

    open spec fn consistent(state: Self::State) -> bool {
        R::consistent(state.1)
    }

    open spec fn poisoned(state: Self::State) -> Option<&'static str> {
        R::poisoned(state.1)
    }

    open spec fn agree_except(a: Self::State, b: Self::State, pos: int) -> bool {
        (pos == 0 || a.0 == b.0) && R::agree_except(a.1, b.1, pos - 1)
    }

    open spec fn reports_singletons(after: Self::State, events: Seq<Self::Notification>) -> bool {
        exists|
            these: Seq<SingletonEvent<S::NotificationValue>>,
            others: Seq<R::Notification>,
        |
            {
                &&& #[trigger] events::joined(events, these, others)
                &&& events::reports_single::<S>(after.0, these)
                &&& R::reports_singletons(after.1, others)
            }
    }

    open spec fn reports_tables(
        before: Self::State,
        after: Self::State,
        events: Seq<Self::Notification>,
    ) -> bool {
        exists|others: Seq<R::Notification>|
            {
                &&& #[trigger] events::joined(events, Seq::empty(), others)
                &&& R::reports_tables(before.1, after.1, others)
            }
    }

    proof fn lemma_settled(state: Self::State) {
        R::lemma_settled(state.1);
    }

    proof fn lemma_agree(state: Self::State, pos: int) {
        R::lemma_agree(state.1, pos - 1);
    }

    proof fn lemma_initial() {
        R::lemma_initial();
    }

    proof fn lemma_wf(&self, txn_id: TxnId) {
        self.rest.lemma_wf(txn_id);
    }

    fn new() -> (r: Self) {
        Singletons { single: VersionedValue::new(), rest: R::new() }
    }

    fn check_txn_consistency(&self, txn_id: TxnId) -> (r: Result<(), Error>) {
        self.rest.check_txn_consistency(txn_id)
    }

    fn singleton_events(&self, txn_id: TxnId) -> (r: Vec<Self::Notification>) {
        let mut these: Vec<SingletonEvent<S::NotificationValue>> = Vec::new();
        match self.single.modified_in_txn(txn_id) {
            Some(Some(value)) => these.push(SingletonEvent { value: Some(S::notif_value(value)) }),
            Some(None) => these.push(SingletonEvent { value: None }),
            None => {},
        }
        let others = self.rest.singleton_events(txn_id);
        join(these, others)
    }

    fn table_events(&self, txn_id: TxnId) -> (r: Vec<Self::Notification>) {
        let others = self.rest.table_events(txn_id);
        let these: Vec<SingletonEvent<S::NotificationValue>> = Vec::new();
        assert(these@ =~= Seq::empty());
        join(these, others)
    }

    fn apply_txn(&mut self, txn_id: TxnId) {
        proof {
            self.rest.lemma_wf(txn_id);
            self.single.lemma_next(txn_id);
        }
        self.rest.apply_txn(txn_id);
    }

    fn gc_txn(&mut self, txn_id: TxnId) {
        proof {
            self.rest.lemma_wf(txn_id);
        }
        self.single.gc_txn(txn_id);
        self.rest.gc_txn(txn_id);
    }
}

/// No tables and no singletons.
impl GeneratedStorage for () {
    type State = ();

    type Notification = ();

    open spec fn key_model() -> bool {
        true
    }

    open spec fn wf(&self, txn_id: TxnId) -> bool {
        txn_id > 0
    }

    open spec fn state(&self, txn_id: TxnId) -> () {
        ()
    }

    open spec fn committed(&self, txn_id: TxnId) -> () {
        ()
    }

    open spec fn settled(state: ()) -> () {
        ()
    }

    open spec fn initial() -> () {
        ()
    }

    open spec fn consistent(state: ()) -> bool {
        true
    }

    open spec fn poisoned(state: ()) -> Option<&'static str> {
        None
    }

    open spec fn agree_except(a: (), b: (), pos: int) -> bool {
        true
    }

    open spec fn reports_singletons(after: (), events: Seq<()>) -> bool {
        events.len() == 0
    }

    open spec fn reports_tables(before: (), after: (), events: Seq<()>) -> bool {
        events.len() == 0
    }

    proof fn lemma_settled(state: ()) {
    }

    proof fn lemma_agree(state: (), pos: int) {
    }

    proof fn lemma_initial() {
    }

    proof fn lemma_wf(&self, txn_id: TxnId) {
    }

    fn new() -> (r: Self) {
        ()
    }

    fn check_txn_consistency(&self, txn_id: TxnId) -> (r: Result<(), Error>) {
        Ok(())
    }

    fn singleton_events(&self, txn_id: TxnId) -> (r: Vec<()>) {
        Vec::new()
    }

    fn table_events(&self, txn_id: TxnId) -> (r: Vec<()>) {
        Vec::new()
    }

    fn apply_txn(&mut self, txn_id: TxnId) {
    }

    fn gc_txn(&mut self, txn_id: TxnId) {
    }
}

impl<D: Notifiable, R: GeneratedStorage> HasTable<D, Here> for Tables<D, R> {
    open spec fn table(self) -> Table<D> {
        self.table
    }

    open spec fn with_table(self, table: Table<D>) -> Self {
        Tables { table, rest: self.rest }
    }

    open spec fn table_state(state: Self::State) -> TableState<D> {
        state.0
    }

    open spec fn with_table_state(state: Self::State, table: TableState<D>) -> Self::State {
        (table, state.1)
    }

    proof fn lemma_table(self, txn_id: TxnId) {
    }

    proof fn lemma_with_table(self, table: Table<D>, txn_id: TxnId) {
    }

    proof fn lemma_table_state(state: Self::State, table: TableState<D>) {
        R::lemma_agree(state.1, -1);
    }

    proof fn lemma_elsewhere(a: Self::State, b: Self::State, pos: int) {
    }

    fn get_table(&self) -> (r: &Table<D>) {
        &self.table
    }

    fn table_mut(&mut self) -> (r: &mut Table<D>) {
        &mut self.table
    }
}

impl<E: Notifiable, D: RowDesc, P: Place, R: HasTable<D, P>> HasTable<D, There<P>> for Tables<E, R> {
    open spec fn table(self) -> Table<D> {
        self.rest.table()
    }

    open spec fn with_table(self, table: Table<D>) -> Self {
        Tables { table: self.table, rest: self.rest.with_table(table) }
    }

    open spec fn table_state(state: Self::State) -> TableState<D> {
        R::table_state(state.1)
    }

    open spec fn with_table_state(state: Self::State, table: TableState<D>) -> Self::State {
        (state.0, R::with_table_state(state.1, table))
    }

    proof fn lemma_table(self, txn_id: TxnId) {
        self.rest.lemma_table(txn_id);
    }

    proof fn lemma_with_table(self, table: Table<D>, txn_id: TxnId) {
        self.rest.lemma_with_table(table, txn_id);
    }

    proof fn lemma_table_state(state: Self::State, table: TableState<D>) {
        R::lemma_table_state(state.1, table);
    }

    proof fn lemma_elsewhere(a: Self::State, b: Self::State, pos: int) {
        R::lemma_elsewhere(a.1, b.1, pos - 1);
    }

    fn get_table(&self) -> (r: &Table<D>) {
        self.rest.get_table()
    }

    fn table_mut(&mut self) -> (r: &mut Table<D>) {
        self.rest.table_mut()
    }
}

impl<S: SingletonValue, D: RowDesc, P: Place, R: HasTable<D, P>> HasTable<D, There<P>> for Singletons<
    S,
    R,
> {
    open spec fn table(self) -> Table<D> {
        self.rest.table()
    }

    open spec fn with_table(self, table: Table<D>) -> Self {
        Singletons { single: self.single, rest: self.rest.with_table(table) }
    }

    open spec fn table_state(state: Self::State) -> TableState<D> {
        R::table_state(state.1)
    }

    open spec fn with_table_state(state: Self::State, table: TableState<D>) -> Self::State {
        (state.0, R::with_table_state(state.1, table))
    }

    proof fn lemma_table(self, txn_id: TxnId) {
        self.rest.lemma_table(txn_id);
    }

    proof fn lemma_with_table(self, table: Table<D>, txn_id: TxnId) {
        self.rest.lemma_with_table(table, txn_id);
    }

    proof fn lemma_table_state(state: Self::State, table: TableState<D>) {
        R::lemma_table_state(state.1, table);
    }

    proof fn lemma_elsewhere(a: Self::State, b: Self::State, pos: int) {
        R::lemma_elsewhere(a.1, b.1, pos - 1);
    }

    fn get_table(&self) -> (r: &Table<D>) {
        self.rest.get_table()
    }

    fn table_mut(&mut self) -> (r: &mut Table<D>) {
        self.rest.table_mut()
    }
}

impl<S: SingletonValue, R: GeneratedStorage> HasSingleton<S, Here> for Singletons<S, R> {
    open spec fn single(self) -> VersionedValue<Option<S::Value>> {
        self.single
    }

    open spec fn with_single(self, single: VersionedValue<Option<S::Value>>) -> Self {
        Singletons { single, rest: self.rest }
    }

    open spec fn single_state(state: Self::State) -> SingleState<S::Value> {
        state.0
    }

    open spec fn with_single_state(state: Self::State, value: SingleState<S::Value>) -> Self::State {
        (value, state.1)
    }

    proof fn lemma_single(self, txn_id: TxnId) {
    }

    proof fn lemma_with_single(self, single: VersionedValue<Option<S::Value>>, txn_id: TxnId) {
    }

    proof fn lemma_single_state(state: Self::State, value: SingleState<S::Value>) {
        R::lemma_agree(state.1, -1);
    }

    proof fn lemma_elsewhere_single(a: Self::State, b: Self::State, pos: int) {
    }

    fn get_single(&self) -> (r: &VersionedValue<Option<S::Value>>) {
        &self.single
    }

    fn single_mut(&mut self) -> (r: &mut VersionedValue<Option<S::Value>>) {
        &mut self.single
    }
}

impl<E: Notifiable, S: SingletonValue, P: Place, R: HasSingleton<S, P>> HasSingleton<
    S,
    There<P>,
> for Tables<E, R> {
    open spec fn single(self) -> VersionedValue<Option<S::Value>> {
        self.rest.single()
    }

    open spec fn with_single(self, single: VersionedValue<Option<S::Value>>) -> Self {
        Tables { table: self.table, rest: self.rest.with_single(single) }
    }

    open spec fn single_state(state: Self::State) -> SingleState<S::Value> {
        R::single_state(state.1)
    }

    open spec fn with_single_state(state: Self::State, value: SingleState<S::Value>) -> Self::State {
        (state.0, R::with_single_state(state.1, value))
    }

    proof fn lemma_single(self, txn_id: TxnId) {
        self.rest.lemma_single(txn_id);
    }

    proof fn lemma_with_single(self, single: VersionedValue<Option<S::Value>>, txn_id: TxnId) {
        self.rest.lemma_with_single(single, txn_id);
    }

    proof fn lemma_single_state(state: Self::State, value: SingleState<S::Value>) {
        R::lemma_single_state(state.1, value);
    }

    proof fn lemma_elsewhere_single(a: Self::State, b: Self::State, pos: int) {
        R::lemma_elsewhere_single(a.1, b.1, pos - 1);
    }

    fn get_single(&self) -> (r: &VersionedValue<Option<S::Value>>) {
        self.rest.get_single()
    }

    fn single_mut(&mut self) -> (r: &mut VersionedValue<Option<S::Value>>) {
        self.rest.single_mut()
    }
}

impl<E: SingletonValue, S: SingletonValue, P: Place, R: HasSingleton<S, P>> HasSingleton<
    S,
    There<P>,
> for Singletons<E, R> {
    open spec fn single(self) -> VersionedValue<Option<S::Value>> {
        self.rest.single()
    }

    open spec fn with_single(self, single: VersionedValue<Option<S::Value>>) -> Self {
        Singletons { single: self.single, rest: self.rest.with_single(single) }
    }

    open spec fn single_state(state: Self::State) -> SingleState<S::Value> {
        R::single_state(state.1)
    }

    open spec fn with_single_state(state: Self::State, value: SingleState<S::Value>) -> Self::State {
        (state.0, R::with_single_state(state.1, value))
    }

    proof fn lemma_single(self, txn_id: TxnId) {
        self.rest.lemma_single(txn_id);
    }

    proof fn lemma_with_single(self, single: VersionedValue<Option<S::Value>>, txn_id: TxnId) {
        self.rest.lemma_with_single(single, txn_id);
    }

    proof fn lemma_single_state(state: Self::State, value: SingleState<S::Value>) {
        R::lemma_single_state(state.1, value);
    }

    proof fn lemma_elsewhere_single(a: Self::State, b: Self::State, pos: int) {
        R::lemma_elsewhere_single(a.1, b.1, pos - 1);
    }

    fn get_single(&self) -> (r: &VersionedValue<Option<S::Value>>) {
        self.rest.get_single()
    }

    fn single_mut(&mut self) -> (r: &mut VersionedValue<Option<S::Value>>) {
        self.rest.single_mut()
    }
}

impl<D: Notifiable, R: GeneratedStorage> ReportsTable<D, Here> for Tables<D, R> {
    open spec fn notification(event: Event<D::Key, D::NotificationValue>) -> Self::Notification {
        Notification::This(event)
    }

    proof fn lemma_notification(
        a: Event<D::Key, D::NotificationValue>,
        b: Event<D::Key, D::NotificationValue>,
    ) {
    }

    proof fn lemma_reported(
        before: Self::State,
        after: Self::State,
        events: Seq<Self::Notification>,
        key: D::Key,
    ) -> (r: (int, Event<D::Key, D::NotificationValue>)) {
        let (these, others) = Self::lemma_split(before, after, events);
        let i = choose|i: int| 0 <= i < these.len() && (#[trigger] these[i]).key == key;
        (i, these[i])
    }

    proof fn lemma_report(
        before: Self::State,
        after: Self::State,
        events: Seq<Self::Notification>,
        i: int,
        event: Event<D::Key, D::NotificationValue>,
    ) {
        let (these, others) = Self::lemma_split(before, after, events);
        if i >= these.len() {
            assert(events[i]
                == Notification::<Event<D::Key, D::NotificationValue>, R::Notification>::Other(others[i - these.len()]));
        }
        assert(these[i] == event);
        assert forall|j: int, other: Event<D::Key, D::NotificationValue>|
            0 <= j < events.len() && j != i
                && #[trigger] events[j] == #[trigger] Self::notification(
                other,
            ) implies other.key != event.key by {
            if j >= these.len() {
                assert(events[j]
                    == Notification::<Event<D::Key, D::NotificationValue>, R::Notification>::Other(others[j - these.len()]));
            }
            assert(these[j] == other);
        }
    }

    fn make_notification(event: Event<D::Key, D::NotificationValue>) -> (r: Self::Notification) {
        Notification::This(event)
    }
}

impl<D: Notifiable, R: GeneratedStorage> Tables<D, R> {
    /// The events of the first table, and those of the others.
    proof fn lemma_split(
        before: (TableState<D>, R::State),
        after: (TableState<D>, R::State),
        events: Seq<Notification<Event<D::Key, D::NotificationValue>, R::Notification>>,
    ) -> (r: (Seq<Event<D::Key, D::NotificationValue>>, Seq<R::Notification>))
        requires
            Self::reports_tables(before, after, events),
        ensures
            events::joined(events, r.0, r.1),
            events::reports::<D>(before.0.rows, after.0.rows, after.0.marks, r.0),
            R::reports_tables(before.1, after.1, r.1),
            events.len() == r.0.len() + r.1.len(),
            forall|i: int|
                0 <= i < r.0.len() ==> #[trigger] events[i] == Notification::<
                    Event<D::Key, D::NotificationValue>,
                    R::Notification,
                >::This(r.0[i]),
            forall|j: int|
                0 <= j < r.1.len() ==> events[r.0.len() + j] == Notification::<
                    Event<D::Key, D::NotificationValue>,
                    R::Notification,
                >::Other(#[trigger] r.1[j]),
    {
        choose|these: Seq<Event<D::Key, D::NotificationValue>>, others: Seq<R::Notification>|
            {
                &&& #[trigger] events::joined(events, these, others)
                &&& events::reports::<D>(before.0.rows, after.0.rows, after.0.marks, these)
                &&& R::reports_tables(before.1, after.1, others)
            }
    }
}

impl<E: Notifiable, D: Notifiable, P: Place, R: ReportsTable<D, P>> ReportsTable<
    D,
    There<P>,
> for Tables<E, R> {
    open spec fn notification(event: Event<D::Key, D::NotificationValue>) -> Self::Notification {
        Notification::Other(R::notification(event))
    }

    proof fn lemma_notification(
        a: Event<D::Key, D::NotificationValue>,
        b: Event<D::Key, D::NotificationValue>,
    ) {
        R::lemma_notification(a, b);
    }

    proof fn lemma_reported(
        before: Self::State,
        after: Self::State,
        events: Seq<Self::Notification>,
        key: D::Key,
    ) -> (r: (int, Event<D::Key, D::NotificationValue>)) {
        let (these, others) = Self::lemma_split(before, after, events);
        let n = these.len() as int;
        assert forall|j: int| n <= j < events.len() implies #[trigger] events[j] == Notification::<
            Event<E::Key, E::NotificationValue>,
            R::Notification,
        >::Other(others[j - n]) by {
            assert(others[j - n] == others[j - n]);
        }
        let (i, event) = R::lemma_reported(before.1, after.1, others, key);
        (n + i, event)
    }

    proof fn lemma_report(
        before: Self::State,
        after: Self::State,
        events: Seq<Self::Notification>,
        i: int,
        event: Event<D::Key, D::NotificationValue>,
    ) {
        let (these, others) = Self::lemma_split(before, after, events);
        let n = these.len() as int;
        assert forall|j: int| n <= j < events.len() implies #[trigger] events[j] == Notification::<
            Event<E::Key, E::NotificationValue>,
            R::Notification,
        >::Other(others[j - n]) by {
            assert(others[j - n] == others[j - n]);
        }
        assert(i >= n && others[i - n] == R::notification(event));
        R::lemma_report(before.1, after.1, others, i - n, event);
        assert forall|j: int, other: Event<D::Key, D::NotificationValue>|
            0 <= j < events.len() && j != i
                && #[trigger] events[j] == #[trigger] <Self as ReportsTable<D, There<P>>>::notification(
                other,
            ) implies other.key != event.key by {
            assert(j >= n && others[j - n] == R::notification(other));
        }
    }

    fn make_notification(event: Event<D::Key, D::NotificationValue>) -> (r: Self::Notification) {
        Notification::Other(R::make_notification(event))
    }
}

impl<S: SingletonValue, D: Notifiable, P: Place, R: ReportsTable<D, P>> ReportsTable<
    D,
    There<P>,
> for Singletons<S, R> {
    open spec fn notification(event: Event<D::Key, D::NotificationValue>) -> Self::Notification {
        Notification::Other(R::notification(event))
    }

    proof fn lemma_notification(
        a: Event<D::Key, D::NotificationValue>,
        b: Event<D::Key, D::NotificationValue>,
    ) {
        R::lemma_notification(a, b);
    }

    proof fn lemma_reported(
        before: Self::State,
        after: Self::State,
        events: Seq<Self::Notification>,
        key: D::Key,
    ) -> (r: (int, Event<D::Key, D::NotificationValue>)) {
        let others = Self::lemma_rest(before, after, events);
        let n: int = 0;
        let (i, event) = R::lemma_reported(before.1, after.1, others, key);
        (n + i, event)
    }

    proof fn lemma_report(
        before: Self::State,
        after: Self::State,
        events: Seq<Self::Notification>,
        i: int,
        event: Event<D::Key, D::NotificationValue>,
    ) {
        let others = Self::lemma_rest(before, after, events);
        let n: int = 0;
        assert(i >= n && others[i - n] == R::notification(event));
        R::lemma_report(before.1, after.1, others, i - n, event);
        assert forall|j: int, other: Event<D::Key, D::NotificationValue>|
            0 <= j < events.len() && j != i
                && #[trigger] events[j] == #[trigger] <Self as ReportsTable<D, There<P>>>::notification(
                other,
            ) implies other.key != event.key by {
            assert(j >= n && others[j - n] == R::notification(other));
        }
    }

    fn make_notification(event: Event<D::Key, D::NotificationValue>) -> (r: Self::Notification) {
        Notification::Other(R::make_notification(event))
    }
}

impl<S: SingletonValue, R: GeneratedStorage> Singletons<S, R> {
    /// The events of the tables.
    proof fn lemma_rest(
        before: (SingleState<S::Value>, R::State),
        after: (SingleState<S::Value>, R::State),
        events: Seq<Notification<SingletonEvent<S::NotificationValue>, R::Notification>>,
    ) -> (others: Seq<R::Notification>)
        requires
            Self::reports_tables(before, after, events),
        ensures
            R::reports_tables(before.1, after.1, others),
            events.len() == others.len(),
            forall|j: int|
                0 <= j < others.len() ==> #[trigger] events[j] == Notification::<
                    SingletonEvent<S::NotificationValue>,
                    R::Notification,
                >::Other(others[j]),
    {
        choose|others: Seq<R::Notification>|
            {
                &&& #[trigger] events::joined(events, Seq::empty(), others)
                &&& R::reports_tables(before.1, after.1, others)
            }
    }

    /// The events of the first singleton, and those of the others.
    proof fn lemma_split(
        after: (SingleState<S::Value>, R::State),
        events: Seq<Notification<SingletonEvent<S::NotificationValue>, R::Notification>>,
    ) -> (r: (Seq<SingletonEvent<S::NotificationValue>>, Seq<R::Notification>))
        requires
            Self::reports_singletons(after, events),
        ensures
            events::reports_single::<S>(after.0, r.0),
            R::reports_singletons(after.1, r.1),
            events.len() == r.0.len() + r.1.len(),
            forall|j: int|
                0 <= j < r.0.len() ==> #[trigger] events[j] == Notification::<
                    SingletonEvent<S::NotificationValue>,
                    R::Notification,
                >::This(r.0[j]),
            forall|j: int|
                r.0.len() <= j < events.len() ==> #[trigger] events[j] == Notification::<
                    SingletonEvent<S::NotificationValue>,
                    R::Notification,
                >::Other(r.1[j - r.0.len()]),
    {
        choose|these: Seq<SingletonEvent<S::NotificationValue>>, others: Seq<R::Notification>|
            {
                &&& #[trigger] events::joined(events, these, others)
                &&& events::reports_single::<S>(after.0, these)
                &&& R::reports_singletons(after.1, others)
            }
    }
}

impl<E: Notifiable, R: GeneratedStorage> Tables<E, R> {
    /// The events of the singletons.
    proof fn lemma_rest(
        after: (TableState<E>, R::State),
        events: Seq<Notification<Event<E::Key, E::NotificationValue>, R::Notification>>,
    ) -> (others: Seq<R::Notification>)
        requires
            Self::reports_singletons(after, events),
        ensures
            R::reports_singletons(after.1, others),
            events.len() == others.len(),
            forall|j: int|
                0 <= j < others.len() ==> #[trigger] events[j] == Notification::<
                    Event<E::Key, E::NotificationValue>,
                    R::Notification,
                >::Other(others[j]),
    {
        choose|others: Seq<R::Notification>|
            {
                &&& #[trigger] events::joined(events, Seq::empty(), others)
                &&& R::reports_singletons(after.1, others)
            }
    }
}

impl<S: SingletonValue, R: GeneratedStorage> ReportsSingleton<S, Here> for Singletons<S, R> {
    open spec fn single_notification(
        event: SingletonEvent<S::NotificationValue>,
    ) -> Self::Notification {
        Notification::This(event)
    }

    proof fn lemma_single_reported(after: Self::State, events: Seq<Self::Notification>) -> (r: (
        int,
        SingletonEvent<S::NotificationValue>,
    )) {
        let (these, others) = Self::lemma_split(after, events);
        assert forall|i: int, event: SingletonEvent<S::NotificationValue>|
            0 <= i < events.len() && #[trigger] events[i] == #[trigger] Self::single_notification(
                event,
            ) implies after.0.written && i == 0 by {
            if i >= these.len() {
                assert(events[i] is Other);
            }
        }
        (0, these[0])
    }

    fn make_single_notification(event: SingletonEvent<S::NotificationValue>) -> (r:
        Self::Notification) {
        Notification::This(event)
    }
}

impl<E: Notifiable, S: SingletonValue, P: Place, R: ReportsSingleton<S, P>> ReportsSingleton<
    S,
    There<P>,
> for Tables<E, R> {
    open spec fn single_notification(
        event: SingletonEvent<S::NotificationValue>,
    ) -> Self::Notification {
        Notification::Other(R::single_notification(event))
    }

    proof fn lemma_single_reported(after: Self::State, events: Seq<Self::Notification>) -> (r: (
        int,
        SingletonEvent<S::NotificationValue>,
    )) {
        let others = Self::lemma_rest(after, events);
        let n: int = 0;
        let (i, event) = R::lemma_single_reported(after.1, others);
        assert forall|i: int, event: SingletonEvent<S::NotificationValue>|
            0 <= i < events.len()
                && #[trigger] events[i] == #[trigger] <Self as ReportsSingleton<S, There<P>>>::single_notification(
                event,
            ) implies i >= n && others[i - n] == R::single_notification(event) by {
        }
        (n + i, event)
    }

    fn make_single_notification(event: SingletonEvent<S::NotificationValue>) -> (r:
        Self::Notification) {
        Notification::Other(R::make_single_notification(event))
    }
}

impl<E: SingletonValue, S: SingletonValue, P: Place, R: ReportsSingleton<S, P>> ReportsSingleton<
    S,
    There<P>,
> for Singletons<E, R> {
    open spec fn single_notification(
        event: SingletonEvent<S::NotificationValue>,
    ) -> Self::Notification {
        Notification::Other(R::single_notification(event))
    }

    proof fn lemma_single_reported(after: Self::State, events: Seq<Self::Notification>) -> (r: (
        int,
        SingletonEvent<S::NotificationValue>,
    )) {
        let (these, others) = Self::lemma_split(after, events);
        let n = these.len() as int;
        let (i, event) = R::lemma_single_reported(after.1, others);
        assert forall|i: int, event: SingletonEvent<S::NotificationValue>|
            0 <= i < events.len()
                && #[trigger] events[i] == #[trigger] <Self as ReportsSingleton<S, There<P>>>::single_notification(
                event,
            ) implies i >= n && others[i - n] == R::single_notification(event) by {
        }
        (n + i, event)
    }

    fn make_single_notification(event: SingletonEvent<S::NotificationValue>) -> (r:
        Self::Notification) {
        Notification::Other(R::make_single_notification(event))
    }
}

} // verus!
