//! What subscribers are told about changes.

use crate::schema::{Notifiable, RowDesc, SingletonValue};
use crate::storage::Mark;
use vstd::prelude::*;

verus! {

/// A row of a table has changed.
#[derive(Clone, Debug, PartialEq, Eq)]
pub struct Event<K, V> {
    /// The key of the row.
    pub key: K,
    /// The notification value of the row, or `None` if the row was removed.
    pub value: Option<V>,
}

/// The value of a singleton has changed.
#[derive(Clone, Debug, PartialEq, Eq)]
pub struct SingletonEvent<V> {
    /// The notification value of the singleton, or `None` if the value was removed.
    pub value: Option<V>,
}

/// A notification of a store: about its first table or singleton, or about one of the others.
#[derive(Clone, Debug, PartialEq, Eq)]
pub enum Notification<E, R> {
    This(E),
    Other(R),
}

/// Whether `all` are the notifications `these` and `others`, in this order.
pub open spec fn joined<E, R>(all: Seq<Notification<E, R>>, these: Seq<E>, others: Seq<R>) -> bool {
    all == these.map_values(|e: E| Notification::<E, R>::This(e)) + others.map_values(
        |e: R| Notification::<E, R>::Other(e),
    )
}

/// The notifications `these` and `others`, in this order.
pub fn join<E, R>(these: Vec<E>, others: Vec<R>) -> (r: Vec<Notification<E, R>>)
    ensures
        joined(r@, these@, others@),
        r@.len() == these@.len() + others@.len(),
        forall|i: int|
            0 <= i < these@.len() ==> #[trigger] r@[i] == Notification::<E, R>::This(these@[i]),
        forall|j: int|
            0 <= j < others@.len() ==> r@[these@.len() + j] == Notification::<E, R>::Other(
                #[trigger] others@[j],
            ),
{
    let ghost (a, b) = (these@, others@);
    let mut all: Vec<Notification<E, R>> = Vec::new();
    for e in it: these.into_iter()
        invariant
            it.seq() == a,
            all@ == a.take(it.index()).map_values(|e: E| Notification::<E, R>::This(e)),
    {
        all.push(Notification::This(e));
        assert(all@ =~= a.take(it.index() + 1).map_values(|e: E| Notification::<E, R>::This(e)));
    }
    let ghost first = all@;
    assert(a.take(a.len() as int) =~= a);
    assert(b.take(0).map_values(|e: R| Notification::<E, R>::Other(e)) =~= Seq::empty());
    for e in it: others.into_iter()
        invariant
            it.seq() == b,
            all@ == first + b.take(it.index()).map_values(|e: R| Notification::<E, R>::Other(e)),
    {
        all.push(Notification::Other(e));
        assert(all@ =~= first + b.take(it.index() + 1).map_values(
            |e: R| Notification::<E, R>::Other(e),
        ));
    }
    assert(b.take(b.len() as int) =~= b);
    all
}

/// What is visible of a singleton at some point.
pub struct SingleState<V> {
    /// The value, if there is one.
    pub value: Option<V>,
    /// Whether the transaction in progress has written it.
    pub written: bool,
}

impl<V> SingleState<V> {
    /// A singleton without value.
    pub open spec fn empty() -> Self {
        SingleState { value: None, written: false }
    }

    /// The singleton after a transaction has set or removed its value.
    pub open spec fn assigned(value: Option<V>) -> Self {
        SingleState { value, written: true }
    }

    /// The singleton as the next transaction finds it.
    pub open spec fn settled(self) -> Self {
        SingleState { value: self.value, written: false }
    }
}

/// Whether `events` report what a transaction has written to a singleton: once, with the value it
/// led to, if the transaction has written it, and not at all if not.
pub open spec fn reports_single<S: SingletonValue>(
    after: SingleState<S::Value>,
    events: Seq<SingletonEvent<S::NotificationValue>>,
) -> bool {
    if after.written {
        &&& events.len() == 1
        &&& match (events[0].value, after.value) {
            (Some(sent), Some(value)) => call_ensures(S::notif_value, (&value,), sent),
            (None, None) => true,
            _ => false,
        }
    } else {
        events.len() == 0
    }
}

/// Whether a row which was `before` and is `after` is reported, if it was written in the way
/// `mark`. A value which was lent out to be changed is not reported if it is known to be equal.
pub open spec fn changed<D: RowDesc>(
    before: Option<D::Value>,
    after: Option<D::Value>,
    mark: Mark,
) -> bool {
    match (before, after) {
        (Some(b), Some(a)) => mark == Mark::Assigned || call_ensures(D::value_eq, (&b, &a), false),
        (None, None) => false,
        _ => true,
    }
}

/// Whether `event` says what the rows of a table are now.
pub open spec fn describes<D: Notifiable>(
    event: Event<D::Key, D::NotificationValue>,
    rows: Map<D::Key, D::Value>,
) -> bool {
    match event.value {
        Some(sent) => rows.contains_key(event.key) && call_ensures(
            D::clone_value_for_notification,
            (&rows[event.key],),
            sent,
        ),
        None => !rows.contains_key(event.key),
    }
}

/// Whether `events` report how a transaction, which has written the rows in the ways `marks`, came
/// from the rows `before` to the rows `after`: each row which was assigned or has changed once, and
/// no row which was not written.
pub open spec fn reports<D: Notifiable>(
    before: Map<D::Key, D::Value>,
    after: Map<D::Key, D::Value>,
    marks: Map<D::Key, Mark>,
    events: Seq<Event<D::Key, D::NotificationValue>>,
) -> bool {
    &&& forall|i: int|
        0 <= i < events.len() ==> {
            &&& describes::<D>(#[trigger] events[i], after)
            &&& marks.contains_key(events[i].key)
            &&& changed::<D>(
                before.get(events[i].key),
                after.get(events[i].key),
                marks[events[i].key],
            )
        }
    &&& forall|i: int, j: int|
        0 <= i < j < events.len() ==> (#[trigger] events[i]).key != (#[trigger] events[j]).key
    &&& forall|k: D::Key|
        #![trigger before.get(k)]
        #![trigger after.get(k)]
        before.get(k) != after.get(k) || marks.get(k) == Some(Mark::Assigned) && after.get(
            k,
        ) is Some ==> exists|i: int| 0 <= i < events.len() && (#[trigger] events[i]).key == k
}

} // verus!
