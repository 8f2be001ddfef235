//! Subscribers and their subscriptions.

use crate::error::Error;
use vstd::prelude::*;

verus! {

/// Somebody who can be notified of changes to a store.
#[derive(Clone, Copy, Debug, PartialEq, Eq, Structural)]
pub struct Subscriber {
    pub id: u64,
}

/// A subscription to the changes of a store.
#[derive(Clone, Copy, Debug, PartialEq, Eq, Structural)]
pub struct Subscription {
    pub id: u64,
}

/// Who is subscribed to a store.
pub struct Subscriptions {
    subscribers: Vec<Subscriber>,
    /// The id for the next subscriber.
    next_subscriber: u64,
    global: Vec<(Subscription, Subscriber)>,
    /// The id for the next subscription.
    next_subscription: u64,
}

/// Whether no subscription occurs twice.
spec fn distinct(global: Seq<(Subscription, Subscriber)>) -> bool {
    forall|i: int, j: int|
        0 <= i < j < global.len() ==> (#[trigger] global[i]).0 != (#[trigger] global[j]).0
}

/// Leaving out subscriptions leaves the others as they are.
proof fn lemma_filter(
    global: Seq<(Subscription, Subscriber)>,
    kept: spec_fn((Subscription, Subscriber)) -> bool,
)
    requires
        distinct(global),
    ensures
        distinct(global.filter(kept)),
        forall|i: int|
            0 <= i < global.filter(kept).len() ==> kept(#[trigger] global.filter(kept)[i])
                && global.contains(global.filter(kept)[i]),
    decreases global.len(),
{
    reveal(Seq::filter);
    if global.len() > 0 {
        let front = global.drop_last();
        lemma_filter(front, kept);
        assert forall|i: int| 0 <= i < front.filter(kept).len() implies global.contains(
            #[trigger] front.filter(kept)[i],
        ) by {
            let j = front.index_of(front.filter(kept)[i]);
            assert(global[j] == front.filter(kept)[i]);
        }
        assert forall|i: int| 0 <= i < front.filter(kept).len() implies (
        #[trigger] front.filter(kept)[i]).0 != global.last().0 by {
            let j = front.index_of(front.filter(kept)[i]);
            assert(global[j] == front.filter(kept)[i]);
        }
    }
}

/// Leaving out nothing changes nothing.
proof fn lemma_filter_all(
    global: Seq<(Subscription, Subscriber)>,
    kept: spec_fn((Subscription, Subscriber)) -> bool,
)
    requires
        forall|i: int| 0 <= i < global.len() ==> kept(#[trigger] global[i]),
    ensures
        global.filter(kept) == global,
    decreases global.len(),
{
    reveal(Seq::filter);
    if global.len() > 0 {
        lemma_filter_all(global.drop_last(), kept);
        assert(global.drop_last().push(global.last()) =~= global);
    } else {
        assert(global.filter(kept) =~= global);
    }
}

impl Subscriptions {
    /// The registered subscribers.
    pub closed spec fn registered(&self) -> Set<Subscriber> {
        self.subscribers@.to_set()
    }

    /// Whether `subscriber` has ever been registered.
    pub closed spec fn issued(&self, subscriber: Subscriber) -> bool {
        subscriber.id < self.next_subscriber
    }

    /// How many more subscribers and subscriptions there can be.
    pub closed spec fn capacity(&self) -> nat {
        if self.next_subscriber < self.next_subscription {
            (u64::MAX - self.next_subscription) as nat
        } else {
            (u64::MAX - self.next_subscriber) as nat
        }
    }

    /// The subscriptions to the whole store.
    pub closed spec fn global(&self) -> Seq<(Subscription, Subscriber)> {
        self.global@
    }

    /// Whether anybody is notified of changes.
    pub open spec fn any(&self) -> bool {
        self.global().len() > 0
    }

    /// Whether `subscriber` is notified of changes.
    pub open spec fn notifies(&self, subscriber: Subscriber) -> bool {
        exists|i: int| 0 <= i < self.global().len() && (#[trigger] self.global()[i]).1 == subscriber
    }

    /// Ids are not used twice, and only registered subscribers have subscriptions.
    pub closed spec fn wf(&self) -> bool {
        &&& forall|i: int|
            0 <= i < self.subscribers@.len() ==> (#[trigger] self.subscribers@[i]).id
                < self.next_subscriber
        &&& forall|i: int|
            0 <= i < self.global@.len() ==> (#[trigger] self.global@[i]).0.id
                < self.next_subscription && self.subscribers@.contains(self.global@[i].1)
        &&& distinct(self.global@)
    }

    /// Only registered subscribers are notified.
    pub proof fn lemma_notifies(&self, subscriber: Subscriber)
        requires
            self.wf(),
            self.notifies(subscriber),
        ensures
            self.registered().contains(subscriber),
            self.issued(subscriber),
    {
        let i = choose|i: int|
            0 <= i < self.global().len() && (#[trigger] self.global()[i]).1 == subscriber;
        assert(self.subscribers@.contains(self.global@[i].1));
        let j = self.subscribers@.index_of(subscriber);
        assert(self.subscribers@[j] == subscriber);
    }

    /// No subscribers.
    pub fn new() -> (r: Self)
        ensures
            r.registered() == Set::<Subscriber>::empty(),
            r.global() == Seq::<(Subscription, Subscriber)>::empty(),
            r.capacity() == u64::MAX,
            forall|s: Subscriber| !#[trigger] r.issued(s),
            r.wf(),
    {
        let r = Subscriptions {
            subscribers: Vec::new(),
            next_subscriber: 0,
            global: Vec::new(),
            next_subscription: 0,
        };
        assert(r.registered() =~= Set::<Subscriber>::empty());
        assert(r.global() =~= Seq::<(Subscription, Subscriber)>::empty());
        r
    }

    /// Whether there can be another subscriber or subscription.
    pub fn has_capacity(&self) -> (r: bool)
        ensures
            r <==> self.capacity() > 0,
    {
        self.next_subscriber < u64::MAX && self.next_subscription < u64::MAX
    }

    /// Register a new subscriber.
    ///
    /// Does not create any subscriptions.
    pub fn register_subscriber(&mut self) -> (r: Subscriber)
        requires
            old(self).wf(),
            old(self).capacity() > 0,
        ensures
            final(self).wf(),
            !old(self).issued(r),
            final(self).registered() == old(self).registered().insert(r),
            final(self).global() == old(self).global(),
            forall|s: Subscriber| #[trigger]
                final(self).issued(s) <==> old(self).issued(s) || s == r,
            final(self).capacity() >= old(self).capacity() - 1,
    {
        let r = Subscriber { id: self.next_subscriber };
        let ghost before = self.subscribers@;
        self.next_subscriber = self.next_subscriber + 1;
        self.subscribers.push(r);
        proof {
            assert forall|s: Subscriber| #[trigger] before.contains(s) implies
                self.subscribers@.contains(s) by {
                assert(self.subscribers@[before.index_of(s)] == s);
            }
            assert(self.subscribers@[before.len() as int] == r);
            assert(self.registered() =~= old(self).registered().insert(r));
        }
        r
    }

    fn is_registered(&self, subscriber: Subscriber) -> (r: bool)
        ensures
            r <==> self.registered().contains(subscriber),
    {
        let mut n: usize = 0;
        while n < self.subscribers.len()
            invariant
                n <= self.subscribers.len(),
                !self.subscribers@.take(n as int).contains(subscriber),
            decreases self.subscribers.len() - n,
        {
            proof {
                crate::storage::lemma_take_next(self.subscribers@, n as int);
            }
            if self.subscribers[n] == subscriber {
                assert(self.subscribers@.contains(subscriber));
                return true;
            }
            n += 1;
        }
        assert(self.subscribers@.take(n as int) =~= self.subscribers@);
        false
    }

    /// Remove a subscriber, along with all of its subscriptions.
    ///
    /// The subscriber receives no further notifications and cannot subscribe again.
    ///
    /// Does nothing if the subscriber is unknown (e.g., because it has already been removed).
    pub fn remove_subscriber(&mut self, subscriber: Subscriber)
        requires
            old(self).wf(),
        ensures
            final(self).wf(),
            final(self).registered() == old(self).registered().remove(subscriber),
            final(self).global() == old(self).global().filter(
                |s: (Subscription, Subscriber)| s.1 != subscriber,
            ),
            !final(self).notifies(subscriber),
            !old(self).registered().contains(subscriber) ==> final(self).global() == old(
                self,
            ).global() && final(self).registered() == old(self).registered(),
            forall|s: Subscriber| #[trigger] final(self).issued(s) <==> old(self).issued(s),
            final(self).capacity() == old(self).capacity(),
    {
        let mut subscribers: Vec<Subscriber> = Vec::new();
        let mut n: usize = 0;
        while n < self.subscribers.len()
            invariant
                n <= self.subscribers.len(),
                forall|s: Subscriber| #[trigger]
                    subscribers@.contains(s) <==> self.subscribers@.take(n as int).contains(s)
                        && s != subscriber,
            decreases self.subscribers.len() - n,
        {
            broadcast use vstd::seq_lib::group_seq_properties;
            proof {
                crate::storage::lemma_take_next(self.subscribers@, n as int);
            }
            let s = self.subscribers[n];
            if s != subscriber {
                subscribers.push(s);
            }
            n += 1;
        }
        assert(self.subscribers@.take(n as int) =~= self.subscribers@);
        let ghost kept = |s: (Subscription, Subscriber)| s.1 != subscriber;
        let global = self.without(subscriber);
        proof {
            lemma_filter(self.global@, kept);
            assert forall|i: int| 0 <= i < subscribers@.len() implies (#[trigger] subscribers@[i]).id
                < self.next_subscriber by {
                assert(subscribers@.contains(subscribers@[i]));
                let j = self.subscribers@.index_of(subscribers@[i]);
                assert(self.subscribers@[j] == subscribers@[i]);
            }
        }
        proof {
            assert forall|i: int| 0 <= i < global@.len() implies (#[trigger] global@[i]).0.id
                < self.next_subscription && subscribers@.contains(global@[i].1) by {
                let j = self.global@.index_of(global@[i]);
                assert(self.global@[j] == global@[i]);
            }
        }
        self.subscribers = subscribers;
        self.global = global;
        proof {
            assert(self.registered() =~= old(self).registered().remove(subscriber));
            if !old(self).registered().contains(subscriber) {
                assert forall|i: int| 0 <= i < old(self).global@.len() implies kept(
                    #[trigger] old(self).global@[i],
                ) by {
                    assert(old(self).subscribers@.contains(old(self).global@[i].1));
                }
                lemma_filter_all(old(self).global@, kept);
                assert(self.registered() =~= old(self).registered());
            }
        }
    }

    /// The subscriptions of others than `subscriber`.
    fn without(&self, subscriber: Subscriber) -> (r: Vec<(Subscription, Subscriber)>)
        ensures
            r@ == self.global().filter(|s: (Subscription, Subscriber)| s.1 != subscriber),
    {
        let mut global: Vec<(Subscription, Subscriber)> = Vec::new();
        let ghost kept = |s: (Subscription, Subscriber)| s.1 != subscriber;
        let mut n: usize = 0;
        assert(self.global@.take(0) =~= Seq::<(Subscription, Subscriber)>::empty());
        assert(global@ =~= self.global@.take(0).filter(kept)) by {
            reveal(Seq::filter);
        }
        while n < self.global.len()
            invariant
                n <= self.global.len(),
                kept == (|s: (Subscription, Subscriber)| s.1 != subscriber),
                global@ == self.global@.take(n as int).filter(kept),
            decreases self.global.len() - n,
        {
            proof {
                crate::storage::lemma_take_next(self.global@, n as int);
                assert(self.global@.take(n + 1).drop_last() =~= self.global@.take(n as int));
                reveal(Seq::filter);
            }
            let (subscription, s) = self.global[n];
            if s != subscriber {
                global.push((subscription, s));
            }
            n += 1;
        }
        assert(self.global@.take(n as int) =~= self.global@);
        global
    }

    /// Subscribe to the whole store.
    pub fn subscribe_global(&mut self, subscriber: Subscriber) -> (r: Result<Subscription, Error>)
        requires
            old(self).wf(),
            old(self).capacity() > 0,
        ensures
            final(self).wf(),
            r is Ok <==> old(self).registered().contains(subscriber),
            r is Err ==> r == Err::<Subscription, Error>(Error::UnknownSubscriber) && *final(self)
                == *old(self),
            r matches Ok(subscription) ==> {
                &&& final(self).global() == old(self).global().push((subscription, subscriber))
                &&& final(self).registered() == old(self).registered()
                &&& final(self).notifies(subscriber)
                &&& forall|i: int|
                    0 <= i < old(self).global().len() ==> (#[trigger] old(self).global()[i]).0
                        != subscription
            },
            forall|s: Subscriber| #[trigger] final(self).issued(s) <==> old(self).issued(s),
            final(self).capacity() >= old(self).capacity() - 1,
    {
        if self.is_registered(subscriber) {
            let subscription = Subscription { id: self.next_subscription };
            let ghost n = self.global@.len();
            self.next_subscription = self.next_subscription + 1;
            self.global.push((subscription, subscriber));
            assert(self.global()[n as int].1 == subscriber);
            Ok(subscription)
        } else {
            Err(Error::UnknownSubscriber)
        }
    }

    /// Remove a subscription to the whole store.
    ///
    /// Does nothing if there is no such subscription (any more).
    pub fn unsubscribe_global(&mut self, subscription: Subscription)
        requires
            old(self).wf(),
        ensures
            final(self).wf(),
            final(self).registered() == old(self).registered(),
            final(self).global() == old(self).global().filter(
                |s: (Subscription, Subscriber)| s.0 != subscription,
            ),
            (forall|i: int|
                0 <= i < old(self).global().len() ==> (#[trigger] old(self).global()[i]).0
                    != subscription) ==> final(self).global() == old(self).global(),
            forall|s: Subscriber| #[trigger] final(self).issued(s) <==> old(self).issued(s),
            final(self).capacity() == old(self).capacity(),
    {
        let mut global: Vec<(Subscription, Subscriber)> = Vec::new();
        let ghost kept = |s: (Subscription, Subscriber)| s.0 != subscription;
        let mut n: usize = 0;
        assert(self.global@.take(0) =~= Seq::<(Subscription, Subscriber)>::empty());
        assert(global@ =~= self.global@.take(0).filter(kept)) by {
            reveal(Seq::filter);
        }
        while n < self.global.len()
            invariant
                n <= self.global.len(),
                kept == (|s: (Subscription, Subscriber)| s.0 != subscription),
                global@ == self.global@.take(n as int).filter(kept),
            decreases self.global.len() - n,
        {
            proof {
                crate::storage::lemma_take_next(self.global@, n as int);
                assert(self.global@.take(n + 1).drop_last() =~= self.global@.take(n as int));
                reveal(Seq::filter);
            }
            let (s, subscriber) = self.global[n];
            if s != subscription {
                global.push((s, subscriber));
            }
            n += 1;
        }
        assert(self.global@.take(n as int) =~= self.global@);
        proof {
            lemma_filter(self.global@, kept);
            if forall|i: int|
                0 <= i < self.global().len() ==> (#[trigger] self.global()[i]).0 != subscription {
                assert forall|i: int| 0 <= i < self.global@.len() implies kept(
                    #[trigger] self.global@[i],
                ) by {
                    assert(self.global()[i] == self.global@[i]);
                }
                lemma_filter_all(self.global@, kept);
            }
            assert forall|i: int| 0 <= i < global@.len() implies (#[trigger] global@[i]).0.id
                < self.next_subscription && self.subscribers@.contains(global@[i].1) by {
                let j = self.global@.index_of(global@[i]);
                assert(self.global@[j] == global@[i]);
            }
        }
        self.global = global;
    }

    /// Whether anybody is notified of changes.
    pub fn has_subscribers(&self) -> (r: bool)
        ensures
            r == self.any(),
    {
        self.global.len() > 0
    }
}

} // verus!
