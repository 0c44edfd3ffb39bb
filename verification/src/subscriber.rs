use vstd::prelude::*;

use crate::event::Event;
use crate::observer::Observer;
use crate::subscription::LocalSubscription;
use crate::subscription::SharedSubscription;
use crate::subscription::SubscriptionLike;

verus! {

/// Binds one Observer to one Subscription, gating delivery so that no
/// event reaches a cancelled or terminated observer. On `complete` or
/// `error` it forwards the terminal event and then closes its own
/// subscription, so the terminal event is the last delivery ever made.
pub struct Subscriber<O, U> {
    pub observer: O,
    pub subscription: U,
}

impl<O> Subscriber<O, LocalSubscription> {
    /// A subscriber for the cooperative single-threaded mode.
    pub fn local(observer: O) -> (s: Self)
        ensures
            s.observer == observer,
            !s.subscription.closed,
            s.subscription.next_id == 0,
            s.subscription.children@.len() == 0,
            s.subscription.wf(),
    {
        Subscriber { observer, subscription: LocalSubscription::default() }
    }

    /// Hand the same observer and cancellation state over to the
    /// multi-thread-safe mode.
    pub fn to_shared(self) -> (s: Subscriber<O, SharedSubscription>)
        ensures
            s.observer == self.observer,
            s.subscription.0 == self.subscription,
    {
        Subscriber { observer: self.observer, subscription: SharedSubscription(self.subscription) }
    }
}

impl<O> Subscriber<O, SharedSubscription> {
    /// A subscriber for the multi-thread-safe mode.
    pub fn shared(observer: O) -> (s: Self)
        ensures
            s.observer == observer,
            !s.subscription.0.closed,
            s.subscription.0.next_id == 0,
            s.subscription.0.children@.len() == 0,
            s.subscription.wf(),
    {
        Subscriber { observer, subscription: SharedSubscription::default() }
    }
}

/// Delivery through a subscriber: events are forwarded to the owned
/// observer only while the subscription is open; a terminal event closes
/// the subscription, which silences everything that follows. This single
/// generic implementation serves both concurrency modes, through the two
/// subscription flavours.
impl<Item, E, O: Observer<Item, E>, U: SubscriptionLike> Observer<Item, E> for Subscriber<O, U> {
    /// While the subscription stands open, the observer behind it is
    /// still live.
    open spec fn inv(&self) -> bool {
        &&& self.observer.inv()
        &&& (!self.subscription.closed() ==> !self.observer.stopped())
    }

    open spec fn events(&self) -> Seq<Event<Item, E>> {
        self.observer.events()
    }

    open spec fn stopped(&self) -> bool {
        self.subscription.closed()
    }

    fn next(&mut self, value: Item) {
        if !self.subscription.is_closed() {
            self.observer.next(value);
        }
    }

    fn error(&mut self, err: E) {
        if !self.subscription.is_closed() {
            self.observer.error(err);
            self.subscription.unsubscribe();
        }
    }

    fn complete(&mut self) {
        if !self.subscription.is_closed() {
            self.observer.complete();
            self.subscription.unsubscribe();
        }
    }
}

impl<O, U: SubscriptionLike> SubscriptionLike for Subscriber<O, U> {
    open spec fn closed(&self) -> bool {
        self.subscription.closed()
    }

    open spec fn addr(&self) -> u64 {
        self.subscription.addr()
    }

    fn is_closed(&self) -> (r: bool) {
        self.subscription.is_closed()
    }

    fn inner_addr(&self) -> (r: u64) {
        self.subscription.inner_addr()
    }

    fn unsubscribe(&mut self) {
        self.subscription.unsubscribe();
    }
}

} // verus!
