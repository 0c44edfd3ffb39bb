use vstd::prelude::*;

use crate::event::fail_count;
use crate::event::next_count;
use crate::event::next_values;
use crate::event::Event;
use crate::observer::Observer;
use crate::observer::SubscribeAll;
use crate::subscribable::ImplSubscribable;
use crate::subscriber::Subscriber;
use crate::subscription::LocalSubscription;

verus! {

/// An observer for consumers that care about items and errors. It records
/// what it accepts, like any recorder, and stops on the first terminal
/// event; completion is absorbed without further reaction.
pub struct SubscribeErr<Item, E> {
    pub inner: SubscribeAll<Item, E>,
}

impl<Item, E> SubscribeErr<Item, E> {
    /// A fresh recorder: empty log, still live.
    pub fn new() -> (s: Self)
        ensures
            s.inner.received@.len() == 0,
            !s.inner.halted,
            s.inv(),
    {
        SubscribeErr { inner: SubscribeAll::new() }
    }

    /// This recorder is already safe to move across threads; shared mode
    /// uses it as it stands.
    pub fn to_shared(self) -> (s: Self)
        ensures
            s == self,
    {
        self
    }
}

impl<Item, E> Observer<Item, E> for SubscribeErr<Item, E> {
    open spec fn inv(&self) -> bool {
        self.inner.inv()
    }

    open spec fn events(&self) -> Seq<Event<Item, E>> {
        self.inner.events()
    }

    open spec fn stopped(&self) -> bool {
        self.inner.stopped()
    }

    fn next(&mut self, value: Item) {
        self.inner.next(value);
    }

    fn error(&mut self, err: E) {
        self.inner.error(err);
    }

    fn complete(&mut self) {
        self.inner.complete();
    }
}

impl<Item: Copy, E: Copy> SubscribeErr<Item, E> {
    /// How many items were delivered.
    pub fn next_count(&self) -> (n: usize)
        ensures
            n == next_count(self.inner.received@),
    {
        self.inner.next_count()
    }

    /// How many errors were delivered.
    pub fn fail_count(&self) -> (n: usize)
        ensures
            n == fail_count(self.inner.received@),
    {
        self.inner.fail_count()
    }

    /// The items delivered, in order.
    pub fn values(&self) -> (out: Vec<Item>)
        ensures
            out@ == next_values(self.inner.received@),
    {
        self.inner.values()
    }
}

/// Subscription keyed to the item-and-error capability pair: binds a
/// `SubscribeErr` recorder into a fresh subscriber, runs the source, and
/// hands the subscription handle back.
pub trait SubscribableErr<Item, E>: ImplSubscribable<Item, E> {
    fn subscribe_err(self, subscribe: SubscribeErr<Item, E>) -> (s: Subscriber<
        SubscribeErr<Item, E>,
        LocalSubscription,
    >)
        requires
            subscribe.inv(),
            !subscribe.stopped(),
        ensures
            s.observer.inv(),
            s.observer.events() == subscribe.events() + crate::event::until_terminal(self.emits()),
            s.subscription.closed == crate::event::has_terminal(self.emits()),
    ;
}

impl<Item, E, S: ImplSubscribable<Item, E>> SubscribableErr<Item, E> for S {
    fn subscribe_err(self, subscribe: SubscribeErr<Item, E>) -> (s: Subscriber<
        SubscribeErr<Item, E>,
        LocalSubscription,
    >) {
        let mut s = Subscriber::local(subscribe);
        let _st = self.subscribe_return_state(&mut s);
        s
    }
}

} // verus!
