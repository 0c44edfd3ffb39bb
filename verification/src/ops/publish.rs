use vstd::prelude::*;

use crate::event::has_terminal;
use crate::event::next_values;
use crate::event::until_terminal;
use crate::observer::Observer;
use crate::observer::SubscribeAll;
use crate::subscribable::deliver_events;
use crate::subscribable::ImplSubscribable;
use crate::subscriber::Subscriber;
use crate::subscription::LocalSubscription;
use crate::subscription::SubscriptionLike;

verus! {

/// A connectable observable. It resembles an ordinary observable, except
/// that it does not begin emitting when a fork is registered, but only
/// when `connect` is applied to it: so every intended fork can register
/// before the first item flows, and none misses the head of the stream.
/// The upstream source is consumed — and so subscribed — exactly once,
/// by the first `connect`.
pub struct LocalConnectableObservable<S, Item, E> {
    pub source: Option<S>,
    pub sinks: Vec<Subscriber<SubscribeAll<Item, E>, LocalSubscription>>,
}

/// Wrap a source for explicit connection.
pub trait Publish<Item, E>: ImplSubscribable<Item, E> {
    fn publish(self) -> (r: LocalConnectableObservable<Self, Item, E>)
        ensures
            r.source == Some(self),
            r.sinks@.len() == 0,
    ;
}

impl<Item, E, S: ImplSubscribable<Item, E>> Publish<Item, E> for S {
    fn publish(self) -> (r: LocalConnectableObservable<Self, Item, E>) {
        LocalConnectableObservable { source: Some(self), sinks: Vec::new() }
    }
}

impl<Item: Copy, E: Copy, S: ImplSubscribable<Item, E>> LocalConnectableObservable<S, Item, E> {
    /// Every registered sink is healthy, and while the source has not
    /// been connected none of them has been stopped.
    pub open spec fn wf(&self) -> bool {
        &&& forall|i: int| 0 <= i < self.sinks@.len() ==> (#[trigger] self.sinks@[i]).inv()
        &&& (self.source is Some ==> forall|i: int|
            0 <= i < self.sinks@.len() ==> !(#[trigger] self.sinks@[i]).stopped())
    }

    /// Register a new fork: a fresh recording sink that will receive the
    /// whole stream once connection happens. Returns the fork's slot.
    pub fn fork(&mut self) -> (h: usize)
        requires
            old(self).wf(),
        ensures
            final(self).wf(),
            h == old(self).sinks@.len(),
            final(self).source == old(self).source,
            final(self).sinks@.len() == old(self).sinks@.len() + 1,
            forall|i: int|
                0 <= i < old(self).sinks@.len() ==> final(self).sinks@[i] == old(self).sinks@[i],
            final(self).sinks@[h as int].observer.received@.len() == 0,
            !final(self).sinks@[h as int].stopped(),
    {
        let sink = Subscriber::local(SubscribeAll::new());
        let h = self.sinks.len();
        self.sinks.push(sink);
        h
    }

    /// Begin the flow: consume the upstream source, once, and fan its
    /// whole gated stream out to every sink registered so far. A later
    /// call finds the source gone and changes nothing.
    pub fn connect(&mut self)
        requires
            old(self).wf(),
        ensures
            final(self).wf(),
            final(self).source is None,
            final(self).sinks@.len() == old(self).sinks@.len(),
            (old(self).source matches Some(src) ==> forall|i: int|
                0 <= i < final(self).sinks@.len() ==> (#[trigger] final(self).sinks@[i]).observer.received@ == old(self).sinks@[i].observer.received@
                    + until_terminal(src.emits()) && final(self).sinks@[i].subscription.closed
                    == has_terminal(src.emits())),
            old(self).source is None ==> *final(self) == *old(self),
    {
        let mut taken: Option<S> = None;
        core::mem::swap(&mut self.source, &mut taken);
        match taken {
            Some(src) => {
                let evs = src.into_events();
                let n = self.sinks.len();
                let mut i: usize = 0;
                while i < n
                    invariant
                        i <= n,
                        n == self.sinks@.len(),
                        n == old(self).sinks@.len(),
                        old(self).wf(),
                        old(self).source is Some,
                        self.source is None,
                        (old(self).source matches Some(s) ==> evs@ == s.emits()),
                        forall|j: int|
                            0 <= j < i ==> (#[trigger] self.sinks@[j]).observer.received@ == old(
                                self,
                            ).sinks@[j].observer.received@ + until_terminal(evs@) && self.sinks@[
                                j
                            ].subscription.closed == has_terminal(evs@) && self.sinks@[j].inv(),
                        forall|j: int| i <= j < n ==> self.sinks@[j] == old(self).sinks@[j],
                    decreases n - i,
                {
                    proof {
                        assert(self.sinks@[i as int] == old(self).sinks@[i as int]);
                        assert((old(self).sinks@[i as int]).inv());
                        assert(!(old(self).sinks@[i as int]).stopped());
                    }
                    let sink = &mut self.sinks[i];
                    deliver_events(&evs, sink);
                    proof {
                        assert(forall|j: int|
                            i + 1 <= j < n ==> self.sinks@[j] == old(self).sinks@[j]);
                    }
                    i = i + 1;
                }
            },
            None => {},
        }
    }

    /// Read the items one fork has received so far.
    pub fn sink_values(&self, h: usize) -> (out: Vec<Item>)
        requires
            h < self.sinks@.len(),
        ensures
            out@ == next_values(self.sinks@[h as int].observer.received@),
    {
        let sink = &self.sinks[h];
        sink.observer.values()
    }

    /// Cancel one fork before (or after) connection: a cancelled fork
    /// receives nothing further.
    pub fn unsubscribe_fork(&mut self, h: usize)
        requires
            old(self).wf(),
            h < old(self).sinks@.len(),
            old(self).source is None,
        ensures
            final(self).wf(),
            final(self).source == old(self).source,
            final(self).sinks@.len() == old(self).sinks@.len(),
            forall|i: int|
                0 <= i < old(self).sinks@.len() && i != h ==> final(self).sinks@[i] == old(
                    self,
                ).sinks@[i],
            final(self).sinks@[h as int].subscription.closed(),
            final(self).sinks@[h as int].observer == old(self).sinks@[h as int].observer,
    {
        proof {
            assert(old(self).sinks@[h as int].inv());
        }
        let sink = &mut self.sinks[h];
        sink.subscription.unsubscribe();
    }
}

} // verus!
