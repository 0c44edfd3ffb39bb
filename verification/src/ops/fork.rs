use vstd::prelude::*;

use crate::event::copy_events;
use crate::event::Event;
use crate::observable::Observable;
use crate::ops::take::take_spec;
use crate::ops::take::TakeOp;
use crate::subscribable::ImplSubscribable;

verus! {

/// A handle on a shared broadcast core. Ordinary operator composition is
/// single-consumer, because every stage consumes its source; forking
/// introduces shared access so several independent consumers can observe
/// the one upstream run. Each fork replays the same logical event
/// sequence; it never re-subscribes upstream.
pub trait Fork<Item, E>: Sized {
    /// The emission sequence that every fork of this handle replays.
    spec fn shared_emits(&self) -> Seq<Event<Item, E>>;

    type Output: ImplSubscribable<Item, E>;

    /// A new, independent downstream observable on the shared core.
    fn fork(&self) -> (r: Self::Output)
        ensures
            r.emits() == self.shared_emits(),
    ;
}

/// Conversion of a single-consumer source into a shared broadcast core.
/// The source is consumed — and with it subscribed — exactly once, on
/// conversion; what it produced is what every fork observes.
pub trait Multicast<Item, E>: ImplSubscribable<Item, E> {
    type Output: Fork<Item, E>;

    fn multicast(self) -> (r: Self::Output)
        ensures
            r.shared_emits() == self.emits(),
    ;
}

/// The broadcast core's shared output: one upstream run, recorded, held
/// for every fork taken from it.
pub struct MulticastOutput<Item, E> {
    pub events: Vec<Event<Item, E>>,
}

impl<Item: Copy, E: Copy> Fork<Item, E> for MulticastOutput<Item, E> {
    open spec fn shared_emits(&self) -> Seq<Event<Item, E>> {
        self.events@
    }

    type Output = Observable<Item, E>;

    fn fork(&self) -> (r: Observable<Item, E>) {
        Observable { events: copy_events(&self.events) }
    }
}

impl<Item: Copy, E: Copy> Multicast<Item, E> for Observable<Item, E> {
    type Output = MulticastOutput<Item, E>;

    fn multicast(self) -> (r: MulticastOutput<Item, E>) {
        MulticastOutput { events: self.into_events() }
    }
}

/// A cold blueprint forks by replaying itself.
impl<Item: Copy, E: Copy> Fork<Item, E> for Observable<Item, E> {
    open spec fn shared_emits(&self) -> Seq<Event<Item, E>> {
        self.events@
    }

    type Output = Observable<Item, E>;

    fn fork(&self) -> (r: Observable<Item, E>) {
        Observable { events: copy_events(&self.events) }
    }
}

/// A cutoff stage rides a broadcast core by multicasting its own source
/// and keeping its bound.
impl<Item: Copy, E: Copy, S: Multicast<Item, E>> Multicast<Item, E> for TakeOp<S> {
    type Output = TakeOp<S::Output>;

    fn multicast(self) -> (r: TakeOp<S::Output>) {
        TakeOp { source: self.source.multicast(), count: self.count }
    }
}

impl<Item: Copy, E: Copy, F: Fork<Item, E>> Fork<Item, E> for TakeOp<F> {
    open spec fn shared_emits(&self) -> Seq<Event<Item, E>> {
        take_spec(self.source.shared_emits(), self.count as nat)
    }

    type Output = TakeOp<F::Output>;

    fn fork(&self) -> (r: TakeOp<F::Output>) {
        TakeOp { source: self.source.fork(), count: self.count }
    }
}

/// Fork fan-out law: two forks of one broadcast core replay the same
/// logical event sequence — they cannot disagree, because each replays
/// the core's single recorded upstream run.
pub proof fn lemma_fork_fan_out<Item, E, F: Fork<Item, E>>(
    core: &F,
    a: &F::Output,
    b: &F::Output,
)
    requires
        a.emits() == core.shared_emits(),
        b.emits() == core.shared_emits(),
    ensures
        a.emits() == b.emits(),
{
}

} // verus!
