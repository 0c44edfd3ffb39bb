use vstd::prelude::*;

use crate::event::count_done_events;
use crate::event::count_next_events;
use crate::event::done_count;
use crate::event::next_count;
use crate::event::Event;
use crate::observable::stream_of;
use crate::observer::Observer;
use crate::ops::fork::Fork;
use crate::ops::fork::Multicast;
use crate::ops::take::lemma_take_bounded;
use crate::ops::take::take_spec;
use crate::ops::take::Take;
use crate::ops::take::TakeOp;
use crate::subscribable::deliver_events;
use crate::subscribable::ImplSubscribable;
use crate::subscribable::OState;

verus! {

/// Emit only the first item emitted by a source.
pub trait First<Item, E>: ImplSubscribable<Item, E> {
    fn first(self) -> (r: TakeOp<Self>)
        ensures
            r.source == self,
            r.count == 1,
    ;
}

impl<Item, E, S: ImplSubscribable<Item, E>> First<Item, E> for S {
    fn first(self) -> (r: TakeOp<Self>) {
        self.take(1)
    }
}

/// What first-or-default passes on: a run that carried an item goes
/// through unchanged; one that completed without an item has the default
/// synthesized ahead of the completion; an error is forwarded untouched,
/// never replaced by the default.
pub open spec fn first_or_spec<I, E>(s: Seq<Event<I, E>>, d: I, passed: bool) -> Seq<
    Event<I, E>,
> {
    if passed || next_count(s) > 0 {
        s
    } else if done_count(s) > 0 {
        seq![Event::Next(d), Event::Done]
    } else {
        s
    }
}

/// Emit only the first item emitted by a source, or a default item when
/// the source completes without having emitted any.
pub trait FirstOr<Item, E>: ImplSubscribable<Item, E> {
    fn first_or(self, default: Item) -> (r: FirstOrOp<TakeOp<Self>, Item>)
        ensures
            r.source.source == self,
            r.source.count == 1,
            r.default == default,
            !r.passed,
    ;
}

impl<Item, E, S: ImplSubscribable<Item, E>> FirstOr<Item, E> for S {
    fn first_or(self, default: Item) -> (r: FirstOrOp<TakeOp<Self>, Item>) {
        FirstOrOp { source: self.first(), default, passed: false }
    }
}

/// The first-or-default stage: wraps a source already cut to its first
/// item, and remembers whether an item has already passed.
pub struct FirstOrOp<S, V> {
    pub source: S,
    pub default: V,
    pub passed: bool,
}

impl<Item: Copy, E: Copy, S: ImplSubscribable<Item, E>> ImplSubscribable<Item, E> for FirstOrOp<
    S,
    Item,
> {
    open spec fn emits(&self) -> Seq<Event<Item, E>> {
        first_or_spec(self.source.emits(), self.default, self.passed)
    }

    fn into_events(self) -> (v: Vec<Event<Item, E>>) {
        let src = self.source.into_events();
        let nexts = count_next_events(&src);
        let dones = count_done_events(&src);
        if self.passed || nexts > 0 {
            src
        } else if dones > 0 {
            let mut out: Vec<Event<Item, E>> = Vec::new();
            out.push(Event::Next(self.default));
            out.push(Event::Done);
            proof {
                assert(out@ =~= seq![
                    Event::<Item, E>::Next(self.default),
                    Event::<Item, E>::Done,
                ]);
            }
            out
        } else {
            src
        }
    }

    fn subscribe_return_state<O: Observer<Item, E>>(self, observer: &mut O) -> (st: OState<E>) {
        let out = self.into_events();
        deliver_events(&out, observer)
    }
}

/// The stage rides a broadcast core by multicasting its own source and
/// keeping its configuration.
impl<Item: Copy, E: Copy, S: Multicast<Item, E>> Multicast<Item, E> for FirstOrOp<S, Item> {
    type Output = FirstOrOp<S::Output, Item>;

    fn multicast(self) -> (r: FirstOrOp<S::Output, Item>) {
        FirstOrOp { source: self.source.multicast(), default: self.default, passed: self.passed }
    }
}

/// Forking replays the shared source through a fresh copy of the stage.
impl<Item: Copy, E: Copy, F: Fork<Item, E>> Fork<Item, E> for FirstOrOp<F, Item> {
    open spec fn shared_emits(&self) -> Seq<Event<Item, E>> {
        first_or_spec(self.source.shared_emits(), self.default, self.passed)
    }

    type Output = FirstOrOp<F::Output, Item>;

    fn fork(&self) -> (r: FirstOrOp<F::Output, Item>) {
        FirstOrOp { source: self.source.fork(), default: self.default, passed: self.passed }
    }
}

/// First-or-default law: cut to its first item, an empty source that
/// completes yields exactly one `next` with the default and then the one
/// completion; a source with items yields its first item, and the
/// default is never synthesized.
pub proof fn lemma_first_or_default<I, E>(items: Seq<I>, d: I)
    ensures
        items.len() == 0 ==> first_or_spec(take_spec(stream_of::<I, E>(items), 1), d, false)
            == seq![Event::<I, E>::Next(d), Event::<I, E>::Done],
        items.len() > 0 ==> first_or_spec(take_spec(stream_of::<I, E>(items), 1), d, false)
            == seq![Event::<I, E>::Next(items[0]), Event::<I, E>::Done],
{
    let s = stream_of::<I, E>(items);
    crate::observable::lemma_stream_items::<I, E>(items);
    assert(s.len() == items.len() + 1);
    assert(s.last() is Done);
    assert(forall|j: int|
        0 <= j < s.len() - 1 ==> !crate::event::is_terminal(#[trigger] s[j]));
    lemma_take_bounded(s, 1);
    let out = take_spec(s, 1);
    if items.len() == 0 {
        assert(next_count(out) == 0);
        assert(done_count(out) == 1);
    } else {
        assert(next_count(out) == 1);
        assert(s[0] == Event::<I, E>::Next(items[0]));
        assert(!crate::event::is_terminal(s[0]));
        assert(out == seq![s[0], Event::<I, E>::Done]);
    }
}

} // verus!
