pub mod subscribable_err;

use vstd::prelude::*;

use crate::event::has_terminal;
use crate::event::is_terminal;
use crate::event::lemma_counts_push;
use crate::event::lemma_until_terminal_all;
use crate::event::lemma_until_terminal_at;
use crate::event::until_terminal;
use crate::event::Event;
use crate::observer::Observer;
use crate::subscriber::Subscriber;
use crate::subscription::LocalSubscription;

verus! {

/// The tri-state control signal that flows back upstream while a source
/// produces: keep going, stop early with completion, or stop with an
/// error. It is also what a finished subscription run reports.
pub enum OState<E> {
    Next,
    Complete,
    Error(E),
}

/// The control state a whole emission sequence ends in: the first
/// terminal event decides; a sequence without one leaves the stream open.
pub open spec fn end_state<I, E>(s: Seq<Event<I, E>>) -> OState<E>
    decreases s.len(),
{
    if s.len() == 0 {
        OState::Next
    } else {
        match s[0] {
            Event::Next(_) => end_state(s.drop_first()),
            Event::Fail(e) => OState::Error(e),
            Event::Done => OState::Complete,
        }
    }
}

/// A sequence without a terminal event leaves the stream open.
pub proof fn lemma_end_state_all<I, E>(s: Seq<Event<I, E>>)
    requires
        forall|j: int| 0 <= j < s.len() ==> !is_terminal(s[j]),
    ensures
        end_state(s) == OState::<E>::Next,
    decreases s.len(),
{
    if s.len() != 0 {
        assert(!is_terminal(s[0]));
        assert(forall|j: int| 0 <= j < s.drop_first().len() ==> !is_terminal(
            #[trigger] s.drop_first()[j],
        ));
        lemma_end_state_all(s.drop_first());
    }
}

/// The first terminal event decides the final control state.
pub proof fn lemma_end_state_at<I, E>(s: Seq<Event<I, E>>, i: int)
    requires
        0 <= i < s.len(),
        forall|j: int| 0 <= j < i ==> !is_terminal(s[j]),
        is_terminal(s[i]),
    ensures
        (s[i] matches Event::Fail(e) ==> end_state(s) == OState::<E>::Error(e)),
        s[i] is Done ==> end_state(s) == OState::<E>::Complete,
    decreases i,
{
    if i > 0 {
        assert(forall|j: int| 0 <= j < i - 1 ==> !is_terminal(#[trigger] s.drop_first()[j]));
        assert(s.drop_first()[i - 1] == s[i]);
        lemma_end_state_at(s.drop_first(), i - 1);
    }
}

/// A terminal event anywhere means the stream carries one.
pub proof fn lemma_terminal_within<I, E>(s: Seq<Event<I, E>>, i: int)
    requires
        0 <= i < s.len(),
        is_terminal(s[i]),
    ensures
        has_terminal(s),
    decreases s.len(),
{
    if i == s.len() - 1 {
        assert(s.drop_last().push(s.last()) =~= s);
        lemma_counts_push(s.drop_last(), s.last());
    } else {
        lemma_terminal_within(s.drop_last(), i);
        assert(s.drop_last().push(s.last()) =~= s);
        lemma_counts_push(s.drop_last(), s.last());
    }
}

/// Push a materialized emission sequence into an observer, event by
/// event, stopping at the first terminal event. The observer's own gate
/// still applies: a stopped observer takes nothing.
pub fn deliver_events<Item: Copy, E: Copy, O: Observer<Item, E>>(
    events: &Vec<Event<Item, E>>,
    observer: &mut O,
) -> (st: OState<E>)
    requires
        old(observer).inv(),
    ensures
        final(observer).inv(),
        old(observer).stopped() ==> final(observer).events() == old(observer).events() && final(observer).stopped(),
        !old(observer).stopped() ==> final(observer).events() == old(observer).events()
            + until_terminal(events@) && final(observer).stopped() == has_terminal(events@),
        st == end_state(events@),
{
    let n = events.len();
    let mut i: usize = 0;
    while i < n
        invariant
            i <= n,
            n == events@.len(),
            observer.inv(),
            forall|j: int| 0 <= j < i ==> !is_terminal(events@[j]),
            old(observer).stopped() ==> observer.events() == old(observer).events()
                && observer.stopped(),
            !old(observer).stopped() ==> observer.events() == old(observer).events()
                + events@.take(i as int) && observer.stopped() == old(observer).stopped(),
        decreases n - i,
    {
        let ev = events[i];
        match ev {
            Event::Next(v) => {
                observer.next(v);
                proof {
                    assert((old(observer).events() + events@.take(i as int)).push(
                        Event::Next(v),
                    ) =~= old(observer).events() + events@.take(i + 1 as int));
                }
            },
            Event::Fail(e) => {
                observer.error(e);
                proof {
                    lemma_until_terminal_at(events@, i as int);
                    lemma_end_state_at(events@, i as int);
                    lemma_terminal_within(events@, i as int);
                    assert((old(observer).events() + events@.take(i as int)).push(
                        Event::Fail(e),
                    ) =~= old(observer).events() + events@.take(i as int).push(Event::Fail(e)));
                }
                return OState::Error(e);
            },
            Event::Done => {
                observer.complete();
                proof {
                    lemma_until_terminal_at(events@, i as int);
                    lemma_end_state_at(events@, i as int);
                    lemma_terminal_within(events@, i as int);
                    assert((old(observer).events() + events@.take(i as int)).push(
                        Event::Done,
                    ) =~= old(observer).events() + events@.take(i as int).push(Event::Done));
                }
                return OState::Complete;
            },
        }
        i = i + 1;
    }
    proof {
        lemma_until_terminal_all(events@);
        lemma_end_state_all(events@);
        assert(events@.take(n as int) =~= events@);
    }
    OState::Next
}

/// A blueprint for a stream: no running state until subscribed, and
/// subscribing consumes it. Its whole observable behaviour is the
/// emission sequence it stands for.
pub trait ImplSubscribable<Item, E>: Sized {
    /// The raw emissions this blueprint produces when driven.
    spec fn emits(&self) -> Seq<Event<Item, E>>;

    /// Materialize the emissions, consuming the blueprint.
    fn into_events(self) -> (v: Vec<Event<Item, E>>)
        ensures
            v@ == self.emits(),
    ;

    /// Drive the blueprint into a subscribing observer and report the
    /// final control state. The observer receives the emissions in order,
    /// cut at the first terminal event; a stopped observer receives
    /// nothing.
    fn subscribe_return_state<O: Observer<Item, E>>(self, observer: &mut O) -> (st: OState<E>)
        requires
            old(observer).inv(),
        ensures
            final(observer).inv(),
            old(observer).stopped() ==> final(observer).events() == old(observer).events()
                && final(observer).stopped(),
            !old(observer).stopped() ==> final(observer).events() == old(observer).events()
                + until_terminal(self.emits()) && final(observer).stopped() == has_terminal(
                self.emits(),
            ),
            st == end_state(self.emits()),
    ;
}

/// Consumer-facing subscription entry points: each binds an observer into
/// a fresh local subscriber, runs the source to its end, and hands the
/// subscriber back so the caller can inspect what arrived and cancel or
/// query the subscription. The variants mirror how much of the observer
/// capability set the caller cares to consume.
pub trait Subscribable<Item, E>: ImplSubscribable<Item, E> {
    /// Subscribe for items alone.
    fn subscribe<O: Observer<Item, E>>(self, observer: O) -> (s: Subscriber<O, LocalSubscription>)
        requires
            observer.inv(),
            !observer.stopped(),
        ensures
            s.observer.inv(),
            s.observer.events() == observer.events() + until_terminal(self.emits()),
            s.subscription.closed == has_terminal(self.emits()),
    ;

    /// Subscribe for items and errors.
    fn subscribe_err<O: Observer<Item, E>>(self, observer: O) -> (s: Subscriber<
        O,
        LocalSubscription,
    >)
        requires
            observer.inv(),
            !observer.stopped(),
        ensures
            s.observer.inv(),
            s.observer.events() == observer.events() + until_terminal(self.emits()),
            s.subscription.closed == has_terminal(self.emits()),
    ;

    /// Subscribe for items and completion.
    fn subscribe_complete<O: Observer<Item, E>>(self, observer: O) -> (s: Subscriber<
        O,
        LocalSubscription,
    >)
        requires
            observer.inv(),
            !observer.stopped(),
        ensures
            s.observer.inv(),
            s.observer.events() == observer.events() + until_terminal(self.emits()),
            s.subscription.closed == has_terminal(self.emits()),
    ;

    /// Subscribe for the full capability set.
    fn subscribe_err_complete<O: Observer<Item, E>>(self, observer: O) -> (s: Subscriber<
        O,
        LocalSubscription,
    >)
        requires
            observer.inv(),
            !observer.stopped(),
        ensures
            s.observer.inv(),
            s.observer.events() == observer.events() + until_terminal(self.emits()),
            s.subscription.closed == has_terminal(self.emits()),
    ;
}

impl<Item, E, S: ImplSubscribable<Item, E>> Subscribable<Item, E> for S {
    fn subscribe<O: Observer<Item, E>>(self, observer: O) -> (s: Subscriber<
        O,
        LocalSubscription,
    >) {
        let mut s = Subscriber::local(observer);
        let _st = self.subscribe_return_state(&mut s);
        s
    }

    fn subscribe_err<O: Observer<Item, E>>(self, observer: O) -> (s: Subscriber<
        O,
        LocalSubscription,
    >) {
        let mut s = Subscriber::local(observer);
        let _st = self.subscribe_return_state(&mut s);
        s
    }

    fn subscribe_complete<O: Observer<Item, E>>(self, observer: O) -> (s: Subscriber<
        O,
        LocalSubscription,
    >) {
        let mut s = Subscriber::local(observer);
        let _st = self.subscribe_return_state(&mut s);
        s
    }

    fn subscribe_err_complete<O: Observer<Item, E>>(self, observer: O) -> (s: Subscriber<
        O,
        LocalSubscription,
    >) {
        let mut s = Subscriber::local(observer);
        let _st = self.subscribe_return_state(&mut s);
        s
    }
}

} // verus!
