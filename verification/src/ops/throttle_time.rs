use vstd::prelude::*;

use crate::event::is_terminal;
use crate::event::lemma_counts_concat;
use crate::event::lemma_next_values_len;
use crate::event::next_count;
use crate::event::next_values;
use crate::event::until_terminal;
use crate::event::Event;
use crate::observable::stream_items;
use crate::observer::Observer;
use crate::subscribable::end_state;
use crate::subscribable::ImplSubscribable;
use crate::subscribable::OState;
use crate::subscriber::Subscriber;
use crate::subscription::child_closed;
use crate::subscription::SharedSubscription;
use crate::subscription::SubscriptionLike;

verus! {

/// Which edge of each time window is delivered: the first item observed
/// in the window (leading) or the last one (tailing).
#[derive(PartialEq, Eq, Clone, Copy, Debug, Structural)]
pub enum ThrottleEdge {
    Tailing,
    Leading,
}

/// The time-windowed gating stage: at most one item is emitted per
/// window of `duration` virtual-time units, chosen by `edge`.
#[derive(Clone)]
pub struct ThrottleTimeOp<S> {
    pub source: S,
    pub duration: u64,
    pub edge: ThrottleEdge,
}

/// Gate a source by time windows.
pub trait ThrottleTime<Item, E>: ImplSubscribable<Item, E> {
    fn throttle_time(self, duration: u64, edge: ThrottleEdge) -> (r: ThrottleTimeOp<Self>)
        ensures
            r.source == self,
            r.duration == duration,
            r.edge == edge,
    ;
}

impl<Item, E, S: ImplSubscribable<Item, E>> ThrottleTime<Item, E> for S {
    fn throttle_time(self, duration: u64, edge: ThrottleEdge) -> (r: ThrottleTimeOp<Self>) {
        ThrottleTimeOp { source: self, duration, edge }
    }
}

/// The handle of one pending window-expiry timer: the identity of its
/// cancellable child subscription and the instant it is due.
#[derive(Clone, Copy, Debug)]
pub struct PendingTimer {
    pub id: u64,
    pub due: u64,
}

/// The window state a throttle run carries between arrivals: the
/// buffered tailing value, and the deadline of the pending window if one
/// is open.
pub type ThrottleState<I> = (Option<I>, Option<int>);

/// Timer expiry, as observed at instant `t`: a window whose deadline has
/// passed closes, releasing the buffered tailing value if there is one.
pub open spec fn fire_step<I>(st: ThrottleState<I>, t: int) -> (ThrottleState<I>, Seq<I>) {
    if st.1 matches Some(d) && d <= t {
        (
            (None, None),
            match st.0 {
                Some(v) => seq![v],
                None => Seq::<I>::empty(),
            },
        )
    } else {
        (st, Seq::<I>::empty())
    }
}

/// One arrival at instant `t`: any expired window fires first; then the
/// item is buffered when the tailing edge is chosen; and if no window is
/// open, one opens for `delay` units, emitting the item at once exactly
/// when the leading edge is chosen. An item arriving into an open window
/// is otherwise absorbed: one window at a time.
pub open spec fn arrival_step<I>(
    edge: ThrottleEdge,
    delay: int,
    st: ThrottleState<I>,
    t: int,
    v: I,
) -> (ThrottleState<I>, Seq<I>) {
    let fired = fire_step(st, t);
    let trail = if edge is Tailing {
        Some(v)
    } else {
        fired.0.0
    };
    if fired.0.1 is None {
        (
            (trail, Some(t + delay)),
            fired.1 + if edge is Leading {
                seq![v]
            } else {
                Seq::<I>::empty()
            },
        )
    } else {
        ((trail, fired.0.1), fired.1)
    }
}

/// A whole run: the arrivals in order, each taken through one step.
pub open spec fn throttle_run<I>(edge: ThrottleEdge, delay: int, arr: Seq<(int, I)>) -> (
    ThrottleState<I>,
    Seq<I>,
)
    decreases arr.len(),
{
    if arr.len() == 0 {
        ((None, None), Seq::<I>::empty())
    } else {
        let prev = throttle_run(edge, delay, arr.drop_last());
        let step = arrival_step(edge, delay, prev.0, arr.last().0, arr.last().1);
        (step.0, prev.1 + step.1)
    }
}

/// What completion releases: the buffered tailing value, if any, is
/// flushed ahead of the completion signal itself.
pub open spec fn throttle_finish<I, E>(st: ThrottleState<I>) -> Seq<Event<I, E>> {
    match st.0 {
        Some(v) => seq![Event::Next(v), Event::Done],
        None => seq![Event::Done],
    }
}

/// The arrival sequence: each item of the run paired with its instant.
pub open spec fn arrivals_of<I>(times: Seq<u64>, items: Seq<I>) -> Seq<(int, I)> {
    Seq::new(items.len(), |i: int| (times[i] as int, items[i]))
}

/// The per-subscription observer of the throttle stage. It holds the
/// downstream observer, the window configuration, the buffered tailing
/// value, the pending window timer, and the composite subscription that
/// owns every timer as a cancellable child. In the guarded shared mode
/// all of this state sits behind one lock; here every read-modify-write
/// happens under one exclusive borrow, which is the same mutual
/// exclusion boundary.
pub struct ThrottleTimeObserver<O, Item> {
    pub observer: O,
    pub edge: ThrottleEdge,
    pub delay: u64,
    pub trailing_value: Option<Item>,
    pub throttled: Option<PendingTimer>,
    pub subscription: SharedSubscription,
}

impl<O, Item> ThrottleTimeObserver<O, Item> {
    pub open spec fn wf(&self) -> bool {
        self.subscription.wf()
    }

    /// The spec-level window state this observer is in.
    pub open spec fn spec_st(&self) -> ThrottleState<Item> {
        (
            self.trailing_value,
            match self.throttled {
                Some(p) => Some(p.due as int),
                None => None,
            },
        )
    }
}

impl<Item: Copy, O> ThrottleTimeObserver<O, Item> {
    /// One arrival, at instant `now`. An expired window fires before the
    /// arrival is absorbed — both under the same exclusive borrow, so
    /// the expiry path and the producer path can never interleave.
    pub fn next<E>(&mut self, now: u64, value: Item)
        where O: Observer<Item, E>
        requires
            old(self).wf(),
            old(self).observer.inv(),
            old(self).subscription.0.next_id < u64::MAX,
            now + old(self).delay <= u64::MAX,
        ensures
            final(self).wf(),
            final(self).observer.inv(),
            final(self).edge == old(self).edge,
            final(self).delay == old(self).delay,
            final(self).subscription.0.closed == old(self).subscription.0.closed,
            final(self).subscription.0.next_id <= old(self).subscription.0.next_id + 1,
            ({
                let step = arrival_step(
                    old(self).edge,
                    old(self).delay as int,
                    old(self).spec_st(),
                    now as int,
                    value,
                );
                &&& final(self).spec_st() == step.0
                &&& (!old(self).observer.stopped() ==> final(self).observer.events() == old(self).observer.events() + stream_items::<Item, E>(step.1) && !final(self).observer.stopped())
                &&& (old(self).observer.stopped() ==> final(self).observer.events() == old(self).observer.events() && final(self).observer.stopped())
            }),
    {
        proof {
            crate::event::lemma_counts_empty::<Item, E>();
        }
        if let Some(p) = self.throttled {
            if p.due <= now {
                let tv = self.trailing_value;
                self.trailing_value = None;
                self.throttled = None;
                self.subscription.remove(p.id);
                if let Some(v) = tv {
                    self.observer.next(v);
                } else {
                    proof {
                        assert(old(self).observer.events() + stream_items::<Item, E>(
                            Seq::<Item>::empty(),
                        ) =~= old(self).observer.events());
                    }
                }
            }
        }
        if self.edge == ThrottleEdge::Tailing {
            self.trailing_value = Some(value);
        }
        if self.throttled.is_none() {
            let id = self.subscription.add();
            self.throttled = Some(PendingTimer { id, due: now + self.delay });
            if self.edge == ThrottleEdge::Leading {
                self.observer.next(value);
            }
        }
        proof {
            let step = arrival_step(
                old(self).edge,
                old(self).delay as int,
                old(self).spec_st(),
                now as int,
                value,
            );
            crate::observable::lemma_stream_items::<Item, E>(step.1);
            if !old(self).observer.stopped() {
                assert(self.observer.events() =~= old(self).observer.events() + stream_items::<
                    Item,
                    E,
                >(step.1));
            }
        }
    }

    /// The window-expiry callback body, on the scheduler's path. The
    /// cancellation race is decided here: cancellation wins. If the
    /// composite or the timer's own child handle was cancelled before
    /// expiry reached this exclusive borrow, nothing is emitted; either
    /// way the spent timer detaches from its parent.
    pub fn fire<E>(&mut self)
        where O: Observer<Item, E>
        requires
            old(self).wf(),
            old(self).observer.inv(),
        ensures
            final(self).wf(),
            final(self).observer.inv(),
            final(self).edge == old(self).edge,
            final(self).delay == old(self).delay,
            final(self).subscription.0.closed == old(self).subscription.0.closed,
            final(self).subscription.0.next_id == old(self).subscription.0.next_id,
            old(self).throttled is None ==> *final(self) == *old(self),
            (old(self).throttled matches Some(p) ==> final(self).throttled is None
                && final(self).subscription.0.children@ == crate::subscription::remove_id(
                old(self).subscription.0.children@,
                p.id,
            )),
            (old(self).throttled matches Some(p) ==> ((old(self).subscription.0.closed
                || child_closed(old(self).subscription.0.children@, p.id)) ==> final(self).observer == old(self).observer && final(self).trailing_value == old(self).trailing_value)),
            (old(self).throttled matches Some(p) ==> (!(old(self).subscription.0.closed
                || child_closed(old(self).subscription.0.children@, p.id)) ==> final(self).trailing_value is None && (!old(self).observer.stopped() ==> final(self).observer.events() == old(self).observer.events() + (match old(self).trailing_value {
                Some(v) => seq![Event::<Item, E>::Next(v)],
                None => Seq::<Event<Item, E>>::empty(),
            })))),
    {
        if let Some(p) = self.throttled {
            self.throttled = None;
            let cancelled = self.subscription.is_closed() || self.subscription.is_child_closed(
                p.id,
            );
            self.subscription.remove(p.id);
            if !cancelled {
                let tv = self.trailing_value;
                self.trailing_value = None;
                if let Some(v) = tv {
                    self.observer.next(v);
                    proof {
                        assert(old(self).observer.events().push(Event::<Item, E>::Next(v)) =~= old(self).observer.events() + seq![Event::<Item, E>::Next(v)]);
                    }
                } else {
                    proof {
                        assert(old(self).observer.events() + Seq::<Event<Item, E>>::empty()
                            =~= old(self).observer.events());
                    }
                }
            }
        }
    }

    /// Errors bypass the window entirely: forwarded at once, never
    /// buffered or delayed, and the window state is left as it stands.
    pub fn error<E>(&mut self, err: E)
        where O: Observer<Item, E>
        requires
            old(self).observer.inv(),
        ensures
            final(self).observer.inv(),
            final(self).edge == old(self).edge,
            final(self).delay == old(self).delay,
            final(self).trailing_value == old(self).trailing_value,
            final(self).throttled == old(self).throttled,
            final(self).subscription == old(self).subscription,
            !old(self).observer.stopped() ==> final(self).observer.events() == old(self).observer.events().push(Event::<Item, E>::Fail(err)) && final(self).observer.stopped(),
            old(self).observer.stopped() ==> final(self).observer.events() == old(self).observer.events() && final(self).observer.stopped(),
    {
        self.observer.error(err);
    }

    /// Completion flushes the buffered tailing value, if any, ahead of
    /// the completion signal itself.
    pub fn complete<E>(&mut self)
        where O: Observer<Item, E>
        requires
            old(self).observer.inv(),
        ensures
            final(self).observer.inv(),
            final(self).edge == old(self).edge,
            final(self).delay == old(self).delay,
            final(self).trailing_value is None,
            final(self).throttled == old(self).throttled,
            final(self).subscription == old(self).subscription,
            !old(self).observer.stopped() ==> final(self).observer.events() == old(self).observer.events() + throttle_finish::<Item, E>(old(self).spec_st()) && final(self).observer.stopped(),
            old(self).observer.stopped() ==> final(self).observer.events() == old(self).observer.events() && final(self).observer.stopped(),
    {
        let tv = self.trailing_value;
        self.trailing_value = None;
        if let Some(v) = tv {
            self.observer.next(v);
        }
        self.observer.complete();
        proof {
            if !old(self).observer.stopped() {
                match old(self).trailing_value {
                    Some(v) => {
                        assert(old(self).observer.events().push(Event::<Item, E>::Next(v)).push(
                            Event::<Item, E>::Done,
                        ) =~= old(self).observer.events() + seq![
                            Event::<Item, E>::Next(v),
                            Event::<Item, E>::Done,
                        ]);
                    },
                    None => {
                        assert(old(self).observer.events().push(Event::<Item, E>::Done) =~= old(self).observer.events() + seq![Event::<Item, E>::Done]);
                    },
                }
            }
        }
    }
}

impl<Item, O2, U2> ThrottleTimeObserver<Subscriber<O2, U2>, Item> where U2: SubscriptionLike {
    /// Cancel the whole stage: the downstream gate shuts, so no item can
    /// reach the consumer any more, and every pending timer child of the
    /// composite is cancelled with it, so no expiry body will run.
    pub fn unsubscribe(&mut self)
        requires
            old(self).wf(),
        ensures
            final(self).wf(),
            final(self).subscription.0.closed,
            forall|i: int|
                0 <= i < final(self).subscription.0.children@.len() ==> (#[trigger] final(self).subscription.0.children@[i]).closed,
            final(self).observer.subscription.closed(),
            final(self).observer.observer == old(self).observer.observer,
            final(self).trailing_value == old(self).trailing_value,
            final(self).throttled == old(self).throttled,
            final(self).edge == old(self).edge,
            final(self).delay == old(self).delay,
    {
        self.subscription.unsubscribe();
        self.observer.subscription.unsubscribe();
    }
}

impl<S> ThrottleTimeOp<S> {
    /// Run the stage to its end against a deterministic timetable:
    /// `times[k]` is the arrival instant of the source's `k`-th item.
    /// An expired window fires before the arrival that finds it expired
    /// is absorbed; an upstream error bypasses the window at once; and
    /// completion flushes the buffered tailing value ahead of itself.
    /// The returned observer still holds the downstream subscriber and
    /// the composite that owned the window timers.
    pub fn actual_subscribe<Item: Copy, E: Copy, O: Observer<Item, E>>(
        self,
        times: &Vec<u64>,
        subscriber: Subscriber<O, SharedSubscription>,
    ) -> (r: ThrottleTimeObserver<Subscriber<O, SharedSubscription>, Item>) where
        S: ImplSubscribable<Item, E>,

        requires
            subscriber.inv(),
            !subscriber.stopped(),
            times@.len() == next_count(until_terminal(self.source.emits())),
            times@.len() < u64::MAX,
            forall|k: int|
                0 <= k < times@.len() ==> #[trigger] times@[k] + self.duration <= u64::MAX,
        ensures
            r.edge == self.edge,
            r.delay == self.duration,
            r.observer.inv(),
            ({
                let cut = until_terminal(self.source.emits());
                let run = throttle_run(
                    self.edge,
                    self.duration as int,
                    arrivals_of(times@, next_values(cut)),
                );
                r.observer.events() == subscriber.events() + stream_items::<Item, E>(run.1) + (
                match end_state(self.source.emits()) {
                    OState::Next => Seq::<Event<Item, E>>::empty(),
                    OState::Complete => throttle_finish::<Item, E>(run.0),
                    OState::Error(e) => seq![Event::<Item, E>::Fail(e)],
                })
            }),
    {
        let ThrottleTimeOp { source, duration, edge } = self;
        let ghost src_emits = source.emits();
        let ghost cut = until_terminal(src_emits);
        let ghost items = next_values(cut);
        let ghost arr = arrivals_of(times@, items);
        let evs = source.into_events();
        let mut st = ThrottleTimeObserver {
            observer: subscriber,
            edge,
            delay: duration,
            trailing_value: None,
            throttled: None,
            subscription: SharedSubscription::default(),
        };
        proof {
            crate::event::lemma_next_values_len(cut);
            assert(arr.take(0) =~= Seq::<(int, Item)>::empty());
            assert(subscriber.events() + stream_items::<Item, E>(Seq::<Item>::empty())
                =~= subscriber.events());
        }
        let n = evs.len();
        let tlen = times.len();
        let mut i: usize = 0;
        let mut k: usize = 0;
        while i < n
            invariant
                tlen == times@.len(),
                i <= n,
                n == evs@.len(),
                evs@ == src_emits,
                edge == self.edge,
                duration == self.duration,
                src_emits == self.source.emits(),
                cut == until_terminal(src_emits),
                items == next_values(cut),
                items.len() == next_count(cut),
                arr == arrivals_of(times@, items),
                arr.len() == items.len(),
                times@.len() == items.len(),
                times@.len() < u64::MAX,
                forall|x: int| 0 <= x < times@.len() ==> #[trigger] times@[x] + duration <= u64::MAX,
                forall|j: int| 0 <= j < i ==> !is_terminal(evs@[j]),
                k as int == next_count(evs@.take(i as int)),
                k <= times@.len(),
                st.edge == edge,
                st.delay == duration,
                st.wf(),
                st.observer.inv(),
                !st.observer.stopped(),
                st.subscription.0.next_id as int <= k,
                st.spec_st() == throttle_run(edge, duration as int, arr.take(k as int)).0,
                st.observer.events() == subscriber.events() + stream_items::<Item, E>(
                    throttle_run(edge, duration as int, arr.take(k as int)).1,
                ),
            decreases n - i,
        {
            let ev = evs[i];
            proof {
                crate::event::lemma_until_terminal_peel(evs@, i as int);
                lemma_counts_concat(evs@.take(i as int), until_terminal(evs@.skip(i as int)));
                assert(evs@.skip(i as int)[0] == evs@[i as int]);
                crate::event::lemma_next_values_len(evs@.take(i as int));
            }
            match ev {
                Event::Next(v) => {
                    proof {
                        let rest = until_terminal(evs@.skip(i as int));
                        assert(rest == seq![ev] + until_terminal(
                            evs@.skip(i as int).drop_first(),
                        ));
                        lemma_counts_concat(
                            seq![ev],
                            until_terminal(evs@.skip(i as int).drop_first()),
                        );
                        assert(seq![ev].drop_last() =~= Seq::<Event<Item, E>>::empty());
                        crate::event::lemma_counts_empty::<Item, E>();
                        assert(next_count(seq![ev]) == 1);
                        assert(next_values(seq![ev]) =~= seq![v]);
                        assert(next_count(cut) >= k + 1);
                        assert(items == next_values(evs@.take(i as int)) + next_values(rest));
                        assert(items[k as int] == next_values(rest)[0]);
                        assert(next_values(rest) == seq![v] + next_values(
                            until_terminal(evs@.skip(i as int).drop_first()),
                        ));
                        assert(items[k as int] == v);
                        assert(arr[k as int] == (times@[k as int] as int, v));
                    }
                    proof {
                        assert(k < tlen);
                    }
                    let t = times[k];
                    st.next(t, v);
                    k = k + 1;
                    proof {
                        assert(arr.take(k as int).drop_last() =~= arr.take(k as int - 1));
                        assert(arr.take(k as int).last() == arr[k as int - 1]);
                        let prev = throttle_run(edge, duration as int, arr.take(k as int - 1));
                        let step = arrival_step(edge, duration as int, prev.0, t as int, v);
                        crate::observable::lemma_stream_items_concat::<Item, E>(prev.1, step.1);
                        assert(subscriber.events() + (stream_items::<Item, E>(prev.1)
                            + stream_items::<Item, E>(step.1)) =~= (subscriber.events()
                            + stream_items::<Item, E>(prev.1)) + stream_items::<Item, E>(step.1));
                        assert(evs@.take(i + 1 as int).drop_last() =~= evs@.take(i as int));
                        assert(evs@.take(i + 1 as int).last() == evs@[i as int]);
                        crate::event::lemma_counts_push(evs@.take(i as int), ev);
                    }
                },
                Event::Fail(e) => {
                    st.error(e);
                    proof {
                        crate::event::lemma_until_terminal_at(evs@, i as int);
                        crate::subscribable::lemma_end_state_at(evs@, i as int);
                        assert(cut == evs@.take(i as int).push(ev));
                        crate::event::lemma_counts_push(evs@.take(i as int), ev);
                        assert(next_count(cut) == k as int);
                        assert(arr.take(k as int) =~= arr);
                        assert((subscriber.events() + stream_items::<Item, E>(
                            throttle_run(edge, duration as int, arr).1,
                        )).push(Event::<Item, E>::Fail(e)) =~= subscriber.events()
                            + stream_items::<Item, E>(throttle_run(edge, duration as int, arr).1)
                            + seq![Event::<Item, E>::Fail(e)]);
                    }
                    return st;
                },
                Event::Done => {
                    proof {
                        crate::event::lemma_until_terminal_at(evs@, i as int);
                        crate::subscribable::lemma_end_state_at(evs@, i as int);
                        assert(cut == evs@.take(i as int).push(ev));
                        crate::event::lemma_counts_push(evs@.take(i as int), ev);
                        assert(next_count(cut) == k as int);
                        assert(arr.take(k as int) =~= arr);
                    }
                    st.complete();
                    return st;
                },
            }
            i = i + 1;
        }
        proof {
            crate::event::lemma_until_terminal_all(evs@);
            crate::subscribable::lemma_end_state_all(evs@);
            assert(evs@.take(n as int) =~= evs@);
            assert(next_count(cut) == k as int);
            assert(arr.take(k as int) =~= arr);
        }
        st
    }
}

/// Leading edge law: when every arrival falls inside the first window —
/// the source outpaces the window — exactly the first item is emitted,
/// immediately, and every later arrival is absorbed without emission.
pub proof fn lemma_throttle_leading_window<I>(delay: int, arr: Seq<(int, I)>)
    requires
        arr.len() > 0,
        forall|k: int|
            0 <= k < arr.len() ==> arr[0].0 <= (#[trigger] arr[k]).0 < arr[0].0 + delay,
    ensures
        throttle_run(ThrottleEdge::Leading, delay, arr).1 == seq![arr[0].1],
        throttle_run(ThrottleEdge::Leading, delay, arr).0 == ((None::<I>, Some(
            arr[0].0 + delay,
        ))),
    decreases arr.len(),
{
    if arr.len() == 1 {
        assert(arr.drop_last().len() == 0);
        let step = arrival_step(
            ThrottleEdge::Leading,
            delay,
            (None::<I>, None::<int>),
            arr[0].0,
            arr[0].1,
        );
        assert(arr.last() == arr[0]);
        assert(step.1 =~= seq![arr[0].1]);
        assert(Seq::<I>::empty() + step.1 =~= step.1);
    } else {
        assert(arr.drop_last().len() > 0);
        assert(arr.drop_last()[0] == arr[0]);
        assert(forall|k: int|
            0 <= k < arr.drop_last().len() ==> arr[0].0 <= (#[trigger] arr.drop_last()[k]).0
                < arr[0].0 + delay);
        lemma_throttle_leading_window(delay, arr.drop_last());
        let prev = throttle_run(ThrottleEdge::Leading, delay, arr.drop_last());
        assert(arr[arr.len() - 1] == arr.last());
        assert(arr.last().0 < arr[0].0 + delay);
        let step = arrival_step(ThrottleEdge::Leading, delay, prev.0, arr.last().0, arr.last().1);
        assert(step.1 =~= Seq::<I>::empty());
        assert(prev.1 + step.1 =~= prev.1);
    }
}

/// Tailing edge law, within one window: while the window is open nothing
/// is emitted, and the last arrival stands buffered; a source that
/// completes mid-window therefore has exactly that last item flushed
/// ahead of the completion signal.
pub proof fn lemma_throttle_tailing_window<I, E>(delay: int, arr: Seq<(int, I)>)
    requires
        arr.len() > 0,
        forall|k: int|
            0 <= k < arr.len() ==> arr[0].0 <= (#[trigger] arr[k]).0 < arr[0].0 + delay,
    ensures
        throttle_run(ThrottleEdge::Tailing, delay, arr).1 == Seq::<I>::empty(),
        throttle_run(ThrottleEdge::Tailing, delay, arr).0 == ((Some(arr.last().1), Some(
            arr[0].0 + delay,
        ))),
        throttle_finish::<I, E>(throttle_run(ThrottleEdge::Tailing, delay, arr).0) == seq![
            Event::<I, E>::Next(arr.last().1),
            Event::<I, E>::Done,
        ],
    decreases arr.len(),
{
    if arr.len() == 1 {
        assert(arr.drop_last().len() == 0);
        assert(arr.last() == arr[0]);
        let step = arrival_step(
            ThrottleEdge::Tailing,
            delay,
            (None::<I>, None::<int>),
            arr[0].0,
            arr[0].1,
        );
        assert(step.1 =~= Seq::<I>::empty());
        assert(Seq::<I>::empty() + step.1 =~= Seq::<I>::empty());
    } else {
        assert(arr.drop_last().len() > 0);
        assert(arr.drop_last()[0] == arr[0]);
        assert(arr.drop_last().last() == arr[arr.len() - 2]);
        assert(forall|k: int|
            0 <= k < arr.drop_last().len() ==> arr[0].0 <= (#[trigger] arr.drop_last()[k]).0
                < arr[0].0 + delay);
        lemma_throttle_tailing_window::<I, E>(delay, arr.drop_last());
        let prev = throttle_run(ThrottleEdge::Tailing, delay, arr.drop_last());
        assert(arr[arr.len() - 1] == arr.last());
        assert(arr.last().0 < arr[0].0 + delay);
        let step = arrival_step(ThrottleEdge::Tailing, delay, prev.0, arr.last().0, arr.last().1);
        assert(step.1 =~= Seq::<I>::empty());
        assert(prev.1 + step.1 =~= Seq::<I>::empty());
    }
}

/// Tailing edge law, at expiry: when the next arrival comes at or after
/// the open window's deadline, the expiring window releases exactly the
/// last item it absorbed — no more, no less.
pub proof fn lemma_throttle_tailing_expiry<I>(delay: int, arr: Seq<(int, I)>, t: int, v: I)
    requires
        arr.len() > 0,
        forall|k: int|
            0 <= k < arr.len() ==> arr[0].0 <= (#[trigger] arr[k]).0 < arr[0].0 + delay,
        t >= arr[0].0 + delay,
    ensures
        throttle_run(ThrottleEdge::Tailing, delay, arr.push((t, v))).1 == seq![arr.last().1],
    decreases arr.len(),
{
    lemma_throttle_tailing_window::<I, ()>(delay, arr);
    let prev = throttle_run(ThrottleEdge::Tailing, delay, arr);
    assert(arr.push((t, v)).drop_last() =~= arr);
    assert(arr.push((t, v)).last() == (t, v));
    let step = arrival_step(ThrottleEdge::Tailing, delay, prev.0, t, v);
    assert(fire_step(prev.0, t).1 =~= seq![arr.last().1]);
    assert(step.1 =~= seq![arr.last().1] + Seq::<I>::empty());
    assert(step.1 =~= seq![arr.last().1]);
    assert(prev.1 + step.1 =~= seq![arr.last().1]);
}

/// For the pure leading edge the tailing buffer is never used: no
/// arrival writes it, so no window expiry or completion can ever
/// release a buffered value.
pub proof fn lemma_leading_never_buffers<I>(delay: int, arr: Seq<(int, I)>)
    ensures
        throttle_run(ThrottleEdge::Leading, delay, arr).0.0 is None,
    decreases arr.len(),
{
    if arr.len() > 0 {
        lemma_leading_never_buffers(delay, arr.drop_last());
    }
}

/// Leading edge, in general: the very first arrival finds no window
/// open, so it is emitted immediately and stands first in the output,
/// whatever pattern of arrivals follows it.
pub proof fn lemma_leading_first_immediate<I>(delay: int, arr: Seq<(int, I)>)
    requires
        arr.len() > 0,
    ensures
        throttle_run(ThrottleEdge::Leading, delay, arr).1.len() > 0,
        throttle_run(ThrottleEdge::Leading, delay, arr).1[0] == arr[0].1,
    decreases arr.len(),
{
    if arr.len() == 1 {
        assert(arr.last() == arr[0]);
        let step = arrival_step(
            ThrottleEdge::Leading,
            delay,
            (None::<I>, None::<int>),
            arr[0].0,
            arr[0].1,
        );
        assert(step.1 =~= seq![arr[0].1]);
        assert(Seq::<I>::empty() + step.1 =~= step.1);
    } else {
        lemma_leading_first_immediate(delay, arr.drop_last());
        assert(arr.drop_last()[0] == arr[0]);
        let prev = throttle_run(ThrottleEdge::Leading, delay, arr.drop_last());
        let step = arrival_step(
            ThrottleEdge::Leading,
            delay,
            prev.0,
            arr.last().0,
            arr.last().1,
        );
        assert((prev.1 + step.1)[0] == prev.1[0]);
    }
}

} // verus!
