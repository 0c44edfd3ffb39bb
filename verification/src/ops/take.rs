use vstd::prelude::*;

use crate::event::done_count;
use crate::event::fail_count;
use crate::event::has_terminal;
use crate::event::is_terminal;
use crate::event::lemma_counts_concat;
use crate::event::lemma_counts_empty;
use crate::event::lemma_counts_push;
use crate::event::next_count;
use crate::event::next_values;
use crate::event::until_terminal;
use crate::event::Event;
use crate::observer::Observer;
use crate::subscribable::deliver_events;
use crate::subscribable::end_state;
use crate::subscribable::ImplSubscribable;
use crate::subscribable::OState;

verus! {

/// What a bounded-count cutoff passes on: the first `n` items, then one
/// completion it synthesizes itself, whether or not the source would have
/// gone on; an upstream terminal event that arrives before the bound is
/// reached is forwarded as it stands.
pub open spec fn take_spec<I, E>(s: Seq<Event<I, E>>, n: nat) -> Seq<Event<I, E>>
    decreases s.len(),
{
    if s.len() == 0 {
        s
    } else if is_terminal(s[0]) {
        seq![s[0]]
    } else if n == 0 {
        seq![Event::Done]
    } else if n == 1 {
        seq![s[0], Event::Done]
    } else {
        seq![s[0]] + take_spec(s.drop_first(), (n - 1) as nat)
    }
}

/// Emits only the first `count` values emitted by the source. If the
/// source emits fewer than `count` values then all of them are emitted.
/// After that the operator completes, regardless of whether the source
/// completes.
pub trait Take<Item, E>: ImplSubscribable<Item, E> {
    fn take(self, count: u32) -> (r: TakeOp<Self>)
        ensures
            r.source == self,
            r.count == count,
    ;
}

impl<Item, E, S: ImplSubscribable<Item, E>> Take<Item, E> for S {
    fn take(self, count: u32) -> (r: TakeOp<Self>) {
        TakeOp { source: self, count }
    }
}

/// The bounded-count cutoff stage, wrapping its source.
pub struct TakeOp<S> {
    pub source: S,
    pub count: u32,
}

/// Apply the cutoff to materialized emissions: this is where the
/// tri-state control signal does its work, stopping the run early once
/// the bound is reached instead of waiting for the upstream terminal.
fn take_events<Item: Copy, E: Copy>(events: &Vec<Event<Item, E>>, total: u32) -> (out: Vec<
    Event<Item, E>,
>)
    ensures
        out@ == take_spec(events@, total as nat),
{
    let mut out: Vec<Event<Item, E>> = Vec::new();
    let n = events.len();
    let mut i: usize = 0;
    proof {
        assert(events@.skip(0) =~= events@);
        assert(events@.take(0) =~= Seq::<Event<Item, E>>::empty());
        assert(Seq::<Event<Item, E>>::empty() + take_spec(events@, total as nat) =~= take_spec(
            events@,
            total as nat,
        ));
    }
    while i < n
        invariant
            i <= n,
            n == events@.len(),
            i < total as nat || total == 0,
            total == 0 ==> i == 0,
            out@ == events@.take(i as int),
            forall|j: int| 0 <= j < i ==> !is_terminal(events@[j]),
            take_spec(events@, total as nat) == out@ + take_spec(
                events@.skip(i as int),
                (total - i) as nat,
            ),
        decreases n - i,
    {
        let ev = events[i];
        proof {
            assert(events@.skip(i as int)[0] == events@[i as int]);
        }
        match ev {
            Event::Next(v) => {
                if i + 1 < total as usize {
                    out.push(ev);
                    proof {
                        assert(events@.skip(i as int).drop_first() =~= events@.skip(i + 1 as int));
                        assert(seq![events@[i as int]] + take_spec(
                            events@.skip(i + 1 as int),
                            (total - i - 1) as nat,
                        ) == take_spec(events@.skip(i as int), (total - i) as nat));
                        assert(out@ =~= events@.take(i + 1 as int));
                        assert((out@.drop_last() + seq![events@[i as int]]) + take_spec(
                            events@.skip(i + 1 as int),
                            (total - i - 1) as nat,
                        ) =~= out@.drop_last() + (seq![events@[i as int]] + take_spec(
                            events@.skip(i + 1 as int),
                            (total - i - 1) as nat,
                        )));
                        assert(out@.drop_last() =~= events@.take(i as int));
                    }
                    i = i + 1;
                } else if total > 0 {
                    // the bound is reached with this item: forward it and
                    // synthesize the one completion
                    out.push(ev);
                    out.push(Event::Done);
                    proof {
                        assert(take_spec(events@.skip(i as int), 1nat) =~= seq![
                            events@[i as int],
                            Event::<Item, E>::Done,
                        ]);
                        assert(out@ =~= events@.take(i as int) + seq![
                            events@[i as int],
                            Event::<Item, E>::Done,
                        ]);
                    }
                    return out;
                } else {
                    // a zero bound completes before any item
                    out.push(Event::Done);
                    proof {
                        assert(take_spec(events@.skip(i as int), 0nat) =~= seq![
                            Event::<Item, E>::Done,
                        ]);
                        assert(out@ =~= events@.take(i as int) + seq![Event::<Item, E>::Done]);
                    }
                    return out;
                }
            },
            _ => {
                // an upstream terminal event before the bound: forward it
                out.push(ev);
                proof {
                    assert(take_spec(events@.skip(i as int), (total - i) as nat) =~= seq![
                        events@[i as int],
                    ]);
                    assert(out@ =~= events@.take(i as int) + seq![events@[i as int]]);
                }
                return out;
            },
        }
    }
    proof {
        assert(events@.skip(n as int) =~= Seq::<Event<Item, E>>::empty());
        assert(take_spec(Seq::<Event<Item, E>>::empty(), (total - i) as nat) =~= Seq::<
            Event<Item, E>,
        >::empty());
        assert(out@ + Seq::<Event<Item, E>>::empty() =~= out@);
        assert(events@.take(n as int) =~= events@);
    }
    out
}

/// Drive a source through a bounded-count cutoff into an observer: the
/// shared engine behind the cutoff stages. At most `total` items go
/// downstream; reaching the bound synthesizes the single completion.
pub fn subscribe_source<
    Item: Copy,
    E: Copy,
    S: ImplSubscribable<Item, E>,
    O: Observer<Item, E>,
>(source: S, total: u32, observer: &mut O) -> (st: OState<E>)
    requires
        old(observer).inv(),
    ensures
        final(observer).inv(),
        old(observer).stopped() ==> final(observer).events() == old(observer).events() && final(observer).stopped(),
        !old(observer).stopped() ==> final(observer).events() == old(observer).events()
            + until_terminal(take_spec(source.emits(), total as nat)) && final(observer).stopped()
            == has_terminal(take_spec(source.emits(), total as nat)),
        st == end_state(take_spec(source.emits(), total as nat)),
{
    let events = source.into_events();
    let out = take_events(&events, total);
    deliver_events(&out, observer)
}

impl<Item: Copy, E: Copy, S: ImplSubscribable<Item, E>> ImplSubscribable<Item, E> for TakeOp<S> {
    open spec fn emits(&self) -> Seq<Event<Item, E>> {
        take_spec(self.source.emits(), self.count as nat)
    }

    fn into_events(self) -> (v: Vec<Event<Item, E>>) {
        let events = self.source.into_events();
        take_events(&events, self.count)
    }

    fn subscribe_return_state<O: Observer<Item, E>>(self, observer: &mut O) -> (st: OState<E>) {
        subscribe_source(self.source, self.count, observer)
    }
}

/// Bounded cutoff law: on a lawful source that emits some items and then
/// completes, a cutoff with bound `n` emits exactly the first
/// `min(n, m)` of the `m` items and then exactly one completion — never
/// an error, never a second terminal event.
pub proof fn lemma_take_bounded<I, E>(s: Seq<Event<I, E>>, n: nat)
    requires
        s.len() > 0,
        s.last() is Done,
        forall|j: int| 0 <= j < s.len() - 1 ==> !is_terminal(s[j]),
    ensures
        next_count(s) == s.len() - 1,
        next_values(s).len() == s.len() - 1,
        next_count(take_spec(s, n)) == if n <= s.len() - 1 {
            n as int
        } else {
            s.len() - 1
        },
        done_count(take_spec(s, n)) == 1,
        fail_count(take_spec(s, n)) == 0,
        next_values(take_spec(s, n)) == next_values(s).take(
            if n <= s.len() - 1 {
                n as int
            } else {
                s.len() - 1
            },
        ),
    decreases s.len(),
{
    lemma_counts_empty::<I, E>();
    assert(forall|j: int|
        0 <= j < s.drop_last().len() ==> !is_terminal(#[trigger] s.drop_last()[j]));
    crate::event::lemma_all_next_count(s.drop_last());
    crate::event::lemma_next_values_len(s);
    lemma_counts_concat(seq![s[0]], s.drop_first());
    assert(seq![s[0]] + s.drop_first() =~= s);
    assert(seq![s[0]].drop_last() =~= Seq::<Event<I, E>>::empty());
    lemma_counts_push(Seq::<Event<I, E>>::empty(), s[0]);
    assert(Seq::<Event<I, E>>::empty().push(s[0]) =~= seq![s[0]]);
    if s.len() == 1 {
        assert(s[0] is Done);
        assert(take_spec(s, n) =~= seq![s[0]]);
        assert(next_values(take_spec(s, n)) =~= next_values(s).take(0));
    } else {
        assert(!is_terminal(s[0]));
        let v = s[0]->Next_0;
        assert(next_values(seq![s[0]]) =~= seq![v]);
        if n == 0 {
            let out = seq![Event::<I, E>::Done];
            assert(take_spec(s, n) == out);
            assert(out.drop_last() =~= Seq::<Event<I, E>>::empty());
            lemma_counts_push(Seq::<Event<I, E>>::empty(), Event::<I, E>::Done);
            assert(next_values(out) =~= next_values(s).take(0));
        } else if n == 1 {
            let out = seq![s[0], Event::<I, E>::Done];
            assert(take_spec(s, n) == out);
            assert(out =~= seq![s[0]].push(Event::<I, E>::Done));
            lemma_counts_push(seq![s[0]], Event::<I, E>::Done);
            assert(next_values(s) == seq![v] + next_values(s.drop_first()));
            assert(next_values(out) =~= next_values(s).take(1));
        } else {
            assert(s.drop_first().len() > 0);
            assert(s.drop_first().last() == s.last());
            assert(forall|j: int|
                0 <= j < s.drop_first().len() - 1 ==> !is_terminal(#[trigger] s.drop_first()[j]));
            lemma_take_bounded(s.drop_first(), (n - 1) as nat);
            crate::event::lemma_next_values_len(s.drop_first());
            crate::event::lemma_next_values_len(s);
            lemma_counts_concat(seq![s[0]], take_spec(s.drop_first(), (n - 1) as nat));
            let m = s.len() - 1;
            let k = if n <= m { n as int } else { m };
            assert(next_values(s) == seq![v] + next_values(s.drop_first()));
            assert(seq![v] + next_values(s.drop_first()).take(k - 1) =~= (seq![v] + next_values(
                s.drop_first(),
            )).take(k));
        }
    }
}

/// However the source behaves — lawful or not, completing or never
/// terminating — the cutoff emits at most `n` items and at most one
/// terminal event.
pub proof fn lemma_take_bound_any<I, E>(s: Seq<Event<I, E>>, n: nat)
    ensures
        next_count(take_spec(s, n)) <= n,
        crate::event::terminal_count(take_spec(s, n)) <= 1,
    decreases s.len(),
{
    lemma_counts_empty::<I, E>();
    if s.len() == 0 {
    } else if is_terminal(s[0]) {
        assert(seq![s[0]].drop_last() =~= Seq::<Event<I, E>>::empty());
        lemma_counts_push(Seq::<Event<I, E>>::empty(), s[0]);
        assert(Seq::<Event<I, E>>::empty().push(s[0]) =~= seq![s[0]]);
    } else if n == 0 {
        lemma_counts_push(Seq::<Event<I, E>>::empty(), Event::<I, E>::Done);
        assert(Seq::<Event<I, E>>::empty().push(Event::<I, E>::Done) =~= seq![
            Event::<I, E>::Done,
        ]);
    } else if n == 1 {
        lemma_counts_push(Seq::<Event<I, E>>::empty(), s[0]);
        assert(Seq::<Event<I, E>>::empty().push(s[0]) =~= seq![s[0]]);
        lemma_counts_push(seq![s[0]], Event::<I, E>::Done);
        assert(seq![s[0]].push(Event::<I, E>::Done) =~= seq![s[0], Event::<I, E>::Done]);
    } else {
        lemma_take_bound_any(s.drop_first(), (n - 1) as nat);
        lemma_counts_push(Seq::<Event<I, E>>::empty(), s[0]);
        assert(Seq::<Event<I, E>>::empty().push(s[0]) =~= seq![s[0]]);
        lemma_counts_concat(seq![s[0]], take_spec(s.drop_first(), (n - 1) as nat));
    }
}

} // verus!
