use vstd::prelude::*;

use crate::event::fail_count;
use crate::event::is_terminal;
use crate::event::lemma_counts_empty;
use crate::event::lemma_counts_push;
use crate::event::next_count;
use crate::event::next_values;
use crate::event::Event;
use crate::observer::Observer;
use crate::subscribable::deliver_events;
use crate::subscribable::ImplSubscribable;
use crate::subscribable::OState;

verus! {

/// The basic blueprint: a finite, recorded emission sequence that is
/// played back, in order, to whoever subscribes. Producing is synchronous
/// within the call stack of the subscriber that drives it.
pub struct Observable<Item, E> {
    pub events: Vec<Event<Item, E>>,
}

impl<Item, E> Observable<Item, E> {
    /// A blueprint that plays back exactly these deliveries, whatever
    /// discipline they follow: the delivery gate cuts at the first
    /// terminal event, so even a source that tries to complete and then
    /// error reaches an observer at most once with a terminal event.
    pub fn new(events: Vec<Event<Item, E>>) -> (o: Self)
        ensures
            o.events@ == events@,
    {
        Observable { events }
    }
}

/// The `Next` emissions for these items, in order.
pub open spec fn stream_items<I, E>(items: Seq<I>) -> Seq<Event<I, E>>
    decreases items.len(),
{
    if items.len() == 0 {
        Seq::<Event<I, E>>::empty()
    } else {
        stream_items(items.drop_last()).push(Event::Next(items.last()))
    }
}

/// A lawful finite stream: every item in order, then completion.
pub open spec fn stream_of<I, E>(items: Seq<I>) -> Seq<Event<I, E>> {
    stream_items(items).push(Event::Done)
}

/// What the item stream is made of: items only, no terminal event.
pub proof fn lemma_stream_items<I, E>(items: Seq<I>)
    ensures
        stream_items::<I, E>(items).len() == items.len(),
        next_values(stream_items::<I, E>(items)) == items,
        next_count(stream_items::<I, E>(items)) == items.len(),
        forall|j: int|
            0 <= j < items.len() ==> !is_terminal(#[trigger] stream_items::<I, E>(items)[j]),
        forall|j: int|
            0 <= j < items.len() ==> stream_items::<I, E>(items)[j] == Event::<I, E>::Next(
                items[j],
            ),
    decreases items.len(),
{
    lemma_counts_empty::<I, E>();
    if items.len() == 0 {
        assert(next_values(stream_items::<I, E>(items)) =~= items);
    } else {
        lemma_stream_items::<I, E>(items.drop_last());
        lemma_counts_push(
            stream_items::<I, E>(items.drop_last()),
            Event::<I, E>::Next(items.last()),
        );
        assert(next_values(stream_items::<I, E>(items.drop_last())) + seq![items.last()]
            =~= items);
    }
}

/// The item stream distributes over concatenation.
pub proof fn lemma_stream_items_concat<I, E>(a: Seq<I>, b: Seq<I>)
    ensures
        stream_items::<I, E>(a + b) == stream_items::<I, E>(a) + stream_items::<I, E>(b),
    decreases b.len(),
{
    if b.len() == 0 {
        assert(a + b =~= a);
        assert(stream_items::<I, E>(a) + stream_items::<I, E>(b) =~= stream_items::<I, E>(a));
    } else {
        lemma_stream_items_concat::<I, E>(a, b.drop_last());
        assert((a + b).drop_last() =~= a + b.drop_last());
        assert((a + b).last() == b.last());
        assert(stream_items::<I, E>(a) + stream_items::<I, E>(b.drop_last()).push(
            Event::<I, E>::Next(b.last()),
        ) =~= (stream_items::<I, E>(a) + stream_items::<I, E>(b.drop_last())).push(
            Event::<I, E>::Next(b.last()),
        ));
        assert(b.drop_last().push(b.last()) =~= b);
    }
}

/// A source that emits every item of the vector, in order, and then
/// completes: the canonical producer for a finite collection.
pub fn from_iter<Item: Copy, E>(items: Vec<Item>) -> (o: Observable<Item, E>)
    ensures
        o.events@ == stream_of::<Item, E>(items@),
{
    let mut events: Vec<Event<Item, E>> = Vec::new();
    let n = items.len();
    let mut i: usize = 0;
    while i < n
        invariant
            i <= n,
            n == items@.len(),
            events@ == stream_items::<Item, E>(items@.take(i as int)),
        decreases n - i,
    {
        proof {
            assert(items@.take(i + 1 as int).drop_last() =~= items@.take(i as int));
            assert(items@.take(i + 1 as int).last() == items@[i as int]);
        }
        events.push(Event::Next(items[i]));
        i = i + 1;
    }
    proof {
        assert(items@.take(n as int) =~= items@);
    }
    events.push(Event::Done);
    Observable { events }
}

/// A source that emits this one item and completes.
pub fn of<Item: Copy, E>(value: Item) -> (o: Observable<Item, E>)
    ensures
        o.events@ == stream_of::<Item, E>(seq![value]),
{
    let mut events: Vec<Event<Item, E>> = Vec::new();
    events.push(Event::Next(value));
    events.push(Event::Done);
    proof {
        assert(seq![value].drop_last() =~= Seq::<Item>::empty());
        assert(seq![value].last() == value);
        assert(stream_items::<Item, E>(Seq::<Item>::empty()) =~= Seq::<Event<Item, E>>::empty());
        assert(stream_items::<Item, E>(seq![value]) =~= seq![Event::<Item, E>::Next(value)]);
        assert(events@ =~= stream_of::<Item, E>(seq![value]));
    }
    Observable { events }
}

/// A source that completes at once, emitting nothing.
pub fn empty<Item, E>() -> (o: Observable<Item, E>)
    ensures
        o.events@ == stream_of::<Item, E>(Seq::<Item>::empty()),
{
    let mut events: Vec<Event<Item, E>> = Vec::new();
    events.push(Event::Done);
    proof {
        assert(events@ =~= stream_of::<Item, E>(Seq::<Item>::empty()));
    }
    Observable { events }
}

/// A source that fails at once with this error, emitting no item.
pub fn throw<Item, E: Copy>(err: E) -> (o: Observable<Item, E>)
    ensures
        o.events@ == seq![Event::<Item, E>::Fail(err)],
        fail_count(o.events@) == 1,
{
    let mut events: Vec<Event<Item, E>> = Vec::new();
    events.push(Event::Fail(err));
    proof {
        lemma_counts_empty::<Item, E>();
        lemma_counts_push(Seq::<Event<Item, E>>::empty(), Event::<Item, E>::Fail(err));
        assert(Seq::<Event<Item, E>>::empty().push(Event::<Item, E>::Fail(err)) =~= events@);
    }
    Observable { events }
}

impl<Item: Copy, E: Copy> ImplSubscribable<Item, E> for Observable<Item, E> {
    open spec fn emits(&self) -> Seq<Event<Item, E>> {
        self.events@
    }

    fn into_events(self) -> (v: Vec<Event<Item, E>>) {
        self.events
    }

    fn subscribe_return_state<O: Observer<Item, E>>(self, observer: &mut O) -> (st: OState<E>) {
        deliver_events(&self.events, observer)
    }
}

} // verus!
