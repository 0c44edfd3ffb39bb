use vstd::prelude::*;

use crate::event::done_count;
use crate::event::fail_count;
use crate::event::has_terminal;
use crate::event::is_terminal;
use crate::event::lemma_counts_push;
use crate::event::next_count;
use crate::event::next_values;
use crate::event::terminal_count;
use crate::event::Event;

verus! {

/// The consumer-side capability set: deliver an item, deliver an error,
/// deliver completion. `next` may be accepted any number of times while
/// the observer is live; `error` and `complete` are mutually exclusive
/// terminal signals, each accepted at most once. After the first terminal
/// signal the observer is stopped, and every later call of any kind must
/// be absorbed as a no-op rather than treated as a fault.
pub trait Observer<Item, E>: Sized {
    /// Internal health that every implementation maintains across calls.
    spec fn inv(&self) -> bool;

    /// The deliveries accepted so far, in order.
    spec fn events(&self) -> Seq<Event<Item, E>>;

    /// Whether delivery has ended for good, by a terminal event or by
    /// cancellation: once stopped, nothing further is accepted.
    spec fn stopped(&self) -> bool;

    fn next(&mut self, value: Item)
        requires
            old(self).inv(),
        ensures
            final(self).inv(),
            old(self).stopped() ==> final(self).events() == old(self).events() && final(self).stopped(),
            !old(self).stopped() ==> final(self).events() == old(self).events().push(
                Event::Next(value),
            ) && !final(self).stopped(),
    ;

    fn error(&mut self, err: E)
        requires
            old(self).inv(),
        ensures
            final(self).inv(),
            old(self).stopped() ==> final(self).events() == old(self).events() && final(self).stopped(),
            !old(self).stopped() ==> final(self).events() == old(self).events().push(
                Event::Fail(err),
            ) && final(self).stopped(),
    ;

    fn complete(&mut self)
        requires
            old(self).inv(),
        ensures
            final(self).inv(),
            old(self).stopped() ==> final(self).events() == old(self).events() && final(self).stopped(),
            !old(self).stopped() ==> final(self).events() == old(self).events().push(
                Event::Done,
            ) && final(self).stopped(),
    ;
}

/// An observer that records every delivery it accepts, for consumers that
/// want to read the stream back after it ran. It stops itself on the first
/// terminal event, so its log always carries at most one terminal event.
pub struct SubscribeAll<Item, E> {
    pub received: Vec<Event<Item, E>>,
    pub halted: bool,
}

impl<Item, E> SubscribeAll<Item, E> {
    /// A fresh recorder: empty log, still live.
    pub fn new() -> (s: Self)
        ensures
            s.received@.len() == 0,
            !s.halted,
            s.inv(),
    {
        proof {
            crate::event::lemma_counts_empty::<Item, E>();
        }
        SubscribeAll { received: Vec::new(), halted: false }
    }
}

impl<Item, E> Observer<Item, E> for SubscribeAll<Item, E> {
    /// The halt flag mirrors the log, and the log itself is a lawful
    /// delivery history: at most one terminal event, standing last.
    open spec fn inv(&self) -> bool {
        &&& self.halted == has_terminal(self.received@)
        &&& terminal_count(self.received@) <= 1
        &&& (self.halted ==> self.received@.len() > 0 && is_terminal(self.received@.last()))
    }

    open spec fn events(&self) -> Seq<Event<Item, E>> {
        self.received@
    }

    open spec fn stopped(&self) -> bool {
        self.halted
    }

    fn next(&mut self, value: Item) {
        if !self.halted {
            proof {
                lemma_counts_push(self.received@, Event::<Item, E>::Next(value));
            }
            self.received.push(Event::Next(value));
        }
    }

    fn error(&mut self, err: E) {
        if !self.halted {
            proof {
                lemma_counts_push(self.received@, Event::<Item, E>::Fail(err));
            }
            self.received.push(Event::Fail(err));
            self.halted = true;
        }
    }

    fn complete(&mut self) {
        if !self.halted {
            proof {
                lemma_counts_push(self.received@, Event::<Item, E>::Done);
            }
            self.received.push(Event::Done);
            self.halted = true;
        }
    }
}

impl<Item: Copy, E: Copy> SubscribeAll<Item, E> {
    /// How many items were delivered.
    pub fn next_count(&self) -> (n: usize)
        ensures
            n == next_count(self.received@),
    {
        let mut n: usize = 0;
        let len = self.received.len();
        let mut i: usize = 0;
        while i < len
            invariant
                i <= len,
                len == self.received@.len(),
                n <= i,
                n == next_count(self.received@.take(i as int)),
            decreases len - i,
        {
            proof {
                assert(self.received@.take(i + 1 as int).drop_last() =~= self.received@.take(
                    i as int,
                ));
                assert(self.received@.take(i + 1 as int).last() == self.received@[i as int]);
            }
            if matches!(self.received[i], Event::Next(_)) {
                n = n + 1;
            }
            i = i + 1;
        }
        proof {
            assert(self.received@.take(len as int) =~= self.received@);
        }
        n
    }

    /// How many errors were delivered.
    pub fn fail_count(&self) -> (n: usize)
        ensures
            n == fail_count(self.received@),
    {
        let mut n: usize = 0;
        let len = self.received.len();
        let mut i: usize = 0;
        while i < len
            invariant
                i <= len,
                len == self.received@.len(),
                n <= i,
                n == fail_count(self.received@.take(i as int)),
            decreases len - i,
        {
            proof {
                assert(self.received@.take(i + 1 as int).drop_last() =~= self.received@.take(
                    i as int,
                ));
                assert(self.received@.take(i + 1 as int).last() == self.received@[i as int]);
            }
            if matches!(self.received[i], Event::Fail(_)) {
                n = n + 1;
            }
            i = i + 1;
        }
        proof {
            assert(self.received@.take(len as int) =~= self.received@);
        }
        n
    }

    /// How many completion signals were delivered.
    pub fn done_count(&self) -> (n: usize)
        ensures
            n == done_count(self.received@),
    {
        let mut n: usize = 0;
        let len = self.received.len();
        let mut i: usize = 0;
        while i < len
            invariant
                i <= len,
                len == self.received@.len(),
                n <= i,
                n == done_count(self.received@.take(i as int)),
            decreases len - i,
        {
            proof {
                assert(self.received@.take(i + 1 as int).drop_last() =~= self.received@.take(
                    i as int,
                ));
                assert(self.received@.take(i + 1 as int).last() == self.received@[i as int]);
            }
            if matches!(self.received[i], Event::Done) {
                n = n + 1;
            }
            i = i + 1;
        }
        proof {
            assert(self.received@.take(len as int) =~= self.received@);
        }
        n
    }

    /// The items delivered, in order.
    pub fn values(&self) -> (out: Vec<Item>)
        ensures
            out@ == next_values(self.received@),
    {
        let mut out: Vec<Item> = Vec::new();
        let len = self.received.len();
        let mut i: usize = 0;
        proof {
            crate::event::lemma_counts_empty::<Item, E>();
        }
        while i < len
            invariant
                i <= len,
                len == self.received@.len(),
                out@ == next_values(self.received@.take(i as int)),
            decreases len - i,
        {
            proof {
                assert(self.received@.take(i + 1 as int).drop_last() =~= self.received@.take(
                    i as int,
                ));
                assert(self.received@.take(i + 1 as int).last() == self.received@[i as int]);
            }
            match self.received[i] {
                Event::Next(v) => {
                    proof {
                        assert(next_values(self.received@.take(i as int)).push(v) =~= next_values(
                            self.received@.take(i as int),
                        ) + seq![v]);
                    }
                    out.push(v);
                },
                _ => {},
            }
            i = i + 1;
        }
        proof {
            assert(self.received@.take(len as int) =~= self.received@);
        }
        out
    }

    /// Whether the recorder has taken a terminal event.
    pub fn is_stopped(&self) -> (r: bool)
        ensures
            r == self.stopped(),
    {
        self.halted
    }
}

} // verus!
