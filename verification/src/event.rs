use vstd::prelude::*;

verus! {

/// One delivery on an observer channel: an item, a stream error, or the
/// completion signal. A well-behaved stream delivers any number of `Next`
/// events followed by at most one terminal event (`Fail` or `Done`).
#[derive(Clone, Copy, Debug)]
pub enum Event<Item, E> {
    Next(Item),
    Fail(E),
    Done,
}

/// `Fail` and `Done` are the two terminal signals; `Next` is not terminal.
pub open spec fn is_terminal<I, E>(e: Event<I, E>) -> bool {
    !(e is Next)
}

/// Number of `Next` deliveries in a stream.
pub open spec fn next_count<I, E>(s: Seq<Event<I, E>>) -> nat
    decreases s.len(),
{
    if s.len() == 0 {
        0
    } else {
        next_count(s.drop_last()) + if s.last() is Next {
            1nat
        } else {
            0nat
        }
    }
}

/// Number of `Fail` deliveries in a stream.
pub open spec fn fail_count<I, E>(s: Seq<Event<I, E>>) -> nat
    decreases s.len(),
{
    if s.len() == 0 {
        0
    } else {
        fail_count(s.drop_last()) + if s.last() is Fail {
            1nat
        } else {
            0nat
        }
    }
}

/// Number of `Done` deliveries in a stream.
pub open spec fn done_count<I, E>(s: Seq<Event<I, E>>) -> nat
    decreases s.len(),
{
    if s.len() == 0 {
        0
    } else {
        done_count(s.drop_last()) + if s.last() is Done {
            1nat
        } else {
            0nat
        }
    }
}

/// Total number of terminal deliveries (`Fail` plus `Done`).
pub open spec fn terminal_count<I, E>(s: Seq<Event<I, E>>) -> nat {
    fail_count(s) + done_count(s)
}

pub open spec fn has_terminal<I, E>(s: Seq<Event<I, E>>) -> bool {
    terminal_count(s) > 0
}

/// The items carried by the `Next` deliveries, in order.
pub open spec fn next_values<I, E>(s: Seq<Event<I, E>>) -> Seq<I>
    decreases s.len(),
{
    if s.len() == 0 {
        Seq::<I>::empty()
    } else {
        next_values(s.drop_last()) + match s.last() {
            Event::Next(v) => seq![v],
            _ => Seq::<I>::empty(),
        }
    }
}

/// How every counting function responds to appending one event.
pub proof fn lemma_counts_push<I, E>(s: Seq<Event<I, E>>, e: Event<I, E>)
    ensures
        next_count(s.push(e)) == next_count(s) + if e is Next {
            1nat
        } else {
            0nat
        },
        fail_count(s.push(e)) == fail_count(s) + if e is Fail {
            1nat
        } else {
            0nat
        },
        done_count(s.push(e)) == done_count(s) + if e is Done {
            1nat
        } else {
            0nat
        },
        next_values(s.push(e)) == next_values(s) + match e {
            Event::Next(v) => seq![v],
            _ => Seq::<I>::empty(),
        },
{
    assert(s.push(e).drop_last() =~= s);
    assert(s.push(e).last() == e);
}

/// Counts distribute over concatenation.
pub proof fn lemma_counts_concat<I, E>(a: Seq<Event<I, E>>, b: Seq<Event<I, E>>)
    ensures
        next_count(a + b) == next_count(a) + next_count(b),
        fail_count(a + b) == fail_count(a) + fail_count(b),
        done_count(a + b) == done_count(a) + done_count(b),
        next_values(a + b) == next_values(a) + next_values(b),
    decreases b.len(),
{
    if b.len() == 0 {
        assert(a + b =~= a);
        assert(next_values(a) + next_values(b) =~= next_values(a));
    } else {
        lemma_counts_concat(a, b.drop_last());
        assert(a + b =~= (a + b.drop_last()).push(b.last()));
        lemma_counts_push(a + b.drop_last(), b.last());
        lemma_counts_push(b.drop_last(), b.last());
        assert(b.drop_last().push(b.last()) =~= b);
        assert(next_values(a) + next_values(b) =~= (next_values(a) + next_values(
            b.drop_last(),
        )) + match b.last() {
            Event::Next(v) => seq![v],
            _ => Seq::<I>::empty(),
        });
    }
}

/// The prefix of a stream up to and including its first terminal event;
/// the whole stream when no terminal event occurs. This is exactly what a
/// gated observer is handed, however the raw source behaves afterwards.
pub open spec fn until_terminal<I, E>(s: Seq<Event<I, E>>) -> Seq<Event<I, E>>
    decreases s.len(),
{
    if s.len() == 0 {
        s
    } else if is_terminal(s[0]) {
        seq![s[0]]
    } else {
        seq![s[0]] + until_terminal(s.drop_first())
    }
}

/// A stream with no terminal event is passed through whole.
pub proof fn lemma_until_terminal_all<I, E>(s: Seq<Event<I, E>>)
    requires
        forall|j: int| 0 <= j < s.len() ==> !is_terminal(s[j]),
    ensures
        until_terminal(s) == s,
        terminal_count(s) == 0,
    decreases s.len(),
{
    if s.len() == 0 {
        lemma_counts_empty::<I, E>();
    } else {
        assert(!is_terminal(s[0]));
        lemma_until_terminal_all(s.drop_first());
        assert(seq![s[0]] + s.drop_first() =~= s);
        assert(s.drop_last().push(s.last()) =~= s);
        lemma_counts_push(s.drop_last(), s.last());
        assert(forall|j: int| 0 <= j < s.drop_last().len() ==> !is_terminal(
            #[trigger] s.drop_last()[j],
        ));
        lemma_until_terminal_all(s.drop_last());
    }
}

/// Cutting at the first terminal event keeps the leading items and that
/// one terminal event.
pub proof fn lemma_until_terminal_at<I, E>(s: Seq<Event<I, E>>, i: int)
    requires
        0 <= i < s.len(),
        forall|j: int| 0 <= j < i ==> !is_terminal(s[j]),
        is_terminal(s[i]),
    ensures
        until_terminal(s) == s.take(i).push(s[i]),
    decreases i,
{
    if i == 0 {
        assert(s.take(0).push(s[0]) =~= seq![s[0]]);
    } else {
        lemma_until_terminal_at(s.drop_first(), i - 1);
        assert(forall|j: int| 0 <= j < i - 1 ==> !is_terminal(#[trigger] s.drop_first()[j]));
        assert(s.drop_first()[i - 1] == s[i]);
        assert(seq![s[0]] + s.drop_first().take(i - 1).push(s.drop_first()[i - 1]) =~= s.take(
            i,
        ).push(s[i]));
    }
}

pub proof fn lemma_counts_empty<I, E>()
    ensures
        next_count(Seq::<Event<I, E>>::empty()) == 0,
        fail_count(Seq::<Event<I, E>>::empty()) == 0,
        done_count(Seq::<Event<I, E>>::empty()) == 0,
        next_values(Seq::<Event<I, E>>::empty()) == Seq::<I>::empty(),
{
}

/// Terminal exclusivity: whatever a raw source emits, the gated prefix a
/// consumer can ever receive carries at most one terminal event, and that
/// event stands last.
pub proof fn lemma_terminal_exclusivity<I, E>(s: Seq<Event<I, E>>)
    ensures
        terminal_count(until_terminal(s)) <= 1,
        terminal_count(until_terminal(s)) == 1 ==> is_terminal(until_terminal(s).last()),
        forall|j: int|
            0 <= j < until_terminal(s).len() - 1 ==> !is_terminal(#[trigger] until_terminal(s)[j]),
    decreases s.len(),
{
    if s.len() == 0 {
        lemma_counts_empty::<I, E>();
    } else if is_terminal(s[0]) {
        assert(seq![s[0]].drop_last() =~= Seq::<Event<I, E>>::empty());
        lemma_counts_empty::<I, E>();
    } else {
        lemma_terminal_exclusivity(s.drop_first());
        let rest = until_terminal(s.drop_first());
        lemma_counts_concat(seq![s[0]], rest);
        assert(seq![s[0]].drop_last() =~= Seq::<Event<I, E>>::empty());
        lemma_counts_empty::<I, E>();
        assert(forall|j: int|
            1 <= j < until_terminal(s).len() ==> until_terminal(s)[j] == rest[j - 1]);
    }
}

/// A run of items alone counts as all `Next`.
pub proof fn lemma_all_next_count<I, E>(s: Seq<Event<I, E>>)
    requires
        forall|j: int| 0 <= j < s.len() ==> !is_terminal(s[j]),
    ensures
        next_count(s) == s.len(),
    decreases s.len(),
{
    if s.len() > 0 {
        assert(forall|j: int| 0 <= j < s.drop_last().len() ==> !is_terminal(
            #[trigger] s.drop_last()[j],
        ));
        lemma_all_next_count(s.drop_last());
        assert(!is_terminal(s.last()));
    }
}

/// The items list is exactly as long as the `Next` count.
pub proof fn lemma_next_values_len<I, E>(s: Seq<Event<I, E>>)
    ensures
        next_values(s).len() == next_count(s),
    decreases s.len(),
{
    if s.len() > 0 {
        lemma_next_values_len(s.drop_last());
    }
}

/// A terminal-free prefix peels off the front of the gated stream.
pub proof fn lemma_until_terminal_peel<I, E>(s: Seq<Event<I, E>>, j: int)
    requires
        0 <= j <= s.len(),
        forall|x: int| 0 <= x < j ==> !is_terminal(s[x]),
    ensures
        until_terminal(s) == s.take(j) + until_terminal(s.skip(j)),
    decreases j,
{
    if j == 0 {
        assert(s.skip(0) =~= s);
        assert(s.take(0) + until_terminal(s) =~= until_terminal(s));
    } else {
        assert(!is_terminal(s[0]));
        assert(forall|x: int| 0 <= x < j - 1 ==> !is_terminal(#[trigger] s.drop_first()[x]));
        lemma_until_terminal_peel(s.drop_first(), j - 1);
        assert(s.drop_first().skip(j - 1) =~= s.skip(j));
        assert(seq![s[0]] + (s.drop_first().take(j - 1) + until_terminal(s.skip(j))) =~= s.take(
            j,
        ) + until_terminal(s.skip(j)));
    }
}

/// Copy a materialized emission sequence, value for value.
pub fn copy_events<I: Copy, E: Copy>(v: &Vec<Event<I, E>>) -> (out: Vec<Event<I, E>>)
    ensures
        out@ == v@,
{
    let mut out: Vec<Event<I, E>> = Vec::new();
    let n = v.len();
    let mut i: usize = 0;
    while i < n
        invariant
            i <= n,
            n == v@.len(),
            out@ == v@.take(i as int),
        decreases n - i,
    {
        out.push(v[i]);
        proof {
            assert(v@.take(i as int).push(v@[i as int]) =~= v@.take(i + 1 as int));
        }
        i = i + 1;
    }
    proof {
        assert(v@.take(n as int) =~= v@);
    }
    out
}

/// Count the items in a materialized emission sequence.
pub fn count_next_events<I: Copy, E: Copy>(v: &Vec<Event<I, E>>) -> (n: usize)
    ensures
        n == next_count(v@),
{
    let mut n: usize = 0;
    let len = v.len();
    let mut i: usize = 0;
    while i < len
        invariant
            i <= len,
            len == v@.len(),
            n <= i,
            n == next_count(v@.take(i as int)),
        decreases len - i,
    {
        proof {
            assert(v@.take(i + 1 as int).drop_last() =~= v@.take(i as int));
            assert(v@.take(i + 1 as int).last() == v@[i as int]);
        }
        if matches!(v[i], Event::Next(_)) {
            n = n + 1;
        }
        i = i + 1;
    }
    proof {
        assert(v@.take(len as int) =~= v@);
    }
    n
}

/// Count the completion signals in a materialized emission sequence.
pub fn count_done_events<I: Copy, E: Copy>(v: &Vec<Event<I, E>>) -> (n: usize)
    ensures
        n == done_count(v@),
{
    let mut n: usize = 0;
    let len = v.len();
    let mut i: usize = 0;
    while i < len
        invariant
            i <= len,
            len == v@.len(),
            n <= i,
            n == done_count(v@.take(i as int)),
        decreases len - i,
    {
        proof {
            assert(v@.take(i + 1 as int).drop_last() =~= v@.take(i as int));
            assert(v@.take(i + 1 as int).last() == v@[i as int]);
        }
        if matches!(v[i], Event::Done) {
            n = n + 1;
        }
        i = i + 1;
    }
    proof {
        assert(v@.take(len as int) =~= v@);
    }
    n
}

} // verus!
