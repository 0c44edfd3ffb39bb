use vstd::prelude::*;

verus! {

/// A cancellable, composable handle to ongoing work: the right to keep
/// receiving events. Once closed it never reopens.
pub trait SubscriptionLike: Sized {
    /// Whether this handle has been cancelled or has finished.
    spec fn closed(&self) -> bool;

    /// A stable identity, so a parent composite can find and detach one
    /// specific child.
    spec fn addr(&self) -> u64;

    fn is_closed(&self) -> (r: bool)
        ensures
            r == self.closed(),
    ;

    fn inner_addr(&self) -> (r: u64)
        ensures
            r == self.addr(),
    ;

    /// Idempotent cancellation: the first call closes the handle, a later
    /// call changes nothing.
    fn unsubscribe(&mut self)
        ensures
            final(self).closed(),
            final(self).addr() == old(self).addr(),
            old(self).closed() ==> *final(self) == *old(self),
    ;
}

/// A leaf handle: one independently addressable unit of cancellable work,
/// such as a pending timer.
#[derive(Clone, Copy, Debug)]
pub struct InnerSubscription {
    pub id: u64,
    pub closed: bool,
}

impl SubscriptionLike for InnerSubscription {
    open spec fn closed(&self) -> bool {
        self.closed
    }

    open spec fn addr(&self) -> u64 {
        self.id
    }

    fn is_closed(&self) -> (r: bool) {
        self.closed
    }

    fn inner_addr(&self) -> (r: u64) {
        self.id
    }

    fn unsubscribe(&mut self) {
        self.closed = true;
    }
}

/// True when every child with this identity is closed.
pub open spec fn child_closed(s: Seq<InnerSubscription>, id: u64) -> bool {
    forall|i: int| 0 <= i < s.len() && s[i].id == id ==> s[i].closed
}

/// The children left after detaching the one with this identity.
pub open spec fn remove_id(s: Seq<InnerSubscription>, id: u64) -> Seq<InnerSubscription>
    decreases s.len(),
{
    if s.len() == 0 {
        s
    } else {
        remove_id(s.drop_last(), id) + if s.last().id == id {
            Seq::<InnerSubscription>::empty()
        } else {
            seq![s.last()]
        }
    }
}

/// A composite subscription for the cooperative single-threaded mode: one
/// closed flag of its own and any number of addressable children. Closing
/// the composite cascades to every child exactly once.
pub struct LocalSubscription {
    pub closed: bool,
    pub next_id: u64,
    pub children: Vec<InnerSubscription>,
}

impl LocalSubscription {
    /// Cancel the composite: close it and cascade to every child exactly
    /// once. Idempotent — on a composite already closed nothing changes.
    pub fn unsubscribe(&mut self)
        ensures
            final(self).closed,
            final(self).next_id == old(self).next_id,
            final(self).children@.len() == old(self).children@.len(),
            forall|i: int|
                0 <= i < final(self).children@.len() ==> (#[trigger] final(self).children@[i]).id
                    == old(self).children@[i].id,
            old(self).wf() ==> forall|i: int|
                0 <= i < final(self).children@.len() ==> (#[trigger] final(self).children@[i]).closed,
            old(self).closed ==> *final(self) == *old(self),
    {
        if self.closed {
            return ;
        }
        self.closed = true;
        let n = self.children.len();
        let mut i: usize = 0;
        while i < n
            invariant
                i <= n,
                n == self.children@.len(),
                n == old(self).children@.len(),
                self.closed,
                self.next_id == old(self).next_id,
                forall|j: int|
                    0 <= j < n ==> (#[trigger] self.children@[j]).id == old(self).children@[j].id,
                forall|j: int| 0 <= j < i ==> (#[trigger] self.children@[j]).closed,
            decreases n - i,
        {
            let c = self.children[i];
            self.children.set(i, InnerSubscription { id: c.id, closed: true });
            i = i + 1;
        }
    }

    /// Children carry identities below the allocation cursor, and a closed
    /// composite holds no open child.
    pub open spec fn wf(&self) -> bool {
        &&& forall|i: int| 0 <= i < self.children@.len() ==> (#[trigger] self.children@[i]).id < self.next_id
        &&& (self.closed ==> forall|i: int|
            0 <= i < self.children@.len() ==> (#[trigger] self.children@[i]).closed)
    }

    /// Register a new child and hand back its identity. A child added to a
    /// composite that is already closed is born closed.
    pub fn add(&mut self) -> (id: u64)
        requires
            old(self).wf(),
            old(self).next_id < u64::MAX,
        ensures
            final(self).wf(),
            id == old(self).next_id,
            final(self).next_id == old(self).next_id + 1,
            final(self).closed == old(self).closed,
            final(self).children@ == old(self).children@.push(
                InnerSubscription { id, closed: old(self).closed },
            ),
    {
        let id = self.next_id;
        self.next_id = self.next_id + 1;
        self.children.push(InnerSubscription { id, closed: self.closed });
        id
    }

    /// Detach the child with this identity, without cancelling anything:
    /// used when a time-boxed child finishes naturally and must leave its
    /// parent without being cancelled twice.
    pub fn remove(&mut self, id: u64) -> (r: ())
        requires
            old(self).wf(),
        ensures
            final(self).wf(),
            final(self).closed == old(self).closed,
            final(self).next_id == old(self).next_id,
            final(self).children@ == remove_id(old(self).children@, id),
    {
        let mut kept: Vec<InnerSubscription> = Vec::new();
        let n = self.children.len();
        let mut i: usize = 0;
        while i < n
            invariant
                i <= n,
                n == self.children@.len(),
                old(self).wf(),
                self.children@ == old(self).children@,
                self.closed == old(self).closed,
                self.next_id == old(self).next_id,
                kept@ == remove_id(self.children@.take(i as int), id),
                forall|j: int| 0 <= j < kept@.len() ==> (#[trigger] kept@[j]).id < self.next_id,
                forall|j: int| 0 <= j < kept@.len() ==> (self.closed ==> (#[trigger] kept@[j]).closed),
            decreases n - i,
        {
            let c = self.children[i];
            proof {
                assert(self.children@.take(i + 1 as int).drop_last() =~= self.children@.take(
                    i as int,
                ));
            }
            if c.id != id {
                proof {
                    assert(old(self).wf());
                    assert(old(self).children@[i as int] == c);
                    assert(c.id < self.next_id);
                    assert(self.closed ==> c.closed);
                }
                kept.push(c);
            }
            i = i + 1;
        }
        proof {
            assert(self.children@.take(n as int) =~= self.children@);
        }
        self.children = kept;
    }

    /// Close one child by identity: cancelling, say, a pending timer
    /// through the handle its scheduling returned.
    pub fn cancel_child(&mut self, id: u64)
        requires
            old(self).wf(),
        ensures
            final(self).wf(),
            final(self).closed == old(self).closed,
            final(self).next_id == old(self).next_id,
            final(self).children@.len() == old(self).children@.len(),
            forall|i: int|
                0 <= i < final(self).children@.len() ==> (#[trigger] final(self).children@[i]).id == old(self).children@[i].id,
            forall|i: int|
                0 <= i < final(self).children@.len() ==> (#[trigger] final(self).children@[i]).closed == (old(self).children@[i].closed || old(self).children@[i].id == id),
            child_closed(final(self).children@, id),
    {
        let n = self.children.len();
        let mut i: usize = 0;
        while i < n
            invariant
                i <= n,
                n == self.children@.len(),
                old(self).wf(),
                self.closed == old(self).closed,
                self.next_id == old(self).next_id,
                forall|j: int|
                    0 <= j < n ==> (#[trigger] self.children@[j]).id == old(self).children@[j].id,
                forall|j: int|
                    i <= j < n ==> (#[trigger] self.children@[j]).closed == old(self).children@[j].closed,
                forall|j: int|
                    0 <= j < i ==> (#[trigger] self.children@[j]).closed == (old(self).children@[j].closed || old(self).children@[j].id == id),
            decreases n - i,
        {
            if self.children[i].id == id {
                let c = self.children[i];
                self.children.set(i, InnerSubscription { id: c.id, closed: true });
            }
            i = i + 1;
        }
    }

    /// Whether the child with this identity has been cancelled. A child
    /// that was never registered counts as closed.
    pub fn is_child_closed(&self, id: u64) -> (r: bool)
        ensures
            r == child_closed(self.children@, id),
    {
        let n = self.children.len();
        let mut i: usize = 0;
        while i < n
            invariant
                i <= n,
                n == self.children@.len(),
                forall|j: int|
                    0 <= j < i && (#[trigger] self.children@[j]).id == id
                        ==> self.children@[j].closed,
            decreases n - i,
        {
            if self.children[i].id == id && !self.children[i].closed {
                proof {
                    assert(!child_closed(self.children@, id));
                }
                return false;
            }
            i = i + 1;
        }
        true
    }
}

impl Default for LocalSubscription {
    /// A fresh composite: open, no children, identities start at zero.
    fn default() -> (s: Self)
        ensures
            !s.closed,
            s.next_id == 0,
            s.children@.len() == 0,
            s.wf(),
    {
        LocalSubscription { closed: false, next_id: 0, children: Vec::new() }
    }
}

impl SubscriptionLike for LocalSubscription {
    open spec fn closed(&self) -> bool {
        self.closed
    }

    open spec fn addr(&self) -> u64 {
        0
    }

    fn is_closed(&self) -> (r: bool) {
        self.closed
    }

    fn inner_addr(&self) -> (r: u64) {
        0
    }

    /// The first call closes the composite and cascades to every child; a
    /// later call finds everything closed already and changes nothing.
    fn unsubscribe(&mut self) {
        if self.closed {
            return ;
        }
        self.closed = true;
        let n = self.children.len();
        let mut i: usize = 0;
        while i < n
            invariant
                i <= n,
                n == self.children@.len(),
                self.closed,
                self.next_id == old(self).next_id,
                forall|j: int|
                    0 <= j < n ==> (#[trigger] self.children@[j]).id == old(self).children@[j].id,
                forall|j: int| 0 <= j < i ==> (#[trigger] self.children@[j]).closed,
                forall|j: int|
                    i <= j < n ==> (#[trigger] self.children@[j]).closed == old(self).children@[j].closed,
            decreases n - i,
        {
            let c = self.children[i];
            self.children.set(i, InnerSubscription { id: c.id, closed: true });
            i = i + 1;
        }
    }
}

/// The composite for the multi-thread-safe mode. Its logic is the local
/// composite's, taken unchanged through a thin adapter; callers that move
/// work across threads keep it behind an exclusive guard, so every
/// read-modify-write here happens under one `&mut` borrow.
pub struct SharedSubscription(pub LocalSubscription);

impl SharedSubscription {
    pub open spec fn wf(&self) -> bool {
        self.0.wf()
    }

    pub fn add(&mut self) -> (id: u64)
        requires
            old(self).wf(),
            old(self).0.next_id < u64::MAX,
        ensures
            final(self).wf(),
            id == old(self).0.next_id,
            final(self).0.next_id == old(self).0.next_id + 1,
            final(self).0.closed == old(self).0.closed,
            final(self).0.children@ == old(self).0.children@.push(
                InnerSubscription { id, closed: old(self).0.closed },
            ),
    {
        self.0.add()
    }

    pub fn remove(&mut self, id: u64)
        requires
            old(self).wf(),
        ensures
            final(self).wf(),
            final(self).0.closed == old(self).0.closed,
            final(self).0.next_id == old(self).0.next_id,
            final(self).0.children@ == remove_id(old(self).0.children@, id),
    {
        self.0.remove(id)
    }

    pub fn cancel_child(&mut self, id: u64)
        requires
            old(self).wf(),
        ensures
            final(self).wf(),
            final(self).0.closed == old(self).0.closed,
            final(self).0.next_id == old(self).0.next_id,
            final(self).0.children@.len() == old(self).0.children@.len(),
            forall|i: int|
                0 <= i < final(self).0.children@.len() ==> (#[trigger] final(self).0.children@[i]).id == old(self).0.children@[i].id,
            forall|i: int|
                0 <= i < final(self).0.children@.len() ==> (#[trigger] final(self).0.children@[i]).closed == (old(self).0.children@[i].closed || old(self).0.children@[i].id == id),
            child_closed(final(self).0.children@, id),
    {
        self.0.cancel_child(id)
    }

    pub fn is_child_closed(&self, id: u64) -> (r: bool)
        ensures
            r == child_closed(self.0.children@, id),
    {
        self.0.is_child_closed(id)
    }

    /// Cancel the composite: close it and cascade to every child exactly
    /// once. Idempotent — on a composite already closed nothing changes.
    pub fn unsubscribe(&mut self)
        ensures
            final(self).0.closed,
            final(self).0.next_id == old(self).0.next_id,
            final(self).0.children@.len() == old(self).0.children@.len(),
            forall|i: int|
                0 <= i < final(self).0.children@.len() ==> (#[trigger] final(self).0.children@[i]).id == old(self).0.children@[i].id,
            old(self).wf() ==> forall|i: int|
                0 <= i < final(self).0.children@.len() ==> (#[trigger] final(self).0.children@[i]).closed,
            old(self).0.closed ==> *final(self) == *old(self),
    {
        self.0.unsubscribe()
    }
}

impl Default for SharedSubscription {
    /// A fresh shared composite: open, no children.
    fn default() -> (s: Self)
        ensures
            !s.0.closed,
            s.0.next_id == 0,
            s.0.children@.len() == 0,
            s.wf(),
    {
        SharedSubscription(LocalSubscription::default())
    }
}

impl SubscriptionLike for SharedSubscription {
    open spec fn closed(&self) -> bool {
        self.0.closed
    }

    open spec fn addr(&self) -> u64 {
        0
    }

    fn is_closed(&self) -> (r: bool) {
        self.0.closed
    }

    fn inner_addr(&self) -> (r: u64) {
        0
    }

    fn unsubscribe(&mut self) {
        self.0.unsubscribe()
    }
}

} // verus!
