use vstd::prelude::*;

verus! {

/// One scheduled unit of work: pending until its due instant, unless it
/// is cancelled first; once run or cancelled it never runs again.
#[derive(Clone, Copy, Debug)]
pub struct ScheduledTask {
    pub id: u64,
    pub due: u64,
    pub cancelled: bool,
    pub ran: bool,
}

/// The identities of the tasks that become due at instant `t`, in the
/// order they were scheduled: due, never cancelled, not yet run.
pub open spec fn due_ids(s: Seq<ScheduledTask>, t: u64) -> Seq<u64>
    decreases s.len(),
{
    if s.len() == 0 {
        Seq::<u64>::empty()
    } else {
        due_ids(s.drop_last(), t) + if s.last().due <= t && !s.last().cancelled
            && !s.last().ran {
            seq![s.last().id]
        } else {
            Seq::<u64>::empty()
        }
    }
}

/// A cancelled task never becomes due: every identity handed out for
/// running belongs to a task that was live when the clock advanced.
pub proof fn lemma_due_ids_live(s: Seq<ScheduledTask>, t: u64, k: int)
    requires
        0 <= k < due_ids(s, t).len(),
    ensures
        exists|i: int|
            0 <= i < s.len() && s[i].id == due_ids(s, t)[k] && !s[i].cancelled && !s[i].ran
                && s[i].due <= t,
    decreases s.len(),
{
    if s.len() > 0 {
        if k < due_ids(s.drop_last(), t).len() {
            lemma_due_ids_live(s.drop_last(), t, k);
            let i = choose|i: int|
                0 <= i < s.drop_last().len() && s.drop_last()[i].id == due_ids(
                    s.drop_last(),
                    t,
                )[k] && !s.drop_last()[i].cancelled && !s.drop_last()[i].ran && s.drop_last()[i].due
                    <= t;
            assert(s[i] == s.drop_last()[i]);
        } else {
            assert(s[s.len() - 1] == s.last());
        }
    }
}

/// The deterministic scheduler: the abstract capability is "run this
/// task now or after a delay, and hand back a cancellable handle". This
/// implementation keeps virtual time instead of a background pool: the
/// caller advances the clock and collects the identities of the tasks
/// that became due, then performs their bodies itself — which makes
/// every time-based behaviour reproducible under test.
pub struct LocalScheduler {
    pub now: u64,
    pub next_id: u64,
    pub tasks: Vec<ScheduledTask>,
}

impl LocalScheduler {
    pub open spec fn wf(&self) -> bool {
        forall|i: int|
            0 <= i < self.tasks@.len() ==> (#[trigger] self.tasks@[i]).id < self.next_id
    }

    /// A fresh scheduler at instant zero with no pending work.
    pub fn new() -> (s: Self)
        ensures
            s.now == 0,
            s.next_id == 0,
            s.tasks@.len() == 0,
            s.wf(),
    {
        LocalScheduler { now: 0, next_id: 0, tasks: Vec::new() }
    }

    /// Register a task. With no delay it is eligible as soon as the
    /// clock moves (or stands) at the current instant; with a delay it
    /// does not run before that delay elapses. The returned identity is
    /// the cancellable handle.
    pub fn schedule(&mut self, delay: Option<u64>) -> (id: u64)
        requires
            old(self).wf(),
            old(self).next_id < u64::MAX,
            (old(self).delay_fits(delay)),
        ensures
            final(self).wf(),
            id == old(self).next_id,
            final(self).now == old(self).now,
            final(self).next_id == old(self).next_id + 1,
            final(self).tasks@ == old(self).tasks@.push(
                ScheduledTask {
                    id,
                    due: (old(self).now + (match delay {
                        Some(d) => d,
                        None => 0u64,
                    })) as u64,
                    cancelled: false,
                    ran: false,
                },
            ),
    {
        let id = self.next_id;
        self.next_id = self.next_id + 1;
        let d = match delay {
            Some(d) => d,
            None => 0u64,
        };
        self.tasks.push(ScheduledTask { id, due: self.now + d, cancelled: false, ran: false });
        id
    }

    /// Whether a requested delay still fits the clock.
    pub open spec fn delay_fits(&self, delay: Option<u64>) -> bool {
        match delay {
            Some(d) => self.now + d <= u64::MAX,
            None => true,
        }
    }

    /// Cancel the task with this handle. A task cancelled before it ran
    /// is guaranteed never to become due, so its body never runs.
    pub fn cancel(&mut self, id: u64)
        requires
            old(self).wf(),
        ensures
            final(self).wf(),
            final(self).now == old(self).now,
            final(self).next_id == old(self).next_id,
            final(self).tasks@.len() == old(self).tasks@.len(),
            forall|i: int|
                0 <= i < final(self).tasks@.len() ==> {
                    let t = #[trigger] final(self).tasks@[i];
                    let o = old(self).tasks@[i];
                    t.id == o.id && t.due == o.due && t.ran == o.ran && t.cancelled == (o.cancelled
                        || o.id == id)
                },
    {
        let n = self.tasks.len();
        let mut i: usize = 0;
        while i < n
            invariant
                i <= n,
                n == self.tasks@.len(),
                n == old(self).tasks@.len(),
                old(self).wf(),
                self.now == old(self).now,
                self.next_id == old(self).next_id,
                forall|j: int|
                    0 <= j < i ==> {
                        let t = #[trigger] self.tasks@[j];
                        let o = old(self).tasks@[j];
                        t.id == o.id && t.due == o.due && t.ran == o.ran && t.cancelled == (
                        o.cancelled || o.id == id)
                    },
                forall|j: int| i <= j < n ==> self.tasks@[j] == old(self).tasks@[j],
            decreases n - i,
        {
            if self.tasks[i].id == id {
                let t = self.tasks[i];
                self.tasks.set(
                    i,
                    ScheduledTask { id: t.id, due: t.due, cancelled: true, ran: t.ran },
                );
            }
            i = i + 1;
        }
    }

    /// Advance the clock to instant `t` and collect, in scheduling
    /// order, the identities of the tasks that thereby become due: each
    /// is marked as run, and a cancelled task is never among them.
    pub fn advance(&mut self, t: u64) -> (ready: Vec<u64>)
        requires
            old(self).wf(),
            t >= old(self).now,
        ensures
            final(self).wf(),
            final(self).now == t,
            final(self).next_id == old(self).next_id,
            ready@ == due_ids(old(self).tasks@, t),
            final(self).tasks@.len() == old(self).tasks@.len(),
            forall|i: int|
                0 <= i < final(self).tasks@.len() ==> {
                    let tk = #[trigger] final(self).tasks@[i];
                    let o = old(self).tasks@[i];
                    tk.id == o.id && tk.due == o.due && tk.cancelled == o.cancelled && tk.ran == (
                    o.ran || (o.due <= t && !o.cancelled && !o.ran))
                },
    {
        let mut ready: Vec<u64> = Vec::new();
        let n = self.tasks.len();
        let mut i: usize = 0;
        while i < n
            invariant
                i <= n,
                n == self.tasks@.len(),
                n == old(self).tasks@.len(),
                old(self).wf(),
                self.now == old(self).now,
                self.next_id == old(self).next_id,
                ready@ == due_ids(old(self).tasks@.take(i as int), t),
                forall|j: int|
                    0 <= j < i ==> {
                        let tk = #[trigger] self.tasks@[j];
                        let o = old(self).tasks@[j];
                        tk.id == o.id && tk.due == o.due && tk.cancelled == o.cancelled && tk.ran
                            == (o.ran || (o.due <= t && !o.cancelled && !o.ran))
                    },
                forall|j: int| i <= j < n ==> self.tasks@[j] == old(self).tasks@[j],
            decreases n - i,
        {
            proof {
                assert(old(self).tasks@.take(i + 1 as int).drop_last() =~= old(
                    self,
                ).tasks@.take(i as int));
                assert(old(self).tasks@.take(i + 1 as int).last() == old(self).tasks@[i as int]);
            }
            let tk = self.tasks[i];
            if tk.due <= t && !tk.cancelled && !tk.ran {
                ready.push(tk.id);
                self.tasks.set(
                    i,
                    ScheduledTask { id: tk.id, due: tk.due, cancelled: tk.cancelled, ran: true },
                );
            }
            i = i + 1;
        }
        proof {
            assert(old(self).tasks@.take(n as int) =~= old(self).tasks@);
        }
        self.now = t;
        ready
    }
}

} // verus!
