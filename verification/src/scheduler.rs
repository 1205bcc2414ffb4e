use vstd::prelude::*;
use crate::seqs::lemma_filter_membership;
use crate::seqs::lemma_filter_push;

verus! {

/// A suspendable unit of protocol work as the scheduler sees it: suspension
/// is a tagged state rather than a language-level suspension point, so a
/// poll either completes the operation or leaves it suspended.
#[derive(Debug, Clone, Copy, PartialEq, Eq, Structural)]
pub enum Operation {
    /// Never suspends: the next poll completes it.
    Ready,
    /// Suspended until the virtual clock reaches `deadline`.
    WaitUntil { deadline: u64 },
}

impl Operation {
    /// Whether a poll at time `now` completes this operation.
    pub open spec fn completes_at(self, now: u64) -> bool {
        match self {
            Operation::Ready => true,
            Operation::WaitUntil { deadline } => now >= deadline,
        }
    }
}

/// One registered operation and its handle.
#[derive(Debug, Clone, Copy, PartialEq, Eq, Structural)]
pub struct TaskEntry {
    pub handle: u64,
    pub op: Operation,
}

/// The handles of a task slice, in registration order.
pub open spec fn task_handles(s: Seq<TaskEntry>) -> Seq<u64> {
    s.map_values(|t: TaskEntry| t.handle)
}

/// Pool of suspendable operations, each polled to completion or further
/// suspension only by an explicit `poll_all` call — no background progress.
/// The scheduler is the sole owner of every operation; handles are names
/// used only to cancel or to observe completion.
pub struct Scheduler {
    next_handle: u64,
    tasks: Vec<TaskEntry>,
    completed: Vec<u64>,
}

impl Scheduler {
    /// The registered operations, in registration order.
    pub closed spec fn spec_tasks(&self) -> Seq<TaskEntry> {
        self.tasks@
    }

    /// The handles of operations that have completed, oldest first.
    pub closed spec fn spec_completed(&self) -> Seq<u64> {
        self.completed@
    }

    /// The handle the next spawned operation will receive.
    pub closed spec fn spec_next_handle(&self) -> u64 {
        self.next_handle
    }

    /// An operation with this handle is registered.
    pub open spec fn spec_has_task(&self, h: u64) -> bool {
        exists|i: int|
            0 <= i < self.spec_tasks().len() && #[trigger] self.spec_tasks()[i].handle == h
    }

    /// An operation with this handle has completed.
    pub open spec fn spec_is_completed(&self, h: u64) -> bool {
        self.spec_completed().contains(h)
    }

    /// Pool invariant: handles grow in registration order (so they are
    /// unique and below the counter), completed handles are unique, below
    /// the counter, and never still registered.
    pub open spec fn wf(&self) -> bool {
        &&& forall|i: int, j: int|
            0 <= i < j < self.spec_tasks().len() ==> #[trigger] self.spec_tasks()[i].handle
                < #[trigger] self.spec_tasks()[j].handle
        &&& forall|i: int|
            0 <= i < self.spec_tasks().len() ==> #[trigger] self.spec_tasks()[i].handle
                < self.spec_next_handle()
        &&& forall|i: int|
            0 <= i < self.spec_completed().len() ==> #[trigger] self.spec_completed()[i]
                < self.spec_next_handle()
        &&& forall|i: int, j: int|
            0 <= i < j < self.spec_completed().len() ==> self.spec_completed()[i]
                != self.spec_completed()[j]
        &&& forall|i: int|
            0 <= i < self.spec_completed().len() ==> !self.spec_has_task(
                #[trigger] self.spec_completed()[i],
            )
    }

    /// A fresh scheduler with no operations.
    pub fn new() -> (s: Scheduler)
        ensures
            s.wf(),
            s.spec_tasks() == Seq::<TaskEntry>::empty(),
            s.spec_completed() == Seq::<u64>::empty(),
    {
        let s = Scheduler { next_handle: 0, tasks: Vec::new(), completed: Vec::new() };
        proof {
            assert(s.spec_tasks() =~= Seq::<TaskEntry>::empty());
            assert(s.spec_completed() =~= Seq::<u64>::empty());
        }
        s
    }

    /// Registers a new operation and returns its handle; the operation is
    /// not begun — only `poll_all` makes progress.
    pub fn spawn(&mut self, op: Operation) -> (h: u64)
        requires
            old(self).wf(),
            old(self).spec_next_handle() < u64::MAX,
        ensures
            final(self).wf(),
            h == old(self).spec_next_handle(),
            final(self).spec_next_handle() == old(self).spec_next_handle() + 1,
            final(self).spec_tasks() == old(self).spec_tasks().push(TaskEntry { handle: h, op }),
            final(self).spec_completed() == old(self).spec_completed(),
            final(self).spec_has_task(h),
            !final(self).spec_is_completed(h),
    {
        let h = self.next_handle;
        self.tasks.push(TaskEntry { handle: h, op });
        self.next_handle = self.next_handle + 1;
        proof {
            let pre = old(self).spec_tasks();
            let post = self.spec_tasks();
            assert(post[post.len() - 1].handle == h);
            assert(self.spec_completed() == old(self).spec_completed());
            assert forall|i: int|
                0 <= i < self.spec_completed().len() implies !self.spec_has_task(
                #[trigger] self.spec_completed()[i],
            ) by {
                let x = self.spec_completed()[i];
                assert(x == old(self).spec_completed()[i]);
                assert(!old(self).spec_has_task(old(self).spec_completed()[i]));
                assert(old(self).spec_completed()[i] < old(self).spec_next_handle());
                if self.spec_has_task(x) {
                    let j = choose|j: int|
                        0 <= j < post.len() && #[trigger] post[j].handle == x;
                    if j < post.len() - 1 {
                        assert(pre[j].handle == post[j].handle);
                        assert(old(self).spec_has_task(x)) by {
                            assert(old(self).spec_tasks()[j].handle == x);
                        }
                    }
                    assert(false);
                }
            }
        }
        h
    }

    /// Operations a poll at time `now` leaves suspended.
    pub open spec fn still_pending(now: u64) -> spec_fn(TaskEntry) -> bool {
        |t: TaskEntry| !t.op.completes_at(now)
    }

    /// Operations a poll at time `now` completes.
    pub open spec fn completing(now: u64) -> spec_fn(TaskEntry) -> bool {
        |t: TaskEntry| t.op.completes_at(now)
    }

    /// What one `poll_all` call does: every registered operation is driven
    /// forward exactly once, in registration order; those that complete are
    /// removed and their handles recorded, those that suspend remain, order
    /// preserved.
    pub open spec fn poll_transition(pre: Scheduler, post: Scheduler, now: u64) -> bool {
        &&& post.spec_next_handle() == pre.spec_next_handle()
        &&& post.spec_tasks() == pre.spec_tasks().filter(Scheduler::still_pending(now))
        &&& post.spec_completed() == pre.spec_completed() + task_handles(
            pre.spec_tasks().filter(Scheduler::completing(now)),
        )
    }

    /// Drives every registered operation forward exactly once, in
    /// registration order, at virtual time `now`. This is the sole entry
    /// point that makes progress.
    pub fn poll_all(&mut self, now: u64)
        requires
            old(self).wf(),
        ensures
            final(self).wf(),
            Scheduler::poll_transition(*old(self), *final(self), now),
    {
        let ghost keep = Scheduler::still_pending(now);
        let ghost done = Scheduler::completing(now);
        let n = self.tasks.len();
        let mut i: usize = 0;
        let mut remaining: Vec<TaskEntry> = Vec::new();
        proof {
            reveal(Seq::filter);
            assert(self.tasks@.take(0) =~= Seq::<TaskEntry>::empty());
            assert(remaining@ =~= Seq::<TaskEntry>::empty().filter(keep));
            assert(self.completed@ =~= old(self).spec_completed() + task_handles(
                Seq::<TaskEntry>::empty().filter(done),
            ));
        }
        while i < n
            invariant
                i <= n,
                n == self.tasks@.len(),
                keep == Scheduler::still_pending(now),
                done == Scheduler::completing(now),
                self.tasks@ == old(self).spec_tasks(),
                self.next_handle == old(self).spec_next_handle(),
                remaining@ == self.tasks@.take(i as int).filter(keep),
                self.completed@ == old(self).spec_completed() + task_handles(
                    self.tasks@.take(i as int).filter(done),
                ),
            decreases n - i,
        {
            let t = self.tasks[i];
            let ghost prefix = self.tasks@.take(i as int);
            let completes = match t.op {
                Operation::Ready => true,
                Operation::WaitUntil { deadline } => now >= deadline,
            };
            if completes {
                self.completed.push(t.handle);
            } else {
                remaining.push(t);
            }
            i = i + 1;
            proof {
                lemma_filter_push(prefix, t, keep);
                lemma_filter_push(prefix, t, done);
                assert(self.tasks@.take(i as int) =~= prefix.push(t));
                if completes {
                    assert(task_handles(prefix.filter(done).push(t)) =~= task_handles(
                        prefix.filter(done),
                    ).push(t.handle));
                }
            }
        }
        proof {
            assert(self.tasks@.take(n as int) =~= self.tasks@);
        }
        self.tasks = remaining;
        proof {
            let pre = old(self).spec_tasks();
            let post = self.spec_tasks();
            let postc = self.spec_completed();
            lemma_filter_membership(pre, keep);
            lemma_filter_membership(pre, done);
            lemma_filter_increasing(pre, keep);
            lemma_filter_increasing(pre, done);
            assert forall|a: int|
                0 <= a < post.len() implies #[trigger] post[a].handle
                < self.spec_next_handle() by {
                assert(post.contains(post[a]));
                assert(pre.contains(post[a]));
            }
            let donehandles = task_handles(pre.filter(done));
            assert forall|a: int|
                0 <= a < postc.len() implies #[trigger] postc[a] < self.spec_next_handle() by {
                if a >= old(self).spec_completed().len() {
                    let b = a - old(self).spec_completed().len();
                    assert(postc[a] == pre.filter(done)[b].handle);
                    assert(pre.filter(done).contains(pre.filter(done)[b]));
                    assert(pre.contains(pre.filter(done)[b]));
                }
            }
            assert forall|a: int, b: int|
                0 <= a < b < postc.len() implies postc[a] != postc[b] by {
                let oldlen = old(self).spec_completed().len() as int;
                if a >= oldlen {
                    assert(postc[a] == pre.filter(done)[a - oldlen].handle);
                    assert(postc[b] == pre.filter(done)[b - oldlen].handle);
                } else if b >= oldlen {
                    assert(postc[a] == old(self).spec_completed()[a]);
                    assert(postc[b] == pre.filter(done)[b - oldlen].handle);
                    let e = pre.filter(done)[b - oldlen];
                    assert(pre.filter(done).contains(e));
                    assert(pre.contains(e));
                    let k = choose|k: int| 0 <= k < pre.len() && pre[k] == e;
                    if postc[a] == postc[b] {
                        assert(old(self).spec_has_task(old(self).spec_completed()[a])) by {
                            assert(old(self).spec_tasks()[k].handle == postc[a]);
                        }
                        assert(!old(self).spec_has_task(old(self).spec_completed()[a]));
                        assert(false);
                    }
                }
            }
            assert forall|a: int|
                0 <= a < postc.len() implies !self.spec_has_task(#[trigger] postc[a]) by {
                let oldlen = old(self).spec_completed().len() as int;
                if self.spec_has_task(postc[a]) {
                    let k = choose|k: int|
                        0 <= k < post.len() && #[trigger] post[k].handle == postc[a];
                    assert(post.contains(post[k]));
                    assert(pre.contains(post[k]));
                    let k0 = choose|k0: int| 0 <= k0 < pre.len() && pre[k0] == post[k];
                    assert(keep(post[k]));
                    if a < oldlen {
                        assert(!old(self).spec_has_task(postc[a]));
                    } else {
                        let e = pre.filter(done)[a - oldlen];
                        assert(postc[a] == e.handle);
                        assert(pre.filter(done).contains(e));
                        assert(pre.contains(e));
                        let k1 = choose|k1: int| 0 <= k1 < pre.len() && pre[k1] == e;
                        // two registered entries share a handle only at the
                        // same index, yet one completes and one suspends
                        if k0 < k1 {
                            assert(pre[k0].handle < pre[k1].handle);
                        } else if k1 < k0 {
                            assert(pre[k1].handle < pre[k0].handle);
                        }
                        assert(done(e));
                        assert(false);
                    }
                }
            }
        }
    }

    /// What one `cancel` call does: the operation with this handle, if any,
    /// is removed regardless of state; otherwise nothing changes. Completed
    /// handles are never registered, so cancelling one is a no-op, as is
    /// cancelling a handle already cancelled.
    pub open spec fn cancel_transition(pre: Scheduler, post: Scheduler, h: u64) -> bool {
        &&& post.spec_next_handle() == pre.spec_next_handle()
        &&& post.spec_completed() == pre.spec_completed()
        &&& !post.spec_has_task(h)
        &&& (!pre.spec_has_task(h) ==> post.spec_tasks() == pre.spec_tasks())
        &&& (pre.spec_has_task(h) ==> exists|i: int|
            0 <= i < pre.spec_tasks().len() && pre.spec_tasks()[i].handle == h
                && post.spec_tasks() == #[trigger] pre.spec_tasks().remove(i))
    }

    /// Removes the operation with this handle, whatever its state; no signal
    /// can reach it afterwards. Unknown, already completed and already
    /// cancelled handles are a no-op — never an error.
    pub fn cancel(&mut self, h: u64)
        requires
            old(self).wf(),
        ensures
            final(self).wf(),
            Scheduler::cancel_transition(*old(self), *final(self), h),
    {
        let n = self.tasks.len();
        let mut i: usize = 0;
        while i < n
            invariant
                i <= n,
                n == self.tasks@.len(),
                *self == *old(self),
                self.wf(),
                forall|j: int| 0 <= j < i ==> #[trigger] self.tasks@[j].handle != h,
            decreases n - i,
        {
            let t = self.tasks[i];
            if t.handle == h {
                self.tasks.remove(i);
                proof {
                    let pre = old(self).spec_tasks();
                    let post = self.spec_tasks();
                    pre.remove_ensures(i as int);
                    assert(post == pre.remove(i as int));
                    assert forall|a: int, b: int|
                        0 <= a < b < post.len() implies #[trigger] post[a].handle
                        < #[trigger] post[b].handle by {
                        let a0 = if a < i { a } else { a + 1 };
                        let b0 = if b < i { b } else { b + 1 };
                        assert(post[a] == pre[a0] && post[b] == pre[b0]);
                    }
                    assert forall|a: int|
                        0 <= a < post.len() implies #[trigger] post[a].handle
                        < self.spec_next_handle() by {
                        let a0 = if a < i { a } else { a + 1 };
                        assert(post[a] == pre[a0]);
                    }
                    assert forall|a: int|
                        0 <= a < post.len() implies !(#[trigger] post[a].handle == h) by {
                        let a0 = if a < i { a } else { a + 1 };
                        assert(post[a] == pre[a0]);
                        if a0 > i {
                            assert(pre[i as int].handle < pre[a0].handle);
                        }
                    }
                    assert(self.spec_completed() == old(self).spec_completed());
                    assert forall|a: int|
                        0 <= a < self.spec_completed().len() implies !self.spec_has_task(
                        #[trigger] self.spec_completed()[a],
                    ) by {
                        let x = self.spec_completed()[a];
                        assert(x == old(self).spec_completed()[a]);
                        assert(!old(self).spec_has_task(old(self).spec_completed()[a]));
                        if self.spec_has_task(x) {
                            let k = choose|k: int|
                                0 <= k < post.len() && #[trigger] post[k].handle == x;
                            let k0 = if k < i { k } else { k + 1 };
                            assert(post[k] == pre[k0]);
                            assert(old(self).spec_has_task(x)) by {
                                assert(old(self).spec_tasks()[k0].handle == x);
                            }
                            assert(false);
                        }
                    }
                }
                return ;
            }
            i = i + 1;
        }
    }

    /// The handle the next spawned operation will receive.
    pub fn handle_counter(&self) -> (r: u64)
        ensures
            r == self.spec_next_handle(),
    {
        self.next_handle
    }

    /// How many operations are registered.
    pub fn num_tasks(&self) -> (r: usize)
        ensures
            r == self.spec_tasks().len(),
    {
        self.tasks.len()
    }

    /// Whether an operation with this handle is registered.
    pub fn has_task(&self, h: u64) -> (r: bool)
        ensures
            r == self.spec_has_task(h),
    {
        let n = self.tasks.len();
        let mut i: usize = 0;
        while i < n
            invariant
                i <= n,
                n == self.tasks@.len(),
                forall|j: int| 0 <= j < i ==> #[trigger] self.tasks@[j].handle != h,
            decreases n - i,
        {
            if self.tasks[i].handle == h {
                return true;
            }
            i = i + 1;
        }
        false
    }

    /// Whether the operation with this handle has completed. Its result — an
    /// operation carries none beyond the fact of completion — is thereby
    /// retrievable via the handle.
    pub fn has_completed(&self, h: u64) -> (r: bool)
        ensures
            r == self.spec_is_completed(h),
    {
        let n = self.completed.len();
        let mut i: usize = 0;
        while i < n
            invariant
                i <= n,
                n == self.completed@.len(),
                forall|j: int| 0 <= j < i ==> self.completed@[j] != h,
            decreases n - i,
        {
            if *vstd::slice::slice_index_get(self.completed.as_slice(), i) == h {
                return true;
            }
            i = i + 1;
        }
        false
    }
}

/// A filter of a handle-increasing task slice is handle-increasing.
proof fn lemma_filter_increasing(s: Seq<TaskEntry>, pred: spec_fn(TaskEntry) -> bool)
    requires
        forall|i: int, j: int|
            0 <= i < j < s.len() ==> #[trigger] s[i].handle < #[trigger] s[j].handle,
    ensures
        forall|i: int, j: int|
            0 <= i < j < s.filter(pred).len() ==> #[trigger] s.filter(pred)[i].handle
                < #[trigger] s.filter(pred)[j].handle,
    decreases s.len(),
{
    reveal(Seq::filter);
    if s.len() > 0 {
        lemma_filter_increasing(s.drop_last(), pred);
        lemma_filter_membership(s.drop_last(), pred);
        let dl = s.drop_last().filter(pred);
        assert forall|i: int, j: int|
            0 <= i < j < s.filter(pred).len() implies #[trigger] s.filter(pred)[i].handle
            < #[trigger] s.filter(pred)[j].handle by {
            if pred(s.last()) && j == s.filter(pred).len() - 1 {
                assert(s.filter(pred)[j] == s.last());
                assert(s.filter(pred)[i] == dl[i]);
                assert(dl.contains(dl[i]));
                assert(s.drop_last().contains(dl[i]));
                let k = choose|k: int|
                    0 <= k < s.drop_last().len() && s.drop_last()[k] == dl[i];
                assert(s[k].handle < s[s.len() - 1].handle);
            } else {
                assert(s.filter(pred)[i] == dl[i] && s.filter(pred)[j] == dl[j]);
            }
        }
    }
}

/// Law: an operation that never suspends completes on its very first poll —
/// after any poll pass it is no longer registered and its handle reports
/// completion; equally, a suspended operation completes on the first poll at
/// or past its deadline.
pub proof fn lemma_due_operation_completes(
    pre: Scheduler,
    post: Scheduler,
    now: u64,
    i: int,
)
    requires
        pre.wf(),
        Scheduler::poll_transition(pre, post, now),
        0 <= i < pre.spec_tasks().len(),
        pre.spec_tasks()[i].op.completes_at(now),
    ensures
        post.spec_is_completed(pre.spec_tasks()[i].handle),
        !post.spec_has_task(pre.spec_tasks()[i].handle),
{
    let done = Scheduler::completing(now);
    let keep = Scheduler::still_pending(now);
    let t = pre.spec_tasks()[i];
    pre.spec_tasks().filter_lemma(done);
    assert(done(t));
    assert(pre.spec_tasks().filter(done).contains(t));
    let k = choose|k: int|
        0 <= k < pre.spec_tasks().filter(done).len() && pre.spec_tasks().filter(done)[k] == t;
    assert(task_handles(pre.spec_tasks().filter(done))[k] == t.handle);
    assert(post.spec_completed()[pre.spec_completed().len() + k] == t.handle);
    assert(post.spec_is_completed(t.handle)) by {
        assert(post.spec_completed().contains(t.handle)) by {
            let w = pre.spec_completed().len() + k;
            assert(0 <= w < post.spec_completed().len() && post.spec_completed()[w] == t.handle);
        }
    }
    if post.spec_has_task(t.handle) {
        let j = choose|j: int|
            0 <= j < post.spec_tasks().len() && #[trigger] post.spec_tasks()[j].handle == t.handle;
        lemma_filter_membership(pre.spec_tasks(), keep);
        assert(post.spec_tasks().contains(post.spec_tasks()[j]));
        assert(pre.spec_tasks().contains(post.spec_tasks()[j]));
        let j0 = choose|j0: int|
            0 <= j0 < pre.spec_tasks().len() && pre.spec_tasks()[j0] == post.spec_tasks()[j];
        if j0 < i {
            assert(pre.spec_tasks()[j0].handle < pre.spec_tasks()[i].handle);
        } else if j0 > i {
            assert(pre.spec_tasks()[i].handle < pre.spec_tasks()[j0].handle);
        }
        assert(keep(post.spec_tasks()[j]));
        assert(false);
    }
}

/// Law: an operation suspended on a wait with deadline beyond `now` remains
/// registered, with the same operation, and uncompleted under a poll at
/// `now` — it stays so for every poll until the clock passes its deadline.
pub proof fn lemma_suspended_operation_stays(
    pre: Scheduler,
    post: Scheduler,
    now: u64,
    i: int,
)
    requires
        pre.wf(),
        Scheduler::poll_transition(pre, post, now),
        0 <= i < pre.spec_tasks().len(),
        !pre.spec_tasks()[i].op.completes_at(now),
    ensures
        post.spec_has_task(pre.spec_tasks()[i].handle),
        !post.spec_is_completed(pre.spec_tasks()[i].handle),
{
    let done = Scheduler::completing(now);
    let keep = Scheduler::still_pending(now);
    let t = pre.spec_tasks()[i];
    pre.spec_tasks().filter_lemma(keep);
    assert(keep(t));
    assert(pre.spec_tasks().filter(keep).contains(t));
    let k = choose|k: int|
        0 <= k < post.spec_tasks().len() && post.spec_tasks()[k] == t;
    assert(post.spec_tasks()[k].handle == t.handle);
    assert(post.spec_has_task(t.handle));
    if post.spec_is_completed(t.handle) {
        let a = choose|a: int|
            0 <= a < post.spec_completed().len() && post.spec_completed()[a] == t.handle;
        let oldlen = pre.spec_completed().len() as int;
        if a < oldlen {
            assert(pre.spec_completed()[a] == t.handle);
            assert(pre.spec_has_task(t.handle)) by {
                assert(pre.spec_tasks()[i].handle == t.handle);
            }
            assert(!pre.spec_has_task(pre.spec_completed()[a]));
        } else {
            lemma_filter_membership(pre.spec_tasks(), done);
            let e = pre.spec_tasks().filter(done)[a - oldlen];
            assert(post.spec_completed()[a] == task_handles(pre.spec_tasks().filter(done))[a
                - oldlen]);
            assert(e.handle == t.handle);
            assert(pre.spec_tasks().filter(done).contains(e));
            pre.spec_tasks().filter_lemma(done);
            assert(done(e));
            assert(pre.spec_tasks().contains(e));
            let j = choose|j: int| 0 <= j < pre.spec_tasks().len() && pre.spec_tasks()[j] == e;
            if j < i {
                assert(pre.spec_tasks()[j].handle < pre.spec_tasks()[i].handle);
            } else if j > i {
                assert(pre.spec_tasks()[i].handle < pre.spec_tasks()[j].handle);
            }
            assert(false);
        }
    }
}

/// Law: cancellation is idempotent — after a cancel of `h`, a second cancel
/// of `h` changes nothing, and it never errs.
pub proof fn lemma_cancel_idempotent(s0: Scheduler, s1: Scheduler, s2: Scheduler, h: u64)
    requires
        Scheduler::cancel_transition(s0, s1, h),
        Scheduler::cancel_transition(s1, s2, h),
    ensures
        s2.spec_tasks() == s1.spec_tasks(),
        s2.spec_completed() == s1.spec_completed(),
        s2.spec_next_handle() == s1.spec_next_handle(),
{
}

/// Law: cancelling an already completed handle is a no-op — a completed
/// operation is no longer registered, so nothing is removed.
pub proof fn lemma_cancel_completed_noop(pre: Scheduler, post: Scheduler, h: u64)
    requires
        pre.wf(),
        pre.spec_is_completed(h),
        Scheduler::cancel_transition(pre, post, h),
    ensures
        post.spec_tasks() == pre.spec_tasks(),
        post.spec_completed() == pre.spec_completed(),
        post.spec_next_handle() == pre.spec_next_handle(),
{
    let a = choose|a: int|
        0 <= a < pre.spec_completed().len() && pre.spec_completed()[a] == h;
    assert(!pre.spec_has_task(pre.spec_completed()[a]));
}

} // verus!
