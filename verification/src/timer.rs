use vstd::prelude::*;
use crate::seqs::lemma_filter_membership;

verus! {

/// One pending wait in the timer's registry.
#[derive(Debug, Clone, Copy, PartialEq, Eq, Structural)]
pub struct WaitEntry {
    pub id: u64,
    pub deadline: u64,
    pub resolved: bool,
}

/// Shared virtual clock plus a registry of pending waits. Time moves only by
/// explicit `advance_clock` calls, never by wall-clock polling; a wait
/// resolves exactly once, when the clock first reaches or passes its
/// deadline, in deadline order with ties broken by registration order.
pub struct Timer {
    now: u64,
    next_id: u64,
    entries: Vec<WaitEntry>,
}

impl Timer {
    /// The current virtual time.
    pub closed spec fn spec_now(&self) -> u64 {
        self.now
    }

    /// The registry, held in deadline order, ties in registration order.
    pub closed spec fn spec_entries(&self) -> Seq<WaitEntry> {
        self.entries@
    }

    /// The identifier the next registered wait will receive.
    pub closed spec fn spec_next_id(&self) -> u64 {
        self.next_id
    }

    /// A wait with this identifier is registered.
    pub open spec fn spec_has_wait(&self, id: u64) -> bool {
        exists|i: int|
            0 <= i < self.spec_entries().len() && self.spec_entries()[i].id == id
    }

    /// Registry invariant: identifiers are unique and below the counter; the
    /// registry is ordered by deadline then registration; an entry is
    /// resolved exactly when the clock has reached its deadline, so nothing
    /// resolves early and nothing resolves twice.
    pub open spec fn wf(&self) -> bool {
        &&& forall|i: int, j: int|
            0 <= i < j < self.spec_entries().len() ==> (
            #[trigger] self.spec_entries()[i].deadline < #[trigger] self.spec_entries()[j].deadline
                || (self.spec_entries()[i].deadline == self.spec_entries()[j].deadline
                && self.spec_entries()[i].id < self.spec_entries()[j].id))
        &&& forall|i: int, j: int|
            0 <= i < j < self.spec_entries().len() ==> #[trigger] self.spec_entries()[i].id
                != #[trigger] self.spec_entries()[j].id
        &&& forall|i: int|
            0 <= i < self.spec_entries().len() ==> #[trigger] self.spec_entries()[i].id
                < self.spec_next_id()
        &&& forall|i: int|
            0 <= i < self.spec_entries().len() ==> (#[trigger] self.spec_entries()[i].resolved
                <==> self.spec_entries()[i].deadline <= self.spec_now())
    }

    /// A fresh timer at virtual time `now`, with an empty registry.
    pub fn new(now: u64) -> (t: Timer)
        ensures
            t.wf(),
            t.spec_now() == now,
            t.spec_entries() == Seq::<WaitEntry>::empty(),
    {
        let t = Timer { now, next_id: 0, entries: Vec::new() };
        proof {
            assert(t.spec_entries() =~= Seq::<WaitEntry>::empty());
        }
        t
    }

    /// The current virtual time.
    pub fn now(&self) -> (r: u64)
        ensures
            r == self.spec_now(),
    {
        self.now
    }

    /// What one `wait_until` call does: the clock is untouched and a fresh
    /// entry is inserted at its deadline-ordered position, already resolved
    /// only if the deadline has passed.
    pub open spec fn wait_transition(pre: Timer, post: Timer, deadline: u64, id: u64) -> bool {
        &&& id == pre.spec_next_id()
        &&& post.spec_next_id() == pre.spec_next_id() + 1
        &&& post.spec_now() == pre.spec_now()
        &&& ({
            let e = WaitEntry { id, deadline, resolved: deadline <= pre.spec_now() };
            exists|i: int|
                0 <= i <= pre.spec_entries().len() && post.spec_entries() == #[trigger] pre
                    .spec_entries().insert(i, e)
        })
    }

    /// Registers interest in the clock reaching `deadline` and returns the
    /// wait's identifier. The wait never resolves early and resolves exactly
    /// once, both consequences of the registry invariant.
    pub fn wait_until(&mut self, deadline: u64) -> (id: u64)
        requires
            old(self).wf(),
            old(self).spec_next_id() < u64::MAX,
        ensures
            final(self).wf(),
            Timer::wait_transition(*old(self), *final(self), deadline, id),
            final(self).spec_has_wait(id),
    {
        let n = self.entries.len();
        let mut idx: usize = 0;
        while idx < n && self.entries[idx].deadline <= deadline
            invariant
                idx <= n,
                n == self.entries@.len(),
                forall|j: int| 0 <= j < idx ==> #[trigger] self.entries@[j].deadline <= deadline,
            decreases n - idx,
        {
            idx = idx + 1;
        }
        let id = self.next_id;
        let e = WaitEntry { id, deadline, resolved: deadline <= self.now };
        self.entries.insert(idx, e);
        self.next_id = self.next_id + 1;
        proof {
            let post = self.spec_entries();
            let pre = old(self).spec_entries();
            assert(post == pre.insert(idx as int, e));
            assert forall|i: int, j: int| 0 <= i < j < post.len() implies (post[i].deadline
                < post[j].deadline || (post[i].deadline == post[j].deadline && post[i].id
                < post[j].id)) by {
                if i < idx && j == idx {
                    assert(pre[i].deadline <= deadline);
                } else if i == idx && j > idx {
                    assert(pre[j - 1].deadline > deadline);
                }
            }
            assert(post[idx as int].id == id);
        }
        id
    }

    /// Sugar for a wait `duration` ticks from now.
    pub fn wait(&mut self, duration: u64) -> (id: u64)
        requires
            old(self).wf(),
            old(self).spec_next_id() < u64::MAX,
            old(self).spec_now() + duration <= u64::MAX,
        ensures
            final(self).wf(),
            Timer::wait_transition(
                *old(self),
                *final(self),
                (old(self).spec_now() + duration) as u64,
                id,
            ),
            final(self).spec_has_wait(id),
    {
        let deadline = self.now + duration;
        self.wait_until(deadline)
    }

    /// Entries an advance to `to` newly resolves: pending and now due.
    pub open spec fn newly_due(to: u64) -> spec_fn(WaitEntry) -> bool {
        |e: WaitEntry| !e.resolved && e.deadline <= to
    }

    /// What one `advance_clock` call does: the clock moves to `to`, every
    /// entry whose deadline has now passed becomes resolved, and `fired`
    /// lists exactly the newly resolved identifiers, in registry order —
    /// deadline order, ties in registration order.
    pub open spec fn advance_transition(
        pre: Timer,
        post: Timer,
        to: u64,
        fired: Seq<u64>,
    ) -> bool {
        &&& post.spec_now() == to
        &&& post.spec_next_id() == pre.spec_next_id()
        &&& post.spec_entries().len() == pre.spec_entries().len()
        &&& forall|i: int|
            0 <= i < pre.spec_entries().len() ==> #[trigger] post.spec_entries()[i] == (WaitEntry {
                id: pre.spec_entries()[i].id,
                deadline: pre.spec_entries()[i].deadline,
                resolved: pre.spec_entries()[i].resolved || pre.spec_entries()[i].deadline <= to,
            })
        &&& fired == wait_ids(pre.spec_entries().filter(Timer::newly_due(to)))
    }

    /// Sets the clock to `to` and resolves, in deadline order then
    /// registration order, every pending wait whose deadline has been
    /// reached; returns their identifiers. Moving the clock backward is a
    /// caller bug, excluded by precondition.
    #[verifier::rlimit(100)]
    pub fn advance_clock(&mut self, to: u64) -> (fired: Vec<u64>)
        requires
            old(self).wf(),
            old(self).spec_now() <= to,
        ensures
            final(self).wf(),
            Timer::advance_transition(*old(self), *final(self), to, fired@),
    {
        let ghost pred = Timer::newly_due(to);
        let n = self.entries.len();
        let mut i: usize = 0;
        let mut fired: Vec<u64> = Vec::new();
        let mut updated: Vec<WaitEntry> = Vec::new();
        proof {
            reveal(Seq::filter);
            assert(self.entries@.take(0) =~= Seq::<WaitEntry>::empty());
            assert(wait_ids(Seq::<WaitEntry>::empty().filter(pred)) =~= Seq::<u64>::empty());
        }
        while i < n
            invariant
                i <= n,
                n == self.entries@.len(),
                pred == Timer::newly_due(to),
                updated@.len() == i,
                forall|j: int|
                    0 <= j < i ==> #[trigger] updated@[j] == (WaitEntry {
                        id: self.entries@[j].id,
                        deadline: self.entries@[j].deadline,
                        resolved: self.entries@[j].resolved || self.entries@[j].deadline <= to,
                    }),
                fired@ == wait_ids(self.entries@.take(i as int).filter(pred)),
            decreases n - i,
        {
            let e = self.entries[i];
            let ghost prefix = self.entries@.take(i as int);
            if !e.resolved && e.deadline <= to {
                fired.push(e.id);
            }
            updated.push(
                WaitEntry { id: e.id, deadline: e.deadline, resolved: e.resolved || e.deadline <= to },
            );
            i = i + 1;
            proof {
                lemma_filter_map_push(prefix, e, pred);
                assert(self.entries@.take(i as int) =~= prefix.push(e));
            }
        }
        proof {
            assert(self.entries@.take(n as int) =~= self.entries@);
        }
        self.entries = updated;
        self.now = to;
        proof {
            let pre = old(self).spec_entries();
            let post = self.spec_entries();
            assert forall|a: int, b: int| 0 <= a < b < post.len() implies ((#[trigger] post[a].deadline
                < #[trigger] post[b].deadline || (post[a].deadline == post[b].deadline
                && post[a].id < post[b].id)) && post[a].id != post[b].id) by {
                assert(post[a].deadline == pre[a].deadline && post[a].id == pre[a].id);
                assert(post[b].deadline == pre[b].deadline && post[b].id == pre[b].id);
            }
            assert forall|a: int| 0 <= a < post.len() implies #[trigger] post[a].id
                < self.spec_next_id() by {
                assert(post[a].id == pre[a].id);
            }
            assert forall|a: int| 0 <= a < post.len() implies (#[trigger] post[a].resolved
                <==> post[a].deadline <= self.spec_now()) by {
                assert(post[a].resolved == (pre[a].resolved || pre[a].deadline <= to));
                assert(pre[a].resolved <==> pre[a].deadline <= old(self).spec_now());
            }
        }
        fired
    }

    /// Whether a wait with this identifier is registered.
    pub fn has_wait(&self, id: u64) -> (r: bool)
        ensures
            r == self.spec_has_wait(id),
    {
        let n = self.entries.len();
        let mut i: usize = 0;
        while i < n
            invariant
                i <= n,
                n == self.entries@.len(),
                forall|j: int| 0 <= j < i ==> #[trigger] self.entries@[j].id != id,
            decreases n - i,
        {
            if self.entries[i].id == id {
                proof {
                    assert(self.spec_entries()[i as int].id == id);
                }
                return true;
            }
            i = i + 1;
        }
        false
    }

    /// The identifier the next registered wait will receive.
    pub fn wait_counter(&self) -> (r: u64)
        ensures
            r == self.spec_next_id(),
    {
        self.next_id
    }

    /// Whether the wait with this identifier has resolved.
    pub fn is_resolved(&self, id: u64) -> (r: bool)
        requires
            self.wf(),
            self.spec_has_wait(id),
        ensures
            r == exists|i: int|
                0 <= i < self.spec_entries().len() && #[trigger] self.spec_entries()[i].id == id
                    && self.spec_entries()[i].resolved,
    {
        let n = self.entries.len();
        let mut i: usize = 0;
        while i < n
            invariant
                i <= n,
                n == self.entries@.len(),
                self.wf(),
                forall|j: int| 0 <= j < i ==> #[trigger] self.entries@[j].id != id,
            decreases n - i,
        {
            let e = self.entries[i];
            if e.id == id {
                proof {
                    let entries = self.spec_entries();
                    assert forall|j: int|
                        0 <= j < entries.len() && #[trigger] entries[j].id == id implies entries[j]
                        == entries[i as int] by {
                        if j < i as int {
                            assert(entries[j].id != entries[i as int].id);
                        } else if j > i as int {
                            assert(entries[i as int].id != entries[j].id);
                        }
                    }
                }
                return e.resolved;
            }
            i = i + 1;
        }
        proof {
            assert(false);
        }
        false
    }

    /// Removes the wait with this identifier from the registry, if present;
    /// no signal can be delivered for it afterwards. Cancelling an unknown or
    /// already cancelled identifier is a no-op.
    pub fn cancel_wait(&mut self, id: u64)
        requires
            old(self).wf(),
        ensures
            final(self).wf(),
            final(self).spec_now() == old(self).spec_now(),
            final(self).spec_next_id() == old(self).spec_next_id(),
            !final(self).spec_has_wait(id),
            !old(self).spec_has_wait(id) ==> final(self).spec_entries() == old(
                self,
            ).spec_entries(),
            old(self).spec_has_wait(id) ==> exists|i: int|
                0 <= i < old(self).spec_entries().len() && old(self).spec_entries()[i].id == id
                    && final(self).spec_entries() == old(self).spec_entries().remove(i),
    {
        let n = self.entries.len();
        let mut i: usize = 0;
        while i < n
            invariant
                i <= n,
                n == self.entries@.len(),
                *self == *old(self),
                self.wf(),
                forall|j: int| 0 <= j < i ==> #[trigger] self.entries@[j].id != id,
            decreases n - i,
        {
            let e = self.entries[i];
            if e.id == id {
                self.entries.remove(i);
                proof {
                    let pre = old(self).spec_entries();
                    let post = self.spec_entries();
                    pre.remove_ensures(i as int);
                    assert(post == pre.remove(i as int));
                    assert forall|a: int, b: int| 0 <= a < b < post.len() implies (post[a].deadline
                        < post[b].deadline || (post[a].deadline == post[b].deadline && post[a].id
                        < post[b].id)) by {
                        let a0 = if a < i { a } else { a + 1 };
                        let b0 = if b < i { b } else { b + 1 };
                        assert(post[a] == pre[a0] && post[b] == pre[b0]);
                    }
                    assert forall|a: int| 0 <= a < post.len() implies !(#[trigger] post[a].id
                        == id) by {
                        let a0 = if a < i { a } else { a + 1 };
                        assert(post[a] == pre[a0]);
                    }
                }
                return ;
            }
            i = i + 1;
        }
    }
}

/// Law: no wait resolves before its deadline. Every identifier fired by an
/// advance belongs to a registered wait whose deadline lies beyond the old
/// time and at or before the new one.
pub proof fn lemma_no_early_resolution(
    pre: Timer,
    post: Timer,
    to: u64,
    fired: Seq<u64>,
    k: int,
)
    requires
        pre.wf(),
        Timer::advance_transition(pre, post, to, fired),
        0 <= k < fired.len(),
    ensures
        exists|i: int|
            0 <= i < pre.spec_entries().len() && #[trigger] pre.spec_entries()[i].id == fired[k]
                && pre.spec_now() < pre.spec_entries()[i].deadline <= to,
{
    let pred = Timer::newly_due(to);
    let filtered = pre.spec_entries().filter(pred);
    pre.spec_entries().filter_lemma(pred);
    lemma_filter_membership(pre.spec_entries(), pred);
    assert(fired[k] == wait_ids(filtered)[k]);
    let e = filtered[k];
    assert(pred(e));
    assert(filtered.contains(e)) by {
        assert(0 <= k < filtered.len() && filtered[k] == e);
    }
    assert(pre.spec_entries().contains(e));
    let i = choose|i: int|
        0 <= i < pre.spec_entries().len() && pre.spec_entries()[i] == e;
    assert(pre.spec_entries()[i].id == fired[k]);
}

/// Law: a wait resolves exactly once. An identifier fired by one advance is
/// never fired again by a later one.
pub proof fn lemma_resolves_exactly_once(
    t0: Timer,
    t1: Timer,
    t2: Timer,
    to1: u64,
    to2: u64,
    f1: Seq<u64>,
    f2: Seq<u64>,
    id: u64,
)
    requires
        t0.wf(),
        t0.spec_now() <= to1,
        Timer::advance_transition(t0, t1, to1, f1),
        Timer::advance_transition(t1, t2, to2, f2),
        f1.contains(id),
    ensures
        !f2.contains(id),
{
    let pred2 = Timer::newly_due(to2);
    let k1 = choose|k: int| 0 <= k < f1.len() && f1[k] == id;
    lemma_no_early_resolution(t0, t1, to1, f1, k1);
    let i = choose|i: int|
        0 <= i < t0.spec_entries().len() && #[trigger] t0.spec_entries()[i].id == id
            && t0.spec_now() < t0.spec_entries()[i].deadline <= to1;
    assert(t1.spec_entries()[i].resolved);
    if f2.contains(id) {
        let k2 = choose|k: int| 0 <= k < f2.len() && f2[k] == id;
        t1.spec_entries().filter_lemma(pred2);
        lemma_filter_membership(t1.spec_entries(), pred2);
        let filtered2 = t1.spec_entries().filter(pred2);
        let e2 = filtered2[k2];
        assert(f2[k2] == wait_ids(filtered2)[k2]);
        assert(filtered2.contains(e2)) by {
            assert(0 <= k2 < filtered2.len() && filtered2[k2] == e2);
        }
        assert(pred2(e2) && t1.spec_entries().contains(e2));
        let j = choose|j: int|
            0 <= j < t1.spec_entries().len() && t1.spec_entries()[j] == e2;
        // two registered entries share the identifier: the registry's
        // ordering makes identifiers unique, so they are the same entry
        assert(t1.spec_entries()[j].id == id && !t1.spec_entries()[j].resolved);
        if i != j {
            assert(t1.spec_entries()[i].id == t0.spec_entries()[i].id);
            assert(t1.spec_entries()[j].id == t0.spec_entries()[j].id);
            if i < j {
                assert(t0.spec_entries()[i].id != t0.spec_entries()[j].id);
            } else {
                assert(t0.spec_entries()[j].id != t0.spec_entries()[i].id);
            }
        }
        assert(i == j);
        assert(false);
    }
}

/// Law: every wait still pending resolves in the advance that first reaches
/// its deadline — none is skipped.
pub proof fn lemma_pending_wait_fires(pre: Timer, post: Timer, to: u64, fired: Seq<u64>, i: int)
    requires
        pre.wf(),
        Timer::advance_transition(pre, post, to, fired),
        0 <= i < pre.spec_entries().len(),
        !pre.spec_entries()[i].resolved,
        pre.spec_entries()[i].deadline <= to,
    ensures
        fired.contains(pre.spec_entries()[i].id),
{
    let pred = Timer::newly_due(to);
    let entries = pre.spec_entries();
    entries.filter_lemma(pred);
    assert(pred(entries[i]));
    assert(entries.filter(pred).contains(entries[i]));
    let k = choose|k: int|
        0 <= k < entries.filter(pred).len() && entries.filter(pred)[k] == entries[i];
    assert(fired[k] == wait_ids(entries.filter(pred))[k]);
    assert(fired[k] == entries[i].id);
}

/// The identifiers of a registry slice, in order.
pub open spec fn wait_ids(s: Seq<WaitEntry>) -> Seq<u64> {
    s.map_values(|e: WaitEntry| e.id)
}

/// How one appended element moves through a filter-then-project pipeline.
proof fn lemma_filter_map_push(s: Seq<WaitEntry>, e: WaitEntry, pred: spec_fn(WaitEntry) -> bool)
    ensures
        wait_ids(s.push(e).filter(pred)) == (if pred(e) {
            wait_ids(s.filter(pred)).push(e.id)
        } else {
            wait_ids(s.filter(pred))
        }),
{
    reveal(Seq::filter);
    assert(s.push(e).drop_last() =~= s);
    assert(s.push(e).last() == e);
    if pred(e) {
        assert(wait_ids(s.filter(pred).push(e)) =~= wait_ids(s.filter(pred)).push(e.id));
    }
}

} // verus!
