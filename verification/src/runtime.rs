use vstd::prelude::*;
use crate::scheduler::Operation;
use crate::scheduler::Scheduler;
use crate::timer::Timer;

verus! {

/// A link-layer endpoint address: six bytes.
#[derive(Debug, Clone, Copy, PartialEq, Eq)]
pub struct MacAddress {
    pub octets: [u8; 6],
}

impl MacAddress {
    pub fn new(octets: [u8; 6]) -> (r: MacAddress)
        ensures
            r.octets == octets,
    {
        MacAddress { octets }
    }
}

/// A network-layer endpoint address: four bytes.
#[derive(Debug, Clone, Copy, PartialEq, Eq)]
pub struct Ipv4Address {
    pub octets: [u8; 4],
}

impl Ipv4Address {
    pub fn new(octets: [u8; 4]) -> (r: Ipv4Address)
        ensures
            r.octets == octets,
    {
        Ipv4Address { octets }
    }
}

#[verifier::external_type_specification]
#[verifier::external_body]
pub struct ExSmallRng(rand::rngs::SmallRng);

/// Relies on rand's `SeedableRng::seed_from_u64` for `SmallRng`: builds a
/// generator from an integer seed. The algorithm is platform-dependent, so
/// nothing is stated of the stream it will produce.
#[verifier::external_body]
fn rng_from_seed(seed: u64) -> rand::rngs::SmallRng {
    <rand::rngs::SmallRng as rand::SeedableRng>::seed_from_u64(seed)
}

/// Relies on rand's `RngCore::next_u32` for `SmallRng`: an arbitrary 32-bit
/// value; nothing is promised of it.
#[verifier::external_body]
fn rng_next_u32(rng: &mut rand::rngs::SmallRng) -> u32 {
    rand::RngCore::next_u32(rng)
}

/// The runtime capability boundary: everything protocol logic and the
/// scheduler may reach of the outside world — the virtual clock and wait
/// registry, the operation pool, the outbound frame queue, the endpoint's
/// addresses and the pseudo-random source — behind one narrow interface.
/// Nothing here makes progress in the background: the embedding caller
/// drives the clock and the polls.
pub struct Runtime {
    timer: Timer,
    scheduler: Scheduler,
    outgoing: Vec<Vec<u8>>,
    rng: rand::rngs::SmallRng,
    link_addr: MacAddress,
    ipv4_addr: Ipv4Address,
}

impl Runtime {
    /// The logical timer this runtime owns.
    pub closed spec fn spec_timer(&self) -> Timer {
        self.timer
    }

    /// The cooperative scheduler this runtime owns.
    pub closed spec fn spec_scheduler(&self) -> Scheduler {
        self.scheduler
    }

    /// The queued outbound frames, oldest first.
    pub closed spec fn spec_outgoing(&self) -> Seq<Seq<u8>> {
        self.outgoing.deep_view()
    }

    pub closed spec fn spec_link_addr(&self) -> MacAddress {
        self.link_addr
    }

    pub closed spec fn spec_ipv4_addr(&self) -> Ipv4Address {
        self.ipv4_addr
    }

    pub open spec fn wf(&self) -> bool {
        self.spec_timer().wf() && self.spec_scheduler().wf()
    }

    /// A fresh runtime: clock at `now`, no waits, no operations, an empty
    /// outbound queue, and a pseudo-random source built from `seed`.
    pub fn new(now: u64, link_addr: MacAddress, ipv4_addr: Ipv4Address, seed: u64) -> (rt:
        Runtime)
        ensures
            rt.wf(),
            rt.spec_timer().spec_now() == now,
            rt.spec_timer().spec_entries() == Seq::<crate::timer::WaitEntry>::empty(),
            rt.spec_scheduler().spec_tasks() == Seq::<crate::scheduler::TaskEntry>::empty(),
            rt.spec_scheduler().spec_completed() == Seq::<u64>::empty(),
            rt.spec_outgoing() == Seq::<Seq<u8>>::empty(),
            rt.spec_link_addr() == link_addr,
            rt.spec_ipv4_addr() == ipv4_addr,
    {
        let rt = Runtime {
            timer: Timer::new(now),
            scheduler: Scheduler::new(),
            outgoing: Vec::new(),
            rng: rng_from_seed(seed),
            link_addr,
            ipv4_addr,
        };
        proof {
            assert(rt.spec_outgoing() =~= Seq::<Seq<u8>>::empty());
        }
        rt
    }

    /// Hands a fully sealed outbound datagram to the link layer:
    /// fire-and-forget, queued in order, no guaranteed delivery.
    pub fn transmit(&mut self, pkt: Vec<u8>)
        ensures
            final(self).spec_outgoing() == old(self).spec_outgoing().push(pkt@),
            final(self).spec_timer() == old(self).spec_timer(),
            final(self).spec_scheduler() == old(self).spec_scheduler(),
            final(self).spec_link_addr() == old(self).spec_link_addr(),
            final(self).spec_ipv4_addr() == old(self).spec_ipv4_addr(),
    {
        self.outgoing.push(pkt);
        proof {
            let pre = old(self).spec_outgoing();
            let post = self.spec_outgoing();
            assert forall|i: int| 0 <= i < pre.len() implies post[i] == pre[i] by {
                assert(self.outgoing@[i] == old(self).outgoing@[i]);
            }
            assert(post[pre.len() as int] =~= pkt@);
            assert(post =~= pre.push(pkt@));
        }
    }

    /// Dequeues the oldest outbound frame. Popping an empty queue is a
    /// caller bug, excluded by precondition.
    pub fn pop_frame(&mut self) -> (r: Vec<u8>)
        requires
            old(self).spec_outgoing().len() > 0,
        ensures
            r@ == old(self).spec_outgoing()[0],
            final(self).spec_outgoing() == old(self).spec_outgoing().remove(0),
            final(self).spec_timer() == old(self).spec_timer(),
            final(self).spec_scheduler() == old(self).spec_scheduler(),
            final(self).spec_link_addr() == old(self).spec_link_addr(),
            final(self).spec_ipv4_addr() == old(self).spec_ipv4_addr(),
    {
        let r = self.outgoing.remove(0);
        proof {
            let pre = old(self).spec_outgoing();
            let post = self.spec_outgoing();
            old(self).outgoing@.remove_ensures(0);
            assert forall|i: int| 0 <= i < post.len() implies post[i] == pre[i + 1] by {
                assert(self.outgoing@[i] == old(self).outgoing@[i + 1]);
            }
            assert(post =~= pre.remove(0));
            assert(r.deep_view() =~= r@);
        }
        r
    }

    /// Drives every registered operation forward once, at the current
    /// virtual time.
    pub fn poll_scheduler(&mut self)
        requires
            old(self).wf(),
        ensures
            final(self).wf(),
            Scheduler::poll_transition(
                old(self).spec_scheduler(),
                final(self).spec_scheduler(),
                old(self).spec_timer().spec_now(),
            ),
            final(self).spec_timer() == old(self).spec_timer(),
            final(self).spec_outgoing() == old(self).spec_outgoing(),
            final(self).spec_link_addr() == old(self).spec_link_addr(),
            final(self).spec_ipv4_addr() == old(self).spec_ipv4_addr(),
    {
        let now = self.timer.now();
        self.scheduler.poll_all(now);
    }

    pub fn local_link_addr(&self) -> (r: MacAddress)
        ensures
            r == self.spec_link_addr(),
    {
        self.link_addr
    }

    pub fn local_ipv4_addr(&self) -> (r: Ipv4Address)
        ensures
            r == self.spec_ipv4_addr(),
    {
        self.ipv4_addr
    }

    /// The current virtual time.
    pub fn now(&self) -> (r: u64)
        ensures
            r == self.spec_timer().spec_now(),
    {
        self.timer.now()
    }

    /// Moves the virtual clock forward and returns the identifiers of the
    /// waits this resolves. Moving it backward is a caller bug, excluded by
    /// precondition.
    pub fn advance_clock(&mut self, now: u64) -> (fired: Vec<u64>)
        requires
            old(self).wf(),
            old(self).spec_timer().spec_now() <= now,
        ensures
            final(self).wf(),
            Timer::advance_transition(
                old(self).spec_timer(),
                final(self).spec_timer(),
                now,
                fired@,
            ),
            final(self).spec_scheduler() == old(self).spec_scheduler(),
            final(self).spec_outgoing() == old(self).spec_outgoing(),
            final(self).spec_link_addr() == old(self).spec_link_addr(),
            final(self).spec_ipv4_addr() == old(self).spec_ipv4_addr(),
    {
        self.timer.advance_clock(now)
    }

    /// Registers a wait that resolves when the clock reaches `when`.
    pub fn wait_until(&mut self, when: u64) -> (id: u64)
        requires
            old(self).wf(),
            old(self).spec_timer().spec_next_id() < u64::MAX,
        ensures
            final(self).wf(),
            Timer::wait_transition(old(self).spec_timer(), final(self).spec_timer(), when, id),
            final(self).spec_timer().spec_has_wait(id),
            final(self).spec_scheduler() == old(self).spec_scheduler(),
            final(self).spec_outgoing() == old(self).spec_outgoing(),
    {
        self.timer.wait_until(when)
    }

    /// Registers a wait that resolves `duration` ticks from now.
    pub fn wait(&mut self, duration: u64) -> (id: u64)
        requires
            old(self).wf(),
            old(self).spec_timer().spec_next_id() < u64::MAX,
            old(self).spec_timer().spec_now() + duration <= u64::MAX,
        ensures
            final(self).wf(),
            Timer::wait_transition(
                old(self).spec_timer(),
                final(self).spec_timer(),
                (old(self).spec_timer().spec_now() + duration) as u64,
                id,
            ),
            final(self).spec_timer().spec_has_wait(id),
            final(self).spec_scheduler() == old(self).spec_scheduler(),
            final(self).spec_outgoing() == old(self).spec_outgoing(),
    {
        self.timer.wait(duration)
    }

    /// Whether a registered wait has resolved.
    pub fn wait_resolved(&self, id: u64) -> (r: bool)
        requires
            self.wf(),
            self.spec_timer().spec_has_wait(id),
        ensures
            r == exists|i: int|
                0 <= i < self.spec_timer().spec_entries().len()
                    && #[trigger] self.spec_timer().spec_entries()[i].id == id
                    && self.spec_timer().spec_entries()[i].resolved,
    {
        self.timer.is_resolved(id)
    }

    /// An arbitrary pseudo-random 32-bit value; nothing else changes.
    pub fn rng_gen_u32(&mut self) -> (r: u32)
        ensures
            final(self).spec_timer() == old(self).spec_timer(),
            final(self).spec_scheduler() == old(self).spec_scheduler(),
            final(self).spec_outgoing() == old(self).spec_outgoing(),
            final(self).spec_link_addr() == old(self).spec_link_addr(),
            final(self).spec_ipv4_addr() == old(self).spec_ipv4_addr(),
    {
        rng_next_u32(&mut self.rng)
    }

    /// How many outbound frames are queued.
    pub fn outgoing_len(&self) -> (r: usize)
        ensures
            r == self.spec_outgoing().len(),
    {
        self.outgoing.len()
    }

    /// Whether a wait with this identifier is registered.
    pub fn has_wait(&self, id: u64) -> (r: bool)
        ensures
            r == self.spec_timer().spec_has_wait(id),
    {
        self.timer.has_wait(id)
    }

    /// The identifier the next registered wait will receive.
    pub fn wait_counter(&self) -> (r: u64)
        ensures
            r == self.spec_timer().spec_next_id(),
    {
        self.timer.wait_counter()
    }

    /// The handle the next spawned operation will receive.
    pub fn handle_counter(&self) -> (r: u64)
        ensures
            r == self.spec_scheduler().spec_next_handle(),
    {
        self.scheduler.handle_counter()
    }

    /// Whether an operation with this handle is registered.
    pub fn has_task(&self, h: u64) -> (r: bool)
        ensures
            r == self.spec_scheduler().spec_has_task(h),
    {
        self.scheduler.has_task(h)
    }

    /// Whether the operation with this handle has completed.
    pub fn has_completed(&self, h: u64) -> (r: bool)
        ensures
            r == self.spec_scheduler().spec_is_completed(h),
    {
        self.scheduler.has_completed(h)
    }

    /// How many operations are registered.
    pub fn num_tasks(&self) -> (r: usize)
        ensures
            r == self.spec_scheduler().spec_tasks().len(),
    {
        self.scheduler.num_tasks()
    }

    /// Registers a new suspendable operation; it is not begun.
    pub fn spawn(&mut self, op: Operation) -> (h: u64)
        requires
            old(self).wf(),
            old(self).spec_scheduler().spec_next_handle() < u64::MAX,
        ensures
            final(self).wf(),
            h == old(self).spec_scheduler().spec_next_handle(),
            final(self).spec_scheduler().spec_tasks() == old(self).spec_scheduler().spec_tasks()
                .push(crate::scheduler::TaskEntry { handle: h, op }),
            final(self).spec_scheduler().spec_completed() == old(self).spec_scheduler()
                .spec_completed(),
            final(self).spec_timer() == old(self).spec_timer(),
            final(self).spec_outgoing() == old(self).spec_outgoing(),
    {
        self.scheduler.spawn(op)
    }

    /// Requests cancellation of an operation by handle; unknown, completed
    /// and already cancelled handles are a no-op.
    pub fn cancel(&mut self, h: u64)
        requires
            old(self).wf(),
        ensures
            final(self).wf(),
            Scheduler::cancel_transition(
                old(self).spec_scheduler(),
                final(self).spec_scheduler(),
                h,
            ),
            final(self).spec_timer() == old(self).spec_timer(),
            final(self).spec_outgoing() == old(self).spec_outgoing(),
    {
        self.scheduler.cancel(h)
    }
}

} // verus!
