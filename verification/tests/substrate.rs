use catnip::runtime::Ipv4Address;
use catnip::runtime::MacAddress;
use catnip::runtime::Runtime;
use catnip::scheduler::Operation;
use catnip::scheduler::Scheduler;
use catnip::timer::Timer;

#[test]
fn clock_starts_where_told_and_advances() {
    let mut t = Timer::new(5);
    assert_eq!(t.now(), 5);
    let fired = t.advance_clock(9);
    assert_eq!(t.now(), 9);
    assert!(fired.is_empty());
}

#[test]
fn waits_resolve_in_deadline_then_registration_order() {
    let mut t = Timer::new(0);
    let a = t.wait_until(10);
    let b = t.wait_until(5);
    let c = t.wait_until(10);
    assert!(t.advance_clock(4).is_empty());
    assert_eq!(t.advance_clock(5), vec![b]);
    assert!(!t.is_resolved(a));
    assert_eq!(t.advance_clock(12), vec![a, c]);
    assert!(t.is_resolved(a) && t.is_resolved(b) && t.is_resolved(c));
}

#[test]
fn no_wait_resolves_before_its_deadline_and_none_twice() {
    let mut t = Timer::new(0);
    let a = t.wait_until(3);
    let mut seen = 0;
    for now in 0..10u64 {
        let fired = t.advance_clock(now);
        for id in &fired {
            assert_eq!(*id, a);
            assert!(now >= 3, "wait resolved before its deadline");
            seen += 1;
        }
    }
    assert_eq!(seen, 1, "wait must resolve exactly once");
}

#[test]
fn wait_already_due_registers_resolved_and_never_fires() {
    let mut t = Timer::new(7);
    let a = t.wait_until(3);
    assert!(t.is_resolved(a));
    assert!(t.advance_clock(9).is_empty());
}

#[test]
fn wait_is_sugar_for_now_plus_duration() {
    let mut t = Timer::new(100);
    let a = t.wait(20);
    assert!(t.advance_clock(119).is_empty());
    assert_eq!(t.advance_clock(120), vec![a]);
}

#[test]
fn cancelled_wait_never_fires() {
    let mut t = Timer::new(0);
    let a = t.wait_until(5);
    let b = t.wait_until(6);
    t.cancel_wait(a);
    assert!(!t.has_wait(a));
    t.cancel_wait(a); // a second cancellation is a harmless no-op
    assert_eq!(t.advance_clock(10), vec![b]);
}

#[test]
fn operation_that_never_suspends_completes_on_first_poll() {
    let mut s = Scheduler::new();
    let h = s.spawn(Operation::Ready);
    assert!(s.has_task(h));
    assert!(!s.has_completed(h));
    s.poll_all(0);
    assert!(!s.has_task(h));
    assert!(s.has_completed(h));
}

#[test]
fn suspended_operation_stays_until_clock_passes_deadline() {
    let mut s = Scheduler::new();
    let h = s.spawn(Operation::WaitUntil { deadline: 10 });
    for now in 0..10u64 {
        s.poll_all(now);
        assert!(s.has_task(h), "left the pool before its deadline");
        assert!(!s.has_completed(h));
    }
    s.poll_all(10);
    assert!(!s.has_task(h));
    assert!(s.has_completed(h));
}

#[test]
fn spawn_does_not_begin_the_operation() {
    let mut s = Scheduler::new();
    let h = s.spawn(Operation::Ready);
    assert!(s.has_task(h) && !s.has_completed(h));
    assert_eq!(s.num_tasks(), 1);
}

#[test]
fn poll_drives_each_operation_exactly_once_in_order() {
    let mut s = Scheduler::new();
    let h1 = s.spawn(Operation::Ready);
    let h2 = s.spawn(Operation::WaitUntil { deadline: 4 });
    let h3 = s.spawn(Operation::Ready);
    s.poll_all(0);
    assert!(s.has_completed(h1) && s.has_completed(h3));
    assert!(s.has_task(h2));
    assert_eq!(s.num_tasks(), 1);
}

#[test]
fn cancelling_removes_regardless_of_state() {
    let mut s = Scheduler::new();
    let h = s.spawn(Operation::WaitUntil { deadline: 100 });
    s.cancel(h);
    assert!(!s.has_task(h));
    assert!(!s.has_completed(h));
    s.poll_all(200);
    assert!(!s.has_completed(h), "a signal reached a cancelled operation");
}

#[test]
fn cancelling_completed_or_cancelled_handle_is_noop() {
    let mut s = Scheduler::new();
    let done = s.spawn(Operation::Ready);
    let gone = s.spawn(Operation::WaitUntil { deadline: 9 });
    s.poll_all(0);
    assert!(s.has_completed(done));
    s.cancel(done); // already completed
    assert!(s.has_completed(done));
    assert!(s.has_task(gone));
    s.cancel(gone);
    s.cancel(gone); // already cancelled
    assert!(!s.has_task(gone));
    assert_eq!(s.num_tasks(), 0);
}

fn runtime() -> Runtime {
    Runtime::new(
        0,
        MacAddress::new([0x12, 0x23, 0x45, 0x67, 0x89, 0xab]),
        Ipv4Address::new([192, 168, 1, 1]),
        0,
    )
}

#[test]
fn runtime_reports_its_addresses() {
    let rt = runtime();
    assert_eq!(rt.local_link_addr().octets, [0x12, 0x23, 0x45, 0x67, 0x89, 0xab]);
    assert_eq!(rt.local_ipv4_addr().octets, [192, 168, 1, 1]);
}

#[test]
fn transmitted_frames_pop_in_order() {
    let mut rt = runtime();
    rt.transmit(vec![1, 2, 3]);
    rt.transmit(vec![4]);
    assert_eq!(rt.outgoing_len(), 2);
    assert_eq!(rt.pop_frame(), vec![1, 2, 3]);
    assert_eq!(rt.pop_frame(), vec![4]);
    assert_eq!(rt.outgoing_len(), 0);
}

#[test]
fn runtime_clock_and_waits() {
    let mut rt = runtime();
    assert_eq!(rt.now(), 0);
    let a = rt.wait(5);
    let b = rt.wait_until(3);
    assert!(rt.has_wait(a) && rt.has_wait(b));
    assert!(!rt.wait_resolved(a) && !rt.wait_resolved(b));
    let fired = rt.advance_clock(4);
    assert_eq!(rt.now(), 4);
    assert_eq!(fired, vec![b]);
    assert!(rt.wait_resolved(b) && !rt.wait_resolved(a));
    assert_eq!(rt.advance_clock(5), vec![a]);
}

#[test]
fn runtime_polls_its_scheduler_at_its_own_clock() {
    let mut rt = runtime();
    let h = rt.spawn(Operation::WaitUntil { deadline: 2 });
    rt.poll_scheduler();
    assert!(rt.has_task(h));
    rt.advance_clock(2);
    rt.poll_scheduler();
    assert!(!rt.has_task(h));
    assert!(rt.has_completed(h));
}

#[test]
fn runtime_cancel_is_idempotent() {
    let mut rt = runtime();
    let h = rt.spawn(Operation::WaitUntil { deadline: 50 });
    rt.cancel(h);
    rt.cancel(h);
    assert!(!rt.has_task(h));
    assert_eq!(rt.num_tasks(), 0);
}

#[test]
fn rng_is_usable_and_leaves_the_rest_alone() {
    let mut rt = runtime();
    rt.transmit(vec![9]);
    let _x = rt.rng_gen_u32();
    let _y = rt.rng_gen_u32();
    assert_eq!(rt.now(), 0);
    assert_eq!(rt.outgoing_len(), 1);
}
