//! Reactor behaviour: the single-waiter registry and event draining.

use miniexec::executor::Action;
use miniexec::reactor::DescriptorBusy;
use miniexec::reactor::Interest;
use miniexec::reactor::Reactor;
use miniexec::waker::Task;
use miniexec::Runtime;

#[test]
fn fresh_reactor_has_nothing_pending() {
    let r = Reactor::new();
    assert!(!r.has_pending());
    assert_eq!(r.pending_count(), 0);
    assert_eq!(r.lookup(4), None);
}

#[test]
fn register_then_lookup() {
    let mut r = Reactor::new();
    let h = Task::new(1).as_raw_waker();
    assert_eq!(r.register(4, h, Interest::Readable), Ok(()));
    assert!(r.has_pending());
    assert_eq!(r.pending_count(), 1);
    let g = r.lookup(4).expect("descriptor 4 must be registered");
    assert_eq!(g.handle.task, 1);
    assert_eq!(g.interest, Interest::Readable);
}

#[test]
fn scenario_second_registration_conflicts_and_mutates_nothing() {
    // issuing a second registration on a descriptor that already has one
    // pending yields the conflict error without touching the existing
    // registration
    let mut r = Reactor::new();
    let first = Task::new(1).as_raw_waker();
    let second = Task::new(2).as_raw_waker();
    assert_eq!(r.register(4, first, Interest::Readable), Ok(()));
    assert_eq!(r.register(4, second, Interest::Writable), Err(DescriptorBusy));
    assert_eq!(r.reregister(4, second, Interest::Writable), Err(DescriptorBusy));
    let g = r.lookup(4).expect("the first registration must survive");
    assert_eq!(g.handle.task, 1);
    assert_eq!(g.interest, Interest::Readable);
    assert_eq!(r.pending_count(), 1);
}

#[test]
fn deregister_clears_and_tolerates_absence() {
    let mut r = Reactor::new();
    let h = Task::new(1).as_raw_waker();
    assert_eq!(r.register(4, h, Interest::Writable), Ok(()));
    r.deregister(4);
    assert!(!r.has_pending());
    assert_eq!(r.lookup(4), None);
    // deregistering a descriptor nobody watches is a defensive no-op
    r.deregister(4);
    assert!(!r.has_pending());
    // and the descriptor can be awaited again afterwards
    assert_eq!(r.register(4, h, Interest::Readable), Ok(()));
}

#[test]
fn one_event_wakes_exactly_the_registered_task() {
    // one readiness event for a descriptor wakes exactly the task
    // registered for it and consumes that registration, leaving others
    let mut rt = Runtime::new();
    let a = rt.executor.spawn();
    let b = rt.executor.spawn();
    // both tasks get polled once and suspend on their descriptors
    assert_eq!(rt.executor.run(&rt.reactor), Action::Poll(a));
    assert_eq!(rt.reactor.register(10, a.as_raw_waker(), Interest::Readable), Ok(()));
    assert_eq!(rt.executor.run(&rt.reactor), Action::Poll(b));
    assert_eq!(rt.reactor.register(20, b.as_raw_waker(), Interest::Readable), Ok(()));
    assert_eq!(rt.executor.run(&rt.reactor), Action::Wait);
    // only descriptor 20 becomes ready
    rt.reactor.process_events(&mut rt.executor, &vec![20]);
    assert_eq!(rt.reactor.lookup(20), None);
    assert!(rt.reactor.lookup(10).is_some());
    assert_eq!(rt.executor.run(&rt.reactor), Action::Poll(b));
    // a second event for 20 with no new registration wakes nobody
    rt.reactor.process_events(&mut rt.executor, &vec![20]);
    assert_eq!(rt.executor.run(&rt.reactor), Action::Wait);
}

#[test]
fn drain_wakes_tasks_in_event_report_order() {
    // both descriptors ready in one drain cycle: the task whose event is
    // reported first executes first
    let mut rt = Runtime::new();
    let a = rt.executor.spawn();
    let b = rt.executor.spawn();
    assert_eq!(rt.executor.run(&rt.reactor), Action::Poll(a));
    assert_eq!(rt.reactor.register(10, a.as_raw_waker(), Interest::Readable), Ok(()));
    assert_eq!(rt.executor.run(&rt.reactor), Action::Poll(b));
    assert_eq!(rt.reactor.register(20, b.as_raw_waker(), Interest::Writable), Ok(()));
    assert_eq!(rt.executor.run(&rt.reactor), Action::Wait);
    // the kernel reports 20 before 10
    rt.reactor.process_events(&mut rt.executor, &vec![20, 10]);
    assert!(!rt.reactor.has_pending());
    assert_eq!(rt.executor.run(&rt.reactor), Action::Poll(b));
    rt.executor.task_completed(b);
    assert_eq!(rt.executor.run(&rt.reactor), Action::Poll(a));
    rt.executor.task_completed(a);
    assert_eq!(rt.executor.run(&rt.reactor), Action::Finished);
}

#[test]
fn event_for_unwatched_descriptor_is_ignored() {
    let mut rt = Runtime::new();
    rt.reactor.process_events(&mut rt.executor, &vec![42]);
    assert_eq!(rt.executor.run(&rt.reactor), Action::Finished);
}

#[test]
fn run_blocks_only_while_registrations_are_pending() {
    let mut rt = Runtime::new();
    let t = rt.executor.spawn();
    assert_eq!(rt.executor.run(&rt.reactor), Action::Poll(t));
    // the task suspends on descriptor 7
    assert_eq!(rt.reactor.register(7, t.as_raw_waker(), Interest::Readable), Ok(()));
    assert_eq!(rt.executor.run(&rt.reactor), Action::Wait);
    rt.reactor.process_events(&mut rt.executor, &vec![7]);
    assert_eq!(rt.executor.run(&rt.reactor), Action::Poll(t));
    rt.executor.task_completed(t);
    // with the registry empty and nothing ready, the loop must not block
    assert_eq!(rt.executor.run(&rt.reactor), Action::Finished);
}

#[test]
fn wake_handle_is_idempotent_and_clone_preserves_identity() {
    let mut rt = Runtime::new();
    let t = rt.executor.spawn();
    assert_eq!(rt.executor.run(&rt.reactor), Action::Poll(t));
    let h = t.as_raw_waker();
    let h2 = h.clone();
    assert_eq!(h, h2);
    assert_eq!(h.task, t.0);
    // waking by value and by reference have the same effect, and extra
    // wake-ups collapse into one ready entry
    h2.wake_by_ref(&mut rt.executor);
    h.wake(&mut rt.executor);
    assert_eq!(rt.executor.run(&rt.reactor), Action::Poll(t));
    rt.executor.task_completed(t);
    assert_eq!(rt.executor.run(&rt.reactor), Action::Finished);
}

#[test]
fn notify_reschedules_the_task() {
    let mut rt = Runtime::new();
    let t = rt.executor.spawn();
    assert_eq!(rt.executor.run(&rt.reactor), Action::Poll(t));
    t.notify(&mut rt.executor);
    assert_eq!(rt.executor.run(&rt.reactor), Action::Poll(t));
}
