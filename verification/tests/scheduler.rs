//! Scheduler behaviour: spawning, the ready queue, and the run-step
//! decisions of the event loop.

use miniexec::executor::Action;
use miniexec::executor::Executor;
use miniexec::waker::Task;
use miniexec::Runtime;

#[test]
fn spawn_returns_distinct_nonzero_identities() {
    let mut rt = Runtime::new();
    let a = rt.executor.spawn();
    let b = rt.executor.spawn();
    let c = rt.executor.spawn();
    assert_ne!(a.0, 0);
    assert_ne!(b.0, 0);
    assert_ne!(c.0, 0);
    assert_ne!(a.0, b.0);
    assert_ne!(b.0, c.0);
    assert_ne!(a.0, c.0);
}

#[test]
fn identities_are_monotonic_until_wraparound() {
    let mut rt = Runtime::new();
    let a = rt.executor.spawn();
    let b = rt.executor.spawn();
    assert_eq!(a.0, 1);
    assert_eq!(b.0, 2);
    // completing a task does not recycle its identity while the counter
    // keeps moving forward
    match rt.executor.run(&rt.reactor) {
        Action::Poll(t) => rt.executor.task_completed(t),
        _ => panic!("expected a task to poll"),
    }
    let c = rt.executor.spawn();
    assert_eq!(c.0, 3);
}

#[test]
fn scenario_immediate_completion_one_drain_pass() {
    // spawn a task that immediately completes with no I/O: run() reaches
    // the finished state after exactly one drain pass, with the ready
    // queue and the registry both empty
    let mut rt = Runtime::new();
    let t = rt.executor.spawn();
    match rt.executor.run(&rt.reactor) {
        Action::Poll(polled) => {
            assert_eq!(polled, t);
            // the task's single poll step completes without touching I/O
            rt.executor.task_completed(polled);
        },
        other => panic!("expected Poll on the first step, got {:?}", other),
    }
    assert_eq!(rt.executor.run(&rt.reactor), Action::Finished);
    assert!(!rt.reactor.has_pending());
}

#[test]
fn run_finishes_with_no_tasks_at_all() {
    let mut rt = Runtime::new();
    assert_eq!(rt.executor.run(&rt.reactor), Action::Finished);
}

#[test]
fn mark_task_ready_is_idempotent() {
    let mut rt = Runtime::new();
    let t = rt.executor.spawn();
    // extra wake-ups while already ready are absorbed
    rt.executor.mark_task_ready(t);
    rt.executor.mark_task_ready(t);
    match rt.executor.run(&rt.reactor) {
        Action::Poll(polled) => {
            assert_eq!(polled, t);
            rt.executor.task_completed(polled);
        },
        other => panic!("expected Poll, got {:?}", other),
    }
    // the duplicates did not pile up: nothing else is ready
    assert_eq!(rt.executor.run(&rt.reactor), Action::Finished);
}

#[test]
fn wake_for_unknown_task_is_benign() {
    let mut rt = Runtime::new();
    // a late or duplicate wake for an identity that is not live is a no-op
    rt.executor.mark_task_ready(Task::new(99));
    assert_eq!(rt.executor.run(&rt.reactor), Action::Finished);
}

#[test]
fn ready_queue_is_fifo() {
    let mut rt = Runtime::new();
    let a = rt.executor.spawn();
    let b = rt.executor.spawn();
    match rt.executor.run(&rt.reactor) {
        Action::Poll(first) => assert_eq!(first, a),
        other => panic!("expected Poll, got {:?}", other),
    }
    // a suspends (stays live); b must still come next, then a again once
    // it is re-woken
    match rt.executor.run(&rt.reactor) {
        Action::Poll(second) => assert_eq!(second, b),
        other => panic!("expected Poll, got {:?}", other),
    }
    rt.executor.mark_task_ready(a);
    match rt.executor.run(&rt.reactor) {
        Action::Poll(third) => assert_eq!(third, a),
        other => panic!("expected Poll, got {:?}", other),
    }
}

#[test]
fn current_task_follows_the_polled_task() {
    let mut rt = Runtime::new();
    let t = rt.executor.spawn();
    assert_eq!(rt.executor.get_current_task().0, 0);
    match rt.executor.run(&rt.reactor) {
        Action::Poll(polled) => {
            assert_eq!(rt.executor.get_current_task(), polled);
            rt.executor.task_completed(polled);
        },
        other => panic!("expected Poll, got {:?}", other),
    }
    assert_eq!(rt.executor.run(&rt.reactor), Action::Finished);
    assert_eq!(rt.executor.get_current_task().0, 0);
    let _ = t;
}

#[test]
fn fresh_executor_is_empty() {
    let e = Executor::new();
    assert_eq!(e.get_current_task().0, 0);
}
