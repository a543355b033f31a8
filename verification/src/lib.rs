//! A minimal cooperative task runtime for a single thread: a task scheduler,
//! a readiness registry for an I/O multiplexer, and the wake mechanism that
//! lets an asynchronous operation suspend until a descriptor becomes ready.
//!
//! The runtime core decides; the embedding event loop acts. Every kernel
//! interaction — the multiplexer's wait call, the non-blocking socket and
//! timer operations — happens outside, and its outcome is handed back in as
//! a plain value. The scheduler's run step says which task to poll next,
//! when to block, and when all work is done; the protocol functions say, for
//! each outcome of a non-blocking attempt, whether the operation completed,
//! suspended with a registration in place, or failed.

use vstd::prelude::*;

pub mod executor;
pub mod protocol;
pub mod reactor;
pub mod waker;

verus! {

/// Process-wide state: exactly one scheduler and one readiness registry,
/// created once and handed by reference to everything that needs them.
pub struct Runtime {
    pub executor: executor::Executor,
    pub reactor: reactor::Reactor,
}

impl Runtime {
    /// A fresh runtime with no tasks and nothing watched.
    pub fn new() -> (rt: Runtime)
        ensures
            rt.executor.wf(),
            rt.reactor.wf(),
            rt.executor.tasks() == Seq::<u64>::empty(),
            rt.executor.ready() == Seq::<u64>::empty(),
            rt.executor.current() == 0,
            rt.executor.counter() == 0,
            rt.reactor.registry() == Map::<u64, reactor::Registration>::empty(),
    {
        Runtime { executor: executor::Executor::new(), reactor: reactor::Reactor::new() }
    }
}

} // verus!
