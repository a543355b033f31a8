//! Task identities and wake handles.
//!
//! A `Task` is the opaque, process-unique identity of one spawned unit of
//! suspendable work. A `WakeHandle` is the cloneable token handed to the
//! code that observes readiness events: invoking it reschedules the task it
//! identifies. The handle carries nothing but that identity, so it is safe
//! to hold it after the registration that created it is gone.

use vstd::prelude::*;

use crate::executor::enqueue;
use crate::executor::Executor;

verus! {

/// The identity of one spawned task. Identity `0` is reserved to mean
/// "no task is currently executing" and is never allocated.
#[derive(Clone, Copy, PartialEq, Eq, Hash, Debug, Structural)]
pub struct Task(pub u64);

/// A cloneable token that can reschedule the task it identifies.
/// It holds only the task's numeric identity: no pointer into scheduler- or
/// reactor-owned memory, so it may outlive any particular registration.
#[derive(Clone, Copy, PartialEq, Eq, Hash, Debug, Structural)]
pub struct WakeHandle {
    pub task: u64,
}

/// The wake handle that identifies `task`.
pub open spec fn handle_for(task: u64) -> WakeHandle {
    WakeHandle { task }
}

impl Task {
    /// Wrap a numeric identity.
    pub fn new(task_id: u64) -> (t: Task)
        ensures
            t.0 == task_id,
    {
        Task(task_id)
    }

    /// Bridge this identity into the generic callback token that readiness
    /// observers consume. Cloning the result preserves identity.
    pub fn as_raw_waker(&self) -> (h: WakeHandle)
        ensures
            h == handle_for(self.0),
    {
        WakeHandle { task: self.0 }
    }

    /// Schedule the identified task for re-execution. Idempotent: a task already in
    /// the ready queue is not enqueued a second time.
    pub fn notify(&self, executor: &mut Executor)
        requires
            old(executor).wf(),
        ensures
            final(executor).wf(),
            final(executor).ready() == enqueue(old(executor).ready(), self.0),
            final(executor).tasks() == old(executor).tasks(),
            final(executor).current() == old(executor).current(),
            final(executor).counter() == old(executor).counter(),
    {
        executor.mark_task_ready(*self);
    }
}

impl WakeHandle {
    /// Invoking the handle by value has the same effect as by reference:
    /// the owning task is scheduled for re-execution.
    pub fn wake(self, executor: &mut Executor)
        requires
            old(executor).wf(),
        ensures
            final(executor).wf(),
            final(executor).ready() == enqueue(old(executor).ready(), self.task),
            final(executor).tasks() == old(executor).tasks(),
            final(executor).current() == old(executor).current(),
            final(executor).counter() == old(executor).counter(),
    {
        self.wake_by_ref(executor);
    }

    /// Schedule the owning task. Safe to call any number of times: extra
    /// calls while the task is already ready are absorbed by the queue.
    pub fn wake_by_ref(&self, executor: &mut Executor)
        requires
            old(executor).wf(),
        ensures
            final(executor).wf(),
            final(executor).ready() == enqueue(old(executor).ready(), self.task),
            final(executor).tasks() == old(executor).tasks(),
            final(executor).current() == old(executor).current(),
            final(executor).counter() == old(executor).counter(),
    {
        executor.mark_task_ready(Task(self.task));
    }
}

} // verus!
