//! The task scheduler.
//!
//! The `Executor` owns the identities of all live tasks and a FIFO ready
//! queue of identities due for execution. It never runs a task itself: the
//! embedding event loop asks it what to do next (`run`), polls the chosen
//! task one step, and reports a completion back (`task_completed`). The
//! suspended computations themselves are held by the embedder, keyed by the
//! identities handed out here, since they are opaque to the scheduler.

use vstd::arithmetic::div_mod::lemma_add_mod_noop;
use vstd::arithmetic::div_mod::lemma_mod_bound;
use vstd::arithmetic::div_mod::lemma_mod_equivalence;
use vstd::arithmetic::div_mod::lemma_mod_self_0;
use vstd::arithmetic::div_mod::lemma_small_mod;
use vstd::prelude::*;
use vstd::seq_lib::seq_to_set_is_finite;
use vstd::set_lib::lemma_len_subset;

use crate::reactor::Reactor;
use crate::waker::Task;

verus! {

/// What the embedding event loop must do next.
#[derive(Clone, Copy, PartialEq, Eq, Debug, Structural)]
pub enum Action {
    /// Advance the chosen task's computation by one poll step, with a waker bound
    /// to its identity, then report a completion via `task_completed`.
    Poll(Task),
    /// No task is ready but descriptors are registered: block in the
    /// multiplexer's wait call, then report the readiness batch to
    /// `Reactor::process_events`.
    Wait,
    /// No task is ready and no descriptor is registered: all spawned work
    /// is done and the run loop exits.
    Finished,
}

/// FIFO enqueue that keeps identities unique: re-adding an identity that is
/// already pending is a no-op.
pub open spec fn enqueue(queue: Seq<u64>, task: u64) -> Seq<u64> {
    if queue.contains(task) {
        queue
    } else {
        queue.push(task)
    }
}

/// The first identity in `queue` that is a live task, if any. Identities of
/// completed tasks left in the queue by late wake-ups are skipped.
pub open spec fn first_live(tasks: Seq<u64>, queue: Seq<u64>) -> Option<u64>
    decreases queue.len(),
{
    if queue.len() == 0 {
        Option::None
    } else if tasks.contains(queue[0]) {
        Option::Some(queue[0])
    } else {
        first_live(tasks, queue.drop_first())
    }
}

/// What remains of `queue` after popping entries up to and including the
/// first live identity (or all of them, when none is live).
pub open spec fn remaining_queue(tasks: Seq<u64>, queue: Seq<u64>) -> Seq<u64>
    decreases queue.len(),
{
    if queue.len() == 0 {
        queue
    } else if tasks.contains(queue[0]) {
        queue.drop_first()
    } else {
        remaining_queue(tasks, queue.drop_first())
    }
}

/// Law: the ready queue is FIFO. If a live identity stands earlier in the
/// queue than another entry, the later entry is never the one selected for
/// execution next.
pub proof fn lemma_ready_queue_fifo(tasks: Seq<u64>, queue: Seq<u64>, i: int, j: int)
    requires
        0 <= i < j < queue.len(),
        tasks.contains(queue[i]),
        queue.no_duplicates(),
    ensures
        first_live(tasks, queue) is Some,
        first_live(tasks, queue) != Option::Some(queue[j]),
    decreases queue.len(),
{
    if tasks.contains(queue[0]) {
        assert(queue[0] != queue[j]);
    } else {
        assert(queue.drop_first().no_duplicates()) by {
            assert(forall|p: int, q: int|
                0 <= p < q < queue.drop_first().len() ==> queue.drop_first()[p]
                    != queue.drop_first()[q]);
        }
        assert(i >= 1);
        assert(queue.drop_first()[i - 1] == queue[i]);
        lemma_ready_queue_fifo(tasks, queue.drop_first(), i - 1, j - 1);
        assert(queue.drop_first()[j - 1] == queue[j]);
    }
}

/// The identity reached from `start` after `k` steps of the wraparound
/// successor over the cycle 1, 2, ..., u64::MAX, 1, ... (identity 0 is
/// reserved and skipped by the cycle).
spec fn cand_at(start: u64, k: int) -> int {
    (start - 1 + k) % (u64::MAX as int) + 1
}

/// Every candidate is an allocatable identity.
proof fn lemma_cand_bounds(start: u64, k: int)
    ensures
        1 <= cand_at(start, k) <= u64::MAX,
{
    lemma_mod_bound(start - 1 + k, u64::MAX as int);
}

/// One step of the wraparound successor takes candidate `k` to candidate
/// `k + 1`.
proof fn lemma_cand_step(start: u64, c: u64, k: int)
    requires
        k >= 0,
        c as int == if k == 0 {
            start as int
        } else {
            cand_at(start, k)
        },
    ensures
        (if c == u64::MAX {
            1int
        } else {
            c as int + 1
        }) == cand_at(start, k + 1),
{
    let m = u64::MAX as int;
    if k == 0 {
        if c == u64::MAX {
            lemma_mod_self_0(m);
        } else {
            lemma_small_mod(start as nat, m as nat);
        }
    } else {
        lemma_mod_bound(start - 1 + k, m);
        let pos = (start - 1 + k) % m;
        lemma_add_mod_noop(start - 1 + k, 1, m);
        lemma_small_mod(1nat, m as nat);
        assert((start - 1 + k + 1) % m == (pos + 1) % m);
        if c == u64::MAX {
            assert(pos == m - 1);
            lemma_mod_self_0(m);
        } else {
            lemma_small_mod((pos + 1) as nat, m as nat);
        }
    }
}

/// Step counts that differ by less than a full cycle give distinct
/// candidates.
proof fn lemma_cand_inj(start: u64, i: int, j: int)
    requires
        1 <= i < j,
        j - i < u64::MAX as int,
    ensures
        cand_at(start, i) != cand_at(start, j),
{
    let m = u64::MAX as int;
    if cand_at(start, i) == cand_at(start, j) {
        let a = start - 1 + i;
        let b = start - 1 + j;
        assert(a % m == b % m);
        lemma_mod_equivalence(b, a, m);
        assert((b - a) % m == 0);
        lemma_small_mod((j - i) as nat, m as nat);
        assert(false);
    }
}

/// Pigeonhole: a duplicate-free sequence of identities drawn from `tasks`
/// is no longer than `tasks` itself.
proof fn lemma_tried_le_tasks(tried: Seq<u64>, tasks: Seq<u64>)
    requires
        tried.no_duplicates(),
        forall|k: int| 0 <= k < tried.len() ==> tasks.contains(#[trigger] tried[k]),
    ensures
        tried.len() <= tasks.len(),
{
    tried.unique_seq_to_set();
    tasks.lemma_cardinality_of_set();
    seq_to_set_is_finite(tasks);
    assert(tried.to_set().subset_of(tasks.to_set())) by {
        assert forall|x: u64| tried.to_set().contains(x) implies tasks.to_set().contains(x) by {
            assert(tried.contains(x));
            let k = choose|k: int| 0 <= k < tried.len() && tried[k] == x;
            assert(tasks.contains(tried[k]));
        }
    }
    lemma_len_subset(tried.to_set(), tasks.to_set());
}

/// True if `x` occurs in `v`.
pub(crate) fn contains_id(v: &Vec<u64>, x: u64) -> (b: bool)
    ensures
        b == v@.contains(x),
{
    let mut i: usize = 0;
    while i < v.len()
        invariant
            i <= v@.len(),
            forall|k: int| 0 <= k < i ==> v@[k] != x,
        decreases v@.len() - i,
    {
        if v[i] == x {
            return true;
        }
        i = i + 1;
    }
    false
}

/// The task scheduler: live task identities plus the FIFO ready queue.
pub struct Executor {
    task_counter: u64,
    tasks: Vec<u64>,
    ready_queue: Vec<u64>,
    current_task: u64,
}

impl Executor {
    /// The identities of all live tasks (spawned and not yet completed).
    pub closed spec fn tasks(self) -> Seq<u64> {
        self.tasks@
    }

    /// The ready queue: identities pending execution, in FIFO order.
    pub closed spec fn ready(self) -> Seq<u64> {
        self.ready_queue@
    }

    /// The identity of the task being executed, `0` when none is.
    pub closed spec fn current(self) -> u64 {
        self.current_task
    }

    /// The allocation counter: the most recently allocated identity.
    pub closed spec fn counter(self) -> u64 {
        self.task_counter
    }

    /// True if `task` is a live task identity.
    pub open spec fn live(self, task: u64) -> bool {
        self.tasks().contains(task)
    }

    /// Well-formed: no identity is live twice, the ready queue holds each
    /// identity at most once, and the reserved identity `0` is never live.
    pub closed spec fn wf(self) -> bool {
        &&& self.tasks@.no_duplicates()
        &&& self.ready_queue@.no_duplicates()
        &&& !self.tasks@.contains(0)
    }

    /// A fresh scheduler with no tasks and nothing ready.
    pub fn new() -> (e: Executor)
        ensures
            e.wf(),
            e.tasks() == Seq::<u64>::empty(),
            e.ready() == Seq::<u64>::empty(),
            e.current() == 0,
            e.counter() == 0,
    {
        Executor { task_counter: 0, tasks: Vec::new(), ready_queue: Vec::new(), current_task: 0 }
    }

    /// A fresh identity that is not currently live: the wraparound
    /// successor of the allocation counter, skipping identities still in
    /// use and never yielding the reserved identity 0. The machine cannot
    /// hold u64::MAX live tasks, so a free identity always exists.
    pub fn get_new_task(&self) -> (t: Task)
        requires
            self.wf(),
            self.tasks().len() < u64::MAX,
        ensures
            t.0 != 0,
            !self.live(t.0),
            self.counter() < u64::MAX && !self.live((self.counter() + 1) as u64) ==> t.0
                == self.counter() + 1,
    {
        let ghost start = self.task_counter;
        let mut candidate: u64 = self.task_counter;
        let ghost mut tried: Seq<u64> = Seq::empty();
        loop
            invariant
                self.wf(),
                start == self.task_counter,
                self.tasks@.len() < u64::MAX,
                tried.len() <= self.tasks@.len(),
                forall|k: int|
                    0 <= k < tried.len() ==> (#[trigger] tried[k]) as int == cand_at(start, k + 1),
                forall|k: int| 0 <= k < tried.len() ==> self.tasks@.contains(#[trigger] tried[k]),
                candidate as int == if tried.len() == 0 {
                    start as int
                } else {
                    cand_at(start, tried.len() as int)
                },
            decreases self.tasks@.len() - tried.len(),
        {
            proof {
                lemma_cand_step(start, candidate, tried.len() as int);
                lemma_cand_bounds(start, tried.len() as int + 1);
            }
            candidate = if candidate == u64::MAX {
                1
            } else {
                candidate + 1
            };
            if !contains_id(&self.tasks, candidate) {
                proof {
                    if start < u64::MAX && !self.tasks@.contains((start + 1) as u64) {
                        lemma_small_mod(start as nat, u64::MAX as nat);
                        if tried.len() > 0 {
                            assert(tried[0] as int == cand_at(start, 1));
                            assert(tried[0] == (start + 1) as u64);
                        }
                    }
                }
                return Task::new(candidate);
            }
            proof {
                let n = tried.len() as int;
                assert forall|k: int| 0 <= k < n implies (#[trigger] tried[k]) != candidate by {
                    lemma_cand_inj(start, k + 1, n + 1);
                }
                tried = tried.push(candidate);
                assert(tried.no_duplicates()) by {
                    assert forall|p: int, q: int| 0 <= p < q < tried.len() implies tried[p]
                        != tried[q] by {
                        lemma_cand_inj(start, p + 1, q + 1);
                    }
                }
                lemma_tried_le_tasks(tried, self.tasks@);
            }
        }
    }

    /// Allocate a fresh task identity, record it as live, and mark it
    /// ready for its first poll step. The computation it stands for is kept
    /// by the embedder under the returned identity. No backpressure: the
    /// ready queue is unbounded.
    pub fn spawn(&mut self) -> (t: Task)
        requires
            old(self).wf(),
            old(self).tasks().len() < u64::MAX,
        ensures
            final(self).wf(),
            t.0 != 0,
            !old(self).live(t.0),
            old(self).counter() < u64::MAX && !old(self).live((old(self).counter() + 1) as u64)
                ==> t.0 == old(self).counter() + 1,
            final(self).tasks() == old(self).tasks().push(t.0),
            final(self).ready() == enqueue(old(self).ready(), t.0),
            final(self).current() == old(self).current(),
            final(self).counter() == t.0,
    {
        let t = self.get_new_task();
        self.task_counter = t.0;
        let ghost pre = self.tasks@;
        self.tasks.push(t.0);
        proof {
            assert forall|p: int, q: int|
                0 <= p < q < self.tasks@.len() implies self.tasks@[p] != self.tasks@[q] by {
                if q == pre.len() {
                    assert(pre[p] != t.0);
                }
            }
        }
        self.mark_task_ready(t);
        t
    }

    /// The identity of the task whose poll step is currently executing.
    /// Suspending operations use it to register the right waiter.
    pub fn get_current_task(&self) -> (t: Task)
        ensures
            t.0 == self.current(),
    {
        Task::new(self.current_task)
    }

    /// Append `task` to the ready queue unless it is already pending.
    /// Idempotent, and safe for identities that are no longer live: a dead
    /// entry is skipped when the queue is drained.
    pub fn mark_task_ready(&mut self, task: Task)
        requires
            old(self).wf(),
        ensures
            final(self).wf(),
            final(self).ready() == enqueue(old(self).ready(), task.0),
            final(self).tasks() == old(self).tasks(),
            final(self).current() == old(self).current(),
            final(self).counter() == old(self).counter(),
    {
        if !contains_id(&self.ready_queue, task.0) {
            let ghost pre = self.ready_queue@;
            self.ready_queue.push(task.0);
            proof {
                assert forall|p: int, q: int|
                    0 <= p < q < self.ready_queue@.len() implies self.ready_queue@[p]
                    != self.ready_queue@[q] by {
                    if q == pre.len() {
                        assert(pre[p] != task.0);
                    }
                }
            }
        }
    }

    /// Remove a completed task. The ready queue is left alone: a stale
    /// entry for this identity, if any, is skipped when drained.
    pub fn task_completed(&mut self, task: Task)
        requires
            old(self).wf(),
        ensures
            final(self).wf(),
            final(self).tasks() == old(self).tasks().remove_value(task.0),
            !final(self).live(task.0),
            final(self).ready() == old(self).ready(),
            final(self).current() == old(self).current(),
            final(self).counter() == old(self).counter(),
    {
        let ghost pre = self.tasks@;
        let mut i: usize = 0;
        while i < self.tasks.len()
            invariant
                i <= self.tasks@.len(),
                self.tasks@ == pre,
                pre == old(self).tasks@,
                old(self).wf(),
                self.ready_queue@ == old(self).ready_queue@,
                self.current_task == old(self).current_task,
                self.task_counter == old(self).task_counter,
                forall|k: int| 0 <= k < i ==> pre[k] != task.0,
            decreases self.tasks@.len() - i,
        {
            if self.tasks[i] == task.0 {
                self.tasks.remove(i);
                proof {
                    lemma_remove_at_value(pre, i as int);
                    pre.index_of_first_ensures(task.0);
                    assert(pre.contains(task.0));
                    let w = pre.index_of_first(task.0)->Some_0;
                    assert(pre[w] == task.0 && pre[i as int] == task.0);
                    assert(w == i);
                }
                return ;
            }
            i = i + 1;
        }
        proof {
            assert(!pre.contains(task.0));
            pre.index_of_first_ensures(task.0);
        }
    }

    /// Pop identities off the ready queue until a live one is found; make it
    /// the current task and hand it to the embedder to poll. Entries whose
    /// task has completed are dropped as benign no-ops. Returns `None`, with
    /// no current task, once the queue is exhausted.
    pub fn execute_ready_tasks(&mut self) -> (r: Option<Task>)
        requires
            old(self).wf(),
        ensures
            final(self).wf(),
            final(self).tasks() == old(self).tasks(),
            final(self).counter() == old(self).counter(),
            final(self).ready() == remaining_queue(old(self).tasks(), old(self).ready()),
            (match r {
                Option::Some(t) => Option::Some(t.0) == first_live(
                    old(self).tasks(),
                    old(self).ready(),
                ) && final(self).current() == t.0 && final(self).live(t.0),
                Option::None => first_live(old(self).tasks(), old(self).ready())
                    == Option::<u64>::None && final(self).current() == 0,
            }),
    {
        while self.ready_queue.len() > 0
            invariant
                self.wf(),
                self.tasks@ == old(self).tasks@,
                self.task_counter == old(self).task_counter,
                first_live(self.tasks@, self.ready_queue@) == first_live(
                    old(self).tasks@,
                    old(self).ready_queue@,
                ),
                remaining_queue(self.tasks@, self.ready_queue@) == remaining_queue(
                    old(self).tasks@,
                    old(self).ready_queue@,
                ),
            decreases self.ready_queue@.len(),
        {
            let ghost qpre = self.ready_queue@;
            let t = self.ready_queue.remove(0);
            proof {
                assert(self.ready_queue@ =~= qpre.drop_first());
                assert(self.ready_queue@.no_duplicates()) by {
                    assert(forall|p: int, q: int|
                        0 <= p < q < qpre.drop_first().len() ==> qpre.drop_first()[p]
                            != qpre.drop_first()[q]);
                }
            }
            if contains_id(&self.tasks, t) {
                self.current_task = t;
                return Option::Some(Task::new(t));
            }
        }
        self.current_task = 0;
        Option::None
    }

    /// One decision step of the run loop. Drain the ready queue to the next
    /// live task and ask the embedder to poll it; with nothing ready, block
    /// in the multiplexer only when a registration is pending, and otherwise
    /// report that all spawned work is done. The loop therefore terminates
    /// exactly when no task is ready and no descriptor is registered.
    pub fn run(&mut self, reactor: &Reactor) -> (a: Action)
        requires
            old(self).wf(),
        ensures
            final(self).wf(),
            final(self).tasks() == old(self).tasks(),
            final(self).counter() == old(self).counter(),
            final(self).ready() == remaining_queue(old(self).tasks(), old(self).ready()),
            (match a {
                Action::Poll(t) => Option::Some(t.0) == first_live(
                    old(self).tasks(),
                    old(self).ready(),
                ) && final(self).current() == t.0 && final(self).live(t.0),
                Action::Wait => first_live(old(self).tasks(), old(self).ready())
                    == Option::<u64>::None && final(self).current() == 0
                    && reactor.spec_has_pending(),
                Action::Finished => first_live(old(self).tasks(), old(self).ready())
                    == Option::<u64>::None && final(self).current() == 0
                    && !reactor.spec_has_pending(),
            }),
    {
        match self.execute_ready_tasks() {
            Option::Some(t) => Action::Poll(t),
            Option::None => {
                if reactor.has_pending() {
                    Action::Wait
                } else {
                    Action::Finished
                }
            },
        }
    }
}

/// Removing position `i` from a duplicate-free sequence keeps it
/// duplicate-free and removes the value stored there.
proof fn lemma_remove_at_value(s: Seq<u64>, i: int)
    requires
        s.no_duplicates(),
        0 <= i < s.len(),
    ensures
        s.remove(i).no_duplicates(),
        !s.remove(i).contains(s[i]),
{
    let r = s.remove(i);
    assert forall|p: int, q: int| 0 <= p < q < r.len() implies r[p] != r[q] by {
        assert(r[p] == if p < i {
            s[p]
        } else {
            s[p + 1]
        });
        assert(r[q] == if q < i {
            s[q]
        } else {
            s[q + 1]
        });
    }
    assert forall|k: int| 0 <= k < r.len() implies r[k] != s[i] by {
        assert(r[k] == if k < i {
            s[k]
        } else {
            s[k + 1]
        });
    }
    assert(!r.contains(s[i]));
}

} // verus!
