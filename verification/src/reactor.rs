//! The I/O readiness registry.
//!
//! The `Reactor` maps each watched descriptor to the single wake handle
//! waiting on it. The multiplexer's kernel object itself is owned by the
//! embedding event loop; this registry decides who is woken when the
//! embedder's wait call reports readiness, and enforces the single-waiter
//! discipline: at most one registration per descriptor at any time.
//!
//! All interests are treated as oneshot: a readiness event consumes the
//! registration, and continued interest requires an explicit re-arm. The
//! embedder mirrors every `register` with an add to the multiplexer's watch
//! set, every `reregister` with an interest update on a descriptor already
//! in that set, and every consumed or dropped registration with a delete or
//! re-arm as the protocol directs.

use vstd::prelude::*;

use crate::executor::enqueue;
use crate::executor::Executor;
use crate::waker::WakeHandle;

verus! {

/// The readiness an operation waits for: incoming data or connections
/// (readable) or buffer space to send (writable).
#[derive(Clone, Copy, PartialEq, Eq, Debug, Structural)]
pub enum Interest {
    Readable,
    Writable,
}

/// One pending waiter: the handle to invoke when the descriptor becomes
/// ready, and the interest it was registered under.
#[derive(Clone, Copy, PartialEq, Eq, Debug, Structural)]
pub struct Registration {
    pub handle: WakeHandle,
    pub interest: Interest,
}

/// The registration-conflict error: the descriptor is already awaited by
/// another pending operation. Reported immediately and never retried.
#[derive(Clone, Copy, PartialEq, Eq, Debug, Structural)]
pub struct DescriptorBusy;

/// The registry change that one batch of readiness events produces, event by
/// event in report order: a registered descriptor's entry is consumed and
/// its task enqueued; an event for an unregistered descriptor is a no-op.
pub open spec fn drain_spec(
    registry: Map<u64, Registration>,
    queue: Seq<u64>,
    events: Seq<u64>,
) -> (Map<u64, Registration>, Seq<u64>)
    decreases events.len(),
{
    if events.len() == 0 {
        (registry, queue)
    } else {
        let fd = events[0];
        if registry.dom().contains(fd) {
            drain_spec(
                registry.remove(fd),
                enqueue(queue, registry[fd].handle.task),
                events.drop_first(),
            )
        } else {
            drain_spec(registry, queue, events.drop_first())
        }
    }
}

/// The readiness registry: watched descriptors and their single waiters.
pub struct Reactor {
    registrations: Vec<(u64, Registration)>,
}

/// The mapping from descriptor to waiter that a registration list denotes.
spec fn seq_registry(s: Seq<(u64, Registration)>) -> Map<u64, Registration> {
    Map::new(
        |fd: u64| exists|i: int| 0 <= i < s.len() && (#[trigger] s[i]).0 == fd,
        |fd: u64|
            {
                let i = choose|i: int| 0 <= i < s.len() && (#[trigger] s[i]).0 == fd;
                s[i].1
            },
    )
}

/// No descriptor occurs twice in the list.
spec fn unique_fds(s: Seq<(u64, Registration)>) -> bool {
    forall|i: int, j: int| 0 <= i < j < s.len() ==> (#[trigger] s[i]).0 != (#[trigger] s[j]).0
}

impl Reactor {
    /// The registry: each watched descriptor maps to exactly one waiter.
    pub closed spec fn registry(self) -> Map<u64, Registration> {
        seq_registry(self.registrations@)
    }

    /// Well-formed: one waiter per descriptor, by construction.
    pub closed spec fn wf(self) -> bool {
        unique_fds(self.registrations@)
    }

    /// True if any registration is pending, i.e. blocking in the
    /// multiplexer can still be woken by something.
    pub open spec fn spec_has_pending(self) -> bool {
        self.registry().dom() != Set::<u64>::empty()
    }

    /// A fresh registry with nothing watched.
    pub fn new() -> (r: Reactor)
        ensures
            r.wf(),
            r.registry() == Map::<u64, Registration>::empty(),
    {
        let r = Reactor { registrations: Vec::new() };
        proof {
            assert(r.registry() =~= Map::<u64, Registration>::empty());
        }
        r
    }

    /// The position of `fd`'s registration, if it has one.
    fn find_index(&self, fd: u64) -> (r: Option<usize>)
        requires
            self.wf(),
        ensures
            (match r {
                Option::Some(i) => i < self.registrations@.len() && self.registrations@[
                    i as int
                ].0 == fd && self.registry().dom().contains(fd) && self.registry()[fd]
                    == self.registrations@[i as int].1,
                Option::None => !self.registry().dom().contains(fd),
            }),
    {
        let mut i: usize = 0;
        while i < self.registrations.len()
            invariant
                self.wf(),
                i <= self.registrations@.len(),
                forall|k: int| 0 <= k < i ==> (#[trigger] self.registrations@[k]).0 != fd,
            decreases self.registrations@.len() - i,
        {
            if self.registrations[i].0 == fd {
                proof {
                    let s = self.registrations@;
                    assert(s[i as int].0 == fd);
                    assert(self.registry().dom().contains(fd));
                    let w = choose|w: int| 0 <= w < s.len() && (#[trigger] s[w]).0 == fd;
                    assert(w == i as int);
                }
                return Option::Some(i);
            }
            i = i + 1;
        }
        proof {
            assert(!self.registry().dom().contains(fd));
        }
        Option::None
    }

    /// True if the registry is non-empty; the scheduler uses this to decide
    /// whether blocking for events is still meaningful.
    pub fn has_pending(&self) -> (b: bool)
        ensures
            b == self.spec_has_pending(),
    {
        let n = self.registrations.len();
        proof {
            let s = self.registrations@;
            if s.len() == 0 {
                assert(self.registry().dom() =~= Set::<u64>::empty());
            } else {
                let fd0 = s[0].0;
                assert(exists|i: int| 0 <= i < s.len() && (#[trigger] s[i]).0 == fd0);
                assert(self.registry().dom().contains(fd0));
                assert(!Set::<u64>::empty().contains(fd0));
            }
        }
        n != 0
    }

    /// The number of pending registrations; the embedder sizes one wait
    /// call's event buffer with it.
    pub fn pending_count(&self) -> (n: usize)
        requires
            self.wf(),
        ensures
            n == self.registry().len(),
    {
        proof {
            lemma_seq_registry_len(self.registrations@);
        }
        self.registrations.len()
    }

    /// The waiter registered for `fd`, if any.
    pub fn lookup(&self, fd: u64) -> (r: Option<Registration>)
        requires
            self.wf(),
        ensures
            (match r {
                Option::Some(g) => self.registry().dom().contains(fd) && g == self.registry()[fd],
                Option::None => !self.registry().dom().contains(fd),
            }),
    {
        match self.find_index(fd) {
            Option::Some(i) => Option::Some(self.registrations[i].1),
            Option::None => Option::None,
        }
    }

    /// Add a registration for a descriptor that is not yet awaited. Fails
    /// with the conflict error, mutating nothing, if one is already pending:
    /// one descriptor, one logical operation. The embedder mirrors a
    /// successful call by adding the descriptor to the multiplexer's watch
    /// set under the same interest.
    pub fn register(&mut self, fd: u64, handle: WakeHandle, interest: Interest) -> (r: Result<
        (),
        DescriptorBusy,
    >)
        requires
            old(self).wf(),
        ensures
            final(self).wf(),
            (match r {
                Result::Ok(()) => !old(self).registry().dom().contains(fd) && final(self).registry() == old(self).registry().insert(
                    fd,
                    (Registration { handle, interest }),
                ),
                Result::Err(_) => old(self).registry().dom().contains(fd) && final(self).registry()
                    == old(self).registry(),
            }),
    {
        match self.find_index(fd) {
            Option::Some(_) => Result::Err(DescriptorBusy),
            Option::None => {
                let ghost pre = self.registrations@;
                self.registrations.push((fd, Registration { handle, interest }));
                proof {
                    lemma_seq_registry_push(pre, fd, Registration { handle, interest });
                }
                Result::Ok(())
            },
        }
    }

    /// Update the interest of a descriptor already in the multiplexer's
    /// watch set but not currently awaited (oneshot re-arm). Rejects
    /// overwriting a live pending registration with the same conflict error
    /// as `register`, keeping the single-waiter discipline. The embedder
    /// mirrors a successful call by modifying the descriptor's interest in
    /// the multiplexer.
    pub fn reregister(&mut self, fd: u64, handle: WakeHandle, interest: Interest) -> (r: Result<
        (),
        DescriptorBusy,
    >)
        requires
            old(self).wf(),
        ensures
            final(self).wf(),
            (match r {
                Result::Ok(()) => !old(self).registry().dom().contains(fd) && final(self).registry() == old(self).registry().insert(
                    fd,
                    (Registration { handle, interest }),
                ),
                Result::Err(_) => old(self).registry().dom().contains(fd) && final(self).registry()
                    == old(self).registry(),
            }),
    {
        self.register(fd, handle, interest)
    }

    /// Drop `fd`'s registration. Tolerant of a descriptor that is not
    /// currently registered (defensive cleanup on drop): that is a no-op.
    pub fn deregister(&mut self, fd: u64)
        requires
            old(self).wf(),
        ensures
            final(self).wf(),
            final(self).registry() == old(self).registry().remove(fd),
    {
        let ghost pre = self.registrations@;
        match self.find_index(fd) {
            Option::Some(i) => {
                self.registrations.remove(i);
                proof {
                    lemma_seq_registry_remove(pre, i as int);
                }
            },
            Option::None => {
                proof {
                    assert(self.registry() =~= old(self).registry().remove(fd));
                }
            },
        }
    }

    /// Consume one batch of readiness events, in report order: each event
    /// for a registered descriptor removes that registration and invokes its
    /// wake handle, which enqueues the owning task; events for descriptors
    /// nobody awaits are ignored.
    pub fn process_events(&mut self, executor: &mut Executor, events: &Vec<u64>)
        requires
            old(self).wf(),
            old(executor).wf(),
        ensures
            final(self).wf(),
            final(executor).wf(),
            ({
                let after = drain_spec(old(self).registry(), old(executor).ready(), events@);
                final(self).registry() == after.0 && final(executor).ready() == after.1
            }),
            final(executor).tasks() == old(executor).tasks(),
            final(executor).current() == old(executor).current(),
            final(executor).counter() == old(executor).counter(),
    {
        proof {
            assert(events@.skip(0) =~= events@);
        }
        let mut i: usize = 0;
        while i < events.len()
            invariant
                i <= events@.len(),
                self.wf(),
                executor.wf(),
                executor.tasks() == old(executor).tasks(),
                executor.current() == old(executor).current(),
                executor.counter() == old(executor).counter(),
                drain_spec(old(self).registry(), old(executor).ready(), events@) == drain_spec(
                    self.registry(),
                    executor.ready(),
                    events@.skip(i as int),
                ),
            decreases events@.len() - i,
        {
            let fd = events[i];
            let ghost rest = events@.skip(i as int);
            proof {
                assert(rest.len() > 0);
                assert(rest[0] == events@[i as int]);
                assert(rest.drop_first() =~= events@.skip(i as int + 1));
            }
            match self.lookup(fd) {
                Option::Some(g) => {
                    self.deregister(fd);
                    g.handle.wake_by_ref(executor);
                },
                Option::None => {},
            }
            i = i + 1;
        }
        proof {
            assert(events@.skip(events@.len() as int) =~= Seq::<u64>::empty());
        }
    }
}

/// Law: one readiness event for a registered descriptor wakes exactly the
/// task registered for it, enqueues it at most once, and consumes the
/// registration, so a second event for the same descriptor wakes nobody
/// until a new registration is made.
pub proof fn lemma_event_resumes_at_most_once(
    registry: Map<u64, Registration>,
    queue: Seq<u64>,
    fd: u64,
)
    requires
        registry.dom().contains(fd),
    ensures
        ({
            let after = drain_spec(registry, queue, seq![fd]);
            after.0 == registry.remove(fd) && after.1 == enqueue(
                queue,
                registry[fd].handle.task,
            ) && !after.0.dom().contains(fd)
        }),
{
    let s = seq![fd];
    assert(s.len() == 1 && s[0] == fd);
    assert(s.drop_first() =~= Seq::<u64>::empty());
    let r1 = registry.remove(fd);
    let q1 = enqueue(queue, registry[fd].handle.task);
    assert(drain_spec(registry, queue, s) == drain_spec(r1, q1, s.drop_first()));
    assert(drain_spec(r1, q1, s.drop_first()) == (r1, q1));
}

/// Law: descriptors that become ready in one drain cycle wake their tasks
/// in event-report order, so a task woken by an earlier event stands before
/// one woken by a later event in the ready queue.
pub proof fn lemma_drain_wakes_in_event_order(
    registry: Map<u64, Registration>,
    queue: Seq<u64>,
    fd_a: u64,
    fd_b: u64,
)
    requires
        registry.dom().contains(fd_a),
        registry.dom().contains(fd_b),
        fd_a != fd_b,
        !queue.contains(registry[fd_a].handle.task),
        !queue.contains(registry[fd_b].handle.task),
        registry[fd_a].handle.task != registry[fd_b].handle.task,
    ensures
        ({
            let after = drain_spec(registry, queue, seq![fd_a, fd_b]);
            after.1 == queue.push(registry[fd_a].handle.task).push(registry[fd_b].handle.task)
        }),
{
    let s = seq![fd_a, fd_b];
    let ta = registry[fd_a].handle.task;
    let tb = registry[fd_b].handle.task;
    assert(s.len() == 2 && s[0] == fd_a && s[1] == fd_b);
    assert(s.drop_first() =~= seq![fd_b]);
    assert(seq![fd_b].drop_first() =~= Seq::<u64>::empty());
    assert(!queue.push(ta).contains(tb)) by {
        assert(forall|k: int|
            0 <= k < queue.push(ta).len() ==> queue.push(ta)[k] == if k < queue.len() {
                queue[k]
            } else {
                ta
            });
    }
    let r1 = registry.remove(fd_a);
    let q1 = enqueue(queue, ta);
    assert(q1 == queue.push(ta));
    assert(drain_spec(registry, queue, s) == drain_spec(r1, q1, s.drop_first()));
    assert(r1.dom().contains(fd_b) && r1[fd_b] == registry[fd_b]);
    let r2 = r1.remove(fd_b);
    let q2 = enqueue(q1, tb);
    assert(q2 == queue.push(ta).push(tb));
    assert(drain_spec(r1, q1, seq![fd_b]) == drain_spec(r2, q2, seq![fd_b].drop_first()));
    assert(drain_spec(r2, q2, seq![fd_b].drop_first()) == (r2, q2));
}

/// Pushing a pair with a fresh descriptor adds exactly that entry to the
/// denoted registry.
proof fn lemma_seq_registry_push(s: Seq<(u64, Registration)>, fd: u64, g: Registration)
    requires
        unique_fds(s),
        !seq_registry(s).dom().contains(fd),
    ensures
        unique_fds(s.push((fd, g))),
        seq_registry(s.push((fd, g))) == seq_registry(s).insert(fd, g),
{
    let s2 = s.push((fd, g));
    assert(forall|k: int| 0 <= k < s.len() ==> (#[trigger] s[k]).0 != fd);
    assert forall|p: int, q: int| 0 <= p < q < s2.len() implies (#[trigger] s2[p]).0 != (
    #[trigger] s2[q]).0 by {
        if q == s.len() {
            assert(s2[p] == s[p]);
        } else {
            assert(s2[p] == s[p] && s2[q] == s[q]);
        }
    }
    assert forall|x: u64| #[trigger]
        seq_registry(s2).dom().contains(x) <==> seq_registry(s).insert(fd, g).dom().contains(
            x,
        ) by {
        if x == fd {
            assert(s2[s.len() as int].0 == fd);
        } else {
            if exists|i: int| 0 <= i < s2.len() && (#[trigger] s2[i]).0 == x {
                let i = choose|i: int| 0 <= i < s2.len() && (#[trigger] s2[i]).0 == x;
                assert(i < s.len() && s[i] == s2[i]);
            }
            if exists|i: int| 0 <= i < s.len() && (#[trigger] s[i]).0 == x {
                let i = choose|i: int| 0 <= i < s.len() && (#[trigger] s[i]).0 == x;
                assert(s2[i].0 == x);
            }
        }
    }
    assert forall|x: u64|
        seq_registry(s2).dom().contains(x) implies #[trigger] seq_registry(s2)[x] == seq_registry(
        s,
    ).insert(fd, g)[x] by {
        let i = choose|i: int| 0 <= i < s2.len() && (#[trigger] s2[i]).0 == x;
        if x == fd {
            assert(s2[i].0 == fd);
            assert(i == s.len()) by {
                if i < s.len() {
                    assert(s[i].0 == fd);
                }
            }
            assert(seq_registry(s2)[x] == g);
        } else {
            assert(i < s.len());
            let w = choose|w: int| 0 <= w < s.len() && (#[trigger] s[w]).0 == x;
            assert(s[w].0 == x);
            assert(w == i);
            assert(seq_registry(s)[x] == s[i].1);
        }
    }
    assert(seq_registry(s2) =~= seq_registry(s).insert(fd, g));
}

/// Removing position `i` removes exactly that descriptor's entry from the
/// denoted registry.
proof fn lemma_seq_registry_remove(s: Seq<(u64, Registration)>, i: int)
    requires
        unique_fds(s),
        0 <= i < s.len(),
    ensures
        unique_fds(s.remove(i)),
        seq_registry(s.remove(i)) == seq_registry(s).remove(s[i].0),
{
    let fd = s[i].0;
    let s2 = s.remove(i);
    assert(forall|k: int|
        0 <= k < s2.len() ==> #[trigger] s2[k] == if k < i {
            s[k]
        } else {
            s[k + 1]
        });
    assert forall|p: int, q: int| 0 <= p < q < s2.len() implies (#[trigger] s2[p]).0 != (
    #[trigger] s2[q]).0 by {}
    assert forall|x: u64| #[trigger]
        seq_registry(s2).dom().contains(x) <==> seq_registry(s).remove(fd).dom().contains(x) by {
        if exists|k: int| 0 <= k < s2.len() && (#[trigger] s2[k]).0 == x {
            let k = choose|k: int| 0 <= k < s2.len() && (#[trigger] s2[k]).0 == x;
            if k < i {
                assert(s[k].0 == x);
            } else {
                assert(s[k + 1].0 == x);
            }
            assert(x != fd);
        }
        if x != fd && (exists|k: int| 0 <= k < s.len() && (#[trigger] s[k]).0 == x) {
            let k = choose|k: int| 0 <= k < s.len() && (#[trigger] s[k]).0 == x;
            assert(k != i);
            if k < i {
                assert(s2[k].0 == x);
            } else {
                assert(s2[k - 1].0 == x);
            }
        }
    }
    assert forall|x: u64|
        seq_registry(s2).dom().contains(x) implies #[trigger] seq_registry(s2)[x] == seq_registry(
        s,
    ).remove(fd)[x] by {
        let k = choose|k: int| 0 <= k < s2.len() && (#[trigger] s2[k]).0 == x;
        let w = choose|w: int| 0 <= w < s.len() && (#[trigger] s[w]).0 == x;
        if k < i {
            assert(s[k].0 == x);
            assert(w == k);
        } else {
            assert(s[k + 1].0 == x);
            assert(w == k + 1);
        }
        assert(seq_registry(s2)[x] == s2[k].1 && seq_registry(s)[x] == s[w].1);
    }
    assert(seq_registry(s2) =~= seq_registry(s).remove(fd));
}

/// A list with unique descriptors denotes a registry with one entry per
/// list element.
proof fn lemma_seq_registry_len(s: Seq<(u64, Registration)>)
    requires
        unique_fds(s),
    ensures
        seq_registry(s).dom().finite(),
        seq_registry(s).len() == s.len(),
    decreases s.len(),
{
    if s.len() == 0 {
        assert(seq_registry(s).dom() =~= Set::<u64>::empty());
    } else {
        let fd = s.last().0;
        let rest = s.drop_last();
        assert(forall|k: int| 0 <= k < rest.len() ==> #[trigger] rest[k] == s[k]);
        lemma_seq_registry_len(rest);
        assert(!seq_registry(rest).dom().contains(fd)) by {
            if exists|k: int| 0 <= k < rest.len() && (#[trigger] rest[k]).0 == fd {
                let k = choose|k: int| 0 <= k < rest.len() && (#[trigger] rest[k]).0 == fd;
                assert(s[k].0 == s[s.len() - 1].0);
            }
        }
        assert(rest.push(s.last()) =~= s);
        lemma_seq_registry_push(rest, fd, s.last().1);
        assert(seq_registry(s) == seq_registry(rest).insert(fd, s.last().1));
    }
}

} // verus!
