//! The readiness-future protocol.
//!
//! Every non-blocking I/O primitive follows the same state machine on each
//! poll attempt: try the operation; on success, drop any leftover
//! registration and complete; on a would-block indication, register the
//! current task's wake handle for the descriptor and suspend; on any other
//! error, drop any registration and fail. The attempt itself (accept,
//! receive, send, timer read) is performed by the embedder, which hands its
//! outcome in as a plain value; the decision — and the registry change it
//! entails — is made here.
//!
//! A poll function returns `Pending` only from the branch that has just
//! registered the waiter, so a task that suspends always has a registration
//! in place by the time it yields: the liveness contract of the protocol.

use vstd::prelude::*;

use crate::reactor::DescriptorBusy;
use crate::reactor::Interest;
use crate::reactor::Reactor;
use crate::reactor::Registration;
use crate::waker::handle_for;
use crate::waker::Task;

verus! {

/// The outcome of one non-blocking attempt, as the embedder observed it:
/// success with a numeric result (bytes transferred, or an accepted
/// descriptor), a would-block indication, or an OS error code.
#[derive(Clone, Copy, PartialEq, Eq, Debug, Structural)]
pub enum IoOutcome {
    Ready(u64),
    WouldBlock,
    Fail(i32),
}

/// A terminal failure of an in-flight operation: a registration conflict,
/// or an OS error passed through unchanged.
#[derive(Clone, Copy, PartialEq, Eq, Debug, Structural)]
pub enum IoError {
    Conflict,
    Os(i32),
}

/// What one poll attempt decided: the operation completed with a result,
/// suspended with a registration in place, or failed terminally.
#[derive(Clone, Copy, PartialEq, Eq, Debug, Structural)]
pub enum PollStatus {
    Complete(u64),
    Pending,
    Failed(IoError),
}

/// One poll attempt of the readiness-future protocol, shared by every
/// primitive. `outcome` is what the embedder's non-blocking attempt on `fd`
/// returned; `current` is the task executing this poll. On would-block, the
/// waiter is registered under `interest` before `Pending` is returned; a
/// conflicting registration is a terminal failure that mutates nothing.
/// On success or error, any leftover registration for `fd` is consumed.
pub fn poll_io(
    reactor: &mut Reactor,
    current: Task,
    fd: u64,
    interest: Interest,
    outcome: IoOutcome,
) -> (s: PollStatus)
    requires
        old(reactor).wf(),
    ensures
        final(reactor).wf(),
        s is Pending ==> final(reactor).registry().dom().contains(fd) && final(reactor).registry()[
            fd
        ] == (Registration { handle: handle_for(current.0), interest }),
        (match outcome {
            IoOutcome::Ready(v) => s == PollStatus::Complete(v) && final(reactor).registry() == old(
                reactor,
            ).registry().remove(fd),
            IoOutcome::WouldBlock => {
                if old(reactor).registry().dom().contains(fd) {
                    s == PollStatus::Failed(IoError::Conflict) && final(reactor).registry() == old(
                        reactor,
                    ).registry()
                } else {
                    s == PollStatus::Pending && final(reactor).registry() == old(reactor).registry()
                        .insert(fd, (Registration { handle: handle_for(current.0), interest }))
                }
            },
            IoOutcome::Fail(e) => s == PollStatus::Failed(IoError::Os(e)) && final(reactor).registry() == old(reactor).registry().remove(fd),
        }),
{
    match outcome {
        IoOutcome::Ready(v) => {
            reactor.deregister(fd);
            PollStatus::Complete(v)
        },
        IoOutcome::WouldBlock => {
            let handle = current.as_raw_waker();
            match reactor.register(fd, handle, interest) {
                Result::Ok(()) => PollStatus::Pending,
                Result::Err(DescriptorBusy) => PollStatus::Failed(IoError::Conflict),
            }
        },
        IoOutcome::Fail(e) => {
            reactor.deregister(fd);
            PollStatus::Failed(IoError::Os(e))
        },
    }
}

/// A pending accept on a listening descriptor. The embedder retries the
/// non-blocking accept on each poll; a successful outcome carries the new
/// connected descriptor, which the embedder then adds to the multiplexer's
/// watch set (with no interest yet) before handing it to the caller.
pub struct TcpAcceptFuture {
    pub fd: u64,
}

impl TcpAcceptFuture {
    /// An accept attempt on listening descriptor `fd`.
    pub fn new(fd: u64) -> (f: TcpAcceptFuture)
        ensures
            f.fd == fd,
    {
        TcpAcceptFuture { fd }
    }

    /// One poll attempt: waits for read-readiness of the listener. The
    /// listening descriptor stays in the multiplexer's watch set between
    /// attempts, so suspension needs only the registry entry.
    pub fn poll(&self, reactor: &mut Reactor, current: Task, outcome: IoOutcome) -> (s: PollStatus)
        requires
            old(reactor).wf(),
        ensures
            final(reactor).wf(),
            s is Pending ==> final(reactor).registry().dom().contains(self.fd) && final(reactor).registry()[self.fd] == (Registration {
                handle: handle_for(current.0),
                interest: Interest::Readable,
            }),
            (match outcome {
                IoOutcome::Ready(v) => s == PollStatus::Complete(v) && final(reactor).registry()
                    == old(reactor).registry().remove(self.fd),
                IoOutcome::WouldBlock => {
                    if old(reactor).registry().dom().contains(self.fd) {
                        s == PollStatus::Failed(IoError::Conflict) && final(reactor).registry()
                            == old(reactor).registry()
                    } else {
                        s == PollStatus::Pending && final(reactor).registry() == old(
                            reactor,
                        ).registry().insert(
                            self.fd,
                            (Registration {
                                handle: handle_for(current.0),
                                interest: Interest::Readable,
                            }),
                        )
                    }
                },
                IoOutcome::Fail(e) => s == PollStatus::Failed(IoError::Os(e)) && final(reactor).registry() == old(reactor).registry().remove(self.fd),
            }),
    {
        poll_io(reactor, current, self.fd, Interest::Readable, outcome)
    }
}

/// A pending receive on a connected descriptor. The embedder retries the
/// non-blocking receive on each poll and re-arms read interest (oneshot) in
/// the multiplexer whenever the poll suspends.
pub struct TcpReadFuture {
    pub fd: u64,
}

impl TcpReadFuture {
    /// A receive attempt on connected descriptor `fd`.
    pub fn new(fd: u64) -> (f: TcpReadFuture)
        ensures
            f.fd == fd,
    {
        TcpReadFuture { fd }
    }

    /// One poll attempt: waits for read-readiness. A successful outcome
    /// carries the number of bytes received.
    pub fn poll(&self, reactor: &mut Reactor, current: Task, outcome: IoOutcome) -> (s: PollStatus)
        requires
            old(reactor).wf(),
        ensures
            final(reactor).wf(),
            s is Pending ==> final(reactor).registry().dom().contains(self.fd) && final(reactor).registry()[self.fd] == (Registration {
                handle: handle_for(current.0),
                interest: Interest::Readable,
            }),
            (match outcome {
                IoOutcome::Ready(v) => s == PollStatus::Complete(v) && final(reactor).registry()
                    == old(reactor).registry().remove(self.fd),
                IoOutcome::WouldBlock => {
                    if old(reactor).registry().dom().contains(self.fd) {
                        s == PollStatus::Failed(IoError::Conflict) && final(reactor).registry()
                            == old(reactor).registry()
                    } else {
                        s == PollStatus::Pending && final(reactor).registry() == old(
                            reactor,
                        ).registry().insert(
                            self.fd,
                            (Registration {
                                handle: handle_for(current.0),
                                interest: Interest::Readable,
                            }),
                        )
                    }
                },
                IoOutcome::Fail(e) => s == PollStatus::Failed(IoError::Os(e)) && final(reactor).registry() == old(reactor).registry().remove(self.fd),
            }),
    {
        poll_io(reactor, current, self.fd, Interest::Readable, outcome)
    }
}

/// A pending send on a connected descriptor. The embedder retries the
/// non-blocking send on each poll and re-arms write interest (oneshot) in
/// the multiplexer whenever the poll suspends.
pub struct TcpWriteFuture {
    pub fd: u64,
}

impl TcpWriteFuture {
    /// A send attempt on connected descriptor `fd`.
    pub fn new(fd: u64) -> (f: TcpWriteFuture)
        ensures
            f.fd == fd,
    {
        TcpWriteFuture { fd }
    }

    /// One poll attempt: waits for write-readiness. A successful outcome
    /// carries the number of bytes sent.
    pub fn poll(&self, reactor: &mut Reactor, current: Task, outcome: IoOutcome) -> (s: PollStatus)
        requires
            old(reactor).wf(),
        ensures
            final(reactor).wf(),
            s is Pending ==> final(reactor).registry().dom().contains(self.fd) && final(reactor).registry()[self.fd] == (Registration {
                handle: handle_for(current.0),
                interest: Interest::Writable,
            }),
            (match outcome {
                IoOutcome::Ready(v) => s == PollStatus::Complete(v) && final(reactor).registry()
                    == old(reactor).registry().remove(self.fd),
                IoOutcome::WouldBlock => {
                    if old(reactor).registry().dom().contains(self.fd) {
                        s == PollStatus::Failed(IoError::Conflict) && final(reactor).registry()
                            == old(reactor).registry()
                    } else {
                        s == PollStatus::Pending && final(reactor).registry() == old(
                            reactor,
                        ).registry().insert(
                            self.fd,
                            (Registration {
                                handle: handle_for(current.0),
                                interest: Interest::Writable,
                            }),
                        )
                    }
                },
                IoOutcome::Fail(e) => s == PollStatus::Failed(IoError::Os(e)) && final(reactor).registry() == old(reactor).registry().remove(self.fd),
            }),
    {
        poll_io(reactor, current, self.fd, Interest::Writable, outcome)
    }
}

/// What one poll of a timer decided.
#[derive(Clone, Copy, PartialEq, Eq, Debug, Structural)]
pub enum TimerPoll {
    /// The countdown was not yet armed: the embedder must now arm the
    /// kernel countdown for `seconds` and yield; the waiter is registered.
    Suspend,
    /// The timer had been armed and this poll ran because its wake-up
    /// arrived: the countdown elapsed and the registration is gone.
    Elapsed,
}

/// A kernel-backed countdown. The first poll registers read interest for
/// the timer descriptor and asks the embedder to arm the countdown; the
/// poll after the wake-up deregisters and resolves. The descriptor cannot
/// fire before it is armed, and the embedder arms it before adding it to
/// the multiplexer's watch set, so no wake-up is lost.
pub struct TimerFuture {
    /// The timer descriptor.
    pub fd: u64,
    /// The countdown length, in whole seconds.
    pub seconds: u64,
    /// Whether the countdown has been armed by an earlier poll.
    pub armed: bool,
}

impl TimerFuture {
    /// A countdown of `seconds` on timer descriptor `fd`, not yet armed.
    pub fn new(fd: u64, seconds: u64) -> (f: TimerFuture)
        ensures
            f.fd == fd,
            f.seconds == seconds,
            !f.armed,
    {
        TimerFuture { fd, seconds, armed: false }
    }

    /// One poll attempt of the timer's two-step state machine.
    pub fn poll(&mut self, reactor: &mut Reactor, current: Task) -> (r: Result<
        TimerPoll,
        DescriptorBusy,
    >)
        requires
            old(reactor).wf(),
        ensures
            final(reactor).wf(),
            final(self).fd == old(self).fd,
            final(self).seconds == old(self).seconds,
            (if old(self).armed {
                r == Result::<TimerPoll, DescriptorBusy>::Ok(TimerPoll::Elapsed) && final(self).armed && final(reactor).registry() == old(reactor).registry().remove(
                    old(self).fd,
                )
            } else {
                if old(reactor).registry().dom().contains(old(self).fd) {
                    r == Result::<TimerPoll, DescriptorBusy>::Err(DescriptorBusy) && !final(self).armed && final(reactor).registry() == old(reactor).registry()
                } else {
                    r == Result::<TimerPoll, DescriptorBusy>::Ok(TimerPoll::Suspend) && final(self).armed && final(reactor).registry() == old(reactor).registry().insert(
                        old(self).fd,
                        (Registration {
                            handle: handle_for(current.0),
                            interest: Interest::Readable,
                        }),
                    )
                }
            }),
    {
        if !self.armed {
            let handle = current.as_raw_waker();
            match reactor.register(self.fd, handle, Interest::Readable) {
                Result::Ok(()) => {
                    self.armed = true;
                    Result::Ok(TimerPoll::Suspend)
                },
                Result::Err(e) => Result::Err(e),
            }
        } else {
            reactor.deregister(self.fd);
            Result::Ok(TimerPoll::Elapsed)
        }
    }
}

} // verus!
