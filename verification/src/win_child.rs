//! The life of a child process on Windows.
//!
//! The system calls are made by the caller; the functions here read their
//! results. A process that has not ended reports the exit code `STILL_ACTIVE`.
use vstd::prelude::*;

verus! {

/// The exit code of a process that is still running.
pub const STILL_ACTIVE: u32 = 259;

/// What a wait answers when it could not be carried out.
pub const WAIT_FAILED: u32 = 0xffff_ffff;

/// What a wait answers when its time ran out.
pub const WAIT_TIMEOUT: u32 = 258;

/// How long a waiter thread waits at a time, in milliseconds.
pub const POLL_WAIT_MS: u32 = 30000;

/// How a process ended.
#[derive(Clone, Copy, Debug, PartialEq, Eq, Structural)]
pub struct ExitStatus {
    pub code: u32,
}

/// A system call failed; the system knows why.
#[derive(Clone, Copy, Debug, PartialEq, Eq, Structural)]
pub struct OsError;

/// The answer to a request for the exit code of a process: whether the request
/// succeeded (zero means that it did not), and the code.
#[derive(Clone, Copy, Debug, PartialEq, Eq, Structural)]
pub struct ExitCodeQuery {
    pub result: i32,
    pub code: u32,
}

/// What a poll of a child process comes to.
#[derive(Clone, Copy, Debug, PartialEq, Eq, Structural)]
pub enum ChildPoll {
    /// The process has ended.
    Ready(ExitStatus),
    /// The handle of the process could not be duplicated for a waiter thread.
    CannotWait,
    /// The process is still running. With `spawn_waiter`, a thread has to be
    /// started that waits for its end.
    Pending { spawn_waiter: bool },
}

impl ExitCodeQuery {
    /// The exit status that can be read off the answer. A failed request tells
    /// nothing: the process may well be running.
    pub open spec fn status(self) -> Option<ExitStatus> {
        if self.result != 0 && self.code != STILL_ACTIVE {
            Some(ExitStatus { code: self.code })
        } else {
            None
        }
    }
}

/// A child process.
#[derive(Clone, Copy, Debug, PartialEq, Eq, Structural)]
pub struct WinChild {
    /// Whether a thread has been started that waits for the process to end.
    pub waiter_spawned: bool,
}

/// Turns the answer of a system call that reports success as non-zero into a
/// result.
pub fn succeeded(result: i32) -> (outcome: Result<(), OsError>)
    ensures
        outcome == (if result == 0 {
            Err::<(), OsError>(OsError)
        } else {
            Ok::<(), OsError>(())
        }),
{
    if result == 0 {
        Err(OsError)
    } else {
        Ok(())
    }
}

impl WinChild {
    pub fn new() -> (child: Self)
        ensures
            !child.waiter_spawned,
    {
        WinChild { waiter_spawned: false }
    }

    /// How the process ended, if it has.
    pub fn is_complete(&self, query: ExitCodeQuery) -> (status: Option<ExitStatus>)
        ensures
            status == query.status(),
    {
        if query.result != 0 {
            if query.code == STILL_ACTIVE {
                None
            } else {
                Some(ExitStatus { code: query.code })
            }
        } else {
            None
        }
    }

    /// Whether the process could be told to end.
    pub fn do_kill(&self, result: i32) -> (outcome: Result<(), OsError>)
        ensures
            outcome is Ok <==> result != 0,
    {
        succeeded(result)
    }

    /// Telling the process to end never counts as a failure.
    pub fn kill(&self, result: i32) -> (outcome: Result<(), OsError>)
        ensures
            outcome is Ok,
    {
        let _ = self.do_kill(result);
        Ok(())
    }

    /// How the process ended, without waiting for it.
    pub fn try_wait(&self, query: ExitCodeQuery) -> (status: Option<ExitStatus>)
        ensures
            status == query.status(),
    {
        self.is_complete(query)
    }

    /// How the process ended, given the exit code before the wait, the answer of
    /// the wait, and the exit code after it. The wait is needed only where the
    /// first code does not settle the matter.
    pub fn wait(&self, before: ExitCodeQuery, waited: u32, after: ExitCodeQuery) -> (status: Result<
        ExitStatus,
        OsError,
    >)
        ensures
            status == (match before.status() {
                Some(s) => Ok::<ExitStatus, OsError>(s),
                None => if waited == 0xffff_ffff || after.result == 0 {
                    Err::<ExitStatus, OsError>(OsError)
                } else {
                    Ok::<ExitStatus, OsError>(ExitStatus { code: after.code })
                },
            }),
    {
        if let Some(status) = self.try_wait(before) {
            return Ok(status);
        }
        if waited == WAIT_FAILED {
            return Err(OsError);
        }
        if after.result != 0 {
            Ok(ExitStatus { code: after.code })
        } else {
            Err(OsError)
        }
    }

    /// The id of the process; zero stands for none.
    pub fn process_id(&self, result: u32) -> (id: Option<u32>)
        ensures
            id == (if result == 0 {
                None
            } else {
                Some(result)
            }),
    {
        if result == 0 {
            None
        } else {
            Some(result)
        }
    }

    /// What a poll comes to. A waiter thread is started the first time the
    /// process is found running, and never again; `handle_cloned` tells whether
    /// the handle that such a thread needs could be had.
    pub fn poll(&mut self, query: ExitCodeQuery, handle_cloned: bool) -> (poll: ChildPoll)
        ensures
            (*final(self), poll) == old(self).polled(PollInput { query, handle_cloned }),
    {
        match self.is_complete(query) {
            Some(status) => ChildPoll::Ready(status),
            None => {
                if self.waiter_spawned {
                    return ChildPoll::Pending { spawn_waiter: false };
                }
                self.waiter_spawned = true;
                if handle_cloned {
                    ChildPoll::Pending { spawn_waiter: true }
                } else {
                    ChildPoll::CannotWait
                }
            },
        }
    }
}

/// Whether a waiter thread wakes the poller and ends, or waits on: it waits on
/// only where its time ran out.
pub fn waiter_is_done(waited: u32) -> (done: bool)
    ensures
        done == (waited != 258),
{
    if waited == WAIT_FAILED {
        return true;
    }
    waited != WAIT_TIMEOUT
}

/// A handle with which a child process can be ended.
#[derive(Clone, Copy, Debug, PartialEq, Eq, Structural)]
pub struct WinChildKiller;

impl WinChildKiller {
    /// Whether the process could be told to end.
    pub fn kill(&self, result: i32) -> (outcome: Result<(), OsError>)
        ensures
            outcome is Ok <==> result != 0,
    {
        succeeded(result)
    }
}

/// One poll of a child process: what the system answered.
#[derive(Clone, Copy, Debug, PartialEq, Eq, Structural)]
pub struct PollInput {
    pub query: ExitCodeQuery,
    pub handle_cloned: bool,
}

impl WinChild {
    /// The child after a poll, and what the poll comes to.
    pub open spec fn polled(self, input: PollInput) -> (WinChild, ChildPoll) {
        match input.query.status() {
            Some(s) => (self, ChildPoll::Ready(s)),
            None => (
                WinChild { waiter_spawned: true },
                if self.waiter_spawned {
                    ChildPoll::Pending { spawn_waiter: false }
                } else if input.handle_cloned {
                    ChildPoll::Pending { spawn_waiter: true }
                } else {
                    ChildPoll::CannotWait
                },
            ),
        }
    }

    /// The child after a run of polls.
    pub open spec fn after_polls(self, polls: Seq<PollInput>) -> WinChild
        decreases polls.len(),
    {
        if polls.len() == 0 {
            self
        } else {
            self.after_polls(polls.drop_last()).polled(polls.last()).0
        }
    }

    /// How many waiter threads a run of polls starts.
    pub open spec fn waiters(self, polls: Seq<PollInput>) -> nat
        decreases polls.len(),
    {
        if polls.len() == 0 {
            0
        } else {
            let before = self.after_polls(polls.drop_last());
            let started = before.polled(polls.last()).1 == (ChildPoll::Pending {
                spawn_waiter: true,
            });
            self.waiters(polls.drop_last()) + if started {
                1nat
            } else {
                0nat
            }
        }
    }
}

/// A process has ended exactly if its exit code could be had and is not the one that
/// stands for a process that is still running, and it ended with that code.
pub proof fn law_when_a_process_has_ended(query: ExitCodeQuery)
    ensures
        query.status() is Some <==> query.result != 0 && query.code != 259,
        query.status() matches Some(status) ==> status.code == query.code,
{
}

/// A poll of a process that has ended tells how, and changes nothing. The first time that
/// it is found running a thread is to be started that waits for it, if there is a handle
/// for it, and no further attempt is made at that; after that it is simply running.
pub proof fn law_what_a_poll_comes_to(child: WinChild, input: PollInput)
    ensures
        input.query.result != 0 && input.query.code != 259 ==> child.polled(input) == (
            child,
            ChildPoll::Ready(ExitStatus { code: input.query.code }),
        ),
        input.query.result == 0 || input.query.code == 259 ==> {
            let (after, poll) = child.polled(input);
            &&& after.waiter_spawned
            &&& child.waiter_spawned ==> poll == (ChildPoll::Pending { spawn_waiter: false })
            &&& !child.waiter_spawned && input.handle_cloned ==> poll == (ChildPoll::Pending {
                spawn_waiter: true,
            })
            &&& !child.waiter_spawned && !input.handle_cloned ==> poll == ChildPoll::CannotWait
        },
{
}

/// However often a child process is polled, at most one thread waits for it.
pub proof fn law_at_most_one_waiter(child: WinChild, polls: Seq<PollInput>)
    ensures
        child.waiters(polls) <= 1,
        child.waiters(polls) == 1 ==> child.after_polls(polls).waiter_spawned,
        child.waiter_spawned ==> child.waiters(polls) == 0,
        child.waiter_spawned ==> child.after_polls(polls).waiter_spawned,
    decreases polls.len(),
{
    if polls.len() > 0 {
        law_at_most_one_waiter(child, polls.drop_last());
    }
}

} // verus!
