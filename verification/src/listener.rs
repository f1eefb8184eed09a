//! The socket on which the multiplexer is reached by its clients.
//!
//! `LocalListener` decides what follows each attempt to accept a connection:
//! how long to pause, whether the socket is to be rebuilt, and when to give up.
//! `safely_create_sock_path` walks through the careful creation of the socket.
use crate::host::Platform;
use vstd::prelude::*;

verus! {

/// The loop ends when this many attempts to accept have failed in a row.
pub const MAX_CONSECUTIVE_ERRORS: u32 = 10;

/// The socket is rebuilt at most this many times in all.
pub const MAX_TOTAL_RECOVERIES: u32 = 20;

/// Errors further apart than this are not counted together, in milliseconds.
pub const ERROR_WINDOW_MS: u64 = 60000;

/// Interrupted; would block; aborted; reset; too many open files.
pub open spec fn is_retry_code(code: i32) -> bool {
    code == 10004 || code == 10035 || code == 10053 || code == 10054 || code == 10024
}

/// Not a socket; invalid argument; network down; not initialised.
pub open spec fn is_rebuild_code(code: i32) -> bool {
    code == 10038 || code == 10022 || code == 10050 || code == 10093
}

/// Tells by its code what to do about a failure to accept on Windows: whether
/// to try again, and whether the socket has to be rebuilt first. An unknown
/// failure is neither retried nor repaired.
pub fn classify_windows_accept_error(code: Option<i32>) -> (class: (bool, bool))
    ensures
        class == (match code {
            None => (false, false),
            Some(c) => (is_retry_code(c) || is_rebuild_code(c), is_rebuild_code(c)),
        }),
{
    match code {
        None => (false, false),
        Some(c) => {
            if c == 10004 || c == 10035 {
                (true, false)
            } else if c == 10053 || c == 10054 {
                (true, false)
            } else if c == 10024 {
                (true, false)
            } else if c == 10038 || c == 10022 || c == 10050 || c == 10093 {
                (true, true)
            } else {
                (false, false)
            }
        },
    }
}

/// What follows a failure to accept.
#[derive(Clone, Copy, Debug, PartialEq, Eq, Structural)]
pub enum AfterError {
    /// Accept again.
    Accept,
    /// Rebuild the socket and report how that went.
    Rebuild,
    /// Give up.
    Exit,
}

/// A pause, in milliseconds, and what follows it.
#[derive(Clone, Copy, Debug, PartialEq, Eq, Structural)]
pub struct ErrorPlan {
    pub pause_ms: u64,
    pub next: AfterError,
}

pub open spec fn power_of_two(n: nat) -> nat
    decreases n,
{
    if n == 0 {
        1
    } else {
        2 * power_of_two((n - 1) as nat)
    }
}

/// The pause before the attempt that follows the `errors`th error in a row: it
/// doubles with each error up to the sixth.
pub open spec fn backoff_ms(errors: u32) -> nat {
    100 * power_of_two(
        if errors < 6 {
            errors as nat
        } else {
            6
        },
    )
}

fn backoff(errors: u32) -> (pause_ms: u64)
    ensures
        pause_ms == backoff_ms(errors),
        pause_ms <= 6400,
{
    let steps: u32 = if errors < 6 {
        errors
    } else {
        6
    };
    let mut pause: u64 = 100;
    let mut done: u32 = 0;
    assert(power_of_two(6) == 64) by {
        reveal_with_fuel(power_of_two, 7);
    }
    while done < steps
        invariant
            done <= steps <= 6,
            pause == 100 * power_of_two(done as nat),
            pause <= 6400,
            power_of_two(6) == 64,
        decreases steps - done,
    {
        proof {
            reveal_with_fuel(power_of_two, 7);
        }
        pause = pause * 2;
        done = done + 1;
    }
    pause
}

/// The state of the accept loop.
#[derive(Clone, Copy, Debug, PartialEq, Eq, Structural)]
pub struct LocalListener {
    pub platform: Platform,
    /// Failures to accept since the last success.
    pub consecutive_errors: u32,
    /// When the last failure happened, in milliseconds.
    pub last_error_ms: Option<u64>,
    /// Successful rebuilds of the socket so far.
    pub total_recoveries: u32,
}

impl LocalListener {
    pub open spec fn wf(self) -> bool {
        &&& self.consecutive_errors <= MAX_CONSECUTIVE_ERRORS
        &&& self.total_recoveries <= MAX_TOTAL_RECOVERIES
    }

    /// The listener with its memory of failures wiped.
    pub open spec fn cleared(self) -> LocalListener {
        LocalListener { consecutive_errors: 0, last_error_ms: None, ..self }
    }

    /// Whether the last failure lies so far back that it no longer counts.
    pub open spec fn has_recovered_by(self, now: u64) -> bool {
        match self.last_error_ms {
            Some(at) => now > at && now - at > ERROR_WINDOW_MS,
            None => false,
        }
    }

    /// What follows one more failure with the given code.
    pub open spec fn plan_for(self, code: Option<i32>) -> ErrorPlan {
        let errors = (self.consecutive_errors + 1) as u32;
        let last_straw = errors >= MAX_CONSECUTIVE_ERRORS;
        let give_up_or_go_on = if last_straw {
            AfterError::Exit
        } else {
            AfterError::Accept
        };
        if self.platform == Platform::Other {
            ErrorPlan {
                pause_ms: if last_straw {
                    0
                } else {
                    100
                },
                next: give_up_or_go_on,
            }
        } else {
            let rebuild = code is Some && is_rebuild_code(code->0);
            let retry = rebuild || (code is Some && is_retry_code(code->0));
            if !retry {
                ErrorPlan { pause_ms: 500, next: give_up_or_go_on }
            } else if last_straw {
                ErrorPlan { pause_ms: 0, next: AfterError::Exit }
            } else {
                ErrorPlan {
                    pause_ms: backoff_ms(errors) as u64,
                    next: if !rebuild {
                        AfterError::Accept
                    } else if self.total_recoveries >= MAX_TOTAL_RECOVERIES {
                        AfterError::Exit
                    } else {
                        AfterError::Rebuild
                    },
                }
            }
        }
    }

    /// Whether an error may be reported: not after the one that ended the loop.
    pub open spec fn is_running(self) -> bool {
        self.consecutive_errors < MAX_CONSECUTIVE_ERRORS
    }

    pub fn new(platform: Platform) -> (listener: Self)
        ensures
            listener == (LocalListener {
                platform,
                consecutive_errors: 0,
                last_error_ms: None,
                total_recoveries: 0,
            }),
            listener.wf(),
            listener.is_running(),
    {
        LocalListener { platform, consecutive_errors: 0, last_error_ms: None, total_recoveries: 0 }
    }

    /// A listener on a socket that has just been created, given whether that went
    /// well.
    pub fn with_domain(platform: Platform, socket: Result<(), SocketError>) -> (listener: Result<
        Self,
        SocketError,
    >)
        ensures
            match socket {
                Ok(_) => listener == Ok::<LocalListener, SocketError>(
                    LocalListener {
                        platform,
                        consecutive_errors: 0,
                        last_error_ms: None,
                        total_recoveries: 0,
                    },
                ),
                Err(e) => listener == Err::<LocalListener, SocketError>(e),
            },
    {
        match socket {
            Ok(_) => Ok(LocalListener::new(platform)),
            Err(e) => Err(e),
        }
    }

    /// To be called before each attempt to accept: forgets failures that lie
    /// more than a minute back.
    pub fn before_accept(&mut self, now: u64)
        requires
            old(self).wf(),
        ensures
            *final(self) == (if old(self).has_recovered_by(now) {
                old(self).cleared()
            } else {
                *old(self)
            }),
            final(self).wf(),
            old(self).is_running() ==> final(self).is_running(),
    {
        if let Some(at) = self.last_error_ms {
            if now > at && now - at > ERROR_WINDOW_MS {
                self.consecutive_errors = 0;
                self.last_error_ms = None;
            }
        }
    }

    /// A connection was accepted.
    pub fn accepted(&mut self)
        requires
            old(self).wf(),
        ensures
            *final(self) == old(self).cleared(),
            final(self).wf(),
            final(self).is_running(),
    {
        self.consecutive_errors = 0;
        self.last_error_ms = None;
    }

    /// An attempt to accept failed.
    pub fn accept_failed(&mut self, code: Option<i32>, now: u64) -> (plan: ErrorPlan)
        requires
            old(self).wf(),
            old(self).is_running(),
        ensures
            plan == old(self).plan_for(code),
            *final(self) == (LocalListener {
                consecutive_errors: (old(self).consecutive_errors + 1) as u32,
                last_error_ms: Some(now),
                ..*old(self)
            }),
            final(self).wf(),
            plan.next != AfterError::Exit ==> final(self).is_running(),
    {
        self.consecutive_errors = self.consecutive_errors + 1;
        self.last_error_ms = Some(now);
        let last_straw = self.consecutive_errors >= MAX_CONSECUTIVE_ERRORS;
        let end = if last_straw {
            AfterError::Exit
        } else {
            AfterError::Accept
        };
        if self.platform == Platform::Other {
            let pause_ms: u64 = if last_straw {
                0
            } else {
                100
            };
            return ErrorPlan { pause_ms, next: end };
        }
        let (retry, rebuild) = classify_windows_accept_error(code);
        if retry && !last_straw {
            let pause_ms = backoff(self.consecutive_errors);
            if !rebuild {
                return ErrorPlan { pause_ms, next: AfterError::Accept };
            }
            if self.total_recoveries >= MAX_TOTAL_RECOVERIES {
                return ErrorPlan { pause_ms, next: AfterError::Exit };
            }
            return ErrorPlan { pause_ms, next: AfterError::Rebuild };
        }
        let pause_ms: u64 = if !retry {
            500
        } else {
            0
        };
        ErrorPlan { pause_ms, next: end }
    }

    /// The socket was to be rebuilt; `rebuilt` tells whether it could be. Either
    /// way the next thing to do is to accept again.
    pub fn try_recover(&mut self, rebuilt: bool)
        requires
            old(self).wf(),
            old(self).is_running(),
            old(self).total_recoveries < MAX_TOTAL_RECOVERIES,
        ensures
            *final(self) == (if rebuilt {
                LocalListener {
                    total_recoveries: (old(self).total_recoveries + 1) as u32,
                    ..old(self).cleared()
                }
            } else {
                *old(self)
            }),
            final(self).wf(),
            final(self).is_running(),
    {
        if rebuilt {
            self.total_recoveries = self.total_recoveries + 1;
            self.consecutive_errors = 0;
            self.last_error_ms = None;
        }
    }
}

/// Something that happens to the accept loop.
#[derive(Clone, Copy, Debug, PartialEq, Eq, Structural)]
pub enum ListenerEvent {
    /// An attempt to accept is about to be made.
    Tick { now: u64 },
    Accepted,
    Failed { code: Option<i32>, now: u64 },
    /// The rebuild that was asked for came to an end.
    Rebuilt { ok: bool },
}

impl LocalListener {
    pub open spec fn after(self, event: ListenerEvent) -> LocalListener {
        match event {
            ListenerEvent::Tick { now } => if self.has_recovered_by(now) {
                self.cleared()
            } else {
                self
            },
            ListenerEvent::Accepted => self.cleared(),
            ListenerEvent::Failed { code, now } => LocalListener {
                consecutive_errors: (self.consecutive_errors + 1) as u32,
                last_error_ms: Some(now),
                ..self
            },
            ListenerEvent::Rebuilt { ok } => if ok {
                LocalListener {
                    total_recoveries: (self.total_recoveries + 1) as u32,
                    ..self.cleared()
                }
            } else {
                self
            },
        }
    }

    pub open spec fn after_all(self, events: Seq<ListenerEvent>) -> LocalListener
        decreases events.len(),
    {
        if events.len() == 0 {
            self
        } else {
            self.after_all(events.drop_last()).after(events.last())
        }
    }

    /// The run of events is one that the loop can see: a rebuild is reported
    /// only where the plan for the failure just before asked for one, and
    /// nothing follows a plan to give up.
    pub open spec fn can_see(self, events: Seq<ListenerEvent>) -> bool
        decreases events.len(),
    {
        events.len() > 0 ==> {
            let before = events.drop_last();
            &&& self.can_see(before)
            &&& self.next_after(before) != AfterError::Exit
            &&& (events.last() is Rebuilt <==> self.next_after(before) == AfterError::Rebuild)
        }
    }

    /// What the loop does next after a run of events.
    pub open spec fn next_after(self, events: Seq<ListenerEvent>) -> AfterError {
        if events.len() > 0 {
            match events.last() {
                ListenerEvent::Failed { code, now } => self.after_all(events.drop_last()).plan_for(
                    code,
                ).next,
                _ => AfterError::Accept,
            }
        } else {
            AfterError::Accept
        }
    }

    /// How often the socket is rebuilt in a run of events.
    pub open spec fn rebuilds(self, events: Seq<ListenerEvent>) -> nat
        decreases events.len(),
    {
        if events.len() == 0 {
            0
        } else {
            self.rebuilds(events.drop_last()) + if events.last() == (ListenerEvent::Rebuilt {
                ok: true,
            }) {
                1nat
            } else {
                0nat
            }
        }
    }
}

impl LocalListener {
    /// One turn of the accept loop: takes in what happened and tells how long to
    /// pause and what to do then.
    pub fn run(&mut self, event: ListenerEvent) -> (plan: ErrorPlan)
        requires
            old(self).wf(),
            old(self).is_running(),
            event is Rebuilt ==> old(self).total_recoveries < MAX_TOTAL_RECOVERIES,
        ensures
            *final(self) == old(self).after(event),
            plan == (match event {
                ListenerEvent::Failed { code, now } => old(self).plan_for(code),
                _ => ErrorPlan { pause_ms: 0, next: AfterError::Accept },
            }),
            final(self).wf(),
            plan.next != AfterError::Exit ==> final(self).is_running(),
    {
        match event {
            ListenerEvent::Tick { now } => {
                self.before_accept(now);
            },
            ListenerEvent::Accepted => {
                self.accepted();
            },
            ListenerEvent::Failed { code, now } => {
                return self.accept_failed(code, now);
            },
            ListenerEvent::Rebuilt { ok } => {
                self.try_recover(ok);
            },
        }
        ErrorPlan { pause_ms: 0, next: AfterError::Accept }
    }
}

proof fn lemma_run_keeps_wf(start: LocalListener, events: Seq<ListenerEvent>)
    requires
        start.wf(),
        start.is_running(),
        start.can_see(events),
    ensures
        start.after_all(events).wf(),
        start.after_all(events).platform == start.platform,
        start.next_after(events) != AfterError::Exit ==> start.after_all(events).is_running(),
        start.next_after(events) == AfterError::Rebuild ==> start.after_all(
            events,
        ).total_recoveries < MAX_TOTAL_RECOVERIES,
        start.after_all(events).total_recoveries == start.total_recoveries + start.rebuilds(events),
    decreases events.len(),
{
    if events.len() > 0 {
        lemma_run_keeps_wf(start, events.drop_last());
    }
}

/// A persistent problem cannot keep the loop busy for ever: over its whole life
/// the socket is rebuilt at most twenty times.
pub proof fn law_rebuilds_are_limited(start: LocalListener, events: Seq<ListenerEvent>)
    requires
        start.wf(),
        start.is_running(),
        start.total_recoveries == 0,
        start.can_see(events),
    ensures
        start.rebuilds(events) <= MAX_TOTAL_RECOVERIES,
{
    lemma_run_keeps_wf(start, events);
}

/// The loop never spins: after a failure it either ends or pauses for at least a
/// tenth of a second, and never for longer than six and a half seconds.
pub proof fn law_failures_do_not_spin(listener: LocalListener, code: Option<i32>)
    requires
        listener.wf(),
        listener.is_running(),
    ensures
        listener.plan_for(code).next != AfterError::Exit ==> listener.plan_for(code).pause_ms
            >= 100,
        listener.plan_for(code).pause_ms <= 6400,
{
    reveal_with_fuel(power_of_two, 7);
    assert(power_of_two(6) == 64);
    let errors = (listener.consecutive_errors + 1) as u32;
    let n: nat = if errors < 6 {
        errors as nat
    } else {
        6
    };
    assert(n == 1 || n == 2 || n == 3 || n == 4 || n == 5 || n == 6);
}

/// A failure that the loop does not know how to handle is followed by a pause
/// of half a second.
pub proof fn law_unknown_failures_pause(listener: LocalListener, code: Option<i32>)
    requires
        listener.wf(),
        listener.is_running(),
        listener.platform == Platform::Windows,
        code is None || !(is_retry_code(code->0) || is_rebuild_code(code->0)),
    ensures
        listener.plan_for(code).pause_ms == 500,
        listener.plan_for(code).next != AfterError::Rebuild,
{
}

/// The tenth failure in a row ends the loop, whatever its code.
pub proof fn law_ten_failures_end_the_loop(listener: LocalListener, code: Option<i32>)
    requires
        listener.wf(),
        listener.consecutive_errors == MAX_CONSECUTIVE_ERRORS - 1,
    ensures
        listener.plan_for(code).next == AfterError::Exit,
{
}

/// The steps in which the socket is created.
#[derive(Clone, Copy, Debug, PartialEq, Eq, Structural)]
pub enum SocketStep {
    /// Find the directory that the socket goes into.
    FindDirectory,
    /// Create that directory, owned by the user.
    CreateDirectory,
    /// Look at who may write to the directory.
    CheckPermissions,
    /// Remove what is left of an earlier socket.
    RemoveOld,
    /// Bind the socket.
    Bind,
    /// Keep the socket from being cleaned up.
    SetSticky,
    /// The socket is ready.
    Done,
}

/// How a step came out.
#[derive(Clone, Copy, Debug, PartialEq, Eq, Structural)]
pub enum StepOutcome {
    Succeeded,
    /// There was nothing there.
    NotFound,
    Failed,
    /// The permission bits of the directory.
    Mode(u32),
}

/// Why the socket could not be created.
#[derive(Clone, Copy, Debug, PartialEq, Eq, Structural)]
pub enum SocketError {
    /// The path has no directory part.
    NoParentDirectory,
    CannotCreateDirectory,
    CannotReadPermissions,
    /// Others may write to the directory.
    InsecurePermissions,
    CannotRemoveOld,
    CannotBind,
}

/// Whether the permission bits let the group or others write.
pub open spec fn others_may_write(mode: u32) -> bool {
    (mode & 0o22) != 0
}

/// Whether the permissions of the directory are to be looked at: not on
/// Windows, not under a Linux that runs inside Windows, and not where the user
/// waived it.
pub open spec fn must_check_permissions(platform: Platform, under_wsl: bool, waived: bool) -> bool {
    platform == Platform::Other && !under_wsl && !waived
}

/// The step that follows `step` once it came out as `outcome`.
pub open spec fn step_after(
    step: SocketStep,
    outcome: StepOutcome,
    check_permissions: bool,
) -> Result<SocketStep, SocketError> {
    match step {
        SocketStep::FindDirectory => if outcome == StepOutcome::Succeeded {
            Ok(SocketStep::CreateDirectory)
        } else {
            Err(SocketError::NoParentDirectory)
        },
        SocketStep::CreateDirectory => if outcome != StepOutcome::Succeeded {
            Err(SocketError::CannotCreateDirectory)
        } else if check_permissions {
            Ok(SocketStep::CheckPermissions)
        } else {
            Ok(SocketStep::RemoveOld)
        },
        SocketStep::CheckPermissions => match outcome {
            StepOutcome::Mode(mode) => if others_may_write(mode) {
                Err(SocketError::InsecurePermissions)
            } else {
                Ok(SocketStep::RemoveOld)
            },
            _ => Err(SocketError::CannotReadPermissions),
        },
        SocketStep::RemoveOld => if outcome == StepOutcome::Succeeded || outcome
            == StepOutcome::NotFound {
            Ok(SocketStep::Bind)
        } else {
            Err(SocketError::CannotRemoveOld)
        },
        SocketStep::Bind => if outcome == StepOutcome::Succeeded {
            Ok(SocketStep::SetSticky)
        } else {
            Err(SocketError::CannotBind)
        },
        SocketStep::SetSticky | SocketStep::Done => Ok(SocketStep::Done),
    }
}

/// Decides, while the socket is being created, what follows a step: the
/// directory has to belong to the user and be closed to everybody else, an old
/// socket is removed if there is one, and only then is the new one bound.
pub fn safely_create_sock_path(
    step: SocketStep,
    outcome: StepOutcome,
    platform: Platform,
    under_wsl: bool,
    skip_permissions_check: bool,
) -> (next: Result<SocketStep, SocketError>)
    ensures
        next == step_after(
            step,
            outcome,
            must_check_permissions(platform, under_wsl, skip_permissions_check),
        ),
{
    match step {
        SocketStep::FindDirectory => {
            if outcome == StepOutcome::Succeeded {
                Ok(SocketStep::CreateDirectory)
            } else {
                Err(SocketError::NoParentDirectory)
            }
        },
        SocketStep::CreateDirectory => {
            if outcome != StepOutcome::Succeeded {
                Err(SocketError::CannotCreateDirectory)
            } else if platform == Platform::Other && !under_wsl && !skip_permissions_check {
                Ok(SocketStep::CheckPermissions)
            } else {
                Ok(SocketStep::RemoveOld)
            }
        },
        SocketStep::CheckPermissions => {
            match outcome {
                StepOutcome::Mode(mode) => {
                    if (mode & 0o22) != 0 {
                        Err(SocketError::InsecurePermissions)
                    } else {
                        Ok(SocketStep::RemoveOld)
                    }
                },
                _ => Err(SocketError::CannotReadPermissions),
            }
        },
        SocketStep::RemoveOld => {
            if outcome == StepOutcome::Succeeded || outcome == StepOutcome::NotFound {
                Ok(SocketStep::Bind)
            } else {
                Err(SocketError::CannotRemoveOld)
            }
        },
        SocketStep::Bind => {
            if outcome == StepOutcome::Succeeded {
                Ok(SocketStep::SetSticky)
            } else {
                Err(SocketError::CannotBind)
            }
        },
        SocketStep::SetSticky | SocketStep::Done => Ok(SocketStep::Done),
    }
}

/// The steps that a run of outcomes leads through, from the first step on.
pub open spec fn socket_run(outcomes: Seq<StepOutcome>, check_permissions: bool) -> Result<
    SocketStep,
    SocketError,
>
    decreases outcomes.len(),
{
    if outcomes.len() == 0 {
        Ok(SocketStep::FindDirectory)
    } else {
        match socket_run(outcomes.drop_last(), check_permissions) {
            Ok(step) => step_after(step, outcomes.last(), check_permissions),
            Err(e) => Err(e),
        }
    }
}

proof fn lemma_checked_before_use(outcomes: Seq<StepOutcome>)
    requires
        socket_run(outcomes, true) is Ok,
        match socket_run(outcomes, true)->Ok_0 {
            SocketStep::RemoveOld
            | SocketStep::Bind
            | SocketStep::SetSticky
            | SocketStep::Done => true,
            _ => false,
        },
    ensures
        outcomes.len() > 2,
        outcomes[2] is Mode,
        !others_may_write(outcomes[2]->Mode_0),
    decreases outcomes.len(),
{
    let before = outcomes.drop_last();
    let step = socket_run(before, true)->Ok_0;
    if step == SocketStep::CheckPermissions {
        lemma_steps_before_the_check(before);
    } else {
        lemma_checked_before_use(before);
    }
}

proof fn lemma_steps_before_the_check(outcomes: Seq<StepOutcome>)
    requires
        socket_run(outcomes, true) == Ok::<SocketStep, SocketError>(SocketStep::CheckPermissions),
    ensures
        outcomes.len() == 2,
{
    reveal_with_fuel(socket_run, 4);
    let one = outcomes.drop_last();
    assert(socket_run(one, true) == Ok::<SocketStep, SocketError>(SocketStep::CreateDirectory));
    assert(one.len() > 0);
    let none = one.drop_last();
    assert(socket_run(none, true) == Ok::<SocketStep, SocketError>(SocketStep::FindDirectory));
    if none.len() > 0 {
        let earlier = socket_run(none.drop_last(), true);
        assert(false);
    }
}

/// Where permissions are to be checked, the socket is never bound, nor an old
/// one removed, in a directory that others can write to.
pub proof fn law_no_socket_in_an_open_directory(outcomes: Seq<StepOutcome>)
    requires
        socket_run(outcomes, true) is Ok,
        match socket_run(outcomes, true)->Ok_0 {
            SocketStep::RemoveOld
            | SocketStep::Bind
            | SocketStep::SetSticky
            | SocketStep::Done => true,
            _ => false,
        },
    ensures
        exists|i: int|
            0 <= i < outcomes.len() && (#[trigger] outcomes[i]) is Mode && !others_may_write(
                outcomes[i]->Mode_0,
            ),
{
    lemma_checked_before_use(outcomes);
}

} // verus!
