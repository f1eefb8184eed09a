//! What the accept loop and the creation of its socket promise, in plain numbers.
use crate::host::Platform;
use crate::listener::{
    backoff_ms, must_check_permissions, others_may_write, power_of_two, step_after, AfterError,
    ErrorPlan, ListenerEvent, LocalListener, SocketError, SocketStep, StepOutcome,
};
use vstd::prelude::*;

verus! {

/// The failures on Windows after which it is enough to try again: an interrupted call,
/// one that would block, a connection that was aborted or reset by the other side, and
/// too many open files.
pub open spec fn passes_by_itself(code: int) -> bool {
    code == 10004 || code == 10024 || code == 10035 || code == 10053 || code == 10054
}

/// The failures on Windows after which the socket is of no use any more: an argument that
/// is not valid, a handle that is no socket, a network that is down, and one that was not
/// started up.
pub open spec fn needs_a_new_socket(code: int) -> bool {
    code == 10022 || code == 10038 || code == 10050 || code == 10093
}

/// How long the pause is before the attempt that follows so many failures in a row: it
/// doubles from a fifth of a second up to six and two fifths.
pub proof fn law_pauses_double(errors: u32)
    ensures
        errors == 1 ==> backoff_ms(errors) == 200,
        errors == 2 ==> backoff_ms(errors) == 400,
        errors == 3 ==> backoff_ms(errors) == 800,
        errors == 4 ==> backoff_ms(errors) == 1600,
        errors == 5 ==> backoff_ms(errors) == 3200,
        errors >= 6 ==> backoff_ms(errors) == 6400,
{
    reveal_with_fuel(power_of_two, 7);
    assert(power_of_two(1) == 2);
    assert(power_of_two(2) == 4);
    assert(power_of_two(3) == 8);
    assert(power_of_two(4) == 16);
    assert(power_of_two(5) == 32);
    assert(power_of_two(6) == 64);
}

/// What follows a failure on Windows that is not the tenth in a row: a failure that
/// passes by itself is followed by another attempt, and one that needs a new socket by a
/// rebuild, unless twenty have been made, both after a pause that grows; after any other
/// failure half a second goes by before the next attempt.
pub proof fn law_what_follows_a_failure_on_windows(listener: LocalListener, code: Option<i32>)
    requires
        listener.platform == Platform::Windows,
        listener.consecutive_errors < 9,
    ensures
        ({
            let plan = listener.plan_for(code);
            let errors = (listener.consecutive_errors + 1) as u32;
            &&& code is Some && passes_by_itself(code->0 as int) ==> plan == (ErrorPlan {
                pause_ms: backoff_ms(errors) as u64,
                next: AfterError::Accept,
            })
            &&& code is Some && needs_a_new_socket(code->0 as int) && listener.total_recoveries
                < 20 ==> plan == (ErrorPlan {
                pause_ms: backoff_ms(errors) as u64,
                next: AfterError::Rebuild,
            })
            &&& code is Some && needs_a_new_socket(code->0 as int) && listener.total_recoveries
                >= 20 ==> plan == (ErrorPlan {
                pause_ms: backoff_ms(errors) as u64,
                next: AfterError::Exit,
            })
            &&& (code matches Some(c) ==> !passes_by_itself(c as int) && !needs_a_new_socket(
                c as int,
            )) ==> plan == (ErrorPlan { pause_ms: 500, next: AfterError::Accept })
        }),
{
}

/// The tenth failure in a row on Windows ends the loop; only one that is not known is
/// followed by a pause even then.
pub proof fn law_what_follows_the_tenth_failure_on_windows(
    listener: LocalListener,
    code: Option<i32>,
)
    requires
        listener.platform == Platform::Windows,
        listener.consecutive_errors == 9,
    ensures
        listener.plan_for(code).next == AfterError::Exit,
        (code matches Some(c) && (passes_by_itself(c as int) || needs_a_new_socket(c as int)))
            ==> listener.plan_for(code).pause_ms == 0,
        (code matches Some(c) ==> !passes_by_itself(c as int) && !needs_a_new_socket(c as int))
            ==> listener.plan_for(code).pause_ms == 500,
{
}

/// Elsewhere the code of a failure does not matter: a tenth of a second goes by before
/// the next attempt, and the tenth failure in a row ends the loop at once.
pub proof fn law_what_follows_a_failure_elsewhere(listener: LocalListener, code: Option<i32>)
    requires
        listener.platform == Platform::Other,
    ensures
        listener.consecutive_errors < 9 ==> listener.plan_for(code) == (ErrorPlan {
            pause_ms: 100,
            next: AfterError::Accept,
        }),
        listener.consecutive_errors == 9 ==> listener.plan_for(code) == (ErrorPlan {
            pause_ms: 0,
            next: AfterError::Exit,
        }),
{
}

/// Failures are forgotten when a connection is accepted, when the socket has been
/// rebuilt, and when more than a minute has gone by since the last of them; and on no
/// other occasion.
pub proof fn law_when_failures_are_forgotten(listener: LocalListener, now: u64)
    ensures
        ({
            let after = listener.after(ListenerEvent::Tick { now });
            let forgotten = LocalListener {
                consecutive_errors: 0,
                last_error_ms: None,
                ..listener
            };
            &&& (listener.last_error_ms matches Some(at) && now > at + 60000) ==> after == forgotten
            &&& (listener.last_error_ms matches Some(at) ==> now <= at + 60000) ==> after
                == listener
            &&& listener.after(ListenerEvent::Accepted) == forgotten
            &&& listener.after(ListenerEvent::Rebuilt { ok: false }) == listener
            &&& listener.total_recoveries < 20 ==> listener.after(
                ListenerEvent::Rebuilt { ok: true },
            ) == (LocalListener {
                total_recoveries: (listener.total_recoveries + 1) as u32,
                ..forgotten
            })
        }),
{
}

/// A failure counts once, and its time is remembered.
pub proof fn law_failures_are_counted(listener: LocalListener, code: Option<i32>, now: u64)
    requires
        listener.consecutive_errors < 10,
    ensures
        listener.after(ListenerEvent::Failed { code, now }).consecutive_errors
            == listener.consecutive_errors + 1,
        listener.after(ListenerEvent::Failed { code, now }).last_error_ms == Some(now),
        listener.after(ListenerEvent::Failed { code, now }).total_recoveries
            == listener.total_recoveries,
        listener.after(ListenerEvent::Failed { code, now }).platform == listener.platform,
{
}

/// The loop runs until ten failures in a row have been counted.
pub proof fn law_when_the_loop_runs(listener: LocalListener)
    ensures
        listener.is_running() <==> listener.consecutive_errors < 10,
        listener.wf() <==> listener.consecutive_errors <= 10 && listener.total_recoveries <= 20,
{
}

// ---- the socket ----
/// A directory is open to others if the group or everybody may write to it.
pub proof fn law_who_may_write(mode: u32)
    ensures
        others_may_write(mode) <==> (mode / 16) % 2 == 1 || (mode / 2) % 2 == 1,
{
    assert(((mode & 0o22) != 0) == ((mode / 16) % 2 == 1 || (mode / 2) % 2 == 1)) by (bit_vector);
}

/// Permissions are looked at everywhere but on Windows and on a Linux within it, unless
/// the user waived it.
pub proof fn law_when_permissions_are_looked_at(platform: Platform, under_wsl: bool, waived: bool)
    ensures
        platform == Platform::Windows ==> !must_check_permissions(platform, under_wsl, waived),
        under_wsl || waived ==> !must_check_permissions(platform, under_wsl, waived),
        platform == Platform::Other && !under_wsl && !waived ==> must_check_permissions(
            platform,
            under_wsl,
            waived,
        ),
{
}

/// The way to a socket: each step that succeeds leads to the next, and permissions are
/// looked at once the directory is there and before anything in it is touched. That
/// there is no old socket is as good as its removal, and a socket that cannot be kept
/// from being cleaned up is a socket all the same.
pub proof fn law_the_way_to_a_socket(check: bool, mode: u32, outcome: StepOutcome)
    ensures
        step_after(SocketStep::FindDirectory, StepOutcome::Succeeded, check) == Ok::<
            SocketStep,
            SocketError,
        >(SocketStep::CreateDirectory),
        step_after(SocketStep::CreateDirectory, StepOutcome::Succeeded, true) == Ok::<
            SocketStep,
            SocketError,
        >(SocketStep::CheckPermissions),
        step_after(SocketStep::CreateDirectory, StepOutcome::Succeeded, false) == Ok::<
            SocketStep,
            SocketError,
        >(SocketStep::RemoveOld),
        (mode / 16) % 2 == 0 && (mode / 2) % 2 == 0 ==> step_after(
            SocketStep::CheckPermissions,
            StepOutcome::Mode(mode),
            check,
        ) == Ok::<SocketStep, SocketError>(SocketStep::RemoveOld),
        (mode / 16) % 2 == 1 || (mode / 2) % 2 == 1 ==> step_after(
            SocketStep::CheckPermissions,
            StepOutcome::Mode(mode),
            check,
        ) == Err::<SocketStep, SocketError>(SocketError::InsecurePermissions),
        step_after(SocketStep::RemoveOld, StepOutcome::Succeeded, check) == Ok::<
            SocketStep,
            SocketError,
        >(SocketStep::Bind),
        step_after(SocketStep::RemoveOld, StepOutcome::NotFound, check) == Ok::<
            SocketStep,
            SocketError,
        >(SocketStep::Bind),
        step_after(SocketStep::Bind, StepOutcome::Succeeded, check) == Ok::<
            SocketStep,
            SocketError,
        >(SocketStep::SetSticky),
        step_after(SocketStep::SetSticky, outcome, check) == Ok::<SocketStep, SocketError>(
            SocketStep::Done,
        ),
        step_after(SocketStep::Done, outcome, check) == Ok::<SocketStep, SocketError>(
            SocketStep::Done,
        ),
{
    law_who_may_write(mode);
}

/// Where the way to a socket ends: each step that fails ends it with an error of its own.
pub proof fn law_where_the_way_ends(check: bool, outcome: StepOutcome)
    requires
        outcome != StepOutcome::Succeeded,
    ensures
        step_after(SocketStep::FindDirectory, outcome, check) == Err::<SocketStep, SocketError>(
            SocketError::NoParentDirectory,
        ),
        step_after(SocketStep::CreateDirectory, outcome, check) == Err::<SocketStep, SocketError>(
            SocketError::CannotCreateDirectory,
        ),
        !(outcome is Mode) ==> step_after(SocketStep::CheckPermissions, outcome, check) == Err::<
            SocketStep,
            SocketError,
        >(SocketError::CannotReadPermissions),
        outcome != StepOutcome::NotFound ==> step_after(SocketStep::RemoveOld, outcome, check)
            == Err::<SocketStep, SocketError>(SocketError::CannotRemoveOld),
        step_after(SocketStep::Bind, outcome, check) == Err::<SocketStep, SocketError>(
            SocketError::CannotBind,
        ),
{
}

} // verus!
