use mux::host::Platform;
use mux::listener::{
    classify_windows_accept_error, safely_create_sock_path, AfterError, ErrorPlan, ListenerEvent,
    LocalListener, SocketError, SocketStep, StepOutcome,
};

#[test]
fn windows_accept_error_classification_matrix() {
    assert_eq!(classify_windows_accept_error(None), (false, false));
    assert_eq!(classify_windows_accept_error(Some(10004)), (true, false));
    assert_eq!(classify_windows_accept_error(Some(10035)), (true, false));
    assert_eq!(classify_windows_accept_error(Some(10053)), (true, false));
    assert_eq!(classify_windows_accept_error(Some(10054)), (true, false));
    assert_eq!(classify_windows_accept_error(Some(10024)), (true, false));
    assert_eq!(classify_windows_accept_error(Some(10038)), (true, true));
    assert_eq!(classify_windows_accept_error(Some(10022)), (true, true));
    assert_eq!(classify_windows_accept_error(Some(10050)), (true, true));
    assert_eq!(classify_windows_accept_error(Some(10093)), (true, true));
    assert_eq!(classify_windows_accept_error(Some(12345)), (false, false));
}

#[test]
fn the_pause_doubles_up_to_the_sixth_error() {
    let mut listener = LocalListener::new(Platform::Windows);
    let mut pauses = Vec::new();
    for i in 0..9 {
        let plan = listener.accept_failed(Some(10004), i);
        assert_eq!(plan.next, AfterError::Accept);
        pauses.push(plan.pause_ms);
    }
    assert_eq!(pauses, vec![200, 400, 800, 1600, 3200, 6400, 6400, 6400, 6400]);
    assert_eq!(
        listener.accept_failed(Some(10004), 9),
        ErrorPlan { pause_ms: 0, next: AfterError::Exit }
    );
}

#[test]
fn unknown_errors_pause_for_half_a_second() {
    let mut listener = LocalListener::new(Platform::Windows);
    for i in 0..9 {
        assert_eq!(
            listener.accept_failed(None, i),
            ErrorPlan { pause_ms: 500, next: AfterError::Accept }
        );
    }
    assert_eq!(
        listener.accept_failed(Some(1), 9),
        ErrorPlan { pause_ms: 500, next: AfterError::Exit }
    );
}

#[test]
fn elsewhere_every_error_pauses_for_a_tenth_of_a_second() {
    let mut listener = LocalListener::new(Platform::Other);
    for i in 0..9 {
        assert_eq!(
            listener.accept_failed(Some(10038), i),
            ErrorPlan { pause_ms: 100, next: AfterError::Accept }
        );
    }
    assert_eq!(
        listener.accept_failed(Some(10038), 9),
        ErrorPlan { pause_ms: 0, next: AfterError::Exit }
    );
}

#[test]
fn a_success_or_a_quiet_minute_wipes_the_slate() {
    let mut listener = LocalListener::new(Platform::Other);
    listener.accept_failed(None, 1000);
    listener.before_accept(61000);
    assert_eq!(listener.consecutive_errors, 1);
    listener.before_accept(61001);
    assert_eq!(listener.consecutive_errors, 0);
    listener.accept_failed(None, 70000);
    listener.accepted();
    assert_eq!(listener.consecutive_errors, 0);
    assert_eq!(listener.last_error_ms, None);
}

#[test]
fn the_socket_is_rebuilt_twenty_times_at_most() {
    let mut listener = LocalListener::new(Platform::Windows);
    for i in 0..20 {
        let plan = listener.run(ListenerEvent::Failed { code: Some(10038), now: i });
        assert_eq!(plan, ErrorPlan { pause_ms: 200, next: AfterError::Rebuild });
        let plan = listener.run(ListenerEvent::Rebuilt { ok: true });
        assert_eq!(plan.next, AfterError::Accept);
    }
    let plan = listener.run(ListenerEvent::Failed { code: Some(10038), now: 50 });
    assert_eq!(plan, ErrorPlan { pause_ms: 200, next: AfterError::Exit });
}

#[test]
fn a_failed_rebuild_counts_as_an_error_only() {
    let mut listener = LocalListener::new(Platform::Windows);
    listener.run(ListenerEvent::Tick { now: 0 });
    listener.run(ListenerEvent::Failed { code: Some(10022), now: 1 });
    listener.run(ListenerEvent::Rebuilt { ok: false });
    assert_eq!(listener.consecutive_errors, 1);
    assert_eq!(listener.total_recoveries, 0);
    listener.run(ListenerEvent::Accepted);
    assert_eq!(listener.consecutive_errors, 0);
}

#[test]
fn a_listener_needs_its_socket() {
    assert_eq!(
        LocalListener::with_domain(Platform::Other, Ok(())),
        Ok(LocalListener::new(Platform::Other))
    );
    assert_eq!(
        LocalListener::with_domain(Platform::Other, Err(SocketError::CannotBind)),
        Err(SocketError::CannotBind)
    );
}

fn step(s: SocketStep, o: StepOutcome) -> Result<SocketStep, SocketError> {
    safely_create_sock_path(s, o, Platform::Other, false, false)
}

#[test]
fn the_socket_is_created_step_by_step() {
    assert_eq!(step(SocketStep::FindDirectory, StepOutcome::Succeeded), Ok(SocketStep::CreateDirectory));
    assert_eq!(step(SocketStep::CreateDirectory, StepOutcome::Succeeded), Ok(SocketStep::CheckPermissions));
    assert_eq!(step(SocketStep::CheckPermissions, StepOutcome::Mode(0o700)), Ok(SocketStep::RemoveOld));
    assert_eq!(step(SocketStep::RemoveOld, StepOutcome::NotFound), Ok(SocketStep::Bind));
    assert_eq!(step(SocketStep::RemoveOld, StepOutcome::Succeeded), Ok(SocketStep::Bind));
    assert_eq!(step(SocketStep::Bind, StepOutcome::Succeeded), Ok(SocketStep::SetSticky));
    assert_eq!(step(SocketStep::SetSticky, StepOutcome::Failed), Ok(SocketStep::Done));

    assert_eq!(step(SocketStep::FindDirectory, StepOutcome::Failed), Err(SocketError::NoParentDirectory));
    assert_eq!(step(SocketStep::CreateDirectory, StepOutcome::Failed), Err(SocketError::CannotCreateDirectory));
    assert_eq!(step(SocketStep::CheckPermissions, StepOutcome::Failed), Err(SocketError::CannotReadPermissions));
    assert_eq!(step(SocketStep::RemoveOld, StepOutcome::Failed), Err(SocketError::CannotRemoveOld));
    assert_eq!(step(SocketStep::Bind, StepOutcome::Failed), Err(SocketError::CannotBind));
}

#[test]
fn an_open_directory_gets_no_socket() {
    for mode in [0o722, 0o720, 0o702, 0o777] {
        assert_eq!(
            step(SocketStep::CheckPermissions, StepOutcome::Mode(mode)),
            Err(SocketError::InsecurePermissions)
        );
    }
    assert_eq!(
        step(SocketStep::CheckPermissions, StepOutcome::Mode(0o755)),
        Ok(SocketStep::RemoveOld)
    );
}

#[test]
fn permissions_are_not_always_looked_at() {
    let made = |p, wsl, skip| {
        safely_create_sock_path(SocketStep::CreateDirectory, StepOutcome::Succeeded, p, wsl, skip)
    };
    assert_eq!(made(Platform::Windows, false, false), Ok(SocketStep::RemoveOld));
    assert_eq!(made(Platform::Other, true, false), Ok(SocketStep::RemoveOld));
    assert_eq!(made(Platform::Other, false, true), Ok(SocketStep::RemoveOld));
    assert_eq!(made(Platform::Other, false, false), Ok(SocketStep::CheckPermissions));
}
