use mux::host::TerminalSize;
use mux::notification::MuxNotification;
use mux::tab::{Pane, ReaderOffer, Tab};
use mux::Mux;

fn fresh() -> Mux {
    Mux::new(None, false, None, 1)
}

fn asked(mux: &mut Mux) -> Vec<String> {
    mux.take_effects().iter().map(|e| format!("{:?}", e)).collect()
}

fn add(mux: &mut Mux, pane_id: usize) {
    assert!(mux.add_pane(Pane { pane_id, domain_id: 0 }, ReaderOffer::NoReader).is_ok());
}

#[test]
fn the_active_workspace_is_that_of_the_identity() {
    let mut mux = fresh();
    assert_eq!(mux.active_workspace(), "default");
    assert_eq!(mux::DEFAULT_WORKSPACE, "default");
    mux.register_client(5, 100);
    mux.register_client(6, 100);
    mux.replace_identity(Some(5));
    assert_eq!(mux.active_workspace(), "default");
    mux.set_active_workspace("work");
    assert_eq!(mux.active_workspace(), "work");
    assert_eq!(mux.active_workspace_for_client(5), "work");
    assert_eq!(mux.active_workspace_for_client(6), "default");
    assert_eq!(mux.active_workspace_for_client(7), "default");
    assert_eq!(asked(&mut mux), vec!["Notify(ActiveWorkspaceChanged(5))"]);
    // a client that is not known changes nothing
    mux.set_active_workspace_for_client(7, "x");
    assert!(mux.take_effects().is_empty());
    // nor does nobody
    mux.replace_identity(None);
    mux.set_active_workspace("y");
    assert!(mux.take_effects().is_empty());
    assert_eq!(mux.active_workspace(), "default");
}

#[test]
fn the_configured_workspace_comes_before_the_built_in_one() {
    let mux = Mux::new(None, false, Some("mine".to_string()), 1);
    assert_eq!(mux.active_workspace(), "mine");
}

#[test]
fn a_borrowed_identity_is_given_back() {
    let mut mux = fresh();
    mux.replace_identity(Some(1));
    let holder = mux.with_identity(Some(2));
    assert_eq!(mux.active_identity(), Some(2));
    let inner = mux.with_identity(None);
    assert_eq!(mux.active_identity(), None);
    inner.restore(&mut mux);
    assert_eq!(mux.active_identity(), Some(2));
    holder.restore(&mut mux);
    assert_eq!(mux.active_identity(), Some(1));
    assert_eq!(mux.replace_identity(None), Some(1));
}

#[test]
fn input_is_noted() {
    let mut mux = Mux::new(None, true, None, 1);
    mux.register_client(5, 100);
    mux.client_had_input(5, 200);
    assert_eq!(mux.iter_clients()[0].last_input_ms, 200);
    assert_eq!(asked(&mut mux), vec!["UpdateAgentTarget"]);
    mux.record_input_for_current_identity(300);
    assert!(mux.take_effects().is_empty());
    mux.replace_identity(Some(5));
    mux.record_input_for_current_identity(300);
    assert_eq!(mux.iter_clients()[0].last_input_ms, 300);
    assert_eq!(asked(&mut mux), vec!["UpdateAgentTarget"]);
    // the agent follows even a client that is not known
    mux.client_had_input(9, 400);
    assert_eq!(asked(&mut mux), vec!["UpdateAgentTarget"]);
    assert_eq!(mux.iter_clients().len(), 1);
}

#[test]
fn without_an_agent_input_asks_for_nothing() {
    let mut mux = fresh();
    mux.register_client(5, 100);
    mux.client_had_input(5, 200);
    assert!(mux.take_effects().is_empty());
}

#[test]
fn clients_come_and_go() {
    let mut mux = fresh();
    mux.register_client(9, 1);
    mux.register_client(3, 2);
    let ids: Vec<usize> = mux.iter_clients().iter().map(|c| c.client_id).collect();
    assert_eq!(ids, vec![3, 9]);
    mux.unregister_client(9);
    mux.unregister_client(9);
    assert_eq!(mux.iter_clients().len(), 1);
}

#[test]
fn panes_hear_of_the_focus_once() {
    let mut mux = fresh();
    add(&mut mux, 1);
    add(&mut mux, 2);
    mux.register_client(5, 0);
    mux.take_effects();
    mux.record_focus_for_client(5, 1);
    assert_eq!(asked(&mut mux), vec!["FocusChanged { pane_id: 1, focused: true }"]);
    mux.record_focus_for_client(5, 1);
    assert!(mux.take_effects().is_empty());
    mux.record_focus_for_client(5, 2);
    assert_eq!(
        asked(&mut mux),
        vec![
            "FocusChanged { pane_id: 1, focused: false }",
            "FocusChanged { pane_id: 2, focused: true }"
        ]
    );
    // a pane that is not known hears nothing
    mux.record_focus_for_client(5, 7);
    assert_eq!(asked(&mut mux), vec!["FocusChanged { pane_id: 2, focused: false }"]);
    // on behalf of a client that is not known, the pane hears of it every time
    mux.record_focus_for_client(8, 1);
    mux.record_focus_for_client(8, 1);
    assert_eq!(asked(&mut mux).len(), 2);
    // the current identity
    mux.record_focus_for_current_identity(1);
    assert!(mux.take_effects().is_empty());
    mux.replace_identity(Some(5));
    mux.record_focus_for_current_identity(1);
    assert_eq!(asked(&mut mux), vec!["FocusChanged { pane_id: 1, focused: true }"]);
}

#[test]
fn the_focused_pane_is_resolved() {
    let mut mux = fresh();
    let w = mux.add_window("a".to_string(), None);
    let mut tab = Tab::new(
        4,
        TerminalSize { rows: 1, cols: 1, pixel_width: 0, pixel_height: 0, dpi: 0 },
    );
    tab.assign_pane(Pane { pane_id: 1, domain_id: 6 });
    mux.add_tab_no_panes(&tab);
    assert!(mux.add_tab_to_window(&tab, w).is_ok());
    mux.register_client(5, 0);
    assert_eq!(mux.resolve_focused_pane(5), None);
    mux.record_focus_for_client(5, 1);
    assert_eq!(mux.resolve_focused_pane(5), Some((6, w, 4, 1)));
    assert_eq!(mux.resolve_focused_pane(6), None);
    mux.record_focus_for_client(5, 2);
    assert_eq!(mux.resolve_focused_pane(5), None);
}

#[test]
fn a_renamed_workspace_leaves_nobody_behind() {
    let mut mux = fresh();
    let w1 = mux.add_window("old".to_string(), None);
    let w2 = mux.add_window("new".to_string(), None);
    let w3 = mux.add_window("other".to_string(), None);
    mux.register_client(1, 0);
    mux.register_client(2, 0);
    mux.register_client(3, 0);
    mux.set_active_workspace_for_client(1, "old");
    mux.set_active_workspace_for_client(3, "other");
    mux.take_effects();
    mux.rename_workspace("old", "new");
    assert_eq!(
        asked(&mut mux),
        vec![
            "Notify(WorkspaceRenamed { old_workspace: \"old\", new_workspace: \"new\" })",
            "Notify(ActiveWorkspaceChanged(1))"
        ]
    );
    assert!(mux.iter_windows_in_workspace("old").is_empty());
    assert_eq!(mux.iter_windows_in_workspace("new"), vec![w1, w2]);
    assert_eq!(mux.iter_windows_in_workspace("other"), vec![w3]);
    assert_eq!(mux.active_workspace_for_client(1), "new");
    assert_eq!(mux.active_workspace_for_client(2), "default");
    assert_eq!(mux.active_workspace_for_client(3), "other");
    // to itself: nothing
    mux.rename_workspace("new", "new");
    assert!(mux.take_effects().is_empty());
}

#[test]
fn renaming_to_an_unused_name_can_be_undone() {
    let mut mux = fresh();
    let w1 = mux.add_window("a".to_string(), None);
    let w2 = mux.add_window("b".to_string(), None);
    mux.register_client(1, 0);
    mux.set_active_workspace_for_client(1, "a");
    mux.rename_workspace("a", "c");
    mux.rename_workspace("c", "a");
    assert_eq!(mux.iter_windows_in_workspace("a"), vec![w1]);
    assert_eq!(mux.iter_windows_in_workspace("b"), vec![w2]);
    assert_eq!(mux.active_workspace_for_client(1), "a");
}

#[test]
fn renaming_recounts_the_panes() {
    let mut mux = fresh();
    let w = mux.add_window("old".to_string(), None);
    let mut tab = Tab::new(
        4,
        TerminalSize { rows: 1, cols: 1, pixel_width: 0, pixel_height: 0, dpi: 0 },
    );
    tab.assign_pane(Pane { pane_id: 1, domain_id: 6 });
    mux.add_tab_no_panes(&tab);
    assert!(mux.add_tab_to_window(&tab, w).is_ok());
    assert!(!mux.is_workspace_empty("old"));
    mux.rename_workspace("old", "new");
    assert!(mux.is_workspace_empty("old"));
    assert!(!mux.is_workspace_empty("new"));
}

#[test]
fn subscribers_leave_when_they_have_heard_enough() {
    let mut mux = fresh();
    let a = mux.subscribe();
    let b = mux.subscribe();
    let c = mux.subscribe();
    assert!(a != b && b != c && a != c);
    assert_eq!(mux.subscribers(), &vec![a, b, c]);
    mux.notify(MuxNotification::Empty);
    assert_eq!(asked(&mut mux), vec!["Notify(Empty)"]);
    mux.retain_subscribers(&vec![true, false, true]);
    assert_eq!(mux.subscribers(), &vec![a, c]);
    let d = mux.subscribe();
    assert!(d != a && d != b && d != c);
}

#[test]
fn the_workspace_to_start_in_follows_the_configuration() {
    let mut mux = fresh();
    assert_eq!(mux.active_workspace(), "default");
    mux.set_default_workspace(Some("other".to_string()));
    assert_eq!(mux.active_workspace(), "other");
    mux.set_default_workspace(None);
    assert_eq!(mux.active_workspace(), "default");
}
