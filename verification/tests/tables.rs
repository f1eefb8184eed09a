use mux::domain::{Domain, SpawnTabDomain};
use mux::error::MuxError;
use mux::host::{
    terminal_size_to_pty_size, Dimension, DimensionUnit, GeometryOrigin, GuiPosition, PtySize,
    SizeOutOfRange, TerminalSize,
};
use mux::lookup::NameChoice;
use mux::tab::{Pane, ReaderOffer, Tab};
use mux::{Activities, Mux};

fn fresh() -> Mux {
    Mux::new(None, false, None, 1)
}

fn size() -> TerminalSize {
    TerminalSize { rows: 24, cols: 80, pixel_width: 0, pixel_height: 0, dpi: 96 }
}

fn pane(pane_id: usize, domain_id: usize) -> Pane {
    Pane { pane_id, domain_id }
}

fn tab_with(tab_id: usize, panes: &[usize]) -> Tab {
    let mut tab = Tab::new(tab_id, size());
    for p in panes {
        tab.assign_pane(pane(*p, 0));
    }
    tab
}

fn show(mux: &mut Mux, tab: &Tab, window_id: usize) {
    mux.add_tab_no_panes(tab);
    for pane in &tab.panes {
        assert!(mux.add_pane(*pane, ReaderOffer::NoReader).is_ok());
    }
    assert!(mux.add_tab_to_window(tab, window_id).is_ok());
}

fn asked(mux: &mut Mux) -> Vec<String> {
    mux.take_effects().iter().map(|e| format!("{:?}", e)).collect()
}

fn domain(domain_id: usize, name: &str) -> Domain {
    Domain { domain_id, domain_name: name.to_string(), detachable: false }
}

#[test]
fn a_pane_is_connected_read_and_announced() {
    let mut mux = fresh();
    mux.set_banner(Some("hello".to_string()));
    assert!(mux.add_pane(pane(3, 0), ReaderOffer::Reader).is_ok());
    assert_eq!(
        asked(&mut mux),
        vec![
            "SetClipboard(3)",
            "SetDownloadHandler(3)",
            "StartReader { pane_id: 3, banner: Some(\"hello\") }",
            "Notify(PaneAdded(3))",
        ]
    );
    assert_eq!(mux.get_pane(3), Some(pane(3, 0)));
    // a second time nothing happens, whatever the reader
    assert!(mux.add_pane(pane(3, 0), ReaderOffer::Failed).is_ok());
    assert!(mux.take_effects().is_empty());
}

#[test]
fn a_pane_without_a_reader_is_not_read() {
    let mut mux = fresh();
    assert!(mux.add_pane(pane(3, 0), ReaderOffer::NoReader).is_ok());
    assert_eq!(
        asked(&mut mux),
        vec!["SetClipboard(3)", "SetDownloadHandler(3)", "Notify(PaneAdded(3))"]
    );
}

#[test]
fn a_pane_whose_reader_fails_stays_but_is_not_announced() {
    let mut mux = fresh();
    assert!(matches!(
        mux.add_pane(pane(3, 0), ReaderOffer::Failed),
        Err(MuxError::ReaderFailed)
    ));
    assert_eq!(asked(&mut mux), vec!["SetClipboard(3)", "SetDownloadHandler(3)"]);
    assert!(mux.get_pane(3).is_some());
}

#[test]
fn a_pane_is_connected_before_it_is_asked_for_its_reader() {
    let mut mux = fresh();
    assert!(mux.take_up_pane(pane(3, 0)));
    assert_eq!(asked(&mut mux), vec!["SetClipboard(3)", "SetDownloadHandler(3)"]);
    assert_eq!(mux.get_pane(3), Some(pane(3, 0)));
    assert!(mux.begin_pane(3, ReaderOffer::Reader).is_ok());
    assert_eq!(
        asked(&mut mux),
        vec!["StartReader { pane_id: 3, banner: None }", "Notify(PaneAdded(3))"]
    );
    assert!(!mux.take_up_pane(pane(3, 0)));
    assert!(mux.take_up_pane(pane(4, 0)));
    mux.take_effects();
    assert!(matches!(mux.begin_pane(4, ReaderOffer::Failed), Err(MuxError::ReaderFailed)));
    assert!(mux.take_effects().is_empty());
}

#[test]
fn a_changed_window_is_taken_in() {
    let mut mux = fresh();
    let position = GuiPosition {
        x: Dimension { unit: DimensionUnit::Cells, amount_bits: 7 },
        y: Dimension { unit: DimensionUnit::Points, amount_bits: 8 },
        origin: GeometryOrigin::ActiveScreen,
    };
    let w = mux.add_window("a".to_string(), Some(position.clone()));
    assert_eq!(mux.get_window(w).unwrap().position, Some(position.clone()));
    for (tab_id, pane_id) in [(1, 11), (2, 12)] {
        show(&mut mux, &tab_with(tab_id, &[pane_id]), w);
    }
    let mut window = mux.get_window(w).unwrap().clone();
    window.tabs.swap(0, 1);
    window.save_and_then_set_active(1);
    window.set_workspace("b");
    assert!(mux.can_update_window(&window));
    assert!(mux.update_window(window.clone()));
    let after = mux.get_window(w).unwrap();
    assert_eq!(after.tabs, vec![2, 1]);
    assert_eq!(after.get_active(), Some(1));
    assert_eq!(after.workspace, "b");
    assert_eq!(after.position, Some(position));
    // a window that is not known is not entered
    window.window_id = 99;
    assert!(!mux.update_window(window.clone()));
    assert!(mux.get_window(99).is_none());
    // tabs that are listed twice or not known
    window.window_id = w;
    window.tabs.push(2);
    assert!(!mux.can_update_window(&window));
    window.tabs = vec![2, 77];
    assert!(!mux.can_update_window(&window));
    window.tabs = vec![2];
    assert!(!mux.can_update_window(&window));
    window.active = 0;
    assert!(mux.can_update_window(&window));
    // a tab that no window lists any more goes, unless it is in the register
    assert!(mux.update_window(window));
    assert!(mux.get_tab(1).is_some());
}

#[test]
fn a_tab_brings_its_active_pane() {
    let mut mux = fresh();
    assert!(mux.add_tab_and_active_pane(&tab_with(1, &[4, 5]), ReaderOffer::NoReader).is_ok());
    assert!(mux.get_tab(1).is_some());
    assert!(mux.get_pane(4).is_some());
    assert!(mux.get_pane(5).is_none());
    assert!(matches!(
        mux.add_tab_and_active_pane(&tab_with(2, &[]), ReaderOffer::NoReader),
        Err(MuxError::TabWithoutActivePane)
    ));
    assert!(mux.get_tab(2).is_some());
    assert!(matches!(
        mux.add_tab_and_active_pane(&tab_with(3, &[9]), ReaderOffer::Failed),
        Err(MuxError::ReaderFailed)
    ));
}

#[test]
fn a_tab_goes_to_a_window_that_exists() {
    let mut mux = fresh();
    let w = mux.add_window("ws".to_string(), None);
    let tab = tab_with(1, &[1]);
    mux.add_tab_no_panes(&tab);
    assert!(matches!(
        mux.add_tab_to_window(&tab, 77),
        Err(MuxError::NoSuchWindow(77))
    ));
    mux.take_effects();
    assert!(mux.add_tab_to_window(&tab, w).is_ok());
    assert_eq!(
        asked(&mut mux),
        vec![format!("Notify(TabAddedToWindow {{ tab_id: 1, window_id: {} }})", w)]
    );
    assert_eq!(mux.window_containing_tab(1), Some(w));
    assert_eq!(mux.window_containing_tab(2), None);
}

#[test]
fn an_unregistered_tab_can_be_shown() {
    let mut mux = fresh();
    let w = mux.add_window("ws".to_string(), None);
    let tab = tab_with(1, &[1]);
    assert!(mux.add_tab_to_window(&tab, w).is_ok());
    assert!(mux.get_tab(1).is_none());
    assert_eq!(mux.get_active_tab_for_window(w).unwrap().tab_id, 1);
    assert!(!mux.is_workspace_empty("ws"));
    mux.add_tab_no_panes(&tab);
    assert!(mux.get_tab(1).is_some());
}

#[test]
fn panes_are_counted_by_workspace() {
    let mut mux = fresh();
    let w1 = mux.add_window("a".to_string(), None);
    let w2 = mux.add_window("b".to_string(), None);
    assert!(mux.is_workspace_empty("a"));
    show(&mut mux, &tab_with(1, &[1, 2]), w1);
    assert!(!mux.is_workspace_empty("a"));
    assert!(mux.is_workspace_empty("b"));
    assert!(mux.is_workspace_empty("c"));
    show(&mut mux, &tab_with(2, &[3]), w2);
    assert!(!mux.is_workspace_empty("b"));
    assert!(mux.is_active_workspace_empty());
}

#[test]
fn a_busy_tab_keeps_the_old_counts() {
    let mut mux = fresh();
    let w = mux.add_window("a".to_string(), None);
    let mut tab = tab_with(1, &[1]);
    tab.busy = true;
    show(&mut mux, &tab, w);
    assert!(mux.is_workspace_empty("a"));
    tab.busy = false;
    mux.add_tab_no_panes(&tab);
    assert!(!mux.is_workspace_empty("a"));
}

#[test]
fn windows_are_listed_by_workspace() {
    let mut mux = fresh();
    let w1 = mux.add_window("b".to_string(), None);
    let w2 = mux.add_window("a".to_string(), None);
    let w3 = mux.add_window("b".to_string(), None);
    assert_eq!(mux.iter_windows(), vec![w1, w2, w3]);
    assert_eq!(mux.iter_windows_in_workspace("b"), vec![w1, w3]);
    assert_eq!(mux.iter_windows_in_workspace("a"), vec![w2]);
    assert!(mux.iter_windows_in_workspace("c").is_empty());
    assert_eq!(mux.iter_workspaces(), vec!["a".to_string(), "b".to_string()]);
    assert_eq!(mux.get_window(w2).unwrap().workspace, "a");
    assert!(mux.get_window(99).is_none());
    assert!(mux.get_active_tab_for_window(w1).is_none());
    assert!(mux.get_active_tab_for_window(99).is_none());
}

#[test]
fn a_made_up_workspace_name_is_new() {
    let mut mux = fresh();
    mux.add_window("taken".to_string(), None);
    let consider = |name: &str, tries| mux.consider_workspace_name(name.to_string(), tries);
    assert!(matches!(consider("taken", 2), NameChoice::DrawAgain));
    assert!(matches!(consider("taken", 0), NameChoice::GiveUp));
    assert!(matches!(consider("free", 0), NameChoice::Take(name) if name == "free"));
    let name = mux.generate_workspace_name().unwrap();
    assert!(!name.is_empty());
    assert!(name.contains('-'));
    assert!(!mux.iter_workspaces().contains(&name));
}

#[test]
fn the_host_may_forget_panes_that_nobody_holds() {
    let mut mux = fresh();
    let w = mux.add_window("a".to_string(), None);
    show(&mut mux, &tab_with(1, &[4]), w);
    assert!(mux.needs_pane(4));
    assert!(!mux.needs_pane(5));
    // a removed pane matters as long as a tab holds it
    mux.remove_pane(4);
    assert!(mux.get_pane(4).is_none());
    assert!(mux.needs_pane(4));
    mux.set_windows_locked(true);
    assert!(mux.remove_tab(1).is_some());
    assert!(mux.needs_pane(4));
    mux.set_windows_locked(false);
    mux.prune_dead_windows(&Activities::new());
    assert!(!mux.needs_pane(4));
}

#[test]
fn panes_are_resolved_through_tab_and_window() {
    let mut mux = fresh();
    let w = mux.add_window("a".to_string(), None);
    let mut tab = Tab::new(6, size());
    tab.assign_pane(pane(1, 4));
    tab.assign_pane(pane(2, 5));
    mux.add_tab_no_panes(&tab);
    // a tab that is in no window
    assert_eq!(mux.resolve_pane_id(1), None);
    assert!(mux.add_tab_to_window(&tab, w).is_ok());
    assert_eq!(mux.resolve_pane_id(1), Some((4, w, 6)));
    assert_eq!(mux.resolve_pane_id(2), Some((5, w, 6)));
    assert_eq!(mux.resolve_pane_id(3), None);
}

#[test]
fn focusing_a_pane_activates_its_tab() {
    let mut mux = fresh();
    let w = mux.add_window("a".to_string(), None);
    show(&mut mux, &tab_with(1, &[1]), w);
    show(&mut mux, &tab_with(2, &[2, 3]), w);
    assert_eq!(mux.get_active_tab_for_window(w).unwrap().tab_id, 1);
    assert!(mux.focus_pane_and_containing_tab(3).is_ok());
    let tab = mux.get_active_tab_for_window(w).unwrap();
    assert_eq!(tab.tab_id, 2);
    assert_eq!(tab.get_active_pane().unwrap().pane_id, 3);
    assert_eq!(mux.get_window(w).unwrap().last_active, Some(1));
    assert!(matches!(
        mux.focus_pane_and_containing_tab(9),
        Err(MuxError::PaneNotFound(9))
    ));
    assert!(mux.add_pane(pane(9, 0), ReaderOffer::NoReader).is_ok());
    assert!(matches!(
        mux.focus_pane_and_containing_tab(9),
        Err(MuxError::PaneUnresolved(9))
    ));
}

#[test]
fn domains_are_found_by_id_and_name() {
    let mut mux = Mux::new(Some(domain(3, "local")), false, None, 1);
    assert_eq!(mux.default_domain().domain_id, 3);
    mux.add_domain(&domain(4, "ssh"));
    assert_eq!(mux.default_domain().domain_id, 3);
    assert_eq!(mux.get_domain(4).unwrap().domain_name, "ssh");
    assert_eq!(mux.get_domain_by_name("local").unwrap().domain_id, 3);
    assert!(mux.get_domain(5).is_none());
    assert!(mux.get_domain_by_name("x").is_none());
    mux.set_default_domain(&domain(4, "ssh"));
    assert_eq!(mux.default_domain().domain_id, 4);
    let ids: Vec<usize> = mux.iter_domains().iter().map(|d| d.domain_id).collect();
    assert_eq!(ids, vec![3, 4]);
}

#[test]
fn the_first_domain_becomes_the_default() {
    let mut mux = fresh();
    mux.add_domain(&domain(8, "a"));
    mux.add_domain(&domain(7, "b"));
    assert_eq!(mux.default_domain().domain_id, 8);
}

#[test]
fn the_domain_to_start_in_is_resolved() {
    let mut mux = Mux::new(Some(domain(0, "local")), false, None, 1);
    mux.add_domain(&domain(4, "ssh"));
    let w = mux.add_window("a".to_string(), None);
    let mut tab = Tab::new(1, size());
    tab.assign_pane(pane(1, 4));
    show(&mut mux, &tab, w);

    let id = |r: Result<Domain, MuxError>| match r {
        Ok(d) => d.domain_id,
        Err(_) => panic!("no domain"),
    };
    assert_eq!(id(mux.resolve_spawn_tab_domain(None, &SpawnTabDomain::DefaultDomain)), 0);
    assert_eq!(id(mux.resolve_spawn_tab_domain(None, &SpawnTabDomain::CurrentPaneDomain)), 0);
    assert_eq!(id(mux.resolve_spawn_tab_domain(Some(1), &SpawnTabDomain::CurrentPaneDomain)), 4);
    assert_eq!(id(mux.resolve_spawn_tab_domain(None, &SpawnTabDomain::DomainId(4))), 4);
    assert_eq!(
        id(mux.resolve_spawn_tab_domain(None, &SpawnTabDomain::DomainName("ssh".to_string()))),
        4
    );
    assert!(matches!(
        mux.resolve_spawn_tab_domain(Some(9), &SpawnTabDomain::CurrentPaneDomain),
        Err(MuxError::PaneIdInvalid(9))
    ));
    assert!(matches!(
        mux.resolve_spawn_tab_domain(None, &SpawnTabDomain::DomainId(9)),
        Err(MuxError::DomainIdInvalid(9))
    ));
    match mux.resolve_spawn_tab_domain(None, &SpawnTabDomain::DomainName("x".to_string())) {
        Err(MuxError::DomainNameInvalid { name, mut possible }) => {
            assert_eq!(name, "x");
            possible.sort();
            assert_eq!(possible, vec!["local".to_string(), "ssh".to_string()]);
        }
        _ => panic!("that domain does not exist"),
    }
}

#[test]
fn terminal_sizes_fit_a_pty_or_do_not() {
    assert_eq!(
        terminal_size_to_pty_size(TerminalSize {
            rows: 24,
            cols: 80,
            pixel_width: 640,
            pixel_height: 65535,
            dpi: 0
        }),
        Ok(PtySize { rows: 24, cols: 80, pixel_width: 640, pixel_height: 65535 })
    );
    for field in 0..4 {
        let mut s = size();
        match field {
            0 => s.rows = 65536,
            1 => s.cols = 65536,
            2 => s.pixel_width = 65536,
            _ => s.pixel_height = 65536,
        }
        assert_eq!(terminal_size_to_pty_size(s), Err(SizeOutOfRange));
    }
}

#[test]
fn what_becomes_of_a_tab_is_taken_in() {
    let mut mux = fresh();
    let w = mux.add_window("a".to_string(), None);
    let mut tab = tab_with(1, &[1]);
    assert!(!mux.update_tab(&tab));
    assert!(mux.get_tab(1).is_none());
    assert!(mux.add_tab_to_window(&tab, w).is_ok());
    tab.size.rows = 50;
    assert!(mux.update_tab(&tab));
    assert_eq!(mux.get_active_tab_for_window(w).unwrap().size.rows, 50);
    mux.add_tab_no_panes(&tab);
    tab.assign_pane(pane(2, 3));
    assert!(mux.update_tab(&tab));
    assert_eq!(mux.resolve_pane_id(2), Some((3, w, 1)));
    assert_eq!(mux.next_window_id(), w + 1);
}

#[test]
fn not_every_question_for_a_domain_can_be_asked() {
    let mut mux = fresh();
    let default = SpawnTabDomain::DefaultDomain;
    let current = SpawnTabDomain::CurrentPaneDomain;
    assert!(!mux.has_default_domain());
    assert!(!mux.can_resolve_spawn_tab_domain(None, &default));
    assert!(!mux.can_resolve_spawn_tab_domain(None, &current));
    assert!(mux.can_resolve_spawn_tab_domain(Some(1), &current));
    assert!(mux.can_resolve_spawn_tab_domain(None, &SpawnTabDomain::DomainId(1)));
    let w = mux.add_window("a".to_string(), None);
    show(&mut mux, &tab_with(1, &[1]), w);
    assert!(!mux.can_resolve_spawn_tab_domain(Some(1), &current));
    mux.add_domain(&domain(0, "local"));
    assert!(mux.has_default_domain());
    assert!(mux.can_resolve_spawn_tab_domain(None, &default));
    assert!(mux.can_resolve_spawn_tab_domain(Some(1), &current));
}
