use mux::domain::{Domain, DomainState, SpawnTabDomain};
use mux::error::MuxError;
use mux::host::{Dimension, DimensionUnit, GeometryOrigin, GuiPosition, TerminalSize};
use mux::spawn::{
    attach_to, split_size, MoveFailure, MoveProgress, PaneMove, PaneSplit, RenderableDimensions,
    SplitSource,
};
use mux::tab::{Pane, ReaderOffer, Tab};
use mux::{Activities, Mux};

const MAIN: u64 = 1;

fn size(rows: usize) -> TerminalSize {
    TerminalSize { rows, cols: 80, pixel_width: 0, pixel_height: 0, dpi: 96 }
}

fn domain(domain_id: usize, name: &str) -> Domain {
    Domain { domain_id, domain_name: name.to_string(), detachable: false }
}

fn tab_with(tab_id: usize, rows: usize, panes: &[(usize, usize)]) -> Tab {
    let mut tab = Tab::new(tab_id, size(rows));
    for (p, d) in panes {
        tab.assign_pane(Pane { pane_id: *p, domain_id: *d });
    }
    tab
}

fn show(mux: &mut Mux, tab: &Tab, window_id: usize) {
    mux.add_tab_no_panes(tab);
    for pane in &tab.panes {
        assert!(mux.add_pane(*pane, ReaderOffer::NoReader).is_ok());
    }
    assert!(mux.add_tab_to_window(tab, window_id).is_ok());
}

fn setup() -> (Mux, usize) {
    let mut mux = Mux::new(Some(domain(0, "local")), false, None, MAIN);
    mux.add_domain(&domain(1, "ssh"));
    let w = mux.add_window("ws".to_string(), None);
    show(&mut mux, &tab_with(1, 24, &[(1, 0), (2, 1)]), w);
    mux.take_effects();
    (mux, w)
}

fn asked(mux: &mut Mux) -> Vec<String> {
    mux.take_effects().iter().map(|e| format!("{:?}", e)).collect()
}

#[test]
fn a_detached_domain_is_attached_first() {
    assert_eq!(attach_to(DomainState::Detached, 7), Some(7));
    assert_eq!(attach_to(DomainState::Attached, 7), None);
}

#[test]
fn a_split_is_decided() {
    let (mux, w) = setup();
    let split = match mux.split_pane(2, &SpawnTabDomain::CurrentPaneDomain) {
        Ok(s) => s,
        Err(_) => panic!("the pane exists"),
    };
    assert_eq!(split, PaneSplit { pane_id: 2, domain_id: 1, window_id: w, tab_id: 1 });
    assert!(matches!(
        mux.split_pane(9, &SpawnTabDomain::DefaultDomain),
        Err(MuxError::PaneIdInvalid(9))
    ));
    assert!(matches!(
        mux.split_pane(2, &SpawnTabDomain::DomainId(9)),
        Err(MuxError::DomainIdInvalid(9))
    ));
}

#[test]
fn the_source_of_a_split_gets_its_directory() {
    let (mut mux, w) = setup();
    let split = PaneSplit { pane_id: 2, domain_id: 1, window_id: w, tab_id: 1 };
    let spawn = |dir: Option<&str>| SplitSource::Spawn { command_dir: dir.map(|d| d.to_string()) };
    let uri = Some("/a%20b".to_string());
    match mux.split_source(&split, spawn(None), uri.clone()) {
        Ok(SplitSource::Spawn { command_dir }) => assert_eq!(command_dir, Some("/a b".to_string())),
        _ => panic!("not a spawn"),
    }
    match mux.split_source(&split, spawn(Some("/x")), uri.clone()) {
        Ok(SplitSource::Spawn { command_dir }) => assert_eq!(command_dir, Some("/x".to_string())),
        _ => panic!("not a spawn"),
    }
    let elsewhere = PaneSplit { domain_id: 0, ..split };
    match mux.split_source(&elsewhere, spawn(None), uri.clone()) {
        Ok(SplitSource::Spawn { command_dir }) => assert_eq!(command_dir, None),
        _ => panic!("not a spawn"),
    }
    match mux.split_source(&split, SplitSource::MovePane(5), uri.clone()) {
        Ok(SplitSource::MovePane(p)) => assert_eq!(p, 5),
        _ => panic!("not a move"),
    }
    mux.remove_pane(2);
    assert!(matches!(
        mux.split_source(&split, spawn(None), uri),
        Err(MuxError::PaneNotFound(2))
    ));
}

#[test]
fn the_size_after_a_split_has_no_pixels() {
    assert_eq!(
        split_size(RenderableDimensions { cols: 40, viewport_rows: 12, dpi: 144 }),
        TerminalSize { rows: 12, cols: 40, pixel_width: 0, pixel_height: 0, dpi: 144 }
    );
}

#[test]
fn something_is_started_in_a_window() {
    let mut activities = Activities::new();
    let (mut mux, w) = setup();
    let plan = match mux.spawn_tab_or_window(
        &mut activities,
        Some(w),
        &SpawnTabDomain::DomainName("ssh".to_string()),
        size(99),
        Some(1),
        "unused".to_string(),
        None,
    ) {
        Ok(p) => p,
        Err(_) => panic!("the window exists"),
    };
    assert_eq!(plan.domain_id, 1);
    assert_eq!(plan.window_id, w);
    assert_eq!(plan.size, size(24));
    assert_eq!(plan.config_of, Some(1));
    assert!(plan.builder.is_none());
    // the domain makes a tab and shows it
    let tab = tab_with(5, 24, &[(50, 1)]);
    show(&mut mux, &tab, w);
    mux.take_effects();
    match mux.finish_spawn(&mut activities, plan, &tab, MAIN) {
        Ok(pane) => assert_eq!(pane.pane_id, 50),
        Err(_) => panic!("the tab has a pane"),
    }
    assert_eq!(mux.get_active_tab_for_window(w).unwrap().tab_id, 5);
    assert!(mux.take_effects().is_empty());
}

#[test]
fn something_is_started_in_a_new_window() {
    let mut activities = Activities::new();
    let (mut mux, w) = setup();
    let plan = match mux.spawn_tab_or_window(
        &mut activities,
        None,
        &SpawnTabDomain::DefaultDomain,
        size(50),
        None,
        "fresh".to_string(),
        Some(GuiPosition {
            x: Dimension { unit: DimensionUnit::Pixels, amount_bits: 0 },
            y: Dimension { unit: DimensionUnit::Percent, amount_bits: 1 },
            origin: GeometryOrigin::Named("left".to_string()),
        }),
    ) {
        Ok(p) => p,
        Err(_) => panic!("there is a default domain"),
    };
    let new = plan.window_id;
    let position = mux.get_window(new).unwrap().position.as_ref().unwrap();
    assert_eq!(position.y, Dimension { unit: DimensionUnit::Percent, amount_bits: 1 });
    assert_eq!(position.origin, GeometryOrigin::Named("left".to_string()));
    assert!(new != w);
    assert_eq!(plan.size, size(50));
    assert_eq!(plan.config_of, None);
    assert_eq!(mux.get_window(new).unwrap().workspace, "fresh");
    let tab = tab_with(5, 50, &[(50, 0)]);
    show(&mut mux, &tab, new);
    mux.take_effects();
    assert!(mux.finish_spawn(&mut activities, plan, &tab, MAIN).is_ok());
    assert_eq!(
        asked(&mut mux),
        vec![format!("Notify(WindowCreated({}))", new), "SchedulePrune".to_string()]
    );
}

#[test]
fn starting_can_fail_in_many_ways() {
    let mut activities = Activities::new();
    let (mut mux, w) = setup();
    let default = SpawnTabDomain::DefaultDomain;
    let ws = || "x".to_string();
    assert!(matches!(
        mux.spawn_tab_or_window(&mut activities, Some(88), &default, size(1), None, ws(), None),
        Err(MuxError::NoSuchWindow(88))
    ));
    let empty = mux.add_window("e".to_string(), None);
    match mux.spawn_tab_or_window(&mut activities, Some(empty), &default, size(1), None, ws(), None) {
        Err(MuxError::WindowWithoutTabs(x)) => assert_eq!(x, empty),
        _ => panic!("the window is empty"),
    }
    show(&mut mux, &tab_with(9, 1, &[]), empty);
    match mux.spawn_tab_or_window(&mut activities, Some(empty), &default, size(1), None, ws(), None) {
        Err(MuxError::ActiveTabWithoutPanes(x)) => assert_eq!(x, empty),
        _ => panic!("the tab is empty"),
    }
    assert!(matches!(
        mux.spawn_tab_or_window(&mut activities, Some(w), &SpawnTabDomain::DomainId(9), size(1), None, ws(), None),
        Err(MuxError::DomainIdInvalid(9))
    ));
    mux.take_effects();
    // a plan that comes to nothing still announces its window
    let plan = match mux.spawn_tab_or_window(&mut activities, None, &default, size(1), None, ws(), None) {
        Ok(p) => p,
        Err(_) => panic!("there is a default domain"),
    };
    let new = plan.window_id;
    mux.abandon_spawn(&mut activities, plan, 2);
    assert_eq!(asked(&mut mux), vec![format!("AnnounceWindow({})", new)]);
    mux.announce_window(&mut activities, new);
    // a tab without a pane, and a window that has gone
    let plan = match mux.spawn_tab_or_window(&mut activities, Some(w), &default, size(1), None, ws(), None) {
        Ok(p) => p,
        Err(_) => panic!("the window exists"),
    };
    assert!(matches!(
        mux.finish_spawn(&mut activities, plan, &tab_with(30, 1, &[]), MAIN),
        Err(MuxError::TabWithoutActivePane)
    ));
    let plan = match mux.spawn_tab_or_window(&mut activities, Some(w), &default, size(1), None, ws(), None) {
        Ok(p) => p,
        Err(_) => panic!("the window exists"),
    };
    mux.kill_window(w);
    match mux.finish_spawn(&mut activities, plan, &tab_with(31, 1, &[(60, 0)]), MAIN) {
        Err(MuxError::NoSuchWindow(x)) => assert_eq!(x, w),
        _ => panic!("the window has gone"),
    }
}

#[test]
fn the_current_pane_lends_its_directory_within_its_domain() {
    let (mux, _) = setup();
    let pane = |r: Result<Option<Pane>, MuxError>| match r {
        Ok(p) => p.map(|p| p.pane_id),
        Err(_) => panic!("the pane exists"),
    };
    assert_eq!(pane(mux.spawn_cwd_pane(0, None)), None);
    assert_eq!(pane(mux.spawn_cwd_pane(0, Some(1))), Some(1));
    assert_eq!(pane(mux.spawn_cwd_pane(1, Some(1))), None);
    assert!(matches!(mux.spawn_cwd_pane(0, Some(9)), Err(MuxError::PaneIdInvalid(9))));
}

#[test]
fn a_pane_moves_to_a_new_window() {
    let mut activities = Activities::new();
    let (mut mux, w) = setup();
    let decided = match mux.move_pane_to_new_tab(2) {
        Ok(m) => m,
        Err(_) => panic!("the pane exists"),
    };
    assert_eq!(decided, PaneMove { pane_id: 2, domain_id: 1, src_tab: 1 });
    let moving = match mux.begin_move(&mut activities, &decided, None, Some("moved".to_string()), 70, MAIN) {
        Ok(m) => m,
        Err(_) => panic!("the pane is there"),
    };
    let new = moving.window_id;
    assert_eq!(moving.tab.size, size(24));
    match mux.finish_move(&mut activities, moving, true, ReaderOffer::Failed, MAIN) {
        Ok(ids) => assert_eq!(ids, (70, new)),
        Err(_) => panic!("the pane was known"),
    }
    assert_eq!(mux.resolve_pane_id(2), Some((1, new, 70)));
    assert_eq!(mux.resolve_pane_id(1), Some((0, w, 1)));
    assert_eq!(mux.get_tab(1).unwrap().panes.len(), 1);
    assert_eq!(mux.get_window(new).unwrap().workspace, "moved");
    assert_eq!(
        asked(&mut mux),
        vec![
            format!("Notify(TabAddedToWindow {{ tab_id: 70, window_id: {} }})", new),
            format!("Notify(WindowCreated({}))", new),
            "SchedulePrune".to_string()
        ]
    );
}

#[test]
fn the_domain_of_a_pane_may_move_it_by_itself() {
    let mut activities = Activities::new();
    let (mut mux, w) = setup();
    let decided = PaneMove { pane_id: 2, domain_id: 1, src_tab: 1 };
    let done: Result<Option<(usize, usize)>, String> = Ok(Some((90, 91)));
    match mux.continue_move(&mut activities, &decided, done, None, None, 70, MAIN) {
        Ok(MoveProgress::Done { tab_id, window_id }) => assert_eq!((tab_id, window_id), (90, 91)),
        _ => panic!("the domain moved the pane"),
    }
    let failed: Result<Option<(usize, usize)>, String> = Err("no".to_string());
    match mux.continue_move(&mut activities, &decided, failed, None, None, 70, MAIN) {
        Err(MoveFailure::Domain(err)) => assert_eq!(err, "no"),
        _ => panic!("the domain failed"),
    }
    // neither of these changed anything
    assert_eq!(activities.count(), 0);
    assert_eq!(mux.iter_windows(), vec![w]);
    assert_eq!(mux.resolve_pane_id(2), Some((1, w, 1)));
    assert!(mux.take_effects().is_empty());
    let left_alone: Result<Option<(usize, usize)>, String> = Ok(None);
    match mux.continue_move(&mut activities, &decided, left_alone.clone(), None, None, 70, MAIN) {
        Ok(MoveProgress::Moving(moving)) => assert_eq!(moving.tab.ids(), vec![2]),
        _ => panic!("the pane can be moved"),
    }
    assert_eq!(activities.count(), 1);
    assert_eq!(mux.resolve_pane_id(2), None);
    assert!(matches!(
        mux.continue_move(&mut activities, &decided, left_alone, Some(w), None, 70, MAIN),
        Err(MoveFailure::Mux(MuxError::PaneNotInTab(2)))
    ));
}

#[test]
fn the_tab_that_the_last_pane_leaves_goes() {
    let mut activities = Activities::new();
    let (mut mux, w) = setup();
    show(&mut mux, &tab_with(2, 30, &[(5, 0)]), w);
    let decided = match mux.move_pane_to_new_tab(5) {
        Ok(m) => m,
        Err(_) => panic!("the pane exists"),
    };
    let moving = match mux.begin_move(&mut activities, &decided, Some(w), None, 71, MAIN) {
        Ok(m) => m,
        Err(_) => panic!("the pane is there"),
    };
    // the size is that of the active tab in the window
    assert_eq!(moving.tab.size, size(24));
    mux.take_effects();
    assert!(mux.finish_move(&mut activities, moving, true, ReaderOffer::NoReader, MAIN).is_ok());
    assert_eq!(
        asked(&mut mux),
        vec![
            format!("Notify(TabAddedToWindow {{ tab_id: 71, window_id: {} }})", w),
            "PruneDeadWindows".to_string()
        ]
    );
    assert!(mux.get_tab(2).is_none());
    assert_eq!(mux.get_window(w).unwrap().tabs, vec![1, 71]);
    assert!(mux.get_pane(5).is_some());
    assert_eq!(mux.resolve_pane_id(5), Some((0, w, 71)));
}

#[test]
fn moving_can_fail_in_many_ways() {
    let mut activities = Activities::new();
    let (mut mux, w) = setup();
    assert!(matches!(mux.move_pane_to_new_tab(9), Err(MuxError::PaneNotFound(9))));
    show(&mut mux, &tab_with(2, 30, &[(5, 8)]), w);
    assert!(matches!(
        mux.move_pane_to_new_tab(5),
        Err(MuxError::DomainOfPaneNotFound { domain_id: 8, pane_id: 5 })
    ));
    let decided = PaneMove { pane_id: 1, domain_id: 0, src_tab: 1 };
    let mut begin = |mux: &mut Mux, d: &PaneMove, w: Option<usize>| match mux.begin_move(
        &mut activities,
        d,
        w,
        None,
        72,
        MAIN,
    ) {
        Ok(_) => panic!("cannot move"),
        Err(e) => e,
    };
    let no_tab = PaneMove { src_tab: 40, ..decided };
    assert!(matches!(begin(&mut mux, &no_tab, None), MuxError::TabNotFound(40)));
    assert!(matches!(begin(&mut mux, &decided, Some(88)), MuxError::NoSuchWindow(88)));
    let empty = mux.add_window("e".to_string(), None);
    match begin(&mut mux, &decided, Some(empty)) {
        MuxError::WindowWithoutTabs(x) => assert_eq!(x, empty),
        _ => panic!("the window is empty"),
    }
    let elsewhere = PaneMove { pane_id: 5, ..decided };
    mux.take_effects();
    assert!(matches!(begin(&mut mux, &elsewhere, None), MuxError::PaneNotInTab(5)));
    // the window that was opened for nothing is announced
    assert_eq!(asked(&mut mux).len(), 2);

    let moving = match mux.begin_move(&mut activities, &decided, Some(w), None, 73, MAIN) {
        Ok(m) => m,
        Err(_) => panic!("the pane is there"),
    };
    assert!(matches!(
        mux.finish_move(&mut activities, moving, false, ReaderOffer::NoReader, MAIN),
        Err(MuxError::ResizeFailed(1))
    ));
}

#[test]
fn a_pane_that_became_unknown_needs_its_reader_again() {
    let mut activities = Activities::new();
    let (mut mux, w) = setup();
    let decided = PaneMove { pane_id: 1, domain_id: 0, src_tab: 1 };
    let moving = match mux.begin_move(&mut activities, &decided, Some(w), None, 73, MAIN) {
        Ok(m) => m,
        Err(_) => panic!("the pane is there"),
    };
    mux.remove_pane(1);
    assert!(matches!(
        mux.finish_move(&mut activities, moving, true, ReaderOffer::Failed, MAIN),
        Err(MuxError::ReaderFailed)
    ));
    let decided = PaneMove { pane_id: 2, domain_id: 1, src_tab: 1 };
    let moving = match mux.begin_move(&mut activities, &decided, Some(w), None, 74, MAIN) {
        Ok(m) => m,
        Err(_) => panic!("the pane is there"),
    };
    mux.kill_window(w);
    match mux.finish_move(&mut activities, moving, true, ReaderOffer::NoReader, MAIN) {
        Err(MuxError::NoSuchWindow(x)) => assert_eq!(x, w),
        _ => panic!("the window has gone"),
    }
}
