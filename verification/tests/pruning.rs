use mux::growth::MuxWindowBuilder;
use mux::host::{Platform, TerminalSize};
use mux::notification::{Effect, MuxNotification};
use mux::tab::{Pane, ReaderOffer, Tab};
use mux::{Activities, Mux};

fn fresh() -> Mux {
    Mux::new(None, false, None, 1)
}

fn size() -> TerminalSize {
    TerminalSize { rows: 24, cols: 80, pixel_width: 0, pixel_height: 0, dpi: 96 }
}

fn tab_with(tab_id: usize, panes: &[usize]) -> Tab {
    let mut tab = Tab::new(tab_id, size());
    for p in panes {
        tab.assign_pane(Pane { pane_id: *p, domain_id: 0 });
    }
    tab
}

fn show(mux: &mut Mux, tab: &Tab, window_id: usize) {
    mux.add_tab_no_panes(tab);
    for pane in &tab.panes {
        assert!(mux.add_pane(*pane, ReaderOffer::NoReader).is_ok());
    }
    assert!(mux.add_tab_to_window(tab, window_id).is_ok());
}

/// Performs what the host has been asked to do on the main thread.
fn tick(mux: &mut Mux, activities: &Activities) -> usize {
    let mut performed = 0;
    for effect in mux.take_effects() {
        match effect {
            Effect::SchedulePrune => {
                mux.prune_dead_windows(activities);
                performed += 1;
            }
            Effect::SchedulePruneRetry => {
                mux.run_scheduled_prune(activities);
                performed += 1;
            }
            _ => {}
        }
    }
    performed
}

/// Does what the host has been asked to do at once. Panes end as soon as they are
/// told to. Gives back all that was asked.
fn settle(mux: &mut Mux, activities: &Activities) -> Vec<Effect> {
    let mut done = Vec::new();
    loop {
        let effects = mux.take_effects();
        if effects.is_empty() {
            return done;
        }
        for effect in effects {
            match effect {
                Effect::KillPane(pane_id) => mux.report_pane(pane_id, true),
                Effect::PruneDeadWindows => mux.prune_dead_windows(activities),
                _ => {}
            }
            done.push(effect);
        }
    }
}

fn in_words(effects: Vec<Effect>) -> Vec<String> {
    effects.iter().map(|e| format!("{:?}", e)).collect()
}

fn notices(mux: &mut Mux) -> Vec<String> {
    mux.take_effects().iter().map(|e| format!("{:?}", e)).collect()
}

/// Takes the multiplexer out of use, with all that the host does on the way.
fn shut_down(slot: &mut Option<Mux>) -> Option<Mux> {
    if Mux::begin_shutdown(slot, Platform::Other).is_some() {
        Mux::take_effects(slot.as_mut().unwrap());
    }
    Mux::shutdown(slot)
}

#[test]
fn prune_dead_windows_removes_empty_window_immediately() {
    let activities = Activities::new();
    let mut slot: Option<Mux> = None;
    assert!(shut_down(&mut slot).is_none());

    let mut mux = fresh();
    let window_id = mux.add_window("test".to_string(), None);

    assert_eq!(mux.iter_windows(), vec![window_id]);
    mux.prune_dead_windows(&activities);

    assert!(mux.iter_windows().is_empty());
    assert!(!mux.prune_dead_windows_retry_scheduled());

    assert!(shut_down(&mut slot).is_none());
}

#[test]
fn prune_dead_windows_retries_after_window_lock_contention() {
    let activities = Activities::new();
    let mut slot: Option<Mux> = None;
    assert!(Mux::set_mux(&mut slot, fresh()).is_none());
    let mux = slot.as_mut().unwrap();

    let window_id = mux.add_window("test".to_string(), None);

    mux.set_windows_locked(true);
    mux.prune_dead_windows(&activities);
    assert!(mux.prune_dead_windows_retry_scheduled());
    mux.set_windows_locked(false);

    assert_eq!(mux.iter_windows(), vec![window_id]);

    assert_eq!(tick(mux, &activities), 1, "scheduled prune retry should run");

    assert!(mux.iter_windows().is_empty());
    assert!(!mux.prune_dead_windows_retry_scheduled());

    assert!(shut_down(&mut slot).is_some());
}

#[test]
fn prune_dead_windows_coalesces_multiple_retries() {
    let activities = Activities::new();
    let mut slot: Option<Mux> = None;
    assert!(Mux::set_mux(&mut slot, fresh()).is_none());
    let mux = slot.as_mut().unwrap();

    let window_id = mux.add_window("test".to_string(), None);
    assert_eq!(mux.iter_windows(), vec![window_id]);

    mux.set_windows_locked(true);
    mux.prune_dead_windows(&activities);
    mux.prune_dead_windows(&activities);
    assert!(mux.prune_dead_windows_retry_scheduled());
    mux.set_windows_locked(false);

    assert_eq!(tick(mux, &activities), 1, "scheduled prune retry should run");

    assert!(mux.iter_windows().is_empty());
    assert!(!mux.prune_dead_windows_retry_scheduled());

    assert!(shut_down(&mut slot).is_some());
}

#[test]
fn prune_dead_windows_activity_deferral_is_resolved_by_activity_drop() {
    let mut activities = Activities::new();
    let mut slot: Option<Mux> = None;
    assert!(Mux::set_mux(&mut slot, fresh()).is_none());
    let mux = slot.as_mut().unwrap();

    let window_id = mux.add_window("test".to_string(), None);

    activities.begin();
    mux.prune_dead_windows(&activities);
    assert_eq!(mux.iter_windows(), vec![window_id]);
    assert!(!mux.prune_dead_windows_retry_scheduled());

    mux.end_activity(&mut activities);

    assert_eq!(tick(mux, &activities), 1, "activity drop should schedule prune_dead_windows");

    assert!(mux.iter_windows().is_empty());

    assert!(shut_down(&mut slot).is_some());
}

#[test]
fn a_retry_that_fails_again_is_followed_by_another() {
    let activities = Activities::new();
    let mut slot: Option<Mux> = None;
    Mux::set_mux(&mut slot, fresh());
    let mux = slot.as_mut().unwrap();
    mux.add_window("test".to_string(), None);
    mux.set_windows_locked(true);
    mux.prune_dead_windows(&activities);
    assert_eq!(tick(mux, &activities), 1);
    assert!(mux.prune_dead_windows_retry_scheduled());
    mux.set_windows_locked(false);
    assert_eq!(tick(mux, &activities), 1);
    assert!(!mux.prune_dead_windows_retry_scheduled());
    assert!(mux.iter_windows().is_empty());
}

#[test]
fn a_replaced_multiplexer_schedules_no_retry() {
    let activities = Activities::new();
    let mut slot: Option<Mux> = None;
    Mux::set_mux(&mut slot, fresh());
    let mut replaced = Mux::set_mux(&mut slot, fresh()).unwrap();
    replaced.add_window("test".to_string(), None);
    replaced.set_windows_locked(true);
    replaced.prune_dead_windows(&activities);
    assert!(!replaced.prune_dead_windows_retry_scheduled());
    assert!(replaced.take_effects().is_empty());
}

#[test]
fn removing_the_last_pane_removes_tab_and_window_and_says_so() {
    let activities = Activities::new();
    let mut mux = fresh();
    let w = mux.add_window("test".to_string(), None);
    show(&mut mux, &tab_with(7, &[3]), w);
    mux.take_effects();
    mux.remove_pane(3);
    assert!(mux.is_empty());
    // the host asks the pane whether it ended before anything else goes
    assert!(mux.get_tab(7).is_some());
    let told = in_words(settle(&mut mux, &activities));
    assert!(mux.get_tab(7).is_none());
    assert!(mux.iter_windows().is_empty());
    assert_eq!(
        told,
        vec![
            "KillPane(3)".to_string(),
            "Notify(PaneRemoved(3))".to_string(),
            "PruneDeadWindows".to_string(),
            format!("Notify(WindowRemoved({}))", w),
            "Notify(Empty)".to_string(),
        ]
    );
    mux.prune_dead_windows(&activities);
    assert_eq!(notices(&mut mux), vec!["Notify(Empty)".to_string()]);
}

#[test]
fn a_removed_pane_that_does_not_end_keeps_its_window() {
    let activities = Activities::new();
    let mut mux = fresh();
    let w = mux.add_window("test".to_string(), None);
    show(&mut mux, &tab_with(7, &[3]), w);
    mux.take_effects();
    mux.remove_pane(3);
    assert_eq!(
        notices(&mut mux),
        vec!["KillPane(3)", "Notify(PaneRemoved(3))", "PruneDeadWindows"]
    );
    mux.report_pane(3, false);
    mux.prune_dead_windows(&activities);
    assert!(mux.get_tab(7).is_some());
    assert_eq!(mux.iter_windows(), vec![w]);
    // once it has ended, the next prune takes them away
    mux.report_pane(3, true);
    mux.prune_dead_windows(&activities);
    assert!(mux.get_tab(7).is_none());
    assert!(mux.iter_windows().is_empty());
}

#[test]
fn pruning_keeps_the_living() {
    let activities = Activities::new();
    let mut mux = fresh();
    let w1 = mux.add_window("one".to_string(), None);
    let w2 = mux.add_window("two".to_string(), None);
    let w3 = mux.add_window("three".to_string(), None);
    show(&mut mux, &tab_with(1, &[10, 11]), w1);
    show(&mut mux, &tab_with(2, &[20]), w1);
    show(&mut mux, &tab_with(3, &[30]), w2);
    mux.take_effects();
    mux.remove_pane(20);
    settle(&mut mux, &activities);
    // tab 2 is dead, tab 1 lives, window three never had a tab
    assert_eq!(mux.iter_windows(), vec![w1, w2]);
    assert!(w3 > w2);
    assert_eq!(mux.get_window(w1).unwrap().tabs, vec![1]);
    assert!(mux.get_tab(2).is_none());
    assert!(mux.get_tab(1).is_some());
    assert_eq!(mux.iter_panes().len(), 3);
    // a second time nothing happens
    mux.take_effects();
    mux.prune_dead_windows(&activities);
    assert!(mux.take_effects().is_empty());
    assert_eq!(mux.iter_windows(), vec![w1, w2]);
    // killing one of two panes does not kill the tab
    mux.remove_pane(10);
    settle(&mut mux, &activities);
    assert!(mux.get_tab(1).is_some());
    assert_eq!(mux.iter_windows(), vec![w1, w2]);
}

#[test]
fn a_pane_shared_with_a_dead_tab_dies_with_it() {
    let activities = Activities::new();
    let mut mux = fresh();
    let w = mux.add_window("one".to_string(), None);
    show(&mut mux, &tab_with(1, &[5]), w);
    show(&mut mux, &tab_with(2, &[5, 6]), w);
    assert!(mux.remove_tab(1).is_some());
    settle(&mut mux, &activities);
    // pane 5 went with tab 1, pane 6 keeps tab 2 alive
    assert!(mux.get_pane(5).is_none());
    assert!(mux.get_pane(6).is_some());
    assert!(mux.get_tab(2).is_some());
}

#[test]
fn pruning_again_changes_nothing() {
    let activities = Activities::new();
    let mut mux = fresh();
    let w = mux.add_window("one".to_string(), None);
    // panes that two tabs share do not matter
    show(&mut mux, &tab_with(1, &[10]), w);
    show(&mut mux, &tab_with(2, &[10, 12]), w);
    show(&mut mux, &tab_with(3, &[12, 13]), w);
    mux.report_pane(10, true);
    mux.prune_dead_windows(&activities);
    let left = mux.get_window(w).unwrap().tabs.clone();
    assert_eq!(left, vec![2, 3]);
    mux.take_effects();
    mux.prune_dead_windows(&activities);
    assert!(mux.take_effects().is_empty());
    assert_eq!(mux.get_window(w).unwrap().tabs, left);
}

#[test]
fn the_active_tab_survives_the_removal_of_others() {
    let activities = Activities::new();
    let mut mux = fresh();
    let w = mux.add_window("one".to_string(), None);
    show(&mut mux, &tab_with(1, &[1]), w);
    show(&mut mux, &tab_with(2, &[2]), w);
    show(&mut mux, &tab_with(3, &[3]), w);
    assert!(mux.focus_pane_and_containing_tab(3).is_ok());
    assert_eq!(mux.get_active_tab_for_window(w).unwrap().tab_id, 3);
    assert!(mux.remove_tab(1).is_some());
    settle(&mut mux, &activities);
    assert_eq!(mux.get_active_tab_for_window(w).unwrap().tab_id, 3);
    assert!(mux.remove_tab(3).is_some());
    settle(&mut mux, &activities);
    assert_eq!(mux.get_active_tab_for_window(w).unwrap().tab_id, 2);
    assert!(mux.remove_tab(3).is_none());
}

#[test]
fn a_removed_tab_is_given_back() {
    let mut mux = fresh();
    let w = mux.add_window("one".to_string(), None);
    show(&mut mux, &tab_with(1, &[1, 2]), w);
    let tab = mux.remove_tab(1).unwrap();
    assert_eq!(tab.tab_id, 1);
    assert_eq!(tab.ids(), vec![1, 2]);
    assert!(mux.is_empty());
}

#[test]
fn a_tab_that_could_not_be_struck_is_pruned_later() {
    let activities = Activities::new();
    let mut slot: Option<Mux> = None;
    Mux::set_mux(&mut slot, fresh());
    let mux = slot.as_mut().unwrap();
    let w = mux.add_window("one".to_string(), None);
    show(mux, &tab_with(1, &[1]), w);
    mux.take_effects();
    mux.set_windows_locked(true);
    assert!(mux.remove_tab(1).is_some());
    // the window still lists the tab, which is no longer registered
    assert!(mux.get_tab(1).is_none());
    assert_eq!(mux.get_window(w).unwrap().tabs, vec![1]);
    assert_eq!(mux.get_active_tab_for_window(w).unwrap().tab_id, 1);
    mux.take_effects();
    mux.prune_dead_windows(&activities);
    mux.set_windows_locked(false);
    assert_eq!(tick(mux, &activities), 1);
    assert!(mux.iter_windows().is_empty());
}

#[test]
fn killing_a_window_leaves_its_domains() {
    let activities = Activities::new();
    let mut mux = fresh();
    for (id, detachable) in [(0, false), (1, true), (2, true)] {
        mux.add_domain(&mux::domain::Domain {
            domain_id: id,
            domain_name: format!("d{}", id),
            detachable,
        });
    }
    let w = mux.add_window("one".to_string(), None);
    let mut tab = Tab::new(4, size());
    for (p, d) in [(1, 0), (2, 2), (3, 2), (4, 9)] {
        tab.assign_pane(Pane { pane_id: p, domain_id: d });
    }
    show(&mut mux, &tab, w);
    mux.take_effects();
    mux.kill_window(w);
    let told = in_words(settle(&mut mux, &activities));
    // only the domain that can be left is left, and only once
    assert_eq!(told[0], "DetachDomain(2)");
    assert_eq!(told.iter().filter(|n| n.starts_with("Detach")).count(), 1);
    assert_eq!(told.last().unwrap(), "Notify(Empty)");
    assert!(mux.get_window(w).is_none());
    assert!(mux.get_tab(4).is_none());
    assert!(mux.is_empty());
    // an unknown window only leads to a prune
    mux.kill_window(99);
    assert_eq!(
        in_words(settle(&mut mux, &activities)),
        vec!["PruneDeadWindows".to_string(), "Notify(Empty)".to_string()]
    );
}

#[test]
fn a_domain_that_goes_takes_its_panes_along() {
    let activities = Activities::new();
    let mut mux = fresh();
    let w = mux.add_window("one".to_string(), None);
    let mut tab = Tab::new(4, size());
    tab.assign_pane(Pane { pane_id: 1, domain_id: 0 });
    tab.assign_pane(Pane { pane_id: 2, domain_id: 5 });
    show(&mut mux, &tab, w);
    let mut other = Tab::new(5, size());
    other.assign_pane(Pane { pane_id: 3, domain_id: 5 });
    show(&mut mux, &other, w);
    mux.take_effects();
    mux.domain_was_detached(5);
    assert_eq!(
        in_words(settle(&mut mux, &activities)),
        vec![
            "KillPane(2)",
            "KillPane(3)",
            "KillPane(2)",
            "Notify(PaneRemoved(2))",
            "KillPane(3)",
            "Notify(PaneRemoved(3))",
            "PruneDeadWindows",
        ]
    );
    let left: Vec<usize> = mux.iter_panes().iter().map(|p| p.pane_id).collect();
    assert_eq!(left, vec![1]);
    assert!(mux.get_tab(5).is_none());
    assert!(mux.get_tab(4).is_some());
    assert_eq!(mux.get_window(w).unwrap().tabs, vec![4]);
}

#[test]
fn a_new_window_is_safe_until_it_is_announced() {
    let mut activities = Activities::new();
    let mut mux = fresh();
    let mut builder: MuxWindowBuilder = mux.new_empty_window(&mut activities, Some("ws".to_string()), None);
    let w = builder.window_id();
    mux.prune_dead_windows(&activities);
    assert_eq!(mux.iter_windows(), vec![w]);
    builder.notify(&mut mux, &mut activities, 1);
    assert_eq!(
        notices(&mut mux),
        vec![format!("Notify(WindowCreated({}))", w), "SchedulePrune".to_string()]
    );
    // only the first time
    builder.notify(&mut mux, &mut activities, 1);
    assert!(mux.take_effects().is_empty());
    mux.prune_dead_windows(&activities);
    assert!(mux.iter_windows().is_empty());
}

#[test]
fn off_the_main_thread_the_host_announces_the_window() {
    let mut activities = Activities::new();
    let mut mux = fresh();
    let mut builder = mux.new_empty_window(&mut activities, None, None);
    let w = builder.window_id();
    assert_eq!(mux.get_window(w).unwrap().workspace, "default");
    builder.notify(&mut mux, &mut activities, 2);
    assert_eq!(notices(&mut mux), vec![format!("AnnounceWindow({})", w)]);
    mux.prune_dead_windows(&activities);
    assert_eq!(mux.iter_windows(), vec![w]);
    mux.announce_window(&mut activities, w);
    assert_eq!(
        notices(&mut mux),
        vec![format!("Notify(WindowCreated({}))", w), "SchedulePrune".to_string()]
    );
}

#[test]
fn empty_is_told_only_when_no_pane_is_left() {
    let activities = Activities::new();
    let mut mux = fresh();
    let w = mux.add_window("one".to_string(), None);
    show(&mut mux, &tab_with(1, &[1]), w);
    show(&mut mux, &tab_with(2, &[2]), w);
    mux.take_effects();
    mux.remove_pane(1);
    for e in settle(&mut mux, &activities) {
        assert!(!matches!(e, Effect::Notify(MuxNotification::Empty)));
    }
    mux.remove_pane(2);
    let effects = settle(&mut mux, &activities);
    assert!(matches!(effects.last(), Some(Effect::Notify(MuxNotification::Empty))));
}

#[test]
fn a_pane_that_ends_by_itself_is_pruned() {
    let activities = Activities::new();
    let mut mux = fresh();
    let w = mux.add_window("one".to_string(), None);
    show(&mut mux, &tab_with(1, &[1]), w);
    show(&mut mux, &tab_with(2, &[2]), w);
    mux.take_effects();
    mux.report_pane(1, true);
    assert!(mux.take_effects().is_empty());
    assert!(mux.get_tab(1).is_some());
    mux.prune_dead_windows(&activities);
    assert!(mux.get_tab(1).is_none());
    assert!(mux.get_pane(1).is_none());
    assert_eq!(mux.get_window(w).unwrap().tabs, vec![2]);
}
