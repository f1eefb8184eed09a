use mux::clipboard::{
    Clipboard, ClipboardCopyDestination, ClipboardPasteSource, InputOp, PasteResult, TermWindow,
};
use mux::error::{MuxError, SessionTerminated};
use mux::global::{MuxClipboard, MuxDownloader, OutputSent};
use mux::host::Platform;
use mux::notification::{ClipboardSelection, Effect, MuxNotification};
use mux::tab::{Pane, ReaderOffer};
use mux::win_child::ExitStatus;
use mux::{Activities, Mux};

fn slot_with_mux() -> Option<Mux> {
    let mut slot: Option<Mux> = None;
    Mux::set_mux(&mut slot, Mux::new(None, false, None, 1));
    slot
}

fn asked(slot: &mut Option<Mux>) -> Vec<String> {
    slot.as_mut().unwrap().take_effects().iter().map(|e| format!("{:?}", e)).collect()
}

#[test]
fn the_slot_holds_one_multiplexer() {
    let mut slot: Option<Mux> = None;
    assert!(Mux::try_get(&slot).is_none());
    assert!(Mux::set_mux(&mut slot, Mux::new(None, false, None, 1)).is_none());
    assert!(Mux::try_get(&slot).is_some());
    assert!(Mux::get(&slot).is_empty());
    assert!(Mux::set_mux(&mut slot, Mux::new(None, false, None, 2)).is_some());
    assert!(Mux::get(&slot).is_main_thread(2));
    assert!(!Mux::get(&slot).is_main_thread(1));
}

#[test]
fn activities_count_for_every_multiplexer() {
    let mut slot = slot_with_mux();
    let mut activities = Activities::new();
    activities.begin();
    activities.begin();
    let mut before = Mux::set_mux(&mut slot, Mux::new(None, false, None, 1)).unwrap();
    let mux = slot.as_mut().unwrap();
    for mux in [&mut before, &mut *mux] {
        let w = mux.add_window("a".to_string(), None);
        mux.prune_dead_windows(&activities);
        assert_eq!(mux.iter_windows(), vec![w]);
    }
    activities.end();
    mux.end_activity(&mut activities);
    assert_eq!(activities.count(), 0);
    assert_eq!(asked(&mut slot), vec!["SchedulePrune"]);
    for mux in [&mut before, slot.as_mut().unwrap()] {
        mux.prune_dead_windows(&activities);
        assert!(mux.iter_windows().is_empty());
    }
}

#[test]
fn shutdown_ends_every_pane_and_pauses_on_windows() {
    for (platform, pause) in [(Platform::Windows, 100), (Platform::Other, 0)] {
        let mut slot = slot_with_mux();
        let mux = slot.as_mut().unwrap();
        for pane_id in [4, 2] {
            assert!(mux.add_pane(Pane { pane_id, domain_id: 0 }, ReaderOffer::NoReader).is_ok());
        }
        mux.take_effects();
        assert!(!mux.may_shut_down());
        assert_eq!(Mux::begin_shutdown(&mut slot, platform), Some(pause));
        // the multiplexer stays in use until its panes have been told
        assert!(!Mux::get(&slot).may_shut_down());
        assert_eq!(asked(&mut slot), vec!["KillPane(2)", "KillPane(4)"]);
        assert!(Mux::get(&slot).may_shut_down());
        assert!(Mux::shutdown(&mut slot).is_some());
        assert!(Mux::try_get(&slot).is_none());
        assert_eq!(Mux::begin_shutdown(&mut slot, platform), None);
        assert!(Mux::shutdown(&mut slot).is_none());
    }
}

#[test]
fn notifications_go_through_the_main_thread() {
    let mut slot = slot_with_mux();
    assert!(Mux::notify_from_any_thread(&mut slot, MuxNotification::PaneFocused(3), 1).is_none());
    assert_eq!(asked(&mut slot), vec!["Notify(PaneFocused(3))"]);
    let later = Mux::notify_from_any_thread(&mut slot, MuxNotification::PaneFocused(4), 9);
    assert!(asked(&mut slot).is_empty());
    Mux::deliver(&mut slot, later.unwrap());
    assert_eq!(asked(&mut slot), vec!["Notify(PaneFocused(4))"]);
    let mut empty: Option<Mux> = None;
    let later = Mux::notify_from_any_thread(&mut empty, MuxNotification::Empty, 1);
    assert!(later.is_some());
    Mux::deliver(&mut empty, MuxNotification::Empty);
    assert!(empty.is_none());
}

#[test]
fn output_is_told_or_the_pane_is_gone() {
    let mut slot = slot_with_mux();
    assert!(matches!(Mux::send_actions_to_mux(&mut slot, Some(5), 1), OutputSent::Told));
    assert_eq!(asked(&mut slot), vec!["Notify(PaneOutput(5))"]);
    assert!(matches!(
        Mux::send_actions_to_mux(&mut slot, Some(5), 2),
        OutputSent::TellOnMainThread(MuxNotification::PaneOutput(5))
    ));
    assert!(matches!(Mux::send_actions_to_mux(&mut slot, None, 1), OutputSent::PaneGone));
    assert!(asked(&mut slot).is_empty());
}

#[test]
fn the_clipboard_needs_a_multiplexer() {
    let clipboard = MuxClipboard { pane_id: 6 };
    let mut slot = slot_with_mux();
    assert!(clipboard
        .set_contents(&mut slot, ClipboardSelection::PrimarySelection, Some("x".to_string()))
        .is_ok());
    match slot.as_mut().unwrap().take_effects().pop() {
        Some(Effect::Notify(MuxNotification::AssignClipboard { pane_id, selection, clipboard })) => {
            assert_eq!(pane_id, 6);
            assert_eq!(selection, ClipboardSelection::PrimarySelection);
            assert_eq!(clipboard, Some("x".to_string()));
        }
        _ => panic!("the subscribers should hear of it"),
    }
    let mut empty: Option<Mux> = None;
    assert!(matches!(
        clipboard.set_contents(&mut empty, ClipboardSelection::Clipboard, None),
        Err(MuxError::NoMux)
    ));
}

#[test]
fn downloads_are_handed_to_the_subscribers() {
    let mut slot = slot_with_mux();
    MuxDownloader.save_to_downloads(&mut slot, Some("f".to_string()), vec![1, 2]);
    assert_eq!(
        asked(&mut slot),
        vec!["Notify(SaveToDownloads { name: Some(\"f\"), data: [1, 2] })"]
    );
    let mut empty: Option<Mux> = None;
    MuxDownloader.save_to_downloads(&mut empty, None, vec![1]);
    assert!(empty.is_none());
}

#[test]
fn sessions_end_for_a_reason() {
    let reasons = [
        SessionTerminated::ProcessStatus { status: ExitStatus { code: 3 } },
        SessionTerminated::Error { err: "no".to_string() },
        SessionTerminated::WindowClosed,
    ];
    assert!(matches!(
        &reasons[0],
        SessionTerminated::ProcessStatus { status } if status.code == 3
    ));
    assert!(matches!(&reasons[1], SessionTerminated::Error { err } if err == "no"));
    assert!(matches!(&reasons[2], SessionTerminated::WindowClosed));
}

#[test]
fn copies_go_to_the_clipboards_that_are_meant() {
    let window = TermWindow::new();
    let copy = |d| window.copy_to_clipboard(d, "t".to_string());
    assert_eq!(
        copy(ClipboardCopyDestination::Clipboard),
        vec![(Clipboard::Clipboard, "t".to_string())]
    );
    assert_eq!(
        copy(ClipboardCopyDestination::PrimarySelection),
        vec![(Clipboard::PrimarySelection, "t".to_string())]
    );
    assert_eq!(
        copy(ClipboardCopyDestination::ClipboardAndPrimarySelection),
        vec![
            (Clipboard::Clipboard, "t".to_string()),
            (Clipboard::PrimarySelection, "t".to_string())
        ]
    );
}

#[test]
fn a_paste_that_would_block_is_kept() {
    let mut window = TermWindow::new();
    assert_eq!(TermWindow::paste_source(ClipboardPasteSource::Clipboard), Clipboard::Clipboard);
    assert_eq!(
        TermWindow::paste_source(ClipboardPasteSource::PrimarySelection),
        Clipboard::PrimarySelection
    );
    assert_eq!(TermWindow::paste_target(Some(9), Some(1)), Some(9));
    assert_eq!(TermWindow::paste_target(None, Some(1)), Some(1));
    assert_eq!(TermWindow::paste_target(None, None), None);
    assert!(!window.paste_from_clipboard(1, "a".to_string(), PasteResult::Sent));
    assert!(window.queued.is_empty());
    assert!(!window.paste_from_clipboard(1, "b".to_string(), PasteResult::WouldBlock));
    assert!(!window.paste_from_clipboard(2, "c".to_string(), PasteResult::WouldBlock));
    assert!(window.paste_from_clipboard(1, "d".to_string(), PasteResult::Failed));
    assert_eq!(window.queued.len(), 2);
    assert_eq!(window.queued[0].0, 1);
    assert!(matches!(&window.queued[0].1, InputOp::Paste(t) if t == "b"));
    assert_eq!(window.queued[1].0, 2);
    assert!(matches!(&window.queued[1].1, InputOp::Paste(t) if t == "c"));
}
