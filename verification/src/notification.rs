//! What the multiplexer tells its subscribers, and what it asks of its host.
use crate::client::opt_text;
use crate::ids::{ClientId, DomainId, PaneId, TabId, WindowId};
use vstd::prelude::*;

verus! {

/// A clipboard that a pane can address.
#[derive(Clone, Copy, Debug, PartialEq, Eq, Structural)]
pub enum ClipboardSelection {
    Clipboard,
    PrimarySelection,
}

/// A number under which the host keeps an alert raised by a pane.
pub type AlertId = usize;

/// Something that happened in the multiplexer.
#[derive(Clone, Debug)]
pub enum MuxNotification {
    PaneOutput(PaneId),
    PaneAdded(PaneId),
    PaneRemoved(PaneId),
    WindowCreated(WindowId),
    WindowRemoved(WindowId),
    WindowInvalidated(WindowId),
    WindowWorkspaceChanged(WindowId),
    ActiveWorkspaceChanged(ClientId),
    Alert { pane_id: PaneId, alert: AlertId },
    Empty,
    AssignClipboard {
        pane_id: PaneId,
        selection: ClipboardSelection,
        clipboard: Option<String>,
    },
    SaveToDownloads { name: Option<String>, data: Vec<u8> },
    TabAddedToWindow { tab_id: TabId, window_id: WindowId },
    PaneFocused(PaneId),
    TabResized(TabId),
    TabTitleChanged { tab_id: TabId, title: String },
    WindowTitleChanged { window_id: WindowId, title: String },
    WorkspaceRenamed { old_workspace: String, new_workspace: String },
}

/// The contents of a notification.
#[verifier::ext_equal]
pub enum Notice {
    PaneOutput(PaneId),
    PaneAdded(PaneId),
    PaneRemoved(PaneId),
    WindowCreated(WindowId),
    WindowRemoved(WindowId),
    WindowInvalidated(WindowId),
    WindowWorkspaceChanged(WindowId),
    ActiveWorkspaceChanged(ClientId),
    Alert { pane_id: PaneId, alert: AlertId },
    Empty,
    AssignClipboard {
        pane_id: PaneId,
        selection: ClipboardSelection,
        clipboard: Option<Seq<char>>,
    },
    SaveToDownloads { name: Option<Seq<char>>, data: Seq<u8> },
    TabAddedToWindow { tab_id: TabId, window_id: WindowId },
    PaneFocused(PaneId),
    TabResized(TabId),
    TabTitleChanged { tab_id: TabId, title: Seq<char> },
    WindowTitleChanged { window_id: WindowId, title: Seq<char> },
    WorkspaceRenamed { old_workspace: Seq<char>, new_workspace: Seq<char> },
}

impl View for MuxNotification {
    type V = Notice;

    open spec fn view(&self) -> Notice {
        match *self {
            MuxNotification::PaneOutput(p) => Notice::PaneOutput(p),
            MuxNotification::PaneAdded(p) => Notice::PaneAdded(p),
            MuxNotification::PaneRemoved(p) => Notice::PaneRemoved(p),
            MuxNotification::WindowCreated(w) => Notice::WindowCreated(w),
            MuxNotification::WindowRemoved(w) => Notice::WindowRemoved(w),
            MuxNotification::WindowInvalidated(w) => Notice::WindowInvalidated(w),
            MuxNotification::WindowWorkspaceChanged(w) => Notice::WindowWorkspaceChanged(w),
            MuxNotification::ActiveWorkspaceChanged(c) => Notice::ActiveWorkspaceChanged(c),
            MuxNotification::Alert { pane_id, alert } => Notice::Alert { pane_id, alert },
            MuxNotification::Empty => Notice::Empty,
            MuxNotification::AssignClipboard { pane_id, selection, clipboard } =>
                Notice::AssignClipboard { pane_id, selection, clipboard: opt_text(clipboard) },
            MuxNotification::SaveToDownloads { name, data } => Notice::SaveToDownloads {
                name: opt_text(name),
                data: data@,
            },
            MuxNotification::TabAddedToWindow { tab_id, window_id } => Notice::TabAddedToWindow {
                tab_id,
                window_id,
            },
            MuxNotification::PaneFocused(p) => Notice::PaneFocused(p),
            MuxNotification::TabResized(t) => Notice::TabResized(t),
            MuxNotification::TabTitleChanged { tab_id, title } => Notice::TabTitleChanged {
                tab_id,
                title: title@,
            },
            MuxNotification::WindowTitleChanged { window_id, title } =>
                Notice::WindowTitleChanged { window_id, title: title@ },
            MuxNotification::WorkspaceRenamed { old_workspace, new_workspace } =>
                Notice::WorkspaceRenamed {
                old_workspace: old_workspace@,
                new_workspace: new_workspace@,
            },
        }
    }
}

/// Something that the host has to do, in the order in which it was asked.
#[derive(Clone, Debug)]
pub enum Effect {
    /// Tell the subscribers.
    Notify(MuxNotification),
    /// Announce a window from the main thread, and end the activity that led to it.
    AnnounceWindow(WindowId),
    /// End what runs in the pane.
    KillPane(PaneId),
    /// Tell the pane that it gained or lost the focus.
    FocusChanged { pane_id: PaneId, focused: bool },
    /// Connect the pane to the clipboard.
    SetClipboard(PaneId),
    /// Let the pane save downloads.
    SetDownloadHandler(PaneId),
    /// Start reading the output of the pane, after showing the banner.
    StartReader { pane_id: PaneId, banner: Option<String> },
    /// Leave the domain.
    DetachDomain(DomainId),
    /// Point the agent at the client that had input last.
    UpdateAgentTarget,
    /// Report of the panes whether they are dead, and look for dead windows.
    PruneDeadWindows,
    /// The same from the main thread, when it comes to that.
    SchedulePrune,
    /// Try again from the main thread to look for dead windows.
    SchedulePruneRetry,
}

/// The contents of an effect.
#[verifier::ext_equal]
pub enum Deed {
    Notify(Notice),
    AnnounceWindow(WindowId),
    KillPane(PaneId),
    FocusChanged { pane_id: PaneId, focused: bool },
    SetClipboard(PaneId),
    SetDownloadHandler(PaneId),
    StartReader { pane_id: PaneId, banner: Option<Seq<char>> },
    DetachDomain(DomainId),
    UpdateAgentTarget,
    PruneDeadWindows,
    SchedulePrune,
    SchedulePruneRetry,
}

impl View for Effect {
    type V = Deed;

    open spec fn view(&self) -> Deed {
        match *self {
            Effect::Notify(n) => Deed::Notify(n@),
            Effect::AnnounceWindow(w) => Deed::AnnounceWindow(w),
            Effect::KillPane(p) => Deed::KillPane(p),
            Effect::FocusChanged { pane_id, focused } => Deed::FocusChanged { pane_id, focused },
            Effect::SetClipboard(p) => Deed::SetClipboard(p),
            Effect::SetDownloadHandler(p) => Deed::SetDownloadHandler(p),
            Effect::StartReader { pane_id, banner } => Deed::StartReader {
                pane_id,
                banner: opt_text(banner),
            },
            Effect::DetachDomain(d) => Deed::DetachDomain(d),
            Effect::UpdateAgentTarget => Deed::UpdateAgentTarget,
            Effect::PruneDeadWindows => Deed::PruneDeadWindows,
            Effect::SchedulePrune => Deed::SchedulePrune,
            Effect::SchedulePruneRetry => Deed::SchedulePruneRetry,
        }
    }
}

/// The contents of a list of effects.
pub open spec fn deeds(effects: Seq<Effect>) -> Seq<Deed> {
    effects.map_values(|e: Effect| e@)
}

} // verus!
