//! What can go wrong.
use crate::ids::{DomainId, PaneId, TabId, WindowId};
use crate::win_child::ExitStatus;
use vstd::prelude::*;

verus! {

/// Why an operation of the multiplexer failed.
pub enum MuxError {
    /// The pane could not give out the reader of its output.
    ReaderFailed,
    /// A tab was added that has no active pane.
    TabWithoutActivePane,
    /// There is no such window.
    NoSuchWindow(WindowId),
    /// There is no such pane.
    PaneNotFound(PaneId),
    /// The pane is in no tab of any window.
    PaneUnresolved(PaneId),
    /// The pane by which a domain was to be found is in no tab of any window.
    PaneIdInvalid(PaneId),
    /// There is no such tab.
    TabNotFound(TabId),
    /// The domain of a pane is not known.
    DomainOfPaneNotFound { domain_id: DomainId, pane_id: PaneId },
    /// There is no domain with that id.
    DomainIdInvalid(DomainId),
    /// There is no domain with that name, only those with the possible names.
    DomainNameInvalid { name: String, possible: Vec<String> },
    /// The window has no tabs.
    WindowWithoutTabs(WindowId),
    /// The active tab of the window has no panes.
    ActiveTabWithoutPanes(WindowId),
    /// The pane is not in the tab that should hold it.
    PaneNotInTab(PaneId),
    /// The pane could not be resized.
    ResizeFailed(PaneId),
    /// No multiplexer is in use.
    NoMux,
}

/// Why a session came to its end.
pub enum SessionTerminated {
    /// The process exited.
    ProcessStatus { status: ExitStatus },
    /// Something went wrong.
    Error { err: String },
    /// The window was closed.
    WindowClosed,
}

} // verus!
