//! Adding panes, tabs and windows.
use crate::activity::Activities;
use crate::client::opt_text;
use crate::error::MuxError;
use crate::host::GuiPosition;
use crate::ids::{PaneId, TabId, ThreadId, WindowId};
use crate::notification::{Deed, Effect, MuxNotification};
use crate::pruning::lemma_wf_kept;
use crate::removal::lemma_same_tables;
use crate::state::MuxState;
use crate::store::Mux;
use crate::tab::{Pane, ReaderOffer, Tab, TabState};
use crate::window::{Window, WindowState};
use vstd::prelude::*;

verus! {

pub proof fn lemma_pane_taken_up(s: MuxState, pane: Pane)
    requires
        s.wf(),
    ensures
        s.pane_taken_up(pane).wf(),
{
    let after = s.pane_taken_up(pane);
    assert forall|w: WindowId, t: TabId| #[trigger] after.lists_in(w, t) implies after.knows_tab(
        t,
    ) by {
        assert(s.lists_in(w, t));
        assert(s.knows_tab(t));
    }
    assert(after.sound());
    lemma_wf_kept(s, after);
}

pub proof fn lemma_tab_registered(s: MuxState, tab: TabState)
    requires
        s.wf(),
    ensures
        s.tab_registered(tab).wf(),
{
    let after = s.tab_registered(tab);
    assert forall|w: WindowId, t: TabId| #[trigger] after.lists_in(w, t) implies after.knows_tab(
        t,
    ) by {
        assert(s.lists_in(w, t));
        assert(s.knows_tab(t));
    }
    assert(after.sound());
    assert forall|t: TabId| #[trigger] after.orphans.contains_key(t) implies after.lists(t) by {
        assert(s.orphans.contains_key(t));
        let w = choose|w: WindowId| s.lists_in(w, t);
        assert(after.lists_in(w, t));
    }
}

proof fn lemma_tab_updated(s: MuxState, tab: TabState)
    requires
        s.wf(),
    ensures
        s.tab_updated(tab).wf(),
{
    let after = s.tab_updated(tab);
    assert(after.tabs.dom() =~= s.tabs.dom());
    assert(after.orphans.dom() =~= s.orphans.dom());
    assert forall|w: WindowId, t: TabId| #[trigger] after.lists_in(w, t) implies after.knows_tab(
        t,
    ) by {
        assert(s.lists_in(w, t));
        assert(s.knows_tab(t));
    }
    assert(after.sound());
    lemma_wf_kept(s, after);
}

/// The state after a tab was appended to a window, before the panes are counted.
pub open spec fn appended(s: MuxState, tab: TabState, w: WindowId) -> MuxState {
    MuxState {
        orphans: if s.knows_tab(tab.tab_id) {
            s.orphans
        } else {
            s.orphans.insert(tab.tab_id, tab)
        },
        windows: s.windows.insert(
            w,
            WindowState { tabs: s.windows[w].tabs.push(tab.tab_id), ..s.windows[w] },
        ),
        ..s
    }
}

pub proof fn lemma_appended(s: MuxState, tab: TabState, w: WindowId)
    requires
        s.wf(),
        s.windows.contains_key(w),
        !s.lists_in(w, tab.tab_id),
    ensures
        appended(s, tab, w).wf(),
        s.tab_listed(tab, w).wf(),
{
    let after = appended(s, tab, w);
    let was = s.windows[w].tabs;
    let now = was.push(tab.tab_id);
    assert(after.windows[w].wf()) by {
        assert(s.windows[w].wf());
        assert forall|i: int, j: int| 0 <= i < now.len() && 0 <= j < now.len() && i != j implies now[i]
            != now[j] by {
            if i < was.len() {
                assert(was.contains(was[i]));
            }
            if j < was.len() {
                assert(was.contains(was[j]));
            }
        }
    }
    assert forall|v: WindowId, t: TabId| #[trigger] after.lists_in(v, t) implies after.knows_tab(
        t,
    ) by {
        if v == w && t == tab.tab_id {
        } else {
            if v == w {
                let i = now.index_of(t);
                assert(was[i] == t);
                assert(was.contains(t));
            }
            assert(s.lists_in(v, t));
            assert(s.knows_tab(t));
        }
    }
    assert(after.windows.dom() =~= s.windows.dom());
    assert(after.sound());
    assert forall|t: TabId| #[trigger] after.orphans.contains_key(t) implies after.lists(t) by {
        if t == tab.tab_id && !s.knows_tab(t) {
            assert(now[now.len() - 1] == t);
            assert(after.lists_in(w, t));
        } else {
            assert(s.orphans.contains_key(t));
            let v = choose|v: WindowId| s.lists_in(v, t);
            if v == w {
                let i = was.index_of(t);
                assert(now[i] == t);
            }
            assert(after.lists_in(v, t));
        }
    }
    lemma_same_tables(after, s.tab_listed(tab, w));
}

/// Adding a window leaves a well-formed state.
pub proof fn lemma_window_added(s: MuxState, workspace: Seq<char>, position: Option<GuiPosition>)
    requires
        s.wf(),
        s.next_window < usize::MAX,
    ensures
        s.window_added(workspace, position).wf(),
{
    let after = s.window_added(workspace, position);
    let id = s.next_window;
    assert(!s.windows.contains_key(id));
    assert forall|v: WindowId, t: TabId| #[trigger] after.lists_in(v, t) implies after.knows_tab(
        t,
    ) by {
        if v != id {
            assert(s.lists_in(v, t));
            assert(s.knows_tab(t));
        }
    }
    assert(after.sound());
    assert forall|t: TabId| #[trigger] after.orphans.contains_key(t) implies after.lists(t) by {
        assert(s.orphans.contains_key(t));
        let v = choose|v: WindowId| s.lists_in(v, t);
        assert(after.lists_in(v, t));
    }
}

impl Mux {
    /// Takes a pane up, which is then to be asked for the reader of its output. The
    /// answer is whether the pane is new; nothing happens if it is known already.
    pub fn take_up_pane(&mut self, pane: Pane) -> (new: bool)
        requires
            old(self)@.wf(),
        ensures
            new == !old(self)@.panes.contains_key(pane.pane_id),
            final(self)@ == (if new {
                old(self)@.pane_taken_up(pane)
            } else {
                old(self)@
            }),
            final(self)@.wf(),
    {
        proof {
            lemma_pane_taken_up(self@, pane);
        }
        if self.pane_at(pane.pane_id).is_some() {
            return false;
        }
        self.ask(Effect::SetClipboard(pane.pane_id));
        self.ask(Effect::SetDownloadHandler(pane.pane_id));
        self.put_pane(pane.pane_id, pane);
        true
    }

    /// Puts a pane to work that has been taken up. `reader` is what the pane said
    /// when it was asked for the reader of its output.
    pub fn begin_pane(&mut self, pane_id: PaneId, reader: ReaderOffer) -> (done: Result<
        (),
        MuxError,
    >)
        requires
            old(self)@.wf(),
        ensures
            final(self)@ == old(self)@.pane_begun(pane_id, reader),
            final(self)@.wf(),
            match done {
                Ok(_) => reader != ReaderOffer::Failed,
                Err(e) => e == MuxError::ReaderFailed && reader == ReaderOffer::Failed,
            },
    {
        let ghost s = self@;
        proof {
            lemma_same_tables(s, s.pane_begun(pane_id, reader));
        }
        match reader {
            ReaderOffer::Failed => {
                return Err(MuxError::ReaderFailed);
            },
            ReaderOffer::NoReader => {},
            ReaderOffer::Reader => {
                let banner = self.banner_copy();
                self.ask(Effect::StartReader { pane_id, banner });
                proof {
                    lemma_same_tables(s, self@);
                }
            },
        }
        self.recompute_pane_count();
        self.ask(Effect::Notify(MuxNotification::PaneAdded(pane_id)));
        Ok(())
    }

    /// Adds a pane. `reader` is what the pane says when it is asked for the reader
    /// of its output; it plays no part if the pane is known already.
    pub fn add_pane(&mut self, pane: Pane, reader: ReaderOffer) -> (done: Result<(), MuxError>)
        requires
            old(self)@.wf(),
        ensures
            final(self)@ == old(self)@.pane_added(pane, reader),
            final(self)@.wf(),
            match done {
                Ok(_) => old(self)@.panes.contains_key(pane.pane_id) || reader
                    != ReaderOffer::Failed,
                Err(e) => {
                    &&& e == MuxError::ReaderFailed
                    &&& !old(self)@.panes.contains_key(pane.pane_id)
                    &&& reader == ReaderOffer::Failed
                },
            },
    {
        if self.take_up_pane(pane) {
            self.begin_pane(pane.pane_id, reader)
        } else {
            Ok(())
        }
    }

    /// Enters a tab in the register.
    pub fn add_tab_no_panes(&mut self, tab: &Tab)
        requires
            old(self)@.wf(),
        ensures
            final(self)@ == old(self)@.tab_registered(tab@).recounted(),
            final(self)@.wf(),
    {
        let ghost s = self@;
        proof {
            lemma_same_tables(s.tab_registered(tab@), s.tab_registered(tab@).recounted());
        }
        self.register_tab(tab);
        self.recompute_pane_count();
    }

    /// Enters a tab in the register, and leaves the counts of panes for later.
    pub fn register_tab(&mut self, tab: &Tab)
        requires
            old(self)@.wf(),
        ensures
            final(self)@ == old(self)@.tab_registered(tab@),
            final(self)@.wf(),
    {
        proof {
            lemma_tab_registered(self@, tab@);
        }
        let copy = tab.duplicate();
        self.put_tab(tab.tab_id, copy);
        let _ = self.take_orphan(tab.tab_id);
    }

    /// Takes in what has become of a tab: its size, its panes, whether somebody is
    /// at work on it. Says whether the tab is known.
    pub fn update_tab(&mut self, tab: &Tab) -> (known: bool)
        requires
            old(self)@.wf(),
        ensures
            known == old(self)@.knows_tab(tab@.tab_id),
            final(self)@ == old(self)@.tab_updated(tab@),
            final(self)@.wf(),
    {
        let ghost s = self@;
        proof {
            lemma_tab_updated(s, tab@);
        }
        if self.tab_ref(tab.tab_id).is_some() {
            self.put_tab(tab.tab_id, tab.duplicate());
            true
        } else if self.orphan_ref(tab.tab_id).is_some() {
            self.put_orphan(tab.tab_id, tab.duplicate());
            true
        } else {
            false
        }
    }

    /// Enters a tab in the register and adds its active pane.
    pub fn add_tab_and_active_pane(&mut self, tab: &Tab, reader: ReaderOffer) -> (done: Result<
        (),
        MuxError,
    >)
        requires
            old(self)@.wf(),
        ensures
            final(self)@ == (match tab@.active_pane() {
                Some(pane) => old(self)@.tab_registered(tab@).pane_added(pane, reader),
                None => old(self)@.tab_registered(tab@),
            }),
            final(self)@.wf(),
            match done {
                Ok(_) => tab@.active_pane() is Some && (old(self)@.panes.contains_key(
                    tab@.active_pane()->0.pane_id,
                ) || reader != ReaderOffer::Failed),
                Err(e) => if tab@.active_pane() is None {
                    e == MuxError::TabWithoutActivePane
                } else {
                    &&& e == MuxError::ReaderFailed
                    &&& !old(self)@.panes.contains_key(tab@.active_pane()->0.pane_id)
                    &&& reader == ReaderOffer::Failed
                },
            },
    {
        self.register_tab(tab);
        match tab.get_active_pane() {
            None => Err(MuxError::TabWithoutActivePane),
            Some(pane) => self.add_pane(pane, reader),
        }
    }

    /// Appends a tab to a window that does not list it yet.
    pub fn add_tab_to_window(&mut self, tab: &Tab, window_id: WindowId) -> (done: Result<
        (),
        MuxError,
    >)
        requires
            old(self)@.wf(),
            !old(self)@.lists_in(window_id, tab@.tab_id),
        ensures
            final(self)@.wf(),
            match done {
                Ok(_) => old(self)@.windows.contains_key(window_id) && final(self)@
                    == old(self)@.tab_listed(tab@, window_id),
                Err(e) => {
                    &&& !old(self)@.windows.contains_key(window_id)
                    &&& final(self)@ == old(self)@
                    &&& e == MuxError::NoSuchWindow(window_id)
                },
            },
    {
        let ghost s = self@;
        let known = self.known_tab(tab.tab_id).is_some();
        match self.take_window(window_id) {
            None => {
                assert(self@.windows =~= s.windows);
                Err(MuxError::NoSuchWindow(window_id))
            },
            Some(mut window) => {
                window.push(tab.tab_id);
                self.put_window(window_id, window);
                if !known {
                    self.put_orphan(tab.tab_id, tab.duplicate());
                }
                proof {
                    lemma_appended(s, tab@, window_id);
                    assert(self@ =~= appended(s, tab@, window_id));
                }
                self.recompute_pane_count();
                self.ask(
                    Effect::Notify(
                        MuxNotification::TabAddedToWindow { tab_id: tab.tab_id, window_id },
                    ),
                );
                Ok(())
            },
        }
    }

    /// Whether `update_window` can take the window: it is in order, and all tabs that
    /// it lists are known.
    pub fn can_update_window(&self, window: &Window) -> (can: bool)
        ensures
            can == (window@.wf() && forall|i: int|
                0 <= i < window@.tabs.len() ==> self@.knows_tab(#[trigger] window@.tabs[i])),
    {
        let mut i: usize = 0;
        while i < window.tabs.len()
            invariant
                i <= window.tabs@.len(),
                forall|j: int| 0 <= j < i ==> self@.knows_tab(#[trigger] window.tabs@[j]),
                forall|j: int, k: int|
                    0 <= j < k < window.tabs@.len() && j < i ==> window.tabs@[j] != window.tabs@[k],
            decreases window.tabs@.len() - i,
        {
            let tab_id = window.tabs[i];
            if self.tab_ref(tab_id).is_none() && self.orphan_ref(tab_id).is_none() {
                assert(!self@.knows_tab(window@.tabs[i as int]));
                return false;
            }
            let mut k: usize = i + 1;
            while k < window.tabs.len()
                invariant
                    i < k <= window.tabs@.len(),
                    tab_id == window.tabs@[i as int],
                    forall|j: int| i < j < k ==> window.tabs@[j] != tab_id,
                decreases window.tabs@.len() - k,
            {
                if window.tabs[k] == tab_id {
                    assert(window@.tabs[i as int] == window@.tabs[k as int]);
                    return false;
                }
                k = k + 1;
            }
            i = i + 1;
        }
        window.active < window.tabs.len() || (window.tabs.len() == 0 && window.active == 0)
    }

    /// Takes in what has become of a window: its workspace, its tabs and their order,
    /// which tab is active. All tabs that it lists must be known. Says whether the
    /// window is known.
    pub fn update_window(&mut self, window: Window) -> (known: bool)
        requires
            old(self)@.wf(),
            window@.wf(),
            forall|i: int|
                0 <= i < window@.tabs.len() ==> old(self)@.knows_tab(#[trigger] window@.tabs[i]),
        ensures
            known == old(self)@.windows.contains_key(window@.window_id),
            final(self)@ == old(self)@.window_updated(window@),
            final(self)@.wf(),
    {
        if self.window_ref(window.window_id).is_none() {
            return false;
        }
        let ghost s = self@;
        let ghost now = window@;
        self.put_window(window.window_id, window);
        proof {
            let after = self@;
            assert(after.windows.dom() =~= s.windows.dom());
            assert forall|w: WindowId, t: TabId| #[trigger] after.lists_in(w, t) implies after.knows_tab(
                t,
            ) by {
                if w == now.window_id {
                    let i = now.tabs.index_of(t);
                    assert(s.knows_tab(now.tabs[i]));
                } else {
                    assert(s.lists_in(w, t));
                    assert(s.knows_tab(t));
                }
            }
            assert(after.sound());
        }
        self.sweep();
        true
    }

    /// Adds a window without tabs to a workspace.
    pub fn add_window(&mut self, workspace: String, position: Option<GuiPosition>) -> (window_id:
        WindowId)
        requires
            old(self)@.wf(),
            old(self)@.next_window < usize::MAX,
        ensures
            window_id == old(self)@.next_window,
            !old(self)@.windows.contains_key(window_id),
            final(self)@ == old(self)@.window_added(workspace@, position),
            final(self)@.wf(),
    {
        proof {
            lemma_window_added(self@, workspace@, position);
        }
        let window_id = self.get_next_window();
        self.put_next_window(window_id + 1);
        self.put_window(window_id, Window::new(window_id, workspace, position));
        window_id
    }

    /// The id that the next window gets.
    pub fn next_window_id(&self) -> (id: WindowId)
        ensures
            id == self@.next_window,
    {
        self.get_next_window()
    }

    /// Opens a window without tabs, by default in the active workspace. Nothing is
    /// pruned until the builder has announced it.
    pub fn new_empty_window(
        &mut self,
        activities: &mut Activities,
        workspace: Option<String>,
        position: Option<GuiPosition>,
    ) -> (builder: MuxWindowBuilder)
        requires
            old(self)@.wf(),
            old(self)@.next_window < usize::MAX,
            old(activities)@ < usize::MAX,
        ensures
            final(activities)@ == old(activities)@ + 1,
            builder@ == (BuilderState { window_id: old(self)@.next_window, notified: false }),
            final(self)@ == old(self)@.window_opened(opt_text(workspace), position),
            final(self)@.wf(),
    {
        let name = match workspace {
            Some(name) => name,
            None => self.active_workspace(),
        };
        let window_id = self.add_window(name, position);
        activities.begin();
        MuxWindowBuilder { window_id, notified: false }
    }

    /// Announces a window, from the main thread.
    pub fn announce_window(&mut self, activities: &mut Activities, window_id: WindowId)
        requires
            old(self)@.wf(),
            old(activities)@ > 0,
        ensures
            final(activities)@ == old(activities)@ - 1,
            final(self)@ == old(self)@.window_announced(window_id),
            final(self)@.wf(),
    {
        let ghost s = self@;
        self.ask(Effect::Notify(MuxNotification::WindowCreated(window_id)));
        proof {
            lemma_same_tables(s, self@);
        }
        self.end_activity(activities);
    }

    /// Whether a thread is the one on which the multiplexer was made.
    pub fn is_main_thread(&self, thread: ThreadId) -> (same: bool)
        ensures
            same == (thread == self@.main_thread),
    {
        thread == self.get_main_thread()
    }
}

/// A window that has been opened, until it is announced.
pub struct MuxWindowBuilder {
    window_id: WindowId,
    notified: bool,
}

/// What a builder is.
pub struct BuilderState {
    pub window_id: WindowId,
    pub notified: bool,
}

/// Whether a builder can be closed: the activity that its window began with is still
/// under way, unless the window was announced before.
pub open spec fn can_close(builder: Option<BuilderState>, activities: usize) -> bool {
    match builder {
        Some(b) => b.notified || activities > 0,
        None => true,
    }
}

impl MuxState {
    /// The window of a builder is announced, if there is one that was not announced
    /// before.
    pub open spec fn builder_closed(
        self,
        builder: Option<BuilderState>,
        thread: ThreadId,
    ) -> MuxState {
        match builder {
            Some(b) => if b.notified {
                self
            } else if thread == self.main_thread {
                self.window_announced(b.window_id)
            } else {
                self.asked(Deed::AnnounceWindow(b.window_id))
            },
            None => self,
        }
    }

    /// How many activities are under way after that. Off the main thread, the one of
    /// the window ends only when the host announces it.
    pub open spec fn activities_closed(
        self,
        activities: usize,
        builder: Option<BuilderState>,
        thread: ThreadId,
    ) -> usize {
        match builder {
            Some(b) => if b.notified || thread != self.main_thread {
                activities
            } else {
                (activities - 1) as usize
            },
            None => activities,
        }
    }
}

impl View for MuxWindowBuilder {
    type V = BuilderState;

    closed spec fn view(&self) -> BuilderState {
        BuilderState { window_id: self.window_id, notified: self.notified }
    }
}

impl MuxWindowBuilder {
    pub fn window_id(&self) -> (window_id: WindowId)
        ensures
            window_id == self@.window_id,
    {
        self.window_id
    }

    /// Announces the window: at once if `thread` is the main thread, and else
    /// through the host. Does so only the first time. The host has to call this
    /// before it drops the builder.
    pub fn notify(&mut self, mux: &mut Mux, activities: &mut Activities, thread: ThreadId)
        requires
            old(mux)@.wf(),
            can_close(Some(old(self)@), old(activities)@),
        ensures
            final(self)@ == (BuilderState { notified: true, ..old(self)@ }),
            final(mux)@ == old(mux)@.builder_closed(Some(old(self)@), thread),
            final(mux)@.wf(),
            final(activities)@ == old(mux)@.activities_closed(
                old(activities)@,
                Some(old(self)@),
                thread,
            ),
    {
        if self.notified {
            return ;
        }
        self.notified = true;
        if mux.is_main_thread(thread) {
            mux.announce_window(activities, self.window_id);
        } else {
            let ghost s = mux@;
            mux.ask(Effect::AnnounceWindow(self.window_id));
            proof {
                lemma_same_tables(s, mux@);
            }
        }
    }
}

} // verus!
