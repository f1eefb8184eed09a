//! Starting, splitting and moving panes. The domains do the work; here is decided
//! what they are asked to do, and what becomes of the tables before and after.
use crate::activity::Activities;
use crate::client::opt_text;
use crate::domain::{DomainState, SpawnTabDomain};
use crate::error::MuxError;
use crate::growth::{can_close, BuilderState, MuxWindowBuilder};
use crate::host::{GuiPosition, TerminalSize};
use crate::ids::{DomainId, PaneId, TabId, ThreadId, WindowId};
use crate::pruning::lemma_wf_kept;
use crate::removal::lemma_without_tab;
use crate::state::MuxState;
use crate::store::Mux;
use crate::tab::{new_tab, Pane, ReaderOffer, Tab, TabState};
use crate::text::{path_of_uri, stands_for};
use vstd::prelude::*;

verus! {

// ---- the working directory ----
/// The pane whose working directory has to be looked up, if any: that of the
/// current pane counts only if no directory is given and the pane is in the domain
/// in which something is to be started.
pub open spec fn cwd_source(
    command_dir: Option<Seq<char>>,
    pane: Option<Pane>,
    target_domain: DomainId,
) -> Option<PaneId> {
    match command_dir {
        Some(dir) => None,
        None => match pane {
            Some(p) => if p.domain_id == target_domain {
                Some(p.pane_id)
            } else {
                None
            },
            None => None,
        },
    }
}

/// Whether `dir` is the directory to start in, where `uri_path` is the percent-encoded
/// path of the working directory of the pane that had to be looked up.
pub open spec fn is_cwd(
    command_dir: Option<Seq<char>>,
    pane: Option<Pane>,
    target_domain: DomainId,
    uri_path: Option<Seq<char>>,
    dir: Option<Seq<char>>,
) -> bool {
    match command_dir {
        Some(given) => dir == Some(given),
        None => if cwd_source(command_dir, pane, target_domain) is Some && uri_path is Some {
            stands_for(uri_path->0, dir)
        } else {
            dir is None
        },
    }
}

/// A directory that is given counts, whatever the current pane is. Without one, the pane
/// is asked for its own exactly if it is in the domain in which something is to be
/// started; where nobody is asked, or the pane has none to tell, there is no directory.
pub proof fn law_whose_directory_counts(
    given: Seq<char>,
    pane: Pane,
    target_domain: DomainId,
    uri_path: Option<Seq<char>>,
    dir: Option<Seq<char>>,
)
    ensures
        cwd_source(Some(given), Some(pane), target_domain) is None,
        cwd_source(Some(given), None, target_domain) is None,
        is_cwd(Some(given), Some(pane), target_domain, uri_path, dir) <==> dir == Some(given),
        is_cwd(Some(given), None, target_domain, uri_path, dir) <==> dir == Some(given),
        cwd_source(None, None, target_domain) is None,
        is_cwd(None, None, target_domain, uri_path, dir) <==> dir is None,
        pane.domain_id == target_domain ==> {
            &&& cwd_source(None, Some(pane), target_domain) == Some(pane.pane_id)
            &&& is_cwd(None, Some(pane), target_domain, None, dir) <==> dir is None
            &&& uri_path matches Some(path) ==> (is_cwd(
                None,
                Some(pane),
                target_domain,
                uri_path,
                dir,
            ) <==> stands_for(path, dir))
        },
        pane.domain_id != target_domain ==> {
            &&& cwd_source(None, Some(pane), target_domain) is None
            &&& is_cwd(None, Some(pane), target_domain, uri_path, dir) <==> dir is None
        },
{
}

/// Tells which pane has to be asked for its working directory.
pub fn cwd_wanted_from(
    command_dir: &Option<String>,
    pane: Option<Pane>,
    target_domain: DomainId,
) -> (wanted: Option<PaneId>)
    ensures
        wanted == cwd_source(opt_text(*command_dir), pane, target_domain),
{
    match command_dir {
        Some(_) => None,
        None => match pane {
            Some(p) => if p.domain_id == target_domain {
                Some(p.pane_id)
            } else {
                None
            },
            None => None,
        },
    }
}

/// The directory to start in. `uri_path` is the percent-encoded path of the working
/// directory of the pane that `cwd_wanted_from` names.
pub fn resolve_cwd(
    command_dir: Option<String>,
    pane: Option<Pane>,
    target_domain: DomainId,
    uri_path: Option<String>,
) -> (dir: Option<String>)
    ensures
        is_cwd(opt_text(command_dir), pane, target_domain, opt_text(uri_path), opt_text(dir)),
{
    let wanted = cwd_wanted_from(&command_dir, pane, target_domain);
    if command_dir.is_some() {
        return command_dir;
    }
    match wanted {
        Some(_) => match uri_path {
            Some(path) => path_of_uri(path.as_str()),
            None => None,
        },
        None => None,
    }
}

/// The window that a domain is attached to before anything is started in it, if
/// that is necessary.
pub fn attach_to(state: DomainState, window_id: WindowId) -> (window: Option<WindowId>)
    ensures
        window == (if state == DomainState::Detached {
            Some(window_id)
        } else {
            None
        }),
{
    if state == DomainState::Detached {
        Some(window_id)
    } else {
        None
    }
}

// ---- splitting a pane ----
/// Where the new pane of a split comes from.
pub enum SplitSource {
    /// A command is started in a directory.
    Spawn { command_dir: Option<String> },
    /// A pane is moved.
    MovePane(PaneId),
}

/// A split that has been decided on.
#[derive(Clone, Copy, Debug, PartialEq, Eq, Structural)]
pub struct PaneSplit {
    pub pane_id: PaneId,
    pub domain_id: DomainId,
    pub window_id: WindowId,
    pub tab_id: TabId,
}

/// The size of a pane as far as it is known after a split.
#[derive(Clone, Copy, Debug, PartialEq, Eq, Structural)]
pub struct RenderableDimensions {
    pub cols: usize,
    pub viewport_rows: usize,
    pub dpi: u32,
}

/// The size of the terminal in a new pane.
pub fn split_size(dims: RenderableDimensions) -> (size: TerminalSize)
    ensures
        size == (TerminalSize {
            rows: dims.viewport_rows,
            cols: dims.cols,
            pixel_width: 0,
            pixel_height: 0,
            dpi: dims.dpi,
        }),
{
    TerminalSize {
        rows: dims.viewport_rows,
        cols: dims.cols,
        pixel_width: 0,
        pixel_height: 0,
        dpi: dims.dpi,
    }
}

impl Mux {
    /// Decides where a pane is split, and which domain does it.
    pub fn split_pane(&self, pane_id: PaneId, domain: &SpawnTabDomain) -> (split: Result<
        PaneSplit,
        MuxError,
    >)
        requires
            self@.resolved(pane_id) is Some ==> self@.can_choose(Some(pane_id), *domain),
        ensures
            match split {
                Ok(s) => {
                    &&& s.pane_id == pane_id
                    &&& self@.resolved(pane_id) matches Some((d, w, t)) && s.window_id == w
                        && s.tab_id == t
                    &&& self@.chosen_domain(Some(pane_id), *domain) matches Some(info)
                        && s.domain_id == info.domain_id
                },
                Err(e) => if self@.resolved(pane_id) is None {
                    e == MuxError::PaneIdInvalid(pane_id)
                } else {
                    &&& self@.chosen_domain(Some(pane_id), *domain) is None
                    &&& self@.explains_choice(Some(pane_id), *domain, e)
                },
            },
    {
        match self.resolve_pane_id(pane_id) {
            None => Err(MuxError::PaneIdInvalid(pane_id)),
            Some((_, window_id, tab_id)) => match self.resolve_spawn_tab_domain(
                Some(pane_id),
                domain,
            ) {
                Err(e) => Err(e),
                Ok(found) => Ok(
                    PaneSplit { pane_id, domain_id: found.domain_id, window_id, tab_id },
                ),
            },
        }
    }

    /// Completes the source of a split once the domain is attached. `uri_path` is
    /// the path of the working directory of the pane that is split, if a command is
    /// started without a directory in the domain of that pane.
    pub fn split_source(
        &self,
        split: &PaneSplit,
        source: SplitSource,
        uri_path: Option<String>,
    ) -> (completed: Result<SplitSource, MuxError>)
        ensures
            match completed {
                Ok(done) => self@.panes.contains_key(split.pane_id) && match (source, done) {
                    (
                        SplitSource::Spawn { command_dir },
                        SplitSource::Spawn { command_dir: dir },
                    ) => is_cwd(
                        opt_text(command_dir),
                        Some(self@.panes[split.pane_id]),
                        split.domain_id,
                        opt_text(uri_path),
                        opt_text(dir),
                    ),
                    (SplitSource::MovePane(p), SplitSource::MovePane(q)) => p == q,
                    _ => false,
                },
                Err(e) => !self@.panes.contains_key(split.pane_id) && e == MuxError::PaneNotFound(
                    split.pane_id,
                ),
            },
    {
        match self.get_pane(split.pane_id) {
            None => Err(MuxError::PaneNotFound(split.pane_id)),
            Some(pane) => match source {
                SplitSource::Spawn { command_dir } => {
                    let dir = resolve_cwd(command_dir, Some(pane), split.domain_id, uri_path);
                    Ok(SplitSource::Spawn { command_dir: dir })
                },
                SplitSource::MovePane(p) => Ok(SplitSource::MovePane(p)),
            },
        }
    }
}

// ---- builders ----
/// The contents of a builder that may be absent.
pub open spec fn opt_builder(builder: Option<MuxWindowBuilder>) -> Option<BuilderState> {
    match builder {
        Some(b) => Some(b@),
        None => None,
    }
}

impl MuxState {
    /// Whether a tab is dead or gone.
    pub open spec fn tab_over(self, t: TabId) -> bool {
        !self.knows_tab(t) || self.tab_dead(self.tab(t))
    }
}

impl Mux {
    /// Announces the window of a builder before the builder is dropped.
    fn close_builder(
        &mut self,
        activities: &mut Activities,
        builder: Option<MuxWindowBuilder>,
        thread: ThreadId,
    )
        requires
            old(self)@.wf(),
            can_close(opt_builder(builder), old(activities)@),
        ensures
            final(activities)@ == old(self)@.activities_closed(
                old(activities)@,
                opt_builder(builder),
                thread,
            ),
            final(self)@ == old(self)@.builder_closed(opt_builder(builder), thread),
            final(self)@.wf(),
    {
        if let Some(mut b) = builder {
            b.notify(self, activities, thread);
        }
    }
}

// ---- starting something ----
/// Something that is about to be started.
pub struct SpawnPlan {
    pub domain_id: DomainId,
    pub window_id: WindowId,
    pub size: TerminalSize,
    /// The pane whose configuration the new one takes over.
    pub config_of: Option<PaneId>,
    pub builder: Option<MuxWindowBuilder>,
}

impl MuxState {
    /// The active tab of a window.
    pub open spec fn active_tab_of(self, w: WindowId) -> Option<TabState> {
        match self.windows[w].active_tab() {
            Some(t) => Some(self.tab(t)),
            None => None,
        }
    }

    /// Why nothing can be started in a window, if so.
    pub open spec fn window_unfit(self, w: WindowId) -> Option<MuxError> {
        if !self.windows.contains_key(w) {
            Some(MuxError::NoSuchWindow(w))
        } else {
            match self.active_tab_of(w) {
                None => Some(MuxError::WindowWithoutTabs(w)),
                Some(tab) => if tab.active_pane() is None {
                    Some(MuxError::ActiveTabWithoutPanes(w))
                } else {
                    None
                },
            }
        }
    }
}

impl Mux {
    /// Decides in which domain and in which window something is started. Without a
    /// window, a new one is opened; it is announced when the plan is finished or
    /// abandoned.
    pub fn spawn_tab_or_window(
        &mut self,
        activities: &mut Activities,
        window_id: Option<WindowId>,
        domain: &SpawnTabDomain,
        size: TerminalSize,
        current_pane_id: Option<PaneId>,
        workspace_for_new_window: String,
        window_position: Option<GuiPosition>,
    ) -> (plan: Result<SpawnPlan, MuxError>)
        requires
            old(self)@.wf(),
            old(self)@.can_choose(current_pane_id, *domain),
            window_id is None ==> old(self)@.next_window < usize::MAX && old(activities)@
                < usize::MAX,
        ensures
            final(self)@.wf(),
            match plan {
                Ok(p) => {
                    &&& old(self)@.chosen_domain(current_pane_id, *domain) matches Some(info)
                        && p.domain_id == info.domain_id
                    &&& match window_id {
                        Some(w) => {
                            &&& final(self)@ == old(self)@
                            &&& final(activities)@ == old(activities)@
                            &&& old(self)@.window_unfit(w) is None
                            &&& p.window_id == w
                            &&& p.size == old(self)@.active_tab_of(w)->0.size
                            &&& p.config_of == Some(
                                old(self)@.active_tab_of(w)->0.active_pane()->0.pane_id,
                            )
                            &&& p.builder is None
                        },
                        None => {
                            &&& final(self)@ == old(self)@.window_opened(
                                Some(workspace_for_new_window@),
                                window_position,
                            )
                            &&& final(activities)@ == old(activities)@ + 1
                            &&& p.window_id == old(self)@.next_window
                            &&& p.size == size
                            &&& p.config_of is None
                            &&& opt_builder(p.builder) == Some(
                                BuilderState { window_id: p.window_id, notified: false },
                            )
                        },
                    }
                },
                Err(e) => {
                    &&& final(self)@ == old(self)@
                    &&& final(activities)@ == old(activities)@
                    &&& if old(self)@.chosen_domain(current_pane_id, *domain) is None {
                        old(self)@.explains_choice(current_pane_id, *domain, e)
                    } else {
                        window_id matches Some(w) && old(self)@.window_unfit(w) == Some(e)
                    }
                },
            },
    {
        let found = match self.resolve_spawn_tab_domain(current_pane_id, domain) {
            Err(e) => {
                return Err(e);
            },
            Ok(found) => found,
        };
        let domain_id = found.domain_id;
        match window_id {
            Some(window_id) => {
                if self.get_window(window_id).is_none() {
                    return Err(MuxError::NoSuchWindow(window_id));
                }
                match self.get_active_tab_for_window(window_id) {
                    None => Err(MuxError::WindowWithoutTabs(window_id)),
                    Some(tab) => match tab.get_active_pane() {
                        None => Err(MuxError::ActiveTabWithoutPanes(window_id)),
                        Some(pane) => Ok(
                            SpawnPlan {
                                domain_id,
                                window_id,
                                size: tab.size,
                                config_of: Some(pane.pane_id),
                                builder: None,
                            },
                        ),
                    },
                }
            },
            None => {
                let builder = self.new_empty_window(
                    activities,
                    Some(workspace_for_new_window),
                    window_position,
                );
                Ok(
                    SpawnPlan {
                        domain_id,
                        window_id: builder.window_id(),
                        size,
                        config_of: None,
                        builder: Some(builder),
                    },
                )
            },
        }
    }

    /// The pane whose working directory may count for something that is started in
    /// a domain: the current one, if it is in that domain.
    pub fn spawn_cwd_pane(&self, domain_id: DomainId, current_pane_id: Option<PaneId>) -> (pane:
        Result<Option<Pane>, MuxError>)
        ensures
            match current_pane_id {
                None => pane matches Ok(p) && p is None,
                Some(id) => match self@.resolved(id) {
                    None => pane matches Err(e) && e == MuxError::PaneIdInvalid(id),
                    Some((d, w, t)) => pane matches Ok(p) && p == (if d == domain_id
                        && self@.panes.contains_key(id) {
                        Some(self@.panes[id])
                    } else {
                        None
                    }),
                },
            },
    {
        match current_pane_id {
            None => Ok(None),
            Some(id) => match self.resolve_pane_id(id) {
                None => Err(MuxError::PaneIdInvalid(id)),
                Some((current_domain_id, _, _)) => if current_domain_id == domain_id {
                    Ok(self.get_pane(id))
                } else {
                    Ok(None)
                },
            },
        }
    }

    /// Gives up a plan. A window that was opened for it is announced all the same.
    pub fn abandon_spawn(
        &mut self,
        activities: &mut Activities,
        plan: SpawnPlan,
        thread: ThreadId,
    )
        requires
            old(self)@.wf(),
            can_close(opt_builder(plan.builder), old(activities)@),
        ensures
            final(activities)@ == old(self)@.activities_closed(
                old(activities)@,
                opt_builder(plan.builder),
                thread,
            ),
            final(self)@ == old(self)@.builder_closed(opt_builder(plan.builder), thread),
            final(self)@.wf(),
    {
        self.close_builder(activities, plan.builder, thread);
    }

    /// Finishes a plan once the domain has made the tab: the tab becomes the active
    /// one of its window. Gives back the active pane of the tab.
    pub fn finish_spawn(
        &mut self,
        activities: &mut Activities,
        plan: SpawnPlan,
        tab: &Tab,
        thread: ThreadId,
    ) -> (pane: Result<Pane, MuxError>)
        requires
            old(self)@.wf(),
            can_close(opt_builder(plan.builder), old(activities)@),
        ensures
            final(activities)@ == old(self)@.activities_closed(
                old(activities)@,
                opt_builder(plan.builder),
                thread,
            ),
            final(self)@.wf(),
            match pane {
                Ok(p) => {
                    &&& tab@.active_pane() == Some(p)
                    &&& old(self)@.windows.contains_key(plan.window_id)
                    &&& final(self)@ == old(self)@.tab_activated(
                        plan.window_id,
                        tab@.tab_id,
                    ).builder_closed(opt_builder(plan.builder), thread)
                },
                Err(e) => {
                    &&& final(self)@ == old(self)@.builder_closed(opt_builder(plan.builder), thread)
                    &&& if tab@.active_pane() is None {
                        e == MuxError::TabWithoutActivePane
                    } else {
                        e == MuxError::NoSuchWindow(plan.window_id)
                            && !old(self)@.windows.contains_key(plan.window_id)
                    }
                },
            },
    {
        let ghost s = self@;
        let done = match tab.get_active_pane() {
            None => Err(MuxError::TabWithoutActivePane),
            Some(pane) => if self.activate_tab(plan.window_id, tab.tab_id) {
                Ok(pane)
            } else {
                Err(MuxError::NoSuchWindow(plan.window_id))
            },
        };
        self.close_builder(activities, plan.builder, thread);
        done
    }
}

// ---- moving a pane to a tab of its own ----
/// A move that has been decided on.
#[derive(Clone, Copy, Debug, PartialEq, Eq, Structural)]
pub struct PaneMove {
    pub pane_id: PaneId,
    pub domain_id: DomainId,
    pub src_tab: TabId,
}

/// A pane that has left its tab and is on its way to a new one.
pub struct MovingPane {
    pub pane_id: PaneId,
    pub src_tab: TabId,
    pub window_id: WindowId,
    /// The tab that the pane moves to.
    pub tab: Tab,
    pub builder: Option<MuxWindowBuilder>,
}

/// How far a move has come once the domain of the pane has answered.
pub enum MoveProgress {
    /// The domain moved the pane by itself.
    Done { tab_id: TabId, window_id: WindowId },
    Moving(MovingPane),
}

/// Why a move failed.
pub enum MoveFailure<E> {
    /// The domain of the pane said so.
    Domain(E),
    Mux(MuxError),
}

impl MuxState {
    /// The window that a pane moves to.
    pub open spec fn move_window(self, window_id: Option<WindowId>) -> WindowId {
        match window_id {
            Some(w) => w,
            None => self.next_window,
        }
    }

    /// The state once the window is there that a pane moves to.
    pub open spec fn move_window_ready(
        self,
        window_id: Option<WindowId>,
        workspace: Option<Seq<char>>,
    ) -> MuxState {
        match window_id {
            Some(w) => self,
            None => self.window_opened(workspace, None),
        }
    }

    /// The size of the tab that a pane moves to: that of the active tab in its
    /// window, or of the tab that it leaves.
    pub open spec fn move_size(self, window_id: Option<WindowId>, src: TabId) -> TerminalSize {
        match window_id {
            Some(w) => self.active_tab_of(w)->0.size,
            None => self.tabs[src].size,
        }
    }

    /// Why a pane cannot leave its tab, if so.
    pub open spec fn move_hindered(
        self,
        pane_id: PaneId,
        src: TabId,
        window_id: Option<WindowId>,
    ) -> Option<MuxError> {
        if !self.tabs.contains_key(src) {
            Some(MuxError::TabNotFound(src))
        } else if window_id is Some && !self.windows.contains_key(window_id->0) {
            Some(MuxError::NoSuchWindow(window_id->0))
        } else if window_id is Some && self.windows[window_id->0].active_tab() is None {
            Some(MuxError::WindowWithoutTabs(window_id->0))
        } else if !self.tabs[src].holds(pane_id) {
            Some(MuxError::PaneNotInTab(pane_id))
        } else {
            None
        }
    }

    /// A pane leaves its tab.
    pub open spec fn pane_left(self, pane_id: PaneId, src: TabId) -> MuxState {
        MuxState { tabs: self.tabs.insert(src, self.tabs[src].without(pane_id)), ..self }
    }

    /// A pane arrives in its new tab; the old tab goes if nothing lives in it, and
    /// the host looks for what is dead after that unless an activity is under way.
    pub open spec fn pane_arrived(
        self,
        tab: TabState,
        w: WindowId,
        src: TabId,
        reader: ReaderOffer,
        activities: usize,
    ) -> MuxState {
        let there = self.tab_registered(tab).pane_added(
            tab.active_pane()->0,
            reader,
        ).tab_listed(tab, w);
        if !there.tab_over(src) {
            there
        } else if activities > 0 {
            there.without_tab(src)
        } else {
            there.without_tab(src).prune_asked()
        }
    }

    /// What comes of taking a pane out of its tab: `after` and `activities_after` are
    /// the state and the number of activities that it leads to.
    pub open spec fn move_begun(
        self,
        activities: usize,
        decided: PaneMove,
        window_id: Option<WindowId>,
        workspace: Option<Seq<char>>,
        tab_id: TabId,
        thread: ThreadId,
        moving: Result<MovingPane, MuxError>,
        after: MuxState,
        activities_after: usize,
    ) -> bool {
        let p = decided.pane_id;
        let src = decided.src_tab;
        let ready = self.move_window_ready(window_id, workspace);
        let builder = match window_id {
            Some(w) => None,
            None => Some(BuilderState { window_id: self.next_window, notified: false }),
        };
        let opened = match window_id {
            Some(w) => activities,
            None => (activities + 1) as usize,
        };
        match moving {
            Ok(m) => {
                &&& self.move_hindered(p, src, window_id) is None
                &&& after == ready.pane_left(p, src)
                &&& activities_after == opened
                &&& m.pane_id == p
                &&& m.src_tab == src
                &&& m.window_id == self.move_window(window_id)
                &&& m.tab@ == new_tab(tab_id, self.move_size(window_id, src)).assigned(
                    self.tabs[src].panes[self.tabs[src].place_of(p)],
                )
                &&& opt_builder(m.builder) == builder
            },
            Err(e) => {
                &&& self.move_hindered(p, src, window_id) == Some(e)
                &&& if e == MuxError::PaneNotInTab(p) {
                    &&& after == ready.builder_closed(builder, thread)
                    &&& activities_after == ready.activities_closed(opened, builder, thread)
                } else {
                    &&& after == self
                    &&& activities_after == activities
                }
            },
        }
    }
}

proof fn lemma_pane_left(s: MuxState, pane_id: PaneId, src: TabId)
    requires
        s.wf(),
        s.tabs.contains_key(src),
    ensures
        s.pane_left(pane_id, src).wf(),
{
    let after = s.pane_left(pane_id, src);
    assert(after.tabs.dom() =~= s.tabs.dom());
    assert forall|w: WindowId, t: TabId| #[trigger] after.lists_in(w, t) implies after.knows_tab(
        t,
    ) by {
        assert(s.lists_in(w, t));
        assert(s.knows_tab(t));
    }
    assert(after.sound());
    lemma_wf_kept(s, after);
}

impl Mux {
    /// Decides which domain is asked first to move a pane to a tab of its own.
    pub fn move_pane_to_new_tab(&self, pane_id: PaneId) -> (decided: Result<PaneMove, MuxError>)
        ensures
            match self@.resolved(pane_id) {
                None => decided matches Err(e) && e == MuxError::PaneNotFound(pane_id),
                Some((d, w, t)) => if self@.domains.contains_key(d) {
                    decided matches Ok(m) && m == (PaneMove { pane_id, domain_id: d, src_tab: t })
                } else {
                    decided matches Err(e) && e == (MuxError::DomainOfPaneNotFound {
                        domain_id: d,
                        pane_id,
                    })
                },
            },
    {
        match self.resolve_pane_id(pane_id) {
            None => Err(MuxError::PaneNotFound(pane_id)),
            Some((domain_id, _, src_tab)) => if self.get_domain(domain_id).is_some() {
                Ok(PaneMove { pane_id, domain_id, src_tab })
            } else {
                Err(MuxError::DomainOfPaneNotFound { domain_id, pane_id })
            },
        }
    }

    /// Takes a pane out of its tab, if its domain did not move it. The new tab gets
    /// the id `tab_id`. Without a window, a new one is opened; if the move fails
    /// after that, it is announced at once.
    pub fn begin_move(
        &mut self,
        activities: &mut Activities,
        decided: &PaneMove,
        window_id: Option<WindowId>,
        workspace_for_new_window: Option<String>,
        tab_id: TabId,
        thread: ThreadId,
    ) -> (moving: Result<MovingPane, MuxError>)
        requires
            old(self)@.wf(),
            window_id is None ==> old(self)@.next_window < usize::MAX && old(activities)@
                < usize::MAX,
        ensures
            final(self)@.wf(),
            old(self)@.move_begun(
                old(activities)@,
                *decided,
                window_id,
                opt_text(workspace_for_new_window),
                tab_id,
                thread,
                moving,
                final(self)@,
                final(activities)@,
            ),
    {
        let ghost s = self@;
        let src = decided.src_tab;
        let src_size = match self.get_tab(src) {
            None => {
                return Err(MuxError::TabNotFound(src));
            },
            Some(tab) => tab.size,
        };
        let mut builder: Option<MuxWindowBuilder> = None;
        let size: TerminalSize;
        let target: WindowId;
        match window_id {
            Some(w) => {
                if self.get_window(w).is_none() {
                    return Err(MuxError::NoSuchWindow(w));
                }
                match self.get_active_tab_for_window(w) {
                    None => {
                        return Err(MuxError::WindowWithoutTabs(w));
                    },
                    Some(tab) => {
                        size = tab.size;
                    },
                }
                target = w;
            },
            None => {
                let b = self.new_empty_window(activities, workspace_for_new_window, None);
                target = b.window_id();
                builder = Some(b);
                size = src_size;
            },
        }
        let ghost ready = self@;
        let taken = match self.take_tab(src) {
            None => None,
            Some(mut tab) => {
                let pane = tab.remove_pane(decided.pane_id);
                self.put_tab(src, tab);
                pane
            },
        };
        proof {
            lemma_pane_left(ready, decided.pane_id, src);
            assert(self@.tabs =~= ready.pane_left(decided.pane_id, src).tabs);
        }
        match taken {
            None => {
                assert(self@.tabs =~= ready.tabs);
                self.close_builder(activities, builder, thread);
                Err(MuxError::PaneNotInTab(decided.pane_id))
            },
            Some(pane) => {
                let mut tab = Tab::new(tab_id, size);
                tab.assign_pane(pane);
                Ok(
                    MovingPane {
                        pane_id: decided.pane_id,
                        src_tab: src,
                        window_id: target,
                        tab,
                        builder,
                    },
                )
            },
        }
    }

    /// Goes on with a move once the domain of the pane has answered: a domain that
    /// moved the pane by itself has the last word, and so has one that failed; if it
    /// left the move to the multiplexer, the pane is taken out of its tab.
    pub fn continue_move<E>(
        &mut self,
        activities: &mut Activities,
        decided: &PaneMove,
        answer: Result<Option<(TabId, WindowId)>, E>,
        window_id: Option<WindowId>,
        workspace_for_new_window: Option<String>,
        tab_id: TabId,
        thread: ThreadId,
    ) -> (progress: Result<MoveProgress, MoveFailure<E>>)
        requires
            old(self)@.wf(),
            window_id is None && answer is Ok && answer->Ok_0 is None
                ==> old(self)@.next_window < usize::MAX && old(activities)@ < usize::MAX,
        ensures
            final(self)@.wf(),
            match answer {
                Ok(Some(ids)) => {
                    &&& progress == Ok::<MoveProgress, MoveFailure<E>>(
                        MoveProgress::Done { tab_id: ids.0, window_id: ids.1 },
                    )
                    &&& final(self)@ == old(self)@
                    &&& final(activities)@ == old(activities)@
                },
                Err(e) => {
                    &&& progress == Err::<MoveProgress, MoveFailure<E>>(MoveFailure::Domain(e))
                    &&& final(self)@ == old(self)@
                    &&& final(activities)@ == old(activities)@
                },
                Ok(None) => {
                    let moving = match progress {
                        Ok(MoveProgress::Moving(m)) => Some(Ok(m)),
                        Err(MoveFailure::Mux(e)) => Some(Err(e)),
                        _ => None,
                    };
                    &&& moving is Some
                    &&& old(self)@.move_begun(
                        old(activities)@,
                        *decided,
                        window_id,
                        opt_text(workspace_for_new_window),
                        tab_id,
                        thread,
                        moving->0,
                        final(self)@,
                        final(activities)@,
                    )
                },
            },
    {
        match answer {
            Err(e) => Err(MoveFailure::Domain(e)),
            Ok(Some((tab_id, window_id))) => Ok(MoveProgress::Done { tab_id, window_id }),
            Ok(None) => match self.begin_move(
                activities,
                decided,
                window_id,
                workspace_for_new_window,
                tab_id,
                thread,
            ) {
                Ok(moving) => Ok(MoveProgress::Moving(moving)),
                Err(e) => Err(MoveFailure::Mux(e)),
            },
        }
    }

    /// Puts a pane that has left its tab into the new one, once the pane has been
    /// resized, and removes the old tab if nothing lives in it any more. A window
    /// that was opened for the move is announced in any case.
    pub fn finish_move(
        &mut self,
        activities: &mut Activities,
        moving: MovingPane,
        resized: bool,
        reader: ReaderOffer,
        thread: ThreadId,
    ) -> (done: Result<(TabId, WindowId), MuxError>)
        requires
            old(self)@.wf(),
            can_close(opt_builder(moving.builder), old(activities)@),
            moving.tab@.active_pane() is Some,
            !old(self)@.lists_in(moving.window_id, moving.tab@.tab_id),
        ensures
            final(activities)@ == old(self)@.activities_closed(
                old(activities)@,
                opt_builder(moving.builder),
                thread,
            ),
            final(self)@.wf(),
            ({
                let s = old(self)@;
                let tab = moving.tab@;
                let w = moving.window_id;
                let pane = tab.active_pane()->0;
                let builder = opt_builder(moving.builder);
                let readable = s.panes.contains_key(pane.pane_id) || reader != ReaderOffer::Failed;
                match done {
                    Ok(ids) => {
                        &&& resized && readable && s.windows.contains_key(w)
                        &&& ids == (tab.tab_id, w)
                        &&& final(self)@ == s.pane_arrived(
                            tab,
                            w,
                            moving.src_tab,
                            reader,
                            old(activities)@,
                        ).builder_closed(builder, thread)
                    },
                    Err(e) => if !resized {
                        &&& e == MuxError::ResizeFailed(moving.pane_id)
                        &&& final(self)@ == s.builder_closed(builder, thread)
                    } else if !readable {
                        &&& e == MuxError::ReaderFailed
                        &&& final(self)@ == s.tab_registered(tab).pane_added(
                            pane,
                            reader,
                        ).builder_closed(builder, thread)
                    } else {
                        &&& e == MuxError::NoSuchWindow(w)
                        &&& !s.windows.contains_key(w)
                        &&& final(self)@ == s.tab_registered(tab).pane_added(
                            pane,
                            reader,
                        ).builder_closed(builder, thread)
                    },
                }
            }),
    {
        let ghost s = self@;
        if !resized {
            self.close_builder(activities, moving.builder, thread);
            return Err(MuxError::ResizeFailed(moving.pane_id));
        }
        match self.add_tab_and_active_pane(&moving.tab, reader) {
            Err(e) => {
                self.close_builder(activities, moving.builder, thread);
                return Err(e);
            },
            Ok(_) => {},
        }
        match self.add_tab_to_window(&moving.tab, moving.window_id) {
            Err(e) => {
                self.close_builder(activities, moving.builder, thread);
                return Err(e);
            },
            Ok(_) => {},
        }
        let ghost there = self@;
        let over = match self.known_tab(moving.src_tab) {
            Some(tab) => self.tab_is_dead(tab),
            None => true,
        };
        if over {
            proof {
                lemma_without_tab(there, moving.src_tab);
            }
            let _ = self.remove_tab_internal(moving.src_tab);
            if activities.count() == 0 {
                self.ask_for_prune();
            }
        }
        self.close_builder(activities, moving.builder, thread);
        Ok((moving.tab.tab_id, moving.window_id))
    }
}

} // verus!
