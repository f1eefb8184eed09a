//! The state of the multiplexer, and what each operation makes of it.
use crate::client::ClientState;
use crate::domain::{DomainInfo, SpawnTabDomain};
use crate::error::MuxError;
use crate::host::GuiPosition;
use crate::id_map::in_order;
use crate::ids::{ClientId, DomainId, PaneId, TabId, ThreadId, WindowId};
use crate::notification::{Deed, Notice};
use crate::parser::saturated;
use crate::tab::{Pane, ReaderOffer, TabState};
use crate::text::names_contain;
use crate::window::{new_window, WindowState};
use vstd::prelude::*;

verus! {

/// The name of the workspace to start in unless another is configured.
pub const DEFAULT_WORKSPACE: &'static str = "default";

/// Everything that the multiplexer keeps track of.
#[verifier::ext_equal]
pub struct MuxState {
    /// The tabs that are registered.
    pub tabs: Map<TabId, TabState>,
    /// Tabs that are no longer registered but still listed by a window.
    pub orphans: Map<TabId, TabState>,
    pub panes: Map<PaneId, Pane>,
    /// The panes that were dead when the host last looked, removed ones included.
    pub dead: Set<PaneId>,
    pub windows: Map<WindowId, WindowState>,
    /// Whether another attempt to prune is on its way.
    pub retry_scheduled: bool,
    pub default_domain: Option<DomainInfo>,
    pub domains: Map<DomainId, DomainInfo>,
    pub domains_by_name: Map<Seq<char>, DomainInfo>,
    pub subscribers: Seq<usize>,
    pub next_subscriber: usize,
    pub banner: Option<Seq<char>>,
    pub clients: Map<ClientId, ClientState>,
    /// The client on whose behalf work is being done.
    pub identity: Option<ClientId>,
    /// How many panes each workspace had when they were last counted.
    pub pane_counts: Map<Seq<char>, usize>,
    pub main_thread: ThreadId,
    /// Whether an agent follows the clients around.
    pub agent: bool,
    /// The configured name of the workspace to start in.
    pub default_workspace: Option<Seq<char>>,
    /// Whether somebody else holds the table of windows right now.
    pub windows_locked: bool,
    /// Whether this is the multiplexer that the program currently uses.
    pub current: bool,
    /// Whether all panes have been told to end, before the multiplexer goes out of
    /// use.
    pub ending: bool,
    pub next_window: WindowId,
    /// What the host has been asked to do and has not fetched yet.
    pub effects: Seq<Deed>,
}

impl MuxState {
    // ---- what can be read off the state ----
    /// Whether the tab is within reach, registered or not.
    pub open spec fn knows_tab(self, t: TabId) -> bool {
        self.tabs.contains_key(t) || self.orphans.contains_key(t)
    }

    pub open spec fn tab(self, t: TabId) -> TabState {
        if self.tabs.contains_key(t) {
            self.tabs[t]
        } else {
            self.orphans[t]
        }
    }

    /// Whether the window lists the tab.
    pub open spec fn lists_in(self, w: WindowId, t: TabId) -> bool {
        self.windows.contains_key(w) && self.windows[w].tabs.contains(t)
    }

    /// Whether some window lists the tab.
    pub open spec fn lists(self, t: TabId) -> bool {
        exists|w: WindowId| self.lists_in(w, t)
    }

    /// No two subscribers have the same number, and no number is given out that is
    /// in use.
    pub open spec fn subscribers_sound(self) -> bool {
        &&& self.subscribers.no_duplicates()
        &&& forall|i: int|
            0 <= i < self.subscribers.len() ==> #[trigger] self.subscribers[i]
                < self.next_subscriber
    }

    /// What holds at all times, even in the middle of an operation.
    pub open spec fn sound(self) -> bool {
        &&& forall|t: TabId| #[trigger]
            self.tabs.contains_key(t) ==> self.tabs[t].tab_id == t && !self.orphans.contains_key(t)
        &&& forall|t: TabId| #[trigger]
            self.orphans.contains_key(t) ==> self.orphans[t].tab_id == t
        &&& forall|w: WindowId| #[trigger]
            self.windows.contains_key(w) ==> self.windows[w].window_id == w
                && self.windows[w].wf() && w < self.next_window
        &&& forall|w: WindowId, t: TabId| #[trigger] self.lists_in(w, t) ==> self.knows_tab(t)
        &&& forall|p: PaneId| #[trigger]
            self.panes.contains_key(p) ==> self.panes[p].pane_id == p
        &&& forall|c: ClientId| #[trigger]
            self.clients.contains_key(c) ==> self.clients[c].client_id == c
        &&& forall|d: DomainId| #[trigger]
            self.domains.contains_key(d) ==> self.domains[d].domain_id == d
        &&& forall|n: Seq<char>| #[trigger]
            self.domains_by_name.contains_key(n) ==> self.domains_by_name[n].domain_name == n
        &&& self.subscribers_sound()
        &&& self.tabs.dom().finite()
        &&& self.orphans.dom().finite()
        &&& self.windows.dom().finite()
        &&& self.panes.dom().finite()
    }

    /// What holds between operations.
    pub open spec fn wf(self) -> bool {
        &&& self.sound()
        &&& forall|t: TabId| #[trigger] self.orphans.contains_key(t) ==> self.lists(t)
    }

    /// Whether the registered tab holds the pane.
    pub open spec fn holds_in(self, t: TabId, p: PaneId) -> bool {
        self.tabs.contains_key(t) && self.tabs[t].holds(p)
    }

    /// The registered tab that holds the pane; the one with the greatest id if
    /// there are several.
    pub open spec fn tab_of_pane(self, p: PaneId) -> Option<TabId> {
        if exists|t: TabId| self.holds_in(t, p) {
            Some(
                choose|t: TabId|
                    self.holds_in(t, p) && forall|u: TabId| #[trigger]
                        self.holds_in(u, p) ==> u <= t,
            )
        } else {
            None
        }
    }

    /// The window that lists the tab; the one with the smallest id if there are
    /// several.
    pub open spec fn window_of_tab(self, t: TabId) -> Option<WindowId> {
        if self.lists(t) {
            Some(
                choose|w: WindowId|
                    self.lists_in(w, t) && forall|v: WindowId| #[trigger]
                        self.lists_in(v, t) ==> w <= v,
            )
        } else {
            None
        }
    }

    /// The domain, the window and the tab of a pane.
    pub open spec fn resolved(self, p: PaneId) -> Option<(DomainId, WindowId, TabId)> {
        match self.tab_of_pane(p) {
            Some(t) => match self.window_of_tab(t) {
                Some(w) => {
                    let tab = self.tabs[t];
                    Some((tab.panes[tab.place_of(p)].domain_id, w, t))
                },
                None => None,
            },
            None => None,
        }
    }

    /// The name of the workspace to start in.
    pub open spec fn starting_workspace(self) -> Seq<char> {
        match self.default_workspace {
            Some(name) => name,
            None => DEFAULT_WORKSPACE@,
        }
    }

    /// The workspace that a client looks at.
    pub open spec fn workspace_of(self, c: ClientId) -> Seq<char> {
        if self.clients.contains_key(c) && self.clients[c].active_workspace is Some {
            self.clients[c].active_workspace->0
        } else {
            self.starting_workspace()
        }
    }

    /// The workspace that the current identity looks at.
    pub open spec fn active_workspace(self) -> Seq<char> {
        match self.identity {
            Some(c) => self.workspace_of(c),
            None => self.starting_workspace(),
        }
    }

    // ---- counting panes ----
    /// The panes of a list of tabs.
    pub open spec fn panes_in_tabs(self, tabs: Seq<TabId>) -> nat
        decreases tabs.len(),
    {
        if tabs.len() == 0 {
            0
        } else {
            self.panes_in_tabs(tabs.drop_last()) + self.tab(tabs.last()).panes.len()
        }
    }

    /// The panes of those windows among `ids` that belong to the workspace.
    pub open spec fn panes_in_windows(self, ids: Seq<WindowId>, workspace: Seq<char>) -> nat
        decreases ids.len(),
    {
        if ids.len() == 0 {
            0
        } else {
            self.panes_in_windows(ids.drop_last(), workspace) + if self.windows[ids.last()].workspace
                == workspace {
                self.panes_in_tabs(self.windows[ids.last()].tabs)
            } else {
                0
            }
        }
    }

    /// The panes of all windows of a workspace.
    pub open spec fn panes_in_workspace(self, workspace: Seq<char>) -> nat {
        self.panes_in_windows(in_order(self.windows.dom()), workspace)
    }

    /// Whether a workspace has a window with a tab in it.
    pub open spec fn has_tabs(self, workspace: Seq<char>) -> bool {
        exists|w: WindowId| #[trigger]
            self.windows.contains_key(w) && self.windows[w].workspace == workspace
                && self.windows[w].tabs.len() > 0
    }

    /// Whether the panes cannot be counted, because somebody is at work on a tab.
    pub open spec fn count_blocked(self) -> bool {
        exists|w: WindowId, t: TabId| #[trigger] self.lists_in(w, t) && self.tab(t).busy
    }

    /// The number of panes of each workspace that has tabs.
    pub open spec fn counts(self) -> Map<Seq<char>, usize> {
        Map::new(
            |ws: Seq<char>| self.has_tabs(ws),
            |ws: Seq<char>| saturated(self.panes_in_workspace(ws) as int),
        )
    }

    /// The panes counted anew, if that is possible right now.
    pub open spec fn recounted(self) -> MuxState {
        if self.count_blocked() {
            self
        } else {
            MuxState { pane_counts: self.counts(), ..self }
        }
    }

    // ---- asking the host ----
    pub open spec fn asked(self, deed: Deed) -> MuxState {
        MuxState { effects: self.effects.push(deed), ..self }
    }

    pub open spec fn notified(self, notice: Notice) -> MuxState {
        self.asked(Deed::Notify(notice))
    }

    // ---- removing panes, tabs and windows ----
    /// The host reports of a pane whether it is dead.
    pub open spec fn pane_reported(self, p: PaneId, dead: bool) -> MuxState {
        MuxState {
            dead: if dead {
                self.dead.insert(p)
            } else {
                self.dead.remove(p)
            },
            ..self
        }
    }

    /// A tab is dead when all of its panes are.
    pub open spec fn tab_dead(self, tab: TabState) -> bool {
        forall|i: int|
            0 <= i < tab.panes.len() ==> self.dead.contains((#[trigger] tab.panes[i]).pane_id)
    }

    /// A pane is told to end. Whether it does so at once, the host will see.
    pub open spec fn killed(self, p: PaneId) -> MuxState {
        self.asked(Deed::KillPane(p))
    }

    /// A pane is removed and ended; nothing happens if it is not known.
    pub open spec fn without_pane(self, p: PaneId) -> MuxState {
        if self.panes.contains_key(p) {
            MuxState { panes: self.panes.remove(p), ..self }.killed(p).notified(
                Notice::PaneRemoved(p),
            ).recounted()
        } else {
            self
        }
    }

    /// Panes are removed one after another.
    pub open spec fn without_panes(self, ids: Seq<PaneId>) -> MuxState
        decreases ids.len(),
    {
        if ids.len() == 0 {
            self
        } else {
            self.without_panes(ids.drop_last()).without_pane(ids.last())
        }
    }

    /// Tabs that are neither registered nor listed are forgotten.
    pub open spec fn swept(self) -> MuxState {
        MuxState {
            orphans: self.orphans.restrict(Set::new(|t: TabId| self.lists(t))),
            ..self
        }
    }

    /// A tab is struck from the register, and from the windows unless somebody
    /// else holds them.
    pub open spec fn unregistered(self, t: TabId) -> MuxState {
        MuxState {
            tabs: self.tabs.remove(t),
            orphans: self.orphans.insert(t, self.tabs[t]),
            windows: if self.windows_locked {
                self.windows
            } else {
                self.windows.map_values(|w: WindowState| w.without(set![t]))
            },
            ..self
        }
    }

    /// A tab is removed with all its panes; nothing happens if it is not
    /// registered.
    pub open spec fn without_tab(self, t: TabId) -> MuxState {
        if self.tabs.contains_key(t) {
            self.unregistered(t).without_panes(self.tabs[t].pane_ids()).recounted().swept()
        } else {
            self
        }
    }

    /// Tabs are removed one after another.
    pub open spec fn without_tabs(self, ids: Seq<TabId>) -> MuxState
        decreases ids.len(),
    {
        if ids.len() == 0 {
            self
        } else {
            self.without_tabs(ids.drop_last()).without_tab(ids.last())
        }
    }

    /// The domains of the panes in a list of tabs.
    pub open spec fn domains_in_tabs(self, tabs: Seq<TabId>) -> Set<DomainId> {
        Set::new(|d: DomainId| self.domain_occurs(tabs, d))
    }

    pub open spec fn domain_occurs(self, tabs: Seq<TabId>, d: DomainId) -> bool {
        exists|i: int, j: int|
            0 <= i < tabs.len() && 0 <= j < self.tab(tabs[i]).panes.len() && (
            #[trigger] self.tab(tabs[i]).panes[j]).domain_id == d
    }

    /// Those of the domains that can be left are left.
    pub open spec fn domains_left(self, ids: Seq<DomainId>) -> MuxState
        decreases ids.len(),
    {
        if ids.len() == 0 {
            self
        } else {
            let before = self.domains_left(ids.drop_last());
            let d = ids.last();
            if self.domains.contains_key(d) && self.domains[d].detachable {
                before.asked(Deed::DetachDomain(d))
            } else {
                before
            }
        }
    }

    /// A window is removed with all its tabs, after its domains have been left.
    pub open spec fn without_window(self, w: WindowId) -> MuxState {
        (if self.windows.contains_key(w) {
            let tabs = self.windows[w].tabs;
            let left = self.domains_left(in_order(self.domains_in_tabs(tabs)));
            MuxState { windows: left.windows.remove(w), ..left }.without_tabs(tabs).swept().notified(
                Notice::WindowRemoved(w),
            )
        } else {
            self
        }).recounted()
    }

    /// Windows are removed one after another.
    pub open spec fn without_windows(self, ids: Seq<WindowId>) -> MuxState
        decreases ids.len(),
    {
        if ids.len() == 0 {
            self
        } else {
            self.without_windows(ids.drop_last()).without_window(ids.last())
        }
    }

    // ---- pruning ----
    /// Whether a tab has no business in a window: it is not registered, or all
    /// of its panes are dead.
    pub open spec fn is_lost(self, t: TabId) -> bool {
        !self.tabs.contains_key(t) || self.tab_dead(self.tabs[t])
    }

    pub open spec fn lost_tabs(self) -> Set<TabId> {
        Set::new(|t: TabId| self.is_lost(t))
    }

    /// The windows without the tabs that have no business in them.
    pub open spec fn windows_pruned(self) -> MuxState {
        let lost = self.lost_tabs();
        MuxState { windows: self.windows.map_values(|w: WindowState| w.without(lost)), ..self }.swept()
    }

    /// The registered tabs whose panes are all dead.
    pub open spec fn dead_tabs(self) -> Set<TabId> {
        self.tabs.dom().filter(|t: TabId| self.tab_dead(self.tabs[t]))
    }

    pub open spec fn empty_windows(self) -> Set<WindowId> {
        self.windows.dom().filter(|w: WindowId| self.windows[w].tabs.len() == 0)
    }

    /// Everything that is dead is removed: first tabs from windows, then dead
    /// tabs, then windows that are left empty. The subscribers hear if no pane
    /// is left at all.
    pub open spec fn pruned(self) -> MuxState {
        let first = self.windows_pruned();
        let last = first.without_tabs(in_order(self.dead_tabs())).without_windows(
            in_order(first.empty_windows()),
        );
        if last.panes.dom().is_empty() {
            last.notified(Notice::Empty)
        } else {
            last
        }
    }

    /// Another attempt to prune is asked for, unless one is on its way already or
    /// this multiplexer is no longer the one in use.
    pub open spec fn retry_asked(self) -> MuxState {
        if self.current && !self.retry_scheduled {
            MuxState { retry_scheduled: true, ..self }.asked(Deed::SchedulePruneRetry)
        } else {
            self
        }
    }

    /// An attempt to prune: put off while an activity is under way, since its end
    /// brings another attempt, and repeated later if somebody else holds the
    /// windows.
    pub open spec fn prune_tried(self, activities: usize) -> MuxState {
        if activities > 0 {
            self
        } else if self.windows_locked {
            self.retry_asked()
        } else {
            self.pruned()
        }
    }

    /// A scheduled attempt to prune comes due.
    pub open spec fn retry_due(self, activities: usize) -> MuxState {
        MuxState { retry_scheduled: false, ..self }.prune_tried(activities)
    }

    /// An attempt to prune is asked for. It comes once the panes that have been told
    /// to end were asked whether they did.
    pub open spec fn prune_asked(self) -> MuxState {
        self.asked(Deed::PruneDeadWindows)
    }

    /// An activity has ended: another attempt to prune is asked for.
    pub open spec fn activity_ended(self) -> MuxState {
        self.asked(Deed::SchedulePrune)
    }

    // ---- domains that go away ----
    /// The panes of a domain.
    pub open spec fn panes_of_domain(self, d: DomainId) -> Set<PaneId> {
        self.panes.dom().filter(|p: PaneId| self.panes[p].domain_id == d)
    }

    /// The tabs that windows list, window by window.
    pub open spec fn tabs_of_windows(self, ids: Seq<WindowId>) -> Seq<TabId>
        decreases ids.len(),
    {
        if ids.len() == 0 {
            Seq::empty()
        } else {
            self.tabs_of_windows(ids.drop_last()) + self.windows[ids.last()].tabs
        }
    }

    /// Panes are told to end, one after another.
    pub open spec fn all_killed(self, ids: Seq<PaneId>) -> MuxState
        decreases ids.len(),
    {
        if ids.len() == 0 {
            self
        } else {
            self.all_killed(ids.drop_last()).killed(ids.last())
        }
    }

    /// In each of the tabs, the panes of a domain are told to end.
    pub open spec fn killed_in_tabs(self, tabs: Seq<TabId>, d: DomainId) -> MuxState
        decreases tabs.len(),
    {
        if tabs.len() == 0 {
            self
        } else {
            self.killed_in_tabs(tabs.drop_last(), d).all_killed(
                self.tab(tabs.last()).panes_in_domain(d),
            )
        }
    }

    /// In all tabs that a window lists, the panes of a domain are told to end.
    pub open spec fn domain_killed(self, d: DomainId) -> MuxState {
        self.killed_in_tabs(self.tabs_of_windows(in_order(self.windows.dom())), d)
    }

    /// A domain is gone, and its panes with it.
    pub open spec fn domain_lost(self, d: DomainId) -> MuxState {
        self.domain_killed(d).without_panes(in_order(self.panes_of_domain(d))).prune_asked()
    }

    // ---- adding panes, tabs and windows ----
    /// A pane is taken up, before it has been asked for its reader.
    pub open spec fn pane_taken_up(self, pane: Pane) -> MuxState {
        let asked = self.asked(Deed::SetClipboard(pane.pane_id)).asked(
            Deed::SetDownloadHandler(pane.pane_id),
        );
        MuxState { panes: self.panes.insert(pane.pane_id, pane), ..asked }
    }

    /// A pane that has been taken up goes to work, given what it said when it was
    /// asked for its reader.
    pub open spec fn pane_begun(self, p: PaneId, reader: ReaderOffer) -> MuxState {
        match reader {
            ReaderOffer::Failed => self,
            ReaderOffer::NoReader => self.recounted().notified(Notice::PaneAdded(p)),
            ReaderOffer::Reader => self.asked(
                Deed::StartReader { pane_id: p, banner: self.banner },
            ).recounted().notified(Notice::PaneAdded(p)),
        }
    }

    /// A pane is added, given what it says when it is asked for its reader.
    /// Nothing happens if the pane is known already.
    pub open spec fn pane_added(self, pane: Pane, reader: ReaderOffer) -> MuxState {
        if self.panes.contains_key(pane.pane_id) {
            self
        } else {
            self.pane_taken_up(pane).pane_begun(pane.pane_id, reader)
        }
    }

    /// A tab is entered in the register.
    pub open spec fn tab_registered(self, tab: TabState) -> MuxState {
        MuxState {
            tabs: self.tabs.insert(tab.tab_id, tab),
            orphans: self.orphans.remove(tab.tab_id),
            ..self
        }
    }

    /// What is known of a tab is replaced; nothing happens if the tab is not known.
    pub open spec fn tab_updated(self, tab: TabState) -> MuxState {
        if self.tabs.contains_key(tab.tab_id) {
            MuxState { tabs: self.tabs.insert(tab.tab_id, tab), ..self }
        } else if self.orphans.contains_key(tab.tab_id) {
            MuxState { orphans: self.orphans.insert(tab.tab_id, tab), ..self }
        } else {
            self
        }
    }

    /// A tab is appended to a window.
    pub open spec fn tab_listed(self, tab: TabState, w: WindowId) -> MuxState {
        let window = self.windows[w];
        MuxState {
            orphans: if self.knows_tab(tab.tab_id) {
                self.orphans
            } else {
                self.orphans.insert(tab.tab_id, tab)
            },
            windows: self.windows.insert(
                w,
                WindowState { tabs: window.tabs.push(tab.tab_id), ..window },
            ),
            ..self
        }.recounted().notified(Notice::TabAddedToWindow { tab_id: tab.tab_id, window_id: w })
    }

    /// What is known of a window is replaced; nothing happens if the window is not
    /// known.
    pub open spec fn window_updated(self, window: WindowState) -> MuxState {
        if self.windows.contains_key(window.window_id) {
            MuxState {
                windows: self.windows.insert(window.window_id, window),
                ..self
            }.swept()
        } else {
            self
        }
    }

    /// A window is added.
    pub open spec fn window_added(
        self,
        workspace: Seq<char>,
        position: Option<GuiPosition>,
    ) -> MuxState {
        MuxState {
            windows: self.windows.insert(
                self.next_window,
                new_window(self.next_window, workspace, position),
            ),
            next_window: (self.next_window + 1) as usize,
            ..self
        }
    }

    /// A window is opened, and its announcement put off.
    pub open spec fn window_opened(
        self,
        workspace: Option<Seq<char>>,
        position: Option<GuiPosition>,
    ) -> MuxState {
        self.window_added(
            match workspace {
                Some(name) => name,
                None => self.active_workspace(),
            },
            position,
        )
    }

    /// The subscribers hear of a window, and the activity that led to it ends.
    pub open spec fn window_announced(self, w: WindowId) -> MuxState {
        self.notified(Notice::WindowCreated(w)).activity_ended()
    }

    /// A tab becomes the active one of a window that lists it.
    pub open spec fn tab_activated(self, w: WindowId, t: TabId) -> MuxState {
        if self.lists_in(w, t) {
            MuxState {
                windows: self.windows.insert(
                    w,
                    self.windows[w].activated(self.windows[w].tabs.index_of(t)),
                ),
                ..self
            }
        } else {
            self
        }
    }

    /// The tab of a pane becomes the active one of its window, and the pane the
    /// active one of the tab.
    pub open spec fn pane_focused(self, p: PaneId) -> MuxState {
        match self.resolved(p) {
            Some((d, w, t)) => MuxState {
                tabs: self.tabs.insert(t, TabState { active: Some(p), ..self.tabs[t] }),
                ..self.tab_activated(w, t)
            },
            None => self,
        }
    }

    // ---- clients ----
    /// A client had input.
    pub open spec fn input_recorded(self, c: ClientId, now: u64) -> MuxState {
        let seen = MuxState {
            clients: if self.clients.contains_key(c) {
                self.clients.insert(c, ClientState { last_input_ms: now, ..self.clients[c] })
            } else {
                self.clients
            },
            ..self
        };
        if self.agent {
            seen.asked(Deed::UpdateAgentTarget)
        } else {
            seen
        }
    }

    /// The pane that a client has the focus on, if it is known.
    pub open spec fn focus_of(self, c: ClientId) -> Option<PaneId> {
        if self.clients.contains_key(c) {
            self.clients[c].focused_pane_id
        } else {
            None
        }
    }

    /// A pane hears that it gained or lost the focus, if it is known.
    pub open spec fn focus_told(self, p: PaneId, focused: bool) -> MuxState {
        if self.panes.contains_key(p) {
            self.asked(Deed::FocusChanged { pane_id: p, focused })
        } else {
            self
        }
    }

    /// A client turns to a pane.
    pub open spec fn focus_recorded(self, c: ClientId, p: PaneId) -> MuxState {
        let prior = self.focus_of(c);
        let seen = MuxState {
            clients: if self.clients.contains_key(c) {
                self.clients.insert(c, ClientState { focused_pane_id: Some(p), ..self.clients[c] })
            } else {
                self.clients
            },
            ..self
        };
        if prior == Some(p) {
            seen
        } else {
            match prior {
                Some(q) => seen.focus_told(q, false).focus_told(p, true),
                None => seen.focus_told(p, true),
            }
        }
    }

    /// A client turns to a workspace; nothing happens if the client is not known.
    pub open spec fn workspace_chosen(self, c: ClientId, workspace: Seq<char>) -> MuxState {
        if self.clients.contains_key(c) {
            MuxState {
                clients: self.clients.insert(
                    c,
                    ClientState { active_workspace: Some(workspace), ..self.clients[c] },
                ),
                ..self
            }.notified(Notice::ActiveWorkspaceChanged(c))
        } else {
            self
        }
    }

    /// The clients that chose a workspace.
    pub open spec fn clients_in(self, workspace: Seq<char>) -> Set<ClientId> {
        self.clients.dom().filter(
            |c: ClientId| self.clients[c].active_workspace == Some(workspace),
        )
    }

    /// The windows of a workspace are handed to another.
    pub open spec fn windows_moved(self, from: Seq<char>, to: Seq<char>) -> MuxState {
        MuxState {
            windows: self.windows.map_values(
                |w: WindowState|
                    if w.workspace == from {
                        WindowState { workspace: to, ..w }
                    } else {
                        w
                    },
            ),
            ..self
        }
    }

    /// The clients that chose a workspace are turned to another, and each of these
    /// changes is told.
    pub open spec fn clients_moved(self, from: Seq<char>, to: Seq<char>) -> MuxState {
        MuxState {
            clients: self.clients.map_values(
                |c: ClientState|
                    if c.active_workspace == Some(from) {
                        ClientState { active_workspace: Some(to), ..c }
                    } else {
                        c
                    },
            ),
            effects: self.effects + in_order(self.clients_in(from)).map_values(
                |c: ClientId| Deed::Notify(Notice::ActiveWorkspaceChanged(c)),
            ),
            ..self
        }
    }

    /// A workspace gets another name.
    pub open spec fn workspace_renamed(self, from: Seq<char>, to: Seq<char>) -> MuxState {
        if from == to {
            self
        } else {
            self.notified(
                Notice::WorkspaceRenamed { old_workspace: from, new_workspace: to },
            ).windows_moved(from, to).recounted().clients_moved(from, to)
        }
    }

    // ---- domains ----
    /// A domain is added; the first one becomes the default.
    pub open spec fn domain_added(self, domain: DomainInfo) -> MuxState {
        MuxState {
            default_domain: if self.default_domain is Some {
                self.default_domain
            } else {
                Some(domain)
            },
            domains: self.domains.insert(domain.domain_id, domain),
            domains_by_name: self.domains_by_name.insert(domain.domain_name, domain),
            ..self
        }
    }

    /// The domain that is meant, if there is one.
    pub open spec fn chosen_domain(
        self,
        current: Option<PaneId>,
        choice: SpawnTabDomain,
    ) -> Option<DomainInfo> {
        match choice {
            SpawnTabDomain::DefaultDomain => self.default_domain,
            SpawnTabDomain::CurrentPaneDomain => match current {
                Some(p) => match self.resolved(p) {
                    Some((d, w, t)) => Some(self.domains[d]),
                    None => None,
                },
                None => self.default_domain,
            },
            SpawnTabDomain::DomainId(d) => if self.domains.contains_key(d) {
                Some(self.domains[d])
            } else {
                None
            },
            SpawnTabDomain::DomainName(name) => if self.domains_by_name.contains_key(name@) {
                Some(self.domains_by_name[name@])
            } else {
                None
            },
        }
    }

    /// Whether the question for a domain makes sense: there is a default domain
    /// where that is asked for, and the domain of the current pane is known.
    pub open spec fn can_choose(self, current: Option<PaneId>, choice: SpawnTabDomain) -> bool {
        match choice {
            SpawnTabDomain::DefaultDomain => self.default_domain is Some,
            SpawnTabDomain::CurrentPaneDomain => match current {
                Some(p) => match self.resolved(p) {
                    Some((d, w, t)) => self.domains.contains_key(d),
                    None => true,
                },
                None => self.default_domain is Some,
            },
            _ => true,
        }
    }

    /// Whether the error is the one that tells why no domain was found.
    pub open spec fn explains_choice(
        self,
        current: Option<PaneId>,
        choice: SpawnTabDomain,
        error: MuxError,
    ) -> bool {
        match choice {
            SpawnTabDomain::DefaultDomain => false,
            SpawnTabDomain::CurrentPaneDomain => match current {
                Some(p) => error == MuxError::PaneIdInvalid(p),
                None => false,
            },
            SpawnTabDomain::DomainId(d) => error == MuxError::DomainIdInvalid(d),
            SpawnTabDomain::DomainName(wanted) => match error {
                MuxError::DomainNameInvalid { name, possible } => {
                    &&& name@ == wanted@
                    &&& forall|i: int, j: int|
                        0 <= i < possible@.len() && 0 <= j < possible@.len() && (
                        #[trigger] possible@[i])@ == (#[trigger] possible@[j])@ ==> i == j
                    &&& forall|n: Seq<char>| #[trigger]
                        names_contain(possible@, n) <==> self.domains_by_name.contains_key(n)
                },
                _ => false,
            },
        }
    }

    // ---- subscribers ----
    /// One more subscriber, under a number of its own.
    pub open spec fn subscribed(self) -> MuxState {
        MuxState {
            subscribers: self.subscribers.push(self.next_subscriber),
            next_subscriber: (self.next_subscriber + 1) as usize,
            ..self
        }
    }

    /// Those subscribers stay that want to.
    pub open spec fn subscribers_kept(self, verdicts: Seq<bool>) -> MuxState {
        MuxState { subscribers: kept(self.subscribers, verdicts), ..self }
    }
}

/// The members of a list whose verdict is favourable, in their order.
pub open spec fn kept(list: Seq<usize>, verdicts: Seq<bool>) -> Seq<usize>
    decreases list.len(),
{
    if list.len() == 0 {
        Seq::empty()
    } else {
        let front = kept(list.drop_last(), verdicts);
        if verdicts[list.len() - 1] {
            front.push(list.last())
        } else {
            front
        }
    }
}

} // verus!
