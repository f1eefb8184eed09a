//! Pruning: everything that is dead goes.
use crate::activity::Activities;
use crate::id_map::{
    ascending, in_order, lemma_picked, lemma_picked_none, lemma_picked_step, picked,
};
use crate::ids::{DomainId, PaneId, TabId, WindowId};
use crate::notification::{Effect, MuxNotification, Notice};
use crate::removal::{
    lemma_listing_agrees, lemma_same_tables, lemma_struck, lemma_swept, lemma_without_pane,
    lemma_without_panes, lemma_without_tab, lemma_without_tabs, lemma_without_window,
    lemma_without_windows, same_surroundings, struck,
};
use crate::state::MuxState;
use crate::store::Mux;
use crate::tab::Tab;
use crate::window::{copy_ids, lemma_without_agrees};
use vstd::prelude::*;

verus! {

/// Taking the lost tabs out of the windows leaves a well-formed state.
pub proof fn lemma_windows_pruned(s: MuxState)
    requires
        s.sound(),
    ensures
        s.windows_pruned().wf(),
        s.windows_pruned().windows == struck(s.windows, s.lost_tabs()),
        s.windows_pruned().tabs == s.tabs,
        s.windows_pruned().panes == s.panes,
        same_surroundings(s, s.windows_pruned()),
        forall|w: WindowId, t: TabId| #[trigger]
            s.windows_pruned().lists_in(w, t) <==> s.lists_in(w, t) && !s.is_lost(t),
{
    let mid = MuxState { windows: struck(s.windows, s.lost_tabs()), ..s };
    lemma_struck(s, s.lost_tabs());
    lemma_swept(mid);
    let after = s.windows_pruned();
    assert(after == mid.swept());
    assert forall|w: WindowId, t: TabId| #[trigger] after.lists_in(w, t) <==> s.lists_in(w, t)
        && !s.is_lost(t) by {
        assert(mid.lists_in(w, t) == after.lists_in(w, t));
    }
}

/// Pruning leaves a well-formed state.
pub proof fn lemma_pruned(s: MuxState)
    requires
        s.sound(),
    ensures
        s.pruned().wf(),
        same_surroundings(s, s.pruned()),
{
    let first = s.windows_pruned();
    lemma_windows_pruned(s);
    let dead = in_order(s.dead_tabs());
    lemma_without_tabs(first, dead);
    let mid = first.without_tabs(dead);
    let gone = in_order(first.empty_windows());
    lemma_without_windows(mid, gone);
    let last = mid.without_windows(gone);
    lemma_same_tables(last, last.notified(Notice::Empty));
}

/// An attempt to prune leaves a well-formed state.
pub proof fn lemma_prune_tried(s: MuxState, activities: usize)
    requires
        s.wf(),
    ensures
        s.prune_tried(activities).wf(),
{
    lemma_pruned(s);
    lemma_same_tables(s, s.retry_asked());
}

/// Changing only what is dead, counted, asked or observed keeps a state well
/// formed.
pub proof fn lemma_wf_kept(a: MuxState, b: MuxState)
    requires
        a.windows == b.windows,
        a.tabs.dom() == b.tabs.dom(),
        a.orphans.dom() == b.orphans.dom(),
        b.sound() || (a.tabs == b.tabs && a.orphans == b.orphans && a.panes == b.panes && a.clients
            == b.clients && a.domains == b.domains && a.domains_by_name == b.domains_by_name
            && a.next_window == b.next_window && (a.subscribers_sound()
            ==> b.subscribers_sound())),
    ensures
        a.wf() ==> b.wf(),
{
    if a.wf() {
        assert forall|w: WindowId, t: TabId| #[trigger] b.lists_in(w, t) implies b.knows_tab(t) by {
            assert(a.lists_in(w, t));
            assert(a.knows_tab(t));
        }
        assert(b.sound());
        assert forall|t: TabId| #[trigger] b.orphans.contains_key(t) implies b.lists(t) by {
            assert(a.orphans.dom().contains(t));
            assert(a.orphans.contains_key(t));
            lemma_listing_agrees(a, b, t);
        }
    }
}

pub proof fn lemma_without_pane_wf(s: MuxState, p: PaneId)
    requires
        s.wf(),
    ensures
        s.without_pane(p).wf(),
{
    lemma_without_pane(s, p);
    lemma_wf_kept(s, s.without_pane(p));
}

/// Telling panes to end changes nothing but what the host is asked.
pub proof fn lemma_all_killed(s: MuxState, ids: Seq<PaneId>)
    ensures
        s.all_killed(ids) == (MuxState { effects: s.all_killed(ids).effects, ..s }),
    decreases ids.len(),
{
    if ids.len() > 0 {
        lemma_all_killed(s, ids.drop_last());
    }
}

proof fn lemma_killed_in_tabs(s: MuxState, tabs: Seq<TabId>, d: DomainId)
    ensures
        s.killed_in_tabs(tabs, d) == (MuxState { effects: s.killed_in_tabs(tabs, d).effects, ..s }),
    decreases tabs.len(),
{
    if tabs.len() > 0 {
        lemma_killed_in_tabs(s, tabs.drop_last(), d);
        lemma_all_killed(
            s.killed_in_tabs(tabs.drop_last(), d),
            s.tab(tabs.last()).panes_in_domain(d),
        );
    }
}

/// Telling the panes of a domain to end changes nothing but what the host is asked.
pub proof fn lemma_domain_killed(s: MuxState, d: DomainId)
    ensures
        s.domain_killed(d) == (MuxState { effects: s.domain_killed(d).effects, ..s }),
        s.domain_killed(d).wf() == s.wf(),
{
    lemma_killed_in_tabs(s, s.tabs_of_windows(in_order(s.windows.dom())), d);
    lemma_same_tables(s, s.domain_killed(d));
}

impl Mux {
    /// Whether all panes of a tab are dead.
    pub(crate) fn tab_is_dead(&self, tab: &Tab) -> (dead: bool)
        ensures
            dead == self@.tab_dead(tab@),
    {
        let mut i: usize = 0;
        while i < tab.panes.len()
            invariant
                i <= tab.panes@.len(),
                forall|j: int| 0 <= j < i ==> self@.dead.contains((#[trigger] tab.panes@[j]).pane_id),
            decreases tab.panes@.len() - i,
        {
            if !self.pane_is_dead(tab.panes[i].pane_id) {
                assert(!self@.dead.contains(tab@.panes[i as int].pane_id));
                return false;
            }
            i = i + 1;
        }
        true
    }

    /// Which of the tabs of a window have no business in it.
    fn lost_in(&self, tabs: &Vec<TabId>) -> (lost: Vec<TabId>)
        ensures
            forall|i: int|
                0 <= i < tabs@.len() ==> lost@.to_set().contains(#[trigger] tabs@[i])
                    == self@.is_lost(tabs@[i]),
    {
        let mut lost: Vec<TabId> = Vec::new();
        let mut i: usize = 0;
        while i < tabs.len()
            invariant
                i <= tabs@.len(),
                forall|j: int|
                    0 <= j < i && self@.is_lost(#[trigger] tabs@[j]) ==> lost@.contains(tabs@[j]),
                forall|k: int| 0 <= k < lost@.len() ==> self@.is_lost(#[trigger] lost@[k]),
            decreases tabs@.len() - i,
        {
            let alive = match self.tab_ref(tabs[i]) {
                Some(tab) => !self.tab_is_dead(tab),
                None => false,
            };
            let ghost before = lost@;
            if !alive {
                lost.push(tabs[i]);
                proof {
                    assert(lost@[lost@.len() - 1] == tabs@[i as int]);
                    assert forall|j: int| 0 <= j < i && self@.is_lost(#[trigger] tabs@[j]) implies lost@.contains(
                        tabs@[j],
                    ) by {
                        let k = before.index_of(tabs@[j]);
                        assert(lost@[k] == tabs@[j]);
                    }
                }
            }
            i = i + 1;
        }
        lost
    }

    /// Takes the lost tabs out of all windows. Gives back the windows that are
    /// left empty.
    fn prune_tabs_of_windows(&mut self) -> (emptied: Vec<WindowId>)
        requires
            old(self)@.sound(),
        ensures
            final(self)@ == old(self)@.windows_pruned(),
            final(self)@.wf(),
            emptied@ == in_order(final(self)@.empty_windows()),
    {
        let ghost s = self@;
        let ghost lost_set = s.lost_tabs();
        let ghost wanted = s.windows_pruned().empty_windows();
        let ids = self.window_ids();
        let mut emptied: Vec<WindowId> = Vec::new();
        let mut i: usize = 0;
        proof {
            lemma_picked_none(ids@, wanted);
            lemma_windows_pruned(s);
            assert(s.windows_pruned().windows.dom() =~= s.windows.dom());
        }
        while i < ids.len()
            invariant
                s.sound(),
                lost_set == s.lost_tabs(),
                wanted == s.windows_pruned().empty_windows(),
                s.windows_pruned().windows == struck(s.windows, lost_set),
                ascending(ids@, s.windows.dom()),
                i <= ids@.len(),
                self@ == (MuxState { windows: self@.windows, ..s }),
                self@.windows.dom() == s.windows.dom(),
                forall|j: int|
                    0 <= j < i ==> self@.windows[#[trigger] ids@[j]] == s.windows[ids@[j]].without(
                        lost_set,
                    ),
                forall|j: int|
                    i <= j < ids@.len() ==> self@.windows[#[trigger] ids@[j]] == s.windows[ids@[j]],
                emptied@ == picked(ids@.take(i as int), wanted),
            decreases ids@.len() - i,
        {
            let id = ids[i];
            let ghost mid = self@;
            proof {
                assert(ids@.contains(id));
                assert(s.windows.contains_key(id));
                assert(forall|t: TabId| mid.is_lost(t) == s.is_lost(t));
                lemma_picked_step(ids@, i as int, wanted);
            }
            let lost = match self.window_ref(id) {
                Some(window) => self.lost_in(&window.tabs),
                None => Vec::new(),
            };
            if let Some(mut window) = self.take_window(id) {
                proof {
                    lemma_without_agrees(s.windows[id], lost@.to_set(), lost_set);
                }
                window.drop_tabs(&lost);
                if window.is_empty() {
                    emptied.push(id);
                }
                self.put_window(id, window);
            }
            i = i + 1;
            proof {
                assert(self@.windows.dom() =~= s.windows.dom());
                assert forall|j: int| 0 <= j < ids@.len() && j != i - 1 implies self@.windows[#[trigger] ids@[j]]
                    == mid.windows[ids@[j]] by {
                    assert(ids@[j] != id);
                }
            }
        }
        proof {
            assert(self@.windows =~= struck(s.windows, lost_set)) by {
                assert forall|w: WindowId| #[trigger] s.windows.contains_key(w) implies self@.windows[w]
                    == s.windows[w].without(lost_set) by {
                    assert(s.windows.dom().contains(w));
                    let j = ids@.index_of(w);
                    assert(ids@[j] == w);
                }
            }
            lemma_struck(s, lost_set);
            assert(ids@.take(i as int) =~= ids@);
            lemma_picked(ids@, s.windows.dom(), wanted);
        }
        self.sweep();
        emptied
    }

    /// The registered tabs whose panes are all dead.
    fn dead_tab_ids(&self) -> (dead: Vec<TabId>)
        ensures
            dead@ == in_order(self@.dead_tabs()),
    {
        let ghost wanted = self@.dead_tabs();
        let ids = self.tab_ids();
        let mut dead: Vec<TabId> = Vec::new();
        let mut i: usize = 0;
        proof {
            lemma_picked_none(ids@, wanted);
        }
        while i < ids.len()
            invariant
                wanted == self@.dead_tabs(),
                ascending(ids@, self@.tabs.dom()),
                i <= ids@.len(),
                dead@ == picked(ids@.take(i as int), wanted),
            decreases ids@.len() - i,
        {
            let id = ids[i];
            proof {
                assert(ids@.contains(id));
                lemma_picked_step(ids@, i as int, wanted);
            }
            let is_dead = match self.tab_ref(id) {
                Some(tab) => self.tab_is_dead(tab),
                None => false,
            };
            if is_dead {
                dead.push(id);
            }
            i = i + 1;
        }
        proof {
            assert(ids@.take(i as int) =~= ids@);
            lemma_picked(ids@, self@.tabs.dom(), wanted);
        }
        dead
    }

    /// Asks for another attempt to prune, unless one is on its way.
    fn schedule_prune_dead_windows_retry(&mut self)
        ensures
            final(self)@ == old(self)@.retry_asked(),
    {
        if !self.get_current() {
            return ;
        }
        if self.get_retry_scheduled() {
            return ;
        }
        self.put_retry_scheduled(true);
        self.ask(Effect::SchedulePruneRetry);
    }

    /// Removes tabs and windows that are dead, going by what the host has reported of
    /// the panes.
    pub fn prune_dead_windows(&mut self, activities: &Activities)
        requires
            old(self)@.wf(),
        ensures
            final(self)@ == old(self)@.prune_tried(activities@),
            final(self)@.wf(),
    {
        let ghost s = self@;
        proof {
            lemma_prune_tried(s, activities@);
        }
        if activities.count() > 0 {
            return ;
        }
        if self.get_windows_locked() {
            self.schedule_prune_dead_windows_retry();
            return ;
        }
        let dead_windows = self.prune_tabs_of_windows();
        proof {
            lemma_windows_pruned(s);
            assert(self@.dead_tabs() =~= s.dead_tabs());
        }
        let dead_tabs = self.dead_tab_ids();
        self.remove_tabs(&dead_tabs);
        self.remove_windows(&dead_windows);
        if self.is_empty() {
            self.ask(Effect::Notify(MuxNotification::Empty));
        }
    }

    /// Makes the attempt that was scheduled. The flag is cleared first, so that
    /// another attempt can be scheduled if this one fails too.
    pub fn run_scheduled_prune(&mut self, activities: &Activities)
        requires
            old(self)@.wf(),
        ensures
            final(self)@ == old(self)@.retry_due(activities@),
            final(self)@.wf(),
    {
        let ghost s = self@;
        self.put_retry_scheduled(false);
        proof {
            lemma_same_tables(s, self@);
        }
        self.prune_dead_windows(activities);
    }

    /// Asks the host to look for dead windows once it has done what was asked before.
    pub(crate) fn ask_for_prune(&mut self)
        ensures
            final(self)@ == old(self)@.prune_asked(),
            old(self)@.wf() ==> final(self)@.wf(),
    {
        let ghost s = self@;
        self.ask(Effect::PruneDeadWindows);
        proof {
            lemma_same_tables(s, self@);
        }
    }

    /// Removes a pane, and has the host look for what is dead after that.
    pub fn remove_pane(&mut self, pane_id: PaneId)
        requires
            old(self)@.wf(),
        ensures
            final(self)@ == old(self)@.without_pane(pane_id).prune_asked(),
            final(self)@.wf(),
    {
        proof {
            lemma_without_pane_wf(self@, pane_id);
        }
        self.remove_pane_internal(pane_id);
        self.ask_for_prune();
    }

    /// Removes a tab with its panes, and has the host look for what is dead after
    /// that. Gives back the tab.
    pub fn remove_tab(&mut self, tab_id: TabId) -> (tab: Option<Tab>)
        requires
            old(self)@.wf(),
        ensures
            final(self)@ == old(self)@.without_tab(tab_id).prune_asked(),
            final(self)@.wf(),
            match tab {
                Some(t) => old(self)@.tabs.contains_key(tab_id) && t@ == old(self)@.tabs[tab_id],
                None => !old(self)@.tabs.contains_key(tab_id),
            },
    {
        proof {
            lemma_without_tab(self@, tab_id);
        }
        let tab = self.remove_tab_internal(tab_id);
        self.ask_for_prune();
        tab
    }

    /// Removes a window with its tabs, and has the host look for what is dead after
    /// that.
    pub fn kill_window(&mut self, window_id: WindowId)
        requires
            old(self)@.wf(),
        ensures
            final(self)@ == old(self)@.without_window(window_id).prune_asked(),
            final(self)@.wf(),
    {
        proof {
            lemma_without_window(self@, window_id);
        }
        self.remove_window_internal(window_id);
        self.ask_for_prune();
    }

    /// The panes of a domain, in ascending order.
    fn pane_ids_of_domain(&self, domain: DomainId) -> (found: Vec<PaneId>)
        ensures
            found@ == in_order(self@.panes_of_domain(domain)),
    {
        let ghost wanted = self@.panes_of_domain(domain);
        let ids = self.pane_ids();
        let mut found: Vec<PaneId> = Vec::new();
        let mut i: usize = 0;
        proof {
            lemma_picked_none(ids@, wanted);
        }
        while i < ids.len()
            invariant
                wanted == self@.panes_of_domain(domain),
                ascending(ids@, self@.panes.dom()),
                i <= ids@.len(),
                found@ == picked(ids@.take(i as int), wanted),
            decreases ids@.len() - i,
        {
            let id = ids[i];
            proof {
                assert(ids@.contains(id));
                lemma_picked_step(ids@, i as int, wanted);
            }
            let hit = match self.pane_at(id) {
                Some(pane) => pane.domain_id == domain,
                None => false,
            };
            if hit {
                found.push(id);
            }
            i = i + 1;
        }
        proof {
            assert(ids@.take(i as int) =~= ids@);
            lemma_picked(ids@, self@.panes.dom(), wanted);
        }
        found
    }

    /// Tells panes to end, one after another.
    pub(crate) fn kill_panes(&mut self, ids: &Vec<PaneId>)
        ensures
            final(self)@ == old(self)@.all_killed(ids@),
    {
        let ghost s = self@;
        let mut i: usize = 0;
        assert(ids@.take(0) =~= Seq::empty());
        while i < ids.len()
            invariant
                i <= ids@.len(),
                self@ == s.all_killed(ids@.take(i as int)),
            decreases ids@.len() - i,
        {
            assert(ids@.take(i + 1).drop_last() =~= ids@.take(i as int));
            self.kill_pane(ids[i]);
            i = i + 1;
        }
        assert(ids@.take(i as int) =~= ids@);
    }

    /// The tabs that windows list, window by window.
    fn listed_tabs(&self) -> (tabs: Vec<TabId>)
        requires
            self@.sound(),
        ensures
            tabs@ == self@.tabs_of_windows(in_order(self@.windows.dom())),
            forall|i: int| 0 <= i < tabs@.len() ==> self@.knows_tab(#[trigger] tabs@[i]),
    {
        let ids = self.window_ids();
        let mut tabs: Vec<TabId> = Vec::new();
        let mut i: usize = 0;
        assert(ids@.take(0) =~= Seq::empty());
        while i < ids.len()
            invariant
                self@.sound(),
                ascending(ids@, self@.windows.dom()),
                i <= ids@.len(),
                tabs@ == self@.tabs_of_windows(ids@.take(i as int)),
                forall|j: int| 0 <= j < tabs@.len() ==> self@.knows_tab(#[trigger] tabs@[j]),
            decreases ids@.len() - i,
        {
            assert(ids@.take(i + 1).drop_last() =~= ids@.take(i as int));
            let id = ids[i];
            let ghost before = tabs@;
            proof {
                assert(ids@.contains(id));
            }
            if let Some(window) = self.window_ref(id) {
                let mut more = copy_ids(&window.tabs);
                let ghost added = more@;
                tabs.append(&mut more);
                proof {
                    assert(tabs@ == before + added);
                    assert forall|j: int| 0 <= j < tabs@.len() implies self@.knows_tab(
                        #[trigger] tabs@[j],
                    ) by {
                        if j >= before.len() {
                            assert(tabs@[j] == added[j - before.len()]);
                            assert(self@.lists_in(id, tabs@[j]));
                        } else {
                            assert(tabs@[j] == before[j]);
                        }
                    }
                }
            }
            i = i + 1;
        }
        assert(ids@.take(i as int) =~= ids@);
        tabs
    }

    /// Tells the panes of a domain to end, in all tabs that a window lists.
    fn kill_panes_in_domain(&mut self, domain: DomainId)
        requires
            old(self)@.sound(),
        ensures
            final(self)@ == old(self)@.domain_killed(domain),
    {
        let ghost s = self@;
        let tabs = self.listed_tabs();
        let mut i: usize = 0;
        assert(tabs@.take(0) =~= Seq::empty());
        while i < tabs.len()
            invariant
                s.sound(),
                i <= tabs@.len(),
                forall|j: int| 0 <= j < tabs@.len() ==> s.knows_tab(#[trigger] tabs@[j]),
                self@ == s.killed_in_tabs(tabs@.take(i as int), domain),
            decreases tabs@.len() - i,
        {
            proof {
                assert(tabs@.take(i + 1).drop_last() =~= tabs@.take(i as int));
                lemma_killed_in_tabs(s, tabs@.take(i as int), domain);
                lemma_same_tables(s, self@);
                assert(s.knows_tab(tabs@[i as int]));
            }
            let ids = match self.known_tab(tabs[i]) {
                Some(tab) => tab.ids_in_domain(domain),
                None => Vec::new(),
            };
            self.kill_panes(&ids);
            i = i + 1;
        }
        assert(tabs@.take(i as int) =~= tabs@);
    }

    /// A domain has gone away: its panes are removed, and the host looks for what is
    /// dead after that.
    pub fn domain_was_detached(&mut self, domain: DomainId)
        requires
            old(self)@.wf(),
        ensures
            final(self)@ == old(self)@.domain_lost(domain),
            final(self)@.wf(),
    {
        let ghost s = self@;
        let dead_panes = self.pane_ids_of_domain(domain);
        self.kill_panes_in_domain(domain);
        proof {
            lemma_domain_killed(s, domain);
            lemma_without_panes(self@, dead_panes@);
            lemma_wf_kept(self@, self@.without_panes(dead_panes@));
        }
        self.remove_panes(&dead_panes);
        self.ask_for_prune();
    }

    /// An activity has ended: pruning is asked for.
    pub fn end_activity(&mut self, activities: &mut Activities)
        requires
            old(activities)@ > 0,
        ensures
            final(activities)@ == old(activities)@ - 1,
            final(self)@ == old(self)@.activity_ended(),
            old(self)@.wf() ==> final(self)@.wf(),
    {
        let ghost s = self@;
        activities.end();
        self.ask(Effect::SchedulePrune);
        proof {
            lemma_wf_kept(s, self@);
        }
    }

    /// Takes in whether a pane is dead. The host reports this of all panes that it
    /// knows before it looks for dead windows.
    pub fn report_pane(&mut self, pane_id: PaneId, dead: bool)
        ensures
            final(self)@ == old(self)@.pane_reported(pane_id, dead),
            old(self)@.wf() ==> final(self)@.wf(),
    {
        let ghost s = self@;
        if dead {
            self.put_dead(pane_id);
        } else {
            self.take_dead(pane_id);
        }
        proof {
            lemma_wf_kept(s, self@);
        }
    }

    /// Says whether somebody else holds the table of windows.
    pub fn set_windows_locked(&mut self, locked: bool)
        ensures
            final(self)@ == (MuxState { windows_locked: locked, ..old(self)@ }),
            old(self)@.wf() ==> final(self)@.wf(),
    {
        let ghost s = self@;
        self.put_windows_locked(locked);
        proof {
            lemma_wf_kept(s, self@);
        }
    }

    /// Whether another attempt to prune is on its way.
    pub fn prune_dead_windows_retry_scheduled(&self) -> (scheduled: bool)
        ensures
            scheduled == self@.retry_scheduled,
    {
        self.get_retry_scheduled()
    }

    /// Whether there is no pane at all.
    pub fn is_empty(&self) -> (empty: bool)
        ensures
            empty == self@.panes.dom().is_empty(),
    {
        self.no_panes()
    }
}

} // verus!
