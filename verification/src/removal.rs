//! Removing panes, tabs and windows, and pruning what is dead.
use crate::id_map::{ascending, in_order, IdMap};
use crate::ids::{DomainId, PaneId, TabId, WindowId};
use crate::notification::{Effect, MuxNotification, Notice};
use crate::state::MuxState;
use crate::store::Mux;
use crate::tab::Tab;
use crate::window::{contains_id, copy_ids, lemma_staying, lemma_without_wf, WindowState};
use vstd::prelude::*;

verus! {

/// The parts of the state that no removal touches.
pub open spec fn same_surroundings(a: MuxState, b: MuxState) -> bool {
    &&& a.retry_scheduled == b.retry_scheduled
    &&& a.default_domain == b.default_domain
    &&& a.domains == b.domains
    &&& a.domains_by_name == b.domains_by_name
    &&& a.subscribers == b.subscribers
    &&& a.next_subscriber == b.next_subscriber
    &&& a.banner == b.banner
    &&& a.clients == b.clients
    &&& a.identity == b.identity
    &&& a.main_thread == b.main_thread
    &&& a.agent == b.agent
    &&& a.default_workspace == b.default_workspace
    &&& a.dead == b.dead
    &&& a.windows_locked == b.windows_locked
    &&& a.current == b.current
    &&& a.ending == b.ending
    &&& a.next_window == b.next_window
}

/// Removing a pane takes it out of the table of panes and leaves the tabs and the
/// windows alone.
pub proof fn lemma_without_pane(s: MuxState, p: PaneId)
    requires
        s.sound(),
    ensures
        s.without_pane(p).sound(),
        s.without_pane(p).windows == s.windows,
        s.without_pane(p).panes == s.panes.remove(p),
        s.without_pane(p).tabs == s.tabs,
        s.without_pane(p).orphans == s.orphans,
        same_surroundings(s, s.without_pane(p)),
{
    let after = s.without_pane(p);
    assert(after.panes =~= s.panes.remove(p));
    assert forall|w: WindowId, t: TabId| #[trigger] after.lists_in(w, t) implies after.knows_tab(
        t,
    ) by {
        assert(s.lists_in(w, t));
        assert(s.knows_tab(t));
    }
}

/// The same for several panes.
pub proof fn lemma_without_panes(s: MuxState, ids: Seq<PaneId>)
    requires
        s.sound(),
    ensures
        s.without_panes(ids).sound(),
        s.without_panes(ids).windows == s.windows,
        s.without_panes(ids).panes == s.panes.remove_keys(ids.to_set()),
        s.without_panes(ids).tabs == s.tabs,
        s.without_panes(ids).orphans == s.orphans,
        same_surroundings(s, s.without_panes(ids)),
    decreases ids.len(),
{
    if ids.len() == 0 {
        assert(s.panes.remove_keys(ids.to_set()) =~= s.panes);
    } else {
        let rest = ids.drop_last();
        lemma_without_panes(s, rest);
        let mid = s.without_panes(rest);
        lemma_without_pane(mid, ids.last());
        lemma_set_of_push(ids);
        assert(s.without_panes(ids).panes =~= s.panes.remove_keys(ids.to_set()));
    }
}

impl Mux {
    /// Tells a pane to end.
    pub(crate) fn kill_pane(&mut self, pane_id: PaneId)
        ensures
            final(self)@ == old(self)@.killed(pane_id),
    {
        self.ask(Effect::KillPane(pane_id));
    }

    pub(crate) fn remove_pane_internal(&mut self, pane_id: PaneId)
        requires
            old(self)@.sound(),
        ensures
            final(self)@ == old(self)@.without_pane(pane_id),
            final(self)@.sound(),
    {
        proof {
            lemma_without_pane(self@, pane_id);
        }
        if self.pane_at(pane_id).is_none() {
            return ;
        }
        let ghost s = self@;
        self.take_pane(pane_id);
        self.kill_pane(pane_id);
        self.ask(Effect::Notify(MuxNotification::PaneRemoved(pane_id)));
        proof {
            lemma_before_recount(s, pane_id);
        }
        self.recompute_pane_count();
    }

    /// Removes panes one after another.
    pub(crate) fn remove_panes(&mut self, ids: &Vec<PaneId>)
        requires
            old(self)@.sound(),
        ensures
            final(self)@ == old(self)@.without_panes(ids@),
            final(self)@.sound(),
    {
        let ghost s = self@;
        let mut i: usize = 0;
        assert(ids@.take(0) =~= Seq::empty());
        while i < ids.len()
            invariant
                i <= ids@.len(),
                self@ == s.without_panes(ids@.take(i as int)),
                self@.sound(),
            decreases ids@.len() - i,
        {
            assert(ids@.take(i + 1).drop_last() =~= ids@.take(i as int));
            self.remove_pane_internal(ids[i]);
            i = i + 1;
        }
        assert(ids@.take(i as int) =~= ids@);
    }
}

/// `b` differs from `a` at most in the counts, in what the host has been asked, and
/// in whether that is an attempt to prune.
pub open spec fn same_tables(a: MuxState, b: MuxState) -> bool {
    &&& same_surroundings(MuxState { retry_scheduled: b.retry_scheduled, ..a }, b)
    &&& a.tabs == b.tabs
    &&& a.orphans == b.orphans
    &&& a.panes == b.panes
    &&& a.windows == b.windows
}

/// Counting and asking keep a state sound and well formed.
pub proof fn lemma_same_tables(a: MuxState, b: MuxState)
    requires
        same_tables(a, b),
    ensures
        a.sound() == b.sound(),
        a.wf() == b.wf(),
{
    assert forall|w: WindowId, t: TabId| #[trigger] a.lists_in(w, t) == b.lists_in(w, t) by {}
    assert forall|t: TabId| #[trigger] a.knows_tab(t) == b.knows_tab(t) by {}
    if a.sound() {
        assert forall|w: WindowId, t: TabId| #[trigger] b.lists_in(w, t) implies b.knows_tab(t) by {
            assert(a.lists_in(w, t));
            assert(a.knows_tab(t));
        }
        assert(b.sound());
    }
    if b.sound() {
        assert forall|w: WindowId, t: TabId| #[trigger] a.lists_in(w, t) implies a.knows_tab(t) by {
            assert(b.lists_in(w, t));
            assert(b.knows_tab(t));
        }
        assert(a.sound());
    }
    assert forall|t: TabId| #[trigger] a.lists(t) == b.lists(t) by {
        if a.lists(t) {
            let w = choose|w: WindowId| a.lists_in(w, t);
            assert(b.lists_in(w, t));
        }
        if b.lists(t) {
            let w = choose|w: WindowId| b.lists_in(w, t);
            assert(a.lists_in(w, t));
        }
    }
    if a.wf() {
        assert forall|t: TabId| #[trigger] b.orphans.contains_key(t) implies b.lists(t) by {
            assert(a.orphans.contains_key(t));
        }
    }
    if b.wf() {
        assert forall|t: TabId| #[trigger] a.orphans.contains_key(t) implies a.lists(t) by {
            assert(b.orphans.contains_key(t));
        }
    }
}

/// The windows without some tabs.
pub open spec fn struck(windows: Map<WindowId, WindowState>, gone: Set<TabId>) -> Map<
    WindowId,
    WindowState,
> {
    windows.map_values(|w: WindowState| w.without(gone))
}

/// Striking tabs from the windows leaves the state sound.
pub proof fn lemma_struck(s: MuxState, gone: Set<TabId>)
    requires
        s.sound(),
    ensures
        (MuxState { windows: struck(s.windows, gone), ..s }).sound(),
        forall|w: WindowId, t: TabId| #[trigger]
            (MuxState { windows: struck(s.windows, gone), ..s }).lists_in(w, t) <==> s.lists_in(w, t)
                && !gone.contains(t),
{
    let after = MuxState { windows: struck(s.windows, gone), ..s };
    assert(after.windows.dom() =~= s.windows.dom());
    assert forall|w: WindowId, t: TabId| #[trigger] after.lists_in(w, t) <==> s.lists_in(w, t)
        && !gone.contains(t) by {
        if s.windows.contains_key(w) {
            lemma_staying(s.windows[w].tabs, gone);
        }
    }
    assert forall|w: WindowId| #[trigger] after.windows.contains_key(w) implies after.windows[w].window_id
        == w && after.windows[w].wf() by {
        assert(s.windows.contains_key(w));
        lemma_without_wf(s.windows[w], gone);
    }
    assert forall|w: WindowId, t: TabId| #[trigger] after.lists_in(w, t) implies after.knows_tab(
        t,
    ) by {
        assert(s.lists_in(w, t));
        assert(s.knows_tab(t));
    }
}

/// Forgetting tabs that nobody lists leaves a well-formed state.
pub proof fn lemma_swept(s: MuxState)
    requires
        s.sound(),
    ensures
        s.swept().wf(),
{
    let after = s.swept();
    assert forall|w: WindowId, t: TabId| #[trigger] after.lists_in(w, t) implies after.knows_tab(
        t,
    ) by {
        assert(s.lists_in(w, t));
        assert(s.knows_tab(t));
        assert(s.lists(t));
    }
    assert forall|t: TabId| #[trigger] after.orphans.contains_key(t) implies after.lists(t) by {
        let w = choose|w: WindowId| s.lists_in(w, t);
        assert(after.lists_in(w, t));
    }
    assert(after.orphans.dom() =~= s.orphans.dom().intersect(Set::new(|t: TabId| s.lists(t))));
}

/// A tab may be taken from the register as long as it is kept aside.
proof fn lemma_set_aside(s: MuxState, t: TabId)
    requires
        s.sound(),
        s.tabs.contains_key(t),
    ensures
        (MuxState {
            tabs: s.tabs.remove(t),
            orphans: s.orphans.insert(t, s.tabs[t]),
            ..s
        }).sound(),
{
    let mid = MuxState { tabs: s.tabs.remove(t), orphans: s.orphans.insert(t, s.tabs[t]), ..s };
    assert forall|w: WindowId, u: TabId| #[trigger] mid.lists_in(w, u) implies mid.knows_tab(u) by {
        assert(s.lists_in(w, u));
        assert(s.knows_tab(u));
    }
}

pub proof fn lemma_unregistered(s: MuxState, t: TabId)
    requires
        s.sound(),
        s.tabs.contains_key(t),
    ensures
        s.unregistered(t).sound(),
{
    let mid = MuxState { tabs: s.tabs.remove(t), orphans: s.orphans.insert(t, s.tabs[t]), ..s };
    lemma_set_aside(s, t);
    lemma_struck(mid, set![t]);
    if s.windows_locked {
        assert(s.unregistered(t) == mid);
    } else {
        assert(s.unregistered(t) == (MuxState { windows: struck(mid.windows, set![t]), ..mid }));
    }
}

/// Removing a tab takes it out of the register, its panes out of the table of
/// panes, and the tab itself out of the windows unless somebody else holds them.
pub proof fn lemma_without_tab(s: MuxState, t: TabId)
    requires
        s.sound(),
    ensures
        s.without_tab(t).sound(),
        s.tabs.contains_key(t) || s.wf() ==> s.without_tab(t).wf(),
        s.without_tab(t).tabs == s.tabs.remove(t),
        s.without_tab(t).windows == (if s.tabs.contains_key(t) && !s.windows_locked {
            struck(s.windows, set![t])
        } else {
            s.windows
        }),
        s.without_tab(t).panes == (if s.tabs.contains_key(t) {
            s.panes.remove_keys(s.tabs[t].pane_ids().to_set())
        } else {
            s.panes
        }),
        same_surroundings(s, s.without_tab(t)),
{
    if s.tabs.contains_key(t) {
        let a = s.unregistered(t);
        lemma_unregistered(s, t);
        let ids = s.tabs[t].pane_ids();
        lemma_without_panes(a, ids);
        let b = a.without_panes(ids);
        lemma_same_tables(b, b.recounted());
        lemma_swept(b.recounted());
    } else {
        assert(s.tabs.remove(t) =~= s.tabs);
    }
}

impl Mux {
    /// Takes tabs out of every window.
    fn strike_from_windows(&mut self, gone: &Vec<TabId>)
        requires
            old(self)@.sound(),
        ensures
            final(self)@ == (MuxState {
                windows: struck(old(self)@.windows, gone@.to_set()),
                ..old(self)@
            }),
    {
        let ghost s = self@;
        let ghost set = gone@.to_set();
        let ids = self.window_ids();
        let mut i: usize = 0;
        while i < ids.len()
            invariant
                s.sound(),
                set == gone@.to_set(),
                ascending(ids@, s.windows.dom()),
                i <= ids@.len(),
                self@ == (MuxState { windows: self@.windows, ..s }),
                self@.windows.dom() == s.windows.dom(),
                forall|j: int|
                    0 <= j < i ==> self@.windows[#[trigger] ids@[j]] == s.windows[ids@[j]].without(
                        set,
                    ),
                forall|j: int|
                    i <= j < ids@.len() ==> self@.windows[#[trigger] ids@[j]] == s.windows[ids@[j]],
            decreases ids@.len() - i,
        {
            let id = ids[i];
            let ghost mid = self@;
            proof {
                assert(ids@.contains(id));
                assert(s.windows.contains_key(id));
            }
            if let Some(mut window) = self.take_window(id) {
                window.drop_tabs(gone);
                self.put_window(id, window);
            }
            i = i + 1;
            proof {
                assert(self@.windows.dom() =~= s.windows.dom());
                assert forall|j: int| 0 <= j < ids@.len() && j != i - 1 implies self@.windows[#[trigger] ids@[j]]
                    == mid.windows[ids@[j]] by {
                    assert(ids@[j] != id);
                }
            }
        }
        proof {
            assert(self@.windows =~= struck(s.windows, set)) by {
                assert forall|w: WindowId| #[trigger] s.windows.contains_key(w) implies self@.windows[w]
                    == s.windows[w].without(set) by {
                    assert(s.windows.dom().contains(w));
                    let j = ids@.index_of(w);
                    assert(ids@[j] == w);
                }
            }
        }
    }

    /// Forgets the tabs that are neither registered nor listed.
    pub(crate) fn sweep(&mut self)
        requires
            old(self)@.sound(),
        ensures
            final(self)@ == old(self)@.swept(),
            final(self)@.wf(),
    {
        let ghost s = self@;
        let ids = self.orphan_ids();
        let mut i: usize = 0;
        while i < ids.len()
            invariant
                s.sound(),
                ascending(ids@, s.orphans.dom()),
                i <= ids@.len(),
                self@ == (MuxState { orphans: self@.orphans, ..s }),
                forall|t: TabId| #[trigger]
                    self@.orphans.contains_key(t) ==> s.orphans.contains_key(t) && self@.orphans[t]
                        == s.orphans[t],
                forall|j: int|
                    0 <= j < i ==> self@.orphans.contains_key(#[trigger] ids@[j]) == s.lists(
                        ids@[j],
                    ),
                forall|j: int|
                    i <= j < ids@.len() ==> self@.orphans.contains_key(#[trigger] ids@[j]),
            decreases ids@.len() - i,
        {
            let id = ids[i];
            let ghost mid = self@;
            proof {
                assert(ids@.contains(id));
            }
            let listed = self.window_containing_tab(id).is_some();
            proof {
                lemma_listing_agrees(s, mid, id);
            }
            if !listed {
                self.take_orphan(id);
            }
            i = i + 1;
            proof {
                assert forall|j: int| 0 <= j < ids@.len() && j != i - 1 implies self@.orphans.contains_key(
                    #[trigger] ids@[j]) == mid.orphans.contains_key(ids@[j]) by {
                    assert(ids@[j] != id);
                }
            }
        }
        proof {
            assert(self@.orphans =~= s.swept().orphans) by {
                assert forall|t: TabId| #[trigger] self@.orphans.contains_key(t)
                    == s.swept().orphans.contains_key(t) by {
                    if s.orphans.contains_key(t) {
                        assert(s.orphans.dom().contains(t));
                        let j = ids@.index_of(t);
                        assert(ids@[j] == t);
                    }
                }
            }
            lemma_swept(s);
        }
    }

    /// The window that lists a tab.
    pub fn window_containing_tab(&self, tab_id: TabId) -> (found: Option<WindowId>)
        ensures
            found == self@.window_of_tab(tab_id),
    {
        let ids = self.window_ids();
        let mut i: usize = 0;
        while i < ids.len()
            invariant
                ascending(ids@, self@.windows.dom()),
                i <= ids@.len(),
                forall|j: int| 0 <= j < i ==> !self@.lists_in(#[trigger] ids@[j], tab_id),
            decreases ids@.len() - i,
        {
            let id = ids[i];
            if let Some(window) = self.window_ref(id) {
                if contains_id(&window.tabs, tab_id) {
                    proof {
                        assert(self@.lists_in(id, tab_id));
                        assert forall|v: WindowId| #[trigger] self@.lists_in(v, tab_id) implies id
                            <= v by {
                            assert(self@.windows.dom().contains(v));
                            let j = ids@.index_of(v);
                            assert(ids@[j] == v);
                        }
                        lemma_window_of_tab(self@, tab_id, id);
                    }
                    return Some(id);
                }
            }
            assert(!self@.lists_in(ids@[i as int], tab_id));
            i = i + 1;
        }
        proof {
            assert forall|v: WindowId| !#[trigger] self@.lists_in(v, tab_id) by {
                if self@.lists_in(v, tab_id) {
                    assert(self@.windows.dom().contains(v));
                    let j = ids@.index_of(v);
                    assert(ids@[j] == v);
                }
            }
        }
        None
    }

    /// Removes a tab with its panes. Gives back the tab.
    pub(crate) fn remove_tab_internal(&mut self, tab_id: TabId) -> (tab: Option<Tab>)
        requires
            old(self)@.sound(),
        ensures
            final(self)@ == old(self)@.without_tab(tab_id),
            final(self)@.sound(),
            match tab {
                Some(t) => old(self)@.tabs.contains_key(tab_id) && t@ == old(self)@.tabs[tab_id],
                None => !old(self)@.tabs.contains_key(tab_id),
            },
    {
        let ghost s = self@;
        proof {
            lemma_without_tab(s, tab_id);
        }
        let taken = self.take_tab(tab_id);
        match taken {
            None => {
                assert(self@.tabs =~= s.tabs);
                None
            },
            Some(tab) => {
                let ids = tab.ids();
                let copy = tab.duplicate();
                self.put_orphan(tab_id, tab);
                if !self.get_windows_locked() {
                    let mut gone: Vec<TabId> = Vec::new();
                    gone.push(tab_id);
                    proof {
                        lemma_set_aside(s, tab_id);
                        assert(gone@ =~= seq![tab_id]);
                        assert(gone@[0] == tab_id);
                        assert(gone@.to_set() =~= set![tab_id]);
                    }
                    self.strike_from_windows(&gone);
                }
                assert(self@ == s.unregistered(tab_id));
                proof {
                    lemma_unregistered(s, tab_id);
                    lemma_without_panes(self@, ids@);
                }
                self.remove_panes(&ids);
                let ghost b = self@;
                self.recompute_pane_count();
                proof {
                    lemma_same_tables(b, self@);
                }
                self.sweep();
                Some(copy)
            },
        }
    }
}

/// The same for several tabs.
pub proof fn lemma_without_tabs(s: MuxState, ids: Seq<TabId>)
    requires
        s.sound(),
    ensures
        s.without_tabs(ids).sound(),
        s.wf() ==> s.without_tabs(ids).wf(),
        s.without_tabs(ids).tabs == s.tabs.remove_keys(ids.to_set()),
        s.without_tabs(ids).windows.dom() == s.windows.dom(),
        same_surroundings(s, s.without_tabs(ids)),
    decreases ids.len(),
{
    if ids.len() == 0 {
        assert(s.tabs.remove_keys(ids.to_set()) =~= s.tabs);
    } else {
        let rest = ids.drop_last();
        lemma_without_tabs(s, rest);
        let mid = s.without_tabs(rest);
        lemma_without_tab(mid, ids.last());
        lemma_set_of_push(ids);
        let after = s.without_tabs(ids);
        assert(after.windows.dom() =~= mid.windows.dom());
        assert(after.tabs =~= s.tabs.remove_keys(ids.to_set()));
    }
}

/// The members of a list are its last one and those before it.
pub proof fn lemma_set_of_push(ids: Seq<usize>)
    requires
        ids.len() > 0,
    ensures
        ids.to_set() == ids.drop_last().to_set().insert(ids.last()),
{
    let rest = ids.drop_last();
    assert forall|p: usize| #[trigger] ids.to_set().contains(p) <==> rest.to_set().insert(
        ids.last(),
    ).contains(p) by {
        if ids.contains(p) {
            let i = ids.index_of(p);
            if i < rest.len() {
                assert(rest[i] == p);
            }
        }
        if rest.contains(p) {
            let i = rest.index_of(p);
            assert(ids[i] == p);
        }
        assert(ids[ids.len() - 1] == ids.last());
    }
    assert(ids.to_set() =~= rest.to_set().insert(ids.last()));
}

pub proof fn lemma_domains_left(s: MuxState, ids: Seq<DomainId>)
    ensures
        same_tables(s, s.domains_left(ids)),
        s.domains_left(ids).retry_scheduled == s.retry_scheduled,
        s.domains_left(ids).pane_counts == s.pane_counts,
    decreases ids.len(),
{
    if ids.len() > 0 {
        lemma_domains_left(s, ids.drop_last());
    }
}

/// Taking a window away leaves the state sound.
pub proof fn lemma_window_taken(s: MuxState, w: WindowId)
    requires
        s.sound(),
    ensures
        (MuxState { windows: s.windows.remove(w), ..s }).sound(),
{
    let after = MuxState { windows: s.windows.remove(w), ..s };
    assert forall|v: WindowId, t: TabId| #[trigger] after.lists_in(v, t) implies after.knows_tab(
        t,
    ) by {
        assert(s.lists_in(v, t));
        assert(s.knows_tab(t));
    }
}

/// Removing a window takes it and its tabs away and nothing else from those two
/// tables.
pub proof fn lemma_without_window(s: MuxState, w: WindowId)
    requires
        s.sound(),
    ensures
        s.without_window(w).sound(),
        s.wf() ==> s.without_window(w).wf(),
        s.without_window(w).windows.dom() == s.windows.dom().remove(w),
        s.without_window(w).tabs == (if s.windows.contains_key(w) {
            s.tabs.remove_keys(s.windows[w].tabs.to_set())
        } else {
            s.tabs
        }),
        same_surroundings(s, s.without_window(w)),
{
    if s.windows.contains_key(w) {
        let tabs = s.windows[w].tabs;
        let order = in_order(s.domains_in_tabs(tabs));
        let left = s.domains_left(order);
        lemma_domains_left(s, order);
        lemma_same_tables(s, left);
        lemma_window_taken(left, w);
        let mid = MuxState { windows: left.windows.remove(w), ..left };
        lemma_without_tabs(mid, tabs);
        let b = mid.without_tabs(tabs);
        lemma_swept(b);
        let c = b.swept().notified(Notice::WindowRemoved(w));
        lemma_same_tables(b.swept(), c);
        lemma_same_tables(c, c.recounted());
        assert(s.without_window(w) == c.recounted());
        assert(c.windows.dom() =~= s.windows.dom().remove(w));
    } else {
        lemma_same_tables(s, s.recounted());
        assert(s.windows.dom().remove(w) =~= s.windows.dom());
    }
}

/// The same for several windows.
pub proof fn lemma_without_windows(s: MuxState, ids: Seq<WindowId>)
    requires
        s.sound(),
    ensures
        s.without_windows(ids).sound(),
        s.wf() ==> s.without_windows(ids).wf(),
        s.without_windows(ids).windows.dom() == s.windows.dom().difference(ids.to_set()),
        same_surroundings(s, s.without_windows(ids)),
    decreases ids.len(),
{
    if ids.len() == 0 {
        assert(s.windows.dom().difference(ids.to_set()) =~= s.windows.dom());
    } else {
        lemma_without_windows(s, ids.drop_last());
        lemma_without_window(s.without_windows(ids.drop_last()), ids.last());
        lemma_set_of_push(ids);
        assert(s.without_windows(ids).windows.dom() =~= s.windows.dom().difference(ids.to_set()));
    }
}

impl Mux {
    /// The domains of the panes in a list of tabs.
    fn domains_of_tabs(&self, tabs: &Vec<TabId>) -> (ids: Vec<DomainId>)
        requires
            self@.sound(),
            forall|i: int| 0 <= i < tabs@.len() ==> self@.knows_tab(#[trigger] tabs@[i]),
        ensures
            ids@ == in_order(self@.domains_in_tabs(tabs@)),
    {
        let mut found: IdMap<()> = IdMap::new();
        let mut i: usize = 0;
        while i < tabs.len()
            invariant
                self@.sound(),
                i <= tabs@.len(),
                forall|j: int| 0 <= j < tabs@.len() ==> self@.knows_tab(#[trigger] tabs@[j]),
                forall|d: DomainId| #[trigger]
                    found@.contains_key(d) <==> exists|k: int, j: int|
                        0 <= k < i && 0 <= j < self@.tab(tabs@[k]).panes.len() && (
                        #[trigger] self@.tab(tabs@[k]).panes[j]).domain_id == d,
            decreases tabs@.len() - i,
        {
            proof {
                assert(self@.knows_tab(tabs@[i as int]));
            }
            let ghost before = found@;
            if let Some(tab) = self.known_tab(tabs[i]) {
                let mut n: usize = 0;
                while n < tab.panes.len()
                    invariant
                        tab@ == self@.tab(tabs@[i as int]),
                        i < tabs@.len(),
                        n <= tab.panes@.len(),
                        forall|d: DomainId| #[trigger]
                            found@.contains_key(d) <==> before.contains_key(d) || exists|j: int|
                                0 <= j < n && (#[trigger] tab.panes@[j]).domain_id == d,
                    decreases tab.panes@.len() - n,
                {
                    let d = tab.panes[n].domain_id;
                    let ghost f = found@;
                    found.insert(d, ());
                    n = n + 1;
                    proof {
                        assert forall|e: DomainId| #[trigger]
                            found@.contains_key(e) <==> before.contains_key(e) || exists|j: int|
                                0 <= j < n && (#[trigger] tab.panes@[j]).domain_id == e by {
                            if e == d {
                                assert(tab.panes@[n - 1].domain_id == e);
                            }
                            assert(f.contains_key(e) || e == d <==> found@.contains_key(e));
                        }
                    }
                }
                proof {
                    assert forall|d: DomainId| #[trigger]
                        found@.contains_key(d) <==> exists|k: int, j: int|
                            0 <= k < i + 1 && 0 <= j < self@.tab(tabs@[k]).panes.len() && (
                            #[trigger] self@.tab(tabs@[k]).panes[j]).domain_id == d by {
                        if found@.contains_key(d) {
                            if before.contains_key(d) {
                                let (k, j) = choose|k: int, j: int|
                                    0 <= k < i && 0 <= j < self@.tab(tabs@[k]).panes.len() && (
                                    #[trigger] self@.tab(tabs@[k]).panes[j]).domain_id == d;
                                assert(self@.tab(tabs@[k]).panes[j].domain_id == d);
                            } else {
                                let j = choose|j: int|
                                    0 <= j < n && (#[trigger] tab.panes@[j]).domain_id == d;
                                assert(self@.tab(tabs@[i as int]).panes[j].domain_id == d);
                            }
                        }
                        if exists|k: int, j: int|
                            0 <= k < i + 1 && 0 <= j < self@.tab(tabs@[k]).panes.len() && (
                            #[trigger] self@.tab(tabs@[k]).panes[j]).domain_id == d {
                            let (k, j) = choose|k: int, j: int|
                                0 <= k < i + 1 && 0 <= j < self@.tab(tabs@[k]).panes.len() && (
                                #[trigger] self@.tab(tabs@[k]).panes[j]).domain_id == d;
                            if k < i {
                                assert(self@.tab(tabs@[k]).panes[j].domain_id == d);
                                assert(before.contains_key(d));
                            } else {
                                assert(tab.panes@[j].domain_id == d);
                            }
                        }
                    }
                }
            }
            i = i + 1;
        }
        proof {
            assert(found@.dom() =~= self@.domains_in_tabs(tabs@)) by {
                assert forall|d: DomainId| #[trigger] found@.contains_key(d) <==> self@.domain_occurs(
                    tabs@,
                    d,
                ) by {}
            }
        }
        found.ids()
    }

    pub(crate) fn remove_window_internal(&mut self, window_id: WindowId)
        requires
            old(self)@.sound(),
        ensures
            final(self)@ == old(self)@.without_window(window_id),
            final(self)@.sound(),
    {
        let ghost s = self@;
        proof {
            lemma_without_window(s, window_id);
        }
        if let Some(window) = self.window_ref(window_id) {
            let tabs = copy_ids(&window.tabs);
            proof {
                assert forall|i: int| 0 <= i < tabs@.len() implies self@.knows_tab(#[trigger] tabs@[i]) by {
                    assert(s.lists_in(window_id, tabs@[i]));
                }
            }
            let domains = self.domains_of_tabs(&tabs);
            self.leave_domains(&domains);
            let _ = self.take_window(window_id);
            let ghost mid = self@;
            proof {
                lemma_domains_left(s, domains@);
                lemma_same_tables(s, s.domains_left(domains@));
                lemma_window_taken(s.domains_left(domains@), window_id);
            }
            self.remove_tabs(&tabs);
            let ghost b = self@;
            self.sweep();
            self.ask(Effect::Notify(MuxNotification::WindowRemoved(window_id)));
            proof {
                lemma_same_tables(b.swept(), self@);
            }
        }
        self.recompute_pane_count();
    }

    /// Asks to leave those of the domains that can be left.
    fn leave_domains(&mut self, ids: &Vec<DomainId>)
        ensures
            final(self)@ == old(self)@.domains_left(ids@),
    {
        let ghost s = self@;
        let mut i: usize = 0;
        assert(ids@.take(0) =~= Seq::empty());
        while i < ids.len()
            invariant
                i <= ids@.len(),
                self@ == s.domains_left(ids@.take(i as int)),
            decreases ids@.len() - i,
        {
            proof {
                assert(ids@.take(i + 1).drop_last() =~= ids@.take(i as int));
                lemma_domains_left(s, ids@.take(i as int));
            }
            let detachable = match self.domain_ref(ids[i]) {
                Some(d) => d.detachable,
                None => false,
            };
            if detachable {
                self.ask(Effect::DetachDomain(ids[i]));
            }
            i = i + 1;
        }
        assert(ids@.take(i as int) =~= ids@);
    }

    /// Removes tabs one after another.
    pub(crate) fn remove_tabs(&mut self, ids: &Vec<TabId>)
        requires
            old(self)@.sound(),
        ensures
            final(self)@ == old(self)@.without_tabs(ids@),
            final(self)@.sound(),
    {
        let ghost s = self@;
        let mut i: usize = 0;
        assert(ids@.take(0) =~= Seq::empty());
        while i < ids.len()
            invariant
                i <= ids@.len(),
                self@ == s.without_tabs(ids@.take(i as int)),
                self@.sound(),
            decreases ids@.len() - i,
        {
            assert(ids@.take(i + 1).drop_last() =~= ids@.take(i as int));
            let _ = self.remove_tab_internal(ids[i]);
            i = i + 1;
        }
        assert(ids@.take(i as int) =~= ids@);
    }

    /// Removes windows one after another.
    pub(crate) fn remove_windows(&mut self, ids: &Vec<WindowId>)
        requires
            old(self)@.sound(),
        ensures
            final(self)@ == old(self)@.without_windows(ids@),
            final(self)@.sound(),
    {
        let ghost s = self@;
        let mut i: usize = 0;
        assert(ids@.take(0) =~= Seq::empty());
        while i < ids.len()
            invariant
                i <= ids@.len(),
                self@ == s.without_windows(ids@.take(i as int)),
                self@.sound(),
            decreases ids@.len() - i,
        {
            assert(ids@.take(i + 1).drop_last() =~= ids@.take(i as int));
            self.remove_window_internal(ids[i]);
            i = i + 1;
        }
        assert(ids@.take(i as int) =~= ids@);
    }
}

/// Which tabs are listed depends on the windows alone.
pub proof fn lemma_listing_agrees(a: MuxState, b: MuxState, t: TabId)
    requires
        a.windows == b.windows,
    ensures
        a.lists(t) == b.lists(t),
{
    if a.lists(t) {
        let w = choose|w: WindowId| a.lists_in(w, t);
        assert(b.lists_in(w, t));
    }
    if b.lists(t) {
        let w = choose|w: WindowId| b.lists_in(w, t);
        assert(a.lists_in(w, t));
    }
}

/// Which window `window_of_tab` gives.
pub proof fn lemma_window_of_tab(s: MuxState, t: TabId, w: WindowId)
    requires
        s.lists_in(w, t),
        forall|v: WindowId| #[trigger] s.lists_in(v, t) ==> w <= v,
    ensures
        s.window_of_tab(t) == Some(w),
{
    let c = choose|c: WindowId|
        s.lists_in(c, t) && forall|v: WindowId| #[trigger] s.lists_in(v, t) ==> c <= v;
    assert(s.lists_in(c, t));
    assert(s.lists(t));
}

/// The state just before the panes are counted anew is sound.
proof fn lemma_before_recount(s: MuxState, p: PaneId)
    requires
        s.sound(),
        s.panes.contains_key(p),
    ensures
        (MuxState { panes: s.panes.remove(p), ..s }).killed(p).notified(
            Notice::PaneRemoved(p),
        ).sound(),
{
    let after = MuxState { panes: s.panes.remove(p), ..s }.killed(p).notified(
        Notice::PaneRemoved(p),
    );
    assert forall|w: WindowId, t: TabId| #[trigger] after.lists_in(w, t) implies after.knows_tab(
        t,
    ) by {
        assert(s.lists_in(w, t));
        assert(s.knows_tab(t));
    }
}

} // verus!
