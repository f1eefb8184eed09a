//! Finding things in the multiplexer.
use crate::domain::Domain;
use crate::id_map::{
    ascending, in_order, lemma_listing_exists, lemma_picked, lemma_picked_none, lemma_picked_step,
    picked,
};
use crate::ids::{DomainId, PaneId, TabId, WindowId};
use crate::state::MuxState;
use crate::store::Mux;
use crate::tab::{Pane, Tab};
use crate::text::{add_name, is_listed, names_contain, random_name, same_text, sorted_names};
use crate::window::Window;
use vstd::prelude::*;

verus! {

/// Whether a window belongs to the workspace.
pub open spec fn in_use(s: MuxState, workspace: Seq<char>) -> bool {
    exists|w: WindowId| #[trigger]
        s.windows.contains_key(w) && s.windows[w].workspace == workspace
}

/// Whether a window belongs to a workspace with a hyphen in its name.
pub open spec fn hyphen_in_use(s: MuxState) -> bool {
    exists|w: WindowId| #[trigger]
        s.windows.contains_key(w) && s.windows[w].workspace.contains('-')
}

/// Whether some tab holds the pane, be it registered or only listed by a window.
pub open spec fn held_somewhere(s: MuxState, p: PaneId) -> bool {
    exists|t: TabId| #[trigger] s.knows_tab(t) && s.tab(t).holds(p)
}

/// What to do about a name that was drawn for a new workspace.
pub enum NameChoice {
    Take(String),
    DrawAgain,
    GiveUp,
}

/// The windows of a workspace.
pub open spec fn windows_of(s: MuxState, workspace: Seq<char>) -> Set<WindowId> {
    s.windows.dom().filter(|w: WindowId| s.windows[w].workspace == workspace)
}

/// Which tab `tab_of_pane` gives.
pub proof fn lemma_tab_of_pane(s: MuxState, p: PaneId, t: TabId)
    requires
        s.holds_in(t, p),
        forall|u: TabId| #[trigger] s.holds_in(u, p) ==> u <= t,
    ensures
        s.tab_of_pane(p) == Some(t),
{
    let c = choose|c: TabId|
        s.holds_in(c, p) && forall|u: TabId| #[trigger] s.holds_in(u, p) ==> u <= c;
    assert(s.holds_in(c, p));
}

/// What `resolved` gives is in the tables.
pub proof fn lemma_resolved(s: MuxState, p: PaneId)
    requires
        s.sound(),
        s.resolved(p) is Some,
    ensures
        ({
            let (d, w, t) = s.resolved(p)->0;
            &&& s.holds_in(t, p)
            &&& s.lists_in(w, t)
        }),
{
    let (d, w, t) = s.resolved(p)->0;
    lemma_tab_of_pane_exists(s, p);
    lemma_window_of_tab_exists(s, t);
}

pub proof fn lemma_tab_of_pane_exists(s: MuxState, p: PaneId)
    requires
        s.sound(),
        exists|t: TabId| s.holds_in(t, p),
    ensures
        s.holds_in(s.tab_of_pane(p)->0, p),
{
    let holders = s.tabs.dom().filter(|t: TabId| s.holds_in(t, p));
    let one = choose|t: TabId| s.holds_in(t, p);
    assert(holders.contains(one));
    lemma_listing_exists(holders);
    let list = in_order(holders);
    assert(list.contains(one));
    let top = list.last();
    assert(list.contains(top));
    assert(s.holds_in(top, p));
    assert forall|u: TabId| #[trigger] s.holds_in(u, p) implies u <= top by {
        assert(holders.contains(u));
        let i = list.index_of(u);
        assert(list[i] == u);
    }
}

pub proof fn lemma_window_of_tab_exists(s: MuxState, t: TabId)
    requires
        s.sound(),
        s.lists(t),
    ensures
        s.lists_in(s.window_of_tab(t)->0, t),
{
    let holders = s.windows.dom().filter(|w: WindowId| s.lists_in(w, t));
    let one = choose|w: WindowId| s.lists_in(w, t);
    assert(holders.contains(one));
    lemma_listing_exists(holders);
    let list = in_order(holders);
    assert(list.contains(one));
    let first = list[0];
    assert(list.contains(first));
    assert(s.lists_in(first, t));
    assert forall|v: WindowId| #[trigger] s.lists_in(v, t) implies first <= v by {
        assert(holders.contains(v));
        let i = list.index_of(v);
        assert(list[i] == v);
    }
}

impl Mux {
    pub fn get_pane(&self, pane_id: PaneId) -> (pane: Option<Pane>)
        ensures
            pane == (if self@.panes.contains_key(pane_id) {
                Some(self@.panes[pane_id])
            } else {
                None
            }),
    {
        self.pane_at(pane_id)
    }

    pub fn get_tab(&self, tab_id: TabId) -> (tab: Option<&Tab>)
        ensures
            match tab {
                Some(t) => self@.tabs.contains_key(tab_id) && t@ == self@.tabs[tab_id],
                None => !self@.tabs.contains_key(tab_id),
            },
    {
        self.tab_ref(tab_id)
    }

    pub fn get_window(&self, window_id: WindowId) -> (window: Option<&Window>)
        ensures
            match window {
                Some(w) => self@.windows.contains_key(window_id) && w@ == self@.windows[window_id],
                None => !self@.windows.contains_key(window_id),
            },
    {
        self.window_ref(window_id)
    }

    /// The active tab of a window.
    pub fn get_active_tab_for_window(&self, window_id: WindowId) -> (tab: Option<&Tab>)
        requires
            self@.wf(),
        ensures
            match tab {
                Some(t) => {
                    &&& self@.windows.contains_key(window_id)
                    &&& self@.windows[window_id].active_tab() == Some(t@.tab_id)
                    &&& t@ == self@.tab(t@.tab_id)
                },
                None => !self@.windows.contains_key(window_id)
                    || self@.windows[window_id].active_tab() is None,
            },
    {
        match self.window_ref(window_id) {
            None => None,
            Some(window) => match window.get_active() {
                None => None,
                Some(tab_id) => {
                    proof {
                        assert(self@.windows[window_id].tabs.contains(tab_id));
                        assert(self@.lists_in(window_id, tab_id));
                    }
                    self.known_tab(tab_id)
                },
            },
        }
    }

    /// Whether no pane was counted in a workspace.
    pub fn is_workspace_empty(&self, workspace: &str) -> (empty: bool)
        ensures
            empty == (!self@.pane_counts.contains_key(workspace@)
                || self@.pane_counts[workspace@] == 0),
    {
        self.count_of(workspace) == 0
    }

    /// All panes.
    pub fn iter_panes(&self) -> (panes: Vec<Pane>)
        ensures
            panes@ == in_order(self@.panes.dom()).map_values(|p: PaneId| self@.panes[p]),
    {
        let ids = self.pane_ids();
        let mut panes: Vec<Pane> = Vec::new();
        let ghost wanted = ids@.map_values(|p: PaneId| self@.panes[p]);
        let mut i: usize = 0;
        while i < ids.len()
            invariant
                ascending(ids@, self@.panes.dom()),
                wanted == ids@.map_values(|p: PaneId| self@.panes[p]),
                i <= ids@.len(),
                panes@ == wanted.take(i as int),
            decreases ids@.len() - i,
        {
            proof {
                assert(ids@.contains(ids@[i as int]));
            }
            if let Some(pane) = self.pane_at(ids[i]) {
                panes.push(pane);
            }
            i = i + 1;
            assert(panes@ =~= wanted.take(i as int));
        }
        assert(panes@ =~= wanted);
        panes
    }

    /// The ids of all windows.
    pub fn iter_windows(&self) -> (ids: Vec<WindowId>)
        ensures
            ids@ == in_order(self@.windows.dom()),
            ascending(ids@, self@.windows.dom()),
    {
        self.window_ids()
    }

    /// The ids of the windows of a workspace.
    pub fn iter_windows_in_workspace(&self, workspace: &str) -> (found: Vec<WindowId>)
        ensures
            found@ == in_order(windows_of(self@, workspace@)),
            ascending(found@, windows_of(self@, workspace@)),
    {
        let ghost wanted = windows_of(self@, workspace@);
        let ids = self.window_ids();
        let mut found: Vec<WindowId> = Vec::new();
        let mut i: usize = 0;
        proof {
            lemma_picked_none(ids@, wanted);
        }
        while i < ids.len()
            invariant
                wanted == windows_of(self@, workspace@),
                ascending(ids@, self@.windows.dom()),
                i <= ids@.len(),
                found@ == picked(ids@.take(i as int), wanted),
            decreases ids@.len() - i,
        {
            let id = ids[i];
            proof {
                assert(ids@.contains(id));
                lemma_picked_step(ids@, i as int, wanted);
            }
            let hit = match self.window_ref(id) {
                Some(window) => same_text(window.workspace.as_str(), workspace),
                None => false,
            };
            if hit {
                found.push(id);
            }
            i = i + 1;
        }
        proof {
            assert(ids@.take(i as int) =~= ids@);
            lemma_picked(ids@, self@.windows.dom(), wanted);
        }
        found
    }

    /// All domains.
    pub fn iter_domains(&self) -> (domains: Vec<Domain>)
        ensures
            domains@.map_values(|d: Domain| d@) == in_order(self@.domains.dom()).map_values(
                |d: DomainId| self@.domains[d],
            ),
    {
        let ids = self.domain_ids();
        let mut domains: Vec<Domain> = Vec::new();
        let ghost wanted = ids@.map_values(|d: DomainId| self@.domains[d]);
        let mut i: usize = 0;
        assert(domains@.map_values(|d: Domain| d@) =~= wanted.take(0));
        while i < ids.len()
            invariant
                ascending(ids@, self@.domains.dom()),
                wanted == ids@.map_values(|d: DomainId| self@.domains[d]),
                i <= ids@.len(),
                domains@.map_values(|d: Domain| d@) == wanted.take(i as int),
            decreases ids@.len() - i,
        {
            proof {
                assert(ids@.contains(ids@[i as int]));
            }
            let ghost before = domains@;
            if let Some(domain) = self.domain_ref(ids[i]) {
                domains.push(domain.duplicate());
                assert(domains@.map_values(|d: Domain| d@) =~= before.map_values(
                    |d: Domain| d@,
                ).push(domain@));
            }
            i = i + 1;
            assert(domains@.map_values(|d: Domain| d@) =~= wanted.take(i as int));
        }
        assert(domains@.map_values(|d: Domain| d@) =~= wanted);
        domains
    }

    /// The names of the workspaces that have windows, in order.
    pub fn iter_workspaces(&self) -> (names: Vec<String>)
        ensures
            sorted_names(names@),
            forall|n: Seq<char>| #[trigger] names_contain(names@, n) <==> in_use(self@, n),
    {
        let ids = self.window_ids();
        let mut names: Vec<String> = Vec::new();
        let mut i: usize = 0;
        while i < ids.len()
            invariant
                ascending(ids@, self@.windows.dom()),
                i <= ids@.len(),
                sorted_names(names@),
                forall|n: Seq<char>| #[trigger]
                    names_contain(names@, n) <==> exists|j: int|
                        0 <= j < i && self@.windows[#[trigger] ids@[j]].workspace == n,
            decreases ids@.len() - i,
        {
            let id = ids[i];
            proof {
                assert(ids@.contains(id));
            }
            let ghost before = names@;
            if let Some(window) = self.window_ref(id) {
                add_name(&mut names, window.workspace.as_str());
            }
            i = i + 1;
            proof {
                assert forall|n: Seq<char>| #[trigger]
                    names_contain(names@, n) <==> exists|j: int|
                        0 <= j < i && self@.windows[#[trigger] ids@[j]].workspace == n by {
                    if names_contain(before, n) {
                        let j = choose|j: int|
                            0 <= j < i - 1 && self@.windows[#[trigger] ids@[j]].workspace == n;
                        assert(self@.windows[ids@[j]].workspace == n);
                    }
                    if n == self@.windows[id].workspace {
                        assert(self@.windows[ids@[i - 1]].workspace == n);
                    }
                    if exists|j: int|
                        0 <= j < i && self@.windows[#[trigger] ids@[j]].workspace == n {
                        let j = choose|j: int|
                            0 <= j < i && self@.windows[#[trigger] ids@[j]].workspace == n;
                        if j < i - 1 {
                            assert(names_contain(before, n));
                        }
                    }
                }
            }
        }
        proof {
            assert forall|n: Seq<char>| #[trigger] names_contain(names@, n) <==> in_use(self@, n) by {
                if names_contain(names@, n) {
                    let j = choose|j: int|
                        0 <= j < i && self@.windows[#[trigger] ids@[j]].workspace == n;
                    assert(ids@.contains(ids@[j]));
                    assert(self@.windows.contains_key(ids@[j]));
                }
                if in_use(self@, n) {
                    let w = choose|w: WindowId| #[trigger]
                        self@.windows.contains_key(w) && self@.windows[w].workspace == n;
                    assert(self@.windows.dom().contains(w));
                    let j = ids@.index_of(w);
                    assert(self@.windows[ids@[j]].workspace == n);
                }
            }
        }
        names
    }

    /// What to do about a name that was drawn for a new workspace: it is taken unless
    /// a workspace has it already, and then another is drawn while tries are left.
    pub fn consider_workspace_name(&self, candidate: String, tries_left: usize) -> (choice:
        NameChoice)
        ensures
            match choice {
                NameChoice::Take(name) => name@ == candidate@ && !in_use(self@, candidate@),
                NameChoice::DrawAgain => in_use(self@, candidate@) && tries_left > 0,
                NameChoice::GiveUp => in_use(self@, candidate@) && tries_left == 0,
            },
    {
        let used = self.iter_workspaces();
        if !is_listed(&used, candidate.as_str()) {
            NameChoice::Take(candidate)
        } else if tries_left > 0 {
            NameChoice::DrawAgain
        } else {
            NameChoice::GiveUp
        }
    }

    /// Makes up a name that no workspace has yet. Names are tried until one will
    /// do; there is none only if a practically endless number of them was taken,
    /// which cannot be as long as no workspace has a hyphen in its name. Which name
    /// it is depends on chance.
    pub fn generate_workspace_name(&self) -> (name: Option<String>)
        ensures
            match name {
                Some(n) => !in_use(self@, n@) && n@.contains('-'),
                None => hyphen_in_use(self@),
            },
    {
        let mut tries_left: usize = usize::MAX;
        loop
            decreases tries_left,
        {
            let candidate = random_name().unwrap();
            let ghost tried = candidate@;
            match self.consider_workspace_name(candidate, tries_left) {
                NameChoice::Take(name) => {
                    return Some(name);
                },
                NameChoice::DrawAgain => {
                    tries_left = tries_left - 1;
                },
                NameChoice::GiveUp => {
                    proof {
                        let w = choose|w: WindowId| #[trigger]
                            self@.windows.contains_key(w) && self@.windows[w].workspace == tried;
                        assert(self@.windows.contains_key(w));
                    }
                    return None;
                },
            }
        }
    }

    /// Whether the pane still matters: it is known, or some tab holds it. The host
    /// reports on such panes, and may forget the others.
    pub fn needs_pane(&self, pane_id: PaneId) -> (needed: bool)
        requires
            self@.sound(),
        ensures
            needed == (self@.panes.contains_key(pane_id) || held_somewhere(self@, pane_id)),
    {
        if self.pane_at(pane_id).is_some() {
            return true;
        }
        let ids = self.tab_ids();
        let mut i: usize = 0;
        while i < ids.len()
            invariant
                self@.sound(),
                ascending(ids@, self@.tabs.dom()),
                i <= ids@.len(),
                forall|j: int| 0 <= j < i ==> !self@.tabs[#[trigger] ids@[j]].holds(pane_id),
            decreases ids@.len() - i,
        {
            assert(ids@.contains(ids@[i as int]));
            if let Some(tab) = self.tab_ref(ids[i]) {
                if tab.find(pane_id).is_some() {
                    assert(self@.knows_tab(ids@[i as int]));
                    return true;
                }
            }
            i = i + 1;
        }
        let orphans = self.orphan_ids();
        let mut k: usize = 0;
        while k < orphans.len()
            invariant
                self@.sound(),
                ascending(orphans@, self@.orphans.dom()),
                k <= orphans@.len(),
                forall|j: int|
                    0 <= j < k ==> !self@.orphans[#[trigger] orphans@[j]].holds(pane_id),
            decreases orphans@.len() - k,
        {
            assert(orphans@.contains(orphans@[k as int]));
            if let Some(tab) = self.orphan_ref(orphans[k]) {
                if tab.find(pane_id).is_some() {
                    assert(self@.knows_tab(orphans@[k as int]));
                    assert(self@.orphans.contains_key(orphans@[k as int]));
                    return true;
                }
            }
            k = k + 1;
        }
        proof {
            assert forall|t: TabId| #[trigger] self@.knows_tab(t) implies !self@.tab(t).holds(
                pane_id,
            ) by {
                if self@.tabs.contains_key(t) {
                    assert(self@.tabs.dom().contains(t));
                    let j = ids@.index_of(t);
                    assert(ids@[j] == t);
                } else {
                    assert(self@.orphans.dom().contains(t));
                    let j = orphans@.index_of(t);
                    assert(orphans@[j] == t);
                }
            }
        }
        false
    }

    /// The domain, the window and the tab of a pane.
    pub fn resolve_pane_id(&self, pane_id: PaneId) -> (ids: Option<(DomainId, WindowId, TabId)>)
        ensures
            ids == self@.resolved(pane_id),
    {
        let ids = self.tab_ids();
        let mut found: Option<(TabId, DomainId)> = None;
        let mut i: usize = 0;
        while i < ids.len()
            invariant
                ascending(ids@, self@.tabs.dom()),
                i <= ids@.len(),
                match found {
                    Some((t, d)) => {
                        &&& self@.holds_in(t, pane_id)
                        &&& d == self@.tabs[t].panes[self@.tabs[t].place_of(
                            pane_id,
                        )].domain_id
                        &&& forall|j: int|
                            0 <= j < i && self@.holds_in(#[trigger] ids@[j], pane_id) ==> ids@[j]
                                <= t
                        &&& exists|j: int| 0 <= j < i && ids@[j] == t
                    },
                    None => forall|j: int| 0 <= j < i ==> !self@.holds_in(#[trigger] ids@[j], pane_id),
                },
            decreases ids@.len() - i,
        {
            let id = ids[i];
            proof {
                assert(ids@.contains(id));
            }
            let ghost before = found;
            if let Some(tab) = self.tab_ref(id) {
                if let Some(at) = tab.find(pane_id) {
                    found = Some((id, tab.panes[at].domain_id));
                    proof {
                        assert(self@.holds_in(id, pane_id));
                        assert(ids@[i as int] == id);
                    }
                } else {
                    assert(!self@.holds_in(ids@[i as int], pane_id));
                }
            }
            i = i + 1;
        }
        proof {
            assert forall|u: TabId| #[trigger] self@.holds_in(u, pane_id) implies match found {
                Some((t, d)) => u <= t,
                None => false,
            } by {
                assert(self@.tabs.dom().contains(u));
                let j = ids@.index_of(u);
                assert(ids@[j] == u);
            }
        }
        match found {
            None => None,
            Some((tab_id, domain_id)) => {
                proof {
                    lemma_tab_of_pane(self@, pane_id, tab_id);
                }
                match self.window_containing_tab(tab_id) {
                    None => None,
                    Some(window_id) => Some((domain_id, window_id, tab_id)),
                }
            },
        }
    }
}

} // verus!
