//! Panes, and the tabs that hold them.
use crate::host::TerminalSize;
use crate::ids::{DomainId, PaneId, TabId};
use vstd::prelude::*;

verus! {

/// A pane: something that runs in a domain and has a screen.
#[derive(Clone, Copy, Debug, PartialEq, Eq, Structural)]
pub struct Pane {
    pub pane_id: PaneId,
    pub domain_id: DomainId,
}

/// What a pane says when it is asked for the reader of its output.
#[derive(Clone, Copy, Debug, PartialEq, Eq, Structural)]
pub enum ReaderOffer {
    /// Here it is.
    Reader,
    /// There is none.
    NoReader,
    /// It could not be had.
    Failed,
}

/// What a tab is.
#[verifier::ext_equal]
pub struct TabState {
    pub tab_id: TabId,
    pub panes: Seq<Pane>,
    /// The pane that has the focus within the tab.
    pub active: Option<PaneId>,
    pub size: TerminalSize,
    /// Whether somebody else is at work on the tab, so that its panes cannot be
    /// counted right now.
    pub busy: bool,
}

impl TabState {
    pub open spec fn holds(self, pane_id: PaneId) -> bool {
        exists|i: int| 0 <= i < self.panes.len() && (#[trigger] self.panes[i]).pane_id == pane_id
    }

    /// The first place at which the pane stands.
    pub open spec fn place_of(self, pane_id: PaneId) -> int {
        choose|i: int|
            0 <= i < self.panes.len() && (#[trigger] self.panes[i]).pane_id == pane_id && forall|
                j: int,
            |
                0 <= j < i ==> (#[trigger] self.panes[j]).pane_id != pane_id
    }

    pub open spec fn pane_ids(self) -> Seq<PaneId> {
        self.panes.map_values(|p: Pane| p.pane_id)
    }

    /// The panes of a domain, in their order.
    pub open spec fn panes_in_domain(self, domain: DomainId) -> Seq<PaneId> {
        panes_in_domain(self.panes, domain)
    }

    /// The tab with one more pane, which gets the focus if nothing else has it.
    pub open spec fn assigned(self, pane: Pane) -> TabState {
        TabState {
            panes: self.panes.push(pane),
            active: if self.active is Some {
                self.active
            } else {
                Some(pane.pane_id)
            },
            ..self
        }
    }

    /// The tab without a pane. If that pane had the focus, the first of those
    /// that are left gets it.
    pub open spec fn without(self, pane_id: PaneId) -> TabState {
        if self.holds(pane_id) {
            let left = self.panes.remove(self.place_of(pane_id));
            TabState {
                panes: left,
                active: if self.active != Some(pane_id) {
                    self.active
                } else if left.len() > 0 {
                    Some(left[0].pane_id)
                } else {
                    None
                },
                ..self
            }
        } else {
            self
        }
    }

    /// The pane that has the focus.
    pub open spec fn active_pane(self) -> Option<Pane> {
        match self.active {
            Some(id) => if self.holds(id) {
                Some(self.panes[self.place_of(id)])
            } else {
                None
            },
            None => None,
        }
    }
}

/// The ids of those panes that are in a domain, in their order.
pub open spec fn panes_in_domain(panes: Seq<Pane>, domain: DomainId) -> Seq<PaneId>
    decreases panes.len(),
{
    if panes.len() == 0 {
        Seq::empty()
    } else {
        let front = panes_in_domain(panes.drop_last(), domain);
        if panes.last().domain_id == domain {
            front.push(panes.last().pane_id)
        } else {
            front
        }
    }
}

/// A tab without panes.
pub open spec fn new_tab(tab_id: TabId, size: TerminalSize) -> TabState {
    TabState { tab_id, panes: Seq::empty(), active: None, size, busy: false }
}

/// Where a pane stands: there is exactly one first place.
pub proof fn lemma_place_of(tab: TabState, pane_id: PaneId, i: int)
    requires
        0 <= i < tab.panes.len(),
        tab.panes[i].pane_id == pane_id,
        forall|j: int| 0 <= j < i ==> (#[trigger] tab.panes[j]).pane_id != pane_id,
    ensures
        tab.holds(pane_id),
        tab.place_of(pane_id) == i,
{
    let k = tab.place_of(pane_id);
    assert(0 <= k < tab.panes.len() && tab.panes[k].pane_id == pane_id);
    if k < i {
        assert(tab.panes[k].pane_id != pane_id);
    }
    if i < k {
        assert(tab.panes[i].pane_id != pane_id);
    }
}

/// A tab.
pub struct Tab {
    pub tab_id: TabId,
    pub panes: Vec<Pane>,
    pub active: Option<PaneId>,
    pub size: TerminalSize,
    pub busy: bool,
}

impl View for Tab {
    type V = TabState;

    open spec fn view(&self) -> TabState {
        TabState {
            tab_id: self.tab_id,
            panes: self.panes@,
            active: self.active,
            size: self.size,
            busy: self.busy,
        }
    }
}

impl Tab {
    /// A tab without panes.
    pub fn new(tab_id: TabId, size: TerminalSize) -> (tab: Self)
        ensures
            tab@ == new_tab(tab_id, size),
    {
        Tab { tab_id, panes: Vec::new(), active: None, size, busy: false }
    }

    pub fn duplicate(&self) -> (tab: Self)
        ensures
            tab@ == self@,
    {
        let mut panes: Vec<Pane> = Vec::new();
        let mut i: usize = 0;
        while i < self.panes.len()
            invariant
                i <= self.panes@.len(),
                panes@ == self.panes@.take(i as int),
            decreases self.panes@.len() - i,
        {
            panes.push(self.panes[i]);
            i = i + 1;
            assert(panes@ =~= self.panes@.take(i as int));
        }
        assert(panes@ =~= self.panes@);
        Tab { tab_id: self.tab_id, panes, active: self.active, size: self.size, busy: self.busy }
    }

    /// Puts a pane into the tab, gives it the focus if nothing else has it.
    pub fn assign_pane(&mut self, pane: Pane)
        ensures
            final(self)@ == old(self)@.assigned(pane),
    {
        self.panes.push(pane);
        if self.active.is_none() {
            self.active = Some(pane.pane_id);
        }
    }

    /// The number of panes, unless somebody else is at work on the tab.
    pub fn count_panes(&self) -> (count: Option<usize>)
        ensures
            match count {
                Some(n) => !self@.busy && n == self@.panes.len(),
                None => self@.busy,
            },
    {
        if self.busy {
            None
        } else {
            Some(self.panes.len())
        }
    }

    /// The ids of the panes.
    pub fn ids(&self) -> (ids: Vec<PaneId>)
        ensures
            ids@ == self@.pane_ids(),
    {
        let mut ids: Vec<PaneId> = Vec::new();
        let mut i: usize = 0;
        while i < self.panes.len()
            invariant
                i <= self.panes@.len(),
                ids@ == self@.pane_ids().take(i as int),
            decreases self.panes@.len() - i,
        {
            ids.push(self.panes[i].pane_id);
            i = i + 1;
            assert(ids@ =~= self@.pane_ids().take(i as int));
        }
        assert(ids@ =~= self@.pane_ids());
        ids
    }

    /// Where the pane stands.
    pub fn find(&self, pane_id: PaneId) -> (at: Option<usize>)
        ensures
            match at {
                Some(i) => i < self@.panes.len() && self@.holds(pane_id) && self@.place_of(pane_id)
                    == i && self@.panes[i as int].pane_id == pane_id,
                None => !self@.holds(pane_id),
            },
    {
        let mut i: usize = 0;
        while i < self.panes.len()
            invariant
                i <= self.panes@.len(),
                forall|j: int| 0 <= j < i ==> (#[trigger] self.panes@[j]).pane_id != pane_id,
            decreases self.panes@.len() - i,
        {
            if self.panes[i].pane_id == pane_id {
                proof {
                    lemma_place_of(self@, pane_id, i as int);
                }
                return Some(i);
            }
            i = i + 1;
        }
        None
    }

    /// The pane that has the focus.
    pub fn get_active_pane(&self) -> (pane: Option<Pane>)
        ensures
            pane == self@.active_pane(),
    {
        match self.active {
            Some(id) => match self.find(id) {
                Some(i) => Some(self.panes[i]),
                None => None,
            },
            None => None,
        }
    }

    /// The ids of the panes that are in a domain.
    pub fn ids_in_domain(&self, domain: DomainId) -> (ids: Vec<PaneId>)
        ensures
            ids@ == self@.panes_in_domain(domain),
    {
        let mut ids: Vec<PaneId> = Vec::new();
        let mut i: usize = 0;
        assert(self.panes@.take(0) =~= Seq::empty());
        while i < self.panes.len()
            invariant
                i <= self.panes@.len(),
                ids@ == panes_in_domain(self.panes@.take(i as int), domain),
            decreases self.panes@.len() - i,
        {
            assert(self.panes@.take(i + 1).drop_last() =~= self.panes@.take(i as int));
            if self.panes[i].domain_id == domain {
                ids.push(self.panes[i].pane_id);
            }
            i = i + 1;
        }
        assert(self.panes@.take(i as int) =~= self.panes@);
        ids
    }

    /// Takes a pane out of the tab.
    pub fn remove_pane(&mut self, pane_id: PaneId) -> (pane: Option<Pane>)
        ensures
            final(self)@ == old(self)@.without(pane_id),
            pane == (if old(self)@.holds(pane_id) {
                Some(old(self)@.panes[old(self)@.place_of(pane_id)])
            } else {
                None
            }),
    {
        match self.find(pane_id) {
            Some(i) => {
                let pane = self.panes.remove(i);
                if self.active == Some(pane_id) {
                    self.active =
                    if self.panes.len() > 0 {
                        Some(self.panes[0].pane_id)
                    } else {
                        None
                    };
                }
                Some(pane)
            },
            None => None,
        }
    }
}

} // verus!
