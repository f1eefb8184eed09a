//! Counting the panes of each workspace.
use crate::id_map::{ascending, in_order};
use crate::ids::{TabId, WindowId};
use crate::name_map::NameMap;
use crate::parser::saturated;
use crate::state::MuxState;
use crate::store::Mux;
use crate::tab::Tab;
use vstd::prelude::*;

verus! {

/// Whether one of the windows in `ids` belongs to the workspace and has a tab.
spec fn has_tabs_among(s: MuxState, ids: Seq<WindowId>, workspace: Seq<char>) -> bool {
    exists|i: int|
        0 <= i < ids.len() && s.windows[#[trigger] ids[i]].workspace == workspace
            && s.windows[ids[i]].tabs.len() > 0
}

/// The counts that the windows in `ids` give.
spec fn counts_among(s: MuxState, ids: Seq<WindowId>) -> Map<Seq<char>, usize> {
    Map::new(
        |ws: Seq<char>| has_tabs_among(s, ids, ws),
        |ws: Seq<char>| saturated(s.panes_in_windows(ids, ws) as int),
    )
}

proof fn lemma_no_tabs_no_panes(s: MuxState, ids: Seq<WindowId>, workspace: Seq<char>)
    requires
        !has_tabs_among(s, ids, workspace),
    ensures
        s.panes_in_windows(ids, workspace) == 0,
    decreases ids.len(),
{
    if ids.len() > 0 {
        let rest = ids.drop_last();
        assert(!has_tabs_among(s, rest, workspace)) by {
            if has_tabs_among(s, rest, workspace) {
                let i = choose|i: int|
                    0 <= i < rest.len() && s.windows[#[trigger] rest[i]].workspace == workspace
                        && s.windows[rest[i]].tabs.len() > 0;
                assert(ids[i] == rest[i]);
            }
        }
        lemma_no_tabs_no_panes(s, rest, workspace);
        assert(ids[ids.len() - 1] == ids.last());
    }
}

/// One more window.
proof fn lemma_counts_push(s: MuxState, ids: Seq<WindowId>, w: WindowId)
    ensures
        ({
            let before = counts_among(s, ids);
            let ws = s.windows[w].workspace;
            let have: int = if before.contains_key(ws) {
                before[ws] as int
            } else {
                0
            };
            let panes = saturated(s.panes_in_tabs(s.windows[w].tabs) as int);
            counts_among(s, ids.push(w)) == (if s.windows[w].tabs.len() > 0 {
                before.insert(ws, saturated(have + panes))
            } else {
                before
            })
        }),
{
    let more = ids.push(w);
    let ws = s.windows[w].workspace;
    assert(more.drop_last() =~= ids);
    assert forall|n: Seq<char>| #[trigger] has_tabs_among(s, more, n) <==> has_tabs_among(s, ids, n)
        || (n == ws && s.windows[w].tabs.len() > 0) by {
        if has_tabs_among(s, ids, n) {
            let i = choose|i: int|
                0 <= i < ids.len() && s.windows[#[trigger] ids[i]].workspace == n
                    && s.windows[ids[i]].tabs.len() > 0;
            assert(more[i] == ids[i]);
        }
        if n == ws && s.windows[w].tabs.len() > 0 {
            assert(more[ids.len() as int] == w);
        }
        if has_tabs_among(s, more, n) {
            let i = choose|i: int|
                0 <= i < more.len() && s.windows[#[trigger] more[i]].workspace == n
                    && s.windows[more[i]].tabs.len() > 0;
            if i < ids.len() {
                assert(ids[i] == more[i]);
            }
        }
    }
    if !has_tabs_among(s, ids, ws) {
        lemma_no_tabs_no_panes(s, ids, ws);
    }
    let before = counts_among(s, ids);
    let have: int = if before.contains_key(ws) {
        before[ws] as int
    } else {
        0
    };
    let panes = saturated(s.panes_in_tabs(s.windows[w].tabs) as int);
    if s.windows[w].tabs.len() > 0 {
        assert(counts_among(s, more) =~= before.insert(ws, saturated(have + panes)));
    } else {
        assert(s.panes_in_tabs(s.windows[w].tabs) == 0);
        assert(counts_among(s, more) =~= before);
    }
}

impl Mux {
    /// A tab, registered or not.
    pub(crate) fn known_tab(&self, tab_id: TabId) -> (tab: Option<&Tab>)
        requires
            self@.sound(),
        ensures
            match tab {
                Some(t) => self@.knows_tab(tab_id) && self@.tab(tab_id) == t@,
                None => !self@.knows_tab(tab_id),
            },
    {
        match self.tab_ref(tab_id) {
            Some(tab) => Some(tab),
            None => self.orphan_ref(tab_id),
        }
    }

    /// The panes of a list of tabs, unless somebody is at work on one of them.
    fn count_tabs(&self, tabs: &Vec<TabId>) -> (count: Option<usize>)
        requires
            self@.sound(),
            forall|i: int| 0 <= i < tabs@.len() ==> self@.knows_tab(#[trigger] tabs@[i]),
        ensures
            match count {
                Some(n) => {
                    &&& n == saturated(self@.panes_in_tabs(tabs@) as int)
                    &&& forall|i: int|
                        0 <= i < tabs@.len() ==> !self@.tab(#[trigger] tabs@[i]).busy
                },
                None => exists|i: int|
                    0 <= i < tabs@.len() && self@.tab(#[trigger] tabs@[i]).busy,
            },
    {
        let mut total: usize = 0;
        let mut i: usize = 0;
        assert(tabs@.take(0) =~= Seq::empty());
        while i < tabs.len()
            invariant
                self@.sound(),
                i <= tabs@.len(),
                total == saturated(self@.panes_in_tabs(tabs@.take(i as int)) as int),
                forall|j: int| 0 <= j < tabs@.len() ==> self@.knows_tab(#[trigger] tabs@[j]),
                forall|j: int| 0 <= j < i ==> !self@.tab(#[trigger] tabs@[j]).busy,
            decreases tabs@.len() - i,
        {
            proof {
                assert(tabs@.take(i + 1).drop_last() =~= tabs@.take(i as int));
                assert(self@.knows_tab(tabs@[i as int]));
            }
            match self.known_tab(tabs[i]) {
                Some(tab) => match tab.count_panes() {
                    Some(n) => {
                        total = total.saturating_add(n);
                    },
                    None => {
                        assert(self@.tab(tabs@[i as int]).busy);
                        return None;
                    },
                },
                None => {},
            }
            i = i + 1;
        }
        assert(tabs@.take(i as int) =~= tabs@);
        Some(total)
    }

    /// Counts the panes of each workspace anew. Leaves the counts alone while
    /// somebody is at work on one of the tabs.
    pub(crate) fn recompute_pane_count(&mut self)
        requires
            old(self)@.sound(),
        ensures
            final(self)@ == old(self)@.recounted(),
    {
        let ghost s = self@;
        let ids = self.window_ids();
        let mut counts: NameMap<usize> = NameMap::new();
        let mut i: usize = 0;
        proof {
            assert(ids@.take(0) =~= Seq::empty());
            assert(counts@ =~= counts_among(s, ids@.take(0)));
        }
        while i < ids.len()
            invariant
                self@ == s,
                s.sound(),
                ids@ == in_order(s.windows.dom()),
                ascending(ids@, s.windows.dom()),
                i <= ids@.len(),
                counts@ == counts_among(s, ids@.take(i as int)),
                forall|j: int, t: TabId|
                    0 <= j < i && #[trigger] s.lists_in(ids@[j], t) ==> !s.tab(t).busy,
            decreases ids@.len() - i,
        {
            let id = ids[i];
            proof {
                assert(ids@.contains(id));
                assert(s.windows.contains_key(id));
                assert(ids@.take(i + 1) =~= ids@.take(i as int).push(id));
                lemma_counts_push(s, ids@.take(i as int), id);
            }
            match self.window_ref(id) {
                Some(window) => {
                    proof {
                        assert forall|j: int| 0 <= j < window.tabs@.len() implies s.knows_tab(
                            #[trigger] window.tabs@[j],
                        ) by {
                            assert(s.lists_in(id, window.tabs@[j]));
                        }
                    }
                    match self.count_tabs(&window.tabs) {
                        Some(n) => {
                            proof {
                                assert forall|t: TabId| #[trigger] s.lists_in(id, t) implies !s.tab(
                                    t,
                                ).busy by {
                                    let k = window.tabs@.index_of(t);
                                    assert(window.tabs@[k] == t);
                                }
                            }
                            if !window.is_empty() {
                                let have: usize = match counts.get(window.workspace.as_str()) {
                                    Some(c) => *c,
                                    None => 0,
                                };
                                counts.insert(window.workspace.clone(), have.saturating_add(n));
                            }
                        },
                        None => {
                            proof {
                                let k = choose|k: int|
                                    0 <= k < window.tabs@.len() && s.tab(#[trigger] window.tabs@[k]).busy;
                                assert(s.lists_in(id, window.tabs@[k]));
                                assert(s.count_blocked());
                            }
                            return ;
                        },
                    }
                },
                None => {},
            }
            i = i + 1;
        }
        proof {
            assert(ids@.take(i as int) =~= ids@);
            assert(!s.count_blocked()) by {
                if s.count_blocked() {
                    let (w, t) = choose|w: WindowId, t: TabId|
                        #[trigger] s.lists_in(w, t) && s.tab(t).busy;
                    assert(s.windows.dom().contains(w));
                    let j = ids@.index_of(w);
                    assert(s.lists_in(ids@[j], t));
                }
            }
            assert forall|ws: Seq<char>| #[trigger] s.has_tabs(ws) <==> has_tabs_among(s, ids@, ws) by {
                if s.has_tabs(ws) {
                    let w = choose|w: WindowId| #[trigger]
                        s.windows.contains_key(w) && s.windows[w].workspace == ws
                            && s.windows[w].tabs.len() > 0;
                    assert(s.windows.dom().contains(w));
                    let j = ids@.index_of(w);
                    assert(ids@[j] == w);
                }
                if has_tabs_among(s, ids@, ws) {
                    let j = choose|j: int|
                        0 <= j < ids@.len() && s.windows[#[trigger] ids@[j]].workspace == ws
                            && s.windows[ids@[j]].tabs.len() > 0;
                    assert(ids@.contains(ids@[j]));
                    assert(s.windows.contains_key(ids@[j]));
                }
            }
            assert(counts@ =~= s.counts());
        }
        self.put_counts(counts);
    }
}

} // verus!
