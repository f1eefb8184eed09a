//! Windows: ordered lists of tabs that belong to a workspace.
use crate::host::GuiPosition;
use crate::ids::{TabId, WindowId};
use vstd::prelude::*;

verus! {

/// What a window is.
#[verifier::ext_equal]
pub struct WindowState {
    pub window_id: WindowId,
    pub workspace: Seq<char>,
    pub tabs: Seq<TabId>,
    /// The position of the active tab.
    pub active: usize,
    /// The tab that was active before.
    pub last_active: Option<TabId>,
    /// Where the window first goes on the screen, if that was asked for.
    pub position: Option<GuiPosition>,
}

/// Those of the tabs that are not in `gone`, in their order.
pub open spec fn staying(tabs: Seq<TabId>, gone: Set<TabId>) -> Seq<TabId> {
    tabs.filter(|t: TabId| !gone.contains(t))
}

impl WindowState {
    /// A tab is listed at most once, and the active position is one of the list
    /// unless the list is empty.
    pub open spec fn wf(self) -> bool {
        &&& self.tabs.no_duplicates()
        &&& self.active < self.tabs.len() || (self.tabs.len() == 0 && self.active == 0)
    }

    /// The window without the tabs in `gone`. The active tab stays active; if it
    /// goes, the next one that stays takes over, or else the last.
    pub open spec fn without(self, gone: Set<TabId>) -> WindowState {
        let left = staying(self.tabs, gone);
        let before = staying(self.tabs.take(self.active as int), gone).len();
        WindowState {
            tabs: left,
            active: if left.len() == 0 {
                0
            } else if before < left.len() {
                before as usize
            } else {
                (left.len() - 1) as usize
            },
            ..self
        }
    }

    pub open spec fn active_tab(self) -> Option<TabId> {
        if self.active < self.tabs.len() {
            Some(self.tabs[self.active as int])
        } else {
            None
        }
    }

    /// The window with the tab at `idx` active, and the one that was active
    /// before remembered, unless they are the same.
    pub open spec fn activated(self, idx: int) -> WindowState {
        if idx == self.active {
            self
        } else {
            WindowState { active: idx as usize, last_active: self.active_tab(), ..self }
        }
    }
}

/// `staying` depends only on which of the listed tabs go.
pub proof fn lemma_staying_agrees(tabs: Seq<TabId>, a: Set<TabId>, b: Set<TabId>)
    requires
        forall|i: int| 0 <= i < tabs.len() ==> a.contains(#[trigger] tabs[i]) == b.contains(tabs[i]),
    ensures
        staying(tabs, a) == staying(tabs, b),
    decreases tabs.len(),
{
    reveal(Seq::filter);
    if tabs.len() > 0 {
        assert forall|i: int| 0 <= i < tabs.drop_last().len() implies a.contains(
            #[trigger] tabs.drop_last()[i],
        ) == b.contains(tabs.drop_last()[i]) by {
            assert(tabs.drop_last()[i] == tabs[i]);
        }
        assert(a.contains(tabs[tabs.len() - 1]) == b.contains(tabs[tabs.len() - 1]));
        lemma_staying_agrees(tabs.drop_last(), a, b);
    }
}

/// One more tab in the list.
pub proof fn lemma_staying_push(tabs: Seq<TabId>, tab: TabId, gone: Set<TabId>)
    ensures
        staying(tabs.push(tab), gone) == (if gone.contains(tab) {
            staying(tabs, gone)
        } else {
            staying(tabs, gone).push(tab)
        }),
{
    reveal(Seq::filter);
    assert(tabs.push(tab).drop_last() =~= tabs);
}

/// What stays is what was listed and does not go, in its order.
pub proof fn lemma_staying(tabs: Seq<TabId>, gone: Set<TabId>)
    ensures
        forall|t: TabId| #[trigger]
            staying(tabs, gone).contains(t) <==> tabs.contains(t) && !gone.contains(t),
        staying(tabs, gone).len() <= tabs.len(),
        tabs.no_duplicates() ==> staying(tabs, gone).no_duplicates(),
    decreases tabs.len(),
{
    reveal(Seq::filter);
    if tabs.len() > 0 {
        let rest = tabs.drop_last();
        let last = tabs.last();
        lemma_staying(rest, gone);
        assert(tabs =~= rest.push(last));
        lemma_staying_push(rest, last, gone);
        let now = staying(tabs, gone);
        let then = staying(rest, gone);
        assert forall|t: TabId| #[trigger]
            now.contains(t) <==> tabs.contains(t) && !gone.contains(t) by {
            if tabs.contains(t) && !gone.contains(t) {
                let i = tabs.index_of(t);
                if i == rest.len() {
                    assert(now[now.len() - 1] == t);
                } else {
                    assert(rest[i] == t);
                    assert(then.contains(t));
                    let k = then.index_of(t);
                    assert(now[k] == t);
                }
            }
            if now.contains(t) {
                let k = now.index_of(t);
                if k < then.len() {
                    assert(then[k] == t);
                    assert(then.contains(t));
                    let i = rest.index_of(t);
                    assert(tabs[i] == t);
                } else {
                    assert(tabs[rest.len() as int] == t);
                }
            }
        }
        if tabs.no_duplicates() {
            assert(rest.no_duplicates()) by {
                assert forall|i: int, j: int|
                    0 <= i < rest.len() && 0 <= j < rest.len() && i != j implies rest[i]
                    != rest[j] by {
                    assert(tabs[i] != tabs[j]);
                }
            }
            if !gone.contains(last) {
                assert(!then.contains(last)) by {
                    if then.contains(last) {
                        let i = rest.index_of(last);
                        assert(tabs[i] == tabs[tabs.len() - 1]);
                    }
                }
                assert(now.no_duplicates());
            }
        }
    }
}

/// What stays, stays in its order.
pub proof fn lemma_staying_in_order(tabs: Seq<TabId>, gone: Set<TabId>)
    requires
        tabs.no_duplicates(),
    ensures
        forall|i: int, j: int|
            0 <= i < j < staying(tabs, gone).len() ==> tabs.index_of(
                #[trigger] staying(tabs, gone)[i],
            ) < tabs.index_of(#[trigger] staying(tabs, gone)[j]),
    decreases tabs.len(),
{
    reveal(Seq::filter);
    if tabs.len() > 0 {
        let rest = tabs.drop_last();
        let last = tabs.last();
        assert(rest.no_duplicates()) by {
            assert forall|i: int, j: int| 0 <= i < rest.len() && 0 <= j < rest.len() && i != j implies rest[i]
                != rest[j] by {
                assert(tabs[i] != tabs[j]);
            }
        }
        lemma_staying_in_order(rest, gone);
        assert(tabs =~= rest.push(last));
        lemma_staying_push(rest, last, gone);
        lemma_staying(rest, gone);
        let now = staying(tabs, gone);
        let then = staying(rest, gone);
        assert forall|k: int| 0 <= k < then.len() implies tabs.index_of(#[trigger] then[k])
            == rest.index_of(then[k]) && tabs.index_of(then[k]) < rest.len() by {
            assert(then.contains(then[k]));
            let i = rest.index_of(then[k]);
            assert(tabs[i] == then[k]);
            assert(tabs.contains(then[k]));
            let j = tabs.index_of(then[k]);
            assert(tabs[j] == tabs[i]);
        }
        if !gone.contains(last) {
            assert(tabs[tabs.len() - 1] == last);
            let j = tabs.index_of(last);
            assert(tabs[j] == tabs[tabs.len() - 1]);
        }
        assert forall|i: int, j: int| 0 <= i < j < now.len() implies tabs.index_of(#[trigger] now[i])
            < tabs.index_of(#[trigger] now[j]) by {
            assert(now[i] == then[i]);
            if j < then.len() {
                assert(now[j] == then[j]);
            }
        }
    }
}

/// Taking tabs out of a window leaves a proper window.
pub proof fn lemma_without_wf(window: WindowState, gone: Set<TabId>)
    requires
        window.wf(),
    ensures
        window.without(gone).wf(),
{
    lemma_staying(window.tabs, gone);
}

/// `without` depends only on which of the listed tabs go.
pub proof fn lemma_without_agrees(window: WindowState, a: Set<TabId>, b: Set<TabId>)
    requires
        window.wf(),
        forall|i: int|
            0 <= i < window.tabs.len() ==> a.contains(#[trigger] window.tabs[i]) == b.contains(
                window.tabs[i],
            ),
    ensures
        window.without(a) == window.without(b),
{
    lemma_staying_agrees(window.tabs, a, b);
    let front = window.tabs.take(window.active as int);
    assert forall|i: int| 0 <= i < front.len() implies a.contains(#[trigger] front[i])
        == b.contains(front[i]) by {
        assert(front[i] == window.tabs[i]);
    }
    lemma_staying_agrees(front, a, b);
}

/// Taking out tabs that are not listed changes nothing.
pub proof fn lemma_without_nothing(window: WindowState, gone: Set<TabId>)
    requires
        window.wf(),
        forall|i: int| 0 <= i < window.tabs.len() ==> !gone.contains(#[trigger] window.tabs[i]),
    ensures
        window.without(gone) == window,
{
    lemma_all_stay(window.tabs, gone);
    let front = window.tabs.take(window.active as int);
    assert forall|i: int| 0 <= i < front.len() implies !gone.contains(#[trigger] front[i]) by {
        assert(front[i] == window.tabs[i]);
    }
    lemma_all_stay(front, gone);
}

proof fn lemma_all_stay(tabs: Seq<TabId>, gone: Set<TabId>)
    requires
        forall|i: int| 0 <= i < tabs.len() ==> !gone.contains(#[trigger] tabs[i]),
    ensures
        staying(tabs, gone) == tabs,
    decreases tabs.len(),
{
    reveal(Seq::filter);
    if tabs.len() > 0 {
        let rest = tabs.drop_last();
        assert forall|i: int| 0 <= i < rest.len() implies !gone.contains(#[trigger] rest[i]) by {
            assert(rest[i] == tabs[i]);
        }
        lemma_all_stay(rest, gone);
        assert(!gone.contains(tabs[tabs.len() - 1]));
        assert(tabs =~= rest.push(tabs.last()));
        lemma_staying_push(rest, tabs.last(), gone);
    }
}

/// A window.
#[derive(Clone, Debug)]
pub struct Window {
    pub window_id: WindowId,
    pub workspace: String,
    pub tabs: Vec<TabId>,
    pub active: usize,
    pub last_active: Option<TabId>,
    pub position: Option<GuiPosition>,
}

impl View for Window {
    type V = WindowState;

    open spec fn view(&self) -> WindowState {
        WindowState {
            window_id: self.window_id,
            workspace: self.workspace@,
            tabs: self.tabs@,
            active: self.active,
            last_active: self.last_active,
            position: self.position,
        }
    }
}

/// A window without tabs.
pub open spec fn new_window(
    window_id: WindowId,
    workspace: Seq<char>,
    position: Option<GuiPosition>,
) -> WindowState {
    WindowState { window_id, workspace, tabs: Seq::empty(), active: 0, last_active: None, position }
}

impl Window {
    /// A window without tabs.
    pub fn new(window_id: WindowId, workspace: String, position: Option<GuiPosition>) -> (window:
        Self)
        ensures
            window@ == new_window(window_id, workspace@, position),
            window@.wf(),
    {
        Window { window_id, workspace, tabs: Vec::new(), active: 0, last_active: None, position }
    }

    pub fn is_empty(&self) -> (empty: bool)
        ensures
            empty == (self@.tabs.len() == 0),
    {
        self.tabs.len() == 0
    }

    /// Where a tab stands in the window.
    pub fn idx_by_id(&self, tab_id: TabId) -> (idx: Option<usize>)
        ensures
            match idx {
                Some(i) => i < self@.tabs.len() && self@.tabs[i as int] == tab_id
                    && self@.tabs.contains(tab_id),
                None => !self@.tabs.contains(tab_id),
            },
    {
        let mut i: usize = 0;
        while i < self.tabs.len()
            invariant
                i <= self.tabs@.len(),
                forall|j: int| 0 <= j < i ==> self.tabs@[j] != tab_id,
            decreases self.tabs@.len() - i,
        {
            if self.tabs[i] == tab_id {
                assert(self.tabs@[i as int] == tab_id);
                return Some(i);
            }
            i = i + 1;
        }
        None
    }

    /// Appends a tab that is not listed yet.
    pub fn push(&mut self, tab_id: TabId)
        requires
            old(self)@.wf(),
            !old(self)@.tabs.contains(tab_id),
        ensures
            final(self)@ == (WindowState { tabs: old(self)@.tabs.push(tab_id), ..old(self)@ }),
            final(self)@.wf(),
    {
        self.tabs.push(tab_id);
        proof {
            let was = old(self)@.tabs;
            assert forall|i: int, j: int|
                0 <= i < self.tabs@.len() && 0 <= j < self.tabs@.len() && i != j implies self.tabs@[i]
                != self.tabs@[j] by {
                if i < was.len() {
                    assert(was.contains(was[i]));
                }
                if j < was.len() {
                    assert(was.contains(was[j]));
                }
            }
        }
    }

    /// The active tab.
    pub fn get_active(&self) -> (tab: Option<TabId>)
        ensures
            tab == self@.active_tab(),
    {
        if self.active < self.tabs.len() {
            Some(self.tabs[self.active])
        } else {
            None
        }
    }

    /// Makes the tab at `idx` the active one and remembers the one before.
    pub fn save_and_then_set_active(&mut self, idx: usize)
        requires
            old(self)@.wf(),
            idx < old(self)@.tabs.len(),
        ensures
            final(self)@ == old(self)@.activated(idx as int),
            final(self)@.wf(),
    {
        if idx == self.active {
            return ;
        }
        self.last_active = self.get_active();
        self.active = idx;
    }

    pub fn set_workspace(&mut self, workspace: &str)
        ensures
            final(self)@ == (WindowState { workspace: workspace@, ..old(self)@ }),
    {
        self.workspace = workspace.to_owned();
    }

    /// Takes out the tabs that are in `gone`.
    pub fn drop_tabs(&mut self, gone: &Vec<TabId>)
        requires
            old(self)@.wf(),
        ensures
            final(self)@ == old(self)@.without(gone@.to_set()),
            final(self)@.wf(),
    {
        let ghost before = self@;
        let ghost set = gone@.to_set();
        let mut left: Vec<TabId> = Vec::new();
        let mut active: usize = 0;
        let mut i: usize = 0;
        proof {
            reveal(Seq::filter);
            assert(before.tabs.take(0) =~= Seq::empty());
        }
        while i < self.tabs.len()
            invariant
                self@ == before,
                before.wf(),
                set == gone@.to_set(),
                i <= before.tabs.len(),
                left@ == staying(before.tabs.take(i as int), set),
                active == staying(
                    before.tabs.take(
                        if i < before.active {
                            i as int
                        } else {
                            before.active as int
                        },
                    ),
                    set,
                ).len(),
            decreases before.tabs.len() - i,
        {
            let tab_id = self.tabs[i];
            proof {
                assert(before.tabs.take(i + 1) =~= before.tabs.take(i as int).push(tab_id));
                lemma_staying_push(before.tabs.take(i as int), tab_id, set);
                lemma_staying(before.tabs.take(i as int), set);
            }
            if !contains_id(gone, tab_id) {
                left.push(tab_id);
                if i < self.active {
                    active = active + 1;
                }
            }
            i = i + 1;
        }
        assert(before.tabs.take(i as int) =~= before.tabs);
        if left.len() == 0 {
            active = 0;
        } else if active >= left.len() {
            active = left.len() - 1;
        }
        self.tabs = left;
        self.active = active;
        proof {
            lemma_without_wf(before, set);
        }
    }
}

/// Whether an id is in a list.
pub fn contains_id(ids: &Vec<usize>, id: usize) -> (found: bool)
    ensures
        found == ids@.contains(id),
        found == ids@.to_set().contains(id),
{
    let mut i: usize = 0;
    while i < ids.len()
        invariant
            i <= ids@.len(),
            forall|j: int| 0 <= j < i ==> ids@[j] != id,
        decreases ids@.len() - i,
    {
        if ids[i] == id {
            assert(ids@[i as int] == id);
            return true;
        }
        i = i + 1;
    }
    false
}

/// A copy of a list of ids.
pub fn copy_ids(ids: &Vec<usize>) -> (copy: Vec<usize>)
    ensures
        copy@ == ids@,
{
    let mut copy: Vec<usize> = Vec::new();
    let mut i: usize = 0;
    while i < ids.len()
        invariant
            i <= ids@.len(),
            copy@ == ids@.take(i as int),
        decreases ids@.len() - i,
    {
        copy.push(ids[i]);
        i = i + 1;
        assert(copy@ =~= ids@.take(i as int));
    }
    assert(copy@ =~= ids@);
    copy
}

/// The tab that is active stays active as long as it stays at all.
pub proof fn law_active_tab_survives(window: WindowState, gone: Set<TabId>)
    requires
        window.wf(),
        window.active_tab() is Some,
        !gone.contains(window.active_tab()->0),
    ensures
        window.without(gone).active_tab() == window.active_tab(),
{
    let n = window.active as int;
    let front = window.tabs.take(n);
    let tab = window.tabs[n];
    lemma_staying_push(front, tab, gone);
    assert(window.tabs.take(n + 1) =~= front.push(tab));
    lemma_staying_prefix(window.tabs, n + 1, gone);
}

/// What stays of a front part is a front part of what stays.
pub proof fn lemma_staying_prefix(tabs: Seq<TabId>, n: int, gone: Set<TabId>)
    requires
        0 <= n <= tabs.len(),
    ensures
        staying(tabs.take(n), gone).len() <= staying(tabs, gone).len(),
        forall|i: int|
            0 <= i < staying(tabs.take(n), gone).len() ==> staying(tabs, gone)[i] == staying(
                tabs.take(n),
                gone,
            )[i],
    decreases tabs.len() - n,
{
    if n < tabs.len() {
        lemma_staying_prefix(tabs, n + 1, gone);
        assert(tabs.take(n + 1) =~= tabs.take(n).push(tabs[n]));
        lemma_staying_push(tabs.take(n), tabs[n], gone);
    } else {
        assert(tabs.take(n) =~= tabs);
    }
}

} // verus!
