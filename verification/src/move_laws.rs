//! What moving a pane to a tab of its own promises.
use crate::error::MuxError;
use crate::growth::{lemma_appended, lemma_pane_taken_up, lemma_tab_registered};
use crate::ids::{PaneId, TabId, ThreadId, WindowId};
use crate::notification::{Deed, Notice};
use crate::removal::lemma_same_tables;
use crate::spawn::{MovingPane, PaneMove};
use crate::state::MuxState;
use crate::survival_laws::{
    added, goes_on, law_removing_a_tab, lemma_added_on, lemma_added_one, someone_lives,
};
use crate::tab::{lemma_place_of, Pane, ReaderOffer, TabState};
use crate::window::WindowState;
use vstd::prelude::*;

verus! {

// ---- leaving a tab ----
/// A tab without a pane holds its other panes, in their order; it stays the same tab, of
/// the same size. The focus stays where it was, unless the pane had it: it then goes to
/// the first of the others, if there is one.
pub proof fn law_a_tab_without_a_pane(tab: TabState, i: int)
    requires
        0 <= i < tab.panes.len(),
        forall|j: int| 0 <= j < i ==> (#[trigger] tab.panes[j]).pane_id != tab.panes[i].pane_id,
    ensures
        ({
            let p = tab.panes[i].pane_id;
            let after = tab.without(p);
            &&& after.panes == tab.panes.take(i) + tab.panes.skip(i + 1)
            &&& after.tab_id == tab.tab_id
            &&& after.size == tab.size
            &&& after.busy == tab.busy
            &&& tab.active != Some(p) ==> after.active == tab.active
            &&& tab.active == Some(p) && tab.panes.len() > 1 ==> after.active == Some(
                after.panes[0].pane_id,
            )
            &&& tab.active == Some(p) && tab.panes.len() == 1 ==> after.active is None
        }),
{
    let p = tab.panes[i].pane_id;
    lemma_place_of(tab, p, i);
    assert(tab.without(p).panes =~= tab.panes.take(i) + tab.panes.skip(i + 1));
}

/// A pane that is not in the tab cannot leave it.
pub proof fn law_nothing_leaves_that_is_not_there(tab: TabState, p: PaneId)
    requires
        forall|i: int| 0 <= i < tab.panes.len() ==> (#[trigger] tab.panes[i]).pane_id != p,
    ensures
        tab.without(p) == tab,
        tab.active == Some(p) ==> tab.active_pane() is None,
{
}

/// A pane that joins a tab comes last, and gets the focus only if nothing else has it.
pub proof fn law_a_pane_joins_a_tab(tab: TabState, pane: Pane)
    ensures
        tab.assigned(pane).panes == tab.panes.push(pane),
        tab.assigned(pane).active == (match tab.active {
            Some(p) => Some(p),
            None => Some(pane.pane_id),
        }),
        tab.assigned(pane).tab_id == tab.tab_id,
        tab.assigned(pane).size == tab.size,
        tab.assigned(pane).busy == tab.busy,
{
}

/// The pane that has the focus in a tab is one that the tab holds.
pub proof fn law_the_active_pane_is_held(tab: TabState, p: PaneId)
    requires
        tab.active == Some(p),
    ensures
        tab.active_pane() is Some <==> exists|i: int|
            0 <= i < tab.panes.len() && (#[trigger] tab.panes[i]).pane_id == p,
        tab.active_pane() matches Some(pane) ==> pane.pane_id == p && tab.panes.contains(pane),
{
    if tab.holds(p) {
        lemma_first_place(tab, p);
    }
}

pub proof fn lemma_first_place(tab: TabState, p: PaneId) -> (i: int)
    requires
        tab.holds(p),
    ensures
        0 <= i < tab.panes.len(),
        tab.panes[i].pane_id == p,
        tab.place_of(p) == i,
        forall|j: int| 0 <= j < i ==> (#[trigger] tab.panes[j]).pane_id != p,
{
    let k = choose|k: int| 0 <= k < tab.panes.len() && (#[trigger] tab.panes[k]).pane_id == p;
    let i = lemma_first_up_to(tab, p, k);
    lemma_place_of(tab, p, i);
    i
}

proof fn lemma_first_up_to(tab: TabState, p: PaneId, k: int) -> (i: int)
    requires
        0 <= k < tab.panes.len(),
        tab.panes[k].pane_id == p,
    ensures
        0 <= i <= k,
        tab.panes[i].pane_id == p,
        forall|j: int| 0 <= j < i ==> (#[trigger] tab.panes[j]).pane_id != p,
    decreases k,
{
    if exists|j: int| 0 <= j < k && (#[trigger] tab.panes[j]).pane_id == p {
        let j = choose|j: int| 0 <= j < k && (#[trigger] tab.panes[j]).pane_id == p;
        lemma_first_up_to(tab, p, j)
    } else {
        k
    }
}

// ---- arriving in a tab ----
/// What the tables are once the pane is there, whatever becomes of the tab that it left.
proof fn lemma_there(
    s: MuxState,
    tab: TabState,
    w: WindowId,
    reader: ReaderOffer,
) -> (there: MuxState)
    requires
        s.wf(),
        s.windows.contains_key(w),
        !s.knows_tab(tab.tab_id),
        tab.active_pane() is Some,
    ensures
        there == s.tab_registered(tab).pane_added(tab.active_pane()->0, reader).tab_listed(tab, w),
        there.sound(),
        there.tabs == s.tabs.insert(tab.tab_id, tab),
        there.orphans == s.orphans,
        there.panes == (if s.panes.contains_key(tab.active_pane()->0.pane_id) {
            s.panes
        } else {
            s.panes.insert(tab.active_pane()->0.pane_id, tab.active_pane()->0)
        }),
        there.windows.dom() == s.windows.dom(),
        there.windows[w].tabs == s.windows[w].tabs.push(tab.tab_id),
        forall|v: WindowId, t: TabId| #[trigger]
            there.lists_in(v, t) <==> s.lists_in(v, t) || (v == w && t == tab.tab_id),
        there.dead == s.dead,
        there.windows_locked == s.windows_locked,
        goes_on(s, there),
        forall|p: PaneId| !#[trigger] added(s, there, Deed::KillPane(p)),
        !added(s, there, Deed::PruneDeadWindows),
{
    let id = tab.tab_id;
    let pane = tab.active_pane()->0;
    let a = s.tab_registered(tab);
    lemma_tab_registered(s, tab);
    assert(a.orphans =~= s.orphans);
    let b = a.pane_added(pane, reader);
    assert(pane.pane_id == tab.active->0) by {
        law_the_active_pane_is_held(tab, tab.active->0);
    }
    assert(b.wf()) by {
        if !a.panes.contains_key(pane.pane_id) {
            lemma_pane_taken_up(a, pane);
            let up = a.pane_taken_up(pane);
            lemma_same_tables(up, up.pane_begun(pane.pane_id, reader));
        }
    }
    assert(!s.lists_in(w, id));
    assert(!b.lists_in(w, id));
    lemma_appended(b, tab, w);
    let there = b.tab_listed(tab, w);
    let was = s.windows[w].tabs;
    let now = there.windows[w].tabs;
    assert(now == was.push(id));
    assert(there.windows.dom() =~= s.windows.dom());
    assert forall|v: WindowId, t: TabId| #[trigger] there.lists_in(v, t) <==> s.lists_in(v, t) || (v
        == w && t == id) by {
        if v == w {
            assert(now[now.len() - 1] == id);
            if was.contains(t) {
                let i = was.index_of(t);
                assert(now[i] == t);
            }
            if now.contains(t) && t != id {
                let i = now.index_of(t);
                assert(was[i] == t);
            }
        }
    }
    there
}

/// A move takes away nothing that lives. If somebody lives in the tab that the pane has
/// left, that tab stays registered as it is, in the windows that listed it; so does every
/// other tab; every pane that was known is still known; and no pane is told to end.
pub proof fn law_a_move_takes_away_nothing_that_lives(
    s: MuxState,
    tab: TabState,
    w: WindowId,
    src: TabId,
    reader: ReaderOffer,
    activities: usize,
    i: int,
)
    requires
        s.wf(),
        s.windows.contains_key(w),
        !s.knows_tab(tab.tab_id),
        tab.active_pane() is Some,
        s.knows_tab(src),
        0 <= i < s.tab(src).panes.len(),
        !s.dead.contains(s.tab(src).panes[i].pane_id),
    ensures
        ({
            let after = s.pane_arrived(tab, w, src, reader, activities);
            &&& s.tabs.contains_key(src) ==> after.tabs.contains_key(src)
            &&& after.tab(src) == s.tab(src)
            &&& forall|v: WindowId| #[trigger] after.lists_in(v, src) == s.lists_in(v, src)
            &&& after.tabs == s.tabs.insert(tab.tab_id, tab)
            &&& forall|v: WindowId, t: TabId| #[trigger]
                after.lists_in(v, t) <==> s.lists_in(v, t) || (v == w && t == tab.tab_id)
            &&& after.windows.dom() == s.windows.dom()
            &&& forall|q: PaneId| #[trigger]
                s.panes.contains_key(q) ==> after.panes.contains_key(q) && after.panes[q]
                    == s.panes[q]
            &&& forall|q: PaneId| !#[trigger] added(s, after, Deed::KillPane(q))
            &&& !added(s, after, Deed::PruneDeadWindows)
        }),
{
    let there = lemma_there(s, tab, w, reader);
    assert(there.tab(src) == s.tab(src));
    assert(!there.dead.contains(there.tab(src).panes[i].pane_id));
    assert(!there.tab_over(src));
    assert(s.pane_arrived(tab, w, src, reader, activities) == there);
}

/// If nobody lives in the tab that the pane has left, that tab goes with its panes, and
/// nothing else does. The host is asked to look for what is dead after that, unless an
/// activity is under way.
pub proof fn law_a_move_takes_away_a_tab_that_is_dead(
    s: MuxState,
    tab: TabState,
    w: WindowId,
    src: TabId,
    reader: ReaderOffer,
    activities: usize,
)
    requires
        s.wf(),
        s.windows.contains_key(w),
        !s.knows_tab(tab.tab_id),
        tab.active_pane() is Some,
        s.tabs.contains_key(src),
        !someone_lives(s.dead, s.tabs[src].panes),
    ensures
        ({
            let after = s.pane_arrived(tab, w, src, reader, activities);
            let p = tab.active_pane()->0.pane_id;
            &&& after.tabs == s.tabs.insert(tab.tab_id, tab).remove(src)
            &&& forall|v: WindowId, t: TabId| #[trigger]
                after.lists_in(v, t) <==> (s.lists_in(v, t) && (t != src || s.windows_locked)) || (v
                    == w && t == tab.tab_id)
            &&& forall|q: PaneId| #[trigger]
                after.panes.contains_key(q) <==> (s.panes.contains_key(q) || q == p)
                    && !s.tabs[src].holds(q)
            &&& added(s, after, Deed::PruneDeadWindows) <==> activities == 0
        }),
{
    let there = lemma_there(s, tab, w, reader);
    let after = s.pane_arrived(tab, w, src, reader, activities);
    assert(there.tab(src) == s.tabs[src]);
    assert(there.tab_dead(there.tab(src))) by {
        assert forall|i: int| 0 <= i < there.tab(src).panes.len() implies there.dead.contains(
            (#[trigger] there.tab(src).panes[i]).pane_id,
        ) by {
            assert(s.tabs[src].panes[i] == there.tab(src).panes[i]);
        }
    }
    law_removing_a_tab(there, src);
    let b = there.without_tab(src);
    assert(src != tab.tab_id);
    lemma_added_on(s, there, b);
    assert(!added(there, b, Deed::PruneDeadWindows));
    if activities == 0 {
        lemma_added_one(b, after, Deed::PruneDeadWindows);
        lemma_added_on(s, b, after);
    }
    assert forall|v: WindowId, t: TabId| #[trigger] after.lists_in(v, t) <==> (s.lists_in(v, t) && (t
        != src || s.windows_locked)) || (v == w && t == tab.tab_id) by {
        assert(after.lists_in(v, t) == b.lists_in(v, t));
        assert(there.lists_in(v, t) <==> s.lists_in(v, t) || (v == w && t == tab.tab_id));
    }
    assert forall|q: PaneId| #[trigger] after.panes.contains_key(q) <==> (s.panes.contains_key(q)
        || q == tab.active_pane()->0.pane_id) && !s.tabs[src].holds(q) by {
        assert(b.panes.contains_key(q) <==> there.panes.contains_key(q) && !s.tabs[src].holds(q));
    }
}

/// If the tab that the pane has left is not within reach any more, nothing is taken away;
/// the host looks for what is dead after that, unless an activity is under way.
pub proof fn law_a_move_from_a_tab_that_is_gone(
    s: MuxState,
    tab: TabState,
    w: WindowId,
    src: TabId,
    reader: ReaderOffer,
    activities: usize,
)
    requires
        s.wf(),
        s.windows.contains_key(w),
        !s.knows_tab(tab.tab_id),
        tab.active_pane() is Some,
        src != tab.tab_id,
        !s.knows_tab(src),
    ensures
        ({
            let after = s.pane_arrived(tab, w, src, reader, activities);
            &&& after.tabs == s.tabs.insert(tab.tab_id, tab)
            &&& forall|v: WindowId, t: TabId| #[trigger]
                after.lists_in(v, t) <==> s.lists_in(v, t) || (v == w && t == tab.tab_id)
            &&& forall|q: PaneId| #[trigger]
                s.panes.contains_key(q) ==> after.panes.contains_key(q) && after.panes[q]
                    == s.panes[q]
            &&& forall|q: PaneId| !#[trigger] added(s, after, Deed::KillPane(q))
            &&& added(s, after, Deed::PruneDeadWindows) <==> activities == 0
        }),
{
    let there = lemma_there(s, tab, w, reader);
    let after = s.pane_arrived(tab, w, src, reader, activities);
    assert(there.without_tab(src) == there);
    if activities == 0 {
        lemma_added_one(there, after, Deed::PruneDeadWindows);
        lemma_added_on(s, there, after);
    }
    assert forall|v: WindowId, t: TabId| #[trigger] after.lists_in(v, t) <==> s.lists_in(v, t) || (v
        == w && t == tab.tab_id) by {
        assert(after.lists_in(v, t) == there.lists_in(v, t));
    }
}

/// A pane that is known is moved with a single notice: that its new tab is in a window.
/// The new tab comes last there and does not become active by that.
pub proof fn law_a_move_is_told(
    s: MuxState,
    tab: TabState,
    w: WindowId,
    src: TabId,
    reader: ReaderOffer,
    activities: usize,
)
    requires
        s.wf(),
        s.windows.contains_key(w),
        !s.knows_tab(tab.tab_id),
        tab.active_pane() is Some,
        s.panes.contains_key(tab.active_pane()->0.pane_id),
        s.tabs.contains_key(src),
        someone_lives(s.dead, s.tabs[src].panes),
    ensures
        ({
            let after = s.pane_arrived(tab, w, src, reader, activities);
            &&& after.effects == s.effects.push(
                Deed::Notify(Notice::TabAddedToWindow { tab_id: tab.tab_id, window_id: w }),
            )
            &&& after.windows == s.windows.insert(
                w,
                WindowState { tabs: s.windows[w].tabs.push(tab.tab_id), ..s.windows[w] },
            )
            &&& after.panes == s.panes
            &&& after == (MuxState {
                tabs: after.tabs,
                windows: after.windows,
                pane_counts: after.pane_counts,
                effects: after.effects,
                ..s
            })
        }),
{
    let panes = s.tabs[src].panes;
    let i = choose|i: int| 0 <= i < panes.len() && !s.dead.contains((#[trigger] panes[i]).pane_id);
    let there = lemma_there(s, tab, w, reader);
    assert(there.tab(src) == s.tabs[src]);
    assert(!there.dead.contains(there.tab(src).panes[i].pane_id));
    assert(!there.tab_over(src));
    assert(s.tab_registered(tab).orphans =~= s.orphans);
}

// ---- beginning a move ----
/// A move that begins takes the pane out of the tab that it is in, and out of nothing
/// else. The new tab holds that pane alone, which has the focus there.
pub proof fn law_a_move_begins(
    s: MuxState,
    activities: usize,
    decided: PaneMove,
    window_id: Option<WindowId>,
    workspace: Option<Seq<char>>,
    tab_id: TabId,
    thread: ThreadId,
    m: MovingPane,
    after: MuxState,
    activities_after: usize,
)
    requires
        s.wf(),
        activities < usize::MAX,
        s.move_begun(
            activities,
            decided,
            window_id,
            workspace,
            tab_id,
            thread,
            Ok(m),
            after,
            activities_after,
        ),
    ensures
        s.tabs.contains_key(decided.src_tab),
        s.tabs[decided.src_tab].holds(decided.pane_id),
        after.tabs.dom() == s.tabs.dom(),
        forall|t: TabId|
            t != decided.src_tab && #[trigger] s.tabs.contains_key(t) ==> after.tabs[t] == s.tabs[t],
        after.tabs[decided.src_tab].panes.len() == s.tabs[decided.src_tab].panes.len() - 1,
        forall|p: Pane|
            p.pane_id != decided.pane_id ==> s.tabs[decided.src_tab].panes.contains(p)
                == #[trigger] after.tabs[decided.src_tab].panes.contains(p),
        after.panes == s.panes,
        after.effects == s.effects,
        m.pane_id == decided.pane_id,
        m.src_tab == decided.src_tab,
        m.tab@.tab_id == tab_id,
        m.tab@.panes.len() == 1,
        m.tab@.panes[0].pane_id == decided.pane_id,
        s.tabs[decided.src_tab].panes.contains(m.tab@.panes[0]),
        m.tab@.active == Some(decided.pane_id),
        match window_id {
            Some(w) => {
                &&& m.window_id == w
                &&& s.windows.contains_key(w)
                &&& after.windows == s.windows
                &&& after.next_window == s.next_window
                &&& activities_after == activities
                &&& m.builder is None
                &&& s.windows[w].active < s.windows[w].tabs.len()
                &&& m.tab@.size == s.tab(s.windows[w].tabs[s.windows[w].active as int]).size
            },
            None => {
                &&& m.window_id == s.next_window
                &&& after.windows.dom() == s.windows.dom().insert(s.next_window)
                &&& after.windows[s.next_window].tabs.len() == 0
                &&& forall|v: WindowId| #[trigger]
                    s.windows.contains_key(v) ==> after.windows[v] == s.windows[v]
                &&& workspace matches Some(name) ==> after.windows[s.next_window].workspace == name
                &&& activities_after == activities + 1
                &&& m.builder is Some
                &&& m.tab@.size == s.tabs[decided.src_tab].size
            },
        },
{
    let src = decided.src_tab;
    let p = decided.pane_id;
    let tab = s.tabs[src];
    let i = lemma_first_place(tab, p);
    law_a_tab_without_a_pane(tab, i);
    let left = after.tabs[src].panes;
    assert(after.tabs.dom() =~= s.tabs.dom());
    assert forall|q: Pane| q.pane_id != p implies tab.panes.contains(q) == #[trigger] left.contains(
        q,
    ) by {
        if tab.panes.contains(q) {
            let k = tab.panes.index_of(q);
            if k < i {
                assert(left[k] == q);
            } else {
                assert(left[k - 1] == q);
            }
        }
        if left.contains(q) {
            let k = left.index_of(q);
            if k < i {
                assert(tab.panes[k] == q);
            } else {
                assert(tab.panes[k + 1] == q);
            }
        }
    }
    assert(m.tab@.panes[0] == tab.panes[i]);
    if window_id is None {
        assert(!s.windows.contains_key(s.next_window));
    }
}

/// A move that cannot begin changes nothing, with one exception: if the pane turns out
/// not to be in the tab after a window was opened for it, that window stays, empty, and is
/// announced like any other.
pub proof fn law_a_move_that_cannot_begin(
    s: MuxState,
    activities: usize,
    decided: PaneMove,
    window_id: Option<WindowId>,
    workspace: Option<Seq<char>>,
    tab_id: TabId,
    thread: ThreadId,
    e: MuxError,
    after: MuxState,
    activities_after: usize,
)
    requires
        s.wf(),
        activities < usize::MAX,
        s.move_begun(
            activities,
            decided,
            window_id,
            workspace,
            tab_id,
            thread,
            Err(e),
            after,
            activities_after,
        ),
    ensures
        window_id is Some || !s.tabs.contains_key(decided.src_tab) ==> after == s
            && activities_after == activities,
        window_id is None && s.tabs.contains_key(decided.src_tab) ==> {
            &&& e == MuxError::PaneNotInTab(decided.pane_id)
            &&& !s.tabs[decided.src_tab].holds(decided.pane_id)
            &&& after.windows.contains_key(s.next_window)
            &&& after.windows[s.next_window].tabs.len() == 0
            &&& after.tabs == s.tabs
            &&& after.panes == s.panes
            &&& thread == s.main_thread ==> {
                &&& after.effects == s.effects.push(
                    Deed::Notify(Notice::WindowCreated(s.next_window)),
                ).push(Deed::SchedulePrune)
                &&& activities_after == activities
            }
            &&& thread != s.main_thread ==> {
                &&& after.effects == s.effects.push(Deed::AnnounceWindow(s.next_window))
                &&& activities_after == activities + 1
            }
        },
{
}

/// Why a move cannot begin: the tab is not registered, the window is not there or has no
/// active tab, or the tab does not hold the pane; the first of these that holds is told.
/// Otherwise it can.
pub proof fn law_what_hinders_a_move(
    s: MuxState,
    p: PaneId,
    src: TabId,
    window_id: Option<WindowId>,
)
    ensures
        !s.tabs.contains_key(src) ==> s.move_hindered(p, src, window_id) == Some(
            MuxError::TabNotFound(src),
        ),
        s.tabs.contains_key(src) && (window_id matches Some(w) && !s.windows.contains_key(w))
            ==> s.move_hindered(p, src, window_id) == Some(MuxError::NoSuchWindow(window_id->0)),
        s.tabs.contains_key(src) && (window_id matches Some(w) && s.windows.contains_key(w)
            && s.windows[w].active >= s.windows[w].tabs.len()) ==> s.move_hindered(
            p,
            src,
            window_id,
        ) == Some(MuxError::WindowWithoutTabs(window_id->0)),
        s.tabs.contains_key(src) && (window_id matches Some(w) ==> s.windows.contains_key(w)
            && s.windows[w].active < s.windows[w].tabs.len()) ==> (s.move_hindered(
            p,
            src,
            window_id,
        ) == (if exists|i: int|
            0 <= i < s.tabs[src].panes.len() && (#[trigger] s.tabs[src].panes[i]).pane_id == p {
            None
        } else {
            Some(MuxError::PaneNotInTab(p))
        })),
{
}

/// When a window is not fit to start something in: it is not there, it has no active tab,
/// or the active tab has no pane with the focus.
pub proof fn law_what_makes_a_window_unfit(s: MuxState, w: WindowId)
    ensures
        !s.windows.contains_key(w) ==> s.window_unfit(w) == Some(MuxError::NoSuchWindow(w)),
        s.windows.contains_key(w) && s.windows[w].active >= s.windows[w].tabs.len()
            ==> s.window_unfit(w) == Some(MuxError::WindowWithoutTabs(w)),
        s.windows.contains_key(w) && s.windows[w].active < s.windows[w].tabs.len() ==> {
            let tab = s.tab(s.windows[w].tabs[s.windows[w].active as int]);
            &&& s.active_tab_of(w) == Some(tab)
            &&& s.window_unfit(w) == (if tab.active matches Some(p) && exists|i: int|
                0 <= i < tab.panes.len() && (#[trigger] tab.panes[i]).pane_id == p {
                None
            } else {
                Some(MuxError::ActiveTabWithoutPanes(w))
            })
        },
{
}

} // verus!
