//! When the counts of panes are up to date.
use crate::growth::appended;
use crate::id_map::{in_order, lemma_listing_exists};
use crate::ids::{PaneId, TabId, WindowId};
use crate::notification::{Deed, Notice};
use crate::pruning::lemma_windows_pruned;
use crate::pruning_laws::{lemma_dead_listing, lemma_empty_listing};
use crate::removal::{
    lemma_unregistered, lemma_without_panes, lemma_without_tabs, lemma_without_window,
    lemma_without_windows,
};
use crate::state::MuxState;
use crate::survival_laws::someone_lives;
use crate::tab::{Pane, ReaderOffer, TabState};
use vstd::prelude::*;

verus! {

/// The counts are those that a recount would give right now; if somebody is at work on a
/// tab, no recount would change them.
pub open spec fn up_to_date(s: MuxState) -> bool {
    s.recounted().pane_counts == s.pane_counts
}

/// What is counted depends on the windows and on the tabs that they list.
proof fn lemma_counts_depend_on_the_tabs(a: MuxState, b: MuxState)
    requires
        a.windows == b.windows,
        a.windows.dom().finite(),
        forall|w: WindowId, t: TabId| #[trigger] a.lists_in(w, t) ==> a.tab(t) == b.tab(t),
    ensures
        a.count_blocked() == b.count_blocked(),
        a.counts() == b.counts(),
{
    assert forall|w: WindowId, t: TabId| #[trigger] a.lists_in(w, t) == b.lists_in(w, t) by {}
    if a.count_blocked() {
        let (w, t) = choose|w: WindowId, t: TabId| #[trigger] a.lists_in(w, t) && a.tab(t).busy;
        assert(b.lists_in(w, t) && b.tab(t).busy);
    }
    if b.count_blocked() {
        let (w, t) = choose|w: WindowId, t: TabId| #[trigger] b.lists_in(w, t) && b.tab(t).busy;
        assert(a.lists_in(w, t));
        assert(a.tab(t) == b.tab(t));
    }
    assert forall|ws: Seq<char>| #[trigger] a.has_tabs(ws) == b.has_tabs(ws) by {
        if a.has_tabs(ws) {
            let w = choose|w: WindowId| #[trigger]
                a.windows.contains_key(w) && a.windows[w].workspace == ws && a.windows[w].tabs.len()
                    > 0;
            assert(b.windows.contains_key(w));
        }
        if b.has_tabs(ws) {
            let w = choose|w: WindowId| #[trigger]
                b.windows.contains_key(w) && b.windows[w].workspace == ws && b.windows[w].tabs.len()
                    > 0;
            assert(a.windows.contains_key(w));
        }
    }
    let ids = in_order(a.windows.dom());
    lemma_listing_exists(a.windows.dom());
    assert forall|i: int| 0 <= i < ids.len() implies a.windows.contains_key(#[trigger] ids[i]) by {
        assert(ids.contains(ids[i]));
    }
    assert forall|ws: Seq<char>| #[trigger] a.panes_in_workspace(ws) == b.panes_in_workspace(ws) by {
        lemma_counts_agree(a, b, ids, ws);
    }
    assert(a.counts() =~= b.counts());
}

proof fn lemma_counts_agree(a: MuxState, b: MuxState, ids: Seq<WindowId>, workspace: Seq<char>)
    requires
        a.windows == b.windows,
        forall|w: WindowId, t: TabId| #[trigger] a.lists_in(w, t) ==> a.tab(t) == b.tab(t),
        forall|i: int| 0 <= i < ids.len() ==> a.windows.contains_key(#[trigger] ids[i]),
    ensures
        a.panes_in_windows(ids, workspace) == b.panes_in_windows(ids, workspace),
    decreases ids.len(),
{
    if ids.len() > 0 {
        let rest = ids.drop_last();
        let tabs = a.windows[ids.last()].tabs;
        assert forall|i: int| 0 <= i < rest.len() implies a.windows.contains_key(
            #[trigger] rest[i],
        ) by {
            assert(rest[i] == ids[i]);
        }
        lemma_counts_agree(a, b, rest, workspace);
        assert(ids[ids.len() - 1] == ids.last());
        assert forall|i: int| 0 <= i < tabs.len() implies a.tab(#[trigger] tabs[i]) == b.tab(
            tabs[i],
        ) by {
            assert(a.lists_in(ids.last(), tabs[i]));
        }
        lemma_tab_counts_agree(a, b, tabs);
    }
}

proof fn lemma_tab_counts_agree(a: MuxState, b: MuxState, tabs: Seq<TabId>)
    requires
        forall|i: int| 0 <= i < tabs.len() ==> a.tab(#[trigger] tabs[i]) == b.tab(tabs[i]),
    ensures
        a.panes_in_tabs(tabs) == b.panes_in_tabs(tabs),
    decreases tabs.len(),
{
    if tabs.len() > 0 {
        let rest = tabs.drop_last();
        assert forall|i: int| 0 <= i < rest.len() implies a.tab(#[trigger] rest[i]) == b.tab(
            rest[i],
        ) by {
            assert(rest[i] == tabs[i]);
        }
        lemma_tab_counts_agree(a, b, rest);
        assert(tabs[tabs.len() - 1] == tabs.last());
    }
}

/// A state whose counts are those of another that has the same windows and tabs.
proof fn lemma_up_to_date(a: MuxState, b: MuxState)
    requires
        a.windows == b.windows,
        a.windows.dom().finite(),
        forall|w: WindowId, t: TabId| #[trigger] a.lists_in(w, t) ==> a.tab(t) == b.tab(t),
        b.pane_counts == a.recounted().pane_counts,
    ensures
        up_to_date(b),
{
    lemma_counts_depend_on_the_tabs(a, b);
}

/// A recount brings the counts up to date.
pub proof fn law_a_recount_is_up_to_date(s: MuxState)
    requires
        s.windows.dom().finite(),
    ensures
        up_to_date(s.recounted()),
{
    lemma_up_to_date(s, s.recounted());
}

/// A pane that is added, unless its reader failed, and one that is removed, leave the
/// counts up to date.
pub proof fn law_panes_come_and_go_counted(s: MuxState, pane: Pane, reader: ReaderOffer, p: PaneId)
    requires
        s.sound(),
    ensures
        !s.panes.contains_key(pane.pane_id) && reader != ReaderOffer::Failed ==> up_to_date(
            s.pane_added(pane, reader),
        ),
        s.panes.contains_key(p) ==> up_to_date(s.without_pane(p)),
{
    let up = s.pane_taken_up(pane);
    let q = pane.pane_id;
    if !s.panes.contains_key(q) && reader == ReaderOffer::NoReader {
        lemma_up_to_date(up, s.pane_added(pane, reader));
    }
    if !s.panes.contains_key(q) && reader == ReaderOffer::Reader {
        lemma_up_to_date(
            up.asked(Deed::StartReader { pane_id: q, banner: up.banner }),
            s.pane_added(pane, reader),
        );
    }
    if s.panes.contains_key(p) {
        let bare = MuxState { panes: s.panes.remove(p), ..s }.killed(p).notified(
            Notice::PaneRemoved(p),
        );
        lemma_up_to_date(bare, s.without_pane(p));
    }
}

/// A registered tab that is removed, and a tab that is appended to a window, leave the
/// counts up to date.
pub proof fn law_tabs_come_and_go_counted(s: MuxState, t: TabId, tab: TabState, w: WindowId)
    requires
        s.sound(),
    ensures
        s.tabs.contains_key(t) ==> up_to_date(s.without_tab(t)),
        s.windows.contains_key(w) ==> up_to_date(s.tab_listed(tab, w)),
{
    if s.tabs.contains_key(t) {
        let a = s.unregistered(t);
        lemma_unregistered(s, t);
        let ids = s.tabs[t].pane_ids();
        lemma_without_panes(a, ids);
        let b = a.without_panes(ids);
        let after = s.without_tab(t);
        assert forall|v: WindowId, u: TabId| #[trigger] b.lists_in(v, u) implies b.tab(u)
            == after.tab(u) by {
            assert(b.recounted().lists_in(v, u));
            assert(b.recounted().lists(u));
        }
        lemma_up_to_date(b, after);
    }
    if s.windows.contains_key(w) {
        let bare = appended(s, tab, w);
        assert(bare.windows.dom() =~= s.windows.dom());
        lemma_up_to_date(bare, s.tab_listed(tab, w));
    }
}

/// A window that is removed leaves the counts up to date.
pub proof fn law_windows_go_counted(s: MuxState, w: WindowId)
    requires
        s.sound(),
    ensures
        up_to_date(s.without_window(w)),
{
    lemma_without_window(s, w);
    let after = s.without_window(w);
    if s.windows.contains_key(w) {
        let tabs = s.windows[w].tabs;
        let left = s.domains_left(in_order(s.domains_in_tabs(tabs)));
        let c = MuxState { windows: left.windows.remove(w), ..left }.without_tabs(
            tabs,
        ).swept().notified(Notice::WindowRemoved(w));
        assert(after == c.recounted());
        assert(c.windows == after.windows);
        law_a_recount_is_up_to_date(c);
    } else {
        law_a_recount_is_up_to_date(s);
    }
}

/// Renaming a workspace leaves the counts up to date.
pub proof fn law_names_change_counted(s: MuxState, from: Seq<char>, to: Seq<char>)
    requires
        s.sound(),
        from != to,
    ensures
        up_to_date(s.workspace_renamed(from, to)),
{
    let moved = s.notified(
        Notice::WorkspaceRenamed { old_workspace: from, new_workspace: to },
    ).windows_moved(from, to);
    assert(moved.windows.dom() =~= s.windows.dom());
    lemma_up_to_date(moved, s.workspace_renamed(from, to));
}

/// A prune that takes a registered tab or a window leaves the counts up to date.
pub proof fn law_a_prune_is_counted(s: MuxState)
    requires
        s.sound(),
        !s.windows_locked,
        (exists|t: TabId| #[trigger]
            s.tabs.contains_key(t) && !someone_lives(s.dead, s.tabs[t].panes)) || (exists|
            w: WindowId,
        | #[trigger]
            s.windows.contains_key(w) && !s.prune_tried(0).windows.contains_key(w)),
    ensures
        up_to_date(s.prune_tried(0)),
{
    let first = s.windows_pruned();
    lemma_windows_pruned(s);
    let dead = in_order(s.dead_tabs());
    lemma_dead_listing(s);
    let gone = in_order(first.empty_windows());
    lemma_empty_listing(first);
    lemma_without_tabs(first, dead);
    let mid = first.without_tabs(dead);
    lemma_without_windows(mid, gone);
    let last = mid.without_windows(gone);
    let after = s.prune_tried(0);
    if gone.len() > 0 {
        let before = mid.without_windows(gone.drop_last());
        lemma_without_windows(mid, gone.drop_last());
        law_windows_go_counted(before, gone.last());
    } else {
        assert(last == mid);
        if dead.len() == 0 {
            if exists|t: TabId| #[trigger]
                s.tabs.contains_key(t) && !someone_lives(s.dead, s.tabs[t].panes) {
                let t = choose|t: TabId| #[trigger]
                    s.tabs.contains_key(t) && !someone_lives(s.dead, s.tabs[t].panes);
                assert(s.tab_dead(s.tabs[t])) by {
                    assert forall|i: int| 0 <= i < s.tabs[t].panes.len() implies s.dead.contains(
                        (#[trigger] s.tabs[t].panes[i]).pane_id,
                    ) by {
                        let panes = s.tabs[t].panes;
                        assert(panes[i] == s.tabs[t].panes[i]);
                    }
                }
                assert(s.dead_tabs().contains(t));
                assert(dead.contains(t));
            } else {
                let w = choose|w: WindowId| #[trigger]
                    s.windows.contains_key(w) && !s.prune_tried(0).windows.contains_key(w);
                assert(first.windows.dom() =~= s.windows.dom());
                assert(last.windows.dom().contains(w));
            }
        } else {
            let rest = dead.drop_last();
            let t = dead.last();
            lemma_without_tabs(first, rest);
            let before = first.without_tabs(rest);
            assert(dead.contains(t));
            assert(s.tabs.contains_key(t));
            assert(!rest.contains(t)) by {
                if rest.contains(t) {
                    let i = rest.index_of(t);
                    assert(dead[i] == dead[dead.len() - 1]);
                }
            }
            assert(!rest.to_set().contains(t));
            assert(before.tabs.contains_key(t));
            law_tabs_come_and_go_counted(before, t, before.tabs[t], 0);
        }
    }
    assert(up_to_date(last));
    lemma_counts_depend_on_the_tabs(last, after);
}

} // verus!
