//! What holds across operations.
use crate::host::GuiPosition;
use crate::id_map::{in_order, lemma_listing_exists};
use crate::ids::{ClientId, DomainId, PaneId, TabId, WindowId};
use crate::lookup::{in_use, lemma_tab_of_pane_exists, lemma_window_of_tab_exists, windows_of};
use crate::notification::Deed;
use crate::pruning::{lemma_domain_killed, lemma_pruned, lemma_wf_kept, lemma_without_pane_wf};
use crate::growth::{lemma_appended, lemma_tab_registered};
use crate::pruning_laws::{has_living_tab, held_by_dead, law_pruning_leaves_the_living};
use crate::removal::{
    lemma_without_pane, lemma_without_panes, lemma_without_tab, lemma_without_window,
};
use crate::state::MuxState;
use crate::tab::{lemma_place_of, new_tab, Pane, ReaderOffer, TabState};
use crate::window::lemma_staying;
use vstd::prelude::*;

verus! {

// ---- removal ----
/// An attempt to prune adds no pane, no tab and no window.
proof fn lemma_prune_adds_nothing(s: MuxState, activities: usize)
    requires
        s.wf(),
    ensures
        s.prune_tried(activities).panes.dom().subset_of(s.panes.dom()),
        forall|p: PaneId| #[trigger]
            s.prune_tried(activities).panes.contains_key(p) ==> s.prune_tried(activities).panes[p]
                == s.panes[p],
        s.prune_tried(activities).tabs.dom().subset_of(s.tabs.dom()),
        s.prune_tried(activities).windows.dom().subset_of(s.windows.dom()),
        forall|w: WindowId, t: TabId| #[trigger]
            s.prune_tried(activities).lists_in(w, t) ==> s.lists_in(w, t),
{
    law_pruning_leaves_the_living(s);
    let a = s.prune_tried(activities);
    assert(s.pruned().tabs.dom().subset_of(s.tabs.dom()));
    assert forall|w: WindowId| #[trigger] s.pruned().windows.dom().contains(w) implies s.windows.dom().contains(
        w,
    ) by {
        assert(s.pruned().windows.contains_key(w));
    }
    assert forall|w: WindowId, t: TabId| #[trigger] a.lists_in(w, t) implies s.lists_in(w, t) by {
        if a.windows != s.windows {
            assert(s.pruned().windows.contains_key(w));
            lemma_staying(s.windows[w].tabs, s.lost_tabs());
        }
    }
}

/// What has been asked is fetched, the panes that are dead by then are reported, and
/// an attempt to prune is made.
pub open spec fn followed_up(s: MuxState, dead: Set<PaneId>, activities: usize) -> MuxState {
    MuxState { dead, effects: Seq::empty(), ..s }.prune_tried(activities)
}

proof fn lemma_follow_up(s: MuxState, dead: Set<PaneId>, activities: usize)
    requires
        s.wf(),
    ensures
        followed_up(s, dead, activities).panes.dom().subset_of(s.panes.dom()),
        forall|p: PaneId| #[trigger]
            followed_up(s, dead, activities).panes.contains_key(p) ==> followed_up(
                s,
                dead,
                activities,
            ).panes[p] == s.panes[p],
        followed_up(s, dead, activities).tabs.dom().subset_of(s.tabs.dom()),
        followed_up(s, dead, activities).windows.dom().subset_of(s.windows.dom()),
        forall|w: WindowId, t: TabId| #[trigger]
            followed_up(s, dead, activities).lists_in(w, t) ==> s.lists_in(w, t),
{
    let fetched = MuxState { dead, effects: Seq::empty(), ..s };
    lemma_wf_kept(s, fetched);
    lemma_prune_adds_nothing(fetched, activities);
    assert forall|w: WindowId, t: TabId| #[trigger] followed_up(s, dead, activities).lists_in(
        w,
        t,
    ) implies s.lists_in(w, t) by {
        assert(fetched.lists_in(w, t));
    }
}

/// A pane that is removed is gone, whatever dies after that.
pub proof fn law_a_removed_pane_is_gone(
    s: MuxState,
    p: PaneId,
    dead: Set<PaneId>,
    activities: usize,
)
    requires
        s.wf(),
    ensures
        !s.without_pane(p).prune_asked().panes.contains_key(p),
        !followed_up(s.without_pane(p).prune_asked(), dead, activities).panes.contains_key(p),
{
    let after = s.without_pane(p).prune_asked();
    lemma_without_pane(s, p);
    lemma_without_pane_wf(s, p);
    lemma_wf_kept(s.without_pane(p), after);
    lemma_follow_up(after, dead, activities);
}

/// A pane that does not end when it is removed keeps its tab, and the tab its
/// window, until it does.
pub proof fn law_a_living_pane_keeps_its_window(
    s: MuxState,
    p: PaneId,
    t: TabId,
    w: WindowId,
    dead: Set<PaneId>,
    activities: usize,
)
    requires
        s.wf(),
        s.holds_in(t, p),
        s.lists_in(w, t),
        !dead.contains(p),
    ensures
        followed_up(s.without_pane(p).prune_asked(), dead, activities).tabs.contains_key(t),
        followed_up(s.without_pane(p).prune_asked(), dead, activities).lists_in(w, t),
{
    let after = s.without_pane(p).prune_asked();
    lemma_without_pane(s, p);
    lemma_without_pane_wf(s, p);
    lemma_wf_kept(s.without_pane(p), after);
    let fetched = MuxState { dead, effects: Seq::empty(), ..after };
    lemma_wf_kept(after, fetched);
    law_pruning_leaves_the_living(fetched);
    let i = choose|i: int| 0 <= i < s.tabs[t].panes.len() && (#[trigger] s.tabs[t].panes[i]).pane_id == p;
    assert(!fetched.dead.contains(fetched.tabs[t].panes[i].pane_id));
    assert(!fetched.tab_dead(fetched.tabs[t]));
    assert(fetched.lists_in(w, t) && !fetched.is_lost(t));
    assert(has_living_tab(fetched, w));
    assert(fetched.pruned().windows.contains_key(w));
    lemma_staying(fetched.windows[w].tabs, fetched.lost_tabs());
}

/// A tab that is removed is no longer registered, none of its panes is left, and
/// no window lists it unless somebody else holds the windows; whatever dies after
/// that.
pub proof fn law_a_removed_tab_is_gone(
    s: MuxState,
    t: TabId,
    dead: Set<PaneId>,
    activities: usize,
)
    requires
        s.wf(),
        s.tabs.contains_key(t),
    ensures
        ({
            let after = s.without_tab(t).prune_asked();
            let later = followed_up(after, dead, activities);
            &&& !after.tabs.contains_key(t) && !later.tabs.contains_key(t)
            &&& !s.windows_locked ==> !after.lists(t) && !later.lists(t)
            &&& forall|i: int|
                0 <= i < s.tabs[t].panes.len() ==> {
                    &&& !after.panes.contains_key((#[trigger] s.tabs[t].panes[i]).pane_id)
                    &&& !later.panes.contains_key(s.tabs[t].panes[i].pane_id)
                }
        }),
{
    let after = s.without_tab(t).prune_asked();
    let later = followed_up(after, dead, activities);
    lemma_without_tab(s, t);
    lemma_wf_kept(s.without_tab(t), after);
    lemma_follow_up(after, dead, activities);
    assert(!after.tabs.dom().contains(t));
    assert forall|i: int| 0 <= i < s.tabs[t].panes.len() implies !after.panes.contains_key(
        (#[trigger] s.tabs[t].panes[i]).pane_id,
    ) && !later.panes.contains_key(s.tabs[t].panes[i].pane_id) by {
        let ids = s.tabs[t].pane_ids();
        assert(ids[i] == s.tabs[t].panes[i].pane_id);
        assert(ids.to_set().contains(ids[i]));
        assert(!after.panes.dom().contains(ids[i]));
    }
    if !s.windows_locked {
        assert forall|w: WindowId| !#[trigger] after.lists_in(w, t) by {
            if after.lists_in(w, t) {
                lemma_staying(s.windows[w].tabs, set![t]);
            }
        }
        assert forall|w: WindowId| !#[trigger] later.lists_in(w, t) by {
            if later.lists_in(w, t) {
                assert(after.lists_in(w, t));
            }
        }
    }
}

/// A window that is killed is gone, and none of its tabs is registered any more;
/// whatever dies after that.
pub proof fn law_a_killed_window_is_gone(
    s: MuxState,
    w: WindowId,
    dead: Set<PaneId>,
    activities: usize,
)
    requires
        s.wf(),
    ensures
        ({
            let after = s.without_window(w).prune_asked();
            let later = followed_up(after, dead, activities);
            &&& !after.windows.contains_key(w) && !later.windows.contains_key(w)
            &&& forall|t: TabId| #[trigger]
                s.lists_in(w, t) ==> !after.tabs.contains_key(t) && !later.tabs.contains_key(t)
        }),
{
    let after = s.without_window(w).prune_asked();
    let later = followed_up(after, dead, activities);
    lemma_without_window(s, w);
    lemma_wf_kept(s.without_window(w), after);
    lemma_follow_up(after, dead, activities);
    assert(!after.windows.dom().contains(w));
    assert forall|t: TabId| #[trigger] s.lists_in(w, t) implies !after.tabs.contains_key(t)
        && !later.tabs.contains_key(t) by {
        assert(s.windows[w].tabs.to_set().contains(t));
        assert(!after.tabs.dom().contains(t));
    }
}

/// When a domain is gone, none of its panes is left.
pub proof fn law_no_pane_outlives_its_domain(s: MuxState, d: DomainId)
    requires
        s.wf(),
    ensures
        forall|p: PaneId| #[trigger]
            s.domain_lost(d).panes.contains_key(p) ==> s.domain_lost(d).panes[p].domain_id != d,
{
    let a = s.domain_killed(d);
    lemma_domain_killed(s, d);
    let ids = in_order(s.panes_of_domain(d));
    lemma_listing_exists(s.panes_of_domain(d));
    lemma_without_panes(a, ids);
    assert forall|p: PaneId| #[trigger] s.domain_lost(d).panes.contains_key(p) implies s.domain_lost(
        d,
    ).panes[p].domain_id != d by {
        assert(!ids.to_set().contains(p));
        assert(!ids.contains(p));
        assert(!s.panes_of_domain(d).contains(p));
    }
}

// ---- adding ----
/// Adding a pane again changes nothing, whatever it says about its reader.
pub proof fn law_panes_are_added_once(
    s: MuxState,
    pane: Pane,
    first: ReaderOffer,
    second: ReaderOffer,
)
    ensures
        s.pane_added(pane, first).pane_added(pane, second) == s.pane_added(pane, first),
{
}

/// A pane in a registered tab that some window lists can be resolved.
pub proof fn law_listed_panes_resolve(s: MuxState, t: TabId, p: PaneId)
    requires
        s.sound(),
        s.holds_in(t, p),
        forall|u: TabId| #[trigger] s.holds_in(u, p) ==> s.lists(u),
    ensures
        s.resolved(p) matches Some((d, w, u)) && s.holds_in(u, p) && s.lists_in(w, u),
{
    lemma_tab_of_pane_exists(s, p);
    let u = s.tab_of_pane(p)->0;
    lemma_window_of_tab_exists(s, u);
}

/// A window that has been opened is not pruned before it is announced.
pub proof fn law_new_windows_are_not_pruned(
    s: MuxState,
    activities: usize,
    workspace: Option<Seq<char>>,
    position: Option<GuiPosition>,
)
    requires
        activities < usize::MAX,
    ensures
        s.window_opened(workspace, position).windows.contains_key(s.next_window),
        s.window_opened(workspace, position).prune_tried((activities + 1) as usize)
            == s.window_opened(workspace, position),
{
}

/// Once the panes have been counted, a workspace counts as empty exactly if its
/// windows hold no pane.
pub proof fn law_empty_workspaces_have_no_panes(s: MuxState, workspace: Seq<char>)
    requires
        s.sound(),
        !s.count_blocked(),
    ensures
        (!s.recounted().pane_counts.contains_key(workspace)
            || s.recounted().pane_counts[workspace] == 0) <==> s.panes_in_workspace(workspace) == 0,
{
    if !s.has_tabs(workspace) {
        let ids = in_order(s.windows.dom());
        lemma_listing_exists(s.windows.dom());
        assert forall|i: int|
            0 <= i < ids.len() && s.windows[#[trigger] ids[i]].workspace == workspace implies s.windows[ids[i]].tabs.len()
            == 0 by {
            assert(ids.contains(ids[i]));
            assert(s.windows.contains_key(ids[i]));
        }
        lemma_nothing_to_count(s, ids, workspace);
    }
}

proof fn lemma_nothing_to_count(s: MuxState, ids: Seq<WindowId>, workspace: Seq<char>)
    requires
        forall|i: int|
            0 <= i < ids.len() && s.windows[#[trigger] ids[i]].workspace == workspace
                ==> s.windows[ids[i]].tabs.len() == 0,
    ensures
        s.panes_in_windows(ids, workspace) == 0,
    decreases ids.len(),
{
    if ids.len() > 0 {
        let rest = ids.drop_last();
        assert forall|i: int|
            0 <= i < rest.len() && s.windows[#[trigger] rest[i]].workspace == workspace implies s.windows[rest[i]].tabs.len()
            == 0 by {
            assert(rest[i] == ids[i]);
        }
        lemma_nothing_to_count(s, rest, workspace);
        assert(ids[ids.len() - 1] == ids.last());
    }
}

/// Whether the pane lives in the tab, and the tab in the window.
pub open spec fn lives_in(s: MuxState, p: PaneId, t: TabId, w: WindowId) -> bool {
    &&& s.panes.contains_key(p)
    &&& s.holds_in(t, p)
    &&& !s.dead.contains(p)
    &&& s.lists_in(w, t)
}

/// Pruning leaves a pane where it is that lives there.
proof fn lemma_living_pane_stays(s: MuxState, p: PaneId, t: TabId, w: WindowId)
    requires
        s.sound(),
        lives_in(s, p, t, w),
    ensures
        lives_in(s.pruned(), p, t, w),
{
    law_pruning_leaves_the_living(s);
    lemma_pruned(s);
    let i = choose|i: int| 0 <= i < s.tabs[t].panes.len() && (#[trigger] s.tabs[t].panes[i]).pane_id == p;
    assert(!s.dead.contains(s.tabs[t].panes[i].pane_id));
    assert(!s.tab_dead(s.tabs[t]));
    assert(!held_by_dead(s, p)) by {
        if held_by_dead(s, p) {
            let u = choose|u: TabId| #[trigger] s.holds_in(u, p) && s.tab_dead(s.tabs[u]);
            let j = choose|j: int|
                0 <= j < s.tabs[u].panes.len() && (#[trigger] s.tabs[u].panes[j]).pane_id == p;
            assert(s.dead.contains(s.tabs[u].panes[j].pane_id));
        }
    }
    assert(s.lists_in(w, t) && !s.is_lost(t));
    assert(has_living_tab(s, w));
    assert(s.pruned().windows.contains_key(w));
    lemma_staying(s.windows[w].tabs, s.lost_tabs());
}

/// A living pane survives a move to a tab of its own, even if the tab that it left
/// goes: it lives in the new tab of the window that it moved to, and goes on living
/// there when what is dead by then is pruned.
pub proof fn law_a_moved_pane_survives(
    s: MuxState,
    pane: Pane,
    tab: TabState,
    w: WindowId,
    src: TabId,
    reader: ReaderOffer,
    dead: Set<PaneId>,
    activities: usize,
)
    requires
        s.wf(),
        s.windows.contains_key(w),
        s.panes.contains_key(pane.pane_id),
        !s.dead.contains(pane.pane_id),
        !dead.contains(pane.pane_id),
        tab == new_tab(tab.tab_id, tab.size).assigned(pane),
        !s.knows_tab(tab.tab_id),
        forall|t: TabId| !#[trigger] s.holds_in(t, pane.pane_id),
    ensures
        lives_in(s.pane_arrived(tab, w, src, reader, activities), pane.pane_id, tab.tab_id, w),
        lives_in(
            followed_up(s.pane_arrived(tab, w, src, reader, activities), dead, activities),
            pane.pane_id,
            tab.tab_id,
            w,
        ),
{
    let p = pane.pane_id;
    let id = tab.tab_id;
    assert(tab.panes[0] == pane);
    lemma_place_of(tab, p, 0);
    let a = s.tab_registered(tab);
    assert(a.pane_added(tab.active_pane()->0, reader) == a);
    let there = a.tab_listed(tab, w);
    assert(!s.lists_in(w, id));
    lemma_tab_registered(s, tab);
    assert(!a.lists_in(w, id));
    lemma_appended(a, tab, w);
    let now = there.windows[w].tabs;
    assert(now[now.len() - 1] == id);
    assert(there.lists_in(w, id));
    assert(there.holds_in(id, p));
    assert(lives_in(there, p, id, w));
    let after = s.pane_arrived(tab, w, src, reader, activities);
    if there.tab_over(src) {
        let b = there.without_tab(src);
        lemma_without_tab(there, src);
        if there.tabs.contains_key(src) {
            assert(src != id) by {
                if src == id {
                    assert(there.dead.contains(there.tab(src).panes[0].pane_id));
                }
            }
            let panes = there.tabs[src].pane_ids();
            assert forall|i: int| 0 <= i < panes.len() implies #[trigger] panes[i] != p by {
                if panes[i] == p {
                    assert(there.tabs[src].panes[i].pane_id == p);
                    assert(there.holds_in(src, p));
                    assert(s.holds_in(src, p));
                }
            }
            assert(!panes.to_set().contains(p));
            if !there.windows_locked {
                lemma_staying(there.windows[w].tabs, set![src]);
            }
            assert(b.lists_in(w, id));
        }
        assert(lives_in(b, p, id, w));
        lemma_wf_kept(b, after);
    }
    assert(lives_in(after, p, id, w));
    let fetched = MuxState { dead, effects: Seq::empty(), ..after };
    lemma_wf_kept(after, fetched);
    assert(lives_in(fetched, p, id, w));
    lemma_living_pane_stays(fetched, p, id, w);
}

// ---- clients ----
/// A client looks at the workspace that it was turned to, and no other client is
/// affected.
pub proof fn law_a_chosen_workspace_is_active(
    s: MuxState,
    c: ClientId,
    other: ClientId,
    workspace: Seq<char>,
)
    requires
        s.clients.contains_key(c),
    ensures
        s.workspace_chosen(c, workspace).workspace_of(c) == workspace,
        other != c ==> s.workspace_chosen(c, workspace).workspace_of(other) == s.workspace_of(other),
{
}

/// Taking on another identity and giving the former one back changes nothing.
pub proof fn law_a_borrowed_identity_is_given_back(s: MuxState, id: Option<ClientId>)
    ensures
        (MuxState { identity: s.identity, ..MuxState { identity: id, ..s } }) == s,
{
}

/// A client has the focus on the pane that it turned to, and turning to that pane
/// again causes nothing to happen.
pub proof fn law_focus_is_told_once(s: MuxState, c: ClientId, p: PaneId)
    requires
        s.clients.contains_key(c),
    ensures
        s.focus_recorded(c, p).focus_of(c) == Some(p),
        s.focus_recorded(c, p).focus_recorded(c, p) == s.focus_recorded(c, p),
{
    let once = s.focus_recorded(c, p);
    assert(once.focus_recorded(c, p).clients =~= once.clients);
}

/// After a workspace has been renamed, nobody is left under the old name: its
/// windows are with those of the new name, and the clients that chose it follow.
pub proof fn law_nobody_stays_under_the_old_name(s: MuxState, from: Seq<char>, to: Seq<char>)
    requires
        from != to,
    ensures
        !in_use(s.workspace_renamed(from, to), from),
        windows_of(s.workspace_renamed(from, to), to) == windows_of(s, from).union(
            windows_of(s, to),
        ),
        forall|c: ClientId| #[trigger]
            s.clients.contains_key(c) && s.clients[c].active_workspace == Some(from)
                ==> s.workspace_renamed(from, to).workspace_of(c) == to,
        s.workspace_renamed(from, to).tabs == s.tabs,
        s.workspace_renamed(from, to).panes == s.panes,
{
    let after = s.workspace_renamed(from, to);
    assert(after.windows == s.windows_moved(from, to).windows);
    assert(windows_of(after, to) =~= windows_of(s, from).union(windows_of(s, to)));
    assert forall|w: WindowId| #[trigger] after.windows.contains_key(w) implies after.windows[w].workspace
        != from by {}
    assert(after.clients == s.clients_moved(from, to).clients);
}

/// Renaming to a name that nobody uses can be undone: renaming back restores the
/// windows and the clients.
pub proof fn law_renaming_can_be_undone(s: MuxState, from: Seq<char>, to: Seq<char>)
    requires
        !in_use(s, to),
        s.clients_in(to).is_empty(),
    ensures
        s.workspace_renamed(from, to).workspace_renamed(to, from).windows == s.windows,
        s.workspace_renamed(from, to).workspace_renamed(to, from).clients == s.clients,
{
    if from != to {
        let there = s.workspace_renamed(from, to);
        let back = there.workspace_renamed(to, from);
        assert(there.windows == s.windows_moved(from, to).windows);
        assert(there.clients == s.clients_moved(from, to).clients);
        assert(back.windows == there.windows_moved(to, from).windows);
        assert(back.clients == there.clients_moved(to, from).clients);
        assert(back.windows.dom() =~= s.windows.dom());
        assert forall|w: WindowId| #[trigger] s.windows.contains_key(w) implies back.windows[w]
            == s.windows[w] by {
            assert(s.windows[w].workspace != to);
        }
        assert(back.windows =~= s.windows);
        assert(back.clients.dom() =~= s.clients.dom());
        assert forall|c: ClientId| #[trigger] s.clients.contains_key(c) implies back.clients[c]
            == s.clients[c] by {
            assert(!s.clients_in(to).contains(c));
            assert(s.clients[c].active_workspace != Some(to));
        }
        assert(back.clients =~= s.clients);
    }
}

// ---- the end ----
/// Every pane is told to end before the multiplexer goes out of use. The first step
/// of a shutdown asks for the end of each pane exactly once and leaves the
/// multiplexer in use; it may be cleared neither before that step nor before the host
/// has fetched what was asked, but it may be cleared then.
pub proof fn law_panes_end_before_the_multiplexer_goes(s: MuxState)
    requires
        s.sound(),
        !s.ending,
    ensures
        !s.may_be_cleared(),
        s.shutdown_begun().current == s.current,
        s.shutdown_begun().panes == s.panes,
        s.shutdown_begun().effects == s.effects + in_order(s.panes.dom()).map_values(
            |p: PaneId| Deed::KillPane(p),
        ),
        in_order(s.panes.dom()).no_duplicates(),
        forall|p: PaneId|
            s.panes.contains_key(p) <==> #[trigger] in_order(s.panes.dom()).contains(p),
        !s.panes.dom().is_empty() ==> !s.shutdown_begun().may_be_cleared(),
        (MuxState { effects: Seq::empty(), ..s.shutdown_begun() }).may_be_cleared(),
{
    let ids = in_order(s.panes.dom());
    lemma_listing_exists(s.panes.dom());
    lemma_kills_are_asked(s, ids);
    let asked = ids.map_values(|p: PaneId| Deed::KillPane(p));
    assert forall|p: PaneId| s.panes.contains_key(p) <==> #[trigger] ids.contains(p) by {
        assert(s.panes.dom().contains(p) <==> ids.contains(p));
    }
    if !s.panes.dom().is_empty() {
        let p = s.panes.dom().choose();
        assert(ids.contains(p));
        let i = ids.index_of(p);
        assert(asked[i] == Deed::KillPane(p));
        let effects = s.shutdown_begun().effects;
        assert(effects[s.effects.len() + i] == Deed::KillPane(p));
        assert(effects.contains(Deed::KillPane(p)));
    }
}

proof fn lemma_kills_are_asked(s: MuxState, ids: Seq<PaneId>)
    ensures
        s.all_killed(ids).effects == s.effects + ids.map_values(|p: PaneId| Deed::KillPane(p)),
        s.all_killed(ids).current == s.current,
        s.all_killed(ids).panes == s.panes,
    decreases ids.len(),
{
    let tell = |p: PaneId| Deed::KillPane(p);
    if ids.len() == 0 {
        assert(s.effects + ids.map_values(tell) =~= s.effects);
    } else {
        let rest = ids.drop_last();
        lemma_kills_are_asked(s, rest);
        assert(s.effects + ids.map_values(tell) =~= (s.effects + rest.map_values(tell)).push(
            tell(ids.last()),
        ));
    }
}

} // verus!
