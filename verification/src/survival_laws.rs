//! Who goes and who stays, in terms of the panes that are dead.
use crate::id_map::{in_order, lemma_listing_exists};
use crate::ids::{DomainId, PaneId, TabId, WindowId};
use crate::notification::{Deed, Notice};
use crate::pruning::{lemma_domain_killed, lemma_pruned, lemma_windows_pruned};
use crate::pruning_laws::{
    has_living_tab, held_by_dead, held_by_some, law_pruning_leaves_the_living, lemma_dead_listing,
    lemma_dead_unlisted, lemma_empty_listing, lemma_pane_ids, lemma_without_empty_windows,
    lemma_without_unlisted_tabs,
};
use crate::removal::{
    lemma_domains_left, lemma_listing_agrees, lemma_same_tables, lemma_unregistered,
    lemma_window_taken, lemma_without_pane, lemma_without_panes, lemma_without_tab,
    lemma_without_tabs, lemma_without_window, lemma_without_windows,
};
use crate::state::MuxState;
use crate::tab::{panes_in_domain, Pane};
use crate::window::{lemma_staying, lemma_staying_in_order};
use vstd::prelude::*;

verus! {

/// One of the panes is not among the dead.
pub open spec fn someone_lives(dead: Set<PaneId>, panes: Seq<Pane>) -> bool {
    exists|i: int| 0 <= i < panes.len() && !dead.contains((#[trigger] panes[i]).pane_id)
}

proof fn lemma_dead_or_alive(s: MuxState, t: TabId)
    ensures
        s.tab_dead(s.tabs[t]) == !someone_lives(s.dead, s.tabs[t].panes),
{
    let panes = s.tabs[t].panes;
    if someone_lives(s.dead, panes) {
        let i = choose|i: int|
            0 <= i < panes.len() && !s.dead.contains((#[trigger] panes[i]).pane_id);
        assert(!s.dead.contains(s.tabs[t].panes[i].pane_id));
    }
}

/// A tab whose panes are all among the dead does not outlast a prune, however many
/// there are: it is not registered any more, no window lists it, and none of its panes
/// is left.
pub proof fn law_the_dead_go(s: MuxState, t: TabId)
    requires
        s.sound(),
        !s.windows_locked,
        s.tabs.contains_key(t),
        forall|i: int|
            0 <= i < s.tabs[t].panes.len() ==> s.dead.contains(
                (#[trigger] s.tabs[t].panes[i]).pane_id,
            ),
    ensures
        !s.prune_tried(0).tabs.contains_key(t),
        !s.prune_tried(0).orphans.contains_key(t),
        forall|w: WindowId| !#[trigger] s.prune_tried(0).lists_in(w, t),
        forall|i: int|
            0 <= i < s.tabs[t].panes.len() ==> !s.prune_tried(0).panes.contains_key(
                (#[trigger] s.tabs[t].panes[i]).pane_id,
            ),
{
    let after = s.prune_tried(0);
    law_pruning_leaves_the_living(s);
    assert(s.tab_dead(s.tabs[t]));
    assert(!after.tabs.dom().contains(t));
    assert forall|w: WindowId| !#[trigger] after.lists_in(w, t) by {
        if after.lists_in(w, t) {
            assert(s.pruned().windows.contains_key(w));
            lemma_staying(s.windows[w].tabs, s.lost_tabs());
        }
    }
    assert forall|i: int| 0 <= i < s.tabs[t].panes.len() implies !after.panes.contains_key(
        (#[trigger] s.tabs[t].panes[i]).pane_id,
    ) by {
        let p = s.tabs[t].panes[i].pane_id;
        assert(s.holds_in(t, p));
        assert(held_by_dead(s, p));
        assert(!after.panes.dom().contains(p));
    }
}

/// A tab with a pane that is not among the dead outlasts a prune, as it is and in all
/// the windows that list it.
pub proof fn law_the_living_stay(s: MuxState, t: TabId, i: int)
    requires
        s.sound(),
        !s.windows_locked,
        s.tabs.contains_key(t),
        0 <= i < s.tabs[t].panes.len(),
        !s.dead.contains(s.tabs[t].panes[i].pane_id),
    ensures
        s.prune_tried(0).tabs.contains_key(t),
        s.prune_tried(0).tabs[t] == s.tabs[t],
        forall|w: WindowId| #[trigger] s.prune_tried(0).lists_in(w, t) == s.lists_in(w, t),
{
    let after = s.prune_tried(0);
    law_pruning_leaves_the_living(s);
    assert(!s.tab_dead(s.tabs[t])) by {
        assert(!s.dead.contains(s.tabs[t].panes[i].pane_id));
    }
    assert(after.tabs.dom().contains(t));
    assert forall|w: WindowId| #[trigger] after.lists_in(w, t) == s.lists_in(w, t) by {
        if s.lists_in(w, t) {
            assert(s.lists_in(w, t) && !s.is_lost(t));
            assert(has_living_tab(s, w));
            assert(s.pruned().windows.contains_key(w));
            lemma_staying(s.windows[w].tabs, s.lost_tabs());
        }
        if after.lists_in(w, t) {
            assert(s.pruned().windows.contains_key(w));
            lemma_staying(s.windows[w].tabs, s.lost_tabs());
        }
    }
}

/// Of the panes, a prune takes just those that a tab holds in which nobody lives; the
/// others are left as they are.
pub proof fn law_panes_go_with_their_tab(s: MuxState, p: PaneId)
    requires
        s.sound(),
        !s.windows_locked,
    ensures
        s.prune_tried(0).panes.contains_key(p) <==> s.panes.contains_key(p) && forall|t: TabId|
            #[trigger]
            s.tabs.contains_key(t) && s.tabs[t].holds(p) ==> someone_lives(s.dead, s.tabs[t].panes),
        s.prune_tried(0).panes.contains_key(p) ==> s.prune_tried(0).panes[p] == s.panes[p],
{
    let after = s.prune_tried(0);
    law_pruning_leaves_the_living(s);
    assert(after.panes.contains_key(p) <==> s.panes.contains_key(p) && !held_by_dead(s, p));
    assert forall|t: TabId| s.tab_dead(s.tabs[t]) == !#[trigger] someone_lives(
        s.dead,
        s.tabs[t].panes,
    ) by {
        lemma_dead_or_alive(s, t);
    }
    if held_by_dead(s, p) {
        let t = choose|t: TabId| #[trigger] s.holds_in(t, p) && s.tab_dead(s.tabs[t]);
        assert(s.tabs.contains_key(t) && s.tabs[t].holds(p));
        assert(!someone_lives(s.dead, s.tabs[t].panes));
    } else {
        assert forall|t: TabId| #[trigger]
            s.tabs.contains_key(t) && s.tabs[t].holds(p) implies someone_lives(
            s.dead,
            s.tabs[t].panes,
        ) by {
            assert(s.holds_in(t, p));
        }
    }
}

/// Of the windows, a prune leaves just those that list a registered tab in which
/// somebody lives. Such a window stays what it is, in its workspace and with the rest of
/// its tabs in their order.
pub proof fn law_windows_go_when_nobody_lives_there(s: MuxState, w: WindowId)
    requires
        s.sound(),
        !s.windows_locked,
    ensures
        s.prune_tried(0).windows.contains_key(w) <==> s.windows.contains_key(w) && exists|t: TabId|
            #[trigger]
            s.lists_in(w, t) && s.tabs.contains_key(t) && someone_lives(s.dead, s.tabs[t].panes),
        forall|t: TabId| #[trigger]
            s.prune_tried(0).lists_in(w, t) <==> s.lists_in(w, t) && s.tabs.contains_key(t)
                && someone_lives(s.dead, s.tabs[t].panes),
        s.prune_tried(0).windows.contains_key(w) ==> {
            let before = s.windows[w];
            let after = s.prune_tried(0).windows[w];
            &&& after.window_id == w
            &&& after.workspace == before.workspace
            &&& after.position == before.position
            &&& after.last_active == before.last_active
            &&& after.tabs.len() <= before.tabs.len()
            &&& forall|i: int, j: int|
                0 <= i < j < after.tabs.len() ==> before.tabs.index_of(#[trigger] after.tabs[i])
                    < before.tabs.index_of(#[trigger] after.tabs[j])
        },
{
    law_pruning_leaves_the_living(s);
    assert forall|t: TabId| s.tab_dead(s.tabs[t]) == !#[trigger] someone_lives(
        s.dead,
        s.tabs[t].panes,
    ) by {
        lemma_dead_or_alive(s, t);
    }
    if has_living_tab(s, w) {
        let t = choose|t: TabId| #[trigger] s.lists_in(w, t) && !s.is_lost(t);
        assert(s.lists_in(w, t) && s.tabs.contains_key(t) && someone_lives(
            s.dead,
            s.tabs[t].panes,
        ));
    }
    if exists|t: TabId| #[trigger]
        s.lists_in(w, t) && s.tabs.contains_key(t) && someone_lives(s.dead, s.tabs[t].panes) {
        let t = choose|t: TabId| #[trigger]
            s.lists_in(w, t) && s.tabs.contains_key(t) && someone_lives(s.dead, s.tabs[t].panes);
        assert(s.lists_in(w, t) && !s.is_lost(t));
    }
    assert forall|t: TabId| #[trigger] s.prune_tried(0).lists_in(w, t) <==> s.lists_in(w, t)
        && s.tabs.contains_key(t) && someone_lives(s.dead, s.tabs[t].panes) by {
        if s.prune_tried(0).lists_in(w, t) {
            assert(s.pruned().windows.contains_key(w));
            lemma_staying(s.windows[w].tabs, s.lost_tabs());
        }
        if s.lists_in(w, t) && s.tabs.contains_key(t) && someone_lives(s.dead, s.tabs[t].panes) {
            assert(s.lists_in(w, t) && !s.is_lost(t));
            assert(has_living_tab(s, w));
            assert(s.pruned().windows.contains_key(w));
            lemma_staying(s.windows[w].tabs, s.lost_tabs());
        }
    }
    if s.prune_tried(0).windows.contains_key(w) {
        assert(s.pruned().windows.contains_key(w));
        assert(s.windows[w].wf());
        lemma_staying(s.windows[w].tabs, s.lost_tabs());
        lemma_staying_in_order(s.windows[w].tabs, s.lost_tabs());
    }
}

/// A prune touches nothing but the tables of panes, tabs and windows, the counts and
/// what the host is asked.
pub proof fn law_a_prune_keeps_the_rest(s: MuxState)
    requires
        s.sound(),
        !s.windows_locked,
    ensures
        s.prune_tried(0) == (MuxState {
            tabs: s.prune_tried(0).tabs,
            orphans: Map::empty(),
            panes: s.prune_tried(0).panes,
            windows: s.prune_tried(0).windows,
            pane_counts: s.prune_tried(0).pane_counts,
            effects: s.prune_tried(0).effects,
            ..s
        }),
{
    law_pruning_leaves_the_living(s);
    lemma_pruned(s);
}

// ---- what is asked and told ----
/// What the host was asked in `a` it is still asked in `b`, in the same order.
pub open spec fn goes_on(a: MuxState, b: MuxState) -> bool {
    &&& a.effects.len() <= b.effects.len()
    &&& forall|i: int| 0 <= i < a.effects.len() ==> b.effects[i] == #[trigger] a.effects[i]
}

/// Between `a` and `b` the host was asked for the deed.
pub open spec fn added(a: MuxState, b: MuxState, deed: Deed) -> bool {
    exists|i: int| a.effects.len() <= i < b.effects.len() && #[trigger] b.effects[i] == deed
}

/// Between `a` and `b` panes and windows were removed at most, each pane that is gone
/// was told to end, of each pane and of each window that is gone the subscribers heard,
/// and just the domains in `left` were left. Each of these things was asked for once: so
/// many deeds came up as there are things gone, counting panes twice.
pub open spec fn accounted(a: MuxState, b: MuxState, left: Set<DomainId>) -> bool {
    &&& goes_on(a, b)
    &&& b.panes.dom().subset_of(a.panes.dom())
    &&& b.windows.dom().subset_of(a.windows.dom())
    &&& forall|p: PaneId| #[trigger]
        added(a, b, Deed::KillPane(p)) <==> a.panes.dom().contains(p) && !b.panes.dom().contains(p)
    &&& forall|p: PaneId| #[trigger]
        added(a, b, Deed::Notify(Notice::PaneRemoved(p))) <==> a.panes.dom().contains(p)
            && !b.panes.dom().contains(p)
    &&& forall|w: WindowId| #[trigger]
        added(a, b, Deed::Notify(Notice::WindowRemoved(w))) <==> a.windows.dom().contains(w)
            && !b.windows.dom().contains(w)
    &&& forall|d: DomainId| #[trigger] added(a, b, Deed::DetachDomain(d)) <==> left.contains(d)
    &&& forall|deed: Deed| #[trigger] added(a, b, deed) ==> is_removal(deed)
    &&& b.effects.len() + 2 * b.panes.dom().len() + b.windows.dom().len() == a.effects.len() + 2
        * a.panes.dom().len() + a.windows.dom().len() + left.len()
}

/// Whether a deed goes with the removal of something.
pub open spec fn is_removal(deed: Deed) -> bool {
    match deed {
        Deed::KillPane(p) => true,
        Deed::Notify(Notice::PaneRemoved(p)) => true,
        Deed::Notify(Notice::WindowRemoved(w)) => true,
        Deed::DetachDomain(d) => true,
        _ => false,
    }
}

pub proof fn lemma_added_on(a: MuxState, b: MuxState, c: MuxState)
    requires
        goes_on(a, b),
        goes_on(b, c),
    ensures
        goes_on(a, c),
        forall|deed: Deed| #[trigger] added(a, c, deed) <==> added(a, b, deed) || added(b, c, deed),
{
    assert forall|i: int| 0 <= i < a.effects.len() implies c.effects[i] == #[trigger] a.effects[i] by {
        assert(c.effects[i] == b.effects[i]);
    }
    assert forall|deed: Deed| #[trigger] added(a, c, deed) <==> added(a, b, deed) || added(
        b,
        c,
        deed,
    ) by {
        if added(a, c, deed) {
            let i = choose|i: int|
                a.effects.len() <= i < c.effects.len() && #[trigger] c.effects[i] == deed;
            if i < b.effects.len() {
                assert(b.effects[i] == deed);
            }
        }
        if added(a, b, deed) {
            let i = choose|i: int|
                a.effects.len() <= i < b.effects.len() && #[trigger] b.effects[i] == deed;
            assert(c.effects[i] == deed);
        }
        if added(b, c, deed) {
            let i = choose|i: int|
                b.effects.len() <= i < c.effects.len() && #[trigger] c.effects[i] == deed;
            assert(c.effects[i] == deed);
        }
    }
}

proof fn lemma_accounted_on(a: MuxState, b: MuxState, c: MuxState)
    requires
        accounted(a, b, Set::empty()),
        accounted(b, c, Set::empty()),
    ensures
        accounted(a, c, Set::empty()),
{
    lemma_added_on(a, b, c);
}

/// Nothing asked, and nothing removed.
proof fn lemma_nothing_to_account_for(a: MuxState, b: MuxState)
    requires
        a.effects == b.effects,
        a.panes.dom() == b.panes.dom(),
        a.windows.dom() == b.windows.dom(),
    ensures
        accounted(a, b, Set::empty()),
{
    assert forall|deed: Deed| !#[trigger] added(a, b, deed) by {}
}

/// One deed more.
pub proof fn lemma_added_one(a: MuxState, b: MuxState, deed: Deed)
    requires
        b.effects == a.effects.push(deed),
    ensures
        goes_on(a, b),
        forall|x: Deed| #[trigger] added(a, b, x) <==> x == deed,
{
    assert(b.effects[a.effects.len() as int] == deed);
}

proof fn lemma_pane_accounted(s: MuxState, p: PaneId)
    requires
        s.sound(),
    ensures
        accounted(s, s.without_pane(p), Set::empty()),
{
    let after = s.without_pane(p);
    lemma_without_pane(s, p);
    if s.panes.contains_key(p) {
        let mid = MuxState { panes: s.panes.remove(p), ..s }.killed(p);
        lemma_added_one(s, mid, Deed::KillPane(p));
        lemma_added_one(mid, after, Deed::Notify(Notice::PaneRemoved(p)));
        lemma_added_on(s, mid, after);
    } else {
        lemma_nothing_to_account_for(s, after);
    }
}

proof fn lemma_panes_accounted(s: MuxState, ids: Seq<PaneId>)
    requires
        s.sound(),
    ensures
        accounted(s, s.without_panes(ids), Set::empty()),
    decreases ids.len(),
{
    if ids.len() == 0 {
        lemma_nothing_to_account_for(s, s);
    } else {
        let rest = ids.drop_last();
        let mid = s.without_panes(rest);
        lemma_panes_accounted(s, rest);
        lemma_without_panes(s, rest);
        lemma_pane_accounted(mid, ids.last());
        lemma_accounted_on(s, mid, s.without_panes(ids));
    }
}

proof fn lemma_tab_accounted(s: MuxState, t: TabId)
    requires
        s.sound(),
    ensures
        accounted(s, s.without_tab(t), Set::empty()),
{
    lemma_without_tab(s, t);
    if s.tabs.contains_key(t) {
        let a = s.unregistered(t);
        assert(a.windows.dom() =~= s.windows.dom());
        lemma_nothing_to_account_for(s, a);
        lemma_unregistered(s, t);
        let ids = s.tabs[t].pane_ids();
        lemma_panes_accounted(a, ids);
        let b = a.without_panes(ids);
        lemma_nothing_to_account_for(b, s.without_tab(t));
        lemma_accounted_on(s, a, b);
        lemma_accounted_on(s, b, s.without_tab(t));
    } else {
        lemma_nothing_to_account_for(s, s);
    }
}

proof fn lemma_tabs_accounted(s: MuxState, ids: Seq<TabId>)
    requires
        s.sound(),
    ensures
        accounted(s, s.without_tabs(ids), Set::empty()),
    decreases ids.len(),
{
    if ids.len() == 0 {
        lemma_nothing_to_account_for(s, s);
    } else {
        let rest = ids.drop_last();
        let mid = s.without_tabs(rest);
        lemma_tabs_accounted(s, rest);
        lemma_without_tabs(s, rest);
        lemma_tab_accounted(mid, ids.last());
        lemma_accounted_on(s, mid, s.without_tabs(ids));
    }
}

/// Those of the domains that are known and can be left.
spec fn leavable(s: MuxState, ids: Seq<DomainId>) -> Set<DomainId> {
    Set::new(|d: DomainId| ids.contains(d) && s.domains.contains_key(d) && s.domains[d].detachable)
}

proof fn lemma_domains_accounted(s: MuxState, ids: Seq<DomainId>)
    requires
        ids.no_duplicates(),
    ensures
        leavable(s, ids).finite(),
        s.domains_left(ids).effects.len() == s.effects.len() + leavable(s, ids).len(),
        goes_on(s, s.domains_left(ids)),
        forall|deed: Deed| #[trigger]
            added(s, s.domains_left(ids), deed) <==> (deed matches Deed::DetachDomain(d)
                && ids.contains(d) && s.domains.contains_key(d) && s.domains[d].detachable),
    decreases ids.len(),
{
    let after = s.domains_left(ids);
    if ids.len() > 0 {
        let rest = ids.drop_last();
        let d = ids.last();
        let mid = s.domains_left(rest);
        assert(rest.no_duplicates()) by {
            assert forall|i: int, j: int| 0 <= i < rest.len() && 0 <= j < rest.len() && i != j implies rest[i]
                != rest[j] by {
                assert(ids[i] != ids[j]);
            }
        }
        assert(!rest.contains(d)) by {
            if rest.contains(d) {
                let i = rest.index_of(d);
                assert(ids[i] == ids[ids.len() - 1]);
            }
        }
        lemma_domains_accounted(s, rest);
        assert forall|x: DomainId| #[trigger] ids.contains(x) <==> rest.contains(x) || x == d by {
            if ids.contains(x) {
                let i = ids.index_of(x);
                if i < rest.len() {
                    assert(rest[i] == x);
                }
            }
            if rest.contains(x) {
                let i = rest.index_of(x);
                assert(ids[i] == x);
            }
            assert(ids[ids.len() - 1] == d);
        }
        if s.domains.contains_key(d) && s.domains[d].detachable {
            lemma_added_one(mid, after, Deed::DetachDomain(d));
            lemma_added_on(s, mid, after);
            assert(leavable(s, ids) =~= leavable(s, rest).insert(d));
        } else {
            assert(after == mid);
            assert(leavable(s, ids) =~= leavable(s, rest));
        }
    } else {
        assert(leavable(s, ids) =~= Set::empty());
    }
}

/// Finitely many tabs have panes in finitely many domains.
proof fn lemma_finitely_many_domains(s: MuxState, tabs: Seq<TabId>)
    ensures
        s.domains_in_tabs(tabs).finite(),
    decreases tabs.len(),
{
    let all = s.domains_in_tabs(tabs);
    if tabs.len() == 0 {
        assert(all =~= Set::empty());
    } else {
        let rest = tabs.drop_last();
        let panes = s.tab(tabs.last()).panes;
        let ids = panes.map_values(|p: Pane| p.domain_id);
        lemma_finitely_many_domains(s, rest);
        let bound = s.domains_in_tabs(rest).union(ids.to_set());
        assert forall|d: DomainId| #[trigger] all.contains(d) implies bound.contains(d) by {
            let (i, j) = choose|i: int, j: int|
                0 <= i < tabs.len() && 0 <= j < s.tab(tabs[i]).panes.len() && (
                #[trigger] s.tab(tabs[i]).panes[j]).domain_id == d;
            if i < rest.len() {
                assert(rest[i] == tabs[i]);
                assert(s.tab(rest[i]).panes[j].domain_id == d);
                assert(s.domain_occurs(rest, d));
            } else {
                assert(ids[j] == d);
            }
        }
        assert(all =~= all.intersect(bound));
    }
}

/// The domains that are left when a window goes: those of the panes in its tabs, as far
/// as they can be left.
pub open spec fn leaves(s: MuxState, w: WindowId) -> Set<DomainId> {
    Set::new(
        |d: DomainId|
            s.windows.contains_key(w) && s.domains.contains_key(d) && s.domains[d].detachable
                && exists|t: TabId, j: int|
                s.lists_in(w, t) && 0 <= j < s.tab(t).panes.len() && (
                #[trigger] s.tab(t).panes[j]).domain_id == d,
    )
}

/// When a window is removed, just its detachable domains are left, each pane that goes
/// with it is told to end, and the subscribers hear of every pane and of the window.
pub proof fn law_a_removed_window_is_accounted_for(s: MuxState, w: WindowId)
    requires
        s.sound(),
    ensures
        accounted(s, s.without_window(w), leaves(s, w)),
{
    let fin = s.without_window(w);
    lemma_without_window(s, w);
    if s.windows.contains_key(w) {
        let tabs = s.windows[w].tabs;
        let domains = s.domains_in_tabs(tabs);
        let order = in_order(domains);
        lemma_finitely_many_domains(s, tabs);
        lemma_listing_exists(domains);
        let left = s.domains_left(order);
        assert(order.no_duplicates());
        lemma_domains_accounted(s, order);
        lemma_domains_left(s, order);
        lemma_same_tables(s, left);
        let mid = MuxState { windows: left.windows.remove(w), ..left };
        lemma_window_taken(left, w);
        lemma_tabs_accounted(mid, tabs);
        lemma_without_tabs(mid, tabs);
        let b = mid.without_tabs(tabs);
        assert forall|deed: Deed| #[trigger] added(s, mid, deed) <==> added(s, left, deed) by {
            if added(s, mid, deed) {
                let i = choose|i: int|
                    s.effects.len() <= i < mid.effects.len() && #[trigger] mid.effects[i] == deed;
                assert(left.effects[i] == deed);
            }
            if added(s, left, deed) {
                let i = choose|i: int|
                    s.effects.len() <= i < left.effects.len() && #[trigger] left.effects[i] == deed;
                assert(mid.effects[i] == deed);
            }
        }
        lemma_added_on(s, mid, b);
        lemma_added_one(b, fin, Deed::Notify(Notice::WindowRemoved(w)));
        lemma_added_on(s, b, fin);
        assert forall|d: DomainId| #[trigger] order.contains(d) && s.domains.contains_key(d)
            && s.domains[d].detachable <==> leaves(s, w).contains(d) by {
            assert(order.contains(d) <==> s.domain_occurs(tabs, d));
            if s.domain_occurs(tabs, d) {
                let (i, j) = choose|i: int, j: int|
                    0 <= i < tabs.len() && 0 <= j < s.tab(tabs[i]).panes.len() && (
                    #[trigger] s.tab(tabs[i]).panes[j]).domain_id == d;
                assert(s.lists_in(w, tabs[i]) && s.tab(tabs[i]).panes[j].domain_id == d);
            }
            if exists|t: TabId, j: int|
                s.lists_in(w, t) && 0 <= j < s.tab(t).panes.len() && (
                #[trigger] s.tab(t).panes[j]).domain_id == d {
                let (t, j) = choose|t: TabId, j: int|
                    s.lists_in(w, t) && 0 <= j < s.tab(t).panes.len() && (
                    #[trigger] s.tab(t).panes[j]).domain_id == d;
                let i = tabs.index_of(t);
                assert(s.tab(tabs[i]).panes[j].domain_id == d);
            }
        }
        assert forall|d: DomainId| #[trigger] added(s, fin, Deed::DetachDomain(d)) <==> leaves(
            s,
            w,
        ).contains(d) by {
            assert(!added(mid, b, Deed::DetachDomain(d)));
            assert(order.contains(d) || !order.contains(d));
        }
        assert forall|v: WindowId| #[trigger] added(s, fin, Deed::Notify(Notice::WindowRemoved(v)))
            <==> s.windows.dom().contains(v) && !fin.windows.dom().contains(v) by {
            assert(!added(mid, b, Deed::Notify(Notice::WindowRemoved(v))));
        }
        assert(fin.panes == b.panes);
        assert(leaves(s, w) =~= leavable(s, order)) by {
            assert forall|d: DomainId| #[trigger] leavable(s, order).contains(d) <==> leaves(
                s,
                w,
            ).contains(d) by {
                assert(order.contains(d) || !order.contains(d));
            }
        }
        assert(mid.windows.dom() =~= s.windows.dom().remove(w));
    } else {
        lemma_nothing_to_account_for(s, fin);
        assert(leaves(s, w) =~= Set::empty());
    }
}

proof fn lemma_empty_windows_accounted(s: MuxState, ids: Seq<WindowId>)
    requires
        s.sound(),
        forall|i: int|
            0 <= i < ids.len() && s.windows.contains_key(#[trigger] ids[i])
                ==> s.windows[ids[i]].tabs.len() == 0,
    ensures
        accounted(s, s.without_windows(ids), Set::empty()),
    decreases ids.len(),
{
    if ids.len() == 0 {
        lemma_nothing_to_account_for(s, s);
    } else {
        let rest = ids.drop_last();
        let w = ids.last();
        assert forall|i: int|
            0 <= i < rest.len() && s.windows.contains_key(
                #[trigger] rest[i],
            ) implies s.windows[rest[i]].tabs.len() == 0 by {
            assert(rest[i] == ids[i]);
        }
        let mid = s.without_windows(rest);
        lemma_empty_windows_accounted(s, rest);
        lemma_without_windows(s, rest);
        lemma_without_empty_windows(s, rest);
        assert(ids[ids.len() - 1] == w);
        law_a_removed_window_is_accounted_for(mid, w);
        assert(leaves(mid, w) =~= Set::empty()) by {
            if mid.windows.contains_key(w) {
                assert(mid.windows[w].tabs.len() == 0);
                assert forall|t: TabId| !#[trigger] mid.lists_in(w, t) by {}
            }
        }
        lemma_accounted_on(s, mid, s.without_windows(ids));
    }
}

/// A prune tells each pane that goes to end, and no other; the subscribers hear of
/// every pane and of every window that goes, and of no other; no domain is left; and
/// nothing else is asked, except that the subscribers hear if no pane is left. All this is
/// asked for once.
pub proof fn law_a_prune_is_accounted_for(s: MuxState)
    requires
        s.sound(),
        !s.windows_locked,
    ensures
        ({
            let after = s.prune_tried(0);
            &&& goes_on(s, after)
            &&& forall|p: PaneId| #[trigger]
                added(s, after, Deed::KillPane(p)) <==> s.panes.contains_key(p)
                    && !after.panes.contains_key(p)
            &&& forall|p: PaneId| #[trigger]
                added(s, after, Deed::Notify(Notice::PaneRemoved(p))) <==> s.panes.contains_key(p)
                    && !after.panes.contains_key(p)
            &&& forall|w: WindowId| #[trigger]
                added(s, after, Deed::Notify(Notice::WindowRemoved(w))) <==> s.windows.contains_key(
                    w,
                ) && !after.windows.contains_key(w)
            &&& forall|d: DomainId| !#[trigger] added(s, after, Deed::DetachDomain(d))
            &&& added(s, after, Deed::Notify(Notice::Empty)) <==> after.panes.dom().is_empty()
            &&& forall|deed: Deed| #[trigger]
                added(s, after, deed) ==> is_removal(deed) || deed == Deed::Notify(Notice::Empty)
            &&& after.effects.len() + 2 * after.panes.dom().len() + after.windows.dom().len()
                == s.effects.len() + 2 * s.panes.dom().len() + s.windows.dom().len() + (
            if after.panes.dom().is_empty() {
                1int
            } else {
                0int
            })
        }),
{
    let after = s.prune_tried(0);
    let first = s.windows_pruned();
    lemma_windows_pruned(s);
    assert(first.windows.dom() =~= s.windows.dom());
    lemma_nothing_to_account_for(s, first);
    let dead = in_order(s.dead_tabs());
    lemma_tabs_accounted(first, dead);
    lemma_without_tabs(first, dead);
    let mid = first.without_tabs(dead);
    lemma_accounted_on(s, first, mid);
    let gone = in_order(first.empty_windows());
    lemma_empty_listing(first);
    lemma_dead_listing(s);
    lemma_dead_unlisted(s);
    lemma_without_unlisted_tabs(first, dead);
    assert forall|i: int|
        0 <= i < gone.len() && mid.windows.contains_key(
            #[trigger] gone[i],
        ) implies mid.windows[gone[i]].tabs.len() == 0 by {
        assert(gone.contains(gone[i]));
    }
    lemma_empty_windows_accounted(mid, gone);
    let last = mid.without_windows(gone);
    lemma_accounted_on(s, mid, last);
    if last.panes.dom().is_empty() {
        lemma_added_one(last, after, Deed::Notify(Notice::Empty));
        lemma_added_on(s, last, after);
        assert(added(s, after, Deed::Notify(Notice::Empty)));
    } else {
        assert(!added(s, after, Deed::Notify(Notice::Empty)));
    }
    assert forall|d: DomainId| !#[trigger] added(s, after, Deed::DetachDomain(d)) by {
        assert(!added(s, last, Deed::DetachDomain(d)));
    }
}

// ---- what a removal takes along ----
/// Removing a pane that is known strikes it from the table of panes, tells it to end
/// and tells the subscribers, in this order, and touches nothing else but the counts.
pub proof fn law_removing_a_pane(s: MuxState, p: PaneId)
    ensures
        s.panes.contains_key(p) ==> s.without_pane(p) == (MuxState {
            panes: s.panes.remove(p),
            effects: s.effects.push(Deed::KillPane(p)).push(
                Deed::Notify(Notice::PaneRemoved(p)),
            ),
            pane_counts: s.without_pane(p).pane_counts,
            ..s
        }),
        !s.panes.contains_key(p) ==> s.without_pane(p) == s,
{
}

/// Removing a registered tab strikes it from the register, and its panes from the table
/// of panes, but no other. No window lists it after that, unless somebody else holds the
/// windows; otherwise the windows list what they did.
pub proof fn law_removing_a_tab(s: MuxState, t: TabId)
    requires
        s.sound(),
    ensures
        ({
            let after = s.without_tab(t);
            &&& s.tabs.contains_key(t) ==> {
                &&& after.tabs == s.tabs.remove(t)
                &&& forall|p: PaneId| #[trigger]
                    after.panes.contains_key(p) <==> s.panes.contains_key(p) && !s.tabs[t].holds(p)
                &&& forall|p: PaneId| #[trigger]
                    after.panes.contains_key(p) ==> after.panes[p] == s.panes[p]
                &&& after.windows.dom() == s.windows.dom()
                &&& forall|w: WindowId, u: TabId| #[trigger]
                    after.lists_in(w, u) <==> s.lists_in(w, u) && (u != t || s.windows_locked)
                &&& forall|u: TabId| #[trigger]
                    after.orphans.contains_key(u) <==> (u == t || s.orphans.contains_key(u))
                        && after.lists(u)
                &&& accounted(s, after, Set::empty())
                &&& after == (MuxState {
                    tabs: after.tabs,
                    orphans: after.orphans,
                    panes: after.panes,
                    windows: after.windows,
                    pane_counts: after.pane_counts,
                    effects: after.effects,
                    ..s
                })
            }
            &&& !s.tabs.contains_key(t) ==> after == s
        }),
{
    let after = s.without_tab(t);
    lemma_without_tab(s, t);
    lemma_tab_accounted(s, t);
    if s.tabs.contains_key(t) {
        let a = s.unregistered(t);
        lemma_unregistered(s, t);
        lemma_without_panes(a, s.tabs[t].pane_ids());
        let b = a.without_panes(s.tabs[t].pane_ids()).recounted();
        assert forall|u: TabId| #[trigger] after.orphans.contains_key(u) <==> (u == t
            || s.orphans.contains_key(u)) && after.lists(u) by {
            lemma_listing_agrees(b, after, u);
        }
        assert forall|p: PaneId| #[trigger] after.panes.contains_key(p) <==> s.panes.contains_key(p)
            && !s.tabs[t].holds(p) by {
            lemma_pane_ids(s.tabs[t], p);
        }
        assert(after.windows.dom() =~= s.windows.dom());
        assert forall|w: WindowId, u: TabId| #[trigger] after.lists_in(w, u) <==> s.lists_in(w, u)
            && (u != t || s.windows_locked) by {
            if s.windows.contains_key(w) {
                lemma_staying(s.windows[w].tabs, set![t]);
            }
        }
    }
}

proof fn lemma_removing_tabs(s: MuxState, ids: Seq<TabId>)
    requires
        s.sound(),
    ensures
        forall|p: PaneId| #[trigger]
            s.without_tabs(ids).panes.contains_key(p) <==> s.panes.contains_key(p) && !held_by_some(
                s,
                ids,
                p,
            ),
        forall|p: PaneId| #[trigger]
            s.without_tabs(ids).panes.contains_key(p) ==> s.without_tabs(ids).panes[p] == s.panes[p],
        forall|w: WindowId, u: TabId| #[trigger]
            s.without_tabs(ids).lists_in(w, u) <==> s.lists_in(w, u) && (s.windows_locked
                || !s.tabs.contains_key(u) || !ids.contains(u)),
    decreases ids.len(),
{
    let after = s.without_tabs(ids);
    if ids.len() > 0 {
        let rest = ids.drop_last();
        let t = ids.last();
        let mid = s.without_tabs(rest);
        lemma_removing_tabs(s, rest);
        lemma_without_tabs(s, rest);
        law_removing_a_tab(mid, t);
        assert forall|u: TabId| #[trigger] ids.contains(u) <==> rest.contains(u) || u == t by {
            if ids.contains(u) {
                let i = ids.index_of(u);
                if i < rest.len() {
                    assert(rest[i] == u);
                }
            }
            if rest.contains(u) {
                let i = rest.index_of(u);
                assert(ids[i] == u);
            }
            assert(ids[ids.len() - 1] == t);
        }
        assert forall|p: PaneId| #[trigger] held_by_some(s, ids, p) <==> held_by_some(s, rest, p)
            || s.holds_in(t, p) by {
            if held_by_some(s, ids, p) {
                let i = choose|i: int| 0 <= i < ids.len() && #[trigger] s.holds_in(ids[i], p);
                if i < rest.len() {
                    assert(s.holds_in(rest[i], p));
                }
            }
            if held_by_some(s, rest, p) {
                let i = choose|i: int| 0 <= i < rest.len() && #[trigger] s.holds_in(rest[i], p);
                assert(s.holds_in(ids[i], p));
            }
            if s.holds_in(t, p) {
                assert(s.holds_in(ids[ids.len() - 1], p));
            }
        }
        assert(mid.tabs.contains_key(t) <==> s.tabs.contains_key(t) && !rest.contains(t));
        assert forall|p: PaneId| #[trigger] after.panes.contains_key(p) <==> s.panes.contains_key(p)
            && !held_by_some(s, ids, p) by {
            assert(mid.panes.contains_key(p) <==> s.panes.contains_key(p) && !held_by_some(
                s,
                rest,
                p,
            ));
            if rest.contains(t) && s.holds_in(t, p) {
                let i = rest.index_of(t);
                assert(s.holds_in(rest[i], p));
            }
        }
        assert forall|w: WindowId, u: TabId| #[trigger] after.lists_in(w, u) <==> s.lists_in(w, u)
            && (s.windows_locked || !s.tabs.contains_key(u) || !ids.contains(u)) by {
            assert(mid.lists_in(w, u) <==> s.lists_in(w, u) && (s.windows_locked
                || !s.tabs.contains_key(u) || !rest.contains(u)));
            assert(ids.contains(u) <==> rest.contains(u) || u == t);
        }
    } else {
        assert forall|p: PaneId| !#[trigger] held_by_some(s, ids, p) by {}
    }
}

/// With a window go the registered tabs that it lists and the panes that these hold, and
/// nothing else; the tabs go from all windows unless somebody else holds these.
pub proof fn law_removing_a_window(s: MuxState, w: WindowId)
    requires
        s.sound(),
        s.windows.contains_key(w),
    ensures
        ({
            let after = s.without_window(w);
            &&& after.windows.dom() == s.windows.dom().remove(w)
            &&& forall|t: TabId| #[trigger]
                after.tabs.contains_key(t) <==> s.tabs.contains_key(t) && !s.lists_in(w, t)
            &&& forall|t: TabId| #[trigger]
                after.tabs.contains_key(t) ==> after.tabs[t] == s.tabs[t]
            &&& forall|p: PaneId| #[trigger]
                after.panes.contains_key(p) <==> s.panes.contains_key(p) && forall|t: TabId|
                    !(#[trigger] s.lists_in(w, t) && s.holds_in(t, p))
            &&& forall|p: PaneId| #[trigger]
                after.panes.contains_key(p) ==> after.panes[p] == s.panes[p]
            &&& forall|v: WindowId, t: TabId| #[trigger]
                after.lists_in(v, t) <==> v != w && s.lists_in(v, t) && (s.windows_locked
                    || !s.tabs.contains_key(t) || !s.lists_in(w, t))
            &&& after == (MuxState {
                tabs: after.tabs,
                orphans: after.orphans,
                panes: after.panes,
                windows: after.windows,
                pane_counts: after.pane_counts,
                effects: after.effects,
                ..s
            })
        }),
{
    let after = s.without_window(w);
    lemma_without_window(s, w);
    let tabs = s.windows[w].tabs;
    let order = in_order(s.domains_in_tabs(tabs));
    let left = s.domains_left(order);
    lemma_domains_left(s, order);
    lemma_same_tables(s, left);
    let mid = MuxState { windows: left.windows.remove(w), ..left };
    lemma_window_taken(left, w);
    lemma_without_tabs(mid, tabs);
    lemma_removing_tabs(mid, tabs);
    let b = mid.without_tabs(tabs);
    assert(after.panes == b.panes && after.windows == b.windows);
    assert forall|t: TabId| #[trigger] after.tabs.contains_key(t) <==> s.tabs.contains_key(t)
        && !s.lists_in(w, t) by {
        assert(tabs.to_set().contains(t) == tabs.contains(t));
    }
    assert forall|p: PaneId| #[trigger] after.panes.contains_key(p) <==> s.panes.contains_key(p)
        && forall|t: TabId| !(#[trigger] s.lists_in(w, t) && s.holds_in(t, p)) by {
        assert(b.panes.contains_key(p) <==> mid.panes.contains_key(p) && !held_by_some(
            mid,
            tabs,
            p,
        ));
        if held_by_some(mid, tabs, p) {
            let i = choose|i: int| 0 <= i < tabs.len() && #[trigger] mid.holds_in(tabs[i], p);
            assert(s.lists_in(w, tabs[i]) && s.holds_in(tabs[i], p));
        } else {
            assert forall|t: TabId| !(#[trigger] s.lists_in(w, t) && s.holds_in(t, p)) by {
                if s.lists_in(w, t) && s.holds_in(t, p) {
                    let i = tabs.index_of(t);
                    assert(mid.holds_in(tabs[i], p));
                }
            }
        }
    }
    assert forall|p: PaneId| #[trigger] after.panes.contains_key(p) implies after.panes[p]
        == s.panes[p] by {
        assert(b.panes.contains_key(p));
    }
    assert forall|v: WindowId, t: TabId| #[trigger] after.lists_in(v, t) <==> v != w && s.lists_in(
        v,
        t,
    ) && (s.windows_locked || !s.tabs.contains_key(t) || !s.lists_in(w, t)) by {
        assert(after.lists_in(v, t) == b.lists_in(v, t));
        assert(mid.lists_in(v, t) <==> v != w && s.lists_in(v, t));
    }
}

// ---- what the host reports and is asked ----
/// What the host reports of a pane counts until it reports otherwise, and says nothing
/// about any other.
pub proof fn law_what_the_host_reports(s: MuxState, p: PaneId, dead: bool, other: PaneId)
    ensures
        s.pane_reported(p, dead).dead.contains(p) == dead,
        other != p ==> s.pane_reported(p, dead).dead.contains(other) == s.dead.contains(other),
        s.pane_reported(p, dead) == (MuxState { dead: s.pane_reported(p, dead).dead, ..s }),
{
}

/// Asking for an attempt to prune, or telling of the end of an activity, is one deed and
/// nothing else.
pub proof fn law_how_a_prune_is_asked_for(s: MuxState)
    ensures
        s.prune_asked() == (MuxState { effects: s.effects.push(Deed::PruneDeadWindows), ..s }),
        s.activity_ended() == (MuxState { effects: s.effects.push(Deed::SchedulePrune), ..s }),
{
}

// ---- a prune that is put off ----
/// While an activity is under way, or while somebody else holds the windows, an attempt
/// to prune leaves all tables as they are. All it may do is to ask for another attempt,
/// and it does so exactly if the windows are held, no activity is under way, none has been
/// asked for yet and the multiplexer is in use.
pub proof fn law_a_prune_that_is_put_off(s: MuxState, activities: usize)
    requires
        activities > 0 || s.windows_locked,
    ensures
        ({
            let after = s.prune_tried(activities);
            let asks = activities == 0 && s.current && !s.retry_scheduled;
            &&& asks ==> after == (MuxState {
                retry_scheduled: true,
                effects: s.effects.push(Deed::SchedulePruneRetry),
                ..s
            })
            &&& !asks ==> after == s
        }),
{
}

/// An attempt that comes due is no longer on its way, and otherwise it is like any other.
pub proof fn law_an_attempt_that_comes_due(s: MuxState, activities: usize)
    ensures
        s.retry_due(activities) == (MuxState { retry_scheduled: false, ..s }).prune_tried(
            activities,
        ),
        activities > 0 ==> s.retry_due(activities) == (MuxState { retry_scheduled: false, ..s }),
{
}

// ---- domains that go away ----
/// When a domain is gone, just its panes are removed; every pane of another domain is
/// left as it is, and so are the tabs and the windows. Only panes that are on record
/// under the domain are told to end, and each that is removed is; the subscribers hear of
/// these and of no other; and at the end the host looks for what is dead.
pub proof fn law_what_a_lost_domain_takes_along(s: MuxState, d: DomainId, p: PaneId)
    requires
        s.wf(),
    ensures
        ({
            let after = s.domain_lost(d);
            &&& after.panes.contains_key(p) <==> s.panes.contains_key(p) && s.panes[p].domain_id
                != d
            &&& after.panes.contains_key(p) ==> after.panes[p] == s.panes[p]
            &&& after == (MuxState {
                panes: after.panes,
                pane_counts: after.pane_counts,
                effects: after.effects,
                ..s
            })
            &&& goes_on(s, after)
            &&& s.panes.contains_key(p) && s.panes[p].domain_id == d ==> added(
                s,
                after,
                Deed::KillPane(p),
            )
            &&& added(s, after, Deed::Notify(Notice::PaneRemoved(p))) <==> s.panes.contains_key(p)
                && s.panes[p].domain_id == d
            &&& added(s, after, Deed::KillPane(p)) ==> (s.panes.contains_key(p)
                && s.panes[p].domain_id == d) || exists|w: WindowId, t: TabId, j: int|
                s.lists_in(w, t) && 0 <= j < s.tab(t).panes.len() && #[trigger] s.tab(t).panes[j]
                    == (Pane { pane_id: p, domain_id: d }) && #[trigger] s.windows.contains_key(w)
            &&& after.effects.last() == Deed::PruneDeadWindows
        }),
{
    let after = s.domain_lost(d);
    let a = s.domain_killed(d);
    let windows = in_order(s.windows.dom());
    let tabs = s.tabs_of_windows(windows);
    lemma_domain_killed(s, d);
    lemma_kills_in_tabs(s, tabs, d);
    let ids = in_order(s.panes_of_domain(d));
    lemma_listing_exists(s.panes_of_domain(d));
    lemma_without_panes(a, ids);
    lemma_panes_accounted(a, ids);
    let b = a.without_panes(ids);
    lemma_added_on(s, a, b);
    lemma_added_one(b, after, Deed::PruneDeadWindows);
    lemma_added_on(s, b, after);
    assert(ids.to_set().contains(p) <==> ids.contains(p));
    assert(s.panes_of_domain(d).contains(p) <==> ids.contains(p));
    assert(a.panes.dom().contains(p) && !b.panes.dom().contains(p) <==> s.panes.contains_key(p)
        && s.panes[p].domain_id == d);
    if added(s, a, Deed::KillPane(p)) {
        let (i, j) = choose|i: int, j: int|
            0 <= i < tabs.len() && 0 <= j < s.tab(tabs[i]).panes.len() && #[trigger] s.tab(
                tabs[i],
            ).panes[j] == (Pane { pane_id: p, domain_id: d });
        lemma_listing_exists(s.windows.dom());
        let w = lemma_tabs_of_windows(s, windows, i);
        assert(windows.contains(w));
        assert(s.windows.contains_key(w));
        assert(s.lists_in(w, tabs[i]));
        assert(s.tab(tabs[i]).panes[j] == (Pane { pane_id: p, domain_id: d }));
    }
}

/// In all tabs that a window lists, each pane that is on record under the domain is told
/// to end.
pub proof fn law_every_listed_pane_of_the_domain_is_told(
    s: MuxState,
    d: DomainId,
    w: WindowId,
    t: TabId,
    j: int,
)
    requires
        s.wf(),
        s.lists_in(w, t),
        0 <= j < s.tab(t).panes.len(),
        s.tab(t).panes[j].domain_id == d,
    ensures
        added(s, s.domain_lost(d), Deed::KillPane(s.tab(t).panes[j].pane_id)),
{
    let p = s.tab(t).panes[j].pane_id;
    let after = s.domain_lost(d);
    let a = s.domain_killed(d);
    let windows = in_order(s.windows.dom());
    lemma_listing_exists(s.windows.dom());
    let tabs = s.tabs_of_windows(windows);
    lemma_kills_in_tabs(s, tabs, d);
    assert(windows.contains(w));
    let i = lemma_listed_tabs_occur(s, windows, w, t);
    assert(s.tab(tabs[i]).panes[j] == (Pane { pane_id: p, domain_id: d }));
    assert(added(s, a, Deed::KillPane(p)));
    lemma_domain_killed(s, d);
    let ids = in_order(s.panes_of_domain(d));
    lemma_panes_accounted(a, ids);
    let b = a.without_panes(ids);
    lemma_added_on(s, a, b);
    lemma_added_one(b, after, Deed::PruneDeadWindows);
    lemma_added_on(s, b, after);
}

proof fn lemma_tabs_of_windows(s: MuxState, ids: Seq<WindowId>, i: int) -> (w: WindowId)
    requires
        0 <= i < s.tabs_of_windows(ids).len(),
    ensures
        ids.contains(w),
        s.windows[w].tabs.contains(s.tabs_of_windows(ids)[i]),
    decreases ids.len(),
{
    let rest = ids.drop_last();
    let front = s.tabs_of_windows(rest);
    if i < front.len() {
        let w = lemma_tabs_of_windows(s, rest, i);
        let k = rest.index_of(w);
        assert(ids[k] == w);
        w
    } else {
        let w = ids.last();
        assert(ids[ids.len() - 1] == w);
        assert(s.windows[w].tabs[i - front.len()] == s.tabs_of_windows(ids)[i]);
        w
    }
}

proof fn lemma_listed_tabs_occur(s: MuxState, ids: Seq<WindowId>, w: WindowId, t: TabId) -> (i: int)
    requires
        ids.contains(w),
        s.windows[w].tabs.contains(t),
    ensures
        0 <= i < s.tabs_of_windows(ids).len(),
        s.tabs_of_windows(ids)[i] == t,
    decreases ids.len(),
{
    let rest = ids.drop_last();
    let front = s.tabs_of_windows(rest);
    if ids.last() == w {
        let k = s.windows[w].tabs.index_of(t);
        assert(s.tabs_of_windows(ids)[front.len() + k] == t);
        front.len() + k
    } else {
        let k = ids.index_of(w);
        assert(rest[k] == w);
        let i = lemma_listed_tabs_occur(s, rest, w, t);
        assert(s.tabs_of_windows(ids)[i] == t);
        i
    }
}

proof fn lemma_kills(s: MuxState, ids: Seq<PaneId>)
    ensures
        goes_on(s, s.all_killed(ids)),
        forall|deed: Deed| #[trigger]
            added(s, s.all_killed(ids), deed) <==> (deed matches Deed::KillPane(p) && ids.contains(
                p,
            )),
    decreases ids.len(),
{
    if ids.len() > 0 {
        let rest = ids.drop_last();
        let mid = s.all_killed(rest);
        lemma_kills(s, rest);
        lemma_added_one(mid, s.all_killed(ids), Deed::KillPane(ids.last()));
        lemma_added_on(s, mid, s.all_killed(ids));
        assert forall|p: PaneId| #[trigger] ids.contains(p) <==> rest.contains(p) || p
            == ids.last() by {
            if ids.contains(p) {
                let i = ids.index_of(p);
                if i < rest.len() {
                    assert(rest[i] == p);
                }
            }
            if rest.contains(p) {
                let i = rest.index_of(p);
                assert(ids[i] == p);
            }
            assert(ids[ids.len() - 1] == ids.last());
        }
    }
}

proof fn lemma_in_domain(panes: Seq<Pane>, d: DomainId, p: PaneId)
    ensures
        panes_in_domain(panes, d).contains(p) <==> exists|j: int|
            0 <= j < panes.len() && #[trigger] panes[j] == (Pane { pane_id: p, domain_id: d }),
    decreases panes.len(),
{
    if panes.len() > 0 {
        let rest = panes.drop_last();
        let front = panes_in_domain(rest, d);
        let all = panes_in_domain(panes, d);
        lemma_in_domain(rest, d, p);
        if front.contains(p) {
            let k = front.index_of(p);
            assert(all[k] == p);
            let j = choose|j: int|
                0 <= j < rest.len() && #[trigger] rest[j] == (Pane { pane_id: p, domain_id: d });
            assert(panes[j] == (Pane { pane_id: p, domain_id: d }));
        }
        if all.contains(p) && !front.contains(p) {
            let k = all.index_of(p);
            if k < front.len() {
                assert(front[k] == p);
            }
            assert(panes[panes.len() - 1] == (Pane { pane_id: p, domain_id: d }));
        }
        if exists|j: int|
            0 <= j < panes.len() && #[trigger] panes[j] == (Pane { pane_id: p, domain_id: d }) {
            let j = choose|j: int|
                0 <= j < panes.len() && #[trigger] panes[j] == (Pane { pane_id: p, domain_id: d });
            if j < rest.len() {
                assert(rest[j] == (Pane { pane_id: p, domain_id: d }));
            } else {
                assert(all[all.len() - 1] == p);
            }
        }
    }
}

proof fn lemma_kills_in_tabs(s: MuxState, tabs: Seq<TabId>, d: DomainId)
    ensures
        goes_on(s, s.killed_in_tabs(tabs, d)),
        forall|deed: Deed| #[trigger]
            added(s, s.killed_in_tabs(tabs, d), deed) <==> (deed matches Deed::KillPane(p)
                && exists|i: int, j: int|
                0 <= i < tabs.len() && 0 <= j < s.tab(tabs[i]).panes.len() && #[trigger] s.tab(
                    tabs[i],
                ).panes[j] == (Pane { pane_id: p, domain_id: d })),
    decreases tabs.len(),
{
    if tabs.len() > 0 {
        let rest = tabs.drop_last();
        let panes = s.tab(tabs.last()).panes;
        let mid = s.killed_in_tabs(rest, d);
        let ids = panes_in_domain(panes, d);
        let after = s.killed_in_tabs(tabs, d);
        lemma_kills_in_tabs(s, rest, d);
        lemma_kills(mid, ids);
        lemma_added_on(s, mid, after);
        assert forall|deed: Deed| #[trigger] added(s, after, deed) <==> (
        deed matches Deed::KillPane(p) && exists|i: int, j: int|
            0 <= i < tabs.len() && 0 <= j < s.tab(tabs[i]).panes.len() && #[trigger] s.tab(
                tabs[i],
            ).panes[j] == (Pane { pane_id: p, domain_id: d })) by {
            if deed is KillPane {
                let p = deed->KillPane_0;
                let wanted = Pane { pane_id: p, domain_id: d };
                lemma_in_domain(panes, d, p);
                if added(s, mid, deed) {
                    let (i, j) = choose|i: int, j: int|
                        0 <= i < rest.len() && 0 <= j < s.tab(rest[i]).panes.len() && #[trigger] s.tab(
                            rest[i],
                        ).panes[j] == wanted;
                    assert(s.tab(tabs[i]).panes[j] == wanted);
                }
                if added(mid, after, deed) {
                    let j = choose|j: int| 0 <= j < panes.len() && #[trigger] panes[j] == wanted;
                    assert(s.tab(tabs[tabs.len() - 1]).panes[j] == wanted);
                }
                if exists|i: int, j: int|
                    0 <= i < tabs.len() && 0 <= j < s.tab(tabs[i]).panes.len() && #[trigger] s.tab(
                        tabs[i],
                    ).panes[j] == wanted {
                    let (i, j) = choose|i: int, j: int|
                        0 <= i < tabs.len() && 0 <= j < s.tab(tabs[i]).panes.len() && #[trigger] s.tab(
                            tabs[i],
                        ).panes[j] == wanted;
                    if i < rest.len() {
                        assert(s.tab(rest[i]).panes[j] == wanted);
                    } else {
                        assert(panes[j] == wanted);
                    }
                }
            }
        }
    }
}

} // verus!
