//! What pruning promises.
use crate::id_map::{ascending, in_order, lemma_in_order, lemma_listing_exists};
use crate::ids::{DomainId, PaneId, TabId, WindowId};
use crate::notification::{Deed, Notice};
use crate::pruning::{lemma_pruned, lemma_windows_pruned};
use crate::removal::{
    lemma_same_tables, lemma_set_of_push, lemma_without_tab, lemma_without_tabs,
    lemma_without_windows, struck,
};
use crate::state::MuxState;
use crate::tab::TabState;
use crate::window::{lemma_staying, lemma_without_nothing};
use vstd::prelude::*;

verus! {

/// While an activity is under way, an attempt to prune changes nothing.
pub proof fn law_activities_put_pruning_off(s: MuxState, activities: usize)
    requires
        activities > 0,
    ensures
        s.prune_tried(activities) == s,
{
}

/// The end of an activity brings another attempt to prune.
pub proof fn law_the_end_of_an_activity_asks_for_pruning(s: MuxState)
    ensures
        s.activity_ended().effects == s.effects.push(Deed::SchedulePrune),
{
}

/// While somebody else holds the windows, an attempt to prune asks for one retry,
/// and further attempts ask for no more.
pub proof fn law_retries_are_not_piled_up(s: MuxState)
    requires
        s.windows_locked,
        s.current,
    ensures
        s.prune_tried(0).retry_scheduled,
        s.prune_tried(0).prune_tried(0) == s.prune_tried(0),
        s.prune_tried(0).windows == s.windows,
        s.prune_tried(0).effects == (if s.retry_scheduled {
            s.effects
        } else {
            s.effects.push(Deed::SchedulePruneRetry)
        }),
{
}

/// A multiplexer that is no longer in use asks for no retry.
pub proof fn law_no_retry_once_replaced(s: MuxState)
    requires
        s.windows_locked,
        !s.current,
    ensures
        s.prune_tried(0) == s,
{
}

/// A retry that comes due clears the flag, so that it can be set again: it is set
/// afterwards exactly if the windows are held once more.
pub proof fn law_a_retry_can_be_followed_by_another(s: MuxState)
    requires
        s.wf(),
        s.current,
    ensures
        s.retry_due(0).retry_scheduled == s.windows_locked,
{
    let cleared = MuxState { retry_scheduled: false, ..s };
    lemma_same_tables(s, cleared);
    lemma_pruned(cleared);
}

/// Removing tabs that no window lists leaves the windows alone, and takes away
/// just the panes that these tabs hold.
pub proof fn lemma_without_unlisted_tabs(s: MuxState, ids: Seq<TabId>)
    requires
        s.sound(),
        forall|i: int| 0 <= i < ids.len() ==> !s.lists(#[trigger] ids[i]),
    ensures
        s.without_tabs(ids).windows == s.windows,
        s.without_tabs(ids).panes == s.panes.restrict(
            Set::new(|p: PaneId| !held_by_some(s, ids, p)),
        ),
    decreases ids.len(),
{
    if ids.len() == 0 {
        assert(s.panes.restrict(Set::new(|p: PaneId| !held_by_some(s, ids, p))) =~= s.panes);
    } else {
        let rest = ids.drop_last();
        let t = ids.last();
        assert forall|i: int| 0 <= i < rest.len() implies !s.lists(#[trigger] rest[i]) by {
            assert(rest[i] == ids[i]);
        }
        lemma_without_unlisted_tabs(s, rest);
        lemma_without_tabs(s, rest);
        let mid = s.without_tabs(rest);
        let after = s.without_tabs(ids);
        lemma_without_tab(mid, t);
        assert(!s.lists(ids[ids.len() - 1]));
        assert(struck(s.windows, set![t]) =~= s.windows) by {
            assert forall|w: WindowId| #[trigger] s.windows.contains_key(w) implies s.windows[w].without(
                set![t],
            ) == s.windows[w] by {
                assert forall|i: int| 0 <= i < s.windows[w].tabs.len() implies !set![t].contains(
                    #[trigger] s.windows[w].tabs[i],
                ) by {
                    if s.windows[w].tabs[i] == t {
                        assert(s.lists_in(w, t));
                    }
                }
                lemma_without_nothing(s.windows[w], set![t]);
            }
        }
        assert forall|p: PaneId| #[trigger] after.panes.contains_key(p) <==> s.panes.contains_key(p)
            && !held_by_some(s, ids, p) by {
            assert(mid.panes.contains_key(p) <==> s.panes.contains_key(p) && !held_by_some(
                s,
                rest,
                p,
            ));
            if held_by_some(s, rest, p) {
                let i = choose|i: int| 0 <= i < rest.len() && #[trigger] s.holds_in(rest[i], p);
                assert(s.holds_in(ids[i], p));
            }
            if held_by_some(s, ids, p) {
                let i = choose|i: int| 0 <= i < ids.len() && #[trigger] s.holds_in(ids[i], p);
                if i < rest.len() {
                    assert(s.holds_in(rest[i], p));
                }
            }
            if mid.tabs.contains_key(t) {
                lemma_pane_ids(s.tabs[t], p);
                if s.tabs[t].holds(p) {
                    assert(s.holds_in(ids[ids.len() - 1], p));
                }
            } else if s.holds_in(t, p) {
                assert(rest.to_set().contains(t));
                let i = rest.index_of(t);
                assert(s.holds_in(rest[i], p));
            }
        }
        assert(after.panes =~= s.panes.restrict(Set::new(|p: PaneId| !held_by_some(s, ids, p))));
    }
}

/// Whether one of the tabs is registered and holds the pane.
pub open spec fn held_by_some(s: MuxState, ids: Seq<TabId>, p: PaneId) -> bool {
    exists|i: int| 0 <= i < ids.len() && #[trigger] s.holds_in(ids[i], p)
}

pub proof fn lemma_pane_ids(tab: TabState, p: PaneId)
    ensures
        tab.pane_ids().to_set().contains(p) == tab.holds(p),
{
    if tab.pane_ids().contains(p) {
        let i = tab.pane_ids().index_of(p);
        assert(tab.panes[i].pane_id == p);
    }
    if tab.holds(p) {
        let i = choose|i: int|
            0 <= i < tab.panes.len() && (#[trigger] tab.panes[i]).pane_id == p;
        assert(tab.pane_ids()[i] == p);
    }
}

/// Removing empty windows takes away just these windows.
pub proof fn lemma_without_empty_windows(s: MuxState, ids: Seq<WindowId>)
    requires
        s.sound(),
        forall|i: int|
            0 <= i < ids.len() && s.windows.contains_key(#[trigger] ids[i])
                ==> s.windows[ids[i]].tabs.len() == 0,
    ensures
        s.without_windows(ids).windows == s.windows.remove_keys(ids.to_set()),
        s.without_windows(ids).tabs == s.tabs,
        s.without_windows(ids).panes == s.panes,
        s.without_windows(ids).orphans.dom().subset_of(s.orphans.dom()),
    decreases ids.len(),
{
    if ids.len() == 0 {
        assert(s.windows.remove_keys(ids.to_set()) =~= s.windows);
    } else {
        let rest = ids.drop_last();
        let w = ids.last();
        assert forall|i: int|
            0 <= i < rest.len() && s.windows.contains_key(
                #[trigger] rest[i],
            ) implies s.windows[rest[i]].tabs.len() == 0 by {
            assert(rest[i] == ids[i]);
        }
        lemma_without_empty_windows(s, rest);
        lemma_without_windows(s, rest);
        let mid = s.without_windows(rest);
        let after = s.without_windows(ids);
        assert(after == mid.without_window(w));
        assert(ids[ids.len() - 1] == w);
        if mid.windows.contains_key(w) {
            let tabs = mid.windows[w].tabs;
            assert(tabs =~= Seq::empty());
            assert(mid.domains_in_tabs(tabs) =~= Set::empty());
            assert(ascending(Seq::empty(), Set::empty()));
            lemma_in_order(Seq::empty(), Set::empty());
        } else {
            assert(mid.windows.remove(w) =~= mid.windows);
        }
        assert(after.windows =~= mid.windows.remove(w));
        lemma_set_of_push(ids);
        assert(after.windows =~= s.windows.remove_keys(ids.to_set()));
    }
}

/// Whether the window lists a tab that is registered and alive.
pub open spec fn has_living_tab(s: MuxState, w: WindowId) -> bool {
    exists|t: TabId| #[trigger] s.lists_in(w, t) && !s.is_lost(t)
}

/// Whether a tab that is registered and dead holds the pane.
pub open spec fn held_by_dead(s: MuxState, p: PaneId) -> bool {
    exists|t: TabId| #[trigger] s.holds_in(t, p) && s.tab_dead(s.tabs[t])
}

/// What is left after pruning:
/// of the windows those that list a living tab, with their living tabs in order;
/// of the registered tabs those that are alive; of the panes those that no dead tab
/// holds; and nothing that is unregistered but listed.
pub proof fn law_pruning_leaves_the_living(s: MuxState)
    requires
        s.sound(),
    ensures
        forall|w: WindowId| #[trigger]
            s.pruned().windows.contains_key(w) <==> s.windows.contains_key(w) && has_living_tab(s, w),
        forall|w: WindowId| #[trigger]
            s.pruned().windows.contains_key(w) ==> s.pruned().windows[w]
                == s.windows[w].without(s.lost_tabs()) && s.pruned().windows[w].tabs.len() > 0,
        s.pruned().tabs == s.tabs.restrict(Set::new(|t: TabId| !s.tab_dead(s.tabs[t]))),
        s.pruned().panes == s.panes.restrict(Set::new(|p: PaneId| !held_by_dead(s, p))),
        s.pruned().orphans == Map::<TabId, TabState>::empty(),
{
    let first = s.windows_pruned();
    lemma_windows_pruned(s);
    let dead = in_order(s.dead_tabs());
    lemma_dead_listing(s);
    lemma_dead_unlisted(s);
    lemma_without_unlisted_tabs(first, dead);
    lemma_without_tabs(first, dead);
    let mid = first.without_tabs(dead);
    let gone = in_order(first.empty_windows());
    lemma_empty_listing(first);
    assert forall|i: int|
        0 <= i < gone.len() && mid.windows.contains_key(
            #[trigger] gone[i],
        ) implies mid.windows[gone[i]].tabs.len() == 0 by {
        assert(gone.contains(gone[i]));
    }
    lemma_without_empty_windows(mid, gone);
    let last = mid.without_windows(gone);
    assert(s.pruned().windows == last.windows);
    assert forall|w: WindowId| #[trigger] s.pruned().windows.contains_key(w)
        <==> s.windows.contains_key(w) && has_living_tab(s, w) by {
        if s.windows.contains_key(w) {
            assert(first.windows.contains_key(w));
            assert(gone.to_set().contains(w) == gone.contains(w));
            if first.windows[w].tabs.len() > 0 {
                let t = first.windows[w].tabs[0];
                assert(first.lists_in(w, t));
                assert(s.lists_in(w, t) && !s.is_lost(t));
            }
            if has_living_tab(s, w) {
                let t = choose|t: TabId| #[trigger] s.lists_in(w, t) && !s.is_lost(t);
                assert(first.lists_in(w, t));
            }
        }
    }
    assert forall|w: WindowId| #[trigger] s.pruned().windows.contains_key(w) implies s.pruned().windows[w]
        == s.windows[w].without(s.lost_tabs()) && s.pruned().windows[w].tabs.len() > 0 by {
        assert(gone.to_set().contains(w) == gone.contains(w));
    }
    assert(first.tabs.remove_keys(dead.to_set()) =~= s.tabs.restrict(
        Set::new(|t: TabId| !s.tab_dead(s.tabs[t])),
    )) by {
        assert forall|t: TabId| #[trigger] s.tabs.contains_key(t) implies dead.to_set().contains(t)
            == s.tab_dead(s.tabs[t]) by {
            assert(s.dead_tabs().contains(t) == dead.contains(t));
        }
    }
    assert(s.pruned().panes =~= s.panes.restrict(Set::new(|p: PaneId| !held_by_dead(s, p)))) by {
        assert forall|p: PaneId| #[trigger] held_by_some(first, dead, p) == held_by_dead(s, p) by {
            if held_by_some(first, dead, p) {
                let i = choose|i: int| 0 <= i < dead.len() && #[trigger] first.holds_in(dead[i], p);
                assert(dead.contains(dead[i]));
                assert(s.holds_in(dead[i], p));
            }
            if held_by_dead(s, p) {
                let t = choose|t: TabId| #[trigger] s.holds_in(t, p) && s.tab_dead(s.tabs[t]);
                assert(s.dead_tabs().contains(t));
                let i = dead.index_of(t);
                assert(first.holds_in(dead[i], p));
            }
        }
    }
    lemma_pruned(s);
    assert forall|t: TabId| !#[trigger] s.pruned().orphans.contains_key(t) by {
        if s.pruned().orphans.contains_key(t) {
            assert(s.pruned().lists(t));
            let w = choose|w: WindowId| s.pruned().lists_in(w, t);
            lemma_staying(s.windows[w].tabs, s.lost_tabs());
            assert(!s.is_lost(t));
            assert(s.pruned().tabs.dom().contains(t));
            assert(s.pruned().tabs.contains_key(t));
        }
    }
    assert(s.pruned().orphans =~= Map::<TabId, TabState>::empty());
}

pub proof fn lemma_dead_listing(s: MuxState)
    requires
        s.sound(),
    ensures
        ascending(in_order(s.dead_tabs()), s.dead_tabs()),
{
    lemma_listing_exists(s.dead_tabs());
}

pub proof fn lemma_empty_listing(s: MuxState)
    requires
        s.sound(),
    ensures
        ascending(in_order(s.empty_windows()), s.empty_windows()),
{
    lemma_listing_exists(s.empty_windows());
}

/// `later` continues `earlier`, and says nowhere in between that all is gone.
pub open spec fn continues_quietly(earlier: Seq<Deed>, later: Seq<Deed>) -> bool {
    &&& earlier.len() <= later.len()
    &&& forall|i: int| 0 <= i < earlier.len() ==> later[i] == #[trigger] earlier[i]
    &&& forall|i: int|
        earlier.len() <= i < later.len() ==> #[trigger] later[i] != Deed::Notify(Notice::Empty)
}

proof fn lemma_quietly_on(a: Seq<Deed>, b: Seq<Deed>, c: Seq<Deed>)
    requires
        continues_quietly(a, b),
        continues_quietly(b, c),
    ensures
        continues_quietly(a, c),
{
    assert forall|i: int| 0 <= i < a.len() implies c[i] == #[trigger] a[i] by {
        assert(c[i] == b[i]);
    }
    assert forall|i: int| a.len() <= i < c.len() implies #[trigger] c[i] != Deed::Notify(
        Notice::Empty,
    ) by {
        if i < b.len() {
            assert(c[i] == b[i]);
        }
    }
}

proof fn lemma_panes_go_quietly(s: MuxState, ids: Seq<PaneId>)
    ensures
        continues_quietly(s.effects, s.without_panes(ids).effects),
    decreases ids.len(),
{
    if ids.len() > 0 {
        let mid = s.without_panes(ids.drop_last());
        lemma_panes_go_quietly(s, ids.drop_last());
        assert(continues_quietly(mid.effects, mid.without_pane(ids.last()).effects));
        lemma_quietly_on(s.effects, mid.effects, mid.without_pane(ids.last()).effects);
    }
}

proof fn lemma_tabs_go_quietly(s: MuxState, ids: Seq<TabId>)
    ensures
        continues_quietly(s.effects, s.without_tabs(ids).effects),
    decreases ids.len(),
{
    if ids.len() > 0 {
        let mid = s.without_tabs(ids.drop_last());
        let t = ids.last();
        lemma_tabs_go_quietly(s, ids.drop_last());
        if mid.tabs.contains_key(t) {
            lemma_panes_go_quietly(mid.unregistered(t), mid.tabs[t].pane_ids());
        }
        lemma_quietly_on(s.effects, mid.effects, mid.without_tab(t).effects);
    }
}

proof fn lemma_domains_left_quietly(s: MuxState, ids: Seq<DomainId>)
    ensures
        continues_quietly(s.effects, s.domains_left(ids).effects),
    decreases ids.len(),
{
    if ids.len() > 0 {
        let mid = s.domains_left(ids.drop_last());
        lemma_domains_left_quietly(s, ids.drop_last());
        assert(continues_quietly(mid.effects, mid.asked(Deed::DetachDomain(ids.last())).effects));
        lemma_quietly_on(s.effects, mid.effects, s.domains_left(ids).effects);
    }
}

proof fn lemma_windows_go_quietly(s: MuxState, ids: Seq<WindowId>)
    ensures
        continues_quietly(s.effects, s.without_windows(ids).effects),
    decreases ids.len(),
{
    if ids.len() > 0 {
        let mid = s.without_windows(ids.drop_last());
        let w = ids.last();
        lemma_windows_go_quietly(s, ids.drop_last());
        if mid.windows.contains_key(w) {
            let tabs = mid.windows[w].tabs;
            let order = in_order(mid.domains_in_tabs(tabs));
            let left = mid.domains_left(order);
            lemma_domains_left_quietly(mid, order);
            let a = MuxState { windows: left.windows.remove(w), ..left };
            lemma_tabs_go_quietly(a, tabs);
            let b = a.without_tabs(tabs);
            lemma_quietly_on(mid.effects, a.effects, b.effects);
            assert(continues_quietly(b.effects, mid.without_window(w).effects));
            lemma_quietly_on(mid.effects, b.effects, mid.without_window(w).effects);
        }
        lemma_quietly_on(s.effects, mid.effects, mid.without_window(w).effects);
    }
}

/// Pruning tells the subscribers that all is gone exactly if no pane is left, and
/// it does so last and only once.
pub proof fn law_the_end_is_told(s: MuxState)
    ensures
        s.pruned().panes.dom().is_empty() ==> {
            &&& s.pruned().effects.len() > s.effects.len()
            &&& s.pruned().effects.last() == Deed::Notify(Notice::Empty)
            &&& continues_quietly(s.effects, s.pruned().effects.drop_last())
        },
        !s.pruned().panes.dom().is_empty() ==> continues_quietly(s.effects, s.pruned().effects),
{
    let first = s.windows_pruned();
    let dead = in_order(s.dead_tabs());
    let mid = first.without_tabs(dead);
    let gone = in_order(first.empty_windows());
    let last = mid.without_windows(gone);
    lemma_tabs_go_quietly(first, dead);
    lemma_windows_go_quietly(mid, gone);
    lemma_quietly_on(s.effects, mid.effects, last.effects);
    assert(last.effects.push(Deed::Notify(Notice::Empty)).drop_last() =~= last.effects);
}

/// Once the windows are pruned, none of them lists a dead tab.
pub proof fn lemma_dead_unlisted(s: MuxState)
    requires
        s.sound(),
    ensures
        forall|i: int|
            0 <= i < in_order(s.dead_tabs()).len() ==> !s.windows_pruned().lists(
                #[trigger] in_order(s.dead_tabs())[i],
            ),
{
    let first = s.windows_pruned();
    lemma_windows_pruned(s);
    let dead = in_order(s.dead_tabs());
    lemma_dead_listing(s);
    assert forall|i: int| 0 <= i < dead.len() implies !first.lists(#[trigger] dead[i]) by {
        assert(dead.contains(dead[i]));
        if first.lists(dead[i]) {
            let w = choose|w: WindowId| first.lists_in(w, dead[i]);
            assert(!s.is_lost(dead[i]));
        }
    }
}

/// Pruning once is enough: as long as the host has nothing new to report, pruning
/// again changes nothing, except that it says once more that all is gone if that is
/// so.
pub proof fn law_pruning_twice_is_pruning_once(s: MuxState)
    requires
        s.sound(),
    ensures
        s.pruned().pruned() == (if s.pruned().panes.dom().is_empty() {
            s.pruned().notified(Notice::Empty)
        } else {
            s.pruned()
        }),
        !s.windows_locked ==> s.prune_tried(0).prune_tried(0) == s.pruned().pruned(),
{
    let a = s.pruned();
    law_pruning_leaves_the_living(s);
    lemma_pruned(s);
    assert forall|t: TabId| #[trigger] a.tabs.contains_key(t) implies !a.tab_dead(a.tabs[t]) by {
        assert(a.dead == s.dead);
        assert(!s.tab_dead(s.tabs[t]));
        let i = choose|i: int|
            0 <= i < s.tabs[t].panes.len() && !s.dead.contains(
                (#[trigger] s.tabs[t].panes[i]).pane_id,
            );
        assert(!a.dead.contains(a.tabs[t].panes[i].pane_id));
    }
    // nothing is lost any more
    assert forall|w: WindowId, t: TabId| #[trigger] a.lists_in(w, t) implies !a.is_lost(t) by {
        assert(a.knows_tab(t));
    }
    assert(struck(a.windows, a.lost_tabs()) =~= a.windows) by {
        assert forall|w: WindowId| #[trigger] a.windows.contains_key(w) implies a.windows[w].without(
            a.lost_tabs(),
        ) == a.windows[w] by {
            assert forall|i: int| 0 <= i < a.windows[w].tabs.len() implies !a.lost_tabs().contains(
                #[trigger] a.windows[w].tabs[i],
            ) by {
                assert(a.lists_in(w, a.windows[w].tabs[i]));
            }
            lemma_without_nothing(a.windows[w], a.lost_tabs());
        }
    }
    assert(a.windows_pruned() =~= a);
    assert(a.dead_tabs() =~= Set::empty());
    assert(a.empty_windows() =~= Set::empty());
    assert(ascending(Seq::empty(), Set::empty()));
    lemma_in_order(Seq::empty(), Set::empty());
    assert(a.without_tabs(Seq::empty()) == a);
    assert(a.without_windows(Seq::empty()) == a);
}

} // verus!
