//! What is found when something is looked up.
use crate::domain::SpawnTabDomain;
use crate::error::MuxError;
use crate::id_map::{in_order, lemma_finitely_many_ids, lemma_listing_exists};
use crate::ids::{ClientId, DomainId, PaneId, TabId, WindowId};
use crate::lookup::{held_somewhere, hyphen_in_use, in_use, lemma_tab_of_pane, windows_of};
use crate::move_laws::lemma_first_place;
use crate::removal::lemma_window_of_tab;
use crate::state::MuxState;
use crate::tab::Pane;
use crate::text::names_contain;
use vstd::prelude::*;

verus! {

// ---- panes ----
proof fn lemma_greatest_holder(s: MuxState, p: PaneId)
    requires
        s.sound(),
        exists|t: TabId| s.holds_in(t, p),
    ensures
        s.tab_of_pane(p) is Some,
        s.holds_in(s.tab_of_pane(p)->0, p),
        forall|u: TabId| #[trigger] s.holds_in(u, p) ==> u <= s.tab_of_pane(p)->0,
{
    let holders = s.tabs.dom().filter(|t: TabId| s.holds_in(t, p));
    let one = choose|t: TabId| s.holds_in(t, p);
    assert(holders.contains(one));
    lemma_listing_exists(holders);
    let list = in_order(holders);
    assert(list.contains(one));
    let top = list.last();
    assert(list.contains(top));
    assert(s.holds_in(top, p));
    assert forall|u: TabId| #[trigger] s.holds_in(u, p) implies u <= top by {
        assert(holders.contains(u));
        let i = list.index_of(u);
        assert(list[i] == u);
    }
    lemma_tab_of_pane(s, p, top);
}

proof fn lemma_smallest_lister(s: MuxState, t: TabId)
    requires
        s.sound(),
        s.lists(t),
    ensures
        s.window_of_tab(t) is Some,
        s.lists_in(s.window_of_tab(t)->0, t),
        forall|v: WindowId| #[trigger] s.lists_in(v, t) ==> s.window_of_tab(t)->0 <= v,
{
    let holders = s.windows.dom().filter(|w: WindowId| s.lists_in(w, t));
    let one = choose|w: WindowId| s.lists_in(w, t);
    assert(holders.contains(one));
    lemma_listing_exists(holders);
    let list = in_order(holders);
    assert(list.contains(one));
    let first = list[0];
    assert(list.contains(first));
    assert(s.lists_in(first, t));
    assert forall|v: WindowId| #[trigger] s.lists_in(v, t) implies first <= v by {
        assert(holders.contains(v));
        let i = list.index_of(v);
        assert(list[i] == v);
    }
    lemma_window_of_tab(s, t, first);
}

/// A pane resolves to the registered tab that holds it, to the window that lists that
/// tab, and to the domain that the tab has on record for the pane.
pub proof fn law_what_a_pane_resolves_to(s: MuxState, p: PaneId)
    requires
        s.sound(),
        s.resolved(p) is Some,
    ensures
        ({
            let (d, w, t) = s.resolved(p)->0;
            &&& s.tabs.contains_key(t)
            &&& s.windows.contains_key(w) && s.windows[w].tabs.contains(t)
            &&& exists|i: int|
                0 <= i < s.tabs[t].panes.len() && #[trigger] s.tabs[t].panes[i] == (Pane {
                    pane_id: p,
                    domain_id: d,
                })
            &&& forall|u: TabId|
                #![trigger s.tabs.contains_key(u)]
                s.tabs.contains_key(u) && s.tabs[u].holds(p) ==> u <= t
            &&& forall|v: WindowId|
                #![trigger s.windows.contains_key(v)]
                s.windows.contains_key(v) && s.windows[v].tabs.contains(t) ==> w <= v
        }),
{
    let (d, w, t) = s.resolved(p)->0;
    lemma_greatest_holder(s, p);
    lemma_smallest_lister(s, t);
    let i = lemma_first_place(s.tabs[t], p);
    assert(s.tabs[t].panes[i] == (Pane { pane_id: p, domain_id: d }));
    assert forall|u: TabId|
        #![trigger s.tabs.contains_key(u)]
        s.tabs.contains_key(u) && s.tabs[u].holds(p) implies u <= t by {
        assert(s.holds_in(u, p));
    }
    assert forall|v: WindowId|
        #![trigger s.windows.contains_key(v)]
        s.windows.contains_key(v) && s.windows[v].tabs.contains(t) implies w <= v by {
        assert(s.lists_in(v, t));
    }
}

/// A pane resolves if exactly one registered tab holds it and some window lists that
/// tab, and it does not if no registered tab holds it or no window lists the one that
/// does.
pub proof fn law_when_a_pane_resolves(s: MuxState, p: PaneId, t: TabId)
    requires
        s.sound(),
    ensures
        (forall|u: TabId| !(#[trigger] s.tabs.contains_key(u) && s.tabs[u].holds(p)))
            ==> s.resolved(p) is None,
        s.tabs.contains_key(t) && s.tabs[t].holds(p) && (forall|u: TabId| #[trigger]
            s.tabs.contains_key(u) && s.tabs[u].holds(p) ==> u <= t) ==> (s.resolved(p) is Some
            <==> exists|w: WindowId| #[trigger]
            s.windows.contains_key(w) && s.windows[w].tabs.contains(t)),
{
    if s.tabs.contains_key(t) && s.tabs[t].holds(p) && (forall|u: TabId| #[trigger]
        s.tabs.contains_key(u) && s.tabs[u].holds(p) ==> u <= t) {
        assert(s.holds_in(t, p));
        assert forall|u: TabId| #[trigger] s.holds_in(u, p) implies u <= t by {
            assert(s.tabs.contains_key(u));
        }
        lemma_tab_of_pane(s, p, t);
        if s.lists(t) {
            let w = choose|w: WindowId| s.lists_in(w, t);
            assert(s.windows.contains_key(w));
        }
        if exists|w: WindowId| #[trigger]
            s.windows.contains_key(w) && s.windows[w].tabs.contains(t) {
            let w = choose|w: WindowId| #[trigger]
                s.windows.contains_key(w) && s.windows[w].tabs.contains(t);
            assert(s.lists_in(w, t));
        }
    }
    if forall|u: TabId| !(#[trigger] s.tabs.contains_key(u) && s.tabs[u].holds(p)) {
        assert forall|u: TabId| !#[trigger] s.holds_in(u, p) by {
            assert(!(s.tabs.contains_key(u) && s.tabs[u].holds(p)));
        }
    }
}

// ---- domains ----
/// Whoever asks for the default domain gets the default domain of the state, whatever
/// the current pane is, be it resolvable or not; without a default domain the question
/// makes no sense.
pub proof fn law_the_default_domain_is_the_default(
    s: MuxState,
    current: Option<PaneId>,
    error: MuxError,
)
    ensures
        s.chosen_domain(current, SpawnTabDomain::DefaultDomain) == s.default_domain,
        s.can_choose(current, SpawnTabDomain::DefaultDomain) <==> s.default_domain is Some,
        !s.explains_choice(current, SpawnTabDomain::DefaultDomain, error),
{
}

/// Only the choice of the domain of the current pane depends on the current pane.
pub proof fn law_only_one_choice_looks_at_the_pane(
    s: MuxState,
    one: Option<PaneId>,
    other: Option<PaneId>,
    choice: SpawnTabDomain,
    error: MuxError,
)
    requires
        choice != SpawnTabDomain::CurrentPaneDomain,
    ensures
        s.chosen_domain(one, choice) == s.chosen_domain(other, choice),
        s.can_choose(one, choice) == s.can_choose(other, choice),
        s.explains_choice(one, choice, error) == s.explains_choice(other, choice, error),
{
}

/// The domain of the current pane is the one that is known under the id that the tab of
/// the pane has on record; without a current pane, it is the default domain. If the
/// current pane does not resolve there is none, and the error names the pane.
pub proof fn law_the_domain_of_the_current_pane(s: MuxState, p: PaneId, error: MuxError)
    requires
        s.sound(),
    ensures
        s.chosen_domain(None, SpawnTabDomain::CurrentPaneDomain) == s.default_domain,
        s.can_choose(None, SpawnTabDomain::CurrentPaneDomain) <==> s.default_domain is Some,
        s.resolved(p) matches Some((d, w, t)) ==> {
            &&& s.can_choose(Some(p), SpawnTabDomain::CurrentPaneDomain) <==> s.domains.contains_key(
                d,
            )
            &&& s.domains.contains_key(d) ==> {
                &&& s.chosen_domain(Some(p), SpawnTabDomain::CurrentPaneDomain) matches Some(info)
                &&& info == s.domains[d]
                &&& info.domain_id == d
            }
        },
        s.resolved(p) is None ==> {
            &&& s.can_choose(Some(p), SpawnTabDomain::CurrentPaneDomain)
            &&& s.chosen_domain(Some(p), SpawnTabDomain::CurrentPaneDomain) is None
            &&& s.explains_choice(Some(p), SpawnTabDomain::CurrentPaneDomain, error) <==> error
                == MuxError::PaneIdInvalid(p)
        },
{
}

/// A domain that is asked for by its id or by its name is the one that is known under
/// it, and none if nothing is known under it.
pub proof fn law_domains_are_found_by_id_and_name(
    s: MuxState,
    current: Option<PaneId>,
    d: DomainId,
    name: String,
    error: MuxError,
)
    requires
        s.sound(),
    ensures
        s.can_choose(current, SpawnTabDomain::DomainId(d)),
        s.can_choose(current, SpawnTabDomain::DomainName(name)),
        s.chosen_domain(current, SpawnTabDomain::DomainId(d)) is Some <==> s.domains.contains_key(d),
        s.chosen_domain(current, SpawnTabDomain::DomainId(d)) matches Some(info) ==> info
            == s.domains[d] && info.domain_id == d,
        s.chosen_domain(current, SpawnTabDomain::DomainName(name)) is Some
            <==> s.domains_by_name.contains_key(name@),
        s.chosen_domain(current, SpawnTabDomain::DomainName(name)) matches Some(info) ==> info
            == s.domains_by_name[name@] && info.domain_name == name@,
        s.explains_choice(current, SpawnTabDomain::DomainId(d), error) <==> error
            == MuxError::DomainIdInvalid(d),
        s.explains_choice(current, SpawnTabDomain::DomainName(name), error) ==> {
            &&& error matches MuxError::DomainNameInvalid { name: told, possible }
            &&& told@ == name@
            &&& forall|i: int|
                0 <= i < possible@.len() ==> s.domains_by_name.contains_key((#[trigger] possible@[i])@)
            &&& forall|n: Seq<char>| #[trigger]
                s.domains_by_name.contains_key(n) ==> exists|i: int|
                    0 <= i < possible@.len() && (#[trigger] possible@[i])@ == n
            &&& forall|i: int, j: int|
                0 <= i < j < possible@.len() ==> (#[trigger] possible@[i])@ != (
                #[trigger] possible@[j])@
        },
{
    if s.explains_choice(current, SpawnTabDomain::DomainName(name), error) {
        match error {
            MuxError::DomainNameInvalid { name: told, possible } => {
                assert forall|i: int| 0 <= i < possible@.len() implies s.domains_by_name.contains_key(
                    (#[trigger] possible@[i])@,
                ) by {
                    assert(names_contain(possible@, possible@[i]@));
                }
                assert forall|n: Seq<char>| #[trigger]
                    s.domains_by_name.contains_key(n) implies exists|i: int|
                    0 <= i < possible@.len() && (#[trigger] possible@[i])@ == n by {
                    assert(names_contain(possible@, n));
                }
            },
            _ => {},
        }
    }
}

// ---- workspaces ----
/// A client looks at the workspace that it chose. One that chose none, or that is not
/// known, looks at the configured one, and that is called "default" unless another name
/// is configured. Without an identity it is the configured one that is active.
pub proof fn law_which_workspace_is_looked_at(s: MuxState, c: ClientId)
    ensures
        s.starting_workspace() == (match s.default_workspace {
            Some(name) => name,
            None => seq!['d', 'e', 'f', 'a', 'u', 'l', 't'],
        }),
        s.clients.contains_key(c) && s.clients[c].active_workspace is Some ==> Some(
            s.workspace_of(c),
        ) == s.clients[c].active_workspace,
        !s.clients.contains_key(c) || s.clients[c].active_workspace is None ==> s.workspace_of(c)
            == s.starting_workspace(),
        s.identity == Some(c) ==> s.active_workspace() == s.workspace_of(c),
        s.identity is None ==> s.active_workspace() == s.starting_workspace(),
{
    reveal_strlit("default");
    assert("default"@ =~= seq!['d', 'e', 'f', 'a', 'u', 'l', 't']);
}

// ---- counting ----
/// The places in windows at which a pane of the workspace stands: the window, the
/// position of the tab in the window, and the position of the pane in the tab.
pub open spec fn places(s: MuxState, workspace: Seq<char>) -> Set<(WindowId, int, int)> {
    Set::new(
        |x: (WindowId, int, int)|
            {
                &&& s.windows.contains_key(x.0)
                &&& s.windows[x.0].workspace == workspace
                &&& 0 <= x.1 < s.windows[x.0].tabs.len()
                &&& 0 <= x.2 < s.tab(s.windows[x.0].tabs[x.1]).panes.len()
            },
    )
}

spec fn places_in_pane_list(w: WindowId, k: int, n: int) -> Set<(WindowId, int, int)> {
    Set::new(|x: (WindowId, int, int)| x.0 == w && x.1 == k && 0 <= x.2 < n)
}

proof fn lemma_places_in_pane_list(w: WindowId, k: int, n: int)
    requires
        0 <= n,
    ensures
        places_in_pane_list(w, k, n).finite(),
        places_in_pane_list(w, k, n).len() == n,
    decreases n,
{
    if n == 0 {
        assert(places_in_pane_list(w, k, n) =~= Set::empty());
    } else {
        lemma_places_in_pane_list(w, k, n - 1);
        assert(places_in_pane_list(w, k, n) =~= places_in_pane_list(w, k, n - 1).insert(
            (w, k, n - 1),
        ));
    }
}

spec fn places_in_tabs(s: MuxState, w: WindowId, tabs: Seq<TabId>) -> Set<(WindowId, int, int)> {
    Set::new(
        |x: (WindowId, int, int)|
            x.0 == w && 0 <= x.1 < tabs.len() && 0 <= x.2 < s.tab(tabs[x.1]).panes.len(),
    )
}

proof fn lemma_places_in_tabs(s: MuxState, w: WindowId, tabs: Seq<TabId>)
    ensures
        places_in_tabs(s, w, tabs).finite(),
        places_in_tabs(s, w, tabs).len() == s.panes_in_tabs(tabs),
    decreases tabs.len(),
{
    if tabs.len() == 0 {
        assert(places_in_tabs(s, w, tabs) =~= Set::empty());
    } else {
        let rest = tabs.drop_last();
        let n = s.tab(tabs.last()).panes.len() as int;
        lemma_places_in_tabs(s, w, rest);
        lemma_places_in_pane_list(w, rest.len() as int, n);
        let a = places_in_tabs(s, w, rest);
        let b = places_in_pane_list(w, rest.len() as int, n);
        assert(places_in_tabs(s, w, tabs) =~= a.union(b));
        assert(a.disjoint(b));
        vstd::set_lib::lemma_set_disjoint_lens(a, b);
    }
}

spec fn places_in_windows(s: MuxState, ids: Seq<WindowId>, workspace: Seq<char>) -> Set<
    (WindowId, int, int),
> {
    Set::new(
        |x: (WindowId, int, int)|
            {
                &&& ids.contains(x.0)
                &&& s.windows[x.0].workspace == workspace
                &&& 0 <= x.1 < s.windows[x.0].tabs.len()
                &&& 0 <= x.2 < s.tab(s.windows[x.0].tabs[x.1]).panes.len()
            },
    )
}

proof fn lemma_places_in_windows(s: MuxState, ids: Seq<WindowId>, workspace: Seq<char>)
    requires
        ids.no_duplicates(),
    ensures
        places_in_windows(s, ids, workspace).finite(),
        places_in_windows(s, ids, workspace).len() == s.panes_in_windows(ids, workspace),
    decreases ids.len(),
{
    let all = places_in_windows(s, ids, workspace);
    if ids.len() == 0 {
        assert(all =~= Set::empty());
    } else {
        let rest = ids.drop_last();
        let w = ids.last();
        assert(rest.no_duplicates()) by {
            assert forall|i: int, j: int| 0 <= i < rest.len() && 0 <= j < rest.len() && i != j implies rest[i]
                != rest[j] by {
                assert(ids[i] != ids[j]);
            }
        }
        lemma_places_in_windows(s, rest, workspace);
        let a = places_in_windows(s, rest, workspace);
        assert(!rest.contains(w)) by {
            if rest.contains(w) {
                let i = rest.index_of(w);
                assert(ids[i] == ids[ids.len() - 1]);
            }
        }
        assert forall|v: WindowId| #[trigger] ids.contains(v) <==> rest.contains(v) || v == w by {
            if ids.contains(v) {
                let i = ids.index_of(v);
                if i < rest.len() {
                    assert(rest[i] == v);
                }
            }
            if rest.contains(v) {
                let i = rest.index_of(v);
                assert(ids[i] == v);
            }
            assert(ids[ids.len() - 1] == w);
        }
        if s.windows[w].workspace == workspace {
            let b = places_in_tabs(s, w, s.windows[w].tabs);
            lemma_places_in_tabs(s, w, s.windows[w].tabs);
            assert(all =~= a.union(b));
            assert(a.disjoint(b));
            vstd::set_lib::lemma_set_disjoint_lens(a, b);
        } else {
            assert(all =~= a);
        }
    }
}

/// The panes of a workspace are counted place by place, in all its windows and in no
/// other.
pub proof fn law_every_pane_of_a_workspace_counts(s: MuxState, workspace: Seq<char>)
    requires
        s.sound(),
    ensures
        places(s, workspace).finite(),
        s.panes_in_workspace(workspace) == places(s, workspace).len(),
{
    let ids = in_order(s.windows.dom());
    lemma_listing_exists(s.windows.dom());
    lemma_places_in_windows(s, ids, workspace);
    assert(places_in_windows(s, ids, workspace) =~= places(s, workspace));
}

/// A recount puts down, for each workspace that has a window with a tab, how many panes
/// it has; but if somebody is at work on one of the tabs in the windows, nothing is
/// changed. Nothing else is touched either way.
pub proof fn law_what_a_recount_puts_down(s: MuxState, workspace: Seq<char>)
    requires
        s.sound(),
    ensures
        (exists|w: WindowId, k: int|
            s.windows.contains_key(w) && 0 <= k < s.windows[w].tabs.len() && s.tab(
                #[trigger] s.windows[w].tabs[k],
            ).busy) ==> s.recounted() == s,
        (forall|w: WindowId, k: int|
            s.windows.contains_key(w) && 0 <= k < s.windows[w].tabs.len() ==> !s.tab(
                #[trigger] s.windows[w].tabs[k],
            ).busy) ==> {
            let counts = s.recounted().pane_counts;
            let panes = places(s, workspace).len();
            &&& counts.contains_key(workspace) <==> exists|w: WindowId| #[trigger]
                s.windows.contains_key(w) && s.windows[w].workspace == workspace
                    && s.windows[w].tabs.len() > 0
            &&& counts.contains_key(workspace) ==> counts[workspace] == (if panes <= usize::MAX {
                panes as usize
            } else {
                usize::MAX
            })
            &&& s.recounted() == (MuxState { pane_counts: counts, ..s })
        },
{
    law_every_pane_of_a_workspace_counts(s, workspace);
    if exists|w: WindowId, k: int|
        s.windows.contains_key(w) && 0 <= k < s.windows[w].tabs.len() && s.tab(
            #[trigger] s.windows[w].tabs[k],
        ).busy {
        let (w, k) = choose|w: WindowId, k: int|
            s.windows.contains_key(w) && 0 <= k < s.windows[w].tabs.len() && s.tab(
                #[trigger] s.windows[w].tabs[k],
            ).busy;
        assert(s.lists_in(w, s.windows[w].tabs[k]) && s.tab(s.windows[w].tabs[k]).busy);
        assert(s.count_blocked());
    }
    if s.count_blocked() {
        let (w, t) = choose|w: WindowId, t: TabId| #[trigger] s.lists_in(w, t) && s.tab(t).busy;
        let k = s.windows[w].tabs.index_of(t);
        assert(s.tab(s.windows[w].tabs[k]).busy);
    }
}

// ---- names, ids and windows ----
/// A workspace is in use exactly as long as a window belongs to it, be it empty or not,
/// and its windows are just those.
pub proof fn law_windows_make_a_workspace(s: MuxState, w: WindowId, workspace: Seq<char>)
    ensures
        s.windows.contains_key(w) ==> in_use(s, s.windows[w].workspace),
        (forall|v: WindowId| #[trigger]
            s.windows.contains_key(v) ==> s.windows[v].workspace != workspace) ==> !in_use(
            s,
            workspace,
        ),
        windows_of(s, workspace).contains(w) <==> s.windows.contains_key(w)
            && s.windows[w].workspace == workspace,
        s.windows.contains_key(w) && s.windows[w].workspace.contains('-') ==> hyphen_in_use(s),
        (forall|v: WindowId| #[trigger]
            s.windows.contains_key(v) ==> !s.windows[v].workspace.contains('-')) ==> !hyphen_in_use(
            s,
        ),
{
}

/// A pane is held somewhere exactly as long as a tab within reach holds it, registered or
/// not.
pub proof fn law_who_holds_a_pane(s: MuxState, t: TabId, i: int, p: PaneId)
    ensures
        s.tabs.contains_key(t) && 0 <= i < s.tabs[t].panes.len() ==> held_somewhere(
            s,
            s.tabs[t].panes[i].pane_id,
        ),
        !s.tabs.contains_key(t) && s.orphans.contains_key(t) && 0 <= i < s.orphans[t].panes.len()
            ==> held_somewhere(s, s.orphans[t].panes[i].pane_id),
        (forall|u: TabId, j: int|
            s.knows_tab(u) && 0 <= j < s.tab(u).panes.len() ==> (#[trigger] s.tab(
                u,
            ).panes[j]).pane_id != p) ==> !held_somewhere(s, p),
{
    if s.tabs.contains_key(t) && 0 <= i < s.tabs[t].panes.len() {
        assert(s.knows_tab(t) && s.tab(t).holds(s.tabs[t].panes[i].pane_id));
    }
    if !s.tabs.contains_key(t) && s.orphans.contains_key(t) && 0 <= i < s.orphans[t].panes.len() {
        assert(s.knows_tab(t) && s.tab(t).holds(s.orphans[t].panes[i].pane_id));
    }
    if held_somewhere(s, p) {
        let u = choose|u: TabId| #[trigger] s.knows_tab(u) && s.tab(u).holds(p);
        let j = choose|j: int|
            0 <= j < s.tab(u).panes.len() && (#[trigger] s.tab(u).panes[j]).pane_id == p;
        assert(s.tab(u).panes[j].pane_id == p);
    }
}

/// Ids are listed from the smallest to the largest, all of them and each once.
pub proof fn law_ids_are_listed_in_order(ids: Set<usize>, k: usize, i: int, j: int)
    ensures
        in_order(ids).contains(k) <==> ids.contains(k),
        0 <= i < j < in_order(ids).len() ==> in_order(ids)[i] < in_order(ids)[j],
        in_order(ids).len() == ids.len(),
{
    let list = in_order(ids);
    lemma_finitely_many_ids(ids);
    lemma_listing_exists(ids);
    assert(list.no_duplicates());
    list.unique_seq_to_set();
    assert(list.to_set() =~= ids) by {
        assert forall|x: usize| #[trigger] list.to_set().contains(x) <==> ids.contains(x) by {
            assert(list.to_set().contains(x) <==> list.contains(x));
        }
    }
}

} // verus!
