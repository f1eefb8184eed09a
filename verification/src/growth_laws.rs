//! What adding panes, tabs and windows does to the tables, and what the host and the
//! subscribers hear of it.
use crate::domain::DomainInfo;
use crate::domains::new_state;
use crate::growth::{can_close, BuilderState};
use crate::host::GuiPosition;
use crate::id_map::lemma_finitely_many_ids;
use crate::ids::{DomainId, PaneId, TabId, ThreadId, WindowId};
use crate::lookup_laws::law_what_a_pane_resolves_to;
use crate::move_laws::law_the_active_pane_is_held;
use crate::notification::{Deed, Notice};
use crate::state::MuxState;
use crate::tab::{Pane, ReaderOffer, TabState};
use crate::window::{lemma_staying, lemma_staying_prefix, lemma_staying_push, staying, WindowState};
use vstd::prelude::*;

verus! {

/// A pane that is not known yet is put into the table of panes, connected to the
/// clipboard and to the downloads, in this order. If its reader cannot be had, that is
/// all. Otherwise the reader is started, if there is one, with the banner of the moment,
/// and the subscribers hear of the pane last.
pub proof fn law_adding_a_pane(s: MuxState, pane: Pane, reader: ReaderOffer)
    ensures
        ({
            let p = pane.pane_id;
            let after = s.pane_added(pane, reader);
            let connected = s.effects.push(Deed::SetClipboard(p)).push(Deed::SetDownloadHandler(p));
            &&& s.panes.contains_key(p) ==> after == s
            &&& !s.panes.contains_key(p) ==> {
                &&& after == (MuxState {
                    panes: s.panes.insert(p, pane),
                    effects: after.effects,
                    pane_counts: after.pane_counts,
                    ..s
                })
                &&& reader == ReaderOffer::Failed ==> after.effects == connected
                    && after.pane_counts == s.pane_counts
                &&& reader == ReaderOffer::NoReader ==> after.effects == connected.push(
                    Deed::Notify(Notice::PaneAdded(p)),
                )
                &&& reader == ReaderOffer::Reader ==> after.effects == connected.push(
                    Deed::StartReader { pane_id: p, banner: s.banner },
                ).push(Deed::Notify(Notice::PaneAdded(p)))
            }
        }),
{
}

/// The same in two steps: a pane is taken up before it is asked for its reader, and put
/// to work after that. A reader that failed is not told of and changes nothing.
pub proof fn law_a_pane_is_added_in_two_steps(s: MuxState, pane: Pane, reader: ReaderOffer)
    ensures
        ({
            let p = pane.pane_id;
            let up = s.pane_taken_up(pane);
            let begun = s.pane_begun(p, reader);
            &&& up == (MuxState {
                panes: s.panes.insert(p, pane),
                effects: s.effects.push(Deed::SetClipboard(p)).push(Deed::SetDownloadHandler(p)),
                ..s
            })
            &&& reader == ReaderOffer::Failed ==> begun == s
            &&& reader == ReaderOffer::NoReader ==> begun.effects == s.effects.push(
                Deed::Notify(Notice::PaneAdded(p)),
            )
            &&& reader == ReaderOffer::Reader ==> begun.effects == s.effects.push(
                Deed::StartReader { pane_id: p, banner: s.banner },
            ).push(Deed::Notify(Notice::PaneAdded(p)))
            &&& begun == (MuxState {
                effects: begun.effects,
                pane_counts: begun.pane_counts,
                ..s
            })
            &&& !s.panes.contains_key(p) ==> s.pane_added(pane, reader) == up.pane_begun(p, reader)
        }),
{
}

/// A tab that is entered in the register is found there under its id, is not kept aside
/// any more, and changes nothing else.
pub proof fn law_registering_a_tab(s: MuxState, tab: TabState, other: TabId)
    ensures
        ({
            let after = s.tab_registered(tab);
            &&& after.tabs.contains_key(tab.tab_id) && after.tabs[tab.tab_id] == tab
            &&& !after.orphans.contains_key(tab.tab_id)
            &&& other != tab.tab_id ==> {
                &&& after.tabs.contains_key(other) == s.tabs.contains_key(other)
                &&& after.orphans.contains_key(other) == s.orphans.contains_key(other)
                &&& after.tab(other) == s.tab(other)
            }
            &&& after == (MuxState { tabs: after.tabs, orphans: after.orphans, ..s })
        }),
{
}

/// What becomes of a tab is taken in where the tab is, in the register or aside, and not
/// at all if it is not known.
pub proof fn law_replacing_a_tab(s: MuxState, tab: TabState, other: TabId)
    ensures
        ({
            let after = s.tab_updated(tab);
            &&& s.knows_tab(tab.tab_id) ==> after.tab(tab.tab_id) == tab
            &&& !s.knows_tab(tab.tab_id) ==> after == s
            &&& after.tabs.dom() == s.tabs.dom()
            &&& after.orphans.dom() == s.orphans.dom()
            &&& other != tab.tab_id ==> after.tab(other) == s.tab(other)
            &&& after == (MuxState { tabs: after.tabs, orphans: after.orphans, ..s })
        }),
{
    let after = s.tab_updated(tab);
    assert(after.tabs.dom() =~= s.tabs.dom());
    assert(after.orphans.dom() =~= s.orphans.dom());
}

/// A tab that is appended to a window comes last there, and does not become active by
/// that; no other window is touched. The subscribers hear of it once.
pub proof fn law_listing_a_tab(s: MuxState, tab: TabState, w: WindowId)
    requires
        s.windows.contains_key(w),
    ensures
        ({
            let after = s.tab_listed(tab, w);
            &&& after.windows.dom() == s.windows.dom()
            &&& after.windows[w] == (WindowState {
                tabs: s.windows[w].tabs.push(tab.tab_id),
                ..s.windows[w]
            })
            &&& forall|v: WindowId| v != w ==> #[trigger] after.windows[v] == s.windows[v]
            &&& after.tabs == s.tabs
            &&& s.knows_tab(tab.tab_id) ==> after.orphans == s.orphans
            &&& !s.knows_tab(tab.tab_id) ==> after.orphans == s.orphans.insert(tab.tab_id, tab)
            &&& after.effects == s.effects.push(
                Deed::Notify(Notice::TabAddedToWindow { tab_id: tab.tab_id, window_id: w }),
            )
            &&& after == (MuxState {
                windows: after.windows,
                orphans: after.orphans,
                pane_counts: after.pane_counts,
                effects: after.effects,
                ..s
            })
        }),
{
    assert(s.tab_listed(tab, w).windows.dom() =~= s.windows.dom());
}

/// What becomes of a window is taken in if the window is known. A tab that is not
/// registered is forgotten when no window lists it any more, and not before.
pub proof fn law_replacing_a_window(s: MuxState, window: WindowState, t: TabId)
    ensures
        ({
            let after = s.window_updated(window);
            let w = window.window_id;
            &&& !s.windows.contains_key(w) ==> after == s
            &&& s.windows.contains_key(w) ==> {
                &&& after.windows == s.windows.insert(w, window)
                &&& after.orphans.contains_key(t) <==> s.orphans.contains_key(t) && exists|
                    v: WindowId,
                | #[trigger]
                    after.windows.contains_key(v) && after.windows[v].tabs.contains(t)
                &&& after.orphans.contains_key(t) ==> after.orphans[t] == s.orphans[t]
                &&& after == (MuxState { windows: after.windows, orphans: after.orphans, ..s })
            }
        }),
{
    let after = s.window_updated(window);
    let mid = MuxState { windows: s.windows.insert(window.window_id, window), ..s };
    if s.windows.contains_key(window.window_id) {
        if mid.lists(t) {
            let v = choose|v: WindowId| mid.lists_in(v, t);
            assert(after.windows.contains_key(v) && after.windows[v].tabs.contains(t));
        }
        if exists|v: WindowId| #[trigger]
            after.windows.contains_key(v) && after.windows[v].tabs.contains(t) {
            let v = choose|v: WindowId| #[trigger]
                after.windows.contains_key(v) && after.windows[v].tabs.contains(t);
            assert(mid.lists_in(v, t));
        }
    }
}

/// A window that is opened is new and empty, in the workspace that is asked for or else
/// in the active one, and at the position that is asked for. Nobody hears of it yet, and
/// nothing else is touched.
pub proof fn law_opening_a_window(
    s: MuxState,
    workspace: Option<Seq<char>>,
    position: Option<GuiPosition>,
)
    requires
        s.sound(),
        s.next_window < usize::MAX,
    ensures
        ({
            let after = s.window_opened(workspace, position);
            let w = s.next_window;
            &&& !s.windows.contains_key(w)
            &&& after.windows == s.windows.insert(w, after.windows[w])
            &&& after.windows[w].window_id == w
            &&& workspace matches Some(name) ==> after.windows[w].workspace == name
            &&& workspace is None ==> after.windows[w].workspace == s.active_workspace()
            &&& after.windows[w].tabs.len() == 0
            &&& after.windows[w].active == 0
            &&& after.windows[w].last_active is None
            &&& after.windows[w].position == position
            &&& after.next_window == w + 1
            &&& after == (MuxState { windows: after.windows, next_window: after.next_window, ..s })
        }),
{
}

/// When a window is announced the subscribers hear of it, and then the host is asked to
/// look for what is dead, now that the activity that led to the window has ended.
pub proof fn law_announcing_a_window(s: MuxState, w: WindowId)
    ensures
        s.window_announced(w) == (MuxState {
            effects: s.effects.push(Deed::Notify(Notice::WindowCreated(w))).push(
                Deed::SchedulePrune,
            ),
            ..s
        }),
{
}

/// A builder that is closed announces its window once: at once on the main thread, where
/// the activity ends with it, and through the host on any other, where it goes on.
pub proof fn law_closing_a_builder(
    s: MuxState,
    activities: usize,
    window_id: WindowId,
    thread: ThreadId,
)
    requires
        activities > 0,
    ensures
        ({
            let fresh = Some(BuilderState { window_id, notified: false });
            let spent = Some(BuilderState { window_id, notified: true });
            &&& s.builder_closed(None, thread) == s
            &&& s.builder_closed(spent, thread) == s
            &&& s.activities_closed(activities, None, thread) == activities
            &&& s.activities_closed(activities, spent, thread) == activities
            &&& thread == s.main_thread ==> {
                &&& s.builder_closed(fresh, thread) == (MuxState {
                    effects: s.effects.push(Deed::Notify(Notice::WindowCreated(window_id))).push(
                        Deed::SchedulePrune,
                    ),
                    ..s
                })
                &&& s.activities_closed(activities, fresh, thread) == activities - 1
            }
            &&& thread != s.main_thread ==> {
                &&& s.builder_closed(fresh, thread) == (MuxState {
                    effects: s.effects.push(Deed::AnnounceWindow(window_id)),
                    ..s
                })
                &&& s.activities_closed(activities, fresh, thread) == activities
            }
            &&& can_close(fresh, activities) && !can_close(fresh, 0)
            &&& can_close(spent, 0) && can_close(None, 0)
        }),
{
}

// ---- what is active ----
/// A tab that becomes active in a window that lists it is the active one from then on,
/// and the window remembers the one before, unless it is the same. A window that does not
/// list the tab is left alone, and so are all others.
pub proof fn law_activating_a_tab(s: MuxState, w: WindowId, t: TabId)
    requires
        s.sound(),
    ensures
        ({
            let after = s.tab_activated(w, t);
            let before = s.windows[w];
            &&& !(s.windows.contains_key(w) && before.tabs.contains(t)) ==> after == s
            &&& s.windows.contains_key(w) && before.tabs.contains(t) ==> {
                &&& after.windows == s.windows.insert(w, after.windows[w])
                &&& after.windows[w].active_tab() == Some(t)
                &&& before.active_tab() == Some(t) ==> after.windows[w] == before
                &&& before.active_tab() != Some(t) ==> after.windows[w].last_active
                    == before.active_tab()
                &&& after.windows[w].tabs == before.tabs
                &&& after.windows[w].workspace == before.workspace
                &&& after.windows[w].window_id == before.window_id
                &&& after.windows[w].position == before.position
                &&& after == (MuxState { windows: after.windows, ..s })
            }
        }),
{
    let before = s.windows[w];
    if s.windows.contains_key(w) && before.tabs.contains(t) {
        let i = before.tabs.index_of(t);
        assert(before.tabs[i] == t);
        assert(before.wf());
        before.tabs.unique_seq_to_set();
        lemma_finitely_many_ids(before.tabs.to_set());
        if before.active_tab() == Some(t) {
            assert(before.tabs[before.active as int] == before.tabs[i]);
            assert(s.windows.insert(w, before) =~= s.windows);
        }
    }
}

/// A pane that gets the focus is the active one of the tab that it resolves to, and that
/// tab is the active one of its window. Nothing else changes, and nobody is told.
pub proof fn law_focusing_a_pane(s: MuxState, p: PaneId)
    requires
        s.sound(),
    ensures
        s.resolved(p) is None ==> s.pane_focused(p) == s,
        s.resolved(p) matches Some((d, w, t)) ==> {
            let after = s.pane_focused(p);
            &&& after.tabs == s.tabs.insert(t, TabState { active: Some(p), ..s.tabs[t] })
            &&& after.tabs[t].active_pane() matches Some(pane) && pane.pane_id == p
            &&& after.windows[w].active_tab() == Some(t)
            &&& after.windows == s.windows.insert(w, after.windows[w])
            &&& after.windows[w].tabs == s.windows[w].tabs
            &&& after.windows[w].workspace == s.windows[w].workspace
            &&& after == (MuxState { tabs: after.tabs, windows: after.windows, ..s })
        },
{
    if s.resolved(p) is Some {
        let (d, w, t) = s.resolved(p)->0;
        law_what_a_pane_resolves_to(s, p);
        law_activating_a_tab(s, w, t);
        let tab = s.pane_focused(p).tabs[t];
        let i = choose|i: int|
            0 <= i < s.tabs[t].panes.len() && #[trigger] s.tabs[t].panes[i] == (Pane {
                pane_id: p,
                domain_id: d,
            });
        assert(tab.panes[i].pane_id == p);
        assert(tab.holds(p));
        law_the_active_pane_is_held(tab, p);
    }
}

/// Which tab is active once some have gone: the one that was, if it stays; or else the
/// first behind it that stays; or else the last of those that stay. An empty window has
/// no active tab.
pub proof fn law_who_takes_over(window: WindowState, gone: Set<TabId>, k: int)
    requires
        window.wf(),
        window.tabs.len() > 0,
    ensures
        ({
            let after = window.without(gone);
            let n = window.active as int;
            &&& n <= k < window.tabs.len() && !gone.contains(window.tabs[k]) && (forall|j: int|
                n <= j < k ==> gone.contains(#[trigger] window.tabs[j])) ==> after.active_tab()
                == Some(window.tabs[k])
            &&& 0 <= k < window.tabs.len() && !gone.contains(window.tabs[k]) && (forall|j: int|
                k < j < window.tabs.len() ==> gone.contains(#[trigger] window.tabs[j])) && k < n
                ==> after.active_tab() == Some(window.tabs[k])
            &&& (forall|j: int|
                0 <= j < window.tabs.len() ==> gone.contains(#[trigger] window.tabs[j]))
                ==> after.active_tab() is None
            &&& after.window_id == window.window_id
            &&& after.workspace == window.workspace
            &&& after.position == window.position
            &&& after.last_active == window.last_active
        }),
{
    let tabs = window.tabs;
    let n = window.active as int;
    let left = staying(tabs, gone);
    lemma_staying(tabs, gone);
    if n <= k < tabs.len() && !gone.contains(tabs[k]) && (forall|j: int|
        n <= j < k ==> gone.contains(#[trigger] tabs[j])) {
        lemma_gap(tabs, gone, n, k);
        lemma_staying_push(tabs.take(k), tabs[k], gone);
        assert(tabs.take(k + 1) =~= tabs.take(k).push(tabs[k]));
        lemma_staying_prefix(tabs, k + 1, gone);
        let before = staying(tabs.take(n), gone).len();
        assert(left[before as int] == tabs[k]);
    }
    if 0 <= k < tabs.len() && !gone.contains(tabs[k]) && (forall|j: int|
        k < j < tabs.len() ==> gone.contains(#[trigger] tabs[j])) && k < n {
        lemma_gap(tabs, gone, k + 1, tabs.len() as int);
        lemma_gap(tabs, gone, k + 1, n);
        assert(tabs.take(tabs.len() as int) =~= tabs);
        lemma_staying_push(tabs.take(k), tabs[k], gone);
        assert(tabs.take(k + 1) =~= tabs.take(k).push(tabs[k]));
    }
    if forall|j: int| 0 <= j < tabs.len() ==> gone.contains(#[trigger] tabs[j]) {
        lemma_gap(tabs, gone, 0, tabs.len() as int);
        assert(tabs.take(tabs.len() as int) =~= tabs);
        assert(tabs.take(0) =~= Seq::empty());
        reveal(Seq::filter);
    }
}

proof fn lemma_gap(tabs: Seq<TabId>, gone: Set<TabId>, n: int, k: int)
    requires
        0 <= n <= k <= tabs.len(),
        forall|j: int| n <= j < k ==> gone.contains(#[trigger] tabs[j]),
    ensures
        staying(tabs.take(n), gone) == staying(tabs.take(k), gone),
    decreases k - n,
{
    if n < k {
        lemma_gap(tabs, gone, n, k - 1);
        assert(tabs.take(k) =~= tabs.take(k - 1).push(tabs[k - 1]));
        lemma_staying_push(tabs.take(k - 1), tabs[k - 1], gone);
    }
}

// ---- domains ----
/// Adding a domain changes nothing but what is known of domains, and only what is known
/// under the id and the name of that one.
pub proof fn law_adding_a_domain(s: MuxState, domain: DomainInfo)
    ensures
        s.domain_added(domain) == (MuxState {
            default_domain: match s.default_domain {
                Some(d) => Some(d),
                None => Some(domain),
            },
            domains: s.domains.insert(domain.domain_id, domain),
            domains_by_name: s.domains_by_name.insert(domain.domain_name, domain),
            ..s
        }),
{
}

/// A multiplexer that has just been made has nothing in it but its default domain, if it
/// has one, and that is known under its id and its name. It is not in use, nothing is held
/// or under way, nobody listens, and nothing is asked of the host.
pub proof fn law_a_new_multiplexer_is_empty(
    default_domain: Option<DomainInfo>,
    agent: bool,
    default_workspace: Option<Seq<char>>,
    main_thread: ThreadId,
)
    ensures
        ({
            let s = new_state(default_domain, agent, default_workspace, main_thread);
            &&& s.tabs.dom().is_empty() && s.orphans.dom().is_empty() && s.panes.dom().is_empty()
            &&& s.windows.dom().is_empty() && s.clients.dom().is_empty()
            &&& s.dead.is_empty()
            &&& s.pane_counts.dom().is_empty()
            &&& s.subscribers.len() == 0
            &&& s.effects.len() == 0
            &&& s.banner is None && s.identity is None
            &&& !s.retry_scheduled && !s.windows_locked && !s.current && !s.ending
            &&& s.next_window == 0 && s.next_subscriber == 0
            &&& s.main_thread == main_thread
            &&& s.agent == agent
            &&& s.default_workspace == default_workspace
            &&& s.default_domain == default_domain
            &&& default_domain is None ==> s.domains.dom().is_empty()
                && s.domains_by_name.dom().is_empty()
            &&& default_domain matches Some(d) ==> {
                &&& forall|id: DomainId| #[trigger]
                    s.domains.contains_key(id) <==> id == d.domain_id
                &&& forall|n: Seq<char>| #[trigger]
                    s.domains_by_name.contains_key(n) <==> n == d.domain_name
                &&& s.domains[d.domain_id] == d
                &&& s.domains_by_name[d.domain_name] == d
            }
        }),
{
}

} // verus!
