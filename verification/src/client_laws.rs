//! What the clients and the workspaces can rely on.
use crate::client::ClientState;
use crate::id_map::{in_order, lemma_finitely_many_ids, lemma_listing_exists};
use crate::ids::{ClientId, PaneId, WindowId};
use crate::notification::{Deed, Notice};
use crate::state::{kept, MuxState};
use crate::window::WindowState;
use vstd::prelude::*;

verus! {

/// The input of a client that is known sets the time of its last input and nothing else
/// about it or about any other; and the agent is pointed at somebody exactly if there is
/// an agent, be the client known or not.
pub proof fn law_what_input_leads_to(s: MuxState, c: ClientId, now: u64, other: ClientId)
    ensures
        ({
            let after = s.input_recorded(c, now);
            &&& after.clients.dom() == s.clients.dom()
            &&& s.clients.contains_key(c) ==> after.clients[c] == (ClientState {
                last_input_ms: now,
                ..s.clients[c]
            })
            &&& other != c && s.clients.contains_key(other) ==> after.clients[other]
                == s.clients[other]
            &&& s.agent ==> after.effects == s.effects.push(Deed::UpdateAgentTarget)
            &&& !s.agent ==> after.effects == s.effects
            &&& after == (MuxState { clients: after.clients, effects: after.effects, ..s })
        }),
{
    assert(s.input_recorded(c, now).clients.dom() =~= s.clients.dom());
}

/// The deeds by which a pane hears that it gained or lost the focus; none if the pane is
/// not known.
pub open spec fn focus_deeds(s: MuxState, p: PaneId, focused: bool) -> Seq<Deed> {
    if s.panes.contains_key(p) {
        seq![Deed::FocusChanged { pane_id: p, focused }]
    } else {
        Seq::empty()
    }
}

/// A client that turns to another pane has the focus there from then on. The pane that it
/// turned away from hears first that it lost the focus, and then the other that it gained
/// it, each if it is known; turning to the same pane is not told. A client that is not
/// known has no pane to turn away from.
pub proof fn law_what_a_change_of_focus_leads_to(
    s: MuxState,
    c: ClientId,
    p: PaneId,
    other: ClientId,
)
    ensures
        ({
            let after = s.focus_recorded(c, p);
            let prior = if s.clients.contains_key(c) {
                s.clients[c].focused_pane_id
            } else {
                None
            };
            &&& after.clients.dom() == s.clients.dom()
            &&& s.clients.contains_key(c) ==> after.clients[c] == (ClientState {
                focused_pane_id: Some(p),
                ..s.clients[c]
            })
            &&& other != c && s.clients.contains_key(other) ==> after.clients[other]
                == s.clients[other]
            &&& prior == Some(p) ==> after.effects == s.effects
            &&& prior is None ==> after.effects == s.effects + focus_deeds(s, p, true)
            &&& prior is Some && prior != Some(p) ==> after.effects == s.effects + focus_deeds(
                s,
                prior->0,
                false,
            ) + focus_deeds(s, p, true)
            &&& after == (MuxState { clients: after.clients, effects: after.effects, ..s })
        }),
{
    let after = s.focus_recorded(c, p);
    assert(after.clients.dom() =~= s.clients.dom());
    let prior = s.focus_of(c);
    if prior is None {
        assert(after.effects =~= s.effects + focus_deeds(s, p, true));
    } else if prior != Some(p) {
        assert(after.effects =~= s.effects + focus_deeds(s, prior->0, false) + focus_deeds(
            s,
            p,
            true,
        ));
    }
}

/// A client that is known and turns to a workspace looks at it from then on, and the
/// subscribers hear of it once; one that is not known cannot.
pub proof fn law_what_a_choice_of_workspace_leads_to(
    s: MuxState,
    c: ClientId,
    workspace: Seq<char>,
)
    ensures
        !s.clients.contains_key(c) ==> s.workspace_chosen(c, workspace) == s,
        s.clients.contains_key(c) ==> s.workspace_chosen(c, workspace) == (MuxState {
            clients: s.clients.insert(
                c,
                ClientState { active_workspace: Some(workspace), ..s.clients[c] },
            ),
            effects: s.effects.push(Deed::Notify(Notice::ActiveWorkspaceChanged(c))),
            ..s
        }),
{
}

/// Renaming a workspace hands over its windows and the clients that chose it, one and
/// all, and nobody else. The subscribers hear first of the new name and then of each
/// client that followed, once.
pub proof fn law_what_a_new_name_leads_to(
    s: MuxState,
    from: Seq<char>,
    to: Seq<char>,
    w: WindowId,
    c: ClientId,
)
    requires
        from != to,
    ensures
        ({
            let after = s.workspace_renamed(from, to);
            let told = s.effects.len() as int;
            &&& after.windows.dom() == s.windows.dom()
            &&& s.windows.contains_key(w) && s.windows[w].workspace == from ==> after.windows[w] == (
            WindowState { workspace: to, ..s.windows[w] })
            &&& s.windows.contains_key(w) && s.windows[w].workspace != from ==> after.windows[w]
                == s.windows[w]
            &&& after.clients.dom() == s.clients.dom()
            &&& s.clients.contains_key(c) && s.clients[c].active_workspace == Some(from)
                ==> after.clients[c] == (ClientState {
                active_workspace: Some(to),
                ..s.clients[c]
            })
            &&& s.clients.contains_key(c) && s.clients[c].active_workspace != Some(from)
                ==> after.clients[c] == s.clients[c]
            &&& after.effects.len() > told
            &&& after.effects.take(told) == s.effects
            &&& after.effects[told] == Deed::Notify(
                Notice::WorkspaceRenamed { old_workspace: from, new_workspace: to },
            )
            &&& after.effects.skip(told + 1).no_duplicates()
            &&& after.effects.skip(told + 1).contains(
                Deed::Notify(Notice::ActiveWorkspaceChanged(c)),
            ) <==> s.clients.contains_key(c) && s.clients[c].active_workspace == Some(from)
            &&& forall|i: int|
                told < i < after.effects.len() ==> (#[trigger] after.effects[i] matches Deed::Notify(
                    n,
                ) && n is ActiveWorkspaceChanged)
            &&& after == (MuxState {
                windows: after.windows,
                clients: after.clients,
                effects: after.effects,
                pane_counts: after.pane_counts,
                ..s
            })
        }),
{
    let after = s.workspace_renamed(from, to);
    let told = s.effects.len() as int;
    assert(after.windows.dom() =~= s.windows.dom());
    assert(after.clients.dom() =~= s.clients.dom());
    let moved = s.clients_in(from);
    lemma_finitely_many_ids(moved);
    lemma_listing_exists(moved);
    let ids = in_order(moved);
    let tell = |x: ClientId| Deed::Notify(Notice::ActiveWorkspaceChanged(x));
    let news = ids.map_values(tell);
    let named = s.notified(Notice::WorkspaceRenamed { old_workspace: from, new_workspace: to });
    assert(named.windows_moved(from, to).recounted().clients_in(from) =~= moved);
    assert(after.effects == named.effects + news);
    assert(after.effects.take(told) =~= s.effects);
    assert(after.effects.skip(told + 1) =~= news);
    assert(news.no_duplicates()) by {
        assert forall|i: int, j: int| 0 <= i < news.len() && 0 <= j < news.len() && i != j implies news[i]
            != news[j] by {
            assert(news[i] == tell(ids[i]));
            assert(news[j] == tell(ids[j]));
        }
    }
    if news.contains(tell(c)) {
        let i = news.index_of(tell(c));
        assert(news[i] == tell(ids[i]));
        assert(ids.contains(c));
    }
    if moved.contains(c) {
        assert(ids.contains(c));
        let i = ids.index_of(c);
        assert(news[i] == tell(c));
    }
}

/// Renaming a workspace to the name that it has changes nothing and is not told.
pub proof fn law_the_same_name_is_no_news(s: MuxState, name: Seq<char>)
    ensures
        s.workspace_renamed(name, name) == s,
{
}

// ---- subscribers ----
/// A new subscriber comes last, under the next number, and the number after that is the
/// next; nobody else is affected.
pub proof fn law_subscribing(s: MuxState)
    requires
        s.next_subscriber < usize::MAX,
    ensures
        s.subscribed().subscribers == s.subscribers.push(s.next_subscriber),
        s.subscribed().next_subscriber == s.next_subscriber + 1,
        s.subscribed() == (MuxState {
            subscribers: s.subscribed().subscribers,
            next_subscriber: s.subscribed().next_subscriber,
            ..s
        }),
{
}

/// Once they have been told, just those subscribers stay that want to hear more, in their
/// order, and nothing else changes.
pub proof fn law_who_stays_subscribed(s: MuxState, verdicts: Seq<bool>)
    requires
        verdicts.len() == s.subscribers.len(),
    ensures
        (forall|i: int| 0 <= i < verdicts.len() ==> #[trigger] verdicts[i]) ==> s.subscribers_kept(
            verdicts,
        ) == s,
        (forall|i: int| 0 <= i < verdicts.len() ==> !#[trigger] verdicts[i]) ==> s.subscribers_kept(
            verdicts,
        ).subscribers.len() == 0,
        s.subscribers_kept(verdicts) == (MuxState {
            subscribers: s.subscribers_kept(verdicts).subscribers,
            ..s
        }),
{
    lemma_unanimous(s.subscribers, verdicts);
}

proof fn lemma_unanimous(list: Seq<usize>, verdicts: Seq<bool>)
    requires
        verdicts.len() >= list.len(),
    ensures
        (forall|i: int| 0 <= i < list.len() ==> verdicts[i]) ==> kept(list, verdicts) == list,
        (forall|i: int| 0 <= i < list.len() ==> !verdicts[i]) ==> kept(list, verdicts).len() == 0,
    decreases list.len(),
{
    if list.len() > 0 {
        lemma_unanimous(list.drop_last(), verdicts);
        assert(list =~= list.drop_last().push(list.last()));
    }
}

/// Of two lists of subscribers, one behind the other, what stays is what stays of the one
/// and then what stays of the other.
pub proof fn law_the_order_of_subscribers_stays(
    a: Seq<usize>,
    b: Seq<usize>,
    x: Seq<bool>,
    y: Seq<bool>,
)
    requires
        a.len() == x.len(),
        b.len() == y.len(),
    ensures
        kept(a + b, x + y) == kept(a, x) + kept(b, y),
    decreases b.len(),
{
    if b.len() == 0 {
        assert(a + b =~= a);
        assert(x + y =~= x);
        assert(kept(a, x) + kept(b, y) =~= kept(a, x));
    } else {
        let c = b.drop_last();
        let z = y.drop_last();
        assert((a + b).drop_last() =~= a + c);
        lemma_verdicts_suffice(a + c, x + y, x + z);
        lemma_verdicts_suffice(c, y, z);
        law_the_order_of_subscribers_stays(a, c, x, z);
        assert((x + y)[(a + b).len() - 1] == y[b.len() - 1]);
        assert((a + b).last() == b.last());
        assert((kept(a, x) + kept(c, z)).push(b.last()) =~= kept(a, x) + kept(c, z).push(b.last()));
    }
}

proof fn lemma_verdicts_suffice(list: Seq<usize>, x: Seq<bool>, y: Seq<bool>)
    requires
        forall|i: int| 0 <= i < list.len() ==> x[i] == y[i],
    ensures
        kept(list, x) == kept(list, y),
    decreases list.len(),
{
    if list.len() > 0 {
        lemma_verdicts_suffice(list.drop_last(), x, y);
    }
}

} // verus!
