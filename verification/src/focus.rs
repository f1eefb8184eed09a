//! Which pane has the focus.
use crate::clients::lemma_clients_changed;
use crate::error::MuxError;
use crate::ids::{ClientId, DomainId, PaneId, TabId, WindowId};
use crate::lookup::lemma_resolved;
use crate::notification::Effect;
use crate::pruning::lemma_wf_kept;
use crate::state::MuxState;
use crate::store::Mux;
use crate::tab::TabState;
use vstd::prelude::*;

verus! {

/// Activating a tab leaves a well-formed state.
proof fn lemma_tab_activated(s: MuxState, w: WindowId, t: TabId)
    requires
        s.wf(),
    ensures
        s.tab_activated(w, t).wf(),
{
    if s.lists_in(w, t) {
        let after = s.tab_activated(w, t);
        assert forall|v: WindowId, u: TabId| #[trigger] after.lists_in(v, u) == s.lists_in(v, u) by {}
        assert forall|v: WindowId, u: TabId| #[trigger] after.lists_in(v, u) implies after.knows_tab(
            u,
        ) by {
            assert(s.lists_in(v, u));
            assert(s.knows_tab(u));
        }
        assert(after.windows.dom() =~= s.windows.dom());
        assert(after.sound());
        assert forall|u: TabId| #[trigger] after.orphans.contains_key(u) implies after.lists(u) by {
            assert(s.orphans.contains_key(u));
            let v = choose|v: WindowId| s.lists_in(v, u);
            assert(after.lists_in(v, u));
        }
    }
}

/// Giving a pane the focus within its tab leaves a well-formed state.
proof fn lemma_pane_active(s: MuxState, t: TabId, p: PaneId)
    requires
        s.wf(),
        s.tabs.contains_key(t),
    ensures
        (MuxState {
            tabs: s.tabs.insert(t, TabState { active: Some(p), ..s.tabs[t] }),
            ..s
        }).wf(),
{
    let after = MuxState {
        tabs: s.tabs.insert(t, TabState { active: Some(p), ..s.tabs[t] }),
        ..s
    };
    assert(after.tabs.dom() =~= s.tabs.dom());
    assert forall|w: WindowId, u: TabId| #[trigger] after.lists_in(w, u) implies after.knows_tab(
        u,
    ) by {
        assert(s.lists_in(w, u));
        assert(s.knows_tab(u));
    }
    assert(after.sound());
    lemma_wf_kept(s, after);
}

impl Mux {
    /// Notes that the current identity turned to a pane.
    pub fn record_focus_for_current_identity(&mut self, pane_id: PaneId)
        requires
            old(self)@.wf(),
        ensures
            final(self)@ == (match old(self)@.identity {
                Some(c) => old(self)@.focus_recorded(c, pane_id),
                None => old(self)@,
            }),
            final(self)@.wf(),
    {
        if let Some(client_id) = self.get_identity() {
            self.record_focus_for_client(client_id, pane_id);
        }
    }

    /// Where the pane is that a client has the focus on.
    pub fn resolve_focused_pane(&self, client_id: ClientId) -> (found: Option<
        (DomainId, WindowId, TabId, PaneId),
    >)
        ensures
            found == (match self@.focus_of(client_id) {
                Some(p) => match self@.resolved(p) {
                    Some((d, w, t)) => Some((d, w, t, p)),
                    None => None,
                },
                None => None,
            }),
    {
        let focused = match self.client_ref(client_id) {
            Some(info) => info.focused_pane_id,
            None => None,
        };
        match focused {
            None => None,
            Some(pane_id) => match self.resolve_pane_id(pane_id) {
                None => None,
                Some((domain_id, window_id, tab_id)) => Some(
                    (domain_id, window_id, tab_id, pane_id),
                ),
            },
        }
    }

    fn tell_focus(&mut self, pane_id: PaneId, focused: bool)
        ensures
            final(self)@ == old(self)@.focus_told(pane_id, focused),
    {
        if self.pane_at(pane_id).is_some() {
            self.ask(Effect::FocusChanged { pane_id, focused });
        }
    }

    /// Notes that a client turned to a pane. The pane that it turned away from and
    /// the one that it turned to are told.
    pub fn record_focus_for_client(&mut self, client_id: ClientId, pane_id: PaneId)
        requires
            old(self)@.wf(),
        ensures
            final(self)@ == old(self)@.focus_recorded(client_id, pane_id),
            final(self)@.wf(),
    {
        let ghost s = self@;
        let mut prior: Option<PaneId> = None;
        if let Some(mut info) = self.take_client(client_id) {
            prior = info.focused_pane_id;
            info.focused_pane_id = Some(pane_id);
            self.put_client(client_id, info);
        }
        proof {
            assert(self@.clients =~= s.focus_recorded(client_id, pane_id).clients);
            lemma_clients_changed(s, s.focus_recorded(client_id, pane_id));
        }
        match prior {
            Some(prior_id) => {
                if prior_id == pane_id {
                    return ;
                }
                self.tell_focus(prior_id, false);
            },
            None => {},
        }
        self.tell_focus(pane_id, true);
    }

    /// Makes the tab of a pane the active one of its window, and the pane the
    /// active one of its tab.
    pub fn focus_pane_and_containing_tab(&mut self, pane_id: PaneId) -> (done: Result<(), MuxError>)
        requires
            old(self)@.wf(),
        ensures
            final(self)@.wf(),
            match done {
                Ok(_) => {
                    &&& old(self)@.panes.contains_key(pane_id)
                    &&& old(self)@.resolved(pane_id) is Some
                    &&& final(self)@ == old(self)@.pane_focused(pane_id)
                },
                Err(e) => {
                    &&& final(self)@ == old(self)@
                    &&& if old(self)@.panes.contains_key(pane_id) {
                        e == MuxError::PaneUnresolved(pane_id) && old(self)@.resolved(pane_id) is None
                    } else {
                        e == MuxError::PaneNotFound(pane_id)
                    }
                },
            },
    {
        let ghost s = self@;
        if self.pane_at(pane_id).is_none() {
            return Err(MuxError::PaneNotFound(pane_id));
        }
        let (window_id, tab_id) = match self.resolve_pane_id(pane_id) {
            None => {
                return Err(MuxError::PaneUnresolved(pane_id));
            },
            Some((_, window_id, tab_id)) => (window_id, tab_id),
        };
        proof {
            lemma_resolved(s, pane_id);
        }
        let _ = self.activate_tab(window_id, tab_id);
        self.set_active_pane(tab_id, pane_id);
        Ok(())
    }

    /// Gives a pane the focus within a registered tab.
    fn set_active_pane(&mut self, tab_id: TabId, pane_id: PaneId)
        requires
            old(self)@.wf(),
            old(self)@.tabs.contains_key(tab_id),
        ensures
            final(self)@ == (MuxState {
                tabs: old(self)@.tabs.insert(
                    tab_id,
                    TabState { active: Some(pane_id), ..old(self)@.tabs[tab_id] },
                ),
                ..old(self)@
            }),
            final(self)@.wf(),
    {
        let ghost s = self@;
        proof {
            lemma_pane_active(s, tab_id, pane_id);
        }
        if let Some(mut tab) = self.take_tab(tab_id) {
            tab.active = Some(pane_id);
            self.put_tab(tab_id, tab);
        }
        assert(self@.tabs =~= s.tabs.insert(
            tab_id,
            TabState { active: Some(pane_id), ..s.tabs[tab_id] },
        ));
    }

    /// Makes a tab the active one of a window, if the window lists it. Says whether
    /// there is such a window.
    pub(crate) fn activate_tab(&mut self, window_id: WindowId, tab_id: TabId) -> (found: bool)
        requires
            old(self)@.wf(),
        ensures
            found == old(self)@.windows.contains_key(window_id),
            final(self)@ == old(self)@.tab_activated(window_id, tab_id),
            final(self)@.wf(),
    {
        let ghost s = self@;
        proof {
            lemma_tab_activated(s, window_id, tab_id);
        }
        match self.take_window(window_id) {
            None => {
                assert(self@.windows =~= s.windows);
                false
            },
            Some(mut window) => {
                if let Some(idx) = window.idx_by_id(tab_id) {
                    proof {
                        let at = window@.tabs.index_of(tab_id);
                        assert(window@.tabs[at] == tab_id);
                        assert(at == idx);
                    }
                    window.save_and_then_set_active(idx);
                }
                self.put_window(window_id, window);
                assert(self@.windows =~= s.tab_activated(window_id, tab_id).windows);
                true
            },
        }
    }
}

} // verus!
