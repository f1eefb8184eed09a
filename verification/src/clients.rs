//! The clients, and on whose behalf work is done.
use crate::client::{ClientInfo, ClientState};
use crate::id_map::{ascending, in_order};
use crate::ids::{ClientId, TabId, WindowId};
use crate::notification::Effect;
use crate::pruning::lemma_wf_kept;
use crate::state::MuxState;
use crate::store::Mux;
use vstd::prelude::*;

verus! {

/// Changing the clients keeps a state well formed as long as each stays under its
/// own id.
pub proof fn lemma_clients_changed(a: MuxState, b: MuxState)
    requires
        a.wf(),
        a.tabs == b.tabs,
        a.orphans == b.orphans,
        a.panes == b.panes,
        a.windows == b.windows,
        a.domains == b.domains,
        a.domains_by_name == b.domains_by_name,
        a.next_window == b.next_window,
        a.subscribers == b.subscribers,
        a.next_subscriber == b.next_subscriber,
        forall|c: ClientId| #[trigger] b.clients.contains_key(c) ==> b.clients[c].client_id == c,
    ensures
        b.wf(),
{
    assert forall|w: WindowId, t: TabId| #[trigger] b.lists_in(w, t) implies b.knows_tab(t) by {
        assert(a.lists_in(w, t));
        assert(a.knows_tab(t));
    }
    assert(b.sound());
    lemma_wf_kept(a, b);
}

impl Mux {
    /// Notes that a client had input.
    pub fn client_had_input(&mut self, client_id: ClientId, now: u64)
        requires
            old(self)@.wf(),
        ensures
            final(self)@ == old(self)@.input_recorded(client_id, now),
            final(self)@.wf(),
    {
        let ghost s = self@;
        if let Some(mut info) = self.take_client(client_id) {
            info.last_input_ms = now;
            self.put_client(client_id, info);
        }
        proof {
            assert(self@.clients =~= s.input_recorded(client_id, now).clients);
            lemma_clients_changed(s, s.input_recorded(client_id, now));
        }
        if self.get_agent() {
            self.ask(Effect::UpdateAgentTarget);
        }
    }

    /// Notes that the current identity had input.
    pub fn record_input_for_current_identity(&mut self, now: u64)
        requires
            old(self)@.wf(),
        ensures
            final(self)@ == (match old(self)@.identity {
                Some(c) => old(self)@.input_recorded(c, now),
                None => old(self)@,
            }),
            final(self)@.wf(),
    {
        if let Some(client_id) = self.get_identity() {
            self.client_had_input(client_id, now);
        }
    }

    /// Enters a client that has just connected.
    pub fn register_client(&mut self, client_id: ClientId, now: u64)
        requires
            old(self)@.wf(),
        ensures
            final(self)@ == (MuxState {
                clients: old(self)@.clients.insert(
                    client_id,
                    ClientState {
                        client_id,
                        active_workspace: None,
                        last_input_ms: now,
                        focused_pane_id: None,
                    },
                ),
                ..old(self)@
            }),
            final(self)@.wf(),
    {
        let ghost s = self@;
        self.put_client(client_id, ClientInfo::new(client_id, now));
        proof {
            lemma_clients_changed(s, self@);
        }
    }

    /// Forgets a client.
    pub fn unregister_client(&mut self, client_id: ClientId)
        requires
            old(self)@.wf(),
        ensures
            final(self)@ == (MuxState {
                clients: old(self)@.clients.remove(client_id),
                ..old(self)@
            }),
            final(self)@.wf(),
    {
        let ghost s = self@;
        let _ = self.take_client(client_id);
        proof {
            lemma_clients_changed(s, self@);
        }
    }

    /// All clients.
    pub fn iter_clients(&self) -> (clients: Vec<ClientInfo>)
        ensures
            clients@.map_values(|c: ClientInfo| c@) == in_order(self@.clients.dom()).map_values(
                |c: ClientId| self@.clients[c],
            ),
    {
        let ids = self.client_ids();
        let mut clients: Vec<ClientInfo> = Vec::new();
        let ghost wanted = ids@.map_values(|c: ClientId| self@.clients[c]);
        let mut i: usize = 0;
        assert(clients@.map_values(|c: ClientInfo| c@) =~= wanted.take(0));
        while i < ids.len()
            invariant
                ascending(ids@, self@.clients.dom()),
                wanted == ids@.map_values(|c: ClientId| self@.clients[c]),
                i <= ids@.len(),
                clients@.map_values(|c: ClientInfo| c@) == wanted.take(i as int),
            decreases ids@.len() - i,
        {
            proof {
                assert(ids@.contains(ids@[i as int]));
            }
            let ghost before = clients@;
            if let Some(info) = self.client_ref(ids[i]) {
                clients.push(info.duplicate());
                assert(clients@.map_values(|c: ClientInfo| c@) =~= before.map_values(
                    |c: ClientInfo| c@,
                ).push(info@));
            }
            i = i + 1;
            assert(clients@.map_values(|c: ClientInfo| c@) =~= wanted.take(i as int));
        }
        assert(clients@.map_values(|c: ClientInfo| c@) =~= wanted);
        clients
    }

    /// Lets another client be the one on whose behalf work is done. Gives back the
    /// one before.
    pub fn replace_identity(&mut self, id: Option<ClientId>) -> (prior: Option<ClientId>)
        ensures
            prior == old(self)@.identity,
            final(self)@ == (MuxState { identity: id, ..old(self)@ }),
            old(self)@.wf() ==> final(self)@.wf(),
    {
        let ghost s = self@;
        let prior = self.get_identity();
        self.put_identity(id);
        proof {
            lemma_wf_kept(s, self@);
        }
        prior
    }

    /// The same for the time until the holder is asked to restore what was before.
    pub fn with_identity(&mut self, id: Option<ClientId>) -> (holder: IdentityHolder)
        ensures
            holder@ == old(self)@.identity,
            final(self)@ == (MuxState { identity: id, ..old(self)@ }),
            old(self)@.wf() ==> final(self)@.wf(),
    {
        let prior = self.replace_identity(id);
        IdentityHolder { prior }
    }

    /// The client on whose behalf work is done.
    pub fn active_identity(&self) -> (identity: Option<ClientId>)
        ensures
            identity == self@.identity,
    {
        self.get_identity()
    }
}

/// Remembers on whose behalf work was done before.
pub struct IdentityHolder {
    prior: Option<ClientId>,
}

impl View for IdentityHolder {
    type V = Option<ClientId>;

    closed spec fn view(&self) -> Option<ClientId> {
        self.prior
    }
}

impl IdentityHolder {
    /// Restores what was before. The host does this when it drops the holder.
    pub fn restore(self, mux: &mut Mux)
        ensures
            final(mux)@ == (MuxState { identity: self@, ..old(mux)@ }),
            old(mux)@.wf() ==> final(mux)@.wf(),
    {
        let _ = mux.replace_identity(self.prior);
    }
}

} // verus!
