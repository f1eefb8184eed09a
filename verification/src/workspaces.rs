//! Workspaces: which one is looked at, and what they are called.
use crate::client::{duplicate_text, opt_text};
use crate::clients::lemma_clients_changed;
use crate::id_map::{ascending, lemma_picked, lemma_picked_none, lemma_picked_step, picked};
use crate::ids::{ClientId, TabId, WindowId};
use crate::notification::{Deed, Effect, MuxNotification, Notice};
use crate::pruning::lemma_wf_kept;
use crate::removal::lemma_same_tables;
use crate::state::{MuxState, DEFAULT_WORKSPACE};
use crate::store::Mux;
use crate::text::same_text;
use vstd::prelude::*;

verus! {

/// Handing windows to another workspace leaves a well-formed state.
proof fn lemma_windows_moved(s: MuxState, from: Seq<char>, to: Seq<char>)
    requires
        s.wf(),
    ensures
        s.windows_moved(from, to).wf(),
{
    let after = s.windows_moved(from, to);
    assert(after.windows.dom() =~= s.windows.dom());
    assert forall|w: WindowId, t: TabId| #[trigger] after.lists_in(w, t) == s.lists_in(w, t) by {}
    assert forall|w: WindowId, t: TabId| #[trigger] after.lists_in(w, t) implies after.knows_tab(
        t,
    ) by {
        assert(s.lists_in(w, t));
        assert(s.knows_tab(t));
    }
    assert forall|w: WindowId| #[trigger] after.windows.contains_key(w) implies after.windows[w].window_id
        == w && after.windows[w].wf() && w < after.next_window by {
        assert(s.windows.contains_key(w));
    }
    assert(after.sound());
    assert forall|t: TabId| #[trigger] after.orphans.contains_key(t) implies after.lists(t) by {
        assert(s.orphans.contains_key(t));
        let w = choose|w: WindowId| s.lists_in(w, t);
        assert(after.lists_in(w, t));
    }
}

impl Mux {
    /// Takes in which workspace is configured to start in. The host says so whenever
    /// the configuration changes.
    pub fn set_default_workspace(&mut self, name: Option<String>)
        ensures
            final(self)@ == (MuxState { default_workspace: opt_text(name), ..old(self)@ }),
            old(self)@.wf() ==> final(self)@.wf(),
    {
        let ghost s = self@;
        self.put_default_workspace(name);
        proof {
            lemma_wf_kept(s, self@);
        }
    }

    /// The workspace to start in.
    fn get_default_workspace(&self) -> (name: String)
        ensures
            name@ == self@.starting_workspace(),
    {
        match self.default_workspace_copy() {
            Some(name) => name,
            None => DEFAULT_WORKSPACE.to_owned(),
        }
    }

    /// The workspace that a client looks at.
    pub fn active_workspace_for_client(&self, client_id: ClientId) -> (name: String)
        ensures
            name@ == self@.workspace_of(client_id),
    {
        match self.client_ref(client_id) {
            Some(info) => match duplicate_text(&info.active_workspace) {
                Some(name) => name,
                None => self.get_default_workspace(),
            },
            None => self.get_default_workspace(),
        }
    }

    /// The workspace that the current identity looks at.
    pub fn active_workspace(&self) -> (name: String)
        ensures
            name@ == self@.active_workspace(),
    {
        match self.get_identity() {
            Some(client_id) => self.active_workspace_for_client(client_id),
            None => self.get_default_workspace(),
        }
    }

    /// Whether no pane was counted in the active workspace.
    pub fn is_active_workspace_empty(&self) -> (empty: bool)
        ensures
            empty == (!self@.pane_counts.contains_key(self@.active_workspace())
                || self@.pane_counts[self@.active_workspace()] == 0),
    {
        let workspace = self.active_workspace();
        self.is_workspace_empty(workspace.as_str())
    }

    /// Turns a client to a workspace.
    pub fn set_active_workspace_for_client(&mut self, client_id: ClientId, workspace: &str)
        requires
            old(self)@.wf(),
        ensures
            final(self)@ == old(self)@.workspace_chosen(client_id, workspace@),
            final(self)@.wf(),
    {
        let ghost s = self@;
        match self.take_client(client_id) {
            Some(mut info) => {
                info.active_workspace = Some(workspace.to_owned());
                self.put_client(client_id, info);
                self.ask(Effect::Notify(MuxNotification::ActiveWorkspaceChanged(client_id)));
                proof {
                    assert(self@.clients =~= s.workspace_chosen(client_id, workspace@).clients);
                    lemma_clients_changed(s, self@);
                }
            },
            None => {
                assert(self@.clients =~= s.clients);
            },
        }
    }

    /// Turns the current identity to a workspace.
    pub fn set_active_workspace(&mut self, workspace: &str)
        requires
            old(self)@.wf(),
        ensures
            final(self)@ == (match old(self)@.identity {
                Some(c) => old(self)@.workspace_chosen(c, workspace@),
                None => old(self)@,
            }),
            final(self)@.wf(),
    {
        if let Some(client_id) = self.get_identity() {
            self.set_active_workspace_for_client(client_id, workspace);
        }
    }

    /// Hands the windows of a workspace to another.
    fn move_windows(&mut self, from: &str, to: &str)
        ensures
            final(self)@ == old(self)@.windows_moved(from@, to@),
    {
        let ghost s = self@;
        let ghost wanted = s.windows_moved(from@, to@).windows;
        let ids = self.window_ids();
        let mut i: usize = 0;
        while i < ids.len()
            invariant
                wanted == s.windows_moved(from@, to@).windows,
                ascending(ids@, s.windows.dom()),
                i <= ids@.len(),
                self@ == (MuxState { windows: self@.windows, ..s }),
                self@.windows.dom() == s.windows.dom(),
                forall|j: int| 0 <= j < i ==> self@.windows[#[trigger] ids@[j]] == wanted[ids@[j]],
                forall|j: int|
                    i <= j < ids@.len() ==> self@.windows[#[trigger] ids@[j]] == s.windows[ids@[j]],
            decreases ids@.len() - i,
        {
            let id = ids[i];
            let ghost mid = self@;
            proof {
                assert(ids@.contains(id));
                assert(s.windows.contains_key(id));
            }
            if let Some(mut window) = self.take_window(id) {
                if same_text(window.workspace.as_str(), from) {
                    window.set_workspace(to);
                }
                self.put_window(id, window);
            }
            i = i + 1;
            proof {
                assert(self@.windows.dom() =~= s.windows.dom());
                assert forall|j: int| 0 <= j < ids@.len() && j != i - 1 implies self@.windows[#[trigger] ids@[j]]
                    == mid.windows[ids@[j]] by {
                    assert(ids@[j] != id);
                }
            }
        }
        proof {
            assert(self@.windows =~= wanted) by {
                assert forall|w: WindowId| #[trigger] s.windows.contains_key(w) implies self@.windows[w]
                    == wanted[w] by {
                    assert(s.windows.dom().contains(w));
                    let j = ids@.index_of(w);
                    assert(ids@[j] == w);
                }
            }
        }
    }

    /// Turns the clients that chose a workspace to another.
    fn move_clients(&mut self, from: &str, to: &str)
        ensures
            final(self)@ == old(self)@.clients_moved(from@, to@),
    {
        let ghost s = self@;
        let ghost wanted = s.clients_moved(from@, to@).clients;
        let ghost moved = s.clients_in(from@);
        let ghost told = |c: ClientId| Deed::Notify(Notice::ActiveWorkspaceChanged(c));
        let ids = self.client_ids();
        let mut i: usize = 0;
        proof {
            lemma_picked_none(ids@, moved);
            assert(s.effects =~= s.effects + picked(ids@.take(0), moved).map_values(told));
        }
        while i < ids.len()
            invariant
                wanted == s.clients_moved(from@, to@).clients,
                moved == s.clients_in(from@),
                told == (|c: ClientId| Deed::Notify(Notice::ActiveWorkspaceChanged(c))),
                ascending(ids@, s.clients.dom()),
                i <= ids@.len(),
                self@ == (MuxState { clients: self@.clients, effects: self@.effects, ..s }),
                self@.effects == s.effects + picked(ids@.take(i as int), moved).map_values(told),
                self@.clients.dom() == s.clients.dom(),
                forall|j: int| 0 <= j < i ==> self@.clients[#[trigger] ids@[j]] == wanted[ids@[j]],
                forall|j: int|
                    i <= j < ids@.len() ==> self@.clients[#[trigger] ids@[j]] == s.clients[ids@[j]],
            decreases ids@.len() - i,
        {
            let id = ids[i];
            let ghost mid = self@;
            proof {
                assert(ids@.contains(id));
                assert(s.clients.contains_key(id));
                lemma_picked_step(ids@, i as int, moved);
            }
            if let Some(mut info) = self.take_client(id) {
                let hit = match &info.active_workspace {
                    Some(name) => same_text(name.as_str(), from),
                    None => false,
                };
                assert(hit == moved.contains(id));
                if hit {
                    info.active_workspace = Some(to.to_owned());
                    self.put_client(id, info);
                    self.ask(Effect::Notify(MuxNotification::ActiveWorkspaceChanged(id)));
                    proof {
                        let front = picked(ids@.take(i as int), moved);
                        assert(front.push(id).map_values(told) =~= front.map_values(told).push(
                            told(id),
                        ));
                        assert(self@.effects =~= s.effects + front.push(id).map_values(told));
                    }
                } else {
                    self.put_client(id, info);
                }
            }
            i = i + 1;
            proof {
                assert(self@.clients.dom() =~= s.clients.dom());
                assert(self@.clients[id] == wanted[id]);
                assert forall|j: int| 0 <= j < ids@.len() && j != i - 1 implies self@.clients[#[trigger] ids@[j]]
                    == mid.clients[ids@[j]] by {
                    assert(ids@[j] != id);
                }
            }
        }
        proof {
            assert(self@.clients =~= wanted) by {
                assert forall|c: ClientId| #[trigger] s.clients.contains_key(c) implies self@.clients[c]
                    == wanted[c] by {
                    assert(s.clients.dom().contains(c));
                    let j = ids@.index_of(c);
                    assert(ids@[j] == c);
                }
            }
            assert(ids@.take(i as int) =~= ids@);
            lemma_picked(ids@, s.clients.dom(), moved);
        }
    }

    /// Gives a workspace another name, in all windows and for all clients that
    /// chose it.
    pub fn rename_workspace(&mut self, old_workspace: &str, new_workspace: &str)
        requires
            old(self)@.wf(),
        ensures
            final(self)@ == old(self)@.workspace_renamed(old_workspace@, new_workspace@),
            final(self)@.wf(),
    {
        if same_text(old_workspace, new_workspace) {
            return ;
        }
        let ghost s = self@;
        self.ask(
            Effect::Notify(
                MuxNotification::WorkspaceRenamed {
                    old_workspace: old_workspace.to_owned(),
                    new_workspace: new_workspace.to_owned(),
                },
            ),
        );
        let ghost a = self@;
        self.move_windows(old_workspace, new_workspace);
        let ghost b = self@;
        proof {
            lemma_same_tables(s, a);
            lemma_windows_moved(a, old_workspace@, new_workspace@);
        }
        self.recompute_pane_count();
        let ghost c = self@;
        proof {
            lemma_same_tables(b, c);
        }
        self.move_clients(old_workspace, new_workspace);
        proof {
            lemma_clients_changed(c, self@);
        }
    }
}

} // verus!
