//! The clients that are connected to the multiplexer.
use crate::ids::{ClientId, PaneId};
use vstd::prelude::*;

verus! {

/// What is known of a client.
pub struct ClientInfo {
    pub client_id: ClientId,
    /// The workspace that the client looks at, if it chose one.
    pub active_workspace: Option<String>,
    /// When the client last had input, in milliseconds.
    pub last_input_ms: u64,
    pub focused_pane_id: Option<PaneId>,
}

/// What is known of a client.
#[verifier::ext_equal]
pub struct ClientState {
    pub client_id: ClientId,
    pub active_workspace: Option<Seq<char>>,
    pub last_input_ms: u64,
    pub focused_pane_id: Option<PaneId>,
}

/// The contents of a string that may be absent.
pub open spec fn opt_text(text: Option<String>) -> Option<Seq<char>> {
    match text {
        Some(s) => Some(s@),
        None => None,
    }
}

impl View for ClientInfo {
    type V = ClientState;

    open spec fn view(&self) -> ClientState {
        ClientState {
            client_id: self.client_id,
            active_workspace: opt_text(self.active_workspace),
            last_input_ms: self.last_input_ms,
            focused_pane_id: self.focused_pane_id,
        }
    }
}

/// A copy of a string that may be absent.
pub fn duplicate_text(text: &Option<String>) -> (copy: Option<String>)
    ensures
        opt_text(copy) == opt_text(*text),
{
    match text {
        Some(s) => Some(s.clone()),
        None => None,
    }
}

impl ClientInfo {
    /// A client that has just connected.
    pub fn new(client_id: ClientId, now: u64) -> (info: Self)
        ensures
            info@ == (ClientState {
                client_id,
                active_workspace: None,
                last_input_ms: now,
                focused_pane_id: None,
            }),
    {
        ClientInfo { client_id, active_workspace: None, last_input_ms: now, focused_pane_id: None }
    }

    pub fn duplicate(&self) -> (info: Self)
        ensures
            info@ == self@,
    {
        ClientInfo {
            client_id: self.client_id,
            active_workspace: duplicate_text(&self.active_workspace),
            last_input_ms: self.last_input_ms,
            focused_pane_id: self.focused_pane_id,
        }
    }
}

} // verus!
