//! The bookkeeping at the heart of a terminal multiplexer.
//!
//! A multiplexer keeps panes in tabs and tabs in windows, knows the domains in
//! which the panes run and the clients that look at them, and prunes what is
//! dead. All of that is plain data here. Whatever the multiplexer wants done, be
//! it telling subscribers or ending a program, is put on a list that the host
//! fetches and works through.

pub mod actions;
pub mod activity;
pub mod client;
pub mod client_laws;
pub mod clients;
pub mod clipboard;
pub mod count_laws;
pub mod counting;
pub mod domain;
pub mod domains;
pub mod error;
pub mod focus;
pub mod global;
pub mod growth;
pub mod growth_laws;
pub mod host;
pub mod id_map;
pub mod ids;
pub mod laws;
pub mod listener;
pub mod listener_laws;
pub mod lookup;
pub mod lookup_laws;
pub mod move_laws;
pub mod name_map;
pub mod notification;
pub mod parser;
pub mod parser_laws;
pub mod pruning;
pub mod pruning_laws;
pub mod reader;
pub mod reader_laws;
pub mod removal;
pub mod spawn;
pub mod state;
pub mod store;
pub mod subscribers;
pub mod survival_laws;
pub mod tab;
pub mod text;
pub mod win_child;
pub mod window;
pub mod workspaces;

pub use activity::Activities;
pub use clients::IdentityHolder;
pub use error::{MuxError, SessionTerminated};
pub use growth::MuxWindowBuilder;
pub use notification::{Effect, MuxNotification};
pub use state::DEFAULT_WORKSPACE;
pub use store::Mux;
