//! One participant of a gossiping broadcast cluster.
//!
//! A node answers requests (echo, unique identifiers, topology, broadcast,
//! read), merges the gossip of its peers into its grow-only set of broadcast
//! values, and on every tick tells its neighbours all it knows. This crate
//! holds the message envelope ([`message`]), the payloads and events
//! ([`payload`]), the node itself ([`state`]), the identifiers it hands out
//! ([`ident`]), the queue that orders its work ([`mailbox`]) and the policy
//! for failures ([`error`]). What holds of nodes over many events is proved
//! in [`laws`], and that gossip reaches every connected node in
//! [`convergence`].

pub mod convergence;
pub mod error;
pub mod ident;
pub mod laws;
pub mod mailbox;
pub mod message;
pub mod payload;
pub mod sets;
pub mod state;

pub use message::{Body, Message};
pub use payload::{Event, InjectedPayload, Payload, Topology};
pub use state::Node;
