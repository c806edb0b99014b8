//! Coordination engine of a selective forwarding unit: room codes, signaling
//! messages, the per-peer signaling rules, track fan-out inside a room and
//! the registry of rooms.
//!
//! The engine never touches a socket or a media stack. Every operation
//! updates the in-memory model and says, as a list of actions, what has to
//! be carried out on a peer's transport or connection. The host carries the
//! actions out in the order of an agenda and reports back what happens on
//! transports and connections as events of a session.

pub mod action;
pub mod agenda;
pub mod code;
pub mod error;
pub mod fanout;
pub mod peer;
pub mod room;
pub mod server;
pub mod session;
pub mod signal;
pub mod state;
pub mod text;
pub mod track;
