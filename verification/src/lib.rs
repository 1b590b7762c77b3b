//! Relay between "now playing" WebSocket clients and a single presence handle.
//!
//! The crate holds the verified core of the relay: the wire protocol and its
//! codec, the per-connection session state machine, and the construction of
//! presence payloads. The surrounding I/O (sockets, the WebSocket handshake,
//! the presence provider itself) lives outside the library and hands it plain
//! values.

pub mod presence;
pub mod protocol;
pub mod services;
pub mod session;
