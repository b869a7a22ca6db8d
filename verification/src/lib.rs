//! Session registry and relay rules of a WebRTC signaling server.
//!
//! Senders (video sources) and receivers (viewers) connect over a websocket,
//! are registered under a random session id, learn about each other through
//! sender lists, and exchange signaling messages that the server relays to
//! the peer named in each message. The server itself (sockets, timers,
//! logging) lives outside this crate and drives the step functions here.

pub mod text;
pub mod protocol;
pub mod registry;
pub mod json;
pub mod session;
pub mod relay;
pub mod connection;
pub mod static_files;
pub mod laws;
