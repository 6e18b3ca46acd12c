//! A Pusher-protocol WebSocket server's logic: REST request signing,
//! channel authorization, channel and presence bookkeeping, fan-out
//! decisions and the JSON frames of the protocol.

pub mod bytes;
pub mod crypto;
pub mod query;
pub mod clock;
pub mod rest_auth;
pub mod json;
pub mod state;
pub mod channel_auth;
pub mod rate;
pub mod channels;
pub mod roster;
pub mod session;
pub mod api;
pub mod config;
pub mod webhook;
pub mod connection;
pub mod laws;
