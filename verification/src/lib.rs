//! Verified core of a websocket pub/sub server: channel membership,
//! command handling, the websocket upgrade handshake and the HTTP channel API.

pub mod addr;
pub mod text;
pub mod auth;
pub mod message;
pub mod channel;
pub mod connection;
pub mod api;
pub mod ws;
pub mod server;
