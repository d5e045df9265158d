//! A multi-client message relay: a length-prefixed wire protocol, a
//! shared-secret handshake, a connection registry with fan-out, and the
//! decisions of the interactive client.
pub mod message;
pub mod codec;
pub mod frame;
pub mod auth;
pub mod registry;
pub mod relay;
pub mod client;
pub mod error;
pub mod timestamp;
pub mod connection;
