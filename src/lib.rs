//! A path-routed message bus over persistent bidirectional connections.
//!
//! The verified core holds the connection registry with its scoped,
//! partial-failure-tolerant broadcast, the immutable dispatch table that maps
//! a path to a handler, the envelope framing, and the client-side messenger.
//! Transport, locking and the handlers themselves live with the embedding
//! program.
pub mod channel;
pub mod client;
pub mod connection;
pub mod dispatch;
pub mod envelope;
pub mod error;
pub mod registry;
pub mod scope;
