//! The library's error type.
use crate::scope::Endpoint;
use vstd::prelude::*;

verus! {

/// What can go wrong when a message is sent, or a connection set up.
#[derive(Debug)]
pub enum WsError {
    /// The single upstream queue of a client refused the message.
    SendError,
    /// A send to `Origin` found its own connection no longer registered.
    ClientNotFound,
    /// The message was handed to every other recipient, but these ones
    /// refused it.
    FailedToSend(Vec<Endpoint>),
    /// Binding, connecting or the handshake failed.
    Transport(String),
}

} // verus!
