//! The client side: one upstream connection, reached through a messenger
//! that every client handler shares.
//!
//! The messenger keeps, as ghost state, the texts its queue has taken from
//! it, in order; the contract of `send` speaks of that record.
use crate::channel::{enqueue_text, new_queue, Outbound};
use crate::envelope::{encode, framed, json_quoted, WsIoMsg};
use crate::error::WsError;
use futures_channel::mpsc::UnboundedReceiver;
use serde_json::Value;
use tokio_tungstenite::tungstenite::protocol::Message;
use vstd::prelude::*;

verus! {

/// The entity through which messages are sent to the server.
pub struct Messenger {
    sender: Outbound,
    taken: Ghost<Seq<Seq<char>>>,
}

impl Messenger {
    /// The texts the upstream queue has taken from this messenger, in order.
    pub closed spec fn taken(&self) -> Seq<Seq<char>> {
        self.taken@
    }

    /// Encodes `{path, payload}` and queues it for the server. On success
    /// the encoded envelope is appended to what the queue has taken; a queue
    /// that no longer takes messages (the connection has ended) reports
    /// `SendError` and takes nothing.
    pub fn send(&mut self, path: String, payload: Value) -> (r: Result<(), WsError>)
        ensures
            r is Ok || r matches Err(WsError::SendError),
            r is Ok ==> exists|payload_json: Seq<char>|
                final(self).taken() == old(self).taken().push(
                    framed(json_quoted(path@), payload_json),
                ),
            r is Err ==> final(self).taken() == old(self).taken(),
    {
        let text = encode(&WsIoMsg { path, payload });
        if enqueue_text(&self.sender, &text) {
            self.taken = Ghost(self.taken@.push(text@));
            Ok(())
        } else {
            Err(WsError::SendError)
        }
    }
}

/// A client: the messenger through which its handlers send upstream.
pub struct Client {
    pub messenger: Messenger,
}

impl Client {
    /// A new client, whose messenger writes into a new queue that has taken
    /// nothing yet, and the receiving end of that queue, which the connection
    /// task drains to the server.
    pub fn new() -> (r: (Client, UnboundedReceiver<Message>))
        ensures
            r.0.messenger.taken() == Seq::<Seq<char>>::empty(),
    {
        let (tx, rx) = new_queue();
        (Client { messenger: Messenger { sender: tx, taken: Ghost(Seq::empty()) } }, rx)
    }
}

} // verus!
