//! The outbound queues of connections: futures-channel's unbounded queues of
//! tungstenite messages.
use futures_channel::mpsc::{unbounded, UnboundedReceiver, UnboundedSender};
use tokio_tungstenite::tungstenite::protocol::frame::{CloseFrame, Frame, Utf8Bytes};
use tokio_tungstenite::tungstenite::protocol::Message;
use tokio_tungstenite::tungstenite::Bytes;
use vstd::prelude::*;

verus! {

/// tungstenite's WebSocket message: its variants are visible, what they
/// carry is not.
#[verifier::external_type_specification]
pub struct ExMessage(Message);

/// tungstenite's UTF-8 text buffer, carried through opaque.
#[verifier::external_type_specification]
#[verifier::external_body]
pub struct ExUtf8Bytes(Utf8Bytes);

/// The bytes crate's byte buffer, as tungstenite re-exports it; opaque.
#[verifier::external_type_specification]
#[verifier::external_body]
pub struct ExBytes(Bytes);

/// tungstenite's close frame, carried through opaque.
#[verifier::external_type_specification]
#[verifier::external_body]
pub struct ExCloseFrame(CloseFrame);

/// tungstenite's raw frame, carried through opaque.
#[verifier::external_type_specification]
#[verifier::external_body]
pub struct ExFrame(Frame);

/// futures-channel's sending end of an unbounded queue, carried through opaque.
#[verifier::external_type_specification]
#[verifier::external_body]
#[verifier::reject_recursive_types(T)]
pub struct ExUnboundedSender<T>(UnboundedSender<T>);

/// futures-channel's receiving end of an unbounded queue, carried through opaque.
#[verifier::external_type_specification]
#[verifier::external_body]
#[verifier::reject_recursive_types(T)]
pub struct ExUnboundedReceiver<T>(UnboundedReceiver<T>);

/// The sending side of a connection's outbound queue.
pub type Outbound = UnboundedSender<Message>;

/// Relies on futures_channel::mpsc::unbounded: a fresh queue, its two ends.
#[verifier::external_body]
pub(crate) fn new_queue() -> (Outbound, UnboundedReceiver<Message>) {
    unbounded()
}

/// Relies on futures_channel::mpsc::UnboundedSender::unbounded_send, with the
/// text wrapped as a tungstenite text message. Whether the queue still takes
/// messages depends on its receiver, so nothing is promised of the outcome:
/// `true` when the message was queued, `false` when it was refused.
#[verifier::external_body]
pub(crate) fn enqueue_text(queue: &Outbound, text: &String) -> (queued: bool) {
    queue.unbounded_send(Message::text(text.clone())).is_ok()
}

/// Relies on tungstenite's Utf8Bytes::as_str: the text the buffer holds.
#[verifier::external_body]
pub(crate) fn utf8_text(t: &Utf8Bytes) -> (r: String) {
    t.as_str().to_string()
}

} // verus!
