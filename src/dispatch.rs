//! The dispatch table, from path to handler, and the decision taken for one
//! inbound text frame.
//!
//! A handler is known here by its position in the list the table was built
//! from; the embedding program holds the handlers themselves in that order.
use crate::channel::utf8_text;
use crate::envelope::{decode, envelope_path, WsIoMsg};
use serde_json::Value;
use tokio_tungstenite::tungstenite::protocol::Message;
use vstd::prelude::*;

verus! {

/// The position of the last entry of `paths` equal to `p`, if any: the last
/// registration of a path wins.
pub open spec fn last_index(paths: Seq<Seq<char>>, p: Seq<char>) -> Option<int>
    decreases paths.len(),
{
    if paths.len() == 0 {
        None
    } else if paths.last() == p {
        Some(paths.len() - 1)
    } else {
        last_index(paths.drop_last(), p)
    }
}

/// `last_index` names an entry equal to `p`, with none equal to it after it,
/// and is `None` only when no entry equals `p`.
pub proof fn lemma_last_index(paths: Seq<Seq<char>>, p: Seq<char>)
    ensures
        match last_index(paths, p) {
            Some(i) => 0 <= i < paths.len() && paths[i] == p && forall|j: int|
                i < j < paths.len() ==> paths[j] != p,
            None => forall|j: int| 0 <= j < paths.len() ==> paths[j] != p,
        },
    decreases paths.len(),
{
    if paths.len() > 0 && paths.last() != p {
        lemma_last_index(paths.drop_last(), p);
        assert forall|j: int| 0 <= j < paths.len() - 1 implies paths[j] == paths.drop_last()[j] by {}
    }
}

/// Maps each path to a handler, by exact match. Built once, then only read.
#[derive(Debug)]
pub struct DispatchTable {
    paths: Vec<String>,
}

impl View for DispatchTable {
    type V = Seq<Seq<char>>;

    /// The paths the table was built from, in order.
    closed spec fn view(&self) -> Seq<Seq<char>> {
        self.paths@.map_values(|p: String| p@)
    }
}

impl DispatchTable {
    /// The handler for `p`, if any.
    pub open spec fn handler_for(&self, p: Seq<char>) -> Option<int> {
        last_index(self@, p)
    }

    /// Builds the table from the paths of the handlers, in registration order:
    /// handler `i` serves `paths[i]`. A path given twice is served by its last
    /// handler.
    pub fn build(paths: Vec<String>) -> (r: DispatchTable)
        ensures
            r@ == paths@.map_values(|p: String| p@),
    {
        DispatchTable { paths }
    }

    /// The number of handlers the table was built from.
    pub fn len(&self) -> (r: usize)
        ensures
            r == self@.len(),
    {
        self.paths.len()
    }

    /// The handler registered for `path`, by exact match.
    pub fn lookup(&self, path: &String) -> (r: Option<usize>)
        ensures
            match r {
                Some(h) => self.handler_for(path@) == Some(h as int) && h < self@.len(),
                None => self.handler_for(path@) is None,
            },
    {
        let mut i: usize = self.paths.len();
        assert(self@.take(i as int) =~= self@);
        while i > 0
            invariant
                i <= self.paths@.len(),
                last_index(self@, path@) == last_index(self@.take(i as int), path@),
            decreases i,
        {
            let ghost t = self@.take(i as int);
            assert(t.drop_last() =~= self@.take(i - 1));
            assert(t.last() == self.paths@[i - 1]@);
            if self.paths[i - 1] == *path {
                return Some(i - 1);
            }
            i = i - 1;
        }
        None
    }
}

/// What the inbound side does with one text frame. There is no variant that
/// ends the connection: a frame never does.
#[derive(Debug)]
pub enum Inbound {
    /// Invoke handler `handler` with the payload.
    Invoke { handler: usize, path: String, payload: Value },
    /// The envelope is sound but no handler serves its path: ignore it.
    UnknownPath(String),
    /// The frame is not an envelope: ignore it.
    Malformed,
    /// The frame is not a text frame: ignore it.
    Unsupported,
}

/// What the inbound side decides for an envelope with path `p`, or for the
/// absence of one, against a table built from `paths`.
pub open spec fn decided(paths: Seq<Seq<char>>, p: Option<Seq<char>>, r: Inbound) -> bool {
    match p {
        None => r is Malformed,
        Some(p) => match last_index(paths, p) {
            Some(h) => r matches Inbound::Invoke { handler, path, .. } && handler == h && path@
                == p,
            None => r matches Inbound::UnknownPath(q) && q@ == p,
        },
    }
}

/// What the inbound side decides for the text frame `text`.
pub open spec fn routed(paths: Seq<Seq<char>>, text: Seq<char>, r: Inbound) -> bool {
    decided(paths, envelope_path(text), r)
}

/// Decides what to do with an envelope, or with the absence of one.
pub fn dispatch(table: &DispatchTable, decoded: Option<WsIoMsg>) -> (r: Inbound)
    ensures
        decided(
            table@,
            match decoded {
                Some(m) => Some(m.path@),
                None => None,
            },
            r,
        ),
        decoded matches Some(m) ==> (r matches Inbound::Invoke { handler, payload, .. } ==> payload
            == m.payload && handler < table@.len()),
{
    match decoded {
        None => Inbound::Malformed,
        Some(m) => match table.lookup(&m.path) {
            Some(h) => Inbound::Invoke { handler: h, path: m.path, payload: m.payload },
            None => Inbound::UnknownPath(m.path),
        },
    }
}

/// Decodes a text frame and decides what to do with it: the handler its
/// path names is invoked; malformed text and unknown paths are ignored, and
/// neither invokes a handler.
pub fn route(table: &DispatchTable, text: &str) -> (r: Inbound)
    ensures
        routed(table@, text@, r),
        r matches Inbound::Invoke { handler, .. } ==> handler < table@.len(),
{
    dispatch(table, decode(text))
}

/// Decides what to do with one inbound frame: a text frame is routed as an
/// envelope, any other frame is ignored. No frame ends the connection.
pub fn route_frame(table: &DispatchTable, frame: &Message) -> (r: Inbound)
    ensures
        !(frame is Text) ==> r is Unsupported,
        frame is Text ==> exists|text: Seq<char>| routed(table@, text, r),
        r matches Inbound::Invoke { handler, .. } ==> handler < table@.len(),
{
    match frame {
        Message::Text(t) => route(table, utf8_text(t).as_str()),
        _ => Inbound::Unsupported,
    }
}

} // verus!
