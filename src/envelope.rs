//! The envelope `{path, payload}` and its JSON wire form.
//!
//! The payload is an opaque JSON value; serde_json writes and reads the JSON
//! itself. The envelope's own shape (an object whose "path" names the route
//! and whose "payload" carries the value) is framed and checked here.
use serde_json::Value;
use vstd::prelude::*;

verus! {

/// serde_json's JSON value, carried through opaque as a payload.
#[verifier::external_type_specification]
#[verifier::external_body]
pub struct ExValue(Value);

/// The fundamental unit passed between client and server.
#[derive(Debug)]
pub struct WsIoMsg {
    pub path: String,
    pub payload: Value,
}

/// The lower-case hexadecimal digit of `n`, for `n < 16`.
pub open spec fn hex_digit(n: int) -> char {
    seq!['0', '1', '2', '3', '4', '5', '6', '7', '8', '9', 'a', 'b', 'c', 'd', 'e', 'f'][n]
}

/// How serde_json writes the character `c` inside a JSON string: `"` and
/// `\` escaped, the short escapes for backspace, tab, line feed, form feed
/// and carriage return, `\u00XX` for the other control characters, and any
/// other character as it is.
pub open spec fn escaped(c: char) -> Seq<char> {
    if c == '"' {
        seq!['\\', '"']
    } else if c == '\\' {
        seq!['\\', '\\']
    } else if c == '\u{8}' {
        seq!['\\', 'b']
    } else if c == '\t' {
        seq!['\\', 't']
    } else if c == '\n' {
        seq!['\\', 'n']
    } else if c == '\u{c}' {
        seq!['\\', 'f']
    } else if c == '\r' {
        seq!['\\', 'r']
    } else if (c as u32) < 0x20 {
        seq!['\\', 'u', '0', '0', hex_digit((c as u32) as int / 16), hex_digit((c as u32) as int % 16)]
    } else {
        seq![c]
    }
}

/// The characters of `s`, each written as `escaped` says.
pub open spec fn escaped_text(s: Seq<char>) -> Seq<char>
    decreases s.len(),
{
    if s.len() == 0 {
        Seq::empty()
    } else {
        escaped_text(s.drop_last()) + escaped(s.last())
    }
}

/// The JSON string literal that serde_json writes for the text `s`.
pub open spec fn json_quoted(s: Seq<char>) -> Seq<char> {
    seq!['"'] + escaped_text(s) + seq!['"']
}

/// The fields of the JSON object that serde_json reads from `text`, each key
/// once: its key, and its value's text when that value is a JSON string; or
/// `None` when `text` is not one JSON object.
pub uninterp spec fn json_object_fields(text: Seq<char>) -> Option<
    Seq<(Seq<char>, Option<Seq<char>>)>,
>;

/// Relies on serde_json::to_string on a `str`: the JSON string literal of
/// `s`. Writing into its in-memory buffer cannot fail.
#[verifier::external_body]
fn quote(s: &str) -> (r: Option<String>)
    ensures
        r is Some,
        r matches Some(q) ==> q@ == json_quoted(s@),
{
    serde_json::to_string(s).ok()
}

/// Relies on serde_json::to_string on a `Value`: its JSON text. A `Value`
/// always serializes: its map keys are strings, and it writes into memory.
#[verifier::external_body]
fn value_json(v: &Value) -> (r: Option<String>)
    ensures
        r is Some,
{
    serde_json::to_string(v).ok()
}

/// The view of an optional string.
pub open spec fn opt_view(s: Option<String>) -> Option<Seq<char>> {
    match s {
        Some(t) => Some(t@),
        None => None,
    }
}

/// The key and string text of one parsed field.
pub open spec fn field_view(e: (String, Option<String>, Value)) -> (Seq<char>, Option<Seq<char>>) {
    (e.0@, opt_view(e.1))
}

/// Relies on serde_json::from_str into a `serde_json::Map<String, Value>`:
/// the fields of the JSON object that `text` holds, each key once, each with
/// its value's text when `Value::as_str` finds a string there.
#[verifier::external_body]
fn parse_object(text: &str) -> (r: Option<Vec<(String, Option<String>, Value)>>)
    ensures
        match r {
            Some(entries) => json_object_fields(text@) == Some(entries@.map_values(|e| field_view(e))),
            None => json_object_fields(text@) is None,
        },
{
    serde_json::from_str::<serde_json::Map<String, Value>>(text).ok().map(
        |m| m.into_iter().map(|(k, v)| (k, v.as_str().map(String::from), v)).collect(),
    )
}

/// The value of the last field of `fields` whose key is `k`, if any.
pub open spec fn field_of(fields: Seq<(Seq<char>, Option<Seq<char>>)>, k: Seq<char>) -> Option<
    Option<Seq<char>>,
>
    decreases fields.len(),
{
    if fields.len() == 0 {
        None
    } else if fields.last().0 == k {
        Some(fields.last().1)
    } else {
        field_of(fields.drop_last(), k)
    }
}

/// The path of the envelope that `text` holds: `text` is a JSON object with
/// a "payload" field and a "path" field whose value is a JSON string.
pub open spec fn envelope_path(text: Seq<char>) -> Option<Seq<char>> {
    match json_object_fields(text) {
        Some(fields) => match field_of(fields, "path"@) {
            Some(Some(p)) => if field_of(fields, "payload"@) is Some {
                Some(p)
            } else {
                None
            },
            _ => None,
        },
        None => None,
    }
}

/// The wire form of an envelope whose path and payload are already written
/// as JSON.
pub open spec fn framed(path_json: Seq<char>, payload_json: Seq<char>) -> Seq<char> {
    "{\"path\":"@ + path_json + ",\"payload\":"@ + payload_json + "}"@
}

/// Frames the JSON of a path and of a payload as one envelope object.
pub fn frame(path_json: &str, payload_json: &str) -> (r: String)
    ensures
        r@ == framed(path_json@, payload_json@),
{
    let mut r = String::from_str("{\"path\":");
    r.append(path_json);
    r.append(",\"payload\":");
    r.append(payload_json);
    r.append("}");
    r
}

/// Encodes an envelope as JSON text: an object with the path as a JSON
/// string and the payload as serde_json writes it.
pub fn encode(msg: &WsIoMsg) -> (r: String)
    ensures
        exists|payload_json: Seq<char>| r@ == framed(json_quoted(msg.path@), payload_json),
{
    let path_json = quote(msg.path.as_str()).unwrap();
    let payload_json = value_json(&msg.payload).unwrap();
    frame(path_json.as_str(), payload_json.as_str())
}

/// Decodes JSON text as an envelope: exactly when the text is a JSON object
/// with a "payload" field and a "path" field that is a JSON string.
pub fn decode(text: &str) -> (r: Option<WsIoMsg>)
    ensures
        match envelope_path(text@) {
            Some(p) => r matches Some(m) && m.path@ == p,
            None => r is None,
        },
{
    let mut entries = match parse_object(text) {
        Some(e) => e,
        None => return None,
    };
    let ghost all = entries@.map_values(|e| field_view(e));
    let path_key = String::from_str("path");
    let payload_key = String::from_str("payload");
    let mut path: Option<Option<String>> = None;
    let mut payload: Option<Value> = None;
    proof {
        reveal_strlit("path");
        reveal_strlit("payload");
        assert("path"@.len() != "payload"@.len());
        assert(all.take(entries@.len() as int) =~= all);
    }
    while entries.len() > 0
        invariant
            entries@.len() <= all.len(),
            entries@.map_values(|e| field_view(e)) == all.take(entries@.len() as int),
            path_key@ == "path"@,
            payload_key@ == "payload"@,
            "path"@ != "payload"@,
            match path {
                Some(v) => field_of(all, "path"@) == Some(opt_view(v)),
                None => field_of(all, "path"@) == field_of(all.take(entries@.len() as int), "path"@),
            },
            payload is Some ==> field_of(all, "payload"@) is Some,
            payload is None ==> field_of(all, "payload"@) == field_of(
                all.take(entries@.len() as int),
                "payload"@,
            ),
        decreases entries@.len(),
    {
        let ghost n = entries@.len() - 1;
        let ghost pre = all.take(entries@.len() as int);
        assert(pre.drop_last() =~= all.take(n));
        assert(pre.last() == field_view(entries@[n]));
        let (key, as_text, value) = entries.pop().unwrap();
        assert(entries@.map_values(|e| field_view(e)) =~= all.take(n));
        if key == path_key {
            if path.is_none() {
                path = Some(as_text);
            }
        } else if key == payload_key {
            if payload.is_none() {
                payload = Some(value);
            }
        }
    }
    assert(all.take(0) =~= Seq::<(Seq<char>, Option<Seq<char>>)>::empty());
    match (path, payload) {
        (Some(Some(path)), Some(payload)) => Some(WsIoMsg { path, payload }),
        _ => None,
    }
}

} // verus!
