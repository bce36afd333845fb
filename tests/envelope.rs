use my_ws::dispatch::{route, route_frame, DispatchTable, Inbound};
use my_ws::envelope::{decode, encode, frame, WsIoMsg};
use serde_json::Value;
use tokio_tungstenite::tungstenite::protocol::Message;

fn table(paths: &[&str]) -> DispatchTable {
    DispatchTable::build(paths.iter().map(|p| p.to_string()).collect())
}

#[test]
fn encode_then_decode_gives_back_the_envelope() {
    let msg = WsIoMsg { path: "echo".to_string(), payload: Value::String("hello".to_string()) };
    let text = encode(&msg);
    assert_eq!(text, "{\"path\":\"echo\",\"payload\":\"hello\"}");
    let back = decode(&text).unwrap();
    assert_eq!(back.path, msg.path);
    assert_eq!(back.payload, msg.payload);
}

#[test]
fn encode_quotes_the_path() {
    let msg = WsIoMsg { path: "a\"b".to_string(), payload: Value::Null };
    assert_eq!(encode(&msg), "{\"path\":\"a\\\"b\",\"payload\":null}");
}

#[test]
fn frame_joins_the_pieces() {
    assert_eq!(frame("\"p\"", "[1,2]"), "{\"path\":\"p\",\"payload\":[1,2]}");
}

#[test]
fn decode_rejects_malformed_text() {
    assert!(decode("not json").is_none());
    assert!(decode("[\"echo\", 1]").is_none());
    assert!(decode("{\"path\":\"echo\"}").is_none());
    assert!(decode("{\"payload\":1}").is_none());
    assert!(decode("{\"path\":5,\"payload\":1}").is_none());
    assert!(decode("").is_none());
}

#[test]
fn decode_keeps_structured_payloads_and_ignores_extra_fields() {
    let m = decode("{\"payload\":{\"a\":[1,true]},\"path\":\"p\",\"x\":0}").unwrap();
    assert_eq!(m.path, "p");
    assert_eq!(m.payload, serde_json::from_str::<Value>("{\"a\":[1,true]}").unwrap());
}

#[test]
fn last_registration_of_a_path_wins() {
    let t = table(&["echo", "other", "echo"]);
    assert_eq!(t.len(), 3);
    assert_eq!(t.lookup(&"echo".to_string()), Some(2));
    assert_eq!(t.lookup(&"other".to_string()), Some(1));
    assert_eq!(t.lookup(&"ech".to_string()), None);
    assert_eq!(table(&[]).lookup(&"echo".to_string()), None);
}

#[test]
fn malformed_frames_invoke_nothing() {
    let t = table(&["echo"]);
    assert!(matches!(route(&t, "garbage"), Inbound::Malformed));
    assert!(matches!(route(&t, "{\"path\":\"echo\"}"), Inbound::Malformed));
    assert!(matches!(route(&t, "{\"path\":null,\"payload\":1}"), Inbound::Malformed));
}

#[test]
fn unknown_paths_invoke_nothing() {
    let t = table(&["echo"]);
    match route(&t, "{\"path\":\"nope\",\"payload\":1}") {
        Inbound::UnknownPath(p) => assert_eq!(p, "nope"),
        other => panic!("unexpected {:?}", other),
    }
}

#[test]
fn known_path_invokes_its_handler_with_the_payload() {
    let t = table(&["a", "echo"]);
    match route(&t, "{\"path\":\"echo\",\"payload\":\"ping\"}") {
        Inbound::Invoke { handler, path, payload } => {
            assert_eq!(handler, 1);
            assert_eq!(path, "echo");
            assert_eq!(payload, Value::String("ping".to_string()));
        }
        other => panic!("unexpected {:?}", other),
    }
}

#[test]
fn non_text_frames_are_ignored() {
    let t = table(&["echo"]);
    assert!(matches!(route_frame(&t, &Message::binary(vec![1u8, 2])), Inbound::Unsupported));
    assert!(matches!(route_frame(&t, &Message::Close(None)), Inbound::Unsupported));
    assert!(matches!(
        route_frame(&t, &Message::text("{\"path\":\"echo\",\"payload\":1}")),
        Inbound::Invoke { handler: 0, .. }
    ));
    assert!(matches!(route_frame(&t, &Message::text("{")), Inbound::Malformed));
}

#[test]
fn duplicate_keys_keep_the_last_value() {
    let m = decode("{\"path\":\"a\",\"payload\":1,\"path\":\"b\"}").unwrap();
    assert_eq!(m.path, "b");
}

#[test]
fn encode_escapes_control_characters_in_the_path() {
    let msg = WsIoMsg { path: "a\u{1}\n\\".to_string(), payload: Value::Bool(false) };
    assert_eq!(encode(&msg), "{\"path\":\"a\\u0001\\n\\\\\",\"payload\":false}");
}
