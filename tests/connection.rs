use futures_channel::mpsc::unbounded;
use my_ws::connection::{Connection, Phase};
use my_ws::dispatch::{DispatchTable, Inbound};
use my_ws::error::WsError;
use my_ws::registry::Registry;
use my_ws::scope::{Endpoint, To};
use tokio_tungstenite::tungstenite::protocol::Message;

#[test]
fn open_registers_and_loop_end_deregisters_once() {
    let id = Endpoint { ip: 5, port: 50 };
    let other = Endpoint { ip: 6, port: 60 };
    let mut reg = Registry::new();
    let (tx, _rx) = unbounded();
    let mut conn = Connection::open(&mut reg, id, tx);
    let (tx2, _rx2) = unbounded();
    let _peer = Connection::open(&mut reg, other, tx2);
    assert_eq!(conn.id(), id);
    assert_eq!(conn.phase(), Phase::Active);
    assert!(reg.contains(id));

    conn.on_loop_end(&mut reg);
    assert_eq!(conn.phase(), Phase::Terminated);
    assert!(!reg.contains(id));
    assert!(reg.contains(other));

    // The abandoned loop ends later: nothing changes.
    conn.on_loop_end(&mut reg);
    assert_eq!(reg.len(), 1);
    assert!(matches!(reg.send(id, &"late".to_string(), To::Origin), Err(WsError::ClientNotFound)));
}

#[test]
fn terminated_connection_dispatches_nothing() {
    let table = DispatchTable::build(vec!["echo".to_string()]);
    let frame = Message::text("{\"path\":\"echo\",\"payload\":1}");
    let mut reg = Registry::new();
    let (tx, _rx) = unbounded();
    let mut conn = Connection::open(&mut reg, Endpoint { ip: 1, port: 1 }, tx);
    assert!(matches!(conn.on_frame(&table, &frame), Some(Inbound::Invoke { handler: 0, .. })));
    assert!(matches!(
        conn.on_frame(&table, &Message::text("nonsense")),
        Some(Inbound::Malformed)
    ));
    conn.on_loop_end(&mut reg);
    assert!(conn.on_frame(&table, &frame).is_none());
}
