use futures_channel::mpsc::{unbounded, UnboundedReceiver};
use my_ws::error::WsError;
use my_ws::registry::Registry;
use my_ws::scope::{Endpoint, To};
use tokio_tungstenite::tungstenite::protocol::Message;

fn ep(port: u16) -> Endpoint {
    Endpoint { ip: 0xffff_7f00_0001, port }
}

fn texts(rx: &mut UnboundedReceiver<Message>) -> Vec<String> {
    let mut out = Vec::new();
    while let Ok(m) = rx.try_recv() {
        match m {
            Message::Text(t) => out.push(t.as_str().to_string()),
            other => panic!("unexpected frame {:?}", other),
        }
    }
    out
}

fn three() -> (Registry, Vec<UnboundedReceiver<Message>>) {
    let mut reg = Registry::new();
    let mut rxs = Vec::new();
    for port in 1..=3u16 {
        let (tx, rx) = unbounded();
        reg.register(ep(port), tx);
        rxs.push(rx);
    }
    (reg, rxs)
}

#[test]
fn all_reaches_every_connection_once() {
    let (mut reg, mut rxs) = three();
    assert!(reg.send(ep(2), &"m1".to_string(), To::All).is_ok());
    assert!(reg.send(ep(2), &"m2".to_string(), To::All).is_ok());
    for rx in rxs.iter_mut() {
        assert_eq!(texts(rx), vec!["m1".to_string(), "m2".to_string()]);
    }
}

#[test]
fn non_origin_skips_the_origin() {
    let (mut reg, mut rxs) = three();
    assert!(reg.send(ep(2), &"m".to_string(), To::NonOrigin).is_ok());
    assert_eq!(texts(&mut rxs[0]), vec!["m".to_string()]);
    assert!(texts(&mut rxs[1]).is_empty());
    assert_eq!(texts(&mut rxs[2]), vec!["m".to_string()]);
}

#[test]
fn origin_reaches_only_the_origin() {
    let (mut reg, mut rxs) = three();
    assert!(reg.send(ep(3), &"m".to_string(), To::Origin).is_ok());
    assert!(texts(&mut rxs[0]).is_empty());
    assert!(texts(&mut rxs[1]).is_empty());
    assert_eq!(texts(&mut rxs[2]), vec!["m".to_string()]);
}

#[test]
fn closed_queues_are_named_and_the_rest_still_receive() {
    let mut reg = Registry::new();
    let mut live = Vec::new();
    for port in 1..=4u16 {
        let (tx, rx) = unbounded();
        reg.register(ep(port), tx);
        if port == 2 || port == 4 {
            drop(rx);
        } else {
            live.push(rx);
        }
    }
    match reg.send(ep(1), &"x".to_string(), To::All) {
        Err(WsError::FailedToSend(names)) => assert_eq!(names, vec![ep(2), ep(4)]),
        other => panic!("unexpected {:?}", other),
    }
    assert_eq!(texts(&mut live[0]), vec!["x".to_string()]);
    assert_eq!(texts(&mut live[1]), vec!["x".to_string()]);
}

#[test]
fn deregistered_connection_is_no_longer_reached() {
    let (mut reg, mut rxs) = three();
    // The connection's inbound side ended with messages still queued.
    assert!(reg.send(ep(1), &"queued".to_string(), To::All).is_ok());
    reg.deregister(ep(2));
    assert!(!reg.contains(ep(2)));
    assert_eq!(reg.len(), 2);
    assert!(matches!(
        reg.send(ep(2), &"late".to_string(), To::Origin),
        Err(WsError::ClientNotFound)
    ));
    assert!(reg.send(ep(2), &"late".to_string(), To::All).is_ok());
    assert_eq!(texts(&mut rxs[1]), vec!["queued".to_string()]);
    assert_eq!(texts(&mut rxs[0]), vec!["queued".to_string(), "late".to_string()]);
}

#[test]
fn deregistering_an_absent_identity_changes_nothing() {
    let (mut reg, _rxs) = three();
    reg.deregister(ep(9));
    assert_eq!(reg.len(), 3);
}

#[test]
fn registering_again_overwrites_the_stale_queue() {
    let mut reg = Registry::new();
    let (old_tx, mut old_rx) = unbounded();
    reg.register(ep(1), old_tx);
    let (new_tx, mut new_rx) = unbounded();
    reg.register(ep(1), new_tx);
    assert_eq!(reg.len(), 1);
    assert!(reg.send(ep(1), &"m".to_string(), To::Origin).is_ok());
    assert!(texts(&mut old_rx).is_empty());
    assert_eq!(texts(&mut new_rx), vec!["m".to_string()]);
}

#[test]
fn empty_registry_sends_to_nobody() {
    let mut reg = Registry::new();
    assert_eq!(reg.len(), 0);
    assert!(reg.send(ep(1), &"m".to_string(), To::All).is_ok());
    assert!(reg.send(ep(1), &"m".to_string(), To::NonOrigin).is_ok());
    assert!(matches!(
        reg.send(ep(1), &"m".to_string(), To::Origin),
        Err(WsError::ClientNotFound)
    ));
}

#[test]
fn resolve_selects_by_scope_in_registry_order() {
    let (reg, _rxs) = three();
    assert_eq!(reg.resolve(ep(2), To::All), vec![ep(1), ep(2), ep(3)]);
    assert_eq!(reg.resolve(ep(2), To::NonOrigin), vec![ep(1), ep(3)]);
    assert_eq!(reg.resolve(ep(2), To::Origin), vec![ep(2)]);
    assert_eq!(reg.resolve(ep(7), To::Origin), vec![]);
}

#[test]
fn origin_with_a_closed_queue_is_named() {
    let mut reg = Registry::new();
    let (tx1, rx1) = unbounded();
    let (tx2, mut rx2) = unbounded();
    reg.register(ep(1), tx1);
    reg.register(ep(2), tx2);
    drop(rx1);
    match reg.send(ep(1), &"m".to_string(), To::Origin) {
        Err(WsError::FailedToSend(names)) => assert_eq!(names, vec![ep(1)]),
        other => panic!("unexpected {:?}", other),
    }
    assert!(texts(&mut rx2).is_empty());
    assert_eq!(reg.len(), 2);
}
