use bytes::Bytes;
use ws_kit::codec::Frame;
use ws_kit::config::WsConfig;
use ws_kit::error::WsError;
use ws_kit::hub::{delivery, reached, BroadcastHub};

#[derive(Clone, Debug, PartialEq)]
struct TestMsg {
    id: u32,
    body: String,
}

fn msg(id: u32, body: &str) -> TestMsg {
    TestMsg {
        id,
        body: body.to_string(),
    }
}

#[test]
fn broadcast_and_subscribe() {
    let hub = BroadcastHub::<TestMsg>::new(16);
    let mut rx1 = hub.subscribe();
    let mut rx2 = hub.subscribe();
    let msg = msg(1, "hi");
    let n = hub.broadcast(msg.clone()).unwrap();
    assert_eq!(n, 2);
    assert_eq!(rx1.try_recv().unwrap(), msg);
    assert_eq!(rx2.try_recv().unwrap(), msg);
}

#[test]
fn broadcast_no_receivers_error() {
    let hub = BroadcastHub::<String>::new(16);
    // No subscriber yet
    let err = hub.broadcast("hello".to_string()).unwrap_err();
    assert_eq!(err, WsError::BroadcastFull);
    // try_broadcast returns 0 instead
    assert_eq!(hub.try_broadcast("hello".to_string()), 0);
}

#[test]
fn connection_count_atomic() {
    let hub = BroadcastHub::<String>::new(8);
    assert_eq!(hub.connection_count(), 0);
    hub.increment_connections(None).unwrap();
    assert_eq!(hub.connection_count(), 1);
    hub.increment_connections(None).unwrap();
    assert_eq!(hub.connection_count(), 2);
    hub.decrement_connections();
    assert_eq!(hub.connection_count(), 1);
    hub.decrement_connections();
    hub.decrement_connections(); // saturate
    assert_eq!(hub.connection_count(), 0);
}

#[test]
fn max_connections_enforced() {
    let hub = BroadcastHub::<String>::new(8);
    hub.increment_connections(Some(2)).unwrap();
    hub.increment_connections(Some(2)).unwrap();
    let err = hub.increment_connections(Some(2)).unwrap_err();
    assert_eq!(err, WsError::TooManyConnections);
}

#[test]
fn clone_shares_counter() {
    let hub = BroadcastHub::<String>::new(8);
    let hub2 = hub.clone();
    hub.increment_connections(None).unwrap();
    assert_eq!(hub2.connection_count(), 1);
}

#[test]
fn clone_shares_channel() {
    let hub = BroadcastHub::<u8>::with_capacity(8);
    let hub2 = hub.clone();
    let mut rx = hub2.subscribe();
    assert_eq!(hub.receiver_count(), 1);
    assert_eq!(hub.broadcast(5), Ok(1));
    assert_eq!(rx.try_recv().unwrap(), 5);
    assert_eq!(hub.sender().receiver_count(), 1);
    drop(rx);
    assert_eq!(hub2.receiver_count(), 0);
}

#[test]
fn hub_broadcast_subscribe() {
    let hub = BroadcastHub::<TestMsg>::new(16);
    let mut rx = hub.subscribe();
    let msg = msg(1, "hello");
    hub.broadcast(msg.clone()).unwrap();
    let got = rx.try_recv().unwrap();
    assert_eq!(got, msg);
}

#[test]
fn hub_multiple_subscribers() {
    let hub = BroadcastHub::<String>::new(16);
    let mut rx1 = hub.subscribe();
    let mut rx2 = hub.subscribe();
    hub.broadcast("hello".to_string()).unwrap();
    assert_eq!(rx1.try_recv().unwrap(), "hello");
    assert_eq!(rx2.try_recv().unwrap(), "hello");
}

#[test]
fn hub_connection_count_limit() {
    let hub = BroadcastHub::<String>::new(8);
    hub.increment_connections(Some(2)).unwrap();
    hub.increment_connections(Some(2)).unwrap();
    assert_eq!(
        hub.increment_connections(Some(2)).unwrap_err(),
        WsError::TooManyConnections
    );
}

#[test]
fn hub_integration_with_config() {
    let cfg = WsConfig::builder().broadcast_capacity(32).build();
    let hub = BroadcastHub::<TestMsg>::from_config(&cfg);
    let mut rx = hub.subscribe();
    hub.broadcast(msg(99, "from_config")).unwrap();
    assert_eq!(rx.try_recv().unwrap().id, 99);
}

#[test]
fn binary_frame_routes_through_hub() {
    let hub = BroadcastHub::<Frame>::new(16);
    let mut rx1 = hub.subscribe();
    let mut rx2 = hub.subscribe();
    let payload = Bytes::from_static(&[0x00, 0xff, 0x7f, 0x80]);
    let n = hub.broadcast(Frame::Binary(payload.clone())).unwrap();
    assert_eq!(n, 2);
    for rx in [&mut rx1, &mut rx2] {
        let got = rx.try_recv().unwrap();
        assert!(got.is_binary(), "hub must not re-interpret binary as text");
        assert_eq!(got.as_bytes(), &payload[..]);
    }
}

#[test]
fn counts_go_up_and_down() {
    let hub = BroadcastHub::<u8>::new(1);
    assert_eq!(hub.increment_connections(Some(2)), Ok(1));
    assert_eq!(hub.increment_connections(None), Ok(2));
    assert_eq!(
        hub.increment_connections(Some(2)),
        Err(WsError::TooManyConnections)
    );
    assert_eq!(hub.increment_connections(Some(3)), Ok(3));
    assert_eq!(hub.decrement_connections(), 2);
    assert_eq!(hub.decrement_connections(), 1);
    assert_eq!(hub.decrement_connections(), 0);
    assert_eq!(hub.decrement_connections(), 0);
    assert_eq!(
        hub.increment_connections(Some(0)),
        Err(WsError::TooManyConnections)
    );
    assert_eq!(hub.capacity(), 1);
}

#[test]
fn hubs_tell_their_capacity() {
    let hub = BroadcastHub::<u8>::new(16);
    assert_eq!(hub.capacity(), 16);
    let _rx = hub.subscribe();
    assert!(hub.broadcast(7).is_ok());
    assert_eq!(hub.capacity(), 16);
    assert_eq!(hub.clone().capacity(), 16);
    let config = WsConfig::builder().broadcast_capacity(5).build();
    assert_eq!(BroadcastHub::<u8>::from_config(&config).capacity(), 5);
    assert_eq!(BroadcastHub::<u8>::with_capacity(64).capacity(), 64);
}

#[test]
fn outcomes_of_a_send() {
    assert_eq!(delivery::<u8>(Ok(3)), Ok(3));
    assert_eq!(delivery(Err("back")), Err(WsError::BroadcastFull));
    assert_eq!(reached::<u8>(Ok(3)), 3);
    assert_eq!(reached(Err("back")), 0);
}
