use bytes::Bytes;
use std::collections::hash_map::RandomState;
use std::hash::{BuildHasher, Hasher};
use ws_kit::codec::Frame;
use ws_kit::error::WsError;
use ws_kit::redis_rooms::{
    decode_envelope, encode_envelope, node_id_from, RedisRoomRegistry, DEFAULT_CHANNEL_PREFIX,
    KIND_TEXT,
};
use ws_kit::room::{RoomManager, RoomRegistry};

fn random_node_id() -> [u8; 16] {
    node_id_from(
        RandomState::new().build_hasher().finish(),
        RandomState::new().build_hasher().finish(),
    )
}

fn test_registry() -> RedisRoomRegistry {
    RedisRoomRegistry::from_parts(
        RoomManager::new(),
        DEFAULT_CHANNEL_PREFIX,
        random_node_id(),
    )
}

#[test]
fn broadcast_fans_out_locally_and_publishes() {
    let mut reg = test_registry();
    let mut rx = reg.local_mut().get_or_create("lobby").subscribe();
    let out = reg.broadcast("lobby", Frame::from("hi fleet"));
    assert_eq!(out.local, 1, "one local receiver");
    assert_eq!(
        rx.try_recv().unwrap(),
        Frame::from("hi fleet"),
        "local sink got the frame directly"
    );
    let packed = out.command.get_packed_command();
    let packed_str = String::from_utf8_lossy(&packed).to_string();
    assert!(
        packed_str.contains("ws-kit:room:lobby"),
        "PUBLISH targets the room channel: {packed_str:?}"
    );
    // The full envelope (version | node id | kind | payload) rides the
    // same command.
    let expected = encode_envelope(&reg.node_id(), &Frame::from("hi fleet"));
    assert!(
        packed
            .windows(expected.len())
            .any(|w| w == expected.as_slice()),
        "PUBLISH carries the exact envelope"
    );
}

#[test]
fn broadcast_creates_local_room_on_demand() {
    let mut reg = test_registry();
    assert!(reg.local().get("fresh").is_none());
    // No local receivers: still publishes.
    let out = reg.broadcast("fresh", Frame::from("x"));
    assert_eq!(out.local, 0);
    assert!(reg.local().get("fresh").is_some(), "room materialized");
}

#[test]
fn remote_envelope_reaches_hosted_room() {
    let mut reg = test_registry();
    let mut rx = reg.local_mut().get_or_create("lobby").subscribe();

    // A peer publishes; craft the envelope as their node would.
    let peer_id = [7u8; 16];
    let frame = Frame::from("from peer");
    let envelope = encode_envelope(&peer_id, &frame);
    let delivered = reg.apply_remote("lobby", &envelope).unwrap();
    assert_eq!(delivered, Some(1));
    assert_eq!(rx.try_recv().unwrap(), frame);
}

#[test]
fn remote_binary_envelope_roundtrips() {
    let mut reg = test_registry();
    let mut rx = reg.local_mut().get_or_create("bin").subscribe();
    let frame = Frame::Binary(Bytes::from_static(b"\x00\xff\x10"));
    let envelope = encode_envelope(&[9u8; 16], &frame);
    reg.apply_remote("bin", &envelope).unwrap();
    let got = rx.try_recv().unwrap();
    assert!(got.is_binary());
    assert_eq!(got.as_bytes(), b"\x00\xff\x10");
}

#[test]
fn self_echo_is_dropped() {
    let mut reg = test_registry();
    let mut rx = reg.local_mut().get_or_create("lobby").subscribe();
    let envelope = encode_envelope(&reg.node_id(), &Frame::from("my own publish"));
    assert_eq!(reg.apply_remote("lobby", &envelope).unwrap(), None);
    assert!(rx.try_recv().is_err());
}

#[test]
fn remote_traffic_never_materializes_rooms() {
    let mut reg = test_registry();
    let envelope = encode_envelope(&[3u8; 16], &Frame::from("anyone there?"));
    assert_eq!(reg.apply_remote("ghost", &envelope).unwrap(), None);
    assert!(reg.local().get("ghost").is_none());
}

#[test]
fn malformed_envelopes_fail_closed() {
    let mut reg = test_registry();
    // Truncated header
    assert_eq!(
        reg.apply_remote("r", &[0u8; 10]).unwrap_err(),
        WsError::InvalidMessage
    );
    // Empty
    assert_eq!(
        reg.apply_remote("r", &[]).unwrap_err(),
        WsError::InvalidMessage
    );
    // Wrong version byte
    let mut evil = encode_envelope(&[0u8; 16], &Frame::from("v0"));
    evil[0] = 99;
    assert_eq!(
        reg.apply_remote("r", &evil).unwrap_err(),
        WsError::InvalidMessage
    );
    // Unknown kind tag
    let mut evil = encode_envelope(&[0u8; 16], &Frame::from("bad kind"));
    evil[17] = 42;
    assert_eq!(
        reg.apply_remote("r", &evil).unwrap_err(),
        WsError::InvalidMessage
    );
    // Text frame with non-UTF-8 payload
    let mut evil = encode_envelope(&[0u8; 16], &Frame::from("ok"));
    evil[17] = KIND_TEXT;
    evil[18..].copy_from_slice(&[0xFF, 0xFE]);
    assert_eq!(
        reg.apply_remote("r", &evil).unwrap_err(),
        WsError::InvalidMessage
    );
}

#[test]
fn channel_names_roundtrip() {
    let reg = test_registry();
    assert_eq!(reg.channel_name("lobby"), "ws-kit:room:lobby");
    assert_eq!(reg.room_id_from_channel("ws-kit:room:lobby"), Some("lobby"));
    // Room ids may themselves contain ':' — prefix split is exact.
    assert_eq!(reg.room_id_from_channel("ws-kit:room:a:b:c"), Some("a:b:c"));
    assert_eq!(reg.room_id_from_channel("other:room:x"), None);
    assert_eq!(reg.room_id_from_channel("ws-kit:room:"), Some(""));
}

#[test]
fn custom_prefix_changes_channels() {
    let reg = RedisRoomRegistry::from_parts(RoomManager::new(), "tenant-a/rooms:", [0u8; 16]);
    assert_eq!(reg.channel_name("lobby"), "tenant-a/rooms:lobby");
    assert_eq!(
        reg.room_id_from_channel("tenant-a/rooms:lobby"),
        Some("lobby")
    );
    assert_eq!(reg.prefix(), "tenant-a/rooms:");
    assert_eq!(reg.channel_pattern(), "tenant-a/rooms:*");
}

#[test]
fn envelope_decode_roundtrip_preserves_frame_kind() {
    let node_id = [1u8; 16];
    for frame in [
        Frame::from("hello".to_string()),
        Frame::Binary(Bytes::from_static(&[0, 1, 2, 255])),
    ] {
        let env = encode_envelope(&node_id, &frame);
        let (got_id, got_frame) = decode_envelope(&env).unwrap();
        assert_eq!(got_id, node_id);
        assert_eq!(got_frame, frame);
    }
}

#[test]
fn node_ids_are_distinct_per_registry() {
    let a = test_registry();
    let b = test_registry();
    assert_ne!(a.node_id(), b.node_id());
}

#[test]
fn envelope_layout() {
    let id: [u8; 16] = [2; 16];
    let text = encode_envelope(&id, &Frame::from("ab"));
    assert_eq!(text.len(), 20);
    assert_eq!(text[0], 1);
    assert_eq!(&text[1..17], &id);
    assert_eq!(&text[17..], &[0, b'a', b'b']);
    assert_eq!(&encode_envelope(&id, &Frame::from(vec![9u8]))[17..], &[1, 9]);
}

#[test]
fn node_ids_are_little_endian() {
    assert_eq!(
        node_id_from(0x0807060504030201, 0x100f0e0d0c0b0a09),
        [1, 2, 3, 4, 5, 6, 7, 8, 9, 10, 11, 12, 13, 14, 15, 16]
    );
}

#[test]
fn publication_is_one_command() {
    let reg = RedisRoomRegistry::from_parts(RoomManager::new(), "p:", [5u8; 16]);
    let cmd = reg.publish(&Frame::from("x"), "r");
    let mut want = b"*3\r\n$7\r\nPUBLISH\r\n$3\r\np:r\r\n$19\r\n".to_vec();
    want.extend_from_slice(&encode_envelope(&[5u8; 16], &Frame::from("x")));
    want.extend_from_slice(b"\r\n");
    assert_eq!(cmd.get_packed_command(), want);
}

#[test]
fn messages_go_by_their_channel() {
    let mut reg = test_registry();
    let mut rx = reg.local_mut().get_or_create("a").subscribe();
    let envelope = encode_envelope(&[4u8; 16], &Frame::from("m"));
    assert_eq!(reg.on_message("other:a", &envelope), None);
    assert_eq!(reg.on_message("ws-kit:room:b", &envelope), Some(Ok(None)));
    assert!(rx.try_recv().is_err());
    assert_eq!(
        reg.on_message("ws-kit:room:a", &envelope),
        Some(Ok(Some(1)))
    );
    assert_eq!(rx.try_recv().unwrap(), Frame::from("m"));
    assert_eq!(
        reg.on_message("ws-kit:room:a", b"junk"),
        Some(Err(WsError::InvalidMessage))
    );
    drop(rx);
    assert_eq!(reg.on_message("ws-kit:room:a", &envelope), Some(Ok(None)));
}

#[test]
fn a_message_crosses_between_two_nodes() {
    let mut a = RedisRoomRegistry::from_parts(RoomManager::new(), "p:", [1u8; 16]);
    let mut b = RedisRoomRegistry::from_parts(RoomManager::new(), "p:", [2u8; 16]);
    let mut rx_a = a.local_mut().get_or_create("live").subscribe();
    let mut rx_b = b.local_mut().get_or_create("live").subscribe();
    let frame = Frame::from(vec![0xde, 0xad, 0xbe, 0xef]);
    assert_eq!(b.broadcast("live", frame.clone()).local, 1);
    let envelope = encode_envelope(&b.node_id(), &frame);
    for node in [&mut a, &mut b] {
        node.on_message("p:live", &envelope);
    }
    assert_eq!(rx_a.try_recv().unwrap(), frame);
    assert_eq!(rx_b.try_recv().unwrap(), frame);
    assert!(rx_a.try_recv().is_err());
    assert!(rx_b.try_recv().is_err(), "self-echo must be suppressed");
}

#[test]
fn registry_of_local_rooms() {
    let mut reg = test_registry();
    RoomRegistry::get_or_create(&mut reg, "x");
    reg.local_mut().join("x", 1, "a".to_string());
    assert_eq!(RoomRegistry::room_count(&reg), 1);
    assert_eq!(RoomRegistry::total_participants(&reg), 1);
    assert_eq!(RoomRegistry::room_ids(&reg), ["x"]);
    assert!(RoomRegistry::get(&reg, "x").is_some());
    assert_eq!(RoomRegistry::cleanup(&mut reg), 0);
    assert_eq!(RoomRegistry::cleanup_empty(&mut reg), 0);
    assert!(RoomRegistry::remove(&mut reg, "x").is_some());
    assert_eq!(RoomRegistry::room_count(&reg), 0);
}
