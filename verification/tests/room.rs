use bytes::Bytes;
use ws_kit::channel::is_valid_capacity;
use ws_kit::codec::Frame;
use ws_kit::config::WsConfig;
use ws_kit::error::WsError;
use ws_kit::room::{record_broadcast, Room, RoomManager, RoomRegistry};
use ws_kit::stats::StatsRecorder;

fn name(s: &str) -> String {
    s.to_string()
}

#[test]
fn room_join_leave() {
    let mut room = Room::new("lobby", 16);
    assert_eq!(room.participant_count(), 0);
    room.join(1, name("alice"));
    room.join(2, name("bob"));
    assert_eq!(room.participant_count(), 2);
    assert!(room.contains(1));
    assert!(room.leave(1));
    assert!(!room.contains(1));
    assert_eq!(room.participant_count(), 1);
}

#[test]
fn room_rejoin_updates_name() {
    let mut room = Room::new("lobby", 16);
    room.join(1, name("alice"));
    room.join(1, name("alice2"));
    assert_eq!(room.participant_count(), 1);
    assert_eq!(room.participant_names(), vec!["alice2".to_string()]);
}

#[test]
fn room_participant_snapshots() {
    let mut room = Room::new("lobby", 16);
    room.join(7, name("alice"));
    room.join(3, name("bob"));
    let mut pairs = room.participants();
    pairs.sort();
    assert_eq!(
        pairs,
        vec![(3, "bob".to_string()), (7, "alice".to_string())]
    );
    let mut names = room.participant_names();
    names.sort();
    assert_eq!(names, vec!["alice".to_string(), "bob".to_string()]);
    assert_eq!(room.participant_count(), 2);
}

#[test]
fn room_broadcast() {
    let mut room = Room::new("chat", 16);
    let mut rx = room.subscribe();
    let n = room.broadcast("hello".to_string()).unwrap();
    assert_eq!(n, 1);
    assert_eq!(rx.try_recv().unwrap(), Frame::from("hello"));
}

#[test]
fn room_broadcast_binary() {
    let mut room = Room::new("binroom", 16);
    let mut rx = room.subscribe();
    let payload = vec![0xde_u8, 0xad, 0xbe, 0xef];
    let n = room.broadcast(Frame::from(payload.clone())).unwrap();
    assert_eq!(n, 1);
    let got = rx.try_recv().unwrap();
    assert!(got.is_binary());
    assert_eq!(got.as_bytes(), &payload[..]);
}

#[test]
fn room_broadcast_bytes_vec_convenience() {
    // Vec<u8> converts into a Binary frame directly.
    let mut room = Room::new("binroom", 16);
    let mut rx = room.subscribe();
    room.broadcast(vec![1u8, 2, 3]).unwrap();
    let got = rx.try_recv().unwrap();
    assert!(got.is_binary());
    assert_eq!(got.as_bytes(), &[1, 2, 3]);
}

#[test]
fn room_text_and_binary_share_one_channel_without_cross_talk() {
    let mut room = Room::new("mixed", 16);
    let mut rx = room.subscribe();
    room.broadcast("text".to_string()).unwrap();
    room.broadcast(Bytes::from_static(b"\x00\x01")).unwrap();
    assert!(rx.try_recv().unwrap().is_text());
    assert!(rx.try_recv().unwrap().is_binary());
}

#[test]
fn room_broadcast_no_receiver() {
    let mut room = Room::new("empty", 16);
    let err = room.broadcast("hi".to_string()).unwrap_err();
    assert_eq!(err, WsError::BroadcastFull);
}

#[test]
fn room_stats_records_outbound_and_drops() {
    let stats = StatsRecorder::new();
    let mut room = Room::with_stats("metrics", 16, Some(stats.clone()));
    let mut rx = room.subscribe();
    room.broadcast("12345".to_string()).unwrap(); // 5 bytes * 1 rx
    rx.try_recv().unwrap();

    let s = stats.snapshot();
    let room_stats = s.per_room.get("metrics").unwrap();
    assert_eq!(room_stats.messages_out, 1);
    assert_eq!(room_stats.bytes_out, 5);
    assert_eq!(s.messages_out, 1);

    drop(rx);
    room.broadcast("nobody".to_string()).unwrap_err();
    assert_eq!(stats.snapshot().per_room.get("metrics").unwrap().drops, 1);
    assert_eq!(stats.snapshot().drops, 1);
}

#[test]
fn manager_get_or_create_idempotent() {
    let mut m = RoomManager::new();
    let mut rx = m.get_or_create("room1").subscribe();
    assert_eq!(m.get_or_create("room1").receiver_count(), 1);
    assert_eq!(m.room_count(), 1);
    m.broadcast("room1", Frame::from("x")).unwrap().unwrap();
    assert_eq!(rx.try_recv().unwrap(), Frame::from("x"));
}

#[test]
fn manager_with_config_capacity() {
    let cfg = WsConfig::builder().broadcast_capacity(2048).build();
    let mut m = RoomManager::with_config(&cfg);
    let _rx = m.get_or_create("room1").subscribe();
    assert_eq!(m.get_or_create("room1").receiver_count(), 1);
    assert_eq!(m.room_count(), 1);
}

#[test]
fn manager_cleanup_removes_empty() {
    let mut m = RoomManager::new();
    m.get_or_create("a");
    // No participants and no receivers -> empty, should be cleaned.
    assert_eq!(m.cleanup(), 1);
    assert_eq!(m.room_count(), 0);

    m.get_or_create("b");
    m.join("b", 1, name("user1"));
    assert_eq!(m.cleanup(), 0);
    assert_eq!(m.room_count(), 1);
}

#[test]
fn manager_cleanup_empty_removes_zero_participant_rooms() {
    let mut m = RoomManager::new();
    m.get_or_create("a");
    // No participants -> removed regardless of receivers.
    assert_eq!(m.cleanup_empty(), 1);
    assert_eq!(m.room_count(), 0);

    // Participant present -> kept.
    m.get_or_create("a");
    m.join("a", 1, name("alice"));
    assert_eq!(m.cleanup_empty(), 0);
    assert_eq!(m.room_count(), 1);
    assert!(m.get_or_create("a").contains(1));

    m.leave("a", 1);
    assert_eq!(m.cleanup_empty(), 1);
    assert_eq!(m.room_count(), 0);
}

#[test]
fn manager_total_participants() {
    let mut m = RoomManager::new();
    m.get_or_create("r1");
    m.get_or_create("r2");
    assert_eq!(m.total_participants(), 0);
    m.join("r1", 1, name("alice"));
    m.join("r1", 2, name("bob"));
    m.join("r2", 3, name("carol"));
    assert_eq!(m.total_participants(), 3);
    m.leave("r2", 3);
    assert_eq!(m.total_participants(), 2);
}

#[test]
fn manager_get_and_remove() {
    let mut m = RoomManager::new();
    assert!(m.get("nonexistent").is_none());
    let _rx = m.get_or_create("x").subscribe();
    assert!(m.get("x").is_some());
    let removed = m.remove("x").unwrap();
    assert_eq!(removed.id, "x");
    assert_eq!(removed.receiver_count(), 1);
    assert!(m.get("x").is_none());
}

#[test]
fn manager_stats_room_lifecycle() {
    let stats = StatsRecorder::new();
    let cfg = WsConfig::default();
    let mut m = RoomManager::with_stats(&cfg, stats.clone());
    m.get_or_create("a");
    assert_eq!(stats.snapshot().rooms, 1);
    m.get_or_create("a"); // idempotent: no double count
    assert_eq!(stats.snapshot().rooms, 1);
    m.remove("a");
    assert_eq!(stats.snapshot().rooms, 0);
    m.get_or_create("b");
    m.get_or_create("c");
    m.cleanup();
    assert_eq!(stats.snapshot().rooms, 0);
}

#[test]
fn trait_object_room_registry() {
    let mut manager = RoomManager::new();
    manager.get_or_create("dyn_room");
    manager.join("dyn_room", 1, name("alice"));
    let registry: &mut dyn RoomRegistry = &mut manager;
    assert_eq!(registry.get_or_create("dyn_room").id, "dyn_room");
    assert_eq!(registry.room_count(), 1);
    assert_eq!(registry.total_participants(), 1);
    assert_eq!(registry.room_ids(), vec!["dyn_room".to_string()]);
    assert!(registry.get("dyn_room").is_some());
    assert!(registry.remove("dyn_room").is_some());
    assert_eq!(registry.cleanup(), 0);
    assert_eq!(registry.cleanup_empty(), 0);
}

#[test]
fn manager_broadcast_isolation() {
    let mut m = RoomManager::new();
    let mut rx1 = m.get_or_create("r1").subscribe();
    let mut rx2 = m.get_or_create("r2").subscribe();
    m.broadcast("r1", Frame::from("for r1".to_string()))
        .unwrap()
        .unwrap();
    assert_eq!(rx1.try_recv().unwrap(), Frame::from("for r1"));
    // r2 should not receive r1's message
    assert!(rx2.try_recv().is_err());
}

#[test]
fn room_manager_basic() {
    let mut m = RoomManager::new();
    m.get_or_create("general");
    m.join("general", 1, "Alice".to_string());
    m.join("general", 2, "Bob".to_string());
    let r = m.get("general").unwrap();
    assert!(r.contains(1));
    let mut names = r.participant_names();
    names.sort();
    assert_eq!(names, vec!["Alice".to_string(), "Bob".to_string()]);
    assert_eq!(r.participant_count(), 2);
    assert_eq!(m.total_participants(), 2);
    assert!(m.leave("general", 2));
    assert_eq!(m.get("general").unwrap().participant_count(), 1);
    m.leave("general", 1);
    assert_eq!(m.cleanup_empty(), 1);
    assert_eq!(m.room_count(), 0);
}

#[test]
fn room_isolation() {
    let mut m = RoomManager::new();
    let mut rx1 = m.get_or_create("r1").subscribe();
    let mut rx2 = m.get_or_create("r2").subscribe();
    m.broadcast("r1", Frame::from("msg1".to_string()))
        .unwrap()
        .unwrap();
    assert_eq!(rx1.try_recv().unwrap(), Frame::from("msg1"));
    // r2 must not receive
    assert!(rx2.try_recv().is_err());
}

#[test]
fn room_cleanup() {
    let mut m = RoomManager::new();
    m.get_or_create("temp");
    // No participants/receivers => empty => cleanup removes
    assert_eq!(m.cleanup(), 1);
    assert_eq!(m.room_count(), 0);
}

#[test]
fn binary_frame_routes_through_room() {
    let mut m = RoomManager::new();
    let mut rx = m.get_or_create("bin").subscribe();
    m.join("bin", 1, "alice".to_string());
    m.broadcast("bin", Frame::from(vec![9u8; 300]))
        .unwrap()
        .unwrap();
    let got = rx.try_recv().unwrap();
    assert!(got.is_binary());
    assert_eq!(got.len(), 300);
    // Text and binary interleave in arrival order on one channel.
    m.broadcast("bin", Frame::from("after".to_string()))
        .unwrap()
        .unwrap();
    assert_eq!(rx.try_recv().unwrap(), Frame::from("after"));
}

#[test]
fn stats_recorder_counts_connections_rooms_and_traffic() {
    let stats = StatsRecorder::new();
    stats.inc_connections();
    stats.inc_connections();
    stats.dec_connections();
    stats.record_message_in(42);

    let cfg = WsConfig::builder().broadcast_capacity(8).build();
    let mut manager = RoomManager::with_stats(&cfg, stats.clone());
    {
        let mut rx = manager.get_or_create("lobby").subscribe();
        manager
            .broadcast("lobby", Frame::from("12345".to_string()))
            .unwrap()
            .unwrap();
        assert_eq!(rx.try_recv().unwrap(), Frame::from("12345"));
    }
    manager.remove("lobby");

    let snap = stats.snapshot();
    assert_eq!(snap.connections, 1);
    assert_eq!(snap.rooms, 0, "create/remove balanced");
    assert_eq!(snap.messages_out, 1);
    assert_eq!(snap.bytes_out, 5);
    assert_eq!(snap.messages_in, 1, "room roll-up + manual");
    assert_eq!(snap.bytes_in, 42);
    assert_eq!(snap.per_room.get("lobby").unwrap().messages_out, 1);
}

#[test]
fn stats_record_broadcast_drops() {
    let stats = StatsRecorder::new();
    let cfg = WsConfig::default();
    let mut manager = RoomManager::with_stats(&cfg, stats.clone());
    manager.get_or_create("dead");
    // No receivers: broadcast fails and counts as a drop.
    manager
        .broadcast("dead", Frame::from("lost".to_string()))
        .unwrap()
        .unwrap_err();
    let snap = stats.snapshot();
    assert_eq!(snap.drops, 1);
    assert_eq!(snap.per_room.get("dead").unwrap().drops, 1);
}

#[test]
fn traffic_counts_each_receiver() {
    let cfg = WsConfig::default();
    let mut m = RoomManager::with_stats(&cfg, StatsRecorder::new());
    let rx1 = m.get_or_create("r").subscribe();
    let rx2 = m.get_or_create("r").subscribe();
    assert_eq!(m.broadcast("r", Frame::from("héllo")), Some(Ok(2)));
    drop((rx1, rx2));
    m.stats().unwrap().record_room_message_in("r", 4);
    m.stats().unwrap().inc_connections();
    let snap = m.stats().unwrap().snapshot();
    assert_eq!(snap.connections, 1);
    assert_eq!(snap.messages_out, 2);
    assert_eq!(snap.bytes_out, 12);
    assert_eq!(snap.bytes_in, 4);
    assert!(RoomManager::default().stats().is_none());
}

#[test]
fn recording_of_given_outcomes() {
    let stats = Some(StatsRecorder::new());
    assert_eq!(record_broadcast(&stats, "r", 7, Ok(3)), Ok(3));
    assert_eq!(
        record_broadcast(&stats, "r", 7, Err(())),
        Err(WsError::BroadcastFull)
    );
    let snap = stats.unwrap().snapshot();
    assert_eq!(snap.messages_out, 3);
    assert_eq!(snap.bytes_out, 21);
    assert_eq!(snap.drops, 1);
    assert_eq!(snap.per_room.get("r").unwrap().bytes_out, 21);
    assert_eq!(
        record_broadcast(&None, "r", 7, Err(())),
        Err(WsError::BroadcastFull)
    );
}

#[test]
fn a_room_may_have_no_recorder() {
    let mut room = Room::with_stats("solo", 4, None);
    let mut rx = room.subscribe();
    assert_eq!(room.send(Frame::from("abc")), Ok(1));
    assert_eq!(rx.try_recv().unwrap(), Frame::from("abc"));
    drop(rx);
    assert_eq!(room.send(Frame::from("abc")), Err(WsError::BroadcastFull));
    assert_eq!(room.id, "solo");
    assert!(room.stats().is_none());
}

#[test]
fn listeners_keep_a_room_from_cleanup() {
    let mut m = RoomManager::new();
    let rx = m.get_or_create("heard").subscribe();
    m.get_or_create("silent");
    m.get_or_create("peopled");
    m.join("peopled", 1, name("a"));
    assert!(!m.get("heard").unwrap().is_empty());
    assert!(m.get("silent").unwrap().is_empty());
    assert!(!m.get("peopled").unwrap().is_empty());
    assert_eq!(m.cleanup(), 1);
    assert_eq!(m.room_ids(), ["heard", "peopled"]);
    assert_eq!(m.cleanup_empty(), 1);
    assert_eq!(m.room_ids(), ["peopled"]);
    drop(rx);
}

#[test]
fn sweep_by_given_receivers() {
    let mut m = RoomManager::new();
    for id in ["a", "b", "c", "d"] {
        m.get_or_create(id);
    }
    m.join("c", 9, name("x"));
    assert_eq!(m.sweep(&[0, 1, 0, 0]), 2);
    assert_eq!(m.room_ids(), ["b", "c"]);
    assert!(m.get("a").is_none());
    assert!(m.get("c").unwrap().contains(9));
    assert_eq!(m.sweep(&[0, 0]), 1);
    assert_eq!(m.room_ids(), ["c"]);
}

#[test]
fn rooms_are_found_after_removals() {
    let mut m = RoomManager::new();
    for id in ["a", "b", "c", "d", "e"] {
        m.get_or_create(id);
        m.join(id, 1, name(id));
    }
    m.remove("b");
    m.remove("d");
    assert!(m.remove("b").is_none());
    assert_eq!(m.room_ids(), ["a", "c", "e"]);
    for id in ["a", "c", "e"] {
        assert_eq!(m.get(id).unwrap().participant_names(), [id]);
    }
    m.get_or_create("b");
    assert_eq!(m.room_ids(), ["a", "c", "e", "b"]);
    assert_eq!(m.get("b").unwrap().participant_count(), 0);
}

#[test]
fn absent_rooms_are_left_alone() {
    let mut m = RoomManager::new();
    assert!(!m.join("nowhere", 1, name("a")));
    assert!(!m.leave("nowhere", 1));
    assert_eq!(m.broadcast("nowhere", Frame::from("x")), None);
    assert_eq!(m.room_count(), 0);
}

#[test]
fn custom_capacity_counts_for_new_rooms_alone() {
    let mut m = RoomManager::new();
    let mut rx = m.get_or_create_with_capacity("small", 1).subscribe();
    m.get_or_create_with_capacity("small", 64);
    assert_eq!(m.default_capacity(), 1024);
    for _ in 0..3 {
        m.broadcast("small", Frame::from("x")).unwrap().unwrap();
    }
    assert!(matches!(
        rx.try_recv(),
        Err(tokio::sync::broadcast::error::TryRecvError::Lagged(_))
    ));
}

#[test]
fn capacities_of_channels() {
    assert!(!is_valid_capacity(0));
    assert!(is_valid_capacity(1));
    assert!(is_valid_capacity(usize::MAX / 2));
    assert!(!is_valid_capacity(usize::MAX / 2 + 1));
}

#[test]
fn vacancy_by_given_receivers() {
    let mut room = Room::new("r", 1);
    assert!(room.is_vacant(0));
    assert!(!room.is_vacant(1));
    room.join(1, name("a"));
    assert!(!room.is_vacant(0));
    assert!(room.leave(1));
    assert!(!room.leave(1));
    assert!(room.is_vacant(0));
    assert_eq!(room.sender().receiver_count(), 0);
}

#[test]
fn a_removed_room_goes_on_working() {
    let config = WsConfig::builder().broadcast_capacity(4).build();
    let mut manager = RoomManager::with_stats(&config, StatsRecorder::new());
    let mut rx = manager.get_or_create("old").subscribe();
    let mut room = manager.remove("old").unwrap();
    assert_eq!(manager.broadcast("old", Frame::from("lost")), None);
    assert_eq!(room.broadcast("kept"), Ok(1));
    assert_eq!(rx.try_recv().unwrap().as_bytes(), b"kept");
    drop(rx);
    assert_eq!(
        room.send(Frame::from("gone")),
        Err(WsError::BroadcastFull)
    );
    let s = manager.stats().unwrap().snapshot();
    let old = s.per_room.get("old").unwrap();
    assert_eq!((old.messages_out, old.bytes_out, old.drops), (1, 4, 1));
    assert_eq!((s.messages_out, s.drops, s.rooms), (1, 1, 0));
}

#[test]
fn a_second_cleanup_removes_nothing() {
    let mut manager = RoomManager::new();
    for id in ["a", "b", "c", "d"] {
        manager.get_or_create(id);
    }
    manager.join("b", 1, name("bob"));
    let _rx = manager.get("d").unwrap().subscribe();
    assert_eq!(manager.cleanup(), 2);
    assert_eq!(manager.room_ids(), ["b", "d"]);
    assert_eq!(manager.cleanup(), 0);
    assert_eq!(manager.room_ids(), ["b", "d"]);
    assert_eq!(manager.cleanup_empty(), 1);
    assert_eq!(manager.cleanup_empty(), 0);
    assert_eq!(manager.room_ids(), ["b"]);
}

#[test]
fn cleaned_up_rooms_are_handed_out_in_order() {
    let mut manager = RoomManager::new();
    for id in ["a", "b", "c", "d"] {
        manager.get_or_create(id);
    }
    manager.join("b", 1, name("bob"));
    let mut rx = manager.get("c").unwrap().subscribe();
    let vacant: Vec<String> = manager.take_vacant().into_iter().map(|r| r.id).collect();
    assert_eq!(vacant, ["a", "d"]);
    let mut empty = manager.take_empty();
    assert_eq!(empty.len(), 1);
    assert_eq!(empty[0].id, "c");
    assert_eq!(empty[0].broadcast("still here"), Ok(1));
    assert_eq!(rx.try_recv().unwrap().as_bytes(), b"still here");
    assert_eq!(manager.room_ids(), ["b"]);
}
