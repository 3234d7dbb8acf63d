use ws_kit::stats::{RoomStats, Stats, StatsRecorder, Tally};

#[test]
fn initial_snapshot_zeroed() {
    let s = StatsRecorder::new().snapshot();
    assert_eq!(s, Stats::default());
}

#[test]
fn connection_counter_saturates() {
    let stats = StatsRecorder::new();
    assert_eq!(stats.inc_connections(), 1);
    assert_eq!(stats.inc_connections(), 2);
    assert_eq!(stats.dec_connections(), 1);
    assert_eq!(stats.dec_connections(), 0);
    stats.dec_connections(); // saturate
    assert_eq!(stats.snapshot().connections, 0);
}

#[test]
fn room_lifecycle_gauge() {
    let stats = StatsRecorder::new();
    stats.room_opened();
    stats.room_opened();
    assert_eq!(stats.snapshot().rooms, 2);
    stats.room_closed();
    stats.room_closed();
    stats.room_closed(); // saturate
    assert_eq!(stats.snapshot().rooms, 0);
}

#[test]
fn global_traffic_counters() {
    let stats = StatsRecorder::new();
    stats.record_message_in(128);
    stats.record_message_out(3, 96);
    stats.record_drop();
    let s = stats.snapshot();
    assert_eq!(s.messages_in, 1);
    assert_eq!(s.bytes_in, 128);
    assert_eq!(s.messages_out, 3);
    assert_eq!(s.bytes_out, 96);
    assert_eq!(s.drops, 1);
}

#[test]
fn room_counters_roll_up_to_globals() {
    let stats = StatsRecorder::new();
    stats.record_room_message_in("lobby", 10);
    stats.record_room_message_out("lobby", 2, 20);
    stats.record_room_drop("lobby");

    let s = stats.snapshot();
    let lobby = s.per_room.get("lobby").unwrap();
    assert_eq!(lobby.messages_in, 1);
    assert_eq!(lobby.bytes_in, 10);
    assert_eq!(lobby.messages_out, 2);
    assert_eq!(lobby.bytes_out, 20);
    assert_eq!(lobby.drops, 1);

    // Roll-up: globals include room traffic.
    assert_eq!(s.messages_in, 1);
    assert_eq!(s.messages_out, 2);
    assert_eq!(s.bytes_out, 20);
    assert_eq!(s.drops, 1);
}

#[test]
fn rooms_are_isolated_in_snapshot() {
    let stats = StatsRecorder::new();
    stats.record_room_message_out("a", 1, 5);
    stats.record_room_message_out("b", 2, 10);
    let s = stats.snapshot();
    assert_eq!(s.per_room.len(), 2);
    assert_eq!(s.per_room.get("a").unwrap().messages_out, 1);
    assert_eq!(s.per_room.get("b").unwrap().messages_out, 2);
    assert_eq!(s.messages_out, 3);
}

#[test]
fn clone_shares_counters() {
    let stats = StatsRecorder::new();
    let clone = stats.clone();
    stats.record_message_in(7);
    assert_eq!(clone.snapshot().messages_in, 1);
}

#[test]
fn concurrent_recording_no_lost_updates() {
    let runtime = tokio::runtime::Builder::new_current_thread().build().unwrap();
    let stats = StatsRecorder::new();
    let mut handles = Vec::new();
    for _ in 0..8 {
        let s = stats.clone();
        handles.push(runtime.spawn(async move {
            for _ in 0..1000 {
                s.record_message_in(1);
            }
        }));
    }
    runtime.block_on(async {
        for h in handles {
            h.await.unwrap();
        }
    });
    assert_eq!(stats.snapshot().messages_in, 8000);
    assert_eq!(stats.snapshot().bytes_in, 8000);
}

#[test]
fn snapshots_of_clones_agree() {
    let stats = StatsRecorder::new();
    let clone = stats.clone();
    stats.record_room_message_out("b", 2, 8);
    clone.record_room_drop("a");
    clone.inc_connections();
    stats.room_opened();
    assert_eq!(stats.snapshot(), clone.snapshot());
    assert_eq!(stats.snapshot(), stats.snapshot());
    assert_eq!(stats.snapshot().clone(), clone.snapshot());
    assert_eq!(clone.snapshot().per_room.len(), 2);
}

#[test]
fn a_tally_in_one_hand() {
    let mut tally = Tally::new();
    assert_eq!(tally.inc_connections(), 1);
    tally.room_opened();
    tally.room_opened();
    tally.room_opened();
    tally.rooms_closed(2);
    let more = RoomStats { messages_in: 1, bytes_in: 9, ..RoomStats::default() };
    tally.record(&more);
    tally.record_room("r", &more);
    let s = tally.snapshot();
    assert_eq!((s.connections, s.rooms, s.messages_in, s.bytes_in), (1, 1, 2, 18));
    assert_eq!(*s.per_room.get("r").unwrap(), more);
    tally.rooms_closed(2);
    assert_eq!(tally.snapshot().rooms, 0);
    assert_eq!(tally.dec_connections(), 0);
    assert_eq!(tally.dec_connections(), 0);
}

#[test]
fn rooms_and_the_rest_add_up() {
    let stats = StatsRecorder::new();
    stats.record_room_message_in("a", 3);
    stats.record_message_in(4);
    stats.record_room_message_in("b", 5);
    stats.record_room_message_in("a", 6);
    stats.record_room_message_out("quiet", 0, 0);
    stats.record_drop();
    stats.record_room_drop("b");
    let s = stats.snapshot();
    let ids: Vec<&str> = (0..s.per_room.len()).map(|i| s.per_room.entry(i).0).collect();
    assert_eq!(ids, ["a", "b", "quiet"]);
    assert_eq!(*s.per_room.get("quiet").unwrap(), RoomStats::default());
    let sum = |f: fn(&RoomStats) -> u64| -> u64 {
        (0..s.per_room.len()).map(|i| f(s.per_room.entry(i).1)).sum()
    };
    assert_eq!(s.bytes_in, sum(|r| r.bytes_in) + 4);
    assert_eq!(s.messages_in, sum(|r| r.messages_in) + 1);
    assert_eq!(s.drops, sum(|r| r.drops) + 1);
    assert_eq!(s.bytes_in, 18);
}

#[test]
fn rooms_are_listed_in_order() {
    let stats = StatsRecorder::new();
    for room in ["b", "é", "ab", "a", "", "B", "🌐", "b"] {
        stats.record_room_drop(room);
    }
    let per_room = stats.snapshot().per_room;
    let ids: Vec<&str> = (0..per_room.len()).map(|i| per_room.entry(i).0).collect();
    assert_eq!(ids, ["", "B", "a", "ab", "b", "é", "🌐"]);
    assert_eq!(per_room.get("b").unwrap().drops, 2);
    assert_eq!(per_room.get("c"), None);
    assert_eq!(per_room.entry(0).1.drops, 1);
    assert_eq!(per_room.clone(), per_room);
    assert!(!per_room.is_empty());
    assert!(Stats::default().per_room.is_empty());
}

#[test]
fn order_of_recording_does_not_show() {
    let one = StatsRecorder::new();
    one.record_room_message_in("a", 3);
    one.record_room_message_out("b", 2, 8);
    one.record_message_out(1, 1);
    let other = StatsRecorder::default();
    other.record_message_out(1, 1);
    other.record_room_message_out("b", 2, 8);
    other.record_room_message_in("a", 3);
    assert_eq!(one.snapshot(), other.snapshot());
    assert_eq!(one.snapshot().messages_out, 3);
    assert_eq!(one.snapshot().bytes_out, 9);
}

#[test]
fn counters_wrap_around() {
    let stats = StatsRecorder::new();
    stats.record_message_in(u64::MAX);
    stats.record_message_in(2);
    assert_eq!(stats.snapshot().bytes_in, 1);
    assert_eq!(stats.snapshot().messages_in, 2);
}

#[test]
fn no_traffic() {
    assert_eq!(
        RoomStats::default(),
        RoomStats {
            messages_in: 0,
            messages_out: 0,
            bytes_in: 0,
            bytes_out: 0,
            drops: 0
        }
    );
}
