//! Room-based group messaging.
//!
//! Each [`Room`] is an isolated broadcast domain with a participant roster keyed by
//! connection id, and carries [`Frame`]s, text and binary. A [`RoomManager`] owns a
//! collection of them.
use crate::channel::{
    came_of, counted_receivers, frame_channel, handed, made_with, send_frame, sent, subscribed,
    valid_capacity,
};
use crate::codec::{Frame, Payload};
use crate::error::WsError;
use crate::roster::{lists, Roster};
use crate::stats::{noted, revised, Journal, Recording, RoomStats, StatsRecorder};
use tokio::sync::broadcast::error::SendError;
use tokio::sync::broadcast::{Receiver, Sender};
use vstd::prelude::*;

pub use crate::registry::{RoomManager, RoomRegistry};

verus! {

/// What a room holds: its id, the capacity of its channel, the roster, the
/// frames that went out, and the recorder that it counts its traffic in.
#[verifier::ext_equal]
pub ghost struct RoomState {
    pub id: Seq<char>,
    pub capacity: usize,
    pub roster: Map<u32, Seq<char>>,
    pub sent: Seq<Payload>,
    pub stats: Option<StatsRecorder>,
}

impl RoomState {
    /// A new room: nobody in it, and nothing sent.
    pub open spec fn new(id: Seq<char>, capacity: usize, stats: Option<StatsRecorder>) -> RoomState {
        RoomState { id, capacity, roster: Map::empty(), sent: Seq::empty(), stats }
    }

    /// Whether nobody takes part in the room and nobody listens.
    pub open spec fn vacant(self, receivers: usize) -> bool {
        self.roster.dom().len() == 0 && receivers == 0
    }

    /// After a broadcast: where it reached receivers, the frame went out.
    pub open spec fn after_send(
        self,
        frame: Payload,
        outcome: Result<usize, WsError>,
    ) -> RoomState {
        RoomState {
            sent: if outcome is Ok {
                self.sent.push(frame)
            } else {
                self.sent
            },
            ..self
        }
    }
}

/// The traffic of a broadcast of `bytes` bytes: a message for each receiver that
/// it reached, or a drop where it reached none.
pub open spec fn traffic_of(bytes: usize, outcome: Result<usize, WsError>) -> RoomStats {
    match outcome {
        Ok(n) => RoomStats::message_out(n as u64, (bytes as u64).wrapping_mul(n as u64)),
        Err(_) => RoomStats::one_drop(),
    }
}

/// Whether a broadcast in a room was counted, if there is a recorder.
pub open spec fn counted(
    stats: Option<StatsRecorder>,
    room: Seq<char>,
    bytes: usize,
    outcome: Result<usize, WsError>,
) -> bool {
    stats matches Some(recorder) ==> noted(
        recorder.book(),
        Recording { room: Some(room), traffic: traffic_of(bytes, outcome) },
    )
}

/// What a caller sees of what the channel made of a broadcast.
pub open spec fn told(outcome: Result<usize, ()>) -> Result<usize, WsError> {
    match outcome {
        Ok(n) => Ok(n),
        Err(_) => Err(WsError::BroadcastFull),
    }
}

/// Whether `frame` was handed to the channel of `tx`, and `r` is what a caller sees
/// of what came of it.
pub open spec fn delivered(tx: Sender<Frame>, frame: Frame, r: Result<usize, WsError>) -> bool {
    exists|outcome: Result<usize, ()>| #[trigger]
        came_of(tx, frame, outcome) && r == told(outcome)
}

/// Records a broadcast of `bytes` bytes in a room, given what the channel made
/// of it, and returns what its caller sees.
pub fn record_broadcast(
    stats: &Option<StatsRecorder>,
    room: &str,
    bytes: usize,
    outcome: Result<usize, ()>,
) -> (r: Result<usize, WsError>)
    ensures
        counted(*stats, room@, bytes, r),
        r == told(outcome),
{
    match outcome {
        Ok(n) => {
            if let Some(recorder) = stats {
                recorder.record_room_message_out(
                    room,
                    n as u64,
                    (bytes as u64).wrapping_mul(n as u64),
                );
            }
            Ok(n)
        },
        Err(_) => {
            if let Some(recorder) = stats {
                recorder.record_room_drop(room);
            }
            Err(WsError::BroadcastFull)
        },
    }
}

/// A single broadcast room with a participant roster.
pub struct Room {
    /// Room identifier.
    pub id: String,
    tx: Sender<Frame>,
    participants: Roster,
    stats: Option<StatsRecorder>,
}

impl View for Room {
    type V = RoomState;

    closed spec fn view(&self) -> RoomState {
        RoomState {
            id: self.id@,
            capacity: made_with(self.tx),
            roster: self.participants@,
            sent: sent(self.tx),
            stats: self.stats,
        }
    }
}

impl Room {
    /// The channel of this room.
    pub closed spec fn channel(&self) -> Sender<Frame> {
        self.tx
    }

    /// The state of a room speaks of its channel.
    pub proof fn lemma_channel(&self)
        ensures
            made_with(self.channel()) == self@.capacity,
            sent(self.channel()) == self@.sent,
    {
    }

    /// The roster is in order.
    pub closed spec fn wf(&self) -> bool {
        self.participants.wf()
    }

    /// Create a new room with the given id and broadcast capacity.
    pub fn new<T: Into<String>>(id: T, capacity: usize) -> (r: Self)
        requires
            valid_capacity(capacity),
        ensures
            r.wf(),
            exists|text: String| #[trigger]
                call_ensures(T::into, (id,), text) && r@ == RoomState::new(text@, capacity, None),
    {
        Self::with_stats(id, capacity, None)
    }

    /// Create a new room that records outbound traffic and drops into `stats`.
    pub fn with_stats<T: Into<String>>(
        id: T,
        capacity: usize,
        stats: Option<StatsRecorder>,
    ) -> (r: Self)
        requires
            valid_capacity(capacity),
        ensures
            r.wf(),
            exists|text: String| #[trigger]
                call_ensures(T::into, (id,), text) && r@ == RoomState::new(text@, capacity, stats),
    {
        let text: String = id.into();
        Self::assemble(text, capacity, stats)
    }

    pub(crate) fn assemble(id: String, capacity: usize, stats: Option<StatsRecorder>) -> (r: Self)
        requires
            valid_capacity(capacity),
        ensures
            r.wf(),
            r@ == RoomState::new(id@, capacity, stats),
    {
        Room { id, tx: frame_channel(capacity), participants: Roster::new(), stats }
    }

    /// Subscribe to this room's messages (text **and** binary).
    pub fn subscribe(&self) -> (r: Receiver<Frame>)
        ensures
            subscribed(self.channel(), r),
    {
        self.tx.subscribe()
    }

    /// Broadcast a frame (text or binary) to all participants.
    ///
    /// Returns [`WsError::BroadcastFull`] when the room has no active receivers;
    /// with a recorder attached this also counts as a drop.
    pub fn send(&mut self, frame: Frame) -> (r: Result<usize, WsError>)
        requires
            old(self).wf(),
        ensures
            final(self).wf(),
            match r {
                Ok(n) => n >= 1,
                Err(e) => e is BroadcastFull,
            },
            delivered(old(self).channel(), frame, r),
            final(self)@ == old(self)@.after_send(frame@, r),
            counted(old(self)@.stats, old(self)@.id, frame@.bytes().len() as usize, r),
    {
        let bytes: usize = frame.len();
        let outcome = send_frame(&mut self.tx, frame);
        assert(came_of(old(self).channel(), frame, outcome));
        record_broadcast(&self.stats, self.id.as_str(), bytes, outcome)
    }

    /// Broadcast anything that converts to a [`Frame`]: `String`, `&str`,
    /// `bytes::Bytes`, `Vec<u8>`.
    pub fn broadcast<T: Into<Frame>>(&mut self, msg: T) -> (r: Result<usize, WsError>)
        requires
            old(self).wf(),
        ensures
            final(self).wf(),
            match r {
                Ok(n) => n >= 1,
                Err(e) => e is BroadcastFull,
            },
            exists|frame: Frame| #[trigger]
                call_ensures(T::into, (msg,), frame) && delivered(old(self).channel(), frame, r)
                    && final(self)@ == old(self)@.after_send(frame@, r) && counted(
                    old(self)@.stats,
                    old(self)@.id,
                    frame@.bytes().len() as usize,
                    r,
                ),
    {
        let frame: Frame = msg.into();
        self.send(frame)
    }

    /// Add a participant (or refresh its display name on re-join).
    pub fn join(&mut self, participant_id: u32, name: String)
        requires
            old(self).wf(),
        ensures
            final(self).wf(),
            final(self).channel() == old(self).channel(),
            final(self)@ == (RoomState {
                roster: old(self)@.roster.insert(participant_id, name@),
                ..old(self)@
            }),
    {
        self.participants.insert(participant_id, name);
    }

    /// Remove a participant. Returns true if it was present.
    pub fn leave(&mut self, participant_id: u32) -> (r: bool)
        requires
            old(self).wf(),
        ensures
            final(self).wf(),
            r == old(self)@.roster.contains_key(participant_id),
            final(self).channel() == old(self).channel(),
            final(self)@ == (RoomState {
                roster: old(self)@.roster.remove(participant_id),
                ..old(self)@
            }),
    {
        self.participants.remove(participant_id)
    }

    /// Check if participant is in room.
    pub fn contains(&self, participant_id: u32) -> (r: bool)
        ensures
            r == self@.roster.contains_key(participant_id),
    {
        self.participants.contains(participant_id)
    }

    /// Snapshot of `(participant_id, name)` pairs, in no stated order.
    pub fn participants(&self) -> (r: Vec<(u32, String)>)
        ensures
            lists(r@, self@.roster),
    {
        self.participants.entries()
    }

    /// Snapshot of participant display names, in no stated order.
    pub fn participant_names(&self) -> (r: Vec<String>)
        ensures
            exists|entries: Seq<(u32, String)>| #[trigger]
                lists(entries, self@.roster) && entries.len() == r@.len() && forall|i: int|
                    0 <= i < r@.len() ==> (#[trigger] r@[i])@ == entries[i].1@,
    {
        let entries = self.participants.entries();
        let mut out: Vec<String> = Vec::new();
        let n: usize = entries.len();
        for i in 0..n
            invariant
                n == entries@.len(),
                out@.len() == i,
                forall|j: int| 0 <= j < i ==> (#[trigger] out@[j])@ == entries@[j].1@,
        {
            out.push(entries[i].1.clone());
        }
        assert(lists(entries@, self@.roster));
        out
    }

    /// Number of tracked participants.
    pub fn participant_count(&self) -> (r: usize)
        ensures
            r == self@.roster.dom().len(),
    {
        self.participants.len()
    }

    /// Number of active broadcast receivers.
    pub fn receiver_count(&self) -> (r: usize)
        ensures
            counted_receivers(self.channel(), r),
    {
        self.tx.receiver_count()
    }

    /// Whether nobody takes part, given the number of receivers.
    pub fn is_vacant(&self, receivers: usize) -> (r: bool)
        ensures
            r == self@.vacant(receivers),
    {
        self.participants.len() == 0 && receivers == 0
    }

    /// Returns true if no participants and no receivers.
    pub fn is_empty(&self) -> (r: bool)
        ensures
            exists|receivers: usize| #[trigger]
                counted_receivers(self.channel(), receivers) && r == self@.vacant(receivers),
    {
        let receivers: usize = self.tx.receiver_count();
        assert(counted_receivers(self.channel(), receivers));
        self.is_vacant(receivers)
    }

    /// The recorder that this room counts its traffic in, if it has one.
    pub fn stats(&self) -> (r: Option<&StatsRecorder>)
        ensures
            match r {
                Some(recorder) => self@.stats == Some(*recorder),
                None => self@.stats is None,
            },
    {
        match &self.stats {
            Some(recorder) => Some(recorder),
            None => None,
        }
    }

    /// Internal sender. What others send through it is not among the frames that
    /// the contracts speak of.
    pub fn sender(&self) -> (r: &Sender<Frame>)
        ensures
            *r == self.channel(),
            sent(*r) == self@.sent,
            made_with(*r) == self@.capacity,
    {
        &self.tx
    }
}

/// A frame that is sent in a room goes to its channel, and out of it once where it
/// reaches a receiver; nothing else of the room changes.
pub proof fn law_send(room: &mut Room, frame: Frame, r: Result<usize, WsError>)
    requires
        call_ensures(Room::send, (room, frame), r),
    ensures
        exists|outcome: Result<usize, SendError<Frame>>| #[trigger]
            call_ensures(Sender::<Frame>::send, (&old(room).channel(), frame), outcome)
                && match outcome {
                Ok(n) => r == Ok::<usize, WsError>(n),
                Err(_) => r == Err::<usize, WsError>(WsError::BroadcastFull),
            },
        r matches Ok(n) ==> n >= 1,
        final(room)@.sent == if r is Ok {
            old(room)@.sent.push(frame@)
        } else {
            old(room)@.sent
        },
        final(room)@.id == old(room)@.id,
        final(room)@.capacity == old(room)@.capacity,
        final(room)@.roster == old(room)@.roster,
        final(room)@.stats == old(room)@.stats,
{
    lemma_delivered(old(room).channel(), frame, r);
}

proof fn lemma_delivered(tx: Sender<Frame>, frame: Frame, r: Result<usize, WsError>)
    requires
        delivered(tx, frame, r),
    ensures
        exists|outcome: Result<usize, SendError<Frame>>| #[trigger]
            call_ensures(Sender::<Frame>::send, (&tx, frame), outcome) && match outcome {
                Ok(n) => r == Ok::<usize, WsError>(n),
                Err(_) => r == Err::<usize, WsError>(WsError::BroadcastFull),
            },
{
    let seen = choose|outcome: Result<usize, ()>| #[trigger]
        came_of(tx, frame, outcome) && r == told(outcome);
    let outcome = choose|outcome: Result<usize, SendError<Frame>>| #[trigger]
        handed(tx, frame, outcome) && seen == match outcome {
            Ok(n) => Ok::<usize, ()>(n),
            Err(_) => Err(()),
        };
    assert(call_ensures(Sender::<Frame>::send, (&tx, frame), outcome));
}

/// Whether `traffic` is that of a broadcast of `bytes` bytes which came out so: a
/// message and its bytes for each receiver that it reached, or one drop.
pub open spec fn is_traffic_of(
    traffic: RoomStats,
    bytes: u64,
    outcome: Result<usize, WsError>,
) -> bool {
    &&& traffic.messages_in == 0
    &&& traffic.bytes_in == 0
    &&& outcome matches Ok(n) ==> {
        &&& traffic.messages_out == n as u64
        &&& traffic.bytes_out == bytes.wrapping_mul(n as u64)
        &&& traffic.drops == 0
    }
    &&& outcome is Err ==> {
        &&& traffic.messages_out == 0
        &&& traffic.bytes_out == 0
        &&& traffic.drops == 1
    }
}

/// What is sent in a room is counted for it.
pub proof fn law_sends_are_counted(
    room: &mut Room,
    frame: Frame,
    r: Result<usize, WsError>,
    traffic: RoomStats,
)
    requires
        call_ensures(Room::send, (room, frame), r),
        old(room)@.stats is Some,
        frame@.bytes().len() <= usize::MAX,
        is_traffic_of(traffic, frame@.bytes().len() as u64, r),
    ensures
        exists|before: Journal| #[trigger]
            revised(
                old(room)@.stats->0.book(),
                before,
                before.after(Recording { room: Some(old(room)@.id), traffic }),
            ),
{
    assert(traffic == traffic_of(frame@.bytes().len() as usize, r));
}

/// Whatever converts to a frame is broadcast as that frame is sent.
pub proof fn law_broadcast<T: Into<Frame>>(room: &mut Room, msg: T, r: Result<usize, WsError>)
    requires
        call_ensures(Room::broadcast::<T>, (room, msg), r),
    ensures
        exists|frame: Frame| #[trigger]
            call_ensures(T::into, (msg,), frame) && final(room)@.sent == if r is Ok {
                old(room)@.sent.push(frame@)
            } else {
                old(room)@.sent
            } && delivered(old(room).channel(), frame, r),
        r matches Ok(n) ==> n >= 1,
        r matches Err(e) ==> e is BroadcastFull,
        final(room)@.id == old(room)@.id,
        final(room)@.capacity == old(room)@.capacity,
        final(room)@.roster == old(room)@.roster,
{
    let frame = choose|frame: Frame| #[trigger]
        call_ensures(T::into, (msg,), frame) && delivered(old(room).channel(), frame, r) && final(
            room)@ == old(room)@.after_send(frame@, r) && counted(
            old(room)@.stats,
            old(room)@.id,
            frame@.bytes().len() as usize,
            r,
        );
    assert(call_ensures(T::into, (msg,), frame));
}

/// Whoever joins is in the room under the name given, in place of an earlier one,
/// and nobody else is touched.
pub proof fn law_join(room: &mut Room, id: u32, name: String)
    requires
        call_ensures(Room::join, (room, id, name), ()),
    ensures
        final(room)@.roster.contains_key(id),
        final(room)@.roster[id] == name@,
        forall|other: u32|
            other != id ==> #[trigger] final(room)@.roster.contains_key(other)
                == old(room)@.roster.contains_key(other),
        forall|other: u32|
            other != id && old(room)@.roster.contains_key(other) ==> #[trigger] final(
                room)@.roster[other] == old(room)@.roster[other],
        final(room)@.sent == old(room)@.sent,
        final(room)@.id == old(room)@.id,
        final(room)@.stats == old(room)@.stats,
        final(room).channel() == old(room).channel(),
{
}

/// Whoever leaves is no longer in the room, and nobody else is touched; it is told
/// whether they were in it.
pub proof fn law_leave(room: &mut Room, id: u32, r: bool)
    requires
        call_ensures(Room::leave, (room, id), r),
    ensures
        r <==> old(room)@.roster.contains_key(id),
        !final(room)@.roster.contains_key(id),
        forall|other: u32|
            other != id ==> #[trigger] final(room)@.roster.contains_key(other)
                == old(room)@.roster.contains_key(other),
        forall|other: u32|
            other != id && old(room)@.roster.contains_key(other) ==> #[trigger] final(
                room)@.roster[other] == old(room)@.roster[other],
        final(room)@.sent == old(room)@.sent,
        final(room)@.id == old(room)@.id,
        final(room)@.stats == old(room)@.stats,
        final(room).channel() == old(room).channel(),
{
}

/// The snapshots of a room show everybody in it once, with their names, and it tells
/// who is in it and how many they are.
pub proof fn law_roster_is_shown(
    room: Room,
    id: u32,
    is_in: bool,
    entries: Vec<(u32, String)>,
    count: usize,
)
    requires
        call_ensures(Room::contains, (&room, id), is_in),
        call_ensures(Room::participants, (&room,), entries),
        call_ensures(Room::participant_count, (&room,), count),
    ensures
        is_in <==> room@.roster.contains_key(id),
        count == room@.roster.dom().len(),
        forall|i: int|
            0 <= i < entries@.len() ==> room@.roster.contains_key((#[trigger] entries@[i]).0)
                && room@.roster[entries@[i].0] == entries@[i].1@,
        forall|i: int, j: int|
            0 <= i < j < entries@.len() ==> (#[trigger] entries@[i]).0 != (#[trigger] entries@[j]).0,
        room@.roster.contains_key(id) ==> exists|i: int|
            0 <= i < entries@.len() && (#[trigger] entries@[i]).0 == id,
{
}

/// A room is empty where nobody takes part in it and its channel counts no receiver.
pub proof fn law_empty_rooms(room: Room, r: bool, n: usize, vacant: bool, receivers: usize)
    requires
        call_ensures(Room::is_empty, (&room,), r),
        call_ensures(Room::receiver_count, (&room,), n),
        call_ensures(Room::is_vacant, (&room, receivers), vacant),
    ensures
        vacant <==> room@.roster.dom().len() == 0 && receivers == 0,
        call_ensures(Sender::<Frame>::receiver_count, (&room.channel(),), n),
        exists|k: usize| #[trigger]
            call_ensures(Sender::<Frame>::receiver_count, (&room.channel(),), k) && (r
                <==> room@.roster.dom().len() == 0 && k == 0),
{
    let k = choose|receivers: usize| #[trigger]
        counted_receivers(room.channel(), receivers) && r == room@.vacant(receivers);
    assert(call_ensures(Sender::<Frame>::receiver_count, (&room.channel(),), k));
}

/// A room is made empty, with the id, the capacity and the recorder that it is given.
pub proof fn law_new_rooms<T: Into<String>>(
    id: T,
    capacity: usize,
    stats: Option<StatsRecorder>,
    plain: Room,
    r: Room,
)
    requires
        call_ensures(Room::new::<T>, (id, capacity), plain),
        call_ensures(Room::with_stats::<T>, (id, capacity, stats), r),
    ensures
        exists|text: String| #[trigger]
            call_ensures(T::into, (id,), text) && plain@.id == text@,
        exists|text: String| #[trigger] call_ensures(T::into, (id,), text) && r@.id == text@,
        plain@.capacity == capacity && r@.capacity == capacity,
        plain@.roster == Map::<u32, Seq<char>>::empty(),
        r@.roster == Map::<u32, Seq<char>>::empty(),
        plain@.sent.len() == 0 && r@.sent.len() == 0,
        plain@.stats is None,
        r@.stats == stats,
{
    let text = choose|text: String| #[trigger]
        call_ensures(T::into, (id,), text) && plain@ == RoomState::new(text@, capacity, None);
    assert(call_ensures(T::into, (id,), text) && plain@.id == text@);
    let other = choose|text: String| #[trigger]
        call_ensures(T::into, (id,), text) && r@ == RoomState::new(text@, capacity, stats);
    assert(call_ensures(T::into, (id,), other) && r@.id == other@);
}

/// A subscriber of a room is one of its channel, and the sender of a room is that
/// channel.
pub proof fn law_room_channel(room: Room, rx: Receiver<Frame>, tx: &Sender<Frame>)
    requires
        call_ensures(Room::subscribe, (&room,), rx),
        call_ensures(Room::sender, (&room,), tx),
    ensures
        call_ensures(Sender::<Frame>::subscribe, (&room.channel(),), rx),
        *tx == room.channel(),
{
}

/// A caller of a broadcast is told the receivers that it reached, or that there were
/// none, and the recorder counts it for the room.
pub proof fn law_broadcasts_are_told(
    stats: Option<StatsRecorder>,
    room: &str,
    bytes: usize,
    outcome: Result<usize, ()>,
    r: Result<usize, WsError>,
    traffic: RoomStats,
)
    requires
        call_ensures(record_broadcast, (&stats, room, bytes, outcome), r),
        is_traffic_of(traffic, bytes as u64, r),
    ensures
        outcome matches Ok(n) ==> r == Ok::<usize, WsError>(n),
        outcome is Err ==> r == Err::<usize, WsError>(WsError::BroadcastFull),
        stats matches Some(recorder) ==> exists|before: Journal| #[trigger]
            revised(
                recorder.book(),
                before,
                before.after(Recording { room: Some(room@), traffic }),
            ),
{
    assert(traffic == traffic_of(bytes, r));
}

/// The names that a room shows are those of its participants: as many as there are,
/// and each the name of one of them.
pub proof fn law_names_are_shown(room: Room, names: Vec<String>, id: u32, i: int)
    requires
        room.wf(),
        call_ensures(Room::participant_names, (&room,), names),
    ensures
        room@.roster.contains_key(id) ==> exists|k: int|
            0 <= k < names@.len() && (#[trigger] names@[k])@ == room@.roster[id],
        0 <= i < names@.len() ==> exists|who: u32| #[trigger]
            room@.roster.contains_key(who) && room@.roster[who] == names@[i]@,
        names@.len() == room@.roster.dom().len(),
{
    let roster = room@.roster;
    let entries = choose|entries: Seq<(u32, String)>| #[trigger]
        lists(entries, roster) && entries.len() == names@.len() && forall|i: int|
            0 <= i < names@.len() ==> (#[trigger] names@[i])@ == entries[i].1@;
    if roster.contains_key(id) {
        let k = choose|k: int| 0 <= k < entries.len() && (#[trigger] entries[k]).0 == id;
        assert(names@[k]@ == entries[k].1@);
    }
    if 0 <= i < names@.len() {
        assert(roster.contains_key(entries[i].0));
    }
    let ids = Seq::new(entries.len(), |k: int| entries[k].0);
    assert(ids.no_duplicates()) by {
        assert forall|a: int, b: int| 0 <= a < ids.len() && 0 <= b < ids.len() && a != b implies
            ids[a] != ids[b] by {
            if a < b {
                assert(entries[a].0 != entries[b].0);
            } else {
                assert(entries[b].0 != entries[a].0);
            }
        }
    }
    ids.unique_seq_to_set();
    assert(ids.to_set() =~= roster.dom()) by {
        assert forall|who: u32| ids.to_set().contains(who) <==> roster.dom().contains(who) by {
            if roster.contains_key(who) {
                let k = choose|k: int| 0 <= k < entries.len() && (#[trigger] entries[k]).0 == who;
                assert(ids[k] == who);
            }
            if ids.contains(who) {
                let k = ids.index_of(who);
                assert(entries[k].0 == who);
            }
        }
    }
}

/// A room shows the recorder that it counts in.
pub proof fn law_recorder_is_shown(room: Room, r: Option<&StatsRecorder>)
    requires
        call_ensures(Room::stats, (&room,), r),
    ensures
        r is Some <==> room@.stats is Some,
        r matches Some(recorder) ==> room@.stats == Some(*recorder),
{
}

} // verus!
