//! Multi-node room fan-out over Redis pub/sub.
//!
//! Each node keeps its local rooms in an ordinary [`RoomManager`]. A broadcast
//! goes to the local room and is published once on the room's channel; every node
//! applies what it receives there to its local room of that id, if it hosts one.
//! Remote messages never make rooms. The envelope carries the id of the node that
//! published it, and a node drops its own.
//!
//! [`RedisRoomRegistry`] decides what is delivered and builds the command that is
//! sent to Redis; the connection itself is the caller's. Redis pub/sub is
//! at-most-once: no persistence, no replay, no acknowledgement.
use crate::channel::{came_of, handed, made_with, sent, valid_capacity};
use crate::codec::{bytes_from_vec, bytes_of, Frame, Payload};
use crate::error::WsError;
use crate::registry::{
    hosts, law_get_or_create_is_idempotent, opening_counted, others_same, room_place, Registry,
    RoomManager, RoomRegistry,
};
use crate::room::{counted, delivered, told, Room, RoomState};
use crate::text::{strip_prefix, text_from_utf8};
use redis::Cmd;
use tokio::sync::broadcast::error::SendError;
use tokio::sync::broadcast::Sender;
use vstd::bytes::{spec_u64_to_le_bytes, u64_to_le_bytes};
use vstd::prelude::*;
use vstd::slice::{slice_subrange, slice_to_vec};
use vstd::utf8::{
    decode_utf8, encode_utf8, encode_utf8_decode_utf8, encode_utf8_valid_utf8, valid_utf8,
};

verus! {

/// Default Redis channel prefix: `ws-kit:room:{room_id}`.
pub const DEFAULT_CHANNEL_PREFIX: &'static str = "ws-kit:room:";

/// Envelope protocol version byte (fail-closed on mismatch).
pub const ENVELOPE_VERSION: u8 = 1;

/// Payload kind tag of a text frame.
pub const KIND_TEXT: u8 = 0;

/// Payload kind tag of a binary frame.
pub const KIND_BINARY: u8 = 1;

/// Total envelope header length: version (1) + node id (16) + kind (1).
pub const HEADER_LEN: usize = 18;

/// A Redis command.
#[verifier::external_type_specification]
#[verifier::external_body]
pub struct ExCmd(Cmd);

/// The arguments of a command, its name first.
pub uninterp spec fn arguments(cmd: Cmd) -> Seq<Seq<u8>>;

/// `redis::Cmd::new` makes a command without arguments.
#[verifier::external_body]
fn command() -> (r: Cmd)
    ensures
        arguments(r).len() == 0,
{
    Cmd::new()
}

/// `redis::Cmd::arg` appends one argument.
#[verifier::external_body]
fn append(cmd: &mut Cmd, arg: &[u8])
    ensures
        arguments(*final(cmd)) == arguments(*old(cmd)).push(arg@),
{
    cmd.arg(arg);
}

/// The id of a node from two random numbers.
pub fn node_id_from(hi: u64, lo: u64) -> (r: [u8; 16])
    ensures
        r@ == spec_u64_to_le_bytes(hi) + spec_u64_to_le_bytes(lo),
{
    let h = u64_to_le_bytes(hi);
    let l = u64_to_le_bytes(lo);
    let r = [
        h[0], h[1], h[2], h[3], h[4], h[5], h[6], h[7],
        l[0], l[1], l[2], l[3], l[4], l[5], l[6], l[7],
    ];
    assert(r@ == spec_u64_to_le_bytes(hi) + spec_u64_to_le_bytes(lo));
    r
}

/// The kind tag of a frame.
pub open spec fn kind(frame: Payload) -> u8 {
    match frame {
        Payload::Text(_) => KIND_TEXT,
        Payload::Binary(_) => KIND_BINARY,
    }
}

/// The envelope of a frame: `version(1) | node_id(16) | kind(1) | payload`.
pub open spec fn enveloped(node_id: Seq<u8>, frame: Payload) -> Seq<u8> {
    seq![ENVELOPE_VERSION] + node_id + seq![kind(frame)] + frame.bytes()
}

/// The publisher and the frame of an envelope; an error where the header is cut
/// short, the version or the kind is unknown, or text is not UTF-8.
pub open spec fn opened(bytes: Seq<u8>) -> Result<(Seq<u8>, Payload), WsError> {
    if bytes.len() < HEADER_LEN || bytes[0] != ENVELOPE_VERSION {
        Err(WsError::InvalidMessage)
    } else {
        let node_id = bytes.subrange(1, 17);
        let payload = bytes.skip(HEADER_LEN as int);
        if bytes[17] == KIND_TEXT && valid_utf8(payload) {
            Ok((node_id, Payload::Text(decode_utf8(payload))))
        } else if bytes[17] == KIND_BINARY {
            Ok((node_id, Payload::Binary(payload)))
        } else {
            Err(WsError::InvalidMessage)
        }
    }
}

/// The publisher and the frame of a result.
pub open spec fn opened_result(r: Result<([u8; 16], Frame), WsError>) -> Result<
    (Seq<u8>, Payload),
    WsError,
> {
    match r {
        Ok((node_id, frame)) => Ok((node_id@, frame@)),
        Err(e) => Err(e),
    }
}

/// Encode a frame into the pub/sub envelope.
pub fn encode_envelope(node_id: &[u8; 16], frame: &Frame) -> (r: Vec<u8>)
    ensures
        r@ == enveloped(node_id@, frame@),
{
    let mut out: Vec<u8> = Vec::new();
    out.push(ENVELOPE_VERSION);
    out.extend_from_slice(node_id.as_slice());
    out.push(
        match frame {
            Frame::Text(_) => KIND_TEXT,
            Frame::Binary(_) => KIND_BINARY,
        },
    );
    out.extend_from_slice(frame.as_bytes());
    assert(out@ == enveloped(node_id@, frame@));
    out
}

/// Decode an envelope, keeping the publisher's node id so receivers can drop
/// self-echoes.
pub fn decode_envelope(bytes: &[u8]) -> (r: Result<([u8; 16], Frame), WsError>)
    ensures
        opened_result(r) == opened(bytes@),
{
    let n: usize = bytes.len();
    if n < HEADER_LEN || bytes[0] != ENVELOPE_VERSION {
        return Err(WsError::InvalidMessage);
    }
    let node_id: [u8; 16] = [
        bytes[1], bytes[2], bytes[3], bytes[4], bytes[5], bytes[6], bytes[7], bytes[8],
        bytes[9], bytes[10], bytes[11], bytes[12], bytes[13], bytes[14], bytes[15], bytes[16],
    ];
    assert(node_id@ == bytes@.subrange(1, 17));
    let payload = slice_to_vec(slice_subrange(bytes, HEADER_LEN, n));
    assert(payload@ == bytes@.skip(HEADER_LEN as int));
    if bytes[17] == KIND_TEXT {
        match text_from_utf8(payload) {
            Some(text) => Ok((node_id, Frame::Text(text))),
            None => Err(WsError::InvalidMessage),
        }
    } else if bytes[17] == KIND_BINARY {
        Ok((node_id, Frame::Binary(bytes_from_vec(payload))))
    } else {
        Err(WsError::InvalidMessage)
    }
}

fn same_node(a: &[u8; 16], b: &[u8; 16]) -> (r: bool)
    ensures
        r == (a@ == b@),
{
    for i in 0..16usize
        invariant
            forall|j: int| 0 <= j < i ==> a@[j] == b@[j],
    {
        if a[i] != b[i] {
            return false;
        }
    }
    assert(a@ == b@);
    true
}

/// What a broadcast did: how many local receivers it reached, and the command
/// that publishes it to the other nodes.
pub struct Outgoing {
    /// Local receivers reached.
    pub local: usize,
    /// The command to send to Redis.
    pub command: Cmd,
}

/// How a local broadcast came out that reached `n` receivers.
pub open spec fn outcome_of(n: usize) -> Result<usize, WsError> {
    if n == 0 {
        Err(WsError::BroadcastFull)
    } else {
        Ok(n)
    }
}

/// The command that publishes `envelope` on `channel`.
pub open spec fn publication(channel: Seq<char>, envelope: Seq<u8>) -> Seq<Seq<u8>> {
    seq![encode_utf8("PUBLISH"@), encode_utf8(channel), envelope]
}

/// How a delivery came out that reached so many receivers, or none.
pub open spec fn outcome_for(reached: Option<usize>) -> Result<usize, WsError> {
    match reached {
        Some(n) => Ok(n),
        None => Err(WsError::BroadcastFull),
    }
}

/// Whether a frame with the given payload was handed to the channel of `tx`, and
/// `reached` tells what came of it.
pub open spec fn passed_on(tx: Sender<Frame>, payload: Payload, reached: Option<usize>) -> bool {
    exists|frame: Frame|
        frame@ == payload && #[trigger] delivered(tx, frame, outcome_for(reached))
}

/// Whether `frame` was handed to the channel of the room on this node, and
/// `outcome` is what came of it. A room that is not hosted yet gets a new channel,
/// behind those of the others. No other room's channel changes.
pub open spec fn broadcast_here(
    before: Registry,
    channels: Seq<Sender<Frame>>,
    room_id: Seq<char>,
    frame: Frame,
    outcome: Result<usize, WsError>,
    channels_after: Seq<Sender<Frame>>,
) -> bool {
    exists|tx: Sender<Frame>| #[trigger]
        delivered(tx, frame, outcome) && if hosts(before.rooms, room_id) {
            let place = room_place(before.rooms, room_id);
            tx == channels[place] && others_same(channels, place, channels_after)
        } else {
            &&& made_with(tx) == before.capacity
            &&& sent(tx).len() == 0
            &&& others_same(channels.push(tx), channels.len() as int, channels_after)
        }
}

/// What an envelope that came in on the channel of `room_id` does to the rooms of
/// the node `id` and their channels, and what is returned of it.
///
/// A malformed envelope is an error. The node's own messages and those for rooms
/// that it does not host change nothing. Any other frame is handed to the channel
/// of the room.
pub open spec fn applied(
    before: Registry,
    channels: Seq<Sender<Frame>>,
    id: Seq<u8>,
    room_id: Seq<char>,
    envelope: Seq<u8>,
    r: Result<Option<usize>, WsError>,
    after: Registry,
    channels_after: Seq<Sender<Frame>>,
) -> bool {
    match opened(envelope) {
        Err(e) => {
            &&& r == Err::<Option<usize>, WsError>(e)
            &&& after == before
            &&& channels_after == channels
        },
        Ok((publisher, payload)) => if publisher == id || !hosts(before.rooms, room_id) {
            &&& r == Ok::<Option<usize>, WsError>(None)
            &&& after == before
            &&& channels_after == channels
        } else {
            &&& r matches Ok(reached)
            &&& reached matches Some(n) ==> n >= 1
            &&& passed_on(channels[room_place(before.rooms, room_id)], payload, reached)
            &&& after == before.after_broadcast(room_id, payload, outcome_for(reached))
            &&& counted(
                before.stats,
                room_id,
                payload.bytes().len() as usize,
                outcome_for(reached),
            )
            &&& others_same(channels, room_place(before.rooms, room_id), channels_after)
        },
    }
}

/// Multi-node room registry: a local [`RoomManager`], and the fan-out over Redis
/// pub/sub.
pub struct RedisRoomRegistry {
    local: RoomManager,
    prefix: String,
    node_id: [u8; 16],
}

impl RedisRoomRegistry {
    /// The rooms of this node.
    pub closed spec fn rooms(&self) -> Registry {
        self.local@
    }

    /// The channels of the rooms of this node.
    pub closed spec fn channels(&self) -> Seq<Sender<Frame>> {
        self.local.channels()
    }

    /// The channel prefix.
    pub closed spec fn channel_prefix(&self) -> Seq<char> {
        self.prefix@
    }

    /// The id of this node.
    pub closed spec fn id(&self) -> Seq<u8> {
        self.node_id@
    }

    /// The local rooms are in order.
    pub closed spec fn wf(&self) -> bool {
        self.local.wf()
    }

    /// Assemble a registry from a local manager, a channel prefix, and the id of
    /// this node.
    pub fn from_parts<T: Into<String>>(local: RoomManager, prefix: T, node_id: [u8; 16]) -> (r:
        Self)
        requires
            local.wf(),
        ensures
            r.wf(),
            r.rooms() == local@,
            r.channels() == local.channels(),
            exists|text: String| #[trigger]
                call_ensures(T::into, (prefix,), text) && r.channel_prefix() == text@,
            r.id() == node_id@,
    {
        let text: String = prefix.into();
        RedisRoomRegistry { local, prefix: text, node_id }
    }

    /// The local half of the registry.
    pub fn local(&self) -> (r: &RoomManager)
        requires
            self.wf(),
        ensures
            r.wf(),
            r@ == self.rooms(),
            r.channels() == self.channels(),
    {
        &self.local
    }

    /// The local half of the registry, to change: joins, leaves, and cleanup.
    pub fn local_mut(&mut self) -> (r: &mut RoomManager)
        requires
            old(self).wf(),
        ensures
            r.wf(),
            r@ == old(self).rooms(),
            r.channels() == old(self).channels(),
            final(r).wf() ==> final(self).wf(),
            final(self).rooms() == final(r)@,
            final(self).channels() == final(r).channels(),
            final(self).channel_prefix() == old(self).channel_prefix(),
            final(self).id() == old(self).id(),
    {
        &mut self.local
    }

    /// Channel prefix in use.
    pub fn prefix(&self) -> (r: &str)
        ensures
            r@ == self.channel_prefix(),
    {
        self.prefix.as_str()
    }

    /// Channel name for a room id.
    pub fn channel_name(&self, room_id: &str) -> (r: String)
        ensures
            r@ == self.channel_prefix() + room_id@,
    {
        let mut out = self.prefix.clone();
        out.append(room_id);
        out
    }

    /// The pattern of all channels with the prefix.
    pub fn channel_pattern(&self) -> (r: String)
        ensures
            r@ == self.channel_prefix().push('*'),
    {
        let mut out = self.prefix.clone();
        out.push('*');
        out
    }

    /// Room id carried by a channel name, if it matches the prefix.
    pub fn room_id_from_channel<'a>(&self, channel: &'a str) -> (r: Option<&'a str>)
        ensures
            match r {
                Some(room_id) => channel@ == self.channel_prefix() + room_id@,
                None => !self.channel_prefix().is_prefix_of(channel@),
            },
    {
        strip_prefix(channel, self.prefix.as_str())
    }

    /// This registry's publisher id (self-echo suppression).
    pub fn node_id(&self) -> (r: [u8; 16])
        ensures
            r@ == self.id(),
    {
        self.node_id
    }

    /// The command that publishes a frame on the channel of a room (no local
    /// delivery).
    pub fn publish(&self, frame: &Frame, room_id: &str) -> (r: Cmd)
        ensures
            arguments(r) == publication(
                self.channel_prefix() + room_id@,
                enveloped(self.id(), frame@),
            ),
    {
        let channel = self.channel_name(room_id);
        let envelope = encode_envelope(&self.node_id, frame);
        let mut cmd = command();
        append(&mut cmd, "PUBLISH".as_bytes());
        append(&mut cmd, channel.as_str().as_bytes());
        append(&mut cmd, &envelope);
        assert(arguments(cmd) == publication(
            self.channel_prefix() + room_id@,
            enveloped(self.id(), frame@),
        ));
        cmd
    }

    /// Broadcast a frame to a room across the fleet: to the local receivers now
    /// (the room is created if this node does not host it yet), and to the other
    /// nodes by the command that is returned.
    ///
    /// An empty local room is no error: other nodes may hold receivers.
    pub fn broadcast(&mut self, room_id: &str, frame: Frame) -> (r: Outgoing)
        requires
            old(self).wf(),
            hosts(old(self).rooms().rooms, room_id@) || valid_capacity(old(self).rooms().capacity),
        ensures
            final(self).wf(),
            final(self).channel_prefix() == old(self).channel_prefix(),
            final(self).id() == old(self).id(),
            final(self).rooms() == old(self).rooms().with_room(
                room_id@,
                old(self).rooms().capacity,
            ).after_broadcast(room_id@, frame@, outcome_of(r.local)),
            hosts(old(self).rooms().rooms, room_id@) || opening_counted(old(self).rooms().stats),
            counted(
                old(self).rooms().stats,
                room_id@,
                frame@.bytes().len() as usize,
                outcome_of(r.local),
            ),
            broadcast_here(
                old(self).rooms(),
                old(self).channels(),
                room_id@,
                frame,
                outcome_of(r.local),
                final(self).channels(),
            ),
            arguments(r.command) == publication(
                old(self).channel_prefix() + room_id@,
                enveloped(old(self).id(), frame@),
            ),
    {
        let command = self.publish(&frame, room_id);
        let _ = self.local.get_or_create(room_id);
        let ghost tx = self.local.channels()[room_place(self.local@.rooms, room_id@)];
        proof {
            self.local.law_channels_are_those_of_the_rooms();
            let capacity = old(self).rooms().capacity;
            law_get_or_create_is_idempotent(old(self).rooms(), room_id@, capacity, capacity);
        }
        let local: usize = match self.local.broadcast(room_id, frame) {
            Some(Ok(n)) => n,
            _ => 0,
        };
        assert(delivered(tx, frame, outcome_of(local)));
        Outgoing { local, command }
    }

    /// Apply a raw pub/sub envelope to the local registry: decode it, drop
    /// self-echoes, and deliver to the local room only if this node hosts it.
    ///
    /// Returns `Ok(Some(n))` with the local receiver count when delivered,
    /// `Ok(None)` when the message was a self-echo, for an unhosted room, or for
    /// one without receivers, and the decode error for malformed envelopes.
    pub fn apply_remote(&mut self, room_id: &str, envelope: &[u8]) -> (r: Result<
        Option<usize>,
        WsError,
    >)
        requires
            old(self).wf(),
        ensures
            final(self).wf(),
            final(self).channel_prefix() == old(self).channel_prefix(),
            final(self).id() == old(self).id(),
            applied(
                old(self).rooms(),
                old(self).channels(),
                old(self).id(),
                room_id@,
                envelope@,
                r,
                final(self).rooms(),
                final(self).channels(),
            ),
    {
        match decode_envelope(envelope) {
            Ok((publisher, frame)) => {
                if same_node(&publisher, &self.node_id) {
                    return Ok(None);
                }
                let ghost tx = self.channels()[room_place(self.rooms().rooms, room_id@)];
                let reached: Option<usize> = match self.local.broadcast(room_id, frame) {
                    Some(Ok(n)) => Some(n),
                    _ => None,
                };
                assert(hosts(old(self).rooms().rooms, room_id@) ==> delivered(
                    tx,
                    frame,
                    outcome_for(reached),
                ));
                Ok(reached)
            },
            Err(e) => Err(e),
        }
    }

    /// Handle one message of the subscription. Returns `None` where the channel
    /// does not have the prefix, else what [`Self::apply_remote`] returns.
    pub fn on_message(&mut self, channel: &str, payload: &[u8]) -> (r: Option<
        Result<Option<usize>, WsError>,
    >)
        requires
            old(self).wf(),
        ensures
            final(self).wf(),
            final(self).channel_prefix() == old(self).channel_prefix(),
            final(self).id() == old(self).id(),
            match r {
                Some(outcome) => {
                    &&& old(self).channel_prefix().is_prefix_of(channel@)
                    &&& applied(
                        old(self).rooms(),
                        old(self).channels(),
                        old(self).id(),
                        channel@.skip(old(self).channel_prefix().len() as int),
                        payload@,
                        outcome,
                        final(self).rooms(),
                        final(self).channels(),
                    )
                },
                None => {
                    &&& !old(self).channel_prefix().is_prefix_of(channel@)
                    &&& final(self).rooms() == old(self).rooms()
                    &&& final(self).channels() == old(self).channels()
                },
            },
    {
        match self.room_id_from_channel(channel) {
            Some(room_id) => {
                assert(channel@.skip(self.channel_prefix().len() as int) == room_id@);
                Some(self.apply_remote(room_id, payload))
            },
            None => None,
        }
    }
}

impl RoomRegistry for RedisRoomRegistry {
    open spec fn registry(&self) -> Registry {
        self.rooms()
    }

    open spec fn room_channels(&self) -> Seq<Sender<Frame>> {
        self.channels()
    }

    open spec fn in_order(&self) -> bool {
        self.wf()
    }

    fn get_or_create(&mut self, room_id: &str) -> (r: &Room)
        ensures
            final(self).channel_prefix() == old(self).channel_prefix(),
            final(self).id() == old(self).id(),
    {
        self.local.get_or_create(room_id)
    }

    fn get(&self, room_id: &str) -> (r: Option<&Room>) {
        self.local.get(room_id)
    }

    fn remove(&mut self, room_id: &str) -> (r: Option<Room>)
        ensures
            final(self).channel_prefix() == old(self).channel_prefix(),
            final(self).id() == old(self).id(),
    {
        self.local.remove(room_id)
    }

    fn room_count(&self) -> (r: usize) {
        self.local.room_count()
    }

    fn room_ids(&self) -> (r: Vec<String>) {
        self.local.room_ids()
    }

    fn total_participants(&self) -> (r: usize) {
        self.local.total_participants()
    }

    fn cleanup(&mut self) -> (r: usize)
        ensures
            final(self).channel_prefix() == old(self).channel_prefix(),
            final(self).id() == old(self).id(),
    {
        self.local.cleanup()
    }

    fn cleanup_empty(&mut self) -> (r: usize)
        ensures
            final(self).channel_prefix() == old(self).channel_prefix(),
            final(self).id() == old(self).id(),
    {
        self.local.cleanup_empty()
    }
}

/// A frame comes out of its envelope as it went in, with the id of the node that
/// published it.
pub proof fn law_envelope_round_trip(node_id: Seq<u8>, frame: Payload)
    requires
        node_id.len() == 16,
    ensures
        opened(enveloped(node_id, frame)) == Ok::<(Seq<u8>, Payload), WsError>((node_id, frame)),
{
    let bytes = enveloped(node_id, frame);
    assert(bytes.subrange(1, 17) == node_id);
    assert(bytes.skip(18) == frame.bytes());
    assert(bytes[17] == kind(frame));
    if let Payload::Text(text) = frame {
        encode_utf8_valid_utf8(text);
        encode_utf8_decode_utf8(text);
    }
}

/// An envelope with a short header, another version or an unknown kind is
/// refused, and so is text that is not UTF-8.
pub proof fn law_malformed_envelopes_fail_closed(bytes: Seq<u8>)
    requires
        ({
            ||| bytes.len() < 18
            ||| bytes[0] != 1
            ||| bytes[17] > 1
            ||| bytes[17] == 0 && !valid_utf8(bytes.skip(18))
        }),
    ensures
        opened(bytes) == Err::<(Seq<u8>, Payload), WsError>(WsError::InvalidMessage),
{
}

/// A node that receives what it published itself drops it.
pub proof fn law_self_echo_is_dropped(
    before: Registry,
    channels: Seq<Sender<Frame>>,
    id: Seq<u8>,
    room_id: Seq<char>,
    frame: Payload,
    r: Result<Option<usize>, WsError>,
    after: Registry,
    channels_after: Seq<Sender<Frame>>,
)
    requires
        id.len() == 16,
        applied(
            before,
            channels,
            id,
            room_id,
            enveloped(id, frame),
            r,
            after,
            channels_after,
        ),
    ensures
        r == Ok::<Option<usize>, WsError>(None),
        after == before,
        channels_after == channels,
{
    law_envelope_round_trip(id, frame);
}

/// What another node published is handed, as it was, to the channel of the local
/// room, and the receivers that it reached there are returned.
pub proof fn law_peer_message_is_delivered(
    before: Registry,
    channels: Seq<Sender<Frame>>,
    id: Seq<u8>,
    peer: Seq<u8>,
    room_id: Seq<char>,
    frame: Payload,
    r: Result<Option<usize>, WsError>,
    after: Registry,
    channels_after: Seq<Sender<Frame>>,
)
    requires
        peer.len() == 16,
        peer != id,
        hosts(before.rooms, room_id),
        applied(
            before,
            channels,
            id,
            room_id,
            enveloped(peer, frame),
            r,
            after,
            channels_after,
        ),
    ensures
        r is Ok,
        passed_on(channels[room_place(before.rooms, room_id)], frame, r->Ok_0),
        r matches Ok(Some(n)) ==> after.rooms == before.with_state(
            room_id,
            RoomState {
                sent: before.room(room_id).sent.push(frame),
                ..before.room(room_id)
            },
        ).rooms,
        r matches Ok(None) ==> after.rooms == before.with_state(
            room_id,
            before.room(room_id),
        ).rooms,
{
    law_envelope_round_trip(peer, frame);
}

/// Remote traffic never makes a room, and never removes one.
pub proof fn law_remote_traffic_makes_no_rooms(
    before: Registry,
    channels: Seq<Sender<Frame>>,
    id: Seq<u8>,
    room_id: Seq<char>,
    envelope: Seq<u8>,
    r: Result<Option<usize>, WsError>,
    after: Registry,
    channels_after: Seq<Sender<Frame>>,
)
    requires
        applied(before, channels, id, room_id, envelope, r, after, channels_after),
    ensures
        after.rooms.len() == before.rooms.len(),
        channels_after.len() == channels.len(),
        forall|i: int| 0 <= i < before.rooms.len() ==> (#[trigger] after.rooms[i]).id
            == before.rooms[i].id,
{
    if hosts(before.rooms, room_id) {
        let i = room_place(before.rooms, room_id);
        assert(0 <= i < before.rooms.len());
    }
}

/// The channel of a room gives its id back, and of no other room.
pub proof fn law_channel_names_round_trip(prefix: Seq<char>, room_id: Seq<char>, found: Seq<char>)
    requires
        prefix + room_id == prefix + found,
    ensures
        found == room_id,
        prefix.is_prefix_of(prefix + room_id),
{
    assert((prefix + room_id).skip(prefix.len() as int) == room_id);
    assert((prefix + found).skip(prefix.len() as int) == found);
}

/// Texts with the same UTF-8 form are the same.
proof fn lemma_utf8_tells_apart(a: Seq<char>, b: Seq<char>)
    requires
        encode_utf8(a) == encode_utf8(b),
    ensures
        a == b,
{
    encode_utf8_decode_utf8(a);
    encode_utf8_decode_utf8(b);
}

/// The envelope is one byte for the version, the id of the node, one byte for the
/// kind, and the bytes of the frame.
pub proof fn law_envelope_layout(node: [u8; 16], frame: Frame, r: Vec<u8>)
    requires
        call_ensures(encode_envelope, (&node, &frame), r),
    ensures
        frame matches Frame::Text(text) ==> r@ == seq![1u8] + node@ + seq![0u8] + encode_utf8(
            text@,
        ),
        frame matches Frame::Binary(data) ==> r@ == seq![1u8] + node@ + seq![1u8] + bytes_of(data),
        r@ == enveloped(node@, frame@),
{
}

/// An envelope is opened by its layout: an error where it is too short, of another
/// version or of another kind, or where text is not UTF-8.
pub proof fn law_envelope_opening(bytes: &[u8], r: Result<([u8; 16], Frame), WsError>)
    requires
        call_ensures(decode_envelope, (bytes,), r),
    ensures
        bytes@.len() < 18 || bytes@[0] != 1 || bytes@[17] > 1 ==> r == Err::<
            ([u8; 16], Frame),
            WsError,
        >(WsError::InvalidMessage),
        bytes@.len() >= 18 && bytes@[0] == 1 && bytes@[17] == 0 ==> if valid_utf8(bytes@.skip(18)) {
            &&& r is Ok
            &&& r->Ok_0.0@ == bytes@.subrange(1, 17)
            &&& r->Ok_0.1 is Text
            &&& r->Ok_0.1->Text_0@ == decode_utf8(bytes@.skip(18))
        } else {
            r == Err::<([u8; 16], Frame), WsError>(WsError::InvalidMessage)
        },
        bytes@.len() >= 18 && bytes@[0] == 1 && bytes@[17] == 1 ==> {
            &&& r is Ok
            &&& r->Ok_0.0@ == bytes@.subrange(1, 17)
            &&& r->Ok_0.1 is Binary
            &&& bytes_of(r->Ok_0.1->Binary_0) == bytes@.skip(18)
        },
        opened_result(r) == opened(bytes@),
{
}

/// What one node puts in an envelope, another takes out of it.
pub proof fn law_envelopes_travel(
    node: [u8; 16],
    frame: Frame,
    envelope: Vec<u8>,
    bytes: &[u8],
    r: Result<([u8; 16], Frame), WsError>,
)
    requires
        call_ensures(encode_envelope, (&node, &frame), envelope),
        bytes@ == envelope@,
        call_ensures(decode_envelope, (bytes,), r),
    ensures
        r is Ok,
        r->Ok_0.0@ == node@,
        r->Ok_0.1@ == frame@,
{
    law_envelope_round_trip(node@, frame@);
}

/// The channel of a room is the prefix and the id of the room, unchanged, and gives
/// the id back; a name without the prefix gives none.
pub proof fn law_channels_are_named_by_rooms(
    node: RedisRoomRegistry,
    peer: RedisRoomRegistry,
    prefix: &str,
    theirs: &str,
    room_id: &str,
    name: String,
    pattern: String,
    channel: &str,
    found: Option<&str>,
)
    requires
        call_ensures(RedisRoomRegistry::prefix, (&node,), prefix),
        call_ensures(RedisRoomRegistry::prefix, (&peer,), theirs),
        call_ensures(RedisRoomRegistry::channel_name, (&node, room_id), name),
        call_ensures(RedisRoomRegistry::channel_pattern, (&node,), pattern),
        call_ensures(RedisRoomRegistry::room_id_from_channel, (&peer, channel), found),
    ensures
        name@ == prefix@ + room_id@,
        pattern@ == prefix@ + seq!['*'],
        theirs@ == prefix@ && channel@ == name@ ==> found is Some && found->0@ == room_id@,
        found is Some ==> channel@ == theirs@ + found->0@,
        found is None ==> !theirs@.is_prefix_of(channel@),
{
    if theirs@ == prefix@ && channel@ == name@ {
        assert(prefix@.is_prefix_of(prefix@ + room_id@));
        law_channel_names_round_trip(prefix@, room_id@, found->0@);
    }
}

/// The command that publishes a frame has three arguments: the word `PUBLISH`, the
/// channel prefix with the id of the room as it is, and the envelope of the frame.
pub proof fn law_publication(
    node: RedisRoomRegistry,
    prefix: &str,
    id: [u8; 16],
    frame: Frame,
    room_id: &str,
    envelope: Vec<u8>,
    r: Cmd,
)
    requires
        call_ensures(RedisRoomRegistry::prefix, (&node,), prefix),
        call_ensures(RedisRoomRegistry::node_id, (&node,), id),
        call_ensures(encode_envelope, (&id, &frame), envelope),
        call_ensures(RedisRoomRegistry::publish, (&node, &frame, room_id), r),
    ensures
        arguments(r).len() == 3,
        arguments(r)[0] == encode_utf8("PUBLISH"@),
        arguments(r)[1] == encode_utf8(prefix@ + room_id@),
        arguments(r)[2] == envelope@,
{
}

/// A broadcast across the fleet publishes its frame as `publish` does.
pub proof fn law_broadcast_publishes(
    node: &mut RedisRoomRegistry,
    frame: Frame,
    room_id: &str,
    published: Cmd,
    r: Outgoing,
)
    requires
        call_ensures(RedisRoomRegistry::publish, (old(node), &frame, room_id), published),
        call_ensures(RedisRoomRegistry::broadcast, (node, room_id, frame), r),
    ensures
        arguments(r.command) == arguments(published),
{
}

/// A node that gets a command's envelope on the command's channel, with the same
/// prefix, finds the id of the room that was broadcast to.
pub proof fn law_peers_find_the_room(
    node: RedisRoomRegistry,
    peer: RedisRoomRegistry,
    prefix: &str,
    theirs: &str,
    frame: Frame,
    room_id: &str,
    command: Cmd,
    channel: &str,
    found: Option<&str>,
)
    requires
        call_ensures(RedisRoomRegistry::prefix, (&node,), prefix),
        call_ensures(RedisRoomRegistry::prefix, (&peer,), theirs),
        theirs@ == prefix@,
        call_ensures(RedisRoomRegistry::publish, (&node, &frame, room_id), command),
        encode_utf8(channel@) == arguments(command)[1],
        call_ensures(RedisRoomRegistry::room_id_from_channel, (&peer, channel), found),
    ensures
        found is Some,
        found->0@ == room_id@,
{
    lemma_utf8_tells_apart(channel@, prefix@ + room_id@);
    assert(prefix@.is_prefix_of(prefix@ + room_id@));
    law_channel_names_round_trip(prefix@, room_id@, found->0@);
}

/// What one node publishes for a room, a peer with the same prefix hands to the
/// channel of its room of that id, and to no other; the node itself drops it, and
/// so does a peer without that room.
pub proof fn law_published_frames_arrive(
    node: RedisRoomRegistry,
    peer: &mut RedisRoomRegistry,
    frame: Frame,
    room_id: &str,
    command: Cmd,
    channel: &str,
    envelope: &[u8],
    r: Option<Result<Option<usize>, WsError>>,
    i: int,
)
    requires
        old(peer).wf(),
        old(peer).channel_prefix() == node.channel_prefix(),
        node.id().len() == 16,
        call_ensures(RedisRoomRegistry::publish, (&node, &frame, room_id), command),
        encode_utf8(channel@) == arguments(command)[1],
        envelope@ == arguments(command)[2],
        call_ensures(RedisRoomRegistry::on_message, (peer, channel, envelope), r),
    ensures
        r is Some,
        r->0 is Ok,
        old(peer).id() == node.id() ==> r->0->Ok_0 is None && final(peer).rooms()
            == old(peer).rooms() && final(peer).channels() == old(peer).channels(),
        (forall|k: int|
            0 <= k < old(peer).rooms().rooms.len() ==> (#[trigger] old(peer).rooms().rooms[k]).id
                != room_id@) ==> r->0->Ok_0 is None && final(peer).rooms() == old(peer).rooms(),
        old(peer).id() != node.id() && 0 <= i < old(peer).rooms().rooms.len()
            && old(peer).rooms().rooms[i].id == room_id@ ==> {
            &&& exists|f: Frame, outcome: Result<usize, SendError<Frame>>| #[trigger]
                call_ensures(
                    Sender::<Frame>::send,
                    (&old(peer).channels()[i], f),
                    outcome,
                ) && f@ == frame@ && (outcome matches Ok(n) ==> r->0->Ok_0 == Some(n)) && (
                outcome is Err ==> r->0->Ok_0 is None)
            &&& final(peer).rooms().rooms.len() == old(peer).rooms().rooms.len()
            &&& r->0->Ok_0 is Some ==> final(peer).rooms().rooms[i].sent
                == old(peer).rooms().rooms[i].sent.push(frame@)
            &&& r->0->Ok_0 is None ==> final(peer).rooms().rooms[i].sent
                == old(peer).rooms().rooms[i].sent
            &&& final(peer).rooms().rooms[i].roster == old(peer).rooms().rooms[i].roster
            &&& forall|k: int|
                0 <= k < old(peer).rooms().rooms.len() && k != i ==> #[trigger] final(
                    peer).rooms().rooms[k] == old(peer).rooms().rooms[k]
        },
{
    let prefix = node.channel_prefix();
    lemma_utf8_tells_apart(channel@, prefix + room_id@);
    assert(prefix.is_prefix_of(prefix + room_id@));
    assert((prefix + room_id@).skip(prefix.len() as int) == room_id@);
    law_envelope_round_trip(node.id(), frame@);
    let rooms = old(peer).rooms().rooms;
    old(peer).local.law_ids_differ();
    if hosts(rooms, room_id@) {
        let place = room_place(rooms, room_id@);
        assert(0 <= place < rooms.len() && rooms[place].id == room_id@);
        if 0 <= i < rooms.len() && rooms[i].id == room_id@ {
            assert(i == place);
            if old(peer).id() != node.id() {
                let reached = r->0->Ok_0;
                let f = choose|f: Frame|
                    f@ == frame@ && #[trigger] delivered(
                        old(peer).channels()[place],
                        f,
                        outcome_for(reached),
                    );
                let told_outcome = choose|outcome: Result<usize, ()>| #[trigger]
                    came_of(old(peer).channels()[place], f, outcome) && outcome_for(reached)
                        == told(outcome);
                let outcome = choose|outcome: Result<usize, SendError<Frame>>| #[trigger]
                    handed(old(peer).channels()[place], f, outcome) && told_outcome
                        == match outcome {
                        Ok(n) => Ok::<usize, ()>(n),
                        Err(_) => Err(()),
                    };
                assert(call_ensures(
                    Sender::<Frame>::send,
                    (&old(peer).channels()[i], f),
                    outcome,
                ));
            }
        }
    } else if 0 <= i < rooms.len() && rooms[i].id == room_id@ {
        assert(hosts(rooms, room_id@));
    }
}

/// `apply_remote` does with an envelope for a room what `on_message` does with it on
/// the channel of that room; a malformed one is an error and changes nothing.
pub proof fn law_malformed_traffic_changes_nothing(
    node: &mut RedisRoomRegistry,
    room_id: &str,
    envelope: &[u8],
    r: Result<Option<usize>, WsError>,
)
    requires
        call_ensures(RedisRoomRegistry::apply_remote, (node, room_id, envelope), r),
    ensures
        envelope@.len() < 18 || envelope@[0] != 1 || envelope@[17] > 1 || (envelope@[17] == 0
            && !valid_utf8(envelope@.skip(18))) ==> r == Err::<Option<usize>, WsError>(
            WsError::InvalidMessage,
        ) && final(node).rooms() == old(node).rooms() && final(node).channels()
            == old(node).channels(),
        envelope@.len() >= 18 && envelope@[0] == 1 && (envelope@[17] == 1 || (envelope@[17] == 0
            && valid_utf8(envelope@.skip(18)))) ==> r is Ok,
        final(node).id() == old(node).id(),
        final(node).channel_prefix() == old(node).channel_prefix(),
{
}

/// A message on a channel without the prefix is passed over.
pub proof fn law_other_channels_are_passed_over(
    node: &mut RedisRoomRegistry,
    channel: &str,
    envelope: &[u8],
    r: Option<Result<Option<usize>, WsError>>,
)
    requires
        call_ensures(RedisRoomRegistry::on_message, (node, channel, envelope), r),
    ensures
        r is None <==> !old(node).channel_prefix().is_prefix_of(channel@),
        r is None ==> final(node).rooms() == old(node).rooms() && final(node).channels()
            == old(node).channels(),
        final(node).id() == old(node).id(),
        final(node).channel_prefix() == old(node).channel_prefix(),
{
}

/// A broadcast across the fleet makes the room where it is not there, hands the frame
/// to its channel once, and tells how many receivers were reached.
pub proof fn law_broadcast_reaches_the_local_room(
    node: &mut RedisRoomRegistry,
    room_id: &str,
    frame: Frame,
    r: Outgoing,
    i: int,
)
    requires
        old(node).wf(),
        call_ensures(RedisRoomRegistry::broadcast, (node, room_id, frame), r),
        0 <= i <= old(node).rooms().rooms.len(),
        i < old(node).rooms().rooms.len() ==> old(node).rooms().rooms[i].id == room_id@,
        i == old(node).rooms().rooms.len() ==> forall|k: int|
            0 <= k < i ==> (#[trigger] old(node).rooms().rooms[k]).id != room_id@,
    ensures
        final(node).rooms().rooms.len() == if i < old(node).rooms().rooms.len() {
            old(node).rooms().rooms.len()
        } else {
            old(node).rooms().rooms.len() + 1
        },
        final(node).rooms().rooms[i].id == room_id@,
        ({
            let sent = if i < old(node).rooms().rooms.len() {
                old(node).rooms().rooms[i].sent
            } else {
                Seq::empty()
            };
            final(node).rooms().rooms[i].sent == if r.local > 0 {
                sent.push(frame@)
            } else {
                sent
            }
        }),
        i == old(node).rooms().rooms.len() ==> final(node).rooms().rooms[i].capacity == old(
            node).rooms().capacity && final(node).rooms().rooms[i].roster == Map::<
            u32,
            Seq<char>,
        >::empty(),
        i < old(node).rooms().rooms.len() ==> final(node).rooms().rooms[i].roster == old(
            node).rooms().rooms[i].roster,
        forall|k: int|
            0 <= k < old(node).rooms().rooms.len() && k != i ==> #[trigger] final(
                node).rooms().rooms[k] == old(node).rooms().rooms[k],
        exists|tx: Sender<Frame>, outcome: Result<usize, SendError<Frame>>| #[trigger]
            call_ensures(Sender::<Frame>::send, (&tx, frame), outcome) && (i < old(
                node).rooms().rooms.len() ==> tx == old(node).channels()[i]) && (outcome matches Ok(n)
                ==> r.local == n) && (outcome is Err ==> r.local == 0),
{
    let rooms = old(node).rooms().rooms;
    old(node).local.law_ids_differ();
    let capacity = old(node).rooms().capacity;
    let made = old(node).rooms().with_room(room_id@, capacity);
    law_get_or_create_is_idempotent(old(node).rooms(), room_id@, capacity, capacity);
    if i < rooms.len() {
        assert(hosts(rooms, room_id@));
        assert(room_place(rooms, room_id@) == i);
    } else {
        assert(!hosts(rooms, room_id@));
        assert(made.rooms[i].id == room_id@);
        let place = room_place(made.rooms, room_id@);
        assert(0 <= place < made.rooms.len() && made.rooms[place].id == room_id@);
        if place < i {
            assert(made.rooms[place] == rooms[place]);
        }
        assert(place == i);
    }
    assert(room_place(made.rooms, room_id@) == i);
    let tx = choose|tx: Sender<Frame>| #[trigger]
        delivered(tx, frame, outcome_of(r.local)) && if hosts(rooms, room_id@) {
            tx == old(node).channels()[i] && others_same(
                old(node).channels(),
                i,
                final(node).channels(),
            )
        } else {
            &&& made_with(tx) == capacity
            &&& sent(tx).len() == 0
            &&& others_same(
                old(node).channels().push(tx),
                old(node).channels().len() as int,
                final(node).channels(),
            )
        };
    let told_outcome = choose|outcome: Result<usize, ()>| #[trigger]
        came_of(tx, frame, outcome) && outcome_of(r.local) == told(outcome);
    let outcome = choose|outcome: Result<usize, SendError<Frame>>| #[trigger]
        handed(tx, frame, outcome) && told_outcome == match outcome {
            Ok(n) => Ok::<usize, ()>(n),
            Err(_) => Err(()),
        };
    assert(call_ensures(Sender::<Frame>::send, (&tx, frame), outcome));
}

/// The id of a node is the bytes of the two numbers, the first one first, each with
/// its lowest byte first.
pub proof fn law_node_ids(hi: u64, lo: u64, r: [u8; 16])
    requires
        call_ensures(node_id_from, (hi, lo), r),
    ensures
        r@.take(8) == spec_u64_to_le_bytes(hi),
        r@.skip(8) == spec_u64_to_le_bytes(lo),
{
    vstd::bytes::lemma_auto_spec_u64_to_from_le_bytes();
    assert(r@.take(8) == spec_u64_to_le_bytes(hi));
    assert(r@.skip(8) == spec_u64_to_le_bytes(lo));
}

/// A registry is made of the rooms, the channel prefix and the node id that it is
/// given, and shows those rooms.
pub proof fn law_registries_are_made_as_told<T: Into<String>>(
    local: RoomManager,
    prefix: T,
    node_id: [u8; 16],
    r: RedisRoomRegistry,
    shown: &RoomManager,
)
    requires
        call_ensures(
            RedisRoomRegistry::from_parts::<T>,
            (local, prefix, node_id),
            r,
        ),
        call_ensures(RedisRoomRegistry::local, (&r,), shown),
    ensures
        exists|text: String| #[trigger]
            call_ensures(T::into, (prefix,), text) && r.channel_prefix() == text@,
        r.id() == node_id@,
        shown@ == local@,
        shown.channels() == local.channels(),
{
}

} // verus!
