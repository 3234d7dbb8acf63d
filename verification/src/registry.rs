//! Collections of rooms.
//!
//! [`RoomManager`] owns rooms by id, in the order of their making, and records what
//! happens in them. [`RoomRegistry`] is what it has in common with other
//! collections.
use crate::channel::{counted_receivers, made_with, sent, valid_capacity};
use crate::codec::{Frame, Payload};
use crate::config::WsConfig;
use crate::directory::{holds, Directory};
use crate::error::WsError;
use crate::room::{counted, delivered, is_traffic_of, traffic_of, Room, RoomState};
use crate::stats::{
    noted_closing, noted_opening, revised, Journal, Ledger, Recording, RoomStats, StatsRecorder,
};
use tokio::sync::broadcast::Sender;
use vstd::arithmetic::div_mod::{
    lemma_add_mod_noop, lemma_mod_sub_multiples_vanish, lemma_small_mod,
};
use vstd::prelude::*;

verus! {

/// What a collection of rooms holds: the rooms in the order of their making, the
/// capacity of new ones, and the counters.
#[verifier::ext_equal]
pub ghost struct Registry {
    pub rooms: Seq<RoomState>,
    pub capacity: usize,
    pub stats: Option<StatsRecorder>,
}

/// Whether one of the rooms has the id `id`.
pub open spec fn hosts(rooms: Seq<RoomState>, id: Seq<char>) -> bool {
    exists|i: int| 0 <= i < rooms.len() && (#[trigger] rooms[i]).id == id
}

/// Whether no two rooms have the same id.
pub open spec fn ids_differ(rooms: Seq<RoomState>) -> bool {
    forall|i: int, j: int|
        0 <= i < j < rooms.len() ==> (#[trigger] rooms[i]).id != (#[trigger] rooms[j]).id
}

/// The place of the room `id`.
pub open spec fn room_place(rooms: Seq<RoomState>, id: Seq<char>) -> int {
    choose|i: int| 0 <= i < rooms.len() && (#[trigger] rooms[i]).id == id
}

/// The participants of all rooms.
pub open spec fn head_count(rooms: Seq<RoomState>) -> nat
    decreases rooms.len(),
{
    if rooms.len() == 0 {
        0
    } else {
        head_count(rooms.drop_last()) + rooms.last().roster.dom().len()
    }
}

/// The elements of `rooms` whose flag is set.
pub open spec fn kept<A>(rooms: Seq<A>, keep: Seq<bool>) -> Seq<A>
    decreases rooms.len(),
{
    if rooms.len() == 0 {
        rooms
    } else if keep[0] {
        seq![rooms[0]] + kept(rooms.skip(1), keep.skip(1))
    } else {
        kept(rooms.skip(1), keep.skip(1))
    }
}

/// For each room, whether somebody takes part in it.
pub open spec fn occupied(rooms: Seq<RoomState>) -> Seq<bool> {
    Seq::new(rooms.len(), |i: int| rooms[i].roster.dom().len() > 0)
}

/// For each room, whether somebody takes part in it or listens.
pub open spec fn in_use(rooms: Seq<RoomState>, receivers: Seq<usize>) -> Seq<bool> {
    Seq::new(rooms.len(), |i: int| !rooms[i].vacant(receivers[i]))
}

/// Whether one more room was counted, if there is a recorder.
pub open spec fn opening_counted(stats: Option<StatsRecorder>) -> bool {
    stats matches Some(recorder) ==> noted_opening(recorder.book())
}

/// Whether `n` rooms were counted as closed, if there were any and there is a
/// recorder.
pub open spec fn closing_counted(stats: Option<StatsRecorder>, n: int) -> bool {
    n > 0 ==> (stats matches Some(recorder) ==> noted_closing(recorder.book(), n as nat))
}

impl Registry {
    /// With a room of the id `id`: a new one where there was none.
    pub open spec fn with_room(self, id: Seq<char>, capacity: usize) -> Registry {
        if hosts(self.rooms, id) {
            self
        } else {
            Registry {
                rooms: self.rooms.push(RoomState::new(id, capacity, self.stats)),
                ..self
            }
        }
    }

    /// Without the room `id`.
    pub open spec fn without_room(self, id: Seq<char>) -> Registry {
        if hosts(self.rooms, id) {
            Registry { rooms: self.rooms.remove(room_place(self.rooms, id)), ..self }
        } else {
            self
        }
    }

    /// With those rooms alone whose flag is set.
    pub open spec fn keeping(self, keep: Seq<bool>) -> Registry {
        Registry { rooms: kept(self.rooms, keep), ..self }
    }

    /// With the room `id` in the state `room`.
    pub open spec fn with_state(self, id: Seq<char>, room: RoomState) -> Registry {
        Registry { rooms: self.rooms.update(room_place(self.rooms, id), room), ..self }
    }

    /// After a broadcast in the room `id` that came out as `outcome`.
    pub open spec fn after_broadcast(
        self,
        id: Seq<char>,
        frame: Payload,
        outcome: Result<usize, WsError>,
    ) -> Registry {
        self.with_state(id, self.room(id).after_send(frame, outcome))
    }

    /// The room `id`.
    pub open spec fn room(self, id: Seq<char>) -> RoomState {
        self.rooms[room_place(self.rooms, id)]
    }
}

/// Manages a collection of [`Room`]s.
pub struct RoomManager {
    rooms: Directory<Room>,
    default_capacity: usize,
    stats: Option<StatsRecorder>,
}

/// The states of the rooms of a directory.
pub open spec fn states(entries: Seq<(Seq<char>, Room)>) -> Seq<RoomState> {
    Seq::new(entries.len(), |i: int| entries[i].1@)
}

impl View for RoomManager {
    type V = Registry;

    closed spec fn view(&self) -> Registry {
        Registry {
            rooms: states(self.rooms@),
            capacity: self.default_capacity,
            stats: self.stats,
        }
    }
}

impl Default for RoomManager {
    fn default() -> (r: Self)
        ensures
            r.wf(),
            r@ == (Registry { rooms: Seq::empty(), capacity: 1024, stats: None }),
    {
        Self::new()
    }
}

/// The channels of the rooms of a directory.
pub open spec fn channels_of(entries: Seq<(Seq<char>, Room)>) -> Seq<Sender<Frame>> {
    Seq::new(entries.len(), |i: int| entries[i].1.channel())
}

/// Whether `counts` are the receivers that each of the channels counted.
pub open spec fn all_counted(channels: Seq<Sender<Frame>>, counts: Seq<usize>) -> bool {
    &&& counts.len() == channels.len()
    &&& forall|i: int|
        0 <= i < counts.len() ==> counted_receivers(channels[i], #[trigger] counts[i])
}

/// Whether `after` are the channels of `before`, with a new one behind them where
/// `made`.
pub open spec fn maybe_one_more(
    before: Seq<Sender<Frame>>,
    made: bool,
    after: Seq<Sender<Frame>>,
) -> bool {
    if made {
        after.len() == before.len() + 1 && after.drop_last() == before
    } else {
        after == before
    }
}

/// Whether the rooms that nobody takes part in and nobody listens to are gone, by
/// the receivers that each of their channels counted, and the others are as before.
pub open spec fn swept(
    before: Registry,
    channels: Seq<Sender<Frame>>,
    after: Registry,
    channels_after: Seq<Sender<Frame>>,
) -> bool {
    exists|receivers: Seq<usize>| #[trigger]
        all_counted(channels, receivers) && after == before.keeping(
            in_use(before.rooms, receivers),
        ) && channels_after == kept(channels, in_use(before.rooms, receivers))
}

/// Whether `after` are the channels of `before` but for the one at `place`.
pub open spec fn others_same(
    before: Seq<Sender<Frame>>,
    place: int,
    after: Seq<Sender<Frame>>,
) -> bool {
    &&& after.len() == before.len()
    &&& forall|i: int| 0 <= i < before.len() && i != place ==> #[trigger] after[i] == before[i]
}

/// The opposite of each flag.
pub open spec fn opposite(flags: Seq<bool>) -> Seq<bool> {
    Seq::new(flags.len(), |i: int| !flags[i])
}

/// The states of rooms.
pub open spec fn states_of(rooms: Seq<Room>) -> Seq<RoomState> {
    Seq::new(rooms.len(), |i: int| rooms[i]@)
}

/// The channels of rooms.
pub open spec fn lines_of(rooms: Seq<Room>) -> Seq<Sender<Frame>> {
    Seq::new(rooms.len(), |i: int| rooms[i].channel())
}

/// Whether `taken` are the rooms that do not stay, each with its channel.
pub open spec fn taken_out(
    before: Seq<RoomState>,
    channels: Seq<Sender<Frame>>,
    keep: Seq<bool>,
    taken: Seq<Room>,
) -> bool {
    &&& states_of(taken) == kept(before, opposite(keep))
    &&& lines_of(taken) == kept(channels, opposite(keep))
    &&& forall|i: int| 0 <= i < taken.len() ==> (#[trigger] taken[i]).wf()
}

/// Whether `taken` are the rooms that nobody takes part in and, by the receivers
/// that each channel counted, nobody listens to, and `after` are the others.
pub open spec fn swept_out(
    before: Registry,
    channels: Seq<Sender<Frame>>,
    after: Registry,
    channels_after: Seq<Sender<Frame>>,
    taken: Seq<Room>,
) -> bool {
    exists|receivers: Seq<usize>| #[trigger]
        all_counted(channels, receivers) && after == before.keeping(
            in_use(before.rooms, receivers),
        ) && channels_after == kept(channels, in_use(before.rooms, receivers)) && taken_out(
            before.rooms,
            channels,
            in_use(before.rooms, receivers),
            taken,
        )
}

impl RoomManager {
    /// The channels of the rooms, in the order of their making.
    pub closed spec fn channels(&self) -> Seq<Sender<Frame>> {
        channels_of(self.rooms@)
    }

    /// There is a channel for each room: the one with its capacity and its frames.
    pub proof fn law_channels_are_those_of_the_rooms(&self)
        ensures
            self.channels().len() == self@.rooms.len(),
            forall|i: int| #![trigger self.channels()[i]]
                0 <= i < self@.rooms.len() ==> made_with(self.channels()[i])
                    == self@.rooms[i].capacity && sent(self.channels()[i]) == self@.rooms[i].sent,
    {
        assert forall|i: int| #![trigger self.channels()[i]] 0 <= i < self@.rooms.len() implies made_with(
            self.channels()[i],
        ) == self@.rooms[i].capacity && sent(self.channels()[i]) == self@.rooms[i].sent by {
            self.rooms@[i].1.lemma_channel();
        }
    }

    /// Every room stands under its id, is in order, and leaves recording to the
    /// manager.
    pub closed spec fn wf(&self) -> bool {
        &&& self.rooms.wf()
        &&& forall|i: int|
            0 <= i < self.rooms@.len() ==> {
                let entry = #[trigger] self.rooms@[i];
                entry.1.wf() && entry.1@.id == entry.0 && entry.1@.stats == self.stats
            }
    }

    /// No two rooms of a manager have the same id, and the table of rooms knows
    /// every id.
    proof fn lemma_rooms(&self)
        requires
            self.wf(),
        ensures
            ids_differ(self@.rooms),
            forall|id: Seq<char>| #[trigger] hosts(self@.rooms, id) == holds(self.rooms@, id),
    {
        self.rooms.lemma_keys_differ();
        assert forall|i: int, j: int| 0 <= i < j < self@.rooms.len() implies (
        #[trigger] self@.rooms[i]).id != (#[trigger] self@.rooms[j]).id by {
            assert(self.rooms@[i].0 != self.rooms@[j].0);
        }
        assert forall|id: Seq<char>| #[trigger]
            hosts(self@.rooms, id) == holds(self.rooms@, id) by {
            if hosts(self@.rooms, id) {
                let i = room_place(self@.rooms, id);
                assert(self.rooms@[i].0 == id);
            }
            if holds(self.rooms@, id) {
                let i = choose|i: int|
                    0 <= i < self.rooms@.len() && (#[trigger] self.rooms@[i]).0 == id;
                assert(self@.rooms[i].id == id);
            }
        }
    }

    /// Create an empty manager with default capacity (1024).
    pub fn new() -> (r: Self)
        ensures
            r.wf(),
            r@ == (Registry { rooms: Seq::empty(), capacity: 1024, stats: None }),
    {
        RoomManager { rooms: Directory::new(), default_capacity: 1024, stats: None }
    }

    /// Create an empty manager whose default capacity comes from [`WsConfig`].
    pub fn with_config(config: &WsConfig) -> (r: Self)
        ensures
            r.wf(),
            r@ == (Registry {
                rooms: Seq::empty(),
                capacity: config.broadcast_capacity,
                stats: None,
            }),
    {
        RoomManager {
            rooms: Directory::new(),
            default_capacity: config.broadcast_capacity,
            stats: None,
        }
    }

    /// Create an empty manager that records into `stats`: room create/remove
    /// updates the room gauge, broadcasts record outbound traffic and drops.
    pub fn with_stats(config: &WsConfig, stats: StatsRecorder) -> (r: Self)
        ensures
            r.wf(),
            r@ == (Registry {
                rooms: Seq::empty(),
                capacity: config.broadcast_capacity,
                stats: Some(stats),
            }),
    {
        RoomManager {
            rooms: Directory::new(),
            default_capacity: config.broadcast_capacity,
            stats: Some(stats),
        }
    }

    /// The capacity of the rooms that this manager creates. A channel cannot be
    /// made with every one; see [`crate::channel::is_valid_capacity`].
    pub fn default_capacity(&self) -> (r: usize)
        ensures
            r == self@.capacity,
    {
        self.default_capacity
    }

    /// The recorder this manager reports to, if any.
    pub fn stats(&self) -> (r: Option<&StatsRecorder>)
        ensures
            match r {
                Some(recorder) => self@.stats == Some(*recorder),
                None => self@.stats is None,
            },
    {
        match &self.stats {
            Some(recorder) => Some(recorder),
            None => None,
        }
    }
}

impl RoomManager {
    fn find(&self, room_id: &str) -> (r: Option<usize>)
        requires
            self.wf(),
        ensures
            match r {
                Some(i) => i < self@.rooms.len() && hosts(self@.rooms, room_id@) && i == room_place(
                    self@.rooms,
                    room_id@,
                ),
                None => !hosts(self@.rooms, room_id@),
            },
    {
        proof {
            self.lemma_rooms();
        }
        match self.rooms.find(room_id) {
            Some(i) => {
                assert(self@.rooms[i as int].id == room_id@);
                Some(i)
            },
            None => None,
        }
    }

    /// Another handle to the recorder, if there is one.
    fn recorder(&self) -> (r: Option<StatsRecorder>)
        ensures
            r == self.stats,
    {
        match &self.stats {
            Some(recorder) => Some(recorder.clone()),
            None => None,
        }
    }

    /// Get a room if it exists.
    pub fn get(&self, room_id: &str) -> (r: Option<&Room>)
        requires
            self.wf(),
        ensures
            match r {
                Some(room) => {
                    &&& room.wf()
                    &&& hosts(self@.rooms, room_id@)
                    &&& room@ == self@.room(room_id@)
                    &&& room.channel() == self.channels()[room_place(self@.rooms, room_id@)]
                },
                None => !hosts(self@.rooms, room_id@),
            },
    {
        match self.find(room_id) {
            Some(i) => Some(self.rooms.get(i)),
            None => None,
        }
    }

    /// Get an existing room or create it with the manager's default capacity.
    pub fn get_or_create(&mut self, room_id: &str) -> (r: &Room)
        requires
            old(self).wf(),
            hosts(old(self)@.rooms, room_id@) || valid_capacity(old(self)@.capacity),
        ensures
            final(self).wf(),
            final(self)@ == old(self)@.with_room(room_id@, old(self)@.capacity),
            maybe_one_more(
                old(self).channels(),
                !hosts(old(self)@.rooms, room_id@),
                final(self).channels(),
            ),
            hosts(old(self)@.rooms, room_id@) || opening_counted(old(self)@.stats),
            r.wf(),
            r@ == final(self)@.room(room_id@),
            r.channel() == final(self).channels()[room_place(final(self)@.rooms, room_id@)],
    {
        let capacity: usize = self.default_capacity;
        self.get_or_create_with_capacity(room_id, capacity)
    }

    /// Get an existing room or create with custom capacity.
    pub fn get_or_create_with_capacity(&mut self, room_id: &str, capacity: usize) -> (r: &Room)
        requires
            old(self).wf(),
            hosts(old(self)@.rooms, room_id@) || valid_capacity(capacity),
        ensures
            final(self).wf(),
            final(self)@ == old(self)@.with_room(room_id@, capacity),
            maybe_one_more(
                old(self).channels(),
                !hosts(old(self)@.rooms, room_id@),
                final(self).channels(),
            ),
            hosts(old(self)@.rooms, room_id@) || opening_counted(old(self)@.stats),
            r.wf(),
            r@ == final(self)@.room(room_id@),
            r.channel() == final(self).channels()[room_place(final(self)@.rooms, room_id@)],
    {
        let i: usize = match self.find(room_id) {
            Some(i) => i,
            None => {
                proof {
                    self.lemma_rooms();
                }
                let i: usize = self.rooms.len();
                let ghost before = self.rooms@;
                let room = Room::assemble(String::from(room_id), capacity, self.recorder());
                self.rooms.push(room_id, room);
                if let Some(recorder) = &self.stats {
                    recorder.room_opened();
                }
                assert(states(self.rooms@) == states(before).push(
                    RoomState::new(room_id@, capacity, self.stats),
                ));
                assert(channels_of(self.rooms@).drop_last() == channels_of(before));
                assert(self@.rooms[i as int].id == room_id@);
                proof {
                    self.lemma_rooms();
                }
                i
            },
        };
        self.rooms.get(i)
    }

    /// Remove a room by id, returning it if present. It goes on counting what is
    /// sent in it.
    pub fn remove(&mut self, room_id: &str) -> (r: Option<Room>)
        requires
            old(self).wf(),
        ensures
            final(self).wf(),
            final(self)@ == old(self)@.without_room(room_id@),
            match r {
                Some(room) => {
                    let place = room_place(old(self)@.rooms, room_id@);
                    &&& room.wf()
                    &&& hosts(old(self)@.rooms, room_id@)
                    &&& room@ == old(self)@.room(room_id@)
                    &&& room.channel() == old(self).channels()[place]
                    &&& final(self).channels() == old(self).channels().remove(place)
                    &&& closing_counted(old(self)@.stats, 1)
                },
                None => {
                    &&& !hosts(old(self)@.rooms, room_id@)
                    &&& final(self).channels() == old(self).channels()
                },
            },
    {
        match self.find(room_id) {
            Some(i) => {
                let room = self.remove_at(i);
                if let Some(recorder) = &self.stats {
                    recorder.room_closed();
                }
                Some(room)
            },
            None => None,
        }
    }

    fn remove_at(&mut self, i: usize) -> (r: Room)
        requires
            old(self).wf(),
            i < old(self)@.rooms.len(),
        ensures
            final(self).wf(),
            final(self)@ == (Registry { rooms: old(self)@.rooms.remove(i as int), ..old(self)@ }),
            final(self).channels() == old(self).channels().remove(i as int),
            r.wf(),
            r@ == old(self)@.rooms[i as int],
            r.channel() == old(self).channels()[i as int],
    {
        let ghost before = self.rooms@;
        let room = self.rooms.remove(i);
        proof {
            assert(states(self.rooms@) == states(before).remove(i as int));
            assert(channels_of(self.rooms@) == channels_of(before).remove(i as int));
            assert forall|j: int| 0 <= j < self.rooms@.len() implies {
                let entry = #[trigger] self.rooms@[j];
                entry.1.wf() && entry.1@.id == entry.0 && entry.1@.stats == self.stats
            } by {
                assert(self.rooms@[j] == before[if j < i {
                    j
                } else {
                    j + 1
                }]);
            }
        }
        room
    }

    /// Number of rooms.
    pub fn room_count(&self) -> (r: usize)
        ensures
            r == self@.rooms.len(),
    {
        self.rooms.len()
    }

    /// List room ids.
    pub fn room_ids(&self) -> (r: Vec<String>)
        requires
            self.wf(),
        ensures
            r@.len() == self@.rooms.len(),
            forall|i: int| 0 <= i < r@.len() ==> (#[trigger] r@[i])@ == self@.rooms[i].id,
    {
        let mut out: Vec<String> = Vec::new();
        let n: usize = self.rooms.len();
        for i in 0..n
            invariant
                n == self.rooms@.len(),
                self.wf(),
                out@.len() == i,
                forall|j: int| 0 <= j < i ==> (#[trigger] out@[j])@ == self@.rooms[j].id,
        {
            let id = self.rooms.key(i).to_owned();
            assert(id@ == self.rooms@[i as int].0);
            out.push(id);
        }
        out
    }

    /// Total participants across all rooms, as far as a `usize` counts.
    pub fn total_participants(&self) -> (r: usize)
        ensures
            r == head_count(self@.rooms) % (usize::MAX + 1) as nat,
    {
        let mut total: usize = 0;
        let n: usize = self.rooms.len();
        let ghost all = self@.rooms;
        proof {
            assert(head_count(all.take(0)) == 0);
            lemma_small_mod(0, (usize::MAX + 1) as nat);
        }
        for i in 0..n
            invariant
                all == self@.rooms,
                n == all.len(),
                n == self.rooms@.len(),
                total == head_count(all.take(i as int)) % (usize::MAX + 1) as nat,
        {
            let count: usize = self.rooms.get(i).participant_count();
            proof {
                assert(all.take(i + 1).drop_last() == all.take(i as int));
                lemma_wrapping_sum(head_count(all.take(i as int)), total, count);
            }
            total = total.wrapping_add(count);
        }
        assert(all.take(n as int) == all);
        total
    }

    /// Remove the rooms whose flag is not set. Returns them in their order.
    fn retain(&mut self, keep: &[bool]) -> (r: Vec<Room>)
        requires
            old(self).wf(),
            keep@.len() == old(self)@.rooms.len(),
        ensures
            final(self).wf(),
            final(self)@ == old(self)@.keeping(keep@),
            final(self).channels() == kept(old(self).channels(), keep@),
            r@.len() == old(self)@.rooms.len() - final(self)@.rooms.len(),
            closing_counted(
                old(self)@.stats,
                old(self)@.rooms.len() - final(self)@.rooms.len(),
            ),
            taken_out(old(self)@.rooms, old(self).channels(), keep@, r@),
    {
        let n: usize = self.rooms.len();
        let mut i: usize = n;
        let mut removed: Vec<Room> = Vec::new();
        let ghost all = self@.rooms;
        let ghost lines = self.channels();
        assert(all.take(n as int) + kept(all.skip(n as int), keep@.skip(n as int)) == all);
        assert(lines.take(n as int) + kept(lines.skip(n as int), keep@.skip(n as int)) == lines);
        assert(kept(all.skip(n as int), keep@.skip(n as int)).len() == 0);
        proof {
            lemma_none_taken(keep@.skip(n as int));
            assert(all.skip(n as int) == Seq::<RoomState>::empty());
            assert(lines.skip(n as int) == Seq::<Sender<Frame>>::empty());
        }
        while i > 0
            invariant
                self.wf(),
                i <= n,
                n == all.len(),
                n == keep@.len(),
                removed@.len() == n - i - kept(all.skip(i as int), keep@.skip(i as int)).len(),
                taken_out(
                    all.skip(i as int),
                    lines.skip(i as int),
                    keep@.skip(i as int),
                    removed@,
                ),
                self@ == (Registry {
                    rooms: all.take(i as int) + kept(all.skip(i as int), keep@.skip(i as int)),
                    ..old(self)@
                }),
                n == lines.len(),
                self.channels() == lines.take(i as int) + kept(
                    lines.skip(i as int),
                    keep@.skip(i as int),
                ),
            decreases i,
        {
            i = i - 1;
            let ghost rest = kept(all.skip(i + 1), keep@.skip(i + 1));
            let ghost rest_lines = kept(lines.skip(i + 1), keep@.skip(i + 1));
            let ghost gone = removed@;
            proof {
                assert(lines.skip(i as int).skip(1) == lines.skip(i + 1));
                assert(lines.skip(i as int)[0] == lines[i as int]);
                assert(all.skip(i as int).skip(1) == all.skip(i + 1));
                assert(keep@.skip(i as int).skip(1) == keep@.skip(i + 1));
                assert(all.skip(i as int)[0] == all[i as int]);
                assert(keep@.skip(i as int)[0] == keep@[i as int]);
                lemma_kept_shrinks(all.skip(i as int), keep@.skip(i as int));
            }
            if keep[i] {
                proof {
                    lemma_one_stays(
                        all.skip(i as int),
                        lines.skip(i as int),
                        keep@.skip(i as int),
                        gone,
                    );
                }
                assert(all.take(i + 1) + rest == all.take(i as int) + (seq![all[i as int]] + rest));
                assert(lines.take(i + 1) + rest_lines == lines.take(i as int) + (seq![
                    lines[i as int],
                ] + rest_lines));
            } else {
                let room = self.remove_at(i);
                assert((all.take(i + 1) + rest).remove(i as int) == all.take(i as int) + rest);
                assert((lines.take(i + 1) + rest_lines).remove(i as int) == lines.take(i as int)
                    + rest_lines);
                proof {
                    lemma_one_goes(
                        all.skip(i as int),
                        lines.skip(i as int),
                        keep@.skip(i as int),
                        gone,
                        room,
                    );
                }
                removed.insert(0, room);
            }
        }
        assert(all.skip(0) == all);
        assert(keep@.skip(0) == keep@);
        assert(all.take(0) + kept(all, keep@) == kept(all, keep@));
        assert(lines.skip(0) == lines);
        assert(lines.take(0) + kept(lines, keep@) == kept(lines, keep@));
        if removed.len() > 0 {
            if let Some(recorder) = &self.stats {
                recorder.rooms_closed(removed.len());
            }
        }
        removed
    }

    /// Remove all rooms with zero participants (regardless of receivers).
    /// Returns number removed.
    pub fn cleanup_empty(&mut self) -> (r: usize)
        requires
            old(self).wf(),
        ensures
            final(self).wf(),
            final(self)@ == old(self)@.keeping(occupied(old(self)@.rooms)),
            final(self).channels() == kept(old(self).channels(), occupied(old(self)@.rooms)),
            r == old(self)@.rooms.len() - final(self)@.rooms.len(),
            closing_counted(
                old(self)@.stats,
                old(self)@.rooms.len() - final(self)@.rooms.len(),
            ),
    {
        self.take_empty().len()
    }

    /// Remove all rooms with zero participants (regardless of receivers), and hand
    /// them to whoever may still use them.
    pub fn take_empty(&mut self) -> (r: Vec<Room>)
        requires
            old(self).wf(),
        ensures
            final(self).wf(),
            final(self)@ == old(self)@.keeping(occupied(old(self)@.rooms)),
            final(self).channels() == kept(old(self).channels(), occupied(old(self)@.rooms)),
            r@.len() == old(self)@.rooms.len() - final(self)@.rooms.len(),
            closing_counted(
                old(self)@.stats,
                old(self)@.rooms.len() - final(self)@.rooms.len(),
            ),
            taken_out(
                old(self)@.rooms,
                old(self).channels(),
                occupied(old(self)@.rooms),
                r@,
            ),
    {
        let mut keep: Vec<bool> = Vec::new();
        let n: usize = self.rooms.len();
        for i in 0..n
            invariant
                self == old(self),
                n == self.rooms@.len(),
                n == self@.rooms.len(),
                keep@ == occupied(self@.rooms).take(i as int),
        {
            keep.push(self.rooms.get(i).participant_count() > 0);
        }
        assert(keep@ == occupied(self@.rooms));
        self.retain(&keep)
    }

    /// Remove the rooms that nobody takes part in and nobody listens to, given
    /// the number of receivers of each. Returns number removed.
    pub fn sweep(&mut self, receivers: &[usize]) -> (r: usize)
        requires
            old(self).wf(),
            receivers@.len() == old(self)@.rooms.len(),
        ensures
            final(self).wf(),
            final(self)@ == old(self)@.keeping(in_use(old(self)@.rooms, receivers@)),
            final(self).channels() == kept(
                old(self).channels(),
                in_use(old(self)@.rooms, receivers@),
            ),
            r == old(self)@.rooms.len() - final(self)@.rooms.len(),
            closing_counted(
                old(self)@.stats,
                old(self)@.rooms.len() - final(self)@.rooms.len(),
            ),
    {
        self.sweep_out(receivers).len()
    }

    fn sweep_out(&mut self, receivers: &[usize]) -> (r: Vec<Room>)
        requires
            old(self).wf(),
            receivers@.len() == old(self)@.rooms.len(),
        ensures
            final(self).wf(),
            final(self)@ == old(self)@.keeping(in_use(old(self)@.rooms, receivers@)),
            final(self).channels() == kept(
                old(self).channels(),
                in_use(old(self)@.rooms, receivers@),
            ),
            r@.len() == old(self)@.rooms.len() - final(self)@.rooms.len(),
            closing_counted(
                old(self)@.stats,
                old(self)@.rooms.len() - final(self)@.rooms.len(),
            ),
            taken_out(
                old(self)@.rooms,
                old(self).channels(),
                in_use(old(self)@.rooms, receivers@),
                r@,
            ),
    {
        let mut keep: Vec<bool> = Vec::new();
        let n: usize = self.rooms.len();
        for i in 0..n
            invariant
                self == old(self),
                n == self.rooms@.len(),
                n == self@.rooms.len(),
                n == receivers@.len(),
                keep@ == in_use(self@.rooms, receivers@).take(i as int),
        {
            keep.push(!self.rooms.get(i).is_vacant(receivers[i]));
        }
        assert(keep@ == in_use(self@.rooms, receivers@));
        self.retain(&keep)
    }

    /// Remove all empty rooms (no participants, no receivers). Returns number
    /// removed.
    pub fn cleanup(&mut self) -> (r: usize)
        requires
            old(self).wf(),
        ensures
            final(self).wf(),
            swept(old(self)@, old(self).channels(), final(self)@, final(self).channels()),
            r == old(self)@.rooms.len() - final(self)@.rooms.len(),
            closing_counted(
                old(self)@.stats,
                old(self)@.rooms.len() - final(self)@.rooms.len(),
            ),
    {
        self.take_vacant().len()
    }

    /// Remove all empty rooms (no participants, no receivers), and hand them to
    /// whoever may still use them.
    pub fn take_vacant(&mut self) -> (r: Vec<Room>)
        requires
            old(self).wf(),
        ensures
            final(self).wf(),
            swept_out(
                old(self)@,
                old(self).channels(),
                final(self)@,
                final(self).channels(),
                r@,
            ),
            r@.len() == old(self)@.rooms.len() - final(self)@.rooms.len(),
            closing_counted(
                old(self)@.stats,
                old(self)@.rooms.len() - final(self)@.rooms.len(),
            ),
    {
        let mut receivers: Vec<usize> = Vec::new();
        let n: usize = self.rooms.len();
        for i in 0..n
            invariant
                n == self.rooms@.len(),
                n == self.channels().len(),
                receivers@.len() == i,
                forall|j: int|
                    0 <= j < i ==> counted_receivers(self.channels()[j], #[trigger] receivers@[j]),
        {
            receivers.push(self.rooms.get(i).receiver_count());
        }
        assert(all_counted(self.channels(), receivers@));
        self.sweep_out(&receivers)
    }

    /// Add a participant to a room. Returns false if there is no such room.
    pub fn join(&mut self, room_id: &str, participant_id: u32, name: String) -> (r: bool)
        requires
            old(self).wf(),
        ensures
            final(self).wf(),
            r == hosts(old(self)@.rooms, room_id@),
            final(self).channels() == old(self).channels(),
            final(self)@ == if r {
                let room = old(self)@.room(room_id@);
                old(self)@.with_state(
                    room_id@,
                    RoomState { roster: room.roster.insert(participant_id, name@), ..room },
                )
            } else {
                old(self)@
            },
    {
        match self.find(room_id) {
            Some(i) => {
                let ghost before = self.rooms@;
                self.rooms.get_mut(i).join(participant_id, name);
                assert(states(self.rooms@) == states(before).update(
                    i as int,
                    self.rooms@[i as int].1@,
                ));
                assert(channels_of(self.rooms@) == channels_of(before));
                true
            },
            None => false,
        }
    }

    /// Remove a participant from a room. Returns true if it was present.
    pub fn leave(&mut self, room_id: &str, participant_id: u32) -> (r: bool)
        requires
            old(self).wf(),
        ensures
            final(self).wf(),
            r == (hosts(old(self)@.rooms, room_id@) && old(self)@.room(
                room_id@,
            ).roster.contains_key(participant_id)),
            final(self).channels() == old(self).channels(),
            final(self)@ == if hosts(old(self)@.rooms, room_id@) {
                let room = old(self)@.room(room_id@);
                old(self)@.with_state(
                    room_id@,
                    RoomState { roster: room.roster.remove(participant_id), ..room },
                )
            } else {
                old(self)@
            },
    {
        match self.find(room_id) {
            Some(i) => {
                let ghost before = self.rooms@;
                let r = self.rooms.get_mut(i).leave(participant_id);
                assert(states(self.rooms@) == states(before).update(
                    i as int,
                    self.rooms@[i as int].1@,
                ));
                assert(channels_of(self.rooms@) == channels_of(before));
                r
            },
            None => false,
        }
    }

    /// Broadcast a frame in a room. Returns `None` if there is no such room.
    pub fn broadcast(&mut self, room_id: &str, frame: Frame) -> (r: Option<Result<usize, WsError>>)
        requires
            old(self).wf(),
        ensures
            final(self).wf(),
            match r {
                Some(outcome) => {
                    &&& hosts(old(self)@.rooms, room_id@)
                    &&& match outcome {
                        Ok(n) => n >= 1,
                        Err(e) => e is BroadcastFull,
                    }
                    &&& delivered(
                        old(self).channels()[room_place(old(self)@.rooms, room_id@)],
                        frame,
                        outcome,
                    )
                    &&& final(self)@ == old(self)@.after_broadcast(room_id@, frame@, outcome)
                    &&& counted(
                        old(self)@.stats,
                        room_id@,
                        frame@.bytes().len() as usize,
                        outcome,
                    )
                    &&& others_same(
                        old(self).channels(),
                        room_place(old(self)@.rooms, room_id@),
                        final(self).channels(),
                    )
                },
                None => {
                    &&& !hosts(old(self)@.rooms, room_id@)
                    &&& final(self)@ == old(self)@
                    &&& final(self).channels() == old(self).channels()
                },
            },
    {
        match self.find(room_id) {
            Some(i) => {
                let ghost before = self.rooms@;
                let outcome = self.rooms.get_mut(i).send(frame);
                assert(states(self.rooms@) == states(before).update(
                    i as int,
                    self.rooms@[i as int].1@,
                ));
                Some(outcome)
            },
            None => None,
        }
    }
}

proof fn lemma_none_taken(keep: Seq<bool>)
    requires
        keep.len() == 0,
    ensures
        taken_out(Seq::empty(), Seq::empty(), keep, Seq::empty()),
{
    assert(states_of(Seq::empty()) == kept(Seq::<RoomState>::empty(), opposite(keep)));
    assert(lines_of(Seq::empty()) == kept(Seq::<Sender<Frame>>::empty(), opposite(keep)));
}

proof fn lemma_one_stays(
    rooms: Seq<RoomState>,
    channels: Seq<Sender<Frame>>,
    keep: Seq<bool>,
    taken: Seq<Room>,
)
    requires
        0 < rooms.len() == channels.len() == keep.len(),
        keep[0],
        taken_out(rooms.skip(1), channels.skip(1), keep.skip(1), taken),
    ensures
        taken_out(rooms, channels, keep, taken),
{
    assert(opposite(keep).skip(1) == opposite(keep.skip(1)));
}

proof fn lemma_one_goes(
    rooms: Seq<RoomState>,
    channels: Seq<Sender<Frame>>,
    keep: Seq<bool>,
    taken: Seq<Room>,
    room: Room,
)
    requires
        0 < rooms.len() == channels.len() == keep.len(),
        !keep[0],
        room.wf(),
        room@ == rooms[0],
        room.channel() == channels[0],
        taken_out(rooms.skip(1), channels.skip(1), keep.skip(1), taken),
    ensures
        taken_out(rooms, channels, keep, taken.insert(0, room)),
{
    let more = taken.insert(0, room);
    assert(opposite(keep).skip(1) == opposite(keep.skip(1)));
    assert(states_of(more) == seq![room@] + states_of(taken));
    assert(lines_of(more) == seq![room.channel()] + lines_of(taken));
}

proof fn lemma_wrapping_sum(sum: nat, total: usize, count: usize)
    requires
        total == sum % (usize::MAX + 1) as nat,
    ensures
        total.wrapping_add(count) == (sum + count) as nat % (usize::MAX + 1) as nat,
{
    let m = usize::MAX + 1;
    lemma_add_mod_noop(sum as int, count as int, m);
    lemma_small_mod(count as nat, m as nat);
    if total + count < m {
        lemma_small_mod((total + count) as nat, m as nat);
    } else {
        lemma_small_mod((total + count - m) as nat, m as nat);
        lemma_mod_sub_multiples_vanish(total + count, m);
    }
}

proof fn lemma_kept_shrinks<A>(rooms: Seq<A>, keep: Seq<bool>)
    ensures
        kept(rooms, keep).len() <= rooms.len(),
    decreases rooms.len(),
{
    if rooms.len() > 0 {
        lemma_kept_shrinks(rooms.skip(1), keep.skip(1));
    }
}

/// Storage for rooms, abstracted so a room *collection* can be swapped without
/// changing room/messaging code.
pub trait RoomRegistry: Send + Sync {
    /// The rooms of this registry.
    spec fn registry(&self) -> Registry;

    /// The channels of the rooms, in the order of their making.
    spec fn room_channels(&self) -> Seq<Sender<Frame>>;

    /// Whether the registry is in order.
    spec fn in_order(&self) -> bool;

    /// Get an existing room or create it.
    fn get_or_create(&mut self, room_id: &str) -> (r: &Room)
        requires
            old(self).in_order(),
            hosts(old(self).registry().rooms, room_id@) || valid_capacity(
                old(self).registry().capacity,
            ),
        ensures
            final(self).in_order(),
            final(self).registry() == old(self).registry().with_room(
                room_id@,
                old(self).registry().capacity,
            ),
            maybe_one_more(
                old(self).room_channels(),
                !hosts(old(self).registry().rooms, room_id@),
                final(self).room_channels(),
            ),
            hosts(old(self).registry().rooms, room_id@) || opening_counted(
                old(self).registry().stats,
            ),
            r.wf(),
            r@ == final(self).registry().room(room_id@),
            r.channel() == final(self).room_channels()[room_place(
                final(self).registry().rooms,
                room_id@,
            )],
    ;

    /// Get a room if it exists.
    fn get(&self, room_id: &str) -> (r: Option<&Room>)
        requires
            self.in_order(),
        ensures
            match r {
                Some(room) => {
                    &&& room.wf()
                    &&& hosts(self.registry().rooms, room_id@)
                    &&& room@ == self.registry().room(room_id@)
                    &&& room.channel() == self.room_channels()[room_place(
                        self.registry().rooms,
                        room_id@,
                    )]
                },
                None => !hosts(self.registry().rooms, room_id@),
            },
    ;

    /// Remove a room by id, returning it if present.
    fn remove(&mut self, room_id: &str) -> (r: Option<Room>)
        requires
            old(self).in_order(),
        ensures
            final(self).in_order(),
            final(self).registry() == old(self).registry().without_room(room_id@),
            match r {
                Some(room) => {
                    let place = room_place(old(self).registry().rooms, room_id@);
                    &&& room.wf()
                    &&& hosts(old(self).registry().rooms, room_id@)
                    &&& room@ == old(self).registry().room(room_id@)
                    &&& room.channel() == old(self).room_channels()[place]
                    &&& final(self).room_channels() == old(self).room_channels().remove(place)
                    &&& closing_counted(old(self).registry().stats, 1)
                },
                None => {
                    &&& !hosts(old(self).registry().rooms, room_id@)
                    &&& final(self).room_channels() == old(self).room_channels()
                },
            },
    ;

    /// Number of rooms.
    fn room_count(&self) -> (r: usize)
        ensures
            r == self.registry().rooms.len(),
    ;

    /// List room ids.
    fn room_ids(&self) -> (r: Vec<String>)
        requires
            self.in_order(),
        ensures
            r@.len() == self.registry().rooms.len(),
            forall|i: int| 0 <= i < r@.len() ==> (#[trigger] r@[i])@ == self.registry().rooms[i].id,
    ;

    /// Total participants across all rooms, as far as a `usize` counts.
    fn total_participants(&self) -> (r: usize)
        ensures
            r == head_count(self.registry().rooms) % (usize::MAX + 1) as nat,
    ;

    /// Remove all empty rooms (no participants, no receivers). Returns number
    /// removed.
    fn cleanup(&mut self) -> (r: usize)
        requires
            old(self).in_order(),
        ensures
            final(self).in_order(),
            swept(
                old(self).registry(),
                old(self).room_channels(),
                final(self).registry(),
                final(self).room_channels(),
            ),
            r == old(self).registry().rooms.len() - final(self).registry().rooms.len(),
            closing_counted(old(self).registry().stats, r as int),
    ;

    /// Remove all rooms with zero participants (regardless of receivers).
    /// Returns number removed.
    fn cleanup_empty(&mut self) -> (r: usize)
        requires
            old(self).in_order(),
        ensures
            final(self).in_order(),
            final(self).registry() == old(self).registry().keeping(
                occupied(old(self).registry().rooms),
            ),
            final(self).room_channels() == kept(
                old(self).room_channels(),
                occupied(old(self).registry().rooms),
            ),
            r == old(self).registry().rooms.len() - final(self).registry().rooms.len(),
            closing_counted(old(self).registry().stats, r as int),
    ;
}

impl RoomRegistry for RoomManager {
    open spec fn registry(&self) -> Registry {
        self@
    }

    open spec fn room_channels(&self) -> Seq<Sender<Frame>> {
        self.channels()
    }

    open spec fn in_order(&self) -> bool {
        self.wf()
    }

    fn get_or_create(&mut self, room_id: &str) -> (r: &Room) {
        RoomManager::get_or_create(self, room_id)
    }

    fn get(&self, room_id: &str) -> (r: Option<&Room>) {
        RoomManager::get(self, room_id)
    }

    fn remove(&mut self, room_id: &str) -> (r: Option<Room>) {
        RoomManager::remove(self, room_id)
    }

    fn room_count(&self) -> (r: usize) {
        RoomManager::room_count(self)
    }

    fn room_ids(&self) -> (r: Vec<String>) {
        RoomManager::room_ids(self)
    }

    fn total_participants(&self) -> (r: usize) {
        RoomManager::total_participants(self)
    }

    fn cleanup(&mut self) -> (r: usize) {
        RoomManager::cleanup(self)
    }

    fn cleanup_empty(&mut self) -> (r: usize) {
        RoomManager::cleanup_empty(self)
    }
}

impl RoomManager {
    /// No two rooms of a manager ever have the same id.
    pub proof fn law_ids_differ(&self)
        requires
            self.wf(),
        ensures
            ids_differ(self@.rooms),
    {
        self.lemma_rooms();
    }

    /// Each room of a manager counts its traffic in the recorder of the manager,
    /// also when it has left.
    pub proof fn law_rooms_share_the_recorder(&self)
        requires
            self.wf(),
        ensures
            forall|i: int|
                0 <= i < self@.rooms.len() ==> (#[trigger] self@.rooms[i]).stats == self@.stats,
    {
        assert forall|i: int| 0 <= i < self@.rooms.len() implies (#[trigger] self@.rooms[i]).stats
            == self@.stats by {
            assert(self.rooms@[i].1@.stats == self.stats);
        }
    }
}

proof fn lemma_place(rooms: Seq<RoomState>, i: int)
    requires
        ids_differ(rooms),
        0 <= i < rooms.len(),
    ensures
        hosts(rooms, rooms[i].id),
        room_place(rooms, rooms[i].id) == i,
{
    let j = room_place(rooms, rooms[i].id);
    assert(0 <= j < rooms.len() && rooms[j].id == rooms[i].id);
}

/// What happens in one room stays there: every other room is as it was.
pub proof fn law_rooms_are_isolated(
    registry: Registry,
    id: Seq<char>,
    other: Seq<char>,
    state: RoomState,
)
    requires
        ids_differ(registry.rooms),
        hosts(registry.rooms, id),
        hosts(registry.rooms, other),
        id != other,
        state.id == id,
    ensures
        hosts(registry.with_state(id, state).rooms, other),
        registry.with_state(id, state).room(other) == registry.room(other),
        registry.with_state(id, state).room(id) == state,
{
    let rooms = registry.rooms;
    let i = room_place(rooms, id);
    let j = room_place(rooms, other);
    let after = rooms.update(i, state);
    assert forall|a: int, b: int| 0 <= a < b < after.len() implies (#[trigger] after[a]).id != (
    #[trigger] after[b]).id by {
        assert(rooms[a].id != rooms[b].id);
    }
    lemma_place(after, i);
    lemma_place(after, j);
}

/// To ask for a room twice makes it once.
pub proof fn law_get_or_create_is_idempotent(
    registry: Registry,
    id: Seq<char>,
    first: usize,
    second: usize,
)
    ensures
        registry.with_room(id, first).with_room(id, second) == registry.with_room(id, first),
        hosts(registry.with_room(id, first).rooms, id),
{
    let after = registry.with_room(id, first);
    if !hosts(registry.rooms, id) {
        assert(after.rooms.last().id == id);
    }
    assert(hosts(after.rooms, id));
}

/// To remove a new room undoes its making, and the gauge of rooms with it.
pub proof fn law_remove_undoes_create(registry: Registry, id: Seq<char>, capacity: usize)
    requires
        ids_differ(registry.rooms),
        !hosts(registry.rooms, id),
    ensures
        registry.with_room(id, capacity).without_room(id) == registry,
        forall|gauge: Ledger|
            gauge.rooms < u64::MAX ==> (#[trigger] gauge.opened()).closed(1) == gauge,
{
    let rooms = registry.rooms;
    let after = registry.with_room(id, capacity);
    assert forall|a: int, b: int| 0 <= a < b < after.rooms.len() implies (
    #[trigger] after.rooms[a]).id != (#[trigger] after.rooms[b]).id by {
        if b == rooms.len() {
            assert(rooms[a].id != id);
        } else {
            assert(rooms[a].id != rooms[b].id);
        }
    }
    lemma_place(after.rooms, rooms.len() as int);
    assert(after.without_room(id).rooms =~= rooms);
    assert(after.without_room(id) =~= registry);
}

/// The gauge of rooms follows every way in which rooms come and go: where it shows
/// their number, what is counted with each leaves it at their new number.
pub proof fn law_room_gauge_follows(
    registry: Registry,
    gauge: Ledger,
    id: Seq<char>,
    capacity: usize,
    keep: Seq<bool>,
)
    requires
        gauge.rooms == registry.rooms.len(),
        registry.rooms.len() < u64::MAX,
    ensures
        !hosts(registry.rooms, id) ==> gauge.opened().rooms == registry.with_room(
            id,
            capacity,
        ).rooms.len(),
        hosts(registry.rooms, id) ==> gauge.closed(1).rooms == registry.without_room(
            id,
        ).rooms.len(),
        gauge.closed((registry.rooms.len() - registry.keeping(keep).rooms.len()) as nat).rooms
            == registry.keeping(keep).rooms.len(),
{
    lemma_kept_shrinks(registry.rooms, keep);
}

/// A cleanup keeps exactly the rooms whose flag is set, each as it was.
pub proof fn law_cleanup_keeps_what_it_should(
    rooms: Seq<RoomState>,
    keep: Seq<bool>,
    room: RoomState,
)
    requires
        keep.len() == rooms.len(),
    ensures
        kept(rooms, keep).contains(room) <==> exists|i: int|
            0 <= i < rooms.len() && #[trigger] rooms[i] == room && keep[i],
    decreases rooms.len(),
{
    if rooms.len() > 0 {
        let rest = rooms.skip(1);
        let flags = keep.skip(1);
        let tail = kept(rest, flags);
        law_cleanup_keeps_what_it_should(rest, flags, room);
        if kept(rooms, keep).contains(room) {
            let k = choose|k: int|
                0 <= k < kept(rooms, keep).len() && kept(rooms, keep)[k] == room;
            if keep[0] && k == 0 {
                assert(rooms[0] == room);
            } else {
                assert(tail[if keep[0] {
                    k - 1
                } else {
                    k
                }] == room);
                let i = choose|i: int|
                    0 <= i < rest.len() && #[trigger] rest[i] == room && flags[i];
                assert(rooms[i + 1] == room && keep[i + 1]);
            }
        }
        if exists|i: int| 0 <= i < rooms.len() && #[trigger] rooms[i] == room && keep[i] {
            let i = choose|i: int| 0 <= i < rooms.len() && #[trigger] rooms[i] == room && keep[i];
            if i == 0 {
                assert(kept(rooms, keep)[0] == room);
            } else {
                assert(rest[i - 1] == room && flags[i - 1]);
                let k = choose|k: int| 0 <= k < tail.len() && tail[k] == room;
                assert(kept(rooms, keep)[if keep[0] {
                    k + 1
                } else {
                    k
                }] == room);
            }
        }
    }
}

/// After all rooms without participants were removed, each room has some, and
/// nobody who took part anywhere is gone.
pub proof fn law_cleanup_empty_keeps_everybody(rooms: Seq<RoomState>)
    ensures
        head_count(kept(rooms, occupied(rooms))) == head_count(rooms),
        forall|room: RoomState| #[trigger]
            kept(rooms, occupied(rooms)).contains(room) ==> room.roster.dom().len() > 0,
    decreases rooms.len(),
{
    assert forall|room: RoomState| #[trigger]
        kept(rooms, occupied(rooms)).contains(room) implies room.roster.dom().len() > 0 by {
        law_cleanup_keeps_what_it_should(rooms, occupied(rooms), room);
    }
    if rooms.len() > 0 {
        let rest = rooms.skip(1);
        law_cleanup_empty_keeps_everybody(rest);
        assert(occupied(rooms).skip(1) == occupied(rest));
        lemma_head_count_first(rooms);
        if rooms[0].roster.dom().len() > 0 {
            let all = seq![rooms[0]] + kept(rest, occupied(rest));
            lemma_head_count_first(all);
            assert(all.skip(1) == kept(rest, occupied(rest)));
        }
    }
}

proof fn lemma_head_count_first(rooms: Seq<RoomState>)
    requires
        rooms.len() > 0,
    ensures
        head_count(rooms) == rooms[0].roster.dom().len() + head_count(rooms.skip(1)),
    decreases rooms.len(),
{
    if rooms.len() > 1 {
        lemma_head_count_first(rooms.drop_last());
        assert(rooms.drop_last().skip(1) == rooms.skip(1).drop_last());
        assert(rooms.skip(1).last() == rooms.last());
    } else {
        assert(head_count(rooms.drop_last()) == 0);
        assert(head_count(rooms.skip(1)) == 0);
    }
}

/// Who joins and leaves again leaves the roster as it was before.
pub proof fn law_leave_undoes_join(room: RoomState, id: u32, name: Seq<char>)
    requires
        !room.roster.contains_key(id),
    ensures
        room.roster.insert(id, name).remove(id) == room.roster,
{
    assert(room.roster.insert(id, name).remove(id) =~= room.roster);
}

/// For elements whose flags are all set, nothing goes.
proof fn lemma_kept_all<A>(rooms: Seq<A>, keep: Seq<bool>)
    requires
        keep.len() == rooms.len(),
        forall|i: int| 0 <= i < keep.len() ==> #[trigger] keep[i],
    ensures
        kept(rooms, keep) == rooms,
    decreases rooms.len(),
{
    if rooms.len() > 0 {
        assert forall|i: int| 0 <= i < keep.skip(1).len() implies #[trigger] keep.skip(1)[i] by {
            assert(keep.skip(1)[i] == keep[i + 1]);
        }
        lemma_kept_all(rooms.skip(1), keep.skip(1));
        assert(keep[0]);
        assert(kept(rooms, keep) =~= rooms);
    }
}

/// The flags that were set are set for what was kept.
proof fn lemma_kept_in_use(rooms: Seq<RoomState>, receivers: Seq<usize>)
    requires
        receivers.len() == rooms.len(),
    ensures
        ({
            let keep = in_use(rooms, receivers);
            let rest = kept(rooms, keep);
            let counts = kept(receivers, keep);
            &&& rest.len() == counts.len()
            &&& forall|i: int| #![trigger rest[i]]
                0 <= i < rest.len() ==> !rest[i].vacant(counts[i])
        }),
    decreases rooms.len(),
{
    if rooms.len() > 0 {
        let keep = in_use(rooms, receivers);
        let more = rooms.skip(1);
        let fewer = receivers.skip(1);
        lemma_kept_in_use(more, fewer);
        assert(keep.skip(1) =~= in_use(more, fewer));
        let rest = kept(rooms, keep);
        let counts = kept(receivers, keep);
        let rest1 = kept(more, keep.skip(1));
        let counts1 = kept(fewer, keep.skip(1));
        assert forall|i: int| #![trigger rest[i]] 0 <= i < rest.len() implies !rest[i].vacant(
            counts[i],
        ) by {
            if keep[0] {
                if i > 0 {
                    assert(rest[i] == rest1[i - 1]);
                    assert(counts[i] == counts1[i - 1]);
                }
            } else {
                assert(rest[i] == rest1[i]);
                assert(counts[i] == counts1[i]);
            }
        }
    }
}

/// A second cleanup, with the receivers of the rooms that were kept as they were,
/// removes nothing and changes nothing.
pub proof fn law_second_cleanup_changes_nothing(registry: Registry, receivers: Seq<usize>)
    requires
        receivers.len() == registry.rooms.len(),
    ensures
        ({
            let keep = in_use(registry.rooms, receivers);
            let once = registry.keeping(keep);
            let counts = kept(receivers, keep);
            &&& counts.len() == once.rooms.len()
            &&& once.keeping(in_use(once.rooms, counts)) == once
        }),
{
    let keep = in_use(registry.rooms, receivers);
    let once = registry.keeping(keep);
    let counts = kept(receivers, keep);
    lemma_kept_in_use(registry.rooms, receivers);
    lemma_kept_all(once.rooms, in_use(once.rooms, counts));
    assert(once.keeping(in_use(once.rooms, counts)) =~= once);
}

/// A second removal of the rooms without participants changes nothing either.
pub proof fn law_second_cleanup_empty_changes_nothing(registry: Registry)
    ensures
        ({
            let once = registry.keeping(occupied(registry.rooms));
            once.keeping(occupied(once.rooms)) == once
        }),
{
    let once = registry.keeping(occupied(registry.rooms));
    law_cleanup_empty_keeps_everybody(registry.rooms);
    assert forall|i: int| 0 <= i < once.rooms.len() implies #[trigger] occupied(once.rooms)[i] by {
        assert(kept(registry.rooms, occupied(registry.rooms)).contains(once.rooms[i]));
    }
    lemma_kept_all(once.rooms, occupied(once.rooms));
    assert(once.keeping(occupied(once.rooms)) =~= once);
}

/// A room that a cleanup keeps keeps its channel.
pub proof fn law_cleanup_keeps_rooms_with_their_channels(
    rooms: Seq<RoomState>,
    channels: Seq<Sender<Frame>>,
    keep: Seq<bool>,
)
    requires
        rooms.len() == channels.len(),
    ensures
        kept(rooms, keep).len() == kept(channels, keep).len(),
        kept(rooms.zip_with(channels), keep) == kept(rooms, keep).zip_with(kept(channels, keep)),
    decreases rooms.len(),
{
    let pairs = rooms.zip_with(channels);
    if rooms.len() > 0 {
        law_cleanup_keeps_rooms_with_their_channels(rooms.skip(1), channels.skip(1), keep.skip(1));
        assert(pairs.skip(1) =~= rooms.skip(1).zip_with(channels.skip(1)));
    }
    assert(kept(pairs, keep) =~= kept(rooms, keep).zip_with(kept(channels, keep)));
}

/// Whether the room at the index `i` is the one with the id `id`.
pub open spec fn is_at(rooms: Seq<RoomState>, i: int, id: Seq<char>) -> bool {
    0 <= i < rooms.len() && rooms[i].id == id
}

/// Whether there is no room with the id `id`.
pub open spec fn is_absent(rooms: Seq<RoomState>, id: Seq<char>) -> bool {
    forall|i: int| 0 <= i < rooms.len() ==> (#[trigger] rooms[i]).id != id
}

proof fn lemma_is_at(rooms: Seq<RoomState>, i: int, id: Seq<char>)
    requires
        ids_differ(rooms),
    ensures
        is_at(rooms, i, id) ==> hosts(rooms, id) && room_place(rooms, id) == i,
        is_absent(rooms, id) <==> !hosts(rooms, id),
{
    if is_at(rooms, i, id) {
        lemma_place(rooms, i);
    }
}

/// A room is found by its id, and there is none where no room has that id.
pub proof fn law_get(manager: RoomManager, id: &str, r: Option<&Room>, i: int)
    requires
        manager.wf(),
        call_ensures(RoomManager::get, (&manager, id), r),
    ensures
        is_at(manager@.rooms, i, id@) ==> r is Some && r->0@ == manager@.rooms[i]
            && r->0.channel() == manager.channels()[i],
        is_absent(manager@.rooms, id@) ==> r is None,
{
    manager.law_ids_differ();
    lemma_is_at(manager@.rooms, i, id@);
}

/// To get a room or create it changes nothing where it is there; else a new room
/// comes behind the others: empty, with the capacity asked for, and with the recorder
/// of the manager.
pub proof fn law_get_or_create(
    manager: &mut RoomManager,
    id: &str,
    capacity: usize,
    r: &Room,
    i: int,
)
    requires
        old(manager).wf(),
        call_ensures(RoomManager::get_or_create_with_capacity, (manager, id, capacity), r),
    ensures
        is_at(old(manager)@.rooms, i, id@) ==> final(manager)@.rooms == old(manager)@.rooms && r@
            == old(manager)@.rooms[i] && final(manager).channels() == old(manager).channels(),
        is_absent(old(manager)@.rooms, id@) ==> {
            let n = old(manager)@.rooms.len() as int;
            &&& final(manager)@.rooms.len() == n + 1
            &&& final(manager)@.rooms.take(n) == old(manager)@.rooms
            &&& final(manager).channels().take(n) == old(manager).channels()
            &&& final(manager)@.rooms[n] == r@
            &&& r@.id == id@
            &&& r@.capacity == capacity
            &&& r@.roster == Map::<u32, Seq<char>>::empty()
            &&& r@.sent.len() == 0
            &&& r@.stats == old(manager)@.stats
        },
        final(manager)@.capacity == old(manager)@.capacity,
        final(manager)@.stats == old(manager)@.stats,
{
    old(manager).law_ids_differ();
    old(manager).law_channels_are_those_of_the_rooms();
    let rooms = old(manager)@.rooms;
    lemma_is_at(rooms, i, id@);
    if is_absent(rooms, id@) {
        let made = final(manager)@.rooms;
        let n = rooms.len() as int;
        assert(made == rooms.push(RoomState::new(id@, capacity, old(manager)@.stats)));
        assert(made.take(n) == rooms);
        let place = room_place(made, id@);
        assert(made[n].id == id@);
        assert(0 <= place < made.len() && made[place].id == id@);
        if place < n {
            assert(made[place] == rooms[place]);
        }
        assert(final(manager).channels().take(n) == old(manager).channels());
    }
}

/// Without a capacity of its own, a room is created with that of the manager.
pub proof fn law_default_capacity(
    manager: &mut RoomManager,
    id: &str,
    r: &Room,
    capacity: usize,
)
    requires
        old(manager).wf(),
        call_ensures(RoomManager::default_capacity, (old(manager),), capacity),
        call_ensures(RoomManager::get_or_create, (manager, id), r),
    ensures
        is_absent(old(manager)@.rooms, id@) ==> final(manager)@.rooms == old(manager)@.rooms.push(
            r@,
        ) && r@.capacity == capacity && r@.id == id@ && r@.roster == Map::<
            u32,
            Seq<char>,
        >::empty() && r@.sent.len() == 0 && r@.stats == old(manager)@.stats,
        !is_absent(old(manager)@.rooms, id@) ==> final(manager)@.rooms == old(manager)@.rooms
            && r@.id == id@,
        capacity == old(manager)@.capacity,
{
    old(manager).law_ids_differ();
    let rooms = old(manager)@.rooms;
    lemma_is_at(rooms, 0, id@);
    if is_absent(rooms, id@) {
        let made = final(manager)@.rooms;
        let n = rooms.len() as int;
        let place = room_place(made, id@);
        assert(made[n].id == id@);
        assert(0 <= place < made.len() && made[place].id == id@);
        if place < n {
            assert(made[place] == rooms[place]);
        }
    } else {
        let place = room_place(rooms, id@);
        assert(0 <= place < rooms.len() && rooms[place].id == id@);
    }
}

/// A room that is removed is handed out as it was, with its channel, and the others
/// stay as they were, in their order.
pub proof fn law_remove(manager: &mut RoomManager, id: &str, r: Option<Room>, i: int)
    requires
        old(manager).wf(),
        call_ensures(RoomManager::remove, (manager, id), r),
    ensures
        is_at(old(manager)@.rooms, i, id@) ==> {
            &&& r is Some
            &&& r->0@ == old(manager)@.rooms[i]
            &&& r->0.channel() == old(manager).channels()[i]
            &&& final(manager)@.rooms == old(manager)@.rooms.remove(i)
            &&& final(manager).channels() == old(manager).channels().remove(i)
        },
        is_absent(old(manager)@.rooms, id@) ==> r is None && final(manager)@.rooms
            == old(manager)@.rooms && final(manager).channels() == old(manager).channels(),
        final(manager)@.capacity == old(manager)@.capacity,
        final(manager)@.stats == old(manager)@.stats,
{
    old(manager).law_ids_differ();
    lemma_is_at(old(manager)@.rooms, i, id@);
}

/// Who joins a room by its id joins that room and no other; there is none to join
/// where no room has the id.
pub proof fn law_join_by_id(
    manager: &mut RoomManager,
    id: &str,
    who: u32,
    name: String,
    r: bool,
    i: int,
)
    requires
        old(manager).wf(),
        call_ensures(RoomManager::join, (manager, id, who, name), r),
    ensures
        is_at(old(manager)@.rooms, i, id@) ==> {
            &&& r
            &&& final(manager)@.rooms.len() == old(manager)@.rooms.len()
            &&& final(manager)@.rooms[i].roster == old(manager)@.rooms[i].roster.insert(who, name@)
            &&& final(manager)@.rooms[i].sent == old(manager)@.rooms[i].sent
            &&& final(manager)@.rooms[i].id == id@
            &&& forall|k: int|
                0 <= k < old(manager)@.rooms.len() && k != i ==> #[trigger] final(
                    manager)@.rooms[k] == old(manager)@.rooms[k]
        },
        is_absent(old(manager)@.rooms, id@) ==> !r && final(manager)@ == old(manager)@,
        final(manager).channels() == old(manager).channels(),
{
    old(manager).law_ids_differ();
    lemma_is_at(old(manager)@.rooms, i, id@);
}

/// Who leaves a room by its id leaves that room and no other; it is told whether they
/// were in it.
pub proof fn law_leave_by_id(manager: &mut RoomManager, id: &str, who: u32, r: bool, i: int)
    requires
        old(manager).wf(),
        call_ensures(RoomManager::leave, (manager, id, who), r),
    ensures
        is_at(old(manager)@.rooms, i, id@) ==> {
            &&& r <==> old(manager)@.rooms[i].roster.contains_key(who)
            &&& final(manager)@.rooms.len() == old(manager)@.rooms.len()
            &&& final(manager)@.rooms[i].roster == old(manager)@.rooms[i].roster.remove(who)
            &&& final(manager)@.rooms[i].sent == old(manager)@.rooms[i].sent
            &&& final(manager)@.rooms[i].id == id@
            &&& forall|k: int|
                0 <= k < old(manager)@.rooms.len() && k != i ==> #[trigger] final(
                    manager)@.rooms[k] == old(manager)@.rooms[k]
        },
        is_absent(old(manager)@.rooms, id@) ==> !r && final(manager)@ == old(manager)@,
        final(manager).channels() == old(manager).channels(),
{
    old(manager).law_ids_differ();
    lemma_is_at(old(manager)@.rooms, i, id@);
}

/// A broadcast by the id of a room goes to the channel of that room, once, and to no
/// other.
pub proof fn law_broadcast_by_id(
    manager: &mut RoomManager,
    id: &str,
    frame: Frame,
    r: Option<Result<usize, WsError>>,
    i: int,
)
    requires
        old(manager).wf(),
        call_ensures(RoomManager::broadcast, (manager, id, frame), r),
    ensures
        is_at(old(manager)@.rooms, i, id@) ==> {
            &&& r is Some
            &&& delivered(old(manager).channels()[i], frame, r->0)
            &&& final(manager)@.rooms.len() == old(manager)@.rooms.len()
            &&& final(manager)@.rooms[i].sent == if r->0 is Ok {
                old(manager)@.rooms[i].sent.push(frame@)
            } else {
                old(manager)@.rooms[i].sent
            }
            &&& final(manager)@.rooms[i].roster == old(manager)@.rooms[i].roster
            &&& final(manager)@.rooms[i].id == id@
            &&& forall|k: int|
                0 <= k < old(manager)@.rooms.len() && k != i ==> #[trigger] final(
                    manager)@.rooms[k] == old(manager)@.rooms[k]
        },
        is_absent(old(manager)@.rooms, id@) ==> r is None && final(manager)@ == old(manager)@,
        r matches Some(Ok(n)) ==> n >= 1,
        r matches Some(Err(e)) ==> e is BroadcastFull,
{
    old(manager).law_ids_differ();
    lemma_is_at(old(manager)@.rooms, i, id@);
}

proof fn lemma_kept_is_filter<A>(items: Seq<A>, keep: Seq<bool>, test: spec_fn(A) -> bool)
    requires
        keep.len() == items.len(),
        forall|i: int| 0 <= i < items.len() ==> #[trigger] keep[i] == test(items[i]),
    ensures
        kept(items, keep) == items.filter(test),
    decreases items.len(),
{
    reveal(Seq::filter);
    if items.len() > 0 {
        let rest = items.skip(1);
        assert forall|i: int| 0 <= i < rest.len() implies #[trigger] keep.skip(1)[i] == test(
            rest[i],
        ) by {
            assert(keep[i + 1] == test(items[i + 1]));
        }
        lemma_kept_is_filter(rest, keep.skip(1), test);
        let one = seq![items[0]];
        assert(items == one + rest);
        Seq::filter_distributes_over_add(one, rest, test);
        assert(one.drop_last() == Seq::<A>::empty());
        assert(one.drop_last().filter(test) == Seq::<A>::empty());
        assert(one.filter(test) == if test(items[0]) {
            one
        } else {
            Seq::empty()
        });
        assert(keep[0] == test(items[0]));
        assert(kept(items, keep) == one.filter(test) + rest.filter(test));
    } else {
        assert(items.filter(test) == Seq::<A>::empty());
    }
}

/// `cleanup_empty` keeps the rooms that somebody takes part in, in their order, and
/// removes all others.
pub proof fn law_cleanup_empty(manager: &mut RoomManager, r: usize)
    requires
        call_ensures(RoomManager::cleanup_empty, (manager,), r),
    ensures
        final(manager)@.rooms == old(manager)@.rooms.filter(
            |room: RoomState| room.roster.dom().len() > 0,
        ),
        r == old(manager)@.rooms.len() - final(manager)@.rooms.len(),
        final(manager)@.capacity == old(manager)@.capacity,
        final(manager)@.stats == old(manager)@.stats,
{
    let rooms = old(manager)@.rooms;
    let test = |room: RoomState| room.roster.dom().len() > 0;
    assert forall|i: int| 0 <= i < rooms.len() implies #[trigger] occupied(rooms)[i] == test(
        rooms[i],
    ) by {}
    lemma_kept_is_filter(rooms, occupied(rooms), test);
}

/// Rooms with the receivers of each.
pub open spec fn with_receivers(rooms: Seq<RoomState>, receivers: Seq<usize>) -> Seq<
    (RoomState, usize),
> {
    Seq::new(rooms.len(), |i: int| (rooms[i], receivers[i]))
}

proof fn lemma_kept_firsts(rooms: Seq<RoomState>, receivers: Seq<usize>, keep: Seq<bool>)
    requires
        receivers.len() == rooms.len(),
        keep.len() == rooms.len(),
    ensures
        kept(rooms, keep) == kept(with_receivers(rooms, receivers), keep).map_values(
            |p: (RoomState, usize)| p.0,
        ),
    decreases rooms.len(),
{
    let pairs = with_receivers(rooms, receivers);
    let first = |p: (RoomState, usize)| p.0;
    if rooms.len() > 0 {
        lemma_kept_firsts(rooms.skip(1), receivers.skip(1), keep.skip(1));
        assert(pairs.skip(1) == with_receivers(rooms.skip(1), receivers.skip(1)));
        let rest = kept(pairs.skip(1), keep.skip(1));
        assert((seq![pairs[0]] + rest).map_values(first) == seq![rooms[0]] + rest.map_values(first));
        assert(kept(rooms, keep) == kept(pairs, keep).map_values(first));
    } else {
        assert(kept(rooms, keep) == kept(pairs, keep).map_values(first));
    }
}

/// `cleanup` keeps the rooms that somebody takes part in or that a receiver was
/// counted for on their own channel, in their order, and removes all others.
pub proof fn law_cleanup(manager: &mut RoomManager, r: usize)
    requires
        old(manager).wf(),
        call_ensures(RoomManager::cleanup, (manager,), r),
    ensures
        exists|receivers: Seq<usize>|
            {
                &&& #[trigger] receivers.len() == old(manager)@.rooms.len()
                &&& forall|i: int|
                    0 <= i < receivers.len() ==> call_ensures(
                        Sender::<Frame>::receiver_count,
                        (&old(manager).channels()[i],),
                        #[trigger] receivers[i],
                    )
                &&& final(manager)@.rooms == with_receivers(
                    old(manager)@.rooms,
                    receivers,
                ).filter(
                    |p: (RoomState, usize)| p.0.roster.dom().len() > 0 || p.1 > 0,
                ).map_values(|p: (RoomState, usize)| p.0)
            },
        r == old(manager)@.rooms.len() - final(manager)@.rooms.len(),
        final(manager)@.capacity == old(manager)@.capacity,
        final(manager)@.stats == old(manager)@.stats,
{
    let rooms = old(manager)@.rooms;
    old(manager).law_channels_are_those_of_the_rooms();
    let receivers = choose|receivers: Seq<usize>| #[trigger]
        all_counted(old(manager).channels(), receivers) && final(manager)@ == old(
            manager)@.keeping(in_use(rooms, receivers)) && final(manager).channels() == kept(
            old(manager).channels(),
            in_use(rooms, receivers),
        );
    lemma_in_use(rooms, receivers);
    assert(final(manager)@.rooms == with_receivers(rooms, receivers).filter(
        |p: (RoomState, usize)| p.0.roster.dom().len() > 0 || p.1 > 0,
    ).map_values(|p: (RoomState, usize)| p.0));
}

proof fn lemma_in_use(rooms: Seq<RoomState>, receivers: Seq<usize>)
    requires
        receivers.len() == rooms.len(),
    ensures
        kept(rooms, in_use(rooms, receivers)) == with_receivers(rooms, receivers).filter(
            |p: (RoomState, usize)| p.0.roster.dom().len() > 0 || p.1 > 0,
        ).map_values(|p: (RoomState, usize)| p.0),
{
    let test = |p: (RoomState, usize)| p.0.roster.dom().len() > 0 || p.1 > 0;
    let pairs = with_receivers(rooms, receivers);
    let keep = in_use(rooms, receivers);
    assert forall|i: int| 0 <= i < pairs.len() implies #[trigger] keep[i] == test(pairs[i]) by {}
    lemma_kept_is_filter(pairs, keep, test);
    lemma_kept_firsts(rooms, receivers, keep);
}

/// `sweep` keeps the rooms that somebody takes part in or that a receiver is given
/// for, in their order.
pub proof fn law_sweep(manager: &mut RoomManager, receivers: &[usize], r: usize)
    requires
        receivers@.len() == old(manager)@.rooms.len(),
        call_ensures(RoomManager::sweep, (manager, receivers), r),
    ensures
        final(manager)@.rooms == with_receivers(old(manager)@.rooms, receivers@).filter(
            |p: (RoomState, usize)| p.0.roster.dom().len() > 0 || p.1 > 0,
        ).map_values(|p: (RoomState, usize)| p.0),
        r == old(manager)@.rooms.len() - final(manager)@.rooms.len(),
{
    lemma_in_use(old(manager)@.rooms, receivers@);
}

/// The rooms that `take_empty` hands out are those that nobody takes part in, in
/// their order, and the others stay.
pub proof fn law_take_empty(manager: &mut RoomManager, r: Vec<Room>)
    requires
        call_ensures(RoomManager::take_empty, (manager,), r),
    ensures
        final(manager)@.rooms == old(manager)@.rooms.filter(
            |room: RoomState| room.roster.dom().len() > 0,
        ),
        r@.map_values(|room: Room| room@) == old(manager)@.rooms.filter(
            |room: RoomState| room.roster.dom().len() == 0,
        ),
{
    let rooms = old(manager)@.rooms;
    let test = |room: RoomState| room.roster.dom().len() > 0;
    let none = |room: RoomState| room.roster.dom().len() == 0;
    lemma_kept_is_filter(rooms, occupied(rooms), test);
    lemma_kept_is_filter(rooms, opposite(occupied(rooms)), none);
    assert(r@.map_values(|room: Room| room@) == states_of(r@));
}

/// The rooms that `take_vacant` hands out are those that nobody takes part in and
/// that no receiver was counted for on their own channel, in their order.
pub proof fn law_take_vacant(manager: &mut RoomManager, r: Vec<Room>)
    requires
        old(manager).wf(),
        call_ensures(RoomManager::take_vacant, (manager,), r),
    ensures
        exists|receivers: Seq<usize>|
            {
                &&& #[trigger] receivers.len() == old(manager)@.rooms.len()
                &&& forall|i: int|
                    0 <= i < receivers.len() ==> call_ensures(
                        Sender::<Frame>::receiver_count,
                        (&old(manager).channels()[i],),
                        #[trigger] receivers[i],
                    )
                &&& r@.map_values(|room: Room| room@) == with_receivers(
                    old(manager)@.rooms,
                    receivers,
                ).filter(
                    |p: (RoomState, usize)| p.0.roster.dom().len() == 0 && p.1 == 0,
                ).map_values(|p: (RoomState, usize)| p.0)
            },
{
    let rooms = old(manager)@.rooms;
    old(manager).law_channels_are_those_of_the_rooms();
    let receivers = choose|receivers: Seq<usize>| #[trigger]
        all_counted(old(manager).channels(), receivers) && final(manager)@ == old(
            manager)@.keeping(in_use(rooms, receivers)) && final(manager).channels() == kept(
            old(manager).channels(),
            in_use(rooms, receivers),
        ) && taken_out(rooms, old(manager).channels(), in_use(rooms, receivers), r@);
    let test = |p: (RoomState, usize)| p.0.roster.dom().len() == 0 && p.1 == 0;
    let pairs = with_receivers(rooms, receivers);
    let keep = opposite(in_use(rooms, receivers));
    assert forall|i: int| 0 <= i < pairs.len() implies #[trigger] keep[i] == test(pairs[i]) by {}
    lemma_kept_is_filter(pairs, keep, test);
    lemma_kept_firsts(rooms, receivers, keep);
    assert(r@.map_values(|room: Room| room@) == states_of(r@));
}

/// How many rooms there are, their ids in their order, and how many take part in
/// them.
pub proof fn law_counts_and_ids(
    manager: RoomManager,
    n: usize,
    ids: Vec<String>,
    total: usize,
    i: int,
)
    requires
        call_ensures(RoomManager::room_count, (&manager,), n),
        call_ensures(RoomManager::room_ids, (&manager,), ids),
        call_ensures(RoomManager::total_participants, (&manager,), total),
    ensures
        n == manager@.rooms.len(),
        ids@.len() == manager@.rooms.len(),
        0 <= i < ids@.len() ==> ids@[i]@ == manager@.rooms[i].id,
        ({
            let sum = manager@.rooms.map_values(
                |room: RoomState| room.roster.dom().len() as int,
            ).fold_left(0int, |a: int, b: int| a + b);
            &&& sum >= 0
            &&& sum <= usize::MAX ==> total == sum
        }),
{
    lemma_head_count_is_sum(manager@.rooms);
    if head_count(manager@.rooms) <= usize::MAX {
        lemma_small_mod(head_count(manager@.rooms), (usize::MAX + 1) as nat);
    }
}

proof fn lemma_head_count_is_sum(rooms: Seq<RoomState>)
    ensures
        rooms.map_values(|room: RoomState| room.roster.dom().len() as int).fold_left(
            0int,
            |a: int, b: int| a + b,
        ) == head_count(rooms),
    decreases rooms.len(),
{
    let size = |room: RoomState| room.roster.dom().len() as int;
    let plus = |a: int, b: int| a + b;
    reveal(Seq::fold_left);
    if rooms.len() > 0 {
        lemma_head_count_is_sum(rooms.drop_last());
        assert(rooms.map_values(size).drop_last() == rooms.drop_last().map_values(size));
    }
}

/// Managers are made empty: with a capacity of 1024, or that of a configuration, and
/// with the recorder that they are given.
pub proof fn law_new_managers(
    config: WsConfig,
    stats: StatsRecorder,
    plain: RoomManager,
    configured: RoomManager,
    counted: RoomManager,
)
    requires
        call_ensures(RoomManager::new, (), plain),
        call_ensures(RoomManager::with_config, (&config,), configured),
        call_ensures(RoomManager::with_stats, (&config, stats), counted),
    ensures
        plain@.rooms.len() == 0 && configured@.rooms.len() == 0 && counted@.rooms.len() == 0,
        plain@.capacity == 1024,
        configured@.capacity == config.broadcast_capacity,
        counted@.capacity == config.broadcast_capacity,
        plain@.stats is None && configured@.stats is None,
        counted@.stats == Some(stats),
{
}

/// The making and the closing of rooms is counted by the recorder of the manager.
pub proof fn law_rooms_are_counted(
    manager: &mut RoomManager,
    other: &mut RoomManager,
    third: &mut RoomManager,
    id: &str,
    made: &Room,
    removed: Option<Room>,
    n: usize,
)
    requires
        old(manager).wf() && old(other).wf(),
        call_ensures(RoomManager::get_or_create, (manager, id), made),
        call_ensures(RoomManager::remove, (other, id), removed),
        call_ensures(RoomManager::cleanup_empty, (third,), n),
        old(manager)@.stats is Some && old(other)@.stats is Some && old(third)@.stats is Some,
    ensures
        is_absent(old(manager)@.rooms, id@) ==> exists|before: Journal| #[trigger]
            revised(old(manager)@.stats->0.book(), before, before.opened()),
        removed is Some ==> exists|before: Journal| #[trigger]
            revised(old(other)@.stats->0.book(), before, before.closed(1)),
        n > 0 ==> exists|before: Journal| #[trigger]
            revised(old(third)@.stats->0.book(), before, before.closed(n as nat)),
{
    old(manager).law_ids_differ();
    lemma_is_at(old(manager)@.rooms, 0, id@);
}

/// A manager shows the recorder that it counts in.
pub proof fn law_recorder_of_manager_is_shown(manager: RoomManager, r: Option<&StatsRecorder>)
    requires
        call_ensures(RoomManager::stats, (&manager,), r),
    ensures
        r is Some <==> manager@.stats is Some,
        r matches Some(recorder) ==> manager@.stats == Some(*recorder),
{
}

/// Of any registry: a room is found by its id and shown as it is, the rooms are
/// counted, their ids are listed in order, and their participants are added up.
pub proof fn law_registries_show_their_rooms<R: RoomRegistry>(
    registry: R,
    id: &str,
    found: Option<&Room>,
    i: int,
    n: usize,
    ids: Vec<String>,
    total: usize,
)
    requires
        ids_differ(registry.registry().rooms),
        call_ensures(R::get, (&registry, id), found),
        call_ensures(R::room_count, (&registry,), n),
        call_ensures(R::room_ids, (&registry,), ids),
        call_ensures(R::total_participants, (&registry,), total),
    ensures
        is_at(registry.registry().rooms, i, id@) ==> found is Some && found->0@
            == registry.registry().rooms[i] && found->0.channel() == registry.room_channels()[i],
        is_absent(registry.registry().rooms, id@) ==> found is None,
        n == registry.registry().rooms.len(),
        ids@.len() == registry.registry().rooms.len(),
        0 <= i < ids@.len() ==> ids@[i]@ == registry.registry().rooms[i].id,
        ({
            let sum = registry.registry().rooms.map_values(
                |room: RoomState| room.roster.dom().len() as int,
            ).fold_left(0int, |a: int, b: int| a + b);
            sum <= usize::MAX ==> total == sum
        }),
{
    let rooms = registry.registry().rooms;
    lemma_is_at(rooms, i, id@);
    lemma_head_count_is_sum(rooms);
    if head_count(rooms) <= usize::MAX {
        lemma_small_mod(head_count(rooms), (usize::MAX + 1) as nat);
    }
}

/// Of any registry: a room that is asked for is created empty behind the others where
/// there is none, and a room that is removed is handed out and leaves the others as
/// they were.
pub proof fn law_registries_make_and_remove_rooms<R: RoomRegistry>(
    registry: &mut R,
    other: &mut R,
    id: &str,
    made: &Room,
    removed: Option<Room>,
    i: int,
)
    requires
        ids_differ(old(registry).registry().rooms),
        ids_differ(old(other).registry().rooms),
        call_ensures(R::get_or_create, (registry, id), made),
        call_ensures(R::remove, (other, id), removed),
    ensures
        is_at(old(registry).registry().rooms, i, id@) ==> final(registry).registry().rooms == old(
            registry).registry().rooms && made@ == old(registry).registry().rooms[i],
        is_absent(old(registry).registry().rooms, id@) ==> {
            &&& final(registry).registry().rooms == old(registry).registry().rooms.push(made@)
            &&& made@.id == id@
            &&& made@.capacity == old(registry).registry().capacity
            &&& made@.roster == Map::<u32, Seq<char>>::empty()
            &&& made@.sent.len() == 0
            &&& made@.stats == old(registry).registry().stats
        },
        is_at(old(other).registry().rooms, i, id@) ==> {
            &&& removed is Some
            &&& removed->0@ == old(other).registry().rooms[i]
            &&& removed->0.channel() == old(other).room_channels()[i]
            &&& final(other).registry().rooms == old(other).registry().rooms.remove(i)
            &&& final(other).room_channels() == old(other).room_channels().remove(i)
        },
        is_absent(old(other).registry().rooms, id@) ==> removed is None && final(
            other).registry().rooms == old(other).registry().rooms,
{
    let rooms = old(registry).registry().rooms;
    lemma_is_at(rooms, i, id@);
    lemma_is_at(old(other).registry().rooms, i, id@);
    if is_absent(rooms, id@) {
        let grown = final(registry).registry().rooms;
        let n = rooms.len() as int;
        let place = room_place(grown, id@);
        assert(grown[n].id == id@);
        assert(0 <= place < grown.len() && grown[place].id == id@);
        if place < n {
            assert(grown[place] == rooms[place]);
        }
    }
}

/// Of any registry: a cleanup keeps the rooms that somebody takes part in, or for one
/// of both kinds that a receiver was counted for, in their order, and no others.
pub proof fn law_registries_are_cleaned_up<R: RoomRegistry>(
    registry: &mut R,
    other: &mut R,
    n: usize,
    m: usize,
)
    requires
        old(other).room_channels().len() == old(other).registry().rooms.len(),
        call_ensures(R::cleanup_empty, (registry,), n),
        call_ensures(R::cleanup, (other,), m),
    ensures
        final(registry).registry().rooms == old(registry).registry().rooms.filter(
            |room: RoomState| room.roster.dom().len() > 0,
        ),
        n == old(registry).registry().rooms.len() - final(registry).registry().rooms.len(),
        exists|receivers: Seq<usize>|
            {
                &&& #[trigger] receivers.len() == old(other).registry().rooms.len()
                &&& forall|i: int|
                    0 <= i < receivers.len() ==> call_ensures(
                        Sender::<Frame>::receiver_count,
                        (&old(other).room_channels()[i],),
                        #[trigger] receivers[i],
                    )
                &&& final(other).registry().rooms == with_receivers(
                    old(other).registry().rooms,
                    receivers,
                ).filter(
                    |p: (RoomState, usize)| p.0.roster.dom().len() > 0 || p.1 > 0,
                ).map_values(|p: (RoomState, usize)| p.0)
            },
        m == old(other).registry().rooms.len() - final(other).registry().rooms.len(),
{
    let rooms = old(registry).registry().rooms;
    let test = |room: RoomState| room.roster.dom().len() > 0;
    lemma_kept_is_filter(rooms, occupied(rooms), test);
    let others = old(other).registry().rooms;
    let receivers = choose|receivers: Seq<usize>| #[trigger]
        all_counted(old(other).room_channels(), receivers) && final(other).registry() == old(
            other).registry().keeping(in_use(others, receivers)) && final(other).room_channels()
            == kept(old(other).room_channels(), in_use(others, receivers));
    lemma_in_use(others, receivers);
    assert(receivers.len() == others.len());
}

/// Rooms that a cleanup closes are counted as closed, all of them at once.
pub proof fn law_cleanups_are_counted(
    manager: &mut RoomManager,
    other: &mut RoomManager,
    third: &mut RoomManager,
    fourth: &mut RoomManager,
    receivers: &[usize],
    n: usize,
    m: usize,
    empty: Vec<Room>,
    vacant: Vec<Room>,
)
    requires
        call_ensures(RoomManager::cleanup, (manager,), n),
        call_ensures(RoomManager::sweep, (other, receivers), m),
        call_ensures(RoomManager::take_empty, (third,), empty),
        call_ensures(RoomManager::take_vacant, (fourth,), vacant),
        old(manager)@.stats is Some && old(other)@.stats is Some,
        old(third)@.stats is Some && old(fourth)@.stats is Some,
    ensures
        n > 0 ==> exists|before: Journal| #[trigger]
            revised(old(manager)@.stats->0.book(), before, before.closed(n as nat)),
        m > 0 ==> exists|before: Journal| #[trigger]
            revised(old(other)@.stats->0.book(), before, before.closed(m as nat)),
        empty@.len() > 0 ==> exists|before: Journal| #[trigger]
            revised(old(third)@.stats->0.book(), before, before.closed(empty@.len())),
        vacant@.len() > 0 ==> exists|before: Journal| #[trigger]
            revised(old(fourth)@.stats->0.book(), before, before.closed(vacant@.len())),
{
}

/// A broadcast by the id of a room is counted for that room: a message and its bytes
/// for each receiver that it reached, or one drop.
pub proof fn law_broadcasts_by_id_are_counted(
    manager: &mut RoomManager,
    id: &str,
    frame: Frame,
    r: Option<Result<usize, WsError>>,
    traffic: RoomStats,
)
    requires
        call_ensures(RoomManager::broadcast, (manager, id, frame), r),
        r is Some,
        old(manager)@.stats is Some,
        frame@.bytes().len() <= usize::MAX,
        is_traffic_of(traffic, frame@.bytes().len() as u64, r->0),
    ensures
        exists|before: Journal| #[trigger]
            revised(
                old(manager)@.stats->0.book(),
                before,
                before.after(Recording { room: Some(id@), traffic }),
            ),
{
    assert(traffic == traffic_of(frame@.bytes().len() as usize, r->0));
}

} // verus!
