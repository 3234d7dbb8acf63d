//! Backpressure and traffic metrics.
//!
//! [`StatsRecorder`] keeps the numbers an operator needs under load, globally
//! and per room: connections, rooms, messages and bytes in and out, and drops
//! (broadcasts that found no live receiver). [`StatsRecorder::snapshot`] reads
//! them all. Clones of a recorder share the counters; a [`Tally`] is the counters
//! in one hand.
use crate::directory::{
    holds, keys_differ, lemma_entry, lemma_insert, lemma_update, place, to_map, Directory,
};
use crate::text::{same, to_chars};
use std::sync::Arc;
use vstd::prelude::*;
use vstd::rwlock::{ReadHandle, RwLock, RwLockPredicate, WriteHandle};

verus! {

/// Traffic counters for a single room.
#[derive(Debug, Clone, Copy, PartialEq, Eq, Structural)]
pub struct RoomStats {
    /// Messages recorded as received in this room.
    pub messages_in: u64,
    /// Messages fanned out to this room's receivers.
    pub messages_out: u64,
    /// Payload bytes received for this room.
    pub bytes_in: u64,
    /// Payload bytes written to this room's receivers.
    pub bytes_out: u64,
    /// Broadcast attempts that found no live receiver (data lost).
    pub drops: u64,
}

impl RoomStats {
    /// No traffic.
    pub open spec fn none() -> RoomStats {
        RoomStats { messages_in: 0, messages_out: 0, bytes_in: 0, bytes_out: 0, drops: 0 }
    }

    /// One inbound message of `bytes` payload bytes.
    pub open spec fn message_in(bytes: u64) -> RoomStats {
        RoomStats { messages_in: 1, bytes_in: bytes, ..RoomStats::none() }
    }

    /// `count` outbound messages of `bytes` payload bytes in all.
    pub open spec fn message_out(count: u64, bytes: u64) -> RoomStats {
        RoomStats { messages_out: count, bytes_out: bytes, ..RoomStats::none() }
    }

    /// One broadcast that found no receiver.
    pub open spec fn one_drop() -> RoomStats {
        RoomStats { drops: 1, ..RoomStats::none() }
    }

    /// This traffic and `more`; counters wrap around.
    pub open spec fn plus(self, more: RoomStats) -> RoomStats {
        RoomStats {
            messages_in: self.messages_in.wrapping_add(more.messages_in),
            messages_out: self.messages_out.wrapping_add(more.messages_out),
            bytes_in: self.bytes_in.wrapping_add(more.bytes_in),
            bytes_out: self.bytes_out.wrapping_add(more.bytes_out),
            drops: self.drops.wrapping_add(more.drops),
        }
    }

    fn adding(&self, more: &RoomStats) -> (r: RoomStats)
        ensures
            r == self.plus(*more),
    {
        RoomStats {
            messages_in: self.messages_in.wrapping_add(more.messages_in),
            messages_out: self.messages_out.wrapping_add(more.messages_out),
            bytes_in: self.bytes_in.wrapping_add(more.bytes_in),
            bytes_out: self.bytes_out.wrapping_add(more.bytes_out),
            drops: self.drops.wrapping_add(more.drops),
        }
    }
}

impl Default for RoomStats {
    fn default() -> (r: Self)
        ensures
            r == RoomStats::none(),
    {
        RoomStats { messages_in: 0, messages_out: 0, bytes_in: 0, bytes_out: 0, drops: 0 }
    }
}

/// Whether text `a` comes before text `b` in the order of their code points.
pub open spec fn precedes(a: Seq<char>, b: Seq<char>) -> bool
    decreases a.len(),
{
    if b.len() == 0 {
        false
    } else if a.len() == 0 {
        true
    } else {
        a[0] < b[0] || a[0] == b[0] && precedes(a.skip(1), b.skip(1))
    }
}

/// Whether the keys of `entries` ascend.
pub open spec fn ascending(entries: Seq<(Seq<char>, RoomStats)>) -> bool {
    forall|i: int, j: int|
        0 <= i < j < entries.len() ==> precedes(
            (#[trigger] entries[i]).0,
            (#[trigger] entries[j]).0,
        )
}

proof fn lemma_order_is_strict(a: Seq<char>, b: Seq<char>)
    ensures
        !(precedes(a, b) && precedes(b, a)),
        !precedes(a, a),
        precedes(a, b) || precedes(b, a) || a == b,
    decreases a.len(),
{
    if a.len() > 0 {
        lemma_order_is_strict(
            a.skip(1),
            if b.len() > 0 {
                b.skip(1)
            } else {
                b
            },
        );
        if b.len() > 0 && a[0] == b[0] && a.skip(1) == b.skip(1) {
            assert(a == seq![a[0]] + a.skip(1));
            assert(b == seq![b[0]] + b.skip(1));
        }
    } else if b.len() == 0 {
        assert(a == b);
    }
}

proof fn lemma_order_is_transitive(a: Seq<char>, b: Seq<char>, c: Seq<char>)
    requires
        precedes(a, b),
        precedes(b, c),
    ensures
        precedes(a, c),
    decreases a.len(),
{
    if a.len() > 0 && a[0] == b[0] && b[0] == c[0] {
        lemma_order_is_transitive(a.skip(1), b.skip(1), c.skip(1));
    }
}

fn comes_before(a: &str, b: &str) -> (r: bool)
    ensures
        r == precedes(a@, b@),
{
    let x = to_chars(a);
    let y = to_chars(b);
    let mut i: usize = 0;
    assert(x@.skip(0) == x@);
    assert(y@.skip(0) == y@);
    while i < x.len() && i < y.len() && x[i] == y[i]
        invariant
            i <= x@.len(),
            i <= y@.len(),
            precedes(x@.skip(i as int), y@.skip(i as int)) == precedes(x@, y@),
        decreases x@.len() - i,
    {
        assert(x@.skip(i as int).skip(1) == x@.skip(i + 1));
        assert(y@.skip(i as int).skip(1) == y@.skip(i + 1));
        i = i + 1;
    }
    if i == y.len() {
        false
    } else if i == x.len() {
        true
    } else {
        x[i] < y[i]
    }
}

proof fn lemma_ascending_keys_differ(entries: Seq<(Seq<char>, RoomStats)>)
    requires
        ascending(entries),
    ensures
        keys_differ(entries),
{
    assert forall|i: int, j: int| 0 <= i < j < entries.len() implies (#[trigger] entries[i]).0 != (
    #[trigger] entries[j]).0 by {
        assert(precedes(entries[i].0, entries[j].0));
        lemma_order_is_strict(entries[i].0, entries[j].0);
    }
}

/// Room counters by room id, in the order of the ids.
#[derive(Debug, PartialEq, Eq)]
pub struct PerRoom {
    entries: Vec<(String, RoomStats)>,
}

/// The ids and counters of a list.
pub open spec fn listed(entries: Seq<(String, RoomStats)>) -> Seq<(Seq<char>, RoomStats)> {
    Seq::new(entries.len(), |i: int| (entries[i].0@, entries[i].1))
}

impl View for PerRoom {
    type V = Seq<(Seq<char>, RoomStats)>;

    closed spec fn view(&self) -> Seq<(Seq<char>, RoomStats)> {
        listed(self.entries@)
    }
}

impl Clone for PerRoom {
    fn clone(&self) -> (r: Self)
        ensures
            r@ == self@,
    {
        proof {
            use_type_invariant(self);
        }
        let mut entries: Vec<(String, RoomStats)> = Vec::new();
        let n: usize = self.entries.len();
        for i in 0..n
            invariant
                n == self.entries@.len(),
                listed(entries@) == self@.take(i as int),
        {
            let ghost before = listed(entries@);
            let id = self.entries[i].0.clone();
            let stats = self.entries[i].1;
            entries.push((id, stats));
            assert(self@[i as int] == (id@, stats));
            assert(listed(entries@) =~= before.push((id@, stats)));
            assert(self@.take(i + 1) =~= self@.take(i as int).push(self@[i as int]));
        }
        assert(self@.take(n as int) == self@);
        PerRoom { entries }
    }
}

impl PerRoom {
    #[verifier::type_invariant]
    spec fn in_order(self) -> bool {
        ascending(listed(self.entries@))
    }

    /// The number of rooms.
    pub fn len(&self) -> (r: usize)
        ensures
            r == self@.len(),
    {
        self.entries.len()
    }

    /// True when there is no room.
    pub fn is_empty(&self) -> (r: bool)
        ensures
            r == (self@.len() == 0),
    {
        self.entries.len() == 0
    }

    /// The id and the counters at place `i`.
    pub fn entry(&self, i: usize) -> (r: (&str, &RoomStats))
        requires
            i < self@.len(),
        ensures
            r.0@ == self@[i as int].0,
            *r.1 == self@[i as int].1,
    {
        (self.entries[i].0.as_str(), &self.entries[i].1)
    }

    /// The counters of a room.
    pub fn get(&self, room: &str) -> (r: Option<&RoomStats>)
        ensures
            match r {
                Some(stats) => to_map(self@).contains_key(room@) && to_map(self@)[room@] == *stats,
                None => !to_map(self@).contains_key(room@),
            },
    {
        proof {
            use_type_invariant(self);
            lemma_ascending_keys_differ(self@);
        }
        let wanted = to_chars(room);
        let n: usize = self.entries.len();
        for i in 0..n
            invariant
                n == self@.len(),
                n == self.entries@.len(),
                keys_differ(self@),
                wanted@ == room@,
                forall|j: int| 0 <= j < i ==> (#[trigger] self@[j]).0 != room@,
        {
            if same(&to_chars(self.entries[i].0.as_str()), &wanted) {
                proof {
                    lemma_entry(self@, i as int);
                }
                return Some(&self.entries[i].1);
            }
        }
        None
    }
}

/// Puts a room in at its place in the order.
fn put_in_order(entries: &mut Vec<(String, RoomStats)>, room: String, stats: RoomStats)
    requires
        ascending(listed(old(entries)@)),
        !holds(listed(old(entries)@), room@),
    ensures
        ascending(listed(final(entries)@)),
        to_map(listed(final(entries)@)) == to_map(listed(old(entries)@)).insert(room@, stats),
        final(entries)@.len() == old(entries)@.len() + 1,
{
    let ghost before = listed(entries@);
    let mut i: usize = 0;
    while i < entries.len() && comes_before(entries[i].0.as_str(), room.as_str())
        invariant
            before == listed(entries@),
            i <= entries@.len(),
            forall|j: int| 0 <= j < i ==> precedes((#[trigger] before[j]).0, room@),
        decreases entries@.len() - i,
    {
        i = i + 1;
    }
    proof {
        lemma_ascending_keys_differ(before);
        lemma_insert(before, i as int, room@, stats);
        assert forall|j: int| i <= j < before.len() implies precedes(
            room@,
            (#[trigger] before[j]).0,
        ) by {
            lemma_order_is_strict(before[i as int].0, room@);
            if j > i {
                assert(precedes(before[i as int].0, before[j].0));
                lemma_order_is_transitive(room@, before[i as int].0, before[j].0);
            }
        }
    }
    let ghost id = room@;
    entries.insert(i, (room, stats));
    proof {
        let after = before.insert(i as int, (id, stats));
        assert(listed(entries@) == after);
        assert forall|a: int, b: int| 0 <= a < b < after.len() implies precedes(
            (#[trigger] after[a]).0,
            (#[trigger] after[b]).0,
        ) by {
            let was_a = if a < i {
                a
            } else {
                a - 1
            };
            let was_b = if b < i {
                b
            } else {
                b - 1
            };
            if a != i {
                assert(after[a] == before[was_a]);
            }
            if b != i {
                assert(after[b] == before[was_b]);
            }
        }
    }
}

/// Point-in-time snapshot of global and per-room counters.
#[derive(Debug, PartialEq, Eq)]
pub struct Stats {
    /// Live connection count (accept minus close).
    pub connections: u64,
    /// Live room count.
    pub rooms: u64,
    /// Global messages recorded inbound (includes all room traffic).
    pub messages_in: u64,
    /// Global messages fanned outbound (includes all room traffic).
    pub messages_out: u64,
    /// Global inbound payload bytes.
    pub bytes_in: u64,
    /// Global outbound payload bytes.
    pub bytes_out: u64,
    /// Global drops: broadcasts with no live receiver (backpressure loss).
    pub drops: u64,
    /// Per-room counters, keyed by room id (sorted for stable output).
    pub per_room: PerRoom,
}

/// All counters of a recorder.
#[verifier::ext_equal]
pub ghost struct Ledger {
    pub connections: u64,
    pub rooms: u64,
    pub total: RoomStats,
    pub per_room: Map<Seq<char>, RoomStats>,
}

impl Ledger {
    /// All counters at zero.
    pub open spec fn new() -> Ledger {
        Ledger { connections: 0, rooms: 0, total: RoomStats::none(), per_room: Map::empty() }
    }

    /// The traffic of a room.
    pub open spec fn traffic(self, room: Seq<char>) -> RoomStats {
        if self.per_room.contains_key(room) {
            self.per_room[room]
        } else {
            RoomStats::none()
        }
    }

    /// With one connection more.
    pub open spec fn connected(self) -> Ledger {
        Ledger { connections: self.connections.wrapping_add(1), ..self }
    }

    /// With one connection less, but not less than none.
    pub open spec fn disconnected(self) -> Ledger {
        Ledger { connections: fewer(self.connections, 1), ..self }
    }

    /// With one room more.
    pub open spec fn opened(self) -> Ledger {
        Ledger { rooms: self.rooms.wrapping_add(1), ..self }
    }

    /// With `n` rooms less, but not less than none.
    pub open spec fn closed(self, n: nat) -> Ledger {
        Ledger { rooms: fewer(self.rooms, n), ..self }
    }

    /// With `more` traffic that belongs to no room.
    pub open spec fn record(self, more: RoomStats) -> Ledger {
        Ledger { total: self.total.plus(more), ..self }
    }

    /// With `more` traffic of a room.
    pub open spec fn record_room(self, room: Seq<char>, more: RoomStats) -> Ledger {
        Ledger {
            total: self.total.plus(more),
            per_room: self.per_room.insert(room, self.traffic(room).plus(more)),
            ..self
        }
    }
}

impl Stats {
    /// The counters as a ledger.
    pub open spec fn ledger(self) -> Ledger {
        Ledger {
            connections: self.connections,
            rooms: self.rooms,
            total: RoomStats {
                messages_in: self.messages_in,
                messages_out: self.messages_out,
                bytes_in: self.bytes_in,
                bytes_out: self.bytes_out,
                drops: self.drops,
            },
            per_room: to_map(self.per_room@),
        }
    }
}

impl Clone for Stats {
    fn clone(&self) -> (r: Self)
        ensures
            r.ledger() == self.ledger(),
            r.per_room@ == self.per_room@,
    {
        Stats {
            connections: self.connections,
            rooms: self.rooms,
            messages_in: self.messages_in,
            messages_out: self.messages_out,
            bytes_in: self.bytes_in,
            bytes_out: self.bytes_out,
            drops: self.drops,
            per_room: self.per_room.clone(),
        }
    }
}

impl Default for Stats {
    fn default() -> (r: Self)
        ensures
            r.ledger() == Ledger::new(),
    {
        let per_room = PerRoom { entries: Vec::new() };
        assert(to_map(per_room@) == Map::<Seq<char>, RoomStats>::empty());
        Stats {
            connections: 0,
            rooms: 0,
            messages_in: 0,
            messages_out: 0,
            bytes_in: 0,
            bytes_out: 0,
            drops: 0,
            per_room,
        }
    }
}

/// So many less, but not less than zero.
pub open spec fn fewer(count: u64, by: nat) -> u64 {
    if count < by {
        0
    } else {
        (count - by) as u64
    }
}

fn saturating_dec(counter: &mut u64, by: usize) -> (r: u64)
    ensures
        *final(counter) == fewer(*old(counter), by as nat),
        r == *final(counter),
{
    *counter = counter.saturating_sub(by as u64);
    *counter
}

/// Global and per-room counters in one hand.
pub struct Tally {
    connections: u64,
    rooms: u64,
    total: RoomStats,
    per_room: Directory<RoomStats>,
    history: Ghost<Seq<Recording>>,
}

impl View for Tally {
    type V = Ledger;

    closed spec fn view(&self) -> Ledger {
        Ledger {
            connections: self.connections,
            rooms: self.rooms,
            total: self.total,
            per_room: to_map(self.per_room@),
        }
    }
}

impl Tally {
    /// What was recorded so far.
    pub closed spec fn history(&self) -> Seq<Recording> {
        self.history@
    }

    /// The counters with what was recorded.
    pub open spec fn journal(&self) -> Journal {
        Journal { ledger: self@, history: self.history() }
    }

    /// The table of rooms is in order, and the counters are what was recorded.
    pub closed spec fn wf(&self) -> bool {
        self.per_room.wf() && told_by(self@, self.history@)
    }

    /// The counters are what was recorded.
    pub proof fn law_counters_tell_the_history(&self)
        requires
            self.wf(),
        ensures
            told_by(self@, self.history()),
    {
    }

    /// All counters at zero.
    pub fn new() -> (r: Self)
        ensures
            r.wf(),
            r.journal() == Journal::new(),
    {
        let r = Tally {
            connections: 0,
            rooms: 0,
            total: RoomStats::default(),
            per_room: Directory::new(),
            history: Ghost(Seq::empty()),
        };
        assert(r@.per_room == Map::<Seq<char>, RoomStats>::empty());
        r
    }

    /// One connection more. Returns the new count.
    pub fn inc_connections(&mut self) -> (r: u64)
        requires
            old(self).wf(),
        ensures
            final(self).wf(),
            final(self).journal() == old(self).journal().connected(),
            r == final(self)@.connections,
    {
        self.connections = self.connections.wrapping_add(1);
        self.connections
    }

    /// One connection less, but not less than zero. Returns the new count.
    pub fn dec_connections(&mut self) -> (r: u64)
        requires
            old(self).wf(),
        ensures
            final(self).wf(),
            final(self).journal() == old(self).journal().disconnected(),
            r == final(self)@.connections,
    {
        saturating_dec(&mut self.connections, 1)
    }

    /// One room more.
    pub fn room_opened(&mut self)
        requires
            old(self).wf(),
        ensures
            final(self).wf(),
            final(self).journal() == old(self).journal().opened(),
    {
        self.rooms = self.rooms.wrapping_add(1);
    }

    /// So many rooms less, but not less than zero.
    pub fn rooms_closed(&mut self, n: usize)
        requires
            old(self).wf(),
        ensures
            final(self).wf(),
            final(self).journal() == old(self).journal().closed(n as nat),
    {
        saturating_dec(&mut self.rooms, n);
    }

    /// More traffic that belongs to no room.
    pub fn record(&mut self, more: &RoomStats)
        requires
            old(self).wf(),
        ensures
            final(self).wf(),
            final(self).journal() == old(self).journal().after(
                Recording { room: None, traffic: *more },
            ),
    {
        let ghost recording = Recording { room: None, traffic: *more };
        self.total = self.total.adding(more);
        self.history = Ghost(self.history@.push(recording));
        proof {
            lemma_told_on(old(self)@, old(self).history@, recording);
        }
    }

    /// More traffic of a room, which counts for the whole too.
    pub fn record_room(&mut self, room: &str, more: &RoomStats)
        requires
            old(self).wf(),
        ensures
            final(self).wf(),
            final(self).journal() == old(self).journal().after(
                Recording { room: Some(room@), traffic: *more },
            ),
    {
        let ghost recording = Recording { room: Some(room@), traffic: *more };
        let counters = self.room_counters(room);
        *counters = counters.adding(more);
        self.total = self.total.adding(more);
        self.history = Ghost(self.history@.push(recording));
        proof {
            lemma_told_on(old(self)@, old(self).history@, recording);
        }
    }

    /// The counters of a room, to change; a new room starts at zero.
    fn room_counters(&mut self, room: &str) -> (r: &mut RoomStats)
        requires
            old(self).per_room.wf(),
        ensures
            *r == old(self)@.traffic(room@),
            final(self).per_room.wf(),
            final(self).history == old(self).history,
            final(self)@ == (Ledger {
                per_room: old(self)@.per_room.insert(room@, *final(r)),
                ..old(self)@
            }),
    {
        let ghost before = self.per_room@;
        proof {
            self.per_room.lemma_keys_differ();
        }
        let i: usize = match self.per_room.find(room) {
            Some(i) => i,
            None => {
                self.per_room.push(room, RoomStats::default());
                proof {
                    lemma_insert(before, before.len() as int, room@, RoomStats::none());
                    assert(before.insert(before.len() as int, (room@, RoomStats::none()))
                        == self.per_room@);
                }
                self.per_room.len() - 1
            },
        };
        let ghost now = self.per_room@;
        proof {
            lemma_entry(now, i as int);
            assert forall|stats: RoomStats|
                to_map(#[trigger] now.update(i as int, (room@, stats))) == to_map(before).insert(
                    room@,
                    stats,
                ) by {
                lemma_update(now, i as int, stats);
                assert(to_map(now).insert(room@, stats) == to_map(before).insert(room@, stats));
            }
        }
        self.per_room.get_mut(i)
    }

    /// All counters as they stand, with every room that ever recorded traffic.
    pub fn snapshot(&self) -> (r: Stats)
        requires
            self.wf(),
        ensures
            r.ledger() == self@,
            ascending(r.per_room@),
    {
        let mut entries: Vec<(String, RoomStats)> = Vec::new();
        let n: usize = self.per_room.len();
        let ghost all = self.per_room@;
        proof {
            self.per_room.lemma_keys_differ();
        }
        assert(to_map(listed(entries@)) == to_map(all.take(0)));
        for i in 0..n
            invariant
                n == all.len(),
                all == self.per_room@,
                keys_differ(all),
                ascending(listed(entries@)),
                to_map(listed(entries@)) == to_map(all.take(i as int)),
        {
            let room = self.per_room.key(i).to_owned();
            let stats = *self.per_room.get(i);
            proof {
                let done = all.take(i as int);
                assert forall|j: int| 0 <= j < done.len() implies (#[trigger] done[j]).0
                    != room@ by {
                    assert(all[j].0 != all[i as int].0);
                }
                assert(keys_differ(done)) by {
                    assert forall|a: int, b: int| 0 <= a < b < done.len() implies (
                    #[trigger] done[a]).0 != (#[trigger] done[b]).0 by {
                        assert(all[a].0 != all[b].0);
                    }
                }
                lemma_insert(done, i as int, room@, stats);
                assert(done.insert(i as int, (room@, stats)) == all.take(i + 1));
                assert(!to_map(done).contains_key(room@));
                if holds(listed(entries@), room@) {
                    assert(to_map(listed(entries@)).contains_key(room@));
                }
            }
            put_in_order(&mut entries, room, stats);
        }
        assert(all.take(n as int) == all);
        Stats {
            connections: self.connections,
            rooms: self.rooms,
            messages_in: self.total.messages_in,
            messages_out: self.total.messages_out,
            bytes_in: self.total.bytes_in,
            bytes_out: self.total.bytes_out,
            drops: self.total.drops,
            per_room: PerRoom { entries },
        }
    }
}

/// One recording: traffic of a room, or of none.
pub ghost struct Recording {
    pub room: Option<Seq<char>>,
    pub traffic: RoomStats,
}

impl Ledger {
    /// After one recording.
    pub open spec fn after(self, recording: Recording) -> Ledger {
        match recording.room {
            Some(room) => self.record_room(room, recording.traffic),
            None => self.record(recording.traffic),
        }
    }

    /// After recordings in turn.
    pub open spec fn after_all(self, recordings: Seq<Recording>) -> Ledger
        decreases recordings.len(),
    {
        if recordings.len() == 0 {
            self
        } else {
            self.after_all(recordings.drop_last()).after(recordings.last())
        }
    }
}

/// Counters with what was recorded in them.
#[verifier::ext_equal]
pub ghost struct Journal {
    pub ledger: Ledger,
    pub history: Seq<Recording>,
}

impl Journal {
    /// All counters at zero, and nothing recorded.
    pub open spec fn new() -> Journal {
        Journal { ledger: Ledger::new(), history: Seq::empty() }
    }

    /// After one recording.
    pub open spec fn after(self, recording: Recording) -> Journal {
        Journal {
            ledger: self.ledger.after(recording),
            history: self.history.push(recording),
        }
    }

    /// With one connection more.
    pub open spec fn connected(self) -> Journal {
        Journal { ledger: self.ledger.connected(), ..self }
    }

    /// With one connection less, but not less than none.
    pub open spec fn disconnected(self) -> Journal {
        Journal { ledger: self.ledger.disconnected(), ..self }
    }

    /// With one room more.
    pub open spec fn opened(self) -> Journal {
        Journal { ledger: self.ledger.opened(), ..self }
    }

    /// With `n` rooms less, but not less than none.
    pub open spec fn closed(self, n: nat) -> Journal {
        Journal { ledger: self.ledger.closed(n), ..self }
    }
}

/// The sum of all recorded traffic.
pub open spec fn recorded(recordings: Seq<Recording>) -> RoomStats
    decreases recordings.len(),
{
    if recordings.len() == 0 {
        RoomStats::none()
    } else {
        recorded(recordings.drop_last()).plus(recordings.last().traffic)
    }
}

/// The sum of the traffic recorded for one room.
pub open spec fn recorded_for(recordings: Seq<Recording>, room: Seq<char>) -> RoomStats
    decreases recordings.len(),
{
    if recordings.len() == 0 {
        RoomStats::none()
    } else if recordings.last().room == Some(room) {
        recorded_for(recordings.drop_last(), room).plus(recordings.last().traffic)
    } else {
        recorded_for(recordings.drop_last(), room)
    }
}

/// No recording is lost: the global counters are the sum of all recordings, with
/// or without a room, and the counters of a room are the sum of its own.
pub proof fn law_no_recording_is_lost(recordings: Seq<Recording>, room: Seq<char>)
    ensures
        Ledger::new().after_all(recordings).total == recorded(recordings),
        Ledger::new().after_all(recordings).traffic(room) == recorded_for(recordings, room),
    decreases recordings.len(),
{
    if recordings.len() > 0 {
        law_no_recording_is_lost(recordings.drop_last(), room);
    }
}

/// The sum of the traffic that was recorded for no room.
pub open spec fn recorded_for_none(recordings: Seq<Recording>) -> RoomStats
    decreases recordings.len(),
{
    if recordings.len() == 0 {
        RoomStats::none()
    } else if recordings.last().room is None {
        recorded_for_none(recordings.drop_last()).plus(recordings.last().traffic)
    } else {
        recorded_for_none(recordings.drop_last())
    }
}

/// The sum of the counters of listed rooms.
pub open spec fn listed_total(entries: Seq<(Seq<char>, RoomStats)>) -> RoomStats
    decreases entries.len(),
{
    if entries.len() == 0 {
        RoomStats::none()
    } else {
        listed_total(entries.drop_last()).plus(entries.last().1)
    }
}

proof fn lemma_total_without(entries: Seq<(Seq<char>, RoomStats)>, i: int)
    requires
        0 <= i < entries.len(),
    ensures
        listed_total(entries) == listed_total(entries.remove(i)).plus(entries[i].1),
    decreases entries.len(),
{
    let rest = entries.remove(i);
    if i == entries.len() - 1 {
        assert(rest == entries.drop_last());
    } else {
        lemma_total_without(entries.drop_last(), i);
        assert(rest.drop_last() == entries.drop_last().remove(i));
        assert(rest.last() == entries.last());
    }
}

/// A room is listed once it has recorded something, be it a count of zero, and only
/// then.
pub proof fn law_rooms_that_recorded_are_listed(recordings: Seq<Recording>, room: Seq<char>)
    ensures
        Ledger::new().after_all(recordings).per_room.contains_key(room) <==> exists|i: int|
            0 <= i < recordings.len() && (#[trigger] recordings[i]).room == Some(room),
    decreases recordings.len(),
{
    if recordings.len() > 0 {
        let earlier = recordings.drop_last();
        law_rooms_that_recorded_are_listed(earlier, room);
        if exists|i: int| 0 <= i < earlier.len() && (#[trigger] earlier[i]).room == Some(room) {
            let i = choose|i: int|
                0 <= i < earlier.len() && (#[trigger] earlier[i]).room == Some(room);
            assert(recordings[i].room == Some(room));
        }
        if exists|i: int|
            0 <= i < recordings.len() && (#[trigger] recordings[i]).room == Some(room) {
            let i = choose|i: int|
                0 <= i < recordings.len() && (#[trigger] recordings[i]).room == Some(room);
            if i < earlier.len() {
                assert(earlier[i].room == Some(room));
            }
        }
        assert(recordings[recordings.len() - 1] == recordings.last());
    }
}

proof fn lemma_take_out(entries: Seq<(Seq<char>, RoomStats)>, i: int)
    requires
        keys_differ(entries),
        0 <= i < entries.len(),
    ensures
        keys_differ(entries.remove(i)),
        !holds(entries.remove(i), entries[i].0),
        to_map(entries.remove(i)) == to_map(entries).remove(entries[i].0),
{
    let rest = entries.remove(i);
    assert forall|a: int, b: int| 0 <= a < b < rest.len() implies (#[trigger] rest[a]).0 != (
    #[trigger] rest[b]).0 by {
        let was_a = if a < i {
            a
        } else {
            a + 1
        };
        let was_b = if b < i {
            b
        } else {
            b + 1
        };
        assert(entries[was_a].0 != entries[was_b].0);
    }
    assert forall|a: int| 0 <= a < rest.len() implies (#[trigger] rest[a]).0 != entries[i].0 by {
        if a < i {
            assert(entries[a].0 != entries[i].0);
        } else {
            assert(entries[i].0 != entries[a + 1].0);
        }
    }
    lemma_insert(rest, i, entries[i].0, entries[i].1);
    assert(rest.insert(i, entries[i]) == entries);
    assert(!to_map(rest).contains_key(entries[i].0));
    assert(to_map(rest) == to_map(rest).insert(entries[i].0, entries[i].1).remove(entries[i].0));
}

proof fn lemma_plus_regroups(a: RoomStats, b: RoomStats, c: RoomStats, d: RoomStats)
    ensures
        a.plus(b).plus(d).plus(c) == a.plus(b.plus(c)).plus(d),
        a.plus(RoomStats::none()) == a,
{
}

/// However the rooms are listed, the global counters are the sum of the counters of
/// all rooms and of what was recorded for none.
pub proof fn law_rooms_add_up_to_the_whole(
    recordings: Seq<Recording>,
    entries: Seq<(Seq<char>, RoomStats)>,
)
    requires
        keys_differ(entries),
        to_map(entries) == Ledger::new().after_all(recordings).per_room,
    ensures
        Ledger::new().after_all(recordings).total == listed_total(entries).plus(
            recorded_for_none(recordings),
        ),
    decreases recordings.len(),
{
    if recordings.len() == 0 {
        if entries.len() > 0 {
            lemma_entry(entries, 0);
        }
    } else {
        let earlier = recordings.drop_last();
        let before = Ledger::new().after_all(earlier);
        match recordings.last().room {
            None => {
                law_rooms_add_up_to_the_whole(earlier, entries);
            },
            Some(room) => {
                assert(to_map(entries).contains_key(room));
                let i = place(entries, room);
                assert(0 <= i < entries.len() && entries[i].0 == room);
                lemma_entry(entries, i);
                lemma_total_without(entries, i);
                let rest = entries.remove(i);
                lemma_take_out(entries, i);
                let gone = before.per_room.remove(room);
                assert(to_map(entries).remove(room) == gone);
                let others = listed_total(rest);
                let aside = recorded_for_none(earlier);
                lemma_plus_regroups(
                    others,
                    before.traffic(room),
                    recordings.last().traffic,
                    aside,
                );
                if before.per_room.contains_key(room) {
                    let was = rest.insert(i, (room, before.per_room[room]));
                    lemma_insert(rest, i, room, before.per_room[room]);
                    assert(gone.insert(room, before.per_room[room]) == before.per_room);
                    law_rooms_add_up_to_the_whole(earlier, was);
                    lemma_total_without(was, i);
                    assert(was.remove(i) == rest);
                } else {
                    assert(gone == before.per_room);
                    law_rooms_add_up_to_the_whole(earlier, rest);
                }
            },
        }
    }
}

/// A snapshot lists exactly the rooms that recorded something, and its global
/// counters are the sum of theirs and of what was recorded for none.
pub proof fn law_snapshot_adds_up(stats: Stats, recordings: Seq<Recording>)
    requires
        ascending(stats.per_room@),
        stats.ledger().total == Ledger::new().after_all(recordings).total,
        stats.ledger().per_room == Ledger::new().after_all(recordings).per_room,
    ensures
        stats.ledger().total == listed_total(stats.per_room@).plus(
            recorded_for_none(recordings),
        ),
        forall|room: Seq<char>| #[trigger]
            holds(stats.per_room@, room) <==> exists|i: int|
                0 <= i < recordings.len() && (#[trigger] recordings[i]).room == Some(room),
{
    lemma_ascending_keys_differ(stats.per_room@);
    law_rooms_add_up_to_the_whole(recordings, stats.per_room@);
    assert forall|room: Seq<char>| #[trigger]
        holds(stats.per_room@, room) <==> exists|i: int|
            0 <= i < recordings.len() && (#[trigger] recordings[i]).room == Some(room) by {
        law_rooms_that_recorded_are_listed(recordings, room);
        assert(to_map(stats.per_room@).contains_key(room) == holds(stats.per_room@, room));
    }
}

/// Whether the traffic in a ledger is what these recordings add up to.
pub open spec fn told_by(ledger: Ledger, recordings: Seq<Recording>) -> bool {
    &&& ledger.total == Ledger::new().after_all(recordings).total
    &&& ledger.per_room == Ledger::new().after_all(recordings).per_room
}

proof fn lemma_told_on(ledger: Ledger, history: Seq<Recording>, recording: Recording)
    requires
        told_by(ledger, history),
    ensures
        told_by(ledger.after(recording), history.push(recording)),
{
    assert(history.push(recording).drop_last() == history);
}

/// What a recorder holds at any time: a tally in order.
pub struct InOrder;

impl RwLockPredicate<Tally> for InOrder {
    open spec fn inv(self, tally: Tally) -> bool {
        tally.wf()
    }
}

/// Whether `found` was taken out of `book`, to be put back by way of `handle`.
pub open spec fn taken(
    book: RwLock<Tally, InOrder>,
    found: Tally,
    handle: WriteHandle<Tally, InOrder>,
) -> bool {
    call_ensures(RwLock::<Tally, InOrder>::acquire_write, (&book,), (found, handle))
}

/// Whether `left` was put back by way of `handle`.
pub open spec fn put_back(handle: WriteHandle<Tally, InOrder>, left: Tally) -> bool {
    call_ensures(WriteHandle::<Tally, InOrder>::release_write, (handle, left), ())
}

/// Whether the counters in `book` were found at `before` and left at `after`, with
/// nobody else at them in between.
pub open spec fn revised(book: RwLock<Tally, InOrder>, before: Journal, after: Journal) -> bool {
    exists|found: Tally, left: Tally, handle: WriteHandle<Tally, InOrder>|
        {
            &&& #[trigger] taken(book, found, handle)
            &&& #[trigger] put_back(handle, left)
            &&& found.journal() == before
            &&& left.journal() == after
        }
}

/// Whether a recording was added to the counters in `book`.
pub open spec fn noted(book: RwLock<Tally, InOrder>, recording: Recording) -> bool {
    exists|before: Journal| #[trigger] revised(book, before, before.after(recording))
}

/// Whether a room was added to those counted in `book`.
pub open spec fn noted_opening(book: RwLock<Tally, InOrder>) -> bool {
    exists|before: Journal| #[trigger] revised(book, before, before.opened())
}

/// Whether `n` rooms were taken off those counted in `book`.
pub open spec fn noted_closing(book: RwLock<Tally, InOrder>, n: nat) -> bool {
    exists|before: Journal| #[trigger] revised(book, before, before.closed(n))
}

/// Whether the counters in `book` were read as `found`.
pub open spec fn read(book: RwLock<Tally, InOrder>, found: Journal) -> bool {
    exists|handle: ReadHandle<Tally, InOrder>| #[trigger]
        call_ensures(RwLock::<Tally, InOrder>::acquire_read, (&book,), handle)
            && handle.view().journal() == found
}

/// Whether `stats` show the counters in `book`: as they stood at some time, and so
/// what had been recorded there by then adds up to.
pub open spec fn shown(book: RwLock<Tally, InOrder>, stats: Stats) -> bool {
    exists|found: Journal| #[trigger]
        read(book, found) && stats.ledger() == found.ledger && told_by(
            stats.ledger(),
            found.history,
        )
}

/// Whether `book` was made with the counters at zero, and nothing recorded.
pub open spec fn begun(book: RwLock<Tally, InOrder>) -> bool {
    exists|tally: Tally, pred: Ghost<InOrder>| #[trigger]
        call_ensures(RwLock::<Tally, InOrder>::new, (tally, pred), book) && tally.journal()
            == Journal::new()
}

/// Global and per-room counters. Clones share them, and each recording is one step
/// that nobody else's comes into.
pub struct StatsRecorder {
    book: Arc<RwLock<Tally, InOrder>>,
}

impl Clone for StatsRecorder {
    /// Another handle to the same counters.
    fn clone(&self) -> (r: Self)
        ensures
            r == *self,
            r.book() == self.book(),
    {
        StatsRecorder { book: Arc::clone(&self.book) }
    }
}

impl Default for StatsRecorder {
    fn default() -> (r: Self)
        ensures
            begun(r.book()),
    {
        let tally = Tally::new();
        let book = RwLock::<Tally, InOrder>::new(tally, Ghost(InOrder));
        assert(begun(book));
        StatsRecorder { book: Arc::new(book) }
    }
}

impl StatsRecorder {
    /// The counters that all handles share.
    pub closed spec fn book(&self) -> RwLock<Tally, InOrder> {
        *self.book
    }

    /// Create a recorder with all counters at zero.
    pub fn new() -> (r: Self)
        ensures
            begun(r.book()),
    {
        Self::default()
    }

    /// Record a connection accepted. Returns the new count.
    pub fn inc_connections(&self) -> (r: u64)
        ensures
            exists|before: Journal| #[trigger]
                revised(self.book(), before, before.connected()) && r
                    == before.connected().ledger.connections,
    {
        let (mut tally, handle) = self.book.acquire_write();
        let ghost found = tally;
        let r: u64 = tally.inc_connections();
        let ghost left = tally;
        handle.release_write(tally);
        assert(taken(self.book(), found, handle) && put_back(handle, left));
        assert(revised(self.book(), found.journal(), found.journal().connected()));
        r
    }

    /// Record a connection closed (saturating at zero). Returns the new count.
    pub fn dec_connections(&self) -> (r: u64)
        ensures
            exists|before: Journal| #[trigger]
                revised(self.book(), before, before.disconnected()) && r
                    == before.disconnected().ledger.connections,
    {
        let (mut tally, handle) = self.book.acquire_write();
        let ghost found = tally;
        let r: u64 = tally.dec_connections();
        let ghost left = tally;
        handle.release_write(tally);
        assert(taken(self.book(), found, handle) && put_back(handle, left));
        assert(revised(self.book(), found.journal(), found.journal().disconnected()));
        r
    }

    /// Record a room coming into existence.
    pub fn room_opened(&self)
        ensures
            noted_opening(self.book()),
    {
        let (mut tally, handle) = self.book.acquire_write();
        let ghost found = tally;
        tally.room_opened();
        let ghost left = tally;
        handle.release_write(tally);
        assert(taken(self.book(), found, handle) && put_back(handle, left));
        assert(revised(self.book(), found.journal(), found.journal().opened()));
    }

    /// Record a room removed (saturating at zero).
    pub fn room_closed(&self)
        ensures
            noted_closing(self.book(), 1),
    {
        self.rooms_closed(1);
    }

    /// Record so many rooms removed (saturating at zero).
    pub fn rooms_closed(&self, n: usize)
        ensures
            noted_closing(self.book(), n as nat),
    {
        let (mut tally, handle) = self.book.acquire_write();
        let ghost found = tally;
        tally.rooms_closed(n);
        let ghost left = tally;
        handle.release_write(tally);
        assert(taken(self.book(), found, handle) && put_back(handle, left));
        assert(revised(self.book(), found.journal(), found.journal().closed(n as nat)));
    }

    fn note(&self, more: &RoomStats)
        ensures
            noted(self.book(), Recording { room: None, traffic: *more }),
    {
        let (mut tally, handle) = self.book.acquire_write();
        let ghost found = tally;
        tally.record(more);
        let ghost recording = Recording { room: None, traffic: *more };
        let ghost left = tally;
        handle.release_write(tally);
        assert(taken(self.book(), found, handle) && put_back(handle, left));
        assert(revised(self.book(), found.journal(), found.journal().after(recording)));
    }

    fn note_in_room(&self, room: &str, more: &RoomStats)
        ensures
            noted(self.book(), Recording { room: Some(room@), traffic: *more }),
    {
        let (mut tally, handle) = self.book.acquire_write();
        let ghost found = tally;
        tally.record_room(room, more);
        let ghost recording = Recording { room: Some(room@), traffic: *more };
        let ghost left = tally;
        handle.release_write(tally);
        assert(taken(self.book(), found, handle) && put_back(handle, left));
        assert(revised(self.book(), found.journal(), found.journal().after(recording)));
    }

    /// Record an inbound message of `bytes` payload bytes (global only).
    pub fn record_message_in(&self, bytes: u64)
        ensures
            noted(self.book(), Recording { room: None, traffic: RoomStats::message_in(bytes) }),
    {
        self.note(
            &RoomStats { messages_in: 1, messages_out: 0, bytes_in: bytes, bytes_out: 0, drops: 0 },
        );
    }

    /// Record `count` outbound messages totalling `bytes` payload bytes (global
    /// only).
    pub fn record_message_out(&self, count: u64, bytes: u64)
        ensures
            noted(
                self.book(),
                Recording { room: None, traffic: RoomStats::message_out(count, bytes) },
            ),
    {
        self.note(
            &RoomStats {
                messages_in: 0,
                messages_out: count,
                bytes_in: 0,
                bytes_out: bytes,
                drops: 0,
            },
        );
    }

    /// Record a drop: a broadcast that found no live receiver.
    pub fn record_drop(&self)
        ensures
            noted(self.book(), Recording { room: None, traffic: RoomStats::one_drop() }),
    {
        self.note(
            &RoomStats { messages_in: 0, messages_out: 0, bytes_in: 0, bytes_out: 0, drops: 1 },
        );
    }

    /// Record an inbound message attributed to `room` (also bumps globals).
    pub fn record_room_message_in(&self, room: &str, bytes: u64)
        ensures
            noted(
                self.book(),
                Recording { room: Some(room@), traffic: RoomStats::message_in(bytes) },
            ),
    {
        self.note_in_room(
            room,
            &RoomStats { messages_in: 1, messages_out: 0, bytes_in: bytes, bytes_out: 0, drops: 0 },
        );
    }

    /// Record a room broadcast reaching `count` receivers with `bytes` total
    /// payload bytes (also bumps globals).
    pub fn record_room_message_out(&self, room: &str, count: u64, bytes: u64)
        ensures
            noted(
                self.book(),
                Recording { room: Some(room@), traffic: RoomStats::message_out(count, bytes) },
            ),
    {
        self.note_in_room(
            room,
            &RoomStats {
                messages_in: 0,
                messages_out: count,
                bytes_in: 0,
                bytes_out: bytes,
                drops: 0,
            },
        );
    }

    /// Record a drop attributed to `room` (also bumps the global count).
    pub fn record_room_drop(&self, room: &str)
        ensures
            noted(
                self.book(),
                Recording { room: Some(room@), traffic: RoomStats::one_drop() },
            ),
    {
        self.note_in_room(
            room,
            &RoomStats { messages_in: 0, messages_out: 0, bytes_in: 0, bytes_out: 0, drops: 1 },
        );
    }

    /// Snapshot all counters. `Stats::per_room` holds every room that ever
    /// recorded traffic.
    pub fn snapshot(&self) -> (r: Stats)
        ensures
            shown(self.book(), r),
            ascending(r.per_room@),
    {
        let handle = self.book.acquire_read();
        let stats = handle.borrow().snapshot();
        let ghost found = handle.view();
        handle.release_read();
        proof {
            found.law_counters_tell_the_history();
            assert(read(self.book(), found.journal()));
        }
        stats
    }
}

proof fn lemma_one_listing(
    one: Seq<(Seq<char>, RoomStats)>,
    other: Seq<(Seq<char>, RoomStats)>,
)
    requires
        ascending(one),
        ascending(other),
        to_map(one) == to_map(other),
    ensures
        one == other,
    decreases one.len(),
{
    lemma_ascending_keys_differ(one);
    lemma_ascending_keys_differ(other);
    if one.len() == 0 {
        if other.len() > 0 {
            lemma_entry(other, 0);
            assert(to_map(one).contains_key(other[0].0));
        }
    } else {
        let m = one.len() - 1;
        let n = other.len() - 1;
        lemma_entry(one, m);
        assert(to_map(other).contains_key(one[m].0));
        let j = place(other, one[m].0);
        assert(0 <= j < other.len() && other[j].0 == one[m].0);
        lemma_entry(other, n);
        assert(to_map(one).contains_key(other[n].0));
        let i = place(one, other[n].0);
        assert(0 <= i < one.len() && one[i].0 == other[n].0);
        lemma_order_is_strict(one[m].0, other[n].0);
        assert(i < m ==> precedes(one[i].0, one[m].0));
        assert(j < n ==> precedes(other[j].0, other[n].0));
        assert(one[m].0 == other[n].0);
        lemma_take_out(one, m);
        lemma_take_out(other, n);
        assert(one.remove(m) == one.drop_last());
        assert(other.remove(n) == other.drop_last());
        lemma_one_listing(one.drop_last(), other.drop_last());
        assert(one == one.drop_last().push(one[m]));
        assert(other == other.drop_last().push(other[n]));
    }
}

/// Two snapshots of the same counters, be it by way of clones, are the same, down
/// to the order in which they list the rooms.
pub proof fn law_snapshots_agree(one: Stats, other: Stats)
    requires
        ascending(one.per_room@),
        ascending(other.per_room@),
        one.ledger() == other.ledger(),
    ensures
        one.per_room@ == other.per_room@,
        one.connections == other.connections,
        one.rooms == other.rooms,
        one.messages_in == other.messages_in,
        one.messages_out == other.messages_out,
        one.bytes_in == other.bytes_in,
        one.bytes_out == other.bytes_out,
        one.drops == other.drops,
{
    lemma_one_listing(one.per_room@, other.per_room@);
}

/// Whatever was recorded by way of whichever clone, in whatever order: a snapshot
/// lists exactly the rooms that something had been recorded for in the counters that
/// it shows, be it a count of zero, and its global counters are the sum of theirs and
/// of what had been recorded for no room.
pub proof fn law_every_snapshot_adds_up(book: RwLock<Tally, InOrder>, stats: Stats)
    requires
        ascending(stats.per_room@),
        shown(book, stats),
    ensures
        exists|found: Journal|
            {
                &&& #[trigger] read(book, found)
                &&& stats.ledger() == found.ledger
                &&& stats.ledger().total == listed_total(stats.per_room@).plus(
                    recorded_for_none(found.history),
                )
                &&& forall|room: Seq<char>| #[trigger]
                    holds(stats.per_room@, room) <==> exists|i: int|
                        0 <= i < found.history.len() && (#[trigger] found.history[i]).room == Some(
                            room,
                        )
            },
{
    let found = choose|found: Journal| #[trigger]
        read(book, found) && stats.ledger() == found.ledger && told_by(
            stats.ledger(),
            found.history,
        );
    law_snapshot_adds_up(stats, found.history);
}

/// A connection that closes undoes one that was accepted, and at zero a close
/// changes nothing. Neither touches any other counter.
pub proof fn law_connections_come_and_go(ledger: Ledger)
    ensures
        ledger.connections < u64::MAX ==> ledger.connected().disconnected() == ledger,
        ledger.connections == 0 ==> ledger.disconnected() == ledger,
        ledger.connected().total == ledger.total,
        ledger.connected().per_room == ledger.per_room,
        ledger.connected().rooms == ledger.rooms,
        ledger.disconnected().rooms == ledger.rooms,
{
}

proof fn lemma_plus_swaps(a: RoomStats, b: RoomStats, c: RoomStats)
    ensures
        a.plus(b).plus(c) == a.plus(c).plus(b),
{
}

/// Two recordings, for the same room or not, come to the same in either order.
pub proof fn law_recordings_commute(ledger: Ledger, first: Recording, second: Recording)
    ensures
        ledger.after(first).after(second) == ledger.after(second).after(first),
{
    let a = ledger.after(first).after(second);
    let b = ledger.after(second).after(first);
    lemma_plus_swaps(ledger.total, first.traffic, second.traffic);
    assert(a.total == b.total);
    if first.room is Some && first.room == second.room {
        lemma_plus_swaps(ledger.traffic(first.room->0), first.traffic, second.traffic);
    }
    assert(a.per_room =~= b.per_room);
}

/// Traffic of a room counts for the room and for the whole, and for no other
/// room.
pub proof fn law_rooms_are_isolated(
    ledger: Ledger,
    room: Seq<char>,
    other: Seq<char>,
    more: RoomStats,
)
    requires
        room != other,
    ensures
        ledger.record_room(room, more).total == ledger.total.plus(more),
        ledger.record_room(room, more).traffic(room) == ledger.traffic(room).plus(more),
        ledger.record_room(room, more).traffic(other) == ledger.traffic(other),
        ledger.record_room(room, more).per_room.contains_key(other)
            == ledger.per_room.contains_key(other),
{
}

/// Whether a counter went from `before` to `after` by `more`, around at its end.
pub open spec fn adds(before: u64, more: u64, after: u64) -> bool {
    after == before + more || after == before + more - 0x1_0000_0000_0000_0000
}

/// Whether each counter of some traffic went up by that of `more`.
pub open spec fn grew(before: RoomStats, more: RoomStats, after: RoomStats) -> bool {
    &&& adds(before.messages_in, more.messages_in, after.messages_in)
    &&& adds(before.messages_out, more.messages_out, after.messages_out)
    &&& adds(before.bytes_in, more.bytes_in, after.bytes_in)
    &&& adds(before.bytes_out, more.bytes_out, after.bytes_out)
    &&& adds(before.drops, more.drops, after.drops)
}

/// Whether the global counters of a snapshot went up by `more` to those of another.
pub open spec fn whole_grew(before: Stats, more: RoomStats, after: Stats) -> bool {
    &&& adds(before.messages_in, more.messages_in, after.messages_in)
    &&& adds(before.messages_out, more.messages_out, after.messages_out)
    &&& adds(before.bytes_in, more.bytes_in, after.bytes_in)
    &&& adds(before.bytes_out, more.bytes_out, after.bytes_out)
    &&& adds(before.drops, more.drops, after.drops)
}

/// Whether the global traffic of two snapshots is the same.
pub open spec fn same_traffic(before: Stats, after: Stats) -> bool {
    &&& after.messages_in == before.messages_in
    &&& after.messages_out == before.messages_out
    &&& after.bytes_in == before.bytes_in
    &&& after.bytes_out == before.bytes_out
    &&& after.drops == before.drops
}

/// What is recorded for a room shows in the next snapshot, in the global counters and
/// in those of the room, and in no others.
pub proof fn law_room_traffic_shows(
    tally: &mut Tally,
    room: &str,
    more: &RoomStats,
    before: Stats,
    after: Stats,
    was: Option<&RoomStats>,
    is: Option<&RoomStats>,
    other: &str,
    other_was: Option<&RoomStats>,
    other_is: Option<&RoomStats>,
)
    requires
        call_ensures(Tally::snapshot, (old(tally),), before),
        call_ensures(Tally::record_room, (tally, room, more), ()),
        call_ensures(Tally::snapshot, (final(tally),), after),
        call_ensures(PerRoom::get, (&before.per_room, room), was),
        call_ensures(PerRoom::get, (&after.per_room, room), is),
        call_ensures(PerRoom::get, (&before.per_room, other), other_was),
        call_ensures(PerRoom::get, (&after.per_room, other), other_is),
    ensures
        whole_grew(before, *more, after),
        is is Some,
        was is Some ==> grew(*was->0, *more, *is->0),
        was is None ==> is->0 == more,
        other@ != room@ ==> (other_was is Some <==> other_is is Some),
        other@ != room@ && other_was is Some ==> *other_is->0 == *other_was->0,
        after.connections == before.connections,
        after.rooms == before.rooms,
{
    let a = before.ledger();
    let b = after.ledger();
    assert(a == old(tally)@);
    assert(b == final(tally)@);
    assert(final(tally).journal().ledger == b);
    assert(b == a.record_room(room@, *more));
    assert(b.per_room.contains_key(room@));
}

/// What is recorded for no room shows in the global counters alone.
pub proof fn law_traffic_shows(
    tally: &mut Tally,
    more: &RoomStats,
    before: Stats,
    after: Stats,
)
    requires
        call_ensures(Tally::snapshot, (old(tally),), before),
        call_ensures(Tally::record, (tally, more), ()),
        call_ensures(Tally::snapshot, (final(tally),), after),
    ensures
        whole_grew(before, *more, after),
        after.per_room@ == before.per_room@,
        after.connections == before.connections,
        after.rooms == before.rooms,
{
    let a = before.ledger();
    let b = after.ledger();
    assert(final(tally).journal().ledger == b);
    assert(b == a.record(*more));
    lemma_one_listing(before.per_room@, after.per_room@);
}

/// Connections come and go one by one, never below none, and touch no other counter;
/// the new count is returned.
pub proof fn law_connections_show(
    tally: &mut Tally,
    other: &mut Tally,
    before: Stats,
    after: Stats,
    other_before: Stats,
    other_after: Stats,
    n: u64,
    m: u64,
)
    requires
        call_ensures(Tally::snapshot, (old(tally),), before),
        call_ensures(Tally::inc_connections, (tally,), n),
        call_ensures(Tally::snapshot, (final(tally),), after),
        call_ensures(Tally::snapshot, (old(other),), other_before),
        call_ensures(Tally::dec_connections, (other,), m),
        call_ensures(Tally::snapshot, (final(other),), other_after),
    ensures
        adds(before.connections, 1, after.connections) && n == after.connections,
        other_before.connections > 0 ==> other_after.connections == other_before.connections - 1,
        other_before.connections == 0 ==> other_after.connections == 0,
        m == other_after.connections,
        same_traffic(before, after) && same_traffic(other_before, other_after),
        after.per_room@ == before.per_room@,
        other_after.per_room@ == other_before.per_room@,
        after.rooms == before.rooms && other_after.rooms == other_before.rooms,
{
    assert(final(tally).journal().ledger == after.ledger());
    assert(final(other).journal().ledger == other_after.ledger());
    lemma_one_listing(before.per_room@, after.per_room@);
    lemma_one_listing(other_before.per_room@, other_after.per_room@);
}

/// Rooms are opened one by one and closed by any number, never below none, and touch
/// no other counter.
pub proof fn law_rooms_show(
    tally: &mut Tally,
    other: &mut Tally,
    before: Stats,
    after: Stats,
    other_before: Stats,
    other_after: Stats,
    n: usize,
)
    requires
        call_ensures(Tally::snapshot, (old(tally),), before),
        call_ensures(Tally::room_opened, (tally,), ()),
        call_ensures(Tally::snapshot, (final(tally),), after),
        call_ensures(Tally::snapshot, (old(other),), other_before),
        call_ensures(Tally::rooms_closed, (other, n), ()),
        call_ensures(Tally::snapshot, (final(other),), other_after),
    ensures
        adds(before.rooms, 1, after.rooms),
        other_before.rooms >= n ==> other_after.rooms == other_before.rooms - n,
        other_before.rooms < n ==> other_after.rooms == 0,
        same_traffic(before, after) && same_traffic(other_before, other_after),
        after.per_room@ == before.per_room@,
        other_after.per_room@ == other_before.per_room@,
        after.connections == before.connections,
        other_after.connections == other_before.connections,
{
    assert(final(tally).journal().ledger == after.ledger());
    assert(final(other).journal().ledger == other_after.ledger());
    lemma_one_listing(before.per_room@, after.per_room@);
    lemma_one_listing(other_before.per_room@, other_after.per_room@);
}

/// A new tally shows nothing, and nor do the default statistics.
pub proof fn law_new_tallies_show_nothing(
    tally: Tally,
    first: Stats,
    unset: Stats,
    room: &str,
    found: Option<&RoomStats>,
    counters: RoomStats,
)
    requires
        call_ensures(Tally::new, (), tally),
        call_ensures(Tally::snapshot, (&tally,), first),
        call_ensures(<Stats as Default>::default, (), unset),
        call_ensures(PerRoom::get, (&first.per_room, room), found),
        call_ensures(<RoomStats as Default>::default, (), counters),
    ensures
        found is None,
        first.connections == 0 && first.rooms == 0 && first.messages_in == 0
            && first.messages_out == 0 && first.bytes_in == 0 && first.bytes_out == 0
            && first.drops == 0 && first.per_room@.len() == 0,
        unset.connections == 0 && unset.rooms == 0 && unset.messages_in == 0
            && unset.messages_out == 0 && unset.bytes_in == 0 && unset.bytes_out == 0
            && unset.drops == 0 && unset.per_room@.len() == 0,
        counters.messages_in == 0 && counters.messages_out == 0 && counters.bytes_in == 0
            && counters.bytes_out == 0 && counters.drops == 0,
{
    assert(tally.journal().ledger == first.ledger());
    if first.per_room@.len() > 0 {
        lemma_ascending_keys_differ(first.per_room@);
        lemma_entry(first.per_room@, 0);
        assert(first.ledger().per_room.contains_key(first.per_room@[0].0));
    }
    if unset.per_room@.len() > 0 {
        assert(holds(unset.per_room@, unset.per_room@[0].0));
        assert(unset.ledger().per_room.contains_key(unset.per_room@[0].0));
    }
}

/// Whether `a` and `b` agree in their first `k` characters.
pub open spec fn agree_up_to(a: Seq<char>, b: Seq<char>, k: int) -> bool {
    0 <= k <= a.len() && k <= b.len() && a.take(k) == b.take(k)
}

proof fn lemma_where_texts_part(a: Seq<char>, b: Seq<char>) -> (k: int)
    requires
        precedes(a, b),
    ensures
        agree_up_to(a, b, k),
        k < b.len(),
        k == a.len() || a[k] < b[k],
    decreases a.len(),
{
    if a.len() == 0 || a[0] != b[0] {
        assert(a.take(0) == b.take(0));
        0
    } else {
        let k = lemma_where_texts_part(a.skip(1), b.skip(1));
        assert(a.take(k + 1) == seq![a[0]] + a.skip(1).take(k));
        assert(b.take(k + 1) == seq![b[0]] + b.skip(1).take(k));
        k + 1
    }
}

/// The rooms of a snapshot are listed by their ids in the order of texts: where two
/// ids part, the one that ends there or has the smaller character comes first.
pub proof fn law_rooms_are_listed_in_order(
    tally: Tally,
    stats: Stats,
    i: usize,
    j: usize,
    one: (&str, &RoomStats),
    other: (&str, &RoomStats),
)
    requires
        call_ensures(Tally::snapshot, (&tally,), stats),
        i < j < stats.per_room@.len(),
        call_ensures(PerRoom::entry, (&stats.per_room, i), one),
        call_ensures(PerRoom::entry, (&stats.per_room, j), other),
    ensures
        exists|k: int| #[trigger]
            agree_up_to(one.0@, other.0@, k) && k < other.0@.len() && (k == one.0@.len()
                || one.0@[k] < other.0@[k]),
{
    let entries = stats.per_room@;
    assert(precedes(entries[i as int].0, entries[j as int].0));
    let k = lemma_where_texts_part(one.0@, other.0@);
}

/// A room is found in a snapshot with the counters that are listed for it, and only
/// where it is listed.
pub proof fn law_rooms_are_found_as_listed(
    tally: Tally,
    stats: Stats,
    room: &str,
    found: Option<&RoomStats>,
    i: usize,
    entry: (&str, &RoomStats),
    n: usize,
    empty: bool,
)
    requires
        call_ensures(Tally::snapshot, (&tally,), stats),
        call_ensures(PerRoom::get, (&stats.per_room, room), found),
        call_ensures(PerRoom::len, (&stats.per_room,), n),
        call_ensures(PerRoom::is_empty, (&stats.per_room,), empty),
        i < n ==> call_ensures(PerRoom::entry, (&stats.per_room, i), entry),
    ensures
        n == stats.per_room@.len(),
        empty <==> n == 0,
        i < n ==> stats.per_room@[i as int] == (entry.0@, *entry.1),
        i < n && entry.0@ == room@ ==> found is Some && *found->0 == *entry.1,
        found is Some ==> exists|k: int|
            0 <= k < n && #[trigger] stats.per_room@[k] == (room@, *found->0),
{
    let entries = stats.per_room@;
    lemma_ascending_keys_differ(entries);
    if i < n {
        lemma_entry(entries, i as int);
    }
    if found is Some {
        let k = place(entries, room@);
        assert(holds(entries, room@));
        assert(0 <= k < entries.len() && entries[k].0 == room@);
        assert(entries[k] == (room@, *found->0));
    }
}

/// Whether the counters in `book` were taken out as `found` and `left` was put back in
/// their place.
pub open spec fn exchanged(
    book: RwLock<Tally, InOrder>,
    found: Tally,
    left: Tally,
    handle: WriteHandle<Tally, InOrder>,
) -> bool {
    &&& call_ensures(RwLock::<Tally, InOrder>::acquire_write, (&book,), (found, handle))
    &&& call_ensures(WriteHandle::<Tally, InOrder>::release_write, (handle, left), ())
}

/// Whether `after` is `before` with `more` for a room and for the whole.
pub open spec fn room_counted(
    before: Journal,
    after: Journal,
    room: Seq<char>,
    more: RoomStats,
) -> bool {
    let was = before.ledger.per_room;
    let is = after.ledger.per_room;
    &&& after.history == before.history.push(Recording { room: Some(room), traffic: more })
    &&& grew(before.ledger.total, more, after.ledger.total)
    &&& is.dom() == was.dom().insert(room)
    &&& was.contains_key(room) ==> grew(was[room], more, is[room])
    &&& !was.contains_key(room) ==> is[room] == more
    &&& is.remove(room) == was.remove(room)
    &&& after.ledger.connections == before.ledger.connections
    &&& after.ledger.rooms == before.ledger.rooms
}

/// Whether `after` is `before` with `more` for the whole alone.
pub open spec fn whole_counted(before: Journal, after: Journal, more: RoomStats) -> bool {
    &&& after.history == before.history.push(Recording { room: None, traffic: more })
    &&& grew(before.ledger.total, more, after.ledger.total)
    &&& after.ledger.per_room == before.ledger.per_room
    &&& after.ledger.connections == before.ledger.connections
    &&& after.ledger.rooms == before.ledger.rooms
}

proof fn lemma_exchanged(book: RwLock<Tally, InOrder>, before: Journal, after: Journal)
    requires
        revised(book, before, after),
    ensures
        exists|found: Tally, left: Tally, handle: WriteHandle<Tally, InOrder>| #[trigger]
            exchanged(book, found, left, handle) && found.journal() == before && left.journal()
                == after,
{
    let (found, left, handle) = choose|
        found: Tally,
        left: Tally,
        handle: WriteHandle<Tally, InOrder>,
    |
        {
            &&& #[trigger] taken(book, found, handle)
            &&& #[trigger] put_back(handle, left)
            &&& found.journal() == before
            &&& left.journal() == after
        };
    assert(exchanged(book, found, left, handle));
}

proof fn lemma_noted_in_room(book: RwLock<Tally, InOrder>, room: Seq<char>, more: RoomStats)
    requires
        noted(book, Recording { room: Some(room), traffic: more }),
    ensures
        exists|found: Tally, left: Tally, handle: WriteHandle<Tally, InOrder>| #[trigger]
            exchanged(book, found, left, handle) && room_counted(
                found.journal(),
                left.journal(),
                room,
                more,
            ),
{
    let recording = Recording { room: Some(room), traffic: more };
    let before = choose|before: Journal| #[trigger] revised(book, before, before.after(recording));
    let after = before.after(recording);
    lemma_exchanged(book, before, after);
    assert(after.ledger.per_room.remove(room) =~= before.ledger.per_room.remove(room));
    assert(after.ledger.per_room.dom() =~= before.ledger.per_room.dom().insert(room));
    assert(room_counted(before, after, room, more));
}

proof fn lemma_noted(book: RwLock<Tally, InOrder>, more: RoomStats)
    requires
        noted(book, Recording { room: None, traffic: more }),
    ensures
        exists|found: Tally, left: Tally, handle: WriteHandle<Tally, InOrder>| #[trigger]
            exchanged(book, found, left, handle) && whole_counted(
                found.journal(),
                left.journal(),
                more,
            ),
{
    let recording = Recording { room: None, traffic: more };
    let before = choose|before: Journal| #[trigger] revised(book, before, before.after(recording));
    let after = before.after(recording);
    lemma_exchanged(book, before, after);
    assert(whole_counted(before, after, more));
}

/// Traffic that is recorded for a room is added to the shared counters of that room
/// and of the whole, in one exchange, by just the numbers given.
pub proof fn law_room_recordings(
    recorder: StatsRecorder,
    room: &str,
    count: u64,
    bytes: u64,
)
    ensures
        call_ensures(StatsRecorder::record_room_message_in, (&recorder, room, bytes), ())
            ==> exists|found: Tally, left: Tally, handle: WriteHandle<Tally, InOrder>| #[trigger]
            exchanged(recorder.book(), found, left, handle) && room_counted(
                found.journal(),
                left.journal(),
                room@,
                RoomStats {
                    messages_in: 1,
                    messages_out: 0,
                    bytes_in: bytes,
                    bytes_out: 0,
                    drops: 0,
                },
            ),
        call_ensures(StatsRecorder::record_room_message_out, (&recorder, room, count, bytes), ())
            ==> exists|found: Tally, left: Tally, handle: WriteHandle<Tally, InOrder>| #[trigger]
            exchanged(recorder.book(), found, left, handle) && room_counted(
                found.journal(),
                left.journal(),
                room@,
                RoomStats {
                    messages_in: 0,
                    messages_out: count,
                    bytes_in: 0,
                    bytes_out: bytes,
                    drops: 0,
                },
            ),
        call_ensures(StatsRecorder::record_room_drop, (&recorder, room), ()) ==> exists|
            found: Tally,
            left: Tally,
            handle: WriteHandle<Tally, InOrder>,
        | #[trigger]
            exchanged(recorder.book(), found, left, handle) && room_counted(
                found.journal(),
                left.journal(),
                room@,
                RoomStats { messages_in: 0, messages_out: 0, bytes_in: 0, bytes_out: 0, drops: 1 },
            ),
{
    let a = RoomStats {
        messages_in: 1,
        messages_out: 0,
        bytes_in: bytes,
        bytes_out: 0,
        drops: 0,
    };
    let b = RoomStats {
        messages_in: 0,
        messages_out: count,
        bytes_in: 0,
        bytes_out: bytes,
        drops: 0,
    };
    let c = RoomStats { messages_in: 0, messages_out: 0, bytes_in: 0, bytes_out: 0, drops: 1 };
    if call_ensures(StatsRecorder::record_room_message_in, (&recorder, room, bytes), ()) {
        lemma_noted_in_room(recorder.book(), room@, a);
    }
    if call_ensures(StatsRecorder::record_room_message_out, (&recorder, room, count, bytes), ()) {
        lemma_noted_in_room(recorder.book(), room@, b);
    }
    if call_ensures(StatsRecorder::record_room_drop, (&recorder, room), ()) {
        lemma_noted_in_room(recorder.book(), room@, c);
    }
}

/// Traffic that is recorded for no room is added to the shared counters of the whole,
/// in one exchange, by just the numbers given.
pub proof fn law_recordings(recorder: StatsRecorder, count: u64, bytes: u64)
    ensures
        call_ensures(StatsRecorder::record_message_in, (&recorder, bytes), ()) ==> exists|
            found: Tally,
            left: Tally,
            handle: WriteHandle<Tally, InOrder>,
        | #[trigger]
            exchanged(recorder.book(), found, left, handle) && whole_counted(
                found.journal(),
                left.journal(),
                RoomStats {
                    messages_in: 1,
                    messages_out: 0,
                    bytes_in: bytes,
                    bytes_out: 0,
                    drops: 0,
                },
            ),
        call_ensures(StatsRecorder::record_message_out, (&recorder, count, bytes), ()) ==> exists|
            found: Tally,
            left: Tally,
            handle: WriteHandle<Tally, InOrder>,
        | #[trigger]
            exchanged(recorder.book(), found, left, handle) && whole_counted(
                found.journal(),
                left.journal(),
                RoomStats {
                    messages_in: 0,
                    messages_out: count,
                    bytes_in: 0,
                    bytes_out: bytes,
                    drops: 0,
                },
            ),
        call_ensures(StatsRecorder::record_drop, (&recorder,), ()) ==> exists|
            found: Tally,
            left: Tally,
            handle: WriteHandle<Tally, InOrder>,
        | #[trigger]
            exchanged(recorder.book(), found, left, handle) && whole_counted(
                found.journal(),
                left.journal(),
                RoomStats { messages_in: 0, messages_out: 0, bytes_in: 0, bytes_out: 0, drops: 1 },
            ),
{
    let a = RoomStats {
        messages_in: 1,
        messages_out: 0,
        bytes_in: bytes,
        bytes_out: 0,
        drops: 0,
    };
    let b = RoomStats {
        messages_in: 0,
        messages_out: count,
        bytes_in: 0,
        bytes_out: bytes,
        drops: 0,
    };
    let c = RoomStats { messages_in: 0, messages_out: 0, bytes_in: 0, bytes_out: 0, drops: 1 };
    if call_ensures(StatsRecorder::record_message_in, (&recorder, bytes), ()) {
        lemma_noted(recorder.book(), a);
    }
    if call_ensures(StatsRecorder::record_message_out, (&recorder, count, bytes), ()) {
        lemma_noted(recorder.book(), b);
    }
    if call_ensures(StatsRecorder::record_drop, (&recorder,), ()) {
        lemma_noted(recorder.book(), c);
    }
}

/// Whether `after` has the traffic of `before`.
pub open spec fn traffic_kept(before: Journal, after: Journal) -> bool {
    &&& after.history == before.history
    &&& after.ledger.total == before.ledger.total
    &&& after.ledger.per_room == before.ledger.per_room
}

/// A connection that comes or goes changes the shared count by one in one exchange,
/// never below none, and the count left there is returned.
pub proof fn law_connections_are_exchanged(
    recorder: StatsRecorder,
    n: u64,
    m: u64,
)
    requires
        call_ensures(StatsRecorder::inc_connections, (&recorder,), n),
        call_ensures(StatsRecorder::dec_connections, (&recorder,), m),
    ensures
        exists|found: Tally, left: Tally, handle: WriteHandle<Tally, InOrder>| #[trigger]
            exchanged(recorder.book(), found, left, handle) && traffic_kept(
                found.journal(),
                left.journal(),
            ) && left@.rooms == found@.rooms && adds(found@.connections, 1, left@.connections) && n
                == left@.connections,
        exists|found: Tally, left: Tally, handle: WriteHandle<Tally, InOrder>| #[trigger]
            exchanged(recorder.book(), found, left, handle) && traffic_kept(
                found.journal(),
                left.journal(),
            ) && left@.rooms == found@.rooms && left@.connections == (if found@.connections == 0 {
                0
            } else {
                found@.connections - 1
            }) && m == left@.connections,
{
    let a = choose|before: Journal| #[trigger]
        revised(recorder.book(), before, before.connected()) && n
            == before.connected().ledger.connections;
    lemma_exchanged(recorder.book(), a, a.connected());
    let b = choose|before: Journal| #[trigger]
        revised(recorder.book(), before, before.disconnected()) && m
            == before.disconnected().ledger.connections;
    lemma_exchanged(recorder.book(), b, b.disconnected());
}

/// A room that opens, and rooms that close, change the shared count in one exchange,
/// never below none.
pub proof fn law_rooms_are_exchanged(recorder: StatsRecorder, n: usize)
    requires
        call_ensures(StatsRecorder::room_opened, (&recorder,), ()),
        call_ensures(StatsRecorder::room_closed, (&recorder,), ()),
        call_ensures(StatsRecorder::rooms_closed, (&recorder, n), ()),
    ensures
        exists|found: Tally, left: Tally, handle: WriteHandle<Tally, InOrder>| #[trigger]
            exchanged(recorder.book(), found, left, handle) && traffic_kept(
                found.journal(),
                left.journal(),
            ) && left@.connections == found@.connections && adds(found@.rooms, 1, left@.rooms),
        exists|found: Tally, left: Tally, handle: WriteHandle<Tally, InOrder>| #[trigger]
            exchanged(recorder.book(), found, left, handle) && traffic_kept(
                found.journal(),
                left.journal(),
            ) && left@.connections == found@.connections && left@.rooms == (if found@.rooms == 0 {
                0
            } else {
                found@.rooms - 1
            }),
        exists|found: Tally, left: Tally, handle: WriteHandle<Tally, InOrder>| #[trigger]
            exchanged(recorder.book(), found, left, handle) && traffic_kept(
                found.journal(),
                left.journal(),
            ) && left@.connections == found@.connections && left@.rooms == (if found@.rooms < n {
                0
            } else {
                found@.rooms - n
            }),
{
    let a = choose|before: Journal| #[trigger] revised(recorder.book(), before, before.opened());
    lemma_exchanged(recorder.book(), a, a.opened());
    let b = choose|before: Journal| #[trigger] revised(recorder.book(), before, before.closed(1));
    lemma_exchanged(recorder.book(), b, b.closed(1));
    let c = choose|before: Journal| #[trigger]
        revised(recorder.book(), before, before.closed(n as nat));
    lemma_exchanged(recorder.book(), c, c.closed(n as nat));
}

/// A snapshot of shared counters shows them as they were read, each under its own
/// name, and a clone of a recorder reads the same counters.
pub proof fn law_snapshots_show_what_was_read(
    recorder: StatsRecorder,
    twin: StatsRecorder,
    stats: Stats,
    room: &str,
    found: Option<&RoomStats>,
)
    requires
        call_ensures(StatsRecorder::snapshot, (&recorder,), stats),
        call_ensures(PerRoom::get, (&stats.per_room, room), found),
        call_ensures(<StatsRecorder as Clone>::clone, (&recorder,), twin),
    ensures
        twin.book() == recorder.book(),
        exists|handle: ReadHandle<Tally, InOrder>|
            {
                let ledger = handle.view()@;
                &&& #[trigger] call_ensures(
                    RwLock::<Tally, InOrder>::acquire_read,
                    (&recorder.book(),),
                    handle,
                )
                &&& stats.connections == ledger.connections
                &&& stats.rooms == ledger.rooms
                &&& stats.messages_in == ledger.total.messages_in
                &&& stats.messages_out == ledger.total.messages_out
                &&& stats.bytes_in == ledger.total.bytes_in
                &&& stats.bytes_out == ledger.total.bytes_out
                &&& stats.drops == ledger.total.drops
                &&& found is Some <==> ledger.per_room.contains_key(room@)
                &&& found is Some ==> *found->0 == ledger.per_room[room@]
            },
{
    let book = recorder.book();
    let seen = choose|seen: Journal| #[trigger]
        read(book, seen) && stats.ledger() == seen.ledger && told_by(
            stats.ledger(),
            seen.history,
        );
    let handle = choose|handle: ReadHandle<Tally, InOrder>| #[trigger]
        call_ensures(RwLock::<Tally, InOrder>::acquire_read, (&book,), handle)
            && handle.view().journal() == seen;
    assert(handle.view()@ == stats.ledger());
}

/// A new recorder is made with nothing counted.
pub proof fn law_new_recorders(one: StatsRecorder, other: StatsRecorder)
    requires
        call_ensures(StatsRecorder::new, (), one),
        call_ensures(<StatsRecorder as Default>::default, (), other),
    ensures
        exists|tally: Tally, pred: Ghost<InOrder>| #[trigger]
            call_ensures(RwLock::<Tally, InOrder>::new, (tally, pred), one.book())
                && tally@.connections == 0 && tally@.rooms == 0 && tally@.total == (RoomStats {
                messages_in: 0,
                messages_out: 0,
                bytes_in: 0,
                bytes_out: 0,
                drops: 0,
            }) && tally@.per_room == Map::<Seq<char>, RoomStats>::empty()
                && tally.history().len() == 0,
        exists|tally: Tally, pred: Ghost<InOrder>| #[trigger]
            call_ensures(RwLock::<Tally, InOrder>::new, (tally, pred), other.book())
                && tally@.connections == 0 && tally@.rooms == 0 && tally@.total == (RoomStats {
                messages_in: 0,
                messages_out: 0,
                bytes_in: 0,
                bytes_out: 0,
                drops: 0,
            }) && tally@.per_room == Map::<Seq<char>, RoomStats>::empty()
                && tally.history().len() == 0,
{
    let (a, p) = choose|tally: Tally, pred: Ghost<InOrder>| #[trigger]
        call_ensures(RwLock::<Tally, InOrder>::new, (tally, pred), one.book()) && tally.journal()
            == Journal::new();
    assert(a.journal().ledger == Ledger::new());
    let (b, q) = choose|tally: Tally, pred: Ghost<InOrder>| #[trigger]
        call_ensures(RwLock::<Tally, InOrder>::new, (tally, pred), other.book()) && tally.journal()
            == Journal::new();
    assert(b.journal().ledger == Ledger::new());
}

/// Copies of statistics are the same, counter by counter and room by room.
pub proof fn law_copies_of_statistics(stats: Stats, copy: Stats, rooms: PerRoom)
    requires
        call_ensures(<Stats as Clone>::clone, (&stats,), copy),
        call_ensures(<PerRoom as Clone>::clone, (&stats.per_room,), rooms),
    ensures
        copy.connections == stats.connections,
        copy.rooms == stats.rooms,
        same_traffic(stats, copy),
        copy.per_room@ == stats.per_room@,
        rooms@ == stats.per_room@,
{
    assert(copy.ledger().total == stats.ledger().total);
    assert(copy.ledger().connections == stats.ledger().connections);
}

} // verus!
