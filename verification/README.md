# ws_kit

A toolkit for authenticated, typed WebSocket services: broadcast hubs, rooms,
token extraction, origin checks, payload compression, traffic counters, and room
fan-out over Redis. The library is verified with Verus: functions state what they
return and change, and the proofs are checked with the code. How many receivers a
channel has, and which count a shared counter holds at a moment, is up to other
tasks; there the contracts say which channel or cell was asked, and what is made of
the answer.

## Layout

| Place | What it holds |
|-------|---------------|
| `src/extractor.rs` | tokens from the `Authorization` header, the query and cookies |
| `src/origin.rs` | normalization of origins and the allow-list decision |
| `src/codec.rs`, `src/json.rs` | the `Frame` message model; values as JSON text, and JSON values |
| `src/compression.rs` | DEFLATE behind a one-byte envelope, with a size limit |
| `src/counter.rs`, `src/hub.rs` | the connection counter and the broadcast hub |
| `src/room.rs`, `src/registry.rs` | rooms; the room manager and the `RoomRegistry` trait |
| `src/stats.rs` | counters, global and per room |
| `src/redis_rooms.rs` | envelopes, channels, and what a node does with a message |
| `src/config.rs`, `src/error.rs` | settings and errors |
| `src/text.rs`, `src/directory.rs`, `src/roster.rs`, `src/channel.rs`, `src/headers.rs` | what the others are built on |
| `tests/` | tests of the compiled library |
| `app/` | rooms that tasks share, serde, the metrics facade, the Redis connection |

## How to read the contracts

Texts are `Seq<char>`, bytes are `Seq<u8>`. A frame is a `Payload`, a room a
`RoomState`, a collection of rooms a `Registry`, counters a `Ledger`. Functions
that start with `law_` state what several operations do together: that a
compressed frame comes back as it was is part of the contract of `compress_frame`,
and that a decoded value is the encoded one is a law of `src/codec.rs`;
that no two rooms share messages, that a second cleanup changes nothing, that a
snapshot's rooms add up to its global counters, that a node drops its own echoes are
laws of their modules.

The connection counter is one atomic cell. Each `increment` and `decrement` is one
step of that cell, and says so; the laws of `src/counter.rs` speak of steps taken in
turn, in whatever order: the limit holds, and the steps that got in returned one
count each, from one up.

A `StatsRecorder` is a handle to counters that its clones share, in a lock of `vstd`.
Each recording takes the counters out, adds to them as a `Tally` does, and puts them
back, and says so. In ghost code the history of recordings goes with the counters,
which are at all times what that history adds up to; so every snapshot adds up. A room counts in the recorder that it was made with, also
after it has left its manager.

Rooms and managers are changed by whoever holds them alone; `app/` shares them behind
a lock.

Calls into other crates stand behind small functions whose contracts are believed,
not proved; each says in its comment which function it calls and what is claimed
of it.

## Envelope of compressed frames

```text
+-------+---------------------------------+
| flags | payload                         |
+-------+---------------------------------+
  bit 0: the payload is DEFLATE-compressed (else identity)
  bit 1: the plain frame was text (else binary)
```

## Envelope of published frames

`version (1) | node id (16) | kind (1) | payload`, on the channel
`prefix + room id`. Redis pub/sub delivers at most once.
