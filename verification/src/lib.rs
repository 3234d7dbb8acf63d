//! # ws_kit
//!
//! Generic authenticated typed WebSocket toolkit.
//!
//! - [`config::WsConfig`]: heartbeat, broadcast capacity, connection limit and
//!   origin allow-list, with a builder.
//! - [`hub::BroadcastHub`]: a typed broadcast channel with connection counting.
//! - [`room::RoomManager`] and [`room::Room`]: isolated rooms with participant
//!   tracking, over the [`codec::Frame`] message model (text and binary).
//! - [`room::RoomRegistry`]: the room-collection trait.
//! - [`extractor::TokenExtractor`]: token extraction from the upgrade request.
//! - [`origin::origin_allowed_in_parts`]: origin validation for the handshake.
//! - [`stats::StatsRecorder`]: traffic counters, global and per room.
//! - [`compression::FrameCompressor`]: application-layer DEFLATE for frames.
//! - [`redis_rooms::RedisRoomRegistry`]: multi-node room fan-out.
//!
//! Contracts speak of texts as `Seq<char>`, of bytes as `Seq<u8>`, and of the
//! larger types by their views: [`codec::Payload`] for frames,
//! [`room::RoomState`] and [`registry::Registry`] for rooms, [`stats::Ledger`] for
//! counters. Functions whose names start with `law_` state what holds of several
//! operations together.
pub mod channel;
pub mod codec;
pub mod compression;
pub mod config;
pub mod counter;
pub mod directory;
pub mod error;
pub mod extractor;
pub mod headers;
pub mod hub;
pub mod json;
pub mod origin;
pub mod redis_rooms;
pub mod registry;
pub mod room;
pub mod roster;
pub mod stats;
pub mod text;

pub use codec::{Codec, Frame, JsonCodec};
pub use compression::{extension_accepted, CompressionConfig, FrameCompressor};
pub use config::{WsConfig, WsConfigBuilder};
pub use error::WsError;
pub use extractor::{TokenExtractor, TokenSourceKind, WsAuthError};
pub use hub::BroadcastHub;
pub use origin::{normalize_origin, origin_allowed, origin_allowed_in_parts};
pub use redis_rooms::RedisRoomRegistry;
pub use room::{Room, RoomManager, RoomRegistry};
pub use stats::{RoomStats, Stats, StatsRecorder};
