//! Application-layer payload compression.
//!
//! Payloads are compressed with raw DEFLATE and travel inside ordinary binary
//! frames behind a header of one byte:
//!
//! ```text
//! +-------+---------------------------------+
//! | flags | payload                         |
//! +-------+---------------------------------+
//!   bit 0: the payload is DEFLATE-compressed (else identity)
//!   bit 1: the plain frame was text (else binary)
//! ```
//!
//! Both endpoints have to run this library. It is no `permessage-deflate`
//! handshake extension; for endpoints that signal the capability in a header of
//! their own, [`extension_accepted`] finds the [`EXTENSION_NAME`] token in it.
//!
//! Decompression stops at [`CompressionConfig::max_size`], unknown flags and
//! corrupt streams are errors, and so is a text frame whose bytes are not UTF-8.
use crate::codec::{bytes_from_vec, bytes_of, bytes_slice, Frame, Payload};
use crate::error::WsError;
use crate::text::{
    all_in, all_lowered, all_to_lower, joined, law_split_undoes_join, law_trimming,
    law_trimming_parts, pieces, same, split, text_from_utf8, to_chars, trim, trimmed, views,
    CharSet,
};
use flate2::read::DeflateDecoder;
use flate2::write::DeflateEncoder;
use flate2::Compression;
use std::io::{Read, Write};
use vstd::prelude::*;
use vstd::slice::slice_subrange;
use vstd::utf8::{
    decode_utf8, decode_utf8_encode_utf8, encode_utf8, encode_utf8_decode_utf8,
    encode_utf8_valid_utf8, valid_utf8,
};

verus! {

/// Capability token for out-of-band negotiation in a custom handshake header.
pub const EXTENSION_NAME: &'static str = "x-ws-kit-deflate";

/// Envelope flag: the payload is raw DEFLATE; unset = identity.
pub const FLAG_COMPRESSED: u8 = 0x01;

/// Envelope flag: the plain frame was [`Frame::Text`].
pub const FLAG_TEXT: u8 = 0x02;

/// All defined flag bits; anything else fails closed.
pub const FLAG_KNOWN: u8 = 0x03;

/// The raw DEFLATE stream that the encoder makes of `data` at `level`.
pub uninterp spec fn deflated(level: u32, data: Seq<u8>) -> Seq<u8>;

/// What the decoder reads of a DEFLATE stream, up to `limit` bytes; nothing
/// where the stream is corrupt before that.
pub uninterp spec fn inflated(stream: Seq<u8>, limit: u64) -> Option<Seq<u8>>;

/// The first `limit` bytes of `data`, or all of it.
pub open spec fn prefix(data: Seq<u8>, limit: u64) -> Seq<u8> {
    if limit < data.len() {
        data.take(limit as int)
    } else {
        data
    }
}

/// `flate2::write::DeflateEncoder` compresses into a vector. The stream depends
/// on the level and the data alone, and reading it back gives the data. This
/// does not fail: a vector takes all that is written to it, and the encoder
/// reports an error only for a call behind the end of its stream. A level above
/// ten is none that the encoder takes.
#[verifier::external_body]
fn deflate(level: u32, data: &[u8]) -> (r: Option<Vec<u8>>)
    requires
        level <= 10,
    ensures
        r is Some,
        r matches Some(stream) ==> deflated(level, data@) == stream@ && forall|limit: u64|
            #[trigger] inflated(stream@, limit) == Some(prefix(data@, limit)),
{
    let mut encoder = DeflateEncoder::new(Vec::new(), Compression::new(level));
    encoder.write_all(data).ok()?;
    encoder.finish().ok()
}

/// `flate2::read::DeflateDecoder`, read through `std::io::Read::take`,
/// decompresses at most `limit` bytes of a stream.
#[verifier::external_body]
fn inflate(stream: &[u8], limit: u64) -> (r: Option<Vec<u8>>)
    ensures
        match r {
            Some(data) => inflated(stream@, limit) == Some(data@) && data@.len() <= limit,
            None => inflated(stream@, limit) is None,
        },
{
    let mut out = Vec::new();
    DeflateDecoder::new(stream).take(limit).read_to_end(&mut out).ok()?;
    Some(out)
}

/// Compression settings.
#[derive(Debug, PartialEq, Eq, Structural)]
pub struct CompressionConfig {
    /// DEFLATE level, 0 (store) – 9 (best). Default 6.
    pub level: u8,
    /// Payloads shorter than this are sent as identity inside the envelope.
    /// Default 64.
    pub min_size: usize,
    /// Decompressed (or identity) payloads larger than this are rejected with
    /// [`WsError::PayloadTooLarge`]. Default 1 MiB.
    pub max_size: usize,
}

impl Clone for CompressionConfig {
    fn clone(&self) -> (r: Self)
        ensures
            r == *self,
    {
        CompressionConfig { level: self.level, min_size: self.min_size, max_size: self.max_size }
    }
}

impl Default for CompressionConfig {
    fn default() -> (r: Self)
        ensures
            r.level == 6,
            r.min_size == 64,
            r.max_size == 1024 * 1024,
    {
        CompressionConfig { level: 6, min_size: 64, max_size: 1048576 }
    }
}

impl CompressionConfig {
    /// Default settings.
    pub fn new() -> (r: Self)
        ensures
            r.level == 6,
            r.min_size == 64,
            r.max_size == 1024 * 1024,
    {
        Self::default()
    }

    /// The most bytes that decompression reads: one more than it accepts.
    pub open spec fn read_limit(self) -> u64 {
        if self.max_size < u64::MAX {
            (self.max_size + 1) as u64
        } else {
            u64::MAX
        }
    }
}

/// The envelope of `data`, given the stream that the encoder made of it: the
/// stream where it is shorter, else the data itself.
pub open spec fn enclosed(data: Seq<u8>, stream: Option<Seq<u8>>) -> Result<Seq<u8>, WsError> {
    match stream {
        Some(stream) => if stream.len() < data.len() {
            Ok(seq![FLAG_COMPRESSED] + stream)
        } else {
            Ok(seq![0u8] + data)
        },
        None => Err(WsError::Compression),
    }
}

/// The envelope of `data`.
pub open spec fn packed(config: CompressionConfig, data: Seq<u8>) -> Result<Seq<u8>, WsError> {
    if data.len() < config.min_size {
        Ok(seq![0u8] + data)
    } else {
        enclosed(data, Some(deflated(config.level as u32, data)))
    }
}

/// A payload, or nothing where the stream was corrupt, against the size limit.
pub open spec fn accepted(config: CompressionConfig, payload: Option<Seq<u8>>) -> Result<
    Seq<u8>,
    WsError,
> {
    match payload {
        Some(data) => if data.len() <= config.max_size {
            Ok(data)
        } else {
            Err(WsError::PayloadTooLarge)
        },
        None => Err(WsError::Compression),
    }
}

/// The payload of an envelope.
pub open spec fn unpacked(config: CompressionConfig, envelope: Seq<u8>) -> Result<
    Seq<u8>,
    WsError,
> {
    if envelope.len() == 0 || envelope[0] & !FLAG_KNOWN != 0 {
        Err(WsError::Compression)
    } else if envelope[0] & FLAG_COMPRESSED == 0 {
        accepted(config, Some(envelope.skip(1)))
    } else {
        accepted(config, inflated(envelope.skip(1), config.read_limit()))
    }
}

/// The wire form of a frame: the envelope of its bytes, with its kind in the
/// flags.
pub open spec fn packed_frame(config: CompressionConfig, frame: Payload) -> Result<
    Payload,
    WsError,
> {
    match packed(config, frame.bytes()) {
        Ok(envelope) => Ok(
            Payload::Binary(
                if frame is Text {
                    envelope.update(0, envelope[0] | FLAG_TEXT)
                } else {
                    envelope
                },
            ),
        ),
        Err(e) => Err(e),
    }
}

/// A payload as the frame of the kind that the flags give.
pub open spec fn restored(flags: u8, payload: Seq<u8>) -> Result<Payload, WsError> {
    if flags & FLAG_TEXT == 0 {
        Ok(Payload::Binary(payload))
    } else if valid_utf8(payload) {
        Ok(Payload::Text(decode_utf8(payload)))
    } else {
        Err(WsError::Compression)
    }
}

/// The frame of a wire form.
pub open spec fn unpacked_frame(config: CompressionConfig, wire: Payload) -> Result<
    Payload,
    WsError,
> {
    match unpacked(config, wire.bytes()) {
        Ok(payload) => restored(wire.bytes()[0], payload),
        Err(e) => Err(e),
    }
}

/// The bytes of a result.
pub open spec fn bytes_result(r: Result<Vec<u8>, WsError>) -> Result<Seq<u8>, WsError> {
    match r {
        Ok(v) => Ok(v@),
        Err(e) => Err(e),
    }
}

/// The frame of a result.
pub open spec fn frame_result(r: Result<Frame, WsError>) -> Result<Payload, WsError> {
    match r {
        Ok(f) => Ok(f@),
        Err(e) => Err(e),
    }
}

/// The bytes of an optional vector.
pub open spec fn opt_bytes(o: Option<Vec<u8>>) -> Option<Seq<u8>> {
    match o {
        Some(v) => Some(v@),
        None => None,
    }
}

/// Encodes/decodes [`Frame`]s into compressed wire form.
#[derive(Debug)]
pub struct FrameCompressor {
    config: CompressionConfig,
}

impl Clone for FrameCompressor {
    fn clone(&self) -> (r: Self)
        ensures
            r@ == self@,
    {
        FrameCompressor { config: self.config.clone() }
    }
}

impl View for FrameCompressor {
    type V = CompressionConfig;

    closed spec fn view(&self) -> CompressionConfig {
        self.config
    }
}

fn with_flags(flags: u8, body: &[u8]) -> (r: Vec<u8>)
    ensures
        r@ == seq![flags] + body@,
{
    let mut out: Vec<u8> = Vec::new();
    out.push(flags);
    out.extend_from_slice(body);
    out
}

/// The envelope of `data`, given the stream that the encoder made of it.
pub fn enclose(data: &[u8], stream: Option<Vec<u8>>) -> (r: Result<Vec<u8>, WsError>)
    ensures
        bytes_result(r) == enclosed(data@, opt_bytes(stream)),
{
    match stream {
        Some(stream) => if stream.len() < data.len() {
            Ok(with_flags(FLAG_COMPRESSED, &stream))
        } else {
            Ok(with_flags(0, data))
        },
        None => Err(WsError::Compression),
    }
}

/// A payload as the frame of the kind that the flags give.
pub fn restore(flags: u8, payload: Vec<u8>) -> (r: Result<Frame, WsError>)
    ensures
        frame_result(r) == restored(flags, payload@),
{
    if flags & FLAG_TEXT == 0 {
        Ok(Frame::Binary(bytes_from_vec(payload)))
    } else {
        match text_from_utf8(payload) {
            Some(text) => Ok(Frame::Text(text)),
            None => Err(WsError::Compression),
        }
    }
}

impl FrameCompressor {
    /// A compressor with the given settings.
    pub fn new(config: CompressionConfig) -> (r: Self)
        ensures
            r@ == config,
    {
        FrameCompressor { config }
    }

    /// A compressor with [`CompressionConfig::default`] settings.
    pub fn with_defaults() -> (r: Self)
        ensures
            r@.level == 6,
            r@.min_size == 64,
            r@.max_size == 1024 * 1024,
    {
        Self::new(CompressionConfig::default())
    }

    /// Active settings.
    pub fn config(&self) -> (r: &CompressionConfig)
        ensures
            *r == self@,
    {
        &self.config
    }

    /// Compress a payload into the envelope form.
    ///
    /// Payloads below [`CompressionConfig::min_size`], and payloads that deflate
    /// cannot shrink, are stored as identity.
    pub fn compress(&self, data: &[u8]) -> (r: Result<Vec<u8>, WsError>)
        requires
            self@.level <= 10,
        ensures
            bytes_result(r) == packed(self@, data@),
            r is Ok,
            r matches Ok(envelope) ==> envelope@ == if data@.len() >= self@.min_size && deflated(
                self@.level as u32,
                data@,
            ).len() < data@.len() {
                seq![1u8] + deflated(self@.level as u32, data@)
            } else {
                seq![0u8] + data@
            },
            r matches Ok(envelope) ==> envelope@.len() <= data@.len() + 1 && forall|
                config: CompressionConfig,
            | #[trigger]
                unpacked(config, envelope@) == accepted(config, Some(data@)),
    {
        let n: usize = data.len();
        proof {
            lemma_flags();
        }
        if n < self.config.min_size {
            let envelope = with_flags(0, data);
            assert(envelope@.skip(1) == data@);
            return Ok(envelope);
        }
        let stream = deflate(self.config.level as u32, data);
        let ghost made = opt_bytes(stream);
        let r = enclose(data, stream);
        proof {
            if let Ok(envelope) = bytes_result(r) {
                if made->0.len() < data@.len() {
                    assert(envelope.skip(1) == made->0);
                } else {
                    assert(envelope.skip(1) == data@);
                }
            }
        }
        r
    }

    /// A payload, or nothing where the stream was corrupt, against the size
    /// limit.
    pub fn accept(&self, payload: Option<Vec<u8>>) -> (r: Result<Vec<u8>, WsError>)
        ensures
            bytes_result(r) == accepted(self@, opt_bytes(payload)),
    {
        match payload {
            Some(data) => if data.len() <= self.config.max_size {
                Ok(data)
            } else {
                Err(WsError::PayloadTooLarge)
            },
            None => Err(WsError::Compression),
        }
    }

    /// Decode an envelope produced by [`FrameCompressor::compress`], returning
    /// the plain payload bytes.
    pub fn decompress(&self, enveloped: &[u8]) -> (r: Result<Vec<u8>, WsError>)
        ensures
            bytes_result(r) == unpacked(self@, enveloped@),
    {
        let n: usize = enveloped.len();
        if n == 0 || enveloped[0] & !FLAG_KNOWN != 0 {
            return Err(WsError::Compression);
        }
        let body = slice_subrange(enveloped, 1, n);
        assert(body@ == enveloped@.skip(1));
        if enveloped[0] & FLAG_COMPRESSED == 0 {
            if body.len() > self.config.max_size {
                return Err(WsError::PayloadTooLarge);
            }
            return Ok(vstd::slice::slice_to_vec(body));
        }
        let limit: u64 = (self.config.max_size as u64).saturating_add(1);
        self.accept(inflate(body, limit))
    }

    /// Compress a [`Frame`] into a wire-ready [`Frame::Binary`] envelope.
    pub fn compress_frame(&self, frame: Frame) -> (r: Result<Frame, WsError>)
        requires
            self@.level <= 10,
        ensures
            frame_result(r) == packed_frame(self@, frame@),
            r is Ok,
            r matches Ok(wire) ==> wire@ is Binary && wire@.bytes().len() <= frame@.bytes().len()
                + 1 && forall|config: CompressionConfig| #[trigger]
                unpacked_frame(config, wire@) == if frame@.bytes().len() <= config.max_size {
                    Ok(frame@)
                } else {
                    Err(WsError::PayloadTooLarge)
                },
    {
        proof {
            lemma_flags();
            if let Payload::Text(text) = frame@ {
                encode_utf8_valid_utf8(text);
                encode_utf8_decode_utf8(text);
            }
        }
        match self.compress(frame.as_bytes()) {
            Ok(plain) => {
                let mut envelope = plain;
                let ghost before = envelope@;
                if frame.is_text() {
                    let flags: u8 = envelope[0] | FLAG_TEXT;
                    envelope.set(0, flags);
                }
                assert forall|config: CompressionConfig| #[trigger]
                    unpacked(config, envelope@) == accepted(config, Some(frame@.bytes())) by {
                    assert(unpacked(config, before) == accepted(config, Some(frame@.bytes())));
                    assert(envelope@.skip(1) == before.skip(1));
                }
                Ok(Frame::Binary(bytes_from_vec(envelope)))
            },
            Err(e) => Err(e),
        }
    }

    /// Restore a [`Frame`] from a [`FrameCompressor::compress_frame`] envelope.
    ///
    /// Text frames come back as [`Frame::Text`], binary ones as
    /// [`Frame::Binary`].
    pub fn decompress_frame(&self, frame: Frame) -> (r: Result<Frame, WsError>)
        ensures
            frame_result(r) == unpacked_frame(self@, frame@),
    {
        let bytes = frame.into_bytes();
        let wire = bytes_slice(&bytes);
        match self.decompress(wire) {
            Ok(payload) => restore(wire[0], payload),
            Err(e) => Err(e),
        }
    }
}

/// Whether one of the comma-separated tokens of a header value is the capability
/// token, in any case of letters.
pub open spec fn offers_extension(value: Seq<char>) -> bool {
    exists|i: int|
        0 <= i < pieces(value, ',').len() && all_lowered(
            trimmed(#[trigger] pieces(value, ',')[i], CharSet::WhiteSpace),
        ) == all_lowered(EXTENSION_NAME@)
}

/// True when a handshake header value offers [`EXTENSION_NAME`].
///
/// Matching is case-insensitive, token-exact, comma-separated. Absent header →
/// `false`.
pub fn extension_accepted(header: Option<&str>) -> (r: bool)
    ensures
        r == match header {
            Some(value) => offers_extension(value@),
            None => false,
        },
{
    match header {
        Some(value) => {
            let chars = to_chars(value);
            let tokens = split(&chars, ',');
            let name = all_to_lower(&to_chars(EXTENSION_NAME));
            let n: usize = tokens.len();
            for i in 0..n
                invariant
                    header == Some(value),
                    n == tokens@.len(),
                    views(tokens@) == pieces(value@, ','),
                    name@ == all_lowered(EXTENSION_NAME@),
                    forall|j: int|
                        0 <= j < i ==> all_lowered(
                            trimmed(#[trigger] pieces(value@, ',')[j], CharSet::WhiteSpace),
                        ) != name@,
            {
                assert(pieces(value@, ',')[i as int] == tokens@[i as int]@);
                if same(&all_to_lower(trim(tokens[i], CharSet::WhiteSpace)), &name) {
                    return true;
                }
            }
            false
        },
        None => false,
    }
}

/// The value a client/server puts in its capability header to offer compression.
pub fn offer_extension() -> (r: &'static str)
    ensures
        r@ == EXTENSION_NAME@,
{
    EXTENSION_NAME
}

proof fn lemma_flags()
    ensures
        0u8 & !FLAG_KNOWN == 0,
        FLAG_COMPRESSED & !FLAG_KNOWN == 0,
        0u8 & FLAG_COMPRESSED == 0,
        FLAG_COMPRESSED & FLAG_COMPRESSED != 0,
        0u8 & FLAG_TEXT == 0,
        FLAG_COMPRESSED & FLAG_TEXT == 0,
        forall|flags: u8|
            #![trigger flags | FLAG_TEXT]
            {
                &&& (flags | FLAG_TEXT) & !FLAG_KNOWN == flags & !FLAG_KNOWN
                &&& (flags | FLAG_TEXT) & FLAG_COMPRESSED == flags & FLAG_COMPRESSED
                &&& (flags | FLAG_TEXT) & FLAG_TEXT != 0
            },
{
    assert(0u8 & !3u8 == 0 && 1u8 & !3u8 == 0 && 0u8 & 1u8 == 0 && 1u8 & 1u8 != 0 && 0u8 & 2u8 == 0
        && 1u8 & 2u8 == 0) by (bit_vector);
    assert forall|flags: u8| #![trigger flags | FLAG_TEXT] {
        &&& (flags | FLAG_TEXT) & !FLAG_KNOWN == flags & !FLAG_KNOWN
        &&& (flags | FLAG_TEXT) & FLAG_COMPRESSED == flags & FLAG_COMPRESSED
        &&& (flags | FLAG_TEXT) & FLAG_TEXT != 0
    } by {
        assert((flags | 2u8) & !3u8 == flags & !3u8) by (bit_vector);
        assert((flags | 2u8) & 1u8 == flags & 1u8) by (bit_vector);
        assert((flags | 2u8) & 2u8 != 0) by (bit_vector);
    }
}

/// No payload larger than the limit comes out of decompression.
pub proof fn law_decompression_is_capped(config: CompressionConfig, envelope: Seq<u8>)
    ensures
        unpacked(config, envelope) matches Ok(payload) ==> payload.len() <= config.max_size,
{
}

/// An envelope with a flag bit other than the two defined ones is refused, and
/// so is an empty one.
pub proof fn law_unknown_flags_fail_closed(config: CompressionConfig, envelope: Seq<u8>)
    requires
        envelope.len() == 0 || envelope[0] >= 4,
    ensures
        unpacked(config, envelope) == Err::<Seq<u8>, WsError>(WsError::Compression),
        unpacked_frame(config, Payload::Binary(envelope)) == Err::<Payload, WsError>(
            WsError::Compression,
        ),
{
    if envelope.len() > 0 {
        let flags = envelope[0];
        assert(flags >= 4 ==> flags & !3u8 != 0) by (bit_vector);
    }
}

/// A wire form that claims to be text comes back as text or not at all.
pub proof fn law_text_is_never_coerced(config: CompressionConfig, wire: Payload)
    requires
        wire.bytes().len() > 0,
        wire.bytes()[0] & FLAG_TEXT != 0,
    ensures
        unpacked_frame(config, wire) matches Ok(frame) ==> frame is Text && unpacked(
            config,
            wire.bytes(),
        ) == Ok::<Seq<u8>, WsError>(frame.bytes()),
{
    if let Ok(payload) = unpacked(config, wire.bytes()) {
        if valid_utf8(payload) {
            decode_utf8_encode_utf8(payload);
        }
    }
}

/// Every payload that is not too short for it and gets shorter by it is compressed,
/// and every other one goes as it is. The first byte tells which.
pub proof fn law_what_shrinks_is_compressed(
    c: FrameCompressor,
    data: &[u8],
    r: Result<Vec<u8>, WsError>,
)
    requires
        call_ensures(FrameCompressor::compress, (&c, data), r),
    ensures
        r is Ok,
        ({
            let stream = deflated(c@.level as u32, data@);
            r->Ok_0@ == if data@.len() >= c@.min_size && stream.len() < data@.len() {
                seq![1u8] + stream
            } else {
                seq![0u8] + data@
            }
        }),
{
}

/// What an envelope gives, by its first byte: the bytes behind it as they are or
/// read as a DEFLATE stream, if they are no more than the limit. Every other first
/// byte is refused.
pub proof fn law_envelopes_are_read(
    c: FrameCompressor,
    envelope: &[u8],
    r: Result<Vec<u8>, WsError>,
    limit: u64,
)
    requires
        call_ensures(FrameCompressor::decompress, (&c, envelope), r),
        limit == u64::MAX || limit == c@.max_size + 1,
        limit == u64::MAX ==> c@.max_size + 1 >= u64::MAX,
    ensures
        envelope@.len() == 0 || envelope@[0] >= 4 ==> r == Err::<Vec<u8>, WsError>(
            WsError::Compression,
        ),
        envelope@.len() > 0 && (envelope@[0] == 0 || envelope@[0] == 2) ==> {
            let body = envelope@.skip(1);
            if body.len() <= c@.max_size {
                r is Ok && r->Ok_0@ == body
            } else {
                r == Err::<Vec<u8>, WsError>(WsError::PayloadTooLarge)
            }
        },
        envelope@.len() > 0 && (envelope@[0] == 1 || envelope@[0] == 3) ==> match inflated(
            envelope@.skip(1),
            limit,
        ) {
            Some(data) => if data.len() <= c@.max_size {
                r is Ok && r->Ok_0@ == data
            } else {
                r == Err::<Vec<u8>, WsError>(WsError::PayloadTooLarge)
            },
            None => r == Err::<Vec<u8>, WsError>(WsError::Compression),
        },
{
    if envelope@.len() > 0 {
        let flags = envelope@[0];
        assert(flags >= 4 ==> flags & !3u8 != 0) by (bit_vector);
        assert(flags < 4 ==> flags & !3u8 == 0) by (bit_vector);
        assert(flags == 0 || flags == 2 ==> flags & 1u8 == 0) by (bit_vector);
        assert(flags == 1 || flags == 3 ==> flags & 1u8 != 0) by (bit_vector);
    }
}

/// A frame is compressed as its bytes are, and the first byte tells its kind too.
pub proof fn law_frames_are_compressed(
    c: FrameCompressor,
    frame: Frame,
    r: Result<Frame, WsError>,
    data: Seq<u8>,
)
    requires
        call_ensures(FrameCompressor::compress_frame, (&c, frame), r),
        frame matches Frame::Text(s) ==> data == encode_utf8(s@),
        frame matches Frame::Binary(b) ==> data == bytes_of(b),
    ensures
        r is Ok,
        r->Ok_0 is Binary,
        ({
            let stream = deflated(c@.level as u32, data);
            let mark: u8 = if frame is Text {
                2
            } else {
                0
            };
            bytes_of(r->Ok_0->Binary_0) == if data.len() >= c@.min_size && stream.len()
                < data.len() {
                seq![(mark + 1) as u8] + stream
            } else {
                seq![mark] + data
            }
        }),
{
    let stream = deflated(c@.level as u32, data);
    assert(0u8 | 2u8 == 2u8 && 1u8 | 2u8 == 3u8) by (bit_vector);
    assert((seq![1u8] + stream).update(0, 3u8) == seq![3u8] + stream);
    assert((seq![0u8] + data).update(0, 2u8) == seq![2u8] + data);
}

/// What comes out of an envelope is a frame of the kind that its first byte tells;
/// text has to be UTF-8.
pub proof fn law_frames_are_restored(
    c: FrameCompressor,
    wire: Frame,
    envelope: &[u8],
    plain: Result<Vec<u8>, WsError>,
    r: Result<Frame, WsError>,
)
    requires
        call_ensures(FrameCompressor::decompress, (&c, envelope), plain),
        call_ensures(FrameCompressor::decompress_frame, (&c, wire), r),
        wire matches Frame::Text(s) ==> envelope@ == encode_utf8(s@),
        wire matches Frame::Binary(b) ==> envelope@ == bytes_of(b),
    ensures
        plain matches Err(e) ==> r == Err::<Frame, WsError>(e),
        plain is Ok && (envelope@[0] == 0 || envelope@[0] == 1) ==> r is Ok && r->Ok_0 is Binary
            && bytes_of(r->Ok_0->Binary_0) == plain->Ok_0@,
        plain is Ok && (envelope@[0] == 2 || envelope@[0] == 3) ==> if valid_utf8(
            plain->Ok_0@,
        ) {
            r is Ok && r->Ok_0 is Text && r->Ok_0->Text_0@ == decode_utf8(plain->Ok_0@)
        } else {
            r == Err::<Frame, WsError>(WsError::Compression)
        },
{
    if envelope@.len() > 0 {
        let flags = envelope@[0];
        assert(flags == 0 || flags == 1 ==> flags & 2u8 == 0) by (bit_vector);
        assert(flags == 2 || flags == 3 ==> flags & 2u8 != 0) by (bit_vector);
    }
}

/// A frame that was compressed comes back as it was, whatever the settings of
/// either side, unless it is more than the receiver accepts.
pub proof fn law_frame_round_trip(
    sender: FrameCompressor,
    receiver: FrameCompressor,
    frame: Frame,
    wire: Result<Frame, WsError>,
    r: Result<Frame, WsError>,
)
    requires
        call_ensures(FrameCompressor::compress_frame, (&sender, frame), wire),
        wire is Ok,
        call_ensures(FrameCompressor::decompress_frame, (&receiver, wire->Ok_0), r),
    ensures
        frame@.bytes().len() <= receiver@.max_size ==> r is Ok && r->Ok_0@ == frame@,
        frame@.bytes().len() > receiver@.max_size ==> r == Err::<Frame, WsError>(
            WsError::PayloadTooLarge,
        ),
{
    assert(unpacked_frame(receiver@, wire->Ok_0@) == if frame@.bytes().len() <= receiver@.max_size {
        Ok(frame@)
    } else {
        Err::<Payload, WsError>(WsError::PayloadTooLarge)
    });
}

/// A compressor has the settings that it was made with.
pub proof fn law_settings_are_kept(
    config: CompressionConfig,
    c: FrameCompressor,
    shown: &CompressionConfig,
    defaults: FrameCompressor,
)
    requires
        call_ensures(FrameCompressor::new, (config,), c),
        call_ensures(FrameCompressor::config, (&c,), shown),
        call_ensures(FrameCompressor::with_defaults, (), defaults),
    ensures
        shown.level == config.level,
        shown.min_size == config.min_size,
        shown.max_size == config.max_size,
        defaults@.level == 6,
        defaults@.min_size == 64,
        defaults@.max_size == 1048576,
{
}

/// Whether `s` is the capability token, in any case of letters.
pub open spec fn says_extension(s: Seq<char>) -> bool {
    s.len() == 16 && forall|i: int|
        0 <= i < 16 ==> #[trigger] s[i] == "x-ws-kit-deflate"@[i] || s[i] == "X-WS-KIT-DEFLATE"@[i]
}

proof fn lemma_says_extension(s: Seq<char>)
    ensures
        says_extension(s) <==> all_lowered(s) == all_lowered(EXTENSION_NAME@),
{
    reveal_strlit("x-ws-kit-deflate");
    reveal_strlit("X-WS-KIT-DEFLATE");
    let low = all_lowered(s);
    let name = "x-ws-kit-deflate"@;
    assert(all_lowered(EXTENSION_NAME@) == name);
    if low == name {
        assert(low.len() == name.len());
        assert(low[0] == 'x' && low[1] == '-' && low[2] == 'w' && low[3] == 's' && low[4] == '-'
            && low[5] == 'k' && low[6] == 'i' && low[7] == 't' && low[8] == '-' && low[9] == 'd'
            && low[10] == 'e' && low[11] == 'f' && low[12] == 'l' && low[13] == 'a' && low[14]
            == 't' && low[15] == 'e');
        assert(s[0] == 'x' || s[0] == 'X');
        assert(s[1] == '-');
        assert(s[2] == 'w' || s[2] == 'W');
        assert(s[3] == 's' || s[3] == 'S');
        assert(s[4] == '-');
        assert(s[5] == 'k' || s[5] == 'K');
        assert(s[6] == 'i' || s[6] == 'I');
        assert(s[7] == 't' || s[7] == 'T');
        assert(s[8] == '-');
        assert(s[9] == 'd' || s[9] == 'D');
        assert(s[10] == 'e' || s[10] == 'E');
        assert(s[11] == 'f' || s[11] == 'F');
        assert(s[12] == 'l' || s[12] == 'L');
        assert(s[13] == 'a' || s[13] == 'A');
        assert(s[14] == 't' || s[14] == 'T');
        assert(s[15] == 'e' || s[15] == 'E');
    }
    if says_extension(s) {
        assert forall|i: int| 0 <= i < 16 implies #[trigger] low[i] == name[i] by {
            assert(s[i] == "x-ws-kit-deflate"@[i] || s[i] == "X-WS-KIT-DEFLATE"@[i]);
        }
        assert(low == name);
    }
}

/// A header offers the extension exactly where one of the tokens between its commas
/// is the capability token, in any case of letters and with any white space around
/// it.
pub proof fn law_extension_offers(
    header: Option<&str>,
    r: bool,
    tokens: Seq<Seq<char>>,
    i: int,
    front: Seq<char>,
    token: Seq<char>,
    back: Seq<char>,
)
    requires
        call_ensures(extension_accepted, (header,), r),
        header is Some ==> header->0@ == joined(tokens, ','),
        tokens.len() > 0,
        forall|j: int| 0 <= j < tokens.len() ==> !(#[trigger] tokens[j]).contains(','),
    ensures
        header is None ==> !r,
        header is Some && 0 <= i < tokens.len() && tokens[i] == front + token + back && all_in(
            front,
            CharSet::WhiteSpace,
        ) && all_in(back, CharSet::WhiteSpace) && says_extension(token) ==> r,
        r ==> exists|k: int, a: Seq<char>, t: Seq<char>, b: Seq<char>|
            {
                &&& 0 <= k < tokens.len()
                &&& #[trigger] tokens[k] == #[trigger] (a + t + b)
                &&& all_in(a, CharSet::WhiteSpace)
                &&& all_in(b, CharSet::WhiteSpace)
                &&& says_extension(t)
            },
{
    let ws = CharSet::WhiteSpace;
    law_split_undoes_join(tokens, ',');
    if header is Some {
        let all = pieces(header->0@, ',');
        if 0 <= i < tokens.len() && tokens[i] == front + token + back && all_in(front, ws)
            && all_in(back, ws) && says_extension(token) {
            reveal_strlit("x-ws-kit-deflate");
            reveal_strlit("X-WS-KIT-DEFLATE");
            assert(token[0] == 'x' || token[0] == 'X');
            assert(token[15] == 'e' || token[15] == 'E');
            law_trimming(front, token, back, ws);
            lemma_says_extension(token);
            assert(all_lowered(trimmed(all[i], ws)) == all_lowered(EXTENSION_NAME@));
        }
        if r {
            let k = choose|k: int|
                0 <= k < all.len() && all_lowered(trimmed(#[trigger] all[k], ws)) == all_lowered(
                    EXTENSION_NAME@,
                );
            law_trimming_parts(tokens[k], ws);
            let t = trimmed(tokens[k], ws);
            lemma_says_extension(t);
            let (a, b) = choose|a: Seq<char>, b: Seq<char>|
                {
                    &&& tokens[k] == #[trigger] (a + t + b)
                    &&& all_in(a, ws)
                    &&& all_in(b, ws)
                };
            assert(tokens[k] == a + t + b);
        }
    }
}

/// The capability token is offered as it is recognized.
pub proof fn law_offer_is_recognized(r: &'static str)
    requires
        call_ensures(offer_extension, (), r),
    ensures
        r@ == "x-ws-kit-deflate"@,
        says_extension(r@),
{
    lemma_says_extension(r@);
}

/// Given the stream that the encoder made of it, a payload goes as the shorter of the
/// two, with the byte that tells which.
pub proof fn law_shorter_form_is_enclosed(
    data: &[u8],
    stream: Option<Vec<u8>>,
    r: Result<Vec<u8>, WsError>,
)
    requires
        call_ensures(enclose, (data, stream), r),
    ensures
        stream matches Some(s) ==> (s@.len() < data@.len() ==> r is Ok && r->Ok_0@ == seq![1u8]
            + s@),
        stream matches Some(s) ==> (s@.len() >= data@.len() ==> r is Ok && r->Ok_0@ == seq![0u8]
            + data@),
        stream is None ==> r == Err::<Vec<u8>, WsError>(WsError::Compression),
{
}

/// A payload is accepted as it is up to the limit, and none where the stream was
/// corrupt.
pub proof fn law_size_limit(
    c: FrameCompressor,
    payload: Option<Vec<u8>>,
    r: Result<Vec<u8>, WsError>,
)
    requires
        call_ensures(FrameCompressor::accept, (&c, payload), r),
    ensures
        payload matches Some(data) ==> (data@.len() <= c@.max_size ==> r is Ok && r->Ok_0@
            == data@),
        payload matches Some(data) ==> (data@.len() > c@.max_size ==> r == Err::<Vec<u8>, WsError>(
            WsError::PayloadTooLarge,
        )),
        payload is None ==> r == Err::<Vec<u8>, WsError>(WsError::Compression),
{
}

/// A payload becomes a binary frame or a text as the second bit of the flags tells;
/// text has to be UTF-8.
pub proof fn law_kinds_are_restored(flags: u8, payload: Vec<u8>, r: Result<Frame, WsError>)
    requires
        call_ensures(restore, (flags, payload), r),
    ensures
        (flags / 2) % 2 == 0 ==> r is Ok && r->Ok_0 is Binary && bytes_of(r->Ok_0->Binary_0)
            == payload@,
        (flags / 2) % 2 == 1 && valid_utf8(payload@) ==> r is Ok && r->Ok_0 is Text
            && r->Ok_0->Text_0@ == decode_utf8(payload@),
        (flags / 2) % 2 == 1 && !valid_utf8(payload@) ==> r == Err::<Frame, WsError>(
            WsError::Compression,
        ),
{
    assert((flags / 2) % 2 == 0 ==> flags & 2u8 == 0) by (bit_vector);
    assert((flags / 2) % 2 == 1 ==> flags & 2u8 != 0) by (bit_vector);
}

/// The default settings are level 6, a least size of 64 bytes and a limit of 1 MiB,
/// and copies have the settings of what they are copied from.
pub proof fn law_default_settings(
    unset: CompressionConfig,
    made: CompressionConfig,
    config: CompressionConfig,
    copy: CompressionConfig,
    c: FrameCompressor,
    twin: FrameCompressor,
)
    requires
        call_ensures(<CompressionConfig as Default>::default, (), unset),
        call_ensures(CompressionConfig::new, (), made),
        call_ensures(<CompressionConfig as Clone>::clone, (&config,), copy),
        call_ensures(<FrameCompressor as Clone>::clone, (&c,), twin),
    ensures
        unset.level == 6 && unset.min_size == 64 && unset.max_size == 1048576,
        made.level == 6 && made.min_size == 64 && made.max_size == 1048576,
        copy.level == config.level && copy.min_size == config.min_size && copy.max_size
            == config.max_size,
        twin@.level == c@.level && twin@.min_size == c@.min_size && twin@.max_size == c@.max_size,
{
}

} // verus!
