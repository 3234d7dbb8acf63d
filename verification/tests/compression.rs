use bytes::Bytes;
use ws_kit::codec::Frame;
use ws_kit::compression::{
    enclose, extension_accepted, offer_extension, restore, CompressionConfig, FrameCompressor,
    EXTENSION_NAME, FLAG_COMPRESSED, FLAG_TEXT,
};
use ws_kit::error::WsError;

fn repetitive(n: usize) -> Vec<u8> {
    // Highly compressible: 64-byte ramp repeated.
    let pattern: Vec<u8> = (0..=63u8).collect();
    pattern.repeat(n / 64 + 1).into_iter().take(n).collect()
}

#[test]
fn roundtrip_text_and_binary() {
    let c = FrameCompressor::with_defaults();

    let text = Frame::from("chat line ".repeat(40));
    let wire = c.compress_frame(text.clone()).unwrap();
    assert!(wire.is_binary());
    let restored = c.decompress_frame(wire).unwrap();
    assert_eq!(restored, text);
    assert!(restored.is_text());

    let bin = Frame::from(repetitive(4096));
    let wire = c.compress_frame(bin.clone()).unwrap();
    let restored = c.decompress_frame(wire).unwrap();
    assert_eq!(restored, bin);
    assert!(restored.is_binary());
}

#[test]
fn small_payloads_stay_identity() {
    let c = FrameCompressor::with_defaults(); // min_size 64
    let small = b"tiny".to_vec();
    let env = c.compress(&small).unwrap();
    assert_eq!(env[0] & FLAG_COMPRESSED, 0, "below min_size: identity");
    assert_eq!(&env[1..], &small[..]);
    assert_eq!(c.decompress(&env).unwrap(), small);
}

#[test]
fn repetitive_payload_compresses_smaller() {
    let c = FrameCompressor::with_defaults();
    let data = repetitive(4096);
    let env = c.compress(&data).unwrap();
    assert_eq!(env[0] & FLAG_COMPRESSED, FLAG_COMPRESSED);
    assert!(
        env.len() < data.len() / 4,
        "repetitive data should crush: env={} raw={}",
        env.len(),
        data.len()
    );
    assert_eq!(c.decompress(&env).unwrap(), data);
}

#[test]
fn incompressible_payload_falls_back_to_identity() {
    let c = FrameCompressor::with_defaults();
    // 4 KiB of well-shuffled pseudo-random bytes: deflate cannot shrink.
    let mut data = vec![0u8; 4096];
    let mut x: u64 = 0x9E3779B97F4A7C15;
    for slot in data.iter_mut() {
        x ^= x << 13;
        x ^= x >> 7;
        x ^= x << 17;
        *slot = (x >> 32) as u8;
    }
    let env = c.compress(&data).unwrap();
    assert_eq!(env[0] & FLAG_COMPRESSED, 0, "must not grow on the wire");
    assert_eq!(c.decompress(&env).unwrap(), data);
}

#[test]
fn empty_payload_roundtrips() {
    let c = FrameCompressor::with_defaults();
    let env = c.compress(&[]).unwrap();
    assert!(c.decompress(&env).unwrap().is_empty());
    let wire = c.compress_frame(Frame::from("")).unwrap();
    assert_eq!(c.decompress_frame(wire).unwrap(), Frame::from(""));
}

#[test]
fn bomb_guard_caps_decompression() {
    let small = FrameCompressor::new(CompressionConfig {
        level: 6,
        min_size: 64,
        max_size: 1024,
    });
    let bomb_input = vec![0u8; 1 << 20]; // 1 MiB of zeros
    let env = small.compress(&bomb_input).unwrap();
    // Compresses fine; decompressing against the 1 KiB cap is refused
    // *after* taking at most cap+1 bytes from the stream.
    assert_eq!(
        small.decompress(&env).unwrap_err(),
        WsError::PayloadTooLarge
    );

    // Identity payloads over the cap are refused too.
    let big_identity = small.compress(&vec![7u8; 2048]).unwrap();
    assert_eq!(
        small.decompress(&big_identity).unwrap_err(),
        WsError::PayloadTooLarge
    );
}

#[test]
fn unknown_flags_fail_closed() {
    let c = FrameCompressor::with_defaults();
    let err = c.decompress(&[0b1000_0000, 1, 2, 3]).unwrap_err();
    assert_eq!(err, WsError::Compression);
    let err = c
        .decompress_frame(Frame::from(vec![0b0000_0100u8, 1]))
        .unwrap_err();
    assert_eq!(err, WsError::Compression);
    // Empty envelope: no flags byte at all.
    assert_eq!(c.decompress(&[]).unwrap_err(), WsError::Compression);
    assert_eq!(
        c.decompress_frame(Frame::from(Bytes::new())).unwrap_err(),
        WsError::Compression
    );
}

#[test]
fn corrupt_deflate_stream_is_an_error() {
    let c = FrameCompressor::with_defaults();
    let garbage_env = [FLAG_COMPRESSED, 0xDE, 0xAD, 0xBE, 0xEF];
    assert_eq!(
        c.decompress(&garbage_env).unwrap_err(),
        WsError::Compression
    );
}

#[test]
fn text_frame_with_invalid_utf8_flag_rejected() {
    let c = FrameCompressor::with_defaults();
    // Hand-crafted envelope claiming Text with non-UTF-8 identity bytes.
    let evil = [FLAG_TEXT, 0xFF, 0xFE, 0xFF];
    assert_eq!(
        c.decompress_frame(Frame::from(evil.to_vec())).unwrap_err(),
        WsError::Compression
    );
}

#[test]
fn multibyte_utf8_text_survives_exactly() {
    let c = FrameCompressor::with_defaults();
    let text = Frame::from("héllo wörld — ünïcode 🌐 ".repeat(20));
    let restored = c
        .decompress_frame(c.compress_frame(text.clone()).unwrap())
        .unwrap();
    assert_eq!(restored, text);
}

#[test]
fn negotiation_tokens() {
    assert!(extension_accepted(Some(EXTENSION_NAME)));
    assert!(extension_accepted(Some("X-WS-KIT-DEFLATE")));
    assert!(extension_accepted(Some(
        " permessage-deflate, x-ws-kit-deflate "
    )));
    assert!(!extension_accepted(Some("permessage-deflate")));
    assert!(!extension_accepted(Some("x-ws-kit-deflate2")));
    assert!(!extension_accepted(Some("")));
    assert!(!extension_accepted(None));
    assert_eq!(offer_extension(), "x-ws-kit-deflate");
}

#[test]
fn config_level_bounds_and_accessors() {
    let cfg = CompressionConfig {
        level: 9,
        ..CompressionConfig::default()
    };
    let c = FrameCompressor::new(cfg.clone());
    assert_eq!(c.config(), &cfg);
    assert_eq!(CompressionConfig::new(), CompressionConfig::default());
}

#[test]
fn envelope_is_one_byte() {
    let c = FrameCompressor::with_defaults();
    let wire = c.compress_frame(Frame::from("hi")).unwrap();
    assert_eq!(wire.as_bytes(), &[FLAG_TEXT, b'h', b'i']);
    let wire = c.compress_frame(Frame::from(vec![7u8, 8])).unwrap();
    assert_eq!(wire.as_bytes(), &[0, 7, 8]);
    let text = "abc ".repeat(100);
    let wire = c.compress_frame(Frame::from(text.as_str())).unwrap();
    assert_eq!(wire.as_bytes()[0], FLAG_COMPRESSED | FLAG_TEXT);
    assert_eq!(
        &wire.as_bytes()[1..],
        &c.compress(text.as_bytes()).unwrap()[1..]
    );
}

#[test]
fn a_text_frame_can_carry_an_envelope() {
    let c = FrameCompressor::with_defaults();
    assert_eq!(
        c.decompress_frame(Frame::from("\u{0}abc")),
        Ok(Frame::from(b"abc".to_vec()))
    );
}

#[test]
fn identity_and_size_limit() {
    let c = FrameCompressor::new(CompressionConfig {
        level: 6,
        min_size: 64,
        max_size: 3,
    });
    assert_eq!(c.decompress(&[0, 1, 2, 3]), Ok(vec![1, 2, 3]));
    assert_eq!(
        c.decompress(&[0, 1, 2, 3, 4]),
        Err(WsError::PayloadTooLarge)
    );
    assert_eq!(c.accept(Some(vec![1; 3])), Ok(vec![1; 3]));
    assert_eq!(c.accept(Some(vec![1; 4])), Err(WsError::PayloadTooLarge));
    assert_eq!(c.accept(None), Err(WsError::Compression));
}

#[test]
fn largest_size_limit() {
    let c = FrameCompressor::new(CompressionConfig {
        level: 6,
        min_size: 0,
        max_size: usize::MAX,
    });
    let data = vec![5u8; 10_000];
    let env = c.compress(&data).unwrap();
    assert_eq!(env[0], FLAG_COMPRESSED);
    assert_eq!(c.decompress(&env), Ok(data));
}

#[test]
fn size_limit_is_exact() {
    let data = vec![5u8; 1000];
    let env = FrameCompressor::with_defaults().compress(&data).unwrap();
    let at = |max_size: usize| {
        FrameCompressor::new(CompressionConfig {
            level: 6,
            min_size: 64,
            max_size,
        })
        .decompress(&env)
    };
    assert_eq!(at(1000), Ok(data.clone()));
    assert_eq!(at(999), Err(WsError::PayloadTooLarge));
}

#[test]
fn envelopes_of_given_streams() {
    assert_eq!(
        enclose(b"abcd", Some(vec![9, 9])),
        Ok(vec![FLAG_COMPRESSED, 9, 9])
    );
    assert_eq!(
        enclose(b"ab", Some(vec![9, 9])),
        Ok(vec![0, b'a', b'b'])
    );
    assert_eq!(enclose(b"ab", None), Err(WsError::Compression));
}

#[test]
fn frames_of_given_payloads() {
    assert_eq!(
        restore(FLAG_TEXT, "é".as_bytes().to_vec()),
        Ok(Frame::from("é"))
    );
    assert_eq!(restore(0, vec![0xff]), Ok(Frame::from(vec![0xffu8])));
    assert_eq!(restore(FLAG_TEXT, vec![0xff]), Err(WsError::Compression));
}

#[test]
fn default_settings() {
    let c = FrameCompressor::with_defaults();
    assert_eq!(
        c.config(),
        &CompressionConfig {
            level: 6,
            min_size: 64,
            max_size: 1024 * 1024
        }
    );
}

#[test]
fn every_payload_compresses() {
    let mut data: Vec<u8> = Vec::new();
    let mut x: u32 = 1;
    for i in 0..200_000u32 {
        x = x.wrapping_mul(1_664_525).wrapping_add(1_013_904_223);
        data.push(if i % 3 == 0 { 7 } else { (x >> 24) as u8 });
    }
    for level in 0..=10 {
        for n in [0, 1, 64, 65_535, 65_536, 200_000] {
            let c = FrameCompressor::new(CompressionConfig { level, min_size: 0, max_size: n });
            let envelope = c.compress(&data[..n]).unwrap();
            assert!(envelope.len() <= n + 1);
            assert_eq!(c.clone().decompress(&envelope).unwrap(), &data[..n]);
        }
    }
}
