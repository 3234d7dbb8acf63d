use bytes::Bytes;
use serde_json::Value;
use ws_kit::codec::{checked, text_or_empty, Codec, Frame, JsonCodec};
use ws_kit::error::WsError;

fn payload(id: u32, msg: &str) -> Value {
    let mut fields = serde_json::Map::new();
    fields.insert("id".to_string(), Value::from(id));
    fields.insert("msg".to_string(), Value::from(msg));
    Value::Object(fields)
}

#[test]
fn codec_roundtrip_trait() {
    let p = payload(42, "hello");
    let s = text_or_empty(serde_json::to_string(&p));
    let d = JsonCodec::decode(&s).unwrap();
    assert_eq!(p, d);
}

#[test]
fn codec_roundtrip_result() {
    let p = payload(1, "world");
    let s = JsonCodec::encode(&p).unwrap();
    let d = JsonCodec::decode(&s).unwrap();
    assert_eq!(p, d);
}

#[test]
fn codec_invalid_decode() {
    let err = JsonCodec::decode("not json").unwrap_err();
    assert_eq!(err, WsError::InvalidMessage);
}

#[test]
fn json_codec_helpers() {
    let p = payload(7, "test");
    let s = JsonCodec::encode(&p).unwrap();
    let d = JsonCodec::decode(&s).unwrap();
    assert_eq!(p, d);

    let pretty = JsonCodec::encode_pretty(&p).unwrap();
    assert!(pretty.contains('\n'));
}

#[test]
fn encode_vec() {
    let v = vec![1, 2, 3];
    let s = v.encode();
    let d: Vec<i32> = Vec::decode(&s).unwrap();
    assert_eq!(v, d);
}

#[test]
fn codec_json_roundtrip() {
    let msg = payload(7, "codec");
    let s = text_or_empty(serde_json::to_string(&msg));
    let decoded = JsonCodec::decode(&s).unwrap();
    assert_eq!(msg, decoded);
}

#[test]
fn json_codec_helper() {
    let msg = payload(1, "helper");
    let s = JsonCodec::encode(&msg).unwrap();
    let d = JsonCodec::decode(&s).unwrap();
    assert_eq!(msg, d);
}

#[test]
fn codec_invalid() {
    let err = JsonCodec::decode("%%%").unwrap_err();
    assert_eq!(err, WsError::InvalidMessage);
}

#[test]
fn values_without_json_form() {
    // a map with keys that are no strings has no JSON form
    let mut odd = std::collections::BTreeMap::new();
    odd.insert(vec![1], 2);
    assert_eq!(
        checked(serde_json::to_string(&odd)),
        Err(WsError::InvalidMessage)
    );
    assert_eq!(
        checked(serde_json::to_string_pretty(&odd)),
        Err(WsError::InvalidMessage)
    );
    assert_eq!(
        text_or_empty(serde_json::to_string(&odd)),
        ""
    );
}

#[test]
fn frame_constructors_and_kinds() {
    assert!(Frame::from("hello".to_string()).is_text());
    assert!(Frame::from("hello").is_text());
    assert!(Frame::from(Bytes::from_static(b"\x00\x01")).is_binary());
    assert!(Frame::from(vec![1u8, 2]).is_binary());
    assert!(Frame::from(&[1u8, 2][..]).is_binary());
    assert!(Frame::binary(Vec::new()).is_binary());
}

#[test]
fn frame_len_and_bytes() {
    let t = Frame::from("héllo"); // multibyte: len is bytes
    assert_eq!(t.len(), 6);
    assert_eq!(t.as_bytes(), "héllo".as_bytes());
    assert!(!t.is_empty());

    let b = Frame::from(vec![0u8; 4]);
    assert_eq!(b.len(), 4);
    assert!(Frame::from(String::new()).is_empty());
}

#[test]
fn frame_into_bytes_and_text() {
    let t = Frame::from("abc".to_string());
    assert_eq!(&t.into_bytes()[..], b"abc");

    let b = Frame::from(vec![9u8]);
    assert_eq!(b.into_bytes()[0], 9);

    let t2 = Frame::from("text".to_string()).into_text();
    assert_eq!(t2.unwrap(), "text");

    // Binary is rejected as text — never sniffed/coerced.
    let b2 = Frame::from(vec![0xffu8, 0xfe]).into_text();
    assert_eq!(b2.unwrap_err(), WsError::InvalidMessage);
}

#[test]
fn frame_zero_copy_moves() {
    let s = String::from("owned");
    let f = Frame::from(s);
    assert_eq!(f, Frame::Text("owned".to_string()));
    let v = vec![1u8; 8];
    let f2 = Frame::from(v);
    assert_eq!(f2.len(), 8);
}

#[test]
fn frame_clone_eq() {
    let f = Frame::from("dup".to_string());
    assert_eq!(f.clone(), f);
    assert_ne!(
        Frame::from("a".to_string()),
        Frame::from(Bytes::from_static(b"a"))
    );
}

#[test]
fn frame_into_text_rejects_binary() {
    let frame = Frame::binary(Bytes::from_static(&[0xff, 0xfe]));
    assert_eq!(frame.into_text().unwrap_err(), WsError::InvalidMessage);
}

#[test]
fn frames_compare_and_clone_by_contents() {
    let b = Frame::from(vec![1u8, 2, 3]);
    assert_eq!(b.clone(), Frame::from(&[1u8, 2, 3][..]));
    assert_ne!(b, Frame::from(vec![1u8, 2]));
    assert_ne!(Frame::from("a"), Frame::from("b"));
    assert_eq!(b.as_bytes(), &[1, 2, 3]);
    assert_eq!(Frame::from("é").into_bytes(), Bytes::from("é"));
}

#[test]
fn json_texts() {
    let p = payload(7, "é\"");
    assert_eq!(JsonCodec::encode(&p).unwrap(), r#"{"id":7,"msg":"é\""}"#);
    assert_eq!(
        JsonCodec::encode_pretty(&p).unwrap(),
        "{\n  \"id\": 7,\n  \"msg\": \"é\\\"\"\n}"
    );
    assert_eq!(JsonCodec::decode(" [1, null] ").unwrap()[0], Value::from(1));
    assert_eq!(
        JsonCodec::decode("[1,"),
        Err(WsError::InvalidMessage)
    );
}

#[test]
fn values_come_back_as_they_were() {
    let list: Vec<(u32, String)> = vec![
        (0, String::new()),
        (u32::MAX, "\u{0}\"\\/\n\u{7f}é🌐\u{2028}".to_string()),
    ];
    assert_eq!(Vec::decode(&list.encode()), Ok(list.clone()));
    assert_eq!(Vec::decode(&list.encode_result().unwrap()), Ok(list));
    for n in [0, 1, 9_007_199_254_740_993, u64::MAX] {
        assert_eq!(n.encode(), n.to_string());
        assert_eq!(u64::decode(&n.encode()), Ok(n));
    }
    for n in [i64::MIN, -1, 0, i64::MAX] {
        assert_eq!(i64::decode(&n.encode()), Ok(n));
    }
    for n in [i32::MIN, 0, i32::MAX] {
        assert_eq!(i32::decode(&n.encode()), Ok(n));
    }
    assert_eq!("a\"".to_string().encode(), r#""a\"""#);
    assert_eq!(vec![vec![1u64], vec![]].encode(), "[[1],[]]");
}

#[test]
fn texts_that_stand_for_no_value() {
    for text in ["not json", "%%%", "", "-1", "1.0", "18446744073709551616", "null", "\"1\"", "1 2"] {
        assert_eq!(u64::decode(text), Err(WsError::InvalidMessage), "{text}");
    }
    assert_eq!(u32::decode("4294967296"), Err(WsError::InvalidMessage));
    assert_eq!(u32::decode("-1"), Err(WsError::InvalidMessage));
    assert_eq!(i32::decode("2147483648"), Err(WsError::InvalidMessage));
    assert_eq!(i32::decode("-2147483649"), Err(WsError::InvalidMessage));
    assert_eq!(i64::decode("9223372036854775808"), Err(WsError::InvalidMessage));
    assert_eq!(String::decode("1"), Err(WsError::InvalidMessage));
    assert_eq!(Vec::<u64>::decode("[1,\"2\"]"), Err(WsError::InvalidMessage));
    assert_eq!(Vec::<u64>::decode("{}"), Err(WsError::InvalidMessage));
    assert_eq!(<(u64, u64)>::decode("[1,2,3]"), Err(WsError::InvalidMessage));
    assert_eq!(<(u64, u64)>::decode("[1]"), Err(WsError::InvalidMessage));
    assert_eq!(<(u64, u64)>::decode("[1,2]"), Ok((1, 2)));
}

#[test]
fn typed_values_read_as_serde_reads_them() {
    for text in ["0", "-0", "7", " 7 ", "07", "7e0", "-7", "[7]", "[[7]]", "[]", "\"\\ud800\"", "\"a\"", "{\"a\":1}"] {
        assert_eq!(u64::decode(text).ok(), serde_json::from_str::<u64>(text).ok(), "{text}");
        assert_eq!(i64::decode(text).ok(), serde_json::from_str::<i64>(text).ok(), "{text}");
        assert_eq!(u32::decode(text).ok(), serde_json::from_str::<u32>(text).ok(), "{text}");
        assert_eq!(String::decode(text).ok(), serde_json::from_str::<String>(text).ok(), "{text}");
        assert_eq!(
            Vec::<u64>::decode(text).ok(),
            serde_json::from_str::<Vec<u64>>(text).ok(),
            "{text}"
        );
    }
}

#[test]
fn nested_values_come_back_down_to_a_limit() {
    let mut value = payload(1, "deep");
    for _ in 0..126 {
        value = Value::from(vec![value]);
    }
    let text = JsonCodec::encode(&value).unwrap();
    assert_eq!(JsonCodec::decode(&text), Ok(value.clone()));
    let pretty = JsonCodec::encode_pretty(&value).unwrap();
    assert_eq!(JsonCodec::decode(&pretty), Ok(value.clone()));
    let text = JsonCodec::encode(&Value::from(vec![value])).unwrap();
    assert_eq!(JsonCodec::decode(&text), Err(WsError::InvalidMessage));
}
