//! The wire message model and its JSON text form.
//!
//! WebSocket carries two data frame kinds: text, which is valid UTF-8, and
//! binary, which is opaque bytes. [`Frame`] models both. A binary payload is
//! never parsed as text: [`Frame::into_text`] refuses it, and the JSON decoder
//! takes text alone.
use crate::error::WsError;
use crate::json::{
    as_list, as_signed, as_text, as_unsigned, content, contents, json_pretty, json_text, json_value,
    lemma_shallow_widens, list, parse, plain, read_back, render, render_pretty, shallow, signed,
    text, unsigned, Json,
};
use bytes::Bytes;
use serde_json::Value;
use vstd::prelude::*;
use vstd::utf8::encode_utf8;

verus! {

/// A shared byte buffer of the `bytes` crate.
#[verifier::external_type_specification]
#[verifier::external_body]
pub struct ExBytes(Bytes);

/// The contents of a byte buffer.
pub uninterp spec fn bytes_of(b: Bytes) -> Seq<u8>;

/// `Bytes::from` on a vector takes the vector's bytes over.
#[verifier::external_body]
pub(crate) fn bytes_from_vec(v: Vec<u8>) -> (r: Bytes)
    ensures
        bytes_of(r) == v@,
{
    Bytes::from(v)
}

/// `Bytes::from` on a string takes over the string's UTF-8 bytes.
#[verifier::external_body]
fn bytes_from_string(s: String) -> (r: Bytes)
    ensures
        bytes_of(r) == encode_utf8(s@),
{
    Bytes::from(s)
}

/// `Bytes::copy_from_slice` copies the slice.
#[verifier::external_body]
fn bytes_from_slice(s: &[u8]) -> (r: Bytes)
    ensures
        bytes_of(r) == s@,
{
    Bytes::copy_from_slice(s)
}

/// `<Bytes as AsRef<[u8]>>::as_ref` lends the contents.
#[verifier::external_body]
pub(crate) fn bytes_slice(b: &Bytes) -> (r: &[u8])
    ensures
        r@ == bytes_of(*b),
{
    b.as_ref()
}

/// `<Bytes as Clone>::clone` makes a buffer with the same contents.
#[verifier::external_body]
fn bytes_clone(b: &Bytes) -> (r: Bytes)
    ensures
        bytes_of(r) == bytes_of(*b),
{
    b.clone()
}

/// `<Bytes as PartialEq>::eq` compares contents.
#[verifier::external_body]
fn bytes_eq(a: &Bytes, b: &Bytes) -> (r: bool)
    ensures
        r == (bytes_of(*a) == bytes_of(*b)),
{
    a == b
}

/// A wire message: the union of WebSocket text and binary data frames.
#[derive(Debug)]
pub enum Frame {
    /// A UTF-8 text frame.
    Text(String),
    /// An opaque binary frame.
    Binary(Bytes),
}

/// A frame with its payload as text or bytes.
pub ghost enum Payload {
    Text(Seq<char>),
    Binary(Seq<u8>),
}

impl View for Frame {
    type V = Payload;

    open spec fn view(&self) -> Payload {
        match self {
            Frame::Text(s) => Payload::Text(s@),
            Frame::Binary(b) => Payload::Binary(bytes_of(*b)),
        }
    }
}

impl Payload {
    /// The bytes on the wire: UTF-8 for text.
    pub open spec fn bytes(self) -> Seq<u8> {
        match self {
            Payload::Text(s) => encode_utf8(s),
            Payload::Binary(b) => b,
        }
    }
}

impl Clone for Frame {
    fn clone(&self) -> (r: Self)
        ensures
            r@ == self@,
    {
        match self {
            Frame::Text(s) => Frame::Text(s.clone()),
            Frame::Binary(b) => Frame::Binary(bytes_clone(b)),
        }
    }
}

impl PartialEq for Frame {
    fn eq(&self, other: &Self) -> (r: bool) {
        match (self, other) {
            (Frame::Text(a), Frame::Text(b)) => a.eq(b),
            (Frame::Binary(a), Frame::Binary(b)) => bytes_eq(a, b),
            _ => false,
        }
    }
}

impl vstd::std_specs::cmp::PartialEqSpecImpl for Frame {
    open spec fn obeys_eq_spec() -> bool {
        true
    }

    open spec fn eq_spec(&self, other: &Self) -> bool {
        self@ == other@
    }
}

impl Eq for Frame {

}

impl Frame {
    /// Construct a `Binary` frame from anything `Bytes` converts from.
    pub fn binary<T: Into<Bytes>>(data: T) -> (r: Self)
        ensures
            r is Binary,
            call_ensures(T::into, (data,), r->Binary_0),
    {
        Frame::Binary(data.into())
    }

    /// Payload length in bytes (UTF-8 length for text).
    pub fn len(&self) -> (r: usize)
        ensures
            r == self@.bytes().len(),
    {
        self.as_bytes().len()
    }

    /// True when the payload is empty.
    pub fn is_empty(&self) -> (r: bool)
        ensures
            r == (self@.bytes().len() == 0),
    {
        self.len() == 0
    }

    /// True for [`Frame::Text`].
    pub fn is_text(&self) -> (r: bool)
        ensures
            r == (self@ is Text),
    {
        matches!(self, Frame::Text(_))
    }

    /// True for [`Frame::Binary`].
    pub fn is_binary(&self) -> (r: bool)
        ensures
            r == (self@ is Binary),
    {
        matches!(self, Frame::Binary(_))
    }

    /// Payload as bytes (UTF-8 for text), without consuming the frame.
    pub fn as_bytes(&self) -> (r: &[u8])
        ensures
            r@ == self@.bytes(),
    {
        match self {
            Frame::Text(s) => s.as_str().as_bytes(),
            Frame::Binary(b) => bytes_slice(b),
        }
    }

    /// Take the payload as owned bytes, consuming the frame.
    pub fn into_bytes(self) -> (r: Bytes)
        ensures
            bytes_of(r) == self@.bytes(),
    {
        match self {
            Frame::Text(s) => bytes_from_string(s),
            Frame::Binary(b) => b,
        }
    }

    /// The text of a text frame; a binary frame is refused.
    pub fn into_text(self) -> (r: Result<String, WsError>)
        ensures
            match self@ {
                Payload::Text(s) => r matches Ok(text) && text@ == s,
                Payload::Binary(_) => r matches Err(e) && e is InvalidMessage,
            },
    {
        match self {
            Frame::Text(s) => Ok(s),
            Frame::Binary(_) => Err(WsError::InvalidMessage),
        }
    }
}

impl From<String> for Frame {
    fn from(s: String) -> (r: Self)
        ensures
            r@ == Payload::Text(s@),
    {
        Frame::Text(s)
    }
}

impl vstd::std_specs::convert::FromSpecImpl<String> for Frame {
    open spec fn obeys_from_spec() -> bool {
        true
    }

    open spec fn from_spec(s: String) -> Self {
        Frame::Text(s)
    }
}

impl From<&str> for Frame {
    fn from(s: &str) -> (r: Self)
        ensures
            r@ == Payload::Text(s@),
    {
        Frame::Text(s.to_owned())
    }
}

impl vstd::std_specs::convert::FromSpecImpl<&str> for Frame {
    open spec fn obeys_from_spec() -> bool {
        false
    }

    open spec fn from_spec(s: &str) -> Self {
        arbitrary()
    }
}

impl From<Bytes> for Frame {
    fn from(b: Bytes) -> (r: Self)
        ensures
            r@ == Payload::Binary(bytes_of(b)),
    {
        Frame::Binary(b)
    }
}

impl vstd::std_specs::convert::FromSpecImpl<Bytes> for Frame {
    open spec fn obeys_from_spec() -> bool {
        true
    }

    open spec fn from_spec(b: Bytes) -> Self {
        Frame::Binary(b)
    }
}

impl From<Vec<u8>> for Frame {
    fn from(v: Vec<u8>) -> (r: Self)
        ensures
            r@ == Payload::Binary(v@),
    {
        Frame::Binary(bytes_from_vec(v))
    }
}

impl vstd::std_specs::convert::FromSpecImpl<Vec<u8>> for Frame {
    open spec fn obeys_from_spec() -> bool {
        false
    }

    open spec fn from_spec(v: Vec<u8>) -> Self {
        arbitrary()
    }
}

impl From<&[u8]> for Frame {
    fn from(v: &[u8]) -> (r: Self)
        ensures
            r@ == Payload::Binary(v@),
    {
        Frame::Binary(bytes_from_slice(v))
    }
}

impl vstd::std_specs::convert::FromSpecImpl<&[u8]> for Frame {
    open spec fn obeys_from_spec() -> bool {
        false
    }

    open spec fn from_spec(v: &[u8]) -> Self {
        arbitrary()
    }
}

/// What a caller of the library sees of what `serde_json` gave back: the same
/// text or value, or [`WsError::InvalidMessage`].
pub fn checked<T>(outcome: Result<T, serde_json::Error>) -> (r: Result<T, WsError>)
    ensures
        match outcome {
            Ok(value) => r == Ok::<T, WsError>(value),
            Err(_) => r == Err::<T, WsError>(WsError::InvalidMessage),
        },
{
    match outcome {
        Ok(value) => Ok(value),
        Err(_) => Err(WsError::InvalidMessage),
    }
}

/// The text that `serde_json` gave back, empty where it gave none.
pub fn text_or_empty(outcome: Result<String, serde_json::Error>) -> (r: String)
    ensures
        match outcome {
            Ok(text) => r == text,
            Err(_) => r@.len() == 0,
        },
{
    match outcome {
        Ok(text) => text,
        Err(_) => String::new(),
    }
}

/// Whether `text` is the JSON text of a value that holds `json`. Read back, it is
/// that value again, where such values can be read back at all.
pub open spec fn encoded(json: Json, text: Seq<char>) -> bool {
    &&& exists|value: Value| content(value) == json && #[trigger] json_text(value) == text
    &&& plain(json) ==> read_back(text) == Some(json)
}

/// Encoding and decoding of messages as JSON text.
pub trait Codec: Sized {
    /// The JSON that stands for this value.
    spec fn json(&self) -> Json;

    /// How deep the lists in such values are nested.
    spec fn levels() -> nat;

    /// No value of this type is nested deeper.
    proof fn lemma_levels(&self)
        ensures
            shallow(self.json(), Self::levels()),
    ;

    /// The JSON value that stands for this one.
    fn to_value(&self) -> (r: Value)
        ensures
            content(r) == self.json(),
    ;

    /// The value that a JSON value stands for, if there is one.
    fn from_value(value: &Value) -> (r: Option<Self>)
        ensures
            match r {
                Some(x) => x.json() == content(*value),
                None => forall|x: Self|
                    #![trigger x.json()]
                    x.json() != content(*value),
            },
    ;

    /// Encode `self` into a JSON string.
    fn encode(&self) -> (r: String)
        ensures
            encoded(self.json(), r@),
    {
        text_or_empty(render(&self.to_value()))
    }

    /// Encode with error handling.
    fn encode_result(&self) -> (r: Result<String, WsError>)
        ensures
            r is Ok,
            r matches Ok(text) ==> encoded(self.json(), text@),
    {
        checked(render(&self.to_value()))
    }

    /// Decode `Self` from a JSON string.
    fn decode(s: &str) -> (r: Result<Self, WsError>)
        ensures
            match r {
                Ok(value) => read_back(s@) == Some(value.json()),
                Err(e) => e is InvalidMessage && forall|value: Self|
                    #![trigger value.json()]
                    read_back(s@) != Some(value.json()),
            },
    {
        match checked(parse(s)) {
            Ok(value) => match Self::from_value(&value) {
                Some(x) => Ok(x),
                None => Err(WsError::InvalidMessage),
            },
            Err(e) => Err(e),
        }
    }
}

impl Codec for u64 {
    open spec fn json(&self) -> Json {
        Json::Int(*self as int)
    }

    open spec fn levels() -> nat {
        0
    }

    proof fn lemma_levels(&self) {
    }

    fn to_value(&self) -> (r: Value) {
        unsigned(*self)
    }

    fn from_value(value: &Value) -> (r: Option<Self>) {
        as_unsigned(value)
    }
}

impl Codec for u32 {
    open spec fn json(&self) -> Json {
        Json::Int(*self as int)
    }

    open spec fn levels() -> nat {
        0
    }

    proof fn lemma_levels(&self) {
    }

    fn to_value(&self) -> (r: Value) {
        unsigned(*self as u64)
    }

    fn from_value(value: &Value) -> (r: Option<Self>) {
        match as_unsigned(value) {
            Some(n) => if n <= u32::MAX as u64 {
                Some(n as u32)
            } else {
                None
            },
            None => None,
        }
    }
}

impl Codec for i64 {
    open spec fn json(&self) -> Json {
        Json::Int(*self as int)
    }

    open spec fn levels() -> nat {
        0
    }

    proof fn lemma_levels(&self) {
    }

    fn to_value(&self) -> (r: Value) {
        signed(*self)
    }

    fn from_value(value: &Value) -> (r: Option<Self>) {
        as_signed(value)
    }
}

impl Codec for i32 {
    open spec fn json(&self) -> Json {
        Json::Int(*self as int)
    }

    open spec fn levels() -> nat {
        0
    }

    proof fn lemma_levels(&self) {
    }

    fn to_value(&self) -> (r: Value) {
        signed(*self as i64)
    }

    fn from_value(value: &Value) -> (r: Option<Self>) {
        match as_signed(value) {
            Some(n) => if i32::MIN as i64 <= n && n <= i32::MAX as i64 {
                Some(n as i32)
            } else {
                None
            },
            None => None,
        }
    }
}

impl Codec for String {
    open spec fn json(&self) -> Json {
        Json::Text(self@)
    }

    open spec fn levels() -> nat {
        0
    }

    proof fn lemma_levels(&self) {
    }

    fn to_value(&self) -> (r: Value) {
        text(self.clone())
    }

    fn from_value(value: &Value) -> (r: Option<Self>) {
        match as_text(value) {
            Some(s) => Some(s.to_owned()),
            None => None,
        }
    }
}

impl<T: Codec> Codec for Vec<T> {
    open spec fn json(&self) -> Json {
        Json::List(Seq::new(self@.len(), |i: int| self@[i].json()))
    }

    open spec fn levels() -> nat {
        T::levels() + 1
    }

    proof fn lemma_levels(&self) {
        let items = Seq::new(self@.len(), |i: int| self@[i].json());
        assert forall|i: int| 0 <= i < items.len() implies shallow(
            #[trigger] items[i],
            T::levels(),
        ) by {
            self@[i].lemma_levels();
        }
    }

    fn to_value(&self) -> (r: Value) {
        let mut values: Vec<Value> = Vec::new();
        let n: usize = self.len();
        for i in 0..n
            invariant
                n == self@.len(),
                values@.len() == i,
                forall|j: int|
                    0 <= j < i ==> content(#[trigger] values@[j]) == self@[j].json(),
        {
            values.push(self[i].to_value());
        }
        let ghost items = contents(values@);
        assert(items == Seq::new(self@.len(), |i: int| self@[i].json()));
        list(values)
    }

    fn from_value(value: &Value) -> (r: Option<Self>) {
        let values = match as_list(value) {
            Some(values) => values,
            None => return None,
        };
        let mut out: Vec<T> = Vec::new();
        let n: usize = values.len();
        for i in 0..n
            invariant
                n == values@.len(),
                content(*value) == Json::List(contents(values@)),
                out@.len() == i,
                forall|j: int|
                    0 <= j < i ==> (#[trigger] out@[j]).json() == content(values@[j]),
        {
            match T::from_value(&values[i]) {
                Some(x) => out.push(x),
                None => {
                    proof {
                        assert forall|x: Vec<T>| #[trigger] x.json() != content(*value) by {
                            if x.json() == content(*value) {
                                let items = Seq::new(x@.len(), |k: int| x@[k].json());
                                assert(items == contents(values@));
                                assert(items[i as int] == contents(values@)[i as int]);
                                assert(x@[i as int].json() == content(values@[i as int]));
                            }
                        }
                    }
                    return None;
                },
            }
        }
        assert(Seq::new(out@.len(), |i: int| out@[i].json()) == contents(values@));
        Some(out)
    }
}

impl<A: Codec, B: Codec> Codec for (A, B) {
    open spec fn json(&self) -> Json {
        Json::List(seq![self.0.json(), self.1.json()])
    }

    open spec fn levels() -> nat {
        if A::levels() < B::levels() {
            B::levels() + 1
        } else {
            A::levels() + 1
        }
    }

    proof fn lemma_levels(&self) {
        let levels = (Self::levels() - 1) as nat;
        self.0.lemma_levels();
        self.1.lemma_levels();
        lemma_shallow_widens(self.0.json(), A::levels(), levels);
        lemma_shallow_widens(self.1.json(), B::levels(), levels);
    }

    fn to_value(&self) -> (r: Value) {
        let mut values: Vec<Value> = Vec::new();
        values.push(self.0.to_value());
        values.push(self.1.to_value());
        assert(contents(values@) == seq![self.0.json(), self.1.json()]);
        list(values)
    }

    fn from_value(value: &Value) -> (r: Option<Self>) {
        let values = match as_list(value) {
            Some(values) => values,
            None => return None,
        };
        let ghost items = contents(values@);
        proof {
            assert forall|x: (A, B)| #[trigger] x.json() == content(*value) implies items.len() == 2
                && items[0] == x.0.json() && items[1] == x.1.json() by {
                assert(items == seq![x.0.json(), x.1.json()]);
            }
        }
        if values.len() != 2 {
            return None;
        }
        match (A::from_value(&values[0]), B::from_value(&values[1])) {
            (Some(a), Some(b)) => {
                assert(seq![a.json(), b.json()] == items);
                Some((a, b))
            },
            _ => None,
        }
    }
}

/// Whether `r` is what `text` decodes to: the value that stands for what the text
/// holds, or an error where there is none.
pub open spec fn decoded<T: Codec>(text: Seq<char>, r: Result<T, WsError>) -> bool {
    match r {
        Ok(value) => read_back(text) == Some(value.json()),
        Err(e) => e is InvalidMessage && forall|value: T|
            read_back(text) != Some(#[trigger] value.json()),
    }
}

/// What was encoded decodes to the same value, unless its lists are nested deeper
/// than the parser goes down.
pub proof fn law_decode_gives_back<T: Codec>(value: T, text: Seq<char>, r: Result<T, WsError>)
    requires
        T::levels() <= 127,
        encoded(value.json(), text),
        decoded(text, r),
    ensures
        r matches Ok(x) && x.json() == value.json(),
{
    value.lemma_levels();
    lemma_shallow_widens(value.json(), T::levels(), 127);
}

/// The JSON of a list tells that of each of its values.
pub proof fn law_json_tells_items_apart<T: Codec>(one: Vec<T>, other: Vec<T>)
    requires
        one.json() == other.json(),
    ensures
        one@.len() == other@.len(),
        forall|i: int| 0 <= i < one@.len() ==> (#[trigger] one@[i]).json() == other@[i].json(),
{
    let a = Seq::new(one@.len(), |i: int| one@[i].json());
    let b = Seq::new(other@.len(), |i: int| other@[i].json());
    assert(a == b);
    assert forall|i: int| 0 <= i < one@.len() implies (#[trigger] one@[i]).json()
        == other@[i].json() by {
        assert(a[i] == one@[i].json());
        assert(b[i] == other@[i].json());
    }
}

/// JSON as the text form of messages.
pub struct JsonCodec;

impl JsonCodec {
    /// Encode a value to JSON string.
    pub fn encode(value: &Value) -> (r: Result<String, WsError>)
        ensures
            r is Ok,
            r matches Ok(text) ==> text@ == json_text(*value) && (plain(content(*value))
                ==> read_back(text@) == Some(content(*value))),
    {
        checked(render(value))
    }

    /// Decode a value from JSON string.
    pub fn decode(s: &str) -> (r: Result<Value, WsError>)
        ensures
            match r {
                Ok(value) => json_value(s@) == Some(value),
                Err(e) => json_value(s@) is None && e is InvalidMessage,
            },
    {
        checked(parse(s))
    }

    /// Encode pretty-printed JSON (for debugging).
    pub fn encode_pretty(value: &Value) -> (r: Result<String, WsError>)
        ensures
            r is Ok,
            r matches Ok(text) ==> text@ == json_pretty(*value) && (plain(content(*value))
                ==> read_back(text@) == Some(content(*value))),
    {
        checked(render_pretty(value))
    }
}

/// The bytes of a text frame are the UTF-8 form of its text, and those of a binary
/// frame its own; length, emptiness and kind go by them.
pub proof fn law_frame_bytes(
    frame: Frame,
    data: Seq<u8>,
    len: usize,
    empty: bool,
    is_text: bool,
    is_binary: bool,
    slice: &[u8],
    owned: Bytes,
)
    requires
        call_ensures(Frame::len, (&frame,), len),
        call_ensures(Frame::is_empty, (&frame,), empty),
        call_ensures(Frame::is_text, (&frame,), is_text),
        call_ensures(Frame::is_binary, (&frame,), is_binary),
        call_ensures(Frame::as_bytes, (&frame,), slice),
        call_ensures(Frame::into_bytes, (frame,), owned),
        frame matches Frame::Text(s) ==> data == encode_utf8(s@),
        frame matches Frame::Binary(b) ==> data == bytes_of(b),
    ensures
        slice@ == data,
        bytes_of(owned) == data,
        len == data.len(),
        empty <==> data.len() == 0,
        is_text <==> frame is Text,
        is_binary <==> frame is Binary,
        frame@.bytes() == data,
{
}

/// Text comes out of a text frame as it is, and out of no binary one.
pub proof fn law_binary_is_no_text(frame: Frame, r: Result<String, WsError>)
    requires
        call_ensures(Frame::into_text, (frame,), r),
    ensures
        frame matches Frame::Text(s) ==> r is Ok && r->Ok_0@ == s@,
        frame is Binary ==> r == Err::<String, WsError>(WsError::InvalidMessage),
{
}

/// Frames are made of texts and of bytes as these are.
pub proof fn law_frames_hold_what_they_are_made_of(
    text: String,
    slice: &str,
    bytes: Bytes,
    vector: Vec<u8>,
    data: &[u8],
    r: (Frame, Frame, Frame, Frame, Frame),
)
    requires
        call_ensures(<Frame as From<String>>::from, (text,), r.0),
        call_ensures(<Frame as From<&str>>::from, (slice,), r.1),
        call_ensures(<Frame as From<Bytes>>::from, (bytes,), r.2),
        call_ensures(<Frame as From<Vec<u8>>>::from, (vector,), r.3),
        call_ensures(<Frame as From<&[u8]>>::from, (data,), r.4),
    ensures
        r.0 is Text && r.0->Text_0@ == text@,
        r.1 is Text && r.1->Text_0@ == slice@,
        r.2 is Binary && bytes_of(r.2->Binary_0) == bytes_of(bytes),
        r.3 is Binary && bytes_of(r.3->Binary_0) == vector@,
        r.4 is Binary && bytes_of(r.4->Binary_0) == data@,
{
}

/// A clone of a frame holds the same, of the same kind.
pub proof fn law_frame_clone(frame: Frame, r: Frame)
    requires
        call_ensures(<Frame as Clone>::clone, (&frame,), r),
    ensures
        frame matches Frame::Text(s) ==> r is Text && r->Text_0@ == s@,
        frame matches Frame::Binary(b) ==> r is Binary && bytes_of(r->Binary_0) == bytes_of(b),
{
}

/// Two frames are equal where they are of the same kind and hold the same.
pub proof fn law_frame_equality(a: Frame, b: Frame, r: bool)
    requires
        call_ensures(<Frame as PartialEq>::eq, (&a, &b), r),
    ensures
        a is Text && b is Text ==> (r <==> a->Text_0@ == b->Text_0@),
        a is Binary && b is Binary ==> (r <==> bytes_of(a->Binary_0) == bytes_of(b->Binary_0)),
        a is Text && b is Binary || a is Binary && b is Text ==> !r,
{
}

/// What `serde_json` gave is passed on, and its errors are one error.
pub proof fn law_json_outcomes(
    outcome: Result<String, serde_json::Error>,
    r: Result<String, WsError>,
    text: String,
)
    requires
        call_ensures(checked::<String>, (outcome,), r),
        call_ensures(text_or_empty, (outcome,), text),
    ensures
        outcome matches Ok(s) ==> r is Ok && r->Ok_0@ == s@ && text@ == s@,
        outcome is Err ==> r == Err::<String, WsError>(WsError::InvalidMessage) && text@.len()
            == 0,
{
}

/// The JSON of numbers, texts, lists and pairs holds them as they are.
pub proof fn law_json_of_values(
    n: u64,
    m: u32,
    i: i64,
    j: i32,
    text: String,
    list: Vec<u64>,
    pair: (u32, String),
    k: int,
)
    ensures
        n.json() == Json::Int(n as int),
        m.json() == Json::Int(m as int),
        i.json() == Json::Int(i as int),
        j.json() == Json::Int(j as int),
        text.json() == Json::Text(text@),
        list.json() is List && list.json()->List_0.len() == list@.len(),
        0 <= k < list@.len() ==> list.json()->List_0[k] == Json::Int(list@[k] as int),
        pair.json() == Json::List(seq![Json::Int(pair.0 as int), Json::Text(pair.1@)]),
{
}

/// `encode` and `decode` of a type go by the JSON of its values: the text is that of
/// a JSON value which holds the same, and what is decoded holds what the text does.
pub proof fn law_codec<T: Codec>(
    value: T,
    text: String,
    result: Result<String, WsError>,
    s: &str,
    r: Result<T, WsError>,
)
    requires
        call_ensures(T::encode, (&value,), text),
        call_ensures(T::encode_result, (&value,), result),
        call_ensures(T::decode, (s,), r),
    ensures
        exists|v: Value| content(v) == value.json() && #[trigger] json_text(v) == text@,
        result is Ok,
        exists|v: Value| content(v) == value.json() && #[trigger] json_text(v) == result->Ok_0@,
        r matches Ok(x) ==> json_value(s@) is Some && content(json_value(s@)->0) == x.json(),
        r matches Err(e) ==> e is InvalidMessage,
        json_value(s@) is None ==> r is Err,
        json_value(s@) matches Some(v) ==> (content(v) == value.json() ==> r is Ok),
{
}

/// `JsonCodec` renders and reads values as `serde_json` does.
pub proof fn law_json_codec(
    value: Value,
    r: Result<String, WsError>,
    pretty: Result<String, WsError>,
    s: &str,
    read: Result<Value, WsError>,
)
    requires
        call_ensures(JsonCodec::encode, (&value,), r),
        call_ensures(JsonCodec::encode_pretty, (&value,), pretty),
        call_ensures(JsonCodec::decode, (s,), read),
    ensures
        r is Ok && r->Ok_0@ == json_text(value),
        pretty is Ok && pretty->Ok_0@ == json_pretty(value),
        json_value(s@) is Some ==> read is Ok && read->Ok_0 == json_value(s@)->0,
        json_value(s@) is None ==> read == Err::<Value, WsError>(WsError::InvalidMessage),
{
}

/// A binary frame is made of what its argument converts into.
pub proof fn law_binary_frames<T: Into<Bytes>>(data: T, r: Frame)
    requires
        call_ensures(Frame::binary::<T>, (data,), r),
    ensures
        r is Binary,
        call_ensures(T::into, (data,), r->Binary_0),
{
}

/// The JSON of a list holds that of each value in turn, and the JSON of a pair that of
/// both.
pub proof fn law_json_of_lists<A: Codec, B: Codec>(list: Vec<A>, pair: (A, B), k: int)
    ensures
        list.json() is List,
        list.json()->List_0.len() == list@.len(),
        0 <= k < list@.len() ==> list.json()->List_0[k] == list@[k].json(),
        pair.json() is List,
        pair.json()->List_0.len() == 2,
        pair.json()->List_0[0] == pair.0.json(),
        pair.json()->List_0[1] == pair.1.json(),
{
}

/// A value is turned into JSON that holds it, and read from any JSON that does.
pub proof fn law_json_values<T: Codec>(value: T, made: Value, given: Value, r: Option<T>)
    requires
        call_ensures(T::to_value, (&value,), made),
        call_ensures(T::from_value, (&given,), r),
    ensures
        content(made) == value.json(),
        content(given) == value.json() ==> r is Some,
        r matches Some(x) ==> x.json() == content(given),
{
}

} // verus!
