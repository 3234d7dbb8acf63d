//! JSON values of `serde_json`, and what they hold.
use serde_json::Value;
use vstd::prelude::*;

verus! {

/// The error of `serde_json`.
#[verifier::external_type_specification]
#[verifier::external_body]
pub struct ExJsonError(serde_json::Error);

/// A JSON value of `serde_json`.
#[verifier::external_type_specification]
#[verifier::external_body]
pub struct ExJsonValue(Value);

/// What a JSON value holds. Numbers that are no integers are not told apart.
pub ghost enum Json {
    Null,
    Bool(bool),
    Int(int),
    Fraction,
    Text(Seq<char>),
    List(Seq<Json>),
    Object(Map<Seq<char>, Json>),
}

/// What a value holds.
pub uninterp spec fn content(value: Value) -> Json;

/// What values hold.
pub open spec fn contents(values: Seq<Value>) -> Seq<Json> {
    Seq::new(values.len(), |i: int| content(values[i]))
}

/// Whether lists and objects are nested at most `levels` deep, with no number in
/// them that is no integer.
pub open spec fn shallow(json: Json, levels: nat) -> bool
    decreases levels,
{
    match json {
        Json::Fraction => false,
        Json::List(items) => levels > 0 && forall|i: int|
            0 <= i < items.len() ==> shallow(#[trigger] items[i], (levels - 1) as nat),
        Json::Object(fields) => levels > 0 && forall|key: Seq<char>|
            fields.contains_key(key) ==> shallow(#[trigger] fields[key], (levels - 1) as nat),
        _ => true,
    }
}

/// Whether a value can be read back from its text as it was: the parser goes down
/// so many levels of lists and objects.
pub open spec fn plain(json: Json) -> bool {
    shallow(json, 127)
}

/// What is no deeper than so many levels is no deeper than more.
pub proof fn lemma_shallow_widens(json: Json, levels: nat, more: nat)
    requires
        shallow(json, levels),
        levels <= more,
    ensures
        shallow(json, more),
    decreases levels,
{
    match json {
        Json::List(items) => {
            assert forall|i: int| 0 <= i < items.len() implies shallow(
                #[trigger] items[i],
                (more - 1) as nat,
            ) by {
                lemma_shallow_widens(items[i], (levels - 1) as nat, (more - 1) as nat);
            }
        },
        Json::Object(fields) => {
            assert forall|key: Seq<char>| fields.contains_key(key) implies shallow(
                #[trigger] fields[key],
                (more - 1) as nat,
            ) by {
                lemma_shallow_widens(fields[key], (levels - 1) as nat, (more - 1) as nat);
            }
        },
        _ => {},
    }
}

/// The compact JSON text of a value.
pub uninterp spec fn json_text(value: Value) -> Seq<char>;

/// The indented JSON text of a value.
pub uninterp spec fn json_pretty(value: Value) -> Seq<char>;

/// The value of a JSON text.
pub uninterp spec fn json_value(text: Seq<char>) -> Option<Value>;

/// What the value of a JSON text holds.
pub open spec fn read_back(text: Seq<char>) -> Option<Json> {
    match json_value(text) {
        Some(value) => Some(content(value)),
        None => None,
    }
}

/// `serde_json::to_string` renders a value; the text depends on the value alone.
/// This does not fail: a value has texts alone for keys, and the text goes to
/// memory. `serde_json::from_str` reads the text back as a value that holds the
/// same, where there is no number with a fraction, whose last digit may change,
/// and lists and objects are not nested deeper than it goes down.
#[verifier::external_body]
pub(crate) fn render(value: &Value) -> (r: Result<String, serde_json::Error>)
    ensures
        r is Ok,
        r matches Ok(text) ==> text@ == json_text(*value) && (plain(content(*value)) ==> read_back(
            text@,
        ) == Some(content(*value))),
{
    serde_json::to_string(value)
}

/// `serde_json::to_string_pretty` renders a value with indentation; of the text
/// holds what holds of that of `serde_json::to_string`.
#[verifier::external_body]
pub(crate) fn render_pretty(value: &Value) -> (r: Result<String, serde_json::Error>)
    ensures
        r is Ok,
        r matches Ok(text) ==> text@ == json_pretty(*value) && (plain(content(*value))
            ==> read_back(text@) == Some(content(*value))),
{
    serde_json::to_string_pretty(value)
}

/// `serde_json::from_str` parses a text; what it gives depends on the text alone.
#[verifier::external_body]
pub(crate) fn parse(text: &str) -> (r: Result<Value, serde_json::Error>)
    ensures
        match r {
            Ok(value) => json_value(text@) == Some(value),
            Err(_) => json_value(text@) is None,
        },
{
    serde_json::from_str(text)
}

/// `serde_json::Value::from` of a `u64` is that number.
#[verifier::external_body]
pub(crate) fn unsigned(n: u64) -> (r: Value)
    ensures
        content(r) == Json::Int(n as int),
{
    Value::from(n)
}

/// `serde_json::Value::from` of an `i64` is that number.
#[verifier::external_body]
pub(crate) fn signed(n: i64) -> (r: Value)
    ensures
        content(r) == Json::Int(n as int),
{
    Value::from(n)
}

/// `serde_json::Value::from` of a `String` is that text.
#[verifier::external_body]
pub(crate) fn text(s: String) -> (r: Value)
    ensures
        content(r) == Json::Text(s@),
{
    Value::from(s)
}

/// `serde_json::Value::from` of values is the list of them.
#[verifier::external_body]
pub(crate) fn list(values: Vec<Value>) -> (r: Value)
    ensures
        content(r) == Json::List(contents(values@)),
{
    Value::from(values)
}

/// `serde_json::Value::as_u64` gives an integer that is in the range of `u64`.
#[verifier::external_body]
pub(crate) fn as_unsigned(value: &Value) -> (r: Option<u64>)
    ensures
        match r {
            Some(n) => content(*value) == Json::Int(n as int),
            None => !(content(*value) matches Json::Int(n) && 0 <= n <= u64::MAX),
        },
{
    value.as_u64()
}

/// `serde_json::Value::as_i64` gives an integer that is in the range of `i64`.
#[verifier::external_body]
pub(crate) fn as_signed(value: &Value) -> (r: Option<i64>)
    ensures
        match r {
            Some(n) => content(*value) == Json::Int(n as int),
            None => !(content(*value) matches Json::Int(n) && i64::MIN <= n <= i64::MAX),
        },
{
    value.as_i64()
}

/// `serde_json::Value::as_str` gives a text.
#[verifier::external_body]
pub(crate) fn as_text(value: &Value) -> (r: Option<&str>)
    ensures
        match r {
            Some(s) => content(*value) == Json::Text(s@),
            None => !(content(*value) is Text),
        },
{
    value.as_str()
}

/// `serde_json::Value::as_array` gives the values of a list.
#[verifier::external_body]
pub(crate) fn as_list(value: &Value) -> (r: Option<&Vec<Value>>)
    ensures
        match r {
            Some(values) => content(*value) == Json::List(contents(values@)),
            None => !(content(*value) is List),
        },
{
    value.as_array()
}

} // verus!
