//! The JSON codec of the host interface. Texts are read and written by
//! `serde_json`; what a script sees is a [`JsonValue`].

use crate::error::Error;
use crate::runtime::State;
use vstd::prelude::*;
use vstd::slice::slice_subrange;
use vstd::string::StringSliceAdditionalSpecFns;

verus! {

/// A JSON number. One with a fraction or an exponent is held as its text.
#[derive(Clone, PartialEq, Eq, Debug)]
pub enum JsonNumber {
    Unsigned(u64),
    Signed(i64),
    Decimal(String),
}

/// A JSON value. The members of an object are held in the order of their keys.
#[derive(PartialEq, Eq, Debug)]
pub enum JsonValue {
    Null,
    Bool(bool),
    Number(JsonNumber),
    Text(String),
    Array(Vec<JsonValue>),
    Object(Vec<(String, JsonValue)>),
}

/// What stands at the front of a stream of JSON values.
#[derive(PartialEq, Eq, Debug)]
pub enum Chunk {
    /// A value, and the number of bytes up to its end.
    Item(JsonValue, usize),
    /// Nothing but white space is left.
    End,
    /// The front of the stream is no JSON value.
    Invalid,
}

/// `serde_json::Value`, of which nothing is known but that it is a type.
#[verifier::external_type_specification]
#[verifier::external_body]
pub struct ExJsonValue(serde_json::Value);

/// `serde_json::Number`, of which nothing is known but that it is a type.
#[verifier::external_type_specification]
#[verifier::external_body]
pub struct ExJsonNumber(serde_json::Number);

/// The value that `serde_json::from_str` reads from `text`, or `None` where
/// it reports an error.
pub uninterp spec fn json_parse(text: Seq<char>) -> Option<JsonValue>;

/// The text that `serde_json::to_string` writes for `value`, or `None` where
/// a decimal of `value` is no JSON number.
pub uninterp spec fn json_text(value: JsonValue) -> Option<Seq<char>>;

/// What the first `next` of a `serde_json::StreamDeserializer` over `bytes`
/// yields, with the stream's byte offset after it.
pub uninterp spec fn json_chunk(bytes: Seq<u8>) -> Chunk;

/// Converts a `serde_json::Number`: an integer by `as_u64` or `as_i64`,
/// anything else as the text that its `to_string` gives. Nothing is claimed
/// of the result.
#[verifier::external_body]
fn number_from(n: &serde_json::Number) -> JsonNumber {
    match (n.as_u64(), n.as_i64()) {
        (Some(u), _) => JsonNumber::Unsigned(u),
        (None, Some(i)) => JsonNumber::Signed(i),
        (None, None) => JsonNumber::Decimal(n.to_string()),
    }
}

/// Converts a `serde_json::Value`, variant by variant. Nothing is claimed of
/// the result.
#[verifier::external_body]
fn value_from(v: serde_json::Value) -> JsonValue {
    match v {
        serde_json::Value::Null => JsonValue::Null,
        serde_json::Value::Bool(b) => JsonValue::Bool(b),
        serde_json::Value::Number(n) => JsonValue::Number(number_from(&n)),
        serde_json::Value::String(s) => JsonValue::Text(s),
        serde_json::Value::Array(a) => JsonValue::Array(a.into_iter().map(value_from).collect()),
        serde_json::Value::Object(m) => JsonValue::Object(
            m.into_iter().map(|(k, v)| (k, value_from(v))).collect(),
        ),
    }
}

/// Converts to a `serde_json::Number`: an integer by `From`, a decimal by
/// `str::parse`, which refuses a text that is no JSON number. Nothing is
/// claimed of the result.
#[verifier::external_body]
fn number_to(n: &JsonNumber) -> Option<serde_json::Number> {
    match n {
        JsonNumber::Unsigned(u) => Some(serde_json::Number::from(*u)),
        JsonNumber::Signed(i) => Some(serde_json::Number::from(*i)),
        JsonNumber::Decimal(text) => text.parse::<serde_json::Number>().ok(),
    }
}

/// Converts to a `serde_json::Value`, variant by variant. Nothing is claimed
/// of the result.
#[verifier::external_body]
fn value_to(v: &JsonValue) -> Option<serde_json::Value> {
    Some(match v {
        JsonValue::Null => serde_json::Value::Null,
        JsonValue::Bool(b) => serde_json::Value::Bool(*b),
        JsonValue::Number(n) => serde_json::Value::Number(number_to(n)?),
        JsonValue::Text(s) => serde_json::Value::String(s.clone()),
        JsonValue::Array(a) => serde_json::Value::Array(
            a.iter().map(value_to).collect::<Option<_>>()?,
        ),
        JsonValue::Object(m) => serde_json::Value::Object(
            m.iter().map(|(k, v)| Some((k.clone(), value_to(v)?))).collect::<Option<_>>()?,
        ),
    })
}

/// `serde_json::from_str`: the whole of `text` read as one JSON value. The
/// contract names the outcome and claims nothing else of it.
#[verifier::external_body]
fn parse(text: &str) -> (r: Option<JsonValue>)
    ensures
        r == json_parse(text@),
{
    serde_json::from_str::<serde_json::Value>(text).ok().map(value_from)
}

/// `serde_json::to_string`: `value` written as JSON text. The contract names
/// the outcome and claims nothing else of it.
#[verifier::external_body]
fn print(value: &JsonValue) -> (r: Option<String>)
    ensures
        r is Some == json_text(*value) is Some,
        r matches Some(s) ==> json_text(*value) == Some(s@),
{
    serde_json::to_string(&value_to(value)?).ok()
}

/// One `next` of a `serde_json::StreamDeserializer` over `bytes`, then its
/// `byte_offset`. The contract names the outcome; of a value it claims that
/// the offset lies behind at least one byte and within `bytes`, since the
/// offset is the place up to which the value was read.
#[verifier::external_body]
fn read_chunk(bytes: &[u8]) -> (r: Chunk)
    ensures
        r == json_chunk(bytes@),
        r matches Chunk::Item(_, n) ==> 0 < n <= bytes@.len(),
{
    let mut stream = serde_json::Deserializer::from_slice(bytes).into_iter::<serde_json::Value>();
    match stream.next() {
        None => Chunk::End,
        Some(Err(_)) => Chunk::Invalid,
        Some(Ok(v)) => Chunk::Item(value_from(v), stream.byte_offset()),
    }
}

/// What a host function returns for a codec outcome: the value, or
/// `ScriptError` where the codec gave none.
pub open spec fn outcome<T>(found: Option<T>) -> Result<T, Error> {
    match found {
        Some(v) => Ok(v),
        None => Err(Error::ScriptError),
    }
}

/// Turns a codec outcome into the result of a host function.
pub fn settle<T>(found: Option<T>) -> (r: Result<T, Error>)
    ensures
        r == outcome(found),
{
    match found {
        Some(v) => Ok(v),
        None => Err(Error::ScriptError),
    }
}

/// The values of a stream of concatenated JSON values, in order; `None` where
/// some part of the stream is no JSON value.
pub open spec fn stream_values(bytes: Seq<u8>) -> Option<Seq<JsonValue>>
    decreases bytes.len(),
{
    match json_chunk(bytes) {
        Chunk::End => Some(Seq::empty()),
        Chunk::Invalid => None,
        Chunk::Item(v, n) => if 0 < n <= bytes.len() {
            match stream_values(bytes.skip(n as int)) {
                Some(rest) => Some(seq![v] + rest),
                None => None,
            }
        } else {
            None
        },
    }
}

/// Reads every value of a stream of concatenated JSON values.
pub fn decode_stream(bytes: &[u8]) -> (r: Option<Vec<JsonValue>>)
    ensures
        r is Some == stream_values(bytes@) is Some,
        r matches Some(v) ==> stream_values(bytes@) == Some(v@),
{
    let mut out: Vec<JsonValue> = Vec::new();
    let mut at: usize = 0;
    proof {
        assert(bytes@.skip(0) == bytes@);
        if let Some(all) = stream_values(bytes@) {
            assert(Seq::<JsonValue>::empty() + all == all);
        }
    }
    loop
        invariant
            at <= bytes@.len(),
            stream_values(bytes@) == (match stream_values(bytes@.skip(at as int)) {
                Some(rest) => Some(out@ + rest),
                None => None,
            }),
        decreases bytes@.len() - at,
    {
        let rest = slice_subrange(bytes, at, bytes.len());
        assert(rest@ == bytes@.skip(at as int));
        match read_chunk(rest) {
            Chunk::End => {
                assert(out@ + Seq::<JsonValue>::empty() == out@);
                return Some(out);
            },
            Chunk::Invalid => {
                return None;
            },
            Chunk::Item(v, n) => {
                proof {
                    assert(bytes@.skip(at as int).skip(n as int) == bytes@.skip(at + n));
                    let tail = stream_values(bytes@.skip(at + n));
                    if let Some(t) = tail {
                        assert(out@ + (seq![v] + t) == out@.push(v) + t);
                    }
                }
                out.push(v);
                at = at + n;
            },
        }
    }
}

/// Host function `json_decode`: reads `x` as one JSON value. A text that is
/// no JSON value gives `ScriptError`, which is recorded in the error slot.
pub fn json_decode(x: &str, state: &mut State) -> (r: Result<JsonValue, Error>)
    ensures
        r == outcome(json_parse(x@)),
        *final(state) == old(state).after(r),
{
    state.checked(settle(parse(x)))
}

/// Host function `json_encode`: writes `x` as JSON text. A value with a
/// decimal that is no JSON number gives `ScriptError`, which is recorded in
/// the error slot.
pub fn json_encode(x: &JsonValue, state: &mut State) -> (r: Result<String, Error>)
    ensures
        r is Ok == json_text(*x) is Some,
        r matches Ok(s) ==> json_text(*x) == Some(s@),
        r matches Err(e) ==> e == Error::ScriptError,
        *final(state) == old(state).after(r),
{
    state.checked(settle(print(x)))
}

/// Host function `json_decode_stream`: reads `x` as a sequence of
/// concatenated JSON values. A stream with a part that is no JSON value
/// gives `ScriptError`, which is recorded in the error slot.
pub fn json_decode_stream(x: &str, state: &mut State) -> (r: Result<Vec<JsonValue>, Error>)
    ensures
        r is Ok == stream_values(x.spec_bytes()) is Some,
        r matches Ok(v) ==> stream_values(x.spec_bytes()) == Some(v@),
        r matches Err(e) ==> e == Error::ScriptError,
        *final(state) == old(state).after(r),
{
    state.checked(settle(decode_stream(x.as_bytes())))
}

} // verus!
