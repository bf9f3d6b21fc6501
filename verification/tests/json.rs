use sn0int::error::Error;
use sn0int::runtime::json::{json_decode, json_decode_stream, json_encode, JsonNumber, JsonValue};
use sn0int::runtime::State;

#[test]
fn decode_reads_an_object() {
    let mut state = State::new();
    let v = json_decode("{\"b\": [1, -2, 1.5], \"a\": \"x\"}", &mut state);
    let expected = JsonValue::Object(vec![
        ("a".to_string(), JsonValue::Text("x".to_string())),
        (
            "b".to_string(),
            JsonValue::Array(vec![
                JsonValue::Number(JsonNumber::Unsigned(1)),
                JsonValue::Number(JsonNumber::Signed(-2)),
                JsonValue::Number(JsonNumber::Decimal("1.5".to_string())),
            ]),
        ),
    ]);
    assert_eq!(v, Ok(expected));
    assert_eq!(state.last_error(), None);
}

#[test]
fn decode_records_the_failure() {
    let mut state = State::new();
    let v = json_decode("{\"a\": ", &mut state);
    assert_eq!(v, Err(Error::ScriptError));
    assert_eq!(state.last_error(), Some(Error::ScriptError));
    assert_eq!(state.take_error(), Some(Error::ScriptError));
    assert_eq!(state.last_error(), None);
}

#[test]
fn encode_writes_compact_text() {
    let mut state = State::new();
    let v = JsonValue::Object(vec![
        ("k".to_string(), JsonValue::Null),
        ("a".to_string(), JsonValue::Bool(true)),
        ("n".to_string(), JsonValue::Number(JsonNumber::Decimal("2.5".to_string()))),
    ]);
    assert_eq!(
        json_encode(&v, &mut state),
        Ok("{\"a\":true,\"k\":null,\"n\":2.5}".to_string())
    );
    assert_eq!(state.last_error(), None);
}

#[test]
fn encode_refuses_a_decimal_that_is_no_number() {
    let mut state = State::new();
    let v = JsonValue::Array(vec![JsonValue::Number(JsonNumber::Decimal("one".to_string()))]);
    assert_eq!(json_encode(&v, &mut state), Err(Error::ScriptError));
    assert_eq!(state.last_error(), Some(Error::ScriptError));
}

#[test]
fn decode_then_encode_keeps_the_value() {
    let mut state = State::new();
    let v = json_decode("[1,{\"x\":[true,null,\"y\"]},-7]", &mut state).unwrap();
    assert_eq!(
        json_encode(&v, &mut state),
        Ok("[1,{\"x\":[true,null,\"y\"]},-7]".to_string())
    );
}

#[test]
fn stream_reads_concatenated_values() {
    let mut state = State::new();
    let v = json_decode_stream("{\"k\": 3}1\"cool\"\"stuff\" 3{}  [0, 1, 2]  ", &mut state).unwrap();
    assert_eq!(v.len(), 7);
    assert_eq!(v[1], JsonValue::Number(JsonNumber::Unsigned(1)));
    assert_eq!(v[2], JsonValue::Text("cool".to_string()));
    assert_eq!(v[3], JsonValue::Text("stuff".to_string()));
    assert_eq!(v[5], JsonValue::Object(vec![]));
    assert_eq!(state.last_error(), None);
}

#[test]
fn stream_of_nothing_is_empty() {
    let mut state = State::new();
    assert_eq!(json_decode_stream("", &mut state), Ok(vec![]));
    assert_eq!(json_decode_stream(" \n ", &mut state), Ok(vec![]));
}

#[test]
fn stream_with_a_broken_part_fails() {
    let mut state = State::new();
    assert_eq!(json_decode_stream("[1] [2", &mut state), Err(Error::ScriptError));
    assert_eq!(state.last_error(), Some(Error::ScriptError));
    let mut state = State::new();
    assert_eq!(json_decode_stream("1x", &mut state), Err(Error::ScriptError));
}

#[test]
fn stream_keeps_text_beyond_ascii() {
    let mut state = State::new();
    let v = json_decode_stream("\"é\" \"日本\"", &mut state).unwrap();
    assert_eq!(v, vec![JsonValue::Text("é".to_string()), JsonValue::Text("日本".to_string())]);
}
