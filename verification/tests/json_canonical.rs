use cf::json::{JsonNumber, JsonValue};
use cf::run_program_profile::canonical_json;

fn integer(n: i64) -> JsonValue {
    JsonValue::Number(JsonNumber { as_u64: if n >= 0 { Some(n as u64) } else { None }, as_i64: Some(n) })
}

fn obj(members: Vec<(&str, JsonValue)>) -> JsonValue {
    JsonValue::Object(members.into_iter().map(|(k, v)| (k.to_string(), v)).collect())
}

#[test]
fn canonical_json_sorts_object_keys_recursively() {
    let value = obj(vec![
        ("z", integer(1)),
        ("a", obj(vec![("y", integer(2)), ("b", JsonValue::Array(vec![integer(3), obj(vec![("q", integer(4)), ("c", integer(5))])]))])),
    ]);
    assert_eq!(canonical_json(&value).unwrap(), r#"{"a":{"b":[3,{"c":5,"q":4}],"y":2},"z":1}"#);
}

#[test]
fn canonical_json_writes_scalars_and_escapes_strings() {
    let value = JsonValue::Array(vec![
        JsonValue::Null,
        JsonValue::Bool(true),
        JsonValue::Bool(false),
        integer(-42),
        integer(i64::MIN),
        JsonValue::Number(JsonNumber { as_u64: Some(u64::MAX), as_i64: None }),
        JsonValue::Text("a\"b\\c\n".to_string()),
        JsonValue::Array(vec![]),
        obj(vec![]),
    ]);
    assert_eq!(
        canonical_json(&value).unwrap(),
        r#"[null,true,false,-42,-9223372036854775808,18446744073709551615,"a\"b\\c\n",[],{}]"#
    );
}

#[test]
fn canonical_json_orders_keys_by_bytes() {
    let value = obj(vec![("b", integer(1)), ("B", integer(2)), ("ab", integer(3)), ("a", integer(4)), ("é", integer(5)), ("_", integer(6))]);
    assert_eq!(canonical_json(&value).unwrap(), r#"{"B":2,"_":6,"a":4,"ab":3,"b":1,"é":5}"#);
}

#[test]
fn canonical_json_refuses_a_number_that_is_not_an_integer() {
    let value = obj(vec![("x", JsonValue::Array(vec![integer(1), JsonValue::Number(JsonNumber { as_u64: None, as_i64: None })]))]);
    let err = canonical_json(&value).unwrap_err();
    assert_eq!(err.reason, "canonical JSON holds integers only");
}

#[test]
fn canonical_json_escapes_control_characters() {
    let value = JsonValue::Text("\t\u{1}\u{1f}\u{8}\u{c}\r/é\u{7f}".to_string());
    assert_eq!(canonical_json(&value).unwrap(), "\"\\t\\u0001\\u001f\\b\\f\\r/é\u{7f}\"");
}
