use govuk_notify::json::{to_json_bytes, JsonValue, Member};

fn json_string(v: &JsonValue) -> String {
    String::from_utf8(to_json_bytes(v)).unwrap()
}

#[test]
fn scalars_serialize_exactly() {
    assert_eq!(json_string(&JsonValue::Null), "null");
    assert_eq!(json_string(&JsonValue::Bool(true)), "true");
    assert_eq!(json_string(&JsonValue::Bool(false)), "false");
    assert_eq!(json_string(&JsonValue::Int(0)), "0");
    assert_eq!(json_string(&JsonValue::Int(1234567890)), "1234567890");
    assert_eq!(json_string(&JsonValue::Int(-42)), "-42");
    assert_eq!(json_string(&JsonValue::Int(i64::MAX)), "9223372036854775807");
    assert_eq!(
        json_string(&JsonValue::Int(i64::MIN)),
        "-9223372036854775808"
    );
}

#[test]
fn strings_escape_quotes_backslashes_and_controls() {
    assert_eq!(json_string(&JsonValue::Str(String::from(""))), "\"\"");
    assert_eq!(json_string(&JsonValue::Str(String::from("plain"))), "\"plain\"");
    assert_eq!(
        json_string(&JsonValue::Str(String::from("a\"b\\c"))),
        "\"a\\\"b\\\\c\""
    );
    assert_eq!(
        json_string(&JsonValue::Str(String::from("line\nbreak"))),
        "\"line\\u000abreak\""
    );
}

#[test]
fn non_ascii_characters_become_u_escapes() {
    assert_eq!(json_string(&JsonValue::Str(String::from("é"))), "\"\\u00e9\"");
    assert_eq!(
        json_string(&JsonValue::Str(String::from("😀"))),
        "\"\\ud83d\\ude00\""
    );
    let parsed: serde_json::Value =
        serde_json::from_str(&json_string(&JsonValue::Str(String::from("é😀")))).unwrap();
    assert_eq!(parsed, serde_json::Value::String(String::from("é😀")));
}

#[test]
fn arrays_and_objects_serialize_in_order() {
    let arr = JsonValue::Arr(vec![
        JsonValue::Int(1),
        JsonValue::Arr(vec![JsonValue::Bool(true), JsonValue::Null]),
        JsonValue::Str(String::from("x")),
    ]);
    assert_eq!(json_string(&arr), "[1,[true,null],\"x\"]");

    let obj = JsonValue::Obj(vec![
        Member {
            key: String::from("b"),
            value: JsonValue::Int(2),
        },
        Member {
            key: String::from("a"),
            value: JsonValue::Obj(vec![]),
        },
    ]);
    assert_eq!(json_string(&obj), "{\"b\":2,\"a\":{}}");
    assert_eq!(json_string(&JsonValue::Arr(vec![])), "[]");
}

#[test]
fn serializer_round_trips_through_a_parser() {
    let value = JsonValue::Obj(vec![
        Member {
            key: String::from("name"),
            value: JsonValue::Str(String::from("John \"Doe\"")),
        },
        Member {
            key: String::from("count"),
            value: JsonValue::Int(-7),
        },
        Member {
            key: String::from("tags"),
            value: JsonValue::Arr(vec![
                JsonValue::Str(String::from("a")),
                JsonValue::Str(String::from("b")),
            ]),
        },
    ]);
    let parsed: serde_json::Value = serde_json::from_slice(&to_json_bytes(&value)).unwrap();
    let mut expected = serde_json::Map::new();
    expected.insert(
        String::from("name"),
        serde_json::Value::String(String::from("John \"Doe\"")),
    );
    expected.insert(
        String::from("count"),
        serde_json::Value::Number(serde_json::Number::from(-7)),
    );
    expected.insert(
        String::from("tags"),
        serde_json::Value::Array(vec![
            serde_json::Value::String(String::from("a")),
            serde_json::Value::String(String::from("b")),
        ]),
    );
    assert_eq!(parsed, serde_json::Value::Object(expected));
}

#[test]
fn base64url_matches_known_vectors() {
    assert_eq!(govuk_notify::b64::base64url(b""), b"".to_vec());
    assert_eq!(govuk_notify::b64::base64url(b"h"), b"aA".to_vec());
    assert_eq!(govuk_notify::b64::base64url(b"hi"), b"aGk".to_vec());
    assert_eq!(govuk_notify::b64::base64url(b"hello"), b"aGVsbG8".to_vec());
    assert_eq!(govuk_notify::b64::base64url(b"foobar"), b"Zm9vYmFy".to_vec());
    assert_eq!(
        govuk_notify::b64::base64url(&[0xff, 0xff]),
        b"__8".to_vec()
    );
    assert_eq!(govuk_notify::b64::base64url(&[0xfb]), b"-w".to_vec());
}
