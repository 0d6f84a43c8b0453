use tg_admin::codec::{
    accept, parse_document, parse_literal, serialize_checked, serialize_document, value_text,
    value_text_checked, DataError, DataFormat,
};
use tg_admin::value::{get_json_type, JsonKind, JsonNumber, JsonValue};

fn txt(s: &str) -> JsonValue {
    JsonValue::String(s.to_string())
}

fn num(n: u64) -> JsonValue {
    JsonValue::Number(JsonNumber::PosInt(n))
}

fn sample() -> JsonValue {
    JsonValue::Object(vec![
        ("key".to_string(), txt("value")),
        ("number".to_string(), num(42)),
        ("array_of_numbers".to_string(), JsonValue::Array(vec![num(1), num(2), num(3)])),
        ("array_of_strings".to_string(), JsonValue::Array(vec![txt("a"), txt("b"), txt("c")])),
    ])
}

#[test]
fn kinds_have_their_names() {
    assert_eq!(get_json_type(&JsonValue::Null), "Null");
    assert_eq!(get_json_type(&JsonValue::Bool(true)), "Boolean");
    assert_eq!(get_json_type(&num(1)), "Number");
    assert_eq!(get_json_type(&txt("a")), "String");
    assert_eq!(get_json_type(&JsonValue::Array(vec![])), "Array");
    assert_eq!(get_json_type(&JsonValue::Object(vec![])), "Object");
    assert_eq!(JsonValue::Null.kind(), JsonKind::Null);
    assert_eq!(JsonKind::Boolean.as_str(), "Boolean");
}

#[test]
fn same_compares_whole_trees() {
    assert!(sample().same(&sample()));
    assert!(!sample().same(&JsonValue::Object(vec![])));
    assert!(!txt("a").same(&txt("b")));
    assert!(!num(1).same(&txt("1")));
    assert!(JsonValue::Array(vec![num(1), txt("x")]).same(&JsonValue::Array(vec![num(1), txt("x")])));
    assert!(!JsonValue::Array(vec![num(1), num(2)]).same(&JsonValue::Array(vec![num(2), num(1)])));
    assert!(!JsonValue::Array(vec![num(1)]).same(&JsonValue::Array(vec![num(1), num(1)])));
}

#[test]
fn an_integer_is_the_same_however_it_is_held() {
    let a = JsonNumber::PosInt(5);
    let b = JsonNumber::NegInt(5);
    assert!(a.same(&b));
    assert!(b.same(&a));
    assert!(!JsonNumber::NegInt(-5).same(&JsonNumber::PosInt(5)));
    assert!(!JsonNumber::PosInt(u64::MAX).same(&JsonNumber::NegInt(-1)));
    assert!(!JsonNumber::Float("5.0".to_string()).same(&JsonNumber::PosInt(5)));
    assert!(JsonNumber::Float("5.0".to_string()).same(&JsonNumber::Float("5.0".to_string())));
}

#[test]
fn clone_copies_the_whole_tree() {
    let copy = sample().clone();
    assert_eq!(copy, sample());
    assert!(copy.same(&sample()));
}

#[test]
fn literals_are_read_as_json() {
    assert_eq!(parse_literal("26"), Some(num(26)));
    assert_eq!(parse_literal("-3"), Some(JsonValue::Number(JsonNumber::NegInt(-3))));
    assert_eq!(parse_literal("1.5"), Some(JsonValue::Number(JsonNumber::Float("1.5".to_string()))));
    assert_eq!(parse_literal("\"c\""), Some(txt("c")));
    assert_eq!(parse_literal("null"), Some(JsonValue::Null));
    assert_eq!(parse_literal("true"), Some(JsonValue::Bool(true)));
    assert_eq!(parse_literal("[1, \"a\"]"), Some(JsonValue::Array(vec![num(1), txt("a")])));
    assert_eq!(
        parse_literal("{\"b\": 1, \"a\": {}}"),
        Some(JsonValue::Object(vec![
            ("b".to_string(), num(1)),
            ("a".to_string(), JsonValue::Object(vec![])),
        ]))
    );
}

#[test]
fn what_is_no_json_is_no_literal() {
    assert_eq!(parse_literal("not a number"), None);
    assert_eq!(parse_literal(""), None);
    assert_eq!(parse_literal("[1,]"), None);
    assert_eq!(parse_literal("{a: 1}"), None);
}

#[test]
fn values_are_shown_as_compact_json() {
    assert_eq!(value_text(&num(25)), "25");
    assert_eq!(value_text(&JsonValue::Number(JsonNumber::NegInt(-7))), "-7");
    assert_eq!(value_text(&JsonValue::Number(JsonNumber::Float("1.5".to_string()))), "1.5");
    assert_eq!(value_text(&txt("Alice")), "\"Alice\"");
    assert_eq!(value_text(&txt("a\"b\\c\n")), "\"a\\\"b\\\\c\\n\"");
    assert_eq!(value_text(&JsonValue::Null), "null");
    assert_eq!(value_text(&JsonValue::Bool(false)), "false");
    assert_eq!(
        value_text(&sample()),
        "{\"key\":\"value\",\"number\":42,\"array_of_numbers\":[1,2,3],\"array_of_strings\":[\"a\",\"b\",\"c\"]}"
    );
}

#[test]
fn values_are_shown_as_serde_json_shows_them() {
    let mut map = serde_json::Map::new();
    map.insert("key".to_string(), serde_json::Value::String("value".to_string()));
    map.insert("number".to_string(), serde_json::Value::from(42u64));
    map.insert(
        "array_of_numbers".to_string(),
        serde_json::Value::Array(vec![1u64.into(), 2u64.into(), 3u64.into()]),
    );
    map.insert(
        "array_of_strings".to_string(),
        serde_json::Value::Array(vec!["a".into(), "b".into(), "c".into()]),
    );
    let outside = serde_json::Value::Object(map);
    assert_eq!(value_text(&sample()), outside.to_string());
    let half = serde_json::Value::from(0.5f64);
    assert_eq!(value_text(&parse_literal("0.5").unwrap()), half.to_string());
}

#[test]
fn a_tree_with_a_key_twice_is_not_well_formed() {
    assert!(sample().is_well_formed());
    assert!(JsonValue::Null.is_well_formed());
    let twice = JsonValue::Object(vec![("k".to_string(), num(1)), ("k".to_string(), num(2))]);
    assert!(!twice.is_well_formed());
    assert!(!JsonValue::Array(vec![num(1), twice]).is_well_formed());
    let nested = JsonValue::Object(vec![(
        "a".to_string(),
        JsonValue::Object(vec![("k".to_string(), num(1)), ("k".to_string(), num(1))]),
    )]);
    assert!(!nested.is_well_formed());
    let apart = JsonValue::Object(vec![
        ("a".to_string(), JsonValue::Object(vec![("k".to_string(), num(1))])),
        ("b".to_string(), JsonValue::Object(vec![("k".to_string(), num(1))])),
    ]);
    assert!(apart.is_well_formed());
}

#[test]
fn a_decimal_text_that_is_no_number_is_not_well_formed() {
    assert!(JsonValue::Number(JsonNumber::Float("1.5".to_string())).is_well_formed());
    assert!(JsonValue::Number(JsonNumber::Float("-2e10".to_string())).is_well_formed());
    assert!(!JsonValue::Number(JsonNumber::Float("abc".to_string())).is_well_formed());
    assert!(!JsonValue::Number(JsonNumber::Float("".to_string())).is_well_formed());
    assert!(!JsonValue::Number(JsonNumber::Float("1e999".to_string())).is_well_formed());
    assert!(!JsonValue::Number(JsonNumber::Float("[1]".to_string())).is_well_formed());
    let inside = JsonValue::Array(vec![num(1), JsonValue::Number(JsonNumber::Float("x".to_string()))]);
    assert!(!inside.is_well_formed());
}

#[test]
fn what_a_document_cannot_hold_is_neither_shown_nor_written() {
    let bad = JsonValue::Number(JsonNumber::Float("abc".to_string()));
    assert_eq!(value_text_checked(&bad), None);
    assert_eq!(value_text_checked(&num(3)), Some("3".to_string()));
    assert_eq!(serialize_checked(&bad, DataFormat::Json), Err(DataError::SerializeError));
    assert_eq!(serialize_checked(&num(3), DataFormat::Json), Ok("3".to_string()));
    assert_eq!(accept(Some(bad)), None);
    assert_eq!(accept(Some(num(3))), Some(num(3)));
    assert_eq!(accept(None), None);
}

#[test]
fn literals_and_their_texts_round_trip() {
    for source in ["{\"a\":[1,2.5,-3,null,true,\"x\"],\"b\":{\"c\":\"d\"}}", "[]", "1e300", "\"\\u00e9\""] {
        let value = parse_literal(source).unwrap();
        let shown = value_text(&value);
        assert_eq!(parse_literal(&shown), Some(value));
    }
}

#[test]
fn formats_follow_the_extension() {
    assert_eq!(DataFormat::from_extension("json"), Some(DataFormat::Json));
    assert_eq!(DataFormat::from_extension("json5"), Some(DataFormat::Json));
    assert_eq!(DataFormat::from_extension("yaml"), Some(DataFormat::Yaml));
    assert_eq!(DataFormat::from_extension("yml"), Some(DataFormat::Yaml));
    assert_eq!(DataFormat::from_extension("toml"), Some(DataFormat::Toml));
    assert_eq!(DataFormat::from_extension(""), None);
    assert_eq!(DataFormat::from_extension("txt"), None);
    assert_eq!(DataFormat::from_extension("JSON"), None);
}

#[test]
fn json_documents_are_read_leniently() {
    let read = parse_document("{\n  // a comment\n  key: 'value',\n  \"number\": 42,\n}", DataFormat::Json);
    assert_eq!(
        read,
        Ok(JsonValue::Object(vec![("key".to_string(), txt("value")), ("number".to_string(), num(42))]))
    );
    assert_eq!(parse_document("{", DataFormat::Json), Err(DataError::ParseError));
}

#[test]
fn yaml_documents_are_read() {
    let read = parse_document("key: value\nnumber: 42\nlist:\n  - 1\n  - 2\n", DataFormat::Yaml);
    assert_eq!(
        read,
        Ok(JsonValue::Object(vec![
            ("key".to_string(), txt("value")),
            ("number".to_string(), num(42)),
            ("list".to_string(), JsonValue::Array(vec![num(1), num(2)])),
        ]))
    );
    assert_eq!(parse_document("key: [unclosed", DataFormat::Yaml), Err(DataError::ParseError));
}

#[test]
fn toml_documents_are_read() {
    let read = parse_document("key = \"value\"\nnumber = 42\n\n[table]\nflag = true\n", DataFormat::Toml);
    assert_eq!(
        read,
        Ok(JsonValue::Object(vec![
            ("key".to_string(), txt("value")),
            ("number".to_string(), num(42)),
            ("table".to_string(), JsonValue::Object(vec![("flag".to_string(), JsonValue::Bool(true))])),
        ]))
    );
    assert_eq!(parse_document("key = ", DataFormat::Toml), Err(DataError::ParseError));
}

#[test]
fn documents_are_written_in_their_format() {
    let value = JsonValue::Object(vec![("key".to_string(), txt("value")), ("number".to_string(), num(42))]);
    assert_eq!(serialize_document(&value, DataFormat::Json), Ok("{\"key\":\"value\",\"number\":42}".to_string()));
    assert_eq!(serialize_document(&value, DataFormat::Yaml), Ok("key: value\nnumber: 42\n".to_string()));
    assert_eq!(serialize_document(&value, DataFormat::Toml), Ok("key = \"value\"\nnumber = 42\n".to_string()));
}

#[test]
fn toml_cannot_hold_every_document() {
    assert_eq!(serialize_document(&num(1), DataFormat::Toml), Err(DataError::SerializeError));
    let with_null = JsonValue::Object(vec![("key".to_string(), JsonValue::Null)]);
    assert_eq!(serialize_document(&with_null, DataFormat::Toml), Err(DataError::SerializeError));
}

#[test]
fn written_documents_are_read_back() {
    for format in [DataFormat::Json, DataFormat::Yaml, DataFormat::Toml] {
        let written = serialize_document(&sample(), format).unwrap();
        assert_eq!(parse_document(&written, format), Ok(sample()));
    }
}

#[test]
fn errors_are_reported_in_words() {
    assert_eq!(DataError::UnsupportedFormat.message(), "Unsupported file format");
    assert_eq!(DataError::ParseError.message(), "Failed to read the file");
    assert_eq!(DataError::SerializeError.message(), "Failed to write the file");
}
