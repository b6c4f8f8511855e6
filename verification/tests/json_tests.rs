use rust_agent::json::JsonValue;
use rust_agent::numbers::{u64_of_digits, u64_to_string};
use rust_agent::parse::parse_json;
use rust_agent::ser::{to_json_pretty, to_json_text};

fn roundtrip(text: &str) -> String {
    let v = parse_json(text).expect("should parse");
    to_json_text(&v)
}

#[test]
fn parses_scalars() {
    assert_eq!(roundtrip("null"), "null");
    assert_eq!(roundtrip("true"), "true");
    assert_eq!(roundtrip("false"), "false");
    assert_eq!(roundtrip("0"), "0");
    assert_eq!(roundtrip("-12.5e3"), "-12.5e3");
    assert_eq!(roundtrip("\"hi\""), "\"hi\"");
}

#[test]
fn parses_with_whitespace() {
    assert_eq!(roundtrip("  {\n  \"a\" : [ 1 , 2 ] \n}  "), "{\"a\":[1,2]}");
}

#[test]
fn parses_escapes() {
    assert_eq!(roundtrip("\"a\\nb\""), "\"a\\nb\"");
    assert_eq!(roundtrip("\"q\\\"q\""), "\"q\\\"q\"");
    // \u0041 is 'A'; it reads back as the plain character
    assert_eq!(roundtrip("\"\\u0041\""), "\"A\"");
    // a surrogate pair denotes one character outside the basic plane
    assert_eq!(roundtrip("\"\\uD834\\uDD1E\""), "\"\u{1D11E}\"");
    // control characters are re-escaped
    assert_eq!(roundtrip("\"\\u0001\""), "\"\\u0001\"");
}

#[test]
fn rejects_malformed() {
    assert!(parse_json("").is_none());
    assert!(parse_json("{").is_none());
    assert!(parse_json("[1,]").is_none());
    assert!(parse_json("01").is_none());
    assert!(parse_json("\"unterminated").is_none());
    assert!(parse_json("nul").is_none());
    assert!(parse_json("{\"a\":1} trailing").is_none());
    assert!(parse_json("\"lone \\uD834 surrogate\"").is_none());
}

#[test]
fn rejects_absurd_nesting() {
    let mut deep = String::new();
    for _ in 0..300 {
        deep.push('[');
    }
    for _ in 0..300 {
        deep.push(']');
    }
    assert!(parse_json(&deep).is_none());
    let mut ok = String::new();
    for _ in 0..50 {
        ok.push('[');
    }
    for _ in 0..50 {
        ok.push(']');
    }
    assert!(parse_json(&ok).is_some());
}

#[test]
fn object_lookup_is_first_match() {
    let v = parse_json("{\"a\":1,\"a\":2}").expect("should parse");
    let a = v.get("a").expect("member should exist");
    assert_eq!(to_json_text(a), "1");
}

#[test]
fn pretty_prints_objects() {
    let v = parse_json("{\"a\":[1,2],\"b\":\"x\"}").expect("should parse");
    assert_eq!(
        to_json_pretty(&v),
        "{\n  \"a\": [\n    1,\n    2\n  ],\n  \"b\": \"x\"\n}"
    );
    let empty = parse_json("{}").expect("should parse");
    assert_eq!(to_json_pretty(&empty), "{}");
}

#[test]
fn serializes_text_escapes() {
    let v = JsonValue::Text(String::from("a\"b\\c\nd"));
    assert_eq!(to_json_text(&v), "\"a\\\"b\\\\c\\nd\"");
}

#[test]
fn decimal_text_roundtrips() {
    assert_eq!(u64_to_string(0), "0");
    assert_eq!(u64_to_string(907), "907");
    assert_eq!(u64_to_string(u64::MAX), "18446744073709551615");
    assert_eq!(u64_of_digits("907"), Some(907));
    assert_eq!(u64_of_digits("0"), Some(0));
    assert_eq!(u64_of_digits("18446744073709551615"), Some(u64::MAX));
    assert_eq!(u64_of_digits("18446744073709551616"), None);
    assert_eq!(u64_of_digits("007"), None);
    assert_eq!(u64_of_digits(""), None);
    assert_eq!(u64_of_digits("-3"), None);
}
