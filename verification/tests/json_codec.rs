//! The JSON codec: printing, parsing, and their round trip.

use cni_plugins::json::{
    json_as_u64, json_copy, json_eq, json_get, json_to_string, parse_json_str, JsonValue,
};

fn obj(members: Vec<(&str, JsonValue)>) -> JsonValue {
    JsonValue::Obj(members.into_iter().map(|(k, v)| (k.to_string(), v)).collect())
}

fn s(t: &str) -> JsonValue {
    JsonValue::Str(t.to_string())
}

fn n(t: &str) -> JsonValue {
    JsonValue::Num(t.to_string())
}

#[test]
fn prints_canonically() {
    let doc = obj(vec![
        ("a", JsonValue::Null),
        ("b", JsonValue::Bool(true)),
        ("c", n("42")),
        ("d", s("hi")),
        ("e", JsonValue::Arr(vec![n("1"), n("2")])),
    ]);
    assert_eq!(
        json_to_string(&doc),
        "{\"a\":null,\"b\":true,\"c\":42,\"d\":\"hi\",\"e\":[1,2]}"
    );
}

#[test]
fn parses_with_whitespace() {
    let doc = parse_json_str(" { \"x\" :\t[ 1 ,\n 2 ] , \"y\" : false } ").unwrap();
    let expect = obj(vec![
        ("x", JsonValue::Arr(vec![n("1"), n("2")])),
        ("y", JsonValue::Bool(false)),
    ]);
    assert!(json_eq(&doc, &expect));
}

#[test]
fn parses_escapes() {
    let doc = parse_json_str("\"a\\\"b\\\\c\\n\\u0041\"").unwrap();
    match &doc {
        JsonValue::Str(t) => assert_eq!(t, "a\"b\\c\nA"),
        _ => panic!("expected a string"),
    }
}

#[test]
fn rejects_malformed() {
    assert!(parse_json_str("").is_none());
    assert!(parse_json_str("{").is_none());
    assert!(parse_json_str("[1,]").is_none());
    assert!(parse_json_str("01").is_none());
    assert!(parse_json_str("\"unterminated").is_none());
    assert!(parse_json_str("{\"a\":1} trailing").is_none());
}

#[test]
fn round_trips_documents() {
    let texts = vec![
        "{\"cniVersion\":\"1.0.0\",\"name\":\"net\",\"type\":\"p\",\"extra\":[1,2,{\"q\":null}]}",
        "[true,false,null,\"x\",-12.5e3]",
        "{\"nested\":{\"deep\":{\"deeper\":[[]]}}}",
    ];
    for t in texts {
        let doc = parse_json_str(t).unwrap();
        let printed = json_to_string(&doc);
        let doc2 = parse_json_str(&printed).unwrap();
        assert!(json_eq(&doc, &doc2));
        // a canonical print is a fixed point
        assert_eq!(json_to_string(&doc2), printed);
    }
}

#[test]
fn escape_round_trip() {
    let doc = JsonValue::Str("quote \" backslash \\ newline \n tab \t end".to_string());
    let printed = json_to_string(&doc);
    let doc2 = parse_json_str(&printed).unwrap();
    assert!(json_eq(&doc, &doc2));
}

#[test]
fn object_lookup_takes_first() {
    let doc = parse_json_str("{\"k\":1,\"k\":2}").unwrap();
    let v = json_get(&doc, "k").unwrap();
    assert_eq!(json_as_u64(v), Some(1));
}

#[test]
fn copies_are_equal() {
    let doc = parse_json_str("{\"a\":[1,{\"b\":null}]}").unwrap();
    let copy = json_copy(&doc);
    assert!(json_eq(&doc, &copy));
}

#[test]
fn numbers_keep_their_lexeme() {
    let doc = parse_json_str("[1e10,0.5,-0]").unwrap();
    assert_eq!(json_to_string(&doc), "[1e10,0.5,-0]");
}
