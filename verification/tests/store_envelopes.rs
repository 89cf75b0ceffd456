//! KV envelopes: decoding values, and interpreting transaction replies.

use base64::Engine;

use cni_plugins::consul::{delete_path, ConsulPair, ConsulValue};
use cni_plugins::json::{json_as_u64, json_get, json_to_string, parse_json_str, JsonValue};

fn b64(text: &str) -> String {
    base64::engine::general_purpose::STANDARD.encode(text)
}

fn envelope(key: &str, value: Option<String>, modify_index: u64) -> JsonValue {
    let val = match value {
        Some(v) => format!("\"{}\"", v),
        None => "null".to_string(),
    };
    let text = format!(
        "{{\"LockIndex\":0,\"Key\":\"{}\",\"Flags\":0,\"Value\":{},\"CreateIndex\":5,\"ModifyIndex\":{}}}",
        key, val, modify_index
    );
    parse_json_str(&text).unwrap()
}

#[test]
fn envelope_parses() {
    let doc = envelope("ipam/v4", Some(b64("[1,2]")), 9);
    let p = ConsulPair::from_json(&doc).unwrap();
    assert_eq!(p.key, "ipam/v4");
    assert_eq!(p.modify_index, 9);
    assert!(!p.value.is_null());
}

#[test]
fn tombstones_are_null() {
    let doc = envelope("ipam/v4/", None, 3);
    let p = ConsulPair::from_json(&doc).unwrap();
    assert!(p.value.is_null());
    assert!(matches!(p.value, ConsulValue::Null));
    assert!(p.parsed_value().unwrap().is_none());
}

#[test]
fn values_decode_through_base64_and_json() {
    let doc = envelope("ipam/v4/10.0.0.2", Some(b64("{\"target\":\"abc1\"}")), 17);
    let p = ConsulPair::from_json(&doc).unwrap();
    let v = p.parsed_value().unwrap().unwrap();
    assert_eq!(json_to_string(&v), "{\"target\":\"abc1\"}");
    match json_get(&v, "target") {
        Some(t) => assert_eq!(json_to_string(t), "\"abc1\""),
        None => panic!("expected a target"),
    }
}

#[test]
fn bad_base64_is_an_error() {
    let doc = envelope("k", Some("!!!not-base64!!!".to_string()), 1);
    let p = ConsulPair::from_json(&doc).unwrap();
    assert!(p.parsed_value().is_err());
}

#[test]
fn undecodable_value_is_an_error() {
    let doc = envelope("k", Some(b64("{not json")), 1);
    let p = ConsulPair::from_json(&doc).unwrap();
    assert!(p.parsed_value().is_err());
}

#[test]
fn delete_paths_carry_the_index() {
    assert_eq!(delete_path("ipam/v4/10.0.0.2", 0), "v1/kv/ipam/v4/10.0.0.2?cas=0");
    assert_eq!(delete_path("ipam/v4/10.0.0.2", 12345), "v1/kv/ipam/v4/10.0.0.2?cas=12345");
}

#[test]
fn pool_definition_reads_from_envelope() {
    let pool_json = "[{\"subnet\":\"10.0.0.0/29\",\"gateway\":\"10.0.0.1\"}]";
    let doc = envelope("ipam/v4", Some(b64(pool_json)), 2);
    let p = ConsulPair::from_json(&doc).unwrap();
    let v = p.parsed_value().unwrap().unwrap();
    let ranges = cni_plugins::allocator::ranges_from_json(&v).unwrap();
    assert_eq!(ranges.len(), 1);
    assert_eq!(ranges[0].subnet.text, "10.0.0.0/29");
    assert_eq!(ranges[0].gateway.as_ref().unwrap().text, "10.0.0.1");
}

#[test]
fn indexes_read_back_as_numbers() {
    let doc = envelope("k", None, 12345);
    let p = ConsulPair::from_json(&doc).unwrap();
    assert_eq!(p.modify_index, 12345);
    let raw = parse_json_str("{\"n\":42}").unwrap();
    assert_eq!(json_as_u64(json_get(&raw, "n").unwrap()), Some(42));
}

#[test]
fn reservations_read_back_in_order() {
    let e1 = envelope("ipam/v4/10.0.0.2", Some(b64("{\"target\":\"abc1\"}")), 17);
    let e2 = envelope("ipam/v4/", None, 3);
    let e3 = envelope("ipam/v4/10.0.0.4", Some(b64("{\"target\":\"zzz9\"}")), 30);
    let pairs: Vec<cni_plugins::consul::ConsulPair> = vec![e1, e2, e3]
        .iter()
        .map(|d| ConsulPair::from_json(d).unwrap())
        .collect();
    let known = match cni_plugins::allocator::pool_known(&pairs) {
        Ok(v) => v,
        Err(_) => panic!("expected the entries"),
    };
    // the tombstone is dropped; each entry carries the key's address,
    // the document's target, and the envelope's ModifyIndex, in order
    assert_eq!(known.len(), 2);
    assert_eq!(known[0].ip.text, "10.0.0.2");
    assert_eq!(known[0].target, "abc1");
    assert_eq!(known[0].index, 17);
    assert_eq!(known[1].ip.text, "10.0.0.4");
    assert_eq!(known[1].target, "zzz9");
    assert_eq!(known[1].index, 30);

    let bad = envelope("ipam/v4/not-an-ip", Some(b64("{\"target\":\"x\"}")), 4);
    let bad_pairs: Vec<cni_plugins::consul::ConsulPair> =
        vec![ConsulPair::from_json(&bad).unwrap()];
    assert!(cni_plugins::allocator::pool_known(&bad_pairs).is_err());
}

#[test]
fn pool_definition_decode_and_classify() {
    let pool_json = "[{\"subnet\":\"10.0.0.0/29\",\"gateway\":\"10.0.0.1\"}]";
    let doc = envelope("ipam/v4", Some(b64(pool_json)), 2);
    let pairs: Vec<cni_plugins::consul::ConsulPair> =
        vec![ConsulPair::from_json(&doc).unwrap()];
    let ranges = match cni_plugins::allocator::pool_def(&pairs, "v4") {
        Ok(v) => v,
        Err(_) => panic!("expected the ranges"),
    };
    assert_eq!(ranges.len(), 1);
    assert_eq!(ranges[0].subnet.text, "10.0.0.0/29");

    let empty: Vec<cni_plugins::consul::ConsulPair> = Vec::new();
    match cni_plugins::allocator::pool_def(&empty, "v4") {
        Err(e) => {
            let reply = e.into_reply(cni_plugins::version::Version::numeric(1, 0, 0));
            assert_eq!(reply.code, 114);
            assert_eq!(reply.msg, "Missing resource");
        },
        _ => panic!("expected an error"),
    }
    let null_doc = envelope("ipam/v4", None, 2);
    let null_pairs: Vec<cni_plugins::consul::ConsulPair> =
        vec![ConsulPair::from_json(&null_doc).unwrap()];
    match cni_plugins::allocator::pool_def(&null_pairs, "v4") {
        Err(e) => {
            let reply = e.into_reply(cni_plugins::version::Version::numeric(1, 0, 0));
            assert_eq!(reply.code, 117);
            assert_eq!(reply.msg, "Invalid resource");
        },
        _ => panic!("expected an error"),
    }
}
