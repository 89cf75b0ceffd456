//! Network configurations: parsing, printing, and the round trip with
//! unknown keys preserved.

use cni_plugins::config::NetworkConfig;
use cni_plugins::json::{json_eq, json_to_string, parse_json_str};

#[test]
fn config_round_trip_preserves_unknown_keys() {
    let text = "{\"cniVersion\":\"1.0.0\",\"name\":\"mynet\",\"type\":\"ipam-core\",\"ipam\":{\"type\":\"inner\",\"consul_servers\":[\"http://kv:8500\"]},\"prevResult\":{\"ips\":[]},\"custom\":{\"deep\":[1,2,3]},\"another\":null}";
    let doc = parse_json_str(text).unwrap();
    let config = NetworkConfig::from_json(&doc).unwrap();
    assert_eq!(config.name, "mynet");
    assert_eq!(config.plugin, "ipam-core");
    assert_eq!(config.cni_version.format(), "1.0.0");
    let ipam = config.ipam.as_ref().unwrap();
    assert_eq!(ipam.plugin, "inner");
    assert_eq!(config.specific.len(), 2);
    assert_eq!(config.specific[0].0, "custom");
    assert_eq!(config.specific[1].0, "another");

    // serialising and re-parsing yields an equal value
    let printed = config.to_json();
    let config2 = NetworkConfig::from_json(&printed).unwrap();
    assert!(json_eq(&config.to_json(), &config2.to_json()));
    assert_eq!(config2.name, config.name);
    assert_eq!(config2.specific.len(), 2);
    let printed_text = json_to_string(&printed);
    let reparsed = parse_json_str(&printed_text).unwrap();
    assert!(json_eq(&printed, &reparsed));
}

#[test]
fn config_requires_name_and_type() {
    let doc = parse_json_str("{\"cniVersion\":\"1.0.0\",\"name\":\"n\"}").unwrap();
    assert!(NetworkConfig::from_json(&doc).is_none());
    let doc2 = parse_json_str("{\"cniVersion\":\"1.0.0\",\"type\":\"t\"}").unwrap();
    assert!(NetworkConfig::from_json(&doc2).is_none());
    let doc3 = parse_json_str("{\"name\":\"n\",\"type\":\"t\"}").unwrap();
    assert!(NetworkConfig::from_json(&doc3).is_none());
}

#[test]
fn config_defaults() {
    let doc = parse_json_str("{\"cniVersion\":\"0.4.0\",\"name\":\"n\",\"type\":\"t\"}").unwrap();
    let c = NetworkConfig::from_json(&doc).unwrap();
    assert!(!c.ip_masq);
    assert!(c.args.is_empty());
    assert!(c.ipam.is_none());
    assert!(c.prev_result.is_none());
    assert!(c.specific.is_empty());
}

#[test]
fn config_masq_and_args() {
    let doc = parse_json_str(
        "{\"cniVersion\":\"1.0.0\",\"name\":\"n\",\"type\":\"t\",\"ipMasq\":true,\"args\":{\"k\":\"v\"}}",
    )
    .unwrap();
    let c = NetworkConfig::from_json(&doc).unwrap();
    assert!(c.ip_masq);
    assert_eq!(c.args.len(), 1);
    assert_eq!(c.args[0].0, "k");
    // ipMasq is always printed; args only when non-empty
    let printed = json_to_string(&c.to_json());
    assert!(printed.contains("\"ipMasq\":true"));
    assert!(printed.contains("\"args\":{\"k\":\"v\"}"));
}
