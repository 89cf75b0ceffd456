//! Addresses, networks, and reply documents.

use cni_plugins::ip::{Address, Cidr, IpAddress};
use cni_plugins::iprange::cidr_contains_exec;
use cni_plugins::json::{json_eq, json_to_string, parse_json_str};
use cni_plugins::reply::{ErrorReply, IpamSuccessReply, ReplyPayload, SuccessReply};
use cni_plugins::version::Version;

#[test]
fn ipv4_addresses_parse_and_print() {
    let a = Address::parse("192.168.1.254").unwrap();
    assert_eq!(a.value, IpAddress::V4(0xC0A801FE));
    assert_eq!(a.text, "192.168.1.254");
    assert!(Address::parse("192.168.1").is_none());
    assert!(Address::parse("192.168.1.256").is_none());
    assert!(Address::parse("192.168.01.1").is_none());
    assert!(Address::parse("10.0.0.1/24").is_none());
}

#[test]
fn ipv6_addresses_parse_and_print() {
    let a = Address::parse("fd00::1").unwrap();
    match a.value {
        IpAddress::V6(v) => assert_eq!(v, 0xfd00_0000_0000_0000_0000_0000_0000_0001),
        _ => panic!("expected an IPv6 address"),
    }
    let b = Address::from_value(a.value);
    assert_eq!(b.text, "fd00::1");
    assert!(Address::parse("fd00::1/64").is_none());
    assert!(Address::parse("nonsense::::").is_none());
}

#[test]
fn cidr_networks() {
    let c = Cidr::parse("10.0.0.0/29").unwrap();
    assert_eq!(c.prefix, 29);
    assert_eq!(c.ip, IpAddress::V4(0x0A000000));
    assert!(Cidr::parse("10.0.0.0/33").is_none());
    assert!(Cidr::parse("10.0.0.0").is_none());
    assert!(Cidr::parse("10.0.0.0/09").is_none());
    let c6 = Cidr::parse("fd00::/64").unwrap();
    assert_eq!(c6.prefix, 64);
}

#[test]
fn containment() {
    let c = Cidr::parse("10.0.0.0/29").unwrap();
    assert!(cidr_contains_exec(&c, &Address::parse("10.0.0.5").unwrap().value));
    assert!(!cidr_contains_exec(&c, &Address::parse("10.0.0.8").unwrap().value));
    assert!(!cidr_contains_exec(&c, &Address::parse("fd00::1").unwrap().value));
}

#[test]
fn success_reply_round_trip() {
    let text = "{\"cniVersion\":\"1.0.0\",\"interfaces\":[{\"name\":\"eth0\",\"mac\":\"de:ad:be:ef:01:23\",\"sandbox\":\"/ns\"}],\"ips\":[{\"address\":\"10.0.0.2/29\",\"gateway\":\"10.0.0.1\",\"interface\":0}],\"routes\":[{\"dst\":\"0.0.0.0/0\",\"gw\":\"10.0.0.1\"}],\"dns\":{\"nameservers\":[\"8.8.8.8\"]},\"pools\":[{\"name\":\"v4\"}]}";
    let doc = parse_json_str(text).unwrap();
    let reply = SuccessReply::from_json(&doc).unwrap();
    assert_eq!(reply.interfaces.len(), 1);
    assert_eq!(reply.ips.len(), 1);
    assert_eq!(reply.ips[0].address.text, "10.0.0.2/29");
    assert_eq!(reply.ips[0].interface, Some(0));
    assert_eq!(reply.routes.len(), 1);
    assert_eq!(reply.specific.len(), 1);
    assert_eq!(reply.specific[0].0, "pools");
    let printed = reply.to_json();
    let reply2 = SuccessReply::from_json(&printed).unwrap();
    assert!(json_eq(&reply.to_json(), &reply2.to_json()));
    assert_eq!(reply.code(), 0);
}

#[test]
fn into_ipam_requires_no_interfaces() {
    let doc = parse_json_str("{\"cniVersion\":\"1.0.0\",\"ips\":[]}").unwrap();
    let reply = SuccessReply::from_json(&doc).unwrap();
    assert!(reply.into_ipam().is_some());
    let doc2 = parse_json_str("{\"cniVersion\":\"1.0.0\",\"interfaces\":[{\"name\":\"eth0\",\"sandbox\":\"\"}]}")
    .unwrap();
    let reply2 = SuccessReply::from_json(&doc2).unwrap();
    assert!(reply2.into_ipam().is_none());
}

#[test]
fn ipam_reply_document() {
    let doc = parse_json_str(
        "{\"cniVersion\":\"0.4.0\",\"ips\":[{\"address\":\"10.0.0.5/29\"}]}",
    )
    .unwrap();
    let reply = IpamSuccessReply::from_json(&doc).unwrap();
    assert_eq!(reply.ips.len(), 1);
    assert!(reply.ips[0].gateway.is_none());
    let printed = json_to_string(&reply.to_json());
    assert!(printed.starts_with("{\"cniVersion\":\"0.4.0\""));
    assert!(printed.contains("\"ips\":[{\"address\":\"10.0.0.5/29\"}]"));
}

#[test]
fn error_reply_document() {
    let e = ErrorReply {
        cni_version: Version::numeric(1, 0, 0),
        code: 1,
        msg: "Incompatible CNI version".to_string(),
        details: "plugin does not understand CNI version: 0.3.0".to_string(),
    };
    assert_eq!(e.code(), 1);
    let printed = json_to_string(&e.to_json());
    assert_eq!(
        printed,
        "{\"cniVersion\":\"1.0.0\",\"code\":1,\"msg\":\"Incompatible CNI version\",\"details\":\"plugin does not understand CNI version: 0.3.0\"}"
    );
}
