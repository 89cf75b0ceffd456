//! Host directives: neighbour and route entries, their documents, and
//! the matching of installed entries.

use cni_plugins::hostnet::{
    address_octets, append_host_entries, clamp_tries, MacOrDevice, Neigh, Routing,
};
use cni_plugins::ip::Address;
use cni_plugins::json::{json_eq, json_to_string, parse_json_str};
use cni_plugins::macaddr::MacAddr;
use cni_plugins::reply::SuccessReply;
use cni_plugins::Command;

fn mac_zero() -> MacAddr {
    MacAddr { b0: 0, b1: 0, b2: 0, b3: 0, b4: 0, b5: 0 }
}

#[test]
fn test_with_mac() {
    let s = Neigh {
        address: Address::parse("1.2.3.4").unwrap(),
        device: "eth0".to_string(),
        lladdr: Some(MacOrDevice::Mac(mac_zero())),
    };
    let j = parse_json_str(
        "{\"address\":\"1.2.3.4\",\"device\":\"eth0\",\"lladdr\":\"00:00:00:00:00:00\"}",
    )
    .unwrap();
    assert!(json_eq(&s.to_json(), &j));
    let parsed = Neigh::from_json(&j).unwrap();
    assert_eq!(parsed.address.text, "1.2.3.4");
    assert_eq!(parsed.device, "eth0");
    match parsed.lladdr {
        Some(MacOrDevice::Mac(m)) => assert_eq!(m, mac_zero()),
        _ => panic!("expected a hardware address"),
    }
}

#[test]
fn test_with_device() {
    let s = Neigh {
        address: Address::parse("1.2.3.4").unwrap(),
        device: "eth0".to_string(),
        lladdr: Some(MacOrDevice::Device("eth1".to_string())),
    };
    let j = parse_json_str(
        "{\"address\":\"1.2.3.4\",\"device\":\"eth0\",\"lladdr\":\"eth1\"}",
    )
    .unwrap();
    assert!(json_eq(&s.to_json(), &j));
    let parsed = Neigh::from_json(&j).unwrap();
    match parsed.lladdr {
        Some(MacOrDevice::Device(d)) => assert_eq!(d, "eth1"),
        _ => panic!("expected a device name"),
    }
}

#[test]
fn neigh_validation() {
    let without = Neigh {
        address: Address::parse("1.2.3.4").unwrap(),
        device: "eth0".to_string(),
        lladdr: None,
    };
    assert!(without.validate(Command::Del).is_ok());
    let without2 = Neigh {
        address: Address::parse("1.2.3.4").unwrap(),
        device: "eth0".to_string(),
        lladdr: None,
    };
    assert!(without2.validate(Command::Add).is_err());
}

#[test]
fn route_validation() {
    let bare = Routing {
        prefix: cni_plugins::ip::Cidr::parse("10.0.0.0/24").unwrap(),
        device: None,
        gateway: None,
    };
    assert!(bare.validate().is_err());
    let with_dev = Routing {
        prefix: cni_plugins::ip::Cidr::parse("10.0.0.0/24").unwrap(),
        device: Some("eth0".to_string()),
        gateway: None,
    };
    assert!(with_dev.validate().is_ok());
}

#[test]
fn neigh_matching() {
    let n = Neigh {
        address: Address::parse("10.0.0.9").unwrap(),
        device: "eth0".to_string(),
        lladdr: Some(MacOrDevice::Mac(mac_zero())),
    };
    let resolved = Some(mac_zero());
    let dest = Some(vec![10u8, 0, 0, 9]);
    let ll = Some(vec![0u8, 0, 0, 0, 0, 0]);
    assert!(n.matches_installed(&resolved, 4, 4, &ll, &dest));
    assert!(!n.matches_installed(&resolved, 4, 5, &ll, &dest));
    assert!(!n.matches_installed(&resolved, 4, 4, &Some(vec![1, 2, 3, 4, 5, 6]), &dest));
    assert!(!n.matches_installed(&resolved, 4, 4, &ll, &Some(vec![10, 0, 0, 8])));
    // a device-named lladdr is resolved to that device's address first,
    // and then filters like any other hardware address
    assert!(!n.matches_installed(&Some(MacAddr { b0: 1, b1: 2, b2: 3, b3: 4, b4: 5, b5: 6 }), 4, 4, &ll, &dest));
    assert!(n.matches_installed(&None, 4, 4, &ll, &dest));
}

#[test]
fn route_matching() {
    let r = Routing {
        prefix: cni_plugins::ip::Cidr::parse("10.1.0.0/16").unwrap(),
        device: Some("eth0".to_string()),
        gateway: None,
    };
    let dest = Some((vec![10u8, 1, 0, 0], 16u8));
    assert!(r.matches_installed(&Some(3), &Some(3), &dest, &None));
    assert!(!r.matches_installed(&Some(3), &None, &dest, &None));
    assert!(!r.matches_installed(&Some(3), &Some(3), &Some((vec![10, 2, 0, 0], 16)), &None));
    assert!(!r.matches_installed(&Some(3), &Some(3), &dest, &Some(vec![10, 1, 0, 1])));
}

#[test]
fn octets_of_addresses() {
    let v4 = Address::parse("192.168.1.254").unwrap();
    assert_eq!(address_octets(&v4.value), vec![192, 168, 1, 254]);
    let v6 = Address::parse("fd00::1").unwrap();
    let mut expect = vec![0u8; 16];
    expect[0] = 0xfd;
    expect[15] = 1;
    assert_eq!(address_octets(&v6.value), expect);
}

#[test]
fn retry_budget_is_clamped() {
    assert_eq!(clamp_tries(&None), 3);
    assert_eq!(clamp_tries(&Some(0)), 3);
    assert_eq!(clamp_tries(&Some(1)), 1);
    assert_eq!(clamp_tries(&Some(5)), 5);
    assert_eq!(clamp_tries(&Some(10)), 10);
    assert_eq!(clamp_tries(&Some(11)), 10);
    assert_eq!(clamp_tries(&Some(1000)), 10);
}

#[test]
fn applied_directives_amend_the_reply() {
    let prev = parse_json_str(
        "{\"cniVersion\":\"1.0.0\",\"hostNeighbours\":[\"old\"]}",
    )
    .unwrap();
    let mut reply = SuccessReply::from_json(&prev).unwrap();
    let entry = parse_json_str("{\"address\":\"1.2.3.4\",\"device\":\"eth0\"}").unwrap();
    assert!(append_host_entries(&mut reply, "hostNeighbours", vec![entry]).is_ok());
    let printed = json_to_string(&reply.to_json());
    assert!(printed.contains(
        "\"hostNeighbours\":[\"old\",{\"address\":\"1.2.3.4\",\"device\":\"eth0\"}]"
    ));

    // the list is created when absent
    let prev2 = parse_json_str("{\"cniVersion\":\"1.0.0\"}").unwrap();
    let mut reply2 = SuccessReply::from_json(&prev2).unwrap();
    let entry2 = parse_json_str("{\"prefix\":\"10.0.0.0/24\"}").unwrap();
    assert!(append_host_entries(&mut reply2, "hostRoutes", vec![entry2]).is_ok());
    let printed2 = json_to_string(&reply2.to_json());
    assert!(printed2.contains("\"hostRoutes\":[{\"prefix\":\"10.0.0.0/24\"}]"));

    // any other value under the key is refused
    let prev3 = parse_json_str("{\"cniVersion\":\"1.0.0\",\"hostRoutes\":7}").unwrap();
    let mut reply3 = SuccessReply::from_json(&prev3).unwrap();
    let r = append_host_entries(&mut reply3, "hostRoutes", Vec::new());
    assert!(r.is_err());
}

#[test]
fn mac_text_round_trip() {
    let m = MacAddr { b0: 0xde, b1: 0xad, b2: 0xbe, b3: 0xef, b4: 0x01, b5: 0x23 };
    assert_eq!(m.format(), "de:ad:be:ef:01:23");
    assert_eq!(MacAddr::parse("de:ad:be:ef:01:23"), Some(m));
    assert_eq!(MacAddr::parse("DE:AD:BE:EF:01:23"), Some(m));
    assert!(MacAddr::parse("de:ad:be:ef:01").is_none());
    assert!(MacAddr::parse("not a mac address!").is_none());
}
