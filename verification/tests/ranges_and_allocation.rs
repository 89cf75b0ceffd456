//! IP ranges and the allocator: free addresses, fresh and requested
//! allocations, full pools, and releases.

use cni_plugins::allocator::{
    add_reply, choose_ip, known_ips, kv_key, plan_del, ranges_from_json, reservation_body,
    KnownPoolEntry, Pool,
};
use cni_plugins::consul::delete_path;
use cni_plugins::ip::{Address, IpAddress};
use cni_plugins::json::{json_to_string, parse_json_str};
use cni_plugins::version::Version;

fn pool_v4() -> Vec<cni_plugins::iprange::IpRange> {
    let doc = parse_json_str("[{\"subnet\":\"10.0.0.0/29\",\"gateway\":\"10.0.0.1\"}]").unwrap();
    ranges_from_json(&doc).unwrap()
}

fn addr(t: &str) -> Address {
    Address::parse(t).unwrap()
}

fn picked(
    r: Result<cni_plugins::allocator::Allocation, cni_plugins::error::AppError>,
) -> cni_plugins::allocator::Allocation {
    match r {
        Ok(v) => v,
        Err(_) => panic!("expected an allocation"),
    }
}

#[test]
fn free_ips_skip_edges_and_gateway() {
    let pool = pool_v4();
    let free = pool[0].free_ips();
    let texts: Vec<String> = free.iter().map(|c| c.text.clone()).collect();
    // network .0 and broadcast .7 are withheld, .1 is the gateway
    assert_eq!(
        texts,
        vec!["10.0.0.2/29", "10.0.0.3/29", "10.0.0.4/29", "10.0.0.5/29", "10.0.0.6/29"]
    );
}

#[test]
fn free_ips_respect_bounds() {
    let doc = parse_json_str(
        "[{\"subnet\":\"10.0.10.0/24\",\"rangeStart\":\"10.0.10.100\",\"rangeEnd\":\"10.0.10.102\"}]",
    )
    .unwrap();
    let pool = ranges_from_json(&doc).unwrap();
    let free = pool[0].free_ips();
    let texts: Vec<String> = free.iter().map(|c| c.text.clone()).collect();
    assert_eq!(texts, vec!["10.0.10.100/24", "10.0.10.101/24", "10.0.10.102/24"]);
}

#[test]
fn fresh_allocation_takes_first_free() {
    let pool = pool_v4();
    let al = picked(choose_ip(&pool, "v4", &Vec::new(), &None));
    assert_eq!(al.address.text, "10.0.0.2/29");
    assert!(al.cas0);
    assert_eq!(al.gateway.as_ref().unwrap().text, "10.0.0.1");
    assert_eq!(kv_key("v4", "10.0.0.2"), "ipam/v4/10.0.0.2");
    assert_eq!(json_to_string(&reservation_body("abc1")), "{\"target\":\"abc1\"}");
    let reply = add_reply(&Version::numeric(1, 0, 0), &al, false);
    assert_eq!(reply.ips.len(), 1);
    assert_eq!(reply.ips[0].address.text, "10.0.0.2/29");
    assert_eq!(reply.ips[0].gateway.as_ref().unwrap().text, "10.0.0.1");
    assert!(reply.routes.is_empty());
}

#[test]
fn fresh_allocation_skips_taken() {
    let pool = pool_v4();
    let taken = vec![addr("10.0.0.2").value, addr("10.0.0.3").value];
    let al = picked(choose_ip(&pool, "v4", &taken, &None));
    assert_eq!(al.address.text, "10.0.0.4/29");
}

#[test]
fn requested_ip_inside_range() {
    let pool = pool_v4();
    let want = addr("10.0.0.5");
    let al = picked(choose_ip(&pool, "v4", &Vec::new(), &Some(want)));
    assert_eq!(al.address.text, "10.0.0.5/29");
    assert!(!al.cas0);
    assert_eq!(al.gateway.as_ref().unwrap().text, "10.0.0.1");
}

#[test]
fn requested_ip_out_of_pool() {
    let pool = pool_v4();
    let want = addr("10.1.0.5");
    let r = choose_ip(&pool, "v4", &Vec::new(), &Some(want));
    match r {
        Err(e) => {
            let reply = e.into_reply(Version::numeric(1, 0, 0));
            assert_eq!(reply.code, 124);
            assert_eq!(reply.msg, "IP not in pool");
            assert_eq!(reply.details, "v4 cannot contain 10.1.0.5");
        },
        _ => panic!("expected an error"),
    }
}

#[test]
fn pool_full() {
    let doc = parse_json_str("[{\"subnet\":\"10.0.0.0/30\",\"gateway\":\"10.0.0.1\"}]").unwrap();
    let pool = ranges_from_json(&doc).unwrap();
    // a /30 withholds nothing beyond its network and broadcast: only .1
    // and .2 are usable, and .1 is the gateway
    let taken = vec![
        addr("10.0.0.0").value,
        addr("10.0.0.2").value,
        addr("10.0.0.3").value,
    ];
    let r = choose_ip(&pool, "tight", &taken, &None);
    match r {
        Err(e) => {
            let reply = e.into_reply(Version::numeric(1, 0, 0));
            assert_eq!(reply.code, 122);
            assert_eq!(reply.msg, "Pool is full");
            assert_eq!(reply.details, "tight does not have any free IP space");
        },
        _ => panic!("expected an error"),
    }
}

#[test]
fn default_route_for_delegating_allocator() {
    let pool = pool_v4();
    let al = picked(choose_ip(&pool, "v4", &Vec::new(), &None));
    let reply = add_reply(&Version::numeric(1, 0, 0), &al, true);
    assert_eq!(reply.routes.len(), 1);
    assert_eq!(reply.routes[0].dst.text, "0.0.0.0/0");
    assert_eq!(reply.routes[0].gw.as_ref().unwrap().text, "10.0.0.1");
}

#[test]
fn del_releases_own_entries_only() {
    let known = vec![
        KnownPoolEntry { ip: addr("10.0.0.2"), target: "abc1".to_string(), index: 17 },
        KnownPoolEntry { ip: addr("10.0.0.3"), target: "zzz9".to_string(), index: 21 },
        KnownPoolEntry { ip: addr("10.0.0.4"), target: "abc1".to_string(), index: 30 },
    ];
    let plan = plan_del(&known, "abc1", "v4");
    assert_eq!(plan.len(), 2);
    assert_eq!(plan[0].key, "ipam/v4/10.0.0.2");
    assert_eq!(plan[0].index, 17);
    assert_eq!(plan[1].key, "ipam/v4/10.0.0.4");
    assert_eq!(plan[1].index, 30);
    // each release is its own conditional delete, at the recorded index
    assert_eq!(delete_path(&plan[0].key, plan[0].index), "v1/kv/ipam/v4/10.0.0.2?cas=17");
    assert_eq!(delete_path(&plan[1].key, plan[1].index), "v1/kv/ipam/v4/10.0.0.4?cas=30");
}

#[test]
fn known_ips_projects_addresses() {
    let known = vec![
        KnownPoolEntry { ip: addr("10.0.0.2"), target: "a".to_string(), index: 1 },
    ];
    let ips = known_ips(&known);
    assert_eq!(ips, vec![IpAddress::V4(0x0A000002)]);
}

#[test]
fn pool_selection_parses() {
    let doc = parse_json_str("{\"name\":\"v4\",\"requestedIp\":\"10.0.0.5\"}").unwrap();
    let p = Pool::from_json(&doc).unwrap();
    assert_eq!(p.name, "v4");
    assert_eq!(p.requested_ip.unwrap().text, "10.0.0.5");
    let doc2 = parse_json_str("{\"name\":\"v4\"}").unwrap();
    let p2 = Pool::from_json(&doc2).unwrap();
    assert!(p2.requested_ip.is_none());
}

#[test]
fn ipv6_ranges_allocate_lazily() {
    let doc = parse_json_str(
        "[{\"subnet\":\"fd00::/64\",\"rangeStart\":\"fd00::10\",\"rangeEnd\":\"fd00::12\"}]",
    )
    .unwrap();
    let pool = ranges_from_json(&doc).unwrap();
    let al = picked(choose_ip(&pool, "v6", &Vec::new(), &None));
    assert_eq!(al.address.text, "fd00::10/64");
    let taken = vec![al.address.ip];
    let al2 = picked(choose_ip(&pool, "v6", &taken, &None));
    assert_eq!(al2.address.text, "fd00::11/64");
}
