//! Delegation chains and the pool selector.

use cni_plugins::delegation::{delegate_decision, multi_error, rollback_order, DelegateOutcome};
use cni_plugins::json::{json_to_string, parse_json_str};
use cni_plugins::selector::{selector_reply, Alloc};
use cni_plugins::version::Version;
use cni_plugins::Command;

#[test]
fn empty_output_fails_and_rolls_back() {
    let outcome = DelegateOutcome::Finished { success: true, stdout: String::new() };
    let d = delegate_decision("inner", Command::Add, &outcome);
    assert!(d.reply.is_err());
    assert!(d.rollback);
    let d2 = delegate_decision("inner", Command::Del, &outcome);
    assert!(d2.reply.is_err());
    assert!(!d2.rollback);
}

#[test]
fn failing_exit_rolls_back_adds() {
    let outcome = DelegateOutcome::Finished {
        success: false,
        stdout: "something broke".to_string(),
    };
    let d = delegate_decision("inner", Command::Add, &outcome);
    assert!(d.reply.is_err());
    assert!(d.rollback);
}

#[test]
fn successful_output_is_decoded() {
    let outcome = DelegateOutcome::Finished {
        success: true,
        stdout: "{\"cniVersion\":\"1.0.0\",\"ips\":[]}".to_string(),
    };
    let d = delegate_decision("inner", Command::Add, &outcome);
    let doc = match d.reply {
        Ok(doc) => doc,
        Err(_) => panic!("expected a decoded reply"),
    };
    assert_eq!(json_to_string(&doc), "{\"cniVersion\":\"1.0.0\",\"ips\":[]}");
    assert!(!d.rollback);
}

#[test]
fn spawn_failure_reports_the_plugin() {
    let outcome = DelegateOutcome::Failed("no such file".to_string());
    let d = delegate_decision("inner", Command::Add, &outcome);
    match d.reply {
        Err(e) => {
            let reply = e.into_reply(Version::numeric(1, 0, 0));
            assert_eq!(reply.code, 5);
            assert_eq!(reply.msg, "Delegated");
            assert!(reply.details.contains("inner"));
        },
        _ => panic!("expected an error"),
    }
}

#[test]
fn rollback_reverses_the_chain() {
    let done = vec!["first".to_string(), "second".to_string(), "third".to_string()];
    let plan = rollback_order(&done);
    assert_eq!(plan, vec!["third", "second", "first"]);
}

#[test]
fn multi_error_joins_names() {
    let plugins = vec!["a".to_string(), "b".to_string()];
    let details = vec!["one".to_string(), "two".to_string()];
    let e = multi_error(&plugins, &details);
    let reply = e.into_reply(Version::numeric(1, 0, 0));
    assert_eq!(reply.code, 5);
    assert!(reply.details.contains("one"));
    assert!(reply.details.contains("two"));
}

#[test]
fn selector_reads_the_allocation() {
    let doc = parse_json_str("{\"TaskGroup\":\"web\",\"Job\":{\"TaskGroups\":[{\"Name\":\"db\",\"Meta\":{\"network-pool\":\"backend\"}},{\"Name\":\"web\",\"Meta\":{\"network-pool\":\"frontend\",\"network-ip\":\"10.0.0.9\"},\"Networks\":[{\"Mode\":\"cni/mynet\"}]}]}}")
    .unwrap();
    let alloc = Alloc::from_json(&doc).unwrap();
    assert_eq!(alloc.task_group, "web");
    let group = alloc.own_group().unwrap();
    assert_eq!(group.name, "web");
    assert_eq!(group.meta.network_pool.as_deref(), Some("frontend"));
    assert_eq!(group.meta.network_ip.as_ref().unwrap().text, "10.0.0.9");
    assert_eq!(group.networks.len(), 1);
    assert_eq!(group.networks[0].mode, "cni/mynet");
}

#[test]
fn missing_group_is_detected() {
    let doc = parse_json_str(
        "{\"TaskGroup\":\"web\",\"Job\":{\"TaskGroups\":[{\"Name\":\"db\"}]}}",
    )
    .unwrap();
    let alloc = Alloc::from_json(&doc).unwrap();
    assert!(alloc.own_group().is_none());
}

#[test]
fn selector_reply_names_the_pool() {
    let v = Version::numeric(1, 0, 0);
    let requested = cni_plugins::ip::Address::parse("10.0.0.9");
    let r = selector_reply(&v, "frontend", &requested, Vec::new());
    let printed = json_to_string(&r.to_json());
    assert!(printed.contains(
        "\"pools\":[{\"name\":\"frontend\",\"requestedIp\":\"10.0.0.9\"}]"
    ));
    let r2 = selector_reply(&v, "frontend", &None, Vec::new());
    let printed2 = json_to_string(&r2.to_json());
    assert!(printed2.contains("\"pools\":[{\"name\":\"frontend\"}]"));
}
