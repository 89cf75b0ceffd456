//! Version negotiation and the protocol runtime's input handling.

use cni_plugins::error::CniError;
use cni_plugins::reply::VersionReply;
use cni_plugins::runtime::{check_container_id, cni_from_inputs, Cni, EnvInputs};
use cni_plugins::version::Version;
use cni_plugins::Command;

fn env(command: &str, id: &str, ifname: &str, netns: Option<&str>) -> EnvInputs {
    EnvInputs {
        command: Some(command.to_string()),
        container_id: Some(id.to_string()),
        ifname: Some(ifname.to_string()),
        netns: netns.map(|s| s.to_string()),
        path: Some("/opt/cni/bin:/usr/lib/cni".to_string()),
    }
}

#[test]
fn version_parse_and_format() {
    let v = Version::parse("1.2.3").unwrap();
    assert_eq!((v.major, v.minor, v.patch), (1, 2, 3));
    assert_eq!(v.format(), "1.2.3");
    let p = Version::parse("1.0.0-rc.1+build.5").unwrap();
    assert_eq!(p.pre, "rc.1");
    assert_eq!(p.build, "build.5");
    assert_eq!(p.format(), "1.0.0-rc.1+build.5");
    assert!(Version::parse("1.0").is_none());
    assert!(Version::parse("01.0.0").is_none());
    assert!(Version::parse("1.0.0-").is_none());
}

#[test]
fn compatibility_rule() {
    assert!(Version::parse("0.4.0").unwrap().is_compatible());
    assert!(Version::parse("1.0.0").unwrap().is_compatible());
    assert!(Version::parse("1.1.0").unwrap().is_compatible());
    assert!(!Version::parse("0.3.0").unwrap().is_compatible());
    assert!(!Version::parse("0.4.1").unwrap().is_compatible());
    assert!(!Version::parse("2.0.0").unwrap().is_compatible());
    assert!(!Version::parse("1.0.0-rc.1").unwrap().is_compatible());
}

#[test]
fn version_reply_offers_supported_and_input() {
    let input = Version::parse("1.1.0").unwrap();
    let r = VersionReply::build(&input);
    let spelled: Vec<String> = r.supported_versions.iter().map(|v| v.format()).collect();
    assert_eq!(spelled, vec!["0.4.0", "1.0.0", "1.1.0"]);
    let incompatible = Version::parse("0.3.0").unwrap();
    let r2 = VersionReply::build(&incompatible);
    let spelled2: Vec<String> = r2.supported_versions.iter().map(|v| v.format()).collect();
    assert_eq!(spelled2, vec!["0.4.0", "1.0.0"]);
    // an input already offered is not repeated
    let same = Version::parse("1.0.0").unwrap();
    let r3 = VersionReply::build(&same);
    let spelled3: Vec<String> = r3.supported_versions.iter().map(|v| v.format()).collect();
    assert_eq!(spelled3, vec!["0.4.0", "1.0.0"]);
}

#[test]
fn container_id_rule() {
    assert!(check_container_id("abc1"));
    assert!(check_container_id("0a-b.c_d"));
    assert!(!check_container_id(""));
    assert!(!check_container_id("Abc"));
    assert!(!check_container_id("-abc"));
    assert!(!check_container_id("a b"));
}

#[test]
fn add_flow_parses() {
    let payload = "{\"cniVersion\":\"1.0.0\",\"name\":\"net\",\"type\":\"ipam\"}";
    let r = cni_from_inputs(&env("ADD", "abc1", "eth0", Some("/var/run/netns/x")), payload);
    match r {
        Ok(Cni::Add { container_id, ifname, netns, path, config }) => {
            assert_eq!(container_id, "abc1");
            assert_eq!(ifname, "eth0");
            assert_eq!(netns, "/var/run/netns/x");
            assert_eq!(path, vec!["/opt/cni/bin", "/usr/lib/cni"]);
            assert_eq!(config.name, "net");
            assert_eq!(config.plugin, "ipam");
        },
        _ => panic!("expected an ADD"),
    }
}

#[test]
fn empty_payload_is_missing_input() {
    let r = cni_from_inputs(&env("ADD", "abc1", "eth0", Some("/ns")), "");
    match r {
        Err(e) => {
            let reply = e.into_reply(Version::numeric(1, 0, 0));
            assert_eq!(reply.code, 7);
            assert_eq!(reply.msg, "Missing payload");
        },
        _ => panic!("expected an error"),
    }
}

#[test]
fn missing_env_is_code_four() {
    let mut e = env("ADD", "abc1", "eth0", Some("/ns"));
    e.container_id = None;
    let r = cni_from_inputs(&e, "{\"cniVersion\":\"1.0.0\",\"name\":\"n\",\"type\":\"t\"}");
    match r {
        Err(err) => {
            let reply = err.into_reply(Version::numeric(1, 0, 0));
            assert_eq!(reply.code, 4);
            assert_eq!(reply.msg, "Missing environment variable");
        },
        _ => panic!("expected an error"),
    }
}

#[test]
fn bad_container_id_is_invalid_env() {
    let r = cni_from_inputs(
        &env("ADD", "ABC", "eth0", Some("/ns")),
        "{\"cniVersion\":\"1.0.0\",\"name\":\"n\",\"type\":\"t\"}",
    );
    match r {
        Err(err) => {
            let reply = err.into_reply(Version::numeric(1, 0, 0));
            assert_eq!(reply.code, 4);
            assert_eq!(reply.msg, "Invalid environment variable");
        },
        _ => panic!("expected an error"),
    }
}

#[test]
fn incompatible_version_is_code_one() {
    let r = cni_from_inputs(
        &env("ADD", "abc1", "eth0", Some("/ns")),
        "{\"cniVersion\":\"0.3.0\",\"name\":\"n\",\"type\":\"t\"}",
    );
    match r {
        Err(err) => {
            assert!(matches!(err, CniError::Incompatible(_)));
            let reply = err.into_reply(Version::numeric(1, 0, 0));
            assert_eq!(reply.code, 1);
            assert_eq!(reply.msg, "Incompatible CNI version");
            assert_eq!(reply.details, "plugin does not understand CNI version: 0.3.0");
            assert_eq!(reply.cni_version.format(), "1.0.0");
        },
        _ => panic!("expected an error"),
    }
}

#[test]
fn bad_json_is_code_six() {
    let r = cni_from_inputs(&env("ADD", "abc1", "eth0", Some("/ns")), "{nope");
    match r {
        Err(err) => {
            let reply = err.into_reply(Version::numeric(1, 0, 0));
            assert_eq!(reply.code, 6);
            assert_eq!(reply.msg, "Cannot decode JSON payload");
        },
        _ => panic!("expected an error"),
    }
}

#[test]
fn del_without_netns_is_accepted() {
    let r = cni_from_inputs(
        &env("DEL", "abc1", "eth0", None),
        "{\"cniVersion\":\"0.4.0\",\"name\":\"n\",\"type\":\"t\"}",
    );
    match r {
        Ok(Cni::Del { netns, .. }) => assert!(netns.is_none()),
        _ => panic!("expected a DEL"),
    }
}

#[test]
fn version_command_reads_its_payload() {
    let r = cni_from_inputs(
        &env("VERSION", "abc1", "eth0", None),
        "{\"cniVersion\":\"0.3.0\"}",
    );
    match r {
        Ok(Cni::Version(v)) => assert_eq!(v.format(), "0.3.0"),
        _ => panic!("expected a VERSION"),
    }
}

#[test]
fn command_words() {
    assert!(matches!(Command::from_str("ADD"), Ok(Command::Add)));
    assert!(matches!(Command::from_str("DEL"), Ok(Command::Del)));
    assert!(matches!(Command::from_str("CHECK"), Ok(Command::Check)));
    assert!(matches!(Command::from_str("VERSION"), Ok(Command::Version)));
    assert!(Command::from_str("add").is_err());
    assert_eq!(Command::Add.as_str(), "ADD");
}

#[test]
fn into_inputs_splits_command() {
    let payload = "{\"cniVersion\":\"1.0.0\",\"name\":\"net\",\"type\":\"t\"}";
    let cni = match cni_from_inputs(&env("CHECK", "abc1", "eth0", Some("/ns")), payload) {
        Ok(c) => c,
        Err(_) => panic!("expected a CHECK"),
    };
    let inputs = cni.into_inputs().unwrap();
    assert!(matches!(inputs.command, Command::Check));
    assert_eq!(inputs.netns.as_deref(), Some("/ns"));
}
