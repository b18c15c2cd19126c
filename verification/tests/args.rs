use hyperlight_unikraft::addr::IpAddress;
use hyperlight_unikraft::args::{listen_for_flags, net_from_flags, parse_envs, parse_mounts, parse_net_policy};
use hyperlight_unikraft::manifest::PortSpec;
use hyperlight_unikraft::net_policy::{HostEntry, NetworkPolicy};

fn envs(raw: &[&str]) -> Vec<(String, String)> {
    let raw: Vec<String> = raw.iter().map(|s| s.to_string()).collect();
    parse_envs(&raw)
}

fn pairs(v: &[(String, String)]) -> Vec<(&str, &str)> {
    v.iter().map(|(k, x)| (k.as_str(), x.as_str())).collect()
}

fn mounts(raw: &[&str]) -> Vec<hyperlight_unikraft::guest::Mount> {
    let raw: Vec<String> = raw.iter().map(|s| s.to_string()).collect();
    parse_mounts(&raw)
}

#[test]
fn parse_envs_basic() {
    let envs = envs(&["KEY=value", "DEBUG=1"]);
    assert_eq!(pairs(&envs), vec![("KEY", "value"), ("DEBUG", "1")]);
}

#[test]
fn parse_envs_value_with_equals() {
    let envs = envs(&["CONN=host=db;port=5432"]);
    assert_eq!(pairs(&envs), vec![("CONN", "host=db;port=5432")]);
}

#[test]
fn parse_envs_empty_value() {
    let envs = envs(&["EMPTY="]);
    assert_eq!(pairs(&envs), vec![("EMPTY", "")]);
}

#[test]
fn parse_envs_skips_invalid() {
    let envs = envs(&["GOOD=1", "no_equals", "ALSO=ok"]);
    assert_eq!(pairs(&envs), vec![("GOOD", "1"), ("ALSO", "ok")]);
}

#[test]
fn parse_envs_empty_input() {
    assert!(envs(&[]).is_empty());
}

#[test]
fn parse_unix_rw_mount() {
    let mounts = mounts(&["/tmp/share:/mnt/host"]);
    assert_eq!(mounts.len(), 1);
    assert_eq!(mounts[0].host_path, "/tmp/share");
    assert_eq!(mounts[0].guest_path, "/mnt/host");
    assert!(!mounts[0].readonly);
}

#[test]
fn parse_unix_ro_mount() {
    let mounts = mounts(&["/data:/mnt/data:ro"]);
    assert_eq!(mounts.len(), 1);
    assert_eq!(mounts[0].host_path, "/data");
    assert_eq!(mounts[0].guest_path, "/mnt/data");
    assert!(mounts[0].readonly);
}

#[test]
fn parse_multiple_mounts() {
    let mounts = mounts(&["/a:/mnt/a", "/b:/mnt/b:ro"]);
    assert_eq!(mounts.len(), 2);
    assert!(!mounts[0].readonly);
    assert!(mounts[1].readonly);
}

#[test]
fn parse_windows_drive_rw() {
    let mounts = mounts(&[r"C:\Users\data:/mnt/data"]);
    assert_eq!(mounts.len(), 1);
    assert_eq!(mounts[0].host_path, r"C:\Users\data");
    assert_eq!(mounts[0].guest_path, "/mnt/data");
    assert!(!mounts[0].readonly);
}

#[test]
fn parse_windows_drive_ro() {
    let mounts = mounts(&[r"D:\share:/mnt/host:ro"]);
    assert_eq!(mounts.len(), 1);
    assert_eq!(mounts[0].host_path, r"D:\share");
    assert_eq!(mounts[0].guest_path, "/mnt/host");
    assert!(mounts[0].readonly);
}

#[test]
fn parse_relative_path() {
    let mounts = mounts(&["./data:/mnt"]);
    assert_eq!(mounts.len(), 1);
    assert_eq!(mounts[0].host_path, "./data");
    assert_eq!(mounts[0].guest_path, "/mnt");
}

#[test]
fn parse_invalid_no_colon() {
    assert!(mounts(&["invalid"]).is_empty());
}

const PORTS_NEED_NET: &str =
    "--port requires networking to be enabled; pass --net (or --net-allow/--net-block) too";

#[test]
fn port_specs_become_listen_ports_with_networking() {
    let specs = vec![PortSpec::One(8080), PortSpec::Range(9000, 9010)];
    let (policy, listen) = net_from_flags(true, &vec![], &vec![], Vec::new(), &specs).unwrap();
    assert!(matches!(policy, Some(NetworkPolicy::AllowAll)));
    let listen = listen.unwrap();
    assert!(listen.allows(8080));
    assert!(listen.allows(9000) && listen.allows(9010) && listen.allows(9005));
    assert!(!listen.allows(8999) && !listen.allows(80));
    let (_, every) = net_from_flags(true, &vec![], &vec![], Vec::new(), &vec![PortSpec::All]).unwrap();
    assert!(every.unwrap().allows(1));
}

#[test]
fn port_specs_without_networking_are_refused() {
    let err = net_from_flags(false, &vec![], &vec![], Vec::new(), &vec![PortSpec::One(80)]).unwrap_err();
    assert_eq!(err, PORTS_NEED_NET);
    assert_eq!(listen_for_flags(&None, &vec![PortSpec::All]).unwrap_err(), PORTS_NEED_NET);
    assert!(listen_for_flags(&None, &vec![]).unwrap().is_none());
}

#[test]
fn an_allowed_name_that_did_not_resolve_is_the_error() {
    let allow = vec![
        HostEntry::Literal(IpAddress::V4(0x0a00_0001)),
        HostEntry::Name { name: "nowhere.invalid".into(), resolved: Err("no such host".into()) },
    ];
    let err = parse_net_policy(false, &allow, &vec![], Vec::new(), &vec![]).unwrap_err();
    assert_eq!(err, "cannot resolve \"nowhere.invalid\": no such host");
    let empty = vec![HostEntry::Name { name: "empty.example".into(), resolved: Ok(vec![]) }];
    let err = parse_net_policy(false, &vec![], &empty, Vec::new(), &vec![]).unwrap_err();
    assert_eq!(err, "\"empty.example\" resolved to no address");
}

#[test]
fn a_resolved_allow_list_is_the_policy() {
    let allow = vec![HostEntry::Name {
        name: "api.example.com".into(),
        resolved: Ok(vec![IpAddress::V4(0x5db8_d822)]),
    }];
    let (policy, listen) = parse_net_policy(false, &allow, &vec![], Vec::new(), &vec![443]).unwrap();
    match policy {
        Some(NetworkPolicy::AllowList(al)) => {
            assert!(al.is_allowed(&IpAddress::V4(0x5db8_d822)));
            assert!(!al.is_allowed(&IpAddress::V4(0x0101_0101)));
        }
        _ => panic!("expected an allow list"),
    }
    let listen = listen.unwrap();
    assert!(listen.allows(443) && !listen.allows(80));
}
