use hyperlight_unikraft::addr::{IpAddress, SocketAddress};
use hyperlight_unikraft::args::parse_net_policy;
use hyperlight_unikraft::dns::dns_question_names;
use hyperlight_unikraft::net_policy::{
    lookup_verdict, nameserver_tokens, AllowList, BlockList, HostEntry, ListenPorts, NetworkPolicy,
};

fn v4(a: u8, b: u8, c: u8, d: u8) -> IpAddress {
    IpAddress::V4(u32::from_be_bytes([a, b, c, d]))
}

fn at(ip: IpAddress, port: u16) -> SocketAddress {
    SocketAddress { ip, port }
}

const FE80_1: u128 = 0xfe80_0000_0000_0000_0000_0000_0000_0001;
const EC2_METADATA_V6: u128 = 0xfd00_0ec2_0000_0000_0000_0000_0000_0254;
const LOOPBACK_V6: u128 = 1;
const DOC_V6: u128 = 0x2001_0db8_0000_0000_0000_0000_0000_0009;

fn mapped(ip: [u8; 4]) -> IpAddress {
    IpAddress::V6(0xffff_0000_0000 | u32::from_be_bytes(ip) as u128)
}

/// An entry as the host saw it: a literal, or a name and what it resolved
/// to.
fn literal(ip: IpAddress) -> HostEntry {
    HostEntry::Literal(ip)
}

fn localhost() -> HostEntry {
    HostEntry::Name {
        name: "localhost".to_string(),
        resolved: Ok(vec![v4(127, 0, 0, 1), IpAddress::V6(LOOPBACK_V6)]),
    }
}

fn allow(entries: Vec<HostEntry>) -> AllowList {
    AllowList::from_resolved(&entries, Vec::new()).unwrap()
}

fn block(entries: Vec<HostEntry>) -> BlockList {
    BlockList::from_resolved(&entries).unwrap()
}

/// A DNS query for `names`, as a resolver would send it.
fn dns_query(names: &[&str]) -> Vec<u8> {
    let mut m = vec![0x12, 0x34, 0x01, 0x00, 0, names.len() as u8, 0, 0, 0, 0, 0, 0];
    for name in names {
        for label in name.split('.') {
            m.push(label.len() as u8);
            m.extend_from_slice(label.as_bytes());
        }
        m.extend_from_slice(&[0, 0, 1, 0, 1]);
    }
    m
}

/// A DNS answer saying `name` is `ip`.
fn dns_answer(name: &str, ip: IpAddress) -> Vec<u8> {
    let mut m = dns_query(&[name]);
    m[2] = 0x81;
    m[3] = 0x80;
    m[7] = 1;
    m.extend_from_slice(&[0xc0, 0x0c]);
    match ip {
        IpAddress::V4(x) => {
            m.extend_from_slice(&[0, 1, 0, 1, 0, 0, 0, 60, 0, 4]);
            m.extend_from_slice(&x.to_be_bytes());
        }
        IpAddress::V6(x) => {
            m.extend_from_slice(&[0, 28, 0, 1, 0, 0, 0, 60, 0, 16]);
            m.extend_from_slice(&x.to_be_bytes());
        }
    }
    m
}

#[test]
fn allowall_permits_normal_address() {
    assert!(NetworkPolicy::AllowAll.allows(&at(v4(93, 184, 216, 34), 80), false, None));
}

#[test]
fn allowall_blocks_link_local() {
    assert!(!NetworkPolicy::AllowAll.allows(&at(v4(169, 254, 169, 254), 80), false, None));
}

#[test]
fn metadata_addresses_are_refused_under_every_policy() {
    let policies = [
        NetworkPolicy::AllowAll,
        NetworkPolicy::AllowList(allow(vec![literal(IpAddress::V6(EC2_METADATA_V6))])),
        NetworkPolicy::BlockList(block(vec![literal(v4(1, 2, 3, 4))])),
    ];
    for addr in [
        at(v4(169, 254, 169, 254), 80),
        at(IpAddress::V6(FE80_1), 80),
        at(IpAddress::V6(EC2_METADATA_V6), 80),
    ] {
        for policy in &policies {
            assert!(!policy.allows(&addr, false, None), "{addr:?} allowed under {policy:?}");
        }
    }
}

#[test]
fn unresolvable_host_is_refused_up_front() {
    let failed = vec![HostEntry::Name {
        name: "no-such-host.invalid".to_string(),
        resolved: Err("failed to lookup address information".to_string()),
    }];
    let err = AllowList::from_resolved(&failed, Vec::new()).unwrap_err();
    assert_eq!(err.host(), "no-such-host.invalid");
    assert_eq!(
        err.message(),
        "cannot resolve \"no-such-host.invalid\": failed to lookup address information"
    );
    assert!(BlockList::from_resolved(&failed).is_err());
    let empty = vec![HostEntry::Name { name: "void.example".to_string(), resolved: Ok(Vec::new()) }];
    let err = BlockList::from_resolved(&empty).unwrap_err();
    assert_eq!(err.message(), "\"void.example\" resolved to no address");
}

#[test]
fn dns_exemption_is_udp_only() {
    let al = NetworkPolicy::AllowList(allow(vec![literal(v4(93, 184, 216, 34))]));
    let resolver = at(v4(8, 8, 8, 8), 53);
    assert!(al.allows(&resolver, true, None));
    assert!(!al.allows(&resolver, false, None));
}

#[test]
fn allowlist_permits_questions_for_listed_names_only() {
    let al = NetworkPolicy::AllowList(allow(vec![localhost()]));
    assert!(al.allows_query(&dns_query(&["localhost"])));
    assert!(al.allows_query(&dns_query(&["LOCALHOST."])));
    assert!(!al.allows_query(&dns_query(&["example.com"])));
    assert!(!al.allows_query(&dns_query(&["localhost", "example.com"])));
    assert!(!al.allows_query(b"not a dns message"));
    let mut answer = dns_query(&["localhost"]);
    answer[2] |= 0x80;
    assert!(!al.allows_query(&answer));
    assert!(NetworkPolicy::AllowAll.allows_query(&dns_query(&["anything.example"])));
}

#[test]
fn blocklist_refuses_questions_for_blocked_names() {
    let bl = NetworkPolicy::BlockList(block(vec![localhost()]));
    assert!(!bl.allows_query(&dns_query(&["localhost"])));
    assert!(!bl.allows_query(&dns_query(&["Localhost."])));
    assert!(bl.allows_query(&dns_query(&["example.com"])));
    assert!(!bl.allows_query(b"not a dns message"));
}

#[test]
fn allowlist_records_addresses_from_answers() {
    let mut al = NetworkPolicy::AllowList(allow(vec![localhost()]));
    let resolver = at(v4(8, 8, 8, 8), 53);
    let stranger = at(v4(198, 51, 100, 1), 53);
    let told = at(v4(203, 0, 113, 9), 443);
    let other = at(IpAddress::V6(DOC_V6), 443);
    assert!(!al.allows(&told, false, None));
    al.learn_from_dns_answer(&stranger, &dns_answer("localhost", told.ip));
    assert!(!al.allows(&told, false, None));
    al.learn_from_dns_answer(&resolver, &dns_answer("localhost", told.ip));
    assert!(al.allows(&told, false, None));
    al.learn_from_dns_answer(&resolver, &dns_answer("example.com", other.ip));
    assert!(!al.allows(&other, false, None));
    al.learn_from_dns_answer(&resolver, &dns_answer("LOCALHOST", other.ip));
    assert!(al.allows(&other, false, None));
    let mut bl = NetworkPolicy::BlockList(block(vec![literal(v4(1, 2, 3, 4))]));
    bl.learn_from_dns_answer(&resolver, &dns_answer("localhost", told.ip));
    assert!(bl.allows(&told, false, None));
}

#[test]
fn blocklist_blocks_what_a_name_resolves_to_now() {
    let bl = block(vec![localhost()]);
    assert!(bl.blocks(&v4(127, 0, 0, 1), Some(false)));
    assert!(bl.blocks(&v4(203, 0, 113, 9), Some(true)));
    assert!(!bl.blocks(&v4(203, 0, 113, 9), Some(false)));
}

#[test]
fn blocklist_refuses_when_a_lookup_fails() {
    let bl = BlockList::from_parts(Vec::new(), vec!["no-such-host.invalid".to_string()]);
    assert!(bl.blocks(&v4(203, 0, 113, 9), None));
}

#[test]
fn dns_question_names_reads_every_question() {
    assert_eq!(
        dns_question_names(&dns_query(&["a.example", "b.example"])).unwrap(),
        vec!["a.example".to_string(), "b.example".to_string()]
    );
    assert!(dns_question_names(&dns_query(&[])).is_none());
    assert!(dns_question_names(&[0u8; 11]).is_none());
    let mut truncated = dns_query(&["a.example"]);
    truncated.truncate(14);
    assert!(dns_question_names(&truncated).is_none());
}

#[test]
fn ipv4_mapped_ipv6_is_checked_as_ipv4() {
    let metadata = at(mapped([169, 254, 169, 254]), 80);
    let loopback = at(mapped([127, 0, 0, 1]), 80);
    let blocked = at(mapped([10, 0, 0, 5]), 80);
    let allowed = at(mapped([93, 184, 216, 34]), 80);

    assert!(!NetworkPolicy::AllowAll.allows(&metadata, false, None));

    let bl = NetworkPolicy::BlockList(block(vec![literal(v4(10, 0, 0, 5))]));
    assert!(!bl.allows(&metadata, false, None));
    assert!(!bl.allows(&loopback, false, None));
    assert!(!bl.allows(&blocked, false, None));

    let al = NetworkPolicy::AllowList(allow(vec![literal(v4(93, 184, 216, 34))]));
    assert!(!al.allows(&metadata, false, None));
    assert!(!al.allows(&loopback, false, None));
    assert!(al.allows(&allowed, false, None));
}

#[test]
fn allowall_permits_loopback() {
    assert!(NetworkPolicy::AllowAll.allows(&at(v4(127, 0, 0, 1), 80), false, None));
}

#[test]
fn allowall_permits_ipv6_loopback() {
    assert!(NetworkPolicy::AllowAll.allows(&at(IpAddress::V6(LOOPBACK_V6), 80), false, None));
}

#[test]
fn allowlist_blocks_loopback() {
    let policy = NetworkPolicy::AllowList(allow(vec![literal(v4(93, 184, 216, 34))]));
    assert!(!policy.allows(&at(v4(127, 0, 0, 1), 80), false, None));
}

#[test]
fn blocklist_blocks_loopback() {
    let policy = NetworkPolicy::BlockList(block(vec![literal(v4(1, 2, 3, 4))]));
    assert!(!policy.allows(&at(v4(127, 0, 0, 1), 80), false, None));
}

#[test]
fn allowlist_permits_listed_ip() {
    let policy = NetworkPolicy::AllowList(allow(vec![literal(v4(93, 184, 216, 34))]));
    assert!(policy.allows(&at(v4(93, 184, 216, 34), 80), false, None));
}

#[test]
fn allowlist_blocks_unlisted_ip() {
    let policy = NetworkPolicy::AllowList(allow(vec![literal(v4(93, 184, 216, 34))]));
    assert!(!policy.allows(&at(v4(1, 2, 3, 4), 80), false, None));
}

#[test]
fn allowlist_exempts_dns_on_port_53() {
    let policy = NetworkPolicy::AllowList(allow(vec![literal(v4(93, 184, 216, 34))]));
    assert!(policy.allows(&at(v4(8, 8, 8, 8), 53), true, None));
    assert!(!policy.allows(&at(v4(8, 8, 8, 8), 80), true, None));
}

#[test]
fn blocklist_blocks_listed_ip() {
    let policy = NetworkPolicy::BlockList(block(vec![literal(v4(1, 2, 3, 4))]));
    assert!(!policy.allows(&at(v4(1, 2, 3, 4), 80), false, None));
}

#[test]
fn blocklist_permits_unlisted_ip() {
    let policy = NetworkPolicy::BlockList(block(vec![literal(v4(1, 2, 3, 4))]));
    assert!(policy.allows(&at(v4(93, 184, 216, 34), 80), false, None));
}

#[test]
fn allowlist_exempts_the_guest_resolver_on_port_53() {
    let mut al = allow(vec![literal(v4(93, 184, 216, 34))]);
    let resolver = at(v4(10, 96, 0, 10), 53);
    assert!(!NetworkPolicy::AllowList(al.clone()).allows(&resolver, true, None));
    al.exempt_resolvers(&vec![v4(10, 96, 0, 10)]);
    let policy = NetworkPolicy::AllowList(al);
    assert!(policy.allows(&resolver, true, None));
    assert!(!policy.allows(&at(v4(10, 96, 0, 10), 80), true, None));
    assert!(!policy.allows(&resolver, false, None));
}

#[test]
fn the_hosts_own_resolvers_are_exempt_too() {
    let al = AllowList::from_resolved(&vec![literal(v4(93, 184, 216, 34))], vec![v4(192, 168, 1, 1)]).unwrap();
    let policy = NetworkPolicy::AllowList(al);
    assert!(policy.allows(&at(v4(192, 168, 1, 1), 53), true, None));
    assert!(!policy.allows(&at(v4(192, 168, 1, 1), 53), false, None));
}

#[test]
fn listen_ports_permits_listed_port() {
    let lp = ListenPorts::from_ports(vec![8080, 3000]);
    assert!(lp.allows(8080));
    assert!(lp.allows(3000));
}

#[test]
fn listen_ports_blocks_unlisted_port() {
    let lp = ListenPorts::from_ports(vec![8080]);
    assert!(!lp.allows(9090));
}

#[test]
fn listen_ports_all_permits_every_port() {
    let lp = ListenPorts::all();
    assert!(lp.allows(1));
    assert!(lp.allows(8080));
    assert!(lp.allows(65535));
}

#[test]
fn listen_ports_range_is_inclusive() {
    let lp = ListenPorts::from_ports(vec![22]).with_range(8000, 8010);
    assert!(lp.allows(22));
    assert!(lp.allows(8000));
    assert!(lp.allows(8010));
    assert!(!lp.allows(7999));
    assert!(!lp.allows(8011));
}

#[test]
fn net_policy_none_by_default() {
    let (policy, listen) = parse_net_policy(false, &vec![], &vec![], Vec::new(), &vec![]).unwrap();
    assert!(policy.is_none());
    assert!(listen.is_none());
}

#[test]
fn net_policy_bare_net_is_allow_all() {
    let (policy, listen) = parse_net_policy(true, &vec![], &vec![], Vec::new(), &vec![]).unwrap();
    assert!(matches!(policy, Some(NetworkPolicy::AllowAll)));
    assert!(listen.is_none());
}

#[test]
fn net_policy_port_with_net_sets_listen() {
    let (policy, listen) = parse_net_policy(true, &vec![], &vec![], Vec::new(), &vec![8080]).unwrap();
    assert!(matches!(policy, Some(NetworkPolicy::AllowAll)));
    assert!(listen.unwrap().allows(8080));
}

#[test]
fn net_policy_port_with_allow_list_sets_listen() {
    let entries = vec![HostEntry::Name {
        name: "example.com".to_string(),
        resolved: Ok(vec![v4(93, 184, 216, 34)]),
    }];
    let (policy, listen) = parse_net_policy(false, &entries, &vec![], Vec::new(), &vec![8080]).unwrap();
    assert!(matches!(policy, Some(NetworkPolicy::AllowList(_))));
    assert!(listen.is_some());
}

#[test]
fn net_policy_port_without_net_is_rejected() {
    let err = parse_net_policy(false, &vec![], &vec![], Vec::new(), &vec![8080]).unwrap_err();
    assert!(err.contains("--port requires networking"), "got: {err}");
}

#[test]
fn the_nameservers_of_a_resolv_conf_are_read_in_order() {
    assert_eq!(
        nameserver_tokens("nameserver 10.96.0.10\nsearch default.svc.cluster.local\n  nameserver   8.8.8.8  # google\r\n#nameserver 1.1.1.1\nnameserver\n"),
        vec!["10.96.0.10".to_string(), "8.8.8.8".to_string()]
    );
    assert!(nameserver_tokens("").is_empty());
}

#[test]
fn a_block_list_lookup_refuses_unless_every_name_answered() {
    let ip = v4(203, 0, 113, 9);
    assert_eq!(lookup_verdict(&vec![], &ip), Some(false));
    assert_eq!(lookup_verdict(&vec![Some(vec![v4(1, 1, 1, 1)]), Some(vec![ip])], &ip), Some(true));
    assert_eq!(lookup_verdict(&vec![Some(vec![v4(1, 1, 1, 1)])], &ip), Some(false));
    assert_eq!(lookup_verdict(&vec![None, Some(vec![ip])], &ip), None);
    assert_eq!(lookup_verdict(&vec![Some(vec![ip]), None], &ip), Some(true));
}

#[test]
fn listed_ports_and_ranges_add_up() {
    let lp = ListenPorts::from_ports(vec![22]).with_range(8000, 8010).with_range(9000, 9000);
    for (port, allowed) in [(22, true), (8000, true), (8005, true), (8010, true), (9000, true), (8011, false), (23, false), (0, false)] {
        assert_eq!(lp.allows(port), allowed, "{port}");
    }
}
