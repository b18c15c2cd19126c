//! What the command line's and the manifest's settings amount to: the
//! guest's environment, its mounts, its network policy and listen ports.
use vstd::prelude::*;

use crate::addr::IpAddress;
use crate::guest::Mount;
use crate::net_policy::{AllowList, BlockList, HostEntry, ListenPorts, NetworkPolicy};
use crate::text::{chars_of, find, slice_vec, string_of};

verus! {

/// A `KEY=VALUE` entry, split at its first `=`; `None` without one.
pub open spec fn env_pair(e: Seq<char>) -> Option<(Seq<char>, Seq<char>)> {
    match find(e, '=') {
        Some(i) => Some((e.take(i), e.skip(i + 1))),
        None => None,
    }
}

/// The pairs of the entries that have an `=`, in order.
pub open spec fn env_pairs(raw: Seq<Seq<char>>) -> Seq<(Seq<char>, Seq<char>)>
    decreases raw.len(),
{
    if raw.len() == 0 {
        seq![]
    } else {
        match env_pair(raw.last()) {
            Some(p) => env_pairs(raw.drop_last()).push(p),
            None => env_pairs(raw.drop_last()),
        }
    }
}

pub open spec fn pair_views(v: Seq<(String, String)>) -> Seq<(Seq<char>, Seq<char>)> {
    Seq::new(v.len(), |i: int| (v[i].0@, v[i].1@))
}

/// Parse `--env KEY=VALUE` entries into pairs.  An entry without `=` is
/// skipped; the first `=` splits, so values may hold `=`.
pub fn parse_envs(raw: &Vec<String>) -> (r: Vec<(String, String)>)
    ensures
        pair_views(r@) == env_pairs(crate::github::texts(raw@)),
{
    let mut out: Vec<(String, String)> = Vec::new();
    let mut i: usize = 0;
    let ghost rs = crate::github::texts(raw@);
    while i < raw.len()
        invariant
            i <= raw@.len(),
            rs == crate::github::texts(raw@),
            pair_views(out@) == env_pairs(rs.take(i as int)),
        decreases raw@.len() - i,
    {
        proof {
            assert(rs.take(i + 1).drop_last() =~= rs.take(i as int));
            assert(rs.take(i + 1).last() == raw@[i as int]@);
        }
        let v = chars_of(raw[i].as_str());
        proof {
            crate::text::lemma_find_from(v@, '=', 0);
        }
        match crate::text::find_char(&v, '=') {
            Some(k) => {
                assert(k < v.len());
                let key = slice_vec(&v, 0, k);
                let value = slice_vec(&v, k + 1, v.len());
                let ghost before = pair_views(out@);
                out.push((string_of(&key), string_of(&value)));
                proof {
                    assert(key@ =~= v@.take(k as int));
                    assert(value@ =~= v@.skip(k + 1));
                    assert(pair_views(out@) =~= before.push((v@.take(k as int), v@.skip(k + 1))));
                }
            },
            None => {},
        }
        i += 1;
    }
    assert(rs.take(i as int) =~= rs);
    out
}

/// A `HOST:GUEST[:ro]` entry's parts: the host path (a Windows drive
/// letter prefix, `C:\` or `C:/`, is part of it, so the split is at the
/// colon after it), the guest path, and whether a last `:ro` makes it
/// read-only; `None` without a colon to split at.
pub open spec fn mount_parts(m: Seq<char>) -> Option<(Seq<char>, Seq<char>, bool)> {
    let drive = m.len() >= 3 && (('a' <= m[0] && m[0] <= 'z') || ('A' <= m[0] && m[0] <= 'Z')) && m[1] == ':'
        && (m[2] == '\\' || m[2] == '/');
    let split = if drive {
        match find(m.skip(2), ':') {
            Some(c) => Some(2 + c),
            None => None,
        }
    } else {
        find(m, ':')
    };
    match split {
        None => None,
        Some(at) => {
            let host = m.take(at);
            let rest = m.skip(at + 1);
            match crate::text::rfind(rest, ':') {
                Some(k) => if rest.skip(k + 1) == "ro"@ {
                    Some((host, rest.take(k), true))
                } else {
                    Some((host, rest, false))
                },
                None => Some((host, rest, false)),
            }
        },
    }
}

/// The mounts of the entries that parse, in order.
pub open spec fn mounts_of(raw: Seq<Seq<char>>) -> Seq<(Seq<char>, Seq<char>, bool)>
    decreases raw.len(),
{
    if raw.len() == 0 {
        seq![]
    } else {
        match mount_parts(raw.last()) {
            Some(p) => mounts_of(raw.drop_last()).push(p),
            None => mounts_of(raw.drop_last()),
        }
    }
}

pub open spec fn mount_views(v: Seq<Mount>) -> Seq<(Seq<char>, Seq<char>, bool)> {
    Seq::new(v.len(), |i: int| (v[i].host_path@, v[i].guest_path@, v[i].readonly))
}

fn mount_of(v: &[char]) -> (r: Option<Mount>)
    ensures
        match mount_parts(v@) {
            Some((h, g, ro)) => r matches Some(m) && m.host_path@ == h && m.guest_path@ == g && m.readonly == ro,
            None => r is None,
        },
{
    let drive = v.len() >= 3 && (('a' <= v[0] && v[0] <= 'z') || ('A' <= v[0] && v[0] <= 'Z')) && v[1] == ':'
        && (v[2] == '\\' || v[2] == '/');
    let at = if drive {
        let tail = slice_vec(v, 2, v.len());
        assert(tail@ =~= v@.skip(2));
        proof {
            crate::text::lemma_find_from(tail@, ':', 0);
        }
        match crate::text::find_char(&tail, ':') {
            Some(c) => 2 + c,
            None => {
                return None;
            },
        }
    } else {
        proof {
            crate::text::lemma_find_from(v@, ':', 0);
        }
        match crate::text::find_char(v, ':') {
            Some(c) => c,
            None => {
                return None;
            },
        }
    };
    assert(at < v.len());
    let host = slice_vec(v, 0, at);
    let rest = slice_vec(v, at + 1, v.len());
    assert(host@ =~= v@.take(at as int));
    assert(rest@ =~= v@.skip(at + 1));
    proof {
        crate::text::lemma_rfind_before(rest@, ':', rest@.len() as int);
    }
    match crate::text::rfind_char(&rest, ':') {
        Some(k) => {
            let tail = slice_vec(&rest, k + 1, rest.len());
            let ro = chars_of("ro");
            assert(tail@ =~= rest@.skip(k + 1));
            if crate::text::chars_eq(&tail, &ro) {
                let g = slice_vec(&rest, 0, k);
                assert(g@ =~= rest@.take(k as int));
                Some(Mount { host_path: string_of(&host), guest_path: string_of(&g), readonly: true })
            } else {
                Some(Mount { host_path: string_of(&host), guest_path: string_of(&rest), readonly: false })
            }
        },
        None => Some(Mount { host_path: string_of(&host), guest_path: string_of(&rest), readonly: false }),
    }
}

/// Parse `--mount HOST:GUEST[:ro]` entries; one without a colon to split
/// at is skipped.
pub fn parse_mounts(raw: &Vec<String>) -> (r: Vec<Mount>)
    ensures
        mount_views(r@) == mounts_of(crate::github::texts(raw@)),
{
    let mut out: Vec<Mount> = Vec::new();
    let mut i: usize = 0;
    let ghost rs = crate::github::texts(raw@);
    while i < raw.len()
        invariant
            i <= raw@.len(),
            rs == crate::github::texts(raw@),
            mount_views(out@) == mounts_of(rs.take(i as int)),
        decreases raw@.len() - i,
    {
        proof {
            assert(rs.take(i + 1).drop_last() =~= rs.take(i as int));
            assert(rs.take(i + 1).last() == raw@[i as int]@);
        }
        let v = chars_of(raw[i].as_str());
        match mount_of(&v) {
            Some(m) => {
                let ghost before = mount_views(out@);
                let ghost mv = (m.host_path@, m.guest_path@, m.readonly);
                out.push(m);
                assert(mount_views(out@) =~= before.push(mv));
            },
            None => {},
        }
        i += 1;
    }
    assert(rs.take(i as int) =~= rs);
    out
}

/// What `--port` without networking is answered.
pub open spec fn ports_need_net() -> Seq<char> {
    "--port requires networking to be enabled; pass --net (or --net-allow/--net-block) too"@
}

/// Why network settings are refused, or `None`: a listed name that did
/// not resolve (allowed names first, block-listed names only without
/// them), or ports without networking.
pub open spec fn flags_error(net: bool, allow: Seq<HostEntry>, block: Seq<HostEntry>, ports_given: bool) -> Option<Seq<char>> {
    if allow.len() > 0 {
        match crate::net_policy::spec_resolve_entries(allow) {
            Err((host, source)) => Some(crate::net_policy::resolve_failure(host, source)),
            Ok(_) => None,
        }
    } else if block.len() > 0 {
        match crate::net_policy::spec_resolve_entries(block) {
            Err((host, source)) => Some(crate::net_policy::resolve_failure(host, source)),
            Ok(_) => None,
        }
    } else if !net && ports_given {
        Some(ports_need_net())
    } else {
        None
    }
}

/// The policy accepted network settings give: an allow list of what the
/// allowed entries resolved to, else a block list of the blocked ones,
/// else everything with `net`, else no networking.
pub open spec fn flags_policy(
    p: Option<NetworkPolicy>,
    net: bool,
    allow: Seq<HostEntry>,
    block: Seq<HostEntry>,
    system_resolvers: Seq<IpAddress>,
) -> bool {
    if allow.len() > 0 {
        match crate::net_policy::spec_resolve_entries(allow) {
            Ok((ips, names)) => p matches Some(NetworkPolicy::AllowList(al)) && al.allowed() == ips
                && al.names() == names && al.learned() == Seq::<IpAddress>::empty()
                && al.guest_resolvers() == Seq::<IpAddress>::empty() && al.host_resolvers()
                == system_resolvers,
            Err(_) => false,
        }
    } else if block.len() > 0 {
        match crate::net_policy::spec_resolve_entries(block) {
            Ok((ips, names)) => p matches Some(NetworkPolicy::BlockList(bl)) && bl.blocked() == ips
                && bl.names() == names,
            Err(_) => false,
        }
    } else if net {
        p matches Some(NetworkPolicy::AllowAll)
    } else {
        p is None
    }
}

fn policy_for(net: bool, allow: &Vec<HostEntry>, block: &Vec<HostEntry>, system_resolvers: Vec<IpAddress>) -> (r: Result<Option<NetworkPolicy>, String>)
    ensures
        match flags_error(net, allow@, block@, false) {
            Some(m) => r matches Err(e) && e@ == m,
            None => r matches Ok(p) && flags_policy(p, net, allow@, block@, system_resolvers@),
        },
{
    if allow.len() > 0 {
        match AllowList::from_resolved(allow, system_resolvers) {
            Ok(al) => Ok(Some(NetworkPolicy::AllowList(al))),
            Err(e) => Err(e.message()),
        }
    } else if block.len() > 0 {
        match BlockList::from_resolved(block) {
            Ok(bl) => Ok(Some(NetworkPolicy::BlockList(bl))),
            Err(e) => Err(e.message()),
        }
    } else if net {
        Ok(Some(NetworkPolicy::AllowAll))
    } else {
        Ok(None)
    }
}

/// Turn the network settings into a policy and listen ports: an allow
/// list when names are allowed, else a block list when names are blocked,
/// else everything with `net`, else no networking.  Ports without
/// networking are refused: the guest would get no sockets at all, and the
/// user would believe it can bind.
pub fn parse_net_policy(
    net: bool,
    allow: &Vec<HostEntry>,
    block: &Vec<HostEntry>,
    system_resolvers: Vec<IpAddress>,
    ports: &Vec<u16>,
) -> (r: Result<(Option<NetworkPolicy>, Option<ListenPorts>), String>)
    ensures
        match flags_error(net, allow@, block@, ports@.len() > 0) {
            Some(m) => r matches Err(e) && e@ == m,
            None => r matches Ok((p, l)) && flags_policy(p, net, allow@, block@, system_resolvers@)
                && (ports@.len() > 0 <==> l is Some) && (l matches Some(lp) ==> lp.listed()
                == ports@.to_set() && !lp.every() && lp.spans().len() == 0),
        },
{
    let ghost sys = system_resolvers@;
    let policy = match policy_for(net, allow, block, system_resolvers) {
        Ok(p) => p,
        Err(e) => {
            return Err(e);
        },
    };
    if ports.len() > 0 && policy.is_none() {
        return Err("--port requires networking to be enabled; pass --net (or --net-allow/--net-block) too".to_owned());
    }
    let listen = if ports.len() > 0 {
        let mut v: Vec<u16> = Vec::new();
        let mut i: usize = 0;
        while i < ports.len()
            invariant
                i <= ports@.len(),
                v@ == ports@.take(i as int),
            decreases ports@.len() - i,
        {
            v.push(ports[i]);
            i += 1;
            assert(v@ =~= ports@.take(i as int));
        }
        assert(ports@.take(i as int) =~= ports@);
        Some(ListenPorts::from_ports(v))
    } else {
        None
    };
    Ok((policy, listen))
}

/// What listen ports port specs amount to: every port with `all`, else the
/// single ports and the ranges.
pub open spec fn specs_listen(lp: ListenPorts, specs: Seq<crate::manifest::PortSpec>) -> bool {
    &&& lp.every() == crate::manifest::spec_any_all(specs)
    &&& lp.listed() == (if crate::manifest::spec_any_all(specs) {
        Set::<u16>::empty()
    } else {
        crate::manifest::spec_ones(specs).to_set()
    })
    &&& lp.spans() == crate::manifest::spec_ranges(specs)
}

/// The network settings as `--net`, `--net-allow`, `--net-block` and
/// `--port` give them (ports as numbers, `LOW-HIGH` ranges or `all`): the
/// policy as [`parse_net_policy`] makes it, and the listen ports the specs
/// add up to.
pub fn net_from_flags(
    net: bool,
    allow: &Vec<HostEntry>,
    block: &Vec<HostEntry>,
    system_resolvers: Vec<IpAddress>,
    specs: &Vec<crate::manifest::PortSpec>,
) -> (r: Result<(Option<NetworkPolicy>, Option<ListenPorts>), String>)
    ensures
        match flags_error(net, allow@, block@, specs@.len() > 0) {
            Some(m) => r matches Err(e) && e@ == m,
            None => r matches Ok((p, l)) && flags_policy(p, net, allow@, block@, system_resolvers@)
                && (specs@.len() > 0 <==> l is Some) && (l matches Some(lp) ==> specs_listen(lp, specs@)),
        },
{
    let policy = match policy_for(net, allow, block, system_resolvers) {
        Ok(p) => p,
        Err(e) => {
            return Err(e);
        },
    };
    match listen_for_flags(&policy, specs) {
        Ok(listen) => Ok((policy, listen)),
        Err(e) => Err(e),
    }
}

/// The listen ports `--port` flags ask for (numbers, `LOW-HIGH` ranges,
/// `all`), given the policy the network flags gave: none without flags,
/// refused without networking, else what the specs add up to.
pub fn listen_for_flags(policy: &Option<NetworkPolicy>, specs: &Vec<crate::manifest::PortSpec>) -> (r: Result<Option<ListenPorts>, String>)
    ensures
        specs@.len() == 0 ==> r matches Ok(None),
        specs@.len() > 0 && policy is None ==> (r matches Err(m) && m@
            == "--port requires networking to be enabled; pass --net (or --net-allow/--net-block) too"@),
        specs@.len() > 0 && policy is Some ==> (r matches Ok(Some(lp)) && lp.every() == crate::manifest::spec_any_all(specs@)
            && lp.listed() == (if crate::manifest::spec_any_all(specs@) {
                Set::<u16>::empty()
            } else {
                crate::manifest::spec_ones(specs@).to_set()
            }) && lp.spans() == crate::manifest::spec_ranges(specs@)),
{
    if specs.len() == 0 {
        return Ok(None);
    }
    if policy.is_none() {
        return Err("--port requires networking to be enabled; pass --net (or --net-allow/--net-block) too".to_owned());
    }
    Ok(Some(crate::manifest::listen_ports_of(specs)))
}

} // verus!
