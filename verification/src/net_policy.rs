//! Network access policy: which destinations a guest may reach.
//!
//! [`NetworkPolicy::AllowAll`] permits every outbound connection,
//! [`NetworkPolicy::AllowList`] only listed hosts and addresses, and
//! [`NetworkPolicy::BlockList`] all but listed ones.  Every variant refuses
//! the cloud metadata addresses (link-local 169.254.0.0/16 and fe80::/10,
//! and AWS's fd00:ec2::254); the lists also refuse loopback, since a guest
//! socket is a real host socket and host services trust loopback.
//!
//! A destination reaches the host as an address; the guest resolves names
//! itself with DNS questions on port 53.  So the policy checks the
//! question ([`NetworkPolicy::allows_query`]), learns from the answer
//! ([`NetworkPolicy::learn_from_dns_answer`]) and checks the destination
//! ([`NetworkPolicy::allows`]).
use vstd::prelude::*;

use std::collections::HashSet;

use crate::addr::{
    IpAddress, SocketAddress, canonical, is_loopback, is_metadata, same_ip, spec_canonical,
    spec_is_loopback, spec_is_metadata,
};
use crate::dns::{dns_question_names, dns_response_ips, question_names, response_ips, strings_view};
use crate::text::{chars_eq_ignore_ascii_case, chars_of, eq_ignore_ascii_case, prefix, trim_end, trim_end_len};

verus! {

/// Most addresses an allow list records from DNS answers.
pub const MAX_LEARNED_IPS: usize = 4096;

/// `name`, as a DNS question spells it, is one of `names`, ignoring ASCII
/// case and trailing dots.
pub open spec fn spec_names_contain(names: Seq<Seq<char>>, name: Seq<char>) -> bool {
    exists|i: int|
        0 <= i < names.len() && eq_ignore_ascii_case(
            trim_end(#[trigger] names[i], '.'),
            trim_end(name, '.'),
        )
}

/// Whether `name` is one of `names`, ignoring case and trailing dots.
pub fn names_contain(names: &Vec<String>, name: &str) -> (r: bool)
    ensures
        r == spec_names_contain(strings_view(names@), name@),
{
    let wanted = chars_of(name);
    let wn = trim_end_len(&wanted, '.');
    let wanted = prefix(&wanted, wn);
    let mut i: usize = 0;
    while i < names.len()
        invariant
            i <= names.len(),
            wanted@ == trim_end(name@, '.'),
            forall|j: int|
                0 <= j < i ==> !eq_ignore_ascii_case(
                    trim_end(#[trigger] strings_view(names@)[j], '.'),
                    trim_end(name@, '.'),
                ),
        decreases names.len() - i,
    {
        let have = chars_of(names[i].as_str());
        let hn = trim_end_len(&have, '.');
        let have = prefix(&have, hn);
        if chars_eq_ignore_ascii_case(&have, &wanted) {
            assert(strings_view(names@)[i as int] == names@[i as int]@);
            return true;
        }
        i += 1;
    }
    proof {
        assert forall|j: int| 0 <= j < strings_view(names@).len() implies !eq_ignore_ascii_case(
            trim_end(#[trigger] strings_view(names@)[j], '.'),
            trim_end(name@, '.'),
        ) by {}
    }
    false
}

/// Whether `ip` is in `ips`.
pub fn ip_in(ips: &Vec<IpAddress>, ip: &IpAddress) -> (r: bool)
    ensures
        r == ips@.contains(*ip),
{
    let mut i: usize = 0;
    while i < ips.len()
        invariant
            i <= ips.len(),
            forall|j: int| 0 <= j < i ==> ips@[j] != *ip,
        decreases ips.len() - i,
    {
        if same_ip(&ips[i], ip) {
            assert(ips@[i as int] == *ip);
            return true;
        }
        i += 1;
    }
    false
}

/// The public resolvers a guest's rootfs may name: Google's and
/// Cloudflare's.
pub open spec fn public_resolver(ip: IpAddress) -> bool {
    ip == IpAddress::V4(0x0808_0808) || ip == IpAddress::V4(0x0808_0404) || ip == IpAddress::V4(
        0x0101_0101,
    ) || ip == IpAddress::V4(0x0100_0001)
}

/// A host named in a list could not be resolved: the lists resolve their
/// hostnames when built, so a name that does not resolve is refused up
/// front instead of silently matching nothing.
#[derive(Debug, Clone, PartialEq, Eq)]
pub struct ResolveError {
    pub host: String,
    /// What the resolver said; `None` when it answered with no address.
    pub source: Option<String>,
}

impl ResolveError {
    /// The entry that failed, as it was given.
    pub fn host(&self) -> (h: &str)
        ensures
            h@ == self.host@,
    {
        self.host.as_str()
    }

    /// What the error says: the name quoted, and what the resolver said.
    pub fn message(&self) -> (m: String)
        ensures
            m@ == resolve_failure(
                self.host@,
                match self.source {
                    Some(e) => Some(e@),
                    None => None,
                },
            ),
    {
        let q = crate::text::quoted(self.host.as_str());
        match &self.source {
            Some(e) => {
                let mut m = "cannot resolve ".to_owned();
                crate::text::push_str(&mut m, q.as_str());
                crate::text::push_str(&mut m, ": ");
                crate::text::push_str(&mut m, e.as_str());
                m
            },
            None => {
                let mut m = q;
                crate::text::push_str(&mut m, " resolved to no address");
                m
            },
        }
    }
}

/// What a failed lookup of `host` says: the name quoted, and what the
/// resolver said, if anything.
pub open spec fn resolve_failure(host: Seq<char>, source: Option<Seq<char>>) -> Seq<char> {
    match source {
        Some(e) => "cannot resolve "@ + crate::text::debug_quoted(host) + ": "@ + e,
        None => crate::text::debug_quoted(host) + " resolved to no address"@,
    }
}

/// One entry of a host list as the host saw it: an address literal, or a
/// name with what the resolver gave for it.
pub enum HostEntry {
    Literal(IpAddress),
    Name { name: String, resolved: Result<Vec<IpAddress>, String> },
}

/// The addresses and hostnames a list of entries amounts to, or the first
/// entry that did not resolve.
pub open spec fn spec_resolve_entries(entries: Seq<HostEntry>) -> Result<
    (Seq<IpAddress>, Seq<Seq<char>>),
    (Seq<char>, Option<Seq<char>>),
>
    decreases entries.len(),
{
    if entries.len() == 0 {
        Ok((seq![], seq![]))
    } else {
        let rest = spec_resolve_entries(entries.drop_last());
        match rest {
            Err(e) => Err(e),
            Ok((ips, names)) => match entries.last() {
                HostEntry::Literal(ip) => Ok((ips.push(ip), names)),
                HostEntry::Name { name, resolved } => match resolved {
                    Err(msg) => Err((name@, Some(msg@))),
                    Ok(found) => if found@.len() == 0 {
                        Err((name@, None))
                    } else {
                        Ok((ips + found@, names.push(name@)))
                    },
                },
            },
        }
    }
}

fn resolve_entries(entries: &Vec<HostEntry>) -> (r: Result<(Vec<IpAddress>, Vec<String>), ResolveError>)
    ensures
        match spec_resolve_entries(entries@) {
            Ok((ips, names)) => r matches Ok((i, n)) && i@ == ips && strings_view(n@) == names,
            Err((host, source)) => r matches Err(e) && e.host@ == host && (match source {
                Some(m) => e.source matches Some(s) && s@ == m,
                None => e.source is None,
            }),
        },
{
    let mut ips: Vec<IpAddress> = Vec::new();
    let mut names: Vec<String> = Vec::new();
    let mut i: usize = 0;
    assert(entries@.subrange(0, 0) =~= Seq::<HostEntry>::empty());
    assert(strings_view(names@) =~= Seq::<Seq<char>>::empty());
    while i < entries.len()
        invariant
            i <= entries.len(),
            spec_resolve_entries(entries@.subrange(0, i as int)) == Ok::<
                (Seq<IpAddress>, Seq<Seq<char>>),
                (Seq<char>, Option<Seq<char>>),
            >((ips@, strings_view(names@))),
        decreases entries.len() - i,
    {
        assert(entries@.subrange(0, i + 1).drop_last() =~= entries@.subrange(0, i as int));
        match &entries[i] {
            HostEntry::Literal(ip) => {
                ips.push(*ip);
            },
            HostEntry::Name { name, resolved } => {
                match resolved {
                    Err(msg) => {
                        proof {
                            lemma_resolve_err_sticks(entries@, i as int + 1);
                        }
                        return Err(ResolveError { host: name.clone(), source: Some(msg.clone()) });
                    },
                    Ok(found) => {
                        if found.len() == 0 {
                            proof {
                                lemma_resolve_err_sticks(entries@, i as int + 1);
                            }
                            return Err(ResolveError { host: name.clone(), source: None });
                        }
                        let mut j: usize = 0;
                        let ghost before = ips@;
                        while j < found.len()
                            invariant
                                j <= found.len(),
                                ips@ == before + found@.subrange(0, j as int),
                            decreases found.len() - j,
                        {
                            ips.push(found[j]);
                            j += 1;
                            assert(ips@ =~= before + found@.subrange(0, j as int));
                        }
                        assert(found@.subrange(0, j as int) =~= found@);
                        let ghost nb = names@;
                        names.push(name.clone());
                        assert(strings_view(names@) =~= strings_view(nb).push(name@));
                    },
                }
            },
        }
        i += 1;
    }
    assert(entries@.subrange(0, i as int) =~= entries@);
    Ok((ips, names))
}

/// Once an entry fails, the whole list does, with that entry's error.
proof fn lemma_resolve_err_sticks(entries: Seq<HostEntry>, k: int)
    requires
        0 < k <= entries.len(),
        spec_resolve_entries(entries.subrange(0, k)) is Err,
    ensures
        spec_resolve_entries(entries) == spec_resolve_entries(entries.subrange(0, k)),
    decreases entries.len() - k,
{
    if k < entries.len() {
        assert(entries.subrange(0, k + 1).drop_last() =~= entries.subrange(0, k));
        lemma_resolve_err_sticks(entries, k + 1);
    } else {
        assert(entries.subrange(0, k) =~= entries);
    }
}

/// A set of allowed destinations: listed addresses, addresses resolved
/// from listed names, and addresses learned from DNS answers about them.
#[derive(Debug, Clone)]
pub struct AllowList {
    allowed_ips: Vec<IpAddress>,
    hostnames: Vec<String>,
    learned_ips: Vec<IpAddress>,
    /// Resolvers the guest was given (its `/etc/resolv.conf`).
    resolvers: Vec<IpAddress>,
    /// The host's own resolvers.
    system_resolvers: Vec<IpAddress>,
}

impl AllowList {
    pub closed spec fn allowed(&self) -> Seq<IpAddress> {
        self.allowed_ips@
    }

    pub closed spec fn names(&self) -> Seq<Seq<char>> {
        strings_view(self.hostnames@)
    }

    pub closed spec fn learned(&self) -> Seq<IpAddress> {
        self.learned_ips@
    }

    pub closed spec fn guest_resolvers(&self) -> Seq<IpAddress> {
        self.resolvers@
    }

    pub closed spec fn host_resolvers(&self) -> Seq<IpAddress> {
        self.system_resolvers@
    }

    /// `ip` may be reached: listed, resolved from a listed name, or learned.
    pub open spec fn spec_is_allowed(&self, ip: IpAddress) -> bool {
        self.allowed().contains(ip) || self.learned().contains(ip)
    }

    /// `ip` is a resolver the guest may ask on port 53.
    pub open spec fn spec_is_resolver(&self, ip: IpAddress) -> bool {
        public_resolver(ip) || self.host_resolvers().contains(ip) || self.guest_resolvers().contains(
            ip,
        )
    }

    /// An allow list of resolved entries, or the first that did not
    /// resolve; the host's own resolvers are `system_resolvers`.
    pub fn from_resolved(entries: &Vec<HostEntry>, system_resolvers: Vec<IpAddress>) -> (r: Result<AllowList, ResolveError>)
        ensures
            match spec_resolve_entries(entries@) {
                Ok((ips, names)) => r matches Ok(al) && al.allowed() == ips && al.names() == names
                    && al.learned() == Seq::<IpAddress>::empty() && al.guest_resolvers()
                    == Seq::<IpAddress>::empty() && al.host_resolvers() == system_resolvers@,
                Err((host, source)) => r matches Err(e) && e.host@ == host && (match source {
                    Some(m) => e.source matches Some(s) && s@ == m,
                    None => e.source is None,
                }),
            },
    {
        let (allowed_ips, hostnames) = resolve_entries(entries)?;
        Ok(AllowList {
            allowed_ips,
            hostnames,
            learned_ips: Vec::new(),
            resolvers: Vec::new(),
            system_resolvers,
        })
    }

    /// Also treat `ips` as resolvers the guest may ask: the nameservers of
    /// the `resolv.conf` it was given.
    pub fn exempt_resolvers(&mut self, ips: &Vec<IpAddress>)
        ensures
            final(self).guest_resolvers() == old(self).guest_resolvers() + ips@.map_values(
                |ip: IpAddress| spec_canonical(ip),
            ),
            final(self).allowed() == old(self).allowed(),
            final(self).names() == old(self).names(),
            final(self).learned() == old(self).learned(),
            final(self).host_resolvers() == old(self).host_resolvers(),
    {
        let mut i: usize = 0;
        let ghost before = self.resolvers@;
        while i < ips.len()
            invariant
                i <= ips.len(),
                self.resolvers@ == before + ips@.subrange(0, i as int).map_values(
                    |ip: IpAddress| spec_canonical(ip),
                ),
                self.allowed_ips@ == old(self).allowed_ips@,
                self.hostnames@ == old(self).hostnames@,
                self.learned_ips@ == old(self).learned_ips@,
                self.system_resolvers@ == old(self).system_resolvers@,
                before == old(self).resolvers@,
            decreases ips.len() - i,
        {
            let c = canonical(ips[i]);
            self.resolvers.push(c);
            i += 1;
            assert(self.resolvers@ =~= before + ips@.subrange(0, i as int).map_values(
                |ip: IpAddress| spec_canonical(ip),
            ));
        }
        assert(ips@.subrange(0, i as int) =~= ips@);
    }

    /// Whether `ip` is a resolver the guest may ask on port 53: a public
    /// one, the host's own, or one it was given.
    pub fn is_resolver(&self, ip: &IpAddress) -> (r: bool)
        ensures
            r == self.spec_is_resolver(*ip),
    {
        let public = same_ip(ip, &IpAddress::V4(0x0808_0808)) || same_ip(ip, &IpAddress::V4(0x0808_0404))
            || same_ip(ip, &IpAddress::V4(0x0101_0101)) || same_ip(ip, &IpAddress::V4(0x0100_0001));
        public || ip_in(&self.system_resolvers, ip) || ip_in(&self.resolvers, ip)
    }

    /// Whether the guest may reach `ip`.
    pub fn is_allowed(&self, ip: &IpAddress) -> (r: bool)
        ensures
            r == self.spec_is_allowed(*ip),
    {
        ip_in(&self.allowed_ips, ip) || ip_in(&self.learned_ips, ip)
    }

    /// What recording `ip` leaves: it is added unless already known or the
    /// record is full.
    pub open spec fn spec_learn(learned: Seq<IpAddress>, ip: IpAddress) -> Seq<IpAddress> {
        if learned.len() < MAX_LEARNED_IPS && !learned.contains(ip) {
            learned.push(ip)
        } else {
            learned
        }
    }

    /// Record an address learned from a DNS answer, up to
    /// [`MAX_LEARNED_IPS`] of them.
    pub fn learn_ip(&mut self, ip: IpAddress)
        ensures
            final(self).learned() == Self::spec_learn(old(self).learned(), ip),
            old(self).learned().len() <= MAX_LEARNED_IPS ==> final(self).learned().len()
                <= MAX_LEARNED_IPS,
            final(self).allowed() == old(self).allowed(),
            final(self).names() == old(self).names(),
            final(self).guest_resolvers() == old(self).guest_resolvers(),
            final(self).host_resolvers() == old(self).host_resolvers(),
    {
        if self.learned_ips.len() < MAX_LEARNED_IPS && !ip_in(&self.learned_ips, &ip) {
            self.learned_ips.push(ip);
        }
    }
}

/// Record each of `ips` in turn.
pub open spec fn spec_learn_all(learned: Seq<IpAddress>, ips: Seq<IpAddress>) -> Seq<IpAddress>
    decreases ips.len(),
{
    if ips.len() == 0 {
        learned
    } else {
        spec_learn_all(AllowList::spec_learn(learned, ips[0]), ips.drop_first())
    }
}

/// A set of blocked destinations: listed addresses, addresses resolved
/// from listed names, and whatever those names resolve to at a connect.
#[derive(Debug, Clone)]
pub struct BlockList {
    blocked_ips: Vec<IpAddress>,
    hostnames: Vec<String>,
}

impl BlockList {
    pub closed spec fn blocked(&self) -> Seq<IpAddress> {
        self.blocked_ips@
    }

    pub closed spec fn names(&self) -> Seq<Seq<char>> {
        strings_view(self.hostnames@)
    }

    /// A block list of resolved entries, or the first that did not resolve.
    pub fn from_resolved(entries: &Vec<HostEntry>) -> (r: Result<BlockList, ResolveError>)
        ensures
            match spec_resolve_entries(entries@) {
                Ok((ips, names)) => r matches Ok(bl) && bl.blocked() == ips && bl.names() == names,
                Err((host, source)) => r matches Err(e) && e.host@ == host && (match source {
                    Some(m) => e.source matches Some(s) && s@ == m,
                    None => e.source is None,
                }),
            },
    {
        let (blocked_ips, hostnames) = resolve_entries(entries)?;
        Ok(BlockList { blocked_ips, hostnames })
    }

    /// A block list of exactly these addresses and names, resolved or not.
    pub fn from_parts(blocked_ips: Vec<IpAddress>, hostnames: Vec<String>) -> (bl: BlockList)
        ensures
            bl.blocked() == blocked_ips@,
            bl.names() == strings_view(hostnames@),
    {
        BlockList { blocked_ips, hostnames }
    }

    /// `ip` is blocked: listed or resolved at build time, or, with names
    /// to look up, unless a lookup of them says for certain that none
    /// resolves to it now (`resolves_now == Some(false)`).  A lookup that
    /// fails or runs late (`None`) counts as blocked.
    pub open spec fn spec_blocks(&self, ip: IpAddress, resolves_now: Option<bool>) -> bool {
        self.blocked().contains(ip) || (self.names().len() > 0 && resolves_now != Some(false))
    }

    /// Whether `ip` is blocked, given what a lookup of the blocked names
    /// found at this moment (see [`BlockList::spec_blocks`]).
    pub fn blocks(&self, ip: &IpAddress, resolves_now: Option<bool>) -> (r: bool)
        ensures
            r == self.spec_blocks(*ip, resolves_now),
    {
        if ip_in(&self.blocked_ips, ip) {
            return true;
        }
        if self.hostnames.len() == 0 {
            return false;
        }
        match resolves_now {
            Some(b) => b,
            None => true,
        }
    }

    /// The names a connect must look up, when it must.
    pub fn hostnames(&self) -> (n: &Vec<String>)
        ensures
            strings_view(n@) == self.names(),
    {
        &self.hostnames
    }
}

/// Which network destinations a guest may reach.
#[derive(Debug, Clone)]
pub enum NetworkPolicy {
    /// All outbound connections are allowed (no filtering).
    AllowAll,
    /// Only connections to the listed destinations are permitted.
    AllowList(AllowList),
    /// All connections are allowed except to the listed destinations.
    BlockList(BlockList),
}

/// A DNS message is a well-formed query whose every question names one
/// of `names` (`listed`), or none of them (`!listed`).
pub open spec fn query_fits(names: Seq<Seq<char>>, data: Seq<u8>, listed: bool) -> bool {
    match question_names(data) {
        Some(qs) => forall|i: int| 0 <= i < qs.len() ==> spec_names_contain(names, #[trigger] qs[i]) == listed,
        None => false,
    }
}

impl NetworkPolicy {
    /// Whether the guest may reach `addr`, on a UDP socket or not, given
    /// what a lookup of a block list's names found now.
    pub open spec fn spec_allows(&self, addr: SocketAddress, udp: bool, resolves_now: Option<bool>) -> bool {
        let ip = spec_canonical(addr.ip);
        !spec_is_metadata(ip) && match self {
            NetworkPolicy::AllowAll => true,
            NetworkPolicy::AllowList(al) => !spec_is_loopback(ip) && (al.spec_is_allowed(ip) || (
            udp && addr.port == 53 && al.spec_is_resolver(ip))),
            NetworkPolicy::BlockList(bl) => !spec_is_loopback(ip) && !bl.spec_blocks(
                ip,
                resolves_now,
            ),
        }
    }

    /// Whether the guest may reach `addr`: never a metadata address; under
    /// an allow list only what it allows (and a resolver on UDP port 53),
    /// never loopback; under a block list what it does not block, never
    /// loopback.  An IPv4-mapped IPv6 address is checked as its IPv4 one.
    /// `resolves_now` is what looking up a block list's names found (see
    /// [`NetworkPolicy::needs_lookup`]); it is not read otherwise.
    pub fn allows(&self, addr: &SocketAddress, udp: bool, resolves_now: Option<bool>) -> (r: bool)
        ensures
            r == self.spec_allows(*addr, udp, resolves_now),
    {
        let ip = canonical(addr.ip);
        if is_metadata(&ip) {
            return false;
        }
        match self {
            NetworkPolicy::AllowAll => true,
            NetworkPolicy::AllowList(al) => {
                !is_loopback(&ip) && (al.is_allowed(&ip) || (udp && addr.port == 53
                    && al.is_resolver(&ip)))
            },
            NetworkPolicy::BlockList(bl) => !is_loopback(&ip) && !bl.blocks(&ip, resolves_now),
        }
    }

    /// Whether deciding on `addr` needs the block list's names looked up
    /// now: a block list with names, and an address not settled otherwise.
    pub fn needs_lookup(&self, addr: &SocketAddress) -> (r: bool)
        ensures
            r == (self matches NetworkPolicy::BlockList(bl) && {
                let ip = spec_canonical(addr.ip);
                !spec_is_metadata(ip) && !spec_is_loopback(ip) && !bl.blocked().contains(ip)
                    && bl.names().len() > 0
            }),
    {
        match self {
            NetworkPolicy::BlockList(bl) => {
                let ip = canonical(addr.ip);
                !is_metadata(&ip) && !is_loopback(&ip) && !ip_in(&bl.blocked_ips, &ip)
                    && bl.hostnames.len() > 0
            },
            _ => false,
        }
    }

    /// Whether the guest may send `data`, a DNS message bound for port 53:
    /// anything under [`NetworkPolicy::AllowAll`]; under an allow list a
    /// well-formed query whose every question names a listed host; under a
    /// block list one none of whose questions names a blocked one.
    pub fn allows_query(&self, data: &[u8]) -> (r: bool)
        ensures
            r == match self {
                NetworkPolicy::AllowAll => true,
                NetworkPolicy::AllowList(al) => query_fits(al.names(), data@, true),
                NetworkPolicy::BlockList(bl) => query_fits(bl.names(), data@, false),
            },
    {
        let (names, allow) = match self {
            NetworkPolicy::AllowAll => return true,
            NetworkPolicy::AllowList(al) => (&al.hostnames, true),
            NetworkPolicy::BlockList(bl) => (&bl.hostnames, false),
        };
        let questions = match dns_question_names(data) {
            Some(q) => q,
            None => return false,
        };
        let mut i: usize = 0;
        while i < questions.len()
            invariant
                i <= questions.len(),
                allow == (self is AllowList),
                question_names(data@) == Some(strings_view(questions@)),
                match self {
                    NetworkPolicy::AllowList(al) => strings_view(names@) == al.names(),
                    NetworkPolicy::BlockList(bl) => strings_view(names@) == bl.names(),
                    NetworkPolicy::AllowAll => false,
                },
                forall|j: int|
                    0 <= j < i ==> spec_names_contain(strings_view(names@), #[trigger] strings_view(questions@)[j]) == allow,
            decreases questions.len() - i,
        {
            let hit = names_contain(names, questions[i].as_str());
            assert(strings_view(questions@)[i as int] == questions@[i as int]@);
            if hit != allow {
                proof {
                    let qs = strings_view(questions@);
                    assert(spec_names_contain(strings_view(names@), qs[i as int]) != allow);
                    assert(question_names(data@) == Some(qs));
                    assert(question_names(data@)->0 == qs);
                    assert(!(forall|j: int| 0 <= j < qs.len() ==> spec_names_contain(strings_view(names@), #[trigger] qs[j]) == allow));
                    assert(!query_fits(strings_view(names@), data@, allow));
                    assert(!(match self {
                        NetworkPolicy::AllowAll => true,
                        NetworkPolicy::AllowList(al) => query_fits(al.names(), data@, true),
                        NetworkPolicy::BlockList(bl) => query_fits(bl.names(), data@, false),
                    }));
                }
                return false;
            }
            i += 1;
        }
        true
    }

    /// Record, under an allow list, the addresses a DNS answer from a
    /// resolver the guest may ask (on port 53) gives for a listed name, so
    /// the connect that follows is recognised.  Anything else teaches
    /// nothing.
    pub fn learn_from_dns_answer(&mut self, from: &SocketAddress, data: &[u8])
        ensures
            match *old(self) {
                NetworkPolicy::AllowList(al) => (if from.port == 53 && al.spec_is_resolver(
                    spec_canonical(from.ip),
                ) {
                    *final(self) matches NetworkPolicy::AllowList(al2) && al2.learned()
                        == spec_learn_all(al.learned(), response_ips(data@, al.names()))
                        && al2.allowed() == al.allowed() && al2.names() == al.names()
                        && al2.guest_resolvers() == al.guest_resolvers() && al2.host_resolvers()
                        == al.host_resolvers()
                } else {
                    *final(self) == *old(self)
                }),
                _ => *final(self) == *old(self),
            },
    {
        match self {
            NetworkPolicy::AllowList(al) => {
                if from.port == 53 && al.is_resolver(&canonical(from.ip)) {
                    let ips = dns_response_ips(data, &al.hostnames);
                    let mut i: usize = 0;
                    let ghost start = al.learned();
                    assert(ips@.subrange(0, ips@.len() as int) =~= ips@);
                    while i < ips.len()
                        invariant
                            i <= ips.len(),
                            spec_learn_all(start, ips@) == spec_learn_all(al.learned(), ips@.subrange(i as int, ips@.len() as int)),
                            al.allowed() == old(self)->AllowList_0.allowed(),
                            al.names() == old(self)->AllowList_0.names(),
                            al.guest_resolvers() == old(self)->AllowList_0.guest_resolvers(),
                            al.host_resolvers() == old(self)->AllowList_0.host_resolvers(),
                        decreases ips.len() - i,
                    {
                        assert(ips@.subrange(i as int, ips@.len() as int).drop_first() =~= ips@.subrange(i + 1, ips@.len() as int));
                        al.learn_ip(ips[i]);
                        i += 1;
                    }
                    assert(ips@.subrange(0, ips@.len() as int) =~= ips@);
                }
            },
            _ => {},
        }
    }
}

/// Which ports a guest may bind for inbound connections: listed ports,
/// inclusive ranges, or every port.  Orthogonal to [`NetworkPolicy`],
/// which governs outbound destinations.  Without a `ListenPorts`
/// allowlist, `net_bind` refuses every bind to a port (outbound-only).
#[derive(Debug)]
pub struct ListenPorts {
    all: bool,
    ports: HashSet<u16>,
    ranges: Vec<(u16, u16)>,
}

impl ListenPorts {
    /// Whether `port` may be bound.
    pub open spec fn spec_allows(&self, port: u16) -> bool {
        self.every() || self.listed().contains(port) || exists|i: int|
            0 <= i < self.spans().len() && (#[trigger] self.spans()[i]).0 <= port <= self.spans()[i].1
    }

    pub closed spec fn every(&self) -> bool {
        self.all
    }

    pub closed spec fn listed(&self) -> Set<u16> {
        self.ports@
    }

    pub closed spec fn spans(&self) -> Seq<(u16, u16)> {
        self.ranges@
    }

    /// Exactly the ports given.
    pub fn from_ports(ports: Vec<u16>) -> (lp: ListenPorts)
        ensures
            !lp.every(),
            lp.listed() == ports@.to_set(),
            lp.spans().len() == 0,
    {
        broadcast use vstd::std_specs::hash::group_hash_axioms;

        let mut set: HashSet<u16> = HashSet::new();
        let mut i: usize = 0;
        while i < ports.len()
            invariant
                i <= ports@.len(),
                set@ == ports@.take(i as int).to_set(),
            decreases ports@.len() - i,
        {
            let ghost before = set@;
            let x = ports[i];
            set.insert(x);
            assert(set@ == before.insert(x));
            let ghost a0 = ports@.take(i as int);
            let ghost a1 = ports@.take(i + 1);
            assert(a1 =~= a0.push(x));
            assert forall|a: u16| set@.contains(a) <==> a1.contains(a) by {
                assert(before.contains(a) == a0.to_set().contains(a));
                assert(a1[i as int] == x);
                if a1.contains(a) {
                    let j = choose|j: int| 0 <= j < a1.len() && a1[j] == a;
                    if j < i {
                        assert(a0[j] == a);
                    }
                }
                if a0.contains(a) {
                    let j = choose|j: int| 0 <= j < a0.len() && a0[j] == a;
                    assert(a1[j] == a);
                }
            }
            assert(set@ =~= a1.to_set());
            i += 1;
        }
        assert(ports@.take(i as int) =~= ports@);
        ListenPorts { all: false, ports: set, ranges: Vec::new() }
    }

    /// Every port.
    pub fn all() -> (lp: ListenPorts)
        ensures
            lp.every(),
            lp.listed() == Set::<u16>::empty(),
            lp.spans().len() == 0,
    {
        ListenPorts { all: true, ports: HashSet::new(), ranges: Vec::new() }
    }

    /// Also every port from `low` to `high`, both included.
    pub fn with_range(self, low: u16, high: u16) -> (lp: ListenPorts)
        ensures
            lp.every() == self.every(),
            lp.listed() == self.listed(),
            lp.spans() == self.spans().push((low, high)),
    {
        let mut s = self;
        s.ranges.push((low, high));
        s
    }

    /// Whether the guest may bind `port`.
    pub fn allows(&self, port: u16) -> (r: bool)
        ensures
            r == self.spec_allows(port),
    {
        broadcast use vstd::std_specs::hash::group_hash_axioms;

        if self.all {
            return true;
        }
        if self.ports.contains(&port) {
            return true;
        }
        let mut k: usize = 0;
        while k < self.ranges.len()
            invariant
                k <= self.ranges.len(),
                !self.listed().contains(port),
                forall|j: int| 0 <= j < k ==> !((#[trigger] self.ranges@[j]).0 <= port <= self.ranges@[j].1),
            decreases self.ranges.len() - k,
        {
            let (lo, hi) = self.ranges[k];
            if lo <= port && port <= hi {
                assert(self.spans()[k as int].0 <= port <= self.spans()[k as int].1);
                return true;
            }
            k += 1;
        }
        false
    }
}

} // verus!

verus! {

/// Every policy refuses the cloud metadata addresses, however they are
/// spelled (an IPv4-mapped IPv6 address is its IPv4 one), on any socket.
pub proof fn law_metadata_refused_under_every_policy(
    policy: NetworkPolicy,
    addr: SocketAddress,
    udp: bool,
    resolves_now: Option<bool>,
)
    requires
        spec_is_metadata(spec_canonical(addr.ip)),
    ensures
        !policy.spec_allows(addr, udp, resolves_now),
{
}

/// An allow list and a block list refuse loopback.
pub proof fn law_lists_refuse_loopback(
    policy: NetworkPolicy,
    addr: SocketAddress,
    udp: bool,
    resolves_now: Option<bool>,
)
    requires
        !(policy is AllowAll),
        spec_is_loopback(spec_canonical(addr.ip)),
    ensures
        !policy.spec_allows(addr, udp, resolves_now),
{
}

/// Allowing everything allows every address that is not a metadata one,
/// loopback included.
pub proof fn law_allow_all_permits_the_rest(addr: SocketAddress, udp: bool, resolves_now: Option<bool>)
    requires
        !spec_is_metadata(spec_canonical(addr.ip)),
    ensures
        NetworkPolicy::AllowAll.spec_allows(addr, udp, resolves_now),
{
}

/// The DNS exemption of an allow list covers UDP to port 53 of a resolver
/// and nothing else: an address it does not allow is reached only so.
pub proof fn law_dns_exemption_is_udp_port_53_only(
    al: AllowList,
    addr: SocketAddress,
    udp: bool,
    resolves_now: Option<bool>,
)
    requires
        !al.spec_is_allowed(spec_canonical(addr.ip)),
        NetworkPolicy::AllowList(al).spec_allows(addr, udp, resolves_now),
    ensures
        udp,
        addr.port == 53,
        al.spec_is_resolver(spec_canonical(addr.ip)),
{
}

/// Every allow list lets a guest ask Google's and Cloudflare's public
/// resolvers, 8.8.8.8, 8.8.4.4, 1.1.1.1 and 1.0.0.1, over UDP on port 53,
/// whatever else it allows: the resolvers a converted rootfs names work.
pub proof fn law_public_resolvers_answer_every_allow_list(al: AllowList, resolves_now: Option<bool>)
    ensures
        al.spec_is_resolver(IpAddress::V4(0x0808_0808)),
        al.spec_is_resolver(IpAddress::V4(0x0808_0404)),
        al.spec_is_resolver(IpAddress::V4(0x0101_0101)),
        al.spec_is_resolver(IpAddress::V4(0x0100_0001)),
        NetworkPolicy::AllowList(al).spec_allows(SocketAddress { ip: IpAddress::V4(0x0808_0808), port: 53 }, true, resolves_now),
        NetworkPolicy::AllowList(al).spec_allows(SocketAddress { ip: IpAddress::V4(0x0808_0404), port: 53 }, true, resolves_now),
        NetworkPolicy::AllowList(al).spec_allows(SocketAddress { ip: IpAddress::V4(0x0101_0101), port: 53 }, true, resolves_now),
        NetworkPolicy::AllowList(al).spec_allows(SocketAddress { ip: IpAddress::V4(0x0100_0001), port: 53 }, true, resolves_now),
{
}

/// A block list whose lookup cannot answer refuses every name-bearing
/// list's unknown addresses: it fails closed.
pub proof fn law_block_list_fails_closed(bl: BlockList, addr: SocketAddress, udp: bool)
    requires
        bl.names().len() > 0,
    ensures
        !NetworkPolicy::BlockList(bl).spec_allows(addr, udp, None),
{
}

/// Learning never grows the record of an allow list past its cap, never
/// forgets an address, and records each address once: the cap counts
/// distinct addresses.
pub proof fn law_learning_is_capped(learned: Seq<IpAddress>, ips: Seq<IpAddress>)
    requires
        learned.len() <= MAX_LEARNED_IPS,
    ensures
        spec_learn_all(learned, ips).len() <= MAX_LEARNED_IPS,
        forall|ip: IpAddress| learned.contains(ip) ==> spec_learn_all(learned, ips).contains(ip),
        learned.no_duplicates() ==> spec_learn_all(learned, ips).no_duplicates(),
    decreases ips.len(),
{
    if ips.len() > 0 {
        let next = AllowList::spec_learn(learned, ips[0]);
        if learned.no_duplicates() && next != learned {
            assert forall|i: int, j: int| 0 <= i < next.len() && 0 <= j < next.len() && i != j implies next[i]
                != next[j] by {
                if i < learned.len() && j < learned.len() {
                } else if i < learned.len() {
                    assert(learned[i] == next[i]);
                } else {
                    assert(learned[j] == next[j]);
                }
            }
        }
        assert forall|ip: IpAddress| learned.contains(ip) implies next.contains(ip) by {
            if learned.len() < MAX_LEARNED_IPS && !learned.contains(ips[0]) {
                let k = choose|k: int| 0 <= k < learned.len() && learned[k] == ip;
                assert(next[k] == ip);
            }
        }
        law_learning_is_capped(next, ips.drop_first());
    }
}

/// Every port is allowed by [`ListenPorts::all`], and a range allows both
/// its ends and everything between them.
pub proof fn law_listen_ports(lp: ListenPorts, low: u16, high: u16, port: u16)
    requires
        lp.spans().len() > 0,
        lp.spans().last() == (low, high),
        low <= port <= high,
    ensures
        lp.spec_allows(port),
{
    assert(lp.spans()[lp.spans().len() - 1] == (low, high));
}

/// Listen ports made from `ports` and then given the ranges `ranges`, one
/// `with_range` at a time (`steps[0]` is `ListenPorts::from_ports`, each
/// next one the one before with the next range): the guest may bind
/// exactly the listed ports and those inside one of the ranges.
pub proof fn law_ranges_add_up(steps: Seq<ListenPorts>, ports: Seq<u16>, ranges: Seq<(u16, u16)>, port: u16)
    requires
        steps.len() == ranges.len() + 1,
        !steps[0].every(),
        steps[0].listed() == ports.to_set(),
        steps[0].spans().len() == 0,
        forall|j: int| 0 <= j < ranges.len() ==> {
            &&& (#[trigger] steps[j + 1]).every() == steps[j].every()
            &&& steps[j + 1].listed() == steps[j].listed()
            &&& steps[j + 1].spans() == steps[j].spans().push(ranges[j])
        },
    ensures
        steps.last().spec_allows(port) <==> (ports.contains(port) || exists|j: int|
            0 <= j < ranges.len() && (#[trigger] ranges[j]).0 <= port <= ranges[j].1),
{
    lemma_ranges_add_up(steps, ports, ranges, ranges.len() as int);
    let last = steps[ranges.len() as int];
    assert(last == steps.last());
    if last.spec_allows(port) && !ports.contains(port) {
        let i = choose|i: int| 0 <= i < last.spans().len() && (#[trigger] last.spans()[i]).0 <= port <= last.spans()[i].1;
        assert(last.spans()[i] == ranges[i]);
    }
    if exists|j: int| 0 <= j < ranges.len() && (#[trigger] ranges[j]).0 <= port <= ranges[j].1 {
        let j = choose|j: int| 0 <= j < ranges.len() && (#[trigger] ranges[j]).0 <= port <= ranges[j].1;
        assert(last.spans()[j] == ranges[j]);
    }
}

proof fn lemma_ranges_add_up(steps: Seq<ListenPorts>, ports: Seq<u16>, ranges: Seq<(u16, u16)>, k: int)
    requires
        steps.len() == ranges.len() + 1,
        0 <= k <= ranges.len(),
        !steps[0].every(),
        steps[0].listed() == ports.to_set(),
        steps[0].spans().len() == 0,
        forall|j: int| 0 <= j < ranges.len() ==> {
            &&& (#[trigger] steps[j + 1]).every() == steps[j].every()
            &&& steps[j + 1].listed() == steps[j].listed()
            &&& steps[j + 1].spans() == steps[j].spans().push(ranges[j])
        },
    ensures
        !steps[k].every(),
        steps[k].listed() == ports.to_set(),
        steps[k].spans() == ranges.take(k),
    decreases k,
{
    if k == 0 {
        assert(ranges.take(0) =~= steps[0].spans());
    } else {
        lemma_ranges_add_up(steps, ports, ranges, k - 1);
        assert(steps[(k - 1) + 1] == steps[k]);
        assert(ranges.take(k) =~= ranges.take(k - 1).push(ranges[k - 1]));
    }
}

/// The address a `resolv.conf` line names, as text: the first word after
/// `nameserver` on a line that starts with it (blanks around the line
/// aside).
pub open spec fn nameserver_token(line: Seq<char>) -> Option<Seq<char>> {
    match crate::registry::strip_prefix(crate::text::trim_ws(line), "nameserver"@) {
        Some(rest) => if crate::project::words(rest).len() > 0 {
            Some(crate::project::words(rest)[0])
        } else {
            None
        },
        None => None,
    }
}

/// The addresses the lines name, in order.
pub open spec fn nameserver_tokens_of(ls: Seq<Seq<char>>) -> Seq<Seq<char>>
    decreases ls.len(),
{
    if ls.len() == 0 {
        seq![]
    } else {
        match nameserver_token(ls.last()) {
            Some(t) => nameserver_tokens_of(ls.drop_last()).push(t),
            None => nameserver_tokens_of(ls.drop_last()),
        }
    }
}

/// The nameservers a `resolv.conf` names, as text, in order; the host
/// reads each as an address and drops those that are not.
pub fn nameserver_tokens(content: &str) -> (r: Vec<String>)
    ensures
        crate::guest::views_of(r@) == nameserver_tokens_of(crate::guest::lines(content@)),
{
    let v = chars_of(content);
    let ls = crate::guest::lines_of(&v);
    let ghost lv = crate::guest::views(ls@);
    let mut out: Vec<String> = Vec::new();
    let mut i: usize = 0;
    while i < ls.len()
        invariant
            i <= ls@.len(),
            lv == crate::guest::views(ls@),
            lv == crate::guest::lines(content@),
            crate::guest::views_of(out@) == nameserver_tokens_of(lv.take(i as int)),
        decreases ls@.len() - i,
    {
        proof {
            assert(lv[i as int] == ls@[i as int]@);
            assert(lv.take(i + 1).drop_last() =~= lv.take(i as int));
            assert(lv.take(i + 1).last() == lv[i as int]);
        }
        let t = crate::text::trim_chars(&ls[i]);
        match crate::registry::strip_prefix_of(&t, "nameserver") {
            Some(rest) => match crate::project::next_word(&rest, 0) {
                Some((st, e)) => {
                    let w = crate::text::string_of(&crate::text::slice_vec(&rest, st, e));
                    let ghost before = out@;
                    out.push(w);
                    proof {
                        assert(crate::guest::views_of(out@) =~= crate::guest::views_of(before).push(w@));
                    }
                },
                None => {},
            },
            None => {},
        }
        i += 1;
    }
    assert(lv.take(i as int) =~= lv);
    out
}

/// What the lookups of a block list's names, in the order they answered,
/// say of `ip`: `Some(true)` at the first that resolves to it, `None`
/// (refuse) at a failed or missing one (`None` in `answers`) before that,
/// `Some(false)` when all answered without it.
pub open spec fn spec_lookup_verdict(answers: Seq<Option<Seq<IpAddress>>>, ip: IpAddress) -> Option<bool>
    decreases answers.len(),
{
    if answers.len() == 0 {
        Some(false)
    } else {
        match answers[0] {
            None => None,
            Some(ips) => if ips.contains(ip) {
                Some(true)
            } else {
                spec_lookup_verdict(answers.skip(1), ip)
            },
        }
    }
}

/// The answers' addresses.
pub open spec fn answer_views(answers: Seq<Option<Vec<IpAddress>>>) -> Seq<Option<Seq<IpAddress>>> {
    Seq::new(
        answers.len(),
        |i: int|
            match answers[i] {
                Some(v) => Some(v@),
                None => None,
            },
    )
}

/// Whether `ip` is what one of a block list's names resolves to now,
/// from the lookups' answers (see [`spec_lookup_verdict`]).
pub fn lookup_verdict(answers: &Vec<Option<Vec<IpAddress>>>, ip: &IpAddress) -> (r: Option<bool>)
    ensures
        r == spec_lookup_verdict(answer_views(answers@), *ip),
{
    let ghost av = answer_views(answers@);
    let mut i: usize = 0;
    assert(av.skip(0) =~= av);
    while i < answers.len()
        invariant
            i <= answers@.len(),
            av == answer_views(answers@),
            spec_lookup_verdict(av, *ip) == spec_lookup_verdict(av.skip(i as int), *ip),
        decreases answers@.len() - i,
    {
        assert(av.skip(i as int)[0] == av[i as int]);
        assert(av.skip(i as int).skip(1) =~= av.skip(i + 1));
        match &answers[i] {
            None => {
                return None;
            },
            Some(ips) => {
                if ip_in(ips, ip) {
                    return Some(true);
                }
            },
        }
        i += 1;
    }
    assert(av.skip(i as int) =~= Seq::<Option<Seq<IpAddress>>>::empty());
    Some(false)
}

} // verus!
