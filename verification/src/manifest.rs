//! `hluk.toml`, the app manifest: what it may say (what TOML cannot
//! check), and what it means for a run.
use vstd::prelude::*;

use crate::addr::IpAddress;
use crate::guest::Mount;
use crate::net_policy::{HostEntry, ListenPorts, NetworkPolicy};
use crate::text::{chars_of, decimal, decimal_string, push_char, push_str, string_of, trim_ws};

verus! {

/// The manifest's file name.
pub const FILE_NAME: &'static str = "hluk.toml";

/// The manifest format this build reads and writes.
pub const VERSION: u32 = 1;

#[derive(Debug, Clone)]
pub struct App {
    pub name: String,
}

/// Where the guest's root filesystem comes from; exactly one is set.
#[derive(Debug, Clone)]
pub struct Rootfs {
    /// A published `:initrd` image, pulled into the local cache.
    pub image: Option<String>,
    /// A Dockerfile `hluk build` builds into `.hluk/rootfs.cpio`.
    pub dockerfile: Option<String>,
    /// A CPIO already on disk.
    pub path: Option<String>,
}

/// The one rootfs source a manifest names.
#[derive(Debug, Clone, PartialEq, Eq)]
pub enum RootfsSource {
    Image(String),
    Dockerfile(String),
    Path(String),
}

/// A `ports` entry: a number, or a string the way `--port` takes it.
#[derive(Debug, Clone)]
pub enum Port {
    Number(u16),
    Spec(String),
}

/// Ports a guest may listen on: one, an inclusive range, or all.
#[derive(Debug, Clone, Copy, PartialEq, Eq)]
pub enum PortSpec {
    One(u16),
    Range(u16, u16),
    All,
}

/// Networking, off unless the table is present.
#[derive(Debug, Clone)]
pub struct Net {
    pub all: bool,
    pub allow: Vec<String>,
    pub block: Vec<String>,
    pub ports: Vec<Port>,
}

/// What to run in the guest, and with what.
#[derive(Debug, Clone)]
pub struct Run {
    pub script: Option<String>,
    pub code: Option<String>,
    pub guest_exec: Option<String>,
    pub entry: Option<String>,
    pub scratch_mb: Option<usize>,
    /// `HOST:GUEST[:ro]` entries; a relative host path is relative to the
    /// manifest.
    pub mounts: Vec<String>,
    /// The environment, by name.
    pub env: Vec<(String, String)>,
    /// Snapshot the booted guest on the first run and restore it on the
    /// next ones.
    pub warm: bool,
    pub warm_exec: Option<String>,
    pub resolv_conf: Option<String>,
    pub net: Option<Net>,
}

#[derive(Debug, Clone)]
pub struct Build {
    /// Run in the manifest's directory through the shell before the rootfs
    /// is built.
    pub command: String,
}

/// What `run` asks the guest to do.
#[derive(Debug, Clone, PartialEq, Eq)]
pub enum Workload {
    Script(String),
    Exec(String),
    GuestExec(String),
    /// Nothing named: the rootfs's conventional entrypoint, or with no
    /// driver the entry point program itself.
    Conventional,
}

/// A manifest as TOML gave it, and the directory it was read from.
#[derive(Debug, Clone)]
pub struct Manifest {
    pub manifest_version: u32,
    pub app: App,
    pub rootfs: Rootfs,
    pub run: Run,
    pub build: Option<Build>,
    /// Every relative path in the manifest resolves against this.
    pub dir: String,
}

pub open spec fn count3(a: bool, b: bool, c: bool) -> int {
    (if a { 1int } else { 0int }) + (if b { 1int } else { 0int }) + (if c { 1int } else { 0int })
}

/// A string of ASCII digits, as a number.
pub open spec fn digits_value(s: Seq<char>) -> int
    decreases s.len(),
{
    if s.len() == 0 {
        0
    } else {
        digits_value(s.drop_last()) * 10 + (s.last() as int - '0' as int)
    }
}

pub open spec fn all_digits(s: Seq<char>) -> bool {
    forall|i: int| 0 <= i < s.len() ==> '0' <= #[trigger] s[i] && s[i] <= '9'
}

/// A port number written in decimal.
pub open spec fn port_number(s: Seq<char>) -> Option<u16> {
    if s.len() > 0 && all_digits(s) && digits_value(s) <= 65535 {
        Some(digits_value(s) as u16)
    } else {
        None
    }
}

/// What a `--port` string says: `all`, `LOW-HIGH` (inclusive, LOW at most
/// HIGH), or one port.
pub open spec fn spec_port(s: Seq<char>) -> Option<PortSpec> {
    if s == "all"@ {
        Some(PortSpec::All)
    } else {
        match crate::text::find(s, '-') {
            Some(i) => match (port_number(s.take(i)), port_number(s.skip(i + 1))) {
                (Some(lo), Some(hi)) => if lo <= hi {
                    Some(PortSpec::Range(lo, hi))
                } else {
                    None
                },
                _ => None,
            },
            None => match port_number(s) {
                Some(p) => Some(PortSpec::One(p)),
                None => None,
            },
        }
    }
}

fn port_number_of(v: &[char]) -> (r: Option<u16>)
    ensures
        r == port_number(v@),
{
    if v.len() == 0 {
        return None;
    }
    let mut n: u32 = 0;
    let mut i: usize = 0;
    while i < v.len()
        invariant
            i <= v@.len(),
            v@.len() > 0,
            all_digits(v@.take(i as int)),
            n == digits_value(v@.take(i as int)),
            n <= 65535,
        decreases v@.len() - i,
    {
        let c = v[i];
        if !('0' <= c && c <= '9') {
            assert(!all_digits(v@)) by {
                assert(v@[i as int] == c);
            }
            return None;
        }
        let d = (c as u32) - ('0' as u32);
        proof {
            assert(v@.take(i + 1).drop_last() =~= v@.take(i as int));
            assert(v@.take(i + 1).last() == c);
        }
        if n * 10 + d > 65535 {
            proof {
                lemma_digits_grow(v@, i + 1);
                assert(digits_value(v@.take(i + 1)) == n * 10 + d);
            }
            return None;
        }
        n = n * 10 + d;
        i += 1;
        assert forall|k: int| 0 <= k < i implies '0' <= #[trigger] v@.take(i as int)[k] && v@.take(i as int)[k] <= '9' by {
            if k < i - 1 {
                assert(v@.take(i as int)[k] == v@.take(i - 1)[k]);
            }
        }
    }
    assert(v@.take(i as int) =~= v@);
    Some(n as u16)
}

proof fn lemma_digits_nonneg(s: Seq<char>)
    requires
        all_digits(s),
    ensures
        digits_value(s) >= 0,
    decreases s.len(),
{
    if s.len() > 0 {
        assert forall|j: int| 0 <= j < s.drop_last().len() implies '0' <= #[trigger] s.drop_last()[j] && s.drop_last()[j] <= '9' by {
            assert(s.drop_last()[j] == s[j]);
        }
        lemma_digits_nonneg(s.drop_last());
        assert('0' <= s[s.len() - 1]);
    }
}

/// Digits only grow a number.
proof fn lemma_digits_grow(s: Seq<char>, k: int)
    requires
        0 <= k <= s.len(),
    ensures
        all_digits(s) ==> digits_value(s) >= digits_value(s.take(k)),
    decreases s.len() - k,
{
    if k < s.len() && all_digits(s) {
        let t = s.take(k + 1);
        assert(t.drop_last() =~= s.take(k));
        assert(t.last() == s[k]);
        assert forall|j: int| 0 <= j < k implies '0' <= #[trigger] s.take(k)[j] && s.take(k)[j] <= '9' by {
            assert(s.take(k)[j] == s[j]);
        }
        lemma_digits_nonneg(s.take(k));
        assert('0' <= s[k]);
        assert(digits_value(t) >= digits_value(s.take(k)));
        lemma_digits_grow(s, k + 1);
    } else if k == s.len() {
        assert(s.take(k) =~= s);
    }
}

impl PortSpec {
    /// Read a `--port` string (see [`spec_port`]).
    pub fn parse(s: &str) -> (r: Result<PortSpec, String>)
        ensures
            match spec_port(s@) {
                Some(p) => r == Ok::<PortSpec, String>(p),
                None => r matches Err(m) && m@ == "port "@ + crate::text::debug_quoted(s@)
                    + ": expected a port number, LOW-HIGH or all"@,
            },
    {
        let v = chars_of(s);
        let r = if crate::text::same_text(s, "all") {
            Some(PortSpec::All)
        } else {
            proof {
                crate::text::lemma_find_from(v@, '-', 0);
            }
            match crate::text::find_char(&v, '-') {
                Some(i) => {
                    assert(i < v.len());
                    let lo = crate::text::slice_vec(&v, 0, i);
                    let hi = crate::text::slice_vec(&v, i + 1, v.len());
                    assert(lo@ =~= v@.take(i as int));
                    assert(hi@ =~= v@.skip(i + 1));
                    match (port_number_of(&lo), port_number_of(&hi)) {
                        (Some(a), Some(b)) => if a <= b {
                            Some(PortSpec::Range(a, b))
                        } else {
                            None
                        },
                        _ => None,
                    }
                },
                None => match port_number_of(&v) {
                    Some(p) => Some(PortSpec::One(p)),
                    None => None,
                },
            }
        };
        match r {
            Some(p) => Ok(p),
            None => {
                let mut m = "port ".to_owned();
                let q = crate::text::quoted(s);
                push_str(&mut m, q.as_str());
                push_str(&mut m, ": expected a port number, LOW-HIGH or all");
                Err(m)
            },
        }
    }
}

impl Port {
    /// The ports an entry names.
    pub fn to_spec(&self) -> (r: Result<PortSpec, String>)
        ensures
            match self {
                Port::Number(n) => r == Ok::<PortSpec, String>(PortSpec::One(*n)),
                Port::Spec(s) => match spec_port(s@) {
                    Some(p) => r == Ok::<PortSpec, String>(p),
                    None => r matches Err(m) && m@ == "port "@ + crate::text::debug_quoted(s@)
                        + ": expected a port number, LOW-HIGH or all"@,
                },
            },
    {
        match self {
            Port::Number(n) => Ok(PortSpec::One(*n)),
            Port::Spec(s) => PortSpec::parse(s.as_str()),
        }
    }
}

/// The single ports among port specs, in order.
pub open spec fn spec_ones(specs: Seq<PortSpec>) -> Seq<u16>
    decreases specs.len(),
{
    if specs.len() == 0 {
        seq![]
    } else {
        match specs.last() {
            PortSpec::One(p) => spec_ones(specs.drop_last()).push(p),
            _ => spec_ones(specs.drop_last()),
        }
    }
}

/// The ranges among port specs, in order.
pub open spec fn spec_ranges(specs: Seq<PortSpec>) -> Seq<(u16, u16)>
    decreases specs.len(),
{
    if specs.len() == 0 {
        seq![]
    } else {
        match specs.last() {
            PortSpec::Range(lo, hi) => spec_ranges(specs.drop_last()).push((lo, hi)),
            _ => spec_ranges(specs.drop_last()),
        }
    }
}

/// Whether some spec is `all`.
pub open spec fn spec_any_all(specs: Seq<PortSpec>) -> bool {
    exists|i: int| 0 <= i < specs.len() && #[trigger] specs[i] == PortSpec::All
}

/// The listen ports port specs add up to: every port when one spec is
/// `all`, else the single ports; the ranges either way.
pub fn listen_ports_of(specs: &Vec<PortSpec>) -> (lp: ListenPorts)
    ensures
        lp.every() == spec_any_all(specs@),
        lp.listed() == (if spec_any_all(specs@) {
            Set::<u16>::empty()
        } else {
            spec_ones(specs@).to_set()
        }),
        lp.spans() == spec_ranges(specs@),
{
    let mut all = false;
    let mut ports: Vec<u16> = Vec::new();
    let mut ranges: Vec<(u16, u16)> = Vec::new();
    let mut i: usize = 0;
    while i < specs.len()
        invariant
            i <= specs@.len(),
            all == spec_any_all(specs@.take(i as int)),
            ports@ == spec_ones(specs@.take(i as int)),
            ranges@ == spec_ranges(specs@.take(i as int)),
        decreases specs@.len() - i,
    {
        let ghost t = specs@.take(i + 1);
        proof {
            assert(t.drop_last() =~= specs@.take(i as int));
            assert(t.last() == specs@[i as int]);
        }
        match specs[i] {
            PortSpec::One(p) => {
                ports.push(p);
            },
            PortSpec::Range(lo, hi) => {
                ranges.push((lo, hi));
            },
            PortSpec::All => {
                all = true;
            },
        }
        proof {
            let a = specs@.take(i as int);
            if spec_any_all(t) && !spec_any_all(a) {
                let j = choose|j: int| 0 <= j < t.len() && #[trigger] t[j] == PortSpec::All;
                if j < i {
                    assert(a[j] == t[j]);
                }
            }
            if spec_any_all(a) {
                let j = choose|j: int| 0 <= j < a.len() && #[trigger] a[j] == PortSpec::All;
                assert(t[j] == a[j]);
            }
            if specs@[i as int] == PortSpec::All {
                assert(t[i as int] == PortSpec::All);
            }
        }
        i += 1;
    }
    assert(specs@.take(i as int) =~= specs@);
    let mut lp = if all {
        ListenPorts::all()
    } else {
        ListenPorts::from_ports(ports)
    };
    let ghost lp0 = lp;
    let mut k: usize = 0;
    while k < ranges.len()
        invariant
            k <= ranges@.len(),
            lp.every() == lp0.every(),
            lp.listed() == lp0.listed(),
            lp.spans() == ranges@.take(k as int),
        decreases ranges@.len() - k,
    {
        let (lo, hi) = ranges[k];
        lp = lp.with_range(lo, hi);
        assert(ranges@.take(k + 1) =~= ranges@.take(k as int).push((lo, hi)));
        k += 1;
    }
    assert(ranges@.take(k as int) =~= ranges@);
    lp
}

/// The memory a manifest fixes without looking at the rootfs: its
/// `scratch_mb`, else the tested size of the published runtime its image
/// names, else none.
pub open spec fn spec_known_scratch_mb(m: Manifest) -> Option<usize> {
    match m.run.scratch_mb {
        Some(mb) => Some(mb),
        None => match m.rootfs.image {
            Some(i) => match crate::registry::spec_parse(i@) {
                Ok((_, repo, _)) => match crate::initrd::runtime_mb(crate::initrd::last_component(repo)) {
                    Some(mb) => Some(mb as usize),
                    None => None,
                },
                Err(_) => None,
            },
            None => None,
        },
    }
}

/// What the network table may not say: more than one of `all`, `allow`
/// and `block`, or ports without any of them, or a port entry that does
/// not read.
pub open spec fn net_problem(net: Net) -> Option<Seq<char>> {
    let policies = count3(net.all, net.allow@.len() > 0, net.block@.len() > 0);
    if policies > 1 {
        Some("[run.net] sets more than one of all, allow and block"@)
    } else if policies == 0 && net.ports@.len() > 0 {
        Some("[run.net] ports need networking: set all = true, allow = [...] or block = [...]"@)
    } else {
        None
    }
}

/// The first port entry that does not read, if any.
pub open spec fn first_bad_port(ports: Seq<Port>, from: int) -> Option<int>
    decreases ports.len() - from,
{
    if from < 0 || from >= ports.len() {
        None
    } else if ports[from] matches Port::Spec(s) && spec_port(s@) is None {
        Some(from)
    } else {
        first_bad_port(ports, from + 1)
    }
}

/// Why a manifest is refused, checked in this order, or `None`: a
/// version this build does not read, an empty app name, not exactly one
/// rootfs source, more than one workload, an inconsistent network table.
pub open spec fn manifest_problem(m: Manifest) -> Option<Seq<char>> {
    if m.manifest_version != VERSION {
        Some("manifest_version "@ + decimal(m.manifest_version as nat) + " is not one this hluk reads (it reads 1)"@)
    } else if trim_ws(m.app.name@).len() == 0 {
        Some("[app] name is empty"@)
    } else if count3(m.rootfs.image is Some, m.rootfs.dockerfile is Some, m.rootfs.path is Some) != 1 {
        Some("[rootfs] needs exactly one of image, dockerfile or path"@)
    } else if count3(m.run.script is Some, m.run.code is Some, m.run.guest_exec is Some) > 1 {
        Some("[run] names more than one of script, exec and guest_exec"@)
    } else {
        match m.run.net {
            Some(net) => match net_problem(net) {
                Some(p) => Some(p),
                None => match first_bad_port(net.ports@, 0) {
                    Some(i) => match net.ports@[i] {
                        Port::Spec(s) => Some("port "@ + crate::text::debug_quoted(s@) + ": expected a port number, LOW-HIGH or all"@),
                        Port::Number(_) => None,
                    },
                    None => None,
                },
            },
            None => None,
        }
    }
}

fn count_of(a: bool, b: bool, c: bool) -> (n: u8)
    ensures
        n as int == count3(a, b, c),
{
    (if a { 1u8 } else { 0u8 }) + (if b { 1u8 } else { 0u8 }) + (if c { 1u8 } else { 0u8 })
}

impl Manifest {
    /// Check what TOML cannot (see [`manifest_problem`]).
    pub fn check(&self) -> (r: Result<(), String>)
        ensures
            match manifest_problem(*self) {
                Some(p) => r matches Err(m) && m@ == p,
                None => r is Ok,
            },
    {
        if self.manifest_version != VERSION {
            let mut m = "manifest_version ".to_owned();
            let d = decimal_string(self.manifest_version as u64);
            push_str(&mut m, d.as_str());
            push_str(&mut m, " is not one this hluk reads (it reads 1)");
            return Err(m);
        }
        let nc = chars_of(self.app.name.as_str());
        let t = crate::text::trim_chars(&nc);
        if t.len() == 0 {
            return Err("[app] name is empty".to_owned());
        }
        if count_of(self.rootfs.image.is_some(), self.rootfs.dockerfile.is_some(), self.rootfs.path.is_some()) != 1 {
            return Err("[rootfs] needs exactly one of image, dockerfile or path".to_owned());
        }
        if count_of(self.run.script.is_some(), self.run.code.is_some(), self.run.guest_exec.is_some()) > 1 {
            return Err("[run] names more than one of script, exec and guest_exec".to_owned());
        }
        match &self.run.net {
            Some(net) => {
                let policies = count_of(net.all, net.allow.len() > 0, net.block.len() > 0);
                if policies > 1 {
                    return Err("[run.net] sets more than one of all, allow and block".to_owned());
                }
                if policies == 0 && net.ports.len() > 0 {
                    return Err("[run.net] ports need networking: set all = true, allow = [...] or block = [...]".to_owned());
                }
                let ghost m = *self;
                assert(manifest_problem(m) == match first_bad_port(net.ports@, 0) {
                    Some(i) => match net.ports@[i] {
                        Port::Spec(s) => Some("port "@ + crate::text::debug_quoted(s@) + ": expected a port number, LOW-HIGH or all"@),
                        Port::Number(_) => None,
                    },
                    None => None,
                });
                let mut i: usize = 0;
                while i < net.ports.len()
                    invariant
                        i <= net.ports@.len(),
                        m == *self,
                        self.run.net == Some(*net),
                        first_bad_port(net.ports@, 0) == first_bad_port(net.ports@, i as int),
                        manifest_problem(m) == match first_bad_port(net.ports@, 0) {
                            Some(j) => match net.ports@[j] {
                                Port::Spec(s) => Some("port "@ + crate::text::debug_quoted(s@) + ": expected a port number, LOW-HIGH or all"@),
                                Port::Number(_) => None,
                            },
                            None => None::<Seq<char>>,
                        },
                    decreases net.ports@.len() - i,
                {
                    match net.ports[i].to_spec() {
                        Ok(_) => {},
                        Err(e) => {
                            assert(first_bad_port(net.ports@, i as int) == Some(i as int));
                            return Err(e);
                        },
                    }
                    i += 1;
                }
                Ok(())
            },
            None => Ok(()),
        }
    }

    /// The one rootfs source the manifest names.
    pub fn rootfs(&self) -> (r: RootfsSource)
        requires
            self.rootfs.image is Some || self.rootfs.dockerfile is Some || self.rootfs.path is Some,
        ensures
            match self.rootfs.image {
                Some(i) => r matches RootfsSource::Image(x) && x@ == i@,
                None => match self.rootfs.dockerfile {
                    Some(d) => r matches RootfsSource::Dockerfile(x) && x@ == d@,
                    None => r matches RootfsSource::Path(x) && x@ == self.rootfs.path->0@,
                },
            },
    {
        match &self.rootfs.image {
            Some(i) => RootfsSource::Image(i.clone()),
            None => match &self.rootfs.dockerfile {
                Some(d) => RootfsSource::Dockerfile(d.clone()),
                None => match &self.rootfs.path {
                    Some(p) => RootfsSource::Path(p.clone()),
                    None => RootfsSource::Path(String::new()),
                },
            },
        }
    }

    /// `path` as the manifest means it: an absolute one as it is, a
    /// relative one under the manifest's directory.
    pub fn resolve(&self, path: &str) -> (r: String)
        ensures
            r@ == spec_join(self.dir@, path@),
    {
        join_path(self.dir.as_str(), path)
    }

    /// The guest's memory when the manifest decides it: its `scratch_mb`,
    /// else the tested size of the image it names, by the image's name
    /// (`…/agent:initrd-v0.14.1` is `agent`).  `None` leaves it to the
    /// driver found in the rootfs.
    pub fn known_scratch_mb(&self) -> (r: Option<usize>)
        ensures
            r == spec_known_scratch_mb(*self),
    {
        if let Some(mb) = self.run.scratch_mb {
            return Some(mb);
        }
        match &self.rootfs.image {
            Some(i) => match crate::registry::Reference::parse(i.as_str()) {
                Ok(r) => {
                    let v = chars_of(r.repository.as_str());
                    proof {
                        crate::text::lemma_rfind_before(v@, '/', v@.len() as int);
                    }
                    let last = match crate::text::rfind_char(&v, '/') {
                        Some(k) => crate::text::slice_vec(&v, k + 1, v.len()),
                        None => crate::text::slice_vec(&v, 0, v.len()),
                    };
                    assert(v@.subrange(0, v@.len() as int) =~= v@);
                    let name = string_of(&last);
                    crate::initrd::runtime_scratch_mb(name.as_str())
                },
                Err(_) => None,
            },
            None => None,
        }
    }

    /// Where `hluk build` writes this project's state.
    pub fn state_dir(&self) -> (r: String)
        ensures
            r@ == spec_join(self.dir@, ".hluk"@),
    {
        join_path(self.dir.as_str(), ".hluk")
    }

    /// What `run` asks the guest to do.
    pub fn workload(&self) -> (w: Workload)
        ensures
            match self.run.script {
                Some(s) => w matches Workload::Script(p) && p@ == spec_join(self.dir@, s@),
                None => match self.run.code {
                    Some(c) => w matches Workload::Exec(x) && x@ == c@,
                    None => match self.run.guest_exec {
                        Some(g) => w matches Workload::GuestExec(x) && x@ == g@,
                        None => w == Workload::Conventional,
                    },
                },
            },
    {
        match &self.run.script {
            Some(s) => Workload::Script(self.resolve(s.as_str())),
            None => match &self.run.code {
                Some(c) => Workload::Exec(c.clone()),
                None => match &self.run.guest_exec {
                    Some(g) => Workload::GuestExec(g.clone()),
                    None => Workload::Conventional,
                },
            },
        }
    }

    /// The mounts, host paths resolved against the manifest.
    pub fn mounts(&self) -> (r: Vec<Mount>)
        ensures
            r@.len() == crate::args::mounts_of(crate::github::texts(self.run.mounts@)).len(),
            forall|i: int| 0 <= i < r@.len() ==> {
                let m = #[trigger] crate::args::mounts_of(crate::github::texts(self.run.mounts@))[i];
                &&& r@[i].host_path@ == spec_join(self.dir@, m.0)
                &&& r@[i].guest_path@ == m.1
                &&& r@[i].readonly == m.2
            },
    {
        let parsed = crate::args::parse_mounts(&self.run.mounts);
        let ghost ms = crate::args::mounts_of(crate::github::texts(self.run.mounts@));
        let mut out: Vec<Mount> = Vec::new();
        let mut i: usize = 0;
        while i < parsed.len()
            invariant
                i <= parsed@.len(),
                crate::args::mount_views(parsed@) == ms,
                out@.len() == i,
                forall|k: int| 0 <= k < i ==> {
                    let m = #[trigger] ms[k];
                    &&& out@[k].host_path@ == spec_join(self.dir@, m.0)
                    &&& out@[k].guest_path@ == m.1
                    &&& out@[k].readonly == m.2
                },
            decreases parsed@.len() - i,
        {
            let m = &parsed[i];
            proof {
                assert(ms[i as int] == (m.host_path@, m.guest_path@, m.readonly));
            }
            out.push(Mount { host_path: self.resolve(m.host_path.as_str()), guest_path: m.guest_path.clone(), readonly: m.readonly });
            i += 1;
        }
        out
    }

    /// Whether `hluk build` has anything to do for this project.
    pub fn needs_build(&self) -> (r: bool)
        ensures
            r == (self.build is Some || self.rootfs.dockerfile is Some),
    {
        self.build.is_some() || self.rootfs.dockerfile.is_some()
    }

    /// The network policy and listen ports, as `hluk run` builds them from
    /// its flags; the names of the lists as the host resolved them.
    /// The network table as a policy and listen ports, the way the
    /// `--net` flags would give them (see [`crate::args::net_from_flags`]);
    /// `allow` and `block` are the table's entries as they resolved.
    pub fn network(&self, allow: &Vec<HostEntry>, block: &Vec<HostEntry>, system_resolvers: Vec<IpAddress>) -> (r: Result<(Option<NetworkPolicy>, Option<ListenPorts>), String>)
        ensures
            match self.run.net {
                None => r matches Ok((p, l)) && p is None && l is None,
                Some(n) => match first_bad_port(n.ports@, 0) {
                    Some(i) => r matches Err(e) && (n.ports@[i] matches Port::Spec(s) && e@ == "port "@
                        + crate::text::debug_quoted(s@) + ": expected a port number, LOW-HIGH or all"@),
                    None => match crate::args::flags_error(n.all, allow@, block@, n.ports@.len() > 0) {
                        Some(m) => r matches Err(e) && e@ == m,
                        None => r matches Ok((p, l)) && crate::args::flags_policy(p, n.all, allow@, block@, system_resolvers@)
                            && (n.ports@.len() > 0 <==> l is Some) && (l matches Some(lp)
                            ==> crate::args::specs_listen(lp, port_specs(n.ports@))),
                    },
                },
            },
    {
        let net = match &self.run.net {
            Some(n) => n,
            None => {
                return Ok((None, None));
            },
        };
        let mut specs: Vec<PortSpec> = Vec::new();
        let mut i: usize = 0;
        while i < net.ports.len()
            invariant
                self.run.net == Some(*net),
                i <= net.ports@.len(),
                specs@ == port_specs(net.ports@).take(i as int),
                first_bad_port(net.ports@, 0) == first_bad_port(net.ports@, i as int),
            decreases net.ports@.len() - i,
        {
            match net.ports[i].to_spec() {
                Ok(s) => {
                    specs.push(s);
                    proof {
                        lemma_good_port_skipped(net.ports@, i as int);
                    }
                },
                Err(e) => {
                    assert(first_bad_port(net.ports@, i as int) == Some(i as int));
                    return Err(e);
                },
            }
            i += 1;
            assert(specs@ =~= port_specs(net.ports@).take(i as int));
        }
        assert(port_specs(net.ports@).take(i as int) =~= port_specs(net.ports@));
        assert(first_bad_port(net.ports@, i as int) is None);
        crate::args::net_from_flags(net.all, allow, block, system_resolvers, &specs)
    }
}

/// The port specs that readable port entries name.
pub open spec fn port_specs(ports: Seq<Port>) -> Seq<PortSpec> {
    Seq::new(
        ports.len(),
        |i: int|
            match ports[i] {
                Port::Number(n) => PortSpec::One(n),
                Port::Spec(s) => match spec_port(s@) {
                    Some(p) => p,
                    None => PortSpec::All,
                },
            },
    )
}

proof fn lemma_good_port_skipped(ports: Seq<Port>, i: int)
    requires
        0 <= i < ports.len(),
        !(ports[i] matches Port::Spec(s) && spec_port(s@) is None),
    ensures
        first_bad_port(ports, i) == first_bad_port(ports, i + 1),
{
}

impl RootfsSource {
    /// How a message names the source.
    pub fn describe(&self) -> (r: String)
        ensures
            r@ == match self {
                RootfsSource::Image(i) => "image "@ + i@,
                RootfsSource::Dockerfile(p) => "Dockerfile "@ + p@,
                RootfsSource::Path(p) => p@,
            },
    {
        match self {
            RootfsSource::Image(i) => {
                let mut s = "image ".to_owned();
                push_str(&mut s, i.as_str());
                s
            },
            RootfsSource::Dockerfile(p) => {
                let mut s = "Dockerfile ".to_owned();
                push_str(&mut s, p.as_str());
                s
            },
            RootfsSource::Path(p) => p.clone(),
        }
    }
}

/// `path` under `dir`, as `Path::join` puts it: an absolute `path` as it
/// is; otherwise `dir`, a `/` unless `dir` is empty or ends with one, and
/// `path`.
pub open spec fn spec_join(dir: Seq<char>, path: Seq<char>) -> Seq<char> {
    if path.len() > 0 && path[0] == '/' {
        path
    } else if dir.len() == 0 || dir.last() == '/' {
        dir + path
    } else {
        dir + seq!['/'] + path
    }
}

/// `path` under `dir` (see [`spec_join`]).
pub fn join_path(dir: &str, path: &str) -> (r: String)
    ensures
        r@ == spec_join(dir@, path@),
{
    let p = chars_of(path);
    if p.len() > 0 && p[0] == '/' {
        return path.to_owned();
    }
    let d = chars_of(dir);
    let mut s = dir.to_owned();
    if !(d.len() == 0 || d[d.len() - 1] == '/') {
        push_char(&mut s, '/');
    }
    push_str(&mut s, path);
    s
}

} // verus!
