//! Image references and the registry protocol's decisions: which image a
//! runtime name stands for, what a reference may hold (it becomes a cache
//! path), the anonymous bearer-token exchange, and the layer's digest.
use vstd::prelude::*;

use crate::text::{
    chars_of, debug_quoted, find, find_char, lemma_find_from, lemma_rfind_before, push_char,
    push_chars, push_str, quoted, rfind, rfind_char, slice_vec, string_of, trim_chars, trim_ws,
};

verus! {

/// Where the project's images live.
pub const DEFAULT_REGISTRY: &'static str = "ghcr.io/hyperlight-dev/hyperlight-unikraft";

/// This build's release, which names the image tags it matches.
pub const VERSION: &'static str = "0.14.1";

/// `s` without the prefix `p`, when it starts with it.
pub open spec fn strip_prefix(s: Seq<char>, p: Seq<char>) -> Option<Seq<char>> {
    if p.len() <= s.len() && s.subrange(0, p.len() as int) == p {
        Some(s.subrange(p.len() as int, s.len() as int))
    } else {
        None
    }
}

pub(crate) fn strip_prefix_of(v: &[char], p: &str) -> (r: Option<Vec<char>>)
    ensures
        match strip_prefix(v@, p@) {
            Some(rest) => r matches Some(w) && w@ == rest,
            None => r is None,
        },
{
    let pc = chars_of(p);
    if crate::text::starts_with(v, &pc) {
        Some(slice_vec(v, pc.len(), v.len()))
    } else {
        None
    }
}

/// The registry `init` renders into a project: the flag, else the
/// environment's `HLUK_REGISTRY`, else the project's own; a URL scheme a
/// user pasted is dropped, and trailing `/`s.
pub open spec fn spec_registry(flag: Option<Seq<char>>, env: Option<Seq<char>>) -> Seq<char> {
    let raw = match flag {
        Some(f) => f,
        None => match env {
            Some(e) => e,
            None => DEFAULT_REGISTRY@,
        },
    };
    let stripped = match strip_prefix(raw, "https://"@) {
        Some(r) => r,
        None => match strip_prefix(raw, "http://"@) {
            Some(r) => r,
            None => raw,
        },
    };
    crate::text::trim_end(stripped, '/')
}

pub fn registry(flag: Option<String>, env: Option<String>) -> (r: String)
    ensures
        r@ == spec_registry(crate::initrd::opt_text(flag), crate::initrd::opt_text(env)),
{
    let raw = match flag {
        Some(f) => f,
        None => match env {
            Some(e) => e,
            None => DEFAULT_REGISTRY.to_owned(),
        },
    };
    let v = chars_of(raw.as_str());
    let stripped = match strip_prefix_of(&v, "https://") {
        Some(r) => r,
        None => match strip_prefix_of(&v, "http://") {
            Some(r) => r,
            None => v,
        },
    };
    let n = crate::text::trim_end_len(&stripped, '/');
    let t = crate::text::prefix(&stripped, n);
    string_of(&t)
}

/// `s` without any leading `c`.
pub open spec fn trim_start_char(s: Seq<char>, c: char) -> Seq<char>
    decreases s.len(),
{
    if s.len() > 0 && s[0] == c {
        trim_start_char(s.drop_first(), c)
    } else {
        s
    }
}

/// The release whose images `init` writes into a project: the flag, else
/// the environment's `HLUK_IMAGE_VERSION`, trimmed and bare of leading
/// `v`s, else this build's own when that leaves nothing.
pub open spec fn spec_image_version(flag: Option<Seq<char>>, env: Option<Seq<char>>) -> Seq<char> {
    let given = match flag {
        Some(f) => Some(f),
        None => env,
    };
    match given {
        Some(g) => if trim_start_char(trim_ws(g), 'v').len() > 0 {
            trim_start_char(trim_ws(g), 'v')
        } else {
            VERSION@
        },
        None => VERSION@,
    }
}

pub fn image_version(flag: Option<String>, env: Option<String>) -> (r: String)
    ensures
        r@ == spec_image_version(crate::initrd::opt_text(flag), crate::initrd::opt_text(env)),
{
    let given = match flag {
        Some(f) => Some(f),
        None => env,
    };
    match given {
        Some(g) => {
            let v = chars_of(g.as_str());
            let t = trim_chars(&v);
            let mut i: usize = 0;
            assert(t@.subrange(0, t@.len() as int) =~= t@);
            while i < t.len() && t[i] == 'v'
                invariant
                    i <= t@.len(),
                    trim_start_char(t@.subrange(i as int, t@.len() as int), 'v') == trim_start_char(t@, 'v'),
                decreases t@.len() - i,
            {
                assert(t@.subrange(i as int, t@.len() as int).drop_first() =~= t@.subrange(i + 1, t@.len() as int));
                i += 1;
            }
            let rest = slice_vec(&t, i, t.len());
            if rest.len() > 0 {
                string_of(&rest)
            } else {
                VERSION.to_owned()
            }
        },
        None => VERSION.to_owned(),
    }
}

/// The runnable CPIO image for `runtime` at `version`:
/// `<registry>/<runtime>:initrd-v<version>`.
pub fn initrd_image(registry: &str, runtime: &str, version: &str) -> (r: String)
    ensures
        r@ == registry@ + seq!['/'] + runtime@ + ":initrd-v"@ + version@,
{
    let mut s = registry.to_owned();
    push_char(&mut s, '/');
    push_str(&mut s, runtime);
    push_str(&mut s, ":initrd-v");
    push_str(&mut s, version);
    s
}

/// The filesystem image for `runtime` at `version`, to build `FROM`:
/// `<registry>/<runtime>:v<version>`.
pub fn base_image(registry: &str, runtime: &str, version: &str) -> (r: String)
    ensures
        r@ == registry@ + seq!['/'] + runtime@ + ":v"@ + version@,
{
    let mut s = registry.to_owned();
    push_char(&mut s, '/');
    push_str(&mut s, runtime);
    push_str(&mut s, ":v");
    push_str(&mut s, version);
    s
}

/// The image a `--runtime` value names: a full reference as given
/// (anything with a `/`), or a runtime name composed with the registry
/// and the release.
pub fn runtime_image(spec: &str, registry: &str, version: &str) -> (r: String)
    ensures
        r@ == (if spec@.contains('/') {
            spec@
        } else {
            registry@ + seq!['/'] + spec@ + ":initrd-v"@ + version@
        }),
{
    let v = chars_of(spec);
    if crate::text::contains_char(&v, '/') {
        spec.to_owned()
    } else {
        initrd_image(registry, spec, version)
    }
}

pub open spec fn is_alnum(c: char) -> bool {
    ('a' <= c && c <= 'z') || ('A' <= c && c <= 'Z') || ('0' <= c && c <= '9')
}

pub open spec fn is_digit(c: char) -> bool {
    '0' <= c && c <= '9'
}

pub open spec fn lower_or_digit(c: char) -> bool {
    ('a' <= c && c <= 'z') || ('0' <= c && c <= '9')
}

pub open spec fn host_char(c: char) -> bool {
    is_alnum(c) || c == '.' || c == '-'
}

pub open spec fn repo_char(c: char) -> bool {
    lower_or_digit(c) || c == '.' || c == '_' || c == '-' || c == '/'
}

pub open spec fn tag_char(c: char) -> bool {
    is_alnum(c) || c == '_' || c == '.' || c == '-'
}

pub open spec fn all_host_chars(s: Seq<char>) -> bool {
    forall|i: int| 0 <= i < s.len() ==> host_char(#[trigger] s[i])
}

pub open spec fn all_digits(s: Seq<char>) -> bool {
    forall|i: int| 0 <= i < s.len() ==> is_digit(#[trigger] s[i])
}

pub open spec fn all_tag_chars(s: Seq<char>) -> bool {
    forall|i: int| 0 <= i < s.len() ==> tag_char(#[trigger] s[i])
}

/// A DNS name's dots: it neither starts nor ends with one and never has
/// two in a row, so every `.`-separated label is non-empty (and none is
/// `.` or `..`).
pub open spec fn dns_labels(name: Seq<char>) -> bool {
    &&& name.len() > 0
    &&& name[0] != '.'
    &&& name.last() != '.'
    &&& forall|i: int| 0 <= i < name.len() - 1 && #[trigger] name[i] == '.' ==> name[i + 1] != '.'
}

/// A registry host: a DNS name, with an optional numeric port.
pub open spec fn valid_host(host: Seq<char>) -> bool {
    let name = match find(host, ':') {
        Some(i) => host.take(i),
        None => host,
    };
    let port = match find(host, ':') {
        Some(i) => host.skip(i + 1),
        None => seq!['0'],
    };
    name.len() > 0 && all_host_chars(name) && dns_labels(name) && port.len() > 0 && all_digits(port)
}

/// A repository as the distribution spec allows it: `/`-separated
/// components, each starting with a lowercase letter or digit and made
/// of those and `.`, `_`, `-`.
pub open spec fn valid_repository(r: Seq<char>) -> bool {
    &&& r.len() > 0 && lower_or_digit(r[0])
    &&& forall|i: int| 0 <= i < r.len() ==> repo_char(#[trigger] r[i])
    &&& forall|i: int| 0 <= i < r.len() && #[trigger] r[i] == '/' ==> i + 1 < r.len() && lower_or_digit(r[i + 1])
}

/// A tag (letters, digits, `_`, `.`, `-`, at most 128, not starting with
/// `.` or `-`) or a `sha256:` digest of 64 hex digits.
pub open spec fn valid_reference(x: Seq<char>) -> bool {
    match strip_prefix(x, "sha256:"@) {
        Some(h) => h.len() == 64 && crate::guest::all_hex_chars(h),
        None => 0 < x.len() <= 128 && (is_alnum(x[0]) || x[0] == '_') && all_tag_chars(x),
    }
}

fn host_ok(host: &[char]) -> (r: bool)
    ensures
        r == valid_host(host@),
{
    let (name, port) = match find_char(host, ':') {
        Some(i) => {
            proof {
                lemma_find_from(host@, ':', 0);
            }
            assert(i < host.len());
            (slice_vec(host, 0, i), slice_vec(host, i + 1, host.len()))
        },
        None => {
            let mut p: Vec<char> = Vec::new();
            p.push('0');
            assert(p@ =~= seq!['0']);
            (slice_vec(host, 0, host.len()), p)
        },
    };
    proof {
        assert(host@.subrange(0, host@.len() as int) =~= host@);
    }
    let ghost gname = match find(host@, ':') {
        Some(i) => host@.take(i),
        None => host@,
    };
    let ghost gport = match find(host@, ':') {
        Some(i) => host@.skip(i + 1),
        None => seq!['0'],
    };
    assert(name@ =~= gname);
    assert(port@ =~= gport);
    if name.len() == 0 || port.len() == 0 {
        return false;
    }
    if name[0] == '.' || name[name.len() - 1] == '.' {
        return false;
    }
    let mut j: usize = 0;
    assert(valid_host(host@) ==> dns_labels(gname));
    while j < name.len() - 1
        invariant
            j < name@.len(),
            name@ == gname,
            valid_host(host@) ==> dns_labels(gname),
            forall|q: int| 0 <= q < j && #[trigger] name@[q] == '.' ==> name@[q + 1] != '.',
        decreases name@.len() - j,
    {
        if name[j] == '.' && name[j + 1] == '.' {
            return false;
        }
        j += 1;
    }
    assert(dns_labels(gname));
    let mut i: usize = 0;
    while i < name.len()
        invariant
            i <= name@.len(),
            name@ == gname,
            port@ == gport,
            gname.len() > 0 && gport.len() > 0,
            valid_host(host@) == (all_host_chars(gname) && all_digits(gport)),
            forall|j: int| 0 <= j < i ==> host_char(#[trigger] name@[j]),
        decreases name@.len() - i,
    {
        let c = name[i];
        if !((('a' <= c && c <= 'z') || ('A' <= c && c <= 'Z') || ('0' <= c && c <= '9')) || c == '.' || c == '-') {
            return false;
        }
        i += 1;
    }
    let mut k: usize = 0;
    while k < port.len()
        invariant
            k <= port@.len(),
            all_host_chars(name@),
            name@ == gname,
            port@ == gport,
            valid_host(host@) == (all_host_chars(gname) && all_digits(gport)),
            forall|j: int| 0 <= j < k ==> is_digit(#[trigger] port@[j]),
        decreases port@.len() - k,
    {
        let c = port[k];
        if !('0' <= c && c <= '9') {
            return false;
        }
        k += 1;
    }
    true
}

fn repository_ok(r: &[char]) -> (ok: bool)
    ensures
        ok == valid_repository(r@),
{
    if r.len() == 0 {
        return false;
    }
    let c0 = r[0];
    if !(('a' <= c0 && c0 <= 'z') || ('0' <= c0 && c0 <= '9')) {
        return false;
    }
    let mut i: usize = 0;
    while i < r.len()
        invariant
            i <= r@.len(),
            r@.len() > 0 && lower_or_digit(r@[0]),
            forall|j: int| 0 <= j < i ==> repo_char(#[trigger] r@[j]),
            forall|j: int| 0 <= j < i && #[trigger] r@[j] == '/' ==> j + 1 < r@.len() && lower_or_digit(r@[j + 1]),
        decreases r@.len() - i,
    {
        let c = r[i];
        if !(('a' <= c && c <= 'z') || ('0' <= c && c <= '9') || c == '.' || c == '_' || c == '-' || c == '/') {
            assert(!repo_char(r@[i as int]));
            return false;
        }
        if c == '/' {
            if i + 1 >= r.len() {
                return false;
            }
            let d = r[i + 1];
            if !(('a' <= d && d <= 'z') || ('0' <= d && d <= '9')) {
                return false;
            }
        }
        i += 1;
    }
    true
}

fn reference_ok(x: &[char]) -> (ok: bool)
    ensures
        ok == valid_reference(x@),
{
    match strip_prefix_of(x, "sha256:") {
        Some(h) => {
            if h.len() != 64 {
                return false;
            }
            let mut i: usize = 0;
            while i < h.len()
                invariant
                    i <= h@.len(),
                    strip_prefix(x@, "sha256:"@) == Some(h@),
                    h@.len() == 64,
                    forall|j: int| 0 <= j < i ==> crate::guest::is_hex_char(#[trigger] h@[j]),
                decreases h@.len() - i,
            {
                let c = h[i];
                if !(('0' <= c && c <= '9') || ('a' <= c && c <= 'f') || ('A' <= c && c <= 'F')) {
                    assert(!crate::guest::is_hex_char(h@[i as int]));
                    return false;
                }
                i += 1;
            }
            true
        },
        None => {
            if x.len() == 0 || x.len() > 128 {
                return false;
            }
            let c0 = x[0];
            if !((('a' <= c0 && c0 <= 'z') || ('A' <= c0 && c0 <= 'Z') || ('0' <= c0 && c0 <= '9')) || c0 == '_') {
                return false;
            }
            let mut i: usize = 0;
            while i < x.len()
                invariant
                    i <= x@.len(),
                    strip_prefix(x@, "sha256:"@) is None,
                    0 < x@.len() <= 128,
                    is_alnum(x@[0]) || x@[0] == '_',
                    forall|j: int| 0 <= j < i ==> tag_char(#[trigger] x@[j]),
                decreases x@.len() - i,
            {
                let c = x[i];
                if !((('a' <= c && c <= 'z') || ('A' <= c && c <= 'Z') || ('0' <= c && c <= '9')) || c == '_' || c == '.' || c == '-') {
                    assert(!tag_char(x@[i as int]));
                    return false;
                }
                i += 1;
            }
            true
        },
    }
}

/// A parsed image reference: `host/repository[:tag|@digest]`.
#[derive(Debug, Clone, PartialEq, Eq)]
pub struct Reference {
    pub host: String,
    pub repository: String,
    /// A tag, or a `sha256:…` digest.
    pub reference: String,
}

/// The host, repository and reference of `s`, or why it is refused.  The
/// first component must be a registry host (it has a `.` or a `:`, or is
/// `localhost`): these images are never on Docker Hub, so the implicit
/// `docker.io` would only hide a typo.  A digest follows `@`, a tag the
/// last `:`, and a reference with neither is `latest`.
pub open spec fn spec_parse(s0: Seq<char>) -> Result<(Seq<char>, Seq<char>, Seq<char>), Seq<char>> {
    let s = trim_ws(s0);
    let q = debug_quoted(s);
    match find(s, '/') {
        None => Err("image "@ + q + ": expected host/repository[:tag]"@),
        Some(i) => {
            let host = s.take(i);
            let rest = s.skip(i + 1);
            if !(host.contains('.') || host.contains(':') || host == "localhost"@) {
                Err("image "@ + q + ": must start with a registry host, e.g. "@ + DEFAULT_REGISTRY@ + "/python"@)
            } else {
                let repo = match find(rest, '@') {
                    Some(j) => rest.take(j),
                    None => match rfind(rest, ':') {
                        Some(j) => rest.take(j),
                        None => rest,
                    },
                };
                let reference = match find(rest, '@') {
                    Some(j) => rest.skip(j + 1),
                    None => match rfind(rest, ':') {
                        Some(j) => rest.skip(j + 1),
                        None => "latest"@,
                    },
                };
                if repo.len() == 0 || reference.len() == 0 {
                    Err("image "@ + q + ": empty repository or tag"@)
                } else if !valid_host(host) || !valid_repository(repo) || !valid_reference(reference) {
                    Err("image "@ + q
                        + ": a repository is lowercase path components, a tag is letters, digits, `.`, `_` and `-`, a digest is sha256:<64 hex digits>"@)
                } else {
                    Ok((host, repo, reference))
                }
            }
        },
    }
}

/// How a reference is written: `host/repository:tag`, or
/// `host/repository@digest` for a reference with a `:` (a digest).
pub open spec fn spec_display(host: Seq<char>, repo: Seq<char>, reference: Seq<char>) -> Seq<char> {
    host + seq!['/'] + repo + (if reference.contains(':') {
        seq!['@']
    } else {
        seq![':']
    }) + reference
}

/// Where a reference's CPIO is cached, under the cache's `rootfs`
/// directory: `host/repository/reference.cpio`, colons made `_`.
pub open spec fn spec_cache_relpath(host: Seq<char>, repo: Seq<char>, reference: Seq<char>) -> Seq<char> {
    colons_out(host) + seq!['/'] + repo + seq!['/'] + colons_out(reference) + ".cpio"@
}

/// A relative path that stays below where it is joined: it does not
/// start with `/`, and each of its `/`-separated components is non-empty
/// and does not start with `.`, so none is `.` or `..`.
pub open spec fn stays_below(p: Seq<char>) -> bool {
    &&& p.len() > 0
    &&& p[0] != '/' && p[0] != '.'
    &&& forall|i: int| 0 <= i < p.len() && #[trigger] p[i] == '/' ==> i + 1 < p.len() && p[i + 1] != '/' && p[
        i + 1
    ] != '.'
}

/// `s` with every `:` made `_`.
pub open spec fn colons_out(s: Seq<char>) -> Seq<char> {
    Seq::new(s.len(), |i: int| if s[i] == ':' { '_' } else { s[i] })
}

fn replace_colons(v: &[char]) -> (r: Vec<char>)
    ensures
        r@ == colons_out(v@),
{
    let mut r: Vec<char> = Vec::new();
    let mut i: usize = 0;
    while i < v.len()
        invariant
            i <= v@.len(),
            r@ == colons_out(v@.take(i as int)),
        decreases v@.len() - i,
    {
        r.push(if v[i] == ':' {
            '_'
        } else {
            v[i]
        });
        i += 1;
        assert(r@ =~= colons_out(v@.take(i as int)));
    }
    assert(v@.take(i as int) =~= v@);
    r
}

impl Reference {
    /// The reference's parts as text.
    pub open spec fn parts(&self) -> (Seq<char>, Seq<char>, Seq<char>) {
        (self.host@, self.repository@, self.reference@)
    }

    /// Parse `ghcr.io/owner/repo/python:initrd-v0.14.1` and friends.
    /// Nothing that is not a plain name gets through: the cache path is
    /// built from the parts.
    pub fn parse(s: &str) -> (r: Result<Reference, String>)
        ensures
            match spec_parse(s@) {
                Ok(p) => r matches Ok(x) && x.parts() == p,
                Err(m) => r matches Err(e) && e@ == m,
            },
    {
        let v0 = chars_of(s);
        let sv = trim_chars(&v0);
        let st = string_of(&sv);
        let q = quoted(st.as_str());
        let i = match find_char(&sv, '/') {
            Some(i) => i,
            None => {
                let mut m = "image ".to_owned();
                push_str(&mut m, q.as_str());
                push_str(&mut m, ": expected host/repository[:tag]");
                return Err(m);
            },
        };
        proof {
            lemma_find_from(sv@, '/', 0);
        }
        assert(i < sv.len());
        let host = slice_vec(&sv, 0, i);
        let rest = slice_vec(&sv, i + 1, sv.len());
        assert(host@ =~= sv@.take(i as int));
        assert(rest@ =~= sv@.skip(i + 1));
        let host_s = string_of(&host);
        let qualified = crate::text::contains_char(&host, '.') || crate::text::contains_char(&host, ':')
            || crate::text::same_text(host_s.as_str(), "localhost");
        if !qualified {
            let mut m = "image ".to_owned();
            push_str(&mut m, q.as_str());
            push_str(&mut m, ": must start with a registry host, e.g. ");
            push_str(&mut m, DEFAULT_REGISTRY);
            push_str(&mut m, "/python");
            return Err(m);
        }
        let (repo, reference) = match find_char(&rest, '@') {
            Some(j) => {
                proof {
                    lemma_find_from(rest@, '@', 0);
                }
                (slice_vec(&rest, 0, j), slice_vec(&rest, j + 1, rest.len()))
            },
            None => match rfind_char(&rest, ':') {
                Some(j) => {
                    proof {
                        lemma_rfind_before(rest@, ':', rest@.len() as int);
                    }
                    (slice_vec(&rest, 0, j), slice_vec(&rest, j + 1, rest.len()))
                },
                None => (slice_vec(&rest, 0, rest.len()), chars_of("latest")),
            },
        };
        let ghost grepo = match find(rest@, '@') {
            Some(j) => rest@.take(j),
            None => match rfind(rest@, ':') {
                Some(j) => rest@.take(j),
                None => rest@,
            },
        };
        let ghost gref = match find(rest@, '@') {
            Some(j) => rest@.skip(j + 1),
            None => match rfind(rest@, ':') {
                Some(j) => rest@.skip(j + 1),
                None => "latest"@,
            },
        };
        assert(repo@ =~= grepo);
        assert(reference@ =~= gref);
        if repo.len() == 0 || reference.len() == 0 {
            let mut m = "image ".to_owned();
            push_str(&mut m, q.as_str());
            push_str(&mut m, ": empty repository or tag");
            return Err(m);
        }
        if !host_ok(&host) || !repository_ok(&repo) || !reference_ok(&reference) {
            let mut m = "image ".to_owned();
            push_str(&mut m, q.as_str());
            push_str(
                &mut m,
                ": a repository is lowercase path components, a tag is letters, digits, `.`, `_` and `-`, a digest is sha256:<64 hex digits>",
            );
            return Err(m);
        }
        Ok(Reference { host: host_s, repository: string_of(&repo), reference: string_of(&reference) })
    }

    /// The reference as it is written (see [`spec_display`]).
    pub fn to_string(&self) -> (r: String)
        ensures
            r@ == spec_display(self.host@, self.repository@, self.reference@),
    {
        let rv = chars_of(self.reference.as_str());
        let mut s = self.host.clone();
        push_char(&mut s, '/');
        push_str(&mut s, self.repository.as_str());
        if crate::text::contains_char(&rv, ':') {
            push_char(&mut s, '@');
        } else {
            push_char(&mut s, ':');
        }
        push_str(&mut s, self.reference.as_str());
        s
    }

    /// Where this image's CPIO is cached under a cache root: the reference
    /// laid out as directories, with `:` (a host's port, a digest's
    /// algorithm) made filename-safe.
    pub fn cache_relpath(&self) -> (r: String)
        ensures
            r@ == spec_cache_relpath(self.host@, self.repository@, self.reference@),
    {
        let h = replace_colons(&chars_of(self.host.as_str()));
        let f = replace_colons(&chars_of(self.reference.as_str()));
        let mut s = String::new();
        push_chars(&mut s, &h);
        push_char(&mut s, '/');
        push_str(&mut s, self.repository.as_str());
        push_char(&mut s, '/');
        push_chars(&mut s, &f);
        push_str(&mut s, ".cpio");
        s
    }

    /// The manifest of `reference` (a tag or digest) in this repository.
    pub fn manifest_url(&self, reference: &str) -> (r: String)
        ensures
            r@ == "https://"@ + self.host@ + "/v2/"@ + self.repository@ + "/manifests/"@ + reference@,
    {
        let mut s = "https://".to_owned();
        push_str(&mut s, self.host.as_str());
        push_str(&mut s, "/v2/");
        push_str(&mut s, self.repository.as_str());
        push_str(&mut s, "/manifests/");
        push_str(&mut s, reference);
        s
    }

    /// The blob `digest` in this repository.
    pub fn blob_url(&self, digest: &str) -> (r: String)
        ensures
            r@ == "https://"@ + self.host@ + "/v2/"@ + self.repository@ + "/blobs/"@ + digest@,
    {
        let mut s = "https://".to_owned();
        push_str(&mut s, self.host.as_str());
        push_str(&mut s, "/v2/");
        push_str(&mut s, self.repository.as_str());
        push_str(&mut s, "/blobs/");
        push_str(&mut s, digest);
        s
    }
}

/// The part of `s` before its first `:` or `@`.
pub open spec fn before_tag(s: Seq<char>) -> Seq<char>
    decreases s.len(),
{
    if s.len() == 0 {
        s
    } else if s[0] == ':' || s[0] == '@' {
        seq![]
    } else {
        seq![s[0]] + before_tag(s.drop_first())
    }
}

/// The runtime name a `--runtime` value carries: itself for a name; for
/// a reference that parses, its repository's last component.
pub open spec fn spec_runtime_name(spec: Seq<char>) -> Option<Seq<char>> {
    if spec.contains('/') {
        match spec_parse(spec) {
            Ok(_) => Some(before_tag(crate::initrd::last_component(spec))),
            Err(_) => None,
        }
    } else {
        Some(spec)
    }
}

fn before_tag_of(v: &[char]) -> (r: Vec<char>)
    ensures
        r@ == before_tag(v@),
{
    let mut i: usize = 0;
    assert(v@.take(0) =~= Seq::<char>::empty());
    assert(v@.skip(0) =~= v@);
    while i < v.len() && v[i] != ':' && v[i] != '@'
        invariant
            i <= v@.len(),
            before_tag(v@) == v@.take(i as int) + before_tag(v@.skip(i as int)),
        decreases v@.len() - i,
    {
        proof {
            assert(v@.skip(i as int).drop_first() =~= v@.skip(i + 1));
            assert(v@.take(i + 1) =~= v@.take(i as int) + seq![v@[i as int]]);
        }
        i += 1;
    }
    proof {
        assert(v@.take(0) =~= Seq::<char>::empty());
        if i < v@.len() {
            assert(before_tag(v@.skip(i as int)) =~= Seq::<char>::empty());
        } else {
            assert(v@.skip(i as int) =~= Seq::<char>::empty());
        }
        assert(v@.take(i as int) + Seq::<char>::empty() =~= v@.take(i as int));
    }
    slice_vec(v, 0, i)
}

pub fn runtime_name(spec: &str) -> (r: Option<String>)
    ensures
        crate::initrd::opt_text(r) == spec_runtime_name(spec@),
{
    let v = chars_of(spec);
    if !crate::text::contains_char(&v, '/') {
        return Some(spec.to_owned());
    }
    match Reference::parse(spec) {
        Ok(_) => {
            proof {
                lemma_rfind_before(v@, '/', v@.len() as int);
            }
            let last = match rfind_char(&v, '/') {
                Some(i) => slice_vec(&v, i + 1, v.len()),
                None => slice_vec(&v, 0, v.len()),
            };
            proof {
                assert(v@.subrange(0, v@.len() as int) =~= v@);
            }
            let name = before_tag_of(&last);
            Some(string_of(&name))
        },
        Err(_) => None,
    }
}

/// The pieces of `s` from `pos` on, cut at every `c` as `str::split`
/// cuts them: a separator at the end leaves an empty last piece.
pub open spec fn split_from(s: Seq<char>, c: char, pos: int) -> Seq<Seq<char>>
    decreases s.len() - pos,
{
    if pos < 0 || pos > s.len() {
        seq![]
    } else {
        match crate::text::find_from(s, c, pos) {
            Some(i) => if i < pos || i >= s.len() {
                seq![]
            } else {
                seq![s.subrange(pos, i)] + split_from(s, c, i + 1)
            },
            None => seq![s.subrange(pos, s.len() as int)],
        }
    }
}

pub open spec fn split_on(s: Seq<char>, c: char) -> Seq<Seq<char>> {
    split_from(s, c, 0)
}

pub(crate) fn split_chars(v: &[char], c: char) -> (r: Vec<Vec<char>>)
    ensures
        crate::guest::views(r@) == split_on(v@, c),
{
    let mut out: Vec<Vec<char>> = Vec::new();
    let mut pos: usize = 0;
    loop
        invariant
            pos <= v@.len(),
            crate::guest::views(out@) + split_from(v@, c, pos as int) == split_on(v@, c),
        decreases v@.len() - pos,
    {
        proof {
            crate::text::lemma_find_from(v@, c, pos as int);
        }
        let ghost before = out@;
        match crate::text::find_char_from(v, c, pos) {
            Some(i) => {
                let piece = slice_vec(v, pos, i);
                out.push(piece);
                proof {
                    assert(crate::guest::views(out@) =~= crate::guest::views(before).push(v@.subrange(pos as int, i as int)));
                    assert(crate::guest::views(out@) + split_from(v@, c, i + 1) =~= crate::guest::views(before)
                        + split_from(v@, c, pos as int));
                }
                assert(i < v.len());
                pos = i + 1;
            },
            None => {
                let piece = slice_vec(v, pos, v.len());
                out.push(piece);
                proof {
                    assert(crate::guest::views(out@) =~= crate::guest::views(before).push(v@.subrange(pos as int, v@.len() as int)));
                    assert(crate::guest::views(out@) =~= crate::guest::views(before) + split_from(v@, c, pos as int));
                }
                return out;
            },
        }
    }
}

/// A bearer challenge's parameters.
#[derive(Debug, Clone)]
pub struct Challenge {
    pub realm: String,
    pub service: Option<String>,
    pub scope: Option<String>,
}

/// `s` without `"`s at either end.
pub open spec fn unquote(s: Seq<char>) -> Seq<char> {
    crate::text::trim_end(trim_start_char(s, '"'), '"')
}

/// The `realm`, `service` and `scope` of `key=value` parts, the last of
/// each winning; `None` for a part with no `=`.
pub open spec fn challenge_params(parts: Seq<Seq<char>>) -> Option<(Option<Seq<char>>, Option<Seq<char>>, Option<Seq<char>>)>
    decreases parts.len(),
{
    if parts.len() == 0 {
        Some((None, None, None))
    } else {
        match challenge_params(parts.drop_last()) {
            None => None,
            Some(acc) => {
                let t = trim_ws(parts.last());
                match find(t, '=') {
                    None => None,
                    Some(j) => {
                        let key = trim_ws(t.take(j));
                        let value = unquote(trim_ws(t.skip(j + 1)));
                        if key == "realm"@ {
                            Some((Some(value), acc.1, acc.2))
                        } else if key == "service"@ {
                            Some((acc.0, Some(value), acc.2))
                        } else if key == "scope"@ {
                            Some((acc.0, acc.1, Some(value)))
                        } else {
                            Some(acc)
                        }
                    },
                }
            },
        }
    }
}

/// `Bearer realm="…",service="…",scope="…"`: the realm, which a token
/// needs, and the service and scope, when the challenge names them.
pub open spec fn spec_challenge(header: Seq<char>) -> Option<(Seq<char>, Option<Seq<char>>, Option<Seq<char>>)> {
    match strip_prefix(header, "Bearer "@) {
        None => None,
        Some(p) => match challenge_params(split_on(p, ',')) {
            Some((Some(realm), service, scope)) => Some((realm, service, scope)),
            _ => None,
        },
    }
}

fn opt_chars(o: &Option<Vec<char>>) -> (r: Option<String>)
    ensures
        crate::initrd::opt_text(r) == match o {
            Some(v) => Some(v@),
            None => None,
        },
{
    match o {
        Some(v) => Some(string_of(v)),
        None => None,
    }
}

/// Read a bearer challenge (see [`spec_challenge`]).
pub fn parse_challenge(header: &str) -> (r: Option<Challenge>)
    ensures
        match spec_challenge(header@) {
            Some((realm, service, scope)) => r matches Some(c) && c.realm@ == realm
                && crate::initrd::opt_text(c.service) == service && crate::initrd::opt_text(c.scope) == scope,
            None => r is None,
        },
{
    let hv = chars_of(header);
    let params = match strip_prefix_of(&hv, "Bearer ") {
        Some(p) => p,
        None => {
            return None;
        },
    };
    let parts = split_chars(&params, ',');
    let ghost ps = crate::guest::views(parts@);
    let mut realm: Option<Vec<char>> = None;
    let mut service: Option<Vec<char>> = None;
    let mut scope: Option<Vec<char>> = None;
    let mut i: usize = 0;
    while i < parts.len()
        invariant
            i <= parts@.len(),
            ps == crate::guest::views(parts@),
            ps == split_on(params@, ','),
            hv@ == header@,
            strip_prefix(header@, "Bearer "@) == Some(params@),
            challenge_params(ps.take(i as int)) == Some((
                match realm {
                    Some(v) => Some(v@),
                    None => None,
                },
                match service {
                    Some(v) => Some(v@),
                    None => None,
                },
                match scope {
                    Some(v) => Some(v@),
                    None => None,
                },
            )),
        decreases parts@.len() - i,
    {
        proof {
            assert(ps.take(i + 1).drop_last() =~= ps.take(i as int));
            assert(ps.take(i + 1).last() == ps[i as int]);
        }
        let t = trim_chars(parts[i].as_slice());
        proof {
            lemma_find_from(t@, '=', 0);
        }
        let j = match find_char(&t, '=') {
            Some(j) => j,
            None => {
                proof {
                    assert(parts@[i as int]@ == ps[i as int]);
                    assert(t@ == trim_ws(ps[i as int]));
                    assert(find(t@, '=') is None);
                    let q = ps.take(i + 1);
                    assert(q.drop_last() =~= ps.take(i as int));
                    assert(q.last() == ps[i as int]);
                    assert(challenge_params(q.drop_last()) is Some);
                    assert(challenge_params(ps.take(i + 1)) is None);
                    lemma_params_none_extends(ps, i + 1);
                }
                return None;
            },
        };
        assert(j < t.len());
        let k0 = slice_vec(&t, 0, j);
        let key = trim_chars(&k0);
        let v0 = slice_vec(&t, j + 1, t.len());
        let v1 = trim_chars(&v0);
        assert(k0@ =~= t@.take(j as int));
        assert(v0@ =~= t@.skip(j + 1));
        let mut a: usize = 0;
        assert(v1@.subrange(0, v1@.len() as int) =~= v1@);
        while a < v1.len() && v1[a] == '"'
            invariant
                a <= v1@.len(),
                trim_start_char(v1@.subrange(a as int, v1@.len() as int), '"') == trim_start_char(v1@, '"'),
            decreases v1@.len() - a,
        {
            assert(v1@.subrange(a as int, v1@.len() as int).drop_first() =~= v1@.subrange(a + 1, v1@.len() as int));
            a += 1;
        }
        let v2 = slice_vec(&v1, a, v1.len());
        let n = crate::text::trim_end_len(&v2, '"');
        let value = crate::text::prefix(&v2, n);
        let ks = string_of(&key);
        if crate::text::same_text(ks.as_str(), "realm") {
            realm = Some(value);
        } else if crate::text::same_text(ks.as_str(), "service") {
            service = Some(value);
        } else if crate::text::same_text(ks.as_str(), "scope") {
            scope = Some(value);
        }
        i += 1;
    }
    proof {
        assert(ps.take(i as int) =~= ps);
    }
    match realm {
        Some(r) => Some(Challenge { realm: string_of(&r), service: opt_chars(&service), scope: opt_chars(&scope) }),
        None => None,
    }
}

proof fn lemma_params_none_extends(ps: Seq<Seq<char>>, k: int)
    requires
        0 <= k <= ps.len(),
        challenge_params(ps.take(k)) is None,
    ensures
        challenge_params(ps) is None,
    decreases ps.len() - k,
{
    if k < ps.len() {
        assert(ps.take(k + 1).drop_last() =~= ps.take(k));
        lemma_params_none_extends(ps, k + 1);
    } else {
        assert(ps.take(k) =~= ps);
    }
}

/// The bytes a query value keeps as they are: letters, digits, `-`, `_`,
/// `.`, `~`, and the `:` and `/` a scope has.
pub open spec fn unreserved(b: u8) -> bool {
    (65 <= b && b <= 90) || (97 <= b && b <= 122) || (48 <= b && b <= 57) || b == 45 || b == 95 || b
        == 46 || b == 126 || b == 58 || b == 47
}

pub open spec fn hex_upper(d: nat) -> char {
    if d < 10 {
        ((48 + d) as u8) as char
    } else {
        ((55 + d) as u8) as char
    }
}

/// Percent-encoded bytes: each byte kept, or `%` and two upper-case hex
/// digits.
pub open spec fn percent_encoded(bytes: Seq<u8>) -> Seq<char>
    decreases bytes.len(),
{
    if bytes.len() == 0 {
        seq![]
    } else {
        let b = bytes.last();
        percent_encoded(bytes.drop_last()) + if unreserved(b) {
            seq![b as char]
        } else {
            seq!['%', hex_upper((b / 16) as nat), hex_upper((b % 16) as nat)]
        }
    }
}

fn hex_upper_char(d: u8) -> (c: char)
    requires
        d < 16,
    ensures
        c == hex_upper(d as nat),
{
    if d < 10 {
        (48 + d) as char
    } else {
        (55 + d) as char
    }
}

/// Percent-encode a query value.
pub fn encode_query(value: &str) -> (r: String)
    ensures
        r@ == percent_encoded(vstd::string::StringSliceAdditionalSpecFns::spec_bytes(value)),
{
    let bytes = value.as_bytes();
    let mut out = String::new();
    let mut i: usize = 0;
    while i < bytes.len()
        invariant
            i <= bytes@.len(),
            out@ == percent_encoded(bytes@.take(i as int)),
        decreases bytes@.len() - i,
    {
        let b = bytes[i];
        let keep = (65 <= b && b <= 90) || (97 <= b && b <= 122) || (48 <= b && b <= 57) || b == 45 || b
            == 95 || b == 46 || b == 126 || b == 58 || b == 47;
        if keep {
            push_char(&mut out, b as char);
        } else {
            push_char(&mut out, '%');
            push_char(&mut out, hex_upper_char(b / 16));
            push_char(&mut out, hex_upper_char(b % 16));
        }
        proof {
            assert(bytes@.take(i + 1).drop_last() =~= bytes@.take(i as int));
            assert(bytes@.take(i + 1).last() == b);
        }
        i += 1;
    }
    assert(bytes@.take(i as int) =~= bytes@);
    out
}

/// Where to trade a challenge for a token: the realm, with the service
/// and scope the challenge names as query parameters.
pub open spec fn spec_token_url(realm: Seq<char>, service: Option<Seq<char>>, scope: Option<Seq<char>>) -> Seq<char> {
    let first = if realm.contains('?') {
        '&'
    } else {
        '?'
    };
    let with_service = match service {
        Some(v) => realm + seq![first] + "service="@ + percent_encoded(vstd::utf8::encode_utf8(v)),
        None => realm,
    };
    let second = if service is Some {
        '&'
    } else {
        first
    };
    match scope {
        Some(v) => with_service + seq![second] + "scope="@ + percent_encoded(vstd::utf8::encode_utf8(v)),
        None => with_service,
    }
}

pub fn token_url(c: &Challenge) -> (r: String)
    ensures
        r@ == spec_token_url(c.realm@, crate::initrd::opt_text(c.service), crate::initrd::opt_text(c.scope)),
{
    let mut url = c.realm.clone();
    let rv = chars_of(c.realm.as_str());
    let mut sep = if crate::text::contains_char(&rv, '?') {
        '&'
    } else {
        '?'
    };
    match &c.service {
        Some(v) => {
            push_char(&mut url, sep);
            push_str(&mut url, "service=");
            let e = encode_query(v.as_str());
            push_str(&mut url, e.as_str());
            sep = '&';
        },
        None => {},
    }
    match &c.scope {
        Some(v) => {
            push_char(&mut url, sep);
            push_str(&mut url, "scope=");
            let e = encode_query(v.as_str());
            push_str(&mut url, e.as_str());
        },
        None => {},
    }
    url
}

/// The token a token endpoint answered: its `token`, else its
/// `access_token`; neither is an error naming the endpoint.
pub fn pick_token(token: String, access_token: String, url: &str) -> (r: Result<String, String>)
    ensures
        token@.len() > 0 ==> (r matches Ok(t) && t@ == token@),
        token@.len() == 0 && access_token@.len() > 0 ==> (r matches Ok(t) && t@ == access_token@),
        token@.len() == 0 && access_token@.len() == 0 ==> (r matches Err(m) && m@ == url@
            + ": no token in the response"@),
{
    let t = if !token.as_str().is_empty() {
        token
    } else {
        access_token
    };
    if t.as_str().is_empty() {
        let mut m = url.to_owned();
        push_str(&mut m, ": no token in the response");
        return Err(m);
    }
    Ok(t)
}

/// A platform an index entry is built for.
#[derive(Debug, Clone)]
pub struct Platform {
    pub architecture: String,
    pub os: String,
}

/// An entry of an image index.
#[derive(Debug, Clone)]
pub struct IndexEntry {
    pub digest: String,
    pub platform: Option<Platform>,
}

pub open spec fn is_linux_amd64(e: IndexEntry) -> bool {
    e.platform matches Some(p) && p.architecture@ == "amd64"@ && p.os@ == "linux"@
}

pub open spec fn first_linux_amd64(es: Seq<IndexEntry>, from: int) -> Option<int>
    decreases es.len() - from,
{
    if from < 0 || from >= es.len() {
        None
    } else if is_linux_amd64(es[from]) {
        Some(from)
    } else {
        first_linux_amd64(es, from + 1)
    }
}

/// The manifest of an index the guest can run: the first built for
/// linux/amd64, the platform the guest kernel is built for.
pub fn pick_manifest(entries: &Vec<IndexEntry>) -> (r: Option<usize>)
    ensures
        match first_linux_amd64(entries@, 0) {
            Some(i) => r == Some(i as usize),
            None => r is None,
        },
{
    let mut i: usize = 0;
    while i < entries.len()
        invariant
            i <= entries@.len(),
            first_linux_amd64(entries@, 0) == first_linux_amd64(entries@, i as int),
        decreases entries@.len() - i,
    {
        match &entries[i].platform {
            Some(p) => {
                if crate::text::same_text(p.architecture.as_str(), "amd64") && crate::text::same_text(
                    p.os.as_str(),
                    "linux",
                ) {
                    return Some(i);
                }
            },
            None => {},
        }
        i += 1;
    }
    None
}

/// A layer of an image manifest.
#[derive(Debug, Clone)]
pub struct Layer {
    pub media_type: String,
    pub digest: String,
    pub size: u64,
}

/// Which layer of `name`'s manifest holds its rootfs: a hluk `:initrd`
/// image has exactly one, and anything else is refused.
pub fn initrd_layer(name: &str, layers: &Vec<Layer>) -> (r: Result<usize, String>)
    ensures
        layers@.len() == 1 ==> r == Ok::<usize, String>(0),
        layers@.len() == 0 ==> (r matches Err(m) && m@ == name@ + ": the image has no layers"@),
        layers@.len() > 1 ==> (r matches Err(m) && m@ == name@ + ": the image has "@ + crate::text::decimal(
            layers@.len(),
        ) + " layers; a hluk `:initrd` image has one"@),
{
    if layers.len() == 1 {
        return Ok(0);
    }
    let mut m = name.to_owned();
    if layers.len() == 0 {
        push_str(&mut m, ": the image has no layers");
    } else {
        push_str(&mut m, ": the image has ");
        let n = crate::text::decimal_string(layers.len() as u64);
        push_str(&mut m, n.as_str());
        push_str(&mut m, " layers; a hluk `:initrd` image has one");
    }
    Err(m)
}

/// Whether a layer is gzip'd: a `…gzip` media type, or none given.
pub open spec fn spec_is_gzipped(layer: Layer) -> bool {
    layer.media_type@.len() == 0 || ("gzip"@.len() <= layer.media_type@.len() && layer.media_type@.subrange(
        layer.media_type@.len() - "gzip"@.len(),
        layer.media_type@.len() as int,
    ) == "gzip"@)
}

/// Whether `path` names the file `name`: its last `/`-separated
/// component, trailing `/`s aside.
pub open spec fn names_file(path: Seq<char>, name: Seq<char>) -> bool {
    let q = crate::text::trim_end(path, '/');
    &&& name.len() <= q.len()
    &&& q.skip(q.len() - name.len()) == name
    &&& (q.len() == name.len() || q[q.len() - name.len() - 1] == '/')
}

fn names_initrd(path: &str) -> (r: bool)
    ensures
        r == names_file(path@, "initrd.cpio"@),
{
    let v = chars_of(path);
    let n = crate::text::trim_end_len(&v, '/');
    let q = slice_vec(&v, 0, n);
    let name = chars_of("initrd.cpio");
    if !crate::text::ends_with(&q, &name) {
        assert(q@.len() >= name@.len() ==> q@.subrange(q@.len() - name@.len(), q@.len() as int) =~= q@.skip(q@.len() - name@.len()));
        return false;
    }
    assert(q@.subrange(q@.len() - name@.len(), q@.len() as int) =~= q@.skip(q@.len() - name@.len()));
    q.len() == name.len() || q[q.len() - name.len() - 1] == '/'
}

/// The first regular file named `initrd.cpio` among `rs[from..]`.
pub open spec fn first_initrd(rs: Seq<crate::cpio::TarRecord>, from: int) -> Option<int>
    decreases rs.len() - from,
{
    if from < 0 || from >= rs.len() {
        None
    } else if rs[from].path_error is None && names_file(rs[from].path@, "initrd.cpio"@)
        && crate::cpio::spec_entry_kind(rs[from].typeflag) == crate::cpio::EntryKind::Regular {
        Some(from)
    } else {
        first_initrd(rs, from + 1)
    }
}

/// The walk over a layer's tar: its blob unpacked as it is read when the
/// layer is gzip'd.
pub open spec fn layer_walk(layer: Layer, blob: Seq<u8>) -> crate::cpio::TarWalk {
    if spec_is_gzipped(layer) {
        crate::cpio::parsed_gz_tar(blob)
    } else {
        crate::cpio::parsed_tar(blob)
    }
}

/// The `initrd.cpio` inside a downloaded layer: the contents of the first
/// regular file of that name in the layer's tar, found before the tar
/// breaks off.
pub fn initrd_in_layer(layer: &Layer, blob: &[u8]) -> (r: Result<Vec<u8>, String>)
    ensures
        ({
            let w = layer_walk(*layer, blob@);
            match first_initrd(w.records, 0) {
                Some(i) => r matches Ok(v) && v@ == w.records[i].data@,
                None => match w.end {
                    crate::cpio::TarEnd::Done => r matches Err(m)
                        && m@ == "the image's layer has no initrd.cpio: not a hluk `:initrd` image"@,
                    crate::cpio::TarEnd::Open(why) => r matches Err(m) && m@ == "layer is not a tar: "@ + why,
                    crate::cpio::TarEnd::Entry(why) => r matches Err(m) && m@ == "reading layer: "@ + why,
                },
            }
        }),
{
    let gz = is_gzipped(layer);
    let (contents, brk) = if gz {
        crate::cpio::gz_tar_contents(blob)
    } else {
        crate::cpio::tar_contents(blob)
    };
    let names = if gz {
        crate::cpio::gz_tar_names(blob)
    } else {
        crate::cpio::tar_names(blob)
    };
    let ghost rs = layer_walk(*layer, blob@).records;
    let mut i: usize = 0;
    while i < contents.len()
        invariant
            i <= contents@.len(),
            contents@.len() == rs.len(),
            names@.len() >= rs.len(),
            rs == layer_walk(*layer, blob@).records,
            crate::cpio::end_of(brk) == layer_walk(*layer, blob@).end,
            forall|k: int| 0 <= k < rs.len() ==> crate::cpio::name_is(names@[k], #[trigger] rs[k]),
            forall|k: int| 0 <= k < contents@.len() ==> (#[trigger] contents@[k])@ == rs[k].data@,
            first_initrd(rs, 0) == first_initrd(rs, i as int),
        decreases contents@.len() - i,
    {
        let part = &names[i];
        let data = &contents[i];
        assert(crate::cpio::name_is(*part, rs[i as int]) && data@ == rs[i as int].data@);
        if part.path_error.is_none() && names_initrd(part.path.as_str()) && matches!(
            crate::cpio::entry_kind(part.typeflag),
            crate::cpio::EntryKind::Regular
        ) {
            return Ok(crate::text::bytes_between(data.as_slice(), 0, data.len()));
        }
        i += 1;
    }
    match brk {
        Some(crate::cpio::TarBreak::Open(why)) => {
            let mut m = "layer is not a tar: ".to_owned();
            push_str(&mut m, why.as_str());
            Err(m)
        },
        Some(crate::cpio::TarBreak::Entry(why)) => {
            let mut m = "reading layer: ".to_owned();
            push_str(&mut m, why.as_str());
            Err(m)
        },
        None => Err("the image's layer has no initrd.cpio: not a hluk `:initrd` image".to_owned()),
    }
}

/// Whether a layer is gzip'd: a `…gzip` media type, or none given.
pub fn is_gzipped(layer: &Layer) -> (r: bool)
    ensures
        r == spec_is_gzipped(*layer),
{
    let m = chars_of(layer.media_type.as_str());
    let g = chars_of("gzip");
    m.len() == 0 || crate::text::ends_with(&m, &g)
}

#[verifier::external_type_specification]
#[verifier::external_body]
pub struct ExSha256(sha2::Sha256);

/// The bytes a SHA-256 hasher has been fed so far: the state it holds
/// stands for them.
pub uninterp spec fn hasher_input(h: sha2::Sha256) -> Seq<u8>;

/// The SHA-256 digest of `bytes`.
pub uninterp spec fn sha256(bytes: Seq<u8>) -> Seq<u8>;

/// `Sha256::new()`: a hasher fed nothing yet.
#[verifier::external_body]
pub(crate) fn hasher_new() -> (h: sha2::Sha256)
    ensures
        hasher_input(h) == Seq::<u8>::empty(),
{
    <sha2::Sha256 as sha2::Digest>::new()
}

/// `Digest::update`: feed `data` after what the hasher has had.
#[verifier::external_body]
pub(crate) fn hasher_update(h: &mut sha2::Sha256, data: &[u8])
    ensures
        hasher_input(*final(h)) == hasher_input(*old(h)) + data@,
{
    sha2::Digest::update(h, data)
}

/// `Digest::finalize`: the digest of everything fed, 32 bytes.
#[verifier::external_body]
pub(crate) fn hasher_finish(h: sha2::Sha256) -> (d: Vec<u8>)
    ensures
        d@ == sha256(hasher_input(h)),
        d@.len() == 32,
{
    sha2::Digest::finalize(h).to_vec()
}

pub open spec fn hex_lower(d: nat) -> char {
    if d < 10 {
        ((48 + d) as u8) as char
    } else {
        ((87 + d) as u8) as char
    }
}

/// Bytes in lower-case hex, two digits each.
pub open spec fn hex_text(bytes: Seq<u8>) -> Seq<char>
    decreases bytes.len(),
{
    if bytes.len() == 0 {
        seq![]
    } else {
        hex_text(bytes.drop_last()) + seq![hex_lower((bytes.last() / 16) as nat), hex_lower((bytes.last() % 16) as nat)]
    }
}

fn hex_lower_char(d: u8) -> (c: char)
    requires
        d < 16,
    ensures
        c == hex_lower(d as nat),
{
    if d < 10 {
        (48 + d) as char
    } else {
        (87 + d) as char
    }
}

/// Bytes in lower-case hex (see [`hex_text`]).
pub fn hex_string(d: &[u8]) -> (r: String)
    ensures
        r@ == hex_text(d@),
{
    let mut s = String::new();
    let mut i: usize = 0;
    while i < d.len()
        invariant
            i <= d@.len(),
            s@ == hex_text(d@.take(i as int)),
        decreases d@.len() - i,
    {
        push_char(&mut s, hex_lower_char(d[i] / 16));
        push_char(&mut s, hex_lower_char(d[i] % 16));
        proof {
            assert(d@.take(i + 1).drop_last() =~= d@.take(i as int));
        }
        i += 1;
    }
    assert(d@.take(i as int) =~= d@);
    s
}

/// A layer's digest as a registry writes it: `sha256:` and the hex.
pub fn digest_text(d: &[u8]) -> (r: String)
    ensures
        r@ == "sha256:"@ + hex_text(d@),
{
    let mut s = "sha256:".to_owned();
    let h = hex_string(d);
    push_str(&mut s, h.as_str());
    s
}

/// A layer as it streams in, hashed on the way.
pub struct LayerHasher {
    h: sha2::Sha256,
}

impl LayerHasher {
    /// The bytes seen so far.
    pub closed spec fn seen(&self) -> Seq<u8> {
        hasher_input(self.h)
    }

    pub fn new() -> (l: LayerHasher)
        ensures
            l.seen() == Seq::<u8>::empty(),
    {
        LayerHasher { h: hasher_new() }
    }

    /// Take in the next piece of the layer.
    pub fn update(&mut self, data: &[u8])
        ensures
            final(self).seen() == old(self).seen() + data@,
    {
        hasher_update(&mut self.h, data);
    }

    /// Check the layer against the digest its manifest gives: `Err` names
    /// the image and both digests when they differ.
    pub fn check(self, expected: &str, image: &str) -> (r: Result<(), String>)
        ensures
            r is Ok <==> expected@ == "sha256:"@ + hex_text(sha256(self.seen())),
            r matches Err(m) ==> m@ == image@ + ": layer digest mismatch (expected "@ + expected@ + ", got "@
                + "sha256:"@ + hex_text(sha256(self.seen())) + seq![')'],
    {
        let d = hasher_finish(self.h);
        let actual = digest_text(d.as_slice());
        if crate::text::same_text(actual.as_str(), expected) {
            return Ok(());
        }
        let mut m = image.to_owned();
        push_str(&mut m, ": layer digest mismatch (expected ");
        push_str(&mut m, expected);
        push_str(&mut m, ", got ");
        push_str(&mut m, actual.as_str());
        push_char(&mut m, ')');
        Err(m)
    }
}

/// What parses reads back as itself: writing a parsed reference out
/// (see [`Reference::to_string`]) and parsing it again gives the same
/// host, repository and tag or digest.
pub proof fn law_parse_display_parse(s: Seq<char>)
    ensures
        spec_parse(s) matches Ok((host, repo, reference)) ==> spec_parse(spec_display(host, repo, reference)) == Ok::<
            (Seq<char>, Seq<char>, Seq<char>),
            Seq<char>,
        >((host, repo, reference)),
{
    if spec_parse(s) is Ok {
        let (host, repo, reference) = spec_parse(s)->Ok_0;
        let t = trim_ws(s);
        let i = find(t, '/')->0;
        assert(host == t.take(i));
        law_reference_round_trip(host, repo, reference);
    }
}

/// Whether `s` writes its tag or digest out: a digest after `@`, or a tag
/// after a `:` with no `@`.
pub open spec fn explicit_reference(s: Seq<char>) -> bool {
    let t = trim_ws(s);
    match find(t, '/') {
        None => false,
        Some(i) => {
            let rest = t.skip(i + 1);
            match find(rest, '@') {
                Some(j) => rest.skip(j + 1).contains(':'),
                None => rfind(rest, ':') is Some,
            }
        },
    }
}

/// A reference written with its tag after `:` or its digest after `@` is
/// displayed as it was written, less the whitespace around it.
pub proof fn law_display_gives_back_what_was_written(s: Seq<char>)
    requires
        explicit_reference(s),
    ensures
        spec_parse(s) matches Ok((host, repo, reference)) ==> spec_display(host, repo, reference) == trim_ws(s),
{
    let t = trim_ws(s);
    if spec_parse(s) is Ok {
        let (host, repo, reference) = spec_parse(s)->Ok_0;
        crate::text::lemma_find_from(t, '/', 0);
        let i = find(t, '/')->0;
        let rest = t.skip(i + 1);
        assert(t =~= host + seq!['/'] + rest);
        crate::text::lemma_find_from(rest, '@', 0);
        match find(rest, '@') {
            Some(j) => {
                assert(rest =~= repo + seq!['@'] + reference);
            },
            None => {
                crate::text::lemma_rfind_before(rest, ':', rest.len() as int);
                let j = rfind(rest, ':')->0;
                assert(rest =~= repo + seq![':'] + reference);
                assert(!reference.contains(':')) by {
                    if reference.contains(':') {
                        let k = choose|k: int| 0 <= k < reference.len() && reference[k] == ':';
                        assert(rest[j + 1 + k] == ':');
                    }
                }
            },
        }
    }
}

/// A reference that parses is cached below the cache directory: its
/// cache path has no `.`, `..` or empty component and is not absolute.
pub proof fn law_cache_path_stays_below(s: Seq<char>)
    requires
        spec_parse(s) is Ok,
    ensures
        match spec_parse(s) {
            Ok((host, repo, reference)) => stays_below(spec_cache_relpath(host, repo, reference)),
            Err(_) => true,
        },
{
    let (host, repo, reference) = spec_parse(s)->Ok_0;
    assert(valid_host(host) && valid_repository(repo) && valid_reference(reference));
    lemma_cache_path_stays_below(host, repo, reference);
}

proof fn lemma_cache_path_stays_below(host: Seq<char>, repo: Seq<char>, reference: Seq<char>)
    requires
        valid_host(host),
        valid_repository(repo),
        valid_reference(reference),
    ensures
        stays_below(spec_cache_relpath(host, repo, reference)),
{
    reveal_strlit(".cpio");
    reveal_strlit("sha256:");
    lemma_host_chars(host);
    let h = colons_out(host);
    let x = colons_out(reference);
    let p = spec_cache_relpath(host, repo, reference);
    // The host starts with a label character; the reference with a letter,
    // a digit, `_` or the `s` of `sha256`.
    let name = match find(host, ':') {
        Some(i) => host.take(i),
        None => host,
    };
    match find(host, ':') {
        Some(i) => {
            lemma_find_from(host, ':', 0);
        },
        None => {},
    }
    assert(name[0] == host[0]);
    assert(host_char(name[0]));
    assert(h[0] == host[0]);
    assert(x.len() > 0) by {
        if strip_prefix(reference, "sha256:"@) is Some {
            assert(reference.len() >= 7);
        }
    }
    assert(x[0] != '.' && x[0] != '/') by {
        if strip_prefix(reference, "sha256:"@) is Some {
            assert(reference.subrange(0, 7) == "sha256:"@);
            assert(reference[0] == reference.subrange(0, 7)[0]);
        }
    }
    assert forall|k: int| 0 <= k < x.len() implies #[trigger] x[k] != '/' by {
        match strip_prefix(reference, "sha256:"@) {
            Some(hx) => {
                if k >= 7 {
                    assert(reference[k] == hx[k - 7]);
                    assert(crate::guest::all_hex_chars(hx));
                } else {
                    assert(reference[k] == "sha256:"@[k]);
                }
            },
            None => {
                assert(tag_char(reference[k]));
            },
        }
    }
    let a: int = h.len() as int;
    let b: int = a + 1 + repo.len();
    assert(p.len() == b + 1 + x.len() + 5);
    assert(p[a] == '/' && p[b] == '/');
    assert forall|i: int| 0 <= i < p.len() && #[trigger] p[i] == '/' implies i + 1 < p.len() && p[i + 1] != '/'
        && p[i + 1] != '.' by {
        if i < a {
            assert(p[i] == h[i] && h[i] == host[i] || p[i] == '_');
        } else if i == a {
            assert(p[i + 1] == repo[0]);
        } else if i < b {
            assert(p[i] == repo[i - a - 1]);
            assert(p[i + 1] == repo[i - a]);
        } else if i == b {
            assert(p[i + 1] == x[0]);
        } else if i < b + 1 + x.len() {
            assert(p[i] == x[i - b - 1]);
        } else {
            assert(p[i] == ".cpio"@[i - b - 1 - x.len()]);
        }
    }
}

proof fn lemma_host_chars(host: Seq<char>)
    requires
        valid_host(host),
    ensures
        forall|k: int| 0 <= k < host.len() ==> #[trigger] host[k] != '/' && host[k] != '@' && !crate::text::is_space(host[k]),
{
    match find(host, ':') {
        Some(i) => {
            lemma_find_from(host, ':', 0);
            let name = host.take(i);
            let port = host.skip(i + 1);
            assert forall|k: int| 0 <= k < host.len() implies #[trigger] host[k] != '/' && host[k] != '@' && !crate::text::is_space(host[k]) by {
                if k < i {
                    assert(name[k] == host[k]);
                    assert(host_char(name[k]));
                } else if k > i {
                    assert(port[k - i - 1] == host[k]);
                    assert(is_digit(port[k - i - 1]));
                }
            }
        },
        None => {
            assert forall|k: int| 0 <= k < host.len() implies #[trigger] host[k] != '/' && host[k] != '@' && !crate::text::is_space(host[k]) by {
                assert(host_char(host[k]));
            }
        },
    }
}

proof fn lemma_reference_chars(x: Seq<char>)
    requires
        valid_reference(x),
    ensures
        x.len() > 0,
        forall|k: int| 0 <= k < x.len() ==> #[trigger] x[k] != '@' && !crate::text::is_space(x[k]),
        !x.contains(':') ==> forall|k: int| 0 <= k < x.len() ==> #[trigger] x[k] != ':',
{
    reveal_strlit("sha256:");
    match strip_prefix(x, "sha256:"@) {
        Some(h) => {
            assert forall|k: int| 0 <= k < x.len() implies #[trigger] x[k] != '@' && !crate::text::is_space(x[k]) by {
                if k < 7 {
                    assert(x.subrange(0, 7)[k] == x[k]);
                } else {
                    assert(h[k - 7] == x[k]);
                    assert(crate::guest::is_hex_char(h[k - 7]));
                }
            }
        },
        None => {
            assert forall|k: int| 0 <= k < x.len() implies #[trigger] x[k] != '@' && !crate::text::is_space(x[k]) by {
                assert(tag_char(x[k]));
            }
        },
    }
    if !x.contains(':') {
        assert forall|k: int| 0 <= k < x.len() implies #[trigger] x[k] != ':' by {
            if x[k] == ':' {
                assert(x.contains(':'));
            }
        }
    }
}

/// A reference reads back as the parts it was written from: parsing what
/// [`Reference::to_string`] writes gives the same host, repository and
/// tag or digest, for every reference that parsing accepts.
pub proof fn law_reference_round_trip(host: Seq<char>, repo: Seq<char>, reference: Seq<char>)
    requires
        valid_host(host),
        valid_repository(repo),
        valid_reference(reference),
        host.contains('.') || host.contains(':') || host == "localhost"@,
    ensures
        spec_parse(spec_display(host, repo, reference)) == Ok::<(Seq<char>, Seq<char>, Seq<char>), Seq<char>>((host, repo, reference)),
{
    let d = spec_display(host, repo, reference);
    let sep = if reference.contains(':') {
        '@'
    } else {
        ':'
    };
    lemma_host_chars(host);
    lemma_reference_chars(reference);
    let hl = host.len() as int;
    let rl = repo.len() as int;
    let name = match find(host, ':') {
        Some(i) => host.take(i),
        None => host,
    };
    lemma_find_from(host, ':', 0);
    assert(name.len() > 0);
    assert(host[0] == name[0]);
    assert(d[0] == host[0]);
    assert(d.last() == reference.last());
    assert(crate::text::trim_start_ws(d) == d);
    assert(crate::text::trim_end_ws(d) == d);
    assert(trim_ws(d) == d);
    assert(d[hl] == '/');
    assert forall|k: int| 0 <= k < hl implies d[k] != '/' by {
        assert(d[k] == host[k]);
    }
    crate::text::lemma_find_is(d, '/', hl, 0);
    assert(d.take(hl) =~= host);
    let rest = d.skip(hl + 1);
    assert(rest =~= repo + seq![sep] + reference);
    assert forall|k: int| 0 <= k < rl implies #[trigger] rest[k] == repo[k] && repo[k] != '@' && repo[k] != ':' by {
        assert(repo_char(repo[k]));
    }
    if reference.contains(':') {
        assert(rest[rl] == '@');
        assert forall|k: int| 0 <= k < rl implies rest[k] != '@' by {
            assert(rest[k] == repo[k]);
        }
        crate::text::lemma_find_is(rest, '@', rl, 0);
        assert(rest.take(rl) =~= repo);
        assert(rest.skip(rl + 1) =~= reference);
    } else {
        assert forall|k: int| 0 <= k < rest.len() implies rest[k] != '@' by {
            if k < rl {
                assert(rest[k] == repo[k]);
            } else if k > rl {
                assert(rest[k] == reference[k - rl - 1]);
            }
        }
        crate::text::lemma_find_none(rest, '@', 0);
        assert(rest[rl] == ':');
        assert forall|k: int| rl < k < rest.len() implies rest[k] != ':' by {
            assert(rest[k] == reference[k - rl - 1]);
        }
        crate::text::lemma_rfind_is(rest, ':', rl, rest.len() as int);
        assert(rest.take(rl) =~= repo);
        assert(rest.skip(rl + 1) =~= reference);
    }
}

} // verus!
