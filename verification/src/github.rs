//! Templates read out of a GitHub repository:
//! `github.com/OWNER/REPO[/PATH][@REF]`, or the `…/tree/REF/PATH` URL a
//! browser shows for a directory.
use vstd::prelude::*;

use crate::guest::views;
use crate::registry::{split_on, strip_prefix};
use crate::text::{chars_of, debug_quoted, find, push_char, push_str, quoted, slice_vec, string_of};

verus! {

/// How a GitHub template is written.
pub const USAGE: &'static str = "github.com/OWNER/REPO[/PATH][@REF]";

/// A template's place on GitHub.
#[derive(Debug, Clone, PartialEq, Eq)]
pub struct GitHubSpec {
    pub owner: String,
    pub repo: String,
    /// A branch, tag or commit; the default branch when `None`.
    pub git_ref: Option<String>,
    /// The template's directory inside the repository; empty for its root.
    pub path: Vec<String>,
}

/// The non-empty pieces, in order.
pub open spec fn nonempty(ps: Seq<Seq<char>>) -> Seq<Seq<char>>
    decreases ps.len(),
{
    if ps.len() == 0 {
        seq![]
    } else if ps.last().len() == 0 {
        nonempty(ps.drop_last())
    } else {
        nonempty(ps.drop_last()).push(ps.last())
    }
}

pub open spec fn name_char(c: char) -> bool {
    crate::registry::is_alnum(c) || c == '-' || c == '_' || c == '.'
}

/// An owner or repository name: not empty, not `.` or `..`, ASCII
/// letters, digits, `-`, `_` and `.`.
pub open spec fn name_ok(s: Seq<char>) -> bool {
    s.len() > 0 && s != seq!['.'] && s != seq!['.', '.'] && forall|i: int| 0 <= i < s.len() ==> name_char(#[trigger] s[i])
}

/// A ref that can go into the request path as it is: not empty, no `..`,
/// ASCII letters, digits, `-`, `_`, `.` and `/`.
pub open spec fn ref_ok(r: Seq<char>) -> bool {
    &&& r.len() > 0
    &&& !exists|i: int| 0 <= i < r.len() - 1 && #[trigger] r[i] == '.' && r[i + 1] == '.'
    &&& forall|i: int| 0 <= i < r.len() ==> name_char(#[trigger] r[i]) || r[i] == '/'
}

/// `s` without one `.git` at its end.
pub open spec fn without_git(s: Seq<char>) -> Seq<char> {
    if ".git"@.len() <= s.len() && s.subrange(s.len() - ".git"@.len(), s.len() as int) == ".git"@ {
        s.take(s.len() - ".git"@.len())
    } else {
        s
    }
}

/// Why a spec is refused, as a message puts it.
pub open spec fn refusal(spec: Seq<char>, why: Seq<char>) -> Seq<char> {
    "template "@ + debug_quoted(spec) + ": "@ + why + "; expected "@ + USAGE@
}

/// What a `--template` value says, if it names a GitHub template: its
/// owner, repository, ref and path, or why it is refused; `None` for a
/// value that is not a GitHub one at all.  A browser URL cannot say where
/// a ref with a `/` ends, so its ref is one segment; `@REF` takes any, and
/// then `tree` is a directory name.
pub open spec fn spec_github(spec: Seq<char>) -> Result<Option<(Seq<char>, Seq<char>, Option<Seq<char>>, Seq<Seq<char>>)>, Seq<char>> {
    let r0 = match strip_prefix(spec, "https://"@) {
        Some(r) => r,
        None => match strip_prefix(spec, "http://"@) {
            Some(r) => r,
            None => spec,
        },
    };
    match strip_prefix(r0, "github.com/"@) {
        None => Ok(None),
        Some(r1) => {
            let body = match find(r1, '@') {
                Some(i) => r1.take(i),
                None => r1,
            };
            let given_ref = match find(r1, '@') {
                Some(i) => Some(r1.skip(i + 1)),
                None => None,
            };
            let parts = nonempty(split_on(body, '/'));
            if parts.len() < 2 {
                Err(refusal(spec, "no repository"@))
            } else {
                let owner = parts[0];
                let repo = without_git(parts[1]);
                let rest = parts.skip(2);
                let browser = rest.len() >= 2 && rest[0] == "tree"@ && given_ref is None;
                let git_ref = if browser {
                    Some(rest[1])
                } else {
                    given_ref
                };
                let path = if browser {
                    rest.skip(2)
                } else {
                    rest
                };
                if !name_ok(owner) || !name_ok(repo) {
                    Err(refusal(spec, "not an owner and repository name"@))
                } else if path.contains(seq!['.']) || path.contains(seq!['.', '.']) {
                    Err(refusal(spec, "the path must stay inside the repository"@))
                } else if git_ref matches Some(r) && !ref_ok(r) {
                    Err(refusal(spec, "not a branch, tag or commit after @"@))
                } else {
                    Ok(Some((owner, repo, git_ref, path)))
                }
            }
        },
    }
}

/// `spec` less one leading `https://`, or else one leading `http://`.
pub open spec fn without_scheme(spec: Seq<char>) -> Seq<char> {
    match strip_prefix(spec, "https://"@) {
        Some(r) => r,
        None => match strip_prefix(spec, "http://"@) {
            Some(r) => r,
            None => spec,
        },
    }
}

/// `s` starts with `p`.
pub open spec fn starts_with(s: Seq<char>, p: Seq<char>) -> bool {
    p.len() <= s.len() && s.take(p.len() as int) == p
}

/// A value is left to the other template sources (`Ok(None)`) exactly
/// when, less one leading `https://` or `http://`, it does not start with
/// `github.com/`; any other value names a GitHub template or is refused.
pub proof fn law_only_github_values_are_taken(spec: Seq<char>)
    ensures
        (spec_github(spec) is Ok && spec_github(spec)->Ok_0 is None) <==> !starts_with(
            without_scheme(spec),
            "github.com/"@,
        ),
{
    let r0 = without_scheme(spec);
    let g = "github.com/"@;
    if starts_with(r0, g) {
        assert(r0.subrange(0, g.len() as int) =~= r0.take(g.len() as int));
    } else if g.len() <= r0.len() {
        assert(r0.subrange(0, g.len() as int) =~= r0.take(g.len() as int));
    }
}

fn all_name_chars(v: &[char], slash: bool) -> (r: bool)
    ensures
        r == forall|i: int| 0 <= i < v@.len() ==> name_char(#[trigger] v@[i]) || (slash && v@[i] == '/'),
{
    let mut i: usize = 0;
    while i < v.len()
        invariant
            i <= v@.len(),
            forall|j: int| 0 <= j < i ==> name_char(#[trigger] v@[j]) || (slash && v@[j] == '/'),
        decreases v@.len() - i,
    {
        let c = v[i];
        let ok = ('a' <= c && c <= 'z') || ('A' <= c && c <= 'Z') || ('0' <= c && c <= '9') || c == '-' || c == '_'
            || c == '.' || (slash && c == '/');
        if !ok {
            assert(!(name_char(v@[i as int]) || (slash && v@[i as int] == '/')));
            return false;
        }
        i += 1;
    }
    true
}

fn name_is_ok(v: &[char]) -> (r: bool)
    ensures
        r == name_ok(v@),
{
    let dot = v.len() == 1 && v[0] == '.';
    let dotdot = v.len() == 2 && v[0] == '.' && v[1] == '.';
    proof {
        if v@ == seq!['.'] {
            assert(v@.len() == 1 && v@[0] == '.');
        }
        if dot {
            assert(v@ =~= seq!['.']);
        }
        if v@ == seq!['.', '.'] {
            assert(v@.len() == 2 && v@[0] == '.' && v@[1] == '.');
        }
        if dotdot {
            assert(v@ =~= seq!['.', '.']);
        }
    }
    v.len() > 0 && !dot && !dotdot && all_name_chars(v, false)
}

fn ref_is_ok(v: &[char]) -> (r: bool)
    ensures
        r == ref_ok(v@),
{
    if v.len() == 0 {
        return false;
    }
    let mut i: usize = 0;
    while i < v.len() - 1
        invariant
            i < v@.len(),
            forall|j: int| 0 <= j < i ==> !(#[trigger] v@[j] == '.' && v@[j + 1] == '.'),
        decreases v@.len() - i,
    {
        if v[i] == '.' && v[i + 1] == '.' {
            return false;
        }
        i += 1;
    }
    all_name_chars(v, true)
}

fn nonempty_pieces(ps: &Vec<Vec<char>>) -> (r: Vec<Vec<char>>)
    ensures
        views(r@) == nonempty(views(ps@)),
{
    let mut out: Vec<Vec<char>> = Vec::new();
    let mut i: usize = 0;
    while i < ps.len()
        invariant
            i <= ps@.len(),
            views(out@) == nonempty(views(ps@).take(i as int)),
        decreases ps@.len() - i,
    {
        proof {
            assert(views(ps@).take(i + 1).drop_last() =~= views(ps@).take(i as int));
            assert(views(ps@).take(i + 1).last() == ps@[i as int]@);
        }
        if ps[i].len() > 0 {
            let ghost before = views(out@);
            let c = slice_vec(ps[i].as_slice(), 0, ps[i].len());
            assert(c@ =~= ps@[i as int]@);
            out.push(c);
            assert(views(out@) =~= before.push(ps@[i as int]@));
        }
        i += 1;
    }
    assert(views(ps@).take(i as int) =~= views(ps@));
    out
}

fn bad(spec: &str, why: &str) -> (m: String)
    ensures
        m@ == refusal(spec@, why@),
{
    let mut m = "template ".to_owned();
    let q = quoted(spec);
    push_str(&mut m, q.as_str());
    push_str(&mut m, ": ");
    push_str(&mut m, why);
    push_str(&mut m, "; expected ");
    push_str(&mut m, USAGE);
    m
}

/// The texts of a `Vec<String>`.
pub open spec fn texts(v: Seq<String>) -> Seq<Seq<char>> {
    Seq::new(v.len(), |i: int| v[i]@)
}

impl GitHubSpec {
    /// The spec's parts as text.
    pub open spec fn parts(&self) -> (Seq<char>, Seq<char>, Option<Seq<char>>, Seq<Seq<char>>) {
        (self.owner@, self.repo@, crate::initrd::opt_text(self.git_ref), texts(self.path@))
    }

    /// `spec` as a GitHub template, `None` when it does not name one (see
    /// [`spec_github`]).
    pub fn parse(spec: &str) -> (r: Result<Option<GitHubSpec>, String>)
        ensures
            match spec_github(spec@) {
                Ok(None) => r matches Ok(None),
                Ok(Some(p)) => r matches Ok(Some(g)) && g.parts() == p,
                Err(m) => r matches Err(e) && e@ == m,
            },
    {
        let v = chars_of(spec);
        let r0 = match crate::registry::strip_prefix_of(&v, "https://") {
            Some(r) => r,
            None => match crate::registry::strip_prefix_of(&v, "http://") {
                Some(r) => r,
                None => v,
            },
        };
        let r1 = match crate::registry::strip_prefix_of(&r0, "github.com/") {
            Some(r) => r,
            None => {
                return Ok(None);
            },
        };
        proof {
            crate::text::lemma_find_from(r1@, '@', 0);
        }
        let (body, given_ref) = match crate::text::find_char(&r1, '@') {
            Some(i) => {
                assert(i < r1.len());
                (slice_vec(&r1, 0, i), Some(slice_vec(&r1, i + 1, r1.len())))
            },
            None => (slice_vec(&r1, 0, r1.len()), None),
        };
        assert(r1@.subrange(0, r1@.len() as int) =~= r1@);
        let pieces = crate::registry::split_chars(&body, '/');
        let parts = nonempty_pieces(&pieces);
        let ghost gparts = views(parts@);
        if parts.len() < 2 {
            return Err(bad(spec, "no repository"));
        }
        let owner = slice_vec(parts[0].as_slice(), 0, parts[0].len());
        let rp = &parts[1];
        let git = chars_of(".git");
        let repo = if crate::text::ends_with(rp.as_slice(), &git) {
            crate::text::prefix(rp.as_slice(), rp.len() - git.len())
        } else {
            slice_vec(rp.as_slice(), 0, rp.len())
        };
        assert(owner@ =~= gparts[0]);
        assert(repo@ =~= without_git(gparts[1]));
        let tree = chars_of("tree");
        let browser = parts.len() >= 4 && crate::text::chars_eq(parts[2].as_slice(), &tree) && given_ref.is_none();
        let git_ref: Option<Vec<char>> = if browser {
            Some(slice_vec(parts[3].as_slice(), 0, parts[3].len()))
        } else {
            given_ref
        };
        let start: usize = if browser {
            4
        } else {
            2
        };
        let ghost gpath = gparts.skip(start as int);
        proof {
            if browser {
                assert(gparts.skip(2).skip(2) =~= gparts.skip(4));
                assert(gparts.skip(2)[1] == gparts[3]);
            }
        }
        if !name_is_ok(&owner) || !name_is_ok(&repo) {
            return Err(bad(spec, "not an owner and repository name"));
        }
        let mut path: Vec<String> = Vec::new();
        let mut k = start;
        let mut escapes = false;
        while k < parts.len()
            invariant
                start <= k <= parts@.len(),
                gparts == views(parts@),
                gpath == gparts.skip(start as int),
                texts(path@) == gpath.take(k - start),
                escapes == (gpath.take(k - start).contains(seq!['.']) || gpath.take(k - start).contains(seq!['.', '.'])),
            decreases parts@.len() - k,
        {
            let p = &parts[k];
            let dot = p.len() == 1 && p[0] == '.';
            let dotdot = p.len() == 2 && p[0] == '.' && p[1] == '.';
            let ghost before = gpath.take(k - start);
            proof {
                assert(gpath.take(k + 1 - start) =~= before.push(p@));
                if dot {
                    assert(p@ =~= seq!['.']);
                }
                if dotdot {
                    assert(p@ =~= seq!['.', '.']);
                }
                if p@ == seq!['.'] {
                    assert(p@.len() == 1 && p@[0] == '.');
                }
                if p@ == seq!['.', '.'] {
                    assert(p@.len() == 2 && p@[0] == '.' && p@[1] == '.');
                }
                let after = before.push(p@);
                assert(after.contains(seq!['.']) == (before.contains(seq!['.']) || p@ == seq!['.'])) by {
                    if after.contains(seq!['.']) {
                        let j = choose|j: int| 0 <= j < after.len() && after[j] == seq!['.'];
                        if j < before.len() {
                            assert(before[j] == after[j]);
                        }
                    }
                    if before.contains(seq!['.']) {
                        let j = choose|j: int| 0 <= j < before.len() && before[j] == seq!['.'];
                        assert(after[j] == before[j]);
                    }
                    if p@ == seq!['.'] {
                        assert(after[before.len() as int] == p@);
                    }
                }
                assert(after.contains(seq!['.', '.']) == (before.contains(seq!['.', '.']) || p@ == seq!['.', '.'])) by {
                    if after.contains(seq!['.', '.']) {
                        let j = choose|j: int| 0 <= j < after.len() && after[j] == seq!['.', '.'];
                        if j < before.len() {
                            assert(before[j] == after[j]);
                        }
                    }
                    if before.contains(seq!['.', '.']) {
                        let j = choose|j: int| 0 <= j < before.len() && before[j] == seq!['.', '.'];
                        assert(after[j] == before[j]);
                    }
                    if p@ == seq!['.', '.'] {
                        assert(after[before.len() as int] == p@);
                    }
                }
            }
            escapes = escapes || dot || dotdot;
            path.push(string_of(p.as_slice()));
            proof {
                assert(texts(path@) =~= before.push(p@));
            }
            k += 1;
        }
        proof {
            assert(gpath.take(k - start) =~= gpath);
        }
        if escapes {
            return Err(bad(spec, "the path must stay inside the repository"));
        }
        match &git_ref {
            Some(r) => {
                if !ref_is_ok(r.as_slice()) {
                    return Err(bad(spec, "not a branch, tag or commit after @"));
                }
            },
            None => {},
        }
        let gr = match git_ref {
            Some(r) => Some(string_of(&r)),
            None => None,
        };
        proof {
            let r0s = match strip_prefix(spec@, "https://"@) {
                Some(r) => r,
                None => match strip_prefix(spec@, "http://"@) {
                    Some(r) => r,
                    None => spec@,
                },
            };
            assert(r0@ == r0s);
            assert(strip_prefix(r0s, "github.com/"@) == Some(r1@));
            let gb = match find(r1@, '@') {
                Some(i) => r1@.take(i),
                None => r1@,
            };
            assert(body@ =~= gb);
            assert(gparts == nonempty(split_on(gb, '/')));
            assert(name_ok(gparts[0]));
            assert(name_ok(without_git(gparts[1])));
            assert(crate::initrd::opt_text(gr) == (if browser { Some(gparts.skip(2)[1]) } else { match find(r1@, '@') { Some(i) => Some(r1@.skip(i + 1)), None => None } }));
            assert(texts(path@) == gpath);
        }
        Ok(Some(GitHubSpec { owner: string_of(&owner), repo: string_of(&repo), git_ref: gr, path }))
    }
}

/// How a spec is written back: `github.com/OWNER/REPO`, each path part
/// after a `/`, and `@REF` when there is one.
pub open spec fn spec_display(owner: Seq<char>, repo: Seq<char>, git_ref: Option<Seq<char>>, path: Seq<Seq<char>>) -> Seq<char> {
    "github.com/"@ + owner + seq!['/'] + repo + slashed(path) + match git_ref {
        Some(r) => seq!['@'] + r,
        None => seq![],
    }
}

/// Each part after a `/`.
pub open spec fn slashed(path: Seq<Seq<char>>) -> Seq<char>
    decreases path.len(),
{
    if path.len() == 0 {
        seq![]
    } else {
        slashed(path.drop_last()) + seq!['/'] + path.last()
    }
}

/// What follows `prefix` and a `/` at the start of `rel`, part by part.
pub open spec fn under(rel: Seq<char>, prefix: Seq<Seq<char>>) -> Option<Seq<char>>
    decreases prefix.len(),
{
    if prefix.len() == 0 {
        Some(rel)
    } else {
        match strip_prefix(rel, prefix[0]) {
            Some(r) => match strip_prefix(r, seq!['/']) {
                Some(r2) => under(r2, prefix.drop_first()),
                None => None,
            },
            None => None,
        }
    }
}

impl GitHubSpec {
    /// What the template is called: its directory, or the repository when
    /// it is the whole repository.
    pub fn template_name(&self) -> (r: String)
        ensures
            r@ == (if self.path@.len() > 0 {
                self.path@.last()@
            } else {
                self.repo@
            }),
    {
        if self.path.len() > 0 {
            self.path[self.path.len() - 1].clone()
        } else {
            self.repo.clone()
        }
    }

    /// The API's tarball of the repository at the ref (the default branch
    /// without one).
    pub fn tarball_url(&self) -> (r: String)
        ensures
            r@ == "https://api.github.com/repos/"@ + self.owner@ + seq!['/'] + self.repo@ + "/tarball"@ + match self.git_ref {
                Some(g) => seq!['/'] + g@,
                None => seq![],
            },
    {
        let mut url = "https://api.github.com/repos/".to_owned();
        push_str(&mut url, self.owner.as_str());
        push_char(&mut url, '/');
        push_str(&mut url, self.repo.as_str());
        push_str(&mut url, "/tarball");
        match &self.git_ref {
            Some(g) => {
                push_char(&mut url, '/');
                push_str(&mut url, g.as_str());
            },
            None => {},
        }
        url
    }

    /// The spec as it is written (see [`spec_display`]).
    pub fn to_string(&self) -> (r: String)
        ensures
            r@ == spec_display(self.owner@, self.repo@, crate::initrd::opt_text(self.git_ref), texts(self.path@)),
    {
        let mut s = "github.com/".to_owned();
        push_str(&mut s, self.owner.as_str());
        push_char(&mut s, '/');
        push_str(&mut s, self.repo.as_str());
        let ghost head = s@;
        let mut i: usize = 0;
        while i < self.path.len()
            invariant
                i <= self.path@.len(),
                s@ == head + slashed(texts(self.path@).take(i as int)),
            decreases self.path@.len() - i,
        {
            push_char(&mut s, '/');
            push_str(&mut s, self.path[i].as_str());
            proof {
                let t = texts(self.path@).take(i + 1);
                assert(t.drop_last() =~= texts(self.path@).take(i as int));
            }
            i += 1;
        }
        assert(texts(self.path@).take(i as int) =~= texts(self.path@));
        match &self.git_ref {
            Some(g) => {
                push_char(&mut s, '@');
                push_str(&mut s, g.as_str());
            },
            None => {},
        }
        s
    }

    /// A tarball entry's path relative to the template directory, `None`
    /// when it is outside it.  GitHub's tarballs put everything under one
    /// `OWNER-REPO-SHA/` directory, which is dropped.
    pub fn inside(&self, path: &str) -> (r: Option<String>)
        ensures
            crate::initrd::opt_text(r) == spec_inside(*self, path@),
    {
        let rel = match crate::template::relative(path) {
            Some(r) => r,
            None => {
                return None;
            },
        };
        let v = chars_of(rel.as_str());
        proof {
            crate::text::lemma_find_from(v@, '/', 0);
        }
        let i = match crate::text::find_char(&v, '/') {
            Some(i) => i,
            None => {
                return None;
            },
        };
        assert(i < v.len());
        let mut cur = slice_vec(&v, i + 1, v.len());
        assert(cur@ =~= v@.skip(i + 1));
        let mut k: usize = 0;
        let ghost full = texts(self.path@);
        assert(full.skip(0) =~= full);
        while k < self.path.len()
            invariant
                k <= self.path@.len(),
                full == texts(self.path@),
                under(v@.skip(i + 1), full) == under(cur@, full.skip(k as int)),
                v@ == rel@,
                crate::template::spec_relative(path@) == Some(rel@),
                find(v@, '/') == Some(i as int),
            decreases self.path@.len() - k,
        {
            let part = chars_of(self.path[k].as_str());
            proof {
                assert(full.skip(k as int)[0] == part@);
                assert(full.skip(k as int).drop_first() =~= full.skip(k + 1));
            }
            let r = match crate::registry::strip_prefix_of(&cur, self.path[k].as_str()) {
                Some(r) => r,
                None => {
                    return None;
                },
            };
            let slash: Vec<char> = vec!['/'];
            if !crate::text::starts_with(&r, &slash) {
                assert(strip_prefix(r@, seq!['/']) is None) by {
                    assert(slash@ =~= seq!['/']);
                }
                return None;
            }
            assert(slash@ =~= seq!['/']);
            cur = slice_vec(&r, 1, r.len());
            k += 1;
        }
        Some(string_of(&cur))
    }

    /// The error for a tarball with nothing at the template's path.
    pub fn no_files_error(&self) -> (m: String)
        ensures
            m@ == spec_no_files(*self),
    {
        let mut m = self.to_string();
        let mut joined = String::new();
        let mut i: usize = 0;
        while i < self.path.len()
            invariant
                i <= self.path@.len(),
                joined@ == crate::text::join(texts(self.path@).take(i as int), seq!['/']),
            decreases self.path@.len() - i,
        {
            if i > 0 {
                push_char(&mut joined, '/');
            }
            push_str(&mut joined, self.path[i].as_str());
            proof {
                let t = texts(self.path@).take(i + 1);
                assert(t.drop_last() =~= texts(self.path@).take(i as int));
                if i == 0 {
                    assert(joined@ =~= t[0]);
                }
            }
            i += 1;
        }
        assert(texts(self.path@).take(i as int) =~= texts(self.path@));
        push_str(&mut m, ": no files at ");
        let q = quoted(joined.as_str());
        push_str(&mut m, q.as_str());
        push_str(&mut m, " in the repository");
        m
    }
}

/// Where a tarball path lands in the template: the part under the
/// template's directory, below the tarball's top directory.
pub open spec fn spec_inside(g: GitHubSpec, path: Seq<char>) -> Option<Seq<char>> {
    match crate::template::spec_relative(path) {
        Some(rel) => match find(rel, '/') {
            Some(i) => under(rel.skip(i + 1), texts(g.path@)),
            None => None,
        },
        None => None,
    }
}

/// What a template that holds no files is answered.
pub open spec fn spec_no_files(g: GitHubSpec) -> Seq<char> {
    spec_display(g.owner@, g.repo@, crate::initrd::opt_text(g.git_ref), texts(g.path@)) + ": no files at "@
        + debug_quoted(crate::text::join(texts(g.path@), seq!['/'])) + " in the repository"@
}

/// `{spec}: reading the tarball: {why}`.
pub open spec fn spec_reading_error(g: GitHubSpec, why: Seq<char>) -> Seq<char> {
    spec_display(g.owner@, g.repo@, crate::initrd::opt_text(g.git_ref), texts(g.path@)) + ": reading the tarball: "@
        + why
}

/// `{spec}: not a tarball: {why}`.
pub open spec fn spec_not_a_tarball(g: GitHubSpec, why: Seq<char>) -> Seq<char> {
    spec_display(g.owner@, g.repo@, crate::initrd::opt_text(g.git_ref), texts(g.path@)) + ": not a tarball: "@ + why
}

/// A kept file as plain values: its path, the bytes of its text, and
/// whether it is executable.
pub open spec fn file_view(f: crate::template::TemplateFile) -> (Seq<char>, Seq<u8>, bool) {
    (f.path@, vstd::utf8::encode_utf8(f.text@), f.executable)
}

pub open spec fn file_views(fs: Seq<crate::template::TemplateFile>) -> Seq<(Seq<char>, Seq<u8>, bool)> {
    fs.map_values(|f: crate::template::TemplateFile| file_view(f))
}

/// A header mode with an execute bit.
pub open spec fn executable_mode(mode: Option<u32>) -> bool {
    match mode {
        Some(m) => m & 0o111 != 0,
        None => false,
    }
}

/// The template's files a repository tarball's entries give, in order,
/// with the size counted so far, or why they are refused: every regular
/// file under the template's directory is kept as at most its header's
/// size of text, within the bounds of [`crate::template::Files`].
pub open spec fn gathered(g: GitHubSpec, rs: Seq<crate::cpio::TarRecord>) -> Result<
    (Seq<(Seq<char>, Seq<u8>, bool)>, int),
    Seq<char>,
>
    decreases rs.len(),
{
    if rs.len() == 0 {
        Ok((seq![], 0))
    } else {
        match gathered(g, rs.drop_last()) {
            Err(e) => Err(e),
            Ok((held, counted)) => {
                let r = rs.last();
                if crate::cpio::spec_entry_kind(r.typeflag) != crate::cpio::EntryKind::Regular {
                    Ok((held, counted))
                } else if r.path_error is Some {
                    Err(spec_reading_error(g, r.path_error->0@))
                } else {
                    match spec_inside(g, r.path@) {
                        None => Ok((held, counted)),
                        Some(rel) => {
                            let len: u64 = match r.size {
                                Some(x) => x,
                                None => 0,
                            };
                            let c2 = if counted + len > u64::MAX {
                                u64::MAX as int
                            } else {
                                counted + len
                            };
                            let d = crate::template::read_part(r.data@, len);
                            if !(held.len() < crate::template::MAX_FILES && c2 <= crate::template::MAX_BYTES) {
                                Err("the template has more than 256 files or 4 MiB: is it the right directory?"@)
                            } else if !vstd::utf8::valid_utf8(d) {
                                Err(rel + ": not UTF-8 text; a template's files are all text"@)
                            } else {
                                Ok((held.push((rel, d, executable_mode(r.mode))), c2))
                            }
                        },
                    }
                }
            },
        }
    }
}

proof fn lemma_gathered_err(g: GitHubSpec, rs: Seq<crate::cpio::TarRecord>, k: int)
    requires
        0 <= k <= rs.len(),
        gathered(g, rs.take(k)) is Err,
    ensures
        gathered(g, rs) == gathered(g, rs.take(k)),
    decreases rs.len() - k,
{
    if k < rs.len() {
        assert(rs.take(k + 1).drop_last() =~= rs.take(k));
        lemma_gathered_err(g, rs, k + 1);
    } else {
        assert(rs.take(k) =~= rs);
    }
}

impl GitHubSpec {
    /// The template's files out of a repository tarball (a gzip'd tar):
    /// see [`gathered`]; a tarball that does not read, or that holds no
    /// file of the template, is refused.
    pub fn template_files(&self, tarball: &[u8]) -> (r: Result<crate::template::Files, String>)
        ensures
            ({
                let w = crate::cpio::parsed_gz_tar(tarball@);
                match gathered(*self, w.records) {
                    Err(m) => r matches Err(e) && e@ == m,
                    Ok((held, counted)) => match w.end {
                        crate::cpio::TarEnd::Open(why) => r matches Err(e) && e@ == spec_not_a_tarball(*self, why),
                        crate::cpio::TarEnd::Entry(why) => r matches Err(e) && e@ == spec_reading_error(*self, why),
                        crate::cpio::TarEnd::Done => if held.len() == 0 {
                            r matches Err(e) && e@ == spec_no_files(*self)
                        } else {
                            r matches Ok(f) && file_views(f.held()) == held && f.counted() == counted
                        },
                    },
                }
            }),
    {
        let (contents, brk) = crate::cpio::gz_tar_contents(tarball);
        let names = crate::cpio::gz_tar_names(tarball);
        let numbers = crate::cpio::gz_tar_numbers(tarball);
        let ghost rs = crate::cpio::parsed_gz_tar(tarball@).records;
        let mut files = crate::template::Files::new();
        let mut i: usize = 0;
        assert(rs.take(0) =~= Seq::<crate::cpio::TarRecord>::empty());
        assert(file_views(files.held()) =~= Seq::<(Seq<char>, Seq<u8>, bool)>::empty());
        while i < contents.len()
            invariant
                i <= contents@.len(),
                contents@.len() == rs.len(),
                names@.len() >= rs.len(),
                numbers@.len() >= rs.len(),
                forall|k: int| 0 <= k < rs.len() ==> numbers@[k] == crate::cpio::numbers_of(#[trigger] rs[k]),
                rs == crate::cpio::parsed_gz_tar(tarball@).records,
                crate::cpio::end_of(brk) == crate::cpio::parsed_gz_tar(tarball@).end,
                forall|k: int| 0 <= k < rs.len() ==> crate::cpio::name_is(names@[k], #[trigger] rs[k]),
                forall|k: int| 0 <= k < contents@.len() ==> (#[trigger] contents@[k])@ == rs[k].data@,
                gathered(*self, rs.take(i as int)) == Ok::<(Seq<(Seq<char>, Seq<u8>, bool)>, int), Seq<char>>(
                    (file_views(files.held()), files.counted() as int),
                ),
            decreases contents@.len() - i,
        {
            let part = &names[i];
            let data = &contents[i];
            let n = numbers[i];
            let ghost x = rs[i as int];
            assert(n == crate::cpio::numbers_of(x));
            assert(crate::cpio::name_is(*part, x) && data@ == x.data@);
            assert(rs.take(i + 1).drop_last() =~= rs.take(i as int));
            assert(rs.take(i + 1).last() == x);
            let ghost before = files.held();
            if matches!(crate::cpio::entry_kind(part.typeflag), crate::cpio::EntryKind::Regular) {
                if let Some(why) = &part.path_error {
                    proof {
                        lemma_gathered_err(*self, rs, i + 1);
                    }
                    return Err(self.reading_error(why.as_str()));
                }
                if let Some(rel) = self.inside(part.path.as_str()) {
                    let len: u64 = match n.size {
                        Some(s) => s,
                        None => 0,
                    };
                    let executable = match n.mode {
                        Some(m) => m & 0o111 != 0,
                        None => false,
                    };
                    let ghost relv = rel@;
                    match files.push(rel, len, data.as_slice(), executable) {
                        Ok(()) => {
                            assert(file_views(files.held()) =~= file_views(before).push(
                                (relv, crate::template::read_part(x.data@, len), executable_mode(x.mode)),
                            ));
                        },
                        Err(e) => {
                            proof {
                                lemma_gathered_err(*self, rs, i + 1);
                            }
                            return Err(e);
                        },
                    }
                }
            }
            i += 1;
        }
        assert(rs.take(i as int) =~= rs);
        match brk {
            Some(crate::cpio::TarBreak::Open(why)) => {
                return Err(self.not_a_tarball(why.as_str()));
            },
            Some(crate::cpio::TarBreak::Entry(why)) => {
                return Err(self.reading_error(why.as_str()));
            },
            None => {},
        }
        if files.is_empty() {
            return Err(self.no_files_error());
        }
        Ok(files)
    }

    /// `{spec}: reading the tarball: {why}`.
    fn reading_error(&self, why: &str) -> (m: String)
        ensures
            m@ == spec_reading_error(*self, why@),
    {
        let mut m = self.to_string();
        push_str(&mut m, ": reading the tarball: ");
        push_str(&mut m, why);
        m
    }

    /// `{spec}: not a tarball: {why}`.
    fn not_a_tarball(&self, why: &str) -> (m: String)
        ensures
            m@ == spec_not_a_tarball(*self, why@),
    {
        let mut m = self.to_string();
        push_str(&mut m, ": not a tarball: ");
        push_str(&mut m, why);
        m
    }
}

} // verus!
