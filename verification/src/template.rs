//! Project templates: the files a template holds, bounded as they are
//! read, and what they become in a new project, placeholders filled in.
use vstd::prelude::*;

use crate::guest::views;
use crate::registry::split_on;
use crate::text::{chars_of, push_char, push_chars, push_str, same_text, slice_vec, string_of};

verus! {

broadcast use vstd::seq_lib::group_to_multiset_ensures;

/// The file in a template that describes it, never copied into a project.
pub const META_FILE: &'static str = "template.toml";

/// The project's manifest, which every template must hold.
pub const MANIFEST_FILE: &'static str = "hluk.toml";

/// A file named `X.tmpl` is written to the project as `X`.
pub const TMPL_SUFFIX: &'static str = ".tmpl";

/// The most files a template read from disk or GitHub may hold.
pub const MAX_FILES: usize = 256;

/// The most bytes a template read from disk or GitHub may hold (4 MiB).
pub const MAX_BYTES: u64 = 4194304;

/// What `template.toml` says about a template.
#[derive(Debug, Clone)]
pub struct Meta {
    /// One line for `hluk templates`.
    pub description: String,
    /// The published rootfs the template runs on (`python`, `node`, …).
    pub runtime: String,
    /// The runtime's support tier, for ordering.
    pub tier: Option<u8>,
}

/// Where a template came from.
#[derive(Debug, Clone, PartialEq, Eq)]
pub enum Origin {
    BuiltIn,
    Dir(String),
    GitHub(String),
}

impl Origin {
    /// Where the template came from, in words: `built-in`, the directory,
    /// or the GitHub spec.
    pub fn describe(&self) -> (r: String)
        ensures
            r@ == match self {
                Origin::BuiltIn => "built-in"@,
                Origin::Dir(d) => d@,
                Origin::GitHub(g) => g@,
            },
    {
        match self {
            Origin::BuiltIn => "built-in".to_owned(),
            Origin::Dir(d) => d.clone(),
            Origin::GitHub(g) => g.clone(),
        }
    }
}

/// One file of a template.
#[derive(Debug, Clone, PartialEq, Eq)]
pub struct TemplateFile {
    /// `/`-separated, relative to the template directory.
    pub path: String,
    pub text: String,
    /// Written with its executable bits set.
    pub executable: bool,
}

/// A file of the project a template writes, placeholders filled in.
#[derive(Debug, Clone)]
pub struct ProjectFile {
    /// `/`-separated, relative to the project directory.
    pub path: String,
    pub text: String,
    pub executable: bool,
}

/// The values a template's placeholders take.
pub struct Vars<'a> {
    pub name: &'a str,
    pub version: &'a str,
    pub registry: &'a str,
    pub image: &'a str,
    pub base: &'a str,
}

/// `s` with every `p` replaced by `w`, left to right, as `str::replace`
/// does.
pub open spec fn replace_all(s: Seq<char>, p: Seq<char>, w: Seq<char>) -> Seq<char>
    decreases s.len(),
{
    if s.len() == 0 || p.len() == 0 {
        s
    } else if p.len() <= s.len() && s.take(p.len() as int) == p {
        w + replace_all(s.skip(p.len() as int), p, w)
    } else {
        seq![s[0]] + replace_all(s.drop_first(), p, w)
    }
}

/// `s` with every `p` replaced by `w`.
pub fn replace(s: &str, p: &str, w: &str) -> (r: String)
    requires
        p@.len() > 0,
    ensures
        r@ == replace_all(s@, p@, w@),
{
    let v = chars_of(s);
    let pc = chars_of(p);
    let wc = chars_of(w);
    let mut out = String::new();
    let mut i: usize = 0;
    assert(v@.skip(0) =~= v@);
    while i < v.len()
        invariant
            i <= v@.len(),
            pc@ == p@,
            pc@.len() > 0,
            out@ + replace_all(v@.skip(i as int), pc@, wc@) == replace_all(v@, pc@, wc@),
        decreases v@.len() - i,
    {
        let ghost before = out@;
        let ghost rest = v@.skip(i as int);
        let here = v.len() - i >= pc.len() && {
            let tail = slice_vec(&v, i, i + pc.len());
            crate::text::chars_eq(&tail, &pc)
        };
        if here {
            push_chars(&mut out, &wc);
            proof {
                assert(v@.subrange(i as int, i + pc@.len()) =~= rest.take(pc@.len() as int));
                assert(rest.skip(pc@.len() as int) =~= v@.skip(i + pc@.len()));
            }
            i = i + pc.len();
        } else {
            push_char(&mut out, v[i]);
            proof {
                if pc@.len() <= rest.len() {
                    assert(v@.subrange(i as int, i + pc@.len()) =~= rest.take(pc@.len() as int));
                }
                assert(rest.drop_first() =~= v@.skip(i + 1));
                assert(rest[0] == v@[i as int]);
            }
            i = i + 1;
        }
    }
    proof {
        assert(v@.skip(i as int) =~= Seq::<char>::empty());
    }
    out
}

/// A file's text with its placeholders filled: `{{name}}`, `{{version}}`,
/// `{{registry}}`, `{{image}}` and `{{base}}`, in that order.  Nothing
/// else is touched, so `{{` that belongs to the language is left alone.
pub open spec fn spec_substitute(text: Seq<char>, name: Seq<char>, version: Seq<char>, registry: Seq<char>, image: Seq<char>, base: Seq<char>) -> Seq<char> {
    replace_all(
        replace_all(
            replace_all(replace_all(replace_all(text, "{{name}}"@, name), "{{version}}"@, version), "{{registry}}"@, registry),
            "{{image}}"@,
            image,
        ),
        "{{base}}"@,
        base,
    )
}

/// Fill the placeholders in one file.
pub fn substitute(text: &str, vars: &Vars) -> (r: String)
    ensures
        r@ == spec_substitute(text@, vars.name@, vars.version@, vars.registry@, vars.image@, vars.base@),
{
    proof {
        reveal_strlit("{{name}}");
        reveal_strlit("{{version}}");
        reveal_strlit("{{registry}}");
        reveal_strlit("{{image}}");
        reveal_strlit("{{base}}");
    }
    let a = replace(text, "{{name}}", vars.name);
    let b = replace(a.as_str(), "{{version}}", vars.version);
    let c = replace(b.as_str(), "{{registry}}", vars.registry);
    let d = replace(c.as_str(), "{{image}}", vars.image);
    replace(d.as_str(), "{{base}}", vars.base)
}

/// The normal components of `/`-separated pieces: the empty ones (from
/// repeated or trailing `/`) and `.` are dropped.
pub open spec fn normal_parts(ps: Seq<Seq<char>>) -> Seq<Seq<char>>
    decreases ps.len(),
{
    if ps.len() == 0 {
        seq![]
    } else if ps.last().len() == 0 || ps.last() == seq!['.'] {
        normal_parts(ps.drop_last())
    } else {
        normal_parts(ps.drop_last()).push(ps.last())
    }
}

/// A path inside a template as the `/`-separated relative path files are
/// keyed by, or `None` when it could leave the template (`..`, or a root)
/// or names nothing.
pub open spec fn spec_relative(path: Seq<char>) -> Option<Seq<char>> {
    let parts = normal_parts(split_on(path, '/'));
    if path.len() > 0 && path[0] == '/' {
        None
    } else if parts.contains(seq!['.', '.']) {
        None
    } else if parts.len() == 0 {
        None
    } else {
        Some(crate::text::join(parts, seq!['/']))
    }
}

/// A path inside a template, relative and `/`-separated (see
/// [`spec_relative`]).
pub fn relative(path: &str) -> (r: Option<String>)
    ensures
        crate::initrd::opt_text(r) == spec_relative(path@),
{
    let v = chars_of(path);
    if v.len() > 0 && v[0] == '/' {
        return None;
    }
    let pieces = crate::registry::split_chars(&v, '/');
    let ghost ps = views(pieces@);
    let mut parts: Vec<Vec<char>> = Vec::new();
    let mut i: usize = 0;
    let mut dotdot = false;
    while i < pieces.len()
        invariant
            i <= pieces@.len(),
            ps == views(pieces@),
            views(parts@) == normal_parts(ps.take(i as int)),
            dotdot == normal_parts(ps.take(i as int)).contains(seq!['.', '.']),
        decreases pieces@.len() - i,
    {
        let p = &pieces[i];
        proof {
            assert(ps.take(i + 1).drop_last() =~= ps.take(i as int));
            assert(ps.take(i + 1).last() == ps[i as int]);
            assert(p@ == ps[i as int]);
        }
        let empty = p.len() == 0;
        let dot = p.len() == 1 && p[0] == '.';
        proof {
            if p@ == seq!['.'] {
                assert(p@.len() == 1 && p@[0] == '.');
            }
            if dot {
                assert(p@ =~= seq!['.']);
            }
        }
        if !(empty || dot) {
            let is_up = p.len() == 2 && p[0] == '.' && p[1] == '.';
            proof {
                if is_up {
                    assert(p@ =~= seq!['.', '.']);
                }
                if p@ == seq!['.', '.'] {
                    assert(p@.len() == 2 && p@[0] == '.' && p@[1] == '.');
                }
            }
            let ghost before = views(parts@);
            let copy = slice_vec(p.as_slice(), 0, p.len());
            assert(copy@ =~= p@);
            parts.push(copy);
            proof {
                assert(views(parts@) =~= before.push(p@));
                assert(before.push(p@).contains(seq!['.', '.']) == (before.contains(seq!['.', '.']) || p@ == seq!['.', '.'])) by {
                    if before.push(p@).contains(seq!['.', '.']) {
                        let k = choose|k: int| 0 <= k < before.push(p@).len() && before.push(p@)[k] == seq!['.', '.'];
                        if k < before.len() {
                            assert(before[k] == seq!['.', '.']);
                        }
                    }
                    if before.contains(seq!['.', '.']) {
                        let k = choose|k: int| 0 <= k < before.len() && before[k] == seq!['.', '.'];
                        assert(before.push(p@)[k] == seq!['.', '.']);
                    }
                    if p@ == seq!['.', '.'] {
                        assert(before.push(p@)[before.len() as int] == seq!['.', '.']);
                    }
                }
            }
            dotdot = dotdot || is_up;
        }
        i += 1;
    }
    proof {
        assert(ps.take(i as int) =~= ps);
    }
    if dotdot || parts.len() == 0 {
        return None;
    }
    let mut out = String::new();
    let mut k: usize = 0;
    while k < parts.len()
        invariant
            k <= parts@.len(),
            out@ == crate::text::join(views(parts@).take(k as int), seq!['/']),
        decreases parts@.len() - k,
    {
        if k > 0 {
            push_char(&mut out, '/');
        }
        push_chars(&mut out, parts[k].as_slice());
        proof {
            let w = views(parts@).take(k + 1);
            assert(w.drop_last() =~= views(parts@).take(k as int));
            if k == 0 {
                assert(out@ =~= w[0]);
            }
        }
        k += 1;
    }
    assert(views(parts@).take(k as int) =~= views(parts@));
    Some(out)
}

/// `a` sorts before `b`, character by character as `str`'s order goes
/// (UTF-8 bytes sort as their code points do).
pub open spec fn lex_lt(a: Seq<char>, b: Seq<char>) -> bool
    decreases a.len(),
{
    if b.len() == 0 {
        false
    } else if a.len() == 0 {
        true
    } else if a[0] != b[0] {
        a[0] < b[0]
    } else {
        lex_lt(a.drop_first(), b.drop_first())
    }
}

proof fn lemma_lex_trans(a: Seq<char>, b: Seq<char>, c: Seq<char>)
    requires
        lex_lt(a, b),
        lex_lt(b, c),
    ensures
        lex_lt(a, c),
    decreases a.len(),
{
    if a.len() > 0 && b.len() > 0 && c.len() > 0 && a[0] == b[0] && b[0] == c[0] {
        lemma_lex_trans(a.drop_first(), b.drop_first(), c.drop_first());
    }
}

proof fn lemma_lex_irrefl(a: Seq<char>)
    ensures
        !lex_lt(a, a),
    decreases a.len(),
{
    if a.len() > 0 {
        lemma_lex_irrefl(a.drop_first());
    }
}

/// The order template files sort in: by path, then text, then the
/// executable bit.
pub open spec fn file_lt(x: TemplateFile, y: TemplateFile) -> bool {
    lex_lt(x.path@, y.path@) || (x.path@ == y.path@ && (lex_lt(x.text@, y.text@) || (x.text@ == y.text@
        && !x.executable && y.executable)))
}

proof fn lemma_file_trans(x: TemplateFile, y: TemplateFile, z: TemplateFile)
    requires
        file_lt(x, y),
        file_lt(y, z),
    ensures
        file_lt(x, z),
{
    if lex_lt(x.path@, y.path@) && lex_lt(y.path@, z.path@) {
        lemma_lex_trans(x.path@, y.path@, z.path@);
    }
    if x.path@ == y.path@ && y.path@ == z.path@ {
        if lex_lt(x.text@, y.text@) && lex_lt(y.text@, z.text@) {
            lemma_lex_trans(x.text@, y.text@, z.text@);
        }
    }
}

/// Files in order: none sorts before one ahead of it.
pub open spec fn files_sorted(fs: Seq<TemplateFile>) -> bool {
    forall|i: int, j: int| 0 <= i < j < fs.len() ==> !file_lt(#[trigger] fs[j], #[trigger] fs[i])
}

fn chars_lt(a: &[char], b: &[char]) -> (r: bool)
    ensures
        r == lex_lt(a@, b@),
{
    let mut i: usize = 0;
    assert(a@.skip(0) =~= a@);
    assert(b@.skip(0) =~= b@);
    while i < a.len() && i < b.len() && a[i] == b[i]
        invariant
            i <= a@.len(),
            i <= b@.len(),
            lex_lt(a@, b@) == lex_lt(a@.skip(i as int), b@.skip(i as int)),
        decreases a@.len() - i,
    {
        assert(a@.skip(i as int).drop_first() =~= a@.skip(i + 1));
        assert(b@.skip(i as int).drop_first() =~= b@.skip(i + 1));
        i += 1;
    }
    if i == b.len() {
        return false;
    }
    if i == a.len() {
        return true;
    }
    a[i] < b[i]
}

fn file_before(x: &TemplateFile, y: &TemplateFile) -> (r: bool)
    ensures
        r == file_lt(*x, *y),
{
    let xp = chars_of(x.path.as_str());
    let yp = chars_of(y.path.as_str());
    if chars_lt(&xp, &yp) {
        return true;
    }
    if !crate::text::chars_eq(&xp, &yp) {
        return false;
    }
    let xt = chars_of(x.text.as_str());
    let yt = chars_of(y.text.as_str());
    if chars_lt(&xt, &yt) {
        return true;
    }
    crate::text::chars_eq(&xt, &yt) && !x.executable && y.executable
}

/// What reading at most `len` bytes of `contents` gives.
pub open spec fn read_part(contents: Seq<u8>, len: u64) -> Seq<u8> {
    if len < contents.len() {
        contents.take(len as int)
    } else {
        contents
    }
}

/// A template's files as they are read, held to [`MAX_FILES`] files and
/// [`MAX_BYTES`] bytes.  These stop a mistyped path (a home directory, a
/// whole monorepo) from being read into memory and written out as a
/// project.
pub struct Files {
    files: Vec<TemplateFile>,
    bytes: u64,
}

impl Files {
    pub closed spec fn held(&self) -> Seq<TemplateFile> {
        self.files@
    }

    /// The sizes counted so far (saturating).
    pub closed spec fn counted(&self) -> u64 {
        self.bytes
    }

    pub fn new() -> (f: Files)
        ensures
            f.held().len() == 0,
            f.counted() == 0,
    {
        Files { files: Vec::new(), bytes: 0 }
    }

    /// Count a file of `len` bytes against the bounds, before it is read:
    /// a stray large file is refused without being loaded.
    pub fn reserve(&mut self, len: u64) -> (r: Result<(), String>)
        ensures
            final(self).held() == old(self).held(),
            final(self).counted() == (if old(self).counted() + len > u64::MAX {
                u64::MAX as int
            } else {
                old(self).counted() + len
            }),
            r is Ok <==> (old(self).held().len() < MAX_FILES && final(self).counted() <= MAX_BYTES),
            r matches Err(m) ==> m@ == "the template has more than 256 files or 4 MiB: is it the right directory?"@,
    {
        self.bytes = self.bytes.saturating_add(len);
        if self.files.len() >= MAX_FILES || self.bytes > MAX_BYTES {
            return Err("the template has more than 256 files or 4 MiB: is it the right directory?".to_owned());
        }
        Ok(())
    }

    /// Keep a file that was reserved: templates are text (every file goes
    /// through placeholder substitution), so one that is not UTF-8 is
    /// refused.
    pub fn add(&mut self, rel: String, contents: &[u8], executable: bool) -> (r: Result<(), String>)
        ensures
            final(self).counted() == old(self).counted(),
            r is Ok <==> vstd::utf8::valid_utf8(contents@),
            r is Ok ==> final(self).held().len() == old(self).held().len() + 1 && final(self).held().drop_last()
                == old(self).held() && final(self).held().last().path@ == rel@ && vstd::utf8::encode_utf8(
                final(self).held().last().text@,
            ) == contents@ && final(self).held().last().executable == executable,
            r matches Err(m) ==> final(self).held() == old(self).held() && m@ == rel@
                + ": not UTF-8 text; a template's files are all text"@,
    {
        match crate::text::utf8_text(contents) {
            Some(text) => {
                self.files.push(TemplateFile { path: rel, text, executable });
                assert(self.files@.drop_last() =~= old(self).files@);
                Ok(())
            },
            None => {
                let mut m = rel;
                push_str(&mut m, ": not UTF-8 text; a template's files are all text");
                Err(m)
            },
        }
    }

    /// [`reserve`](Self::reserve), then [`add`](Self::add): one file of
    /// `len` bytes, its text the first `len` bytes of `contents` (see
    /// [`read_part`]).
    pub fn push(&mut self, rel: String, len: u64, contents: &[u8], executable: bool) -> (r: Result<(), String>)
        ensures
            final(self).counted() == (if old(self).counted() + len > u64::MAX {
                u64::MAX as int
            } else {
                old(self).counted() + len
            }),
            r is Ok <==> (old(self).held().len() < MAX_FILES && final(self).counted() <= MAX_BYTES
                && vstd::utf8::valid_utf8(read_part(contents@, len))),
            !(old(self).held().len() < MAX_FILES && final(self).counted() <= MAX_BYTES) ==> (r matches Err(m)
                && m@ == "the template has more than 256 files or 4 MiB: is it the right directory?"@),
            old(self).held().len() < MAX_FILES && final(self).counted() <= MAX_BYTES && !vstd::utf8::valid_utf8(
                read_part(contents@, len),
            ) ==> (r matches Err(m) && m@ == rel@ + ": not UTF-8 text; a template's files are all text"@),
            r is Err ==> final(self).held() == old(self).held(),
            r is Ok ==> final(self).held().len() == old(self).held().len() + 1 && final(self).held().drop_last()
                == old(self).held() && final(self).held().last().path@ == rel@ && vstd::utf8::encode_utf8(
                final(self).held().last().text@,
            ) == read_part(contents@, len) && final(self).held().last().executable == executable,
    {
        match self.reserve(len) {
            Ok(()) => {
                let n: usize = if len < contents.len() as u64 {
                    len as usize
                } else {
                    contents.len()
                };
                let part = crate::text::bytes_between(contents, 0, n);
                assert(part@ =~= read_part(contents@, len));
                self.add(rel, part.as_slice(), executable)
            },
            Err(e) => Err(e),
        }
    }

    pub fn is_empty(&self) -> (r: bool)
        ensures
            r == (self.held().len() == 0),
    {
        self.files.len() == 0
    }

    /// The files, sorted.
    pub fn into_vec(self) -> (v: Vec<TemplateFile>)
        ensures
            files_sorted(v@),
            v@.to_multiset() == self.held().to_multiset(),
    {
        let mut out: Vec<TemplateFile> = Vec::new();
        let ghost src = self.files@;
        let mut files = self.files;
        let ghost mut i: int = 0;
        while files.len() > 0
            invariant
                0 <= i <= src.len(),
                files@ == src.skip(i),
                files_sorted(out@),
                out@.to_multiset() == src.take(i).to_multiset(),
            decreases files@.len(),
        {
            let x = files.remove(0);
            proof {
                assert(x == src[i]);
                assert(files@ =~= src.skip(i + 1));
            }
            let mut p: usize = 0;
            while p < out.len() && !file_before(&x, &out[p])
                invariant
                    p <= out@.len(),
                    forall|k: int| 0 <= k < p ==> !file_lt(x, #[trigger] out@[k]),
                decreases out@.len() - p,
            {
                p += 1;
            }
            let ghost old_out = out@;
            out.insert(p, x);
            proof {
                assert forall|a: int, b: int| 0 <= a < b < out@.len() implies !file_lt(#[trigger] out@[b], #[trigger] out@[a]) by {
                    if a < p && b == p {
                    } else if a == p && b > p {
                        if file_lt(out@[b], x) {
                            if p < old_out.len() {
                                assert(file_lt(x, old_out[p as int]));
                                lemma_file_trans(out@[b], x, old_out[p as int]);
                                assert(old_out[b - 1] == out@[b]);
                                if b - 1 > p {
                                    assert(!file_lt(old_out[b - 1], old_out[p as int]));
                                } else {
                                    lemma_file_irrefl(old_out[p as int]);
                                }
                            }
                        }
                    } else {
                        let a0 = if a < p { a } else { a - 1 };
                        let b0 = if b < p { b } else { b - 1 };
                        assert(out@[a] == old_out[a0]);
                        assert(out@[b] == old_out[b0]);
                    }
                }
                assert(src.take(i + 1) =~= src.take(i).push(src[i]));
                i = i + 1;
            }
        }
        proof {
            assert(src.skip(i).len() == 0);
        }
        assert(src.take(i) =~= src);
        out
    }
}

proof fn lemma_file_irrefl(x: TemplateFile)
    ensures
        !file_lt(x, x),
{
    lemma_lex_irrefl(x.path@);
    lemma_lex_irrefl(x.text@);
}

/// The first file at `path`.
pub open spec fn first_at(files: Seq<TemplateFile>, path: Seq<char>, from: int) -> Option<int>
    decreases files.len() - from,
{
    if from < 0 || from >= files.len() {
        None
    } else if files[from].path@ == path {
        Some(from)
    } else {
        first_at(files, path, from + 1)
    }
}

fn find_file(files: &Vec<TemplateFile>, path: &str) -> (r: Option<usize>)
    ensures
        match first_at(files@, path@, 0) {
            Some(i) => r == Some(i as usize),
            None => r is None,
        },
{
    let mut i: usize = 0;
    while i < files.len()
        invariant
            i <= files@.len(),
            first_at(files@, path@, 0) == first_at(files@, path@, i as int),
        decreases files@.len() - i,
    {
        if same_text(files[i].path.as_str(), path) {
            return Some(i);
        }
        i += 1;
    }
    None
}

/// The runtimes images are published for, as a message lists them.
pub open spec fn published_runtimes() -> Seq<char> {
    "c, rust, quickjs, go, bash, python, python-shell, wasmtime, dotnet-aot, node, dotnet-jit, powershell, agent"@
}

/// A template with its metadata read.
#[derive(Debug, Clone)]
pub struct Template {
    pub name: String,
    pub meta: Meta,
    pub origin: Origin,
    pub files: Vec<TemplateFile>,
}

/// Which of a template's files describes it: `Err` when it has none.
pub fn meta_file(name: &str, files: &Vec<TemplateFile>) -> (r: Result<usize, String>)
    ensures
        match first_at(files@, META_FILE@, 0) {
            Some(i) => r == Ok::<usize, String>(i as usize),
            None => r matches Err(m) && m@ == "template "@ + name@ + ": no "@ + META_FILE@,
        },
{
    match find_file(files, META_FILE) {
        Some(i) => Ok(i),
        None => {
            let mut m = "template ".to_owned();
            push_str(&mut m, name);
            push_str(&mut m, ": no ");
            push_str(&mut m, META_FILE);
            Err(m)
        },
    }
}

impl Template {
    /// The files the template holds.
    pub open spec fn spec_files(&self) -> Seq<TemplateFile> {
        self.files@
    }

    /// A template from its files and what its `template.toml` says.
    /// Without a manifest the project has nothing for `hluk run` to run,
    /// and a runtime that is not published would only fail later, at the
    /// pull, with a less useful message.
    pub fn from_files(name: String, origin: Origin, files: Vec<TemplateFile>, meta: Meta) -> (r: Result<Template, String>)
        ensures
            first_at(files@, MANIFEST_FILE@, 0) is None ==> (r matches Err(m) && m@ == "template "@ + name@ + ": no "@
                + MANIFEST_FILE@),
            first_at(files@, MANIFEST_FILE@, 0) is Some && crate::initrd::runtime_mb(meta.runtime@) is None ==> (r matches Err(m)
                && m@ == "template "@ + name@ + ": "@ + META_FILE@ + ": runtime "@ + crate::text::debug_quoted(meta.runtime@)
                + " is not one hluk publishes ("@ + published_runtimes() + seq![')']),
            first_at(files@, MANIFEST_FILE@, 0) is Some && crate::initrd::runtime_mb(meta.runtime@) is Some ==> (r matches Ok(t)
                && t.name@ == name@ && t.origin == origin && t.spec_files() == files@ && t.meta.runtime@ == meta.runtime@
                && t.meta.description@ == meta.description@ && t.meta.tier == meta.tier),
    {
        if find_file(&files, MANIFEST_FILE).is_none() {
            let mut m = "template ".to_owned();
            push_str(&mut m, name.as_str());
            push_str(&mut m, ": no ");
            push_str(&mut m, MANIFEST_FILE);
            return Err(m);
        }
        if crate::initrd::runtime_scratch_mb(meta.runtime.as_str()).is_none() {
            let mut m = "template ".to_owned();
            push_str(&mut m, name.as_str());
            push_str(&mut m, ": ");
            push_str(&mut m, META_FILE);
            push_str(&mut m, ": runtime ");
            let q = crate::text::quoted(meta.runtime.as_str());
            push_str(&mut m, q.as_str());
            push_str(&mut m, " is not one hluk publishes (");
            push_str(&mut m, "c, rust, quickjs, go, bash, python, python-shell, wasmtime, dotnet-aot, node, dotnet-jit, powershell, agent");
            push_char(&mut m, ')');
            return Err(m);
        }
        Ok(Template { name, meta, origin, files })
    }

    /// The template's files.
    pub fn files(&self) -> (r: &Vec<TemplateFile>)
        ensures
            r@ == self.spec_files(),
    {
        &self.files
    }

    /// How `hluk templates` lists it: `name (description)`.
    pub fn describe(&self) -> (r: String)
        ensures
            r@ == self.name@ + " ("@ + self.meta.description@ + seq![')'],
    {
        let mut s = self.name.clone();
        push_str(&mut s, " (");
        push_str(&mut s, self.meta.description.as_str());
        push_char(&mut s, ')');
        s
    }

    /// The project files this template writes: every file but
    /// `template.toml`, a `.tmpl` suffix dropped, placeholders filled.
    pub fn render(&self, vars: &Vars) -> (out: Vec<ProjectFile>)
        ensures
            out@.len() == rendered(self.spec_files()).len(),
            forall|i: int| 0 <= i < out@.len() ==> {
                let f = #[trigger] rendered(self.spec_files())[i];
                &&& out@[i].path@ == project_path(f.path@)
                &&& out@[i].text@ == spec_substitute(f.text@, vars.name@, vars.version@, vars.registry@, vars.image@, vars.base@)
                &&& out@[i].executable == f.executable
            },
    {
        let mut out: Vec<ProjectFile> = Vec::new();
        let mut i: usize = 0;
        let ghost fs = self.files@;
        while i < self.files.len()
            invariant
                i <= fs.len(),
                fs == self.files@,
                out@.len() == rendered(fs.take(i as int)).len(),
                forall|k: int| 0 <= k < out@.len() ==> {
                    let f = #[trigger] rendered(fs.take(i as int))[k];
                    &&& out@[k].path@ == project_path(f.path@)
                    &&& out@[k].text@ == spec_substitute(f.text@, vars.name@, vars.version@, vars.registry@, vars.image@, vars.base@)
                    &&& out@[k].executable == f.executable
                },
            decreases fs.len() - i,
        {
            let f = &self.files[i];
            proof {
                assert(fs.take(i + 1).drop_last() =~= fs.take(i as int));
                assert(fs.take(i + 1).last() == fs[i as int]);
            }
            if !same_text(f.path.as_str(), META_FILE) {
                let pc = chars_of(f.path.as_str());
                let sc = chars_of(TMPL_SUFFIX);
                let path = if crate::text::ends_with(&pc, &sc) {
                    let p = crate::text::prefix(&pc, pc.len() - sc.len());
                    string_of(&p)
                } else {
                    f.path.clone()
                };
                let text = substitute(f.text.as_str(), vars);
                out.push(ProjectFile { path, text, executable: f.executable });
            }
            i += 1;
        }
        proof {
            assert(fs.take(i as int) =~= fs);
        }
        out
    }
}

/// What a project's path is for a template file's: a `.tmpl` suffix
/// dropped.
pub open spec fn project_path(p: Seq<char>) -> Seq<char> {
    if TMPL_SUFFIX@.len() <= p.len() && p.subrange(p.len() - TMPL_SUFFIX@.len(), p.len() as int) == TMPL_SUFFIX@ {
        p.take(p.len() - TMPL_SUFFIX@.len())
    } else {
        p
    }
}

/// The files a project gets: all but `template.toml`, in order.
pub open spec fn rendered(fs: Seq<TemplateFile>) -> Seq<TemplateFile>
    decreases fs.len(),
{
    if fs.len() == 0 {
        seq![]
    } else if fs.last().path@ == META_FILE@ {
        rendered(fs.drop_last())
    } else {
        rendered(fs.drop_last()).push(fs.last())
    }
}

/// The files a project gets are the template's files but
/// `template.toml`, in their order.
pub proof fn law_rendered_files_keep_their_order(fs: Seq<TemplateFile>)
    ensures
        rendered(fs) == fs.filter(|f: TemplateFile| f.path@ != META_FILE@),
    decreases fs.len(),
{
    reveal(Seq::filter);
    if fs.len() > 0 {
        law_rendered_files_keep_their_order(fs.drop_last());
    }
}

/// `p` occurs in `s`.
pub open spec fn occurs(s: Seq<char>, p: Seq<char>) -> bool {
    exists|i: int| 0 <= i && i + p.len() <= s.len() && #[trigger] s.subrange(i, i + p.len()) == p
}

proof fn lemma_replace_absent(s: Seq<char>, p: Seq<char>, w: Seq<char>)
    requires
        p.len() > 0,
        !occurs(s, p),
    ensures
        replace_all(s, p, w) == s,
    decreases s.len(),
{
    if s.len() > 0 {
        if p.len() <= s.len() && s.take(p.len() as int) == p {
            assert(s.subrange(0, 0 + p.len() as int) =~= p);
        }
        let rest = s.drop_first();
        if occurs(rest, p) {
            let i = choose|i: int| 0 <= i && i + p.len() <= rest.len() && #[trigger] rest.subrange(i, i + p.len()) == p;
            assert(s.subrange(i + 1, i + 1 + p.len()) =~= rest.subrange(i, i + p.len()));
        }
        lemma_replace_absent(rest, p, w);
        assert(seq![s[0]] + rest =~= s);
    }
}

/// Text in which none of the five placeholders occurs is written as it
/// is, whatever the values: `{{` that belongs to the language is left
/// alone.
pub proof fn law_text_without_placeholders_is_kept(
    text: Seq<char>,
    name: Seq<char>,
    version: Seq<char>,
    registry: Seq<char>,
    image: Seq<char>,
    base: Seq<char>,
)
    requires
        !occurs(text, "{{name}}"@),
        !occurs(text, "{{version}}"@),
        !occurs(text, "{{registry}}"@),
        !occurs(text, "{{image}}"@),
        !occurs(text, "{{base}}"@),
    ensures
        spec_substitute(text, name, version, registry, image, base) == text,
{
    reveal_strlit("{{name}}");
    reveal_strlit("{{version}}");
    reveal_strlit("{{registry}}");
    reveal_strlit("{{image}}");
    reveal_strlit("{{base}}");
    lemma_replace_absent(text, "{{name}}"@, name);
    lemma_replace_absent(text, "{{version}}"@, version);
    lemma_replace_absent(text, "{{registry}}"@, registry);
    lemma_replace_absent(text, "{{image}}"@, image);
    lemma_replace_absent(text, "{{base}}"@, base);
}

/// The five placeholders, in the order they are filled: `{{name}}`,
/// `{{version}}`, `{{registry}}`, `{{image}}`, `{{base}}`.
pub open spec fn placeholder(j: int) -> Seq<char> {
    if j == 0 {
        seq!['{', '{', 'n', 'a', 'm', 'e', '}', '}']
    } else if j == 1 {
        seq!['{', '{', 'v', 'e', 'r', 's', 'i', 'o', 'n', '}', '}']
    } else if j == 2 {
        seq!['{', '{', 'r', 'e', 'g', 'i', 's', 't', 'r', 'y', '}', '}']
    } else if j == 3 {
        seq!['{', '{', 'i', 'm', 'a', 'g', 'e', '}', '}']
    } else {
        seq!['{', '{', 'b', 'a', 's', 'e', '}', '}']
    }
}

/// `p` is written at `i` in `s`.
pub open spec fn at(s: Seq<char>, i: int, p: Seq<char>) -> bool {
    0 <= i && i + p.len() <= s.len() && s.subrange(i, i + p.len()) == p
}

/// One of the first `k` placeholders is written at `i` in `s`.
pub open spec fn placeholder_at(s: Seq<char>, i: int, k: int) -> bool {
    ||| (k > 0 && at(s, i, placeholder(0)))
    ||| (k > 1 && at(s, i, placeholder(1)))
    ||| (k > 2 && at(s, i, placeholder(2)))
    ||| (k > 3 && at(s, i, placeholder(3)))
    ||| (k > 4 && at(s, i, placeholder(4)))
}

/// `s` read once from the left, each of the first `k` placeholders
/// written in it replaced by its value in `vals`, everything else kept.
pub open spec fn fill_first(s: Seq<char>, vals: Seq<Seq<char>>, k: int) -> Seq<char>
    decreases s.len(),
{
    if s.len() == 0 {
        s
    } else if k > 0 && at(s, 0, placeholder(0)) {
        vals[0] + fill_first(s.skip(placeholder(0).len() as int), vals, k)
    } else if k > 1 && at(s, 0, placeholder(1)) {
        vals[1] + fill_first(s.skip(placeholder(1).len() as int), vals, k)
    } else if k > 2 && at(s, 0, placeholder(2)) {
        vals[2] + fill_first(s.skip(placeholder(2).len() as int), vals, k)
    } else if k > 3 && at(s, 0, placeholder(3)) {
        vals[3] + fill_first(s.skip(placeholder(3).len() as int), vals, k)
    } else if k > 4 && at(s, 0, placeholder(4)) {
        vals[4] + fill_first(s.skip(placeholder(4).len() as int), vals, k)
    } else {
        seq![s[0]] + fill_first(s.drop_first(), vals, k)
    }
}

pub open spec fn is_lower(c: char) -> bool {
    'a' <= c && c <= 'z'
}

/// Every `{{` in `s` starts a placeholder, ends the text, or is followed
/// by a character that can start no placeholder's name (`{{ hi }}`).
pub open spec fn braces_ok(s: Seq<char>) -> bool {
    forall|i: int|
        0 <= i && i + 1 < s.len() && #[trigger] s[i] == '{' && s[i + 1] == '{' ==> placeholder_at(s, i, 5) || i + 2
            == s.len() || (s[i + 2] != '{' && !is_lower(s[i + 2]))
}

proof fn lemma_at_char(s: Seq<char>, i: int, p: Seq<char>, c: int)
    requires
        at(s, i, p),
        0 <= c < p.len(),
    ensures
        s[i + c] == p[c],
{
    assert(s.subrange(i, i + p.len())[c] == s[i + c]);
}

/// A placeholder's shape: `{{`, lower-case letters, `}}`; no two start
/// with the same letter.
proof fn lemma_placeholder_shape(j: int)
    requires
        0 <= j < 5,
    ensures
        placeholder(j).len() >= 8,
        placeholder(j)[0] == '{',
        placeholder(j)[1] == '{',
        forall|c: int| 2 <= c < placeholder(j).len() ==> #[trigger] placeholder(j)[c] != '{',
        is_lower(placeholder(j)[2]),
        placeholder(j)[placeholder(j).len() - 1] == '}',
        forall|m: int| 0 <= m < 5 && m != j ==> placeholder(m)[2] != placeholder(j)[2],
{
}

proof fn lemma_at_one(s: Seq<char>, i: int, a: int, b: int)
    requires
        0 <= a < 5,
        0 <= b < 5,
        at(s, i, placeholder(a)),
        at(s, i, placeholder(b)),
    ensures
        a == b,
{
    lemma_placeholder_shape(a);
    lemma_placeholder_shape(b);
    lemma_at_char(s, i, placeholder(a), 2);
    lemma_at_char(s, i, placeholder(b), 2);
}

/// Where `x` has nothing `s` could match at, `p` is replaced only in `y`.
proof fn lemma_replace_through(x: Seq<char>, y: Seq<char>, p: Seq<char>, w: Seq<char>)
    requires
        p.len() > 0,
        forall|i: int| 0 <= i < x.len() ==> !at(x + y, i, p),
    ensures
        replace_all(x + y, p, w) == x + replace_all(y, p, w),
    decreases x.len(),
{
    if x.len() == 0 {
        assert(x + y =~= y);
    } else {
        let s = x + y;
        assert(!at(s, 0, p));
        if p.len() <= s.len() && s.take(p.len() as int) == p {
            assert(s.subrange(0, p.len() as int) =~= s.take(p.len() as int));
        }
        assert(s.drop_first() =~= x.drop_first() + y);
        assert forall|i: int| 0 <= i < x.drop_first().len() implies !at(x.drop_first() + y, i, p) by {
            assert(!at(s, i + 1, p));
            if i + p.len() <= (x.drop_first() + y).len() {
                assert((x.drop_first() + y).subrange(i, i + p.len()) =~= s.subrange(i + 1, i + 1 + p.len()));
            }
        }
        lemma_replace_through(x.drop_first(), y, p, w);
        assert(seq![s[0]] + (x.drop_first() + replace_all(y, p, w)) =~= x + replace_all(y, p, w));
    }
}

/// Where none of the first `k` placeholders is written in `x`, filling
/// `x + y` keeps `x`.
proof fn lemma_fill_through(x: Seq<char>, y: Seq<char>, vals: Seq<Seq<char>>, k: int)
    requires
        forall|i: int| 0 <= i < x.len() ==> !placeholder_at(x + y, i, k),
    ensures
        fill_first(x + y, vals, k) == x + fill_first(y, vals, k),
    decreases x.len(),
{
    if x.len() == 0 {
        assert(x + y =~= y);
    } else {
        let s = x + y;
        assert(!placeholder_at(s, 0, k));
        let t = x.drop_first() + y;
        assert(s.drop_first() =~= t);
        assert forall|i: int| 0 <= i < x.drop_first().len() implies !placeholder_at(t, i, k) by {
            assert(!placeholder_at(s, i + 1, k));
            assert forall|j: int| 0 <= j < 5 && at(t, i, placeholder(j)) implies at(s, i + 1, placeholder(j)) by {
                assert(t.subrange(i, i + placeholder(j).len()) =~= s.subrange(i + 1, i + 1 + placeholder(j).len()));
            }
            if placeholder_at(t, i, k) {
                if k > 0 && at(t, i, placeholder(0)) { assert(at(s, i + 1, placeholder(0))); }
                if k > 1 && at(t, i, placeholder(1)) { assert(at(s, i + 1, placeholder(1))); }
                if k > 2 && at(t, i, placeholder(2)) { assert(at(s, i + 1, placeholder(2))); }
                if k > 3 && at(t, i, placeholder(3)) { assert(at(s, i + 1, placeholder(3))); }
                if k > 4 && at(t, i, placeholder(4)) { assert(at(s, i + 1, placeholder(4))); }
            }
        }
        lemma_fill_through(x.drop_first(), y, vals, k);
        assert(seq![s[0]] + (x.drop_first() + fill_first(y, vals, k)) =~= x + fill_first(y, vals, k));
    }
}

proof fn lemma_none_at_front(x: Seq<char>)
    requires
        x.len() < 2 || x[0] != '{' || x[1] != '{',
    ensures
        forall|j: int| 0 <= j < 5 ==> !at(x, 0, #[trigger] placeholder(j)),
{
    assert forall|j: int| 0 <= j < 5 implies !at(x, 0, #[trigger] placeholder(j)) by {
        lemma_placeholder_shape(j);
        if at(x, 0, placeholder(j)) {
            lemma_at_char(x, 0, placeholder(j), 0);
            lemma_at_char(x, 0, placeholder(j), 1);
        }
    }
}

proof fn lemma_braces_suffix(s: Seq<char>, m: int)
    requires
        braces_ok(s),
        0 <= m <= s.len(),
    ensures
        braces_ok(s.skip(m)),
{
    let t = s.skip(m);
    assert forall|i: int|
        0 <= i && i + 1 < t.len() && #[trigger] t[i] == '{' && t[i + 1] == '{' implies placeholder_at(t, i, 5) || i + 2
            == t.len() || (t[i + 2] != '{' && !is_lower(t[i + 2])) by {
        assert(s[m + i] == '{' && s[m + i + 1] == '{');
        if placeholder_at(s, m + i, 5) {
            assert forall|j: int| 0 <= j < 5 && at(s, m + i, placeholder(j)) implies at(t, i, placeholder(j)) by {
                assert(t.subrange(i, i + placeholder(j).len()) =~= s.subrange(m + i, m + i + placeholder(j).len()));
            }
            if at(s, m + i, placeholder(0)) { assert(at(t, i, placeholder(0))); }
            if at(s, m + i, placeholder(1)) { assert(at(t, i, placeholder(1))); }
            if at(s, m + i, placeholder(2)) { assert(at(t, i, placeholder(2))); }
            if at(s, m + i, placeholder(3)) { assert(at(t, i, placeholder(3))); }
            if at(s, m + i, placeholder(4)) { assert(at(t, i, placeholder(4))); }
        }
    }
}

/// Values with no `{` in them.
pub open spec fn plain_values(vals: Seq<Seq<char>>) -> bool {
    &&& vals.len() == 5
    &&& forall|j: int, c: int| 0 <= j < 5 && 0 <= c < vals[j].len() ==> #[trigger] vals[j][c] != '{'
}

/// What the `k`th pass finds at the front of text it has not touched:
/// no placeholder starts at a character that starts none in the text.
proof fn lemma_no_match_at_front(s: Seq<char>, vals: Seq<Seq<char>>, k: int)
    requires
        braces_ok(s),
        s.len() > 0,
        !placeholder_at(s, 0, 5),
        0 <= k < 5,
    ensures
        !at(seq![s[0]] + fill_first(s.drop_first(), vals, k), 0, placeholder(k)),
{
    let s1 = s.drop_first();
    let cur = seq![s[0]] + fill_first(s1, vals, k);
    lemma_placeholder_shape(k);
    if at(cur, 0, placeholder(k)) {
        lemma_at_char(cur, 0, placeholder(k), 0);
        lemma_at_char(cur, 0, placeholder(k), 1);
        lemma_at_char(cur, 0, placeholder(k), 2);
        assert(s[0] == '{');
        assert(s1.len() > 0);
        lemma_none_at_front(s1);
        if s[1] != '{' {
            assert(s1[0] == s[1]);
            assert(fill_first(s1, vals, k) == seq![s1[0]] + fill_first(s1.drop_first(), vals, k));
            assert(cur[1] == s[1]);
        } else {
            assert(s[0int] == '{' && s[0int + 1] == '{');
            assert(placeholder_at(s, 0, 5) || 0int + 2 == s.len() || (s[0int + 2] != '{' && !is_lower(s[0int + 2])));
            let s2 = s1.drop_first();
            assert(fill_first(s1, vals, k) == seq![s1[0]] + fill_first(s2, vals, k));
            if s.len() == 2 {
                assert(s2.len() == 0);
                assert(cur.len() == 2);
            } else {
                assert(s2[0] == s[2]);
                lemma_none_at_front(s2);
                assert(fill_first(s2, vals, k) == seq![s2[0]] + fill_first(s2.drop_first(), vals, k));
                assert(cur[2] == s[2]);
            }
        }
    }
}

/// Values without `{` leave no `{{` behind.
proof fn lemma_value_matches_nothing(v: Seq<char>, y: Seq<char>, k: int)
    requires
        0 <= k < 5,
        forall|c: int| 0 <= c < v.len() ==> #[trigger] v[c] != '{',
    ensures
        forall|i: int| 0 <= i < v.len() ==> !at(v + y, i, placeholder(k)),
{
    lemma_placeholder_shape(k);
    assert forall|i: int| 0 <= i < v.len() implies !at(v + y, i, placeholder(k)) by {
        if at(v + y, i, placeholder(k)) {
            lemma_at_char(v + y, i, placeholder(k), 0);
            assert((v + y)[i] == v[i]);
        }
    }
}

/// A placeholder has nothing written inside it past its first character.
proof fn lemma_inside_placeholder(x: Seq<char>, j: int, m: int, i: int)
    requires
        0 <= j < 5,
        0 <= m < 5,
        at(x, 0, placeholder(j)),
        0 < i < placeholder(j).len(),
    ensures
        !at(x, i, placeholder(m)),
{
    lemma_placeholder_shape(j);
    lemma_placeholder_shape(m);
    if at(x, i, placeholder(m)) {
        lemma_at_char(x, i, placeholder(m), 0);
        lemma_at_char(x, i, placeholder(m), 1);
        if i == 1 {
            lemma_at_char(x, 0, placeholder(j), 2);
        } else {
            lemma_at_char(x, 0, placeholder(j), i);
        }
    }
}

/// The `k`th replacement, over text the passes before it have filled,
/// fills the `k`th placeholder too and nothing else.
#[verifier::rlimit(40)]
proof fn lemma_pass(s: Seq<char>, vals: Seq<Seq<char>>, k: int)
    requires
        braces_ok(s),
        plain_values(vals),
        0 <= k < 5,
    ensures
        replace_all(fill_first(s, vals, k), placeholder(k), vals[k]) == fill_first(s, vals, k + 1),
    decreases s.len(),
{
    let pk = placeholder(k);
    let vk = vals[k];
    lemma_placeholder_shape(k);
    if s.len() == 0 {
    } else if placeholder_at(s, 0, 5) {
        let j: int = if at(s, 0, placeholder(0)) {
            0
        } else if at(s, 0, placeholder(1)) {
            1
        } else if at(s, 0, placeholder(2)) {
            2
        } else if at(s, 0, placeholder(3)) {
            3
        } else {
            4
        };
        let pj = placeholder(j);
        lemma_placeholder_shape(j);
        assert forall|m: int| 0 <= m < 5 && m != j implies !at(s, 0, #[trigger] placeholder(m)) by {
            if at(s, 0, placeholder(m)) {
                lemma_at_one(s, 0, j, m);
            }
        }
        let rest = s.skip(pj.len() as int);
        assert(s =~= pj + rest);
        lemma_braces_suffix(s, pj.len() as int);
        lemma_pass(rest, vals, k);
        let f = fill_first(rest, vals, k);
        let g = fill_first(rest, vals, k + 1);
        assert forall|i: int, m: int| #![trigger at(s, i, placeholder(m))] 0 < i < pj.len() && 0 <= m < 5 implies !at(s, i, placeholder(m)) by {
            lemma_inside_placeholder(s, j, m, i);
        }
        if j < k {
            assert(fill_first(s, vals, k) == vals[j] + f);
            assert(fill_first(s, vals, k + 1) == vals[j] + g);
            lemma_value_matches_nothing(vals[j], f, k);
            lemma_replace_through(vals[j], f, pk, vk);
        } else {
            assert forall|i: int| #![trigger placeholder_at(pj + rest, i, k)] 0 <= i < pj.len() implies !placeholder_at(pj + rest, i, k) by {
                assert(pj + rest == s);
            }
            lemma_fill_through(pj, rest, vals, k);
            if j == k {
                assert(fill_first(s, vals, k + 1) == vals[k] + g);
                let x = pj + f;
                assert(pk.len() <= x.len() && x.take(pk.len() as int) =~= pk);
                assert(x.skip(pk.len() as int) =~= f);
            } else {
                assert forall|i: int| #![trigger placeholder_at(pj + rest, i, k + 1)] 0 <= i < pj.len() implies !placeholder_at(pj + rest, i, k + 1) by {
                    assert(pj + rest == s);
                }
                lemma_fill_through(pj, rest, vals, k + 1);
                assert forall|i: int| #![trigger at(pj + f, i, pk)] 0 <= i < pj.len() implies !at(pj + f, i, pk) by {
                    let x = pj + f;
                    assert(at(x, 0, pj)) by {
                        assert(x.subrange(0, pj.len() as int) =~= pj);
                    }
                    if i == 0 {
                        if at(x, 0, pk) {
                            lemma_at_one(x, 0, j, k);
                        }
                    } else {
                        lemma_inside_placeholder(x, j, k, i);
                    }
                }
                lemma_replace_through(pj, f, pk, vk);
            }
        }
    } else {
        let s1 = s.drop_first();
        assert(!at(s, 0, placeholder(0)) && !at(s, 0, placeholder(1)) && !at(s, 0, placeholder(2)) && !at(
            s,
            0,
            placeholder(3),
        ) && !at(s, 0, placeholder(4)));
        lemma_braces_suffix(s, 1);
        assert(s.skip(1) =~= s1);
        lemma_pass(s1, vals, k);
        let f = fill_first(s1, vals, k);
        assert(fill_first(s, vals, k) == seq![s[0]] + f);
        assert(fill_first(s, vals, k + 1) == seq![s[0]] + fill_first(s1, vals, k + 1));
        lemma_no_match_at_front(s, vals, k);
        lemma_replace_through(seq![s[0]], f, pk, vk);
    }
}

proof fn lemma_fill_none(s: Seq<char>, vals: Seq<Seq<char>>)
    ensures
        fill_first(s, vals, 0) == s,
    decreases s.len(),
{
    if s.len() > 0 {
        lemma_fill_none(s.drop_first(), vals);
        assert(seq![s[0]] + s.drop_first() =~= s);
    }
}

/// Rendering fills every placeholder and keeps everything else: when
/// every `{{` in a file's text starts one of the five placeholders, ends
/// the text or is followed by something no placeholder's name starts
/// with (`{{ hi }}`), and no value holds a `{`, the text comes out as
/// [`fill_first`] reads it in one pass: each `{{name}}`, `{{version}}`,
/// `{{registry}}`, `{{image}}` and `{{base}}` replaced by its value, all
/// else kept.
pub proof fn law_every_placeholder_is_filled(
    text: Seq<char>,
    name: Seq<char>,
    version: Seq<char>,
    registry: Seq<char>,
    image: Seq<char>,
    base: Seq<char>,
)
    requires
        braces_ok(text),
        plain_values(seq![name, version, registry, image, base]),
    ensures
        spec_substitute(text, name, version, registry, image, base) == fill_first(
            text,
            seq![name, version, registry, image, base],
            5,
        ),
{
    let vals = seq![name, version, registry, image, base];
    reveal_strlit("{{name}}");
    reveal_strlit("{{version}}");
    reveal_strlit("{{registry}}");
    reveal_strlit("{{image}}");
    reveal_strlit("{{base}}");
    assert("{{name}}"@ =~= placeholder(0));
    assert("{{version}}"@ =~= placeholder(1));
    assert("{{registry}}"@ =~= placeholder(2));
    assert("{{image}}"@ =~= placeholder(3));
    assert("{{base}}"@ =~= placeholder(4));
    lemma_fill_none(text, vals);
    lemma_pass(text, vals, 0);
    lemma_pass(text, vals, 1);
    lemma_pass(text, vals, 2);
    lemma_pass(text, vals, 3);
    lemma_pass(text, vals, 4);
}

/// The built-in template called `name`, by directory name.
pub fn find(templates: &Vec<Template>, name: &str) -> (r: Option<usize>)
    ensures
        r matches Some(i) ==> i < templates@.len() && templates@[i as int].name@ == name@ && forall|k: int| 0 <= k < i ==> templates@[k].name@ != name@,
        r is None ==> forall|k: int| 0 <= k < templates@.len() ==> templates@[k].name@ != name@,
{
    let mut i: usize = 0;
    while i < templates.len()
        invariant
            i <= templates@.len(),
            forall|k: int| 0 <= k < i ==> templates@[k].name@ != name@,
        decreases templates@.len() - i,
    {
        if same_text(templates[i].name.as_str(), name) {
            return Some(i);
        }
        i += 1;
    }
    None
}

/// The order `hluk templates` lists templates in: by tier (none
/// first), then by name, so the tier-1 runtimes lead.
pub open spec fn template_lt(x: Template, y: Template) -> bool {
    tier_lt(x.meta.tier, y.meta.tier) || (x.meta.tier == y.meta.tier && lex_lt(x.name@, y.name@))
}

/// `Option` order on tiers: none before any, then by number.
pub open spec fn tier_lt(a: Option<u8>, b: Option<u8>) -> bool {
    match (a, b) {
        (None, Some(_)) => true,
        (Some(p), Some(q)) => p < q,
        _ => false,
    }
}

/// Whether templates are in [`template_lt`] order.
pub open spec fn templates_sorted(ts: Seq<Template>) -> bool {
    forall|i: int, j: int| 0 <= i < j < ts.len() ==> !template_lt(#[trigger] ts[j], #[trigger] ts[i])
}

proof fn lemma_template_trans(x: Template, y: Template, z: Template)
    requires
        template_lt(x, y),
        template_lt(y, z),
    ensures
        template_lt(x, z),
{
    if x.meta.tier == y.meta.tier && y.meta.tier == z.meta.tier {
        lemma_lex_trans(x.name@, y.name@, z.name@);
    }
}

proof fn lemma_template_irrefl(x: Template)
    ensures
        !template_lt(x, x),
{
    lemma_lex_irrefl(x.name@);
}

fn template_before(x: &Template, y: &Template) -> (r: bool)
    ensures
        r == template_lt(*x, *y),
{
    let tl = match (x.meta.tier, y.meta.tier) {
        (None, Some(_)) => true,
        (Some(p), Some(q)) => p < q,
        _ => false,
    };
    if tl {
        return true;
    }
    if x.meta.tier != y.meta.tier {
        return false;
    }
    let a = chars_of(x.name.as_str());
    let b = chars_of(y.name.as_str());
    chars_lt(&a, &b)
}

/// Templates in the order `hluk templates` lists them (see
/// [`template_lt`]); templates that tie keep their order.
pub fn ordered(templates: Vec<Template>) -> (v: Vec<Template>)
    ensures
        templates_sorted(v@),
        v@.to_multiset() == templates@.to_multiset(),
{
    let mut out: Vec<Template> = Vec::new();
    let ghost src = templates@;
    let mut rest = templates;
    let ghost mut i: int = 0;
    while rest.len() > 0
        invariant
            0 <= i <= src.len(),
            rest@ == src.skip(i),
            templates_sorted(out@),
            out@.to_multiset() == src.take(i).to_multiset(),
        decreases rest@.len(),
    {
        let x = rest.remove(0);
        proof {
            assert(x == src[i]);
            assert(rest@ =~= src.skip(i + 1));
        }
        let mut p: usize = 0;
        while p < out.len() && !template_before(&x, &out[p])
            invariant
                p <= out@.len(),
                forall|k: int| 0 <= k < p ==> !template_lt(x, #[trigger] out@[k]),
            decreases out@.len() - p,
        {
            p += 1;
        }
        let ghost old_out = out@;
        out.insert(p, x);
        proof {
            assert forall|a: int, b: int| 0 <= a < b < out@.len() implies !template_lt(#[trigger] out@[b], #[trigger] out@[a]) by {
                if a < p && b == p {
                } else if a == p && b > p {
                    if template_lt(out@[b], x) {
                        if p < old_out.len() {
                            assert(template_lt(x, old_out[p as int]));
                            lemma_template_trans(out@[b], x, old_out[p as int]);
                            assert(old_out[b - 1] == out@[b]);
                            if b - 1 > p {
                                assert(!template_lt(old_out[b - 1], old_out[p as int]));
                            } else {
                                lemma_template_irrefl(old_out[p as int]);
                            }
                        }
                    }
                } else {
                    let a0 = if a < p { a } else { a - 1 };
                    let b0 = if b < p { b } else { b - 1 };
                    assert(out@[a] == old_out[a0]);
                    assert(out@[b] == old_out[b0]);
                }
            }
            assert(src.take(i + 1) =~= src.take(i).push(src[i]));
            i = i + 1;
        }
    }
    proof {
        assert(src.skip(i).len() == 0);
    }
    assert(src.take(i) =~= src);
    out
}

/// Where the template `--template` names comes from.
#[derive(Debug, Clone)]
pub enum Source {
    /// A GitHub repository (or a directory in one).
    GitHub(crate::github::GitHubSpec),
    /// The built-in template at this index.
    BuiltIn(usize),
    /// The directory of that name on disk.
    Dir,
}

/// Where `--template spec` comes from: GitHub when it names a repository
/// there, else the built-in template of that name (which wins over a
/// directory of the same name; `./NAME` reaches the directory), else the
/// directory when `is_dir` says there is one.
pub fn resolve_source(spec: &str, templates: &Vec<Template>, is_dir: bool) -> (r: Result<Source, String>)
    ensures
        match crate::github::spec_github(spec@) {
            Err(m) => r matches Err(e) && e@ == m,
            Ok(Some(p)) => r matches Ok(Source::GitHub(g)) && g.parts() == p,
            Ok(None) => if exists|k: int| 0 <= k < templates@.len() && templates@[k].name@ == spec@ {
                r matches Ok(Source::BuiltIn(i)) && i < templates@.len() && templates@[i as int].name@ == spec@
                    && forall|k: int| 0 <= k < i ==> templates@[k].name@ != spec@
            } else if is_dir {
                r matches Ok(Source::Dir)
            } else {
                r matches Err(e) && e@ == "no template "@ + crate::text::debug_quoted(spec@)
                    + ": not a built-in one (`hluk templates` lists them), a directory, or github.com/OWNER/REPO[/PATH][@REF]"@
            },
        },
{
    match crate::github::GitHubSpec::parse(spec) {
        Err(e) => {
            return Err(e);
        },
        Ok(Some(g)) => {
            return Ok(Source::GitHub(g));
        },
        Ok(None) => {},
    }
    match find(templates, spec) {
        Some(i) => {
            return Ok(Source::BuiltIn(i));
        },
        None => {},
    }
    if is_dir {
        return Ok(Source::Dir);
    }
    let mut m = "no template ".to_owned();
    let q = crate::text::quoted(spec);
    push_str(&mut m, q.as_str());
    push_str(&mut m, ": not a built-in one (`hluk templates` lists them), a directory, or github.com/OWNER/REPO[/PATH][@REF]");
    Err(m)
}

} // verus!
