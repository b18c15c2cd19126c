//! Warm snapshots: the stamp that says what one was taken from, the
//! cache slot it names, and what `hluk cache ls` and pruning read from it.

use vstd::prelude::*;

use crate::guest::{lines, lines_of, strip_cr, views};
use crate::registry::{hasher_finish, hasher_new, hasher_update, hex_string, hex_text, sha256, strip_prefix};
use crate::text::{
    bytes_of, chars_of, debug_quoted, decimal, lemma_decimal_digits, lemma_decimal_injective, push_char, push_chars, push_str, quoted, string_of,
};

verus! {

/// The file in a cached snapshot's directory holding the stamp it was
/// taken under.
pub const STAMP_FILE: &'static str = "stamp";

/// What a warm snapshot depends on, as the text that names its cache
/// slot and is stored in it: the build's snapshot key, the rootfs file
/// (path, size and modification time), the guest's memory and entry
/// point, and the code run before the snapshot.  Mounts, network policy
/// and environment are supplied on restore, so they are not in it.
pub open spec fn spec_stamp(
    key: Seq<char>,
    rootfs: Seq<char>,
    size: nat,
    mtime: nat,
    scratch_mb: nat,
    entry: Option<Seq<char>>,
    warm_exec: Option<Seq<char>>,
) -> Seq<char> {
    "key="@ + key + "\nrootfs="@ + rootfs + "\nsize="@ + decimal(size) + "\nmtime="@ + decimal(mtime)
        + "\nscratch_mb="@ + decimal(scratch_mb) + "\nentry="@ + or_empty(entry) + "\nwarm_exec="@
        + or_empty(warm_exec) + "\n"@
}

/// The text, or nothing.
pub open spec fn or_empty(s: Option<Seq<char>>) -> Seq<char> {
    match s {
        Some(t) => t,
        None => seq![],
    }
}

fn push_opt(s: &mut String, t: Option<&str>)
    ensures
        final(s)@ == old(s)@ + or_empty(match t {
            Some(x) => Some(x@),
            None => None,
        }),
{
    match t {
        Some(x) => push_str(s, x),
        None => {
            assert(old(s)@ + Seq::<char>::empty() =~= old(s)@);
        },
    }
}

/// The stamp of a snapshot (see [`spec_stamp`]); `mtime` in nanoseconds
/// since the epoch.
pub fn stamp(
    key: &str,
    rootfs: &str,
    size: u64,
    mtime: u128,
    scratch_mb: usize,
    entry: Option<&str>,
    warm_exec: Option<&str>,
) -> (r: String)
    ensures
        r@ == spec_stamp(
            key@,
            rootfs@,
            size as nat,
            mtime as nat,
            scratch_mb as nat,
            match entry {
                Some(x) => Some(x@),
                None => None,
            },
            match warm_exec {
                Some(x) => Some(x@),
                None => None,
            },
        ),
{
    let mut s = "key=".to_owned();
    push_str(&mut s, key);
    push_str(&mut s, "\nrootfs=");
    push_str(&mut s, rootfs);
    push_str(&mut s, "\nsize=");
    push_chars(&mut s, &crate::text::decimal_chars(size));
    push_str(&mut s, "\nmtime=");
    push_chars(&mut s, &crate::text::decimal_wide(mtime));
    push_str(&mut s, "\nscratch_mb=");
    push_chars(&mut s, &crate::text::decimal_wide(scratch_mb as u128));
    push_str(&mut s, "\nentry=");
    push_opt(&mut s, entry);
    push_str(&mut s, "\nwarm_exec=");
    push_opt(&mut s, warm_exec);
    push_str(&mut s, "\n");
    s
}

/// The value of `key` in one stamp line `key=value`.
pub open spec fn line_value(line: Seq<char>, key: Seq<char>) -> Option<Seq<char>> {
    match strip_prefix(line, key) {
        Some(rest) => strip_prefix(rest, "="@),
        None => None,
    }
}

/// The value of `key` in the first of `ls[i..]` that holds one.
pub open spec fn value_from(ls: Seq<Seq<char>>, key: Seq<char>, i: int) -> Option<Seq<char>>
    decreases ls.len() - i,
{
    if i < 0 || i >= ls.len() {
        None
    } else {
        match line_value(ls[i], key) {
            Some(v) => Some(v),
            None => value_from(ls, key, i + 1),
        }
    }
}

/// The value of `key` in a stamp: its first `key=value` line.
pub open spec fn stamp_value(stamp: Seq<char>, key: Seq<char>) -> Option<Seq<char>> {
    value_from(lines(stamp), key, 0)
}

/// One `key=value` line of a stamp (see [`stamp_value`]).
pub fn stamp_field(stamp: &str, key: &str) -> (r: Option<String>)
    ensures
        match stamp_value(stamp@, key@) {
            Some(v) => r matches Some(x) && x@ == v,
            None => r is None,
        },
{
    let v = chars_of(stamp);
    let ls = lines_of(&v);
    let ghost lv = views(ls@);
    let mut i: usize = 0;
    while i < ls.len()
        invariant
            i <= ls@.len(),
            lv == views(ls@),
            lv == lines(stamp@),
            value_from(lv, key@, 0) == value_from(lv, key@, i as int),
        decreases ls@.len() - i,
    {
        proof {
            assert(lv[i as int] == ls@[i as int]@);
        }
        match crate::registry::strip_prefix_of(&ls[i], key) {
            Some(rest) => match crate::registry::strip_prefix_of(&rest, "=") {
                Some(value) => {
                    return Some(string_of(&value));
                },
                None => {},
            },
            None => {},
        }
        i += 1;
    }
    None
}

/// What `hluk cache ls` says of one field: `key=value`, the value
/// quoted when it holds a space; nothing for a field that is empty or
/// missing.
pub open spec fn described_field(stamp: Seq<char>, key: Seq<char>) -> Option<Seq<char>> {
    match stamp_value(stamp, key) {
        Some(v) => if v.len() > 0 {
            Some(key + "="@ + if v.contains(' ') {
                debug_quoted(v)
            } else {
                v
            })
        } else {
            None
        },
        None => None,
    }
}

/// The pieces that are there, a space between each two.
pub open spec fn join_present(ps: Seq<Option<Seq<char>>>) -> Seq<char>
    decreases ps.len(),
{
    if ps.len() == 0 {
        seq![]
    } else {
        let rest = join_present(ps.drop_last());
        match ps.last() {
            Some(p) => if rest.len() == 0 {
                p
            } else {
                rest + seq![' '] + p
            },
            None => rest,
        }
    }
}

/// A cached warm snapshot.
#[derive(Debug, Clone)]
pub struct SnapshotEntry {
    /// Its directory.
    pub dir: String,
    /// The stamp it was taken under.
    pub stamp: String,
    /// What it takes on disk.
    pub bytes: u64,
}

fn describe_field(out: &mut String, empty: bool, stamp: &str, key: &str) -> (added: bool)
    requires
        empty == (old(out)@.len() == 0),
    ensures
        added == described_field(stamp@, key@) is Some,
        added ==> final(out)@.len() > 0,
        final(out)@ == match described_field(stamp@, key@) {
            Some(p) => if old(out)@.len() == 0 {
                p
            } else {
                old(out)@ + seq![' '] + p
            },
            None => old(out)@,
        },
{
    match stamp_field(stamp, key) {
        Some(value) => {
            let vc = chars_of(value.as_str());
            if vc.len() > 0 {
                let ghost o = out@;
                if !empty {
                    push_char(out, ' ');
                }
                let ghost o1 = out@;
                push_str(out, key);
                push_char(out, '=');
                let ghost vq = if value@.contains(' ') { debug_quoted(value@) } else { value@ };
                if crate::text::contains_char(&vc, ' ') {
                    let q = quoted(value.as_str());
                    push_str(out, q.as_str());
                } else {
                    push_str(out, value.as_str());
                }
                proof {
                    assert(out@ =~= o1 + (key@ + "="@ + vq)) by {
                        reveal_strlit("=");
                    }
                    if empty {
                        assert(o1 =~= Seq::<char>::empty());
                        assert(out@ =~= key@ + "="@ + vq);
                    } else {
                        assert(o1 =~= o + seq![' ']);
                    }
                }
                true
            } else {
                false
            }
        },
        None => false,
    }
}

impl SnapshotEntry {
    /// What the snapshot was taken from, for `hluk cache ls`: its rootfs,
    /// memory, entry point and warm-up code, those it has.
    pub fn describe(&self) -> (r: String)
        ensures
            r@ == join_present(seq![
                described_field(self.stamp@, "rootfs"@),
                described_field(self.stamp@, "scratch_mb"@),
                described_field(self.stamp@, "entry"@),
                described_field(self.stamp@, "warm_exec"@),
            ]),
    {
        let mut out = String::new();
        let ghost s = self.stamp@;
        let mut empty = true;
        if describe_field(&mut out, empty, self.stamp.as_str(), "rootfs") {
            empty = false;
        }
        if describe_field(&mut out, empty, self.stamp.as_str(), "scratch_mb") {
            empty = false;
        }
        if describe_field(&mut out, empty, self.stamp.as_str(), "entry") {
            empty = false;
        }
        describe_field(&mut out, empty, self.stamp.as_str(), "warm_exec");
        proof {
            reveal_with_fuel(join_present, 5);
            let ps = seq![
                described_field(s, "rootfs"@),
                described_field(s, "scratch_mb"@),
                described_field(s, "entry"@),
                described_field(s, "warm_exec"@),
            ];
            assert(ps.drop_last().drop_last().drop_last().drop_last() =~= Seq::<Option<Seq<char>>>::empty());
            assert(ps.drop_last().drop_last().drop_last() =~= seq![ps[0]]);
            assert(ps.drop_last().drop_last() =~= seq![ps[0], ps[1]]);
            assert(ps.drop_last() =~= seq![ps[0], ps[1], ps[2]]);
        }
        out
    }
}

/// Whether the snapshot stamped `other` was taken from an earlier version
/// of `stamp`'s rootfs file: the same path with another size or
/// modification time (it was rebuilt).  Snapshots of the same file under
/// other settings are other guests, and a stamp without a rootfs
/// supersedes nothing.
pub open spec fn spec_superseded(stamp: Seq<char>, other: Seq<char>) -> bool {
    &&& stamp_value(stamp, "rootfs"@) is Some
    &&& stamp_value(other, "rootfs"@) == stamp_value(stamp, "rootfs"@)
    &&& !(stamp_value(other, "size"@) == stamp_value(stamp, "size"@) && stamp_value(other, "mtime"@)
        == stamp_value(stamp, "mtime"@))
}

/// The four lines a stamp starts with.
spec fn head_lines(key: Seq<char>, rootfs: Seq<char>, size: nat, mtime: nat) -> Seq<Seq<char>> {
    seq!["key="@ + key, "rootfs="@ + rootfs, "size="@ + decimal(size), "mtime="@ + decimal(mtime)]
}

/// The four lines a stamp starts with hold no line break.
proof fn lemma_unbroken_fields(key: Seq<char>, rootfs: Seq<char>, size: nat, mtime: nat)
    requires
        !key.contains('\n'),
        !rootfs.contains('\n'),
    ensures
        forall|j: int| 0 <= j < 4 ==> !(#[trigger] head_lines(key, rootfs, size, mtime)[j]).contains('\n'),
{
    reveal_strlit("key=");
    reveal_strlit("rootfs=");
    reveal_strlit("size=");
    reveal_strlit("mtime=");
    lemma_decimal_digits(size);
    lemma_decimal_digits(mtime);
    let ms = head_lines(key, rootfs, size, mtime);
    assert forall|j: int| 0 <= j < 4 implies !(#[trigger] ms[j]).contains('\n') by {
        let x = ms[j];
        if x.contains('\n') {
            let i = choose|i: int| 0 <= i < x.len() && x[i] == '\n';
            if j == 0 {
                assert(i >= 4 ==> x[i] == key[i - 4]);
            } else if j == 1 {
                assert(i >= 7 ==> x[i] == rootfs[i - 7]);
            } else if j == 2 {
                assert(i >= 5 ==> x[i] == decimal(size)[i - 5]);
            } else {
                assert(i >= 6 ==> x[i] == decimal(mtime)[i - 6]);
            }
        }
    }
}

/// A stamp is its first four lines, then the rest.
proof fn lemma_stamp_split(
    key: Seq<char>,
    rootfs: Seq<char>,
    size: nat,
    mtime: nat,
    scratch_mb: nat,
    entry: Option<Seq<char>>,
    warm_exec: Option<Seq<char>>,
)
    ensures
        spec_stamp(key, rootfs, size, mtime, scratch_mb, entry, warm_exec) == ("key="@ + key + seq!['\n']
            + ("rootfs="@ + rootfs) + seq!['\n'] + ("size="@ + decimal(size)) + seq!['\n'] + ("mtime="@
            + decimal(mtime)) + seq!['\n']) + ("scratch_mb="@ + decimal(scratch_mb) + "\nentry="@
            + or_empty(entry) + "\nwarm_exec="@ + or_empty(warm_exec) + "\n"@),
{
    reveal_strlit("rootfs=");
    reveal_strlit("size=");
    reveal_strlit("mtime=");
    reveal_strlit("scratch_mb=");
    reveal_strlit("\nrootfs=");
    reveal_strlit("\nsize=");
    reveal_strlit("\nmtime=");
    reveal_strlit("\nscratch_mb=");
    let x0 = "key="@ + key;
    let h1 = x0 + seq!['\n'];
    let l1 = "rootfs="@ + rootfs;
    let s1 = x0 + "\nrootfs="@ + rootfs;
    assert(s1 =~= h1 + l1);
    let h2 = h1 + l1 + seq!['\n'];
    let l2 = "size="@ + decimal(size);
    let s2 = s1 + "\nsize="@ + decimal(size);
    assert(s2 =~= h2 + l2);
    let h3 = h2 + l2 + seq!['\n'];
    let l3 = "mtime="@ + decimal(mtime);
    let s3 = s2 + "\nmtime="@ + decimal(mtime);
    assert(s3 =~= h3 + l3);
    let h4 = h3 + l3 + seq!['\n'];
    let d = decimal(scratch_mb);
    let s4 = s3 + "\nscratch_mb="@ + d;
    assert(s4 =~= h4 + ("scratch_mb="@ + d));
    let e = "\nentry="@ + or_empty(entry) + "\nwarm_exec="@ + or_empty(warm_exec) + "\n"@;
    assert(s4 + "\nentry="@ + or_empty(entry) + "\nwarm_exec="@ + or_empty(warm_exec) + "\n"@ =~= s4 + e);
    assert(h4 + ("scratch_mb="@ + d) + e =~= h4 + ("scratch_mb="@ + d + e));
    assert(("scratch_mb="@ + d + e) =~= ("scratch_mb="@ + d + "\nentry="@ + or_empty(entry) + "\nwarm_exec="@
        + or_empty(warm_exec) + "\n"@));
}

/// The first four lines of a stamp, when its key and rootfs path are
/// single lines: the key, the path, the size and the mtime.
proof fn lemma_stamp_lines(
    key: Seq<char>,
    rootfs: Seq<char>,
    size: nat,
    mtime: nat,
    scratch_mb: nat,
    entry: Option<Seq<char>>,
    warm_exec: Option<Seq<char>>,
)
    requires
        !key.contains('\n'),
        !rootfs.contains('\n'),
    ensures
        lines(spec_stamp(key, rootfs, size, mtime, scratch_mb, entry, warm_exec)).len() >= 4,
        lines(spec_stamp(key, rootfs, size, mtime, scratch_mb, entry, warm_exec))[0] == strip_cr("key="@ + key),
        lines(spec_stamp(key, rootfs, size, mtime, scratch_mb, entry, warm_exec))[1] == strip_cr("rootfs="@ + rootfs),
        lines(spec_stamp(key, rootfs, size, mtime, scratch_mb, entry, warm_exec))[2] == "size="@ + decimal(size),
        lines(spec_stamp(key, rootfs, size, mtime, scratch_mb, entry, warm_exec))[3] == "mtime="@ + decimal(mtime),
{
    reveal_strlit("key=");
    reveal_strlit("rootfs=");
    reveal_strlit("size=");
    reveal_strlit("mtime=");
    lemma_decimal_digits(size);
    lemma_decimal_digits(mtime);
    let l0 = "key="@ + key;
    let l1 = "rootfs="@ + rootfs;
    let l2 = "size="@ + decimal(size);
    let l3 = "mtime="@ + decimal(mtime);
    let ms = head_lines(key, rootfs, size, mtime);
    assert(ms =~= seq![l0, l1, l2, l3]);
    lemma_unbroken_fields(key, rootfs, size, mtime);
    crate::project::lemma_lines_block(ms);
    let head = crate::project::line_block(ms);
    assert(ms.drop_last().drop_last().drop_last().drop_last() =~= Seq::<Seq<char>>::empty());
    assert(ms.drop_last().drop_last().drop_last() =~= seq![l0]);
    assert(ms.drop_last().drop_last() =~= seq![l0, l1]);
    assert(ms.drop_last() =~= seq![l0, l1, l2]);
    reveal_with_fuel(crate::project::line_block, 5);
    let h1 = l0 + seq!['\n'];
    let h2 = h1 + l1 + seq!['\n'];
    let h3 = h2 + l2 + seq!['\n'];
    assert(crate::project::line_block(seq![l0]) =~= h1);
    assert(crate::project::line_block(seq![l0, l1]) =~= h2);
    assert(crate::project::line_block(seq![l0, l1, l2]) =~= h3);
    assert(head =~= h3 + l3 + seq!['\n']);
    let rest = "scratch_mb="@ + decimal(scratch_mb) + "\nentry="@ + or_empty(entry) + "\nwarm_exec="@ + or_empty(warm_exec) + "\n"@;
    lemma_stamp_split(key, rootfs, size, mtime, scratch_mb, entry, warm_exec);
    crate::project::lemma_lines_append(head, rest, 0);
    let d2 = decimal(size);
    let d3 = decimal(mtime);
    assert(l2.last() == d2.last());
    assert(l3.last() == d3.last());
    assert(d2[d2.len() - 1] == d2.last());
    assert(d3[d3.len() - 1] == d3.last());
}

/// The values of a stamp's rootfs, size and mtime lines (see
/// [`lemma_stamp_lines`]).
proof fn lemma_stamp_values(
    key: Seq<char>,
    rootfs: Seq<char>,
    size: nat,
    mtime: nat,
    scratch_mb: nat,
    entry: Option<Seq<char>>,
    warm_exec: Option<Seq<char>>,
)
    requires
        !key.contains('\n'),
        !rootfs.contains('\n'),
    ensures
        stamp_value(spec_stamp(key, rootfs, size, mtime, scratch_mb, entry, warm_exec), "rootfs"@) == Some(
            strip_cr("rootfs="@ + rootfs).skip(7),
        ),
        stamp_value(spec_stamp(key, rootfs, size, mtime, scratch_mb, entry, warm_exec), "size"@) == Some(decimal(size)),
        stamp_value(spec_stamp(key, rootfs, size, mtime, scratch_mb, entry, warm_exec), "mtime"@) == Some(decimal(mtime)),
{
    lemma_stamp_lines(key, rootfs, size, mtime, scratch_mb, entry, warm_exec);
    reveal_strlit("key=");
    reveal_strlit("rootfs=");
    reveal_strlit("size=");
    reveal_strlit("mtime=");
    reveal_strlit("rootfs");
    reveal_strlit("size");
    reveal_strlit("mtime");
    reveal_strlit("=");
    let ls = lines(spec_stamp(key, rootfs, size, mtime, scratch_mb, entry, warm_exec));
    let l0 = ls[0];
    let l1 = ls[1];
    let l2 = ls[2];
    let l3 = ls[3];
    // The first letters tell the lines apart.
    assert(l0.len() >= 4 && l0[0] == 'k');
    assert(l1.len() >= 7 && l1[0] == 'r' && l1.subrange(0, 6) =~= "rootfs"@ && l1[6] == '=');
    assert(l2[0] == 's' && l2.subrange(0, 4) =~= "size"@ && l2[4] == '=');
    assert(l3[0] == 'm' && l3.subrange(0, 5) =~= "mtime"@ && l3[5] == '=');
    assert(l0.subrange(0, 6) != "rootfs"@ ==> line_value(l0, "rootfs"@) is None);
    assert(l0.len() >= 6 ==> l0.subrange(0, 6)[0] == 'k');
    assert(line_value(l0, "rootfs"@) is None);
    assert(l1.subrange(6, l1.len() as int).subrange(0, 1) =~= "="@);
    assert(line_value(l1, "rootfs"@) == Some(l1.subrange(6, l1.len() as int).subrange(1, l1.len() - 6)));
    assert(l1.subrange(6, l1.len() as int).subrange(1, l1.len() - 6) =~= strip_cr("rootfs="@ + rootfs).skip(7));
    assert(value_from(ls, "rootfs"@, 0) == value_from(ls, "rootfs"@, 1));
    assert(l0.len() >= 4 ==> l0.subrange(0, 4)[0] == 'k');
    assert(l1.subrange(0, 4)[0] == 'r');
    assert(line_value(l0, "size"@) is None);
    assert(line_value(l1, "size"@) is None);
    assert(l2.subrange(4, l2.len() as int).subrange(0, 1) =~= "="@);
    assert(l2.subrange(4, l2.len() as int).subrange(1, l2.len() - 4) =~= decimal(size));
    assert(value_from(ls, "size"@, 0) == value_from(ls, "size"@, 1));
    assert(value_from(ls, "size"@, 1) == value_from(ls, "size"@, 2));
    assert(l0.len() >= 5 ==> l0.subrange(0, 5)[0] == 'k');
    assert(l1.subrange(0, 5)[0] == 'r');
    assert(l2.subrange(0, 5)[0] == 's');
    assert(line_value(l0, "mtime"@) is None);
    assert(line_value(l1, "mtime"@) is None);
    assert(line_value(l2, "mtime"@) is None);
    assert(l3.subrange(5, l3.len() as int).subrange(0, 1) =~= "="@);
    assert(l3.subrange(5, l3.len() as int).subrange(1, l3.len() - 5) =~= decimal(mtime));
    assert(value_from(ls, "mtime"@, 0) == value_from(ls, "mtime"@, 1));
    assert(value_from(ls, "mtime"@, 1) == value_from(ls, "mtime"@, 2));
    assert(value_from(ls, "mtime"@, 2) == value_from(ls, "mtime"@, 3));
}

/// A snapshot is pruned for another of the same rootfs file exactly when
/// the file was rebuilt in between: other settings (memory, entry point,
/// warm code, build key) never make one snapshot supersede another, and
/// no snapshot supersedes itself.
pub proof fn law_only_a_rebuilt_rootfs_supersedes(
    key: Seq<char>,
    other_key: Seq<char>,
    rootfs: Seq<char>,
    size: nat,
    mtime: nat,
    other_size: nat,
    other_mtime: nat,
    scratch_mb: nat,
    other_scratch_mb: nat,
    entry: Option<Seq<char>>,
    other_entry: Option<Seq<char>>,
    warm_exec: Option<Seq<char>>,
    other_warm_exec: Option<Seq<char>>,
)
    requires
        !key.contains('\n'),
        !other_key.contains('\n'),
        !rootfs.contains('\n'),
    ensures
        spec_superseded(
            spec_stamp(key, rootfs, size, mtime, scratch_mb, entry, warm_exec),
            spec_stamp(other_key, rootfs, other_size, other_mtime, other_scratch_mb, other_entry, other_warm_exec),
        ) <==> !(size == other_size && mtime == other_mtime),
{
    lemma_stamp_values(key, rootfs, size, mtime, scratch_mb, entry, warm_exec);
    lemma_stamp_values(other_key, rootfs, other_size, other_mtime, other_scratch_mb, other_entry, other_warm_exec);
    if decimal(size) == decimal(other_size) {
        lemma_decimal_injective(size, other_size);
    }
    if decimal(mtime) == decimal(other_mtime) {
        lemma_decimal_injective(mtime, other_mtime);
    }
}

fn same_field(a: &Option<String>, b: &Option<String>) -> (r: bool)
    ensures
        r == (match a {
            Some(x) => Some(x@),
            None => None::<Seq<char>>,
        } == match b {
            Some(x) => Some(x@),
            None => None::<Seq<char>>,
        }),
{
    match (a, b) {
        (Some(x), Some(y)) => crate::text::same_text(x.as_str(), y.as_str()),
        (None, None) => true,
        _ => false,
    }
}

/// Whether pruning removes the snapshot stamped `other` once `stamp`'s
/// is taken (see [`spec_superseded`]).
pub fn superseded(stamp: &str, other: &str) -> (r: bool)
    ensures
        r == spec_superseded(stamp@, other@),
{
    let rootfs = stamp_field(stamp, "rootfs");
    if rootfs.is_none() {
        return false;
    }
    let same_path = same_field(&stamp_field(other, "rootfs"), &rootfs);
    let same_size = same_field(&stamp_field(other, "size"), &stamp_field(stamp, "size"));
    let same_mtime = same_field(&stamp_field(other, "mtime"), &stamp_field(stamp, "mtime"));
    same_path && !(same_size && same_mtime)
}

/// The name of the cache slot for a snapshot with this stamp: the first
/// eight bytes of the stamp's SHA-256, in hex.
pub fn slot_name(stamp: &str) -> (r: String)
    ensures
        r@ == hex_text(sha256(vstd::utf8::encode_utf8(stamp@)).take(8)),
{
    let owned = stamp.to_owned();
    let bytes = bytes_of(&owned);
    let mut h = hasher_new();
    hasher_update(&mut h, &bytes);
    let d = hasher_finish(h);
    let first = crate::text::bytes_between(&d, 0, 8);
    assert(first@ =~= d@.take(8));
    hex_string(&first)
}

/// What a snapshot depends on, as a tag suffix: `k`, the first eight
/// bytes of the kernel's SHA-256 in hex (the kernel's code and host-call
/// protocol are in a snapshot's memory), `-c` and the number of the host
/// contract (the host functions and their meaning, the layout, the MSRs).
pub fn snapshot_key(kernel: &[u8], contract: u32) -> (r: String)
    ensures
        r@ == seq!['k'] + hex_text(sha256(kernel@).take(8)) + "-c"@ + decimal(contract as nat),
        crate::guest::is_key(r@),
{
    let mut h = hasher_new();
    hasher_update(&mut h, kernel);
    let d = hasher_finish(h);
    let first = crate::text::bytes_between(&d, 0, 8);
    assert(first@ =~= d@.take(8));
    let mut key = String::new();
    push_char(&mut key, 'k');
    let hex = hex_string(&first);
    push_str(&mut key, hex.as_str());
    push_str(&mut key, "-c");
    push_chars(&mut key, &crate::text::decimal_chars(contract as u64));
    proof {
        crate::guest::law_snapshot_keys_are_keys(first@, contract as nat);
    }
    key
}

} // verus!
