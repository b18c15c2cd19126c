//! The host's side of a guest that is not the hypervisor's: the kernel
//! command line's mount table, the resolver file, the names snapshots are
//! saved under, what the guest's events add up to, and the replies to
//! its host calls.
use vstd::prelude::*;

use vstd::string::StringSliceAdditionalSpecFns;

use crate::text::{
    debug_quoted, quoted, chars_of, decimal, decimal_string, is_space, is_whitespace, push_char, push_chars, push_str,
};

verus! {

/// Why a sandbox operation failed, where the reason is the library's own.
#[derive(Debug, Clone, PartialEq, Eq)]
pub enum Error {
    /// The driver reported the call failed, with the status it gave.
    CallFailed { status: i32 },
    /// The guest process has exited with `status`.
    GuestExited { status: i32 },
    /// Every guest thread is blocked with no timer pending and no host
    /// socket that could wake it, while a call's return or the process's
    /// exit is still owed.
    Deadlocked,
    /// The guest has no driver to serve calls.
    NoDriver,
    /// A call is already in flight.
    CallInFlight,
    /// Nothing in the guest can exit: its driver waits for a call.
    NothingToJoin,
    /// The kernel refused the call: nothing is reading `/dev/hlcall`.
    CallRejected,
    /// The guest halted without reporting a boundary or an exit.
    GuestSilent,
    /// The snapshot in `dir` was saved by builds with other keys.
    SnapshotRelease { dir: String, saved_by: String, this: String },
    /// More mounts, or longer entries, than the kernel takes.
    MountTable { mounts: usize, bytes: usize },
    /// A guest mount path the kernel's fstab list would misparse.
    MountPath { guest_path: String },
    /// A snapshot carries its own kernel, initrd, entry and scratch size.
    SnapshotSettings,
    /// A host function name that cannot be one: empty, or with a line
    /// break.
    HostFunctionName { name: String },
    /// A call's result was not UTF-8 text.
    ResultNotText,
}

/// A host filesystem mount passed to the guest.
#[derive(Debug, Clone)]
pub struct Mount {
    /// Guest-visible mount point (e.g. `/mnt/data`).
    pub guest_path: String,
    /// Host directory to expose.
    pub host_path: String,
    /// Mount read-only: writes return `EROFS`.
    pub readonly: bool,
}

impl Mount {
    /// A read-write mount; host (source) first, guest (target) second, as
    /// Docker has it.
    pub fn rw(host_path: &str, guest_path: &str) -> (m: Mount)
        ensures
            m.host_path@ == host_path@,
            m.guest_path@ == guest_path@,
            !m.readonly,
    {
        Mount { guest_path: guest_path.to_owned(), host_path: host_path.to_owned(), readonly: false }
    }

    /// A read-only mount; host (source) first, guest (target) second.
    pub fn ro(host_path: &str, guest_path: &str) -> (m: Mount)
        ensures
            m.host_path@ == host_path@,
            m.guest_path@ == guest_path@,
            m.readonly,
    {
        Mount { guest_path: guest_path.to_owned(), host_path: host_path.to_owned(), readonly: true }
    }
}

/// Mounts the kernel takes: its resume-time reconcile keeps this many.
pub const MOUNTS_MAX: usize = 32;

/// Bytes of `vfs.fstab` entries the kernel takes: its cmdline buffer holds
/// 4 KiB, less the program name, the entry point and the parameter's own
/// syntax.
pub const FSTAB_ENTRIES_MAX: usize = 3584;

/// A character the unquoted fstab list would misread.
pub open spec fn unfit(c: char) -> bool {
    is_space(c) || c == ':' || c == '[' || c == ']'
}

/// A guest path the list can carry: absolute, with no unfit character.
pub open spec fn path_fits(p: Seq<char>) -> bool {
    p.len() > 0 && p[0] == '/' && forall|i: int| 0 <= i < p.len() ==> !unfit(#[trigger] p[i])
}

/// The fstab entry of mount `i`: `sdev:path:drv:flags:opts:ukopts`, the
/// source device the mount's index (hostfs routes host calls by it), the
/// flags `MNT_RDONLY` (0x1) or none, and `mkmp` to make the mount point.
pub open spec fn fstab_entry(i: nat, m: Mount) -> Seq<char> {
    decimal(i) + seq![':'] + m.guest_path@ + ":hostfs:"@ + (if m.readonly {
        "0x1"@
    } else {
        "0x0"@
    }) + "::mkmp"@
}

/// The entries of `ms`, separated by spaces.
pub open spec fn fstab_list(ms: Seq<Mount>) -> Seq<char>
    decreases ms.len(),
{
    if ms.len() == 0 {
        seq![]
    } else if ms.len() == 1 {
        fstab_entry(0, ms[0])
    } else {
        fstab_list(ms.drop_last()) + seq![' '] + fstab_entry((ms.len() - 1) as nat, ms.last())
    }
}

/// The first mount whose guest path does not fit, if any.
pub open spec fn first_unfit(ms: Seq<Mount>, from: int) -> Option<int>
    decreases ms.len() - from,
{
    if from < 0 || from >= ms.len() {
        None
    } else if !path_fits(ms[from].guest_path@) {
        Some(from)
    } else {
        first_unfit(ms, from + 1)
    }
}

/// Whether `p` fits the fstab list.
fn fits(p: &str) -> (r: bool)
    ensures
        r == path_fits(p@),
{
    let v = chars_of(p);
    if v.len() == 0 || v[0] != '/' {
        return false;
    }
    let mut i: usize = 0;
    while i < v.len()
        invariant
            i <= v@.len(),
            v@ == p@,
            forall|j: int| 0 <= j < i ==> !unfit(#[trigger] v@[j]),
        decreases v.len() - i,
    {
        let c = v[i];
        if is_whitespace(c) || c == ':' || c == '[' || c == ']' {
            assert(unfit(v@[i as int]));
            return false;
        }
        i += 1;
    }
    true
}

/// The guest's mount table for `mounts`, as `vfs.fstab` entries: one
/// hostfs entry per mount.  The list is unquoted, entries separated by
/// spaces and fields by colons, so a guest path holding either (or not
/// absolute) is refused, as is a table larger than the kernel takes.
pub fn fstab_entries(mounts: &[Mount]) -> (r: Result<String, Error>)
    ensures
        match fstab_entries_spec(mounts@) {
            Ok(list) => r matches Ok(s) && s@ == list,
            Err(e) => r == Err::<String, Error>(e),
        },
{
    let mut entries = String::new();
    let mut i: usize = 0;
    while i < mounts.len()
        invariant
            i <= mounts@.len(),
            entries@ == fstab_list(mounts@.take(i as int)),
            first_unfit(mounts@, 0) == first_unfit(mounts@, i as int),
        decreases mounts@.len() - i,
    {
        let m = &mounts[i];
        if !fits(m.guest_path.as_str()) {
            return Err(Error::MountPath { guest_path: m.guest_path.clone() });
        }
        if i > 0 {
            push_char(&mut entries, ' ');
        }
        let n = decimal_string(i as u64);
        push_str(&mut entries, n.as_str());
        push_char(&mut entries, ':');
        push_str(&mut entries, m.guest_path.as_str());
        push_str(&mut entries, ":hostfs:");
        if m.readonly {
            push_str(&mut entries, "0x1");
        } else {
            push_str(&mut entries, "0x0");
        }
        push_str(&mut entries, "::mkmp");
        proof {
            let ms = mounts@.take(i + 1);
            assert(ms.drop_last() =~= mounts@.take(i as int));
            assert(ms.last() == mounts@[i as int]);
            if i > 0 {
                assert(entries@ =~= fstab_list(mounts@.take(i as int)) + seq![' '] + fstab_entry(i as nat, mounts@[i as int]));
            } else {
                assert(mounts@.take(0) =~= Seq::<Mount>::empty());
                assert(entries@ =~= fstab_entry(0, mounts@[0]));
            }
        }
        i += 1;
    }
    proof {
        assert(mounts@.take(i as int) =~= mounts@);
    }
    let bytes = entries.as_str().as_bytes().len();
    if mounts.len() > MOUNTS_MAX || bytes > FSTAB_ENTRIES_MAX {
        return Err(Error::MountTable { mounts: mounts.len(), bytes });
    }
    Ok(entries)
}

/// The kernel's `vfs.fstab` parameter for `mounts`, ` vfs.fstab=[…]`, or
/// nothing for no mounts.
pub fn fstab_arg(mounts: &[Mount]) -> (r: Result<String, Error>)
    ensures
        match fstab_entries_spec(mounts@) {
            Ok(list) => r matches Ok(s) && s@ == (if list.len() == 0 {
                list
            } else {
                " vfs.fstab=["@ + list + seq![']']
            }),
            Err(e) => r == Err::<String, Error>(e),
        },
{
    let entries = match fstab_entries(mounts) {
        Ok(e) => e,
        Err(e) => {
            return Err(e);
        },
    };
    if entries.as_str().is_empty() {
        return Ok(entries);
    }
    let mut s = String::new();
    push_str(&mut s, " vfs.fstab=[");
    push_str(&mut s, entries.as_str());
    push_char(&mut s, ']');
    Ok(s)
}

/// What [`fstab_entries`] gives for `ms`, error payloads aside from the
/// message.
pub open spec fn fstab_entries_spec(ms: Seq<Mount>) -> Result<Seq<char>, Error> {
    match first_unfit(ms, 0) {
        Some(k) => Err(Error::MountPath { guest_path: ms[k].guest_path }),
        None => {
            let list = fstab_list(ms);
            if ms.len() > MOUNTS_MAX || vstd::utf8::encode_utf8(list).len() > FSTAB_ENTRIES_MAX {
                Err(Error::MountTable { mounts: ms.len() as usize, bytes: vstd::utf8::encode_utf8(list).len() as usize })
            } else {
                Ok(list)
            }
        },
    }
}

/// Whether `s` has `a` then `b` at `i`.
pub open spec fn pair_at(s: Seq<char>, i: int, a: char, b: char) -> bool {
    0 <= i && i + 1 < s.len() && s[i] == a && s[i + 1] == b
}

/// The last `i < end` where `s` has `a` then `b`.
pub open spec fn last_pair(s: Seq<char>, a: char, b: char, end: int) -> Option<int>
    decreases end,
{
    if end <= 0 {
        None
    } else if pair_at(s, end - 1, a, b) {
        Some(end - 1)
    } else {
        last_pair(s, a, b, end - 1)
    }
}

/// The first `i >= from` where `s` has `a` then `b`.
pub open spec fn first_pair(s: Seq<char>, a: char, b: char, from: int) -> Option<int>
    decreases s.len() - from,
{
    if from < 0 || from + 1 >= s.len() {
        None
    } else if pair_at(s, from, a, b) {
        Some(from)
    } else {
        first_pair(s, a, b, from + 1)
    }
}

pub open spec fn is_hex_char(c: char) -> bool {
    ('0' <= c && c <= '9') || ('a' <= c && c <= 'f') || ('A' <= c && c <= 'F')
}

pub open spec fn all_hex_chars(s: Seq<char>) -> bool {
    forall|i: int| 0 <= i < s.len() ==> is_hex_char(#[trigger] s[i])
}

pub open spec fn all_digit_chars(s: Seq<char>) -> bool {
    forall|i: int| 0 <= i < s.len() ==> '0' <= #[trigger] s[i] && s[i] <= '9'
}

/// A snapshot key: `k`, the kernel's 16 hex digits, `-c`, the contract
/// number.
pub open spec fn is_key(key: Seq<char>) -> bool {
    let body = key.drop_first();
    &&& key.len() > 0 && key[0] == 'k'
    &&& match first_pair(body, '-', 'c', 0) {
        Some(j) => j == 16 && all_hex_chars(body.take(j)) && body.skip(j + 2).len() > 0 && all_digit_chars(body.skip(j + 2)),
        None => false,
    }
}

/// The key of a snapshot tag `<release>-<key>`: what follows its last
/// `-k`, when that is a key; `None` for a tag of another shape.
pub open spec fn tag_key(t: Seq<char>) -> Option<Seq<char>> {
    match last_pair(t, '-', 'k', t.len() as int) {
        Some(at) => if is_key(t.subrange(at + 1, t.len() as int)) {
            Some(t.subrange(at + 1, t.len() as int))
        } else {
            None
        },
        None => None,
    }
}

/// Where `v` last has `a` then `b`.
fn last_pair_at(v: &[char], a: char, b: char) -> (r: Option<usize>)
    ensures
        r matches Some(i) ==> last_pair(v@, a, b, v@.len() as int) == Some(i as int) && i + 1 < v@.len(),
        r is None ==> last_pair(v@, a, b, v@.len() as int) is None,
{
    let mut end = v.len();
    while end > 0
        invariant
            end <= v@.len(),
            last_pair(v@, a, b, v@.len() as int) == last_pair(v@, a, b, end as int),
        decreases end,
    {
        let i = end - 1;
        if i + 1 < v.len() && v[i] == a && v[i + 1] == b {
            return Some(i);
        }
        end = i;
    }
    None
}

/// Where `v` first has `a` then `b`.
fn first_pair_at(v: &[char], a: char, b: char) -> (r: Option<usize>)
    ensures
        r matches Some(i) ==> first_pair(v@, a, b, 0) == Some(i as int) && i + 1 < v@.len(),
        r is None ==> first_pair(v@, a, b, 0) is None,
{
    let mut i: usize = 0;
    while v.len() > 1 && i < v.len() - 1
        invariant
            i <= v@.len(),
            first_pair(v@, a, b, 0) == first_pair(v@, a, b, i as int),
        decreases v@.len() - i,
    {
        if v[i] == a && v[i + 1] == b {
            return Some(i);
        }
        i += 1;
    }
    None
}

/// Whether `v` is a snapshot key.
fn key_shape(v: &[char]) -> (r: bool)
    ensures
        r == is_key(v@),
{
    if v.len() == 0 || v[0] != 'k' {
        return false;
    }
    let body = crate::text::slice_vec(v, 1, v.len());
    assert(body@ =~= v@.drop_first());
    let j = match first_pair_at(&body, '-', 'c') {
        Some(j) => j,
        None => {
            return false;
        },
    };
    if j != 16 {
        return false;
    }
    let mut i: usize = 0;
    while i < j
        invariant
            i <= j,
            j + 1 < body@.len(),
            j == 16,
            v@.len() > 0 && v@[0] == 'k',
            body@ == v@.drop_first(),
            first_pair(body@, '-', 'c', 0) == Some(j as int),
            forall|k: int| 0 <= k < i ==> is_hex_char(#[trigger] body@[k]),
        decreases j - i,
    {
        let c = body[i];
        if !(('0' <= c && c <= '9') || ('a' <= c && c <= 'f') || ('A' <= c && c <= 'F')) {
            assert(body@.take(j as int)[i as int] == c);
            return false;
        }
        i += 1;
    }
    assert(all_hex_chars(body@.take(j as int)));
    let start = j + 2;
    if start >= body.len() {
        return false;
    }
    let mut k = start;
    while k < body.len()
        invariant
            start <= k <= body@.len(),
            start == j + 2,
            j == 16,
            v@.len() > 0 && v@[0] == 'k',
            body@ == v@.drop_first(),
            first_pair(body@, '-', 'c', 0) == Some(j as int),
            all_hex_chars(body@.take(j as int)),
            forall|m: int| start <= m < k ==> '0' <= #[trigger] body@[m] && body@[m] <= '9',
        decreases body@.len() - k,
    {
        let c = body[k];
        if !('0' <= c && c <= '9') {
            assert(body@.skip(start as int)[k - start] == c);
            return false;
        }
        k += 1;
    }
    assert forall|m: int| 0 <= m < body@.skip(start as int).len() implies '0' <= #[trigger] body@.skip(start as int)[m] && body@.skip(start as int)[m] <= '9' by {
        assert(body@.skip(start as int)[m] == body@[start + m]);
    }
    true
}

/// The key of a snapshot tag `<release>-<key>`, or `None` for a tag of
/// another shape (a snapshot from before keys was tagged by release
/// alone).
pub fn snapshot_tag_key(tag: &str) -> (r: Option<String>)
    ensures
        crate::initrd::opt_text(r) == tag_key(tag@),
{
    let v = chars_of(tag);
    let at = match last_pair_at(&v, '-', 'k') {
        Some(at) => at,
        None => {
            return None;
        },
    };
    let key = crate::text::slice_vec(&v, at + 1, v.len());
    if key_shape(&key) {
        Some(crate::text::string_of(&key))
    } else {
        None
    }
}

/// A snapshot tag as a message names it, `<release> (<key>)`, or the tag
/// itself when it carries no key.
pub fn describe_snapshot_tag(tag: &str) -> (r: String)
    ensures
        r@ == match tag_key(tag@) {
            Some(key) => tag@.take(tag@.len() - key.len() - 1) + " ("@ + key + seq![')'],
            None => tag@,
        },
{
    match snapshot_tag_key(tag) {
        Some(key) => {
            let v = chars_of(tag);
            let kc = chars_of(key.as_str());
            proof {
                lemma_last_pair_range(tag@, '-', 'k', tag@.len() as int);
            }
            let release = crate::text::prefix(&v, v.len() - kc.len() - 1);
            let mut s = crate::text::string_of(&release);
            push_str(&mut s, " (");
            push_str(&mut s, key.as_str());
            push_char(&mut s, ')');
            s
        },
        None => tag.to_owned(),
    }
}

proof fn lemma_last_pair_range(s: Seq<char>, a: char, b: char, end: int)
    ensures
        last_pair(s, a, b, end) matches Some(i) ==> 0 <= i < end && pair_at(s, i, a, b),
    decreases end,
{
    if end > 0 && !pair_at(s, end - 1, a, b) {
        lemma_last_pair_range(s, a, b, end - 1);
    }
}

proof fn lemma_last_pair_is(s: Seq<char>, a: char, b: char, p: int, end: int)
    requires
        0 <= p < end <= s.len(),
        pair_at(s, p, a, b),
        forall|i: int| p < i < end ==> !#[trigger] pair_at(s, i, a, b),
    ensures
        last_pair(s, a, b, end) == Some(p),
    decreases end,
{
    if end - 1 > p {
        assert(!pair_at(s, end - 1, a, b));
        lemma_last_pair_is(s, a, b, p, end - 1);
    }
}

proof fn lemma_first_pair_range(s: Seq<char>, a: char, b: char, from: int)
    ensures
        first_pair(s, a, b, from) matches Some(i) ==> from <= i && pair_at(s, i, a, b),
    decreases s.len() - from,
{
    if !(from < 0 || from + 1 >= s.len()) && !pair_at(s, from, a, b) {
        lemma_first_pair_range(s, a, b, from + 1);
    }
}

/// A snapshot saved as `<release>-<key>` is found again by its key,
/// whatever the release: the key of the tag is the key it was saved with.
pub proof fn law_tag_key_reads_the_key(release: Seq<char>, key: Seq<char>)
    requires
        is_key(key),
    ensures
        tag_key(release + seq!['-'] + key) == Some(key),
{
    let t = release + seq!['-'] + key;
    let p = release.len() as int;
    let body = key.drop_first();
    lemma_first_pair_range(body, '-', 'c', 0);
    assert(pair_at(body, 16, '-', 'c'));
    assert(t[p] == '-');
    assert(t[p + 1] == key[0]);
    assert forall|i: int| p < i < t.len() implies !#[trigger] pair_at(t, i, '-', 'k') by {
        if pair_at(t, i, '-', 'k') {
            let k = i - p - 1;
            assert(t[i] == key[k]);
            assert(t[i + 1] == key[k + 1]);
            if k == 0 {
                assert(key[0] == 'k');
            } else if k <= 16 {
                assert(body.take(16)[k - 1] == key[k]);
                assert(is_hex_char(body.take(16)[k - 1]));
            } else if k == 17 {
                assert(key[18] == body[17]);
            } else {
                assert(body.skip(18)[k - 19] == key[k]);
            }
        }
    }
    lemma_last_pair_is(t, '-', 'k', p, t.len() as int);
    assert(t.subrange(p + 1, t.len() as int) =~= key);
}

proof fn lemma_hex_text_is_hex(bytes: Seq<u8>)
    ensures
        crate::registry::hex_text(bytes).len() == 2 * bytes.len(),
        all_hex_chars(crate::registry::hex_text(bytes)),
    decreases bytes.len(),
{
    if bytes.len() > 0 {
        lemma_hex_text_is_hex(bytes.drop_last());
        let h = crate::registry::hex_text(bytes);
        let front = crate::registry::hex_text(bytes.drop_last());
        let b = bytes.last();
        let hi = (b / 16) as nat;
        let lo = (b % 16) as nat;
        assert(hi < 16 && lo < 16);
        assert forall|d: nat| d < 16 implies is_hex_char(#[trigger] crate::registry::hex_lower(d)) by {
            if d < 10 {
                assert((48 + d) as u8 as char == ((48 + d) as u8) as char);
            }
        }
        assert(is_hex_char(crate::registry::hex_lower(hi)));
        assert(is_hex_char(crate::registry::hex_lower(lo)));
        assert forall|i: int| 0 <= i < h.len() implies is_hex_char(#[trigger] h[i]) by {
            if i < front.len() {
                assert(h[i] == front[i]);
            }
        }
    }
}

proof fn lemma_first_pair_is(s: Seq<char>, a: char, b: char, p: int, from: int)
    requires
        0 <= from <= p,
        p + 1 < s.len(),
        pair_at(s, p, a, b),
        forall|i: int| from <= i < p ==> !#[trigger] pair_at(s, i, a, b),
    ensures
        first_pair(s, a, b, from) == Some(p),
    decreases p - from,
{
    if from < p {
        lemma_first_pair_is(s, a, b, p, from + 1);
    }
}

/// The key a build writes for its snapshots, `k`, eight bytes of the
/// kernel's digest in hex, `-c` and the contract number, is a key: a tag
/// saved under it reads it back (see [`law_tag_key_reads_the_key`]).
pub proof fn law_snapshot_keys_are_keys(digest: Seq<u8>, contract: nat)
    requires
        digest.len() == 8,
    ensures
        is_key(seq!['k'] + crate::registry::hex_text(digest) + "-c"@ + crate::text::decimal(contract)),
{
    reveal_strlit("-c");
    let hex = crate::registry::hex_text(digest);
    let dec = crate::text::decimal(contract);
    let key = seq!['k'] + hex + "-c"@ + dec;
    lemma_hex_text_is_hex(digest);
    crate::text::lemma_decimal_digits(contract);
    let body = key.drop_first();
    assert(body =~= hex + "-c"@ + dec);
    assert(body[16] == '-' && body[17] == 'c');
    assert forall|i: int| 0 <= i < 16 implies !#[trigger] pair_at(body, i, '-', 'c') by {
        assert(body[i] == hex[i]);
        assert(is_hex_char(hex[i]));
    }
    lemma_first_pair_is(body, '-', 'c', 16, 0);
    assert(body.take(16) =~= hex);
    assert(body.skip(18) =~= dec);
}

/// A snapshot saved as `<release>-<key>` is what a build with that key
/// loads from the directory it was saved in, whatever else is there.
pub proof fn law_a_snapshot_is_loaded_by_the_build_that_saved_it(
    tags: Seq<String>,
    i: int,
    release: Seq<char>,
    key: Seq<char>,
)
    requires
        is_key(key),
        0 <= i < tags.len(),
        tags[i]@ == release + seq!['-'] + key,
    ensures
        first_keyed(tags, key, 0) is Some,
        tag_key(tags[first_keyed(tags, key, 0)->0]@) == Some(key),
{
    law_tag_key_reads_the_key(release, key);
    law_first_keyed_is_the_first_saved_under_the_key(tags, key);
}

/// How a message names a snapshot tag (see [`describe_snapshot_tag`]).
pub open spec fn tag_description(tag: Seq<char>) -> Seq<char> {
    match tag_key(tag) {
        Some(key) => tag.take(tag.len() - key.len() - 1) + " ("@ + key + seq![')'],
        None => tag,
    }
}

/// The first of `tags` from `from` on saved under `key`.
pub open spec fn first_keyed(tags: Seq<String>, key: Seq<char>, from: int) -> Option<int>
    decreases tags.len() - from,
{
    if from < 0 || from >= tags.len() {
        None
    } else if tag_key(tags[from]@) == Some(key) {
        Some(from)
    } else {
        first_keyed(tags, key, from + 1)
    }
}

/// The tag a snapshot is loaded from is one saved under the key asked
/// for, the first such; and none is found exactly when no tag was saved
/// under it.
pub proof fn law_first_keyed_is_the_first_saved_under_the_key(tags: Seq<String>, key: Seq<char>)
    ensures
        first_keyed(tags, key, 0) matches Some(i) ==> 0 <= i < tags.len() && tag_key(tags[i]@) == Some(key)
            && forall|j: int| 0 <= j < i ==> tag_key(#[trigger] tags[j]@) != Some(key),
        first_keyed(tags, key, 0) is None <==> forall|j: int| 0 <= j < tags.len() ==> tag_key(#[trigger] tags[j]@) != Some(key),
{
    lemma_first_keyed(tags, key, 0);
}

proof fn lemma_first_keyed(tags: Seq<String>, key: Seq<char>, from: int)
    requires
        0 <= from,
    ensures
        first_keyed(tags, key, from) matches Some(i) ==> from <= i < tags.len() && tag_key(tags[i]@) == Some(key)
            && forall|j: int| from <= j < i ==> tag_key(#[trigger] tags[j]@) != Some(key),
        first_keyed(tags, key, from) is None <==> forall|j: int| from <= j < tags.len() ==> tag_key(#[trigger] tags[j]@) != Some(key),
    decreases tags.len() - from,
{
    if from < tags.len() {
        lemma_first_keyed(tags, key, from + 1);
    }
}

/// The descriptions of the first `n` tags, joined by `, `.
pub open spec fn saved_by(tags: Seq<String>, n: int) -> Seq<char>
    decreases n,
{
    if n <= 0 {
        seq![]
    } else if n == 1 {
        tag_description(tags[0]@)
    } else {
        saved_by(tags, n - 1) + ", "@ + tag_description(tags[n - 1]@)
    }
}

/// Which of the tags in a snapshot directory to load: the first saved
/// under `key`, whichever release saved it.  With none, `Err` says which
/// releases did save there, for the message that asks for a new save.
pub fn choose_snapshot_tag(tags: &Vec<String>, key: &str) -> (r: Result<usize, String>)
    ensures
        r matches Ok(i) ==> i < tags@.len() && tag_key(tags@[i as int]@) == Some(key@) && forall|j: int|
            0 <= j < i ==> tag_key(#[trigger] tags@[j]@) != Some(key@),
        r is Err <==> forall|j: int| 0 <= j < tags@.len() ==> tag_key(#[trigger] tags@[j]@) != Some(key@),
        match first_keyed(tags@, key@, 0) {
            Some(i) => r == Ok::<usize, String>(i as usize),
            None => r matches Err(s) && s@ == (if tags@.len() == 0 {
                "an unknown release"@
            } else {
                saved_by(tags@, tags@.len() as int)
            }),
        },
{
    let mut i: usize = 0;
    while i < tags.len()
        invariant
            i <= tags@.len(),
            first_keyed(tags@, key@, 0) == first_keyed(tags@, key@, i as int),
        decreases tags@.len() - i,
    {
        let k = snapshot_tag_key(tags[i].as_str());
        match k {
            Some(kk) => {
                if crate::text::same_text(kk.as_str(), key) {
                    proof {
                        law_first_keyed_is_the_first_saved_under_the_key(tags@, key@);
                    }
                    return Ok(i);
                }
            },
            None => {},
        }
        i += 1;
    }
    proof {
        law_first_keyed_is_the_first_saved_under_the_key(tags@, key@);
    }
    if tags.len() == 0 {
        return Err("an unknown release".to_owned());
    }
    let mut s = String::new();
    let mut j: usize = 0;
    while j < tags.len()
        invariant
            j <= tags@.len(),
            s@ == saved_by(tags@, j as int),
        decreases tags@.len() - j,
    {
        if j > 0 {
            push_str(&mut s, ", ");
        }
        let d = describe_snapshot_tag(tags[j].as_str());
        push_str(&mut s, d.as_str());
        j += 1;
    }
    Err(s)
}

/// `l` without a `\r` at its end.
pub open spec fn strip_cr(l: Seq<char>) -> Seq<char> {
    if l.len() > 0 && l.last() == '\r' {
        l.drop_last()
    } else {
        l
    }
}

/// The lines of `s` from `pos` on, as `str::lines` cuts them: at each
/// `\n`, with a `\r` before it dropped; a last line needs no `\n`.
pub open spec fn lines_from(s: Seq<char>, pos: int) -> Seq<Seq<char>>
    decreases s.len() - pos,
{
    if pos < 0 || pos >= s.len() {
        seq![]
    } else {
        match crate::text::find_from(s, '\n', pos) {
            Some(i) => if i < pos || i >= s.len() {
                seq![]
            } else {
                seq![strip_cr(s.subrange(pos, i))] + lines_from(s, i + 1)
            },
            None => seq![s.subrange(pos, s.len() as int)],
        }
    }
}

pub open spec fn lines(s: Seq<char>) -> Seq<Seq<char>> {
    lines_from(s, 0)
}

/// The texts of `v`'s strings.
pub open spec fn views(v: Seq<Vec<char>>) -> Seq<Seq<char>> {
    Seq::new(v.len(), |i: int| v[i]@)
}

/// The lines of `v`.
pub(crate) fn lines_of(v: &[char]) -> (r: Vec<Vec<char>>)
    ensures
        views(r@) == lines(v@),
{
    let mut out: Vec<Vec<char>> = Vec::new();
    let mut pos: usize = 0;
    while pos < v.len()
        invariant
            pos <= v@.len(),
            views(out@) + lines_from(v@, pos as int) == lines(v@),
        decreases v@.len() - pos,
    {
        proof {
            crate::text::lemma_find_from(v@, '\n', pos as int);
        }
        let ghost before = out@;
        match crate::text::find_char_from(v, '\n', pos) {
            Some(i) => {
                let mut line = crate::text::slice_vec(v, pos, i);
                if line.len() > 0 && line[line.len() - 1] == '\r' {
                    line = crate::text::prefix(&line, line.len() - 1);
                    assert(line@ =~= v@.subrange(pos as int, i as int).drop_last());
                }
                out.push(line);
                proof {
                    assert(views(out@) =~= views(before).push(strip_cr(v@.subrange(pos as int, i as int))));
                    assert(views(out@) + lines_from(v@, i + 1) =~= views(before) + lines_from(v@, pos as int));
                }
                pos = i + 1;
            },
            None => {
                let line = crate::text::slice_vec(v, pos, v.len());
                out.push(line);
                proof {
                    assert(views(out@) =~= views(before).push(v@.subrange(pos as int, v@.len() as int)));
                    assert(lines_from(v@, v@.len() as int) =~= Seq::<Seq<char>>::empty());
                    assert(views(out@) + lines_from(v@, v@.len() as int) =~= views(before) + lines_from(v@, pos as int));
                }
                pos = v.len();
            },
        }
    }
    proof {
        assert(lines_from(v@, pos as int) =~= Seq::<Seq<char>>::empty());
        assert(views(out@) + lines_from(v@, pos as int) =~= views(out@));
    }
    out
}

/// Whether `w` stands in `l` at `p` as a whole token: white space, or the
/// line's edge, on both sides.
pub open spec fn token_at(l: Seq<char>, p: int, w: Seq<char>) -> bool {
    &&& 0 <= p && p + w.len() <= l.len()
    &&& l.subrange(p, p + w.len()) == w
    &&& (p == 0 || is_space(l[p - 1]))
    &&& (p + w.len() == l.len() || is_space(l[p + w.len()]))
}

/// A `resolv.conf` line that starts, past any white space, with `options`.
pub open spec fn is_options_line(l: Seq<char>) -> bool {
    let t = crate::text::trim_start_ws(l);
    "options"@.len() <= t.len() && t.subrange(0, "options"@.len() as int) == "options"@
}

/// An options line carrying `single-request` itself: as a token, so
/// `single-request-reopen` does not count, and not in a comment.
pub open spec fn has_single_request(l: Seq<char>) -> bool {
    is_options_line(l) && exists|p: int| token_at(l, p, "single-request"@)
}

fn options_line(l: &[char]) -> (r: bool)
    ensures
        r == is_options_line(l@),
{
    let a = crate::text::trim_start_at(l);
    let t = crate::text::slice_vec(l, a, l.len());
    let o = chars_of("options");
    crate::text::starts_with(&t, &o)
}

/// Whether `w` stands in `l` at `p` as a whole token.
fn token_here(l: &[char], p: usize, w: &[char]) -> (r: bool)
    requires
        p + w@.len() <= l.len(),
    ensures
        r == token_at(l@, p as int, w@),
{
    let mut k: usize = 0;
    while k < w.len()
        invariant
            k <= w@.len(),
            p + w@.len() <= l.len(),
            forall|j: int| 0 <= j < k ==> l@[p + j] == w@[j],
        decreases w@.len() - k,
    {
        if l[p + k] != w[k] {
            assert(l@.subrange(p as int, p + w@.len())[k as int] != w@[k as int]);
            return false;
        }
        k += 1;
    }
    assert(l@.subrange(p as int, p + w@.len()) =~= w@);
    let before = p == 0 || is_whitespace(l[p - 1]);
    let end = p + w.len();
    let after = end == l.len() || is_whitespace(l[end]);
    before && after
}

/// Whether the line `l` is an options line carrying `single-request`.
fn single_request_in(l: &[char]) -> (r: bool)
    ensures
        r == has_single_request(l@),
{
    if !options_line(l) {
        return false;
    }
    let w = chars_of("single-request");
    proof {
        reveal_strlit("single-request");
    }
    if w.len() > l.len() {
        assert forall|p: int| !token_at(l@, p, "single-request"@) by {}
        return false;
    }
    let last = l.len() - w.len();
    let mut p: usize = 0;
    while p <= last
        invariant
            last == l@.len() - w@.len(),
            w@ == "single-request"@,
            w@.len() == 14,
            p <= last + 1,
            last < usize::MAX,
            is_options_line(l@),
            forall|q: int| 0 <= q < p ==> !#[trigger] token_at(l@, q, w@),
        decreases last + 1 - p,
    {
        if token_here(l, p, &w) {
            assert(token_at(l@, p as int, "single-request"@));
            return true;
        }
        p += 1;
    }
    assert forall|q: int| !#[trigger] token_at(l@, q, w@) by {
        if 0 <= q && q < p {
        }
    }
    false
}

/// Whether a `resolv.conf` line is an options line carrying the
/// `single-request` option as a token of its own.
pub fn options_line_has_single_request(line: &str) -> (r: bool)
    ensures
        r == has_single_request(line@),
{
    let l = chars_of(line);
    single_request_in(&l)
}

/// The first options line from `from` on.
pub open spec fn first_options(ls: Seq<Seq<char>>, from: int) -> Option<int>
    decreases ls.len() - from,
{
    if from < 0 || from >= ls.len() {
        None
    } else if is_options_line(ls[from]) {
        Some(from)
    } else {
        first_options(ls, from + 1)
    }
}

pub open spec fn any_single_request(ls: Seq<Seq<char>>) -> bool {
    exists|i: int| 0 <= i < ls.len() && has_single_request(#[trigger] ls[i])
}

/// The lines with `single-request` among their options: as they are when
/// some options line has it (or there are no lines), else on the first
/// options line, else on a line of its own at the end.
pub open spec fn with_option(ls: Seq<Seq<char>>) -> Seq<Seq<char>> {
    if ls.len() == 0 || any_single_request(ls) {
        ls
    } else {
        match first_options(ls, 0) {
            Some(k) => ls.update(k, ls[k] + " single-request"@),
            None => ls.push("options single-request"@),
        }
    }
}

/// `content` with `options single-request` in it (see [`with_option`]),
/// line by line, each line ended by `\n`; empty content stays empty.
pub open spec fn spec_with_single_request(content: Seq<char>) -> Seq<char> {
    let j = crate::text::join(with_option(lines(content)), seq!['\n']);
    if j.len() == 0 {
        j
    } else {
        j.push('\n')
    }
}

/// `content` with `options single-request` in it: on its own options line
/// if it has one, else on a new line.  Empty content stays empty (the
/// rootfs's file stands).  glibc's parallel A and AAAA queries do not work
/// through the guest's socket layer, and the option makes them sequential.
pub fn with_single_request(content: &str) -> (r: String)
    ensures
        r@ == spec_with_single_request(content@),
{
    let v = chars_of(content);
    let mut ls = lines_of(&v);
    let ghost orig = views(ls@);
    if ls.len() > 0 {
        let mut any = false;
        let mut i: usize = 0;
        while i < ls.len()
            invariant
                i <= ls@.len(),
                views(ls@) == orig,
                any <==> exists|j: int| 0 <= j < i && has_single_request(#[trigger] orig[j]),
            decreases ls@.len() - i,
        {
            if single_request_in(ls[i].as_slice()) {
                assert(has_single_request(orig[i as int]));
                any = true;
            }
            i += 1;
        }
        if !any {
            assert(!any_single_request(orig));
            let mut k: usize = 0;
            let mut found = false;
            while k < ls.len() && !found
                invariant
                    k <= ls@.len(),
                    views(ls@) == orig,
                    found ==> k >= 1 && first_options(orig, 0) == Some(k - 1),
                    !found ==> first_options(orig, 0) == first_options(orig, k as int),
                decreases ls@.len() - k,
            {
                if options_line(ls[k].as_slice()) {
                    found = true;
                }
                k += 1;
            }
            if found {
                let at = k - 1;
                let mut line = crate::text::slice_vec(ls[at].as_slice(), 0, ls[at].len());
                let extra = chars_of(" single-request");
                let mut e: usize = 0;
                let ghost base = line@;
                while e < extra.len()
                    invariant
                        e <= extra@.len(),
                        line@ == base + extra@.subrange(0, e as int),
                    decreases extra@.len() - e,
                {
                    line.push(extra[e]);
                    e += 1;
                    assert(line@ =~= base + extra@.subrange(0, e as int));
                }
                assert(extra@.subrange(0, e as int) =~= extra@);
                assert(base =~= orig[at as int]);
                ls.set(at, line);
                assert(views(ls@) =~= orig.update(at as int, orig[at as int] + " single-request"@));
            } else {
                ls.push(chars_of("options single-request"));
                assert(views(ls@) =~= orig.push("options single-request"@));
            }
        }
    }
    assert(views(ls@) == with_option(orig));
    let mut s = String::new();
    let mut i: usize = 0;
    while i < ls.len()
        invariant
            i <= ls@.len(),
            s@ == crate::text::join(views(ls@).take(i as int), seq!['\n']),
        decreases ls@.len() - i,
    {
        if i > 0 {
            push_char(&mut s, '\n');
        }
        push_chars(&mut s, ls[i].as_slice());
        proof {
            let t = views(ls@).take(i + 1);
            assert(t.drop_last() =~= views(ls@).take(i as int));
            if i == 0 {
                assert(s@ =~= t[0]);
            }
        }
        i += 1;
    }
    assert(views(ls@).take(i as int) =~= views(ls@));
    if !s.as_str().is_empty() {
        push_char(&mut s, '\n');
    }
    s
}

proof fn lemma_trim_start_append(a: Seq<char>, b: Seq<char>)
    requires
        crate::text::trim_start_ws(a).len() > 0,
    ensures
        crate::text::trim_start_ws(a + b) == crate::text::trim_start_ws(a) + b,
    decreases a.len(),
{
    if a.len() > 0 && is_space(a[0]) {
        assert((a + b).drop_first() =~= a.drop_first() + b);
        lemma_trim_start_append(a.drop_first(), b);
    } else {
        assert(a.len() > 0);
    }
}

/// Whatever a non-empty resolver file holds, what the guest gets has an
/// options line carrying `single-request`.
pub proof fn law_single_request_is_always_set(ls: Seq<Seq<char>>)
    requires
        ls.len() > 0,
    ensures
        any_single_request(with_option(ls)),
{
    reveal_strlit(" single-request");
    reveal_strlit("single-request");
    reveal_strlit("options single-request");
    reveal_strlit("options");
    if !any_single_request(ls) {
        lemma_first_options_range(ls, 0);
        match first_options(ls, 0) {
            Some(k) => {
                let l = ls[k];
                let l2 = l + " single-request"@;
                let out = with_option(ls);
                assert(out[k] == l2);
                lemma_trim_start_append(l, " single-request"@);
                let t = crate::text::trim_start_ws(l);
                assert(crate::text::trim_start_ws(l2).subrange(0, 7) =~= t.subrange(0, 7));
                assert(is_options_line(l2));
                let p: int = l.len() as int + 1;
                assert(l2.subrange(p, p + 14) =~= "single-request"@);
                assert(l2[p - 1] == ' ');
                assert(token_at(l2, p, "single-request"@));
                assert(has_single_request(out[k]));
            },
            None => {
                let out = with_option(ls);
                let l2 = "options single-request"@;
                assert(out[ls.len() as int] == l2);
                assert(crate::text::trim_start_ws(l2) == l2);
                assert(l2.subrange(0, 7) =~= "options"@);
                assert(l2.subrange(8, 22) =~= "single-request"@);
                assert(token_at(l2, 8, "single-request"@));
                assert(has_single_request(out[ls.len() as int]));
            },
        }
    }
}

proof fn lemma_first_options_range(ls: Seq<Seq<char>>, from: int)
    ensures
        first_options(ls, from) matches Some(k) ==> from <= k < ls.len() && is_options_line(ls[k]),
    decreases ls.len() - from,
{
    if from >= 0 && from < ls.len() && !is_options_line(ls[from]) {
        lemma_first_options_range(ls, from + 1);
    }
}

#[verifier::external_type_specification]
#[verifier::external_body]
pub struct ExInstant(std::time::Instant);

/// Why a step handed control back.  The guest runs its scheduler until
/// every thread is blocked, then yields the vCPU with a report; guest
/// memory persists across the boundary.
#[derive(Debug, Clone, Copy, PartialEq, Eq)]
pub enum Yield {
    /// The guest process ended with its exit status; every later step
    /// reports this.
    Exited { status: i32 },
    /// The call submitted has returned.
    CallDone,
    /// The call returned but the driver reported it failed, with `status`
    /// as the driver put it.
    CallFailed { status: i32 },
    /// Every guest thread is blocked; `until` is the guest's next timer,
    /// or `None` when only I/O on one of its host sockets can wake it.
    Blocked { until: Option<std::time::Instant> },
}

/// What the driver's report that a call finished means: status `0` is
/// done, any other status a failure carrying it.
pub fn call_outcome(status: i32) -> (y: Yield)
    ensures
        status == 0 ==> y == Yield::CallDone,
        status != 0 ==> y == (Yield::CallFailed { status }),
{
    if status == 0 {
        Yield::CallDone
    } else {
        Yield::CallFailed { status }
    }
}

/// One thing the guest said through its event host functions during an
/// entry.
#[derive(Debug, Clone, Copy)]
pub enum Event {
    /// A way the entry could end, as the guest put it.
    Outcome(Yield),
    /// `/dev/hlcall` was opened: named calls are served.
    DriverReady,
    /// The driver took a named call.
    CallStarted,
    /// A named call had no reader, or did not fit: it never ran.
    CallRejected,
}

/// The host's standing picture of the guest, folded from its events.
#[derive(Debug, Clone, Copy)]
pub struct Guest {
    /// Named calls are served.
    pub has_driver: bool,
    /// Between `CallStarted` and `CallDone`.
    pub call_in_flight: bool,
    /// Its next timer, from its last `Yield`.
    pub next_wakeup_at: Option<std::time::Instant>,
}

impl Guest {
    /// Nothing heard yet.
    pub fn new() -> (g: Guest)
        ensures
            g == (Guest { has_driver: false, call_in_flight: false, next_wakeup_at: None }),
    {
        Guest { has_driver: false, call_in_flight: false, next_wakeup_at: None }
    }
}

/// The picture after one more event.
pub open spec fn heard(g: Guest, e: Event) -> Guest {
    match e {
        Event::Outcome(Yield::Blocked { until }) => Guest { next_wakeup_at: until, ..g },
        Event::Outcome(Yield::CallDone) => Guest { call_in_flight: false, ..g },
        Event::Outcome(Yield::CallFailed { .. }) => Guest { call_in_flight: false, ..g },
        Event::Outcome(Yield::Exited { .. }) => g,
        Event::DriverReady => Guest { has_driver: true, ..g },
        Event::CallStarted => Guest { call_in_flight: true, ..g },
        Event::CallRejected => g,
    }
}

/// The picture after the events, in order.
pub open spec fn heard_all(g: Guest, es: Seq<Event>) -> Guest
    decreases es.len(),
{
    if es.len() == 0 {
        g
    } else {
        heard(heard_all(g, es.drop_last()), es.last())
    }
}

/// The last terminal event: an exit, or a call's return.
pub open spec fn last_terminal(es: Seq<Event>) -> Option<Yield>
    decreases es.len(),
{
    if es.len() == 0 {
        None
    } else {
        match es.last() {
            Event::Outcome(Yield::Blocked { .. }) => last_terminal(es.drop_last()),
            Event::Outcome(y) => Some(y),
            _ => last_terminal(es.drop_last()),
        }
    }
}

/// The last boundary the guest reported.
pub open spec fn last_boundary(es: Seq<Event>) -> Option<Yield>
    decreases es.len(),
{
    if es.len() == 0 {
        None
    } else {
        match es.last() {
            Event::Outcome(Yield::Blocked { until }) => Some(Yield::Blocked { until }),
            _ => last_boundary(es.drop_last()),
        }
    }
}

pub open spec fn any_rejected(es: Seq<Event>) -> bool {
    exists|i: int| 0 <= i < es.len() && #[trigger] es[i] is CallRejected
}

pub open spec fn any_failed(es: Seq<Event>) -> bool {
    exists|i: int| 0 <= i < es.len() && (#[trigger] es[i] matches Event::Outcome(Yield::CallFailed { .. }))
}

/// What an entry amounts to: an error if a call was rejected; else its
/// terminal event (the call returned, the process ended); else its
/// boundary; else an error, since every kernel of this platform reports
/// one or the other.
pub open spec fn entry_outcome(es: Seq<Event>) -> Result<Yield, Error> {
    if any_rejected(es) {
        Err(Error::CallRejected)
    } else {
        match last_terminal(es) {
            Some(t) => Ok(t),
            None => match last_boundary(es) {
                Some(b) => Ok(b),
                None => Err(Error::GuestSilent),
            },
        }
    }
}

/// Fold the events of the entry that just halted into the picture of the
/// guest, and reduce them to what the entry amounts to.  The flag says
/// whether a call failed, whose result, should a driver send one, is not
/// the call's.
pub fn absorb(guest: &mut Guest, events: &Vec<Event>) -> (r: (Result<Yield, Error>, bool))
    ensures
        *final(guest) == heard_all(Guest { next_wakeup_at: None, ..*old(guest) }, events@),
        r.0 == entry_outcome(events@),
        r.1 == any_failed(events@),
{
    guest.next_wakeup_at = None;
    let ghost start = *guest;
    let mut terminal: Option<Yield> = None;
    let mut boundary: Option<Yield> = None;
    let mut rejected = false;
    let mut failed = false;
    let mut i: usize = 0;
    while i < events.len()
        invariant
            i <= events@.len(),
            *guest == heard_all(start, events@.take(i as int)),
            terminal == last_terminal(events@.take(i as int)),
            boundary == last_boundary(events@.take(i as int)),
            rejected == any_rejected(events@.take(i as int)),
            failed == any_failed(events@.take(i as int)),
        decreases events@.len() - i,
    {
        let ghost es = events@.take(i + 1);
        proof {
            assert(es.drop_last() =~= events@.take(i as int));
            assert(es.last() == events@[i as int]);
        }
        match events[i] {
            Event::Outcome(Yield::Blocked { until }) => {
                guest.next_wakeup_at = until;
                boundary = Some(Yield::Blocked { until });
            },
            Event::Outcome(Yield::Exited { status }) => {
                terminal = Some(Yield::Exited { status });
            },
            Event::Outcome(Yield::CallDone) => {
                guest.call_in_flight = false;
                terminal = Some(Yield::CallDone);
            },
            Event::Outcome(Yield::CallFailed { status }) => {
                guest.call_in_flight = false;
                failed = true;
                terminal = Some(Yield::CallFailed { status });
            },
            Event::DriverReady => {
                guest.has_driver = true;
            },
            Event::CallStarted => {
                guest.call_in_flight = true;
            },
            Event::CallRejected => {
                rejected = true;
            },
        }
        proof {
            lemma_event_step(events@, i as int);
        }
        i += 1;
    }
    proof {
        assert(events@.take(i as int) =~= events@);
    }
    let outcome = if rejected {
        Err(Error::CallRejected)
    } else {
        match terminal {
            Some(t) => Ok(t),
            None => match boundary {
                Some(b) => Ok(b),
                None => Err(Error::GuestSilent),
            },
        }
    };
    (outcome, failed)
}

proof fn lemma_event_step(es: Seq<Event>, i: int)
    requires
        0 <= i < es.len(),
    ensures
        any_rejected(es.take(i + 1)) == (any_rejected(es.take(i)) || es[i] is CallRejected),
        any_failed(es.take(i + 1)) == (any_failed(es.take(i)) || (es[i] matches Event::Outcome(
            Yield::CallFailed { .. },
        ))),
{
    let a = es.take(i);
    let b = es.take(i + 1);
    assert forall|j: int| 0 <= j < a.len() implies #[trigger] a[j] == b[j] by {}
    assert(b[i] == es[i]);
    if any_rejected(b) {
        let j = choose|j: int| 0 <= j < b.len() && #[trigger] b[j] is CallRejected;
        if j < i {
            assert(a[j] == b[j]);
        }
    }
    if any_rejected(a) {
        let j = choose|j: int| 0 <= j < a.len() && #[trigger] a[j] is CallRejected;
        assert(a[j] == b[j]);
    }
    if any_failed(b) {
        let j = choose|j: int| 0 <= j < b.len() && (#[trigger] b[j] matches Event::Outcome(Yield::CallFailed { .. }));
        if j < i {
            assert(a[j] == b[j]);
        }
    }
    if any_failed(a) {
        let j = choose|j: int| 0 <= j < a.len() && (#[trigger] a[j] matches Event::Outcome(Yield::CallFailed { .. }));
        assert(a[j] == b[j]);
    }
}

/// Where a sandbox stands between steps: the exit the guest process ended
/// with, once it has, and a terminal outcome produced while delivering a
/// call, waiting for the next step to hand it out.
#[derive(Debug, Clone, Copy)]
pub struct Session {
    pub exited: Option<Yield>,
    pub pending: Option<Yield>,
}

/// What a step does before it waits for the guest.
#[derive(Debug, Clone, Copy)]
pub enum StepStart {
    /// Hand this out without entering the VM.
    Report(Yield),
    /// Wait until the guest may be runnable, then enter it.
    Wait,
}

impl Session {
    /// A sandbox just booted: `exited` when the guest process ran to its
    /// end during the boot.
    pub fn new(exited: Option<Yield>) -> (s: Session)
        ensures
            s.exited == exited,
            s.pending is None,
    {
        Session { exited, pending: None }
    }

    /// Remember an exit; everything else needs no bookkeeping.
    pub fn note(&mut self, yielded: Yield) -> (r: Yield)
        ensures
            r == yielded,
            final(self).pending == old(self).pending,
            final(self).exited == (if yielded is Exited {
                Some(yielded)
            } else {
                old(self).exited
            }),
    {
        if let Yield::Exited { .. } = yielded {
            self.exited = Some(yielded);
        }
        yielded
    }

    /// Take in what an entry that delivered a call, or announced a
    /// restore, amounted to: a terminal outcome is kept for the next step.
    pub fn delivered(&mut self, yielded: Yield)
        ensures
            final(self).exited == (if yielded is Exited {
                Some(yielded)
            } else {
                old(self).exited
            }),
            final(self).pending == (if yielded is Blocked {
                old(self).pending
            } else {
                Some(yielded)
            }),
    {
        let y = self.note(yielded);
        match y {
            Yield::Blocked { .. } => {},
            terminal => {
                self.pending = Some(terminal);
            },
        }
    }

    /// Whether a call can be handed over: not after the guest exited, not
    /// without a driver, not while one is in flight (the kernel serves one
    /// at a time).  A finished call's outcome still waiting for a step is
    /// not the new call's, and is dropped.
    pub fn submit(&mut self, has_driver: bool, call_in_flight: bool) -> (r: Result<(), Error>)
        ensures
            match old(self).exited {
                Some(Yield::Exited { status }) => r == Err::<(), Error>(Error::GuestExited { status }),
                _ => if !has_driver {
                    r == Err::<(), Error>(Error::NoDriver)
                } else if call_in_flight {
                    r == Err::<(), Error>(Error::CallInFlight)
                } else {
                    r is Ok
                },
            },
            final(self).exited == old(self).exited,
            r is Ok ==> final(self).pending == (match old(self).pending {
                Some(Yield::CallDone) => None,
                Some(Yield::CallFailed { .. }) => None,
                p => p,
            }),
            r is Err ==> final(self).pending == old(self).pending,
    {
        if let Some(Yield::Exited { status }) = self.exited {
            return Err(Error::GuestExited { status });
        }
        if !has_driver {
            return Err(Error::NoDriver);
        }
        if call_in_flight {
            return Err(Error::CallInFlight);
        }
        match self.pending {
            Some(Yield::CallDone) | Some(Yield::CallFailed { .. }) => {
                self.pending = None;
            },
            _ => {},
        }
        Ok(())
    }

    /// The start of a step: a pending outcome first, then a standing
    /// exit; a guest nothing can wake while something is owed that only
    /// it can produce (a call's return, or an entry point's exit) is
    /// deadlocked; otherwise wait and enter.
    pub fn step_start(&mut self, can_wake: bool, call_in_flight: bool, has_driver: bool) -> (r: Result<StepStart, Error>)
        ensures
            final(self).exited == old(self).exited,
            match old(self).pending {
                Some(y) => r matches Ok(StepStart::Report(z)) && z == y && final(self).pending is None,
                None => final(self).pending is None && match old(self).exited {
                    Some(e) => r matches Ok(StepStart::Report(z)) && z == e,
                    None => if !can_wake && (call_in_flight || !has_driver) {
                        r == Err::<StepStart, Error>(Error::Deadlocked)
                    } else {
                        r matches Ok(StepStart::Wait)
                    },
                },
            },
    {
        if let Some(y) = self.pending {
            self.pending = None;
            return Ok(StepStart::Report(y));
        }
        if let Some(e) = self.exited {
            return Ok(StepStart::Report(e));
        }
        if !can_wake && (call_in_flight || !has_driver) {
            return Err(Error::Deadlocked);
        }
        Ok(StepStart::Wait)
    }

    /// A snapshot needs a guest that has not exited.
    pub fn snapshot_allowed(&self) -> (r: Result<(), Error>)
        ensures
            match self.exited {
                Some(Yield::Exited { status }) => r == Err::<(), Error>(Error::GuestExited { status }),
                _ => r is Ok,
            },
    {
        if let Some(Yield::Exited { status }) = self.exited {
            return Err(Error::GuestExited { status });
        }
        Ok(())
    }

    /// A restored guest starts over: no exit, nothing pending.
    pub fn restored(&mut self)
        ensures
            final(self).exited is None,
            final(self).pending is None,
    {
        self.exited = None;
        self.pending = None;
    }
}

/// What a `run` makes of a step: done, failed, or keep stepping.
pub fn run_progress(yielded: Yield) -> (r: Option<Result<(), Error>>)
    ensures
        match yielded {
            Yield::CallDone => r == Some(Ok::<(), Error>(())),
            Yield::CallFailed { status } => r == Some(Err::<(), Error>(Error::CallFailed { status })),
            Yield::Exited { status } => r == Some(Err::<(), Error>(Error::GuestExited { status })),
            Yield::Blocked { .. } => r is None,
        },
{
    match yielded {
        Yield::CallDone => Some(Ok(())),
        Yield::CallFailed { status } => Some(Err(Error::CallFailed { status })),
        Yield::Exited { status } => Some(Err(Error::GuestExited { status })),
        Yield::Blocked { .. } => None,
    }
}

/// Whether a `join` can ever return: not on a driver image with no call
/// in flight, which waits for calls and never exits on its own.
pub fn join_allowed(exited: bool, has_driver: bool, call_in_flight: bool) -> (r: Result<(), Error>)
    ensures
        r is Err <==> (!exited && has_driver && !call_in_flight),
        r is Err ==> r == Err::<(), Error>(Error::NothingToJoin),
{
    if !exited && has_driver && !call_in_flight {
        return Err(Error::NothingToJoin);
    }
    Ok(())
}

/// What a `join` makes of a step: the exit status, nothing more to join
/// once a driver's call finished, or keep stepping.
pub fn join_progress(yielded: Yield, has_driver: bool) -> (r: Option<Result<i32, Error>>)
    ensures
        match yielded {
            Yield::Exited { status } => r == Some(Ok::<i32, Error>(status)),
            Yield::CallDone | Yield::CallFailed { .. } => if has_driver {
                r == Some(Err::<i32, Error>(Error::NothingToJoin))
            } else {
                r is None
            },
            Yield::Blocked { .. } => r is None,
        },
{
    match yielded {
        Yield::Exited { status } => Some(Ok(status)),
        Yield::CallDone | Yield::CallFailed { .. } => if has_driver {
            Some(Err(Error::NothingToJoin))
        } else {
            None
        },
        Yield::Blocked { .. } => None,
    }
}

/// Largest payload of one host call, in either direction.
pub const HOST_CALL_MAX: usize = 65536;

/// The tag byte of a host call reply: its result follows.
pub const HOST_CALL_OK: u8 = 0;

/// The tag byte of a host call reply: an error message follows.
pub const HOST_CALL_ERR: u8 = 1;

/// The first 128 characters of a name, as an error quotes it: the name
/// is the guest's, and a long one must not push the reply past what the
/// guest can take.
pub open spec fn shown(name: Seq<char>) -> Seq<char> {
    if name.len() <= 128 {
        name
    } else {
        name.take(128)
    }
}

fn shown_name(name: &str) -> (r: String)
    ensures
        r@ == shown(name@),
{
    let v = chars_of(name);
    if v.len() <= 128 {
        crate::text::string_of(&v)
    } else {
        let p = crate::text::prefix(&v, 128);
        crate::text::string_of(&p)
    }
}

/// What a host call asks for, once its name is looked up.
#[derive(Debug, Clone)]
pub enum HostCall {
    /// The empty name: the registered names, one per line.
    List(String),
    /// Call the function with this argument text.
    Invoke(String),
    /// It cannot be served; the message says why.
    Refuse(String),
}

/// How the host call `name` with `args` is served, given whether a
/// function of that name is registered and the names that are, in order.
/// The empty name, which no function can have, lists them: how a driver
/// learns what to offer.
pub fn host_call_lookup(name: &str, registered: bool, names: &Vec<String>, args: &[u8]) -> (r: HostCall)
    ensures
        name@.len() == 0 ==> (r matches HostCall::List(t) && t@ == crate::text::join(views_of(names@), seq!['\n'])),
        name@.len() > 0 && registered && vstd::utf8::valid_utf8(args@) ==> (r matches HostCall::Invoke(t)
            && vstd::utf8::encode_utf8(t@) == args@),
        name@.len() > 0 && registered && !vstd::utf8::valid_utf8(args@) ==> (r matches HostCall::Refuse(m)
            && m@ == shown(name@) + ": the arguments are not UTF-8 text"@),
        name@.len() > 0 && !registered ==> (r matches HostCall::Refuse(m) && m@ == "no host function "@
            + debug_quoted(shown(name@))),
{
    if name.is_empty() {
        let mut t = String::new();
        let mut i: usize = 0;
        while i < names.len()
            invariant
                i <= names@.len(),
                t@ == crate::text::join(views_of(names@).take(i as int), seq!['\n']),
            decreases names@.len() - i,
        {
            if i > 0 {
                push_char(&mut t, '\n');
            }
            push_str(&mut t, names[i].as_str());
            proof {
                let w = views_of(names@).take(i + 1);
                assert(w.drop_last() =~= views_of(names@).take(i as int));
                if i == 0 {
                    assert(t@ =~= w[0]);
                }
            }
            i += 1;
        }
        assert(views_of(names@).take(i as int) =~= views_of(names@));
        return HostCall::List(t);
    }
    if !registered {
        let s = shown_name(name);
        let q = quoted(s.as_str());
        let mut m = String::new();
        push_str(&mut m, "no host function ");
        push_str(&mut m, q.as_str());
        return HostCall::Refuse(m);
    }
    match crate::text::utf8_text(args) {
        Some(t) => HostCall::Invoke(t),
        None => {
            let mut m = shown_name(name);
            push_str(&mut m, ": the arguments are not UTF-8 text");
            HostCall::Refuse(m)
        },
    }
}

/// The texts of strings.
pub open spec fn views_of(v: Seq<String>) -> Seq<Seq<char>> {
    Seq::new(v.len(), |i: int| v[i]@)
}

/// What a host call's reply carries: its tag and text, or, for a text
/// the guest's buffer cannot take, an error saying so.
pub open spec fn reply_parts(name: Seq<char>, reply: Result<Seq<char>, Seq<char>>) -> (u8, Seq<u8>) {
    let (tag, text) = match reply {
        Ok(t) => (HOST_CALL_OK, t),
        Err(m) => (HOST_CALL_ERR, m),
    };
    let bytes = vstd::utf8::encode_utf8(text);
    if bytes.len() + 1 > HOST_CALL_MAX {
        (HOST_CALL_ERR, vstd::utf8::encode_utf8(shown(name) + ": a "@ + decimal(bytes.len()) + "-byte result exceeds the 65536-byte host call limit"@))
    } else {
        (tag, bytes)
    }
}

/// Encode a host call's reply: a tag byte, then the result or the error
/// message.  A reply the guest's buffer cannot take would arrive cut
/// short; it becomes an error the guest can report instead.
pub fn host_call_reply(name: &str, reply: Result<String, String>) -> (out: Vec<u8>)
    ensures
        out@ == seq![reply_parts(name@, match reply {
            Ok(t) => Ok(t@),
            Err(m) => Err(m@),
        }).0] + reply_parts(name@, match reply {
            Ok(t) => Ok(t@),
            Err(m) => Err(m@),
        }).1,
{
    let (tag, text) = match reply {
        Ok(t) => (HOST_CALL_OK, t),
        Err(m) => (HOST_CALL_ERR, m),
    };
    let n = text.as_str().as_bytes().len();
    let (tag, text) = if n >= HOST_CALL_MAX {
        let mut m = shown_name(name);
        push_str(&mut m, ": a ");
        let d = decimal_string(n as u64);
        push_str(&mut m, d.as_str());
        push_str(&mut m, "-byte result exceeds the 65536-byte host call limit");
        (HOST_CALL_ERR, m)
    } else {
        (tag, text)
    };
    let mut out: Vec<u8> = Vec::new();
    out.push(tag);
    crate::cpio::append_bytes(&mut out, text.as_str().as_bytes());
    out
}

/// Whether names can name host functions: the first that cannot (empty,
/// since the empty name asks for the list, or holding a line break, since
/// the list has one name per line) is refused.
pub fn check_host_function_names(names: &Vec<String>) -> (r: Result<(), Error>)
    ensures
        match first_bad_name(views_of(names@), 0) {
            Some(i) => r == Err::<(), Error>(Error::HostFunctionName { name: names@[i] }),
            None => r is Ok,
        },
{
    let mut i: usize = 0;
    while i < names.len()
        invariant
            i <= names@.len(),
            first_bad_name(views_of(names@), 0) == first_bad_name(views_of(names@), i as int),
        decreases names@.len() - i,
    {
        let v = chars_of(names[i].as_str());
        let bad = v.len() == 0 || crate::text::contains_char(&v, '\n') || crate::text::contains_char(&v, '\r');
        if bad {
            return Err(Error::HostFunctionName { name: names[i].clone() });
        }
        i += 1;
    }
    Ok(())
}

pub open spec fn bad_name(n: Seq<char>) -> bool {
    n.len() == 0 || n.contains('\n') || n.contains('\r')
}

pub open spec fn first_bad_name(ns: Seq<Seq<char>>, from: int) -> Option<int>
    decreases ns.len() - from,
{
    if from < 0 || from >= ns.len() {
        None
    } else if bad_name(ns[from]) {
        Some(from)
    } else {
        first_bad_name(ns, from + 1)
    }
}

/// The kernel command line: the program name, the mount table, and the
/// entry point.  Unikraft's parameter parser needs `--` between kernel
/// parameters and the program's arguments, and only when there are
/// kernel parameters before it.
pub fn kernel_cmdline(mounts: &[Mount], entry: &Option<String>) -> (r: Result<String, Error>)
    ensures
        match fstab_entries_spec(mounts@) {
            Err(e) => r == Err::<String, Error>(e),
            Ok(list) => r matches Ok(s) && s@ == "unikraft-hyperlight"@ + (if list.len() == 0 {
                list
            } else {
                " vfs.fstab=["@ + list + seq![']']
            }) + match entry {
                Some(e) => if mounts@.len() > 0 {
                    " -- "@ + e@
                } else {
                    seq![' '] + e@
                },
                None => seq![],
            },
        },
{
    let mut s = String::new();
    push_str(&mut s, "unikraft-hyperlight");
    let arg = match fstab_arg(mounts) {
        Ok(a) => a,
        Err(e) => {
            return Err(e);
        },
    };
    push_str(&mut s, arg.as_str());
    match entry {
        Some(e) => {
            if mounts.len() > 0 {
                push_str(&mut s, " -- ");
            } else {
                push_char(&mut s, ' ');
            }
            push_str(&mut s, e.as_str());
        },
        None => {},
    }
    Ok(s)
}

/// What to execute in the guest.
#[derive(Debug, Clone)]
pub enum Exec {
    /// Inline code, passed to the guest's dispatch callback.
    Code(String),
    /// A script file on the host, read and passed as code.
    File(String),
    /// A command that lives in the guest filesystem, a path plus optional
    /// arguments; empty runs the image's conventional entrypoint.
    Guest(String),
    /// Call the function `function` the guest has defined, with `input`.
    Call { function: String, input: String },
}

impl Exec {
    /// The guest function a dispatch enters: `Exec` for code (a script
    /// is code once read), `GuestExec` for a guest command, so the driver
    /// runs the named file rather than treating it as code, `Call` for a
    /// call.
    pub fn entry_name(&self) -> (r: &'static str)
        ensures
            r@ == match self {
                Exec::Code(_) | Exec::File(_) => "Exec"@,
                Exec::Guest(_) => "GuestExec"@,
                Exec::Call { .. } => "Call"@,
            },
    {
        match self {
            Exec::Code(_) | Exec::File(_) => "Exec",
            Exec::Guest(_) => "GuestExec",
            Exec::Call { .. } => "Call",
        }
    }
}

impl From<String> for Exec {
    fn from(code: String) -> (r: Exec) {
        Exec::Code(code)
    }
}

impl vstd::std_specs::convert::FromSpecImpl<String> for Exec {
    open spec fn obeys_from_spec() -> bool {
        true
    }

    open spec fn from_spec(code: String) -> Exec {
        Exec::Code(code)
    }
}

impl<'a> From<&'a str> for Exec {
    fn from(code: &'a str) -> (r: Exec) {
        Exec::Code(code.to_owned())
    }
}

impl<'a> vstd::std_specs::convert::FromSpecImpl<&'a str> for Exec {
    open spec fn obeys_from_spec() -> bool {
        false
    }

    open spec fn from_spec(code: &'a str) -> Exec {
        Exec::Code(vstd::pervasive::arbitrary())
    }
}

/// `KEY=VALUE` pairs, each ended by a NUL: how the guest reads its
/// environment.
pub open spec fn env_block(vars: Seq<(&str, &str)>) -> Seq<char>
    decreases vars.len(),
{
    if vars.len() == 0 {
        seq![]
    } else {
        env_block(vars.drop_last()) + vars.last().0@ + seq!['='] + vars.last().1@ + seq!['\0']
    }
}

/// The runtime parameters of a guest's host functions, and what they
/// share: its output, environment, resolver file, what its events add up
/// to, and the result of its last call.
pub struct GuestConfig {
    cmdline: String,
    scratch_size: usize,
    initrd_base: u64,
    initrd_size: u64,
    mounts: Vec<Mount>,
    network: Option<crate::net_policy::NetworkPolicy>,
    listen_ports: Option<crate::net_policy::ListenPorts>,
    output: String,
    env_str: String,
    resolv_conf: String,
    guest: Guest,
    result: Option<Vec<u8>>,
}

impl GuestConfig {
    pub closed spec fn spec_cmdline(&self) -> Seq<char> {
        self.cmdline@
    }

    pub closed spec fn spec_scratch_size(&self) -> usize {
        self.scratch_size
    }

    pub closed spec fn spec_initrd(&self) -> (u64, u64) {
        (self.initrd_base, self.initrd_size)
    }

    pub closed spec fn spec_mounts(&self) -> Seq<Mount> {
        self.mounts@
    }

    pub closed spec fn spec_output(&self) -> Seq<char> {
        self.output@
    }

    pub closed spec fn spec_env(&self) -> Seq<char> {
        self.env_str@
    }

    pub closed spec fn spec_resolv_conf(&self) -> Seq<char> {
        self.resolv_conf@
    }

    pub closed spec fn spec_guest(&self) -> Guest {
        self.guest
    }

    /// What the config was made with: the command line, the memory, the
    /// initrd, the mounts and the network settings.
    pub closed spec fn spec_setup(&self) -> (Seq<char>, usize, (u64, u64), Seq<Mount>) {
        (self.cmdline@, self.scratch_size, (self.initrd_base, self.initrd_size), self.mounts@)
    }

    pub closed spec fn spec_network(&self) -> (Option<crate::net_policy::NetworkPolicy>, Option<crate::net_policy::ListenPorts>) {
        (self.network, self.listen_ports)
    }

    pub closed spec fn spec_result(&self) -> Option<Seq<u8>> {
        match self.result {
            Some(v) => Some(v@),
            None => None,
        }
    }

    /// A config with nothing heard from the guest yet.
    pub fn new(
        cmdline: String,
        scratch_size: usize,
        initrd_base: u64,
        initrd_size: u64,
        mounts: Vec<Mount>,
        network: Option<crate::net_policy::NetworkPolicy>,
        listen_ports: Option<crate::net_policy::ListenPorts>,
    ) -> (c: GuestConfig)
        ensures
            c.spec_cmdline() == cmdline@,
            c.spec_scratch_size() == scratch_size,
            c.spec_initrd() == (initrd_base, initrd_size),
            c.spec_mounts() == mounts@,
            c.spec_network() == (network, listen_ports),
            c.spec_setup() == (cmdline@, scratch_size, (initrd_base, initrd_size), mounts@),
            c.spec_output().len() == 0,
            c.spec_env().len() == 0,
            c.spec_resolv_conf().len() == 0,
            c.spec_guest() == (Guest { has_driver: false, call_in_flight: false, next_wakeup_at: None }),
            c.spec_result() is None,
    {
        GuestConfig {
            cmdline,
            scratch_size,
            initrd_base,
            initrd_size,
            mounts,
            network,
            listen_ports,
            output: String::new(),
            env_str: String::new(),
            resolv_conf: String::new(),
            guest: Guest::new(),
            result: None,
        }
    }

    /// The kernel command line.
    pub fn cmdline(&self) -> (r: &str)
        ensures
            r@ == self.spec_cmdline(),
    {
        self.cmdline.as_str()
    }

    /// The initrd's guest address and size (zeros without one).
    pub fn initrd(&self) -> (r: (u64, u64))
        ensures
            r == self.spec_initrd(),
    {
        (self.initrd_base, self.initrd_size)
    }

    /// The host mounts.
    pub fn mounts(&self) -> (r: &Vec<Mount>)
        ensures
            r@ == self.spec_mounts(),
    {
        &self.mounts
    }

    /// Hand over the network policy and the listen ports, for the host
    /// sockets to enforce; the config keeps neither.
    pub fn take_network(&mut self) -> (r: (Option<crate::net_policy::NetworkPolicy>, Option<crate::net_policy::ListenPorts>))
        ensures
            r == old(self).spec_network(),
            final(self).spec_network() == (None::<crate::net_policy::NetworkPolicy>, None::<crate::net_policy::ListenPorts>),
            final(self).spec_setup() == old(self).spec_setup(),
            final(self).spec_guest() == old(self).spec_guest(),
            final(self).spec_env() == old(self).spec_env(),
            final(self).spec_output() == old(self).spec_output(),
            final(self).spec_resolv_conf() == old(self).spec_resolv_conf(),
            final(self).spec_result() == old(self).spec_result(),
    {
        let n = self.network.take();
        let l = self.listen_ports.take();
        (n, l)
    }

    /// The guest's scratch memory, in bytes.
    pub fn scratch_size(&self) -> (r: usize)
        ensures
            r == self.spec_scratch_size(),
    {
        self.scratch_size
    }

    /// How much scratch memory to give the paging frame allocator: 75%.
    pub fn paging_budget(&self) -> (r: u64)
        requires
            self.spec_scratch_size() as u64 * 3 <= u64::MAX,
        ensures
            r == (self.spec_scratch_size() as u64 * 3) / 4,
    {
        (self.scratch_size as u64) * 3 / 4
    }

    /// Set the guest's environment for subsequent dispatches.  This
    /// replaces the whole set: a variable dropped here is not unset in the
    /// guest, which only ever calls `setenv`.
    pub fn set_env_vars(&mut self, vars: &[(&str, &str)])
        ensures
            final(self).spec_env() == env_block(vars@),
            final(self).spec_output() == old(self).spec_output(),
            final(self).spec_guest() == old(self).spec_guest(),
            final(self).spec_cmdline() == old(self).spec_cmdline(),
            final(self).spec_setup() == old(self).spec_setup(),
            final(self).spec_network() == old(self).spec_network(),
            final(self).spec_resolv_conf() == old(self).spec_resolv_conf(),
            final(self).spec_result() == old(self).spec_result(),
    {
        let mut s = String::new();
        let mut i: usize = 0;
        while i < vars.len()
            invariant
                i <= vars@.len(),
                s@ == env_block(vars@.take(i as int)),
            decreases vars@.len() - i,
        {
            let (k, v) = vars[i];
            push_str(&mut s, k);
            push_char(&mut s, '=');
            push_str(&mut s, v);
            push_char(&mut s, '\0');
            proof {
                assert(vars@.take(i + 1).drop_last() =~= vars@.take(i as int));
            }
            i += 1;
        }
        assert(vars@.take(i as int) =~= vars@);
        self.env_str = s;
    }

    /// The environment block the guest fetches.
    pub fn env(&self) -> (r: &str)
        ensures
            r@ == self.spec_env(),
    {
        self.env_str.as_str()
    }

    /// The resolver file the kernel writes as the guest's
    /// `/etc/resolv.conf`, at boot and on every restore, with
    /// `options single-request` added.
    pub fn set_resolv_conf(&mut self, content: &str)
        ensures
            final(self).spec_resolv_conf() == spec_with_single_request(content@),
            final(self).spec_env() == old(self).spec_env(),
            final(self).spec_guest() == old(self).spec_guest(),
            final(self).spec_setup() == old(self).spec_setup(),
            final(self).spec_network() == old(self).spec_network(),
            final(self).spec_output() == old(self).spec_output(),
            final(self).spec_result() == old(self).spec_result(),
    {
        self.resolv_conf = with_single_request(content);
    }

    /// The resolver file the kernel writes; empty leaves the rootfs's own.
    pub fn resolv_conf(&self) -> (r: &str)
        ensures
            r@ == self.spec_resolv_conf(),
    {
        self.resolv_conf.as_str()
    }

    /// Capture what the guest printed.
    pub fn append_output(&mut self, msg: &str)
        ensures
            final(self).spec_output() == old(self).spec_output() + msg@,
            final(self).spec_guest() == old(self).spec_guest(),
            final(self).spec_env() == old(self).spec_env(),
            final(self).spec_setup() == old(self).spec_setup(),
            final(self).spec_network() == old(self).spec_network(),
            final(self).spec_resolv_conf() == old(self).spec_resolv_conf(),
            final(self).spec_result() == old(self).spec_result(),
    {
        push_str(&mut self.output, msg);
    }

    /// Take the guest output captured so far, clearing it.
    pub fn drain_output(&mut self) -> (r: String)
        ensures
            r@ == old(self).spec_output(),
            final(self).spec_output().len() == 0,
            final(self).spec_guest() == old(self).spec_guest(),
            final(self).spec_env() == old(self).spec_env(),
            final(self).spec_setup() == old(self).spec_setup(),
            final(self).spec_network() == old(self).spec_network(),
            final(self).spec_resolv_conf() == old(self).spec_resolv_conf(),
            final(self).spec_result() == old(self).spec_result(),
    {
        let mut out = String::new();
        std::mem::swap(&mut out, &mut self.output);
        out
    }

    /// Keep what a call returned.
    pub fn set_result(&mut self, bytes: Vec<u8>)
        ensures
            final(self).spec_result() == Some(bytes@),
            final(self).spec_guest() == old(self).spec_guest(),
            final(self).spec_setup() == old(self).spec_setup(),
            final(self).spec_network() == old(self).spec_network(),
            final(self).spec_env() == old(self).spec_env(),
            final(self).spec_output() == old(self).spec_output(),
            final(self).spec_resolv_conf() == old(self).spec_resolv_conf(),
    {
        self.result = Some(bytes);
    }

    /// Take the last call's result; a second take gets `None`.
    pub fn take_result(&mut self) -> (r: Option<Vec<u8>>)
        ensures
            match r {
                Some(v) => old(self).spec_result() == Some(v@),
                None => old(self).spec_result() is None,
            },
            final(self).spec_result() is None,
            final(self).spec_guest() == old(self).spec_guest(),
            final(self).spec_setup() == old(self).spec_setup(),
            final(self).spec_network() == old(self).spec_network(),
            final(self).spec_env() == old(self).spec_env(),
            final(self).spec_output() == old(self).spec_output(),
            final(self).spec_resolv_conf() == old(self).spec_resolv_conf(),
    {
        self.result.take()
    }

    /// Drop the result: a new call was submitted.
    pub fn clear_result(&mut self)
        ensures
            final(self).spec_result() is None,
            final(self).spec_guest() == old(self).spec_guest(),
            final(self).spec_setup() == old(self).spec_setup(),
            final(self).spec_network() == old(self).spec_network(),
            final(self).spec_env() == old(self).spec_env(),
            final(self).spec_output() == old(self).spec_output(),
            final(self).spec_resolv_conf() == old(self).spec_resolv_conf(),
    {
        self.result = None;
    }

    /// Take in the events of an entry (see [`absorb`]); a failed call's
    /// result is not the call's, and is dropped.
    pub fn absorb(&mut self, events: &Vec<Event>) -> (r: Result<Yield, Error>)
        ensures
            final(self).spec_guest() == heard_all(Guest { next_wakeup_at: None, ..old(self).spec_guest() }, events@),
            r == entry_outcome(events@),
            any_failed(events@) ==> final(self).spec_result() is None,
            !any_failed(events@) ==> final(self).spec_result() == old(self).spec_result(),
            final(self).spec_setup() == old(self).spec_setup(),
            final(self).spec_network() == old(self).spec_network(),
            final(self).spec_env() == old(self).spec_env(),
            final(self).spec_output() == old(self).spec_output(),
            final(self).spec_resolv_conf() == old(self).spec_resolv_conf(),
    {
        let (r, failed) = absorb(&mut self.guest, events);
        if failed {
            self.result = None;
        }
        r
    }

    /// Forget everything heard: a restored snapshot just replaced the
    /// guest state the picture described.
    pub fn forget(&mut self)
        ensures
            final(self).spec_guest() == (Guest { has_driver: false, call_in_flight: false, next_wakeup_at: None }),
            final(self).spec_result() is None,
            final(self).spec_setup() == old(self).spec_setup(),
            final(self).spec_network() == old(self).spec_network(),
            final(self).spec_env() == old(self).spec_env(),
            final(self).spec_output() == old(self).spec_output(),
            final(self).spec_resolv_conf() == old(self).spec_resolv_conf(),
    {
        self.result = None;
        self.guest = Guest::new();
    }

    /// Whether a runtime driver serves named calls, per what the guest
    /// has said.
    pub fn has_driver(&self) -> (r: bool)
        ensures
            r == self.spec_guest().has_driver,
    {
        self.guest.has_driver
    }

    /// Whether the guest is serving a named call.
    pub fn call_in_flight(&self) -> (r: bool)
        ensures
            r == self.spec_guest().call_in_flight,
    {
        self.guest.call_in_flight
    }

    /// The guest's next timer, from its last `Yield`.
    pub fn next_wakeup_at(&self) -> (r: Option<std::time::Instant>)
        ensures
            r == self.spec_guest().next_wakeup_at,
    {
        self.guest.next_wakeup_at
    }
}

/// Messages one after another.
pub open spec fn printed(msgs: Seq<Seq<char>>) -> Seq<char>
    decreases msgs.len(),
{
    if msgs.len() == 0 {
        seq![]
    } else {
        printed(msgs.drop_last()) + msgs.last()
    }
}

/// What the guest printed since a config was made or drained comes out
/// of the next drain whole and in order, and a drain right after that
/// gives nothing.  `steps[0]` holds no output, each next step is the one
/// before after [`GuestConfig::append_output`] of the next message, and
/// `after` is the last step after [`GuestConfig::drain_output`].
pub proof fn law_drain_gives_the_prints(
    steps: Seq<GuestConfig>,
    msgs: Seq<Seq<char>>,
    drained: Seq<char>,
    after: GuestConfig,
    again: Seq<char>,
)
    requires
        steps.len() == msgs.len() + 1,
        steps[0].spec_output().len() == 0,
        forall|j: int| 0 <= j < msgs.len() ==> (#[trigger] steps[j + 1]).spec_output() == steps[j].spec_output()
            + msgs[j],
        drained == steps.last().spec_output(),
        after.spec_output().len() == 0,
        again == after.spec_output(),
    ensures
        drained == printed(msgs),
        again.len() == 0,
{
    lemma_printed_steps(steps, msgs, msgs.len() as int);
    assert(steps.last() == steps[msgs.len() as int]);
    assert(msgs.take(msgs.len() as int) =~= msgs);
}

proof fn lemma_printed_steps(steps: Seq<GuestConfig>, msgs: Seq<Seq<char>>, k: int)
    requires
        steps.len() == msgs.len() + 1,
        0 <= k <= msgs.len(),
        steps[0].spec_output().len() == 0,
        forall|j: int| 0 <= j < msgs.len() ==> (#[trigger] steps[j + 1]).spec_output() == steps[j].spec_output()
            + msgs[j],
    ensures
        steps[k].spec_output() == printed(msgs.take(k)),
    decreases k,
{
    if k == 0 {
        assert(steps[0].spec_output() =~= Seq::<char>::empty());
    } else {
        lemma_printed_steps(steps, msgs, k - 1);
        assert(steps[(k - 1) + 1] == steps[k]);
        assert(msgs.take(k).drop_last() =~= msgs.take(k - 1));
        assert(msgs.take(k).last() == msgs[k - 1]);
    }
}

} // verus!
