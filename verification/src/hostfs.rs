//! The host filesystem calls' own rules: which mount a call may touch,
//! how much one read takes, and the replies' byte layouts.  The file
//! operations themselves are the host's.

use vstd::prelude::*;

use crate::errno::{EINVAL, EROFS};
use crate::wire::{i32_le_bytes, le_i32, le_u16, le_u32, u16_le_bytes, u32_le_bytes};

verus! {

/// The most one `fs_read_bytes` reads.
pub const CHUNK: usize = 32768;

/// `x`'s eight bytes, least significant first.
pub open spec fn le_u64(x: u64) -> Seq<u8> {
    le_u32((x % 0x1_0000_0000) as u32) + le_u32((x / 0x1_0000_0000) as u32)
}

fn u64_le_bytes(x: u64) -> (v: Vec<u8>)
    ensures
        v@ == le_u64(x),
{
    let mut v = u32_le_bytes((x % 0x1_0000_0000) as u32);
    let mut hi = u32_le_bytes((x / 0x1_0000_0000) as u32);
    v.append(&mut hi);
    v
}

/// The mount a call names, if it may use it: `Err(EINVAL)` for an index
/// no mount has, `Err(EROFS)` for a call that writes to a read-only one.
pub open spec fn spec_mount_for(ro_flags: Seq<bool>, idx: i32, writes: bool) -> Result<usize, i32> {
    if idx < 0 || idx >= ro_flags.len() {
        Err(EINVAL)
    } else if writes && ro_flags[idx as int] {
        Err(EROFS)
    } else {
        Ok(idx as usize)
    }
}

/// Which mount a call may use (see [`spec_mount_for`]); `ro_flags` has
/// one entry per mount.
pub fn mount_for(ro_flags: &[bool], idx: i32, writes: bool) -> (r: Result<usize, i32>)
    ensures
        r == spec_mount_for(ro_flags@, idx, writes),
{
    if idx < 0 || idx as usize >= ro_flags.len() {
        return Err(EINVAL);
    }
    let i = idx as usize;
    if writes && crate::wire::check_ro(ro_flags, i) {
        return Err(EROFS);
    }
    Ok(i)
}

/// How many bytes one read takes: what was asked, at least one, at most
/// [`CHUNK`].
pub fn read_len(len: u64) -> (n: usize)
    ensures
        n == (if len == 0 {
            1
        } else if len > CHUNK {
            CHUNK as int
        } else {
            len as int
        }),
{
    if len == 0 {
        1
    } else if len > CHUNK as u64 {
        CHUNK
    } else {
        len as usize
    }
}

/// The mode a stat reports: the kind (directory, symlink, else a file)
/// and `r-x` or `rwx` for everyone by the read-only bit.
pub open spec fn spec_synth_mode(is_dir: bool, is_symlink: bool, readonly: bool) -> u32 {
    let kind: u32 = if is_dir {
        0o40000
    } else if is_symlink {
        0o120000
    } else {
        0o100000
    };
    let perm: u32 = if readonly { 0o555 } else { 0o755 };
    (kind + perm) as u32
}

/// The mode a stat reports (see [`spec_synth_mode`]).
pub fn synth_mode(is_dir: bool, is_symlink: bool, readonly: bool) -> (m: u32)
    ensures
        m == spec_synth_mode(is_dir, is_symlink, readonly),
{
    let kind: u32 = if is_dir {
        0o40000
    } else if is_symlink {
        0o120000
    } else {
        0o100000
    };
    let perm: u32 = if readonly { 0o555 } else { 0o755 };
    kind + perm
}

/// A stat's reply: status 0, size, mode, and whether it is a directory
/// and a file.
pub open spec fn spec_stat_reply(size: u64, mode: u32, is_dir: bool, is_file: bool) -> Seq<u8> {
    le_i32(0) + le_u64(size) + le_u32(mode) + seq![if is_dir { 1u8 } else { 0u8 }, if is_file { 1u8 } else { 0u8 }]
}

/// A stat's reply (see [`spec_stat_reply`]).
pub fn stat_reply(size: u64, mode: u32, is_dir: bool, is_file: bool) -> (v: Vec<u8>)
    ensures
        v@ == spec_stat_reply(size, mode, is_dir, is_file),
{
    let mut v = i32_le_bytes(0);
    let mut s = u64_le_bytes(size);
    let mut m = u32_le_bytes(mode);
    v.append(&mut s);
    v.append(&mut m);
    v.push(if is_dir { 1u8 } else { 0u8 });
    v.push(if is_file { 1u8 } else { 0u8 });
    v
}

/// A reply that carries bytes (what a read read, where a link points):
/// status 0 and the bytes.
pub fn data_reply(data: &[u8]) -> (v: Vec<u8>)
    ensures
        v@ == le_i32(0) + data@,
{
    let mut v = i32_le_bytes(0);
    let mut i: usize = 0;
    let ghost head = v@;
    while i < data.len()
        invariant
            i <= data@.len(),
            v@ == head + data@.take(i as int),
        decreases data@.len() - i,
    {
        v.push(data[i]);
        assert(data@.take(i + 1) =~= data@.take(i as int).push(data@[i as int]));
        i += 1;
    }
    assert(data@.take(i as int) =~= data@);
    v
}

/// One directory entry in a listing: whether it is a directory, the
/// name's length in two bytes, the name.
pub open spec fn listed_entry(is_dir: bool, name: Seq<u8>) -> Seq<u8> {
    seq![if is_dir { 1u8 } else { 0u8 }] + le_u16((name.len() % 65536) as u16) + name
}

/// The entries of a listing, in order.
pub open spec fn listed_entries(es: Seq<(bool, Vec<u8>)>) -> Seq<u8>
    decreases es.len(),
{
    if es.len() == 0 {
        seq![]
    } else {
        listed_entries(es.drop_last()) + listed_entry(es.last().0, es.last().1@)
    }
}

/// A listing's reply: status 0, the number of entries, the entries.
pub open spec fn spec_list_reply(es: Seq<(bool, Vec<u8>)>) -> Seq<u8> {
    le_i32(0) + le_u32(es.len() as u32) + listed_entries(es)
}

/// A directory listing's reply (see [`spec_list_reply`]).
pub fn list_reply(entries: &Vec<(bool, Vec<u8>)>) -> (v: Vec<u8>)
    requires
        entries@.len() <= u32::MAX,
    ensures
        v@ == spec_list_reply(entries@),
{
    let mut body: Vec<u8> = Vec::new();
    let mut i: usize = 0;
    while i < entries.len()
        invariant
            i <= entries@.len(),
            body@ == listed_entries(entries@.take(i as int)),
        decreases entries@.len() - i,
    {
        let (is_dir, name) = &entries[i];
        body.push(if *is_dir { 1u8 } else { 0u8 });
        let n = (name.len() % 65536) as u16;
        let mut len = u16_le_bytes(n);
        body.append(&mut len);
        let mut k: usize = 0;
        let ghost before = body@;
        while k < name.len()
            invariant
                k <= name@.len(),
                body@ == before + name@.take(k as int),
            decreases name@.len() - k,
        {
            body.push(name[k]);
            assert(name@.take(k + 1) =~= name@.take(k as int).push(name@[k as int]));
            k += 1;
        }
        proof {
            assert(name@.take(k as int) =~= name@);
            assert(entries@.take(i + 1).drop_last() =~= entries@.take(i as int));
            assert(entries@.take(i + 1).last() == entries@[i as int]);
        }
        i += 1;
    }
    assert(entries@.take(i as int) =~= entries@);
    let mut v = i32_le_bytes(0);
    let mut count = u32_le_bytes(entries.len() as u32);
    v.append(&mut count);
    v.append(&mut body);
    v
}

/// The directory a listing reads: the mount's root for an empty path.
pub fn list_path(path: &str) -> (r: String)
    ensures
        r@ == (if path@.len() == 0 {
            "."@
        } else {
            path@
        }),
{
    if path.is_empty() {
        ".".to_owned()
    } else {
        path.to_owned()
    }
}

/// Whether a `chmod` mode leaves nobody write permission, which is what a
/// host with only a read-only bit can keep of it.
pub fn mode_is_readonly(mode: u32) -> (r: bool)
    ensures
        r == (mode & 0o222 == 0),
{
    mode & 0o222 == 0
}

} // verus!
