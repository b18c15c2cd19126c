//! Turn a filesystem tar (what `docker export` streams) into the newc CPIO
//! the kernel takes as its initrd, the way `find . | cpio -o -H newc` lays
//! it out: a `.` entry first, then every path bare of a leading `./`, so
//! the driver detection and the guest see the same names as in the
//! published images.
use vstd::prelude::*;

use vstd::string::StringSliceAdditionalSpecFns;

use crate::text::{
    chars_of, decimal, decimal_string, hex8, hex_bytes, lemma_utf8_len_bound, prefix, push_char, push_str,
    same_text, slice_vec, string_of, trim_end, trim_end_len,
};

verus! {

pub const S_IFREG: u32 = 0o100000;
pub const S_IFDIR: u32 = 0o040000;
pub const S_IFLNK: u32 = 0o120000;
pub const S_IFCHR: u32 = 0o020000;
pub const S_IFBLK: u32 = 0o060000;
pub const S_IFIFO: u32 = 0o010000;

/// What a conversion produced: the entries and bytes of content, not
/// counting the root and the trailer.
#[derive(Debug, Default, Clone, Copy, PartialEq, Eq)]
pub struct Stats {
    pub entries: u64,
    pub bytes: u64,
}

/// The ownership, permissions and time an entry carries.
#[derive(Debug, Clone, Copy, PartialEq, Eq)]
pub struct Attrs {
    pub mode: u32,
    pub uid: u32,
    pub gid: u32,
    pub mtime: u32,
}

impl Attrs {
    /// Root-owned, with `mode`, dated the epoch.
    pub fn root(mode: u32) -> (a: Attrs)
        ensures
            a == (Attrs { mode, uid: 0, gid: 0, mtime: 0 }),
    {
        Attrs { mode, uid: 0, gid: 0, mtime: 0 }
    }
}

/// One entry as the archive holds it.
pub struct Record {
    pub ino: u32,
    pub name: Seq<u8>,
    pub mode: u32,
    pub attrs: Attrs,
    pub nlink: u32,
    pub rdev: (u32, u32),
    pub data: Seq<u8>,
}

/// The zero bytes that bring `n` up to a multiple of four.
pub open spec fn pad_len(n: nat) -> nat {
    ((4 - n % 4) % 4) as nat
}

pub open spec fn zeros(n: nat) -> Seq<u8> {
    Seq::new(n, |i: int| 0u8)
}

/// `070701`, the newc magic.
pub open spec fn magic() -> Seq<u8> {
    seq![48u8, 55u8, 48u8, 55u8, 48u8, 49u8]
}

/// A newc header: the magic, thirteen 8-digit upper-case hex fields (ino,
/// mode, uid, gid, nlink, mtime, filesize, dev major and minor, rdev major
/// and minor, namesize, check), the name with its NUL, and the padding
/// that puts the data on a 4-byte boundary.
pub open spec fn header_bytes(
    ino: u32,
    name: Seq<u8>,
    mode: u32,
    attrs: Attrs,
    nlink: u32,
    filesize: u32,
    rdev: (u32, u32),
) -> Seq<u8> {
    let namesize = name.len() + 1;
    magic() + hex_bytes(ino as nat, 8) + hex_bytes(mode as nat, 8) + hex_bytes(attrs.uid as nat, 8)
        + hex_bytes(attrs.gid as nat, 8) + hex_bytes(nlink as nat, 8) + hex_bytes(
        attrs.mtime as nat,
        8,
    ) + hex_bytes(filesize as nat, 8) + hex_bytes(0, 8) + hex_bytes(0, 8) + hex_bytes(
        rdev.0 as nat,
        8,
    ) + hex_bytes(rdev.1 as nat, 8) + hex_bytes(namesize, 8) + hex_bytes(0, 8) + name + seq![0u8]
        + zeros(pad_len((110 + namesize) as nat))
}

/// A record as the archive lays it out: its header, its data, padding.
pub open spec fn encode(r: Record) -> Seq<u8> {
    header_bytes(r.ino, r.name, r.mode, r.attrs, r.nlink, r.data.len() as u32, r.rdev) + r.data
        + zeros(pad_len(r.data.len()))
}

/// Records one after another.
pub open spec fn archive(recs: Seq<Record>) -> Seq<u8>
    decreases recs.len(),
{
    if recs.len() == 0 {
        seq![]
    } else {
        archive(recs.drop_last()) + encode(recs.last())
    }
}

/// The content bytes of records.
pub open spec fn data_bytes(recs: Seq<Record>) -> nat
    decreases recs.len(),
{
    if recs.len() == 0 {
        0
    } else {
        data_bytes(recs.drop_last()) + recs.last().data.len()
    }
}

proof fn lemma_header_len(
    ino: u32,
    name: Seq<u8>,
    mode: u32,
    attrs: Attrs,
    nlink: u32,
    filesize: u32,
    rdev: (u32, u32),
)
    ensures
        header_bytes(ino, name, mode, attrs, nlink, filesize, rdev).len() == 110 + name.len() + 1
            + pad_len((110 + name.len() + 1) as nat),
{
    lemma_hex_len(ino as nat, 8);
    lemma_hex_len(mode as nat, 8);
    lemma_hex_len(attrs.uid as nat, 8);
    lemma_hex_len(attrs.gid as nat, 8);
    lemma_hex_len(nlink as nat, 8);
    lemma_hex_len(attrs.mtime as nat, 8);
    lemma_hex_len(filesize as nat, 8);
    lemma_hex_len(0, 8);
    lemma_hex_len(rdev.0 as nat, 8);
    lemma_hex_len(rdev.1 as nat, 8);
    lemma_hex_len((name.len() + 1) as nat, 8);
}

proof fn lemma_hex_len(x: nat, n: nat)
    ensures
        hex_bytes(x, n).len() == n,
    decreases n,
{
    if n > 0 {
        lemma_hex_len(x / 16, (n - 1) as nat);
    }
}

/// The content of records lies within their archive.
proof fn lemma_data_within(recs: Seq<Record>)
    ensures
        data_bytes(recs) <= archive(recs).len(),
    decreases recs.len(),
{
    if recs.len() > 0 {
        lemma_data_within(recs.drop_last());
    }
}

proof fn lemma_pad(n: nat)
    ensures
        (n + pad_len(n)) % 4 == 0,
        pad_len(n) < 4,
{
}

proof fn lemma_sum_aligned(a: int, b: int)
    requires
        a % 4 == 0,
        b % 4 == 0,
    ensures
        (a + b) % 4 == 0,
{
    assert((a + b) % 4 == 0) by (nonlinear_arith)
        requires
            a % 4 == 0,
            b % 4 == 0,
    ;
}

/// A record ends on a 4-byte boundary.
proof fn lemma_encode_aligned(r: Record)
    ensures
        encode(r).len() % 4 == 0,
{
    lemma_header_len(r.ino, r.name, r.mode, r.attrs, r.nlink, r.data.len() as u32, r.rdev);
    let h = (110 + r.name.len() + 1) as nat;
    lemma_pad(h);
    lemma_pad(r.data.len());
    lemma_sum_aligned((h + pad_len(h)) as int, (r.data.len() + pad_len(r.data.len())) as int);
}

/// Every record ends on a 4-byte boundary, so an archive does.
pub proof fn lemma_archive_aligned(recs: Seq<Record>)
    ensures
        archive(recs).len() % 4 == 0,
    decreases recs.len(),
{
    if recs.len() > 0 {
        lemma_archive_aligned(recs.drop_last());
        lemma_encode_aligned(recs.last());
        lemma_sum_aligned(archive(recs.drop_last()).len() as int, encode(recs.last()).len() as int);
    }
}

/// Append `b` to `out`.
pub fn append_bytes(out: &mut Vec<u8>, b: &[u8])
    ensures
        final(out)@ == old(out)@ + b@,
{
    let mut i: usize = 0;
    let ghost start = out@;
    while i < b.len()
        invariant
            i <= b.len(),
            out@ == start + b@.subrange(0, i as int),
        decreases b.len() - i,
    {
        out.push(b[i]);
        i += 1;
        assert(out@ =~= start + b@.subrange(0, i as int));
    }
    assert(b@.subrange(0, i as int) =~= b@);
}

fn push_zeros(out: &mut Vec<u8>, n: u64)
    requires
        n < 4,
    ensures
        final(out)@ == old(out)@ + zeros(n as nat),
{
    let mut i: u64 = 0;
    let ghost start = out@;
    while i < n
        invariant
            i <= n,
            out@ == start + zeros(i as nat),
        decreases n - i,
    {
        out.push(0);
        i += 1;
        assert(out@ =~= start + zeros(i as nat));
    }
}

/// A newc CPIO writer, building the archive in memory.
pub struct Writer {
    out: Vec<u8>,
    ino: u32,
    bytes: u64,
    entries: u64,
    recs: Ghost<Seq<Record>>,
}

impl Writer {
    /// The records written so far, in order.
    pub closed spec fn records(&self) -> Seq<Record> {
        self.recs@
    }

    /// The archive so far.
    pub closed spec fn output(&self) -> Seq<u8> {
        self.out@
    }

    /// Entries begun so far, the root included.
    pub closed spec fn entry_count(&self) -> nat {
        self.entries as nat
    }

    /// Content bytes written so far.
    pub closed spec fn byte_count(&self) -> nat {
        self.bytes as nat
    }

    /// The inode number the next entry takes, less one.
    pub closed spec fn last_ino(&self) -> nat {
        self.ino as nat
    }

    /// The archive is exactly its records, and the counters count them.
    pub closed spec fn wf(&self) -> bool {
        &&& self.out@ == archive(self.recs@)
        &&& self.bytes as nat == data_bytes(self.recs@)
        &&& self.entries == self.ino
    }

    /// Room for one more inode number.
    pub open spec fn has_room(&self) -> bool {
        self.last_ino() < u32::MAX
    }

    /// Start an archive with its root `.` directory.
    pub fn new() -> (w: Writer)
        ensures
            w.wf(),
            w.records() == seq![
                Record {
                    ino: 1,
                    name: seq![46u8],
                    mode: S_IFDIR | 0o755,
                    attrs: Attrs { mode: 0, uid: 0, gid: 0, mtime: 0 },
                    nlink: 2,
                    rdev: (0, 0),
                    data: seq![],
                },
            ],
            w.entry_count() == 1,
            w.last_ino() == 1,
            w.byte_count() == 0,
    {
        let mut w = Writer { out: Vec::new(), ino: 0, bytes: 0, entries: 0, recs: Ghost(Seq::empty()) };
        proof {
            reveal_strlit(".");
            let dot = seq!['.'];
            assert("."@ == dot);
            assert(vstd::utf8::is_ascii_chars(dot));
            vstd::utf8::is_ascii_chars_encode_utf8(dot);
            assert(('.' as u8) == 46u8);
            assert(".".spec_bytes() =~= seq![46u8]);
        }
        let r = w.header(".", S_IFDIR | 0o755, Attrs::root(0), 2, 0, (0, 0));
        w.seal(".", S_IFDIR | 0o755, Attrs::root(0), 2, (0, 0), Ghost(Seq::empty()));
        w
    }

    /// Take the record just written into the model.
    fn seal(
        &mut self,
        name: &str,
        mode: u32,
        attrs: Attrs,
        nlink: u32,
        rdev: (u32, u32),
        data: Ghost<Seq<u8>>,
    )
        requires
            old(self).output() == archive(old(self).records()) + encode(
                Record {
                    ino: old(self).last_ino() as u32,
                    name: name.spec_bytes(),
                    mode,
                    attrs,
                    nlink,
                    rdev,
                    data: data@,
                },
            ),
            old(self).byte_count() == data_bytes(old(self).records()) + data@.len(),
            old(self).entry_count() == old(self).last_ino(),
        ensures
            final(self).wf(),
            final(self).records() == old(self).records().push(
                Record {
                    ino: old(self).last_ino() as u32,
                    name: name.spec_bytes(),
                    mode,
                    attrs,
                    nlink,
                    rdev,
                    data: data@,
                },
            ),
            final(self).output() == old(self).output(),
            final(self).last_ino() == old(self).last_ino(),
            final(self).entry_count() == old(self).entry_count(),
            final(self).byte_count() == old(self).byte_count(),
    {
        let ghost r = Record {
            ino: self.ino,
            name: name.spec_bytes(),
            mode,
            attrs,
            nlink,
            rdev,
            data: data@,
        };
        self.recs = Ghost(self.recs@.push(r));
        proof {
            assert(self.recs@.drop_last() =~= old(self).recs@);
        }
    }

    /// A directory entry.
    pub fn dir(&mut self, name: &str, attrs: Attrs) -> (r: Result<(), String>)
        requires
            old(self).wf(),
            old(self).has_room(),
            name.spec_bytes().len() + 1 <= u32::MAX,
        ensures
            r is Ok,
            final(self).wf(),
            final(self).records() == old(self).records().push(
                Record {
                    ino: (old(self).last_ino() + 1) as u32,
                    name: name.spec_bytes(),
                    mode: S_IFDIR | (attrs.mode & 0o7777),
                    attrs,
                    nlink: 2,
                    rdev: (0, 0),
                    data: seq![],
                },
            ),
            final(self).last_ino() == old(self).last_ino() + 1,
            final(self).entry_count() == old(self).entry_count() + 1,
            final(self).byte_count() == old(self).byte_count(),
    {
        let r = self.header(name, S_IFDIR | (attrs.mode & 0o7777), attrs, 2, 0, (0, 0));
        proof {
            assert(zeros(pad_len(0)) =~= Seq::<u8>::empty());
            assert(self.out@ =~= archive(old(self).recs@) + encode(
                Record {
                    ino: self.ino,
                    name: name.spec_bytes(),
                    mode: S_IFDIR | (attrs.mode & 0o7777),
                    attrs,
                    nlink: 2,
                    rdev: (0, 0),
                    data: seq![],
                },
            ));
        }
        self.seal(name, S_IFDIR | (attrs.mode & 0o7777), attrs, 2, (0, 0), Ghost(Seq::empty()));
        r
    }

    /// A regular file of `size` bytes, its contents the first `size` bytes
    /// of `data`; `data` that runs short is an error, once what it has is
    /// written.
    pub fn file(&mut self, name: &str, attrs: Attrs, size: u64, data: &[u8]) -> (r: Result<(), String>)
        requires
            old(self).wf(),
            old(self).has_room(),
            name.spec_bytes().len() + 1 <= u32::MAX,
        ensures
            final(self).last_ino() == old(self).last_ino() + 1,
            final(self).entry_count() == old(self).entry_count() + 1,
            r is Ok <==> (size <= u32::MAX && size <= data@.len()),
            r is Ok ==> final(self).wf() && final(self).records() == old(self).records().push(
                Record {
                    ino: (old(self).last_ino() + 1) as u32,
                    name: name.spec_bytes(),
                    mode: S_IFREG | (attrs.mode & 0o7777),
                    attrs,
                    nlink: 1,
                    rdev: (0, 0),
                    data: data@.subrange(0, size as int),
                },
            ) && final(self).byte_count() == old(self).byte_count() + size,
            r matches Err(m) ==> m@ == if size > u32::MAX {
                too_big(name@, size as nat)
            } else {
                short_read(name@, data@.len(), size as nat)
            },
            size > u32::MAX ==> final(self).output() == old(self).output(),
            size <= u32::MAX && size > data@.len() ==> final(self).output() == old(self).output()
                + header_bytes(
                (old(self).last_ino() + 1) as u32,
                name.spec_bytes(),
                S_IFREG | (attrs.mode & 0o7777),
                attrs,
                1,
                size as u32,
                (0, 0),
            ) + data@,
    {
        self.header(name, S_IFREG | (attrs.mode & 0o7777), attrs, 1, size, (0, 0))?;
        let copied: usize = if (data.len() as u64) < size {
            data.len()
        } else {
            size as usize
        };
        let body = &data[0..copied];
        append_bytes(&mut self.out, body);
        if copied as u64 != size {
            let mut msg = String::new();
            push_str(&mut msg, name);
            push_str(&mut msg, ": ");
            let c = decimal_string(copied as u64);
            push_str(&mut msg, c.as_str());
            push_str(&mut msg, " of ");
            let s = decimal_string(size);
            push_str(&mut msg, s.as_str());
            push_str(&mut msg, " bytes");
            assert(body@ =~= data@);
            return Err(msg);
        }
        let total = self.out.len();
        proof {
            lemma_data_within(old(self).recs@);
            lemma_header_len(
                self.ino,
                name.spec_bytes(),
                S_IFREG | (attrs.mode & 0o7777),
                attrs,
                1,
                size as u32,
                (0, 0),
            );
        }
        assert(self.bytes + size <= total);
        self.bytes = self.bytes + size;
        push_zeros(&mut self.out, (4 - size % 4) % 4);
        proof {
            assert(body@ =~= data@.subrange(0, size as int));
            assert(self.out@ =~= archive(old(self).recs@) + encode(
                Record {
                    ino: self.ino,
                    name: name.spec_bytes(),
                    mode: S_IFREG | (attrs.mode & 0o7777),
                    attrs,
                    nlink: 1,
                    rdev: (0, 0),
                    data: body@,
                },
            ));
        }
        self.seal(name, S_IFREG | (attrs.mode & 0o7777), attrs, 1, (0, 0), Ghost(body@));
        Ok(())
    }

    /// A symbolic link to `target`.
    pub fn symlink(&mut self, name: &str, target: &str, attrs: Attrs) -> (r: Result<(), String>)
        requires
            old(self).wf(),
            old(self).has_room(),
            name.spec_bytes().len() + 1 <= u32::MAX,
        ensures
            final(self).last_ino() == old(self).last_ino() + 1,
            final(self).entry_count() == old(self).entry_count() + 1,
            r is Ok <==> target.spec_bytes().len() <= u32::MAX,
            r is Ok ==> final(self).wf() && final(self).records() == old(self).records().push(
                Record {
                    ino: (old(self).last_ino() + 1) as u32,
                    name: name.spec_bytes(),
                    mode: S_IFLNK | 0o777,
                    attrs,
                    nlink: 1,
                    rdev: (0, 0),
                    data: target.spec_bytes(),
                },
            ) && final(self).byte_count() == old(self).byte_count() + target.spec_bytes().len(),
            r is Err ==> final(self).output() == old(self).output(),
            r matches Err(m) ==> m@ == too_big(name@, target.spec_bytes().len()),
    {
        let t = target.as_bytes();
        self.header(name, S_IFLNK | 0o777, attrs, 1, t.len() as u64, (0, 0))?;
        append_bytes(&mut self.out, t);
        let total = self.out.len();
        proof {
            lemma_data_within(old(self).recs@);
            lemma_header_len(
                self.ino,
                name.spec_bytes(),
                S_IFLNK | 0o777,
                attrs,
                1,
                t@.len() as u32,
                (0, 0),
            );
        }
        assert(self.bytes + t.len() <= total);
        self.bytes = self.bytes + t.len() as u64;
        push_zeros(&mut self.out, (4 - (t.len() as u64) % 4) % 4);
        proof {
            assert(self.out@ =~= archive(old(self).recs@) + encode(
                Record {
                    ino: self.ino,
                    name: name.spec_bytes(),
                    mode: S_IFLNK | 0o777,
                    attrs,
                    nlink: 1,
                    rdev: (0, 0),
                    data: t@,
                },
            ));
        }
        self.seal(name, S_IFLNK | 0o777, attrs, 1, (0, 0), Ghost(t@));
        Ok(())
    }

    /// A character or block device, or a FIFO; `kind` is one of the
    /// `S_IF*` type bits.
    pub fn special(&mut self, name: &str, kind: u32, attrs: Attrs, rdev: (u32, u32)) -> (r: Result<(), String>)
        requires
            old(self).wf(),
            old(self).has_room(),
            name.spec_bytes().len() + 1 <= u32::MAX,
        ensures
            r is Ok,
            final(self).wf(),
            final(self).records() == old(self).records().push(
                Record {
                    ino: (old(self).last_ino() + 1) as u32,
                    name: name.spec_bytes(),
                    mode: kind | (attrs.mode & 0o7777),
                    attrs,
                    nlink: 1,
                    rdev,
                    data: seq![],
                },
            ),
            final(self).last_ino() == old(self).last_ino() + 1,
            final(self).entry_count() == old(self).entry_count() + 1,
            final(self).byte_count() == old(self).byte_count(),
    {
        let r = self.header(name, kind | (attrs.mode & 0o7777), attrs, 1, 0, rdev);
        proof {
            assert(zeros(pad_len(0)) =~= Seq::<u8>::empty());
            assert(self.out@ =~= archive(old(self).recs@) + encode(
                Record {
                    ino: self.ino,
                    name: name.spec_bytes(),
                    mode: kind | (attrs.mode & 0o7777),
                    attrs,
                    nlink: 1,
                    rdev,
                    data: seq![],
                },
            ));
        }
        self.seal(name, kind | (attrs.mode & 0o7777), attrs, 1, rdev, Ghost(Seq::empty()));
        r
    }

    /// Write the trailer and hand the archive back, with what it holds
    /// besides the root and the trailer.
    pub fn finish(self) -> (r: (Vec<u8>, Stats))
        requires
            self.wf(),
            self.has_room(),
            self.entry_count() >= 1,
        ensures
            r.0@ == archive(self.records().push(
                Record {
                    ino: (self.last_ino() + 1) as u32,
                    name: trailer_name(),
                    mode: 0,
                    attrs: Attrs { mode: 0, uid: 0, gid: 0, mtime: 0 },
                    nlink: 1,
                    rdev: (0, 0),
                    data: seq![],
                },
            )),
            r.1 == (Stats { entries: (self.entry_count() - 1) as u64, bytes: self.byte_count() as u64 }),
    {
        let mut w = self;
        proof {
            reveal_strlit("TRAILER!!!");
            let t = "TRAILER!!!"@;
            assert(vstd::utf8::is_ascii_chars(t));
            vstd::utf8::is_ascii_chars_encode_utf8(t);
            assert("TRAILER!!!".spec_bytes() =~= trailer_name());
        }
        let _ = w.header("TRAILER!!!", 0, Attrs::root(0), 1, 0, (0, 0));
        proof {
            assert(zeros(pad_len(0)) =~= Seq::<u8>::empty());
        }
        w.seal("TRAILER!!!", 0, Attrs::root(0), 1, (0, 0), Ghost(Seq::empty()));
        let stats = Stats { entries: w.entries - 2, bytes: w.bytes };
        (w.out, stats)
    }

    /// Write a header, and count the entry, or refuse a size a newc entry
    /// cannot hold (the entry is counted all the same).
    fn header(
        &mut self,
        name: &str,
        mode: u32,
        attrs: Attrs,
        nlink: u32,
        filesize: u64,
        rdev: (u32, u32),
    ) -> (r: Result<(), String>)
        requires
            old(self).last_ino() < u32::MAX,
            old(self).entry_count() < u64::MAX,
            name.spec_bytes().len() + 1 <= u32::MAX,
        ensures
            final(self).last_ino() == old(self).last_ino() + 1,
            final(self).entry_count() == old(self).entry_count() + 1,
            final(self).byte_count() == old(self).byte_count(),
            final(self).records() == old(self).records(),
            r is Ok <==> filesize <= u32::MAX,
            r is Ok ==> final(self).output() == old(self).output() + header_bytes(
                final(self).last_ino() as u32,
                name.spec_bytes(),
                mode,
                attrs,
                nlink,
                filesize as u32,
                rdev,
            ),
            r is Err ==> final(self).output() == old(self).output(),
            r matches Err(m) ==> m@ == too_big(name@, filesize as nat),
    {
        self.ino = self.ino + 1;
        self.entries = self.entries + 1;
        if filesize > u32::MAX as u64 {
            let mut msg = String::new();
            push_str(&mut msg, name);
            push_str(&mut msg, ": ");
            let n = decimal_string(filesize);
            push_str(&mut msg, n.as_str());
            push_str(&mut msg, " bytes, over the 4 GiB a newc entry can hold");
            return Err(msg);
        }
        let name_bytes = name.as_bytes();
        let namesize = name_bytes.len() as u32 + 1;
        let mut h: Vec<u8> = Vec::new();
        h.push(48);
        h.push(55);
        h.push(48);
        h.push(55);
        h.push(48);
        h.push(49);
        let fields = [
            self.ino,
            mode,
            attrs.uid,
            attrs.gid,
            nlink,
            attrs.mtime,
            filesize as u32,
            0,
            0,
            rdev.0,
            rdev.1,
            namesize,
            0,
        ];
        let mut k: usize = 0;
        while k < 13
            invariant
                k <= 13,
                h@ == magic() + fields_hex(fields@, k as nat),
            decreases 13 - k,
        {
            let x = hex8(fields[k]);
            append_bytes(&mut h, &x);
            k += 1;
        }
        append_bytes(&mut h, name_bytes);
        h.push(0);
        let written = 110 + namesize as u64;
        push_zeros(&mut h, (4 - written % 4) % 4);
        append_bytes(&mut self.out, &h);
        proof {
            reveal_with_fuel(fields_hex, 14);
            assert(fields_hex(fields@, 13) =~= hex_bytes(self.ino as nat, 8) + hex_bytes(mode as nat, 8)
                + hex_bytes(attrs.uid as nat, 8) + hex_bytes(attrs.gid as nat, 8) + hex_bytes(
                nlink as nat,
                8,
            ) + hex_bytes(attrs.mtime as nat, 8) + hex_bytes((filesize as u32) as nat, 8)
                + hex_bytes(0, 8) + hex_bytes(0, 8) + hex_bytes(rdev.0 as nat, 8) + hex_bytes(
                rdev.1 as nat,
                8,
            ) + hex_bytes(namesize as nat, 8) + hex_bytes(0, 8));
            assert(h@ =~= header_bytes(
                self.ino,
                name.spec_bytes(),
                mode,
                attrs,
                nlink,
                filesize as u32,
                rdev,
            ));
        }
        Ok(())
    }
}

/// `TRAILER!!!`, the name of the entry that ends an archive.
pub open spec fn trailer_name() -> Seq<u8> {
    seq![84u8, 82u8, 65u8, 73u8, 76u8, 69u8, 82u8, 33u8, 33u8, 33u8]
}

/// The hex of the first `k` of `fields`, concatenated.
pub open spec fn fields_hex(fields: Seq<u32>, k: nat) -> Seq<u8>
    decreases k,
{
    if k == 0 || k > fields.len() {
        seq![]
    } else {
        fields_hex(fields, (k - 1) as nat) + hex_bytes(fields[k - 1] as nat, 8)
    }
}


/// `path` bare of every leading `./` and `/`.
pub open spec fn strip_leading(s: Seq<char>) -> Seq<char>
    decreases s.len(),
{
    if s.len() >= 2 && s[0] == '.' && s[1] == '/' {
        strip_leading(s.skip(2))
    } else if s.len() >= 1 && s[0] == '/' {
        strip_leading(s.skip(1))
    } else {
        s
    }
}

/// A tar path as a cpio name: no leading `./` or `/`, no trailing `/`;
/// `None` for the root itself.
pub open spec fn spec_normalize(path: Seq<char>) -> Option<Seq<char>> {
    let name = trim_end(strip_leading(path), '/');
    if name.len() == 0 || name == seq!['.'] {
        None
    } else {
        Some(name)
    }
}

proof fn lemma_strip_leading(s: Seq<char>)
    ensures
        !(strip_leading(s).len() >= 2 && strip_leading(s)[0] == '.' && strip_leading(s)[1] == '/'),
        !(strip_leading(s).len() >= 1 && strip_leading(s)[0] == '/'),
    decreases s.len(),
{
    if s.len() >= 2 && s[0] == '.' && s[1] == '/' {
        lemma_strip_leading(s.skip(2));
    } else if s.len() >= 1 && s[0] == '/' {
        lemma_strip_leading(s.skip(1));
    }
}

proof fn lemma_trim_end_last(s: Seq<char>, c: char)
    ensures
        trim_end(s, c).len() == 0 || trim_end(s, c).last() != c,
    decreases s.len(),
{
    if s.len() > 0 && s.last() == c {
        lemma_trim_end_last(s.drop_last(), c);
    }
}

/// Every name a tar path becomes is a bare relative name: not empty, not
/// `.`, not starting with `/` or `./`, not ending with `/`.
pub proof fn law_normalized_names_are_bare(path: Seq<char>)
    ensures
        spec_normalize(path) matches Some(n) ==> {
            &&& n.len() > 0
            &&& n != seq!['.']
            &&& n[0] != '/'
            &&& !(n.len() >= 2 && n[0] == '.' && n[1] == '/')
            &&& n.last() != '/'
        },
{
    let sl = strip_leading(path);
    lemma_strip_leading(path);
    crate::text::lemma_trim_end_prefix(sl, '/');
    lemma_trim_end_last(sl, '/');
    let n = trim_end(sl, '/');
    if n.len() > 0 {
        assert(n[0] == sl[0]);
        if n.len() >= 2 {
            assert(n[1] == sl[1]);
        }
    }
}

/// Sizes added up.
pub open spec fn total(sizes: Seq<nat>) -> nat
    decreases sizes.len(),
{
    if sizes.len() == 0 {
        0
    } else {
        total(sizes.drop_last()) + sizes.last()
    }
}

/// After `n` writes on a new writer (`steps[0]` is [`Writer::new`]), each
/// one entry more and `sizes[j]` content bytes more (a file's size, a
/// link target's length, nothing for a directory or a device), what
/// [`Writer::finish`] counts is `n` entries and the sum of the sizes.
pub proof fn law_finish_counts_the_writes(steps: Seq<Writer>, sizes: Seq<nat>)
    requires
        steps.len() == sizes.len() + 1,
        steps[0].entry_count() == 1,
        steps[0].byte_count() == 0,
        forall|j: int| 0 <= j < sizes.len() ==> (#[trigger] steps[j + 1]).entry_count() == steps[j].entry_count() + 1
            && steps[j + 1].byte_count() == steps[j].byte_count() + sizes[j],
    ensures
        steps.last().entry_count() - 1 == sizes.len(),
        steps.last().byte_count() == total(sizes),
{
    lemma_counts(steps, sizes, sizes.len() as int);
    assert(steps.last() == steps[sizes.len() as int]);
    assert(sizes.take(sizes.len() as int) =~= sizes);
}

proof fn lemma_counts(steps: Seq<Writer>, sizes: Seq<nat>, k: int)
    requires
        steps.len() == sizes.len() + 1,
        0 <= k <= sizes.len(),
        steps[0].entry_count() == 1,
        steps[0].byte_count() == 0,
        forall|j: int| 0 <= j < sizes.len() ==> (#[trigger] steps[j + 1]).entry_count() == steps[j].entry_count() + 1
            && steps[j + 1].byte_count() == steps[j].byte_count() + sizes[j],
    ensures
        steps[k].entry_count() == k + 1,
        steps[k].byte_count() == total(sizes.take(k)),
    decreases k,
{
    if k > 0 {
        lemma_counts(steps, sizes, k - 1);
        assert(steps[(k - 1) + 1] == steps[k]);
        assert(sizes.take(k).drop_last() =~= sizes.take(k - 1));
    }
}

/// A tar path as a cpio name (see [`spec_normalize`]).
pub fn normalize(path: &str) -> (r: Option<String>)
    ensures
        match spec_normalize(path@) {
            Some(n) => r matches Some(s) && s@ == n,
            None => r is None,
        },
{
    let v = chars_of(path);
    let mut start: usize = 0;
    assert(v@.skip(0) =~= v@);
    while start < v.len() && (v[start] == '/' || (start + 1 < v.len() && v[start] == '.' && v[start
        + 1] == '/'))
        invariant
            start <= v.len(),
            v@ == path@,
            strip_leading(v@.skip(start as int)) == strip_leading(path@),
        decreases v.len() - start,
    {
        if v[start] == '/' {
            assert(v@.skip(start as int).skip(1) =~= v@.skip(start + 1));
            start = start + 1;
        } else {
            assert(v@.skip(start as int).skip(2) =~= v@.skip(start + 2));
            start = start + 2;
        }
    }
    let rest = slice_vec(&v, start, v.len());
    assert(rest@ =~= v@.skip(start as int));
    assert(strip_leading(rest@) == rest@);
    let n = trim_end_len(&rest, '/');
    let name = prefix(&rest, n);
    if n == 0 || (n == 1 && name[0] == '.') {
        proof {
            if n == 1 {
                assert(name@ =~= seq!['.']);
            }
        }
        return None;
    }
    proof {
        if name@ == seq!['.'] {
            assert(name@.len() == 1);
            assert(name@[0] == '.');
        }
    }
    Some(string_of(&name))
}

/// The three `/etc` files `docker export` empties, with the contents the
/// archive gets instead: a hostname that resolves (`unikraft` is
/// Unikraft's hostname), a lookup order, and public resolvers, queried one
/// at a time (`single-request`) since the guest's socket layer cannot take
/// glibc's parallel A and AAAA queries.
pub open spec fn fixed_etc_name(i: int) -> Seq<char> {
    if i == 0 {
        "etc/hosts"@
    } else if i == 1 {
        "etc/nsswitch.conf"@
    } else {
        "etc/resolv.conf"@
    }
}

pub open spec fn fixed_etc_text(i: int) -> Seq<char> {
    if i == 0 {
        "127.0.0.1 localhost unikraft\n::1 localhost unikraft\n"@
    } else if i == 1 {
        "hosts: files dns\n"@
    } else {
        "nameserver 8.8.8.8\nnameserver 1.1.1.1\noptions single-request\n"@
    }
}

/// The `/etc` files every archive gets, as `docker export` empties them:
/// `etc/hosts` resolving `localhost` and `unikraft` (IPv4 and IPv6),
/// `etc/nsswitch.conf` looking in files then DNS, and `etc/resolv.conf`
/// naming Google's and Cloudflare's resolvers with `single-request`.
pub proof fn law_fixed_etc_files()
    ensures
        fixed_etc_name(0) == "etc/hosts"@,
        fixed_etc_text(0) == "127.0.0.1 localhost unikraft\n::1 localhost unikraft\n"@,
        fixed_etc_name(1) == "etc/nsswitch.conf"@,
        fixed_etc_text(1) == "hosts: files dns\n"@,
        fixed_etc_name(2) == "etc/resolv.conf"@,
        fixed_etc_text(2) == "nameserver 8.8.8.8\nnameserver 1.1.1.1\noptions single-request\n"@,
{
}

pub open spec fn is_fixed_etc(name: Seq<char>) -> bool {
    name == fixed_etc_name(0) || name == fixed_etc_name(1) || name == fixed_etc_name(2)
}

fn fixed_etc(i: usize) -> (r: (&'static str, &'static str))
    requires
        i < 3,
    ensures
        r.0@ == fixed_etc_name(i as int),
        r.1@ == fixed_etc_text(i as int),
        r.0.spec_bytes().len() < 256,
        r.1.spec_bytes().len() < 1024,
{
    proof {
        reveal_strlit("etc/hosts");
        reveal_strlit("etc/nsswitch.conf");
        reveal_strlit("etc/resolv.conf");
        reveal_strlit("127.0.0.1 localhost unikraft\n::1 localhost unikraft\n");
        reveal_strlit("hosts: files dns\n");
        reveal_strlit("nameserver 8.8.8.8\nnameserver 1.1.1.1\noptions single-request\n");
        lemma_utf8_len_bound(fixed_etc_name(i as int));
        lemma_utf8_len_bound(fixed_etc_text(i as int));
    }
    if i == 0 {
        ("etc/hosts", "127.0.0.1 localhost unikraft\n::1 localhost unikraft\n")
    } else if i == 1 {
        ("etc/nsswitch.conf", "hosts: files dns\n")
    } else {
        ("etc/resolv.conf", "nameserver 8.8.8.8\nnameserver 1.1.1.1\noptions single-request\n")
    }
}

/// The kind of a tar entry.
#[derive(Debug, Clone, Copy, PartialEq, Eq)]
pub enum EntryKind {
    Directory,
    Regular,
    Continuous,
    Symlink,
    Link,
    Char,
    Block,
    Fifo,
    /// Anything else: a sparse file, a volume header.
    Other,
}

/// A tar entry as the archive reader hands it over.
#[derive(Debug, Clone)]
pub struct TarEntry {
    /// The entry's path, as text.
    pub path: String,
    pub kind: EntryKind,
    pub mode: Option<u32>,
    pub uid: Option<u64>,
    pub gid: Option<u64>,
    pub mtime: Option<u64>,
    /// The size the header gives.
    pub size: Option<u64>,
    /// A link's target.
    pub link: Option<String>,
    /// The entry's contents, as read.
    pub data: Vec<u8>,
    pub device_major: Option<u32>,
    pub device_minor: Option<u32>,
}

/// One entry of a tar stream as the `tar` crate reads it: the path (empty,
/// with why, when it does not read), the type flag byte
/// (`EntryType::as_byte`), the header's numbers, the link target and the
/// contents.
#[derive(Debug, Clone)]
pub struct TarRecord {
    pub path: String,
    pub path_error: Option<String>,
    pub typeflag: u8,
    pub mode: Option<u32>,
    pub uid: Option<u64>,
    pub gid: Option<u64>,
    pub mtime: Option<u64>,
    pub size: Option<u64>,
    pub link: Option<String>,
    pub data: Vec<u8>,
    pub device_major: Option<u32>,
    pub device_minor: Option<u32>,
}

/// How a walk over a tar's entries ended: at the end of the archive, with
/// `Archive::entries` refusing, or with the next entry not reading.
pub enum TarEnd {
    Done,
    Open(Seq<char>),
    Entry(Seq<char>),
}

/// A walk over a tar's entries: those handed over, in order, and how it
/// ended.
pub struct TarWalk {
    pub records: Seq<TarRecord>,
    pub end: TarEnd,
}

/// What the `tar` crate reads from the bytes `tar`.
pub uninterp spec fn parsed_tar(tar: Seq<u8>) -> TarWalk;

/// Why a walk over a tar's entries stopped early.
pub enum TarBreak {
    /// `Archive::entries` refused.
    Open(String),
    /// The next entry did not read.
    Entry(String),
}

pub open spec fn end_of(b: Option<TarBreak>) -> TarEnd {
    match b {
        None => TarEnd::Done,
        Some(TarBreak::Open(s)) => TarEnd::Open(s@),
        Some(TarBreak::Entry(s)) => TarEnd::Entry(s@),
    }
}

/// What a tar entry's header names: its path (empty, with why, when it
/// does not read), its type flag and its link target.
pub struct TarName {
    pub path: String,
    pub path_error: Option<String>,
    pub typeflag: u8,
    pub link: Option<String>,
}

/// A name holds what a record holds.
pub open spec fn name_is(p: TarName, x: TarRecord) -> bool {
    &&& p.path@ == x.path@
    &&& crate::initrd::opt_text(p.path_error) == crate::initrd::opt_text(x.path_error)
    &&& p.typeflag == x.typeflag
    &&& crate::initrd::opt_text(p.link) == crate::initrd::opt_text(x.link)
}

/// The numbers in a tar entry's header, where they read.
#[derive(Debug, Clone, Copy, PartialEq, Eq)]
pub struct TarNumbers {
    pub mode: Option<u32>,
    pub uid: Option<u64>,
    pub gid: Option<u64>,
    pub mtime: Option<u64>,
    pub size: Option<u64>,
    pub device_major: Option<u32>,
    pub device_minor: Option<u32>,
}

/// A record's header numbers.
pub open spec fn numbers_of(r: TarRecord) -> TarNumbers {
    TarNumbers {
        mode: r.mode,
        uid: r.uid,
        gid: r.gid,
        mtime: r.mtime,
        size: r.size,
        device_major: r.device_major,
        device_minor: r.device_minor,
    }
}

/// `tar::Archive::entries` over `tar`, each entry's contents read whole
/// (see [`parsed_tar`]), until the walk ends, `Archive::entries` refuses
/// or an entry does not read.  The contents are read from the bytes in
/// memory, which tar's `Read` for an entry does without failing; were it
/// to fail, the walk would count as broken at that entry.
#[verifier::external_body]
pub(crate) fn tar_contents(tar: &[u8]) -> (r: (Vec<Vec<u8>>, Option<TarBreak>))
    ensures
        r.0@.len() == parsed_tar(tar@).records.len(),
        forall|i: int| 0 <= i < r.0@.len() ==> (#[trigger] r.0@[i])@ == parsed_tar(tar@).records[i].data@,
        end_of(r.1) == parsed_tar(tar@).end,
{
    let (mut out, mut archive) = (Vec::new(), tar::Archive::new(tar));
    let entries = match archive.entries() { Ok(x) => x, Err(e) => return (out, Some(TarBreak::Open(e.to_string()))) };
    for e in entries {
        let mut e = match e { Ok(e) => e, Err(e) => return (out, Some(TarBreak::Entry(e.to_string()))) };
        let mut data = Vec::new();
        if let Err(x) = std::io::Read::read_to_end(&mut e, &mut data) { return (out, Some(TarBreak::Entry(x.to_string()))); }
        out.push(data);
    }
    (out, None)
}

/// `tar::Archive::entries` over `tar`, each entry's path (`Entry::path`,
/// empty with the error when it does not read), type flag
/// (`EntryType::as_byte`) and link target (`Entry::link_name`, none when it
/// does not read), until an entry does not read: the same walk over the
/// same headers as [`tar_contents`], which stops there too, or earlier.
#[verifier::external_body]
pub(crate) fn tar_names(tar: &[u8]) -> (r: Vec<TarName>)
    ensures
        r@.len() >= parsed_tar(tar@).records.len(),
        forall|i: int| 0 <= i < parsed_tar(tar@).records.len() ==> name_is(r@[i], #[trigger] parsed_tar(tar@).records[i]),
{
    let (mut out, mut archive) = (Vec::new(), tar::Archive::new(tar));
    if let Ok(entries) = archive.entries() {
        for e in entries {
            let Ok(e) = e else { break };
            let (path, path_error) = match e.path() { Ok(p) => (p.to_string_lossy().into_owned(), None), Err(x) => (String::new(), Some(x.to_string())) };
            let link = e.link_name().ok().flatten().map(|l| l.to_string_lossy().into_owned());
            out.push(TarName { path, path_error, link, typeflag: e.header().entry_type().as_byte() });
        }
    }
    out
}

/// What the `tar` crate reads from the gzip stream in `blob`, unpacked as
/// it is read (`flate2::read::GzDecoder`): a stream that does not unpack
/// breaks the walk where it stops.
pub uninterp spec fn parsed_gz_tar(blob: Seq<u8>) -> TarWalk;

/// [`tar_contents`] over the gzip stream in `blob`, unpacked as it is read
/// (see [`parsed_gz_tar`]); contents that do not unpack break the walk at
/// their entry.
#[verifier::external_body]
pub(crate) fn gz_tar_contents(blob: &[u8]) -> (r: (Vec<Vec<u8>>, Option<TarBreak>))
    ensures
        r.0@.len() == parsed_gz_tar(blob@).records.len(),
        forall|i: int| 0 <= i < r.0@.len() ==> (#[trigger] r.0@[i])@ == parsed_gz_tar(blob@).records[i].data@,
        end_of(r.1) == parsed_gz_tar(blob@).end,
{
    let (mut out, mut archive) = (Vec::new(), tar::Archive::new(flate2::read::GzDecoder::new(blob)));
    let entries = match archive.entries() { Ok(x) => x, Err(e) => return (out, Some(TarBreak::Open(e.to_string()))) };
    for e in entries {
        let mut e = match e { Ok(e) => e, Err(e) => return (out, Some(TarBreak::Entry(e.to_string()))) };
        let mut data = Vec::new();
        if let Err(x) = std::io::Read::read_to_end(&mut e, &mut data) { return (out, Some(TarBreak::Entry(x.to_string()))); }
        out.push(data);
    }
    (out, None)
}

/// [`tar_names`] over the gzip stream in `blob`, unpacked as it is read
/// (see [`parsed_gz_tar`]).
#[verifier::external_body]
pub(crate) fn gz_tar_names(blob: &[u8]) -> (r: Vec<TarName>)
    ensures
        r@.len() >= parsed_gz_tar(blob@).records.len(),
        forall|i: int| 0 <= i < parsed_gz_tar(blob@).records.len() ==> name_is(r@[i], #[trigger] parsed_gz_tar(blob@).records[i]),
{
    let (mut out, mut archive) = (Vec::new(), tar::Archive::new(flate2::read::GzDecoder::new(blob)));
    if let Ok(entries) = archive.entries() {
        for e in entries {
            let Ok(e) = e else { break };
            let (path, path_error) = match e.path() { Ok(p) => (p.to_string_lossy().into_owned(), None), Err(x) => (String::new(), Some(x.to_string())) };
            let link = e.link_name().ok().flatten().map(|l| l.to_string_lossy().into_owned());
            out.push(TarName { path, path_error, link, typeflag: e.header().entry_type().as_byte() });
        }
    }
    out
}

/// [`tar_numbers`] over the gzip stream in `blob`, unpacked as it is read
/// (see [`parsed_gz_tar`]).
#[verifier::external_body]
pub(crate) fn gz_tar_numbers(blob: &[u8]) -> (r: Vec<TarNumbers>)
    ensures
        r@.len() >= parsed_gz_tar(blob@).records.len(),
        forall|i: int| 0 <= i < parsed_gz_tar(blob@).records.len() ==> r@[i] == numbers_of(#[trigger] parsed_gz_tar(blob@).records[i]),
{
    let (mut out, mut archive) = (Vec::new(), tar::Archive::new(flate2::read::GzDecoder::new(blob)));
    if let Ok(entries) = archive.entries() {
        for e in entries {
            let Ok(e) = e else { break };
            let h = e.header();
            out.push(TarNumbers { mode: h.mode().ok(), uid: h.uid().ok(), gid: h.gid().ok(), mtime: h.mtime().ok(), size: h.size().ok(), device_major: h.device_major().ok().flatten(), device_minor: h.device_minor().ok().flatten() });
        }
    }
    out
}

/// `tar::Archive::entries` over `tar`, each entry's header numbers
/// (`Header::mode`, `uid`, `gid`, `mtime`, `size`, `device_major`,
/// `device_minor`), until an entry does not read: the same walk over the
/// same headers as [`tar_contents`], which stops there too, or earlier.
#[verifier::external_body]
pub(crate) fn tar_numbers(tar: &[u8]) -> (r: Vec<TarNumbers>)
    ensures
        r@.len() >= parsed_tar(tar@).records.len(),
        forall|i: int| 0 <= i < parsed_tar(tar@).records.len() ==> r@[i] == numbers_of(#[trigger] parsed_tar(tar@).records[i]),
{
    let (mut out, mut archive) = (Vec::new(), tar::Archive::new(tar));
    if let Ok(entries) = archive.entries() {
        for e in entries {
            let Ok(e) = e else { break };
            let h = e.header();
            out.push(TarNumbers { mode: h.mode().ok(), uid: h.uid().ok(), gid: h.gid().ok(), mtime: h.mtime().ok(), size: h.size().ok(), device_major: h.device_major().ok().flatten(), device_minor: h.device_minor().ok().flatten() });
        }
    }
    out
}

/// The kind a type flag names, as `tar::EntryType::new` reads it (the
/// flag `as_byte` gives back; `\0` reads as `0`).
pub open spec fn spec_entry_kind(typeflag: u8) -> EntryKind {
    if typeflag == 48 || typeflag == 0 {
        EntryKind::Regular
    } else if typeflag == 49 {
        EntryKind::Link
    } else if typeflag == 50 {
        EntryKind::Symlink
    } else if typeflag == 51 {
        EntryKind::Char
    } else if typeflag == 52 {
        EntryKind::Block
    } else if typeflag == 53 {
        EntryKind::Directory
    } else if typeflag == 54 {
        EntryKind::Fifo
    } else if typeflag == 55 {
        EntryKind::Continuous
    } else {
        EntryKind::Other
    }
}

/// The kind of a type flag (see [`spec_entry_kind`]).
pub fn entry_kind(typeflag: u8) -> (k: EntryKind)
    ensures
        k == spec_entry_kind(typeflag),
{
    if typeflag == 48 || typeflag == 0 {
        EntryKind::Regular
    } else if typeflag == 49 {
        EntryKind::Link
    } else if typeflag == 50 {
        EntryKind::Symlink
    } else if typeflag == 51 {
        EntryKind::Char
    } else if typeflag == 52 {
        EntryKind::Block
    } else if typeflag == 53 {
        EntryKind::Directory
    } else if typeflag == 54 {
        EntryKind::Fifo
    } else if typeflag == 55 {
        EntryKind::Continuous
    } else {
        EntryKind::Other
    }
}

/// A tar record as the entry the archive is built from.
pub open spec fn spec_tar_entry(r: TarRecord) -> TarEntry {
    TarEntry {
        path: r.path,
        kind: spec_entry_kind(r.typeflag),
        mode: r.mode,
        uid: r.uid,
        gid: r.gid,
        mtime: r.mtime,
        size: r.size,
        link: r.link,
        data: r.data,
        device_major: r.device_major,
        device_minor: r.device_minor,
    }
}

/// An entry's contents as plain values: its texts by their views.
pub open spec fn entry_view(e: TarEntry) -> (Seq<char>, EntryKind, TarNumbers, Option<Seq<char>>, Seq<u8>) {
    (
        e.path@,
        e.kind,
        TarNumbers {
            mode: e.mode,
            uid: e.uid,
            gid: e.gid,
            mtime: e.mtime,
            size: e.size,
            device_major: e.device_major,
            device_minor: e.device_minor,
        },
        crate::initrd::opt_text(e.link),
        e.data@,
    )
}

pub open spec fn entry_views(es: Seq<TarEntry>) -> Seq<(Seq<char>, EntryKind, TarNumbers, Option<Seq<char>>, Seq<u8>)> {
    es.map_values(|e: TarEntry| entry_view(e))
}

/// What the archive is built from for the records `rs`.
pub open spec fn tar_entries_of(rs: Seq<TarRecord>) -> Seq<TarEntry> {
    rs.map_values(|r: TarRecord| spec_tar_entry(r))
}

/// The first of `rs[from..]` whose path does not read.
pub open spec fn first_path_error(rs: Seq<TarRecord>, from: int) -> Option<int>
    decreases rs.len() - from,
{
    if from < 0 || from >= rs.len() {
        None
    } else if rs[from].path_error is Some {
        Some(from)
    } else {
        first_path_error(rs, from + 1)
    }
}

/// The records an archive is built from: those before the first whose
/// path does not read.
pub open spec fn usable(w: TarWalk) -> Seq<TarRecord> {
    match first_path_error(w.records, 0) {
        Some(k) => w.records.take(k),
        None => w.records,
    }
}

/// Why the archive cannot be finished once the usable records are
/// written: a path that does not read, as the error says, or the walk
/// breaking, as `reading tar: {why}`.
pub open spec fn tar_stop(w: TarWalk) -> Option<Seq<char>> {
    match first_path_error(w.records, 0) {
        Some(k) => crate::initrd::opt_text(w.records[k].path_error),
        None => match w.end {
            TarEnd::Done => None,
            TarEnd::Open(why) => Some("reading tar: "@ + why),
            TarEnd::Entry(why) => Some("reading tar: "@ + why),
        },
    }
}

proof fn lemma_first_path_error(rs: Seq<TarRecord>, from: int, i: int)
    requires
        0 <= from <= i <= rs.len(),
        forall|j: int| from <= j < i ==> (#[trigger] rs[j]).path_error is None,
    ensures
        first_path_error(rs, from) == first_path_error(rs, i),
    decreases i - from,
{
    if from < i {
        lemma_first_path_error(rs, from + 1, i);
    }
}

/// `reading tar: {why}`.
fn reading_tar(why: String) -> (m: String)
    ensures
        m@ == "reading tar: "@ + why@,
{
    let mut m = "reading tar: ".to_owned();
    push_str(&mut m, why.as_str());
    m
}

/// The entries of `tar` an archive is built from, and why it cannot be
/// finished after them, if it cannot (see [`usable`] and [`tar_stop`]).
pub fn tar_entries(tar: &[u8]) -> (r: (Vec<TarEntry>, Option<String>))
    ensures
        entry_views(r.0@) == entry_views(tar_entries_of(usable(parsed_tar(tar@)))),
        crate::initrd::opt_text(r.1) == tar_stop(parsed_tar(tar@)),
{
    let (contents, brk) = tar_contents(tar);
    let names = tar_names(tar);
    let numbers = tar_numbers(tar);
    let ghost w = parsed_tar(tar@);
    let ghost rs = w.records;
    let mut contents = contents;
    let mut out: Vec<TarEntry> = Vec::new();
    let mut i: usize = 0;
    let ghost n = rs.len();
    let count: usize = numbers.len();
    let named: usize = names.len();
    while contents.len() > 0
        invariant
            i + contents@.len() == n,
            n == rs.len(),
            rs == parsed_tar(tar@).records,
            w == parsed_tar(tar@),
            n <= numbers@.len(),
            numbers@.len() == count,
            n <= names@.len(),
            names@.len() == named,
            forall|k: int| 0 <= k < n ==> numbers@[k] == numbers_of(#[trigger] rs[k]),
            forall|k: int| 0 <= k < n ==> name_is(names@[k], #[trigger] rs[k]),
            forall|k: int| 0 <= k < contents@.len() ==> (#[trigger] contents@[k])@ == rs[i + k].data@,
            forall|j: int| 0 <= j < i ==> (#[trigger] rs[j]).path_error is None,
            entry_views(out@) == entry_views(tar_entries_of(rs.take(i as int))),
        decreases contents@.len(),
    {
        let ghost before = contents@;
        let data = contents.remove(0);
        assert(before[0] == data);
        assert(rs[i + 0] == rs[i as int]);
        let nm = &names[i];
        assert(name_is(*nm, rs[i as int]));
        if let Some(e) = &nm.path_error {
            proof {
                lemma_first_path_error(rs, 0, i as int);
                assert(usable(w) == rs.take(i as int));
            }
            return (out, Some(e.clone()));
        }
        let x = numbers[i];
        assert(x == numbers_of(rs[i as int]));
        let link = match &nm.link {
            Some(l) => Some(l.clone()),
            None => None,
        };
        let e = TarEntry {
            path: nm.path.clone(),
            kind: entry_kind(nm.typeflag),
            mode: x.mode,
            uid: x.uid,
            gid: x.gid,
            mtime: x.mtime,
            size: x.size,
            link,
            data,
            device_major: x.device_major,
            device_minor: x.device_minor,
        };
        let ghost out_before = out@;
        proof {
            assert(entry_view(e) == entry_view(spec_tar_entry(rs[i as int])));
        }
        out.push(e);
        proof {
            assert(rs.take(i + 1) =~= rs.take(i as int).push(rs[i as int]));
            assert(tar_entries_of(rs.take(i + 1)) =~= tar_entries_of(rs.take(i as int)).push(spec_tar_entry(rs[i as int])));
            assert(entry_views(out@) =~= entry_views(out_before).push(entry_view(e)));
            assert(entry_views(tar_entries_of(rs.take(i + 1))) =~= entry_views(tar_entries_of(rs.take(i as int))).push(
                entry_view(spec_tar_entry(rs[i as int])),
            ));
            assert forall|k: int| 0 <= k < contents@.len() implies (#[trigger] contents@[k])@ == rs[(i + 1) + k].data@ by {
                assert(contents@[k] == before[k + 1]);
                assert(rs[(i + 1) + k] == rs[i + (k + 1)]);
            }
        }
        i += 1;
        assert(entry_views(out@) =~= entry_views(tar_entries_of(rs.take(i as int))));
    }
    proof {
        assert(rs.take(i as int) =~= rs);
        lemma_first_path_error(rs, 0, i as int);
        assert(first_path_error(rs, i as int) is None);
        assert(usable(w) == rs);
    }
    let stop = match brk {
        None => None,
        Some(TarBreak::Open(why)) => Some(reading_tar(why)),
        Some(TarBreak::Entry(why)) => Some(reading_tar(why)),
    };
    (out, stop)
}

/// Entries with the same contents are planned the same.
proof fn lemma_same_views_same_plan(a: Seq<TarEntry>, b: Seq<TarEntry>)
    requires
        entry_views(a) == entry_views(b),
    ensures
        plan(a) == plan(b),
        forall|i: int| 0 <= i < a.len() ==> entry_fails(#[trigger] a[i]) == entry_fails(b[i]),
        a.len() == b.len(),
    decreases a.len(),
{
    assert(a.len() == entry_views(a).len());
    assert forall|i: int| 0 <= i < a.len() implies entry_fails(#[trigger] a[i]) == entry_fails(b[i])
        && planned_of(a[i]) == planned_of(b[i]) && entry_name(a[i]) == entry_name(b[i]) by {
        assert(entry_views(a)[i] == entry_views(b)[i]);
        lemma_same_view_same_entry(a[i], b[i]);
    }
    lemma_same_plan_entries(a, b);
    assert(has_etc(a) == has_etc(b)) by {
        if has_etc(a) {
            let j = choose|j: int| 0 <= j < a.len() && entry_name(#[trigger] a[j]) == Some("etc"@);
            assert(entry_name(b[j]) == Some("etc"@));
        }
        if has_etc(b) {
            let j = choose|j: int| 0 <= j < b.len() && entry_name(#[trigger] b[j]) == Some("etc"@);
            assert(entry_name(a[j]) == Some("etc"@));
        }
    }
}

proof fn lemma_same_view_same_entry(a: TarEntry, b: TarEntry)
    requires
        entry_view(a) == entry_view(b),
    ensures
        entry_fails(a) == entry_fails(b),
        planned_of(a) == planned_of(b),
        entry_name(a) == entry_name(b),
        entry_error(a) == entry_error(b),
{
    assert(link_target(a.link) == link_target(b.link));
    assert(entry_attrs(a) == entry_attrs(b));
}

proof fn lemma_same_views_first_failing(a: Seq<TarEntry>, b: Seq<TarEntry>, from: int)
    requires
        entry_views(a) == entry_views(b),
    ensures
        first_failing(a, from) == first_failing(b, from),
        first_failing(a, from) matches Some(i) ==> entry_error(a[i]) == entry_error(b[i]),
    decreases a.len() - from,
{
    assert(a.len() == entry_views(a).len());
    assert(b.len() == entry_views(b).len());
    if 0 <= from < a.len() {
        assert(entry_views(a)[from] == entry_views(b)[from]);
        lemma_same_view_same_entry(a[from], b[from]);
        lemma_same_views_first_failing(a, b, from + 1);
    }
}

proof fn lemma_same_plan_entries(a: Seq<TarEntry>, b: Seq<TarEntry>)
    requires
        a.len() == b.len(),
        forall|i: int| 0 <= i < a.len() ==> #[trigger] planned_of(a[i]) == planned_of(b[i]),
    ensures
        plan_entries(a) == plan_entries(b),
    decreases a.len(),
{
    if a.len() > 0 {
        lemma_same_plan_entries(a.drop_last(), b.drop_last());
        assert(planned_of(a[a.len() - 1]) == planned_of(b[b.len() - 1]));
    }
}

/// A `docker export` tar stream as the newc archive the guest boots
/// (see [`from_entries`]), or why it is not one: it has more entries than
/// a newc archive can number, an entry cannot be written, a path does not
/// read or the tar breaks off (see [`tar_stop`]), whichever comes first.
pub fn from_tar(tar: &[u8]) -> (r: Result<(Vec<u8>, Stats), String>)
    ensures
        ({
            let w = parsed_tar(tar@);
            let es = tar_entries_of(usable(w));
            &&& es.len() + 8 > u32::MAX ==> (r matches Err(m) && m@
                == "the image has more entries than a newc archive can number"@)
            &&& es.len() + 8 <= u32::MAX ==> match first_failing(es, 0) {
                Some(i) => r matches Err(m) && m@ == entry_error(es[i]),
                None => match tar_stop(w) {
                    Some(why) => r matches Err(m) && m@ == why,
                    None => r matches Ok((bytes, stats)) && bytes@ == archive(numbered(plan(es))) && stats == (Stats {
                        entries: (plan(es).len() - 2) as u64,
                        bytes: data_bytes(numbered(plan(es))) as u64,
                    }),
                },
            }
        }),
{
    let (entries, stop) = tar_entries(tar);
    proof {
        lemma_same_views_same_plan(entries@, tar_entries_of(usable(parsed_tar(tar@))));
        lemma_same_views_first_failing(entries@, tar_entries_of(usable(parsed_tar(tar@))), 0);
    }
    if entries.len() as u64 > 4294967287u64 {
        return Err("the image has more entries than a newc archive can number".to_owned());
    }
    from_entries(&entries, &stop)
}

/// An entry of the archive-to-be, before it has an inode number.
pub struct Planned {
    pub name: Seq<u8>,
    pub mode: u32,
    pub attrs: Attrs,
    pub nlink: u32,
    pub rdev: (u32, u32),
    pub data: Seq<u8>,
}

pub open spec fn or_zero(x: Option<u64>) -> u64 {
    match x {
        Some(v) => v,
        None => 0,
    }
}

/// The attributes a tar entry carries, `0o644` when it has no mode.
pub open spec fn entry_attrs(e: TarEntry) -> Attrs {
    Attrs {
        mode: match e.mode {
            Some(m) => m,
            None => 0o644,
        },
        uid: or_zero(e.uid) as u32,
        gid: or_zero(e.gid) as u32,
        mtime: or_zero(e.mtime) as u32,
    }
}

/// The name an entry is archived under, if it is archived at all: not the
/// root, and not one of the fixed `/etc` files.
pub open spec fn entry_name(e: TarEntry) -> Option<Seq<char>> {
    match spec_normalize(e.path@) {
        Some(n) => if is_fixed_etc(n) {
            None
        } else {
            Some(n)
        },
        None => None,
    }
}

/// What an entry of a given kind becomes: a directory, a file with its
/// first `size` bytes, a symlink, a hard link as an absolute symlink to
/// its target (the archive is streamed, so the target's data is gone when
/// the link arrives), a device or FIFO; nothing for any other kind.
pub open spec fn plan_entry(e: TarEntry, name: Seq<char>) -> Option<Planned> {
    let a = entry_attrs(e);
    let n = vstd::utf8::encode_utf8(name);
    let perm = a.mode & 0o7777;
    match e.kind {
        EntryKind::Directory => Some(Planned { name: n, mode: S_IFDIR | perm, attrs: a, nlink: 2, rdev: (0, 0), data: seq![] }),
        EntryKind::Regular | EntryKind::Continuous => Some(Planned { name: n, mode: S_IFREG | perm, attrs: a, nlink: 1, rdev: (0, 0), data: e.data@.subrange(0, or_zero(e.size) as int) }),
        EntryKind::Symlink => Some(Planned { name: n, mode: S_IFLNK | 0o777, attrs: a, nlink: 1, rdev: (0, 0), data: vstd::utf8::encode_utf8(match e.link { Some(l) => l@, None => seq![] }) }),
        EntryKind::Link => Some(Planned { name: n, mode: S_IFLNK | 0o777, attrs: a, nlink: 1, rdev: (0, 0), data: vstd::utf8::encode_utf8(seq!['/'] + link_target(e.link)) }),
        EntryKind::Char | EntryKind::Block | EntryKind::Fifo => Some(Planned {
            name: n,
            mode: (if e.kind == EntryKind::Char { S_IFCHR } else if e.kind == EntryKind::Block { S_IFBLK } else { S_IFIFO }) | perm,
            attrs: a,
            nlink: 1,
            rdev: (match e.device_major { Some(x) => x, None => 0 }, match e.device_minor { Some(x) => x, None => 0 }),
            data: seq![],
        }),
        EntryKind::Other => None,
    }
}

/// A hard link's target as a name, empty when it has none.
pub open spec fn link_target(link: Option<String>) -> Seq<char> {
    match link {
        Some(l) => match spec_normalize(l@) {
            Some(n) => n,
            None => seq![],
        },
        None => seq![],
    }
}

/// What an entry becomes in the archive, if anything.
pub open spec fn planned_of(e: TarEntry) -> Option<Planned> {
    match entry_name(e) {
        Some(name) => plan_entry(e, name),
        None => None,
    }
}

/// An entry that cannot be archived: a name of 4 GiB or more, a file
/// whose size a newc entry cannot hold or whose contents run short, a link
/// target too long.
pub open spec fn entry_fails(e: TarEntry) -> bool {
    match planned_of(e) {
        Some(p) => p.name.len() >= u32::MAX || match e.kind {
            EntryKind::Regular | EntryKind::Continuous => or_zero(e.size) > u32::MAX || or_zero(e.size) > e.data@.len(),
            _ => p.data.len() > u32::MAX,
        },
        None => false,
    }
}

/// The first of `es[from..]` that cannot be archived.
pub open spec fn first_failing(es: Seq<TarEntry>, from: int) -> Option<int>
    decreases es.len() - from,
{
    if from < 0 || from >= es.len() {
        None
    } else if entry_fails(es[from]) {
        Some(from)
    } else {
        first_failing(es, from + 1)
    }
}

proof fn lemma_first_failing(es: Seq<TarEntry>, from: int, i: int)
    requires
        0 <= from <= i <= es.len(),
        forall|j: int| from <= j < i ==> !entry_fails(#[trigger] es[j]),
    ensures
        first_failing(es, from) == first_failing(es, i),
    decreases i - from,
{
    if from < i {
        lemma_first_failing(es, from + 1, i);
    }
}

/// `{name}: {n} bytes, over the 4 GiB a newc entry can hold`.
pub open spec fn too_big(name: Seq<char>, n: nat) -> Seq<char> {
    name + ": "@ + decimal(n) + " bytes, over the 4 GiB a newc entry can hold"@
}

/// `{name}: {copied} of {size} bytes`.
pub open spec fn short_read(name: Seq<char>, copied: nat, size: nat) -> Seq<char> {
    name + ": "@ + decimal(copied) + " of "@ + decimal(size) + " bytes"@
}

/// Why an entry that cannot be archived is refused: `writing {name}: `
/// and then a name of 4 GiB or more, a size a newc entry cannot hold, or
/// contents that run short.
pub open spec fn entry_error(e: TarEntry) -> Seq<char> {
    let n = match entry_name(e) {
        Some(n) => n,
        None => seq![],
    };
    let p = match planned_of(e) {
        Some(p) => p,
        None => root_planned(),
    };
    "writing "@ + n + ": "@ + if p.name.len() >= u32::MAX {
        "a name of 4 GiB or more"@
    } else {
        match e.kind {
            EntryKind::Regular | EntryKind::Continuous => if or_zero(e.size) > u32::MAX {
                too_big(n, or_zero(e.size) as nat)
            } else {
                short_read(n, e.data@.len(), or_zero(e.size) as nat)
            },
            _ => too_big(n, p.data.len()),
        }
    }
}

proof fn lemma_type_and_permissions(t: u32, m: u32)
    requires
        t & 0o7777u32 == 0,
    ensures
        (t | (m & 0o7777u32)) & 0o7777u32 == m & 0o7777u32,
        (t | (m & 0o7777u32)) & 0o170000u32 == t & 0o170000u32,
{
    assert((t | (m & 0o7777u32)) & 0o7777u32 == m & 0o7777u32) by (bit_vector)
        requires
            t & 0o7777u32 == 0,
    ;
    assert((t | (m & 0o7777u32)) & 0o170000u32 == t & 0o170000u32) by (bit_vector);
}

/// An archived entry keeps what its tar header says: a directory, file,
/// device or FIFO keeps its permission bits (`0o644` when the header has
/// none) under the type bits of its kind, a link is `0o777`, and the
/// owner and time are the header's.
pub proof fn law_entries_keep_their_permissions(e: TarEntry)
    requires
        planned_of(e) is Some,
    ensures
        ({
            let p = planned_of(e)->0;
            let perm: u32 = match e.mode {
                Some(m) => m,
                None => 0o644,
            } & 0o7777u32;
            &&& e.kind != EntryKind::Symlink && e.kind != EntryKind::Link ==> p.mode & 0o7777u32 == perm
            &&& e.kind == EntryKind::Directory ==> p.mode & 0o170000u32 == S_IFDIR
            &&& (e.kind == EntryKind::Regular || e.kind == EntryKind::Continuous) ==> p.mode & 0o170000u32
                == S_IFREG
            &&& e.kind == EntryKind::Char ==> p.mode & 0o170000u32 == S_IFCHR
            &&& e.kind == EntryKind::Block ==> p.mode & 0o170000u32 == S_IFBLK
            &&& e.kind == EntryKind::Fifo ==> p.mode & 0o170000u32 == S_IFIFO
            &&& (e.kind == EntryKind::Symlink || e.kind == EntryKind::Link) ==> p.mode == S_IFLNK | 0o777u32
            &&& p.attrs.uid == (match e.uid {
                Some(u) => u,
                None => 0,
            }) as u32
            &&& p.attrs.gid == (match e.gid {
                Some(g) => g,
                None => 0,
            }) as u32
            &&& p.attrs.mtime == (match e.mtime {
                Some(t) => t,
                None => 0,
            }) as u32
        }),
{
    let m: u32 = match e.mode {
        Some(m) => m,
        None => 0o644,
    };
    assert(0o040000u32 & 0o7777u32 == 0 && 0o040000u32 & 0o170000u32 == 0o040000u32) by (bit_vector);
    assert(0o100000u32 & 0o7777u32 == 0 && 0o100000u32 & 0o170000u32 == 0o100000u32) by (bit_vector);
    assert(0o020000u32 & 0o7777u32 == 0 && 0o020000u32 & 0o170000u32 == 0o020000u32) by (bit_vector);
    assert(0o060000u32 & 0o7777u32 == 0 && 0o060000u32 & 0o170000u32 == 0o060000u32) by (bit_vector);
    assert(0o010000u32 & 0o7777u32 == 0 && 0o010000u32 & 0o170000u32 == 0o010000u32) by (bit_vector);
    lemma_type_and_permissions(S_IFDIR, m);
    lemma_type_and_permissions(S_IFREG, m);
    lemma_type_and_permissions(S_IFCHR, m);
    lemma_type_and_permissions(S_IFBLK, m);
    lemma_type_and_permissions(S_IFIFO, m);
}

/// The entries the tar's entries become, in order.
pub open spec fn plan_entries(es: Seq<TarEntry>) -> Seq<Planned>
    decreases es.len(),
{
    if es.len() == 0 {
        seq![]
    } else {
        let rest = plan_entries(es.drop_last());
        match planned_of(es.last()) {
            Some(p) => rest.push(p),
            None => rest,
        }
    }
}

/// Whether some entry is archived as `etc`.
pub open spec fn has_etc(es: Seq<TarEntry>) -> bool {
    exists|i: int| 0 <= i < es.len() && entry_name(#[trigger] es[i]) == Some("etc"@)
}

pub open spec fn root_planned() -> Planned {
    Planned { name: seq![46u8], mode: S_IFDIR | 0o755, attrs: Attrs { mode: 0, uid: 0, gid: 0, mtime: 0 }, nlink: 2, rdev: (0, 0), data: seq![] }
}

pub open spec fn fixed_planned(i: int) -> Planned {
    Planned {
        name: vstd::utf8::encode_utf8(fixed_etc_name(i)),
        mode: S_IFREG | (0o644u32 & 0o7777u32),
        attrs: Attrs { mode: 0o644, uid: 0, gid: 0, mtime: 0 },
        nlink: 1,
        rdev: (0, 0),
        data: vstd::utf8::encode_utf8(fixed_etc_text(i)),
    }
}

pub open spec fn etc_planned() -> Planned {
    Planned { name: vstd::utf8::encode_utf8("etc"@), mode: S_IFDIR | (0o755u32 & 0o7777u32), attrs: Attrs { mode: 0o755, uid: 0, gid: 0, mtime: 0 }, nlink: 2, rdev: (0, 0), data: seq![] }
}

/// Everything the archive holds, in order: the root, the entries, `etc`
/// when no entry was, the fixed `/etc` files, and the trailer.
pub open spec fn plan(es: Seq<TarEntry>) -> Seq<Planned> {
    seq![root_planned()] + plan_entries(es) + (if has_etc(es) { seq![] } else { seq![etc_planned()] })
        + seq![fixed_planned(0), fixed_planned(1), fixed_planned(2)] + seq![
        Planned { name: trailer_name(), mode: 0, attrs: Attrs { mode: 0, uid: 0, gid: 0, mtime: 0 }, nlink: 1, rdev: (0, 0), data: seq![] },
    ]
}

/// A name with nothing left to strip: not empty, not `.`, not starting
/// with `/` or `./`, not ending with `/`.
pub open spec fn is_bare(n: Seq<char>) -> bool {
    &&& n.len() > 0
    &&& n != seq!['.']
    &&& n[0] != '/'
    &&& !(n.len() >= 2 && n[0] == '.' && n[1] == '/')
    &&& n.last() != '/'
}

/// Each entry the tar's entries become is one of them, under its name.
proof fn lemma_plan_entries_from(es: Seq<TarEntry>)
    ensures
        plan_entries(es).len() <= es.len(),
        forall|i: int| #![trigger plan_entries(es)[i]] 0 <= i < plan_entries(es).len() ==> exists|j: int|
            0 <= j < es.len() && #[trigger] planned_of(es[j]) == Some(plan_entries(es)[i]),
    decreases es.len(),
{
    if es.len() > 0 {
        let init = es.drop_last();
        lemma_plan_entries_from(init);
        let body = plan_entries(es);
        assert forall|i: int| #![trigger body[i]] 0 <= i < body.len() implies exists|j: int|
            0 <= j < es.len() && #[trigger] planned_of(es[j]) == Some(body[i]) by {
            if i < plan_entries(init).len() {
                let j = choose|j: int| 0 <= j < init.len() && #[trigger] planned_of(init[j]) == Some(plan_entries(init)[i]);
                assert(es[j] == init[j]);
            } else {
                assert(planned_of(es[es.len() - 1]) == Some(body[i]));
            }
        }
    }
}

/// What an entry becomes carries its name, which is bare and not one of
/// the fixed `/etc` files.
proof fn lemma_planned_name(e: TarEntry)
    ensures
        planned_of(e) matches Some(p) ==> ({
            let n = entry_name(e)->0;
            &&& entry_name(e) is Some
            &&& is_bare(n)
            &&& !is_fixed_etc(n)
            &&& p.name == vstd::utf8::encode_utf8(n)
        }),
{
    law_normalized_names_are_bare(e.path@);
}

/// The archive a tar becomes is laid out as the kernel takes it: the root
/// `.` first; then what the tar's entries become, each under a bare name
/// that is none of the fixed `/etc` files; an `etc` directory exactly when
/// no entry was archived as `etc`; the fixed `/etc` files with their text;
/// and the trailer last.
pub proof fn law_archive_layout(es: Seq<TarEntry>)
    ensures
        ({
            let ps = plan(es);
            let body = plan_entries(es);
            let extra: int = if has_etc(es) { 0 } else { 1 };
            &&& ps.len() == body.len() + extra + 5
            &&& ps[0] == root_planned()
            &&& forall|i: int| #![trigger ps[i]] 1 <= i <= body.len() ==> exists|j: int|
                0 <= j < es.len() && #[trigger] planned_of(es[j]) == Some(ps[i]) && is_bare(entry_name(es[j])->0)
                    && !is_fixed_etc(entry_name(es[j])->0) && ps[i].name == vstd::utf8::encode_utf8(
                    entry_name(es[j])->0,
                )
            &&& !has_etc(es) ==> ps[body.len() as int + 1] == etc_planned()
            &&& ps[body.len() + extra + 1] == fixed_planned(0)
            &&& ps[body.len() + extra + 2] == fixed_planned(1)
            &&& ps[body.len() + extra + 3] == fixed_planned(2)
            &&& ps[body.len() + extra + 4].name == trailer_name()
        }),
{
    let ps = plan(es);
    let body = plan_entries(es);
    lemma_plan_entries_from(es);
    assert forall|i: int| #![trigger ps[i]] 1 <= i <= body.len() implies exists|j: int|
        0 <= j < es.len() && #[trigger] planned_of(es[j]) == Some(ps[i]) && is_bare(entry_name(es[j])->0)
            && !is_fixed_etc(entry_name(es[j])->0) && ps[i].name == vstd::utf8::encode_utf8(entry_name(es[j])->0) by {
        assert(ps[i] == body[i - 1]);
        let j = choose|j: int| 0 <= j < es.len() && #[trigger] planned_of(es[j]) == Some(body[i - 1]);
        lemma_planned_name(es[j]);
    }
}

/// A planned entry under inode number `ino`.
pub open spec fn rec_of(p: Planned, ino: int) -> Record {
    Record { ino: ino as u32, name: p.name, mode: p.mode, attrs: p.attrs, nlink: p.nlink, rdev: p.rdev, data: p.data }
}

/// Planned entries numbered from inode 1.
pub open spec fn numbered(ps: Seq<Planned>) -> Seq<Record> {
    Seq::new(ps.len(), |i: int| rec_of(ps[i], i + 1))
}

proof fn lemma_numbered_push(ps: Seq<Planned>, p: Planned)
    ensures
        numbered(ps.push(p)) == numbered(ps).push(rec_of(p, ps.len() as int + 1)),
{
    assert(numbered(ps.push(p)) =~= numbered(ps).push(rec_of(p, ps.len() as int + 1)));
}

proof fn lemma_has_etc_step(es: Seq<TarEntry>, i: int)
    requires
        0 <= i < es.len(),
    ensures
        has_etc(es.take(i + 1)) == (has_etc(es.take(i)) || entry_name(es[i]) == Some("etc"@)),
{
    let a = es.take(i);
    let b = es.take(i + 1);
    if has_etc(a) {
        let j = choose|j: int| 0 <= j < a.len() && entry_name(#[trigger] a[j]) == Some("etc"@);
        assert(b[j] == a[j]);
    }
    if entry_name(es[i]) == Some("etc"@) {
        assert(b[i] == es[i]);
    }
    if has_etc(b) {
        let j = choose|j: int| 0 <= j < b.len() && entry_name(#[trigger] b[j]) == Some("etc"@);
        if j < i {
            assert(a[j] == b[j]);
        }
    }
}

/// `writing {name}: {why}`.
fn writing_error(name: &str, why: &str) -> (msg: String)
    ensures
        msg@ == "writing "@ + name@ + ": "@ + why@,
{
    let mut msg = String::new();
    push_str(&mut msg, "writing ");
    push_str(&mut msg, name);
    push_str(&mut msg, ": ");
    push_str(&mut msg, why);
    msg
}

/// Archive one tar entry, if it is archived at all, and say whether it
/// was `etc`.
fn write_entry(w: &mut Writer, e: &TarEntry) -> (r: Result<bool, String>)
    requires
        old(w).wf(),
        old(w).has_room(),
    ensures
        r is Ok <==> !entry_fails(*e),
        r matches Err(m) ==> m@ == entry_error(*e),
        r matches Ok(is_etc) ==> is_etc == (entry_name(*e) == Some("etc"@)),
        r is Ok ==> final(w).wf() && match planned_of(*e) {
            Some(p) => final(w).records() == old(w).records().push(rec_of(p, old(w).last_ino() as int + 1))
                && final(w).last_ino() == old(w).last_ino() + 1,
            None => final(w).records() == old(w).records() && final(w).last_ino() == old(w).last_ino(),
        },
{
    let name = match normalize(e.path.as_str()) {
        Some(n) => n,
        None => {
            return Ok(false);
        },
    };
    let (f0, _) = fixed_etc(0);
    let (f1, _) = fixed_etc(1);
    let (f2, _) = fixed_etc(2);
    if same_text(name.as_str(), f0) || same_text(name.as_str(), f1) || same_text(name.as_str(), f2) {
        return Ok(false);
    }
    let is_etc = same_text(name.as_str(), "etc");
    let attrs = Attrs {
        mode: match e.mode {
            Some(m) => m,
            None => 0o644,
        },
        uid: (match e.uid {
            Some(x) => x,
            None => 0,
        }) as u32,
        gid: (match e.gid {
            Some(x) => x,
            None => 0,
        }) as u32,
        mtime: (match e.mtime {
            Some(x) => x,
            None => 0,
        }) as u32,
    };
    assert(attrs == entry_attrs(*e));
    match e.kind {
        EntryKind::Other => {
            return Ok(is_etc);
        },
        _ => {},
    }
    let nb = name.as_str().as_bytes();
    if nb.len() >= u32::MAX as usize {
        return Err(writing_error(name.as_str(), "a name of 4 GiB or more"));
    }
    let result = match e.kind {
        EntryKind::Directory => w.dir(name.as_str(), attrs),
        EntryKind::Regular | EntryKind::Continuous => {
            let size: u64 = match e.size {
                Some(x) => x,
                None => 0,
            };
            w.file(name.as_str(), attrs, size, e.data.as_slice())
        },
        EntryKind::Symlink => {
            proof {
                reveal_strlit("");
            }
            let target: &str = match &e.link {
                Some(l) => l.as_str(),
                None => "",
            };
            w.symlink(name.as_str(), target, attrs)
        },
        EntryKind::Link => {
            let target = match &e.link {
                Some(l) => match normalize(l.as_str()) {
                    Some(t) => t,
                    None => String::new(),
                },
                None => String::new(),
            };
            let mut t = String::new();
            push_char(&mut t, '/');
            push_str(&mut t, target.as_str());
            proof {
                assert(t@ =~= seq!['/'] + link_target(e.link));
            }
            w.symlink(name.as_str(), t.as_str(), attrs)
        },
        _ => {
            let bits: u32 = match e.kind {
                EntryKind::Char => S_IFCHR,
                EntryKind::Block => S_IFBLK,
                _ => S_IFIFO,
            };
            let major: u32 = match e.device_major {
                Some(x) => x,
                None => 0,
            };
            let minor: u32 = match e.device_minor {
                Some(x) => x,
                None => 0,
            };
            w.special(name.as_str(), bits, attrs, (major, minor))
        },
    };
    match result {
        Ok(()) => Ok(is_etc),
        Err(why) => Err(writing_error(name.as_str(), why.as_str())),
    }
}

/// Convert the entries of a filesystem tar, in their order, to a newc
/// archive: the root, each entry under its normalised name, `etc` when no
/// entry was, the three fixed `/etc` files, and the trailer.  `Err` names
/// the first entry that cannot be archived, or else is `stop`: why the tar
/// could not be read on after these entries.
#[verifier::rlimit(40)]
pub fn from_entries(entries: &Vec<TarEntry>, stop: &Option<String>) -> (r: Result<(Vec<u8>, Stats), String>)
    requires
        entries@.len() + 8 <= u32::MAX,
    ensures
        match first_failing(entries@, 0) {
            Some(i) => r matches Err(m) && m@ == entry_error(entries@[i]),
            None => match stop {
                Some(why) => r matches Err(m) && m@ == why@,
                None => r matches Ok((bytes, stats)) && bytes@ == archive(numbered(plan(entries@))) && stats == (Stats {
                    entries: (plan(entries@).len() - 2) as u64,
                    bytes: data_bytes(numbered(plan(entries@))) as u64,
                }),
            },
        },
{
    let mut w = Writer::new();
    let mut saw_etc = false;
    let mut i: usize = 0;
    proof {
        assert(numbered(seq![root_planned()]) =~= w.records());
        assert(plan_entries(entries@.take(0)) =~= Seq::<Planned>::empty());
        assert(seq![root_planned()] + plan_entries(entries@.take(0)) =~= seq![root_planned()]);
    }
    while i < entries.len()
        invariant
            i <= entries@.len(),
            entries@.len() + 8 <= u32::MAX,
            w.wf(),
            w.records() == numbered(seq![root_planned()] + plan_entries(entries@.take(i as int))),
            w.last_ino() == w.records().len(),
            w.last_ino() <= i + 1,
            saw_etc == has_etc(entries@.take(i as int)),
            forall|j: int| 0 <= j < i ==> !entry_fails(#[trigger] entries@[j]),
        decreases entries@.len() - i,
    {
        let ghost before = seq![root_planned()] + plan_entries(entries@.take(i as int));
        let r = write_entry(&mut w, &entries[i]);
        match r {
            Ok(is_etc) => {
                if is_etc {
                    saw_etc = true;
                }
            },
            Err(msg) => {
                proof {
                    lemma_first_failing(entries@, 0, i as int);
                }
                return Err(msg);
            },
        }
        proof {
            let es = entries@.take(i + 1);
            assert(es.drop_last() =~= entries@.take(i as int));
            assert(es.last() == entries@[i as int]);
            lemma_has_etc_step(entries@, i as int);
            match planned_of(entries@[i as int]) {
                Some(p) => {
                    lemma_numbered_push(before, p);
                    assert(before.push(p) =~= seq![root_planned()] + plan_entries(es));
                },
                None => {
                    assert(before =~= seq![root_planned()] + plan_entries(es));
                },
            }
        }
        i += 1;
    }
    proof {
        assert(entries@.take(i as int) =~= entries@);
        lemma_first_failing(entries@, 0, i as int);
    }
    if let Some(why) = stop {
        return Err(why.clone());
    }
    let ghost es = entries@;
    let ghost body = seq![root_planned()] + plan_entries(es);
    let ghost with_etc = body + (if has_etc(es) { seq![] } else { seq![etc_planned()] });
    if !saw_etc {
        proof {
            reveal_strlit("etc");
            lemma_utf8_len_bound("etc"@);
            lemma_numbered_push(body, etc_planned());
        }
        let _ = w.dir("etc", Attrs::root(0o755));
    }
    proof {
        assert(body + seq![] =~= body);
        assert(body.push(etc_planned()) =~= body + seq![etc_planned()]);
    }
    let ghost mut so_far = with_etc;
    let mut k: usize = 0;
    while k < 3
        invariant
            k <= 3,
            w.wf(),
            w.records() == numbered(so_far),
            so_far == with_etc + seq![fixed_planned(0), fixed_planned(1), fixed_planned(2)].take(k as int),
            w.last_ino() == w.records().len(),
            w.last_ino() <= entries@.len() + 2 + k,
            entries@.len() + 8 <= u32::MAX,
        decreases 3 - k,
    {
        let (name, contents) = fixed_etc(k);
        let cb = contents.as_bytes();
        let _ = w.file(name, Attrs::root(0o644), contents.len() as u64, cb);
        proof {
            assert(cb@.subrange(0, cb@.len() as int) =~= cb@);
            lemma_numbered_push(so_far, fixed_planned(k as int));
            assert(so_far.push(fixed_planned(k as int)) =~= with_etc + seq![
                fixed_planned(0),
                fixed_planned(1),
                fixed_planned(2),
            ].take(k + 1));
            so_far = so_far.push(fixed_planned(k as int));
        }
        k += 1;
    }
    let ghost trailer = Planned {
        name: trailer_name(),
        mode: 0,
        attrs: Attrs { mode: 0, uid: 0, gid: 0, mtime: 0 },
        nlink: 1,
        rdev: (0, 0),
        data: seq![],
    };
    proof {
        assert(so_far =~= with_etc + seq![fixed_planned(0), fixed_planned(1), fixed_planned(2)]);
        lemma_numbered_push(so_far, trailer);
        assert(so_far.push(trailer) =~= plan(es));
    }
    let (bytes, stats) = w.finish();
    proof {
        assert(data_bytes(numbered(plan(es))) == data_bytes(numbered(so_far))) by {
            assert(numbered(plan(es)).drop_last() =~= numbered(so_far));
        }
    }
    Ok((bytes, stats))
}

} // verus!
