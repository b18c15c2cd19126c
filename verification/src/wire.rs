//! The byte encodings the guest's host calls speak: little-endian status
//! words, packed socket addresses, and poll event bits.
use vstd::prelude::*;

use crate::addr::{IpAddress, SocketAddress};

verus! {

pub const AF_INET: i32 = 2;
pub const AF_INET6: i32 = 10;

pub const POLLIN: i16 = 0x001;
pub const POLLPRI: i16 = 0x002;
pub const POLLOUT: i16 = 0x004;
pub const POLLERR: i16 = 0x008;
pub const POLLHUP: i16 = 0x010;
pub const POLLNVAL: i16 = 0x020;

/// Byte `k` (0 the lowest) of `x`.
pub open spec fn byte_of(x: nat, k: nat) -> u8 {
    ((x / vstd::arithmetic::power::pow(256, k) as nat) % 256) as u8
}

/// The four bytes of `x`, least significant first.
pub open spec fn le_u32(x: u32) -> Seq<u8> {
    seq![byte_of(x as nat, 0), byte_of(x as nat, 1), byte_of(x as nat, 2), byte_of(x as nat, 3)]
}

/// The two's-complement bytes of `x`, least significant first.
pub open spec fn le_i32(x: i32) -> Seq<u8> {
    le_u32(x as u32)
}

/// The two bytes of `x`, least significant first.
pub open spec fn le_u16(x: u16) -> Seq<u8> {
    seq![byte_of(x as nat, 0), byte_of(x as nat, 1)]
}

/// The bytes of `x` most significant first, `n` of them.
pub open spec fn be_bytes(x: nat, n: nat) -> Seq<u8>
    decreases n,
{
    if n == 0 {
        seq![]
    } else {
        be_bytes(x / 256, (n - 1) as nat).push((x % 256) as u8)
    }
}

proof fn lemma_pow_small()
    ensures
        vstd::arithmetic::power::pow(256, 0) == 1,
        vstd::arithmetic::power::pow(256, 1) == 256,
        vstd::arithmetic::power::pow(256, 2) == 65536,
        vstd::arithmetic::power::pow(256, 3) == 16777216,
{
    reveal_with_fuel(vstd::arithmetic::power::pow, 4);
}

/// `x`'s four bytes, least significant first.
pub fn u32_le_bytes(x: u32) -> (v: Vec<u8>)
    ensures
        v@ == le_u32(x),
{
    proof {
        lemma_pow_small();
    }
    let v = vec![(x % 256) as u8, (x / 256 % 256) as u8, (x / 65536 % 256) as u8, (x / 16777216 % 256) as u8];
    assert(v@ =~= le_u32(x));
    v
}

/// `x`'s four two's-complement bytes, least significant first.
pub fn i32_le_bytes(x: i32) -> (v: Vec<u8>)
    ensures
        v@ == le_i32(x),
{
    u32_le_bytes(x as u32)
}

/// `x`'s two bytes, least significant first.
pub fn u16_le_bytes(x: u16) -> (v: Vec<u8>)
    ensures
        v@ == le_u16(x),
{
    proof {
        lemma_pow_small();
    }
    let v = vec![(x % 256) as u8, (x / 256 % 256) as u8];
    assert(v@ =~= le_u16(x));
    v
}

/// The `n` bytes of `x`, most significant first.
pub fn u128_be_bytes(x: u128, n: usize) -> (v: Vec<u8>)
    requires
        n <= 16,
    ensures
        v@ == be_bytes(x as nat, n as nat),
    decreases n,
{
    if n == 0 {
        Vec::new()
    } else {
        let mut v = u128_be_bytes(x / 256, n - 1);
        v.push((x % 256) as u8);
        v
    }
}

/// The family, port, length and address bytes of a socket address.
pub open spec fn packed_addr(addr: SocketAddress) -> Seq<u8> {
    match addr.ip {
        IpAddress::V4(a) => le_i32(AF_INET) + le_u16(addr.port) + seq![4u8] + be_bytes(a as nat, 4),
        IpAddress::V6(a) => le_i32(AF_INET6) + le_u16(addr.port) + seq![16u8] + be_bytes(a as nat, 16),
    }
}

/// The packing of "no address": family 0, port 0, length 0.
pub open spec fn packed_no_addr() -> Seq<u8> {
    le_i32(0) + le_u16(0) + seq![0u8]
}

/// Pack an address onto `buf`: family (i32), port (u16), address length
/// (u8) and the address bytes in network order.
pub fn pack_addr(buf: &mut Vec<u8>, addr: &SocketAddress)
    ensures
        final(buf)@ == old(buf)@ + packed_addr(*addr),
{
    match addr.ip {
        IpAddress::V4(a) => {
            let mut family = i32_le_bytes(AF_INET);
            let mut port = u16_le_bytes(addr.port);
            let mut octets = u128_be_bytes(a as u128, 4);
            buf.append(&mut family);
            buf.append(&mut port);
            buf.push(4);
            buf.append(&mut octets);
        },
        IpAddress::V6(a) => {
            let mut family = i32_le_bytes(AF_INET6);
            let mut port = u16_le_bytes(addr.port);
            let mut octets = u128_be_bytes(a, 16);
            buf.append(&mut family);
            buf.append(&mut port);
            buf.push(16);
            buf.append(&mut octets);
        },
    }
    assert(final(buf)@ =~= old(buf)@ + packed_addr(*addr)) by {
        let ghost w = packed_addr(*addr);
    };
}

/// Pack "no address" onto `buf`.
pub fn pack_no_addr(buf: &mut Vec<u8>)
    ensures
        final(buf)@ == old(buf)@ + packed_no_addr(),
{
    let mut family = i32_le_bytes(0);
    let mut port = u16_le_bytes(0);
    buf.append(&mut family);
    buf.append(&mut port);
    buf.push(0);
    assert(final(buf)@ =~= old(buf)@ + packed_no_addr());
}

/// A successful address result: status 0, then the packed address.
pub fn addr_result(sa: &SocketAddress) -> (v: Vec<u8>)
    ensures
        v@ == le_i32(0) + packed_addr(*sa),
{
    let mut buf = i32_le_bytes(0);
    pack_addr(&mut buf, sa);
    buf
}

/// A host call's status word: what `ok` makes of a success, `-errno` of a
/// failure.
pub fn ret<T, F: FnOnce(T) -> i32>(r: Result<T, i32>, ok: F) -> (code: i32)
    requires
        r matches Ok(v) ==> call_requires(ok, (v,)),
        r matches Err(e) ==> e > i32::MIN,
    ensures
        r matches Ok(v) ==> call_ensures(ok, (v,), code),
        r matches Err(e) ==> code == -e,
{
    match r {
        Ok(v) => ok(v),
        Err(e) => -e,
    }
}

/// A host call's byte result: the body on success (which starts with its
/// own status), the four bytes of `-errno` on failure.
pub fn ret_vec(r: Result<Vec<u8>, i32>) -> (v: Vec<u8>)
    requires
        r matches Err(e) ==> e > i32::MIN,
    ensures
        r matches Ok(body) ==> v@ == body@,
        r matches Err(e) ==> v@ == le_i32(-e as i32),
{
    match r {
        Ok(body) => body,
        Err(e) => i32_le_bytes(-e),
    }
}

/// Whether mount `idx` is read-only; a mount that is not there is not.
pub fn check_ro(ro_flags: &[bool], idx: usize) -> (ro: bool)
    ensures
        ro == (idx < ro_flags@.len() && ro_flags@[idx as int]),
{
    if idx < ro_flags.len() {
        ro_flags[idx]
    } else {
        false
    }
}

/// The readiness a host poll reports for one socket, flag by flag.
#[derive(Debug, Clone, Copy, PartialEq, Eq)]
pub struct PollFlags {
    pub input: bool,
    pub output: bool,
    pub pri: bool,
    pub err: bool,
    pub hup: bool,
    pub nval: bool,
    /// Windows' normal-data readable and writable bits.
    pub rdnorm: bool,
    pub wrnorm: bool,
}

/// `POLLIN`, `POLLOUT` and, where the host's poll takes it, `POLLPRI` of
/// the guest's `events`, as host flags.
pub open spec fn spec_poll_flags(events: i16, windows: bool) -> PollFlags {
    PollFlags {
        input: (events as u16) % 2 == 1,
        output: (events as u16) / 4 % 2 == 1,
        pri: !windows && (events as u16) / 2 % 2 == 1,
        err: false,
        hup: false,
        nval: false,
        rdnorm: false,
        wrnorm: false,
    }
}

/// The guest's `events` as the host's poll flags.  Windows' poll refuses
/// `POLLPRI` in `events`, so it is dropped there.
pub fn poll_flags(events: i16, windows: bool) -> (f: PollFlags)
    ensures
        f == spec_poll_flags(events, windows),
{
    let e = events as u16;
    PollFlags {
        input: e % 2 == 1,
        output: e / 4 % 2 == 1,
        pri: !windows && e / 2 % 2 == 1,
        err: false,
        hup: false,
        nval: false,
        rdnorm: false,
        wrnorm: false,
    }
}

pub open spec fn bit(b: bool, v: int) -> int {
    if b { v } else { 0 }
}

/// The guest's encoding of host readiness: readable and writable by
/// intersection with Windows' normal-data bits, an error as readable,
/// writable and errored, a hang-up as readable too on Windows.
pub open spec fn spec_linux_revents(f: PollFlags, windows: bool) -> int {
    let readable = f.input || f.rdnorm || f.err || (f.hup && windows);
    let writable = f.output || f.wrnorm || f.err;
    bit(readable, 1) + bit(f.pri, 2) + bit(writable, 4) + bit(f.err, 8) + bit(f.hup, 16) + bit(
        f.nval,
        32,
    )
}

/// Host readiness in the guest's encoding.
pub fn linux_revents(f: PollFlags, windows: bool) -> (r: i16)
    ensures
        r as int == spec_linux_revents(f, windows),
{
    let readable = f.input || f.rdnorm || f.err || (f.hup && windows);
    let writable = f.output || f.wrnorm || f.err;
    let mut r: i16 = 0;
    if readable {
        r = r + POLLIN;
    }
    if f.pri {
        r = r + POLLPRI;
    }
    if writable {
        r = r + POLLOUT;
    }
    if f.err {
        r = r + POLLERR;
    }
    if f.hup {
        r = r + POLLHUP;
    }
    if f.nval {
        r = r + POLLNVAL;
    }
    r
}

} // verus!
