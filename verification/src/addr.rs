//! Network addresses as the policy sees them: an IPv4 address as its 32-bit
//! number, an IPv6 one as its 128-bit number, each most significant octet
//! first, and a port.
use vstd::prelude::*;

verus! {

#[derive(Debug, Clone, Copy, PartialEq, Eq, Structural)]
pub enum IpAddress {
    V4(u32),
    V6(u128),
}

#[derive(Debug, Clone, Copy, PartialEq, Eq, Structural)]
pub struct SocketAddress {
    pub ip: IpAddress,
    pub port: u16,
}

impl IpAddress {
    /// `a.b.c.d`.
    pub fn v4(a: u8, b: u8, c: u8, d: u8) -> (ip: IpAddress)
        ensures
            ip == IpAddress::V4((a * 16777216 + b * 65536 + c * 256 + d) as u32),
    {
        IpAddress::V4(a as u32 * 16777216 + b as u32 * 65536 + c as u32 * 256 + d as u32)
    }
}

impl SocketAddress {
    pub fn new(ip: IpAddress, port: u16) -> (a: SocketAddress)
        ensures
            a == (SocketAddress { ip, port }),
    {
        SocketAddress { ip, port }
    }
}

/// IPv4-mapped IPv6 addresses, `::ffff:a.b.c.d`.
pub open spec fn mapped_v4(x: u128) -> bool {
    x / 0x1_0000_0000 == 0xffff
}

/// The IPv4 address behind an IPv4-mapped IPv6 one, else the address as is.
pub open spec fn spec_canonical(ip: IpAddress) -> IpAddress {
    match ip {
        IpAddress::V6(x) => if mapped_v4(x) {
            IpAddress::V4((x % 0x1_0000_0000) as u32)
        } else {
            ip
        },
        IpAddress::V4(_) => ip,
    }
}

pub fn canonical(ip: IpAddress) -> (c: IpAddress)
    ensures
        c == spec_canonical(ip),
{
    match ip {
        IpAddress::V6(x) => {
            if x / 0x1_0000_0000 == 0xffff {
                IpAddress::V4((x % 0x1_0000_0000) as u32)
            } else {
                ip
            }
        },
        IpAddress::V4(_) => ip,
    }
}

/// AWS's IPv6 instance metadata endpoint, `fd00:ec2::254`.
pub const AWS_IMDS_V6: u128 = 0xfd00_0ec2_0000_0000_0000_0000_0000_0254;

/// A cloud metadata address: link-local (169.254.0.0/16, fe80::/10) or
/// AWS's IPv6 endpoint.
pub open spec fn spec_is_metadata(ip: IpAddress) -> bool {
    match ip {
        IpAddress::V4(x) => x / 0x1_0000 == 0xa9fe,
        IpAddress::V6(x) => x / 0x40_0000_0000_0000_0000_0000_0000_0000 == 0x3fa || x
            == AWS_IMDS_V6,
    }
}

pub fn is_metadata(ip: &IpAddress) -> (b: bool)
    ensures
        b == spec_is_metadata(*ip),
{
    match ip {
        IpAddress::V4(x) => *x / 0x1_0000 == 0xa9fe,
        IpAddress::V6(x) => *x / 0x40_0000_0000_0000_0000_0000_0000_0000 == 0x3fa || *x
            == AWS_IMDS_V6,
    }
}

/// Loopback: 127.0.0.0/8 or ::1.
pub open spec fn spec_is_loopback(ip: IpAddress) -> bool {
    match ip {
        IpAddress::V4(x) => x / 0x100_0000 == 127,
        IpAddress::V6(x) => x == 1,
    }
}

pub fn is_loopback(ip: &IpAddress) -> (b: bool)
    ensures
        b == spec_is_loopback(*ip),
{
    match ip {
        IpAddress::V4(x) => *x / 0x100_0000 == 127,
        IpAddress::V6(x) => *x == 1,
    }
}

/// Whether two addresses are the same.
pub fn same_ip(a: &IpAddress, b: &IpAddress) -> (r: bool)
    ensures
        r == (*a == *b),
{
    match (a, b) {
        (IpAddress::V4(x), IpAddress::V4(y)) => *x == *y,
        (IpAddress::V6(x), IpAddress::V6(y)) => *x == *y,
        _ => false,
    }
}

} // verus!
