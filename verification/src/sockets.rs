//! The guest's sockets as the host keeps them: the table from guest file
//! descriptors to host sockets, and the decisions each `net_*` host call
//! makes before the socket call itself (what it asks for, and whether the
//! policy lets it).
use vstd::prelude::*;

use crate::addr::{IpAddress, SocketAddress};
use crate::errno::{EACCES, EAFNOSUPPORT, EBADF, EINVAL, EMFILE, ENOPROTOOPT, EPROTONOSUPPORT};
use crate::net_policy::{ListenPorts, NetworkPolicy};
use std::collections::HashMap;

verus! {

broadcast use vstd::std_specs::hash::group_hash_axioms;

/// The most sockets a guest may hold at once.
pub const MAX_SOCKETS: usize = 1024;

/// The first guest descriptor handed out: 0 to 2 are the standard streams.
pub const FIRST_FD: i32 = 3;

/// Guest descriptors to host sockets.  Dropping an entry closes its
/// socket.
pub struct SocketTable<S> {
    sockets: HashMap<i32, S>,
    next_fd: i32,
}

impl<S> SocketTable<S> {
    /// The sockets held, by descriptor.
    pub closed spec fn held(&self) -> Map<i32, S> {
        self.sockets@
    }

    /// The descriptor the next socket gets.
    pub closed spec fn next(&self) -> i32 {
        self.next_fd
    }

    /// An empty table.
    pub fn new() -> (t: SocketTable<S>)
        ensures
            t.held() == Map::<i32, S>::empty(),
            t.next() == FIRST_FD,
    {
        SocketTable { sockets: HashMap::new(), next_fd: FIRST_FD }
    }

    /// How many sockets are held.
    pub fn len(&self) -> (n: usize)
        ensures
            n == self.held().len(),
    {
        self.sockets.len()
    }

    /// Hold `sock` under the next descriptor, or refuse with `EMFILE` when
    /// the table is full.  Descriptors count up, wrapping.
    pub fn insert(&mut self, sock: S) -> (r: Result<i32, i32>)
        ensures
            old(self).held().len() >= MAX_SOCKETS ==> r == Err::<i32, i32>(EMFILE) && final(self).held()
                == old(self).held() && final(self).next() == old(self).next(),
            old(self).held().len() < MAX_SOCKETS ==> r == Ok::<i32, i32>(old(self).next()) && final(self).held()
                == old(self).held().insert(old(self).next(), sock) && final(self).next()
                == (if old(self).next() == i32::MAX {
                i32::MIN
            } else {
                (old(self).next() + 1) as i32
            }),
    {
        if self.sockets.len() >= MAX_SOCKETS {
            return Err(EMFILE);
        }
        let fd = self.next_fd;
        self.next_fd = if self.next_fd == i32::MAX {
            i32::MIN
        } else {
            self.next_fd + 1
        };
        self.sockets.insert(fd, sock);
        Ok(fd)
    }

    /// The socket under `fd`, or `EBADF`.
    pub fn get(&self, fd: i32) -> (r: Result<&S, i32>)
        ensures
            self.held().contains_key(fd) ==> (r matches Ok(s) && *s == self.held()[fd]),
            !self.held().contains_key(fd) ==> r == Err::<&S, i32>(EBADF),
    {
        match self.sockets.get(&fd) {
            Some(s) => Ok(s),
            None => Err(EBADF),
        }
    }

    /// Take the socket under `fd` out of the table, or `EBADF`.
    pub fn remove(&mut self, fd: i32) -> (r: Result<S, i32>)
        ensures
            old(self).held().contains_key(fd) ==> r == Ok::<S, i32>(old(self).held()[fd]) && final(self).held()
                == old(self).held().remove(fd),
            !old(self).held().contains_key(fd) ==> r == Err::<S, i32>(EBADF) && final(self).held()
                == old(self).held(),
            final(self).next() == old(self).next(),
    {
        match self.sockets.remove(&fd) {
            Some(s) => Ok(s),
            None => Err(EBADF),
        }
    }
}

/// Linux's `AF_INET`, the guest's IPv4 family.
pub const AF_INET: i32 = 2;

/// Linux's `AF_INET6`.
pub const AF_INET6: i32 = 10;

/// Linux's `SOCK_STREAM`.
pub const SOCK_STREAM: i32 = 1;

/// Linux's `SOCK_DGRAM`.
pub const SOCK_DGRAM: i32 = 2;

/// An address family the host serves.
#[derive(Debug, Clone, Copy, PartialEq, Eq)]
pub enum Family {
    Inet,
    Inet6,
}

/// A socket type the host serves.
#[derive(Debug, Clone, Copy, PartialEq, Eq)]
pub enum SockType {
    Stream,
    Dgram,
}

/// What a `net_socket(family, type, protocol)` asks for: the family, the
/// type in the low byte (the upper bits, `SOCK_NONBLOCK` and
/// `SOCK_CLOEXEC`, are the guest's concern), and the protocol to forward
/// so the host validates the pair (none for 0).
pub fn socket_args(family: i32, ty: i32, proto: i32) -> (r: Result<(Family, SockType, Option<u32>), i32>)
    ensures
        family != AF_INET && family != AF_INET6 ==> r == Err::<(Family, SockType, Option<u32>), i32>(EAFNOSUPPORT),
        (family == AF_INET || family == AF_INET6) && (ty & 0xff) != SOCK_STREAM && (ty & 0xff) != SOCK_DGRAM
            ==> r == Err::<(Family, SockType, Option<u32>), i32>(EPROTONOSUPPORT),
        (family == AF_INET || family == AF_INET6) && ((ty & 0xff) == SOCK_STREAM || (ty & 0xff) == SOCK_DGRAM)
            ==> if proto < 0 {
            r == Err::<(Family, SockType, Option<u32>), i32>(EINVAL)
        } else {
            r == Ok::<(Family, SockType, Option<u32>), i32>((
                if family == AF_INET {
                    Family::Inet
                } else {
                    Family::Inet6
                },
                if (ty & 0xff) == SOCK_STREAM {
                    SockType::Stream
                } else {
                    SockType::Dgram
                },
                if proto == 0 {
                    None
                } else {
                    Some(proto as u32)
                },
            ))
        },
{
    let fam = if family == AF_INET {
        Family::Inet
    } else if family == AF_INET6 {
        Family::Inet6
    } else {
        return Err(EAFNOSUPPORT);
    };
    let low = ty & 0xff;
    let kind = if low == SOCK_STREAM {
        SockType::Stream
    } else if low == SOCK_DGRAM {
        SockType::Dgram
    } else {
        return Err(EPROTONOSUPPORT);
    };
    if proto < 0 {
        return Err(EINVAL);
    }
    let p = if proto == 0 {
        None
    } else {
        Some(proto as u32)
    };
    Ok((fam, kind, p))
}

/// Which way a `net_shutdown` closes.
#[derive(Debug, Clone, Copy, PartialEq, Eq)]
pub enum Shutdown {
    Read,
    Write,
    Both,
}

/// `SHUT_RD` (0) closes reading, `SHUT_WR` (1) writing, anything else
/// both.
pub fn shutdown_how(how: i32) -> (r: Shutdown)
    ensures
        r == (if how == 0 {
            Shutdown::Read
        } else if how == 1 {
            Shutdown::Write
        } else {
            Shutdown::Both
        }),
{
    if how == 0 {
        Shutdown::Read
    } else if how == 1 {
        Shutdown::Write
    } else {
        Shutdown::Both
    }
}

/// The socket options a guest can get or set, all int-valued.
#[derive(Debug, Clone, Copy, PartialEq, Eq)]
pub enum SockOpt {
    ReuseAddr,
    Type,
    Error,
    Broadcast,
    SndBuf,
    RcvBuf,
    KeepAlive,
    OobInline,
    AcceptConn,
    ReusePort,
    Domain,
    Protocol,
    IpTos,
    IpTtl,
    IpMulticastTtl,
    IpMulticastLoop,
    RecvErr,
    TcpNoDelay,
    TcpKeepIdle,
    TcpKeepIntvl,
    TcpKeepCnt,
    V6Only,
    UnicastHops,
    V6MulticastLoop,
}

/// The option a Linux `(level, name)` pair names, if the host serves it.
/// `IPV6_MULTICAST_HOPS` is left out on purpose: the host's socket layer
/// issues it at the wrong level.
pub open spec fn named_option(level: i32, name: i32) -> Option<SockOpt> {
    if level == 1 {
        if name == 2 {
            Some(SockOpt::ReuseAddr)
        } else if name == 3 {
            Some(SockOpt::Type)
        } else if name == 4 {
            Some(SockOpt::Error)
        } else if name == 6 {
            Some(SockOpt::Broadcast)
        } else if name == 7 {
            Some(SockOpt::SndBuf)
        } else if name == 8 {
            Some(SockOpt::RcvBuf)
        } else if name == 9 {
            Some(SockOpt::KeepAlive)
        } else if name == 10 {
            Some(SockOpt::OobInline)
        } else if name == 30 {
            Some(SockOpt::AcceptConn)
        } else if name == 15 {
            Some(SockOpt::ReusePort)
        } else if name == 39 {
            Some(SockOpt::Domain)
        } else if name == 38 {
            Some(SockOpt::Protocol)
        } else {
            None
        }
    } else if level == 0 {
        if name == 1 {
            Some(SockOpt::IpTos)
        } else if name == 2 {
            Some(SockOpt::IpTtl)
        } else if name == 33 {
            Some(SockOpt::IpMulticastTtl)
        } else if name == 34 {
            Some(SockOpt::IpMulticastLoop)
        } else if name == 11 {
            Some(SockOpt::RecvErr)
        } else {
            None
        }
    } else if level == 6 {
        if name == 1 {
            Some(SockOpt::TcpNoDelay)
        } else if name == 4 {
            Some(SockOpt::TcpKeepIdle)
        } else if name == 5 {
            Some(SockOpt::TcpKeepIntvl)
        } else if name == 6 {
            Some(SockOpt::TcpKeepCnt)
        } else {
            None
        }
    } else if level == 41 {
        if name == 26 {
            Some(SockOpt::V6Only)
        } else if name == 16 {
            Some(SockOpt::UnicastHops)
        } else if name == 19 {
            Some(SockOpt::V6MulticastLoop)
        } else if name == 25 {
            Some(SockOpt::RecvErr)
        } else {
            None
        }
    } else {
        None
    }
}

/// The options a guest names by Linux's numbers, at the levels
/// `SOL_SOCKET` (1), `IPPROTO_IP` (0), `IPPROTO_TCP` (6) and `IPPROTO_IPV6`
/// (41): SO_REUSEADDR (1, 2), SO_TYPE (1, 3), SO_ERROR (1, 4), SO_BROADCAST (1,
/// 6), SO_SNDBUF (1, 7), SO_RCVBUF (1, 8), SO_KEEPALIVE (1, 9), SO_OOBINLINE
/// (1, 10), SO_ACCEPTCONN (1, 30), SO_REUSEPORT (1, 15), SO_DOMAIN (1, 39),
/// SO_PROTOCOL (1, 38), IP_TOS (0, 1), IP_TTL (0, 2), IP_MULTICAST_TTL (0, 33),
/// IP_MULTICAST_LOOP (0, 34), IP_RECVERR (0, 11), TCP_NODELAY (6, 1),
/// TCP_KEEPIDLE (6, 4), TCP_KEEPINTVL (6, 5), TCP_KEEPCNT (6, 6), IPV6_V6ONLY
/// (41, 26), IPV6_UNICAST_HOPS (41, 16), IPV6_MULTICAST_LOOP (41, 19),
/// IPV6_RECVERR (41, 25); every other pair names none the host serves.
pub proof fn law_options_go_by_linux_numbers(level: i32, name: i32)
    ensures
        named_option(1, 2) == Some(SockOpt::ReuseAddr),
        named_option(1, 3) == Some(SockOpt::Type),
        named_option(1, 4) == Some(SockOpt::Error),
        named_option(1, 6) == Some(SockOpt::Broadcast),
        named_option(1, 7) == Some(SockOpt::SndBuf),
        named_option(1, 8) == Some(SockOpt::RcvBuf),
        named_option(1, 9) == Some(SockOpt::KeepAlive),
        named_option(1, 10) == Some(SockOpt::OobInline),
        named_option(1, 30) == Some(SockOpt::AcceptConn),
        named_option(1, 15) == Some(SockOpt::ReusePort),
        named_option(1, 39) == Some(SockOpt::Domain),
        named_option(1, 38) == Some(SockOpt::Protocol),
        named_option(0, 1) == Some(SockOpt::IpTos),
        named_option(0, 2) == Some(SockOpt::IpTtl),
        named_option(0, 33) == Some(SockOpt::IpMulticastTtl),
        named_option(0, 34) == Some(SockOpt::IpMulticastLoop),
        named_option(0, 11) == Some(SockOpt::RecvErr),
        named_option(6, 1) == Some(SockOpt::TcpNoDelay),
        named_option(6, 4) == Some(SockOpt::TcpKeepIdle),
        named_option(6, 5) == Some(SockOpt::TcpKeepIntvl),
        named_option(6, 6) == Some(SockOpt::TcpKeepCnt),
        named_option(41, 26) == Some(SockOpt::V6Only),
        named_option(41, 16) == Some(SockOpt::UnicastHops),
        named_option(41, 19) == Some(SockOpt::V6MulticastLoop),
        named_option(41, 25) == Some(SockOpt::RecvErr),
        named_option(level, name) is Some ==> (
            (level == 1 && name == 2) ||
            (level == 1 && name == 3) ||
            (level == 1 && name == 4) ||
            (level == 1 && name == 6) ||
            (level == 1 && name == 7) ||
            (level == 1 && name == 8) ||
            (level == 1 && name == 9) ||
            (level == 1 && name == 10) ||
            (level == 1 && name == 30) ||
            (level == 1 && name == 15) ||
            (level == 1 && name == 39) ||
            (level == 1 && name == 38) ||
            (level == 0 && name == 1) ||
            (level == 0 && name == 2) ||
            (level == 0 && name == 33) ||
            (level == 0 && name == 34) ||
            (level == 0 && name == 11) ||
            (level == 6 && name == 1) ||
            (level == 6 && name == 4) ||
            (level == 6 && name == 5) ||
            (level == 6 && name == 6) ||
            (level == 41 && name == 26) ||
            (level == 41 && name == 16) ||
            (level == 41 && name == 19) ||
            (level == 41 && name == 25)
        ),
{
}

/// The options a guest can read but not set.
pub open spec fn read_only(o: SockOpt) -> bool {
    o == SockOpt::Type || o == SockOpt::Error || o == SockOpt::AcceptConn || o == SockOpt::Domain || o
        == SockOpt::Protocol
}

/// Linux's socket numbers, as the guest passes them: `AF_INET` 2,
/// `AF_INET6` 10, `SOCK_STREAM` 1, `SOCK_DGRAM` 2.  Of the options, the
/// guest may only read `SO_TYPE`, `SO_ERROR`, `SO_ACCEPTCONN`, `SO_DOMAIN`
/// and `SO_PROTOCOL`; the struct-valued ones are `SO_LINGER` (13),
/// `SO_RCVTIMEO` (20) and `SO_SNDTIMEO` (21) of `SOL_SOCKET` (1).
pub proof fn law_socket_numbers(o: SockOpt, level: i32, name: i32)
    ensures
        AF_INET == 2,
        AF_INET6 == 10,
        SOCK_STREAM == 1,
        SOCK_DGRAM == 2,
        read_only(o) <==> (o == SockOpt::Type || o == SockOpt::Error || o == SockOpt::AcceptConn || o
            == SockOpt::Domain || o == SockOpt::Protocol),
        struct_valued(level, name) <==> (level == 1 && (name == 13 || name == 20 || name == 21)),
{
}

/// The struct-valued `SOL_SOCKET` options (`SO_LINGER`, `SO_RCVTIMEO`,
/// `SO_SNDTIMEO`), of which the guest forwards only the first int.
pub open spec fn struct_valued(level: i32, name: i32) -> bool {
    level == 1 && (name == 13 || name == 20 || name == 21)
}

fn option_named(level: i32, name: i32) -> (r: Option<SockOpt>)
    ensures
        r == named_option(level, name),
{
    if level == 1 {
        if name == 2 {
            Some(SockOpt::ReuseAddr)
        } else if name == 3 {
            Some(SockOpt::Type)
        } else if name == 4 {
            Some(SockOpt::Error)
        } else if name == 6 {
            Some(SockOpt::Broadcast)
        } else if name == 7 {
            Some(SockOpt::SndBuf)
        } else if name == 8 {
            Some(SockOpt::RcvBuf)
        } else if name == 9 {
            Some(SockOpt::KeepAlive)
        } else if name == 10 {
            Some(SockOpt::OobInline)
        } else if name == 30 {
            Some(SockOpt::AcceptConn)
        } else if name == 15 {
            Some(SockOpt::ReusePort)
        } else if name == 39 {
            Some(SockOpt::Domain)
        } else if name == 38 {
            Some(SockOpt::Protocol)
        } else {
            None
        }
    } else if level == 0 {
        if name == 1 {
            Some(SockOpt::IpTos)
        } else if name == 2 {
            Some(SockOpt::IpTtl)
        } else if name == 33 {
            Some(SockOpt::IpMulticastTtl)
        } else if name == 34 {
            Some(SockOpt::IpMulticastLoop)
        } else if name == 11 {
            Some(SockOpt::RecvErr)
        } else {
            None
        }
    } else if level == 6 {
        if name == 1 {
            Some(SockOpt::TcpNoDelay)
        } else if name == 4 {
            Some(SockOpt::TcpKeepIdle)
        } else if name == 5 {
            Some(SockOpt::TcpKeepIntvl)
        } else if name == 6 {
            Some(SockOpt::TcpKeepCnt)
        } else {
            None
        }
    } else if level == 41 {
        if name == 26 {
            Some(SockOpt::V6Only)
        } else if name == 16 {
            Some(SockOpt::UnicastHops)
        } else if name == 19 {
            Some(SockOpt::V6MulticastLoop)
        } else if name == 25 {
            Some(SockOpt::RecvErr)
        } else {
            None
        }
    } else {
        None
    }
}

/// The option a `getsockopt` reads, or `ENOPROTOOPT`.
pub fn getsockopt_option(level: i32, name: i32) -> (r: Result<SockOpt, i32>)
    ensures
        match named_option(level, name) {
            Some(o) => r == Ok::<SockOpt, i32>(o),
            None => r == Err::<SockOpt, i32>(ENOPROTOOPT),
        },
{
    match option_named(level, name) {
        Some(o) => Ok(o),
        None => Err(ENOPROTOOPT),
    }
}

/// The option a `setsockopt` sets: `EINVAL` for the struct-valued ones,
/// `ENOPROTOOPT` for one the host does not serve or that cannot be set.
pub fn setsockopt_option(level: i32, name: i32) -> (r: Result<SockOpt, i32>)
    ensures
        struct_valued(level, name) ==> r == Err::<SockOpt, i32>(EINVAL),
        !struct_valued(level, name) ==> match named_option(level, name) {
            Some(o) => if read_only(o) {
                r == Err::<SockOpt, i32>(ENOPROTOOPT)
            } else {
                r == Ok::<SockOpt, i32>(o)
            },
            None => r == Err::<SockOpt, i32>(ENOPROTOOPT),
        },
{
    if level == 1 && (name == 13 || name == 20 || name == 21) {
        return Err(EINVAL);
    }
    match option_named(level, name) {
        Some(o) => {
            let ro = match o {
                SockOpt::Type | SockOpt::Error | SockOpt::AcceptConn | SockOpt::Domain | SockOpt::Protocol => true,
                _ => false,
            };
            if ro {
                Err(ENOPROTOOPT)
            } else {
                Ok(o)
            }
        },
        None => Err(ENOPROTOOPT),
    }
}

/// The value a `setsockopt` hands the host for the guest's int.
#[derive(Debug, Clone, Copy, PartialEq, Eq)]
pub enum OptArg {
    /// On for any non-zero value.
    Flag(bool),
    /// A buffer size; a negative value is 0.
    Size(usize),
    /// Seconds; a negative value is 0.
    Secs(u64),
    /// The low byte.
    Byte(u8),
    /// The value's bits as unsigned.
    Count(u32),
    /// A hop limit, when it fits a byte; none resets the default.
    Hops(Option<u8>),
    /// Nothing: the option is accepted and ignored.
    Nothing,
}

/// How the guest's int `value` is handed over for `o`.
pub fn set_arg(o: SockOpt, value: i32) -> (r: OptArg)
    ensures
        r == match o {
            SockOpt::SndBuf | SockOpt::RcvBuf => OptArg::Size(if value < 0 {
                0
            } else {
                value as usize
            }),
            SockOpt::TcpKeepIdle | SockOpt::TcpKeepIntvl => OptArg::Secs(if value < 0 {
                0
            } else {
                value as u64
            }),
            SockOpt::IpTos => OptArg::Byte(value as u8),
            SockOpt::IpTtl | SockOpt::IpMulticastTtl | SockOpt::TcpKeepCnt => OptArg::Count(value as u32),
            SockOpt::UnicastHops => OptArg::Hops(if 0 <= value && value <= 255 {
                Some(value as u8)
            } else {
                None
            }),
            SockOpt::RecvErr => OptArg::Nothing,
            _ => OptArg::Flag(value != 0),
        },
{
    match o {
        SockOpt::SndBuf | SockOpt::RcvBuf => OptArg::Size(if value < 0 {
            0
        } else {
            value as usize
        }),
        SockOpt::TcpKeepIdle | SockOpt::TcpKeepIntvl => OptArg::Secs(if value < 0 {
            0
        } else {
            value as u64
        }),
        SockOpt::IpTos => OptArg::Byte(value as u8),
        SockOpt::IpTtl | SockOpt::IpMulticastTtl | SockOpt::TcpKeepCnt => OptArg::Count(value as u32),
        SockOpt::UnicastHops => OptArg::Hops(if 0 <= value && value <= 255 {
            Some(value as u8)
        } else {
            None
        }),
        SockOpt::RecvErr => OptArg::Nothing,
        _ => OptArg::Flag(value != 0),
    }
}

/// A size the host reports, as the guest's int: `i32::MAX` when it does
/// not fit.
pub fn size_as_int(v: usize) -> (r: i32)
    ensures
        r == (if v <= i32::MAX {
            v as i32
        } else {
            i32::MAX
        }),
{
    if v <= i32::MAX as usize {
        v as i32
    } else {
        i32::MAX
    }
}

/// How long a `poll` waits, in milliseconds: not at all when an entry was
/// invalid (it counts as ready), forever (`None`) for a negative timeout.
pub fn poll_timeout(invalid: i32, timeout_ms: i32) -> (r: Option<u64>)
    ensures
        r == (if invalid > 0 {
            Some(0u64)
        } else if timeout_ms < 0 {
            None
        } else {
            Some(timeout_ms as u64)
        }),
{
    if invalid > 0 {
        Some(0)
    } else if timeout_ms < 0 {
        None
    } else {
        Some(timeout_ms as u64)
    }
}

/// Milliseconds as seconds and nanoseconds.
pub fn timespec_of(ms: u64) -> (r: (u64, u64))
    ensures
        r.0 == ms / 1000,
        r.1 == (ms % 1000) * 1_000_000,
        r.1 < 1_000_000_000,
{
    (ms / 1000, (ms % 1000) * 1_000_000)
}

/// Outbound policy (connect, sendto): `EACCES` for a destination the
/// policy refuses; no policy lets everything through.
pub fn allow_outbound(policy: &Option<NetworkPolicy>, addr: &SocketAddress, udp: bool, resolves_now: Option<bool>) -> (r: Result<(), i32>)
    ensures
        match policy {
            Some(p) => if p.spec_allows(*addr, udp, resolves_now) {
                r is Ok
            } else {
                r == Err::<(), i32>(EACCES)
            },
            None => r is Ok,
        },
{
    match policy {
        Some(p) => if p.allows(addr, udp, resolves_now) {
            Ok(())
        } else {
            Err(EACCES)
        },
        None => Ok(()),
    }
}

/// Inbound policy (bind): inbound is opt-in.  Without listen ports every
/// bind to a port is refused with `EACCES` (outbound-only); with them, a
/// port they do not list is.  An ephemeral bind (port 0), which a client
/// socket makes before it connects, is always allowed.
pub fn allow_bind(listen_ports: &Option<ListenPorts>, port: u16) -> (r: Result<(), i32>)
    ensures
        match listen_ports {
            Some(lp) => if port != 0 && !lp.spec_allows(port) {
                r == Err::<(), i32>(EACCES)
            } else {
                r is Ok
            },
            None => if port != 0 {
                r == Err::<(), i32>(EACCES)
            } else {
                r is Ok
            },
        },
{
    match listen_ports {
        Some(lp) => if port != 0 && !lp.allows(port) {
            Err(EACCES)
        } else {
            Ok(())
        },
        None => if port != 0 {
            Err(EACCES)
        } else {
            Ok(())
        },
    }
}

/// The family a guest's `family` argument names, if the host serves it.
pub fn family_of(family: i32) -> (r: Option<Family>)
    ensures
        r == (if family == AF_INET {
            Some(Family::Inet)
        } else if family == AF_INET6 {
            Some(Family::Inet6)
        } else {
            None
        }),
{
    if family == AF_INET {
        Some(Family::Inet)
    } else if family == AF_INET6 {
        Some(Family::Inet6)
    } else {
        None
    }
}

/// The socket address of `ip` and the guest's `port`, when the port fits
/// 16 bits.
pub fn socket_address(ip: IpAddress, port: i32) -> (r: Option<SocketAddress>)
    ensures
        r == (if 0 <= port <= 65535 {
            Some(SocketAddress { ip, port: port as u16 })
        } else {
            None
        }),
{
    if port < 0 || port > 65535 {
        None
    } else {
        Some(SocketAddress { ip, port: port as u16 })
    }
}

} // verus!
