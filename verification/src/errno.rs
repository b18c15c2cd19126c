//! Linux `errno` values for the guest.
//!
//! The guest is a Linux-ABI unikernel: every error a host function reports
//! to it must be a Linux errno number, whatever the host OS.  A Linux host's
//! own errno passes through untouched; a Windows one is translated, Win32
//! and Winsock codes first, then the error's kind as the fallback.
use vstd::prelude::*;

verus! {

pub const EPERM: i32 = 1;
pub const ENOENT: i32 = 2;
pub const EINTR: i32 = 4;
pub const EIO: i32 = 5;
pub const E2BIG: i32 = 7;
pub const EBADF: i32 = 9;
pub const EAGAIN: i32 = 11;
pub const ENOMEM: i32 = 12;
pub const EACCES: i32 = 13;
pub const EFAULT: i32 = 14;
pub const EBUSY: i32 = 16;
pub const EEXIST: i32 = 17;
pub const EXDEV: i32 = 18;
pub const ENOTDIR: i32 = 20;
pub const EISDIR: i32 = 21;
pub const EINVAL: i32 = 22;
pub const EMFILE: i32 = 24;
pub const ETXTBSY: i32 = 26;
pub const EFBIG: i32 = 27;
pub const ENOSPC: i32 = 28;
pub const ESPIPE: i32 = 29;
pub const EROFS: i32 = 30;
pub const EMLINK: i32 = 31;
pub const EPIPE: i32 = 32;
pub const EDEADLK: i32 = 35;
pub const ENAMETOOLONG: i32 = 36;
pub const ENOTEMPTY: i32 = 39;
pub const ELOOP: i32 = 40;
pub const ENOTSOCK: i32 = 88;
pub const EDESTADDRREQ: i32 = 89;
pub const EMSGSIZE: i32 = 90;
pub const EPROTOTYPE: i32 = 91;
pub const ENOPROTOOPT: i32 = 92;
pub const EPROTONOSUPPORT: i32 = 93;
pub const ESOCKTNOSUPPORT: i32 = 94;
pub const EOPNOTSUPP: i32 = 95;
pub const EPFNOSUPPORT: i32 = 96;
pub const EAFNOSUPPORT: i32 = 97;
pub const EADDRINUSE: i32 = 98;
pub const EADDRNOTAVAIL: i32 = 99;
pub const ENETDOWN: i32 = 100;
pub const ENETUNREACH: i32 = 101;
pub const ENETRESET: i32 = 102;
pub const ECONNABORTED: i32 = 103;
pub const ECONNRESET: i32 = 104;
pub const ENOBUFS: i32 = 105;
pub const EISCONN: i32 = 106;
pub const ENOTCONN: i32 = 107;
pub const ETIMEDOUT: i32 = 110;
pub const ECONNREFUSED: i32 = 111;
pub const EHOSTDOWN: i32 = 112;
pub const EHOSTUNREACH: i32 = 113;
pub const EALREADY: i32 = 114;
pub const EINPROGRESS: i32 = 115;
pub const ESTALE: i32 = 116;
pub const EDQUOT: i32 = 122;

/// The kinds of host I/O error the translation distinguishes; every other
/// kind is `Other`.
#[derive(Debug, Clone, Copy, PartialEq, Eq)]
pub enum IoErrorKind {
    NotFound,
    PermissionDenied,
    ConnectionRefused,
    ConnectionReset,
    HostUnreachable,
    NetworkUnreachable,
    ConnectionAborted,
    NotConnected,
    AddrInUse,
    AddrNotAvailable,
    NetworkDown,
    BrokenPipe,
    AlreadyExists,
    WouldBlock,
    NotADirectory,
    IsADirectory,
    DirectoryNotEmpty,
    ReadOnlyFilesystem,
    StaleNetworkFileHandle,
    InvalidInput,
    InvalidData,
    InvalidFilename,
    TimedOut,
    StorageFull,
    NotSeekable,
    QuotaExceeded,
    FileTooLarge,
    ResourceBusy,
    ExecutableFileBusy,
    Deadlock,
    CrossesDevices,
    TooManyLinks,
    ArgumentListTooLong,
    Interrupted,
    Unsupported,
    OutOfMemory,
    Other,
}

/// The Linux errno closest to an error kind.
pub open spec fn kind_errno(kind: IoErrorKind) -> i32 {
    match kind {
        IoErrorKind::NotFound => ENOENT,
        IoErrorKind::PermissionDenied => EACCES,
        IoErrorKind::ConnectionRefused => ECONNREFUSED,
        IoErrorKind::ConnectionReset => ECONNRESET,
        IoErrorKind::HostUnreachable => EHOSTUNREACH,
        IoErrorKind::NetworkUnreachable => ENETUNREACH,
        IoErrorKind::ConnectionAborted => ECONNABORTED,
        IoErrorKind::NotConnected => ENOTCONN,
        IoErrorKind::AddrInUse => EADDRINUSE,
        IoErrorKind::AddrNotAvailable => EADDRNOTAVAIL,
        IoErrorKind::NetworkDown => ENETDOWN,
        IoErrorKind::BrokenPipe => EPIPE,
        IoErrorKind::AlreadyExists => EEXIST,
        IoErrorKind::WouldBlock => EAGAIN,
        IoErrorKind::NotADirectory => ENOTDIR,
        IoErrorKind::IsADirectory => EISDIR,
        IoErrorKind::DirectoryNotEmpty => ENOTEMPTY,
        IoErrorKind::ReadOnlyFilesystem => EROFS,
        IoErrorKind::StaleNetworkFileHandle => ESTALE,
        IoErrorKind::InvalidInput => EINVAL,
        IoErrorKind::InvalidData => EINVAL,
        IoErrorKind::InvalidFilename => EINVAL,
        IoErrorKind::TimedOut => ETIMEDOUT,
        IoErrorKind::StorageFull => ENOSPC,
        IoErrorKind::NotSeekable => ESPIPE,
        IoErrorKind::QuotaExceeded => EDQUOT,
        IoErrorKind::FileTooLarge => EFBIG,
        IoErrorKind::ResourceBusy => EBUSY,
        IoErrorKind::ExecutableFileBusy => ETXTBSY,
        IoErrorKind::Deadlock => EDEADLK,
        IoErrorKind::CrossesDevices => EXDEV,
        IoErrorKind::TooManyLinks => EMLINK,
        IoErrorKind::ArgumentListTooLong => E2BIG,
        IoErrorKind::Interrupted => EINTR,
        IoErrorKind::Unsupported => EOPNOTSUPP,
        IoErrorKind::OutOfMemory => ENOMEM,
        IoErrorKind::Other => EIO,
    }
}

/// Closest Linux errno for an error kind: the portable fallback for an
/// error without a raw OS code, or with one that is not known.
pub fn from_kind(kind: IoErrorKind) -> (e: i32)
    ensures
        e == kind_errno(kind),
{
    match kind {
        IoErrorKind::NotFound => ENOENT,
        IoErrorKind::PermissionDenied => EACCES,
        IoErrorKind::ConnectionRefused => ECONNREFUSED,
        IoErrorKind::ConnectionReset => ECONNRESET,
        IoErrorKind::HostUnreachable => EHOSTUNREACH,
        IoErrorKind::NetworkUnreachable => ENETUNREACH,
        IoErrorKind::ConnectionAborted => ECONNABORTED,
        IoErrorKind::NotConnected => ENOTCONN,
        IoErrorKind::AddrInUse => EADDRINUSE,
        IoErrorKind::AddrNotAvailable => EADDRNOTAVAIL,
        IoErrorKind::NetworkDown => ENETDOWN,
        IoErrorKind::BrokenPipe => EPIPE,
        IoErrorKind::AlreadyExists => EEXIST,
        IoErrorKind::WouldBlock => EAGAIN,
        IoErrorKind::NotADirectory => ENOTDIR,
        IoErrorKind::IsADirectory => EISDIR,
        IoErrorKind::DirectoryNotEmpty => ENOTEMPTY,
        IoErrorKind::ReadOnlyFilesystem => EROFS,
        IoErrorKind::StaleNetworkFileHandle => ESTALE,
        IoErrorKind::InvalidInput => EINVAL,
        IoErrorKind::InvalidData => EINVAL,
        IoErrorKind::InvalidFilename => EINVAL,
        IoErrorKind::TimedOut => ETIMEDOUT,
        IoErrorKind::StorageFull => ENOSPC,
        IoErrorKind::NotSeekable => ESPIPE,
        IoErrorKind::QuotaExceeded => EDQUOT,
        IoErrorKind::FileTooLarge => EFBIG,
        IoErrorKind::ResourceBusy => EBUSY,
        IoErrorKind::ExecutableFileBusy => ETXTBSY,
        IoErrorKind::Deadlock => EDEADLK,
        IoErrorKind::CrossesDevices => EXDEV,
        IoErrorKind::TooManyLinks => EMLINK,
        IoErrorKind::ArgumentListTooLong => E2BIG,
        IoErrorKind::Interrupted => EINTR,
        IoErrorKind::Unsupported => EOPNOTSUPP,
        IoErrorKind::OutOfMemory => ENOMEM,
        IoErrorKind::Other => EIO,
    }
}

/// The Linux errno of a Win32 or Winsock code that has an exact one.
pub open spec fn win32_errno(code: i32) -> Option<i32> {
    if code == 2 || code == 3 { Some(ENOENT) }
    else if code == 4 { Some(EMFILE) }
    else if code == 5 { Some(EACCES) }
    else if code == 6 { Some(EBADF) }
    else if code == 8 || code == 14 { Some(ENOMEM) }
    else if code == 17 { Some(EXDEV) }
    else if code == 19 { Some(EROFS) }
    else if code == 32 || code == 33 { Some(EBUSY) }
    else if code == 39 || code == 112 { Some(ENOSPC) }
    else if code == 80 || code == 183 { Some(EEXIST) }
    else if code == 87 || code == 123 { Some(EINVAL) }
    else if code == 145 { Some(ENOTEMPTY) }
    else if code == 206 { Some(ENAMETOOLONG) }
    else if code == 267 { Some(ENOTDIR) }
    else if code == 1142 { Some(ELOOP) }
    else if code == 1314 { Some(EPERM) }
    else if code == 1921 { Some(ELOOP) }
    else if code == 4390 { Some(EINVAL) }
    else if code == 10004 { Some(EINTR) }
    else if code == 10009 { Some(EBADF) }
    else if code == 10013 { Some(EACCES) }
    else if code == 10014 { Some(EFAULT) }
    else if code == 10022 { Some(EINVAL) }
    else if code == 10024 { Some(EMFILE) }
    else if code == 10035 { Some(EAGAIN) }
    else if code == 10036 { Some(EINPROGRESS) }
    else if code == 10037 { Some(EALREADY) }
    else if code == 10038 { Some(ENOTSOCK) }
    else if code == 10039 { Some(EDESTADDRREQ) }
    else if code == 10040 { Some(EMSGSIZE) }
    else if code == 10041 { Some(EPROTOTYPE) }
    else if code == 10042 { Some(ENOPROTOOPT) }
    else if code == 10043 { Some(EPROTONOSUPPORT) }
    else if code == 10044 { Some(ESOCKTNOSUPPORT) }
    else if code == 10045 { Some(EOPNOTSUPP) }
    else if code == 10046 { Some(EPFNOSUPPORT) }
    else if code == 10047 { Some(EAFNOSUPPORT) }
    else if code == 10048 { Some(EADDRINUSE) }
    else if code == 10049 { Some(EADDRNOTAVAIL) }
    else if code == 10050 { Some(ENETDOWN) }
    else if code == 10051 { Some(ENETUNREACH) }
    else if code == 10052 { Some(ENETRESET) }
    else if code == 10053 { Some(ECONNABORTED) }
    else if code == 10054 { Some(ECONNRESET) }
    else if code == 10055 { Some(ENOBUFS) }
    else if code == 10056 { Some(EISCONN) }
    else if code == 10057 { Some(ENOTCONN) }
    else if code == 10058 { Some(EPIPE) }
    else if code == 10060 { Some(ETIMEDOUT) }
    else if code == 10061 { Some(ECONNREFUSED) }
    else if code == 10062 { Some(ELOOP) }
    else if code == 10063 { Some(ENAMETOOLONG) }
    else if code == 10064 { Some(EHOSTDOWN) }
    else if code == 10065 { Some(EHOSTUNREACH) }
    else if code == 10066 { Some(ENOTEMPTY) }
    else if code == 10069 { Some(EDQUOT) }
    else if code == 10070 { Some(ESTALE) }
    else { None }
}

/// Win32 and Winsock codes with an exact Linux equivalent.
pub fn from_win32(code: i32) -> (e: Option<i32>)
    ensures
        e == win32_errno(code),
{
    match code {
        2 | 3 => Some(ENOENT),
        4 => Some(EMFILE),
        5 => Some(EACCES),
        6 => Some(EBADF),
        8 | 14 => Some(ENOMEM),
        17 => Some(EXDEV),
        19 => Some(EROFS),
        32 | 33 => Some(EBUSY),
        39 | 112 => Some(ENOSPC),
        80 | 183 => Some(EEXIST),
        87 | 123 => Some(EINVAL),
        145 => Some(ENOTEMPTY),
        206 => Some(ENAMETOOLONG),
        267 => Some(ENOTDIR),
        1142 => Some(ELOOP),
        1314 => Some(EPERM),
        1921 => Some(ELOOP),
        4390 => Some(EINVAL),
        10004 => Some(EINTR),
        10009 => Some(EBADF),
        10013 => Some(EACCES),
        10014 => Some(EFAULT),
        10022 => Some(EINVAL),
        10024 => Some(EMFILE),
        10035 => Some(EAGAIN),
        10036 => Some(EINPROGRESS),
        10037 => Some(EALREADY),
        10038 => Some(ENOTSOCK),
        10039 => Some(EDESTADDRREQ),
        10040 => Some(EMSGSIZE),
        10041 => Some(EPROTOTYPE),
        10042 => Some(ENOPROTOOPT),
        10043 => Some(EPROTONOSUPPORT),
        10044 => Some(ESOCKTNOSUPPORT),
        10045 => Some(EOPNOTSUPP),
        10046 => Some(EPFNOSUPPORT),
        10047 => Some(EAFNOSUPPORT),
        10048 => Some(EADDRINUSE),
        10049 => Some(EADDRNOTAVAIL),
        10050 => Some(ENETDOWN),
        10051 => Some(ENETUNREACH),
        10052 => Some(ENETRESET),
        10053 => Some(ECONNABORTED),
        10054 => Some(ECONNRESET),
        10055 => Some(ENOBUFS),
        10056 => Some(EISCONN),
        10057 => Some(ENOTCONN),
        10058 => Some(EPIPE),
        10060 => Some(ETIMEDOUT),
        10061 => Some(ECONNREFUSED),
        10062 => Some(ELOOP),
        10063 => Some(ENAMETOOLONG),
        10064 => Some(EHOSTDOWN),
        10065 => Some(EHOSTUNREACH),
        10066 => Some(ENOTEMPTY),
        10069 => Some(EDQUOT),
        10070 => Some(ESTALE),
        _ => None,
    }
}

/// The errno for a host error as the original platform reports it: on a
/// Linux host the raw OS code as it is, elsewhere its Win32 translation
/// when one exists, and the kind's errno otherwise.
pub fn from_os_error(raw: Option<i32>, linux_host: bool, kind: IoErrorKind) -> (e: i32)
    ensures
        e == (match raw {
            Some(code) => if linux_host {
                code
            } else {
                match win32_errno(code) {
                    Some(x) => x,
                    None => kind_errno(kind),
                }
            },
            None => kind_errno(kind),
        }),
{
    match raw {
        Some(code) => {
            if linux_host {
                code
            } else {
                match from_win32(code) {
                    Some(x) => x,
                    None => from_kind(kind),
                }
            }
        },
        None => from_kind(kind),
    }
}

/// A failure as the guest's host calls return it: the negated errno.
pub fn neg_errno(errno: i32) -> (r: i32)
    requires
        errno > i32::MIN,
    ensures
        r == -errno,
{
    -errno
}

/// A failure as a four-byte little-endian `-errno` body.
pub fn errno_vec(errno: i32) -> (v: Vec<u8>)
    requires
        errno > i32::MIN,
    ensures
        v@ == crate::wire::le_i32(-errno as i32),
{
    crate::wire::i32_le_bytes(-errno)
}


/// The Linux errno each kind of host error is answered with, by number:
/// NotFound 2 (ENOENT), PermissionDenied 13 (EACCES), ConnectionRefused 111
/// (ECONNREFUSED), ConnectionReset 104 (ECONNRESET), HostUnreachable 113
/// (EHOSTUNREACH), NetworkUnreachable 101 (ENETUNREACH), ConnectionAborted 103
/// (ECONNABORTED), NotConnected 107 (ENOTCONN), AddrInUse 98 (EADDRINUSE),
/// AddrNotAvailable 99 (EADDRNOTAVAIL), NetworkDown 100 (ENETDOWN), BrokenPipe
/// 32 (EPIPE), AlreadyExists 17 (EEXIST), WouldBlock 11 (EAGAIN), NotADirectory
/// 20 (ENOTDIR), IsADirectory 21 (EISDIR), DirectoryNotEmpty 39 (ENOTEMPTY),
/// ReadOnlyFilesystem 30 (EROFS), StaleNetworkFileHandle 116 (ESTALE),
/// InvalidInput 22 (EINVAL), InvalidData 22 (EINVAL), InvalidFilename 22
/// (EINVAL), TimedOut 110 (ETIMEDOUT), StorageFull 28 (ENOSPC), NotSeekable 29
/// (ESPIPE), QuotaExceeded 122 (EDQUOT), FileTooLarge 27 (EFBIG), ResourceBusy
/// 16 (EBUSY), ExecutableFileBusy 26 (ETXTBSY), Deadlock 35 (EDEADLK),
/// CrossesDevices 18 (EXDEV), TooManyLinks 31 (EMLINK), ArgumentListTooLong 7
/// (E2BIG), Interrupted 4 (EINTR), Unsupported 95 (EOPNOTSUPP), OutOfMemory 12
/// (ENOMEM), Other 5 (EIO).
pub proof fn law_kinds_answer_linux_numbers()
    ensures
        kind_errno(IoErrorKind::NotFound) == 2i32,
        kind_errno(IoErrorKind::PermissionDenied) == 13i32,
        kind_errno(IoErrorKind::ConnectionRefused) == 111i32,
        kind_errno(IoErrorKind::ConnectionReset) == 104i32,
        kind_errno(IoErrorKind::HostUnreachable) == 113i32,
        kind_errno(IoErrorKind::NetworkUnreachable) == 101i32,
        kind_errno(IoErrorKind::ConnectionAborted) == 103i32,
        kind_errno(IoErrorKind::NotConnected) == 107i32,
        kind_errno(IoErrorKind::AddrInUse) == 98i32,
        kind_errno(IoErrorKind::AddrNotAvailable) == 99i32,
        kind_errno(IoErrorKind::NetworkDown) == 100i32,
        kind_errno(IoErrorKind::BrokenPipe) == 32i32,
        kind_errno(IoErrorKind::AlreadyExists) == 17i32,
        kind_errno(IoErrorKind::WouldBlock) == 11i32,
        kind_errno(IoErrorKind::NotADirectory) == 20i32,
        kind_errno(IoErrorKind::IsADirectory) == 21i32,
        kind_errno(IoErrorKind::DirectoryNotEmpty) == 39i32,
        kind_errno(IoErrorKind::ReadOnlyFilesystem) == 30i32,
        kind_errno(IoErrorKind::StaleNetworkFileHandle) == 116i32,
        kind_errno(IoErrorKind::InvalidInput) == 22i32,
        kind_errno(IoErrorKind::InvalidData) == 22i32,
        kind_errno(IoErrorKind::InvalidFilename) == 22i32,
        kind_errno(IoErrorKind::TimedOut) == 110i32,
        kind_errno(IoErrorKind::StorageFull) == 28i32,
        kind_errno(IoErrorKind::NotSeekable) == 29i32,
        kind_errno(IoErrorKind::QuotaExceeded) == 122i32,
        kind_errno(IoErrorKind::FileTooLarge) == 27i32,
        kind_errno(IoErrorKind::ResourceBusy) == 16i32,
        kind_errno(IoErrorKind::ExecutableFileBusy) == 26i32,
        kind_errno(IoErrorKind::Deadlock) == 35i32,
        kind_errno(IoErrorKind::CrossesDevices) == 18i32,
        kind_errno(IoErrorKind::TooManyLinks) == 31i32,
        kind_errno(IoErrorKind::ArgumentListTooLong) == 7i32,
        kind_errno(IoErrorKind::Interrupted) == 4i32,
        kind_errno(IoErrorKind::Unsupported) == 95i32,
        kind_errno(IoErrorKind::OutOfMemory) == 12i32,
        kind_errno(IoErrorKind::Other) == 5i32,
{
}

/// The Linux errno of each Win32 and Winsock code that has an exact one,
/// by number; no other code has one.
pub proof fn law_win32_codes_answer_linux_numbers(code: i32)
    ensures
        win32_errno(2) == Some(2i32),
        win32_errno(3) == Some(2i32),
        win32_errno(4) == Some(24i32),
        win32_errno(5) == Some(13i32),
        win32_errno(6) == Some(9i32),
        win32_errno(8) == Some(12i32),
        win32_errno(14) == Some(12i32),
        win32_errno(17) == Some(18i32),
        win32_errno(19) == Some(30i32),
        win32_errno(32) == Some(16i32),
        win32_errno(33) == Some(16i32),
        win32_errno(39) == Some(28i32),
        win32_errno(112) == Some(28i32),
        win32_errno(80) == Some(17i32),
        win32_errno(183) == Some(17i32),
        win32_errno(87) == Some(22i32),
        win32_errno(123) == Some(22i32),
        win32_errno(145) == Some(39i32),
        win32_errno(206) == Some(36i32),
        win32_errno(267) == Some(20i32),
        win32_errno(1142) == Some(40i32),
        win32_errno(1314) == Some(1i32),
        win32_errno(1921) == Some(40i32),
        win32_errno(4390) == Some(22i32),
        win32_errno(10004) == Some(4i32),
        win32_errno(10009) == Some(9i32),
        win32_errno(10013) == Some(13i32),
        win32_errno(10014) == Some(14i32),
        win32_errno(10022) == Some(22i32),
        win32_errno(10024) == Some(24i32),
        win32_errno(10035) == Some(11i32),
        win32_errno(10036) == Some(115i32),
        win32_errno(10037) == Some(114i32),
        win32_errno(10038) == Some(88i32),
        win32_errno(10039) == Some(89i32),
        win32_errno(10040) == Some(90i32),
        win32_errno(10041) == Some(91i32),
        win32_errno(10042) == Some(92i32),
        win32_errno(10043) == Some(93i32),
        win32_errno(10044) == Some(94i32),
        win32_errno(10045) == Some(95i32),
        win32_errno(10046) == Some(96i32),
        win32_errno(10047) == Some(97i32),
        win32_errno(10048) == Some(98i32),
        win32_errno(10049) == Some(99i32),
        win32_errno(10050) == Some(100i32),
        win32_errno(10051) == Some(101i32),
        win32_errno(10052) == Some(102i32),
        win32_errno(10053) == Some(103i32),
        win32_errno(10054) == Some(104i32),
        win32_errno(10055) == Some(105i32),
        win32_errno(10056) == Some(106i32),
        win32_errno(10057) == Some(107i32),
        win32_errno(10058) == Some(32i32),
        win32_errno(10060) == Some(110i32),
        win32_errno(10061) == Some(111i32),
        win32_errno(10062) == Some(40i32),
        win32_errno(10063) == Some(36i32),
        win32_errno(10064) == Some(112i32),
        win32_errno(10065) == Some(113i32),
        win32_errno(10066) == Some(39i32),
        win32_errno(10069) == Some(122i32),
        win32_errno(10070) == Some(116i32),
        win32_errno(code) is Some ==> (code == 2 || code == 3 || code == 4 || code == 5 || code == 6 || code == 8 || code == 14 || code == 17 || code == 19 || code == 32 || code == 33 || code == 39 || code == 112 || code == 80 || code == 183 || code == 87 || code == 123 || code == 145 || code == 206 || code == 267 || code == 1142 || code == 1314 || code == 1921 || code == 4390 || code == 10004 || code == 10009 || code == 10013 || code == 10014 || code == 10022 || code == 10024 || code == 10035 || code == 10036 || code == 10037 || code == 10038 || code == 10039 || code == 10040 || code == 10041 || code == 10042 || code == 10043 || code == 10044 || code == 10045 || code == 10046 || code == 10047 || code == 10048 || code == 10049 || code == 10050 || code == 10051 || code == 10052 || code == 10053 || code == 10054 || code == 10055 || code == 10056 || code == 10057 || code == 10058 || code == 10060 || code == 10061 || code == 10062 || code == 10063 || code == 10064 || code == 10065 || code == 10066 || code == 10069 || code == 10070),
{
}

} // verus!
