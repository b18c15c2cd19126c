use hyperlight_unikraft::addr::{IpAddress, SocketAddress};
use hyperlight_unikraft::errno::EROFS;
use hyperlight_unikraft::hostfs::{
    data_reply, list_path, list_reply, mode_is_readonly, mount_for, read_len, stat_reply,
    synth_mode, CHUNK,
};
use hyperlight_unikraft::errno::{
    from_kind, from_os_error, from_win32, IoErrorKind, EACCES, EADDRINUSE, EAFNOSUPPORT, EAGAIN,
    EBADF, ECONNREFUSED, EEXIST, EINVAL, EIO, EMFILE, ENOENT, ENOPROTOOPT, ENOTCONN, ENOTEMPTY,
    EPROTONOSUPPORT,
};
use hyperlight_unikraft::sockets::{
    allow_bind,
    getsockopt_option, poll_timeout, setsockopt_option, shutdown_how, socket_args, timespec_of,
    Family, Shutdown, SockType, SocketTable, AF_INET, AF_INET6, SOCK_DGRAM, SOCK_STREAM,
};
use hyperlight_unikraft::wire::{
    addr_result, check_ro, linux_revents, pack_addr, pack_no_addr, poll_flags, ret_vec,
};

fn loopback(port: u16) -> SocketAddress {
    SocketAddress { ip: IpAddress::V4(0x7f00_0001), port }
}

#[test]
fn kind_fallback_covers_common_cases() {
    assert_eq!(from_kind(IoErrorKind::NotFound), ENOENT);
    assert_eq!(from_kind(IoErrorKind::ConnectionRefused), ECONNREFUSED);
    assert_eq!(from_kind(IoErrorKind::WouldBlock), EAGAIN);
    assert_eq!(from_kind(IoErrorKind::Other), EIO);
    assert_eq!(from_kind(IoErrorKind::PermissionDenied), EACCES);
    assert_eq!(from_kind(IoErrorKind::NotConnected), ENOTCONN);
    assert_eq!(from_kind(IoErrorKind::AddrInUse), EADDRINUSE);
}

#[test]
fn linux_raw_errno_passes_through() {
    assert_eq!(from_os_error(Some(ECONNREFUSED), true, IoErrorKind::Other), ECONNREFUSED);
    assert_eq!(from_os_error(Some(75), true, IoErrorKind::Other), 75);
    assert_eq!(from_os_error(None, true, IoErrorKind::NotFound), ENOENT);
}

#[test]
fn win32_codes_translate() {
    let win = |code: i32| from_os_error(Some(code), false, IoErrorKind::Other);
    assert_eq!(win(2), ENOENT);
    assert_eq!(win(5), EACCES);
    assert_eq!(win(183), EEXIST);
    assert_eq!(win(145), ENOTEMPTY);
    assert_eq!(win(10061), ECONNREFUSED);
    assert_eq!(win(10035), EAGAIN);
    assert_eq!(win(0x7fff_0000), EIO);
    assert_eq!(from_win32(0x7fff_0000), None);
    assert_eq!(from_win32(2), Some(ENOENT));
}

#[test]
fn wire_addr_packing() {
    let mut buf = Vec::new();
    pack_addr(&mut buf, &loopback(0x1234));
    assert_eq!(buf, [2, 0, 0, 0, 0x34, 0x12, 4, 127, 0, 0, 1]);
    let mut buf = Vec::new();
    pack_no_addr(&mut buf);
    assert_eq!(buf, [0, 0, 0, 0, 0, 0, 0]);
    let v6 = SocketAddress { ip: IpAddress::V6(1), port: 80 };
    let mut buf = Vec::new();
    pack_addr(&mut buf, &v6);
    assert_eq!(buf.len(), 4 + 2 + 1 + 16);
    assert_eq!(&buf[..7], &[10, 0, 0, 0, 80, 0, 16]);
    assert_eq!(buf[22], 1);
    assert_eq!(addr_result(&loopback(80))[..4], [0, 0, 0, 0]);
}

#[test]
fn a_failed_call_returns_its_negated_errno() {
    assert_eq!(ret_vec(Err(EBADF)), (-EBADF).to_le_bytes().to_vec());
    assert_eq!(ret_vec(Ok(vec![1, 2])), vec![1, 2]);
}

#[test]
fn a_mount_not_there_is_not_read_only() {
    assert!(check_ro(&[false, true], 1));
    assert!(!check_ro(&[false, true], 0));
    assert!(!check_ro(&[false, true], 2));
}

#[test]
fn poll_events_round_trip_through_the_host_flags() {
    let f = poll_flags(1 | 4, false);
    assert!(f.input && f.output && !f.pri);
    assert_eq!(linux_revents(f, false), 1 | 4);
    let f = poll_flags(2, true);
    assert!(!f.pri, "Windows' poll refuses POLLPRI");
    let mut err = poll_flags(0, false);
    err.err = true;
    assert_eq!(linux_revents(err, false), 1 | 4 | 8);
    let mut hup = poll_flags(0, false);
    hup.hup = true;
    assert_eq!(linux_revents(hup, false), 16);
    assert_eq!(linux_revents(hup, true), 1 | 16);
}

#[test]
fn unsupported_family_type_and_protocol() {
    assert_eq!(socket_args(1, SOCK_STREAM, 0).unwrap_err(), EAFNOSUPPORT);
    assert_eq!(socket_args(AF_INET, 3, 0).unwrap_err(), EPROTONOSUPPORT);
    let (family, ty, _) = socket_args(AF_INET6, SOCK_DGRAM, 0).unwrap();
    assert_eq!(family, Family::Inet6);
    assert_eq!(ty, SockType::Dgram);
    let (family, ty, _) = socket_args(AF_INET, SOCK_STREAM | 0x800, 0).unwrap();
    assert_eq!(family, Family::Inet);
    assert_eq!(ty, SockType::Stream);
}

#[test]
fn unknown_fd_is_ebadf() {
    let mut t: SocketTable<u8> = SocketTable::new();
    assert_eq!(t.get(7).unwrap_err(), EBADF);
    let fd = t.insert(9).unwrap();
    assert_eq!(*t.get(fd).unwrap(), 9);
    assert_eq!(t.len(), 1);
    assert_eq!(t.remove(fd).unwrap(), 9);
    assert_eq!(t.remove(fd).unwrap_err(), EBADF);
    assert_eq!(t.len(), 0);
}

#[test]
fn the_socket_table_is_bounded() {
    let mut t: SocketTable<u8> = SocketTable::new();
    let mut last = 0;
    for _ in 0..1024 {
        last = t.insert(0).unwrap();
    }
    assert_eq!(t.insert(0).unwrap_err(), EMFILE);
    assert!(t.remove(last).is_ok());
    assert!(t.insert(0).is_ok());
}

#[test]
fn socket_options_and_shutdown() {
    assert_eq!(shutdown_how(0), Shutdown::Read);
    assert_eq!(shutdown_how(1), Shutdown::Write);
    assert_eq!(shutdown_how(2), Shutdown::Both);
    assert_eq!(getsockopt_option(-1, -1).unwrap_err(), ENOPROTOOPT);
    assert!(setsockopt_option(-1, -1).is_err());
    let e = setsockopt_option(-1, -1).unwrap_err();
    assert!(e == ENOPROTOOPT || e == EINVAL);
}

#[test]
fn poll_timeouts() {
    assert_eq!(poll_timeout(1, 5000), Some(0));
    assert_eq!(poll_timeout(0, -1), None);
    assert_eq!(poll_timeout(0, 250), Some(250));
    assert_eq!(timespec_of(1500), (1, 500_000_000));
}

#[test]
fn a_call_may_use_only_a_mount_it_names() {
    let ro = [false, true];
    assert_eq!(mount_for(&ro, 0, true), Ok(0));
    assert_eq!(mount_for(&ro, 1, false), Ok(1));
    assert_eq!(mount_for(&ro, 1, true), Err(EROFS));
    assert_eq!(mount_for(&ro, 2, false), Err(EINVAL));
    assert_eq!(mount_for(&ro, -1, false), Err(EINVAL));
}

#[test]
fn hostfs_replies_are_laid_out_for_the_guest() {
    assert_eq!(read_len(0), 1);
    assert_eq!(read_len(10), 10);
    assert_eq!(read_len(1 << 40), CHUNK);
    assert_eq!(synth_mode(true, false, false), 0o40755);
    assert_eq!(synth_mode(false, true, true), 0o120555);
    assert_eq!(synth_mode(false, false, false), 0o100755);
    let stat = stat_reply(0x0102_0304_0506_0708, 0o100644, false, true);
    assert_eq!(
        stat,
        [0, 0, 0, 0, 8, 7, 6, 5, 4, 3, 2, 1, 0xa4, 0x81, 0, 0, 0, 1]
    );
    assert_eq!(data_reply(b"hi"), [0, 0, 0, 0, b'h', b'i']);
    let listing = list_reply(&vec![(true, b"d".to_vec()), (false, b"f.txt".to_vec())]);
    assert_eq!(
        listing,
        [0, 0, 0, 0, 2, 0, 0, 0, 1, 1, 0, b'd', 0, 5, 0, b'f', b'.', b't', b'x', b't']
    );
    assert_eq!(list_path(""), ".");
    assert_eq!(list_path("sub"), "sub");
    assert!(mode_is_readonly(0o444));
    assert!(!mode_is_readonly(0o644));
}

#[test]
fn inbound_is_opt_in() {
    let none: Option<hyperlight_unikraft::net_policy::ListenPorts> = None;
    assert_eq!(allow_bind(&none, 8080), Err(EACCES), "no --port: outbound-only");
    assert_eq!(allow_bind(&none, 0), Ok(()), "an ephemeral bind is a client's");
    let some = Some(hyperlight_unikraft::net_policy::ListenPorts::from_ports(vec![8080]));
    assert_eq!(allow_bind(&some, 8080), Ok(()));
    assert_eq!(allow_bind(&some, 9090), Err(EACCES));
    assert_eq!(allow_bind(&some, 0), Ok(()));
}
