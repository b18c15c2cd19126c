use hyperlight_unikraft::guest::{call_outcome, Yield};
use hyperlight_unikraft::guest::{
    describe_snapshot_tag, fstab_arg, fstab_entries, options_line_has_single_request,
    snapshot_tag_key, with_single_request, Error,
    GuestConfig, Mount, FSTAB_ENTRIES_MAX, MOUNTS_MAX,
};
use hyperlight_unikraft::initrd::{
    default_scratch_mb, find_cpio_entry, resolve_entry, scan_cpio, DEFAULT_SCRATCH_MB,
};

/// A minimal newc-format cpio entry.
fn cpio_entry(name: &str, data: &[u8]) -> Vec<u8> {
    let namesize = name.len() + 1;
    let filesize = data.len();
    let header = format!(
        "070701{}{}{}{}{}{}{:08X}{}{}{}{}{:08X}{}",
        "00000000",
        "00000000",
        "00000000",
        "00000000",
        "00000001",
        "00000000",
        filesize,
        "00000000",
        "00000000",
        "00000000",
        "00000000",
        namesize,
        "00000000",
    );
    assert_eq!(header.len(), 110);
    let mut buf = Vec::new();
    buf.extend_from_slice(header.as_bytes());
    buf.extend_from_slice(name.as_bytes());
    buf.push(0);
    let name_pad = (4 - ((110 + namesize) % 4)) % 4;
    buf.extend(std::iter::repeat_n(0u8, name_pad));
    buf.extend_from_slice(data);
    let data_pad = (4 - (filesize % 4)) % 4;
    buf.extend(std::iter::repeat_n(0u8, data_pad));
    buf
}

fn cpio(entries: &[(&str, &[u8])]) -> Vec<u8> {
    let mut out = Vec::new();
    for (name, data) in entries {
        out.extend(cpio_entry(name, data));
    }
    out.extend(cpio_entry("TRAILER!!!", &[]));
    out
}

#[test]
fn snapshot_tag_key_reads_only_a_keyed_tag() {
    assert_eq!(snapshot_tag_key("0.14.0"), None);
    assert_eq!(
        snapshot_tag_key("0.15.0-rc1-kdeadbeefdeadbeef-c2"),
        Some("kdeadbeefdeadbeef-c2".to_string())
    );
    assert_eq!(snapshot_tag_key("0.15.0-kappa-c2"), None);
    assert_eq!(describe_snapshot_tag("0.14.0"), "0.14.0");
}

#[test]
fn a_keyed_tag_is_described_by_release_and_key() {
    assert_eq!(
        describe_snapshot_tag("0.0.1-k0000000000000000-c0"),
        "0.0.1 (k0000000000000000-c0)"
    );
}

#[test]
fn paging_budget_is_75_percent() {
    let cfg = GuestConfig::new(String::new(), 256 * 1024 * 1024, 0, 0, Vec::new(), None, None);
    assert_eq!(cfg.paging_budget(), 192 * 1024 * 1024);
}

#[test]
fn resolve_entry_prefers_explicit() {
    let explicit = Some("/custom/bin/myapp".to_string());
    let initrd = Some(cpio(&[("usr/local/bin/hl_pydriver", b"ELF")]));
    assert_eq!(
        resolve_entry(&explicit, &initrd),
        Some("/custom/bin/myapp".to_string())
    );
    assert_eq!(
        resolve_entry(&None, &initrd),
        Some("/usr/local/bin/hl_pydriver".to_string())
    );
    assert_eq!(resolve_entry(&None, &None), None);
}

#[test]
fn find_cpio_entry_detects_drivers() {
    let py = cpio(&[("usr/local/bin/hl_pydriver", b"ELF")]);
    assert_eq!(find_cpio_entry(&py), Some("/usr/local/bin/hl_pydriver".to_string()));
    let node = cpio(&[("usr/bin/hl_nodedriver", b"ELF")]);
    assert_eq!(find_cpio_entry(&node), Some("/usr/bin/hl_nodedriver".to_string()));
}

#[test]
fn find_cpio_entry_skips_non_drivers() {
    let big_data = vec![0xABu8; 1024];
    let data = cpio(&[("etc/big_config", &big_data), ("usr/bin/python3", b"ELF")]);
    assert_eq!(find_cpio_entry(&data), None);
}

#[test]
fn find_cpio_entry_skips_data_to_find_driver() {
    let big_data = vec![0xABu8; 4096];
    let data = cpio(&[("etc/config", &big_data), ("usr/local/bin/hl_pydriver", b"ELF")]);
    assert_eq!(find_cpio_entry(&data), Some("/usr/local/bin/hl_pydriver".to_string()));
}

#[test]
fn an_unreadable_initrd_gets_the_flat_default() {
    assert_eq!(default_scratch_mb(b""), DEFAULT_SCRATCH_MB);
    assert_eq!(default_scratch_mb(b"not a cpio archive at all"), DEFAULT_SCRATCH_MB);
}

#[test]
fn default_scratch_follows_the_driver_in_the_initrd() {
    let node = cpio(&[("usr/local/bin/hl_nodedriver", b"ELF")]);
    assert_eq!(default_scratch_mb(&node), 512);
    let plain = cpio(&[("bin/app", b"ELF")]);
    assert_eq!(default_scratch_mb(&plain), DEFAULT_SCRATCH_MB);
}

#[test]
fn runtime_marker_overrides_driver_detection() {
    let agent = cpio(&[
        ("usr/local/bin/hl_pywarmdriver", b"ELF"),
        ("etc/hluk-runtime", b"agent\n"),
    ]);
    assert_eq!(default_scratch_mb(&agent), 1536, "marker wins over driver");
    let scan = scan_cpio(&agent);
    assert_eq!(scan.runtime.as_deref(), Some("agent"));
    assert_eq!(scan.entry.as_deref(), Some("/usr/local/bin/hl_pywarmdriver"));

    let shell = cpio(&[("usr/local/bin/hl_pywarmdriver", b"ELF")]);
    assert_eq!(default_scratch_mb(&shell), 256);
    assert!(scan_cpio(&shell).runtime.is_none());
}

#[test]
fn mount_rw_host_first() {
    let m = Mount::rw("/host/dir", "/guest/path");
    assert_eq!(m.host_path, "/host/dir");
    assert_eq!(m.guest_path, "/guest/path");
    assert!(!m.readonly);
}

#[test]
fn mount_ro_host_first() {
    let m = Mount::ro("/host/dir", "/guest/path");
    assert_eq!(m.host_path, "/host/dir");
    assert_eq!(m.guest_path, "/guest/path");
    assert!(m.readonly);
}

#[test]
fn fstab_entries_are_the_arg_without_the_brackets() {
    let mounts = [Mount::rw("/a", "/mnt/a"), Mount::ro("/b", "/mnt/b")];
    let entries = fstab_entries(&mounts).unwrap();
    assert_eq!(entries, "0:/mnt/a:hostfs:0x0::mkmp 1:/mnt/b:hostfs:0x1::mkmp");
    assert_eq!(fstab_arg(&mounts).unwrap(), format!(" vfs.fstab=[{entries}]"));
    assert_eq!(fstab_entries(&[]).unwrap(), "");
}

#[test]
fn fstab_entries_stop_at_what_the_kernel_takes() {
    let many: Vec<Mount> = (0..=MOUNTS_MAX)
        .map(|i| Mount::rw("/tmp", &format!("/mnt/{i}")))
        .collect();
    assert!(fstab_entries(&many[..MOUNTS_MAX]).is_ok());
    assert!(matches!(
        fstab_entries(&many),
        Err(Error::MountTable { mounts, .. }) if mounts == MOUNTS_MAX + 1
    ));
    let long = [Mount::rw("/tmp", &format!("/mnt/{}", "x".repeat(FSTAB_ENTRIES_MAX)))];
    assert!(matches!(fstab_entries(&long), Err(Error::MountTable { .. })));
}

#[test]
fn fstab_single_rw_mount() {
    let arg = fstab_arg(&[Mount::rw("/tmp/share", "/mnt/host")]).unwrap();
    assert_eq!(arg, " vfs.fstab=[0:/mnt/host:hostfs:0x0::mkmp]");
}

#[test]
fn fstab_no_mounts_is_empty() {
    assert_eq!(fstab_arg(&[]).unwrap(), "");
}

#[test]
fn fstab_rejects_a_path_the_kernel_would_misparse() {
    for bad in ["relative", "/mnt/a b", "/mnt/a:b", "/mnt/[a]"] {
        assert!(fstab_arg(&[Mount::rw("/tmp", bad)]).is_err(), "{bad:?} was accepted");
    }
}

#[test]
fn fstab_multiple_mixed_mounts() {
    let arg = fstab_arg(&[Mount::rw("/a", "/mnt/a"), Mount::ro("/b", "/mnt/b")]).unwrap();
    assert_eq!(arg, " vfs.fstab=[0:/mnt/a:hostfs:0x0::mkmp 1:/mnt/b:hostfs:0x1::mkmp]");
}

#[test]
fn single_request_is_added_as_a_token_on_the_options_line() {
    assert_eq!(with_single_request(""), "");
    assert_eq!(
        with_single_request("nameserver 10.0.0.1"),
        "nameserver 10.0.0.1\noptions single-request\n"
    );
    assert_eq!(
        with_single_request("nameserver 10.0.0.1\noptions ndots:5\n"),
        "nameserver 10.0.0.1\noptions ndots:5 single-request\n"
    );
    assert_eq!(
        with_single_request("options ndots:5 single-request\n"),
        "options ndots:5 single-request\n"
    );
    assert_eq!(
        with_single_request("options single-request-reopen\n"),
        "options single-request-reopen single-request\n"
    );
    assert_eq!(
        with_single_request("# single-request\nnameserver 10.0.0.1\n"),
        "# single-request\nnameserver 10.0.0.1\noptions single-request\n"
    );
}

#[test]
fn single_request_counts_only_as_an_option_token() {
    assert!(options_line_has_single_request("options single-request"));
    assert!(options_line_has_single_request("  options ndots:1 single-request timeout:2"));
    assert!(!options_line_has_single_request("options single-request-reopen"));
    assert!(!options_line_has_single_request("nameserver single-request"));
    assert!(!options_line_has_single_request("# options single-request"));
}

#[test]
fn a_drain_gives_every_print_in_order_then_nothing() {
    let mut cfg = GuestConfig::new(String::new(), 256 * 1024 * 1024, 0, 0, Vec::new(), None, None);
    for m in ["one ", "two", "\nthree"] {
        cfg.append_output(m);
    }
    assert_eq!(cfg.drain_output(), "one two\nthree");
    assert_eq!(cfg.drain_output(), "");
}

#[test]
fn a_call_status_of_zero_is_done() {
    assert_eq!(call_outcome(0), Yield::CallDone);
    assert_eq!(call_outcome(3), Yield::CallFailed { status: 3 });
    assert_eq!(call_outcome(-1), Yield::CallFailed { status: -1 });
}
