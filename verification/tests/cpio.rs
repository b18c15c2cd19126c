use hyperlight_unikraft::cpio::{
    entry_kind, from_entries, from_tar, normalize, tar_entries, Attrs, EntryKind, TarEntry, Writer, S_IFLNK, S_IFREG,
};
use hyperlight_unikraft::initrd::{default_scratch_mb, find_cpio_entry};

/// Read a newc archive back as (name, mode, data) triples.
fn read_cpio(bytes: &[u8]) -> Vec<(String, u32, Vec<u8>)> {
    let mut out = Vec::new();
    let mut pos = 0;
    loop {
        let header = std::str::from_utf8(&bytes[pos..pos + 110]).unwrap();
        assert_eq!(&header[..6], "070701");
        let field = |i: usize| u32::from_str_radix(&header[6 + i * 8..14 + i * 8], 16).unwrap();
        let (mode, filesize, namesize) = (field(1), field(6) as usize, field(11) as usize);
        let name_start = pos + 110;
        let name = std::str::from_utf8(&bytes[name_start..name_start + namesize - 1])
            .unwrap()
            .to_string();
        let data_start = (name_start + namesize).next_multiple_of(4);
        let data = bytes[data_start..data_start + filesize].to_vec();
        pos = (data_start + filesize).next_multiple_of(4);
        if name == "TRAILER!!!" {
            break;
        }
        out.push((name, mode, data));
    }
    out
}

fn entry(name: &str, kind: EntryKind, data: &[u8], link: Option<&str>) -> TarEntry {
    TarEntry {
        path: name.to_string(),
        kind,
        mode: Some(if kind == EntryKind::Directory { 0o755 } else { 0o644 }),
        uid: Some(0),
        gid: Some(0),
        mtime: Some(1_700_000_000),
        size: Some(data.len() as u64),
        link: link.map(|l| l.to_string()),
        data: data.to_vec(),
        device_major: None,
        device_minor: None,
    }
}

#[test]
fn lays_out_like_find_cpio() {
    let entries = vec![
        entry("./etc/", EntryKind::Directory, b"", None),
        entry("./etc/hosts", EntryKind::Regular, b"", None),
        entry("usr/", EntryKind::Directory, b"", None),
        entry("usr/local/", EntryKind::Directory, b"", None),
        entry("usr/local/bin/", EntryKind::Directory, b"", None),
        entry("usr/local/bin/hl_pydriver", EntryKind::Regular, b"ELF\x7f", None),
        entry("bin/sh", EntryKind::Symlink, b"", Some("busybox")),
        entry("bin/ash", EntryKind::Link, b"", Some("bin/busybox")),
    ];
    let (out, stats) = from_entries(&entries, &None).unwrap();
    let entries = read_cpio(&out);
    let names: Vec<&str> = entries.iter().map(|(n, _, _)| n.as_str()).collect();
    assert_eq!(
        names,
        [
            ".",
            "etc",
            "usr",
            "usr/local",
            "usr/local/bin",
            "usr/local/bin/hl_pydriver",
            "bin/sh",
            "bin/ash",
            "etc/hosts",
            "etc/nsswitch.conf",
            "etc/resolv.conf",
        ]
    );
    let driver = &entries[5];
    assert_eq!(driver.1, S_IFREG | 0o644);
    assert_eq!(driver.2, b"ELF\x7f");
    let sh = &entries[6];
    assert_eq!(sh.1, S_IFLNK | 0o777);
    assert_eq!(sh.2, b"busybox");
    assert_eq!(entries[7].2, b"/bin/busybox", "a hard link becomes an absolute symlink");
    assert!(std::str::from_utf8(&entries[8].2).unwrap().contains("unikraft"));
    assert!(std::str::from_utf8(&entries[10].2).unwrap().contains("single-request"));
    assert_eq!(stats.entries, 10);
    assert_eq!(out.len() % 4, 0);
}

#[test]
fn adds_etc_when_the_image_has_none() {
    let entries = vec![entry("app", EntryKind::Regular, b"x", None)];
    let (out, _) = from_entries(&entries, &None).unwrap();
    let names: Vec<String> = read_cpio(&out).into_iter().map(|(n, _, _)| n).collect();
    assert_eq!(names[..3], [".", "app", "etc"]);
    assert!(names.contains(&"etc/resolv.conf".to_string()));
}

#[test]
fn the_library_finds_the_driver_in_the_result() {
    let entries = vec![
        entry("usr/", EntryKind::Directory, b"", None),
        entry("usr/local/", EntryKind::Directory, b"", None),
        entry("usr/local/bin/", EntryKind::Directory, b"", None),
        entry("usr/local/bin/hl_nodedriver", EntryKind::Regular, b"ELF", None),
    ];
    let (out, _) = from_entries(&entries, &None).unwrap();
    assert_eq!(
        find_cpio_entry(&out),
        Some("/usr/local/bin/hl_nodedriver".to_string())
    );
}

#[test]
fn an_entry_whose_size_disagrees_with_its_data_is_refused() {
    let mut bad = entry("app", EntryKind::Regular, b"xyz", None);
    bad.size = Some(10);
    assert_eq!(
        from_entries(&vec![bad], &None).unwrap_err(),
        "writing app: app: 3 of 10 bytes"
    );
    let mut huge = entry("big", EntryKind::Regular, b"", None);
    huge.size = Some(1 << 33);
    assert_eq!(
        from_entries(&vec![huge], &None).unwrap_err(),
        "writing big: big: 8589934592 bytes, over the 4 GiB a newc entry can hold"
    );
}

#[test]
fn the_first_refused_entry_names_the_error_before_a_broken_tar() {
    let mut bad = entry("a", EntryKind::Regular, b"x", None);
    bad.size = Some(2);
    let ok = entry("b", EntryKind::Directory, b"", None);
    let stop = Some("reading tar: unexpected EOF during skip".to_string());
    assert_eq!(
        from_entries(&vec![ok.clone(), bad], &stop).unwrap_err(),
        "writing a: a: 1 of 2 bytes"
    );
    assert_eq!(
        from_entries(&vec![ok], &stop).unwrap_err(),
        "reading tar: unexpected EOF during skip"
    );
}

#[test]
fn normalizes_names() {
    assert_eq!(normalize("./a/b/"), Some("a/b".into()));
    assert_eq!(normalize("/a"), Some("a".into()));
    assert_eq!(normalize("./"), None);
    assert_eq!(normalize("."), None);
    assert_eq!(normalize("a"), Some("a".into()));
}

/// A tar stream of `(path, type, data, link)` entries, as `tar` writes it.
fn tar_of(entries: &[(&str, tar::EntryType, &[u8], Option<&str>)]) -> Vec<u8> {
    let mut b = tar::Builder::new(Vec::new());
    for (path, kind, data, link) in entries {
        let mut h = tar::Header::new_gnu();
        h.set_entry_type(*kind);
        h.set_size(data.len() as u64);
        h.set_mode(0o755);
        if let Some(l) = link {
            h.set_link_name(l).unwrap();
        }
        h.set_path(path).unwrap();
        h.set_cksum();
        b.append(&h, *data).unwrap();
    }
    b.into_inner().unwrap()
}

#[test]
fn a_tar_stream_becomes_a_newc_archive() {
    let tar = tar_of(&[
        ("./usr/", tar::EntryType::Directory, b"", None),
        ("./usr/bin/hl_pydriver", tar::EntryType::Regular, b"#!py", None),
        ("./usr/bin/py", tar::EntryType::Symlink, b"", Some("hl_pydriver")),
        ("./etc/hosts", tar::EntryType::Regular, b"", None),
    ]);
    let (entries, stop) = tar_entries(&tar);
    assert!(stop.is_none());
    assert_eq!(entries.len(), 4);
    assert_eq!(entries[0].kind, EntryKind::Directory);
    assert_eq!(entries[1].data, b"#!py");
    assert_eq!(entries[2].link.as_deref(), Some("hl_pydriver"));
    let (bytes, stats) = from_tar(&tar).unwrap();
    let names: Vec<String> = read_cpio(&bytes).into_iter().map(|(n, _, _)| n).collect();
    assert_eq!(
        names,
        vec![".", "usr", "usr/bin/hl_pydriver", "usr/bin/py", "etc", "etc/hosts", "etc/nsswitch.conf", "etc/resolv.conf"]
    );
    assert_eq!(stats.entries, 7);
    assert_eq!(find_cpio_entry(&bytes).as_deref(), Some("/usr/bin/hl_pydriver"));
    assert!(
        from_tar(&[1u8; 512]).unwrap_err().starts_with("reading tar: "),
        "a header with a bad checksum does not read"
    );
}

#[test]
fn a_tar_cut_short_is_refused_at_the_entry_it_cuts() {
    let tar = tar_of(&[
        ("./usr/", tar::EntryType::Directory, b"", None),
        ("./app", tar::EntryType::Regular, &[7u8; 600], None),
    ]);
    let cut = &tar[..512 + 512 + 100];
    let (entries, _) = tar_entries(cut);
    assert_eq!(entries.len(), 2);
    assert_eq!(entries[1].data.len(), 100);
    assert_eq!(from_tar(cut).unwrap_err(), "writing app: app: 100 of 600 bytes");
    let whole_entries = &tar[..512 + 512 + 1024];
    assert!(from_tar(whole_entries).is_ok(), "a tar without its end blocks still reads");
}

#[test]
fn a_type_flag_names_its_kind() {
    assert_eq!(entry_kind(b'0'), EntryKind::Regular);
    assert_eq!(entry_kind(0), EntryKind::Regular);
    assert_eq!(entry_kind(b'1'), EntryKind::Link);
    assert_eq!(entry_kind(b'2'), EntryKind::Symlink);
    assert_eq!(entry_kind(b'5'), EntryKind::Directory);
    assert_eq!(entry_kind(b'7'), EntryKind::Continuous);
    assert_eq!(entry_kind(b'x'), EntryKind::Other);
}

#[test]
fn an_etc_directory_is_added_only_when_the_tar_has_none() {
    let tar = tar_of(&[
        ("./etc/", tar::EntryType::Directory, b"", None),
        ("./etc/resolv.conf", tar::EntryType::Regular, b"", None),
    ]);
    let (bytes, stats) = from_tar(&tar).unwrap();
    let names: Vec<String> = read_cpio(&bytes).into_iter().map(|(n, _, _)| n).collect();
    assert_eq!(names, vec![".", "etc", "etc/hosts", "etc/nsswitch.conf", "etc/resolv.conf"]);
    assert_eq!(stats.entries, 4);
}

#[test]
fn an_archive_is_sized_by_its_marker_then_its_first_driver() {
    let driver = entry("usr/bin/hl_pywarmdriver", EntryKind::Regular, b"ELF", None);
    let second = entry("usr/local/bin/hl_nodedriver", EntryKind::Regular, b"ELF", None);
    let (plain, _) = from_entries(&vec![driver.clone(), second.clone()], &None).unwrap();
    assert_eq!(default_scratch_mb(&plain), 256, "the first driver's image, python-shell");
    let marker = entry("etc/hluk-runtime", EntryKind::Regular, b" agent\n", None);
    let (marked, _) = from_entries(&vec![driver.clone(), marker], &None).unwrap();
    assert_eq!(default_scratch_mb(&marked), 1536, "the marker wins");
    let unknown = entry("etc/hluk-runtime", EntryKind::Regular, b"cobol", None);
    let (odd, _) = from_entries(&vec![unknown, second], &None).unwrap();
    assert_eq!(default_scratch_mb(&odd), 512, "an unknown runtime falls back to the driver's");
    let (bare, _) = from_entries(&vec![], &None).unwrap();
    assert_eq!(default_scratch_mb(&bare), 256);
}

#[test]
fn finishing_counts_what_was_written_and_ends_with_the_trailer() {
    let (out, stats) = Writer::new().finish();
    assert_eq!(out.len(), 236);
    assert_eq!((stats.entries, stats.bytes), (0, 0));
    let mut w = Writer::new();
    w.dir("d", Attrs::root(0o755)).unwrap();
    w.file("d/f", Attrs::root(0o644), 5, b"hello").unwrap();
    w.symlink("l", "d/f", Attrs::root(0o777)).unwrap();
    let (out, stats) = w.finish();
    assert_eq!((stats.entries, stats.bytes), (3, 8));
    assert_eq!(out.len() % 4, 0);
    let names: Vec<String> = read_cpio(&out).into_iter().map(|(n, _, _)| n).collect();
    assert_eq!(names, vec![".", "d", "d/f", "l"]);
}
