use hyperlight_unikraft::snapshot::{slot_name, snapshot_key, stamp, stamp_field, superseded, SnapshotEntry};

#[test]
fn a_stamp_describes_itself() {
    let entry = SnapshotEntry {
        dir: "/c/s/ab".into(),
        stamp: "key=k\nrootfs=/p/r.cpio\nsize=1\nmtime=2\nscratch_mb=768\nentry=\nwarm_exec=import flask, pandas\n".into(),
        bytes: 0,
    };
    assert_eq!(
        entry.describe(),
        "rootfs=/p/r.cpio scratch_mb=768 warm_exec=\"import flask, pandas\""
    );
    assert_eq!(stamp_field(&entry.stamp, "scratch_mb").as_deref(), Some("768"));
    assert_eq!(stamp_field(&entry.stamp, "entry").as_deref(), Some(""));
    assert_eq!(stamp_field(&entry.stamp, "nope"), None);
}

#[test]
fn stamp_changes_with_the_rootfs_and_settings() {
    let a = stamp("kx", "/p/r.cpio", 6, 1_700_000_000_123_456_789, 256, None, None);
    assert_eq!(
        a,
        "key=kx\nrootfs=/p/r.cpio\nsize=6\nmtime=1700000000123456789\nscratch_mb=256\nentry=\nwarm_exec=\n"
    );
    assert_eq!(a, stamp("kx", "/p/r.cpio", 6, 1_700_000_000_123_456_789, 256, None, None));
    assert_ne!(a, stamp("kx", "/p/r.cpio", 6, 1_700_000_000_123_456_789, 512, None, None));
    assert_ne!(a, stamp("kx", "/p/r.cpio", 6, 1_700_000_000_123_456_789, 256, Some("/bin/app"), None));
    assert_ne!(a, stamp("kx", "/p/r.cpio", 6, 1_700_000_000_123_456_789, 256, None, Some("import flask")));
    assert_ne!(a, stamp("kx", "/p/r.cpio", 7, 1_700_000_000_123_456_789, 256, None, None));
    assert!(a.contains("kx"));
}

#[test]
fn a_rebuilt_rootfs_supersedes_its_snapshots() {
    let now = stamp("k", "/p/r.cpio", 7, 2, 256, None, None);
    let rebuilt = stamp("k", "/p/r.cpio", 6, 1, 256, None, None);
    let other_settings = stamp("k", "/p/r.cpio", 7, 2, 512, None, None);
    let other_file = stamp("k", "/p/s.cpio", 6, 1, 256, None, None);
    assert!(superseded(&now, &rebuilt));
    assert!(!superseded(&now, &other_settings));
    assert!(!superseded(&now, &other_file));
    assert!(!superseded("key=k\n", &rebuilt));
}

#[test]
fn a_slot_is_named_by_the_stamps_hash() {
    // The first eight bytes of SHA-256("abc").
    assert_eq!(slot_name("abc"), "ba7816bf8f01cfea");
    assert_eq!(slot_name("abc").len(), 16);
    assert_ne!(slot_name("abc"), slot_name("abd"));
}

#[test]
fn the_snapshot_key_names_the_kernel_and_the_contract() {
    assert_eq!(snapshot_key(b"abc", 3), "kba7816bf8f01cfea-c3");
    assert_ne!(snapshot_key(b"abc", 3), snapshot_key(b"abd", 3));
    assert_ne!(snapshot_key(b"abc", 3), snapshot_key(b"abc", 4));
}

#[test]
fn only_a_rebuild_supersedes_whatever_the_settings() {
    let now = stamp("k1", "/p/r.cpio", 7, 2, 256, Some("/bin/app"), None);
    let touched = stamp("k2", "/p/r.cpio", 7, 3, 512, None, Some("import x"));
    let same_file = stamp("k2", "/p/r.cpio", 7, 2, 512, None, Some("import x"));
    assert!(superseded(&now, &touched));
    assert!(!superseded(&now, &same_file));
    assert!(!superseded(&now, &now));
}
