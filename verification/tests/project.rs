use hyperlight_unikraft::guest::Mount;
use hyperlight_unikraft::project::{
    cache_root, check_pie_header, check_runtime_name, command_program, docker_tag, first_word, host_path,
    merge_gitignore, scratch_note, validate_name,
};

#[test]
fn names_are_checked() {
    for ok in ["hello", "hello-world", "hello_2", "A"] {
        validate_name(ok).unwrap_or_else(|e| panic!("{ok}: {e}"));
    }
    for bad in ["", "1abc", "-x", "a b", "a/b", "a.b", &"x".repeat(65)] {
        assert!(validate_name(bad).is_err(), "{bad:?} accepted");
    }
    assert!(validate_name(&"x".repeat(64)).is_ok());
    assert_eq!(
        validate_name("a b").unwrap_err(),
        "project name \"a b\": use letters, digits, `-` and `_`, starting with a letter (pass --name to choose one)"
    );
}

#[test]
fn build_command_program_skips_assignments() {
    assert_eq!(
        command_program("CGO_ENABLED=0 GOOS=linux go build -o bin/app .").as_deref(),
        Some("go")
    );
    assert_eq!(command_program("cargo build --release").as_deref(), Some("cargo"));
    assert_eq!(command_program("(cd src && make)"), None);
    assert_eq!(command_program("mkdir -p bin && gcc -o bin/app main.c"), None);
    assert_eq!(command_program("   "), None);
    assert_eq!(command_program("{ ./build.sh }").as_deref(), Some("./build.sh"));
}

#[test]
fn gitignore_is_merged_not_replaced() {
    let merged = merge_gitignore("target/\n", "# comment\n.hluk/\ntarget/\n");
    assert_eq!(merged, "target/\n\n# hluk\n.hluk/\n");
    assert_eq!(merge_gitignore(".hluk/\n", ".hluk/\n"), ".hluk/\n");
    assert_eq!(merge_gitignore("", ".hluk/\n"), "\n# hluk\n.hluk/\n");
    assert_eq!(merge_gitignore("a", "  a  \nb\n"), "a\n\n# hluk\nb\n");
}

#[test]
fn an_unknown_runtime_name_is_refused_before_the_network() {
    let err = check_runtime_name("pythn").unwrap_err();
    assert!(err.contains("python") && err.contains("pythn"), "{err}");
    check_runtime_name("python").unwrap();
    check_runtime_name("ghcr.io/o/r/anything:tag").unwrap();
}

#[test]
fn a_guest_path_maps_to_its_host_file_through_the_mounts() {
    let mounts = vec![Mount::ro("/host/bin", "/mnt/app"), Mount::rw("/data", "/mnt/data")];
    assert_eq!(host_path("/mnt/app/app", &mounts).as_deref(), Some("/host/bin/app"));
    assert_eq!(host_path("/mnt/app", &mounts).as_deref(), Some("/host/bin"));
    let slashed = vec![Mount::ro("/host/bin", "/mnt/app/")];
    assert_eq!(host_path("/mnt/app/app", &slashed).as_deref(), Some("/host/bin/app"));
    assert_eq!(host_path("/mnt/data/x/y.csv", &mounts).as_deref(), Some("/data/x/y.csv"));
    assert_eq!(host_path("/mnt/application", &mounts), None);
    assert_eq!(host_path("/usr/bin/python3", &mounts), None);
}

#[test]
fn a_fixed_address_binary_is_refused_and_a_pie_is_not() {
    let mut exec = vec![0u8; 64];
    exec[..4].copy_from_slice(b"\x7fELF");
    exec[16..18].copy_from_slice(&2u16.to_le_bytes());
    let mut pie = exec.clone();
    pie[16..18].copy_from_slice(&3u16.to_le_bytes());
    let err = check_pie_header("/tmp/x/fixed", &exec[..18]).unwrap_err();
    assert!(err.contains("not position-independent"), "{err}");
    assert!(err.starts_with("/tmp/x/fixed "), "{err}");
    check_pie_header("/tmp/x/pie", &pie[..18]).unwrap();
    check_pie_header("/tmp/x/script", b"print('hi')").unwrap();
    check_pie_header("/tmp/x/short", &exec[..17]).unwrap();
    assert_eq!(first_word("/mnt/app/fixed --flag").as_deref(), Some("/mnt/app/fixed"));
    assert_eq!(first_word("   "), None);
}

#[test]
fn a_rootfs_past_half_the_memory_gets_a_note() {
    assert_eq!(scratch_note(100 * 1024 * 1024, 256), None);
    assert_eq!(scratch_note(128 * 1024 * 1024, 256), None);
    assert_eq!(
        scratch_note(128 * 1024 * 1024 + 1, 256).unwrap(),
        "note: the rootfs is 129 MiB and [run] scratch_mb = 256; the rootfs is unpacked into that memory, so set scratch_mb to 768 or more"
    );
    assert_eq!(
        scratch_note(300 * 1024 * 1024, 512).unwrap(),
        "note: the rootfs is 300 MiB and [run] scratch_mb = 512; the rootfs is unpacked into that memory, so set scratch_mb to 1280 or more"
    );
}

#[test]
fn an_app_name_becomes_a_docker_tag() {
    assert_eq!(docker_tag("demo"), "hluk-demo-rootfs");
    assert_eq!(docker_tag("My App.v2"), "hluk-my-app.v2-rootfs");
    assert_eq!(docker_tag("a_b/c"), "hluk-a_b-c-rootfs");
}

#[test]
fn merging_twice_adds_nothing_more() {
    for (existing, template) in [
        ("target/\n", "# comment\n.hluk/\ntarget/\n"),
        ("a\r", "  b  \r\n\n#c\nb\r\r\n"),
        ("", ".hluk/\n"),
    ] {
        let once = merge_gitignore(existing, template);
        assert_eq!(merge_gitignore(&once, template), once);
    }
}

#[test]
fn the_cache_lives_where_the_environment_says() {
    let s = |x: &str| Some(x.to_string());
    assert_eq!(cache_root(s("/c"), false, None, s("/x"), s("/h")).unwrap(), "/c");
    assert_eq!(cache_root(None, false, None, s("/x/"), s("/h")).unwrap(), "/x/hluk");
    assert_eq!(cache_root(None, false, None, s(""), s("/h")).unwrap(), "/h/.cache/hluk");
    assert_eq!(cache_root(None, false, None, None, s("/h")).unwrap(), "/h/.cache/hluk");
    assert_eq!(
        cache_root(None, false, None, None, None).unwrap_err(),
        "cannot find a cache directory: set HLUK_CACHE_DIR or HOME"
    );
    assert_eq!(cache_root(None, true, s("C:/L"), s("/x"), s("/h")).unwrap(), "C:/L/hluk/cache");
    assert_eq!(
        cache_root(None, true, None, s("/x"), s("/h")).unwrap_err(),
        "cannot find a cache directory: set HLUK_CACHE_DIR or LOCALAPPDATA"
    );
}
