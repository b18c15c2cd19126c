use hyperlight_unikraft::registry::{
    base_image, encode_query, image_version, initrd_image, is_gzipped, parse_challenge,
    pick_manifest, pick_token, registry, runtime_image, runtime_name, token_url, IndexEntry,
    Layer, LayerHasher, Platform, Reference, DEFAULT_REGISTRY, VERSION,
    initrd_in_layer, initrd_layer,
};

#[test]
fn parses_references() {
    let r = Reference::parse("ghcr.io/hyperlight-dev/hyperlight-unikraft/python:initrd-v0.14.1").unwrap();
    assert_eq!(r.host, "ghcr.io");
    assert_eq!(r.repository, "hyperlight-dev/hyperlight-unikraft/python");
    assert_eq!(r.reference, "initrd-v0.14.1");
    assert_eq!(
        r.to_string(),
        "ghcr.io/hyperlight-dev/hyperlight-unikraft/python:initrd-v0.14.1"
    );
    assert_eq!(
        r.cache_relpath(),
        "ghcr.io/hyperlight-dev/hyperlight-unikraft/python/initrd-v0.14.1.cpio"
    );

    let r = Reference::parse("localhost:5000/hluk/python").unwrap();
    assert_eq!(r.host, "localhost:5000");
    assert_eq!(r.reference, "latest");
    assert_eq!(r.cache_relpath(), "localhost_5000/hluk/python/latest.cpio");

    let digest = format!("sha256:{}", "ab".repeat(32));
    let r = Reference::parse(&format!("ghcr.io/o/r@{digest}")).unwrap();
    assert_eq!(r.reference, digest);
    assert_eq!(r.to_string(), format!("ghcr.io/o/r@{digest}"));
    assert_eq!(
        r.cache_relpath(),
        format!("ghcr.io/o/r/{}.cpio", digest.replace(':', "_"))
    );
}

#[test]
fn rejects_references_without_a_host() {
    assert!(Reference::parse("python:latest").is_err());
    assert!(Reference::parse("hyperlight/python").is_err());
    assert!(Reference::parse("ghcr.io/").is_err());
}

#[test]
fn rejects_references_that_are_not_plain_names() {
    for bad in [
        "ghcr.io/../etc:tag",
        "ghcr.io/a/../b:tag",
        "ghcr.io/a/b:../../x",
        "ghcr.io/A/b:tag",
        "ghcr.io/a/b:tag/x",
        "ghcr.io/a/b@sha256:abc",
        "ghcr.io/a/b@md5:00",
        "gh cr.io/a/b:tag",
    ] {
        assert!(Reference::parse(bad).is_err(), "{bad} accepted");
    }
    assert!(Reference::parse("localhost:5000/a.b/c_d-e:v1.0_rc-2").is_ok());
    assert!(Reference::parse(&format!("ghcr.io/a/b@sha256:{}", "ab".repeat(32))).is_ok());
}

#[test]
fn a_reference_reads_back_as_it_was_written() {
    for text in [
        "ghcr.io/o/r:tag",
        "localhost:5000/hluk/python:initrd-v1",
        "r.example/a/b/c@sha256:0123456789abcdef0123456789abcdef0123456789abcdef0123456789abcdef",
    ] {
        let r = Reference::parse(text).unwrap();
        assert_eq!(r.to_string(), text);
        assert_eq!(Reference::parse(&r.to_string()).unwrap(), r);
    }
}

#[test]
fn image_names_follow_the_release() {
    let v = image_version(None, None);
    assert_eq!(v, VERSION);
    assert_eq!(
        initrd_image("ghcr.io/x/y", "python", &v),
        format!("ghcr.io/x/y/python:initrd-v{VERSION}")
    );
    assert_eq!(base_image("ghcr.io/x/y", "node", "0.14.1"), "ghcr.io/x/y/node:v0.14.1");
    assert_eq!(image_version(Some("v0.14.1".into()), None), "0.14.1");
    assert_eq!(image_version(Some("  ".into()), None), VERSION);
    assert_eq!(
        registry(Some("https://r.example/".into()), None),
        "r.example",
        "the scheme is stripped so the reference parses as host/path"
    );
    assert_eq!(registry(Some("http://localhost:5000/".into()), None), "localhost:5000");
}

#[test]
fn a_runtime_spec_is_a_name_or_a_reference() {
    let reg = registry(None, None);
    let version = image_version(None, None);
    assert_eq!(
        runtime_image("python", &reg, &version),
        format!("{DEFAULT_REGISTRY}/python:initrd-v{VERSION}")
    );
    assert_eq!(
        runtime_image("ghcr.io/o/r/node:initrd-v0.14.0", &reg, &version),
        "ghcr.io/o/r/node:initrd-v0.14.0"
    );
    assert_eq!(runtime_name("agent").as_deref(), Some("agent"));
    assert_eq!(runtime_name("ghcr.io/o/r/node:initrd-v0.14.0").as_deref(), Some("node"));
    assert_eq!(
        runtime_name(&format!("ghcr.io/o/r/agent@sha256:{}", "ab".repeat(32))).as_deref(),
        Some("agent")
    );
}

#[test]
fn parses_a_bearer_challenge() {
    let c = parse_challenge(
        r#"Bearer realm="https://ghcr.io/token",service="ghcr.io",scope="repository:a/b:pull""#,
    )
    .unwrap();
    assert_eq!(c.realm, "https://ghcr.io/token");
    assert_eq!(c.service.as_deref(), Some("ghcr.io"));
    assert_eq!(c.scope.as_deref(), Some("repository:a/b:pull"));
    assert!(parse_challenge("Basic realm=x").is_none());
    assert_eq!(encode_query("repository:a/b:pull c"), "repository:a/b:pull%20c");
    assert_eq!(
        token_url(&c),
        "https://ghcr.io/token?service=ghcr.io&scope=repository:a/b:pull"
    );
}

#[test]
fn a_token_answer_gives_its_token() {
    assert_eq!(pick_token("t".into(), "a".into(), "u").unwrap(), "t");
    assert_eq!(pick_token(String::new(), "a".into(), "u").unwrap(), "a");
    assert_eq!(
        pick_token(String::new(), String::new(), "https://r/token").unwrap_err(),
        "https://r/token: no token in the response"
    );
}

#[test]
fn the_index_entry_for_linux_amd64_is_picked() {
    let entry = |arch: &str, os: &str| IndexEntry {
        digest: format!("{arch}-{os}"),
        platform: Some(Platform { architecture: arch.into(), os: os.into() }),
    };
    let entries = vec![
        IndexEntry { digest: "none".into(), platform: None },
        entry("arm64", "linux"),
        entry("amd64", "linux"),
        entry("amd64", "linux"),
    ];
    assert_eq!(pick_manifest(&entries), Some(2));
    assert_eq!(pick_manifest(&entries[..2].to_vec()), None);
}

#[test]
fn a_layer_is_gzipped_unless_it_says_otherwise() {
    let layer = |media: &str| Layer { media_type: media.into(), digest: String::new(), size: 0 };
    assert!(is_gzipped(&layer("application/vnd.docker.image.rootfs.diff.tar.gzip")));
    assert!(is_gzipped(&layer("")));
    assert!(!is_gzipped(&layer("application/vnd.oci.image.layer.v1.tar")));
}

#[test]
fn a_layer_is_checked_against_its_digest() {
    let good = "sha256:ba7816bf8f01cfea414140de5dae2223b00361a396177a9cb410ff61f20015ad";
    let mut h = LayerHasher::new();
    h.update(b"a");
    h.update(b"bc");
    assert!(h.check(good, "img").is_ok());
    let mut h = LayerHasher::new();
    h.update(b"abd");
    let err = h.check(good, "img").unwrap_err();
    assert!(err.starts_with("img: layer digest mismatch (expected sha256:ba78"), "{err}");
}

#[test]
fn an_initrd_image_has_exactly_one_layer() {
    let layer = |d: &str| Layer { media_type: String::new(), digest: d.into(), size: 1 };
    assert_eq!(initrd_layer("r/x:1", &vec![layer("sha256:a")]), Ok(0));
    assert_eq!(initrd_layer("r/x:1", &vec![]).unwrap_err(), "r/x:1: the image has no layers");
    assert_eq!(
        initrd_layer("r/x:1", &vec![layer("a"), layer("b"), layer("c")]).unwrap_err(),
        "r/x:1: the image has 3 layers; a hluk `:initrd` image has one"
    );
}

#[test]
fn a_host_is_a_dns_name_so_no_cache_path_climbs_out() {
    for bad in ["../a:tag", "./a:tag", "a..b.io/x:1", ".ghcr.io/x:1", "ghcr.io./x:1"] {
        assert!(Reference::parse(bad).is_err(), "{bad:?} accepted");
    }
    let r = Reference::parse("localhost:5000/a/b:v1").unwrap();
    assert_eq!(r.cache_relpath(), "localhost_5000/a/b/v1.cpio");
}

fn layer_tar(entries: &[(&str, &[u8])]) -> Vec<u8> {
    let mut b = tar::Builder::new(Vec::new());
    for (path, data) in entries {
        let mut h = tar::Header::new_gnu();
        h.set_size(data.len() as u64);
        h.set_mode(0o644);
        h.set_path(path).unwrap();
        h.set_cksum();
        b.append(&h, *data).unwrap();
    }
    b.into_inner().unwrap()
}

#[test]
fn the_initrd_is_found_in_a_layer_gzipped_or_not() {
    let tar = layer_tar(&[("README", b"hi"), ("out/initrd.cpio", b"070701...")]);
    let plain = Layer { media_type: "application/vnd.oci.image.layer.v1.tar".into(), digest: String::new(), size: 0 };
    assert_eq!(initrd_in_layer(&plain, &tar).unwrap(), b"070701...");
    let mut gz = flate2::write::GzEncoder::new(Vec::new(), flate2::Compression::default());
    std::io::Write::write_all(&mut gz, &tar).unwrap();
    let gzipped = Layer { media_type: "application/vnd.oci.image.layer.v1.tar+gzip".into(), ..plain.clone() };
    assert_eq!(initrd_in_layer(&gzipped, &gz.finish().unwrap()).unwrap(), b"070701...");
    let none = layer_tar(&[("initrd.cpio.bak", b"x")]);
    assert_eq!(
        initrd_in_layer(&plain, &none).unwrap_err(),
        "the image's layer has no initrd.cpio: not a hluk `:initrd` image"
    );
    assert!(initrd_in_layer(&gzipped, &tar).is_err(), "a plain tar does not gunzip");
}

#[test]
fn the_initrd_is_found_before_a_layer_breaks_off() {
    let tar = layer_tar(&[("out/initrd.cpio", b"070701..."), ("README", &[1u8; 600])]);
    let plain = Layer { media_type: "application/vnd.oci.image.layer.v1.tar".into(), digest: String::new(), size: 0 };
    let cut = &tar[..512 + 512 + 512 + 10];
    assert_eq!(initrd_in_layer(&plain, cut).unwrap(), b"070701...");
    let late = layer_tar(&[("README", &[1u8; 600]), ("out/initrd.cpio", b"070701...")]);
    assert_eq!(
        initrd_in_layer(&plain, &late[..512 + 10]).unwrap_err(),
        "reading layer: unexpected EOF during skip"
    );
}

#[test]
fn an_explicit_tag_or_digest_is_displayed_as_written() {
    let r = Reference::parse("  ghcr.io/a/b:v1  ").unwrap();
    assert_eq!(r.to_string(), "ghcr.io/a/b:v1");
    let digest = format!("ghcr.io/a/b@sha256:{}", "ab".repeat(32));
    assert_eq!(Reference::parse(&digest).unwrap().to_string(), digest);
    // A tag after `@` is written back after `:`.
    assert_eq!(Reference::parse("ghcr.io/a/b@v1").unwrap().to_string(), "ghcr.io/a/b:v1");
    // No tag at all is `latest`.
    assert_eq!(Reference::parse("ghcr.io/a/b").unwrap().to_string(), "ghcr.io/a/b:latest");
}

#[test]
fn the_initrd_is_found_before_a_gzip_stream_breaks_off() {
    let mut noise = Vec::new();
    let mut x: u32 = 12345;
    for _ in 0..8192 {
        x = x.wrapping_mul(1103515245).wrapping_add(12345);
        noise.push((x >> 16) as u8);
    }
    let tar = layer_tar(&[("out/initrd.cpio", b"070701..."), ("README", &noise)]);
    let mut gz = flate2::write::GzEncoder::new(Vec::new(), flate2::Compression::default());
    std::io::Write::write_all(&mut gz, &tar).unwrap();
    let whole = gz.finish().unwrap();
    let cut = &whole[..whole.len() - 2000];
    let gzipped = Layer { media_type: "application/vnd.oci.image.layer.v1.tar+gzip".into(), digest: String::new(), size: 0 };
    assert_eq!(initrd_in_layer(&gzipped, cut).unwrap(), b"070701...");
    let late = layer_tar(&[("README", &noise), ("out/initrd.cpio", b"070701...")]);
    let mut gz = flate2::write::GzEncoder::new(Vec::new(), flate2::Compression::default());
    std::io::Write::write_all(&mut gz, &late).unwrap();
    let whole = gz.finish().unwrap();
    let err = initrd_in_layer(&gzipped, &whole[..whole.len() - 2000]).unwrap_err();
    assert!(err.starts_with("reading layer: "), "{err}");
}
