use hyperlight_unikraft::github::GitHubSpec;

fn parse(spec: &str) -> GitHubSpec {
    GitHubSpec::parse(spec).unwrap().unwrap()
}

#[test]
fn parses_the_short_form() {
    let s = parse("github.com/octo/hello");
    assert_eq!((s.owner.as_str(), s.repo.as_str()), ("octo", "hello"));
    assert_eq!(s.git_ref, None);
    assert!(s.path.is_empty());
    assert_eq!(s.template_name(), "hello");

    let s = parse("https://github.com/octo/hello.git/templates/py@v1.2");
    assert_eq!(s.repo, "hello");
    assert_eq!(s.path, ["templates", "py"]);
    assert_eq!(s.git_ref.as_deref(), Some("v1.2"));
    assert_eq!(s.template_name(), "py");
    assert_eq!(s.to_string(), "github.com/octo/hello/templates/py@v1.2");
}

#[test]
fn parses_a_browser_url() {
    let s = parse("https://github.com/octo/hello/tree/main/examples/templates/x/");
    assert_eq!(s.git_ref.as_deref(), Some("main"));
    assert_eq!(s.path, ["examples", "templates", "x"]);
    let s = parse("github.com/octo/hello/tree/x@dev");
    assert_eq!(s.git_ref.as_deref(), Some("dev"));
    assert_eq!(s.path, ["tree", "x"]);
}

#[test]
fn leaves_other_specs_alone_and_refuses_bad_ones() {
    assert_eq!(GitHubSpec::parse("python").unwrap(), None);
    assert_eq!(GitHubSpec::parse("./templates/x").unwrap(), None);
    assert_eq!(GitHubSpec::parse("gitlab.com/a/b").unwrap(), None);
    for bad in [
        "github.com/octo",
        "github.com/octo/hello/../x",
        "github.com/octo/hello@",
        "github.com/octo/hello@a b",
        "github.com/octo/hello@../x",
        "github.com/oc to/hello",
    ] {
        assert!(GitHubSpec::parse(bad).is_err(), "{bad} parsed");
    }
}

#[test]
fn only_the_template_directory_is_taken_from_the_tarball() {
    let spec = parse("github.com/octo/hello/t/x");
    assert_eq!(spec.inside("octo-hello-abc123/README.md"), None);
    assert_eq!(
        spec.inside("octo-hello-abc123/t/x/template.toml"),
        Some("template.toml".to_string())
    );
    assert_eq!(
        spec.inside("octo-hello-abc123/t/x/src/main.py"),
        Some("src/main.py".to_string())
    );
    assert_eq!(spec.inside("octo-hello-abc123/t/xy/other.py"), None);
    assert_eq!(spec.inside("octo-hello-abc123/t/other.py"), None);
}

#[test]
fn the_tarball_url_names_the_ref() {
    let s = parse("github.com/octo/hello@v1");
    assert_eq!(s.tarball_url(), "https://api.github.com/repos/octo/hello/tarball/v1");
    let s = parse("github.com/octo/hello");
    assert_eq!(s.tarball_url(), "https://api.github.com/repos/octo/hello/tarball");
    let s = parse("github.com/octo/hello/t/x");
    assert_eq!(
        s.no_files_error(),
        "github.com/octo/hello/t/x: no files at \"t/x\" in the repository"
    );
}

/// A gzip'd tarball of `(path, mode, data)` regular files.
fn tarball(files: &[(&str, u32, &[u8])]) -> Vec<u8> {
    let mut b = tar::Builder::new(Vec::new());
    for (path, mode, data) in files {
        let mut h = tar::Header::new_gnu();
        h.set_size(data.len() as u64);
        h.set_mode(*mode);
        h.set_path(path).unwrap();
        h.set_cksum();
        b.append(&h, *data).unwrap();
    }
    let tar = b.into_inner().unwrap();
    let mut gz = flate2::write::GzEncoder::new(Vec::new(), flate2::Compression::default());
    std::io::Write::write_all(&mut gz, &tar).unwrap();
    gz.finish().unwrap()
}

#[test]
fn a_tarball_gives_the_templates_files() {
    let spec = parse("github.com/octo/hello/t/x");
    let tgz = tarball(&[
        ("octo-hello-abc/README.md", 0o644, b"readme"),
        ("octo-hello-abc/t/x/template.toml", 0o644, b"runtime = \"python\""),
        ("octo-hello-abc/t/x/run.sh", 0o755, b"echo hi"),
        ("octo-hello-abc/t/y/other", 0o644, b"no"),
    ]);
    let files = spec.template_files(&tgz).unwrap().into_vec();
    let got: Vec<(&str, &str, bool)> =
        files.iter().map(|f| (f.path.as_str(), f.text.as_str(), f.executable)).collect();
    assert_eq!(got, vec![("run.sh", "echo hi", true), ("template.toml", "runtime = \"python\"", false)]);
    let empty = parse("github.com/octo/hello/t/z");
    assert_eq!(
        empty.template_files(&tgz).err().unwrap(),
        "github.com/octo/hello/t/z: no files at \"t/z\" in the repository"
    );
    let bad = tarball(&[("octo-hello-abc/t/x/bin", 0o755, b"\xff\xfe")]);
    assert_eq!(
        spec.template_files(&bad).err().unwrap(),
        "bin: not UTF-8 text; a template's files are all text"
    );
    assert!(spec.template_files(b"not gzip").is_err());
}

#[test]
fn only_values_on_github_are_taken() {
    for other in ["python", "./templates/x", "gitlab.com/a/b", "ftp://github.com/a/b", "https://gitlab.com/a/b"] {
        assert_eq!(GitHubSpec::parse(other).unwrap(), None, "{other}");
    }
    for taken in ["github.com/a/b", "http://github.com/a/b", "https://github.com/a/b"] {
        assert!(GitHubSpec::parse(taken).unwrap().is_some(), "{taken}");
    }
    assert!(GitHubSpec::parse("https://github.com/a").is_err());
}
