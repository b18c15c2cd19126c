use hyperlight_unikraft::template::{
    find, ordered, relative, resolve_source, substitute, Files, Meta, Origin, Source, Template,
    TemplateFile, Vars, MAX_BYTES, MAX_FILES, META_FILE, TMPL_SUFFIX,
};

const VARS: Vars<'static> = Vars {
    name: "demo",
    version: "1.2.3",
    registry: "ghcr.io/example/hluk",
    image: "ghcr.io/example/hluk/python:initrd-v1.2.3",
    base: "ghcr.io/example/hluk/python:v1.2.3",
};

fn file(path: &str, text: &str) -> TemplateFile {
    TemplateFile { path: path.into(), text: text.into(), executable: false }
}

fn template(name: &str, runtime: &str, tier: Option<u8>, mut files: Vec<TemplateFile>) -> Template {
    files.push(file(
        META_FILE,
        &format!("[template]\ndescription = \"{name}\"\nruntime = \"{runtime}\"\n"),
    ));
    files.push(file(
        "hluk.toml",
        "manifest_version = 1\n[app]\nname = \"{{name}}\"\n[rootfs]\nimage = \"{{image}}\"\n",
    ));
    let meta = Meta { description: format!("{name} starter"), runtime: runtime.into(), tier };
    Template::from_files(name.into(), Origin::BuiltIn, files, meta).unwrap()
}

/// The built-in templates as the library gets them: in directory order,
/// before ordering.
fn built_in() -> Vec<Template> {
    vec![
        template("node", "node", Some(1), vec![file("index.js", "console.log('{{name}}')")]),
        template(
            "rust",
            "rust",
            Some(2),
            vec![
                file("Cargo.toml.tmpl", "[package]\nname = \"{{name}}\"\nversion = \"0.1.0\"\n"),
                file("src/main.rs", "fn main() { println!(\"{{ hi }}\"); }"),
            ],
        ),
        template("python", "python", Some(1), vec![file("main.py", "print('{{name}}')")]),
        template(
            "wasmtime",
            "wasmtime",
            Some(3),
            vec![file("Dockerfile", "FROM {{base}}\n")],
        ),
    ]
}

fn all() -> Vec<Template> {
    ordered(built_in())
}

#[test]
fn every_template_has_metadata_and_a_manifest() {
    let all = all();
    assert!(!all.is_empty());
    for t in &all {
        let files = t.render(&VARS);
        assert!(files.iter().any(|f| f.path == "hluk.toml"), "{}: no hluk.toml", t.name);
        assert!(
            files.iter().all(|f| f.path != META_FILE),
            "{}: template.toml leaked into the project",
            t.name
        );
        assert!(!t.meta.runtime.is_empty(), "{}: no runtime", t.name);
    }
}

#[test]
fn templates_are_ordered_by_tier() {
    let all = all();
    assert!(all.iter().all(|t| t.meta.tier.is_some()), "every built-in template has a tier");
    let tiers: Vec<Option<u8>> = all.iter().map(|t| t.meta.tier).collect();
    let mut sorted = tiers.clone();
    sorted.sort();
    assert_eq!(tiers, sorted);
    assert_eq!(all[0].name, "node");
    assert_eq!(all[1].name, "python", "tier 1 leads the list, by name");
    assert_eq!(all[3].name, "wasmtime");
}

#[test]
fn tmpl_suffix_is_stripped() {
    let all = all();
    let rust = &all[find(&all, "rust").unwrap()];
    assert!(rust.render(&VARS).iter().any(|f| f.path == "Cargo.toml"));
    for t in &all {
        for f in t.render(&VARS) {
            assert!(!f.path.ends_with(TMPL_SUFFIX), "{}: {}", t.name, f.path);
        }
    }
}

#[test]
fn find_is_by_directory_name() {
    let all = all();
    assert!(find(&all, "python").is_some());
    assert!(find(&all, "no-such-template").is_none());
}

#[test]
fn rendering_fills_every_placeholder() {
    for t in all() {
        for f in t.render(&VARS) {
            for var in ["name", "version", "registry", "image", "base"] {
                assert!(
                    !f.text.contains(&format!("{{{{{var}}}}}")),
                    "{}/{}: {{{{{var}}}}} left unfilled",
                    t.name,
                    f.path
                );
            }
        }
    }
}

#[test]
fn substitute_leaves_other_braces_alone() {
    assert_eq!(
        substitute("{{name}} says {{ hi }} and {{version}}", &VARS),
        "demo says {{ hi }} and 1.2.3"
    );
}

#[test]
fn a_built_in_name_wins_over_a_directory() {
    let all = all();
    let python = resolve_source("python", &all, true).unwrap();
    assert!(matches!(python, Source::BuiltIn(i) if all[i].origin == Origin::BuiltIn && all[i].name == "python"));
    let err = resolve_source("no-such-template", &all, false).err().unwrap();
    assert!(err.contains("hluk templates"), "{err}");
    assert!(matches!(resolve_source("./python", &all, true).unwrap(), Source::Dir));
    assert!(matches!(
        resolve_source("github.com/octo/hello", &all, true).unwrap(),
        Source::GitHub(_)
    ));
}

#[test]
fn relative_paths_stay_inside_the_template() {
    assert_eq!(relative("a/./b").as_deref(), Some("a/b"));
    assert_eq!(relative("a/../b"), None);
    assert_eq!(relative("/etc/passwd"), None);
    assert_eq!(relative("."), None);
}

#[test]
fn files_are_bounded() {
    let mut files = Files::new();
    for i in 0..MAX_FILES {
        files.push(format!("f{i}"), 0, b"", false).unwrap();
    }
    assert!(files.push("one-more".into(), 0, b"", false).is_err());
    let mut files = Files::new();
    assert!(files.reserve(MAX_BYTES + 1).is_err());
}

#[test]
fn a_template_must_describe_itself_and_name_a_published_runtime() {
    let meta = || Meta { description: "d".into(), runtime: "cobol".into(), tier: None };
    let err = Template::from_files("t".into(), Origin::BuiltIn, vec![file(META_FILE, "")], meta())
        .err()
        .unwrap();
    assert!(err.contains("no hluk.toml"), "{err}");
    let err = Template::from_files(
        "t".into(),
        Origin::BuiltIn,
        vec![file(META_FILE, ""), file("hluk.toml", "")],
        meta(),
    )
    .err()
    .unwrap();
    assert!(err.contains("\"cobol\" is not one hluk publishes"), "{err}");
}

#[test]
fn files_come_out_sorted_by_path() {
    let mut files = Files::new();
    files.push("b.txt".into(), 1, b"b", true).unwrap();
    files.push("a.txt".into(), 1, b"a", false).unwrap();
    assert!(files.push("bad".into(), 1, &[0xff], false).is_err());
    let v = files.into_vec();
    let paths: Vec<(&str, bool)> = v.iter().map(|f| (f.path.as_str(), f.executable)).collect();
    assert_eq!(paths, [("a.txt", false), ("b.txt", true)]);
    let t = Template::from_files(
        "x".into(),
        Origin::Dir("/t/x".into()),
        vec![file(META_FILE, ""), file("hluk.toml", ""), file("build.sh", "true")],
        Meta { description: "d".into(), runtime: "bash".into(), tier: None },
    )
    .unwrap();
    assert_eq!(t.describe(), "x (d)");
}

#[test]
fn an_origin_says_where_a_template_came_from() {
    assert_eq!(Origin::BuiltIn.describe(), "built-in");
    assert_eq!(Origin::Dir("/t/hello".into()).describe(), "/t/hello");
    assert_eq!(Origin::GitHub("github.com/o/r".into()).describe(), "github.com/o/r");
}

#[test]
fn a_pushed_file_keeps_its_text_and_flag() {
    let mut files = Files::new();
    files.push("run.sh".into(), 4, b"echo hi", true).unwrap();
    files.push("a.txt".into(), 10, b"abc", false).unwrap();
    let err = files.push("bin".into(), 2, b"\xff\xfe", false).unwrap_err();
    assert_eq!(err, "bin: not UTF-8 text; a template's files are all text");
    let kept = files.into_vec();
    assert_eq!(kept.len(), 2);
    assert_eq!(kept[0], TemplateFile { path: "a.txt".into(), text: "abc".into(), executable: false });
    assert_eq!(kept[1], TemplateFile { path: "run.sh".into(), text: "echo".into(), executable: true });
    let mut big = Files::new();
    assert_eq!(
        big.push("x".into(), MAX_BYTES + 1, b"", false).unwrap_err(),
        "the template has more than 256 files or 4 MiB: is it the right directory?"
    );
    assert!(big.is_empty());
}

#[test]
fn rendering_drops_the_metadata_keeps_order_and_plain_text() {
    let t = template(
        "demo",
        "python",
        Some(1),
        vec![
            TemplateFile { path: "run.sh.tmpl".into(), text: "echo {{name}}".into(), executable: true },
            file("notes.txt", "no placeholders { here }"),
        ],
    );
    let out = t.render(&VARS);
    let paths: Vec<&str> = out.iter().map(|f| f.path.as_str()).collect();
    assert_eq!(paths, vec!["run.sh", "notes.txt", "hluk.toml"]);
    assert_eq!(out[0].text, "echo demo");
    assert!(out[0].executable);
    assert_eq!(out[1].text, "no placeholders { here }");
    assert!(!out[1].executable);
}

#[test]
fn text_without_placeholders_is_kept() {
    for text in ["", "{{ hi }} {name} {{nam}}e}}", "fn main() { let x = {{ 1 }}; }"] {
        assert_eq!(substitute(text, &VARS), text);
    }
}

#[test]
fn every_placeholder_is_filled_and_all_else_kept() {
    assert_eq!(
        substitute("{{name}}{{version}}/{{registry}}|{{image}}|{{base}} {{ hi }}{", &VARS),
        "demo1.2.3/ghcr.io/example/hluk|ghcr.io/example/hluk/python:initrd-v1.2.3|ghcr.io/example/hluk/python:v1.2.3 {{ hi }}{"
    );
}
