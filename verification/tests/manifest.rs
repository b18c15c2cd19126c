use hyperlight_unikraft::initrd::DEFAULT_SCRATCH_MB;
use hyperlight_unikraft::manifest::{
    App, Build, Manifest, Net, Port, PortSpec, Rootfs, RootfsSource, Run, Workload,
};
use hyperlight_unikraft::net_policy::NetworkPolicy;

fn run() -> Run {
    Run {
        script: None,
        code: None,
        guest_exec: None,
        entry: None,
        scratch_mb: None,
        mounts: Vec::new(),
        env: Vec::new(),
        warm: false,
        warm_exec: None,
        resolv_conf: None,
        net: None,
    }
}

fn rootfs() -> Rootfs {
    Rootfs { image: None, dockerfile: None, path: None }
}

/// The minimal manifest: an image and a script, read from `/proj`.
fn minimal() -> Manifest {
    Manifest {
        manifest_version: 1,
        app: App { name: "demo".into() },
        rootfs: Rootfs {
            image: Some("ghcr.io/example/hluk/python:initrd-v1.0.0".into()),
            ..rootfs()
        },
        run: Run { script: Some("main.py".into()), ..run() },
        build: None,
        dir: "/proj".into(),
    }
}

fn with_image(image: &str) -> Manifest {
    let mut m = minimal();
    m.rootfs.image = Some(image.into());
    m
}

#[test]
fn minimal_manifest_parses_with_defaults() {
    let m = minimal();
    assert!(m.check().is_ok());
    assert_eq!(m.app.name, "demo");
    assert_eq!(m.run.scratch_mb, None);
    assert!(!m.run.warm);
    assert_eq!(
        m.rootfs(),
        RootfsSource::Image("ghcr.io/example/hluk/python:initrd-v1.0.0".into())
    );
    assert_eq!(m.workload(), Workload::Script("/proj/main.py".into()));
    assert!(m.mounts().is_empty());
    assert!(matches!(m.network(&vec![], &vec![], Vec::new()).unwrap(), (None, None)));
    assert!(!m.needs_build());
    assert_eq!(m.state_dir(), "/proj/.hluk");
}

#[test]
fn memory_is_explicit_else_the_images_tested_size_else_the_libraries() {
    assert_eq!(minimal().known_scratch_mb(), Some(256));
    let agent = with_image("ghcr.io/example/hluk/agent:initrd-v1.0.0");
    assert_eq!(agent.known_scratch_mb(), Some(1536));
    let mut explicit = minimal();
    explicit.run.scratch_mb = Some(64);
    assert_eq!(explicit.known_scratch_mb(), Some(64));
    let other = with_image("ghcr.io/example/hluk/stats-api:initrd-v1.0.0");
    assert_eq!(other.known_scratch_mb(), None);
    assert_eq!(other.known_scratch_mb().unwrap_or(DEFAULT_SCRATCH_MB), DEFAULT_SCRATCH_MB);
}

#[test]
fn relative_paths_resolve_against_the_manifest_dir() {
    let m = Manifest {
        rootfs: Rootfs { path: Some("out/rootfs.cpio".into()), ..rootfs() },
        run: Run {
            code: Some("/mnt/app/app".into()),
            mounts: vec!["./bin:/mnt/app:ro".into(), "/abs:/mnt/abs".into()],
            ..run()
        },
        ..minimal()
    };
    assert!(m.check().is_ok());
    assert_eq!(m.rootfs(), RootfsSource::Path("out/rootfs.cpio".into()));
    assert_eq!(m.resolve("out/rootfs.cpio"), "/proj/out/rootfs.cpio");
    let mounts = m.mounts();
    assert_eq!(mounts[0].host_path, "/proj/./bin");
    assert_eq!(mounts[0].guest_path, "/mnt/app");
    assert!(mounts[0].readonly);
    assert_eq!(mounts[1].host_path, "/abs");
    assert_eq!(m.workload(), Workload::Exec("/mnt/app/app".into()));
}

#[test]
fn net_table_builds_a_policy_and_ports() {
    let m = Manifest {
        rootfs: Rootfs { dockerfile: Some("Dockerfile".into()), ..rootfs() },
        run: Run {
            script: Some("server.py".into()),
            net: Some(Net {
                all: true,
                allow: Vec::new(),
                block: Vec::new(),
                ports: vec![Port::Number(8080), Port::Spec("9000-9010".into())],
            }),
            ..run()
        },
        ..minimal()
    };
    assert!(m.check().is_ok());
    let (policy, listen) = m.network(&vec![], &vec![], Vec::new()).unwrap();
    assert!(matches!(policy, Some(NetworkPolicy::AllowAll)));
    let listen = listen.unwrap();
    assert!(listen.allows(8080));
    assert!(listen.allows(9005));
    assert!(!listen.allows(80));
    assert!(m.needs_build());
}

#[test]
fn rejects_the_inconsistent() {
    let mut version = minimal();
    version.manifest_version = 2;
    let mut no_rootfs = minimal();
    no_rootfs.rootfs = rootfs();
    let mut two_rootfs = minimal();
    two_rootfs.rootfs.path = Some("r".into());
    let mut two_workloads = minimal();
    two_workloads.run.code = Some("b".into());
    let mut ports_alone = minimal();
    ports_alone.run.net = Some(Net {
        all: false,
        allow: Vec::new(),
        block: Vec::new(),
        ports: vec![Port::Number(80)],
    });
    let mut two_policies = minimal();
    two_policies.run.net = Some(Net {
        all: true,
        allow: vec!["x".into()],
        block: Vec::new(),
        ports: Vec::new(),
    });
    let mut no_name = minimal();
    no_name.app.name = String::new();
    let mut bad_port = minimal();
    bad_port.run.net = Some(Net {
        all: true,
        allow: Vec::new(),
        block: Vec::new(),
        ports: vec![Port::Spec("90-80".into())],
    });
    let cases = [
        (version, "manifest_version 2"),
        (no_rootfs, "exactly one of image, dockerfile or path"),
        (two_rootfs, "exactly one of image, dockerfile or path"),
        (two_workloads, "more than one of script, exec and guest_exec"),
        (ports_alone, "ports need networking"),
        (two_policies, "more than one of all, allow and block"),
        (no_name, "name is empty"),
        (bad_port, "expected a port number, LOW-HIGH or all"),
    ];
    for (m, needle) in cases {
        let err = m.check().unwrap_err();
        assert!(err.contains(needle), "got {err}");
    }
}

#[test]
fn port_specs_read_like_the_flag() {
    assert_eq!(PortSpec::parse("8080").unwrap(), PortSpec::One(8080));
    assert_eq!(PortSpec::parse("9000-9010").unwrap(), PortSpec::Range(9000, 9010));
    assert_eq!(PortSpec::parse("all").unwrap(), PortSpec::All);
    assert_eq!(
        PortSpec::parse("x").unwrap_err(),
        "port \"x\": expected a port number, LOW-HIGH or all"
    );
    assert!(PortSpec::parse("70000").is_err());
    assert!(PortSpec::parse("9010-9000").is_err());
}

#[test]
fn a_build_table_asks_for_a_build() {
    let mut m = minimal();
    m.build = Some(Build { command: "make".into() });
    assert!(m.needs_build());
    assert_eq!(RootfsSource::Dockerfile("Dockerfile".into()).describe(), "Dockerfile Dockerfile");
    assert_eq!(RootfsSource::Image("i".into()).describe(), "image i");
    assert_eq!(RootfsSource::Path("p".into()).describe(), "p");
}

#[test]
fn a_port_entry_that_does_not_read_is_the_networks_error() {
    let m = Manifest {
        run: Run {
            net: Some(Net {
                all: true,
                allow: Vec::new(),
                block: Vec::new(),
                ports: vec![Port::Number(80), Port::Spec("http".into()), Port::Spec("x-y".into())],
            }),
            ..run()
        },
        ..minimal()
    };
    let err = m.network(&vec![], &vec![], Vec::new()).unwrap_err();
    assert_eq!(err, "port \"http\": expected a port number, LOW-HIGH or all");
    let none = minimal();
    let (policy, listen) = none.network(&vec![], &vec![], Vec::new()).unwrap();
    assert!(policy.is_none() && listen.is_none());
}
