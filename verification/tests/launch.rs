use hyperlight_unikraft::guest::Exec;
use hyperlight_unikraft::launch::{plan_run, snapshot_settings_conflict, NetSource, RunFlags};
use hyperlight_unikraft::manifest::{App, Manifest, Rootfs, Run};

fn flags() -> RunFlags {
    RunFlags {
        script: None,
        code: None,
        guest_exec: None,
        runtime: None,
        entry: None,
        scratch_mb: None,
        mounts: Vec::new(),
        net: false,
        net_allow: Vec::new(),
        net_block: Vec::new(),
        ports: Vec::new(),
        envs: Vec::new(),
        resolv_conf: None,
        warm: false,
        cold: false,
        warm_exec: None,
    }
}

fn project() -> Manifest {
    Manifest {
        manifest_version: 1,
        app: App { name: "demo".into() },
        rootfs: Rootfs { image: Some("ghcr.io/example/hluk/python:initrd-v1.0.0".into()), dockerfile: None, path: None },
        run: Run {
            script: Some("main.py".into()),
            code: None,
            guest_exec: None,
            entry: Some("/bin/app".into()),
            scratch_mb: None,
            mounts: vec!["data:/mnt/data:ro".into()],
            env: vec![("A".into(), "1".into())],
            warm: true,
            warm_exec: Some("import x".into()),
            resolv_conf: Some("resolv.conf".into()),
            net: None,
        },
        build: None,
        dir: "/proj".into(),
    }
}

#[test]
fn the_flags_win_over_the_manifest() {
    let m = project();
    let mut f = flags();
    f.code = Some("print(1)".into());
    f.mounts = vec!["/tmp:/mnt/tmp".into()];
    f.envs = vec!["B=2".into()];
    f.net = true;
    f.entry = Some("/bin/other".into());
    let plan = plan_run(&f, Some(&m), Some(b"")).unwrap();
    assert!(matches!(&plan.workload, Exec::Code(c) if c == "print(1)"));
    assert!(!plan.no_workload);
    let mounts: Vec<(&str, &str, bool)> =
        plan.mounts.iter().map(|m| (m.host_path.as_str(), m.guest_path.as_str(), m.readonly)).collect();
    assert_eq!(mounts, vec![("/proj/data", "/mnt/data", true), ("/tmp", "/mnt/tmp", false)]);
    assert_eq!(plan.env, vec![("A".to_string(), "1".to_string()), ("B".to_string(), "2".to_string())]);
    assert_eq!(plan.network, NetSource::Flags);
    assert_eq!(plan.entry.as_deref(), Some("/bin/other"));
    assert_eq!(plan.resolv_conf.as_deref(), Some("/proj/resolv.conf"));
    assert_eq!(plan.warm_exec.as_deref(), Some("import x"));
    assert!(plan.warm);
    // The python image is tested with 256 MiB.
    assert_eq!(plan.scratch_mb, Some(256));
}

#[test]
fn the_manifest_fills_in_what_the_flags_leave() {
    let m = project();
    let plan = plan_run(&flags(), Some(&m), Some(b"")).unwrap();
    assert!(matches!(&plan.workload, Exec::File(p) if p == "/proj/main.py"));
    assert_eq!(plan.network, NetSource::Manifest);
    let mut cold = flags();
    cold.cold = true;
    cold.scratch_mb = Some(1024);
    let plan = plan_run(&cold, Some(&m), Some(b"")).unwrap();
    assert!(!plan.warm);
    assert_eq!(plan.scratch_mb, Some(1024));
}

#[test]
fn nothing_named_runs_the_conventional_entrypoint() {
    let plan = plan_run(&flags(), None, Some(b"")).unwrap();
    assert!(plan.no_workload);
    assert!(matches!(&plan.workload, Exec::Guest(g) if g.is_empty()));
    assert_eq!(plan.network, NetSource::Off);
    assert!(!plan.warm);
    assert_eq!(plan.scratch_mb, Some(256));
}

#[test]
fn a_runtime_runs_warm_at_its_tested_size() {
    let mut f = flags();
    f.runtime = Some("node".into());
    let plan = plan_run(&f, None, Some(b"")).unwrap();
    assert!(plan.warm);
    assert_eq!(plan.scratch_mb, Some(512));
}

#[test]
fn warm_needs_a_rootfs() {
    let mut f = flags();
    f.warm = true;
    assert_eq!(
        plan_run(&f, None, None).err().unwrap(),
        "--warm needs a rootfs: a project, --runtime or --initrd"
    );
    f.warm = false;
    let plan = plan_run(&f, None, None).unwrap();
    assert_eq!(plan.scratch_mb, None);
}

#[test]
fn a_restored_snapshot_refuses_boot_settings() {
    assert!(!snapshot_settings_conflict(false, true, true, true, true));
    assert!(!snapshot_settings_conflict(true, false, false, false, false));
    assert!(snapshot_settings_conflict(true, false, false, false, true));
    assert!(snapshot_settings_conflict(true, true, false, false, false));
}
