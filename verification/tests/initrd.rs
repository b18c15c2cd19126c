use hyperlight_unikraft::initrd::{driver_scratch_mb, runtime_of_driver, runtime_scratch_mb};

const DRIVERS: &[&str] = &[
    "hl_pydriver",
    "hl_pywarmdriver",
    "hl_nodedriver",
    "hl_dotnetdriver",
    "hl_pwshdriver",
    "hl_quickjsdriver",
    "hl_wasmtimedriver",
    "hl_bashdriver",
    "hl_godriver",
    "hl_cdriver",
    "hl_rustdriver",
    "hl_dotnetaotdriver",
];

#[test]
fn every_driver_maps_to_a_tested_size() {
    for driver in DRIVERS {
        let runtime = runtime_of_driver(driver).unwrap();
        assert!(
            runtime_scratch_mb(runtime).is_some(),
            "{driver}: {runtime} has no tested size"
        );
    }
    assert_eq!(runtime_scratch_mb("python"), Some(256));
    assert_eq!(runtime_scratch_mb("agent"), Some(1536));
    assert_eq!(runtime_scratch_mb("cobol"), None);
    assert_eq!(driver_scratch_mb("hl_nodedriver"), Some(512));
    assert_eq!(
        driver_scratch_mb("hl_pywarmdriver"),
        Some(256),
        "the shared Python driver resolves to the smaller image"
    );
    assert_eq!(driver_scratch_mb("hl_execdriver"), None);
}

#[test]
fn each_runtime_has_its_tested_size() {
    let sizes = [
        ("c", 64),
        ("rust", 64),
        ("quickjs", 64),
        ("go", 128),
        ("bash", 256),
        ("python", 256),
        ("python-shell", 256),
        ("wasmtime", 256),
        ("dotnet-aot", 256),
        ("node", 512),
        ("dotnet-jit", 768),
        ("powershell", 1024),
        ("agent", 1536),
    ];
    for (name, mb) in sizes {
        assert_eq!(runtime_scratch_mb(name), Some(mb), "{name}");
    }
    assert_eq!(runtime_of_driver("hl_pydriver"), Some("python"));
    assert_eq!(runtime_of_driver("hl_execdriver"), None);
}
