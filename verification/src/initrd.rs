//! What the host reads off an initrd before it boots one: the driver the
//! guest runs as its entry point, the runtime the image names, and the
//! scratch memory that runtime was tested with.
use vstd::prelude::*;

use crate::cpio::pad_len;
use crate::text::{
    bytes_between, chars_of, lemma_rfind_before, rfind, rfind_char, same_text, slice_vec, starts_with, string_of,
    trim_chars, trim_end, trim_end_len, trim_ws, utf8_text,
};

verus! {

/// Scratch memory in MiB for a guest with no initrd to size from, and the
/// fallback when the initrd says nothing.  The frame allocator gets 75% of
/// it; the rest covers copy-on-write faults and boot overhead.
pub const DEFAULT_SCRATCH_MB: usize = 256;

/// The tested guest memory of each published runtime image, in MiB.
pub open spec fn runtime_mb(runtime: Seq<char>) -> Option<nat> {
    if runtime == "c"@ || runtime == "rust"@ || runtime == "quickjs"@ {
        Some(64)
    } else if runtime == "go"@ {
        Some(128)
    } else if runtime == "bash"@ || runtime == "python"@ || runtime == "python-shell"@ || runtime
        == "wasmtime"@ || runtime == "dotnet-aot"@ {
        Some(256)
    } else if runtime == "node"@ {
        Some(512)
    } else if runtime == "dotnet-jit"@ {
        Some(768)
    } else if runtime == "powershell"@ {
        Some(1024)
    } else if runtime == "agent"@ {
        Some(1536)
    } else {
        None
    }
}

/// The runtime image a driver binary belongs to.  The two Python variants
/// share a driver and resolve to the smaller image; the `agent` image is
/// known only by name.
pub open spec fn driver_runtime(driver: Seq<char>) -> Option<Seq<char>> {
    if driver == "hl_pydriver"@ {
        Some("python"@)
    } else if driver == "hl_pywarmdriver"@ {
        Some("python-shell"@)
    } else if driver == "hl_nodedriver"@ {
        Some("node"@)
    } else if driver == "hl_dotnetdriver"@ {
        Some("dotnet-jit"@)
    } else if driver == "hl_pwshdriver"@ {
        Some("powershell"@)
    } else if driver == "hl_quickjsdriver"@ {
        Some("quickjs"@)
    } else if driver == "hl_wasmtimedriver"@ {
        Some("wasmtime"@)
    } else if driver == "hl_bashdriver"@ {
        Some("bash"@)
    } else if driver == "hl_godriver"@ {
        Some("go"@)
    } else if driver == "hl_cdriver"@ {
        Some("c"@)
    } else if driver == "hl_rustdriver"@ {
        Some("rust"@)
    } else if driver == "hl_dotnetaotdriver"@ {
        Some("dotnet-aot"@)
    } else {
        None
    }
}

/// The tested memory for a runtime image, by name (`python`, `node`,
/// `agent`, …).
pub fn runtime_scratch_mb(runtime: &str) -> (r: Option<usize>)
    ensures
        match runtime_mb(runtime@) {
            Some(mb) => r == Some(mb as usize),
            None => r is None,
        },
{
    if same_text(runtime, "c") || same_text(runtime, "rust") || same_text(runtime, "quickjs") {
        Some(64)
    } else if same_text(runtime, "go") {
        Some(128)
    } else if same_text(runtime, "bash") || same_text(runtime, "python") || same_text(
        runtime,
        "python-shell",
    ) || same_text(runtime, "wasmtime") || same_text(runtime, "dotnet-aot") {
        Some(256)
    } else if same_text(runtime, "node") {
        Some(512)
    } else if same_text(runtime, "dotnet-jit") {
        Some(768)
    } else if same_text(runtime, "powershell") {
        Some(1024)
    } else if same_text(runtime, "agent") {
        Some(1536)
    } else {
        None
    }
}

/// The runtime image a driver binary belongs to, by the driver's file name.
pub fn runtime_of_driver(driver: &str) -> (r: Option<&'static str>)
    ensures
        match driver_runtime(driver@) {
            Some(rt) => r matches Some(s) && s@ == rt,
            None => r is None,
        },
{
    if same_text(driver, "hl_pydriver") {
        Some("python")
    } else if same_text(driver, "hl_pywarmdriver") {
        Some("python-shell")
    } else if same_text(driver, "hl_nodedriver") {
        Some("node")
    } else if same_text(driver, "hl_dotnetdriver") {
        Some("dotnet-jit")
    } else if same_text(driver, "hl_pwshdriver") {
        Some("powershell")
    } else if same_text(driver, "hl_quickjsdriver") {
        Some("quickjs")
    } else if same_text(driver, "hl_wasmtimedriver") {
        Some("wasmtime")
    } else if same_text(driver, "hl_bashdriver") {
        Some("bash")
    } else if same_text(driver, "hl_godriver") {
        Some("go")
    } else if same_text(driver, "hl_cdriver") {
        Some("c")
    } else if same_text(driver, "hl_rustdriver") {
        Some("rust")
    } else if same_text(driver, "hl_dotnetaotdriver") {
        Some("dotnet-aot")
    } else {
        None
    }
}

/// The tested memory of each published runtime image, in MiB: `c`,
/// `rust` and `quickjs` 64; `go` 128; `bash`, `python`, `python-shell`,
/// `wasmtime` and `dotnet-aot` 256; `node` 512; `dotnet-jit` 768;
/// `powershell` 1024; `agent` 1536.
pub proof fn law_runtime_sizes()
    ensures
        runtime_mb("c"@) == Some(64nat),
        runtime_mb("rust"@) == Some(64nat),
        runtime_mb("quickjs"@) == Some(64nat),
        runtime_mb("go"@) == Some(128nat),
        runtime_mb("bash"@) == Some(256nat),
        runtime_mb("python"@) == Some(256nat),
        runtime_mb("python-shell"@) == Some(256nat),
        runtime_mb("wasmtime"@) == Some(256nat),
        runtime_mb("dotnet-aot"@) == Some(256nat),
        runtime_mb("node"@) == Some(512nat),
        runtime_mb("dotnet-jit"@) == Some(768nat),
        runtime_mb("powershell"@) == Some(1024nat),
        runtime_mb("agent"@) == Some(1536nat),
{
    reveal_strlit("agent");
    reveal_strlit("bash");
    reveal_strlit("c");
    reveal_strlit("dotnet-aot");
    reveal_strlit("dotnet-jit");
    reveal_strlit("go");
    reveal_strlit("hl_bashdriver");
    reveal_strlit("hl_cdriver");
    reveal_strlit("hl_dotnetaotdriver");
    reveal_strlit("hl_dotnetdriver");
    reveal_strlit("hl_godriver");
    reveal_strlit("hl_nodedriver");
    reveal_strlit("hl_pwshdriver");
    reveal_strlit("hl_pydriver");
    reveal_strlit("hl_pywarmdriver");
    reveal_strlit("hl_quickjsdriver");
    reveal_strlit("hl_rustdriver");
    reveal_strlit("hl_wasmtimedriver");
    reveal_strlit("node");
    reveal_strlit("powershell");
    reveal_strlit("python");
    reveal_strlit("python-shell");
    reveal_strlit("quickjs");
    reveal_strlit("rust");
    reveal_strlit("wasmtime");
    assert("c"@.len() != "rust"@.len());
    assert("c"@.len() != "quickjs"@.len());
    assert("c"@.len() != "go"@.len());
    assert("c"@.len() != "bash"@.len());
    assert("c"@.len() != "python"@.len());
    assert("c"@.len() != "python-shell"@.len());
    assert("c"@.len() != "wasmtime"@.len());
    assert("c"@.len() != "dotnet-aot"@.len());
    assert("c"@.len() != "node"@.len());
    assert("c"@.len() != "dotnet-jit"@.len());
    assert("c"@.len() != "powershell"@.len());
    assert("c"@.len() != "agent"@.len());
    assert("rust"@.len() != "quickjs"@.len());
    assert("rust"@.len() != "go"@.len());
    assert("rust"@[0] != "bash"@[0]);
    assert("rust"@.len() != "python"@.len());
    assert("rust"@.len() != "python-shell"@.len());
    assert("rust"@.len() != "wasmtime"@.len());
    assert("rust"@.len() != "dotnet-aot"@.len());
    assert("rust"@[0] != "node"@[0]);
    assert("rust"@.len() != "dotnet-jit"@.len());
    assert("rust"@.len() != "powershell"@.len());
    assert("rust"@.len() != "agent"@.len());
    assert("quickjs"@.len() != "go"@.len());
    assert("quickjs"@.len() != "bash"@.len());
    assert("quickjs"@.len() != "python"@.len());
    assert("quickjs"@.len() != "python-shell"@.len());
    assert("quickjs"@.len() != "wasmtime"@.len());
    assert("quickjs"@.len() != "dotnet-aot"@.len());
    assert("quickjs"@.len() != "node"@.len());
    assert("quickjs"@.len() != "dotnet-jit"@.len());
    assert("quickjs"@.len() != "powershell"@.len());
    assert("quickjs"@.len() != "agent"@.len());
    assert("go"@.len() != "bash"@.len());
    assert("go"@.len() != "python"@.len());
    assert("go"@.len() != "python-shell"@.len());
    assert("go"@.len() != "wasmtime"@.len());
    assert("go"@.len() != "dotnet-aot"@.len());
    assert("go"@.len() != "node"@.len());
    assert("go"@.len() != "dotnet-jit"@.len());
    assert("go"@.len() != "powershell"@.len());
    assert("go"@.len() != "agent"@.len());
    assert("bash"@.len() != "python"@.len());
    assert("bash"@.len() != "python-shell"@.len());
    assert("bash"@.len() != "wasmtime"@.len());
    assert("bash"@.len() != "dotnet-aot"@.len());
    assert("bash"@[0] != "node"@[0]);
    assert("bash"@.len() != "dotnet-jit"@.len());
    assert("bash"@.len() != "powershell"@.len());
    assert("bash"@.len() != "agent"@.len());
    assert("python"@.len() != "python-shell"@.len());
    assert("python"@.len() != "wasmtime"@.len());
    assert("python"@.len() != "dotnet-aot"@.len());
    assert("python"@.len() != "node"@.len());
    assert("python"@.len() != "dotnet-jit"@.len());
    assert("python"@.len() != "powershell"@.len());
    assert("python"@.len() != "agent"@.len());
    assert("python-shell"@.len() != "wasmtime"@.len());
    assert("python-shell"@.len() != "dotnet-aot"@.len());
    assert("python-shell"@.len() != "node"@.len());
    assert("python-shell"@.len() != "dotnet-jit"@.len());
    assert("python-shell"@.len() != "powershell"@.len());
    assert("python-shell"@.len() != "agent"@.len());
    assert("wasmtime"@.len() != "dotnet-aot"@.len());
    assert("wasmtime"@.len() != "node"@.len());
    assert("wasmtime"@.len() != "dotnet-jit"@.len());
    assert("wasmtime"@.len() != "powershell"@.len());
    assert("wasmtime"@.len() != "agent"@.len());
    assert("dotnet-aot"@.len() != "node"@.len());
    assert("dotnet-aot"@[7] != "dotnet-jit"@[7]);
    assert("dotnet-aot"@[0] != "powershell"@[0]);
    assert("dotnet-aot"@.len() != "agent"@.len());
    assert("node"@.len() != "dotnet-jit"@.len());
    assert("node"@.len() != "powershell"@.len());
    assert("node"@.len() != "agent"@.len());
    assert("dotnet-jit"@[0] != "powershell"@[0]);
    assert("dotnet-jit"@.len() != "agent"@.len());
    assert("powershell"@.len() != "agent"@.len());
}

/// The runtime image each driver binary belongs to, and so the memory a
/// guest that runs it gets: `hl_pydriver` python, `hl_pywarmdriver`
/// python-shell, `hl_nodedriver` node, `hl_dotnetdriver` dotnet-jit,
/// `hl_pwshdriver` powershell, `hl_quickjsdriver` quickjs,
/// `hl_wasmtimedriver` wasmtime, `hl_bashdriver` bash, `hl_godriver` go,
/// `hl_cdriver` c, `hl_rustdriver` rust, `hl_dotnetaotdriver` dotnet-aot;
/// no other name is a driver's.
pub proof fn law_driver_runtimes(other: Seq<char>)
    requires
        other != "hl_pydriver"@,
        other != "hl_pywarmdriver"@,
        other != "hl_nodedriver"@,
        other != "hl_dotnetdriver"@,
        other != "hl_pwshdriver"@,
        other != "hl_quickjsdriver"@,
        other != "hl_wasmtimedriver"@,
        other != "hl_bashdriver"@,
        other != "hl_godriver"@,
        other != "hl_cdriver"@,
        other != "hl_rustdriver"@,
        other != "hl_dotnetaotdriver"@,
    ensures
        driver_runtime("hl_pydriver"@) == Some("python"@),
        driver_mb("hl_pydriver"@) == Some(256nat),
        driver_runtime("hl_pywarmdriver"@) == Some("python-shell"@),
        driver_mb("hl_pywarmdriver"@) == Some(256nat),
        driver_runtime("hl_nodedriver"@) == Some("node"@),
        driver_mb("hl_nodedriver"@) == Some(512nat),
        driver_runtime("hl_dotnetdriver"@) == Some("dotnet-jit"@),
        driver_mb("hl_dotnetdriver"@) == Some(768nat),
        driver_runtime("hl_pwshdriver"@) == Some("powershell"@),
        driver_mb("hl_pwshdriver"@) == Some(1024nat),
        driver_runtime("hl_quickjsdriver"@) == Some("quickjs"@),
        driver_mb("hl_quickjsdriver"@) == Some(64nat),
        driver_runtime("hl_wasmtimedriver"@) == Some("wasmtime"@),
        driver_mb("hl_wasmtimedriver"@) == Some(256nat),
        driver_runtime("hl_bashdriver"@) == Some("bash"@),
        driver_mb("hl_bashdriver"@) == Some(256nat),
        driver_runtime("hl_godriver"@) == Some("go"@),
        driver_mb("hl_godriver"@) == Some(128nat),
        driver_runtime("hl_cdriver"@) == Some("c"@),
        driver_mb("hl_cdriver"@) == Some(64nat),
        driver_runtime("hl_rustdriver"@) == Some("rust"@),
        driver_mb("hl_rustdriver"@) == Some(64nat),
        driver_runtime("hl_dotnetaotdriver"@) == Some("dotnet-aot"@),
        driver_mb("hl_dotnetaotdriver"@) == Some(256nat),
        driver_runtime(other) is None,
{
    reveal_strlit("agent");
    reveal_strlit("bash");
    reveal_strlit("c");
    reveal_strlit("dotnet-aot");
    reveal_strlit("dotnet-jit");
    reveal_strlit("go");
    reveal_strlit("hl_bashdriver");
    reveal_strlit("hl_cdriver");
    reveal_strlit("hl_dotnetaotdriver");
    reveal_strlit("hl_dotnetdriver");
    reveal_strlit("hl_godriver");
    reveal_strlit("hl_nodedriver");
    reveal_strlit("hl_pwshdriver");
    reveal_strlit("hl_pydriver");
    reveal_strlit("hl_pywarmdriver");
    reveal_strlit("hl_quickjsdriver");
    reveal_strlit("hl_rustdriver");
    reveal_strlit("hl_wasmtimedriver");
    reveal_strlit("node");
    reveal_strlit("powershell");
    reveal_strlit("python");
    reveal_strlit("python-shell");
    reveal_strlit("quickjs");
    reveal_strlit("rust");
    reveal_strlit("wasmtime");
    assert("hl_pydriver"@.len() != "hl_pywarmdriver"@.len());
    assert("hl_pydriver"@.len() != "hl_nodedriver"@.len());
    assert("hl_pydriver"@.len() != "hl_dotnetdriver"@.len());
    assert("hl_pydriver"@.len() != "hl_pwshdriver"@.len());
    assert("hl_pydriver"@.len() != "hl_quickjsdriver"@.len());
    assert("hl_pydriver"@.len() != "hl_wasmtimedriver"@.len());
    assert("hl_pydriver"@.len() != "hl_bashdriver"@.len());
    assert("hl_pydriver"@[3] != "hl_godriver"@[3]);
    assert("hl_pydriver"@.len() != "hl_cdriver"@.len());
    assert("hl_pydriver"@.len() != "hl_rustdriver"@.len());
    assert("hl_pydriver"@.len() != "hl_dotnetaotdriver"@.len());
    assert("hl_pywarmdriver"@.len() != "hl_nodedriver"@.len());
    assert("hl_pywarmdriver"@[3] != "hl_dotnetdriver"@[3]);
    assert("hl_pywarmdriver"@.len() != "hl_pwshdriver"@.len());
    assert("hl_pywarmdriver"@.len() != "hl_quickjsdriver"@.len());
    assert("hl_pywarmdriver"@.len() != "hl_wasmtimedriver"@.len());
    assert("hl_pywarmdriver"@.len() != "hl_bashdriver"@.len());
    assert("hl_pywarmdriver"@.len() != "hl_godriver"@.len());
    assert("hl_pywarmdriver"@.len() != "hl_cdriver"@.len());
    assert("hl_pywarmdriver"@.len() != "hl_rustdriver"@.len());
    assert("hl_pywarmdriver"@.len() != "hl_dotnetaotdriver"@.len());
    assert("hl_nodedriver"@.len() != "hl_dotnetdriver"@.len());
    assert("hl_nodedriver"@[3] != "hl_pwshdriver"@[3]);
    assert("hl_nodedriver"@.len() != "hl_quickjsdriver"@.len());
    assert("hl_nodedriver"@.len() != "hl_wasmtimedriver"@.len());
    assert("hl_nodedriver"@[3] != "hl_bashdriver"@[3]);
    assert("hl_nodedriver"@.len() != "hl_godriver"@.len());
    assert("hl_nodedriver"@.len() != "hl_cdriver"@.len());
    assert("hl_nodedriver"@[3] != "hl_rustdriver"@[3]);
    assert("hl_nodedriver"@.len() != "hl_dotnetaotdriver"@.len());
    assert("hl_dotnetdriver"@.len() != "hl_pwshdriver"@.len());
    assert("hl_dotnetdriver"@.len() != "hl_quickjsdriver"@.len());
    assert("hl_dotnetdriver"@.len() != "hl_wasmtimedriver"@.len());
    assert("hl_dotnetdriver"@.len() != "hl_bashdriver"@.len());
    assert("hl_dotnetdriver"@.len() != "hl_godriver"@.len());
    assert("hl_dotnetdriver"@.len() != "hl_cdriver"@.len());
    assert("hl_dotnetdriver"@.len() != "hl_rustdriver"@.len());
    assert("hl_dotnetdriver"@.len() != "hl_dotnetaotdriver"@.len());
    assert("hl_pwshdriver"@.len() != "hl_quickjsdriver"@.len());
    assert("hl_pwshdriver"@.len() != "hl_wasmtimedriver"@.len());
    assert("hl_pwshdriver"@[3] != "hl_bashdriver"@[3]);
    assert("hl_pwshdriver"@.len() != "hl_godriver"@.len());
    assert("hl_pwshdriver"@.len() != "hl_cdriver"@.len());
    assert("hl_pwshdriver"@[3] != "hl_rustdriver"@[3]);
    assert("hl_pwshdriver"@.len() != "hl_dotnetaotdriver"@.len());
    assert("hl_quickjsdriver"@.len() != "hl_wasmtimedriver"@.len());
    assert("hl_quickjsdriver"@.len() != "hl_bashdriver"@.len());
    assert("hl_quickjsdriver"@.len() != "hl_godriver"@.len());
    assert("hl_quickjsdriver"@.len() != "hl_cdriver"@.len());
    assert("hl_quickjsdriver"@.len() != "hl_rustdriver"@.len());
    assert("hl_quickjsdriver"@.len() != "hl_dotnetaotdriver"@.len());
    assert("hl_wasmtimedriver"@.len() != "hl_bashdriver"@.len());
    assert("hl_wasmtimedriver"@.len() != "hl_godriver"@.len());
    assert("hl_wasmtimedriver"@.len() != "hl_cdriver"@.len());
    assert("hl_wasmtimedriver"@.len() != "hl_rustdriver"@.len());
    assert("hl_wasmtimedriver"@.len() != "hl_dotnetaotdriver"@.len());
    assert("hl_bashdriver"@.len() != "hl_godriver"@.len());
    assert("hl_bashdriver"@.len() != "hl_cdriver"@.len());
    assert("hl_bashdriver"@[3] != "hl_rustdriver"@[3]);
    assert("hl_bashdriver"@.len() != "hl_dotnetaotdriver"@.len());
    assert("hl_godriver"@.len() != "hl_cdriver"@.len());
    assert("hl_godriver"@.len() != "hl_rustdriver"@.len());
    assert("hl_godriver"@.len() != "hl_dotnetaotdriver"@.len());
    assert("hl_cdriver"@.len() != "hl_rustdriver"@.len());
    assert("hl_cdriver"@.len() != "hl_dotnetaotdriver"@.len());
    assert("hl_rustdriver"@.len() != "hl_dotnetaotdriver"@.len());
    assert("c"@.len() != "rust"@.len());
    assert("c"@.len() != "quickjs"@.len());
    assert("c"@.len() != "go"@.len());
    assert("c"@.len() != "bash"@.len());
    assert("c"@.len() != "python"@.len());
    assert("c"@.len() != "python-shell"@.len());
    assert("c"@.len() != "wasmtime"@.len());
    assert("c"@.len() != "dotnet-aot"@.len());
    assert("c"@.len() != "node"@.len());
    assert("c"@.len() != "dotnet-jit"@.len());
    assert("c"@.len() != "powershell"@.len());
    assert("c"@.len() != "agent"@.len());
    assert("rust"@.len() != "quickjs"@.len());
    assert("rust"@.len() != "go"@.len());
    assert("rust"@[0] != "bash"@[0]);
    assert("rust"@.len() != "python"@.len());
    assert("rust"@.len() != "python-shell"@.len());
    assert("rust"@.len() != "wasmtime"@.len());
    assert("rust"@.len() != "dotnet-aot"@.len());
    assert("rust"@[0] != "node"@[0]);
    assert("rust"@.len() != "dotnet-jit"@.len());
    assert("rust"@.len() != "powershell"@.len());
    assert("rust"@.len() != "agent"@.len());
    assert("quickjs"@.len() != "go"@.len());
    assert("quickjs"@.len() != "bash"@.len());
    assert("quickjs"@.len() != "python"@.len());
    assert("quickjs"@.len() != "python-shell"@.len());
    assert("quickjs"@.len() != "wasmtime"@.len());
    assert("quickjs"@.len() != "dotnet-aot"@.len());
    assert("quickjs"@.len() != "node"@.len());
    assert("quickjs"@.len() != "dotnet-jit"@.len());
    assert("quickjs"@.len() != "powershell"@.len());
    assert("quickjs"@.len() != "agent"@.len());
    assert("go"@.len() != "bash"@.len());
    assert("go"@.len() != "python"@.len());
    assert("go"@.len() != "python-shell"@.len());
    assert("go"@.len() != "wasmtime"@.len());
    assert("go"@.len() != "dotnet-aot"@.len());
    assert("go"@.len() != "node"@.len());
    assert("go"@.len() != "dotnet-jit"@.len());
    assert("go"@.len() != "powershell"@.len());
    assert("go"@.len() != "agent"@.len());
    assert("bash"@.len() != "python"@.len());
    assert("bash"@.len() != "python-shell"@.len());
    assert("bash"@.len() != "wasmtime"@.len());
    assert("bash"@.len() != "dotnet-aot"@.len());
    assert("bash"@[0] != "node"@[0]);
    assert("bash"@.len() != "dotnet-jit"@.len());
    assert("bash"@.len() != "powershell"@.len());
    assert("bash"@.len() != "agent"@.len());
    assert("python"@.len() != "python-shell"@.len());
    assert("python"@.len() != "wasmtime"@.len());
    assert("python"@.len() != "dotnet-aot"@.len());
    assert("python"@.len() != "node"@.len());
    assert("python"@.len() != "dotnet-jit"@.len());
    assert("python"@.len() != "powershell"@.len());
    assert("python"@.len() != "agent"@.len());
    assert("python-shell"@.len() != "wasmtime"@.len());
    assert("python-shell"@.len() != "dotnet-aot"@.len());
    assert("python-shell"@.len() != "node"@.len());
    assert("python-shell"@.len() != "dotnet-jit"@.len());
    assert("python-shell"@.len() != "powershell"@.len());
    assert("python-shell"@.len() != "agent"@.len());
    assert("wasmtime"@.len() != "dotnet-aot"@.len());
    assert("wasmtime"@.len() != "node"@.len());
    assert("wasmtime"@.len() != "dotnet-jit"@.len());
    assert("wasmtime"@.len() != "powershell"@.len());
    assert("wasmtime"@.len() != "agent"@.len());
    assert("dotnet-aot"@.len() != "node"@.len());
    assert("dotnet-aot"@[7] != "dotnet-jit"@[7]);
    assert("dotnet-aot"@[0] != "powershell"@[0]);
    assert("dotnet-aot"@.len() != "agent"@.len());
    assert("node"@.len() != "dotnet-jit"@.len());
    assert("node"@.len() != "powershell"@.len());
    assert("node"@.len() != "agent"@.len());
    assert("dotnet-jit"@[0] != "powershell"@[0]);
    assert("dotnet-jit"@.len() != "agent"@.len());
    assert("powershell"@.len() != "agent"@.len());
}

/// Drivers live in `usr/local/bin` or `usr/bin` and are named `hl_…`;
/// the runtime marker is `etc/hluk-runtime`; a guest with nothing to size
/// it gets 256 MiB.
pub proof fn law_where_drivers_and_the_marker_live(name: Seq<char>, r: crate::cpio::Record)
    ensures
        is_driver_path(name) <==> (name.len() >= 17 && name.take(17) == "usr/local/bin/hl_"@) || (name.len()
            >= 11 && name.take(11) == "usr/bin/hl_"@),
        is_marker(r) <==> scanned_name(r) == "etc/hluk-runtime"@,
        DEFAULT_SCRATCH_MB == 256,
{
    reveal_strlit("usr/local/bin/hl_");
    reveal_strlit("usr/bin/hl_");
    if name.len() >= 17 {
        assert(name.subrange(0, 17) =~= name.take(17));
    }
    if name.len() >= 11 {
        assert(name.subrange(0, 11) =~= name.take(11));
    }
}

/// Every driver the host knows belongs to an image with a tested size.
pub proof fn law_every_driver_has_a_tested_size(driver: Seq<char>)
    requires
        driver_runtime(driver) is Some,
    ensures
        runtime_mb(driver_runtime(driver)->0) is Some,
{
}

/// The tested size of the runtime image a driver belongs to.
pub open spec fn driver_mb(driver: Seq<char>) -> Option<nat> {
    match driver_runtime(driver) {
        Some(rt) => runtime_mb(rt),
        None => None,
    }
}

/// [`runtime_scratch_mb`] by the driver's file name.
pub fn driver_scratch_mb(driver: &str) -> (r: Option<usize>)
    ensures
        match driver_mb(driver@) {
            Some(mb) => r == Some(mb as usize),
            None => r is None,
        },
{
    match runtime_of_driver(driver) {
        Some(rt) => runtime_scratch_mb(rt),
        None => None,
    }
}

/// What a pass over an initrd found.
#[derive(Debug, Clone, Default)]
pub struct CpioScan {
    /// The driver entry point (`/usr/local/bin/hl_pydriver`), if any.
    pub entry: Option<String>,
    /// The runtime named in `etc/hluk-runtime`, if the image carries one:
    /// images that share a driver binary (the `agent` image and
    /// `python-shell` both run `hl_pywarmdriver`) name their runtime
    /// there, so their scratch memory is sized right.
    pub runtime: Option<String>,
}

pub open spec fn opt_text(o: Option<String>) -> Option<Seq<char>> {
    match o {
        Some(s) => Some(s@),
        None => None,
    }
}

impl CpioScan {
    pub open spec fn view(&self) -> (Option<Seq<char>>, Option<Seq<char>>) {
        (opt_text(self.entry), opt_text(self.runtime))
    }
}

/// An ASCII hex digit.
pub open spec fn is_hex_digit(b: u8) -> bool {
    (48 <= b && b <= 57) || (65 <= b && b <= 70) || (97 <= b && b <= 102)
}

pub open spec fn hex_value(b: u8) -> nat {
    if b <= 57 {
        (b - 48) as nat
    } else if b <= 70 {
        (b - 55) as nat
    } else {
        (b - 87) as nat
    }
}

/// The number hex digits spell.
pub open spec fn hex_number(s: Seq<u8>) -> nat
    decreases s.len(),
{
    if s.len() == 0 {
        0
    } else {
        hex_number(s.drop_last()) * 16 + hex_value(s.last())
    }
}

/// The digits of a header field: all of it, or what follows a leading `+`.
pub open spec fn field_digits(field: Seq<u8>) -> Seq<u8> {
    if field.len() > 0 && field[0] == 43 {
        field.drop_first()
    } else {
        field
    }
}

pub open spec fn all_hex(digits: Seq<u8>) -> bool {
    forall|i: int| 0 <= i < digits.len() ==> is_hex_digit(#[trigger] digits[i])
}

/// A header field read as `from_str_radix(field, 16)` reads it: an
/// optional `+`, then at least one hex digit and nothing else.
pub open spec fn header_number(field: Seq<u8>) -> Option<nat> {
    let digits = field_digits(field);
    if digits.len() > 0 && all_hex(digits) {
        Some(hex_number(digits))
    } else {
        None
    }
}

/// `070701` or `070702`, the newc magics.
pub open spec fn is_newc_magic(m: Seq<u8>) -> bool {
    m == seq![48u8, 55u8, 48u8, 55u8, 48u8, 49u8] || m == seq![48u8, 55u8, 48u8, 55u8, 48u8, 50u8]
}

/// Where driver binaries live: `usr/local/bin/hl_*` or `usr/bin/hl_*`.
pub open spec fn is_driver_path(name: Seq<char>) -> bool {
    let a = "usr/local/bin/hl_"@;
    let b = "usr/bin/hl_"@;
    (a.len() <= name.len() && name.subrange(0, a.len() as int) == a) || (b.len() <= name.len()
        && name.subrange(0, b.len() as int) == b)
}

/// The runtime a marker file names: its text trimmed, when it is text and
/// not blank.
pub open spec fn marker_runtime(content: Seq<u8>) -> Option<Seq<char>> {
    if vstd::utf8::valid_utf8(content) && trim_ws(vstd::utf8::decode_utf8(content)).len() > 0 {
        Some(trim_ws(vstd::utf8::decode_utf8(content)))
    } else {
        None
    }
}

/// The scan from the header at `pos` on, with `entry` and `runtime` found
/// so far.  It stops at the trailer, at the end of the data or a header
/// that is not newc, or once both are found (or the driver, once the
/// marker has been read); it gives up, `None`, on a header it cannot read
/// (a magic or a name that is not text, a size that is not hex, a name
/// past the end).
pub open spec fn scan_from(
    d: Seq<u8>,
    pos: int,
    entry: Option<Seq<char>>,
    runtime: Option<Seq<char>>,
) -> Option<(Option<Seq<char>>, Option<Seq<char>>)>
    decreases d.len() - pos,
{
    if pos < 0 || pos + 110 > d.len() {
        Some((entry, runtime))
    } else if !is_newc_magic(d.subrange(pos, pos + 6)) {
        if vstd::utf8::valid_utf8(d.subrange(pos, pos + 6)) {
            Some((entry, runtime))
        } else {
            None
        }
    } else {
        match (header_number(d.subrange(pos + 94, pos + 102)), header_number(d.subrange(pos + 54, pos + 62))) {
            (Some(ns), Some(fs)) => {
                let name_at = pos + 110;
                if name_at + ns > d.len() || !vstd::utf8::valid_utf8(d.subrange(name_at, name_at + ns)) {
                    None
                } else {
                    let name = trim_end(vstd::utf8::decode_utf8(d.subrange(name_at, name_at + ns)), '\0');
                    if name == "TRAILER!!!"@ {
                        Some((entry, runtime))
                    } else {
                        let data_at = name_at + ns + pad_len((110 + ns) as nat);
                        let entry2 = if entry is None && is_driver_path(name) {
                            Some(seq!['/'] + name)
                        } else {
                            entry
                        };
                        let next = data_at + fs + pad_len(fs);
                        if runtime is None && name == "etc/hluk-runtime"@ && fs < 64 && data_at + fs <= d.len() {
                            let runtime2 = marker_runtime(d.subrange(data_at, data_at + fs));
                            if entry2 is Some || next > d.len() {
                                Some((entry2, runtime2))
                            } else {
                                scan_from(d, next, entry2, runtime2)
                            }
                        } else if (entry2 is Some && runtime is Some) || next > d.len() {
                            Some((entry2, runtime))
                        } else {
                            scan_from(d, next, entry2, runtime)
                        }
                    }
                }
            },
            _ => None,
        }
    }
}

/// What a scan of a whole archive finds; `None` when it gives up.
pub open spec fn spec_scan(d: Seq<u8>) -> Option<(Option<Seq<char>>, Option<Seq<char>>)> {
    scan_from(d, 0, None, None)
}

/// Read a header field as hex, as [`header_number`] does.
fn header_field(d: &[u8], at: usize) -> (r: Option<u64>)
    requires
        at + 8 <= d.len(),
    ensures
        match header_number(d@.subrange(at as int, at + 8)) {
            Some(n) => r == Some(n as u64) && n < 0x1_0000_0000,
            None => r is None,
        },
{
    let ghost field = d@.subrange(at as int, at + 8);
    let start: usize = if d[at] == 43 {
        at + 1
    } else {
        at
    };
    let ghost digits = d@.subrange(start as int, at + 8);
    proof {
        if d[at as int] == 43 {
            assert(field.drop_first() =~= digits);
        } else {
            assert(field =~= digits);
        }
    }
    let end: usize = at + 8;
    let mut i = start;
    let mut n: u64 = 0;
    while i < end
        invariant
            end == at + 8,
            start <= i <= at + 8,
            at + 8 <= d@.len(),
            at <= start <= at + 1,
            digits == d@.subrange(start as int, at + 8),
            digits == field_digits(d@.subrange(at as int, at + 8)),
            forall|j: int| start <= j < i ==> is_hex_digit(#[trigger] d@[j]),
            n == hex_number(d@.subrange(start as int, i as int)),
            n < pow16((i - start) as nat),
        decreases at + 8 - i,
    {
        let b = d[i];
        let v: u64 = if 48 <= b && b <= 57 {
            (b - 48) as u64
        } else if 65 <= b && b <= 70 {
            (b - 55) as u64
        } else if 97 <= b && b <= 102 {
            (b - 87) as u64
        } else {
            proof {
                assert(digits[i - start] == d@[i as int]);
                assert(!is_hex_digit(digits[i - start]));
            }
            return None;
        };
        proof {
            assert(d@.subrange(start as int, i + 1).drop_last() =~= d@.subrange(start as int, i as int));
            assert(n * 16 + v < pow16((i - start) as nat) * 16) by (nonlinear_arith)
                requires
                    n < pow16((i - start) as nat),
                    v < 16,
            ;
            lemma_pow16_mono((i + 1 - start) as nat, 8);
            assert(pow16((i + 1 - start) as nat) == 16 * pow16((i - start) as nat));
        }
        n = n * 16 + v;
        i += 1;
    }
    if i == start {
        return None;
    }
    proof {
        assert(d@.subrange(start as int, i as int) =~= digits);
        assert forall|k: int| 0 <= k < digits.len() implies is_hex_digit(#[trigger] digits[k]) by {
            assert(digits[k] == d@[start + k]);
        }
        assert(pow16((i - start) as nat) <= 0x1_0000_0000) by {
            lemma_pow16_mono((i - start) as nat, 8);
        }
    }
    Some(n)
}

pub open spec fn pow16(k: nat) -> nat
    decreases k,
{
    if k == 0 {
        1
    } else {
        16 * pow16((k - 1) as nat)
    }
}

proof fn lemma_pow16_mono(a: nat, b: nat)
    requires
        a <= b,
    ensures
        pow16(a) <= pow16(b),
        pow16(8) == 0x1_0000_0000,
    decreases b,
{
    reveal_with_fuel(pow16, 9);
    if a < b {
        lemma_pow16_mono(a, (b - 1) as nat);
    }
}

/// Whether six bytes are a newc magic.
fn newc_magic(m: &[u8]) -> (r: bool)
    requires
        m@.len() == 6,
    ensures
        r == is_newc_magic(m@),
{
    let r = m[0] == 48 && m[1] == 55 && m[2] == 48 && m[3] == 55 && m[4] == 48 && (m[5] == 49
        || m[5] == 50);
    proof {
        if r {
            if m[5] == 49 {
                assert(m@ =~= seq![48u8, 55u8, 48u8, 55u8, 48u8, 49u8]);
            } else {
                assert(m@ =~= seq![48u8, 55u8, 48u8, 55u8, 48u8, 50u8]);
            }
        } else {
            assert(m@ != seq![48u8, 55u8, 48u8, 55u8, 48u8, 49u8] ==> true);
            if m@ == seq![48u8, 55u8, 48u8, 55u8, 48u8, 49u8] || m@ == seq![48u8, 55u8, 48u8, 55u8, 48u8, 50u8] {
                assert(m@[0] == 48 && m@[1] == 55 && m@[2] == 48 && m@[3] == 55 && m@[4] == 48);
            }
        }
    }
    r
}

/// The runtime a marker file's bytes name, as [`marker_runtime`] says.
fn read_marker(content: &[u8]) -> (r: Option<String>)
    ensures
        opt_text(r) == marker_runtime(content@),
{
    match utf8_text(content) {
        Some(t) => {
            proof {
                vstd::utf8::encode_utf8_decode_utf8(t@);
            }
            let cs = chars_of(t.as_str());
            let trimmed = trim_chars(&cs);
            if trimmed.len() > 0 {
                Some(string_of(&trimmed))
            } else {
                None
            }
        },
        None => None,
    }
}

/// The driver path for a name (`/` and the name), or `None` when the name
/// is not a driver's.
fn driver_entry(name: &[char]) -> (r: Option<String>)
    ensures
        match r {
            Some(s) => is_driver_path(name@) && s@ == seq!['/'] + name@,
            None => !is_driver_path(name@),
        },
{
    let a = chars_of("usr/local/bin/hl_");
    let b = chars_of("usr/bin/hl_");
    if starts_with(name, &a) || starts_with(name, &b) {
        let mut s = String::new();
        crate::text::push_char(&mut s, '/');
        crate::text::push_chars(&mut s, name);
        Some(s)
    } else {
        None
    }
}

/// One pass over a newc archive, as [`spec_scan`] describes it.
fn scan_inner(data: &[u8]) -> (r: Option<CpioScan>)
    ensures
        match spec_scan(data@) {
            Some(v) => r matches Some(s) && s.view() == v,
            None => r is None,
        },
{
    let mut pos: usize = 0;
    let mut entry: Option<String> = None;
    let mut runtime: Option<String> = None;
    while data.len() - pos >= 110
        invariant
            pos <= data@.len(),
            scan_from(data@, pos as int, opt_text(entry), opt_text(runtime)) == spec_scan(data@),
        decreases data@.len() - pos,
    {
        let ghost d = data@;
        let ghost p = pos as int;
        let m = bytes_between(data, pos, pos + 6);
        if !newc_magic(m.as_slice()) {
            match utf8_text(m.as_slice()) {
                Some(_) => {
                    return Some(CpioScan { entry, runtime });
                },
                None => {
                    return None;
                },
            }
        }
        let ns = match header_field(data, pos + 94) {
            Some(n) => n,
            None => {
                return None;
            },
        };
        let fs = match header_field(data, pos + 54) {
            Some(n) => n,
            None => {
                return None;
            },
        };
        let name_at = pos + 110;
        if ns > (data.len() - name_at) as u64 {
            return None;
        }
        let name_end = name_at + ns as usize;
        let nb = bytes_between(data, name_at, name_end);
        let text = match utf8_text(nb.as_slice()) {
            Some(t) => t,
            None => {
                return None;
            },
        };
        proof {
            vstd::utf8::encode_utf8_decode_utf8(text@);
        }
        let chars = chars_of(text.as_str());
        let n = trim_end_len(&chars, '\0');
        let name_chars = crate::text::prefix(&chars, n);
        let name = string_of(&name_chars);
        let ghost gname = trim_end(vstd::utf8::decode_utf8(d.subrange(p + 110, p + 110 + ns)), '\0');
        assert(name@ == gname);
        if same_text(name.as_str(), "TRAILER!!!") {
            return Some(CpioScan { entry, runtime });
        }
        let pad1 = ((4 - (110 + ns) % 4) % 4) as usize;
        let entry2 = match entry {
            Some(e) => Some(e),
            None => driver_entry(&name_chars),
        };
        let ghost g_entry2 = if opt_text(entry) is None && is_driver_path(gname) {
            Some(seq!['/'] + gname)
        } else {
            opt_text(entry)
        };
        assert(opt_text(entry2) == g_entry2);
        if pad1 > data.len() - name_end {
            return Some(CpioScan { entry: entry2, runtime });
        }
        let data_at = name_end + pad1;
        let rem = data.len() - data_at;
        let is_marker = same_text(name.as_str(), "etc/hluk-runtime");
        let pad2 = ((4 - fs % 4) % 4) as usize;
        if runtime.is_none() && is_marker && fs < 64 && fs <= rem as u64 {
            let content = bytes_between(data, data_at, data_at + fs as usize);
            let runtime2 = read_marker(content.as_slice());
            let after = data_at + fs as usize;
            if entry2.is_some() || pad2 > data.len() - after {
                return Some(CpioScan { entry: entry2, runtime: runtime2 });
            }
            entry = entry2;
            runtime = runtime2;
            pos = after + pad2;
        } else {
            if (entry2.is_some() && runtime.is_some()) || fs > rem as u64 {
                return Some(CpioScan { entry: entry2, runtime });
            }
            let after = data_at + fs as usize;
            if pad2 > data.len() - after {
                return Some(CpioScan { entry: entry2, runtime });
            }
            entry = entry2;
            pos = after + pad2;
        }
    }
    Some(CpioScan { entry, runtime })
}

/// Scan a newc archive in one pass for the driver entry point
/// (`usr/local/bin/hl_*` or `usr/bin/hl_*`, first match, as a guest
/// absolute path) and the runtime marker `etc/hluk-runtime`.  An archive
/// the scan cannot read finds nothing.
pub fn scan_cpio(data: &[u8]) -> (scan: CpioScan)
    ensures
        scan.view() == match spec_scan(data@) {
            Some(v) => v,
            None => (None, None),
        },
{
    match scan_inner(data) {
        Some(s) => s,
        None => CpioScan { entry: None, runtime: None },
    }
}

/// The driver entry point an initrd carries, if any.
pub fn find_cpio_entry(data: &[u8]) -> (r: Option<String>)
    ensures
        opt_text(r) == match spec_scan(data@) {
            Some(v) => v.0,
            None => None,
        },
{
    scan_cpio(data).entry
}

/// What follows the last `/` of a path, or the whole path without one.
pub open spec fn last_component(p: Seq<char>) -> Seq<char> {
    match rfind(p, '/') {
        Some(i) => p.subrange(i + 1, p.len() as int),
        None => p,
    }
}

/// The scratch memory a scan calls for: the tested size of the runtime
/// the image names, else that of the image its driver belongs to, else
/// [`DEFAULT_SCRATCH_MB`].  A marker wins, since images can share a driver.
pub open spec fn scratch_of(scan: (Option<Seq<char>>, Option<Seq<char>>)) -> nat {
    let by_marker = match scan.1 {
        Some(rt) => runtime_mb(rt),
        None => None,
    };
    match by_marker {
        Some(mb) => mb,
        None => match scan.0 {
            Some(e) => match driver_mb(last_component(e)) {
                Some(mb) => mb,
                None => DEFAULT_SCRATCH_MB as nat,
            },
            None => DEFAULT_SCRATCH_MB as nat,
        },
    }
}

/// The scratch memory, in MiB, that what a scan found calls for.
pub fn scratch_from_scan(scan: &CpioScan) -> (mb: usize)
    ensures
        mb == scratch_of(scan.view()),
{
    let by_marker = match &scan.runtime {
        Some(rt) => runtime_scratch_mb(rt.as_str()),
        None => None,
    };
    match by_marker {
        Some(mb) => mb,
        None => match &scan.entry {
            Some(e) => {
                let cs = chars_of(e.as_str());
                proof {
                    lemma_rfind_before(cs@, '/', cs@.len() as int);
                }
                let last = match rfind_char(&cs, '/') {
                    Some(i) => {
                        let n = cs.len();
                        assert(i < n);
                        slice_vec(&cs, i + 1, n)
                    },
                    None => slice_vec(&cs, 0, cs.len()),
                };
                proof {
                    if rfind(cs@, '/') is None {
                        assert(cs@.subrange(0, cs@.len() as int) =~= cs@);
                    }
                }
                let name = string_of(&last);
                match driver_scratch_mb(name.as_str()) {
                    Some(mb) => mb,
                    None => DEFAULT_SCRATCH_MB,
                }
            },
            None => DEFAULT_SCRATCH_MB,
        },
    }
}

/// What [`default_scratch_mb`] gives for `data`: the scratch memory that
/// what a scan finds calls for, nothing found when the scan gives up.
pub open spec fn spec_default_scratch(data: Seq<u8>) -> nat {
    scratch_of(
        match spec_scan(data) {
            Some(v) => v,
            None => (None, None),
        },
    )
}

/// The scratch memory, in MiB, a guest booted from the initrd `data` gets
/// when none is asked for: the runtime named in `etc/hluk-runtime` if the
/// image carries one, else the tested size of the runtime image its driver
/// belongs to, else [`DEFAULT_SCRATCH_MB`].
pub fn default_scratch_mb(data: &[u8]) -> (mb: usize)
    ensures
        mb == spec_default_scratch(data@),
{
    let scan = scan_cpio(data);
    scratch_from_scan(&scan)
}

/// The entry point: the one given, else the driver detected in the
/// initrd's bytes (when it could be read), else none.
pub fn resolve_entry(entry: &Option<String>, initrd: &Option<Vec<u8>>) -> (r: Option<String>)
    ensures
        opt_text(r) == match entry {
            Some(e) => Some(e@),
            None => match initrd {
                Some(d) => match spec_scan(d@) {
                    Some(v) => v.0,
                    None => None,
                },
                None => None,
            },
        },
{
    match entry {
        Some(e) => Some(e.clone()),
        None => match initrd {
            Some(d) => find_cpio_entry(d.as_slice()),
            None => None,
        },
    }
}

/// Eight hex digits written read back as the number written.
proof fn lemma_hex_round_trip(x: nat, n: nat)
    requires
        x < pow16(n),
    ensures
        crate::text::hex_bytes(x, n).len() == n,
        all_hex(crate::text::hex_bytes(x, n)),
        hex_number(crate::text::hex_bytes(x, n)) == x,
    decreases n,
{
    let h = crate::text::hex_bytes(x, n);
    if n > 0 {
        let p = pow16((n - 1) as nat);
        assert(x / 16 < p) by (nonlinear_arith)
            requires
                x < 16 * p,
        ;
        lemma_hex_round_trip(x / 16, (n - 1) as nat);
        let s = crate::text::hex_bytes(x / 16, (n - 1) as nat);
        let d = x % 16;
        assert(h == s.push(crate::text::hex_digit(d)));
        assert(hex_value(crate::text::hex_digit(d)) == d);
        assert(is_hex_digit(crate::text::hex_digit(d)));
        assert(h.drop_last() =~= s);
        assert(x == (x / 16) * 16 + x % 16) by (nonlinear_arith);
        assert forall|i: int| 0 <= i < h.len() implies is_hex_digit(#[trigger] h[i]) by {
            if i < s.len() {
                assert(h[i] == s[i]);
            }
        }
    }
}

/// A header field written as eight hex digits reads back as its number.
proof fn lemma_header_number_of_hex(x: nat)
    requires
        x < 0x1_0000_0000,
    ensures
        header_number(crate::text::hex_bytes(x, 8)) == Some(x),
{
    lemma_pow16_mono(8, 8);
    lemma_hex_round_trip(x, 8);
    let h = crate::text::hex_bytes(x, 8);
    assert(is_hex_digit(h[0]));
    assert(field_digits(h) == h);
}

/// Where a newc header keeps what a scan reads: the magic, the size and
/// name-size fields, and the name with its NUL.
proof fn lemma_header_parts(
    ino: u32,
    name: Seq<u8>,
    mode: u32,
    attrs: crate::cpio::Attrs,
    nlink: u32,
    filesize: u32,
    rdev: (u32, u32),
)
    requires
        name.len() + 1 < 0x1_0000_0000,
    ensures
        ({
            let h = crate::cpio::header_bytes(ino, name, mode, attrs, nlink, filesize, rdev);
            let ns = name.len() + 1;
            &&& h.len() == 110 + ns + pad_len((110 + ns) as nat)
            &&& h.subrange(0, 6) == crate::cpio::magic()
            &&& header_number(h.subrange(54, 62)) == Some(filesize as nat)
            &&& header_number(h.subrange(94, 102)) == Some(ns as nat)
            &&& h.subrange(110, 110 + ns as int) == name + seq![0u8]
        }),
{
    let ns = name.len() + 1;
    lemma_pow16_mono(8, 8);
    let hx = |x: nat| crate::text::hex_bytes(x, 8);
    lemma_hex_round_trip(ino as nat, 8);
    lemma_hex_round_trip(mode as nat, 8);
    lemma_hex_round_trip(attrs.uid as nat, 8);
    lemma_hex_round_trip(attrs.gid as nat, 8);
    lemma_hex_round_trip(nlink as nat, 8);
    lemma_hex_round_trip(attrs.mtime as nat, 8);
    lemma_hex_round_trip(filesize as nat, 8);
    lemma_hex_round_trip(0, 8);
    lemma_hex_round_trip(rdev.0 as nat, 8);
    lemma_hex_round_trip(rdev.1 as nat, 8);
    lemma_hex_round_trip(ns as nat, 8);
    lemma_header_number_of_hex(filesize as nat);
    lemma_header_number_of_hex(ns as nat);
    let h1 = crate::cpio::magic() + hx(ino as nat) + hx(mode as nat) + hx(attrs.uid as nat) + hx(attrs.gid as nat)
        + hx(nlink as nat) + hx(attrs.mtime as nat);
    let h2 = h1 + hx(filesize as nat);
    let h3 = h2 + hx(0) + hx(0) + hx(rdev.0 as nat) + hx(rdev.1 as nat);
    let h4 = h3 + hx(ns as nat);
    let h5 = h4 + hx(0);
    let h6 = h5 + name + seq![0u8];
    let h = crate::cpio::header_bytes(ino, name, mode, attrs, nlink, filesize, rdev);
    assert(h == h6 + crate::cpio::zeros(pad_len((110 + ns) as nat)));
    assert(h1.len() == 54);
    assert(h3.len() == 94);
    assert(h5.len() == 110);
    assert(h.subrange(0, 6) =~= crate::cpio::magic());
    assert(h.subrange(54, 62) =~= hx(filesize as nat));
    assert(h.subrange(94, 102) =~= hx(ns as nat));
    assert(h.subrange(110, 110 + ns as int) =~= name + seq![0u8]);
}

/// Records one after another: the archive of two runs is the one's
/// archive followed by the other's.
proof fn lemma_archive_concat(a: Seq<crate::cpio::Record>, b: Seq<crate::cpio::Record>)
    ensures
        crate::cpio::archive(a + b) == crate::cpio::archive(a) + crate::cpio::archive(b),
    decreases b.len(),
{
    if b.len() == 0 {
        assert(a + b =~= a);
        assert(crate::cpio::archive(a) + crate::cpio::archive(b) =~= crate::cpio::archive(a));
    } else {
        lemma_archive_concat(a, b.drop_last());
        assert((a + b).drop_last() =~= a + b.drop_last());
        assert((a + b).last() == b.last());
        assert(crate::cpio::archive(a + b) =~= crate::cpio::archive(a) + crate::cpio::archive(b));
    }
}

proof fn lemma_encode_utf8_concat(a: Seq<char>, b: Seq<char>)
    ensures
        vstd::utf8::encode_utf8(a + b) == vstd::utf8::encode_utf8(a) + vstd::utf8::encode_utf8(b),
    decreases a.len(),
{
    if a.len() == 0 {
        assert(a + b =~= b);
        assert(vstd::utf8::encode_utf8(a) + vstd::utf8::encode_utf8(b) =~= vstd::utf8::encode_utf8(b));
    } else {
        lemma_encode_utf8_concat(a.drop_first(), b);
        assert((a + b).drop_first() =~= a.drop_first() + b);
        assert((a + b)[0] == a[0]);
        assert(vstd::utf8::encode_utf8(a + b) =~= vstd::utf8::encode_utf8(a) + vstd::utf8::encode_utf8(b));
    }
}

/// A name with its NUL, as a header holds it, reads back as the name.
proof fn lemma_name_with_nul(name: Seq<u8>)
    requires
        vstd::utf8::valid_utf8(name),
    ensures
        vstd::utf8::valid_utf8(name + seq![0u8]),
        trim_end(vstd::utf8::decode_utf8(name + seq![0u8]), '\0') == trim_end(vstd::utf8::decode_utf8(name), '\0'),
{
    let c = vstd::utf8::decode_utf8(name);
    vstd::utf8::decode_utf8_encode_utf8(name);
    let nul = seq!['\0'];
    assert(('\0' as u32) == 0u32);
    assert(vstd::utf8::encode_utf8(nul.drop_first()) =~= Seq::<u8>::empty());
    assert((0u32 & 0x7F) as u8 == 0u8) by (bit_vector);
    assert(vstd::utf8::encode_utf8(nul) =~= seq![0u8]);
    lemma_encode_utf8_concat(c, nul);
    vstd::utf8::encode_utf8_valid_utf8(c + nul);
    vstd::utf8::encode_utf8_decode_utf8(c + nul);
    assert((c + nul).drop_last() =~= c);
}

/// An entry a scan can read: a UTF-8 name, and a name and contents whose
/// sizes a header field holds.
pub open spec fn scannable(r: crate::cpio::Record) -> bool {
    &&& vstd::utf8::valid_utf8(r.name)
    &&& r.name.len() + 1 < 0x1_0000_0000
    &&& r.data.len() < 0x1_0000_0000
}

/// The name a scan reads for an entry: its text, without trailing NULs.
pub open spec fn scanned_name(r: crate::cpio::Record) -> Seq<char> {
    trim_end(vstd::utf8::decode_utf8(r.name), '\0')
}

/// What a scan finds among `recs[k..]`, entry by entry, with `entry` and
/// `runtime` found so far: the first driver (`/` and its name), and the
/// runtime the first `etc/hluk-runtime` under 64 bytes names; it stops at
/// the trailer, once both are found, or once the marker has been read
/// with the driver found.
pub open spec fn scan_recs(
    recs: Seq<crate::cpio::Record>,
    k: int,
    entry: Option<Seq<char>>,
    runtime: Option<Seq<char>>,
) -> Option<(Option<Seq<char>>, Option<Seq<char>>)>
    decreases recs.len() - k,
{
    if k < 0 || k >= recs.len() {
        Some((entry, runtime))
    } else {
        let r = recs[k];
        let name = scanned_name(r);
        if name == "TRAILER!!!"@ {
            Some((entry, runtime))
        } else {
            let entry2 = if entry is None && is_driver_path(name) {
                Some(seq!['/'] + name)
            } else {
                entry
            };
            if runtime is None && name == "etc/hluk-runtime"@ && r.data.len() < 64 {
                let runtime2 = marker_runtime(r.data);
                if entry2 is Some {
                    Some((entry2, runtime2))
                } else {
                    scan_recs(recs, k + 1, entry2, runtime2)
                }
            } else if entry2 is Some && runtime is Some {
                Some((entry2, runtime))
            } else {
                scan_recs(recs, k + 1, entry2, runtime)
            }
        }
    }
}

proof fn lemma_sub_mid(a: Seq<u8>, e: Seq<u8>, b: Seq<u8>, x: int, y: int)
    requires
        0 <= x <= y <= e.len(),
    ensures
        (a + e + b).subrange(a.len() + x, a.len() + y) == e.subrange(x, y),
{
    assert((a + e + b).subrange(a.len() + x, a.len() + y) =~= e.subrange(x, y));
}

/// Where the `k`th record sits in an archive, and what a scan reads there.
#[verifier::spinoff_prover]
#[verifier::rlimit(40)]
proof fn lemma_entry_in_archive(recs: Seq<crate::cpio::Record>, k: int)
    requires
        0 <= k < recs.len(),
        scannable(recs[k]),
    ensures
        ({
            let d = crate::cpio::archive(recs);
            let pos = crate::cpio::archive(recs.take(k)).len() as int;
            let r = recs[k];
            let ns = r.name.len() + 1;
            let fs = r.data.len() as int;
            let hl = 110 + ns + pad_len((110 + ns) as nat);
            &&& crate::cpio::archive(recs.take(k + 1)).len() == pos + hl + fs + pad_len(fs as nat)
            &&& pos + hl + fs + pad_len(fs as nat) <= d.len()
            &&& d.subrange(pos, pos + 6) == seq![48u8, 55u8, 48u8, 55u8, 48u8, 49u8]
            &&& header_number(d.subrange(pos + 54, pos + 62)) == Some(fs as nat)
            &&& header_number(d.subrange(pos + 94, pos + 102)) == Some(ns as nat)
            &&& d.subrange(pos + 110, pos + 110 + ns) == r.name + seq![0u8]
            &&& d.subrange(pos + hl, pos + hl + fs) == r.data
        }),
{
    let d = crate::cpio::archive(recs);
    let r = recs[k];
    let enc = crate::cpio::encode(r);
    let fs = r.data.len();
    let ns = r.name.len() + 1;
    lemma_header_parts(r.ino, r.name, r.mode, r.attrs, r.nlink, fs as u32, r.rdev);
    let h = crate::cpio::header_bytes(r.ino, r.name, r.mode, r.attrs, r.nlink, fs as u32, r.rdev);
    let tail = r.data + crate::cpio::zeros(pad_len(fs));
    assert(enc == h + r.data + crate::cpio::zeros(pad_len(fs)));
    assert(enc =~= h + tail);
    assert(recs.take(k + 1).drop_last() =~= recs.take(k));
    assert(recs.take(k + 1).last() == r);
    let before = crate::cpio::archive(recs.take(k));
    assert(crate::cpio::archive(recs.take(k + 1)) == before + enc);
    lemma_archive_concat(recs.take(k + 1), recs.skip(k + 1));
    assert(recs.take(k + 1) + recs.skip(k + 1) =~= recs);
    let rest = crate::cpio::archive(recs.skip(k + 1));
    assert(d == before + enc + rest);
    let hl = h.len() as int;
    lemma_sub_mid(before, enc, rest, 0, 6);
    lemma_sub_mid(before, enc, rest, 54, 62);
    lemma_sub_mid(before, enc, rest, 94, 102);
    lemma_sub_mid(before, enc, rest, 110, 110 + ns as int);
    lemma_sub_mid(before, enc, rest, hl, hl + fs);
    lemma_sub_mid(Seq::empty(), h, tail, 0, 6);
    lemma_sub_mid(Seq::empty(), h, tail, 54, 62);
    lemma_sub_mid(Seq::empty(), h, tail, 94, 102);
    lemma_sub_mid(Seq::empty(), h, tail, 110, 110 + ns as int);
    assert(Seq::<u8>::empty() + h + tail =~= enc);
    lemma_sub_mid(h, r.data, crate::cpio::zeros(pad_len(fs)), 0, fs as int);
    assert(r.data.subrange(0, fs as int) =~= r.data);
}

#[verifier::rlimit(30)]
proof fn lemma_scan_archive(
    recs: Seq<crate::cpio::Record>,
    k: int,
    entry: Option<Seq<char>>,
    runtime: Option<Seq<char>>,
)
    requires
        0 <= k <= recs.len(),
        forall|i: int| 0 <= i < recs.len() ==> scannable(#[trigger] recs[i]),
    ensures
        scan_from(crate::cpio::archive(recs), crate::cpio::archive(recs.take(k)).len() as int, entry, runtime)
            == scan_recs(recs, k, entry, runtime),
    decreases recs.len() - k,
{
    if k == recs.len() {
        assert(recs.take(k) =~= recs);
    } else {
        let r = recs[k];
        assert(scannable(r));
        lemma_entry_in_archive(recs, k);
        lemma_name_with_nul(r.name);
        let name = scanned_name(r);
        let entry2 = if entry is None && is_driver_path(name) {
            Some(seq!['/'] + name)
        } else {
            entry
        };
        if runtime is None && name == "etc/hluk-runtime"@ && r.data.len() < 64 {
            lemma_scan_archive(recs, k + 1, entry2, marker_runtime(r.data));
        } else {
            lemma_scan_archive(recs, k + 1, entry2, runtime);
        }
    }
}

/// A scan of an archive reads its entries as they were written (see
/// [`scan_recs`]): the driver it finds is the first `usr/local/bin/hl_*`
/// or `usr/bin/hl_*` entry, the runtime the one the first
/// `etc/hluk-runtime` marker under 64 bytes names.  So the scratch memory
/// the archive calls for, `default_scratch_mb` of its bytes, is the tested
/// size of the runtime its marker names, else that of the image its
/// driver belongs to, else [`DEFAULT_SCRATCH_MB`].
pub proof fn law_scan_reads_the_entries(recs: Seq<crate::cpio::Record>)
    requires
        forall|i: int| 0 <= i < recs.len() ==> scannable(#[trigger] recs[i]),
    ensures
        spec_scan(crate::cpio::archive(recs)) == scan_recs(recs, 0, None, None),
        scan_recs(recs, 0, None, None) is Some,
        ({
            let (entry, runtime) = scan_recs(recs, 0, None, None)->0;
            let by_marker = match runtime {
                Some(rt) => runtime_mb(rt),
                None => None,
            };
            let by_driver = match entry {
                Some(e) => driver_mb(last_component(e)),
                None => None,
            };
            scratch_of((entry, runtime)) == match by_marker {
                Some(mb) => mb,
                None => match by_driver {
                    Some(mb) => mb,
                    None => DEFAULT_SCRATCH_MB as nat,
                },
            }
        }),
{
    assert(recs.take(0) =~= Seq::<crate::cpio::Record>::empty());
    lemma_scan_archive(recs, 0, None, None);
    lemma_scan_recs_some(recs, 0, None, None);
}

proof fn lemma_scan_recs_some(
    recs: Seq<crate::cpio::Record>,
    k: int,
    entry: Option<Seq<char>>,
    runtime: Option<Seq<char>>,
)
    ensures
        scan_recs(recs, k, entry, runtime) is Some,
    decreases recs.len() - k,
{
    if 0 <= k < recs.len() {
        let r = recs[k];
        let name = scanned_name(r);
        let entry2 = if entry is None && is_driver_path(name) {
            Some(seq!['/'] + name)
        } else {
            entry
        };
        lemma_scan_recs_some(recs, k + 1, entry2, marker_runtime(r.data));
        lemma_scan_recs_some(recs, k + 1, entry2, runtime);
    }
}

/// An entry named `etc/hluk-runtime`, the runtime marker.
pub open spec fn is_marker(r: crate::cpio::Record) -> bool {
    scanned_name(r) == "etc/hluk-runtime"@
}

/// The first driver among `recs[k..]` before the trailer: its path, `/`
/// and its name.
pub open spec fn driver_from(recs: Seq<crate::cpio::Record>, k: int) -> Option<Seq<char>>
    decreases recs.len() - k,
{
    if k < 0 || k >= recs.len() || scanned_name(recs[k]) == "TRAILER!!!"@ {
        None
    } else if is_driver_path(scanned_name(recs[k])) {
        Some(seq!['/'] + scanned_name(recs[k]))
    } else {
        driver_from(recs, k + 1)
    }
}

/// The runtime the marker among `recs[k..]` before the trailer names, when
/// it is under 64 bytes.
pub open spec fn marker_from(recs: Seq<crate::cpio::Record>, k: int) -> Option<Seq<char>>
    decreases recs.len() - k,
{
    if k < 0 || k >= recs.len() || scanned_name(recs[k]) == "TRAILER!!!"@ {
        None
    } else if is_marker(recs[k]) {
        if recs[k].data.len() < 64 {
            marker_runtime(recs[k].data)
        } else {
            None
        }
    } else {
        marker_from(recs, k + 1)
    }
}

proof fn lemma_no_marker_from(recs: Seq<crate::cpio::Record>, k: int)
    requires
        0 <= k,
        forall|j: int| k <= j < recs.len() ==> !is_marker(#[trigger] recs[j]),
    ensures
        marker_from(recs, k) is None,
    decreases recs.len() - k,
{
    if k < recs.len() {
        lemma_no_marker_from(recs, k + 1);
    }
}

proof fn lemma_scan_recs_finds(
    recs: Seq<crate::cpio::Record>,
    k: int,
    entry: Option<Seq<char>>,
    runtime: Option<Seq<char>>,
)
    requires
        0 <= k <= recs.len(),
        forall|i: int, j: int| 0 <= i < j < recs.len() ==> !(is_marker(#[trigger] recs[i]) && is_marker(#[trigger] recs[j])),
    ensures
        scan_recs(recs, k, entry, runtime) == Some((
            if entry is Some { entry } else { driver_from(recs, k) },
            if runtime is Some { runtime } else { marker_from(recs, k) },
        )),
    decreases recs.len() - k,
{
    if k < recs.len() {
        let r = recs[k];
        let name = scanned_name(r);
        if name != "TRAILER!!!"@ {
            if is_marker(r) {
                assert forall|j: int| k + 1 <= j < recs.len() implies !is_marker(#[trigger] recs[j]) by {
                    assert(!(is_marker(recs[k]) && is_marker(recs[j])));
                }
                lemma_no_marker_from(recs, k + 1);
                reveal_strlit("etc/hluk-runtime");
                reveal_strlit("usr/local/bin/hl_");
                reveal_strlit("usr/bin/hl_");
                assert(!is_driver_path(name)) by {
                    let a = "usr/local/bin/hl_"@;
                    let b = "usr/bin/hl_"@;
                    assert(name.len() == 16 && name[0] == 'e');
                    assert(a.len() == 17 && b.len() == 11 && b[0] == 'u');
                    if name.subrange(0, b.len() as int) == b {
                        assert(name.subrange(0, b.len() as int)[0] == name[0]);
                    }
                }
            }
            let entry2 = if entry is None && is_driver_path(name) {
                Some(seq!['/'] + name)
            } else {
                entry
            };
            lemma_scan_recs_finds(recs, k + 1, entry2, marker_runtime(r.data));
            lemma_scan_recs_finds(recs, k + 1, entry2, runtime);
        }
    }
}

/// The scratch memory a guest booted from an archive gets when none is
/// asked for ([`default_scratch_mb`] of its bytes): the tested size of the
/// runtime its `etc/hluk-runtime` marker (under 64 bytes) names, else that
/// of the runtime image its first `usr/local/bin/hl_*` or `usr/bin/hl_*`
/// driver belongs to, else [`DEFAULT_SCRATCH_MB`]; entries after the
/// trailer do not count.  A filesystem archive names the marker once.
pub proof fn law_default_scratch_of_an_archive(recs: Seq<crate::cpio::Record>)
    requires
        forall|i: int| 0 <= i < recs.len() ==> scannable(#[trigger] recs[i]),
        forall|i: int, j: int| 0 <= i < j < recs.len() ==> !(is_marker(#[trigger] recs[i]) && is_marker(#[trigger] recs[j])),
    ensures
        spec_default_scratch(crate::cpio::archive(recs)) == match (match marker_from(recs, 0) {
            Some(rt) => runtime_mb(rt),
            None => None,
        }) {
            Some(mb) => mb,
            None => match driver_from(recs, 0) {
                Some(path) => match driver_mb(last_component(path)) {
                    Some(mb) => mb,
                    None => DEFAULT_SCRATCH_MB as nat,
                },
                None => DEFAULT_SCRATCH_MB as nat,
            },
        },
{
    law_scan_reads_the_entries(recs);
    lemma_scan_recs_finds(recs, 0, None, None);
}

} // verus!
