# hyperlight-unikraft

A host for Unikraft unikernels on Hyperlight, and `hluk`, the command line
that starts projects, pulls and builds their root filesystems and runs
them.

The decisions the host makes are a Verus library under `src/`, each
function with a contract that Verus proves:

- `cpio`, `initrd`: building a newc archive from image entries, and
  reading an initrd's entry point and memory size back;
- `guest`: the kernel command line and mount table, the call/step/join
  state machine of a booted guest, host calls, snapshot tags,
  `resolv.conf` rewriting;
- `net_policy`, `dns`, `sockets`, `addr`, `wire`, `errno`, `hostfs`: what
  the guest's sockets and file system calls are allowed and answered;
- `manifest`, `args`, `project`, `template`, `github`, `registry`,
  `snapshot`: `hluk.toml`, the command line's settings, templates, image
  references and registry replies, and the warm-snapshot cache;
- `launch`: what `hluk run` sets a guest up with, from the flags and the
  manifest.

Properties that relate several functions are stated as `law_*` proof
functions next to the functions they are about.

`app/` is the `hluk` binary: argument parsing, files, the network, the
hypervisor calls and the terminal, handing plain values to the library.
`tests/` runs the library on concrete inputs.
