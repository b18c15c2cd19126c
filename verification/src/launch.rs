//! What `hluk run` will do, decided from the command line's flags and the
//! project's manifest before anything is pulled or booted: which workload
//! runs, which mounts, environment and resolver file the guest gets, where
//! its network policy comes from, how much memory it has and whether it
//! runs warm from a snapshot.
use vstd::prelude::*;

use crate::args::{env_pairs, mount_views, mounts_of, pair_views, parse_envs, parse_mounts};
use crate::github::texts;
use crate::guest::{Exec, Mount};
use crate::initrd::opt_text;
use crate::manifest::{spec_join, spec_known_scratch_mb, Manifest, Workload};

verus! {

/// The flags of `hluk run`, as given (`code` is `--exec`).  `script` is a
/// host script already known to be text.
pub struct RunFlags {
    pub script: Option<String>,
    pub code: Option<String>,
    pub guest_exec: Option<String>,
    pub runtime: Option<String>,
    pub entry: Option<String>,
    pub scratch_mb: Option<usize>,
    pub mounts: Vec<String>,
    pub net: bool,
    pub net_allow: Vec<String>,
    pub net_block: Vec<String>,
    pub ports: Vec<String>,
    pub envs: Vec<String>,
    pub resolv_conf: Option<String>,
    pub warm: bool,
    pub cold: bool,
    pub warm_exec: Option<String>,
}

/// Where the guest's network settings come from.
#[derive(Debug, Clone, Copy, PartialEq, Eq)]
pub enum NetSource {
    /// The network flags, which replace the manifest's table.
    Flags,
    /// The manifest's `[run.net]` table.
    Manifest,
    /// Nowhere: no networking.
    Off,
}

/// What a run is set up with.
pub struct RunPlan {
    pub workload: Exec,
    /// Nothing was asked for: the rootfs's conventional entrypoint runs.
    pub no_workload: bool,
    pub mounts: Vec<Mount>,
    pub network: NetSource,
    pub env: Vec<(String, String)>,
    /// The resolver file to install, as a path.
    pub resolv_conf: Option<String>,
    pub entry: Option<String>,
    pub warm_exec: Option<String>,
    pub warm: bool,
    pub scratch_mb: Option<usize>,
}

/// A workload as its kind (0 code, 1 script file, 2 guest command, 3 a
/// call), its text (the function, for a call) and a call's input (empty
/// for the others).
pub open spec fn exec_view(e: Exec) -> (int, Seq<char>, Seq<char>) {
    match e {
        Exec::Code(c) => (0, c@, seq![]),
        Exec::File(p) => (1, p@, seq![]),
        Exec::Guest(g) => (2, g@, seq![]),
        Exec::Call { function, input } => (3, function@, input@),
    }
}

/// The workload that wins: a script, else inline code, else a guest
/// command from the flags; else the manifest's; else none.
pub open spec fn chosen_workload(f: RunFlags, m: Option<Manifest>) -> Option<(int, Seq<char>)> {
    match f.script {
        Some(s) => Some((1, s@)),
        None => match f.code {
            Some(c) => Some((0, c@)),
            None => match f.guest_exec {
                Some(g) => Some((2, g@)),
                None => match m {
                    None => None,
                    Some(m) => match m.run.script {
                        Some(s) => Some((1, spec_join(m.dir@, s@))),
                        None => match m.run.code {
                            Some(c) => Some((0, c@)),
                            None => match m.run.guest_exec {
                                Some(g) => Some((2, g@)),
                                None => None,
                            },
                        },
                    },
                },
            },
        },
    }
}

/// The manifest's mounts, host paths resolved against its directory.
pub open spec fn manifest_mounts(m: Option<Manifest>) -> Seq<(Seq<char>, Seq<char>, bool)> {
    match m {
        None => seq![],
        Some(m) => mounts_of(texts(m.run.mounts@)).map_values(
            |x: (Seq<char>, Seq<char>, bool)| (spec_join(m.dir@, x.0), x.1, x.2),
        ),
    }
}

/// Whether the flags say anything about networking.
pub open spec fn net_flags_given(f: RunFlags) -> bool {
    f.net || f.net_allow@.len() > 0 || f.net_block@.len() > 0 || f.ports@.len() > 0
}

/// The flags' network settings replace the manifest's; without either
/// there is none.
pub open spec fn spec_net_source(f: RunFlags, m: Option<Manifest>) -> NetSource {
    if net_flags_given(f) {
        NetSource::Flags
    } else if m is Some {
        NetSource::Manifest
    } else {
        NetSource::Off
    }
}

/// A run is warm with `--warm`, cold with `--cold`, else as the manifest
/// says, else warm exactly for a `--runtime` image.
pub open spec fn spec_warm(f: RunFlags, m: Option<Manifest>) -> bool {
    if f.cold {
        false
    } else if f.warm {
        true
    } else {
        match m {
            Some(m) => m.run.warm,
            None => f.runtime is Some,
        }
    }
}

/// The memory a rootfs's own contents ask for.
pub open spec fn rootfs_scratch(data: Seq<u8>) -> usize {
    (crate::initrd::scratch_of(
        match crate::initrd::spec_scan(data) {
            Some(v) => v,
            None => (None, None),
        },
    )) as usize
}

/// The guest's memory: the flag; else, with a rootfs, the manifest's (or
/// what its published image is tested with), the tested size of the
/// `--runtime` image, or what the rootfs asks for; else none (the
/// library's default then applies).
pub open spec fn spec_scratch(f: RunFlags, m: Option<Manifest>, rootfs: Option<Seq<u8>>) -> Option<usize> {
    match f.scratch_mb {
        Some(mb) => Some(mb),
        None => match rootfs {
            None => None,
            Some(d) => Some(
                match m {
                    Some(m) => match spec_known_scratch_mb(m) {
                        Some(mb) => mb,
                        None => rootfs_scratch(d),
                    },
                    None => match f.runtime {
                        Some(rt) => match crate::registry::spec_runtime_name(rt@) {
                            Some(n) => match crate::initrd::runtime_mb(n) {
                                Some(mb) => mb as usize,
                                None => rootfs_scratch(d),
                            },
                            None => rootfs_scratch(d),
                        },
                        None => rootfs_scratch(d),
                    },
                },
            ),
        },
    }
}

/// A flag's text, else the manifest's.
pub open spec fn flag_or(flag: Option<String>, from_manifest: Option<Seq<char>>) -> Option<Seq<char>> {
    match flag {
        Some(x) => Some(x@),
        None => from_manifest,
    }
}

fn text_or(flag: &Option<String>, from_manifest: Option<String>) -> (r: Option<String>)
    ensures
        opt_text(r) == flag_or(*flag, opt_text(from_manifest)),
{
    match flag {
        Some(x) => Some(x.clone()),
        None => from_manifest,
    }
}

/// How `hluk run` sets the guest up (see the spec functions above); the
/// error is a warm run with no rootfs to key its snapshot by.
pub fn plan_run(flags: &RunFlags, manifest: Option<&Manifest>, rootfs: Option<&[u8]>) -> (r: Result<RunPlan, String>)
    ensures
        ({
            let m = match manifest {
                Some(m) => Some(*m),
                None => None,
            };
            let d = match rootfs {
                Some(x) => Some(x@),
                None => None,
            };
            &&& r is Err <==> (spec_warm(*flags, m) && rootfs is None)
            &&& r matches Err(e) ==> e@ == "--warm needs a rootfs: a project, --runtime or --initrd"@
            &&& r matches Ok(p) ==> {
                &&& match chosen_workload(*flags, m) {
                    Some(w) => exec_view(p.workload) == (w.0, w.1, Seq::<char>::empty()) && !p.no_workload,
                    None => exec_view(p.workload) == (2int, Seq::<char>::empty(), Seq::<char>::empty()) && p.no_workload,
                }
                &&& mount_views(p.mounts@) == manifest_mounts(m) + mounts_of(texts(flags.mounts@))
                &&& p.network == spec_net_source(*flags, m)
                &&& pair_views(p.env@) == (match m {
                    Some(m) => pair_views(m.run.env@),
                    None => Seq::empty(),
                }) + env_pairs(texts(flags.envs@))
                &&& opt_text(p.resolv_conf) == flag_or(
                    flags.resolv_conf,
                    match m {
                        Some(m) => match m.run.resolv_conf {
                            Some(x) => Some(spec_join(m.dir@, x@)),
                            None => None,
                        },
                        None => None,
                    },
                )
                &&& opt_text(p.entry) == flag_or(
                    flags.entry,
                    match m {
                        Some(m) => opt_text(m.run.entry),
                        None => None,
                    },
                )
                &&& opt_text(p.warm_exec) == flag_or(
                    flags.warm_exec,
                    match m {
                        Some(m) => opt_text(m.run.warm_exec),
                        None => None,
                    },
                )
                &&& p.warm == spec_warm(*flags, m)
                &&& p.scratch_mb == spec_scratch(*flags, m, d)
            }
        }),
{
    let ghost m = match manifest {
        Some(m) => Some(*m),
        None => None,
    };
    // The workload.
    let workload: Option<Exec> = match &flags.script {
        Some(s) => Some(Exec::File(s.clone())),
        None => match &flags.code {
            Some(c) => Some(Exec::Code(c.clone())),
            None => match &flags.guest_exec {
                Some(g) => Some(Exec::Guest(g.clone())),
                None => match manifest {
                    None => None,
                    Some(mf) => match mf.workload() {
                        Workload::Script(p) => Some(Exec::File(p)),
                        Workload::Exec(c) => Some(Exec::Code(c)),
                        Workload::GuestExec(g) => Some(Exec::Guest(g)),
                        Workload::Conventional => None,
                    },
                },
            },
        },
    };
    let no_workload = workload.is_none();
    let chosen = match workload {
        Some(e) => e,
        None => Exec::Guest(String::new()),
    };
    // Mounts and environment: the manifest's, then the flags'.
    let mut mounts = match manifest {
        Some(mf) => mf.mounts(),
        None => Vec::new(),
    };
    let ghost before = mounts@;
    proof {
        assert(mount_views(before) =~= manifest_mounts(m));
    }
    let mut extra = parse_mounts(&flags.mounts);
    mounts.append(&mut extra);
    proof {
        assert(mount_views(mounts@) =~= mount_views(before) + mounts_of(texts(flags.mounts@)));
    }
    let mut env: Vec<(String, String)> = match manifest {
        Some(mf) => {
            let mut v: Vec<(String, String)> = Vec::new();
            let mut i: usize = 0;
            while i < mf.run.env.len()
                invariant
                    i <= mf.run.env@.len(),
                    pair_views(v@) == pair_views(mf.run.env@.take(i as int)),
                decreases mf.run.env@.len() - i,
            {
                let pair = &mf.run.env[i];
                let k = pair.0.clone();
                let x = pair.1.clone();
                assert(k@ == mf.run.env@[i as int].0@ && x@ == mf.run.env@[i as int].1@);
                let ghost old_v = v@;
                v.push((k, x));
                assert(pair_views(v@) =~= pair_views(old_v).push((mf.run.env@[i as int].0@, mf.run.env@[i as int].1@)));
                assert(mf.run.env@.take(i + 1) =~= mf.run.env@.take(i as int).push(mf.run.env@[i as int]));
                i += 1;
                assert(pair_views(v@) =~= pair_views(mf.run.env@.take(i as int)));
            }
            assert(mf.run.env@.take(i as int) =~= mf.run.env@);
            v
        },
        None => Vec::new(),
    };
    let ghost env_before = env@;
    let mut flag_env = parse_envs(&flags.envs);
    env.append(&mut flag_env);
    proof {
        assert(pair_views(env@) =~= pair_views(env_before) + env_pairs(texts(flags.envs@)));
        if manifest is None {
            assert(pair_views(env_before) =~= Seq::<(Seq<char>, Seq<char>)>::empty());
        }
    }
    // The network's source.
    let network = if flags.net || flags.net_allow.len() > 0 || flags.net_block.len() > 0 || flags.ports.len() > 0 {
        NetSource::Flags
    } else if manifest.is_some() {
        NetSource::Manifest
    } else {
        NetSource::Off
    };
    // The resolver file, entry point and warm code: the flag's, else the
    // manifest's.
    let resolv_conf = text_or(
        &flags.resolv_conf,
        match manifest {
            Some(mf) => match &mf.run.resolv_conf {
                Some(x) => Some(mf.resolve(x.as_str())),
                None => None,
            },
            None => None,
        },
    );
    let entry = text_or(
        &flags.entry,
        match manifest {
            Some(mf) => mf.run.entry.clone(),
            None => None,
        },
    );
    let warm_exec = text_or(
        &flags.warm_exec,
        match manifest {
            Some(mf) => mf.run.warm_exec.clone(),
            None => None,
        },
    );
    let warm = if flags.cold {
        false
    } else if flags.warm {
        true
    } else {
        match manifest {
            Some(mf) => mf.run.warm,
            None => flags.runtime.is_some(),
        }
    };
    // Memory.
    let scratch_mb = match flags.scratch_mb {
        Some(mb) => Some(mb),
        None => match rootfs {
            None => None,
            Some(data) => Some(
                match manifest {
                    Some(mf) => match mf.known_scratch_mb() {
                        Some(mb) => mb,
                        None => crate::initrd::default_scratch_mb(data),
                    },
                    None => match &flags.runtime {
                        Some(rt) => match crate::registry::runtime_name(rt.as_str()) {
                            Some(n) => match crate::initrd::runtime_scratch_mb(n.as_str()) {
                                Some(mb) => mb,
                                None => crate::initrd::default_scratch_mb(data),
                            },
                            None => crate::initrd::default_scratch_mb(data),
                        },
                        None => crate::initrd::default_scratch_mb(data),
                    },
                },
            ),
        },
    };
    if warm && rootfs.is_none() {
        return Err("--warm needs a rootfs: a project, --runtime or --initrd".to_owned());
    }
    Ok(
        RunPlan {
            workload: chosen,
            no_workload,
            mounts,
            network,
            env,
            resolv_conf,
            entry,
            warm_exec,
            warm,
            scratch_mb,
        },
    )
}

/// A sandbox restored from a snapshot keeps the kernel, initrd, entry
/// point and scratch memory it was taken with: asking for any of them is
/// a conflict.
pub fn snapshot_settings_conflict(restored: bool, kernel: bool, initrd: bool, entry: bool, scratch: bool) -> (r: bool)
    ensures
        r == (restored && (kernel || initrd || entry || scratch)),
{
    restored && (kernel || initrd || entry || scratch)
}

} // verus!
