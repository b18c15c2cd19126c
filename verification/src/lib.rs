use vstd::prelude::*;

pub mod addr;
pub mod args;
pub mod cpio;
pub mod dns;
pub mod errno;
pub mod github;
pub mod guest;
pub mod hostfs;
pub mod initrd;
pub mod launch;
pub mod manifest;
pub mod net_policy;
pub mod project;
pub mod registry;
pub mod snapshot;
pub mod sockets;
pub mod template;
pub mod text;
pub mod wire;

verus! {

} // verus!
