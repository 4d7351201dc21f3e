//! Verified core of the Felix i386 hobby kernel: page tables, physical and
//! virtual resource ownership, file-descriptor tables, the VFS mount
//! namespace, and the small data structures that the drivers and syscalls
//! are built on.
//!
//! Everything here is plain data and decisions; port I/O, MMIO, global locks
//! and the interrupt plumbing stay outside this crate.
use vstd::prelude::*;

pub mod paging;
pub mod util;
pub mod resources;
pub mod barrier;
pub mod file;
pub mod net;
pub mod bytes;
pub mod vfs;
pub mod devfs;
pub mod smp;
pub mod pci;
pub mod time;
pub mod print;
pub mod procfs;
pub mod task;
pub mod process;
pub mod path;
pub mod fdsys;
pub mod memsys;
pub mod exec;
pub mod signal;
pub mod pipe;
pub mod fat;
pub mod init;
pub mod ext2;
pub mod gdt;
pub mod ide;
pub mod random;
pub mod shared;
pub mod syscalls;
pub mod floppy;
pub mod partition;
pub mod rootfs;
pub mod wasi;

verus! {

} // verus!
