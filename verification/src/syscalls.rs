//! The user-facing side of the system calls: the records exchanged with
//! user space (Linux i386 layouts where the C library expects them), how
//! they are filled, and the result codes of the calls that only report
//! success or failure. Copying records to and from user memory is the
//! caller's part.
use vstd::prelude::*;
use crate::file::{DeviceKind, FileDescriptor};
use crate::pci::PciDevice;
use crate::path::{resolve_task_path, spec_resolve_path, SLASH};

verus! {

/// Negated errno values as the syscall ABI returns them.
pub const EPERM: usize = usize::MAX;
pub const ENOENT: usize = usize::MAX - 1;
pub const EBADF: usize = usize::MAX - 8;
pub const ENOMEM: usize = usize::MAX - 11;
pub const EFAULT: usize = usize::MAX - 13;
pub const ENOTDIR: usize = usize::MAX - 19;
pub const EINVAL: usize = usize::MAX - 21;
pub const ENOTTY: usize = usize::MAX - 24;

pub const S_IFREG: u32 = 0o100000;
pub const S_IFDIR: u32 = 0o040000;
pub const S_IFCHR: u32 = 0o020000;
pub const S_IFBLK: u32 = 0o060000;

/// Linux i386 `struct stat64` (glibc layout).
#[derive(Clone, Copy, Debug)]
pub struct Stat64 {
    pub st_dev: u64,
    pub pad0: [u8; 4],
    pub st_ino_low: u32,
    pub st_mode: u32,
    pub st_nlink: u32,
    pub st_uid: u32,
    pub st_gid: u32,
    pub st_rdev: u64,
    pub pad3: [u8; 4],
    pub st_size: i64,
    pub st_blksize: u32,
    pub st_blocks: u64,
    pub st_atime: u32,
    pub st_atime_nsec: u32,
    pub st_mtime: u32,
    pub st_mtime_nsec: u32,
    pub st_ctime: u32,
    pub st_ctime_nsec: u32,
    pub st_ino: u64,
}

/// The stat record of `inode` with file type `mode` and `size` bytes:
/// permissions 0644, one link, 4 KiB I/O blocks, 512-byte block count
/// rounded up, device 1, times 0.
pub fn fill_stat64(inode: u32, mode: u32, size: u64) -> (r: Stat64)
    requires
        size + 511 <= u64::MAX,
        size <= i64::MAX,
    ensures
        r.st_dev == 1,
        r.st_ino_low == inode && r.st_ino == inode as u64,
        r.st_mode == mode | 0o644,
        r.st_nlink == 1 && r.st_uid == 0 && r.st_gid == 0 && r.st_rdev == 0,
        r.st_size == size as i64,
        r.st_blksize == 4096,
        r.st_blocks == (size + 511) / 512,
        r.st_atime == 0 && r.st_mtime == 0 && r.st_ctime == 0,
        r.st_atime_nsec == 0 && r.st_mtime_nsec == 0 && r.st_ctime_nsec == 0,
        r.pad0@ == Seq::new(4, |i: int| 0u8) && r.pad3@ == Seq::new(4, |i: int| 0u8),
{
    let r = Stat64 {
        st_dev: 1,
        pad0: [0u8; 4],
        st_ino_low: inode,
        st_mode: mode | 0o644,
        st_nlink: 1,
        st_uid: 0,
        st_gid: 0,
        st_rdev: 0,
        pad3: [0u8; 4],
        st_size: size as i64,
        st_blksize: 4096,
        st_blocks: (size + 511) / 512,
        st_atime: 0,
        st_atime_nsec: 0,
        st_mtime: 0,
        st_mtime_nsec: 0,
        st_ctime: 0,
        st_ctime_nsec: 0,
        st_ino: inode as u64,
    };
    assert(r.pad0@ =~= Seq::new(4, |i: int| 0u8));
    assert(r.pad3@ =~= Seq::new(4, |i: int| 0u8));
    r
}

/// What `fstat64` reports for a descriptor.
#[derive(Clone, Copy, Debug, PartialEq, Eq, Structural)]
pub enum FstatTarget {
    /// A regular file: its inode; its size is found by reading it.
    File(u32),
    /// Inode and file type, with size 0.
    Fixed(u32, u32),
}

/// The descriptor `fstat64` looks at: the one in slot `fd`, else the
/// console for 0, 1 and 2.
pub open spec fn fstat_descriptor(desc: Option<FileDescriptor>, fd: usize) -> Option<FileDescriptor> {
    match desc {
        Some(d) => Some(d),
        None => if fd == 0 {
            Some(FileDescriptor::ConsoleIn)
        } else if fd == 1 || fd == 2 {
            Some(FileDescriptor::ConsoleOut)
        } else {
            None
        },
    }
}

/// `fstat64` on `fd`, whose table slot holds `desc`: files report their
/// inode (size probed), devices their inode and block or character type,
/// directories inode 1, consoles and terminals a character device with
/// inode 0; sockets, pipes and empty slots `EBADF`.
pub fn fstat_target(desc: Option<FileDescriptor>, fd: usize) -> (r: Result<FstatTarget, usize>)
    ensures
        match fstat_descriptor(desc, fd) {
            Some(FileDescriptor::File { inode, .. }) => r == Ok::<FstatTarget, usize>(FstatTarget::File(inode)),
            Some(FileDescriptor::Device { inode, kind, .. }) => r == Ok::<FstatTarget, usize>(
                FstatTarget::Fixed(inode, if kind == DeviceKind::Block { S_IFBLK } else { S_IFCHR }),
            ),
            Some(FileDescriptor::Dir { .. }) => r == Ok::<FstatTarget, usize>(FstatTarget::Fixed(1, S_IFDIR)),
            Some(FileDescriptor::ConsoleIn) | Some(FileDescriptor::ConsoleOut) | Some(FileDescriptor::Pty { .. }) => r
                == Ok::<FstatTarget, usize>(FstatTarget::Fixed(0, S_IFCHR)),
            _ => r == Err::<FstatTarget, usize>(EBADF),
        },
{
    let d = match desc {
        Some(d) => Some(d),
        None => if fd == 0 {
            Some(FileDescriptor::ConsoleIn)
        } else if fd == 1 || fd == 2 {
            Some(FileDescriptor::ConsoleOut)
        } else {
            None
        },
    };
    match d {
        Some(FileDescriptor::File { inode, .. }) => Ok(FstatTarget::File(inode)),
        Some(FileDescriptor::Device { inode, kind, .. }) => Ok(FstatTarget::Fixed(
            inode,
            match kind {
                DeviceKind::Block => S_IFBLK,
                DeviceKind::Char => S_IFCHR,
            },
        )),
        Some(FileDescriptor::Dir { .. }) => Ok(FstatTarget::Fixed(1, S_IFDIR)),
        Some(FileDescriptor::ConsoleIn) | Some(FileDescriptor::ConsoleOut) | Some(FileDescriptor::Pty { .. }) => Ok(
            FstatTarget::Fixed(0, S_IFCHR),
        ),
        _ => Err(EBADF),
    }
}

#[derive(Clone, Copy, Debug, PartialEq, Eq, Structural)]
pub struct TimeVal {
    pub tv_sec: i32,
    pub tv_usec: i32,
}

#[derive(Clone, Copy, Debug, PartialEq, Eq, Structural)]
pub struct TimeSpec {
    pub tv_sec: i32,
    pub tv_nsec: i32,
}

impl TimeSpec {
    pub fn zero() -> (r: Self)
        ensures
            r == (TimeSpec { tv_sec: 0, tv_nsec: 0 }),
    {
        TimeSpec { tv_sec: 0, tv_nsec: 0 }
    }
}

/// `gettimeofday` from the monotonic milliseconds.
pub fn timeval_from_ms(ms: u64) -> (r: TimeVal)
    ensures
        r.tv_sec == (ms / 1000) as i32,
        r.tv_usec == (ms % 1000) * 1000,
{
    TimeVal { tv_sec: (ms / 1000) as i32, tv_usec: ((ms % 1000) * 1000) as i32 }
}

/// `clock_gettime` from the monotonic milliseconds.
pub fn timespec_from_ms(ms: u64) -> (r: TimeSpec)
    ensures
        r.tv_sec == (ms / 1000) as i32,
        r.tv_nsec == (ms % 1000) * 1_000_000,
{
    TimeSpec { tv_sec: (ms / 1000) as i32, tv_nsec: ((ms % 1000) * 1_000_000) as i32 }
}

/// Milliseconds `nanosleep` waits for `req`: seconds and nanoseconds
/// rounded up to whole milliseconds, saturating; `EINVAL` for a negative
/// or out-of-range request.
pub fn nanosleep_ms(req: TimeSpec) -> (r: Result<u64, usize>)
    ensures
        req.tv_sec < 0 || req.tv_nsec < 0 || req.tv_nsec >= 1_000_000_000 ==> r == Err::<u64, usize>(EINVAL),
        !(req.tv_sec < 0 || req.tv_nsec < 0 || req.tv_nsec >= 1_000_000_000) ==> r == Ok::<u64, usize>(
            (if req.tv_sec * 1000 + (req.tv_nsec + 999_999) / 1_000_000 > u64::MAX {
                u64::MAX as int
            } else {
                req.tv_sec * 1000 + (req.tv_nsec + 999_999) / 1_000_000
            }) as u64,
        ),
{
    if req.tv_sec < 0 || req.tv_nsec < 0 || req.tv_nsec >= 1_000_000_000 {
        return Err(EINVAL);
    }
    let secs = req.tv_sec as u64 * 1000;
    let extra = (req.tv_nsec as u64 + 999_999) / 1_000_000;
    Ok(secs + extra)
}

/// A mounted path as `mount_list` hands it out: NUL-terminated, cut to
/// 95 bytes.
#[derive(Clone, Copy, Debug)]
pub struct MountInfoUser {
    pub path: [u8; 96],
}

pub fn mount_info(path: &[u8]) -> (r: MountInfoUser)
    ensures
        ({
            let n = if path@.len() < 95 { path@.len() as int } else { 95 };
            &&& forall|i: int| 0 <= i < n ==> #[trigger] r.path@[i] == path@[i]
            &&& forall|i: int| n <= i < 96 ==> #[trigger] r.path@[i] == 0
        }),
{
    let mut out = [0u8; 96];
    let n = if path.len() < 95 { path.len() } else { 95 };
    let mut i: usize = 0;
    while i < n
        invariant
            n <= 95,
            n <= path@.len(),
            0 <= i <= n,
            forall|j: int| 0 <= j < i ==> #[trigger] out@[j] == path@[j],
            forall|j: int| i <= j < 96 ==> #[trigger] out@[j] == 0,
        decreases n - i,
    {
        out[i] = path[i];
        i = i + 1;
    }
    MountInfoUser { path: out }
}

/// `mount_list`: with no buffer (or room for none) the number of mounts;
/// else the records of the first `min(count, max)` mounts and their
/// number.
pub fn sys_mount_list(mounts: &Vec<Vec<u8>>, max: usize, has_buffer: bool) -> (r: (usize, Vec<MountInfoUser>))
    ensures
        !has_buffer || max == 0 ==> r.0 == mounts@.len() && r.1@.len() == 0,
        has_buffer && max > 0 ==> {
            let n = if mounts@.len() < max { mounts@.len() as int } else { max as int };
            &&& r.0 == n
            &&& r.1@.len() == n
            &&& forall|k: int, i: int| 0 <= k < n && 0 <= i < 96 ==> #[trigger] r.1@[k].path@[i] == (if i < mounts@[k]@.len()
                && i < 95 { mounts@[k]@[i] } else { 0u8 })
        },
{
    let total = mounts.len();
    if !has_buffer || max == 0 {
        return (total, Vec::new());
    }
    let n = if total < max { total } else { max };
    let mut out: Vec<MountInfoUser> = Vec::new();
    let mut k: usize = 0;
    while k < n
        invariant
            n <= mounts@.len(),
            0 <= k <= n,
            out@.len() == k,
            forall|j: int, i: int| 0 <= j < k && 0 <= i < 96 ==> #[trigger] out@[j].path@[i] == (if i < mounts@[j]@.len()
                && i < 95 { mounts@[j]@[i] } else { 0u8 }),
        decreases n - k,
    {
        let rec = mount_info(mounts[k].as_slice());
        out.push(rec);
        k = k + 1;
    }
    (n, out)
}

/// Compact PCI device record for `lspci`.
#[derive(Clone, Copy, Debug, PartialEq, Eq, Structural)]
pub struct PciInfoUser {
    pub bus: u8,
    pub device: u8,
    pub function: u8,
    pub pad: u8,
    pub vendor_id: u16,
    pub device_id: u16,
    pub class_code: u8,
    pub subclass: u8,
    pub prog_if: u8,
    pub interrupt_line: u8,
}

pub open spec fn spec_pci_info(d: PciDevice) -> PciInfoUser {
    PciInfoUser {
        bus: d.bus,
        device: d.device,
        function: d.function,
        pad: 0,
        vendor_id: d.vendor_id,
        device_id: d.device_id,
        class_code: d.class_code,
        subclass: d.subclass,
        prog_if: d.prog_if,
        interrupt_line: d.interrupt_line,
    }
}

/// `pci_list`: the device count with no buffer (or room for none), else
/// the records of the first `min(count, max)` devices and their number.
pub fn sys_pci_list(devices: &Vec<PciDevice>, max: usize, has_buffer: bool) -> (r: (usize, Vec<PciInfoUser>))
    ensures
        !has_buffer || max == 0 ==> r.0 == devices@.len() && r.1@.len() == 0,
        has_buffer && max > 0 ==> {
            let n = if devices@.len() < max { devices@.len() as int } else { max as int };
            &&& r.0 == n
            &&& r.1@ == devices@.subrange(0, n).map_values(|d: PciDevice| spec_pci_info(d))
        },
{
    let total = devices.len();
    if !has_buffer || max == 0 {
        return (total, Vec::new());
    }
    let n = if total < max { total } else { max };
    let mut out: Vec<PciInfoUser> = Vec::new();
    let mut k: usize = 0;
    while k < n
        invariant
            n <= devices@.len(),
            0 <= k <= n,
            out@ == devices@.subrange(0, k as int).map_values(|d: PciDevice| spec_pci_info(d)),
        decreases n - k,
    {
        let d = &devices[k];
        out.push(PciInfoUser {
            bus: d.bus,
            device: d.device,
            function: d.function,
            pad: 0,
            vendor_id: d.vendor_id,
            device_id: d.device_id,
            class_code: d.class_code,
            subclass: d.subclass,
            prog_if: d.prog_if,
            interrupt_line: d.interrupt_line,
        });
        k = k + 1;
        assert(out@ =~= devices@.subrange(0, k as int).map_values(|d: PciDevice| spec_pci_info(d)));
    }
    (n, out)
}

/// Result of a path syscall (`mkdir`, `rmdir`, `unlink`): `EINVAL` for an
/// empty name, which is not tried; otherwise the name is resolved against
/// the working directory `cwd` and the filesystem operation `op` runs on
/// the result: 0 when it succeeded, -1 when it failed.
pub fn path_syscall<F: FnOnce(Vec<u8>) -> bool>(raw: &[u8], cwd: &[u8], op: F) -> (r: usize)
    requires
        raw@.len() > 0 ==> forall|v: Vec<u8>| v@ == spec_resolve_path(cwd@, raw@) ==> call_requires(op, (v,)),
    ensures
        raw@.len() == 0 ==> r == EINVAL,
        raw@.len() > 0 ==> exists|v: Vec<u8>, ok: bool| v@ == spec_resolve_path(cwd@, raw@)
            && call_ensures(op, (v,), ok) && r == (if ok { 0 } else { usize::MAX }),
{
    if raw.len() == 0 {
        return EINVAL;
    }
    let path = resolve_task_path(cwd, raw);
    let ghost pv = path;
    let ok = op(path);
    assert(pv@ == spec_resolve_path(cwd@, raw@) && call_ensures(op, (pv,), ok));
    if ok {
        0
    } else {
        usize::MAX
    }
}

pub fn sys_mkdir<F: FnOnce(Vec<u8>) -> bool>(raw: &[u8], cwd: &[u8], mkdir: F) -> (r: usize)
    requires
        raw@.len() > 0 ==> forall|v: Vec<u8>| v@ == spec_resolve_path(cwd@, raw@) ==> call_requires(mkdir, (v,)),
    ensures
        raw@.len() == 0 ==> r == EINVAL,
        raw@.len() > 0 ==> exists|v: Vec<u8>, ok: bool| v@ == spec_resolve_path(cwd@, raw@)
            && call_ensures(mkdir, (v,), ok) && r == (if ok { 0 } else { usize::MAX }),
{
    path_syscall(raw, cwd, mkdir)
}

pub fn sys_rmdir<F: FnOnce(Vec<u8>) -> bool>(raw: &[u8], cwd: &[u8], rmdir: F) -> (r: usize)
    requires
        raw@.len() > 0 ==> forall|v: Vec<u8>| v@ == spec_resolve_path(cwd@, raw@) ==> call_requires(rmdir, (v,)),
    ensures
        raw@.len() == 0 ==> r == EINVAL,
        raw@.len() > 0 ==> exists|v: Vec<u8>, ok: bool| v@ == spec_resolve_path(cwd@, raw@)
            && call_ensures(rmdir, (v,), ok) && r == (if ok { 0 } else { usize::MAX }),
{
    path_syscall(raw, cwd, rmdir)
}

pub fn sys_unlink<F: FnOnce(Vec<u8>) -> bool>(raw: &[u8], cwd: &[u8], remove: F) -> (r: usize)
    requires
        raw@.len() > 0 ==> forall|v: Vec<u8>| v@ == spec_resolve_path(cwd@, raw@) ==> call_requires(remove, (v,)),
    ensures
        raw@.len() == 0 ==> r == EINVAL,
        raw@.len() > 0 ==> exists|v: Vec<u8>, ok: bool| v@ == spec_resolve_path(cwd@, raw@)
            && call_ensures(remove, (v,), ok) && r == (if ok { 0 } else { usize::MAX }),
{
    path_syscall(raw, cwd, remove)
}

/// chdir: the new working directory (the resolved name), `ENOENT` for an
/// empty name, `ENOTDIR` when `is_dir` says it is no directory.
pub fn sys_chdir<F: FnOnce(&[u8]) -> bool>(raw: &[u8], cwd: &[u8], is_dir: F) -> (r: Result<Vec<u8>, usize>)
    requires
        raw@.len() > 0 ==> forall|v: &[u8]| v@ == spec_resolve_path(cwd@, raw@) ==> call_requires(is_dir, (v,)),
    ensures
        raw@.len() == 0 ==> r == Err::<Vec<u8>, usize>(ENOENT),
        raw@.len() > 0 ==> exists|v: &[u8], ok: bool| v@ == spec_resolve_path(cwd@, raw@) && call_ensures(is_dir, (v,), ok)
            && (ok ==> (r matches Ok(p) && p@ == v@)) && (!ok ==> r == Err::<Vec<u8>, usize>(ENOTDIR)),
{
    if raw.len() == 0 {
        return Err(ENOENT);
    }
    let path = resolve_task_path(cwd, raw);
    let ok = is_dir(path.as_slice());
    if ok {
        Ok(path)
    } else {
        Err(ENOTDIR)
    }
}

/// getcwd into a buffer of `size` bytes: the directory name and a NUL, and
/// the length with it; `EFAULT` for no buffer, `ENOMEM` when it does not fit.
pub fn sys_getcwd(cwd: &[u8], has_buf: bool, size: usize) -> (r: Result<(Vec<u8>, usize), usize>)
    requires
        cwd@.len() < usize::MAX,
    ensures
        (!has_buf || size == 0) ==> r == Err::<(Vec<u8>, usize), usize>(EFAULT),
        has_buf && size > 0 && cwd@.len() + 1 > size ==> r == Err::<(Vec<u8>, usize), usize>(ENOMEM),
        has_buf && size > 0 && cwd@.len() + 1 <= size ==> (r matches Ok((bytes, n))
            && bytes@ == cwd@.push(0u8) && n == cwd@.len() + 1),
{
    if !has_buf || size == 0 {
        return Err(EFAULT);
    }
    let need = cwd.len() + 1;
    if need > size {
        return Err(ENOMEM);
    }
    let mut out = crate::bytes::slice_to_vec(cwd, 0, cwd.len());
    assert(cwd@.subrange(0, cwd@.len() as int) =~= cwd@);
    out.push(0);
    Ok((out, need))
}

/// The text `ls` writes: each name, `/` after directories, a newline
/// after each, for the leading entries that fit in `cap` bytes.
pub open spec fn ls_text(es: Seq<crate::vfs::DirEntry>, cap: int) -> Seq<u8>
    decreases es.len(),
{
    if es.len() == 0 {
        Seq::empty()
    } else {
        let e = es[0];
        let item = e.name@ + (if e.file_type == 2 { seq![SLASH] } else { Seq::<u8>::empty() }) + seq![0x0Au8];
        if item.len() > cap {
            Seq::empty()
        } else {
            item + ls_text(es.drop_first(), cap - item.len())
        }
    }
}

/// ls: the listing text for a buffer of `buf_size` bytes (see [`ls_text`]).
pub fn sys_ls(entries: &[crate::vfs::DirEntry], buf_size: usize) -> (r: Vec<u8>)
    ensures
        r@ == ls_text(entries@, buf_size as int),
        r@.len() <= buf_size,
{
    let mut out: Vec<u8> = Vec::new();
    let mut k: usize = 0;
    assert(entries@.subrange(0, entries@.len() as int) =~= entries@);
    assert(out@ + ls_text(entries@, buf_size as int) =~= ls_text(entries@, buf_size as int));
    while k < entries.len()
        invariant
            k <= entries@.len(),
            out@.len() <= buf_size,
            out@ + ls_text(entries@.subrange(k as int, entries@.len() as int), buf_size - out@.len())
                == ls_text(entries@, buf_size as int),
        decreases entries@.len() - k,
    {
        let name = &entries[k].name;
        let is_dir = entries[k].file_type == 2;
        let extra: usize = if is_dir { 1 } else { 0 };
        let ghost rest = entries@.subrange(k as int, entries@.len() as int);
        proof {
            assert(rest[0] == entries@[k as int]);
            assert(rest.drop_first() =~= entries@.subrange(k + 1, entries@.len() as int));
        }
        let avail = buf_size - out.len();
        if name.len() > avail || avail - name.len() < extra + 1 {
            proof {
                assert(ls_text(rest, buf_size - out@.len()) =~= Seq::<u8>::empty());
                assert(out@ + Seq::<u8>::empty() =~= out@);
            }
            return out;
        }
        let ghost before = out@;
        let mut x: usize = 0;
        while x < name.len()
            invariant
                x <= name@.len(),
                out@ == before + name@.subrange(0, x as int),
            decreases name@.len() - x,
        {
            out.push(name[x]);
            x = x + 1;
            assert(out@ =~= before + name@.subrange(0, x as int));
        }
        if is_dir {
            out.push(SLASH);
        }
        out.push(0x0A);
        proof {
            let item = name@ + (if is_dir { seq![SLASH] } else { Seq::<u8>::empty() }) + seq![0x0Au8];
            assert(name@.subrange(0, name@.len() as int) =~= name@);
            assert(out@ =~= before + item);
            assert(out@ + ls_text(entries@.subrange(k + 1, entries@.len() as int), buf_size - out@.len())
                =~= before + ls_text(rest, buf_size - before.len()));
        }
        k = k + 1;
    }
    proof {
        assert(ls_text(entries@.subrange(k as int, entries@.len() as int), buf_size - out@.len()) =~= Seq::<u8>::empty());
        assert(out@ + Seq::<u8>::empty() =~= out@);
    }
    out
}

/// `umount2` of the name `raw` (`EINVAL` when empty) resolved against the
/// working directory `cwd`: the root, `/dev` and `/proc`
/// stay pinned (`EPERM`); otherwise every mount there goes, and with it
/// the record of the device mounted there (0), or `ENOENT` when nothing
/// was mounted there.
pub fn sys_umount2(vfs: &mut crate::vfs::VfsTable, devices: &mut crate::init::DeviceMounts, cwd: &[u8], raw: &[u8]) -> (r: usize)
    ensures
        raw@.len() == 0 ==> r == EINVAL && final(vfs).mounts@ == old(vfs).mounts@ && final(devices).entries@ == old(devices).entries@,
        raw@.len() > 0 ==> ({
            let rp = spec_resolve_path(cwd@, raw@);
            let pinned = rp == seq![0x2Fu8] || rp == seq![0x2Fu8, 0x64, 0x65, 0x76] || rp == seq![
                0x2Fu8,
                0x70,
                0x72,
                0x6F,
                0x63,
            ];
            &&& pinned ==> r == EPERM && final(vfs).mounts@ == old(vfs).mounts@ && final(devices).entries@
                == old(devices).entries@
            &&& !pinned && crate::vfs::mounted_at(old(vfs).mounts@, rp) ==> r == 0 && final(vfs).mounts@
                == old(vfs).mounts@.filter(crate::vfs::mount_not_at(rp)) && final(devices).entries@
                == old(devices).entries@.filter(crate::init::target_not(rp))
            &&& !pinned && !crate::vfs::mounted_at(old(vfs).mounts@, rp) ==> r == ENOENT && final(vfs).mounts@
                == old(vfs).mounts@.filter(crate::vfs::mount_not_at(rp)) && final(devices).entries@
                == old(devices).entries@
        }),
{
    if raw.len() == 0 {
        return EINVAL;
    }
    let resolved = resolve_task_path(cwd, raw);
    let path = resolved.as_slice();
    let root: [u8; 1] = [0x2F];
    let dev: [u8; 4] = [0x2F, 0x64, 0x65, 0x76];
    let proc_dir: [u8; 5] = [0x2F, 0x70, 0x72, 0x6F, 0x63];
    assert(root@ =~= seq![0x2Fu8]);
    assert(dev@ =~= seq![0x2Fu8, 0x64, 0x65, 0x76]);
    assert(proc_dir@ =~= seq![0x2Fu8, 0x70, 0x72, 0x6F, 0x63]);
    let pinned = crate::util::bytes_eq(path, &root) || crate::util::bytes_eq(path, &dev) || crate::util::bytes_eq(
        path,
        &proc_dir,
    );
    if pinned {
        return EPERM;
    }
    if vfs.unmount(path) {
        devices.forget_device_mount(path);
        0
    } else {
        ENOENT
    }
}

/// `tty_setfg`: 0 when the foreground group was set, else `EPERM`.
pub fn sys_tty_setfg(set: bool) -> (r: usize)
    ensures
        r == (if set { 0 } else { EPERM }),
{
    if set {
        0
    } else {
        EPERM
    }
}

/// `tty_getfg`: the foreground process group (sign-extended), or -1 when
/// the terminal has none.
pub fn sys_tty_getfg(fg: Option<i32>) -> (r: usize)
    ensures
        r == (match fg { Some(p) => p as usize, None => usize::MAX }),
{
    match fg {
        Some(p) => p as usize,
        None => usize::MAX,
    }
}

/// `accept4` is not implemented: always -1.
pub fn sys_accept4(fd: usize) -> (r: usize)
    ensures
        r == usize::MAX,
{
    usize::MAX
}

/// Result of a window-manager call that reports success.
pub fn wm_result(ok: bool) -> (r: usize)
    ensures
        r == (if ok { 0 } else { usize::MAX }),
{
    if ok {
        0
    } else {
        usize::MAX
    }
}

pub fn sys_wm_destroy(destroyed: bool) -> (r: usize)
    ensures
        r == (if destroyed { 0 } else { usize::MAX }),
{
    wm_result(destroyed)
}

pub fn sys_wm_move(moved: bool) -> (r: usize)
    ensures
        r == (if moved { 0 } else { usize::MAX }),
{
    wm_result(moved)
}

pub fn sys_wm_flip(flipped: bool) -> (r: usize)
    ensures
        r == (if flipped { 0 } else { usize::MAX }),
{
    wm_result(flipped)
}

pub fn sys_wm_focus(focused: bool) -> (r: usize)
    ensures
        r == (if focused { 0 } else { usize::MAX }),
{
    wm_result(focused)
}

/// Events `wm_poll` copies out at most per call.
pub fn sys_wm_poll(max: usize) -> (r: usize)
    ensures
        r == (if max < 32 { max } else { 32 }),
{
    if max < 32 {
        max
    } else {
        32
    }
}

/// `mount` arguments (`fstype` and `data` are user addresses).
#[derive(Clone, Copy, Debug, PartialEq, Eq, Structural)]
pub struct MountArgsUser {
    pub fstype: u32,
    pub flags: u32,
    pub data: u32,
}

/// Linux i386 old `mmap` argument block.
#[derive(Clone, Copy, Debug, PartialEq, Eq, Structural)]
pub struct MmapArgStruct {
    pub addr: u32,
    pub len: u32,
    pub prot: u32,
    pub flags: u32,
    pub fd: i32,
    pub offset: u32,
}

#[derive(Clone, Copy, Debug, PartialEq, Eq, Structural)]
pub struct SigActionUser {
    pub sa_handler: u32,
    pub sa_mask: u32,
    pub sa_flags: u32,
}

/// One task as `task_list` reports it.
#[derive(Clone, Copy, Debug)]
pub struct TaskInfoUser {
    pub pid: i32,
    pub ppid: i32,
    pub pgid: i32,
    pub sid: i32,
    pub state: u8,
    pub pad: [u8; 3],
    pub exit_code: i32,
    pub tty_id: i16,
    pub pad2: [u8; 2],
    pub name: [u8; 32],
    pub cwd: [u8; 128],
}

#[derive(Clone, Copy, Debug, PartialEq, Eq, Structural)]
pub struct PollFd {
    pub fd: i32,
    pub events: i16,
    pub revents: i16,
}

/// `execve` parameters as user space passes them (`argv` and `envp` are
/// addresses of string-pointer arrays in its memory).
#[derive(Clone, Copy, Debug, PartialEq, Eq, Structural)]
pub struct ExecParamsUser {
    pub stdin: i32,
    pub stdout: i32,
    pub stderr: i32,
    pub argc: u32,
    pub argv: u32,
    pub envc: u32,
    pub envp: u32,
    pub pgid: i32,
    pub foreground: u32,
}

/// `execve` parameters copied into the kernel.
pub struct ExecParamsKernel {
    pub stdin: i32,
    pub stdout: i32,
    pub stderr: i32,
    pub argv: Vec<Vec<u8>>,
    pub envp: Vec<Vec<u8>>,
    pub pgid: i32,
    pub foreground: bool,
}

/// `wm_create` arguments (title and flags are user addresses).
#[derive(Clone, Copy, Debug, PartialEq, Eq, Structural)]
pub struct WmCreateArgs {
    pub x: i32,
    pub y: i32,
    pub w: u32,
    pub h: u32,
    pub title: u32,
    pub flags: u32,
}

#[derive(Clone, Copy, Debug, PartialEq, Eq, Structural)]
pub struct FbInfoUser {
    pub width: u32,
    pub height: u32,
    pub pitch: u32,
    pub bpp: u32,
    pub virt: u32,
}

/// A framebuffer blit request (`src` is the user address of the pixels,
/// `stride` their row pitch in pixels).
#[derive(Clone, Copy, Debug, PartialEq, Eq, Structural)]
pub struct FbBlit {
    pub src: u32,
    pub stride: u32,
    pub x: u32,
    pub y: u32,
    pub w: u32,
    pub h: u32,
}


/// `s` without its leading slashes.
pub open spec fn trim_slashes_start(s: Seq<u8>) -> Seq<u8>
    decreases s.len(),
{
    if s.len() > 0 && s[0] == SLASH { trim_slashes_start(s.drop_first()) } else { s }
}

/// The device name a mount source names: without a leading `/dev/`, and
/// without slashes at either end.
pub open spec fn mount_source(raw: Seq<u8>) -> Seq<u8> {
    let dev = seq![0x2Fu8, 0x64, 0x65, 0x76, 0x2F];
    let s = if crate::bytes::is_prefix(dev, raw) { raw.subrange(5, raw.len() as int) } else { raw };
    crate::file::trim_slashes_end(trim_slashes_start(s))
}

fn trim_slashes(s: &[u8]) -> (r: Vec<u8>)
    ensures
        r@ == crate::file::trim_slashes_end(trim_slashes_start(s@)),
{
    let mut a: usize = 0;
    assert(s@.subrange(0, s@.len() as int) =~= s@);
    while a < s.len() && s[a] == SLASH
        invariant
            a <= s@.len(),
            trim_slashes_start(s@.subrange(a as int, s@.len() as int)) == trim_slashes_start(s@),
        decreases s@.len() - a,
    {
        assert(s@.subrange(a as int, s@.len() as int).drop_first() =~= s@.subrange(a + 1, s@.len() as int));
        a = a + 1;
    }
    let ghost mid = s@.subrange(a as int, s@.len() as int);
    assert(trim_slashes_start(mid) == mid);
    let mut b: usize = s.len();
    assert(s@.subrange(a as int, b as int) =~= mid);
    while b > a && s[b - 1] == SLASH
        invariant
            a <= b <= s@.len(),
            crate::file::trim_slashes_end(s@.subrange(a as int, b as int)) == crate::file::trim_slashes_end(mid),
        decreases b,
    {
        assert(s@.subrange(a as int, b as int).drop_last() =~= s@.subrange(a as int, b - 1));
        b = b - 1;
    }
    crate::bytes::slice_to_vec(s, a, b)
}

/// mount(source, target): `EINVAL` for an empty name, or for a source
/// that names no single device (see [`mount_source`]); otherwise the
/// device name and the target resolved against `cwd`, which the caller
/// mounts (0 when that worked, `EINVAL` otherwise).
pub fn sys_mount(source_raw: &[u8], target_raw: &[u8], cwd: &[u8]) -> (r: Result<(Vec<u8>, Vec<u8>), usize>)
    ensures
        (source_raw@.len() == 0 || target_raw@.len() == 0) ==> r == Err::<(Vec<u8>, Vec<u8>), usize>(EINVAL),
        source_raw@.len() > 0 && target_raw@.len() > 0 ==> ({
            let src = mount_source(source_raw@);
            &&& (src.len() == 0 || src.contains(SLASH)) ==> r == Err::<(Vec<u8>, Vec<u8>), usize>(EINVAL)
            &&& !(src.len() == 0 || src.contains(SLASH)) ==> (r matches Ok((a, b))
                && a@ == src && b@ == spec_resolve_path(cwd@, target_raw@))
        }),
{
    if source_raw.len() == 0 || target_raw.len() == 0 {
        return Err(EINVAL);
    }
    let dev: [u8; 5] = [0x2F, 0x64, 0x65, 0x76, 0x2F];
    assert(dev@ =~= seq![0x2Fu8, 0x64, 0x65, 0x76, 0x2F]);
    let src = if crate::bytes::starts_with(source_raw, &dev) {
        let rest = crate::bytes::slice_to_vec(source_raw, 5, source_raw.len());
        trim_slashes(rest.as_slice())
    } else {
        trim_slashes(source_raw)
    };
    if src.len() == 0 {
        return Err(EINVAL);
    }
    let mut i: usize = 0;
    while i < src.len()
        invariant
            i <= src@.len(),
            forall|j: int| 0 <= j < i ==> src@[j] != SLASH,
            src@ == mount_source(source_raw@),
            source_raw@.len() > 0 && target_raw@.len() > 0,
        decreases src@.len() - i,
    {
        if src[i] == SLASH {
            assert(src@.contains(SLASH)) by {
                assert(src@[i as int] == SLASH);
            }
            return Err(EINVAL);
        }
        i = i + 1;
    }
    let target = resolve_task_path(cwd, target_raw);
    Ok((src, target))
}

pub const TCGETS: u32 = 0x5401;
pub const TCSETS: u32 = 0x5402;
pub const TIOCGPGRP: u32 = 0x540F;
pub const TIOCSPGRP: u32 = 0x5410;
pub const LFLAG_ISIG: u32 = 0x0001;
pub const LFLAG_ICANON: u32 = 0x0002;
pub const LFLAG_ECHO: u32 = 0x0008;

/// The local-mode word of a terminal in canonical (`ICANON`), echoing
/// (`ECHO`) and signal-generating (`ISIG`) mode.
pub open spec fn spec_lflag(canonical: bool, echo: bool, isig: bool) -> u32 {
    ((if isig { 1u32 } else { 0u32 }) + (if canonical { 2u32 } else { 0u32 }) + (if echo { 8u32 } else { 0u32 })) as u32
}

pub fn termios_lflag(canonical: bool, echo: bool, isig: bool) -> (r: u32)
    ensures
        r == spec_lflag(canonical, echo, isig),
{
    let mut lflag: u32 = 0;
    if isig {
        lflag = lflag + LFLAG_ISIG;
    }
    if canonical {
        lflag = lflag + LFLAG_ICANON;
    }
    if echo {
        lflag = lflag + LFLAG_ECHO;
    }
    lflag
}

/// The terminal mode a local-mode word sets: (canonical, echo, isig).
pub fn termios_mode(lflag: u32) -> (r: (bool, bool, bool))
    ensures
        r == (lflag & LFLAG_ICANON != 0, lflag & LFLAG_ECHO != 0, lflag & LFLAG_ISIG != 0),
{
    (lflag & LFLAG_ICANON != 0, lflag & LFLAG_ECHO != 0, lflag & LFLAG_ISIG != 0)
}

/// Setting the mode word that reading gave back restores the mode.
pub proof fn law_termios_roundtrip(canonical: bool, echo: bool, isig: bool)
    ensures
        ({
            let l = spec_lflag(canonical, echo, isig);
            (l & LFLAG_ICANON != 0, l & LFLAG_ECHO != 0, l & LFLAG_ISIG != 0) == (canonical, echo, isig)
        }),
{
    let l = spec_lflag(canonical, echo, isig);
    assert(l == 0 || l == 1 || l == 2 || l == 3 || l == 8 || l == 9 || l == 10 || l == 11);
    assert(l & 2 != 0 <==> (l == 2 || l == 3 || l == 10 || l == 11)) by (bit_vector)
        requires l == 0 || l == 1 || l == 2 || l == 3 || l == 8 || l == 9 || l == 10 || l == 11;
    assert(l & 8 != 0 <==> (l == 8 || l == 9 || l == 10 || l == 11)) by (bit_vector)
        requires l == 0 || l == 1 || l == 2 || l == 3 || l == 8 || l == 9 || l == 10 || l == 11;
    assert(l & 1 != 0 <==> (l == 1 || l == 3 || l == 9 || l == 11)) by (bit_vector)
        requires l == 0 || l == 1 || l == 2 || l == 3 || l == 8 || l == 9 || l == 10 || l == 11;
}

/// What an ioctl on a descriptor asks of the terminal layer.
#[derive(Debug, Clone, Copy, PartialEq, Eq, Structural)]
pub enum IoctlStep {
    /// Answer the error code.
    Fail(usize),
    /// Write the foreground group of the caller's terminal to `arg`.
    GetPgrp,
    /// Make the group stored at `arg` the foreground group (0, or `EPERM`).
    SetPgrp,
    /// Write the mode of terminal `pty_id` as a termios record to `arg`.
    GetMode(usize),
    /// Set the mode of terminal `pty_id` from the termios record at `arg`.
    SetMode(usize),
}

/// ioctl(fd, req, arg) on descriptor `desc`: only terminal ends take them
/// (`ENOTTY`); the group requests and the mode requests need an argument
/// (`EFAULT`); other requests are `ENOTTY`.
pub fn sys_ioctl(desc: Option<FileDescriptor>, req: u32, arg: u32) -> (r: IoctlStep)
    ensures
        !(desc matches Some(FileDescriptor::Pty { .. })) ==> r == IoctlStep::Fail(ENOTTY),
        desc matches Some(FileDescriptor::Pty { pty_id, .. }) ==> r == (
            if req == TIOCGPGRP { if arg == 0 { IoctlStep::Fail(EFAULT) } else { IoctlStep::GetPgrp } }
            else if req == TIOCSPGRP { if arg == 0 { IoctlStep::Fail(EFAULT) } else { IoctlStep::SetPgrp } }
            else if req == TCGETS { if arg == 0 { IoctlStep::Fail(EFAULT) } else { IoctlStep::GetMode(pty_id) } }
            else if req == TCSETS { if arg == 0 { IoctlStep::Fail(EFAULT) } else { IoctlStep::SetMode(pty_id) } }
            else { IoctlStep::Fail(ENOTTY) }),
{
    let pty_id = match desc {
        Some(FileDescriptor::Pty { pty_id, .. }) => pty_id,
        _ => return IoctlStep::Fail(ENOTTY),
    };
    if req == TIOCGPGRP {
        return if arg == 0 { IoctlStep::Fail(EFAULT) } else { IoctlStep::GetPgrp };
    }
    if req == TIOCSPGRP {
        return if arg == 0 { IoctlStep::Fail(EFAULT) } else { IoctlStep::SetPgrp };
    }
    if req == TCGETS {
        return if arg == 0 { IoctlStep::Fail(EFAULT) } else { IoctlStep::GetMode(pty_id) };
    }
    if req == TCSETS {
        return if arg == 0 { IoctlStep::Fail(EFAULT) } else { IoctlStep::SetMode(pty_id) };
    }
    IoctlStep::Fail(ENOTTY)
}

/// What `task_list` reports of one task (its name and working directory
/// come from the caller's records of it).
#[derive(Debug, Clone, Copy, PartialEq, Eq, Structural)]
pub struct TaskSummary {
    pub slot: usize,
    pub pid: i32,
    pub ppid: i32,
    pub pgid: i32,
    pub sid: i32,
    /// 0 runnable, 1 stopped, 2 zombie.
    pub state: u8,
    pub exit_code: i32,
    pub tty_id: i16,
}

pub open spec fn summary_of(t: crate::task::Task, slot: int) -> TaskSummary {
    TaskSummary {
        slot: slot as usize,
        pid: t.pid,
        ppid: t.ppid,
        pgid: t.pgid,
        sid: t.sid,
        state: if t.zombie { 2 } else if t.stopped { 1 } else { 0 },
        exit_code: t.exit_code,
        tty_id: t.tty_id,
    }
}

/// task_list: without a buffer (or room for none), the number of tasks;
/// else the summaries of the first `max` tasks in slot order, and their
/// number.
pub fn sys_task_list(tm: &crate::task::TaskManager, has_out: bool, max: usize) -> (r: (usize, Vec<TaskSummary>))
    requires
        tm.wf(),
    ensures
        !has_out || max == 0 ==> r.0 == crate::task::occupied(tm.tasks@) && r.1@.len() == 0,
        has_out && max > 0 ==> ({
            let all = crate::task::slots_upto(tm.tasks@, crate::task::MAX_TASKS as int, |t: crate::task::Task, i: int| true);
            let n = if all.len() < max { all.len() as int } else { max as int };
            &&& r.0 == n
            &&& r.1@ == Seq::new(n as nat, |k: int| summary_of(tm.tasks@[all[k] as int]->Some_0, all[k] as int))
        }),
{
    if !has_out || max == 0 {
        return (tm.task_count as usize, Vec::new());
    }
    let ghost all = crate::task::slots_upto(tm.tasks@, crate::task::MAX_TASKS as int, |t: crate::task::Task, i: int| true);
    let mut out: Vec<TaskSummary> = Vec::new();
    let mut i: usize = 0;
    while i < 32 && out.len() < max
        invariant
            tm.wf(),
            i <= 32,
            out@.len() <= max,
            out@.len() == crate::task::slots_upto(tm.tasks@, i as int, |t: crate::task::Task, i: int| true).len(),
            out@ == Seq::new(out@.len(), |k: int| summary_of(tm.tasks@[all[k] as int]->Some_0, all[k] as int)),
            all == crate::task::slots_upto(tm.tasks@, crate::task::MAX_TASKS as int, |t: crate::task::Task, i: int| true),
            crate::task::slots_upto(tm.tasks@, i as int, |t: crate::task::Task, i: int| true)
                == all.subrange(0, out@.len() as int),
        decreases 32 - i,
    {
        proof {
            crate::task::lemma_slots_upto_prefix(tm.tasks@, i as int, crate::task::MAX_TASKS as int, |t: crate::task::Task, i: int| true);
        }
        match tm.tasks[i] {
            Some(t) => {
                let state: u8 = if t.zombie { 2 } else if t.stopped { 1 } else { 0 };
                proof {
                    let p = |t: crate::task::Task, i: int| true;
                    assert(crate::task::slots_upto(tm.tasks@, i + 1, p) =~= crate::task::slots_upto(tm.tasks@, i as int, p).push(i));
                    crate::task::lemma_slots_upto_prefix(tm.tasks@, i + 1, crate::task::MAX_TASKS as int, p);
                    let s1 = crate::task::slots_upto(tm.tasks@, i + 1, p);
                    assert(s1.len() == out@.len() + 1);
                    assert(s1[out@.len() as int] == i);
                    assert(all.subrange(0, s1.len() as int)[out@.len() as int] == i);
                    assert(all[out@.len() as int] == i);
                }
                out.push(TaskSummary { slot: i, pid: t.pid, ppid: t.ppid, pgid: t.pgid, sid: t.sid, state, exit_code: t.exit_code,
                    tty_id: t.tty_id });
                proof {
                    assert(out@ =~= Seq::new(out@.len(), |k: int| summary_of(tm.tasks@[all[k] as int]->Some_0, all[k] as int)));
                }
            },
            None => {
                proof {
                    let p = |t: crate::task::Task, i: int| true;
                    assert(crate::task::slots_upto(tm.tasks@, i + 1, p) =~= crate::task::slots_upto(tm.tasks@, i as int, p));
                }
            },
        }
        i = i + 1;
    }
    proof {
        crate::task::lemma_slots_upto_prefix(tm.tasks@, i as int, crate::task::MAX_TASKS as int, |t: crate::task::Task, i: int| true);
        if i == 32 {
            assert(all.subrange(0, out@.len() as int) =~= all);
        }
    }
    (out.len(), out)
}

} // verus!
