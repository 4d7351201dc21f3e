//! The descriptor system calls on a process's descriptor table: seeking,
//! reading directories, status flags, closing, duplicating and pipes.
//!
//! Reading the size of a file and listing a directory go through the
//! filesystems and stay with the caller, which hands in what it found;
//! references to pseudo-terminals are kept by the terminal layer, so the
//! calls say which references it should take or drop.
use vstd::prelude::*;
use crate::bytes::{le_bytes, lemma_le_bytes_len, push_le};
use crate::file::{ClosedFileDescriptor, FileDescriptor, FileDescriptorTable, OfdStore, PipeEnd, PtySide, MAX_FDS, O_NONBLOCK};
use crate::net::{first_holder, holds, SocketTable};
use crate::pipe::{Pipe, PipeTable, MAX_PIPES};
use crate::syscalls::{EBADF, EINVAL, ENOMEM, ENOTDIR};
use crate::vfs::DirEntry;

verus! {

pub const SEEK_SET: u32 = 0;
pub const SEEK_CUR: u32 = 1;
pub const SEEK_END: u32 = 2;
pub const F_GETFL: u32 = 3;
pub const F_SETFL: u32 = 4;

/// Offsets and sizes that lseek can add a 32-bit displacement to.
pub open spec fn seekable(v: u64) -> bool {
    v <= i64::MAX - 0x8000_0000
}

/// lseek on one descriptor of a file or device of `size` bytes, or of a
/// directory: the result and the descriptor after.
pub open spec fn lseek_outcome(d: FileDescriptor, offset: i32, whence: u32, size: u64) -> (usize, FileDescriptor) {
    match d {
        FileDescriptor::File { inode, offset: off, mode } => {
            let base: int = if whence == SEEK_SET { 0 } else if whence == SEEK_CUR { off as int } else { size as int };
            let new = base + offset;
            if whence != SEEK_SET && whence != SEEK_CUR && whence != SEEK_END {
                (EINVAL, d)
            } else if new < 0 {
                (EINVAL, d)
            } else {
                ((new as u64) as usize, FileDescriptor::File { inode, offset: new as u64, mode })
            }
        },
        FileDescriptor::Device { inode, offset: off, mode, kind } => {
            let base: int = if whence == SEEK_SET { 0 } else if whence == SEEK_CUR { off as int } else { size as int };
            let new = base + offset;
            if whence != SEEK_SET && whence != SEEK_CUR && whence != SEEK_END {
                (EINVAL, d)
            } else if new < 0 {
                (EINVAL, d)
            } else {
                ((new as u64) as usize, FileDescriptor::Device { inode, offset: new as u64, mode, kind })
            }
        },
        FileDescriptor::Dir { path, path_len, cookie } => {
            if whence != SEEK_SET || offset != 0 {
                (EINVAL, d)
            } else {
                (0, FileDescriptor::Dir { path, path_len, cookie: 0 })
            }
        },
        _ => (EBADF, d),
    }
}

fn seek_base(off: u64, whence: u32, size: u64) -> (r: i64)
    requires
        seekable(off),
        seekable(size),
    ensures
        r == (if whence == SEEK_SET { 0 } else if whence == SEEK_CUR { off as int } else { size as int }),
{
    if whence == SEEK_SET {
        0
    } else if whence == SEEK_CUR {
        off as i64
    } else {
        size as i64
    }
}

/// lseek(fd, offset, whence) for a file of `size` bytes (see
/// [`lseek_outcome`]); `EBADF` for a slot without a file, device or
/// directory.
pub fn sys_lseek(table: &mut FileDescriptorTable, fd: usize, offset: i32, whence: u32, size: u64) -> (r: usize)
    requires
        old(table).wf(),
        seekable(size),
        fd < MAX_FDS && old(table).fds@[fd as int] is Some ==> seekable(spec_initial_offset_of(old(table).fds@[fd as int]->Some_0)),
    ensures
        final(table).wf(),
        final(table).ofds@ == old(table).ofds@,
        !(fd < MAX_FDS && old(table).fds@[fd as int] is Some) ==> r == EBADF && final(table).fds@ == old(table).fds@,
        fd < MAX_FDS && old(table).fds@[fd as int] is Some ==> ({
            let (res, d) = lseek_outcome(old(table).fds@[fd as int]->Some_0, offset, whence, size);
            &&& r == res
            &&& final(table).fds@ == old(table).fds@.update(fd as int, Some(d))
        }),
{
    if fd >= MAX_FDS {
        return EBADF;
    }
    let d = match table.fds[fd] {
        Some(d) => d,
        None => return EBADF,
    };
    let (res, nd) = match d {
        FileDescriptor::File { inode, offset: off, mode } => {
            if whence != SEEK_SET && whence != SEEK_CUR && whence != SEEK_END {
                (EINVAL, d)
            } else {
                let new = seek_base(off, whence, size) + offset as i64;
                if new < 0 {
                    (EINVAL, d)
                } else {
                    ((new as u64) as usize, FileDescriptor::File { inode, offset: new as u64, mode })
                }
            }
        },
        FileDescriptor::Device { inode, offset: off, mode, kind } => {
            if whence != SEEK_SET && whence != SEEK_CUR && whence != SEEK_END {
                (EINVAL, d)
            } else {
                let new = seek_base(off, whence, size) + offset as i64;
                if new < 0 {
                    (EINVAL, d)
                } else {
                    ((new as u64) as usize, FileDescriptor::Device { inode, offset: new as u64, mode, kind })
                }
            }
        },
        FileDescriptor::Dir { path, path_len, cookie } => {
            if whence != SEEK_SET || offset != 0 {
                (EINVAL, d)
            } else {
                (0, FileDescriptor::Dir { path, path_len, cookie: 0 })
            }
        },
        _ => (EBADF, d),
    };
    table.replace(fd, nd);
    res
}

/// The offset a file or device descriptor carries (0 for others).
pub open spec fn spec_initial_offset_of(d: FileDescriptor) -> u64 {
    crate::file::spec_initial_offset(d)
}

/// Bytes of a directory record for a name of `n` bytes: 19 header bytes,
/// the name and a NUL, rounded up to 8.
pub open spec fn dirent_len(n: int) -> int {
    ((19 + n + 1 + 7) / 8) * 8
}

/// The `linux_dirent64` record of `e`, whose successor is entry `next`:
/// inode, next position, record length, type (4 directory, 8 other), the
/// name, a NUL, then zero padding.
pub open spec fn dirent_record(e: DirEntry, next: int) -> Seq<u8> {
    let n = e.name@.len() as int;
    let rl = dirent_len(n);
    le_bytes(e.inode as nat, 8) + le_bytes(next as nat, 8) + le_bytes((rl % 65536) as nat, 2)
        + seq![(if e.file_type == 2 { 4u8 } else { 8u8 })] + e.name@ + seq![0u8]
        + Seq::new((rl - 20 - n) as nat, |i: int| 0u8)
}

/// Records of the entries from `idx` on that fit in `room` bytes, and the
/// position after the last one.
pub open spec fn pack_dirents(es: Seq<DirEntry>, idx: int, room: int) -> (Seq<u8>, int)
    decreases es.len() - idx,
{
    if idx < 0 || idx >= es.len() {
        (Seq::empty(), idx)
    } else {
        let r = dirent_record(es[idx], idx + 1);
        if r.len() > room {
            (Seq::empty(), idx)
        } else {
            let (rest, end) = pack_dirents(es, idx + 1, room - r.len());
            (r + rest, end)
        }
    }
}

fn push_dirent(out: &mut Vec<u8>, e: &DirEntry, next: usize)
    requires
        e.name@.len() < 0x1_0000,
    ensures
        final(out)@ == old(out)@ + dirent_record(*e, next as int),
{
    let n = e.name.len();
    let rl = ((19 + n + 1 + 7) / 8) * 8;
    push_le(out, e.inode as u64, 8);
    push_le(out, next as u64, 8);
    push_le(out, (rl % 65536) as u64, 2);
    out.push(if e.file_type == 2 { 4u8 } else { 8u8 });
    let ghost base = out@;
    let mut x: usize = 0;
    while x < n
        invariant
            x <= n == e.name@.len(),
            out@ == base + e.name@.subrange(0, x as int),
        decreases n - x,
    {
        out.push(e.name[x]);
        x = x + 1;
        assert(out@ =~= base + e.name@.subrange(0, x as int));
    }
    assert(e.name@.subrange(0, n as int) =~= e.name@);
    out.push(0);
    let pad = rl - 20 - n;
    let ghost base2 = out@;
    let mut k: usize = 0;
    while k < pad
        invariant
            k <= pad,
            out@ == base2 + Seq::new(k as nat, |i: int| 0u8),
        decreases pad - k,
    {
        out.push(0);
        k = k + 1;
        assert(out@ =~= base2 + Seq::new(k as nat, |i: int| 0u8));
    }
    assert(final(out)@ =~= old(out)@ + dirent_record(*e, next as int));
}

/// getdents64 into a buffer of `count` bytes: `EINVAL` without a buffer or
/// below 24 bytes, `ENOTDIR` when `fd` is no directory or `listing` (the
/// entries of its directory) is missing. Otherwise the records from the
/// directory position on that fit (see [`pack_dirents`]); the position
/// moves past them. Returns the byte count and the bytes.
pub fn sys_getdents64(table: &mut FileDescriptorTable, fd: usize, has_buf: bool, count: usize,
    listing: Option<&[DirEntry]>) -> (r: (usize, Vec<u8>))
    requires
        old(table).wf(),
        listing matches Some(es) ==> es@.len() < usize::MAX && forall|i: int| 0 <= i < es@.len() ==> (#[trigger] es@[i]).name@.len() < 0x1_0000,
    ensures
        final(table).wf(),
        final(table).ofds@ == old(table).ofds@,
        !has_buf || count < 24 ==> r.0 == EINVAL && r.1@.len() == 0 && final(table).fds@ == old(table).fds@,
        has_buf && count >= 24 && !(fd < MAX_FDS && old(table).fds@[fd as int] matches Some(FileDescriptor::Dir { .. }))
            ==> r.0 == ENOTDIR && r.1@.len() == 0 && final(table).fds@ == old(table).fds@,
        has_buf && count >= 24 && listing is None ==> r.0 == ENOTDIR && final(table).fds@ == old(table).fds@,
        has_buf && count >= 24 && fd < MAX_FDS ==> match (old(table).fds@[fd as int], listing) {
            (Some(FileDescriptor::Dir { path, path_len, cookie }), Some(es)) => {
                let (bytes, end) = pack_dirents(es@, cookie as int, count as int);
                &&& r.1@ == bytes
                &&& r.0 == bytes.len()
                &&& final(table).fds@ == old(table).fds@.update(fd as int,
                    Some(FileDescriptor::Dir { path, path_len, cookie: end as u32 }))
            },
            _ => true,
        },
{
    if !has_buf || count < 24 {
        return (EINVAL, Vec::new());
    }
    if fd >= MAX_FDS {
        return (ENOTDIR, Vec::new());
    }
    let (path, path_len, cookie) = match table.fds[fd] {
        Some(FileDescriptor::Dir { path, path_len, cookie }) => (path, path_len, cookie),
        _ => return (ENOTDIR, Vec::new()),
    };
    let es = match listing {
        Some(es) => es,
        None => return (ENOTDIR, Vec::new()),
    };
    let mut out: Vec<u8> = Vec::new();
    let mut idx: usize = cookie as usize;
    let ghost start = cookie as int;
    proof {
        assert(out@ + pack_dirents(es@, idx as int, count as int).0 =~= pack_dirents(es@, start, count as int).0);
    }
    while idx < es.len()
        invariant_except_break
            out@.len() <= count,
            out@ + pack_dirents(es@, idx as int, count - out@.len()).0 == pack_dirents(es@, start, count as int).0,
            pack_dirents(es@, idx as int, count - out@.len()).1 == pack_dirents(es@, start, count as int).1,
        invariant
            es@.len() < usize::MAX,
            forall|i: int| 0 <= i < es@.len() ==> (#[trigger] es@[i]).name@.len() < 0x1_0000,
            start <= idx,
        ensures
            out@.len() <= count,
            out@ == pack_dirents(es@, start, count as int).0,
            idx as int == pack_dirents(es@, start, count as int).1,
        decreases es@.len() - idx,
    {
        let e = &es[idx];
        let n = e.name.len();
        let rl = ((19 + n + 1 + 7) / 8) * 8;
        proof {
            assert(dirent_record(*e, idx + 1).len() == rl) by {
                let nn = n as int;
                lemma_le_bytes_len(e.inode as nat, 8);
                lemma_le_bytes_len((idx + 1) as nat, 8);
                lemma_le_bytes_len((dirent_len(nn) % 65536) as nat, 2);
                assert(dirent_len(nn) == rl);
                assert(dirent_len(nn) >= 20 + nn) by (nonlinear_arith)
                    requires dirent_len(nn) == ((19 + nn + 1 + 7) / 8) * 8, nn >= 0;
            }
        }
        if rl > count - out.len() {
            proof {
                assert(pack_dirents(es@, idx as int, count - out@.len()).0 =~= Seq::<u8>::empty());
                assert(out@ + Seq::<u8>::empty() =~= out@);
            }
            break;
        }
        let ghost before = out@;
        push_dirent(&mut out, e, idx + 1);
        proof {
            assert(out@ + pack_dirents(es@, idx + 1, count - out@.len()).0
                =~= before + pack_dirents(es@, idx as int, count - before.len()).0);
        }
        idx = idx + 1;
    }
    proof {
        if idx >= es@.len() {
            assert(pack_dirents(es@, idx as int, count - out@.len()).0 =~= Seq::<u8>::empty());
        }
    }
    let n = out.len();
    table.replace(fd, FileDescriptor::Dir { path, path_len, cookie: idx as u32 });
    (n, out)
}

/// fcntl(fd, cmd, arg): `F_GETFL` reads the status flags of `fd`'s open
/// file description, `F_SETFL` keeps only `O_NONBLOCK` of `arg`; anything
/// else, or an empty slot, gives -1.
pub fn sys_fcntl(table: &mut FileDescriptorTable, store: &mut OfdStore, fd: usize, cmd: u32, arg: u32) -> (r: usize)
    requires
        old(table).wf(),
        old(table).valid_in(old(store)@),
    ensures
        final(table).fds@ == old(table).fds@,
        final(table).ofds@ == old(table).ofds@,
        !(fd < MAX_FDS && old(table).fds@[fd as int] is Some) ==> r == usize::MAX && final(store)@ == old(store)@,
        fd < MAX_FDS && old(table).fds@[fd as int] is Some ==> ({
            let h = old(table).ofds@[fd as int]->Some_0 as int;
            let o = old(store)@[h]->Some_0;
            &&& cmd == F_GETFL ==> r == o.ofd.status_flags as usize && final(store)@ == old(store)@
            &&& cmd == F_SETFL ==> r == 0 && final(store)@ == old(store)@.update(h, Some(crate::file::OfdSlot {
                ofd: crate::file::OpenFileDescription {
                    status_flags: (arg & O_NONBLOCK) & crate::file::OFD_STATUS_MASK,
                    ..o.ofd
                },
                refs: o.refs,
            }))
            &&& cmd != F_GETFL && cmd != F_SETFL ==> r == usize::MAX && final(store)@ == old(store)@
        }),
{
    if fd >= MAX_FDS || table.fds[fd].is_none() {
        return usize::MAX;
    }
    if cmd == F_GETFL {
        return table.get_flags(fd, store) as usize;
    }
    if cmd == F_SETFL {
        let flags = arg & O_NONBLOCK;
        if table.set_flags(fd, flags, store) {
            return 0;
        }
        return usize::MAX;
    }
    usize::MAX
}

/// The pipe table after closing one end of pipe `id`.
pub open spec fn pipe_end_closed(pipes: Seq<Pipe>, id: usize, end: PipeEnd) -> Seq<Pipe> {
    if id < MAX_PIPES && pipes[id as int].in_use {
        let p = pipes[id as int];
        match end {
            PipeEnd::Read => {
                let readers = if p.readers > 0 { (p.readers - 1) as u32 } else { 0 };
                pipes.update(id as int, Pipe { readers, in_use: !(readers == 0 && p.writers == 0), ..p })
            },
            PipeEnd::Write => {
                let writers = if p.writers > 0 { (p.writers - 1) as u32 } else { 0 };
                pipes.update(id as int, Pipe { writers, in_use: !(p.readers == 0 && writers == 0), ..p })
            },
        }
    } else {
        pipes
    }
}

/// The socket table after freeing socket `id`.
pub open spec fn socket_freed(s: Seq<Option<crate::net::Socket>>, id: usize, after: Seq<Option<crate::net::Socket>>) -> bool {
    &&& (forall|i: int| !holds(s, i, id)) ==> after == s
    &&& forall|i: int| first_holder(s, i, id) ==> after == s.update(i, None)
}

/// Release what a closed descriptor held once its last reference is gone:
/// its pipe end or its socket here; for a pseudo-terminal end, the
/// reference the terminal layer must drop is returned.
pub fn close_descriptor(closed: ClosedFileDescriptor, sockets: &mut SocketTable, pipes: &mut PipeTable) -> (r: Option<(usize, PtySide)>)
    requires
        old(pipes).wf(),
    ensures
        final(pipes).wf(),
        final(sockets).next_id == old(sockets).next_id,
        !closed.last_open_ref ==> r is None && final(pipes).pipes@ == old(pipes).pipes@ && final(sockets).sockets@ == old(sockets).sockets@,
        closed.last_open_ref ==> match closed.desc {
            FileDescriptor::Pipe { pipe_id, end } => r is None && final(sockets).sockets@ == old(sockets).sockets@
                && (forall|i: int| 0 <= i < MAX_PIPES ==> (#[trigger] final(pipes).pipes@[i])
                    == pipe_end_closed(old(pipes).pipes@, pipe_id, end)[i]),
            FileDescriptor::Socket { socket_id } => r is None && final(pipes).pipes@ == old(pipes).pipes@
                && socket_freed(old(sockets).sockets@, socket_id, final(sockets).sockets@),
            FileDescriptor::Pty { pty_id, side } => r == Some((pty_id, side)) && final(pipes).pipes@ == old(pipes).pipes@
                && final(sockets).sockets@ == old(sockets).sockets@,
            _ => r is None && final(pipes).pipes@ == old(pipes).pipes@ && final(sockets).sockets@ == old(sockets).sockets@,
        },
{
    if !closed.last_open_ref {
        return None;
    }
    match closed.desc {
        FileDescriptor::Pipe { pipe_id, end } => {
            match end {
                PipeEnd::Read => pipes.pipe_close_reader(pipe_id),
                PipeEnd::Write => pipes.pipe_close_writer(pipe_id),
            }
            None
        },
        FileDescriptor::Socket { socket_id } => {
            sockets.free(socket_id);
            None
        },
        FileDescriptor::Pty { pty_id, side } => Some((pty_id, side)),
        _ => None,
    }
}

/// close(fd): 0 when the slot held a descriptor (whose backing object is
/// released with its last reference, see [`close_descriptor`]), else -1.
/// Also returns the terminal reference to drop, if any.
pub fn sys_close(table: &mut FileDescriptorTable, store: &mut OfdStore, sockets: &mut SocketTable, pipes: &mut PipeTable,
    fd: usize) -> (r: (usize, Option<(usize, PtySide)>))
    requires
        old(table).wf(),
        old(table).valid_in(old(store)@),
        old(pipes).wf(),
    ensures
        final(table).wf(),
        final(table).valid_in(final(store)@),
        final(pipes).wf(),
        !(fd < MAX_FDS && old(table).fds@[fd as int] is Some) ==> r == (usize::MAX, None::<(usize, PtySide)>)
            && final(table).fds@ == old(table).fds@ && final(store)@ == old(store)@
            && final(pipes).pipes@ == old(pipes).pipes@ && final(sockets).sockets@ == old(sockets).sockets@,
        fd < MAX_FDS && old(table).fds@[fd as int] is Some ==> r.0 == 0
            && final(table).fds@ == old(table).fds@.update(fd as int, None)
            && final(table).ofds@ == old(table).ofds@.update(fd as int, None),
{
    match table.close(fd, store) {
        Some(closed) => {
            let pty = close_descriptor(closed, sockets, pipes);
            (0, pty)
        },
        None => (usize::MAX, None),
    }
}

/// dup2(oldfd, newfd): -1 unless `oldfd` holds a descriptor and `newfd`
/// is a slot; `newfd` itself when they are equal; otherwise the backing
/// object gains a reference (a pipe end here, a terminal end through the
/// returned reference to take), `newfd` is closed first (see
/// [`sys_close`]), and it then shares `oldfd`'s description.
pub fn sys_dup2(table: &mut FileDescriptorTable, store: &mut OfdStore, sockets: &mut SocketTable, pipes: &mut PipeTable,
    oldfd: usize, newfd: usize) -> (r: (usize, Option<(usize, PtySide)>, Option<(usize, PtySide)>))
    requires
        old(table).wf(),
        old(table).valid_in(old(store)@),
        old(pipes).wf(),
        oldfd < MAX_FDS ==> (old(table).ofds@[oldfd as int] matches Some(h) ==> old(store)@[h as int]->Some_0.refs < usize::MAX - 1),
        oldfd < MAX_FDS ==> (old(table).fds@[oldfd as int] matches Some(FileDescriptor::Pipe { pipe_id, end })
            ==> pipe_id < MAX_PIPES ==> old(pipes).pipes@[pipe_id as int].readers < u32::MAX
                && old(pipes).pipes@[pipe_id as int].writers < u32::MAX),
    ensures
        final(table).wf(),
        final(table).valid_in(final(store)@),
        final(pipes).wf(),
        !(oldfd < MAX_FDS && old(table).fds@[oldfd as int] is Some && newfd < MAX_FDS) ==> r.0 == usize::MAX
            && r.1 is None && r.2 is None && final(table).fds@ == old(table).fds@ && final(store)@ == old(store)@
            && final(pipes).pipes@ == old(pipes).pipes@,
        oldfd < MAX_FDS && old(table).fds@[oldfd as int] is Some && newfd < MAX_FDS && oldfd == newfd ==> r.0 == newfd
            && r.1 is None && r.2 is None && final(table).fds@ == old(table).fds@ && final(store)@ == old(store)@
            && final(pipes).pipes@ == old(pipes).pipes@,
        oldfd < MAX_FDS && old(table).fds@[oldfd as int] is Some && newfd < MAX_FDS && oldfd != newfd ==> ({
            let d = old(table).fds@[oldfd as int]->Some_0;
            &&& r.0 == newfd
            &&& r.1 == (match d { FileDescriptor::Pty { pty_id, side } => Some((pty_id, side)), _ => None })
            &&& final(table).fds@[newfd as int] == Some(d)
            &&& final(table).ofds@[newfd as int] == old(table).ofds@[oldfd as int]
            &&& forall|i: int| 0 <= i < MAX_FDS && i != newfd ==> final(table).fds@[i] == old(table).fds@[i]
        }),
{
    if oldfd >= MAX_FDS || newfd >= MAX_FDS {
        return (usize::MAX, None, None);
    }
    let d = match table.fds[oldfd] {
        Some(d) => d,
        None => return (usize::MAX, None, None),
    };
    if oldfd == newfd {
        return (newfd, None, None);
    }
    let take_ref = match d {
        FileDescriptor::Pipe { pipe_id, end } => {
            match end {
                PipeEnd::Read => pipes.pipe_add_reader(pipe_id),
                PipeEnd::Write => pipes.pipe_add_writer(pipe_id),
            }
            None
        },
        FileDescriptor::Pty { pty_id, side } => Some((pty_id, side)),
        _ => None,
    };
    let ghost mid_store = store@;
    let dropped = match table.close(newfd, store) {
        Some(closed) => close_descriptor(closed, sockets, pipes),
        None => None,
    };
    proof {
        let h = old(table).ofds@[oldfd as int]->Some_0 as int;
        assert(table.ofds@[oldfd as int] == old(table).ofds@[oldfd as int]);
        assert(store@[h]->Some_0.refs <= old(store)@[h]->Some_0.refs);
    }
    let ok = table.dup2(oldfd, newfd, store);
    (newfd, take_ref, dropped)
}

/// dup(oldfd): duplicate onto the lowest free slot (`EBADF` for an empty
/// `oldfd`, `ENOMEM` when no slot is free).
pub fn sys_dup(table: &mut FileDescriptorTable, store: &mut OfdStore, sockets: &mut SocketTable, pipes: &mut PipeTable,
    oldfd: usize) -> (r: (usize, Option<(usize, PtySide)>))
    requires
        old(table).wf(),
        old(table).valid_in(old(store)@),
        old(pipes).wf(),
        oldfd < MAX_FDS ==> (old(table).ofds@[oldfd as int] matches Some(h) ==> old(store)@[h as int]->Some_0.refs < usize::MAX - 1),
        oldfd < MAX_FDS ==> (old(table).fds@[oldfd as int] matches Some(FileDescriptor::Pipe { pipe_id, end })
            ==> pipe_id < MAX_PIPES ==> old(pipes).pipes@[pipe_id as int].readers < u32::MAX
                && old(pipes).pipes@[pipe_id as int].writers < u32::MAX),
    ensures
        final(table).wf(),
        final(table).valid_in(final(store)@),
        final(pipes).wf(),
        !(oldfd < MAX_FDS && old(table).fds@[oldfd as int] is Some) ==> r == (EBADF, None::<(usize, PtySide)>)
            && final(table).fds@ == old(table).fds@ && final(store)@ == old(store)@,
        oldfd < MAX_FDS && old(table).fds@[oldfd as int] is Some && (forall|j: int| 0 <= j < MAX_FDS ==> old(table).fds@[j] is Some)
            ==> r == (ENOMEM, None::<(usize, PtySide)>) && final(table).fds@ == old(table).fds@ && final(store)@ == old(store)@,
        oldfd < MAX_FDS && old(table).fds@[oldfd as int] is Some && (exists|j: int| 0 <= j < MAX_FDS && old(table).fds@[j] is None) ==> ({
            let d = old(table).fds@[oldfd as int]->Some_0;
            let newfd = r.0;
            &&& newfd < MAX_FDS
            &&& old(table).fds@[newfd as int] is None
            &&& forall|j: int| 0 <= j < newfd ==> old(table).fds@[j] is Some
            &&& r.1 == (match d { FileDescriptor::Pty { pty_id, side } => Some((pty_id, side)), _ => None })
            &&& final(table).fds@ == old(table).fds@.update(newfd as int, Some(d))
            &&& final(table).ofds@[newfd as int] == old(table).ofds@[oldfd as int]
        }),
{
    if oldfd >= MAX_FDS || table.fds[oldfd].is_none() {
        return (EBADF, None);
    }
    let newfd = match table.alloc_fd() {
        Some(fd) => fd,
        None => return (ENOMEM, None),
    };
    let (res, take_ref, _dropped) = sys_dup2(table, store, sockets, pipes, oldfd, newfd);
    proof {
        assert(table.fds@ =~= old(table).fds@.update(newfd as int, Some(old(table).fds@[oldfd as int]->Some_0)));
    }
    (res, take_ref)
}

/// pipe(): a new pipe with its read end and write end on the two lowest
/// free slots; -1 when no pipe or no slot is free (the pipe, and a slot
/// already taken, are released again).
pub fn sys_pipe(table: &mut FileDescriptorTable, store: &mut OfdStore, pipes: &mut PipeTable) -> (r: Result<(usize, usize), usize>)
    requires
        old(table).wf(),
        old(table).valid_in(old(store)@),
        old(pipes).wf(),
    ensures
        final(table).wf(),
        final(table).valid_in(final(store)@),
        final(pipes).wf(),
        r is Err ==> r == Err::<(usize, usize), usize>(usize::MAX) && final(table).fds@ == old(table).fds@,
        r matches Ok((rd, wr)) ==> {
            &&& rd < MAX_FDS && wr < MAX_FDS && rd != wr
            &&& old(table).fds@[rd as int] is None && old(table).fds@[wr as int] is None
            &&& final(table).fds@[rd as int] matches Some(FileDescriptor::Pipe { pipe_id, end: PipeEnd::Read })
            &&& final(table).fds@[wr as int] == Some(FileDescriptor::Pipe { pipe_id, end: PipeEnd::Write })
            &&& pipe_id < MAX_PIPES && !old(pipes).pipes@[pipe_id as int].in_use
            &&& final(pipes).pipes@[pipe_id as int].in_use
            &&& forall|i: int| 0 <= i < MAX_FDS && i != rd && i != wr ==> final(table).fds@[i] == old(table).fds@[i]
        },
{
    let pipe_id = match pipes.pipe_create() {
        Some(id) => id,
        None => return Err(usize::MAX),
    };
    let rd = match table.alloc_fd() {
        Some(f) => f,
        None => {
            pipes.pipe_close_reader(pipe_id);
            pipes.pipe_close_writer(pipe_id);
            return Err(usize::MAX);
        },
    };
    table.insert(rd, FileDescriptor::Pipe { pipe_id, end: PipeEnd::Read }, store);
    let wr = match table.alloc_fd() {
        Some(f) => f,
        None => {
            let _ = table.close(rd, store);
            pipes.pipe_close_reader(pipe_id);
            pipes.pipe_close_writer(pipe_id);
            proof {
                assert(table.fds@ =~= old(table).fds@);
            }
            return Err(usize::MAX);
        },
    };
    table.insert(wr, FileDescriptor::Pipe { pipe_id, end: PipeEnd::Write }, store);
    Ok((rd, wr))
}


pub const POLLIN: i16 = 0x0001;
pub const POLLOUT: i16 = 0x0004;
pub const POLLERR: i16 = 0x0008;

/// What poll reports for descriptor `fd` (the caller's, `has_task` false
/// when it has no task) asked for `events`: pipes by their state here,
/// terminal ends and sockets by what the caller probed (`can_read`,
/// `can_write`); the console, files and devices are always ready; a
/// directory never; an empty slot is an error, a negative `fd` nothing.
pub open spec fn spec_revents(table: Seq<Option<FileDescriptor>>, pipes: Seq<Pipe>, has_task: bool, fd: i32, events: i16,
    can_read: bool, can_write: bool) -> i16
{
    let want_in = events & POLLIN != 0;
    let want_out = events & POLLOUT != 0;
    let both = (if want_in { POLLIN } else { 0i16 }) + (if want_out { POLLOUT } else { 0i16 });
    if fd < 0 {
        0
    } else if !has_task {
        POLLERR
    } else if fd >= MAX_FDS {
        POLLERR
    } else {
        match table[fd as int] {
            Some(FileDescriptor::Pipe { pipe_id, end: PipeEnd::Read }) => {
                let ok = pipe_id >= MAX_PIPES || !pipes[pipe_id as int].in_use || pipes[pipe_id as int].len > 0
                    || pipes[pipe_id as int].writers == 0;
                if want_in && ok { POLLIN } else { 0 }
            },
            Some(FileDescriptor::Pipe { pipe_id, end: PipeEnd::Write }) => {
                let ok = pipe_id >= MAX_PIPES || !pipes[pipe_id as int].in_use || pipes[pipe_id as int].readers == 0
                    || pipes[pipe_id as int].len < crate::pipe::PIPE_BUF_SIZE;
                if want_out && ok { POLLOUT } else { 0 }
            },
            Some(FileDescriptor::Pty { .. }) | Some(FileDescriptor::Socket { .. }) =>
                ((if want_in && can_read { POLLIN } else { 0i16 }) + (if want_out && can_write { POLLOUT } else { 0i16 })) as i16,
            Some(FileDescriptor::ConsoleIn) => if want_in { POLLIN } else { 0 },
            Some(FileDescriptor::ConsoleOut) | Some(FileDescriptor::File { .. }) | Some(FileDescriptor::Device { .. }) => both as i16,
            Some(FileDescriptor::Dir { .. }) => 0,
            None => POLLERR,
        }
    }
}

/// Poll on a terminal end or a socket reports what the caller's probe
/// found and nothing else: readable exactly when reading was asked for and
/// the probe can read, whatever it says of writing; writable exactly when
/// writing was asked for and the probe can write, whatever it says of
/// reading; never an error.
pub proof fn law_poll_reports_the_probe(table: Seq<Option<FileDescriptor>>, pipes: Seq<Pipe>, fd: i32, events: i16,
    can_read: bool, can_write: bool)
    requires
        0 <= fd < MAX_FDS,
        table[fd as int] matches Some(FileDescriptor::Socket { .. }) || table[fd as int] matches Some(
            FileDescriptor::Pty { .. },
        ),
    ensures
        ({
            let r = spec_revents(table, pipes, true, fd, events, can_read, can_write);
            &&& (r & POLLIN != 0) == (events & POLLIN != 0 && can_read)
            &&& (r & POLLOUT != 0) == (events & POLLOUT != 0 && can_write)
            &&& r & POLLERR == 0
        }),
{
    crate::util::lemma_bit_facts(0, 0, 0);
}

/// Poll never reports what was not asked for, and reports an error exactly
/// for a descriptor number it cannot look up: no task, a number past the
/// table, or an empty slot (a negative number is skipped: nothing).
pub proof fn law_poll_answers_only_what_was_asked(table: Seq<Option<FileDescriptor>>, pipes: Seq<Pipe>, has_task: bool,
    fd: i32, events: i16, can_read: bool, can_write: bool)
    ensures
        ({
            let r = spec_revents(table, pipes, has_task, fd, events, can_read, can_write);
            &&& fd < 0 ==> r == 0
            &&& (r & POLLERR != 0) == (fd >= 0 && (!has_task || fd >= MAX_FDS || table[fd as int] is None))
            &&& r & POLLIN != 0 ==> events & POLLIN != 0
            &&& r & POLLOUT != 0 ==> events & POLLOUT != 0
        }),
{
    crate::util::lemma_bit_facts(0, 0, 0);
}

pub fn fd_poll_revents(table: &FileDescriptorTable, pipes: &PipeTable, has_task: bool, fd: i32, events: i16,
    can_read: bool, can_write: bool) -> (r: i16)
    requires
        table.wf(),
        pipes.wf(),
    ensures
        r == spec_revents(table.fds@, pipes.pipes@, has_task, fd, events, can_read, can_write),
{
    if fd < 0 {
        return 0;
    }
    if !has_task {
        return POLLERR;
    }
    let f = fd as usize;
    if f >= MAX_FDS {
        return POLLERR;
    }
    let want_in = events & POLLIN != 0;
    let want_out = events & POLLOUT != 0;
    match table.fds[f] {
        Some(FileDescriptor::Pipe { pipe_id, end }) => match end {
            PipeEnd::Read => if want_in && pipes.pipe_readable(pipe_id) { POLLIN } else { 0 },
            PipeEnd::Write => if want_out && pipes.pipe_writable(pipe_id) { POLLOUT } else { 0 },
        },
        Some(FileDescriptor::Pty { .. }) | Some(FileDescriptor::Socket { .. }) => {
            let mut rev: i16 = 0;
            if want_in && can_read {
                rev = rev + POLLIN;
            }
            if want_out && can_write {
                rev = rev + POLLOUT;
            }
            rev
        },
        Some(FileDescriptor::ConsoleIn) => if want_in { POLLIN } else { 0 },
        Some(FileDescriptor::ConsoleOut) | Some(FileDescriptor::File { .. }) | Some(FileDescriptor::Device { .. }) => {
            let mut rev: i16 = 0;
            if want_in {
                rev = rev + POLLIN;
            }
            if want_out {
                rev = rev + POLLOUT;
            }
            rev
        },
        Some(FileDescriptor::Dir { .. }) => 0,
        None => POLLERR,
    }
}

/// What a poll pass decides: return a count, or wait for the next tick.
#[derive(Debug, Clone, Copy, PartialEq, Eq, Structural)]
pub enum PollStep {
    Return(usize),
    Wait,
}

/// One pass of poll over (at most 64 of) `fds`, with the caller's probes
/// of terminal ends and sockets in `probes` (read, write), `elapsed_ms`
/// after the call began: fills in each `revents`; returns how many are
/// ready when any is, 0 when the timeout (0: none, negative: forever) has
/// run out, else waits.
pub fn sys_poll(table: &FileDescriptorTable, pipes: &PipeTable, has_task: bool, fds: &mut Vec<crate::syscalls::PollFd>,
    probes: &[(bool, bool)], timeout_ms: i32, elapsed_ms: u64) -> (r: PollStep)
    requires
        table.wf(),
        pipes.wf(),
        probes@.len() >= old(fds)@.len() || probes@.len() >= 64,
    ensures
        final(fds)@.len() == old(fds)@.len(),
        ({
            let n = if old(fds)@.len() < 64 { old(fds)@.len() as int } else { 64 };
            let rev = |i: int| spec_revents(table.fds@, pipes.pipes@, has_task, old(fds)@[i].fd, old(fds)@[i].events,
                probes@[i].0, probes@[i].1);
            let ready = Seq::new(n as nat, |i: int| i).filter(|i: int| rev(i) != 0).len();
            &&& forall|i: int| 0 <= i < n ==> #[trigger] final(fds)@[i] == (crate::syscalls::PollFd { revents: rev(i), ..old(fds)@[i] })
            &&& forall|i: int| n <= i < old(fds)@.len() ==> #[trigger] final(fds)@[i] == old(fds)@[i]
            &&& old(fds)@.len() == 0 ==> r == PollStep::Return(0)
            &&& old(fds)@.len() > 0 && ready > 0 ==> r == PollStep::Return(ready as usize)
            &&& old(fds)@.len() > 0 && ready == 0 && timeout_ms == 0 ==> r == PollStep::Return(0)
            &&& old(fds)@.len() > 0 && ready == 0 && timeout_ms > 0 ==> r == (if elapsed_ms as i32 >= timeout_ms { PollStep::Return(0) } else { PollStep::Wait })
            &&& old(fds)@.len() > 0 && ready == 0 && timeout_ms < 0 ==> r == PollStep::Wait
        }),
{
    if fds.len() == 0 {
        return PollStep::Return(0);
    }
    let n = if fds.len() < 64 { fds.len() } else { 64 };
    let ghost rev = |i: int| spec_revents(table.fds@, pipes.pipes@, has_task, old(fds)@[i].fd, old(fds)@[i].events,
        probes@[i].0, probes@[i].1);
    let mut ready: usize = 0;
    let mut i: usize = 0;
    while i < n
        invariant
            i <= n <= old(fds)@.len(),
            n <= 64,
            n == (if old(fds)@.len() < 64 { old(fds)@.len() as int } else { 64 }),
            probes@.len() >= n,
            table.wf(),
            pipes.wf(),
            fds@.len() == old(fds)@.len(),
            rev == (|i: int| spec_revents(table.fds@, pipes.pipes@, has_task, old(fds)@[i].fd, old(fds)@[i].events,
                probes@[i].0, probes@[i].1)),
            forall|j: int| 0 <= j < i ==> #[trigger] fds@[j] == (crate::syscalls::PollFd { revents: rev(j), ..old(fds)@[j] }),
            forall|j: int| i <= j < old(fds)@.len() ==> #[trigger] fds@[j] == old(fds)@[j],
            ready == Seq::new(i as nat, |j: int| j).filter(|j: int| rev(j) != 0).len(),
        decreases n - i,
    {
        let p = fds[i];
        let (cr, cw) = probes[i];
        let rv = fd_poll_revents(table, pipes, has_task, p.fd, p.events, cr, cw);
        fds.set(i, crate::syscalls::PollFd { revents: rv, ..p });
        proof {
            let f = |j: int| rev(j) != 0;
            let a = Seq::new(i as nat, |j: int| j);
            let b = Seq::new((i + 1) as nat, |j: int| j);
            assert(b =~= a.push(i as int));
            reveal(Seq::filter);
            assert(b.drop_last() =~= a);
        }
        if rv != 0 {
            ready = ready + 1;
        }
        i = i + 1;
    }
    if ready > 0 {
        return PollStep::Return(ready);
    }
    if timeout_ms == 0 {
        return PollStep::Return(0);
    }
    if timeout_ms > 0 {
        if elapsed_ms as i32 >= timeout_ms {
            return PollStep::Return(0);
        }
    }
    PollStep::Wait
}


pub const O_WRONLY: usize = 1;
pub const O_RDWR: usize = 2;
pub const O_CREAT: usize = 0x40;
pub const O_TRUNC: usize = 0x200;
pub const O_APPEND_FLAG: usize = 0x400;
pub const O_DIRECTORY: usize = 0x10000;

/// The start of open: the name `raw` resolved against the working
/// directory `cwd`, `ENOENT` for an empty name.
pub fn open_path(raw: &[u8], cwd: &[u8]) -> (r: Result<Vec<u8>, usize>)
    ensures
        raw@.len() == 0 ==> r == Err::<Vec<u8>, usize>(crate::syscalls::ENOENT),
        raw@.len() > 0 ==> (r matches Ok(p) && p@ == crate::path::spec_resolve_path(cwd@, raw@)),
{
    if raw.len() == 0 {
        return Err(crate::syscalls::ENOENT);
    }
    Ok(crate::path::resolve_task_path(cwd, raw))
}

/// open of the directory `path`: only read-only (`EINVAL`), with a name
/// below 96 bytes (`EINVAL`), on the lowest free slot (`ENOMEM` when none),
/// at position 0. Returns the slot or the error.
pub fn open_directory(table: &mut FileDescriptorTable, store: &mut OfdStore, path: &[u8], flags: usize) -> (r: usize)
    requires
        old(table).wf(),
        old(table).valid_in(old(store)@),
    ensures
        final(table).wf(),
        final(table).valid_in(final(store)@),
        (flags & O_WRONLY != 0 || flags & O_RDWR != 0 || path@.len() >= 96) ==> r == EINVAL && final(table).fds@ == old(table).fds@,
        !(flags & O_WRONLY != 0 || flags & O_RDWR != 0 || path@.len() >= 96)
            && (forall|j: int| 0 <= j < MAX_FDS ==> old(table).fds@[j] is Some) ==> r == ENOMEM && final(table).fds@ == old(table).fds@,
        !(flags & O_WRONLY != 0 || flags & O_RDWR != 0 || path@.len() >= 96)
            && (exists|j: int| 0 <= j < MAX_FDS && old(table).fds@[j] is None) ==> {
            &&& r < MAX_FDS
            &&& old(table).fds@[r as int] is None
            &&& forall|j: int| 0 <= j < r ==> old(table).fds@[j] is Some
            &&& final(table).fds@[r as int] matches Some(FileDescriptor::Dir { path: p, path_len, cookie })
            &&& path_len == path@.len() && cookie == 0
            &&& forall|i: int| 0 <= i < 96 ==> #[trigger] p@[i] == (if i < path@.len() { path@[i] } else { 0u8 })
            &&& forall|j: int| 0 <= j < MAX_FDS && j != r ==> final(table).fds@[j] == old(table).fds@[j]
        },
{
    if flags & O_WRONLY != 0 || flags & O_RDWR != 0 {
        return EINVAL;
    }
    if path.len() >= 96 {
        return EINVAL;
    }
    let mut buf = [0u8; 96];
    let mut i: usize = 0;
    while i < path.len()
        invariant
            i <= path@.len() < 96,
            forall|j: int| 0 <= j < i ==> #[trigger] buf@[j] == path@[j],
            forall|j: int| i <= j < 96 ==> #[trigger] buf@[j] == 0,
        decreases path@.len() - i,
    {
        buf[i] = path[i];
        i = i + 1;
    }
    let fd = match table.alloc_fd() {
        Some(fd) => fd,
        None => return ENOMEM,
    };
    table.insert(fd, FileDescriptor::Dir { path: buf, path_len: path.len() as u8, cookie: 0 }, store);
    fd
}

/// The access mode of open `flags`, or `ENOTDIR` when a directory was
/// asked for (the name is none).
pub fn open_mode(flags: usize) -> (r: Result<crate::file::FileMode, usize>)
    ensures
        flags & O_DIRECTORY != 0 ==> r == Err::<crate::file::FileMode, usize>(crate::syscalls::ENOTDIR),
        flags & O_DIRECTORY == 0 ==> r == Ok::<crate::file::FileMode, usize>(
            if flags & 3 == O_WRONLY { crate::file::FileMode::WriteOnly }
            else if flags & 3 == O_RDWR { crate::file::FileMode::ReadWrite }
            else { crate::file::FileMode::ReadOnly }),
{
    if flags & O_DIRECTORY != 0 {
        return Err(crate::syscalls::ENOTDIR);
    }
    let acc = flags & 3;
    if acc == O_WRONLY {
        Ok(crate::file::FileMode::WriteOnly)
    } else if acc == O_RDWR {
        Ok(crate::file::FileMode::ReadWrite)
    } else {
        Ok(crate::file::FileMode::ReadOnly)
    }
}

/// Whether open (re)creates the file before using it: when it is missing
/// and `O_CREAT` is given, or when it exists and is truncated for writing.
pub fn open_creates(flags: usize, exists: bool) -> (r: bool)
    ensures
        r == ((!exists && flags & O_CREAT != 0)
            || (exists && flags & O_TRUNC != 0 && (flags & 3 == O_WRONLY || flags & 3 == O_RDWR))),
{
    if !exists {
        flags & O_CREAT != 0
    } else {
        let acc = flags & 3;
        flags & O_TRUNC != 0 && (acc == O_WRONLY || acc == O_RDWR)
    }
}

/// `/dev/`, in bytes.
pub open spec fn dev_prefix() -> Seq<u8> {
    seq![0x2Fu8, 0x64, 0x65, 0x76, 0x2F]
}

/// The end of open for the file `path` with access `mode`, once the
/// filesystem named its inode (`None`: `ENOENT`) and, for `O_APPEND`, its
/// size: a device descriptor for a node under `/dev/` that the device `registry` knows,
/// a file descriptor otherwise, on the lowest free slot (`ENOMEM` when
/// none), positioned at the end for `O_APPEND`, else at 0.
pub fn open_file(table: &mut FileDescriptorTable, store: &mut OfdStore, registry: &crate::devfs::DeviceRegistry, path: &[u8],
    flags: usize, mode: crate::file::FileMode, inode: Option<u32>, size: u64) -> (r: usize)
    requires
        old(table).wf(),
        old(table).valid_in(old(store)@),
    ensures
        final(table).wf(),
        final(table).valid_in(final(store)@),
        inode is None ==> r == crate::syscalls::ENOENT && final(table).fds@ == old(table).fds@,
        inode is Some && (forall|j: int| 0 <= j < MAX_FDS ==> old(table).fds@[j] is Some) ==> r == ENOMEM
            && final(table).fds@ == old(table).fds@,
        inode is Some && (exists|j: int| 0 <= j < MAX_FDS && old(table).fds@[j] is None) ==> {
            let offset = if flags & O_APPEND_FLAG != 0 { size } else { 0u64 };
            let ino = inode->0;
            &&& r < MAX_FDS
            &&& old(table).fds@[r as int] is None
            &&& forall|j: int| 0 <= j < r ==> old(table).fds@[j] is Some
            &&& forall|j: int| 0 <= j < MAX_FDS && j != r ==> final(table).fds@[j] == old(table).fds@[j]
            &&& final(table).fds@[r as int] matches Some(d)
            &&& (d matches FileDescriptor::Device { inode: i2, offset: o2, mode: m2, kind }
                ==> i2 == ino && o2 == offset && m2 == mode && crate::bytes::is_prefix(dev_prefix(), path@)
                    && exists|k: int| crate::devfs::first_named(registry.devices@, path@.subrange(5, path@.len() as int), k)
                        && kind == crate::devfs::spec_kind(registry.devices@[k].dev_type))
            &&& (d matches FileDescriptor::File { inode: i2, offset: o2, mode: m2 } ==> i2 == ino && o2 == offset && m2 == mode
                && !(crate::bytes::is_prefix(dev_prefix(), path@)
                    && crate::devfs::has_node(registry.devices@, path@.subrange(5, path@.len() as int))))
            &&& (d is Device || d is File)
        },
{
    let ino = match inode {
        Some(i) => i,
        None => return crate::syscalls::ENOENT,
    };
    let offset = if flags & O_APPEND_FLAG != 0 { size } else { 0 };
    let dev: [u8; 5] = [0x2F, 0x64, 0x65, 0x76, 0x2F];
    assert(dev@ =~= dev_prefix());
    let kind = if crate::bytes::starts_with(path, &dev) {
        let name = crate::bytes::slice_to_vec(path, 5, path.len());
        crate::devfs::DevFS::device_kind(registry, name.as_slice())
    } else {
        None
    };
    let fd = match table.alloc_fd() {
        Some(fd) => fd,
        None => return ENOMEM,
    };
    let desc = match kind {
        Some(k) => FileDescriptor::Device { inode: ino, offset, mode, kind: k },
        None => FileDescriptor::File { inode: ino, offset, mode },
    };
    table.insert(fd, desc, store);
    fd
}

/// What a `write` does with its descriptor, once the user buffer of
/// `count` bytes is in kernel memory.
#[derive(Clone, Copy, Debug, PartialEq, Eq, Structural)]
pub enum WriteStep {
    /// Nothing more to do: return this count.
    Done(usize),
    /// Print the bytes on the console and return `count`.
    Console { count: usize },
    /// Write at `offset` of the file `inode` through the VFS; then
    /// [`sys_write_advance`] with what was written.
    FileAt { inode: u32, offset: u64 },
    /// Write into pipe `pipe_id`, without blocking when `nonblock`.
    Pipe { pipe_id: usize, nonblock: bool },
    /// Write to a side of pseudo-terminal `pty_id`.
    Pty { pty_id: usize, side: PtySide, nonblock: bool },
    /// Write at `offset` of device node `inode`; then
    /// [`sys_write_advance`] with what was written.
    DeviceAt { inode: u32, offset: u64 },
}

pub open spec fn spec_write_step(desc: Option<FileDescriptor>, fd: usize, count: usize, nonblock: bool) -> WriteStep {
    if count == 0 {
        WriteStep::Done(0)
    } else {
        match desc {
            None => if fd == 1 || fd == 2 { WriteStep::Console { count } } else { WriteStep::Done(0) },
            Some(d) => match d {
                FileDescriptor::ConsoleIn => WriteStep::Console { count },
                FileDescriptor::ConsoleOut => WriteStep::Console { count },
                FileDescriptor::File { inode, offset, mode } => if mode == crate::file::FileMode::ReadOnly {
                    WriteStep::Done(0)
                } else {
                    WriteStep::FileAt { inode, offset }
                },
                FileDescriptor::Pipe { pipe_id, end } => if end != PipeEnd::Write {
                    WriteStep::Done(0)
                } else {
                    WriteStep::Pipe { pipe_id, nonblock }
                },
                FileDescriptor::Pty { pty_id, side } => WriteStep::Pty { pty_id, side, nonblock },
                FileDescriptor::Socket { .. } => WriteStep::Done(0),
                FileDescriptor::Device { inode, offset, mode, .. } => if mode == crate::file::FileMode::ReadOnly {
                    WriteStep::Done(0)
                } else {
                    WriteStep::DeviceAt { inode, offset }
                },
                FileDescriptor::Dir { .. } => WriteStep::Done(0),
            },
        }
    }
}

/// The `write` decision for descriptor `desc` (the task's slot `fd`, `None`
/// when empty; fds 1 and 2 then still reach the console), `count` bytes and
/// the description's non-blocking flag.
pub fn sys_write_step(desc: Option<FileDescriptor>, fd: usize, count: usize, nonblock: bool) -> (r: WriteStep)
    ensures
        r == spec_write_step(desc, fd, count, nonblock),
{
    if count == 0 {
        return WriteStep::Done(0);
    }
    match desc {
        None => if fd == 1 || fd == 2 { WriteStep::Console { count } } else { WriteStep::Done(0) },
        Some(d) => match d {
            FileDescriptor::ConsoleIn => WriteStep::Console { count },
            FileDescriptor::ConsoleOut => WriteStep::Console { count },
            FileDescriptor::File { inode, offset, mode } => match mode {
                crate::file::FileMode::ReadOnly => WriteStep::Done(0),
                _ => WriteStep::FileAt { inode, offset },
            },
            FileDescriptor::Pipe { pipe_id, end } => match end {
                PipeEnd::Write => WriteStep::Pipe { pipe_id, nonblock },
                _ => WriteStep::Done(0),
            },
            FileDescriptor::Pty { pty_id, side } => WriteStep::Pty { pty_id, side, nonblock },
            FileDescriptor::Socket { .. } => WriteStep::Done(0),
            FileDescriptor::Device { inode, offset, mode, .. } => match mode {
                crate::file::FileMode::ReadOnly => WriteStep::Done(0),
                _ => WriteStep::DeviceAt { inode, offset },
            },
            FileDescriptor::Dir { .. } => WriteStep::Done(0),
        },
    }
}

/// The descriptor after a file or device write of `written` bytes: its
/// offset moves past them; other descriptors are unchanged.
pub fn sys_write_advance(desc: FileDescriptor, written: usize) -> (r: FileDescriptor)
    requires
        desc matches FileDescriptor::File { offset, .. } ==> offset + written <= u64::MAX,
        desc matches FileDescriptor::Device { offset, .. } ==> offset + written <= u64::MAX,
    ensures
        r == match desc {
            FileDescriptor::File { inode, offset, mode } => FileDescriptor::File { inode, offset: (offset + written) as u64, mode },
            FileDescriptor::Device { inode, offset, mode, kind } => FileDescriptor::Device {
                inode,
                offset: (offset + written) as u64,
                mode,
                kind,
            },
            _ => desc,
        },
{
    match desc {
        FileDescriptor::File { inode, offset, mode } => FileDescriptor::File { inode, offset: offset + written as u64, mode },
        FileDescriptor::Device { inode, offset, mode, kind } => FileDescriptor::Device {
            inode,
            offset: offset + written as u64,
            mode,
            kind,
        },
        _ => desc,
    }
}

/// Lower-case hex digit of `d` (< 16).
pub open spec fn hex_digit(d: int) -> u8 {
    if d < 10 { (0x30 + d) as u8 } else { (0x61 + d - 10) as u8 }
}

/// Bytes `s` as a bracketed, comma-separated list of two-digit hex numbers.
pub open spec fn hex_items(s: Seq<u8>) -> Seq<u8>
    decreases s.len(),
{
    if s.len() == 0 {
        Seq::empty()
    } else {
        let prev = hex_items(s.drop_last());
        let sep = if s.len() > 1 { seq![0x2Cu8, 0x20u8] } else { Seq::empty() };
        prev + sep + seq![hex_digit(s.last() as int / 16), hex_digit(s.last() as int % 16)]
    }
}

/// What a console write shows for `buf`: the bytes themselves when they
/// are UTF-8 text, else the hex list `[xx, yy, ...]` and a newline.
pub open spec fn spec_console_bytes(buf: Seq<u8>) -> Seq<u8> {
    if vstd::utf8::valid_utf8(buf) {
        buf
    } else {
        seq![0x5Bu8] + hex_items(buf) + seq![0x5Du8, 0x0Au8]
    }
}

fn hex_digit_exec(d: u8) -> (r: u8)
    requires
        d < 16,
    ensures
        r == hex_digit(d as int),
{
    if d < 10 { 0x30 + d } else { 0x61 + d - 10 }
}

/// The bytes a console write shows for `buf`.
pub fn console_bytes(buf: &[u8]) -> (r: Vec<u8>)
    ensures
        r@ == spec_console_bytes(buf@),
{
    if crate::procfs::is_valid_utf8(buf) {
        return crate::bytes::slice_to_vec(buf, 0, buf.len());
    }
    let mut out: Vec<u8> = vec![0x5B];
    let mut i: usize = 0;
    while i < buf.len()
        invariant
            0 <= i <= buf@.len(),
            out@ == seq![0x5Bu8] + hex_items(buf@.subrange(0, i as int)),
        decreases buf@.len() - i,
    {
        proof {
            assert(buf@.subrange(0, i + 1).drop_last() =~= buf@.subrange(0, i as int));
        }
        if i > 0 {
            out.push(0x2C);
            out.push(0x20);
        }
        let b = buf[i];
        out.push(hex_digit_exec(b / 16));
        out.push(hex_digit_exec(b % 16));
        proof {
            let t = buf@.subrange(0, i + 1);
            assert(t.last() == b);
            assert(out@ =~= seq![0x5Bu8] + hex_items(t));
        }
        i = i + 1;
    }
    out.push(0x5D);
    out.push(0x0A);
    proof {
        assert(buf@.subrange(0, buf@.len() as int) =~= buf@);
        assert(out@ =~= spec_console_bytes(buf@));
    }
    out
}

} // verus!
