//! The guest-memory side of the WASI host calls: the checks a host call
//! makes on the addresses a WebAssembly guest hands it, the decoding of the
//! guest's I/O vector tables, and the WASI error numbers it answers with.
//! Calling into the interpreter and the system calls stays outside.
use vstd::prelude::*;
use crate::ext2::{get_u32_le, le32};

verus! {

pub const WASI_ESUCCESS: u32 = 0;
pub const WASI_EBADF: u32 = 8;
pub const WASI_EFAULT: u32 = 14;

/// Why a host call traps the guest.
#[derive(Clone, Copy, Debug, PartialEq, Eq, Structural)]
pub enum WasiTrap {
    /// A negative table address or length.
    InvalidIovs,
    /// The I/O vector table runs past guest memory.
    IovsOutOfBounds,
    /// A buffer to read into runs past guest memory.
    BufferOutOfBounds,
    /// The place for the byte count runs past guest memory.
    CountOutOfBounds,
}

/// One I/O vector entry: a guest buffer of `buf_len` bytes at `buf_ptr`.
#[derive(Clone, Copy, Debug, PartialEq, Eq, Structural)]
pub struct IoVec {
    pub buf_ptr: u32,
    pub buf_len: u32,
}

/// The entry stored at `base`: two little-endian words, address then
/// length.
pub open spec fn iovec_at(mem: Seq<u8>, base: int) -> IoVec {
    IoVec { buf_ptr: le32(mem, base) as u32, buf_len: le32(mem, base + 4) as u32 }
}

/// Guest bytes `[ptr, ptr + len)` lie inside its memory of `mem_len`
/// bytes.
pub open spec fn span_inside(ptr: int, len: int, mem_len: int) -> bool {
    0 <= ptr && 0 <= len && ptr + len <= mem_len
}

/// The address check of `sock_connect`: false answers `WASI_EFAULT`.
pub fn guest_span_ok(ptr: i32, len: i32, mem_len: usize) -> (r: bool)
    ensures
        r == span_inside(ptr as int, len as int, mem_len as int),
{
    if ptr < 0 || len < 0 {
        return false;
    }
    (ptr as u64) + (len as u64) <= mem_len as u64
}

/// The I/O vector table of `iovs_len` entries at `iovs_ptr` in guest
/// memory `mem`, decoded in order.
pub fn iovec_table(mem: &[u8], iovs_ptr: i32, iovs_len: i32) -> (r: Result<Vec<IoVec>, WasiTrap>)
    ensures
        iovs_ptr < 0 || iovs_len < 0 ==> r == Err::<Vec<IoVec>, WasiTrap>(WasiTrap::InvalidIovs),
        iovs_ptr >= 0 && iovs_len >= 0 && iovs_ptr + 8 * iovs_len > mem@.len() ==> r == Err::<Vec<IoVec>, WasiTrap>(
            WasiTrap::IovsOutOfBounds,
        ),
        iovs_ptr >= 0 && iovs_len >= 0 && iovs_ptr + 8 * iovs_len <= mem@.len() ==> (r matches Ok(v) && v@.len()
            == iovs_len && forall|i: int| 0 <= i < iovs_len ==> #[trigger] v@[i] == iovec_at(mem@, iovs_ptr + 8 * i)),
{
    if iovs_ptr < 0 || iovs_len < 0 {
        return Err(WasiTrap::InvalidIovs);
    }
    let start = iovs_ptr as u64;
    let count = iovs_len as u64;
    if start + 8 * count > mem.len() as u64 {
        return Err(WasiTrap::IovsOutOfBounds);
    }
    let s_u = iovs_ptr as usize;
    let c_u = iovs_len as usize;
    let mlen = mem.len();
    assert(s_u + 8 * c_u <= mem@.len());
    let mut out: Vec<IoVec> = Vec::new();
    let mut i: usize = 0;
    while i < c_u
        invariant
            s_u == iovs_ptr,
            c_u == iovs_len,
            s_u + 8 * c_u <= mem@.len(),
            mlen == mem@.len(),
            i <= c_u,
            out@.len() == i,
            forall|k: int| 0 <= k < i ==> #[trigger] out@[k] == iovec_at(mem@, s_u + 8 * k),
        decreases c_u - i,
    {
        assert(s_u + 8 * i + 8 <= s_u + 8 * c_u) by (nonlinear_arith)
            requires
                i < c_u,
        ;
        let base = s_u + 8 * i;
        let buf_ptr = get_u32_le(mem, base);
        let buf_len = get_u32_le(mem, base + 4);
        let iov = IoVec { buf_ptr, buf_len };
        assert(iov == iovec_at(mem@, s_u + 8 * i));
        out.push(iov);
        i = i + 1;
    }
    Ok(out)
}

/// The buffer lies inside guest memory of `mem_len` bytes.
pub fn buffer_inside(iov: IoVec, mem_len: usize) -> (r: bool)
    ensures
        r == (iov.buf_ptr + iov.buf_len <= mem_len),
{
    (iov.buf_ptr as u64) + (iov.buf_len as u64) <= mem_len as u64
}

/// The buffers of an `fd_write` that lie inside guest memory, in order:
/// the others are passed over.
pub open spec fn written_buffers(iovs: Seq<IoVec>, mem_len: int) -> Seq<IoVec> {
    iovs.filter(|v: IoVec| v.buf_ptr + v.buf_len <= mem_len)
}

pub fn fd_write_buffers(iovs: &[IoVec], mem_len: usize) -> (r: Vec<IoVec>)
    ensures
        r@ == written_buffers(iovs@, mem_len as int),
{
    let ghost keep = |v: IoVec| v.buf_ptr + v.buf_len <= mem_len;
    let mut out: Vec<IoVec> = Vec::new();
    let mut i: usize = 0;
    while i < iovs.len()
        invariant
            i <= iovs@.len(),
            keep == (|v: IoVec| v.buf_ptr + v.buf_len <= mem_len),
            out@ == iovs@.subrange(0, i as int).filter(keep),
        decreases iovs@.len() - i,
    {
        proof {
            crate::util::lemma_filter_prefix_step(iovs@, i as int, keep);
        }
        if buffer_inside(iovs[i], mem_len) {
            out.push(iovs[i]);
        }
        i = i + 1;
    }
    proof {
        assert(iovs@.subrange(0, iovs@.len() as int) =~= iovs@);
    }
    out
}

/// Where `fd_read` stops filling buffers: before the first buffer that
/// does not fit in guest memory (the guest then traps), or after the first
/// one that got fewer bytes than it holds.
pub fn fd_read_buffer(iov: IoVec, mem_len: usize) -> (r: Result<(usize, usize), WasiTrap>)
    ensures
        iov.buf_ptr + iov.buf_len <= mem_len ==> r == Ok::<(usize, usize), WasiTrap>(
            (iov.buf_ptr as usize, iov.buf_len as usize),
        ),
        iov.buf_ptr + iov.buf_len > mem_len ==> r == Err::<(usize, usize), WasiTrap>(WasiTrap::BufferOutOfBounds),
{
    if buffer_inside(iov, mem_len) {
        Ok((iov.buf_ptr as usize, iov.buf_len as usize))
    } else {
        Err(WasiTrap::BufferOutOfBounds)
    }
}

/// After a buffer of `buf_len` bytes got `got`: read on into the next one
/// only when this one was filled.
pub fn fd_read_continues(got: usize, buf_len: usize) -> (r: bool)
    ensures
        r == (got >= buf_len),
{
    got >= buf_len
}

/// The four bytes of a byte count fit at `addr` in guest memory.
pub fn count_store_ok(addr: usize, mem_len: usize) -> (r: bool)
    ensures
        r == (addr + 4 <= mem_len),
{
    match addr.checked_add(4) {
        Some(end) => end <= mem_len,
        None => false,
    }
}

/// `sock_open`'s answer to what the socket call returned: `WASI_EBADF`
/// for `usize::MAX`, else success (the descriptor is then stored).
pub fn sock_open_errno(res: usize) -> (r: u32)
    ensures
        r == (if res == usize::MAX { WASI_EBADF } else { WASI_ESUCCESS }),
{
    if res == usize::MAX {
        WASI_EBADF
    } else {
        WASI_ESUCCESS
    }
}

/// `sock_connect`'s answer: `WASI_EFAULT` for an address outside guest
/// memory (the connect is then not tried), success when the connect
/// returned 0, `WASI_EBADF` otherwise.
pub fn sock_connect_errno(addr_ok: bool, res: usize) -> (r: u32)
    ensures
        !addr_ok ==> r == WASI_EFAULT,
        addr_ok ==> r == (if res == 0 { WASI_ESUCCESS } else { WASI_EBADF }),
{
    if !addr_ok {
        WASI_EFAULT
    } else if res == 0 {
        WASI_ESUCCESS
    } else {
        WASI_EBADF
    }
}

} // verus!
