//! The memory system calls of a user process: moving the heap break,
//! mapping anonymous or file-backed memory and unmapping it.
//!
//! The calls decide the addresses and keep the per-page mapping counts;
//! they hand back the pages that need a fresh frame (or lose theirs), the
//! range to zero and the file bytes to copy, which the caller does on the
//! task's page tables and memory.
use vstd::prelude::*;
use crate::file::{FileDescriptor, FileDescriptorTable, MAX_FDS};
use crate::syscalls::{EBADF, EINVAL, ENOMEM};
use crate::task::{PageRefcounts, Task, TaskManager, MAX_TASKS, USER_HEAP_BASE, MMAP_BASE, lemma_occupied_update};

verus! {

pub const PAGE: u32 = 4096;
/// Largest heap a process may have.
pub const HEAP_LIMIT: u32 = 0x0200_0000;
/// Largest single mapping.
pub const MMAP_LIMIT: usize = 0x0400_0000;
/// Automatic mappings stay below the user stacks.
pub const MMAP_TOP: u32 = 0xB000_0000;
/// Start of the kernel half.
pub const KERNEL_BASE: u32 = 0xC000_0000;

pub const MAP_FIXED: u32 = 0x10;
pub const MAP_ANONYMOUS: u32 = 0x20;

/// `v` rounded down to a page.
pub open spec fn page_floor(v: int) -> int {
    v - v % 4096
}

/// Page `i` of a run starting at `start`.
pub open spec fn run_page(start: int, i: int) -> u32 {
    (start + 4096 * i) as u32
}

/// Of the first `k` pages of the run from `start`, those with no mapping
/// yet (in `counts`), in order: they need fresh frames.
pub open spec fn unmapped_pages(start: int, k: int, counts: spec_fn(u32) -> nat) -> Seq<u32>
    decreases k,
{
    if k <= 0 {
        Seq::empty()
    } else {
        unmapped_pages(start, k - 1, counts) + if counts(run_page(start, k - 1)) == 0 { seq![run_page(start, k - 1)] } else { Seq::empty() }
    }
}

/// Of the first `k` pages of the run from `start`, those whose last
/// mapping goes (count 1 in `counts`), in order.
pub open spec fn last_mapped_pages(start: int, k: int, counts: spec_fn(u32) -> nat) -> Seq<u32>
    decreases k,
{
    if k <= 0 {
        Seq::empty()
    } else {
        last_mapped_pages(start, k - 1, counts) + if counts(run_page(start, k - 1)) == 1 { seq![run_page(start, k - 1)] } else { Seq::empty() }
    }
}

/// The page `q` is one of the first `k` of the run from `start`.
pub open spec fn in_run(start: int, k: int, q: u32) -> bool {
    start <= q < start + 4096 * k && (q - start) % 4096 == 0
}

/// Count one more mapping of each of the `n` pages from `start`. Returns
/// the pages that had none.
fn map_run(refs: &mut PageRefcounts, start: u32, n: u32) -> (r: Vec<u32>)
    requires
        old(refs).wf(),
        start + 4096 * n <= u32::MAX,
        forall|q: u32| old(refs).count(q) < u32::MAX,
    ensures
        final(refs).wf(),
        forall|q: u32| #[trigger] final(refs).count(q) == old(refs).count(q) + (if in_run(start as int, n as int, q) { 1nat } else { 0nat }),
        r@ == unmapped_pages(start as int, n as int, |q: u32| old(refs).count(q)),
{
    let ghost counts = |q: u32| old(refs).count(q);
    let mut out: Vec<u32> = Vec::new();
    let mut k: u32 = 0;
    while k < n
        invariant
            refs.wf(),
            k <= n,
            start + 4096 * n <= u32::MAX,
            counts == (|q: u32| old(refs).count(q)),
            forall|q: u32| old(refs).count(q) < u32::MAX,
            forall|q: u32| #[trigger] refs.count(q) == old(refs).count(q) + (if in_run(start as int, k as int, q) { 1nat } else { 0nat }),
            out@ == unmapped_pages(start as int, k as int, counts),
        decreases n - k,
    {
        proof {
            assert(start + 4096 * k < start + 4096 * n) by (nonlinear_arith)
                requires k < n;
        }
        let p = start + 4096 * k;
        proof {
            assert(!in_run(start as int, k as int, p));
            assert(refs.count(p) == old(refs).count(p));
        }
        let ghost rb: PageRefcounts = *refs;
        let fresh = refs.inc(p);
        if fresh {
            out.push(p);
        }
        proof {
            assert forall|q: u32| #[trigger] refs.count(q) == old(refs).count(q) + (if in_run(start as int, k + 1, q) { 1nat } else { 0nat }) by {
                assert(rb.count(q) == old(refs).count(q) + (if in_run(start as int, k as int, q) { 1nat } else { 0nat }));
                if q == p {
                    assert(in_run(start as int, k + 1, q));
                } else {
                    assert(in_run(start as int, k + 1, q) == in_run(start as int, k as int, q)) by {
                        if in_run(start as int, k + 1, q) && !in_run(start as int, k as int, q) {
                            assert(q >= start + 4096 * k);
                            assert(q < start + 4096 * k + 4096);
                            assert((q - start) % 4096 == 0);
                            assert(q - start == 4096 * k) by (nonlinear_arith)
                                requires q - start >= 4096 * k, q - start < 4096 * k + 4096, (q - start) % 4096 == 0;
                        }
                    }
                }
            }
            assert(run_page(start as int, k as int) == p);
            assert(out@ =~= unmapped_pages(start as int, k + 1, counts));
        }
        k = k + 1;
    }
    out
}

/// brk(addr): the heap break, which starts at the heap base. 0 and
/// addresses below the base only read it; past the base by more than the
/// heap limit it stays; otherwise it moves to `addr`, and growing counts a
/// mapping of every page from the old break's page up to `addr`'s end.
/// Slot 0, slots past the table and empty slots answer 0. Returns the
/// break and the pages that need a fresh frame.
pub fn sys_brk(tm: &mut TaskManager, refs: &mut PageRefcounts, current_slot: usize, addr: u32) -> (r: (usize, Vec<u32>))
    requires
        old(tm).wf(),
        old(refs).wf(),
        forall|q: u32| old(refs).count(q) < u32::MAX,
    ensures
        final(tm).wf(),
        final(refs).wf(),
        final(tm).owners@ == old(tm).owners@,
        final(tm).current_task == old(tm).current_task,
        final(tm).next_pid == old(tm).next_pid,
        (current_slot == 0 || current_slot >= MAX_TASKS || old(tm).tasks@[current_slot as int] is None)
            ==> r.0 == 0 && r.1@.len() == 0 && final(tm).tasks@ == old(tm).tasks@ && final(refs).entries@ == old(refs).entries@,
        0 < current_slot < MAX_TASKS && old(tm).tasks@[current_slot as int] is Some ==> ({
            let t = old(tm).tasks@[current_slot as int]->Some_0;
            let cur = if t.heap_next < USER_HEAP_BASE { USER_HEAP_BASE } else { t.heap_next };
            let moves = addr != 0 && addr >= USER_HEAP_BASE && addr - USER_HEAP_BASE <= HEAP_LIMIT;
            let start = page_floor(cur as int);
            let n = if addr > cur { (page_floor(addr + 4095) - start) / 4096 } else { 0 };
            &&& !moves ==> r.0 == cur as usize && r.1@.len() == 0 && final(refs).entries@ == old(refs).entries@
                && final(tm).tasks@ == old(tm).tasks@.update(current_slot as int, Some(Task { heap_next: cur, ..t }))
            &&& moves ==> r.0 == addr as usize
                && final(tm).tasks@ == old(tm).tasks@.update(current_slot as int, Some(Task { heap_next: addr, ..t }))
                && r.1@ == unmapped_pages(start, n, |q: u32| old(refs).count(q))
                && forall|q: u32| #[trigger] final(refs).count(q) == old(refs).count(q) + (if in_run(start, n, q) { 1nat } else { 0nat })
        }),
{
    if current_slot == 0 || current_slot >= 32 {
        return (0, Vec::new());
    }
    let t = match tm.tasks[current_slot] {
        Some(t) => t,
        None => return (0, Vec::new()),
    };
    let cur = if t.heap_next < USER_HEAP_BASE { USER_HEAP_BASE } else { t.heap_next };
    let nt = Task { heap_next: cur, ..t };
    proof {
        lemma_occupied_update(tm.tasks@, current_slot as int, Some(nt));
    }
    tm.tasks.set(current_slot, Some(nt));
    if addr == 0 || addr < USER_HEAP_BASE || addr - USER_HEAP_BASE > HEAP_LIMIT {
        return (cur as usize, Vec::new());
    }
    let mut fresh: Vec<u32> = Vec::new();
    if addr > cur {
        let start = cur - cur % 4096;
        let end = (addr + 4095) - (addr + 4095) % 4096;
        proof {
            assert((end - start) % 4096 == 0);
            assert(start + 4096 * ((end - start) / 4096) == end);
        }
        fresh = map_run(refs, start, (end - start) / 4096);
    } else {
        proof {
            assert(unmapped_pages(page_floor(cur as int), 0, |q: u32| old(refs).count(q)) =~= Seq::<u32>::empty());
            assert forall|q: u32| #[trigger] refs.count(q) == old(refs).count(q) + (if in_run(page_floor(cur as int), 0, q) { 1nat } else { 0nat }) by {}
        }
    }
    let nt2 = Task { heap_next: addr, ..nt };
    proof {
        lemma_occupied_update(tm.tasks@, current_slot as int, Some(nt2));
    }
    tm.tasks.set(current_slot, Some(nt2));
    (addr as usize, fresh)
}

/// What mmap asks of the caller: the result (the address, or an error),
/// the pages that need a fresh frame, the range to fill with zeros, and
/// for a file mapping the inode, file offset and byte count to copy in.
pub struct MmapOutcome {
    pub result: usize,
    pub new_pages: Vec<u32>,
    pub zero_start: u32,
    pub zero_len: u32,
    pub file: Option<(u32, u64, usize)>,
}

/// `len` rounded up to pages.
pub open spec fn mmap_len(len: usize) -> u32 {
    ((len + 4095) / 4096 * 4096) as u32
}

/// The inode behind descriptor `fd` for a file mapping.
pub open spec fn mapped_inode(fds: Seq<Option<FileDescriptor>>, fd: i32) -> Option<u32> {
    if 0 <= fd < MAX_FDS {
        match fds[fd as int] {
            Some(FileDescriptor::File { inode, .. }) => Some(inode),
            Some(FileDescriptor::Device { inode, .. }) => Some(inode),
            _ => None,
        }
    } else {
        None
    }
}

/// mmap2(addr, len, prot, flags, fd, pgoff), with `pgoff` in pages:
/// `EINVAL` for length 0, `ENOMEM` past the mapping limit or for slot 0,
/// slots past the table and empty slots. The address is `addr`'s page for
/// `MAP_FIXED` (`EINVAL` for 0) or a non-zero hint; otherwise the next
/// automatic address (from the mmap base on, `ENOMEM` when it would reach
/// the top), which then moves past the mapping. A mapping reaching into
/// the kernel half is `EINVAL`. Each page of the mapping gains a mapping
/// and is zeroed; a file mapping (neither `MAP_ANONYMOUS` nor a negative
/// `fd`) then copies `len` bytes from page `pgoff` of the file of `fd`,
/// or answers `EBADF` when `fd` holds no file or device.
pub fn sys_mmap2(tm: &mut TaskManager, refs: &mut PageRefcounts, table: &FileDescriptorTable, current_slot: usize,
    addr: u32, len: usize, flags: u32, fd: i32, pgoff: u32) -> (r: MmapOutcome)
    requires
        old(tm).wf(),
        old(refs).wf(),
        table.wf(),
        forall|q: u32| old(refs).count(q) < u32::MAX,
    ensures
        final(tm).wf(),
        final(refs).wf(),
        final(tm).owners@ == old(tm).owners@,
        final(tm).current_task == old(tm).current_task,
        final(tm).next_pid == old(tm).next_pid,
        len == 0 ==> r.result == EINVAL && r.new_pages@.len() == 0 && r.zero_len == 0 && r.file is None
            && final(tm).tasks@ == old(tm).tasks@ && final(refs).entries@ == old(refs).entries@,
        len > MMAP_LIMIT ==> r.result == ENOMEM && r.new_pages@.len() == 0 && r.zero_len == 0 && r.file is None
            && final(tm).tasks@ == old(tm).tasks@ && final(refs).entries@ == old(refs).entries@,
        0 < len <= MMAP_LIMIT && (current_slot == 0 || current_slot >= MAX_TASKS || old(tm).tasks@[current_slot as int] is None)
            ==> r.result == ENOMEM && r.new_pages@.len() == 0 && r.zero_len == 0 && r.file is None
            && final(tm).tasks@ == old(tm).tasks@ && final(refs).entries@ == old(refs).entries@,
        0 < len <= MMAP_LIMIT && 0 < current_slot < MAX_TASKS && old(tm).tasks@[current_slot as int] is Some ==> ({
            let t = old(tm).tasks@[current_slot as int]->Some_0;
            let lu = mmap_len(len);
            let fixed = flags & MAP_FIXED != 0;
            let auto = !fixed && addr == 0;
            let next = if t.mmap_next < MMAP_BASE { MMAP_BASE } else { t.mmap_next };
            let full = auto && next + lu >= MMAP_TOP;
            let va: int = if auto { next as int } else { page_floor(addr as int) };
            let t1 = if auto { Task { mmap_next: if full { next } else { (next + lu) as u32 }, ..t } } else { t };
            let anonymous = flags & MAP_ANONYMOUS != 0 || fd < 0;
            &&& final(tm).tasks@ == old(tm).tasks@.update(current_slot as int, Some(t1))
            &&& fixed && addr == 0 ==> r.result == EINVAL && r.new_pages@.len() == 0 && r.zero_len == 0 && r.file is None
                && final(refs).entries@ == old(refs).entries@
            &&& full ==> r.result == ENOMEM && r.new_pages@.len() == 0 && r.zero_len == 0 && r.file is None
                && final(refs).entries@ == old(refs).entries@
            &&& !(fixed && addr == 0) && !full && va + lu > KERNEL_BASE ==> r.result == EINVAL && r.new_pages@.len() == 0
                && r.zero_len == 0 && r.file is None && final(refs).entries@ == old(refs).entries@
            &&& !(fixed && addr == 0) && !full && va + lu <= KERNEL_BASE ==> {
                &&& r.new_pages@ == unmapped_pages(va, (lu / 4096) as int, |q: u32| old(refs).count(q))
                &&& forall|q: u32| #[trigger] final(refs).count(q) == old(refs).count(q) + (if in_run(va, (lu / 4096) as int, q) { 1nat } else { 0nat })
                &&& r.zero_start == va && r.zero_len == lu
                &&& anonymous ==> r.result == va && r.file is None
                &&& !anonymous && mapped_inode(table.fds@, fd) is None ==> r.result == EBADF && r.file is None
                &&& !anonymous && mapped_inode(table.fds@, fd) is Some ==> r.result == va
                    && r.file == Some((mapped_inode(table.fds@, fd)->0, (pgoff as u64 * 4096) as u64, len))
            }
        }),
{
    let none = MmapOutcome { result: EINVAL, new_pages: Vec::new(), zero_start: 0, zero_len: 0, file: None };
    if len == 0 {
        return none;
    }
    if len > MMAP_LIMIT {
        return MmapOutcome { result: ENOMEM, ..none };
    }
    let lu: u32 = ((len as u32 + 4095) / 4096) * 4096;
    let anonymous = flags & MAP_ANONYMOUS != 0 || fd < 0;
    if current_slot == 0 || current_slot >= 32 {
        return MmapOutcome { result: ENOMEM, ..none };
    }
    let t = match tm.tasks[current_slot] {
        Some(t) => t,
        None => return MmapOutcome { result: ENOMEM, ..none },
    };
    let va: u32;
    if flags & MAP_FIXED != 0 {
        if addr == 0 {
            return none;
        }
        va = addr - addr % 4096;
    } else if addr != 0 {
        va = addr - addr % 4096;
    } else {
        let next = if t.mmap_next < MMAP_BASE { MMAP_BASE } else { t.mmap_next };
        let nt = Task { mmap_next: next, ..t };
        proof {
            lemma_occupied_update(tm.tasks@, current_slot as int, Some(nt));
        }
        tm.tasks.set(current_slot, Some(nt));
        if next as u64 + lu as u64 >= MMAP_TOP as u64 {
            return MmapOutcome { result: ENOMEM, ..none };
        }
        let nt2 = Task { mmap_next: next + lu, ..t };
        proof {
            lemma_occupied_update(tm.tasks@, current_slot as int, Some(nt2));
        }
        tm.tasks.set(current_slot, Some(nt2));
        va = next;
    }
    if va >= KERNEL_BASE || va as u64 + lu as u64 > KERNEL_BASE as u64 {
        return none;
    }
    proof {
        assert(lu % 4096 == 0);
        assert(va + 4096 * (lu / 4096) == va + lu);
    }
    let fresh = map_run(refs, va, lu / 4096);
    let mut out = MmapOutcome { result: va as usize, new_pages: fresh, zero_start: va, zero_len: lu, file: None };
    if !anonymous {
        let fdu = fd as usize;
        let inode = if fdu < MAX_FDS {
            match table.fds[fdu] {
                Some(FileDescriptor::File { inode, .. }) => Some(inode),
                Some(FileDescriptor::Device { inode, .. }) => Some(inode),
                _ => None,
            }
        } else {
            None
        };
        match inode {
            Some(ino) => {
                out.file = Some((ino, pgoff as u64 * 4096, len));
            },
            None => {
                out.result = EBADF;
            },
        }
    }
    out
}

/// The old mmap call: the same as [`sys_mmap2`] with a byte offset, taken
/// in whole pages.
pub fn sys_mmap_old(tm: &mut TaskManager, refs: &mut PageRefcounts, table: &FileDescriptorTable, current_slot: usize,
    addr: u32, len: u32, flags: u32, fd: i32, offset: u32) -> (r: MmapOutcome)
    requires
        old(tm).wf(),
        old(refs).wf(),
        table.wf(),
        forall|q: u32| old(refs).count(q) < u32::MAX,
    ensures
        final(tm).wf(),
        final(refs).wf(),
        len == 0 ==> r.result == EINVAL,
        len as usize > MMAP_LIMIT ==> r.result == ENOMEM,
        r.file matches Some((ino, off, n)) ==> off == ((offset / 4096) as u64 * 4096) as u64 && n == len as usize,
{
    sys_mmap2(tm, refs, table, current_slot, addr, len as usize, flags, fd, offset / 4096)
}

/// munmap(addr, len): 0 for length 0; `EINVAL` from the kernel half on or
/// for an empty slot; otherwise each page from `addr`'s page to the end of
/// the range (below the kernel half) loses a mapping, and the pages that
/// lost their last one are returned for unmapping.
pub fn sys_munmap(tm: &TaskManager, refs: &mut PageRefcounts, current_slot: usize, addr: u32, len: usize) -> (r: (usize, Vec<u32>))
    requires
        tm.wf(),
        old(refs).wf(),
        current_slot < MAX_TASKS,
        addr + (len as u32) + 4095 <= u32::MAX,
    ensures
        final(refs).wf(),
        len == 0 ==> r.0 == 0 && r.1@.len() == 0 && final(refs).entries@ == old(refs).entries@,
        len > 0 && page_floor(addr as int) >= KERNEL_BASE ==> r.0 == EINVAL && r.1@.len() == 0 && final(refs).entries@ == old(refs).entries@,
        len > 0 && page_floor(addr as int) < KERNEL_BASE && tm.tasks@[current_slot as int] is None
            ==> r.0 == EINVAL && r.1@.len() == 0 && final(refs).entries@ == old(refs).entries@,
        len > 0 && page_floor(addr as int) < KERNEL_BASE && tm.tasks@[current_slot as int] is Some ==> ({
            let start = page_floor(addr as int);
            let end = page_floor(addr + (len as u32) + 4095);
            let stop = if end < KERNEL_BASE { end } else { KERNEL_BASE as int };
            let n = if stop > start { (stop - start) / 4096 } else { 0 };
            &&& r.0 == 0
            &&& r.1@ == last_mapped_pages(start, n, |q: u32| old(refs).count(q))
            &&& forall|q: u32| #[trigger] final(refs).count(q) == (if in_run(start, n, q) && old(refs).count(q) > 0 {
                (old(refs).count(q) - 1) as nat
            } else {
                old(refs).count(q)
            })
        }),
{
    if len == 0 {
        return (0, Vec::new());
    }
    let start = addr - addr % 4096;
    let top = addr + len as u32 + 4095;
    let end = top - top % 4096;
    if start >= KERNEL_BASE {
        return (EINVAL, Vec::new());
    }
    if tm.tasks[current_slot].is_none() {
        return (EINVAL, Vec::new());
    }
    let stop = if end < KERNEL_BASE { end } else { KERNEL_BASE };
    let n: u32 = if stop > start { (stop - start) / 4096 } else { 0 };
    let ghost counts = |q: u32| old(refs).count(q);
    let mut out: Vec<u32> = Vec::new();
    let mut k: u32 = 0;
    proof {
        if stop > start {
            assert((stop - start) % 4096 == 0);
        }
        assert(start + 4096 * n <= KERNEL_BASE);
    }
    while k < n
        invariant
            refs.wf(),
            k <= n,
            start % 4096 == 0,
            start + 4096 * n <= KERNEL_BASE,
            counts == (|q: u32| old(refs).count(q)),
            forall|q: u32| #[trigger] refs.count(q) == (if in_run(start as int, k as int, q) && old(refs).count(q) > 0 {
                (old(refs).count(q) - 1) as nat
            } else {
                old(refs).count(q)
            }),
            out@ == last_mapped_pages(start as int, k as int, counts),
        decreases n - k,
    {
        proof {
            assert(start + 4096 * k < start + 4096 * n) by (nonlinear_arith)
                requires k < n;
        }
        let p = start + 4096 * k;
        proof {
            assert(!in_run(start as int, k as int, p));
        }
        let ghost rb: PageRefcounts = *refs;
        let last = refs.dec(p);
        if last {
            out.push(p);
        }
        proof {
            assert forall|q: u32| #[trigger] refs.count(q) == (if in_run(start as int, k + 1, q) && old(refs).count(q) > 0 {
                (old(refs).count(q) - 1) as nat
            } else {
                old(refs).count(q)
            }) by {
                assert(rb.count(q) == (if in_run(start as int, k as int, q) && old(refs).count(q) > 0 {
                    (old(refs).count(q) - 1) as nat
                } else {
                    old(refs).count(q)
                }));
                if q == p {
                    assert(in_run(start as int, k + 1, q));
                } else {
                    assert(in_run(start as int, k + 1, q) == in_run(start as int, k as int, q)) by {
                        if in_run(start as int, k + 1, q) && !in_run(start as int, k as int, q) {
                            assert(q - start == 4096 * k) by (nonlinear_arith)
                                requires q - start >= 4096 * k, q - start < 4096 * k + 4096, (q - start) % 4096 == 0;
                        }
                    }
                }
            }
            assert(run_page(start as int, k as int) == p);
            assert(out@ =~= last_mapped_pages(start as int, k + 1, counts));
        }
        k = k + 1;
    }
    (0, out)
}

} // verus!
