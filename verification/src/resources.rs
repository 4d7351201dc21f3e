//! Ownership tracking for physical ranges (RAM, MMIO, DMA, firmware) and for
//! the kernel MMIO virtual window.
//!
//! Every reserved physical range has an owner; two owners never share a
//! byte. The manager keeps its ranges sorted by start address and pairwise
//! disjoint, which is the invariant every operation preserves.
use vstd::prelude::*;
use crate::paging::{aligned_first, pd_index_of, pt_index_of, Unmapped, PDE_DIR_PAGE_SIZE, phys_to_virt, spec_phys_to_virt, PageManager, PhysAddr, VirtAddr, PAGE_SIZE, PTEFlags, PteWrite, PTE_PRESENT,
    PTE_WRITABLE, PTE_WRITE_THROUGH, PTE_CACHE_DISABLE, PDE_PRESENT, ENTRIES, MAX_PAGE, maps_page, range_pages, dir_entries_touched};
use crate::util::{is_pow2_u64, is_power_of_two_u64, lemma_align_up, lemma_page_size_pow2, spec_align_up, str_eq};

verus! {

#[derive(Clone, Copy, Debug, PartialEq, Eq, Structural)]
pub enum ResourceKind {
    Free,
    Reserved,
    Kernel,
    Mmio,
    Framebuffer,
    Dma,
    Acpi,
    Firmware,
}

pub open spec fn kind_name(k: ResourceKind) -> Seq<char> {
    match k {
        ResourceKind::Free => "free"@,
        ResourceKind::Reserved => "reserved"@,
        ResourceKind::Kernel => "kernel"@,
        ResourceKind::Mmio => "mmio"@,
        ResourceKind::Framebuffer => "framebuffer"@,
        ResourceKind::Dma => "dma"@,
        ResourceKind::Acpi => "acpi"@,
        ResourceKind::Firmware => "firmware"@,
    }
}

impl ResourceKind {
    pub fn as_str(self) -> (r: &'static str)
        ensures
            r@ == kind_name(self),
    {
        match self {
            ResourceKind::Free => "free",
            ResourceKind::Reserved => "reserved",
            ResourceKind::Kernel => "kernel",
            ResourceKind::Mmio => "mmio",
            ResourceKind::Framebuffer => "framebuffer",
            ResourceKind::Dma => "dma",
            ResourceKind::Acpi => "acpi",
            ResourceKind::Firmware => "firmware",
        }
    }
}

#[derive(Clone, Copy, Debug)]
pub struct PhysRange {
    pub start: u64,
    pub size: u64,
    pub kind: ResourceKind,
    pub owner: &'static str,
}

#[derive(Clone, Copy, Debug)]
pub enum ResourceError {
    ZeroSize,
    InvalidAlignment,
    Overflow,
    AddressTooHigh,
    OutOfMemory,
    NotFound,
    MappingFailed(&'static str),
    Overlap { requested: PhysRange, existing: PhysRange },
}

pub open spec fn range_end(r: PhysRange) -> int {
    r.start + r.size
}

/// `[start, end)` shares at least one byte with `r`.
pub open spec fn overlaps(r: PhysRange, start: int, end: int) -> bool {
    start < range_end(r) && r.start < end
}

/// Non-empty, non-wrapping, sorted by start and pairwise disjoint.
pub open spec fn ranges_wf(s: Seq<PhysRange>) -> bool {
    &&& forall|i: int| 0 <= i < s.len() ==> #[trigger] s[i].size > 0 && range_end(s[i]) <= u64::MAX
    &&& forall|i: int, j: int| #![trigger s[i], s[j]] 0 <= i < j < s.len() ==> range_end(s[i]) <= s[j].start
}

/// The reservation `r` is exactly the one described by the arguments.
pub open spec fn same_reservation(
    r: PhysRange,
    start: u64,
    size: u64,
    kind: ResourceKind,
    owner: &str,
) -> bool {
    r.start == start && r.size == size && r.kind == kind && r.owner@ == owner@
}

impl PhysRange {
    /// One past the last byte, unless that does not fit in 64 bits.
    pub fn end(self) -> (r: Result<u64, ResourceError>)
        ensures
            self.start + self.size <= u64::MAX ==> r == Ok::<u64, ResourceError>(
                (self.start + self.size) as u64,
            ),
            self.start + self.size > u64::MAX ==> r matches Err(ResourceError::Overflow),
    {
        match self.start.checked_add(self.size) {
            Some(e) => Ok(e),
            None => Err(ResourceError::Overflow),
        }
    }
}

/// `v` rounded up to a multiple of `align`, which must be a power of two.
pub fn align_up_u64(value: u64, align: u64) -> (r: Result<u64, ResourceError>)
    ensures
        !is_pow2_u64(align) ==> r matches Err(ResourceError::InvalidAlignment),
        is_pow2_u64(align) && value + align - 1 > u64::MAX ==> r matches Err(
            ResourceError::Overflow,
        ),
        is_pow2_u64(align) && value + align - 1 <= u64::MAX ==> r == Ok::<u64, ResourceError>(
            spec_align_up(value as int, align as int) as u64,
        ),
        r matches Ok(v) ==> v % align == 0 && v >= value && v < value + align,
{
    if align == 0 || !is_power_of_two_u64(align) {
        return Err(ResourceError::InvalidAlignment);
    }
    match value.checked_add(align - 1) {
        Some(v) => {
            proof {
                lemma_align_up(value as int, align as int);
            }
            Ok(v / align * align)
        },
        None => Err(ResourceError::Overflow),
    }
}

/// 32-bit variant of [`align_up_u64`].
pub fn align_up_u32(value: u32, align: u32) -> (r: Result<u32, ResourceError>)
    ensures
        !is_pow2_u64(align as u64) ==> r matches Err(ResourceError::InvalidAlignment),
        is_pow2_u64(align as u64) && value + align - 1 > u32::MAX ==> r matches Err(
            ResourceError::Overflow,
        ),
        is_pow2_u64(align as u64) && value + align - 1 <= u32::MAX ==> r == Ok::<
            u32,
            ResourceError,
        >(spec_align_up(value as int, align as int) as u32),
        r matches Ok(v) ==> v % align == 0 && v >= value && v < value + align,
{
    if align == 0 || !is_power_of_two_u64(align as u64) {
        return Err(ResourceError::InvalidAlignment);
    }
    match value.checked_add(align - 1) {
        Some(v) => {
            proof {
                lemma_align_up(value as int, align as int);
            }
            Ok(v / align * align)
        },
        None => Err(ResourceError::Overflow),
    }
}

/// Physical resource map.
pub struct ResourceManager {
    pub ranges: Vec<PhysRange>,
}

impl View for ResourceManager {
    type V = Seq<PhysRange>;

    open spec fn view(&self) -> Seq<PhysRange> {
        self.ranges@
    }
}

/// `[start, start + size)` is non-empty, fits in 64 bits and touches no
/// reserved range.
pub open spec fn spec_is_free(s: Seq<PhysRange>, start: u64, size: u64) -> bool {
    &&& size != 0
    &&& start + size <= u64::MAX
    &&& forall|i: int| 0 <= i < s.len() ==> !overlaps(#[trigger] s[i], start as int, start + size)
}

/// The alignment a physical allocation gets: `align`, but at least a page.
pub open spec fn phys_alloc_align(align: usize) -> int {
    if align >= PAGE_SIZE {
        align as int
    } else {
        PAGE_SIZE as int
    }
}

/// Where a physical allocation lands: the first frame at or after the frame
/// allocator's next free frame that is aligned to `phys_alloc_align(align)`.
pub open spec fn phys_alloc_start(next_free_page: u32, align: usize) -> int {
    aligned_first(next_free_page as int, phys_alloc_align(align) / 4096) * 4096
}

/// The inputs on which a physical allocation succeeds: a non-empty size whose
/// page-rounded length fits, a power-of-two alignment, room for the pages
/// below `min(max_addr, u32::MAX)`, and a range that is free or already held
/// by exactly this reservation.
pub open spec fn phys_alloc_succeeds(
    s: Seq<PhysRange>,
    next_free_page: u32,
    max_addr: u64,
    size: usize,
    align: usize,
    kind: ResourceKind,
    owner: &str,
) -> bool {
    let alloc_size = spec_align_up(size as int, 4096);
    let cap: int = if max_addr < u32::MAX { max_addr as int } else { u32::MAX as int };
    let start = phys_alloc_start(next_free_page, align);
    &&& size != 0
    &&& is_pow2_u64(align as u64)
    &&& size + 4095 <= u64::MAX
    &&& phys_alloc_align(align) / 4096 <= u32::MAX
    &&& aligned_first(next_free_page as int, phys_alloc_align(align) / 4096) + alloc_size / 4096
        <= (cap + 1) / 4096
    &&& (spec_is_free(s, start as u64, alloc_size as u64) || exists|i: int|
        0 <= i < s.len() && #[trigger] same_reservation(s[i], start as u64, alloc_size as u64, kind, owner))
}

impl ResourceManager {
    pub open spec fn wf(&self) -> bool {
        ranges_wf(self.ranges@)
    }

    pub fn new() -> (r: Self)
        ensures
            r.wf(),
            r@ == Seq::<PhysRange>::empty(),
    {
        ResourceManager { ranges: Vec::new() }
    }

    pub fn ranges(&self) -> (r: &[PhysRange])
        ensures
            r@ == self@,
    {
        self.ranges.as_slice()
    }

    pub fn is_free(&self, start: u64, size: u64) -> (r: bool)
        requires
            self.wf(),
        ensures
            r == spec_is_free(self@, start, size),
    {
        let end = match start.checked_add(size) {
            Some(e) => e,
            None => return false,
        };
        if size == 0 {
            return false;
        }
        let mut i: usize = 0;
        while i < self.ranges.len()
            invariant
                ranges_wf(self.ranges@),
                end == start + size,
                0 <= i <= self.ranges@.len(),
                forall|j: int| 0 <= j < i ==> !overlaps(#[trigger] self.ranges@[j], start as int, end as int),
            decreases self.ranges@.len() - i,
        {
            let r = self.ranges[i];
            let r_end = r.start + r.size;
            if start < r_end && r.start < end {
                return false;
            }
            i = i + 1;
        }
        true
    }

    /// Reserve `[start, start + size)` for `owner`. Re-reserving exactly the
    /// same range for the same owner and kind is accepted and changes
    /// nothing; any other overlap is refused and names the first reserved
    /// range in address order that it hits.
    pub fn reserve_range(
        &mut self,
        start: u64,
        size: u64,
        kind: ResourceKind,
        owner: &'static str,
    ) -> (r: Result<(), ResourceError>)
        requires
            old(self).wf(),
        ensures
            final(self).wf(),
            size == 0 ==> r matches Err(ResourceError::ZeroSize),
            size != 0 && start + size > u64::MAX ==> r matches Err(ResourceError::Overflow),
            r is Err ==> final(self)@ == old(self)@,
            size != 0 && start + size <= u64::MAX ==> {
                let end = start + size;
                if exists|i: int| 0 <= i < old(self)@.len() && overlaps(#[trigger] old(self)@[i], start as int, end) {
                    &&& final(self)@ == old(self)@
                    &&& (exists|i: int| 0 <= i < old(self)@.len() && #[trigger] same_reservation(old(self)@[i], start, size, kind, owner))
                        ==> r is Ok
                    &&& !(exists|i: int| 0 <= i < old(self)@.len() && #[trigger] same_reservation(old(self)@[i], start, size, kind, owner))
                        ==> (r matches Err(ResourceError::Overlap { requested, existing }) && {
                        &&& requested.start == start && requested.size == size
                        &&& requested.kind == kind && requested.owner == owner
                        &&& exists|i: int|
                            0 <= i < old(self)@.len() && #[trigger] old(self)@[i] == existing
                                && overlaps(existing, start as int, end)
                                && forall|j: int| 0 <= j < i ==> !overlaps(#[trigger] old(self)@[j], start as int, end)
                    })
                } else {
                    &&& r is Ok
                    &&& final(self)@.len() == old(self)@.len() + 1
                    &&& final(self)@.contains(PhysRange { start, size, kind, owner })
                    &&& forall|x: PhysRange| old(self)@.contains(x) ==> #[trigger] final(self)@.contains(x)
                    &&& forall|x: PhysRange| #[trigger] final(self)@.contains(x) ==> old(self)@.contains(x)
                        || x == (PhysRange { start, size, kind, owner })
                }
            },
    {
        if size == 0 {
            return Err(ResourceError::ZeroSize);
        }
        let end = match start.checked_add(size) {
            Some(e) => e,
            None => return Err(ResourceError::Overflow),
        };
        let ghost s = self.ranges@;

        let mut i: usize = 0;
        while i < self.ranges.len()
            invariant
                self.ranges@ == s,
                s == old(self).ranges@,
                ranges_wf(s),
                end == start + size,
                size > 0,
                0 <= i <= s.len(),
                forall|j: int| 0 <= j < i ==> !overlaps(#[trigger] s[j], start as int, end as int),
            decreases s.len() - i,
        {
            let existing = self.ranges[i];
            let existing_end = existing.start + existing.size;
            if start < existing_end && existing.start < end {
                if existing.start == start && existing.size == size && existing.kind == kind
                    && str_eq(existing.owner, owner) {
                    assert(same_reservation(s[i as int], start, size, kind, owner));
                    assert(overlaps(s[i as int], start as int, end as int));
                    return Ok(());
                }
                proof {
                    // Another reservation identical to the request would
                    // overlap `existing`, which the invariant forbids.
                    assert forall|k: int| 0 <= k < s.len() implies !#[trigger] same_reservation(s[k], start, size, kind, owner) by {
                        if same_reservation(s[k], start, size, kind, owner) {
                            if k < i {
                            } else if k > i {
                                assert(range_end(s[i as int]) <= s[k].start);
                            }
                        }
                    }
                }
                assert(s[i as int] == existing);
                assert(overlaps(s[i as int], start as int, end as int));
                assert(forall|j: int| 0 <= j < i ==> !overlaps(#[trigger] s[j], start as int, end as int));
                assert(exists|ii: int|
                            0 <= ii < s.len() && #[trigger] s[ii] == existing
                                && overlaps(existing, start as int, end as int)
                                && forall|j: int| 0 <= j < ii ==> !overlaps(#[trigger] s[j], start as int, end as int));
                assert(!(exists|k: int| 0 <= k < s.len() && #[trigger] same_reservation(s[k], start, size, kind, owner)));
                let requested = PhysRange { start, size, kind, owner };
                let res: Result<(), ResourceError> = Err(ResourceError::Overlap { requested, existing });

                assert(res matches Err(ResourceError::Overlap { requested: rq, existing: ex }) && {
                        &&& exists|ii: int|
                            0 <= ii < s.len() && #[trigger] s[ii] == ex
                                && overlaps(ex, start as int, end as int)
                                && forall|j: int| 0 <= j < ii ==> !overlaps(#[trigger] s[j], start as int, end as int)
                    });
                return res;
            }
            i = i + 1;
        }

        let mut pos: usize = 0;
        while pos < self.ranges.len() && self.ranges[pos].start <= start
            invariant
                self.ranges@ == s,
                s == old(self).ranges@,
                ranges_wf(s),
                0 <= pos <= s.len(),
                forall|j: int| 0 <= j < pos ==> (#[trigger] s[j]).start <= start,
            decreases s.len() - pos,
        {
            pos = pos + 1;
        }
        let requested = PhysRange { start, size, kind, owner };
        self.ranges.insert(pos, requested);
        proof {
            let n = self.ranges@;
            assert(n == s.insert(pos as int, requested));
            assert forall|j: int| 0 <= j < s.len() && (#[trigger] s[j]).start <= start implies range_end(s[j]) <= start by {
                assert(!overlaps(s[j], start as int, end as int));
            }
            assert forall|j: int| pos <= j < s.len() implies #[trigger] s[j].start >= end by {
                assert(!overlaps(s[j], start as int, end as int));
                if pos < s.len() {
                    assert(s[pos as int].start > start);
                    if j > pos {
                        assert(range_end(s[pos as int]) <= s[j].start);
                    }
                }
            }
            assert forall|a: int, b: int| #![trigger n[a], n[b]] 0 <= a < b < n.len() implies range_end(n[a]) <= n[b].start by {
                if b < pos {
                } else if b == pos {
                    assert(s[a].start <= start);
                } else if a < pos {
                    if a < pos {
                        assert(s[a].start <= start);
                    }
                    assert(n[b] == s[b - 1]);
                } else if a == pos {
                    assert(n[b] == s[b - 1]);
                    assert(s[b - 1].start >= end);
                } else {
                    assert(n[a] == s[a - 1]);
                    assert(n[b] == s[b - 1]);
                }
            }
            assert(n[pos as int] == requested);
            assert forall|x: PhysRange| s.contains(x) implies #[trigger] n.contains(x) by {
                let k = choose|k: int| 0 <= k < s.len() && s[k] == x;
                if k < pos {
                    assert(n[k] == x);
                } else {
                    assert(n[k + 1] == x);
                }
            }
            assert forall|x: PhysRange| #[trigger] n.contains(x) implies s.contains(x) || x == requested by {
                let k = choose|k: int| 0 <= k < n.len() && n[k] == x;
                if k < pos {
                    assert(s[k] == x);
                } else if k > pos {
                    assert(s[k - 1] == x);
                }
            }
            assert(!(exists|i: int| 0 <= i < s.len() && overlaps(#[trigger] s[i], start as int, end as int)));
        }
        Ok(())
    }

    /// Give back the reservation that starts at `start` with exactly `size`
    /// bytes.
    pub fn release_range(&mut self, start: u64, size: u64) -> (r: Result<PhysRange, ResourceError>)
        requires
            old(self).wf(),
        ensures
            final(self).wf(),
            (exists|i: int| 0 <= i < old(self)@.len() && (#[trigger] old(self)@[i]).start == start && old(self)@[i].size == size) <==> r is Ok,
            match r {
                Ok(pr) => exists|i: int|
                    0 <= i < old(self)@.len() && #[trigger] old(self)@[i] == pr && pr.start == start
                        && pr.size == size && final(self)@ == old(self)@.remove(i),
                Err(e) => e is NotFound && final(self)@ == old(self)@,
            },
    {
        let ghost s = self.ranges@;
        let mut i: usize = 0;
        while i < self.ranges.len()
            invariant
                self.ranges@ == s,
                s == old(self).ranges@,
                ranges_wf(s),
                0 <= i <= s.len(),
                forall|j: int| 0 <= j < i ==> !((#[trigger] s[j]).start == start && s[j].size == size),
            decreases s.len() - i,
        {
            if self.ranges[i].start == start && self.ranges[i].size == size {
                let removed = self.ranges.remove(i);
                proof {
                    assert(s[i as int] == removed);
                    let n = self.ranges@;
                    assert forall|a: int, b: int| #![trigger n[a], n[b]] 0 <= a < b < n.len() implies range_end(n[a]) <= n[b].start by {
                        let a0 = if a < i { a } else { a + 1 };
                        let b0 = if b < i { b } else { b + 1 };
                        assert(n[a] == s[a0]);
                        assert(n[b] == s[b0]);
                    }
                    assert forall|a: int| 0 <= a < n.len() implies #[trigger] n[a].size > 0 && range_end(n[a]) <= u64::MAX by {
                        let a0 = if a < i { a } else { a + 1 };
                        assert(n[a] == s[a0]);
                    }
                }
                return Ok(removed);
            }
            i = i + 1;
        }
        Err(ResourceError::NotFound)
    }

    /// Allocate `size` bytes (rounded up to whole pages) of contiguous
    /// physical memory aligned to `max(align, PAGE_SIZE)`, whose last byte is
    /// at most `min(max_addr, u32::MAX)`, and reserve it for `owner`.
    pub fn alloc_phys_below(
        &mut self,
        paging: &mut PageManager,
        max_addr: u64,
        size: usize,
        align: usize,
        kind: ResourceKind,
        owner: &'static str,
    ) -> (r: Result<PhysAddr, ResourceError>)
        requires
            old(self).wf(),
        ensures
            final(self).wf(),
            final(paging).dir == old(paging).dir,
            size == 0 ==> r matches Err(ResourceError::ZeroSize),
            size != 0 && !is_pow2_u64(align as u64) ==> r matches Err(ResourceError::InvalidAlignment),
            r is Err ==> final(self)@ == old(self)@,
            (r is Ok) <==> phys_alloc_succeeds(old(self)@, old(paging).next_free_page, max_addr, size, align, kind, owner),
            r matches Ok(p) ==> p.0 == phys_alloc_start(old(paging).next_free_page, align),
            r matches Ok(p) ==> {
                let alloc_size = spec_align_up(size as int, PAGE_SIZE as int);
                let alloc_align = if align >= PAGE_SIZE { align as int } else { PAGE_SIZE as int };
                &&& p.0 as int % alloc_align == 0
                &&& p.0 as int + alloc_size - 1 <= max_addr
                &&& p.0 as int + alloc_size - 1 <= u32::MAX
                &&& exists|x: PhysRange| #[trigger] final(self)@.contains(x) && same_reservation(x, p.0 as u64, alloc_size as u64, kind, owner)
                &&& forall|x: PhysRange| old(self)@.contains(x) ==> #[trigger] final(self)@.contains(x)
                &&& spec_is_free(old(self)@, p.0 as u64, alloc_size as u64) ==> {
                    &&& final(self)@.len() == old(self)@.len() + 1
                    &&& final(self)@.contains(PhysRange { start: p.0 as u64, size: alloc_size as u64, kind, owner })
                }
            },
    {
        if size == 0 {
            return Err(ResourceError::ZeroSize);
        }
        if align == 0 || !is_power_of_two_u64(align as u64) {
            return Err(ResourceError::InvalidAlignment);
        }
        let page: u64 = PAGE_SIZE as u64;
        proof {
            lemma_page_size_pow2();
        }
        let alloc_size = align_up_u64(size as u64, page)?;
        let alloc_align: usize = if align >= PAGE_SIZE { align } else { PAGE_SIZE };
        if !is_power_of_two_u64(alloc_align as u64) {
            return Err(ResourceError::InvalidAlignment);
        }
        let max_addr = if max_addr < u32::MAX as u64 { max_addr } else { u32::MAX as u64 };
        let limit_exclusive = max_addr + 1;
        let max_page_exclusive = (limit_exclusive / page) as u32;
        if alloc_size / page > u32::MAX as u64 || (alloc_align / PAGE_SIZE) as u64 > u32::MAX as u64
            || alloc_align / PAGE_SIZE == 0 {
            return Err(ResourceError::OutOfMemory);
        }
        let pages = (alloc_size / page) as u32;
        let align_pages = (alloc_align / PAGE_SIZE) as u32;
        let first_page = match paging.alloc_contiguous_frames_aligned_below(
            pages,
            align_pages,
            max_page_exclusive,
        ) {
            Ok(f) => f,
            Err(()) => return Err(ResourceError::OutOfMemory),
        };
        let phys: u64 = (first_page as u64) * 4096;
        proof {
            lemma_align_up(size as int, 4096);
            vstd::arithmetic::div_mod::lemma_fundamental_div_mod(alloc_size as int, 4096);
            vstd::arithmetic::div_mod::lemma_fundamental_div_mod(limit_exclusive as int, 4096);
            vstd::arithmetic::div_mod::lemma_fundamental_div_mod(first_page as int, align_pages as int);
            assert(alloc_size as int == pages as int * 4096);
            assert(first_page as int + pages as int <= max_page_exclusive as int);
            assert(phys as int + alloc_size as int <= max_page_exclusive as int * 4096) by (nonlinear_arith)
                requires
                    phys as int == first_page as int * 4096,
                    alloc_size as int == pages as int * 4096,
                    first_page as int + pages as int <= max_page_exclusive as int,
            ;
            assert(max_page_exclusive as int * 4096 <= limit_exclusive as int) by (nonlinear_arith)
                requires
                    limit_exclusive as int == 4096 * (limit_exclusive as int / 4096) + limit_exclusive as int % 4096,
                    max_page_exclusive as int == limit_exclusive as int / 4096,
                    limit_exclusive as int % 4096 >= 0,
            ;
            let aa = alloc_align as u64;
            assert(aa != 0 && aa & ((aa - 1) as u64) == 0 && aa >= 4096 ==> aa % 4096 == 0) by (bit_vector);
            vstd::arithmetic::div_mod::lemma_fundamental_div_mod(alloc_align as int, 4096);
            assert(alloc_align as int == align_pages as int * 4096);
            let k = first_page as int / align_pages as int;
            assert(first_page as int == align_pages as int * k);
            assert(phys as int == k * alloc_align as int) by (nonlinear_arith)
                requires
                    phys as int == first_page as int * 4096,
                    first_page as int == align_pages as int * k,
                    alloc_align as int == align_pages as int * 4096,
            ;
            vstd::arithmetic::div_mod::lemma_mod_multiples_basic(k, alloc_align as int);
        }
        let ghost before = self.ranges@;
        match self.reserve_range(phys, alloc_size, kind, owner) {
            Ok(()) => {},
            Err(e) => {
                let mut frame = first_page;
                while frame < first_page + pages
                    invariant
                        paging.dir == old(paging).dir,
                        first_page as int + pages as int <= u32::MAX,
                    decreases (first_page + pages) - frame,
                {
                    paging.free_phys_frame(frame);
                    frame = frame + 1;
                }
                return Err(e);
            },
        }
        proof {
            if exists|i: int| 0 <= i < before.len() && overlaps(#[trigger] before[i], phys as int, phys + alloc_size) {
                let k = choose|k: int| 0 <= k < before.len() && #[trigger] same_reservation(before[k], phys, alloc_size, kind, owner);
                assert(before[k].owner@ == owner@);
                assert(before.contains(before[k]));
            }
        }
        Ok(PhysAddr(phys as u32))
    }

    /// [`ResourceManager::alloc_phys_below`] anywhere in 32-bit space.
    pub fn alloc_phys(
        &mut self,
        paging: &mut PageManager,
        size: usize,
        align: usize,
        kind: ResourceKind,
        owner: &'static str,
    ) -> (r: Result<PhysAddr, ResourceError>)
        requires
            old(self).wf(),
        ensures
            final(self).wf(),
            size == 0 ==> r matches Err(ResourceError::ZeroSize),
            size != 0 && !is_pow2_u64(align as u64) ==> r matches Err(ResourceError::InvalidAlignment),
            r is Err ==> final(self)@ == old(self)@,
            (r is Ok) <==> phys_alloc_succeeds(old(self)@, old(paging).next_free_page, u32::MAX as u64, size, align, kind, owner),
            r matches Ok(p) ==> p.0 == phys_alloc_start(old(paging).next_free_page, align),
            r matches Ok(p) ==> {
                let alloc_size = spec_align_up(size as int, PAGE_SIZE as int);
                &&& p.0 as int + alloc_size - 1 <= u32::MAX
                &&& exists|x: PhysRange| #[trigger] final(self)@.contains(x) && same_reservation(x, p.0 as u64, alloc_size as u64, kind, owner)
            },
    {
        self.alloc_phys_below(paging, u32::MAX as u64, size, align, kind, owner)
    }
}

/// One allocated window of kernel virtual address space.
#[derive(Clone, Copy, Debug)]
pub struct VirtualRange {
    pub start: u32,
    pub size: u32,
    pub owner: &'static str,
}

/// Outcome of the first-fit search over the allocated windows.
pub enum FitOutcome {
    Found(int),
    Overflow,
    OutOfMemory,
}

/// First-fit search: walk the windows in address order from `k`, keeping a
/// candidate `c` aligned to `align`, and take the first gap of `size` bytes.
pub open spec fn first_fit(s: Seq<VirtualRange>, k: int, c: int, size: int, align: int, end: int) -> FitOutcome
    decreases s.len() - k,
{
    if k >= s.len() || k < 0 {
        if c + size > u32::MAX {
            FitOutcome::Overflow
        } else if c + size > end {
            FitOutcome::OutOfMemory
        } else {
            FitOutcome::Found(c)
        }
    } else if c + size > u32::MAX {
        FitOutcome::Overflow
    } else if c + size <= s[k].start {
        FitOutcome::Found(c)
    } else {
        let re = s[k].start + s[k].size;
        if c < re {
            if re + align - 1 > u32::MAX {
                FitOutcome::Overflow
            } else {
                first_fit(s, k + 1, spec_align_up(re, align), size, align, end)
            }
        } else {
            first_fit(s, k + 1, c, size, align, end)
        }
    }
}

pub open spec fn vrange_end(r: VirtualRange) -> int {
    r.start + r.size
}

/// Allocator for the kernel MMIO virtual window `[base, end)`.
pub struct VirtualRangeAllocator {
    pub base: u32,
    pub end: u32,
    pub ranges: Vec<VirtualRange>,
}

impl View for VirtualRangeAllocator {
    type V = Seq<VirtualRange>;

    open spec fn view(&self) -> Seq<VirtualRange> {
        self.ranges@
    }
}

pub open spec fn vranges_wf(s: Seq<VirtualRange>, base: u32, end: u32) -> bool {
    &&& forall|i: int| 0 <= i < s.len() ==> (#[trigger] s[i]).size > 0 && base <= s[i].start
        && vrange_end(s[i]) <= end
    &&& forall|i: int, j: int| #![trigger s[i], s[j]] 0 <= i < j < s.len() ==> vrange_end(s[i]) <= s[j].start
}

impl VirtualRangeAllocator {
    pub open spec fn wf(&self) -> bool {
        vranges_wf(self.ranges@, self.base, self.end)
    }

    pub fn new(base: u32, end: u32) -> (r: Self)
        ensures
            r.wf(),
            r.base == base,
            r.end == end,
            r@ == Seq::<VirtualRange>::empty(),
    {
        VirtualRangeAllocator { base, end, ranges: Vec::new() }
    }

    /// First-fit allocation of `size` bytes (rounded up to pages) aligned to
    /// `max(align, PAGE_SIZE)`.
    pub fn alloc_kernel_virtual(&mut self, size: usize, align: usize, owner: &'static str) -> (r: Result<VirtAddr, ResourceError>)
        requires
            old(self).wf(),
        ensures
            final(self).wf(),
            final(self).base == old(self).base,
            final(self).end == old(self).end,
            size == 0 ==> r matches Err(ResourceError::ZeroSize),
            size != 0 && !is_pow2_u64(align as u64) ==> r matches Err(ResourceError::InvalidAlignment),
            r is Err ==> final(self)@ == old(self)@,
            size != 0 && is_pow2_u64(align as u64) && spec_align_up(size as int, PAGE_SIZE as int) <= u32::MAX ==> {
                let sz = spec_align_up(size as int, PAGE_SIZE as int);
                let al = if align >= PAGE_SIZE { align as int } else { PAGE_SIZE as int };
                let c0 = spec_align_up(old(self).base as int, al);
                if al > u32::MAX {
                    r matches Err(ResourceError::InvalidAlignment)
                } else if old(self).base as int + al - 1 > u32::MAX {
                    r matches Err(ResourceError::Overflow)
                } else {
                    match first_fit(old(self)@, 0, c0, sz, al, old(self).end as int) {
                        FitOutcome::Found(a) => r matches Ok(v) && v.0 == a,
                        FitOutcome::Overflow => r matches Err(ResourceError::Overflow),
                        FitOutcome::OutOfMemory => r matches Err(ResourceError::OutOfMemory),
                    }
                }
            },
            r matches Ok(v) ==> {
                let sz = spec_align_up(size as int, PAGE_SIZE as int);
                let al = if align >= PAGE_SIZE { align as int } else { PAGE_SIZE as int };
                &&& v.0 as int % al == 0
                &&& old(self).base <= v.0
                &&& v.0 + sz <= old(self).end
                &&& forall|i: int| 0 <= i < old(self)@.len() ==> vrange_end(#[trigger] old(self)@[i]) <= v.0
                    || v.0 + sz <= old(self)@[i].start
                &&& final(self)@.len() == old(self)@.len() + 1
                &&& final(self)@.contains(VirtualRange { start: v.0, size: sz as u32, owner })
                &&& forall|x: VirtualRange| old(self)@.contains(x) ==> #[trigger] final(self)@.contains(x)
                &&& exists|k: int| 0 <= k <= old(self)@.len()
                    && final(self)@ == #[trigger] old(self)@.insert(k, VirtualRange { start: v.0, size: sz as u32, owner })
            },
    {
        if size == 0 {
            return Err(ResourceError::ZeroSize);
        }
        if align == 0 || !is_power_of_two_u64(align as u64) {
            return Err(ResourceError::InvalidAlignment);
        }
        proof {
            lemma_page_size_pow2();
            lemma_align_up(size as int, 4096);
        }
        let sz64 = align_up_u64(size as u64, PAGE_SIZE as u64)?;
        if sz64 > u32::MAX as u64 {
            return Err(ResourceError::Overflow);
        }
        let sz = sz64 as u32;
        let al_us: usize = if align >= PAGE_SIZE { align } else { PAGE_SIZE };
        if al_us as u64 > u32::MAX as u64 {
            return Err(ResourceError::InvalidAlignment);
        }
        let al = al_us as u32;
        proof {
            lemma_align_up(self.base as int, al as int);
        }
        let mut cursor = align_up_u32(self.base, al)?;

        let mut k: usize = 0;
        while k < self.ranges.len()
            invariant
                self.ranges@ == old(self).ranges@,
                self.base == old(self).base,
                self.end == old(self).end,
                vranges_wf(self.ranges@, self.base, self.end),
                0 <= k <= self.ranges@.len(),
                sz as int == spec_align_up(size as int, PAGE_SIZE as int),
                sz > 0,
                al as int == (if align >= PAGE_SIZE { align as int } else { PAGE_SIZE as int }),
                is_pow2_u64(al as u64),
                is_pow2_u64(align as u64),
                size != 0,
                self.base as int + al as int - 1 <= u32::MAX,
                al > 0,
                cursor as int % al as int == 0,
                cursor >= self.base,
                forall|j: int| 0 <= j < k ==> vrange_end(#[trigger] self.ranges@[j]) <= cursor,
                first_fit(self.ranges@, 0, spec_align_up(self.base as int, al as int), sz as int, al as int, self.end as int)
                    == first_fit(self.ranges@, k as int, cursor as int, sz as int, al as int, self.end as int),
            decreases self.ranges@.len() - k,
        {
            let r = self.ranges[k];
            let candidate_end = match cursor.checked_add(sz) {
                Some(e) => e,
                None => return Err(ResourceError::Overflow),
            };
            if candidate_end <= r.start {
                proof {
                    assert forall|j: int| k <= j < self.ranges@.len() implies cursor + sz <= (#[trigger] self.ranges@[j]).start by {
                        if j > k {
                            assert(vrange_end(self.ranges@[k as int]) <= self.ranges@[j].start);
                        }
                    }
                }
                assert(first_fit(self.ranges@, k as int, cursor as int, sz as int, al as int, self.end as int)
                    == FitOutcome::Found(cursor as int));
                assert(first_fit(old(self)@, 0, spec_align_up(old(self).base as int, al as int), sz as int, al as int, old(self).end as int)
                    == FitOutcome::Found(cursor as int));
                let new_range = VirtualRange { start: cursor, size: sz, owner };
                let ghost before = self.ranges@;
                let res = self.insert_at(k, new_range);
                proof {
                    assert(before == old(self)@);
                    assert(self.ranges@[k as int] == new_range);
                    assert(self.ranges@.contains(new_range));
                    assert forall|x: VirtualRange| before.contains(x) implies #[trigger] self.ranges@.contains(x) by {
                        let j = choose|j: int| 0 <= j < before.len() && before[j] == x;
                        if j < k { assert(self.ranges@[j] == x); } else { assert(self.ranges@[j + 1] == x); }
                    }
                }
                return res;
            }
            let r_end = r.start + r.size;
            if cursor < r_end {
                proof {
                    lemma_align_up(r_end as int, al as int);
                }
                let next = align_up_u32(r_end, al)?;
                proof {
                    assert forall|j: int| 0 <= j < k + 1 implies vrange_end(#[trigger] self.ranges@[j]) <= next by {
                        if j < k {
                            assert(vrange_end(self.ranges@[j]) <= self.ranges@[k as int].start);
                        }
                    }
                }
                cursor = next;
            }
            k = k + 1;
        }
        let candidate_end = match cursor.checked_add(sz) {
            Some(e) => e,
            None => return Err(ResourceError::Overflow),
        };
        if candidate_end > self.end {
            return Err(ResourceError::OutOfMemory);
        }
        let n = self.ranges.len();
        let new_range = VirtualRange { start: cursor, size: sz, owner };
        let ghost before = self.ranges@;
        let res = self.insert_at(n, new_range);
        proof {
            assert(before == old(self)@);
            assert(self.ranges@[n as int] == new_range);
            assert(self.ranges@.contains(new_range));
            assert forall|x: VirtualRange| before.contains(x) implies #[trigger] self.ranges@.contains(x) by {
                let j = choose|j: int| 0 <= j < before.len() && before[j] == x;
                assert(self.ranges@[j] == x);
            }
        }
        res
    }

    /// Insert a window that fits between its neighbours.
    fn insert_at(&mut self, k: usize, v: VirtualRange) -> (r: Result<VirtAddr, ResourceError>)
        requires
            old(self).wf(),
            k <= old(self)@.len(),
            v.size > 0,
            old(self).base <= v.start,
            vrange_end(v) <= old(self).end,
            forall|j: int| 0 <= j < k ==> vrange_end(#[trigger] old(self)@[j]) <= v.start,
            k < old(self)@.len() ==> vrange_end(v) <= old(self)@[k as int].start,
        ensures
            final(self).wf(),
            final(self).base == old(self).base,
            final(self).end == old(self).end,
            final(self)@ == old(self)@.insert(k as int, v),
            r matches Ok(a) && a.0 == v.start,
    {
        let ghost s = self.ranges@;
        self.ranges.insert(k, v);
        proof {
            let n = self.ranges@;
            assert forall|a: int, b: int| #![trigger n[a], n[b]] 0 <= a < b < n.len() implies vrange_end(n[a]) <= n[b].start by {
                if b < k {
                } else if b == k {
                } else if a < k {
                    assert(n[b] == s[b - 1]);
                    if k < s.len() {
                        assert(vrange_end(s[a]) <= v.start);
                    }
                } else if a == k {
                    assert(n[b] == s[b - 1]);
                    if b - 1 > k {
                        assert(vrange_end(s[k as int]) <= s[b - 1].start);
                    }
                } else {
                    assert(n[a] == s[a - 1]);
                    assert(n[b] == s[b - 1]);
                }
            }
            assert forall|a: int| 0 <= a < n.len() implies (#[trigger] n[a]).size > 0 && self.base <= n[a].start
                && vrange_end(n[a]) <= self.end by {
                if a < k {
                } else if a > k {
                    assert(n[a] == s[a - 1]);
                }
            }
        }
        Ok(VirtAddr(v.start))
    }

    /// Release the window that starts at `start` and spans `size` bytes
    /// (rounded up to pages, as at allocation).
    pub fn free_kernel_virtual(&mut self, start: VirtAddr, size: usize) -> (r: Result<(), ResourceError>)
        requires
            old(self).wf(),
        ensures
            final(self).wf(),
            final(self).base == old(self).base,
            final(self).end == old(self).end,
            size as int + PAGE_SIZE - 1 > u64::MAX ==> r matches Err(ResourceError::Overflow),
            size as int + PAGE_SIZE - 1 <= u64::MAX ==> {
                let sz = spec_align_up(size as int, PAGE_SIZE as int) as u64 as u32;
                &&& (exists|i: int| 0 <= i < old(self)@.len() && (#[trigger] old(self)@[i]).start == start.0
                    && old(self)@[i].size == sz) <==> r is Ok
                &&& r is Ok ==> exists|i: int| 0 <= i < old(self)@.len() && (#[trigger] old(self)@[i]).start
                    == start.0 && old(self)@[i].size == sz && final(self)@ == old(self)@.remove(i)
            },
            r is Err ==> final(self)@ == old(self)@,
    {
        proof {
            lemma_page_size_pow2();
        }
        proof {
            lemma_align_up(size as int, 4096);
        }
        let sz = align_up_u64(size as u64, PAGE_SIZE as u64)? as u32;
        let ghost s = self.ranges@;
        let mut i: usize = 0;
        while i < self.ranges.len()
            invariant
                self.ranges@ == s,
                s == old(self).ranges@,
                size as int + PAGE_SIZE - 1 <= u64::MAX,
                sz == spec_align_up(size as int, PAGE_SIZE as int) as u64 as u32,
                self.base == old(self).base,
                self.end == old(self).end,
                vranges_wf(s, self.base, self.end),
                0 <= i <= s.len(),
                forall|j: int| 0 <= j < i ==> !((#[trigger] s[j]).start == start.0 && s[j].size == sz),
            decreases s.len() - i,
        {
            if self.ranges[i].start == start.0 && self.ranges[i].size == sz {
                self.ranges.remove(i);
                proof {
                    assert(s[i as int].start == start.0 && s[i as int].size == sz);
                    assert(self.ranges@ == s.remove(i as int));
                    assert(old(self)@[i as int].start == start.0 && old(self)@[i as int].size == sz && self@ == old(self)@.remove(i as int));
                    let n = self.ranges@;
                    assert forall|a: int, b: int| #![trigger n[a], n[b]] 0 <= a < b < n.len() implies vrange_end(n[a]) <= n[b].start by {
                        let a0 = if a < i { a } else { a + 1 };
                        let b0 = if b < i { b } else { b + 1 };
                        assert(n[a] == s[a0]);
                        assert(n[b] == s[b0]);
                    }
                    assert forall|a: int| 0 <= a < n.len() implies (#[trigger] n[a]).size > 0 && self.base <= n[a].start
                        && vrange_end(n[a]) <= self.end by {
                        let a0 = if a < i { a } else { a + 1 };
                        assert(n[a] == s[a0]);
                    }
                }
                return Ok(());
            }
            i = i + 1;
        }
        Err(ResourceError::NotFound)
    }
}

/// A mapping of a device range into the kernel MMIO window, reserved
/// physically and mapped virtually until released.
#[derive(Debug)]
pub struct MmioMapping {
    pub virt: VirtAddr,
    pub phys: u64,
    pub size: usize,
    pub mapped: bool,
    pub reserved: bool,
}

impl MmioMapping {
    pub fn as_usize(&self) -> (r: usize)
        ensures
            r == self.virt.0,
    {
        self.virt.0 as usize
    }
}

/// A physically contiguous DMA allocation with its kernel mapping.
#[derive(Debug)]
pub struct DmaBuffer {
    pub phys: PhysAddr,
    pub virt: VirtAddr,
    pub len: usize,
    pub alloc_len: usize,
    pub owner: &'static str,
    pub released: bool,
}

impl DmaBuffer {
    /// Bus address of `[ptr, ptr + len)`, which must lie inside the buffer.
    pub fn phys_of(&self, ptr: usize, len: usize) -> (r: Result<PhysAddr, ResourceError>)
        ensures
            ptr < self.virt.0 ==> r matches Err(ResourceError::NotFound),
            ptr >= self.virt.0 && ptr - self.virt.0 + len > usize::MAX ==> r matches Err(ResourceError::Overflow),
            ptr >= self.virt.0 && ptr - self.virt.0 + len <= usize::MAX && ptr - self.virt.0 + len > self.len
                ==> r matches Err(ResourceError::NotFound),
            ptr >= self.virt.0 && ptr - self.virt.0 + len <= self.len && self.phys.0 + (ptr - self.virt.0)
                > u32::MAX ==> r matches Err(ResourceError::Overflow),
            ptr >= self.virt.0 && ptr - self.virt.0 + len <= self.len && self.phys.0 + (ptr - self.virt.0)
                <= u32::MAX ==> r == Ok::<PhysAddr, ResourceError>(PhysAddr((self.phys.0 + (ptr - self.virt.0)) as u32)),
    {
        let base = self.virt.0 as usize;
        let offset = match ptr.checked_sub(base) {
            Some(o) => o,
            None => return Err(ResourceError::NotFound),
        };
        let end = match offset.checked_add(len) {
            Some(e) => e,
            None => return Err(ResourceError::Overflow),
        };
        if end > self.len {
            return Err(ResourceError::NotFound);
        }
        let phys = match (self.phys.0 as u64).checked_add(offset as u64) {
            Some(p) => p,
            None => return Err(ResourceError::Overflow),
        };
        if phys > u32::MAX as u64 {
            return Err(ResourceError::Overflow);
        }
        Ok(PhysAddr(phys as u32))
    }

    /// Kernel-virtual address of the first byte.
    pub fn as_mut_ptr(&self) -> (r: usize)
        ensures
            r == self.virt.0,
    {
        self.virt.0 as usize
    }

    /// Bytes actually allocated (whole pages).
    pub fn allocated_len(&self) -> (r: usize)
        ensures
            r == self.alloc_len,
    {
        self.alloc_len
    }
}

/// [`ResourceManager::reserve_range`] on the system resource map.
pub fn reserve_range(
    rm: &mut ResourceManager,
    start: u64,
    size: u64,
    kind: ResourceKind,
    owner: &'static str,
) -> (r: Result<(), ResourceError>)
    requires
        old(rm).wf(),
    ensures
        final(rm).wf(),
        size == 0 ==> r matches Err(ResourceError::ZeroSize),
        size != 0 && start + size > u64::MAX ==> r matches Err(ResourceError::Overflow),
        r is Err ==> final(rm)@ == old(rm)@,
        spec_is_free(old(rm)@, start, size) ==> r is Ok && final(rm)@.len() == old(rm)@.len() + 1
            && final(rm)@.contains(PhysRange { start, size, kind, owner })
            && (forall|x: PhysRange| old(rm)@.contains(x) ==> #[trigger] final(rm)@.contains(x))
            && (forall|x: PhysRange| #[trigger] final(rm)@.contains(x) ==> old(rm)@.contains(x)
                || x == (PhysRange { start, size, kind, owner })),
        size != 0 && start + size <= u64::MAX && !spec_is_free(old(rm)@, start, size) ==> final(rm)@ == old(rm)@
            && ((exists|i: int| 0 <= i < old(rm)@.len() && #[trigger] same_reservation(old(rm)@[i], start, size, kind, owner))
                <==> r is Ok),
{
    rm.reserve_range(start, size, kind, owner)
}

/// [`ResourceManager::release_range`] on the system resource map.
pub fn release_range(rm: &mut ResourceManager, start: u64, size: u64) -> (r: Result<PhysRange, ResourceError>)
    requires
        old(rm).wf(),
    ensures
        final(rm).wf(),
        (exists|i: int| 0 <= i < old(rm)@.len() && (#[trigger] old(rm)@[i]).start == start && old(rm)@[i].size == size) <==> r is Ok,
        match r {
            Ok(pr) => exists|i: int|
                0 <= i < old(rm)@.len() && #[trigger] old(rm)@[i] == pr && final(rm)@ == old(rm)@.remove(i),
            Err(e) => e is NotFound && final(rm)@ == old(rm)@,
        },
{
    rm.release_range(start, size)
}

/// [`ResourceManager::is_free`] on the system resource map.
pub fn is_free(rm: &ResourceManager, start: u64, size: u64) -> (r: bool)
    requires
        rm.wf(),
    ensures
        r == spec_is_free(rm@, start, size),
{
    rm.is_free(start, size)
}

/// [`ResourceManager::alloc_phys`] on the system resource map.
pub fn alloc_phys(
    rm: &mut ResourceManager,
    paging: &mut PageManager,
    size: usize,
    align: usize,
    kind: ResourceKind,
    owner: &'static str,
) -> (r: Result<PhysAddr, ResourceError>)
    requires
        old(rm).wf(),
    ensures
        final(rm).wf(),
        size == 0 ==> r matches Err(ResourceError::ZeroSize),
        size != 0 && !is_pow2_u64(align as u64) ==> r matches Err(ResourceError::InvalidAlignment),
        r is Err ==> final(rm)@ == old(rm)@,
        (r is Ok) <==> phys_alloc_succeeds(old(rm)@, old(paging).next_free_page, u32::MAX as u64, size, align, kind, owner),
        r matches Ok(p) ==> p.0 == phys_alloc_start(old(paging).next_free_page, align),
        r matches Ok(p) ==> exists|x: PhysRange| #[trigger] final(rm)@.contains(x) && same_reservation(
            x,
            p.0 as u64,
            spec_align_up(size as int, PAGE_SIZE as int) as u64,
            kind,
            owner,
        ),
{
    rm.alloc_phys(paging, size, align, kind, owner)
}

/// [`ResourceManager::alloc_phys_below`] on the system resource map.
pub fn alloc_phys_below(
    rm: &mut ResourceManager,
    paging: &mut PageManager,
    max_addr: u64,
    size: usize,
    align: usize,
    kind: ResourceKind,
    owner: &'static str,
) -> (r: Result<PhysAddr, ResourceError>)
    requires
        old(rm).wf(),
    ensures
        final(rm).wf(),
        size == 0 ==> r matches Err(ResourceError::ZeroSize),
        size != 0 && !is_pow2_u64(align as u64) ==> r matches Err(ResourceError::InvalidAlignment),
        r is Err ==> final(rm)@ == old(rm)@,
        (r is Ok) <==> phys_alloc_succeeds(old(rm)@, old(paging).next_free_page, max_addr, size, align, kind, owner),
        r matches Ok(p) ==> p.0 == phys_alloc_start(old(paging).next_free_page, align),
        r matches Ok(p) ==> {
            &&& p.0 as int + spec_align_up(size as int, PAGE_SIZE as int) - 1 <= max_addr
            &&& exists|x: PhysRange| #[trigger] final(rm)@.contains(x) && same_reservation(
                x,
                p.0 as u64,
                spec_align_up(size as int, PAGE_SIZE as int) as u64,
                kind,
                owner,
            )
        },
{
    rm.alloc_phys_below(paging, max_addr, size, align, kind, owner)
}

/// [`VirtualRangeAllocator::alloc_kernel_virtual`] on the kernel window.
pub fn alloc_kernel_virtual(
    va: &mut VirtualRangeAllocator,
    size: usize,
    align: usize,
    owner: &'static str,
) -> (r: Result<VirtAddr, ResourceError>)
    requires
        old(va).wf(),
    ensures
        final(va).wf(),
        size == 0 ==> r matches Err(ResourceError::ZeroSize),
        size != 0 && !is_pow2_u64(align as u64) ==> r matches Err(ResourceError::InvalidAlignment),
        r is Err ==> final(va)@ == old(va)@,
        size != 0 && is_pow2_u64(align as u64) && spec_align_up(size as int, PAGE_SIZE as int) <= u32::MAX ==> {
            let sz = spec_align_up(size as int, PAGE_SIZE as int);
            let al = if align >= PAGE_SIZE { align as int } else { PAGE_SIZE as int };
            let c0 = spec_align_up(old(va).base as int, al);
            if al > u32::MAX {
                r matches Err(ResourceError::InvalidAlignment)
            } else if old(va).base as int + al - 1 > u32::MAX {
                r matches Err(ResourceError::Overflow)
            } else {
                match first_fit(old(va)@, 0, c0, sz, al, old(va).end as int) {
                    FitOutcome::Found(a) => r matches Ok(v) && v.0 == a,
                    FitOutcome::Overflow => r matches Err(ResourceError::Overflow),
                    FitOutcome::OutOfMemory => r matches Err(ResourceError::OutOfMemory),
                }
            }
        },
        r matches Ok(v) ==> {
            let sz = spec_align_up(size as int, PAGE_SIZE as int);
            &&& old(va).base <= v.0
            &&& v.0 + sz <= old(va).end
            &&& forall|i: int| 0 <= i < old(va)@.len() ==> vrange_end(#[trigger] old(va)@[i]) <= v.0
                || v.0 + sz <= old(va)@[i].start
            &&& final(va)@.contains(VirtualRange { start: v.0, size: sz as u32, owner })
        },
{
    va.alloc_kernel_virtual(size, align, owner)
}

/// [`VirtualRangeAllocator::free_kernel_virtual`] on the kernel window.
pub fn free_kernel_virtual(va: &mut VirtualRangeAllocator, virt: VirtAddr, size: usize) -> (r: Result<(), ResourceError>)
    requires
        old(va).wf(),
    ensures
        final(va).wf(),
        r is Err ==> final(va)@ == old(va)@,
        size as int + PAGE_SIZE - 1 <= u64::MAX ==> {
            let sz = spec_align_up(size as int, PAGE_SIZE as int) as u64 as u32;
            (exists|i: int| 0 <= i < old(va)@.len() && (#[trigger] old(va)@[i]).start == virt.0
                && old(va)@[i].size == sz) <==> r is Ok
        },
{
    va.free_kernel_virtual(virt, size)
}

/// Page-aligned physical base of the window that covers `phys`.
pub open spec fn io_base(phys: u64) -> int {
    phys as int - phys as int % PAGE_SIZE as int
}

/// Offset of `phys` inside its first page.
pub open spec fn io_offset(phys: u64) -> int {
    phys as int % PAGE_SIZE as int
}

/// Whole-page length of the window that covers `[phys, phys + size)`.
pub open spec fn io_map_size(phys: u64, size: usize) -> int {
    spec_align_up(size + io_offset(phys), PAGE_SIZE as int)
}

/// The request passes every check made before the virtual window is
/// allocated.
pub open spec fn io_request_ok(phys: u64, size: usize) -> bool {
    &&& size != 0
    &&& phys <= u32::MAX
    &&& size + io_offset(phys) + PAGE_SIZE - 1 <= u64::MAX
    &&& io_base(phys) + io_map_size(phys, size) <= 0x1_0000_0000
}

/// The error [`ioremap`] answers a non-empty request with, or `None` where
/// it maps the window: the checks of [`ioremap_window`] in their order, then
/// the first-fit search of the kernel MMIO window `vs` over `[base, end)`.
pub open spec fn ioremap_error(vs: Seq<VirtualRange>, base: u32, end: u32, phys: u64, size: usize) -> Option<ResourceError> {
    let ms = io_map_size(phys, size);
    if phys > u32::MAX {
        Some(ResourceError::AddressTooHigh)
    } else if size + io_offset(phys) + PAGE_SIZE - 1 > u64::MAX {
        Some(ResourceError::Overflow)
    } else if io_base(phys) + ms > u64::MAX {
        Some(ResourceError::Overflow)
    } else if io_base(phys) + ms > 0x1_0000_0000 {
        Some(ResourceError::AddressTooHigh)
    } else if ms > u32::MAX {
        Some(ResourceError::Overflow)
    } else if base as int + PAGE_SIZE - 1 > u32::MAX {
        Some(ResourceError::Overflow)
    } else {
        match first_fit(vs, 0, spec_align_up(base as int, PAGE_SIZE as int), ms, PAGE_SIZE as int, end as int) {
            FitOutcome::Found(_) => None,
            FitOutcome::Overflow => Some(ResourceError::Overflow),
            FitOutcome::OutOfMemory => Some(ResourceError::OutOfMemory),
        }
    }
}

/// A reservation of `[start, start + size)` for `owner` goes through: the
/// range is non-empty, fits in 64 bits, and is free or already held by
/// exactly this reservation.
pub open spec fn reservation_ok(s: Seq<PhysRange>, start: u64, size: u64, kind: ResourceKind, owner: &str) -> bool {
    &&& size != 0
    &&& start + size <= u64::MAX
    &&& (spec_is_free(s, start, size) || exists|i: int|
        0 <= i < s.len() && #[trigger] same_reservation(s[i], start, size, kind, owner))
}

/// A live MMIO mapping: `map_size` bytes of the physical window at
/// `phys_base` mapped at `map_base`; the caller's address is `returned`.
#[derive(Clone, Copy, Debug)]
pub struct IoMapRecord {
    pub returned: VirtAddr,
    pub map_base: VirtAddr,
    pub map_size: u32,
    pub phys_base: u32,
    pub owner: &'static str,
}

/// The window part of [`ioremap`]: check the request, compute the
/// page-aligned window around `[phys, phys + size)` and allocate virtual
/// space for it in the kernel MMIO window; `returned` is the address of
/// `phys` itself.
pub fn ioremap_window(va: &mut VirtualRangeAllocator, phys: u64, size: usize, owner: &'static str) -> (r: Result<IoMapRecord, ResourceError>)
    requires
        old(va).wf(),
    ensures
        final(va).wf(),
        final(va).base == old(va).base,
        final(va).end == old(va).end,
        r is Err ==> final(va)@ == old(va)@,
        size == 0 ==> r matches Err(ResourceError::ZeroSize),
        size != 0 && phys > u32::MAX ==> r matches Err(ResourceError::AddressTooHigh),
        size != 0 && phys <= u32::MAX && size + io_offset(phys) + PAGE_SIZE - 1 > u64::MAX
            ==> r matches Err(ResourceError::Overflow),
        size != 0 && phys <= u32::MAX && size + io_offset(phys) + PAGE_SIZE - 1 <= u64::MAX
            && io_base(phys) + io_map_size(phys, size) > u64::MAX ==> r matches Err(ResourceError::Overflow),
        size != 0 && phys <= u32::MAX && size + io_offset(phys) + PAGE_SIZE - 1 <= u64::MAX
            && io_base(phys) + io_map_size(phys, size) <= u64::MAX
            && io_base(phys) + io_map_size(phys, size) > 0x1_0000_0000 ==> r matches Err(ResourceError::AddressTooHigh),
        io_request_ok(phys, size) && io_map_size(phys, size) > u32::MAX ==> r matches Err(ResourceError::Overflow),
        io_request_ok(phys, size) && io_map_size(phys, size) <= u32::MAX && old(va).base as int + PAGE_SIZE - 1 <= u32::MAX ==> {
            let ms = io_map_size(phys, size);
            match first_fit(old(va)@, 0, spec_align_up(old(va).base as int, PAGE_SIZE as int), ms, PAGE_SIZE as int, old(va).end as int) {
                FitOutcome::Found(a) => r matches Ok(rec) && rec.map_base.0 == a,
                FitOutcome::Overflow => r matches Err(ResourceError::Overflow),
                FitOutcome::OutOfMemory => r matches Err(ResourceError::OutOfMemory),
            }
        },
        io_request_ok(phys, size) && io_map_size(phys, size) <= u32::MAX && old(va).base as int + PAGE_SIZE - 1 > u32::MAX
            ==> r matches Err(ResourceError::Overflow),
        r matches Ok(rec) ==> {
            let ms = io_map_size(phys, size);
            &&& io_request_ok(phys, size)
            &&& rec.phys_base == io_base(phys)
            &&& rec.map_size == ms
            &&& rec.returned.0 == rec.map_base.0 + io_offset(phys)
            &&& rec.owner == owner
            &&& rec.map_base.0 as int % PAGE_SIZE as int == 0
            &&& old(va).base <= rec.map_base.0
            &&& rec.map_base.0 + ms <= old(va).end
            &&& forall|i: int| 0 <= i < old(va)@.len() ==> vrange_end(#[trigger] old(va)@[i]) <= rec.map_base.0
                || rec.map_base.0 + ms <= old(va)@[i].start
            &&& final(va)@.len() == old(va)@.len() + 1
            &&& final(va)@.contains(VirtualRange { start: rec.map_base.0, size: ms as u32, owner })
            &&& forall|x: VirtualRange| old(va)@.contains(x) ==> #[trigger] final(va)@.contains(x)
        },
{
    if size == 0 {
        return Err(ResourceError::ZeroSize);
    }
    if phys > u32::MAX as u64 {
        return Err(ResourceError::AddressTooHigh);
    }
    let offset = phys % (PAGE_SIZE as u64);
    proof {
        vstd::arithmetic::div_mod::lemma_fundamental_div_mod(phys as int, 4096);
        assert(phys / 4096 >= 0);
        assert(4096 * (phys as int / 4096) >= 0) by (nonlinear_arith)
            requires
                phys as int / 4096 >= 0,
        ;
    }
    let phys_base = phys - offset;
    let span = match (size as u64).checked_add(offset) {
        Some(s) => s,
        None => return Err(ResourceError::Overflow),
    };
    proof {
        lemma_page_size_pow2();
        lemma_align_up(span as int, 4096);
    }
    let map_size = align_up_u64(span, PAGE_SIZE as u64)?;
    let window_end = match phys_base.checked_add(map_size) {
        Some(e) => e,
        None => return Err(ResourceError::Overflow),
    };
    if window_end > (u32::MAX as u64) + 1 {
        return Err(ResourceError::AddressTooHigh);
    }
    if map_size > u32::MAX as u64 {
        return Err(ResourceError::Overflow);
    }
    proof {
        lemma_align_up(map_size as int, 4096);
    }
    let map_base = va.alloc_kernel_virtual(map_size as usize, PAGE_SIZE, owner)?;
    assert(old(va).base <= map_base.0 && map_base.0 + map_size <= old(va).end);
    let returned = VirtAddr(map_base.0 + offset as u32);
    Ok(IoMapRecord { returned, map_base, map_size: map_size as u32, phys_base: phys_base as u32, owner })
}

/// Page flags of an MMIO mapping: present, writable, write-through and
/// cache-disabled.
pub open spec fn mmio_flags() -> PTEFlags {
    PTEFlags((((0u32 | PTE_PRESENT) | PTE_WRITABLE) | PTE_WRITE_THROUGH) | PTE_CACHE_DISABLE)
}

/// Map the physical device range `[phys, phys + size)` uncached into the
/// kernel MMIO window: [`ioremap_window`], then every page of the window
/// mapped (page tables made from the next frames where the directory has
/// none) and the mapping recorded for [`iounmap`]. Returns the record
/// (`returned` is the address of `phys`) and, page by page, the table
/// stores to make. Physical ownership is reserved separately.
pub fn ioremap(
    va: &mut VirtualRangeAllocator,
    pm: &mut PageManager,
    maps: &mut IoMappings,
    phys: u64,
    size: usize,
    owner: &'static str,
) -> (r: Result<(IoMapRecord, Vec<(PteWrite, Option<u32>)>), ResourceError>)
    requires
        old(va).wf(),
        old(pm).wf(),
        old(pm).next_free_page + size as int / 0x40_0000 + 3 <= MAX_PAGE,
    ensures
        final(va).wf(),
        final(va).base == old(va).base,
        final(va).end == old(va).end,
        r is Err ==> final(va)@ == old(va)@ && final(pm).dir@ == old(pm).dir@ && final(pm).next_free_page == old(pm).next_free_page
            && final(maps)@ == old(maps)@,
        size == 0 ==> r matches Err(ResourceError::ZeroSize),
        size != 0 && phys > u32::MAX ==> r matches Err(ResourceError::AddressTooHigh),
        size != 0 && phys <= u32::MAX && size + io_offset(phys) + PAGE_SIZE - 1 > u64::MAX
            ==> r matches Err(ResourceError::Overflow),
        size != 0 && phys <= u32::MAX && size + io_offset(phys) + PAGE_SIZE - 1 <= u64::MAX
            && io_base(phys) + io_map_size(phys, size) > u64::MAX ==> r matches Err(ResourceError::Overflow),
        size != 0 && phys <= u32::MAX && size + io_offset(phys) + PAGE_SIZE - 1 <= u64::MAX
            && io_base(phys) + io_map_size(phys, size) <= u64::MAX
            && io_base(phys) + io_map_size(phys, size) > 0x1_0000_0000 ==> r matches Err(ResourceError::AddressTooHigh),
        io_request_ok(phys, size) && io_map_size(phys, size) > u32::MAX ==> r matches Err(ResourceError::Overflow),
        io_request_ok(phys, size) && io_map_size(phys, size) <= u32::MAX && old(va).base as int + PAGE_SIZE - 1 <= u32::MAX ==> {
            let ms = io_map_size(phys, size);
            match first_fit(old(va)@, 0, spec_align_up(old(va).base as int, PAGE_SIZE as int), ms, PAGE_SIZE as int, old(va).end as int) {
                FitOutcome::Found(a) => r matches Ok((rec, _)) && rec.map_base.0 == a,
                FitOutcome::Overflow => r matches Err(ResourceError::Overflow),
                FitOutcome::OutOfMemory => r matches Err(ResourceError::OutOfMemory),
            }
        },
        io_request_ok(phys, size) && io_map_size(phys, size) <= u32::MAX && old(va).base as int + PAGE_SIZE - 1 > u32::MAX
            ==> r matches Err(ResourceError::Overflow),
        r matches Ok((rec, ws)) ==> {
            let ms = io_map_size(phys, size);
            &&& io_request_ok(phys, size)
            &&& rec.phys_base == io_base(phys)
            &&& rec.map_size == ms
            &&& rec.returned.0 == rec.map_base.0 + io_offset(phys)
            &&& rec.owner == owner
            &&& rec.map_base.0 as int % PAGE_SIZE as int == 0
            &&& old(va).base <= rec.map_base.0
            &&& rec.map_base.0 + ms <= old(va).end
            &&& forall|i: int| 0 <= i < old(va)@.len() ==> vrange_end(#[trigger] old(va)@[i]) <= rec.map_base.0
                || rec.map_base.0 + ms <= old(va)@[i].start
            &&& final(va)@.len() == old(va)@.len() + 1
            &&& final(va)@.contains(VirtualRange { start: rec.map_base.0, size: ms as u32, owner })
            &&& forall|x: VirtualRange| old(va)@.contains(x) ==> #[trigger] final(va)@.contains(x)
            &&& final(maps)@ == old(maps)@.push(rec)
            &&& ws@.len() == ms / 4096
            &&& forall|k: int| 0 <= k < ws@.len() ==> maps_page(final(pm).dir@, (#[trigger] ws@[k]).0, rec.map_base.0,
                rec.phys_base, mmio_flags(), k)
            &&& forall|i: int| 0 <= i < ENTRIES && old(pm).dir@[i] & PDE_PRESENT != 0 ==> #[trigger] final(pm).dir@[i] == old(pm).dir@[i]
        },
{
    let rec = ioremap_window(va, phys, size, owner)?;
    let ms = rec.map_size;
    proof {
        let pages = range_pages(ms);
        assert(ms as int % 4096 == 0);
        assert(pages == ms as int / 4096) by {
            vstd::arithmetic::div_mod::lemma_fundamental_div_mod(ms as int, 4096);
        }
        assert(rec.map_base.0 + 4096 * pages == rec.map_base.0 + ms);
        assert(rec.phys_base + 4096 * pages == rec.phys_base + ms);
        lemma_window_tables(rec.map_base.0, ms, size, io_offset(phys));
    }
    let flags = PTEFlags::new().present().writable().write_through().cache_disable();
    let ws = pm.map_physical_range(rec.phys_base, ms, rec.map_base.0, flags);
    maps.record(rec);
    Ok((rec, ws))
}

/// A window of `ms` bytes (`ms` = `size + off` rounded up to pages) touches
/// at most `size / 4 MiB + 3` directory entries.
proof fn lemma_window_tables(base: u32, ms: u32, size: usize, off: int)
    requires
        ms as int % 4096 == 0,
        ms > 0,
        0 <= off < 4096,
        ms < size + off + 4096,
        base + ms <= 0x1_0000_0000,
    ensures
        dir_entries_touched(base, range_pages(ms)) <= size as int / 0x40_0000 + 3,
{
    let pages = range_pages(ms);
    vstd::arithmetic::div_mod::lemma_fundamental_div_mod(ms as int, 4096);
    assert(pages == ms as int / 4096);
    assert(pages >= 1);
    let last = base + 4096 * (pages - 1);
    assert(4096 * (pages - 1) == ms - 4096);
    assert(last / 0x40_0000 - base as int / 0x40_0000 <= (ms - 4096) / 0x40_0000 + 1) by {
        vstd::arithmetic::div_mod::lemma_div_is_ordered(base as int, last, 0x40_0000);
        vstd::arithmetic::div_mod::lemma_fundamental_div_mod(base as int, 0x40_0000);
        vstd::arithmetic::div_mod::lemma_fundamental_div_mod(last, 0x40_0000);
        vstd::arithmetic::div_mod::lemma_fundamental_div_mod(ms - 4096, 0x40_0000);
    }
    assert((ms - 4096) / 0x40_0000 <= size as int / 0x40_0000 + 1) by {
        vstd::arithmetic::div_mod::lemma_fundamental_div_mod(ms - 4096, 0x40_0000);
        vstd::arithmetic::div_mod::lemma_fundamental_div_mod(size as int, 0x40_0000);
    }
}

/// The live MMIO mappings, in the order they were made.
pub struct IoMappings {
    pub records: Vec<IoMapRecord>,
}

impl View for IoMappings {
    type V = Seq<IoMapRecord>;

    open spec fn view(&self) -> Seq<IoMapRecord> {
        self.records@
    }
}

impl IoMappings {
    pub fn new() -> (r: Self)
        ensures
            r@ == Seq::<IoMapRecord>::empty(),
    {
        IoMappings { records: Vec::new() }
    }

    /// Remember a mapping once its pages are in place.
    pub fn record(&mut self, rec: IoMapRecord)
        ensures
            final(self)@ == old(self)@.push(rec),
    {
        self.records.push(rec);
    }
}

/// Forget the mapping whose caller address is `virt` (the first such
/// record) and hand it back.
pub fn take_io_mapping(maps: &mut IoMappings, virt: VirtAddr) -> (r: Result<IoMapRecord, ResourceError>)
    ensures
        (exists|i: int| 0 <= i < old(maps)@.len() && (#[trigger] old(maps)@[i]).returned == virt) <==> r is Ok,
        r is Err ==> (r matches Err(ResourceError::NotFound)) && final(maps)@ == old(maps)@,
        r matches Ok(rec) ==> exists|i: int|
            0 <= i < old(maps)@.len() && #[trigger] old(maps)@[i] == rec && rec.returned == virt
                && final(maps)@ == old(maps)@.remove(i)
                && forall|j: int| 0 <= j < i ==> (#[trigger] old(maps)@[j]).returned != virt,
{
    let mut i: usize = 0;
    while i < maps.records.len()
        invariant
            maps@ == old(maps)@,
            0 <= i <= maps@.len(),
            forall|j: int| 0 <= j < i ==> (#[trigger] maps@[j]).returned != virt,
        decreases maps@.len() - i,
    {
        if maps.records[i].returned == virt {
            let rec = maps.records.remove(i);
            return Ok(rec);
        }
        i = i + 1;
    }
    Err(ResourceError::NotFound)
}

/// What unmapping `vaddr` does to directory `dir`: the outcome
/// [`PageDirectory::unmap`] reports and the directory after it.
pub open spec fn unmap_one(dir: Seq<u32>, vaddr: u32) -> (Unmapped, Seq<u32>) {
    let pd = pd_index_of(vaddr);
    let pde = dir[pd];
    if pde & PDE_PRESENT == 0 {
        (Unmapped::Nothing, dir)
    } else if pde & PDE_DIR_PAGE_SIZE != 0 {
        (Unmapped::LargePage, dir.update(pd, 0))
    } else {
        (Unmapped::Table(PteWrite { table: spec_phys_to_virt(pde & 0xFFFF_F000), index: pt_index_of(vaddr) as usize, value: 0 }), dir)
    }
}

/// Unmapping the first `n` pages from `base` in order.
pub open spec fn unmap_pages(dir: Seq<u32>, base: u32, n: nat) -> (Seq<Unmapped>, Seq<u32>)
    decreases n,
{
    if n == 0 {
        (Seq::empty(), dir)
    } else {
        let prev = unmap_pages(dir, base, (n - 1) as nat);
        let one = unmap_one(prev.1, (base as u64 + 4096 * (n - 1)) as u32);
        (prev.0.push(one.0), one.1)
    }
}

/// Take down the MMIO mapping whose caller address is `virt`: forget its
/// record, unmap every page of its window (the outcomes, page by page, are
/// the table stores the caller makes) and free the window. `Err(NotFound)`
/// when no mapping has that address; otherwise the record, the outcomes
/// and the result of freeing the window.
pub fn iounmap(maps: &mut IoMappings, va: &mut VirtualRangeAllocator, pm: &mut PageManager, virt: VirtAddr)
    -> (r: Result<(IoMapRecord, Vec<Unmapped>, Result<(), ResourceError>), ResourceError>)
    requires
        old(va).wf(),
        old(pm).wf(),
    ensures
        final(va).wf(),
        final(pm).wf(),
        (exists|i: int| 0 <= i < old(maps)@.len() && (#[trigger] old(maps)@[i]).returned == virt) <==> r is Ok,
        r is Err ==> (r matches Err(ResourceError::NotFound)) && final(maps)@ == old(maps)@ && final(va)@ == old(va)@
            && final(pm).dir@ == old(pm).dir@,
        r matches Ok((rec, us, freed)) ==> {
            &&& exists|i: int|
                0 <= i < old(maps)@.len() && #[trigger] old(maps)@[i] == rec && rec.returned == virt
                    && final(maps)@ == old(maps)@.remove(i)
                    && forall|j: int| 0 <= j < i ==> (#[trigger] old(maps)@[j]).returned != virt
            &&& (us@, final(pm).dir@) == unmap_pages(old(pm).dir@, rec.map_base.0, ((rec.map_size as int + 4095) / 4096) as nat)
            &&& final(pm).next_free_page == old(pm).next_free_page
            &&& (freed is Ok) == (exists|i: int| 0 <= i < old(va)@.len() && (#[trigger] old(va)@[i]).start == rec.map_base.0
                && old(va)@[i].size == spec_align_up(rec.map_size as int, PAGE_SIZE as int) as u64 as u32)
            &&& freed is Err ==> final(va)@ == old(va)@
            &&& freed is Ok ==> exists|i: int| 0 <= i < old(va)@.len() && (#[trigger] old(va)@[i]).start == rec.map_base.0
                && final(va)@ == old(va)@.remove(i)
        },
{
    let rec = take_io_mapping(maps, virt)?;
    let pages: u32 = ((rec.map_size as u64 + 4095) / 4096) as u32;
    let mut us: Vec<Unmapped> = Vec::new();
    let mut k: u32 = 0;
    let ghost d0 = pm.dir@;
    while k < pages
        invariant
            pm.wf(),
            k <= pages,
            pages == (rec.map_size as int + 4095) / 4096,
            (us@, pm.dir@) == unmap_pages(d0, rec.map_base.0, k as nat),
            pm.next_free_page == old(pm).next_free_page,
        decreases pages - k,
    {
        let vaddr = (rec.map_base.0 as u64 + k as u64 * 4096) as u32;
        let u = pm.dir.unmap(vaddr);
        us.push(u);
        proof {
            assert(vaddr == (rec.map_base.0 as u64 + 4096 * k) as u32);
        }
        k = k + 1;
    }
    let freed = va.free_kernel_virtual(rec.map_base, rec.map_size as usize);
    Ok((rec, us, freed))
}

/// Reserve `[phys, phys + size)` for `owner`, then map it with [`ioremap`].
/// When mapping fails, a reservation this call made is given back; one
/// that was already there (the same range, kind and owner) stays.
pub fn reserve_and_ioremap(
    rm: &mut ResourceManager,
    va: &mut VirtualRangeAllocator,
    pm: &mut PageManager,
    maps: &mut IoMappings,
    phys: u64,
    size: usize,
    kind: ResourceKind,
    owner: &'static str,
) -> (r: Result<(IoMapRecord, Vec<(PteWrite, Option<u32>)>), ResourceError>)
    requires
        old(rm).wf(),
        old(va).wf(),
        old(pm).wf(),
        old(pm).next_free_page + size as int / 0x40_0000 + 3 <= MAX_PAGE,
    ensures
        final(rm).wf(),
        final(va).wf(),
        r is Err ==> final(va)@ == old(va)@ && final(maps)@ == old(maps)@ && final(pm).dir@ == old(pm).dir@,
        size == 0 ==> (r matches Err(ResourceError::ZeroSize)) && final(rm)@ == old(rm)@,
        size != 0 && phys + size > u64::MAX ==> (r matches Err(ResourceError::Overflow)) && final(rm)@ == old(rm)@,
        size != 0 && phys + size <= u64::MAX && !spec_is_free(old(rm)@, phys, size as u64)
            && !(exists|i: int| 0 <= i < old(rm)@.len() && #[trigger] same_reservation(old(rm)@[i], phys, size as u64, kind, owner))
            ==> (r matches Err(ResourceError::Overlap { .. })) && final(rm)@ == old(rm)@,
        reservation_ok(old(rm)@, phys, size as u64, kind, owner) ==> match ioremap_error(old(va)@, old(va).base, old(va).end, phys, size) {
            None => r is Ok,
            Some(e) => r == Err::<(IoMapRecord, Vec<(PteWrite, Option<u32>)>), ResourceError>(e),
        },
        r matches Ok((rec, ws)) ==> {
            &&& io_request_ok(phys, size)
            &&& rec.phys_base == io_base(phys)
            &&& rec.map_size == io_map_size(phys, size)
            &&& rec.returned.0 == rec.map_base.0 + io_offset(phys)
            &&& rec.owner == owner
            &&& exists|x: PhysRange| #[trigger] final(rm)@.contains(x) && same_reservation(x, phys, size as u64, kind, owner)
            &&& final(va)@.contains(VirtualRange { start: rec.map_base.0, size: rec.map_size, owner })
            &&& final(maps)@ == old(maps)@.push(rec)
            &&& ws@.len() == rec.map_size / 4096
            &&& forall|k: int| 0 <= k < ws@.len() ==> maps_page(final(pm).dir@, (#[trigger] ws@[k]).0, rec.map_base.0,
                rec.phys_base, mmio_flags(), k)
        },
        r is Err && !spec_is_free(old(rm)@, phys, size as u64) ==> final(rm)@ == old(rm)@,
        r is Err && spec_is_free(old(rm)@, phys, size as u64) ==> forall|x: PhysRange|
            #[trigger] final(rm)@.contains(x) <==> old(rm)@.contains(x),
{
    let was_free = rm.is_free(phys, size as u64);
    rm.reserve_range(phys, size as u64, kind, owner)?;
    let ghost reserved = rm@;
    let ghost req = PhysRange { start: phys, size: size as u64, kind, owner };
    proof {
        if spec_is_free(old(rm)@, phys, size as u64) {
            assert(reserved.contains(req));
            let k = choose|k: int| 0 <= k < reserved.len() && reserved[k] == req;
            assert(same_reservation(reserved[k], phys, size as u64, kind, owner));
        } else {
            assert(exists|i: int| 0 <= i < old(rm)@.len() && overlaps(#[trigger] old(rm)@[i], phys as int, phys + size));
            let k = choose|k: int| 0 <= k < old(rm)@.len() && #[trigger] same_reservation(old(rm)@[k], phys, size as u64, kind, owner);
            assert(reserved.contains(reserved[k]));
        }
        assert(exists|x: PhysRange| #[trigger] reserved.contains(x) && same_reservation(x, phys, size as u64, kind, owner));
    }
    match ioremap(va, pm, maps, phys, size, owner) {
        Ok(m) => Ok(m),
        Err(e) => {
            if !was_free {
                return Err(e);
            }
            let rel = rm.release_range(phys, size as u64);
            proof {
                if spec_is_free(old(rm)@, phys, size as u64) {
                    let k = choose|k: int| 0 <= k < reserved.len() && reserved[k] == req;
                    assert(reserved[k].start == phys && reserved[k].size == size as u64);
                    let pr = rel->Ok_0;
                    let i = choose|i: int|
                        0 <= i < reserved.len() && #[trigger] reserved[i] == pr && pr.start == phys
                            && pr.size == size as u64 && rm@ == reserved.remove(i);
                    law_release_undoes_reserve(old(rm)@, reserved, i, phys, size as u64, kind, owner);
                }
            }
            Err(e)
        },
    }
}

/// Own both halves of a device mapping: the physical reservation and the
/// prepared MMIO mapping, which the caller completes with `rec`'s pages.
pub fn map_resource(
    rm: &mut ResourceManager,
    va: &mut VirtualRangeAllocator,
    pm: &mut PageManager,
    maps: &mut IoMappings,
    phys: u64,
    size: usize,
    kind: ResourceKind,
    owner: &'static str,
) -> (r: Result<(MmioMapping, IoMapRecord, Vec<(PteWrite, Option<u32>)>), ResourceError>)
    requires
        old(rm).wf(),
        old(va).wf(),
        old(pm).wf(),
        old(pm).next_free_page + size as int / 0x40_0000 + 3 <= MAX_PAGE,
    ensures
        final(rm).wf(),
        final(va).wf(),
        r is Err ==> final(va)@ == old(va)@,
        size == 0 ==> r matches Err(ResourceError::ZeroSize),
        size != 0 && phys + size > u64::MAX ==> (r matches Err(ResourceError::Overflow)) && final(rm)@ == old(rm)@,
        size != 0 && phys + size <= u64::MAX && !reservation_ok(old(rm)@, phys, size as u64, kind, owner)
            ==> (r matches Err(ResourceError::Overlap { .. })) && final(rm)@ == old(rm)@,
        reservation_ok(old(rm)@, phys, size as u64, kind, owner) ==> match ioremap_error(old(va)@, old(va).base, old(va).end, phys, size) {
            None => r is Ok,
            Some(e) => r == Err::<(MmioMapping, IoMapRecord, Vec<(PteWrite, Option<u32>)>), ResourceError>(e),
        },
        r matches Ok((m, rec, ws)) ==> {
            &&& m == (MmioMapping { virt: rec.returned, phys, size, mapped: true, reserved: true })
            &&& rec.phys_base == io_base(phys)
            &&& rec.map_size == io_map_size(phys, size)
            &&& rec.returned.0 == rec.map_base.0 + io_offset(phys)
            &&& exists|x: PhysRange| #[trigger] final(rm)@.contains(x) && same_reservation(x, phys, size as u64, kind, owner)
            &&& final(maps)@ == old(maps)@.push(rec)
            &&& ws@.len() == rec.map_size / 4096
        },
{
    let (rec, ws) = reserve_and_ioremap(rm, va, pm, maps, phys, size, kind, owner)?;
    Ok((MmioMapping { virt: rec.returned, phys, size, mapped: true, reserved: true }, rec, ws))
}

impl MmioMapping {
    /// Give back what this mapping still owns. `unmapped` is the outcome of
    /// [`iounmap`] on `virt` with its pages taken down, which the caller
    /// performs first when the mapping is still mapped; an error there stops
    /// the release. Then the physical reservation is released.
    pub fn release_owned(&mut self, rm: &mut ResourceManager, unmapped: Result<(), ResourceError>) -> (r: Result<(), ResourceError>)
        requires
            old(rm).wf(),
        ensures
            final(rm).wf(),
            final(self).virt == old(self).virt,
            final(self).phys == old(self).phys,
            final(self).size == old(self).size,
            old(self).mapped && unmapped is Err ==> r == unmapped && *final(self) == *old(self)
                && final(rm)@ == old(rm)@,
            !(old(self).mapped && unmapped is Err) ==> {
                &&& !final(self).mapped
                &&& !old(self).reserved ==> r is Ok && final(rm)@ == old(rm)@ && final(self).reserved == old(self).reserved
                &&& old(self).reserved ==> {
                    let found = exists|i: int| 0 <= i < old(rm)@.len() && (#[trigger] old(rm)@[i]).start == old(self).phys
                        && old(rm)@[i].size == old(self).size as u64;
                    &&& found ==> r is Ok && !final(self).reserved && exists|i: int|
                        0 <= i < old(rm)@.len() && (#[trigger] old(rm)@[i]).start == old(self).phys
                            && old(rm)@[i].size == old(self).size as u64 && final(rm)@ == old(rm)@.remove(i)
                    &&& !found ==> (r matches Err(ResourceError::NotFound)) && final(self).reserved
                        && final(rm)@ == old(rm)@
                }
            },
    {
        if self.mapped {
            unmapped?;
            self.mapped = false;
        }
        if self.reserved {
            let _ = rm.release_range(self.phys, self.size as u64)?;
            self.reserved = false;
        }
        Ok(())
    }
}

impl DmaBuffer {
    /// Give back the buffer's physical reservation and its frames, once.
    /// A second call does nothing. The reservation released must be a DMA
    /// one, else `NotFound` (after releasing it all the same).
    pub fn release_owned(&mut self, rm: &mut ResourceManager, paging: &mut PageManager) -> (r: Result<(), ResourceError>)
        requires
            old(rm).wf(),
        ensures
            final(rm).wf(),
            final(paging).dir == old(paging).dir,
            final(paging).next_free_page == old(paging).next_free_page,
            final(self).phys == old(self).phys,
            final(self).alloc_len == old(self).alloc_len,
            old(self).released ==> r is Ok && final(rm)@ == old(rm)@ && final(self).released,
            !old(self).released ==> {
                let found = exists|i: int| 0 <= i < old(rm)@.len() && (#[trigger] old(rm)@[i]).start == old(self).phys.0
                    && old(rm)@[i].size == old(self).alloc_len as u64;
                &&& !found ==> (r matches Err(ResourceError::NotFound)) && final(rm)@ == old(rm)@ && !final(self).released
                &&& found ==> final(self).released && exists|i: int|
                    0 <= i < old(rm)@.len() && (#[trigger] old(rm)@[i]).start == old(self).phys.0
                        && old(rm)@[i].size == old(self).alloc_len as u64 && final(rm)@ == old(rm)@.remove(i)
                        && (r is Ok <==> old(rm)@[i].kind == ResourceKind::Dma)
                        && (r is Err ==> r matches Err(ResourceError::NotFound))
            },
    {
        if self.released {
            return Ok(());
        }
        let pages = self.alloc_len / PAGE_SIZE;
        let first = self.phys.0 >> 12u32;
        let released = rm.release_range(self.phys.0 as u64, self.alloc_len as u64)?;
        self.released = true;
        let mut k: usize = 0;
        while k < pages
            invariant
                k <= pages,
                paging.dir == old(paging).dir,
                paging.next_free_page == old(paging).next_free_page,
            decreases pages - k,
        {
            paging.free_phys_frame(first.wrapping_add(k as u32));
            k = k + 1;
        }
        if released.kind != ResourceKind::Dma {
            Err(ResourceError::NotFound)
        } else {
            Ok(())
        }
    }
}

/// Allocate a zero-filled, physically contiguous DMA buffer of `size`
/// bytes (whole pages reserved) aligned to `max(align, PAGE_SIZE)`, whose
/// last byte lies at or below `min(max_phys, ram_bytes - 1)`. The buffer is
/// reached through the kernel's direct mapping; the caller clears its
/// `alloc_len` bytes before handing it out.
pub fn dma_alloc_for(
    rm: &mut ResourceManager,
    paging: &mut PageManager,
    ram_bytes: u64,
    owner: &'static str,
    size: usize,
    align: usize,
    max_phys: u64,
) -> (r: Result<DmaBuffer, ResourceError>)
    requires
        old(rm).wf(),
        ram_bytes >= 1,
    ensures
        final(rm).wf(),
        final(paging).dir == old(paging).dir,
        r is Err ==> final(rm)@ == old(rm)@,
        size + PAGE_SIZE - 1 > u64::MAX ==> r matches Err(ResourceError::Overflow),
        size + PAGE_SIZE - 1 <= u64::MAX && size == 0 ==> r matches Err(ResourceError::ZeroSize),
        size != 0 && size + PAGE_SIZE - 1 <= u64::MAX && !is_pow2_u64(align as u64) ==> r matches Err(
            ResourceError::InvalidAlignment,
        ),
        (r is Ok) <==> phys_alloc_succeeds(
            old(rm)@,
            old(paging).next_free_page,
            (if max_phys < ram_bytes - 1 { max_phys as int } else { ram_bytes - 1 }) as u64,
            size,
            align,
            ResourceKind::Dma,
            owner,
        ),
        r matches Ok(b) ==> b.phys.0 == phys_alloc_start(old(paging).next_free_page, align),
        r matches Ok(b) ==> {
            let alloc_len = spec_align_up(size as int, PAGE_SIZE as int);
            let limit = if max_phys < ram_bytes - 1 { max_phys as int } else { ram_bytes - 1 };
            &&& b.len == size
            &&& b.alloc_len == alloc_len as usize
            &&& b.owner == owner
            &&& !b.released
            &&& b.virt.0 == spec_phys_to_virt(b.phys.0)
            &&& b.phys.0 as int + alloc_len - 1 <= limit
            &&& b.phys.0 as int % (if align >= PAGE_SIZE { align as int } else { PAGE_SIZE as int }) == 0
            &&& exists|x: PhysRange| #[trigger] final(rm)@.contains(x) && same_reservation(
                x,
                b.phys.0 as u64,
                alloc_len as u64,
                ResourceKind::Dma,
                owner,
            )
        },
{
    proof {
        lemma_page_size_pow2();
        lemma_align_up(size as int, 4096);
    }
    let alloc_len = align_up_u64(size as u64, PAGE_SIZE as u64)?;
    if size == 0 {
        return Err(ResourceError::ZeroSize);
    }
    let ram_last = ram_bytes - 1;
    let limit = if max_phys < ram_last { max_phys } else { ram_last };
    let phys = rm.alloc_phys_below(paging, limit, size, align, ResourceKind::Dma, owner)?;
    let virt = VirtAddr(phys_to_virt(phys.0));
    Ok(DmaBuffer { phys, virt, len: size, alloc_len: alloc_len as usize, owner, released: false })
}

/// [`dma_alloc_for`] under the generic owner name "dma".
pub fn dma_alloc(
    rm: &mut ResourceManager,
    paging: &mut PageManager,
    ram_bytes: u64,
    size: usize,
    align: usize,
    max_phys: u64,
) -> (r: Result<DmaBuffer, ResourceError>)
    requires
        old(rm).wf(),
        ram_bytes >= 1,
    ensures
        final(rm).wf(),
        r is Err ==> final(rm)@ == old(rm)@,
        size + PAGE_SIZE - 1 > u64::MAX ==> r matches Err(ResourceError::Overflow),
        size + PAGE_SIZE - 1 <= u64::MAX && size == 0 ==> r matches Err(ResourceError::ZeroSize),
        size != 0 && size + PAGE_SIZE - 1 <= u64::MAX && !is_pow2_u64(align as u64) ==> r matches Err(
            ResourceError::InvalidAlignment,
        ),
        (r is Ok) <==> phys_alloc_succeeds(
            old(rm)@,
            old(paging).next_free_page,
            (if max_phys < ram_bytes - 1 { max_phys as int } else { ram_bytes - 1 }) as u64,
            size,
            align,
            ResourceKind::Dma,
            "dma",
        ),
        r matches Ok(b) ==> b.phys.0 == phys_alloc_start(old(paging).next_free_page, align),
        r matches Ok(b) ==> {
            let alloc_len = spec_align_up(size as int, PAGE_SIZE as int);
            let limit = if max_phys < ram_bytes - 1 { max_phys as int } else { ram_bytes - 1 };
            &&& b.len == size
            &&& b.alloc_len == alloc_len as usize
            &&& b.owner@ == "dma"@
            &&& !b.released
            &&& b.virt.0 == spec_phys_to_virt(b.phys.0)
            &&& b.phys.0 as int + alloc_len - 1 <= limit
            &&& b.phys.0 as int % (if align >= PAGE_SIZE { align as int } else { PAGE_SIZE as int }) == 0
            &&& exists|x: PhysRange| #[trigger] final(rm)@.contains(x) && same_reservation(
                x,
                b.phys.0 as u64,
                alloc_len as u64,
                ResourceKind::Dma,
                b.owner,
            )
        },
{
    let owner = "dma";
    proof {
        reveal_strlit("dma");
    }
    dma_alloc_for(rm, paging, ram_bytes, owner, size, align, max_phys)
}

/// Give a DMA buffer back (see [`DmaBuffer::release_owned`]).
pub fn dma_free(buffer: DmaBuffer, rm: &mut ResourceManager, paging: &mut PageManager) -> (r: Result<(), ResourceError>)
    requires
        old(rm).wf(),
    ensures
        final(rm).wf(),
        final(paging).dir == old(paging).dir,
        buffer.released ==> r is Ok && final(rm)@ == old(rm)@,
        !buffer.released ==> {
            let found = exists|i: int| 0 <= i < old(rm)@.len() && (#[trigger] old(rm)@[i]).start == buffer.phys.0
                && old(rm)@[i].size == buffer.alloc_len as u64;
            &&& !found ==> (r matches Err(ResourceError::NotFound)) && final(rm)@ == old(rm)@
            &&& found ==> exists|i: int|
                0 <= i < old(rm)@.len() && (#[trigger] old(rm)@[i]).start == buffer.phys.0
                    && old(rm)@[i].size == buffer.alloc_len as u64 && final(rm)@ == old(rm)@.remove(i)
                    && (r is Ok <==> old(rm)@[i].kind == ResourceKind::Dma)
        },
{
    let mut buffer = buffer;
    buffer.release_owned(rm, paging)
}

/// A reservation that succeeded on a free range makes that range busy.
pub proof fn law_reserved_range_is_not_free(
    before: Seq<PhysRange>,
    after: Seq<PhysRange>,
    start: u64,
    size: u64,
    kind: ResourceKind,
    owner: &'static str,
)
    requires
        ranges_wf(before),
        spec_is_free(before, start, size),
        after.contains(PhysRange { start, size, kind, owner }),
    ensures
        !spec_is_free(after, start, size),
{
    let k = choose|k: int| 0 <= k < after.len() && after[k] == PhysRange { start, size, kind, owner };
    assert(overlaps(after[k], start as int, start + size));
}

/// While the ranges are sorted and disjoint, "some reserved range is
/// exactly the request" and "the request touches some range, and every
/// range it touches is exactly the request" say the same: so
/// [`ResourceManager::reserve_range`] accepts an overlapping request exactly
/// when each range it touches is the reservation asked for.
pub proof fn law_reservation_overlaps_only_itself(
    s: Seq<PhysRange>,
    start: u64,
    size: u64,
    kind: ResourceKind,
    owner: &'static str,
)
    requires
        ranges_wf(s),
        size != 0,
        start + size <= u64::MAX,
    ensures
        (exists|i: int| 0 <= i < s.len() && #[trigger] same_reservation(s[i], start, size, kind, owner)) <==> {
            &&& exists|i: int| 0 <= i < s.len() && overlaps(#[trigger] s[i], start as int, start + size)
            &&& forall|i: int| 0 <= i < s.len() && overlaps(#[trigger] s[i], start as int, start + size)
                ==> same_reservation(s[i], start, size, kind, owner)
        },
{
    if exists|i: int| 0 <= i < s.len() && #[trigger] same_reservation(s[i], start, size, kind, owner) {
        let i = choose|i: int| 0 <= i < s.len() && #[trigger] same_reservation(s[i], start, size, kind, owner);
        assert(overlaps(s[i], start as int, start + size));
        assert forall|j: int| 0 <= j < s.len() && overlaps(#[trigger] s[j], start as int, start + size)
            implies same_reservation(s[j], start, size, kind, owner) by {
            if j < i {
                assert(range_end(s[j]) <= s[i].start);
            } else if j > i {
                assert(range_end(s[i]) <= s[j].start);
            }
        }
    }
}

/// [`ResourceManager::reserve_range`] of a free range, then
/// [`ResourceManager::release_range`] of the same start and size: the
/// release gives back that reservation and leaves exactly the ranges that
/// were there before (`after` and `i` are what the two contracts name), and
/// no range left starts there, so a second release is refused.
pub proof fn law_release_undoes_reserve(
    before: Seq<PhysRange>,
    after: Seq<PhysRange>,
    i: int,
    start: u64,
    size: u64,
    kind: ResourceKind,
    owner: &'static str,
)
    requires
        ranges_wf(before),
        ranges_wf(after),
        spec_is_free(before, start, size),
        after.len() == before.len() + 1,
        after.contains(PhysRange { start, size, kind, owner }),
        forall|x: PhysRange| before.contains(x) ==> #[trigger] after.contains(x),
        forall|x: PhysRange| #[trigger] after.contains(x) ==> before.contains(x) || x == (PhysRange { start, size, kind, owner }),
        0 <= i < after.len(),
        after[i].start == start,
        after[i].size == size,
    ensures
        after[i] == (PhysRange { start, size, kind, owner }),
        after.remove(i).len() == before.len(),
        forall|x: PhysRange| #[trigger] after.remove(i).contains(x) <==> before.contains(x),
        after.remove(i) == before,
        forall|j: int| 0 <= j < before.len() ==> (#[trigger] before[j]).start != start,
{
    let req = PhysRange { start, size, kind, owner };
    let k = choose|k: int| 0 <= k < after.len() && after[k] == req;
    if k != i {
        if k < i {
            assert(range_end(after[k]) <= after[i].start);
        } else {
            assert(range_end(after[i]) <= after[k].start);
        }
    }
    let rest = after.remove(i);
    assert forall|x: PhysRange| #[trigger] rest.contains(x) implies before.contains(x) by {
        let j = choose|j: int| 0 <= j < rest.len() && rest[j] == x;
        let j0 = if j < i { j } else { j + 1 };
        assert(after[j0] == x);
        assert(after.contains(x));
        if x == req {
            assert(j0 != i);
            if j0 < i {
                assert(range_end(after[j0]) <= after[i].start);
            } else {
                assert(range_end(after[i]) <= after[j0].start);
            }
        }
    }
    assert forall|x: PhysRange| before.contains(x) implies #[trigger] rest.contains(x) by {
        assert(after.contains(x));
        let j = choose|j: int| 0 <= j < after.len() && after[j] == x;
        if j == i {
            let b = choose|b: int| 0 <= b < before.len() && before[b] == x;
            assert(overlaps(before[b], start as int, start + size));
        } else if j < i {
            assert(rest[j] == x);
        } else {
            assert(rest[j - 1] == x);
        }
    }
    assert(ranges_wf(rest)) by {
        assert forall|a: int, b: int| #![trigger rest[a], rest[b]] 0 <= a < b < rest.len() implies range_end(rest[a]) <= rest[b].start by {
            let a0 = if a < i { a } else { a + 1 };
            let b0 = if b < i { b } else { b + 1 };
            assert(rest[a] == after[a0] && rest[b] == after[b0]);
        }
        assert forall|a: int| 0 <= a < rest.len() implies #[trigger] rest[a].size > 0 && range_end(rest[a]) <= u64::MAX by {
            let a0 = if a < i { a } else { a + 1 };
            assert(rest[a] == after[a0]);
        }
    }
    lemma_sorted_same_ranges(rest, before);
}

/// Two reservation lists in address order with the same reservations are
/// the same list.
proof fn lemma_sorted_same_ranges(a: Seq<PhysRange>, b: Seq<PhysRange>)
    requires
        ranges_wf(a),
        ranges_wf(b),
        forall|x: PhysRange| #![trigger a.contains(x)] #![trigger b.contains(x)] a.contains(x) <==> b.contains(x),
    ensures
        a == b,
    decreases a.len() + b.len(),
{
    if a.len() == 0 {
        if b.len() > 0 {
            assert(b.contains(b[0]));
            assert(a.contains(b[0]));
        }
        assert(a =~= b);
    } else if b.len() == 0 {
        assert(a.contains(a[0]));
        assert(b.contains(a[0]));
    } else {
        assert(a.contains(a[0]));
        assert(b.contains(a[0]));
        assert(b.contains(b[0]));
        assert(a.contains(b[0]));
        let j = choose|j: int| 0 <= j < b.len() && b[j] == a[0];
        let m = choose|m: int| 0 <= m < a.len() && a[m] == b[0];
        if j > 0 {
            assert(range_end(b[0]) <= b[j].start);
            if m > 0 {
                assert(range_end(a[0]) <= a[m].start);
            }
        }
        assert(j == 0);
        let a1 = a.drop_first();
        let b1 = b.drop_first();
        assert forall|x: PhysRange| #![trigger a1.contains(x)] #![trigger b1.contains(x)] a1.contains(x) <==> b1.contains(x) by {
            if a1.contains(x) {
                let k = choose|k: int| 0 <= k < a1.len() && a1[k] == x;
                assert(a[k + 1] == x);
                assert(range_end(a[0]) <= a[k + 1].start);
                assert(a.contains(x));
                let l = choose|l: int| 0 <= l < b.len() && b[l] == x;
                assert(l != 0);
                assert(b1[l - 1] == x);
            }
            if b1.contains(x) {
                let k = choose|k: int| 0 <= k < b1.len() && b1[k] == x;
                assert(b[k + 1] == x);
                assert(range_end(b[0]) <= b[k + 1].start);
                assert(b.contains(x));
                let l = choose|l: int| 0 <= l < a.len() && a[l] == x;
                assert(l != 0);
                assert(a1[l - 1] == x);
            }
        }
        assert(ranges_wf(a1)) by {
            assert forall|p: int, q: int| #![trigger a1[p], a1[q]] 0 <= p < q < a1.len() implies range_end(a1[p]) <= a1[q].start by {
                assert(a1[p] == a[p + 1] && a1[q] == a[q + 1]);
            }
        }
        assert(ranges_wf(b1)) by {
            assert forall|p: int, q: int| #![trigger b1[p], b1[q]] 0 <= p < q < b1.len() implies range_end(b1[p]) <= b1[q].start by {
                assert(b1[p] == b[p + 1] && b1[q] == b[q + 1]);
            }
        }
        lemma_sorted_same_ranges(a1, b1);
        assert(a =~= b) by {
            assert forall|k: int| 0 <= k < a.len() implies a[k] == b[k] by {
                if k > 0 {
                    assert(a[k] == a1[k - 1]);
                    assert(b[k] == b1[k - 1]);
                }
            }
        }
    }
}

/// [`VirtualRangeAllocator::alloc_kernel_virtual`] puts its window `v` in
/// at some position `k`; [`VirtualRangeAllocator::free_kernel_virtual`] of
/// the same address then takes out exactly that window, so the windows are
/// as before; in the windows left, no window starts there, so a second free
/// finds nothing.
pub proof fn law_free_undoes_alloc(before: Seq<VirtualRange>, base: u32, end: u32, k: int, v: VirtualRange, i: int)
    requires
        0 <= k <= before.len(),
        vranges_wf(before.insert(k, v), base, end),
        0 <= i < before.len() + 1,
        before.insert(k, v)[i].start == v.start,
    ensures
        i == k,
        before.insert(k, v).remove(i) == before,
        forall|j: int| 0 <= j < before.len() ==> (#[trigger] before[j]).start != v.start,
{
    let a = before.insert(k, v);
    assert(a[k] == v);
    if i < k {
        assert(vrange_end(a[i]) <= a[k].start);
    } else if i > k {
        assert(vrange_end(a[k]) <= a[i].start);
    }
    assert(a.remove(i) =~= before);
    assert forall|j: int| 0 <= j < before.len() implies (#[trigger] before[j]).start != v.start by {
        if j < k {
            assert(a[j] == before[j]);
            assert(vrange_end(a[j]) <= a[k].start);
        } else {
            assert(a[j + 1] == before[j]);
            assert(vrange_end(a[k]) <= a[j + 1].start);
        }
    }
}

/// Recording a mapping whose address no live mapping uses, then taking it
/// down by that address, hands the record back and leaves the live
/// mappings as they were.
pub proof fn law_record_then_take(maps: Seq<IoMapRecord>, rec: IoMapRecord)
    requires
        forall|i: int| 0 <= i < maps.len() ==> (#[trigger] maps[i]).returned != rec.returned,
    ensures
        ({
            let after = maps.push(rec);
            let i = maps.len() as int;
            &&& after[i] == rec
            &&& forall|j: int| 0 <= j < i ==> (#[trigger] after[j]).returned != rec.returned
            &&& after.remove(i) == maps
        }),
{
    let after = maps.push(rec);
    assert(after.remove(maps.len() as int) =~= maps);
}

/// The fixed boot reservations, in the order they are made: start, size
/// and kind of reservation `i` (low-memory BIOS area, boot framebuffer
/// record, VESA scratch page, boot record, the rest of the BIOS area, the
/// early boot area, kernel and stack, kernel heap).
pub open spec fn boot_range(i: int) -> (u64, u64, ResourceKind) {
    if i == 0 { (0x0u64, 0x5000u64, ResourceKind::Firmware) }
    else if i == 1 { (0x5000u64, 0x1000u64, ResourceKind::Reserved) }
    else if i == 2 { (0x6000u64, 0x1000u64, ResourceKind::Reserved) }
    else if i == 3 { (0x7000u64, 0x1000u64, ResourceKind::Reserved) }
    else if i == 4 { (0x8000u64, 0xf_8000u64, ResourceKind::Firmware) }
    else if i == 5 { (0x10_0000u64, 0xf0_0000u64, ResourceKind::Reserved) }
    else if i == 6 { (0x100_0000u64, 0x80_0000u64, ResourceKind::Kernel) }
    else { (0x180_0000u64, 0x100_0000u64, ResourceKind::Kernel) }
}

fn boot_range_exec(i: usize) -> (r: (u64, u64, ResourceKind, &'static str))
    requires
        i < 8,
    ensures
        (r.0, r.1, r.2) == boot_range(i as int),
{
    if i == 0 { (0x0, 0x5000, ResourceKind::Firmware, "bios-lowmem") }
    else if i == 1 { (0x5000, 0x1000, ResourceKind::Reserved, "boot-fb-info") }
    else if i == 2 { (0x6000, 0x1000, ResourceKind::Reserved, "vesa-scratch") }
    else if i == 3 { (0x7000, 0x1000, ResourceKind::Reserved, "boot-info") }
    else if i == 4 { (0x8000, 0xf_8000, ResourceKind::Firmware, "bios-lowmem") }
    else if i == 5 { (0x10_0000, 0xf0_0000, ResourceKind::Reserved, "boot-early") }
    else if i == 6 { (0x100_0000, 0x80_0000, ResourceKind::Kernel, "kernel+stack") }
    else { (0x180_0000, 0x100_0000, ResourceKind::Kernel, "kernel-heap") }
}

/// Some reservation in `s` covers exactly `start`/`size` with `kind`.
pub open spec fn holds_range(s: Seq<PhysRange>, start: u64, size: u64, kind: ResourceKind) -> bool {
    exists|x: PhysRange| #[trigger] s.contains(x) && x.start == start && x.size == size && x.kind == kind
}

/// Reserve `start`/`size`, keeping every reservation already held; on
/// success the range is held.
fn reserve_kept(rm: &mut ResourceManager, start: u64, size: u64, kind: ResourceKind, owner: &'static str)
    -> (r: Result<(), ResourceError>)
    requires
        old(rm).wf(),
    ensures
        final(rm).wf(),
        forall|x: PhysRange| old(rm)@.contains(x) ==> #[trigger] final(rm)@.contains(x),
        forall|x: PhysRange| #[trigger] final(rm)@.contains(x) ==> old(rm)@.contains(x) || (x.start == start
            && x.size == size),
        r is Ok ==> holds_range(final(rm)@, start, size, kind),
        reservation_ok(old(rm)@, start, size, kind, owner) ==> r is Ok,
{
    let r = rm.reserve_range(start, size, kind, owner);
    proof {
        if r is Err {
            assert(rm@ == old(rm)@);
        }
        if r is Ok {
            if spec_is_free(old(rm)@, start, size) {
                assert(rm@.contains(PhysRange { start, size, kind, owner }));
            } else {
                assert(exists|i: int| 0 <= i < old(rm)@.len() && overlaps(#[trigger] old(rm)@[i], start as int, start + size));
                let i = choose|i: int| 0 <= i < old(rm)@.len() && #[trigger] same_reservation(old(rm)@[i], start, size, kind, owner);
                assert(rm@.contains(rm@[i]));
            }
        }
    }
    r
}

/// Where boot reservation `i` starts; past the last one, the end of the
/// boot area.
pub open spec fn boot_start(i: int) -> int {
    if i < 8 {
        boot_range(i).0 as int
    } else {
        0x280_0000
    }
}

/// No reservation touches the boot area `[0, 0x280_0000)` that the fixed
/// boot ranges tile.
pub open spec fn boot_area_free(s: Seq<PhysRange>) -> bool {
    forall|k: int| 0 <= k < s.len() ==> !overlaps(#[trigger] s[k], 0, 0x280_0000)
}

/// The boot record is genuine and announces a ramdisk at a non-zero
/// address.
pub open spec fn ramdisk_announced(info: crate::init::BootInfo) -> bool {
    info.magic == crate::init::BOOTINFO_MAGIC && info.flags % 2 == 1 && info.disk_phys != 0 && info.disk_sectors != 0
}

/// The boot ranges tile the boot area: each ends where the next starts.
proof fn lemma_boot_ranges_tile(i: int)
    requires
        0 <= i < 8,
    ensures
        boot_range(i).0 == boot_start(i),
        boot_range(i).0 + boot_range(i).1 == boot_start(i + 1),
        boot_range(i).1 > 0,
        boot_start(i + 1) <= 0x280_0000,
{
}

/// The boot-time reservations, made once (`initialized` remembers it):
/// the fixed boot ranges in order, then, when the bootloader record is
/// genuine and announces a ramdisk at a non-zero address, the ramdisk's
/// sectors. The first refusal is returned (what was reserved before it
/// stays).
pub fn reserve_boot_ranges(rm: &mut ResourceManager, initialized: &mut bool, info: crate::init::BootInfo)
    -> (r: Result<(), ResourceError>)
    requires
        old(rm).wf(),
    ensures
        final(rm).wf(),
        *final(initialized),
        *old(initialized) ==> r is Ok && final(rm)@ == old(rm)@,
        forall|x: PhysRange| old(rm)@.contains(x) ==> #[trigger] final(rm)@.contains(x),
        !*old(initialized) && r is Ok ==> {
            &&& forall|i: int| 0 <= i < 8 ==> #[trigger] holds_range(final(rm)@, boot_range(i).0, boot_range(i).1, boot_range(i).2)
            &&& ramdisk_announced(info)
                ==> holds_range(final(rm)@, info.disk_phys as u64, (info.disk_sectors * 512) as u64, ResourceKind::Reserved)
        },
        !*old(initialized) && boot_area_free(old(rm)@) && (ramdisk_announced(info) ==> info.disk_phys >= 0x280_0000
            && reservation_ok(old(rm)@, info.disk_phys as u64, (info.disk_sectors * 512) as u64, ResourceKind::Reserved,
            "boot-ramdisk")) ==> r is Ok,
{
    if *initialized {
        return Ok(());
    }
    *initialized = true;
    let mut i: usize = 0;
    while i < 8
        invariant
            *initialized,
            !*old(initialized),
            rm.wf(),
            0 <= i <= 8,
            forall|x: PhysRange| old(rm)@.contains(x) ==> #[trigger] rm@.contains(x),
            forall|j: int| 0 <= j < i ==> #[trigger] holds_range(rm@, boot_range(j).0, boot_range(j).1, boot_range(j).2),
            boot_area_free(old(rm)@) ==> forall|x: PhysRange| #[trigger] rm@.contains(x) ==> old(rm)@.contains(x)
                || range_end(x) <= boot_start(i as int),
        decreases 8 - i,
    {
        let (start, size, kind, owner) = boot_range_exec(i);
        let ghost before = rm@;
        proof {
            lemma_boot_ranges_tile(i as int);
            if boot_area_free(old(rm)@) {
                assert forall|k: int| 0 <= k < before.len() implies !overlaps(#[trigger] before[k], start as int, start + size) by {
                    assert(before.contains(before[k]));
                    if old(rm)@.contains(before[k]) {
                        let m = choose|m: int| 0 <= m < old(rm)@.len() && old(rm)@[m] == before[k];
                        assert(!overlaps(old(rm)@[m], 0, 0x280_0000));
                    }
                }
                assert(spec_is_free(before, start, size));
            }
        }
        let res = reserve_kept(rm, start, size, kind, owner);
        proof {
            lemma_boot_ranges_tile(i as int);
            assert(forall|x: PhysRange| before.contains(x) ==> #[trigger] rm@.contains(x));
            assert forall|j: int| 0 <= j < i implies #[trigger] holds_range(rm@, boot_range(j).0, boot_range(j).1, boot_range(j).2) by {
                assert(holds_range(before, boot_range(j).0, boot_range(j).1, boot_range(j).2));
                let x = choose|x: PhysRange| #[trigger] before.contains(x) && x.start == boot_range(j).0 && x.size == boot_range(j).1 && x.kind == boot_range(j).2;
                assert(rm@.contains(x));
            }
        }
        match res {
            Ok(()) => {},
            Err(e) => return Err(e),
        }
        i = i + 1;
    }
    if info.magic == crate::init::BOOTINFO_MAGIC && info.flags % 2 == 1 && info.disk_phys != 0 && info.disk_sectors != 0 {
        let bytes = info.disk_sectors as u64 * 512;
        let ghost before = rm@;
        proof {
            let ds = info.disk_phys as u64;
            if boot_area_free(old(rm)@) && info.disk_phys >= 0x280_0000
                && reservation_ok(old(rm)@, ds, bytes, ResourceKind::Reserved, "boot-ramdisk") {
                if spec_is_free(old(rm)@, ds, bytes) {
                    assert forall|k: int| 0 <= k < before.len() implies !overlaps(#[trigger] before[k], ds as int, ds + bytes) by {
                        assert(before.contains(before[k]));
                        if old(rm)@.contains(before[k]) {
                            let m = choose|m: int| 0 <= m < old(rm)@.len() && old(rm)@[m] == before[k];
                            assert(!overlaps(old(rm)@[m], ds as int, ds + bytes));
                        }
                    }
                } else {
                    let m = choose|m: int| 0 <= m < old(rm)@.len()
                        && #[trigger] same_reservation(old(rm)@[m], ds, bytes, ResourceKind::Reserved, "boot-ramdisk");
                    assert(old(rm)@.contains(old(rm)@[m]));
                    assert(before.contains(old(rm)@[m]));
                    let k = choose|k: int| 0 <= k < before.len() && before[k] == old(rm)@[m];
                    assert(same_reservation(before[k], ds, bytes, ResourceKind::Reserved, "boot-ramdisk"));
                }
                assert(reservation_ok(before, ds, bytes, ResourceKind::Reserved, "boot-ramdisk"));
            }
        }
        let res = reserve_kept(rm, info.disk_phys as u64, bytes, ResourceKind::Reserved, "boot-ramdisk");
        proof {
            assert forall|j: int| 0 <= j < 8 implies #[trigger] holds_range(rm@, boot_range(j).0, boot_range(j).1, boot_range(j).2) by {
                assert(holds_range(before, boot_range(j).0, boot_range(j).1, boot_range(j).2));
                let x = choose|x: PhysRange| #[trigger] before.contains(x) && x.start == boot_range(j).0 && x.size == boot_range(j).1 && x.kind == boot_range(j).2;
                assert(rm@.contains(x));
            }
        }
        return res;
    }
    Ok(())
}

} // verus!
