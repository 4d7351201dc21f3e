//! Two-level i386 paging: address newtypes, PTE/PDE flag builders, the page
//! directory and the bump frame allocator.
//!
//! The page directory itself lives in this crate as a vector of 1024 entries.
//! Page tables are reached through physical memory, so operations that touch
//! a page table return the write to perform (`PteWrite`) instead of doing it.
use vstd::prelude::*;

verus! {

pub const PAGE_SHIFT: u32 = 12;
pub const PAGE_SIZE: usize = 4096;
pub const ENTRIES: usize = 1024;

/// Recursive mapping slot (last directory entry).
pub const RECURSIVE_INDEX: usize = 1023;
/// Virtual base through which the recursive mapping exposes page tables.
pub const VIRT_PT_BASE: u32 = 0xFFC0_0000;
/// Virtual address of the directory itself through the recursive mapping.
pub const VIRT_PD_BASE: u32 = 0xFFFF_F000;

pub const KERNEL_OFFSET: u32 = 0xC000_0000;
pub const KERNEL_PHYS: u32 = 0x0100_0000;
pub const KERNEL_VIRT: u32 = 0xC100_0000;

/// 4 MiB large pages covering identity + higher half (128 MiB).
pub const LARGE_PAGE_COUNT: u32 = 32;
/// First frame handed out by the frame allocator.
pub const FRAME_ALLOC_START: u32 = 0x0200_0000;
/// Frames past the large-page window are never handed out.
pub const MAX_PAGE: u32 = 32768;

pub const PTE_PRESENT: u32 = 1;
pub const PTE_WRITABLE: u32 = 2;
pub const PTE_USER: u32 = 4;
pub const PTE_WRITE_THROUGH: u32 = 8;
pub const PTE_CACHE_DISABLE: u32 = 16;
pub const PTE_ACCESSED: u32 = 32;
pub const PTE_DIRTY: u32 = 64;

pub const PDE_PRESENT: u32 = 1;
pub const PDE_WRITABLE: u32 = 2;
pub const PDE_USER: u32 = 4;
pub const PDE_ACCESSED: u32 = 32;
pub const PDE_DIR_PAGE_SIZE: u32 = 128;

#[derive(Copy, Clone, Debug, PartialEq, Eq, Structural)]
pub struct VirtAddr(pub u32);

impl VirtAddr {
    pub fn null() -> (r: Self)
        ensures
            r.0 == 0,
    {
        VirtAddr(0)
    }

    pub fn is_null(&self) -> (r: bool)
        ensures
            r == (self.0 == 0),
    {
        self.0 == 0
    }

    /// Round down to the start of the 4 KiB page.
    pub fn page_align(&self) -> (r: Self)
        ensures
            r.0 == self.0 & 0xFFFF_F000,
            r.0 <= self.0,
            r.0 % 4096 == 0,
            self.0 - r.0 < 4096,
    {
        let r = self.0 & 0xFFFF_F000u32;
        proof {
            lemma_page_round_down(self.0);
        }
        VirtAddr(r)
    }
}

#[derive(Copy, Clone, Debug, PartialEq, Eq, Structural)]
pub struct PhysAddr(pub u32);

impl PhysAddr {
    pub fn null() -> (r: Self)
        ensures
            r.0 == 0,
    {
        PhysAddr(0)
    }

    pub fn is_null(&self) -> (r: bool)
        ensures
            r == (self.0 == 0),
    {
        self.0 == 0
    }

    pub fn page_align(&self) -> (r: Self)
        ensures
            r.0 == self.0 & 0xFFFF_F000,
            r.0 <= self.0,
            r.0 % 4096 == 0,
            self.0 - r.0 < 4096,
    {
        let r = self.0 & 0xFFFF_F000u32;
        proof {
            lemma_page_round_down(self.0);
        }
        PhysAddr(r)
    }

    pub fn page_offset(&self) -> (r: u32)
        ensures
            r == self.0 % 4096,
    {
        let x = self.0;
        assert(x & 0xFFFu32 == x % 4096) by (bit_vector);
        x & 0xFFFu32
    }

    pub fn page_number(&self) -> (r: u32)
        ensures
            r == self.0 / 4096,
    {
        let x = self.0;
        assert(x >> 12u32 == x / 4096) by (bit_vector);
        x >> 12u32
    }
}

pub proof fn lemma_page_round_down(x: u32)
    ensures
        x & 0xFFFF_F000u32 <= x,
        (x & 0xFFFF_F000u32) % 4096 == 0,
        x - (x & 0xFFFF_F000u32) < 4096,
        x - (x & 0xFFFF_F000u32) == x % 4096,
{
    assert((x & 0xFFFF_F000u32 <= x) && ((x & 0xFFFF_F000u32) % 4096 == 0) && (x - (x & 0xFFFF_F000u32) == x % 4096)) by (bit_vector);
}

/// A page's number and its offset within the page put back together give
/// the address again.
pub proof fn law_page_number_and_offset_recombine(a: PhysAddr)
    ensures
        a.0 / 4096 * 4096 + a.0 % 4096 == a.0,
        a.0 & 0xFFFF_F000u32 == a.0 / 4096 * 4096,
{
    let x = a.0;
    assert(x & 0xFFFF_F000u32 == x / 4096 * 4096) by (bit_vector);
}

/// Builder for page-table-entry flag bits.
#[derive(Copy, Clone)]
pub struct PTEFlags(pub u32);

impl PTEFlags {
    pub fn new() -> (r: Self)
        ensures
            r.0 == 0,
    {
        PTEFlags(0)
    }

    pub fn present(self) -> (r: Self)
        ensures
            r.0 == self.0 | PTE_PRESENT,
    {
        PTEFlags(self.0 | PTE_PRESENT)
    }

    pub fn writable(self) -> (r: Self)
        ensures
            r.0 == self.0 | PTE_WRITABLE,
    {
        PTEFlags(self.0 | PTE_WRITABLE)
    }

    pub fn user(self) -> (r: Self)
        ensures
            r.0 == self.0 | PTE_USER,
    {
        PTEFlags(self.0 | PTE_USER)
    }

    pub fn write_through(self) -> (r: Self)
        ensures
            r.0 == self.0 | PTE_WRITE_THROUGH,
    {
        PTEFlags(self.0 | PTE_WRITE_THROUGH)
    }

    pub fn cache_disable(self) -> (r: Self)
        ensures
            r.0 == self.0 | PTE_CACHE_DISABLE,
    {
        PTEFlags(self.0 | PTE_CACHE_DISABLE)
    }

    pub fn accessed(self) -> (r: Self)
        ensures
            r.0 == self.0 | PTE_ACCESSED,
    {
        PTEFlags(self.0 | PTE_ACCESSED)
    }

    pub fn dirty(self) -> (r: Self)
        ensures
            r.0 == self.0 | PTE_DIRTY,
    {
        PTEFlags(self.0 | PTE_DIRTY)
    }

    pub fn bits(self) -> (r: u32)
        ensures
            r == self.0,
    {
        self.0
    }
}

/// Builder for page-directory-entry flag bits.
#[derive(Copy, Clone)]
pub struct PDEFlags(pub u32);

impl PDEFlags {
    pub fn new() -> (r: Self)
        ensures
            r.0 == 0,
    {
        PDEFlags(0)
    }

    pub fn present(self) -> (r: Self)
        ensures
            r.0 == self.0 | PDE_PRESENT,
    {
        PDEFlags(self.0 | PDE_PRESENT)
    }

    pub fn writable(self) -> (r: Self)
        ensures
            r.0 == self.0 | PDE_WRITABLE,
    {
        PDEFlags(self.0 | PDE_WRITABLE)
    }

    pub fn user(self) -> (r: Self)
        ensures
            r.0 == self.0 | PDE_USER,
    {
        PDEFlags(self.0 | PDE_USER)
    }

    pub fn accessed(self) -> (r: Self)
        ensures
            r.0 == self.0 | PDE_ACCESSED,
    {
        PDEFlags(self.0 | PDE_ACCESSED)
    }

    pub fn large_page(self) -> (r: Self)
        ensures
            r.0 == self.0 | PDE_DIR_PAGE_SIZE,
    {
        PDEFlags(self.0 | PDE_DIR_PAGE_SIZE)
    }

    pub fn bits(self) -> (r: u32)
        ensures
            r == self.0,
    {
        self.0
    }
}

/// Physical → higher-half kernel virtual.
pub open spec fn spec_phys_to_virt(phys: u32) -> u32 {
    if phys + KERNEL_OFFSET > u32::MAX {
        (phys + KERNEL_OFFSET - 0x1_0000_0000) as u32
    } else {
        (phys + KERNEL_OFFSET) as u32
    }
}

pub fn phys_to_virt(phys: u32) -> (r: u32)
    ensures
        r == spec_phys_to_virt(phys),
        phys < 0x4000_0000 ==> r == phys + KERNEL_OFFSET,
{
    phys.wrapping_add(KERNEL_OFFSET)
}

/// Directory index (top 10 bits) of a virtual address.
pub open spec fn pd_index_of(vaddr: u32) -> int {
    vaddr as int / 0x40_0000
}

/// Table index (middle 10 bits) of a virtual address.
pub open spec fn pt_index_of(vaddr: u32) -> int {
    (vaddr as int / 4096) % 1024
}

/// Spec translation of a virtual address, given the directory entry that
/// covers it and the page-table entry that the table would hold for it.
pub open spec fn spec_translate(pde: u32, pte: u32, vaddr: u32) -> Option<u32> {
    if pde & PDE_PRESENT == 0 {
        None
    } else if pde & PDE_DIR_PAGE_SIZE != 0 {
        Some((pde & 0xFFC0_0000) | (vaddr & 0x003F_FFFF))
    } else if pte & PTE_PRESENT == 0 {
        None
    } else {
        Some((pte & 0xFFFF_F000) | (vaddr & 0xFFF))
    }
}

/// One 32-bit store into a page table that lives in physical memory.
#[derive(Copy, Clone, Debug, PartialEq, Eq, Structural)]
pub struct PteWrite {
    /// Higher-half virtual address of the page table.
    pub table: u32,
    /// Index into the table.
    pub index: usize,
    /// Value to store.
    pub value: u32,
}

/// What `PageDirectory::unmap` did, and the table store it still needs.
#[derive(Copy, Clone, Debug, PartialEq, Eq, Structural)]
pub enum Unmapped {
    /// Index out of range or directory entry not present: nothing to do.
    Nothing,
    /// A 4 MiB large page was dropped from the directory.
    LargePage,
    /// The entry lives in a page table; the caller stores zero there.
    Table(PteWrite),
}

pub struct PageDirectory {
    pub entries: Vec<u32>,
}

impl PageDirectory {
    pub open spec fn wf(&self) -> bool {
        self.entries@.len() == ENTRIES
    }

    pub open spec fn view(&self) -> Seq<u32> {
        self.entries@
    }

    pub fn new() -> (r: Self)
        ensures
            r.wf(),
            forall|i: int| 0 <= i < ENTRIES ==> r.entries@[i] == 0,
    {
        PageDirectory { entries: vec![0u32; ENTRIES] }
    }

    /// Page table of a directory entry, reached through the higher half.
    pub fn pt_from_pde(pde: u32) -> (r: u32)
        ensures
            r == spec_phys_to_virt(pde & 0xFFFF_F000),
    {
        phys_to_virt(pde & 0xFFFF_F000u32)
    }

    /// Page table `pd_index` seen through the recursive mapping.
    pub fn get_page_table_ptr(pd_index: usize) -> (r: u32)
        requires
            pd_index < ENTRIES,
        ensures
            r == VIRT_PT_BASE + pd_index * 4096,
    {
        VIRT_PT_BASE + (pd_index as u32) * 4096
    }

    /// Point the last directory slot at the directory itself.
    pub fn setup_recursive(&mut self, pd_phys: u32)
        requires
            old(self).wf(),
        ensures
            final(self).wf(),
            final(self)@ == old(self)@.update(
                RECURSIVE_INDEX as int,
                pd_phys | PDE_PRESENT | PDE_WRITABLE,
            ),
    {
        self.entries.set(RECURSIVE_INDEX, pd_phys | PDE_PRESENT | PDE_WRITABLE);
    }

    /// Map a 4 MiB large page.
    pub fn map_large(&mut self, virtual_addr: u32, physical_addr: u32, flags: PDEFlags)
        requires
            old(self).wf(),
        ensures
            final(self).wf(),
            final(self)@ == old(self)@.update(
                pd_index_of(virtual_addr),
                (physical_addr & 0xFFC0_0000) | flags.0 | PDE_DIR_PAGE_SIZE,
            ),
    {
        let pd_index = (virtual_addr >> 22u32) as usize;
        assert(virtual_addr >> 22u32 == virtual_addr / 0x40_0000) by (bit_vector);
        let value = (physical_addr & 0xFFC0_0000u32) | flags.bits() | PDE_DIR_PAGE_SIZE;
        self.entries.set(pd_index, value);
    }

    /// Does this directory entry need a fresh 4 KiB page table before a
    /// 4 KiB mapping can go under it?
    pub fn needs_table(pde: u32) -> (r: bool)
        ensures
            r == (pde & PDE_PRESENT == 0 || pde & PDE_DIR_PAGE_SIZE != 0),
    {
        pde & PDE_PRESENT == 0 || pde & PDE_DIR_PAGE_SIZE != 0
    }

    /// Install a freshly allocated page table (frame number `pt_frame`) at
    /// `pd_index`, with the given extra directory flags.
    pub fn install_table(&mut self, pd_index: usize, pt_frame: u32, extra: u32) -> (r: u32)
        requires
            old(self).wf(),
            pd_index < ENTRIES,
            pt_frame < 0x10_0000,
        ensures
            final(self).wf(),
            r == pt_frame * 4096,
            final(self)@ == old(self)@.update(
                pd_index as int,
                (pt_frame * 4096) as u32 | PDE_PRESENT | PDE_WRITABLE | extra,
            ),
    {
        let pt_phys = pt_frame << 12u32;
        assert(pt_frame < 0x10_0000 ==> pt_frame << 12u32 == pt_frame * 4096) by (bit_vector);
        self.entries.set(pd_index, pt_phys | PDE_PRESENT | PDE_WRITABLE | extra);
        pt_phys
    }

    /// Map virtual page number `virtual_page` to physical page number
    /// `physical_page`. When the covering directory entry has no 4 KiB table,
    /// `new_table_frame` becomes one (the caller zeroes it; `r.1` tells).
    /// Returns the page-table store that completes the mapping.
    pub fn map(
        &mut self,
        virtual_page: u32,
        physical_page: u32,
        flags: PTEFlags,
        new_table_frame: u32,
    ) -> (r: (PteWrite, bool))
        requires
            old(self).wf(),
            virtual_page < 0x10_0000,
            physical_page < 0x10_0000,
            new_table_frame < 0x10_0000,
        ensures
            final(self).wf(),
            ({
                let pd = virtual_page as int / 1024;
                let old_pde = old(self)@[pd];
                let fresh = old_pde & PDE_PRESENT == 0 || old_pde & PDE_DIR_PAGE_SIZE != 0;
                &&& r.1 == fresh
                &&& fresh ==> final(self)@ == old(self)@.update(
                    pd,
                    (new_table_frame * 4096) as u32 | PDE_PRESENT | PDE_WRITABLE | PDE_USER,
                )
                &&& !fresh ==> final(self)@ == old(self)@
                &&& r.0.table == spec_phys_to_virt(final(self)@[pd] & 0xFFFF_F000)
                &&& r.0.index == virtual_page as int % 1024
                &&& r.0.value == (physical_page * 4096) as u32 | flags.0
            }),
    {
        let pd_index = (virtual_page >> 10u32) as usize;
        let pt_index = (virtual_page & 0x3FFu32) as usize;
        assert((virtual_page >> 10u32 == virtual_page / 1024) && (virtual_page & 0x3FFu32 == virtual_page % 1024)) by (bit_vector);
        let pde = self.entries[pd_index];
        let fresh = Self::needs_table(pde);
        if fresh {
            self.install_table(pd_index, new_table_frame, PDE_USER);
        }
        let table = Self::pt_from_pde(self.entries[pd_index]);
        assert(physical_page < 0x10_0000 ==> physical_page << 12u32 == physical_page * 4096)
            by (bit_vector);
        let value = (physical_page << 12u32) | flags.bits();
        (PteWrite { table, index: pt_index, value }, fresh)
    }

    /// Remove the mapping of `virtual_addr`.
    pub fn unmap(&mut self, virtual_addr: u32) -> (r: Unmapped)
        requires
            old(self).wf(),
        ensures
            final(self).wf(),
            ({
                let pd = pd_index_of(virtual_addr);
                let pde = old(self)@[pd];
                if pde & PDE_PRESENT == 0 {
                    r == Unmapped::Nothing && final(self)@ == old(self)@
                } else if pde & PDE_DIR_PAGE_SIZE != 0 {
                    r == Unmapped::LargePage && final(self)@ == old(self)@.update(pd, 0)
                } else {
                    &&& final(self)@ == old(self)@
                    &&& r == Unmapped::Table(PteWrite {
                        table: spec_phys_to_virt(pde & 0xFFFF_F000),
                        index: pt_index_of(virtual_addr) as usize,
                        value: 0,
                    })
                }
            }),
    {
        assert(virtual_addr >> 22u32 == virtual_addr / 0x40_0000 && (virtual_addr >> 12u32) & 0x3FFu32 == (virtual_addr / 4096) % 1024) by (bit_vector);
        let pd_index = (virtual_addr >> 22u32) as usize;
        let pt_index = ((virtual_addr >> 12u32) & 0x3FFu32) as usize;
        let entry = self.entries[pd_index];
        if entry & PDE_PRESENT == 0 {
            return Unmapped::Nothing;
        }
        if entry & PDE_DIR_PAGE_SIZE != 0 {
            self.entries.set(pd_index, 0);
            Unmapped::LargePage
        } else {
            Unmapped::Table(PteWrite { table: Self::pt_from_pde(entry), index: pt_index, value: 0 })
        }
    }

    /// Where the page-table entry for `virtual_addr` lives, if the directory
    /// entry points at a 4 KiB table.
    pub fn pte_location(&self, virtual_addr: u32) -> (r: Option<(u32, usize)>)
        requires
            self.wf(),
        ensures
            ({
                let pde = self@[pd_index_of(virtual_addr)];
                if pde & PDE_PRESENT != 0 && pde & PDE_DIR_PAGE_SIZE == 0 {
                    r == Some((spec_phys_to_virt(pde & 0xFFFF_F000), pt_index_of(virtual_addr) as usize))
                } else {
                    r is None
                }
            }),
    {
        assert(virtual_addr >> 22u32 == virtual_addr / 0x40_0000 && (virtual_addr >> 12u32) & 0x3FFu32 == (virtual_addr / 4096) % 1024) by (bit_vector);
        let pd_index = (virtual_addr >> 22u32) as usize;
        let pt_index = ((virtual_addr >> 12u32) & 0x3FFu32) as usize;
        let pde = self.entries[pd_index];
        if pde & PDE_PRESENT != 0 && pde & PDE_DIR_PAGE_SIZE == 0 {
            Some((Self::pt_from_pde(pde), pt_index))
        } else {
            None
        }
    }

    /// Translate a virtual address. `pte` is the page-table entry found at
    /// `pte_location(virtual_addr)` (ignored for large pages and absent
    /// directory entries).
    pub fn translate(&self, virtual_addr: u32, pte: u32) -> (r: Option<u32>)
        requires
            self.wf(),
        ensures
            r == spec_translate(self@[pd_index_of(virtual_addr)], pte, virtual_addr),
    {
        let pd_index = (virtual_addr >> 22u32) as usize;
        assert(virtual_addr >> 22u32 == virtual_addr / 0x40_0000) by (bit_vector);
        let offset = virtual_addr & 0xFFFu32;
        let pd_entry = self.entries[pd_index];
        if pd_entry & PDE_PRESENT == 0 {
            return None;
        }
        if pd_entry & PDE_DIR_PAGE_SIZE != 0 {
            let phys_base = pd_entry & 0xFFC0_0000u32;
            Some(phys_base | (virtual_addr & 0x003F_FFFFu32))
        } else {
            if pte & PTE_PRESENT == 0 {
                return None;
            }
            Some((pte & 0xFFFF_F000u32) | offset)
        }
    }

    /// Physical address of a directory whose kernel-virtual address is `virt`.
    pub fn dir_phys(virt: u32) -> (r: u32)
        ensures
            r == if virt >= KERNEL_OFFSET { (virt - KERNEL_OFFSET) as u32 } else { virt },
    {
        if virt >= KERNEL_OFFSET {
            virt - KERNEL_OFFSET
        } else {
            virt
        }
    }
}

/// After a large page is mapped, every address in that 4 MiB window
/// translates to the same offset inside the physical large page.
pub proof fn law_map_large_then_translate(
    before: Seq<u32>,
    virtual_addr: u32,
    physical_addr: u32,
    flags: PDEFlags,
    probe: u32,
    pte: u32,
)
    requires
        before.len() == ENTRIES,
        pd_index_of(probe) == pd_index_of(virtual_addr),
        flags.0 & PDE_PRESENT != 0,
        flags.0 <= 0xFFF,
    ensures
        ({
            let after = before.update(
                pd_index_of(virtual_addr),
                (physical_addr & 0xFFC0_0000) | flags.0 | PDE_DIR_PAGE_SIZE,
            );
            spec_translate(after[pd_index_of(probe)], pte, probe) == Some(
                (physical_addr & 0xFFC0_0000) | (probe & 0x003F_FFFF),
            )
        }),
{
    let f = flags.0;
    assert(f & 1u32 != 0 ==> ((physical_addr & 0xFFC0_0000u32) | f | 128u32) & 1u32 != 0)
        by (bit_vector);
    assert(((physical_addr & 0xFFC0_0000u32) | f | 128u32) & 128u32 != 0) by (bit_vector);
    assert(f <= 0xFFFu32 ==> (((physical_addr & 0xFFC0_0000u32) | f | 128u32)
        & 0xFFC0_0000u32) == physical_addr & 0xFFC0_0000u32) by (bit_vector);
    assert(virtual_addr as int / 0x40_0000 < 1024);
}

/// The first frame number at or after `next` that is a multiple of `align`.
pub open spec fn aligned_first(next: int, align: int) -> int {
    if next % align == 0 {
        next
    } else {
        next + (align - next % align)
    }
}

/// Bump allocator over physical frames plus the kernel page directory.
pub struct PageManager {
    pub dir: PageDirectory,
    pub next_free_page: u32,
}

impl PageManager {
    pub open spec fn wf(&self) -> bool {
        self.dir.wf()
    }

    pub fn new() -> (r: Self)
        ensures
            r.wf(),
            r.next_free_page == 0,
            forall|i: int| 0 <= i < ENTRIES ==> r.dir@[i] == 0,
    {
        PageManager { dir: PageDirectory::new(), next_free_page: 0 }
    }

    /// Physical address of this manager's directory, whose kernel-virtual
    /// address is `virt` (where it sits in memory is the caller's to read).
    pub fn dir_phys(&self, virt: u32) -> (r: u32)
        ensures
            r == if virt >= KERNEL_OFFSET { (virt - KERNEL_OFFSET) as u32 } else { virt },
    {
        PageDirectory::dir_phys(virt)
    }

    /// Hand out the next frame number.
    pub fn alloc_phys_frame(&mut self) -> (r: u32)
        requires
            old(self).next_free_page < u32::MAX,
        ensures
            r == old(self).next_free_page,
            final(self).next_free_page == old(self).next_free_page + 1,
            final(self).dir == old(self).dir,
    {
        let frame = self.next_free_page;
        self.next_free_page = self.next_free_page + 1;
        frame
    }

    /// Freed frames are not recycled by the bump allocator.
    pub fn free_phys_frame(&mut self, frame: u32)
        ensures
            final(self).next_free_page == old(self).next_free_page,
            final(self).dir == old(self).dir,
    {
    }

    /// Next frame inside the large-page window.
    pub fn alloc_frame(&mut self) -> (r: u32)
        requires
            old(self).next_free_page < MAX_PAGE,
        ensures
            r == old(self).next_free_page,
            final(self).next_free_page == old(self).next_free_page + 1,
            final(self).dir == old(self).dir,
    {
        let frame = self.next_free_page;
        self.next_free_page = self.next_free_page + 1;
        frame
    }

    /// One page of a kernel mapping. When the directory entry covering
    /// `virt` is not present, the next frame becomes a kernel-only page table
    /// for it and `r.1` names that table's kernel-virtual address, which the
    /// caller zeroes first. `r.0` is the page-table store that maps `virt`
    /// to the frame of `phys` with `flags`.
    pub fn map_kernel_page(&mut self, virt: u32, phys: u32, flags: PTEFlags) -> (r: (PteWrite, Option<u32>))
        requires
            old(self).wf(),
            old(self).dir@[pd_index_of(virt)] & PDE_PRESENT == 0 ==> old(self).next_free_page < MAX_PAGE,
        ensures
            final(self).wf(),
            ({
                let pd = pd_index_of(virt);
                let fresh = old(self).dir@[pd] & PDE_PRESENT == 0;
                let table = spec_phys_to_virt(final(self).dir@[pd] & 0xFFFF_F000);
                &&& fresh ==> {
                    &&& final(self).dir@ == old(self).dir@.update(
                        pd,
                        (old(self).next_free_page * 4096) as u32 | PDE_PRESENT | PDE_WRITABLE,
                    )
                    &&& final(self).next_free_page == old(self).next_free_page + 1
                    &&& r.1 == Some(table)
                }
                &&& !fresh ==> {
                    &&& final(self).dir@ == old(self).dir@
                    &&& final(self).next_free_page == old(self).next_free_page
                    &&& r.1 is None
                }
                &&& r.0 == (PteWrite { table, index: pt_index_of(virt) as usize, value: (phys & 0xFFFF_F000) | flags.0 })
                &&& final(self).dir@[pd] & PDE_PRESENT != 0
            }),
    {
        let pd_index = ((virt >> 12u32) >> 10u32) as usize;
        let pt_index = ((virt >> 12u32) & 0x3FFu32) as usize;
        let frame_base = (phys >> 12u32) << 12u32;
        assert(((virt >> 12u32) >> 10u32 == virt / 0x40_0000) && ((virt >> 12u32) & 0x3FFu32 == (virt
            / 4096) % 1024) && ((phys >> 12u32) << 12u32 == phys & 0xFFFF_F000u32)) by (bit_vector);
        let pde = self.dir.entries[pd_index];
        let mut fresh_table: Option<u32> = None;
        if pde & PDE_PRESENT == 0 {
            let frame = self.alloc_frame();
            let fv = frame * 4096;
            assert((fv | 1u32 | 2u32) & 1u32 != 0) by (bit_vector);
            self.dir.entries.set(pd_index, (frame * 4096) | PDE_PRESENT | PDE_WRITABLE);
            fresh_table = Some(PageDirectory::pt_from_pde(self.dir.entries[pd_index]));
        }
        let table = PageDirectory::pt_from_pde(self.dir.entries[pd_index]);
        (PteWrite { table, index: pt_index, value: frame_base | flags.bits() }, fresh_table)
    }

    /// `pages` consecutive frames whose first frame is a multiple of
    /// `align_pages` and whose last frame is below `max_page_exclusive`.
    pub fn alloc_contiguous_frames_aligned_below(
        &mut self,
        pages: u32,
        align_pages: u32,
        max_page_exclusive: u32,
    ) -> (r: Result<u32, ()>)
        requires
            align_pages > 0,
        ensures
            final(self).dir == old(self).dir,
            (r is Ok) <==> aligned_first(old(self).next_free_page as int, align_pages as int)
                + pages <= max_page_exclusive,
            r matches Ok(first) ==> first == aligned_first(
                old(self).next_free_page as int,
                align_pages as int,
            ),
            match r {
                Ok(first) => {
                    &&& first >= old(self).next_free_page
                    &&& first % align_pages == 0
                    &&& first + pages <= max_page_exclusive
                    &&& first - old(self).next_free_page < align_pages
                    &&& final(self).next_free_page == first + pages
                },
                Err(()) => final(self).next_free_page == old(self).next_free_page,
            },
    {
        let next = self.next_free_page;
        let rem = next % align_pages;
        let first: u64 = if rem == 0 {
            next as u64
        } else {
            next as u64 + (align_pages - rem) as u64
        };
        let end: u64 = first + pages as u64;
        if end > max_page_exclusive as u64 {
            return Err(());
        }
        proof {
            let a = align_pages as int;
            let q = next as int / a;
            vstd::arithmetic::div_mod::lemma_fundamental_div_mod(next as int, a);
            if rem != 0 {
                assert(first == (q + 1) * a) by (nonlinear_arith)
                    requires
                        next as int == a * q + rem as int,
                        first == next as int + (a - rem as int),
                ;
                vstd::arithmetic::div_mod::lemma_mod_multiples_basic(q + 1, a);
            } else {
                assert(first == q * a) by (nonlinear_arith)
                    requires
                        next as int == a * q + rem as int,
                        rem == 0,
                        first == next as int,
                ;
                vstd::arithmetic::div_mod::lemma_mod_multiples_basic(q, a);
            }
        }
        self.next_free_page = end as u32;
        Ok(first as u32)
    }
}

/// Share the kernel half of `kernel_pd` into a task directory: the identity
/// large pages (entries below `LARGE_PAGE_COUNT`) and the higher half
/// (768..1023) that are present, and point the recursive slot at the task's
/// own directory.
pub fn copy_kernel_mappings(task_dir: &mut PageDirectory, kernel_pd: &PageDirectory, task_pd_phys: u32)
    requires
        old(task_dir).wf(),
        kernel_pd.wf(),
    ensures
        final(task_dir).wf(),
        forall|i: int|
            #![trigger final(task_dir)@[i]]
            0 <= i < ENTRIES ==> final(task_dir)@[i] == if i == RECURSIVE_INDEX {
                task_pd_phys | PDE_PRESENT | PDE_WRITABLE
            } else if (i < LARGE_PAGE_COUNT || 768 <= i < 1023) && kernel_pd@[i] & PDE_PRESENT
                != 0 {
                kernel_pd@[i]
            } else {
                old(task_dir)@[i]
            },
{
    let ghost orig = task_dir.entries@;
    let mut i: usize = 0;
    while i < ENTRIES
        invariant
            0 <= i <= ENTRIES,
            orig.len() == ENTRIES,
            task_dir.entries@.len() == ENTRIES,
            kernel_pd.entries@.len() == ENTRIES,
            forall|j: int|
                #![trigger task_dir.entries@[j]]
                0 <= j < ENTRIES ==> task_dir.entries@[j] == if j < i && (j < LARGE_PAGE_COUNT
                    || 768 <= j < 1023) && kernel_pd.entries@[j] & PDE_PRESENT != 0 {
                    kernel_pd.entries@[j]
                } else {
                    orig[j]
                },
        decreases ENTRIES - i,
    {
        let shared = i < LARGE_PAGE_COUNT as usize || (768 <= i && i < 1023);
        if shared {
            let pde = kernel_pd.entries[i];
            if pde & PDE_PRESENT != 0 {
                task_dir.entries.set(i, pde);
            }
        }
        i = i + 1;
    }
    task_dir.entries.set(RECURSIVE_INDEX, task_pd_phys | PDE_PRESENT | PDE_WRITABLE);
}

/// Pages in a range of `size` bytes (the last one partial).
pub open spec fn range_pages(size: u32) -> int {
    (size as int + 4095) / 4096
}

/// Directory entries a mapping of `pages` pages from `virt` touches.
pub open spec fn dir_entries_touched(virt: u32, pages: int) -> int {
    if pages <= 0 { 0 } else { (virt as int + 4096 * (pages - 1)) / 0x40_0000 - virt as int / 0x40_0000 + 1 }
}

/// Store `k` of mapping `[phys, phys + size)` at `virt` page by page:
/// page `k` of the window maps page `k` of the physical range with `flags`,
/// through the table the (final) directory names for it.
pub open spec fn maps_page(dir: Seq<u32>, w: PteWrite, virt: u32, phys: u32, flags: PTEFlags, k: int) -> bool {
    let v = (virt + 4096 * k) as u32;
    let p = (phys + 4096 * k) as u32;
    &&& dir[pd_index_of(v)] & PDE_PRESENT != 0
    &&& w == (PteWrite { table: spec_phys_to_virt(dir[pd_index_of(v)] & 0xFFFF_F000), index: pt_index_of(v) as usize,
        value: (p & 0xFFFF_F000) | flags.0 })
}

proof fn lemma_pd_monotone(a: int, b: int)
    requires
        0 <= a <= b,
    ensures
        a / 0x40_0000 <= b / 0x40_0000,
        b / 0x40_0000 - a / 0x40_0000 <= (b - a) / 0x40_0000 + 1,
{
    vstd::arithmetic::div_mod::lemma_div_is_ordered(a, b, 0x40_0000);
    vstd::arithmetic::div_mod::lemma_fundamental_div_mod(a, 0x40_0000);
    vstd::arithmetic::div_mod::lemma_fundamental_div_mod(b, 0x40_0000);
    vstd::arithmetic::div_mod::lemma_fundamental_div_mod(b - a, 0x40_0000);
}

impl PageManager {
    /// Map `[phys_start, phys_start + size)` at `virt_start` page by page
    /// with `flags`, making a kernel page table (from the next frames) for
    /// each directory entry that has none. Returns, page by page, the table
    /// store and the table to zero first when one was made.
    #[verifier::rlimit(40)]
    pub fn map_physical_range(&mut self, phys_start: u32, size: u32, virt_start: u32, flags: PTEFlags)
        -> (r: Vec<(PteWrite, Option<u32>)>)
        requires
            old(self).wf(),
            virt_start + 4096 * range_pages(size) <= 0x1_0000_0000,
            phys_start + 4096 * range_pages(size) <= 0x1_0000_0000,
            old(self).next_free_page + dir_entries_touched(virt_start, range_pages(size)) <= MAX_PAGE,
        ensures
            final(self).wf(),
            r@.len() == range_pages(size),
            forall|k: int| 0 <= k < r@.len() ==> maps_page(final(self).dir@, (#[trigger] r@[k]).0, virt_start, phys_start, flags, k),
            forall|i: int| 0 <= i < ENTRIES && old(self).dir@[i] & PDE_PRESENT != 0 ==> #[trigger] final(self).dir@[i] == old(self).dir@[i],
            final(self).next_free_page <= old(self).next_free_page + dir_entries_touched(virt_start, range_pages(size)),
    {
        let pages: u32 = ((size as u64 + 4095) / 4096) as u32;
        let mut out: Vec<(PteWrite, Option<u32>)> = Vec::new();
        let mut k: u32 = 0;
        while k < pages
            invariant
                self.wf(),
                pages == range_pages(size),
                k <= pages,
                out@.len() == k,
                virt_start + 4096 * range_pages(size) <= 0x1_0000_0000,
                phys_start + 4096 * range_pages(size) <= 0x1_0000_0000,
                old(self).next_free_page + dir_entries_touched(virt_start, range_pages(size)) <= MAX_PAGE,
                forall|j: int| 0 <= j < k ==> maps_page(self.dir@, (#[trigger] out@[j]).0, virt_start, phys_start, flags, j),
                forall|i: int| 0 <= i < ENTRIES && old(self).dir@[i] & PDE_PRESENT != 0 ==> #[trigger] self.dir@[i] == old(self).dir@[i],
                self.next_free_page <= old(self).next_free_page + dir_entries_touched(virt_start, k as int),
            decreases pages - k,
        {
            let v = virt_start + k * 4096;
            let p = phys_start + k * 4096;
            let ghost pd = pd_index_of(v);
            proof {
                lemma_pd_monotone(virt_start as int, v as int);
                lemma_pd_monotone(v as int, virt_start + 4096 * (pages - 1));
                if k > 0 {
                    lemma_pd_monotone(virt_start + 4096 * (k - 1), v as int);
                    let vp = (virt_start + 4096 * (k - 1)) as u32;
                    assert(maps_page(self.dir@, out@[k - 1].0, virt_start, phys_start, flags, k - 1));
                    if pd_index_of(vp) == pd {
                        assert(self.dir@[pd] & PDE_PRESENT != 0);
                    }
                }
                assert(pd < ENTRIES) by {
                    vstd::arithmetic::div_mod::lemma_div_is_ordered(v as int, 0xFFFF_FFFF, 0x40_0000);
                }
            }
            let ghost before_dir = self.dir@;
            let ghost before_out = out@;
            let step = self.map_kernel_page(v, p, flags);
            out.push(step);
            proof {
                assert forall|j: int| 0 <= j < k + 1 implies maps_page(self.dir@, (#[trigger] out@[j]).0, virt_start, phys_start, flags, j) by {
                    if j < k {
                        assert(out@[j] == before_out[j]);
                        let vj = (virt_start + 4096 * j) as u32;
                        assert(before_dir[pd_index_of(vj)] & PDE_PRESENT != 0);
                        assert(self.dir@[pd_index_of(vj)] == before_dir[pd_index_of(vj)]);
                    } else {
                        assert(out@[j] == step);
                    }
                }
                assert forall|i: int| 0 <= i < ENTRIES && old(self).dir@[i] & PDE_PRESENT != 0 implies #[trigger] self.dir@[i] == old(self).dir@[i] by {
                    assert(before_dir[i] == old(self).dir@[i]);
                }
            }
            k = k + 1;
        }
        out
    }
}

} // verus!
