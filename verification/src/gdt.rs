//! The global descriptor table: flat 4 GiB kernel and user segments and
//! the task-state-segment descriptor. Loading the table (`lgdt`, `ltr`) is
//! the caller's part.
use vstd::prelude::*;

verus! {

pub const GDT_ENTRIES: usize = 7;

/// Flat 4 GiB ring-0 code segment (selector 0x08).
pub const KERNEL_CODE: u64 = 0x00CF_9A00_0000_FFFF;
/// Flat 4 GiB ring-0 data segment (selector 0x10).
pub const KERNEL_DATA: u64 = 0x00CF_9200_0000_FFFF;
/// Flat 4 GiB ring-3 code segment (selector 0x18, used as 0x1B).
pub const USER_CODE: u64 = 0x00CF_FA00_0000_FFFF;
/// Flat 4 GiB ring-3 data segment (selector 0x20, used as 0x23).
pub const USER_DATA: u64 = 0x00CF_F200_0000_FFFF;
/// Selector of the task-state segment (entry 5).
pub const TSS_SELECTOR: u16 = 0x28;

#[derive(Copy, Clone, Debug, PartialEq, Eq, Structural)]
pub struct GdtEntry {
    pub entry: u64,
}

pub struct GlobalDescriptorTable {
    pub entries: [GdtEntry; GDT_ENTRIES],
}

/// The operand of `lgdt`: table size minus one and its address.
#[derive(Copy, Clone, Debug, PartialEq, Eq, Structural)]
pub struct GdtDescriptor {
    pub size: u16,
    pub offset: u32,
}

/// The 64-bit descriptor of an available 32-bit TSS at `base` with byte
/// limit `limit` (present, ring 0, type 0x9): the limit's low 16 bits, the
/// base's low 24 bits, the access byte 0x89, the limit's bits 16..20 and
/// the base's top byte, from the lowest bits up.
pub open spec fn tss_descriptor(base: u32, limit: u32) -> u64 {
    (limit as int % 0x1_0000 + (base as int % 0x1_0000) * 0x1_0000 + ((base as int / 0x1_0000) % 0x100)
        * 0x1_0000_0000 + 0x89 * 0x100_0000_0000 + ((limit as int / 0x1_0000) % 0x10) * 0x1_0000_0000_0000
        + (base as int / 0x100_0000) * 0x100_0000_0000_0000) as u64
}

pub fn make_tss_descriptor(base: u32, limit: u32) -> (r: GdtEntry)
    ensures
        r.entry == tss_descriptor(base, limit),
{
    let limit_low = (limit % 0x1_0000) as u64;
    let base_low = (base % 0x1_0000) as u64;
    let base_mid = ((base / 0x1_0000) % 0x100) as u64;
    let limit_high = ((limit / 0x1_0000) % 0x10) as u64;
    let base_high = (base / 0x100_0000) as u64;
    let entry = limit_low + base_low * 0x1_0000 + base_mid * 0x1_0000_0000 + 0x89 * 0x100_0000_0000 + limit_high
        * 0x1_0000_0000_0000 + base_high * 0x100_0000_0000_0000;
    GdtEntry { entry }
}

impl GlobalDescriptorTable {
    /// A table of null descriptors.
    pub fn new() -> (r: Self)
        ensures
            forall|i: int| 0 <= i < GDT_ENTRIES ==> (#[trigger] r.entries@[i]).entry == 0,
    {
        GlobalDescriptorTable { entries: [GdtEntry { entry: 0 }; GDT_ENTRIES] }
    }

    /// Fill the table: null, kernel code, kernel data, user code, user
    /// data, the TSS at `tss_base` whose record is `tss_size` bytes, null.
    pub fn init(&mut self, tss_base: u32, tss_size: u32)
        requires
            tss_size >= 1,
        ensures
            final(self).entries@ == seq![
                GdtEntry { entry: 0 },
                GdtEntry { entry: KERNEL_CODE },
                GdtEntry { entry: KERNEL_DATA },
                GdtEntry { entry: USER_CODE },
                GdtEntry { entry: USER_DATA },
                GdtEntry { entry: tss_descriptor(tss_base, (tss_size - 1) as u32) },
                GdtEntry { entry: 0 },
            ],
    {
        let zero = GdtEntry { entry: 0 };
        let tss = make_tss_descriptor(tss_base, tss_size - 1);
        self.entries = [
            zero,
            GdtEntry { entry: KERNEL_CODE },
            GdtEntry { entry: KERNEL_DATA },
            GdtEntry { entry: USER_CODE },
            GdtEntry { entry: USER_DATA },
            tss,
            zero,
        ];
        assert(self.entries@ =~= seq![
            GdtEntry { entry: 0 },
            GdtEntry { entry: KERNEL_CODE },
            GdtEntry { entry: KERNEL_DATA },
            GdtEntry { entry: USER_CODE },
            GdtEntry { entry: USER_DATA },
            GdtEntry { entry: tss_descriptor(tss_base, (tss_size - 1) as u32) },
            GdtEntry { entry: 0 },
        ]);
    }

    /// The `lgdt` operand for this table placed at `address`: seven 8-byte
    /// entries, so a size of 55.
    pub fn descriptor(&self, address: u32) -> (r: GdtDescriptor)
        ensures
            r == (GdtDescriptor { size: 55, offset: address }),
    {
        GdtDescriptor { size: (GDT_ENTRIES * 8 - 1) as u16, offset: address }
    }
}

} // verus!
