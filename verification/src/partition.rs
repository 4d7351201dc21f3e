//! MBR partition tables: where a FAT or ext2 volume starts on a disk.
//!
//! The caller reads sector 0; everything here works on its 512 bytes.
use vstd::prelude::*;
use crate::ext2::{le32, get_u32_le};

verus! {

/// Byte offset of the first of the four MBR partition entries.
pub const MBR_TABLE: usize = 0x1BE;

/// Partition type of ext2 (Linux native).
pub const EXT2_PART_TYPE: u8 = 0x83;

/// Where a filesystem starts on its disk.
#[derive(Clone, Copy, Debug, PartialEq, Eq, Structural)]
pub struct PartitionConfig {
    pub start_lba: u64,
}

impl PartitionConfig {
    pub fn new(start_lba: u64) -> (r: Self)
        ensures
            r.start_lba == start_lba,
    {
        PartitionConfig { start_lba }
    }

    /// The whole disk, from sector 0.
    pub fn whole_disk() -> (r: Self)
        ensures
            r.start_lba == 0,
    {
        PartitionConfig { start_lba: 0 }
    }
}

/// The partition types that usually mean FAT: FAT12, FAT16 below 32 MiB,
/// FAT16, FAT32 (CHS), FAT32 (LBA) and FAT16 (LBA).
pub open spec fn fat_types() -> Seq<u8> {
    seq![0x01u8, 0x04u8, 0x06u8, 0x0Bu8, 0x0Cu8, 0x0Eu8]
}

pub fn fat_partition_types() -> (r: Vec<u8>)
    ensures
        r@ == fat_types(),
{
    let r: Vec<u8> = vec![0x01, 0x04, 0x06, 0x0B, 0x0C, 0x0E];
    assert(r@ =~= fat_types());
    r
}

/// The sector ends with the 0x55 0xAA boot signature.
pub open spec fn has_mbr_signature(mbr: Seq<u8>) -> bool {
    mbr[510] == 0x55 && mbr[511] == 0xAA
}

/// Type byte of partition entry `i`.
pub open spec fn entry_type(mbr: Seq<u8>, i: int) -> u8 {
    mbr[MBR_TABLE + 16 * i + 4]
}

/// Start LBA (little-endian, 32 bits) of partition entry `i`.
pub open spec fn entry_start(mbr: Seq<u8>, i: int) -> int {
    le32(mbr, MBR_TABLE + 16 * i + 8)
}

/// First of the entries `i..4` whose type is in `types`.
pub open spec fn first_entry_from(mbr: Seq<u8>, types: Seq<u8>, i: int) -> Option<int>
    decreases 4 - i,
{
    if i >= 4 {
        None
    } else if types.contains(entry_type(mbr, i)) {
        Some(i)
    } else {
        first_entry_from(mbr, types, i + 1)
    }
}

/// Start LBA of the first of the four entries whose type is in `types`,
/// when the sector carries the MBR signature.
pub open spec fn spec_first_partition(mbr: Seq<u8>, types: Seq<u8>) -> Option<u64> {
    if !has_mbr_signature(mbr) {
        None
    } else {
        match first_entry_from(mbr, types, 0) {
            Some(i) => Some(entry_start(mbr, i) as u64),
            None => None,
        }
    }
}

fn contains_byte(types: &[u8], b: u8) -> (r: bool)
    ensures
        r == types@.contains(b),
{
    let mut k: usize = 0;
    while k < types.len()
        invariant
            0 <= k <= types@.len(),
            forall|j: int| 0 <= j < k ==> types@[j] != b,
        decreases types@.len() - k,
    {
        if types[k] == b {
            return true;
        }
        k = k + 1;
    }
    false
}

/// Start LBA of the first MBR partition whose type is in `types`.
pub fn mbr_partition_lba(mbr: &[u8], types: &[u8]) -> (r: Option<u64>)
    requires
        mbr@.len() == 512,
    ensures
        r == spec_first_partition(mbr@, types@),
{
    if mbr[510] != 0x55 || mbr[511] != 0xAA {
        return None;
    }
    let mut i: usize = 0;
    while i < 4
        invariant
            0 <= i <= 4,
            mbr@.len() == 512,
            has_mbr_signature(mbr@),
            first_entry_from(mbr@, types@, 0) == first_entry_from(mbr@, types@, i as int),
        decreases 4 - i,
    {
        let off = MBR_TABLE + i * 16;
        if contains_byte(types, mbr[off + 4]) {
            let lba = get_u32_le(mbr, off + 8);
            return Some(lba as u64);
        }
        i = i + 1;
    }
    None
}

/// Where the first FAT volume starts: the first MBR entry of a FAT type,
/// else the whole disk (also when sector 0 could not be read: `None`).
pub fn find_fat_partition_config(mbr: Option<&[u8]>) -> (r: PartitionConfig)
    requires
        mbr matches Some(m) ==> m@.len() == 512,
    ensures
        r.start_lba == match mbr {
            Some(m) => match spec_first_partition(m@, fat_types()) {
                Some(lba) => lba,
                None => 0u64,
            },
            None => 0u64,
        },
{
    match mbr {
        None => PartitionConfig::whole_disk(),
        Some(m) => {
            let types = fat_partition_types();
            match mbr_partition_lba(m, types.as_slice()) {
                Some(lba) => PartitionConfig::new(lba),
                None => PartitionConfig::whole_disk(),
            }
        },
    }
}

/// Where the first ext2 volume starts: the first MBR entry of type 0x83,
/// else the whole disk (also when sector 0 could not be read: `None`).
pub fn find_ext2_partition_config(mbr: Option<&[u8]>) -> (r: PartitionConfig)
    requires
        mbr matches Some(m) ==> m@.len() == 512,
    ensures
        r.start_lba == match mbr {
            Some(m) => match spec_first_partition(m@, seq![EXT2_PART_TYPE]) {
                Some(lba) => lba,
                None => 0u64,
            },
            None => 0u64,
        },
{
    match mbr {
        None => PartitionConfig::whole_disk(),
        Some(m) => {
            let types: Vec<u8> = vec![EXT2_PART_TYPE];
            assert(types@ =~= seq![EXT2_PART_TYPE]);
            match mbr_partition_lba(m, types.as_slice()) {
                Some(lba) => PartitionConfig::new(lba),
                None => PartitionConfig::whole_disk(),
            }
        },
    }
}

} // verus!
