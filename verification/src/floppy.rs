//! The 1.44 MB floppy controller's decisions: sector addressing (LBA to
//! cylinder/head/sector), the checks and 8237 register values for an ISA
//! DMA transfer through the bounce buffer, the command bytes of a read or
//! write, and the decoding of its result bytes. Port I/O is the caller's.
use vstd::prelude::*;

verus! {

pub const SECTOR_SIZE: u32 = 512;
/// Sectors per track.
pub const SPT: u8 = 18;
pub const HEADS: u8 = 2;
pub const TRACKS: u8 = 80;
/// Size of the DMA bounce buffer.
pub const FDC_DMA_BUF_SIZE: u32 = 4096;
/// Physical address of the bounce buffer (conventional memory).
pub const FDC_BOUNCE_BUF_ADDR: u32 = 0x0002_0000;
pub const CMD_READ_DATA: u8 = 0x66;
pub const CMD_WRITE_DATA: u8 = 0xC5;

pub struct Floppy {
    pub drive: u8,
    pub motor_on: bool,
    pub initialized: bool,
}

/// Cylinder, head and sector (from 1) of a logical sector.
pub open spec fn spec_chs(lba: u32) -> (u8, u8, u8) {
    (((lba / 18) / 2) as u8, ((lba / 18) % 2) as u8, ((lba % 18) + 1) as u8)
}

/// Check a DMA transfer of `len` bytes through the bounce buffer: at most
/// the buffer's size, below 16 MiB, not crossing a 64 KiB boundary. Gives
/// the buffer's physical address.
pub fn validate_fdc_dma(len: u32) -> (r: Result<u32, u8>)
    ensures
        len == 0 || len > FDC_DMA_BUF_SIZE ==> r == Err::<u32, u8>(0x50),
        !(len == 0 || len > FDC_DMA_BUF_SIZE) ==> r == Ok::<u32, u8>(FDC_BOUNCE_BUF_ADDR),
{
    if len == 0 || len > FDC_DMA_BUF_SIZE {
        return Err(0x50);
    }
    let pa = FDC_BOUNCE_BUF_ADDR;
    if pa >= 0x100_0000 {
        return Err(0x54);
    }
    let pa_end = pa + len - 1;
    if pa / 0x1_0000 != pa_end / 0x1_0000 {
        return Err(0x54);
    }
    Ok(pa)
}

/// The 8237 channel-2 programming of a transfer: mode byte, page, the
/// address's low and high byte, and the count minus one, low and high.
#[derive(Clone, Copy, Debug, PartialEq, Eq, Structural)]
pub struct DmaProgram {
    pub mode: u8,
    pub page: u8,
    pub addr_lo: u8,
    pub addr_hi: u8,
    pub count_lo: u8,
    pub count_hi: u8,
}

/// Program channel 2 for `count` bytes at `addr` (device to memory when
/// `read`): refused (0x50) at or above 16 MiB, and (0x51) across a 64 KiB
/// boundary.
pub fn setup_dma(addr: u32, count: u32, read: bool) -> (r: Result<DmaProgram, u8>)
    requires
        count >= 1,
    ensures
        addr >= 0x100_0000 ==> r == Err::<DmaProgram, u8>(0x50),
        addr < 0x100_0000 && addr % 0x1_0000 + count > 0x1_0000 ==> r == Err::<DmaProgram, u8>(0x51),
        addr < 0x100_0000 && addr % 0x1_0000 + count <= 0x1_0000 ==> r == Ok::<DmaProgram, u8>(
            DmaProgram {
                mode: if read { 0x46 } else { 0x4A },
                page: (addr / 0x1_0000) as u8,
                addr_lo: (addr % 0x100) as u8,
                addr_hi: ((addr % 0x1_0000) / 0x100) as u8,
                count_lo: ((count - 1) % 0x100) as u8,
                count_hi: (((count - 1) % 0x1_0000) / 0x100) as u8,
            },
        ),
{
    if addr >= 0x100_0000 {
        return Err(0x50);
    }
    let offset = addr % 0x1_0000;
    if offset as u64 + count as u64 > 0x1_0000 {
        return Err(0x51);
    }
    let c = (count - 1) % 0x1_0000;
    Ok(DmaProgram {
        mode: if read { 0x46 } else { 0x4A },
        page: (addr / 0x1_0000) as u8,
        addr_lo: (addr % 0x100) as u8,
        addr_hi: (offset / 0x100) as u8,
        count_lo: (c % 0x100) as u8,
        count_hi: (c / 0x100) as u8,
    })
}

/// A sector transfer ready to issue: where it goes, its size, and the nine
/// command bytes (command, head/drive, C, H, R, sector size code 2, end of
/// track, gap length 0x1B, data length 0xFF).
#[derive(Clone, Copy, Debug)]
pub struct TransferPlan {
    pub cylinder: u8,
    pub head: u8,
    pub sector: u8,
    pub bytes: u32,
    pub command: [u8; 9],
}

/// The outcome carried by the result bytes ST0..ST2: abnormal termination
/// (interrupt code in ST0's top bits) gives 0x30, an error bit in ST1 or
/// ST2 0x31.
pub open spec fn spec_result_status(st0: u8, st1: u8, st2: u8) -> Result<(), u8> {
    if st0 & 0xC0 != 0 {
        Err(0x30)
    } else if st1 & 0x37 != 0 || st2 & 0x73 != 0 {
        Err(0x31)
    } else {
        Ok(())
    }
}

pub fn result_status(st0: u8, st1: u8, st2: u8) -> (r: Result<(), u8>)
    ensures
        r == spec_result_status(st0, st1, st2),
{
    if st0 & 0xC0 != 0 {
        Err(0x30)
    } else if st1 & 0x37 != 0 || st2 & 0x73 != 0 {
        Err(0x31)
    } else {
        Ok(())
    }
}

impl Floppy {
    pub fn new(drive: u8) -> (r: Self)
        ensures
            r.drive == drive && !r.motor_on && !r.initialized,
    {
        Floppy { drive, motor_on: false, initialized: false }
    }

    pub fn lba_to_chs(&self, lba: u32) -> (r: (u8, u8, u8))
        ensures
            r == spec_chs(lba),
    {
        let sector = ((lba % SPT as u32) + 1) as u8;
        let temp = lba / SPT as u32;
        let head = (temp % HEADS as u32) as u8;
        let cylinder = (temp / HEADS as u32) as u8;
        (cylinder, head, sector)
    }

    /// Plan a transfer of `numsects` sectors from `lba`: between 1 and a
    /// track's worth (else 0x01), on an existing cylinder (else 0x02).
    pub fn transfer_plan(&self, lba: u32, numsects: u8, write: bool) -> (r: Result<TransferPlan, u8>)
        ensures
            numsects == 0 || numsects > SPT ==> r matches Err(0x01u8),
            !(numsects == 0 || numsects > SPT) && spec_chs(lba).0 >= TRACKS ==> r matches Err(0x02u8),
            !(numsects == 0 || numsects > SPT) && spec_chs(lba).0 < TRACKS ==> (r matches Ok(p) && {
                let (c, h, s) = spec_chs(lba);
                &&& p.cylinder == c && p.head == h && p.sector == s
                &&& p.bytes == numsects * 512
                &&& p.command@ == seq![
                    if write { CMD_WRITE_DATA } else { CMD_READ_DATA },
                    (h << 2u8) | self.drive,
                    c,
                    h,
                    s,
                    2u8,
                    SPT,
                    0x1B,
                    0xFF,
                ]
            }),
    {
        if numsects == 0 || numsects > SPT {
            return Err(0x01);
        }
        let total_bytes = numsects as u32 * SECTOR_SIZE;
        let (cyl, head, sector) = self.lba_to_chs(lba);
        if cyl >= TRACKS {
            return Err(0x02);
        }
        let cmd = if write { CMD_WRITE_DATA } else { CMD_READ_DATA };
        let command: [u8; 9] = [cmd, (head << 2u8) | self.drive, cyl, head, sector, 2, SPT, 0x1B, 0xFF];
        assert(command@ =~= seq![cmd, (head << 2u8) | self.drive, cyl, head, sector, 2u8, SPT, 0x1Bu8, 0xFFu8]);
        Ok(TransferPlan { cylinder: cyl, head, sector, bytes: total_bytes, command })
    }
}

/// Cylinder, head and sector give back the logical sector on a disk of
/// 80 cylinders: `(c * 2 + h) * 18 + (s - 1) == lba`.
pub proof fn law_chs_roundtrip(lba: u32)
    requires
        lba < 80 * 2 * 18,
    ensures
        ({
            let (c, h, s) = spec_chs(lba);
            &&& c < TRACKS && h < HEADS && 1 <= s <= SPT
            &&& (c * 2 + h) * 18 + (s - 1) == lba
        }),
{
}

} // verus!
