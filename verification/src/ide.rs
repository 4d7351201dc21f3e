//! Register addressing and status polling of an IDE (ATA) channel. The
//! port reads and writes themselves are the caller's: each operation here
//! says which ports to touch, and the polling loop is driven one status
//! read at a time.
use vstd::prelude::*;

verus! {

/// Status register (command block, offset 7).
pub const ATA_REG_STATUS: u8 = 0x07;
/// Device control register (control block, offset 2).
pub const ATA_REG_CONTROL: u8 = 0x0C;
/// Alternate status register (same port as device control, when read).
pub const ATA_REG_ALTSTATUS: u8 = 0x0C;

/// Status bits.
pub const ATA_SR_BSY: u8 = 0x80;
pub const ATA_SR_DF: u8 = 0x20;
pub const ATA_SR_DRQ: u8 = 0x08;
pub const ATA_SR_ERR: u8 = 0x01;

/// Polls of the status register before `polling` gives up.
pub const POLL_TIMEOUT: u32 = 500;

#[derive(Clone, Copy, Debug, PartialEq, Eq, Structural)]
pub enum ATAChannel {
    Primary,
    Secondary,
}

#[derive(Clone, Copy, Debug, PartialEq, Eq, Structural)]
pub struct IDEChannelRegisters {
    pub channel: ATAChannel,
    /// Command block I/O base.
    pub base: u16,
    /// Control block base.
    pub ctrl: u16,
    /// Bus-master IDE base.
    pub bmide: u16,
    /// nIEN (interrupts disabled) bit for the control register.
    pub n_ien: u8,
}

/// Port of register `reg`: 0..8 in the command block, 8..12 (the
/// high-order bytes of LBA48 registers) at the command block's 2..6,
/// 12..14 in the control block, 14..22 in the bus-master block.
pub open spec fn reg_port(c: IDEChannelRegisters, reg: u8) -> Option<int> {
    if reg < 0x08 {
        Some(c.base + reg)
    } else if reg < 0x0c {
        Some(c.base + reg - 0x06)
    } else if reg < 0x0e {
        Some(c.ctrl + reg - 0x0a)
    } else if reg < 0x16 {
        Some(c.bmide + reg - 0x0e)
    } else {
        None
    }
}

/// Registers 8..12 are reached by setting HOB in the control register
/// around the access.
pub open spec fn needs_hob(reg: u8) -> bool {
    0x07 < reg < 0x0c
}

/// The port accesses one register access consists of: when `hob`, write
/// `0x80 | nIEN` to `control` before and `nIEN` after; the access itself
/// goes to `port` (none for an unknown register).
#[derive(Clone, Copy, Debug, PartialEq, Eq, Structural)]
pub struct IdeAccess {
    pub hob: bool,
    pub control: u16,
    pub port: Option<u16>,
}

/// Every base plus register number the addressing adds up stays within
/// 16 bits.
pub open spec fn ports_fit(c: IDEChannelRegisters) -> bool {
    c.base + 0x0b <= 0xFFFF && c.ctrl + 0x0d <= 0xFFFF && c.bmide + 0x15 <= 0xFFFF
}

impl IDEChannelRegisters {
    pub fn new(channel: ATAChannel, base: u16, ctrl: u16, bmide: u16, n_ien: u8) -> (r: Self)
        ensures
            r == (IDEChannelRegisters { channel, base, ctrl, bmide, n_ien }),
    {
        IDEChannelRegisters { channel, base, ctrl, bmide, n_ien }
    }

    fn access(&self, reg: u8) -> (r: IdeAccess)
        requires
            ports_fit(*self),
        ensures
            r.hob == needs_hob(reg),
            r.control == self.ctrl + 2,
            r.port == (match reg_port(*self, reg) { Some(p) => Some(p as u16), None => None::<u16> }),
    {
        let port = if reg < 0x08 {
            Some(self.base + reg as u16)
        } else if reg < 0x0c {
            Some(self.base + reg as u16 - 0x06)
        } else if reg < 0x0e {
            Some(self.ctrl + reg as u16 - 0x0a)
        } else if reg < 0x16 {
            Some(self.bmide + reg as u16 - 0x0e)
        } else {
            None
        };
        IdeAccess { hob: reg > 0x07 && reg < 0x0c, control: self.ctrl + 2, port }
    }

    /// Reading register `reg`: an `inb` at `port`.
    pub fn read(&self, reg: u8) -> (r: IdeAccess)
        requires
            ports_fit(*self),
        ensures
            r.hob == needs_hob(reg),
            r.control == self.ctrl + 2,
            r.port == (match reg_port(*self, reg) { Some(p) => Some(p as u16), None => None::<u16> }),
    {
        self.access(reg)
    }

    /// Writing `data` to register `reg`: an `outb` at `port`.
    pub fn write(&self, reg: u8, data: u8) -> (r: IdeAccess)
        requires
            ports_fit(*self),
        ensures
            r.hob == needs_hob(reg),
            r.control == self.ctrl + 2,
            r.port == (match reg_port(*self, reg) { Some(p) => Some(p as u16), None => None::<u16> }),
    {
        self.access(reg)
    }

    /// Reading a buffer of 32-bit words from register `reg`: an `insl` at
    /// `port`.
    pub fn read_buffer(&self, reg: u8) -> (r: IdeAccess)
        requires
            ports_fit(*self),
        ensures
            r.hob == needs_hob(reg),
            r.control == self.ctrl + 2,
            r.port == (match reg_port(*self, reg) { Some(p) => Some(p as u16), None => None::<u16> }),
    {
        self.access(reg)
    }

    /// Ports of a software reset: the device control register (SRST is
    /// pulsed there; reads give the alternate status) and the status
    /// register, polled until BSY clears.
    pub fn software_reset(&self) -> (r: (u16, u16))
        requires
            ports_fit(*self),
        ensures
            r == (((self.ctrl + 2) as u16, (self.base + 7) as u16)),
    {
        (self.ctrl + 2, self.base + 7)
    }

    /// Start polling the channel for the end of a command.
    pub fn polling(&self, advanced_check: u32) -> (r: Polling)
        ensures
            r == (Polling { alt_reads_left: 4, timeout: POLL_TIMEOUT, advanced: advanced_check != 0, phase: PollPhase::Settle }),
    {
        Polling { alt_reads_left: 4, timeout: POLL_TIMEOUT, advanced: advanced_check != 0, phase: PollPhase::Settle }
    }
}

/// The status byte has BSY set.
pub open spec fn busy(status: u8) -> bool {
    status >= 0x80
}

/// Bit `b` (a power of two below 0x100) is set in `status`.
pub open spec fn has_bit(status: u8, b: int) -> bool {
    (status as int / b) % 2 == 1
}

/// Outcome of the status check made after BSY cleared: ERR gives 2, a
/// device fault 1, a missing DRQ 3.
pub open spec fn spec_status_check(status: u8) -> Result<(), u8> {
    if has_bit(status, 0x01) {
        Err(2)
    } else if has_bit(status, 0x20) {
        Err(1)
    } else if !has_bit(status, 0x08) {
        Err(3)
    } else {
        Ok(())
    }
}

pub fn status_check(status: u8) -> (r: Result<(), u8>)
    ensures
        r == spec_status_check(status),
{
    if status % 2 == 1 {
        Err(2)
    } else if (status / 0x20) % 2 == 1 {
        Err(1)
    } else if (status / 0x08) % 2 == 0 {
        Err(3)
    } else {
        Ok(())
    }
}

#[derive(Clone, Copy, Debug, PartialEq, Eq, Structural)]
pub enum PollPhase {
    /// Reading the alternate status register to let the drive settle.
    Settle,
    /// Waiting for BSY to clear.
    WaitBusy,
    /// Reading the status once more for the error check.
    Check,
}

/// A poll of the channel in progress.
#[derive(Clone, Copy, Debug, PartialEq, Eq, Structural)]
pub struct Polling {
    pub alt_reads_left: u8,
    pub timeout: u32,
    pub advanced: bool,
    pub phase: PollPhase,
}

/// What the poll wants next.
#[derive(Clone, Copy, Debug)]
pub enum PollStep {
    ReadAltStatus,
    ReadStatus,
    Done(Result<(), u8>),
}

impl Polling {
    /// The first thing to do.
    pub fn first(&self) -> (r: PollStep)
        ensures
            r == (if self.phase == PollPhase::Settle && self.alt_reads_left > 0 { PollStep::ReadAltStatus } else {
                PollStep::ReadStatus
            }),
    {
        if self.phase == PollPhase::Settle && self.alt_reads_left > 0 {
            PollStep::ReadAltStatus
        } else {
            PollStep::ReadStatus
        }
    }

    /// Continue after the register asked for read `value`: four settling
    /// reads of the alternate status; then status reads while BSY is set,
    /// giving up with 0xFF once the timeout is spent; then, with the
    /// advanced check, one more status read decoded by
    /// [`spec_status_check`].
    pub fn next(&mut self, value: u8) -> (r: PollStep)
        ensures
            old(self).phase == PollPhase::Settle && old(self).alt_reads_left > 1 ==> r == PollStep::ReadAltStatus
                && *final(self) == (Polling { alt_reads_left: (old(self).alt_reads_left - 1) as u8, ..*old(self) }),
            old(self).phase == PollPhase::Settle && old(self).alt_reads_left <= 1 ==> r == PollStep::ReadStatus
                && *final(self) == (Polling { alt_reads_left: 0, phase: PollPhase::WaitBusy, ..*old(self) }),
            old(self).phase == PollPhase::WaitBusy && busy(value) && old(self).timeout == 0 ==> r == PollStep::Done(
                Err(0xFF),
            ) && *final(self) == *old(self),
            old(self).phase == PollPhase::WaitBusy && busy(value) && old(self).timeout > 0 ==> r == PollStep::ReadStatus
                && *final(self) == (Polling { timeout: (old(self).timeout - 1) as u32, ..*old(self) }),
            old(self).phase == PollPhase::WaitBusy && !busy(value) && old(self).advanced ==> r == PollStep::ReadStatus
                && *final(self) == (Polling { phase: PollPhase::Check, ..*old(self) }),
            old(self).phase == PollPhase::WaitBusy && !busy(value) && !old(self).advanced ==> r == PollStep::Done(
                Ok(()),
            ) && *final(self) == *old(self),
            old(self).phase == PollPhase::Check ==> r == PollStep::Done(spec_status_check(value)) && *final(self)
                == *old(self),
    {
        match self.phase {
            PollPhase::Settle => {
                if self.alt_reads_left > 1 {
                    self.alt_reads_left = self.alt_reads_left - 1;
                    PollStep::ReadAltStatus
                } else {
                    self.alt_reads_left = 0;
                    self.phase = PollPhase::WaitBusy;
                    PollStep::ReadStatus
                }
            },
            PollPhase::WaitBusy => {
                if value >= ATA_SR_BSY {
                    if self.timeout == 0 {
                        PollStep::Done(Err(0xFF))
                    } else {
                        self.timeout = self.timeout - 1;
                        PollStep::ReadStatus
                    }
                } else if self.advanced {
                    self.phase = PollPhase::Check;
                    PollStep::ReadStatus
                } else {
                    PollStep::Done(Ok(()))
                }
            },
            PollPhase::Check => PollStep::Done(status_check(value)),
        }
    }
}

} // verus!
