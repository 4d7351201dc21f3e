//! PCI configuration space: field access within a function's 256-byte
//! space, header decoding, base address registers and device lookup.
//!
//! The 0xCF8/0xCFC port cycles stay with the caller, which mirrors the
//! configuration dwords of one function in a [`ConfigSpace`] and writes back
//! the dword that a write here changes.
use vstd::prelude::*;

verus! {

/// A decoded Base Address Register.
#[derive(Debug, Clone, Copy, PartialEq, Eq, Structural)]
pub enum Bar {
    Memory { address: u32, size: u32, prefetchable: bool, is_64bit: bool },
    Io { address: u32, size: u32 },
    /// Not implemented by the device, or the upper half of a 64-bit BAR.
    Unused,
}

impl Bar {
    pub fn address(&self) -> (r: Option<u32>)
        ensures
            r == (match *self {
                Bar::Memory { address, .. } => Some(address),
                Bar::Io { address, .. } => Some(address),
                Bar::Unused => None,
            }),
    {
        match self {
            Bar::Memory { address, .. } => Some(*address),
            Bar::Io { address, .. } => Some(*address),
            Bar::Unused => None,
        }
    }

    pub fn size(&self) -> (r: u32)
        ensures
            r == (match *self {
                Bar::Memory { size, .. } => size,
                Bar::Io { size, .. } => size,
                Bar::Unused => 0,
            }),
    {
        match self {
            Bar::Memory { size, .. } => *size,
            Bar::Io { size, .. } => *size,
            Bar::Unused => 0,
        }
    }

    pub fn is_memory(&self) -> (r: bool)
        ensures
            r == (*self is Memory),
    {
        match self {
            Bar::Memory { .. } => true,
            _ => false,
        }
    }

    pub fn is_io(&self) -> (r: bool)
        ensures
            r == (*self is Io),
    {
        match self {
            Bar::Io { .. } => true,
            _ => false,
        }
    }
}

/// The configuration dwords of one PCI function, as last read from or
/// written to the hardware.
pub struct ConfigSpace {
    pub bus: u8,
    pub device: u8,
    pub function: u8,
    pub dwords: Vec<u32>,
}

impl ConfigSpace {
    pub open spec fn wf(&self) -> bool {
        self.dwords@.len() == 64
    }
}

/// Byte `k` (0 = least significant) of a dword.
pub open spec fn byte_of(d: u32, k: int) -> u8 {
    if k == 0 {
        (d % 0x100) as u8
    } else if k == 1 {
        (d / 0x100 % 0x100) as u8
    } else if k == 2 {
        (d / 0x1_0000 % 0x100) as u8
    } else {
        (d / 0x100_0000) as u8
    }
}

/// The 16-bit field at byte offset `offset` (the low bit is ignored).
pub open spec fn field16(d: u32, offset: u8) -> u16 {
    if offset % 4 >= 2 {
        (d / 0x1_0000) as u16
    } else {
        (d % 0x1_0000) as u16
    }
}

/// `d` with the 16-bit field at `offset` replaced by `v`.
pub open spec fn with_field16(d: u32, offset: u8, v: u16) -> u32 {
    if offset % 4 >= 2 {
        (d % 0x1_0000 + v * 0x1_0000) as u32
    } else {
        (d - d % 0x1_0000 + v) as u32
    }
}

pub open spec fn pow256(k: int) -> int {
    if k == 0 { 1 } else if k == 1 { 0x100 } else if k == 2 { 0x1_0000 } else { 0x100_0000 }
}

/// `d` with byte `offset % 4` replaced by `v`.
pub open spec fn with_byte(d: u32, offset: u8, v: u8) -> u32 {
    let k = (offset % 4) as int;
    (d - byte_of(d, k) * pow256(k) + v * pow256(k)) as u32
}

/// Dword index of a byte offset.
pub open spec fn dword_index(offset: u8) -> int {
    offset as int / 4
}

/// The value written to 0xCF8 to select a configuration dword.
pub open spec fn spec_config_address(bus: u8, device: u8, function: u8, offset: u8) -> u32 {
    (0x8000_0000 + bus as int * 0x1_0000 + (device % 32) as int * 0x800 + (function % 8) as int * 0x100
        + (offset - offset % 4)) as u32
}

pub fn make_address(bus: u8, device: u8, function: u8, offset: u8) -> (r: u32)
    ensures
        r == spec_config_address(bus, device, function, offset),
{
    let b = bus as u32;
    let d = (device & 0x1F) as u32;
    let f = (function & 0x07) as u32;
    let o = (offset & 0xFC) as u32;
    assert(((device & 0x1F) as u32 == (device % 32) as u32) && ((function & 0x07) as u32 == (function % 8) as u32) && ((offset & 0xFC) as u32 == (offset - offset % 4) as u32)) by (bit_vector);
    assert(b < 256 && d < 32 && f < 8 && o < 256 && o % 4 == 0 ==>
        0x8000_0000u32 | (b << 16u32) | (d << 11u32) | (f << 8u32) | o
            == 0x8000_0000 + b * 0x1_0000 + d * 0x800 + f * 0x100 + o) by (bit_vector);
    0x8000_0000u32 | (b << 16u32) | (d << 11u32) | (f << 8u32) | o
}

pub fn read_u32(space: &ConfigSpace, offset: u8) -> (r: u32)
    requires
        space.wf(),
    ensures
        r == space.dwords@[dword_index(offset)],
{
    space.dwords[(offset / 4) as usize]
}

pub fn read_u16(space: &ConfigSpace, offset: u8) -> (r: u16)
    requires
        space.wf(),
    ensures
        r == field16(space.dwords@[dword_index(offset)], offset),
{
    let data = read_u32(space, offset & 0xFC);
    assert((offset & 0xFC) / 4 == offset / 4) by (bit_vector);
    let shift = ((offset & 2) as u32) * 8;
    assert(((offset & 2) as u32 * 8 == (if offset % 4 >= 2 { 16u32 } else { 0u32 })) && ((data >> 16u32) & 0xFFFF == data / 0x1_0000) && ((data >> 0u32) & 0xFFFF == data % 0x1_0000)) by (bit_vector);
    ((data >> shift) & 0xFFFF) as u16
}

pub fn read_u8(space: &ConfigSpace, offset: u8) -> (r: u8)
    requires
        space.wf(),
    ensures
        r == byte_of(space.dwords@[dword_index(offset)], offset as int % 4),
{
    let data = read_u32(space, offset & 0xFC);
    assert((offset & 0xFC) / 4 == offset / 4) by (bit_vector);
    let k = (offset & 3) as u32;
    assert(((offset & 3) as u32 == offset % 4) && ((data >> 0u32) & 0xFF == data % 0x100) && ((data >> 8u32) & 0xFF == data / 0x100 % 0x100) && ((data >> 16u32) & 0xFF == data / 0x1_0000 % 0x100) && ((data >> 24u32) & 0xFF == data / 0x100_0000)) by (bit_vector);
    ((data >> (k * 8)) & 0xFF) as u8
}

pub fn write_u32(space: &mut ConfigSpace, offset: u8, value: u32)
    requires
        old(space).wf(),
    ensures
        final(space).dwords@ == old(space).dwords@.update(dword_index(offset), value),
        final(space).bus == old(space).bus,
        final(space).device == old(space).device,
        final(space).function == old(space).function,
{
    space.dwords.set((offset / 4) as usize, value);
}

pub fn write_u16(space: &mut ConfigSpace, offset: u8, value: u16)
    requires
        old(space).wf(),
    ensures
        final(space).dwords@ == old(space).dwords@.update(dword_index(offset),
            with_field16(old(space).dwords@[dword_index(offset)], offset, value)),
        final(space).bus == old(space).bus,
        final(space).device == old(space).device,
        final(space).function == old(space).function,
{
    let aligned = offset & 0xFC;
    assert((offset & 0xFC) / 4 == offset / 4) by (bit_vector);
    let shift = ((offset & 2) as u32) * 8;
    assert((offset & 2) as u32 * 8 == (if offset % 4 >= 2 { 16u32 } else { 0u32 })) by (bit_vector);
    let mut data = read_u32(space, aligned);
    let v = value as u32;
    assert((v < 0x1_0000 ==> (data & !(0xFFFFu32 << 16u32)) | (v << 16u32) == data % 0x1_0000 + v * 0x1_0000) && (v < 0x1_0000 ==> (data & !(0xFFFFu32 << 0u32)) | (v << 0u32) == data - data % 0x1_0000 + v)) by (bit_vector);
    data = data & !(0xFFFFu32 << shift);
    data = data | (v << shift);
    write_u32(space, aligned, data);
}

pub fn write_u8(space: &mut ConfigSpace, offset: u8, value: u8)
    requires
        old(space).wf(),
    ensures
        final(space).dwords@ == old(space).dwords@.update(dword_index(offset),
            with_byte(old(space).dwords@[dword_index(offset)], offset, value)),
        final(space).bus == old(space).bus,
        final(space).device == old(space).device,
        final(space).function == old(space).function,
{
    let aligned = offset & 0xFC;
    assert((offset & 0xFC) / 4 == offset / 4) by (bit_vector);
    let k = (offset & 3) as u32;
    assert((offset & 3) as u32 == offset % 4) by (bit_vector);
    let mut data = read_u32(space, aligned);
    let v = value as u32;
    assert((v < 0x100 ==> (data & !(0xFFu32 << 0u32)) | (v << 0u32) == data - data % 0x100 + v) && (v < 0x100 ==> (data & !(0xFFu32 << 8u32)) | (v << 8u32) == data - (data / 0x100 % 0x100) * 0x100 + v * 0x100) && (v < 0x100 ==> (data & !(0xFFu32 << 16u32)) | (v << 16u32) == data - (data / 0x1_0000 % 0x100) * 0x1_0000 + v * 0x1_0000) && (v < 0x100 ==> (data & !(0xFFu32 << 24u32)) | (v << 24u32) == data - (data / 0x100_0000) * 0x100_0000 + v * 0x100_0000)) by (bit_vector);
    let shift = k * 8;
    data = data & !(0xFFu32 << shift);
    data = data | (v << shift);
    write_u32(space, aligned, data);
}

/// Reading a 16-bit field right after writing it gives back the written
/// value, and the other half of the dword is untouched.
pub proof fn law_write_u16_then_read(d: u32, offset: u8, other: u8, v: u16)
    requires
        (other % 4 >= 2) != (offset % 4 >= 2),
    ensures
        field16(with_field16(d, offset, v), offset) == v,
        field16(with_field16(d, offset, v), other) == field16(d, other),
{
    let lo = d % 0x1_0000;
    let hi = d / 0x1_0000;
    assert(d == lo + hi * 0x1_0000) by (nonlinear_arith)
        requires
            lo == d % 0x1_0000,
            hi == d / 0x1_0000,
    ;
    let n = with_field16(d, offset, v) as int;
    let (nl, nh) = if offset % 4 >= 2 { (lo as int, v as int) } else { (v as int, hi as int) };
    assert(n == nl + nh * 0x1_0000);
    assert(n % 0x1_0000 == nl && n / 0x1_0000 == nh) by (nonlinear_arith)
        requires
            n == nl + nh * 0x1_0000,
            0 <= nl < 0x1_0000,
            0 <= nh < 0x1_0000,
    ;
}

/// Reading a byte right after writing it gives back the written value, and
/// the other bytes of the dword are untouched.
pub proof fn law_write_u8_then_read(d: u32, offset: u8, v: u8, k: int)
    requires
        0 <= k < 4,
    ensures
        byte_of(with_byte(d, offset, v), offset as int % 4) == v,
        k != offset as int % 4 ==> byte_of(with_byte(d, offset, v), k) == byte_of(d, k),
{
    let j = offset as int % 4;
    let b0 = byte_of(d, 0) as int;
    let b1 = byte_of(d, 1) as int;
    let b2 = byte_of(d, 2) as int;
    let b3 = byte_of(d, 3) as int;
    assert(d == b0 + b1 * 0x100 + b2 * 0x1_0000 + b3 * 0x100_0000) by (nonlinear_arith)
        requires
            b0 == d % 0x100,
            b1 == d / 0x100 % 0x100,
            b2 == d / 0x1_0000 % 0x100,
            b3 == d / 0x100_0000,
            d < 0x1_0000_0000,
    ;
    let n = with_byte(d, offset, v) as int;
    let (c0, c1, c2, c3) = if j == 0 {
        (v as int, b1, b2, b3)
    } else if j == 1 {
        (b0, v as int, b2, b3)
    } else if j == 2 {
        (b0, b1, v as int, b3)
    } else {
        (b0, b1, b2, v as int)
    };
    assert(n == c0 + c1 * 0x100 + c2 * 0x1_0000 + c3 * 0x100_0000);
    assert(n % 0x100 == c0 && n / 0x100 % 0x100 == c1 && n / 0x1_0000 % 0x100 == c2 && n / 0x100_0000 == c3) by (nonlinear_arith)
        requires
            n == c0 + c1 * 0x100 + c2 * 0x1_0000 + c3 * 0x100_0000,
            0 <= c0 < 0x100,
            0 <= c1 < 0x100,
            0 <= c2 < 0x100,
            0 <= c3 < 0x100,
    ;
}

#[derive(Debug, Clone, Copy)]
pub struct PciDevice {
    pub bus: u8,
    pub device: u8,
    pub function: u8,
    pub vendor_id: u16,
    pub device_id: u16,
    pub command: u16,
    pub status: u16,
    pub revision_id: u8,
    pub prog_if: u8,
    pub subclass: u8,
    pub class_code: u8,
    pub cache_line_size: u8,
    pub latency_timer: u8,
    pub header_type: u8,
    pub bist: u8,
    pub bars: [Bar; 6],
    pub cardbus_cis: u32,
    pub subsystem_vendor_id: u16,
    pub subsystem_id: u16,
    pub expansion_rom: u32,
    pub interrupt_line: u8,
    pub interrupt_pin: u8,
    pub min_grant: u8,
    pub max_latency: u8,
}

/// Command register bits: I/O space, memory space, bus master.
pub const CMD_IO_SPACE: u16 = 0x0001;
pub const CMD_MEMORY_SPACE: u16 = 0x0002;
pub const CMD_BUS_MASTER: u16 = 0x0004;

impl PciDevice {
    /// `space` mirrors this device's configuration.
    pub open spec fn owns(&self, space: &ConfigSpace) -> bool {
        &&& space.wf()
        &&& space.bus == self.bus
        &&& space.device == self.device
        &&& space.function == self.function
    }

    pub fn read_u8(&self, space: &ConfigSpace, offset: u8) -> (r: u8)
        requires
            self.owns(space),
        ensures
            r == byte_of(space.dwords@[dword_index(offset)], offset as int % 4),
    {
        read_u8(space, offset)
    }

    pub fn read_u16(&self, space: &ConfigSpace, offset: u8) -> (r: u16)
        requires
            self.owns(space),
        ensures
            r == field16(space.dwords@[dword_index(offset)], offset),
    {
        read_u16(space, offset)
    }

    pub fn read_u32(&self, space: &ConfigSpace, offset: u8) -> (r: u32)
        requires
            self.owns(space),
        ensures
            r == space.dwords@[dword_index(offset)],
    {
        read_u32(space, offset)
    }

    pub fn write_u8(&self, space: &mut ConfigSpace, offset: u8, value: u8)
        requires
            self.owns(old(space)),
        ensures
            self.owns(final(space)),
            final(space).dwords@ == old(space).dwords@.update(dword_index(offset),
                with_byte(old(space).dwords@[dword_index(offset)], offset, value)),
    {
        write_u8(space, offset, value)
    }

    pub fn write_u16(&self, space: &mut ConfigSpace, offset: u8, value: u16)
        requires
            self.owns(old(space)),
        ensures
            self.owns(final(space)),
            final(space).dwords@ == old(space).dwords@.update(dword_index(offset),
                with_field16(old(space).dwords@[dword_index(offset)], offset, value)),
    {
        write_u16(space, offset, value)
    }

    pub fn write_u32(&self, space: &mut ConfigSpace, offset: u8, value: u32)
        requires
            self.owns(old(space)),
        ensures
            self.owns(final(space)),
            final(space).dwords@ == old(space).dwords@.update(dword_index(offset), value),
    {
        write_u32(space, offset, value)
    }

    /// Set `bits` in the command register (offset 4), keeping the others.
    fn set_command_bits(&self, space: &mut ConfigSpace, bits: u16)
        requires
            self.owns(old(space)),
        ensures
            self.owns(final(space)),
            final(space).dwords@ == old(space).dwords@.update(1,
                with_field16(old(space).dwords@[1], 4, field16(old(space).dwords@[1], 4) | bits)),
    {
        let mut cmd = self.read_u16(space, 0x04);
        cmd = cmd | bits;
        self.write_u16(space, 0x04, cmd);
    }

    /// Enable bus mastering together with memory and I/O space decoding.
    pub fn enable_bus_mastering(&self, space: &mut ConfigSpace)
        requires
            self.owns(old(space)),
        ensures
            self.owns(final(space)),
            final(space).dwords@ == old(space).dwords@.update(1,
                with_field16(old(space).dwords@[1], 4, field16(old(space).dwords@[1], 4) | 0x0007)),
    {
        self.set_command_bits(space, 0x0007)
    }

    pub fn enable_memory_space(&self, space: &mut ConfigSpace)
        requires
            self.owns(old(space)),
        ensures
            self.owns(final(space)),
            final(space).dwords@ == old(space).dwords@.update(1,
                with_field16(old(space).dwords@[1], 4, field16(old(space).dwords@[1], 4) | CMD_MEMORY_SPACE)),
    {
        self.set_command_bits(space, CMD_MEMORY_SPACE)
    }

    pub fn enable_io_space(&self, space: &mut ConfigSpace)
        requires
            self.owns(old(space)),
        ensures
            self.owns(final(space)),
            final(space).dwords@ == old(space).dwords@.update(1,
                with_field16(old(space).dwords@[1], 4, field16(old(space).dwords@[1], 4) | CMD_IO_SPACE)),
    {
        self.set_command_bits(space, CMD_IO_SPACE)
    }

    /// BAR `index` when it is implemented.
    pub fn get_bar(&self, index: usize) -> (r: Option<&Bar>)
        ensures
            index < 6 && !(self.bars@[index as int] is Unused) ==> r == Some(&self.bars@[index as int]),
            index >= 6 || self.bars@[index as int] is Unused ==> r is None,
    {
        if index < 6 {
            match &self.bars[index] {
                Bar::Unused => None,
                bar => Some(bar),
            }
        } else {
            None
        }
    }

    pub fn is_multifunction(&self) -> (r: bool)
        ensures
            r == (self.header_type >= 0x80),
    {
        let h = self.header_type;
        assert((h & 0x80 != 0) == (h >= 0x80)) by (bit_vector);
        (self.header_type & 0x80) != 0
    }

    pub fn header_type_raw(&self) -> (r: u8)
        ensures
            r == self.header_type % 0x80,
    {
        let h = self.header_type;
        assert(h & 0x7F == h % 0x80) by (bit_vector);
        self.header_type & 0x7F
    }
}

/// Size of a BAR from the value read back after writing all ones: the
/// two's complement of the address bits.
pub open spec fn spec_bar_size(readback: u32, is_io: bool) -> u32 {
    let s = if is_io { readback & 0xFFFF_FFFC } else { readback & 0xFFFF_FFF0 };
    if s == 0 { 0 } else { (!s + 1) as u32 }
}

pub fn bar_size(readback: u32, is_io: bool) -> (r: u32)
    ensures
        r == spec_bar_size(readback, is_io),
{
    let size = if is_io { readback & 0xFFFF_FFFC } else { readback & 0xFFFF_FFF0 };
    if size == 0 {
        return 0;
    }
    assert(size != 0 ==> !size < 0xFFFF_FFFFu32) by (bit_vector);
    !size + 1
}

/// BARs decoded from slot `i` on: `dw` are the configuration dwords and
/// `rb[k]` the value BAR `k` read back after all ones were written to it.
pub open spec fn decode_bars(dw: Seq<u32>, rb: Seq<u32>, i: int) -> Seq<Bar>
    decreases 6 - i,
{
    if i >= 6 || i < 0 {
        Seq::empty()
    } else {
        let raw = dw[4 + i];
        if raw == 0 {
            seq![Bar::Unused] + decode_bars(dw, rb, i + 1)
        } else if raw & 1 != 0 {
            seq![Bar::Io { address: raw & 0xFFFF_FFFC, size: spec_bar_size(rb[i], true) }] + decode_bars(dw, rb, i + 1)
        } else {
            let is_64 = raw & 0x6 == 0x4;
            let m = Bar::Memory {
                address: raw & 0xFFFF_FFF0,
                size: spec_bar_size(rb[i], false),
                prefetchable: raw & 0x8 != 0,
                is_64bit: is_64,
            };
            if is_64 && i + 1 < 6 {
                seq![m, Bar::Unused] + decode_bars(dw, rb, i + 2)
            } else {
                seq![m] + decode_bars(dw, rb, i + 1)
            }
        }
    }
}

proof fn lemma_decode_len(dw: Seq<u32>, rb: Seq<u32>, i: int)
    requires
        0 <= i <= 6,
    ensures
        decode_bars(dw, rb, i).len() == 6 - i,
    decreases 6 - i,
{
    if i < 6 {
        let raw = dw[4 + i];
        if raw != 0 && raw & 1 == 0 && raw & 0x6 == 0x4 && i + 1 < 6 {
            lemma_decode_len(dw, rb, i + 2);
        } else {
            lemma_decode_len(dw, rb, i + 1);
        }
    }
}

/// `d` is the header decoded from `space`, BAR sizes taken from `rb`.
pub open spec fn header_decoded(space: ConfigSpace, rb: Seq<u32>, d: PciDevice) -> bool {
    let dw = space.dwords@;
    let ht = byte_of(dw[3], 2);
    let normal = ht % 0x80 == 0;
    &&& d.bus == space.bus
    &&& d.device == space.device
    &&& d.function == space.function
    &&& d.vendor_id == field16(dw[0], 0)
    &&& d.device_id == field16(dw[0], 2)
    &&& d.command == field16(dw[1], 4)
    &&& d.status == field16(dw[1], 6)
    &&& d.revision_id == byte_of(dw[2], 0)
    &&& d.prog_if == byte_of(dw[2], 1)
    &&& d.subclass == byte_of(dw[2], 2)
    &&& d.class_code == byte_of(dw[2], 3)
    &&& d.cache_line_size == byte_of(dw[3], 0)
    &&& d.latency_timer == byte_of(dw[3], 1)
    &&& d.header_type == ht
    &&& d.bist == byte_of(dw[3], 3)
    &&& d.bars@ == (if normal { decode_bars(dw, rb, 0) } else { Seq::new(6, |k: int| Bar::Unused) })
    &&& d.cardbus_cis == (if normal { dw[10] } else { 0 })
    &&& d.subsystem_vendor_id == (if normal { field16(dw[11], 0) } else { 0 })
    &&& d.subsystem_id == (if normal { field16(dw[11], 2) } else { 0 })
    &&& d.expansion_rom == (if normal { dw[12] } else { 0 })
    &&& d.interrupt_line == byte_of(dw[15], 0)
    &&& d.interrupt_pin == byte_of(dw[15], 1)
    &&& d.min_grant == byte_of(dw[15], 2)
    &&& d.max_latency == byte_of(dw[15], 3)
}

/// Decode the function whose configuration `space` mirrors; `readbacks[k]`
/// is what the `Read` of BAR `k` in [`bar_sizing_plan`] returned (after all
/// ones were written to it; the plan then restores it). No device answers
/// with vendor id 0xFFFF.
pub fn read_device(space: &ConfigSpace, readbacks: &[u32; 6]) -> (r: Option<PciDevice>)
    requires
        space.wf(),
    ensures
        field16(space.dwords@[0], 0) == 0xFFFF ==> r is None,
        field16(space.dwords@[0], 0) != 0xFFFF ==> (r matches Some(d) && header_decoded(*space, readbacks@, d)),
{
    let vendor_id = read_u16(space, 0x00);
    if vendor_id == 0xFFFF {
        return None;
    }
    let device_id = read_u16(space, 0x02);
    let command = read_u16(space, 0x04);
    let status = read_u16(space, 0x06);
    let revision_id = read_u8(space, 0x08);
    let prog_if = read_u8(space, 0x09);
    let subclass = read_u8(space, 0x0A);
    let class_code = read_u8(space, 0x0B);
    let cache_line_size = read_u8(space, 0x0C);
    let latency_timer = read_u8(space, 0x0D);
    let header_type = read_u8(space, 0x0E);
    let bist = read_u8(space, 0x0F);
    let header_type_raw = header_type & 0x7F;
    assert(header_type & 0x7F == header_type % 0x80) by (bit_vector);
    let mut bars = [Bar::Unused; 6];
    let ghost dw = space.dwords@;
    let ghost rb = readbacks@;
    if header_type_raw == 0 {
        let mut i: usize = 0;
        proof {
            lemma_decode_len(dw, rb, 0);
        }
        while i < 6
            invariant
                0 <= i <= 7,
                space.wf(),
                dw == space.dwords@,
                rb == readbacks@,
                bars@.len() == 6,
                decode_bars(dw, rb, 0).len() == 6,
                i <= 6 ==> bars@.subrange(0, i as int) + decode_bars(dw, rb, i as int) == decode_bars(dw, rb, 0),
                i == 7 ==> bars@ == decode_bars(dw, rb, 0),
                forall|k: int| i <= k < 6 ==> #[trigger] bars@[k] == Bar::Unused,
            decreases 7 - i,
        {
            let offset = 0x10u8 + (i as u8) * 4;
            let bar_raw = read_u32(space, offset);
            assert(dword_index(offset) == 4 + i);
            let ghost before = bars@;
            proof {
                lemma_decode_len(dw, rb, i as int);
            }
            if bar_raw == 0 {
                proof {
                    assert(bars@.subrange(0, i + 1) =~= bars@.subrange(0, i as int) + seq![Bar::Unused]);
                }
                i = i + 1;
            } else if bar_raw & 1 != 0 {
                let address = bar_raw & 0xFFFF_FFFC;
                let size = bar_size(readbacks[i], true);
                bars[i] = Bar::Io { address, size };
                proof {
                    assert(bars@.subrange(0, i + 1) =~= before.subrange(0, i as int) + seq![Bar::Io { address, size }]);
                }
                i = i + 1;
            } else {
                let is_64bit = (bar_raw & 0x6) == 0x4;
                let prefetchable = (bar_raw & 0x8) != 0;
                let address = bar_raw & 0xFFFF_FFF0;
                let size = bar_size(readbacks[i], false);
                let m = Bar::Memory { address, size, prefetchable, is_64bit };
                bars[i] = m;
                if is_64bit {
                    proof {
                        if i + 1 < 6 {
                            lemma_decode_len(dw, rb, i + 2);
                            assert(bars@.subrange(0, i + 2) =~= before.subrange(0, i as int) + seq![m, Bar::Unused]);
                            assert(before.subrange(0, i as int) + (seq![m, Bar::Unused] + decode_bars(dw, rb, i + 2))
                                =~= before.subrange(0, i as int) + seq![m, Bar::Unused] + decode_bars(dw, rb, i + 2));
                        } else {
                            assert(bars@ =~= before.subrange(0, i as int) + seq![m]);
                            assert(decode_bars(dw, rb, i + 1) =~= Seq::<Bar>::empty());
                            assert(before.subrange(0, i as int) + (seq![m] + decode_bars(dw, rb, i + 1))
                                =~= before.subrange(0, i as int) + seq![m]);
                        }
                    }
                    i = i + 2;
                } else {
                    proof {
                        assert(bars@.subrange(0, i + 1) =~= before.subrange(0, i as int) + seq![m]);
                        assert(before.subrange(0, i as int) + (seq![m] + decode_bars(dw, rb, i + 1))
                            =~= before.subrange(0, i as int) + seq![m] + decode_bars(dw, rb, i + 1));
                    }
                    i = i + 1;
                }
            }
        }
        proof {
            if i == 6 {
                assert(bars@.subrange(0, 6) =~= bars@);
                assert(decode_bars(dw, rb, 6) =~= Seq::<Bar>::empty());
                assert(bars@ + Seq::<Bar>::empty() =~= bars@);
            }
        }
    } else {
        assert(bars@ =~= Seq::new(6, |k: int| Bar::Unused));
    }
    let normal = header_type_raw == 0;
    let cardbus_cis = if normal { read_u32(space, 0x28) } else { 0 };
    let subsystem_vendor_id = if normal { read_u16(space, 0x2C) } else { 0 };
    let subsystem_id = if normal { read_u16(space, 0x2E) } else { 0 };
    let expansion_rom = if normal { read_u32(space, 0x30) } else { 0 };
    let interrupt_line = read_u8(space, 0x3C);
    let interrupt_pin = read_u8(space, 0x3D);
    let min_grant = read_u8(space, 0x3E);
    let max_latency = read_u8(space, 0x3F);
    Some(PciDevice {
        bus: space.bus,
        device: space.device,
        function: space.function,
        vendor_id,
        device_id,
        command,
        status,
        revision_id,
        prog_if,
        subclass,
        class_code,
        cache_line_size,
        latency_timer,
        header_type,
        bist,
        bars,
        cardbus_cis,
        subsystem_vendor_id,
        subsystem_id,
        expansion_rom,
        interrupt_line,
        interrupt_pin,
        min_grant,
        max_latency,
    })
}

/// First device with the given vendor and device id.
pub fn find_device(devices: &[PciDevice], vendor_id: u16, device_id: u16) -> (r: Option<PciDevice>)
    ensures
        r matches Some(d) ==> exists|i: int| {
            &&& 0 <= i < devices@.len()
            &&& #[trigger] devices@[i] == d
            &&& d.vendor_id == vendor_id && d.device_id == device_id
            &&& forall|j: int| 0 <= j < i ==> !((#[trigger] devices@[j]).vendor_id == vendor_id && devices@[j].device_id == device_id)
        },
        r is None ==> forall|j: int| 0 <= j < devices@.len() ==> !((#[trigger] devices@[j]).vendor_id == vendor_id && devices@[j].device_id == device_id),
{
    let mut i: usize = 0;
    while i < devices.len()
        invariant
            0 <= i <= devices@.len(),
            forall|j: int| 0 <= j < i ==> !((#[trigger] devices@[j]).vendor_id == vendor_id && devices@[j].device_id == device_id),
        decreases devices@.len() - i,
    {
        if devices[i].vendor_id == vendor_id && devices[i].device_id == device_id {
            let d = devices[i];
            assert(devices@[i as int] == d);
            return Some(d);
        }
        i = i + 1;
    }
    None
}

/// Devices of the given class and subclass.
pub open spec fn of_class(class_code: u8, subclass: u8) -> spec_fn(PciDevice) -> bool {
    |d: PciDevice| d.class_code == class_code && d.subclass == subclass
}

/// All devices of a class and subclass, in enumeration order.
pub fn find_by_class(devices: &[PciDevice], class_code: u8, subclass: u8) -> (r: Vec<PciDevice>)
    ensures
        r@ == devices@.filter(of_class(class_code, subclass)),
{
    let mut out: Vec<PciDevice> = Vec::new();
    let mut i: usize = 0;
    while i < devices.len()
        invariant
            0 <= i <= devices@.len(),
            out@ == devices@.subrange(0, i as int).filter(of_class(class_code, subclass)),
        decreases devices@.len() - i,
    {
        proof {
            crate::util::lemma_filter_prefix_step(devices@, i as int, of_class(class_code, subclass));
        }
        if devices[i].class_code == class_code && devices[i].subclass == subclass {
            out.push(devices[i]);
        }
        i = i + 1;
    }
    proof {
        assert(devices@.subrange(0, devices@.len() as int) =~= devices@);
    }
    out
}

/// Ethernet controllers (class 0x02, subclass 0x00).
pub fn find_network_controllers(devices: &[PciDevice]) -> (r: Vec<PciDevice>)
    ensures
        r@ == devices@.filter(of_class(0x02, 0x00)),
{
    find_by_class(devices, 0x02, 0x00)
}

/// A bus/device/function address on the PCI bus.
#[derive(Clone, Copy, Debug, PartialEq, Eq, Structural)]
pub struct PciAddress {
    pub bus: u8,
    pub device: u8,
    pub function: u8,
}

/// The next function probed after `a`: function 0 of a device is followed
/// by function 1 only when something answered there and it is
/// multifunction; the functions of a multifunction device run to 7; then
/// the next device (0..32) and bus (0..=255); `None` past the last bus.
pub open spec fn next_probe(a: PciAddress, answered: bool, multi: bool) -> Option<PciAddress> {
    if a.function == 0 && answered && multi {
        Some(PciAddress { function: 1, ..a })
    } else if a.function != 0 && a.function < 7 {
        Some(PciAddress { function: (a.function + 1) as u8, ..a })
    } else if a.device < 31 {
        Some(PciAddress { bus: a.bus, device: (a.device + 1) as u8, function: 0 })
    } else if a.bus < 255 {
        Some(PciAddress { bus: (a.bus + 1) as u8, device: 0, function: 0 })
    } else {
        None
    }
}

/// A scan of the PCI bus in progress: the devices found so far and the
/// function being probed.
pub struct PciScan {
    pub devices: Vec<PciDevice>,
    pub current: PciAddress,
}

/// Begin enumerating the PCI bus at bus 0, device 0, function 0; the
/// caller probes `current` and reports with [`PciScan::next`] until it
/// returns `None`, and then `devices` lists every function that answered.
pub fn enumerate() -> (r: PciScan)
    ensures
        r.devices@.len() == 0,
        r.current == (PciAddress { bus: 0, device: 0, function: 0 }),
{
    PciScan { devices: Vec::new(), current: PciAddress { bus: 0, device: 0, function: 0 } }
}

impl PciScan {

    /// Record what the probe of `current` found (the device read from its
    /// configuration space, `None` when nothing answered) and move on;
    /// `None` once the whole bus has been scanned.
    pub fn next(&mut self, found: Option<PciDevice>) -> (r: Option<PciAddress>)
        requires
            old(self).current.device < 32,
            old(self).current.function < 8,
        ensures
            final(self).devices@ == (match found {
                Some(d) => old(self).devices@.push(d),
                None => old(self).devices@,
            }),
            r == next_probe(
                old(self).current,
                found is Some,
                found matches Some(d) && d.header_type >= 0x80,
            ),
            r matches Some(a) ==> final(self).current == a && a.device < 32 && a.function < 8,
    {
        let a = self.current;
        let mut multi = false;
        let answered = found.is_some();
        match found {
            Some(d) => {
                multi = d.is_multifunction();
                self.devices.push(d);
            },
            None => {},
        }
        let next = if a.function == 0 && answered && multi {
            Some(PciAddress { function: 1, ..a })
        } else if a.function != 0 && a.function < 7 {
            Some(PciAddress { function: a.function + 1, ..a })
        } else if a.device < 31 {
            Some(PciAddress { bus: a.bus, device: a.device + 1, function: 0 })
        } else if a.bus < 255 {
            Some(PciAddress { bus: a.bus + 1, device: 0, function: 0 })
        } else {
            None
        };
        if let Some(n) = next {
            self.current = n;
        }
        next
    }
}

/// Position of an address in scan order.
pub open spec fn scan_index(a: PciAddress) -> int {
    (a.bus * 32 + a.device) * 8 + a.function
}

/// Every step of the scan moves strictly forward in bus, device,
/// function order, so the scan ends.
pub proof fn law_next_probe_advances(a: PciAddress, answered: bool, multi: bool)
    requires
        a.device < 32,
        a.function < 8,
    ensures
        next_probe(a, answered, multi) matches Some(n) ==> scan_index(n) > scan_index(a) && n.device < 32
            && n.function < 8,
        next_probe(a, answered, multi) is None ==> a.bus == 255 && a.device == 31,
{
}

/// The functions a whole scan from `a` on finds when probing address `x`
/// finds `answers(x)`: in scan order, each followed by what the scan
/// probes next.
pub open spec fn scan_found(a: PciAddress, answers: spec_fn(PciAddress) -> Option<PciDevice>) -> Seq<PciDevice>
    decreases 65536 - scan_index(a) when a.device < 32 && a.function < 8
{
    let f = answers(a);
    let here = match f {
        Some(d) => seq![d],
        None => Seq::empty(),
    };
    match next_probe(a, f is Some, f matches Some(d) && d.header_type >= 0x80) {
        Some(n) => {
            proof {
                law_next_probe_advances(a, f is Some, f matches Some(d) && d.header_type >= 0x80);
            }
            here + scan_found(n, answers)
        },
        None => here,
    }
}

/// Driving a scan with the answers `answers` keeps "found so far, then what
/// the rest of the scan finds" unchanged: one [`PciScan::next`] step moves
/// the function found at `a` (if any) from the second part to the first.
/// So a scan begun by [`enumerate`] and driven to its end lists exactly
/// `scan_found` of bus 0, device 0, function 0.
pub proof fn law_scan_step(found_so_far: Seq<PciDevice>, a: PciAddress, answers: spec_fn(PciAddress) -> Option<PciDevice>)
    requires
        a.device < 32,
        a.function < 8,
    ensures
        ({
            let f = answers(a);
            let after = match f {
                Some(d) => found_so_far.push(d),
                None => found_so_far,
            };
            match next_probe(a, f is Some, f matches Some(d) && d.header_type >= 0x80) {
                Some(n) => found_so_far + scan_found(a, answers) == after + scan_found(n, answers),
                None => found_so_far + scan_found(a, answers) == after,
            }
        }),
{
    let f = answers(a);
    match f {
        Some(d) => {
            match next_probe(a, true, d.header_type >= 0x80) {
                Some(n) => {
                    assert(found_so_far + (seq![d] + scan_found(n, answers)) =~= found_so_far.push(d) + scan_found(n, answers));
                },
                None => {
                    assert(found_so_far + seq![d] =~= found_so_far.push(d));
                },
            }
        },
        None => {
            match next_probe(a, false, false) {
                Some(n) => {
                    assert(Seq::<PciDevice>::empty() + scan_found(n, answers) =~= scan_found(n, answers));
                },
                None => {
                    assert(found_so_far + Seq::<PciDevice>::empty() =~= found_so_far);
                },
            }
        },
    }
}

/// One configuration-space access of a function.
#[derive(Debug, Clone, Copy, PartialEq, Eq, Structural)]
pub enum ConfigOp {
    Read { offset: u8 },
    Write { offset: u8, value: u32 },
}

/// BAR slots whose size `read_device` probes, from slot `i` on: the
/// implemented ones, the upper half of a 64-bit memory BAR skipped.
pub open spec fn probed_bars(dw: Seq<u32>, i: int) -> Seq<int>
    decreases 7 - i,
{
    if i >= 6 || i < 0 {
        Seq::empty()
    } else {
        let raw = dw[4 + i];
        if raw == 0 {
            probed_bars(dw, i + 1)
        } else if raw & 1 == 0 && raw & 0x6 == 0x4 {
            seq![i] + probed_bars(dw, i + 2)
        } else {
            seq![i] + probed_bars(dw, i + 1)
        }
    }
}

/// Sizing one BAR: save is the mirrored dword; write all ones, read the
/// size mask back, restore the saved value.
pub open spec fn sizing_ops(dw: Seq<u32>, i: int) -> Seq<ConfigOp> {
    let off = (0x10 + 4 * i) as u8;
    seq![ConfigOp::Write { offset: off, value: 0xFFFF_FFFF }, ConfigOp::Read { offset: off },
        ConfigOp::Write { offset: off, value: dw[4 + i] }]
}

pub open spec fn sizing_ops_all(dw: Seq<u32>, idx: Seq<int>) -> Seq<ConfigOp>
    decreases idx.len(),
{
    if idx.len() == 0 {
        Seq::empty()
    } else {
        sizing_ops(dw, idx[0]) + sizing_ops_all(dw, idx.drop_first())
    }
}

/// The accesses that size the BARs of the function `dw` mirrors: none for
/// an absent function or a header other than type 0.
pub open spec fn spec_sizing_plan(dw: Seq<u32>) -> Seq<ConfigOp> {
    if field16(dw[0], 0) == 0xFFFF || byte_of(dw[3], 2) % 0x80 != 0 {
        Seq::empty()
    } else {
        sizing_ops_all(dw, probed_bars(dw, 0))
    }
}

/// Configuration dwords after the writes among `ops` (reads change nothing).
pub open spec fn apply_ops(dw: Seq<u32>, ops: Seq<ConfigOp>) -> Seq<u32>
    decreases ops.len(),
{
    if ops.len() == 0 {
        dw
    } else {
        let next = match ops[0] {
            ConfigOp::Read { .. } => dw,
            ConfigOp::Write { offset, value } => dw.update(dword_index(offset), value),
        };
        apply_ops(next, ops.drop_first())
    }
}

/// The BAR accesses `read_device` makes on the hardware, in order; the
/// value each `Read` returns is the readback of that BAR for
/// [`read_device`].
pub fn bar_sizing_plan(space: &ConfigSpace) -> (r: Vec<ConfigOp>)
    requires
        space.wf(),
    ensures
        r@ == spec_sizing_plan(space.dwords@),
{
    let ghost dw = space.dwords@;
    let mut ops: Vec<ConfigOp> = Vec::new();
    let vendor_id = read_u16(space, 0x00);
    let header_type = read_u8(space, 0x0E);
    assert(header_type & 0x7F == header_type % 0x80) by (bit_vector);
    if vendor_id == 0xFFFF || header_type & 0x7F != 0 {
        return ops;
    }
    let mut i: usize = 0;
    while i < 6
        invariant
            0 <= i <= 7,
            space.wf(),
            dw == space.dwords@,
            i <= 6 ==> ops@ + sizing_ops_all(dw, probed_bars(dw, i as int)) == sizing_ops_all(dw, probed_bars(dw, 0)),
            i == 7 ==> ops@ == sizing_ops_all(dw, probed_bars(dw, 0)),
        decreases 7 - i,
    {
        let offset = 0x10u8 + (i as u8) * 4;
        let raw = read_u32(space, offset);
        assert(dword_index(offset) == 4 + i);
        if raw == 0 {
            i = i + 1;
        } else {
            let ghost before = ops@;
            let is_64 = raw & 1 == 0 && raw & 0x6 == 0x4;
            ops.push(ConfigOp::Write { offset, value: 0xFFFF_FFFF });
            ops.push(ConfigOp::Read { offset });
            ops.push(ConfigOp::Write { offset, value: raw });
            let ghost step: int = if is_64 { 2 } else { 1 };
            proof {
                let idx = probed_bars(dw, i as int);
                assert(idx == seq![i as int] + probed_bars(dw, i + step));
                assert(idx[0] == i as int);
                assert(idx.drop_first() =~= probed_bars(dw, i + step));
                assert(ops@ =~= before + sizing_ops(dw, i as int));
                if i + step >= 6 {
                    assert(probed_bars(dw, i + step) =~= Seq::<int>::empty());
                    assert(sizing_ops_all(dw, probed_bars(dw, i + step)) =~= Seq::<ConfigOp>::empty());
                    assert(ops@ + Seq::<ConfigOp>::empty() =~= ops@);
                }
                assert(before + sizing_ops_all(dw, idx) =~= ops@ + sizing_ops_all(dw, probed_bars(dw, i + step)));
            }
            if is_64 {
                i = i + 2;
            } else {
                i = i + 1;
            }
        }
    }
    proof {
        if i == 6 {
            assert(probed_bars(dw, 6) =~= Seq::<int>::empty());
            assert(ops@ + Seq::<ConfigOp>::empty() =~= ops@);
        }
    }
    ops
}

proof fn lemma_probed_in_range(dw: Seq<u32>, i: int)
    requires
        0 <= i,
    ensures
        forall|k: int| 0 <= k < probed_bars(dw, i).len() ==> i <= #[trigger] probed_bars(dw, i)[k] < 6,
    decreases 7 - i,
{
    if i < 6 {
        let raw = dw[4 + i];
        let step: int = if raw != 0 && raw & 1 == 0 && raw & 0x6 == 0x4 { 2 } else { 1 };
        lemma_probed_in_range(dw, i + step);
        let rest = probed_bars(dw, i + step);
        if raw != 0 {
            assert(probed_bars(dw, i) == seq![i] + rest);
            assert forall|k: int| 0 <= k < probed_bars(dw, i).len() implies i <= #[trigger] probed_bars(dw, i)[k] < 6 by {
                if k > 0 {
                    assert(probed_bars(dw, i)[k] == rest[k - 1]);
                }
            }
        }
    }
}

proof fn lemma_apply_concat(dw: Seq<u32>, a: Seq<ConfigOp>, b: Seq<ConfigOp>)
    ensures
        apply_ops(dw, a + b) == apply_ops(apply_ops(dw, a), b),
    decreases a.len(),
{
    if a.len() > 0 {
        let next = match a[0] {
            ConfigOp::Read { .. } => dw,
            ConfigOp::Write { offset, value } => dw.update(dword_index(offset), value),
        };
        assert((a + b).drop_first() =~= a.drop_first() + b);
        lemma_apply_concat(next, a.drop_first(), b);
    }
}

proof fn lemma_sizing_all_restores(dw: Seq<u32>, idx: Seq<int>)
    requires
        dw.len() == 64,
        forall|k: int| 0 <= k < idx.len() ==> 0 <= #[trigger] idx[k] < 6,
    ensures
        apply_ops(dw, sizing_ops_all(dw, idx)) == dw,
    decreases idx.len(),
{
    if idx.len() > 0 {
        let i = idx[0];
        let off = (0x10 + 4 * i) as u8;
        assert(dword_index(off) == 4 + i);
        let ops = sizing_ops(dw, i);
        lemma_apply_concat(dw, ops, sizing_ops_all(dw, idx.drop_first()));
        reveal_with_fuel(apply_ops, 4);
        assert(ops.drop_first().drop_first().drop_first() =~= Seq::<ConfigOp>::empty());
        assert(apply_ops(dw, ops) =~= dw.update(4 + i, 0xFFFF_FFFFu32).update(4 + i, dw[4 + i]));
        assert(dw.update(4 + i, 0xFFFF_FFFFu32).update(4 + i, dw[4 + i]) =~= dw);
        lemma_sizing_all_restores(dw, idx.drop_first());
    }
}

/// Sizing the BARs leaves the configuration space as it found it: every
/// BAR written with all ones gets its saved value back.
pub proof fn law_bar_sizing_restores(space: ConfigSpace)
    requires
        space.wf(),
    ensures
        apply_ops(space.dwords@, spec_sizing_plan(space.dwords@)) == space.dwords@,
{
    let dw = space.dwords@;
    if !(field16(dw[0], 0) == 0xFFFF || byte_of(dw[3], 2) % 0x80 != 0) {
        lemma_probed_in_range(dw, 0);
        lemma_sizing_all_restores(dw, probed_bars(dw, 0));
    }
}

} // verus!
