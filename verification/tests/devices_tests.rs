use felix_kernel::floppy::{result_status, setup_dma, validate_fdc_dma, DmaProgram, Floppy};
use felix_kernel::gdt::{make_tss_descriptor, GlobalDescriptorTable, KERNEL_CODE, USER_DATA};
use felix_kernel::ide::{status_check, ATAChannel, IDEChannelRegisters, PollStep};

#[test]
fn lba_maps_to_cylinder_head_sector() {
    let f = Floppy::new(0);
    assert_eq!(f.lba_to_chs(0), (0, 0, 1));
    assert_eq!(f.lba_to_chs(17), (0, 0, 18));
    assert_eq!(f.lba_to_chs(18), (0, 1, 1));
    assert_eq!(f.lba_to_chs(36), (1, 0, 1));
    assert_eq!(f.lba_to_chs(2879), (79, 1, 18));
}

#[test]
fn chs_gives_back_the_lba() {
    let f = Floppy::new(0);
    for lba in [0u32, 1, 17, 18, 35, 100, 1000, 2879] {
        let (c, h, s) = f.lba_to_chs(lba);
        assert_eq!((c as u32 * 2 + h as u32) * 18 + (s as u32 - 1), lba);
    }
}

#[test]
fn transfers_are_checked_and_encoded() {
    let f = Floppy::new(1);
    assert!(matches!(f.transfer_plan(0, 0, false), Err(0x01)));
    assert!(matches!(f.transfer_plan(0, 19, false), Err(0x01)));
    assert!(matches!(f.transfer_plan(2880, 1, false), Err(0x02)));
    let p = f.transfer_plan(18, 2, false).unwrap();
    assert_eq!(p.bytes, 1024);
    assert_eq!(p.command, [0x66, (1 << 2) | 1, 0, 1, 1, 2, 18, 0x1B, 0xFF]);
    let w = f.transfer_plan(36, 1, true).unwrap();
    assert_eq!(w.command[0], 0xC5);
}

#[test]
fn dma_transfers_are_checked_and_programmed() {
    assert_eq!(validate_fdc_dma(1024), Ok(0x20000));
    assert_eq!(validate_fdc_dma(0), Err(0x50));
    assert_eq!(validate_fdc_dma(5000), Err(0x50));
    assert_eq!(
        setup_dma(0x20000, 1024, true),
        Ok(DmaProgram { mode: 0x46, page: 2, addr_lo: 0, addr_hi: 0, count_lo: 0xFF, count_hi: 0x03 })
    );
    assert_eq!(setup_dma(0x20010, 16, false).unwrap().mode, 0x4A);
    assert_eq!(setup_dma(0x100_0000, 16, true), Err(0x50));
    assert_eq!(setup_dma(0x2FF00, 0x200, true), Err(0x51));
}

#[test]
fn floppy_result_bytes_decode() {
    assert_eq!(result_status(0, 0, 0), Ok(()));
    assert_eq!(result_status(0x40, 0, 0), Err(0x30));
    assert_eq!(result_status(0x04, 0x01, 0), Err(0x31));
    assert_eq!(result_status(0, 0, 0x02), Err(0x31));
    assert_eq!(result_status(0, 0x80, 0x04), Ok(()));
}

#[test]
fn gdt_holds_flat_segments_and_the_tss() {
    let mut gdt = GlobalDescriptorTable::new();
    gdt.init(0x1000, 104);
    assert_eq!(gdt.entries[0].entry, 0);
    assert_eq!(gdt.entries[1].entry, KERNEL_CODE);
    assert_eq!(gdt.entries[4].entry, USER_DATA);
    assert_eq!(gdt.entries[5].entry, 0x0000_8900_1000_0067);
    assert_eq!(gdt.entries[6].entry, 0);
    let d = gdt.descriptor(0xC000_1000);
    assert_eq!(d.size, 55);
    assert_eq!(d.offset, 0xC000_1000);
}

#[test]
fn tss_descriptor_splits_base_and_limit() {
    assert_eq!(make_tss_descriptor(0x1234_5678, 0x2_0067).entry, 0x1202_8934_5678_0067);
}

#[test]
fn ide_registers_resolve_to_ports() {
    let regs = IDEChannelRegisters::new(ATAChannel::Primary, 0x1F0, 0x3F6, 0xC000, 0);
    let status = regs.read(0x07);
    assert_eq!(status.port, Some(0x1F7));
    assert!(!status.hob);
    let hob = regs.read(0x08);
    assert!(hob.hob);
    assert_eq!(hob.port, Some(0x1F2));
    assert_eq!(hob.control, 0x3F8);
    assert_eq!(regs.write(0x0C, 0).port, Some(0x3F8));
    assert_eq!(regs.read_buffer(0x0E).port, Some(0xC000));
    assert_eq!(regs.read(0x16).port, None);
    assert_eq!(regs.software_reset(), (0x3F8, 0x1F7));
}

#[test]
fn polling_settles_then_waits_for_bsy() {
    let regs = IDEChannelRegisters::new(ATAChannel::Secondary, 0x170, 0x376, 0xC008, 0);
    let mut p = regs.polling(0);
    assert!(matches!(p.first(), PollStep::ReadAltStatus));
    assert!(matches!(p.next(0), PollStep::ReadAltStatus));
    assert!(matches!(p.next(0), PollStep::ReadAltStatus));
    assert!(matches!(p.next(0), PollStep::ReadAltStatus));
    assert!(matches!(p.next(0), PollStep::ReadStatus));
    assert!(matches!(p.next(0x80), PollStep::ReadStatus));
    assert!(matches!(p.next(0x50), PollStep::Done(Ok(()))));
}

#[test]
fn polling_checks_status_when_asked() {
    let regs = IDEChannelRegisters::new(ATAChannel::Primary, 0x1F0, 0x3F6, 0xC000, 0);
    for (status, expected) in [(0x58u8, Ok(())), (0x51, Err(2)), (0x60, Err(1)), (0x40, Err(3))] {
        let mut p = regs.polling(1);
        for _ in 0..4 {
            p.next(0);
        }
        assert!(matches!(p.next(0x50), PollStep::ReadStatus));
        match p.next(status) {
            PollStep::Done(r) => assert_eq!(r, expected),
            _ => panic!("poll did not finish"),
        }
    }
    assert_eq!(status_check(0x08), Ok(()));
}

#[test]
fn polling_gives_up_after_the_timeout() {
    let regs = IDEChannelRegisters::new(ATAChannel::Primary, 0x1F0, 0x3F6, 0xC000, 0);
    let mut p = regs.polling(0);
    for _ in 0..4 {
        p.next(0);
    }
    for _ in 0..500 {
        assert!(matches!(p.next(0x80), PollStep::ReadStatus));
    }
    assert!(matches!(p.next(0x80), PollStep::Done(Err(0xFF))));
}
