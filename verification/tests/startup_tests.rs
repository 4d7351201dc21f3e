use felix_kernel::net::{
    connect_local_port, connect_return, connect_step, ConnectAction, ConnectEvent, ConnectFailure, ConnectReply, ConnectState,
    TcpPhase,
};
use felix_kernel::paging::{PageManager, PhysAddr};
use felix_kernel::resources::{
    alloc_kernel_virtual, alloc_phys, alloc_phys_below, dma_alloc, map_resource, reserve_and_ioremap, IoMappings,
    ResourceError, ResourceKind, ResourceManager, VirtualRangeAllocator,
};
use felix_kernel::shared::{acquire_file_page, SharedPageCache};
use felix_kernel::smp::{
    ap_start_step, ApAction, ApEvent, ApStart, ApStopReason, IPI_INIT_ASSERT, IPI_INIT_DEASSERT, IPI_STARTUP,
};

#[test]
fn physical_allocation_lands_on_the_next_aligned_frame() {
    let mut rm = ResourceManager::new();
    let mut pm = PageManager::new();
    pm.next_free_page = 0x101;
    let r = rm.alloc_phys_below(&mut pm, 0xFFFF_FFFF, 5000, 0x4000, ResourceKind::Dma, "x");
    assert_eq!(r.unwrap(), PhysAddr(0x10_4000));
    assert_eq!(pm.next_free_page, 0x106);
    assert!(!rm.is_free(0x10_4000, 0x2000));
    // Small alignments still give whole pages.
    let r2 = alloc_phys(&mut rm, &mut pm, 1, 8, ResourceKind::Kernel, "y");
    assert_eq!(r2.unwrap(), PhysAddr(0x10_6000));
}

#[test]
fn physical_allocation_fails_above_the_limit() {
    let mut rm = ResourceManager::new();
    let mut pm = PageManager::new();
    pm.next_free_page = 0x10;
    let r = alloc_phys_below(&mut rm, &mut pm, 0x1_0FFF, 0x2000, 0x1000, ResourceKind::Dma, "x");
    assert!(matches!(r, Err(ResourceError::OutOfMemory)));
    assert_eq!(pm.next_free_page, 0x10);
    assert_eq!(rm.ranges.len(), 0);
    let ok = alloc_phys_below(&mut rm, &mut pm, 0x1_1FFF, 0x2000, 0x1000, ResourceKind::Dma, "x");
    assert_eq!(ok.unwrap(), PhysAddr(0x1_0000));
}

#[test]
fn physical_allocation_refuses_a_taken_range() {
    let mut rm = ResourceManager::new();
    let mut pm = PageManager::new();
    assert!(rm.reserve_range(0, 0x1000, ResourceKind::Firmware, "bios").is_ok());
    let r = rm.alloc_phys(&mut pm, 0x1000, 0x1000, ResourceKind::Dma, "x");
    assert!(matches!(r, Err(ResourceError::Overlap { .. })));
    assert_eq!(rm.ranges.len(), 1);
}

#[test]
fn dma_buffers_start_on_the_next_aligned_frame() {
    let mut rm = ResourceManager::new();
    let mut pm = PageManager::new();
    pm.next_free_page = 3;
    let b = dma_alloc(&mut rm, &mut pm, 64 * 1024 * 1024, 100, 0x2000, u64::MAX).unwrap();
    assert_eq!(b.phys, PhysAddr(0x4000));
    assert_eq!(b.alloc_len, 0x1000);
}

#[test]
fn kernel_windows_are_first_fit() {
    let mut va = VirtualRangeAllocator::new(0xE000_0000, 0xF000_0000);
    let a = alloc_kernel_virtual(&mut va, 0x1800, 0x1000, "a").unwrap();
    let b = alloc_kernel_virtual(&mut va, 0x1000, 0x1000, "b").unwrap();
    assert_eq!(a.0, 0xE000_0000);
    assert_eq!(b.0, 0xE000_2000);
}

#[test]
fn failed_mapping_reports_the_mapping_error_and_frees_the_range() {
    let mut rm = ResourceManager::new();
    let mut tiny = VirtualRangeAllocator::new(0xE000_0000, 0xE000_0000);
    let mut pm = PageManager::new();
    let mut maps = IoMappings::new();
    let r = reserve_and_ioremap(&mut rm, &mut tiny, &mut pm, &mut maps, 0xFEBC_0000, 0x1000, ResourceKind::Mmio, "nic");
    assert!(matches!(r, Err(ResourceError::OutOfMemory)));
    assert!(rm.is_free(0xFEBC_0000, 0x1000));
    let high = map_resource(&mut rm, &mut tiny, &mut pm, &mut maps, 0x1_0000_0000, 0x1000, ResourceKind::Mmio, "nic");
    assert!(matches!(high, Err(ResourceError::AddressTooHigh)));
    assert!(rm.is_free(0x1_0000_0000, 0x1000));
}

#[test]
fn a_new_shared_page_is_filled_from_its_own_frame() {
    let mut cache = SharedPageCache::new();
    let mut pm = PageManager::new();
    pm.next_free_page = 40;
    let mut seen = None;
    let f = acquire_file_page(&mut cache, &mut pm, 7, 8192, |_| Some(9000), |fr, ino, off| {
        seen = Some((fr, ino, off));
    })
    .unwrap();
    assert_eq!(f, 40);
    assert_eq!(seen, Some((40, 7, 8192)));
}

#[test]
fn udp_connect_binds_the_ephemeral_port() {
    assert_eq!(connect_local_port(5), 49157);
    assert_eq!(connect_local_port(0x4001), 49153);
    let (st, act) = connect_step(ConnectState::Start, ConnectEvent::Socket { id: 5, is_tcp: false });
    assert_eq!(act, ConnectAction::BindUdp { port: 49157 });
    let (done, act2) = connect_step(st, ConnectEvent::Bound { ok: true });
    assert_eq!(done, ConnectState::Connected);
    assert_eq!(act2, ConnectAction::MarkConnected);
    assert_eq!(connect_return(done), 0);
    let (failed, _) = connect_step(st, ConnectEvent::Bound { ok: false });
    assert_eq!(failed, ConnectState::Failed(ConnectFailure::BindFailed));
    assert_eq!(connect_return(failed), usize::MAX);
}

#[test]
fn tcp_connect_is_established_or_refused() {
    let (st, act) = connect_step(ConnectState::Start, ConnectEvent::Socket { id: 2, is_tcp: true });
    assert_eq!(act, ConnectAction::Connect { port: 49154 });
    let (st, act) = connect_step(st, ConnectEvent::Connected(ConnectReply::Issued));
    assert_eq!(act, ConnectAction::Poll);
    let (st, act) = connect_step(st, ConnectEvent::Polled(TcpPhase::Opening));
    assert_eq!(act, ConnectAction::Poll);
    let (est, act) = connect_step(st, ConnectEvent::Polled(TcpPhase::Established));
    assert_eq!(est, ConnectState::Connected);
    assert_eq!(act, ConnectAction::MarkConnected);
    let (refused, act) = connect_step(st, ConnectEvent::Polled(TcpPhase::CloseWait));
    assert_eq!(refused, ConnectState::Failed(ConnectFailure::Refused));
    assert_eq!(act, ConnectAction::Fail(ConnectFailure::Refused));
    let (_, ignored) = connect_step(st, ConnectEvent::Bound { ok: true });
    assert_eq!(ignored, ConnectAction::Ignore);
}

#[test]
fn tcp_connect_times_out_after_two_hundred_attempts() {
    let (mut st, _) = connect_step(ConnectState::Start, ConnectEvent::Socket { id: 9, is_tcp: true });
    for _ in 0..199 {
        let (next, act) = connect_step(st, ConnectEvent::Connected(ConnectReply::Unaddressable));
        assert_eq!(act, ConnectAction::Connect { port: 49161 });
        st = next;
    }
    let (last, act) = connect_step(st, ConnectEvent::Connected(ConnectReply::Unaddressable));
    assert_eq!(last, ConnectState::Failed(ConnectFailure::TimedOut));
    assert_eq!(act, ConnectAction::Fail(ConnectFailure::TimedOut));
}

#[test]
fn application_processors_start_with_init_then_startup() {
    let st = ApStart::Next { slot: 1, logical: 3 };
    let (st, act) = ap_start_step(st, ApEvent::Begin { online: 0 });
    assert_eq!(act, ApAction::SendInit { slot: 1, command: IPI_INIT_ASSERT });
    let (st, act) = ap_start_step(st, ApEvent::InitDelivered(true));
    assert_eq!(act, ApAction::SendStartup { slot: 1, deassert: IPI_INIT_DEASSERT, startup: IPI_STARTUP });
    // Not online after the first startup IPI: send it again.
    let (st, act) = ap_start_step(st, ApEvent::Online(0));
    assert_eq!(act, ApAction::ResendStartup { slot: 1, startup: IPI_STARTUP });
    let (st, act) = ap_start_step(st, ApEvent::Online(1));
    assert_eq!(st, ApStart::Next { slot: 2, logical: 3 });
    assert_eq!(act, ApAction::ReadBefore);
    let (st, _) = ap_start_step(st, ApEvent::Begin { online: 1 });
    let (stopped, act) = ap_start_step(st, ApEvent::InitDelivered(false));
    assert_eq!(stopped, ApStart::Stopped { slot: 2, why: ApStopReason::InitTimedOut });
    assert_eq!(act, ApAction::Finish);
    let (all, _) = ap_start_step(ApStart::Next { slot: 3, logical: 3 }, ApEvent::Begin { online: 2 });
    assert_eq!(all, ApStart::Stopped { slot: 3, why: ApStopReason::AllStarted });
}

#[test]
fn application_processor_start_up_times_out() {
    let st = ApStart::Waiting { slot: 1, logical: 2, before: 0, spins: 1_999_998 };
    let (st, act) = ap_start_step(st, ApEvent::Online(0));
    assert_eq!(act, ApAction::ReadOnline);
    let (st, act) = ap_start_step(st, ApEvent::Online(0));
    assert_eq!(st, ApStart::Stopped { slot: 1, why: ApStopReason::StartupTimedOut });
    assert_eq!(act, ApAction::Finish);
}

#[test]
fn directory_physical_address_drops_the_kernel_offset() {
    let pm = PageManager::new();
    assert_eq!(pm.dir_phys(0xC012_3000), 0x0012_3000);
    assert_eq!(pm.dir_phys(0x0040_0000), 0x0040_0000);
}

#[test]
fn only_the_identical_reservation_is_accepted_again() {
    let mut rm = ResourceManager::new();
    assert!(rm.reserve_range(0x1000, 0x1000, ResourceKind::Mmio, "a").is_ok());
    assert!(rm.reserve_range(0x1000, 0x1000, ResourceKind::Mmio, "a").is_ok());
    assert_eq!(rm.ranges.len(), 1);
    assert!(matches!(rm.reserve_range(0x1000, 0x1000, ResourceKind::Mmio, "b"), Err(ResourceError::Overlap { .. })));
    assert!(matches!(rm.reserve_range(0x800, 0x1000, ResourceKind::Mmio, "a"), Err(ResourceError::Overlap { .. })));
    assert_eq!(rm.ranges.len(), 1);
}
