use felix_kernel::paging::{PageManager, PteWrite, Unmapped, VirtAddr};
use felix_kernel::resources::{
    dma_alloc, dma_free, ioremap, ioremap_window, iounmap, take_io_mapping, map_resource, reserve_and_ioremap, IoMappings, ResourceError,
    ResourceKind, ResourceManager, VirtualRangeAllocator,
};
use felix_kernel::shared::{release_user_frame, shared_page_len, SharedFrameRelease, SharedMapError, SharedPageCache};

#[test]
fn ioremap_maps_the_covering_pages() {
    let mut va = VirtualRangeAllocator::new(0xE000_0000, 0xF000_0000);
    let mut pm = PageManager::new();
    let mut maps = IoMappings::new();
    let (rec, ws) = ioremap(&mut va, &mut pm, &mut maps, 0xFEBC_1010, 0x100, "nic").unwrap();
    assert_eq!(rec.phys_base, 0xFEBC_1000);
    assert_eq!(rec.map_size, 0x1000);
    assert_eq!(rec.map_base, VirtAddr(0xE000_0000));
    assert_eq!(rec.returned, VirtAddr(0xE000_0010));
    assert_eq!(ws.len(), 1);
    // A page table was made from frame 0 for directory entry 0x380.
    assert_eq!(ws[0].1, Some(0xC000_0000));
    assert_eq!(ws[0].0.table, 0xC000_0000);
    assert_eq!(ws[0].0.index, 0);
    assert_eq!(ws[0].0.value, 0xFEBC_1000 | 0x1B);
    assert_eq!(pm.dir.entries[0x380], 3);
    assert_eq!(maps.records.len(), 1);
    let (second, ws2) = ioremap(&mut va, &mut pm, &mut maps, 0xFEC0_0FF0, 0x20, "apic").unwrap();
    assert_eq!(second.map_size, 0x2000);
    assert_eq!(second.map_base, VirtAddr(0xE000_1000));
    assert_eq!(second.returned, VirtAddr(0xE000_1FF0));
    assert_eq!(ws2.len(), 2);
    assert_eq!(ws2[0].1, None);
    assert_eq!(ws2[1].0.index, 2);
    assert_eq!(ws2[1].0.value, 0xFEC0_1000 | 0x1B);
    assert_eq!(pm.next_free_page, 1);
    assert_eq!(maps.records.len(), 2);
}

#[test]
fn ioremap_refuses_bad_requests() {
    let mut va = VirtualRangeAllocator::new(0xE000_0000, 0xF000_0000);
    let mut pm = PageManager::new();
    let mut maps = IoMappings::new();
    assert!(matches!(ioremap(&mut va, &mut pm, &mut maps, 0x1000, 0, "x"), Err(ResourceError::ZeroSize)));
    assert!(matches!(ioremap(&mut va, &mut pm, &mut maps, 0x1_0000_0000, 16, "x"), Err(ResourceError::AddressTooHigh)));
    assert!(matches!(ioremap(&mut va, &mut pm, &mut maps, 0xFFFF_F000, 0x2000, "x"), Err(ResourceError::AddressTooHigh)));
    let mut tiny = VirtualRangeAllocator::new(0xE000_0000, 0xE000_0000);
    assert!(matches!(ioremap(&mut tiny, &mut pm, &mut maps, 0x1000, 16, "x"), Err(ResourceError::OutOfMemory)));
    assert!(va.ranges.is_empty());
    assert!(maps.records.is_empty());
    assert_eq!(pm.next_free_page, 0);
}

#[test]
fn ioremap_window_computes_the_covering_pages() {
    let mut va = VirtualRangeAllocator::new(0xE000_0000, 0xF000_0000);
    let rec = ioremap_window(&mut va, 0xFEC0_0FF0, 0x20, "apic").unwrap();
    assert_eq!(rec.map_size, 0x2000);
    assert_eq!(rec.phys_base, 0xFEC0_0000);
}

#[test]
fn iounmap_hands_back_the_recorded_mapping() {
    let mut va = VirtualRangeAllocator::new(0xE000_0000, 0xF000_0000);
    let mut pm = PageManager::new();
    let mut maps = IoMappings::new();
    let (rec, _) = ioremap(&mut va, &mut pm, &mut maps, 0xFEBC_0000, 0x2000, "nic").unwrap();
    let (back, us, freed) = iounmap(&mut maps, &mut va, &mut pm, rec.returned).unwrap();
    assert_eq!(back.map_base, rec.map_base);
    assert!(maps.records.is_empty());
    assert_eq!(us.len(), 2);
    assert_eq!(us[1], Unmapped::Table(PteWrite { table: 0xC000_0000, index: 1, value: 0 }));
    assert!(freed.is_ok());
    assert!(va.ranges.is_empty());
    assert!(matches!(iounmap(&mut maps, &mut va, &mut pm, rec.returned), Err(ResourceError::NotFound)));
}

#[test]
fn taking_a_mapping_forgets_it() {
    let mut va = VirtualRangeAllocator::new(0xE000_0000, 0xF000_0000);
    let mut pm = PageManager::new();
    let mut maps = IoMappings::new();
    let (rec, _) = ioremap(&mut va, &mut pm, &mut maps, 0xFEBC_0000, 0x1000, "nic").unwrap();
    assert_eq!(take_io_mapping(&mut maps, rec.returned).unwrap().map_base, rec.map_base);
    assert!(matches!(take_io_mapping(&mut maps, rec.returned), Err(ResourceError::NotFound)));
}

#[test]
fn failed_mapping_gives_the_reservation_back() {
    let mut rm = ResourceManager::new();
    let mut tiny = VirtualRangeAllocator::new(0xE000_0000, 0xE000_0000);
    let mut pm = PageManager::new();
    let mut maps = IoMappings::new();
    let r = reserve_and_ioremap(&mut rm, &mut tiny, &mut pm, &mut maps, 0xFEBC_0000, 0x1000, ResourceKind::Mmio, "nic");
    assert!(matches!(r, Err(ResourceError::OutOfMemory)));
    assert!(rm.is_free(0xFEBC_0000, 0x1000));
}

#[test]
fn failed_mapping_keeps_an_earlier_identical_reservation() {
    let mut rm = ResourceManager::new();
    let mut va = VirtualRangeAllocator::new(0xE000_0000, 0xF000_0000);
    let mut tiny = VirtualRangeAllocator::new(0xE000_0000, 0xE000_0000);
    let mut pm = PageManager::new();
    let mut maps = IoMappings::new();
    assert!(reserve_and_ioremap(&mut rm, &mut va, &mut pm, &mut maps, 0xFEBC_0000, 0x1000, ResourceKind::Mmio, "nic").is_ok());
    let r = reserve_and_ioremap(&mut rm, &mut tiny, &mut pm, &mut maps, 0xFEBC_0000, 0x1000, ResourceKind::Mmio, "nic");
    assert!(matches!(r, Err(ResourceError::OutOfMemory)));
    assert!(!rm.is_free(0xFEBC_0000, 0x1000));
}

#[test]
fn overlapping_reservation_is_refused() {
    let mut rm = ResourceManager::new();
    let mut va = VirtualRangeAllocator::new(0xE000_0000, 0xF000_0000);
    let mut pm = PageManager::new();
    let mut maps = IoMappings::new();
    assert!(reserve_and_ioremap(&mut rm, &mut va, &mut pm, &mut maps, 0xFEBC_0000, 0x1000, ResourceKind::Mmio, "a").is_ok());
    let clash = reserve_and_ioremap(&mut rm, &mut va, &mut pm, &mut maps, 0xFEBC_0800, 0x1000, ResourceKind::Mmio, "b");
    assert!(matches!(clash, Err(ResourceError::Overlap { .. })));
    let (m, rec, ws) =
        map_resource(&mut rm, &mut va, &mut pm, &mut maps, 0xFEB0_0000, 0x100, ResourceKind::Framebuffer, "fb").unwrap();
    assert!(m.mapped && m.reserved);
    assert_eq!(m.virt, rec.returned);
    assert_eq!(ws.len(), 1);
}

#[test]
fn mmio_release_stops_at_an_unmap_error() {
    let mut rm = ResourceManager::new();
    let mut va = VirtualRangeAllocator::new(0xE000_0000, 0xF000_0000);
    let mut pm = PageManager::new();
    let mut maps = IoMappings::new();
    let (mut m, _, _) = map_resource(&mut rm, &mut va, &mut pm, &mut maps, 0xFEB0_0000, 0x100, ResourceKind::Mmio, "dev").unwrap();
    assert!(matches!(m.release_owned(&mut rm, Err(ResourceError::NotFound)), Err(ResourceError::NotFound)));
    assert!(m.mapped && m.reserved);
    assert!(m.release_owned(&mut rm, Ok(())).is_ok());
    assert!(!m.mapped && !m.reserved);
    assert!(rm.is_free(0xFEB0_0000, 0x100));
}

#[test]
fn dma_buffers_come_and_go() {
    let mut rm = ResourceManager::new();
    let mut pm = PageManager::new();
    let b = dma_alloc(&mut rm, &mut pm, 64 * 1024 * 1024, 100, 16, u64::MAX).unwrap();
    assert_eq!(b.len, 100);
    assert_eq!(b.allocated_len(), 4096);
    assert_eq!(b.phys.0 % 4096, 0);
    assert_eq!(b.virt.0, b.phys.0.wrapping_add(0xC000_0000));
    assert!(!rm.is_free(b.phys.0 as u64, 4096));
    let phys = b.phys.0 as u64;
    assert!(dma_free(b, &mut rm, &mut pm).is_ok());
    assert!(rm.is_free(phys, 4096));
    assert!(matches!(dma_alloc(&mut rm, &mut pm, 1 << 20, 0, 16, u64::MAX), Err(ResourceError::ZeroSize)));
    assert!(matches!(dma_alloc(&mut rm, &mut pm, 1 << 20, 10, 3, u64::MAX), Err(ResourceError::InvalidAlignment)));
}

#[test]
fn dma_bus_addresses_stay_inside_the_buffer() {
    let mut rm = ResourceManager::new();
    let mut pm = PageManager::new();
    let b = dma_alloc(&mut rm, &mut pm, 64 * 1024 * 1024, 256, 16, u64::MAX).unwrap();
    let base = b.as_mut_ptr();
    assert_eq!(b.phys_of(base + 16, 32).unwrap().0, b.phys.0 + 16);
    assert!(matches!(b.phys_of(base + 250, 32), Err(ResourceError::NotFound)));
    assert!(matches!(b.phys_of(base - 1, 1), Err(ResourceError::NotFound)));
}

#[test]
fn shared_pages_are_counted_per_mapping() {
    let mut cache = SharedPageCache::new();
    let mut pm = PageManager::new();
    assert_eq!(cache.acquire_cached(7, 0), None);
    assert_eq!(cache.insert_or_join(7, 0, 100, 4096), (100, false));
    assert_eq!(cache.acquire_cached(7, 0), Some(100));
    assert_eq!(cache.pages[0].refs, 2);
    assert_eq!(cache.insert_or_join(7, 0, 101, 4096), (100, true));
    assert_eq!(cache.pages[0].refs, 3);
    let (r, page) = release_user_frame(&mut cache, &mut pm, 100);
    assert_eq!(r, SharedFrameRelease::Retained);
    assert!(page.is_none());
    assert_eq!(cache.release_shared_frame(100).0, SharedFrameRelease::Retained);
    let (last, page) = cache.release_shared_frame(100);
    assert_eq!(last, SharedFrameRelease::Last);
    assert_eq!(page.unwrap().inode, 7);
    assert!(cache.pages.is_empty());
    assert_eq!(cache.release_shared_frame(100).0, SharedFrameRelease::NotShared);
}

#[test]
fn acquire_then_release_restores_the_cache() {
    let mut cache = SharedPageCache::new();
    cache.insert_or_join(3, 4096, 55, 100);
    let before = cache.pages.clone();
    cache.acquire_cached(3, 4096);
    assert_eq!(cache.release_shared_frame(55).0, SharedFrameRelease::Retained);
    assert_eq!(cache.pages, before);
}

#[test]
fn shared_mappings_need_an_aligned_offset_inside_the_file() {
    assert_eq!(shared_page_len(4096, Some(5000)), Ok(904));
    assert_eq!(shared_page_len(0, Some(10000)), Ok(4096));
    assert_eq!(shared_page_len(1, Some(10000)), Err(SharedMapError::Unaligned));
    assert_eq!(shared_page_len(0, None), Err(SharedMapError::NoMetadata));
    assert_eq!(shared_page_len(8192, Some(8192)), Err(SharedMapError::BeyondEnd));
}
