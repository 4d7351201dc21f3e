use felix_kernel::paging::{
    copy_kernel_mappings, phys_to_virt, PDEFlags, PTEFlags, PageDirectory, PageManager, PhysAddr, PteWrite, Unmapped,
    VirtAddr, RECURSIVE_INDEX,
};
use felix_kernel::util::{bytes_eq, is_power_of_two_u32, is_power_of_two_u64, str_eq};
use felix_kernel::bytes::{push_decimal, push_le, push_signed_decimal, slice_to_vec, starts_with};

#[test]
fn addresses_split_and_align() {
    assert!(VirtAddr::null().is_null());
    assert_eq!(VirtAddr(0x1234_5678).page_align(), VirtAddr(0x1234_5000));
    let p = PhysAddr(0x0040_1ABC);
    assert_eq!(p.page_offset(), 0xABC);
    assert_eq!(p.page_number(), 0x401);
    assert_eq!(p.page_number() * 4096 + p.page_offset(), p.0);
    assert_eq!(p.page_align(), PhysAddr(0x0040_1000));
    assert!(PhysAddr::null().is_null());
}

#[test]
fn flag_builders_set_bits() {
    assert_eq!(PTEFlags::new().present().writable().user().bits(), 7);
    assert_eq!(PTEFlags::new().write_through().cache_disable().accessed().dirty().bits(), 8 | 16 | 32 | 64);
    assert_eq!(PDEFlags::new().present().large_page().bits(), 0x81);
    assert_eq!(PDEFlags::new().writable().user().accessed().bits(), 2 | 4 | 32);
}

#[test]
fn higher_half_offsets() {
    assert_eq!(phys_to_virt(0x1000), 0xC000_1000);
    assert_eq!(PageDirectory::get_page_table_ptr(3), 0xFFC0_3000);
    assert_eq!(PageDirectory::pt_from_pde(0x0030_0003), 0xC030_0000);
}

#[test]
fn large_pages_translate_within_the_window() {
    let mut pd = PageDirectory::new();
    pd.map_large(0xC000_0000, 0x0000_0000, PDEFlags::new().present().writable());
    assert_eq!(pd.translate(0xC012_3456, 0), Some(0x0012_3456));
    assert_eq!(pd.translate(0x0012_3456, 0), None);
    assert_eq!(pd.unmap(0xC000_0000), Unmapped::LargePage);
    assert_eq!(pd.translate(0xC012_3456, 0), None);
    assert_eq!(pd.unmap(0xC000_0000), Unmapped::Nothing);
}

#[test]
fn small_pages_need_a_table_first() {
    let mut pd = PageDirectory::new();
    let (w, fresh) = pd.map(0x400, 0x123, PTEFlags::new().present().writable(), 0x50);
    assert!(fresh);
    assert_eq!(pd.entries[1], 0x50 * 4096 | 1 | 2 | 4);
    assert_eq!(w, PteWrite { table: 0xC005_0000, index: 0, value: 0x123 * 4096 | 3 });
    let (w2, fresh2) = pd.map(0x401, 0x124, PTEFlags::new().present(), 0x99);
    assert!(!fresh2);
    assert_eq!(w2.index, 1);
    assert_eq!(pd.pte_location(0x0040_1000), Some((0xC005_0000, 1)));
    assert_eq!(pd.translate(0x0040_1ABC, 0x0012_4001), Some(0x0012_4ABC));
    assert_eq!(pd.translate(0x0040_1ABC, 0x0012_4000), None);
    assert_eq!(
        pd.unmap(0x0040_1000),
        Unmapped::Table(PteWrite { table: 0xC005_0000, index: 1, value: 0 })
    );
    assert!(PageDirectory::needs_table(0));
    assert!(PageDirectory::needs_table(0x81));
    assert!(!PageDirectory::needs_table(0x1003));
}

#[test]
fn recursive_slot_points_home() {
    let mut pd = PageDirectory::new();
    pd.setup_recursive(0x0020_0000);
    assert_eq!(pd.entries[RECURSIVE_INDEX], 0x0020_0003);
}

#[test]
fn frames_are_bumped() {
    let mut pm = PageManager::new();
    assert_eq!(pm.alloc_phys_frame(), 0);
    assert_eq!(pm.alloc_frame(), 1);
    pm.free_phys_frame(0);
    assert_eq!(pm.next_free_page, 2);
    assert_eq!(pm.alloc_contiguous_frames_aligned_below(4, 8, 100), Ok(8));
    assert_eq!(pm.next_free_page, 12);
    assert_eq!(pm.alloc_contiguous_frames_aligned_below(4, 8, 17), Err(()));
    assert_eq!(pm.next_free_page, 12);
}

#[test]
fn kernel_pages_get_a_table_once() {
    let mut pm = PageManager::new();
    pm.next_free_page = 0x100;
    let (w, table) = pm.map_kernel_page(0xE000_1000, 0xFEBC_0123, PTEFlags::new().present().writable());
    assert_eq!(table, Some(0xC010_0000));
    assert_eq!(w, PteWrite { table: 0xC010_0000, index: 1, value: 0xFEBC_0003 });
    assert_eq!(pm.next_free_page, 0x101);
    let (w2, table2) = pm.map_kernel_page(0xE000_2000, 0xFEBC_1000, PTEFlags::new().present());
    assert!(table2.is_none());
    assert_eq!(w2.index, 2);
    assert_eq!(pm.next_free_page, 0x101);
}

#[test]
fn task_directories_share_the_kernel_half() {
    let mut kernel = PageDirectory::new();
    kernel.entries[0] = 0x83;
    kernel.entries[800] = 0x0030_0003;
    kernel.entries[5] = 0;
    kernel.entries[100] = 0x0040_0007;
    let mut task = PageDirectory::new();
    copy_kernel_mappings(&mut task, &kernel, 0x0050_0000);
    assert_eq!(task.entries[0], 0x83);
    assert_eq!(task.entries[800], 0x0030_0003);
    assert_eq!(task.entries[100], 0);
    assert_eq!(task.entries[RECURSIVE_INDEX], 0x0050_0003);
}

#[test]
fn small_helpers() {
    assert!(is_power_of_two_u64(4096));
    assert!(!is_power_of_two_u64(0));
    assert!(!is_power_of_two_u32(12));
    assert!(is_power_of_two_u32(1));
    assert!(str_eq("abc", "abc"));
    assert!(!str_eq("abc", "abd"));
    assert!(bytes_eq(b"x", b"x"));
    assert!(starts_with(b"/dev/sda", b"/dev/"));
    assert!(!starts_with(b"/de", b"/dev/"));
    assert_eq!(slice_to_vec(b"hello", 1, 4), b"ell".to_vec());
    let mut out = Vec::new();
    push_decimal(&mut out, 0);
    push_decimal(&mut out, 4096);
    push_signed_decimal(&mut out, -12);
    assert_eq!(out, b"04096-12".to_vec());
    let mut le = Vec::new();
    push_le(&mut le, 0x0102_0304, 4);
    assert_eq!(le, vec![4, 3, 2, 1]);
}
