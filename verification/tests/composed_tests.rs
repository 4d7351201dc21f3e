use felix_kernel::devfs::{block_io_plan, merge_chunk, DevFS, DeviceRegistry, SectorChunk};
use felix_kernel::ext2::{mkdir_check, remove_file_check, root_entry_name, init_directory_block, list_dir_block, DirAdd, DirAddAction, Ext2, Ext2Inode, FileCreate, NAME_SLACK};
use felix_kernel::fdsys::console_bytes;
use felix_kernel::init::{BootInfo, DeviceMounts, FsKind, ProbedFs, BOOTINFO_MAGIC};
use felix_kernel::paging::PageManager;
use felix_kernel::resources::{reserve_boot_ranges, ResourceError, ResourceManager, VirtualRangeAllocator};
use felix_kernel::rootfs::{init_rootfs, pcmcia_hotplug_device};
use felix_kernel::shared::{acquire_file_page, SharedMapError, SharedPageCache};
use felix_kernel::task::PageRefcounts;
use felix_kernel::vfs::{global_inode, MountError, RenameError, VfsTable};

fn probe(name: &str, fs: usize, userspace: bool) -> ProbedFs {
    ProbedFs { name: name.as_bytes().to_vec(), kind: FsKind::Ext2, fs, has_userspace: userspace }
}

fn mounted(vfs: &VfsTable, p: &[u8]) -> bool {
    vfs.mounts.iter().any(|m| m.point == p)
}

#[test]
fn rootfs_mounts_every_other_disk_under_mnt() {
    let mut vfs = VfsTable::new();
    let disks = vec![(1usize, Some(probe("sda", 11, false))), (2, Some(probe("sdb", 12, true))), (3, Some(probe("sdc", 13, false)))];
    let s = init_rootfs(&mut vfs, &mut DeviceRegistry::new(), None, disks).unwrap();
    assert_eq!(s.root.fs, 12);
    assert_eq!(s.extra.len(), 2);
    for (point, _, res) in &s.extra {
        assert!(res.is_ok());
        assert!(mounted(&vfs, point));
    }
    assert!(mounted(&vfs, b"/mnt/sda") && mounted(&vfs, b"/mnt/sdc"));
    assert!(!matches!(s.dev_mount, Err(MountError::NoFreeId)));
}

#[test]
fn pcmcia_card_takes_the_first_free_mount_point() {
    let mut vfs = VfsTable::new();
    vfs.set_root();
    vfs.mount(b"/mnt/pcmcia0").unwrap();
    let mut registry = DeviceRegistry::new();
    DevFS::new().register_block(&mut registry, b"pcmcia0", 1);
    let mut devices = DeviceMounts::new();
    let (point, id) = pcmcia_hotplug_device(&mut vfs, &mut registry, &mut devices, 9, true).unwrap();
    assert_eq!(point, b"/mnt/pcmcia1".to_vec());
    assert_ne!(id, 0);
    assert_eq!(DevFS::block_device(&registry, b"pcmcia0"), Some(9));
    assert_eq!(registry.devices.len(), 1);
    let before = vfs.mounts.len();
    assert!(pcmcia_hotplug_device(&mut vfs, &mut registry, &mut devices, 9, false).is_none());
    assert_eq!(vfs.mounts.len(), before);
}

#[test]
fn k_mappings_then_k_releases() {
    let mut refs = PageRefcounts::new();
    assert!(refs.inc(7));
    assert!(!refs.inc(7));
    assert!(!refs.inc(7));
    assert!(refs.inc(9));
    assert!(!refs.dec(7));
    assert!(!refs.dec(7));
    assert!(refs.dec(7));
    assert!(!refs.dec(7));
    assert!(refs.inc(7));
    assert!(refs.dec(9));
}

#[test]
fn freeing_an_allocated_window_twice() {
    let mut va = VirtualRangeAllocator::new(0xE000_0000, 0xF000_0000);
    let a = va.alloc_kernel_virtual(0x1800, 4096, "a").unwrap();
    let b = va.alloc_kernel_virtual(0x1000, 4096, "b").unwrap();
    assert!(va.free_kernel_virtual(a, 0x1800).is_ok());
    assert_eq!(va.ranges.len(), 1);
    assert_eq!(va.ranges[0].start, b.0);
    assert!(matches!(va.free_kernel_virtual(a, 0x1800), Err(ResourceError::NotFound)));
    assert!(matches!(va.free_kernel_virtual(b, 0x2000), Err(ResourceError::NotFound)));
}

#[test]
fn console_shows_text_or_hex() {
    assert_eq!(console_bytes(b"hi\n"), b"hi\n".to_vec());
    assert_eq!(console_bytes(&[0xFF, 0x01, 0xAB]), b"[ff, 01, ab]\n".to_vec());
    assert_eq!(console_bytes(&[]), Vec::<u8>::new());
}

#[test]
fn rename_asks_the_filesystem_then_renames_once() {
    let mut vfs = VfsTable::new();
    vfs.set_root();
    let calls = std::cell::Cell::new(0);
    let r = vfs.rename(b"/a", b"/b", |_, p: &[u8]| p == &b"/a"[..], |_, _: &[u8], _: &[u8]| {
        calls.set(calls.get() + 1);
        true
    });
    assert_eq!(r, Ok(()));
    assert_eq!(calls.get(), 1);
    assert_eq!(vfs.rename(b"/a", b"/b", |_, _: &[u8]| false, |_, _: &[u8], _: &[u8]| true), Err(RenameError::NotFound));
    assert_eq!(vfs.rename(b"/a", b"/b", |_, _: &[u8]| true, |_, _: &[u8], _: &[u8]| true), Err(RenameError::Exists));
    assert_eq!(vfs.rename(b"/a", b"/b", |_, p: &[u8]| p == &b"/a"[..], |_, _: &[u8], _: &[u8]| false), Err(RenameError::Unsupported));
}

#[test]
fn append_writes_at_end_of_file() {
    let mut vfs = VfsTable::new();
    assert_eq!(vfs.append_write(5, |_, _| Some(10), |_, _, _| 3), (0, 0));
    vfs.set_root();
    assert_eq!(vfs.append_write(5, |_, _| None, |_, _, _| 3), (0, 0));
    assert_eq!(vfs.append_write(5, |id, ino| if id == 0 && ino == 5 { Some(10) } else { None }, |_, _, at| if at == 10 { 3 } else { 0 }), (3, 13));
    assert_eq!(vfs.append_write(global_inode(7, 1), |_, _| Some(10), |_, _, _| 3), (0, 0));
}

#[test]
fn shared_file_pages_are_cached() {
    let mut cache = SharedPageCache::new();
    let mut pm = PageManager::new();
    pm.next_free_page = 40;
    assert_eq!(acquire_file_page(&mut cache, &mut pm, 3, 100, |_| Some(10_000), |_, _, _| {}), Err(SharedMapError::Unaligned));
    assert_eq!(acquire_file_page(&mut cache, &mut pm, 3, 0, |_| None, |_, _, _| {}), Err(SharedMapError::NoMetadata));
    assert_eq!(acquire_file_page(&mut cache, &mut pm, 3, 8192, |_| Some(8192), |_, _, _| {}), Err(SharedMapError::BeyondEnd));
    let f = acquire_file_page(&mut cache, &mut pm, 3, 4096, |_| Some(5000), |_, _, _| {}).unwrap();
    assert_eq!(f, 40);
    assert_eq!(cache.pages[0].write_len, 904);
    let again = acquire_file_page(&mut cache, &mut pm, 3, 4096, |_| panic!("no metadata lookup"), |_, _, _| panic!("no I/O")).unwrap();
    assert_eq!(again, 40);
    assert_eq!(cache.pages[0].refs, 2);
    assert_eq!(pm.next_free_page, 41);
}

fn dir_inode(block0: u32) -> Ext2Inode {
    let mut d = Ext2Inode::zeroed();
    d.i_mode = 0x41ED;
    d.i_size = 1024;
    d.i_blocks = 2;
    d.i_block[0] = block0;
    d
}

#[test]
fn directory_entries_go_into_the_first_block_with_room() {
    let (fs, _) = Ext2::format(0, 16384, 1024);
    let (mut add, action) = DirAdd::start(dir_inode(262));
    assert!(matches!(action, DirAddAction::ReadBlock(262)));
    let data = vec![0u8; 1024 + NAME_SLACK];
    match add.block_read(&fs, data, b"hello", 12, 1) {
        DirAddAction::WriteBlock { block, data } => {
            assert_eq!(block, 262);
            let names: Vec<Vec<u8>> = list_dir_block(&data, 1024).into_iter().map(|e| e.name).collect();
            assert_eq!(names, vec![b"hello".to_vec()]);
        }
        _ => panic!("entry expected in the first block"),
    }
    let (_, refused) = DirAdd::start(Ext2Inode::zeroed());
    assert!(matches!(refused, DirAddAction::Finish(false)));
}

#[test]
fn full_directory_block_grows_the_directory() {
    let (fs, _) = Ext2::format(0, 16384, 1024);
    let (mut add, _) = DirAdd::start(dir_inode(262));
    // A block whose entries already run to its end takes no new entry.
    let mut full = init_directory_block(1024, 2, 2);
    full.resize(1024 + NAME_SLACK, 0);
    assert!(matches!(add.block_read(&fs, full, b"x", 13, 1), DirAddAction::AllocateBlock));
    match add.allocated(&fs, Some(300)) {
        DirAddAction::GrowAndRead { inode, block } => {
            assert_eq!(block, 300);
            assert_eq!(inode.i_block[1], 300);
            assert_eq!(inode.i_size, 2048);
            assert_eq!(inode.i_blocks, 4);
        }
        _ => panic!("grow expected"),
    }
    match add.block_read(&fs, vec![0u8; 1024 + NAME_SLACK], b"x", 13, 1) {
        DirAddAction::WriteBlock { block, .. } => assert_eq!(block, 300),
        _ => panic!("the fresh block takes the entry"),
    }
    let (mut other, _) = DirAdd::start(dir_inode(262));
    let mut full2 = init_directory_block(1024, 2, 2);
    full2.resize(1024 + NAME_SLACK, 0);
    let _ = other.block_read(&fs, full2, b"x", 13, 1);
    assert!(matches!(other.allocated(&fs, None), DirAddAction::Finish(false)));
}

#[test]
fn file_creation_steps() {
    let (fs, _) = Ext2::format(0, 16384, 1024);
    assert!(FileCreate::start(&fs, b"/", 10).is_none());
    let mut c = FileCreate::start(&fs, b"/docs/a.txt", 2500).unwrap();
    assert_eq!(c.parent_path, b"/docs".to_vec());
    assert_eq!(c.name, b"a.txt".to_vec());
    assert!(!c.parent_found(None));
    assert!(!c.parent_found(Some((5, Ext2Inode::zeroed()))));
    assert!(c.parent_found(Some((5, dir_inode(262)))));
    assert_eq!(c.inode_taken(&fs, None), None);
    assert_eq!(c.inode_taken(&fs, Some(12)), Some(3));
    assert_eq!(c.block_taken(&fs, Some(400)), Some((400, (0, 1024))));
    assert_eq!(c.block_taken(&fs, Some(401)), Some((401, (1024, 2048))));
    assert_eq!(c.block_taken(&fs, Some(402)), Some((402, (2048, 2500))));
    assert_eq!(c.inode.i_block[2], 402);
    assert_eq!(c.inode.i_size, 2500);
    let mut big = FileCreate::start(&fs, b"/big", 13 * 1024).unwrap();
    assert!(big.parent_found(Some((2, dir_inode(262)))));
    assert_eq!(big.inode_taken(&fs, Some(12)), None);
}

#[test]
fn boot_reservations_are_made_once() {
    let mut rm = ResourceManager::new();
    let mut done = false;
    let info = BootInfo { magic: BOOTINFO_MAGIC, disk_phys: 0x400_0000, disk_sectors: 2048, flags: 1, mem_bytes: 0 };
    assert!(reserve_boot_ranges(&mut rm, &mut done, info).is_ok());
    assert!(done);
    assert_eq!(rm.ranges.len(), 9);
    assert!(!rm.is_free(0x7000, 0x1000));
    assert!(!rm.is_free(0x400_0000, 1));
    assert!(rm.is_free(0x280_0000, 0x1000));
    assert!(reserve_boot_ranges(&mut rm, &mut done, info).is_ok());
    assert_eq!(rm.ranges.len(), 9);
    let mut rm2 = ResourceManager::new();
    let mut done2 = false;
    let clash = BootInfo { disk_phys: 0x100_0000, ..info };
    assert!(matches!(reserve_boot_ranges(&mut rm2, &mut done2, clash), Err(ResourceError::Overlap { .. })));
}

#[test]
fn sector_plans_follow_the_byte_range() {
    let plan = block_io_plan(1024, 1024, 512);
    assert_eq!(plan, vec![
        SectorChunk { sector: 2, sector_off: 0, buf_from: 0, len: 512 },
        SectorChunk { sector: 3, sector_off: 0, buf_from: 512, len: 512 },
    ]);
    let unaligned = block_io_plan(100, 300, 512);
    assert_eq!(unaligned, vec![SectorChunk { sector: 0, sector_off: 100, buf_from: 0, len: 300 }]);
    assert!(block_io_plan(7, 0, 512).is_empty());
    let mut sector = vec![0xAAu8; 8];
    merge_chunk(&mut sector, b"xyz", SectorChunk { sector: 0, sector_off: 2, buf_from: 1, len: 2 });
    assert_eq!(sector, vec![0xAA, 0xAA, b'y', b'z', 0xAA, 0xAA, 0xAA, 0xAA]);
}

#[test]
fn root_directory_operations_check_their_path() {
    assert_eq!(root_entry_name(b"/docs"), Some(b"docs".to_vec()));
    assert_eq!(root_entry_name(b"/a/b"), None);
    assert_eq!(root_entry_name(b"docs"), None);
    let (fs, _) = Ext2::format(0, 16384, 1024);
    assert_eq!(mkdir_check(&fs, b"/new", false), Some(b"new".to_vec()));
    assert_eq!(mkdir_check(&fs, b"/new", true), None);
    assert_eq!(mkdir_check(&fs, b"/a/new", false), None);
    let unmounted = Ext2::new(None);
    assert_eq!(mkdir_check(&unmounted, b"/new", false), None);
    let mut file = Ext2Inode::zeroed();
    file.i_mode = 0x81A4;
    assert_eq!(remove_file_check(&fs, b"/f", Some(file)), Some(b"f".to_vec()));
    assert_eq!(remove_file_check(&fs, b"/d", Some(dir_inode(262))), None);
    assert_eq!(remove_file_check(&fs, b"/f", None), None);
}
