use felix_kernel::devfs::{DevFS, DeviceRegistry, node_name, trim_slashes_vec};
use felix_kernel::fdsys::{sys_write_advance, sys_write_step, WriteStep};
use felix_kernel::file::{DeviceKind, FileDescriptor, FileDescriptorTable, FileMode, OfdStore, PipeEnd};
use felix_kernel::init::{FsKind, ProbedFs};
use felix_kernel::paging::PageManager;
use felix_kernel::partition::{
    fat_partition_types, find_ext2_partition_config, find_fat_partition_config, mbr_partition_lba,
};
use felix_kernel::pci::{bar_sizing_plan, read_device, Bar, ConfigOp, ConfigSpace};
use felix_kernel::resources::{dma_alloc, ResourceManager};
use felix_kernel::rootfs::init_rootfs;
use felix_kernel::vfs::{
    append_end, global_inode, is_mount_prefix, normalize_dir_path, relative_path, rename_checks, rename_result, same_path,
    split_global_inode, MountError, RenameError, VfsTable,
};

fn mbr_with(entries: &[(u8, u32)], signature: bool) -> Vec<u8> {
    let mut m = vec![0u8; 512];
    for (i, (ty, lba)) in entries.iter().enumerate() {
        let off = 0x1BE + 16 * i;
        m[off + 4] = *ty;
        m[off + 8..off + 12].copy_from_slice(&lba.to_le_bytes());
        m[off + 12..off + 16].copy_from_slice(&1000u32.to_le_bytes());
    }
    if signature {
        m[510] = 0x55;
        m[511] = 0xAA;
    }
    m
}

#[test]
fn mbr_first_partition_of_a_type() {
    let m = mbr_with(&[(0x83, 2048), (0x0C, 4096), (0x83, 8192)], true);
    assert_eq!(mbr_partition_lba(&m, &[0x83]), Some(2048));
    assert_eq!(mbr_partition_lba(&m, &fat_partition_types()), Some(4096));
    assert_eq!(mbr_partition_lba(&m, &[0x07]), None);
    let unsigned = mbr_with(&[(0x83, 2048)], false);
    assert_eq!(mbr_partition_lba(&unsigned, &[0x83]), None);
}

#[test]
fn partition_configs_fall_back_to_the_whole_disk() {
    let m = mbr_with(&[(0x06, 63), (0x83, 100_000)], true);
    assert_eq!(find_fat_partition_config(Some(&m)).start_lba, 63);
    assert_eq!(find_ext2_partition_config(Some(&m)).start_lba, 100_000);
    let none = mbr_with(&[(0x07, 63)], true);
    assert_eq!(find_fat_partition_config(Some(&none)).start_lba, 0);
    assert_eq!(find_ext2_partition_config(Some(&none)).start_lba, 0);
    assert_eq!(find_ext2_partition_config(None).start_lba, 0);
    assert_eq!(find_fat_partition_config(None).start_lba, 0);
}

fn probe(name: &str, kind: FsKind, fs: usize, userspace: bool) -> ProbedFs {
    ProbedFs { name: name.as_bytes().to_vec(), kind, fs, has_userspace: userspace }
}

fn mounted(vfs: &VfsTable, p: &[u8]) -> bool {
    vfs.mounts.iter().any(|m| m.point == p)
}

#[test]
fn rootfs_prefers_a_ramdisk_with_userspace() {
    let mut vfs = VfsTable::new();
    let disks = vec![(7usize, Some(probe("sda", FsKind::Fat, 11, false))), (8usize, None)];
    let mut reg = DeviceRegistry::new();
    let s = init_rootfs(&mut vfs, &mut reg, Some((5, Some(probe("ram0", FsKind::Ext2, 10, true)))), disks).unwrap();
    assert!(vfs.has_root);
    assert_eq!(s.root.fs, 10);
    assert!(DevFS::contains(&reg, b"null") && DevFS::contains(&reg, b"zero") && DevFS::contains(&reg, b"ram0"));
    assert!(DevFS::contains(&reg, b"sda") && DevFS::contains(&reg, b"sdb"));
    assert!(matches!(DevFS::device_kind(&reg, b"null"), Some(DeviceKind::Char)));
    // The mount object shows the registry's nodes.
    assert_eq!(s.devfs.resolve_path(&reg, b"/dev/null"), Some(1));
    assert_eq!(s.extra.len(), 1);
    assert_eq!(s.extra[0].0, b"/mnt/sda".to_vec());
    assert!(mounted(&vfs, b"/mnt/sda") && mounted(&vfs, b"/dev") && mounted(&vfs, b"/proc"));
    assert!(s.dev_mount.is_ok() && s.proc_mount.is_ok());
}

#[test]
fn rootfs_falls_back_to_the_disks() {
    let mut vfs = VfsTable::new();
    let disks = vec![
        (7usize, Some(probe("sda", FsKind::Fat, 11, false))),
        (8usize, Some(probe("sdb", FsKind::Ext2, 12, true))),
    ];
    let mut reg = DeviceRegistry::new();
    let s = init_rootfs(&mut vfs, &mut reg, Some((5, Some(probe("ram0", FsKind::Ext2, 10, false)))), disks).unwrap();
    assert_eq!(s.root.fs, 12);
    assert!(DevFS::contains(&reg, b"ram0"));
    assert_eq!(s.extra.len(), 1);
    assert_eq!(s.extra[0].0, b"/mnt/sda".to_vec());
    assert!(mounted(&vfs, b"/dev") && mounted(&vfs, b"/proc"));
}

#[test]
fn rootfs_fails_without_any_userspace() {
    let mut vfs = VfsTable::new();
    let disks = vec![(7usize, Some(probe("sda", FsKind::Fat, 11, false)))];
    assert!(init_rootfs(&mut vfs, &mut DeviceRegistry::new(), None, disks).is_none());
    assert!(!vfs.has_root && vfs.mounts.is_empty());
    assert!(init_rootfs(&mut vfs, &mut DeviceRegistry::new(), None, Vec::new()).is_none());
}

fn nic_space() -> ConfigSpace {
    let mut dwords = vec![0u32; 64];
    dwords[0] = 0x8139_10EC;
    dwords[2] = 0x0200_0010;
    dwords[4] = 0x0000_C001; // I/O BAR
    dwords[5] = 0xFEBC_0004; // 64-bit memory BAR (upper half next)
    dwords[6] = 0;
    dwords[8] = 0xFEB0_0000; // 32-bit memory BAR
    ConfigSpace { bus: 0, device: 3, function: 0, dwords }
}

#[test]
fn bar_sizing_writes_ones_and_restores_each_bar() {
    let space = nic_space();
    let plan = bar_sizing_plan(&space);
    assert_eq!(
        plan,
        vec![
            ConfigOp::Write { offset: 0x10, value: 0xFFFF_FFFF },
            ConfigOp::Read { offset: 0x10 },
            ConfigOp::Write { offset: 0x10, value: 0x0000_C001 },
            ConfigOp::Write { offset: 0x14, value: 0xFFFF_FFFF },
            ConfigOp::Read { offset: 0x14 },
            ConfigOp::Write { offset: 0x14, value: 0xFEBC_0004 },
            ConfigOp::Write { offset: 0x20, value: 0xFFFF_FFFF },
            ConfigOp::Read { offset: 0x20 },
            ConfigOp::Write { offset: 0x20, value: 0xFEB0_0000 },
        ]
    );
    let mut absent = nic_space();
    absent.dwords[0] = 0xFFFF_FFFF;
    assert!(bar_sizing_plan(&absent).is_empty());
}

#[test]
fn read_device_sizes_bars_from_readbacks() {
    let space = nic_space();
    let readbacks = [0xFFFF_FF01, 0xFFFF_F004, 0, 0, 0xFFF0_0000, 0];
    let d = read_device(&space, &readbacks).unwrap();
    assert_eq!(d.vendor_id, 0x10EC);
    assert_eq!(d.device_id, 0x8139);
    assert_eq!(d.class_code, 0x02);
    assert_eq!(d.bars[0], Bar::Io { address: 0xC000, size: 0x100 });
    assert_eq!(d.bars[1], Bar::Memory { address: 0xFEBC_0000, size: 0x1000, prefetchable: false, is_64bit: true });
    assert_eq!(d.bars[2], Bar::Unused);
    assert_eq!(d.bars[4], Bar::Memory { address: 0xFEB0_0000, size: 0x10_0000, prefetchable: false, is_64bit: false });
}

#[test]
fn closing_duplicates_reports_the_last_reference_once() {
    let mut store = OfdStore::new();
    let mut t = FileDescriptorTable::new();
    assert!(t.insert(3, FileDescriptor::ConsoleOut, &mut store));
    assert!(t.insert(5, FileDescriptor::ConsoleIn, &mut store));
    assert!(t.dup2(3, 5, &mut store));
    // fd 5's earlier description lost its only reference.
    assert_eq!(store.slots.iter().filter(|s| s.is_some()).count(), 1);
    let first = t.close(5, &mut store).unwrap();
    assert!(!first.last_open_ref);
    assert!(t.get(5).is_none());
    let second = t.close(3, &mut store).unwrap();
    assert!(second.last_open_ref);
    assert!(t.close(3, &mut store).is_none());
    assert!(t.close(64, &mut store).is_none());
}

#[test]
fn stdio_descriptions_are_separate_and_fresh() {
    let mut store = OfdStore::new();
    let t = FileDescriptorTable::with_stdio(&mut store);
    assert!(matches!(t.get(0), Some(FileDescriptor::ConsoleIn)));
    assert!(matches!(t.get(1), Some(FileDescriptor::ConsoleOut)));
    assert!(matches!(t.get(2), Some(FileDescriptor::ConsoleOut)));
    assert!(t.get(3).is_none());
    assert_eq!(t.get_offset(1, &store), Some(0));
    assert_eq!(t.get_flags(2, &store), 0);
    assert_ne!(t.ofds[1], t.ofds[2]);
    assert!(t.set_offset(1, 42, &mut store));
    assert_eq!(t.get_offset(2, &store), Some(0));
}

#[test]
fn rename_decisions() {
    assert_eq!(rename_checks(false, false), Err(RenameError::NotFound));
    assert_eq!(rename_checks(true, true), Err(RenameError::Exists));
    assert_eq!(rename_checks(true, false), Ok(()));
    assert_eq!(rename_result(true), Ok(()));
    assert_eq!(rename_result(false), Err(RenameError::Unsupported));

    let mut vfs = VfsTable::new();
    vfs.set_root();
    vfs.mount(b"/mnt/usb").unwrap();
    assert_eq!(vfs.rename_target(b"/", b"/a"), Err(RenameError::Unsupported));
    assert_eq!(vfs.rename_target(b"/a", b"/mnt/usb/a"), Err(RenameError::CrossDevice));
    let (id, o, n) = vfs.rename_target(b"/mnt/usb/a/", b"/mnt/usb/b").unwrap();
    assert_ne!(id, 0);
    assert_eq!((o, n), (b"/a".to_vec(), b"/b".to_vec()));
}

#[test]
fn vfs_paths_and_mounts() {
    assert_eq!(normalize_dir_path(b"/a/b//"), b"/a/b".to_vec());
    assert_eq!(normalize_dir_path(b""), b"/".to_vec());
    assert_eq!(normalize_dir_path(b"///"), b"/".to_vec());
    assert!(same_path(b"/x", b"/x") && !same_path(b"/x", b"/y"));
    assert!(is_mount_prefix(b"/dev/sda", b"/dev"));
    assert!(is_mount_prefix(b"/dev", b"/dev"));
    assert!(!is_mount_prefix(b"/devfoo", b"/dev"));
    assert!(is_mount_prefix(b"/anything", b"/"));
    assert_eq!(relative_path(b"/dev", b"/dev"), b"/".to_vec());
    assert_eq!(relative_path(b"/dev/sda", b"/dev"), b"/sda".to_vec());
    let g = global_inode(3, 0x0123_4567);
    assert_eq!(g, 0x0323_4567);
    assert_eq!(split_global_inode(g), (3, 0x23_4567));

    let mut vfs = VfsTable::new();
    vfs.set_root();
    assert_eq!(vfs.mount(b"dev"), Err(MountError::NotAbsolute));
    let dev = vfs.mount(b"/dev").unwrap();
    let nested = vfs.mount(b"/dev/pts").unwrap();
    assert_eq!(vfs.mount(b"/dev"), Err(MountError::AlreadyMounted));
    assert_eq!(vfs.resolve(b"/dev/pts/0"), (nested, b"/0".to_vec()));
    assert_eq!(vfs.resolve(b"/dev/sda"), (dev, b"/sda".to_vec()));
    assert_eq!(vfs.resolve(b"/home"), (0, b"/home".to_vec()));
    assert_eq!(vfs.resolve(b""), (0, b"/".to_vec()));
    assert!(vfs.has_mount_descendant(b"/"));
    assert!(vfs.synthetic_dir_metadata(b"/dev").is_some());
    assert!(vfs.synthetic_dir_metadata(b"/dev/pts").is_none());
    let listing = vfs.list_directory_entries(b"/", None).unwrap();
    assert_eq!(listing.len(), 1);
    assert_eq!(listing[0].name, b"dev".to_vec());
    assert!(vfs.list_directory_entries(b"/home", None).is_none());
    assert!(vfs.unmount(b"/dev"));
    assert!(!vfs.unmount(b"/dev"));
    assert_eq!(vfs.resolve(b"/dev/sda"), (0, b"/dev/sda".to_vec()));
}

#[test]
fn devfs_registry() {
    let mut reg = DeviceRegistry::new();
    let d = DevFS::new();
    let a = d.register_block(&mut reg, b"sda", 4);
    let n = d.register_char(&mut reg, b"null", 0);
    assert_eq!((a, n), (1, 2));
    assert_eq!(d.register_block(&mut reg, b"sda", 9), 1);
    assert_eq!(DevFS::block_device(&reg, b"sda"), Some(4));
    assert_eq!(DevFS::block_device(&reg, b"null"), None);
    assert!(matches!(DevFS::device_kind(&reg, b"null"), Some(DeviceKind::Char)));
    assert_eq!(d.resolve_path(&reg, b"/sda"), Some(1));
    assert_eq!(d.resolve_path(&reg, b"dev"), None);
    assert_eq!(d.list_directory_entries(&reg, b"/").unwrap().len(), 2);
    assert!(d.list_directory_entries(&reg, b"/sda").is_none());
    // A second mount object sees the same nodes, and a node published
    // through the registry alone shows in both.
    let other = DevFS::new();
    assert_eq!(other.resolve_path(&reg, b"/null"), Some(2));
    assert_eq!(DevFS::register_char_global(&mut reg, b"zero", 1), 3);
    assert_eq!(d.resolve_path(&reg, b"/zero"), Some(3));
    assert_eq!(other.resolve_path(&reg, b"/zero"), Some(3));
    assert!(DevFS::unregister(&mut reg, b"sda"));
    assert!(!DevFS::contains(&reg, b"sda"));
    assert!(!DevFS::unregister(&mut reg, b"sda"));
    assert_eq!(node_name(b"/dev/null/"), b"null".to_vec());
    assert_eq!(trim_slashes_vec(b"//dev/"), b"dev".to_vec());
}

#[test]
fn dma_buffers_honour_large_alignment() {
    let mut rm = ResourceManager::new();
    let mut pm = PageManager::new();
    pm.next_free_page = 3;
    let b = dma_alloc(&mut rm, &mut pm, 64 * 1024 * 1024, 100, 0x4000, u64::MAX).unwrap();
    assert_eq!(b.phys.0 % 0x4000, 0);
}

#[test]
fn write_routes_by_descriptor() {
    assert_eq!(sys_write_step(None, 1, 5, false), WriteStep::Console { count: 5 });
    assert_eq!(sys_write_step(None, 4, 5, false), WriteStep::Done(0));
    assert_eq!(sys_write_step(Some(FileDescriptor::ConsoleOut), 7, 0, false), WriteStep::Done(0));
    let ro = FileDescriptor::File { inode: 9, offset: 10, mode: FileMode::ReadOnly };
    assert_eq!(sys_write_step(Some(ro), 3, 5, false), WriteStep::Done(0));
    let rw = FileDescriptor::File { inode: 9, offset: 10, mode: FileMode::ReadWrite };
    assert_eq!(sys_write_step(Some(rw), 3, 5, false), WriteStep::FileAt { inode: 9, offset: 10 });
    match sys_write_advance(rw, 5) {
        FileDescriptor::File { offset, .. } => assert_eq!(offset, 15),
        _ => panic!("file descriptor expected"),
    }
    let rd = FileDescriptor::Pipe { pipe_id: 2, end: PipeEnd::Read };
    assert_eq!(sys_write_step(Some(rd), 3, 5, true), WriteStep::Done(0));
    let wr = FileDescriptor::Pipe { pipe_id: 2, end: PipeEnd::Write };
    assert_eq!(sys_write_step(Some(wr), 3, 5, true), WriteStep::Pipe { pipe_id: 2, nonblock: true });
    assert_eq!(sys_write_step(Some(FileDescriptor::Socket { socket_id: 1 }), 3, 5, false), WriteStep::Done(0));
}

#[test]
fn global_inodes_find_their_filesystem() {
    let mut vfs = VfsTable::new();
    assert_eq!(vfs.inode_owner(5), None);
    vfs.set_root();
    assert_eq!(vfs.inode_owner(5), Some((0, 5)));
    let id = vfs.mount(b"/mnt/usb").unwrap();
    let g = global_inode(id, 77);
    assert_eq!(vfs.inode_owner(g), Some((id, 77)));
    assert_eq!(vfs.inode_owner(global_inode(200, 1)), None);
    assert_eq!(append_end(100, 20), (20, 120));
    assert_eq!(append_end(u64::MAX - 1, 20), (20, u64::MAX));
}
