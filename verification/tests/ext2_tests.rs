use felix_kernel::ext2::{
    add_entry_in_dir_block, bitmap_clear, bitmap_take_first_clear, block_path, find_in_dir_block, format_layout,
    get_u16_le, get_u32_le, init_directory_block, list_dir_block, prefix_bitmap, put_u16_le, put_u32_le,
    remove_in_dir_block, rec_len_for, split_path, BlockLookup, BlockPath, Ext2, Ext2BlockGroupDescriptor,
    Ext2DirEntry, Ext2Inode, Ext2SuperBlock, LookupStep, PointerRead, EXT2_MAGIC,
};

fn padded(block: Vec<u8>, block_size: usize) -> Vec<u8> {
    let mut b = block;
    b.truncate(block_size);
    b.resize(block_size + 263, 0);
    b
}

#[test]
fn little_endian_fields_round_trip() {
    let mut buf = vec![0u8; 8];
    put_u32_le(&mut buf, 0, 0x1234_5678);
    put_u16_le(&mut buf, 4, 0xBEEF);
    assert_eq!(buf[..6].to_vec(), vec![0x78, 0x56, 0x34, 0x12, 0xEF, 0xBE]);
    assert_eq!(get_u32_le(&buf, 0), 0x1234_5678);
    assert_eq!(get_u16_le(&buf, 4), 0xBEEF);
}

#[test]
fn dir_entry_reads_back_what_was_written() {
    let mut buf = vec![0xAAu8; 16];
    let e = Ext2DirEntry { inode: 0x0102_0304, rec_len: 0x0506, name_len: 7, file_type: 2 };
    e.write_to(&mut buf, 4);
    assert_eq!(Ext2DirEntry::read_from(&buf, 4), e);
    assert_eq!(buf[0], 0xAA);
    assert_eq!(buf[12], 0xAA);
}

#[test]
fn record_lengths_round_to_four() {
    assert_eq!(rec_len_for(1), 12);
    assert_eq!(rec_len_for(4), 12);
    assert_eq!(rec_len_for(5), 16);
    assert_eq!(rec_len_for(255), 264);
}

#[test]
fn fresh_directory_block_has_dot_and_dotdot() {
    let b = init_directory_block(1024, 5, 2);
    assert_eq!(b.len(), 4096);
    assert_eq!(&b[0..12], &[5, 0, 0, 0, 12, 0, 1, 2, b'.', 0, 0, 0]);
    assert_eq!(&b[12..22], &[2, 0, 0, 0, 0xF4, 0x03, 2, 2, b'.', b'.']);
    let buf = padded(b, 1024);
    assert_eq!(find_in_dir_block(&buf, 1024, "."), Some(5));
    assert_eq!(find_in_dir_block(&buf, 1024, ".."), Some(2));
    assert_eq!(find_in_dir_block(&buf, 1024, "missing"), None);
    let listed = list_dir_block(&buf, 1024);
    assert_eq!(listed.len(), 2);
    assert_eq!(listed[0].inode, 5);
    assert_eq!(listed[0].name, b".".to_vec());
    assert_eq!(listed[1].inode, 2);
    assert_eq!(listed[1].name, b"..".to_vec());
    assert_eq!(listed[1].file_type, 2);
}

#[test]
fn entry_goes_into_an_empty_block_only() {
    // A block whose chain already reaches its end takes no new entry.
    let mut full = padded(init_directory_block(1024, 5, 2), 1024);
    let before = full.clone();
    assert!(!add_entry_in_dir_block(&mut full, 1024, b"hello", 12, 1));
    assert_eq!(full, before);

    let mut empty = vec![0u8; 1024 + 263];
    assert!(add_entry_in_dir_block(&mut empty, 1024, b"hello", 12, 1));
    let e = Ext2DirEntry::read_from(&empty, 0);
    assert_eq!(e, Ext2DirEntry { inode: 12, rec_len: 1024, name_len: 5, file_type: 1 });
    assert_eq!(&empty[8..13], b"hello");
    assert_eq!(find_in_dir_block(&empty, 1024, "hello"), Some(12));
}

#[test]
fn removing_an_entry_clears_its_inode() {
    let mut buf = padded(init_directory_block(1024, 5, 2), 1024);
    assert!(remove_in_dir_block(&mut buf, 1024, ".."));
    assert_eq!(Ext2DirEntry::read_from(&buf, 12).inode, 0);
    assert_eq!(Ext2DirEntry::read_from(&buf, 12).rec_len, 1012);
    assert!(!remove_in_dir_block(&mut buf, 1024, "nothing"));
}

#[test]
fn bitmap_take_and_free_round_trip() {
    let mut bm = vec![0u8; 4096];
    bm[0] = 0xFF;
    bm[1] = 0x0F;
    let before = bm.clone();
    assert_eq!(bitmap_take_first_clear(&mut bm, 0, 100), Some(12));
    assert_eq!(bm[1], 0x1F);
    assert!(bitmap_clear(&mut bm, 12));
    assert_eq!(bm, before);
    assert!(!bitmap_clear(&mut bm, 8 * 4096));
}

#[test]
fn bitmap_search_stops_at_range_end() {
    let mut bm = vec![0xFFu8; 2];
    assert_eq!(bitmap_take_first_clear(&mut bm, 0, 16), None);
    assert_eq!(bitmap_take_first_clear(&mut bm, 0, 100), None);
    assert_eq!(bm, vec![0xFF, 0xFF]);
}

#[test]
fn logical_blocks_map_to_pointer_paths() {
    assert_eq!(block_path(1024, 5), BlockPath::Direct(5));
    assert_eq!(block_path(1024, 12), BlockPath::Single(0));
    assert_eq!(block_path(1024, 267), BlockPath::Single(255));
    assert_eq!(block_path(1024, 268), BlockPath::Double(0, 0));
    assert_eq!(block_path(1024, 268 + 257), BlockPath::Double(1, 1));
    assert_eq!(block_path(1024, 12 + 256 + 65536), BlockPath::Triple(0, 0, 0));
}

#[test]
fn block_lookup_walks_indirect_pointers() {
    let mut i_block = [0u32; 15];
    i_block[3] = 77;
    i_block[13] = 500;
    let (_, step) = BlockLookup::start(&i_block, 1024, 3);
    assert_eq!(step, LookupStep::Done(Some(77)));
    let (_, step) = BlockLookup::start(&i_block, 1024, 4);
    assert_eq!(step, LookupStep::Done(None));
    let (mut lookup, step) = BlockLookup::start(&i_block, 1024, 268 + 257);
    assert_eq!(step, LookupStep::Read(PointerRead { block: 500, index: 1 }));
    assert_eq!(lookup.next(600), LookupStep::Read(PointerRead { block: 600, index: 1 }));
    assert_eq!(lookup.next(900), LookupStep::Done(Some(900)));
    let (mut hole, _) = BlockLookup::start(&i_block, 1024, 268);
    assert_eq!(hole.next(0), LookupStep::Done(None));
}

#[test]
fn paths_split_into_parent_and_name() {
    assert_eq!(split_path(b"/a/b/c"), Some((b"/a/b".to_vec(), b"c".to_vec())));
    assert_eq!(split_path(b"/dir/"), Some((b"/".to_vec(), b"dir".to_vec())));
    assert_eq!(split_path(b"file"), Some((b"/".to_vec(), b"file".to_vec())));
    assert_eq!(split_path(b"/"), None);
    assert_eq!(split_path(b""), None);
    assert_eq!(split_path(b"///"), Some((b"/".to_vec(), Vec::new())));
}

#[test]
fn inode_record_round_trips() {
    let mut ino = Ext2Inode::zeroed();
    ino.i_mode = 0x81A4;
    ino.i_size = 5000;
    ino.i_block[0] = 300;
    ino.i_block[14] = 0xDEAD_BEEF;
    ino.i_osd2[11] = 9;
    let mut buf = vec![0u8; 512];
    ino.write_to(&mut buf, 128);
    let back = Ext2Inode::read_from(&buf, 128);
    assert_eq!(back.i_mode, 0x81A4);
    assert_eq!(back.i_size, 5000);
    assert_eq!(back.i_block, ino.i_block);
    assert_eq!(back.i_osd2, ino.i_osd2);
    assert!(back.is_regular());
    assert!(!back.is_dir());
    assert_eq!(&buf[0..128], &[0u8; 128][..]);
}

#[test]
fn group_descriptor_round_trips() {
    let bgd = Ext2BlockGroupDescriptor {
        bg_block_bitmap: 3,
        bg_inode_bitmap: 4,
        bg_inode_table: 5,
        bg_free_blocks_count: 7929,
        bg_free_inodes_count: 2037,
        bg_used_dirs_count: 1,
        bg_pad: 0,
    };
    let mut buf = vec![0u8; 32];
    bgd.write_to(&mut buf, 0);
    let back = Ext2BlockGroupDescriptor::read_from(&buf, 0);
    assert_eq!(back.bg_inode_table, 5);
    assert_eq!(back.bg_free_blocks_count, 7929);
}

#[test]
fn format_lays_out_a_single_group_volume() {
    let l = format_layout(16384, 1024);
    assert_eq!(l.total_blocks, 8192);
    assert_eq!(l.inodes_per_group, 2048);
    assert_eq!(l.first_data_block, 1);
    assert_eq!(l.inode_table_blocks, 256);
    assert_eq!(l.block_bitmap_block, 3);
    assert_eq!(l.inode_bitmap_block, 4);
    assert_eq!(l.inode_table_block, 5);
    assert_eq!(l.first_free_block, 262);

    let (fs, writes) = Ext2::format(0, 16384, 1024);
    assert!(fs.mounted);
    assert_eq!(fs.superblock.s_free_blocks_count, 8192 - 263);
    assert_eq!(writes.len(), 6 + 256);
    assert_eq!(writes[0].lba, 2);
    let sb = Ext2SuperBlock::read_from(&writes[0].data, 0);
    assert_eq!(sb.s_magic, EXT2_MAGIC);
    assert_eq!(sb.s_blocks_count, 8192);
    assert_eq!(sb.s_free_blocks_count, 8192 - 263);
    assert_eq!(sb.s_inodes_count, 2048);
    assert_eq!(&sb.s_volume_name[..7], b"RustOS\0");
    assert_eq!(writes[1].lba, 4);
    assert_eq!(writes[2].lba, 6);
    assert_eq!(writes[2].data[32], 0x7F);
    assert_eq!(writes[2].data[33], 0);
    assert_eq!(writes[3].data[0], 0xFF);
    assert_eq!(writes[3].data[1], 0x07);
    let bgd = Ext2BlockGroupDescriptor::read_from(&writes[1].data, 0);
    assert_eq!(bgd.bg_free_blocks_count as u32, 8192 - 263);
    let (slot_block, slot_off) = fs.inode_slot(5, 1);
    assert_eq!((slot_block, slot_off), (5, 128));
    let root = Ext2Inode::read_from(&writes[4 + 256].data, slot_off);
    assert!(root.is_dir());
    assert_eq!(root.i_mode, 0x41ED);
    assert!(Ext2Inode::read_from(&writes[4 + 256].data, 256).i_mode == 0);
    assert_eq!(root.i_block[0], 262);
    assert_eq!(writes[5 + 256].lba, 524);
}

#[test]
fn format_marks_the_root_directory_block_used() {
    // 4 KiB blocks: 1024 blocks, root directory in block 13.
    let (_, writes) = Ext2::format(0, 8192, 4096);
    let n = writes.len();
    assert_eq!(writes[n - 1].lba, 13 * 8);
    let bitmap = &writes[2].data;
    assert_eq!(bitmap[1] & (1 << 5), 1 << 5);
    assert_eq!(bitmap[1] & (1 << 6), 0);
    let root = Ext2Inode::read_from(&writes[n - 2].data, 128);
    assert_eq!(root.i_block[0], 13);
}

#[test]
fn format_gb_refuses_sizes_beyond_one_group() {
    assert!(Ext2::format_gb(0, 1, 4096).is_none());
    assert!(Ext2::format_gb(0, 0, 1024).is_none());
}

#[test]
fn prefix_bitmaps_set_leading_bits() {
    let b = prefix_bitmap(11);
    assert_eq!(b[0], 0xFF);
    assert_eq!(b[1], 0x07);
    assert_eq!(b[2], 0);
}

#[test]
fn mount_takes_block_size_from_the_superblock() {
    let mut fs = Ext2::new(Some(2048));
    let mut sb = Ext2SuperBlock::zeroed();
    sb.s_magic = EXT2_MAGIC;
    sb.s_log_block_size = 2;
    fs.mount(None, Some(sb));
    assert!(fs.mounted);
    assert_eq!(fs.block_size, 4096);
    assert_eq!(fs.partition_offset, 2048);

    let mut other = Ext2::new(None);
    let bad = Ext2SuperBlock::zeroed();
    other.mount(Some(63), Some(bad));
    assert!(!other.mounted);
    assert_eq!(other.partition_offset, 63);
}

#[test]
fn new_files_fit_in_twelve_direct_blocks() {
    let (fs, _) = Ext2::format(0, 16384, 1024);
    let (ino, n) = fs.new_file_inode(5000).unwrap();
    assert_eq!(n, 5);
    assert_eq!(ino.i_size, 5000);
    assert_eq!(ino.i_blocks, 10);
    assert_eq!(ino.i_mode, 0x81A4);
    assert!(fs.new_file_inode(13 * 1024).is_none());
    assert_eq!(fs.data_chunk(4, 5000), (4096, 5000));
    assert_eq!(fs.data_chunk(0, 5000), (0, 1024));
}

#[test]
fn inode_allocation_counts_in_the_descriptor() {
    let (fs, writes) = Ext2::format(0, 16384, 1024);
    let mut bitmap = writes[3].data.clone();
    let mut bgd = Ext2BlockGroupDescriptor::read_from(&writes[1].data, 0);
    let before = bgd.bg_free_inodes_count;
    assert_eq!(fs.alloc_inode(&mut bitmap, &mut bgd), Some(12));
    assert_eq!(bgd.bg_free_inodes_count, before - 1);
    let (group, changed) = fs.free_inode(&mut bitmap, &mut bgd, 13);
    assert_eq!(group, 0);
    assert!(changed);
    assert_eq!(bitmap, writes[3].data);
}

#[test]
fn a_read_piece_lands_where_the_plan_wrote() {
    let (fs, _) = Ext2::format(0, 16384, 1024);
    let (mut ino, n) = fs.new_file_inode(5000).unwrap();
    for k in 0..n as usize {
        ino.i_block[k] = 100 + k as u32;
    }
    assert_eq!(fs.write_file_plan(&mut ino, 5000), Some(5));
    // Byte 4100 went to block 4 at offset 4100 - 4096 = 4.
    assert_eq!(fs.data_chunk(4, 5000), (4096, 5000));
    assert_eq!(fs.read_piece(4100, 1000), (4, 4, 1000));
    assert_eq!(fs.read_piece(1000, 1000), (0, 1000, 24));
}
