//! The on-disk side of the ext2 driver: the superblock, group descriptor,
//! inode and directory-entry records with their little-endian layout, the
//! walk from a logical file block to a disk block, directory blocks
//! (lookup, insertion, removal), allocation bitmaps, inode addressing and
//! the layout of a freshly formatted volume.
//!
//! Reading and writing the blocks themselves is the caller's part: each
//! operation here takes a block's bytes or hands back the bytes to store.
use vstd::prelude::*;
use vstd::string::StringSliceAdditionalSpecFns;
use crate::vfs::DirEntry;

verus! {

pub const EXT2_MAGIC: u16 = 0xEF53;
/// On-disk size of a block group descriptor.
pub const BGD_SIZE: u32 = 32;
/// On-disk size of an inode record.
pub const INODE_RECORD_SIZE: u32 = 128;
/// Size of the directory-entry header that precedes the name.
pub const DIR_HEADER: usize = 8;

// ---------------------------------------------------------------------
// Little-endian fields
// ---------------------------------------------------------------------

/// The 16-bit little-endian value at `off`.
pub open spec fn le16(s: Seq<u8>, off: int) -> int {
    s[off] + 256 * s[off + 1]
}

/// The 32-bit little-endian value at `off`.
pub open spec fn le32(s: Seq<u8>, off: int) -> int {
    s[off] + 256 * s[off + 1] + 65536 * s[off + 2] + 16777216 * s[off + 3]
}

/// Little-endian bytes of a 16-bit value.
pub open spec fn le16_bytes(v: u16) -> Seq<u8> {
    seq![(v % 256) as u8, (v / 256) as u8]
}

/// Little-endian bytes of a 32-bit value.
pub open spec fn le32_bytes(v: u32) -> Seq<u8> {
    seq![(v % 256) as u8, ((v / 256) % 256) as u8, ((v / 65536) % 256) as u8, (v / 16777216) as u8]
}

pub fn get_u16_le(buf: &[u8], off: usize) -> (r: u16)
    requires
        off + 2 <= buf@.len(),
    ensures
        r == le16(buf@, off as int),
{
    buf[off] as u16 + (buf[off + 1] as u16) * 256
}

pub fn get_u32_le(buf: &[u8], off: usize) -> (r: u32)
    requires
        off + 4 <= buf@.len(),
    ensures
        r == le32(buf@, off as int),
{
    buf[off] as u32 + (buf[off + 1] as u32) * 256 + (buf[off + 2] as u32) * 65536 + (buf[off + 3] as u32)
        * 16777216
}

/// Store `v` little-endian at `off`.
pub fn put_u16_le(buf: &mut Vec<u8>, off: usize, v: u16)
    requires
        off + 2 <= old(buf)@.len(),
    ensures
        final(buf)@ == old(buf)@.update(off as int, (v % 256) as u8).update(off + 1, (v / 256) as u8),
        le16(final(buf)@, off as int) == v,
        final(buf)@.len() == old(buf)@.len(),
        forall|i: int| 0 <= i < old(buf)@.len() && !(off <= i < off + 2) ==> #[trigger] final(buf)@[i] == old(buf)@[i],
{
    let _len = buf.len();
    buf.set(off, (v % 256) as u8);
    buf.set(off + 1, (v / 256) as u8);
}

/// Store `v` little-endian at `off`.
pub fn put_u32_le(buf: &mut Vec<u8>, off: usize, v: u32)
    requires
        off + 4 <= old(buf)@.len(),
    ensures
        final(buf)@ == old(buf)@.update(off as int, (v % 256) as u8).update(off + 1, ((v / 256) % 256) as u8).update(
            off + 2,
            ((v / 65536) % 256) as u8,
        ).update(off + 3, (v / 16777216) as u8),
        le32(final(buf)@, off as int) == v,
        final(buf)@.len() == old(buf)@.len(),
        forall|i: int| 0 <= i < old(buf)@.len() && !(off <= i < off + 4) ==> #[trigger] final(buf)@[i] == old(buf)@[i],
{
    let _len = buf.len();
    buf.set(off, (v % 256) as u8);
    buf.set(off + 1, ((v / 256) % 256) as u8);
    buf.set(off + 2, ((v / 65536) % 256) as u8);
    buf.set(off + 3, (v / 16777216) as u8);
    proof {
        lemma_le32_bytes(v);
    }
}

/// Append `v` little-endian.
pub fn push_u16_le(out: &mut Vec<u8>, v: u16)
    ensures
        final(out)@ == old(out)@ + le16_bytes(v),
{
    out.push((v % 256) as u8);
    out.push((v / 256) as u8);
    assert(final(out)@ =~= old(out)@ + le16_bytes(v)) by {
        assert(out@ =~= old(out)@ + le16_bytes(v));
    }
}

/// Append `v` little-endian.
pub fn push_u32_le(out: &mut Vec<u8>, v: u32)
    ensures
        final(out)@ == old(out)@ + le32_bytes(v),
{
    out.push((v % 256) as u8);
    out.push(((v / 256) % 256) as u8);
    out.push(((v / 65536) % 256) as u8);
    out.push((v / 16777216) as u8);
    assert(out@ =~= old(out)@ + le32_bytes(v));
}

/// Equal bytes give equal little-endian values.
pub proof fn lemma_le_frame(s1: Seq<u8>, s2: Seq<u8>, off: int, width: int)
    requires
        width == 2 || width == 4,
        0 <= off,
        off + width <= s1.len(),
        off + width <= s2.len(),
        forall|i: int| off <= i < off + width ==> s1[i] == s2[i],
    ensures
        width == 2 ==> le16(s1, off) == le16(s2, off),
        width == 4 ==> le32(s1, off) == le32(s2, off),
{
    assert(s1[off] == s2[off]);
    assert(s1[off + 1] == s2[off + 1]);
    if width == 4 {
        assert(s1[off + 2] == s2[off + 2]);
        assert(s1[off + 3] == s2[off + 3]);
    }
}

/// The four bytes of `v` recombine to `v`.
pub proof fn lemma_le32_bytes(v: u32)
    ensures
        (v % 256) as u8 + 256 * (((v / 256) % 256) as u8) + 65536 * (((v / 65536) % 256) as u8)
            + 16777216 * ((v / 16777216) as u8) == v,
{
    let a = v as int;
    assert(a == a % 256 + 256 * ((a / 256) % 256) + 65536 * ((a / 65536) % 256) + 16777216 * (a / 16777216))
        by (nonlinear_arith)
        requires
            0 <= a < 0x1_0000_0000,
    {
        vstd::arithmetic::div_mod::lemma_fundamental_div_mod(a, 256);
        vstd::arithmetic::div_mod::lemma_fundamental_div_mod(a / 256, 256);
        vstd::arithmetic::div_mod::lemma_fundamental_div_mod(a / 65536, 256);
        vstd::arithmetic::div_mod::lemma_div_denominator(a, 256, 256);
        vstd::arithmetic::div_mod::lemma_div_denominator(a, 65536, 256);
    }
}

// ---------------------------------------------------------------------
// Records
// ---------------------------------------------------------------------

/// The ext2 superblock (its first 136 bytes; the rest of the 1024-byte record is zero).
#[derive(Clone, Copy, Debug)]
pub struct Ext2SuperBlock {
    pub s_inodes_count: u32,
    pub s_blocks_count: u32,
    pub s_r_blocks_count: u32,
    pub s_free_blocks_count: u32,
    pub s_free_inodes_count: u32,
    pub s_first_data_block: u32,
    pub s_log_block_size: u32,
    pub s_log_frag_size: u32,
    pub s_blocks_per_group: u32,
    pub s_frags_per_group: u32,
    pub s_inodes_per_group: u32,
    pub s_mtime: u32,
    pub s_wtime: u32,
    pub s_mnt_count: u16,
    pub s_max_mnt_count: u16,
    pub s_magic: u16,
    pub s_state: u16,
    pub s_errors: u16,
    pub s_minor_rev_level: u16,
    pub s_lastcheck: u32,
    pub s_checkinterval: u32,
    pub s_creator_os: u32,
    pub s_rev_level: u32,
    pub s_def_resuid: u16,
    pub s_def_resgid: u16,
    pub s_first_ino: u32,
    pub s_inode_size: u16,
    pub s_block_group_nr: u16,
    pub s_feature_compat: u32,
    pub s_feature_incompat: u32,
    pub s_feature_ro_compat: u32,
    pub s_uuid: [u8; 16],
    pub s_volume_name: [u8; 16],
}

pub open spec fn superblock_at(s: Seq<u8>, off: int, x: Ext2SuperBlock) -> bool {
    &&& le32(s, off + 0) == x.s_inodes_count
    &&& le32(s, off + 4) == x.s_blocks_count
    &&& le32(s, off + 8) == x.s_r_blocks_count
    &&& le32(s, off + 12) == x.s_free_blocks_count
    &&& le32(s, off + 16) == x.s_free_inodes_count
    &&& le32(s, off + 20) == x.s_first_data_block
    &&& le32(s, off + 24) == x.s_log_block_size
    &&& le32(s, off + 28) == x.s_log_frag_size
    &&& le32(s, off + 32) == x.s_blocks_per_group
    &&& le32(s, off + 36) == x.s_frags_per_group
    &&& le32(s, off + 40) == x.s_inodes_per_group
    &&& le32(s, off + 44) == x.s_mtime
    &&& le32(s, off + 48) == x.s_wtime
    &&& le16(s, off + 52) == x.s_mnt_count
    &&& le16(s, off + 54) == x.s_max_mnt_count
    &&& le16(s, off + 56) == x.s_magic
    &&& le16(s, off + 58) == x.s_state
    &&& le16(s, off + 60) == x.s_errors
    &&& le16(s, off + 62) == x.s_minor_rev_level
    &&& le32(s, off + 64) == x.s_lastcheck
    &&& le32(s, off + 68) == x.s_checkinterval
    &&& le32(s, off + 72) == x.s_creator_os
    &&& le32(s, off + 76) == x.s_rev_level
    &&& le16(s, off + 80) == x.s_def_resuid
    &&& le16(s, off + 82) == x.s_def_resgid
    &&& le32(s, off + 84) == x.s_first_ino
    &&& le16(s, off + 88) == x.s_inode_size
    &&& le16(s, off + 90) == x.s_block_group_nr
    &&& le32(s, off + 92) == x.s_feature_compat
    &&& le32(s, off + 96) == x.s_feature_incompat
    &&& le32(s, off + 100) == x.s_feature_ro_compat
    &&& x.s_uuid@ == s.subrange(off + 104, off + 120)
    &&& x.s_volume_name@ == s.subrange(off + 120, off + 136)
}

impl Ext2SuperBlock {
    /// Decode the record stored at `off`.
    pub fn read_from(buf: &[u8], off: usize) -> (r: Self)
        requires
            off + 136 <= buf@.len(),
        ensures
            superblock_at(buf@, off as int, r),
    {
        let _len = buf.len();
        let mut s_uuid = [0u8; 16];
        let mut k: usize = 0;
        while k < 16
            invariant
                _len == buf@.len(),
                off + 136 <= buf@.len(),
                0 <= k <= 16,
                forall|j: int| 0 <= j < k ==> s_uuid@[j] == buf@[off + 104 + j],
            decreases 16 - k,
        {
            s_uuid[k] = buf[off + 104 + k];
            k = k + 1;
        }
        assert(s_uuid@ =~= buf@.subrange(off + 104, off + 120));
        let mut s_volume_name = [0u8; 16];
        let mut k: usize = 0;
        while k < 16
            invariant
                _len == buf@.len(),
                off + 136 <= buf@.len(),
                0 <= k <= 16,
                forall|j: int| 0 <= j < k ==> s_volume_name@[j] == buf@[off + 120 + j],
            decreases 16 - k,
        {
            s_volume_name[k] = buf[off + 120 + k];
            k = k + 1;
        }
        assert(s_volume_name@ =~= buf@.subrange(off + 120, off + 136));
        Ext2SuperBlock {
            s_inodes_count: get_u32_le(buf, off + 0),
            s_blocks_count: get_u32_le(buf, off + 4),
            s_r_blocks_count: get_u32_le(buf, off + 8),
            s_free_blocks_count: get_u32_le(buf, off + 12),
            s_free_inodes_count: get_u32_le(buf, off + 16),
            s_first_data_block: get_u32_le(buf, off + 20),
            s_log_block_size: get_u32_le(buf, off + 24),
            s_log_frag_size: get_u32_le(buf, off + 28),
            s_blocks_per_group: get_u32_le(buf, off + 32),
            s_frags_per_group: get_u32_le(buf, off + 36),
            s_inodes_per_group: get_u32_le(buf, off + 40),
            s_mtime: get_u32_le(buf, off + 44),
            s_wtime: get_u32_le(buf, off + 48),
            s_mnt_count: get_u16_le(buf, off + 52),
            s_max_mnt_count: get_u16_le(buf, off + 54),
            s_magic: get_u16_le(buf, off + 56),
            s_state: get_u16_le(buf, off + 58),
            s_errors: get_u16_le(buf, off + 60),
            s_minor_rev_level: get_u16_le(buf, off + 62),
            s_lastcheck: get_u32_le(buf, off + 64),
            s_checkinterval: get_u32_le(buf, off + 68),
            s_creator_os: get_u32_le(buf, off + 72),
            s_rev_level: get_u32_le(buf, off + 76),
            s_def_resuid: get_u16_le(buf, off + 80),
            s_def_resgid: get_u16_le(buf, off + 82),
            s_first_ino: get_u32_le(buf, off + 84),
            s_inode_size: get_u16_le(buf, off + 88),
            s_block_group_nr: get_u16_le(buf, off + 90),
            s_feature_compat: get_u32_le(buf, off + 92),
            s_feature_incompat: get_u32_le(buf, off + 96),
            s_feature_ro_compat: get_u32_le(buf, off + 100),
            s_uuid,
            s_volume_name,
        }
    }

    fn write_fields_0(&self, buf: &mut Vec<u8>, off: usize)
        requires
            off + 136 <= old(buf)@.len(),
        ensures
            final(buf)@.len() == old(buf)@.len(),
            le32(final(buf)@, off + 0) == self.s_inodes_count,
            le32(final(buf)@, off + 4) == self.s_blocks_count,
            le32(final(buf)@, off + 8) == self.s_r_blocks_count,
            le32(final(buf)@, off + 12) == self.s_free_blocks_count,
            le32(final(buf)@, off + 16) == self.s_free_inodes_count,
            forall|i: int| 0 <= i < old(buf)@.len() && !(off + 0 <= i < off + 20) ==> #[trigger] final(buf)@[i] == old(buf)@[i],
    {
        let _len = buf.len();
        put_u32_le(buf, off + 0, self.s_inodes_count);
        put_u32_le(buf, off + 4, self.s_blocks_count);
        put_u32_le(buf, off + 8, self.s_r_blocks_count);
        put_u32_le(buf, off + 12, self.s_free_blocks_count);
        put_u32_le(buf, off + 16, self.s_free_inodes_count);
    }

    fn write_fields_1(&self, buf: &mut Vec<u8>, off: usize)
        requires
            off + 136 <= old(buf)@.len(),
        ensures
            final(buf)@.len() == old(buf)@.len(),
            le32(final(buf)@, off + 20) == self.s_first_data_block,
            le32(final(buf)@, off + 24) == self.s_log_block_size,
            le32(final(buf)@, off + 28) == self.s_log_frag_size,
            le32(final(buf)@, off + 32) == self.s_blocks_per_group,
            le32(final(buf)@, off + 36) == self.s_frags_per_group,
            forall|i: int| 0 <= i < old(buf)@.len() && !(off + 20 <= i < off + 40) ==> #[trigger] final(buf)@[i] == old(buf)@[i],
    {
        let _len = buf.len();
        put_u32_le(buf, off + 20, self.s_first_data_block);
        put_u32_le(buf, off + 24, self.s_log_block_size);
        put_u32_le(buf, off + 28, self.s_log_frag_size);
        put_u32_le(buf, off + 32, self.s_blocks_per_group);
        put_u32_le(buf, off + 36, self.s_frags_per_group);
    }

    fn write_fields_2(&self, buf: &mut Vec<u8>, off: usize)
        requires
            off + 136 <= old(buf)@.len(),
        ensures
            final(buf)@.len() == old(buf)@.len(),
            le32(final(buf)@, off + 40) == self.s_inodes_per_group,
            le32(final(buf)@, off + 44) == self.s_mtime,
            le32(final(buf)@, off + 48) == self.s_wtime,
            le16(final(buf)@, off + 52) == self.s_mnt_count,
            le16(final(buf)@, off + 54) == self.s_max_mnt_count,
            forall|i: int| 0 <= i < old(buf)@.len() && !(off + 40 <= i < off + 56) ==> #[trigger] final(buf)@[i] == old(buf)@[i],
    {
        let _len = buf.len();
        put_u32_le(buf, off + 40, self.s_inodes_per_group);
        put_u32_le(buf, off + 44, self.s_mtime);
        put_u32_le(buf, off + 48, self.s_wtime);
        put_u16_le(buf, off + 52, self.s_mnt_count);
        put_u16_le(buf, off + 54, self.s_max_mnt_count);
    }

    fn write_fields_3(&self, buf: &mut Vec<u8>, off: usize)
        requires
            off + 136 <= old(buf)@.len(),
        ensures
            final(buf)@.len() == old(buf)@.len(),
            le16(final(buf)@, off + 56) == self.s_magic,
            le16(final(buf)@, off + 58) == self.s_state,
            le16(final(buf)@, off + 60) == self.s_errors,
            le16(final(buf)@, off + 62) == self.s_minor_rev_level,
            le32(final(buf)@, off + 64) == self.s_lastcheck,
            forall|i: int| 0 <= i < old(buf)@.len() && !(off + 56 <= i < off + 68) ==> #[trigger] final(buf)@[i] == old(buf)@[i],
    {
        let _len = buf.len();
        put_u16_le(buf, off + 56, self.s_magic);
        put_u16_le(buf, off + 58, self.s_state);
        put_u16_le(buf, off + 60, self.s_errors);
        put_u16_le(buf, off + 62, self.s_minor_rev_level);
        put_u32_le(buf, off + 64, self.s_lastcheck);
    }

    fn write_fields_4(&self, buf: &mut Vec<u8>, off: usize)
        requires
            off + 136 <= old(buf)@.len(),
        ensures
            final(buf)@.len() == old(buf)@.len(),
            le32(final(buf)@, off + 68) == self.s_checkinterval,
            le32(final(buf)@, off + 72) == self.s_creator_os,
            le32(final(buf)@, off + 76) == self.s_rev_level,
            le16(final(buf)@, off + 80) == self.s_def_resuid,
            le16(final(buf)@, off + 82) == self.s_def_resgid,
            forall|i: int| 0 <= i < old(buf)@.len() && !(off + 68 <= i < off + 84) ==> #[trigger] final(buf)@[i] == old(buf)@[i],
    {
        let _len = buf.len();
        put_u32_le(buf, off + 68, self.s_checkinterval);
        put_u32_le(buf, off + 72, self.s_creator_os);
        put_u32_le(buf, off + 76, self.s_rev_level);
        put_u16_le(buf, off + 80, self.s_def_resuid);
        put_u16_le(buf, off + 82, self.s_def_resgid);
    }

    fn write_fields_5(&self, buf: &mut Vec<u8>, off: usize)
        requires
            off + 136 <= old(buf)@.len(),
        ensures
            final(buf)@.len() == old(buf)@.len(),
            le32(final(buf)@, off + 84) == self.s_first_ino,
            le16(final(buf)@, off + 88) == self.s_inode_size,
            le16(final(buf)@, off + 90) == self.s_block_group_nr,
            le32(final(buf)@, off + 92) == self.s_feature_compat,
            le32(final(buf)@, off + 96) == self.s_feature_incompat,
            forall|i: int| 0 <= i < old(buf)@.len() && !(off + 84 <= i < off + 100) ==> #[trigger] final(buf)@[i] == old(buf)@[i],
    {
        let _len = buf.len();
        put_u32_le(buf, off + 84, self.s_first_ino);
        put_u16_le(buf, off + 88, self.s_inode_size);
        put_u16_le(buf, off + 90, self.s_block_group_nr);
        put_u32_le(buf, off + 92, self.s_feature_compat);
        put_u32_le(buf, off + 96, self.s_feature_incompat);
    }

    fn write_fields_6(&self, buf: &mut Vec<u8>, off: usize)
        requires
            off + 136 <= old(buf)@.len(),
        ensures
            final(buf)@.len() == old(buf)@.len(),
            le32(final(buf)@, off + 100) == self.s_feature_ro_compat,
            forall|i: int| 0 <= i < old(buf)@.len() && !(off + 100 <= i < off + 104) ==> #[trigger] final(buf)@[i] == old(buf)@[i],
    {
        let _len = buf.len();
        put_u32_le(buf, off + 100, self.s_feature_ro_compat);
    }

    /// Store the record at `off`; the bytes it spans are exactly its
    /// encoding and every other byte is kept.
    #[verifier::spinoff_prover]
    #[verifier::rlimit(60)]
    pub fn write_to(&self, buf: &mut Vec<u8>, off: usize)
        requires
            off + 136 <= old(buf)@.len(),
        ensures
            final(buf)@.len() == old(buf)@.len(),
            superblock_at(final(buf)@, off as int, *self),
            forall|i: int| 0 <= i < old(buf)@.len() && !(off <= i < off + 136) ==> #[trigger] final(buf)@[i] == old(buf)@[i],
    {
        let _len = buf.len();
        self.write_fields_0(buf, off);
        let ghost after_0 = buf@;
        self.write_fields_1(buf, off);
        let ghost after_1 = buf@;
        self.write_fields_2(buf, off);
        let ghost after_2 = buf@;
        self.write_fields_3(buf, off);
        let ghost after_3 = buf@;
        self.write_fields_4(buf, off);
        let ghost after_4 = buf@;
        self.write_fields_5(buf, off);
        let ghost after_5 = buf@;
        self.write_fields_6(buf, off);
        let ghost after_6 = buf@;
        copy_into(buf, off + 104, &self.s_uuid, 16);
        assert(buf@.subrange(off + 104, off + 120) =~= self.s_uuid@);
        let ghost arr_0 = buf@;
        copy_into(buf, off + 120, &self.s_volume_name, 16);
        assert(buf@.subrange(off + 120, off + 136) =~= self.s_volume_name@);
        let ghost arr_1 = buf@;
        proof {
            lemma_le_frame(buf@, after_0, off + 0, 4);
            lemma_le_frame(buf@, after_0, off + 4, 4);
            lemma_le_frame(buf@, after_0, off + 8, 4);
            lemma_le_frame(buf@, after_0, off + 12, 4);
            lemma_le_frame(buf@, after_0, off + 16, 4);
            lemma_le_frame(buf@, after_1, off + 20, 4);
            lemma_le_frame(buf@, after_1, off + 24, 4);
            lemma_le_frame(buf@, after_1, off + 28, 4);
            lemma_le_frame(buf@, after_1, off + 32, 4);
            lemma_le_frame(buf@, after_1, off + 36, 4);
            lemma_le_frame(buf@, after_2, off + 40, 4);
            lemma_le_frame(buf@, after_2, off + 44, 4);
            lemma_le_frame(buf@, after_2, off + 48, 4);
            lemma_le_frame(buf@, after_2, off + 52, 2);
            lemma_le_frame(buf@, after_2, off + 54, 2);
            lemma_le_frame(buf@, after_3, off + 56, 2);
            lemma_le_frame(buf@, after_3, off + 58, 2);
            lemma_le_frame(buf@, after_3, off + 60, 2);
            lemma_le_frame(buf@, after_3, off + 62, 2);
            lemma_le_frame(buf@, after_3, off + 64, 4);
            lemma_le_frame(buf@, after_4, off + 68, 4);
            lemma_le_frame(buf@, after_4, off + 72, 4);
            lemma_le_frame(buf@, after_4, off + 76, 4);
            lemma_le_frame(buf@, after_4, off + 80, 2);
            lemma_le_frame(buf@, after_4, off + 82, 2);
            lemma_le_frame(buf@, after_5, off + 84, 4);
            lemma_le_frame(buf@, after_5, off + 88, 2);
            lemma_le_frame(buf@, after_5, off + 90, 2);
            lemma_le_frame(buf@, after_5, off + 92, 4);
            lemma_le_frame(buf@, after_5, off + 96, 4);
            lemma_le_frame(buf@, after_6, off + 100, 4);
            assert(buf@.subrange(off + 104, off + 120) =~= arr_0.subrange(off + 104, off + 120));
            assert(buf@.subrange(off + 120, off + 136) =~= arr_1.subrange(off + 120, off + 136));
        }
    }
}

/// A block group descriptor (32 bytes on disk; the last 12 are reserved).
#[derive(Clone, Copy, Debug)]
pub struct Ext2BlockGroupDescriptor {
    pub bg_block_bitmap: u32,
    pub bg_inode_bitmap: u32,
    pub bg_inode_table: u32,
    pub bg_free_blocks_count: u16,
    pub bg_free_inodes_count: u16,
    pub bg_used_dirs_count: u16,
    pub bg_pad: u16,
}

pub open spec fn bgd_at(s: Seq<u8>, off: int, x: Ext2BlockGroupDescriptor) -> bool {
    &&& le32(s, off + 0) == x.bg_block_bitmap
    &&& le32(s, off + 4) == x.bg_inode_bitmap
    &&& le32(s, off + 8) == x.bg_inode_table
    &&& le16(s, off + 12) == x.bg_free_blocks_count
    &&& le16(s, off + 14) == x.bg_free_inodes_count
    &&& le16(s, off + 16) == x.bg_used_dirs_count
    &&& le16(s, off + 18) == x.bg_pad
}

impl Ext2BlockGroupDescriptor {
    /// Decode the record stored at `off`.
    pub fn read_from(buf: &[u8], off: usize) -> (r: Self)
        requires
            off + 20 <= buf@.len(),
        ensures
            bgd_at(buf@, off as int, r),
    {
        let _len = buf.len();
        Ext2BlockGroupDescriptor {
            bg_block_bitmap: get_u32_le(buf, off + 0),
            bg_inode_bitmap: get_u32_le(buf, off + 4),
            bg_inode_table: get_u32_le(buf, off + 8),
            bg_free_blocks_count: get_u16_le(buf, off + 12),
            bg_free_inodes_count: get_u16_le(buf, off + 14),
            bg_used_dirs_count: get_u16_le(buf, off + 16),
            bg_pad: get_u16_le(buf, off + 18),
        }
    }

    fn write_fields_0(&self, buf: &mut Vec<u8>, off: usize)
        requires
            off + 20 <= old(buf)@.len(),
        ensures
            final(buf)@.len() == old(buf)@.len(),
            le32(final(buf)@, off + 0) == self.bg_block_bitmap,
            le32(final(buf)@, off + 4) == self.bg_inode_bitmap,
            le32(final(buf)@, off + 8) == self.bg_inode_table,
            le16(final(buf)@, off + 12) == self.bg_free_blocks_count,
            le16(final(buf)@, off + 14) == self.bg_free_inodes_count,
            forall|i: int| 0 <= i < old(buf)@.len() && !(off + 0 <= i < off + 16) ==> #[trigger] final(buf)@[i] == old(buf)@[i],
    {
        let _len = buf.len();
        put_u32_le(buf, off + 0, self.bg_block_bitmap);
        put_u32_le(buf, off + 4, self.bg_inode_bitmap);
        put_u32_le(buf, off + 8, self.bg_inode_table);
        put_u16_le(buf, off + 12, self.bg_free_blocks_count);
        put_u16_le(buf, off + 14, self.bg_free_inodes_count);
    }

    fn write_fields_1(&self, buf: &mut Vec<u8>, off: usize)
        requires
            off + 20 <= old(buf)@.len(),
        ensures
            final(buf)@.len() == old(buf)@.len(),
            le16(final(buf)@, off + 16) == self.bg_used_dirs_count,
            le16(final(buf)@, off + 18) == self.bg_pad,
            forall|i: int| 0 <= i < old(buf)@.len() && !(off + 16 <= i < off + 20) ==> #[trigger] final(buf)@[i] == old(buf)@[i],
    {
        let _len = buf.len();
        put_u16_le(buf, off + 16, self.bg_used_dirs_count);
        put_u16_le(buf, off + 18, self.bg_pad);
    }

    /// Store the record at `off`; the bytes it spans are exactly its
    /// encoding and every other byte is kept.
    pub fn write_to(&self, buf: &mut Vec<u8>, off: usize)
        requires
            off + 20 <= old(buf)@.len(),
        ensures
            final(buf)@.len() == old(buf)@.len(),
            bgd_at(final(buf)@, off as int, *self),
            forall|i: int| 0 <= i < old(buf)@.len() && !(off <= i < off + 20) ==> #[trigger] final(buf)@[i] == old(buf)@[i],
    {
        let _len = buf.len();
        self.write_fields_0(buf, off);
        let ghost after_0 = buf@;
        self.write_fields_1(buf, off);
        let ghost after_1 = buf@;
        proof {
            lemma_le_frame(buf@, after_0, off + 0, 4);
            lemma_le_frame(buf@, after_0, off + 4, 4);
            lemma_le_frame(buf@, after_0, off + 8, 4);
            lemma_le_frame(buf@, after_0, off + 12, 2);
            lemma_le_frame(buf@, after_0, off + 14, 2);
            lemma_le_frame(buf@, after_1, off + 16, 2);
            lemma_le_frame(buf@, after_1, off + 18, 2);
        }
    }
}

/// An inode record (128 bytes on disk).
#[derive(Clone, Copy, Debug)]
pub struct Ext2Inode {
    pub i_mode: u16,
    pub i_uid: u16,
    pub i_size: u32,
    pub i_atime: u32,
    pub i_ctime: u32,
    pub i_mtime: u32,
    pub i_dtime: u32,
    pub i_gid: u16,
    pub i_links_count: u16,
    pub i_blocks: u32,
    pub i_flags: u32,
    pub i_osd1: u32,
    pub i_block: [u32; 15],
    pub i_generation: u32,
    pub i_file_acl: u32,
    pub i_dir_acl: u32,
    pub i_faddr: u32,
    pub i_osd2: [u8; 12],
}

pub open spec fn inode_at(s: Seq<u8>, off: int, x: Ext2Inode) -> bool {
    &&& le16(s, off + 0) == x.i_mode
    &&& le16(s, off + 2) == x.i_uid
    &&& le32(s, off + 4) == x.i_size
    &&& le32(s, off + 8) == x.i_atime
    &&& le32(s, off + 12) == x.i_ctime
    &&& le32(s, off + 16) == x.i_mtime
    &&& le32(s, off + 20) == x.i_dtime
    &&& le16(s, off + 24) == x.i_gid
    &&& le16(s, off + 26) == x.i_links_count
    &&& le32(s, off + 28) == x.i_blocks
    &&& le32(s, off + 32) == x.i_flags
    &&& le32(s, off + 36) == x.i_osd1
    &&& le32(s, off + 100) == x.i_generation
    &&& le32(s, off + 104) == x.i_file_acl
    &&& le32(s, off + 108) == x.i_dir_acl
    &&& le32(s, off + 112) == x.i_faddr
    &&& x.i_osd2@ == s.subrange(off + 116, off + 128)
    &&& forall|k: int| 0 <= k < 15 ==> le32(s, off + 40 + 4 * k) == #[trigger] x.i_block@[k]
}

impl Ext2Inode {
    /// Decode the record stored at `off`.
    pub fn read_from(buf: &[u8], off: usize) -> (r: Self)
        requires
            off + 128 <= buf@.len(),
        ensures
            inode_at(buf@, off as int, r),
    {
        let _len = buf.len();
        let mut i_osd2 = [0u8; 12];
        let mut k: usize = 0;
        while k < 12
            invariant
                _len == buf@.len(),
                off + 128 <= buf@.len(),
                0 <= k <= 12,
                forall|j: int| 0 <= j < k ==> i_osd2@[j] == buf@[off + 116 + j],
            decreases 12 - k,
        {
            i_osd2[k] = buf[off + 116 + k];
            k = k + 1;
        }
        assert(i_osd2@ =~= buf@.subrange(off + 116, off + 128));
        let mut i_block = [0u32; 15];
        let mut k: usize = 0;
        while k < 15
            invariant
                _len == buf@.len(),
                off + 128 <= buf@.len(),
                0 <= k <= 15,
                forall|j: int| 0 <= j < k ==> le32(buf@, off + 40 + 4 * j) == #[trigger] i_block@[j],
            decreases 15 - k,
        {
            i_block[k] = get_u32_le(buf, off + 40 + 4 * k);
            k = k + 1;
        }
        Ext2Inode {
            i_mode: get_u16_le(buf, off + 0),
            i_uid: get_u16_le(buf, off + 2),
            i_size: get_u32_le(buf, off + 4),
            i_atime: get_u32_le(buf, off + 8),
            i_ctime: get_u32_le(buf, off + 12),
            i_mtime: get_u32_le(buf, off + 16),
            i_dtime: get_u32_le(buf, off + 20),
            i_gid: get_u16_le(buf, off + 24),
            i_links_count: get_u16_le(buf, off + 26),
            i_blocks: get_u32_le(buf, off + 28),
            i_flags: get_u32_le(buf, off + 32),
            i_osd1: get_u32_le(buf, off + 36),
            i_generation: get_u32_le(buf, off + 100),
            i_file_acl: get_u32_le(buf, off + 104),
            i_dir_acl: get_u32_le(buf, off + 108),
            i_faddr: get_u32_le(buf, off + 112),
            i_osd2,
            i_block,
        }
    }

    fn write_fields_0(&self, buf: &mut Vec<u8>, off: usize)
        requires
            off + 128 <= old(buf)@.len(),
        ensures
            final(buf)@.len() == old(buf)@.len(),
            le16(final(buf)@, off + 0) == self.i_mode,
            le16(final(buf)@, off + 2) == self.i_uid,
            le32(final(buf)@, off + 4) == self.i_size,
            le32(final(buf)@, off + 8) == self.i_atime,
            le32(final(buf)@, off + 12) == self.i_ctime,
            forall|i: int| 0 <= i < old(buf)@.len() && !(off + 0 <= i < off + 16) ==> #[trigger] final(buf)@[i] == old(buf)@[i],
    {
        let _len = buf.len();
        put_u16_le(buf, off + 0, self.i_mode);
        put_u16_le(buf, off + 2, self.i_uid);
        put_u32_le(buf, off + 4, self.i_size);
        put_u32_le(buf, off + 8, self.i_atime);
        put_u32_le(buf, off + 12, self.i_ctime);
    }

    fn write_fields_1(&self, buf: &mut Vec<u8>, off: usize)
        requires
            off + 128 <= old(buf)@.len(),
        ensures
            final(buf)@.len() == old(buf)@.len(),
            le32(final(buf)@, off + 16) == self.i_mtime,
            le32(final(buf)@, off + 20) == self.i_dtime,
            le16(final(buf)@, off + 24) == self.i_gid,
            le16(final(buf)@, off + 26) == self.i_links_count,
            le32(final(buf)@, off + 28) == self.i_blocks,
            forall|i: int| 0 <= i < old(buf)@.len() && !(off + 16 <= i < off + 32) ==> #[trigger] final(buf)@[i] == old(buf)@[i],
    {
        let _len = buf.len();
        put_u32_le(buf, off + 16, self.i_mtime);
        put_u32_le(buf, off + 20, self.i_dtime);
        put_u16_le(buf, off + 24, self.i_gid);
        put_u16_le(buf, off + 26, self.i_links_count);
        put_u32_le(buf, off + 28, self.i_blocks);
    }

    fn write_fields_2(&self, buf: &mut Vec<u8>, off: usize)
        requires
            off + 128 <= old(buf)@.len(),
        ensures
            final(buf)@.len() == old(buf)@.len(),
            le32(final(buf)@, off + 32) == self.i_flags,
            le32(final(buf)@, off + 36) == self.i_osd1,
            le32(final(buf)@, off + 100) == self.i_generation,
            le32(final(buf)@, off + 104) == self.i_file_acl,
            le32(final(buf)@, off + 108) == self.i_dir_acl,
            forall|i: int| 0 <= i < old(buf)@.len() && !(off + 32 <= i < off + 112) ==> #[trigger] final(buf)@[i] == old(buf)@[i],
    {
        let _len = buf.len();
        put_u32_le(buf, off + 32, self.i_flags);
        put_u32_le(buf, off + 36, self.i_osd1);
        put_u32_le(buf, off + 100, self.i_generation);
        put_u32_le(buf, off + 104, self.i_file_acl);
        put_u32_le(buf, off + 108, self.i_dir_acl);
    }

    fn write_fields_3(&self, buf: &mut Vec<u8>, off: usize)
        requires
            off + 128 <= old(buf)@.len(),
        ensures
            final(buf)@.len() == old(buf)@.len(),
            le32(final(buf)@, off + 112) == self.i_faddr,
            forall|i: int| 0 <= i < old(buf)@.len() && !(off + 112 <= i < off + 116) ==> #[trigger] final(buf)@[i] == old(buf)@[i],
    {
        let _len = buf.len();
        put_u32_le(buf, off + 112, self.i_faddr);
    }

    /// Store the record at `off`; the bytes it spans are exactly its
    /// encoding and every other byte is kept.
    pub fn write_to(&self, buf: &mut Vec<u8>, off: usize)
        requires
            off + 128 <= old(buf)@.len(),
        ensures
            final(buf)@.len() == old(buf)@.len(),
            inode_at(final(buf)@, off as int, *self),
            forall|i: int| 0 <= i < old(buf)@.len() && !(off <= i < off + 128) ==> #[trigger] final(buf)@[i] == old(buf)@[i],
    {
        let _len = buf.len();
        self.write_fields_0(buf, off);
        let ghost after_0 = buf@;
        self.write_fields_1(buf, off);
        let ghost after_1 = buf@;
        self.write_fields_2(buf, off);
        let ghost after_2 = buf@;
        self.write_fields_3(buf, off);
        let ghost after_3 = buf@;
        copy_into(buf, off + 116, &self.i_osd2, 12);
        assert(buf@.subrange(off + 116, off + 128) =~= self.i_osd2@);
        let ghost arr_0 = buf@;
        proof {
            lemma_le_frame(buf@, after_0, off + 0, 2);
            lemma_le_frame(buf@, after_0, off + 2, 2);
            lemma_le_frame(buf@, after_0, off + 4, 4);
            lemma_le_frame(buf@, after_0, off + 8, 4);
            lemma_le_frame(buf@, after_0, off + 12, 4);
            lemma_le_frame(buf@, after_1, off + 16, 4);
            lemma_le_frame(buf@, after_1, off + 20, 4);
            lemma_le_frame(buf@, after_1, off + 24, 2);
            lemma_le_frame(buf@, after_1, off + 26, 2);
            lemma_le_frame(buf@, after_1, off + 28, 4);
            lemma_le_frame(buf@, after_2, off + 32, 4);
            lemma_le_frame(buf@, after_2, off + 36, 4);
            lemma_le_frame(buf@, after_2, off + 100, 4);
            lemma_le_frame(buf@, after_2, off + 104, 4);
            lemma_le_frame(buf@, after_2, off + 108, 4);
            lemma_le_frame(buf@, after_3, off + 112, 4);
            assert(buf@.subrange(off + 116, off + 128) =~= arr_0.subrange(off + 116, off + 128));
        }
        let ghost before_blocks = buf@;
        let mut k: usize = 0;
        while k < 15
            invariant
                _len == buf@.len(),
                off + 128 <= buf@.len(),
                0 <= k <= 15,
                forall|j: int| 0 <= j < k ==> le32(buf@, off + 40 + 4 * j) == #[trigger] self.i_block@[j],
                forall|i: int| 0 <= i < buf@.len() && !(off + 40 <= i < off + 40 + 4 * k) ==> #[trigger] buf@[i] == before_blocks[i],
            decreases 15 - k,
        {
            let ghost prev = buf@;
            put_u32_le(buf, off + 40 + 4 * k, self.i_block[k]);
            proof {
                assert forall|j: int| 0 <= j < k implies le32(buf@, off + 40 + 4 * j) == #[trigger] self.i_block@[j] by {
                    lemma_le_frame(buf@, prev, off + 40 + 4 * j, 4);
                }
            }
            k = k + 1;
        }
        proof {
            lemma_le_frame(buf@, before_blocks, off + 0, 2);
            lemma_le_frame(buf@, before_blocks, off + 2, 2);
            lemma_le_frame(buf@, before_blocks, off + 4, 4);
            lemma_le_frame(buf@, before_blocks, off + 8, 4);
            lemma_le_frame(buf@, before_blocks, off + 12, 4);
            lemma_le_frame(buf@, before_blocks, off + 16, 4);
            lemma_le_frame(buf@, before_blocks, off + 20, 4);
            lemma_le_frame(buf@, before_blocks, off + 24, 2);
            lemma_le_frame(buf@, before_blocks, off + 26, 2);
            lemma_le_frame(buf@, before_blocks, off + 28, 4);
            lemma_le_frame(buf@, before_blocks, off + 32, 4);
            lemma_le_frame(buf@, before_blocks, off + 36, 4);
            lemma_le_frame(buf@, before_blocks, off + 100, 4);
            lemma_le_frame(buf@, before_blocks, off + 104, 4);
            lemma_le_frame(buf@, before_blocks, off + 108, 4);
            lemma_le_frame(buf@, before_blocks, off + 112, 4);
            assert(buf@.subrange(off + 116, off + 128) =~= before_blocks.subrange(off + 116, off + 128));
        }
    }
}

// ---------------------------------------------------------------------
// Directory entries
// ---------------------------------------------------------------------

/// Header of a directory entry; the name follows it.
#[derive(Clone, Copy, Debug, PartialEq, Eq, Structural)]
pub struct Ext2DirEntry {
    pub inode: u32,
    pub rec_len: u16,
    pub name_len: u8,
    pub file_type: u8,
}

/// The entry header stored at `off`.
pub open spec fn dir_entry_at(s: Seq<u8>, off: int) -> Ext2DirEntry {
    Ext2DirEntry {
        inode: le32(s, off) as u32,
        rec_len: le16(s, off + 4) as u16,
        name_len: s[off + 6],
        file_type: s[off + 7],
    }
}

/// `s` with the header `e` stored at `off`.
pub open spec fn with_dir_entry(s: Seq<u8>, off: int, e: Ext2DirEntry) -> Seq<u8> {
    s.update(off, (e.inode % 256) as u8).update(off + 1, ((e.inode / 256) % 256) as u8).update(
        off + 2,
        ((e.inode / 65536) % 256) as u8,
    ).update(off + 3, (e.inode / 16777216) as u8).update(off + 4, (e.rec_len % 256) as u8).update(
        off + 5,
        (e.rec_len / 256) as u8,
    ).update(off + 6, e.name_len).update(off + 7, e.file_type)
}

impl Ext2DirEntry {
    pub fn read_from(buf: &[u8], off: usize) -> (r: Self)
        requires
            off + DIR_HEADER <= buf@.len(),
        ensures
            r == dir_entry_at(buf@, off as int),
    {
        let _len = buf.len();
        Ext2DirEntry {
            inode: get_u32_le(buf, off),
            rec_len: get_u16_le(buf, off + 4),
            name_len: buf[off + 6],
            file_type: buf[off + 7],
        }
    }

    pub fn write_to(&self, buf: &mut Vec<u8>, off: usize)
        requires
            off + DIR_HEADER <= old(buf)@.len(),
        ensures
            final(buf)@ == with_dir_entry(old(buf)@, off as int, *self),
            dir_entry_at(final(buf)@, off as int) == *self,
    {
        let _len = buf.len();
        put_u32_le(buf, off, self.inode);
        put_u16_le(buf, off + 4, self.rec_len);
        buf.set(off + 6, self.name_len);
        buf.set(off + 7, self.file_type);
        proof {
            lemma_le32_bytes(self.inode);
        }
    }
}

/// Record length an entry with a name of `name_len` bytes needs: the header
/// and the name, rounded up to four bytes.
pub open spec fn min_rec_len(name_len: int) -> int {
    (DIR_HEADER + name_len + 3) / 4 * 4
}

pub fn rec_len_for(name_len: u8) -> (r: u16)
    ensures
        r == min_rec_len(name_len as int),
{
    ((DIR_HEADER as u16 + name_len as u16 + 3) / 4) * 4
}

// ---------------------------------------------------------------------
// Logical block -> disk block
// ---------------------------------------------------------------------

/// Where logical block `lb` of a file lives, for blocks holding `n`
/// pointers each: one of the twelve direct pointers, or a path through the
/// single, double or triple indirect block.
#[derive(Clone, Copy, Debug, PartialEq, Eq, Structural)]
pub enum BlockPath {
    Direct(usize),
    Single(usize),
    Double(usize, usize),
    Triple(usize, usize, usize),
    Beyond,
}

pub open spec fn spec_block_path(n: int, lb: int) -> BlockPath {
    if lb < 12 {
        BlockPath::Direct(lb as usize)
    } else if lb - 12 < n {
        BlockPath::Single((lb - 12) as usize)
    } else if lb - 12 - n < n * n {
        let o = lb - 12 - n;
        BlockPath::Double((o / n) as usize, (o % n) as usize)
    } else if lb - 12 - n - n * n < n * n * n {
        let o = lb - 12 - n - n * n;
        BlockPath::Triple((o / (n * n)) as usize, ((o / n) % n) as usize, (o % n) as usize)
    } else {
        BlockPath::Beyond
    }
}

/// The path to logical block `logical` for a volume of `block_size`-byte
/// blocks.
pub fn block_path(block_size: u32, logical: usize) -> (r: BlockPath)
    requires
        (block_size / 4) as int * (block_size / 4) as int * (block_size / 4) as int <= usize::MAX,
    ensures
        r == spec_block_path((block_size / 4) as int, logical as int),
{
    let n = (block_size / 4) as usize;
    if logical < 12 {
        return BlockPath::Direct(logical);
    }
    let offset = logical - 12;
    if offset < n {
        return BlockPath::Single(offset);
    }
    let offset = offset - n;
    proof {
        assert(n as int * n as int <= usize::MAX) by (nonlinear_arith)
            requires
                n as int * n as int * n as int <= usize::MAX,
                n >= 0,
        ;
    }
    let nn = n * n;
    proof {
        if n == 0 {
            assert(nn == 0) by (nonlinear_arith)
                requires
                    n == 0,
                    nn == n * n,
            ;
        }
    }
    if offset < nn {
        return BlockPath::Double(offset / n, offset % n);
    }
    let offset = offset - nn;
    let nnn = nn * n;
    proof {
        assert(nn == 0 || n == 0 ==> nnn == 0) by (nonlinear_arith)
            requires
                nnn == nn * n,
        ;
    }
    if offset < nnn {
        return BlockPath::Triple(offset / nn, (offset / n) % n, offset % n);
    }
    BlockPath::Beyond
}

/// The `i_block` slot a path starts from, and the pointer indices read from
/// the indirect blocks after it, in order.
pub open spec fn path_slots(p: BlockPath) -> (int, Seq<usize>) {
    match p {
        BlockPath::Direct(i) => (i as int, Seq::empty()),
        BlockPath::Single(a) => (12, seq![a]),
        BlockPath::Double(a, b) => (13, seq![a, b]),
        BlockPath::Triple(a, b, c) => (14, seq![a, b, c]),
        BlockPath::Beyond => (-1, Seq::empty()),
    }
}

/// One indirect-block read a lookup asks for: the 32-bit pointer at
/// `index` in disk block `block`.
#[derive(Clone, Copy, Debug, PartialEq, Eq, Structural)]
pub struct PointerRead {
    pub block: u32,
    pub index: usize,
}

/// The next move of a block lookup: finished (the disk block, or `None`
/// for a hole or a block past the triple-indirect range), or a pointer to
/// read next.
#[derive(Clone, Copy, Debug, PartialEq, Eq, Structural)]
pub enum LookupStep {
    Done(Option<u32>),
    Read(PointerRead),
}

/// A lookup in progress: the indices still to follow.
pub struct BlockLookup {
    pub indices: Vec<usize>,
    pub level: usize,
}

/// The step after pointer `ptr` has been reached with `rest` indices still
/// to follow.
pub open spec fn step_from(ptr: u32, rest: Seq<usize>) -> LookupStep {
    if ptr == 0 {
        LookupStep::Done(None)
    } else if rest.len() == 0 {
        LookupStep::Done(Some(ptr))
    } else {
        LookupStep::Read(PointerRead { block: ptr, index: rest[0] })
    }
}

/// Byte offset of pointer `index` inside an indirect block.
pub open spec fn pointer_offset(index: usize) -> int {
    index as int * 4
}

impl BlockLookup {
    /// Begin looking up logical block `logical` of a file whose block
    /// pointers are `i_block`.
    pub fn start(i_block: &[u32; 15], block_size: u32, logical: usize) -> (r: (BlockLookup, LookupStep))
        requires
            (block_size / 4) as int * (block_size / 4) as int * (block_size / 4) as int <= usize::MAX,
        ensures
            ({
                let p = spec_block_path((block_size / 4) as int, logical as int);
                let (slot, idx) = path_slots(p);
                &&& r.0.indices@ == idx
                &&& r.0.level == 0
                &&& p is Beyond ==> r.1 == LookupStep::Done(None)
                &&& !(p is Beyond) ==> r.1 == step_from(i_block@[slot], idx)
            }),
    {
        let p = block_path(block_size, logical);
        let (slot, indices): (usize, Vec<usize>) = match p {
            BlockPath::Direct(i) => (i, Vec::new()),
            BlockPath::Single(a) => (12, vec![a]),
            BlockPath::Double(a, b) => (13, vec![a, b]),
            BlockPath::Triple(a, b, c) => (14, vec![a, b, c]),
            BlockPath::Beyond => {
                return (BlockLookup { indices: Vec::new(), level: 0 }, LookupStep::Done(None));
            },
        };
        let ptr = i_block[slot];
        let step = if ptr == 0 {
            LookupStep::Done(None)
        } else if indices.len() == 0 {
            LookupStep::Done(Some(ptr))
        } else {
            LookupStep::Read(PointerRead { block: ptr, index: indices[0] })
        };
        assert(indices@ == path_slots(p).1);
        (BlockLookup { indices, level: 0 }, step)
    }

    /// Continue after the pointer asked for was read as `ptr`.
    pub fn next(&mut self, ptr: u32) -> (r: LookupStep)
        requires
            old(self).level < old(self).indices@.len(),
        ensures
            final(self).indices@ == old(self).indices@,
            final(self).level == old(self).level + 1,
            r == step_from(ptr, old(self).indices@.subrange(old(self).level + 1, old(self).indices@.len() as int)),
    {
        let _len = self.indices.len();
        self.level = self.level + 1;
        if ptr == 0 {
            LookupStep::Done(None)
        } else if self.level >= self.indices.len() {
            LookupStep::Done(Some(ptr))
        } else {
            LookupStep::Read(PointerRead { block: ptr, index: self.indices[self.level] })
        }
    }
}

/// The block reached from pointer `ptr` by following the indices `rest`
/// through indirect blocks, `read(b, i)` being pointer `i` of block `b`;
/// `None` at a zero pointer.
pub open spec fn walk_pointers(ptr: u32, rest: Seq<usize>, read: spec_fn(u32, usize) -> u32) -> Option<u32>
    decreases rest.len(),
{
    if ptr == 0 {
        None
    } else if rest.len() == 0 {
        Some(ptr)
    } else {
        walk_pointers(read(ptr, rest[0]), rest.drop_first(), read)
    }
}

/// The disk block of logical block `lb` of an inode with pointers
/// `i_block` on a volume of `bs`-byte blocks whose indirect blocks read as
/// `read`; `None` for a hole or a block past the triple-indirect range.
pub open spec fn spec_lookup(i_block: Seq<u32>, bs: u32, lb: int, read: spec_fn(u32, usize) -> u32) -> Option<u32> {
    let p = spec_block_path((bs / 4) as int, lb);
    if p is Beyond {
        None
    } else {
        walk_pointers(i_block[path_slots(p).0], path_slots(p).1, read)
    }
}

/// A lookup driven to its end gives the block [`spec_lookup`] names: each
/// step either is the answer or asks for the pointer whose walk has the
/// same answer, and [`BlockLookup::next`] continues from that pointer with
/// the remaining indices.
pub proof fn law_lookup_follows_walk(ptr: u32, rest: Seq<usize>, read: spec_fn(u32, usize) -> u32)
    ensures
        step_from(ptr, rest) matches LookupStep::Done(x) ==> x == walk_pointers(ptr, rest, read),
        step_from(ptr, rest) matches LookupStep::Read(pr) ==> rest.len() > 0 && pr.index == rest[0]
            && walk_pointers(ptr, rest, read) == walk_pointers(read(pr.block, pr.index), rest.drop_first(), read),
{
}

/// The pointer `index` of an indirect block's bytes.
pub fn pointer_in_block(buf: &[u8], index: usize) -> (r: u32)
    requires
        index * 4 + 4 <= buf@.len(),
    ensures
        r == le32(buf@, pointer_offset(index)),
{
    let _len = buf.len();
    get_u32_le(buf, index * 4)
}

// ---------------------------------------------------------------------
// Directory blocks
// ---------------------------------------------------------------------

/// Bytes past the end of a block that an entry header can make a name
/// reach into: the header and the longest name.
pub const NAME_SLACK: usize = 263;

/// The name stored in a directory entry matches `name` as the driver
/// compares it: the name bytes decoded as UTF-8 (an undecodable name reads
/// as the empty string) equal `name`.
pub open spec fn name_matches(stored: Seq<u8>, name: Seq<u8>) -> bool {
    if vstd::utf8::valid_utf8(stored) {
        stored == name
    } else {
        name.len() == 0
    }
}

/// The stored name of the entry at `off`.
pub open spec fn entry_name(s: Seq<u8>, off: int) -> Seq<u8> {
    s.subrange(off + 8, off + 8 + dir_entry_at(s, off).name_len)
}

/// Lookup of `name` among the entries of one directory block, starting at
/// `off`: entries are chained by their record lengths; a zero record length
/// or one that runs past the block ends the chain.
pub open spec fn find_from(s: Seq<u8>, bs: int, name: Seq<u8>, off: int) -> Option<u32>
    decreases bs - off,
{
    if off < 0 || off + 8 > bs {
        None
    } else {
        let e = dir_entry_at(s, off);
        if e.rec_len == 0 || e.rec_len > bs - off {
            None
        } else if name_matches(entry_name(s, off), name) {
            Some(e.inode)
        } else {
            find_from(s, bs, name, off + e.rec_len)
        }
    }
}

/// Does the stored name at `off` match `name`?
fn entry_name_matches(buf: &[u8], off: usize, name_len: u8, name: &str) -> (r: bool)
    requires
        off + 8 + name_len <= buf@.len(),
    ensures
        r == name_matches(buf@.subrange(off + 8, off + 8 + name_len), name.spec_bytes()),
{
    let _len = buf.len();
    let stored = crate::bytes::slice_to_vec(buf, off + 8, off + 8 + name_len as usize);
    if crate::procfs::is_valid_utf8(stored.as_slice()) {
        crate::util::bytes_eq(stored.as_slice(), name.as_bytes())
    } else {
        name.as_bytes().len() == 0
    }
}

/// Look `name` up in one directory block. `buf` holds the block's
/// `block_size` bytes followed by at least [`NAME_SLACK`] zero bytes.
pub fn find_in_dir_block(buf: &[u8], block_size: usize, name: &str) -> (r: Option<u32>)
    requires
        block_size + NAME_SLACK <= buf@.len(),
    ensures
        r == find_from(buf@, block_size as int, name.spec_bytes(), 0),
{
    let len = buf.len();
    let mut offset: usize = 0;
    while offset + 8 <= block_size
        invariant
            len == buf@.len(),
            block_size + NAME_SLACK <= buf@.len(),
            offset <= block_size,
            find_from(buf@, block_size as int, name.spec_bytes(), offset as int) == find_from(
                buf@,
                block_size as int,
                name.spec_bytes(),
                0,
            ),
        decreases block_size - offset,
    {
        let e = Ext2DirEntry::read_from(buf, offset);
        if e.rec_len == 0 || (e.rec_len as usize) > block_size - offset {
            return None;
        }
        if entry_name_matches(buf, offset, e.name_len, name) {
            return Some(e.inode);
        }
        offset = offset + e.rec_len as usize;
    }
    None
}

/// Walk the entry chain from `off`, remembering the offset of the last
/// well-formed entry; the result is that offset and where the chain ends.
pub open spec fn scan_end(s: Seq<u8>, bs: int, off: int, last: int) -> (int, int)
    decreases bs - off,
{
    if off < 0 || off + 8 > bs {
        (last, off)
    } else {
        let e = dir_entry_at(s, off);
        if e.rec_len == 0 || e.rec_len > bs - off {
            (last, off)
        } else {
            scan_end(s, bs, off + e.rec_len, off)
        }
    }
}

/// `s` with `bytes` stored from `at` on.
pub open spec fn with_bytes(s: Seq<u8>, at: int, bytes: Seq<u8>) -> Seq<u8> {
    Seq::new(s.len(), |i: int| if at <= i < at + bytes.len() { bytes[i - at] } else { s[i] })
}

/// The block after inserting an entry for `name` (its first `name_len`
/// bytes) pointing at `inode`: the last entry of the chain gives up its
/// slack when it has any, and the new entry takes the rest of the block.
/// `None` when the new record does not fit after the chain.
pub open spec fn spec_add_entry(
    s: Seq<u8>,
    bs: int,
    name: Seq<u8>,
    name_len: u8,
    inode: u32,
    file_type: u8,
) -> Option<Seq<u8>> {
    let (last, end) = scan_end(s, bs, 0, 0);
    let rl = min_rec_len(name_len as int);
    if end + rl > bs {
        None
    } else {
        let prev = dir_entry_at(s, last);
        let prev_min = min_rec_len(prev.name_len as int);
        let split = last != end && prev.rec_len > prev_min;
        let at = if split { last + prev_min } else { end };
        let s1 = if split { with_dir_entry(s, last, Ext2DirEntry { rec_len: prev_min as u16, ..prev }) } else { s };
        let e = Ext2DirEntry { inode, rec_len: (bs - at) as u16, name_len, file_type };
        Some(with_bytes(with_dir_entry(s1, at, e), at + 8, name.subrange(0, name_len as int)))
    }
}

/// Copy `bytes` into `buf` from `at` on.
fn copy_into(buf: &mut Vec<u8>, at: usize, bytes: &[u8], count: usize)
    requires
        count <= bytes@.len(),
        at + count <= old(buf)@.len(),
    ensures
        final(buf)@ == with_bytes(old(buf)@, at as int, bytes@.subrange(0, count as int)),
{
    let _len = buf.len();
    let mut k: usize = 0;
    while k < count
        invariant
            count <= bytes@.len(),
            _len == buf@.len(),
            at + count <= buf@.len(),
            buf@.len() == old(buf)@.len(),
            0 <= k <= count,
            buf@ == with_bytes(old(buf)@, at as int, bytes@.subrange(0, k as int)),
        decreases count - k,
    {
        buf.set(at + k, bytes[k]);
        k = k + 1;
        assert(buf@ =~= with_bytes(old(buf)@, at as int, bytes@.subrange(0, k as int)));
    }
}

/// Insert an entry for `name` into one directory block (see
/// [`spec_add_entry`]). Returns whether it went in; the caller writes the
/// block back only then. Names longer than 255 bytes keep their length
/// modulo 256, as the one-byte length field does.
#[verifier::spinoff_prover]
#[verifier::rlimit(60)]
pub fn add_entry_in_dir_block(
    buf: &mut Vec<u8>,
    block_size: usize,
    name: &[u8],
    inode: u32,
    file_type: u8,
) -> (r: bool)
    requires
        block_size + NAME_SLACK <= old(buf)@.len(),
        block_size <= 0xFFFF,
    ensures
        ({
            let nl = (name@.len() % 256) as u8;
            match spec_add_entry(old(buf)@, block_size as int, name@, nl, inode, file_type) {
                Some(s) => r && final(buf)@ == s,
                None => !r && final(buf)@ == old(buf)@,
            }
        }),
{
    let name_len = (name.len() % 256) as u8;
    let rec_len = rec_len_for(name_len) as usize;
    let mut offset: usize = 0;
    let mut last: usize = 0;
    let ghost s = buf@;
    let len = buf.len();
    while offset + 8 <= block_size
        invariant
            buf@ == s,
            len == s.len(),
            block_size + NAME_SLACK <= s.len(),
            offset <= block_size,
            (offset == 0 && last == 0) || (last < offset && dir_entry_at(s, last as int).rec_len == offset - last
                && last + 8 <= block_size),
            scan_end(s, block_size as int, offset as int, last as int) == scan_end(s, block_size as int, 0, 0),
        ensures
            buf@ == s,
            offset <= block_size,
            (offset == 0 && last == 0) || (last < offset && dir_entry_at(s, last as int).rec_len == offset - last
                && last + 8 <= block_size),
            scan_end(s, block_size as int, 0, 0) == (last as int, offset as int),
        decreases block_size - offset,
    {
        let e = Ext2DirEntry::read_from(buf, offset);
        if e.rec_len == 0 || (e.rec_len as usize) > block_size - offset {
            break;
        }
        last = offset;
        offset = offset + e.rec_len as usize;
    }
    assert(scan_end(s, block_size as int, 0, 0) == (last as int, offset as int));
    if offset + rec_len > block_size {
        return false;
    }
    let mut at = offset;
    if last != offset {
        let prev = Ext2DirEntry::read_from(buf, last);
        let prev_min = rec_len_for(prev.name_len);
        if prev.rec_len > prev_min {
            let shrunk = Ext2DirEntry { rec_len: prev_min, ..prev };
            shrunk.write_to(buf, last);
            at = last + prev_min as usize;
        }
    }
    let entry = Ext2DirEntry { inode, rec_len: (block_size as u16) - (at as u16), name_len, file_type };
    entry.write_to(buf, at);
    copy_into(buf, at + 8, name, name_len as usize);
    true
}

/// Removal of `name` from one directory block, from `off` on: the first
/// entry whose name matches gets inode 0. Only a zero record length ends
/// the chain early.
pub open spec fn remove_from(s: Seq<u8>, bs: int, name: Seq<u8>, off: int) -> Option<int>
    decreases if off < bs { bs - off } else { 0 },
{
    if off < 0 || off + 8 > bs {
        None
    } else {
        let e = dir_entry_at(s, off);
        if e.rec_len == 0 {
            None
        } else if name_matches(entry_name(s, off), name) {
            Some(off)
        } else {
            remove_from(s, bs, name, off + e.rec_len)
        }
    }
}

/// Mark the entry for `name` in one directory block as unused (inode 0).
/// Returns whether one was found; the caller writes the block back only
/// then.
pub fn remove_in_dir_block(buf: &mut Vec<u8>, block_size: usize, name: &str) -> (r: bool)
    requires
        block_size + NAME_SLACK <= old(buf)@.len(),
        block_size + 0x1_0008 <= usize::MAX,
    ensures
        match remove_from(old(buf)@, block_size as int, name.spec_bytes(), 0) {
            Some(off) => r && final(buf)@ == with_dir_entry(
                old(buf)@,
                off,
                Ext2DirEntry { inode: 0, ..dir_entry_at(old(buf)@, off) },
            ),
            None => !r && final(buf)@ == old(buf)@,
        },
{
    let mut offset: usize = 0;
    let ghost s = buf@;
    let len = buf.len();
    while offset + 8 <= block_size
        invariant
            buf@ == s,
            s == old(buf)@,
            len == s.len(),
            offset <= block_size + 0xFFFF,
            block_size + NAME_SLACK <= s.len(),
            block_size + 0x1_0008 <= usize::MAX,
            remove_from(s, block_size as int, name.spec_bytes(), offset as int) == remove_from(
                s,
                block_size as int,
                name.spec_bytes(),
                0,
            ),
        decreases block_size + 0xFFFF - offset,
    {
        let e = Ext2DirEntry::read_from(buf, offset);
        if e.rec_len == 0 {
            return false;
        }
        if entry_name_matches(buf.as_slice(), offset, e.name_len, name) {
            let cleared = Ext2DirEntry { inode: 0, ..e };
            cleared.write_to(buf, offset);
            return true;
        }
        offset = offset + e.rec_len as usize;
    }
    false
}

/// A fresh directory block: "." for `self_inode` (12 bytes) and ".." for
/// `parent_inode` spanning the rest of the block.
pub open spec fn spec_directory_block(bs: int, self_inode: u32, parent_inode: u32) -> Seq<u8> {
    let z = Seq::new(4096, |i: int| 0u8);
    let a = with_dir_entry(z, 0, Ext2DirEntry { inode: self_inode, rec_len: 12, name_len: 1, file_type: 2 }).update(8, 0x2E);
    with_dir_entry(a, 12, Ext2DirEntry { inode: parent_inode, rec_len: (bs - 12) as u16, name_len: 2, file_type: 2 }).update(
        20,
        0x2E,
    ).update(21, 0x2E)
}

/// The 4096-byte buffer that initialises a new directory's first block.
pub fn init_directory_block(block_size: u32, self_inode: u32, parent_inode: u32) -> (r: Vec<u8>)
    requires
        12 <= block_size,
    ensures
        r@ == spec_directory_block(block_size as int, self_inode, parent_inode),
{
    let mut buf: Vec<u8> = vec![0u8; 4096];
    assert(buf@ =~= Seq::new(4096, |i: int| 0u8));
    let dot = Ext2DirEntry { inode: self_inode, rec_len: 12, name_len: 1, file_type: 2 };
    dot.write_to(&mut buf, 0);
    buf.set(8, 0x2E);
    let dotdot = Ext2DirEntry { inode: parent_inode, rec_len: (block_size - 12) as u16, name_len: 2, file_type: 2 };
    dotdot.write_to(&mut buf, 12);
    buf.set(20, 0x2E);
    buf.set(21, 0x2E);
    buf
}

// ---------------------------------------------------------------------
// Allocation bitmaps
// ---------------------------------------------------------------------

/// `2^k` for a bit position inside a byte.
pub open spec fn bit_weight(k: int) -> int {
    if k == 0 { 1 } else if k == 1 { 2 } else if k == 2 { 4 } else if k == 3 { 8 } else if k == 4 { 16 }
    else if k == 5 { 32 } else if k == 6 { 64 } else { 128 }
}

fn bit_weight_exec(k: usize) -> (r: u8)
    requires
        k < 8,
    ensures
        r == bit_weight(k as int),
{
    if k == 0 { 1 } else if k == 1 { 2 } else if k == 2 { 4 } else if k == 3 { 8 } else if k == 4 { 16 }
    else if k == 5 { 32 } else if k == 6 { 64 } else { 128 }
}

/// Bit `i` of a bitmap (bit `i % 8` of byte `i / 8`, least significant
/// first) is set.
pub open spec fn bit_is_set(s: Seq<u8>, i: int) -> bool {
    (s[i / 8] as int / bit_weight(i % 8)) % 2 == 1
}

/// A byte with bit `k` set, from one where it was clear.
proof fn lemma_set_clear_bit(b: u8, k: int)
    requires
        0 <= k < 8,
        (b as int / bit_weight(k)) % 2 == 0,
    ensures
        b + bit_weight(k) <= 255,
        ((b + bit_weight(k)) / bit_weight(k)) % 2 == 1,
{
    let w = bit_weight(k);
    let x = b as int;
    assert(w == 1 || w == 2 || w == 4 || w == 8 || w == 16 || w == 32 || w == 64 || w == 128);
    assert(x + w <= 255 && ((x + w) / w) % 2 == 1) by (nonlinear_arith)
        requires
            w == 1 || w == 2 || w == 4 || w == 8 || w == 16 || w == 32 || w == 64 || w == 128,
            0 <= x < 256,
            (x / w) % 2 == 0,
    {
        vstd::arithmetic::div_mod::lemma_fundamental_div_mod(x, w);
        vstd::arithmetic::div_mod::lemma_div_plus_one(x, w);
    }
}

/// The first clear bit in `[from, to)` whose byte lies inside the bitmap;
/// the search stops at the first position past the bitmap's end.
pub open spec fn first_clear(s: Seq<u8>, from: int, to: int) -> Option<int>
    decreases to - from,
{
    if from >= to || from < 0 || from / 8 >= s.len() {
        None
    } else if !bit_is_set(s, from) {
        Some(from)
    } else {
        first_clear(s, from + 1, to)
    }
}

/// Where the first clear bit can be.
pub proof fn lemma_first_clear_range(s: Seq<u8>, from: int, to: int)
    ensures
        first_clear(s, from, to) matches Some(i) ==> from <= i < to && 0 <= i && i / 8 < s.len()
            && !bit_is_set(s, i),
    decreases to - from,
{
    if !(from >= to || from < 0 || from / 8 >= s.len()) && bit_is_set(s, from) {
        lemma_first_clear_range(s, from + 1, to);
    }
}

/// Take the first clear bit of `[from, to)` (see [`first_clear`]): set it
/// and return its position.
pub fn bitmap_take_first_clear(bitmap: &mut Vec<u8>, from: usize, to: usize) -> (r: Option<usize>)
    ensures
        r == (match first_clear(old(bitmap)@, from as int, to as int) { Some(i) => Some(i as usize), None => None::<usize> }),
        match first_clear(old(bitmap)@, from as int, to as int) {
            Some(i) => final(bitmap)@ == old(bitmap)@.update(i / 8, (old(bitmap)@[i / 8] + bit_weight(i % 8)) as u8),
            None => final(bitmap)@ == old(bitmap)@,
        },
{
    let mut i = from;
    while i < to
        invariant
            bitmap@ == old(bitmap)@,
            from <= i,
            first_clear(bitmap@, i as int, to as int) == first_clear(bitmap@, from as int, to as int),
        decreases to - i,
    {
        let byte = i / 8;
        let bit = i % 8;
        if byte >= bitmap.len() {
            return None;
        }
        let w = bit_weight_exec(bit);
        if (bitmap[byte] / w) % 2 == 0 {
            proof {
                lemma_set_clear_bit(bitmap@[byte as int], bit as int);
            }
            let v = bitmap[byte] + w;
            bitmap.set(byte, v);
            return Some(i);
        }
        i = i + 1;
    }
    None
}

/// Clear bit `i` of the bitmap when its byte lies inside it; the result
/// says whether it did.
pub fn bitmap_clear(bitmap: &mut Vec<u8>, i: usize) -> (r: bool)
    ensures
        r == (i / 8 < old(bitmap)@.len()),
        r && bit_is_set(old(bitmap)@, i as int) ==> final(bitmap)@ == old(bitmap)@.update(
            i as int / 8,
            (old(bitmap)@[i as int / 8] - bit_weight(i as int % 8)) as u8,
        ),
        !(r && bit_is_set(old(bitmap)@, i as int)) ==> final(bitmap)@ == old(bitmap)@,
{
    let byte = i / 8;
    if byte >= bitmap.len() {
        return false;
    }
    let w = bit_weight_exec(i % 8);
    if (bitmap[byte] / w) % 2 == 1 {
        proof {
            assert(bitmap@[byte as int] >= w) by (nonlinear_arith)
                requires
                    (bitmap@[byte as int] / w) % 2 == 1,
                    w > 0,
            ;
        }
        let v = bitmap[byte] - w;
        bitmap.set(byte, v);
    }
    true
}

// ---------------------------------------------------------------------
// Paths
// ---------------------------------------------------------------------

/// `s` without its trailing slashes.
pub open spec fn trim_end_slashes(s: Seq<u8>) -> Seq<u8>
    decreases s.len(),
{
    if s.len() > 0 && s.last() == 0x2F {
        trim_end_slashes(s.drop_last())
    } else {
        s
    }
}

/// Position of the last slash in `s`.
pub open spec fn last_slash(s: Seq<u8>) -> Option<int>
    decreases s.len(),
{
    if s.len() == 0 {
        None
    } else if s.last() == 0x2F {
        Some(s.len() - 1)
    } else {
        last_slash(s.drop_last())
    }
}

/// Parent directory and final name of a path: `None` for "/" and "", and
/// for a path whose last component is empty; a name with no slash lives in
/// "/".
pub open spec fn spec_split_path(path: Seq<u8>) -> Option<(Seq<u8>, Seq<u8>)> {
    if path == seq![0x2Fu8] || path.len() == 0 {
        None
    } else {
        let t = trim_end_slashes(path);
        match last_slash(t) {
            Some(pos) => {
                let parent = if pos == 0 { seq![0x2Fu8] } else { t.subrange(0, pos) };
                let name = t.subrange(pos + 1, t.len() as int);
                if name.len() == 0 { None } else { Some((parent, name)) }
            },
            None => Some((seq![0x2Fu8], t)),
        }
    }
}

pub fn split_path(path: &[u8]) -> (r: Option<(Vec<u8>, Vec<u8>)>)
    ensures
        match spec_split_path(path@) {
            Some((p, n)) => r matches Some((rp, rn)) && rp@ == p && rn@ == n,
            None => r is None,
        },
{
    if path.len() == 0 || (path.len() == 1 && path[0] == 0x2F) {
        proof {
            if path@.len() == 1 {
                assert(path@ =~= seq![0x2Fu8]);
            }
        }
        return None;
    }
    assert(path@ != seq![0x2Fu8]) by {
        if path@.len() == 1 {
            assert(path@[0] != seq![0x2Fu8][0]);
        }
    }
    let mut end = path.len();
    assert(path@.subrange(0, end as int) =~= path@);
    while end > 0 && path[end - 1] == 0x2F
        invariant
            end <= path@.len(),
            trim_end_slashes(path@.subrange(0, end as int)) == trim_end_slashes(path@),
        decreases end,
    {
        assert(path@.subrange(0, end as int).drop_last() =~= path@.subrange(0, end - 1));
        end = end - 1;
    }
    let ghost t = path@.subrange(0, end as int);
    assert(trim_end_slashes(t) == t);
    let mut pos = end;
    while pos > 0 && path[pos - 1] != 0x2F
        invariant
            pos <= end <= path@.len(),
            t == path@.subrange(0, end as int),
            last_slash(path@.subrange(0, pos as int)) == last_slash(t),
        decreases pos,
    {
        assert(path@.subrange(0, pos as int).drop_last() =~= path@.subrange(0, pos - 1));
        pos = pos - 1;
    }
    if pos == 0 {
        assert(last_slash(path@.subrange(0, 0)) is None);
        let name = crate::bytes::slice_to_vec(path, 0, end);
        return Some((vec![0x2Fu8], name));
    }
    let slash = pos - 1;
    assert(last_slash(path@.subrange(0, pos as int)) == Some(slash as int));
    let name = crate::bytes::slice_to_vec(path, slash + 1, end);
    assert(name@ =~= t.subrange(slash + 1, t.len() as int));
    if name.len() == 0 {
        return None;
    }
    let parent = if slash == 0 {
        vec![0x2Fu8]
    } else {
        let p = crate::bytes::slice_to_vec(path, 0, slash);
        assert(p@ =~= t.subrange(0, slash as int));
        p
    };
    Some((parent, name))
}

// ---------------------------------------------------------------------
// The mounted volume
// ---------------------------------------------------------------------

pub const S_IFMT: u16 = 0xF000;
pub const S_IFDIR: u16 = 0x4000;
pub const S_IFREG: u16 = 0x8000;

/// Type bits of an inode mode.
pub open spec fn mode_type(mode: u16) -> int {
    mode as int / 4096 * 4096
}

impl Ext2Inode {
    /// An all-zero inode record.
    pub fn zeroed() -> (r: Self)
        ensures
            inode_at(Seq::new(128, |i: int| 0u8), 0, r),
    {
        let z = Ext2Inode {
            i_mode: 0,
            i_uid: 0,
            i_size: 0,
            i_atime: 0,
            i_ctime: 0,
            i_mtime: 0,
            i_dtime: 0,
            i_gid: 0,
            i_links_count: 0,
            i_blocks: 0,
            i_flags: 0,
            i_osd1: 0,
            i_block: [0u32; 15],
            i_generation: 0,
            i_file_acl: 0,
            i_dir_acl: 0,
            i_faddr: 0,
            i_osd2: [0u8; 12],
        };
        assert(z.i_osd2@ =~= Seq::new(128, |i: int| 0u8).subrange(116, 128));
        z
    }

    /// The mode's type bits say directory.
    pub fn is_dir(&self) -> (r: bool)
        ensures
            r == (mode_type(self.i_mode) == S_IFDIR),
    {
        self.i_mode / 4096 == 4
    }

    /// The mode's type bits say regular file.
    pub fn is_regular(&self) -> (r: bool)
        ensures
            r == (mode_type(self.i_mode) == S_IFREG),
    {
        self.i_mode / 4096 == 8
    }
}

impl Ext2SuperBlock {
    /// An all-zero superblock.
    pub fn zeroed() -> (r: Self)
        ensures
            superblock_at(Seq::new(136, |i: int| 0u8), 0, r),
    {
        let z = Ext2SuperBlock {
            s_inodes_count: 0,
            s_blocks_count: 0,
            s_r_blocks_count: 0,
            s_free_blocks_count: 0,
            s_free_inodes_count: 0,
            s_first_data_block: 0,
            s_log_block_size: 0,
            s_log_frag_size: 0,
            s_blocks_per_group: 0,
            s_frags_per_group: 0,
            s_inodes_per_group: 0,
            s_mtime: 0,
            s_wtime: 0,
            s_mnt_count: 0,
            s_max_mnt_count: 0,
            s_magic: 0,
            s_state: 0,
            s_errors: 0,
            s_minor_rev_level: 0,
            s_lastcheck: 0,
            s_checkinterval: 0,
            s_creator_os: 0,
            s_rev_level: 0,
            s_def_resuid: 0,
            s_def_resgid: 0,
            s_first_ino: 0,
            s_inode_size: 0,
            s_block_group_nr: 0,
            s_feature_compat: 0,
            s_feature_incompat: 0,
            s_feature_ro_compat: 0,
            s_uuid: [0u8; 16],
            s_volume_name: [0u8; 16],
        };
        assert(z.s_uuid@ =~= Seq::new(136, |i: int| 0u8).subrange(104, 120));
        assert(z.s_volume_name@ =~= Seq::new(136, |i: int| 0u8).subrange(120, 136));
        z
    }
}

/// An ext2 volume as the driver tracks it; the disk itself is the
/// caller's.
pub struct Ext2 {
    pub superblock: Ext2SuperBlock,
    pub block_size: u32,
    pub mounted: bool,
    pub partition_offset: u64,
}

impl Ext2 {
    /// An unmounted volume starting at sector `start_lba` (0 without one).
    pub fn new(start_lba: Option<u64>) -> (r: Self)
        ensures
            !r.mounted,
            r.block_size == 0,
            r.partition_offset == (match start_lba { Some(l) => l, None => 0 }),
    {
        let partition_offset = match start_lba {
            Some(l) => l,
            None => 0,
        };
        Ext2 { superblock: Ext2SuperBlock::zeroed(), block_size: 0, mounted: false, partition_offset }
    }

    /// Sector of the superblock (1024 bytes into the partition).
    pub fn superblock_lba(partition_offset: u64) -> (r: u32)
        requires
            partition_offset + 2 <= u64::MAX,
        ensures
            r == (partition_offset + 2) as u32,
    {
        (partition_offset + 2) as u32
    }

    /// Mount: `start_lba` overrides the partition offset; `read` is the
    /// superblock read from [`Ext2::superblock_lba`] of that offset, `None`
    /// when the read failed (nothing else changes then). A superblock
    /// without the ext2 magic is kept but leaves the volume as it was.
    pub fn mount(&mut self, start_lba: Option<u64>, read: Option<Ext2SuperBlock>)
        requires
            (read matches Some(sb) && sb.s_magic == EXT2_MAGIC) ==> read->Some_0.s_log_block_size < 32,
        ensures
            final(self).partition_offset == (match start_lba { Some(l) => l, None => old(self).partition_offset }),
            match read {
                None => final(self).superblock == old(self).superblock && final(self).mounted == old(self).mounted
                    && final(self).block_size == old(self).block_size,
                Some(sb) => final(self).superblock == sb && (if sb.s_magic == EXT2_MAGIC {
                    final(self).mounted && final(self).block_size == (1024u32 << sb.s_log_block_size)
                } else {
                    final(self).mounted == old(self).mounted && final(self).block_size == old(self).block_size
                }),
            },
    {
        if let Some(l) = start_lba {
            self.partition_offset = l;
        }
        let sb = match read {
            Some(sb) => sb,
            None => return,
        };
        self.superblock = sb;
        if sb.s_magic != EXT2_MAGIC {
            return;
        }
        self.block_size = 1024u32 << sb.s_log_block_size;
        self.mounted = true;
    }

    /// First sector of volume block `block`.
    pub fn block_lba(&self, block: u32) -> (r: u32)
        requires
            self.partition_offset as u32 + block * (self.block_size / 512) <= u32::MAX,
        ensures
            r == self.partition_offset as u32 + block * (self.block_size / 512),
    {
        let spb = self.block_size / 512;
        proof {
            assert(block * spb <= u32::MAX) by (nonlinear_arith)
                requires
                    self.partition_offset as u32 + block * spb <= u32::MAX,
            ;
        }
        self.partition_offset as u32 + block * spb
    }

    /// Block and byte offset of the descriptor of `group` in the
    /// descriptor table, which starts in the block after the superblock's.
    /// `None` when the volume is not mounted.
    pub fn bgd_location(&self, group: u32) -> (r: Option<(u32, usize)>)
        requires
            self.mounted ==> self.block_size >= BGD_SIZE,
            self.mounted ==> (if self.superblock.s_first_data_block == 0 { 1int } else {
                self.superblock.s_first_data_block as int
            }) + group / (self.block_size / BGD_SIZE) <= u32::MAX,
        ensures
            !self.mounted ==> r is None,
            self.mounted ==> ({
                let table = if self.superblock.s_first_data_block == 0 { 1int } else {
                    self.superblock.s_first_data_block as int
                };
                let per_block = self.block_size / BGD_SIZE;
                r == Some(((table + group / per_block) as u32, ((group % per_block) * BGD_SIZE) as usize))
            }),
    {
        if !self.mounted {
            return None;
        }
        let table = if self.superblock.s_first_data_block == 0 { 1u32 } else { self.superblock.s_first_data_block };
        let per_block = self.block_size / BGD_SIZE;
        proof {
            assert((group % per_block) * BGD_SIZE < self.block_size) by (nonlinear_arith)
                requires
                    per_block == self.block_size / 32,
                    per_block > 0,
                    group % per_block < per_block,
            ;
        }
        Some((table + group / per_block, ((group % per_block) * BGD_SIZE) as usize))
    }

    /// Group of inode `inode_num` and its index inside the group; `None`
    /// for inode 0 or an unmounted volume.
    pub fn inode_group(&self, inode_num: u32) -> (r: Option<(u32, u32)>)
        requires
            self.mounted && inode_num != 0 ==> self.superblock.s_inodes_per_group > 0,
        ensures
            !self.mounted || inode_num == 0 ==> r is None,
            self.mounted && inode_num != 0 ==> r == Some((
                ((inode_num - 1) / self.superblock.s_inodes_per_group as int) as u32,
                ((inode_num - 1) % self.superblock.s_inodes_per_group as int) as u32,
            )),
    {
        if !self.mounted || inode_num == 0 {
            return None;
        }
        let ipg = self.superblock.s_inodes_per_group;
        Some(((inode_num - 1) / ipg, (inode_num - 1) % ipg))
    }

    /// Block and byte offset of the inode record at `index` in a group
    /// whose inode table starts at block `inode_table`.
    pub fn inode_slot(&self, inode_table: u32, index: u32) -> (r: (u32, usize))
        requires
            self.block_size > 0,
            inode_table + (index as int * self.superblock.s_inode_size) / self.block_size as int <= u32::MAX,
        ensures
            ({
                let off = index as int * self.superblock.s_inode_size;
                r == ((inode_table + off / self.block_size as int) as u32, (off % self.block_size as int) as usize)
            }),
    {
        let a = index as u64;
        let b = self.superblock.s_inode_size as u64;
        proof {
            assert(a * b <= 0xFFFF_FFFF * 0xFFFF) by (nonlinear_arith)
                requires
                    a <= 0xFFFF_FFFF,
                    b <= 0xFFFF,
            ;
        }
        let off = a * b;
        let bs = self.block_size as u64;
        let block = off / bs;
        let byte = off % bs;
        (inode_table + block as u32, byte as usize)
    }

    /// Take a free inode from group 0's inode bitmap (positions from 12
    /// below the inodes per group) and count it in the descriptor. The
    /// number returned is the bit position. `None` (nothing changed) when
    /// unmounted or when no bit is free.
    pub fn alloc_inode(&self, bitmap: &mut Vec<u8>, bgd: &mut Ext2BlockGroupDescriptor) -> (r: Option<u32>)
        ensures
            !self.mounted ==> r is None && final(bitmap)@ == old(bitmap)@ && *final(bgd) == *old(bgd),
            self.mounted ==> match first_clear(old(bitmap)@, 12, self.superblock.s_inodes_per_group as int) {
                Some(i) => {
                    &&& r == Some(i as u32)
                    &&& final(bitmap)@ == old(bitmap)@.update(i / 8, (old(bitmap)@[i / 8] + bit_weight(i % 8)) as u8)
                    &&& *final(bgd) == (Ext2BlockGroupDescriptor {
                        bg_free_inodes_count: if old(bgd).bg_free_inodes_count > 0 {
                            (old(bgd).bg_free_inodes_count - 1) as u16
                        } else {
                            0
                        },
                        ..*old(bgd)
                    })
                },
                None => r is None && final(bitmap)@ == old(bitmap)@ && *final(bgd) == *old(bgd),
            },
    {
        if !self.mounted {
            return None;
        }
        let ipg = self.superblock.s_inodes_per_group as usize;
        proof {
            lemma_first_clear_range(bitmap@, 12, ipg as int);
        }
        match bitmap_take_first_clear(bitmap, 12, ipg) {
            Some(i) => {
                if bgd.bg_free_inodes_count > 0 {
                    bgd.bg_free_inodes_count = bgd.bg_free_inodes_count - 1;
                }
                Some(i as u32)
            },
            None => None,
        }
    }

    /// First block after group 0's inode table, where data blocks start.
    pub open spec fn first_data_block_of(&self, bgd: Ext2BlockGroupDescriptor) -> int {
        bgd.bg_inode_table + (self.superblock.s_inodes_per_group as int * self.superblock.s_inode_size
            + self.block_size - 1) / self.block_size as int
    }

    /// Take a free data block from group 0's block bitmap, searching from
    /// the first block after the inode table, and count it in the
    /// descriptor.
    pub fn alloc_block(&self, bitmap: &mut Vec<u8>, bgd: &mut Ext2BlockGroupDescriptor) -> (r: Option<u32>)
        requires
            self.mounted ==> self.block_size > 0,
            self.mounted ==> self.first_data_block_of(*old(bgd)) <= usize::MAX,
        ensures
            !self.mounted ==> r is None && final(bitmap)@ == old(bitmap)@ && *final(bgd) == *old(bgd),
            self.mounted ==> match first_clear(
                old(bitmap)@,
                self.first_data_block_of(*old(bgd)),
                self.superblock.s_blocks_per_group as int,
            ) {
                Some(i) => {
                    &&& r == Some(i as u32)
                    &&& final(bitmap)@ == old(bitmap)@.update(i / 8, (old(bitmap)@[i / 8] + bit_weight(i % 8)) as u8)
                    &&& *final(bgd) == (Ext2BlockGroupDescriptor {
                        bg_free_blocks_count: if old(bgd).bg_free_blocks_count > 0 {
                            (old(bgd).bg_free_blocks_count - 1) as u16
                        } else {
                            0
                        },
                        ..*old(bgd)
                    })
                },
                None => r is None && final(bitmap)@ == old(bitmap)@ && *final(bgd) == *old(bgd),
            },
    {
        if !self.mounted {
            return None;
        }
        let bpg = self.superblock.s_blocks_per_group as usize;
        let bs = self.block_size as u64;
        proof {
            assert(self.superblock.s_inodes_per_group as int * self.superblock.s_inode_size <= 0xFFFF_FFFF * 0xFFFF)
                by (nonlinear_arith)
                requires
                    self.superblock.s_inodes_per_group <= 0xFFFF_FFFF,
                    self.superblock.s_inode_size <= 0xFFFF,
            ;
        }
        let table_blocks = (self.superblock.s_inodes_per_group as u64 * self.superblock.s_inode_size as u64 + (bs - 1))
            / bs;
        let first = bgd.bg_inode_table as u64 + table_blocks;
        proof {
            lemma_first_clear_range(bitmap@, first as int, bpg as int);
        }
        match bitmap_take_first_clear(bitmap, first as usize, bpg) {
            Some(i) => {
                if bgd.bg_free_blocks_count > 0 {
                    bgd.bg_free_blocks_count = bgd.bg_free_blocks_count - 1;
                }
                Some(i as u32)
            },
            None => None,
        }
    }

    /// Give block `block` back to group 0's bitmap and count it free.
    /// Block 0 and blocks past the bitmap change nothing; the result says
    /// whether the bitmap and descriptor are to be written back.
    pub fn free_block(&self, bitmap: &mut Vec<u8>, bgd: &mut Ext2BlockGroupDescriptor, block: u32) -> (r: bool)
        requires
            block != 0 && (block as int) / 8 < old(bitmap)@.len() ==> old(bgd).bg_free_blocks_count < 0xFFFF,
        ensures
            r == (block != 0 && (block as int) / 8 < old(bitmap)@.len()),
            r ==> *final(bgd) == (Ext2BlockGroupDescriptor {
                bg_free_blocks_count: (old(bgd).bg_free_blocks_count + 1) as u16,
                ..*old(bgd)
            }),
            !r ==> final(bitmap)@ == old(bitmap)@ && *final(bgd) == *old(bgd),
            r && bit_is_set(old(bitmap)@, block as int) ==> final(bitmap)@ == old(bitmap)@.update(
                block as int / 8,
                (old(bitmap)@[block as int / 8] - bit_weight(block as int % 8)) as u8,
            ),
            r && !bit_is_set(old(bitmap)@, block as int) ==> final(bitmap)@ == old(bitmap)@,
    {
        if block == 0 {
            return false;
        }
        if !bitmap_clear(bitmap, block as usize) {
            return false;
        }
        bgd.bg_free_blocks_count = bgd.bg_free_blocks_count + 1;
        true
    }

    /// Give inode `inode_num` back to its group's bitmap and count it
    /// free. Returns the group (whose bitmap and descriptor the caller
    /// passed) and whether they changed; the caller then zeroes the inode
    /// record.
    pub fn free_inode(&self, bitmap: &mut Vec<u8>, bgd: &mut Ext2BlockGroupDescriptor, inode_num: u32) -> (r: (u32, bool))
        requires
            inode_num >= 1,
            self.superblock.s_inodes_per_group > 0,
            ((inode_num - 1) % self.superblock.s_inodes_per_group as int) / 8 < old(bitmap)@.len()
                ==> old(bgd).bg_free_inodes_count < 0xFFFF,
        ensures
            ({
                let ipg = self.superblock.s_inodes_per_group as int;
                let idx = (inode_num - 1) % ipg;
                &&& r.0 == (inode_num - 1) / ipg
                &&& r.1 == (idx / 8 < old(bitmap)@.len())
                &&& r.1 ==> *final(bgd) == (Ext2BlockGroupDescriptor {
                    bg_free_inodes_count: (old(bgd).bg_free_inodes_count + 1) as u16,
                    ..*old(bgd)
                })
                &&& !r.1 ==> final(bitmap)@ == old(bitmap)@ && *final(bgd) == *old(bgd)
                &&& r.1 && bit_is_set(old(bitmap)@, idx) ==> final(bitmap)@ == old(bitmap)@.update(
                    idx / 8,
                    (old(bitmap)@[idx / 8] - bit_weight(idx % 8)) as u8,
                )
                &&& r.1 && !bit_is_set(old(bitmap)@, idx) ==> final(bitmap)@ == old(bitmap)@
            }),
    {
        let ipg = self.superblock.s_inodes_per_group;
        let group = (inode_num - 1) / ipg;
        let idx = ((inode_num - 1) % ipg) as usize;
        if !bitmap_clear(bitmap, idx) {
            return (group, false);
        }
        bgd.bg_free_inodes_count = bgd.bg_free_inodes_count + 1;
        (group, true)
    }

    /// Blocks a file of `len` bytes needs (its length cut to 32 bits, as
    /// the inode's size field holds it).
    pub open spec fn blocks_for(&self, len: usize) -> int {
        ((len as u32) + self.block_size - 1) / self.block_size as int
    }

    /// The inode of a new regular file (mode 0644) of `len` bytes, with
    /// the number of its blocks; `None` past twelve blocks, which only the
    /// direct pointers would have to hold.
    pub fn new_file_inode(&self, len: usize) -> (r: Option<(Ext2Inode, u32)>)
        requires
            self.block_size > 0,
            (len as u32) + self.block_size - 1 <= u32::MAX,
        ensures
            self.blocks_for(len) > 12 ==> r is None,
            self.blocks_for(len) <= 12 ==> (r matches Some((ino, n)) && {
                &&& n == self.blocks_for(len)
                &&& ino.i_mode == S_IFREG + 0o644
                &&& ino.i_size == len as u32
                &&& ino.i_links_count == 1
                &&& ino.i_blocks == n * (self.block_size / 512)
                &&& ino.i_block@ == Seq::new(15, |k: int| 0u32)
                &&& ino.i_uid == 0 && ino.i_gid == 0 && ino.i_flags == 0 && ino.i_dtime == 0
                &&& ino.i_atime == 0 && ino.i_ctime == 0 && ino.i_mtime == 0
            }),
    {
        let size = len as u32;
        let n = (size + (self.block_size - 1)) / self.block_size;
        if n > 12 {
            return None;
        }
        proof {
            assert(n * (self.block_size / 512) <= 12 * 0x80_0000) by (nonlinear_arith)
                requires
                    n <= 12,
                    self.block_size / 512 <= 0x80_0000,
            ;
        }
        let mut ino = Ext2Inode::zeroed();
        ino.i_mode = S_IFREG + 0o644;
        ino.i_size = size;
        ino.i_links_count = 1;
        ino.i_blocks = n * (self.block_size / 512);
        assert(ino.i_block@ =~= Seq::new(15, |k: int| 0u32));
        Some((ino, n))
    }

    /// The inode of a new directory (mode 0755) whose entries live in
    /// block `dir_block`.
    pub fn new_dir_inode(&self, dir_block: u32) -> (r: Ext2Inode)
        ensures
            r.i_mode == S_IFDIR + 0o755,
            r.i_size == self.block_size,
            r.i_links_count == 2,
            r.i_blocks == self.block_size / 512,
            r.i_block@ == Seq::new(15, |k: int| if k == 0 { dir_block } else { 0u32 }),
    {
        let mut ino = Ext2Inode::zeroed();
        ino.i_mode = S_IFDIR + 0o755;
        ino.i_size = self.block_size;
        ino.i_links_count = 2;
        ino.i_blocks = self.block_size / 512;
        ino.i_block[0] = dir_block;
        assert(ino.i_block@ =~= Seq::new(15, |k: int| if k == 0 { dir_block } else { 0u32 }));
        ino
    }

    /// Bytes `[start, end)` of the file data that go to the file's block
    /// `i`.
    pub fn data_chunk(&self, i: usize, len: usize) -> (r: (usize, usize))
        requires
            i * self.block_size + self.block_size <= usize::MAX,
        ensures
            r.0 == i * self.block_size,
            r.1 == if r.0 + self.block_size < len { r.0 + self.block_size } else { len as int },
    {
        proof {
            assert(i * self.block_size <= usize::MAX) by (nonlinear_arith)
                requires
                    i * self.block_size + self.block_size <= usize::MAX,
                    self.block_size >= 0,
            ;
        }
        let start = i * self.block_size as usize;
        let full = start + self.block_size as usize;
        let end = if full < len { full } else { len };
        (start, end)
    }
}

// ---------------------------------------------------------------------
// Formatting
// ---------------------------------------------------------------------

/// Layout of a freshly formatted single-group volume.
#[derive(Clone, Copy, Debug, PartialEq, Eq, Structural)]
pub struct Ext2Layout {
    pub block_size: u32,
    pub sectors_per_block: u32,
    pub total_blocks: u32,
    pub inodes_per_group: u32,
    pub first_data_block: u32,
    pub inode_table_blocks: u32,
    pub block_bitmap_block: u32,
    pub inode_bitmap_block: u32,
    pub inode_table_block: u32,
    pub first_free_block: u32,
}

pub open spec fn valid_block_size(bs: u32) -> bool {
    bs == 1024 || bs == 2048 || bs == 4096
}

/// Whole blocks in a partition of `total_sectors` sectors (cut to 32 bits).
pub open spec fn format_blocks(total_sectors: u64, bs: u32) -> u32 {
    (total_sectors / (bs / 512) as u64) as u32
}

pub open spec fn spec_layout(total_sectors: u64, bs: u32) -> Ext2Layout {
    let spb = bs / 512;
    let tb = format_blocks(total_sectors, bs);
    let quarter = if tb / 4 > 64 { tb / 4 } else { 64 };
    let ipg = if quarter < 16384 { quarter } else { 16384 };
    let fdb: u32 = if bs == 1024 { 1 } else { 0 };
    let bgd_blocks = (BGD_SIZE + bs - 1) / bs as int;
    let itb = (ipg * 128 + bs - 1) / bs as int;
    let bb = fdb + 1 + bgd_blocks;
    Ext2Layout {
        block_size: bs,
        sectors_per_block: spb as u32,
        total_blocks: tb,
        inodes_per_group: ipg as u32,
        first_data_block: fdb,
        inode_table_blocks: itb as u32,
        block_bitmap_block: bb as u32,
        inode_bitmap_block: (bb + 1) as u32,
        inode_table_block: (bb + 2) as u32,
        first_free_block: (bb + 2 + itb + 1) as u32,
    }
}

/// Sizes `format` accepts; it refuses (panics on) the others.
pub open spec fn format_ok(total_sectors: u64, bs: u32) -> bool {
    &&& valid_block_size(bs)
    &&& format_blocks(total_sectors, bs) >= 32
    &&& format_blocks(total_sectors, bs) <= bs * 8
}

pub fn format_layout(total_sectors: u64, block_size: u32) -> (r: Ext2Layout)
    requires
        format_ok(total_sectors, block_size),
    ensures
        r == spec_layout(total_sectors, block_size),
        r.first_free_block <= 8 + 16384 * 128 / 1024,
{
    let spb = block_size / 512;
    let total_blocks = (total_sectors / spb as u64) as u32;
    let quarter = if total_blocks / 4 > 64 { total_blocks / 4 } else { 64 };
    let ipg = if quarter < 16384 { quarter } else { 16384 };
    let fdb: u32 = if block_size == 1024 { 1 } else { 0 };
    let bgd_blocks = (BGD_SIZE + block_size - 1) / block_size;
    let itb = ((ipg as u64 * 128 + block_size as u64 - 1) / block_size as u64) as u32;
    let bb = fdb + 1 + bgd_blocks;
    Ext2Layout {
        block_size,
        sectors_per_block: spb,
        total_blocks,
        inodes_per_group: ipg,
        first_data_block: fdb,
        inode_table_blocks: itb,
        block_bitmap_block: bb,
        inode_bitmap_block: bb + 1,
        inode_table_block: bb + 2,
        first_free_block: bb + 2 + itb + 1,
    }
}

/// `a - b`, or 0 when that is negative.
pub open spec fn sat_sub(a: int, b: int) -> int {
    if a > b { a - b } else { 0 }
}

/// The superblock `format` writes for layout `l`.
pub open spec fn format_superblock(sb: Ext2SuperBlock, l: Ext2Layout) -> bool {
    let log: u32 = if l.block_size == 1024 { 0 } else if l.block_size == 2048 { 1 } else { 2 };
    &&& sb.s_inodes_count == l.inodes_per_group
    &&& sb.s_blocks_count == l.total_blocks
    &&& sb.s_r_blocks_count == 0
    &&& sb.s_free_blocks_count == sat_sub(l.total_blocks as int, l.first_free_block + 1)
    &&& sb.s_free_inodes_count == sat_sub(l.inodes_per_group as int, 11)
    &&& sb.s_first_data_block == l.first_data_block
    &&& sb.s_log_block_size == log
    &&& sb.s_log_frag_size == log
    &&& sb.s_blocks_per_group == l.total_blocks
    &&& sb.s_frags_per_group == l.total_blocks
    &&& sb.s_inodes_per_group == l.inodes_per_group
    &&& sb.s_mtime == 0 && sb.s_wtime == 0 && sb.s_mnt_count == 0
    &&& sb.s_max_mnt_count == 0xFFFF
    &&& sb.s_magic == EXT2_MAGIC
    &&& sb.s_state == 1 && sb.s_errors == 1 && sb.s_minor_rev_level == 0
    &&& sb.s_lastcheck == 0 && sb.s_checkinterval == 0 && sb.s_creator_os == 0
    &&& sb.s_rev_level == 1
    &&& sb.s_def_resuid == 0 && sb.s_def_resgid == 0
    &&& sb.s_first_ino == 11
    &&& sb.s_inode_size == 128
    &&& sb.s_block_group_nr == 0
    &&& sb.s_feature_compat == 2 && sb.s_feature_incompat == 0 && sb.s_feature_ro_compat == 0
    &&& sb.s_uuid@ == Seq::new(16, |i: int| 0u8)
    &&& sb.s_volume_name@ == seq![0x52u8, 0x75, 0x73, 0x74, 0x4F, 0x53, 0, 0, 0, 0, 0, 0, 0, 0, 0, 0]
}

/// Byte `k` of a bitmap whose first `n` bits are set and the rest clear.
pub open spec fn prefix_bitmap_byte(n: int, k: int) -> u8 {
    if 8 * k + 8 <= n {
        0xFF
    } else if 8 * k >= n {
        0
    } else {
        (bit_weight(n - 8 * k) - 1) as u8
    }
}

/// A 4096-byte bitmap with its first `n` bits set.
pub fn prefix_bitmap(n: u32) -> (r: Vec<u8>)
    ensures
        r@.len() == 4096,
        forall|k: int| 0 <= k < 4096 ==> #[trigger] r@[k] == prefix_bitmap_byte(n as int, k),
{
    let mut out: Vec<u8> = Vec::new();
    let mut k: u32 = 0;
    while k < 4096
        invariant
            k <= 4096,
            out@.len() == k,
            forall|j: int| 0 <= j < k ==> #[trigger] out@[j] == prefix_bitmap_byte(n as int, j),
        decreases 4096 - k,
    {
        let b: u8 = if 8 * k as u64 + 8 <= n as u64 {
            0xFF
        } else if 8 * k as u64 >= n as u64 {
            0
        } else {
            bit_weight_exec((n - 8 * k) as usize) - 1
        };
        out.push(b);
        k = k + 1;
    }
    out
}

/// One block-device write: `sectors` sectors from `data` at sector `lba`.
pub struct BlockWrite {
    pub lba: u32,
    pub sectors: u32,
    pub data: Vec<u8>,
}

/// The root directory's inode for layout `l`.
pub open spec fn format_root_inode(ino: Ext2Inode, l: Ext2Layout) -> bool {
    &&& ino.i_mode == S_IFDIR + 0o755
    &&& ino.i_size == l.block_size
    &&& ino.i_links_count == 2
    &&& ino.i_blocks == l.block_size / 512
    &&& ino.i_block@ == Seq::new(15, |k: int| if k == 0 { l.first_free_block } else { 0u32 })
    &&& ino.i_uid == 0 && ino.i_gid == 0 && ino.i_flags == 0 && ino.i_osd1 == 0
    &&& ino.i_atime == 0 && ino.i_ctime == 0 && ino.i_mtime == 0 && ino.i_dtime == 0
    &&& ino.i_generation == 0 && ino.i_file_acl == 0 && ino.i_dir_acl == 0 && ino.i_faddr == 0
    &&& ino.i_osd2@ == Seq::new(12, |k: int| 0u8)
}

/// Bytes `[from, to)` of `s` are zero.
pub open spec fn zero_between(s: Seq<u8>, from: int, to: int) -> bool {
    forall|k: int| from <= k < to ==> #[trigger] s[k] == 0
}

/// The superblock `format` writes for layout `l`.
pub fn format_superblock_record(l: &Ext2Layout) -> (r: Ext2SuperBlock)
    requires
        valid_block_size(l.block_size),
    ensures
        format_superblock(r, *l),
{
    let log: u32 = if l.block_size == 1024 { 0 } else if l.block_size == 2048 { 1 } else { 2 };
    let free_blocks = if l.total_blocks > l.first_free_block && l.total_blocks - l.first_free_block > 1 { l.total_blocks - l.first_free_block - 1 } else { 0 };
    let free_inodes = if l.inodes_per_group > 11 { l.inodes_per_group - 11 } else { 0 };
    let mut sb = Ext2SuperBlock::zeroed();
    sb.s_inodes_count = l.inodes_per_group;
    sb.s_blocks_count = l.total_blocks;
    sb.s_free_blocks_count = free_blocks;
    sb.s_free_inodes_count = free_inodes;
    sb.s_first_data_block = l.first_data_block;
    sb.s_log_block_size = log;
    sb.s_log_frag_size = log;
    sb.s_blocks_per_group = l.total_blocks;
    sb.s_frags_per_group = l.total_blocks;
    sb.s_inodes_per_group = l.inodes_per_group;
    sb.s_max_mnt_count = 0xFFFF;
    sb.s_magic = EXT2_MAGIC;
    sb.s_state = 1;
    sb.s_errors = 1;
    sb.s_rev_level = 1;
    sb.s_first_ino = 11;
    sb.s_inode_size = 128;
    sb.s_feature_compat = 2;
    sb.s_volume_name[0] = 0x52;
    sb.s_volume_name[1] = 0x75;
    sb.s_volume_name[2] = 0x73;
    sb.s_volume_name[3] = 0x74;
    sb.s_volume_name[4] = 0x4F;
    sb.s_volume_name[5] = 0x53;
    assert(sb.s_volume_name@ =~= seq![0x52u8, 0x75, 0x73, 0x74, 0x4F, 0x53, 0, 0, 0, 0, 0, 0, 0, 0, 0, 0]);
    assert(sb.s_uuid@ =~= Seq::new(16, |i: int| 0u8));
    sb
}

/// The group descriptor `format` writes for layout `l`.
pub open spec fn format_bgd(l: Ext2Layout) -> Ext2BlockGroupDescriptor {
    Ext2BlockGroupDescriptor {
        bg_block_bitmap: l.block_bitmap_block,
        bg_inode_bitmap: l.inode_bitmap_block,
        bg_inode_table: l.inode_table_block,
        bg_free_blocks_count: sat_sub(l.total_blocks as int, l.first_free_block + 1) as u16,
        bg_free_inodes_count: sat_sub(l.inodes_per_group as int, 11) as u16,
        bg_used_dirs_count: 1,
        bg_pad: 0,
    }
}

/// The root directory's inode `format` writes for layout `l`.
pub fn format_root_inode_record(l: &Ext2Layout) -> (r: Ext2Inode)
    requires
        valid_block_size(l.block_size),
    ensures
        format_root_inode(r, *l),
{
    let mut root = Ext2Inode::zeroed();
    root.i_mode = S_IFDIR + 0o755;
    root.i_size = l.block_size;
    root.i_links_count = 2;
    root.i_blocks = l.block_size / 512;
    root.i_block[0] = l.first_free_block;
    assert(root.i_block@ =~= Seq::new(15, |k: int| if k == 0 { l.first_free_block } else { 0u32 }));
    assert(root.i_osd2@ =~= Seq::new(12, |k: int| 0u8));
    root
}

/// `count` zeroed blocks of `spb` sectors from sector `lba` on.
fn push_zero_blocks(writes: &mut Vec<BlockWrite>, lba: u32, count: u32, spb: u32)
    requires
        lba + count * spb <= u32::MAX,
    ensures
        final(writes)@.len() == old(writes)@.len() + count,
        forall|j: int| 0 <= j < old(writes)@.len() ==> #[trigger] final(writes)@[j] == old(writes)@[j],
        forall|j: int| 0 <= j < count ==> (#[trigger] final(writes)@[old(writes)@.len() + j]).lba == lba + j * spb
            && final(writes)@[old(writes)@.len() + j].sectors == spb
            && final(writes)@[old(writes)@.len() + j].data@ == Seq::new(4096, |k: int| 0u8),
{
    let ghost n0 = writes@.len();
    let mut i: u32 = 0;
    while i < count
        invariant
            i <= count,
            lba + count * spb <= u32::MAX,
            writes@.len() == n0 + i,
            n0 == old(writes)@.len(),
            forall|j: int| 0 <= j < n0 ==> #[trigger] writes@[j] == old(writes)@[j],
            forall|j: int| 0 <= j < i ==> (#[trigger] writes@[n0 + j]).lba == lba + j * spb
                && writes@[n0 + j].sectors == spb && writes@[n0 + j].data@ == Seq::new(4096, |k: int| 0u8),
        decreases count - i,
    {
        proof {
            assert(i * spb + spb <= count * spb) by (nonlinear_arith)
                requires
                    i < count,
            ;
        }
        let zeros: Vec<u8> = vec![0u8; 4096];
        assert(zeros@ =~= Seq::new(4096, |k: int| 0u8));
        writes.push(BlockWrite { lba: lba + i * spb, sectors: spb, data: zeros });
        i = i + 1;
    }
}

impl Ext2 {
    /// Format a partition of `total_sectors` sectors starting at sector
    /// `partition_offset` as a single-group ext2 volume with
    /// `block_size`-byte blocks. Returns the mounted volume and, in order,
    /// the writes that lay it down: superblock, group descriptor, block
    /// bitmap, inode bitmap, the zeroed inode table, the block holding the
    /// root inode (inode 2) and the root directory's block.
    #[verifier::rlimit(100)]
    pub fn format(partition_offset: u64, total_sectors: u64, block_size: u32) -> (r: (Ext2, Vec<BlockWrite>))
        requires
            format_ok(total_sectors, block_size),
            partition_offset + 2 <= u64::MAX,
            partition_offset as u32 + spec_layout(total_sectors, block_size).first_free_block
                * (block_size / 512) <= u32::MAX,
        ensures
            ({
                let l = spec_layout(total_sectors, block_size);
                let po = partition_offset as u32;
                let spb = block_size / 512;
                let w = r.1@;
                let itb = l.inode_table_blocks as int;
                &&& r.0.mounted
                &&& r.0.block_size == block_size
                &&& r.0.partition_offset == partition_offset
                &&& format_superblock(r.0.superblock, l)
                &&& w.len() == 6 + itb
                &&& w[0].lba == (partition_offset + 2) as u32 && w[0].sectors == 2 && w[0].data@.len() == 1024
                &&& superblock_at(w[0].data@, 0, r.0.superblock)
                &&& zero_between(w[0].data@, 136, 1024)
                &&& w[1].lba == po + (l.first_data_block + 1) * spb && w[1].sectors == spb
                &&& w[1].data@.len() == 4096
                &&& bgd_at(w[1].data@, 0, format_bgd(l))
                &&& zero_between(w[1].data@, 20, 4096)
                &&& w[2].lba == po + l.block_bitmap_block * spb && w[2].sectors == spb && w[2].data@.len() == 4096
                &&& forall|k: int| 0 <= k < 4096 ==> #[trigger] w[2].data@[k] == prefix_bitmap_byte(l.first_free_block + 1, k)
                &&& w[3].lba == po + l.inode_bitmap_block * spb && w[3].sectors == spb && w[3].data@.len() == 4096
                &&& forall|k: int| 0 <= k < 4096 ==> #[trigger] w[3].data@[k] == prefix_bitmap_byte(11, k)
                &&& forall|j: int| 0 <= j < itb ==> (#[trigger] w[4 + j]).lba == po + l.inode_table_block * spb + j * spb
                    && w[4 + j].sectors == spb && w[4 + j].data@ == Seq::new(4096, |k: int| 0u8)
                &&& w[4 + itb].lba == po + l.inode_table_block * spb && w[4 + itb].sectors == spb
                &&& w[4 + itb].data@.len() == 4096
                &&& exists|ino: Ext2Inode| format_root_inode(ino, l) && #[trigger] inode_at(w[4 + itb].data@, 128, ino)
                &&& zero_between(w[4 + itb].data@, 0, 128) && zero_between(w[4 + itb].data@, 256, 4096)
                &&& w[5 + itb].lba == po + l.first_free_block * spb && w[5 + itb].sectors == spb
                &&& w[5 + itb].data@ == spec_directory_block(block_size as int, 2, 2)
            }),
    {
        let l = format_layout(total_sectors, block_size);
        let spb = l.sectors_per_block;
        let po = partition_offset as u32;
        proof {
            assert(l.inode_table_block * spb <= l.first_free_block * spb && (l.first_data_block + 1) * spb
                <= l.first_free_block * spb && l.block_bitmap_block * spb <= l.first_free_block * spb
                && l.inode_bitmap_block * spb <= l.first_free_block * spb && (l.inode_table_block
                + l.inode_table_blocks) * spb <= l.first_free_block * spb && l.inode_table_block * spb
                + l.inode_table_blocks * spb == (l.inode_table_block + l.inode_table_blocks) * spb)
                by (nonlinear_arith)
                requires
                    l.inode_table_block <= l.first_free_block,
                    l.first_data_block + 1 <= l.first_free_block,
                    l.block_bitmap_block <= l.first_free_block,
                    l.inode_bitmap_block <= l.first_free_block,
                    l.inode_table_block + l.inode_table_blocks <= l.first_free_block,
            ;
        }
        let sb = format_superblock_record(&l);
        let mut writes: Vec<BlockWrite> = Vec::new();

        let mut sb_buf: Vec<u8> = vec![0u8; 1024];
        let ghost zero_sb = sb_buf@;
        sb.write_to(&mut sb_buf, 0);
        assert(forall|k: int| 136 <= k < 1024 ==> sb_buf@[k] == zero_sb[k]);
        writes.push(BlockWrite { lba: (partition_offset + 2) as u32, sectors: 2, data: sb_buf });

        let free_blocks = if l.total_blocks > l.first_free_block + 1 { l.total_blocks - (l.first_free_block + 1) } else { 0 };
        let free_inodes = if l.inodes_per_group > 11 { l.inodes_per_group - 11 } else { 0 };
        let bgd = Ext2BlockGroupDescriptor {
            bg_block_bitmap: l.block_bitmap_block,
            bg_inode_bitmap: l.inode_bitmap_block,
            bg_inode_table: l.inode_table_block,
            bg_free_blocks_count: free_blocks as u16,
            bg_free_inodes_count: free_inodes as u16,
            bg_used_dirs_count: 1,
            bg_pad: 0,
        };
        let mut bgd_buf: Vec<u8> = vec![0u8; 4096];
        let ghost zero_bgd = bgd_buf@;
        bgd.write_to(&mut bgd_buf, 0);
        assert(forall|k: int| 20 <= k < 4096 ==> bgd_buf@[k] == zero_bgd[k]);
        writes.push(BlockWrite { lba: po + (l.first_data_block + 1) * spb, sectors: spb, data: bgd_buf });

        writes.push(BlockWrite { lba: po + l.block_bitmap_block * spb, sectors: spb, data: prefix_bitmap(l.first_free_block + 1) });
        writes.push(BlockWrite { lba: po + l.inode_bitmap_block * spb, sectors: spb, data: prefix_bitmap(11) });

        let table_lba = po + l.inode_table_block * spb;
        push_zero_blocks(&mut writes, table_lba, l.inode_table_blocks, spb);

        let root = format_root_inode_record(&l);
        let mut inode_buf: Vec<u8> = vec![0u8; 4096];
        let ghost zero_block = inode_buf@;
        root.write_to(&mut inode_buf, 128);
        assert(forall|k: int| 0 <= k < 4096 && !(128 <= k < 256) ==> inode_buf@[k] == zero_block[k]);
        writes.push(BlockWrite { lba: table_lba, sectors: spb, data: inode_buf });

        writes.push(BlockWrite {
            lba: po + l.first_free_block * spb,
            sectors: spb,
            data: init_directory_block(block_size, 2, 2),
        });

        proof {
            let w = writes@;
            let itb = l.inode_table_blocks as int;
            assert(w[4 + itb].data@ == inode_buf@);
            assert(format_root_inode(root, l) && inode_at(w[4 + itb].data@, 128, root));
            assert(zero_between(w[4 + itb].data@, 0, 128));
            assert(zero_between(w[4 + itb].data@, 256, 4096));
            assert(zero_between(w[0].data@, 136, 1024));
            assert(zero_between(w[1].data@, 20, 4096));
        }
        (Ext2 { superblock: sb, block_size, mounted: true, partition_offset }, writes)
    }
}

impl Ext2 {
    /// [`Ext2::format`] of a partition of `gb` GiB (`gb * 2^21` sectors);
    /// `None` when that size does not fit the single block group `format`
    /// lays down.
    pub fn format_gb(partition_offset: u64, gb: u64, block_size: u32) -> (r: Option<(Ext2, Vec<BlockWrite>)>)
        requires
            gb * 2097152 <= u64::MAX,
            format_ok((gb * 2097152) as u64, block_size) ==> partition_offset + 2 <= u64::MAX
                && partition_offset as u32 + spec_layout((gb * 2097152) as u64, block_size).first_free_block
                * (block_size / 512) <= u32::MAX,
        ensures
            (r is Some) == format_ok((gb * 2097152) as u64, block_size),
            r matches Some(x) ==> {
                &&& x.0.mounted
                &&& x.0.block_size == block_size
                &&& x.0.partition_offset == partition_offset
                &&& format_superblock(x.0.superblock, spec_layout((gb * 2097152) as u64, block_size))
                &&& x.1@.len() == 6 + spec_layout((gb * 2097152) as u64, block_size).inode_table_blocks
            },
    {
        let total_sectors = gb * 2097152;
        if block_size != 1024 && block_size != 2048 && block_size != 4096 {
            return None;
        }
        let total_blocks = (total_sectors / (block_size / 512) as u64) as u32;
        if total_blocks < 32 || total_blocks > block_size * 8 {
            return None;
        }
        Some(Ext2::format(partition_offset, total_sectors, block_size))
    }

    /// Prepare overwriting regular file `inode` with `len` bytes in place:
    /// the data must fit in its first twelve, already allocated, blocks.
    /// On success the inode is updated (size, modification time 0, block
    /// count) and the number of blocks to write is returned; the caller
    /// writes [`Ext2::data_chunk`] `i` to `i_block[i]` for each.
    pub fn write_file_plan(&self, inode: &mut Ext2Inode, len: usize) -> (r: Option<u32>)
        requires
            self.block_size > 0,
            (len as u32) + self.block_size - 1 <= u32::MAX,
        ensures
            ({
                let n = self.blocks_for(len);
                let ok = mode_type(old(inode).i_mode) == S_IFREG && n <= 12
                    && forall|k: int| 0 <= k < n ==> #[trigger] old(inode).i_block@[k] != 0;
                &&& ok ==> r == Some(n as u32) && *final(inode) == (Ext2Inode {
                    i_size: len as u32,
                    i_mtime: 0,
                    i_blocks: (n * (self.block_size / 512)) as u32,
                    ..*old(inode)
                })
                &&& !ok ==> r is None && *final(inode) == *old(inode)
            }),
    {
        if !inode.is_regular() {
            return None;
        }
        let n = ((len as u32) + (self.block_size - 1)) / self.block_size;
        if n > 12 {
            return None;
        }
        let mut k: usize = 0;
        while k < n as usize
            invariant
                *inode == *old(inode),
                n == self.blocks_for(len),
                n <= 12,
                k <= n,
                forall|j: int| 0 <= j < k ==> #[trigger] inode.i_block@[j] != 0,
            decreases n - k,
        {
            if inode.i_block[k] == 0 {
                assert(old(inode).i_block@[k as int] == 0);
                return None;
            }
            k = k + 1;
        }
        proof {
            assert(n * (self.block_size / 512) <= 12 * 0x80_0000) by (nonlinear_arith)
                requires
                    n <= 12,
                    self.block_size / 512 <= 0x80_0000,
            ;
        }
        inode.i_size = len as u32;
        inode.i_mtime = 0;
        inode.i_blocks = n * (self.block_size / 512);
        Some(n)
    }

    /// Bytes a read of `buf_len` bytes at `offset` of a file of
    /// `file_size` bytes returns at most: 0 from the end on.
    pub fn read_len(file_size: u32, offset: u64, buf_len: usize) -> (r: usize)
        ensures
            offset >= file_size ==> r == 0,
            offset < file_size ==> r == (if buf_len < file_size - offset { buf_len as int } else { file_size - offset }),
    {
        if offset >= file_size as u64 {
            return 0;
        }
        let left = file_size as u64 - offset;
        if (buf_len as u64) < left {
            buf_len
        } else {
            left as usize
        }
    }

    /// The next piece of a read at byte `pos` of a file with `remaining`
    /// bytes still wanted: the file block holding `pos`, the offset inside
    /// it, and how many bytes to take from there.
    pub fn read_piece(&self, pos: u64, remaining: usize) -> (r: (usize, usize, usize))
        requires
            self.block_size > 0,
            pos as int / self.block_size as int <= usize::MAX,
        ensures
            r.0 == pos as int / self.block_size as int,
            r.1 == pos as int % self.block_size as int,
            r.2 == (if remaining < self.block_size - r.1 { remaining as int } else { self.block_size - r.1 }),
    {
        let bs = self.block_size as u64;
        let index = (pos / bs) as usize;
        let within = (pos % bs) as usize;
        let room = self.block_size as usize - within;
        let take = if remaining < room { remaining } else { room };
        (index, within, take)
    }
}

/// The listing of one directory block from `off`: entries in chain order,
/// stopping at a zero record length, an unused entry (inode 0) or a name
/// that runs past the block.
pub open spec fn list_from(s: Seq<u8>, bs: int, off: int) -> Seq<(u32, Seq<u8>, u8)>
    decreases if off < bs { bs - off } else { 0 },
{
    if off < 0 || off + 8 > bs {
        Seq::empty()
    } else {
        let e = dir_entry_at(s, off);
        if e.rec_len == 0 || e.inode == 0 || off + 8 + e.name_len > bs {
            Seq::empty()
        } else {
            seq![(e.inode, entry_name(s, off), e.file_type)] + list_from(s, bs, off + e.rec_len)
        }
    }
}

/// Name shown for stored name bytes: themselves when they are UTF-8,
/// else "???".
pub open spec fn shown_name(stored: Seq<u8>) -> Seq<u8> {
    if vstd::utf8::valid_utf8(stored) { stored } else { seq![0x3Fu8, 0x3F, 0x3F] }
}

/// The entries of one directory block, sizes left 0: the caller fills in
/// the size of each regular file (type 1) from its inode.
pub fn list_dir_block(buf: &[u8], block_size: usize) -> (r: Vec<DirEntry>)
    requires
        block_size + NAME_SLACK <= buf@.len(),
        block_size + 0x1_0008 <= usize::MAX,
    ensures
        r@.len() == list_from(buf@, block_size as int, 0).len(),
        forall|k: int| 0 <= k < r@.len() ==> #[trigger] listed_as(r@[k], list_from(buf@, block_size as int, 0)[k]),
{
    let len = buf.len();
    let mut out: Vec<DirEntry> = Vec::new();
    let mut offset: usize = 0;
    let ghost whole = list_from(buf@, block_size as int, 0);
    while offset + 8 <= block_size
        invariant
            len == buf@.len(),
            block_size + NAME_SLACK <= buf@.len(),
            block_size + 0x1_0008 <= usize::MAX,
            offset <= block_size + 0xFFFF,
            whole == list_from(buf@, block_size as int, 0),
            out@.len() + list_from(buf@, block_size as int, offset as int).len() == whole.len(),
            forall|k: int| 0 <= k < list_from(buf@, block_size as int, offset as int).len() ==>
                #[trigger] list_from(buf@, block_size as int, offset as int)[k] == whole[out@.len() + k],
            forall|k: int| 0 <= k < out@.len() ==> #[trigger] listed_as(out@[k], whole[k]),
        ensures
            whole == list_from(buf@, block_size as int, 0),
            out@.len() == whole.len(),
            forall|k: int| 0 <= k < out@.len() ==> #[trigger] listed_as(out@[k], whole[k]),
        decreases block_size + 0xFFFF - offset,
    {
        let e = Ext2DirEntry::read_from(buf, offset);
        if e.rec_len == 0 || e.inode == 0 {
            break;
        }
        let name_end = offset + 8 + e.name_len as usize;
        if name_end > block_size {
            break;
        }
        let stored = crate::bytes::slice_to_vec(buf, offset + 8, name_end);
        let name = if crate::procfs::is_valid_utf8(stored.as_slice()) { stored } else { vec![0x3Fu8, 0x3F, 0x3F] };
        let ghost cur = list_from(buf@, block_size as int, offset as int);
        let ghost rest = list_from(buf@, block_size as int, offset + e.rec_len);
        let ghost n0 = out@.len();
        let ghost old_out = out@;
        proof {
            assert(cur == seq![(e.inode, entry_name(buf@, offset as int), e.file_type)] + rest);
            assert(name@ == shown_name(entry_name(buf@, offset as int)));
            assert(whole[n0 as int] == cur[0]);
        }
        let entry = DirEntry { inode: e.inode, name, file_type: e.file_type, size: 0 };
        assert(listed_as(entry, whole[n0 as int]));
        out.push(entry);
        offset = offset + e.rec_len as usize;
        proof {
            assert forall|k: int| 0 <= k < rest.len() implies #[trigger] rest[k] == whole[out@.len() + k] by {
                assert(cur[k + 1] == rest[k]);
            }
            assert forall|k: int| 0 <= k < out@.len() implies #[trigger] listed_as(out@[k], whole[k]) by {
                if k < n0 {
                    assert(out@[k] == old_out[k]);
                }
            }
        }
    }
    out
}

/// `d` is how the listing shows the raw entry `e` (inode, stored name,
/// type), before sizes are filled in.
pub open spec fn listed_as(d: DirEntry, e: (u32, Seq<u8>, u8)) -> bool {
    &&& d.inode == e.0
    &&& d.name@ == shown_name(e.1)
    &&& d.file_type == e.2
    &&& d.size == 0
}

// ---------------------------------------------------------------------
// Laws
// ---------------------------------------------------------------------

/// A directory-entry header reads back as it was written, and the bytes
/// outside its eight are untouched.
pub proof fn law_dir_entry_roundtrip(s: Seq<u8>, off: int, e: Ext2DirEntry)
    requires
        0 <= off,
        off + 8 <= s.len(),
    ensures
        dir_entry_at(with_dir_entry(s, off, e), off) == e,
        forall|i: int| 0 <= i < s.len() && !(off <= i < off + 8) ==> #[trigger] with_dir_entry(s, off, e)[i] == s[i],
{
    lemma_le32_bytes(e.inode);
}

/// Two records decoded from the same bytes agree field by field, so an
/// inode read back after `write_to` is the inode written.
pub proof fn law_inode_record_determined(s: Seq<u8>, off: int, x: Ext2Inode, y: Ext2Inode)
    requires
        inode_at(s, off, x),
        inode_at(s, off, y),
    ensures
        x.i_mode == y.i_mode && x.i_uid == y.i_uid && x.i_size == y.i_size && x.i_atime == y.i_atime
            && x.i_ctime == y.i_ctime && x.i_mtime == y.i_mtime && x.i_dtime == y.i_dtime && x.i_gid == y.i_gid
            && x.i_links_count == y.i_links_count && x.i_blocks == y.i_blocks && x.i_flags == y.i_flags
            && x.i_osd1 == y.i_osd1 && x.i_generation == y.i_generation && x.i_file_acl == y.i_file_acl
            && x.i_dir_acl == y.i_dir_acl && x.i_faddr == y.i_faddr,
        x.i_block@ == y.i_block@,
        x.i_osd2@ == y.i_osd2@,
{
    assert forall|k: int| 0 <= k < 15 implies x.i_block@[k] == y.i_block@[k] by {
        assert(le32(s, off + 40 + 4 * k) == x.i_block@[k]);
        assert(le32(s, off + 40 + 4 * k) == y.i_block@[k]);
    }
    assert(x.i_block@ =~= y.i_block@);
}

/// Reading back what [`Ext2::write_file_plan`] laid out: for a byte `p` of
/// the `len` written, [`Ext2::read_piece`] at `p` reads file block
/// `p / block_size`, one of the blocks the plan writes, at the very offset
/// where [`Ext2::data_chunk`] of that block put byte `p`, and the piece it
/// takes stays inside that block.
pub proof fn law_read_piece_finds_written_byte(fs: Ext2, len: usize, p: int, remaining: int)
    requires
        fs.block_size > 0,
        len + fs.block_size - 1 <= u32::MAX,
        0 <= p < len,
        remaining > 0,
    ensures
        ({
            let bs = fs.block_size as int;
            let k = p / bs;
            let start = k * bs;
            let end = if start + bs < len { start + bs } else { len as int };
            let take = if remaining < bs - p % bs { remaining } else { bs - p % bs };
            &&& 0 <= k < fs.blocks_for(len)
            &&& start <= p < end
            &&& p - start == p % bs
            &&& 0 < take
            &&& p % bs + take <= bs
        }),
{
    let bs = fs.block_size as int;
    let k = p / bs;
    vstd::arithmetic::div_mod::lemma_fundamental_div_mod(p, bs);
    assert(0 <= k) by {
        vstd::arithmetic::div_mod::lemma_div_pos_is_pos(p, bs);
    }
    assert(k * bs <= p) by (nonlinear_arith)
        requires
            p == bs * k + p % bs,
            p % bs >= 0,
    ;
    assert(p < k * bs + bs) by (nonlinear_arith)
        requires
            p == bs * k + p % bs,
            p % bs < bs,
    ;
    let n = len + bs - 1;
    assert((len as u32) == len);
    assert(fs.blocks_for(len) == n / bs);
    assert(n / bs >= k + 1) by {
        assert(n >= (k + 1) * bs) by (nonlinear_arith)
            requires
                n == len + bs - 1,
                len >= k * bs + 1,
        ;
        vstd::arithmetic::div_mod::lemma_div_is_ordered((k + 1) * bs, n, bs);
        vstd::arithmetic::div_mod::lemma_div_multiples_vanish(k + 1, bs);
    }
}

/// Taking a clear bit leaves it set.
pub proof fn law_taken_bit_is_set(s: Seq<u8>, from: int, to: int)
    requires
        first_clear(s, from, to) is Some,
    ensures
        ({
            let i = first_clear(s, from, to)->Some_0;
            let t = s.update(i / 8, (s[i / 8] + bit_weight(i % 8)) as u8);
            &&& !bit_is_set(s, i)
            &&& bit_is_set(t, i)
        }),
{
    lemma_first_clear_range(s, from, to);
    let i = first_clear(s, from, to)->Some_0;
    lemma_set_clear_bit(s[i / 8], i % 8);
}

/// Freeing the bit that was just taken gives back the bitmap as it was.
pub proof fn law_free_undoes_take(s: Seq<u8>, from: int, to: int)
    requires
        first_clear(s, from, to) is Some,
    ensures
        ({
            let i = first_clear(s, from, to)->Some_0;
            let t = s.update(i / 8, (s[i / 8] + bit_weight(i % 8)) as u8);
            &&& bit_is_set(t, i)
            &&& t.update(i / 8, (t[i / 8] - bit_weight(i % 8)) as u8) == s
        }),
{
    law_taken_bit_is_set(s, from, to);
    let i = first_clear(s, from, to)->Some_0;
    let t = s.update(i / 8, (s[i / 8] + bit_weight(i % 8)) as u8);
    lemma_first_clear_range(s, from, to);
    lemma_set_clear_bit(s[i / 8], i % 8);
    assert(t.update(i / 8, (t[i / 8] - bit_weight(i % 8)) as u8) =~= s);
}

/// What adding a directory entry asks of its caller next.
pub enum DirAddAction {
    /// Finished: whether the entry went in.
    Finish(bool),
    /// Take a free block ([`Ext2::alloc_block`]) and report it with
    /// [`DirAdd::allocated`].
    AllocateBlock,
    /// Write `inode` back as the directory's inode, zero block `block`, then
    /// read that block and report it with [`DirAdd::block_read`].
    GrowAndRead { inode: Ext2Inode, block: u32 },
    /// Read block `block` and report it with [`DirAdd::block_read`].
    ReadBlock(u32),
    /// Write `data` to block `block`: the entry is in.
    WriteBlock { block: u32, data: Vec<u8> },
}

/// Adding an entry to a directory, slot by slot over its twelve direct
/// blocks: the first block with room takes the entry; an empty slot first
/// gets a fresh block (the directory growing by one block).
pub struct DirAdd {
    pub dir: Ext2Inode,
    pub slot: usize,
}

/// The action for directory slot `slot`.
pub open spec fn slot_action_spec(dir: Ext2Inode, slot: int) -> Option<Option<u32>> {
    if slot >= 12 { None } else if dir.i_block@[slot] == 0 { Some(None) } else { Some(Some(dir.i_block@[slot])) }
}

/// `a` is the action [`slot_action_spec`] describes.
pub open spec fn is_slot_action(a: DirAddAction, dir: Ext2Inode, slot: int) -> bool {
    match slot_action_spec(dir, slot) {
        None => a matches DirAddAction::Finish(false),
        Some(None) => a is AllocateBlock,
        Some(Some(b)) => a == DirAddAction::ReadBlock(b),
    }
}

impl DirAdd {
    fn slot_action(dir: &Ext2Inode, slot: usize) -> (r: DirAddAction)
        ensures
            is_slot_action(r, *dir, slot as int),
    {
        if slot >= 12 {
            DirAddAction::Finish(false)
        } else if dir.i_block[slot] == 0 {
            DirAddAction::AllocateBlock
        } else {
            DirAddAction::ReadBlock(dir.i_block[slot])
        }
    }

    /// Begin with the directory's inode `dir` as read: a non-directory is
    /// refused; otherwise slot 0 is tried.
    pub fn start(dir: Ext2Inode) -> (r: (DirAdd, DirAddAction))
        ensures
            r.0.dir == dir,
            mode_type(dir.i_mode) != S_IFDIR ==> (r.1 matches DirAddAction::Finish(false)),
            mode_type(dir.i_mode) == S_IFDIR ==> r.0.slot == 0 && is_slot_action(r.1, dir, 0),
    {
        if !dir.is_dir() {
            return (DirAdd { dir, slot: 0 }, DirAddAction::Finish(false));
        }
        let a = DirAdd::slot_action(&dir, 0);
        (DirAdd { dir, slot: 0 }, a)
    }

    /// The block for the current, empty slot: none left fails; otherwise it
    /// becomes the slot's block and the directory grows by one block.
    pub fn allocated(&mut self, fs: &Ext2, block: Option<u32>) -> (r: DirAddAction)
        requires
            old(self).slot < 12,
            old(self).dir.i_size + fs.block_size <= u32::MAX,
            old(self).dir.i_blocks + fs.block_size / 512 <= u32::MAX,
        ensures
            final(self).slot == old(self).slot,
            block is None ==> (r matches DirAddAction::Finish(false)) && final(self).dir == old(self).dir,
            block matches Some(b) ==> {
                &&& final(self).dir == (Ext2Inode {
                    i_block: final(self).dir.i_block,
                    i_size: (old(self).dir.i_size + fs.block_size) as u32,
                    i_blocks: (old(self).dir.i_blocks + fs.block_size / 512) as u32,
                    ..old(self).dir
                })
                &&& final(self).dir.i_block@ == old(self).dir.i_block@.update(old(self).slot as int, b)
                &&& r == (DirAddAction::GrowAndRead { inode: final(self).dir, block: b })
            },
    {
        match block {
            None => DirAddAction::Finish(false),
            Some(b) => {
                self.dir.i_block[self.slot] = b;
                self.dir.i_size = self.dir.i_size + fs.block_size;
                self.dir.i_blocks = self.dir.i_blocks + fs.block_size / 512;
                DirAddAction::GrowAndRead { inode: self.dir, block: b }
            },
        }
    }

    /// The current slot's block as read (`data`, padded past the block for
    /// the longest name): the entry goes in there when it fits, and the
    /// block is to be written; otherwise the next slot is tried.
    pub fn block_read(&mut self, fs: &Ext2, data: Vec<u8>, name: &[u8], inode: u32, file_type: u8) -> (r: DirAddAction)
        requires
            old(self).slot < 12,
            fs.block_size as int + NAME_SLACK <= data@.len(),
            fs.block_size <= 0xFFFF,
        ensures
            final(self).dir == old(self).dir,
            ({
                let nl = (name@.len() % 256) as u8;
                match spec_add_entry(data@, fs.block_size as int, name@, nl, inode, file_type) {
                    Some(s) => (r matches DirAddAction::WriteBlock { block, data: d }
                        && block == old(self).dir.i_block@[old(self).slot as int] && d@ == s)
                        && final(self).slot == old(self).slot,
                    None => final(self).slot == old(self).slot + 1 && is_slot_action(r, old(self).dir, old(self).slot + 1),
                }
            }),
    {
        let mut data = data;
        if add_entry_in_dir_block(&mut data, fs.block_size as usize, name, inode, file_type) {
            return DirAddAction::WriteBlock { block: self.dir.i_block[self.slot], data };
        }
        self.slot = self.slot + 1;
        DirAdd::slot_action(&self.dir, self.slot)
    }
}

/// Creating a regular file of `len` bytes at a path: the parent directory
/// (found by the caller) must be a directory; an inode is taken, then (a
/// file past twelve blocks being refused only now) one block per data block,
/// each written with its chunk of the data; then the inode is written and
/// the entry added to the parent ([`DirAdd`]), which decides the result.
pub struct FileCreate {
    pub parent_path: Vec<u8>,
    pub name: Vec<u8>,
    pub len: usize,
    pub parent: u32,
    pub inode_num: u32,
    pub inode: Ext2Inode,
    pub blocks: u32,
    pub taken: u32,
}

impl FileCreate {
    /// Begin creating `path`: nothing to do on an unmounted volume or a path
    /// without a parent and a name. The caller then finds the parent
    /// directory `r.parent_path`.
    pub fn start(fs: &Ext2, path: &[u8], len: usize) -> (r: Option<FileCreate>)
        ensures
            (r is Some) == (fs.mounted && spec_split_path(path@) is Some),
            r matches Some(c) ==> c.parent_path@ == spec_split_path(path@)->Some_0.0 && c.name@
                == spec_split_path(path@)->Some_0.1 && c.len == len && c.taken == 0,
    {
        if !fs.mounted {
            return None;
        }
        match split_path(path) {
            None => None,
            Some((parent_path, name)) => Some(FileCreate {
                parent_path,
                name,
                len,
                parent: 0,
                inode_num: 0,
                inode: Ext2Inode::zeroed(),
                blocks: 0,
                taken: 0,
            }),
        }
    }

    /// The parent as found (its inode number and record): it must be there
    /// and be a directory; then an inode is to be taken.
    pub fn parent_found(&mut self, parent: Option<(u32, Ext2Inode)>) -> (r: bool)
        ensures
            r == (parent matches Some((_, ino)) && mode_type(ino.i_mode) == S_IFDIR),
            r ==> final(self).parent == parent->Some_0.0,
            final(self).len == old(self).len && final(self).name == old(self).name && final(self).taken == old(self).taken,
    {
        match parent {
            Some((num, ino)) => {
                if ino.is_dir() {
                    self.parent = num;
                    true
                } else {
                    false
                }
            },
            None => false,
        }
    }

    /// The inode taken for the file (`None`: none free). Past twelve blocks
    /// the file is refused now; otherwise the number of blocks to take.
    pub fn inode_taken(&mut self, fs: &Ext2, num: Option<u32>) -> (r: Option<u32>)
        requires
            fs.block_size > 0,
            (old(self).len as u32) + fs.block_size - 1 <= u32::MAX,
        ensures
            num is None ==> r is None,
            num is Some && fs.blocks_for(old(self).len) > 12 ==> r is None,
            num is Some && fs.blocks_for(old(self).len) <= 12 ==> {
                &&& r == Some(fs.blocks_for(old(self).len) as u32)
                &&& final(self).inode_num == num->Some_0
                &&& final(self).blocks == fs.blocks_for(old(self).len)
                &&& final(self).taken == 0
                &&& final(self).inode.i_mode == S_IFREG + 0o644
                &&& final(self).inode.i_size == old(self).len as u32
                &&& final(self).inode.i_links_count == 1
                &&& final(self).inode.i_blocks == final(self).blocks * (fs.block_size / 512)
                &&& final(self).inode.i_block@ == Seq::new(15, |k: int| 0u32)
            },
            final(self).len == old(self).len && final(self).parent == old(self).parent && final(self).name == old(self).name,
    {
        let n = match num {
            Some(n) => n,
            None => return None,
        };
        match fs.new_file_inode(self.len) {
            None => None,
            Some((ino, blocks)) => {
                self.inode_num = n;
                self.inode = ino;
                self.blocks = blocks;
                self.taken = 0;
                Some(blocks)
            },
        }
    }

    /// The block taken for the next data block (`None`: none free, the
    /// creation fails). It becomes that block's pointer; the caller writes
    /// the returned chunk `[from, to)` of the data to it.
    pub fn block_taken(&mut self, fs: &Ext2, block: Option<u32>) -> (r: Option<(u32, (usize, usize))>)
        requires
            old(self).taken < old(self).blocks <= 12,
            fs.block_size <= 4096,
        ensures
            block is None ==> r is None,
            block matches Some(b) ==> {
                let i = old(self).taken as int;
                &&& final(self).inode.i_block@ == old(self).inode.i_block@.update(i, b)
                &&& final(self).taken == old(self).taken + 1
                &&& r matches Some((bb, (from, to))) && bb == b && from == i * fs.block_size
                    && to == (if from + fs.block_size < old(self).len { from + fs.block_size } else { old(self).len as int })
            },
            final(self).blocks == old(self).blocks && final(self).len == old(self).len && final(self).inode_num == old(self).inode_num
                && final(self).parent == old(self).parent && final(self).name == old(self).name,
            final(self).inode.i_size == old(self).inode.i_size && final(self).inode.i_mode == old(self).inode.i_mode
                && final(self).inode.i_blocks == old(self).inode.i_blocks,
    {
        let b = match block {
            Some(b) => b,
            None => return None,
        };
        let i = self.taken as usize;
        self.inode.i_block[i] = b;
        self.taken = self.taken + 1;
        assert(i * fs.block_size + fs.block_size <= 12 * 4096) by (nonlinear_arith)
            requires
                i < 12,
                fs.block_size <= 4096,
        ;
        let chunk = fs.data_chunk(i, self.len);
        Some((b, chunk))
    }
}

/// The name of an entry of the root directory a path names: the path
/// after its leading `/`, holding no other `/`.
pub open spec fn spec_root_entry_name(path: Seq<u8>) -> Option<Seq<u8>> {
    if path.len() > 0 && path[0] == 0x2Fu8 && !path.drop_first().contains(0x2Fu8) {
        Some(path.drop_first())
    } else {
        None
    }
}

pub fn root_entry_name(path: &[u8]) -> (r: Option<Vec<u8>>)
    ensures
        match spec_root_entry_name(path@) {
            Some(n) => r matches Some(v) && v@ == n,
            None => r is None,
        },
{
    if path.len() == 0 || path[0] != 0x2F {
        return None;
    }
    let mut i: usize = 1;
    while i < path.len()
        invariant
            1 <= i <= path@.len(),
            path@[0] == 0x2Fu8,
            forall|j: int| 1 <= j < i ==> path@[j] != 0x2Fu8,
        decreases path@.len() - i,
    {
        if path[i] == 0x2F {
            proof {
                assert(path@.drop_first()[i - 1] == 0x2Fu8);
            }
            return None;
        }
        i = i + 1;
    }
    proof {
        assert forall|k: int| 0 <= k < path@.drop_first().len() implies path@.drop_first()[k] != 0x2Fu8 by {
            assert(path@.drop_first()[k] == path@[k + 1]);
        }
    }
    Some(crate::bytes::slice_to_vec(path, 1, path.len()))
}

/// Whether `mkdir` of `path` goes ahead, given whether the path already
/// resolves: only on a mounted volume, for a new entry of the root
/// directory; then its name. The caller takes an inode, then a block, writes
/// [`Ext2::new_dir_inode`] and [`init_directory_block`] (parent: the root,
/// inode 2) and adds the entry to the root with file type 2 ([`DirAdd`]).
pub fn mkdir_check(fs: &Ext2, path: &[u8], exists: bool) -> (r: Option<Vec<u8>>)
    ensures
        !fs.mounted || exists ==> r is None,
        fs.mounted && !exists ==> match spec_root_entry_name(path@) {
            Some(n) => r matches Some(v) && v@ == n,
            None => r is None,
        },
{
    if !fs.mounted || exists {
        return None;
    }
    root_entry_name(path)
}

/// Whether removing the file `path` goes ahead, given the inode it resolves
/// to (`None`: not found): not a directory, and an entry of the root
/// directory; then its name, whose entry the caller removes from the root
/// before freeing the file's blocks and inode.
pub fn remove_file_check(fs: &Ext2, path: &[u8], target: Option<Ext2Inode>) -> (r: Option<Vec<u8>>)
    ensures
        !fs.mounted || target is None ==> r is None,
        fs.mounted && target is Some ==> if mode_type(target->Some_0.i_mode) == S_IFDIR {
            r is None
        } else {
            match spec_root_entry_name(path@) {
                Some(n) => r matches Some(v) && v@ == n,
                None => r is None,
            }
        },
{
    if !fs.mounted {
        return None;
    }
    match target {
        None => None,
        Some(t) => if t.is_dir() { None } else { root_entry_name(path) },
    }
}

} // verus!
