//! Filesystem bring-up decisions: the record of which block device is
//! mounted where, disk naming, choosing the root among probed filesystems,
//! the bootloader hand-off record and the frames it reserves.
//!
//! Probing a device for a filesystem reads the disk and stays with the
//! caller; what was found is handed in as [`ProbedFs`] values.
use vstd::prelude::*;
use crate::bytes::{decimal, lemma_decimal_injective, push_bytes, push_decimal, slice_to_vec};
use crate::paging::PageManager;
use crate::util::lemma_filter_prefix_step;
use crate::vfs::{mount_not_at, mounted_at, same_path, Mount, VfsTable};
use vstd::set_lib::{lemma_int_range, lemma_len_subset, lemma_map_size, set_int_range};

verus! {

/// Which device each auto-mounted or user-mounted mount point came from.
pub struct DeviceMounts {
    /// (source device, mount point)
    pub entries: Vec<(Vec<u8>, Vec<u8>)>,
}

pub open spec fn pair_view(e: (Vec<u8>, Vec<u8>)) -> (Seq<u8>, Seq<u8>) {
    (e.0@, e.1@)
}

pub open spec fn target_not(t: Seq<u8>) -> spec_fn((Vec<u8>, Vec<u8>)) -> bool {
    |e: (Vec<u8>, Vec<u8>)| e.1@ != t
}

pub open spec fn source_not(s: Seq<u8>) -> spec_fn((Vec<u8>, Vec<u8>)) -> bool {
    |e: (Vec<u8>, Vec<u8>)| e.0@ != s
}

pub open spec fn source_is(s: Seq<u8>) -> spec_fn((Vec<u8>, Vec<u8>)) -> bool {
    |e: (Vec<u8>, Vec<u8>)| e.0@ == s
}

/// Mounts whose point is none of `ps`.
pub open spec fn point_not_in(ps: Seq<Seq<u8>>) -> spec_fn(crate::vfs::Mount) -> bool {
    |m: crate::vfs::Mount| !ps.contains(m.point@)
}

/// Keep the entries that `keep` accepts.
fn retain_entries(v: &mut Vec<(Vec<u8>, Vec<u8>)>, key: &[u8], by_target: bool)
    ensures
        final(v)@ == old(v)@.filter(if by_target { target_not(key@) } else { source_not(key@) }),
{
    let ghost pred = if by_target { target_not(key@) } else { source_not(key@) };
    let ghost ov = v@;
    let ghost n: int = ov.len() as int;
    let ghost mut j: int = 0;
    let mut i: usize = 0;
    while i < v.len()
        invariant
            0 <= i <= v@.len(),
            0 <= j <= n,
            ov == old(v)@,
            n == ov.len(),
            pred == (if by_target { target_not(key@) } else { source_not(key@) }),
            v@.subrange(0, i as int) == ov.subrange(0, j).filter(pred),
            v@.subrange(i as int, v@.len() as int) == ov.subrange(j, n),
        decreases v@.len() - i,
    {
        proof {
            assert(v@.subrange(i as int, v@.len() as int).len() > 0);
            assert(v@[i as int] == v@.subrange(i as int, v@.len() as int)[0]);
            assert(ov[j] == ov.subrange(j, n)[0]);
            lemma_filter_prefix_step(ov, j, pred);
        }
        let hit = if by_target { same_path(v[i].1.as_slice(), key) } else { same_path(v[i].0.as_slice(), key) };
        if hit {
            let ghost before = v@;
            v.remove(i);
            proof {
                let tail = before.subrange(i as int, before.len() as int);
                assert(v@.subrange(0, i as int) =~= before.subrange(0, i as int));
                assert(v@.subrange(i as int, v@.len() as int) =~= tail.subrange(1, tail.len() as int));
                assert(ov.subrange(j + 1, n) =~= ov.subrange(j, n).subrange(1, n - j));
                j = j + 1;
            }
        } else {
            proof {
                let tail = v@.subrange(i as int, v@.len() as int);
                assert(v@.subrange(0, i + 1) =~= v@.subrange(0, i as int).push(ov[j]));
                assert(v@.subrange(i + 1, v@.len() as int) =~= tail.subrange(1, tail.len() as int));
                assert(ov.subrange(j + 1, n) =~= ov.subrange(j, n).subrange(1, n - j));
                j = j + 1;
            }
            i = i + 1;
        }
    }
    proof {
        assert(ov.subrange(j, n).len() == 0);
        assert(ov.subrange(0, n) =~= ov);
        assert(v@.subrange(0, i as int) =~= v@);
    }
}

proof fn lemma_filter_filter<A>(s: Seq<A>, a: spec_fn(A) -> bool, b: spec_fn(A) -> bool, c: spec_fn(A) -> bool)
    requires
        forall|x: A| #[trigger] c(x) == (a(x) && b(x)),
    ensures
        s.filter(a).filter(b) == s.filter(c),
    decreases s.len(),
{
    reveal(Seq::filter);
    if s.len() > 0 {
        lemma_filter_filter(s.drop_last(), a, b, c);
        let t = s.drop_last().filter(a);
        if a(s.last()) {
            assert(t.push(s.last()).drop_last() =~= t);
        }
    }
}

impl DeviceMounts {
    pub fn new() -> (r: Self)
        ensures
            r.entries@.len() == 0,
    {
        DeviceMounts { entries: Vec::new() }
    }

    /// `target` now comes from `source` (any earlier record for `target` is
    /// dropped).
    pub fn record_device_mount(&mut self, source: &[u8], target: &[u8])
        ensures
            final(self).entries@.len() == old(self).entries@.filter(target_not(target@)).len() + 1,
            final(self).entries@.drop_last() == old(self).entries@.filter(target_not(target@)),
            pair_view(final(self).entries@.last()) == (source@, target@),
    {
        retain_entries(&mut self.entries, target, true);
        let s = slice_to_vec(source, 0, source.len());
        let t = slice_to_vec(target, 0, target.len());
        proof {
            assert(source@.subrange(0, source@.len() as int) =~= source@);
            assert(target@.subrange(0, target@.len() as int) =~= target@);
        }
        let ghost before = self.entries@;
        self.entries.push((s, t));
        assert(self.entries@.drop_last() =~= before);
    }

    /// Forget the record for mount point `target`.
    pub fn forget_device_mount(&mut self, target: &[u8])
        ensures
            final(self).entries@ == old(self).entries@.filter(target_not(target@)),
    {
        retain_entries(&mut self.entries, target, true);
    }

    /// Unmount every mount point that came from `source` and forget them.
    pub fn unmount_device_mounts(&mut self, vfs: &mut VfsTable, source: &[u8])
        ensures
            final(self).entries@ == old(self).entries@.filter(source_not(source@)),
            final(vfs).mounts@ == old(vfs).mounts@.filter(point_not_in(
                old(self).entries@.filter(source_is(source@)).map_values(|e: (Vec<u8>, Vec<u8>)| e.1@))),
            final(vfs).has_root == old(vfs).has_root,
            final(vfs).next_fs_id == old(vfs).next_fs_id,
    {
        let ghost ps = self.entries@.filter(source_is(source@)).map_values(|e: (Vec<u8>, Vec<u8>)| e.1@);
        let mut paths: Vec<Vec<u8>> = Vec::new();
        let mut i: usize = 0;
        while i < self.entries.len()
            invariant
                0 <= i <= self.entries@.len(),
                self.entries@ == old(self).entries@,
                paths@.map_values(|v: Vec<u8>| v@) == self.entries@.subrange(0, i as int).filter(source_is(source@))
                    .map_values(|e: (Vec<u8>, Vec<u8>)| e.1@),
            decreases self.entries@.len() - i,
        {
            proof {
                lemma_filter_prefix_step(self.entries@, i as int, source_is(source@));
            }
            if same_path(self.entries[i].0.as_slice(), source) {
                let mp = slice_to_vec(self.entries[i].1.as_slice(), 0, self.entries[i].1.len());
                proof {
                    assert(self.entries@[i as int].1@.subrange(0, self.entries@[i as int].1@.len() as int) =~= self.entries@[i as int].1@);
                }
                let ghost before = paths@;
                paths.push(mp);
                proof {
                    let f = self.entries@.subrange(0, i as int).filter(source_is(source@));
                    assert(paths@.map_values(|v: Vec<u8>| v@) =~= before.map_values(|v: Vec<u8>| v@).push(mp@));
                    assert(f.push(self.entries@[i as int]).map_values(|e: (Vec<u8>, Vec<u8>)| e.1@)
                        =~= f.map_values(|e: (Vec<u8>, Vec<u8>)| e.1@).push(self.entries@[i as int].1@));
                }
            }
            i = i + 1;
        }
        proof {
            assert(self.entries@.subrange(0, self.entries@.len() as int) =~= self.entries@);
        }
        retain_entries(&mut self.entries, source, false);
        let ghost pv = paths@.map_values(|v: Vec<u8>| v@);
        let ghost m0 = vfs.mounts@;
        let mut k: usize = 0;
        proof {
            assert(m0.filter(point_not_in(pv.subrange(0, 0))) == m0) by {
                reveal(Seq::filter);
                lemma_filter_all(m0, point_not_in(pv.subrange(0, 0)));
            }
        }
        while k < paths.len()
            invariant
                0 <= k <= paths@.len(),
                pv == paths@.map_values(|v: Vec<u8>| v@),
                pv == ps,
                vfs.mounts@ == m0.filter(point_not_in(pv.subrange(0, k as int))),
                m0 == old(vfs).mounts@,
                vfs.has_root == old(vfs).has_root,
                vfs.next_fs_id == old(vfs).next_fs_id,
            decreases paths@.len() - k,
        {
            let _ = vfs.unmount(paths[k].as_slice());
            proof {
                let p = paths@[k as int]@;
                let a = point_not_in(pv.subrange(0, k as int));
                let c = point_not_in(pv.subrange(0, k + 1));
                assert(pv.subrange(0, k + 1) =~= pv.subrange(0, k as int).push(p));
                assert forall|x: crate::vfs::Mount| #[trigger] c(x) == (a(x) && mount_not_at(p)(x)) by {
                    assert(pv.subrange(0, k + 1).contains(x.point@) == (pv.subrange(0, k as int).contains(x.point@) || x.point@ == p)) by {
                        if pv.subrange(0, k as int).contains(x.point@) {
                            let w = choose|w: int| 0 <= w < k && #[trigger] pv.subrange(0, k as int)[w] == x.point@;
                            assert(pv.subrange(0, k + 1)[w] == x.point@);
                        }
                        if x.point@ == p {
                            assert(pv.subrange(0, k + 1)[k as int] == p);
                        }
                        if pv.subrange(0, k + 1).contains(x.point@) {
                            let w = choose|w: int| 0 <= w < k + 1 && #[trigger] pv.subrange(0, k + 1)[w] == x.point@;
                            if w < k {
                                assert(pv.subrange(0, k as int)[w] == x.point@);
                            }
                        }
                    }
                }
                lemma_filter_filter(m0, a, mount_not_at(p), c);
            }
            k = k + 1;
        }
        proof {
            assert(pv.subrange(0, pv.len() as int) =~= pv);
        }
    }
}

proof fn lemma_filter_all<A>(s: Seq<A>, p: spec_fn(A) -> bool)
    requires
        forall|x: A| #[trigger] p(x),
    ensures
        s.filter(p) == s,
    decreases s.len(),
{
    reveal(Seq::filter);
    if s.len() > 0 {
        lemma_filter_all(s.drop_last(), p);
        assert(s.drop_last().push(s.last()) =~= s);
    }
}

/// `sda`, `sdb`, ... for disk `index`, staying at `sdz` from the 26th on.
pub open spec fn spec_disk_name(index: usize) -> Seq<u8> {
    let l = 0x61 + index % 256;
    seq![0x73u8, 0x64u8, (if l < 0x7A { l } else { 0x7A }) as u8]
}

pub fn disk_name(index: usize) -> (r: Vec<u8>)
    requires
        index % 256 <= 158,
    ensures
        r@ == spec_disk_name(index),
{
    let b = 0x61u8 + (index % 256) as u8;
    let letter = if b < 0x7A { b } else { 0x7A };
    let v = vec![0x73u8, 0x64u8, letter];
    assert(v@ =~= spec_disk_name(index));
    v
}

/// The filesystem types the kernel can mount.
#[derive(Debug, Clone, Copy, PartialEq, Eq, Structural)]
pub enum FsKind {
    Ext2,
    Fat,
}

/// A device on which probing found a filesystem.
pub struct ProbedFs {
    pub name: Vec<u8>,
    pub kind: FsKind,
    /// Handle of the mounted filesystem object.
    pub fs: usize,
    /// Both `/init` and `/shell` are there.
    pub has_userspace: bool,
}

/// The filesystem to use as root: the first one with a userspace, else the
/// first ext2 one, else the first.
pub open spec fn spec_pick_root(p: Seq<ProbedFs>) -> int {
    if exists|i: int| 0 <= i < p.len() && (#[trigger] p[i]).has_userspace {
        choose|i: int| 0 <= i < p.len() && p[i].has_userspace && forall|j: int| 0 <= j < i ==> !(#[trigger] p[j]).has_userspace
    } else if exists|i: int| 0 <= i < p.len() && (#[trigger] p[i]).kind == FsKind::Ext2 {
        choose|i: int| 0 <= i < p.len() && p[i].kind == FsKind::Ext2 && forall|j: int| 0 <= j < i ==> (#[trigger] p[j]).kind != FsKind::Ext2
    } else {
        0
    }
}

pub fn pick_root(probed: &[ProbedFs]) -> (r: usize)
    ensures
        r == spec_pick_root(probed@),
        probed@.len() > 0 ==> r < probed@.len(),
{
    let mut i: usize = 0;
    while i < probed.len()
        invariant
            0 <= i <= probed@.len(),
            forall|j: int| 0 <= j < i ==> !(#[trigger] probed@[j]).has_userspace,
        decreases probed@.len() - i,
    {
        if probed[i].has_userspace {
            proof {
                let k = choose|k: int| 0 <= k < probed@.len() && probed@[k].has_userspace
                    && forall|j: int| 0 <= j < k ==> !(#[trigger] probed@[j]).has_userspace;
                assert(k == i as int) by {
                    if k > i as int {
                        assert(!probed@[i as int].has_userspace);
                    }
                }
            }
            return i;
        }
        i = i + 1;
    }
    let mut i: usize = 0;
    while i < probed.len()
        invariant
            0 <= i <= probed@.len(),
            forall|j: int| 0 <= j < probed@.len() ==> !(#[trigger] probed@[j]).has_userspace,
            forall|j: int| 0 <= j < i ==> (#[trigger] probed@[j]).kind != FsKind::Ext2,
        decreases probed@.len() - i,
    {
        if probed[i].kind == FsKind::Ext2 {
            proof {
                let k = choose|k: int| 0 <= k < probed@.len() && probed@[k].kind == FsKind::Ext2
                    && forall|j: int| 0 <= j < k ==> (#[trigger] probed@[j]).kind != FsKind::Ext2;
                assert(k == i as int) by {
                    if k > i as int {
                        assert(probed@[i as int].kind != FsKind::Ext2);
                    }
                }
            }
            return i;
        }
        i = i + 1;
    }
    0
}

/// Where the disks that are not the root get mounted: `/mnt/<name>`.
pub open spec fn mnt_point(name: Seq<u8>) -> Seq<u8> {
    seq![0x2Fu8, 0x6Du8, 0x6Eu8, 0x74u8, 0x2Fu8] + name
}

pub fn mnt_path(name: &[u8]) -> (r: Vec<u8>)
    ensures
        r@ == mnt_point(name@),
{
    let mut v: Vec<u8> = vec![0x2Fu8, 0x6Du8, 0x6Eu8, 0x74u8, 0x2Fu8];
    push_bytes(&mut v, name);
    assert(v@ =~= mnt_point(name@));
    v
}

/// The disk part of root selection: nothing is mounted without a
/// filesystem that holds a userspace. The root is taken out of the list by
/// swap-removal; the others, in the order that leaves, go to `/mnt/<name>`.
pub fn plan_disk_mounts(probed: Vec<ProbedFs>) -> (r: Option<(ProbedFs, Vec<(Vec<u8>, ProbedFs)>)>)
    ensures
        (probed@.len() == 0 || forall|i: int| 0 <= i < probed@.len() ==> !(#[trigger] probed@[i]).has_userspace) ==> r is None,
        (probed@.len() > 0 && exists|i: int| 0 <= i < probed@.len() && (#[trigger] probed@[i]).has_userspace) ==> ({
            let k = spec_pick_root(probed@);
            let rest = probed@.update(k, probed@.last()).drop_last();
            &&& r matches Some((root, others))
            &&& root == probed@[k]
            &&& others@.len() == rest.len()
            &&& forall|j: int| 0 <= j < rest.len() ==> (#[trigger] others@[j]).1 == rest[j] && others@[j].0@ == mnt_point(rest[j].name@)
        }),
{
    if probed.len() == 0 {
        return None;
    }
    let mut any = false;
    let mut i: usize = 0;
    while i < probed.len()
        invariant
            0 <= i <= probed@.len(),
            any == exists|j: int| 0 <= j < i && (#[trigger] probed@[j]).has_userspace,
        decreases probed@.len() - i,
    {
        if probed[i].has_userspace {
            any = true;
        }
        i = i + 1;
    }
    if !any {
        return None;
    }
    let k = pick_root(probed.as_slice());
    let mut probed = probed;
    let ghost before = probed@;
    let root = probed.swap_remove(k);
    let ghost rest = probed@;
    let n = probed.len();
    let mut others: Vec<(Vec<u8>, ProbedFs)> = Vec::new();
    let mut j: usize = 0;
    while probed.len() > 0
        invariant
            j + probed@.len() == rest.len(),
            rest.len() == n,
            probed@ == rest.subrange(j as int, rest.len() as int),
            others@.len() == j,
            forall|m: int| 0 <= m < j ==> (#[trigger] others@[m]).1 == rest[m] && others@[m].0@ == mnt_point(rest[m].name@),
        decreases probed@.len(),
    {
        let p = probed.remove(0);
        let mp = mnt_path(p.name.as_slice());
        proof {
            assert(p == rest[j as int]);
        }
        others.push((mp, p));
        proof {
            assert(probed@ =~= rest.subrange(j + 1, rest.len() as int));
        }
        j = j + 1;
    }
    Some((root, others))
}

/// The record the bootloader leaves at 0x7000.
#[derive(Debug, Clone, Copy, PartialEq, Eq, Structural)]
pub struct BootInfo {
    pub magic: u32,
    pub disk_phys: u32,
    pub disk_sectors: u32,
    pub flags: u32,
    pub mem_bytes: u32,
}

pub const BOOTINFO_MAGIC: u32 = 0xFE11_B007;

/// The hand-off record, when it is genuine and announces a ramdisk.
pub fn read_bootinfo(info: BootInfo) -> (r: Option<BootInfo>)
    ensures
        r == (if info.magic == BOOTINFO_MAGIC && info.flags % 2 == 1 && info.disk_sectors > 0 { Some(info) } else { None }),
{
    let f = info.flags;
    assert((f & 1 != 0) == (f % 2 == 1)) by (bit_vector);
    if info.magic == BOOTINFO_MAGIC && (info.flags & 1) != 0 && info.disk_sectors > 0 {
        Some(info)
    } else {
        None
    }
}

/// First frame past a ramdisk of `sectors` 512-byte sectors at `disk_phys`.
pub open spec fn ramdisk_end_page(disk_phys: u32, sectors: u32) -> int {
    (disk_phys + sectors * 512 + 4095) / 4096
}

/// Move the frame allocator past the bootloader ramdisk so its frames are
/// never handed out.
pub fn reserve_frames_past(pm: &mut PageManager, disk_phys: u32, sectors: u32)
    ensures
        final(pm).dir == old(pm).dir,
        final(pm).next_free_page == (if old(pm).next_free_page < ramdisk_end_page(disk_phys, sectors) {
            ramdisk_end_page(disk_phys, sectors)
        } else {
            old(pm).next_free_page as int
        }),
{
    let end: u64 = disk_phys as u64 + sectors as u64 * 512;
    let end_page = ((end + 4095) / 4096) as u32;
    if pm.next_free_page < end_page {
        pm.next_free_page = end_page;
    }
}

/// An IDE drive slot as the controller driver reports it.
#[derive(Debug, Clone, Copy, PartialEq, Eq, Structural)]
pub struct AtaSlot {
    /// 0 = ATA, 1 = ATAPI.
    pub kind: u8,
    /// Non-zero when a drive answered.
    pub reserved: u8,
    pub size: u32,
}

/// The ATA hard disks among the four IDE slots, in slot order.
pub fn collect_ata_disks(slots: &[Option<AtaSlot>]) -> (r: Vec<AtaSlot>)
    ensures
        r@ == slots@.filter(|s: Option<AtaSlot>| s matches Some(d) && d.kind == 0 && d.reserved != 0).map_values(|s: Option<AtaSlot>| s->0),
{
    let ghost pred = |s: Option<AtaSlot>| s matches Some(d) && d.kind == 0 && d.reserved != 0;
    let mut out: Vec<AtaSlot> = Vec::new();
    let mut i: usize = 0;
    while i < slots.len()
        invariant
            0 <= i <= slots@.len(),
            pred == (|s: Option<AtaSlot>| s matches Some(d) && d.kind == 0 && d.reserved != 0),
            out@ == slots@.subrange(0, i as int).filter(pred).map_values(|s: Option<AtaSlot>| s->0),
        decreases slots@.len() - i,
    {
        proof {
            lemma_filter_prefix_step(slots@, i as int, pred);
        }
        match slots[i] {
            Some(d) => {
                if d.kind == 0 && d.reserved != 0 {
                    let ghost f = slots@.subrange(0, i as int).filter(pred);
                    out.push(d);
                    proof {
                        assert(f.push(slots@[i as int]).map_values(|s: Option<AtaSlot>| s->0)
                            =~= f.map_values(|s: Option<AtaSlot>| s->0).push(d));
                    }
                }
            },
            None => {},
        }
        i = i + 1;
    }
    proof {
        assert(slots@.subrange(0, slots@.len() as int) =~= slots@);
    }
    out
}

/// The first ATA disk (type 0) among the slots.
pub fn first_ata_disk(slots: &[Option<AtaSlot>]) -> (r: Option<AtaSlot>)
    ensures
        r matches Some(d) ==> exists|i: int| 0 <= i < slots@.len() && #[trigger] slots@[i] == Some(d) && d.kind == 0
            && forall|j: int| 0 <= j < i ==> !(#[trigger] slots@[j] matches Some(e) && e.kind == 0),
        r is None ==> forall|j: int| 0 <= j < slots@.len() ==> !(#[trigger] slots@[j] matches Some(e) && e.kind == 0),
{
    let mut i: usize = 0;
    while i < slots.len()
        invariant
            0 <= i <= slots@.len(),
            forall|j: int| 0 <= j < i ==> !(#[trigger] slots@[j] matches Some(e) && e.kind == 0),
        decreases slots@.len() - i,
    {
        match slots[i] {
            Some(d) => {
                if d.kind == 0 {
                    assert(slots@[i as int] == Some(d));
                    return Some(d);
                }
            },
            None => {},
        }
        i = i + 1;
    }
    None
}

/// Which of `/init`, `init`, `/shell`, `shell` a probed filesystem could
/// read.
#[derive(Debug, Clone, Copy, PartialEq, Eq, Structural)]
pub struct UserspaceFiles {
    pub init_abs: bool,
    pub init_rel: bool,
    pub shell_abs: bool,
    pub shell_rel: bool,
}

/// A filesystem carries a userspace when it has both an init and a shell
/// (each under either spelling).
pub fn fs_has_userspace(files: UserspaceFiles) -> (r: bool)
    ensures
        r == ((files.init_abs || files.init_rel) && (files.shell_abs || files.shell_rel)),
{
    (files.init_abs || files.init_rel) && (files.shell_abs || files.shell_rel)
}

/// What probing a device found: ext2 is tried first (the volume after its
/// mount attempt), then FAT (`fat` is the FAT mount's outcome, `None` when
/// it failed); each with the userspace files it could read and the handle
/// of the mounted filesystem object.
pub fn try_mount(
    name: &[u8],
    ext2: &crate::ext2::Ext2,
    ext2_files: UserspaceFiles,
    ext2_handle: usize,
    fat: Option<(UserspaceFiles, usize)>,
) -> (r: Option<ProbedFs>)
    ensures
        ext2.mounted ==> (r matches Some(p) && p.name@ == name@ && p.kind == FsKind::Ext2 && p.fs == ext2_handle
            && p.has_userspace == ((ext2_files.init_abs || ext2_files.init_rel) && (ext2_files.shell_abs
            || ext2_files.shell_rel))),
        !ext2.mounted && fat is None ==> r is None,
        !ext2.mounted && fat is Some ==> ({
            let (files, handle) = fat->Some_0;
            r matches Some(p) && p.name@ == name@ && p.kind == FsKind::Fat && p.fs == handle
                && p.has_userspace == ((files.init_abs || files.init_rel) && (files.shell_abs || files.shell_rel))
        }),
{
    if ext2.mounted {
        return Some(ProbedFs {
            name: crate::bytes::slice_to_vec(name, 0, name.len()),
            kind: FsKind::Ext2,
            fs: ext2_handle,
            has_userspace: fs_has_userspace(ext2_files),
        });
    }
    match fat {
        Some((files, handle)) => Some(ProbedFs {
            name: crate::bytes::slice_to_vec(name, 0, name.len()),
            kind: FsKind::Fat,
            fs: handle,
            has_userspace: fs_has_userspace(files),
        }),
        None => None,
    }
}


/// `/mnt/<prefix><index>`: the mount point of removable device `index`.
pub open spec fn removable_point(prefix: Seq<u8>, index: nat) -> Seq<u8> {
    mnt_point(prefix + decimal(index))
}

pub fn removable_path(prefix: &[u8], index: usize) -> (r: Vec<u8>)
    ensures
        r@ == removable_point(prefix@, index as nat),
{
    let mut v: Vec<u8> = vec![0x2Fu8, 0x6Du8, 0x6Eu8, 0x74u8, 0x2Fu8];
    push_bytes(&mut v, prefix);
    push_decimal(&mut v, index as u64);
    assert(v@ =~= removable_point(prefix@, index as nat));
    v
}

/// Different indices give different mount points.
pub proof fn lemma_removable_point_injective(prefix: Seq<u8>, a: nat, b: nat)
    requires
        removable_point(prefix, a) == removable_point(prefix, b),
    ensures
        a == b,
{
    let k = 5 + prefix.len();
    let pa = removable_point(prefix, a);
    let pb = removable_point(prefix, b);
    assert(pa.subrange(k as int, pa.len() as int) =~= decimal(a));
    assert(pb.subrange(k as int, pb.len() as int) =~= decimal(b));
    lemma_decimal_injective(a, b);
}

/// If the mount points of indices `0..n` are all taken, there are at least
/// `n` mounts.
proof fn lemma_taken_points_bound(ms: Seq<Mount>, prefix: Seq<u8>, n: nat)
    requires
        forall|j: nat| j < n ==> mounted_at(ms, #[trigger] removable_point(prefix, j)),
    ensures
        n <= ms.len(),
{
    let f = |j: int| removable_point(prefix, j as nat);
    let dom = set_int_range(0, n as int);
    lemma_int_range(0, n as int);
    let img = dom.map(f);
    assert forall|a: int, b: int| dom.contains(a) && dom.contains(b) && #[trigger] f(a) == #[trigger] f(b) implies a == b by {
        lemma_removable_point_injective(prefix, a as nat, b as nat);
    }
    lemma_map_size(dom, img, f);
    let pts = ms.map_values(|m: Mount| m.point@);
    pts.lemma_cardinality_of_set();
    assert forall|p: Seq<u8>| img.contains(p) implies pts.to_set().contains(p) by {
        let j = choose|j: int| dom.contains(j) && f(j) == p;
        assert(mounted_at(ms, removable_point(prefix, j as nat)));
        let k = choose|k: int| 0 <= k < ms.len() && (#[trigger] ms[k]).point@ == p;
        assert(pts[k] == p);
        assert(pts.contains(p));
    }
    assert(img.subset_of(pts.to_set()));
    lemma_len_subset(img, pts.to_set());
}

/// The first index whose `/mnt/<prefix><index>` nothing is mounted at.
pub fn free_removable_index(vfs: &VfsTable, prefix: &[u8]) -> (r: (usize, Vec<u8>))
    ensures
        r.1@ == removable_point(prefix@, r.0 as nat),
        !mounted_at(vfs.mounts@, r.1@),
        forall|j: nat| j < r.0 ==> mounted_at(vfs.mounts@, #[trigger] removable_point(prefix@, j)),
{
    let n = vfs.mounts.len();
    let mut index: usize = 0;
    loop
        invariant
            n == vfs.mounts@.len(),
            index <= vfs.mounts@.len(),
            forall|j: nat| j < index ==> mounted_at(vfs.mounts@, #[trigger] removable_point(prefix@, j)),
        decreases vfs.mounts@.len() - index,
    {
        let p = removable_path(prefix, index);
        if !vfs.is_mounted_at(p.as_slice()) {
            return (index, p);
        }
        proof {
            assert forall|j: nat| j < index + 1 implies mounted_at(vfs.mounts@, #[trigger] removable_point(prefix@, j)) by {
                if j < index {
                } else {
                    assert(j == index);
                }
            }
            lemma_taken_points_bound(vfs.mounts@, prefix@, (index + 1) as nat);
        }
        index = index + 1;
    }
}

/// Finish mounting a removable device at `point` (found by
/// [`free_removable_index`]) once probing it found a filesystem (`probed`):
/// the mount is made and recorded as coming from `source`. Returns the mount
/// point and the new filesystem id, or `None` when nothing was found or the
/// mount was refused.
pub fn mount_removable_named(vfs: &mut VfsTable, devices: &mut DeviceMounts, point: &[u8], source: &[u8], probed: bool)
    -> (r: Option<(Vec<u8>, u8)>)
    ensures
        !probed ==> r is None && final(vfs).mounts@ == old(vfs).mounts@ && final(devices).entries@ == old(devices).entries@,
        probed && (point@.len() == 0 || point@[0] != 0x2Fu8 || mounted_at(old(vfs).mounts@, point@)) ==> r is None,
        r is None ==> final(vfs).mounts@ == old(vfs).mounts@ && final(devices).entries@ == old(devices).entries@,
        r matches Some((p, id)) ==> {
            &&& probed
            &&& p@ == point@
            &&& id != 0
            &&& !crate::vfs::id_in_use(old(vfs).mounts@, id)
            &&& final(vfs).mounts@.drop_last() == old(vfs).mounts@
            &&& final(vfs).mounts@.last().point@ == point@
            &&& final(vfs).mounts@.last().fs_id == id
            &&& final(devices).entries@.drop_last() == old(devices).entries@.filter(target_not(point@))
            &&& pair_view(final(devices).entries@.last()) == (source@, point@)
        },
        probed && r is None && point@.len() > 0 && point@[0] == 0x2Fu8 && !mounted_at(old(vfs).mounts@, point@)
            ==> forall|id: u8| id != 0 ==> #[trigger] crate::vfs::id_in_use(old(vfs).mounts@, id),
{
    if !probed {
        return None;
    }
    match vfs.mount(point) {
        Ok(id) => {
            devices.record_device_mount(source, point);
            Some((slice_to_vec(point, 0, point.len()), id))
        },
        Err(_) => None,
    }
}

/// [`mount_removable_named`] with the prefix as the recorded source.
pub fn mount_removable(vfs: &mut VfsTable, devices: &mut DeviceMounts, prefix: &[u8], point: &[u8], probed: bool)
    -> (r: Option<(Vec<u8>, u8)>)
    ensures
        !probed ==> r is None && final(vfs).mounts@ == old(vfs).mounts@ && final(devices).entries@ == old(devices).entries@,
        r is None ==> final(vfs).mounts@ == old(vfs).mounts@ && final(devices).entries@ == old(devices).entries@,
        r matches Some((p, id)) ==> {
            &&& probed
            &&& p@ == point@
            &&& final(vfs).mounts@.drop_last() == old(vfs).mounts@
            &&& final(vfs).mounts@.last().point@ == point@
            &&& final(vfs).mounts@.last().fs_id == id
            &&& pair_view(final(devices).entries@.last()) == (prefix@, point@)
        },
        probed && point@.len() > 0 && point@[0] == 0x2Fu8 && !mounted_at(old(vfs).mounts@, point@)
            && (exists|id: u8| id != 0 && !crate::vfs::id_in_use(old(vfs).mounts@, id)) ==> r is Some,
{
    mount_removable_named(vfs, devices, point, prefix, probed)
}

} // verus!
