//! Root filesystem bring-up: the bootloader ramdisk first, the ATA disks
//! next, then `/dev` (with `null` and `zero`) and `/proc`.
//!
//! Reading the bootloader record and probing devices for filesystems stay
//! with the caller, which hands in what it found; the decisions, the device
//! registrations and the mounts are made here.
use vstd::prelude::*;
use crate::devfs::{DevFS, DeviceRegistry, DeviceType, has_node, node_not_named};
use crate::init::{ProbedFs, DeviceMounts, disk_name, spec_disk_name, mnt_path, mnt_point, spec_pick_root, plan_disk_mounts,
    free_removable_index, mount_removable_named, removable_point};
use crate::vfs::{MountError, Mount, VfsTable, mounted_at, id_in_use};

verus! {

/// Device handle the caller binds to the null device.
pub const NULL_DEVICE: usize = 0;
/// Device handle the caller binds to the zero device.
pub const ZERO_DEVICE: usize = 1;

pub open spec fn null_name() -> Seq<u8> { seq![0x6Eu8, 0x75u8, 0x6Cu8, 0x6Cu8] }
pub open spec fn zero_name() -> Seq<u8> { seq![0x7Au8, 0x65u8, 0x72u8, 0x6Fu8] }
pub open spec fn ram0_name() -> Seq<u8> { seq![0x72u8, 0x61u8, 0x6Du8, 0x30u8] }
pub open spec fn dev_point() -> Seq<u8> { seq![0x2Fu8, 0x64u8, 0x65u8, 0x76u8] }
pub open spec fn proc_point() -> Seq<u8> { seq![0x2Fu8, 0x70u8, 0x72u8, 0x6Fu8, 0x63u8] }

/// `a` is an initial part of `b`.
pub open spec fn grows<T>(a: Seq<T>, b: Seq<T>) -> bool {
    a.len() <= b.len() && b.subrange(0, a.len() as int) == a
}

/// The filesystems that probing found, in disk order.
pub open spec fn somes(d: Seq<(usize, Option<ProbedFs>)>) -> Seq<ProbedFs>
    decreases d.len(),
{
    if d.len() == 0 {
        Seq::empty()
    } else {
        let r = somes(d.drop_last());
        match d.last().1 {
            Some(p) => r.push(p),
            None => r,
        }
    }
}

pub open spec fn any_userspace(p: Seq<ProbedFs>) -> bool {
    exists|k: int| 0 <= k < p.len() && (#[trigger] p[k]).has_userspace
}

/// The ramdisk holds a mountable filesystem with a userspace.
pub open spec fn ram_root(ramdisk: Option<(usize, Option<ProbedFs>)>) -> bool {
    ramdisk matches Some((_, Some(p))) && p.has_userspace
}

/// What a successful bring-up set up, for the caller to bind filesystem
/// objects to ids: the device filesystem to mount at `/dev`, the root, the
/// other filesystems mounted under `/mnt` with each mount's outcome, and
/// the outcomes of mounting `/dev` and `/proc`.
pub struct RootfsSetup {
    pub devfs: DevFS,
    pub root: ProbedFs,
    pub extra: Vec<(Vec<u8>, ProbedFs, Result<u8, MountError>)>,
    pub dev_mount: Result<u8, MountError>,
    pub proc_mount: Result<u8, MountError>,
}

proof fn lemma_grows_trans<T>(a: Seq<T>, b: Seq<T>, c: Seq<T>)
    requires
        grows(a, b),
        grows(b, c),
    ensures
        grows(a, c),
{
    assert(c.subrange(0, a.len() as int) =~= b.subrange(0, a.len() as int));
}

proof fn lemma_mounted_grows(a: Seq<Mount>, b: Seq<Mount>, p: Seq<u8>)
    requires
        grows(a, b),
        mounted_at(a, p),
    ensures
        mounted_at(b, p),
{
    let i = choose|i: int| 0 <= i < a.len() && (#[trigger] a[i]).point@ == p;
    assert(b.subrange(0, a.len() as int)[i] == b[i]);
}

proof fn lemma_node_grows(a: Seq<crate::devfs::DeviceNode>, b: Seq<crate::devfs::DeviceNode>, n: Seq<u8>)
    requires
        grows(a, b),
        has_node(a, n),
    ensures
        has_node(b, n),
{
    let i = choose|i: int| 0 <= i < a.len() && (#[trigger] a[i]).name@ == n;
    assert(b.subrange(0, a.len() as int)[i] == b[i]);
}

/// The `/mnt` mounts of the disk path: every probed filesystem but the
/// root (taken out by swap-removal), each at `/mnt/<its name>`.
pub open spec fn disk_extras(probed: Seq<ProbedFs>, extra: Seq<(Vec<u8>, ProbedFs, Result<u8, MountError>)>) -> bool {
    let k = spec_pick_root(probed);
    let rest = probed.update(k, probed.last()).drop_last();
    &&& extra.len() == rest.len()
    &&& forall|j: int| 0 <= j < extra.len() ==> (#[trigger] extra[j]).1 == rest[j] && extra[j].0@ == mnt_point(rest[j].name@)
}

/// Every filesystem id from 1 up is taken in `ms`.
pub open spec fn all_ids_used(ms: Seq<Mount>) -> bool {
    forall|id: u8| id != 0 ==> #[trigger] id_in_use(ms, id)
}

/// `p` is mounted in `ms`, or its mount failed with `NoFreeId` and every id
/// is indeed taken.
pub open spec fn mounted_or_full(ms: Seq<Mount>, p: Seq<u8>, res: Result<u8, MountError>) -> bool {
    mounted_at(ms, p) || (res == Err::<u8, MountError>(MountError::NoFreeId) && all_ids_used(ms))
}

proof fn lemma_full_grows(a: Seq<Mount>, b: Seq<Mount>, p: Seq<u8>, res: Result<u8, MountError>)
    requires
        grows(a, b),
        mounted_or_full(a, p, res),
    ensures
        mounted_or_full(b, p, res),
{
    if mounted_at(a, p) {
        lemma_mounted_grows(a, b, p);
    } else {
        assert forall|id: u8| id != 0 implies #[trigger] id_in_use(b, id) by {
            assert(id_in_use(a, id));
            let i = choose|i: int| 0 <= i < a.len() && (#[trigger] a[i]).fs_id == id;
            assert(b.subrange(0, a.len() as int)[i] == b[i]);
        }
    }
}

/// Mount at `point`; afterwards the point is mounted unless all ids were
/// taken.
fn mount_point(vfs: &mut VfsTable, point: &[u8]) -> (r: Result<u8, MountError>)
    requires
        point@.len() > 0 && point@[0] == 0x2Fu8,
    ensures
        grows(old(vfs).mounts@, final(vfs).mounts@),
        final(vfs).has_root == old(vfs).has_root,
        mounted_or_full(final(vfs).mounts@, point@, r),
        r matches Ok(id) ==> final(vfs).mounts@.last().point@ == point@ && final(vfs).mounts@.last().fs_id == id,
{
    let r = vfs.mount(point);
    proof {
        match r {
            Ok(id) => {
                let n = vfs.mounts@;
                assert(n.subrange(0, old(vfs).mounts@.len() as int) =~= n.drop_last());
                assert(n[n.len() - 1].point@ == point@);
            },
            Err(_) => {
                assert(vfs.mounts@.subrange(0, old(vfs).mounts@.len() as int) =~= vfs.mounts@);
            },
        }
    }
    r
}

fn register_block_kept(registry: &mut DeviceRegistry, name: &[u8], dev: usize)
    ensures
        grows(old(registry).devices@, final(registry).devices@),
        has_node(final(registry).devices@, name@),
{
    let _ = DevFS::register_block_global(registry, name, dev);
    proof {
        let o = old(registry).devices@;
        let n = registry.devices@;
        if has_node(o, name@) {
            assert(n.subrange(0, o.len() as int) =~= n);
        } else {
            assert(n.subrange(0, o.len() as int) =~= n.drop_last());
            assert(n[n.len() - 1].name@ == name@);
        }
    }
}

fn register_char_kept(registry: &mut DeviceRegistry, name: &[u8], dev: usize)
    ensures
        grows(old(registry).devices@, final(registry).devices@),
        has_node(final(registry).devices@, name@),
{
    let _ = DevFS::register_char_global(registry, name, dev);
    proof {
        let o = old(registry).devices@;
        let n = registry.devices@;
        if has_node(o, name@) {
            assert(n.subrange(0, o.len() as int) =~= n);
        } else {
            assert(n.subrange(0, o.len() as int) =~= n.drop_last());
            assert(n[n.len() - 1].name@ == name@);
        }
    }
}

/// Publish every ATA disk as `sda`, `sdb`, ... in the device registry.
fn register_disks(registry: &mut DeviceRegistry, disks: &Vec<(usize, Option<ProbedFs>)>)
    requires
        disks@.len() <= 4,
    ensures
        grows(old(registry).devices@, final(registry).devices@),
        forall|i: int| 0 <= i < disks@.len() ==> has_node(final(registry).devices@, #[trigger] spec_disk_name(i as usize)),
{
    let mut i: usize = 0;
    assert(registry.devices@.subrange(0, registry.devices@.len() as int) =~= registry.devices@);
    while i < disks.len()
        invariant
            0 <= i <= disks@.len(),
            disks@.len() <= 4,
            grows(old(registry).devices@, registry.devices@),
            forall|k: int| 0 <= k < i ==> has_node(registry.devices@, #[trigger] spec_disk_name(k as usize)),
        decreases disks@.len() - i,
    {
        let name = disk_name(i);
        let ghost before = registry.devices@;
        register_block_kept(registry, name.as_slice(), disks[i].0);
        proof {
            lemma_grows_trans(old(registry).devices@, before, registry.devices@);
            assert forall|k: int| 0 <= k < i + 1 implies has_node(registry.devices@, #[trigger] spec_disk_name(k as usize)) by {
                if k < i {
                    lemma_node_grows(before, registry.devices@, spec_disk_name(k as usize));
                }
            }
        }
        i = i + 1;
    }
}

/// `e` mounts the filesystem found on some disk `i` at `/mnt/<disk name i>`.
pub open spec fn disk_mount_entry(disks: Seq<(usize, Option<ProbedFs>)>, e: (Vec<u8>, ProbedFs, Result<u8, MountError>)) -> bool {
    exists|i: int| 0 <= i < disks.len() && #[trigger] disks[i].1 == Some(e.1) && e.0@ == mnt_point(spec_disk_name(i as usize))
}

/// Mount every disk probing found a filesystem on at `/mnt/<disk name>`.
fn mount_disks(vfs: &mut VfsTable, disks: Vec<(usize, Option<ProbedFs>)>) -> (r: Vec<(Vec<u8>, ProbedFs, Result<u8, MountError>)>)
    requires
        disks@.len() <= 4,
    ensures
        grows(old(vfs).mounts@, final(vfs).mounts@),
        final(vfs).has_root == old(vfs).has_root,
        forall|j: int| 0 <= j < r@.len() ==> disk_mount_entry(disks@, #[trigger] r@[j]),
        r@.len() == somes(disks@).len(),
        forall|j: int| 0 <= j < r@.len() ==> (#[trigger] r@[j]).1 == somes(disks@)[j],
        forall|j: int| 0 <= j < r@.len() ==> mounted_or_full(final(vfs).mounts@, (#[trigger] r@[j]).0@, r@[j].2),
{
    let ghost orig = disks@;
    let mut rest = disks;
    let mut out: Vec<(Vec<u8>, ProbedFs, Result<u8, MountError>)> = Vec::new();
    let mut i: usize = 0;
    assert(vfs.mounts@.subrange(0, vfs.mounts@.len() as int) =~= vfs.mounts@);
    while rest.len() > 0
        invariant
            0 <= i <= orig.len(),
            orig.len() <= 4,
            rest@ == orig.subrange(i as int, orig.len() as int),
            grows(old(vfs).mounts@, vfs.mounts@),
            vfs.has_root == old(vfs).has_root,
            forall|j: int| 0 <= j < out@.len() ==> disk_mount_entry(orig, #[trigger] out@[j]),
            out@.len() == somes(orig.subrange(0, i as int)).len(),
            forall|j: int| 0 <= j < out@.len() ==> (#[trigger] out@[j]).1 == somes(orig.subrange(0, i as int))[j],
            forall|j: int| 0 <= j < out@.len() ==> mounted_or_full(vfs.mounts@, (#[trigger] out@[j]).0@, out@[j].2),
        decreases rest@.len(),
    {
        proof {
            assert(orig.subrange(0, i + 1).drop_last() =~= orig.subrange(0, i as int));
        }
        let (_handle, probe) = rest.remove(0);
        proof {
            assert(orig[i as int].1 == probe);
            assert(rest@ =~= orig.subrange(i + 1, orig.len() as int));
        }
        match probe {
            Some(p) => {
                let name = disk_name(i);
                let mp = mnt_path(name.as_slice());
                let ghost before = vfs.mounts@;
                let res = mount_point(vfs, mp.as_slice());
                proof {
                    lemma_grows_trans(old(vfs).mounts@, before, vfs.mounts@);
                }
                let ghost e = (mp, p, res);
                proof {
                    assert(orig[i as int].1 == Some(e.1));
                    assert(disk_mount_entry(orig, e));
                }
                let ghost prev = out@;
                out.push((mp, p, res));
                proof {
                    assert forall|j: int| 0 <= j < out@.len() implies disk_mount_entry(orig, #[trigger] out@[j]) by {
                        if j < out@.len() - 1 {
                            assert(out@[j] == prev[j]);
                        } else {
                            assert(out@[j] == e);
                        }
                    }
                    assert forall|j: int| 0 <= j < out@.len() implies mounted_or_full(vfs.mounts@, (#[trigger] out@[j]).0@, out@[j].2) by {
                        if j < out@.len() - 1 {
                            assert(out@[j] == prev[j]);
                            lemma_full_grows(before, vfs.mounts@, prev[j].0@, prev[j].2);
                        } else {
                            assert(out@[j] == e);
                        }
                    }
                }
            },
            None => {},
        }
        i = i + 1;
    }
    proof {
        assert(orig.subrange(0, orig.len() as int) =~= orig);
    }
    out
}

/// The filesystems probing found, in disk order.
fn collect_probes(disks: Vec<(usize, Option<ProbedFs>)>) -> (r: Vec<ProbedFs>)
    ensures
        r@ == somes(disks@),
{
    let n = disks.len();
    let ghost orig = disks@;
    let mut rest = disks;
    let mut probed: Vec<ProbedFs> = Vec::new();
    let mut i: usize = 0;
    while rest.len() > 0
        invariant
            0 <= i <= orig.len(),
            orig.len() == n,
            rest@.len() + i == orig.len(),
            rest@ == orig.subrange(i as int, orig.len() as int),
            probed@ == somes(orig.subrange(0, i as int)),
        decreases rest@.len(),
    {
        proof {
            assert(orig.subrange(0, i + 1).drop_last() =~= orig.subrange(0, i as int));
        }
        assert(i < orig.len());
        let (_handle, probe) = rest.remove(0);
        proof {
            assert(orig[i as int].1 == probe);
            assert(rest@ =~= orig.subrange(i + 1, orig.len() as int));
        }
        match probe {
            Some(p) => {
                probed.push(p);
            },
            None => {},
        }
        i = i + 1;
    }
    proof {
        assert(orig.subrange(0, orig.len() as int) =~= orig);
    }
    probed
}

/// Mount each planned filesystem at its mount point.
fn mount_others(vfs: &mut VfsTable, others: Vec<(Vec<u8>, ProbedFs)>) -> (r: Vec<(Vec<u8>, ProbedFs, Result<u8, MountError>)>)
    requires
        forall|j: int| 0 <= j < others@.len() ==> (#[trigger] others@[j]).0@ == mnt_point(others@[j].1.name@),
    ensures
        forall|j: int| 0 <= j < r@.len() ==> mounted_or_full(final(vfs).mounts@, (#[trigger] r@[j]).0@, r@[j].2),
        grows(old(vfs).mounts@, final(vfs).mounts@),
        final(vfs).has_root == old(vfs).has_root,
        r@.len() == others@.len(),
        forall|j: int| 0 <= j < r@.len() ==> (#[trigger] r@[j]).0@ == others@[j].0@ && r@[j].1 == others@[j].1,
{
    let ghost v0 = vfs.mounts@;
    let ghost orig = others@;
    assert(v0.subrange(0, v0.len() as int) =~= v0);
    let mut extra: Vec<(Vec<u8>, ProbedFs, Result<u8, MountError>)> = Vec::new();
    let mut others = others;
    while others.len() > 0
        invariant
            grows(v0, vfs.mounts@),
            v0 == old(vfs).mounts@,
            vfs.has_root == old(vfs).has_root,
            extra@.len() + others@.len() == orig.len(),
            others@ == orig.subrange(extra@.len() as int, orig.len() as int),
            forall|j: int| 0 <= j < extra@.len() ==> (#[trigger] extra@[j]).0@ == orig[j].0@ && extra@[j].1 == orig[j].1,
            forall|j: int| 0 <= j < orig.len() ==> (#[trigger] orig[j]).0@ == mnt_point(orig[j].1.name@),
            forall|j: int| 0 <= j < extra@.len() ==> mounted_or_full(vfs.mounts@, (#[trigger] extra@[j]).0@, extra@[j].2),
        decreases others@.len(),
    {
        let ghost k: int = extra@.len() as int;
        let (mp, p) = others.remove(0);
        proof {
            assert(orig[k].0 == mp && orig[k].1 == p);
            assert(others@ =~= orig.subrange(k + 1, orig.len() as int));
            assert(mp@ == mnt_point(p.name@));
            assert(mp@[0] == 0x2Fu8);
        }
        let ghost before = vfs.mounts@;
        let res = if mp.len() > 0 && mp[0] == 0x2F {
            mount_point(vfs, mp.as_slice())
        } else {
            Err(MountError::NotAbsolute)
        };
        proof {
            if !(mp@.len() > 0 && mp@[0] == 0x2Fu8) {
                assert(vfs.mounts@.subrange(0, before.len() as int) =~= vfs.mounts@);
            }
            lemma_grows_trans(v0, before, vfs.mounts@);
        }
        let ghost prev = extra@;
        let ghost e = (mp, p, res);
        extra.push((mp, p, res));
        proof {
            assert forall|j: int| 0 <= j < extra@.len() implies mounted_or_full(vfs.mounts@, (#[trigger] extra@[j]).0@, extra@[j].2) by {
                if j < extra@.len() - 1 {
                    assert(extra@[j] == prev[j]);
                    lemma_full_grows(before, vfs.mounts@, prev[j].0@, prev[j].2);
                } else {
                    assert(extra@[j] == e);
                }
            }
        }
    }
    extra
}

#[verifier::rlimit(50)]
/// The ATA-disk part of [`init_rootfs`]: the disks are published in
/// `registry`; the root and the `/mnt` mounts follow [`plan_disk_mounts`].
fn disk_root(vfs: &mut VfsTable, registry: &mut DeviceRegistry, disks: Vec<(usize, Option<ProbedFs>)>) -> (r: Option<RootfsSetup>)
    requires
        disks@.len() <= 4,
    ensures
        (r is Some) == any_userspace(somes(disks@)),
        grows(old(registry).devices@, final(registry).devices@),
        r is None ==> final(vfs).mounts@ == old(vfs).mounts@ && final(vfs).has_root == old(vfs).has_root,
        r matches Some(s) ==> {
            &&& final(vfs).has_root
            &&& grows(old(vfs).mounts@, final(vfs).mounts@)
            &&& s.root == somes(disks@)[spec_pick_root(somes(disks@))]
            &&& forall|i: int| 0 <= i < disks@.len() ==> has_node(final(registry).devices@, #[trigger] spec_disk_name(i as usize))
            &&& mounted_or_full(final(vfs).mounts@, dev_point(), s.dev_mount)
            &&& mounted_or_full(final(vfs).mounts@, proc_point(), s.proc_mount)
            &&& disk_extras(somes(disks@), s.extra@)
            &&& forall|j: int| 0 <= j < s.extra@.len() ==> mounted_or_full(final(vfs).mounts@, (#[trigger] s.extra@[j]).0@, s.extra@[j].2)
        },
{
    if disks.len() == 0 {
        proof {
            assert(somes(disks@) =~= Seq::<ProbedFs>::empty());
            assert(registry.devices@.subrange(0, registry.devices@.len() as int) =~= registry.devices@);
        }
        return None;
    }
    register_disks(registry, &disks);
    let ghost d0 = disks@;
    let probed = collect_probes(disks);
    let ghost pd = probed@;
    assert(pd == somes(d0));
    let plan = plan_disk_mounts(probed);
    match plan {
        None => None,
        Some((root, others)) => {
            vfs.set_root();
            proof {
                assert(root == pd[spec_pick_root(pd)]);
            }
            let ghost v0 = vfs.mounts@;
            let extra = mount_others(vfs, others);
            let ghost v1 = vfs.mounts@;
            let (dev_mount, proc_mount) = mount_dev_proc(vfs);
            proof {
                assert(old(vfs).mounts@ == v0);
                lemma_grows_trans(v0, v1, vfs.mounts@);
                assert forall|j: int| 0 <= j < extra@.len() implies mounted_or_full(vfs.mounts@, (#[trigger] extra@[j]).0@, extra@[j].2) by {
                    lemma_full_grows(v1, vfs.mounts@, extra@[j].0@, extra@[j].2);
                }
            }
            Some(RootfsSetup { devfs: DevFS::new(), root, extra, dev_mount, proc_mount })
        },
    }
}

/// Mount `/dev` and then `/proc`.
fn mount_dev_proc(vfs: &mut VfsTable) -> (r: (Result<u8, MountError>, Result<u8, MountError>))
    ensures
        grows(old(vfs).mounts@, final(vfs).mounts@),
        final(vfs).has_root == old(vfs).has_root,
        mounted_or_full(final(vfs).mounts@, dev_point(), r.0),
        mounted_or_full(final(vfs).mounts@, proc_point(), r.1),
{
    let dev: Vec<u8> = vec![0x2F, 0x64, 0x65, 0x76];
    let procp: Vec<u8> = vec![0x2F, 0x70, 0x72, 0x6F, 0x63];
    assert(dev@ =~= dev_point());
    assert(procp@ =~= proc_point());
    let dev_mount = mount_point(vfs, dev.as_slice());
    let ghost v2 = vfs.mounts@;
    let proc_mount = mount_point(vfs, procp.as_slice());
    proof {
        lemma_grows_trans(old(vfs).mounts@, v2, vfs.mounts@);
        lemma_full_grows(v2, vfs.mounts@, dev_point(), dev_mount);
    }
    (dev_mount, proc_mount)
}

/// Set up the root filesystem. `ramdisk` is the bootloader's ramdisk (its
/// device handle and what probing it found), when the bootloader left one;
/// `disks` are the ATA disks in order, each with its device handle and what
/// probing it found. The ramdisk is the root when it holds a userspace (the
/// disks are then mounted under `/mnt`); otherwise the disks decide, as
/// [`plan_disk_mounts`] says. `None` when neither has a userspace. The
/// device nodes (`null`, `zero`, `ram0`, one per disk) are published in
/// `registry`, which keeps what it held.
#[verifier::spinoff_prover]
#[verifier::rlimit(60)]
pub fn init_rootfs(
    vfs: &mut VfsTable,
    registry: &mut DeviceRegistry,
    ramdisk: Option<(usize, Option<ProbedFs>)>,
    disks: Vec<(usize, Option<ProbedFs>)>,
) -> (r: Option<RootfsSetup>)
    requires
        disks@.len() <= 4,
    ensures
        (r is Some) == (ram_root(ramdisk) || any_userspace(somes(disks@))),
        grows(old(registry).devices@, final(registry).devices@),
        r is None ==> final(vfs).mounts@ == old(vfs).mounts@ && final(vfs).has_root == old(vfs).has_root,
        r matches Some(s) ==> {
            &&& final(vfs).has_root
            &&& grows(old(vfs).mounts@, final(vfs).mounts@)
            &&& ram_root(ramdisk) ==> s.root == ramdisk->Some_0.1->Some_0
            &&& !ram_root(ramdisk) ==> s.root == somes(disks@)[spec_pick_root(somes(disks@))]
            &&& has_node(final(registry).devices@, null_name()) && has_node(final(registry).devices@, zero_name())
            &&& ramdisk is Some ==> has_node(final(registry).devices@, ram0_name())
            &&& forall|i: int| 0 <= i < disks@.len() ==> has_node(final(registry).devices@, #[trigger] spec_disk_name(i as usize))
            &&& mounted_or_full(final(vfs).mounts@, dev_point(), s.dev_mount)
            &&& mounted_or_full(final(vfs).mounts@, proc_point(), s.proc_mount)
            &&& forall|j: int| 0 <= j < s.extra@.len() ==> mounted_or_full(final(vfs).mounts@, (#[trigger] s.extra@[j]).0@, s.extra@[j].2)
            &&& ram_root(ramdisk) ==> {
                &&& s.extra@.len() == somes(disks@).len()
                &&& forall|j: int| 0 <= j < s.extra@.len() ==> (#[trigger] s.extra@[j]).1 == somes(disks@)[j]
                    && disk_mount_entry(disks@, s.extra@[j])
            }
            &&& !ram_root(ramdisk) ==> disk_extras(somes(disks@), s.extra@)
        },
{
    let ghost d0 = registry.devices@;
    let null: Vec<u8> = vec![0x6E, 0x75, 0x6C, 0x6C];
    let zero: Vec<u8> = vec![0x7A, 0x65, 0x72, 0x6F];
    assert(null@ =~= null_name());
    assert(zero@ =~= zero_name());
    register_char_kept(registry, null.as_slice(), NULL_DEVICE);
    let ghost d1 = registry.devices@;
    register_char_kept(registry, zero.as_slice(), ZERO_DEVICE);
    proof {
        lemma_node_grows(d1, registry.devices@, null_name());
        lemma_grows_trans(d0, d1, registry.devices@);
    }
    let ghost d2 = registry.devices@;
    let ram_present = ramdisk.is_some();
    match ramdisk {
        Some((handle, probe)) => {
            let ram0: Vec<u8> = vec![0x72, 0x61, 0x6D, 0x30];
            assert(ram0@ =~= ram0_name());
            register_block_kept(registry, ram0.as_slice(), handle);
            proof {
                lemma_node_grows(d2, registry.devices@, null_name());
                lemma_node_grows(d2, registry.devices@, zero_name());
                lemma_grows_trans(d0, d2, registry.devices@);
            }
            match probe {
                Some(root) => {
                    if root.has_userspace {
                        vfs.set_root();
                        let ghost d3 = registry.devices@;
                        register_disks(registry, &disks);
                        proof {
                            lemma_node_grows(d3, registry.devices@, null_name());
                            lemma_node_grows(d3, registry.devices@, zero_name());
                            lemma_node_grows(d3, registry.devices@, ram0_name());
                            lemma_grows_trans(d0, d3, registry.devices@);
                        }
                        let ghost v0 = vfs.mounts@;
                        let extra = mount_disks(vfs, disks);
                        let ghost v1 = vfs.mounts@;
                        let (dev_mount, proc_mount) = mount_dev_proc(vfs);
                        proof {
                            lemma_grows_trans(old(vfs).mounts@, v1, vfs.mounts@);
                            assert forall|j: int| 0 <= j < extra@.len() implies mounted_or_full(vfs.mounts@, (#[trigger] extra@[j]).0@, extra@[j].2) by {
                                lemma_full_grows(v1, vfs.mounts@, extra@[j].0@, extra@[j].2);
                            }
                        }
                        return Some(RootfsSetup { devfs: DevFS::new(), root, extra, dev_mount, proc_mount });
                    }
                },
                None => {},
            }
        },
        None => {},
    }
    let ghost d4 = registry.devices@;
    assert(grows(d0, d4));
    let r = disk_root(vfs, registry, disks);
    proof {
        lemma_grows_trans(d0, d4, registry.devices@);
        if r is Some {
            let nd = registry.devices@;
            lemma_node_grows(d4, nd, null_name());
            lemma_node_grows(d4, nd, zero_name());
            if ram_present {
                lemma_node_grows(d4, nd, ram0_name());
            }
        }
    }
    r
}

/// The name a CompactFlash card gets in the device registry.
pub open spec fn pcmcia_name() -> Seq<u8> {
    seq![0x70u8, 0x63u8, 0x6Du8, 0x63u8, 0x69u8, 0x61u8, 0x30u8]
}

/// The prefix of its mount points: `/mnt/pcmcia<n>`.
pub open spec fn pcmcia_prefix() -> Seq<u8> {
    seq![0x70u8, 0x63u8, 0x6Du8, 0x63u8, 0x69u8, 0x61u8]
}

/// A CompactFlash card (device handle `handle`) was inserted: it replaces
/// any earlier `pcmcia0` node in the device `registry` and, when probing found
/// a filesystem on it (`probed`), is mounted at the first free
/// `/mnt/pcmcia<n>` and recorded as coming from `pcmcia0`. Returns the mount
/// point and filesystem id.
pub fn pcmcia_hotplug_device(vfs: &mut VfsTable, registry: &mut DeviceRegistry, devices: &mut DeviceMounts, handle: usize, probed: bool)
    -> (r: Option<(Vec<u8>, u8)>)
    ensures
        final(registry).devices@.drop_last() == old(registry).devices@.filter(node_not_named(pcmcia_name())),
        final(registry).devices@.len() > 0,
        final(registry).devices@.last().name@ == pcmcia_name(),
        final(registry).devices@.last().dev_type == DeviceType::Block(handle),
        !probed ==> r is None,
        r is None ==> final(vfs).mounts@ == old(vfs).mounts@ && final(devices).entries@ == old(devices).entries@,
        r matches Some((p, id)) ==> exists|i: nat| {
            &&& p@ == #[trigger] removable_point(pcmcia_prefix(), i)
            &&& !mounted_at(old(vfs).mounts@, p@)
            &&& forall|j: nat| j < i ==> mounted_at(old(vfs).mounts@, #[trigger] removable_point(pcmcia_prefix(), j))
            &&& final(vfs).mounts@.drop_last() == old(vfs).mounts@
            &&& final(vfs).mounts@.last().point@ == p@
            &&& final(vfs).mounts@.last().fs_id == id
        },
        probed && !all_ids_used(old(vfs).mounts@) ==> r is Some,
{
    let name: Vec<u8> = vec![0x70, 0x63, 0x6D, 0x63, 0x69, 0x61, 0x30];
    let prefix: Vec<u8> = vec![0x70, 0x63, 0x6D, 0x63, 0x69, 0x61];
    assert(name@ =~= pcmcia_name());
    assert(prefix@ =~= pcmcia_prefix());
    let _ = DevFS::unregister(registry, name.as_slice());
    let ghost cleared = registry.devices@;
    let _ = DevFS::register_block_global(registry, name.as_slice(), handle);
    proof {
        assert(!has_node(cleared, pcmcia_name()));
    }
    let (index, point) = free_removable_index(vfs, prefix.as_slice());
    proof {
        assert(point@.len() > 0 && point@[0] == 0x2Fu8);
    }
    let r = mount_removable_named(vfs, devices, point.as_slice(), name.as_slice(), probed);
    proof {
        if r is Some {
            assert(removable_point(pcmcia_prefix(), index as nat) == point@);
        }
    }
    r
}

} // verus!
