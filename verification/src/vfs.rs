//! The VFS mount namespace: which filesystem serves a path, the global inode
//! encoding, and the directories implied by mount points.
//!
//! Paths are byte strings. Filesystem objects themselves are held by the
//! caller and named here by their 8-bit filesystem id (0 is the root).
use vstd::prelude::*;
use crate::bytes::{SLASH, is_prefix, starts_with, slice_to_vec};
use crate::util::lemma_filter_prefix_step;

verus! {

#[derive(Debug, Clone)]
pub struct DirEntry {
    pub inode: u32,
    /// UTF-8 bytes of the entry name.
    pub name: Vec<u8>,
    /// 1 = regular file, 2 = directory, 3 = block device, 4 = char device.
    pub file_type: u8,
    /// File size (0 for directories).
    pub size: u32,
}

#[derive(Debug, Clone, Copy, PartialEq, Eq, Structural)]
pub struct Metadata {
    pub inode: u32,
    pub mode: u32,
    pub nlink: u32,
    pub uid: u32,
    pub gid: u32,
    pub rdev: u64,
    pub size: u64,
    pub blksize: u32,
    pub blocks: u64,
    pub atime: u32,
    pub mtime: u32,
    pub ctime: u32,
}

impl Metadata {
    /// All fields zero.
    pub fn zeroed() -> (r: Self)
        ensures
            r == (Metadata { inode: 0, mode: 0, nlink: 0, uid: 0, gid: 0, rdev: 0, size: 0, blksize: 0, blocks: 0, atime: 0, mtime: 0, ctime: 0 }),
    {
        Metadata { inode: 0, mode: 0, nlink: 0, uid: 0, gid: 0, rdev: 0, size: 0, blksize: 0, blocks: 0, atime: 0, mtime: 0, ctime: 0 }
    }
}

#[derive(Debug, Clone, Copy, PartialEq, Eq, Structural)]
pub enum RenameError {
    NotFound,
    Exists,
    CrossDevice,
    Unsupported,
}

/// Why a mount request was refused.
#[derive(Debug, Clone, Copy, PartialEq, Eq, Structural)]
pub enum MountError {
    /// The mount point does not start with `/`.
    NotAbsolute,
    /// Something is already mounted there.
    AlreadyMounted,
    /// All 255 filesystem ids are in use.
    NoFreeId,
}

pub struct Mount {
    pub point: Vec<u8>,
    pub fs_id: u8,
}

pub open spec fn root_path() -> Seq<u8> {
    seq![SLASH]
}

/// Strip trailing slashes.
pub open spec fn trim_end_slashes(s: Seq<u8>) -> Seq<u8>
    decreases s.len(),
{
    if s.len() > 0 && s.last() == SLASH {
        trim_end_slashes(s.drop_last())
    } else {
        s
    }
}

/// Directory path without trailing slashes; the root stays `/`.
pub open spec fn spec_normalize_dir_path(p: Seq<u8>) -> Seq<u8> {
    if p.len() == 0 || p == root_path() || trim_end_slashes(p).len() == 0 {
        root_path()
    } else {
        trim_end_slashes(p)
    }
}

/// Mount point `mp` covers `path`: `/dev` covers `/dev` and `/dev/sda` but
/// not `/devfoo`; `/` covers everything.
pub open spec fn spec_is_mount_prefix(path: Seq<u8>, mp: Seq<u8>) -> bool {
    mp == root_path() || path == mp || (is_prefix(mp, path) && path.len() > mp.len() && path[mp.len() as int] == SLASH)
}

pub fn normalize_dir_path(path: &[u8]) -> (r: Vec<u8>)
    ensures
        r@ == spec_normalize_dir_path(path@),
{
    if path.len() == 0 || (path.len() == 1 && path[0] == SLASH) {
        proof {
            if path@.len() == 1 {
                assert(path@ =~= root_path());
            }
        }
        return vec![SLASH];
    }
    let mut end = path.len();
    assert(path@.subrange(0, end as int) =~= path@);
    while end > 0 && path[end - 1] == SLASH
        invariant
            0 <= end <= path@.len(),
            trim_end_slashes(path@) == trim_end_slashes(path@.subrange(0, end as int)),
        decreases end,
    {
        proof {
            assert(path@.subrange(0, end as int).drop_last() =~= path@.subrange(0, end - 1));
        }
        end = end - 1;
    }
    proof {
        assert(trim_end_slashes(path@.subrange(0, end as int)) == path@.subrange(0, end as int));
    }
    if end == 0 {
        return vec![SLASH];
    }
    slice_to_vec(path, 0, end)
}

/// Byte-string equality.
pub fn same_path(a: &[u8], b: &[u8]) -> (r: bool)
    ensures
        r == (a@ == b@),
{
    crate::util::bytes_eq(a, b)
}

fn is_root(p: &[u8]) -> (r: bool)
    ensures
        r == (p@ == root_path()),
{
    if p.len() == 1 && p[0] == SLASH {
        assert(p@ =~= root_path());
        true
    } else {
        false
    }
}

pub fn is_mount_prefix(path: &[u8], mp: &[u8]) -> (r: bool)
    ensures
        r == spec_is_mount_prefix(path@, mp@),
{
    if is_root(mp) {
        return true;
    }
    if same_path(path, mp) {
        return true;
    }
    starts_with(path, mp) && path.len() > mp.len() && path[mp.len()] == SLASH
}

/// Index of the mount that serves `path`: the longest covering mount point
/// longer than `/`, the first one among equals.
pub open spec fn best_mount(ms: Seq<Mount>, path: Seq<u8>) -> Option<int>
    decreases ms.len(),
{
    if ms.len() == 0 {
        None
    } else {
        let b = best_mount(ms.drop_last(), path);
        let blen = match b {
            Some(i) => ms[i].point@.len(),
            None => 1,
        };
        let m = ms.last();
        if spec_is_mount_prefix(path, m.point@) && m.point@.len() > blen {
            Some(ms.len() - 1)
        } else {
            b
        }
    }
}

pub open spec fn prefix_len(ms: Seq<Mount>, b: Option<int>) -> int {
    match b {
        Some(i) => ms[i].point@.len() as int,
        None => 1,
    }
}

/// Path handed to the serving filesystem once its mount prefix is removed.
pub open spec fn spec_relative(path: Seq<u8>, prefix: Seq<u8>) -> Seq<u8> {
    if path == prefix {
        root_path()
    } else if is_prefix(prefix, path) && prefix != root_path() {
        path.subrange(prefix.len() as int, path.len() as int)
    } else {
        path
    }
}

pub open spec fn spec_resolve(ms: Seq<Mount>, path: Seq<u8>) -> (u8, Seq<u8>) {
    let p = if path.len() == 0 { root_path() } else { path };
    match best_mount(ms, p) {
        Some(i) => (ms[i].fs_id, spec_relative(p, ms[i].point@)),
        None => (0u8, spec_relative(p, root_path())),
    }
}

/// The best mount covers the path, and no mount point that covers the
/// path is longer than the one chosen (or than `/` when none is chosen).
pub proof fn law_resolve_picks_longest_prefix(ms: Seq<Mount>, path: Seq<u8>)
    ensures
        best_mount(ms, path) matches Some(i) ==> 0 <= i < ms.len() && spec_is_mount_prefix(path, ms[i].point@)
            && ms[i].point@.len() > 1,
        forall|j: int| 0 <= j < ms.len() && spec_is_mount_prefix(path, #[trigger] ms[j].point@) ==> ms[j].point@.len()
            <= prefix_len(ms, best_mount(ms, path)),
    decreases ms.len(),
{
    if ms.len() > 0 {
        let pre = ms.drop_last();
        law_resolve_picks_longest_prefix(pre, path);
        let b = best_mount(pre, path);
        assert forall|j: int| 0 <= j < ms.len() && spec_is_mount_prefix(path, #[trigger] ms[j].point@) implies ms[j].point@.len()
            <= prefix_len(ms, best_mount(ms, path)) by {
            if j < ms.len() - 1 {
                assert(pre[j] == ms[j]);
                assert(ms[j].point@.len() <= prefix_len(pre, b));
                if let Some(i) = b {
                    assert(pre[i] == ms[i]);
                }
            }
        }
        if let Some(i) = b {
            assert(pre[i] == ms[i]);
        }
    }
}

/// The mount namespace: whether a root is set, the mounts, the id
/// allocator and the mount-point registry that /proc/mounts reports.
pub struct VfsTable {
    pub has_root: bool,
    pub mounts: Vec<Mount>,
    pub next_fs_id: u8,
    pub registry: Vec<Vec<u8>>,
}

/// Some mount uses id `id`.
pub open spec fn id_in_use(ms: Seq<Mount>, id: u8) -> bool {
    exists|i: int| 0 <= i < ms.len() && (#[trigger] ms[i]).fs_id == id
}

/// Some mount sits exactly at `p`.
pub open spec fn mounted_at(ms: Seq<Mount>, p: Seq<u8>) -> bool {
    exists|i: int| 0 <= i < ms.len() && (#[trigger] ms[i]).point@ == p
}

/// Mounts not sitting exactly at `p`.
pub open spec fn mount_not_at(p: Seq<u8>) -> spec_fn(Mount) -> bool {
    |m: Mount| m.point@ != p
}

/// Paths other than `p`.
pub open spec fn path_not(p: Seq<u8>) -> spec_fn(Vec<u8>) -> bool {
    |v: Vec<u8>| v@ != p
}

pub open spec fn in_registry(reg: Seq<Vec<u8>>, p: Seq<u8>) -> bool {
    exists|i: int| 0 <= i < reg.len() && (#[trigger] reg[i])@ == p
}

impl VfsTable {
    pub fn new() -> (r: Self)
        ensures
            !r.has_root,
            r.mounts@.len() == 0,
            r.next_fs_id == 1,
            r.registry@.len() == 0,
    {
        VfsTable { has_root: false, mounts: Vec::new(), next_fs_id: 1, registry: Vec::new() }
    }

    fn registry_contains(&self, p: &[u8]) -> (r: bool)
        ensures
            r == in_registry(self.registry@, p@),
    {
        let mut i: usize = 0;
        while i < self.registry.len()
            invariant
                0 <= i <= self.registry@.len(),
                forall|j: int| 0 <= j < i ==> (#[trigger] self.registry@[j])@ != p@,
            decreases self.registry@.len() - i,
        {
            if same_path(self.registry[i].as_slice(), p) {
                return true;
            }
            i = i + 1;
        }
        false
    }

    /// Install the root filesystem (id 0) and record `/` in the registry.
    pub fn set_root(&mut self)
        ensures
            final(self).has_root,
            final(self).mounts@ == old(self).mounts@,
            final(self).next_fs_id == old(self).next_fs_id,
            in_registry(final(self).registry@, root_path()),
            forall|p: Seq<u8>| in_registry(old(self).registry@, p) ==> in_registry(final(self).registry@, p),
    {
        self.has_root = true;
        let root: Vec<u8> = vec![SLASH];
        assert(root@ =~= root_path());
        if !self.registry_contains(root.as_slice()) {
            self.registry.push(root);
            proof {
                let n = self.registry@.len() - 1;
                assert(self.registry@[n]@ == root_path());
                assert forall|p: Seq<u8>| in_registry(old(self).registry@, p) implies in_registry(self.registry@, p) by {
                    let k = choose|k: int| 0 <= k < old(self).registry@.len() && (#[trigger] old(self).registry@[k])@ == p;
                    assert(self.registry@[k] == old(self).registry@[k]);
                }
            }
        }
    }

    pub fn is_mounted_at(&self, mount_point: &[u8]) -> (r: bool)
        ensures
            r == mounted_at(self.mounts@, mount_point@),
    {
        let mut i: usize = 0;
        while i < self.mounts.len()
            invariant
                0 <= i <= self.mounts@.len(),
                forall|j: int| 0 <= j < i ==> (#[trigger] self.mounts@[j]).point@ != mount_point@,
            decreases self.mounts@.len() - i,
        {
            if same_path(self.mounts[i].point.as_slice(), mount_point) {
                return true;
            }
            i = i + 1;
        }
        false
    }

    fn id_taken(&self, id: u8) -> (r: bool)
        ensures
            r == id_in_use(self.mounts@, id),
    {
        let mut i: usize = 0;
        while i < self.mounts.len()
            invariant
                0 <= i <= self.mounts@.len(),
                forall|j: int| 0 <= j < i ==> (#[trigger] self.mounts@[j]).fs_id != id,
            decreases self.mounts@.len() - i,
        {
            if self.mounts[i].fs_id == id {
                return true;
            }
            i = i + 1;
        }
        false
    }

    /// Next free filesystem id, scanning at most 255 candidates from
    /// `next_fs_id` (0 is skipped: it names the root).
    pub fn alloc_mount_id(&mut self) -> (r: Option<u8>)
        ensures
            final(self).mounts@ == old(self).mounts@,
            final(self).has_root == old(self).has_root,
            final(self).registry@ == old(self).registry@,
            r matches Some(id) ==> id != 0 && !id_in_use(old(self).mounts@, id),
            r is None ==> forall|id: u8| id != 0 ==> #[trigger] id_in_use(old(self).mounts@, id),
    {
        let mut tries: u32 = 0;
        let ghost mut tried: Set<u8> = Set::empty();
        while tries < 255
            invariant
                self.mounts@ == old(self).mounts@,
                self.has_root == old(self).has_root,
                self.registry@ == old(self).registry@,
                tries <= 255,
                forall|id: u8| #[trigger] tried.contains(id) ==> id != 0 && id_in_use(self.mounts@, id),
                tried.len() == tries,
                tried.finite(),
                forall|k: int| 0 <= k < tries ==> tried.contains(
                    (#[trigger] spec_mount_candidate(old(self).next_fs_id, k)) as u8),
                forall|id: u8| tried.contains(id) ==> exists|k: int| 0 <= k < tries && #[trigger] spec_mount_candidate(old(self).next_fs_id, k) == id,
                self.next_fs_id == spec_next_after(old(self).next_fs_id, tries as int),
            decreases 255 - tries,
        {
            let id = if self.next_fs_id == 0 { 1u8 } else { self.next_fs_id };
            self.next_fs_id = id.wrapping_add(1);
            proof {
                lemma_mount_candidate_step(old(self).next_fs_id, tries as int);
            }
            if !self.id_taken(id) {
                return Some(id);
            }
            proof {
                lemma_candidates_distinct(old(self).next_fs_id, tries as int);
                tried = tried.insert(id);
            }
            tries = tries + 1;
        }
        proof {
            assert forall|id: u8| id != 0 implies #[trigger] id_in_use(old(self).mounts@, id) by {
                lemma_candidates_cover(old(self).next_fs_id, id);
                let k = choose|k: int| 0 <= k < 255 && spec_mount_candidate(old(self).next_fs_id, k) == id;
                assert(tried.contains(spec_mount_candidate(old(self).next_fs_id, k) as u8));
            }
        }
        None
    }

    /// Mount filesystem at `mount_point`; returns the id under which the
    /// caller keeps the filesystem object.
    pub fn mount(&mut self, mount_point: &[u8]) -> (r: Result<u8, MountError>)
        ensures
            final(self).has_root == old(self).has_root,
            !(mount_point@.len() > 0 && mount_point@[0] == SLASH) ==> r == Err::<u8, MountError>(MountError::NotAbsolute),
            mount_point@.len() > 0 && mount_point@[0] == SLASH && mounted_at(old(self).mounts@, mount_point@)
                ==> r == Err::<u8, MountError>(MountError::AlreadyMounted),
            r is Err ==> final(self).mounts@ == old(self).mounts@ && final(self).registry@ == old(self).registry@,
            mount_point@.len() > 0 && mount_point@[0] == SLASH && !mounted_at(old(self).mounts@, mount_point@) && r is Err
                ==> r == Err::<u8, MountError>(MountError::NoFreeId),
            r matches Err(e) && e == MountError::NoFreeId ==> forall|id: u8| id != 0 ==> #[trigger] id_in_use(old(self).mounts@, id),
            r matches Ok(id) ==> {
                &&& id != 0
                &&& !id_in_use(old(self).mounts@, id)
                &&& final(self).mounts@.len() == old(self).mounts@.len() + 1
                &&& final(self).mounts@.drop_last() == old(self).mounts@
                &&& final(self).mounts@.last().point@ == mount_point@
                &&& final(self).mounts@.last().fs_id == id
                &&& in_registry(final(self).registry@, mount_point@)
            },
    {
        if mount_point.len() == 0 || mount_point[0] != SLASH {
            return Err(MountError::NotAbsolute);
        }
        if self.is_mounted_at(mount_point) {
            return Err(MountError::AlreadyMounted);
        }
        let ghost before_next = self.next_fs_id;
        let fs_id = match self.alloc_mount_id() {
            Some(id) => id,
            None => return Err(MountError::NoFreeId),
        };
        let point = slice_to_vec(mount_point, 0, mount_point.len());
        proof {
            assert(mount_point@.subrange(0, mount_point@.len() as int) =~= mount_point@);
        }
        self.mounts.push(Mount { point, fs_id });
        proof {
            assert(self.mounts@.drop_last() =~= old(self).mounts@);
        }
        if !self.registry_contains(mount_point) {
            let p2 = slice_to_vec(mount_point, 0, mount_point.len());
            self.registry.push(p2);
            proof {
                assert(self.registry@[self.registry@.len() - 1]@ == mount_point@);
            }
        }
        Ok(fs_id)
    }

    /// Remove every mount at `mount_point` (and its registry entries).
    pub fn unmount(&mut self, mount_point: &[u8]) -> (r: bool)
        ensures
            r == mounted_at(old(self).mounts@, mount_point@),
            final(self).mounts@ == old(self).mounts@.filter(mount_not_at(mount_point@)),
            !mounted_at(final(self).mounts@, mount_point@),
            final(self).has_root == old(self).has_root,
            final(self).next_fs_id == old(self).next_fs_id,
            r ==> final(self).registry@ == old(self).registry@.filter(path_not(mount_point@)),
            !r ==> final(self).registry@ == old(self).registry@,
    {
        let ghost om = self.mounts@;
        let ghost n: int = om.len() as int;
        let ghost mut j: int = 0;
        let mut removed = false;
        let mut i: usize = 0;
        while i < self.mounts.len()
            invariant
                0 <= i <= self.mounts@.len(),
                0 <= j <= n,
                om == old(self).mounts@,
                n == om.len(),
                self.mounts@.subrange(0, i as int) == om.subrange(0, j).filter(mount_not_at(mount_point@)),
                self.mounts@.subrange(i as int, self.mounts@.len() as int) == om.subrange(j, n),
                self.registry@ == old(self).registry@,
                self.has_root == old(self).has_root,
                self.next_fs_id == old(self).next_fs_id,
                removed == exists|k: int| 0 <= k < j && (#[trigger] om[k]).point@ == mount_point@,
            decreases self.mounts@.len() - i,
        {
            proof {
                assert(self.mounts@.subrange(i as int, self.mounts@.len() as int).len() > 0);
                assert(j < n);
                assert(self.mounts@[i as int] == self.mounts@.subrange(i as int, self.mounts@.len() as int)[0]);
                assert(om[j] == om.subrange(j, n)[0]);
                lemma_filter_prefix_step(om, j, mount_not_at(mount_point@));
            }
            if same_path(self.mounts[i].point.as_slice(), mount_point) {
                let ghost before = self.mounts@;
                self.mounts.remove(i);
                proof {
                    assert(self.mounts@.subrange(0, i as int) =~= before.subrange(0, i as int));
                    let tail = before.subrange(i as int, before.len() as int);
                    assert(self.mounts@.subrange(i as int, self.mounts@.len() as int) =~= tail.subrange(1, tail.len() as int));
                    assert(om.subrange(j + 1, n) =~= om.subrange(j, n).subrange(1, n - j));
                    j = j + 1;
                }
                removed = true;
            } else {
                proof {
                    assert(self.mounts@.subrange(0, i + 1) =~= self.mounts@.subrange(0, i as int).push(om[j]));
                    let tail = self.mounts@.subrange(i as int, self.mounts@.len() as int);
                    assert(self.mounts@.subrange(i + 1, self.mounts@.len() as int) =~= tail.subrange(1, tail.len() as int));
                    assert(om.subrange(j + 1, n) =~= om.subrange(j, n).subrange(1, n - j));
                    j = j + 1;
                }
                i = i + 1;
            }
        }
        proof {
            assert(om.subrange(j, n).len() == 0);
            assert(om.subrange(0, n) =~= om);
            assert(self.mounts@.subrange(0, i as int) =~= self.mounts@);
            assert forall|k: int| 0 <= k < self.mounts@.len() implies (#[trigger] self.mounts@[k]).point@ != mount_point@ by {
                om.lemma_filter_pred(mount_not_at(mount_point@), k);
            }
        }
        if removed {
            let ghost og = self.registry@;
            let ghost gn: int = og.len() as int;
            let ghost mut g: int = 0;
            let mut k: usize = 0;
            while k < self.registry.len()
                invariant
                    0 <= k <= self.registry@.len(),
                    0 <= g <= gn,
                    og == old(self).registry@,
                    gn == og.len(),
                    self.registry@.subrange(0, k as int) == og.subrange(0, g).filter(path_not(mount_point@)),
                    self.registry@.subrange(k as int, self.registry@.len() as int) == og.subrange(g, gn),
                    self.mounts@ == old(self).mounts@.filter(mount_not_at(mount_point@)),
                    !mounted_at(self.mounts@, mount_point@),
                    self.has_root == old(self).has_root,
                    self.next_fs_id == old(self).next_fs_id,
                decreases self.registry@.len() - k,
            {
                proof {
                    assert(self.registry@.subrange(k as int, self.registry@.len() as int).len() > 0);
                    assert(g < gn);
                    assert(self.registry@[k as int] == self.registry@.subrange(k as int, self.registry@.len() as int)[0]);
                    assert(og[g] == og.subrange(g, gn)[0]);
                    lemma_filter_prefix_step(og, g, path_not(mount_point@));
                }
                if same_path(self.registry[k].as_slice(), mount_point) {
                    let ghost before = self.registry@;
                    self.registry.remove(k);
                    proof {
                        assert(self.registry@.subrange(0, k as int) =~= before.subrange(0, k as int));
                        let tail = before.subrange(k as int, before.len() as int);
                        assert(self.registry@.subrange(k as int, self.registry@.len() as int) =~= tail.subrange(1, tail.len() as int));
                        assert(og.subrange(g + 1, gn) =~= og.subrange(g, gn).subrange(1, gn - g));
                        g = g + 1;
                    }
                } else {
                    proof {
                        assert(self.registry@.subrange(0, k + 1) =~= self.registry@.subrange(0, k as int).push(og[g]));
                        let tail = self.registry@.subrange(k as int, self.registry@.len() as int);
                        assert(self.registry@.subrange(k + 1, self.registry@.len() as int) =~= tail.subrange(1, tail.len() as int));
                        assert(og.subrange(g + 1, gn) =~= og.subrange(g, gn).subrange(1, gn - g));
                        g = g + 1;
                    }
                    k = k + 1;
                }
            }
            proof {
                assert(og.subrange(g, gn).len() == 0);
                assert(og.subrange(0, gn) =~= og);
                assert(self.registry@.subrange(0, k as int) =~= self.registry@);
            }
        }
        removed
    }

    /// Which filesystem serves `path`, and the path inside it.
    pub fn resolve(&self, path: &[u8]) -> (r: (u8, Vec<u8>))
        requires
            self.has_root,
        ensures
            r.0 == spec_resolve(self.mounts@, path@).0,
            r.1@ == spec_resolve(self.mounts@, path@).1,
    {
        let root: Vec<u8> = vec![SLASH];
        assert(root@ =~= root_path());
        let p: &[u8] = if path.len() == 0 { root.as_slice() } else { path };
        let ghost pp = p@;
        let mut best: Option<usize> = None;
        let mut best_len: usize = 1;
        let mut i: usize = 0;
        while i < self.mounts.len()
            invariant
                0 <= i <= self.mounts@.len(),
                p@ == pp,
                as_int_index(best) == best_mount(self.mounts@.subrange(0, i as int), pp),
                best_len as int == prefix_len(self.mounts@, best_mount(self.mounts@.subrange(0, i as int), pp)),
                best matches Some(b) ==> b < i,
            decreases self.mounts@.len() - i,
        {
            proof {
                let sub = self.mounts@.subrange(0, i as int + 1);
                assert(sub.drop_last() =~= self.mounts@.subrange(0, i as int));
                if let Some(b) = best_mount(self.mounts@.subrange(0, i as int), pp) {
                    assert(sub[b] == self.mounts@[b]);
                }
            }
            if is_mount_prefix(p, self.mounts[i].point.as_slice()) && self.mounts[i].point.len() > best_len {
                best = Some(i);
                best_len = self.mounts[i].point.len();
            }
            i = i + 1;
        }
        proof {
            assert(self.mounts@.subrange(0, self.mounts@.len() as int) =~= self.mounts@);
        }
        let (id, prefix): (u8, &[u8]) = match best {
            Some(b) => (self.mounts[b].fs_id, self.mounts[b].point.as_slice()),
            None => (0u8, root.as_slice()),
        };
        let rel = relative_path(p, prefix);
        (id, rel)
    }
}

pub open spec fn as_int_index(o: Option<usize>) -> Option<int> {
    match o {
        Some(i) => Some(i as int),
        None => None,
    }
}

/// Spec-level candidate id tried on attempt `k`, starting from `start`.
pub open spec fn spec_mount_candidate(start: u8, k: int) -> int {
    let s = if start == 0 { 1int } else { start as int };
    (s - 1 + k) % 255 + 1
}

pub open spec fn spec_next_after(start: u8, k: int) -> u8 {
    if k == 0 {
        start
    } else {
        ((spec_mount_candidate(start, k - 1) + 1) % 256) as u8
    }
}

pub proof fn lemma_mount_candidate_step(start: u8, k: int)
    requires
        0 <= k < 255,
    ensures
        ({
            let cur = spec_next_after(start, k);
            let id = if cur == 0 { 1int } else { cur as int };
            id == spec_mount_candidate(start, k)
        }),
{
    if k > 0 {
        let c = spec_mount_candidate(start, k - 1);
        assert(1 <= c <= 255);
    }
}

pub proof fn lemma_candidates_distinct(start: u8, k: int)
    requires
        0 <= k < 255,
    ensures
        forall|j: int| 0 <= j < k ==> spec_mount_candidate(start, j) != spec_mount_candidate(start, k),
{
}

pub proof fn lemma_candidates_cover(start: u8, id: u8)
    requires
        id != 0,
    ensures
        exists|k: int| 0 <= k < 255 && spec_mount_candidate(start, k) == id,
{
    let s = if start == 0 { 1int } else { start as int };
    let k = (id as int - s + 255) % 255;
    assert(spec_mount_candidate(start, k) == id);
}

/// Path inside the filesystem mounted at `prefix`.
pub fn relative_path(path: &[u8], prefix: &[u8]) -> (r: Vec<u8>)
    ensures
        r@ == spec_relative(path@, prefix@),
{
    if same_path(path, prefix) {
        let v = vec![SLASH];
        assert(v@ =~= root_path());
        return v;
    }
    if starts_with(path, prefix) && !is_root(prefix) {
        return slice_to_vec(path, prefix.len(), path.len());
    }
    slice_to_vec(path, 0, path.len())
}

/// Global inode: filesystem id in the top 8 bits, local inode in the low 24.
pub open spec fn spec_global_inode(fs_id: u8, local: u32) -> u32 {
    (fs_id as u32 * 0x100_0000 + local % 0x100_0000) as u32
}

pub fn global_inode(fs_id: u8, local: u32) -> (r: u32)
    ensures
        r == spec_global_inode(fs_id, local),
{
    let r = ((fs_id as u32) << 24u32) | (local & 0x00FF_FFFFu32);
    let f = fs_id as u32;
    assert(f < 256 ==> (f << 24u32) | (local & 0x00FF_FFFFu32) == f * 0x100_0000 + local % 0x100_0000) by (bit_vector);
    r
}

/// Split a global inode into (filesystem id, local inode).
pub fn split_global_inode(global: u32) -> (r: (u8, u32))
    ensures
        r.0 == global / 0x100_0000,
        r.1 == global % 0x100_0000,
{
    let id = (global >> 24u32) as u8;
    let local = global & 0x00FF_FFFFu32;
    assert((global >> 24u32 == global / 0x100_0000) && (global & 0x00FF_FFFFu32 == global % 0x100_0000)) by (bit_vector);
    (id, local)
}

/// Encoding then decoding a global inode gives back the filesystem id and
/// the low 24 bits of the local inode.
pub proof fn law_global_inode_roundtrip(fs_id: u8, local: u32)
    ensures
        spec_global_inode(fs_id, local) / 0x100_0000 == fs_id,
        spec_global_inode(fs_id, local) % 0x100_0000 == local % 0x100_0000,
{
}

/// Some mount point lies strictly below `path` (for `/`: any mount other
/// than `/` itself).
pub open spec fn spec_has_mount_descendant(ms: Seq<Mount>, path: Seq<u8>) -> bool {
    exists|i: int| 0 <= i < ms.len() && ({
        let mp = (#[trigger] ms[i]).point@;
        if path == root_path() {
            mp != root_path()
        } else {
            is_prefix(path, mp) && mp.len() > path.len() && mp[path.len() as int] == SLASH
        }
    })
}

impl VfsTable {
    pub fn has_mount_descendant(&self, path: &[u8]) -> (r: bool)
        ensures
            r == spec_has_mount_descendant(self.mounts@, path@),
    {
        let root_q = is_root(path);
        let mut i: usize = 0;
        while i < self.mounts.len()
            invariant
                0 <= i <= self.mounts@.len(),
                root_q == (path@ == root_path()),
                forall|j: int| 0 <= j < i ==> !({
                    let mp = (#[trigger] self.mounts@[j]).point@;
                    if path@ == root_path() {
                        mp != root_path()
                    } else {
                        is_prefix(path@, mp) && mp.len() > path@.len() && mp[path@.len() as int] == SLASH
                    }
                }),
            decreases self.mounts@.len() - i,
        {
            let mp = self.mounts[i].point.as_slice();
            let hit = if root_q {
                !is_root(mp)
            } else {
                starts_with(mp, path) && mp.len() > path.len() && mp[path.len()] == SLASH
            };
            if hit {
                return true;
            }
            i = i + 1;
        }
        false
    }

    /// Metadata of a directory that exists only because mount points lie
    /// below it.
    pub fn synthetic_dir_metadata(&self, path: &[u8]) -> (r: Option<Metadata>)
        ensures
            (r is Some) == spec_has_mount_descendant(self.mounts@, path@),
            r matches Some(m) ==> m.inode == 0 && m.mode == 0o040755 && m.nlink == 2 && m.blksize == 4096 && m.size == 0,
    {
        if self.has_mount_descendant(path) {
            Some(Metadata { inode: 0, mode: 0o040755, nlink: 2, uid: 0, gid: 0, rdev: 0, size: 0, blksize: 4096, blocks: 0, atime: 0, mtime: 0, ctime: 0 })
        } else {
            None
        }
    }

    /// Both paths must live on one filesystem and neither may be `/`;
    /// returns the filesystem id and the two paths inside it.
    pub fn rename_target(&self, old_path: &[u8], new_path: &[u8]) -> (r: Result<(u8, Vec<u8>, Vec<u8>), RenameError>)
        requires
            self.has_root,
        ensures
            ({
                let o = spec_normalize_dir_path(old_path@);
                let n = spec_normalize_dir_path(new_path@);
                if o == root_path() || n == root_path() {
                    r == Err::<(u8, Vec<u8>, Vec<u8>), RenameError>(RenameError::Unsupported)
                } else if spec_resolve(self.mounts@, o).0 != spec_resolve(self.mounts@, n).0 {
                    r == Err::<(u8, Vec<u8>, Vec<u8>), RenameError>(RenameError::CrossDevice)
                } else {
                    r matches Ok(t) && t.0 == spec_resolve(self.mounts@, o).0 && t.1@ == spec_resolve(self.mounts@, o).1
                        && t.2@ == spec_resolve(self.mounts@, n).1
                }
            }),
    {
        let o = normalize_dir_path(old_path);
        let n = normalize_dir_path(new_path);
        if is_root(o.as_slice()) || is_root(n.as_slice()) {
            return Err(RenameError::Unsupported);
        }
        let (old_id, old_rel) = self.resolve(o.as_slice());
        let (new_id, new_rel) = self.resolve(n.as_slice());
        if old_id != new_id {
            return Err(RenameError::CrossDevice);
        }
        Ok((old_id, old_rel, new_rel))
    }
}

impl VfsTable {
    /// The filesystem (id) that owns global inode `global` and the inode
    /// inside it: the root for id 0 (when set), otherwise a mount with that
    /// id; `None` when there is none.
    pub fn inode_owner(&self, global: u32) -> (r: Option<(u8, u32)>)
        ensures
            ({
                let id = (global / 0x100_0000) as u8;
                let present = if id == 0 { self.has_root } else { id_in_use(self.mounts@, id) };
                &&& present ==> r == Some((id, (global % 0x100_0000) as u32))
                &&& !present ==> r is None
            }),
    {
        let (id, local) = split_global_inode(global);
        if id == 0 {
            return if self.has_root { Some((id, local)) } else { None };
        }
        let mut i: usize = 0;
        while i < self.mounts.len()
            invariant
                0 <= i <= self.mounts@.len(),
                id == global / 0x100_0000,
                local == global % 0x100_0000,
                id != 0,
                forall|j: int| 0 <= j < i ==> (#[trigger] self.mounts@[j]).fs_id != id,
            decreases self.mounts@.len() - i,
        {
            if self.mounts[i].fs_id == id {
                return Some((id, local));
            }
            i = i + 1;
        }
        None
    }
}

/// What an append hands back once the filesystem reported end of file
/// `eof` and wrote `written` bytes there: the count and the new end of
/// file (saturating).
pub fn append_end(eof: u64, written: usize) -> (r: (usize, u64))
    ensures
        r.0 == written,
        r.1 == (if eof + written > u64::MAX { u64::MAX as int } else { eof + written }),
{
    (written, eof.saturating_add(written as u64))
}

/// The checks a rename makes on the filesystem [`VfsTable::rename_target`]
/// chose, before asking it to rename: the old path must be there (it
/// resolves or lists), the new one must not.
pub fn rename_checks(old_present: bool, new_present: bool) -> (r: Result<(), RenameError>)
    ensures
        !old_present ==> r == Err::<(), RenameError>(RenameError::NotFound),
        old_present && new_present ==> r == Err::<(), RenameError>(RenameError::Exists),
        old_present && !new_present ==> r == Ok::<(), RenameError>(()),
{
    if !old_present {
        Err(RenameError::NotFound)
    } else if new_present {
        Err(RenameError::Exists)
    } else {
        Ok(())
    }
}

/// The outcome of a rename once the filesystem answered `renamed`.
pub fn rename_result(renamed: bool) -> (r: Result<(), RenameError>)
    ensures
        renamed ==> r == Ok::<(), RenameError>(()),
        !renamed ==> r == Err::<(), RenameError>(RenameError::Unsupported),
{
    if renamed { Ok(()) } else { Err(RenameError::Unsupported) }
}

impl VfsTable {
    /// Rename `old_path` to `new_path`. After [`VfsTable::rename_target`]
    /// chose the filesystem and the paths in it, `present(id, p)` asks that
    /// filesystem whether `p` resolves or lists; the rename is refused when
    /// the old path is absent or the new one present, and otherwise
    /// `backend(id, old, new)` renames, once.
    pub fn rename<P: Fn(u8, &[u8]) -> bool, B: FnOnce(u8, &[u8], &[u8]) -> bool>(
        &self,
        old_path: &[u8],
        new_path: &[u8],
        present: P,
        backend: B,
    ) -> (r: Result<(), RenameError>)
        requires
            self.has_root,
            forall|id: u8, p: &[u8]| #[trigger] present.requires((id, p)),
            forall|id: u8, a: &[u8], b: &[u8]| #[trigger] backend.requires((id, a, b)),
        ensures
            ({
                let o = spec_normalize_dir_path(old_path@);
                let n = spec_normalize_dir_path(new_path@);
                let id = spec_resolve(self.mounts@, o).0;
                if o == root_path() || n == root_path() {
                    r == Err::<(), RenameError>(RenameError::Unsupported)
                } else if id != spec_resolve(self.mounts@, n).0 {
                    r == Err::<(), RenameError>(RenameError::CrossDevice)
                } else {
                    exists|so: &[u8], op: bool| #![trigger present.ensures((id, so), op)] {
                        &&& so@ == spec_resolve(self.mounts@, o).1
                        &&& present.ensures((id, so), op)
                        &&& !op ==> r == Err::<(), RenameError>(RenameError::NotFound)
                        &&& op ==> exists|sn: &[u8], np: bool| #![trigger present.ensures((id, sn), np)] {
                            &&& sn@ == spec_resolve(self.mounts@, n).1
                            &&& present.ensures((id, sn), np)
                            &&& np ==> r == Err::<(), RenameError>(RenameError::Exists)
                            &&& !np ==> exists|done: bool| #![trigger backend.ensures((id, so, sn), done)]
                                backend.ensures((id, so, sn), done)
                                && r == (if done { Ok::<(), RenameError>(()) } else { Err::<(), RenameError>(RenameError::Unsupported) })
                        }
                    }
                }
            }),
    {
        let (id, ro, rn) = match self.rename_target(old_path, new_path) {
            Ok(t) => t,
            Err(e) => return Err(e),
        };
        let so = ro.as_slice();
        let sn = rn.as_slice();
        let old_present = present(id, so);
        if !old_present {
            return rename_checks(false, false);
        }
        let new_present = present(id, sn);
        let ghost mut gd: bool = false;
        let r = match rename_checks(old_present, new_present) {
            Err(e) => Err(e),
            Ok(()) => {
                let done = backend(id, so, sn);
                proof {
                    gd = done;
                }
                rename_result(done)
            },
        };
        assert(!new_present ==> backend.ensures((id, so, sn), gd)
            && r == (if gd { Ok::<(), RenameError>(()) } else { Err::<(), RenameError>(RenameError::Unsupported) }));
        r
    }

    /// Append `buf` to global inode `global`: the filesystem that owns it
    /// ([`VfsTable::inode_owner`]) reports its size with `metadata(id,
    /// inode)` and writes there with `write_at(id, inode, eof)`, once.
    /// Returns the bytes written and the new end of file; `(0, 0)` when the
    /// filesystem or the inode's metadata is missing.
    pub fn append_write<M: FnOnce(u8, u32) -> Option<u64>, W: FnOnce(u8, u32, u64) -> usize>(
        &self,
        global: u32,
        metadata: M,
        write_at: W,
    ) -> (r: (usize, u64))
        requires
            forall|id: u8, ino: u32| #[trigger] metadata.requires((id, ino)),
            forall|id: u8, ino: u32, at: u64| #[trigger] write_at.requires((id, ino, at)),
        ensures
            ({
                let id = (global / 0x100_0000) as u8;
                let local = (global % 0x100_0000) as u32;
                let present = if id == 0 { self.has_root } else { id_in_use(self.mounts@, id) };
                &&& !present ==> r == (0usize, 0u64)
                &&& present ==> exists|m: Option<u64>| {
                    &&& #[trigger] metadata.ensures((id, local), m)
                    &&& m is None ==> r == (0usize, 0u64)
                    &&& m matches Some(eof) ==> exists|w: usize| #[trigger] write_at.ensures((id, local, eof), w)
                        && r.0 == w && r.1 == (if eof + w > u64::MAX { u64::MAX as int } else { eof + w })
                }
            }),
    {
        let (id, local) = match self.inode_owner(global) {
            Some(x) => x,
            None => return (0, 0),
        };
        let m = metadata(id, local);
        match m {
            None => (0, 0),
            Some(eof) => {
                let w = write_at(id, local, eof);
                append_end(eof, w)
            },
        }
    }
}

/// Names of directory entries.
pub open spec fn names_of(es: Seq<DirEntry>) -> Seq<Seq<u8>> {
    es.map_values(|e: DirEntry| e.name@)
}

/// `s` up to its first `/`.
pub open spec fn before_slash(s: Seq<u8>) -> Seq<u8>
    decreases s.len(),
{
    if s.len() == 0 || s[0] == SLASH { Seq::empty() } else { seq![s[0]] + before_slash(s.drop_first()) }
}

/// The directory that mount point `mp` implies directly inside `path`.
pub open spec fn child_name(path: Seq<u8>, mp: Seq<u8>) -> Option<Seq<u8>> {
    if mp == path {
        None
    } else {
        let rest = if path == root_path() {
            if mp.len() > 0 && mp[0] == SLASH { Some(mp.drop_first()) } else { Some(mp) }
        } else if is_prefix(path, mp) && mp.len() > path.len() && mp[path.len() as int] == SLASH {
            Some(mp.subrange(path.len() as int + 1, mp.len() as int))
        } else {
            None
        };
        match rest {
            None => None,
            Some(r) => if r.len() == 0 || before_slash(r).len() == 0 { None } else { Some(before_slash(r)) },
        }
    }
}

/// Some name, trailing slashes ignored, equals `child`.
pub open spec fn listed(names: Seq<Seq<u8>>, child: Seq<u8>) -> bool {
    exists|i: int| 0 <= i < names.len() && trim_end_slashes(#[trigger] names[i]) == child
}

/// The listing after adding, mount by mount, each implied child directory
/// that is not listed yet.
pub open spec fn add_children(names: Seq<Seq<u8>>, ms: Seq<Mount>, path: Seq<u8>) -> Seq<Seq<u8>>
    decreases ms.len(),
{
    if ms.len() == 0 {
        names
    } else {
        let prev = add_children(names, ms.drop_last(), path);
        match child_name(path, ms.last().point@) {
            Some(c) => if listed(prev, c) { prev } else { prev.push(c) },
            None => prev,
        }
    }
}

fn before_slash_vec(s: &[u8]) -> (r: Vec<u8>)
    ensures
        r@ == before_slash(s@),
{
    let mut k: usize = 0;
    proof {
        assert(s@.subrange(0, s@.len() as int) =~= s@);
        assert(s@.subrange(0, 0) + before_slash(s@) =~= before_slash(s@));
    }
    while k < s.len() && s[k] != SLASH
        invariant
            0 <= k <= s@.len(),
            forall|j: int| 0 <= j < k ==> s@[j] != SLASH,
            before_slash(s@) == s@.subrange(0, k as int) + before_slash(s@.subrange(k as int, s@.len() as int)),
        decreases s@.len() - k,
    {
        proof {
            let t = s@.subrange(k as int, s@.len() as int);
            assert(t.drop_first() =~= s@.subrange(k + 1, s@.len() as int));
            assert(s@.subrange(0, k + 1) =~= s@.subrange(0, k as int) + seq![t[0]]);
            assert(s@.subrange(0, k as int) + (seq![t[0]] + before_slash(t.drop_first()))
                =~= s@.subrange(0, k + 1) + before_slash(t.drop_first()));
        }
        k = k + 1;
    }
    proof {
        let t = s@.subrange(k as int, s@.len() as int);
        assert(before_slash(t) =~= Seq::<u8>::empty());
        assert(s@.subrange(0, k as int) + Seq::<u8>::empty() =~= s@.subrange(0, k as int));
        assert(s@.subrange(0, 0) =~= Seq::<u8>::empty());
    }
    slice_to_vec(s, 0, k)
}

/// `trim_end_slashes(name) == child`.
fn trimmed_eq(name: &[u8], child: &[u8]) -> (r: bool)
    ensures
        r == (trim_end_slashes(name@) == child@),
{
    let mut end = name.len();
    assert(name@.subrange(0, end as int) =~= name@);
    while end > 0 && name[end - 1] == SLASH
        invariant
            0 <= end <= name@.len(),
            trim_end_slashes(name@) == trim_end_slashes(name@.subrange(0, end as int)),
        decreases end,
    {
        proof {
            assert(name@.subrange(0, end as int).drop_last() =~= name@.subrange(0, end - 1));
        }
        end = end - 1;
    }
    proof {
        assert(trim_end_slashes(name@.subrange(0, end as int)) == name@.subrange(0, end as int));
    }
    let t = slice_to_vec(name, 0, end);
    same_path(t.as_slice(), child)
}

/// The mount point's implied child directory of `path`, as bytes.
fn child_of(path: &[u8], mp: &[u8]) -> (r: Option<Vec<u8>>)
    ensures
        match child_name(path@, mp@) {
            Some(c) => r matches Some(v) && v@ == c,
            None => r is None,
        },
{
    if same_path(mp, path) {
        return None;
    }
    let rest: Vec<u8> = if is_root(path) {
        if mp.len() > 0 && mp[0] == SLASH {
            let v = slice_to_vec(mp, 1, mp.len());
            assert(v@ =~= mp@.drop_first());
            v
        } else {
            let v = slice_to_vec(mp, 0, mp.len());
            assert(v@ =~= mp@);
            v
        }
    } else if starts_with(mp, path) && mp.len() > path.len() && mp[path.len()] == SLASH {
        slice_to_vec(mp, path.len() + 1, mp.len())
    } else {
        return None;
    };
    if rest.len() == 0 {
        return None;
    }
    let child = before_slash_vec(rest.as_slice());
    if child.len() == 0 {
        return None;
    }
    Some(child)
}

impl VfsTable {
    /// Add the directories that deeper mount points imply directly inside
    /// `path` (`/mnt/usb0` makes `ls /` show `mnt` and `ls /mnt` show
    /// `usb0`), skipping names already listed. True when one was added.
    pub fn add_mount_children(&self, path: &[u8], entries: &mut Vec<DirEntry>) -> (r: bool)
        ensures
            names_of(final(entries)@) == add_children(names_of(old(entries)@), self.mounts@, path@),
            final(entries)@.subrange(0, old(entries)@.len() as int) == old(entries)@,
            forall|i: int| old(entries)@.len() <= i < final(entries)@.len() ==> {
                &&& (#[trigger] final(entries)@[i]).inode == 0
                &&& final(entries)@[i].file_type == 2
                &&& final(entries)@[i].size == 0
            },
            r == (final(entries)@.len() > old(entries)@.len()),
    {
        let ghost n0 = entries@.len();
        let mut added = false;
        let mut i: usize = 0;
        while i < self.mounts.len()
            invariant
                0 <= i <= self.mounts@.len(),
                n0 == old(entries)@.len(),
                names_of(entries@) == add_children(names_of(old(entries)@), self.mounts@.subrange(0, i as int), path@),
                entries@.len() >= n0,
                entries@.subrange(0, n0 as int) == old(entries)@,
                forall|k: int| n0 <= k < entries@.len() ==> {
                    &&& (#[trigger] entries@[k]).inode == 0
                    &&& entries@[k].file_type == 2
                    &&& entries@[k].size == 0
                },
                added == (entries@.len() > n0),
            decreases self.mounts@.len() - i,
        {
            proof {
                assert(self.mounts@.subrange(0, i + 1).drop_last() =~= self.mounts@.subrange(0, i as int));
                assert(self.mounts@.subrange(0, i + 1).last() == self.mounts@[i as int]);
            }
            match child_of(path, self.mounts[i].point.as_slice()) {
                Some(child) => {
                    let mut k: usize = 0;
                    let mut dup = false;
                    while k < entries.len()
                        invariant
                            0 <= k <= entries@.len(),
                            dup == exists|j: int| 0 <= j < k && trim_end_slashes(#[trigger] names_of(entries@)[j]) == child@,
                        decreases entries@.len() - k,
                    {
                        if trimmed_eq(entries[k].name.as_slice(), child.as_slice()) {
                            dup = true;
                        }
                        proof {
                            assert(names_of(entries@)[k as int] == entries@[k as int].name@);
                        }
                        k = k + 1;
                    }
                    if !dup {
                        let ghost before = entries@;
                        entries.push(DirEntry { inode: 0, name: child, file_type: 2, size: 0 });
                        proof {
                            assert(names_of(entries@) =~= names_of(before).push(entries@.last().name@));
                            assert(entries@.subrange(0, n0 as int) =~= before.subrange(0, n0 as int));
                        }
                        added = true;
                    }
                },
                None => {},
            }
            i = i + 1;
        }
        proof {
            assert(self.mounts@.subrange(0, self.mounts@.len() as int) =~= self.mounts@);
        }
        added
    }

    /// A directory listing: what the filesystem serving `path` listed
    /// (`backing`, None when it has no such directory) plus the directories
    /// implied by mount points; None when neither has anything.
    pub fn list_directory_entries(&self, path: &[u8], backing: Option<Vec<DirEntry>>) -> (r: Option<Vec<DirEntry>>)
        ensures
            ({
                let base = match backing { Some(v) => v@, None => Seq::empty() };
                let p = spec_normalize_dir_path(path@);
                let names = add_children(names_of(base), self.mounts@, p);
                if backing is None && names.len() == 0 {
                    r is None
                } else {
                    r matches Some(es) && names_of(es@) == names && es@.subrange(0, base.len() as int) == base
                }
            }),
    {
        let p = normalize_dir_path(path);
        let backing_exists = backing.is_some();
        let mut entries = match backing {
            Some(v) => v,
            None => Vec::new(),
        };
        let synthetic = self.add_mount_children(p.as_slice(), &mut entries);
        if backing_exists || synthetic {
            Some(entries)
        } else {
            None
        }
    }

    /// Which filesystem serves `path`, and the path inside it (the same
    /// answer as `resolve`, for callers about to modify the filesystem).
    pub fn resolve_mut(&self, path: &[u8]) -> (r: (u8, Vec<u8>))
        requires
            self.has_root,
        ensures
            r.0 == spec_resolve(self.mounts@, path@).0,
            r.1@ == spec_resolve(self.mounts@, path@).1,
    {
        self.resolve(path)
    }
}

} // verus!
