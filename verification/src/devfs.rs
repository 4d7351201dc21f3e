//! The /dev registry: named device nodes with stable inode numbers.
//!
//! Device objects themselves stay with the driver layer; a node names its
//! device by the handle under which that layer keeps it.
use vstd::prelude::*;
use crate::bytes::{SLASH, slice_to_vec};
use crate::file::DeviceKind;
use crate::util::lemma_filter_prefix_step;
use crate::vfs::{DirEntry, same_path};

verus! {

/// What a node gives access to.
#[derive(Debug, Clone, Copy, PartialEq, Eq, Structural)]
pub enum DeviceType {
    /// A block device shared with mounted filesystems.
    Block(usize),
    /// A character device.
    Char(usize),
}

pub struct DeviceNode {
    pub name: Vec<u8>,
    pub inode: u32,
    pub dev_type: DeviceType,
}

/// The device table that outlives any one DevFS mount, and the inode
/// counter that numbers its nodes: the kernel keeps one, and drivers
/// publish and withdraw nodes in it at any time.
pub struct DeviceRegistry {
    pub devices: Vec<DeviceNode>,
    pub next_inode: u32,
}

/// The `/dev` filesystem. A mount object holds nothing of its own: every
/// operation works on the [`DeviceRegistry`] it is given, so nodes
/// published before or after a mount are seen through every mount.
pub struct DevFS;

pub open spec fn spec_kind(t: DeviceType) -> DeviceKind {
    match t {
        DeviceType::Block(_) => DeviceKind::Block,
        DeviceType::Char(_) => DeviceKind::Char,
    }
}

/// Directory-entry type code of a node: 3 = block, 4 = char.
pub open spec fn spec_file_type(t: DeviceType) -> u8 {
    match t {
        DeviceType::Block(_) => 3,
        DeviceType::Char(_) => 4,
    }
}

/// Some node is called `name`.
pub open spec fn has_node(devs: Seq<DeviceNode>, name: Seq<u8>) -> bool {
    exists|i: int| 0 <= i < devs.len() && (#[trigger] devs[i]).name@ == name
}

/// `i` is the first node called `name`.
pub open spec fn first_named(devs: Seq<DeviceNode>, name: Seq<u8>, i: int) -> bool {
    &&& 0 <= i < devs.len()
    &&& devs[i].name@ == name
    &&& forall|j: int| 0 <= j < i ==> (#[trigger] devs[j]).name@ != name
}

/// Nodes not called `name`.
pub open spec fn node_not_named(name: Seq<u8>) -> spec_fn(DeviceNode) -> bool {
    |d: DeviceNode| d.name@ != name
}

/// The counter after handing out one inode: it sticks at `u32::MAX`.
pub open spec fn bumped(n: u32) -> u32 {
    if n == u32::MAX { n } else { (n + 1) as u32 }
}

/// The byte string `dev`.
pub open spec fn dev_name() -> Seq<u8> {
    seq![0x64u8, 0x65u8, 0x76u8]
}

/// Path with leading and trailing slashes removed.
pub open spec fn trim_slashes(p: Seq<u8>) -> Seq<u8>
    decreases p.len(),
{
    if p.len() > 0 && p[0] == SLASH {
        trim_slashes(p.drop_first())
    } else if p.len() > 0 && p.last() == SLASH {
        trim_slashes(p.drop_last())
    } else {
        p
    }
}

/// The trailing run of non-slash bytes.
pub open spec fn after_last_slash(p: Seq<u8>) -> Seq<u8>
    decreases p.len(),
{
    if p.len() == 0 || p.last() == SLASH {
        Seq::empty()
    } else {
        after_last_slash(p.drop_last()).push(p.last())
    }
}

/// The node name that a DevFS path names: its last non-empty component
/// (`/sda`, `sda` and `/dev/sda` all name `sda`); a path without one names
/// itself.
pub open spec fn node_name_of(p: Seq<u8>) -> Seq<u8> {
    let t = crate::vfs::trim_end_slashes(p);
    if t.len() == 0 {
        p
    } else {
        after_last_slash(t)
    }
}

/// A DevFS path that lists the device directory: `/`, `/dev`, `.`.
pub open spec fn lists_root(p: Seq<u8>) -> bool {
    let rest = trim_slashes(p);
    rest.len() == 0 || rest == seq![0x2Eu8] || rest == dev_name()
}

pub open spec fn entry_of(d: DeviceNode, e: DirEntry) -> bool {
    &&& e.inode == d.inode
    &&& e.name@ == d.name@
    &&& e.file_type == spec_file_type(d.dev_type)
    &&& e.size == 0
}

fn is_dev(s: &[u8]) -> (r: bool)
    ensures
        r == (s@ == dev_name()),
{
    if s.len() == 3 && s[0] == 0x64 && s[1] == 0x65 && s[2] == 0x76 {
        assert(s@ =~= dev_name());
        true
    } else {
        false
    }
}

impl DeviceRegistry {
    /// The registry before any driver has published a node.
    pub fn new() -> (r: Self)
        ensures
            r.devices@.len() == 0,
            r.next_inode == 1,
    {
        DeviceRegistry { devices: Vec::new(), next_inode: 1 }
    }

    fn alloc_inode(&mut self) -> (r: u32)
        ensures
            r == old(self).next_inode,
            final(self).next_inode == bumped(old(self).next_inode),
            final(self).devices@ == old(self).devices@,
    {
        let inode = self.next_inode;
        self.next_inode = self.next_inode.saturating_add(1);
        inode
    }

    /// Index of the first node called `name`.
    fn position(&self, name: &[u8]) -> (r: Option<usize>)
        ensures
            r matches Some(i) ==> first_named(self.devices@, name@, i as int),
            r is None ==> !has_node(self.devices@, name@),
    {
        let mut i: usize = 0;
        while i < self.devices.len()
            invariant
                0 <= i <= self.devices@.len(),
                forall|j: int| 0 <= j < i ==> (#[trigger] self.devices@[j]).name@ != name@,
            decreases self.devices@.len() - i,
        {
            if same_path(self.devices[i].name.as_slice(), name) {
                return Some(i);
            }
            i = i + 1;
        }
        None
    }

    fn register(&mut self, name: &[u8], dev_type: DeviceType) -> (r: u32)
        ensures
            has_node(old(self).devices@, name@) ==> {
                &&& final(self).devices@ == old(self).devices@
                &&& final(self).next_inode == old(self).next_inode
                &&& exists|i: int| first_named(old(self).devices@, name@, i) && r == old(self).devices@[i].inode
            },
            !has_node(old(self).devices@, name@) ==> {
                &&& r == old(self).next_inode
                &&& final(self).next_inode == bumped(old(self).next_inode)
                &&& final(self).devices@.len() == old(self).devices@.len() + 1
                &&& final(self).devices@.drop_last() == old(self).devices@
                &&& final(self).devices@.last().name@ == name@
                &&& final(self).devices@.last().inode == r
                &&& final(self).devices@.last().dev_type == dev_type
            },
    {
        match self.position(name) {
            Some(i) => self.devices[i].inode,
            None => {
                let inode = self.alloc_inode();
                let n = slice_to_vec(name, 0, name.len());
                proof {
                    assert(name@.subrange(0, name@.len() as int) =~= name@);
                }
                self.devices.push(DeviceNode { name: n, inode, dev_type });
                proof {
                    assert(self.devices@.drop_last() =~= old(self).devices@);
                }
                inode
            }
        }
    }

}

impl DevFS {
    pub fn new() -> (r: Self)
        ensures
            r == DevFS,
    {
        DevFS
    }

    /// Publish a block device; a name already present keeps its node and
    /// inode.
    pub fn register_block(&self, registry: &mut DeviceRegistry, name: &[u8], dev: usize) -> (r: u32)
        ensures
            has_node(old(registry).devices@, name@) ==> {
                &&& final(registry).devices@ == old(registry).devices@
                &&& final(registry).next_inode == old(registry).next_inode
                &&& exists|i: int| first_named(old(registry).devices@, name@, i) && r == old(registry).devices@[i].inode
            },
            !has_node(old(registry).devices@, name@) ==> {
                &&& r == old(registry).next_inode
                &&& final(registry).next_inode == bumped(old(registry).next_inode)
                &&& final(registry).devices@.drop_last() == old(registry).devices@
                &&& final(registry).devices@.len() == old(registry).devices@.len() + 1
                &&& final(registry).devices@.last().name@ == name@
                &&& final(registry).devices@.last().inode == r
                &&& final(registry).devices@.last().dev_type == DeviceType::Block(dev)
            },
    {
        Self::register_block_global(registry, name, dev)
    }

    /// Same as `register_block`, on the registry passed in.
    pub fn register_block_global(registry: &mut DeviceRegistry, name: &[u8], dev: usize) -> (r: u32)
        ensures
            has_node(old(registry).devices@, name@) ==> {
                &&& final(registry).devices@ == old(registry).devices@
                &&& final(registry).next_inode == old(registry).next_inode
                &&& exists|i: int| first_named(old(registry).devices@, name@, i) && r == old(registry).devices@[i].inode
            },
            !has_node(old(registry).devices@, name@) ==> {
                &&& r == old(registry).next_inode
                &&& final(registry).next_inode == bumped(old(registry).next_inode)
                &&& final(registry).devices@.drop_last() == old(registry).devices@
                &&& final(registry).devices@.len() == old(registry).devices@.len() + 1
                &&& final(registry).devices@.last().name@ == name@
                &&& final(registry).devices@.last().inode == r
                &&& final(registry).devices@.last().dev_type == DeviceType::Block(dev)
            },
    {
        registry.register(name, DeviceType::Block(dev))
    }

    /// Publish a character device; a name already present keeps its node
    /// and inode.
    pub fn register_char(&self, registry: &mut DeviceRegistry, name: &[u8], dev: usize) -> (r: u32)
        ensures
            has_node(old(registry).devices@, name@) ==> {
                &&& final(registry).devices@ == old(registry).devices@
                &&& final(registry).next_inode == old(registry).next_inode
                &&& exists|i: int| first_named(old(registry).devices@, name@, i) && r == old(registry).devices@[i].inode
            },
            !has_node(old(registry).devices@, name@) ==> {
                &&& r == old(registry).next_inode
                &&& final(registry).next_inode == bumped(old(registry).next_inode)
                &&& final(registry).devices@.drop_last() == old(registry).devices@
                &&& final(registry).devices@.len() == old(registry).devices@.len() + 1
                &&& final(registry).devices@.last().name@ == name@
                &&& final(registry).devices@.last().inode == r
                &&& final(registry).devices@.last().dev_type == DeviceType::Char(dev)
            },
    {
        Self::register_char_global(registry, name, dev)
    }

    /// Same as `register_char`, on the registry passed in.
    pub fn register_char_global(registry: &mut DeviceRegistry, name: &[u8], dev: usize) -> (r: u32)
        ensures
            has_node(old(registry).devices@, name@) ==> {
                &&& final(registry).devices@ == old(registry).devices@
                &&& final(registry).next_inode == old(registry).next_inode
                &&& exists|i: int| first_named(old(registry).devices@, name@, i) && r == old(registry).devices@[i].inode
            },
            !has_node(old(registry).devices@, name@) ==> {
                &&& r == old(registry).next_inode
                &&& final(registry).next_inode == bumped(old(registry).next_inode)
                &&& final(registry).devices@.drop_last() == old(registry).devices@
                &&& final(registry).devices@.len() == old(registry).devices@.len() + 1
                &&& final(registry).devices@.last().name@ == name@
                &&& final(registry).devices@.last().inode == r
                &&& final(registry).devices@.last().dev_type == DeviceType::Char(dev)
            },
    {
        registry.register(name, DeviceType::Char(dev))
    }

    /// Withdraw every node called `name`; true when one was there.
    pub fn unregister(registry: &mut DeviceRegistry, name: &[u8]) -> (r: bool)
        ensures
            r == has_node(old(registry).devices@, name@),
            final(registry).devices@ == old(registry).devices@.filter(node_not_named(name@)),
            !has_node(final(registry).devices@, name@),
            final(registry).next_inode == old(registry).next_inode,
    {
        let ghost od = registry.devices@;
        let ghost n: int = od.len() as int;
        let ghost mut j: int = 0;
        let mut removed = false;
        let mut i: usize = 0;
        while i < registry.devices.len()
            invariant
                0 <= i <= registry.devices@.len(),
                0 <= j <= n,
                od == old(registry).devices@,
                n == od.len(),
                registry.devices@.subrange(0, i as int) == od.subrange(0, j).filter(node_not_named(name@)),
                registry.devices@.subrange(i as int, registry.devices@.len() as int) == od.subrange(j, n),
                registry.next_inode == old(registry).next_inode,
                removed == exists|k: int| 0 <= k < j && (#[trigger] od[k]).name@ == name@,
            decreases registry.devices@.len() - i,
        {
            proof {
                assert(registry.devices@.subrange(i as int, registry.devices@.len() as int).len() > 0);
                assert(registry.devices@[i as int] == registry.devices@.subrange(i as int, registry.devices@.len() as int)[0]);
                assert(od[j] == od.subrange(j, n)[0]);
                lemma_filter_prefix_step(od, j, node_not_named(name@));
            }
            if same_path(registry.devices[i].name.as_slice(), name) {
                let ghost before = registry.devices@;
                registry.devices.remove(i);
                proof {
                    let tail = before.subrange(i as int, before.len() as int);
                    assert(registry.devices@.subrange(0, i as int) =~= before.subrange(0, i as int));
                    assert(registry.devices@.subrange(i as int, registry.devices@.len() as int) =~= tail.subrange(1, tail.len() as int));
                    assert(od.subrange(j + 1, n) =~= od.subrange(j, n).subrange(1, n - j));
                    j = j + 1;
                }
                removed = true;
            } else {
                proof {
                    let tail = registry.devices@.subrange(i as int, registry.devices@.len() as int);
                    assert(registry.devices@.subrange(0, i + 1) =~= registry.devices@.subrange(0, i as int).push(od[j]));
                    assert(registry.devices@.subrange(i + 1, registry.devices@.len() as int) =~= tail.subrange(1, tail.len() as int));
                    assert(od.subrange(j + 1, n) =~= od.subrange(j, n).subrange(1, n - j));
                    j = j + 1;
                }
                i = i + 1;
            }
        }
        proof {
            assert(od.subrange(j, n).len() == 0);
            assert(od.subrange(0, n) =~= od);
            assert(registry.devices@.subrange(0, i as int) =~= registry.devices@);
            assert forall|k: int| 0 <= k < registry.devices@.len() implies (#[trigger] registry.devices@[k]).name@ != name@ by {
                od.lemma_filter_pred(node_not_named(name@), k);
            }
        }
        removed
    }

    pub fn contains(registry: &DeviceRegistry, name: &[u8]) -> (r: bool)
        ensures
            r == has_node(registry.devices@, name@),
    {
        registry.position(name).is_some()
    }

    /// The first block device called `name`.
    pub fn block_device(registry: &DeviceRegistry, name: &[u8]) -> (r: Option<usize>)
        ensures
            r matches Some(h) ==> exists|i: int| {
                &&& 0 <= i < registry.devices@.len()
                &&& registry.devices@[i].name@ == name@
                &&& #[trigger] registry.devices@[i].dev_type == DeviceType::Block(h)
                &&& forall|j: int| 0 <= j < i ==> !((#[trigger] registry.devices@[j]).name@ == name@ && registry.devices@[j].dev_type is Block)
            },
            r is None ==> forall|i: int| 0 <= i < registry.devices@.len() ==> !((#[trigger] registry.devices@[i]).name@ == name@ && registry.devices@[i].dev_type is Block),
    {
        let mut i: usize = 0;
        while i < registry.devices.len()
            invariant
                0 <= i <= registry.devices@.len(),
                forall|j: int| 0 <= j < i ==> !((#[trigger] registry.devices@[j]).name@ == name@ && registry.devices@[j].dev_type is Block),
            decreases registry.devices@.len() - i,
        {
            if same_path(registry.devices[i].name.as_slice(), name) {
                match registry.devices[i].dev_type {
                    DeviceType::Block(h) => {
                        assert(registry.devices@[i as int].dev_type == DeviceType::Block(h));
                        return Some(h);
                    },
                    DeviceType::Char(_) => {},
                }
            }
            i = i + 1;
        }
        None
    }

    /// Kind of the first node called `name`.
    pub fn device_kind(registry: &DeviceRegistry, name: &[u8]) -> (r: Option<DeviceKind>)
        ensures
            r matches Some(k) ==> exists|i: int| first_named(registry.devices@, name@, i) && k == spec_kind(registry.devices@[i].dev_type),
            r is None ==> !has_node(registry.devices@, name@),
    {
        match registry.position(name) {
            Some(i) => Some(match registry.devices[i].dev_type {
                DeviceType::Block(_) => DeviceKind::Block,
                DeviceType::Char(_) => DeviceKind::Char,
            }),
            None => None,
        }
    }

    /// Inode of the node a DevFS path names; the directory itself (`dev`)
    /// and the empty name have none.
    pub fn resolve_path(&self, registry: &DeviceRegistry, path: &[u8]) -> (r: Option<u32>)
        ensures
            ({
                let nm = node_name_of(path@);
                if nm.len() == 0 || nm == dev_name() {
                    r is None
                } else {
                    &&& r is None ==> !has_node(registry.devices@, nm)
                    &&& r matches Some(ino) ==> exists|i: int| first_named(registry.devices@, nm, i) && ino == registry.devices@[i].inode
                }
            }),
    {
        let name = node_name(path);
        if name.len() == 0 || is_dev(name.as_slice()) {
            return None;
        }
        match registry.position(name.as_slice()) {
            Some(i) => Some(registry.devices[i].inode),
            None => None,
        }
    }

    /// The device directory: one entry per node, in registration order;
    /// any other path is not a directory here.
    pub fn list_directory_entries(&self, registry: &DeviceRegistry, path: &[u8]) -> (r: Option<Vec<DirEntry>>)
        ensures
            !lists_root(path@) ==> r is None,
            lists_root(path@) ==> (r matches Some(es) && es@.len() == registry.devices@.len()
                && forall|i: int| 0 <= i < es@.len() ==> entry_of(#[trigger] registry.devices@[i], es@[i])),
    {
        let rest = trim_slashes_vec(path);
        let ok = rest.len() == 0 || (rest.len() == 1 && rest[0] == 0x2E) || is_dev(rest.as_slice());
        proof {
            if rest@.len() == 1 && rest@[0] == 0x2E {
                assert(rest@ =~= seq![0x2Eu8]);
            }
        }
        if !ok {
            return None;
        }
        let mut out: Vec<DirEntry> = Vec::new();
        let mut i: usize = 0;
        while i < registry.devices.len()
            invariant
                0 <= i <= registry.devices@.len(),
                out@.len() == i,
                forall|k: int| 0 <= k < i ==> entry_of(#[trigger] registry.devices@[k], out@[k]),
            decreases registry.devices@.len() - i,
        {
            let d = &registry.devices[i];
            let nm = slice_to_vec(d.name.as_slice(), 0, d.name.len());
            proof {
                assert(d.name@.subrange(0, d.name@.len() as int) =~= d.name@);
            }
            let ft: u8 = match d.dev_type {
                DeviceType::Block(_) => 3,
                DeviceType::Char(_) => 4,
            };
            out.push(DirEntry { inode: d.inode, name: nm, file_type: ft, size: 0 });
            i = i + 1;
        }
        Some(out)
    }
}

/// The node name a DevFS path names.
pub fn node_name(path: &[u8]) -> (r: Vec<u8>)
    ensures
        r@ == node_name_of(path@),
{
    let mut end = path.len();
    assert(path@.subrange(0, end as int) =~= path@);
    while end > 0 && path[end - 1] == SLASH
        invariant
            0 <= end <= path@.len(),
            crate::vfs::trim_end_slashes(path@) == crate::vfs::trim_end_slashes(path@.subrange(0, end as int)),
        decreases end,
    {
        proof {
            assert(path@.subrange(0, end as int).drop_last() =~= path@.subrange(0, end - 1));
        }
        end = end - 1;
    }
    let ghost t = path@.subrange(0, end as int);
    proof {
        assert(crate::vfs::trim_end_slashes(t) == t);
    }
    if end == 0 {
        proof {
            assert(path@.subrange(0, path@.len() as int) =~= path@);
        }
        return slice_to_vec(path, 0, path.len());
    }
    let mut start = end;
    while start > 0 && path[start - 1] != SLASH
        invariant
            0 <= start <= end,
            end <= path@.len(),
            t == path@.subrange(0, end as int),
            after_last_slash(t) == after_last_slash(path@.subrange(0, start as int)) + path@.subrange(start as int, end as int),
        decreases start,
    {
        proof {
            let s = path@.subrange(0, start as int);
            assert(s.drop_last() =~= path@.subrange(0, start - 1));
            assert(path@.subrange(start - 1, end as int) =~= seq![s.last()] + path@.subrange(start as int, end as int));
            assert(after_last_slash(s) == after_last_slash(s.drop_last()).push(s.last()));
            assert(after_last_slash(s.drop_last()).push(s.last()) + path@.subrange(start as int, end as int)
                =~= after_last_slash(s.drop_last()) + path@.subrange(start - 1, end as int));
        }
        start = start - 1;
    }
    proof {
        let s = path@.subrange(0, start as int);
        assert(after_last_slash(s) =~= Seq::<u8>::empty());
        assert(Seq::<u8>::empty() + path@.subrange(start as int, end as int) =~= path@.subrange(start as int, end as int));
    }
    slice_to_vec(path, start, end)
}

/// `path` without leading and trailing slashes.
pub fn trim_slashes_vec(path: &[u8]) -> (r: Vec<u8>)
    ensures
        r@ == trim_slashes(path@),
{
    let mut start: usize = 0;
    let mut end: usize = path.len();
    assert(path@.subrange(0, end as int) =~= path@);
    while start < end && path[start] == SLASH
        invariant
            0 <= start <= end,
            end == path@.len(),
            trim_slashes(path@) == trim_slashes(path@.subrange(start as int, end as int)),
        decreases end - start,
    {
        proof {
            assert(path@.subrange(start as int, end as int).drop_first() =~= path@.subrange(start + 1, end as int));
        }
        start = start + 1;
    }
    while start < end && path[end - 1] == SLASH
        invariant
            0 <= start <= end,
            end <= path@.len(),
            start < end ==> path@[start as int] != SLASH,
            trim_slashes(path@) == trim_slashes(path@.subrange(start as int, end as int)),
        decreases end - start,
    {
        proof {
            let s = path@.subrange(start as int, end as int);
            assert(s.drop_last() =~= path@.subrange(start as int, end - 1));
        }
        end = end - 1;
    }
    proof {
        let s = path@.subrange(start as int, end as int);
        if s.len() > 0 {
            assert(s[0] == path@[start as int]);
            assert(s.last() == path@[end - 1]);
        }
        assert(trim_slashes(s) == s);
    }
    slice_to_vec(path, start, end)
}

/// One sector's part of a byte-range transfer on a block device: the bytes
/// `[sector_off, sector_off + len)` of sector `sector` go with bytes
/// `[buf_from, buf_from + len)` of the buffer.
#[derive(Debug, Clone, Copy, PartialEq, Eq, Structural)]
pub struct SectorChunk {
    pub sector: u32,
    pub sector_off: usize,
    pub buf_from: usize,
    pub len: usize,
}

/// The chunk a transfer of `total` bytes at byte `offset` handles once
/// `done` bytes are through: the sector is the starting sector advanced by
/// whole sectors of `done`, the first chunk starts inside its sector.
pub open spec fn chunk_at(offset: u64, total: usize, ss: u64, done: int) -> SectorChunk {
    let cur = if done == 0 { offset % ss } else { 0 };
    let room = ss - cur;
    let len = if total - done < room { total - done } else { room };
    SectorChunk {
        sector: (offset as int / ss as int + done / ss as int) as u32,
        sector_off: cur as usize,
        buf_from: done as usize,
        len: len as usize,
    }
}

/// The chunks of a transfer from `done` bytes on, in order.
pub open spec fn sector_chunks(offset: u64, total: usize, ss: u64, done: int) -> Seq<SectorChunk>
    decreases total - done,
{
    if done >= total || ss == 0 || done < 0 {
        Seq::empty()
    } else {
        let c = chunk_at(offset, total, ss, done);
        seq![c] + sector_chunks(offset, total, ss, done + c.len)
    }
}

/// The sector-by-sector plan of reading or writing `total` bytes at byte
/// `offset` of a device with `sector_size`-byte sectors: each sector is read
/// whole, the chunk copied out (or, for a write, merged in and the sector
/// written back); the transfer stops at the first failing sector and
/// reports the bytes of the chunks before it.
pub fn block_io_plan(offset: u64, total: usize, sector_size: u32) -> (r: Vec<SectorChunk>)
    requires
        sector_size > 0,
        offset as int / sector_size as int + total as int / sector_size as int + 1 <= u32::MAX,
    ensures
        r@ == sector_chunks(offset, total, sector_size as u64, 0),
{
    let ss = sector_size as u64;
    let start = offset / ss;
    let first_off = offset % ss;
    let mut out: Vec<SectorChunk> = Vec::new();
    let mut done: usize = 0;
    while done < total
        invariant
            ss == sector_size as u64,
            ss > 0,
            start == offset / ss,
            first_off == offset % ss,
            offset as int / sector_size as int + total as int / sector_size as int + 1 <= u32::MAX,
            0 <= done <= total,
            done == 0 || first_off < ss,
            out@ + sector_chunks(offset, total, ss, done as int) == sector_chunks(offset, total, ss, 0),
        decreases total - done,
    {
        let cur = if done == 0 { first_off as usize } else { 0 };
        let room = sector_size as usize - cur;
        let len = if total - done < room { total - done } else { room };
        assert(done as int / ss as int <= total as int / ss as int) by {
            vstd::arithmetic::div_mod::lemma_div_is_ordered(done as int, total as int, ss as int);
        }
        let sector = (start + (done as u64) / ss) as u32;
        let c = SectorChunk { sector, sector_off: cur, buf_from: done, len };
        proof {
            assert(c == chunk_at(offset, total, ss, done as int));
            let rest = sector_chunks(offset, total, ss, done as int);
            assert(rest == seq![c] + sector_chunks(offset, total, ss, done + len));
            assert(out@.push(c) + sector_chunks(offset, total, ss, done + len) =~= out@ + rest);
        }
        out.push(c);
        done = done + len;
    }
    proof {
        assert(out@ + Seq::<SectorChunk>::empty() =~= out@);
    }
    out
}

/// Merge the chunk's bytes of `buf` into the sector read back, for writing
/// the sector again.
pub fn merge_chunk(sector: &mut Vec<u8>, buf: &[u8], c: SectorChunk)
    requires
        c.sector_off + c.len <= old(sector)@.len(),
        c.buf_from + c.len <= buf@.len(),
    ensures
        final(sector)@ == old(sector)@.subrange(0, c.sector_off as int)
            + buf@.subrange(c.buf_from as int, c.buf_from + c.len)
            + old(sector)@.subrange(c.sector_off + c.len, old(sector)@.len() as int),
{
    let n = sector.len();
    let m = buf.len();
    let mut k: usize = 0;
    while k < c.len
        invariant
            n == sector@.len(),
            m == buf@.len(),
            k <= c.len,
            c.sector_off + c.len <= sector@.len(),
            c.buf_from + c.len <= buf@.len(),
            sector@.len() == old(sector)@.len(),
            sector@ == old(sector)@.subrange(0, c.sector_off as int)
                + buf@.subrange(c.buf_from as int, c.buf_from + k)
                + old(sector)@.subrange(c.sector_off + k, old(sector)@.len() as int),
        decreases c.len - k,
    {
        sector.set(c.sector_off + k, buf[c.buf_from + k]);
        proof {
            assert(sector@ =~= old(sector)@.subrange(0, c.sector_off as int)
                + buf@.subrange(c.buf_from as int, c.buf_from + k + 1)
                + old(sector)@.subrange(c.sector_off + k + 1, old(sector)@.len() as int));
        }
        k = k + 1;
    }
}

} // verus!
