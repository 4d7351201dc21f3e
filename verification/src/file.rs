//! File descriptors, open file descriptions and per-process fd tables.
//!
//! A descriptor slot names a resource; the mutable open state (offset,
//! directory cookie, status flags) lives in an open file description that
//! dup/dup2 and exec inheritance share. Open file descriptions are kept in an
//! `OfdStore` and counted by the number of fd slots that refer to them.
use vstd::prelude::*;

verus! {

pub const MAX_FDS: usize = 64;
pub const DIR_PATH_MAX: usize = 96;

pub const O_APPEND: u32 = 0x400;
pub const O_NONBLOCK: u32 = 0x800;
pub const OFD_STATUS_MASK: u32 = 0xC00;

#[derive(Clone, Copy, Debug, PartialEq, Eq, Structural)]
pub enum FileMode {
    ReadOnly,
    WriteOnly,
    ReadWrite,
}

#[derive(Clone, Copy, Debug, PartialEq, Eq, Structural)]
pub enum PipeEnd {
    Read,
    Write,
}

#[derive(Clone, Copy, Debug, PartialEq, Eq, Structural)]
pub enum PtySide {
    Master,
    Slave,
}

#[derive(Clone, Copy, Debug, PartialEq, Eq, Structural)]
pub enum DeviceKind {
    Block,
    Char,
}

/// Resource identity stored in an fd slot. Offsets and cookies here are
/// only initial values; live ones are in the shared open file description.
#[derive(Clone, Copy, Debug)]
pub enum FileDescriptor {
    ConsoleIn,
    ConsoleOut,
    File { inode: u32, offset: u64, mode: FileMode },
    Socket { socket_id: usize },
    Pipe { pipe_id: usize, end: PipeEnd },
    Pty { pty_id: usize, side: PtySide },
    Device { inode: u32, offset: u64, mode: FileMode, kind: DeviceKind },
    Dir { path: [u8; 96], path_len: u8, cookie: u32 },
}

pub open spec fn spec_initial_offset(d: FileDescriptor) -> u64 {
    match d {
        FileDescriptor::File { offset, .. } => offset,
        FileDescriptor::Device { offset, .. } => offset,
        _ => 0,
    }
}

pub open spec fn spec_initial_cookie(d: FileDescriptor) -> u32 {
    match d {
        FileDescriptor::Dir { cookie, .. } => cookie,
        _ => 0,
    }
}

impl FileDescriptor {
    pub fn new_file(inode: u32, mode: FileMode) -> (r: Self)
        ensures
            r == (FileDescriptor::File { inode, offset: 0, mode }),
    {
        FileDescriptor::File { inode, offset: 0, mode }
    }

    pub fn new_socket(socket_id: usize) -> (r: Self)
        ensures
            r == (FileDescriptor::Socket { socket_id }),
    {
        FileDescriptor::Socket { socket_id }
    }

    pub fn new_pipe(pipe_id: usize, end: PipeEnd) -> (r: Self)
        ensures
            r == (FileDescriptor::Pipe { pipe_id, end }),
    {
        FileDescriptor::Pipe { pipe_id, end }
    }

    pub fn new_pty(pty_id: usize, side: PtySide) -> (r: Self)
        ensures
            r == (FileDescriptor::Pty { pty_id, side }),
    {
        FileDescriptor::Pty { pty_id, side }
    }

    pub fn is_socket(&self) -> (r: bool)
        ensures
            r == (*self is Socket),
    {
        match self {
            FileDescriptor::Socket { .. } => true,
            _ => false,
        }
    }

    pub fn initial_offset(self) -> (r: u64)
        ensures
            r == spec_initial_offset(self),
    {
        match self {
            FileDescriptor::File { offset, .. } => offset,
            FileDescriptor::Device { offset, .. } => offset,
            _ => 0,
        }
    }

    pub fn initial_cookie(self) -> (r: u32)
        ensures
            r == spec_initial_cookie(self),
    {
        match self {
            FileDescriptor::Dir { cookie, .. } => cookie,
            _ => 0,
        }
    }
}

/// Unix open-file-description state.
#[derive(Clone, Copy, Debug, PartialEq, Eq, Structural)]
pub struct OpenFileDescription {
    pub offset: u64,
    pub dir_cookie: u32,
    pub status_flags: u32,
}

impl OpenFileDescription {
    pub fn from_descriptor(desc: FileDescriptor) -> (r: Self)
        ensures
            r.offset == spec_initial_offset(desc),
            r.dir_cookie == spec_initial_cookie(desc),
            r.status_flags == 0,
    {
        OpenFileDescription {
            offset: desc.initial_offset(),
            dir_cookie: desc.initial_cookie(),
            status_flags: 0,
        }
    }
}

/// Handle of an open file description inside an `OfdStore`.
pub type SharedOpenFile = usize;

/// A live open file description and the number of fd slots naming it.
#[derive(Clone, Copy, Debug, PartialEq, Eq, Structural)]
pub struct OfdSlot {
    pub ofd: OpenFileDescription,
    pub refs: usize,
}

/// Arena of open file descriptions shared by all fd tables.
pub struct OfdStore {
    pub slots: Vec<Option<OfdSlot>>,
}

impl View for OfdStore {
    type V = Seq<Option<OfdSlot>>;

    open spec fn view(&self) -> Seq<Option<OfdSlot>> {
        self.slots@
    }
}

pub open spec fn live(s: Seq<Option<OfdSlot>>, h: int) -> bool {
    0 <= h < s.len() && s[h] is Some && s[h]->Some_0.refs > 0
}

impl OfdStore {
    pub fn new() -> (r: Self)
        ensures
            r@ == Seq::<Option<OfdSlot>>::empty(),
    {
        OfdStore { slots: Vec::new() }
    }

    /// A fresh description with one reference, in the first free slot.
    pub fn create(&mut self, ofd: OpenFileDescription) -> (h: SharedOpenFile)
        ensures
            h <= old(self)@.len(),
            h < old(self)@.len() ==> old(self)@[h as int] is None && final(self)@ == old(self)@.update(
                h as int,
                Some(OfdSlot { ofd, refs: 1 }),
            ),
            h == old(self)@.len() ==> final(self)@ == old(self)@.push(Some(OfdSlot { ofd, refs: 1 })),
            live(final(self)@, h as int),
            final(self)@[h as int] == Some(OfdSlot { ofd, refs: 1 }),
            forall|i: int| 0 <= i < old(self)@.len() && i != h ==> final(self)@[i] == old(self)@[i],
    {
        let mut i: usize = 0;
        while i < self.slots.len()
            invariant
                self.slots@ == old(self).slots@,
                0 <= i <= self.slots@.len(),
                forall|j: int| 0 <= j < i ==> self.slots@[j] is Some,
            decreases self.slots@.len() - i,
        {
            if self.slots[i].is_none() {
                self.slots.set(i, Some(OfdSlot { ofd, refs: 1 }));
                return i;
            }
            i = i + 1;
        }
        self.slots.push(Some(OfdSlot { ofd, refs: 1 }));
        i
    }

    /// One more slot refers to `h`.
    pub fn retain(&mut self, h: SharedOpenFile)
        requires
            live(old(self)@, h as int),
            old(self)@[h as int]->Some_0.refs < usize::MAX,
        ensures
            final(self)@ == old(self)@.update(
                h as int,
                Some(OfdSlot { ofd: old(self)@[h as int]->Some_0.ofd, refs: (old(self)@[h as int]->Some_0.refs + 1) as usize }),
            ),
    {
        let slot = self.slots[h].unwrap();
        self.slots.set(h, Some(OfdSlot { ofd: slot.ofd, refs: slot.refs + 1 }));
    }

    /// One slot stopped referring to `h`. Returns true when that was the
    /// last reference, in which case the description is gone.
    pub fn release(&mut self, h: SharedOpenFile) -> (last: bool)
        requires
            live(old(self)@, h as int),
        ensures
            last == (old(self)@[h as int]->Some_0.refs == 1),
            last ==> final(self)@ == old(self)@.update(h as int, None),
            !last ==> final(self)@ == old(self)@.update(
                h as int,
                Some(OfdSlot { ofd: old(self)@[h as int]->Some_0.ofd, refs: (old(self)@[h as int]->Some_0.refs - 1) as usize }),
            ),
    {
        let slot = self.slots[h].unwrap();
        if slot.refs == 1 {
            self.slots.set(h, None);
            true
        } else {
            self.slots.set(h, Some(OfdSlot { ofd: slot.ofd, refs: slot.refs - 1 }));
            false
        }
    }

    pub fn get(&self, h: SharedOpenFile) -> (r: OpenFileDescription)
        requires
            live(self@, h as int),
        ensures
            r == self@[h as int]->Some_0.ofd,
    {
        self.slots[h].unwrap().ofd
    }

    pub fn put(&mut self, h: SharedOpenFile, ofd: OpenFileDescription)
        requires
            live(old(self)@, h as int),
        ensures
            final(self)@ == old(self)@.update(
                h as int,
                Some(OfdSlot { ofd, refs: old(self)@[h as int]->Some_0.refs }),
            ),
    {
        let slot = self.slots[h].unwrap();
        self.slots.set(h, Some(OfdSlot { ofd, refs: slot.refs }));
    }
}

/// What `FileDescriptorTable::close` hands back.
#[derive(Clone, Copy, Debug)]
pub struct ClosedFileDescriptor {
    pub desc: FileDescriptor,
    /// True when this slot held the last reference to its open file
    /// description; backing pipes, sockets and PTYs are released only then.
    pub last_open_ref: bool,
}

/// The occupied slots' descriptors, in slot order.
pub open spec fn occupied(s: Seq<Option<FileDescriptor>>) -> Seq<FileDescriptor>
    decreases s.len(),
{
    if s.len() == 0 {
        Seq::empty()
    } else {
        let rest = occupied(s.drop_last());
        match s.last() {
            Some(d) => rest.push(d),
            None => rest,
        }
    }
}


/// `s` without its trailing slashes.
pub open spec fn trim_slashes_end(s: Seq<u8>) -> Seq<u8>
    decreases s.len(),
{
    if s.len() > 0 && s.last() == 0x2Fu8 { trim_slashes_end(s.drop_last()) } else { s }
}

/// The prefix that marks paths below directory `old`: `old/`, or `/` for
/// the root.
pub open spec fn below_prefix(old: Seq<u8>) -> Seq<u8> {
    if old == seq![0x2Fu8] { seq![0x2Fu8] } else { trim_slashes_end(old).push(0x2Fu8) }
}

/// The name directory `cur` gets when `old` is renamed to `new`: `new`
/// itself for `old`, `new/rest` for `old/rest` (`/rest` under the root);
/// `None` when it is not affected or the new name would not fit in 96
/// bytes.
pub open spec fn renamed_dir(cur: Seq<u8>, old: Seq<u8>, new: Seq<u8>) -> Option<Seq<u8>> {
    let pre = below_prefix(old);
    let suffix = if cur == old {
        Some(Seq::<u8>::empty())
    } else if pre.len() <= cur.len() && cur.subrange(0, pre.len() as int) == pre {
        Some(cur.subrange(pre.len() as int, cur.len() as int))
    } else {
        None
    };
    match suffix {
        None => None,
        Some(sfx) => {
            let rep = if sfx.len() == 0 {
                new
            } else if new == seq![0x2Fu8] {
                seq![0x2Fu8] + sfx
            } else {
                trim_slashes_end(new).push(0x2Fu8) + sfx
            };
            if rep.len() >= 96 { None } else { Some(rep) }
        },
    }
}

/// The new name of the directory descriptor `d`, if a rename of `old` to
/// `new` moves it (its name must be UTF-8).
pub open spec fn dir_rewrite(d: Option<FileDescriptor>, old: Seq<u8>, new: Seq<u8>) -> Option<Seq<u8>> {
    match d {
        Some(FileDescriptor::Dir { path, path_len, cookie }) => {
            let cur = path@.subrange(0, path_len as int);
            if !vstd::utf8::valid_utf8(cur) { None } else { renamed_dir(cur, old, new) }
        },
        _ => None,
    }
}

fn trim_slashes_end_len(s: &[u8]) -> (r: usize)
    ensures
        r <= s@.len(),
        s@.subrange(0, r as int) == trim_slashes_end(s@),
{
    let mut n = s.len();
    assert(s@.subrange(0, s@.len() as int) =~= s@);
    while n > 0 && s[n - 1] == 0x2F
        invariant
            n <= s@.len(),
            trim_slashes_end(s@.subrange(0, n as int)) == trim_slashes_end(s@),
        decreases n,
    {
        assert(s@.subrange(0, n as int).drop_last() =~= s@.subrange(0, n - 1));
        n = n - 1;
    }
    n
}

fn renamed_dir_exec(cur: &[u8], old: &[u8], new: &[u8]) -> (r: Option<Vec<u8>>)
    ensures
        match renamed_dir(cur@, old@, new@) {
            None => r is None,
            Some(rep) => r matches Some(v) && v@ == rep,
        },
{
    let root: [u8; 1] = [0x2F];
    assert(root@ =~= seq![0x2Fu8]);
    let mut pre: Vec<u8> = Vec::new();
    if crate::util::bytes_eq(old, &root) {
        pre.push(0x2F);
        assert(pre@ =~= below_prefix(old@));
    } else {
        let n = trim_slashes_end_len(old);
        pre = crate::bytes::slice_to_vec(old, 0, n);
        pre.push(0x2F);
        assert(pre@ =~= below_prefix(old@));
    }
    let sfx: Vec<u8> = if crate::util::bytes_eq(cur, old) {
        Vec::new()
    } else if crate::bytes::starts_with(cur, pre.as_slice()) {
        crate::bytes::slice_to_vec(cur, pre.len(), cur.len())
    } else {
        return None;
    };
    proof {
        if cur@ != old@ {
            assert(crate::bytes::is_prefix(pre@, cur@));
            assert(cur@.subrange(0, pre@.len() as int) =~= pre@);
        }
    }
    let mut rep: Vec<u8> = Vec::new();
    if sfx.len() == 0 {
        rep = crate::bytes::slice_to_vec(new, 0, new.len());
        assert(new@.subrange(0, new@.len() as int) =~= new@);
    } else if crate::util::bytes_eq(new, &root) {
        rep.push(0x2F);
        crate::bytes::push_bytes(&mut rep, sfx.as_slice());
        assert(rep@ =~= seq![0x2Fu8] + sfx@);
    } else {
        let n = trim_slashes_end_len(new);
        rep = crate::bytes::slice_to_vec(new, 0, n);
        rep.push(0x2F);
        crate::bytes::push_bytes(&mut rep, sfx.as_slice());
        assert(rep@ =~= trim_slashes_end(new@).push(0x2Fu8) + sfx@);
    }
    if rep.len() >= 96 {
        return None;
    }
    Some(rep)
}

/// Per-process table of 64 descriptor slots.
pub struct FileDescriptorTable {
    pub fds: Vec<Option<FileDescriptor>>,
    pub ofds: Vec<Option<SharedOpenFile>>,
}

/// Number of slots in `s` that name description `h`.
pub open spec fn slot_count(s: Seq<Option<usize>>, h: usize) -> nat
    decreases s.len(),
{
    if s.len() == 0 {
        0
    } else {
        slot_count(s.drop_last(), h) + if s.last() == Some(h) { 1nat } else { 0nat }
    }
}

pub proof fn lemma_slot_count_update(s: Seq<Option<usize>>, i: int, v: Option<usize>, h: usize)
    requires
        0 <= i < s.len(),
    ensures
        slot_count(s.update(i, v), h) + (if s[i] == Some(h) { 1int } else { 0int })
            == slot_count(s, h) + (if v == Some(h) { 1int } else { 0int }),
    decreases s.len(),
{
    let u = s.update(i, v);
    if i == s.len() - 1 {
        assert(u.drop_last() =~= s.drop_last());
    } else {
        assert(u.drop_last() =~= s.drop_last().update(i, v));
        lemma_slot_count_update(s.drop_last(), i, v, h);
    }
}

pub proof fn lemma_slot_count_zero(s: Seq<Option<usize>>, h: usize)
    requires
        forall|i: int| 0 <= i < s.len() ==> s[i] != Some(h),
    ensures
        slot_count(s, h) == 0,
    decreases s.len(),
{
    if s.len() > 0 {
        lemma_slot_count_zero(s.drop_last(), h);
    }
}

pub proof fn lemma_slot_count_pos(s: Seq<Option<usize>>, i: int, h: usize)
    requires
        0 <= i < s.len(),
        s[i] == Some(h),
    ensures
        slot_count(s, h) >= 1,
    decreases s.len(),
{
    if i < s.len() - 1 {
        lemma_slot_count_pos(s.drop_last(), i, h);
    }
}

pub open spec fn table_wf(fds: Seq<Option<FileDescriptor>>, ofds: Seq<Option<usize>>) -> bool {
    &&& fds.len() == MAX_FDS
    &&& ofds.len() == MAX_FDS
    &&& forall|i: int| 0 <= i < MAX_FDS ==> (#[trigger] fds[i] is Some) == (ofds[i] is Some)
}

impl FileDescriptorTable {
    pub open spec fn wf(&self) -> bool {
        table_wf(self.fds@, self.ofds@)
    }

    /// Every description this table names is alive in `store` and holds at
    /// least one reference per slot of this table that names it.
    pub open spec fn valid_in(&self, store: Seq<Option<OfdSlot>>) -> bool {
        forall|i: int| 0 <= i < self.ofds@.len() && #[trigger] self.ofds@[i] is Some ==> {
            let h = self.ofds@[i]->Some_0;
            live(store, h as int) && store[h as int]->Some_0.refs >= slot_count(self.ofds@, h)
        }
    }

    /// Every description this table names holds exactly one reference per
    /// slot of this table that names it: no other table shares it.
    pub open spec fn counts_exact(&self, store: Seq<Option<OfdSlot>>) -> bool {
        forall|i: int| 0 <= i < self.ofds@.len() && #[trigger] self.ofds@[i] is Some ==> {
            let h = self.ofds@[i]->Some_0;
            store[h as int]->Some_0.refs == slot_count(self.ofds@, h)
        }
    }

    /// Live description of slot `fd`, if any.
    pub open spec fn ofd_of(&self, store: Seq<Option<OfdSlot>>, fd: int) -> Option<OpenFileDescription> {
        if 0 <= fd < self.ofds@.len() && self.ofds@[fd] is Some {
            Some(store[self.ofds@[fd]->Some_0 as int]->Some_0.ofd)
        } else {
            None
        }
    }

    pub fn new() -> (r: Self)
        ensures
            r.wf(),
            forall|i: int| 0 <= i < MAX_FDS ==> r.fds@[i] is None && r.ofds@[i] is None,
    {
        let mut fds: Vec<Option<FileDescriptor>> = Vec::new();
        let mut ofds: Vec<Option<SharedOpenFile>> = Vec::new();
        let mut i: usize = 0;
        while i < MAX_FDS
            invariant
                0 <= i <= MAX_FDS,
                fds@.len() == i,
                ofds@.len() == i,
                forall|j: int| 0 <= j < i ==> fds@[j] is None && ofds@[j] is None,
            decreases MAX_FDS - i,
        {
            fds.push(None);
            ofds.push(None);
            i = i + 1;
        }
        FileDescriptorTable { fds, ofds }
    }

    /// Default stdio: 0 = console in, 1 and 2 = console out, each with its
    /// own open file description.
    pub fn with_stdio(store: &mut OfdStore) -> (r: Self)
        ensures
            r.wf(),
            r.valid_in(final(store)@),
            r.fds@[0] == Some(FileDescriptor::ConsoleIn),
            r.fds@[1] == Some(FileDescriptor::ConsoleOut),
            r.fds@[2] == Some(FileDescriptor::ConsoleOut),
            forall|i: int| 3 <= i < MAX_FDS ==> r.fds@[i] is None,
            forall|i: int| 0 <= i < 3 ==> (#[trigger] r.ofds@[i]) is Some && final(store)@[r.ofds@[i]->Some_0 as int]
                == Some(OfdSlot { ofd: OpenFileDescription { offset: 0, dir_cookie: 0, status_flags: 0 }, refs: 1 }),
            r.ofds@[0] != r.ofds@[1] && r.ofds@[0] != r.ofds@[2] && r.ofds@[1] != r.ofds@[2],
            r.counts_exact(final(store)@),
            forall|i: int| 0 <= i < old(store)@.len() && old(store)@[i] is Some ==> final(store)@[i] == old(store)@[i],
    {
        let mut t = Self::new();
        let ghost s0 = store@;
        let _ = t.insert(0, FileDescriptor::ConsoleIn, store);
        let ghost s1 = store@;
        let ghost h0 = t.ofds@[0]->Some_0;
        let _ = t.insert(1, FileDescriptor::ConsoleOut, store);
        let ghost s2 = store@;
        let ghost h1 = t.ofds@[1]->Some_0;
        let _ = t.insert(2, FileDescriptor::ConsoleOut, store);
        let ghost h2 = t.ofds@[2]->Some_0;
        proof {
            assert(s1[h0 as int] is Some);
            assert(h1 != h0);
            assert(s2[h0 as int] == s1[h0 as int]);
            assert(s2[h1 as int] is Some);
            assert(h2 != h0 && h2 != h1);
            assert(store@[h0 as int] == s2[h0 as int]);
            assert(store@[h1 as int] == s2[h1 as int]);
            let n = t.ofds@;
            assert(n[0] == Some(h0) && n[1] == Some(h1) && n[2] == Some(h2));
            assert forall|i: int| 0 <= i < n.len() && #[trigger] n[i] is Some implies
                store@[n[i]->Some_0 as int]->Some_0.refs == slot_count(n, n[i]->Some_0) by {
                assert(0 <= i < 3);
                let hh = n[i]->Some_0;
                let z = n.update(i, None);
                lemma_slot_count_update(n, i, None, hh);
                assert forall|j: int| 0 <= j < z.len() implies z[j] != Some(hh) by {
                    if j != i && j < 3 {
                        assert(n[j] != n[i]);
                    }
                }
                lemma_slot_count_zero(z, hh);
            }
        }
        t
    }

    pub fn get_flags(&self, fd: usize, store: &OfdStore) -> (r: u32)
        requires
            self.wf(),
            self.valid_in(store@),
        ensures
            r == match self.ofd_of(store@, fd as int) {
                Some(o) => o.status_flags,
                None => 0,
            },
    {
        if fd >= MAX_FDS {
            return 0;
        }
        match self.ofds[fd] {
            Some(h) => store.get(h).status_flags,
            None => 0,
        }
    }

    /// Replace the status flags of `fd`'s description; only O_APPEND and
    /// O_NONBLOCK are kept.
    pub fn set_flags(&mut self, fd: usize, flags: u32, store: &mut OfdStore) -> (r: bool)
        requires
            old(self).wf(),
            old(self).valid_in(old(store)@),
        ensures
            final(self).fds@ == old(self).fds@,
            final(self).ofds@ == old(self).ofds@,
            r == (old(self).ofd_of(old(store)@, fd as int) is Some),
            r ==> {
                let h = old(self).ofds@[fd as int]->Some_0 as int;
                let o = old(store)@[h]->Some_0;
                final(store)@ == old(store)@.update(h, Some(OfdSlot {
                    ofd: OpenFileDescription { status_flags: flags & OFD_STATUS_MASK, ..o.ofd },
                    refs: o.refs,
                }))
            },
            !r ==> final(store)@ == old(store)@,
    {
        if fd >= MAX_FDS {
            return false;
        }
        match self.ofds[fd] {
            Some(h) => {
                let o = store.get(h);
                store.put(h, OpenFileDescription { status_flags: flags & OFD_STATUS_MASK, ..o });
                true
            },
            None => false,
        }
    }

    pub fn is_nonblock(&self, fd: usize, store: &OfdStore) -> (r: bool)
        requires
            self.wf(),
            self.valid_in(store@),
        ensures
            r == (self.ofd_of(store@, fd as int) matches Some(o) && o.status_flags & O_NONBLOCK != 0),
    {
        let f = self.get_flags(fd, store);
        assert(0u32 & 0x800u32 == 0) by (bit_vector);
        f & O_NONBLOCK != 0
    }

    pub fn get_offset(&self, fd: usize, store: &OfdStore) -> (r: Option<u64>)
        requires
            self.wf(),
            self.valid_in(store@),
        ensures
            r == match self.ofd_of(store@, fd as int) {
                Some(o) => Some(o.offset),
                None => None,
            },
    {
        if fd >= MAX_FDS {
            return None;
        }
        match self.ofds[fd] {
            Some(h) => Some(store.get(h).offset),
            None => None,
        }
    }

    pub fn set_offset(&self, fd: usize, offset: u64, store: &mut OfdStore) -> (r: bool)
        requires
            self.wf(),
            self.valid_in(old(store)@),
        ensures
            r == (self.ofd_of(old(store)@, fd as int) is Some),
            r ==> {
                let h = self.ofds@[fd as int]->Some_0 as int;
                let o = old(store)@[h]->Some_0;
                final(store)@ == old(store)@.update(h, Some(OfdSlot {
                    ofd: OpenFileDescription { offset, ..o.ofd },
                    refs: o.refs,
                }))
            },
            !r ==> final(store)@ == old(store)@,
    {
        if fd >= MAX_FDS {
            return false;
        }
        match self.ofds[fd] {
            Some(h) => {
                let o = store.get(h);
                store.put(h, OpenFileDescription { offset, ..o });
                true
            },
            None => false,
        }
    }

    /// Move the shared offset forward by `amount` (saturating) and return it.
    pub fn advance_offset(&self, fd: usize, amount: u64, store: &mut OfdStore) -> (r: Option<u64>)
        requires
            self.wf(),
            self.valid_in(old(store)@),
        ensures
            (r is Some) == (self.ofd_of(old(store)@, fd as int) is Some),
            r matches Some(n) ==> {
                let h = self.ofds@[fd as int]->Some_0 as int;
                let o = old(store)@[h]->Some_0;
                &&& n == (if o.ofd.offset + amount > u64::MAX { u64::MAX as int } else { o.ofd.offset + amount })
                &&& final(store)@ == old(store)@.update(h, Some(OfdSlot {
                    ofd: OpenFileDescription { offset: n, ..o.ofd },
                    refs: o.refs,
                }))
            },
            r is None ==> final(store)@ == old(store)@,
    {
        if fd >= MAX_FDS {
            return None;
        }
        match self.ofds[fd] {
            Some(h) => {
                let o = store.get(h);
                let n = o.offset.saturating_add(amount);
                store.put(h, OpenFileDescription { offset: n, ..o });
                Some(n)
            },
            None => None,
        }
    }

    pub fn get_cookie(&self, fd: usize, store: &OfdStore) -> (r: Option<u32>)
        requires
            self.wf(),
            self.valid_in(store@),
        ensures
            r == match self.ofd_of(store@, fd as int) {
                Some(o) => Some(o.dir_cookie),
                None => None,
            },
    {
        if fd >= MAX_FDS {
            return None;
        }
        match self.ofds[fd] {
            Some(h) => Some(store.get(h).dir_cookie),
            None => None,
        }
    }

    pub fn set_cookie(&self, fd: usize, cookie: u32, store: &mut OfdStore) -> (r: bool)
        requires
            self.wf(),
            self.valid_in(old(store)@),
        ensures
            r == (self.ofd_of(old(store)@, fd as int) is Some),
            r ==> {
                let h = self.ofds@[fd as int]->Some_0 as int;
                let o = old(store)@[h]->Some_0;
                final(store)@ == old(store)@.update(h, Some(OfdSlot {
                    ofd: OpenFileDescription { dir_cookie: cookie, ..o.ofd },
                    refs: o.refs,
                }))
            },
            !r ==> final(store)@ == old(store)@,
    {
        if fd >= MAX_FDS {
            return false;
        }
        match self.ofds[fd] {
            Some(h) => {
                let o = store.get(h);
                store.put(h, OpenFileDescription { dir_cookie: cookie, ..o });
                true
            },
            None => false,
        }
    }

    /// Lowest free slot.
    pub fn alloc_fd(&self) -> (r: Option<usize>)
        requires
            self.wf(),
        ensures
            match r {
                Some(i) => i < MAX_FDS && self.fds@[i as int] is None && forall|j: int| 0 <= j < i ==> self.fds@[j] is Some,
                None => forall|j: int| 0 <= j < MAX_FDS ==> self.fds@[j] is Some,
            },
    {
        self.alloc_fd_from(0)
    }

    /// Lowest free slot at or above `min`.
    pub fn alloc_fd_from(&self, min: usize) -> (r: Option<usize>)
        requires
            self.wf(),
        ensures
            match r {
                Some(i) => min <= i < MAX_FDS && self.fds@[i as int] is None && forall|j: int| min <= j < i ==> self.fds@[j] is Some,
                None => forall|j: int| min <= j < MAX_FDS ==> self.fds@[j] is Some,
            },
    {
        let mut i = min;
        while i < MAX_FDS
            invariant
                self.wf(),
                min <= i,
                forall|j: int| min <= j < i && j < MAX_FDS ==> self.fds@[j] is Some,
            decreases MAX_FDS - i,
        {
            if self.fds[i].is_none() {
                return Some(i);
            }
            i = i + 1;
        }
        None
    }

    pub fn get(&self, fd: usize) -> (r: Option<FileDescriptor>)
        requires
            self.wf(),
        ensures
            r == if fd < MAX_FDS { self.fds@[fd as int] } else { None },
    {
        if fd >= MAX_FDS {
            return None;
        }
        self.fds[fd]
    }

    /// The descriptor of `fd` and the description it shares, for handing to
    /// another table with `insert_shared`.
    pub fn clone_entry(&self, fd: usize) -> (r: Option<(FileDescriptor, SharedOpenFile)>)
        requires
            self.wf(),
        ensures
            r == if fd < MAX_FDS && self.fds@[fd as int] is Some {
                Some((self.fds@[fd as int]->Some_0, self.ofds@[fd as int]->Some_0))
            } else {
                None
            },
    {
        if fd >= MAX_FDS {
            return None;
        }
        match (self.fds[fd], self.ofds[fd]) {
            (Some(d), Some(h)) => Some((d, h)),
            _ => None,
        }
    }

    /// Install `desc` with a fresh description in the free slot `fd`.
    pub fn insert(&mut self, fd: usize, desc: FileDescriptor, store: &mut OfdStore) -> (r: bool)
        requires
            old(self).wf(),
            old(self).valid_in(old(store)@),
        ensures
            final(self).wf(),
            final(self).valid_in(final(store)@),
            r == (fd < MAX_FDS && old(self).fds@[fd as int] is None),
            r ==> {
                &&& final(self).fds@ == old(self).fds@.update(fd as int, Some(desc))
                &&& final(self).ofds@[fd as int] is Some
                &&& old(store)@.len() <= final(self).ofds@[fd as int]->Some_0 || old(store)@[final(self).ofds@[fd as int]->Some_0 as int] is None
                &&& final(store)@[final(self).ofds@[fd as int]->Some_0 as int] == Some(OfdSlot { ofd: OpenFileDescription {
                    offset: spec_initial_offset(desc),
                    dir_cookie: spec_initial_cookie(desc),
                    status_flags: 0,
                }, refs: 1 })
                &&& forall|i: int| 0 <= i < MAX_FDS && i != fd ==> final(self).ofds@[i] == old(self).ofds@[i]
            },
            !r ==> final(self).fds@ == old(self).fds@ && final(self).ofds@ == old(self).ofds@ && final(store)@ == old(store)@,
            forall|i: int| 0 <= i < old(store)@.len() && old(store)@[i] is Some ==> final(store)@[i] == old(store)@[i],
            final(store)@.len() >= old(store)@.len(),
    {
        if fd >= MAX_FDS || self.fds[fd].is_some() {
            return false;
        }
        let h = store.create(OpenFileDescription::from_descriptor(desc));
        self.fds.set(fd, Some(desc));
        self.ofds.set(fd, Some(h));
        proof {
            let o = old(self).ofds@;
            let n = self.ofds@;
            assert(n == o.update(fd as int, Some(h)));
            assert forall|j: int| 0 <= j < o.len() implies o[j] != Some(h) by {
                if o[j] == Some(h) {
                    assert(live(old(store)@, h as int));
                }
            }
            lemma_slot_count_zero(o, h);
            assert forall|i: int| 0 <= i < n.len() && #[trigger] n[i] is Some implies {
                let hh = n[i]->Some_0;
                live(store@, hh as int) && store@[hh as int]->Some_0.refs >= slot_count(n, hh)
            } by {
                let hh = n[i]->Some_0;
                lemma_slot_count_update(o, fd as int, Some(h), hh);
                if hh != h {
                    assert(i != fd);
                    assert(o[i] == Some(hh));
                    assert(live(old(store)@, hh as int));
                    assert(store@[hh as int] == old(store)@[hh as int]);
                }
            }
        }
        true
    }

    /// Install `desc` in the free slot `fd`, sharing the description `ofd`.
    pub fn insert_shared(&mut self, fd: usize, desc: FileDescriptor, ofd: SharedOpenFile, store: &mut OfdStore) -> (r: bool)
        requires
            old(self).wf(),
            old(self).valid_in(old(store)@),
            live(old(store)@, ofd as int),
            old(store)@[ofd as int]->Some_0.refs < usize::MAX,
        ensures
            final(self).wf(),
            final(self).valid_in(final(store)@),
            r == (fd < MAX_FDS && old(self).fds@[fd as int] is None),
            r ==> {
                &&& final(self).fds@ == old(self).fds@.update(fd as int, Some(desc))
                &&& final(self).ofds@ == old(self).ofds@.update(fd as int, Some(ofd))
                &&& final(store)@ == old(store)@.update(ofd as int, Some(OfdSlot {
                    ofd: old(store)@[ofd as int]->Some_0.ofd,
                    refs: (old(store)@[ofd as int]->Some_0.refs + 1) as usize,
                }))
            },
            !r ==> final(self).fds@ == old(self).fds@ && final(self).ofds@ == old(self).ofds@ && final(store)@ == old(store)@,
    {
        if fd >= MAX_FDS || self.fds[fd].is_some() {
            return false;
        }
        store.retain(ofd);
        self.fds.set(fd, Some(desc));
        self.ofds.set(fd, Some(ofd));
        proof {
            let o = old(self).ofds@;
            let n = self.ofds@;
            assert forall|i: int| 0 <= i < n.len() && #[trigger] n[i] is Some implies {
                let hh = n[i]->Some_0;
                live(store@, hh as int) && store@[hh as int]->Some_0.refs >= slot_count(n, hh)
            } by {
                let hh = n[i]->Some_0;
                lemma_slot_count_update(o, fd as int, Some(ofd), hh);
                if hh != ofd {
                    assert(o[i] == Some(hh));
                } else {
                    if exists|w: int| 0 <= w < o.len() && o[w] == Some(ofd) {
                        let w = choose|w: int| 0 <= w < o.len() && o[w] == Some(ofd);
                        assert(o[w] is Some);
                    } else {
                        lemma_slot_count_zero(o, ofd);
                    }
                }
            }
        }
        true
    }

    /// Drop slot `fd`'s reference to its description, if it holds one.
    fn drop_ofd(&mut self, fd: usize, store: &mut OfdStore) -> (last: bool)
        requires
            old(self).ofds@.len() == MAX_FDS,
            old(self).valid_in(old(store)@),
            fd < MAX_FDS,
        ensures
            final(self).fds@ == old(self).fds@,
            final(self).ofds@ == old(self).ofds@.update(fd as int, None),
            old(self).ofds@[fd as int] is None ==> final(store)@ == old(store)@ && last,
            old(self).ofds@[fd as int] matches Some(h) ==> {
                let o = old(store)@[h as int]->Some_0;
                &&& last == (o.refs == 1)
                &&& last ==> final(store)@ == old(store)@.update(h as int, None)
                &&& !last ==> final(store)@ == old(store)@.update(h as int, Some(OfdSlot { ofd: o.ofd, refs: (o.refs - 1) as usize }))
            },
    {
        match self.ofds[fd] {
            Some(h) => {
                let last = store.release(h);
                self.ofds.set(fd, None);
                last
            },
            None => true,
        }
    }

    /// Close `fd`. Reports whether this was the last reference to the
    /// description (true too when the slot had none).
    pub fn close(&mut self, fd: usize, store: &mut OfdStore) -> (r: Option<ClosedFileDescriptor>)
        requires
            old(self).wf(),
            old(self).valid_in(old(store)@),
        ensures
            final(self).wf(),
            final(self).valid_in(final(store)@),
            (r is Some) == (fd < MAX_FDS && old(self).fds@[fd as int] is Some),
            r is None ==> final(self).fds@ == old(self).fds@ && final(self).ofds@ == old(self).ofds@ && final(store)@ == old(store)@,
            r matches Some(c) ==> {
                let h = old(self).ofds@[fd as int]->Some_0 as int;
                let o = old(store)@[h]->Some_0;
                &&& c.desc == old(self).fds@[fd as int]->Some_0
                &&& c.last_open_ref == (o.refs == 1)
                &&& final(self).fds@ == old(self).fds@.update(fd as int, None)
                &&& final(self).ofds@ == old(self).ofds@.update(fd as int, None)
                &&& c.last_open_ref ==> final(store)@ == old(store)@.update(h, None)
                &&& !c.last_open_ref ==> final(store)@ == old(store)@.update(h, Some(OfdSlot { ofd: o.ofd, refs: (o.refs - 1) as usize }))
            },
            old(self).counts_exact(old(store)@) ==> final(self).counts_exact(final(store)@),
    {
        if fd >= MAX_FDS {
            return None;
        }
        let desc = match self.fds[fd] {
            Some(d) => d,
            None => return None,
        };
        self.fds.set(fd, None);
        let ghost st = store@;
        let last = self.drop_ofd(fd, store);
        proof {
            let o = old(self).ofds@;
            let n = self.ofds@;
            let h = o[fd as int]->Some_0;
            assert(o[fd as int] is Some);
            assert forall|i: int| 0 <= i < n.len() && #[trigger] n[i] is Some implies {
                let hh = n[i]->Some_0;
                live(store@, hh as int) && store@[hh as int]->Some_0.refs >= slot_count(n, hh)
            } by {
                let hh = n[i]->Some_0;
                assert(i != fd);
                assert(o[i] == Some(hh));
                lemma_slot_count_update(o, fd as int, None, hh);
                if hh == h {
                    lemma_slot_count_pos(n, i, hh);
                }
            }
            if old(self).counts_exact(st) {
                assert forall|i: int| 0 <= i < n.len() && #[trigger] n[i] is Some implies
                    store@[n[i]->Some_0 as int]->Some_0.refs == slot_count(n, n[i]->Some_0) by {
                    let hh = n[i]->Some_0;
                    assert(i != fd);
                    assert(o[i] == Some(hh));
                    assert(o[i] is Some);
                    lemma_slot_count_update(o, fd as int, None, hh);
                    if hh == h {
                        lemma_slot_count_pos(n, i, hh);
                    }
                }
            }
        }
        Some(ClosedFileDescriptor { desc, last_open_ref: last })
    }

    /// Close every slot, lowest first.
    pub fn take_all(&mut self, store: &mut OfdStore) -> (r: Vec<ClosedFileDescriptor>)
        requires
            old(self).wf(),
            old(self).valid_in(old(store)@),
        ensures
            final(self).wf(),
            forall|i: int| 0 <= i < MAX_FDS ==> final(self).fds@[i] is None && final(self).ofds@[i] is None,
            r@.len() == occupied(old(self).fds@).len(),
            forall|k: int| 0 <= k < r@.len() ==> (#[trigger] r@[k]).desc == occupied(old(self).fds@)[k],
    {
        let mut out: Vec<ClosedFileDescriptor> = Vec::new();
        let mut fd: usize = 0;
        while fd < MAX_FDS
            invariant
                0 <= fd <= MAX_FDS,
                self.wf(),
                self.valid_in(store@),
                forall|i: int| 0 <= i < fd ==> self.fds@[i] is None && self.ofds@[i] is None,
                forall|i: int| fd <= i < MAX_FDS ==> self.fds@[i] == old(self).fds@[i],
                old(self).fds@.len() == MAX_FDS,
                out@.len() == occupied(old(self).fds@.take(fd as int)).len(),
                forall|k: int| 0 <= k < out@.len() ==> (#[trigger] out@[k]).desc == occupied(old(self).fds@.take(fd as int))[k],
            decreases MAX_FDS - fd,
        {
            let ghost before = self.fds@;
            let ghost st = store@;
            proof {
                assert(old(self).fds@.take(fd as int + 1).drop_last() =~= old(self).fds@.take(fd as int));
            }
            match self.close(fd, store) {
                Some(c) => {
                    out.push(c);
                },
                None => {},
            }
            fd = fd + 1;
        }
        proof {
            assert(old(self).fds@.take(MAX_FDS as int) =~= old(self).fds@);
        }
        out
    }

    /// Install `desc` in slot `fd` with an open file description of its
    /// own, dropping the slot's reference to the one it had. Returns the
    /// descriptor that was there.
    pub fn set(&mut self, fd: usize, desc: FileDescriptor, store: &mut OfdStore) -> (r: Option<FileDescriptor>)
        requires
            old(self).wf(),
            old(self).valid_in(old(store)@),
        ensures
            final(self).wf(),
            final(self).valid_in(final(store)@),
            fd >= MAX_FDS ==> r is None && final(self).fds@ == old(self).fds@ && final(self).ofds@ == old(self).ofds@
                && final(store)@ == old(store)@,
            fd < MAX_FDS ==> {
                &&& r == old(self).fds@[fd as int]
                &&& final(self).fds@ == old(self).fds@.update(fd as int, Some(desc))
                &&& final(self).ofds@[fd as int] matches Some(h)
                &&& final(store)@[h as int] == Some(OfdSlot { ofd: OpenFileDescription {
                    offset: spec_initial_offset(desc),
                    dir_cookie: spec_initial_cookie(desc),
                    status_flags: 0,
                }, refs: 1 })
                &&& forall|i: int| 0 <= i < MAX_FDS && i != fd ==> final(self).ofds@[i] == old(self).ofds@[i]
            },
    {
        if fd >= MAX_FDS {
            return None;
        }
        let closed = self.close(fd, store);
        let _ = self.insert(fd, desc, store);
        match closed {
            Some(c) => Some(c.desc),
            None => None,
        }
    }

    /// A directory renamed from `from` to `to` keeps its open descriptors:
    /// each directory descriptor it moves (see [`dir_rewrite`]) gets its new
    /// name; its position stays.
    pub fn rewrite_dir_paths(&mut self, from: &[u8], to: &[u8])
        requires
            old(self).wf(),
            forall|i: int| 0 <= i < MAX_FDS ==> (#[trigger] old(self).fds@[i] matches Some(FileDescriptor::Dir { path_len, .. })
                ==> path_len <= 96),
        ensures
            final(self).wf(),
            final(self).ofds@ == old(self).ofds@,
            forall|i: int| 0 <= i < MAX_FDS ==> match dir_rewrite(old(self).fds@[i], from@, to@) {
                None => #[trigger] final(self).fds@[i] == old(self).fds@[i],
                Some(rep) => (final(self).fds@[i] matches Some(FileDescriptor::Dir { path: p2, path_len: l2, cookie: c2 })
                    && l2 == rep.len() && (old(self).fds@[i] matches Some(FileDescriptor::Dir { cookie, .. }) && c2 == cookie)
                    && forall|k: int| 0 <= k < 96 ==> #[trigger] p2@[k] == (if k < rep.len() { rep[k] } else { 0u8 })),
            },
    {
        let mut i: usize = 0;
        while i < MAX_FDS
            invariant
                self.wf(),
                i <= MAX_FDS,
                self.ofds@ == old(self).ofds@,
                forall|j: int| 0 <= j < MAX_FDS ==> (#[trigger] old(self).fds@[j] matches Some(FileDescriptor::Dir { path_len, .. })
                    ==> path_len <= 96),
                forall|j: int| i <= j < MAX_FDS ==> #[trigger] self.fds@[j] == old(self).fds@[j],
                forall|j: int| 0 <= j < i ==> match dir_rewrite(old(self).fds@[j], from@, to@) {
                    None => #[trigger] self.fds@[j] == old(self).fds@[j],
                    Some(rep) => (self.fds@[j] matches Some(FileDescriptor::Dir { path: p2, path_len: l2, cookie: c2 })
                        && l2 == rep.len() && (old(self).fds@[j] matches Some(FileDescriptor::Dir { cookie, .. }) && c2 == cookie)
                        && forall|k: int| 0 <= k < 96 ==> #[trigger] p2@[k] == (if k < rep.len() { rep[k] } else { 0u8 })),
                },
            decreases MAX_FDS - i,
        {
            match self.fds[i] {
                Some(FileDescriptor::Dir { path, path_len, cookie }) => {
                    let mut cur: Vec<u8> = Vec::new();
                    let mut j: usize = 0;
                    let len = path_len as usize;
                    while j < len
                        invariant
                            j <= len <= 96,
                            cur@ == path@.subrange(0, j as int),
                        decreases len - j,
                    {
                        cur.push(path[j]);
                        j = j + 1;
                        assert(cur@ =~= path@.subrange(0, j as int));
                    }
                    if crate::procfs::is_valid_utf8(cur.as_slice()) {
                        match renamed_dir_exec(cur.as_slice(), from, to) {
                            Some(rep) => {
                                let mut buf = [0u8; 96];
                                let mut k: usize = 0;
                                while k < rep.len()
                                    invariant
                                        k <= rep@.len() < 96,
                                        forall|q: int| 0 <= q < k ==> #[trigger] buf@[q] == rep@[q],
                                        forall|q: int| k <= q < 96 ==> #[trigger] buf@[q] == 0,
                                    decreases rep@.len() - k,
                                {
                                    buf[k] = rep[k];
                                    k = k + 1;
                                }
                                self.fds.set(i, Some(FileDescriptor::Dir { path: buf, path_len: rep.len() as u8, cookie }));
                            },
                            None => {},
                        }
                    }
                },
                _ => {},
            }
            i = i + 1;
        }
    }

    /// Put `desc` in place of the descriptor in slot `fd`; its open file
    /// description stays.
    pub fn replace(&mut self, fd: usize, desc: FileDescriptor) -> (r: bool)
        requires
            old(self).wf(),
        ensures
            final(self).wf(),
            r == (fd < MAX_FDS && old(self).fds@[fd as int] is Some),
            r ==> final(self).fds@ == old(self).fds@.update(fd as int, Some(desc)),
            !r ==> final(self).fds@ == old(self).fds@,
            final(self).ofds@ == old(self).ofds@,
    {
        if fd >= MAX_FDS || self.fds[fd].is_none() {
            return false;
        }
        self.fds.set(fd, Some(desc));
        true
    }

    /// Make `new` name the same descriptor and description as `old_fd`.
    /// A description that `new` held before loses that reference.
    pub fn dup2(&mut self, old_fd: usize, new: usize, store: &mut OfdStore) -> (r: bool)
        requires
            old(self).wf(),
            old(self).valid_in(old(store)@),
            old_fd < MAX_FDS ==> (old(self).ofds@[old_fd as int] matches Some(h) ==> old(store)@[h as int]->Some_0.refs < usize::MAX),
        ensures
            final(self).wf(),
            final(self).valid_in(final(store)@),
            r == (old_fd < MAX_FDS && new < MAX_FDS && old(self).fds@[old_fd as int] is Some),
            !r || old_fd == new ==> final(self).fds@ == old(self).fds@ && final(self).ofds@ == old(self).ofds@ && final(store)@ == old(store)@,
            r ==> final(self).fds@[new as int] == old(self).fds@[old_fd as int],
            r ==> final(self).ofds@[new as int] == old(self).ofds@[old_fd as int],
            r ==> forall|i: int| 0 <= i < MAX_FDS && i != new ==> final(self).fds@[i] == old(self).fds@[i] && final(self).ofds@[i] == old(self).ofds@[i],
            r && old_fd != new ==> ({
                let h = old(self).ofds@[old_fd as int]->Some_0 as int;
                let oh = old(store)@[h]->Some_0;
                let shared = old(store)@.update(h, Some(OfdSlot { ofd: oh.ofd, refs: (oh.refs + 1) as usize }));
                match old(self).ofds@[new as int] {
                    None => final(store)@ == shared,
                    Some(p) => if p == h {
                        final(store)@ == old(store)@
                    } else {
                        let op = old(store)@[p as int]->Some_0;
                        final(store)@ == shared.update(p as int, if op.refs == 1 {
                            None
                        } else {
                            Some(OfdSlot { ofd: op.ofd, refs: (op.refs - 1) as usize })
                        })
                    },
                }
            }),
            old(self).counts_exact(old(store)@) ==> final(self).counts_exact(final(store)@),
    {
        if old_fd >= MAX_FDS || new >= MAX_FDS {
            return false;
        }
        let desc = match self.fds[old_fd] {
            Some(d) => d,
            None => return false,
        };
        let h = match self.ofds[old_fd] {
            Some(h) => h,
            None => return false,
        };
        if old_fd == new {
            return true;
        }
        let ghost st0 = store@;
        proof {
            assert(self.ofds@[old_fd as int] is Some);
        }
        store.retain(h);
        let ghost mid = store@;
        match self.ofds[new] {
            Some(prev) => {
                proof {
                    assert(self.ofds@[new as int] is Some);
                    assert(live(st0, prev as int));
                }
                store.release(prev);
            },
            None => {},
        }
        self.fds.set(new, Some(desc));
        self.ofds.set(new, Some(h));
        proof {
            let o = old(self).ofds@;
            let n = self.ofds@;
            assert(n == o.update(new as int, Some(h)));
            assert forall|i: int| 0 <= i < n.len() && #[trigger] n[i] is Some implies {
                let hh = n[i]->Some_0;
                live(store@, hh as int) && store@[hh as int]->Some_0.refs >= slot_count(n, hh)
            } by {
                let hh = n[i]->Some_0;
                lemma_slot_count_update(o, new as int, Some(h), hh);
                lemma_slot_count_pos(n, i, hh);
                if hh == h {
                    assert(o[old_fd as int] is Some);
                } else {
                    assert(i != new);
                    assert(o[i] == Some(hh));
                    assert(o[i] is Some);
                }
            }
            if old(self).counts_exact(st0) {
                assert forall|i: int| 0 <= i < n.len() && #[trigger] n[i] is Some implies
                    store@[n[i]->Some_0 as int]->Some_0.refs == slot_count(n, n[i]->Some_0) by {
                    let hh = n[i]->Some_0;
                    lemma_slot_count_update(o, new as int, Some(h), hh);
                    if hh == h {
                        assert(o[old_fd as int] is Some);
                    } else {
                        assert(i != new);
                        assert(o[i] == Some(hh));
                        assert(o[i] is Some);
                    }
                }
            }
        }
        true
    }
}

/// With exact reference counts, closing `fd` reports the last reference
/// exactly when no other slot of the table names its description.
pub proof fn law_close_reports_last_reference(t: FileDescriptorTable, store: Seq<Option<OfdSlot>>, fd: int)
    requires
        t.wf(),
        t.counts_exact(store),
        0 <= fd < MAX_FDS,
        t.ofds@[fd] is Some,
    ensures
        (store[t.ofds@[fd]->Some_0 as int]->Some_0.refs == 1)
            == (forall|j: int| 0 <= j < MAX_FDS && j != fd ==> t.ofds@[j] != t.ofds@[fd]),
{
    let s = t.ofds@;
    let h = s[fd]->Some_0;
    assert(s[fd] is Some);
    lemma_slot_count_update(s, fd, None, h);
    let u = s.update(fd, None);
    if forall|j: int| 0 <= j < MAX_FDS && j != fd ==> s[j] != s[fd] {
        assert forall|j: int| 0 <= j < u.len() implies u[j] != Some(h) by {
            if j != fd {
                assert(s[j] != s[fd]);
            }
        }
        lemma_slot_count_zero(u, h);
    } else {
        let j = choose|j: int| 0 <= j < MAX_FDS && j != fd && s[j] == s[fd];
        assert(u[j] == Some(h));
        lemma_slot_count_pos(u, j, h);
    }
}

/// After `dup2(a, b)` both descriptors share one description: an offset
/// or status flags set through one are what the other sees.
pub proof fn law_dup2_shares_offset(t: FileDescriptorTable, store: Seq<Option<OfdSlot>>, a: int, b: int, o: u64, f: u32)
    requires
        t.wf(),
        t.valid_in(store),
        0 <= a < MAX_FDS,
        0 <= b < MAX_FDS,
        t.ofds@[a] is Some,
        t.ofds@[b] == t.ofds@[a],
    ensures
        t.ofd_of(store, a) == t.ofd_of(store, b),
        ({
            let h = t.ofds@[a]->Some_0 as int;
            let s2 = store.update(h, Some(OfdSlot { ofd: OpenFileDescription { offset: o, ..store[h]->Some_0.ofd }, refs: store[h]->Some_0.refs }));
            t.ofd_of(s2, b) matches Some(x) && x.offset == o
        }),
        ({
            let h = t.ofds@[b]->Some_0 as int;
            let s3 = store.update(h, Some(OfdSlot { ofd: OpenFileDescription { status_flags: f, ..store[h]->Some_0.ofd }, refs: store[h]->Some_0.refs }));
            t.ofd_of(s3, a) matches Some(x) && x.status_flags == f
        }),
{
}

/// With exact counts, two slots `a` and `b` that alone name one description
/// hold two references: closing one of them is not the last reference, and
/// closing the other afterwards is.
pub proof fn law_dup2_then_close(t: FileDescriptorTable, store: Seq<Option<OfdSlot>>, a: int, b: int)
    requires
        t.wf(),
        t.counts_exact(store),
        0 <= a < MAX_FDS,
        0 <= b < MAX_FDS,
        a != b,
        t.ofds@[a] is Some,
        t.ofds@[b] == t.ofds@[a],
        forall|j: int| 0 <= j < MAX_FDS && j != a && j != b ==> t.ofds@[j] != t.ofds@[a],
    ensures
        store[t.ofds@[a]->Some_0 as int]->Some_0.refs == 2,
        ({
            let h = t.ofds@[a]->Some_0;
            let u = t.ofds@.update(b, None);
            &&& slot_count(u, h) == 1
            &&& forall|j: int| 0 <= j < MAX_FDS && j != a ==> u[j] != Some(h)
        }),
{
    let s = t.ofds@;
    let h = s[a]->Some_0;
    assert(s[a] is Some);
    let u = s.update(b, None);
    let w = u.update(a, None);
    lemma_slot_count_update(s, b, None, h);
    lemma_slot_count_update(u, a, None, h);
    assert forall|j: int| 0 <= j < w.len() implies w[j] != Some(h) by {
        if j != a && j != b {
            assert(s[j] != s[a]);
        }
    }
    lemma_slot_count_zero(w, h);
}

} // verus!
