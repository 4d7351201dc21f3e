//! Anonymous pipes: a fixed table of ring buffers with reader and writer
//! counts. Bytes come out in the order they went in.
//!
//! The blocking read and write loops (which wait with interrupts enabled)
//! are built by the caller from the non-blocking operations here.
use vstd::prelude::*;

verus! {

pub const PIPE_BUF_SIZE: usize = 4096;
pub const MAX_PIPES: usize = 16;
/// `pipe_try_read` / `pipe_try_write` result meaning "would block".
pub const WOULD_BLOCK: usize = usize::MAX;

pub struct Pipe {
    pub buf: Vec<u8>,
    /// Next write index.
    pub head: usize,
    /// Next read index.
    pub tail: usize,
    pub len: usize,
    pub readers: u32,
    pub writers: u32,
    pub in_use: bool,
}

/// Position `j` places after `start` in the ring.
pub open spec fn ring_pos(start: int, j: int) -> int {
    if start + j < PIPE_BUF_SIZE { start + j } else { start + j - PIPE_BUF_SIZE }
}

impl Pipe {
    pub open spec fn wf(&self) -> bool {
        &&& self.buf@.len() == PIPE_BUF_SIZE
        &&& self.tail < PIPE_BUF_SIZE
        &&& self.len <= PIPE_BUF_SIZE
        &&& self.head == ring_pos(self.tail as int, self.len as int)
    }

    /// Bytes waiting to be read, oldest first.
    pub open spec fn contents(&self) -> Seq<u8> {
        Seq::new(self.len as nat, |j: int| self.buf@[ring_pos(self.tail as int, j)])
    }

    /// An unused pipe.
    pub fn empty() -> (r: Self)
        ensures
            r.wf(),
            r.contents().len() == 0,
            r.readers == 0,
            r.writers == 0,
            !r.in_use,
    {
        Pipe { buf: vec![0u8; PIPE_BUF_SIZE], head: 0, tail: 0, len: 0, readers: 0, writers: 0, in_use: false }
    }

    fn push_byte(&mut self, b: u8)
        requires
            old(self).wf(),
            old(self).len < PIPE_BUF_SIZE,
        ensures
            final(self).wf(),
            final(self).contents() == old(self).contents().push(b),
            final(self).readers == old(self).readers,
            final(self).writers == old(self).writers,
            final(self).in_use == old(self).in_use,
    {
        let ghost before = self.contents();
        self.buf.set(self.head, b);
        self.head = if self.head + 1 == PIPE_BUF_SIZE { 0 } else { self.head + 1 };
        self.len = self.len + 1;
        assert(self.contents() =~= before.push(b));
    }

    fn pop_byte(&mut self) -> (r: u8)
        requires
            old(self).wf(),
            old(self).len > 0,
        ensures
            final(self).wf(),
            r == old(self).contents()[0],
            final(self).contents() == old(self).contents().drop_first(),
            final(self).readers == old(self).readers,
            final(self).writers == old(self).writers,
            final(self).in_use == old(self).in_use,
    {
        let ghost before = self.contents();
        let b = self.buf[self.tail];
        self.tail = if self.tail + 1 == PIPE_BUF_SIZE { 0 } else { self.tail + 1 };
        self.len = self.len - 1;
        assert(self.contents() =~= before.drop_first());
        b
    }
}

pub struct PipeTable {
    pub pipes: Vec<Pipe>,
}

impl PipeTable {
    pub open spec fn wf(&self) -> bool {
        &&& self.pipes@.len() == MAX_PIPES
        &&& forall|i: int| 0 <= i < MAX_PIPES ==> (#[trigger] self.pipes@[i]).wf()
    }

    /// The pipes other than `id` are as in `other`.
    pub open spec fn others_same(&self, other: &PipeTable, id: int) -> bool {
        forall|i: int| 0 <= i < MAX_PIPES && i != id ==> #[trigger] self.pipes@[i] == other.pipes@[i]
    }

    pub fn new() -> (r: Self)
        ensures
            r.wf(),
            forall|i: int| 0 <= i < MAX_PIPES ==> !(#[trigger] r.pipes@[i]).in_use,
    {
        let mut pipes: Vec<Pipe> = Vec::new();
        let mut i: usize = 0;
        while i < MAX_PIPES
            invariant
                0 <= i <= MAX_PIPES,
                pipes@.len() == i,
                forall|k: int| 0 <= k < i ==> (#[trigger] pipes@[k]).wf() && !pipes@[k].in_use,
            decreases MAX_PIPES - i,
        {
            pipes.push(Pipe::empty());
            i = i + 1;
        }
        PipeTable { pipes }
    }

    /// Claim the first unused pipe, empty, with one reader and one writer.
    pub fn pipe_create(&mut self) -> (r: Option<usize>)
        requires
            old(self).wf(),
        ensures
            final(self).wf(),
            r matches Some(id) ==> {
                &&& id < MAX_PIPES
                &&& !old(self).pipes@[id as int].in_use
                &&& forall|j: int| 0 <= j < id ==> (#[trigger] old(self).pipes@[j]).in_use
                &&& final(self).pipes@[id as int].in_use
                &&& final(self).pipes@[id as int].readers == 1
                &&& final(self).pipes@[id as int].writers == 1
                &&& final(self).pipes@[id as int].contents().len() == 0
                &&& final(self).others_same(old(self), id as int)
            },
            r is None ==> final(self).pipes@ == old(self).pipes@
                && forall|j: int| 0 <= j < MAX_PIPES ==> (#[trigger] old(self).pipes@[j]).in_use,
    {
        let mut i: usize = 0;
        while i < MAX_PIPES
            invariant
                0 <= i <= MAX_PIPES,
                self.wf(),
                self.pipes@ == old(self).pipes@,
                forall|j: int| 0 <= j < i ==> (#[trigger] self.pipes@[j]).in_use,
            decreases MAX_PIPES - i,
        {
            if !self.pipes[i].in_use {
                let mut p = Pipe::empty();
                p.in_use = true;
                p.readers = 1;
                p.writers = 1;
                self.pipes.set(i, p);
                return Some(i);
            }
            i = i + 1;
        }
        None
    }

    pub fn pipe_add_reader(&mut self, id: usize)
        requires
            old(self).wf(),
            id < MAX_PIPES && old(self).pipes@[id as int].in_use ==> old(self).pipes@[id as int].readers < u32::MAX,
        ensures
            final(self).wf(),
            id < MAX_PIPES && old(self).pipes@[id as int].in_use ==> final(self).pipes@[id as int] == (Pipe {
                readers: (old(self).pipes@[id as int].readers + 1) as u32,
                ..old(self).pipes@[id as int]
            }) && final(self).others_same(old(self), id as int),
            !(id < MAX_PIPES && old(self).pipes@[id as int].in_use) ==> final(self).pipes@ == old(self).pipes@,
    {
        if id < MAX_PIPES && self.pipes[id].in_use {
            let mut p = self.take(id);
            p.readers = p.readers + 1;
            self.pipes.set(id, p);
        }
    }

    pub fn pipe_add_writer(&mut self, id: usize)
        requires
            old(self).wf(),
            id < MAX_PIPES && old(self).pipes@[id as int].in_use ==> old(self).pipes@[id as int].writers < u32::MAX,
        ensures
            final(self).wf(),
            id < MAX_PIPES && old(self).pipes@[id as int].in_use ==> final(self).pipes@[id as int] == (Pipe {
                writers: (old(self).pipes@[id as int].writers + 1) as u32,
                ..old(self).pipes@[id as int]
            }) && final(self).others_same(old(self), id as int),
            !(id < MAX_PIPES && old(self).pipes@[id as int].in_use) ==> final(self).pipes@ == old(self).pipes@,
    {
        if id < MAX_PIPES && self.pipes[id].in_use {
            let mut p = self.take(id);
            p.writers = p.writers + 1;
            self.pipes.set(id, p);
        }
    }

    /// Move pipe `id` out, leaving an empty one in its place.
    fn take(&mut self, id: usize) -> (r: Pipe)
        requires
            old(self).wf(),
            id < MAX_PIPES,
        ensures
            final(self).wf(),
            r == old(self).pipes@[id as int],
            final(self).others_same(old(self), id as int),
    {
        let p = self.pipes.remove(id);
        self.pipes.insert(id, Pipe::empty());
        proof {
            assert forall|i: int| 0 <= i < MAX_PIPES && i != id implies #[trigger] self.pipes@[i] == old(self).pipes@[i] by {
            }
        }
        p
    }

    /// A pipe with neither readers nor writers becomes unused.
    fn maybe_free(&mut self, id: usize)
        requires
            old(self).wf(),
            id < MAX_PIPES,
        ensures
            final(self).wf(),
            final(self).pipes@[id as int] == (Pipe {
                in_use: old(self).pipes@[id as int].in_use
                    && !(old(self).pipes@[id as int].readers == 0 && old(self).pipes@[id as int].writers == 0),
                ..old(self).pipes@[id as int]
            }),
            final(self).others_same(old(self), id as int),
    {
        let mut p = self.take(id);
        if p.readers == 0 && p.writers == 0 {
            p.in_use = false;
        }
        self.pipes.set(id, p);
    }

    pub fn pipe_close_reader(&mut self, id: usize)
        requires
            old(self).wf(),
        ensures
            final(self).wf(),
            id < MAX_PIPES && old(self).pipes@[id as int].in_use ==> {
                let p = old(self).pipes@[id as int];
                let readers = if p.readers > 0 { (p.readers - 1) as u32 } else { 0 };
                &&& final(self).pipes@[id as int] == (Pipe { readers, in_use: !(readers == 0 && p.writers == 0), ..p })
                &&& final(self).others_same(old(self), id as int)
            },
            !(id < MAX_PIPES && old(self).pipes@[id as int].in_use) ==> final(self).pipes@ == old(self).pipes@,
    {
        if id >= MAX_PIPES || !self.pipes[id].in_use {
            return;
        }
        let mut p = self.take(id);
        if p.readers > 0 {
            p.readers = p.readers - 1;
        }
        self.pipes.set(id, p);
        self.maybe_free(id);
    }

    pub fn pipe_close_writer(&mut self, id: usize)
        requires
            old(self).wf(),
        ensures
            final(self).wf(),
            id < MAX_PIPES && old(self).pipes@[id as int].in_use ==> {
                let p = old(self).pipes@[id as int];
                let writers = if p.writers > 0 { (p.writers - 1) as u32 } else { 0 };
                &&& final(self).pipes@[id as int] == (Pipe { writers, in_use: !(p.readers == 0 && writers == 0), ..p })
                &&& final(self).others_same(old(self), id as int)
            },
            !(id < MAX_PIPES && old(self).pipes@[id as int].in_use) ==> final(self).pipes@ == old(self).pipes@,
    {
        if id >= MAX_PIPES || !self.pipes[id].in_use {
            return;
        }
        let mut p = self.take(id);
        if p.writers > 0 {
            p.writers = p.writers - 1;
        }
        self.pipes.set(id, p);
        self.maybe_free(id);
    }

    /// A read would not block: data is waiting or no writer is left (an
    /// unknown pipe reads as end of file).
    pub fn pipe_readable(&self, id: usize) -> (r: bool)
        requires
            self.wf(),
        ensures
            r == (id >= MAX_PIPES || !self.pipes@[id as int].in_use || self.pipes@[id as int].len > 0
                || self.pipes@[id as int].writers == 0),
    {
        if id >= MAX_PIPES || !self.pipes[id].in_use {
            return true;
        }
        self.pipes[id].len > 0 || self.pipes[id].writers == 0
    }

    /// A write would not block: room is left or no reader is left.
    pub fn pipe_writable(&self, id: usize) -> (r: bool)
        requires
            self.wf(),
        ensures
            r == (id >= MAX_PIPES || !self.pipes@[id as int].in_use || self.pipes@[id as int].readers == 0
                || self.pipes@[id as int].len < PIPE_BUF_SIZE),
    {
        if id >= MAX_PIPES || !self.pipes[id].in_use {
            return true;
        }
        self.pipes[id].readers == 0 || self.pipes[id].len < PIPE_BUF_SIZE
    }

    /// Read up to `buf.len()` bytes without blocking: the count read, 0 at
    /// end of file (or for an unknown pipe or an empty buffer), or
    /// `WOULD_BLOCK` when nothing is waiting but a writer is left.
    pub fn pipe_try_read(&mut self, id: usize, buf: &mut [u8]) -> (r: usize)
        requires
            old(self).wf(),
        ensures
            final(self).wf(),
            final(buf)@.len() == old(buf)@.len(),
            (id >= MAX_PIPES || old(buf)@.len() == 0 || !old(self).pipes@[id as int].in_use) ==> {
                r == 0 && final(self).pipes@ == old(self).pipes@ && final(buf)@ == old(buf)@
            },
            id < MAX_PIPES && old(buf)@.len() > 0 && old(self).pipes@[id as int].in_use ==> {
                let p = old(self).pipes@[id as int];
                let n = if old(buf)@.len() < p.len { old(buf)@.len() as int } else { p.len as int };
                if p.len == 0 {
                    &&& r == (if p.writers == 0 { 0 } else { WOULD_BLOCK })
                    &&& final(self).pipes@ == old(self).pipes@
                    &&& final(buf)@ == old(buf)@
                } else {
                    &&& r == n
                    &&& final(buf)@.subrange(0, n) == p.contents().subrange(0, n)
                    &&& final(buf)@.subrange(n, old(buf)@.len() as int) == old(buf)@.subrange(n, old(buf)@.len() as int)
                    &&& final(self).pipes@[id as int].contents() == p.contents().subrange(n, p.len as int)
                    &&& final(self).pipes@[id as int].readers == p.readers
                    &&& final(self).pipes@[id as int].writers == p.writers
                    &&& final(self).pipes@[id as int].in_use
                    &&& final(self).others_same(old(self), id as int)
                }
            },
    {
        let count = buf.len();
        if id >= MAX_PIPES || count == 0 {
            return 0;
        }
        if !self.pipes[id].in_use {
            return 0;
        }
        if self.pipes[id].len == 0 {
            return if self.pipes[id].writers == 0 { 0 } else { WOULD_BLOCK };
        }
        let ghost orig = self.pipes@[id as int].contents();
        let ghost op = self.pipes@[id as int];
        let mut p = self.take(id);
        let ghost taken = self.pipes@;
        let ghost n: int = if count < p.len { count as int } else { p.len as int };
        let mut read: usize = 0;
        while read < count && p.len > 0
            invariant
                p.wf(),
                self.wf(),
                self.pipes@ == taken,
                self.others_same(old(self), id as int),
                id < MAX_PIPES,
                p.readers == op.readers,
                p.writers == op.writers,
                p.in_use,
                0 <= read <= n,
                n <= orig.len(),
                n == (if count < orig.len() { count as int } else { orig.len() as int }),
                count == buf@.len(),
                buf@.len() == old(buf)@.len(),
                p.contents() == orig.subrange(read as int, orig.len() as int),
                buf@.subrange(0, read as int) == orig.subrange(0, read as int),
                buf@.subrange(read as int, count as int) == old(buf)@.subrange(read as int, count as int),
            decreases count - read,
        {
            let ghost before = buf@;
            let b = p.pop_byte();
            buf[read] = b;
            proof {
                assert(orig.subrange(read as int, orig.len() as int)[0] == orig[read as int]);
                assert(buf@.subrange(0, read + 1) =~= orig.subrange(0, read + 1));
                assert forall|k: int| read + 1 <= k < count implies #[trigger] buf@[k] == old(buf)@[k] by {
                    assert(before.subrange(read as int, count as int)[k - read] == old(buf)@.subrange(read as int, count as int)[k - read]);
                }
                assert(buf@.subrange(read + 1, count as int) =~= old(buf)@.subrange(read + 1, count as int));
                assert(p.contents() =~= orig.subrange(read + 1, orig.len() as int));
            }
            read = read + 1;
        }
        self.pipes.set(id, p);
        read
    }

    /// Write up to `data.len()` bytes without blocking: the count written
    /// (possibly fewer when the buffer fills), 0 when no reader is left (or
    /// for an unknown pipe or empty data), or `WOULD_BLOCK` when the buffer
    /// is full.
    pub fn pipe_try_write(&mut self, id: usize, data: &[u8]) -> (r: usize)
        requires
            old(self).wf(),
        ensures
            final(self).wf(),
            (id >= MAX_PIPES || data@.len() == 0 || !old(self).pipes@[id as int].in_use
                || old(self).pipes@[id as int].readers == 0) ==> r == 0 && final(self).pipes@ == old(self).pipes@,
            id < MAX_PIPES && data@.len() > 0 && old(self).pipes@[id as int].in_use && old(self).pipes@[id as int].readers > 0 ==> {
                let p = old(self).pipes@[id as int];
                let room = PIPE_BUF_SIZE - p.len;
                let n = if data@.len() < room { data@.len() as int } else { room as int };
                if p.len == PIPE_BUF_SIZE {
                    r == WOULD_BLOCK && final(self).pipes@ == old(self).pipes@
                } else {
                    &&& r == n
                    &&& final(self).pipes@[id as int].contents() == p.contents() + data@.subrange(0, n)
                    &&& final(self).pipes@[id as int].readers == p.readers
                    &&& final(self).pipes@[id as int].writers == p.writers
                    &&& final(self).pipes@[id as int].in_use
                    &&& final(self).others_same(old(self), id as int)
                }
            },
    {
        let count = data.len();
        if id >= MAX_PIPES || count == 0 {
            return 0;
        }
        if !self.pipes[id].in_use {
            return 0;
        }
        if self.pipes[id].readers == 0 {
            return 0;
        }
        if self.pipes[id].len == PIPE_BUF_SIZE {
            return WOULD_BLOCK;
        }
        let ghost orig = self.pipes@[id as int].contents();
        let ghost op = self.pipes@[id as int];
        let mut p = self.take(id);
        let ghost taken = self.pipes@;
        let mut written: usize = 0;
        while written < count && p.len < PIPE_BUF_SIZE
            invariant
                p.wf(),
                self.wf(),
                self.pipes@ == taken,
                self.others_same(old(self), id as int),
                id < MAX_PIPES,
                p.readers == op.readers,
                p.writers == op.writers,
                0 <= written <= count,
                count == data@.len(),
                orig.len() + written == p.len,
                p.contents() == orig + data@.subrange(0, written as int),
                p.in_use,
                p.readers > 0,
            decreases count - written,
        {
            p.push_byte(data[written]);
            proof {
                assert(orig + data@.subrange(0, written + 1) =~= (orig + data@.subrange(0, written as int)).push(data@[written as int]));
            }
            written = written + 1;
        }
        self.pipes.set(id, p);
        written
    }
}

/// What a reader gets back after a write into an empty pipe is exactly what
/// was written, as far as the buffer had room.
pub proof fn law_pipe_fifo(before: Seq<u8>, data: Seq<u8>, n: int, k: int)
    requires
        0 <= n <= data.len(),
        0 <= k <= before.len() + n,
    ensures
        (before + data.subrange(0, n)).subrange(0, k) == (if k <= before.len() {
            before.subrange(0, k)
        } else {
            before + data.subrange(0, k - before.len())
        }),
{
    if k <= before.len() {
        assert((before + data.subrange(0, n)).subrange(0, k) =~= before.subrange(0, k));
    } else {
        assert((before + data.subrange(0, n)).subrange(0, k) =~= before + data.subrange(0, k - before.len()));
    }
}

} // verus!
