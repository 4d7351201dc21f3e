//! The kernel log ring (klog) and the VGA text-mode printer.
//!
//! klog keeps the most recent `LOG_LINES` completed lines plus the line being
//! written, independent of the screen. The printer tracks the cursor and
//! colours and says which cells to write; the caller performs the writes to
//! VGA memory and the cursor ports.
use vstd::prelude::*;
use vstd::string::StringSliceAdditionalSpecFns;
use vstd::string::StrSliceExecFns;

verus! {

pub const LOG_LINES: usize = 8192;
pub const LOG_WIDTH: usize = 150;

/// Completed lines, oldest first, at most `LOG_LINES` of them.
pub open spec fn push_capped(lines: Seq<Seq<u8>>, l: Seq<u8>) -> Seq<Seq<u8>> {
    if lines.len() < LOG_LINES { lines.push(l) } else { lines.drop_first().push(l) }
}

/// The log after one more byte: newline completes the line, carriage
/// return clears it, backspace drops its last byte, non-ASCII bytes are
/// ignored, and a full line is completed before the next byte goes in.
pub open spec fn feed_byte(st: (Seq<Seq<u8>>, Seq<u8>), b: u8) -> (Seq<Seq<u8>>, Seq<u8>) {
    let (lines, cur) = st;
    if b == 0x0A {
        (push_capped(lines, cur), Seq::empty())
    } else if b == 0x0D {
        (lines, Seq::empty())
    } else if b == 0x08 {
        (lines, if cur.len() > 0 { cur.drop_last() } else { cur })
    } else if b >= 0x80 {
        st
    } else if cur.len() >= LOG_WIDTH {
        (push_capped(lines, cur), seq![b])
    } else {
        (lines, cur.push(b))
    }
}

pub open spec fn feed_all(st: (Seq<Seq<u8>>, Seq<u8>), bs: Seq<u8>) -> (Seq<Seq<u8>>, Seq<u8>)
    decreases bs.len(),
{
    if bs.len() == 0 { st } else { feed_byte(feed_all(st, bs.drop_last()), bs.last()) }
}

/// Index `j` places after `start` in the ring.
pub open spec fn ring_idx(start: int, j: int) -> int {
    if start + j < LOG_LINES { start + j } else { start + j - LOG_LINES }
}

/// The completed lines a ring holds, oldest first.
pub open spec fn ring_view(ls: Seq<Seq<u8>>, head: int, count: int) -> Seq<Seq<u8>> {
    let start = if count < LOG_LINES { 0 } else { head };
    Seq::new(count as nat, |j: int| ls[ring_idx(start, j)])
}

pub open spec fn line_views(ls: Seq<Vec<u8>>) -> Seq<Seq<u8>> {
    ls.map_values(|v: Vec<u8>| v@)
}

/// Lines joined, each followed by a newline.
pub open spec fn join_lines(ls: Seq<Seq<u8>>) -> Seq<u8>
    decreases ls.len(),
{
    if ls.len() == 0 { Seq::empty() } else { join_lines(ls.drop_last()) + ls.last() + seq![0x0Au8] }
}

pub struct Klog {
    pub lines: Vec<Vec<u8>>,
    pub head: usize,
    pub count: usize,
    pub cur: Vec<u8>,
}

impl Klog {
    pub open spec fn wf(&self) -> bool {
        &&& self.lines@.len() == LOG_LINES
        &&& self.head < LOG_LINES
        &&& self.count <= LOG_LINES
        &&& self.count < LOG_LINES ==> self.head == self.count
        &&& self.cur@.len() <= LOG_WIDTH
    }

    /// Completed lines (oldest first) and the line being written.
    pub open spec fn view(&self) -> (Seq<Seq<u8>>, Seq<u8>) {
        (ring_view(line_views(self.lines@), self.head as int, self.count as int), self.cur@)
    }

    pub fn new() -> (r: Self)
        ensures
            r.wf(),
            r.view().0.len() == 0,
            r.view().1.len() == 0,
    {
        let mut lines: Vec<Vec<u8>> = Vec::new();
        let mut i: usize = 0;
        while i < LOG_LINES
            invariant
                0 <= i <= LOG_LINES,
                lines@.len() == i,
            decreases LOG_LINES - i,
        {
            lines.push(Vec::new());
            i = i + 1;
        }
        Klog { lines, head: 0, count: 0, cur: Vec::new() }
    }

    fn commit_line(&mut self)
        requires
            old(self).wf(),
        ensures
            final(self).wf(),
            final(self).view() == (push_capped(old(self).view().0, old(self).view().1), Seq::<u8>::empty()),
    {
        let ghost ls = line_views(self.lines@);
        let ghost h = self.head as int;
        let ghost c = self.count as int;
        let mut line: Vec<u8> = Vec::new();
        std::mem::swap(&mut line, &mut self.cur);
        let ghost cur = line@;
        self.lines.set(self.head, line);
        self.head = if self.head + 1 == LOG_LINES { 0 } else { self.head + 1 };
        if self.count < LOG_LINES {
            self.count = self.count + 1;
        }
        proof {
            let nls = line_views(self.lines@);
            assert(nls =~= ls.update(h, cur));
            let old_view = ring_view(ls, h, c);
            let new_view = ring_view(nls, self.head as int, self.count as int);
            assert(new_view =~= push_capped(old_view, cur));
        }
    }

    fn feed_byte(&mut self, b: u8)
        requires
            old(self).wf(),
        ensures
            final(self).wf(),
            final(self).view() == feed_byte(old(self).view(), b),
    {
        if b == 0x0A {
            self.commit_line();
            return;
        }
        if b == 0x0D {
            self.cur.clear();
            return;
        }
        if b == 0x08 {
            if self.cur.len() > 0 {
                self.cur.pop();
            }
            return;
        }
        if b >= 0x80 {
            return;
        }
        if self.cur.len() >= LOG_WIDTH {
            self.commit_line();
        }
        self.cur.push(b);
        proof {
            if old(self).cur@.len() >= LOG_WIDTH {
                assert(self.cur@ =~= seq![b]);
            }
        }
    }

    /// Append text to the log, byte by byte.
    pub fn klog_write_str(&mut self, s: &str)
        requires
            old(self).wf(),
        ensures
            final(self).wf(),
            final(self).view() == feed_all(old(self).view(), s.spec_bytes()),
    {
        let bs = s.as_bytes();
        let mut i: usize = 0;
        while i < bs.len()
            invariant
                0 <= i <= bs@.len(),
                bs@ == s.spec_bytes(),
                self.wf(),
                self.view() == feed_all(old(self).view(), bs@.subrange(0, i as int)),
            decreases bs@.len() - i,
        {
            proof {
                assert(bs@.subrange(0, i + 1).drop_last() =~= bs@.subrange(0, i as int));
            }
            self.feed_byte(bs[i]);
            i = i + 1;
        }
        proof {
            assert(bs@.subrange(0, bs@.len() as int) =~= bs@);
        }
    }

    /// Every completed line oldest to newest, then the line being written
    /// when it is not empty.
    pub fn klog_for_each_line(&self) -> (r: Vec<Vec<u8>>)
        requires
            self.wf(),
        ensures
            line_views(r@) == self.view().0 + (if self.view().1.len() > 0 { seq![self.view().1] } else { Seq::empty() }),
    {
        self.lines_from(self.count)
    }

    /// The newest 80 completed lines (fewer when there are fewer), then the
    /// line being written when it is not empty.
    pub fn klog_for_each_line_last(&self) -> (r: Vec<Vec<u8>>)
        requires
            self.wf(),
        ensures
            ({
                let all = self.view().0;
                let shown = if all.len() < 80 { all.len() as int } else { 80 };
                line_views(r@) == all.subrange(all.len() - shown, all.len() as int)
                    + (if self.view().1.len() > 0 { seq![self.view().1] } else { Seq::empty() })
            }),
    {
        let shown = if self.count < 80 { self.count } else { 80 };
        self.lines_from(shown)
    }

    /// The newest `shown` completed lines, then the current line if any.
    fn lines_from(&self, shown: usize) -> (r: Vec<Vec<u8>>)
        requires
            self.wf(),
            shown <= self.count,
        ensures
            line_views(r@) == self.view().0.subrange(self.count - shown, self.count as int)
                + (if self.view().1.len() > 0 { seq![self.view().1] } else { Seq::empty() }),
    {
        let ghost all = self.view().0;
        let oldest = if self.count < LOG_LINES { 0 } else { self.head };
        let skip = self.count - shown;
        let mut out: Vec<Vec<u8>> = Vec::new();
        let mut idx: usize = 0;
        while idx < shown
            invariant
                0 <= idx <= shown,
                shown <= self.count,
                skip == self.count - shown,
                self.wf(),
                all == self.view().0,
                oldest == (if self.count < LOG_LINES { 0 } else { self.head as int }),
                line_views(out@) == all.subrange(skip as int, skip + idx),
            decreases shown - idx,
        {
            let j = skip + idx;
            let i = if oldest + j < LOG_LINES { oldest + j } else { oldest + j - LOG_LINES };
            let line = copy_bytes(&self.lines[i]);
            proof {
                assert(i as int == ring_idx(oldest as int, j as int));
                assert(all[j as int] == line_views(self.lines@)[i as int]);
            }
            let ghost prev = out@;
            out.push(line);
            proof {
                assert(line_views(out@) =~= line_views(prev).push(line@));
                assert(line_views(out@) =~= all.subrange(skip as int, skip + idx + 1));
            }
            idx = idx + 1;
        }
        if self.cur.len() > 0 {
            let c = copy_bytes(&self.cur);
            out.push(c);
            proof {
                assert(line_views(out@) =~= all.subrange(skip as int, self.count as int) + seq![self.cur@]);
            }
        } else {
            proof {
                assert(line_views(out@) =~= all.subrange(skip as int, self.count as int) + Seq::<Seq<u8>>::empty());
            }
        }
        out
    }

    /// The whole log as text, one newline after every line.
    pub fn klog_snapshot(&self) -> (r: Vec<u8>)
        requires
            self.wf(),
        ensures
            r@ == join_lines(self.view().0 + (if self.view().1.len() > 0 { seq![self.view().1] } else { Seq::empty() })),
    {
        let lines = self.klog_for_each_line();
        let ghost ls = line_views(lines@);
        let mut out: Vec<u8> = Vec::new();
        let mut i: usize = 0;
        while i < lines.len()
            invariant
                0 <= i <= lines@.len(),
                ls == line_views(lines@),
                out@ == join_lines(ls.subrange(0, i as int)),
            decreases lines@.len() - i,
        {
            crate::bytes::push_bytes(&mut out, lines[i].as_slice());
            out.push(0x0A);
            proof {
                assert(ls.subrange(0, i + 1).drop_last() =~= ls.subrange(0, i as int));
                assert(out@ =~= join_lines(ls.subrange(0, i as int)) + ls[i as int] + seq![0x0Au8]);
            }
            i = i + 1;
        }
        proof {
            assert(ls.subrange(0, ls.len() as int) =~= ls);
        }
        out
    }
}

fn copy_bytes(v: &Vec<u8>) -> (r: Vec<u8>)
    ensures
        r@ == v@,
{
    let r = crate::bytes::slice_to_vec(v.as_slice(), 0, v.len());
    assert(v@.subrange(0, v@.len() as int) =~= v@);
    r
}

/// A newline completes exactly the current line (appended as the newest
/// line, the oldest dropped once the ring is full) and starts an empty one.
pub proof fn law_newline_commits_line(lines: Seq<Seq<u8>>, cur: Seq<u8>)
    ensures
        feed_byte((lines, cur), 0x0A).0.last() == cur,
        feed_byte((lines, cur), 0x0A).1.len() == 0,
        lines.len() < LOG_LINES ==> feed_byte((lines, cur), 0x0A).0 == lines.push(cur),
{
}

// ---------------------------------------------------------------------------
// VGA text printer
// ---------------------------------------------------------------------------

pub const WIDTH: u16 = 80;
pub const HEIGHT: u16 = 25;

/// A write to VGA text memory or the cursor registers.
#[derive(Debug, Clone, Copy, PartialEq, Eq, Structural)]
pub enum VgaOp {
    /// Character and attribute into cell `cell` (row * 80 + column).
    Put { cell: u16, ch: u8, color: u8 },
    /// Move every row up by one and blank the bottom row in `color`.
    Scroll { color: u8 },
    /// Hardware cursor to cell `cell`.
    Cursor { cell: u16 },
}

pub struct Printer {
    pub x: u16,
    pub y: u16,
    pub foreground: u8,
    pub background: u8,
}

pub fn printer_new() -> (r: Printer)
    ensures
        r.x == 0,
        r.y == 0,
        r.foreground == 0x7,
        r.background == 0,
{
    Printer { x: 0, y: 0, foreground: 0x7, background: 0 }
}

pub open spec fn color_of(p: Printer) -> u8 {
    ((p.background << 4u8) | p.foreground) as u8
}

pub open spec fn cell_of(x: u16, y: u16) -> u16 {
    (y * 80 + x) as u16
}

/// Printer state and VGA writes after a line feed.
pub open spec fn spec_new_line(p: Printer) -> (Printer, Seq<VgaOp>) {
    let y = p.y + 1;
    if y >= 25 {
        let q = Printer { x: 0, y: 24, ..p };
        (q, seq![VgaOp::Scroll { color: color_of(p) }, VgaOp::Cursor { cell: cell_of(0, 24) }])
    } else {
        let q = Printer { x: 0, y: y as u16, ..p };
        (q, seq![VgaOp::Cursor { cell: cell_of(0, y as u16) }])
    }
}

/// Printer state and VGA writes after one character.
pub open spec fn spec_printc(p: Printer, c: char) -> (Printer, Seq<VgaOp>) {
    if c == '\n' {
        spec_new_line(p)
    } else if c == '\x08' {
        if p.x > 0 {
            let q = Printer { x: (p.x - 1) as u16, ..p };
            (q, seq![VgaOp::Put { cell: cell_of(q.x, q.y), ch: 0x20, color: color_of(p) }, VgaOp::Cursor { cell: cell_of(q.x, q.y) }])
        } else {
            (p, Seq::empty())
        }
    } else if c == '\r' {
        let q = Printer { x: 0, ..p };
        (q, seq![VgaOp::Cursor { cell: cell_of(0, p.y) }])
    } else {
        let target = cell_of(p.x, p.y);
        let (y1, pre) = if p.y == 25 {
            (24u16, seq![VgaOp::Scroll { color: color_of(p) }, VgaOp::Cursor { cell: cell_of(p.x, 24) }])
        } else {
            (p.y, Seq::empty())
        };
        let x2 = p.x + 1;
        let q = if x2 > 80 { Printer { x: 0, y: (y1 + 1) as u16, ..p } } else { Printer { x: x2 as u16, y: y1, ..p } };
        (q, pre.push(VgaOp::Put { cell: target, ch: (c as u32 % 256) as u8, color: color_of(p) }))
    }
}

pub open spec fn spec_prints(p: Printer, cs: Seq<char>) -> (Printer, Seq<VgaOp>)
    decreases cs.len(),
{
    if cs.len() == 0 {
        (p, Seq::empty())
    } else {
        let (q, ops) = spec_prints(p, cs.drop_last());
        let (r, more) = spec_printc(q, cs.last());
        (r, ops + more)
    }
}

impl Printer {
    pub open spec fn wf(&self) -> bool {
        self.x <= 80 && self.y <= 25
    }

    fn color(&self) -> (r: u8)
        ensures
            r == color_of(*self),
    {
        (self.background << 4u8) | self.foreground
    }

    fn cursor_op(&self) -> (r: VgaOp)
        requires
            self.wf(),
        ensures
            r == (VgaOp::Cursor { cell: cell_of(self.x, self.y) }),
    {
        VgaOp::Cursor { cell: self.y * WIDTH + self.x }
    }

    pub fn new_line(&mut self) -> (r: Vec<VgaOp>)
        requires
            old(self).wf(),
        ensures
            final(self).wf(),
            (*final(self), r@) == spec_new_line(*old(self)),
    {
        let mut ops: Vec<VgaOp> = Vec::new();
        self.x = 0;
        self.y = self.y + 1;
        if self.y >= HEIGHT {
            self.y = HEIGHT - 1;
            ops.push(VgaOp::Scroll { color: self.color() });
        }
        ops.push(self.cursor_op());
        proof {
            let (q, o) = spec_new_line(*old(self));
            assert(ops@ =~= o);
        }
        ops
    }

    /// Print one character.
    pub fn printc(&mut self, c: char) -> (r: Vec<VgaOp>)
        requires
            old(self).wf(),
        ensures
            final(self).wf(),
            (*final(self), r@) == spec_printc(*old(self), c),
    {
        if c == '\n' {
            return self.new_line();
        }
        let mut ops: Vec<VgaOp> = Vec::new();
        if c == '\x08' {
            if self.x > 0 {
                self.x = self.x - 1;
                ops.push(VgaOp::Put { cell: self.y * WIDTH + self.x, ch: 0x20, color: self.color() });
                ops.push(self.cursor_op());
            }
            proof {
                let (q, o) = spec_printc(*old(self), c);
                assert(ops@ =~= o);
            }
            return ops;
        }
        if c == '\r' {
            self.x = 0;
            ops.push(self.cursor_op());
            proof {
                let (q, o) = spec_printc(*old(self), c);
                assert(ops@ =~= o);
            }
            return ops;
        }
        let target = self.y * WIDTH + self.x;
        if self.y == HEIGHT {
            self.y = self.y - 1;
            ops.push(VgaOp::Scroll { color: self.color() });
            ops.push(self.cursor_op());
        }
        let ch = (c as u32 % 256) as u8;
        ops.push(VgaOp::Put { cell: target, ch, color: self.color() });
        self.x = self.x + 1;
        if self.x > WIDTH {
            self.x = 0;
            self.y = self.y + 1;
        }
        proof {
            let (q, o) = spec_printc(*old(self), c);
            assert(ops@ =~= o);
        }
        ops
    }

    /// Print a string starting at the hardware cursor cell `cursor`, then
    /// move the hardware cursor after it.
    pub fn prints(&mut self, cursor: u16, s: &str) -> (r: Vec<VgaOp>)
        requires
            cursor < 2080,
        ensures
            final(self).wf(),
            ({
                let p = Printer { x: cursor % 80, y: cursor / 80, ..*old(self) };
                let (q, ops) = spec_prints(p, s@);
                &&& *final(self) == q
                &&& r@ == ops.push(VgaOp::Cursor { cell: cell_of(q.x, q.y) })
            }),
    {
        self.x = cursor % WIDTH;
        self.y = cursor / WIDTH;
        let ghost p = *self;
        let n = s.unicode_len();
        let mut ops: Vec<VgaOp> = Vec::new();
        let mut i: usize = 0;
        while i < n
            invariant
                0 <= i <= n,
                n == s@.len(),
                self.wf(),
                (*self, ops@) == spec_prints(p, s@.subrange(0, i as int)),
            decreases n - i,
        {
            let c = s.get_char(i);
            let more = self.printc(c);
            let mut k: usize = 0;
            let ghost before = ops@;
            while k < more.len()
                invariant
                    0 <= k <= more@.len(),
                    ops@ == before + more@.subrange(0, k as int),
                decreases more@.len() - k,
            {
                ops.push(more[k]);
                k = k + 1;
                assert(ops@ =~= before + more@.subrange(0, k as int));
            }
            proof {
                assert(more@.subrange(0, more@.len() as int) =~= more@);
                assert(s@.subrange(0, i + 1).drop_last() =~= s@.subrange(0, i as int));
            }
            i = i + 1;
        }
        proof {
            assert(s@.subrange(0, n as int) =~= s@);
        }
        ops.push(self.cursor_op());
        ops
    }

    /// Erase the character before the cursor.
    pub fn delete(&mut self) -> (r: Vec<VgaOp>)
        requires
            old(self).wf(),
        ensures
            final(self).wf(),
            (*final(self), r@) == spec_printc(*old(self), '\x08'),
    {
        self.printc('\x08')
    }

    pub fn set_colors(&mut self, foreground: u8, background: u8)
        ensures
            *final(self) == (Printer { foreground, background, ..*old(self) }),
    {
        self.foreground = foreground;
        self.background = background;
    }

    pub fn reset_colors(&mut self)
        ensures
            *final(self) == (Printer { foreground: 0x7, background: 0, ..*old(self) }),
    {
        self.foreground = 0x7;
        self.background = 0;
    }
}

} // verus!
