//! Tasks and the task table: reference counts of pages mapped more than
//! once, the saved register frame of an interrupted task, the per-task
//! record the scheduler reads, and the fixed table of task slots with its
//! round-robin scheduler, pid allocation and reaping.
//!
//! Switching stacks and address spaces, and releasing a dead task's frames,
//! stay with the caller: the table says which task to switch to and hands
//! back the records whose memory must be released.
use vstd::prelude::*;

verus! {

/// Registers pushed on the kernel stack when a task is interrupted.
#[derive(Debug, Clone, Copy, PartialEq, Eq, Structural)]
pub struct CPUState {
    pub eax: u32,
    pub ebx: u32,
    pub ecx: u32,
    pub edx: u32,
    pub esi: u32,
    pub edi: u32,
    pub ebp: u32,
    pub eip: u32,
    pub cs: u32,
    pub eflags: u32,
    pub esp: u32,
    pub ss: u32,
}

/// The interrupted code ran in ring 3.
pub open spec fn spec_is_user_cs(cs: u32) -> bool {
    cs % 4 == 3
}

pub fn is_user_cs(cs: u32) -> (r: bool)
    ensures
        r == spec_is_user_cs(cs),
{
    assert((cs & 3 == 3) == (cs % 4 == 3)) by (bit_vector);
    (cs & 3) == 3
}

/// Page addresses with how many mappings share each.
pub struct PageRefcounts {
    pub entries: Vec<(u32, u32)>,
}

/// Count recorded for `page` (0 when it has no entry).
pub open spec fn refcount(s: Seq<(u32, u32)>, page: u32) -> nat {
    if exists|i: int| 0 <= i < s.len() && s[i].0 == page {
        s[choose|i: int| 0 <= i < s.len() && s[i].0 == page].1 as nat
    } else {
        0
    }
}

/// `after` is `before` with one more mapping of `page`.
pub open spec fn inc_result(before: Seq<(u32, u32)>, after: Seq<(u32, u32)>, page: u32) -> bool {
    &&& refcount(after, page) == refcount(before, page) + 1
    &&& forall|p: u32| p != page ==> refcount(after, p) == refcount(before, p)
}

/// `after` is `before` with one mapping of `page` fewer (none stays none).
pub open spec fn dec_result(before: Seq<(u32, u32)>, after: Seq<(u32, u32)>, page: u32) -> bool {
    &&& refcount(after, page) == (if refcount(before, page) == 0 { 0 } else { refcount(before, page) - 1 })
    &&& forall|p: u32| p != page ==> refcount(after, p) == refcount(before, p)
}

impl PageRefcounts {
    /// Each page appears once, with a positive count.
    pub open spec fn wf(&self) -> bool {
        &&& forall|i: int, j: int| 0 <= i < j < self.entries@.len() ==> self.entries@[i].0 != self.entries@[j].0
        &&& forall|i: int| 0 <= i < self.entries@.len() ==> self.entries@[i].1 >= 1
    }

    pub open spec fn count(&self, page: u32) -> nat {
        refcount(self.entries@, page)
    }

    pub fn new() -> (r: Self)
        ensures
            r.wf(),
            forall|p: u32| r.count(p) == 0,
    {
        PageRefcounts { entries: Vec::new() }
    }

    fn position(&self, page: u32) -> (r: Option<usize>)
        requires
            self.wf(),
        ensures
            r matches Some(i) ==> i < self.entries@.len() && self.entries@[i as int].0 == page
                && self.count(page) == self.entries@[i as int].1,
            r is None ==> self.count(page) == 0 && forall|i: int| 0 <= i < self.entries@.len() ==> self.entries@[i].0 != page,
    {
        let mut i: usize = 0;
        while i < self.entries.len()
            invariant
                0 <= i <= self.entries@.len(),
                self.wf(),
                forall|j: int| 0 <= j < i ==> self.entries@[j].0 != page,
            decreases self.entries@.len() - i,
        {
            if self.entries[i].0 == page {
                proof {
                    lemma_refcount_at(self.entries@, i as int);
                }
                return Some(i);
            }
            i = i + 1;
        }
        None
    }

    /// One more mapping of `page`; true when the page had none (the caller
    /// maps it).
    pub fn inc(&mut self, page: u32) -> (r: bool)
        requires
            old(self).wf(),
            old(self).count(page) < u32::MAX,
        ensures
            final(self).wf(),
            r == (old(self).count(page) == 0),
            inc_result(old(self).entries@, final(self).entries@, page),
    {
        match self.position(page) {
            Some(i) => {
                let (a, c) = self.entries[i];
                self.entries.set(i, (a, c + 1));
                proof {
                    assert forall|p: u32| p != page implies refcount(self.entries@, p) == refcount(old(self).entries@, p) by {
                        lemma_refcount_other(old(self).entries@, self.entries@, i as int, p);
                    }
                    lemma_refcount_at(self.entries@, i as int);
                }
                false
            },
            None => {
                self.entries.push((page, 1));
                proof {
                    let n = old(self).entries@.len() as int;
                    lemma_refcount_at(self.entries@, n);
                    assert forall|p: u32| p != page implies refcount(self.entries@, p) == refcount(old(self).entries@, p) by {
                        lemma_refcount_push(old(self).entries@, (page, 1u32), p);
                    }
                }
                true
            },
        }
    }

    /// One mapping of `page` fewer; true when that was the last one (the
    /// caller unmaps it). A page without mappings is left alone.
    pub fn dec(&mut self, page: u32) -> (r: bool)
        requires
            old(self).wf(),
        ensures
            final(self).wf(),
            r == (old(self).count(page) == 1),
            dec_result(old(self).entries@, final(self).entries@, page),
    {
        match self.position(page) {
            Some(i) => {
                let (a, c) = self.entries[i];
                if c - 1 == 0 {
                    let ghost before = self.entries@;
                    self.entries.swap_remove(i);
                    proof {
                        lemma_refcount_swap_remove(before, self.entries@, i as int);
                    }
                    true
                } else {
                    self.entries.set(i, (a, c - 1));
                    proof {
                        assert forall|p: u32| p != page implies refcount(self.entries@, p) == refcount(old(self).entries@, p) by {
                            lemma_refcount_other(old(self).entries@, self.entries@, i as int, p);
                        }
                        lemma_refcount_at(self.entries@, i as int);
                    }
                    false
                }
            },
            None => false,
        }
    }
}

proof fn lemma_refcount_at(s: Seq<(u32, u32)>, i: int)
    requires
        0 <= i < s.len(),
        forall|a: int, b: int| 0 <= a < b < s.len() ==> s[a].0 != s[b].0,
    ensures
        refcount(s, s[i].0) == s[i].1,
{
    let k = choose|k: int| 0 <= k < s.len() && s[k].0 == s[i].0;
    assert(k == i) by {
        if k < i {
            assert(s[k].0 != s[i].0);
        } else if k > i {
            assert(s[i].0 != s[k].0);
        }
    }
}

proof fn lemma_refcount_other(s: Seq<(u32, u32)>, t: Seq<(u32, u32)>, i: int, p: u32)
    requires
        0 <= i < s.len(),
        t.len() == s.len(),
        t[i].0 == s[i].0,
        p != s[i].0,
        forall|j: int| 0 <= j < s.len() && j != i ==> t[j] == s[j],
        forall|a: int, b: int| 0 <= a < b < s.len() ==> s[a].0 != s[b].0,
    ensures
        refcount(t, p) == refcount(s, p),
{
    assert forall|a: int, b: int| 0 <= a < b < t.len() implies t[a].0 != t[b].0 by {
        assert(t[a].0 == s[a].0 && t[b].0 == s[b].0);
    }
    if exists|j: int| 0 <= j < s.len() && s[j].0 == p {
        let j = choose|j: int| 0 <= j < s.len() && s[j].0 == p;
        lemma_refcount_at(s, j);
        lemma_refcount_at(t, j);
    } else {
        assert forall|j: int| 0 <= j < t.len() implies t[j].0 != p by {
            if j != i {
                assert(t[j] == s[j]);
            }
        }
    }
}

proof fn lemma_refcount_push(s: Seq<(u32, u32)>, e: (u32, u32), p: u32)
    requires
        p != e.0,
        forall|a: int, b: int| 0 <= a < b < s.push(e).len() ==> s.push(e)[a].0 != s.push(e)[b].0,
    ensures
        refcount(s.push(e), p) == refcount(s, p),
{
    let t = s.push(e);
    if exists|j: int| 0 <= j < s.len() && s[j].0 == p {
        let j = choose|j: int| 0 <= j < s.len() && s[j].0 == p;
        assert(t[j] == s[j]);
        lemma_refcount_at(t, j);
        assert forall|a: int, b: int| 0 <= a < b < s.len() implies s[a].0 != s[b].0 by {
            assert(t[a] == s[a] && t[b] == s[b]);
        }
        lemma_refcount_at(s, j);
    } else {
        assert forall|j: int| 0 <= j < t.len() implies t[j].0 != p by {
            if j < s.len() {
                assert(t[j] == s[j]);
            }
        }
    }
}

proof fn lemma_refcount_swap_remove(s: Seq<(u32, u32)>, t: Seq<(u32, u32)>, i: int)
    requires
        0 <= i < s.len(),
        s[i].1 == 1,
        forall|a: int, b: int| 0 <= a < b < s.len() ==> s[a].0 != s[b].0,
        forall|a: int| 0 <= a < s.len() ==> s[a].1 >= 1,
        t == s.update(i, s.last()).drop_last(),
    ensures
        forall|a: int, b: int| 0 <= a < b < t.len() ==> t[a].0 != t[b].0,
        forall|a: int| 0 <= a < t.len() ==> t[a].1 >= 1,
        refcount(t, s[i].0) == 0,
        refcount(s, s[i].0) == 1,
        forall|p: u32| p != s[i].0 ==> refcount(t, p) == refcount(s, p),
{
    let n = s.len() - 1;
    lemma_refcount_at(s, i);
    // every element of t is an element of s other than s[i]
    assert forall|a: int| 0 <= a < t.len() implies t[a] == (if a == i { s[n] } else { s[a] }) && t[a].0 != s[i].0 by {
        if a == i {
            assert(n != i);
        }
    }
    assert forall|a: int, b: int| 0 <= a < b < t.len() implies t[a].0 != t[b].0 by {
        let sa = if a == i { n } else { a };
        let sb = if b == i { n } else { b };
        assert(sa != sb);
        if sa < sb {
            assert(s[sa].0 != s[sb].0);
        } else {
            assert(s[sb].0 != s[sa].0);
        }
    }
    assert forall|p: u32| p != s[i].0 implies refcount(t, p) == refcount(s, p) by {
        if exists|j: int| 0 <= j < s.len() && s[j].0 == p {
            let j = choose|j: int| 0 <= j < s.len() && s[j].0 == p;
            assert(j != i);
            let tj = if j == n { i } else { j };
            assert(t[tj].0 == p);
            let k = choose|k: int| 0 <= k < t.len() && t[k].0 == p;
            let sk = if k == i { n } else { k };
            assert(s[sk].0 == p);
            assert(sk == j) by {
                if sk < j {
                    assert(s[sk].0 != s[j].0);
                } else if sk > j {
                    assert(s[j].0 != s[sk].0);
                }
            }
        } else {
            assert forall|a: int| 0 <= a < t.len() implies t[a].0 != p by {
                let sa = if a == i { n } else { a };
                assert(t[a] == s[sa]);
            }
        }
    }
}

/// Counting a mapping in and out again leaves every page's count as it was.
pub proof fn law_inc_then_dec_restores(before: Seq<(u32, u32)>, mid: Seq<(u32, u32)>, after: Seq<(u32, u32)>, page: u32, p: u32)
    requires
        inc_result(before, mid, page),
        dec_result(mid, after, page),
    ensures
        refcount(after, p) == refcount(before, p),
{
}


proof fn lemma_incs(states: Seq<Seq<(u32, u32)>>, page: u32, n: int)
    requires
        0 <= n < states.len(),
        forall|i: int| 0 <= i < n ==> #[trigger] inc_result(states[i], states[i + 1], page),
    ensures
        refcount(states[n], page) == refcount(states[0], page) + n,
        forall|p: u32| p != page ==> refcount(states[n], p) == refcount(states[0], p),
    decreases n,
{
    if n > 0 {
        lemma_incs(states, page, n - 1);
        let i = n - 1;
        assert(inc_result(states[i], states[i + 1], page));
        assert(i + 1 == n);
    }
}

proof fn lemma_decs(states: Seq<Seq<(u32, u32)>>, page: u32, k: int, n: int)
    requires
        0 <= k <= n < states.len(),
        refcount(states[k], page) >= n - k,
        forall|i: int| k <= i < n ==> #[trigger] dec_result(states[i], states[i + 1], page),
    ensures
        refcount(states[n], page) == refcount(states[k], page) - (n - k),
        forall|p: u32| p != page ==> refcount(states[n], p) == refcount(states[k], p),
    decreases n - k,
{
    if n > k {
        lemma_decs(states, page, k, n - 1);
        let i = n - 1;
        assert(dec_result(states[i], states[i + 1], page));
        assert(i + 1 == n);
    }
}

/// Starting from a page that is not tracked, `k` counted mappings (only the
/// first of which reports a new page) followed by `k` released ones (only
/// the last of which reports the page unused) leave the page untracked and
/// every other page's count as it was.
pub proof fn law_k_incs_then_k_decs(states: Seq<Seq<(u32, u32)>>, k: int, page: u32)
    requires
        k >= 1,
        states.len() == 2 * k + 1,
        refcount(states[0], page) == 0,
        forall|i: int| 0 <= i < k ==> #[trigger] inc_result(states[i], states[i + 1], page),
        forall|i: int| k <= i < 2 * k ==> #[trigger] dec_result(states[i], states[i + 1], page),
    ensures
        forall|i: int| 0 <= i < k ==> (refcount(#[trigger] states[i], page) == 0) == (i == 0),
        forall|j: int| 0 <= j < k ==> (refcount(#[trigger] states[k + j], page) == 1) == (j == k - 1),
        refcount(states[2 * k], page) == 0,
        forall|p: u32| p != page ==> refcount(states[2 * k], p) == refcount(states[0], p),
{
    assert forall|i: int| 0 <= i < k implies (refcount(#[trigger] states[i], page) == 0) == (i == 0) by {
        lemma_incs(states, page, i);
    }
    lemma_incs(states, page, k);
    assert forall|j: int| 0 <= j < k implies (refcount(#[trigger] states[k + j], page) == 1) == (j == k - 1) by {
        lemma_decs(states, page, k, k + j);
    }
    lemma_decs(states, page, k, 2 * k);
}

/// Bytes of kernel stack per task.
pub const STACK_SIZE: u32 = 65536;
/// Room left above the initial register frame on a fresh kernel stack.
pub const HEADROOM: u32 = 256;
/// Bytes of a saved [`CPUState`].
pub const CPU_STATE_SIZE: u32 = 48;
/// Number of task slots.
pub const MAX_TASKS: i8 = 32;
pub const USER_HEAP_BASE: u32 = 0x4000_0000;
pub const USER_THREAD_STACK_BASE: u32 = 0xB000_0000;
pub const USER_THREAD_STACK_STRIDE: u32 = 0x4_0000;
pub const USER_THREAD_STACK_PAGES: u32 = 32;
/// Where anonymous mmap starts in a fresh address space.
pub const MMAP_BASE: u32 = 0x6000_0000;

/// What the scheduler and the process table keep of a task: its kernel
/// stack, address space, saved-state pointer, identity and life state.
#[derive(Debug, Clone, Copy, PartialEq, Eq, Structural)]
pub struct Task {
    pub stack_base: u32,
    pub page_dir_phys: u32,
    pub cpu_state_ptr: u32,
    pub running: bool,
    pub kernel_stack: u32,
    pub heap_next: u32,
    pub mmap_next: u32,
    pub pid: i32,
    pub ppid: i32,
    pub pgid: i32,
    pub sid: i32,
    pub parent: i8,
    pub tty_id: i16,
    pub pty_id: i16,
    pub zombie: bool,
    pub stopped: bool,
    pub exit_code: i32,
    pub tid: i32,
    pub leader_slot: i8,
    pub is_thread: bool,
    pub thread_exited: bool,
    pub thread_detached: bool,
}

/// A task that has not been set up yet, on kernel stack `stack_base` and
/// address space `page_dir_phys`.
pub open spec fn fresh_task(stack_base: u32, page_dir_phys: u32, is_thread: bool) -> Task {
    Task {
        stack_base,
        page_dir_phys,
        cpu_state_ptr: 0u32,
        running: false,
        kernel_stack: 0u32,
        heap_next: 0u32,
        mmap_next: if is_thread { 0u32 } else { MMAP_BASE },
        pid: -1i32,
        ppid: -1i32,
        pgid: -1i32,
        sid: -1i32,
        parent: -1i8,
        tty_id: -1i16,
        pty_id: -1i16,
        zombie: false,
        stopped: false,
        exit_code: 0i32,
        tid: -1i32,
        leader_slot: -1i8,
        is_thread,
        thread_exited: false,
        thread_detached: false,
    }
}

/// The register frame a task first enters: `eip` and `esp` with the given
/// segments and interrupts enabled.
pub open spec fn entry_frame(eip: u32, esp: u32, cs: u32, ss: u32) -> CPUState {
    CPUState { eax: 0u32, ebx: 0u32, ecx: 0u32, edx: 0u32, esi: 0u32, edi: 0u32, ebp: 0u32, eip, cs, eflags: 0x202u32, esp, ss }
}

impl Task {
    /// A process on a new kernel stack and page directory.
    pub fn new(stack_base: u32, page_dir_phys: u32) -> (r: Task)
        ensures
            r == fresh_task(stack_base, page_dir_phys, false),
    {
        Task {
            stack_base,
            page_dir_phys,
            cpu_state_ptr: 0,
            running: false,
            kernel_stack: 0,
            heap_next: 0,
            mmap_next: MMAP_BASE,
            pid: -1,
            ppid: -1,
            pgid: -1,
            sid: -1,
            parent: -1,
            tty_id: -1,
            pty_id: -1,
            zombie: false,
            stopped: false,
            exit_code: 0,
            tid: -1,
            leader_slot: -1,
            is_thread: false,
            thread_exited: false,
            thread_detached: false,
        }
    }

    /// A thread borrowing the address space `page_dir_phys` of its process.
    pub fn new_thread(stack_base: u32, page_dir_phys: u32) -> (r: Task)
        ensures
            r == fresh_task(stack_base, page_dir_phys, true),
    {
        let mut t = Task::new(stack_base, page_dir_phys);
        t.mmap_next = 0;
        t.is_thread = true;
        t
    }

    pub fn new_idle(stack_base: u32, page_dir_phys: u32) -> (r: Task)
        ensures
            r == fresh_task(stack_base, page_dir_phys, false),
    {
        Task::new(stack_base, page_dir_phys)
    }

    pub fn new_task(stack_base: u32, page_dir_phys: u32) -> (r: Task)
        ensures
            r == fresh_task(stack_base, page_dir_phys, false),
    {
        Task::new(stack_base, page_dir_phys)
    }

    pub fn sleep(&mut self)
        ensures
            *final(self) == (Task { running: false, ..*old(self) }),
    {
        self.running = false;
    }

    pub fn wake(&mut self)
        ensures
            *final(self) == (Task { running: true, ..*old(self) }),
    {
        self.running = true;
    }

    /// Make the task runnable in user mode at `entry_point` with stack
    /// `user_stack_top`: the kernel stack top becomes its ring-0 stack, the
    /// saved state sits below the headroom there, and the heap starts at
    /// `heap_start`. Returns the frame to write at the saved-state pointer.
    pub fn init(&mut self, entry_point: u32, user_stack_top: u32, heap_start: u32) -> (frame: CPUState)
        requires
            old(self).stack_base + STACK_SIZE <= u32::MAX,
        ensures
            *final(self) == (Task {
                running: true,
                kernel_stack: (old(self).stack_base + STACK_SIZE) as u32,
                cpu_state_ptr: (old(self).stack_base + STACK_SIZE - HEADROOM - CPU_STATE_SIZE) as u32,
                heap_next: heap_start,
                ..*old(self)
            }),
            frame == entry_frame(entry_point, user_stack_top, 0x1B, 0x23),
    {
        self.running = true;
        let top = self.stack_base + STACK_SIZE;
        self.kernel_stack = top;
        self.cpu_state_ptr = top - HEADROOM - CPU_STATE_SIZE;
        self.heap_next = heap_start;
        CPUState { eax: 0, ebx: 0, ecx: 0, edx: 0, esi: 0, edi: 0, ebp: 0, eip: entry_point, cs: 0x1B, eflags: 0x202, esp: user_stack_top, ss: 0x23 }
    }
}


/// Number of occupied slots.
pub open spec fn occupied(s: Seq<Option<Task>>) -> nat
    decreases s.len(),
{
    if s.len() == 0 {
        0
    } else {
        occupied(s.drop_last()) + if s.last() is Some { 1nat } else { 0nat }
    }
}

pub proof fn lemma_occupied_update(s: Seq<Option<Task>>, i: int, v: Option<Task>)
    requires
        0 <= i < s.len(),
    ensures
        occupied(s.update(i, v)) + (if s[i] is Some { 1int } else { 0int })
            == occupied(s) + (if v is Some { 1int } else { 0int }),
    decreases s.len(),
{
    let u = s.update(i, v);
    if i == s.len() - 1 {
        assert(u.drop_last() =~= s.drop_last());
    } else {
        assert(u.drop_last() =~= s.drop_last().update(i, v));
        lemma_occupied_update(s.drop_last(), i, v);
    }
}

/// With only slot 0 taken, every non-empty prefix holds one task.
proof fn lemma_occupied_prefix(s: Seq<Option<Task>>, n: int)
    requires
        1 <= n <= s.len(),
        s[0] is Some,
        forall|j: int| 1 <= j < s.len() ==> #[trigger] s[j] is None,
    ensures
        occupied(s.subrange(0, n)) == 1,
    decreases n,
{
    let p = s.subrange(0, n);
    if n == 1 {
        assert(p.drop_last() =~= Seq::<Option<Task>>::empty());
        assert(occupied(Seq::<Option<Task>>::empty()) == 0);
        assert(p.last() == s[0]);
    } else {
        lemma_occupied_prefix(s, n - 1);
        assert(p.drop_last() =~= s.subrange(0, n - 1));
        assert(p.last() == s[n - 1]);
    }
}

pub proof fn lemma_occupied_bound(s: Seq<Option<Task>>)
    ensures
        occupied(s) <= s.len(),
        (exists|i: int| 0 <= i < s.len() && s[i] is None) ==> occupied(s) < s.len(),
    decreases s.len(),
{
    if s.len() > 0 {
        lemma_occupied_bound(s.drop_last());
        if exists|i: int| 0 <= i < s.len() && s[i] is None {
            let i = choose|i: int| 0 <= i < s.len() && s[i] is None;
            if i < s.len() - 1 {
                assert(s.drop_last()[i] is None);
            }
        }
    }
}

/// Slot `i` holds the leader of process `pid`.
pub open spec fn leads_pid(s: Seq<Option<Task>>, i: int, pid: i32) -> bool {
    s[i] matches Some(t) && t.pid == pid && t.leader_slot == i as i8
}

/// First slot below `n` that holds the leader of `pid`.
pub open spec fn first_leader(s: Seq<Option<Task>>, pid: i32, n: int) -> Option<int>
    decreases n,
{
    if n <= 0 {
        None
    } else {
        match first_leader(s, pid, n - 1) {
            Some(i) => Some(i),
            None => if leads_pid(s, n - 1, pid) { Some(n - 1) } else { None },
        }
    }
}

pub proof fn lemma_first_leader_stable(s: Seq<Option<Task>>, pid: i32, n: int, m: int)
    requires
        n <= m,
        first_leader(s, pid, n) is Some,
    ensures
        first_leader(s, pid, m) == first_leader(s, pid, n),
    decreases m - n,
{
    if n < m {
        lemma_first_leader_stable(s, pid, n, m - 1);
    }
}

pub proof fn lemma_first_leader(s: Seq<Option<Task>>, pid: i32, n: int)
    ensures
        first_leader(s, pid, n) matches Some(i) ==> 0 <= i < n && leads_pid(s, i, pid)
            && forall|j: int| 0 <= j < i ==> !leads_pid(s, j, pid),
        first_leader(s, pid, n) is None ==> forall|j: int| 0 <= j < n ==> !leads_pid(s, j, pid),
    decreases n,
{
    if n > 0 {
        lemma_first_leader(s, pid, n - 1);
    }
}

/// Slots below `n`, in order, whose task satisfies `p` (given the task and
/// its slot).
pub open spec fn slots_upto(s: Seq<Option<Task>>, n: int, p: spec_fn(Task, int) -> bool) -> Seq<usize>
    decreases n,
{
    if n <= 0 {
        Seq::empty()
    } else {
        slots_upto(s, n - 1, p) + if s[n - 1] matches Some(t) && p(t, n - 1) { seq![(n - 1) as usize] } else { Seq::empty() }
    }
}

/// Tasks of the process led from slot `leader`.
pub open spec fn in_process(leader: i8) -> spec_fn(Task, int) -> bool {
    |t: Task, i: int| t.leader_slot == leader
}

/// Tasks of the process led from slot `leader` that have not exited.
pub open spec fn live_in_process(leader: i8) -> spec_fn(Task, int) -> bool {
    |t: Task, i: int| t.leader_slot == leader && !t.thread_exited
}

/// Live process leaders of group `pgid`.
pub open spec fn leads_in_group(pgid: i32) -> spec_fn(Task, int) -> bool {
    |t: Task, i: int| t.pgid == pgid && !t.zombie && t.leader_slot == i as i8
}

/// Live tasks outside slot 0 other than process `pid`.
pub open spec fn others_alive(pid: i32) -> spec_fn(Task, int) -> bool {
    |t: Task, i: int| i != 0 && t.pid != pid && !t.zombie
}

pub open spec fn slot_selector(mode: u8, leader: i8, pgid: i32) -> spec_fn(Task, int) -> bool {
    if mode == 0 {
        in_process(leader)
    } else if mode == 1 {
        live_in_process(leader)
    } else if mode == 2 {
        leads_in_group(pgid)
    } else {
        others_alive(pgid)
    }
}

/// The slot of the task a lookup by parent may hand children to: the
/// leader of pid 1 unless it is a zombie.
pub open spec fn init_slot(s: Seq<Option<Task>>) -> Option<int> {
    match first_leader(s, 1, s.len() as int) {
        Some(i) => if !s[i]->Some_0.zombie { Some(i) } else { None },
        None => None,
    }
}

/// Children of `dead_pid` handed to pid 1 (or to the kernel when there is
/// no live pid 1, or when pid 1 itself died).
pub open spec fn reparented(s: Seq<Option<Task>>, dead_pid: i32) -> Seq<Option<Task>> {
    if dead_pid <= 0 {
        s
    } else {
        let target = if dead_pid != 1 { init_slot(s) } else { None };
        Seq::new(s.len(), |i: int| match s[i] {
            Some(t) => if t.ppid == dead_pid {
                Some(match target {
                    Some(k) => Task { ppid: 1, parent: k as i8, ..t },
                    None => Task { ppid: 0, parent: 0, ..t },
                })
            } else {
                Some(t)
            },
            None => None,
        })
    }
}


/// Membership and order of [`slots_upto`].
pub proof fn lemma_slots_upto(s: Seq<Option<Task>>, n: int, p: spec_fn(Task, int) -> bool)
    requires
        0 <= n <= s.len(),
        n <= usize::MAX,
    ensures
        forall|x: usize| slots_upto(s, n, p).contains(x) <==> (x < n && (s[x as int] matches Some(t) && p(t, x as int))),
        forall|a: int, b: int| 0 <= a < b < slots_upto(s, n, p).len()
            ==> (#[trigger] slots_upto(s, n, p)[a]) < (#[trigger] slots_upto(s, n, p)[b]),
        forall|a: int| 0 <= a < slots_upto(s, n, p).len() ==> (#[trigger] slots_upto(s, n, p)[a]) < n,
    decreases n,
{
    if n > 0 {
        lemma_slots_upto(s, n - 1, p);
        let prev = slots_upto(s, n - 1, p);
        let cur = slots_upto(s, n, p);
        let hit = s[n - 1] matches Some(t) && p(t, n - 1);
        if hit {
            assert(cur =~= prev.push((n - 1) as usize));
        } else {
            assert(cur =~= prev);
        }
        assert forall|a: int, b: int| 0 <= a < b < cur.len() implies (#[trigger] cur[a]) < (#[trigger] cur[b]) by {
            assert(cur[a] == prev[a]);
            if b < prev.len() {
                assert(cur[b] == prev[b]);
            }
        }
        assert forall|a: int| 0 <= a < cur.len() implies (#[trigger] cur[a]) < n by {
            if a < prev.len() {
                assert(cur[a] == prev[a]);
            }
        }
        assert forall|x: usize| cur.contains(x) implies (x < n && (s[x as int] matches Some(t) && p(t, x as int))) by {
            let k = choose|k: int| 0 <= k < cur.len() && cur[k] == x;
            if k < prev.len() {
                assert(prev[k] == x);
                assert(prev.contains(x));
            }
        }
        assert forall|x: usize| (x < n && (s[x as int] matches Some(t) && p(t, x as int))) implies cur.contains(x) by {
            if x < n - 1 {
                assert(prev.contains(x));
                let k = choose|k: int| 0 <= k < prev.len() && prev[k] == x;
                assert(cur[k] == x);
            } else {
                assert(cur[prev.len() as int] == x);
            }
        }
    }
}

/// Slot `j` is among the first `k` of `m`.
pub open spec fn among(m: Seq<usize>, k: int, j: int) -> bool {
    exists|a: int| 0 <= a < k && m[a] == j
}


/// A shorter scan gives a prefix of a longer one.
pub proof fn lemma_slots_upto_prefix(s: Seq<Option<Task>>, n: int, m: int, p: spec_fn(Task, int) -> bool)
    requires
        0 <= n <= m,
    ensures
        slots_upto(s, n, p).len() <= slots_upto(s, m, p).len(),
        slots_upto(s, m, p).subrange(0, slots_upto(s, n, p).len() as int) == slots_upto(s, n, p),
    decreases m - n,
{
    if n < m {
        lemma_slots_upto_prefix(s, n, m - 1, p);
        let a = slots_upto(s, m - 1, p);
        let b = slots_upto(s, m, p);
        assert(b.subrange(0, a.len() as int) =~= a);
        assert(b.subrange(0, slots_upto(s, n, p).len() as int) =~= a.subrange(0, slots_upto(s, n, p).len() as int));
    } else {
        assert(slots_upto(s, m, p).subrange(0, slots_upto(s, m, p).len() as int) =~= slots_upto(s, m, p));
    }
}

/// What reaping a dead detached thread in slot `i` looks for.
pub open spec fn detached_dead(owners: Seq<i8>) -> spec_fn(Task, int) -> bool {
    |t: Task, i: int| 1 <= i && owners[i] < 0 && t.is_thread && t.thread_exited && t.thread_detached
}

/// The tasks stored at `slots`, skipping slot `skip`, in order.
pub open spec fn gather(s: Seq<Option<Task>>, slots: Seq<usize>, skip: int) -> Seq<Task>
    decreases slots.len(),
{
    if slots.len() == 0 {
        Seq::empty()
    } else {
        gather(s, slots.drop_last(), skip) + if slots.last() != skip { seq![s[slots.last() as int]->Some_0] } else { Seq::empty() }
    }
}

/// A zombie in slot `id` that no CPU runs can be reaped.
pub open spec fn can_reap(s: Seq<Option<Task>>, owners: Seq<i8>, id: int) -> bool {
    id != 0 && 0 <= id < s.len() && owners[id] < 0 && (s[id] matches Some(t) && t.zombie)
}

/// Slots after reaping the zombie in slot `id`: its children reparented,
/// then it and every task of its process gone.
pub open spec fn reaped(s: Seq<Option<Task>>, id: int) -> Seq<Option<Task>> {
    let r = reparented(s, s[id]->Some_0.pid);
    Seq::new(s.len(), |j: int| if j == id || (r[j] matches Some(t) && t.leader_slot == id as i8) { None } else { r[j] })
}

/// The records whose memory reaping slot `id` frees: the other tasks of
/// its process in slot order, then the zombie itself.
pub open spec fn reaped_tasks(s: Seq<Option<Task>>, id: int) -> Seq<Task> {
    let r = reparented(s, s[id]->Some_0.pid);
    gather(r, slots_upto(r, s.len() as int, in_process(id as i8)), id).push(r[id]->Some_0)
}

/// Reap, in order, each of `ids` that can be reaped at its turn.
pub open spec fn reap_all(s: Seq<Option<Task>>, owners: Seq<i8>, ids: Seq<usize>) -> (Seq<Option<Task>>, Seq<Task>)
    decreases ids.len(),
{
    if ids.len() == 0 {
        (s, Seq::empty())
    } else {
        let (s1, rel) = reap_all(s, owners, ids.drop_last());
        let id = ids.last() as int;
        if can_reap(s1, owners, id) {
            (reaped(s1, id), rel + reaped_tasks(s1, id))
        } else {
            (s1, rel)
        }
    }
}

/// Tasks in slot 1 and up, other than pid 1, whose parent process is gone.
pub open spec fn orphan(s: Seq<Option<Task>>) -> spec_fn(Task, int) -> bool {
    |t: Task, i: int| 1 <= i && t.pid != 1 && (t.ppid <= 0 || first_leader(s, t.ppid, s.len() as int) is None)
}

/// Orphans handed to pid 1 in slot `k`.
pub open spec fn adopted(s: Seq<Option<Task>>, k: int) -> Seq<Option<Task>> {
    Seq::new(s.len(), |j: int| match s[j] {
        Some(t) => if orphan(s)(t, j) { Some(Task { ppid: 1, parent: k as i8, ..t }) } else { Some(t) },
        None => None,
    })
}

/// Orphaned zombies, which nobody will wait for.
pub open spec fn orphan_zombie(s: Seq<Option<Task>>) -> spec_fn(Task, int) -> bool {
    |t: Task, i: int| orphan(s)(t, i) && t.zombie
}

/// Two tables with the same occupied slots, pids and leaders.
pub open spec fn same_identities(a: Seq<Option<Task>>, b: Seq<Option<Task>>) -> bool {
    &&& a.len() == b.len()
    &&& forall|j: int| 0 <= j < a.len() ==> (#[trigger] a[j] is Some) == (b[j] is Some)
    &&& forall|j: int| 0 <= j < a.len() && a[j] is Some ==> (#[trigger] a[j]->Some_0.pid) == b[j]->Some_0.pid
        && a[j]->Some_0.leader_slot == b[j]->Some_0.leader_slot
}

pub proof fn lemma_first_leader_same(a: Seq<Option<Task>>, b: Seq<Option<Task>>, pid: i32, n: int)
    requires
        same_identities(a, b),
        n <= a.len(),
    ensures
        first_leader(a, pid, n) == first_leader(b, pid, n),
    decreases n,
{
    if n > 0 {
        lemma_first_leader_same(a, b, pid, n - 1);
        if a[n - 1] is Some {
            assert(a[n - 1]->Some_0.pid == b[n - 1]->Some_0.pid);
        }
        assert(leads_pid(a, n - 1, pid) == leads_pid(b, n - 1, pid));
    }
}


/// The table once dead detached threads are reaped.
pub open spec fn without_detached_dead(s: Seq<Option<Task>>, owners: Seq<i8>) -> Seq<Option<Task>> {
    Seq::new(s.len(), |j: int| if (s[j] matches Some(t) && detached_dead(owners)(t, j)) { None } else { s[j] })
}

/// The table after the reaping that precedes looking for a free slot:
/// dead detached threads go, then orphans go to a live pid 1, or without
/// one, orphaned zombies are reaped.
pub open spec fn after_reaping(s: Seq<Option<Task>>, owners: Seq<i8>) -> Seq<Option<Task>> {
    let t1 = without_detached_dead(s, owners);
    match init_slot(t1) {
        Some(k) => adopted(t1, k),
        None => reap_all(t1, owners, slots_upto(t1, t1.len() as int, orphan_zombie(t1))).0,
    }
}

/// The records that reaping frees, in the order it frees them.
pub open spec fn reaping_released(s: Seq<Option<Task>>, owners: Seq<i8>) -> Seq<Task> {
    let t1 = without_detached_dead(s, owners);
    gather(s, slots_upto(s, s.len() as int, detached_dead(owners)), -1) + match init_slot(t1) {
        Some(k) => Seq::<Task>::empty(),
        None => reap_all(t1, owners, slots_upto(t1, t1.len() as int, orphan_zombie(t1))).1,
    }
}


/// A slot the CPU `cpu` may take: a runnable task that is no zombie, no
/// exited thread (and no thread at all off the boot CPU) and that no CPU
/// runs.
pub open spec fn claimable(s: Seq<Option<Task>>, owners: Seq<i8>, cpu: i8, slot: int) -> bool {
    &&& s[slot] matches Some(t)
    &&& t.running && !t.zombie && !t.thread_exited && (cpu == 0 || !t.is_thread)
    &&& owners[slot] == -1
}

/// Where the round-robin scan starts after slot `after` (slot 0, the idle
/// task, is never scanned).
pub open spec fn scan_start(after: i8) -> int {
    if after < 1 || after == MAX_TASKS - 1 { 1 } else { after + 1 }
}

/// The `k`-th slot the scan visits: slots 1 to 31 in a circle.
pub open spec fn scan_slot(start: int, k: int) -> int {
    1 + (start - 1 + k) % 31
}

/// The first claimable slot from the `k`-th step of the scan on, 0 if none.
pub open spec fn first_claimable(s: Seq<Option<Task>>, owners: Seq<i8>, cpu: i8, start: int, k: int) -> int
    decreases 31 - k,
{
    if k >= 31 {
        0
    } else if claimable(s, owners, cpu, scan_slot(start, k)) {
        scan_slot(start, k)
    } else {
        first_claimable(s, owners, cpu, start, k + 1)
    }
}

pub proof fn lemma_first_claimable(s: Seq<Option<Task>>, owners: Seq<i8>, cpu: i8, start: int, k: int)
    requires
        1 <= start <= 31,
        0 <= k,
    ensures
        ({
            let r = first_claimable(s, owners, cpu, start, k);
            r == 0 || (1 <= r <= 31 && claimable(s, owners, cpu, r))
        }),
    decreases 31 - k,
{
    if k < 31 {
        lemma_first_claimable(s, owners, cpu, start, k + 1);
    }
}

/// The first runnable slot that no CPU runs, scanning all slots from the
/// one after `current` on, from the `k`-th step on; 0 if none.
pub open spec fn next_runnable(s: Seq<Option<Task>>, owners: Seq<i8>, current: int, k: int) -> int
    decreases 32 - k,
{
    if k >= 32 {
        0
    } else {
        let slot = (current + 1 + k) % 32;
        if (s[slot] matches Some(t) && t.running) && owners[slot] < 0 {
            slot
        } else {
            next_runnable(s, owners, current, k + 1)
        }
    }
}

/// The slot a CPU switches to.
pub struct Switch {
    pub slot: usize,
    pub cpu_state_ptr: u32,
    pub kernel_stack: u32,
    pub page_dir_phys: u32,
}

pub open spec fn switch_to(s: Seq<Option<Task>>, slot: int) -> Switch {
    let t = s[slot]->Some_0;
    Switch { slot: slot as usize, cpu_state_ptr: t.cpu_state_ptr, kernel_stack: t.kernel_stack, page_dir_phys: t.page_dir_phys }
}

/// The task in slot `slot` with its state saved at `cpu_state`.
pub open spec fn saved_at(s: Seq<Option<Task>>, slot: int, cpu_state: u32) -> Seq<Option<Task>> {
    if 0 <= slot < s.len() && s[slot] is Some {
        s.update(slot, Some(Task { cpu_state_ptr: cpu_state, ..s[slot]->Some_0 }))
    } else {
        s
    }
}


/// Pids count up: after pid `n` (below the top) comes `n + 1`, and the
/// counter never hands out 0 or a negative pid.
pub proof fn law_pids_count_up(n: i32)
    ensures
        next_pid_after(n) >= 1,
        1 <= n < i32::MAX ==> next_pid_after(n) == n + 1,
{
}

/// Reaping a zombie empties its slot and those of its threads, and leaves
/// no task whose parent is the dead process.
pub proof fn law_reap_leaves_no_orphans(s: Seq<Option<Task>>, id: int)
    requires
        s.len() == MAX_TASKS,
        0 <= id < MAX_TASKS,
        s[id] matches Some(t) && t.zombie && t.pid > 0,
    ensures
        reaped(s, id)[id] is None,
        forall|j: int| 0 <= j < MAX_TASKS ==> (#[trigger] reaped(s, id)[j] matches Some(t)
            ==> t.ppid != s[id]->Some_0.pid && t.leader_slot != id as i8),
{
    let dead = s[id]->Some_0.pid;
    let r = reparented(s, dead);
    assert forall|j: int| 0 <= j < MAX_TASKS implies (#[trigger] reaped(s, id)[j] matches Some(t)
        ==> t.ppid != dead && t.leader_slot != id as i8) by {
        if reaped(s, id)[j] is Some {
            assert(reaped(s, id)[j] == r[j]);
        }
    }
}

/// The fixed table of task slots. `owners[i]` is the CPU running slot `i`
/// (-1 when none); `task_count` is the number of occupied slots.
pub struct TaskManager {
    pub tasks: Vec<Option<Task>>,
    pub owners: Vec<i8>,
    pub task_count: i8,
    pub current_task: i8,
    pub first_switch: bool,
    pub next_pid: i32,
}

/// The pid counter after handing one out: one up, back to 1 past the top.
pub open spec fn next_pid_after(n: i32) -> i32 {
    if n == i32::MAX || n + 1 <= 0 { 1 } else { (n + 1) as i32 }
}

impl TaskManager {
    pub open spec fn wf(&self) -> bool {
        &&& self.tasks@.len() == MAX_TASKS
        &&& self.owners@.len() == MAX_TASKS
        &&& self.task_count == occupied(self.tasks@)
        &&& -1 <= self.current_task < MAX_TASKS
    }

    /// The empty table before boot.
    pub fn new() -> (r: Self)
        ensures
            r.wf(),
            forall|i: int| 0 <= i < MAX_TASKS ==> #[trigger] r.tasks@[i] is None && r.owners@[i] == -1i8,
            r.current_task == -1,
            r.first_switch,
            r.next_pid == 1,
    {
        let mut tasks: Vec<Option<Task>> = Vec::new();
        let mut owners: Vec<i8> = Vec::new();
        let mut i: usize = 0;
        while i < 32
            invariant
                i <= 32,
                tasks@.len() == i,
                owners@.len() == i,
                forall|j: int| 0 <= j < i ==> #[trigger] tasks@[j] is None,
                forall|j: int| 0 <= j < i ==> #[trigger] owners@[j] == -1i8,
                occupied(tasks@) == 0,
            decreases 32 - i,
        {
            let ghost before = tasks@;
            let ghost before_o = owners@;
            tasks.push(None);
            owners.push(-1);
            proof {
                assert(tasks@.drop_last() =~= before);
                assert(tasks@[i as int] is None);
                assert(owners@[i as int] == -1);
                assert forall|j: int| 0 <= j < i + 1 implies #[trigger] tasks@[j] is None by {
                    if j < i {
                        assert(tasks@[j] == before[j]);
                    }
                }
                assert forall|j: int| 0 <= j < i + 1 implies #[trigger] owners@[j] == -1i8 by {
                    if j < i {
                        assert(owners@[j] == before_o[j]);
                    }
                }
            }
            i = i + 1;
        }
        TaskManager { tasks, owners, task_count: 0, current_task: -1, first_switch: true, next_pid: 1 }
    }

    /// A fresh pid: never 0 (the idle task's), counting up.
    pub fn alloc_pid(&mut self) -> (pid: i32)
        ensures
            pid == (if old(self).next_pid >= 1 { old(self).next_pid } else { 1 }),
            pid >= 1,
            *final(self) == (TaskManager { next_pid: next_pid_after(old(self).next_pid), ..*old(self) }),
    {
        let pid = if self.next_pid >= 1 { self.next_pid } else { 1 };
        self.next_pid = self.next_pid.wrapping_add(1);
        if self.next_pid <= 0 {
            self.next_pid = 1;
        }
        pid
    }

    /// Slot of the leader of process `pid`.
    pub fn slot_by_pid(&self, pid: i32) -> (r: Option<usize>)
        requires
            self.wf(),
        ensures
            r == (match first_leader(self.tasks@, pid, MAX_TASKS as int) {
                Some(i) => Some(i as usize),
                None => None::<usize>,
            }),
    {
        let mut i: usize = 0;
        while i < 32
            invariant
                self.wf(),
                i <= 32,
                first_leader(self.tasks@, pid, i as int) is None,
            decreases 32 - i,
        {
            match self.tasks[i] {
                Some(t) => {
                    if t.pid == pid && t.leader_slot == i as i8 {
                        proof {
                            lemma_first_leader_stable(self.tasks@, pid, i + 1, MAX_TASKS as int);
                        }
                        return Some(i);
                    }
                },
                None => {},
            }
            i = i + 1;
        }
        None
    }

    /// First slot whose task has thread id `tid`.
    pub fn slot_by_tid(&self, tid: i32) -> (r: Option<usize>)
        requires
            self.wf(),
        ensures
            r matches Some(i) ==> {
                &&& i < MAX_TASKS
                &&& self.tasks@[i as int] matches Some(t)
                &&& t.tid == tid
                &&& forall|j: int| 0 <= j < i ==> !((#[trigger] self.tasks@[j]) matches Some(u) && u.tid == tid)
            },
            r is None ==> forall|j: int| 0 <= j < MAX_TASKS ==> !((#[trigger] self.tasks@[j]) matches Some(u) && u.tid == tid),
    {
        let mut i: usize = 0;
        while i < 32
            invariant
                self.wf(),
                i <= 32,
                forall|j: int| 0 <= j < i ==> !((#[trigger] self.tasks@[j]) matches Some(u) && u.tid == tid),
            decreases 32 - i,
        {
            match self.tasks[i] {
                Some(t) => {
                    if t.tid == tid {
                        return Some(i);
                    }
                },
                None => {},
            }
            i = i + 1;
        }
        None
    }

    /// Slot holding the process that slot `slot` belongs to.
    pub fn process_slot(&self, slot: usize) -> (r: usize)
        requires
            self.wf(),
        ensures
            r == (if slot < MAX_TASKS && self.tasks@[slot as int] is Some
                && self.tasks@[slot as int]->Some_0.leader_slot >= 0 {
                self.tasks@[slot as int]->Some_0.leader_slot as usize
            } else {
                slot
            }),
    {
        if slot < self.tasks.len() {
            match self.tasks[slot] {
                Some(t) => if t.leader_slot >= 0 { t.leader_slot as usize } else { slot },
                None => slot,
            }
        } else {
            slot
        }
    }

    fn collect_slots(&self, mode: u8, leader: i8, pgid: i32) -> (r: Vec<usize>)
        requires
            self.wf(),
        ensures
            r@ == slots_upto(self.tasks@, MAX_TASKS as int, slot_selector(mode, leader, pgid)),
    {
        let ghost p = slot_selector(mode, leader, pgid);
        let mut out: Vec<usize> = Vec::new();
        let mut i: usize = 0;
        while i < 32
            invariant
                self.wf(),
                i <= 32,
                p == slot_selector(mode, leader, pgid),
                out@ == slots_upto(self.tasks@, i as int, p),
            decreases 32 - i,
        {
            match self.tasks[i] {
                Some(t) => {
                    let hit = if mode == 0 {
                        t.leader_slot == leader
                    } else if mode == 1 {
                        t.leader_slot == leader && !t.thread_exited
                    } else if mode == 2 {
                        t.pgid == pgid && !t.zombie && t.leader_slot == i as i8
                    } else {
                        i != 0 && t.pid != pgid && !t.zombie
                    };
                    assert(hit == p(t, i as int));
                    if hit {
                        out.push(i);
                    }
                    assert(out@ =~= slots_upto(self.tasks@, i + 1, p));
                },
                None => {
                    assert(out@ =~= slots_upto(self.tasks@, i + 1, p));
                },
            }
            i = i + 1;
        }
        out
    }

    /// Slots of all tasks of the process led from `leader_slot`, in order.
    pub fn thread_slots(&self, leader_slot: usize) -> (r: Vec<usize>)
        requires
            self.wf(),
        ensures
            r@ == slots_upto(self.tasks@, MAX_TASKS as int, in_process(leader_slot as i8)),
    {
        self.collect_slots(0, leader_slot as i8, 0)
    }

    /// How many tasks of the process led from `leader_slot` have not exited.
    pub fn live_thread_count(&self, leader_slot: usize) -> (r: usize)
        requires
            self.wf(),
        ensures
            r == slots_upto(self.tasks@, MAX_TASKS as int, live_in_process(leader_slot as i8)).len(),
    {
        self.collect_slots(1, leader_slot as i8, 0).len()
    }

    /// Leader slots of the live processes in process group `pgid`.
    pub fn slots_in_pgid(&self, pgid: i32) -> (r: Vec<usize>)
        requires
            self.wf(),
        ensures
            r@ == slots_upto(self.tasks@, MAX_TASKS as int, leads_in_group(pgid)),
    {
        self.collect_slots(2, 0, pgid)
    }

    /// Slots of the live tasks outside slot 0 that are not process `pid`.
    pub fn other_live_slots(&self, pid: i32) -> (r: Vec<usize>)
        requires
            self.wf(),
        ensures
            r@ == slots_upto(self.tasks@, MAX_TASKS as int, others_alive(pid)),
    {
        self.collect_slots(3, 0, pid)
    }

    /// Pid of the task in slot `current` (the calling CPU's), -1 when none.
    pub fn current_pid(&self, current: i8) -> (r: i32)
        requires
            self.wf(),
            current < MAX_TASKS,
        ensures
            r == (if current < 0 || self.tasks@[current as int] is None { -1i32 }
                else { self.tasks@[current as int]->Some_0.pid }),
    {
        if current < 0 {
            return -1;
        }
        match self.tasks[current as usize] {
            Some(t) => t.pid,
            None => -1,
        }
    }

    /// First zombie child of `parent_pid` (of pid `want_pid`, or any when
    /// it is negative): its slot, pid and exit code. The slot stays taken.
    pub fn find_zombie_child(&self, parent_pid: i32, want_pid: i32) -> (r: Option<(usize, i32, i32)>)
        requires
            self.wf(),
        ensures
            r matches Some((i, pid, code)) ==> {
                &&& i < MAX_TASKS
                &&& self.tasks@[i as int] matches Some(t)
                &&& t.zombie && t.ppid == parent_pid && (want_pid < 0 || want_pid == t.pid)
                &&& pid == t.pid && code == t.exit_code
                &&& forall|j: int| 0 <= j < i ==> !((#[trigger] self.tasks@[j]) matches Some(u) && u.zombie
                    && u.ppid == parent_pid && (want_pid < 0 || want_pid == u.pid))
            },
            r is None ==> forall|j: int| 0 <= j < MAX_TASKS ==> !((#[trigger] self.tasks@[j]) matches Some(u) && u.zombie
                && u.ppid == parent_pid && (want_pid < 0 || want_pid == u.pid)),
    {
        let mut i: usize = 0;
        while i < 32
            invariant
                self.wf(),
                i <= 32,
                forall|j: int| 0 <= j < i ==> !((#[trigger] self.tasks@[j]) matches Some(u) && u.zombie
                    && u.ppid == parent_pid && (want_pid < 0 || want_pid == u.pid)),
            decreases 32 - i,
        {
            match self.tasks[i] {
                Some(t) => {
                    if t.zombie && t.ppid == parent_pid && (want_pid < 0 || want_pid == t.pid) {
                        return Some((i, t.pid, t.exit_code));
                    }
                },
                None => {},
            }
            i = i + 1;
        }
        None
    }

    /// No live process `ppid` is there to wait for its child.
    pub fn parent_gone(&self, ppid: i32) -> (r: bool)
        requires
            self.wf(),
        ensures
            r == (ppid <= 0 || first_leader(self.tasks@, ppid, MAX_TASKS as int) is None),
    {
        ppid <= 0 || self.slot_by_pid(ppid).is_none()
    }

    /// Hand the children of `dead_pid` to pid 1 (see [`reparented`]).
    pub fn reparent_children_of(&mut self, dead_pid: i32)
        requires
            old(self).wf(),
        ensures
            final(self).wf(),
            final(self).tasks@ == reparented(old(self).tasks@, dead_pid),
            final(self).owners@ == old(self).owners@,
            final(self).task_count == old(self).task_count,
            final(self).current_task == old(self).current_task,
            final(self).first_switch == old(self).first_switch,
            final(self).next_pid == old(self).next_pid,
    {
        if dead_pid <= 0 {
            return;
        }
        proof {
            lemma_first_leader(self.tasks@, 1, MAX_TASKS as int);
        }
        let target: Option<usize> = if dead_pid != 1 {
            match self.slot_by_pid(1) {
                Some(k) => match self.tasks[k] {
                    Some(t) => if !t.zombie { Some(k) } else { None },
                    None => None,
                },
                None => None,
            }
        } else {
            None
        };
        let ghost old_tasks = self.tasks@;
        let ghost want = reparented(old_tasks, dead_pid);
        proof {
            lemma_first_leader(old_tasks, 1, MAX_TASKS as int);
            lemma_first_leader(old_tasks, 1, MAX_TASKS as int);
            assert(target == (match (if dead_pid != 1 { init_slot(old_tasks) } else { None }) {
                Some(k) => Some(k as usize),
                None => None::<usize>,
            }));
        }
        let mut i: usize = 0;
        while i < 32
            invariant
                i <= 32,
                self.tasks@.len() == 32,
                self.owners@ == old(self).owners@,
                self.owners@.len() == 32,
                self.task_count == old(self).task_count,
                self.current_task == old(self).current_task,
                self.first_switch == old(self).first_switch,
                self.next_pid == old(self).next_pid,
                old_tasks == old(self).tasks@,
                old_tasks.len() == 32,
                init_slot(old_tasks) matches Some(k) ==> 0 <= k < 32,
                want == reparented(old_tasks, dead_pid),
                dead_pid > 0,
                target == (match (if dead_pid != 1 { init_slot(old_tasks) } else { None }) {
                    Some(k) => Some(k as usize),
                    None => None::<usize>,
                }),
                forall|k: usize| target == Some(k) ==> k < 32,
                occupied(self.tasks@) == occupied(old_tasks),
                self.task_count == occupied(old_tasks),
                -1 <= self.current_task < MAX_TASKS,
                forall|j: int| 0 <= j < i ==> self.tasks@[j] == want[j],
                forall|j: int| i <= j < 32 ==> self.tasks@[j] == old_tasks[j],
            decreases 32 - i,
        {
            match self.tasks[i] {
                Some(t) => {
                    if t.ppid == dead_pid {
                        let nt = match target {
                            Some(k) => {
                                assert(init_slot(old_tasks) == Some(k as int) && dead_pid != 1);
                                Task { ppid: 1, parent: k as i8, ..t }
                            },
                            None => {
                                assert(dead_pid == 1 || init_slot(old_tasks) is None);
                                Task { ppid: 0, parent: 0, ..t }
                            },
                        };
                        proof {
                            lemma_occupied_update(self.tasks@, i as int, Some(nt));
                        }
                        self.tasks.set(i, Some(nt));
                        assert(self.tasks@[i as int] == want[i as int]);
                    } else {
                        assert(self.tasks@[i as int] == want[i as int]);
                    }
                },
                None => {
                    assert(self.tasks@[i as int] == want[i as int]);
                },
            }
            i = i + 1;
        }
        proof {
            assert(self.tasks@ =~= want);
        }
    }

    /// Drop slot `id` (not the idle task's, and not while a CPU runs it),
    /// handing its children on. Returns the removed record.
    pub fn remove_task(&mut self, id: usize) -> (r: Option<Task>)
        requires
            old(self).wf(),
        ensures
            final(self).wf(),
            final(self).owners@ == old(self).owners@,
            final(self).current_task == old(self).current_task,
            final(self).next_pid == old(self).next_pid,
            ({
                let hit = id != 0 && id < MAX_TASKS && old(self).owners@[id as int] < 0 && old(self).tasks@[id as int] is Some;
                &&& hit ==> r == old(self).tasks@[id as int]
                    && final(self).tasks@ == reparented(old(self).tasks@, old(self).tasks@[id as int]->Some_0.pid).update(id as int, None)
                    && final(self).task_count == old(self).task_count - 1
                &&& !hit ==> r is None && final(self).tasks@ == old(self).tasks@ && final(self).task_count == old(self).task_count
            }),
    {
        if id != 0 && id < self.tasks.len() && self.owners[id] < 0 {
            match self.tasks[id] {
                Some(t) => {
                    self.reparent_children_of(t.pid);
                    proof {
                        lemma_occupied_update(self.tasks@, id as int, None);
                    }
                    self.tasks.set(id, None);
                    self.task_count = self.task_count - 1;
                    return Some(t);
                },
                None => {},
            }
        }
        None
    }

    /// Remove the task running on the calling CPU (slot `current`).
    pub fn remove_current_task(&mut self, current: i8) -> (r: Option<Task>)
        requires
            old(self).wf(),
        ensures
            final(self).wf(),
            current < 0 ==> r is None && *final(self) == *old(self),
            current >= 0 ==> ({
                let id = current as int;
                let hit = id != 0 && id < MAX_TASKS && old(self).owners@[id] < 0 && old(self).tasks@[id] is Some;
                &&& hit ==> r == old(self).tasks@[id]
                    && final(self).tasks@ == reparented(old(self).tasks@, old(self).tasks@[id]->Some_0.pid).update(id, None)
                    && final(self).task_count == old(self).task_count - 1
                &&& !hit ==> r is None && final(self).tasks@ == old(self).tasks@
            }),
    {
        if current >= 0 {
            self.remove_task(current as usize)
        } else {
            None
        }
    }

    /// Free the slot of an exited thread. Returns its record for the caller
    /// to release its stacks.
    pub fn reap_thread(&mut self, id: usize) -> (r: Option<Task>)
        requires
            old(self).wf(),
        ensures
            final(self).wf(),
            final(self).owners@ == old(self).owners@,
            final(self).current_task == old(self).current_task,
            final(self).next_pid == old(self).next_pid,
            final(self).first_switch == old(self).first_switch,
            ({
                let hit = id != 0 && id < MAX_TASKS && old(self).owners@[id as int] < 0
                    && (old(self).tasks@[id as int] matches Some(t) && t.is_thread && t.thread_exited);
                &&& hit ==> r == old(self).tasks@[id as int] && final(self).tasks@ == old(self).tasks@.update(id as int, None)
                    && final(self).task_count == old(self).task_count - 1
                &&& !hit ==> r is None && final(self).tasks@ == old(self).tasks@ && final(self).task_count == old(self).task_count
            }),
    {
        if id == 0 || id >= self.tasks.len() {
            return None;
        }
        if self.owners[id] >= 0 {
            return None;
        }
        match self.tasks[id] {
            Some(t) => {
                if t.is_thread && t.thread_exited {
                    proof {
                        lemma_occupied_update(self.tasks@, id as int, None);
                    }
                    self.tasks.set(id, None);
                    self.task_count = self.task_count - 1;
                    Some(t)
                } else {
                    None
                }
            },
            None => None,
        }
    }

    /// Free a zombie process (not slot 0, not while a CPU runs it): its
    /// children go to pid 1, and its slot and those of its threads are
    /// emptied. Returns the records whose memory the caller releases, or
    /// `None` when slot `id` cannot be reaped.
    pub fn reap(&mut self, id: usize) -> (r: Option<Vec<Task>>)
        requires
            old(self).wf(),
            id < MAX_TASKS,
        ensures
            final(self).wf(),
            final(self).owners@ == old(self).owners@,
            final(self).current_task == old(self).current_task,
            final(self).next_pid == old(self).next_pid,
            final(self).first_switch == old(self).first_switch,
            can_reap(old(self).tasks@, old(self).owners@, id as int) ==> (r matches Some(v)
                && v@ == reaped_tasks(old(self).tasks@, id as int)
                && final(self).tasks@ == reaped(old(self).tasks@, id as int)),
            !can_reap(old(self).tasks@, old(self).owners@, id as int) ==> r is None
                && final(self).tasks@ == old(self).tasks@ && final(self).task_count == old(self).task_count,
    {
        if id == 0 || self.owners[id] >= 0 {
            return None;
        }
        let t = match self.tasks[id] {
            Some(t) => t,
            None => return None,
        };
        if !t.zombie {
            return None;
        }
        self.reparent_children_of(t.pid);
        let ghost rp = self.tasks@;
        let ghost p = in_process(id as i8);
        let members = self.thread_slots(id);
        proof {
            lemma_slots_upto(rp, MAX_TASKS as int, p);
            assert(rp[id as int] is Some);
        }
        let mut released: Vec<Task> = Vec::new();
        let mut k: usize = 0;
        while k < members.len()
            invariant
                k <= members@.len(),
                id < 32,
                rp.len() == 32,
                self.tasks@.len() == 32,
                self.owners@.len() == 32,
                self.owners@ == old(self).owners@,
                self.current_task == old(self).current_task,
                self.next_pid == old(self).next_pid,
                self.first_switch == old(self).first_switch,
                -1 <= self.current_task < MAX_TASKS,
                self.task_count == occupied(self.tasks@),
                rp[id as int] is Some,
                members@ == slots_upto(rp, MAX_TASKS as int, p),
                p == in_process(id as i8),
                forall|x: usize| members@.contains(x) <==> (x < 32 && (rp[x as int] matches Some(t) && p(t, x as int))),
                forall|a: int, b: int| 0 <= a < b < members@.len() ==> (#[trigger] members@[a]) < (#[trigger] members@[b]),
                forall|a: int| 0 <= a < members@.len() ==> (#[trigger] members@[a]) < 32,
                forall|j: int| 0 <= j < 32 ==> #[trigger] self.tasks@[j]
                    == if j != id && among(members@, k as int, j) { None } else { rp[j] },
                released@ == gather(rp, members@.subrange(0, k as int), id as int),
            decreases members@.len() - k,
        {
            let slot = members[k];
            proof {
                assert(members@.contains(slot));
                assert(members@.subrange(0, k + 1).drop_last() =~= members@.subrange(0, k as int));
                assert(!among(members@, k as int, slot as int)) by {
                    if among(members@, k as int, slot as int) {
                        let a = choose|a: int| 0 <= a < k && members@[a] == slot as int;
                        assert(members@[a] < members@[k as int]);
                    }
                }
                assert forall|j: int| #[trigger] among(members@, k + 1, j) == (among(members@, k as int, j) || members@[k as int] == j) by {
                    if among(members@, k + 1, j) {
                        let a = choose|a: int| 0 <= a < k + 1 && members@[a] == j;
                        if a < k {
                            assert(among(members@, k as int, j));
                        }
                    }
                    if among(members@, k as int, j) {
                        let a = choose|a: int| 0 <= a < k && members@[a] == j;
                        assert(0 <= a < k + 1 && members@[a] == j);
                    }
                    if members@[k as int] == j {
                        assert(0 <= k < k + 1 && members@[k as int] == j);
                    }
                }
            }
            if slot != id {
                let ghost before = self.tasks@;
                match self.tasks[slot] {
                    Some(m) => {
                        released.push(m);
                    },
                    None => {},
                }
                proof {
                    lemma_occupied_update(before, slot as int, None);
                }
                self.tasks.set(slot, None);
                self.task_count = self.task_count - 1;
            }
            k = k + 1;
        }
        proof {
            assert(members@.subrange(0, members@.len() as int) =~= members@);
            assert forall|j: int| 0 <= j < 32 implies among(members@, members@.len() as int, j) == members@.contains(j as usize) by {
                if members@.contains(j as usize) {
                    let a = choose|a: int| 0 <= a < members@.len() && members@[a] == j as usize;
                    assert(0 <= a < members@.len() && members@[a] == j);
                }
                if among(members@, members@.len() as int, j) {
                    let a = choose|a: int| 0 <= a < members@.len() && members@[a] == j;
                    assert(members@[a] == j as usize);
                }
            }
        }
        let last = self.tasks[id];
        match last {
            Some(m) => {
                released.push(m);
            },
            None => {},
        }
        proof {
            lemma_occupied_update(self.tasks@, id as int, None);
        }
        self.tasks.set(id, None);
        self.task_count = self.task_count - 1;
        proof {
            assert(self.tasks@ =~= reaped(old(self).tasks@, id as int));
        }
        Some(released)
    }

    /// Free every dead detached thread that no CPU runs (slot 0 aside).
    /// Returns their records, in slot order.
    pub fn reap_detached_threads(&mut self) -> (r: Vec<Task>)
        requires
            old(self).wf(),
        ensures
            final(self).wf(),
            final(self).owners@ == old(self).owners@,
            final(self).current_task == old(self).current_task,
            final(self).next_pid == old(self).next_pid,
            final(self).first_switch == old(self).first_switch,
            final(self).tasks@ == without_detached_dead(old(self).tasks@, old(self).owners@),
            r@ == gather(old(self).tasks@, slots_upto(old(self).tasks@, MAX_TASKS as int, detached_dead(old(self).owners@)), -1),
    {
        let ghost ot = self.tasks@;
        let ghost p = detached_dead(self.owners@);
        let mut released: Vec<Task> = Vec::new();
        let mut slot: usize = 1;
        proof {
            assert(slots_upto(ot, 1, p) =~= slots_upto(ot, 0, p));
        }
        while slot < 32
            invariant
                1 <= slot <= 32,
                self.wf(),
                ot == old(self).tasks@,
                ot.len() == 32,
                p == detached_dead(old(self).owners@),
                self.owners@ == old(self).owners@,
                self.current_task == old(self).current_task,
                self.next_pid == old(self).next_pid,
                self.first_switch == old(self).first_switch,
                forall|j: int| 0 <= j < slot ==> #[trigger] self.tasks@[j]
                    == if (ot[j] matches Some(t) && p(t, j)) { None } else { ot[j] },
                forall|j: int| slot <= j < 32 ==> #[trigger] self.tasks@[j] == ot[j],
                released@ == gather(ot, slots_upto(ot, slot as int, p), -1),
            decreases 32 - slot,
        {
            let ghost before = released@;
            let ghost prev = slots_upto(ot, slot as int, p);
            if self.owners[slot] >= 0 {
                assert(slots_upto(ot, slot + 1, p) =~= prev);
            } else {
                let dead = match self.tasks[slot] {
                    Some(t) => t.is_thread && t.thread_exited && t.thread_detached,
                    None => false,
                };
                if dead {
                    match self.reap_thread(slot) {
                        Some(t) => {
                            released.push(t);
                        },
                        None => {},
                    }
                    assert(slots_upto(ot, slot + 1, p) =~= prev.push(slot));
                    assert(slots_upto(ot, slot + 1, p).drop_last() =~= prev);
                } else {
                    assert(slots_upto(ot, slot + 1, p) =~= prev);
                }
            }
            slot = slot + 1;
        }
        proof {
            assert(self.tasks@ =~= without_detached_dead(ot, old(self).owners@));
        }
        released
    }

    /// Repair stale parent links: every task in slot 1 and up, other than
    /// pid 1, whose parent process is gone goes to pid 1 when pid 1 lives.
    /// Without a live pid 1, such tasks that are zombies are reaped instead,
    /// in slot order. Returns the records whose memory the caller releases.
    pub fn reap_orphans(&mut self) -> (r: Vec<Task>)
        requires
            old(self).wf(),
        ensures
            final(self).wf(),
            final(self).owners@ == old(self).owners@,
            final(self).current_task == old(self).current_task,
            final(self).next_pid == old(self).next_pid,
            final(self).first_switch == old(self).first_switch,
            init_slot(old(self).tasks@) matches Some(k) ==> final(self).tasks@ == adopted(old(self).tasks@, k) && r@.len() == 0,
            init_slot(old(self).tasks@) is None ==> (final(self).tasks@, r@) == reap_all(old(self).tasks@, old(self).owners@,
                slots_upto(old(self).tasks@, MAX_TASKS as int, orphan_zombie(old(self).tasks@))),
    {
        let ghost ot = self.tasks@;
        proof {
            lemma_first_leader(ot, 1, MAX_TASKS as int);
        }
        let target: Option<usize> = match self.slot_by_pid(1) {
            Some(k) => match self.tasks[k] {
                Some(t) => if !t.zombie { Some(k) } else { None },
                None => None,
            },
            None => None,
        };
        let ghost oz = orphan_zombie(ot);
        let ghost want = match init_slot(ot) { Some(k) => adopted(ot, k), None => ot };
        let mut zombies: Vec<usize> = Vec::new();
        let mut i: usize = 1;
        proof {
            assert(slots_upto(ot, 1, oz) =~= slots_upto(ot, 0, oz));
        }
        while i < 32
            invariant
                1 <= i <= 32,
                self.wf(),
                ot == old(self).tasks@,
                ot.len() == 32,
                oz == orphan_zombie(ot),
                want == (match init_slot(ot) { Some(k) => adopted(ot, k), None => ot }),
                init_slot(ot) matches Some(k) ==> 0 <= k < 32,
                target == (match init_slot(ot) { Some(k) => Some(k as usize), None => None::<usize> }),
                self.owners@ == old(self).owners@,
                self.current_task == old(self).current_task,
                self.next_pid == old(self).next_pid,
                self.first_switch == old(self).first_switch,
                same_identities(self.tasks@, ot),
                forall|j: int| 0 <= j < i ==> #[trigger] self.tasks@[j] == want[j],
                forall|j: int| i <= j < 32 ==> #[trigger] self.tasks@[j] == ot[j],
                target is Some ==> zombies@.len() == 0,
                target is None ==> zombies@ == slots_upto(ot, i as int, oz),
            decreases 32 - i,
        {
            let ghost prev = slots_upto(ot, i as int, oz);
            match self.tasks[i] {
                Some(t) => {
                    let gone = self.parent_gone(t.ppid);
                    proof {
                        lemma_first_leader_same(self.tasks@, ot, t.ppid, MAX_TASKS as int);
                        assert(gone == (t.ppid <= 0 || first_leader(ot, t.ppid, ot.len() as int) is None));
                    }
                    if t.pid != 1 && gone {
                        match target {
                            Some(k) => {
                                let nt = Task { ppid: 1, parent: k as i8, ..t };
                                proof {
                                    lemma_occupied_update(self.tasks@, i as int, Some(nt));
                                }
                                self.tasks.set(i, Some(nt));
                            },
                            None => {
                                if t.zombie {
                                    zombies.push(i);
                                    assert(slots_upto(ot, i + 1, oz) =~= prev.push(i));
                                } else {
                                    assert(slots_upto(ot, i + 1, oz) =~= prev);
                                }
                            },
                        }
                    } else {
                        assert(slots_upto(ot, i + 1, oz) =~= prev);
                    }
                    assert(self.tasks@[i as int] == want[i as int]);
                },
                None => {
                    assert(slots_upto(ot, i + 1, oz) =~= prev);
                    assert(self.tasks@[i as int] == want[i as int]);
                },
            }
            i = i + 1;
        }
        proof {
            assert(self.tasks@ =~= want);
            lemma_slots_upto(ot, MAX_TASKS as int, oz);
        }
        let mut released: Vec<Task> = Vec::new();
        let mut z: usize = 0;
        proof {
            assert(zombies@.subrange(0, 0) =~= Seq::<usize>::empty());
        }
        while z < zombies.len()
            invariant
                z <= zombies@.len(),
                self.wf(),
                ot == old(self).tasks@,
                self.owners@ == old(self).owners@,
                self.current_task == old(self).current_task,
                self.next_pid == old(self).next_pid,
                self.first_switch == old(self).first_switch,
                forall|a: int| 0 <= a < zombies@.len() ==> (#[trigger] zombies@[a]) < 32,
                target is Some ==> zombies@.len() == 0 && self.tasks@ == want && released@.len() == 0,
                target is None ==> (self.tasks@, released@) == reap_all(ot, old(self).owners@, zombies@.subrange(0, z as int)),
            decreases zombies@.len() - z,
        {
            let id = zombies[z];
            proof {
                assert(zombies@.subrange(0, z + 1).drop_last() =~= zombies@.subrange(0, z as int));
            }
            match self.reap(id) {
                Some(v) => {
                    let mut v = v;
                    released.append(&mut v);
                },
                None => {},
            }
            z = z + 1;
        }
        proof {
            assert(zombies@.subrange(0, zombies@.len() as int) =~= zombies@);
        }
        released
    }

    /// Make room and find a free slot: dead detached threads and orphaned
    /// zombies are reaped first. Returns the lowest empty slot (-1 when the
    /// table is full) and the records whose memory the caller releases.
    pub fn get_free_slot(&mut self) -> (r: (i8, Vec<Task>))
        requires
            old(self).wf(),
        ensures
            final(self).wf(),
            final(self).owners@ == old(self).owners@,
            final(self).current_task == old(self).current_task,
            final(self).next_pid == old(self).next_pid,
            final(self).first_switch == old(self).first_switch,
            final(self).tasks@ == after_reaping(old(self).tasks@, old(self).owners@),
            r.1@ == reaping_released(old(self).tasks@, old(self).owners@),
            r.0 == -1 ==> forall|j: int| 0 <= j < MAX_TASKS ==> #[trigger] final(self).tasks@[j] is Some,
            r.0 != -1 ==> 0 <= r.0 < MAX_TASKS && final(self).tasks@[r.0 as int] is None
                && forall|j: int| 0 <= j < r.0 ==> #[trigger] final(self).tasks@[j] is Some,
    {
        let mut released = self.reap_detached_threads();
        let ghost t1 = self.tasks@;
        let ghost rel1 = released@;
        let mut more = self.reap_orphans();
        let ghost rel2 = more@;
        released.append(&mut more);
        proof {
            assert(released@ == rel1 + rel2);
            if init_slot(t1) is Some {
                assert(rel2 =~= Seq::<Task>::empty());
            }
        }
        let slot = self.first_free_slot();
        (slot, released)
    }

    /// Lowest empty slot, -1 when there is none.
    fn first_free_slot(&self) -> (r: i8)
        requires
            self.wf(),
        ensures
            r == -1 ==> forall|j: int| 0 <= j < MAX_TASKS ==> #[trigger] self.tasks@[j] is Some,
            r != -1 ==> 0 <= r < MAX_TASKS && self.tasks@[r as int] is None
                && forall|j: int| 0 <= j < r ==> #[trigger] self.tasks@[j] is Some,
    {
        let mut i: usize = 0;
        while i < 32
            invariant
                self.wf(),
                i <= 32,
                forall|j: int| 0 <= j < i ==> #[trigger] self.tasks@[j] is Some,
            decreases 32 - i,
        {
            if self.tasks[i].is_none() {
                return i as i8;
            }
            i = i + 1;
        }
        -1
    }

    /// Put the idle task (slot 0, pid 0) in place at boot: it runs `entry`
    /// on its kernel stack, and counts as the only task. Returns the frame
    /// to write at its saved-state pointer.
    pub fn init(&mut self, idle: Task, entry: u32) -> (frame: CPUState)
        requires
            old(self).wf(),
            forall|j: int| 1 <= j < MAX_TASKS ==> #[trigger] old(self).tasks@[j] is None,
            idle.stack_base + STACK_SIZE <= u32::MAX,
        ensures
            final(self).wf(),
            ({
                let top = (idle.stack_base + STACK_SIZE) as u32;
                &&& final(self).tasks@ == old(self).tasks@.update(0, Some(Task {
                    running: true,
                    kernel_stack: top,
                    cpu_state_ptr: (top - HEADROOM - CPU_STATE_SIZE) as u32,
                    pid: 0i32,
                    tid: 0i32,
                    leader_slot: 0i8,
                    ppid: -1i32,
                    pgid: 0i32,
                    sid: 0i32,
                    parent: -1i8,
                    tty_id: -1i16,
                    pty_id: -1i16,
                    stopped: false,
                    ..idle
                }))
                &&& frame == entry_frame(entry, top, 0x08, 0x10)
            }),
            final(self).owners@ == old(self).owners@.update(0, 0),
            final(self).task_count == 1,
            final(self).current_task == 0,
            final(self).first_switch,
            final(self).next_pid == 1,
    {
        let top = idle.stack_base + STACK_SIZE;
        let t = Task {
            running: true,
            kernel_stack: top,
            cpu_state_ptr: top - HEADROOM - CPU_STATE_SIZE,
            pid: 0,
            tid: 0,
            leader_slot: 0,
            ppid: -1,
            pgid: 0,
            sid: 0,
            parent: -1,
            tty_id: -1,
            pty_id: -1,
            stopped: false,
            ..idle
        };
        self.tasks.set(0, Some(t));
        proof {
            let s = self.tasks@;
            assert(s.drop_last().drop_last() =~= s.subrange(0, 30));
            assert forall|n: int| 1 <= n <= 32 implies #[trigger] occupied(s.subrange(0, n)) == 1 by {
                lemma_occupied_prefix(s, n);
            }
            assert(s.subrange(0, 32) =~= s);
        }
        self.task_count = 1;
        self.current_task = 0;
        self.owners.set(0, 0);
        self.first_switch = true;
        self.next_pid = 1;
        CPUState { eax: 0, ebx: 0, ecx: 0, edx: 0, esi: 0, edi: 0, ebp: 0, eip: entry, cs: 0x08, eflags: 0x202, esp: top, ss: 0x10 }
    }

    /// Give `task` (fresh from [`Task::new_task`]) a free slot and a pid,
    /// as a new process and session of its own with the kernel as parent,
    /// runnable in user mode at `entry_point`. Returns the slot and the
    /// frame to write at its saved-state pointer (`None` when the table is
    /// full), and the records the reaping before it freed.
    pub fn add_task(&mut self, task: Task, entry_point: u32, user_stack_top: u32, heap_start: u32)
        -> (r: (Option<(usize, CPUState)>, Vec<Task>))
        requires
            old(self).wf(),
            task.stack_base + STACK_SIZE <= u32::MAX,
        ensures
            final(self).wf(),
            final(self).owners@ == old(self).owners@,
            final(self).current_task == old(self).current_task,
            final(self).first_switch == old(self).first_switch,
            r.1@ == reaping_released(old(self).tasks@, old(self).owners@),
            ({
                let m = after_reaping(old(self).tasks@, old(self).owners@);
                &&& (forall|j: int| 0 <= j < MAX_TASKS ==> #[trigger] m[j] is Some) ==> r.0 is None
                    && final(self).tasks@ == m && final(self).next_pid == old(self).next_pid
                &&& r.0 is None ==> forall|j: int| 0 <= j < MAX_TASKS ==> #[trigger] m[j] is Some
                &&& r.0 matches Some((slot, frame)) ==> {
                    let pid = if old(self).next_pid >= 1 { old(self).next_pid } else { 1i32 };
                    let top = (task.stack_base + STACK_SIZE) as u32;
                    &&& slot < MAX_TASKS
                    &&& m[slot as int] is None
                    &&& forall|j: int| 0 <= j < slot ==> #[trigger] m[j] is Some
                    &&& frame == entry_frame(entry_point, user_stack_top, 0x1B, 0x23)
                    &&& final(self).next_pid == next_pid_after(old(self).next_pid)
                    &&& final(self).tasks@ == m.update(slot as int, Some(Task {
                        running: true,
                        kernel_stack: top,
                        cpu_state_ptr: (top - HEADROOM - CPU_STATE_SIZE) as u32,
                        heap_next: heap_start,
                        pid,
                        tid: pid,
                        leader_slot: slot as i8,
                        ppid: 0i32,
                        pgid: pid,
                        sid: pid,
                        parent: 0i8,
                        tty_id: -1i16,
                        ..task
                    }))
                }
            }),
    {
        let (free_slot, released) = self.get_free_slot();
        if free_slot < 0 {
            return (None, released);
        }
        let pid = self.alloc_pid();
        let mut t = task;
        let frame = t.init(entry_point, user_stack_top, heap_start);
        t.pid = pid;
        t.tid = pid;
        t.leader_slot = free_slot;
        t.ppid = 0;
        t.pgid = pid;
        t.sid = pid;
        t.parent = 0;
        t.tty_id = -1;
        proof {
            lemma_occupied_update(self.tasks@, free_slot as int, Some(t));
            lemma_occupied_bound(self.tasks@);
        }
        self.tasks.set(free_slot as usize, Some(t));
        self.task_count = self.task_count + 1;
        (Some((free_slot as usize, frame)), released)
    }

    /// Round-robin pick for CPU `cpu` after slot `after`: the first
    /// claimable slot in the scan, which `cpu` then owns; 0 (the idle
    /// task) when there is none.
    pub fn claim_next_task(&mut self, cpu: i8, after: i8) -> (r: i8)
        requires
            old(self).wf(),
            after < MAX_TASKS,
        ensures
            final(self).wf(),
            r == first_claimable(old(self).tasks@, old(self).owners@, cpu, scan_start(after), 0),
            r != 0 ==> final(self).owners@ == old(self).owners@.update(r as int, cpu),
            r == 0 ==> final(self).owners@ == old(self).owners@,
            final(self).tasks@ == old(self).tasks@,
            final(self).task_count == old(self).task_count,
            final(self).current_task == old(self).current_task,
            final(self).first_switch == old(self).first_switch,
            final(self).next_pid == old(self).next_pid,
    {
        let ghost start = scan_start(after);
        let mut slot: i8 = if after < 1 { 1 } else { (after + 1) % MAX_TASKS };
        let mut k: i8 = 0;
        while k < 31
            invariant
                self.wf(),
                0 <= k <= 31,
                1 <= start <= 31,
                start == scan_start(after),
                0 <= slot < 32,
                k < 31 ==> (if slot == 0 { 1 } else { slot as int }) == scan_slot(start, k as int),
                first_claimable(old(self).tasks@, old(self).owners@, cpu, start, 0)
                    == first_claimable(old(self).tasks@, old(self).owners@, cpu, start, k as int),
                self.tasks@ == old(self).tasks@,
                self.owners@ == old(self).owners@,
                self.task_count == old(self).task_count,
                self.current_task == old(self).current_task,
                self.first_switch == old(self).first_switch,
                self.next_pid == old(self).next_pid,
            decreases 31 - k,
        {
            if slot == 0 {
                slot = 1;
            }
            let ok = match self.tasks[slot as usize] {
                Some(t) => t.running && !t.zombie && !t.thread_exited && (cpu == 0 || !t.is_thread),
                None => false,
            };
            if ok && self.owners[slot as usize] == -1 {
                self.owners.set(slot as usize, cpu);
                return slot;
            }
            proof {
                let ss = scan_slot(start, k as int);
                assert((start - 1 + k + 1) % 31 == (if ss < 31 { ss } else { 0 })) by {
                    assert((start - 1 + k) % 31 == ss - 1);
                }
            }
            slot = (slot + 1) % MAX_TASKS;
            k = k + 1;
        }
        0
    }

    /// The first runnable, unowned slot after the current one, looking at
    /// every slot once; 0 when there is none or the table is empty.
    pub fn get_next_task(&self) -> (r: i8)
        requires
            self.wf(),
        ensures
            r == (if self.task_count <= 0 { 0 } else { next_runnable(self.tasks@, self.owners@, self.current_task as int, 0) }),
    {
        if self.task_count <= 0 {
            return 0;
        }
        let mut i: i8 = (self.current_task + 1) % MAX_TASKS;
        let mut k: i8 = 0;
        while k < 32
            invariant
                self.wf(),
                0 <= k <= 32,
                0 <= i < 32,
                self.task_count > 0,
                i == (self.current_task + 1 + k) % 32,
                next_runnable(self.tasks@, self.owners@, self.current_task as int, 0)
                    == next_runnable(self.tasks@, self.owners@, self.current_task as int, k as int),
            decreases 32 - k,
        {
            match self.tasks[i as usize] {
                Some(t) => {
                    if t.running && self.owners[i as usize] < 0 {
                        assert(next_runnable(self.tasks@, self.owners@, self.current_task as int, k as int) == i as int);
                        return i;
                    }
                },
                None => {},
            }
            i = (i + 1) % MAX_TASKS;
            k = k + 1;
        }
        0
    }

    /// The boot CPU's scheduling step (application CPUs take
    /// [`TaskManager::schedule_ap`]) at a timer tick that interrupted the
    /// state saved at `cpu_state`: save it in the current task, release that
    /// slot, and claim the next one round-robin (the idle task when none).
    /// The first switch only picks, from slot 1 on. `None` (keep running
    /// what was interrupted) while there is no idle task.
    pub fn schedule(&mut self, cpu_state: u32) -> (r: Option<Switch>)
        requires
            old(self).wf(),
        ensures
            final(self).wf(),
            final(self).task_count == old(self).task_count,
            final(self).next_pid == old(self).next_pid,
            old(self).tasks@[0] is None ==> r is None && *final(self) == *old(self),
            old(self).tasks@[0] is Some && old(self).first_switch ==> ({
                let c = first_claimable(old(self).tasks@, old(self).owners@, 0, 1, 0);
                &&& !final(self).first_switch
                &&& final(self).current_task == c
                &&& final(self).tasks@ == old(self).tasks@
                &&& final(self).owners@ == (if c != 0 { old(self).owners@.update(c, 0i8) } else { old(self).owners@ })
                &&& r == Some(switch_to(old(self).tasks@, c))
            }),
            old(self).tasks@[0] is Some && !old(self).first_switch ==> ({
                let cur = old(self).current_task as int;
                let t1 = saved_at(old(self).tasks@, cur, cpu_state);
                let o1 = if cur > 0 { old(self).owners@.update(cur, -1i8) } else { old(self).owners@ };
                let c = first_claimable(t1, o1, 0, scan_start(old(self).current_task), 0);
                &&& !final(self).first_switch
                &&& final(self).current_task == c
                &&& final(self).tasks@ == t1
                &&& final(self).owners@ == (if c != 0 { o1.update(c, 0i8) } else { o1 })
                &&& r == Some(switch_to(t1, c))
            }),
    {
        if self.tasks[0].is_none() {
            return None;
        }
        if self.first_switch {
            self.first_switch = false;
            self.current_task = 0;
            let next = self.claim_next_task(0, 0);
            proof {
                lemma_first_claimable(old(self).tasks@, old(self).owners@, 0, 1, 0);
            }
            if next != 0 {
                self.current_task = next;
            }
            let t = self.tasks[self.current_task as usize].unwrap();
            return Some(Switch {
                slot: self.current_task as usize,
                cpu_state_ptr: t.cpu_state_ptr,
                kernel_stack: t.kernel_stack,
                page_dir_phys: t.page_dir_phys,
            });
        }
        if self.current_task >= 0 {
            let cur = self.current_task as usize;
            match self.tasks[cur] {
                Some(t) => {
                    proof {
                        lemma_occupied_update(self.tasks@, cur as int, Some(Task { cpu_state_ptr: cpu_state, ..t }));
                    }
                    self.tasks.set(cur, Some(Task { cpu_state_ptr: cpu_state, ..t }));
                },
                None => {},
            }
            if self.current_task > 0 {
                self.owners.set(cur, -1);
            }
        }
        let after = self.current_task;
        let ghost t1 = self.tasks@;
        let ghost o1 = self.owners@;
        self.current_task = self.claim_next_task(0, after);
        proof {
            lemma_first_claimable(t1, o1, 0, scan_start(after), 0);
        }
        let runnable = match self.tasks[self.current_task as usize] {
            Some(t) => t.running,
            None => false,
        };
        if self.current_task < 0 || !runnable {
            self.current_task = 0;
        }
        let t = self.tasks[self.current_task as usize].unwrap();
        Some(Switch {
            slot: self.current_task as usize,
            cpu_state_ptr: t.cpu_state_ptr,
            kernel_stack: t.kernel_stack,
            page_dir_phys: t.page_dir_phys,
        })
    }

    /// An application CPU's scheduling step: save the interrupted state in
    /// the task it ran (slot `previous`, negative when it was idle) and
    /// release that slot, then claim the next slot round-robin. `None`
    /// sends the CPU to its idle loop.
    pub fn schedule_ap(&mut self, cpu: i8, previous: i8, cpu_state: u32) -> (r: Option<Switch>)
        requires
            old(self).wf(),
            previous < MAX_TASKS,
        ensures
            final(self).wf(),
            final(self).task_count == old(self).task_count,
            final(self).current_task == old(self).current_task,
            final(self).first_switch == old(self).first_switch,
            final(self).next_pid == old(self).next_pid,
            ({
                let p = previous as int;
                let t1 = saved_at(old(self).tasks@, p, cpu_state);
                let o1 = if p >= 0 && old(self).tasks@[p] is Some { old(self).owners@.update(p, -1i8) } else { old(self).owners@ };
                let c = first_claimable(t1, o1, cpu, scan_start(previous), 0);
                &&& final(self).tasks@ == t1
                &&& final(self).owners@ == (if c != 0 { o1.update(c, cpu) } else { o1 })
                &&& r == (if c <= 0 { None } else { Some(switch_to(t1, c)) })
            }),
    {
        if previous >= 0 {
            let p = previous as usize;
            match self.tasks[p] {
                Some(t) => {
                    proof {
                        lemma_occupied_update(self.tasks@, p as int, Some(Task { cpu_state_ptr: cpu_state, ..t }));
                    }
                    self.tasks.set(p, Some(Task { cpu_state_ptr: cpu_state, ..t }));
                    self.owners.set(p, -1);
                },
                None => {},
            }
        }
        let ghost t1 = self.tasks@;
        let ghost o1 = self.owners@;
        let next = self.claim_next_task(cpu, previous);
        proof {
            lemma_first_claimable(t1, o1, cpu, scan_start(previous), 0);
        }
        if next <= 0 {
            return None;
        }
        let t = self.tasks[next as usize].unwrap();
        Some(Switch { slot: next as usize, cpu_state_ptr: t.cpu_state_ptr, kernel_stack: t.kernel_stack, page_dir_phys: t.page_dir_phys })
    }

}

} // verus!
