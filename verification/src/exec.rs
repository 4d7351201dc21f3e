//! Starting a program: the new process's identity, its name, the layout of
//! its first user stack, and publishing it in the task table.
//!
//! Building the address space and loading the program image stay with the
//! caller, between [`execve_begin`] and [`execve_finish`].
use vstd::prelude::*;
use crate::file::{FileDescriptor, FileDescriptorTable, OfdStore, PipeEnd, PtySide, MAX_FDS};
use crate::pipe::{PipeTable, MAX_PIPES};
use crate::task::{
    after_reaping, first_leader, lemma_occupied_bound, lemma_occupied_update, reaping_released, Task, TaskManager,
    CPUState, MAX_TASKS, USER_HEAP_BASE, MMAP_BASE, STACK_SIZE, HEADROOM, CPU_STATE_SIZE, next_pid_after,
};

verus! {

/// Top of the first user stack.
pub const USER_STACK_TOP: u32 = 0xBFFF_F000;

/// Total length of the strings from `i` on.
pub open spec fn suffix_len(ss: Seq<Vec<u8>>, i: int) -> int
    decreases ss.len() - i,
{
    if i < 0 || i >= ss.len() { 0 } else { ss[i]@.len() + suffix_len(ss, i + 1) }
}

/// Where the first user stack puts things: `esp` points at the word block
/// (argc, the argv pointers, 0, the envp pointers, 0); each argv and envp
/// string goes to its address.
pub struct StackLayout {
    pub esp: u32,
    pub words: Vec<u32>,
    pub arg_addrs: Vec<u32>,
    pub env_addrs: Vec<u32>,
}

/// The strings need this many bytes below the top, with room for the
/// words and the alignment.
pub open spec fn stack_fits(top: u32, argv: Seq<Vec<u8>>, envp: Seq<Vec<u8>>) -> bool {
    suffix_len(envp, 0) + suffix_len(argv, 0) + 16 + 4 * (argv.len() + envp.len() + 3) <= top
}

proof fn lemma_suffix_len(ss: Seq<Vec<u8>>, i: int)
    requires
        0 <= i <= ss.len(),
    ensures
        0 <= suffix_len(ss, i) <= suffix_len(ss, 0),
        i < ss.len() ==> suffix_len(ss, i) == ss[i]@.len() + suffix_len(ss, i + 1),
    decreases i,
{
    if i > 0 {
        lemma_suffix_len(ss, i - 1);
    }
    lemma_suffix_nonneg(ss, i);
}

proof fn lemma_suffix_nonneg(ss: Seq<Vec<u8>>, i: int)
    ensures
        suffix_len(ss, i) >= 0,
    decreases ss.len() - i,
{
    if 0 <= i < ss.len() {
        lemma_suffix_nonneg(ss, i + 1);
    }
}

/// Addresses of strings packed downward from `top`: string `i` at `top`
/// minus the lengths of it and all after it.
fn string_addrs(top: u32, ss: &[Vec<u8>]) -> (r: Vec<u32>)
    requires
        suffix_len(ss@, 0) <= top,
    ensures
        r@.len() == ss@.len(),
        forall|i: int| 0 <= i < ss@.len() ==> #[trigger] r@[i] == top - suffix_len(ss@, i),
{
    let mut total: u32 = 0;
    let mut k: usize = ss.len();
    proof {
        lemma_suffix_len(ss@, ss@.len() as int);
    }
    while k > 0
        invariant
            k <= ss@.len(),
            total == suffix_len(ss@, k as int),
            suffix_len(ss@, 0) <= top,
        decreases k,
    {
        proof {
            lemma_suffix_len(ss@, k - 1);
        }
        total = total + ss[k - 1].len() as u32;
        k = k - 1;
    }
    let mut out: Vec<u32> = Vec::new();
    let mut addr: u32 = top - total;
    let mut i: usize = 0;
    while i < ss.len()
        invariant
            i <= ss@.len(),
            out@.len() == i,
            suffix_len(ss@, 0) <= top,
            addr == top - suffix_len(ss@, i as int),
            forall|j: int| 0 <= j < i ==> #[trigger] out@[j] == top - suffix_len(ss@, j),
        decreases ss@.len() - i,
    {
        out.push(addr);
        proof {
            lemma_suffix_len(ss@, i as int);
            lemma_suffix_len(ss@, i + 1);
        }
        addr = addr + ss[i].len() as u32;
        i = i + 1;
    }
    out
}

/// The first user stack for `argv` and `envp` below `top`: the environment
/// strings highest, then the argument strings, then, 16-aligned, the word
/// block with argc on top of the stack.
pub fn setup_user_stack(top: u32, argv: &[Vec<u8>], envp: &[Vec<u8>]) -> (r: StackLayout)
    requires
        stack_fits(top, argv@, envp@),
    ensures
        ({
            let env_total = suffix_len(envp@, 0);
            let strings_end = top - env_total - suffix_len(argv@, 0);
            let aligned = strings_end - strings_end % 16;
            let n = argv@.len() + envp@.len() + 3;
            &&& r.env_addrs@.len() == envp@.len()
            &&& forall|i: int| 0 <= i < envp@.len() ==> #[trigger] r.env_addrs@[i] == top - suffix_len(envp@, i)
            &&& r.arg_addrs@.len() == argv@.len()
            &&& forall|i: int| 0 <= i < argv@.len() ==> #[trigger] r.arg_addrs@[i] == top - env_total - suffix_len(argv@, i)
            &&& r.esp == aligned - 4 * n
            &&& r.words@ == seq![argv@.len() as u32] + r.arg_addrs@ + seq![0u32] + r.env_addrs@ + seq![0u32]
        }),
{
    proof {
        lemma_suffix_len(envp@, 0);
        lemma_suffix_len(argv@, 0);
    }
    let env_addrs = string_addrs(top, envp);
    let mut env_total: u32 = 0;
    if envp.len() > 0 {
        env_total = top - env_addrs[0];
    }
    proof {
        if envp@.len() == 0 {
            assert(suffix_len(envp@, 0) == 0);
        }
    }
    let arg_addrs = string_addrs(top - env_total, argv);
    let mut arg_total: u32 = 0;
    if argv.len() > 0 {
        arg_total = (top - env_total) - arg_addrs[0];
    }
    proof {
        if argv@.len() == 0 {
            assert(suffix_len(argv@, 0) == 0);
        }
    }
    let strings_end = top - env_total - arg_total;
    let aligned = strings_end - strings_end % 16;
    let n = argv.len() + envp.len() + 3;
    let mut words: Vec<u32> = Vec::new();
    words.push(argv.len() as u32);
    let mut i: usize = 0;
    while i < arg_addrs.len()
        invariant
            i <= arg_addrs@.len(),
            words@ == seq![argv@.len() as u32] + arg_addrs@.subrange(0, i as int),
        decreases arg_addrs@.len() - i,
    {
        words.push(arg_addrs[i]);
        i = i + 1;
        assert(words@ =~= seq![argv@.len() as u32] + arg_addrs@.subrange(0, i as int));
    }
    assert(arg_addrs@.subrange(0, arg_addrs@.len() as int) =~= arg_addrs@);
    words.push(0);
    let ghost mid = words@;
    let mut j: usize = 0;
    while j < env_addrs.len()
        invariant
            j <= env_addrs@.len(),
            words@ == mid + env_addrs@.subrange(0, j as int),
        decreases env_addrs@.len() - j,
    {
        words.push(env_addrs[j]);
        j = j + 1;
        assert(words@ =~= mid + env_addrs@.subrange(0, j as int));
    }
    assert(env_addrs@.subrange(0, env_addrs@.len() as int) =~= env_addrs@);
    words.push(0);
    let esp = aligned - 4 * (n as u32);
    StackLayout { esp, words, arg_addrs, env_addrs }
}

/// The short name of a program started as `arg0`: what follows its last
/// `/` (a final NUL aside), cut to 31 bytes, NUL-padded to 32.
pub open spec fn base_name(arg0: Seq<u8>) -> Seq<u8> {
    let raw = if arg0.len() > 0 && arg0.last() == 0 { arg0.drop_last() } else { arg0 };
    let cut = last_slash_end(raw, raw.len() as int);
    raw.subrange(cut, raw.len() as int)
}

/// Index just past the last `/` among the first `n` bytes (0 if none).
pub open spec fn last_slash_end(s: Seq<u8>, n: int) -> int
    decreases n,
{
    if n <= 0 { 0 } else if s[n - 1] == 0x2F { n } else { last_slash_end(s, n - 1) }
}

proof fn lemma_last_slash_end(s: Seq<u8>, n: int)
    requires
        0 <= n <= s.len(),
    ensures
        0 <= last_slash_end(s, n) <= n,
    decreases n,
{
    if n > 0 {
        lemma_last_slash_end(s, n - 1);
    }
}

pub fn task_name(arg0: &[u8]) -> (r: [u8; 32])
    ensures
        ({
            let b = base_name(arg0@);
            let n = if b.len() < 31 { b.len() as int } else { 31 };
            forall|i: int| 0 <= i < 32 ==> #[trigger] r@[i] == (if i < n { b[i] } else { 0u8 })
        }),
{
    let mut len = arg0.len();
    if len > 0 && arg0[len - 1] == 0 {
        len = len - 1;
    }
    let ghost raw = if arg0@.len() > 0 && arg0@.last() == 0 { arg0@.drop_last() } else { arg0@ };
    assert(raw =~= arg0@.subrange(0, len as int));
    let mut cut = len;
    while cut > 0 && arg0[cut - 1] != 0x2F
        invariant
            cut <= len <= arg0@.len(),
            raw =~= arg0@.subrange(0, len as int),
            last_slash_end(raw, len as int) == last_slash_end(raw, cut as int),
        decreases cut,
    {
        cut = cut - 1;
    }
    proof {
        lemma_last_slash_end(raw, len as int);
    }
    let mut out = [0u8; 32];
    let mut i: usize = 0;
    while cut + i < len && i < 31
        invariant
            cut <= len <= arg0@.len(),
            raw =~= arg0@.subrange(0, len as int),
            cut == last_slash_end(raw, len as int),
            i <= 31,
            cut + i <= len,
            forall|j: int| 0 <= j < i ==> #[trigger] out@[j] == arg0@[cut + j],
            forall|j: int| i <= j < 32 ==> #[trigger] out@[j] == 0,
        decreases 31 - i,
    {
        out[i] = arg0[cut + i];
        i = i + 1;
    }
    out
}

/// The identity a program started from slot `parent_slot` gets as process
/// `pid`: the parent's pid (0 without a parent task), its session and
/// terminal, and a group: the inherited one for -1, a new one (`pid`) for
/// 0, an existing group of the session for a positive request; anything
/// else is refused. Without a parent task, or from slot 0, the session and
/// group are `pid` itself.
pub open spec fn exec_identity(s: Seq<Option<Task>>, parent_slot: int, pid: i32, requested_pgid: i32)
    -> Option<(i32, i32, i32, i16)>
{
    let p = if 0 <= parent_slot < s.len() { s[parent_slot] } else { None };
    let (ppid, ipgid, isid, tty) = match p {
        Some(t) => (t.pid, t.pgid, t.sid, t.tty_id),
        None => (0i32, pid, pid, -1i16),
    };
    let sid = if parent_slot == 0 || isid <= 0 { pid } else { isid };
    let group = if parent_slot == 0 || ipgid <= 0 { pid } else { ipgid };
    if requested_pgid == -1 {
        Some((ppid, group, sid, tty))
    } else if requested_pgid == 0 {
        Some((ppid, pid, sid, tty))
    } else if requested_pgid > 0 {
        if exists|j: int| 0 <= j < s.len() && (#[trigger] s[j] matches Some(t) && t.pgid == requested_pgid && t.sid == sid) {
            Some((ppid, requested_pgid, sid, tty))
        } else {
            None
        }
    } else {
        None
    }
}

/// What [`execve_begin`] reserved: the free slot, the new pid, and the
/// identity (parent pid, group, session, terminal).
pub struct ExecStart {
    pub slot: usize,
    pub pid: i32,
    pub ppid: i32,
    pub pgid: i32,
    pub sid: i32,
    pub tty_id: i16,
}

/// The start of execve from slot `parent_slot` for `count` bytes of
/// program image: -1 for an empty image or a full table; otherwise a free
/// slot (after the usual reaping) and a fresh pid, and -1 again when the
/// requested group cannot be had. Also returns the records the reaping
/// freed.
pub fn execve_begin(tm: &mut TaskManager, parent_slot: usize, count: usize, requested_pgid: i32)
    -> (r: (Result<ExecStart, usize>, Vec<Task>))
    requires
        old(tm).wf(),
    ensures
        final(tm).wf(),
        final(tm).owners@ == old(tm).owners@,
        final(tm).current_task == old(tm).current_task,
        count == 0 ==> r.0 == Err::<ExecStart, usize>(usize::MAX) && r.1@.len() == 0 && *final(tm) == *old(tm),
        count > 0 ==> ({
            let m = after_reaping(old(tm).tasks@, old(tm).owners@);
            &&& final(tm).tasks@ == m
            &&& r.1@ == reaping_released(old(tm).tasks@, old(tm).owners@)
            &&& (forall|j: int| 0 <= j < MAX_TASKS ==> #[trigger] m[j] is Some) ==> r.0 == Err::<ExecStart, usize>(usize::MAX)
                && final(tm).next_pid == old(tm).next_pid
            &&& (exists|j: int| 0 <= j < MAX_TASKS && m[j] is None) ==> {
                let pid = if old(tm).next_pid >= 1 { old(tm).next_pid } else { 1i32 };
                &&& final(tm).next_pid == next_pid_after(old(tm).next_pid)
                &&& match exec_identity(m, parent_slot as int, pid, requested_pgid) {
                    None => r.0 == Err::<ExecStart, usize>(usize::MAX),
                    Some((ppid, pgid, sid, tty)) => r.0 matches Ok(st) && st.pid == pid && st.ppid == ppid
                        && st.pgid == pgid && st.sid == sid && st.tty_id == tty && st.slot < MAX_TASKS
                        && m[st.slot as int] is None && forall|j: int| 0 <= j < st.slot ==> #[trigger] m[j] is Some,
                }
            }
        }),
{
    if count == 0 {
        return (Err(usize::MAX), Vec::new());
    }
    let (slot, released) = tm.get_free_slot();
    if slot < 0 {
        return (Err(usize::MAX), released);
    }
    let pid = tm.alloc_pid();
    let (ppid, ipgid, isid, tty) = if parent_slot < 32 {
        match tm.tasks[parent_slot] {
            Some(p) => (p.pid, p.pgid, p.sid, p.tty_id),
            None => (0, pid, pid, -1),
        }
    } else {
        (0, pid, pid, -1)
    };
    let sid = if parent_slot == 0 || isid <= 0 { pid } else { isid };
    let group = if parent_slot == 0 || ipgid <= 0 { pid } else { ipgid };
    let pgid = if requested_pgid == -1 {
        group
    } else if requested_pgid == 0 {
        pid
    } else if requested_pgid > 0 {
        let mut found = false;
        let mut i: usize = 0;
        while i < 32
            invariant
                tm.wf(),
                i <= 32,
                found == exists|j: int| 0 <= j < i && (#[trigger] tm.tasks@[j] matches Some(t) && t.pgid == requested_pgid && t.sid == sid),
            decreases 32 - i,
        {
            match tm.tasks[i] {
                Some(t) => {
                    if t.pgid == requested_pgid && t.sid == sid {
                        found = true;
                    }
                },
                None => {},
            }
            i = i + 1;
        }
        if !found {
            return (Err(usize::MAX), released);
        }
        requested_pgid
    } else {
        return (Err(usize::MAX), released);
    };
    (Ok(ExecStart { slot: slot as usize, pid, ppid, pgid, sid, tty_id: tty }), released)
}

/// The end of execve: `task` (a fresh task whose address space holds the
/// program, entered at `entry`) runs in user mode with the first stack
/// [`setup_user_stack`] lays out for `argv` and `envp`, its heap and
/// mappings at their bases, the identity `st` and parent slot
/// `parent_slot`, in slot `st.slot`. Returns its register frame and the
/// stack layout.
pub fn execve_finish(tm: &mut TaskManager, st: &ExecStart, task: Task, parent_slot: usize, entry: u32,
    argv: &[Vec<u8>], envp: &[Vec<u8>]) -> (r: (CPUState, StackLayout))
    requires
        old(tm).wf(),
        st.slot < MAX_TASKS,
        old(tm).tasks@[st.slot as int] is None,
        task.stack_base + STACK_SIZE <= u32::MAX,
        stack_fits(USER_STACK_TOP, argv@, envp@),
    ensures
        final(tm).wf(),
        final(tm).owners@ == old(tm).owners@,
        final(tm).current_task == old(tm).current_task,
        final(tm).next_pid == old(tm).next_pid,
        final(tm).task_count == old(tm).task_count + 1,
        ({
            let top = (task.stack_base + STACK_SIZE) as u32;
            &&& final(tm).tasks@ == old(tm).tasks@.update(st.slot as int, Some(Task {
                kernel_stack: top,
                cpu_state_ptr: (top - HEADROOM - CPU_STATE_SIZE) as u32,
                running: true,
                heap_next: USER_HEAP_BASE,
                mmap_next: MMAP_BASE,
                pid: st.pid,
                ppid: st.ppid,
                pgid: st.pgid,
                sid: st.sid,
                parent: parent_slot as i8,
                tty_id: st.tty_id,
                zombie: false,
                stopped: false,
                exit_code: 0,
                ..task
            }))
            &&& r.0 == crate::task::entry_frame(entry, r.1.esp, 0x1B, 0x23)
        }),
{
    let top = task.stack_base + STACK_SIZE;
    let layout = setup_user_stack(USER_STACK_TOP, argv, envp);
    let t = Task {
        kernel_stack: top,
        cpu_state_ptr: top - HEADROOM - CPU_STATE_SIZE,
        running: true,
        heap_next: USER_HEAP_BASE,
        mmap_next: MMAP_BASE,
        pid: st.pid,
        ppid: st.ppid,
        pgid: st.pgid,
        sid: st.sid,
        parent: parent_slot as i8,
        tty_id: st.tty_id,
        zombie: false,
        stopped: false,
        exit_code: 0,
        ..task
    };
    proof {
        lemma_occupied_update(tm.tasks@, st.slot as int, Some(t));
        lemma_occupied_bound(tm.tasks@);
    }
    tm.tasks.set(st.slot, Some(t));
    tm.task_count = tm.task_count + 1;
    let frame = CPUState { eax: 0, ebx: 0, ecx: 0, edx: 0, esi: 0, edi: 0, ebp: 0, eip: entry, cs: 0x1B, eflags: 0x202,
        esp: layout.esp, ss: 0x23 };
    (frame, layout)
}


/// The descriptor a child gets in slot `child_fd`: the parent's
/// `parent_fd` when that is a descriptor of the parent, else `default`.
pub open spec fn inherited(parent: Option<Seq<Option<FileDescriptor>>>, parent_fd: i32, default: FileDescriptor) -> FileDescriptor {
    if parent_fd < 0 {
        default
    } else {
        match parent {
            Some(fds) => if parent_fd < MAX_FDS && fds[parent_fd as int] is Some { fds[parent_fd as int]->Some_0 } else { default },
            None => default,
        }
    }
}

/// Give a new child's slot `child_fd` the parent's descriptor `parent_fd`
/// (a negative one, or one the parent (`None`: no parent task) does not
/// have, gives `default`), on an open file description of its own. A
/// pipe end gains a reader or writer here; for a terminal end, the
/// reference the terminal layer must take is returned.
pub fn install_child_fd(parent: Option<&FileDescriptorTable>, pipes: &mut PipeTable, child: &mut FileDescriptorTable,
    store: &mut OfdStore, child_fd: usize, parent_fd: i32, default: FileDescriptor) -> (r: Option<(usize, PtySide)>)
    requires
        old(child).wf(),
        old(child).valid_in(old(store)@),
        old(pipes).wf(),
        child_fd < MAX_FDS,
        parent matches Some(p) ==> p.wf(),
        forall|id: usize| id < MAX_PIPES ==> old(pipes).pipes@[id as int].readers < u32::MAX
            && old(pipes).pipes@[id as int].writers < u32::MAX,
    ensures
        final(child).wf(),
        final(child).valid_in(final(store)@),
        final(pipes).wf(),
        ({
            let d = inherited(match parent { Some(p) => Some(p.fds@), None => None }, parent_fd, default);
            let from_parent = parent_fd >= 0 && parent is Some && parent_fd < MAX_FDS && parent->0.fds@[parent_fd as int] is Some;
            &&& final(child).fds@ == old(child).fds@.update(child_fd as int, Some(d))
            &&& from_parent ==> r == (match d { FileDescriptor::Pty { pty_id, side } => Some((pty_id, side)), _ => None })
            &&& !from_parent ==> r is None && final(pipes).pipes@ == old(pipes).pipes@
            &&& from_parent && !(d is Pipe) ==> final(pipes).pipes@ == old(pipes).pipes@
        }),
{
    let got = if parent_fd < 0 {
        None
    } else {
        match parent {
            Some(p) => {
                let f = parent_fd as usize;
                if f < MAX_FDS { p.fds[f] } else { None }
            },
            None => None,
        }
    };
    match got {
        Some(desc) => {
            let r = match desc {
                FileDescriptor::Pipe { pipe_id, end } => {
                    match end {
                        PipeEnd::Read => pipes.pipe_add_reader(pipe_id),
                        PipeEnd::Write => pipes.pipe_add_writer(pipe_id),
                    }
                    None
                },
                FileDescriptor::Pty { pty_id, side } => Some((pty_id, side)),
                _ => None,
            };
            let _ = child.set(child_fd, desc, store);
            r
        },
        None => {
            let _ = child.set(child_fd, default, store);
            None
        },
    }
}

} // verus!
