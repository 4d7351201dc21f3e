//! Process identity and lifetime system calls over the task table: pids,
//! process groups and sessions, exit, waiting for children and choosing
//! the targets of kill(2).
//!
//! Closing descriptors, tearing down windows and switching stacks after an
//! exit, and blocking while a wait has nothing to report, stay with the
//! caller.
use vstd::prelude::*;
use crate::syscalls::{EINVAL, EPERM};
use crate::task::{
    first_leader, lemma_first_leader, lemma_occupied_update, leads_in_group, others_alive, reaped,
    reaped_tasks, reparented, can_reap, slots_upto, Task, TaskManager, MAX_TASKS,
};

verus! {

/// The task in slot `slot`, if the slot is in the table and taken.
pub open spec fn task_at(tm: &TaskManager, slot: int) -> Option<Task> {
    if 0 <= slot < tm.tasks@.len() { tm.tasks@[slot] } else { None }
}

/// getpid: the pid of the caller, `usize::MAX` when its slot is empty.
pub fn sys_getpid(tm: &TaskManager, current_slot: usize) -> (r: usize)
    requires
        tm.wf(),
        current_slot < MAX_TASKS,
    ensures
        r == (match tm.tasks@[current_slot as int] {
            Some(t) => t.pid as usize,
            None => usize::MAX,
        }),
{
    match tm.tasks[current_slot] {
        Some(t) => t.pid as usize,
        None => usize::MAX,
    }
}

/// getppid: the parent pid (0 when there is none).
pub fn sys_getppid(tm: &TaskManager, current_slot: usize) -> (r: usize)
    requires
        tm.wf(),
        current_slot < MAX_TASKS,
    ensures
        r == (match tm.tasks@[current_slot as int] {
            Some(t) => (if t.ppid > 0 { t.ppid } else { 0 }) as usize,
            None => usize::MAX,
        }),
{
    match tm.tasks[current_slot] {
        Some(t) => (if t.ppid > 0 { t.ppid } else { 0 }) as usize,
        None => usize::MAX,
    }
}

/// getpgrp: the caller's process group.
pub fn sys_getpgrp(tm: &TaskManager, current_slot: usize) -> (r: usize)
    requires
        tm.wf(),
        current_slot < MAX_TASKS,
    ensures
        r == (match tm.tasks@[current_slot as int] {
            Some(t) => t.pgid as usize,
            None => usize::MAX,
        }),
{
    match tm.tasks[current_slot] {
        Some(t) => t.pgid as usize,
        None => usize::MAX,
    }
}

/// The slot a pid argument names: the caller for 0, else the leader of
/// that process.
pub fn process_slot_for(tm: &TaskManager, current_slot: usize, pid: i32) -> (r: Option<usize>)
    requires
        tm.wf(),
    ensures
        pid == 0 ==> r == Some(current_slot),
        pid != 0 ==> r == (match first_leader(tm.tasks@, pid, MAX_TASKS as int) {
            Some(i) => Some(i as usize),
            None => None::<usize>,
        }),
{
    if pid == 0 {
        return Some(current_slot);
    }
    tm.slot_by_pid(pid)
}

/// getpgid: the process group of process `pid` (0: the caller).
pub fn sys_getpgid(tm: &TaskManager, current_slot: usize, pid: i32) -> (r: usize)
    requires
        tm.wf(),
        current_slot < MAX_TASKS,
    ensures
        ({
            let slot = if pid == 0 { Some(current_slot as int) } else { first_leader(tm.tasks@, pid, MAX_TASKS as int) };
            r == (match slot {
                Some(s) => match tm.tasks@[s] {
                    Some(t) => t.pgid as usize,
                    None => usize::MAX,
                },
                None => usize::MAX,
            })
        }),
{
    proof {
        lemma_first_leader(tm.tasks@, pid, MAX_TASKS as int);
    }
    match process_slot_for(tm, current_slot, pid) {
        Some(slot) => match tm.tasks[slot] {
            Some(t) => t.pgid as usize,
            None => usize::MAX,
        },
        None => usize::MAX,
    }
}

/// getsid: the session of process `pid` (0: the caller).
pub fn sys_getsid(tm: &TaskManager, current_slot: usize, pid: i32) -> (r: usize)
    requires
        tm.wf(),
        current_slot < MAX_TASKS,
    ensures
        ({
            let slot = if pid == 0 { Some(current_slot as int) } else { first_leader(tm.tasks@, pid, MAX_TASKS as int) };
            r == (match slot {
                Some(s) => match tm.tasks@[s] {
                    Some(t) => t.sid as usize,
                    None => usize::MAX,
                },
                None => usize::MAX,
            })
        }),
{
    proof {
        lemma_first_leader(tm.tasks@, pid, MAX_TASKS as int);
    }
    match process_slot_for(tm, current_slot, pid) {
        Some(slot) => match tm.tasks[slot] {
            Some(t) => t.sid as usize,
            None => usize::MAX,
        },
        None => usize::MAX,
    }
}

/// Some task is in process group `pgid` of session `sid`.
pub open spec fn group_in_session(s: Seq<Option<Task>>, pgid: i32, sid: i32) -> bool {
    exists|j: int| 0 <= j < s.len() && (#[trigger] s[j] matches Some(t) && t.pgid == pgid && t.sid == sid)
}

/// What setpgid(pid, pgid) decides: the slot to regroup and its new group,
/// or the error.
pub open spec fn setpgid_outcome(s: Seq<Option<Task>>, current_slot: int, pid: i32, pgid: i32) -> Result<(int, i32), usize> {
    let caller_pid = match s[current_slot] { Some(t) => t.pid, None => -1i32 };
    let caller_sid = match s[current_slot] { Some(t) => t.sid, None => -1i32 };
    let target_pid = if pid == 0 { caller_pid } else { pid };
    match first_leader(s, target_pid, s.len() as int) {
        None => Err(usize::MAX),
        Some(slot) => {
            let target = s[slot]->Some_0;
            let new_pgid = if pgid == 0 { target_pid } else { pgid };
            if target_pid != caller_pid && target.ppid != caller_pid {
                Err(EPERM)
            } else if target.sid != caller_sid {
                Err(EPERM)
            } else if new_pgid != target_pid && !group_in_session(s, new_pgid, target.sid) {
                Err(EPERM)
            } else {
                Ok((slot, new_pgid))
            }
        },
    }
}

/// setpgid: a process may move itself or one of its children, within its
/// session, to a new group named after the mover, or to an existing group
/// of the same session. `pid` and `pgid` 0 stand for the caller's pid and
/// the target's pid.
pub fn sys_setpgid(tm: &mut TaskManager, current_slot: usize, pid: i32, pgid: i32) -> (r: usize)
    requires
        old(tm).wf(),
        current_slot < MAX_TASKS,
    ensures
        final(tm).wf(),
        final(tm).owners@ == old(tm).owners@,
        final(tm).task_count == old(tm).task_count,
        final(tm).current_task == old(tm).current_task,
        final(tm).first_switch == old(tm).first_switch,
        final(tm).next_pid == old(tm).next_pid,
        match setpgid_outcome(old(tm).tasks@, current_slot as int, pid, pgid) {
            Err(e) => r == e && final(tm).tasks@ == old(tm).tasks@,
            Ok((slot, g)) => r == 0 && final(tm).tasks@ == old(tm).tasks@.update(slot,
                Some(Task { pgid: g, ..old(tm).tasks@[slot]->Some_0 })),
        },
{
    let (caller_pid, caller_sid) = match tm.tasks[current_slot] {
        Some(t) => (t.pid, t.sid),
        None => (-1i32, -1i32),
    };
    let target_pid = if pid == 0 { caller_pid } else { pid };
    proof {
        lemma_first_leader(tm.tasks@, target_pid, MAX_TASKS as int);
    }
    let target_slot = match tm.slot_by_pid(target_pid) {
        Some(s) => s,
        None => return usize::MAX,
    };
    let target = tm.tasks[target_slot].unwrap();
    if target_pid != caller_pid && target.ppid != caller_pid {
        return EPERM;
    }
    if target.sid != caller_sid {
        return EPERM;
    }
    let new_pgid = if pgid == 0 { target_pid } else { pgid };
    if new_pgid != target_pid {
        let mut found = false;
        let mut i: usize = 0;
        while i < 32
            invariant
                tm.wf(),
                i <= 32,
                found == exists|j: int| 0 <= j < i && (#[trigger] tm.tasks@[j] matches Some(t)
                    && t.pgid == new_pgid && t.sid == target.sid),
            decreases 32 - i,
        {
            match tm.tasks[i] {
                Some(t) => {
                    if t.pgid == new_pgid && t.sid == target.sid {
                        found = true;
                    }
                },
                None => {},
            }
            i = i + 1;
        }
        if !found {
            return EPERM;
        }
    }
    let nt = Task { pgid: new_pgid, ..target };
    proof {
        lemma_occupied_update(tm.tasks@, target_slot as int, Some(nt));
    }
    tm.tasks.set(target_slot, Some(nt));
    0
}

/// setsid: a process that does not lead its group starts a new session
/// and group named after it, without a controlling terminal; returns its
/// pid.
pub fn sys_setsid(tm: &mut TaskManager, current_slot: usize) -> (r: usize)
    requires
        old(tm).wf(),
        current_slot < MAX_TASKS,
    ensures
        final(tm).wf(),
        final(tm).owners@ == old(tm).owners@,
        final(tm).task_count == old(tm).task_count,
        final(tm).current_task == old(tm).current_task,
        final(tm).next_pid == old(tm).next_pid,
        match old(tm).tasks@[current_slot as int] {
            None => r == usize::MAX && final(tm).tasks@ == old(tm).tasks@,
            Some(t) => if t.pgid == t.pid {
                r == EPERM && final(tm).tasks@ == old(tm).tasks@
            } else {
                r == t.pid as usize && final(tm).tasks@ == old(tm).tasks@.update(current_slot as int,
                    Some(Task { sid: t.pid, pgid: t.pid, tty_id: -1i16, ..t }))
            },
        },
{
    let t = match tm.tasks[current_slot] {
        Some(t) => t,
        None => return usize::MAX,
    };
    if t.pgid == t.pid {
        return EPERM;
    }
    let nt = Task { sid: t.pid, pgid: t.pid, tty_id: -1, ..t };
    proof {
        lemma_occupied_update(tm.tasks@, current_slot as int, Some(nt));
    }
    tm.tasks.set(current_slot, Some(nt));
    t.pid as usize
}

/// The table after the task in `slot` exited with `status`: it is a
/// zombie that no longer runs, and its children go to pid 1.
pub open spec fn exited(s: Seq<Option<Task>>, slot: int, status: i32) -> Seq<Option<Task>> {
    match s[slot] {
        Some(t) => reparented(
            s.update(slot, Some(Task { running: false, stopped: false, zombie: true, exit_code: status, ..t })),
            t.pid,
        ),
        None => s,
    }
}

/// exit: the caller (never slot 0) becomes a zombie with `status` and its
/// children go to pid 1. The caller then closes its descriptors and
/// schedules away.
pub fn sys_exit(tm: &mut TaskManager, current_slot: usize, status: i32)
    requires
        old(tm).wf(),
        current_slot < MAX_TASKS,
    ensures
        final(tm).wf(),
        final(tm).owners@ == old(tm).owners@,
        final(tm).current_task == old(tm).current_task,
        final(tm).first_switch == old(tm).first_switch,
        final(tm).next_pid == old(tm).next_pid,
        final(tm).tasks@ == (if current_slot == 0 { old(tm).tasks@ } else { exited(old(tm).tasks@, current_slot as int, status) }),
{
    if current_slot == 0 {
        return;
    }
    match tm.tasks[current_slot] {
        Some(t) => {
            let nt = Task { running: false, stopped: false, zombie: true, exit_code: status, ..t };
            proof {
                lemma_occupied_update(tm.tasks@, current_slot as int, Some(nt));
            }
            tm.tasks.set(current_slot, Some(nt));
            tm.reparent_children_of(t.pid);
        },
        None => {
            tm.reparent_children_of(-1);
        },
    }
}

/// waitpid option: do not block.
pub const WNOHANG: u32 = 1;

/// One step of waiting for a child.
pub enum WaitStep {
    /// A zombie child was reaped: its pid and exit status, and the records
    /// whose memory the caller releases.
    Reaped { child_pid: i32, exit_code: i32, released: Vec<Task> },
    /// Nothing to report yet and the caller does not block: return 0.
    Nothing,
    /// No child can ever match: return `usize::MAX`.
    NoChild,
    /// Block until something changes, then step again.
    Block,
}

/// A child of `parent_pid` outside slot 0 matches `pid` (-1: any).
pub open spec fn has_matching_child(s: Seq<Option<Task>>, parent_pid: i32, pid: i32) -> bool {
    exists|j: int| 1 <= j < s.len() && (#[trigger] s[j] matches Some(t) && t.ppid == parent_pid && (pid < 0 || pid == t.pid))
}

/// Slot `j` holds a zombie child of `parent_pid` matching `pid`.
pub open spec fn zombie_child(s: Seq<Option<Task>>, parent_pid: i32, pid: i32, j: int) -> bool {
    s[j] matches Some(t) && t.zombie && t.ppid == parent_pid && (pid < 0 || pid == t.pid)
}

/// The first such slot below `n`.
pub open spec fn first_zombie_child(s: Seq<Option<Task>>, parent_pid: i32, pid: i32, n: int) -> Option<int>
    decreases n,
{
    if n <= 0 {
        None
    } else {
        match first_zombie_child(s, parent_pid, pid, n - 1) {
            Some(i) => Some(i),
            None => if zombie_child(s, parent_pid, pid, n - 1) { Some(n - 1) } else { None },
        }
    }
}

pub proof fn lemma_first_zombie_child(s: Seq<Option<Task>>, parent_pid: i32, pid: i32, n: int)
    ensures
        first_zombie_child(s, parent_pid, pid, n) matches Some(i) ==> 0 <= i < n && zombie_child(s, parent_pid, pid, i)
            && forall|k: int| 0 <= k < i ==> !zombie_child(s, parent_pid, pid, k),
        first_zombie_child(s, parent_pid, pid, n) is None ==> forall|k: int| 0 <= k < n ==> !zombie_child(s, parent_pid, pid, k),
    decreases n,
{
    if n > 0 {
        lemma_first_zombie_child(s, parent_pid, pid, n - 1);
    }
}

/// The pid of the task in `slot`, -1 when there is none.
pub open spec fn pid_at(tm: &TaskManager, slot: int) -> i32 {
    match task_at(tm, slot) {
        Some(t) => t.pid,
        None => -1i32,
    }
}

/// What one step of waiting comes to, for a caller of pid `parent`, on
/// table `s` (leaving table `after`).
pub open spec fn wait_outcome(s: Seq<Option<Task>>, owners: Seq<i8>, parent: i32, pid: i32, options: u32, r: WaitStep,
    after: Seq<Option<Task>>) -> bool
{
    if parent < 0 {
        r is NoChild && after == s
    } else {
        match first_zombie_child(s, parent, pid, MAX_TASKS as int) {
            Some(j) => match r {
                WaitStep::Reaped { child_pid, exit_code, released } => {
                    &&& child_pid == s[j]->Some_0.pid
                    &&& exit_code == s[j]->Some_0.exit_code
                    &&& (can_reap(s, owners, j) ==> released@ == reaped_tasks(s, j) && after == reaped(s, j))
                    &&& (!can_reap(s, owners, j) ==> released@.len() == 0 && after == s)
                },
                _ => false,
            },
            None => {
                &&& after == s
                &&& r is Nothing <==> options & WNOHANG != 0
                &&& r is NoChild <==> (options & WNOHANG == 0 && !has_matching_child(s, parent, pid))
                &&& r is Block <==> (options & WNOHANG == 0 && has_matching_child(s, parent, pid))
            },
        }
    }
}

/// waitpid(pid, options), one step: reap the first zombie child matching
/// `pid` (-1: any); else return at once under `WNOHANG`, fail when no
/// matching child is left, or block. A caller without a task fails.
pub fn sys_wait_status(tm: &mut TaskManager, current_slot: usize, pid: i32, options: u32) -> (r: WaitStep)
    requires
        old(tm).wf(),
    ensures
        final(tm).wf(),
        final(tm).owners@ == old(tm).owners@,
        final(tm).current_task == old(tm).current_task,
        final(tm).next_pid == old(tm).next_pid,
        wait_outcome(old(tm).tasks@, old(tm).owners@, pid_at(old(tm), current_slot as int), pid, options, r, final(tm).tasks@),
{
    let parent_pid = if current_slot < tm.tasks.len() {
        match tm.tasks[current_slot] {
            Some(t) => t.pid,
            None => -1,
        }
    } else {
        -1
    };
    if parent_pid < 0 {
        return WaitStep::NoChild;
    }
    let nohang = options & WNOHANG != 0;
    proof {
        lemma_first_zombie_child(tm.tasks@, parent_pid, pid, MAX_TASKS as int);
    }
    match tm.find_zombie_child(parent_pid, pid) {
        Some((child_slot, child_pid, exit_code)) => {
            proof {
                let s = old(tm).tasks@;
                let c = child_slot as int;
                assert(zombie_child(s, parent_pid, pid, c));
                match first_zombie_child(s, parent_pid, pid, MAX_TASKS as int) {
                    Some(i) => {
                        if i < c {
                            assert(!((#[trigger] s[i]) matches Some(u) && u.zombie && u.ppid == parent_pid && (pid < 0 || pid == u.pid)));
                        }
                        assert(i == c);
                    },
                    None => {},
                }
            }
            let released = match tm.reap(child_slot) {
                Some(v) => v,
                None => Vec::new(),
            };
            WaitStep::Reaped { child_pid, exit_code, released }
        },
        None => {
            proof {
                let s = old(tm).tasks@;
                match first_zombie_child(s, parent_pid, pid, MAX_TASKS as int) {
                    Some(i) => {
                        assert(!((#[trigger] s[i]) matches Some(u) && u.zombie && u.ppid == parent_pid && (pid < 0 || pid == u.pid)));
                    },
                    None => {},
                }
            }
            if nohang {
                return WaitStep::Nothing;
            }
            let mut any = false;
            let mut i: usize = 1;
            while i < 32
                invariant
                    tm.wf(),
                    1 <= i <= 32,
                    any == exists|j: int| 1 <= j < i && (#[trigger] tm.tasks@[j] matches Some(t)
                        && t.ppid == parent_pid && (pid < 0 || pid == t.pid)),
                decreases 32 - i,
            {
                match tm.tasks[i] {
                    Some(t) => {
                        if t.ppid == parent_pid && (pid < 0 || pid == t.pid) {
                            any = true;
                        }
                    },
                    None => {},
                }
                i = i + 1;
            }
            if !any {
                WaitStep::NoChild
            } else {
                WaitStep::Block
            }
        },
    }
}

/// wait(pid, options): waitpid without a status word.
pub fn sys_wait(tm: &mut TaskManager, current_slot: usize, pid: i32, options: u32) -> (r: WaitStep)
    requires
        old(tm).wf(),
    ensures
        final(tm).wf(),
        final(tm).owners@ == old(tm).owners@,
        final(tm).current_task == old(tm).current_task,
        final(tm).next_pid == old(tm).next_pid,
        wait_outcome(old(tm).tasks@, old(tm).owners@, pid_at(old(tm), current_slot as int), pid, options, r, final(tm).tasks@),
{
    sys_wait_status(tm, current_slot, pid, options)
}

/// Which slots kill(pid) reaches: one process for `pid > 0`, the caller's
/// group for 0, every live process but the caller (and slot 0) for -1, and
/// group `-pid` below that.
pub open spec fn kill_targets_spec(s: Seq<Option<Task>>, current_slot: int, pid: i32) -> Seq<usize> {
    let caller = s[current_slot];
    if pid > 0 {
        match first_leader(s, pid, s.len() as int) {
            Some(i) => seq![i as usize],
            None => Seq::empty(),
        }
    } else if pid == 0 {
        slots_upto(s, s.len() as int, leads_in_group(match caller { Some(t) => t.pgid, None => -1i32 }))
    } else if pid == -1 {
        slots_upto(s, s.len() as int, others_alive(match caller { Some(t) => t.pid, None => -1i32 }))
    } else {
        slots_upto(s, s.len() as int, leads_in_group(-pid as i32))
    }
}

/// kill(pid, sig), the choice of targets: `EINVAL` for a signal outside
/// 1..=31, `usize::MAX` when no process matches, else the slots to signal
/// (each with [`crate::signal::signal_slot`]; the call returns 0 when any
/// of them took the signal, `usize::MAX` otherwise).
pub fn sys_kill(tm: &TaskManager, current_slot: usize, pid: i32, sig: u32) -> (r: Result<Vec<usize>, usize>)
    requires
        tm.wf(),
        current_slot < MAX_TASKS,
        pid != i32::MIN,
    ensures
        (sig == 0 || sig > 31) ==> r == Err::<Vec<usize>, usize>(EINVAL),
        1 <= sig <= 31 ==> ({
            let ts = kill_targets_spec(tm.tasks@, current_slot as int, pid);
            &&& ts.len() == 0 ==> r == Err::<Vec<usize>, usize>(usize::MAX)
            &&& ts.len() > 0 ==> (r matches Ok(v) && v@ == ts)
        }),
{
    if sig == 0 || sig > 31 {
        return Err(EINVAL);
    }
    let caller = tm.tasks[current_slot];
    let slots: Vec<usize> = if pid > 0 {
        match tm.slot_by_pid(pid) {
            Some(i) => {
                let v = vec![i];
                assert(v@ =~= seq![i]);
                v
            },
            None => Vec::new(),
        }
    } else if pid == 0 {
        let pgid = match caller {
            Some(t) => t.pgid,
            None => -1,
        };
        tm.slots_in_pgid(pgid)
    } else if pid == -1 {
        let caller_pid = match caller {
            Some(t) => t.pid,
            None => -1,
        };
        tm.other_live_slots(caller_pid)
    } else {
        tm.slots_in_pgid(-pid)
    };
    if slots.len() == 0 {
        return Err(usize::MAX);
    }
    Ok(slots)
}

} // verus!
