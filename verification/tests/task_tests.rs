use felix_kernel::task::{Task, TaskManager, STACK_SIZE, HEADROOM, CPU_STATE_SIZE, MMAP_BASE};
use felix_kernel::process::{
    sys_exit, sys_getpgid, sys_getpid, sys_getppid, sys_getpgrp, sys_getsid, sys_kill, sys_setpgid, sys_setsid,
    sys_wait, sys_wait_status, WaitStep, WNOHANG,
};
use felix_kernel::syscalls::{EINVAL, EPERM};

fn booted() -> TaskManager {
    let mut tm = TaskManager::new();
    let idle = Task::new_idle(0xC100_0000, 0x0010_0000);
    let frame = tm.init(idle, 0xC010_0000);
    assert_eq!(frame.eip, 0xC010_0000);
    assert_eq!(frame.cs, 0x08);
    assert_eq!(frame.ss, 0x10);
    assert_eq!(frame.esp, 0xC100_0000 + STACK_SIZE);
    tm
}

fn spawn(tm: &mut TaskManager, base: u32) -> usize {
    let t = Task::new_task(base, base + 0x1000);
    let (r, _) = tm.add_task(t, 0x0040_0000, 0xBFFF_F000, 0x4000_0000);
    r.unwrap().0
}

#[test]
fn fresh_table_is_empty() {
    let tm = TaskManager::new();
    assert_eq!(tm.task_count, 0);
    assert_eq!(tm.current_task, -1);
    assert!(tm.tasks.iter().all(|t| t.is_none()));
    assert!(tm.owners.iter().all(|o| *o == -1));
}

#[test]
fn new_task_defaults() {
    let t = Task::new(0x1000, 0x2000);
    assert_eq!(t.pid, -1);
    assert_eq!(t.mmap_next, MMAP_BASE);
    assert!(!t.running && !t.is_thread);
    let th = Task::new_thread(0x1000, 0x2000);
    assert!(th.is_thread);
    assert_eq!(th.mmap_next, 0);
}

#[test]
fn init_prepares_a_user_frame() {
    let mut t = Task::new_task(0x10_0000, 0x20_0000);
    let frame = t.init(0x0804_8000, 0xBFFF_F000, 0x4000_0000);
    assert!(t.running);
    assert_eq!(t.kernel_stack, 0x10_0000 + STACK_SIZE);
    assert_eq!(t.cpu_state_ptr, 0x10_0000 + STACK_SIZE - HEADROOM - CPU_STATE_SIZE);
    assert_eq!(t.heap_next, 0x4000_0000);
    assert_eq!(frame.eip, 0x0804_8000);
    assert_eq!(frame.esp, 0xBFFF_F000);
    assert_eq!(frame.cs, 0x1B);
    assert_eq!(frame.ss, 0x23);
    assert_eq!(frame.eflags, 0x202);
    t.sleep();
    assert!(!t.running);
    t.wake();
    assert!(t.running);
}

#[test]
fn add_task_takes_the_lowest_free_slot_and_counts() {
    let mut tm = booted();
    assert_eq!(tm.task_count, 1);
    let a = spawn(&mut tm, 0x0100_0000);
    let b = spawn(&mut tm, 0x0200_0000);
    assert_eq!((a, b), (1, 2));
    assert_eq!(tm.task_count, 3);
    let ta = tm.tasks[1].unwrap();
    assert_eq!(ta.pid, 1);
    assert_eq!(ta.pgid, 1);
    assert_eq!(ta.sid, 1);
    assert_eq!(ta.leader_slot, 1);
    assert_eq!(tm.tasks[2].unwrap().pid, 2);
}

#[test]
fn pids_count_up_from_one() {
    let mut tm = TaskManager::new();
    assert_eq!(tm.alloc_pid(), 1);
    assert_eq!(tm.alloc_pid(), 2);
    tm.next_pid = i32::MAX;
    assert_eq!(tm.alloc_pid(), i32::MAX);
    assert_eq!(tm.next_pid, 1);
    tm.next_pid = -5;
    assert_eq!(tm.alloc_pid(), 1);
}

#[test]
fn lookups_by_pid_and_tid() {
    let mut tm = booted();
    spawn(&mut tm, 0x0100_0000);
    spawn(&mut tm, 0x0200_0000);
    assert_eq!(tm.slot_by_pid(2), Some(2));
    assert_eq!(tm.slot_by_pid(9), None);
    assert_eq!(tm.slot_by_tid(1), Some(1));
    assert_eq!(tm.process_slot(2), 2);
    assert_eq!(tm.process_slot(40), 40);
    assert_eq!(tm.thread_slots(1), vec![1]);
    assert_eq!(tm.live_thread_count(1), 1);
    assert_eq!(tm.slots_in_pgid(2), vec![2]);
    assert_eq!(tm.current_pid(0), 0);
    assert_eq!(tm.current_pid(-1), -1);
    assert_eq!(tm.current_pid(5), -1);
}

#[test]
fn first_switch_prefers_a_user_task() {
    let mut tm = booted();
    spawn(&mut tm, 0x0100_0000);
    let sw = tm.schedule(0x1234).unwrap();
    assert_eq!(sw.slot, 1);
    assert_eq!(tm.current_task, 1);
    assert!(!tm.first_switch);
    assert_eq!(tm.owners[1], 0);
}

#[test]
fn round_robin_between_two_tasks_saves_state() {
    let mut tm = booted();
    spawn(&mut tm, 0x0100_0000);
    spawn(&mut tm, 0x0200_0000);
    assert_eq!(tm.schedule(0).unwrap().slot, 1);
    let sw = tm.schedule(0xAAAA).unwrap();
    assert_eq!(sw.slot, 2);
    assert_eq!(tm.tasks[1].unwrap().cpu_state_ptr, 0xAAAA);
    assert_eq!(tm.owners[1], -1);
    assert_eq!(tm.owners[2], 0);
    assert_eq!(tm.schedule(0xBBBB).unwrap().slot, 1);
    assert_eq!(tm.tasks[2].unwrap().cpu_state_ptr, 0xBBBB);
}

#[test]
fn idle_runs_when_nothing_else_can() {
    let mut tm = booted();
    let sw = tm.schedule(0).unwrap();
    assert_eq!(sw.slot, 0);
    let mut empty = TaskManager::new();
    assert!(empty.schedule(0).is_none());
}

#[test]
fn claim_skips_owned_and_zombie_tasks() {
    let mut tm = booted();
    spawn(&mut tm, 0x0100_0000);
    spawn(&mut tm, 0x0200_0000);
    tm.owners[1] = 3;
    assert_eq!(tm.claim_next_task(1, 0), 2);
    assert_eq!(tm.owners[2], 1);
    assert_eq!(tm.claim_next_task(1, 2), 0);
    let mut z = tm.tasks[2].unwrap();
    z.zombie = true;
    tm.tasks[2] = Some(z);
    tm.owners[2] = -1;
    assert_eq!(tm.claim_next_task(0, 0), 0);
}

#[test]
fn application_cpus_leave_threads_alone() {
    let mut tm = booted();
    let s = spawn(&mut tm, 0x0100_0000);
    let mut t = tm.tasks[s].unwrap();
    t.is_thread = true;
    tm.tasks[s] = Some(t);
    assert!(tm.schedule_ap(1, -1, 0x500).is_none());
    assert_eq!(tm.schedule_ap(0, -1, 0x500).unwrap().slot, s);
}

#[test]
fn get_next_task_scans_after_current() {
    let mut tm = booted();
    spawn(&mut tm, 0x0100_0000);
    spawn(&mut tm, 0x0200_0000);
    tm.current_task = 1;
    assert_eq!(tm.get_next_task(), 2);
    tm.owners[2] = 0;
    assert_eq!(tm.get_next_task(), 1);
    tm.owners[1] = 0;
    assert_eq!(tm.get_next_task(), 0);
}

#[test]
fn remove_task_reparents_children() {
    let mut tm = booted();
    let a = spawn(&mut tm, 0x0100_0000);
    let b = spawn(&mut tm, 0x0200_0000);
    let c = spawn(&mut tm, 0x0300_0000);
    let mut child = tm.tasks[c].unwrap();
    child.ppid = 2;
    tm.tasks[c] = Some(child);
    let removed = tm.remove_task(b).unwrap();
    assert_eq!(removed.pid, 2);
    assert!(tm.tasks[b].is_none());
    assert_eq!(tm.task_count, 3);
    let child = tm.tasks[c].unwrap();
    assert_eq!(child.ppid, 1);
    assert_eq!(child.parent, a as i8);
    assert!(tm.remove_task(0).is_none());
}

#[test]
fn reap_frees_a_zombie_and_its_threads() {
    let mut tm = booted();
    spawn(&mut tm, 0x0100_0000);
    let z = spawn(&mut tm, 0x0200_0000);
    let th = spawn(&mut tm, 0x0300_0000);
    let mut t = tm.tasks[th].unwrap();
    t.leader_slot = z as i8;
    t.is_thread = true;
    tm.tasks[th] = Some(t);
    assert!(tm.reap(z).is_none());
    let mut zt = tm.tasks[z].unwrap();
    zt.zombie = true;
    tm.tasks[z] = Some(zt);
    let released = tm.reap(z).unwrap();
    assert_eq!(released.len(), 2);
    assert_eq!(released[1].pid, zt.pid);
    assert!(tm.tasks[z].is_none() && tm.tasks[th].is_none());
    assert_eq!(tm.task_count, 2);
}

#[test]
fn detached_dead_threads_are_reaped_when_a_slot_is_wanted() {
    let mut tm = booted();
    spawn(&mut tm, 0x0100_0000);
    let th = spawn(&mut tm, 0x0200_0000);
    let mut t = tm.tasks[th].unwrap();
    t.is_thread = true;
    t.thread_exited = true;
    t.thread_detached = true;
    tm.tasks[th] = Some(t);
    let (slot, released) = tm.get_free_slot();
    assert_eq!(slot, th as i8);
    assert_eq!(released.len(), 1);
    assert_eq!(tm.task_count, 2);
}

#[test]
fn reap_thread_needs_an_exited_thread() {
    let mut tm = booted();
    let s = spawn(&mut tm, 0x0100_0000);
    assert!(tm.reap_thread(s).is_none());
    let mut t = tm.tasks[s].unwrap();
    t.is_thread = true;
    t.thread_exited = true;
    tm.tasks[s] = Some(t);
    assert!(tm.reap_thread(s).is_some());
    assert!(tm.tasks[s].is_none());
}

#[test]
fn orphans_go_to_pid_one() {
    let mut tm = booted();
    let init = spawn(&mut tm, 0x0100_0000);
    let o = spawn(&mut tm, 0x0200_0000);
    let mut t = tm.tasks[o].unwrap();
    t.ppid = 77;
    tm.tasks[o] = Some(t);
    let released = tm.reap_orphans();
    assert!(released.is_empty());
    let t = tm.tasks[o].unwrap();
    assert_eq!(t.ppid, 1);
    assert_eq!(t.parent, init as i8);
}

#[test]
fn find_zombie_child_reports_status() {
    let mut tm = booted();
    spawn(&mut tm, 0x0100_0000);
    let c = spawn(&mut tm, 0x0200_0000);
    let mut t = tm.tasks[c].unwrap();
    t.ppid = 1;
    t.zombie = true;
    t.exit_code = 7;
    tm.tasks[c] = Some(t);
    assert_eq!(tm.find_zombie_child(1, -1), Some((c, 2, 7)));
    assert_eq!(tm.find_zombie_child(1, 5), None);
    assert!(!tm.parent_gone(1));
    assert!(tm.parent_gone(0));
    assert!(tm.parent_gone(99));
}

#[test]
fn identity_syscalls() {
    let mut tm = booted();
    let a = spawn(&mut tm, 0x0100_0000);
    assert_eq!(sys_getpid(&tm, a), 1);
    assert_eq!(sys_getppid(&tm, a), 0);
    assert_eq!(sys_getpgrp(&tm, a), 1);
    assert_eq!(sys_getpgid(&tm, a, 0), 1);
    assert_eq!(sys_getsid(&tm, a, 1), 1);
    assert_eq!(sys_getpid(&tm, 9), usize::MAX);
    assert_eq!(sys_getpgid(&tm, a, 42), usize::MAX);
}

#[test]
fn setsid_refuses_group_leaders() {
    let mut tm = booted();
    let a = spawn(&mut tm, 0x0100_0000);
    assert_eq!(sys_setsid(&mut tm, a), EPERM);
    let mut t = tm.tasks[a].unwrap();
    t.pgid = 50;
    t.tty_id = 3;
    tm.tasks[a] = Some(t);
    assert_eq!(sys_setsid(&mut tm, a), 1);
    let t = tm.tasks[a].unwrap();
    assert_eq!((t.sid, t.pgid, t.tty_id), (1, 1, -1));
}

#[test]
fn setpgid_moves_a_child_into_a_group_of_the_session() {
    let mut tm = booted();
    let parent = spawn(&mut tm, 0x0100_0000);
    let child = spawn(&mut tm, 0x0200_0000);
    let mut c = tm.tasks[child].unwrap();
    c.ppid = 1;
    c.sid = 1;
    c.pgid = 1;
    tm.tasks[child] = Some(c);
    assert_eq!(sys_setpgid(&mut tm, parent, 2, 0), 0);
    assert_eq!(tm.tasks[child].unwrap().pgid, 2);
    assert_eq!(sys_setpgid(&mut tm, parent, 2, 1), 0);
    assert_eq!(tm.tasks[child].unwrap().pgid, 1);
    assert_eq!(sys_setpgid(&mut tm, parent, 2, 99), EPERM);
    assert_eq!(sys_setpgid(&mut tm, parent, 42, 0), usize::MAX);
    assert_eq!(sys_setpgid(&mut tm, child, 1, 0), EPERM);
}

#[test]
fn exit_then_wait_reaps_the_child() {
    let mut tm = booted();
    let parent = spawn(&mut tm, 0x0100_0000);
    let child = spawn(&mut tm, 0x0200_0000);
    let mut c = tm.tasks[child].unwrap();
    c.ppid = 1;
    tm.tasks[child] = Some(c);
    assert!(matches!(sys_wait_status(&mut tm, parent, -1, WNOHANG), WaitStep::Nothing));
    assert!(matches!(sys_wait_status(&mut tm, parent, -1, 0), WaitStep::Block));
    sys_exit(&mut tm, child, 3);
    let c = tm.tasks[child].unwrap();
    assert!(c.zombie && !c.running);
    assert_eq!(c.exit_code, 3);
    match sys_wait(&mut tm, parent, 2, 0) {
        WaitStep::Reaped { child_pid, exit_code, released } => {
            assert_eq!(child_pid, 2);
            assert_eq!(exit_code, 3);
            assert_eq!(released.len(), 1);
        },
        _ => panic!("expected a reaped child"),
    }
    assert!(tm.tasks[child].is_none());
    assert!(matches!(sys_wait_status(&mut tm, parent, -1, 0), WaitStep::NoChild));
    assert!(matches!(sys_wait_status(&mut tm, 9, -1, 0), WaitStep::NoChild));
}

#[test]
fn kill_picks_its_targets() {
    let mut tm = booted();
    let a = spawn(&mut tm, 0x0100_0000);
    let b = spawn(&mut tm, 0x0200_0000);
    assert_eq!(sys_kill(&tm, a, 2, 0), Err(EINVAL));
    assert_eq!(sys_kill(&tm, a, 2, 32), Err(EINVAL));
    assert_eq!(sys_kill(&tm, a, 2, 15), Ok(vec![b]));
    assert_eq!(sys_kill(&tm, a, 0, 15), Ok(vec![a]));
    assert_eq!(sys_kill(&tm, a, -1, 15), Ok(vec![b]));
    assert_eq!(sys_kill(&tm, a, -2, 15), Ok(vec![b]));
    assert_eq!(sys_kill(&tm, a, 42, 15), Err(usize::MAX));
}
