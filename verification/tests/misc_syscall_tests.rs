use felix_kernel::file::{FileDescriptor, PtySide};
use felix_kernel::init::{free_removable_index, mount_removable, mount_removable_named, DeviceMounts};
use felix_kernel::signal::{signal_slot, sys_sigaction, TaskSignals, SIGCONT, SIGKILL, SIGSTOP, SIGTERM, SIGTSTP, SIG_IGN};
use felix_kernel::syscalls::{
    sys_chdir, sys_getcwd, sys_ioctl, sys_ls, sys_mkdir, sys_mount, sys_task_list, sys_umount2, sys_unlink, termios_lflag,
    termios_mode, IoctlStep, EFAULT, EINVAL, ENOENT, ENOMEM, ENOTDIR, ENOTTY, EPERM, TCGETS, TCSETS, TIOCGPGRP,
    TIOCSPGRP,
};
use felix_kernel::task::{Task, TaskManager};
use felix_kernel::vfs::{DirEntry, VfsTable};

fn live() -> TaskSignals {
    TaskSignals {
        running: true,
        stopped: false,
        zombie: false,
        stop_signal: 0,
        wait_stopped_pending: false,
        wait_continued_pending: false,
        term_signal: 0,
        exit_code: 0,
        pending_signals: 0,
    }
}

#[test]
fn kill_delivers_by_signal_kind() {
    let mut t = Some(live());
    assert!(signal_slot(&mut t, 3, SIGTERM, 0));
    assert_eq!(t.unwrap().pending_signals, 1 << 14);
    assert!(signal_slot(&mut t, 3, SIGSTOP, 0));
    assert!(t.unwrap().stopped && !t.unwrap().running);
    assert!(!signal_slot(&mut t, 3, SIGSTOP, 0));
    assert!(signal_slot(&mut t, 3, SIGCONT, 0));
    assert!(!t.unwrap().stopped && t.unwrap().wait_continued_pending);
    assert!(signal_slot(&mut t, 3, SIGTSTP, SIG_IGN));
    assert!(!t.unwrap().stopped);
    assert!(signal_slot(&mut t, 3, SIGTSTP, 0x0804_9000));
    assert_ne!(t.unwrap().pending_signals & (1 << 19), 0);
    assert!(signal_slot(&mut t, 3, SIGKILL, 0));
    let k = t.unwrap();
    assert!(k.zombie);
    assert_eq!(k.exit_code, 128 + 9);
    assert_eq!(k.pending_signals, 0);
    assert!(!signal_slot(&mut t, 3, SIGTERM, 0));
    let mut other = Some(live());
    assert!(!signal_slot(&mut other, 0, SIGTERM, 0));
    assert!(!signal_slot(&mut other, 32, SIGTERM, 0));
    let mut none: Option<TaskSignals> = None;
    assert!(!signal_slot(&mut none, 3, SIGTERM, 0));
}

#[test]
fn sigaction_swaps_handlers() {
    let mut h = Some([0u32; 32]);
    assert_eq!(sys_sigaction(&mut h, 2, Some(0x1000), true), (0, Some(0)));
    assert_eq!(sys_sigaction(&mut h, 2, None, true), (0, Some(0x1000)));
    assert_eq!(sys_sigaction(&mut h, 2, None, false), (0, None));
    assert_eq!(sys_sigaction(&mut h, SIGKILL, Some(1), true), (usize::MAX, None));
    assert_eq!(sys_sigaction(&mut h, 0, Some(1), true), (usize::MAX, None));
    assert_eq!(sys_sigaction(&mut h, 32, Some(1), true), (usize::MAX, None));
    let mut none: Option<[u32; 32]> = None;
    assert_eq!(sys_sigaction(&mut none, 2, Some(1), true), (usize::MAX, None));
}

#[test]
fn path_calls_resolve_first() {
    assert_eq!(sys_mkdir(b"a/b", b"/home", |p: Vec<u8>| p == b"/home/a/b".to_vec()), 0);
    assert_eq!(sys_mkdir(b"x", b"/", |_p: Vec<u8>| false), usize::MAX);
    assert_eq!(sys_mkdir(b"", b"/", |_p: Vec<u8>| true), EINVAL);
    assert_eq!(sys_unlink(b"../f", b"/a/b", |p: Vec<u8>| p == b"/a/f".to_vec()), 0);
    assert_eq!(sys_chdir(b"..", b"/usr/bin", |_p: &[u8]| true), Ok(b"/usr".to_vec()));
    assert_eq!(sys_chdir(b"f", b"/", |_p: &[u8]| false), Err(ENOTDIR));
    assert_eq!(sys_chdir(b"", b"/", |_p: &[u8]| true), Err(ENOENT));
}

#[test]
fn getcwd_needs_room_for_the_nul() {
    assert_eq!(sys_getcwd(b"/home", true, 6), Ok((b"/home\0".to_vec(), 6)));
    assert_eq!(sys_getcwd(b"/home", true, 5), Err(ENOMEM));
    assert_eq!(sys_getcwd(b"/home", false, 50), Err(EFAULT));
    assert_eq!(sys_getcwd(b"/home", true, 0), Err(EFAULT));
}

#[test]
fn ls_lists_what_fits() {
    let es = vec![
        DirEntry { inode: 2, name: b"bin".to_vec(), file_type: 2, size: 0 },
        DirEntry { inode: 3, name: b"init".to_vec(), file_type: 1, size: 10 },
    ];
    assert_eq!(sys_ls(&es, 100), b"bin/\ninit\n".to_vec());
    assert_eq!(sys_ls(&es, 7), b"bin/\n".to_vec());
    assert_eq!(sys_ls(&es, 4), Vec::<u8>::new());
}

#[test]
fn mount_takes_a_device_name() {
    assert_eq!(sys_mount(b"/dev/sda", b"mnt", b"/"), Ok((b"sda".to_vec(), b"/mnt".to_vec())));
    assert_eq!(sys_mount(b"sdb/", b"/a/../m", b"/"), Ok((b"sdb".to_vec(), b"/m".to_vec())));
    assert_eq!(sys_mount(b"/dev/", b"/m", b"/"), Err(EINVAL));
    assert_eq!(sys_mount(b"a/b", b"/m", b"/"), Err(EINVAL));
    assert_eq!(sys_mount(b"", b"/m", b"/"), Err(EINVAL));
    assert_eq!(sys_mount(b"sda", b"", b"/"), Err(EINVAL));
}

#[test]
fn umount_resolves_and_pins() {
    let mut vfs = VfsTable::new();
    let mut devices = DeviceMounts::new();
    vfs.set_root();
    let _ = vfs.mount(b"/mnt/usb0");
    devices.record_device_mount(b"usb", b"/mnt/usb0");
    assert_eq!(sys_umount2(&mut vfs, &mut devices, b"/", b"dev"), EPERM);
    assert_eq!(sys_umount2(&mut vfs, &mut devices, b"/mnt", b"usb0"), 0);
    assert!(devices.entries.is_empty());
    assert_eq!(sys_umount2(&mut vfs, &mut devices, b"/mnt", b"usb0"), ENOENT);
    assert_eq!(sys_umount2(&mut vfs, &mut devices, b"/", b""), EINVAL);
}

#[test]
fn termios_mode_roundtrip() {
    for c in [false, true] {
        for e in [false, true] {
            for i in [false, true] {
                assert_eq!(termios_mode(termios_lflag(c, e, i)), (c, e, i));
            }
        }
    }
    assert_eq!(termios_lflag(true, true, true), 0x000B);
}

#[test]
fn ioctl_only_on_terminals() {
    let pty = Some(FileDescriptor::Pty { pty_id: 4, side: PtySide::Slave });
    assert_eq!(sys_ioctl(Some(FileDescriptor::ConsoleIn), TCGETS, 1), IoctlStep::Fail(ENOTTY));
    assert_eq!(sys_ioctl(None, TCGETS, 1), IoctlStep::Fail(ENOTTY));
    assert_eq!(sys_ioctl(pty, TCGETS, 0), IoctlStep::Fail(EFAULT));
    assert_eq!(sys_ioctl(pty, TCGETS, 0x100), IoctlStep::GetMode(4));
    assert_eq!(sys_ioctl(pty, TCSETS, 0x100), IoctlStep::SetMode(4));
    assert_eq!(sys_ioctl(pty, TIOCGPGRP, 0x100), IoctlStep::GetPgrp);
    assert_eq!(sys_ioctl(pty, TIOCSPGRP, 0x100), IoctlStep::SetPgrp);
    assert_eq!(sys_ioctl(pty, 0x9999, 0x100), IoctlStep::Fail(ENOTTY));
}

#[test]
fn task_list_reports_in_slot_order() {
    let mut tm = TaskManager::new();
    tm.init(Task::new_idle(0xC100_0000, 0x10_0000), 0xC010_0000);
    let _ = tm.add_task(Task::new_task(0xC200_0000, 0x20_0000), 0x40_0000, 0xBFFF_F000, 0x4000_0000);
    let (n, none) = sys_task_list(&tm, false, 10);
    assert_eq!(n, 2);
    assert!(none.is_empty());
    let (n, list) = sys_task_list(&tm, true, 10);
    assert_eq!(n, 2);
    assert_eq!(list[0].slot, 0);
    assert_eq!(list[0].pid, 0);
    assert_eq!(list[1].pid, 1);
    assert_eq!(list[1].state, 0);
    let (n, list) = sys_task_list(&tm, true, 1);
    assert_eq!(n, 1);
    assert_eq!(list.len(), 1);
}

#[test]
fn removable_devices_take_the_first_free_number() {
    let mut vfs = VfsTable::new();
    let mut devices = DeviceMounts::new();
    vfs.set_root();
    let (i, p) = free_removable_index(&vfs, b"pcmcia");
    assert_eq!(i, 0);
    assert_eq!(p, b"/mnt/pcmcia0".to_vec());
    let (point, id) = mount_removable_named(&mut vfs, &mut devices, &p, b"pcmcia0", true).unwrap();
    assert_eq!(point, b"/mnt/pcmcia0".to_vec());
    assert_ne!(id, 0);
    assert_eq!(devices.entries[0].0, b"pcmcia0".to_vec());
    let (i, p) = free_removable_index(&vfs, b"pcmcia");
    assert_eq!(i, 1);
    assert_eq!(p, b"/mnt/pcmcia1".to_vec());
    assert!(mount_removable(&mut vfs, &mut devices, b"usb", &p, false).is_none());
    assert!(mount_removable_named(&mut vfs, &mut devices, b"/mnt/pcmcia0", b"x", true).is_none());
    let (pt, _) = mount_removable(&mut vfs, &mut devices, b"usb", &p, true).unwrap();
    assert_eq!(pt, b"/mnt/pcmcia1".to_vec());
    assert_eq!(devices.entries[1].0, b"usb".to_vec());
}
