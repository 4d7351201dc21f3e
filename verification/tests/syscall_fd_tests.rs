use felix_kernel::devfs::{DevFS, DeviceRegistry};
use felix_kernel::exec::{execve_begin, execve_finish, install_child_fd, setup_user_stack, task_name, USER_STACK_TOP};
use felix_kernel::fdsys::{
    fd_poll_revents, open_creates, open_directory, open_file, open_mode, open_path, sys_close, sys_dup, sys_dup2,
    sys_fcntl, sys_getdents64, sys_lseek, sys_pipe, sys_poll, PollStep, F_GETFL, F_SETFL, O_APPEND_FLAG, O_CREAT,
    O_DIRECTORY, O_RDWR, O_TRUNC, O_WRONLY, POLLERR, POLLIN, POLLOUT, SEEK_CUR, SEEK_END, SEEK_SET,
};
use felix_kernel::file::{FileDescriptor, FileDescriptorTable, FileMode, OfdStore, PipeEnd, PtySide, O_NONBLOCK};
use felix_kernel::memsys::{sys_brk, sys_mmap2, sys_mmap_old, sys_munmap, MAP_ANONYMOUS, MAP_FIXED};
use felix_kernel::net::SocketTable;
use felix_kernel::path::{normalize_path, resolve_task_path};
use felix_kernel::pipe::PipeTable;
use felix_kernel::syscalls::{PollFd, EBADF, EINVAL, ENOENT, ENOMEM, ENOTDIR};
use felix_kernel::task::{PageRefcounts, Task, TaskManager};
use felix_kernel::vfs::DirEntry;

fn count_of(refs: &PageRefcounts, page: u32) -> u32 {
    refs.entries.iter().find(|e| e.0 == page).map(|e| e.1).unwrap_or(0)
}

fn table() -> (FileDescriptorTable, OfdStore) {
    let mut store = OfdStore::new();
    let t = FileDescriptorTable::with_stdio(&mut store);
    (t, store)
}

fn booted_with_user() -> (TaskManager, usize) {
    let mut tm = TaskManager::new();
    tm.init(Task::new_idle(0xC100_0000, 0x10_0000), 0xC010_0000);
    let (r, _) = tm.add_task(Task::new_task(0xC200_0000, 0x20_0000), 0x40_0000, 0xBFFF_F000, 0x4000_0000);
    (tm, r.unwrap().0)
}

#[test]
fn normalize_resolves_dots_and_slashes() {
    assert_eq!(normalize_path(b"/a/./b/../c//d/"), b"/a/c/d".to_vec());
    assert_eq!(normalize_path(b"/../.."), b"/".to_vec());
    assert_eq!(normalize_path(b""), b"/".to_vec());
    assert_eq!(normalize_path(b"x/y"), b"/x/y".to_vec());
    assert_eq!(normalize_path(b"/..x/.y"), b"/..x/.y".to_vec());
    let once = normalize_path(b"/a/../b/./c/..//d");
    assert_eq!(normalize_path(&once), once);
}

#[test]
fn relative_names_start_at_the_working_directory() {
    assert_eq!(resolve_task_path(b"/home/user", b"docs/../x"), b"/home/user/x".to_vec());
    assert_eq!(resolve_task_path(b"/", b"bin"), b"/bin".to_vec());
    assert_eq!(resolve_task_path(b"/home", b"/etc/./passwd"), b"/etc/passwd".to_vec());
    assert_eq!(resolve_task_path(b"/home", b".."), b"/".to_vec());
}

#[test]
fn lseek_on_files_and_directories() {
    let (mut t, mut store) = table();
    t.insert(3, FileDescriptor::File { inode: 5, offset: 10, mode: FileMode::ReadOnly }, &mut store);
    assert_eq!(sys_lseek(&mut t, 3, 5, SEEK_CUR, 100), 15);
    assert_eq!(sys_lseek(&mut t, 3, -20, SEEK_END, 100), 80);
    assert_eq!(sys_lseek(&mut t, 3, 7, SEEK_SET, 100), 7);
    assert_eq!(sys_lseek(&mut t, 3, -8, SEEK_CUR, 100), EINVAL);
    assert_eq!(sys_lseek(&mut t, 3, 0, 9, 100), EINVAL);
    match t.fds[3] {
        Some(FileDescriptor::File { offset, .. }) => assert_eq!(offset, 7),
        _ => panic!(),
    }
    t.insert(4, FileDescriptor::Dir { path: [0; 96], path_len: 1, cookie: 9 }, &mut store);
    assert_eq!(sys_lseek(&mut t, 4, 1, SEEK_SET, 0), EINVAL);
    assert_eq!(sys_lseek(&mut t, 4, 0, SEEK_SET, 0), 0);
    assert_eq!(sys_lseek(&mut t, 0, 0, SEEK_SET, 0), EBADF);
    assert_eq!(sys_lseek(&mut t, 40, 0, SEEK_SET, 0), EBADF);
}

fn entry(name: &[u8], inode: u32, file_type: u8) -> DirEntry {
    DirEntry { inode, name: name.to_vec(), file_type, size: 0 }
}

#[test]
fn getdents_packs_records_and_moves_the_position() {
    let (mut t, mut store) = table();
    t.insert(3, FileDescriptor::Dir { path: [0; 96], path_len: 1, cookie: 0 }, &mut store);
    let es = vec![entry(b"bin", 2, 2), entry(b"init", 12, 1)];
    let (n, bytes) = sys_getdents64(&mut t, 3, true, 64, Some(&es));
    assert_eq!(n, 48);
    assert_eq!(bytes.len(), 48);
    assert_eq!(&bytes[0..8], &[2, 0, 0, 0, 0, 0, 0, 0]);
    assert_eq!(&bytes[8..16], &[1, 0, 0, 0, 0, 0, 0, 0]);
    assert_eq!(&bytes[16..18], &[24, 0]);
    assert_eq!(bytes[18], 4);
    assert_eq!(&bytes[19..23], b"bin\0");
    assert_eq!(bytes[24 + 18], 8);
    assert_eq!(&bytes[24 + 19..24 + 24], b"init\0");
    match t.fds[3] {
        Some(FileDescriptor::Dir { cookie, .. }) => assert_eq!(cookie, 2),
        _ => panic!(),
    }
    let (n2, _) = sys_getdents64(&mut t, 3, true, 64, Some(&es));
    assert_eq!(n2, 0);
    let (e1, _) = sys_getdents64(&mut t, 3, true, 10, Some(&es));
    assert_eq!(e1, EINVAL);
    let (e2, _) = sys_getdents64(&mut t, 0, true, 64, Some(&es));
    assert_eq!(e2, ENOTDIR);
    let (e3, _) = sys_getdents64(&mut t, 3, true, 64, None);
    assert_eq!(e3, ENOTDIR);
}

#[test]
fn getdents_stops_at_the_buffer_end() {
    let (mut t, mut store) = table();
    t.insert(3, FileDescriptor::Dir { path: [0; 96], path_len: 1, cookie: 0 }, &mut store);
    let es = vec![entry(b"bin", 2, 2), entry(b"init", 12, 1)];
    let (n, _) = sys_getdents64(&mut t, 3, true, 30, Some(&es));
    assert_eq!(n, 24);
    match t.fds[3] {
        Some(FileDescriptor::Dir { cookie, .. }) => assert_eq!(cookie, 1),
        _ => panic!(),
    }
}

#[test]
fn fcntl_keeps_only_nonblocking() {
    let (mut t, mut store) = table();
    assert_eq!(sys_fcntl(&mut t, &mut store, 1, F_SETFL, 0xFFFF_FFFF), 0);
    assert_eq!(sys_fcntl(&mut t, &mut store, 1, F_GETFL, 0), O_NONBLOCK as usize);
    assert_eq!(sys_fcntl(&mut t, &mut store, 1, 99, 0), usize::MAX);
    assert_eq!(sys_fcntl(&mut t, &mut store, 7, F_GETFL, 0), usize::MAX);
}

#[test]
fn pipe_dup_and_close() {
    let (mut t, mut store) = table();
    let mut pipes = PipeTable::new();
    let mut sockets = SocketTable::new();
    let (rd, wr) = sys_pipe(&mut t, &mut store, &mut pipes).unwrap();
    assert_eq!((rd, wr), (3, 4));
    assert!(pipes.pipes[0].in_use);
    assert_eq!(pipes.pipes[0].readers, 1);
    let (d, pty) = sys_dup(&mut t, &mut store, &mut sockets, &mut pipes, rd);
    assert_eq!(d, 5);
    assert!(pty.is_none());
    assert_eq!(pipes.pipes[0].readers, 2);
    let (r0, _) = sys_close(&mut t, &mut store, &mut sockets, &mut pipes, rd);
    assert_eq!(r0, 0);
    assert_eq!(pipes.pipes[0].readers, 2);
    let (r1, _) = sys_close(&mut t, &mut store, &mut sockets, &mut pipes, d);
    assert_eq!(r1, 0);
    assert_eq!(pipes.pipes[0].readers, 1);
    let (r2, _) = sys_close(&mut t, &mut store, &mut sockets, &mut pipes, d);
    assert_eq!(r2, usize::MAX);
    assert_eq!(sys_dup(&mut t, &mut store, &mut sockets, &mut pipes, 30).0, EBADF);
}

#[test]
fn dup2_onto_itself_and_onto_a_terminal() {
    let (mut t, mut store) = table();
    let mut pipes = PipeTable::new();
    let mut sockets = SocketTable::new();
    t.insert(5, FileDescriptor::Pty { pty_id: 2, side: PtySide::Slave }, &mut store);
    let (r, take, drop) = sys_dup2(&mut t, &mut store, &mut sockets, &mut pipes, 1, 1);
    assert_eq!(r, 1);
    assert!(take.is_none() && drop.is_none());
    let (r, take, drop) = sys_dup2(&mut t, &mut store, &mut sockets, &mut pipes, 5, 1);
    assert_eq!(r, 1);
    assert_eq!(take, Some((2, PtySide::Slave)));
    assert!(drop.is_none());
    assert!(matches!(t.fds[1], Some(FileDescriptor::Pty { pty_id: 2, .. })));
    assert_eq!(t.ofds[1], t.ofds[5]);
    let (r, _, _) = sys_dup2(&mut t, &mut store, &mut sockets, &mut pipes, 9, 1);
    assert_eq!(r, usize::MAX);
    let (r, _, _) = sys_dup2(&mut t, &mut store, &mut sockets, &mut pipes, 1, 64);
    assert_eq!(r, usize::MAX);
}

#[test]
fn poll_reports_readiness() {
    let (mut t, mut store) = table();
    let mut pipes = PipeTable::new();
    let (rd, wr) = sys_pipe(&mut t, &mut store, &mut pipes).unwrap();
    assert_eq!(fd_poll_revents(&t, &pipes, true, rd as i32, POLLIN, false, false), 0);
    assert_eq!(fd_poll_revents(&t, &pipes, true, wr as i32, POLLOUT, false, false), POLLOUT);
    assert_eq!(fd_poll_revents(&t, &pipes, true, 0, POLLIN | POLLOUT, false, false), POLLIN);
    assert_eq!(fd_poll_revents(&t, &pipes, true, 1, POLLIN | POLLOUT, false, false), POLLIN | POLLOUT);
    assert_eq!(fd_poll_revents(&t, &pipes, true, 40, POLLIN, false, false), POLLERR);
    assert_eq!(fd_poll_revents(&t, &pipes, true, -1, POLLIN, false, false), 0);
    assert_eq!(fd_poll_revents(&t, &pipes, false, 0, POLLIN, false, false), POLLERR);
    let _ = pipes.pipe_try_write(0, b"hi");
    assert_eq!(fd_poll_revents(&t, &pipes, true, rd as i32, POLLIN, false, false), POLLIN);
    let mut fds = vec![PollFd { fd: rd as i32, events: POLLIN, revents: 0 }, PollFd { fd: 9, events: POLLIN, revents: 0 }];
    let probes = vec![(false, false), (false, false)];
    assert_eq!(sys_poll(&t, &pipes, true, &mut fds, &probes, 0, 0), PollStep::Return(2));
    assert_eq!(fds[0].revents, POLLIN);
    assert_eq!(fds[1].revents, POLLERR);
    let mut quiet = vec![PollFd { fd: -1, events: POLLIN, revents: 5 }];
    assert_eq!(sys_poll(&t, &pipes, true, &mut quiet, &probes, 0, 0), PollStep::Return(0));
    assert_eq!(quiet[0].revents, 0);
    assert_eq!(sys_poll(&t, &pipes, true, &mut quiet, &probes, 100, 20), PollStep::Wait);
    assert_eq!(sys_poll(&t, &pipes, true, &mut quiet, &probes, 100, 200), PollStep::Return(0));
    assert_eq!(sys_poll(&t, &pipes, true, &mut quiet, &probes, -1, 99999), PollStep::Wait);
}

#[test]
fn open_paths_modes_and_files() {
    assert_eq!(open_path(b"", b"/"), Err(ENOENT));
    assert_eq!(open_path(b"a/../b", b"/x"), Ok(b"/x/b".to_vec()));
    assert_eq!(open_mode(O_DIRECTORY), Err(ENOTDIR));
    assert_eq!(open_mode(O_WRONLY), Ok(FileMode::WriteOnly));
    assert_eq!(open_mode(O_RDWR | O_CREAT), Ok(FileMode::ReadWrite));
    assert_eq!(open_mode(0), Ok(FileMode::ReadOnly));
    assert!(open_creates(O_CREAT, false));
    assert!(!open_creates(0, false));
    assert!(open_creates(O_TRUNC | O_WRONLY, true));
    assert!(!open_creates(O_TRUNC, true));
    let (mut t, mut store) = table();
    assert_eq!(open_directory(&mut t, &mut store, b"/bin", O_WRONLY), EINVAL);
    assert_eq!(open_directory(&mut t, &mut store, &[b'a'; 96], 0), EINVAL);
    let fd = open_directory(&mut t, &mut store, b"/bin", 0);
    assert_eq!(fd, 3);
    match t.fds[3] {
        Some(FileDescriptor::Dir { path, path_len, cookie }) => {
            assert_eq!(&path[..4], b"/bin");
            assert_eq!(path_len, 4);
            assert_eq!(cookie, 0);
        },
        _ => panic!(),
    }
    let mut devfs = DeviceRegistry::new();
    let _ = DevFS::register_block_global(&mut devfs, b"sda", 1);
    let dev_fd = open_file(&mut t, &mut store, &devfs, b"/dev/sda", 0, FileMode::ReadOnly, Some(40), 0);
    assert_eq!(dev_fd, 4);
    assert!(matches!(t.fds[4], Some(FileDescriptor::Device { inode: 40, offset: 0, .. })));
    let f = open_file(&mut t, &mut store, &devfs, b"/etc/motd", O_APPEND_FLAG, FileMode::WriteOnly, Some(7), 123);
    assert!(matches!(t.fds[f], Some(FileDescriptor::File { inode: 7, offset: 123, mode: FileMode::WriteOnly })));
    assert_eq!(open_file(&mut t, &mut store, &devfs, b"/x", 0, FileMode::ReadOnly, None, 0), ENOENT);
}

#[test]
fn brk_grows_the_heap_page_by_page() {
    let (mut tm, s) = booted_with_user();
    let mut refs = PageRefcounts::new();
    let (b, pages) = sys_brk(&mut tm, &mut refs, s, 0);
    assert_eq!(b, 0x4000_0000);
    assert!(pages.is_empty());
    let (b, pages) = sys_brk(&mut tm, &mut refs, s, 0x4000_2001);
    assert_eq!(b, 0x4000_2001);
    assert_eq!(pages, vec![0x4000_0000, 0x4000_1000, 0x4000_2000]);
    let (b, pages) = sys_brk(&mut tm, &mut refs, s, 0x4000_3000);
    assert_eq!(b, 0x4000_3000);
    assert!(pages.is_empty());
    assert_eq!(count_of(&refs, 0x4000_2000), 2);
    let (b, _) = sys_brk(&mut tm, &mut refs, s, 0x3000_0000);
    assert_eq!(b, 0x4000_3000);
    let (b, _) = sys_brk(&mut tm, &mut refs, s, 0x4300_0000);
    assert_eq!(b, 0x4000_3000);
    assert_eq!(sys_brk(&mut tm, &mut refs, 0, 0x4000_1000).0, 0);
    assert_eq!(sys_brk(&mut tm, &mut refs, 9, 0x4000_1000).0, 0);
}

#[test]
fn mmap_picks_addresses_and_maps_pages() {
    let (mut tm, s) = booted_with_user();
    let mut refs = PageRefcounts::new();
    let (t, mut store) = table();
    let m = sys_mmap2(&mut tm, &mut refs, &t, s, 0, 5000, MAP_ANONYMOUS, -1, 0);
    assert_eq!(m.result, 0x6000_0000);
    assert_eq!(m.new_pages, vec![0x6000_0000, 0x6000_1000]);
    assert_eq!((m.zero_start, m.zero_len), (0x6000_0000, 0x2000));
    assert!(m.file.is_none());
    assert_eq!(tm.tasks[s].unwrap().mmap_next, 0x6000_2000);
    let fixed = sys_mmap2(&mut tm, &mut refs, &t, s, 0x7000_0123, 10, MAP_FIXED | MAP_ANONYMOUS, -1, 0);
    assert_eq!(fixed.result, 0x7000_0000);
    assert_eq!(sys_mmap2(&mut tm, &mut refs, &t, s, 0, 0, 0, -1, 0).result, EINVAL);
    assert_eq!(sys_mmap2(&mut tm, &mut refs, &t, s, 0, 0x0400_0001, 0, -1, 0).result, ENOMEM);
    assert_eq!(sys_mmap2(&mut tm, &mut refs, &t, s, 0, 10, MAP_FIXED, -1, 0).result, EINVAL);
    assert_eq!(sys_mmap2(&mut tm, &mut refs, &t, s, 0xBFFF_F000, 0x2000, 0, -1, 0).result, EINVAL);
    assert_eq!(sys_mmap2(&mut tm, &mut refs, &t, 0, 0, 10, 0, -1, 0).result, ENOMEM);
    let bad = sys_mmap2(&mut tm, &mut refs, &t, s, 0x7100_0000, 10, 0, 9, 0);
    assert_eq!(bad.result, EBADF);
    assert_eq!(bad.new_pages.len(), 1);
    let mut t2 = t;
    t2.insert(3, FileDescriptor::File { inode: 11, offset: 0, mode: FileMode::ReadOnly }, &mut store);
    let fm = sys_mmap_old(&mut tm, &mut refs, &t2, s, 0x7200_0000, 100, 0, 3, 0x3000);
    assert_eq!(fm.result, 0x7200_0000);
    assert_eq!(fm.file, Some((11, 0x3000, 100)));
}

#[test]
fn munmap_drops_mappings() {
    let (mut tm, s) = booted_with_user();
    let mut refs = PageRefcounts::new();
    let (t, _) = table();
    let m = sys_mmap2(&mut tm, &mut refs, &t, s, 0, 0x3000, MAP_ANONYMOUS, -1, 0);
    assert_eq!(m.result, 0x6000_0000);
    let (r, gone) = sys_munmap(&tm, &mut refs, s, 0x6000_0800, 0x1000);
    assert_eq!(r, 0);
    assert_eq!(gone, vec![0x6000_0000, 0x6000_1000]);
    assert_eq!(count_of(&refs, 0x6000_2000), 1);
    assert_eq!(sys_munmap(&tm, &mut refs, s, 0x6000_0000, 0).0, 0);
    assert_eq!(sys_munmap(&tm, &mut refs, s, 0xC000_0000, 10).0, EINVAL);
    assert_eq!(sys_munmap(&tm, &mut refs, 9, 0x6000_0000, 10).0, EINVAL);
}

#[test]
fn user_stack_layout() {
    let argv = vec![b"sh\0".to_vec(), b"-c\0".to_vec()];
    let envp = vec![b"A=1\0".to_vec()];
    let l = setup_user_stack(0x1000, &argv, &envp);
    assert_eq!(l.env_addrs, vec![0x1000 - 4]);
    assert_eq!(l.arg_addrs, vec![0x1000 - 4 - 6, 0x1000 - 4 - 3]);
    let aligned = (0x1000 - 10) & !0xF;
    assert_eq!(l.esp, aligned - 4 * 6);
    assert_eq!(l.words, vec![2, 0x1000 - 10, 0x1000 - 7, 0, 0x1000 - 4, 0]);
}

#[test]
fn program_names_from_argv0() {
    let n = task_name(b"/bin/shell\0");
    assert_eq!(&n[..6], b"shell\0");
    assert!(n[5..].iter().all(|b| *b == 0));
    let long = task_name(&[b'x'; 40]);
    assert_eq!(&long[..31], &[b'x'; 31]);
    assert_eq!(long[31], 0);
    assert_eq!(task_name(b"dir/")[0], 0);
}

#[test]
fn execve_reserves_then_publishes() {
    let (mut tm, parent) = booted_with_user();
    let (st, _) = execve_begin(&mut tm, 0, 0, -1);
    assert_eq!(st.err(), Some(usize::MAX));
    let (st, _) = execve_begin(&mut tm, parent, 100, -1);
    let st = st.unwrap();
    assert_eq!(st.slot, 2);
    assert_eq!(st.pid, 2);
    assert_eq!(st.ppid, 1);
    assert_eq!(st.pgid, 1);
    assert_eq!(st.sid, 1);
    let argv = vec![b"/bin/ls\0".to_vec()];
    let (frame, layout) = execve_finish(&mut tm, &st, Task::new_task(0xC300_0000, 0x30_0000), parent, 0x0804_8000, &argv, &[]);
    assert_eq!(frame.eip, 0x0804_8000);
    assert_eq!(frame.esp, layout.esp);
    let t = tm.tasks[2].unwrap();
    assert_eq!((t.pid, t.ppid, t.pgid, t.sid, t.parent), (2, 1, 1, 1, 1));
    assert!(t.running);
    assert_eq!(tm.task_count, 3);
    let (bad, _) = execve_begin(&mut tm, parent, 100, 77);
    assert_eq!(bad.err(), Some(usize::MAX));
    let (own, _) = execve_begin(&mut tm, parent, 100, 0);
    let own = own.unwrap();
    assert_eq!(own.pgid, own.pid);
}

#[test]
fn children_inherit_descriptors() {
    let (mut parent, mut store) = table();
    let mut pipes = PipeTable::new();
    let (rd, _) = sys_pipe(&mut parent, &mut store, &mut pipes).unwrap();
    let mut child = FileDescriptorTable::with_stdio(&mut store);
    let r = install_child_fd(Some(&parent), &mut pipes, &mut child, &mut store, 0, rd as i32, FileDescriptor::ConsoleIn);
    assert!(r.is_none());
    assert!(matches!(child.fds[0], Some(FileDescriptor::Pipe { end: PipeEnd::Read, .. })));
    assert_eq!(pipes.pipes[0].readers, 2);
    install_child_fd(Some(&parent), &mut pipes, &mut child, &mut store, 1, -1, FileDescriptor::ConsoleOut);
    assert!(matches!(child.fds[1], Some(FileDescriptor::ConsoleOut)));
    install_child_fd(None, &mut pipes, &mut child, &mut store, 2, 3, FileDescriptor::ConsoleOut);
    assert!(matches!(child.fds[2], Some(FileDescriptor::ConsoleOut)));
}
