use felix_kernel::wasi::{
    count_store_ok, fd_read_buffer, fd_read_continues, fd_write_buffers, guest_span_ok, iovec_table, sock_connect_errno,
    sock_open_errno, IoVec, WasiTrap, WASI_EBADF, WASI_EFAULT, WASI_ESUCCESS,
};

fn guest_memory() -> Vec<u8> {
    let mut mem = vec![0u8; 64];
    // Two entries at 16: (40, 8) and (60, 10).
    mem[16..20].copy_from_slice(&40u32.to_le_bytes());
    mem[20..24].copy_from_slice(&8u32.to_le_bytes());
    mem[24..28].copy_from_slice(&60u32.to_le_bytes());
    mem[28..32].copy_from_slice(&10u32.to_le_bytes());
    mem
}

#[test]
fn iovec_tables_decode_in_order() {
    let mem = guest_memory();
    let t = iovec_table(&mem, 16, 2).unwrap();
    assert_eq!(t, vec![IoVec { buf_ptr: 40, buf_len: 8 }, IoVec { buf_ptr: 60, buf_len: 10 }]);
    assert_eq!(iovec_table(&mem, -1, 2), Err(WasiTrap::InvalidIovs));
    assert_eq!(iovec_table(&mem, 16, -2), Err(WasiTrap::InvalidIovs));
    assert_eq!(iovec_table(&mem, 56, 2), Err(WasiTrap::IovsOutOfBounds));
    assert_eq!(iovec_table(&mem, 48, 2).unwrap().len(), 2);
}

#[test]
fn writes_pass_over_buffers_outside_memory() {
    let mem = guest_memory();
    let t = iovec_table(&mem, 16, 2).unwrap();
    assert_eq!(fd_write_buffers(&t, mem.len()), vec![IoVec { buf_ptr: 40, buf_len: 8 }]);
}

#[test]
fn reads_trap_on_buffers_outside_memory() {
    assert_eq!(fd_read_buffer(IoVec { buf_ptr: 40, buf_len: 8 }, 64), Ok((40, 8)));
    assert_eq!(fd_read_buffer(IoVec { buf_ptr: 60, buf_len: 10 }, 64), Err(WasiTrap::BufferOutOfBounds));
    assert!(fd_read_continues(8, 8));
    assert!(!fd_read_continues(3, 8));
}

#[test]
fn guest_addresses_are_checked() {
    assert!(guest_span_ok(0, 64, 64));
    assert!(!guest_span_ok(1, 64, 64));
    assert!(!guest_span_ok(-4, 4, 64));
    assert!(count_store_ok(60, 64));
    assert!(!count_store_ok(61, 64));
    assert!(!count_store_ok(usize::MAX, 64));
}

#[test]
fn socket_calls_answer_wasi_error_numbers() {
    assert_eq!(sock_open_errno(3), WASI_ESUCCESS);
    assert_eq!(sock_open_errno(usize::MAX), WASI_EBADF);
    assert_eq!(sock_connect_errno(false, 0), WASI_EFAULT);
    assert_eq!(sock_connect_errno(true, 0), WASI_ESUCCESS);
    assert_eq!(sock_connect_errno(true, usize::MAX), WASI_EBADF);
}
