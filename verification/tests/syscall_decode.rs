use os_kernel::syscall::{syscall, syscall_supported, Syscall};

#[test]
fn decodes_every_supported_call() {
    assert_eq!(syscall(24, [3, 0, 0]), Syscall::Dup { fd: 3 });
    assert_eq!(syscall(56, [0x1000, 0x1_0000_0002, 0]), Syscall::Open { path: 0x1000, flags: 2 });
    assert_eq!(syscall(57, [4, 0, 0]), Syscall::Close { fd: 4 });
    assert_eq!(syscall(59, [0x2000, 0, 0]), Syscall::Pipe { pipe: 0x2000 });
    assert_eq!(syscall(63, [0, 0x3000, 1]), Syscall::Read { fd: 0, buf: 0x3000, len: 1 });
    assert_eq!(syscall(64, [1, 0x4000, 12]), Syscall::Write { fd: 1, buf: 0x4000, len: 12 });
    assert_eq!(syscall(93, [usize::MAX, 0, 0]), Syscall::Exit { exit_code: -1 });
    assert_eq!(syscall(124, [9, 9, 9]), Syscall::Yield);
    assert_eq!(syscall(169, [0, 0, 0]), Syscall::GetTime);
    assert_eq!(syscall(172, [0, 0, 0]), Syscall::GetPid);
    assert_eq!(syscall(220, [0, 0, 0]), Syscall::Fork);
    assert_eq!(syscall(221, [0x5000, 0x6000, 0]), Syscall::Exec { path: 0x5000, args: 0x6000 });
    assert_eq!(
        syscall(260, [usize::MAX, 0x7000, 0]),
        Syscall::Waitpid { pid: -1, exit_code_ptr: 0x7000 }
    );
    assert_eq!(syscall(260, [5, 0x7000, 0]), Syscall::Waitpid { pid: 5, exit_code_ptr: 0x7000 });
}

#[test]
fn exit_code_is_truncated_to_32_bits() {
    assert_eq!(syscall(93, [0x1_0000_0007, 0, 0]), Syscall::Exit { exit_code: 7 });
}

#[test]
fn supported_call_numbers() {
    for id in [24, 56, 57, 59, 63, 64, 93, 124, 169, 172, 220, 221, 260] {
        assert!(syscall_supported(id));
    }
    for id in [0, 1, 23, 25, 58, 62, 65, 94, 125, 170, 261, usize::MAX] {
        assert!(!syscall_supported(id));
    }
}
