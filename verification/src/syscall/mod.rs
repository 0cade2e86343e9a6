//! System calls: how a call number and its three arguments are read, and
//! the kernel-side work of each call.
use vstd::prelude::*;

pub mod fs;
pub mod process;

verus! {

pub const SYSCALL_DUP: usize = 24;
pub const SYSCALL_OPEN: usize = 56;
pub const SYSCALL_CLOSE: usize = 57;
pub const SYSCALL_PIPE: usize = 59;
pub const SYSCALL_READ: usize = 63;
pub const SYSCALL_WRITE: usize = 64;
pub const SYSCALL_EXIT: usize = 93;
pub const SYSCALL_YIELD: usize = 124;
pub const SYSCALL_GET_TIME: usize = 169;
pub const SYSCALL_GETPID: usize = 172;
pub const SYSCALL_FORK: usize = 220;
pub const SYSCALL_EXEC: usize = 221;
pub const SYSCALL_WAITPID: usize = 260;

/// A system call with its arguments read at their types. User addresses
/// are kept as plain numbers.
#[derive(Clone, Copy, PartialEq, Eq, Structural, Debug)]
pub enum Syscall {
    Dup { fd: usize },
    Read { fd: usize, buf: usize, len: usize },
    Open { path: usize, flags: u32 },
    Write { fd: usize, buf: usize, len: usize },
    Exit { exit_code: i32 },
    Yield,
    GetTime,
    GetPid,
    Fork,
    Exec { path: usize, args: usize },
    Waitpid { pid: isize, exit_code_ptr: usize },
    Close { fd: usize },
    Pipe { pipe: usize },
}

/// The kernel serves call number `id`.
pub open spec fn is_supported(id: usize) -> bool {
    id == SYSCALL_DUP || id == SYSCALL_OPEN || id == SYSCALL_CLOSE || id == SYSCALL_PIPE || id
        == SYSCALL_READ || id == SYSCALL_WRITE || id == SYSCALL_EXIT || id == SYSCALL_YIELD || id
        == SYSCALL_GET_TIME || id == SYSCALL_GETPID || id == SYSCALL_FORK || id == SYSCALL_EXEC
        || id == SYSCALL_WAITPID
}

/// The call that number `id` with arguments `a` stands for.
pub open spec fn decode(id: usize, a: Seq<usize>) -> Syscall
    recommends
        is_supported(id),
        a.len() == 3,
{
    if id == SYSCALL_DUP {
        Syscall::Dup { fd: a[0] }
    } else if id == SYSCALL_READ {
        Syscall::Read { fd: a[0], buf: a[1], len: a[2] }
    } else if id == SYSCALL_OPEN {
        Syscall::Open { path: a[0], flags: a[1] as u32 }
    } else if id == SYSCALL_WRITE {
        Syscall::Write { fd: a[0], buf: a[1], len: a[2] }
    } else if id == SYSCALL_EXIT {
        Syscall::Exit { exit_code: a[0] as i32 }
    } else if id == SYSCALL_YIELD {
        Syscall::Yield
    } else if id == SYSCALL_GET_TIME {
        Syscall::GetTime
    } else if id == SYSCALL_GETPID {
        Syscall::GetPid
    } else if id == SYSCALL_FORK {
        Syscall::Fork
    } else if id == SYSCALL_EXEC {
        Syscall::Exec { path: a[0], args: a[1] }
    } else if id == SYSCALL_WAITPID {
        Syscall::Waitpid { pid: a[0] as isize, exit_code_ptr: a[1] }
    } else if id == SYSCALL_CLOSE {
        Syscall::Close { fd: a[0] }
    } else {
        Syscall::Pipe { pipe: a[0] }
    }
}

/// Every call reads its arguments at their own types, keeping every bit that
/// fits: open's flags are the second argument cut to 32 bits, exit's code the
/// first argument cut to 32 bits, waitpid's pid the first argument read as
/// signed; descriptors, lengths and user addresses are taken unchanged.
pub proof fn lemma_decode_reads_arguments(a: Seq<usize>)
    requires
        a.len() == 3,
    ensures
        decode(24, a) == (Syscall::Dup { fd: a[0] }),
        decode(63, a) == (Syscall::Read { fd: a[0], buf: a[1], len: a[2] }),
        decode(56, a) == (Syscall::Open { path: a[0], flags: a[1] as u32 }),
        decode(64, a) == (Syscall::Write { fd: a[0], buf: a[1], len: a[2] }),
        decode(93, a) == (Syscall::Exit { exit_code: a[0] as i32 }),
        decode(124, a) == Syscall::Yield,
        decode(169, a) == Syscall::GetTime,
        decode(172, a) == Syscall::GetPid,
        decode(220, a) == Syscall::Fork,
        decode(221, a) == (Syscall::Exec { path: a[0], args: a[1] }),
        decode(260, a) == (Syscall::Waitpid { pid: a[0] as isize, exit_code_ptr: a[1] }),
        decode(57, a) == (Syscall::Close { fd: a[0] }),
        decode(59, a) == (Syscall::Pipe { pipe: a[0] }),
{
}

/// Decoding loses nothing that fits the target type: open's flags equal the
/// second argument whenever it fits in 32 bits, exit's code equals the first
/// argument whenever it fits in an `i32`, and two opens of one path decode
/// alike exactly when their flag arguments agree in their low 32 bits.
pub proof fn lemma_decode_keeps_all_low_bits(a: Seq<usize>, b: Seq<usize>)
    requires
        a.len() == 3,
        b.len() == 3,
        a[0] == b[0],
    ensures
        a[1] <= u32::MAX ==> decode(56, a)->flags as int == a[1] as int,
        a[0] <= i32::MAX ==> decode(93, a)->exit_code as int == a[0] as int,
        (decode(56, a) == decode(56, b)) <==> (a[1] as u32 == b[1] as u32),
{
}

/// Whether the kernel serves call number `syscall_id`.
pub fn syscall_supported(syscall_id: usize) -> (b: bool)
    ensures
        b == is_supported(syscall_id),
{
    syscall_id == SYSCALL_DUP || syscall_id == SYSCALL_OPEN || syscall_id == SYSCALL_CLOSE
        || syscall_id == SYSCALL_PIPE || syscall_id == SYSCALL_READ || syscall_id == SYSCALL_WRITE
        || syscall_id == SYSCALL_EXIT || syscall_id == SYSCALL_YIELD || syscall_id
        == SYSCALL_GET_TIME || syscall_id == SYSCALL_GETPID || syscall_id == SYSCALL_FORK
        || syscall_id == SYSCALL_EXEC || syscall_id == SYSCALL_WAITPID
}

/// Reads call number `syscall_id` and its arguments `args` as the call they
/// stand for; the caller carries the call out.
pub fn syscall(syscall_id: usize, args: [usize; 3]) -> (call: Syscall)
    requires
        is_supported(syscall_id),
    ensures
        call == decode(syscall_id, args@),
        syscall_id == SYSCALL_DUP ==> call == (Syscall::Dup { fd: args[0] }),
        syscall_id == SYSCALL_READ ==> call == (Syscall::Read { fd: args[0], buf: args[1], len: args[2] }),
        syscall_id == SYSCALL_OPEN ==> call == (Syscall::Open { path: args[0], flags: args[1] as u32 }),
        syscall_id == SYSCALL_WRITE ==> call == (Syscall::Write { fd: args[0], buf: args[1], len: args[2] }),
        syscall_id == SYSCALL_EXIT ==> call == (Syscall::Exit { exit_code: args[0] as i32 }),
        syscall_id == SYSCALL_YIELD ==> call == Syscall::Yield,
        syscall_id == SYSCALL_GET_TIME ==> call == Syscall::GetTime,
        syscall_id == SYSCALL_GETPID ==> call == Syscall::GetPid,
        syscall_id == SYSCALL_FORK ==> call == Syscall::Fork,
        syscall_id == SYSCALL_EXEC ==> call == (Syscall::Exec { path: args[0], args: args[1] }),
        syscall_id == SYSCALL_WAITPID ==> call == (Syscall::Waitpid { pid: args[0] as isize, exit_code_ptr: args[1] }),
        syscall_id == SYSCALL_CLOSE ==> call == (Syscall::Close { fd: args[0] }),
        syscall_id == SYSCALL_PIPE ==> call == (Syscall::Pipe { pipe: args[0] }),
{
    if syscall_id == SYSCALL_DUP {
        Syscall::Dup { fd: args[0] }
    } else if syscall_id == SYSCALL_READ {
        Syscall::Read { fd: args[0], buf: args[1], len: args[2] }
    } else if syscall_id == SYSCALL_OPEN {
        Syscall::Open { path: args[0], flags: args[1] as u32 }
    } else if syscall_id == SYSCALL_WRITE {
        Syscall::Write { fd: args[0], buf: args[1], len: args[2] }
    } else if syscall_id == SYSCALL_EXIT {
        Syscall::Exit { exit_code: args[0] as i32 }
    } else if syscall_id == SYSCALL_YIELD {
        Syscall::Yield
    } else if syscall_id == SYSCALL_GET_TIME {
        Syscall::GetTime
    } else if syscall_id == SYSCALL_GETPID {
        Syscall::GetPid
    } else if syscall_id == SYSCALL_FORK {
        Syscall::Fork
    } else if syscall_id == SYSCALL_EXEC {
        Syscall::Exec { path: args[0], args: args[1] }
    } else if syscall_id == SYSCALL_WAITPID {
        Syscall::Waitpid { pid: args[0] as isize, exit_code_ptr: args[1] }
    } else if syscall_id == SYSCALL_CLOSE {
        Syscall::Close { fd: args[0] }
    } else {
        Syscall::Pipe { pipe: args[0] }
    }
}

} // verus!
