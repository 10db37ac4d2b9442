//! System calls: which service a trap from user space asks for.
use vstd::prelude::*;

verus! {

pub const SYSCALL_WRITE: usize = 64;
pub const SYSCALL_EXIT: usize = 93;
pub const SYSCALL_YIELD: usize = 124;
pub const SYSCALL_GET_TIME: usize = 169;

/// A system call the kernel serves, with its arguments.
#[derive(Copy, Clone, PartialEq, Eq, Structural, Debug)]
pub enum SyscallRequest {
    /// Write `len` bytes at user address `buf` to file descriptor `fd`.
    Write { fd: usize, buf: usize, len: usize },
    /// End the calling task.
    Exit { exit_code: i32 },
    /// Give the processor to the next task.
    Yield,
    /// Store the time since boot at user address `ts`.
    GetTime { ts: usize, tz: usize },
}

/// Whether the kernel serves system call `syscall_id`.
pub open spec fn is_supported_syscall(syscall_id: usize) -> bool {
    syscall_id == SYSCALL_WRITE || syscall_id == SYSCALL_EXIT || syscall_id == SYSCALL_YIELD
        || syscall_id == SYSCALL_GET_TIME
}

/// Whether the kernel serves system call `syscall_id`.
pub fn is_supported(syscall_id: usize) -> (r: bool)
    ensures
        r == is_supported_syscall(syscall_id),
{
    syscall_id == SYSCALL_WRITE || syscall_id == SYSCALL_EXIT || syscall_id == SYSCALL_YIELD
        || syscall_id == SYSCALL_GET_TIME
}

/// The request that system call `syscall_id` with `args` makes.
pub open spec fn syscall_request(syscall_id: usize, args: Seq<usize>) -> SyscallRequest {
    if syscall_id == SYSCALL_WRITE {
        SyscallRequest::Write { fd: args[0], buf: args[1], len: args[2] }
    } else if syscall_id == SYSCALL_EXIT {
        SyscallRequest::Exit { exit_code: args[0] as i32 }
    } else if syscall_id == SYSCALL_YIELD {
        SyscallRequest::Yield
    } else {
        SyscallRequest::GetTime { ts: args[0], tz: args[1] }
    }
}

/// Decodes system call `syscall_id`; the kernel serves only the four above.
pub fn syscall(syscall_id: usize, args: [usize; 3]) -> (r: SyscallRequest)
    requires
        is_supported_syscall(syscall_id),
    ensures
        r == syscall_request(syscall_id, args@),
{
    if syscall_id == SYSCALL_WRITE {
        SyscallRequest::Write { fd: args[0], buf: args[1], len: args[2] }
    } else if syscall_id == SYSCALL_EXIT {
        SyscallRequest::Exit { exit_code: args[0] as i32 }
    } else if syscall_id == SYSCALL_YIELD {
        SyscallRequest::Yield
    } else {
        SyscallRequest::GetTime { ts: args[0], tz: args[1] }
    }
}

} // verus!
