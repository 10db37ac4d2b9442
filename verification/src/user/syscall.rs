//! The user side of system calls.
use vstd::prelude::*;

verus! {

pub const SYSCALL_WRITE: usize = 64;
pub const SYSCALL_EXIT: usize = 93;
pub const SYSCALL_YIELD: usize = 124;
pub const SYSCALL_GETTIME: usize = 169;

/// A time as seconds and microseconds, as the kernel fills it in.
#[derive(Copy, Clone, PartialEq, Eq, Structural, Debug)]
pub struct TimeVal {
    pub sec: usize,
    pub usec: usize,
}

/// Milliseconds of the time value the kernel filled in.
pub fn sys_get_time(timeval: &TimeVal) -> (ms: isize)
    requires
        timeval.sec * 1000 + timeval.usec / 1000 <= usize::MAX,
    ensures
        ms == (timeval.sec * 1000 + timeval.usec / 1000) as isize,
{
    (timeval.sec * 1000 + timeval.usec / 1000) as isize
}

} // verus!
