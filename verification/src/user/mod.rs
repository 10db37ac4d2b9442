//! The user library: what its calls decide from the kernel's answers.
use vstd::prelude::*;

pub mod syscall;

verus! {

/// The answer of `waitpid` while the child waited for still runs.
pub const WAIT_AGAIN: isize = -2;

/// Whether a sleep that began at `start` milliseconds and lasts
/// `period_ms` is still going at time `now`; while it is, the caller
/// yields and asks again.
pub fn sleep(start: isize, period_ms: usize, now: isize) -> (still_sleeping: bool)
    requires
        isize::MIN <= start + (period_ms as isize) <= isize::MAX,
    ensures
        still_sleeping == (now < start + (period_ms as isize)),
{
    now < start + period_ms as isize
}

/// What `waitpid` returns, given the answer `answer` of the system call:
/// `None` while the child still runs (the caller yields and asks again),
/// the answer otherwise: the pid of the child that exited, or -1.
pub fn waitpid(answer: isize) -> (r: Option<isize>)
    ensures
        answer == WAIT_AGAIN ==> r is None,
        answer != WAIT_AGAIN ==> r == Some(answer),
{
    if answer == WAIT_AGAIN {
        None
    } else {
        Some(answer)
    }
}

/// What `wait` returns, given the answer `answer` of the system call for
/// any child: `None` while no child has exited yet (the caller yields and
/// asks again), the answer otherwise.
pub fn wait(answer: isize) -> (r: Option<isize>)
    ensures
        answer == WAIT_AGAIN ==> r is None,
        answer != WAIT_AGAIN ==> r == Some(answer),
{
    if answer == WAIT_AGAIN {
        None
    } else {
        Some(answer)
    }
}

} // verus!
