//! Time: ticks of the machine clock, microseconds, and the next timer tick.
use vstd::prelude::*;

use crate::config::CLOCK_FREQ;

verus! {

/// Timer interrupts per second.
pub const TICKS_PER_SEC: usize = 100;

/// Microseconds per second.
pub const MICRO_PER_SEC: usize = 1_000_000;

/// A time as seconds and microseconds.
#[derive(Copy, Clone, PartialEq, Eq, Structural, Debug)]
pub struct TimeVal {
    pub sec: usize,
    pub usec: usize,
}

/// The clock reading at which the next timer interrupt is due, given the
/// reading `now`: a hundredth of a second later.
pub fn set_next_trigger(now: usize) -> (deadline: usize)
    requires
        now + CLOCK_FREQ / TICKS_PER_SEC <= usize::MAX,
    ensures
        deadline == now + CLOCK_FREQ / TICKS_PER_SEC,
{
    now + CLOCK_FREQ / TICKS_PER_SEC
}

/// Microseconds since boot, given the clock reading `ticks`.
pub fn get_time_us(ticks: usize) -> (us: usize)
    requires
        ticks * MICRO_PER_SEC <= usize::MAX,
    ensures
        us as int == (ticks as int * MICRO_PER_SEC as int) / CLOCK_FREQ as int,
{
    ticks * MICRO_PER_SEC / CLOCK_FREQ
}

/// The time value the kernel reports for `us` microseconds since boot.
pub fn sys_get_time(us: usize) -> (tv: TimeVal)
    ensures
        tv.sec == us / MICRO_PER_SEC,
        tv.usec == us % MICRO_PER_SEC,
        tv.sec * MICRO_PER_SEC + tv.usec == us,
{
    let tv = TimeVal { sec: us / MICRO_PER_SEC, usec: us % MICRO_PER_SEC };
    assert(tv.sec * 1_000_000 + tv.usec == us) by (nonlinear_arith)
        requires
            tv.sec == us / 1_000_000,
            tv.usec == us % 1_000_000,
    ;
    tv
}

} // verus!
