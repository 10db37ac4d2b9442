//! The registers a task keeps while it is switched out.
use vstd::prelude::*;

verus! {

/// Callee-saved registers of a task, restored when it is switched back in.
#[derive(Copy, Clone)]
pub struct TaskContext {
    /// Return address.
    pub ra: usize,
    /// Stack pointer.
    pub sp: usize,
    /// Registers `s0` to `s11`.
    pub s: [usize; 12],
}

impl TaskContext {
    /// A context with every register zero.
    pub fn zero_init() -> (c: Self)
        ensures
            c.ra == 0,
            c.sp == 0,
            forall|i: int| 0 <= i < 12 ==> #[trigger] c.s@[i] == 0,
    {
        TaskContext { ra: 0, sp: 0, s: [0;12] }
    }

    /// A context that, once switched to, returns to user space through
    /// `trap_return_addr` on the kernel stack whose top is `kstack_ptr`.
    pub fn goto_trap_return(kstack_ptr: usize, trap_return_addr: usize) -> (c: Self)
        ensures
            c.ra == trap_return_addr,
            c.sp == kstack_ptr,
            forall|i: int| 0 <= i < 12 ==> #[trigger] c.s@[i] == 0,
    {
        Self { ra: trap_return_addr, s: [0;12], sp: kstack_ptr }
    }
}

} // verus!
