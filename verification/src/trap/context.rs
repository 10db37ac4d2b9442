//! The registers saved when a user program traps into the kernel.
use vstd::prelude::*;

verus! {

/// Registers of a user program saved on a trap.
#[derive(Copy, Clone)]
pub struct TrapContext {
    /// General-purpose registers `x0` to `x31`.
    pub x: [usize; 32],
    /// Bits of the `sstatus` register.
    pub sstatus: usize,
    /// Address the program resumes at.
    pub sepc: usize,
    /// Address-space token of the kernel.
    pub kernel_satp: usize,
    /// Kernel stack pointer of the task.
    pub kernel_sp: usize,
    /// Address of the kernel's trap handler.
    pub trap_handler: usize,
}

} // verus!
