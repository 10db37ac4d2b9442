//! Trap handling: what the kernel does with each cause of a trap.
use vstd::prelude::*;

pub mod context;

use crate::config::TRAMPOLINE;
use crate::trap::context::TrapContext;

verus! {

/// Why the processor trapped into the kernel.
#[derive(Copy, Clone, PartialEq, Eq, Structural, Debug)]
pub enum TrapCause {
    UserEnvCall,
    StoreFault,
    StorePageFault,
    LoadFault,
    LoadPageFault,
    IllegalInstruction,
    SupervisorTimer,
    /// Any other exception or interrupt.
    Other,
}

/// What the kernel does about a trap.
#[derive(Copy, Clone, Debug)]
pub enum TrapAction {
    /// Serve system call `id` with `args`, then store its result.
    Syscall { id: usize, args: [usize; 3] },
    /// End the task with `exit_code`, reporting a bad memory access.
    KillPageFault { exit_code: i32 },
    /// End the task with `exit_code`, reporting an illegal instruction.
    KillIllegalInstruction { exit_code: i32 },
    /// Arm the next timer tick and give the processor to the next task.
    Timer,
    /// A trap the kernel does not handle.
    Unsupported,
}

/// The action the kernel takes for a trap of `cause`.
pub open spec fn trap_action(cause: TrapCause, cx: TrapContext) -> TrapAction {
    match cause {
        TrapCause::UserEnvCall => TrapAction::Syscall {
            id: cx.x@[17],
            args: [cx.x@[10], cx.x@[11], cx.x@[12]],
        },
        TrapCause::StoreFault | TrapCause::StorePageFault | TrapCause::LoadFault
        | TrapCause::LoadPageFault => TrapAction::KillPageFault { exit_code: -2i32 },
        TrapCause::IllegalInstruction => TrapAction::KillIllegalInstruction { exit_code: -3i32 },
        TrapCause::SupervisorTimer => TrapAction::Timer,
        TrapCause::Other => TrapAction::Unsupported,
    }
}

/// Decides what to do with a trap from user space. A system call resumes
/// after the `ecall` instruction, so its return address moves on by four.
pub fn trap_handler(cx: &mut TrapContext, cause: TrapCause) -> (action: TrapAction)
    requires
        cause == TrapCause::UserEnvCall ==> old(cx).sepc + 4 <= usize::MAX,
    ensures
        action == trap_action(cause, *old(cx)),
        cause == TrapCause::UserEnvCall ==> *final(cx) == (TrapContext { sepc: (old(cx).sepc + 4) as usize, ..*old(cx) }),
        cause != TrapCause::UserEnvCall ==> *final(cx) == *old(cx),
{
    match cause {
        TrapCause::UserEnvCall => {
            cx.sepc = cx.sepc + 4;
            TrapAction::Syscall { id: cx.x[17], args: [cx.x[10], cx.x[11], cx.x[12]] }
        },
        TrapCause::StoreFault | TrapCause::StorePageFault | TrapCause::LoadFault
        | TrapCause::LoadPageFault => TrapAction::KillPageFault { exit_code: -2i32 },
        TrapCause::IllegalInstruction => TrapAction::KillIllegalInstruction { exit_code: -3i32 },
        TrapCause::SupervisorTimer => TrapAction::Timer,
        TrapCause::Other => TrapAction::Unsupported,
    }
}

/// Stores the result of a system call in `a0`, where the user program
/// finds it.
pub fn complete_syscall(cx: &mut TrapContext, result: isize)
    ensures
        final(cx).x@ == old(cx).x@.update(10, result as usize),
        final(cx).sepc == old(cx).sepc,
        final(cx).sstatus == old(cx).sstatus,
        final(cx).kernel_satp == old(cx).kernel_satp,
        final(cx).kernel_sp == old(cx).kernel_sp,
        final(cx).trap_handler == old(cx).trap_handler,
{
    cx.x[10] = result as usize;
}

/// Address, in the trampoline page, of the code that restores user
/// registers: `restore` lies `restore - alltraps` bytes after the trap
/// entry `alltraps`, and the trampoline maps that code at `TRAMPOLINE`.
pub fn trap_return_target(alltraps: usize, restore: usize) -> (va: usize)
    requires
        alltraps <= restore,
        restore - alltraps + TRAMPOLINE <= usize::MAX,
    ensures
        va == restore - alltraps + TRAMPOLINE,
{
    restore - alltraps + TRAMPOLINE
}

} // verus!
