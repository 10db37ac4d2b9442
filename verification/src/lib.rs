//! A verified model of the core logic of a small RISC-V teaching kernel:
//! address arithmetic for Sv39 paging, frame and pid allocation, the signal
//! delivery state machine, process exit and scheduling bookkeeping, trap
//! dispatch, and the user library's decisions.

pub mod config;
pub mod mm;
pub mod task;
pub mod syscall;
pub mod timer;
pub mod trap;
pub mod user;
