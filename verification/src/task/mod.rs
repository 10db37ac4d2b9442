//! Processes: pids, kernel stacks, contexts, signals and scheduling.
use vstd::prelude::*;

pub mod action;
pub mod context;
pub mod manager;
pub mod pid;
pub mod signal;
pub mod task;

pub use action::{SignalAction, SignalActions};
pub use manager::{
    check_signals_error_of_current, current_add_signal, exit_current_and_run_next,
    handle_signals, suspend_current_and_run_next,
};
pub use signal::{SignalFlags, MAX_SIG};

verus! {

/// Pid of the idle task.
pub const IDLE_PID: usize = 0;

} // verus!
