//! What a task does on each signal.
use vstd::prelude::*;

use crate::task::signal::{SignalFlags, MAX_SIG};

verus! {

/// The mask a fresh action blocks while its handler runs: SIGQUIT and SIGTRAP.
pub const DEFAULT_ACTION_MASK: u32 = 40;

/// Number of signal numbers, `0..=MAX_SIG`.
pub const SIG_NUM: usize = MAX_SIG + 1;

/// Action for a signal.
#[derive(Debug, Clone, Copy)]
pub struct SignalAction {
    /// Address of the user handler; 0 means the default action.
    pub handler: usize,
    /// Signals held back while the handler runs.
    pub mask: SignalFlags,
}

impl Default for SignalAction {
    fn default() -> (r: Self)
        ensures
            r.handler == 0,
            r.mask.bits == DEFAULT_ACTION_MASK,
    {
        Self { handler: 0, mask: SignalFlags::from_bits(DEFAULT_ACTION_MASK).unwrap() }
    }
}

/// One action per signal number, `0..=MAX_SIG`.
#[derive(Clone)]
pub struct SignalActions {
    pub table: [SignalAction; SIG_NUM],
}

impl Default for SignalActions {
    fn default() -> (r: Self)
        ensures
            forall|i: int| 0 <= i <= MAX_SIG ==> (#[trigger] r.table@[i]).handler == 0
                && r.table@[i].mask.bits == DEFAULT_ACTION_MASK,
    {
        Self { table: [SignalAction::default(); SIG_NUM] }
    }
}

} // verus!
