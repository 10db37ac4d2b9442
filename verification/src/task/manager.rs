//! The kernel's tasks: signal delivery to a task, and the bookkeeping of
//! the running task, the ready queue and the process tree.
use vstd::prelude::*;

use crate::task::action::SIG_NUM;
use crate::task::signal::{
    sig_bit, SignalFlags, MAX_SIG, SIGCONT, SIGDEF, SIGKILL, SIGSTOP,
};
use crate::task::task::{TaskControlBlock, TaskStatus};
use crate::trap::context::TrapContext;

verus! {

// ---------------------------------------------------------------- signals

/// The one-signal set of signal number `sig`.
pub open spec fn sig_flags(sig: u32) -> SignalFlags {
    SignalFlags { bits: sig_bit(sig) }
}

/// Signals the kernel handles itself.
pub open spec fn is_kernel_signal(signal: SignalFlags) -> bool {
    signal.bits == SIGKILL || signal.bits == SIGSTOP || signal.bits == SIGCONT || signal.bits == SIGDEF
}

/// The handler of the signal being handled holds `sig` back.
pub open spec fn held_by_handler(t: TaskControlBlock, sig: u32) -> bool {
    t.handling_sig != -1 && t.signal_actions.table@[t.handling_sig as int].mask.has(sig_flags(sig))
}

/// Signal `sig` is pending and nothing holds it back.
pub open spec fn deliverable(t: TaskControlBlock, sig: u32) -> bool {
    &&& t.signals.has(sig_flags(sig))
    &&& !t.signal_mask.has(sig_flags(sig))
    &&& !held_by_handler(t, sig)
}

/// The task after the kernel handled `signal`: SIGSTOP freezes it, SIGCONT
/// thaws it, any other signal kills it.
pub open spec fn after_kernel_handler(t: TaskControlBlock, signal: SignalFlags) -> TaskControlBlock {
    if signal.bits == SIGSTOP {
        TaskControlBlock {
            frozen: true,
            signals: SignalFlags { bits: t.signals.bits ^ SIGSTOP },
            ..t
        }
    } else if signal.bits == SIGCONT {
        if t.signals.has(signal) {
            TaskControlBlock {
                frozen: false,
                signals: SignalFlags { bits: t.signals.bits ^ SIGCONT },
                ..t
            }
        } else {
            t
        }
    } else {
        TaskControlBlock { killed: true, ..t }
    }
}

/// `b` is `a` after the user handler of `sig` was set up: with a handler
/// installed, the signal is marked as being handled and no longer pending,
/// the trap context is saved, and the task resumes in the handler with the
/// signal number in `a0`; with none, nothing changes.
pub open spec fn user_handled(a: TaskControlBlock, b: TaskControlBlock, sig: u32) -> bool {
    let handler = a.signal_actions.table@[sig as int].handler;
    if handler != 0 {
        &&& b.handling_sig == sig as isize
        &&& b.signals.bits == a.signals.bits ^ sig_bit(sig)
        &&& b.trap_ctx_backup == Some(a.trap_cx)
        &&& b.trap_cx.sepc == handler
        &&& b.trap_cx.x@ == a.trap_cx.x@.update(10, sig as usize)
        &&& b.trap_cx.sstatus == a.trap_cx.sstatus
        &&& b.trap_cx.kernel_satp == a.trap_cx.kernel_satp
        &&& b.trap_cx.kernel_sp == a.trap_cx.kernel_sp
        &&& b.trap_cx.trap_handler == a.trap_cx.trap_handler
        &&& b.task_status == a.task_status
        &&& b.task_cx == a.task_cx
        &&& b.trap_cx_ppn == a.trap_cx_ppn
        &&& b.base_size == a.base_size
        &&& b.exit_code == a.exit_code
        &&& b.parent == a.parent
        &&& b.children@ == a.children@
        &&& b.signal_mask == a.signal_mask
        &&& b.signal_actions == a.signal_actions
        &&& b.killed == a.killed
        &&& b.frozen == a.frozen
    } else {
        b == a
    }
}

/// Scanning signal numbers from `sig` up to `MAX_SIG`: the task after the
/// kernel handled each deliverable kernel signal in turn, and the first
/// deliverable signal left to a user handler, where the scan stops.
pub open spec fn pending_from(t: TaskControlBlock, sig: u32) -> (TaskControlBlock, Option<u32>)
    decreases 32 - sig,
{
    if sig > MAX_SIG {
        (t, None)
    } else if deliverable(t, sig) {
        if is_kernel_signal(sig_flags(sig)) {
            pending_from(after_kernel_handler(t, sig_flags(sig)), (sig + 1) as u32)
        } else {
            (t, Some(sig))
        }
    } else {
        pending_from(t, (sig + 1) as u32)
    }
}

/// The task after one round of signal checking, given by `pending_from`.
pub open spec fn checked(a: TaskControlBlock, b: TaskControlBlock) -> bool {
    match pending_from(a, 0) {
        (mid, None) => b == mid,
        (mid, Some(s)) => user_handled(mid, b, s),
    }
}

/// Handles a signal in the kernel.
pub fn call_kernel_signal_handler(task: &mut TaskControlBlock, signal: SignalFlags)
    ensures
        *final(task) == after_kernel_handler(*old(task), signal),
{
    if signal.bits == SIGSTOP {
        task.frozen = true;
        task.signals.toggle(SignalFlags { bits: SIGSTOP });
    } else if signal.bits == SIGCONT {
        if task.signals.contains(SignalFlags { bits: SIGCONT }) {
            task.signals.toggle(SignalFlags { bits: SIGCONT });
            task.frozen = false;
        }
    } else {
        task.killed = true;
    }
}

/// Sets up the user handler of signal `sig`; returns whether the task has
/// one. Without one, the caller takes the default action, which is to
/// report the signal and leave the task as it is.
pub fn call_user_signal_handler(task: &mut TaskControlBlock, sig: usize, signal: SignalFlags) -> (installed: bool)
    requires
        sig <= MAX_SIG,
        signal == sig_flags(sig as u32),
    ensures
        user_handled(*old(task), *final(task), sig as u32),
        installed == (old(task).signal_actions.table@[sig as int].handler != 0),
{
    let handler = task.signal_actions.table[sig].handler;
    if handler != 0 {
        task.handling_sig = sig as isize;
        task.signals.toggle(signal);
        task.trap_ctx_backup = Some(task.trap_cx);
        task.trap_cx.sepc = handler;
        task.trap_cx.x[10] = sig;
        true
    } else {
        false
    }
}

/// Handles the pending signals of a task in order of signal number: the
/// kernel's own signals one after the other, until the first that has to go
/// to the user, whose handler is set up last.
pub fn check_pending_signals(task: &mut TaskControlBlock)
    requires
        old(task).handling_sig_valid(),
    ensures
        checked(*old(task), *final(task)),
{
    let mut sig: usize = 0;
    while sig < SIG_NUM
        invariant
            sig <= SIG_NUM,
            task.handling_sig_valid(),
            pending_from(*old(task), 0) == pending_from(*task, sig as u32),
        decreases SIG_NUM - sig,
    {
        let signal = SignalFlags::from_bits(1u32 << (sig as u32)).unwrap();
        if task.signals.contains(signal) && !task.signal_mask.contains(signal) {
            let mut masked = true;
            let handling_sig = task.handling_sig;
            if handling_sig == -1 {
                masked = false;
            } else {
                let h = handling_sig as usize;
                if !task.signal_actions.table[h].mask.contains(signal) {
                    masked = false;
                }
            }
            if !masked {
                if signal.bits == SIGKILL || signal.bits == SIGSTOP || signal.bits == SIGCONT
                    || signal.bits == SIGDEF {
                    call_kernel_signal_handler(task, signal);
                } else {
                    let ghost before = *task;
                    call_user_signal_handler(task, sig, signal);
                    assert(pending_from(before, sig as u32) == (before, Some(sig as u32)));
                    return;
                }
            }
        }
        sig = sig + 1;
    }
}

// ---------------------------------------------------------------- signal laws

proof fn lemma_toggle_keeps_other_bit(b: u32, s: u32, t: u32)
    requires
        s < 32,
        t < 32,
        s != t,
    ensures
        ((b ^ (1u32 << t)) & (1u32 << s) == (1u32 << s)) == (b & (1u32 << s) == (1u32 << s)),
{
    assert(s < 32 && t < 32 && s != t ==> (((b ^ (1u32 << t)) & (1u32 << s) == (1u32 << s)) == (b & (1u32 << s)
        == (1u32 << s)))) by (bit_vector);
}

proof fn lemma_toggle_clears_bit(b: u32, s: u32)
    requires
        s < 32,
        b & (1u32 << s) == (1u32 << s),
    ensures
        (b ^ (1u32 << s)) & (1u32 << s) != (1u32 << s),
{
    assert(s < 32 && b & (1u32 << s) == (1u32 << s) ==> (b ^ (1u32 << s)) & (1u32 << s) != (1u32 << s))
        by (bit_vector);
}

proof fn lemma_sigstop_sigcont_bits()
    ensures
        SIGSTOP == sig_bit(19),
        SIGCONT == sig_bit(18),
        SIGSTOP == 0x80000u32,
        SIGCONT == 0x40000u32,
{
    assert(1u32 << 19u32 == 0x80000u32) by (bit_vector);
    assert(1u32 << 18u32 == 0x40000u32) by (bit_vector);
}

/// What stays as it was through a round of signal checking that starts
/// scanning at `sig`: kill flag once set, the mask, the actions, the
/// handled signal number, the process-tree fields, and every pending signal
/// that the mask holds back.
proof fn lemma_pending_from_keeps(t: TaskControlBlock, sig: u32, s: u32)
    requires
        s <= MAX_SIG,
    ensures
        ({
            let m = pending_from(t, sig).0;
            &&& t.killed ==> m.killed
            &&& m.signal_mask == t.signal_mask
            &&& m.signal_actions == t.signal_actions
            &&& m.handling_sig == t.handling_sig
            &&& m.children@ == t.children@
            &&& m.parent == t.parent
            &&& m.exit_code == t.exit_code
            &&& m.task_status == t.task_status
            &&& t.signal_mask.has(sig_flags(s)) ==> (m.signals.has(sig_flags(s)) == t.signals.has(sig_flags(s)))
            &&& held_by_handler(t, s) ==> (m.signals.has(sig_flags(s)) == t.signals.has(sig_flags(s)))
        }),
        pending_from(t, sig).1 matches Some(u) ==> sig <= u <= MAX_SIG && deliverable(pending_from(t, sig).0, u)
            && !is_kernel_signal(sig_flags(u)),
    decreases 32 - sig,
{
    if sig > MAX_SIG {
    } else if deliverable(t, sig) {
        if is_kernel_signal(sig_flags(sig)) {
            let t2 = after_kernel_handler(t, sig_flags(sig));
            lemma_pending_from_keeps(t2, (sig + 1) as u32, s);
            if t.signal_mask.has(sig_flags(s)) || held_by_handler(t, s) {
                assert(s != sig);
                lemma_sigstop_sigcont_bits();
                if sig_flags(sig).bits == SIGSTOP {
                    lemma_toggle_keeps_other_bit(t.signals.bits, s, 19);
                } else if sig_flags(sig).bits == SIGCONT {
                    lemma_toggle_keeps_other_bit(t.signals.bits, s, 18);
                }
            }
        }
    } else {
        lemma_pending_from_keeps(t, (sig + 1) as u32, s);
    }
}

/// A round of signal checking never revives a killed task, never changes
/// the mask or the actions, and never delivers, nor drops, a signal that the
/// mask holds back.
pub proof fn lemma_check_signals_keeps(a: TaskControlBlock, b: TaskControlBlock, s: u32)
    requires
        checked(a, b),
        s <= MAX_SIG,
    ensures
        a.killed ==> b.killed,
        b.signal_mask == a.signal_mask,
        b.signal_actions == a.signal_actions,
        b.children@ == a.children@,
        b.parent == a.parent,
        b.exit_code == a.exit_code,
        b.task_status == a.task_status,
        a.signal_mask.has(sig_flags(s)) ==> (b.signals.has(sig_flags(s)) == a.signals.has(sig_flags(s))),
{
    lemma_pending_from_keeps(a, 0, s);
    let (m, u) = pending_from(a, 0);
    if let Some(x) = u {
        if m.signal_actions.table@[x as int].handler != 0 && a.signal_mask.has(sig_flags(s)) {
            assert(x != s);
            lemma_toggle_keeps_other_bit(m.signals.bits, s, x);
        }
    }
}

proof fn lemma_sigkill_bit()
    ensures
        sig_bit(9) == SIGKILL,
        SIGKILL == 0x200u32,
{
    assert(1u32 << 9u32 == 0x200u32) by (bit_vector);
}

/// Scanning from `sig` up past 9 with SIGKILL deliverable and no signal
/// left to a user handler ends with the task killed.
proof fn lemma_pending_from_kills(t: TaskControlBlock, sig: u32)
    requires
        sig <= 9,
        deliverable(t, 9),
        pending_from(t, sig).1 is None,
    ensures
        pending_from(t, sig).0.killed,
    decreases 32 - sig,
{
    lemma_sigkill_bit();
    lemma_sigstop_sigcont_bits();
    if sig == 9 {
        let t2 = after_kernel_handler(t, sig_flags(9));
        assert(t2.killed);
        lemma_pending_from_keeps(t2, 10, 0);
    } else if deliverable(t, sig) {
        if is_kernel_signal(sig_flags(sig)) {
            let t2 = after_kernel_handler(t, sig_flags(sig));
            if sig_flags(sig).bits == SIGSTOP {
                lemma_toggle_keeps_other_bit(t.signals.bits, 9, 19);
            } else if sig_flags(sig).bits == SIGCONT {
                lemma_toggle_keeps_other_bit(t.signals.bits, 9, 18);
            }
            assert(deliverable(t2, 9));
            lemma_pending_from_kills(t2, (sig + 1) as u32);
        }
    } else {
        lemma_pending_from_kills(t, (sig + 1) as u32);
    }
}

/// A round of signal checking that finds SIGKILL deliverable kills the
/// task, unless a signal numbered below it went to a user handler first.
pub proof fn lemma_sigkill_kills(a: TaskControlBlock, b: TaskControlBlock)
    requires
        checked(a, b),
        deliverable(a, 9),
        pending_from(a, 0).1 is None,
    ensures
        b.killed,
{
    lemma_pending_from_kills(a, 0);
}

/// When a round hands a signal to an installed user handler, that signal
/// is the one being handled afterwards and is no longer pending.
pub proof fn lemma_user_handler_consumes_signal(a: TaskControlBlock, b: TaskControlBlock)
    requires
        checked(a, b),
    ensures
        pending_from(a, 0).1 matches Some(x) ==> (
            pending_from(a, 0).0.signal_actions.table@[x as int].handler != 0 ==> {
                &&& b.handling_sig == x as isize
                &&& !b.signals.has(sig_flags(x))
            }),
{
    lemma_pending_from_keeps(a, 0, 0);
    let (m, u) = pending_from(a, 0);
    if let Some(x) = u {
        if m.signal_actions.table@[x as int].handler != 0 {
            lemma_toggle_clears_bit(m.signals.bits, x);
        }
    }
}

/// A raised signal is pending afterwards, and the signals pending before
/// stay pending.
pub proof fn lemma_raised_signal_pending(pending: SignalFlags, signal: SignalFlags)
    ensures
        (SignalFlags { bits: pending.bits | signal.bits }).has(signal),
        forall|s: SignalFlags| pending.has(s) ==> (SignalFlags { bits: pending.bits | signal.bits }).has(s),
{
    let a = pending.bits;
    let b = signal.bits;
    assert((a | b) & b == b) by (bit_vector);
    assert forall|s: SignalFlags| pending.has(s) implies (SignalFlags { bits: pending.bits | signal.bits }).has(s) by {
        let c = s.bits;
        assert(a & c == c ==> (a | b) & c == c) by (bit_vector);
    }
}

// ---------------------------------------------------------------- laws of delivery

/// Without a user handler, setting one up changes nothing: the task is not
/// killed, frozen or resumed elsewhere, and the signal stays pending.
pub proof fn lemma_default_action_keeps_task(a: TaskControlBlock, b: TaskControlBlock, sig: u32)
    requires
        user_handled(a, b, sig),
        a.signal_actions.table@[sig as int].handler == 0,
    ensures
        b.killed == a.killed,
        b.frozen == a.frozen,
        b.signals == a.signals,
        b.handling_sig == a.handling_sig,
        b.trap_cx == a.trap_cx,
        b.trap_ctx_backup == a.trap_ctx_backup,
        b.task_status == a.task_status,
{
}

/// With a user handler, setting it up never kills, freezes or thaws the
/// task, and the task resumes in the handler with the signal no longer
/// pending.
pub proof fn lemma_user_handler_entered(a: TaskControlBlock, b: TaskControlBlock, sig: u32)
    requires
        user_handled(a, b, sig),
        sig <= MAX_SIG,
        a.signals.bits & (1u32 << sig) == (1u32 << sig),
        a.signal_actions.table@[sig as int].handler != 0,
    ensures
        b.killed == a.killed,
        b.frozen == a.frozen,
        b.handling_sig == sig as isize,
        b.signals.bits & (1u32 << sig) == 0,
        b.trap_cx.sepc == a.signal_actions.table@[sig as int].handler,
        b.trap_cx.x@[10] == sig as usize,
        b.trap_ctx_backup == Some(a.trap_cx),
{
    let x = a.signals.bits;
    assert(sig < 32 && x & (1u32 << sig) == (1u32 << sig) ==> (x ^ (1u32 << sig)) & (1u32 << sig) == 0)
        by (bit_vector);
}

/// The kernel's handling of its own signals: SIGCONT, when pending, is
/// consumed and leaves the task running, frozen or not before; SIGSTOP, when
/// pending, is consumed and freezes the task; SIGKILL and SIGDEF kill it and
/// leave the pending signals and the frozen flag alone.
pub proof fn lemma_kernel_handler_effects(t: TaskControlBlock, signal: SignalFlags)
    ensures
        signal.bits == SIGCONT && t.signals.bits & SIGCONT == SIGCONT ==> {
            let r = after_kernel_handler(t, signal);
            &&& !r.frozen
            &&& r.signals.bits & SIGCONT == 0
            &&& r.signals.bits | SIGCONT == t.signals.bits
            &&& r.killed == t.killed
        },
        signal.bits == SIGSTOP && t.signals.bits & SIGSTOP == SIGSTOP ==> {
            let r = after_kernel_handler(t, signal);
            &&& r.frozen
            &&& r.signals.bits & SIGSTOP == 0
            &&& r.signals.bits | SIGSTOP == t.signals.bits
            &&& r.killed == t.killed
        },
        signal.bits == SIGKILL || signal.bits == SIGDEF ==> {
            let r = after_kernel_handler(t, signal);
            &&& r.killed
            &&& r.signals == t.signals
            &&& r.frozen == t.frozen
        },
{
    lemma_sigkill_bit();
    lemma_sigstop_sigcont_bits();
    let x = t.signals.bits;
    assert(x & 0x40000u32 == 0x40000u32 ==> (x ^ 0x40000u32) & 0x40000u32 == 0 && (x ^ 0x40000u32) | 0x40000u32 == x)
        by (bit_vector);
    assert(x & 0x80000u32 == 0x80000u32 ==> (x ^ 0x80000u32) & 0x80000u32 == 0 && (x ^ 0x80000u32) | 0x80000u32 == x)
        by (bit_vector);
}

/// Scanning from `s` to `sig` passes over signals that are not deliverable.
proof fn lemma_scan_skips(t: TaskControlBlock, s: u32, sig: u32)
    requires
        s <= sig <= MAX_SIG,
        forall|k: u32| s <= k < sig ==> !#[trigger] deliverable(t, k),
    ensures
        pending_from(t, s) == pending_from(t, sig),
    decreases sig - s,
{
    if s < sig {
        lemma_scan_skips(t, (s + 1) as u32, sig);
    }
}

/// The scan reaches every signal number up to `MAX_SIG`: when a signal the
/// kernel leaves to the user is the only one pending, nothing holds it back
/// and its handler is installed, a round ends in that handler with the
/// signal consumed.
pub proof fn lemma_lone_user_signal_delivered(a: TaskControlBlock, b: TaskControlBlock, sig: u32)
    requires
        checked(a, b),
        sig <= MAX_SIG,
        sig != 0 && sig != 9 && sig != 18 && sig != 19,
        a.signals.bits == 1u32 << sig,
        a.signal_mask.bits & (1u32 << sig) == 0,
        a.handling_sig == -1,
        a.signal_actions.table@[sig as int].handler != 0,
    ensures
        b.handling_sig == sig as isize,
        b.signals.bits == 0,
        b.trap_cx.sepc == a.signal_actions.table@[sig as int].handler,
        b.trap_cx.x@[10] == sig as usize,
        b.killed == a.killed,
        b.frozen == a.frozen,
{
    lemma_sigkill_bit();
    lemma_sigstop_sigcont_bits();
    assert forall|k: u32| 0 <= k < sig implies !#[trigger] deliverable(a, k) by {
        let x = a.signals.bits;
        assert(k < sig && sig < 32 && x == 1u32 << sig ==> x & (1u32 << k) != (1u32 << k)) by (bit_vector);
    }
    lemma_scan_skips(a, 0, sig);
    let m = a.signal_mask.bits;
    assert(sig < 32 && m & (1u32 << sig) == 0 ==> m & (1u32 << sig) != (1u32 << sig)) by (bit_vector);
    let x0 = a.signals.bits;
    assert(x0 == 1u32 << sig ==> x0 & (1u32 << sig) == (1u32 << sig)) by (bit_vector);
    assert(deliverable(a, sig));
    assert(sig < 32 && sig != 0 && sig != 9 && sig != 18 && sig != 19 ==> (1u32 << sig) != 0x200u32 && (1u32
        << sig) != 0x80000u32 && (1u32 << sig) != 0x40000u32 && (1u32 << sig) != 1u32) by (bit_vector);
    assert(!is_kernel_signal(sig_flags(sig)));
    assert(pending_from(a, sig) == (a, Some(sig)));
    let x = a.signals.bits;
    assert(x == 1u32 << sig ==> x ^ (1u32 << sig) == 0) by (bit_vector);
}

/// A round of signal checking never delivers, nor drops, a signal that the
/// action of the signal being handled holds back, kernel signals included.
pub proof fn lemma_handler_mask_holds(a: TaskControlBlock, b: TaskControlBlock, s: u32)
    requires
        checked(a, b),
        s <= MAX_SIG,
        a.handling_sig != -1,
        a.signal_actions.table@[a.handling_sig as int].mask.bits & (1u32 << s) == (1u32 << s),
    ensures
        (b.signals.bits & (1u32 << s) == (1u32 << s)) == (a.signals.bits & (1u32 << s) == (1u32 << s)),
{
    lemma_pending_from_keeps(a, 0, s);
    let (m, u) = pending_from(a, 0);
    assert(held_by_handler(a, s));
    if let Some(x) = u {
        if m.signal_actions.table@[x as int].handler != 0 {
            assert(held_by_handler(m, s));
            assert(x != s);
            lemma_toggle_keeps_other_bit(m.signals.bits, s, x);
        }
    }
}

// ---------------------------------------------------------------- tasks

/// The kernel's tasks: control blocks by pid, the index of pids that can be
/// looked up, the queue of ready tasks, the task that runs, and the init
/// process that adopts orphans. A control block stays while a parent may
/// still read it; an exited task leaves the index at once.
pub struct TaskManager {
    tasks: Vec<Option<TaskControlBlock>>,
    pid2task: Vec<bool>,
    ready_queue: Vec<usize>,
    current: Option<usize>,
    initproc: usize,
}

impl TaskManager {
    pub closed spec fn tasks(&self) -> Seq<Option<TaskControlBlock>> {
        self.tasks@
    }

    /// Which pids the index holds, by pid.
    pub closed spec fn pid_index(&self) -> Seq<bool> {
        self.pid2task@
    }

    /// The index lists `pid`: looking it up finds its control block.
    pub open spec fn registered(&self, pid: usize) -> bool {
        pid < self.pid_index().len() && self.pid_index()[pid as int]
    }

    pub closed spec fn ready_queue(&self) -> Seq<usize> {
        self.ready_queue@
    }

    pub closed spec fn current(&self) -> Option<usize> {
        self.current
    }

    pub closed spec fn initproc(&self) -> usize {
        self.initproc
    }

    /// A control block exists for `pid`.
    pub open spec fn has_task(&self, pid: usize) -> bool {
        has(self.tasks(), pid)
    }

    /// The control block of `pid`.
    pub open spec fn task(&self, pid: usize) -> TaskControlBlock {
        at(self.tasks(), pid)
    }

    pub open spec fn wf(&self) -> bool {
        &&& has(self.tasks(), self.initproc())
        &&& at(self.tasks(), self.initproc()).parent is None
        &&& self.current() matches Some(p) ==> has(self.tasks(), p)
        &&& sigs_ok(self.tasks())
        &&& queue_ok(self.tasks(), self.ready_queue())
        &&& tree_ok(self.tasks())
        &&& index_ok(self.tasks(), self.pid_index())
    }

    /// Task tables that differ at most at the given pids.
    pub open spec fn same_except(a: Seq<Option<TaskControlBlock>>, b: Seq<Option<TaskControlBlock>>, changed: Set<usize>) -> bool {
        &&& a.len() == b.len()
        &&& forall|q: usize| #![trigger b[q as int]] q < a.len() && !changed.contains(q) ==> b[q as int] == a[q as int]
    }
}

/// A control block exists for `pid` in table `ts`.
pub open spec fn has(ts: Seq<Option<TaskControlBlock>>, pid: usize) -> bool {
    pid < ts.len() && ts[pid as int] is Some
}

/// The control block of `pid` in table `ts`.
pub open spec fn at(ts: Seq<Option<TaskControlBlock>>, pid: usize) -> TaskControlBlock {
    ts[pid as int]->Some_0
}

/// Parent and child links of table `ts` agree, every child list is free of
/// repeats, and no task is its own parent.
pub open spec fn tree_ok(ts: Seq<Option<TaskControlBlock>>) -> bool {
    &&& forall|p: usize, i: int|
        #![trigger at(ts, p).children@[i]]
        has(ts, p) && 0 <= i < at(ts, p).children@.len() ==> {
            &&& has(ts, at(ts, p).children@[i])
            &&& at(ts, at(ts, p).children@[i]).parent == Some(p)
        }
    &&& forall|c: usize|
        #![trigger at(ts, c).parent]
        has(ts, c) && at(ts, c).parent is Some ==> {
            &&& has(ts, at(ts, c).parent->Some_0)
            &&& at(ts, at(ts, c).parent->Some_0).children@.contains(c)
        }
    &&& forall|p: usize| #![trigger at(ts, p).children] has(ts, p) ==> at(ts, p).children@.no_duplicates()
    &&& forall|p: usize| #![trigger at(ts, p).parent] has(ts, p) ==> at(ts, p).parent != Some(p)
}

/// Every pid of index `idx` has a control block in table `ts`.
pub open spec fn index_ok(ts: Seq<Option<TaskControlBlock>>, idx: Seq<bool>) -> bool {
    forall|p: usize| #![trigger idx[p as int]] p < idx.len() && idx[p as int] ==> has(ts, p)
}

/// Every task of table `ts` names a signal or none as the one being handled.
pub open spec fn sigs_ok(ts: Seq<Option<TaskControlBlock>>) -> bool {
    forall|p: usize| #![trigger at(ts, p).handling_sig] has(ts, p) ==> at(ts, p).handling_sig_valid()
}

/// Queued pids name tasks of table `ts`.
pub open spec fn queue_ok(ts: Seq<Option<TaskControlBlock>>, rq: Seq<usize>) -> bool {
    forall|i: int| #![trigger rq[i]] 0 <= i < rq.len() ==> has(ts, rq[i])
}

/// Two tables have the same tasks, linked the same way.
pub open spec fn same_links(a: Seq<Option<TaskControlBlock>>, b: Seq<Option<TaskControlBlock>>) -> bool {
    forall|q: usize| #![trigger has(b, q)] #![trigger at(b, q)]
        has(b, q) == has(a, q) && (has(a, q) ==> {
            &&& at(b, q).parent == at(a, q).parent
            &&& at(b, q).children@ == at(a, q).children@
        })
}

/// Table `b` is `a` with the control block of `pid` changed in nothing that
/// links tasks or that names the signal being handled.
pub open spec fn changed_one(a: Seq<Option<TaskControlBlock>>, b: Seq<Option<TaskControlBlock>>, pid: usize) -> bool {
    &&& has(a, pid)
    &&& b == a.update(pid as int, Some(at(b, pid)))
    &&& at(b, pid).parent == at(a, pid).parent
    &&& at(b, pid).children@ == at(a, pid).children@
    &&& at(b, pid).handling_sig_valid()
}

proof fn lemma_changed_one(a: Seq<Option<TaskControlBlock>>, b: Seq<Option<TaskControlBlock>>, pid: usize, rq: Seq<usize>)
    requires
        changed_one(a, b, pid),
        tree_ok(a),
        sigs_ok(a),
        queue_ok(a, rq),
    ensures
        tree_ok(b),
        sigs_ok(b),
        queue_ok(b, rq),
        forall|idx: Seq<bool>| index_ok(a, idx) ==> #[trigger] index_ok(b, idx),
        same_links(a, b),
        forall|q: usize| #[trigger] has(b, q) == has(a, q),
{
    assert forall|q: usize| #[trigger] has(b, q) == has(a, q) by {}
    assert forall|idx: Seq<bool>| index_ok(a, idx) implies #[trigger] index_ok(b, idx) by {
        assert forall|p: usize| p < idx.len() && idx[p as int] implies has(b, p) by {
            assert(has(a, p));
        }
    }
    assert(same_links(a, b));
    lemma_tree_ok_same_links(a, b);
    assert forall|i: int| 0 <= i < rq.len() implies has(b, #[trigger] rq[i]) by {
        assert(has(a, rq[i]));
    }
    assert forall|p: usize| has(b, p) implies #[trigger] at(b, p).handling_sig_valid() by {
        assert(has(a, p));
    }
}

proof fn lemma_queue_push(ts: Seq<Option<TaskControlBlock>>, rq: Seq<usize>, pid: usize)
    requires
        queue_ok(ts, rq),
        has(ts, pid),
    ensures
        queue_ok(ts, rq.push(pid)),
{
    assert forall|i: int| 0 <= i < rq.push(pid).len() implies has(ts, #[trigger] rq.push(pid)[i]) by {
        if i < rq.len() {
            assert(rq.push(pid)[i] == rq[i]);
        }
    }
}

proof fn lemma_tree_ok_same_links(a: Seq<Option<TaskControlBlock>>, b: Seq<Option<TaskControlBlock>>)
    requires
        tree_ok(a),
        same_links(a, b),
    ensures
        tree_ok(b),
{
    assert forall|p: usize, i: int|
        has(b, p) && 0 <= i < at(b, p).children@.len() implies {
            &&& has(b, #[trigger] at(b, p).children@[i])
            &&& at(b, at(b, p).children@[i]).parent == Some(p)
        } by {
        assert(has(a, p));
        let c = at(a, p).children@[i];
        assert(has(a, c));
    }
    assert forall|c: usize| has(b, c) && (#[trigger] at(b, c).parent) is Some implies {
        &&& has(b, at(b, c).parent->Some_0)
        &&& at(b, at(b, c).parent->Some_0).children@.contains(c)
    } by {
        assert(has(a, c));
        assert(has(a, at(a, c).parent->Some_0));
    }
    assert forall|p: usize| has(b, p) implies (#[trigger] at(b, p).children)@.no_duplicates() by {
        assert(has(a, p));
        assert(at(a, p).children@.no_duplicates());
    }
    assert forall|p: usize| has(b, p) implies (#[trigger] at(b, p).parent) != Some(p) by {
        assert(has(a, p));
    }
}

impl TaskManager {
    /// A table holding only the init process, `init_task`, under pid `initproc`.
    pub fn new(initproc: usize, init_task: TaskControlBlock) -> (m: Self)
        requires
            init_task.parent is None,
            init_task.children@.len() == 0,
            init_task.handling_sig_valid(),
            initproc < usize::MAX,
        ensures
            m.wf(),
            m.initproc() == initproc,
            m.current() is None,
            m.ready_queue() == Seq::<usize>::empty(),
            m.tasks().len() == initproc + 1,
            forall|q: usize| q != initproc ==> !(#[trigger] m.has_task(q)),
            m.task(initproc) == init_task,
            forall|q: usize| #[trigger] m.registered(q) == (q == initproc),
    {
        let mut tasks: Vec<Option<TaskControlBlock>> = Vec::new();
        let mut i: usize = 0;
        while i < initproc
            invariant
                i <= initproc,
                tasks@.len() == i,
                forall|j: int| 0 <= j < i ==> #[trigger] tasks@[j] is None,
            decreases initproc - i,
        {
            tasks.push(None);
            i = i + 1;
        }
        tasks.push(Some(init_task));
        let mut pid2task: Vec<bool> = Vec::new();
        let mut k: usize = 0;
        while k < initproc
            invariant
                k <= initproc,
                pid2task@.len() == k,
                forall|j: int| 0 <= j < k ==> !#[trigger] pid2task@[j],
            decreases initproc - k,
        {
            pid2task.push(false);
            k = k + 1;
        }
        pid2task.push(true);
        let m = TaskManager { tasks, pid2task, ready_queue: Vec::new(), current: None, initproc };
        proof {
            assert(forall|q: usize| q != initproc ==> !m.has_task(q));
            assert forall|q: usize| #[trigger] m.registered(q) == (q == initproc) by {}
        }
        m
    }

    /// The pid of the running task, if any.
    pub fn current_pid(&self) -> (r: Option<usize>)
        ensures
            r == self.current(),
    {
        self.current
    }

    /// The task that pid `pid` names, if the index lists it.
    pub fn pid2task(&self, pid: usize) -> (r: Option<&TaskControlBlock>)
        requires
            self.wf(),
        ensures
            self.registered(pid) ==> r == Some(&self.task(pid)),
            !self.registered(pid) ==> r is None,
    {
        if pid < self.pid2task.len() && self.pid2task[pid] {
            proof {
                assert(self.pid_index()[pid as int]);
                assert(has(self.tasks(), pid));
            }
            match &self.tasks[pid] {
                Some(t) => Some(t),
                None => None,
            }
        } else {
            None
        }
    }

    /// Whether the index lists `pid`.
    pub fn is_registered(&self, pid: usize) -> (r: bool)
        ensures
            r == self.registered(pid),
    {
        pid < self.pid2task.len() && self.pid2task[pid]
    }

    /// The pid of the init process.
    pub fn initproc_pid(&self) -> (r: usize)
        ensures
            r == self.initproc(),
    {
        self.initproc
    }

    /// The control block of `pid`, whether or not the index still lists
    /// it: an exited task's block stays for its parent to read.
    pub fn get_task(&self, pid: usize) -> (r: Option<&TaskControlBlock>)
        ensures
            self.has_task(pid) ==> r == Some(&self.task(pid)),
            !self.has_task(pid) ==> r is None,
    {
        if pid < self.tasks.len() {
            match &self.tasks[pid] {
                Some(t) => Some(t),
                None => None,
            }
        } else {
            None
        }
    }

    /// Records the saved user registers of task `pid`.
    pub fn set_trap_cx(&mut self, pid: usize, cx: TrapContext)
        requires
            old(self).wf(),
            old(self).has_task(pid),
        ensures
            final(self).wf(),
            final(self).current() == old(self).current(),
            final(self).ready_queue() == old(self).ready_queue(),
            final(self).initproc() == old(self).initproc(),
            final(self).pid_index() == old(self).pid_index(),
            TaskManager::same_except(old(self).tasks(), final(self).tasks(), set![pid]),
            final(self).has_task(pid),
            final(self).task(pid) == (TaskControlBlock { trap_cx: cx, ..old(self).task(pid) }),
    {
        match &mut self.tasks[pid] {
            Some(t) => {
                t.trap_cx = cx;
            },
            None => {},
        }
        proof {
            lemma_changed_one(old(self).tasks@, self.tasks@, pid, old(self).ready_queue@);
        }
    }

    /// The pids of the ready tasks, front of the queue first.
    pub fn ready_pids(&self) -> (r: &[usize])
        ensures
            r@ == self.ready_queue(),
    {
        self.ready_queue.as_slice()
    }

    /// Puts a task at the back of the ready queue.
    pub fn add_task(&mut self, pid: usize)
        requires
            old(self).wf(),
            old(self).has_task(pid),
        ensures
            final(self).wf(),
            final(self).ready_queue() == old(self).ready_queue().push(pid),
            final(self).tasks() == old(self).tasks(),
            final(self).current() == old(self).current(),
            final(self).initproc() == old(self).initproc(),
            final(self).pid_index() == old(self).pid_index(),
    {
        self.ready_queue.push(pid);
        proof {
            lemma_queue_push(self.tasks@, old(self).ready_queue@, pid);
        }
    }

    /// Registers `task` under the fresh pid `pid` as the newest child of
    /// `parent`, and queues it.
    pub fn add_child_task(&mut self, parent: usize, pid: usize, task: TaskControlBlock)
        requires
            old(self).wf(),
            old(self).has_task(parent),
            !old(self).has_task(pid),
            pid < usize::MAX,
            task.parent == Some(parent),
            task.children@.len() == 0,
            task.handling_sig_valid(),
        ensures
            final(self).wf(),
            final(self).has_task(pid),
            final(self).task(pid) == task,
            final(self).task(parent).children@ == old(self).task(parent).children@.push(pid),
            final(self).ready_queue() == old(self).ready_queue().push(pid),
            final(self).current() == old(self).current(),
            final(self).initproc() == old(self).initproc(),
            forall|q: usize| q != pid && q != parent ==> (#[trigger] final(self).has_task(q)) == old(self).has_task(q)
                && (old(self).has_task(q) ==> final(self).task(q) == old(self).task(q)),
            final(self).task(parent) == (TaskControlBlock {
                children: final(self).task(parent).children,
                ..old(self).task(parent)
            }),
            final(self).tasks().len() == (if old(self).tasks().len() > pid { old(self).tasks().len() as int } else { pid + 1 }),
            final(self).registered(pid),
            forall|q: usize| q != pid ==> #[trigger] final(self).registered(q) == old(self).registered(q),
    {
        let ghost old_tasks = self.tasks@;
        while self.tasks.len() <= pid
            invariant
                self.tasks@.len() <= pid + 1 || self.tasks@ == old_tasks,
                self.tasks@.len() >= old_tasks.len(),
                forall|j: int| 0 <= j < old_tasks.len() ==> #[trigger] self.tasks@[j] == old_tasks[j],
                forall|j: int| old_tasks.len() <= j < self.tasks@.len() ==> #[trigger] self.tasks@[j] is None,
                self.ready_queue@ == old(self).ready_queue@,
                self.current == old(self).current,
                self.initproc == old(self).initproc,
                self.pid2task@ == old(self).pid2task@,
                old_tasks == old(self).tasks@,
            decreases pid + 1 - self.tasks@.len(),
        {
            self.tasks.push(None);
        }
        let ghost grown = self.tasks@;
        self.tasks.set(pid, Some(task));
        match &mut self.tasks[parent] {
            Some(pt) => {
                pt.children.push(pid);
            },
            None => {},
        }
        self.ready_queue.push(pid);
        let ghost old_index = self.pid2task@;
        let ghost tasks_now = self.tasks@;
        let ghost queue_now = self.ready_queue@;
        while self.pid2task.len() <= pid
            invariant
                self.tasks@ == tasks_now,
                self.ready_queue@ == queue_now,
                self.current == old(self).current,
                self.initproc == old(self).initproc,
                self.pid2task@.len() <= pid + 1 || self.pid2task@ == old_index,
                self.pid2task@.len() >= old_index.len(),
                forall|j: int| 0 <= j < old_index.len() ==> #[trigger] self.pid2task@[j] == old_index[j],
                forall|j: int| old_index.len() <= j < self.pid2task@.len() ==> !#[trigger] self.pid2task@[j],
            decreases pid + 1 - self.pid2task@.len(),
        {
            self.pid2task.push(false);
        }
        self.pid2task.set(pid, true);
        proof {
            let a = old_tasks;
            let b = self.tasks@;
            assert forall|q: usize| q != pid implies #[trigger] self.registered(q) == old(self).registered(q) by {
                if q < old_index.len() {
                    assert(self.pid2task@[q as int] == old_index[q as int]);
                } else if q < self.pid2task@.len() {
                    assert(!self.pid2task@[q as int]);
                }
            }
            assert(b.len() == grown.len());
            assert forall|q: usize| q != pid && q != parent implies #[trigger] has(b, q) == has(a, q)
                && (has(a, q) ==> at(b, q) == at(a, q)) by {
                if q < a.len() {
                    assert(b[q as int] == a[q as int]);
                } else if q < b.len() {
                    assert(grown[q as int] is None);
                }
            }
            assert(has(b, pid) && at(b, pid) == task);
            assert(has(b, parent) && at(b, parent).children@ == at(a, parent).children@.push(pid));
            assert(at(b, parent).parent == at(a, parent).parent);
            assert forall|p: usize, i: int|
                has(b, p) && 0 <= i < at(b, p).children@.len() implies {
                    &&& has(b, #[trigger] at(b, p).children@[i])
                    &&& at(b, at(b, p).children@[i]).parent == Some(p)
                } by {
                if p == parent {
                    if i < at(a, parent).children@.len() {
                        let c = at(a, p).children@[i];
                        assert(at(b, p).children@[i] == c);
                        assert(has(a, c));
                        assert(at(a, c).parent == Some(p));
                    }
                } else if p != pid {
                    assert(has(a, p));
                    let c = at(a, p).children@[i];
                    assert(has(a, c));
                    assert(at(a, c).parent == Some(p));
                }
            }
            assert forall|c: usize| has(b, c) && (#[trigger] at(b, c).parent) is Some implies {
                &&& has(b, at(b, c).parent->Some_0)
                &&& at(b, at(b, c).parent->Some_0).children@.contains(c)
            } by {
                if c == pid {
                    assert(at(b, parent).children@[at(b, parent).children@.len() - 1] == pid);
                } else {
                    assert(has(a, c));
                    let q = at(a, c).parent->Some_0;
                    assert(at(b, c).parent == at(a, c).parent);
                    assert(has(a, q));
                    assert(at(a, q).children@.contains(c));
                    if q == parent {
                        let k = choose|k: int| 0 <= k < at(a, q).children@.len() && at(a, q).children@[k] == c;
                        assert(at(b, q).children@[k] == c);
                    }
                }
            }
            assert forall|p: usize| has(b, p) implies (#[trigger] at(b, p).children)@.no_duplicates() by {
                if p == parent {
                    let s = at(b, p).children@;
                    assert forall|i: int, j: int| 0 <= i < s.len() && 0 <= j < s.len() && i != j implies s[i] != s[j] by {
                        if i == s.len() - 1 {
                            assert(has(a, s[j]));
                        } else if j == s.len() - 1 {
                            assert(has(a, s[i]));
                        } else {
                            assert(at(a, p).children@.no_duplicates());
                        }
                    }
                } else if p != pid {
                    assert(has(a, p));
                }
            }
            assert forall|p: usize| has(b, p) implies (#[trigger] at(b, p).parent) != Some(p) by {
                if p != pid {
                    assert(has(a, p));
                }
            }
            assert forall|p: usize| has(b, p) implies #[trigger] at(b, p).handling_sig_valid() by {
                if p != pid {
                    assert(has(a, p));
                }
            }
            assert forall|i: int| 0 <= i < self.ready_queue@.len() implies has(b, #[trigger] self.ready_queue@[i]) by {
                if i < old(self).ready_queue@.len() {
                    assert(has(a, old(self).ready_queue@[i]));
                }
            }
            assert forall|q: usize| q < self.pid2task@.len() && self.pid2task@[q as int] implies has(b, q) by {
                assert(self.registered(q));
                if q != pid {
                    assert(old(self).registered(q));
                    assert(has(a, q));
                }
            }
        }
    }

    /// Makes the task at the front of the ready queue the running one.
    pub fn run_next(&mut self) -> (r: Option<usize>)
        requires
            old(self).wf(),
            old(self).current() is None,
        ensures
            final(self).wf(),
            final(self).initproc() == old(self).initproc(),
            final(self).pid_index() == old(self).pid_index(),
            old(self).ready_queue().len() == 0 ==> r is None && final(self).current() is None
                && final(self).tasks() == old(self).tasks() && final(self).ready_queue() == old(self).ready_queue(),
            old(self).ready_queue().len() > 0 ==> {
                &&& r == Some(old(self).ready_queue()[0])
                &&& final(self).current() == r
                &&& final(self).ready_queue() == old(self).ready_queue().drop_first()
                &&& TaskManager::same_except(old(self).tasks(), final(self).tasks(), set![r.unwrap()])
                &&& final(self).task(r.unwrap()) == (TaskControlBlock {
                    task_status: TaskStatus::Running,
                    ..old(self).task(r.unwrap())
                })
            },
    {
        if self.ready_queue.len() == 0 {
            return None;
        }
        let pid = self.ready_queue.remove(0);
        match &mut self.tasks[pid] {
            Some(t) => {
                t.task_status = TaskStatus::Running;
            },
            None => {},
        }
        self.current = Some(pid);
        proof {
            lemma_changed_one(old(self).tasks@, self.tasks@, pid, old(self).ready_queue@);
            assert(self.ready_queue@ =~= old(self).ready_queue@.drop_first());
            assert forall|i: int| 0 <= i < self.ready_queue@.len() implies has(self.tasks@, #[trigger] self.ready_queue@[i]) by {
                assert(self.ready_queue@[i] == old(self).ready_queue@[i + 1]);
            }
        }
        Some(pid)
    }
}

/// Stops the running task and queues it again; the caller then switches to
/// the next task. Returns the pid of the task stopped.
pub fn suspend_current_and_run_next(manager: &mut TaskManager) -> (pid: usize)
    requires
        old(manager).wf(),
        old(manager).current() is Some,
    ensures
        old(manager).current() == Some(pid),
        final(manager).wf(),
        final(manager).current() is None,
        final(manager).ready_queue() == old(manager).ready_queue().push(pid),
        final(manager).initproc() == old(manager).initproc(),
        final(manager).pid_index() == old(manager).pid_index(),
        TaskManager::same_except(old(manager).tasks(), final(manager).tasks(), set![pid]),
        final(manager).has_task(pid),
        final(manager).task(pid) == (TaskControlBlock { task_status: TaskStatus::Ready, ..old(manager).task(pid) }),
{
    let pid = manager.current.take().unwrap();
    match &mut manager.tasks[pid] {
        Some(t) => {
            t.task_status = TaskStatus::Ready;
        },
        None => {},
    }
    manager.ready_queue.push(pid);
    proof {
        lemma_changed_one(old(manager).tasks@, manager.tasks@, pid, old(manager).ready_queue@);
        lemma_queue_push(manager.tasks@, old(manager).ready_queue@, pid);
    }
    pid
}

/// Raises `signal` for the running task.
pub fn current_add_signal(manager: &mut TaskManager, signal: SignalFlags)
    requires
        old(manager).wf(),
        old(manager).current() is Some,
    ensures
        final(manager).wf(),
        final(manager).current() == old(manager).current(),
        final(manager).ready_queue() == old(manager).ready_queue(),
        final(manager).initproc() == old(manager).initproc(),
        final(manager).pid_index() == old(manager).pid_index(),
        TaskManager::same_except(old(manager).tasks(), final(manager).tasks(), set![old(manager).current()->Some_0]),
        ({
            let pid = old(manager).current()->Some_0;
            final(manager).task(pid) == (TaskControlBlock {
                signals: SignalFlags { bits: old(manager).task(pid).signals.bits | signal.bits },
                ..old(manager).task(pid)
            })
        }),
{
    let pid = manager.current.unwrap();
    match &mut manager.tasks[pid] {
        Some(t) => {
            t.signals.insert(signal);
        },
        None => {},
    }
    proof {
        lemma_changed_one(old(manager).tasks@, manager.tasks@, pid, old(manager).ready_queue@);
    }
}

/// The exit code and message of the first fatal signal pending for the
/// running task.
pub fn check_signals_error_of_current(manager: &TaskManager) -> (r: Option<(i32, &'static str)>)
    requires
        manager.wf(),
        manager.current() is Some,
    ensures
        r == manager.task(manager.current()->Some_0).signals.error_of(),
{
    let pid = manager.current.unwrap();
    match &manager.tasks[pid] {
        Some(t) => t.signals.check_error(),
        None => None,
    }
}

/// One round of signal handling for the running task; returns whether the
/// task is frozen and not killed, in which case the caller suspends it and
/// runs the round again once it is back.
pub fn handle_signals(manager: &mut TaskManager) -> (must_suspend: bool)
    requires
        old(manager).wf(),
        old(manager).current() is Some,
    ensures
        final(manager).wf(),
        final(manager).current() == old(manager).current(),
        final(manager).ready_queue() == old(manager).ready_queue(),
        final(manager).initproc() == old(manager).initproc(),
        final(manager).pid_index() == old(manager).pid_index(),
        ({
            let pid = old(manager).current()->Some_0;
            &&& TaskManager::same_except(old(manager).tasks(), final(manager).tasks(), set![pid])
            &&& final(manager).has_task(pid)
            &&& checked(old(manager).task(pid), final(manager).task(pid))
            &&& must_suspend == (final(manager).task(pid).frozen && !final(manager).task(pid).killed)
        }),
{
    let pid = manager.current.unwrap();
    let ghost before = manager.task(pid);
    let mut r = false;
    match &mut manager.tasks[pid] {
        Some(t) => {
            check_pending_signals(t);
            r = t.frozen && !t.killed;
        },
        None => {},
    }
    proof {
        lemma_check_signals_keeps(before, manager.task(pid), 0);
        lemma_pending_from_keeps(before, 0, 0);
        lemma_changed_one(old(manager).tasks@, manager.tasks@, pid, old(manager).ready_queue@);
    }
    r
}

// ---------------------------------------------------------------- exit

/// Table `b` is `a` after task `pid` exited with `exit_code`: it is a
/// zombie without children, its children were handed to `init` (each with
/// `init` as its parent, appended in order to `init`'s children), and
/// nothing else changed.
pub open spec fn exited(a: Seq<Option<TaskControlBlock>>, b: Seq<Option<TaskControlBlock>>, pid: usize, init: usize, exit_code: i32) -> bool {
    let kids = at(a, pid).children@;
    &&& b.len() == a.len()
    &&& forall|q: usize| #[trigger] has(b, q) == has(a, q)
    &&& at(b, pid) == (TaskControlBlock {
        task_status: TaskStatus::Zombie,
        exit_code: exit_code,
        children: at(b, pid).children,
        ..at(a, pid)
    })
    &&& at(b, pid).children@.len() == 0
    &&& at(b, init) == (TaskControlBlock { children: at(b, init).children, ..at(a, init) })
    &&& at(b, init).children@ == at(a, init).children@ + kids
    &&& forall|j: int| 0 <= j < kids.len() ==> at(b, #[trigger] kids[j]) == (TaskControlBlock {
        parent: Some(init),
        ..at(a, kids[j])
    })
    &&& forall|q: usize| #![trigger b[q as int]] q < a.len() && q != pid && q != init && !kids.contains(q) ==> b[q as int] == a[q as int]
}

proof fn lemma_exit_keeps_wf(a: Seq<Option<TaskControlBlock>>, b: Seq<Option<TaskControlBlock>>, pid: usize, init: usize, exit_code: i32, rq: Seq<usize>)
    requires
        tree_ok(a),
        sigs_ok(a),
        queue_ok(a, rq),
        has(a, pid),
        has(a, init),
        at(a, init).parent is None,
        pid != init,
        exited(a, b, pid, init, exit_code),
    ensures
        tree_ok(b),
        sigs_ok(b),
        queue_ok(b, rq),
        at(b, init).parent is None,
{
    let kids = at(a, pid).children@;
    // Facts on the children of the exiting task.
    assert forall|j: int| 0 <= j < kids.len() implies has(a, #[trigger] kids[j]) && at(a, kids[j]).parent == Some(pid) by {
        assert(at(a, pid).children@[j] == kids[j]);
    }
    assert(!kids.contains(init)) by {
        if kids.contains(init) {
            let j = choose|j: int| 0 <= j < kids.len() && kids[j] == init;
            assert(at(a, kids[j]).parent == Some(pid));
        }
    }
    assert(!kids.contains(pid)) by {
        if kids.contains(pid) {
            let j = choose|j: int| 0 <= j < kids.len() && kids[j] == pid;
            assert(at(a, kids[j]).parent == Some(pid));
        }
    }
    // A task whose parent is not `pid` is not one of the children.
    assert forall|c: usize| has(a, c) && at(a, c).parent != Some(pid) implies !(#[trigger] kids.contains(c)) by {
        if kids.contains(c) {
            let j = choose|j: int| 0 <= j < kids.len() && kids[j] == c;
            assert(at(a, kids[j]).parent == Some(pid));
        }
    }
    // Parents only change for the children.
    assert forall|c: usize| has(a, c) && !kids.contains(c) implies #[trigger] at(b, c).parent == at(a, c).parent by {
        if c != pid && c != init {
            assert(b[c as int] == a[c as int]);
        }
    }
    assert forall|c: usize| has(a, c) && kids.contains(c) implies #[trigger] at(b, c).parent == Some(init) by {
        let j = choose|j: int| 0 <= j < kids.len() && kids[j] == c;
        assert(at(b, kids[j]).parent == Some(init));
    }
    // Child lists only change for `pid` and `init`.
    assert forall|p: usize| has(a, p) && p != pid && p != init implies #[trigger] at(b, p).children@ == at(a, p).children@ by {
        if kids.contains(p) {
            let j = choose|j: int| 0 <= j < kids.len() && kids[j] == p;
            assert(at(b, kids[j]) == (TaskControlBlock { parent: Some(init), ..at(a, kids[j]) }));
        } else {
            assert(b[p as int] == a[p as int]);
        }
    }
    let ic = at(a, init).children@;
    assert forall|p: usize, i: int|
        has(b, p) && 0 <= i < at(b, p).children@.len() implies {
            &&& has(b, #[trigger] at(b, p).children@[i])
            &&& at(b, at(b, p).children@[i]).parent == Some(p)
        } by {
        assert(has(a, p));
        if p == init {
            if i < ic.len() {
                let c = ic[i];
                assert(at(b, p).children@[i] == c);
                assert(has(a, c) && at(a, c).parent == Some(init));
                assert(!kids.contains(c));
            } else {
                let c = kids[i - ic.len()];
                assert(at(b, p).children@[i] == c);
                assert(kids.contains(c));
            }
        } else if p != pid {
            let c = at(a, p).children@[i];
            assert(at(b, p).children@[i] == c);
            assert(has(a, c) && at(a, c).parent == Some(p));
            assert(!kids.contains(c));
        }
    }
    assert forall|c: usize| has(b, c) && (#[trigger] at(b, c).parent) is Some implies {
        &&& has(b, at(b, c).parent->Some_0)
        &&& at(b, at(b, c).parent->Some_0).children@.contains(c)
    } by {
        assert(has(a, c));
        if kids.contains(c) {
            let j = choose|j: int| 0 <= j < kids.len() && kids[j] == c;
            assert(at(b, init).children@[ic.len() + j] == c);
        } else {
            let q = at(a, c).parent->Some_0;
            assert(has(a, q) && at(a, q).children@.contains(c));
            if q == pid {
                assert(kids.contains(c));
            } else if q == init {
                let k = choose|k: int| 0 <= k < ic.len() && ic[k] == c;
                assert(at(b, init).children@[k] == c);
            }
        }
    }
    assert forall|p: usize| has(b, p) implies (#[trigger] at(b, p).children)@.no_duplicates() by {
        assert(has(a, p));
        if p == init {
            let s = at(b, p).children@;
            assert(ic.no_duplicates());
            assert(kids.no_duplicates());
            assert forall|i: int, j: int| 0 <= i < s.len() && 0 <= j < s.len() && i != j implies s[i] != s[j] by {
                if i < ic.len() && j >= ic.len() {
                    assert(s[i] == ic[i]);
                    assert(at(a, ic[i]).parent == Some(init));
                    assert(s[j] == kids[j - ic.len()]);
                    assert(at(a, kids[j - ic.len()]).parent == Some(pid));
                } else if j < ic.len() && i >= ic.len() {
                    assert(s[j] == ic[j]);
                    assert(at(a, ic[j]).parent == Some(init));
                    assert(s[i] == kids[i - ic.len()]);
                    assert(at(a, kids[i - ic.len()]).parent == Some(pid));
                } else if i < ic.len() {
                    assert(s[i] == ic[i] && s[j] == ic[j]);
                } else {
                    assert(s[i] == kids[i - ic.len()] && s[j] == kids[j - ic.len()]);
                }
            }
        }
    }
    assert forall|p: usize| has(b, p) implies (#[trigger] at(b, p).parent) != Some(p) by {
        assert(has(a, p));
    }
    assert forall|p: usize| has(b, p) implies #[trigger] at(b, p).handling_sig_valid() by {
        assert(has(a, p));
        if p == pid {
            assert(at(b, p).handling_sig == at(a, p).handling_sig);
        } else if p == init {
            assert(at(b, p).handling_sig == at(a, p).handling_sig);
        } else if kids.contains(p) {
            let j = choose|j: int| 0 <= j < kids.len() && kids[j] == p;
            assert(at(b, kids[j]) == (TaskControlBlock { parent: Some(init), ..at(a, kids[j]) }));
        } else if p != pid && p != init {
            assert(b[p as int] == a[p as int]);
        }
    }
    assert forall|i: int| 0 <= i < rq.len() implies has(b, #[trigger] rq[i]) by {
        assert(has(a, rq[i]));
    }
}

/// A task that exits keeps its exit code as a zombie without children, and
/// each of its former children is adopted by the init process: its parent
/// is the init process, and it is among the init process's children.
pub proof fn lemma_exit_adopts_children(a: Seq<Option<TaskControlBlock>>, b: Seq<Option<TaskControlBlock>>, pid: usize, init: usize, exit_code: i32)
    requires
        exited(a, b, pid, init, exit_code),
    ensures
        at(b, pid).task_status == TaskStatus::Zombie,
        at(b, pid).exit_code == exit_code,
        at(b, pid).children@.len() == 0,
        forall|j: int| 0 <= j < at(a, pid).children@.len() ==> {
            &&& at(b, #[trigger] at(a, pid).children@[j]).parent == Some(init)
            &&& at(b, init).children@.contains(at(a, pid).children@[j])
        },
{
    let kids = at(a, pid).children@;
    let ic = at(a, init).children@;
    assert forall|j: int| 0 <= j < kids.len() implies {
        &&& at(b, #[trigger] kids[j]).parent == Some(init)
        &&& at(b, init).children@.contains(kids[j])
    } by {
        assert(at(b, kids[j]) == (TaskControlBlock { parent: Some(init), ..at(a, kids[j]) }));
        assert(at(b, init).children@[ic.len() + j] == kids[j]);
    }
}

/// Ends the running task with `exit_code`: it becomes a zombie that lookup
/// by pid no longer finds, and the init process adopts its children.
/// Returns the pid of the task; the caller then switches to the next task.
pub fn exit_current_and_run_next(manager: &mut TaskManager, exit_code: i32) -> (pid: usize)
    requires
        old(manager).wf(),
        old(manager).current() matches Some(p) && p != old(manager).initproc(),
    ensures
        old(manager).current() == Some(pid),
        final(manager).wf(),
        final(manager).current() is None,
        final(manager).ready_queue() == old(manager).ready_queue(),
        final(manager).initproc() == old(manager).initproc(),
        exited(old(manager).tasks(), final(manager).tasks(), pid, old(manager).initproc(), exit_code),
        !final(manager).registered(pid),
        forall|q: usize| q != pid ==> #[trigger] final(manager).registered(q) == old(manager).registered(q),
{
    let pid = manager.current.take().unwrap();
    let init = manager.initproc;
    let ghost a = manager.tasks@;
    let mut kids: Vec<usize> = Vec::new();
    match &mut manager.tasks[pid] {
        Some(t) => {
            t.task_status = TaskStatus::Zombie;
            t.exit_code = exit_code;
            core::mem::swap(&mut kids, &mut t.children);
        },
        None => {},
    }
    let ghost mid = manager.tasks@;
    proof {
        let ks = at(a, pid).children@;
        assert(kids@ == ks);
        assert forall|j: int| 0 <= j < ks.len() implies has(a, #[trigger] ks[j]) && at(a, ks[j]).parent == Some(pid) by {
            assert(at(a, pid).children@[j] == ks[j]);
        }
        assert(!ks.contains(init)) by {
            if ks.contains(init) {
                let j = choose|j: int| 0 <= j < ks.len() && ks[j] == init;
            }
        }
        assert(!ks.contains(pid)) by {
            if ks.contains(pid) {
                let j = choose|j: int| 0 <= j < ks.len() && ks[j] == pid;
            }
        }
        assert(ks.no_duplicates());
    }
    let mut i: usize = 0;
    while i < kids.len()
        invariant
            manager.initproc == init,
            manager.current is None,
            manager.ready_queue@ == old(manager).ready_queue@,
            manager.pid2task@ == old(manager).pid2task@,
            manager.tasks@.len() == a.len(),
            kids@ == at(a, pid).children@,
            kids@.no_duplicates(),
            !kids@.contains(init),
            !kids@.contains(pid),
            forall|j: int| 0 <= j < kids@.len() ==> has(a, #[trigger] kids@[j]),
            has(a, init),
            has(a, pid),
            pid != init,
            i <= kids@.len(),
            mid.len() == a.len(),
            forall|q: usize| q < a.len() && q != pid ==> #[trigger] mid[q as int] == a[q as int],
            has(mid, pid),
            at(mid, pid) == (TaskControlBlock {
                task_status: TaskStatus::Zombie,
                exit_code: exit_code,
                children: at(mid, pid).children,
                ..at(a, pid)
            }),
            at(mid, pid).children@.len() == 0,
            forall|q: usize| #[trigger] has(manager.tasks@, q) == has(a, q),
            forall|q: usize| #![trigger manager.tasks@[q as int]]
                q < a.len() && q != init && !kids@.subrange(0, i as int).contains(q) ==> manager.tasks@[q as int] == mid[q as int],
            forall|j: int| 0 <= j < i ==> at(manager.tasks@, #[trigger] kids@[j]) == (TaskControlBlock {
                parent: Some(init),
                ..at(a, kids@[j])
            }),
            at(manager.tasks@, init) == (TaskControlBlock { children: at(manager.tasks@, init).children, ..at(a, init) }),
            at(manager.tasks@, init).children@ == at(a, init).children@ + kids@.subrange(0, i as int),
        decreases kids@.len() - i,
    {
        let c = kids[i];
        let ghost before = manager.tasks@;
        proof {
            assert(!kids@.subrange(0, i as int).contains(c)) by {
                if kids@.subrange(0, i as int).contains(c) {
                    let k = choose|k: int| 0 <= k < i && kids@.subrange(0, i as int)[k] == c;
                    assert(kids@[k] == kids@[i as int]);
                }
            }
            assert(has(a, c));
            assert(c != init);
            assert(c != pid) by {
                assert(kids@[i as int] == c);
            }
            assert(before[c as int] == mid[c as int]);
        }
        match &mut manager.tasks[c] {
            Some(ct) => {
                ct.parent = Some(init);
            },
            None => {},
        }
        let ghost between = manager.tasks@;
        assert(has(before, init));
        assert(between[init as int] == before[init as int]);
        match &mut manager.tasks[init] {
            Some(it) => {
                it.children.push(c);
            },
            None => {},
        }
        proof {
            let now = manager.tasks@;
            assert(kids@.subrange(0, i + 1) == kids@.subrange(0, i as int).push(c));
            assert forall|q: usize| #[trigger] has(now, q) == has(a, q) by {
                assert(has(before, q) == has(a, q));
            }
            assert forall|q: usize| q < a.len() && q != init && !kids@.subrange(0, i + 1).contains(q)
                implies #[trigger] now[q as int] == mid[q as int] by {
                assert(q != c) by {
                    assert(kids@.subrange(0, i + 1)[i as int] == c);
                }
                assert(!kids@.subrange(0, i as int).contains(q)) by {
                    if kids@.subrange(0, i as int).contains(q) {
                        let k = choose|k: int| 0 <= k < i && kids@.subrange(0, i as int)[k] == q;
                        assert(kids@.subrange(0, i + 1)[k] == q);
                    }
                }
            }
            assert forall|j: int| 0 <= j < i + 1 implies at(now, #[trigger] kids@[j]) == (TaskControlBlock {
                parent: Some(init),
                ..at(a, kids@[j])
            }) by {
                if j < i {
                    assert(kids@[j] != c) by {
                        assert(kids@.no_duplicates());
                    }
                    assert(kids@[j] != init);
                    assert(at(before, kids@[j]) == (TaskControlBlock { parent: Some(init), ..at(a, kids@[j]) }));
                }
            }
            assert(at(before, init).children@ == at(a, init).children@ + kids@.subrange(0, i as int));
            assert(at(now, init).children@ == at(between, init).children@.push(c));
            assert(at(now, init).children@ =~= at(a, init).children@ + kids@.subrange(0, i + 1));
        }
        i = i + 1;
    }
    proof {
        let b = manager.tasks@;
        let ks = at(a, pid).children@;
        assert(kids@.subrange(0, kids@.len() as int) =~= ks);
        assert(at(b, pid) == at(mid, pid)) by {
            assert(b[pid as int] == mid[pid as int]);
        }
        assert forall|q: usize| q < a.len() && q != pid && q != init && !ks.contains(q) implies #[trigger] b[q as int] == a[q as int] by {
            assert(b[q as int] == mid[q as int]);
        }
        assert(exited(a, b, pid, init, exit_code));
        lemma_exit_keeps_wf(a, b, pid, init, exit_code, old(manager).ready_queue@);
    }
    if pid < manager.pid2task.len() {
        manager.pid2task.set(pid, false);
    }
    proof {
        let b = manager.tasks@;
        assert forall|q: usize| q != pid implies #[trigger] manager.registered(q) == old(manager).registered(q) by {
            if q < manager.pid2task@.len() {
                assert(manager.pid2task@[q as int] == old(manager).pid2task@[q as int]);
            }
        }
        assert forall|q: usize| q < manager.pid2task@.len() && manager.pid2task@[q as int] implies has(b, q) by {
            assert(manager.registered(q));
            assert(old(manager).registered(q));
            assert(has(a, q));
        }
    }
    pid
}

} // verus!
