//! The task control block: what the kernel knows of each task.
use vstd::prelude::*;

use crate::mm::address::PhysPageNum;
use crate::task::action::{SignalActions, DEFAULT_ACTION_MASK};
use crate::task::context::TaskContext;
use crate::task::pid::{kernel_stack_fits, kernel_stack_position, kernel_stack_top};
use crate::task::signal::{SignalFlags, MAX_SIG};
use crate::trap::context::TrapContext;

verus! {

#[derive(Copy, Clone, PartialEq, Eq, Structural, Debug)]
pub enum TaskStatus {
    UnInit,
    Ready,
    Running,
    Exited,
    Zombie,
}

/// The state of one task, as plain values; tasks refer to each other by pid.
pub struct TaskControlBlock {
    pub task_status: TaskStatus,
    /// Registers kept while the task is switched out.
    pub task_cx: TaskContext,
    /// Frame that holds the task's trap context.
    pub trap_cx_ppn: PhysPageNum,
    /// Size of the user program's memory.
    pub base_size: usize,
    pub exit_code: i32,
    /// Pid of the parent, if any.
    pub parent: Option<usize>,
    /// Pids of the children, in the order they were adopted.
    pub children: Vec<usize>,
    /// Pending signals.
    pub signals: SignalFlags,
    /// Signals the task holds back.
    pub signal_mask: SignalFlags,
    /// Signal whose user handler runs, or -1.
    pub handling_sig: isize,
    pub signal_actions: SignalActions,
    pub killed: bool,
    pub frozen: bool,
    /// Registers saved when a user handler was entered.
    pub trap_ctx_backup: Option<TrapContext>,
    /// The task's trap context, as held in frame `trap_cx_ppn`.
    pub trap_cx: TrapContext,
}

impl TaskControlBlock {
    /// `handling_sig` is -1 or a signal number.
    pub open spec fn handling_sig_valid(&self) -> bool {
        self.handling_sig == -1 || 0 <= self.handling_sig <= MAX_SIG
    }

    /// The control block of application `app_id`, ready to run, given what
    /// loading its program yielded: the frame of its trap context, its user
    /// stack pointer and its entry point. It enters user space at
    /// `entry_point` with `user_sp` as stack pointer and status bits
    /// `sstatus`; its traps go to `trap_handler` on its kernel stack in the
    /// kernel's address space `kernel_satp`; it is first switched to through
    /// `trap_return`.
    pub fn new(
        app_id: usize,
        trap_cx_ppn: PhysPageNum,
        user_sp: usize,
        entry_point: usize,
        kernel_satp: usize,
        trap_handler: usize,
        trap_return: usize,
        sstatus: usize,
    ) -> (t: Self)
        requires
            kernel_stack_fits(app_id),
        ensures
            t.task_status == TaskStatus::Ready,
            t.task_cx.ra == trap_return,
            t.task_cx.sp == kernel_stack_top(app_id),
            forall|i: int| 0 <= i < 12 ==> #[trigger] t.task_cx.s@[i] == 0,
            t.trap_cx_ppn == trap_cx_ppn,
            t.base_size == user_sp,
            t.exit_code == 0,
            t.parent is None,
            t.children@.len() == 0,
            t.signals.bits == 0,
            t.signal_mask.bits == 0,
            t.handling_sig == -1,
            forall|i: int| 0 <= i <= MAX_SIG ==> (#[trigger] t.signal_actions.table@[i]).handler == 0
                && t.signal_actions.table@[i].mask.bits == DEFAULT_ACTION_MASK,
            !t.killed,
            !t.frozen,
            t.trap_ctx_backup is None,
            t.trap_cx.sepc == entry_point,
            t.trap_cx.sstatus == sstatus,
            t.trap_cx.kernel_satp == kernel_satp,
            t.trap_cx.kernel_sp == kernel_stack_top(app_id),
            t.trap_cx.trap_handler == trap_handler,
            forall|i: int| 0 <= i < 32 ==> #[trigger] t.trap_cx.x@[i] == (if i == 2 { user_sp } else { 0 }),
            t.handling_sig_valid(),
    {
        let (_kernel_stack_bottom, kernel_stack_top) = kernel_stack_position(app_id);
        let mut x = [0usize;32];
        x[2] = user_sp;
        let trap_cx = TrapContext {
            x,
            sstatus,
            sepc: entry_point,
            kernel_satp,
            kernel_sp: kernel_stack_top,
            trap_handler,
        };
        TaskControlBlock {
            task_status: TaskStatus::Ready,
            task_cx: TaskContext::goto_trap_return(kernel_stack_top, trap_return),
            trap_cx_ppn,
            base_size: user_sp,
            exit_code: 0,
            parent: None,
            children: Vec::new(),
            signals: SignalFlags::empty(),
            signal_mask: SignalFlags::empty(),
            handling_sig: -1,
            signal_actions: SignalActions::default(),
            killed: false,
            frozen: false,
            trap_ctx_backup: None,
            trap_cx,
        }
    }
}

} // verus!
