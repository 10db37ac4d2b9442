use rcore_os::config::{KERNEL_STACK_SIZE, PAGE_SIZE, TRAMPOLINE};
use rcore_os::mm::address::PhysPageNum;
use rcore_os::task::action::SignalActions;
use rcore_os::task::context::TaskContext;
use rcore_os::task::manager::{
    check_signals_error_of_current, current_add_signal, exit_current_and_run_next,
    handle_signals, suspend_current_and_run_next, TaskManager,
};
use rcore_os::task::signal::{SignalFlags, SIGCONT, SIGSEGV, SIGSTOP};
use rcore_os::task::task::{TaskControlBlock, TaskStatus};
use rcore_os::trap::context::TrapContext;

fn tcb(parent: Option<usize>) -> TaskControlBlock {
    TaskControlBlock {
        task_status: TaskStatus::Ready,
        task_cx: TaskContext::zero_init(),
        trap_cx_ppn: PhysPageNum(0),
        base_size: 0,
        exit_code: 0,
        parent,
        children: Vec::new(),
        signals: SignalFlags::empty(),
        signal_mask: SignalFlags::empty(),
        handling_sig: -1,
        signal_actions: SignalActions::default(),
        killed: false,
        frozen: false,
        trap_ctx_backup: None,
        trap_cx: TrapContext { x: [0; 32], sstatus: 0, sepc: 0, kernel_satp: 0, kernel_sp: 0, trap_handler: 0 },
    }
}

/// Init process 0 with child 1, which has children 2 and 3.
fn family() -> TaskManager {
    let mut m = TaskManager::new(0, tcb(None));
    m.add_child_task(0, 1, tcb(Some(0)));
    m.add_child_task(1, 2, tcb(Some(1)));
    m.add_child_task(1, 3, tcb(Some(1)));
    m
}

#[test]
fn new_table_holds_only_init() {
    let m = TaskManager::new(2, tcb(None));
    assert!(m.get_task(2).is_some());
    assert!(m.get_task(0).is_none());
    assert!(m.get_task(5).is_none());
    assert_eq!(m.current_pid(), None);
    assert!(m.ready_pids().is_empty());
}

#[test]
fn children_are_linked_and_queued() {
    let m = family();
    assert_eq!(m.get_task(1).unwrap().children, vec![2, 3]);
    assert_eq!(m.get_task(2).unwrap().parent, Some(1));
    assert_eq!(m.ready_pids(), &[1, 2, 3]);
}

#[test]
fn run_next_takes_the_front_of_the_queue() {
    let mut m = family();
    assert_eq!(m.run_next(), Some(1));
    assert_eq!(m.current_pid(), Some(1));
    assert_eq!(m.get_task(1).unwrap().task_status, TaskStatus::Running);
    assert_eq!(m.ready_pids(), &[2, 3]);
}

#[test]
fn suspend_requeues_the_running_task() {
    let mut m = family();
    m.run_next();
    assert_eq!(suspend_current_and_run_next(&mut m), 1);
    assert_eq!(m.current_pid(), None);
    assert_eq!(m.get_task(1).unwrap().task_status, TaskStatus::Ready);
    assert_eq!(m.ready_pids(), &[2, 3, 1]);
    assert_eq!(m.run_next(), Some(2));
}

#[test]
fn exit_hands_children_to_init() {
    let mut m = family();
    m.run_next();
    assert_eq!(exit_current_and_run_next(&mut m, 7), 1);
    let t = m.get_task(1).unwrap();
    assert_eq!(t.task_status, TaskStatus::Zombie);
    assert_eq!(t.exit_code, 7);
    assert!(t.children.is_empty());
    assert_eq!(t.parent, Some(0));
    assert_eq!(m.get_task(0).unwrap().children, vec![1, 2, 3]);
    assert_eq!(m.get_task(2).unwrap().parent, Some(0));
    assert_eq!(m.get_task(3).unwrap().parent, Some(0));
    assert_eq!(m.current_pid(), None);
    assert_eq!(m.ready_pids(), &[2, 3]);
}

#[test]
fn exit_of_a_childless_task() {
    let mut m = family();
    m.run_next();
    suspend_current_and_run_next(&mut m);
    assert_eq!(m.run_next(), Some(2));
    assert_eq!(exit_current_and_run_next(&mut m, -1), 2);
    assert_eq!(m.get_task(2).unwrap().exit_code, -1);
    assert_eq!(m.get_task(0).unwrap().children, vec![1]);
    assert_eq!(m.get_task(1).unwrap().children, vec![2, 3]);
}

#[test]
fn stop_and_continue_through_the_running_task() {
    let mut m = family();
    m.run_next();
    current_add_signal(&mut m, SignalFlags { bits: SIGSTOP });
    assert!(handle_signals(&mut m));
    assert!(m.get_task(1).unwrap().frozen);
    current_add_signal(&mut m, SignalFlags { bits: SIGCONT });
    assert!(!handle_signals(&mut m));
    assert!(!m.get_task(1).unwrap().frozen);
}

#[test]
fn fatal_signal_of_running_task() {
    let mut m = family();
    m.run_next();
    assert_eq!(check_signals_error_of_current(&m), None);
    current_add_signal(&mut m, SignalFlags { bits: SIGSEGV });
    assert_eq!(check_signals_error_of_current(&m), Some((-11, "Segmentation Fault, SIGSEGV=11")));
}

#[test]
fn raising_a_signal_keeps_the_pending_ones() {
    let mut m = family();
    m.run_next();
    current_add_signal(&mut m, SignalFlags { bits: SIGSTOP });
    current_add_signal(&mut m, SignalFlags { bits: SIGSEGV });
    let t = m.get_task(1).unwrap();
    assert!(t.signals.contains(SignalFlags { bits: SIGSTOP }));
    assert!(t.signals.contains(SignalFlags { bits: SIGSEGV }));
}

#[test]
fn new_control_block_is_ready_to_enter_user_space() {
    let t = TaskControlBlock::new(1, PhysPageNum(0x80400), 0x1_0000, 0x1000, 0x8000_0000_0008_0200, 0x8020_2000, 0x8020_3000, 0x20);
    let top = TRAMPOLINE - (KERNEL_STACK_SIZE + PAGE_SIZE);
    assert_eq!(t.task_status, TaskStatus::Ready);
    assert_eq!((t.task_cx.ra, t.task_cx.sp), (0x8020_3000, top));
    assert_eq!(t.trap_cx_ppn, PhysPageNum(0x80400));
    assert_eq!(t.base_size, 0x1_0000);
    assert_eq!(t.trap_cx.sepc, 0x1000);
    assert_eq!(t.trap_cx.x[2], 0x1_0000);
    assert_eq!(t.trap_cx.x.iter().filter(|r| **r != 0).count(), 1);
    assert_eq!(t.trap_cx.kernel_sp, top);
    assert_eq!(t.trap_cx.kernel_satp, 0x8000_0000_0008_0200);
    assert_eq!(t.trap_cx.trap_handler, 0x8020_2000);
    assert_eq!(t.trap_cx.sstatus, 0x20);
    assert_eq!(t.handling_sig, -1);
    assert!(t.children.is_empty() && t.parent.is_none());
}

#[test]
fn exited_task_is_no_longer_found_by_pid() {
    let mut m = family();
    assert!(m.pid2task(1).is_some());
    assert!(m.is_registered(2));
    m.run_next();
    exit_current_and_run_next(&mut m, 4);
    assert!(m.pid2task(1).is_none());
    assert!(!m.is_registered(1));
    assert_eq!(m.get_task(1).unwrap().exit_code, 4);
    assert!(m.pid2task(0).is_some());
    assert!(m.pid2task(2).is_some());
    assert!(m.pid2task(3).is_some());
    assert!(m.pid2task(9).is_none());
    assert_eq!(m.initproc_pid(), 0);
}

#[test]
fn only_init_is_registered_at_first() {
    let m = TaskManager::new(3, tcb(None));
    assert!(m.is_registered(3));
    assert!(!m.is_registered(0));
    assert!(!m.is_registered(4));
}
