use rcore_os::mm::address::PhysPageNum;
use rcore_os::task::action::{SignalAction, SignalActions};
use rcore_os::task::context::TaskContext;
use rcore_os::task::manager::{
    call_kernel_signal_handler, call_user_signal_handler, check_pending_signals,
};
use rcore_os::task::signal::{
    SignalFlags, SIGABRT, SIGCONT, SIGDEF, SIGINT, SIGKILL, SIGSEGV, SIGSTOP, SIGUSR1, SIGUSR2,
};
use rcore_os::task::task::{TaskControlBlock, TaskStatus};
use rcore_os::trap::context::TrapContext;

fn trap_cx() -> TrapContext {
    let mut x = [0usize; 32];
    for (i, r) in x.iter_mut().enumerate() {
        *r = 100 + i;
    }
    TrapContext { x, sstatus: 0, sepc: 0x1000, kernel_satp: 0, kernel_sp: 0, trap_handler: 0 }
}

fn task_with(signals: u32) -> TaskControlBlock {
    TaskControlBlock {
        task_status: TaskStatus::Running,
        task_cx: TaskContext::zero_init(),
        trap_cx_ppn: PhysPageNum(0),
        base_size: 0,
        exit_code: 0,
        parent: None,
        children: Vec::new(),
        signals: SignalFlags { bits: signals },
        signal_mask: SignalFlags::empty(),
        handling_sig: -1,
        signal_actions: SignalActions::default(),
        killed: false,
        frozen: false,
        trap_ctx_backup: None,
        trap_cx: trap_cx(),
    }
}

#[test]
fn signal_flags_set_operations() {
    let mut f = SignalFlags::from_bits(SIGINT | SIGKILL).unwrap();
    assert!(f.contains(SignalFlags { bits: SIGINT }));
    assert!(!f.contains(SignalFlags { bits: SIGSTOP }));
    f.insert(SignalFlags { bits: SIGSTOP });
    assert!(f.contains(SignalFlags { bits: SIGSTOP | SIGKILL }));
    f.toggle(SignalFlags { bits: SIGKILL });
    assert_eq!(f.bits(), SIGINT | SIGSTOP);
    assert_eq!(SignalFlags::empty().bits(), 0);
}

#[test]
fn check_error_reports_first_fatal_signal() {
    assert_eq!(SignalFlags { bits: SIGINT }.check_error(), Some((-2, "Killed, SIGINT=2")));
    assert_eq!(SignalFlags { bits: SIGSEGV }.check_error(), Some((-11, "Segmentation Fault, SIGSEGV=11")));
    assert_eq!(SignalFlags { bits: SIGABRT | SIGSEGV }.check_error(), Some((-6, "Aborted, SIGABRT=6")));
    assert_eq!(SignalFlags { bits: SIGINT | SIGSEGV }.check_error().unwrap().0, -2);
    assert_eq!(SignalFlags { bits: SIGUSR1 }.check_error(), None);
}

#[test]
fn default_actions() {
    let a = SignalAction::default();
    assert_eq!(a.handler, 0);
    assert_eq!(a.mask.bits, 40);
    let t = SignalActions::default();
    assert_eq!(t.table.len(), 32);
    assert!(t.table.iter().all(|x| x.handler == 0 && x.mask.bits == 40));
}

#[test]
fn sigkill_kills_and_stays_pending() {
    let mut t = task_with(SIGKILL);
    check_pending_signals(&mut t);
    assert!(t.killed);
    assert!(t.signals.contains(SignalFlags { bits: SIGKILL }));
}

#[test]
fn sigdef_kills() {
    let mut t = task_with(SIGDEF);
    check_pending_signals(&mut t);
    assert!(t.killed);
}

#[test]
fn sigstop_freezes_and_sigcont_thaws() {
    let mut t = task_with(SIGSTOP);
    check_pending_signals(&mut t);
    assert!(t.frozen);
    assert!(!t.killed);
    assert_eq!(t.signals.bits, 0);
    t.signals.insert(SignalFlags { bits: SIGCONT });
    check_pending_signals(&mut t);
    assert!(!t.frozen);
    assert_eq!(t.signals.bits, 0);
}

#[test]
fn kernel_handler_direct() {
    let mut t = task_with(0);
    call_kernel_signal_handler(&mut t, SignalFlags { bits: SIGCONT });
    assert_eq!(t.signals.bits, 0);
    assert!(!t.frozen);
    call_kernel_signal_handler(&mut t, SignalFlags { bits: SIGKILL });
    assert!(t.killed);
}

#[test]
fn user_handler_is_entered_with_signal_number() {
    let mut t = task_with(SIGUSR1);
    t.signal_actions.table[10].handler = 0x4000;
    let before = t.trap_cx;
    check_pending_signals(&mut t);
    assert_eq!(t.handling_sig, 10);
    assert_eq!(t.signals.bits, 0);
    assert_eq!(t.trap_cx.sepc, 0x4000);
    assert_eq!(t.trap_cx.x[10], 10);
    assert_eq!(t.trap_cx.x[11], before.x[11]);
    assert_eq!(t.trap_ctx_backup.unwrap().sepc, before.sepc);
    assert_eq!(t.trap_ctx_backup.unwrap().x, before.x);
}

#[test]
fn user_signal_without_handler_stays_pending() {
    let mut t = task_with(SIGUSR1);
    check_pending_signals(&mut t);
    assert_eq!(t.signals.bits, SIGUSR1);
    assert_eq!(t.handling_sig, -1);
    assert_eq!(t.trap_cx.sepc, 0x1000);
    assert!(t.trap_ctx_backup.is_none());
    let mut u = task_with(SIGUSR1);
    assert!(!call_user_signal_handler(&mut u, 10, SignalFlags { bits: SIGUSR1 }));
}

#[test]
fn masked_signal_is_not_delivered() {
    let mut t = task_with(SIGKILL | SIGUSR1);
    t.signal_mask = SignalFlags { bits: SIGKILL | SIGUSR1 };
    t.signal_actions.table[10].handler = 0x4000;
    check_pending_signals(&mut t);
    assert!(!t.killed);
    assert_eq!(t.signals.bits, SIGKILL | SIGUSR1);
    assert_eq!(t.handling_sig, -1);
}

#[test]
fn signal_held_by_running_handler_waits() {
    let mut t = task_with(SIGUSR2);
    t.handling_sig = 10;
    t.signal_actions.table[10].mask = SignalFlags { bits: SIGUSR2 };
    t.signal_actions.table[12].handler = 0x5000;
    check_pending_signals(&mut t);
    assert_eq!(t.handling_sig, 10);
    assert_eq!(t.signals.bits, SIGUSR2);
    t.signal_actions.table[10].mask = SignalFlags::empty();
    check_pending_signals(&mut t);
    assert_eq!(t.handling_sig, 12);
    assert_eq!(t.trap_cx.sepc, 0x5000);
}

#[test]
fn lower_user_signal_stops_the_scan() {
    let mut t = task_with(SIGINT | SIGKILL);
    t.signal_actions.table[2].handler = 0x6000;
    check_pending_signals(&mut t);
    assert_eq!(t.handling_sig, 2);
    assert!(!t.killed);
    assert_eq!(t.signals.bits, SIGKILL);
    check_pending_signals(&mut t);
    assert!(t.killed);
}
