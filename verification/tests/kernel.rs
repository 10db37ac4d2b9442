use rcore_os::config::{CLOCK_FREQ, TRAMPOLINE};
use rcore_os::syscall::{is_supported, syscall, SyscallRequest};
use rcore_os::task::context::TaskContext;
use rcore_os::timer::{get_time_us, set_next_trigger, sys_get_time, TimeVal};
use rcore_os::trap::context::TrapContext;
use rcore_os::trap::{complete_syscall, trap_handler, trap_return_target, TrapAction, TrapCause};

fn cx() -> TrapContext {
    let mut x = [0usize; 32];
    x[10] = 1;
    x[11] = 2;
    x[12] = 3;
    x[17] = 64;
    TrapContext { x, sstatus: 0, sepc: 0x100, kernel_satp: 0, kernel_sp: 0, trap_handler: 0 }
}

#[test]
fn syscalls_decode() {
    assert_eq!(syscall(64, [1, 0x1000, 5]), SyscallRequest::Write { fd: 1, buf: 0x1000, len: 5 });
    assert_eq!(syscall(93, [3, 0, 0]), SyscallRequest::Exit { exit_code: 3 });
    assert_eq!(syscall(93, [usize::MAX, 0, 0]), SyscallRequest::Exit { exit_code: -1 });
    assert_eq!(syscall(124, [0, 0, 0]), SyscallRequest::Yield);
    assert_eq!(syscall(169, [0x2000, 0, 0]), SyscallRequest::GetTime { ts: 0x2000, tz: 0 });
}

#[test]
fn ecall_becomes_a_syscall_past_the_instruction() {
    let mut c = cx();
    match trap_handler(&mut c, TrapCause::UserEnvCall) {
        TrapAction::Syscall { id, args } => {
            assert_eq!(id, 64);
            assert_eq!(args, [1, 2, 3]);
        },
        _ => panic!("expected a system call"),
    }
    assert_eq!(c.sepc, 0x104);
    complete_syscall(&mut c, -5);
    assert_eq!(c.x[10], (-5isize) as usize);
    assert_eq!(c.x[11], 2);
}

#[test]
fn faults_kill_the_task() {
    for cause in [TrapCause::StoreFault, TrapCause::StorePageFault, TrapCause::LoadFault, TrapCause::LoadPageFault] {
        let mut c = cx();
        assert!(matches!(trap_handler(&mut c, cause), TrapAction::KillPageFault { exit_code: -2 }));
        assert_eq!(c.sepc, 0x100);
    }
    let mut c = cx();
    assert!(matches!(trap_handler(&mut c, TrapCause::IllegalInstruction), TrapAction::KillIllegalInstruction { exit_code: -3 }));
    assert!(matches!(trap_handler(&mut c, TrapCause::SupervisorTimer), TrapAction::Timer));
    assert!(matches!(trap_handler(&mut c, TrapCause::Other), TrapAction::Unsupported));
}

#[test]
fn restore_address_in_trampoline() {
    assert_eq!(trap_return_target(0x8020_0000, 0x8020_0090), TRAMPOLINE + 0x90);
}

#[test]
fn timer_arithmetic() {
    assert_eq!(set_next_trigger(1000), 1000 + CLOCK_FREQ / 100);
    assert_eq!(set_next_trigger(0), 125_000);
    assert_eq!(get_time_us(CLOCK_FREQ), 1_000_000);
    assert_eq!(get_time_us(25), 2);
    assert_eq!(sys_get_time(3_500_007), TimeVal { sec: 3, usec: 500_007 });
    assert_eq!(sys_get_time(999_999), TimeVal { sec: 0, usec: 999_999 });
}

#[test]
fn task_contexts() {
    let z = TaskContext::zero_init();
    assert_eq!((z.ra, z.sp, z.s), (0, 0, [0; 12]));
    let g = TaskContext::goto_trap_return(0x9000, 0x8020_1000);
    assert_eq!((g.ra, g.sp, g.s), (0x8020_1000, 0x9000, [0; 12]));
}

#[test]
fn supported_syscalls() {
    for id in [64usize, 93, 124, 169] {
        assert!(is_supported(id));
    }
    assert!(!is_supported(63));
    assert!(!is_supported(0));
}
