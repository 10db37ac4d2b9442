use rcore_os::config::{KERNEL_STACK_SIZE, PAGE_SIZE, TRAMPOLINE};
use rcore_os::task::pid::{
    can_place_kernel_stack, kernel_stack_position, pid_alloc, KernelStack, PidAllocator, PidHandle,
};

#[test]
fn pids_count_up_from_zero() {
    let mut a = PidAllocator::new();
    assert_eq!(a.allocate().0, 0);
    assert_eq!(a.allocate().0, 1);
    assert_eq!(pid_alloc(&mut a).0, 2);
}

#[test]
fn given_back_pid_is_reused_first() {
    let mut a = PidAllocator::new();
    let _p0 = a.allocate();
    let p1 = a.allocate();
    let _p2 = a.allocate();
    a.dealloc(p1.0);
    assert_eq!(a.allocate().0, 1);
    assert_eq!(a.allocate().0, 3);
}

#[test]
fn kernel_stack_positions() {
    assert_eq!(kernel_stack_position(0), (TRAMPOLINE - KERNEL_STACK_SIZE, TRAMPOLINE));
    let step = KERNEL_STACK_SIZE + PAGE_SIZE;
    assert_eq!(kernel_stack_position(1), (TRAMPOLINE - step - KERNEL_STACK_SIZE, TRAMPOLINE - step));
    assert_eq!(TRAMPOLINE, 0xffff_ffff_ffff_f000);
    assert_eq!(kernel_stack_position(0).0, 0xffff_ffff_ffff_d000);
}

#[test]
fn kernel_stacks_leave_a_guard_page() {
    for a in 0..8usize {
        for b in (a + 1)..8 {
            let (bottom_a, _) = kernel_stack_position(a);
            let (_, top_b) = kernel_stack_position(b);
            assert!(top_b + PAGE_SIZE <= bottom_a);
        }
    }
}

#[test]
fn kernel_stack_top_follows_pid() {
    let s = KernelStack::new(&PidHandle(2));
    assert_eq!(s.get_top(), TRAMPOLINE - 2 * (KERNEL_STACK_SIZE + PAGE_SIZE));
}

#[test]
fn kernel_stack_placement_check() {
    assert!(can_place_kernel_stack(0));
    assert!(can_place_kernel_stack(1000));
    assert!(!can_place_kernel_stack(usize::MAX));
    let most = (TRAMPOLINE - KERNEL_STACK_SIZE) / (KERNEL_STACK_SIZE + PAGE_SIZE);
    assert!(can_place_kernel_stack(most));
    assert!(!can_place_kernel_stack(most + 1));
}
