use rcore_os::user::syscall::{sys_get_time, TimeVal};
use rcore_os::user::{sleep, wait, waitpid};

#[test]
fn sleep_lasts_its_period() {
    assert!(sleep(100, 50, 100));
    assert!(sleep(100, 50, 149));
    assert!(!sleep(100, 50, 150));
    assert!(!sleep(100, 0, 100));
}

#[test]
fn waitpid_retries_only_on_minus_two() {
    assert_eq!(waitpid(-2), None);
    assert_eq!(waitpid(5), Some(5));
    assert_eq!(waitpid(-1), Some(-1));
    assert_eq!(wait(-2), None);
    assert_eq!(wait(-1), Some(-1));
    assert_eq!(wait(3), Some(3));
}

#[test]
fn user_time_in_milliseconds() {
    assert_eq!(sys_get_time(&TimeVal { sec: 2, usec: 345_678 }), 2345);
    assert_eq!(sys_get_time(&TimeVal { sec: 0, usec: 999 }), 0);
}
