use os_core::user::console::{getchar, print};
use os_core::user::lib::{
    close, dup, exec, exit, fork, get_time, getpid, kill, mutex_blocking_create, mutex_create,
    mutex_lock, mutex_unlock, open, pipe, read, semaphore_create, semaphore_down, semaphore_up,
    sigaction, sigprocmask, sigreturn, sleep, thread_create, wait, waitpid, waittid, yield_, OpenFlags, SignalFlags, UserStep, WaitState,
};
use os_core::user::syscall::{sys_waitpid, syscall, to_word, SyscallRequest};

fn request(id: u64, a0: u64, a1: u64, a2: u64) -> SyscallRequest {
    SyscallRequest { id, args: [a0, a1, a2] }
}

#[test]
fn requests_carry_the_number_and_the_arguments() {
    assert_eq!(syscall(5, [1, 2, 3]), request(5, 1, 2, 3));
    assert_eq!(dup(3), request(24, 3, 0, 0));
    assert_eq!(open(0x1000, OpenFlags::from_bits(0x201).unwrap()), request(56, 0x1000, 0x201, 0));
    assert_eq!(close(4), request(57, 4, 0, 0));
    assert_eq!(pipe(0x2000), request(59, 0x2000, 0, 0));
    assert_eq!(read(0, 0x3000, 16), request(63, 0, 0x3000, 16));
    assert_eq!(os_core::user::lib::write(1, 0x3000, 16), request(64, 1, 0x3000, 16));
    assert_eq!(exit(-1), request(93, u64::MAX, 0, 0));
    assert_eq!(yield_(), request(124, 0, 0, 0));
    assert_eq!(kill(2, 10), request(129, 2, 10, 0));
    assert_eq!(sigaction(10, 0x100, 0x200), request(134, 10, 0x100, 0x200));
    assert_eq!(sigprocmask(5), request(135, 5, 0, 0));
    assert_eq!(sigreturn(), request(139, 0, 0, 0));
    assert_eq!(get_time(), request(169, 0, 0, 0));
    assert_eq!(getpid(), request(172, 0, 0, 0));
    assert_eq!(fork(), request(220, 0, 0, 0));
    assert_eq!(exec(0x100, 0x200), request(221, 0x100, 0x200, 0));
    assert_eq!(sys_waitpid(-1, 0x300), request(260, u64::MAX, 0x300, 0));
    assert_eq!(thread_create(0x400, 7), request(1000, 0x400, 7, 0));
    assert_eq!(mutex_create(), request(1010, 0, 0, 0));
    assert_eq!(mutex_blocking_create(), request(1010, 1, 0, 0));
    assert_eq!(mutex_lock(2), request(1011, 2, 0, 0));
    assert_eq!(mutex_unlock(2), request(1012, 2, 0, 0));
    assert_eq!(semaphore_create(8), request(1020, 8, 0, 0));
    assert_eq!(semaphore_up(1), request(1021, 1, 0, 0));
    assert_eq!(semaphore_down(1), request(1022, 1, 0, 0));
    assert_eq!(print(0x500, 12), request(64, 1, 0x500, 12));
    assert_eq!(getchar(0x600), request(63, 0, 0x600, 1));
    assert_eq!(to_word(-2), u64::MAX - 1);
    assert_eq!(to_word(7), 7);
}

#[test]
fn waiting_yields_until_the_child_has_ended() {
    assert_eq!(wait(0x10, WaitState::Start), UserStep::Call(request(260, u64::MAX, 0x10, 0)));
    assert_eq!(wait(0x10, WaitState::Answered(-2)), UserStep::Call(request(124, 0, 0, 0)));
    assert_eq!(wait(0x10, WaitState::Yielded), UserStep::Call(request(260, u64::MAX, 0x10, 0)));
    assert_eq!(wait(0x10, WaitState::Answered(3)), UserStep::Done(3));
    assert_eq!(wait(0x10, WaitState::Answered(-1)), UserStep::Done(-1));
    assert_eq!(waitpid(3, 0x10, WaitState::Start), UserStep::Call(request(260, 3, 0x10, 0)));
    assert_eq!(waitpid(3, 0x10, WaitState::Answered(-2)), UserStep::Call(request(124, 0, 0, 0)));
    assert_eq!(waitpid(3, 0x10, WaitState::Answered(3)), UserStep::Done(3));
    assert_eq!(waittid(2, WaitState::Start), UserStep::Call(request(1002, 2, 0, 0)));
    assert_eq!(waittid(2, WaitState::Answered(-2)), UserStep::Call(request(124, 0, 0, 0)));
    assert_eq!(waittid(2, WaitState::Answered(0)), UserStep::Done(0));
}

#[test]
fn sleep_lasts_for_the_period() {
    assert!(sleep(100, 1000, 1000));
    assert!(sleep(100, 1000, 1099));
    assert!(!sleep(100, 1000, 1100));
    assert!(!sleep(0, 5, 5));
}

#[test]
fn user_flags() {
    let f = OpenFlags::from_bits(0x200).unwrap().union(OpenFlags::from_bits(1).unwrap());
    assert_eq!(f.bits, 0x201);
    assert!(f.contains(OpenFlags::from_bits(1).unwrap()));
    assert!(!f.is_empty());
    assert_eq!(f.read_write(), (false, true));
    assert_eq!(SignalFlags::to_bit_digit(SignalFlags { bits: 1 << 10 }), 10);
    assert_eq!(SignalFlags::log_2(1), 0);
    assert_eq!(SignalFlags::log_2(0x8000_0000), 31);
    assert_eq!(SignalFlags::log_2(12), 3);
}
