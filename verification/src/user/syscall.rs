//! The system calls as a program makes them: the number of the call and
//! three arguments, which the program hands to the kernel in registers.
//!
//! The functions here build the request. Making the call is the caller's:
//! it puts the number in register `a7` and the arguments in `a0` to `a2`,
//! traps into the kernel, and finds the result in `a0`. Where the kernel is
//! handed memory of the program, the request holds its address.
use vstd::prelude::*;

verus! {

/// Number of the call to duplicate a file descriptor.
pub const SYSCALL_DUP: u64 = 24;

/// Number of the call to open a file.
pub const SYSCALL_OPEN: u64 = 56;

/// Number of the call to close a file descriptor.
pub const SYSCALL_CLOSE: u64 = 57;

/// Number of the call to make a pipe.
pub const SYSCALL_PIPE: u64 = 59;

/// Number of the call to read from a file descriptor.
pub const SYSCALL_READ: u64 = 63;

/// Number of the call to write to a file descriptor.
pub const SYSCALL_WRITE: u64 = 64;

/// Number of the call to end the thread.
pub const SYSCALL_EXIT: u64 = 93;

/// Number of the call to give up the processor.
pub const SYSCALL_YIELD: u64 = 124;

/// Number of the call to send a signal.
pub const SYSCALL_KILL: u64 = 129;

/// Number of the call to set the action of a signal.
pub const SYSCALL_SIGACTION: u64 = 134;

/// Number of the call to set the mask of blocked signals.
pub const SYSCALL_SIGPROCMASK: u64 = 135;

/// Number of the call to return from a signal handler.
pub const SYSCALL_SIGRETURN: u64 = 139;

/// Number of the call to read the time in milliseconds.
pub const SYSCALL_GET_TIME: u64 = 169;

/// Number of the call to get the number of the process.
pub const SYSCALL_GETPID: u64 = 172;

/// Number of the call to copy the process.
pub const SYSCALL_FORK: u64 = 220;

/// Number of the call to run a program in the process.
pub const SYSCALL_EXEC: u64 = 221;

/// Number of the call to wait for a child process.
pub const SYSCALL_WAITPID: u64 = 260;

/// Number of the call to make a thread.
pub const SYSCALL_THREAD_CREATE: u64 = 1000;

/// Number of the call to wait for a thread.
pub const SYSCALL_WAITTID: u64 = 1002;

/// Number of the call to make a mutex.
pub const SYSCALL_MUTEX_CREATE: u64 = 1010;

/// Number of the call to lock a mutex.
pub const SYSCALL_MUTEX_LOCK: u64 = 1011;

/// Number of the call to unlock a mutex.
pub const SYSCALL_MUTEX_UNLOCK: u64 = 1012;

/// Number of the call to make a semaphore.
pub const SYSCALL_SEMAPHORE_CREATE: u64 = 1020;

/// Number of the call to raise a semaphore.
pub const SYSCALL_SEMAPHORE_UP: u64 = 1021;

/// Number of the call to lower a semaphore.
pub const SYSCALL_SEMAPHORE_DOWN: u64 = 1022;

/// Number of the call to make a condition variable.
pub const SYSCALL_CONDVAR_CREATE: u64 = 1030;

/// Number of the call to signal a condition variable.
pub const SYSCALL_CONDVAR_SIGNAL: u64 = 1031;

/// Number of the call to wait on a condition variable.
pub const SYSCALL_CONDVAR_WAIT: u64 = 1032;

/// Number of the call to sleep for a time.
pub const SYSCALL_SLEEP: u64 = 101;

/// A system call: its number and its three arguments.
#[derive(Copy, Clone, PartialEq, Eq, Debug)]
pub struct SyscallRequest {
    pub id: u64,
    pub args: [u64; 3],
}

/// Whether a request is the call `id` with the arguments `a0`, `a1`, `a2`.
pub open spec fn is_call(r: SyscallRequest, id: u64, a0: u64, a1: u64, a2: u64) -> bool {
    r.id == id && r.args@ == seq![a0, a1, a2]
}

/// A signed number as the word that holds it in a register.
pub open spec fn word_of(x: int) -> u64 {
    if x >= 0 {
        x as u64
    } else {
        (x + 0x1_0000_0000_0000_0000) as u64
    }
}

/// The word that holds a signed number in a register.
pub fn to_word(x: i64) -> (r: u64)
    ensures
        r == word_of(x as int),
{
    if x >= 0 {
        x as u64
    } else {
        u64::MAX - ((-(x + 1)) as u64)
    }
}

/// The request for call `id` with the given arguments.
pub fn syscall(id: u64, args: [u64; 3]) -> (r: SyscallRequest)
    ensures
        r.id == id,
        r.args == args,
{
    SyscallRequest { id, args }
}

/// The request to duplicate file descriptor `fd`.
pub fn sys_dup(fd: usize) -> (r: SyscallRequest)
    ensures
        is_call(r, SYSCALL_DUP, fd as u64, 0, 0),
{
    syscall(SYSCALL_DUP, [fd as u64, 0, 0])
}

/// The request to open the file whose name, ended by a zero byte, lies at address `path`.
pub fn sys_open(path: u64, flags: u32) -> (r: SyscallRequest)
    ensures
        is_call(r, SYSCALL_OPEN, path, flags as u64, 0),
{
    syscall(SYSCALL_OPEN, [path, flags as u64, 0])
}

/// The request to close file descriptor `fd`.
pub fn sys_close(fd: usize) -> (r: SyscallRequest)
    ensures
        is_call(r, SYSCALL_CLOSE, fd as u64, 0, 0),
{
    syscall(SYSCALL_CLOSE, [fd as u64, 0, 0])
}

/// The request to make a pipe and to store its two file descriptors at address `pipe`.
pub fn sys_pipe(pipe: u64) -> (r: SyscallRequest)
    ensures
        is_call(r, SYSCALL_PIPE, pipe, 0, 0),
{
    syscall(SYSCALL_PIPE, [pipe, 0, 0])
}

/// The request to read up to `len` bytes from file descriptor `fd` to address `buffer`.
pub fn sys_read(fd: usize, buffer: u64, len: u64) -> (r: SyscallRequest)
    ensures
        is_call(r, SYSCALL_READ, fd as u64, buffer, len),
{
    syscall(SYSCALL_READ, [fd as u64, buffer, len])
}

/// The request to write the `len` bytes at address `buffer` to file descriptor `fd`.
pub fn sys_write(fd: usize, buffer: u64, len: u64) -> (r: SyscallRequest)
    ensures
        is_call(r, SYSCALL_WRITE, fd as u64, buffer, len),
{
    syscall(SYSCALL_WRITE, [fd as u64, buffer, len])
}

/// The request to end the thread with exit code `xstate`. The call does not return.
pub fn sys_exit(xstate: i32) -> (r: SyscallRequest)
    ensures
        is_call(r, SYSCALL_EXIT, word_of(xstate as int), 0, 0),
{
    syscall(SYSCALL_EXIT, [to_word(xstate as i64), 0, 0])
}

/// The request to give up the processor.
pub fn sys_yield() -> (r: SyscallRequest)
    ensures
        is_call(r, SYSCALL_YIELD, 0, 0, 0),
{
    syscall(SYSCALL_YIELD, [0, 0, 0])
}

/// The request to send signal `signal` to process `pid`.
pub fn sys_kill(pid: usize, signal: i32) -> (r: SyscallRequest)
    ensures
        is_call(r, SYSCALL_KILL, pid as u64, word_of(signal as int), 0),
{
    syscall(SYSCALL_KILL, [pid as u64, to_word(signal as i64), 0])
}

/// The request for the time in milliseconds.
pub fn sys_get_time() -> (r: SyscallRequest)
    ensures
        is_call(r, SYSCALL_GET_TIME, 0, 0, 0),
{
    syscall(SYSCALL_GET_TIME, [0, 0, 0])
}

/// The request for the number of the process.
pub fn sys_getpid() -> (r: SyscallRequest)
    ensures
        is_call(r, SYSCALL_GETPID, 0, 0, 0),
{
    syscall(SYSCALL_GETPID, [0, 0, 0])
}

/// The request to copy the process.
pub fn sys_fork() -> (r: SyscallRequest)
    ensures
        is_call(r, SYSCALL_FORK, 0, 0, 0),
{
    syscall(SYSCALL_FORK, [0, 0, 0])
}

/// The request to run the program whose name lies at address `path` with the arguments whose addresses lie, ended by a zero, at address `args`.
pub fn sys_exec(path: u64, args: u64) -> (r: SyscallRequest)
    ensures
        is_call(r, SYSCALL_EXEC, path, args, 0),
{
    syscall(SYSCALL_EXEC, [path, args, 0])
}

/// The request to wait for child `pid`, or for any child if `pid` is -1, and to store its exit code at address `exit_code`.
pub fn sys_waitpid(pid: i64, exit_code: u64) -> (r: SyscallRequest)
    ensures
        is_call(r, SYSCALL_WAITPID, word_of(pid as int), exit_code, 0),
{
    syscall(SYSCALL_WAITPID, [to_word(pid as i64), exit_code, 0])
}

/// The request to set the action of signal `signum` to the one at address `action` and to store the old one at address `old_action`.
pub fn sys_sigaction(signum: i32, action: u64, old_action: u64) -> (r: SyscallRequest)
    ensures
        is_call(r, SYSCALL_SIGACTION, word_of(signum as int), action, old_action),
{
    syscall(SYSCALL_SIGACTION, [to_word(signum as i64), action, old_action])
}

/// The request to set the mask of blocked signals.
pub fn sys_sigprocmask(mask: u32) -> (r: SyscallRequest)
    ensures
        is_call(r, SYSCALL_SIGPROCMASK, mask as u64, 0, 0),
{
    syscall(SYSCALL_SIGPROCMASK, [mask as u64, 0, 0])
}

/// The request to return from a signal handler.
pub fn sys_sigreturn() -> (r: SyscallRequest)
    ensures
        is_call(r, SYSCALL_SIGRETURN, 0, 0, 0),
{
    syscall(SYSCALL_SIGRETURN, [0, 0, 0])
}

/// The request to make a thread that starts at `entry` with argument `arg`.
pub fn sys_thread_create(entry: u64, arg: u64) -> (r: SyscallRequest)
    ensures
        is_call(r, SYSCALL_THREAD_CREATE, entry, arg, 0),
{
    syscall(SYSCALL_THREAD_CREATE, [entry, arg, 0])
}

/// The request to wait for thread `tid`.
pub fn sys_waittid(tid: usize) -> (r: SyscallRequest)
    ensures
        is_call(r, SYSCALL_WAITTID, tid as u64, 0, 0),
{
    syscall(SYSCALL_WAITTID, [tid as u64, 0, 0])
}

/// The request to make a mutex, a blocking one if `blocking`.
pub fn sys_mutex_create(blocking: bool) -> (r: SyscallRequest)
    ensures
        is_call(r, SYSCALL_MUTEX_CREATE, if blocking { 1u64 } else { 0u64 }, 0, 0),
{
    syscall(SYSCALL_MUTEX_CREATE, [if blocking { 1 } else { 0 }, 0, 0])
}

/// The request to lock mutex `id`.
pub fn sys_mutex_lock(id: usize) -> (r: SyscallRequest)
    ensures
        is_call(r, SYSCALL_MUTEX_LOCK, id as u64, 0, 0),
{
    syscall(SYSCALL_MUTEX_LOCK, [id as u64, 0, 0])
}

/// The request to unlock mutex `id`.
pub fn sys_mutex_unlock(id: usize) -> (r: SyscallRequest)
    ensures
        is_call(r, SYSCALL_MUTEX_UNLOCK, id as u64, 0, 0),
{
    syscall(SYSCALL_MUTEX_UNLOCK, [id as u64, 0, 0])
}

/// The request to make a semaphore that starts at `res_count`.
pub fn sys_semaphore_create(res_count: usize) -> (r: SyscallRequest)
    ensures
        is_call(r, SYSCALL_SEMAPHORE_CREATE, res_count as u64, 0, 0),
{
    syscall(SYSCALL_SEMAPHORE_CREATE, [res_count as u64, 0, 0])
}

/// The request to raise semaphore `sem_id`.
pub fn sys_semaphore_up(sem_id: usize) -> (r: SyscallRequest)
    ensures
        is_call(r, SYSCALL_SEMAPHORE_UP, sem_id as u64, 0, 0),
{
    syscall(SYSCALL_SEMAPHORE_UP, [sem_id as u64, 0, 0])
}

/// The request to lower semaphore `sem_id`.
pub fn sys_semaphore_down(sem_id: usize) -> (r: SyscallRequest)
    ensures
        is_call(r, SYSCALL_SEMAPHORE_DOWN, sem_id as u64, 0, 0),
{
    syscall(SYSCALL_SEMAPHORE_DOWN, [sem_id as u64, 0, 0])
}

} // verus!
