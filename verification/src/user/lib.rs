//! The library of programs: the calls into the kernel under their usual
//! names, the flags of files and signals, and the steps of the calls that
//! wait.
use vstd::prelude::*;
use super::syscall::{
    is_call, sys_close, sys_dup, sys_exec, sys_exit, sys_fork, sys_get_time, sys_getpid, sys_kill,
    sys_mutex_create, sys_mutex_lock, sys_mutex_unlock, sys_open, sys_pipe, sys_read,
    sys_semaphore_create, sys_semaphore_down, sys_semaphore_up, sys_sigaction, sys_sigprocmask,
    sys_sigreturn, sys_thread_create, sys_waitpid, sys_waittid, sys_write, sys_yield, word_of,
    SyscallRequest, SYSCALL_CLOSE, SYSCALL_DUP, SYSCALL_EXEC, SYSCALL_EXIT, SYSCALL_FORK,
    SYSCALL_GETPID, SYSCALL_GET_TIME, SYSCALL_KILL, SYSCALL_MUTEX_CREATE, SYSCALL_MUTEX_LOCK,
    SYSCALL_MUTEX_UNLOCK, SYSCALL_OPEN, SYSCALL_PIPE, SYSCALL_READ, SYSCALL_SEMAPHORE_CREATE,
    SYSCALL_SEMAPHORE_DOWN, SYSCALL_SEMAPHORE_UP, SYSCALL_SIGACTION, SYSCALL_SIGPROCMASK,
    SYSCALL_SIGRETURN, SYSCALL_THREAD_CREATE, SYSCALL_WAITPID, SYSCALL_WAITTID, SYSCALL_WRITE,
    SYSCALL_YIELD,
};

verus! {

/// Size of the heap of a program in bytes.
pub const USER_HEAP_SIZE: usize = 32768;

/// Open for reading only.
pub const RDONLY: u32 = 0;

/// Open for writing only.
pub const WRONLY: u32 = 1;

/// Open for reading and writing.
pub const RDWR: u32 = 2;

/// Make the file if there is none, and empty it if there is one.
pub const CREATE: u32 = 512;

/// Empty the file.
pub const TRUNC: u32 = 1024;

/// The flags with which a file is opened.
#[derive(Copy, Clone, PartialEq, Eq, Structural, Debug)]
pub struct OpenFlags {
    pub bits: u32,
}

impl OpenFlags {
    /// The flags with the given bits, if each bit is a flag.
    pub fn from_bits(bits: u32) -> (r: Option<Self>)
        ensures
            r == if bits & !1539u32 == 0 {
                Some(OpenFlags { bits })
            } else {
                None
            },
    {
        if bits & !1539u32 == 0 {
            Some(Self { bits })
        } else {
            None
        }
    }

    /// The flags of either.
    pub fn union(self, other: Self) -> (r: Self)
        ensures
            r.bits == self.bits | other.bits,
    {
        Self { bits: self.bits | other.bits }
    }

    /// Whether no flag is set.
    pub fn is_empty(&self) -> (r: bool)
        ensures
            r == (self.bits == 0),
    {
        self.bits == 0
    }

    /// Whether every flag of `other` is set here.
    pub fn contains(&self, other: Self) -> (r: bool)
        ensures
            r == (self.bits & other.bits == other.bits),
    {
        self.bits & other.bits == other.bits
    }

    /// Whether a file opened with these flags can be read and can be
    /// written: read only without a flag, write only with `WRONLY`, both else.
    pub fn read_write(&self) -> (r: (bool, bool))
        ensures
            r == if self.bits == 0 {
                (true, false)
            } else if self.bits & 1 == 1 {
                (false, true)
            } else {
                (true, true)
            },
    {
        if self.is_empty() {
            (true, false)
        } else if self.bits & 1 == 1 {
            (false, true)
        } else {
            (true, true)
        }
    }
}

/// Duplicates file descriptor `fd`; the kernel answers with the new descriptor or -1.
pub fn dup(fd: usize) -> (r: SyscallRequest)
    ensures
        is_call(r, SYSCALL_DUP, fd as u64, 0, 0),
{
    sys_dup(fd)
}

/// Opens the file whose name lies at address `path`; the kernel answers with a file descriptor or -1.
pub fn open(path: u64, flags: OpenFlags) -> (r: SyscallRequest)
    ensures
        is_call(r, SYSCALL_OPEN, path, flags.bits as u64, 0),
{
    sys_open(path, flags.bits)
}

/// Closes file descriptor `fd`; the kernel answers with 0 or -1.
pub fn close(fd: usize) -> (r: SyscallRequest)
    ensures
        is_call(r, SYSCALL_CLOSE, fd as u64, 0, 0),
{
    sys_close(fd)
}

/// Makes a pipe; the kernel stores the descriptors of its read end and its write end at address `pipe_fd`.
pub fn pipe(pipe_fd: u64) -> (r: SyscallRequest)
    ensures
        is_call(r, SYSCALL_PIPE, pipe_fd, 0, 0),
{
    sys_pipe(pipe_fd)
}

/// Reads up to `len` bytes to address `buf`; the kernel answers with their number or -1.
pub fn read(fd: usize, buf: u64, len: u64) -> (r: SyscallRequest)
    ensures
        is_call(r, SYSCALL_READ, fd as u64, buf, len),
{
    sys_read(fd, buf, len)
}

/// Writes the `len` bytes at address `buf`; the kernel answers with the number written or -1.
pub fn write(fd: usize, buf: u64, len: u64) -> (r: SyscallRequest)
    ensures
        is_call(r, SYSCALL_WRITE, fd as u64, buf, len),
{
    sys_write(fd, buf, len)
}

/// Ends the thread with the given exit code.
pub fn exit(exit_code: i32) -> (r: SyscallRequest)
    ensures
        is_call(r, SYSCALL_EXIT, word_of(exit_code as int), 0, 0),
{
    sys_exit(exit_code)
}

/// Gives up the processor.
pub fn yield_() -> (r: SyscallRequest)
    ensures
        is_call(r, SYSCALL_YIELD, 0, 0, 0),
{
    sys_yield()
}

/// Asks for the time in milliseconds.
pub fn get_time() -> (r: SyscallRequest)
    ensures
        is_call(r, SYSCALL_GET_TIME, 0, 0, 0),
{
    sys_get_time()
}

/// Asks for the number of the process.
pub fn getpid() -> (r: SyscallRequest)
    ensures
        is_call(r, SYSCALL_GETPID, 0, 0, 0),
{
    sys_getpid()
}

/// Copies the process; the kernel answers the parent with the child's number and the child with 0.
pub fn fork() -> (r: SyscallRequest)
    ensures
        is_call(r, SYSCALL_FORK, 0, 0, 0),
{
    sys_fork()
}

/// Runs the program whose name lies at address `path`.
pub fn exec(path: u64, args: u64) -> (r: SyscallRequest)
    ensures
        is_call(r, SYSCALL_EXEC, path, args, 0),
{
    sys_exec(path, args)
}

/// Sends signal `signal` to process `pid`.
pub fn kill(pid: usize, signal: i32) -> (r: SyscallRequest)
    ensures
        is_call(r, SYSCALL_KILL, pid as u64, word_of(signal as int), 0),
{
    sys_kill(pid, signal)
}

/// Sets the action of signal `signum`.
pub fn sigaction(signum: i32, action: u64, old_action: u64) -> (r: SyscallRequest)
    ensures
        is_call(r, SYSCALL_SIGACTION, word_of(signum as int), action, old_action),
{
    sys_sigaction(signum, action, old_action)
}

/// Sets the mask of blocked signals; the kernel answers with the old mask.
pub fn sigprocmask(mask: u32) -> (r: SyscallRequest)
    ensures
        is_call(r, SYSCALL_SIGPROCMASK, mask as u64, 0, 0),
{
    sys_sigprocmask(mask)
}

/// Returns from a signal handler.
pub fn sigreturn() -> (r: SyscallRequest)
    ensures
        is_call(r, SYSCALL_SIGRETURN, 0, 0, 0),
{
    sys_sigreturn()
}

/// Makes a thread; the kernel answers with its number.
pub fn thread_create(entry: u64, arg: u64) -> (r: SyscallRequest)
    ensures
        is_call(r, SYSCALL_THREAD_CREATE, entry, arg, 0),
{
    sys_thread_create(entry, arg)
}

/// Makes a mutex on which waiting threads spin.
pub fn mutex_create() -> (r: SyscallRequest)
    ensures
        is_call(r, SYSCALL_MUTEX_CREATE, 0, 0, 0),
{
    sys_mutex_create(false)
}

/// Makes a mutex on which waiting threads block.
pub fn mutex_blocking_create() -> (r: SyscallRequest)
    ensures
        is_call(r, SYSCALL_MUTEX_CREATE, 1, 0, 0),
{
    sys_mutex_create(true)
}

/// Locks mutex `mutex_id`.
pub fn mutex_lock(mutex_id: usize) -> (r: SyscallRequest)
    ensures
        is_call(r, SYSCALL_MUTEX_LOCK, mutex_id as u64, 0, 0),
{
    sys_mutex_lock(mutex_id)
}

/// Unlocks mutex `mutex_id`.
pub fn mutex_unlock(mutex_id: usize) -> (r: SyscallRequest)
    ensures
        is_call(r, SYSCALL_MUTEX_UNLOCK, mutex_id as u64, 0, 0),
{
    sys_mutex_unlock(mutex_id)
}

/// Makes a semaphore that starts at `res_count`.
pub fn semaphore_create(res_count: usize) -> (r: SyscallRequest)
    ensures
        is_call(r, SYSCALL_SEMAPHORE_CREATE, res_count as u64, 0, 0),
{
    sys_semaphore_create(res_count)
}

/// Raises semaphore `sem_id`.
pub fn semaphore_up(sem_id: usize) -> (r: SyscallRequest)
    ensures
        is_call(r, SYSCALL_SEMAPHORE_UP, sem_id as u64, 0, 0),
{
    sys_semaphore_up(sem_id)
}

/// Lowers semaphore `sem_id`.
pub fn semaphore_down(sem_id: usize) -> (r: SyscallRequest)
    ensures
        is_call(r, SYSCALL_SEMAPHORE_DOWN, sem_id as u64, 0, 0),
{
    sys_semaphore_down(sem_id)
}

/// What a program does next while it waits: make a call, or go on with a result.
#[derive(Copy, Clone, PartialEq, Eq, Debug)]
pub enum UserStep {
    Call(SyscallRequest),
    Done(i64),
}

/// Where a call that waits stands: at its start, after the kernel answered
/// the wait with a result, or after the kernel returned from a yield.
#[derive(Copy, Clone, PartialEq, Eq, Structural, Debug)]
pub enum WaitState {
    Start,
    Answered(i64),
    Yielded,
}

/// The next step of waiting for any child: the kernel is asked for a child
/// that has ended until it names one or says that there is none.
pub fn wait(exit_code: u64, state: WaitState) -> (r: UserStep)
    ensures
        match state {
            WaitState::Answered(answer) => if answer == -2 {
                r is Call && is_call(r->Call_0, SYSCALL_YIELD, 0, 0, 0)
            } else {
                r == UserStep::Done(answer)
            },
            _ => r is Call && is_call(r->Call_0, SYSCALL_WAITPID, word_of(-1), exit_code, 0),
        },
{
    match state {
        WaitState::Answered(answer) => {
            if answer == -2 {
                UserStep::Call(yield_())
            } else {
                UserStep::Done(answer)
            }
        },
        _ => UserStep::Call(sys_waitpid(-1, exit_code)),
    }
}

/// The next step of waiting for child `pid`.
pub fn waitpid(pid: usize, exit_code: u64, state: WaitState) -> (r: UserStep)
    requires
        pid <= i64::MAX,
    ensures
        match state {
            WaitState::Answered(answer) => if answer == -2 {
                r is Call && is_call(r->Call_0, SYSCALL_YIELD, 0, 0, 0)
            } else {
                r == UserStep::Done(answer)
            },
            _ => r is Call && is_call(r->Call_0, SYSCALL_WAITPID, pid as u64, exit_code, 0),
        },
{
    match state {
        WaitState::Answered(answer) => {
            if answer == -2 {
                UserStep::Call(yield_())
            } else {
                UserStep::Done(answer)
            }
        },
        _ => UserStep::Call(sys_waitpid(pid as i64, exit_code)),
    }
}

/// The next step of waiting for thread `tid`.
pub fn waittid(tid: usize, state: WaitState) -> (r: UserStep)
    ensures
        match state {
            WaitState::Answered(answer) => if answer == -2 {
                r is Call && is_call(r->Call_0, SYSCALL_YIELD, 0, 0, 0)
            } else {
                r == UserStep::Done(answer)
            },
            _ => r is Call && is_call(r->Call_0, SYSCALL_WAITTID, tid as u64, 0, 0),
        },
{
    match state {
        WaitState::Answered(answer) => {
            if answer == -2 {
                UserStep::Call(yield_())
            } else {
                UserStep::Done(answer)
            }
        },
        _ => UserStep::Call(sys_waittid(tid)),
    }
}

/// Whether a program that began to sleep for `period_ms` milliseconds at
/// time `start` goes on sleeping at time `now`; while it does, it yields
/// and reads the time again.
pub fn sleep(period_ms: usize, start: i64, now: i64) -> (r: bool)
    ensures
        r == (now < start + period_ms),
{
    (now as i128) < (start as i128) + (period_ms as i128)
}

/// What a process does on a signal: the address of the handler, 0 for none,
/// and the signals that are blocked while the handler runs.
#[derive(Copy, Clone, PartialEq, Eq, Structural, Debug)]
pub struct SignalAction {
    pub handler: u64,
    pub mask: SignalFlags,
}

impl Default for SignalAction {
    /// No handler and no signal blocked.
    fn default() -> (r: Self)
        ensures
            r.handler == 0,
            r.mask.bits == 0,
    {
        Self { handler: 0, mask: SignalFlags { bits: 0 } }
    }
}

/// A set of signals: bit `n` stands for signal `n`.
#[derive(Copy, Clone, PartialEq, Eq, Structural, Debug)]
pub struct SignalFlags {
    pub bits: u32,
}

/// Whether `r` is the place of the highest bit that is set in `x`.
pub open spec fn is_highest_bit(x: u32, r: u32) -> bool {
    r < 32 && x >> r == 1
}

impl SignalFlags {
    /// The number of the highest signal in the set, which must not be empty.
    pub fn to_bit_digit(bits: SignalFlags) -> (r: u32)
        requires
            bits.bits != 0,
        ensures
            is_highest_bit(bits.bits, r),
    {
        SignalFlags::log_2(bits.bits)
    }

    /// The place of the highest bit that is set in `x`, which must not be 0.
    pub fn log_2(x: u32) -> (r: u32)
        requires
            x != 0,
        ensures
            is_highest_bit(x, r),
    {
        let mut r: u32 = 31;
        while x >> r == 0
            invariant
                r < 32,
                x != 0,
                forall|k: u32| r < k < 32 ==> x >> k == 0,
            decreases r,
        {
            if r == 0 {
                assert(x >> 0u32 == x) by (bit_vector);
            }
            r -= 1;
        }
        proof {
            let v = x >> r;
            if r < 31 {
                let k = (r + 1) as u32;
                assert(x >> k == 0);
                assert(r < 31 && x >> ((r + 1) as u32) == 0 && x >> r != 0 ==> x >> r == 1)
                    by (bit_vector);
            } else {
                assert(r == 31 && x >> r != 0 ==> x >> r == 1) by (bit_vector);
            }
        }
        r
    }
}

} // verus!
