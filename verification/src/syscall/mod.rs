//! The system calls as the kernel serves them, and the choice among them
//! by the number of the call.
pub mod fs;
pub mod process;
pub mod sync;
pub mod user_memory;

use vstd::prelude::*;
use crate::easy_fs::block_cache::BlockCacheManager;
use crate::easy_fs::block_dev::BlockDevice;
use crate::easy_fs::efs::EasyFileSystem;
use crate::easy_fs::layout::fs_of;
use crate::kernel::Kernel;
use crate::syscall::fs::pipes_wf;
use crate::task::id::IDLE_PID;
use crate::task::sched::ExitAction;
use crate::user::syscall::{
    SYSCALL_CLOSE, SYSCALL_CONDVAR_CREATE, SYSCALL_CONDVAR_SIGNAL, SYSCALL_CONDVAR_WAIT,
    SYSCALL_DUP, SYSCALL_EXEC, SYSCALL_EXIT, SYSCALL_FORK, SYSCALL_GETPID, SYSCALL_GET_TIME,
    SYSCALL_KILL, SYSCALL_MUTEX_CREATE, SYSCALL_MUTEX_LOCK, SYSCALL_MUTEX_UNLOCK, SYSCALL_OPEN,
    SYSCALL_PIPE, SYSCALL_READ, SYSCALL_SEMAPHORE_CREATE, SYSCALL_SEMAPHORE_DOWN,
    SYSCALL_SEMAPHORE_UP, SYSCALL_SIGACTION, SYSCALL_SIGPROCMASK, SYSCALL_SIGRETURN,
    SYSCALL_SLEEP, SYSCALL_WAITPID, SYSCALL_WRITE, SYSCALL_YIELD,
};

verus! {

/// What has come of a system call.
pub enum Dispatch {
    /// The call is served and gives this number.
    Done(i64),
    /// The running thread has asked to end.
    Exit(ExitAction),
    /// There is no call of that number.
    Unknown,
}

/// Slot `id` of a table, if there is one and it is in use.
pub open spec fn slot_of<T>(table: Seq<Option<T>>, id: u64) -> Option<T> {
    if id < table.len() {
        table[id as int]
    } else {
        None
    }
}

/// Slot `id` of a table; see `slot_of`.
pub fn slot<T>(table: &Vec<Option<T>>, id: u64) -> (r: Option<&T>)
    ensures
        r.is_some() == slot_of(table@, id).is_some(),
        r.is_some() ==> *r.unwrap() == slot_of(table@, id).unwrap() && id <= usize::MAX,
{
    if id as u128 >= table.len() as u128 {
        return None;
    }
    table[#[verifier::truncate] (id as usize)].as_ref()
}

/// What `call_dup` does and gives: the call is served by `sys_dup`,
/// or gives -1 with nothing changed where an argument is out of range.
pub open spec fn dup_call(k0: Kernel, k1: Kernel, fd: u64, out: Dispatch) -> bool {
    if fd <= usize::MAX {
        out is Done && crate::syscall::fs::dup_done(k0, k1, fd as usize, out->Done_0)
    } else {
        out == Dispatch::Done(-1i64) && k1 == k0
    }
}

/// Serves the call that asks for a second descriptor for file descriptor `fd`.
pub fn call_dup(kernel: &mut Kernel, fd: u64) -> (out: Dispatch)
    requires
        old(kernel).wf(),
        old(kernel).running(),
        pipes_wf(*old(kernel)),
    ensures
        final(kernel).wf(),
        pipes_wf(*final(kernel)),
        dup_call(*old(kernel), *final(kernel), fd, out),
{
    if !(fd as u128 <= usize::MAX as u128) {
        return Dispatch::Done(-1);
    }
    Dispatch::Done(crate::syscall::fs::sys_dup(kernel, #[verifier::truncate] (fd as usize)))
}

/// What `call_close` does and gives: the call is served by `sys_close`,
/// or gives -1 with nothing changed where an argument is out of range.
pub open spec fn close_call(k0: Kernel, k1: Kernel, fd: u64, out: Dispatch) -> bool {
    if fd <= usize::MAX {
        out is Done && crate::syscall::fs::close_done(k0, k1, fd as usize, out->Done_0)
    } else {
        out == Dispatch::Done(-1i64) && k1 == k0
    }
}

/// Serves the call that closes file descriptor `fd`.
pub fn call_close(kernel: &mut Kernel, fd: u64) -> (out: Dispatch)
    requires
        old(kernel).wf(),
        old(kernel).running(),
        pipes_wf(*old(kernel)),
    ensures
        final(kernel).wf(),
        pipes_wf(*final(kernel)),
        close_call(*old(kernel), *final(kernel), fd, out),
{
    if !(fd as u128 <= usize::MAX as u128) {
        return Dispatch::Done(-1);
    }
    Dispatch::Done(crate::syscall::fs::sys_close(kernel, #[verifier::truncate] (fd as usize)))
}

/// What `call_pipe` does and gives: the call is served by `sys_pipe`.
pub open spec fn pipe_call(k0: Kernel, k1: Kernel, pipe: u64, out: Dispatch) -> bool {
    out is Done && crate::syscall::fs::pipe_done(k0, k1, pipe, out->Done_0)
}

/// Serves the call that makes a pipe.
pub fn call_pipe(kernel: &mut Kernel, pipe: u64) -> (out: Dispatch)
    requires
        old(kernel).wf(),
        old(kernel).running(),
        pipes_wf(*old(kernel)),
    ensures
        final(kernel).wf(),
        pipes_wf(*final(kernel)),
        pipe_call(*old(kernel), *final(kernel), pipe, out),
{
    Dispatch::Done(crate::syscall::fs::sys_pipe(kernel, pipe))
}

/// What `call_yield` does and gives: the call is served by `sys_yield`.
pub open spec fn yield_call(k0: Kernel, k1: Kernel, out: Dispatch) -> bool {
    out is Done && crate::syscall::process::yield_done(k0, k1, out->Done_0)
}

/// Serves the call by which a thread gives up the processor.
pub fn call_yield(kernel: &mut Kernel) -> (out: Dispatch)
    requires
        old(kernel).wf(),
        old(kernel).running(),
        pipes_wf(*old(kernel)),
    ensures
        final(kernel).wf(),
        pipes_wf(*final(kernel)),
        yield_call(*old(kernel), *final(kernel), out),
{
    Dispatch::Done(crate::syscall::process::sys_yield(kernel))
}

/// What `call_kill` does and gives: the call is served by `sys_kill`,
/// or gives -1 with nothing changed where an argument is out of range.
pub open spec fn kill_call(k0: Kernel, k1: Kernel, pid: u64, signum: u64, out: Dispatch) -> bool {
    if pid <= usize::MAX && signum <= u32::MAX {
        out is Done && crate::syscall::process::kill_done(k0, k1, pid as usize, signum as u32, out->Done_0)
    } else {
        out == Dispatch::Done(-1i64) && k1 == k0
    }
}

/// Serves the call that sends signal `signum` to process `pid`.
pub fn call_kill(kernel: &mut Kernel, pid: u64, signum: u64) -> (out: Dispatch)
    requires
        old(kernel).wf(),
        old(kernel).running(),
        pipes_wf(*old(kernel)),
    ensures
        final(kernel).wf(),
        pipes_wf(*final(kernel)),
        kill_call(*old(kernel), *final(kernel), pid, signum, out),
{
    if !(pid as u128 <= usize::MAX as u128 && signum <= u32::MAX as u64) {
        return Dispatch::Done(-1);
    }
    Dispatch::Done(crate::syscall::process::sys_kill(kernel, #[verifier::truncate] (pid as usize), #[verifier::truncate] (signum as u32)))
}

/// What `call_sigaction` does and gives: the call is served by `sys_sigaction`,
/// or gives -1 with nothing changed where an argument is out of range.
pub open spec fn sigaction_call(k0: Kernel, k1: Kernel, signum: u64, action: u64, old_action: u64, out: Dispatch) -> bool {
    if signum <= i32::MAX {
        out is Done && crate::syscall::process::sigaction_done(k0, k1, signum as i32, action, old_action, out->Done_0)
    } else {
        out == Dispatch::Done(-1i64) && k1 == k0
    }
}

/// Serves the call that sets the action of signal `signum`.
pub fn call_sigaction(kernel: &mut Kernel, signum: u64, action: u64, old_action: u64) -> (out: Dispatch)
    requires
        old(kernel).wf(),
        old(kernel).running(),
        pipes_wf(*old(kernel)),
    ensures
        final(kernel).wf(),
        pipes_wf(*final(kernel)),
        sigaction_call(*old(kernel), *final(kernel), signum, action, old_action, out),
{
    if !(signum <= i32::MAX as u64) {
        return Dispatch::Done(-1);
    }
    Dispatch::Done(crate::syscall::process::sys_sigaction(kernel, #[verifier::truncate] (signum as i32), action, old_action))
}

/// What `call_sigprocmask` does and gives: the call is served by `sys_sigprocmask`,
/// or gives -1 with nothing changed where an argument is out of range.
pub open spec fn sigprocmask_call(k0: Kernel, k1: Kernel, mask: u64, out: Dispatch) -> bool {
    if mask <= u32::MAX {
        out is Done && crate::syscall::process::sigprocmask_done(k0, k1, mask as u32, out->Done_0)
    } else {
        out == Dispatch::Done(-1i64) && k1 == k0
    }
}

/// Serves the call that sets the blocked signals.
pub fn call_sigprocmask(kernel: &mut Kernel, mask: u64) -> (out: Dispatch)
    requires
        old(kernel).wf(),
        old(kernel).running(),
        pipes_wf(*old(kernel)),
    ensures
        final(kernel).wf(),
        pipes_wf(*final(kernel)),
        sigprocmask_call(*old(kernel), *final(kernel), mask, out),
{
    if !(mask <= u32::MAX as u64) {
        return Dispatch::Done(-1);
    }
    Dispatch::Done(crate::syscall::process::sys_sigprocmask(kernel, #[verifier::truncate] (mask as u32)))
}

/// What `call_sigreturn` does and gives: the call is served by `sys_sigreturn`.
pub open spec fn sigreturn_call(k0: Kernel, k1: Kernel, out: Dispatch) -> bool {
    out is Done && crate::syscall::process::sigreturn_done(k0, k1, out->Done_0)
}

/// Serves the call by which a signal handler returns.
pub fn call_sigreturn(kernel: &mut Kernel) -> (out: Dispatch)
    requires
        old(kernel).wf(),
        old(kernel).running(),
        pipes_wf(*old(kernel)),
    ensures
        final(kernel).wf(),
        pipes_wf(*final(kernel)),
        sigreturn_call(*old(kernel), *final(kernel), out),
{
    Dispatch::Done(crate::syscall::process::sys_sigreturn(kernel))
}

/// What `call_waitpid` does and gives: the call is served by `sys_waitpid`.
pub open spec fn waitpid_call(k0: Kernel, k1: Kernel, pid: u64, exit_code_ptr: u64, out: Dispatch) -> bool {
    out is Done && crate::syscall::process::waitpid_done(
        k0,
        k1,
        crate::syscall::process::signed_of(pid),
        exit_code_ptr,
        out->Done_0,
    )
}

/// Serves the call that waits for a child; `pid` is read as a signed number.
pub fn call_waitpid(kernel: &mut Kernel, pid: u64, exit_code_ptr: u64) -> (out: Dispatch)
    requires
        old(kernel).wf(),
        old(kernel).running(),
        pipes_wf(*old(kernel)),
    ensures
        final(kernel).wf(),
        pipes_wf(*final(kernel)),
        waitpid_call(*old(kernel), *final(kernel), pid, exit_code_ptr, out),
{
    Dispatch::Done(
        crate::syscall::process::sys_waitpid(
            kernel,
            crate::syscall::process::to_signed(pid),
            exit_code_ptr,
        ),
    )
}

/// What `call_mutex_create` does and gives: the call is served by `sys_mutex_create`.
pub open spec fn mutex_create_call(k0: Kernel, k1: Kernel, blocking: u64, out: Dispatch) -> bool {
    out is Done && crate::syscall::sync::mutex_create_done(k0, k1, blocking == 1, out->Done_0)
}

/// Serves the call that makes a mutex, of the blocking kind if `blocking` is 1.
pub fn call_mutex_create(kernel: &mut Kernel, blocking: u64) -> (out: Dispatch)
    requires
        old(kernel).wf(),
        old(kernel).running(),
        pipes_wf(*old(kernel)),
    ensures
        final(kernel).wf(),
        pipes_wf(*final(kernel)),
        mutex_create_call(*old(kernel), *final(kernel), blocking, out),
{
    Dispatch::Done(crate::syscall::sync::sys_mutex_create(kernel, blocking == 1))
}

/// What `call_semaphore_create` does and gives: the call is served by `sys_semaphore_create`,
/// or gives -1 with nothing changed where an argument is out of range.
pub open spec fn semaphore_create_call(k0: Kernel, k1: Kernel, res_count: u64, out: Dispatch) -> bool {
    if res_count <= usize::MAX && res_count <= i64::MAX {
        out is Done && crate::syscall::sync::semaphore_create_done(k0, k1, res_count as usize, out->Done_0)
    } else {
        out == Dispatch::Done(-1i64) && k1 == k0
    }
}

/// Serves the call that makes a semaphore that starts at `res_count`.
pub fn call_semaphore_create(kernel: &mut Kernel, res_count: u64) -> (out: Dispatch)
    requires
        old(kernel).wf(),
        old(kernel).running(),
        pipes_wf(*old(kernel)),
    ensures
        final(kernel).wf(),
        pipes_wf(*final(kernel)),
        semaphore_create_call(*old(kernel), *final(kernel), res_count, out),
{
    if !(res_count as u128 <= usize::MAX as u128 && res_count <= i64::MAX as u64) {
        return Dispatch::Done(-1);
    }
    Dispatch::Done(crate::syscall::sync::sys_semaphore_create(kernel, #[verifier::truncate] (res_count as usize)))
}

/// What `call_condvar_create` does and gives: the call is served by `sys_condvar_create`.
pub open spec fn condvar_create_call(k0: Kernel, k1: Kernel, out: Dispatch) -> bool {
    out is Done && crate::syscall::sync::condvar_create_done(k0, k1, 0usize, out->Done_0)
}

/// Serves the call that makes a condition variable.
pub fn call_condvar_create(kernel: &mut Kernel) -> (out: Dispatch)
    requires
        old(kernel).wf(),
        old(kernel).running(),
        pipes_wf(*old(kernel)),
    ensures
        final(kernel).wf(),
        pipes_wf(*final(kernel)),
        condvar_create_call(*old(kernel), *final(kernel), out),
{
    Dispatch::Done(crate::syscall::sync::sys_condvar_create(kernel, 0usize))
}

/// What `call_mutex_lock` does and gives: the call is served by `sys_mutex_lock`,
/// or gives -1 with nothing changed where an argument is out of range.
pub open spec fn mutex_lock_call(k0: Kernel, k1: Kernel, mutex_id: u64, out: Dispatch) -> bool {
    if slot_of(k0.process(k0.current_pid()).mutex_list@, mutex_id).is_some() {
        out is Done && crate::syscall::sync::mutex_lock_done(k0, k1, mutex_id as usize, out->Done_0)
    } else {
        out == Dispatch::Done(-1i64) && k1 == k0
    }
}

/// Serves the call that asks for mutex `mutex_id`.
pub fn call_mutex_lock(kernel: &mut Kernel, mutex_id: u64) -> (out: Dispatch)
    requires
        old(kernel).wf(),
        old(kernel).running(),
        pipes_wf(*old(kernel)),
    ensures
        final(kernel).wf(),
        pipes_wf(*final(kernel)),
        mutex_lock_call(*old(kernel), *final(kernel), mutex_id, out),
{
    let current = crate::task::sched::current_process(kernel);
    let ok = slot(&kernel.processes[current].as_ref().unwrap().mutex_list, mutex_id).is_some();
    if !(ok) {
        return Dispatch::Done(-1);
    }
    Dispatch::Done(crate::syscall::sync::sys_mutex_lock(kernel, #[verifier::truncate] (mutex_id as usize)))
}

/// What `call_mutex_unlock` does and gives: the call is served by `sys_mutex_unlock`,
/// or gives -1 with nothing changed where the process has no such mutex or
/// the mutex is not locked.
pub open spec fn mutex_unlock_call(k0: Kernel, k1: Kernel, mutex_id: u64, out: Dispatch) -> bool {
    if slot_of(k0.process(k0.current_pid()).mutex_list@, mutex_id).is_some() && slot_of(
        k0.process(k0.current_pid()).mutex_list@,
        mutex_id,
    ).unwrap().locked() {
        out is Done && crate::syscall::sync::mutex_unlock_done(k0, k1, mutex_id as usize, out->Done_0)
    } else {
        out == Dispatch::Done(-1i64) && k1 == k0
    }
}

/// Serves the call that gives up mutex `mutex_id`.
pub fn call_mutex_unlock(kernel: &mut Kernel, mutex_id: u64) -> (out: Dispatch)
    requires
        old(kernel).wf(),
        old(kernel).running(),
        pipes_wf(*old(kernel)),
    ensures
        final(kernel).wf(),
        pipes_wf(*final(kernel)),
        mutex_unlock_call(*old(kernel), *final(kernel), mutex_id, out),
{
    let current = crate::task::sched::current_process(kernel);
    let ok = match slot(&kernel.processes[current].as_ref().unwrap().mutex_list, mutex_id) {
        Some(m) => m.is_locked(),
        None => false,
    };
    if !(ok) {
        return Dispatch::Done(-1);
    }
    Dispatch::Done(crate::syscall::sync::sys_mutex_unlock(kernel, #[verifier::truncate] (mutex_id as usize)))
}

/// What `call_semaphore_up` does and gives: the call is served by `sys_semaphore_up`,
/// or gives -1 with nothing changed where an argument is out of range.
pub open spec fn semaphore_up_call(k0: Kernel, k1: Kernel, sem_id: u64, out: Dispatch) -> bool {
    if slot_of(k0.process(k0.current_pid()).semaphore_list@, sem_id).is_some() && slot_of(k0.process(k0.current_pid()).semaphore_list@, sem_id).unwrap().count < i64::MAX {
        out is Done && crate::syscall::sync::semaphore_up_done(k0, k1, sem_id as usize, out->Done_0)
    } else {
        out == Dispatch::Done(-1i64) && k1 == k0
    }
}

/// Serves the call that raises semaphore `sem_id`.
pub fn call_semaphore_up(kernel: &mut Kernel, sem_id: u64) -> (out: Dispatch)
    requires
        old(kernel).wf(),
        old(kernel).running(),
        pipes_wf(*old(kernel)),
    ensures
        final(kernel).wf(),
        pipes_wf(*final(kernel)),
        semaphore_up_call(*old(kernel), *final(kernel), sem_id, out),
{
    let current = crate::task::sched::current_process(kernel);
    let ok = match slot(&kernel.processes[current].as_ref().unwrap().semaphore_list, sem_id) { Some(s) => s.count < i64::MAX, None => false };
    if !(ok) {
        return Dispatch::Done(-1);
    }
    Dispatch::Done(crate::syscall::sync::sys_semaphore_up(kernel, #[verifier::truncate] (sem_id as usize)))
}

/// What `call_semaphore_down` does and gives: the call is served by `sys_semaphore_down`,
/// or gives -1 with nothing changed where an argument is out of range.
pub open spec fn semaphore_down_call(k0: Kernel, k1: Kernel, sem_id: u64, out: Dispatch) -> bool {
    if slot_of(k0.process(k0.current_pid()).semaphore_list@, sem_id).is_some() && slot_of(k0.process(k0.current_pid()).semaphore_list@, sem_id).unwrap().count > i64::MIN {
        out is Done && crate::syscall::sync::semaphore_down_done(k0, k1, sem_id as usize, out->Done_0)
    } else {
        out == Dispatch::Done(-1i64) && k1 == k0
    }
}

/// Serves the call that lowers semaphore `sem_id`.
pub fn call_semaphore_down(kernel: &mut Kernel, sem_id: u64) -> (out: Dispatch)
    requires
        old(kernel).wf(),
        old(kernel).running(),
        pipes_wf(*old(kernel)),
    ensures
        final(kernel).wf(),
        pipes_wf(*final(kernel)),
        semaphore_down_call(*old(kernel), *final(kernel), sem_id, out),
{
    let current = crate::task::sched::current_process(kernel);
    let ok = match slot(&kernel.processes[current].as_ref().unwrap().semaphore_list, sem_id) { Some(s) => s.count > i64::MIN, None => false };
    if !(ok) {
        return Dispatch::Done(-1);
    }
    Dispatch::Done(crate::syscall::sync::sys_semaphore_down(kernel, #[verifier::truncate] (sem_id as usize)))
}

/// What `call_condvar_signal` does and gives: the call is served by `sys_condvar_signal`,
/// or gives -1 with nothing changed where an argument is out of range.
pub open spec fn condvar_signal_call(k0: Kernel, k1: Kernel, condvar_id: u64, out: Dispatch) -> bool {
    if slot_of(k0.process(k0.current_pid()).condvar_list@, condvar_id).is_some() {
        out is Done && crate::syscall::sync::condvar_signal_done(k0, k1, condvar_id as usize, out->Done_0)
    } else {
        out == Dispatch::Done(-1i64) && k1 == k0
    }
}

/// Serves the call that wakes a thread that waits on condition variable `condvar_id`.
pub fn call_condvar_signal(kernel: &mut Kernel, condvar_id: u64) -> (out: Dispatch)
    requires
        old(kernel).wf(),
        old(kernel).running(),
        pipes_wf(*old(kernel)),
    ensures
        final(kernel).wf(),
        pipes_wf(*final(kernel)),
        condvar_signal_call(*old(kernel), *final(kernel), condvar_id, out),
{
    let current = crate::task::sched::current_process(kernel);
    let ok = slot(&kernel.processes[current].as_ref().unwrap().condvar_list, condvar_id).is_some();
    if !(ok) {
        return Dispatch::Done(-1);
    }
    Dispatch::Done(crate::syscall::sync::sys_condvar_signal(kernel, #[verifier::truncate] (condvar_id as usize)))
}

/// Whether the running thread can end as `exit_current_and_run_next` says:
/// it belongs to the process that never ends, or the first process exists
/// and is another one.
pub open spec fn exit_ready(k: Kernel) -> bool {
    k.current_pid() == IDLE_PID || (k.has_process(k.initproc as int) && k.initproc != k.current_pid())
}

/// What `call_exit` does and gives: the call is served by `sys_exit` with
/// the signed number in the low 32 bits of `code` as the exit code; where the thread cannot end
/// that way, because it belongs to the first process or there is none,
/// nothing changes and the machine is to be shut down.
pub open spec fn exit_call(k0: Kernel, k1: Kernel, code: u64, out: Dispatch) -> bool {
    if exit_ready(k0) {
        out is Exit && crate::syscall::process::exit_done(
            k0,
            k1,
            crate::syscall::process::low_signed(code),
            out->Exit_0,
        )
    } else {
        out == Dispatch::Exit(
            ExitAction::Shutdown { success: crate::syscall::process::low_signed(code) == 0 },
        ) && k1 == k0
    }
}

/// Serves the call by which a thread ends.
pub fn call_exit(kernel: &mut Kernel, code: u64) -> (out: Dispatch)
    requires
        old(kernel).wf(),
        old(kernel).running(),
        pipes_wf(*old(kernel)),
    ensures
        final(kernel).wf(),
        pipes_wf(*final(kernel)),
        exit_call(*old(kernel), *final(kernel), code, out),
{
    let exit_code = crate::syscall::process::to_low_signed(code);
    let pid = crate::task::sched::current_process(kernel);
    let ready = pid == IDLE_PID || (pid != kernel.initproc && kernel.initproc < kernel.processes.len()
        && kernel.processes[kernel.initproc].is_some());
    if !ready {
        return Dispatch::Exit(ExitAction::Shutdown { success: exit_code == 0 });
    }
    Dispatch::Exit(crate::syscall::process::sys_exit(kernel, exit_code))
}

/// What `call_get_time` gives: what `sys_get_time` gives, or -1 where the
/// clock ticks less than a thousand times in a second.
pub open spec fn get_time_call(k0: Kernel, time: u64, out: Dispatch) -> bool {
    if k0.machine.clock_freq >= 1000 {
        out is Done && crate::syscall::process::get_time_done(k0, time, out->Done_0)
    } else {
        out == Dispatch::Done(-1i64)
    }
}

/// Serves the call that asks for the time, which is `time` ticks.
pub fn call_get_time(kernel: &Kernel, time: u64) -> (out: Dispatch)
    ensures
        get_time_call(*kernel, time, out),
{
    if kernel.machine.clock_freq < 1000 {
        return Dispatch::Done(-1);
    }
    Dispatch::Done(crate::syscall::process::sys_get_time(kernel, time))
}

/// Whether a sleep of `ms` milliseconds from `time` ticks on can be set.
pub open spec fn sleep_ready(k: Kernel, time: u64, ms: u64) -> bool {
    &&& ms <= usize::MAX
    &&& k.machine.clock_freq >= 1000
    &&& time / (k.machine.clock_freq / 1000) + ms <= u64::MAX
}

/// What `call_sleep` does and gives: the call is served by `sys_sleep`, or
/// gives -1 with nothing changed where `sleep_ready` does not hold.
pub open spec fn sleep_call(k0: Kernel, k1: Kernel, time: u64, ms: u64, out: Dispatch) -> bool {
    if sleep_ready(k0, time, ms) {
        out is Done && crate::syscall::process::sleep_done(k0, k1, time, ms as usize, out->Done_0)
    } else {
        out == Dispatch::Done(-1i64) && k1 == k0
    }
}

/// Serves the call by which a thread sleeps for `ms` milliseconds.
pub fn call_sleep(kernel: &mut Kernel, time: u64, ms: u64) -> (out: Dispatch)
    requires
        old(kernel).wf(),
        old(kernel).running(),
        pipes_wf(*old(kernel)),
    ensures
        final(kernel).wf(),
        pipes_wf(*final(kernel)),
        sleep_call(*old(kernel), *final(kernel), time, ms, out),
{
    if ms as u128 > usize::MAX as u128 || kernel.machine.clock_freq < 1000 {
        return Dispatch::Done(-1);
    }
    if time / (kernel.machine.clock_freq / 1000) > u64::MAX - ms {
        return Dispatch::Done(-1);
    }
    Dispatch::Done(crate::syscall::process::sys_sleep(kernel, time, #[verifier::truncate] (ms as usize)))
}

/// What `call_getpid` gives: what `sys_getpid` gives.
pub open spec fn getpid_call(k0: Kernel, out: Dispatch) -> bool {
    out is Done && crate::syscall::process::getpid_done(k0, out->Done_0)
}

/// Serves the call that asks for the number of the process.
pub fn call_getpid(kernel: &Kernel) -> (out: Dispatch)
    requires
        kernel.wf(),
        kernel.running(),
    ensures
        getpid_call(*kernel, out),
{
    Dispatch::Done(crate::syscall::process::sys_getpid(kernel))
}

/// Whether the process of the running thread can be copied: it has not
/// ended and has one thread, the running one, which has its place in the
/// address space, and there is a number for the copy that a system call can
/// give.
pub open spec fn fork_ready(k: Kernel) -> bool {
    let p = k.process(k.current_pid());
    &&& !p.is_zombie
    &&& p.tasks@.len() == 1
    &&& p.tasks@[0] == Some(k.current() as usize)
    &&& k.thread(k.current()).res.is_some()
    &&& k.pid_allocator.recycled@.len() > 0 || k.pid_allocator.current < usize::MAX
    &&& k.pid_allocator.current <= i64::MAX
}

/// What `call_fork` does and gives: the call is served by `sys_fork`, or
/// gives -1 with nothing changed where `fork_ready` does not hold.
pub open spec fn fork_call(k0: Kernel, k1: Kernel, out: Dispatch) -> bool {
    if fork_ready(k0) {
        out is Done && crate::syscall::process::fork_done(k0, k1, out->Done_0)
    } else {
        out == Dispatch::Done(-1i64) && k1 == k0
    }
}

/// Serves the call that copies the process.
pub fn call_fork(kernel: &mut Kernel) -> (out: Dispatch)
    requires
        old(kernel).wf(),
        old(kernel).running(),
        pipes_wf(*old(kernel)),
    ensures
        final(kernel).wf(),
        pipes_wf(*final(kernel)),
        fork_call(*old(kernel), *final(kernel), out),
{
    let pid = crate::task::sched::current_process(kernel);
    let h = kernel.processor.current().unwrap();
    let p = kernel.processes[pid].as_ref().unwrap();
    if p.is_zombie || p.tasks.len() != 1 {
        return Dispatch::Done(-1);
    }
    match p.tasks[0] {
        None => {
            return Dispatch::Done(-1);
        },
        Some(t) => {
            if t != h {
                return Dispatch::Done(-1);
            }
        },
    }
    if kernel.threads[h].unwrap().res.is_none() {
        return Dispatch::Done(-1);
    }
    if !(kernel.pid_allocator.recycled.len() > 0 || kernel.pid_allocator.current < usize::MAX) {
        return Dispatch::Done(-1);
    }
    if kernel.pid_allocator.current as u128 > i64::MAX as u128 {
        return Dispatch::Done(-1);
    }
    Dispatch::Done(crate::syscall::process::sys_fork(kernel))
}

/// What `call_condvar_wait` does and gives: the call is served by
/// `sys_condvar_wait`, or gives -1 with nothing changed where the process
/// has no such condition variable or no such mutex, or the mutex is not
/// locked.
pub open spec fn condvar_wait_call(k0: Kernel, k1: Kernel, condvar_id: u64, mutex_id: u64, out: Dispatch) -> bool {
    if slot_of(k0.process(k0.current_pid()).condvar_list@, condvar_id).is_some() && slot_of(
        k0.process(k0.current_pid()).mutex_list@,
        mutex_id,
    ).is_some() && slot_of(k0.process(k0.current_pid()).mutex_list@, mutex_id).unwrap().locked() {
        out is Done && crate::syscall::sync::condvar_wait_done(
            k0,
            k1,
            condvar_id as usize,
            mutex_id as usize,
            out->Done_0,
        )
    } else {
        out == Dispatch::Done(-1i64) && k1 == k0
    }
}

/// Serves the call by which a thread waits on condition variable
/// `condvar_id` and gives up mutex `mutex_id` meanwhile.
pub fn call_condvar_wait(kernel: &mut Kernel, condvar_id: u64, mutex_id: u64) -> (out: Dispatch)
    requires
        old(kernel).wf(),
        old(kernel).running(),
        pipes_wf(*old(kernel)),
    ensures
        final(kernel).wf(),
        pipes_wf(*final(kernel)),
        condvar_wait_call(*old(kernel), *final(kernel), condvar_id, mutex_id, out),
{
    let current = crate::task::sched::current_process(kernel);
    let ok = slot(&kernel.processes[current].as_ref().unwrap().condvar_list, condvar_id).is_some()
        && match slot(&kernel.processes[current].as_ref().unwrap().mutex_list, mutex_id) {
        Some(m) => m.is_locked(),
        None => false,
    };
    if !ok {
        return Dispatch::Done(-1);
    }
    Dispatch::Done(
        crate::syscall::sync::sys_condvar_wait(
            kernel,
            #[verifier::truncate] (condvar_id as usize),
            #[verifier::truncate] (mutex_id as usize),
        ),
    )
}

/// What `call_write` does and gives: the call is served by `sys_write`, or
/// gives -1 with nothing changed where an argument is out of range.
pub open spec fn write_call<D: BlockDevice>(
    k0: Kernel,
    k1: Kernel,
    fd: u64,
    buf: u64,
    len: u64,
    c0: &BlockCacheManager,
    d0: &D,
    c1: &BlockCacheManager,
    d1: &D,
    out: Dispatch,
) -> bool {
    if fd <= usize::MAX && len <= usize::MAX {
        out is Done && crate::syscall::fs::write_done(
            k0,
            k1,
            fd as usize,
            buf,
            len as usize,
            c0,
            d0,
            c1,
            d1,
            out->Done_0,
        )
    } else {
        out == Dispatch::Done(-1i64) && k1 == k0 && *c1 == *c0 && *d1 == *d0
    }
}

/// Serves the call that writes `len` bytes from address `buf` to file
/// descriptor `fd`.
pub fn call_write<D: BlockDevice>(
    kernel: &mut Kernel,
    fd: u64,
    buf: u64,
    len: u64,
    cache: &mut BlockCacheManager,
    block_device: &mut D,
) -> (out: Dispatch)
    requires
        old(kernel).wf(),
        old(kernel).running(),
        pipes_wf(*old(kernel)),
        old(cache).wf(old(block_device)),
    ensures
        final(kernel).wf(),
        pipes_wf(*final(kernel)),
        final(cache).wf(final(block_device)),
        write_call(
            *old(kernel),
            *final(kernel),
            fd,
            buf,
            len,
            old(cache),
            old(block_device),
            final(cache),
            final(block_device),
            out,
        ),
{
    if fd as u128 > usize::MAX as u128 || len as u128 > usize::MAX as u128 {
        return Dispatch::Done(-1);
    }
    Dispatch::Done(
        crate::syscall::fs::sys_write(
            kernel,
            #[verifier::truncate] (fd as usize),
            buf,
            #[verifier::truncate] (len as usize),
            cache,
            block_device,
        ),
    )
}

/// What `call_read` does and gives: the call is served by `sys_read`, or
/// gives -1 with nothing changed where an argument is out of range.
pub open spec fn read_call<D: BlockDevice>(
    k0: Kernel,
    k1: Kernel,
    fd: u64,
    buf: u64,
    len: u64,
    c0: &BlockCacheManager,
    d0: &D,
    c1: &BlockCacheManager,
    d1: &D,
    out: Dispatch,
) -> bool {
    if fd <= usize::MAX && len <= usize::MAX {
        out is Done && crate::syscall::fs::read_done(
            k0,
            k1,
            fd as usize,
            buf,
            len as usize,
            c0,
            d0,
            c1,
            d1,
            out->Done_0,
        )
    } else {
        out == Dispatch::Done(-1i64) && k1 == k0 && *c1 == *c0 && *d1 == *d0
    }
}

/// Serves the call that reads `len` bytes to address `buf` from file
/// descriptor `fd`.
pub fn call_read<D: BlockDevice>(
    kernel: &mut Kernel,
    fd: u64,
    buf: u64,
    len: u64,
    cache: &mut BlockCacheManager,
    block_device: &mut D,
) -> (out: Dispatch)
    requires
        old(kernel).wf(),
        old(kernel).running(),
        pipes_wf(*old(kernel)),
        old(cache).wf(old(block_device)),
    ensures
        final(kernel).wf(),
        pipes_wf(*final(kernel)),
        final(cache).wf(final(block_device)),
        read_call(
            *old(kernel),
            *final(kernel),
            fd,
            buf,
            len,
            old(cache),
            old(block_device),
            final(cache),
            final(block_device),
            out,
        ),
{
    if fd as u128 > usize::MAX as u128 || len as u128 > usize::MAX as u128 {
        return Dispatch::Done(-1);
    }
    Dispatch::Done(
        crate::syscall::fs::sys_read(
            kernel,
            #[verifier::truncate] (fd as usize),
            buf,
            #[verifier::truncate] (len as usize),
            cache,
            block_device,
        ),
    )
}

/// What `call_open` does and gives: the file whose name is the string at
/// address `path` is opened as `open_named` says, with the flags `flags`;
/// the call gives -1, with nothing changed, where `flags` holds a bit that
/// is no flag or the program cannot reach the name.
pub open spec fn open_call<D: BlockDevice>(
    k0: Kernel,
    k1: Kernel,
    fs: &EasyFileSystem,
    path: u64,
    flags: u64,
    c0: &BlockCacheManager,
    d0: &D,
    c1: &BlockCacheManager,
    d1: &D,
    out: Dispatch,
) -> bool {
    let m = &k0.process(k0.current_pid()).memory_set;
    if flags <= u32::MAX && (flags as u32) & !(1u32 | 2u32 | 512u32 | 1024u32) == 0 && exists|s: Seq<u8>|
        crate::syscall::process::is_user_str(m, path, s) {
        out is Done && exists|name: Seq<u8>| #[trigger]
            crate::syscall::process::is_user_str(m, path, name) && crate::syscall::fs::open_done(
                k0,
                k1,
                fs,
                name,
                crate::fs::inode::OpenFlags { bits: flags as u32 },
                c0,
                d0,
                c1,
                d1,
                out->Done_0,
            )
    } else {
        out == Dispatch::Done(-1i64) && k1 == k0 && *c1 == *c0 && *d1 == *d0
    }
}

/// Serves the call that opens the file whose name is at address `path`.
pub fn call_open<D: BlockDevice>(
    kernel: &mut Kernel,
    fs: &EasyFileSystem,
    path: u64,
    flags: u64,
    cache: &mut BlockCacheManager,
    block_device: &mut D,
) -> (out: Dispatch)
    requires
        old(kernel).wf(),
        old(kernel).running(),
        pipes_wf(*old(kernel)),
        fs.wf(),
        old(cache).wf(old(block_device)),
    ensures
        final(kernel).wf(),
        pipes_wf(*final(kernel)),
        final(cache).wf(final(block_device)),
        open_call(
            *old(kernel),
            *final(kernel),
            fs,
            path,
            flags,
            old(cache),
            old(block_device),
            final(cache),
            final(block_device),
            out,
        ),
{
    if flags > u32::MAX as u64 {
        return Dispatch::Done(-1);
    }
    let bits: u32 = flags as u32;
    let flags = match crate::fs::inode::OpenFlags::from_bits(bits) {
        None => {
            return Dispatch::Done(-1);
        },
        Some(f) => f,
    };
    match crate::syscall::process::name_at(kernel, path) {
        None => Dispatch::Done(-1),
        Some(name) => {
            let ghost k0 = *kernel;
            let r = crate::syscall::fs::open_named(
                kernel,
                fs,
                name.as_slice(),
                flags,
                cache,
                block_device,
            );
            proof {
                let m = &k0.process(k0.current_pid()).memory_set;
                assert(crate::syscall::process::is_user_str(m, path, name@));
                assert(crate::syscall::fs::open_done(
                    k0,
                    *kernel,
                    fs,
                    name@,
                    flags,
                    old(cache),
                    old(block_device),
                    cache,
                    block_device,
                    r,
                ));
            }
            Dispatch::Done(r)
        },
    }
}

/// Whether the running thread of a program with address space `m` asks for
/// the program in the file `name` to be started with the arguments `v`: the
/// name is the string at address `path`, and `v` holds the strings of the
/// list at address `args`, which ends behind them.
pub open spec fn exec_request(
    m: &crate::mm::memory_set::MemorySet,
    path: u64,
    args: u64,
    name: Seq<u8>,
    v: Seq<Vec<u8>>,
) -> bool {
    &&& crate::syscall::process::is_user_str(m, path, name)
    &&& crate::syscall::process::holds_strings(m, args, v, v.len() as int)
    &&& crate::syscall::process::user_word(m, (args + 8 * v.len()) as u64) == Some(0u64)
}

/// What `call_exec` does and gives: with a request that the program can
/// be asked for, the file of the name is read and the call is served as
/// `sys_exec` says, with no image where there is no such file; the call gives
/// -1, with nothing changed, where the program cannot reach the name or the
/// list of arguments, or the arguments are too many to count.
pub open spec fn exec_call<D: BlockDevice>(
    k0: Kernel,
    k1: Kernel,
    fs: &EasyFileSystem,
    path: u64,
    args: u64,
    c0: &BlockCacheManager,
    d0: &D,
    c1: &BlockCacheManager,
    d1: &D,
    out: Dispatch,
) -> bool {
    let m = &k0.process(k0.current_pid()).memory_set;
    &&& out is Done
    &&& fs_of(c1, d1) == fs_of(c0, d0)
    &&& (exists|name: Seq<u8>, v: Seq<Vec<u8>>| #[trigger]
        exec_request(m, path, args, name, v) && crate::syscall::process::exec_done(
            k0,
            k1,
            crate::easy_fs::vfs::file_named(fs, fs_of(c0, d0), name),
            v,
            out->Done_0,
        )) || (out->Done_0 == -1 && k1 == k0 && ((forall|s: Seq<u8>|
        !#[trigger] crate::syscall::process::is_user_str(m, path, s)) || (exists|
        n: int,
        v: Seq<Vec<u8>>,
    | #[trigger]
        crate::syscall::process::list_breaks(m, args, v, n)) || (exists|
        name: Seq<u8>,
        v: Seq<Vec<u8>>,
    | #[trigger] exec_request(m, path, args, name, v) && v.len() > i64::MAX)))
}

/// Serves the call that starts the program whose name is at address `path`.
pub fn call_exec<D: BlockDevice>(
    kernel: &mut Kernel,
    fs: &EasyFileSystem,
    path: u64,
    args: u64,
    cache: &mut BlockCacheManager,
    block_device: &mut D,
) -> (out: Dispatch)
    requires
        old(kernel).wf(),
        old(kernel).running(),
        pipes_wf(*old(kernel)),
        old(cache).wf(old(block_device)),
    ensures
        final(kernel).wf(),
        pipes_wf(*final(kernel)),
        final(cache).wf(final(block_device)),
        exec_call(
            *old(kernel),
            *final(kernel),
            fs,
            path,
            args,
            old(cache),
            old(block_device),
            final(cache),
            final(block_device),
            out,
        ),
{
    let ghost k0 = *kernel;
    let ghost m = &k0.process(k0.current_pid()).memory_set;
    let name = match crate::syscall::process::name_at(kernel, path) {
        None => {
            return Dispatch::Done(-1);
        },
        Some(p) => p,
    };
    let v = match crate::syscall::process::exec_arguments(kernel, args) {
        None => {
            return Dispatch::Done(-1);
        },
        Some(v) => v,
    };
    proof {
        assert(exec_request(m, path, args, name@, v@));
    }
    if v.len() as u128 > i64::MAX as u128 {
        return Dispatch::Done(-1);
    }
    let image = crate::easy_fs::vfs::read_named(fs, name.as_slice(), cache, block_device);
    let r = match &image {
        Some(data) => crate::syscall::process::sys_exec(kernel, Some(data.as_slice()), &v),
        None => crate::syscall::process::sys_exec(kernel, None, &v),
    };
    proof {
        assert(crate::syscall::process::exec_done(
            k0,
            *kernel,
            crate::easy_fs::vfs::file_named(fs, fs_of(old(cache), old(block_device)), name@),
            v@,
            r,
        ));
    }
    Dispatch::Done(r)
}

/// What `syscall` does and gives: the call with number `syscall_id` is
/// served with the arguments `args`, as the function for that call says.
pub open spec fn syscall_done<D: BlockDevice>(
    k0: Kernel,
    k1: Kernel,
    fs: &EasyFileSystem,
    syscall_id: u64,
    args: [u64; 3],
    time: u64,
    c0: &BlockCacheManager,
    d0: &D,
    c1: &BlockCacheManager,
    d1: &D,
    out: Dispatch,
) -> bool {
    let a = args@;
    if syscall_id == SYSCALL_DUP {
        dup_call(k0, k1, a[0], out)
    } else if syscall_id == SYSCALL_OPEN {
        open_call(k0, k1, fs, a[0], a[1], c0, d0, c1, d1, out)
    } else if syscall_id == SYSCALL_CLOSE {
        close_call(k0, k1, a[0], out)
    } else if syscall_id == SYSCALL_PIPE {
        pipe_call(k0, k1, a[0], out)
    } else if syscall_id == SYSCALL_READ {
        read_call(k0, k1, a[0], a[1], a[2], c0, d0, c1, d1, out)
    } else if syscall_id == SYSCALL_WRITE {
        write_call(k0, k1, a[0], a[1], a[2], c0, d0, c1, d1, out)
    } else if syscall_id == SYSCALL_EXIT {
        exit_call(k0, k1, a[0], out)
    } else if syscall_id == SYSCALL_SLEEP {
        sleep_call(k0, k1, time, a[0], out)
    } else if syscall_id == SYSCALL_YIELD {
        yield_call(k0, k1, out)
    } else if syscall_id == SYSCALL_KILL {
        kill_call(k0, k1, a[0], a[1], out)
    } else if syscall_id == SYSCALL_SIGACTION {
        sigaction_call(k0, k1, a[0], a[1], a[2], out)
    } else if syscall_id == SYSCALL_SIGPROCMASK {
        sigprocmask_call(k0, k1, a[0], out)
    } else if syscall_id == SYSCALL_SIGRETURN {
        sigreturn_call(k0, k1, out)
    } else if syscall_id == SYSCALL_GET_TIME {
        get_time_call(k0, time, out) && k1 == k0
    } else if syscall_id == SYSCALL_GETPID {
        getpid_call(k0, out) && k1 == k0
    } else if syscall_id == SYSCALL_FORK {
        fork_call(k0, k1, out)
    } else if syscall_id == SYSCALL_EXEC {
        exec_call(k0, k1, fs, a[0], a[1], c0, d0, c1, d1, out)
    } else if syscall_id == SYSCALL_WAITPID {
        waitpid_call(k0, k1, a[0], a[1], out)
    } else if syscall_id == SYSCALL_MUTEX_CREATE {
        mutex_create_call(k0, k1, a[0], out)
    } else if syscall_id == SYSCALL_MUTEX_LOCK {
        mutex_lock_call(k0, k1, a[0], out)
    } else if syscall_id == SYSCALL_MUTEX_UNLOCK {
        mutex_unlock_call(k0, k1, a[0], out)
    } else if syscall_id == SYSCALL_SEMAPHORE_CREATE {
        semaphore_create_call(k0, k1, a[0], out)
    } else if syscall_id == SYSCALL_SEMAPHORE_UP {
        semaphore_up_call(k0, k1, a[0], out)
    } else if syscall_id == SYSCALL_SEMAPHORE_DOWN {
        semaphore_down_call(k0, k1, a[0], out)
    } else if syscall_id == SYSCALL_CONDVAR_CREATE {
        condvar_create_call(k0, k1, out)
    } else if syscall_id == SYSCALL_CONDVAR_SIGNAL {
        condvar_signal_call(k0, k1, a[0], out)
    } else if syscall_id == SYSCALL_CONDVAR_WAIT {
        condvar_wait_call(k0, k1, a[0], a[1], out)
    } else {
        out is Unknown && k1 == k0
    }
}

/// Whether a call with this number leaves the disk as it is.
pub open spec fn leaves_disk(syscall_id: u64) -> bool {
    syscall_id != SYSCALL_READ && syscall_id != SYSCALL_WRITE && syscall_id != SYSCALL_OPEN
        && syscall_id != SYSCALL_EXEC
}

/// Serves the system call with number `syscall_id` and arguments `args`
/// for the running thread. `time` is the time in ticks of the clock, `fs`
/// the file system on the disk.
pub fn syscall<D: BlockDevice>(
    kernel: &mut Kernel,
    fs: &EasyFileSystem,
    syscall_id: u64,
    args: [u64; 3],
    time: u64,
    cache: &mut BlockCacheManager,
    block_device: &mut D,
) -> (out: Dispatch)
    requires
        old(kernel).wf(),
        old(kernel).running(),
        pipes_wf(*old(kernel)),
        fs.wf(),
        old(cache).wf(old(block_device)),
    ensures
        final(kernel).wf(),
        pipes_wf(*final(kernel)),
        final(cache).wf(final(block_device)),
        syscall_done(
            *old(kernel),
            *final(kernel),
            fs,
            syscall_id,
            args,
            time,
            old(cache),
            old(block_device),
            final(cache),
            final(block_device),
            out,
        ),
        leaves_disk(syscall_id) ==> *final(cache) == *old(cache) && *final(block_device) == *old(block_device),
{
    if syscall_id == SYSCALL_DUP {
        call_dup(kernel, args[0])
    } else if syscall_id == SYSCALL_OPEN {
        call_open(kernel, fs, args[0], args[1], cache, block_device)
    } else if syscall_id == SYSCALL_CLOSE {
        call_close(kernel, args[0])
    } else if syscall_id == SYSCALL_PIPE {
        call_pipe(kernel, args[0])
    } else if syscall_id == SYSCALL_READ {
        call_read(kernel, args[0], args[1], args[2], cache, block_device)
    } else if syscall_id == SYSCALL_WRITE {
        call_write(kernel, args[0], args[1], args[2], cache, block_device)
    } else if syscall_id == SYSCALL_EXIT {
        call_exit(kernel, args[0])
    } else if syscall_id == SYSCALL_SLEEP {
        call_sleep(kernel, time, args[0])
    } else if syscall_id == SYSCALL_YIELD {
        call_yield(kernel)
    } else if syscall_id == SYSCALL_KILL {
        call_kill(kernel, args[0], args[1])
    } else if syscall_id == SYSCALL_SIGACTION {
        call_sigaction(kernel, args[0], args[1], args[2])
    } else if syscall_id == SYSCALL_SIGPROCMASK {
        call_sigprocmask(kernel, args[0])
    } else if syscall_id == SYSCALL_SIGRETURN {
        call_sigreturn(kernel)
    } else if syscall_id == SYSCALL_GET_TIME {
        call_get_time(kernel, time)
    } else if syscall_id == SYSCALL_GETPID {
        call_getpid(kernel)
    } else if syscall_id == SYSCALL_FORK {
        call_fork(kernel)
    } else if syscall_id == SYSCALL_EXEC {
        call_exec(kernel, fs, args[0], args[1], cache, block_device)
    } else if syscall_id == SYSCALL_WAITPID {
        call_waitpid(kernel, args[0], args[1])
    } else if syscall_id == SYSCALL_MUTEX_CREATE {
        call_mutex_create(kernel, args[0])
    } else if syscall_id == SYSCALL_MUTEX_LOCK {
        call_mutex_lock(kernel, args[0])
    } else if syscall_id == SYSCALL_MUTEX_UNLOCK {
        call_mutex_unlock(kernel, args[0])
    } else if syscall_id == SYSCALL_SEMAPHORE_CREATE {
        call_semaphore_create(kernel, args[0])
    } else if syscall_id == SYSCALL_SEMAPHORE_UP {
        call_semaphore_up(kernel, args[0])
    } else if syscall_id == SYSCALL_SEMAPHORE_DOWN {
        call_semaphore_down(kernel, args[0])
    } else if syscall_id == SYSCALL_CONDVAR_CREATE {
        call_condvar_create(kernel)
    } else if syscall_id == SYSCALL_CONDVAR_SIGNAL {
        call_condvar_signal(kernel, args[0])
    } else if syscall_id == SYSCALL_CONDVAR_WAIT {
        call_condvar_wait(kernel, args[0], args[1])
    } else {
        Dispatch::Unknown
    }
}

} // verus!
