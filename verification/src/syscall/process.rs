//! System calls on processes, time and signals.
use vstd::prelude::*;
use crate::kernel::{lemma_same_memory, only_frames_changed, same_memory, Kernel};
use crate::mm::memory_set::MemorySet;
use crate::task::process::ProcessControlBlock;
use crate::task::sched::{
    block_current_and_run_next, current_process, except_process, exit_current_and_run_next,
    lemma_process_changed, pid2process, same_core, suspend_current_and_run_next, update_thread,
    ExitAction,
};
use crate::syscall::user_memory::{read_user, write_user};
use crate::task::action::SignalAction;
use crate::task::signal::{signal_bit, SignalFlags, MAX_SIG};
use crate::task::task::{Resume, TaskControlBlock, TaskStatus};
use crate::timer::{get_time_ms, TimerCondVar};

verus! {

/// A number of the kernel as the signed number that a system call gives.
pub open spec fn as_result(n: int) -> i64 {
    if n <= i64::MAX {
        n as i64
    } else {
        -1i64
    }
}

/// The signed number for `n`, or -1 where `n` is too great.
pub fn to_result(n: usize) -> (r: i64)
    ensures
        r == as_result(n as int),
{
    if n as u128 <= i64::MAX as u128 {
        n as i64
    } else {
        -1
    }
}

/// The signed number that the word `x` of a register stands for.
pub open spec fn signed_of(x: u64) -> i64 {
    if x <= i64::MAX {
        x as i64
    } else {
        (x - 0x1_0000_0000_0000_0000) as i64
    }
}

/// The signed number that a word of a register stands for.
pub fn to_signed(x: u64) -> (r: i64)
    ensures
        r == signed_of(x),
{
    if x <= i64::MAX as u64 {
        x as i64
    } else {
        -((u64::MAX - x) as i64) - 1
    }
}

/// A signed number is the number that its word stands for.
pub proof fn lemma_signed_word(x: u64)
    ensures
        crate::user::syscall::word_of(signed_of(x) as int) == x,
{
}

/// The signed number that the low 32 bits of the word `x` stand for.
pub open spec fn low_signed(x: u64) -> i32 {
    let m = x % 0x1_0000_0000;
    if m < 0x8000_0000 {
        m as i32
    } else {
        (m - 0x1_0000_0000) as i32
    }
}

/// The signed number that the low 32 bits of a word stand for.
pub fn to_low_signed(x: u64) -> (r: i32)
    ensures
        r == low_signed(x),
{
    let m: u64 = x % 0x1_0000_0000;
    if m < 0x8000_0000 {
        m as i32
    } else {
        -((0xffff_ffff - m) as i32) - 1
    }
}

/// The word of four bytes that holds the signed number `e`.
pub open spec fn word32_of(e: i32) -> u32 {
    if e >= 0 {
        e as u32
    } else {
        (e + 0x1_0000_0000) as u32
    }
}

/// The word of four bytes that holds a signed number.
pub fn to_word32(e: i32) -> (r: u32)
    ensures
        r == word32_of(e),
{
    if e >= 0 {
        e as u32
    } else {
        u32::MAX - ((-(e + 1)) as u32)
    }
}

/// What `sys_exit` does and gives: `k0` is the kernel before the call, `k1` after it, `r` what the call gives.
pub open spec fn exit_done(
    k0: Kernel,
    k1: Kernel,
    exit_code: i32,
    r: ExitAction,
) -> bool {
    &&& (k1.pipes == k0.pipes)
    &&& (k1.wf())
    &&& (k0.current_pid() == crate::task::id::IDLE_PID ==> r == (ExitAction::Shutdown {
            success: exit_code == 0,
        }) && k1 == k0)
    &&& (k0.current_pid() != crate::task::id::IDLE_PID ==> {
            let pid = k0.current_pid();
            &&& r == ExitAction::Scheduled
            &&& k1.processor.current.is_none()
            &&& k1.has_process(pid)
            &&& k1.process(pid).is_zombie
            &&& k1.process(pid).exit_code == exit_code
            &&& k1.task_manager == k0.task_manager
        })
}

/// The running thread ends with `exit_code`; see `exit_current_and_run_next`.
pub fn sys_exit(kernel: &mut Kernel, exit_code: i32) -> (r: ExitAction)
    requires
        old(kernel).wf(),
        old(kernel).running(),
        old(kernel).current_pid() == crate::task::id::IDLE_PID || (old(kernel).has_process(
            old(kernel).initproc as int,
        ) && old(kernel).initproc != old(kernel).current_pid()),
    ensures
        exit_done(*old(kernel), *final(kernel), exit_code, r),
{
    exit_current_and_run_next(kernel, exit_code)
}

/// What `sys_yield` does and gives: `k0` is the kernel before the call, `k1` after it, `r` what the call gives.
pub open spec fn yield_done(
    k0: Kernel,
    k1: Kernel,
    r: i64,
) -> bool {
    &&& (r == 0)
    &&& (k1.wf())
    &&& (same_memory(k0, k1))
    &&& (k1.processor.current.is_none())
    &&& (k1.task_manager.ready_queue@ == k0.task_manager.ready_queue@.push(
            k0.current() as usize,
        ))
    &&& (k1.has_thread(k0.current()))
    &&& (k1.thread(k0.current()) == (TaskControlBlock {
            task_status: TaskStatus::Ready,
            resume: Resume::ToUser,
            ..k0.thread(k0.current())
        }))
    &&& (k1.processes == k0.processes)
    &&& (k1.files == k0.files)
    &&& (k1.pipes == k0.pipes)
}

/// The running thread gives up the processor. The call gives 0.
pub fn sys_yield(kernel: &mut Kernel) -> (r: i64)
    requires
        old(kernel).wf(),
        old(kernel).running(),
    ensures
        yield_done(*old(kernel), *final(kernel), r),
{
    suspend_current_and_run_next(kernel, Resume::ToUser);
    0
}

/// What `sys_get_time` does and gives: `k0` is the kernel before the call, `r` what the call gives.
pub open spec fn get_time_done(
    k0: Kernel,
    time: u64,
    r: i64,
) -> bool {
    &&& (r == as_result(time as int / (k0.machine.clock_freq as int / 1000)))
}

/// The time in milliseconds at `time` ticks of the clock.
pub fn sys_get_time(kernel: &Kernel, time: u64) -> (r: i64)
    requires
        kernel.machine.clock_freq >= 1000,
    ensures
        get_time_done(*kernel, time, r),
{
    let ms = get_time_ms(time, kernel.machine.clock_freq);
    if ms <= i64::MAX as u64 {
        ms as i64
    } else {
        -1
    }
}

/// What `sys_getpid` does and gives: `k0` is the kernel before the call, `r` what the call gives.
pub open spec fn getpid_done(
    k0: Kernel,
    r: i64,
) -> bool {
    &&& (r == as_result(k0.current_pid()))
}

/// The number of the process of the running thread.
pub fn sys_getpid(kernel: &Kernel) -> (r: i64)
    requires
        kernel.wf(),
        kernel.running(),
    ensures
        getpid_done(*kernel, r),
{
    let pid = current_process(kernel);
    let p = kernel.processes[pid].as_ref().unwrap().getpid();
    proof {
        assert(kernel.has_process(pid as int));
    }
    to_result(p)
}

/// What `sys_fork` does and gives: `k0` is the kernel before the call, `k1` after it, `r` what the call gives.
pub open spec fn fork_done(
    k0: Kernel,
    k1: Kernel,
    r: i64,
) -> bool {
    &&& (crate::kernel::fork_fits(k0, k0.current_pid()) ==> r != -1)
    &&& (k1.pipes == k0.pipes)
    &&& (k1.wf())
    &&& (r == -1 ==> only_frames_changed(k0, k1))
    &&& (r != -1 ==> {
            let pid = k0.pid_allocator.next();
            let parent = k0.current_pid();
            let handle = crate::task::process::first_free(
                k0.threads@,
                k0.threads@.len() as int,
            );
            &&& r == pid
            &&& k1.has_process(pid as int)
            &&& k1.process(pid as int).parent == Some(parent as usize)
            &&& k1.process(pid as int).fd_table@ == k0.process(parent).fd_table@
            &&& k1.process(pid as int).memory_set.copy_of(
                &k0.process(parent).memory_set,
                k0.process(parent).memory_set.areas@.len() as int,
            )
            &&& k1.process(parent).children@ == k0.process(parent).children@.push(
                pid,
            )
            &&& k1.has_thread(handle)
            &&& k1.thread(handle).process == pid
            &&& k1.thread(handle).task_status == TaskStatus::Ready
            &&& k1.thread(handle).trap_cx.x@ == k0.thread(
                k0.current(),
            ).trap_cx.x@.update(10, 0)
            &&& k1.thread(handle).trap_cx.sepc == k0.thread(
                k0.current(),
            ).trap_cx.sepc
            &&& crate::kernel::forked_thread(
                k0.machine,
                pid,
                k0.thread(k0.current()),
                TaskControlBlock {
                    trap_cx: crate::trap::context::TrapContext {
                        x: k0.thread(k0.current()).trap_cx.x,
                        ..k1.thread(handle).trap_cx
                    },
                    ..k1.thread(handle)
                },
            )
            &&& k1.task_manager.ready_queue@ == k0.task_manager.ready_queue@.push(
                handle as usize,
            )
            &&& k1.processor == k0.processor
            &&& k1.has_thread(k0.current())
            &&& k1.thread(k0.current()) == k0.thread(
                k0.current(),
            )
        })
}

/// The process of the running thread is copied; see
/// `ProcessControlBlock::fork`. The call gives the parent the number of the
/// child; the child finds 0 in register `a0` when it runs, and is in all
/// else the thread that `forked_thread` describes. It gives -1, with
/// nothing changed but the allocator of frames, where the copy cannot be
/// made; the copy can be made where `fork_fits` holds.
pub fn sys_fork(kernel: &mut Kernel) -> (r: i64)
    requires
        old(kernel).wf(),
        old(kernel).running(),
        !old(kernel).process(old(kernel).current_pid()).is_zombie,
        old(kernel).process(old(kernel).current_pid()).tasks@.len() == 1,
        old(kernel).process(old(kernel).current_pid()).tasks@[0] == Some(
            old(kernel).current() as usize,
        ),
        old(kernel).thread(old(kernel).current()).res.is_some(),
        old(kernel).pid_allocator.recycled@.len() > 0 || old(kernel).pid_allocator.current
            < usize::MAX,
        old(kernel).pid_allocator.current <= i64::MAX,
    ensures
        fork_done(*old(kernel), *final(kernel), r),
{
    let ghost k0 = *kernel;
    let parent = current_process(kernel);
    let slots: usize = kernel.threads.len();
    match ProcessControlBlock::fork(kernel, parent) {
        Err(_) => -1,
        Ok(pid) => {
            let ghost k1 = *kernel;
            proof {
                crate::task::process::lemma_first_free(k0.threads@, k0.threads@.len() as int);
                assert(k1.process(pid as int).tasks@[0] == Some(
                    crate::task::process::first_free(k0.threads@, k0.threads@.len() as int) as usize,
                ));
            }
            let handle = kernel.processes[pid].as_ref().unwrap().tasks[0].unwrap();
            proof {
                assert(crate::task::process::first_free(
                    k0.threads@,
                    k0.threads@.len() as int,
                ) <= slots);
                assert(handle == crate::task::process::first_free(
                    k0.threads@,
                    k0.threads@.len() as int,
                ));
                assert(k1.has_thread(handle as int));
            }
            let mut t = kernel.threads[handle].unwrap();
            t.trap_cx.x[10] = 0;
            update_thread(kernel, handle, t);
            proof {
                assert(k0.has_thread(k0.current()));
                assert(k0.current() != handle);
                assert(k1.threads@[k0.current()] == k0.threads@[k0.current()]);
                assert(kernel.threads@[k0.current()] == k1.threads@[k0.current()]);
                assert(kernel.thread(handle as int).trap_cx.x@ == k0.thread(
                    k0.current(),
                ).trap_cx.x@.update(10, 0));
            }
            to_result(pid)
        },
    }
}

/// What `sys_kill` does and gives: `k0` is the kernel before the call, `k1` after it, `r` what the call gives.
pub open spec fn kill_done(
    k0: Kernel,
    k1: Kernel,
    pid: usize,
    signum: u32,
    r: i64,
) -> bool {
    &&& (k1.wf())
    &&& (r == 0 || r == -1)
    &&& (r == 0 <==> k0.has_process(pid as int) && k0.process(
            pid as int,
        ).registered && signum <= MAX_SIG && k0.process(pid as int).signals.bits
            & signal_bit(signum as int) != signal_bit(signum as int))
    &&& (r == -1 ==> k1 == k0)
    &&& (r == 0 ==> {
            &&& except_process(k0, k1, pid as int)
            &&& k1.has_process(pid as int)
            &&& k1.process(pid as int).signals.bits == k0.process(
                pid as int,
            ).signals.bits | signal_bit(signum as int)
            &&& same_core(k0.process(pid as int), k1.process(pid as int))
            &&& k1.process(pid as int).fd_table == k0.process(
                pid as int,
            ).fd_table
            &&& k1.process(pid as int).children == k0.process(
                pid as int,
            ).children
            &&& k1.process(pid as int).signal_mask == k0.process(
                pid as int,
            ).signal_mask
        })
}

/// Puts signal `signum` into the set of pending signals of process `pid`.
/// The call gives 0, and -1 where the process cannot be found, there is no
/// such signal, or the signal is pending already.
pub fn sys_kill(kernel: &mut Kernel, pid: usize, signum: u32) -> (r: i64)
    requires
        old(kernel).wf(),
    ensures
        kill_done(*old(kernel), *final(kernel), pid, signum, r),
{
    if !pid2process(kernel, pid) {
        return -1;
    }
    if signum > MAX_SIG as u32 {
        return -1;
    }
    let flag = SignalFlags::of(signum as usize);
    if kernel.processes[pid].as_ref().unwrap().signals.contains(flag) {
        return -1;
    }
    let ghost k0 = *kernel;
    let mut p = kernel.processes[pid].take().unwrap();
    p.signals.insert(flag);
    kernel.processes.set(pid, Some(p));
    proof {
        lemma_process_changed(k0, *kernel, pid as int);
    }
    0
}

/// What `sys_sleep` does and gives: `k0` is the kernel before the call, `k1` after it, `r` what the call gives.
pub open spec fn sleep_done(
    k0: Kernel,
    k1: Kernel,
    time: u64,
    ms: usize,
    r: i64,
) -> bool {
    &&& (k1.pipes == k0.pipes)
    &&& (r == 0)
    &&& (k1.wf())
    &&& (same_memory(k0, k1))
    &&& (k1.processor.current.is_none())
    &&& (k1.timers.list@ == k0.timers.list@.push(
            TimerCondVar {
                expire_ms: (time / (k0.machine.clock_freq / 1000) + ms) as u64,
                task: k0.current() as usize,
            },
        ))
    &&& (k1.has_thread(k0.current()))
    &&& (k1.thread(k0.current()) == (TaskControlBlock {
            task_status: TaskStatus::Blocking,
            resume: Resume::ToUser,
            ..k0.thread(k0.current())
        }))
    &&& (k1.task_manager == k0.task_manager)
    &&& (k1.processes == k0.processes)
}

/// The running thread sleeps for `ms` milliseconds from the time at `time`
/// ticks of the clock: a timer is set for it, and it blocks. The call gives 0.
pub fn sys_sleep(kernel: &mut Kernel, time: u64, ms: usize) -> (r: i64)
    requires
        old(kernel).wf(),
        old(kernel).running(),
        old(kernel).machine.clock_freq >= 1000,
        time / (old(kernel).machine.clock_freq / 1000) + ms <= u64::MAX,
    ensures
        sleep_done(*old(kernel), *final(kernel), time, ms, r),
{
    let ghost k0 = *kernel;
    let expire_ms = get_time_ms(time, kernel.machine.clock_freq) + ms as u64;
    let task = kernel.processor.current().unwrap();
    kernel.timers.add_timer(expire_ms, task);
    proof {
        assert(same_memory(k0, *kernel));
        lemma_same_memory(k0, *kernel);
    }
    let ghost k1 = *kernel;
    block_current_and_run_next(kernel, Resume::ToUser);
    proof {
        assert(same_memory(k0, *kernel));
    }
    0
}

/// What `sys_sigprocmask` does and gives: `k0` is the kernel before the call, `k1` after it, `r` what the call gives.
pub open spec fn sigprocmask_done(
    k0: Kernel,
    k1: Kernel,
    mask: u32,
    r: i64,
) -> bool {
    &&& (k1.wf())
    &&& (r == k0.process(k0.current_pid()).signal_mask.bits)
    &&& (except_process(k0, k1, k0.current_pid()))
    &&& (k1.has_process(k0.current_pid()))
    &&& (k1.process(k0.current_pid()).signal_mask.bits == mask)
    &&& (same_core(
            k0.process(k0.current_pid()),
            k1.process(k0.current_pid()),
        ))
    &&& (k1.process(k0.current_pid()).signals == k0.process(
            k0.current_pid(),
        ).signals)
    &&& (k1.process(k0.current_pid()).fd_table == k0.process(
            k0.current_pid(),
        ).fd_table)
}

/// Sets the mask of blocked signals of the process of the running thread.
/// The call gives the old mask.
pub fn sys_sigprocmask(kernel: &mut Kernel, mask: u32) -> (r: i64)
    requires
        old(kernel).wf(),
        old(kernel).running(),
    ensures
        sigprocmask_done(*old(kernel), *final(kernel), mask, r),
{
    let ghost k0 = *kernel;
    let pid = current_process(kernel);
    let mut p = kernel.processes[pid].take().unwrap();
    let old_mask = p.signal_mask.bits;
    p.signal_mask = SignalFlags { bits: mask };
    kernel.processes.set(pid, Some(p));
    proof {
        lemma_process_changed(k0, *kernel, pid as int);
    }
    old_mask as i64
}

/// What `sys_sigreturn` does and gives: `k0` is the kernel before the call, `k1` after it, `r` what the call gives.
pub open spec fn sigreturn_done(
    k0: Kernel,
    k1: Kernel,
    r: i64,
) -> bool {
    &&& (k1.pipes == k0.pipes)
    &&& (k1.wf())
    &&& (same_memory(k0, k1))
    &&& (k0.process(k0.current_pid()).trap_ctx_backup.is_none() ==> r == -1
            && k1 == k0)
    &&& (k0.process(k0.current_pid()).trap_ctx_backup.is_some() ==> {
            let pid = k0.current_pid();
            let h = k0.current();
            let saved = k0.process(pid).trap_ctx_backup.unwrap();
            &&& r == signed_of(saved.x@[10])
            &&& k1.has_process(pid)
            &&& k1.has_thread(h)
            &&& k1.process(pid).handling_sig == -1
            &&& k1.process(pid).signals == k0.process(pid).signals
            &&& k1.process(pid).signal_mask == k0.process(pid).signal_mask
            &&& k1.thread(h) == (TaskControlBlock {
                trap_cx: saved,
                ..k0.thread(h)
            })
            &&& k1.processor == k0.processor
            &&& k1.task_manager == k0.task_manager
        })
}

/// The running thread returns from a signal handler: the trap context that
/// was saved when the handler was called is put back, and no signal is
/// being handled. The call gives the word that was in register `a0` then,
/// read as a signed number, so that the register is as it was when the
/// result is put into it; it gives -1, with nothing changed, where no trap
/// context was saved.
pub fn sys_sigreturn(kernel: &mut Kernel) -> (r: i64)
    requires
        old(kernel).wf(),
        old(kernel).running(),
    ensures
        sigreturn_done(*old(kernel), *final(kernel), r),
{
    let ghost k0 = *kernel;
    let pid = current_process(kernel);
    let h = kernel.processor.current().unwrap();
    let saved = match kernel.processes[pid].as_ref().unwrap().trap_ctx_backup {
        None => {
            proof {
                assert(same_memory(k0, *kernel));
            }
            return -1;
        },
        Some(cx) => cx,
    };
    let mut p = kernel.processes[pid].take().unwrap();
    p.handling_sig = -1;
    kernel.processes.set(pid, Some(p));
    proof {
        lemma_process_changed(k0, *kernel, pid as int);
    }
    let ghost k1 = *kernel;
    let mut t = kernel.threads[h].unwrap();
    t.trap_cx = saved;
    update_thread(kernel, h, t);
    proof {
        assert(same_memory(k0, *kernel));
    }
    to_signed(saved.x[10])
}

/// The sixteen bytes that stand for an action in the memory of a program:
/// the address of the handler in eight bytes, the blocked signals in four,
/// and four bytes that are zero, all little-endian.
pub open spec fn action_bytes(a: SignalAction) -> Seq<u8> {
    vstd::bytes::spec_u64_to_le_bytes(a.handler) + vstd::bytes::spec_u32_to_le_bytes(a.mask.bits)
        + seq![0u8, 0u8, 0u8, 0u8]
}

/// The action that sixteen bytes in the memory of a program stand for.
pub open spec fn action_of(bytes: Seq<u8>) -> SignalAction {
    SignalAction {
        handler: vstd::bytes::spec_u64_from_le_bytes(bytes.subrange(0, 8)),
        mask: SignalFlags { bits: vstd::bytes::spec_u32_from_le_bytes(bytes.subrange(8, 12)) },
    }
}

/// Whether the running thread can set the action of signal `signum` from
/// the bytes at address `action` and have the action so far stored at
/// address `old_action`: there is such a signal, it is not the signal that
/// kills nor the one that stops, neither address is 0, and the program can
/// reach the sixteen bytes at each.
pub open spec fn sigaction_ok(k: Kernel, signum: i32, action: u64, old_action: u64) -> bool {
    let m = k.process(k.current_pid()).memory_set;
    &&& 0 <= signum <= MAX_SIG
    &&& action != 0
    &&& old_action != 0
    &&& signal_bit(signum as int) != crate::task::signal::SIGKILL
    &&& signal_bit(signum as int) != crate::task::signal::SIGSTOP
    &&& m.user_range_ok(action, 16)
    &&& m.user_range_ok(old_action, 16)
}

/// What `sys_sigaction` does and gives: `k0` is the kernel before the call, `k1` after it, `r` what the call gives.
pub open spec fn sigaction_done(
    k0: Kernel,
    k1: Kernel,
    signum: i32,
    action: u64,
    old_action: u64,
    r: i64,
) -> bool {
    &&& (k1.wf())
    &&& (!sigaction_ok(k0, signum, action, old_action) ==> r == -1 && k1
            == k0)
    &&& (sigaction_ok(k0, signum, action, old_action) ==> {
            let pid = k0.current_pid();
            let p0 = k0.process(pid);
            let p1 = k1.process(pid);
            &&& r == 0
            &&& except_process(k0, k1, pid)
            &&& k1.has_process(pid)
            &&& p1.memory_set.same_frames(&p0.memory_set)
            &&& p1.memory_set.user_bytes(old_action, 16) == action_bytes(
                p0.signal_actions.table@[signum as int],
            )
            &&& forall|va: u64|
                !(old_action <= va < old_action + 16) ==> #[trigger] p1.memory_set.user_byte(va)
                    == p0.memory_set.user_byte(va)
            &&& p1.signal_actions.table@ == p0.signal_actions.table@.update(
                signum as int,
                action_of(p1.memory_set.user_bytes(action, 16)),
            )
            &&& p1.signals == p0.signals
            &&& p1.signal_mask == p0.signal_mask
            &&& p1.handling_sig == p0.handling_sig
            &&& p1.killed == p0.killed
            &&& p1.frozen == p0.frozen
            &&& p1.trap_ctx_backup == p0.trap_ctx_backup
            &&& p1.fd_table == p0.fd_table
            &&& p1.children == p0.children
            &&& p1.parent == p0.parent
            &&& p1.tasks == p0.tasks
            &&& p1.pid == p0.pid
            &&& p1.is_zombie == p0.is_zombie
        })
}

/// The running thread sets the action of signal `signum` of its process.
/// The action so far is stored at address `old_action`; then the new action
/// is read at address `action`. The call gives 0, and -1, with nothing
/// changed, where `sigaction_ok` does not hold.
pub fn sys_sigaction(kernel: &mut Kernel, signum: i32, action: u64, old_action: u64) -> (r: i64)
    requires
        old(kernel).wf(),
        old(kernel).running(),
    ensures
        sigaction_done(*old(kernel), *final(kernel), signum, action, old_action, r),
{
    let ghost k0 = *kernel;
    let pid = current_process(kernel);
    if signum < 0 || signum > 31 || action == 0 || old_action == 0 {
        return -1;
    }
    let sig: usize = signum as usize;
    let flag = SignalFlags::of(sig);
    if flag.bits == crate::task::signal::SIGKILL || flag.bits == crate::task::signal::SIGSTOP {
        return -1;
    }
    if read_user(kernel, pid, action, 16).is_none() || read_user(kernel, pid, old_action, 16).is_none() {
        return -1;
    }
    let prev = kernel.processes[pid].as_ref().unwrap().signal_actions.table[sig];
    let mut bytes = vstd::bytes::u64_to_le_bytes(prev.handler);
    let mut mask_bytes = vstd::bytes::u32_to_le_bytes(prev.mask.bits);
    bytes.append(&mut mask_bytes);
    bytes.push(0);
    bytes.push(0);
    bytes.push(0);
    bytes.push(0);
    proof {
        assert(bytes@ =~= action_bytes(prev));
        vstd::bytes::lemma_auto_spec_u64_to_from_le_bytes();
        vstd::bytes::lemma_auto_spec_u32_to_from_le_bytes();
        assert(bytes@.len() == 16);
    }
    let done = write_user(kernel, pid, old_action, bytes.as_slice());
    let ghost k1 = *kernel;
    proof {
        assert(done);
        assert forall|i: int| 0 <= i < 16 implies (#[trigger] k1.process(
            pid as int,
        ).memory_set.user_byte((action + i) as u64)).is_some() by {
            assert(k0.process(pid as int).memory_set.user_byte((action + i) as u64).is_some());
        }
    }
    let new_bytes = match read_user(kernel, pid, action, 16) {
        None => {
            proof {
                assert(false);
            }
            return 0;
        },
        Some(b) => b,
    };
    let handler = vstd::bytes::u64_from_le_bytes(vstd::slice::slice_subrange(new_bytes.as_slice(), 0, 8));
    let mask = vstd::bytes::u32_from_le_bytes(vstd::slice::slice_subrange(new_bytes.as_slice(), 8, 12));
    let mut p = kernel.processes[pid].take().unwrap();
    p.signal_actions.table[sig] = SignalAction { handler, mask: SignalFlags { bits: mask } };
    kernel.processes.set(pid, Some(p));
    proof {
        lemma_process_changed(k1, *kernel, pid as int);
    }
    0
}

/// The word of eight bytes at address `ptr` as a program with address space
/// `m` sees it, if the word lies in one page that the program can reach.
#[verifier::opaque]
pub open spec fn user_word(m: &MemorySet, ptr: u64) -> Option<u64> {
    if ptr % 4096 + 8 <= 4096 && m.user_page(ptr / 4096).is_some() {
        Some(
            vstd::bytes::spec_u64_from_le_bytes(
                m.user_page(ptr / 4096).unwrap().subrange((ptr % 4096) as int, ptr % 4096 + 8),
            ),
        )
    } else {
        None
    }
}

/// Whether `s` is the string at address `ptr`: its bytes, none of them
/// zero, with a zero byte behind them.
#[verifier::opaque]
pub open spec fn is_user_str(m: &MemorySet, ptr: u64, s: Seq<u8>) -> bool {
    &&& ptr + s.len() < crate::mm::user_buffer::USER_LIMIT
    &&& forall|i: int|
        0 <= i < s.len() ==> #[trigger] m.user_byte((ptr + i) as u64) == Some(s[i]) && s[i] != 0
    &&& m.user_byte((ptr + s.len()) as u64) == Some(0u8)
}

/// Whether word `i` of the list at address `args` is the address of the
/// string `s`, and not 0.
pub open spec fn holds_string(m: &MemorySet, args: u64, i: int, s: Seq<u8>) -> bool {
    &&& args + 8 * i + 8 <= crate::mm::user_buffer::USER_LIMIT
    &&& user_word(m, (args + 8 * i) as u64).is_some()
    &&& user_word(m, (args + 8 * i) as u64).unwrap() != 0
    &&& is_user_str(m, user_word(m, (args + 8 * i) as u64).unwrap(), s)
}

/// Whether `v` holds the first `n` strings of the list at address `args`.
pub open spec fn holds_strings(m: &MemorySet, args: u64, v: Seq<Vec<u8>>, n: int) -> bool {
    forall|i: int| 0 <= i < n ==> #[trigger] holds_string(m, args, i, v[i]@)
}

/// Whether the list at address `args` breaks off behind its first `n`
/// strings, which `v` holds: the program cannot reach word `n` of the list,
/// or the word is the address of no string that the program can reach.
pub open spec fn list_breaks(m: &MemorySet, args: u64, v: Seq<Vec<u8>>, n: int) -> bool {
    &&& 0 <= n
    &&& holds_strings(m, args, v, n)
    &&& args + 8 * n + 8 > crate::mm::user_buffer::USER_LIMIT || user_word(
        m,
        (args + 8 * n) as u64,
    ).is_none() || (user_word(m, (args + 8 * n) as u64).unwrap() != 0 && forall|s: Seq<u8>|
        !#[trigger] is_user_str(m, user_word(m, (args + 8 * n) as u64).unwrap(), s))
}

/// Where the bytes from address `word` on cannot be reached up to a zero
/// byte, there is no string at that address.
pub proof fn lemma_no_string(m: &MemorySet, word: u64, n: int)
    requires
        0 <= n,
        word + n > u64::MAX || m.user_byte((word + n) as u64).is_none(),
        forall|i: int|
            0 <= i < n ==> (#[trigger] m.user_byte((word + i) as u64)).is_some() && m.user_byte(
                (word + i) as u64,
            ) != Some(0u8),
    ensures
        forall|s: Seq<u8>| !#[trigger] is_user_str(m, word, s),
{
    reveal(is_user_str);
    assert forall|s: Seq<u8>| !#[trigger] is_user_str(m, word, s) by {
        if is_user_str(m, word, s) {
            if s.len() < n {
                assert(m.user_byte((word + s.len()) as u64) == Some(0u8));
            } else if s.len() == n {
            } else {
                assert(m.user_byte((word + n) as u64) == Some(s[n]));
            }
        }
    }
}

/// A list that holds its first strings holds one more when the next word
/// is the address of the next string.
pub proof fn lemma_holds_push(m: &MemorySet, args: u64, before: Seq<Vec<u8>>, v: Seq<Vec<u8>>)
    requires
        holds_strings(m, args, before, before.len() as int),
        v.len() == before.len() + 1,
        forall|i: int| 0 <= i < before.len() ==> v[i] == before[i],
        args + 8 * before.len() + 8 <= crate::mm::user_buffer::USER_LIMIT,
        user_word(m, (args + 8 * before.len()) as u64).is_some(),
        user_word(m, (args + 8 * before.len()) as u64).unwrap() != 0,
        is_user_str(
            m,
            user_word(m, (args + 8 * before.len()) as u64).unwrap(),
            v[before.len() as int]@,
        ),
    ensures
        holds_strings(m, args, v, v.len() as int),
{
    assert forall|i: int| 0 <= i < v.len() implies #[trigger] holds_string(m, args, i, v[i]@) by {
        if i < before.len() {
            assert(holds_string(m, args, i, before[i]@));
        }
    }
}

/// The word of eight bytes at address `at`; see `user_word`.
fn word_at(m: &MemorySet, at: u64) -> (r: Option<u64>)
    requires
        m.page_table.frames_wf(),
        m.areas_wf(),
    ensures
        r == user_word(m, at),
{
    reveal(user_word);
    crate::mm::user_buffer::translated_ref(m, at)
}

/// The string at address `word`, if there is one; see `is_user_str`.
fn string_at(m: &MemorySet, word: u64) -> (r: Option<Vec<u8>>)
    requires
        m.page_table.frames_wf(),
        m.areas_wf(),
    ensures
        r.is_some() ==> is_user_str(m, word, r.unwrap()@),
        r.is_none() ==> forall|s: Seq<u8>| !#[trigger] is_user_str(m, word, s),
{
    let r = crate::mm::user_buffer::translated_str(m, word);
    proof {
        if r.is_none() {
            let n = choose|n: int|
                0 <= n && (word + n > u64::MAX || (#[trigger] m.user_byte((word + n) as u64)).is_none())
                    && forall|i: int|
                    0 <= i < n ==> (#[trigger] m.user_byte((word + i) as u64)).is_some()
                        && m.user_byte((word + i) as u64) != Some(0u8);
            lemma_no_string(m, word, n);
        } else {
            reveal(is_user_str);
        }
    }
    r
}

/// The strings of the list at address `args` in the address space of the
/// running thread: the list is made of the addresses of the strings and
/// ends with a word that is 0. `None` where the program cannot reach the
/// list up to that word, or one of the strings.
pub fn exec_arguments(kernel: &Kernel, args: u64) -> (r: Option<Vec<Vec<u8>>>)
    requires
        kernel.wf(),
        kernel.running(),
    ensures
        r.is_some() ==> {
            let m = &kernel.process(kernel.current_pid()).memory_set;
            let v = r.unwrap()@;
            &&& holds_strings(m, args, v, v.len() as int)
            &&& user_word(m, (args + 8 * v.len()) as u64) == Some(0u64)
        },
        r.is_none() ==> exists|n: int, v: Seq<Vec<u8>>| #[trigger]
            list_breaks(&kernel.process(kernel.current_pid()).memory_set, args, v, n),
{
    let pid = current_process(kernel);
    proof {
        assert(kernel.spaces()[pid + 1] == Some(kernel.process(pid as int).memory_set));
        crate::syscall::user_memory::lemma_user_ready(
            kernel.process(pid as int).memory_set,
            kernel.frame_allocator@,
        );
    }
    let m = &kernel.processes[pid].as_ref().unwrap().memory_set;
    let mut v: Vec<Vec<u8>> = Vec::new();
    let mut at: u64 = args;
    loop
        invariant
            m.page_table.frames_wf(),
            m.areas_wf(),
            *m == kernel.process(kernel.current_pid()).memory_set,
            at == args + 8 * v@.len(),
            holds_strings(m, args, v@, v@.len() as int),
        decreases u64::MAX - at,
    {
        if at > crate::mm::user_buffer::USER_LIMIT - 8 {
            proof {
                assert(list_breaks(m, args, v@, v@.len() as int));
            }
            return None;
        }
        let word = match word_at(m, at) {
            None => {
                proof {
                    assert(list_breaks(m, args, v@, v@.len() as int));
                }
                return None;
            },
            Some(w) => w,
        };
        if word == 0 {
            return Some(v);
        }
        let s = match string_at(m, word) {
            None => {
                proof {
                    assert(list_breaks(m, args, v@, v@.len() as int));
                }
                return None;
            },
            Some(s) => s,
        };
        let ghost before = v@;
        v.push(s);
        proof {
            lemma_holds_push(m, args, before, v@);
        }
        at = at + 8;
    }
}

/// The string at address `path` in the address space of the running
/// thread, if there is one; see `is_user_str`.
pub fn name_at(kernel: &Kernel, path: u64) -> (r: Option<Vec<u8>>)
    requires
        kernel.wf(),
        kernel.running(),
    ensures
        r.is_some() ==> is_user_str(
            &kernel.process(kernel.current_pid()).memory_set,
            path,
            r.unwrap()@,
        ),
        r.is_none() ==> forall|s: Seq<u8>|
            !#[trigger] is_user_str(&kernel.process(kernel.current_pid()).memory_set, path, s),
{
    let pid = current_process(kernel);
    proof {
        assert(kernel.spaces()[pid + 1] == Some(kernel.process(pid as int).memory_set));
        crate::syscall::user_memory::lemma_user_ready(
            kernel.process(pid as int).memory_set,
            kernel.frame_allocator@,
        );
    }
    string_at(&kernel.processes[pid].as_ref().unwrap().memory_set, path)
}

/// Whether the process of the running thread can start a new program: it
/// has not ended and has one thread, the running one.
pub open spec fn exec_ready(k: Kernel) -> bool {
    let p = k.process(k.current_pid());
    &&& !p.is_zombie
    &&& p.tasks@.len() == 1
    &&& p.tasks@[0] == Some(k.current() as usize)
}

/// What `sys_exec` does and gives: `k0` is the kernel before the call, `k1`
/// after it, `elf` the image of the program, if a file was found, `args`
/// the arguments, and `r` what the call gives. Without an image, or where
/// `exec_ready` does not hold, the call gives -1 and nothing changes. Else it
/// gives the number of the arguments where `exec_fits` holds, and -1 where
/// the image has no load plan; whenever it gives -1, nothing has changed but
/// the allocator of frames. Where it does not give -1, the process has the
/// address space of the program with the arguments on its stack, and its
/// thread starts at the entry of the program: the number of the arguments in
/// register `a0`, the address of their table in `a1`, the stack pointer at
/// the multiple of eight at or below the last string, and all other
/// registers zero.
pub open spec fn exec_done(k0: Kernel, k1: Kernel, elf: Option<Seq<u8>>, args: Seq<Vec<u8>>, r: i64) -> bool {
    &&& k1.wf()
    &&& k1.pipes == k0.pipes
    &&& r == -1 || r == args.len()
    &&& elf.is_none() || !exec_ready(k0) ==> r == -1 && k1 == k0
    &&& r == -1 ==> only_frames_changed(k0, k1)
    &&& elf.is_some() && exec_ready(k0) && crate::kernel::exec_fits(k0, elf.unwrap(), args) ==> r
        == args.len()
    &&& elf.is_some() && exec_ready(k0) && crate::mm::elf::load_plan_of(elf.unwrap()).is_none()
        ==> r == -1
    &&& r != -1 ==> {
        let pid = k0.current_pid();
        let h = k0.current();
        let plan = crate::mm::elf::load_plan_of(elf.unwrap()).unwrap();
        let p = k1.process(pid);
        let t = k1.thread(h);
        let argv_base = plan.user_stack_bottom + 8192 - 8 * (args.len() + 1);
        let last = crate::kernel::arg_addr(args, argv_base, args.len() - 1);
        &&& k1.has_process(pid)
        &&& k1.has_thread(h)
        &&& p.memory_set.built_for(
            plan.regions(),
            plan.regions().len() as int,
            crate::mm::memory_set::MapType::Framed,
        )
        &&& crate::kernel::holds_args(&p.memory_set, args, argv_base, args.len() as int)
        &&& crate::kernel::holds_bytes(
            &p.memory_set,
            argv_base + 8 * args.len(),
            vstd::bytes::spec_u64_to_le_bytes(0),
        )
        &&& p.fd_table == k0.process(pid).fd_table
        &&& t.trap_cx.sepc == plan.entry_point
        &&& t.trap_cx.x@[2] == last - last % 8
        &&& t.trap_cx.x@[10] == args.len()
        &&& t.trap_cx.x@[11] == argv_base
        &&& forall|i: int| 0 <= i < 32 && i != 2 && i != 10 && i != 11 ==> t.trap_cx.x@[i] == 0
        &&& k1.task_manager == k0.task_manager
        &&& k1.processor == k0.processor
        &&& k1.files == k0.files
    }
}

/// The image as contracts speak of it: its bytes, if there is one.
pub open spec fn image_of(elf_data: Option<&[u8]>) -> Option<Seq<u8>> {
    match elf_data {
        Some(d) => Some(d@),
        None => None,
    }
}

/// The process of the running thread starts the program `elf_data` with
/// the arguments `args`; see `ProcessControlBlock::exec` and `exec_done`.
/// `elf_data` is `None` where no file of the name asked for was found.
pub fn sys_exec(kernel: &mut Kernel, elf_data: Option<&[u8]>, args: &Vec<Vec<u8>>) -> (r: i64)
    requires
        old(kernel).wf(),
        old(kernel).running(),
        args@.len() <= i64::MAX,
    ensures
        exec_done(*old(kernel), *final(kernel), image_of(elf_data), args@, r),
{
    let ghost k0 = *kernel;
    let data = match elf_data {
        None => {
            return -1;
        },
        Some(d) => d,
    };
    let pid = current_process(kernel);
    let h = kernel.processor.current().unwrap();
    let p = kernel.processes[pid].as_ref().unwrap();
    if p.is_zombie || p.tasks.len() != 1 {
        return -1;
    }
    match p.tasks[0] {
        None => {
            return -1;
        },
        Some(t) => {
            if t != h {
                return -1;
            }
        },
    }
    match ProcessControlBlock::exec(kernel, pid, data, args) {
        Err(_) => -1,
        Ok(_) => {
            let argc = args.len();
            if argc as u128 <= i64::MAX as u128 {
                argc as i64
            } else {
                -1
            }
        },
    }
}

/// Whether a wait for `pid` is a wait for child `c`: -1 stands for any child.
pub open spec fn wanted(pid: i64, c: usize) -> bool {
    pid == -1 || pid == c
}

/// Whether child `c` has ended and a wait for `pid` by the running thread
/// can take it.
pub open spec fn is_zombie_child(k: Kernel, c: usize, pid: i64) -> bool {
    &&& wanted(pid, c)
    &&& c != k.current_pid()
    &&& k.has_process(c as int)
    &&& k.process(c as int).is_zombie
}

/// Index of the first of the children from index `from` on that a wait for
/// `pid` can take, or -1.
pub open spec fn zombie_from(k: Kernel, children: Seq<usize>, pid: i64, from: int) -> int
    decreases children.len() - from,
{
    if from < 0 || from >= children.len() {
        -1
    } else if is_zombie_child(k, children[from], pid) {
        from
    } else {
        zombie_from(k, children, pid, from + 1)
    }
}

/// What `zombie_from` finds is a child from `from` on that can be taken.
pub proof fn lemma_zombie_from(k: Kernel, children: Seq<usize>, pid: i64, from: int)
    requires
        0 <= from,
    ensures
        zombie_from(k, children, pid, from) >= 0 ==> from <= zombie_from(k, children, pid, from)
            < children.len() && is_zombie_child(
            k,
            children[zombie_from(k, children, pid, from)],
            pid,
        ),
        zombie_from(k, children, pid, from) >= -1,
    decreases children.len() - from,
{
    if from < children.len() && !is_zombie_child(k, children[from], pid) {
        lemma_zombie_from(k, children, pid, from + 1);
    }
}

/// What `sys_waitpid` does and gives: `k0` is the kernel before the call, `k1` after it, `r` what the call gives.
pub open spec fn waitpid_done(
    k0: Kernel,
    k1: Kernel,
    pid: i64,
    exit_code_ptr: u64,
    r: i64,
) -> bool {
    &&& (k1.wf())
    &&& (crate::syscall::fs::pipes_wf(k1))
    &&& (({
            let parent = k0.current_pid();
            let p0 = k0.process(parent);
            let idx = zombie_from(k0, p0.children@, pid, 0);
            if !(exists|i: int| 0 <= i < p0.children@.len() && wanted(pid, #[trigger] p0.children@[i])) {
                r == -1 && k1 == k0
            } else if idx < 0 {
                r == -2 && k1 == k0
            } else if !p0.memory_set.user_range_ok(exit_code_ptr, 4) {
                r == -1 && k1 == k0
            } else {
                let child = p0.children@[idx];
                let c0 = k0.process(child as int);
                let p1 = k1.process(parent);
                &&& r == as_result(child as int)
                &&& k1.has_process(parent)
                &&& !k1.has_process(child as int)
                &&& k1.processes@.len() == k0.processes@.len()
                &&& forall|q: int|
                    0 <= q < k0.processes@.len() && q != parent && q != child
                        ==> #[trigger] k1.processes@[q] == k0.processes@[q]
                &&& p1.children@ == p0.children@.remove(idx)
                &&& p1.memory_set.same_frames(&p0.memory_set)
                &&& p1.memory_set.user_bytes(exit_code_ptr, 4) == vstd::bytes::spec_u32_to_le_bytes(
                    word32_of(c0.exit_code),
                )
                &&& forall|va: u64|
                    !(exit_code_ptr <= va < exit_code_ptr + 4) ==> #[trigger] p1.memory_set.user_byte(
                        va,
                    ) == p0.memory_set.user_byte(va)
                &&& p1.fd_table == p0.fd_table
                &&& p1.tasks == p0.tasks
                &&& p1.signals == p0.signals
                &&& p1.parent == p0.parent
                &&& p1.is_zombie == p0.is_zombie
                &&& !k1.pid_allocator.in_use(child)
                &&& forall|f: u64|
                    c0.memory_set.owns(f) ==> !k1.frame_allocator@.in_use(f)
                &&& k1.threads@.len() == k0.threads@.len()
                &&& forall|g: int|
                    0 <= g < k0.threads@.len() ==> #[trigger] k1.threads@[g]
                        == if crate::task::reap::thread_of(k0, c0.tasks@, child as int, g) {
                        None
                    } else {
                        k0.threads@[g]
                    }
                &&& (k1.files@, k1.pipes@) == crate::task::reap::closed_all(
                    k0.files@,
                    k0.pipes@,
                    c0.fd_table@,
                    c0.fd_table@.len() as int,
                )
                &&& k1.task_manager == k0.task_manager
                &&& k1.processor == k0.processor
            }
        }))
}

/// The running thread waits for a child of its process: for child `pid`,
/// or for any child if `pid` is -1. The call gives -1 where the process has
/// no such child, and -2 where no such child has ended; nothing has changed
/// then. Else the first such child that has ended is taken from the
/// children and is gone as `free_process` says, its exit code is stored, in
/// four bytes, at address `exit_code_ptr`, and the call gives its number.
/// Where the program cannot reach those four bytes the call gives -1 and
/// nothing has changed.
pub fn sys_waitpid(kernel: &mut Kernel, pid: i64, exit_code_ptr: u64) -> (r: i64)
    requires
        old(kernel).wf(),
        old(kernel).running(),
        crate::syscall::fs::pipes_wf(*old(kernel)),
    ensures
        waitpid_done(*old(kernel), *final(kernel), pid, exit_code_ptr, r),
{
    let ghost k0 = *kernel;
    let parent = current_process(kernel);
    let n: usize = kernel.processes[parent].as_ref().unwrap().children.len();
    let ghost children = k0.process(parent as int).children@;
    let mut any = false;
    let mut found: Option<usize> = None;
    let mut i: usize = n;
    while i > 0
        invariant
            0 <= i <= n,
            n == children.len(),
            *kernel == k0,
            kernel.running(),
            parent == k0.current_pid(),
            children == k0.process(parent as int).children@,
            any == (exists|j: int| i <= j < n && wanted(pid, #[trigger] children[j])),
            match found {
                Some(f) => f == zombie_from(k0, children, pid, i as int),
                None => zombie_from(k0, children, pid, i as int) == -1,
            },
        decreases i,
    {
        i -= 1;
        let c = kernel.processes[parent].as_ref().unwrap().children[i];
        let hit = pid == -1 || (pid >= 0 && pid as u128 == c as u128);
        if hit {
            any = true;
            if c != parent && c < kernel.processes.len() {
                match &kernel.processes[c] {
                    Some(cp) => {
                        if cp.is_zombie {
                            found = Some(i);
                        }
                    },
                    None => {},
                }
            }
        }
        proof {
            assert(hit == wanted(pid, children[i as int]));
            if !hit {
                assert forall|j: int| i <= j < n && wanted(pid, #[trigger] children[j]) implies i + 1
                    <= j by {}
            }
        }
    }
    proof {
        lemma_zombie_from(k0, children, pid, 0);
    }
    if !any {
        return -1;
    }
    let idx = match found {
        None => {
            return -2;
        },
        Some(idx) => idx,
    };
    if read_user(kernel, parent, exit_code_ptr, 4).is_none() {
        return -1;
    }
    let child = kernel.processes[parent].as_ref().unwrap().children[idx];
    let mut p = kernel.processes[parent].take().unwrap();
    p.children.remove(idx);
    kernel.processes.set(parent, Some(p));
    proof {
        lemma_process_changed(k0, *kernel, parent as int);
    }
    let ghost k1 = *kernel;
    let code = crate::task::reap::free_process(kernel, child);
    let ghost k2 = *kernel;
    proof {
        assert(k1.processes@[child as int] == k0.processes@[child as int]);
        assert(k2.processes@[parent as int] == k1.processes@[parent as int]);
        assert forall|g: int|
            crate::task::reap::thread_of(k1, k1.process(child as int).tasks@, child as int, g)
                == crate::task::reap::thread_of(k0, k0.process(child as int).tasks@, child as int, g) by {}
        assert forall|i: int| 0 <= i < 4 implies (#[trigger] k2.process(
            parent as int,
        ).memory_set.user_byte((exit_code_ptr + i) as u64)).is_some() by {
            assert(k0.process(parent as int).memory_set.user_byte((exit_code_ptr + i) as u64).is_some());
        }
        vstd::bytes::lemma_auto_spec_u32_to_from_le_bytes();
    }
    let bytes = vstd::bytes::u32_to_le_bytes(to_word32(code));
    let done = write_user(kernel, parent, exit_code_ptr, bytes.as_slice());
    proof {
        assert(done);
    }
    to_result(child)
}

} // verus!

