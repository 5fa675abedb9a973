//! What the kernel does when a program traps, and before it lets the
//! program go on.
pub mod context;

use vstd::prelude::*;
use crate::config::TRAP_CONTEXT;
use crate::easy_fs::block_cache::BlockCacheManager;
use crate::easy_fs::block_dev::BlockDevice;
use crate::easy_fs::efs::EasyFileSystem;
use crate::kernel::{same_memory, Kernel};
use crate::syscall::fs::pipes_wf;
use crate::syscall::{exit_ready, syscall, syscall_done, Dispatch};
use crate::task::delivery::{
    check_signals_error_of_current, current_add_signal, current_add_signal_done, error_code,
    handle_signals, handle_signals_done, wait_unfrozen, wait_unfrozen_done,
};
use crate::task::sched::{
    current_process, except_thread, exit_current_and_run_next, suspend_current_and_run_next,
    update_thread, ExitAction,
};
use crate::task::signal::{SignalFlags, SIGILL, SIGSEGV};
use crate::task::task::{Resume, TaskControlBlock, TaskStatus};
use crate::trap::context::TrapContext;

verus! {

/// Why a program has trapped.
#[derive(Copy, Clone, PartialEq, Eq, Structural, Debug)]
pub enum TrapCause {
    /// The program has made a system call.
    UserEnvCall,
    StoreFault,
    StorePageFault,
    InstructionFault,
    InstructionPageFault,
    LoadFault,
    LoadPageFault,
    IllegalInstruction,
    /// The timer has interrupted the program.
    SupervisorTimer,
}

/// What the caller does after a trap has been handled.
pub enum TrapOutcome {
    /// The running thread returns to its program: the caller jumps to the
    /// routine that restores the registers, with the address of the trap
    /// context and the value that selects the address space of the program.
    Return { trap_cx_ptr: u64, user_satp: u64 },
    /// No thread runs: the idle loop picks the next one.
    Scheduled,
    /// The machine is shut down.
    Shutdown { success: bool },
}

/// What `trap_return` gives for the running thread of `k`.
pub open spec fn returns_to(k: Kernel, out: TrapOutcome) -> bool {
    out == (TrapOutcome::Return {
        trap_cx_ptr: TRAP_CONTEXT,
        user_satp: k.process(k.current_pid()).memory_set.page_table.token_value(),
    })
}

/// The running thread returns to its program; see `TrapOutcome::Return`.
pub fn trap_return(kernel: &Kernel) -> (out: TrapOutcome)
    requires
        kernel.running(),
    ensures
        returns_to(*kernel, out),
{
    TrapOutcome::Return {
        trap_cx_ptr: TRAP_CONTEXT,
        user_satp: crate::task::sched::current_user_token(kernel),
    }
}

/// What the caller does after a thread has ended.
pub open spec fn outcome_of(action: ExitAction) -> TrapOutcome {
    match action {
        ExitAction::Shutdown { success } => TrapOutcome::Shutdown { success },
        ExitAction::Scheduled => TrapOutcome::Scheduled,
    }
}

/// Whether `k1` and `out` are what comes of `k0` when the running thread ends
/// with `exit_code`; where it cannot end as `exit_current_and_run_next` says,
/// nothing changes and the machine is shut down as after a failure.
pub open spec fn ended(k0: Kernel, k1: Kernel, exit_code: i32, out: TrapOutcome) -> bool {
    if exit_ready(k0) {
        exists|action: ExitAction| #[trigger]
            crate::syscall::process::exit_done(k0, k1, exit_code, action) && out == outcome_of(action)
    } else {
        k1 == k0 && out == (TrapOutcome::Shutdown { success: false })
    }
}

/// The running thread ends with `exit_code`; see `ended`.
fn end_current(kernel: &mut Kernel, exit_code: i32) -> (out: TrapOutcome)
    requires
        old(kernel).wf(),
        old(kernel).running(),
        pipes_wf(*old(kernel)),
    ensures
        final(kernel).wf(),
        pipes_wf(*final(kernel)),
        ended(*old(kernel), *final(kernel), exit_code, out),
{
    let pid = current_process(kernel);
    let ready = pid == crate::task::id::IDLE_PID || (pid != kernel.initproc && kernel.initproc
        < kernel.processes.len() && kernel.processes[kernel.initproc].is_some());
    if !ready {
        return TrapOutcome::Shutdown { success: false };
    }
    let action = crate::syscall::process::sys_exit(kernel, exit_code);
    match action {
        ExitAction::Shutdown { success } => TrapOutcome::Shutdown { success },
        ExitAction::Scheduled => TrapOutcome::Scheduled,
    }
}

/// Whether `k1` and `out` are what comes of `k0` when the running thread,
/// after its signals have been looked at and it has not given up the
/// processor, either ends because of a pending signal that ends a process,
/// with the exit code of that signal, or returns to its program.
pub open spec fn checked(k0: Kernel, k1: Kernel, out: TrapOutcome) -> bool {
    let bits = k0.process(k0.current_pid()).signals.bits;
    if bits & (4u32 | 16u32 | 64u32 | 256u32 | 2048u32) != 0 {
        ended(k0, k1, error_code(bits), out)
    } else {
        k1 == k0 && returns_to(k0, out)
    }
}

/// The last step before a thread returns to its program; see `checked`.
fn check_and_return(kernel: &mut Kernel) -> (out: TrapOutcome)
    requires
        old(kernel).wf(),
        old(kernel).running(),
        pipes_wf(*old(kernel)),
    ensures
        final(kernel).wf(),
        pipes_wf(*final(kernel)),
        checked(*old(kernel), *final(kernel), out),
{
    match check_signals_error_of_current(kernel) {
        Some((errno, _msg)) => end_current(kernel, errno),
        None => trap_return(kernel),
    }
}

/// Whether `k1` and `out` are what comes of `k0` when the running thread is
/// about to return to its program: its signals are handled as
/// `handle_signals` says, which leads to the kernel `km`; where the thread
/// has given up the processor no thread runs, else `checked` says what
/// follows.
pub open spec fn left(k0: Kernel, km: Kernel, k1: Kernel, out: TrapOutcome) -> bool {
    exists|suspended: bool| #[trigger]
        handle_signals_done(k0, km, suspended) && if suspended {
            k1 == km && out is Scheduled
        } else {
            checked(km, k1, out)
        }
}

/// What is done before the running thread returns to its program; see `left`.
pub fn after_trap(kernel: &mut Kernel) -> (out: TrapOutcome)
    requires
        old(kernel).wf(),
        old(kernel).running(),
        pipes_wf(*old(kernel)),
    ensures
        final(kernel).wf(),
        pipes_wf(*final(kernel)),
        exists|km: Kernel| #[trigger] left(*old(kernel), km, *final(kernel), out),
{
    let ghost k0 = *kernel;
    let suspended = handle_signals(kernel);
    let ghost km = *kernel;
    let out = if suspended {
        TrapOutcome::Scheduled
    } else {
        check_and_return(kernel)
    };
    proof {
        assert(handle_signals_done(k0, km, suspended));
        assert(left(k0, km, *kernel, out));
    }
    out
}

/// The address of the instruction behind the one at `sepc`.
pub open spec fn next_instruction(sepc: u64) -> u64 {
    if sepc <= u64::MAX - 4 {
        (sepc + 4) as u64
    } else {
        (sepc - (u64::MAX - 3)) as u64
    }
}

/// Whether `k1` is `k0` but for the trap context and the next step of the
/// running thread: the thread goes on behind the instruction that trapped
/// and returns to its program when it runs next.
pub open spec fn entered(k0: Kernel, k1: Kernel) -> bool {
    let h = k0.current();
    &&& except_thread(k0, k1, h)
    &&& k1.has_thread(h)
    &&& k1.thread(h) == (TaskControlBlock {
        trap_cx: TrapContext {
            sepc: next_instruction(k0.thread(h).trap_cx.sepc),
            ..k0.thread(h).trap_cx
        },
        resume: Resume::ToUser,
        ..k0.thread(h)
    })
}

/// Whether `k1` is `k0` after the number `r` that a system call gave has
/// been put, as the word that holds it, into register `a0` of thread `h`. Nothing is done where the
/// thread is gone or makes the call again when it runs next.
pub open spec fn settled(k0: Kernel, k1: Kernel, h: int, r: i64) -> bool {
    if k0.has_thread(h) && k0.thread(h).resume != Resume::Again {
        &&& except_thread(k0, k1, h)
        &&& k1.has_thread(h)
        &&& k1.thread(h).trap_cx.x@ == k0.thread(h).trap_cx.x@.update(
            10,
            crate::user::syscall::word_of(r as int),
        )
        &&& k1.thread(h) == (TaskControlBlock { trap_cx: k1.thread(h).trap_cx, ..k0.thread(h) })
        &&& k1.thread(h).trap_cx == (TrapContext {
            x: k1.thread(h).trap_cx.x,
            ..k0.thread(h).trap_cx
        })
    } else {
        k1 == k0
    }
}

/// Puts what a system call gave into register `a0` of thread `h`; see `settled`.
pub fn syscall_return(kernel: &mut Kernel, h: usize, r: i64)
    requires
        old(kernel).wf(),
        pipes_wf(*old(kernel)),
    ensures
        final(kernel).wf(),
        pipes_wf(*final(kernel)),
        settled(*old(kernel), *final(kernel), h as int, r),
        final(kernel).processor == old(kernel).processor,
        final(kernel).processes == old(kernel).processes,
{
    if h >= kernel.threads.len() {
        return ;
    }
    match kernel.threads[h] {
        None => {},
        Some(t) => {
            if t.resume != Resume::Again {
                let mut t = t;
                t.trap_cx.x[10] = crate::user::syscall::to_word(r);
                update_thread(kernel, h, t);
            }
        },
    }
}

/// Whether `k1` and `out` are what comes of `kb`, the kernel after a system
/// call of thread `h` that gave `d`: the number that the call gave, -1 for
/// a call that there is not, is settled as `settled` says, which leads to
/// `kc`, and the thread, if it still runs, leaves as `left` says through
/// `km`; a thread that has ended leaves as `outcome_of` says.
pub open spec fn served(kb: Kernel, kc: Kernel, km: Kernel, k1: Kernel, h: int, d: Dispatch, out: TrapOutcome) -> bool {
    match d {
        Dispatch::Done(r) => settled(kb, kc, h, r) && if kc.running() {
            left(kc, km, k1, out)
        } else {
            k1 == kc && out is Scheduled
        },
        Dispatch::Unknown => settled(kb, kc, h, -1i64) && if kc.running() {
            left(kc, km, k1, out)
        } else {
            k1 == kc && out is Scheduled
        },
        Dispatch::Exit(action) => k1 == kb && out == outcome_of(action),
    }
}

/// What follows a system call of thread `h` that gave `d`; see `served`.
pub fn after_syscall(kernel: &mut Kernel, h: usize, d: Dispatch) -> (out: TrapOutcome)
    requires
        old(kernel).wf(),
        pipes_wf(*old(kernel)),
    ensures
        final(kernel).wf(),
        pipes_wf(*final(kernel)),
        exists|kc: Kernel, km: Kernel| #[trigger]
            served(*old(kernel), kc, km, *final(kernel), h as int, d, out),
{
    let ghost kb = *kernel;
    match d {
        Dispatch::Exit(action) => {
            let out = match action {
                ExitAction::Shutdown { success } => TrapOutcome::Shutdown { success },
                ExitAction::Scheduled => TrapOutcome::Scheduled,
            };
            proof {
                assert(served(kb, kb, kb, *kernel, h as int, d, out));
            }
            out
        },
        Dispatch::Done(r) => {
            syscall_return(kernel, h, r);
            let ghost kc = *kernel;
            if is_running(kernel) {
                let out = after_trap(kernel);
                proof {
                    let km = choose|km: Kernel| #[trigger] left(kc, km, *kernel, out);
                    assert(served(kb, kc, km, *kernel, h as int, d, out));
                }
                out
            } else {
                proof {
                    assert(served(kb, kc, kc, *kernel, h as int, d, TrapOutcome::Scheduled));
                }
                TrapOutcome::Scheduled
            }
        },
        Dispatch::Unknown => {
            syscall_return(kernel, h, -1);
            let ghost kc = *kernel;
            if is_running(kernel) {
                let out = after_trap(kernel);
                proof {
                    let km = choose|km: Kernel| #[trigger] left(kc, km, *kernel, out);
                    assert(served(kb, kc, km, *kernel, h as int, d, out));
                }
                out
            } else {
                proof {
                    assert(served(kb, kc, kc, *kernel, h as int, d, TrapOutcome::Scheduled));
                }
                TrapOutcome::Scheduled
            }
        },
    }
}

/// Whether a thread runs and its process exists.
pub fn is_running(kernel: &Kernel) -> (r: bool)
    ensures
        r == kernel.running(),
{
    match kernel.processor.current() {
        None => false,
        Some(h) => {
            if h >= kernel.threads.len() {
                return false;
            }
            match kernel.threads[h] {
                None => false,
                Some(t) => t.process < kernel.processes.len() && kernel.processes[t.process].is_some(),
            }
        },
    }
}

/// The number of the call and the three arguments in the registers of a
/// trap context: `a7`, and `a0` to `a2`.
pub open spec fn call_of(cx: TrapContext) -> (u64, Seq<u64>) {
    (cx.x@[17], seq![cx.x@[10], cx.x@[11], cx.x@[12]])
}

/// Whether `k1` and `out` are what comes of the system call that the
/// running thread of `ka` has in its registers: the call is served as
/// `syscall` says, which leads to `kb` and gives `d`, and `served` says
/// what follows.
pub open spec fn called<D: BlockDevice>(
    fs: &EasyFileSystem,
    ka: Kernel,
    kb: Kernel,
    kc: Kernel,
    km: Kernel,
    k1: Kernel,
    args: [u64; 3],
    time: u64,
    c0: &BlockCacheManager,
    d0: &D,
    c1: &BlockCacheManager,
    d1: &D,
    d: Dispatch,
    out: TrapOutcome,
) -> bool {
    let cx = ka.thread(ka.current()).trap_cx;
    &&& args@ == call_of(cx).1
    &&& syscall_done(ka, kb, fs, call_of(cx).0, args, time, c0, d0, c1, d1, d)
    &&& served(kb, kc, km, k1, ka.current(), d, out)
}

/// Serves the system call that the running thread has in its registers;
/// see `called`.
fn serve_call<D: BlockDevice>(
    kernel: &mut Kernel,
    fs: &EasyFileSystem,
    time: u64,
    cache: &mut BlockCacheManager,
    block_device: &mut D,
) -> (out: TrapOutcome)
    requires
        old(kernel).wf(),
        old(kernel).running(),
        pipes_wf(*old(kernel)),
        fs.wf(),
        old(cache).wf(old(block_device)),
    ensures
        final(kernel).wf(),
        pipes_wf(*final(kernel)),
        final(cache).wf(final(block_device)),
        exists|kb: Kernel, kc: Kernel, km: Kernel, args: [u64; 3], d: Dispatch| #[trigger]
            called(
                fs,
                *old(kernel),
                kb,
                kc,
                km,
                *final(kernel),
                args,
                time,
                old(cache),
                old(block_device),
                final(cache),
                final(block_device),
                d,
                out,
            ),
{
    let ghost ka = *kernel;
    let h = kernel.processor.current().unwrap();
    let cx = kernel.threads[h].unwrap().trap_cx;
    let args: [u64; 3] = [cx.x[10], cx.x[11], cx.x[12]];
    let d = syscall(kernel, fs, cx.x[17], args, time, cache, block_device);
    let ghost kb = *kernel;
    let ghost d0 = d;
    let out = after_syscall(kernel, h, d);
    proof {
        assert(args@ =~= call_of(cx).1);
        let (kc, km) = choose|kc: Kernel, km: Kernel| #[trigger]
            served(kb, kc, km, *kernel, h as int, d0, out);
        assert(called(
            fs,
            ka,
            kb,
            kc,
            km,
            *kernel,
            args,
            time,
            old(cache),
            old(block_device),
            cache,
            block_device,
            d0,
            out,
        ));
    }
    out
}

/// The signal for a fault: the signal for an instruction that there is
/// not for that cause, and else the signal for a bad access to memory.
pub open spec fn fault_signal(cause: TrapCause) -> u32 {
    if cause == TrapCause::IllegalInstruction {
        SIGILL
    } else {
        SIGSEGV
    }
}

/// Whether `r` is what `trap_handler` gives and `k1` the kernel that it
/// leaves, by the cause of the trap. For a system call the thread goes on
/// behind the call as `entered` says, and the call is served as `called`
/// says. For a fault the signal of the fault becomes pending, and the
/// thread leaves as `left` says. For the timer the tick at which the next
/// interrupt is due is given, the timers that are due are taken out as
/// `check_timer` says, and the thread gives up the processor.
pub open spec fn trapped<D: BlockDevice>(
    fs: &EasyFileSystem,
    k0: Kernel,
    k1: Kernel,
    cause: TrapCause,
    time: u64,
    c0: &BlockCacheManager,
    d0: &D,
    c1: &BlockCacheManager,
    d1: &D,
    r: (TrapOutcome, Option<u64>),
) -> bool {
    match cause {
        TrapCause::UserEnvCall => {
            &&& r.1.is_none()
            &&& exists|ka: Kernel, kb: Kernel, kc: Kernel, km: Kernel, args: [u64; 3], d: Dispatch|
                entered(k0, ka) && #[trigger] called(fs, ka, kb, kc, km, k1, args, time, c0, d0, c1, d1, d, r.0)
        },
        TrapCause::SupervisorTimer => {
            &&& r.1 == if time + k0.machine.clock_freq / 100 <= u64::MAX {
                Some((time + k0.machine.clock_freq / 100) as u64)
            } else {
                None
            }
            &&& r.0 is Scheduled
            &&& *c1 == *c0 && *d1 == *d0
            &&& exists|ka: Kernel| #[trigger] ticked(k0, ka, k1, time)
        },
        _ => {
            &&& r.1.is_none()
            &&& *c1 == *c0 && *d1 == *d0
            &&& exists|ka: Kernel, km: Kernel|
                current_add_signal_done(k0, ka, SignalFlags { bits: fault_signal(cause) })
                    && #[trigger] left(ka, km, k1, r.0)
        },
    }
}

/// Whether `k1` is what comes of `k0` at a tick of the timer at time `time`:
/// the timers that are due are taken out as `check_timer` says, where the
/// clock ticks a thousand times in a second or more, which leads to `ka`,
/// and the running thread gives up the processor and stands last in the
/// ready queue.
pub open spec fn ticked(k0: Kernel, ka: Kernel, k1: Kernel, time: u64) -> bool {
    let h = k0.current();
    &&& same_memory(k0, ka)
    &&& same_memory(ka, k1)
    &&& if k0.machine.clock_freq >= 1000 {
        let now = (time / (k0.machine.clock_freq / 1000)) as u64;
        &&& ka.timers.list@ == k0.timers.list@.filter(
            |t: crate::timer::TimerCondVar| t.expire_ms > now,
        )
        &&& ka.task_manager.ready_queue@ == k0.task_manager.ready_queue@ + crate::timer::due_tasks(
            k0.timers.list@,
            now,
        )
    } else {
        ka == k0
    }
    &&& ka.processor == k0.processor
    &&& ka.processes == k0.processes
    &&& k1.processes == k0.processes
    &&& k1.timers == ka.timers
    &&& k1.files == k0.files
    &&& k1.pipes == k0.pipes
    &&& k1.processor.current.is_none()
    &&& k1.task_manager.ready_queue@ == ka.task_manager.ready_queue@.push(h as usize)
    &&& k1.has_thread(h)
    &&& ka.has_thread(h)
    &&& k1.thread(h) == (TaskControlBlock {
        task_status: TaskStatus::Ready,
        resume: Resume::ToUser,
        ..ka.thread(h)
    })
    &&& k1.threads@.len() == ka.threads@.len()
    &&& forall|g: int|
        0 <= g < ka.threads@.len() && g != h ==> #[trigger] k1.threads@[g] == ka.threads@[g]
}

/// Handles a trap of the running thread; see `trapped`. `time` is the time
/// in ticks of the clock.
pub fn trap_handler<D: BlockDevice>(
    kernel: &mut Kernel,
    fs: &EasyFileSystem,
    cause: TrapCause,
    time: u64,
    cache: &mut BlockCacheManager,
    block_device: &mut D,
) -> (r: (TrapOutcome, Option<u64>))
    requires
        old(kernel).wf(),
        old(kernel).running(),
        pipes_wf(*old(kernel)),
        fs.wf(),
        old(cache).wf(old(block_device)),
    ensures
        final(kernel).wf(),
        pipes_wf(*final(kernel)),
        final(cache).wf(final(block_device)),
        trapped(
            fs,
            *old(kernel),
            *final(kernel),
            cause,
            time,
            old(cache),
            old(block_device),
            final(cache),
            final(block_device),
            r,
        ),
{
    let ghost k0 = *kernel;
    match cause {
        TrapCause::UserEnvCall => {
            let h = kernel.processor.current().unwrap();
            let mut t = kernel.threads[h].unwrap();
            t.trap_cx.sepc = if t.trap_cx.sepc <= u64::MAX - 4 {
                t.trap_cx.sepc + 4
            } else {
                t.trap_cx.sepc - (u64::MAX - 3)
            };
            t.resume = Resume::ToUser;
            update_thread(kernel, h, t);
            let ghost ka = *kernel;
            let out = serve_call(kernel, fs, time, cache, block_device);
            proof {
                assert(entered(k0, ka));
                let (kb, kc, km, args, d) = choose|
                    kb: Kernel,
                    kc: Kernel,
                    km: Kernel,
                    args: [u64; 3],
                    d: Dispatch,
                | #[trigger]
                    called(
                        fs,
                        ka,
                        kb,
                        kc,
                        km,
                        *kernel,
                        args,
                        time,
                        old(cache),
                        old(block_device),
                        cache,
                        block_device,
                        d,
                        out,
                    );
                assert(called(
                    fs,
                    ka,
                    kb,
                    kc,
                    km,
                    *kernel,
                    args,
                    time,
                    old(cache),
                    old(block_device),
                    cache,
                    block_device,
                    d,
                    out,
                ));
            }
            (out, None)
        },
        TrapCause::SupervisorTimer => {
            let freq = kernel.machine.clock_freq;
            let next = if time <= u64::MAX - freq / 100 {
                Some(crate::timer::set_next_trigger(time, freq))
            } else {
                None
            };
            if freq >= 1000 {
                crate::timer::check_timer(kernel, crate::timer::get_time_ms(time, freq));
            }
            let ghost ka = *kernel;
            suspend_current_and_run_next(kernel, Resume::ToUser);
            proof {
                assert(ticked(k0, ka, *kernel, time));
            }
            (TrapOutcome::Scheduled, next)
        },
        _ => {
            let signal = if cause == TrapCause::IllegalInstruction {
                SignalFlags { bits: SIGILL }
            } else {
                SignalFlags { bits: SIGSEGV }
            };
            current_add_signal(kernel, signal);
            let ghost ka = *kernel;
            let out = after_trap(kernel);
            proof {
                let km = choose|km: Kernel| #[trigger] left(ka, km, *kernel, out);
                assert(current_add_signal_done(k0, ka, SignalFlags { bits: fault_signal(cause) }));
                assert(left(ka, km, *kernel, out));
            }
            (out, None)
        },
    }
}

/// Whether `k1` is `k0` but that the running thread returns to its program
/// when it runs next.
pub open spec fn resumed(k0: Kernel, k1: Kernel) -> bool {
    let h = k0.current();
    &&& except_thread(k0, k1, h)
    &&& k1.has_thread(h)
    &&& k1.thread(h) == (TaskControlBlock { resume: Resume::ToUser, ..k0.thread(h) })
}

/// Whether `k1` is `k0` but that thread `h`, if it asks to make its call
/// again, asks for mutex `mutex_id` again instead.
pub open spec fn relocks(k0: Kernel, k1: Kernel, h: int, mutex_id: usize) -> bool {
    if k0.has_thread(h) && k0.thread(h).resume == Resume::Again {
        &&& except_thread(k0, k1, h)
        &&& k1.has_thread(h)
        &&& k1.thread(h) == (TaskControlBlock { resume: Resume::Relock(mutex_id), ..k0.thread(h) })
    } else {
        k1 == k0
    }
}

/// Whether `k1` and `out` are what comes of `k0` when the thread that has
/// been put on the processor goes on, by what it was to do first. A thread
/// that returns to its program leaves as `left` says. One that makes its
/// system call again is served as `called` says. One that asks again for
/// the mutex that it gave up is served as `call_mutex_lock` says and, if it
/// still runs, leaves as `left` says. One that waits for the signal to
/// continue does what `wait_unfrozen` says and, if it has not given up the
/// processor, what `checked` says.
pub open spec fn went_on<D: BlockDevice>(
    fs: &EasyFileSystem,
    k0: Kernel,
    k1: Kernel,
    time: u64,
    c0: &BlockCacheManager,
    d0: &D,
    c1: &BlockCacheManager,
    d1: &D,
    out: TrapOutcome,
) -> bool {
    match k0.thread(k0.current()).resume {
        Resume::ToUser => *c1 == *c0 && *d1 == *d0 && exists|km: Kernel| #[trigger]
            left(k0, km, k1, out),
        Resume::Again => exists|
            ka: Kernel,
            kb: Kernel,
            kc: Kernel,
            km: Kernel,
            args: [u64; 3],
            d: Dispatch,
        |
            resumed(k0, ka) && #[trigger] called(fs, ka, kb, kc, km, k1, args, time, c0, d0, c1, d1, d, out),
        Resume::Relock(mutex_id) => *c1 == *c0 && *d1 == *d0 && exists|
            ka: Kernel,
            kb: Kernel,
            kc: Kernel,
            km: Kernel,
            d: Dispatch,
        | #[trigger]
            relocked(k0, ka, kb, kc, km, k1, mutex_id, d, out),
        Resume::Signals => *c1 == *c0 && *d1 == *d0 && exists|ka: Kernel, kb: Kernel, suspended: bool|
            resumed(k0, ka) && #[trigger] wait_unfrozen_done(ka, kb, suspended) && if suspended {
                k1 == kb && out is Scheduled
            } else {
                checked(kb, k1, out)
            },
    }
}

/// Whether `k1` and `out` are what comes of `k0` when the running thread
/// asks again for mutex `mutex_id`: it is to return to its program when it
/// runs next, which leads to `ka`; the call is served as `call_mutex_lock`
/// says, which leads to `kb` and gives `d`; `relocks` leads to `kc`; and
/// the thread leaves as `left` says if it still runs.
pub open spec fn relocked(
    k0: Kernel,
    ka: Kernel,
    kb: Kernel,
    kc: Kernel,
    km: Kernel,
    k1: Kernel,
    mutex_id: usize,
    d: Dispatch,
    out: TrapOutcome,
) -> bool {
    &&& resumed(k0, ka)
    &&& crate::syscall::mutex_lock_call(ka, kb, mutex_id as u64, d)
    &&& relocks(kb, kc, k0.current(), mutex_id)
    &&& if kc.running() {
        left(kc, km, k1, out)
    } else {
        k1 == kc && out is Scheduled
    }
}

/// The thread that has been put on the processor goes on; see `went_on`.
/// `time` is the time in ticks of the clock.
pub fn resume_thread<D: BlockDevice>(
    kernel: &mut Kernel,
    fs: &EasyFileSystem,
    time: u64,
    cache: &mut BlockCacheManager,
    block_device: &mut D,
) -> (out: TrapOutcome)
    requires
        old(kernel).wf(),
        old(kernel).running(),
        pipes_wf(*old(kernel)),
        fs.wf(),
        old(cache).wf(old(block_device)),
    ensures
        final(kernel).wf(),
        pipes_wf(*final(kernel)),
        final(cache).wf(final(block_device)),
        went_on(
            fs,
            *old(kernel),
            *final(kernel),
            time,
            old(cache),
            old(block_device),
            final(cache),
            final(block_device),
            out,
        ),
{
    let ghost k0 = *kernel;
    let h = kernel.processor.current().unwrap();
    let mut t = kernel.threads[h].unwrap();
    let resume = t.resume;
    match resume {
        Resume::ToUser => {
            let out = after_trap(kernel);
            proof {
                let km = choose|km: Kernel| #[trigger] left(k0, km, *kernel, out);
                assert(left(k0, km, *kernel, out));
            }
            out
        },
        Resume::Again => {
            t.resume = Resume::ToUser;
            update_thread(kernel, h, t);
            let ghost ka = *kernel;
            let out = serve_call(kernel, fs, time, cache, block_device);
            proof {
                assert(resumed(k0, ka));
                let (kb, kc, km, args, d) = choose|
                    kb: Kernel,
                    kc: Kernel,
                    km: Kernel,
                    args: [u64; 3],
                    d: Dispatch,
                | #[trigger]
                    called(
                        fs,
                        ka,
                        kb,
                        kc,
                        km,
                        *kernel,
                        args,
                        time,
                        old(cache),
                        old(block_device),
                        cache,
                        block_device,
                        d,
                        out,
                    );
                assert(called(
                    fs,
                    ka,
                    kb,
                    kc,
                    km,
                    *kernel,
                    args,
                    time,
                    old(cache),
                    old(block_device),
                    cache,
                    block_device,
                    d,
                    out,
                ));
            }
            out
        },
        Resume::Relock(mutex_id) => {
            t.resume = Resume::ToUser;
            update_thread(kernel, h, t);
            let ghost ka = *kernel;
            let d = crate::syscall::call_mutex_lock(kernel, mutex_id as u64);
            let ghost kb = *kernel;
            if h < kernel.threads.len() {
                match kernel.threads[h] {
                    Some(t2) => {
                        if t2.resume == Resume::Again {
                            let mut t2 = t2;
                            t2.resume = Resume::Relock(mutex_id);
                            update_thread(kernel, h, t2);
                        }
                    },
                    None => {},
                }
            }
            let ghost kc = *kernel;
            let out = if is_running(kernel) {
                after_trap(kernel)
            } else {
                TrapOutcome::Scheduled
            };
            proof {
                assert(resumed(k0, ka));
                assert(relocks(kb, kc, h as int, mutex_id));
                if kc.running() {
                    let km = choose|km: Kernel| #[trigger] left(kc, km, *kernel, out);
                    assert(relocked(k0, ka, kb, kc, km, *kernel, mutex_id, d, out));
                } else {
                    assert(relocked(k0, ka, kb, kc, kc, *kernel, mutex_id, d, out));
                }
            }
            out
        },
        Resume::Signals => {
            t.resume = Resume::ToUser;
            update_thread(kernel, h, t);
            let ghost ka = *kernel;
            let suspended = wait_unfrozen(kernel);
            let ghost kb = *kernel;
            let out = if suspended {
                TrapOutcome::Scheduled
            } else {
                check_and_return(kernel)
            };
            proof {
                assert(resumed(k0, ka));
                assert(wait_unfrozen_done(ka, kb, suspended));
            }
            out
        },
    }
}

} // verus!
