//! Delivery of signals to the process of the running thread.
use vstd::prelude::*;
use super::action::{SignalAction, SignalActions};
use super::process::ProcessControlBlock;
use super::sched::{
    current_process, lemma_process_changed, same_core, suspend_current_and_run_next, update_thread,
};
use super::signal::{signal_bit, SignalFlags, MAX_SIG, SIGCONT, SIGDEF, SIGKILL, SIGSTOP};
use super::task::{Resume, TaskControlBlock, TaskStatus};
use crate::kernel::{same_memory, Kernel};
use crate::trap::context::TrapContext;

verus! {

/// What delivery of signals reads and changes: of the process the pending
/// signals, the blocked signals, whether it is frozen or killed, the signal
/// whose handler runs (-1 for none) and the trap context saved for that
/// handler; of the thread the trap context.
#[derive(Copy, Clone, Debug)]
pub struct SignalState {
    pub signals: SignalFlags,
    pub mask: SignalFlags,
    pub frozen: bool,
    pub killed: bool,
    pub handling_sig: i64,
    pub backup: Option<TrapContext>,
    pub trap_cx: TrapContext,
}

/// Whether the kernel itself acts on signal `sig`.
pub open spec fn kernel_handled(sig: int) -> bool {
    signal_bit(sig) == SIGKILL || signal_bit(sig) == SIGSTOP || signal_bit(sig) == SIGCONT
        || signal_bit(sig) == SIGDEF
}

/// Whether signal `sig` is pending and not blocked.
pub open spec fn deliverable(s: SignalState, sig: int) -> bool {
    s.signals.bits & signal_bit(sig) == signal_bit(sig) && s.mask.bits & signal_bit(sig)
        != signal_bit(sig)
}

/// The state after the kernel has acted on signal `sig`: the stop signal
/// freezes the process and is consumed, the signal to continue is consumed
/// and ends the freeze, any other signal kills the process.
pub open spec fn after_kernel_signal(s: SignalState, sig: int) -> SignalState {
    if signal_bit(sig) == SIGSTOP {
        SignalState { frozen: true, signals: SignalFlags { bits: s.signals.bits ^ SIGSTOP }, ..s }
    } else if signal_bit(sig) == SIGCONT {
        if s.signals.bits & SIGCONT == SIGCONT {
            SignalState {
                frozen: false,
                signals: SignalFlags { bits: s.signals.bits ^ SIGCONT },
                ..s
            }
        } else {
            s
        }
    } else {
        SignalState { killed: true, ..s }
    }
}

/// Whether `s1` is `s0` after signal `sig`, which the process handles with
/// `action`, has been taken up. With a handler the signal is consumed, the
/// signals of the action are blocked, the trap context is saved, and the
/// thread goes on in the handler with the number of the signal in register
/// `a0`. Without a handler nothing changes.
pub open spec fn user_signal_taken(s0: SignalState, s1: SignalState, action: SignalAction, sig: int) -> bool {
    if action.handler != 0 {
        &&& s1.signals.bits == s0.signals.bits ^ signal_bit(sig)
        &&& s1.mask == action.mask
        &&& s1.frozen == s0.frozen
        &&& s1.killed == s0.killed
        &&& s1.handling_sig == sig
        &&& s1.backup == Some(s0.trap_cx)
        &&& s1.trap_cx.x@ == s0.trap_cx.x@.update(10, sig as u64)
        &&& s1.trap_cx.sepc == action.handler
        &&& s1.trap_cx.sstatus == s0.trap_cx.sstatus
        &&& s1.trap_cx.kernel_satp == s0.trap_cx.kernel_satp
        &&& s1.trap_cx.kernel_sp == s0.trap_cx.kernel_sp
        &&& s1.trap_cx.trap_handler == s0.trap_cx.trap_handler
    } else {
        s1 == s0
    }
}

/// Whether `s1` is `s0` after the signals from `from` on have been looked
/// at in turn: the kernel acts on each deliverable signal of its own, and
/// the first other deliverable signal is taken up and ends the round.
pub open spec fn pending_done(s0: SignalState, s1: SignalState, actions: Seq<SignalAction>, from: int) -> bool
    decreases 32 - from,
{
    if from < 0 || from > 31 {
        s1 == s0
    } else if deliverable(s0, from) {
        if kernel_handled(from) {
            pending_done(after_kernel_signal(s0, from), s1, actions, from + 1)
        } else {
            user_signal_taken(s0, s1, actions[from], from)
        }
    } else {
        pending_done(s0, s1, actions, from + 1)
    }
}

/// The kernel acts on `signal`, which is one of its own.
pub fn call_kernel_signal_handler(s: &mut SignalState, sig: usize, signal: SignalFlags)
    requires
        sig <= MAX_SIG,
        signal.bits == signal_bit(sig as int),
    ensures
        *final(s) == after_kernel_signal(*old(s), sig as int),
{
    if signal.bits == SIGSTOP {
        s.frozen = true;
        s.signals.toggle(signal);
    } else if signal.bits == SIGCONT {
        if s.signals.contains(signal) {
            s.signals.toggle(signal);
            s.frozen = false;
        }
    } else {
        s.killed = true;
    }
}

/// Signal `sig` is taken up with the action that the process has for it.
pub fn call_user_signal_handler(s: &mut SignalState, actions: &SignalActions, sig: usize, signal: SignalFlags)
    requires
        sig <= MAX_SIG,
        signal.bits == signal_bit(sig as int),
    ensures
        user_signal_taken(*old(s), *final(s), actions.table@[sig as int], sig as int),
{
    let handler = actions.table[sig].handler;
    if handler != 0 {
        s.mask = actions.table[sig].mask;
        s.handling_sig = sig as i64;
        s.signals.toggle(signal);
        s.backup = Some(s.trap_cx);
        s.trap_cx.sepc = handler;
        s.trap_cx.x[10] = sig as u64;
    }
}

/// Looks at the signals in turn, from the lowest number on.
pub fn deliver_pending(s: &mut SignalState, actions: &SignalActions)
    ensures
        pending_done(*old(s), *final(s), actions.table@, 0),
{
    let ghost s0 = *s;
    let mut sig: usize = 0;
    while sig <= MAX_SIG
        invariant
            sig <= 32,
            s0 == *old(s),
            forall|e: SignalState| #[trigger]
                pending_done(*s, e, actions.table@, sig as int) ==> pending_done(
                    s0,
                    e,
                    actions.table@,
                    0,
                ),
        decreases 32 - sig,
    {
        let signal = SignalFlags::of(sig);
        let ghost before = *s;
        if s.signals.contains(signal) && !s.mask.contains(signal) {
            if signal.bits == SIGKILL || signal.bits == SIGSTOP || signal.bits == SIGCONT
                || signal.bits == SIGDEF {
                call_kernel_signal_handler(s, sig, signal);
            } else {
                call_user_signal_handler(s, actions, sig, signal);
                proof {
                    assert(pending_done(before, *s, actions.table@, sig as int));
                }
                return ;
            }
        }
        proof {
            assert forall|e: SignalState| #[trigger]
                pending_done(*s, e, actions.table@, sig + 1) implies pending_done(
                s0,
                e,
                actions.table@,
                0,
            ) by {
                assert(pending_done(before, e, actions.table@, sig as int));
            }
        }
        sig += 1;
    }
    proof {
        assert(pending_done(*s, *s, actions.table@, sig as int));
    }
}

/// What delivery of signals reads of process `p` and thread `t`.
pub open spec fn signal_state(p: ProcessControlBlock, t: TaskControlBlock) -> SignalState {
    SignalState {
        signals: p.signals,
        mask: p.signal_mask,
        frozen: p.frozen,
        killed: p.killed,
        handling_sig: p.handling_sig,
        backup: p.trap_ctx_backup,
        trap_cx: t.trap_cx,
    }
}

/// Whether process `p1` is `p0` but for what delivery of signals changes.
pub open spec fn same_but_signals(p0: ProcessControlBlock, p1: ProcessControlBlock) -> bool {
    &&& same_core(p0, p1)
    &&& p1.registered == p0.registered
    &&& p1.parent == p0.parent
    &&& p1.children == p0.children
    &&& p1.exit_code == p0.exit_code
    &&& p1.fd_table == p0.fd_table
    &&& p1.signal_actions == p0.signal_actions
    &&& p1.tasks == p0.tasks
    &&& p1.mutex_list == p0.mutex_list
    &&& p1.semaphore_list == p0.semaphore_list
    &&& p1.condvar_list == p0.condvar_list
}

/// Whether `k1` is `k0` but for the signals of process `pid` and the trap
/// context, the status and the next step of thread `h`, the ready queue and
/// the running thread.
pub open spec fn signal_step(k0: Kernel, k1: Kernel, pid: int, h: int) -> bool {
    &&& same_memory(k0, k1)
    &&& k1.has_process(pid)
    &&& same_but_signals(k0.process(pid), k1.process(pid))
    &&& forall|q: int|
        0 <= q < k0.processes@.len() && q != pid ==> #[trigger] k1.processes@[q] == k0.processes@[q]
    &&& k1.has_thread(h)
    &&& k1.thread(h) == (TaskControlBlock {
        trap_cx: k1.thread(h).trap_cx,
        task_status: k1.thread(h).task_status,
        resume: k1.thread(h).resume,
        ..k0.thread(h)
    })
    &&& k1.threads@.len() == k0.threads@.len()
    &&& forall|g: int|
        0 <= g < k0.threads@.len() && g != h ==> #[trigger] k1.threads@[g] == k0.threads@[g]
    &&& k1.machine == k0.machine
    &&& k1.timers == k0.timers
    &&& k1.files == k0.files
    &&& k1.pipes == k0.pipes
    &&& k1.initproc == k0.initproc
    &&& k1.console_out == k0.console_out
    &&& k1.console_in == k0.console_in
}

/// What `current_add_signal` does and gives: `k0` is the kernel before the call, `k1` after it.
pub open spec fn current_add_signal_done(
    k0: Kernel,
    k1: Kernel,
    signal: SignalFlags,
) -> bool {
    &&& (k1.wf())
    &&& (signal_step(k0, k1, k0.current_pid(), k0.current()))
    &&& (k1.threads == k0.threads)
    &&& (k1.task_manager == k0.task_manager)
    &&& (k1.processor == k0.processor)
    &&& (signal_state(
            k1.process(k0.current_pid()),
            k1.thread(k0.current()),
        ) == (SignalState {
            signals: SignalFlags {
                bits: k0.process(k0.current_pid()).signals.bits | signal.bits,
            },
            ..signal_state(
                k0.process(k0.current_pid()),
                k0.thread(k0.current()),
            )
        }))
}

/// Puts the signals of `signal` into the pending signals of the process of
/// the running thread.
pub fn current_add_signal(kernel: &mut Kernel, signal: SignalFlags)
    requires
        old(kernel).wf(),
        old(kernel).running(),
    ensures
        current_add_signal_done(*old(kernel), *final(kernel), signal),
{
    let ghost k0 = *kernel;
    let pid = current_process(kernel);
    let mut p = kernel.processes[pid].take().unwrap();
    p.signals.insert(signal);
    kernel.processes.set(pid, Some(p));
    proof {
        lemma_process_changed(k0, *kernel, pid as int);
    }
}

/// The exit code and the message with which the process of the running
/// thread is to end because of a pending signal, if there is such a signal;
/// see `SignalFlags::check_error`.
pub fn check_signals_error_of_current(kernel: &Kernel) -> (r: Option<(i32, &'static str)>)
    requires
        kernel.running(),
    ensures
        r.is_some() == (kernel.process(kernel.current_pid()).signals.bits & (4u32 | 16u32 | 64u32
            | 256u32 | 2048u32) != 0),
        r.is_some() ==> r.unwrap().0 == error_code(kernel.process(kernel.current_pid()).signals.bits),
{
    let pid = current_process(kernel);
    kernel.processes[pid].as_ref().unwrap().signals.check_error()
}

/// The exit code for the lowest signal in `bits` that ends a process.
pub open spec fn error_code(bits: u32) -> i32 {
    if bits & 4 == 4 {
        -2i32
    } else if bits & 16 == 16 {
        -4i32
    } else if bits & 64 == 64 {
        -6i32
    } else if bits & 256 == 256 {
        -8i32
    } else {
        -11i32
    }
}

/// Looks at the pending signals of the process of the running thread in
/// turn; see `pending_done`.
pub fn check_pending_signals(kernel: &mut Kernel)
    requires
        old(kernel).wf(),
        old(kernel).running(),
    ensures
        final(kernel).wf(),
        signal_step(*old(kernel), *final(kernel), old(kernel).current_pid(), old(kernel).current()),
        final(kernel).task_manager == old(kernel).task_manager,
        final(kernel).processor == old(kernel).processor,
        final(kernel).thread(old(kernel).current()).task_status == old(kernel).thread(
            old(kernel).current(),
        ).task_status,
        final(kernel).thread(old(kernel).current()).resume == old(kernel).thread(
            old(kernel).current(),
        ).resume,
        pending_done(
            signal_state(
                old(kernel).process(old(kernel).current_pid()),
                old(kernel).thread(old(kernel).current()),
            ),
            signal_state(
                final(kernel).process(old(kernel).current_pid()),
                final(kernel).thread(old(kernel).current()),
            ),
            old(kernel).process(old(kernel).current_pid()).signal_actions.table@,
            0,
        ),
{
    let ghost k0 = *kernel;
    let pid = current_process(kernel);
    let h = kernel.processor.current().unwrap();
    let mut t = kernel.threads[h].unwrap();
    let mut p = kernel.processes[pid].take().unwrap();
    let mut s = SignalState {
        signals: p.signals,
        mask: p.signal_mask,
        frozen: p.frozen,
        killed: p.killed,
        handling_sig: p.handling_sig,
        backup: p.trap_ctx_backup,
        trap_cx: t.trap_cx,
    };
    deliver_pending(&mut s, &p.signal_actions);
    p.signals = s.signals;
    p.signal_mask = s.mask;
    p.frozen = s.frozen;
    p.killed = s.killed;
    p.handling_sig = s.handling_sig;
    p.trap_ctx_backup = s.backup;
    t.trap_cx = s.trap_cx;
    kernel.processes.set(pid, Some(p));
    proof {
        lemma_process_changed(k0, *kernel, pid as int);
    }
    update_thread(kernel, h, t);
}

/// Whether the process waits for the signal to continue.
pub open spec fn waits_frozen(p: ProcessControlBlock) -> bool {
    p.frozen && !p.killed
}

/// What `wait_unfrozen` does and gives: `k0` is the kernel before the call, `k1` after it, `suspended` what the call gives.
pub open spec fn wait_unfrozen_done(
    k0: Kernel,
    k1: Kernel,
    suspended: bool,
) -> bool {
    &&& (k1.wf())
    &&& (suspended == waits_frozen(k0.process(k0.current_pid())))
    &&& (!suspended ==> k1 == k0)
    &&& (suspended ==> {
            let pid = k0.current_pid();
            let h = k0.current();
            &&& signal_step(k0, k1, pid, h)
            &&& pending_done(
                signal_state(k0.process(pid), k0.thread(h)),
                signal_state(k1.process(pid), k1.thread(h)),
                k0.process(pid).signal_actions.table@,
                0,
            )
            &&& k1.thread(h).task_status == TaskStatus::Ready
            &&& k1.thread(h).resume == Resume::Signals
            &&& k1.processor.current.is_none()
            &&& k1.task_manager.ready_queue@ == k0.task_manager.ready_queue@.push(
                h as usize,
            )
        })
}

/// One round of the wait of a frozen process: where the process of the
/// running thread is frozen and not killed, its pending signals are looked
/// at and the thread gives up the processor, to do the same again when it
/// runs next; the result is `true`. Else nothing changes, and the thread can
/// go on.
pub fn wait_unfrozen(kernel: &mut Kernel) -> (suspended: bool)
    requires
        old(kernel).wf(),
        old(kernel).running(),
    ensures
        wait_unfrozen_done(*old(kernel), *final(kernel), suspended),
{
    let ghost k0 = *kernel;
    let pid = current_process(kernel);
    let frozen = kernel.processes[pid].as_ref().unwrap().frozen;
    let killed = kernel.processes[pid].as_ref().unwrap().killed;
    if !frozen || killed {
        return false;
    }
    check_pending_signals(kernel);
    let ghost k1 = *kernel;
    suspend_current_and_run_next(kernel, Resume::Signals);
    proof {
        assert(k1.current() == k0.current());
        assert(kernel.processes == k1.processes);
        assert(same_memory(k0, *kernel));
    }
    true
}

/// What `handle_signals` does and gives: `k0` is the kernel before the call, `k1` after it, `suspended` what the call gives.
pub open spec fn handle_signals_done(
    k0: Kernel,
    k1: Kernel,
    suspended: bool,
) -> bool {
    &&& (k1.wf())
    &&& (signal_step(k0, k1, k0.current_pid(), k0.current()))
    &&& (({
            let pid = k0.current_pid();
            let h = k0.current();
            let s0 = signal_state(k0.process(pid), k0.thread(h));
            let s2 = signal_state(k1.process(pid), k1.thread(h));
            let actions = k0.process(pid).signal_actions.table@;
            exists|s1: SignalState|
                {
                    &&& #[trigger] pending_done(s0, s1, actions, 0)
                    &&& suspended == (s1.frozen && !s1.killed)
                    &&& if suspended {
                        pending_done(s1, s2, actions, 0)
                    } else {
                        s2 == s1
                    }
                }
        }))
    &&& (!suspended ==> {
            &&& k1.processor == k0.processor
            &&& k1.task_manager == k0.task_manager
            &&& k1.thread(k0.current()).task_status == k0.thread(
                k0.current(),
            ).task_status
            &&& k1.thread(k0.current()).resume == k0.thread(
                k0.current(),
            ).resume
        })
    &&& (suspended ==> {
            &&& k1.thread(k0.current()).task_status == TaskStatus::Ready
            &&& k1.thread(k0.current()).resume == Resume::Signals
            &&& k1.processor.current.is_none()
            &&& k1.task_manager.ready_queue@ == k0.task_manager.ready_queue@.push(
                k0.current() as usize,
            )
        })
}

/// What is done about signals before a thread returns to its program: the
/// pending signals of its process are looked at, and a process that is then
/// frozen and not killed starts to wait as `wait_unfrozen` says. The result
/// says whether the thread has given up the processor.
pub fn handle_signals(kernel: &mut Kernel) -> (suspended: bool)
    requires
        old(kernel).wf(),
        old(kernel).running(),
    ensures
        handle_signals_done(*old(kernel), *final(kernel), suspended),
{
    let ghost k0 = *kernel;
    check_pending_signals(kernel);
    let ghost k1 = *kernel;
    let suspended = wait_unfrozen(kernel);
    proof {
        let pid = k0.current_pid();
        let h = k0.current();
        assert(k1.current() == h && k1.current_pid() == pid);
        let s0 = signal_state(k0.process(pid), k0.thread(h));
        let s1 = signal_state(k1.process(pid), k1.thread(h));
        assert(pending_done(s0, s1, k0.process(pid).signal_actions.table@, 0));
        assert(same_memory(k0, *kernel));
    }
    suspended
}

} // verus!
