//! System calls on the mutexes, semaphores and condition variables of a
//! process. Each of them is named by its place in a table of the process; a
//! place that is free is used again.
use vstd::prelude::*;
use crate::kernel::{same_memory, Kernel};
use crate::sync::condvar::Condvar;
use crate::sync::mutex::{LockOutcome, Mutex, MutexBlocking, MutexSpin};
use crate::sync::semaphore::Semaphore;
use crate::syscall::process::{as_result, to_result};
use crate::task::process::{first_free, free_slot, MutexKind, ProcessControlBlock};
use crate::task::sched::{
    block_current_and_run_next, current_process, lemma_process_changed, same_core,
    suspend_current_and_run_next, wake_task,
};
use crate::task::task::{Resume, TaskControlBlock, TaskStatus};

verus! {

impl MutexKind {
    /// Whether threads that find the mutex locked wait in a queue.
    pub open spec fn blocking(&self) -> bool {
        self is Blocking
    }

    /// Whether the mutex is locked.
    pub open spec fn locked(&self) -> bool {
        match self {
            MutexKind::Spin(m) => m.locked,
            MutexKind::Blocking(m) => m.locked,
        }
    }

    /// The threads that wait for the mutex, the one that waits longest first.
    pub open spec fn queue(&self) -> Seq<usize> {
        match self {
            MutexKind::Spin(m) => Seq::empty(),
            MutexKind::Blocking(m) => m.wait_queue@,
        }
    }

    /// A free mutex of the kind asked for.
    pub fn new(blocking: bool) -> (r: Self)
        ensures
            r.blocking() == blocking,
            !r.locked(),
            r.queue().len() == 0,
    {
        if blocking {
            MutexKind::Blocking(MutexBlocking::new())
        } else {
            MutexKind::Spin(MutexSpin::new())
        }
    }

    /// Thread `task` asks for the mutex; see `Mutex::lock`.
    pub fn lock(&mut self, task: usize) -> (r: LockOutcome)
        ensures
            final(self).blocking() == old(self).blocking(),
            final(self).locked(),
            r == if !old(self).locked() {
                LockOutcome::Acquired
            } else if old(self).blocking() {
                LockOutcome::Blocked
            } else {
                LockOutcome::Retry
            },
            final(self).queue() == if r == LockOutcome::Blocked {
                old(self).queue().push(task)
            } else {
                old(self).queue()
            },
    {
        match self {
            MutexKind::Spin(m) => m.lock(task),
            MutexKind::Blocking(m) => m.lock(task),
        }
    }

    /// Whether the mutex is locked.
    pub fn is_locked(&self) -> (r: bool)
        ensures
            r == self.locked(),
    {
        match self {
            MutexKind::Spin(m) => m.locked,
            MutexKind::Blocking(m) => m.locked,
        }
    }

    /// The holder gives the mutex up; see `Mutex::unlock`.
    pub fn unlock(&mut self) -> (woken: Option<usize>)
        requires
            old(self).locked(),
        ensures
            final(self).blocking() == old(self).blocking(),
            old(self).queue().len() > 0 ==> woken == Some(old(self).queue()[0]) && final(self).queue() == old(self).queue().skip(1) && final(self).locked() == old(self).locked(),
            old(self).queue().len() == 0 ==> woken.is_none() && !final(self).locked() && final(self).queue() == old(self).queue(),
    {
        match self {
            MutexKind::Spin(m) => m.unlock(),
            MutexKind::Blocking(m) => m.unlock(),
        }
    }
}

/// Whether process `p1` is `p0` but for its mutexes, semaphores and
/// condition variables.
pub open spec fn same_but_sync(p0: ProcessControlBlock, p1: ProcessControlBlock) -> bool {
    &&& same_core(p0, p1)
    &&& p1.registered == p0.registered
    &&& p1.parent == p0.parent
    &&& p1.children == p0.children
    &&& p1.exit_code == p0.exit_code
    &&& p1.fd_table == p0.fd_table
    &&& p1.signals == p0.signals
    &&& p1.signal_mask == p0.signal_mask
    &&& p1.handling_sig == p0.handling_sig
    &&& p1.signal_actions == p0.signal_actions
    &&& p1.killed == p0.killed
    &&& p1.frozen == p0.frozen
    &&& p1.trap_ctx_backup == p0.trap_ctx_backup
    &&& p1.tasks == p0.tasks
}

/// Whether `k1` is `k0` but for the mutexes, semaphores and condition
/// variables of process `pid`, the threads, the ready queue and the running
/// thread.
pub open spec fn sync_step(k0: Kernel, k1: Kernel, pid: int) -> bool {
    &&& same_memory(k0, k1)
    &&& k1.has_process(pid)
    &&& same_but_sync(k0.process(pid), k1.process(pid))
    &&& forall|q: int|
        0 <= q < k0.processes@.len() && q != pid ==> #[trigger] k1.processes@[q] == k0.processes@[q]
    &&& k1.machine == k0.machine
    &&& k1.timers == k0.timers
    &&& k1.files == k0.files
    &&& k1.pipes == k0.pipes
    &&& k1.initproc == k0.initproc
    &&& k1.console_out == k0.console_out
    &&& k1.console_in == k0.console_in
}

/// Whether the threads of `k1` are those of `k0` but for thread `h`.
pub open spec fn other_threads_kept(k0: Kernel, k1: Kernel, h: int) -> bool {
    &&& k1.threads@.len() == k0.threads@.len()
    &&& forall|g: int|
        0 <= g < k0.threads@.len() && g != h ==> #[trigger] k1.threads@[g] == k0.threads@[g]
}

/// Whether table `t1` is table `t0` with slot `id` filled, where `id` is the
/// first free slot of `t0`, or its length when none is free.
pub open spec fn filled_at<T>(t0: Seq<Option<T>>, t1: Seq<Option<T>>, id: int) -> bool {
    &&& id == first_free(t0, t0.len() as int)
    &&& t1.len() == if id < t0.len() {
        t0.len()
    } else {
        t0.len() + 1
    }
    &&& t1[id].is_some()
    &&& forall|j: int| 0 <= j < t0.len() && j != id ==> #[trigger] t1[j] == t0[j]
}

/// Whether table `t1` is table `t0` but for slot `id`, which is filled in both.
pub open spec fn changed_at<T>(t0: Seq<Option<T>>, t1: Seq<Option<T>>, id: int) -> bool {
    &&& 0 <= id < t0.len()
    &&& t1.len() == t0.len()
    &&& t0[id].is_some()
    &&& t1[id].is_some()
    &&& forall|j: int| 0 <= j < t0.len() && j != id ==> #[trigger] t1[j] == t0[j]
}

/// What `sys_mutex_create` does and gives: `k0` is the kernel before the call, `k1` after it, `r` what the call gives.
pub open spec fn mutex_create_done(
    k0: Kernel,
    k1: Kernel,
    blocking: bool,
    r: i64,
) -> bool {
    &&& (k1.wf())
    &&& (sync_step(k0, k1, k0.current_pid()))
    &&& (k1.threads == k0.threads)
    &&& (k1.task_manager == k0.task_manager)
    &&& (k1.processor == k0.processor)
    &&& (({
            let p0 = k0.process(k0.current_pid());
            let p1 = k1.process(k0.current_pid());
            let id = first_free(p0.mutex_list@, p0.mutex_list@.len() as int);
            &&& r == as_result(id)
            &&& filled_at(p0.mutex_list@, p1.mutex_list@, id)
            &&& p1.mutex_list@[id].unwrap().blocking() == blocking
            &&& !p1.mutex_list@[id].unwrap().locked()
            &&& p1.mutex_list@[id].unwrap().queue().len() == 0
            &&& p1.semaphore_list == p0.semaphore_list
            &&& p1.condvar_list == p0.condvar_list
        }))
}

/// A new mutex for the process of the running thread, of the blocking kind
/// if `blocking`. The call gives the place of the mutex.
pub fn sys_mutex_create(kernel: &mut Kernel, blocking: bool) -> (r: i64)
    requires
        old(kernel).wf(),
        old(kernel).running(),
    ensures
        mutex_create_done(*old(kernel), *final(kernel), blocking, r),
{
    let ghost k0 = *kernel;
    let pid = current_process(kernel);
    let mut p = kernel.processes[pid].take().unwrap();
    let id = free_slot(&mut p.mutex_list);
    p.mutex_list.set(id, Some(MutexKind::new(blocking)));
    kernel.processes.set(pid, Some(p));
    proof {
        lemma_process_changed(k0, *kernel, pid as int);
    }
    to_result(id)
}

/// What `sys_mutex_lock` does and gives: `k0` is the kernel before the call, `k1` after it, `r` what the call gives.
pub open spec fn mutex_lock_done(
    k0: Kernel,
    k1: Kernel,
    mutex_id: usize,
    r: i64,
) -> bool {
    &&& (r == 0)
    &&& (k1.wf())
    &&& (sync_step(k0, k1, k0.current_pid()))
    &&& (other_threads_kept(k0, k1, k0.current()))
    &&& (k1.has_thread(k0.current()))
    &&& (({
            let h = k0.current();
            let p0 = k0.process(k0.current_pid());
            let p1 = k1.process(k0.current_pid());
            let m0 = p0.mutex_list@[mutex_id as int].unwrap();
            let m1 = p1.mutex_list@[mutex_id as int].unwrap();
            let t0 = k0.thread(h);
            &&& changed_at(p0.mutex_list@, p1.mutex_list@, mutex_id as int)
            &&& p1.semaphore_list == p0.semaphore_list
            &&& p1.condvar_list == p0.condvar_list
            &&& m1.blocking() == m0.blocking()
            &&& m1.locked()
            &&& !m0.locked() ==> {
                &&& m1.queue() == m0.queue()
                &&& k1.thread(h) == t0
                &&& k1.processor == k0.processor
                &&& k1.task_manager == k0.task_manager
            }
            &&& m0.locked() && m0.blocking() ==> {
                &&& m1.queue() == m0.queue().push(h as usize)
                &&& k1.thread(h) == (TaskControlBlock {
                    task_status: TaskStatus::Blocking,
                    resume: Resume::ToUser,
                    ..t0
                })
                &&& k1.processor.current.is_none()
                &&& k1.task_manager == k0.task_manager
            }
            &&& m0.locked() && !m0.blocking() ==> {
                &&& m1.queue() == m0.queue()
                &&& k1.thread(h) == (TaskControlBlock {
                    task_status: TaskStatus::Ready,
                    resume: Resume::Again,
                    ..t0
                })
                &&& k1.processor.current.is_none()
                &&& k1.task_manager.ready_queue@ == k0.task_manager.ready_queue@.push(h as usize)
            }
        }))
}

/// The running thread asks for mutex `mutex_id` of its process. It gets a
/// free mutex and goes on. On a locked mutex of the blocking kind it waits,
/// last in the queue of the mutex, until the mutex is handed to it; on one of
/// the other kind it gives up the processor and makes the call again when it
/// runs next. The call gives 0.
pub fn sys_mutex_lock(kernel: &mut Kernel, mutex_id: usize) -> (r: i64)
    requires
        old(kernel).wf(),
        old(kernel).running(),
        mutex_id < old(kernel).process(old(kernel).current_pid()).mutex_list@.len(),
        old(kernel).process(old(kernel).current_pid()).mutex_list@[mutex_id as int].is_some(),
    ensures
        mutex_lock_done(*old(kernel), *final(kernel), mutex_id, r),
{
    let ghost k0 = *kernel;
    let pid = current_process(kernel);
    let h = kernel.processor.current().unwrap();
    let mut p = kernel.processes[pid].take().unwrap();
    let mut m = p.mutex_list[mutex_id].take().unwrap();
    let outcome = m.lock(h);
    p.mutex_list.set(mutex_id, Some(m));
    kernel.processes.set(pid, Some(p));
    proof {
        lemma_process_changed(k0, *kernel, pid as int);
    }
    match outcome {
        LockOutcome::Acquired => {},
        LockOutcome::Blocked => {
            block_current_and_run_next(kernel, Resume::ToUser);
        },
        LockOutcome::Retry => {
            suspend_current_and_run_next(kernel, Resume::Again);
        },
    }
    0
}

/// What `sys_mutex_unlock` does and gives: `k0` is the kernel before the call, `k1` after it, `r` what the call gives.
pub open spec fn mutex_unlock_done(
    k0: Kernel,
    k1: Kernel,
    mutex_id: usize,
    r: i64,
) -> bool {
    &&& (r == 0)
    &&& (k1.wf())
    &&& (sync_step(k0, k1, k0.current_pid()))
    &&& (k1.processor == k0.processor)
    &&& (({
            let p0 = k0.process(k0.current_pid());
            let p1 = k1.process(k0.current_pid());
            let m0 = p0.mutex_list@[mutex_id as int].unwrap();
            let m1 = p1.mutex_list@[mutex_id as int].unwrap();
            &&& changed_at(p0.mutex_list@, p1.mutex_list@, mutex_id as int)
            &&& p1.semaphore_list == p0.semaphore_list
            &&& p1.condvar_list == p0.condvar_list
            &&& m1.blocking() == m0.blocking()
            &&& m0.queue().len() == 0 ==> {
                &&& !m1.locked()
                &&& m1.queue() == m0.queue()
                &&& k1.threads == k0.threads
                &&& k1.task_manager == k0.task_manager
            }
            &&& m0.queue().len() > 0 ==> {
                &&& m1.locked() == m0.locked()
                &&& m1.queue() == m0.queue().skip(1)
                &&& woken(k0, k1, m0.queue()[0])
            }
        }))
}

/// The running thread gives up mutex `mutex_id` of its process, which must
/// be locked. The thread
/// that waits longest for it, if there is one, gets it and is made ready;
/// else the mutex is free. The call gives 0.
pub fn sys_mutex_unlock(kernel: &mut Kernel, mutex_id: usize) -> (r: i64)
    requires
        old(kernel).wf(),
        old(kernel).running(),
        mutex_id < old(kernel).process(old(kernel).current_pid()).mutex_list@.len(),
        old(kernel).process(old(kernel).current_pid()).mutex_list@[mutex_id as int].is_some(),
        old(kernel).process(old(kernel).current_pid()).mutex_list@[mutex_id as int].unwrap().locked(),
    ensures
        mutex_unlock_done(*old(kernel), *final(kernel), mutex_id, r),
{
    let ghost k0 = *kernel;
    let pid = current_process(kernel);
    let mut p = kernel.processes[pid].take().unwrap();
    let mut m = p.mutex_list[mutex_id].take().unwrap();
    let next = m.unlock();
    p.mutex_list.set(mutex_id, Some(m));
    kernel.processes.set(pid, Some(p));
    proof {
        lemma_process_changed(k0, *kernel, pid as int);
    }
    wake(kernel, next);
    0
}

/// Whether thread `task` has been made ready between `k0` and `k1`: it
/// stands last in the ready queue and, where there is such a thread, it is
/// marked as ready; the other threads are as they were.
pub open spec fn woken(k0: Kernel, k1: Kernel, task: usize) -> bool {
    &&& k1.task_manager.ready_queue@ == k0.task_manager.ready_queue@.push(task)
    &&& other_threads_kept(k0, k1, task as int)
    &&& k0.has_thread(task as int) ==> k1.has_thread(task as int) && k1.thread(task as int) == (
    TaskControlBlock { task_status: TaskStatus::Ready, ..k0.thread(task as int) })
}

/// Makes the thread that `next` names, if it names one, ready.
pub fn wake(kernel: &mut Kernel, next: Option<usize>)
    requires
        old(kernel).wf(),
    ensures
        final(kernel).wf(),
        same_memory(*old(kernel), *final(kernel)),
        final(kernel).processor == old(kernel).processor,
        final(kernel).processes == old(kernel).processes,
        final(kernel).files == old(kernel).files,
        final(kernel).pipes == old(kernel).pipes,
        final(kernel).timers == old(kernel).timers,
        final(kernel).machine == old(kernel).machine,
        final(kernel).initproc == old(kernel).initproc,
        final(kernel).console_out == old(kernel).console_out,
        final(kernel).console_in == old(kernel).console_in,
        next.is_none() ==> *final(kernel) == *old(kernel),
        next.is_some() ==> woken(*old(kernel), *final(kernel), next.unwrap()),
{
    match next {
        Some(task) => {
            wake_task(kernel, task);
        },
        None => {
            proof {
                assert(same_memory(*old(kernel), *kernel));
            }
        },
    }
}

/// What `sys_semaphore_create` does and gives: `k0` is the kernel before the call, `k1` after it, `r` what the call gives.
pub open spec fn semaphore_create_done(
    k0: Kernel,
    k1: Kernel,
    res_count: usize,
    r: i64,
) -> bool {
    &&& (k1.wf())
    &&& (sync_step(k0, k1, k0.current_pid()))
    &&& (k1.threads == k0.threads)
    &&& (k1.task_manager == k0.task_manager)
    &&& (k1.processor == k0.processor)
    &&& (({
            let p0 = k0.process(k0.current_pid());
            let p1 = k1.process(k0.current_pid());
            let id = first_free(p0.semaphore_list@, p0.semaphore_list@.len() as int);
            &&& r == as_result(id)
            &&& filled_at(p0.semaphore_list@, p1.semaphore_list@, id)
            &&& p1.semaphore_list@[id].unwrap().count == res_count
            &&& p1.semaphore_list@[id].unwrap().wait_queue@.len() == 0
            &&& p1.mutex_list == p0.mutex_list
            &&& p1.condvar_list == p0.condvar_list
        }))
}

/// A new semaphore that starts at `res_count` for the process of the
/// running thread. The call gives the place of the semaphore.
pub fn sys_semaphore_create(kernel: &mut Kernel, res_count: usize) -> (r: i64)
    requires
        old(kernel).wf(),
        old(kernel).running(),
        res_count <= i64::MAX,
    ensures
        semaphore_create_done(*old(kernel), *final(kernel), res_count, r),
{
    let ghost k0 = *kernel;
    let pid = current_process(kernel);
    let mut p = kernel.processes[pid].take().unwrap();
    let id = free_slot(&mut p.semaphore_list);
    p.semaphore_list.set(id, Some(Semaphore::new(res_count)));
    kernel.processes.set(pid, Some(p));
    proof {
        lemma_process_changed(k0, *kernel, pid as int);
    }
    to_result(id)
}

/// What `sys_semaphore_up` does and gives: `k0` is the kernel before the call, `k1` after it, `r` what the call gives.
pub open spec fn semaphore_up_done(
    k0: Kernel,
    k1: Kernel,
    sem_id: usize,
    r: i64,
) -> bool {
    &&& (r == 0)
    &&& (k1.wf())
    &&& (sync_step(k0, k1, k0.current_pid()))
    &&& (k1.processor == k0.processor)
    &&& (({
            let p0 = k0.process(k0.current_pid());
            let p1 = k1.process(k0.current_pid());
            let s0 = p0.semaphore_list@[sem_id as int].unwrap();
            let s1 = p1.semaphore_list@[sem_id as int].unwrap();
            &&& changed_at(p0.semaphore_list@, p1.semaphore_list@, sem_id as int)
            &&& p1.mutex_list == p0.mutex_list
            &&& p1.condvar_list == p0.condvar_list
            &&& s1.count == s0.count + 1
            &&& s0.count + 1 <= 0 && s0.wait_queue@.len() > 0 ==> {
                &&& s1.wait_queue@ == s0.wait_queue@.skip(1)
                &&& woken(k0, k1, s0.wait_queue@[0])
            }
            &&& !(s0.count + 1 <= 0 && s0.wait_queue@.len() > 0) ==> {
                &&& s1.wait_queue@ == s0.wait_queue@
                &&& k1.threads == k0.threads
                &&& k1.task_manager == k0.task_manager
            }
        }))
}

/// Raises semaphore `sem_id` of the process of the running thread; the
/// thread that waits longest on it, if one has to be woken, is made ready.
/// The call gives 0.
pub fn sys_semaphore_up(kernel: &mut Kernel, sem_id: usize) -> (r: i64)
    requires
        old(kernel).wf(),
        old(kernel).running(),
        sem_id < old(kernel).process(old(kernel).current_pid()).semaphore_list@.len(),
        old(kernel).process(old(kernel).current_pid()).semaphore_list@[sem_id as int].is_some(),
        old(kernel).process(old(kernel).current_pid()).semaphore_list@[sem_id as int].unwrap().count
            < i64::MAX,
    ensures
        semaphore_up_done(*old(kernel), *final(kernel), sem_id, r),
{
    let ghost k0 = *kernel;
    let pid = current_process(kernel);
    let mut p = kernel.processes[pid].take().unwrap();
    let mut s = p.semaphore_list[sem_id].take().unwrap();
    let next = s.up();
    p.semaphore_list.set(sem_id, Some(s));
    kernel.processes.set(pid, Some(p));
    proof {
        lemma_process_changed(k0, *kernel, pid as int);
    }
    wake(kernel, next);
    0
}

/// What `sys_semaphore_down` does and gives: `k0` is the kernel before the call, `k1` after it, `r` what the call gives.
pub open spec fn semaphore_down_done(
    k0: Kernel,
    k1: Kernel,
    sem_id: usize,
    r: i64,
) -> bool {
    &&& (r == 0)
    &&& (k1.wf())
    &&& (sync_step(k0, k1, k0.current_pid()))
    &&& (other_threads_kept(k0, k1, k0.current()))
    &&& (k1.has_thread(k0.current()))
    &&& (k1.task_manager == k0.task_manager)
    &&& (({
            let h = k0.current();
            let p0 = k0.process(k0.current_pid());
            let p1 = k1.process(k0.current_pid());
            let s0 = p0.semaphore_list@[sem_id as int].unwrap();
            let s1 = p1.semaphore_list@[sem_id as int].unwrap();
            let t0 = k0.thread(h);
            &&& changed_at(p0.semaphore_list@, p1.semaphore_list@, sem_id as int)
            &&& p1.mutex_list == p0.mutex_list
            &&& p1.condvar_list == p0.condvar_list
            &&& s1.count == s0.count - 1
            &&& s0.count - 1 < 0 ==> {
                &&& s1.wait_queue@ == s0.wait_queue@.push(h as usize)
                &&& k1.thread(h) == (TaskControlBlock {
                    task_status: TaskStatus::Blocking,
                    resume: Resume::ToUser,
                    ..t0
                })
                &&& k1.processor.current.is_none()
            }
            &&& s0.count - 1 >= 0 ==> {
                &&& s1.wait_queue@ == s0.wait_queue@
                &&& k1.thread(h) == t0
                &&& k1.processor == k0.processor
            }
        }))
}

/// Lowers semaphore `sem_id` of the process of the running thread. Where
/// the count goes below zero the thread waits, last in the queue of the
/// semaphore, until it is woken. The call gives 0.
pub fn sys_semaphore_down(kernel: &mut Kernel, sem_id: usize) -> (r: i64)
    requires
        old(kernel).wf(),
        old(kernel).running(),
        sem_id < old(kernel).process(old(kernel).current_pid()).semaphore_list@.len(),
        old(kernel).process(old(kernel).current_pid()).semaphore_list@[sem_id as int].is_some(),
        old(kernel).process(old(kernel).current_pid()).semaphore_list@[sem_id as int].unwrap().count
            > i64::MIN,
    ensures
        semaphore_down_done(*old(kernel), *final(kernel), sem_id, r),
{
    let ghost k0 = *kernel;
    let pid = current_process(kernel);
    let h = kernel.processor.current().unwrap();
    let mut p = kernel.processes[pid].take().unwrap();
    let mut s = p.semaphore_list[sem_id].take().unwrap();
    let blocked = s.down(h);
    p.semaphore_list.set(sem_id, Some(s));
    kernel.processes.set(pid, Some(p));
    proof {
        lemma_process_changed(k0, *kernel, pid as int);
    }
    if blocked {
        block_current_and_run_next(kernel, Resume::ToUser);
    }
    0
}

/// What `sys_condvar_create` does and gives: `k0` is the kernel before the call, `k1` after it, `r` what the call gives.
pub open spec fn condvar_create_done(
    k0: Kernel,
    k1: Kernel,
    _arg: usize,
    r: i64,
) -> bool {
    &&& (k1.wf())
    &&& (sync_step(k0, k1, k0.current_pid()))
    &&& (k1.threads == k0.threads)
    &&& (k1.task_manager == k0.task_manager)
    &&& (k1.processor == k0.processor)
    &&& (({
            let p0 = k0.process(k0.current_pid());
            let p1 = k1.process(k0.current_pid());
            let id = first_free(p0.condvar_list@, p0.condvar_list@.len() as int);
            &&& r == as_result(id)
            &&& filled_at(p0.condvar_list@, p1.condvar_list@, id)
            &&& p1.condvar_list@[id].unwrap().wait_queue@.len() == 0
            &&& p1.mutex_list == p0.mutex_list
            &&& p1.semaphore_list == p0.semaphore_list
        }))
}

/// A new condition variable for the process of the running thread. The
/// call gives the place of the condition variable.
pub fn sys_condvar_create(kernel: &mut Kernel, _arg: usize) -> (r: i64)
    requires
        old(kernel).wf(),
        old(kernel).running(),
    ensures
        condvar_create_done(*old(kernel), *final(kernel), _arg, r),
{
    let ghost k0 = *kernel;
    let pid = current_process(kernel);
    let mut p = kernel.processes[pid].take().unwrap();
    let id = free_slot(&mut p.condvar_list);
    p.condvar_list.set(id, Some(Condvar::new()));
    kernel.processes.set(pid, Some(p));
    proof {
        lemma_process_changed(k0, *kernel, pid as int);
    }
    to_result(id)
}

/// What `sys_condvar_signal` does and gives: `k0` is the kernel before the call, `k1` after it, `r` what the call gives.
pub open spec fn condvar_signal_done(
    k0: Kernel,
    k1: Kernel,
    condvar_id: usize,
    r: i64,
) -> bool {
    &&& (r == 0)
    &&& (k1.wf())
    &&& (sync_step(k0, k1, k0.current_pid()))
    &&& (k1.processor == k0.processor)
    &&& (({
            let p0 = k0.process(k0.current_pid());
            let p1 = k1.process(k0.current_pid());
            let c0 = p0.condvar_list@[condvar_id as int].unwrap();
            let c1 = p1.condvar_list@[condvar_id as int].unwrap();
            &&& changed_at(p0.condvar_list@, p1.condvar_list@, condvar_id as int)
            &&& p1.mutex_list == p0.mutex_list
            &&& p1.semaphore_list == p0.semaphore_list
            &&& c0.wait_queue@.len() > 0 ==> {
                &&& c1.wait_queue@ == c0.wait_queue@.skip(1)
                &&& woken(k0, k1, c0.wait_queue@[0])
            }
            &&& c0.wait_queue@.len() == 0 ==> {
                &&& c1.wait_queue@ == c0.wait_queue@
                &&& k1.threads == k0.threads
                &&& k1.task_manager == k0.task_manager
            }
        }))
}

/// The thread that waits longest on condition variable `condvar_id` of the
/// process of the running thread, if there is one, is made ready. The call
/// gives 0.
pub fn sys_condvar_signal(kernel: &mut Kernel, condvar_id: usize) -> (r: i64)
    requires
        old(kernel).wf(),
        old(kernel).running(),
        condvar_id < old(kernel).process(old(kernel).current_pid()).condvar_list@.len(),
        old(kernel).process(old(kernel).current_pid()).condvar_list@[condvar_id as int].is_some(),
    ensures
        condvar_signal_done(*old(kernel), *final(kernel), condvar_id, r),
{
    let ghost k0 = *kernel;
    let pid = current_process(kernel);
    let mut p = kernel.processes[pid].take().unwrap();
    let mut c = p.condvar_list[condvar_id].take().unwrap();
    let next = c.signal();
    p.condvar_list.set(condvar_id, Some(c));
    kernel.processes.set(pid, Some(p));
    proof {
        lemma_process_changed(k0, *kernel, pid as int);
    }
    wake(kernel, next);
    0
}

/// What `sys_condvar_wait` does and gives: `k0` is the kernel before the call, `k1` after it, `r` what the call gives.
pub open spec fn condvar_wait_done(
    k0: Kernel,
    k1: Kernel,
    condvar_id: usize,
    mutex_id: usize,
    r: i64,
) -> bool {
    &&& (r == 0)
    &&& (k1.wf())
    &&& (sync_step(k0, k1, k0.current_pid()))
    &&& (k1.processor.current.is_none())
    &&& (({
            let h = k0.current();
            let p0 = k0.process(k0.current_pid());
            let p1 = k1.process(k0.current_pid());
            let c0 = p0.condvar_list@[condvar_id as int].unwrap();
            let c1 = p1.condvar_list@[condvar_id as int].unwrap();
            let m0 = p0.mutex_list@[mutex_id as int].unwrap();
            let m1 = p1.mutex_list@[mutex_id as int].unwrap();
            &&& changed_at(p0.condvar_list@, p1.condvar_list@, condvar_id as int)
            &&& changed_at(p0.mutex_list@, p1.mutex_list@, mutex_id as int)
            &&& p1.semaphore_list == p0.semaphore_list
            &&& c1.wait_queue@ == c0.wait_queue@.push(h as usize)
            &&& m1.blocking() == m0.blocking()
            &&& k1.threads@.len() == k0.threads@.len()
            &&& k1.has_thread(h)
            &&& k1.thread(h).task_status == TaskStatus::Blocking
            &&& k1.thread(h).resume == Resume::Relock(mutex_id)
            &&& m0.queue().len() == 0 ==> {
                &&& !m1.locked()
                &&& m1.queue() == m0.queue()
                &&& k1.task_manager == k0.task_manager
                &&& other_threads_kept(k0, k1, h)
                &&& k1.thread(h) == (TaskControlBlock {
                    task_status: TaskStatus::Blocking,
                    resume: Resume::Relock(mutex_id),
                    ..k0.thread(h)
                })
            }
            &&& m0.queue().len() > 0 ==> {
                &&& m1.locked() == m0.locked()
                &&& m1.queue() == m0.queue().skip(1)
                &&& k1.task_manager.ready_queue@ == k0.task_manager.ready_queue@.push(m0.queue()[0])
                &&& forall|g: int|
                    0 <= g < k0.threads@.len() && g != h && g != m0.queue()[0]
                        ==> #[trigger] k1.threads@[g] == k0.threads@[g]
            }
        }))
}

/// The running thread, which holds mutex `mutex_id` of its process, gives
/// the mutex up and waits, last in the queue of condition variable
/// `condvar_id`. The thread that waits longest for the mutex, if there is
/// one, gets it and is made ready. When the running thread has been woken
/// and runs, it asks for the mutex again. The call gives 0.
pub fn sys_condvar_wait(kernel: &mut Kernel, condvar_id: usize, mutex_id: usize) -> (r: i64)
    requires
        old(kernel).wf(),
        old(kernel).running(),
        condvar_id < old(kernel).process(old(kernel).current_pid()).condvar_list@.len(),
        old(kernel).process(old(kernel).current_pid()).condvar_list@[condvar_id as int].is_some(),
        mutex_id < old(kernel).process(old(kernel).current_pid()).mutex_list@.len(),
        old(kernel).process(old(kernel).current_pid()).mutex_list@[mutex_id as int].is_some(),
        old(kernel).process(old(kernel).current_pid()).mutex_list@[mutex_id as int].unwrap().locked(),
    ensures
        condvar_wait_done(*old(kernel), *final(kernel), condvar_id, mutex_id, r),
{
    let ghost k0 = *kernel;
    let pid = current_process(kernel);
    let h = kernel.processor.current().unwrap();
    let mut p = kernel.processes[pid].take().unwrap();
    let mut c = p.condvar_list[condvar_id].take().unwrap();
    let mut m = p.mutex_list[mutex_id].take().unwrap();
    let next = m.unlock();
    c.wait_no_sched(h);
    p.condvar_list.set(condvar_id, Some(c));
    p.mutex_list.set(mutex_id, Some(m));
    kernel.processes.set(pid, Some(p));
    proof {
        lemma_process_changed(k0, *kernel, pid as int);
    }
    wake(kernel, next);
    block_current_and_run_next(kernel, Resume::Relock(mutex_id));
    0
}

} // verus!
