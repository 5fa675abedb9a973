//! Scheduling: the ready queue, the processor, and how a thread gives up
//! the processor, blocks and ends.
//!
//! The switch between the registers of two flows of control is the
//! caller's. The functions here say what the state of the kernel is after
//! the step and which thread runs next.
use vstd::prelude::*;
use super::id::IDLE_PID;
use super::process::ProcessControlBlock;
use super::task::{Resume, TaskControlBlock, TaskStatus};
use crate::kernel::{lemma_same_memory, same_memory, Kernel};
use crate::mm::memory_set::lemma_spaces_step;

verus! {

/// Whether `k1` is `k0` but for thread `h`.
pub open spec fn except_thread(k0: Kernel, k1: Kernel, h: int) -> bool {
    &&& k1.machine == k0.machine
    &&& k1.frame_allocator == k0.frame_allocator
    &&& k1.kernel_space == k0.kernel_space
    &&& k1.pid_allocator == k0.pid_allocator
    &&& k1.kstack_allocator == k0.kstack_allocator
    &&& k1.processes == k0.processes
    &&& k1.threads@.len() == k0.threads@.len()
    &&& forall|g: int| 0 <= g < k0.threads@.len() && g != h ==> #[trigger] k1.threads@[g] == k0.threads@[g]
    &&& k1.task_manager == k0.task_manager
    &&& k1.processor == k0.processor
    &&& k1.timers == k0.timers
    &&& k1.files == k0.files
    &&& k1.pipes == k0.pipes
    &&& k1.initproc == k0.initproc
    &&& k1.console_out == k0.console_out
    &&& k1.console_in == k0.console_in
}

/// Whether `k1` is `k0` but for process `pid`.
pub open spec fn except_process(k0: Kernel, k1: Kernel, pid: int) -> bool {
    &&& k1.machine == k0.machine
    &&& k1.frame_allocator == k0.frame_allocator
    &&& k1.kernel_space == k0.kernel_space
    &&& k1.pid_allocator == k0.pid_allocator
    &&& k1.kstack_allocator == k0.kstack_allocator
    &&& k1.processes@.len() == k0.processes@.len()
    &&& forall|q: int|
        0 <= q < k0.processes@.len() && q != pid ==> #[trigger] k1.processes@[q] == k0.processes@[q]
    &&& k1.threads == k0.threads
    &&& k1.task_manager == k0.task_manager
    &&& k1.processor == k0.processor
    &&& k1.timers == k0.timers
    &&& k1.files == k0.files
    &&& k1.pipes == k0.pipes
    &&& k1.initproc == k0.initproc
    &&& k1.console_out == k0.console_out
    &&& k1.console_in == k0.console_in
}

/// Whether process `p1` has the number, the address space and the threads'
/// numbers of `p0` and has ended just if `p0` has.
pub open spec fn same_core(p0: ProcessControlBlock, p1: ProcessControlBlock) -> bool {
    &&& p1.pid == p0.pid
    &&& p1.memory_set == p0.memory_set
    &&& p1.is_zombie == p0.is_zombie
    &&& p1.task_res_allocator == p0.task_res_allocator
}

/// A kernel in which one process has changed but kept its number, its
/// address space and whether it has ended is in order as before.
pub proof fn lemma_process_changed(k0: Kernel, k1: Kernel, pid: int)
    requires
        k0.wf(),
        k0.has_process(pid),
        k1.has_process(pid),
        except_process(k0, k1, pid),
        same_core(k0.process(pid), k1.process(pid)),
    ensures
        k1.wf(),
        same_memory(k0, k1),
{
    assert forall|q: int| 0 <= q < k0.processes@.len() implies (#[trigger] k1.processes@[q]).is_some()
        == k0.processes@[q].is_some() by {}
    assert forall|q: int| #[trigger] k0.has_process(q) implies {
        &&& k1.process(q).pid == k0.process(q).pid
        &&& k1.process(q).memory_set == k0.process(q).memory_set
        &&& k1.process(q).is_zombie == k0.process(q).is_zombie
        &&& k1.process(q).task_res_allocator.wf()
    } by {
        if q != pid {
            assert(k1.processes@[q] == k0.processes@[q]);
        }
    }
    lemma_same_memory(k0, k1);
}

/// A kernel in which one thread has changed but kept its kernel stack is in
/// order as before.
pub proof fn lemma_thread_changed(k0: Kernel, k1: Kernel, h: int)
    requires
        k0.wf(),
        k0.has_thread(h),
        k1.has_thread(h),
        except_thread(k0, k1, h),
        k1.thread(h).kstack == k0.thread(h).kstack,
    ensures
        k1.wf(),
        same_memory(k0, k1),
{
    assert forall|g: int| 0 <= g < k0.threads@.len() implies (#[trigger] k1.threads@[g]).is_some()
        == k0.threads@[g].is_some() by {}
    assert forall|g: int| #[trigger] k0.has_thread(g) implies k1.thread(g).kstack == k0.thread(
        g,
    ).kstack by {
        if g != h {
            assert(k1.threads@[g] == k0.threads@[g]);
        }
    }
    assert forall|q: int| #[trigger] k0.has_process(q) implies {
        &&& k1.process(q).pid == k0.process(q).pid
        &&& k1.process(q).memory_set == k0.process(q).memory_set
        &&& k1.process(q).is_zombie == k0.process(q).is_zombie
        &&& k1.process(q).task_res_allocator.wf()
    } by {}
    lemma_same_memory(k0, k1);
}

/// Puts `t` in the place of thread `h`.
pub fn update_thread(kernel: &mut Kernel, h: usize, t: TaskControlBlock)
    requires
        old(kernel).wf(),
        old(kernel).has_thread(h as int),
        t.kstack == old(kernel).thread(h as int).kstack,
    ensures
        final(kernel).wf(),
        except_thread(*old(kernel), *final(kernel), h as int),
        final(kernel).has_thread(h as int),
        final(kernel).thread(h as int) == t,
        same_memory(*old(kernel), *final(kernel)),
{
    kernel.threads.set(h, Some(t));
    proof {
        lemma_thread_changed(*old(kernel), *kernel, h as int);
    }
}

/// Puts thread `task` last into the ready queue.
pub fn add_task(kernel: &mut Kernel, task: usize)
    ensures
        final(kernel).task_manager.ready_queue@ == old(kernel).task_manager.ready_queue@.push(task),
        final(kernel).machine == old(kernel).machine,
        final(kernel).frame_allocator == old(kernel).frame_allocator,
        final(kernel).kernel_space == old(kernel).kernel_space,
        final(kernel).pid_allocator == old(kernel).pid_allocator,
        final(kernel).kstack_allocator == old(kernel).kstack_allocator,
        final(kernel).processes == old(kernel).processes,
        final(kernel).threads == old(kernel).threads,
        final(kernel).processor == old(kernel).processor,
        final(kernel).timers == old(kernel).timers,
        final(kernel).files == old(kernel).files,
        final(kernel).pipes == old(kernel).pipes,
        final(kernel).initproc == old(kernel).initproc,
        final(kernel).console_out == old(kernel).console_out,
        final(kernel).console_in == old(kernel).console_in,
        old(kernel).wf() ==> final(kernel).wf(),
{
    kernel.task_manager.add(task);
    proof {
        if old(kernel).wf() {
            assert(same_memory(*old(kernel), *kernel));
            lemma_same_memory(*old(kernel), *kernel);
        }
    }
}

/// Makes thread `task`, where it exists and waits for something, ready:
/// it stands last in the ready queue.
pub fn wake_task(kernel: &mut Kernel, task: usize)
    requires
        old(kernel).wf(),
    ensures
        final(kernel).wf(),
        same_memory(*old(kernel), *final(kernel)),
        final(kernel).task_manager.ready_queue@ == old(kernel).task_manager.ready_queue@.push(task),
        final(kernel).processor == old(kernel).processor,
        final(kernel).processes == old(kernel).processes,
        final(kernel).files == old(kernel).files,
        final(kernel).pipes == old(kernel).pipes,
        final(kernel).timers == old(kernel).timers,
        final(kernel).machine == old(kernel).machine,
        final(kernel).initproc == old(kernel).initproc,
        final(kernel).console_out == old(kernel).console_out,
        final(kernel).console_in == old(kernel).console_in,
        final(kernel).threads@.len() == old(kernel).threads@.len(),
        forall|g: int|
            0 <= g < old(kernel).threads@.len() && g != task ==> #[trigger] final(kernel).threads@[g]
                == old(kernel).threads@[g],
        old(kernel).has_thread(task as int) ==> final(kernel).has_thread(task as int) && final(kernel).thread(task as int) == (TaskControlBlock {
            task_status: TaskStatus::Ready,
            ..old(kernel).thread(task as int)
        }),
        !old(kernel).has_thread(task as int) ==> final(kernel).threads == old(kernel).threads,
{
    let ghost k0 = *kernel;
    if task < kernel.threads.len() {
        match kernel.threads[task] {
            Some(t) => {
                let mut t = t;
                t.task_status = TaskStatus::Ready;
                update_thread(kernel, task, t);
            },
            None => {},
        }
    }
    let ghost k1 = *kernel;
    kernel.task_manager.add(task);
    proof {
        assert(same_memory(k1, *kernel));
        lemma_same_memory(k1, *kernel);
        assert(same_memory(k0, *kernel));
    }
}

/// Takes the first thread out of the ready queue.
pub fn fetch_task(kernel: &mut Kernel) -> (r: Option<usize>)
    ensures
        old(kernel).task_manager.ready_queue@.len() == 0 ==> r.is_none() && final(kernel).task_manager.ready_queue@ == old(kernel).task_manager.ready_queue@,
        old(kernel).task_manager.ready_queue@.len() > 0 ==> r == Some(
            old(kernel).task_manager.ready_queue@[0],
        ) && final(kernel).task_manager.ready_queue@ == old(kernel).task_manager.ready_queue@.skip(
            1,
        ),
        final(kernel).machine == old(kernel).machine,
        final(kernel).frame_allocator == old(kernel).frame_allocator,
        final(kernel).kernel_space == old(kernel).kernel_space,
        final(kernel).pid_allocator == old(kernel).pid_allocator,
        final(kernel).kstack_allocator == old(kernel).kstack_allocator,
        final(kernel).processes == old(kernel).processes,
        final(kernel).threads == old(kernel).threads,
        final(kernel).processor == old(kernel).processor,
        final(kernel).timers == old(kernel).timers,
        final(kernel).files == old(kernel).files,
        final(kernel).pipes == old(kernel).pipes,
        final(kernel).initproc == old(kernel).initproc,
        final(kernel).console_out == old(kernel).console_out,
        final(kernel).console_in == old(kernel).console_in,
{
    let r = kernel.task_manager.fetch();
    proof {
        if old(kernel).task_manager.ready_queue@.len() == 0 {
            assert(kernel.task_manager.ready_queue@ =~= old(kernel).task_manager.ready_queue@);
        }
    }
    r
}

/// Takes thread `task` out of the ready queue.
pub fn remove_task(kernel: &mut Kernel, task: usize)
    ensures
        !old(kernel).task_manager.ready_queue@.contains(task) ==> final(kernel).task_manager.ready_queue@ == old(kernel).task_manager.ready_queue@,
        old(kernel).task_manager.ready_queue@.contains(task) ==> final(kernel).task_manager.ready_queue@ == old(kernel).task_manager.ready_queue@.remove(
            old(kernel).task_manager.ready_queue@.index_of_first(task).unwrap(),
        ),
        final(kernel).processes == old(kernel).processes,
        final(kernel).threads == old(kernel).threads,
        final(kernel).processor == old(kernel).processor,
{
    kernel.task_manager.remove(task);
}

/// Whether process `pid` is in the table by which processes are found.
pub fn pid2process(kernel: &Kernel, pid: usize) -> (r: bool)
    ensures
        r == (kernel.has_process(pid as int) && kernel.process(pid as int).registered),
{
    if pid < kernel.processes.len() {
        match &kernel.processes[pid] {
            Some(p) => p.registered,
            None => false,
        }
    } else {
        false
    }
}

/// Takes the running thread off the processor.
pub fn take_current_task(kernel: &mut Kernel) -> (r: Option<usize>)
    ensures
        r == old(kernel).processor.current,
        final(kernel).processor.current.is_none(),
        final(kernel).processor.idle_task_cx == old(kernel).processor.idle_task_cx,
        final(kernel).machine == old(kernel).machine,
        final(kernel).frame_allocator == old(kernel).frame_allocator,
        final(kernel).kernel_space == old(kernel).kernel_space,
        final(kernel).pid_allocator == old(kernel).pid_allocator,
        final(kernel).kstack_allocator == old(kernel).kstack_allocator,
        final(kernel).processes == old(kernel).processes,
        final(kernel).threads == old(kernel).threads,
        final(kernel).task_manager == old(kernel).task_manager,
        final(kernel).timers == old(kernel).timers,
        final(kernel).files == old(kernel).files,
        final(kernel).pipes == old(kernel).pipes,
        final(kernel).initproc == old(kernel).initproc,
        final(kernel).console_out == old(kernel).console_out,
        final(kernel).console_in == old(kernel).console_in,
{
    kernel.processor.take_current()
}

/// The running thread.
pub fn current_task(kernel: &Kernel) -> (r: Option<usize>)
    ensures
        r == kernel.processor.current,
{
    kernel.processor.current()
}

/// The number of the process of the running thread.
pub fn current_process(kernel: &Kernel) -> (r: usize)
    requires
        kernel.running(),
    ensures
        r == kernel.current_pid(),
{
    let h = kernel.processor.current().unwrap();
    kernel.threads[h].unwrap().process
}

/// The value that selects the address space of the running thread.
pub fn current_user_token(kernel: &Kernel) -> (r: u64)
    requires
        kernel.running(),
    ensures
        r == kernel.process(kernel.current_pid()).memory_set.page_table.token_value(),
{
    let pid = current_process(kernel);
    kernel.processes[pid].as_ref().unwrap().get_user_token()
}

/// The trap context of the running thread.
pub fn current_trap_cx(kernel: &Kernel) -> (r: crate::trap::context::TrapContext)
    requires
        kernel.running(),
    ensures
        r == kernel.thread(kernel.current()).trap_cx,
{
    let h = kernel.processor.current().unwrap();
    kernel.threads[h].unwrap().trap_cx
}

/// The address of the trap context of the running thread in the address
/// space of its process.
pub fn current_trap_cx_user_va(kernel: &Kernel) -> (r: u64)
    requires
        kernel.running(),
        kernel.thread(kernel.current()).res.is_some(),
        kernel.thread(kernel.current()).res.unwrap().tid <= super::id::MAX_TID,
    ensures
        r == super::id::trap_cx_bottom(kernel.thread(kernel.current()).res.unwrap().tid as int),
{
    let h = kernel.processor.current().unwrap();
    kernel.threads[h].unwrap().res.unwrap().trap_cx_user_va()
}

/// The top of the kernel stack of the running thread.
pub fn current_kstack_top(kernel: &Kernel) -> (r: u64)
    requires
        kernel.wf(),
        kernel.running(),
    ensures
        r == super::id::kstack_position(kernel.thread(kernel.current()).kstack.0 as int).1,
{
    let h = kernel.processor.current().unwrap();
    assert(kernel.threads@[h as int].is_some());
    kernel.threads[h].unwrap().kstack.get_top()
}

/// Whether handle `h` names a thread in the table `threads`.
pub open spec fn names_thread(threads: Seq<Option<TaskControlBlock>>, h: usize) -> bool {
    h < threads.len() && threads[h as int].is_some()
}

/// Index of the first handle of `queue`, from index `from` on, that names a
/// thread; -1 if none does.
pub open spec fn first_thread(threads: Seq<Option<TaskControlBlock>>, queue: Seq<usize>, from: int) -> int
    decreases queue.len() - from,
{
    if from < 0 || from >= queue.len() {
        -1
    } else if names_thread(threads, queue[from]) {
        from
    } else {
        first_thread(threads, queue, from + 1)
    }
}

/// One turn of the idle loop: the first thread of the ready queue that
/// exists is taken out of the queue, with the handles before it, which name
/// no thread; it is marked as running and put on the processor, and the
/// caller switches to its registers. `None`, with the queue empty, when no
/// handle of the queue names a thread.
pub fn run_tasks(kernel: &mut Kernel) -> (r: Option<usize>)
    requires
        old(kernel).wf(),
        old(kernel).processor.current.is_none(),
    ensures
        final(kernel).wf(),
        same_memory(*old(kernel), *final(kernel)),
        final(kernel).processor.current == r,
        final(kernel).processes == old(kernel).processes,
        final(kernel).files == old(kernel).files,
        final(kernel).pipes == old(kernel).pipes,
        final(kernel).timers == old(kernel).timers,
        ({
            let queue = old(kernel).task_manager.ready_queue@;
            let at = first_thread(old(kernel).threads@, queue, 0);
            if at < 0 {
                &&& r.is_none()
                &&& final(kernel).task_manager.ready_queue@.len() == 0
                &&& final(kernel).threads == old(kernel).threads
            } else {
                let h = queue[at];
                &&& r == Some(h)
                &&& final(kernel).task_manager.ready_queue@ == queue.skip(at + 1)
                &&& final(kernel).has_thread(h as int)
                &&& final(kernel).thread(h as int) == (TaskControlBlock {
                    task_status: TaskStatus::Running,
                    ..old(kernel).thread(h as int)
                })
                &&& except_thread(*old(kernel), (Kernel {
                    task_manager: old(kernel).task_manager,
                    processor: old(kernel).processor,
                    ..*final(kernel)
                }), h as int)
            }
        }),
{
    let ghost k0 = *kernel;
    let ghost queue = k0.task_manager.ready_queue@;
    let ghost n: int = 0;
    proof {
        assert(queue.skip(0) =~= queue);
    }
    loop
        invariant
            kernel.wf(),
            k0.wf(),
            same_memory(k0, *kernel),
            k0 == *old(kernel),
            queue == k0.task_manager.ready_queue@,
            kernel.processor.current.is_none(),
            kernel.processor == k0.processor,
            kernel.threads == k0.threads,
            kernel.processes == k0.processes,
            kernel.files == k0.files,
            kernel.pipes == k0.pipes,
            kernel.timers == k0.timers,
            kernel.machine == k0.machine,
            kernel.frame_allocator == k0.frame_allocator,
            kernel.kernel_space == k0.kernel_space,
            kernel.pid_allocator == k0.pid_allocator,
            kernel.kstack_allocator == k0.kstack_allocator,
            kernel.initproc == k0.initproc,
            kernel.console_out == k0.console_out,
            kernel.console_in == k0.console_in,
            0 <= n <= queue.len(),
            kernel.task_manager.ready_queue@ == queue.skip(n),
            first_thread(k0.threads@, queue, n) == first_thread(k0.threads@, queue, 0),
        decreases kernel.task_manager.ready_queue@.len(),
    {
        let ghost k1 = *kernel;
        match fetch_task(kernel) {
            None => {
                proof {
                    assert(same_memory(k1, *kernel));
                    lemma_same_memory(k1, *kernel);
                    assert(same_memory(k0, *kernel));
                    assert(n == queue.len());
                }
                return None;
            },
            Some(h) => {
                proof {
                    assert(same_memory(k1, *kernel));
                    lemma_same_memory(k1, *kernel);
                    assert(h == queue[n]);
                    assert(kernel.task_manager.ready_queue@ =~= queue.skip(n + 1));
                }
                if h < kernel.threads.len() {
                    match kernel.threads[h] {
                        Some(t) => {
                            let mut t = t;
                            t.task_status = TaskStatus::Running;
                            update_thread(kernel, h, t);
                            kernel.processor.current = Some(h);
                            proof {
                                let k2 = *kernel;
                                assert(names_thread(k0.threads@, h));
                                assert(first_thread(k0.threads@, queue, n) == n);
                                assert(same_memory(k0, k2)) by {
                                    assert forall|q: int| #[trigger] k0.has_process(q) implies {
                                        &&& k2.process(q).pid == k0.process(q).pid
                                        &&& k2.process(q).memory_set == k0.process(q).memory_set
                                        &&& k2.process(q).is_zombie == k0.process(q).is_zombie
                                        &&& k2.process(q).task_res_allocator.wf()
                                    } by {}
                                    assert forall|g: int|
                                        0 <= g < k0.threads@.len() implies (
                                    #[trigger] k2.threads@[g]).is_some()
                                        == k0.threads@[g].is_some() by {}
                                    assert forall|g: int| #[trigger] k0.has_thread(g) implies k2.thread(
                                        g,
                                    ).kstack == k0.thread(g).kstack by {
                                        if g != h {
                                            assert(k2.threads@[g] == k0.threads@[g]);
                                        }
                                    }
                                }
                                lemma_same_memory(k0, k2);
                            }
                            return Some(h);
                        },
                        None => {},
                    }
                }
                proof {
                    assert(!names_thread(k0.threads@, h));
                    assert(first_thread(k0.threads@, queue, n) == first_thread(
                        k0.threads@,
                        queue,
                        n + 1,
                    ));
                    n = n + 1;
                }
            },
        }
    }
}

/// Scheduler liveness: where a handle of the ready queue names a thread,
/// the next turn of the idle loop takes a thread, the one whose handle is the
/// first in the queue to name a thread; so ready threads run in the order in
/// which they became ready, and a thread whose handle stands first runs next.
pub proof fn lemma_scheduler_fifo(threads: Seq<Option<TaskControlBlock>>, queue: Seq<usize>, from: int)
    requires
        0 <= from,
    ensures
        (exists|i: int| from <= i < queue.len() && names_thread(threads, #[trigger] queue[i]))
            ==> first_thread(threads, queue, from) >= 0,
        first_thread(threads, queue, from) >= 0 ==> {
            let at = first_thread(threads, queue, from);
            &&& from <= at < queue.len()
            &&& names_thread(threads, queue[at])
            &&& forall|j: int| from <= j < at ==> !names_thread(threads, #[trigger] queue[j])
        },
        from < queue.len() && names_thread(threads, queue[from]) ==> first_thread(
            threads,
            queue,
            from,
        ) == from,
    decreases queue.len() - from,
{
    if from < queue.len() && !names_thread(threads, queue[from]) {
        lemma_scheduler_fifo(threads, queue, from + 1);
        if exists|i: int| from <= i < queue.len() && names_thread(threads, #[trigger] queue[i]) {
            let i = choose|i: int|
                from <= i < queue.len() && names_thread(threads, #[trigger] queue[i]);
            assert(from + 1 <= i);
        }
    }
}

/// The running thread gives up the processor: it is marked as ready and
/// stands last in the ready queue, and no thread runs. When it runs again,
/// it does what `resume` says.
pub fn suspend_current_and_run_next(kernel: &mut Kernel, resume: Resume)
    requires
        old(kernel).wf(),
        old(kernel).running(),
    ensures
        final(kernel).wf(),
        same_memory(*old(kernel), *final(kernel)),
        final(kernel).processor.current.is_none(),
        final(kernel).task_manager.ready_queue@ == old(kernel).task_manager.ready_queue@.push(
            old(kernel).current() as usize,
        ),
        final(kernel).has_thread(old(kernel).current()),
        final(kernel).thread(old(kernel).current()) == (TaskControlBlock {
            task_status: TaskStatus::Ready,
            resume,
            ..old(kernel).thread(old(kernel).current())
        }),
        final(kernel).threads@.len() == old(kernel).threads@.len(),
        forall|g: int|
            0 <= g < old(kernel).threads@.len() && g != old(kernel).current() ==> #[trigger] final(kernel).threads@[g] == old(kernel).threads@[g],
        final(kernel).processes == old(kernel).processes,
        final(kernel).files == old(kernel).files,
        final(kernel).pipes == old(kernel).pipes,
        final(kernel).timers == old(kernel).timers,
        final(kernel).machine == old(kernel).machine,
        final(kernel).initproc == old(kernel).initproc,
        final(kernel).console_out == old(kernel).console_out,
        final(kernel).console_in == old(kernel).console_in,
{
    let ghost k0 = *kernel;
    let h = take_current_task(kernel).unwrap();
    proof {
        assert(same_memory(k0, *kernel));
        lemma_same_memory(k0, *kernel);
    }
    let mut t = kernel.threads[h].unwrap();
    t.task_status = TaskStatus::Ready;
    t.resume = resume;
    update_thread(kernel, h, t);
    let ghost k1 = *kernel;
    kernel.task_manager.add(h);
    proof {
        assert(same_memory(k1, *kernel));
        lemma_same_memory(k1, *kernel);
    }
}

/// The running thread blocks: it is marked as blocking, and no thread runs.
/// It runs again when something puts it into the ready queue.
pub fn block_current_and_run_next(kernel: &mut Kernel, resume: Resume)
    requires
        old(kernel).wf(),
        old(kernel).running(),
    ensures
        final(kernel).wf(),
        same_memory(*old(kernel), *final(kernel)),
        final(kernel).processor.current.is_none(),
        final(kernel).task_manager == old(kernel).task_manager,
        final(kernel).has_thread(old(kernel).current()),
        final(kernel).thread(old(kernel).current()) == (TaskControlBlock {
            task_status: TaskStatus::Blocking,
            resume,
            ..old(kernel).thread(old(kernel).current())
        }),
        final(kernel).threads@.len() == old(kernel).threads@.len(),
        forall|g: int|
            0 <= g < old(kernel).threads@.len() && g != old(kernel).current() ==> #[trigger] final(kernel).threads@[g] == old(kernel).threads@[g],
        final(kernel).processes == old(kernel).processes,
        final(kernel).files == old(kernel).files,
        final(kernel).pipes == old(kernel).pipes,
        final(kernel).timers == old(kernel).timers,
        final(kernel).machine == old(kernel).machine,
        final(kernel).initproc == old(kernel).initproc,
        final(kernel).console_out == old(kernel).console_out,
        final(kernel).console_in == old(kernel).console_in,
{
    let ghost k0 = *kernel;
    let h = take_current_task(kernel).unwrap();
    proof {
        assert(same_memory(k0, *kernel));
        lemma_same_memory(k0, *kernel);
    }
    let mut t = kernel.threads[h].unwrap();
    t.task_status = TaskStatus::Blocking;
    t.resume = resume;
    update_thread(kernel, h, t);
}

/// What the caller does after the running thread has ended.
#[derive(Copy, Clone, PartialEq, Eq, Structural, Debug)]
pub enum ExitAction {
    /// The process that never ends has ended: the machine is shut down,
    /// with success if the exit code was 0.
    Shutdown { success: bool },
    /// The idle loop picks the next thread.
    Scheduled,
}

/// Gives the processes `children` the parent `parent`, as far as they exist.
pub fn reparent(kernel: &mut Kernel, children: &Vec<usize>, parent: usize)
    requires
        old(kernel).wf(),
    ensures
        final(kernel).wf(),
        same_memory(*old(kernel), *final(kernel)),
        final(kernel).threads == old(kernel).threads,
        final(kernel).task_manager == old(kernel).task_manager,
        final(kernel).processor == old(kernel).processor,
        final(kernel).timers == old(kernel).timers,
        final(kernel).files == old(kernel).files,
        final(kernel).pipes == old(kernel).pipes,
        final(kernel).machine == old(kernel).machine,
        final(kernel).initproc == old(kernel).initproc,
        final(kernel).console_out == old(kernel).console_out,
        final(kernel).console_in == old(kernel).console_in,
        final(kernel).processes@.len() == old(kernel).processes@.len(),
        forall|q: int|
            0 <= q < old(kernel).processes@.len() && !children@.contains(q as usize)
                ==> #[trigger] final(kernel).processes@[q] == old(kernel).processes@[q],
        forall|q: int| #[trigger]
            old(kernel).has_process(q) ==> final(kernel).has_process(q) && same_core(
                old(kernel).process(q),
                final(kernel).process(q),
            ) && final(kernel).process(q).children == old(kernel).process(q).children && final(kernel).process(q).fd_table == old(kernel).process(q).fd_table && final(kernel).process(
                q,
            ).tasks == old(kernel).process(q).tasks && final(kernel).process(q).registered == old(kernel).process(q).registered && final(kernel).process(q).exit_code == old(kernel).process(
                q,
            ).exit_code && final(kernel).process(q).parent == if children@.contains(q as usize) {
                Some(parent)
            } else {
                old(kernel).process(q).parent
            },
{
    let ghost k0 = *kernel;
    let mut i: usize = 0;
    while i < children.len()
        invariant
            0 <= i <= children@.len(),
            k0 == *old(kernel),
            k0.wf(),
            kernel.wf(),
            same_memory(k0, *kernel),
            kernel.threads == k0.threads,
            kernel.task_manager == k0.task_manager,
            kernel.processor == k0.processor,
            kernel.timers == k0.timers,
            kernel.files == k0.files,
            kernel.pipes == k0.pipes,
            kernel.machine == k0.machine,
            kernel.initproc == k0.initproc,
            kernel.console_out == k0.console_out,
            kernel.console_in == k0.console_in,
            kernel.frame_allocator == k0.frame_allocator,
            kernel.kernel_space == k0.kernel_space,
            kernel.pid_allocator == k0.pid_allocator,
            kernel.kstack_allocator == k0.kstack_allocator,
            kernel.processes@.len() == k0.processes@.len(),
            forall|q: int|
                0 <= q < k0.processes@.len() && !children@.take(i as int).contains(q as usize)
                    ==> #[trigger] kernel.processes@[q] == k0.processes@[q],
            forall|q: int| #[trigger]
                k0.has_process(q) ==> kernel.has_process(q) && same_core(
                    k0.process(q),
                    kernel.process(q),
                ) && kernel.process(q).children == k0.process(q).children && kernel.process(
                    q,
                ).fd_table == k0.process(q).fd_table && kernel.process(q).tasks == k0.process(
                    q,
                ).tasks && kernel.process(q).registered == k0.process(q).registered
                    && kernel.process(q).exit_code == k0.process(q).exit_code && kernel.process(
                    q,
                ).parent == if children@.take(i as int).contains(q as usize) {
                    Some(parent)
                } else {
                    k0.process(q).parent
                },
        decreases children@.len() - i,
    {
        let c = children[i];
        let ghost k1 = *kernel;
        proof {
            let t0 = children@.take(i as int);
            let t1 = children@.take(i as int + 1);
            assert(t1 =~= t0.push(c));
            assert forall|q: usize| t1.contains(q) == (t0.contains(q) || q == c) by {
                if t0.contains(q) {
                    let j = choose|j: int| 0 <= j < t0.len() && t0[j] == q;
                    assert(t1[j] == q);
                }
                if q == c {
                    assert(t1[i as int] == c);
                }
                if t1.contains(q) {
                    let j = choose|j: int| 0 <= j < t1.len() && t1[j] == q;
                    if j < i {
                        assert(t0[j] == q);
                    }
                }
            }
        }
        if c < kernel.processes.len() {
            match kernel.processes[c].take() {
                Some(p) => {
                    let mut p = p;
                    p.parent = Some(parent);
                    kernel.processes.set(c, Some(p));
                    proof {
                        assert(k1.has_process(c as int));
                        assert(k0.has_process(c as int)) by {
                            assert(k1.processes@[c as int].is_some());
                            if !k0.processes@[c as int].is_some() {
                                assert(same_memory(k0, k1));
                            }
                        }
                        lemma_process_changed(k1, *kernel, c as int);
                        assert forall|q: int| #[trigger] k0.has_process(q) implies {
                            &&& kernel.process(q).pid == k0.process(q).pid
                            &&& kernel.process(q).memory_set == k0.process(q).memory_set
                            &&& kernel.process(q).is_zombie == k0.process(q).is_zombie
                            &&& kernel.process(q).task_res_allocator.wf()
                        } by {
                            assert(k1.has_process(q));
                            if q != c {
                                assert(kernel.processes@[q] == k1.processes@[q]);
                            }
                        }
                        assert forall|q: int| 0 <= q < k0.processes@.len() implies (
                        #[trigger] kernel.processes@[q]).is_some() == k0.processes@[q].is_some() by {
                            if q != c {
                                assert(kernel.processes@[q] == k1.processes@[q]);
                            }
                        }
                        assert(same_memory(k0, *kernel));
                    }
                },
                None => {
                    proof {
                        assert(kernel.processes@ =~= k1.processes@);
                        assert(!k1.has_process(c as int));
                        assert(same_memory(k1, *kernel));
                        lemma_same_memory(k1, *kernel);
                    }
                },
            }
        } else {
            proof {
                assert(!k0.has_process(c as int));
            }
        }
        proof {
            assert forall|q: int|
                0 <= q < k0.processes@.len() && !children@.take(i as int + 1).contains(
                    q as usize,
                ) implies #[trigger] kernel.processes@[q] == k0.processes@[q] by {
                assert(!children@.take(i as int).contains(q as usize));
                assert(k1.processes@[q] == k0.processes@[q]);
            }
            assert forall|q: int| #[trigger] k0.has_process(q) implies kernel.has_process(q)
                && same_core(k0.process(q), kernel.process(q)) && kernel.process(q).children
                == k0.process(q).children && kernel.process(q).fd_table == k0.process(q).fd_table
                && kernel.process(q).tasks == k0.process(q).tasks && kernel.process(q).registered
                == k0.process(q).registered && kernel.process(q).exit_code == k0.process(
                q,
            ).exit_code && kernel.process(q).parent == if children@.take(i as int + 1).contains(
                q as usize,
            ) {
                Some(parent)
            } else {
                k0.process(q).parent
            } by {
                assert(k1.has_process(q));
                if q != c {
                    assert(kernel.processes@[q] == k1.processes@[q]);
                }
            }
        }
        i += 1;
    }
    proof {
        assert(children@.take(children@.len() as int) =~= children@);
    }
}

/// The running thread ends with `exit_code`, and with it its process: the
/// process is taken out of the table by which processes are found and is
/// marked as ended with that exit code, its children become children of the
/// first process, and the frames of its regions are given back. No thread
/// runs afterwards. Where the process that ends is the one that never ends,
/// nothing changes and the machine is to be shut down.
pub fn exit_current_and_run_next(kernel: &mut Kernel, exit_code: i32) -> (r: ExitAction)
    requires
        old(kernel).wf(),
        old(kernel).running(),
        old(kernel).current_pid() == IDLE_PID || (old(kernel).has_process(
            old(kernel).initproc as int,
        ) && old(kernel).initproc != old(kernel).current_pid()),
    ensures
        final(kernel).wf(),
        old(kernel).current_pid() == IDLE_PID ==> r == (ExitAction::Shutdown {
            success: exit_code == 0,
        }) && *final(kernel) == *old(kernel),
        old(kernel).current_pid() != IDLE_PID ==> {
            let pid = old(kernel).current_pid();
            let h = old(kernel).current();
            let p0 = old(kernel).process(pid);
            let p = final(kernel).process(pid);
            let init = old(kernel).initproc as int;
            &&& r == ExitAction::Scheduled
            &&& final(kernel).processor.current.is_none()
            &&& final(kernel).has_process(pid)
            &&& p.is_zombie && !p.registered && p.exit_code == exit_code
            &&& p.children@.len() == 0
            &&& p.memory_set.areas@.len() == 0
            &&& p.memory_set.page_table == p0.memory_set.page_table
            &&& p.pid == p0.pid && p.fd_table == p0.fd_table && p.tasks == p0.tasks
            &&& final(kernel).has_process(init)
            &&& final(kernel).process(init).children@ == old(kernel).process(init).children@
                + p0.children@
            &&& forall|c: int|
                p0.children@.contains(c as usize) && c != pid && c != init && #[trigger] old(kernel).has_process(c) ==> final(kernel).has_process(c) && final(kernel).process(c).parent
                    == Some(init as usize)
            &&& final(kernel).has_thread(h)
            &&& final(kernel).thread(h) == (TaskControlBlock {
                exit_code: Some(exit_code),
                ..old(kernel).thread(h)
            })
            &&& final(kernel).task_manager == old(kernel).task_manager
            &&& final(kernel).files == old(kernel).files
            &&& final(kernel).pipes == old(kernel).pipes
            &&& forall|g: int|
                0 <= g < old(kernel).threads@.len() && g != h ==> #[trigger] final(kernel).threads@[g]
                    == old(kernel).threads@[g]
        },
{
    let ghost k0 = *kernel;
    let pid = current_process(kernel);
    if pid == IDLE_PID {
        return ExitAction::Shutdown { success: exit_code == 0 };
    }
    let init = kernel.initproc;
    let h = take_current_task(kernel).unwrap();
    proof {
        assert(same_memory(k0, *kernel));
        lemma_same_memory(k0, *kernel);
    }
    let mut t = kernel.threads[h].unwrap();
    t.exit_code = Some(exit_code);
    update_thread(kernel, h, t);
    let ghost k1 = *kernel;
    // the children go to the first process
    let mut p = kernel.processes[pid].take().unwrap();
    let mut children: Vec<usize> = Vec::new();
    core::mem::swap(&mut children, &mut p.children);
    p.registered = false;
    p.exit_code = exit_code;
    kernel.processes.set(pid, Some(p));
    proof {
        lemma_process_changed(k1, *kernel, pid as int);
    }
    let ghost k2 = *kernel;
    reparent(kernel, &children, init);
    let ghost k3 = *kernel;
    let mut ip = kernel.processes[init].take().unwrap();
    let mut j: usize = 0;
    while j < children.len()
        invariant
            0 <= j <= children@.len(),
            ip.children@ == k3.process(init as int).children@ + children@.take(j as int),
            same_core(k3.process(init as int), ip),
            ip.fd_table == k3.process(init as int).fd_table,
            ip.tasks == k3.process(init as int).tasks,
            ip.parent == k3.process(init as int).parent,
        decreases children@.len() - j,
    {
        ip.children.push(children[j]);
        j += 1;
        assert(ip.children@ =~= k3.process(init as int).children@ + children@.take(j as int));
    }
    proof {
        assert(children@.take(children@.len() as int) =~= children@);
    }
    kernel.processes.set(init, Some(ip));
    proof {
        lemma_process_changed(k3, *kernel, init as int);
    }
    let ghost k4 = *kernel;
    let ghost a4 = kernel.frame_allocator@;
    // the frames of the regions are given back
    let mut p = kernel.processes[pid].take().unwrap();
    let ghost ms4 = p.memory_set;
    proof {
        assert(k4.has_process(pid as int));
        assert(k4.spaces()[pid + 1] == Some(ms4));
    }
    p.is_zombie = true;
    p.memory_set.recycle_data_pages(&mut kernel.frame_allocator);
    kernel.processes.set(pid, Some(p));
    proof {
        let s4 = k4.spaces();
        let s5 = kernel.spaces();
        let a5 = kernel.frame_allocator@;
        assert(s5[pid + 1] == Some(kernel.process(pid as int).memory_set));
        assert forall|i: int| 0 <= i < s4.len() && i != pid + 1 implies #[trigger] s5[i] == s4[i] by {
            if i > 0 {
                assert(kernel.processes@[i - 1] == k4.processes@[i - 1]);
            }
        }
        lemma_spaces_step(s4, a4, s5, a5, pid + 1);
        assert(s4[0] == Some(k4.kernel_space));
        assert(s5[0] == Some(kernel.kernel_space));
        assert forall|q: int| #[trigger] kernel.has_process(q) implies {
            let pr = kernel.process(q);
            &&& pr.pid.0 == q
            &&& kernel.pid_allocator.in_use(q as usize)
            &&& pr.task_res_allocator.wf()
            &&& !pr.is_zombie ==> pr.memory_set.complete(kernel.frame_allocator@)
        } by {
            assert(k4.has_process(q));
            if q != pid {
                assert(kernel.processes@[q] == k4.processes@[q]);
                assert(s4[q + 1] == Some(k4.process(q).memory_set));
                assert(s5[q + 1] == Some(kernel.process(q).memory_set));
            }
        }
        // what the result says of the children
        assert forall|c: int|
            k0.process(pid as int).children@.contains(c as usize) && c != pid && c != init
                && #[trigger] k0.has_process(c) implies kernel.has_process(c) && kernel.process(
            c,
        ).parent == Some(init) by {
            assert(k1.has_process(c));
            assert(k2.processes@[c] == k1.processes@[c]);
            assert(k2.has_process(c));
            assert(k3.has_process(c));
            assert(k4.processes@[c] == k3.processes@[c]);
            assert(kernel.processes@[c] == k4.processes@[c]);
        }
        assert(k3.has_process(init as int)) by {
            assert(k1.has_process(init as int));
            assert(k2.processes@[init as int] == k1.processes@[init as int]);
            assert(k2.has_process(init as int));
        }
        assert(k2.has_process(pid as int));
        assert(k3.has_process(pid as int));
        assert(k4.processes@[pid as int] == k3.processes@[pid as int]);
        assert(children@ == k0.process(pid as int).children@);
        assert(k1.has_process(init as int));
        assert(k2.processes@[init as int] == k1.processes@[init as int]);
        assert(k2.has_process(init as int));
        assert(k3.process(init as int).children == k2.process(init as int).children);
        assert(k2.process(init as int).children == k0.process(init as int).children);
        assert(kernel.processes@[init as int] == k4.processes@[init as int]);
        assert(kernel.process(init as int).children@ == k0.process(init as int).children@
            + k0.process(pid as int).children@);
    }
    ExitAction::Scheduled
}

} // verus!
