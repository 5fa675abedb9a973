//! What is given back when a thread or a process is gone for good.
use vstd::prelude::*;
use super::id::{kernel_stack_position, MAX_KSTACK_ID};
use super::process::ProcessControlBlock;
use crate::kernel::{
    kstack_pages, lemma_kernel_other_allocator, lemma_kstack_pages, threads_ok, Kernel,
};
use crate::mm::address::{VirtAddr, VirtPageNum};
use crate::mm::memory_set::{
    lemma_complete_wf, lemma_owns_in_use, lemma_spaces_step, lemma_wf_parts,
};
use crate::syscall::fs::{
    close_file, closed_write_end, files_after_close, pipes_after_close, pipes_wf,
};
use crate::fs::inode::OpenFile;
use crate::fs::pipe::PipeRingBuffer;

verus! {

/// Thread `h` is gone: the region of its kernel stack leaves the address
/// space of the kernel, with its frames, the number of the stack is free
/// again, and so is the place of the thread.
pub fn free_thread(kernel: &mut Kernel, h: usize)
    requires
        old(kernel).wf(),
        old(kernel).has_thread(h as int),
    ensures
        final(kernel).wf(),
        !final(kernel).has_thread(h as int),
        final(kernel).threads@ == old(kernel).threads@.update(h as int, None),
        !final(kernel).kstack_allocator.in_use(old(kernel).thread(h as int).kstack.0),
        forall|other: usize|
            other != old(kernel).thread(h as int).kstack.0 ==> final(kernel).kstack_allocator.in_use(
                other,
            ) == old(kernel).kstack_allocator.in_use(other),
        old(kernel).kernel_space.area_starting_at(
            kstack_pages(old(kernel).thread(h as int).kstack.0 as int).0 as u64,
        ) < 0 ==> final(kernel).kernel_space == old(kernel).kernel_space,
        old(kernel).kernel_space.area_starting_at(
            kstack_pages(old(kernel).thread(h as int).kstack.0 as int).0 as u64,
        ) >= 0 ==> final(kernel).kernel_space.areas@ == old(kernel).kernel_space.areas@.remove(
            old(kernel).kernel_space.area_starting_at(
                kstack_pages(old(kernel).thread(h as int).kstack.0 as int).0 as u64,
            ),
        ),
        forall|f: u64| final(kernel).frame_allocator@.in_use(f) ==> old(kernel).frame_allocator@.in_use(f),
        final(kernel).processes == old(kernel).processes,
        final(kernel).pid_allocator == old(kernel).pid_allocator,
        final(kernel).task_manager == old(kernel).task_manager,
        final(kernel).processor == old(kernel).processor,
        final(kernel).machine == old(kernel).machine,
        final(kernel).timers == old(kernel).timers,
        final(kernel).files == old(kernel).files,
        final(kernel).pipes == old(kernel).pipes,
        final(kernel).initproc == old(kernel).initproc,
        final(kernel).console_out == old(kernel).console_out,
        final(kernel).console_in == old(kernel).console_in,
{
    let ghost k0 = *kernel;
    let ghost a0 = kernel.frame_allocator@;
    let id: usize = kernel.threads[h].unwrap().kstack.0;
    proof {
        assert(k0.threads@[h as int].is_some());
        assert(id <= MAX_KSTACK_ID && k0.kstack_allocator.in_use(id));
        lemma_kstack_pages(id as int);
        lemma_complete_wf(k0.kernel_space, a0);
        lemma_wf_parts(k0.kernel_space, a0);
    }
    let (bottom, top) = kernel_stack_position(id);
    let first: u64 = VirtAddr::from(bottom).floor().0;
    let found = kernel.kernel_space.remove_area_with_start_vpn(
        &mut kernel.frame_allocator,
        VirtPageNum(first),
    );
    kernel.threads.set(h, None);
    kernel.kstack_allocator.dealloc(id);
    proof {
        let a1 = kernel.frame_allocator@;
        lemma_complete_wf(kernel.kernel_space, a1);
        lemma_wf_parts(kernel.kernel_space, a1);
        assert(k0.spaces()[0] == Some(k0.kernel_space));
        assert(kernel.spaces() =~= k0.spaces().update(0, Some(kernel.kernel_space)));
        lemma_spaces_step(k0.spaces(), a0, kernel.spaces(), a1, 0);
        assert forall|pid: int| #[trigger] kernel.has_process(pid) implies {
            let p = kernel.process(pid);
            &&& p.pid.0 == pid
            &&& kernel.pid_allocator.in_use(pid as usize)
            &&& p.task_res_allocator.wf()
            &&& !p.is_zombie ==> p.memory_set.complete(kernel.frame_allocator@)
        } by {
            assert(k0.has_process(pid));
            assert(k0.spaces()[pid + 1] == Some(k0.process(pid).memory_set));
            assert(kernel.spaces()[pid + 1] == Some(kernel.process(pid).memory_set));
        }
        assert(threads_ok(kernel.threads@, kernel.kstack_allocator)) by {
            let t0 = k0.threads@;
            let t1 = kernel.threads@;
            assert forall|g: int| 0 <= g < t1.len() && (#[trigger] t1[g]).is_some() implies t1[g].unwrap().kstack.0
                <= MAX_KSTACK_ID && kernel.kstack_allocator.in_use(t1[g].unwrap().kstack.0) by {
                assert(t1[g] == t0[g]);
                assert(t0[g].is_some() && t0[h as int].is_some());
                assert(t0[g].unwrap().kstack != t0[h as int].unwrap().kstack);
            }
            assert forall|a: int, b: int|
                0 <= a < t1.len() && 0 <= b < t1.len() && a != b && (#[trigger] t1[a]).is_some() && (
                #[trigger] t1[b]).is_some() implies t1[a].unwrap().kstack != t1[b].unwrap().kstack by {
                assert(t1[a] == t0[a] && t1[b] == t0[b]);
            }
        }
    }
}

/// The open files and the pipes after one descriptor of each file that
/// the first `n` of `fds` name has gone.
pub open spec fn closed_all(
    files: Seq<Option<OpenFile>>,
    pipes: Seq<Option<PipeRingBuffer>>,
    fds: Seq<Option<usize>>,
    n: int,
) -> (Seq<Option<OpenFile>>, Seq<Option<PipeRingBuffer>>)
    decreases n,
{
    if n <= 0 {
        (files, pipes)
    } else {
        let before = closed_all(files, pipes, fds, n - 1);
        match fds[n - 1] {
            Some(f) => (
                files_after_close(before.0, f as int),
                pipes_after_close(before.1, closed_write_end(before.0, f as int)),
            ),
            None => before,
        }
    }
}

/// Whether thread `g` is one of those that `tasks` names and belongs to
/// process `pid`.
pub open spec fn thread_of(k: Kernel, tasks: Seq<Option<usize>>, pid: int, g: int) -> bool {
    &&& k.has_thread(g)
    &&& k.thread(g).process == pid
    &&& exists|i: int| 0 <= i < tasks.len() && #[trigger] tasks[i] == Some(g as usize)
}

/// Frees the threads of process `pid` that the first `n` of `tasks` name.
fn free_threads(kernel: &mut Kernel, tasks: &Vec<Option<usize>>, pid: usize)
    requires
        old(kernel).wf(),
    ensures
        final(kernel).wf(),
        final(kernel).threads@.len() == old(kernel).threads@.len(),
        forall|g: int|
            0 <= g < old(kernel).threads@.len() ==> #[trigger] final(kernel).threads@[g] == if thread_of(
                *old(kernel),
                tasks@,
                pid as int,
                g,
            ) {
                None
            } else {
                old(kernel).threads@[g]
            },
        forall|f: u64| final(kernel).frame_allocator@.in_use(f) ==> old(kernel).frame_allocator@.in_use(f),
        final(kernel).processes == old(kernel).processes,
        final(kernel).pid_allocator == old(kernel).pid_allocator,
        final(kernel).task_manager == old(kernel).task_manager,
        final(kernel).processor == old(kernel).processor,
        final(kernel).machine == old(kernel).machine,
        final(kernel).timers == old(kernel).timers,
        final(kernel).files == old(kernel).files,
        final(kernel).pipes == old(kernel).pipes,
        final(kernel).initproc == old(kernel).initproc,
        final(kernel).console_out == old(kernel).console_out,
        final(kernel).console_in == old(kernel).console_in,
{
    let ghost k0 = *kernel;
    let mut i: usize = 0;
    while i < tasks.len()
        invariant
            0 <= i <= tasks@.len(),
            k0 == *old(kernel),
            kernel.wf(),
            kernel.threads@.len() == k0.threads@.len(),
            forall|g: int|
                0 <= g < k0.threads@.len() ==> #[trigger] kernel.threads@[g] == if thread_of(
                    k0,
                    tasks@.take(i as int),
                    pid as int,
                    g,
                ) {
                    None
                } else {
                    k0.threads@[g]
                },
            forall|f: u64| kernel.frame_allocator@.in_use(f) ==> k0.frame_allocator@.in_use(f),
            kernel.processes == k0.processes,
            kernel.pid_allocator == k0.pid_allocator,
            kernel.task_manager == k0.task_manager,
            kernel.processor == k0.processor,
            kernel.machine == k0.machine,
            kernel.timers == k0.timers,
            kernel.files == k0.files,
            kernel.pipes == k0.pipes,
            kernel.initproc == k0.initproc,
            kernel.console_out == k0.console_out,
            kernel.console_in == k0.console_in,
        decreases tasks@.len() - i,
    {
        let ghost k1 = *kernel;
        let ghost seen = tasks@.take(i as int);
        let ghost more = tasks@.take(i + 1);
        match tasks[i] {
            Some(h) => {
                if h < kernel.threads.len() {
                    match kernel.threads[h] {
                        Some(t) => {
                            if t.process == pid {
                                free_thread(kernel, h);
                            }
                        },
                        None => {},
                    }
                }
            },
            None => {},
        }
        proof {
            assert(more[i as int] == tasks@[i as int]);
            assert forall|g: int| 0 <= g < k0.threads@.len() implies #[trigger] kernel.threads@[g]
                == if thread_of(k0, more, pid as int, g) {
                None
            } else {
                k0.threads@[g]
            } by {
                if thread_of(k0, seen, pid as int, g) {
                    let j = choose|j: int| 0 <= j < seen.len() && #[trigger] seen[j] == Some(g as usize);
                    assert(more[j] == Some(g as usize));
                    assert(k1.threads@[g].is_none());
                } else if thread_of(k0, more, pid as int, g) {
                    let j = choose|j: int| 0 <= j < more.len() && #[trigger] more[j] == Some(g as usize);
                    if j < i {
                        assert(seen[j] == Some(g as usize));
                    }
                    assert(j == i);
                    assert(k1.threads@[g] == k0.threads@[g]);
                } else {
                    assert(k1.threads@[g] == k0.threads@[g]);
                    if tasks@[i as int] == Some(g as usize) {
                        assert(more[i as int] == Some(g as usize));
                    }
                }
            }
        }
        i += 1;
    }
    proof {
        assert(tasks@.take(tasks@.len() as int) =~= tasks@);
    }
}

/// One descriptor of each file that `fds` names goes; see `closed_all`.
fn close_files(kernel: &mut Kernel, fds: &Vec<Option<usize>>)
    requires
        old(kernel).wf(),
        pipes_wf(*old(kernel)),
    ensures
        final(kernel).wf(),
        pipes_wf(*final(kernel)),
        (final(kernel).files@, final(kernel).pipes@) == closed_all(
            old(kernel).files@,
            old(kernel).pipes@,
            fds@,
            fds@.len() as int,
        ),
        final(kernel).frame_allocator == old(kernel).frame_allocator,
        final(kernel).kernel_space == old(kernel).kernel_space,
        final(kernel).kstack_allocator == old(kernel).kstack_allocator,
        final(kernel).threads == old(kernel).threads,
        final(kernel).processes == old(kernel).processes,
        final(kernel).pid_allocator == old(kernel).pid_allocator,
        final(kernel).task_manager == old(kernel).task_manager,
        final(kernel).processor == old(kernel).processor,
        final(kernel).machine == old(kernel).machine,
        final(kernel).timers == old(kernel).timers,
        final(kernel).initproc == old(kernel).initproc,
        final(kernel).console_out == old(kernel).console_out,
        final(kernel).console_in == old(kernel).console_in,
{
    let mut i: usize = 0;
    while i < fds.len()
        invariant
            0 <= i <= fds@.len(),
            kernel.wf(),
            pipes_wf(*kernel),
            (kernel.files@, kernel.pipes@) == closed_all(
                old(kernel).files@,
                old(kernel).pipes@,
                fds@,
                i as int,
            ),
            kernel.frame_allocator == old(kernel).frame_allocator,
            kernel.kernel_space == old(kernel).kernel_space,
            kernel.kstack_allocator == old(kernel).kstack_allocator,
            kernel.threads == old(kernel).threads,
            kernel.processes == old(kernel).processes,
            kernel.pid_allocator == old(kernel).pid_allocator,
            kernel.task_manager == old(kernel).task_manager,
            kernel.processor == old(kernel).processor,
            kernel.machine == old(kernel).machine,
            kernel.timers == old(kernel).timers,
            kernel.initproc == old(kernel).initproc,
            kernel.console_out == old(kernel).console_out,
            kernel.console_in == old(kernel).console_in,
        decreases fds@.len() - i,
    {
        match fds[i] {
            Some(f) => {
                close_file(kernel, f);
            },
            None => {},
        }
        i += 1;
    }
}

/// Process `pid` is gone: its place is free and so is its number, the
/// frames of its address space are given back, its threads are freed as
/// `free_thread` says, and one descriptor of each of its open files goes.
/// Gives the exit code of the process.
pub fn free_process(kernel: &mut Kernel, pid: usize) -> (exit_code: i32)
    requires
        old(kernel).wf(),
        pipes_wf(*old(kernel)),
        old(kernel).has_process(pid as int),
    ensures
        final(kernel).wf(),
        pipes_wf(*final(kernel)),
        exit_code == old(kernel).process(pid as int).exit_code,
        final(kernel).processes@ == old(kernel).processes@.update(pid as int, None),
        !final(kernel).pid_allocator.in_use(pid),
        forall|other: usize|
            other != pid ==> final(kernel).pid_allocator.in_use(other) == old(kernel).pid_allocator.in_use(
                other,
            ),
        final(kernel).threads@.len() == old(kernel).threads@.len(),
        forall|g: int|
            0 <= g < old(kernel).threads@.len() ==> #[trigger] final(kernel).threads@[g] == if thread_of(
                *old(kernel),
                old(kernel).process(pid as int).tasks@,
                pid as int,
                g,
            ) {
                None
            } else {
                old(kernel).threads@[g]
            },
        (final(kernel).files@, final(kernel).pipes@) == closed_all(
            old(kernel).files@,
            old(kernel).pipes@,
            old(kernel).process(pid as int).fd_table@,
            old(kernel).process(pid as int).fd_table@.len() as int,
        ),
        forall|f: u64| final(kernel).frame_allocator@.in_use(f) ==> old(kernel).frame_allocator@.in_use(f),
        forall|f: u64|
            old(kernel).process(pid as int).memory_set.owns(f) ==> !final(kernel).frame_allocator@.in_use(
                f,
            ),
        final(kernel).task_manager == old(kernel).task_manager,
        final(kernel).processor == old(kernel).processor,
        final(kernel).machine == old(kernel).machine,
        final(kernel).timers == old(kernel).timers,
        final(kernel).initproc == old(kernel).initproc,
        final(kernel).console_out == old(kernel).console_out,
        final(kernel).console_in == old(kernel).console_in,
{
    let ghost k0 = *kernel;
    let ghost a0 = kernel.frame_allocator@;
    let p = kernel.processes[pid].take().unwrap();
    let ghost k1 = *kernel;
    let ghost ms = p.memory_set;
    proof {
        assert(k0.spaces()[pid + 1] == Some(ms));
        assert(k1.spaces() =~= k0.spaces().update(pid + 1, None));
        lemma_spaces_step(k0.spaces(), a0, k1.spaces(), a0, pid + 1);
        assert(k0.spaces()[0] == Some(k0.kernel_space));
        assert forall|q: int| #[trigger] k1.has_process(q) implies {
            let c = k1.process(q);
            &&& c.pid.0 == q
            &&& k1.pid_allocator.in_use(q as usize)
            &&& c.task_res_allocator.wf()
            &&& !c.is_zombie ==> c.memory_set.complete(k1.frame_allocator@)
        } by {
            assert(k0.has_process(q));
            assert(k0.spaces()[q + 1] == Some(k0.process(q).memory_set));
        }
        assert(k1.wf());
    }
    let ProcessControlBlock { memory_set, fd_table, tasks, exit_code, .. } = p;
    memory_set.release(&mut kernel.frame_allocator);
    let ghost k2 = *kernel;
    proof {
        assert forall|i: int, f: u64|
            0 <= i < k1.spaces().len() && k1.spaces()[i].is_some() && #[trigger] k1.spaces()[i].unwrap().owns(
                f,
            ) implies k2.frame_allocator@.in_use(f) by {
            lemma_owns_in_use(k1.spaces()[i].unwrap(), a0, f);
            assert(i != pid + 1);
            assert(k0.spaces()[i] == k1.spaces()[i]);
            if i < pid + 1 {
                assert(!(k0.spaces()[i].unwrap().owns(f) && k0.spaces()[pid + 1].unwrap().owns(f)));
            } else {
                assert(!(k0.spaces()[pid + 1].unwrap().owns(f) && k0.spaces()[i].unwrap().owns(f)));
            }
        }
        lemma_kernel_other_allocator(k1, k2);
        assert(k0.pid_allocator.in_use(pid));
    }
    kernel.pid_allocator.dealloc(pid);
    proof {
        assert(kernel.spaces() == k2.spaces());
        assert forall|q: int| #[trigger] kernel.has_process(q) implies {
            let c = kernel.process(q);
            &&& c.pid.0 == q
            &&& kernel.pid_allocator.in_use(q as usize)
            &&& c.task_res_allocator.wf()
            &&& !c.is_zombie ==> c.memory_set.complete(kernel.frame_allocator@)
        } by {
            assert(k2.has_process(q));
            assert(q != pid);
        }
        assert(kernel.wf());
    }
    let ghost k3 = *kernel;
    free_threads(kernel, &tasks, pid);
    proof {
        assert forall|g: int| thread_of(k3, tasks@, pid as int, g) == thread_of(
            k0,
            tasks@,
            pid as int,
            g,
        ) by {}
    }
    close_files(kernel, &fd_table);
    exit_code
}

} // verus!
