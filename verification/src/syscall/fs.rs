//! System calls on files.
use vstd::prelude::*;
use crate::fs::inode::{FileKind, OpenFile};
use crate::fs::pipe::{Pipe, PipeRingBuffer};
use crate::kernel::{lemma_same_memory, same_memory, Kernel};
use crate::syscall::process::{as_result, to_result};
use crate::syscall::user_memory::{read_user, same_but_memory, write_user};
use crate::task::process::{first_free, free_slot, ProcessControlBlock};
use crate::easy_fs::block_cache::BlockCacheManager;
use crate::easy_fs::block_dev::BlockDevice;
use crate::easy_fs::layout::{file_byte, fs_of, layout, transfer_len, INDIRECT2_BOUND};
use crate::task::sched::{
    current_process, lemma_process_changed, same_core, suspend_current_and_run_next, update_thread,
};
use crate::task::task::{Resume, TaskControlBlock, TaskStatus};

verus! {

/// Whether every ring of a pipe is in order.
pub open spec fn pipes_wf(k: Kernel) -> bool {
    forall|i: int|
        0 <= i < k.pipes@.len() && (#[trigger] k.pipes@[i]).is_some() ==> k.pipes@[i].unwrap().wf()
}

/// Whether process `p1` is `p0` but for its file descriptors.
pub open spec fn same_but_fds(p0: ProcessControlBlock, p1: ProcessControlBlock) -> bool {
    &&& same_core(p0, p1)
    &&& p1.registered == p0.registered
    &&& p1.parent == p0.parent
    &&& p1.children == p0.children
    &&& p1.exit_code == p0.exit_code
    &&& p1.signals == p0.signals
    &&& p1.signal_mask == p0.signal_mask
    &&& p1.handling_sig == p0.handling_sig
    &&& p1.signal_actions == p0.signal_actions
    &&& p1.killed == p0.killed
    &&& p1.frozen == p0.frozen
    &&& p1.trap_ctx_backup == p0.trap_ctx_backup
    &&& p1.tasks == p0.tasks
    &&& p1.mutex_list == p0.mutex_list
    &&& p1.semaphore_list == p0.semaphore_list
    &&& p1.condvar_list == p0.condvar_list
}

/// Whether `k1` is `k0` but for the file descriptors of process `pid`, the
/// open files and the pipes.
pub open spec fn files_step(k0: Kernel, k1: Kernel, pid: int) -> bool {
    &&& same_memory(k0, k1)
    &&& k1.has_process(pid)
    &&& same_but_fds(k0.process(pid), k1.process(pid))
    &&& forall|q: int|
        0 <= q < k0.processes@.len() && q != pid ==> #[trigger] k1.processes@[q] == k0.processes@[q]
    &&& k1.threads == k0.threads
    &&& k1.task_manager == k0.task_manager
    &&& k1.processor == k0.processor
    &&& k1.machine == k0.machine
    &&& k1.timers == k0.timers
    &&& k1.initproc == k0.initproc
    &&& k1.console_out == k0.console_out
    &&& k1.console_in == k0.console_in
}

/// The open file that file descriptor `fd` of process `p` stands for, if
/// the descriptor is in use and the file is open.
pub open spec fn file_of(k: Kernel, p: ProcessControlBlock, fd: int) -> Option<usize> {
    if 0 <= fd < p.fd_table@.len() && p.fd_table@[fd].is_some() && p.fd_table@[fd].unwrap()
        < k.files@.len() && k.files@[p.fd_table@[fd].unwrap() as int].is_some() {
        p.fd_table@[fd]
    } else {
        None
    }
}

/// The table of open files after one file descriptor of file `f` has gone:
/// the file has one descriptor less, and is closed with its last one.
pub open spec fn files_after_close(files: Seq<Option<OpenFile>>, f: int) -> Seq<Option<OpenFile>> {
    if 0 <= f < files.len() && files[f].is_some() {
        if files[f].unwrap().refs > 1 {
            files.update(
                f,
                Some(
                    OpenFile {
                        kind: files[f].unwrap().kind,
                        refs: (files[f].unwrap().refs - 1) as usize,
                    },
                ),
            )
        } else {
            files.update(f, None)
        }
    } else {
        files
    }
}

/// The ring whose write end is closed when one file descriptor of file `f`
/// goes: that of the pipe whose write end `f` is, with its last descriptor.
pub open spec fn closed_write_end(files: Seq<Option<OpenFile>>, f: int) -> Option<usize> {
    if 0 <= f < files.len() && files[f].is_some() && files[f].unwrap().refs <= 1 {
        match files[f].unwrap().kind {
            FileKind::PipeEnd(p) => if p.writable {
                Some(p.buffer)
            } else {
                None
            },
            _ => None,
        }
    } else {
        None
    }
}

/// The table of pipes after the write end of ring `b`, if `b` names one,
/// has been closed.
pub open spec fn pipes_after_close(pipes: Seq<Option<PipeRingBuffer>>, b: Option<usize>) -> Seq<
    Option<PipeRingBuffer>,
> {
    match b {
        Some(b) => if b < pipes.len() && pipes[b as int].is_some() {
            pipes.update(
                b as int,
                Some(PipeRingBuffer { write_end: Some(0usize), ..pipes[b as int].unwrap() }),
            )
        } else {
            pipes
        },
        None => pipes,
    }
}

/// One file descriptor of open file `f` goes; see `files_after_close` and
/// `pipes_after_close`.
pub fn close_file(kernel: &mut Kernel, f: usize)
    requires
        old(kernel).wf(),
        pipes_wf(*old(kernel)),
    ensures
        final(kernel).wf(),
        pipes_wf(*final(kernel)),
        final(kernel).files@ == files_after_close(old(kernel).files@, f as int),
        final(kernel).pipes@ == pipes_after_close(
            old(kernel).pipes@,
            closed_write_end(old(kernel).files@, f as int),
        ),
        final(kernel).processes == old(kernel).processes,
        final(kernel).threads == old(kernel).threads,
        final(kernel).task_manager == old(kernel).task_manager,
        final(kernel).processor == old(kernel).processor,
        final(kernel).machine == old(kernel).machine,
        final(kernel).timers == old(kernel).timers,
        final(kernel).initproc == old(kernel).initproc,
        final(kernel).console_out == old(kernel).console_out,
        final(kernel).console_in == old(kernel).console_in,
        same_memory(*old(kernel), *final(kernel)),
{
    let ghost k0 = *kernel;
    if f < kernel.files.len() {
        match kernel.files[f].take() {
            Some(file) => {
                if file.refs > 1 {
                    kernel.files.set(f, Some(OpenFile { kind: file.kind, refs: file.refs - 1 }));
                } else {
                    match file.kind {
                        FileKind::PipeEnd(p) => {
                            if p.writable && p.buffer < kernel.pipes.len() {
                                match kernel.pipes[p.buffer].take() {
                                    Some(ring) => {
                                        kernel.pipes.set(
                                            p.buffer,
                                            Some(PipeRingBuffer { write_end: Some(0), ..ring }),
                                        );
                                    },
                                    None => {},
                                }
                            }
                        },
                        _ => {},
                    }
                }
            },
            None => {},
        }
    }
    proof {
        assert(kernel.files@ =~= files_after_close(k0.files@, f as int));
        assert(kernel.pipes@ =~= pipes_after_close(k0.pipes@, closed_write_end(k0.files@, f as int)));
        assert(same_memory(k0, *kernel));
        lemma_same_memory(k0, *kernel);
    }
}

/// What `sys_close` does and gives: `k0` is the kernel before the call, `k1` after it, `r` what the call gives.
pub open spec fn close_done(
    k0: Kernel,
    k1: Kernel,
    fd: usize,
    r: i64,
) -> bool {
    &&& (k1.wf())
    &&& (pipes_wf(k1))
    &&& (({
            let p0 = k0.process(k0.current_pid());
            let p1 = k1.process(k0.current_pid());
            if fd < p0.fd_table@.len() && p0.fd_table@[fd as int].is_some() {
                let f = p0.fd_table@[fd as int].unwrap();
                &&& r == 0
                &&& files_step(k0, k1, k0.current_pid())
                &&& p1.fd_table@ == p0.fd_table@.update(fd as int, None)
                &&& k1.files@ == files_after_close(k0.files@, f as int)
                &&& k1.pipes@ == pipes_after_close(
                    k0.pipes@,
                    closed_write_end(k0.files@, f as int),
                )
            } else {
                r == -1 && k1 == k0
            }
        }))
}

/// The running thread closes file descriptor `fd` of its process. The call
/// gives 0, and -1, with nothing changed, where the descriptor is not in use.
pub fn sys_close(kernel: &mut Kernel, fd: usize) -> (r: i64)
    requires
        old(kernel).wf(),
        old(kernel).running(),
        pipes_wf(*old(kernel)),
    ensures
        close_done(*old(kernel), *final(kernel), fd, r),
{
    let ghost k0 = *kernel;
    let pid = current_process(kernel);
    if fd >= kernel.processes[pid].as_ref().unwrap().fd_table.len() {
        return -1;
    }
    if kernel.processes[pid].as_ref().unwrap().fd_table[fd].is_none() {
        return -1;
    }
    let mut p = kernel.processes[pid].take().unwrap();
    let f = p.fd_table[fd].take().unwrap();
    kernel.processes.set(pid, Some(p));
    proof {
        lemma_process_changed(k0, *kernel, pid as int);
        assert(kernel.process(pid as int).fd_table@ =~= k0.process(pid as int).fd_table@.update(
            fd as int,
            None,
        ));
    }
    close_file(kernel, f);
    0
}

/// What `sys_dup` does and gives: `k0` is the kernel before the call, `k1` after it, `r` what the call gives.
pub open spec fn dup_done(
    k0: Kernel,
    k1: Kernel,
    fd: usize,
    r: i64,
) -> bool {
    &&& (k1.wf())
    &&& (k1.pipes == k0.pipes)
    &&& (({
            let p0 = k0.process(k0.current_pid());
            let p1 = k1.process(k0.current_pid());
            let f = file_of(k0, p0, fd as int);
            if f.is_some() && k0.files@[f.unwrap() as int].unwrap().refs < usize::MAX {
                let new_fd = first_free(p0.fd_table@, p0.fd_table@.len() as int);
                let file = k0.files@[f.unwrap() as int].unwrap();
                &&& r == as_result(new_fd)
                &&& files_step(k0, k1, k0.current_pid())
                &&& p1.fd_table@ == (if new_fd < p0.fd_table@.len() {
                    p0.fd_table@
                } else {
                    p0.fd_table@.push(None)
                }).update(new_fd, f)
                &&& k1.files@ == k0.files@.update(
                    f.unwrap() as int,
                    Some(OpenFile { kind: file.kind, refs: (file.refs + 1) as usize }),
                )
            } else {
                r == -1 && k1 == k0
            }
        }))
}

/// The running thread asks for a second file descriptor for the file of
/// descriptor `fd` of its process. The call gives the new descriptor, the
/// lowest that is free; it gives -1, with nothing changed, where `fd` is not
/// in use or stands for no open file, or the file can have no more descriptors.
pub fn sys_dup(kernel: &mut Kernel, fd: usize) -> (r: i64)
    requires
        old(kernel).wf(),
        old(kernel).running(),
    ensures
        dup_done(*old(kernel), *final(kernel), fd, r),
{
    let ghost k0 = *kernel;
    let pid = current_process(kernel);
    if fd >= kernel.processes[pid].as_ref().unwrap().fd_table.len() {
        return -1;
    }
    let f = match kernel.processes[pid].as_ref().unwrap().fd_table[fd] {
        None => {
            return -1;
        },
        Some(f) => f,
    };
    if f >= kernel.files.len() {
        return -1;
    }
    match &kernel.files[f] {
        None => {
            return -1;
        },
        Some(file) => {
            if file.refs == usize::MAX {
                return -1;
            }
        },
    }
    let file = kernel.files[f].take().unwrap();
    kernel.files.set(f, Some(OpenFile { kind: file.kind, refs: file.refs + 1 }));
    proof {
        assert(same_memory(k0, *kernel));
        lemma_same_memory(k0, *kernel);
    }
    let ghost k1 = *kernel;
    let mut p = kernel.processes[pid].take().unwrap();
    let new_fd = p.alloc_fd();
    p.fd_table.set(new_fd, Some(f));
    kernel.processes.set(pid, Some(p));
    proof {
        lemma_process_changed(k1, *kernel, pid as int);
        assert(same_memory(k0, *kernel));
        let p0 = k0.process(pid as int);
        assert(file_of(k0, p0, fd as int) == Some(f));
        assert(kernel.files@ =~= k0.files@.update(
            f as int,
            Some(OpenFile { kind: k0.files@[f as int].unwrap().kind, refs: (file.refs + 1) as usize }),
        ));
        assert(files_step(k0, *kernel, pid as int));
    }
    to_result(new_fd)
}

/// A new pipe: an empty ring in the table of pipes and the two open files
/// that are its ends. Gives the places of the read end and of the write
/// end in the table of open files.
pub fn make_pipe(kernel: &mut Kernel) -> (r: (usize, usize))
    requires
        old(kernel).wf(),
        pipes_wf(*old(kernel)),
    ensures
        final(kernel).wf(),
        pipes_wf(*final(kernel)),
        same_memory(*old(kernel), *final(kernel)),
        final(kernel).processes == old(kernel).processes,
        final(kernel).threads == old(kernel).threads,
        final(kernel).task_manager == old(kernel).task_manager,
        final(kernel).processor == old(kernel).processor,
        final(kernel).machine == old(kernel).machine,
        final(kernel).timers == old(kernel).timers,
        final(kernel).initproc == old(kernel).initproc,
        final(kernel).console_out == old(kernel).console_out,
        final(kernel).console_in == old(kernel).console_in,
        ({
            let b = first_free(old(kernel).pipes@, old(kernel).pipes@.len() as int);
            let pipes = final(kernel).pipes@;
            let files0 = old(kernel).files@;
            let read_file = first_free(files0, files0.len() as int);
            let files1 = (if read_file < files0.len() {
                files0
            } else {
                files0.push(None)
            }).update(
                read_file,
                Some(
                    OpenFile {
                        kind: FileKind::PipeEnd(
                            Pipe { readable: true, writable: false, buffer: b as usize },
                        ),
                        refs: 1,
                    },
                ),
            );
            let write_file = first_free(files1, files1.len() as int);
            &&& r.0 == read_file
            &&& r.1 == write_file
            &&& r.0 != r.1
            &&& final(kernel).files@ == (if write_file < files1.len() {
                files1
            } else {
                files1.push(None)
            }).update(
                write_file,
                Some(
                    OpenFile {
                        kind: FileKind::PipeEnd(
                            Pipe { readable: false, writable: true, buffer: b as usize },
                        ),
                        refs: 1,
                    },
                ),
            )
            &&& pipes.len() == if b < old(kernel).pipes@.len() {
                old(kernel).pipes@.len()
            } else {
                old(kernel).pipes@.len() + 1
            }
            &&& forall|i: int|
                0 <= i < old(kernel).pipes@.len() && i != b ==> #[trigger] pipes[i] == old(kernel).pipes@[i]
            &&& pipes[b].is_some()
            &&& pipes[b].unwrap().contents() == Seq::<u8>::empty()
            &&& pipes[b].unwrap().write_end == Some(1usize)
        }),
{
    let ghost k0 = *kernel;
    let mut ring = PipeRingBuffer::new();
    ring.set_write_end();
    let b = free_slot(&mut kernel.pipes);
    kernel.pipes.set(b, Some(ring));
    let read_file = kernel.add_file(FileKind::PipeEnd(Pipe::read_end_with_buffer(b)));
    let ghost files1 = kernel.files@;
    let write_file = kernel.add_file(FileKind::PipeEnd(Pipe::write_end_with_buffer(b)));
    proof {
        crate::task::process::lemma_first_free(files1, files1.len() as int);
        assert(same_memory(k0, *kernel));
        lemma_same_memory(k0, *kernel);
    }
    (read_file, write_file)
}

/// What `sys_pipe` does and gives: `k0` is the kernel before the call, `k1` after it, `r` what the call gives.
pub open spec fn pipe_done(
    k0: Kernel,
    k1: Kernel,
    pipe: u64,
    r: i64,
) -> bool {
    &&& (k1.wf())
    &&& (pipes_wf(k1))
    &&& (({
            let pid = k0.current_pid();
            let p0 = k0.process(pid);
            let p1 = k1.process(pid);
            if p0.memory_set.user_range_ok(pipe, 16) {
                let read_fd = first_free(p0.fd_table@, p0.fd_table@.len() as int);
                let t1 = (if read_fd < p0.fd_table@.len() {
                    p0.fd_table@
                } else {
                    p0.fd_table@.push(None)
                });
                let read_file = first_free(k0.files@, k0.files@.len() as int);
                let t2 = t1.update(read_fd, Some(read_file as usize));
                let write_fd = first_free(t2, t2.len() as int);
                &&& r == 0
                &&& k1.has_process(pid)
                &&& p1.fd_table@.len() == if write_fd < t1.len() {
                    t1.len()
                } else {
                    t1.len() + 1
                }
                &&& read_fd != write_fd
                &&& file_of(k1, p1, read_fd).is_some()
                &&& file_of(k1, p1, write_fd).is_some()
                &&& forall|i: int|
                    0 <= i < p0.fd_table@.len() && i != read_fd && i != write_fd
                        ==> #[trigger] p1.fd_table@[i] == p0.fd_table@[i]
                &&& p1.memory_set.user_bytes(pipe, 8) == vstd::bytes::spec_u64_to_le_bytes(
                    read_fd as u64,
                )
                &&& p1.memory_set.user_bytes((pipe + 8) as u64, 8)
                    == vstd::bytes::spec_u64_to_le_bytes(write_fd as u64)
                &&& k1.threads == k0.threads
                &&& k1.task_manager == k0.task_manager
                &&& k1.processor == k0.processor
            } else {
                r == -1 && k1 == k0
            }
        }))
}

/// A new pipe for the process of the running thread; see `make_pipe`. The
/// two lowest free file descriptors of the process stand for its read end
/// and its write end, and are stored, as words of eight bytes, at address
/// `pipe` and behind it in the address space of the process. The call gives
/// 0, and -1, with nothing changed, where the program cannot reach those
/// sixteen bytes.
pub fn sys_pipe(kernel: &mut Kernel, pipe: u64) -> (r: i64)
    requires
        old(kernel).wf(),
        old(kernel).running(),
        pipes_wf(*old(kernel)),
    ensures
        pipe_done(*old(kernel), *final(kernel), pipe, r),
{
    let ghost k0 = *kernel;
    let pid = current_process(kernel);
    if read_user(kernel, pid, pipe, 16).is_none() {
        return -1;
    }
    let (read_file, write_file) = make_pipe(kernel);
    let ghost k1 = *kernel;
    let mut p = kernel.processes[pid].take().unwrap();
    let read_fd = p.alloc_fd();
    p.fd_table.set(read_fd, Some(read_file));
    let ghost t2 = p.fd_table@;
    let write_fd = p.alloc_fd();
    p.fd_table.set(write_fd, Some(write_file));
    kernel.processes.set(pid, Some(p));
    proof {
        lemma_process_changed(k1, *kernel, pid as int);
        crate::task::process::lemma_first_free(t2, t2.len() as int);
    }
    let ghost k2 = *kernel;
    let first = vstd::bytes::u64_to_le_bytes(read_fd as u64);
    let second = vstd::bytes::u64_to_le_bytes(write_fd as u64);
    proof {
        vstd::bytes::lemma_auto_spec_u64_to_from_le_bytes();
        assert(k2.process(pid as int).memory_set == k0.process(pid as int).memory_set);
        assert forall|i: int| 0 <= i < 8 implies (#[trigger] k0.process(
            pid as int,
        ).memory_set.user_byte((pipe + i) as u64)).is_some() by {}
        assert(pipe + 16 <= crate::mm::user_buffer::USER_LIMIT);
    }
    let done1 = write_user(kernel, pid, pipe, first.as_slice());
    let ghost k3 = *kernel;
    proof {
        assert(done1);
        assert forall|i: int| 0 <= i < 8 implies (#[trigger] k3.process(
            pid as int,
        ).memory_set.user_byte((pipe + 8 + i) as u64)).is_some() by {
            assert(k0.process(pid as int).memory_set.user_byte((pipe + (8 + i)) as u64).is_some());
        }
    }
    let done2 = write_user(kernel, pid, pipe + 8, second.as_slice());
    proof {
        assert(done2);
        let m3 = k3.process(pid as int).memory_set;
        let m4 = kernel.process(pid as int).memory_set;
        assert(m4.user_bytes(pipe, 8) =~= m3.user_bytes(pipe, 8));
        assert(kernel.process(pid as int).fd_table == k2.process(pid as int).fd_table);
        assert(kernel.files == k2.files);
        assert(same_memory(k0, k2));
    }
    0
}

/// Whether `k1` is `k0` but for the processes, the open files, the pipes,
/// the console, the threads, the ready queue and the running thread.
pub open spec fn transfer_frame(k0: Kernel, k1: Kernel) -> bool {
    &&& k1.frame_allocator == k0.frame_allocator
    &&& k1.kernel_space == k0.kernel_space
    &&& k1.pid_allocator == k0.pid_allocator
    &&& k1.kstack_allocator == k0.kstack_allocator
    &&& k1.machine == k0.machine
    &&& k1.timers == k0.timers
    &&& k1.initproc == k0.initproc
    &&& k1.threads@.len() == k0.threads@.len()
    &&& forall|g: int|
        0 <= g < k0.threads@.len() && g != k0.current() ==> #[trigger] k1.threads@[g]
            == k0.threads@[g]
    &&& k1.has_thread(k0.current())
}

/// Whether the thread that ran in `k0` goes on in `k1`, with no transfer
/// under way.
pub open spec fn goes_on(k0: Kernel, k1: Kernel) -> bool {
    &&& k1.thread(k0.current()) == (TaskControlBlock { progress: 0, ..k0.thread(k0.current()) })
    &&& k1.processor == k0.processor
    &&& k1.task_manager == k0.task_manager
}

/// Whether the thread that ran in `k0` has given up the processor in `k1`,
/// to make its system call again when it runs next, with `progress` bytes of
/// its transfer done.
pub open spec fn tries_again(k0: Kernel, k1: Kernel, progress: u64) -> bool {
    &&& k1.thread(k0.current()) == (TaskControlBlock {
        task_status: TaskStatus::Ready,
        resume: Resume::Again,
        progress,
        ..k0.thread(k0.current())
    })
    &&& k1.processor.current.is_none()
    &&& k1.task_manager.ready_queue@ == k0.task_manager.ready_queue@.push(k0.current() as usize)
}

/// The running thread goes on, with no transfer under way.
fn finish_transfer(kernel: &mut Kernel)
    requires
        old(kernel).wf(),
        old(kernel).running(),
    ensures
        final(kernel).wf(),
        transfer_frame(*old(kernel), *final(kernel)),
        goes_on(*old(kernel), *final(kernel)),
        final(kernel).processes == old(kernel).processes,
        final(kernel).files == old(kernel).files,
        final(kernel).pipes == old(kernel).pipes,
        final(kernel).console_out == old(kernel).console_out,
        final(kernel).console_in == old(kernel).console_in,
{
    let h = kernel.processor.current().unwrap();
    let mut t = kernel.threads[h].unwrap();
    t.progress = 0;
    update_thread(kernel, h, t);
}

/// The running thread gives up the processor, to make its system call
/// again when it runs next, with `progress` bytes of its transfer done.
fn retry_transfer(kernel: &mut Kernel, progress: u64)
    requires
        old(kernel).wf(),
        old(kernel).running(),
    ensures
        final(kernel).wf(),
        transfer_frame(*old(kernel), *final(kernel)),
        tries_again(*old(kernel), *final(kernel), progress),
        final(kernel).processes == old(kernel).processes,
        final(kernel).files == old(kernel).files,
        final(kernel).pipes == old(kernel).pipes,
        final(kernel).console_out == old(kernel).console_out,
        final(kernel).console_in == old(kernel).console_in,
{
    let ghost k0 = *kernel;
    let h = kernel.processor.current().unwrap();
    let mut t = kernel.threads[h].unwrap();
    t.progress = progress;
    update_thread(kernel, h, t);
    suspend_current_and_run_next(kernel, Resume::Again);
    proof {
        assert(same_memory(k0, *kernel));
    }
}

/// The lesser of two numbers.
pub open spec fn least(a: int, b: int) -> int {
    if a < b {
        a
    } else {
        b
    }
}

/// Whether `k1` is `k0` after the running thread has gone on with writing
/// `data` to the pipe with ring `b`, and `r` is what the call gives. With
/// no room in the ring the thread tries again later. Else as many of the
/// bytes that are still to be written as there is room for go into the
/// ring; the call gives the number of all bytes when they are all written,
/// and else the thread tries again later.
pub open spec fn wrote_pipe(k0: Kernel, k1: Kernel, b: int, data: Seq<u8>, r: i64) -> bool {
    let ring0 = k0.pipes@[b].unwrap();
    let ring1 = k1.pipes@[b].unwrap();
    let before = least(k0.thread(k0.current()).progress as int, data.len() as int);
    let n = least(32 - ring0.count(), data.len() - before);
    &&& transfer_frame(k0, k1)
    &&& k1.processes == k0.processes
    &&& k1.files == k0.files
    &&& k1.console_out == k0.console_out
    &&& k1.console_in == k0.console_in
    &&& k1.pipes@.len() == k0.pipes@.len()
    &&& forall|i: int| 0 <= i < k0.pipes@.len() && i != b ==> #[trigger] k1.pipes@[i] == k0.pipes@[i]
    &&& k1.pipes@[b].is_some()
    &&& ring1.write_end == ring0.write_end
    &&& if ring0.count() == 32 {
        &&& ring1.contents() == ring0.contents()
        &&& tries_again(k0, k1, before as u64)
    } else {
        &&& ring1.contents() == ring0.contents() + data.subrange(before, before + n)
        &&& if before + n == data.len() {
            r == data.len() && goes_on(k0, k1)
        } else {
            tries_again(k0, k1, (before + n) as u64)
        }
    }
}

/// Whether the processes of `k1` are those of `k0` but for what the frames
/// of process `pid` hold.
pub open spec fn stored_to(k0: Kernel, k1: Kernel, pid: int) -> bool {
    &&& k1.processes@.len() == k0.processes@.len()
    &&& forall|q: int|
        0 <= q < k0.processes@.len() && q != pid ==> #[trigger] k1.processes@[q] == k0.processes@[q]
    &&& k1.has_process(pid)
    &&& same_but_memory(k0.process(pid), k1.process(pid))
    &&& k1.process(pid).memory_set.same_frames(&k0.process(pid).memory_set)
}

/// Whether `k1` is `k0` after the running thread has gone on with reading
/// `len` bytes to address `buf` from the pipe with ring `b`, and `r` is what
/// the call gives. As many of the bytes that are still to be read as the
/// ring holds go to the program. The call gives `len` when all are read,
/// and the number of bytes read so far when the ring is empty and the write
/// end of the pipe is closed; else the thread tries again later.
pub open spec fn read_pipe(k0: Kernel, k1: Kernel, b: int, buf: u64, len: int, r: i64) -> bool {
    let pid = k0.current_pid();
    let ring0 = k0.pipes@[b].unwrap();
    let ring1 = k1.pipes@[b].unwrap();
    let before = least(k0.thread(k0.current()).progress as int, len);
    let n = least(ring0.count(), len - before);
    let closed = ring0.write_end == Some(0usize);
    &&& transfer_frame(k0, k1)
    &&& stored_to(k0, k1, pid)
    &&& k1.files == k0.files
    &&& k1.console_out == k0.console_out
    &&& k1.console_in == k0.console_in
    &&& k1.pipes@.len() == k0.pipes@.len()
    &&& forall|i: int| 0 <= i < k0.pipes@.len() && i != b ==> #[trigger] k1.pipes@[i] == k0.pipes@[i]
    &&& k1.pipes@[b].is_some()
    &&& ring1.write_end == ring0.write_end
    &&& ring1.contents() == ring0.contents().skip(n)
    &&& k1.process(pid).memory_set.user_bytes((buf + before) as u64, n) == ring0.contents().take(n)
    &&& forall|va: u64|
        !(buf + before <= va < buf + before + n) ==> #[trigger] k1.process(pid).memory_set.user_byte(
            va,
        ) == k0.process(pid).memory_set.user_byte(va)
    &&& if ring0.count() > 0 && before + n == len {
        r == len && goes_on(k0, k1)
    } else if closed {
        r == before + n && goes_on(k0, k1)
    } else {
        tries_again(k0, k1, (before + n) as u64)
    }
}

/// The running thread goes on with writing `data` to the pipe with ring
/// `b`; see `wrote_pipe`. What the call gives counts only where the thread
/// goes on.
pub fn write_to_pipe(kernel: &mut Kernel, b: usize, data: &[u8]) -> (r: i64)
    requires
        old(kernel).wf(),
        old(kernel).running(),
        pipes_wf(*old(kernel)),
        b < old(kernel).pipes@.len(),
        old(kernel).pipes@[b as int].is_some(),
        data@.len() <= i64::MAX,
    ensures
        final(kernel).wf(),
        pipes_wf(*final(kernel)),
        wrote_pipe(*old(kernel), *final(kernel), b as int, data@, r),
{
    let ghost k0 = *kernel;
    let h = kernel.processor.current().unwrap();
    let progress = kernel.threads[h].unwrap().progress;
    let len: usize = data.len();
    let before: usize = if progress < len as u64 {
        progress as usize
    } else {
        len
    };
    let mut ring = kernel.pipes[b].take().unwrap();
    let ghost ring0 = ring;
    assert(ring0 == k0.pipes@[b as int].unwrap());
    assert(ring0.wf());
    let room = ring.available_write();
    if room == 0 {
        kernel.pipes.set(b, Some(ring));
        proof {
            assert(same_memory(k0, *kernel));
            lemma_same_memory(k0, *kernel);
        }
        retry_transfer(kernel, before as u64);
        return 0;
    }
    let rest = vstd::slice::slice_subrange(data, before, len);
    let n = ring.write_up_to(rest);
    kernel.pipes.set(b, Some(ring));
    proof {
        assert(same_memory(k0, *kernel));
        lemma_same_memory(k0, *kernel);
        assert(rest@.take(n as int) =~= data@.subrange(before as int, before + n));
    }
    if before + n == len {
        finish_transfer(kernel);
        len as i64
    } else {
        retry_transfer(kernel, (before + n) as u64);
        0
    }
}

/// The running thread goes on with reading `len` bytes to address `buf`
/// from the pipe with ring `b`; see `read_pipe`. What the call gives counts
/// only where the thread goes on.
pub fn read_from_pipe(kernel: &mut Kernel, b: usize, buf: u64, len: usize) -> (r: i64)
    requires
        old(kernel).wf(),
        old(kernel).running(),
        pipes_wf(*old(kernel)),
        b < old(kernel).pipes@.len(),
        old(kernel).pipes@[b as int].is_some(),
        len <= i64::MAX,
        old(kernel).process(old(kernel).current_pid()).memory_set.user_range_ok(buf, len as int),
    ensures
        final(kernel).wf(),
        pipes_wf(*final(kernel)),
        read_pipe(*old(kernel), *final(kernel), b as int, buf, len as int, r),
{
    let ghost k0 = *kernel;
    let pid = current_process(kernel);
    let h = kernel.processor.current().unwrap();
    let progress = kernel.threads[h].unwrap().progress;
    let before: usize = if progress < len as u64 {
        progress as usize
    } else {
        len
    };
    let mut ring = kernel.pipes[b].take().unwrap();
    let ghost ring0 = ring;
    assert(ring0 == k0.pipes@[b as int].unwrap());
    assert(ring0.wf());
    let avail = ring.available_read();
    let closed = match ring.write_end {
        Some(n) => n == 0,
        None => false,
    };
    let v = ring.read_up_to(len - before);
    let n: usize = v.len();
    kernel.pipes.set(b, Some(ring));
    proof {
        assert(same_memory(k0, *kernel));
        lemma_same_memory(k0, *kernel);
        assert(kernel.process(pid as int) == k0.process(pid as int));
        assert forall|i: int| 0 <= i < n implies (#[trigger] k0.process(
            pid as int,
        ).memory_set.user_byte((buf + before + i) as u64)).is_some() by {
            assert(k0.process(pid as int).memory_set.user_byte((buf + (before + i)) as u64).is_some());
        }
    }
    let ghost k1 = *kernel;
    let done = write_user(kernel, pid, buf + before as u64, v.as_slice());
    proof {
        assert(done);
    }
    let ghost k2 = *kernel;
    if avail > 0 && before + n == len {
        finish_transfer(kernel);
        len as i64
    } else if closed {
        finish_transfer(kernel);
        (before + n) as i64
    } else {
        retry_transfer(kernel, (before + n) as u64);
        0
    }
}

/// Whether only the console, the open files or the pipes differ between
/// `k0` and `k1`.
pub open spec fn only_files_differ(k0: Kernel, k1: Kernel) -> bool {
    &&& transfer_frame(k0, k1)
    &&& k1.processes == k0.processes
    &&& k1.threads == k0.threads
    &&& k1.processor == k0.processor
    &&& k1.task_manager == k0.task_manager
}

/// Whether `k1` is `k0` after `data` has been written to the file on the
/// disk that is open file `f`, and `r` is what the call gives: the bytes
/// that lie before the end of the file are in the file, at the place at
/// which the open file stood, and the open file stands behind them.
pub open spec fn wrote_inode<D: BlockDevice>(
    k0: Kernel,
    k1: Kernel,
    f: int,
    data: Seq<u8>,
    r: i64,
    c0: &BlockCacheManager,
    d0: &D,
    c1: &BlockCacheManager,
    d1: &D,
) -> bool {
    let file0 = k0.files@[f].unwrap();
    let file1 = k1.files@[f].unwrap();
    &&& only_files_differ(k0, k1)
    &&& k1.pipes == k0.pipes
    &&& k1.console_out == k0.console_out
    &&& k1.console_in == k0.console_in
    &&& k1.files@.len() == k0.files@.len()
    &&& forall|i: int| 0 <= i < k0.files@.len() && i != f ==> #[trigger] k1.files@[i] == k0.files@[i]
    &&& k1.files@[f].is_some()
    &&& file1.refs == file0.refs
    &&& file0.kind is Inode
    &&& file1.kind is Inode
    &&& ({
        let i0 = file0.kind->Inode_0;
        let i1 = file1.kind->Inode_0;
        &&& i1.readable == i0.readable
        &&& i1.writable == i0.writable
        &&& i1.inode.map() == i0.inode.map()
        &&& i1.inode.size == i0.inode.size
        &&& r == transfer_len(i0.offset as int, data.len() as int, i0.inode.size as int)
        &&& i1.offset == i0.offset + r
        &&& layout(i0.inode.map(), fs_of(c0, d0), i0.inode.nblocks()).no_duplicates() ==> {
            &&& layout(i0.inode.map(), fs_of(c1, d1), i0.inode.nblocks()) == layout(
                i0.inode.map(),
                fs_of(c0, d0),
                i0.inode.nblocks(),
            )
            &&& forall|k: int|
                0 <= k < i0.inode.size ==> #[trigger] file_byte(i0.inode.map(), fs_of(c1, d1), k)
                    == if i0.offset <= k < i0.offset + r {
                    data[k - i0.offset]
                } else {
                    file_byte(i0.inode.map(), fs_of(c0, d0), k)
                }
        }
    })
}

/// Writes `data` to the file on the disk that is open file `f`; see
/// `wrote_inode`.
pub fn write_to_inode<D: BlockDevice>(
    kernel: &mut Kernel,
    f: usize,
    data: &[u8],
    cache: &mut BlockCacheManager,
    block_device: &mut D,
) -> (r: i64)
    requires
        old(kernel).wf(),
        old(kernel).running(),
        old(cache).wf(old(block_device)),
        f < old(kernel).files@.len(),
        old(kernel).files@[f as int].is_some(),
        old(kernel).files@[f as int].unwrap().kind is Inode,
        old(kernel).files@[f as int].unwrap().kind->Inode_0.inode.nblocks() <= INDIRECT2_BOUND,
        old(kernel).files@[f as int].unwrap().kind->Inode_0.offset + data@.len() <= usize::MAX,
        data@.len() <= i64::MAX,
    ensures
        final(kernel).wf(),
        final(cache).wf(final(block_device)),
        wrote_inode(
            *old(kernel),
            *final(kernel),
            f as int,
            data@,
            r,
            old(cache),
            old(block_device),
            final(cache),
            final(block_device),
        ),
{
    let ghost k0 = *kernel;
    let file = kernel.files[f].take().unwrap();
    let refs = file.refs;
    match file.kind {
        FileKind::Inode(mut os) => {
            let ghost i0 = os;
            let n = os.write(data, cache, block_device);
            kernel.files.set(f, Some(OpenFile { kind: FileKind::Inode(os), refs }));
            proof {
                assert(same_memory(k0, *kernel));
                lemma_same_memory(k0, *kernel);
                assert(k0.files@[f as int].unwrap().kind->Inode_0 == i0);
                assert(kernel.files@[f as int].unwrap().kind->Inode_0 == os);
                assert(only_files_differ(k0, *kernel));
                assert(n == transfer_len(i0.offset as int, data@.len() as int, i0.inode.size as int));
                assert(os.offset == i0.offset + n);
                assert(os.inode.size == i0.inode.size);
            }
            n as i64
        },
        other => {
            kernel.files.set(f, Some(OpenFile { kind: other, refs }));
            proof {
                assert(false);
            }
            0
        },
    }
}

/// Whether `k1` is `k0` after `len` bytes have been read to address `buf`
/// from the file on the disk that is open file `f`, and `r` is what the call
/// gives: the bytes of the file from the place at which the open file stood
/// up to the end of the file are in the memory of the program, and the open
/// file stands behind them.
pub open spec fn read_inode<D: BlockDevice>(
    k0: Kernel,
    k1: Kernel,
    f: int,
    buf: u64,
    len: int,
    r: i64,
    c0: &BlockCacheManager,
    d0: &D,
) -> bool {
    let pid = k0.current_pid();
    let file0 = k0.files@[f].unwrap();
    let file1 = k1.files@[f].unwrap();
    &&& transfer_frame(k0, k1)
    &&& stored_to(k0, k1, pid)
    &&& k1.threads == k0.threads
    &&& k1.processor == k0.processor
    &&& k1.task_manager == k0.task_manager
    &&& k1.pipes == k0.pipes
    &&& k1.console_out == k0.console_out
    &&& k1.console_in == k0.console_in
    &&& k1.files@.len() == k0.files@.len()
    &&& forall|i: int| 0 <= i < k0.files@.len() && i != f ==> #[trigger] k1.files@[i] == k0.files@[i]
    &&& k1.files@[f].is_some()
    &&& file1.refs == file0.refs
    &&& file0.kind is Inode
    &&& file1.kind is Inode
    &&& ({
        let i0 = file0.kind->Inode_0;
        let i1 = file1.kind->Inode_0;
        &&& i1.readable == i0.readable
        &&& i1.writable == i0.writable
        &&& i1.inode == i0.inode
        &&& r == transfer_len(i0.offset as int, len, i0.inode.size as int)
        &&& i1.offset == i0.offset + r
        &&& forall|t: int|
            0 <= t < r ==> #[trigger] k1.process(pid).memory_set.user_byte((buf + t) as u64) == Some(
                file_byte(i0.inode.map(), fs_of(c0, d0), i0.offset + t),
            )
        &&& forall|va: u64|
            !(buf <= va < buf + r) ==> #[trigger] k1.process(pid).memory_set.user_byte(va)
                == k0.process(pid).memory_set.user_byte(va)
    })
}

/// Reads `len` bytes to address `buf` from the file on the disk that is
/// open file `f`; see `read_inode`.
pub fn read_from_inode<D: BlockDevice>(
    kernel: &mut Kernel,
    f: usize,
    buf: u64,
    len: usize,
    cache: &mut BlockCacheManager,
    block_device: &mut D,
) -> (r: i64)
    requires
        old(kernel).wf(),
        old(kernel).running(),
        old(cache).wf(old(block_device)),
        f < old(kernel).files@.len(),
        old(kernel).files@[f as int].is_some(),
        old(kernel).files@[f as int].unwrap().kind is Inode,
        old(kernel).files@[f as int].unwrap().kind->Inode_0.inode.nblocks() <= INDIRECT2_BOUND,
        old(kernel).files@[f as int].unwrap().kind->Inode_0.offset + len <= usize::MAX,
        len <= i64::MAX,
        old(kernel).process(old(kernel).current_pid()).memory_set.user_range_ok(buf, len as int),
    ensures
        final(kernel).wf(),
        final(cache).wf(final(block_device)),
        read_inode(*old(kernel), *final(kernel), f as int, buf, len as int, r, old(cache), old(block_device)),
{
    let ghost k0 = *kernel;
    let pid = current_process(kernel);
    let file = kernel.files[f].take().unwrap();
    let refs = file.refs;
    match file.kind {
        FileKind::Inode(mut os) => {
            let ghost i0 = os;
            let data = os.read(len, cache, block_device);
            kernel.files.set(f, Some(OpenFile { kind: FileKind::Inode(os), refs }));
            proof {
                assert(same_memory(k0, *kernel));
                lemma_same_memory(k0, *kernel);
                assert(kernel.process(pid as int) == k0.process(pid as int));
                assert forall|i: int| 0 <= i < data@.len() implies (#[trigger] k0.process(
                    pid as int,
                ).memory_set.user_byte((buf + i) as u64)).is_some() by {}
            }
            let ghost k1 = *kernel;
            let done = write_user(kernel, pid, buf, data.as_slice());
            proof {
                assert(done);
                let m = kernel.process(pid as int).memory_set;
                assert forall|t: int| 0 <= t < data@.len() implies #[trigger] m.user_byte(
                    (buf + t) as u64,
                ) == Some(file_byte(i0.inode.map(), fs_of(old(cache), old(block_device)), i0.offset + t)) by {
                    assert(m.user_bytes(buf, data@.len() as int)[t] == data@[t]);
                }
            }
            data.len() as i64
        },
        other => {
            kernel.files.set(f, Some(OpenFile { kind: other, refs }));
            proof {
                assert(false);
            }
            0
        },
    }
}

/// Where a transfer goes to or comes from: the console, the ring of a
/// pipe, or a file on the disk.
#[derive(Copy, Clone, PartialEq, Eq, Structural, Debug)]
pub enum Target {
    Console,
    Ring(usize),
    Disk,
}

/// Where a write of `len` bytes from address `buf` to file descriptor `fd`
/// by the running thread goes; `None` where the descriptor stands for no
/// open file that can be written, the program cannot reach the bytes, or
/// the bytes are too many.
pub open spec fn write_target(k: Kernel, fd: int, buf: u64, len: int) -> Option<Target> {
    let p = k.process(k.current_pid());
    let f = file_of(k, p, fd);
    if f.is_some() && len <= i64::MAX && p.memory_set.user_range_ok(buf, len) {
        match k.files@[f.unwrap() as int].unwrap().kind {
            FileKind::Stdin => None,
            FileKind::Stdout => Some(Target::Console),
            FileKind::PipeEnd(e) => if e.writable && e.buffer < k.pipes@.len()
                && k.pipes@[e.buffer as int].is_some() {
                Some(Target::Ring(e.buffer))
            } else {
                None
            },
            FileKind::Inode(i) => if i.writable && i.inode.nblocks() <= INDIRECT2_BOUND && i.offset
                + len <= usize::MAX {
                Some(Target::Disk)
            } else {
                None
            },
        }
    } else {
        None
    }
}

/// Where a read of `len` bytes to address `buf` from file descriptor `fd`
/// by the running thread comes from; `None` where the descriptor stands for
/// no open file that can be read, the program cannot reach the bytes, the
/// bytes are too many, or more or less than one byte is asked of the console.
pub open spec fn read_target(k: Kernel, fd: int, buf: u64, len: int) -> Option<Target> {
    let p = k.process(k.current_pid());
    let f = file_of(k, p, fd);
    if f.is_some() && len <= i64::MAX && p.memory_set.user_range_ok(buf, len) {
        match k.files@[f.unwrap() as int].unwrap().kind {
            FileKind::Stdin => if len == 1 {
                Some(Target::Console)
            } else {
                None
            },
            FileKind::Stdout => None,
            FileKind::PipeEnd(e) => if e.readable && e.buffer < k.pipes@.len()
                && k.pipes@[e.buffer as int].is_some() {
                Some(Target::Ring(e.buffer))
            } else {
                None
            },
            FileKind::Inode(i) => if i.readable && i.inode.nblocks() <= INDIRECT2_BOUND && i.offset
                + len <= usize::MAX {
                Some(Target::Disk)
            } else {
                None
            },
        }
    } else {
        None
    }
}

/// The open file of file descriptor `fd` of the process of the running
/// thread; see `file_of`.
pub fn file_of_current(kernel: &Kernel, fd: usize) -> (r: Option<usize>)
    requires
        kernel.running(),
    ensures
        r == file_of(*kernel, kernel.process(kernel.current_pid()), fd as int),
{
    let pid = current_process(kernel);
    if fd >= kernel.processes[pid].as_ref().unwrap().fd_table.len() {
        return None;
    }
    match kernel.processes[pid].as_ref().unwrap().fd_table[fd] {
        None => None,
        Some(f) => if f < kernel.files.len() && kernel.files[f].is_some() {
            Some(f)
        } else {
            None
        },
    }
}

/// Where a transfer with open file `f` goes to or comes from when the file
/// is written (`write`) or read.
fn target_of(kernel: &Kernel, f: usize, len: usize, write: bool) -> (r: Option<Target>)
    requires
        f < kernel.files@.len(),
        kernel.files@[f as int].is_some(),
    ensures
        r == match kernel.files@[f as int].unwrap().kind {
            FileKind::Stdin => if !write && len == 1 {
                Some(Target::Console)
            } else {
                None
            },
            FileKind::Stdout => if write {
                Some(Target::Console)
            } else {
                None
            },
            FileKind::PipeEnd(e) => if (if write {
                e.writable
            } else {
                e.readable
            }) && e.buffer < kernel.pipes@.len() && kernel.pipes@[e.buffer as int].is_some() {
                Some(Target::Ring(e.buffer))
            } else {
                None
            },
            FileKind::Inode(i) => if (if write {
                i.writable
            } else {
                i.readable
            }) && i.inode.nblocks() <= INDIRECT2_BOUND && i.offset + len <= usize::MAX {
                Some(Target::Disk)
            } else {
                None
            },
        },
{
    match &kernel.files[f] {
        None => None,
        Some(file) => match &file.kind {
            FileKind::Stdin => if !write && len == 1 {
                Some(Target::Console)
            } else {
                None
            },
            FileKind::Stdout => if write {
                Some(Target::Console)
            } else {
                None
            },
            FileKind::PipeEnd(e) => {
                let allowed = if write {
                    e.writable
                } else {
                    e.readable
                };
                if allowed && e.buffer < kernel.pipes.len() && kernel.pipes[e.buffer].is_some() {
                    Some(Target::Ring(e.buffer))
                } else {
                    None
                }
            },
            FileKind::Inode(i) => {
                let allowed = if write {
                    i.writable
                } else {
                    i.readable
                };
                if allowed && i.inode.data_blocks() as usize <= INDIRECT2_BOUND && i.offset
                    <= usize::MAX - len {
                    Some(Target::Disk)
                } else {
                    None
                }
            },
        },
    }
}

/// What `sys_write` does and gives: `k0` is the kernel before the call, `k1` after it, `r` what the call gives.
pub open spec fn write_done<D: BlockDevice>(
    k0: Kernel,
    k1: Kernel,
    fd: usize,
    buf: u64,
    len: usize,
    c0: &BlockCacheManager,
    d0: &D,
    c1: &BlockCacheManager,
    d1: &D,
    r: i64,
) -> bool {
    &&& (k1.wf())
    &&& (pipes_wf(k1))
    &&& (c1.wf(d1))
    &&& (({
            let p0 = k0.process(k0.current_pid());
            let data = p0.memory_set.user_bytes(buf, len as int);
            match write_target(k0, fd as int, buf, len as int) {
                None => r == -1 && k1 == k0,
                Some(Target::Console) => {
                    &&& r == len
                    &&& only_files_differ(k0, k1)
                    &&& k1.console_out@ == k0.console_out@ + data
                    &&& k1.console_in == k0.console_in
                    &&& k1.files == k0.files
                    &&& k1.pipes == k0.pipes
                },
                Some(Target::Ring(b)) => wrote_pipe(k0, k1, b as int, data, r),
                Some(Target::Disk) => wrote_inode(
                    k0,
                    k1,
                    file_of(k0, p0, fd as int).unwrap() as int,
                    data,
                    r,
                    c0,
                    d0,
                    c1,
                    d1,
                ),
            }
        }))
    &&& (write_target(k0, fd as int, buf, len as int) != Some(Target::Disk) ==> *c1 == *c0 && *d1 == *d0)
}

/// The running thread writes the `len` bytes from address `buf` on to file
/// descriptor `fd` of its process. The call gives -1, with nothing changed,
/// where `write_target` finds nowhere to write. Bytes for the console are
/// put behind what the console is still to print, and the call gives their
/// number. For a pipe see `wrote_pipe`, for a file on the disk `wrote_inode`.
pub fn sys_write<D: BlockDevice>(
    kernel: &mut Kernel,
    fd: usize,
    buf: u64,
    len: usize,
    cache: &mut BlockCacheManager,
    block_device: &mut D,
) -> (r: i64)
    requires
        old(kernel).wf(),
        old(kernel).running(),
        pipes_wf(*old(kernel)),
        old(cache).wf(old(block_device)),
    ensures
        write_done(*old(kernel), *final(kernel), fd, buf, len, old(cache), old(block_device), final(cache), final(block_device), r),
{
    let ghost k0 = *kernel;
    let pid = current_process(kernel);
    let f = match file_of_current(kernel, fd) {
        None => {
            return -1;
        },
        Some(f) => f,
    };
    if len as u128 > i64::MAX as u128 {
        return -1;
    }
    let mut data = match read_user(kernel, pid, buf, len) {
        None => {
            return -1;
        },
        Some(d) => d,
    };
    match target_of(kernel, f, len, true) {
        None => -1,
        Some(Target::Console) => {
            kernel.console_out.append(&mut data);
            proof {
                assert(same_memory(k0, *kernel));
                lemma_same_memory(k0, *kernel);
            }
            len as i64
        },
        Some(Target::Ring(b)) => write_to_pipe(kernel, b, data.as_slice()),
        Some(Target::Disk) => write_to_inode(kernel, f, data.as_slice(), cache, block_device),
    }
}

/// Whether `k1` is `k0` after the running thread has asked for a byte from
/// the console, to be stored at address `buf`, and `r` is what the call
/// gives. Where nothing has been typed the thread tries again later. Else
/// the byte that was typed first goes to the program, and the call gives 1.
pub open spec fn read_console(k0: Kernel, k1: Kernel, buf: u64, r: i64) -> bool {
    let pid = k0.current_pid();
    &&& transfer_frame(k0, k1)
    &&& k1.files == k0.files
    &&& k1.pipes == k0.pipes
    &&& k1.console_out == k0.console_out
    &&& if k0.console_in@.len() == 0 {
        &&& k1.processes == k0.processes
        &&& k1.console_in == k0.console_in
        &&& tries_again(k0, k1, k0.thread(k0.current()).progress)
    } else {
        &&& r == 1
        &&& stored_to(k0, k1, pid)
        &&& k1.console_in@ == k0.console_in@.skip(1)
        &&& k1.process(pid).memory_set.user_byte(buf) == Some(k0.console_in@[0])
        &&& forall|va: u64|
            va != buf ==> #[trigger] k1.process(pid).memory_set.user_byte(va) == k0.process(
                pid,
            ).memory_set.user_byte(va)
        &&& k1.threads == k0.threads
        &&& k1.processor == k0.processor
        &&& k1.task_manager == k0.task_manager
    }
}

/// The running thread asks for a byte from the console; see `read_console`.
pub fn read_from_console(kernel: &mut Kernel, buf: u64) -> (r: i64)
    requires
        old(kernel).wf(),
        old(kernel).running(),
        old(kernel).process(old(kernel).current_pid()).memory_set.user_range_ok(buf, 1),
    ensures
        final(kernel).wf(),
        final(kernel).pipes == old(kernel).pipes,
        read_console(*old(kernel), *final(kernel), buf, r),
{
    let ghost k0 = *kernel;
    let pid = current_process(kernel);
    if kernel.console_in.len() == 0 {
        let h = kernel.processor.current().unwrap();
        let progress = kernel.threads[h].unwrap().progress;
        retry_transfer(kernel, progress);
        return 0;
    }
    let c = kernel.console_in.remove(0);
    proof {
        assert(kernel.console_in@ =~= k0.console_in@.skip(1));
        assert(same_memory(k0, *kernel));
        lemma_same_memory(k0, *kernel);
        assert(kernel.process(pid as int) == k0.process(pid as int));
        assert(k0.process(pid as int).memory_set.user_byte((buf + 0) as u64).is_some());
    }
    let one: [u8; 1] = [c];
    let done = write_user(kernel, pid, buf, one.as_slice());
    proof {
        assert(done);
        let m = kernel.process(pid as int).memory_set;
        assert(m.user_bytes(buf, 1)[0] == c);
    }
    1
}

/// What `sys_read` does and gives: `k0` is the kernel before the call, `k1` after it, `r` what the call gives.
pub open spec fn read_done<D: BlockDevice>(
    k0: Kernel,
    k1: Kernel,
    fd: usize,
    buf: u64,
    len: usize,
    c0: &BlockCacheManager,
    d0: &D,
    c1: &BlockCacheManager,
    d1: &D,
    r: i64,
) -> bool {
    &&& (k1.wf())
    &&& (pipes_wf(k1))
    &&& (c1.wf(d1))
    &&& (({
            let p0 = k0.process(k0.current_pid());
            match read_target(k0, fd as int, buf, len as int) {
                None => r == -1 && k1 == k0,
                Some(Target::Console) => read_console(k0, k1, buf, r),
                Some(Target::Ring(b)) => read_pipe(
                    k0,
                    k1,
                    b as int,
                    buf,
                    len as int,
                    r,
                ),
                Some(Target::Disk) => read_inode(
                    k0,
                    k1,
                    file_of(k0, p0, fd as int).unwrap() as int,
                    buf,
                    len as int,
                    r,
                    c0,
                    d0,
                ),
            }
        }))
    &&& (read_target(k0, fd as int, buf, len as int) != Some(Target::Disk) ==> *c1 == *c0 && *d1 == *d0)
}

/// The running thread reads `len` bytes to address `buf` on from file
/// descriptor `fd` of its process. The call gives -1, with nothing changed,
/// where `read_target` finds nothing to read from. For the console see
/// `read_console`, for a pipe `read_pipe`, for a file on the disk `read_inode`.
pub fn sys_read<D: BlockDevice>(
    kernel: &mut Kernel,
    fd: usize,
    buf: u64,
    len: usize,
    cache: &mut BlockCacheManager,
    block_device: &mut D,
) -> (r: i64)
    requires
        old(kernel).wf(),
        old(kernel).running(),
        pipes_wf(*old(kernel)),
        old(cache).wf(old(block_device)),
    ensures
        read_done(*old(kernel), *final(kernel), fd, buf, len, old(cache), old(block_device), final(cache), final(block_device), r),
{
    let pid = current_process(kernel);
    let f = match file_of_current(kernel, fd) {
        None => {
            return -1;
        },
        Some(f) => f,
    };
    if len as u128 > i64::MAX as u128 {
        return -1;
    }
    if read_user(kernel, pid, buf, len).is_none() {
        return -1;
    }
    match target_of(kernel, f, len, false) {
        None => -1,
        Some(Target::Console) => read_from_console(kernel, buf),
        Some(Target::Ring(b)) => read_from_pipe(kernel, b, buf, len),
        Some(Target::Disk) => read_from_inode(kernel, f, buf, len, cache, block_device),
    }
}

/// Whether `k1` is `k0` after the running thread has opened the file on the
/// disk `file`, and `r` is what the call gives: the lowest free file
/// descriptor of the process, which stands for the file, alone, at the
/// first free place of the table of open files.
pub open spec fn opened(k0: Kernel, k1: Kernel, file: crate::fs::inode::OSInode, r: i64) -> bool {
    let p0 = k0.process(k0.current_pid());
    let p1 = k1.process(k0.current_pid());
    let fd = first_free(p0.fd_table@, p0.fd_table@.len() as int);
    let f = first_free(k0.files@, k0.files@.len() as int);
    &&& r == as_result(fd)
    &&& files_step(k0, k1, k0.current_pid())
    &&& k1.pipes == k0.pipes
    &&& p1.fd_table@ == (if fd < p0.fd_table@.len() {
        p0.fd_table@
    } else {
        p0.fd_table@.push(None)
    }).update(fd, Some(f as usize))
    &&& k1.files@ == (if f < k0.files@.len() {
        k0.files@
    } else {
        k0.files@.push(None)
    }).update(f, Some(OpenFile { kind: FileKind::Inode(file), refs: 1 }))
}

/// The running thread opens a file on the disk: `file` is the open file
/// that the directory and the flags of the call gave, or `None` where there
/// is no file to open. The lowest free file descriptor of the process
/// stands for the file, and the call gives it; it gives -1, with nothing
/// changed, where there is no file.
pub fn sys_open(kernel: &mut Kernel, file: Option<crate::fs::inode::OSInode>) -> (r: i64)
    requires
        old(kernel).wf(),
        old(kernel).running(),
    ensures
        final(kernel).wf(),
        final(kernel).pipes == old(kernel).pipes,
        file.is_none() ==> r == -1 && *final(kernel) == *old(kernel),
        file.is_some() ==> opened(*old(kernel), *final(kernel), file.unwrap(), r),
{
    let ghost k0 = *kernel;
    let pid = current_process(kernel);
    let os = match file {
        None => {
            return -1;
        },
        Some(os) => os,
    };
    let f = kernel.add_file(FileKind::Inode(os));
    proof {
        assert(same_memory(k0, *kernel));
        lemma_same_memory(k0, *kernel);
        crate::task::process::lemma_first_free(k0.files@, k0.files@.len() as int);
    }
    let ghost k1 = *kernel;
    let mut p = kernel.processes[pid].take().unwrap();
    let fd = p.alloc_fd();
    p.fd_table.set(fd, Some(f));
    kernel.processes.set(pid, Some(p));
    proof {
        lemma_process_changed(k1, *kernel, pid as int);
        assert(same_memory(k0, *kernel));
    }
    to_result(fd)
}

/// Index of the entry with the name `name` in the directory of a file
/// system, which is inode 0, or -1.
pub open spec fn lookup<D: BlockDevice>(
    fs: &crate::easy_fs::efs::EasyFileSystem,
    cache: &BlockCacheManager,
    dev: &D,
    name: Seq<u8>,
) -> int {
    let root = cache.content(dev, fs.inode_area_start_block as usize);
    crate::easy_fs::vfs::named_from(
        crate::easy_fs::efs::disk_map(root, 0),
        fs_of(cache, dev),
        name,
        0,
        crate::easy_fs::block_cache::u32_at(root, 0) as int / 32,
    )
}

/// The open file that a call of `open_named` has put into the table of
/// open files.
pub open spec fn opened_file(k0: Kernel, k1: Kernel) -> crate::fs::inode::OSInode {
    k1.files@[first_free(k0.files@, k0.files@.len() as int)].unwrap().kind->Inode_0
}

/// What `open_named` does and gives, by what the directory holds and what
/// the flags ask. `k0`, `c0`, `d0` are the kernel and the disk before the
/// call, `k1`, `c1`, `d1` after it. A process whose table of file
/// descriptors is too long for a new descriptor to be given, or a directory
/// that is too large to be a file, gives -1. A file that is not there and is not to be made gives -1,
/// and nothing changes, on the disk neither. A file that is there is opened
/// as `opened` says, readable and writable as the flags say, at its start;
/// with the flag to make or the flag to empty it is emptied first, on the
/// disk too; an inode that cannot be read or is too large gives -1. A file
/// that is not there and is to be made is made empty and opened, or the call
/// gives -1 with the kernel as it was; it is made where `create_fits` holds.
pub open spec fn open_done<D: BlockDevice>(
    k0: Kernel,
    k1: Kernel,
    fs: &crate::easy_fs::efs::EasyFileSystem,
    name: Seq<u8>,
    flags: crate::fs::inode::OpenFlags,
    c0: &BlockCacheManager,
    d0: &D,
    c1: &BlockCacheManager,
    d1: &D,
    r: i64,
) -> bool {
    let root = c0.content(d0, fs.inode_area_start_block as usize);
    let size = crate::easy_fs::block_cache::u32_at(root, 0);
    let at = lookup(fs, c0, d0, name);
    let readable = flags.bits == 0 || flags.bits & 1 != 1;
    let writable = flags.bits != 0;
    let make = flags.bits & 512 == 512;
    let empty = make || flags.bits & 1024 == 1024;
    let file = opened_file(k0, k1);
    if k0.process(k0.current_pid()).fd_table@.len() >= i64::MAX {
        &&& r == -1
        &&& k1 == k0
        &&& forall|b: usize| #[trigger] c1.content(d1, b) == c0.content(d0, b)
    } else if crate::easy_fs::layout::blocks_for(size as int) > INDIRECT2_BOUND {
        r == -1 && k1 == k0
    } else if at >= 0 {
        let id = crate::easy_fs::vfs::entry_inode(
            crate::easy_fs::efs::disk_map(root, 0),
            fs_of(c0, d0),
            at,
        );
        let block = c0.content(d0, fs.inode_block(id) as usize);
        let index = fs.inode_index(id);
        if fs.inode_block(id) > u32::MAX || crate::easy_fs::layout::blocks_for(
            crate::easy_fs::block_cache::u32_at(block, index) as int,
        ) > INDIRECT2_BOUND {
            r == -1 && k1 == k0
        } else {
            &&& opened(k0, k1, file, r)
            &&& file.readable == readable
            &&& file.writable == writable
            &&& file.offset == 0
            &&& file.inode.size == if empty {
                0u32
            } else {
                crate::easy_fs::block_cache::u32_at(block, index)
            }
            &&& !empty ==> file.inode.map() == crate::easy_fs::efs::disk_map(block, index) && forall|
                b: usize,
            | #[trigger] c1.content(d1, b) == c0.content(d0, b)
            &&& empty ==> crate::easy_fs::block_cache::u32_at(
                c1.content(d1, fs.inode_block(id) as usize),
                index,
            ) == 0
        }
    } else if !make {
        &&& r == -1
        &&& k1 == k0
        &&& forall|b: usize| #[trigger] c1.content(d1, b) == c0.content(d0, b)
    } else {
        &&& crate::easy_fs::vfs::create_fits(fs, size as int, name, c0, d0) ==> r != -1
        &&& r == -1 ==> k1 == k0
        &&& r != -1 ==> {
            &&& opened(k0, k1, file, r)
            &&& file.readable == readable
            &&& file.writable == writable
            &&& file.offset == 0
            &&& file.inode.size == 0
            &&& file.inode.type_ == crate::easy_fs::layout::DiskInodeType::File
        }
    }
}

/// The running thread opens the file with the name `name` in the
/// directory of the file system `fs`, as `flags` say; see `open_done`.
pub fn open_named<D: BlockDevice>(
    kernel: &mut Kernel,
    fs: &crate::easy_fs::efs::EasyFileSystem,
    name: &[u8],
    flags: crate::fs::inode::OpenFlags,
    cache: &mut BlockCacheManager,
    block_device: &mut D,
) -> (r: i64)
    requires
        old(kernel).wf(),
        old(kernel).running(),
        fs.wf(),
        old(cache).wf(old(block_device)),
    ensures
        final(kernel).wf(),
        final(kernel).pipes == old(kernel).pipes,
        final(cache).wf(final(block_device)),
        open_done(
            *old(kernel),
            *final(kernel),
            fs,
            name@,
            flags,
            old(cache),
            old(block_device),
            final(cache),
            final(block_device),
            r,
        ),
{
    let ghost c0 = *cache;
    let ghost d0 = *block_device;
    let ghost root_block = cache.content(block_device, fs.inode_area_start_block as usize);
    let pid = current_process(kernel);
    if kernel.processes[pid].as_ref().unwrap().fd_table.len() as u128 >= i64::MAX as u128 {
        return -1;
    }
    proof {
        crate::task::process::lemma_first_free(
            kernel.process(pid as int).fd_table@,
            kernel.process(pid as int).fd_table@.len() as int,
        );
    }
    let mut root = match fs.read_inode(0, cache, block_device) {
        None => {
            return -1;
        },
        Some(root) => root,
    };
    proof {
        crate::easy_fs::efs::lemma_disk_map(root_block, 0, root);
        assert(fs_of(cache, block_device) =~= fs_of(&c0, &d0));
    }
    if root.data_blocks() as usize > INDIRECT2_BOUND {
        return -1;
    }
    let found = crate::easy_fs::vfs::find_inode_id(&root, name, cache, block_device);
    match crate::fs::inode::open_file(found.is_some(), flags) {
        crate::fs::inode::OpenAction::Fail => {
            proof {
                assert forall|b: usize| #[trigger]
                    cache.content(block_device, b) == c0.content(&d0, b) by {
                    assert(fs_of(cache, block_device)(b) == fs_of(&c0, &d0)(b));
                }
            }
            -1
        },
        crate::fs::inode::OpenAction::Open { clear, readable, writable } => {
            let id = found.unwrap();
            let ghost c1 = *cache;
            let ghost d1 = *block_device;
            proof {
                assert forall|b: usize| #[trigger] c1.content(&d1, b) == c0.content(&d0, b) by {
                    assert(fs_of(&c1, &d1)(b) == fs_of(&c0, &d0)(b));
                }
            }
            let ghost block = c0.content(&d0, fs.inode_block(id) as usize);
            let mut inode = match fs.read_inode(id, cache, block_device) {
                None => {
                    return -1;
                },
                Some(inode) => inode,
            };
            proof {
                crate::easy_fs::efs::lemma_disk_map(block, fs.inode_index(id), inode);
            }
            if inode.data_blocks() as usize > INDIRECT2_BOUND {
                return -1;
            }
            if clear {
                let blocks = inode.clear_size(cache, block_device);
                fs.dealloc_blocks(&blocks, cache, block_device);
                let ghost before = cache.content(block_device, fs.inode_block(id) as usize);
                fs.write_inode(id, &inode, cache, block_device);
                proof {
                    crate::easy_fs::efs::lemma_with_inode(before, fs.inode_index(id), inode, 32);
                    assert(crate::easy_fs::block_cache::u32_at(
                        cache.content(block_device, fs.inode_block(id) as usize),
                        fs.inode_index(id) + 0,
                    ) == crate::easy_fs::efs::inode_word(inode, 0));
                }
            }
            let r = sys_open(kernel, Some(crate::fs::inode::OSInode::new(readable, writable, inode)));
            proof {
                crate::task::process::lemma_first_free(
                    old(kernel).files@,
                    old(kernel).files@.len() as int,
                );
            }
            r
        },
        crate::fs::inode::OpenAction::Create { readable, writable } => {
            let ghost c1 = *cache;
            let ghost d1 = *block_device;
            proof {
                if crate::easy_fs::vfs::create_fits(fs, root.size as int, name@, &c0, &d0) {
                    let bit = choose|bit: int|
                        0 <= bit < fs.inode_bitmap.blocks * 4096 && bit <= u32::MAX
                            && fs.inode_area_start_block + bit / 4 <= u32::MAX
                            && !#[trigger] fs.inode_bitmap.is_set(&c0, &d0, bit);
                    assert(fs_of(&c1, &d1)((fs.inode_bitmap.start_block_id + bit / 4096) as usize)
                        == fs_of(&c0, &d0)((fs.inode_bitmap.start_block_id + bit / 4096) as usize));
                    assert(!fs.inode_bitmap.is_set(&c1, &d1, bit));
                }
            }
            match crate::easy_fs::vfs::create(fs, &mut root, name, cache, block_device) {
                None => -1,
                Some((id, inode)) => {
                    let r = sys_open(
                        kernel,
                        Some(crate::fs::inode::OSInode::new(readable, writable, inode)),
                    );
                    proof {
                        crate::task::process::lemma_first_free(
                            old(kernel).files@,
                            old(kernel).files@.len() as int,
                        );
                    }
                    r
                },
            }
        },
    }
}

} // verus!
