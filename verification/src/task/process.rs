//! Processes.
use vstd::prelude::*;
use super::action::SignalActions;
use super::id::{PidHandle, RecycleAllocator};
use super::signal::SignalFlags;
use crate::mm::memory_set::MemorySet;
use crate::sync::condvar::Condvar;
use crate::sync::mutex::{MutexBlocking, MutexSpin};
use crate::sync::semaphore::Semaphore;
use crate::trap::context::TrapContext;

verus! {

/// A mutex of a process, of one of the two kinds.
pub enum MutexKind {
    Spin(MutexSpin),
    Blocking(MutexBlocking),
}

/// A process: its number, whether it has ended and with which exit code,
/// its address space, its parent and its children, its file descriptors,
/// the state of its signals, its threads, and the mutexes, semaphores and
/// condition variables of its threads.
pub struct ProcessControlBlock {
    pub pid: PidHandle,
    pub registered: bool,
    pub is_zombie: bool,
    pub memory_set: MemorySet,
    pub parent: Option<usize>,
    pub children: Vec<usize>,
    pub exit_code: i32,
    pub fd_table: Vec<Option<usize>>,
    pub signals: SignalFlags,
    pub signal_mask: SignalFlags,
    pub handling_sig: i64,
    pub signal_actions: SignalActions,
    pub killed: bool,
    pub frozen: bool,
    pub trap_ctx_backup: Option<TrapContext>,
    pub tasks: Vec<Option<usize>>,
    pub task_res_allocator: RecycleAllocator,
    pub mutex_list: Vec<Option<MutexKind>>,
    pub semaphore_list: Vec<Option<Semaphore>>,
    pub condvar_list: Vec<Option<Condvar>>,
}

/// Index of the first free slot among the first `n` slots of a table, or `n`.
pub open spec fn first_free<T>(table: Seq<Option<T>>, n: int) -> int
    decreases n,
{
    if n <= 0 {
        0
    } else if first_free(table, n - 1) < n - 1 {
        first_free(table, n - 1)
    } else if table[n - 1].is_none() {
        n - 1
    } else {
        n
    }
}

/// What `first_free` finds: no slot before it is free, and the slot at it
/// is, unless it is `n`.
pub proof fn lemma_first_free<T>(table: Seq<Option<T>>, n: int)
    requires
        0 <= n <= table.len(),
    ensures
        0 <= first_free(table, n) <= n,
        forall|i: int| 0 <= i < first_free(table, n) ==> table[i].is_some(),
        first_free(table, n) < n ==> table[first_free(table, n)].is_none(),
    decreases n,
{
    if n > 0 {
        lemma_first_free(table, n - 1);
    }
}

/// The first free slot of a table; a free slot is added at the end where
/// no slot is free.
pub fn free_slot<T>(table: &mut Vec<Option<T>>) -> (r: usize)
    ensures
        r == first_free(old(table)@, old(table)@.len() as int),
        r < final(table)@.len(),
        final(table)@[r as int].is_none(),
        final(table)@ == if r < old(table)@.len() {
            old(table)@
        } else {
            old(table)@.push(None)
        },
{
    let mut i: usize = 0;
    proof {
        lemma_first_free(table@, table@.len() as int);
    }
    while i < table.len()
        invariant
            0 <= i <= table@.len(),
            table@ == old(table)@,
            forall|j: int| 0 <= j < i ==> table@[j].is_some(),
            i <= first_free(table@, table@.len() as int),
            first_free(table@, table@.len() as int) < table@.len() ==> table@[first_free(
                table@,
                table@.len() as int,
            )].is_none(),
            forall|j: int| 0 <= j < first_free(table@, table@.len() as int) ==> table@[j].is_some(),
        decreases table@.len() - i,
    {
        if table[i].is_none() {
            return i;
        }
        i += 1;
    }
    table.push(None);
    table.len() - 1
}

impl ProcessControlBlock {
    /// The value that selects the address space of the process.
    pub fn get_user_token(&self) -> (r: u64)
        ensures
            r == self.memory_set.page_table.token_value(),
    {
        self.memory_set.token()
    }

    /// The lowest file descriptor that is free; the table grows by a free
    /// descriptor where none is free.
    pub fn alloc_fd(&mut self) -> (fd: usize)
        ensures
            fd == first_free(old(self).fd_table@, old(self).fd_table@.len() as int),
            fd < final(self).fd_table@.len(),
            final(self).fd_table@[fd as int].is_none(),
            final(self).fd_table@ == if fd < old(self).fd_table@.len() {
                old(self).fd_table@
            } else {
                old(self).fd_table@.push(None)
            },
            final(self).pid == old(self).pid,
            final(self).memory_set == old(self).memory_set,
            final(self).tasks == old(self).tasks,
            final(self).is_zombie == old(self).is_zombie,
            final(self).registered == old(self).registered,
            final(self).parent == old(self).parent,
            final(self).children == old(self).children,
            final(self).exit_code == old(self).exit_code,
            final(self).signals == old(self).signals,
            final(self).signal_mask == old(self).signal_mask,
            final(self).handling_sig == old(self).handling_sig,
            final(self).signal_actions == old(self).signal_actions,
            final(self).killed == old(self).killed,
            final(self).frozen == old(self).frozen,
            final(self).trap_ctx_backup == old(self).trap_ctx_backup,
            final(self).task_res_allocator == old(self).task_res_allocator,
            final(self).mutex_list == old(self).mutex_list,
            final(self).semaphore_list == old(self).semaphore_list,
            final(self).condvar_list == old(self).condvar_list,
    {
        free_slot(&mut self.fd_table)
    }

    /// Hands out the number of a new thread of the process.
    pub fn alloc_tid(&mut self) -> (tid: usize)
        requires
            old(self).task_res_allocator.wf(),
            old(self).task_res_allocator.recycled@.len() > 0 || old(self).task_res_allocator.current
                < usize::MAX,
        ensures
            final(self).task_res_allocator.wf(),
            tid == old(self).task_res_allocator.next(),
            final(self).task_res_allocator.in_use(tid),
            !old(self).task_res_allocator.in_use(tid),
            final(self).pid == old(self).pid,
            final(self).memory_set == old(self).memory_set,
            final(self).fd_table == old(self).fd_table,
            final(self).tasks == old(self).tasks,
    {
        self.task_res_allocator.allocate()
    }

    /// Takes back the number of a thread of the process.
    pub fn dealloc_tid(&mut self, tid: usize)
        requires
            old(self).task_res_allocator.wf(),
            old(self).task_res_allocator.in_use(tid),
        ensures
            final(self).task_res_allocator.wf(),
            !final(self).task_res_allocator.in_use(tid),
            final(self).pid == old(self).pid,
            final(self).memory_set == old(self).memory_set,
            final(self).fd_table == old(self).fd_table,
            final(self).tasks == old(self).tasks,
    {
        self.task_res_allocator.dealloc(tid)
    }

    /// Number of slots for threads of the process.
    pub fn thread_count(&self) -> (r: usize)
        ensures
            r == self.tasks@.len(),
    {
        self.tasks.len()
    }

    /// The thread with number `tid`, which must exist.
    pub fn get_task(&self, tid: usize) -> (r: usize)
        requires
            tid < self.tasks@.len(),
            self.tasks@[tid as int].is_some(),
        ensures
            Some(r) == self.tasks@[tid as int],
    {
        self.tasks[tid].unwrap()
    }

    /// The number of the process.
    pub fn getpid(&self) -> (r: usize)
        ensures
            r == self.pid.0,
    {
        self.pid.0
    }
}

} // verus!
