//! Numbers of processes, threads and kernel stacks, and where the stacks
//! and the trap contexts of threads lie.
use vstd::prelude::*;
use crate::config::{TRAMPOLINE, TRAP_CONTEXT_BASE, USER_STACK_SIZE};

verus! {

/// An allocator of numbers: it hands out the number given back last, and
/// else the next number never handed out.
pub struct RecycleAllocator {
    pub current: usize,
    pub recycled: Vec<usize>,
}

impl RecycleAllocator {
    /// Whether number `id` is handed out.
    pub open spec fn in_use(&self, id: usize) -> bool {
        id < self.current && !self.recycled@.contains(id)
    }

    /// A number is given back at most once and only after it was handed out.
    pub open spec fn wf(&self) -> bool {
        &&& self.recycled@.no_duplicates()
        &&& forall|i: int|
            0 <= i < self.recycled@.len() ==> #[trigger] self.recycled@[i] < self.current
    }

    /// The number that is handed out next.
    pub open spec fn next(&self) -> usize {
        if self.recycled@.len() > 0 {
            self.recycled@.last()
        } else {
            self.current
        }
    }

    /// An allocator that has handed out nothing.
    pub fn new() -> (r: Self)
        ensures
            r.current == 0,
            r.recycled@.len() == 0,
            r.wf(),
    {
        RecycleAllocator { current: 0, recycled: Vec::new() }
    }

    /// Hands out a number that is not in use.
    pub fn allocate(&mut self) -> (id: usize)
        requires
            old(self).wf(),
            old(self).recycled@.len() > 0 || old(self).current < usize::MAX,
        ensures
            final(self).wf(),
            id == old(self).next(),
            !old(self).in_use(id),
            final(self).in_use(id),
            forall|other: usize| other != id ==> final(self).in_use(other) == old(self).in_use(other),
            old(self).recycled@.len() == 0 ==> final(self).current == old(self).current + 1 && final(self).recycled@ == old(self).recycled@,
            old(self).recycled@.len() > 0 ==> final(self).current == old(self).current && final(self).recycled@ == old(self).recycled@.drop_last(),
    {
        if self.recycled.len() > 0 {
            let id = self.recycled.pop().unwrap();
            proof {
                let r0 = old(self).recycled@;
                let r1 = self.recycled@;
                assert(r0.contains(id)) by {
                    assert(r0[r0.len() - 1] == id);
                }
                assert(r0[r0.len() - 1] < old(self).current);
                assert(!r1.contains(id)) by {
                    if r1.contains(id) {
                        let i = choose|i: int| 0 <= i < r1.len() && r1[i] == id;
                        assert(r0[i] == id);
                    }
                }
                assert forall|other: usize| other != id implies self.in_use(other) == old(self).in_use(other) by {
                    if r0.contains(other) {
                        let i = choose|i: int| 0 <= i < r0.len() && r0[i] == other;
                        assert(r1[i] == other);
                    }
                    if r1.contains(other) {
                        let i = choose|i: int| 0 <= i < r1.len() && r1[i] == other;
                        assert(r0[i] == other);
                    }
                }
            }
            id
        } else {
            self.current += 1;
            self.current - 1
        }
    }

    /// Takes back number `id`, which must be in use.
    pub fn dealloc(&mut self, id: usize)
        requires
            old(self).wf(),
            old(self).in_use(id),
        ensures
            final(self).wf(),
            !final(self).in_use(id),
            final(self).next() == id,
            forall|other: usize| other != id ==> final(self).in_use(other) == old(self).in_use(other),
    {
        self.recycled.push(id);
        proof {
            let r0 = old(self).recycled@;
            let r1 = self.recycled@;
            assert(r1[r0.len() as int] == id);
            assert forall|other: usize| other != id implies self.in_use(other) == old(self).in_use(
                other,
            ) by {
                if r0.contains(other) {
                    let i = choose|i: int| 0 <= i < r0.len() && r0[i] == other;
                    assert(r1[i] == other);
                }
                if r1.contains(other) {
                    let i = choose|i: int| 0 <= i < r1.len() && r1[i] == other;
                    assert(r0[i] == other);
                }
            }
            assert forall|i: int, j: int|
                0 <= i < r1.len() && 0 <= j < r1.len() && i != j implies r1[i] != r1[j] by {
                if i < r0.len() {
                    assert(r0.contains(r1[i]));
                }
                if j < r0.len() {
                    assert(r0.contains(r1[j]));
                }
            }
        }
    }

    /// Whether number `id` is handed out at present.
    pub fn is_allocated(&self, id: usize) -> (r: bool)
        ensures
            r == self.in_use(id),
    {
        if id >= self.current {
            return false;
        }
        let mut i: usize = 0;
        while i < self.recycled.len()
            invariant
                i <= self.recycled@.len(),
                forall|j: int| 0 <= j < i ==> self.recycled@[j] != id,
            decreases self.recycled@.len() - i,
        {
            if self.recycled[i] == id {
                return false;
            }
            i += 1;
        }
        true
    }
}

/// The number of the process that never ends.
pub const IDLE_PID: usize = 0;

/// The number of a process.
#[derive(Copy, Clone, PartialEq, Eq, Structural, Debug)]
pub struct PidHandle(pub usize);

/// Hands out the number of a new process.
pub fn pid_alloc(allocator: &mut RecycleAllocator) -> (r: PidHandle)
    requires
        old(allocator).wf(),
        old(allocator).recycled@.len() > 0 || old(allocator).current < usize::MAX,
    ensures
        final(allocator).wf(),
        r.0 == old(allocator).next(),
        !old(allocator).in_use(r.0),
        final(allocator).in_use(r.0),
        forall|other: usize|
            other != r.0 ==> final(allocator).in_use(other) == old(allocator).in_use(other),
{
    PidHandle(allocator.allocate())
}

/// The greatest number of a kernel stack.
pub const MAX_KSTACK_ID: usize = 0x100_0000;

/// Bottom and top of kernel stack `app_id` in the kernel's address space:
/// the stacks lie below the trampoline, each below a page that is not mapped.
pub open spec fn kstack_position(app_id: int) -> (int, int) {
    (TRAMPOLINE - app_id * 12288 - 8192, TRAMPOLINE - app_id * 12288)
}

/// Bottom and top of kernel stack `app_id`.
pub fn kernel_stack_position(app_id: usize) -> (r: (u64, u64))
    requires
        app_id <= MAX_KSTACK_ID,
    ensures
        r.0 == kstack_position(app_id as int).0,
        r.1 == kstack_position(app_id as int).1,
{
    let top: u64 = TRAMPOLINE - (app_id as u64) * 12288;
    let bottom: u64 = top - 8192;
    (bottom, top)
}

/// The kernel stack of a thread, by its number.
#[derive(Copy, Clone, PartialEq, Eq, Structural, Debug)]
pub struct KernelStack(pub usize);

impl KernelStack {
    /// The top of the stack.
    pub fn get_top(&self) -> (r: u64)
        requires
            self.0 <= MAX_KSTACK_ID,
        ensures
            r == kstack_position(self.0 as int).1,
    {
        let (_, top) = kernel_stack_position(self.0);
        top
    }
}

/// The greatest number of a thread of a process.
pub const MAX_TID: usize = 0x1_0000;

/// Address of the trap context of thread `tid`: the contexts lie below the
/// trampoline, one page each.
pub open spec fn trap_cx_bottom(tid: int) -> int {
    TRAP_CONTEXT_BASE - tid * 4096
}

/// Address of the bottom of the user stack of thread `tid`: the stacks lie
/// above `ustack_base`, each above a page that is not mapped.
pub open spec fn ustack_bottom(ustack_base: int, tid: int) -> int {
    ustack_base + tid * 12288
}

/// Address of the trap context of thread `tid`.
pub fn trap_cx_bottom_from_tid(tid: usize) -> (r: u64)
    requires
        tid <= MAX_TID,
    ensures
        r == trap_cx_bottom(tid as int),
{
    TRAP_CONTEXT_BASE - (tid as u64) * 4096
}

/// Address of the bottom of the user stack of thread `tid`.
pub fn ustack_bottom_from_tid(ustack_base: u64, tid: usize) -> (r: u64)
    requires
        tid <= MAX_TID,
        ustack_base + tid * 12288 <= u64::MAX,
    ensures
        r == ustack_bottom(ustack_base as int, tid as int),
{
    ustack_base + (tid as u64) * 12288
}

/// What a thread has in the address space of its process: its number among
/// the threads of the process, the base of the user stacks, and the process.
#[derive(Copy, Clone, PartialEq, Eq, Structural, Debug)]
pub struct TaskUserRes {
    pub tid: usize,
    pub ustack_base: u64,
    pub process: usize,
}

impl TaskUserRes {
    /// The thread's number and stack are within the address space.
    pub open spec fn wf(&self) -> bool {
        &&& self.tid <= MAX_TID
        &&& self.ustack_base + self.tid * 12288 + 8192 <= u64::MAX
    }

    /// Address of the trap context of the thread in the address space of the process.
    pub fn trap_cx_user_va(&self) -> (r: u64)
        requires
            self.tid <= MAX_TID,
        ensures
            r == trap_cx_bottom(self.tid as int),
    {
        trap_cx_bottom_from_tid(self.tid)
    }

    /// The base of the user stacks of the process.
    pub fn ustack_base(&self) -> (r: u64)
        ensures
            r == self.ustack_base,
    {
        self.ustack_base
    }

    /// The top of the user stack of the thread.
    pub fn ustack_top(&self) -> (r: u64)
        requires
            self.wf(),
        ensures
            r == ustack_bottom(self.ustack_base as int, self.tid as int) + 8192,
    {
        ustack_bottom_from_tid(self.ustack_base, self.tid) + USER_STACK_SIZE
    }
}

} // verus!
