//! What the kernel reads and writes in the address space of a process.
use vstd::prelude::*;
use crate::kernel::Kernel;
use crate::mm::frame_allocator::AllocatorState;
use crate::mm::memory_set::{lemma_spaces_step, lemma_wf_parts, MapArea, MemorySet};
use crate::mm::user_buffer::{lemma_same_frames_wf, USER_LIMIT};
use crate::task::process::ProcessControlBlock;
use crate::task::sched::except_process;

verus! {

/// An address space that is in order can be read and written as its
/// program sees it.
pub proof fn lemma_user_ready(s: MemorySet, a: AllocatorState)
    requires
        s.wf(a),
    ensures
        s.page_table.frames_wf(),
        s.areas_wf(),
{
    lemma_wf_parts(s, a);
    reveal(MemorySet::wf);
    reveal(MapArea::fits);
}

/// Whether process `p1` is `p0` but for its address space.
pub open spec fn same_but_memory(p0: ProcessControlBlock, p1: ProcessControlBlock) -> bool {
    &&& p1.pid == p0.pid
    &&& p1.registered == p0.registered
    &&& p1.is_zombie == p0.is_zombie
    &&& p1.parent == p0.parent
    &&& p1.children == p0.children
    &&& p1.exit_code == p0.exit_code
    &&& p1.fd_table == p0.fd_table
    &&& p1.signals == p0.signals
    &&& p1.signal_mask == p0.signal_mask
    &&& p1.handling_sig == p0.handling_sig
    &&& p1.signal_actions == p0.signal_actions
    &&& p1.killed == p0.killed
    &&& p1.frozen == p0.frozen
    &&& p1.trap_ctx_backup == p0.trap_ctx_backup
    &&& p1.tasks == p0.tasks
    &&& p1.task_res_allocator == p0.task_res_allocator
    &&& p1.mutex_list == p0.mutex_list
    &&& p1.semaphore_list == p0.semaphore_list
    &&& p1.condvar_list == p0.condvar_list
}

/// Whether `k1` is `k0` but for what the frames of process `pid` hold.
pub open spec fn memory_step(k0: Kernel, k1: Kernel, pid: int) -> bool {
    &&& except_process(k0, k1, pid)
    &&& k1.has_process(pid)
    &&& same_but_memory(k0.process(pid), k1.process(pid))
    &&& k1.process(pid).memory_set.same_frames(&k0.process(pid).memory_set)
}

/// A kernel stays in order when only what the frames of a process hold
/// changes.
pub proof fn lemma_memory_step(k0: Kernel, k1: Kernel, pid: int)
    requires
        k0.wf(),
        k0.has_process(pid),
        memory_step(k0, k1, pid),
    ensures
        k1.wf(),
{
    let a = k0.frame_allocator@;
    let s0 = k0.spaces();
    let s1 = k1.spaces();
    let m0 = k0.process(pid).memory_set;
    let m1 = k1.process(pid).memory_set;
    assert(s0[pid + 1] == Some(m0));
    assert(s1[pid + 1] == Some(m1));
    lemma_same_frames_wf(m1, m0, a);
    assert forall|j: int| 0 <= j < s0.len() && j != pid + 1 implies #[trigger] s1[j] == s0[j] by {
        if j > 0 {
            assert(k1.processes@[j - 1] == k0.processes@[j - 1]);
        }
    }
    lemma_spaces_step(s0, a, s1, a, pid + 1);
    assert(s0[0] == Some(k0.kernel_space));
    assert forall|q: int| #[trigger] k1.has_process(q) implies {
        let p = k1.process(q);
        &&& p.pid.0 == q
        &&& k1.pid_allocator.in_use(q as usize)
        &&& p.task_res_allocator.wf()
        &&& !p.is_zombie ==> p.memory_set.complete(k1.frame_allocator@)
    } by {
        assert(k0.has_process(q));
        if q != pid {
            assert(k1.processes@[q] == k0.processes@[q]);
        }
    }
}

/// The `len` bytes from address `ptr` on of a program, or `None` where the
/// program cannot reach one of them.
pub fn read_user_bytes(ms: &MemorySet, ptr: u64, len: usize) -> (r: Option<Vec<u8>>)
    requires
        ms.page_table.frames_wf(),
        ms.areas_wf(),
    ensures
        r.is_some() == ms.user_range_ok(ptr, len as int),
        r.is_some() ==> r.unwrap()@ == ms.user_bytes(ptr, len as int),
{
    if len as u64 > USER_LIMIT || ptr > USER_LIMIT - len as u64 {
        return None;
    }
    let mut v: Vec<u8> = Vec::new();
    let mut k: usize = 0;
    while k < len
        invariant
            0 <= k <= len,
            ptr + len <= USER_LIMIT,
            ms.page_table.frames_wf(),
            ms.areas_wf(),
            v@.len() == k,
            forall|i: int| 0 <= i < k ==> #[trigger] ms.user_byte((ptr + i) as u64) == Some(v@[i]),
        decreases len - k,
    {
        match ms.read_user_byte(ptr + k as u64) {
            None => {
                return None;
            },
            Some(b) => {
                v.push(b);
            },
        }
        k += 1;
    }
    proof {
        assert(v@ =~= ms.user_bytes(ptr, len as int));
    }
    Some(v)
}

/// The `len` bytes from address `ptr` on in the address space of process
/// `pid`, or `None` where the program cannot reach one of them.
pub fn read_user(kernel: &Kernel, pid: usize, ptr: u64, len: usize) -> (r: Option<Vec<u8>>)
    requires
        kernel.wf(),
        kernel.has_process(pid as int),
    ensures
        r.is_some() == kernel.process(pid as int).memory_set.user_range_ok(ptr, len as int),
        r.is_some() ==> r.unwrap()@ == kernel.process(pid as int).memory_set.user_bytes(
            ptr,
            len as int,
        ),
{
    proof {
        assert(kernel.spaces()[pid + 1] == Some(kernel.process(pid as int).memory_set));
        lemma_user_ready(kernel.process(pid as int).memory_set, kernel.frame_allocator@);
    }
    read_user_bytes(&kernel.processes[pid].as_ref().unwrap().memory_set, ptr, len)
}

/// Stores `data` from address `ptr` on in the address space of process
/// `pid`. Nothing changes, and the result is `false`, where the program
/// cannot reach one of the bytes.
pub fn write_user(kernel: &mut Kernel, pid: usize, ptr: u64, data: &[u8]) -> (done: bool)
    requires
        old(kernel).wf(),
        old(kernel).has_process(pid as int),
    ensures
        final(kernel).wf(),
        memory_step(*old(kernel), *final(kernel), pid as int),
        done == old(kernel).process(pid as int).memory_set.user_range_ok(ptr, data@.len() as int),
        !done ==> *final(kernel) == *old(kernel),
        done ==> final(kernel).process(pid as int).memory_set.user_bytes(ptr, data@.len() as int)
            == data@,
        forall|va: u64|
            !(ptr <= va < ptr + data@.len()) ==> #[trigger] final(kernel).process(
                pid as int,
            ).memory_set.user_byte(va) == old(kernel).process(pid as int).memory_set.user_byte(va),
        forall|va: u64| #[trigger]
            final(kernel).process(pid as int).memory_set.user_byte(va).is_some() == old(kernel).process(pid as int).memory_set.user_byte(va).is_some(),
{
    let ghost k0 = *kernel;
    proof {
        assert(kernel.spaces()[pid + 1] == Some(kernel.process(pid as int).memory_set));
        lemma_user_ready(kernel.process(pid as int).memory_set, kernel.frame_allocator@);
    }
    if read_user_bytes(&kernel.processes[pid].as_ref().unwrap().memory_set, ptr, data.len()).is_none() {
        proof {
            crate::mm::user_buffer::lemma_same_frames_refl(k0.process(pid as int).memory_set);
        }
        return false;
    }
    let mut p = kernel.processes[pid].take().unwrap();
    let done = p.memory_set.write_user_bytes(ptr, data);
    let ghost m1 = p.memory_set;
    kernel.processes.set(pid, Some(p));
    proof {
        assert(m1.user_bytes(ptr, data@.len() as int) =~= data@);
        assert forall|va: u64| #[trigger]
            m1.user_byte(va).is_some() == k0.process(pid as int).memory_set.user_byte(
                va,
            ).is_some() by {
            if ptr <= va < ptr + data@.len() {
                let i = va - ptr;
                assert(m1.user_byte((ptr + i) as u64) == Some(data@[i]));
                assert(k0.process(pid as int).memory_set.user_byte((ptr + i) as u64).is_some());
            }
        }
        lemma_memory_step(k0, *kernel, pid as int);
    }
    done
}

} // verus!
