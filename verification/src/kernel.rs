//! The state of the kernel: the frames, the address spaces, the processes
//! and threads, the ready queue and the processor, the open files and the
//! pipes. All of it is one value that is handed to each operation; nothing
//! is kept in variables that every part can reach.
use vstd::prelude::*;
use crate::fs::inode::{FileKind, OpenFile};
use crate::fs::pipe::PipeRingBuffer;
use crate::mm::address::{lemma_low_39, PhysPageNum, VirtAddr, VirtPageNum};
use crate::mm::frame_allocator::{AllocatorState, StackFrameAllocator};
use crate::mm::user_buffer::{
    can_store, lemma_same_frames_refl, lemma_same_frames_trans, seen, store_bytes,
};
use crate::mm::memory_set::{
    lemma_complete_wf, lemma_grown_parts, lemma_owns_in_use, lemma_spaces_insert,
    lemma_spaces_other_allocator, lemma_spaces_step, lemma_wf_other_allocator, lemma_wf_parts,
    sections_disjoint, spaces_wf, sum_pages, va_page, va_page_up, KernelLayout, MapPermission,
    MapType, MemorySet, TRAMPOLINE_VPN, VPN_LIMIT,
};
use crate::task::context::TaskContext;
use crate::task::id::{PidHandle, TaskUserRes};
use crate::task::action::SignalActions;
use crate::task::signal::SignalFlags;
use crate::task::task::{Resume, TaskStatus};
use crate::trap::context::TrapContext;
use crate::mm::page_table::MapError;
use crate::task::id::{
    kernel_stack_position, kstack_position, KernelStack, RecycleAllocator, MAX_KSTACK_ID,
};
use crate::task::manager::TaskManager;
use crate::task::process::{free_slot, ProcessControlBlock};
use crate::task::processor::Processor;
use crate::task::task::TaskControlBlock;
use crate::timer::Timers;

verus! {

/// What the kernel knows of the machine and of its own code: the address of
/// the trampoline code, of the trap handler and of the routine that returns
/// to a program, the status register of a program that starts, and the
/// frequency of the clock.
#[derive(Copy, Clone, Debug)]
pub struct Machine {
    pub strampoline: u64,
    pub trap_handler: u64,
    pub trap_return: u64,
    pub user_sstatus: u64,
    pub clock_freq: u64,
}

/// The state of the kernel.
pub struct Kernel {
    pub machine: Machine,
    pub frame_allocator: StackFrameAllocator,
    pub kernel_space: MemorySet,
    pub pid_allocator: RecycleAllocator,
    pub kstack_allocator: RecycleAllocator,
    pub processes: Vec<Option<ProcessControlBlock>>,
    pub threads: Vec<Option<TaskControlBlock>>,
    pub task_manager: TaskManager,
    pub processor: Processor,
    pub timers: Timers,
    pub files: Vec<Option<OpenFile>>,
    pub pipes: Vec<Option<PipeRingBuffer>>,
    pub initproc: usize,
    /// What programs have written to the console and the caller has not
    /// printed yet.
    pub console_out: Vec<u8>,
    /// What was typed at the console and no program has read yet.
    pub console_in: Vec<u8>,
}

/// The address spaces of a kernel with the given processes: the kernel's
/// own first, then that of each process at the place of its number plus one.
pub open spec fn spaces_of(kernel_space: MemorySet, processes: Seq<Option<ProcessControlBlock>>) -> Seq<
    Option<MemorySet>,
> {
    Seq::new(
        (processes.len() + 1) as nat,
        |i: int|
            if i == 0 {
                Some(kernel_space)
            } else {
                match processes[i - 1] {
                    Some(p) => Some(p.memory_set),
                    None => None,
                }
            },
    )
}

impl Kernel {
    /// The address spaces of the kernel and of the processes.
    pub open spec fn spaces(&self) -> Seq<Option<MemorySet>> {
        spaces_of(self.kernel_space, self.processes@)
    }

    /// Whether process `pid` exists.
    pub open spec fn has_process(&self, pid: int) -> bool {
        0 <= pid < self.processes@.len() && self.processes@[pid].is_some()
    }

    /// Process `pid`.
    pub open spec fn process(&self, pid: int) -> ProcessControlBlock {
        self.processes@[pid].unwrap()
    }

    /// Whether thread `h` exists.
    pub open spec fn has_thread(&self, h: int) -> bool {
        0 <= h < self.threads@.len() && self.threads@[h].is_some()
    }

    /// Thread `h`.
    pub open spec fn thread(&self, h: int) -> TaskControlBlock {
        self.threads@[h].unwrap()
    }

    /// The address spaces are in order with the allocator and share no
    /// frame, those of the kernel and of the processes that have not ended
    /// are complete, the allocators of numbers are in order, each process
    /// stands at the place of its number, which is in use, and each thread
    /// has a kernel stack whose number is in use.
    pub open spec fn wf(&self) -> bool {
        &&& spaces_wf(self.spaces(), self.frame_allocator@)
        &&& self.kernel_space.complete(self.frame_allocator@)
        &&& self.pid_allocator.wf()
        &&& self.kstack_allocator.wf()
        &&& forall|pid: int| #[trigger]
            self.has_process(pid) ==> {
                let p = self.process(pid);
                &&& p.pid.0 == pid
                &&& self.pid_allocator.in_use(pid as usize)
                &&& p.task_res_allocator.wf()
                &&& !p.is_zombie ==> p.memory_set.complete(self.frame_allocator@)
            }
        &&& threads_ok(self.threads@, self.kstack_allocator)
    }

    /// The thread on the processor exists, and so does its process.
    pub open spec fn running(&self) -> bool {
        &&& self.processor.current.is_some()
        &&& self.has_thread(self.processor.current.unwrap() as int)
        &&& self.has_process(self.thread(self.processor.current.unwrap() as int).process as int)
    }

    /// The handle of the running thread.
    pub open spec fn current(&self) -> int {
        self.processor.current.unwrap() as int
    }

    /// The number of the process of the running thread.
    pub open spec fn current_pid(&self) -> int {
        self.thread(self.current()).process as int
    }

    /// The frames that a kernel with this layout starts with: those from
    /// the first one at or after `ekernel` up to the last one that ends at
    /// or before `memory_end`, all of them free.
    pub open spec fn first_frames(layout: &KernelLayout) -> AllocatorState {
        AllocatorState {
            current: crate::mm::address::pages_up((layout.ekernel & 0xff_ffff_ffff_ffff) as int) as u64,
            end: (layout.memory_end & 0xff_ffff_ffff_ffff) / 4096,
            recycled: Seq::empty(),
        }
    }

    /// The kernel just after it has started: its own address space is built
    /// from `layout` with the frames `[ceil(ekernel), floor(memory_end))`;
    /// there is no process and no thread, no open file, no pipe and no
    /// timer, and nothing waits at the console. The call succeeds where the
    /// sections of the layout share no page and there are three frames for
    /// each page of them and three more; it fails because a page is mapped
    /// already only where sections share a page.
    pub fn new(machine: Machine, layout: &KernelLayout) -> (r: Result<Self, MapError>)
        requires
            layout.wf(),
            (layout.memory_end & 0xff_ffff_ffff_ffff) / 4096 <= 0x1000_0000_0000,
            crate::mm::address::pages_up((layout.ekernel & 0xff_ffff_ffff_ffff) as int) <= (
            layout.memory_end & 0xff_ffff_ffff_ffff) / 4096,
        ensures
            sections_disjoint(layout.sections()) && Self::first_frames(layout).free_count() >= 3 + 3
                * sum_pages(layout.sections(), layout.sections().len() as int) ==> r.is_ok(),
            r == Err::<Self, MapError>(MapError::AlreadyMapped) ==> !sections_disjoint(
                layout.sections(),
            ),
            r.is_ok() ==> {
                let k = r.unwrap();
                &&& k.wf()
                &&& k.machine == machine
                &&& k.processes@.len() == 0
                &&& k.threads@.len() == 0
                &&& k.task_manager.ready_queue@.len() == 0
                &&& k.processor.current.is_none()
                &&& k.files@.len() == 0
                &&& k.pipes@.len() == 0
                &&& k.timers.list@.len() == 0
                &&& k.console_out@.len() == 0
                &&& k.console_in@.len() == 0
                &&& k.initproc == 0
                &&& k.pid_allocator.current == 0 && k.pid_allocator.recycled@.len() == 0
                &&& k.kstack_allocator.current == 0 && k.kstack_allocator.recycled@.len() == 0
                &&& k.frame_allocator@.end == Self::first_frames(layout).end
                &&& forall|p: u64|
                    Self::first_frames(layout).in_use(p) ==> k.frame_allocator@.in_use(p)
                &&& k.kernel_space.fresh_since(Self::first_frames(layout))
                &&& k.kernel_space.areas@.len() == layout.sections().len()
                &&& k.kernel_space.page_table.translation(TRAMPOLINE_VPN) == Some(
                    crate::mm::page_table::PageTableEntry {
                        bits: crate::mm::page_table::pte_bits(
                            crate::mm::memory_set::pa_frame(layout.strampoline),
                            11,
                        ),
                    },
                )
                &&& k.kernel_space.built_for(
                    layout.sections(),
                    layout.sections().len() as int,
                    MapType::Identical,
                )
            },
    {
        let mut frame_allocator = crate::mm::frame_allocator::init_frame_allocator(
            layout.ekernel,
            layout.memory_end,
        );
        match MemorySet::new_kernel(&mut frame_allocator, layout) {
            Err(e) => Err(e),
            Ok(kernel_space) => {
                let k = Kernel {
                    machine,
                    frame_allocator,
                    kernel_space,
                    pid_allocator: RecycleAllocator::new(),
                    kstack_allocator: RecycleAllocator::new(),
                    processes: Vec::new(),
                    threads: Vec::new(),
                    task_manager: TaskManager::new(),
                    processor: Processor::new(),
                    timers: Timers::new(),
                    files: Vec::new(),
                    pipes: Vec::new(),
                    initproc: 0,
                    console_out: Vec::new(),
                    console_in: Vec::new(),
                };
                proof {
                    lemma_complete_wf(k.kernel_space, k.frame_allocator@);
                    assert(k.spaces().len() == 1);
                }
                Ok(k)
            },
        }
    }

    /// Puts an open file into the table of open files, with one file
    /// descriptor that stands for it, and gives its place.
    pub fn add_file(&mut self, kind: FileKind) -> (r: usize)
        ensures
            r == crate::task::process::first_free(old(self).files@, old(self).files@.len() as int),
            final(self).files@ == (if r < old(self).files@.len() {
                old(self).files@
            } else {
                old(self).files@.push(None)
            }).update(r as int, Some(OpenFile { kind, refs: 1 })),
            final(self).machine == old(self).machine,
            final(self).frame_allocator == old(self).frame_allocator,
            final(self).kernel_space == old(self).kernel_space,
            final(self).pid_allocator == old(self).pid_allocator,
            final(self).kstack_allocator == old(self).kstack_allocator,
            final(self).processes == old(self).processes,
            final(self).threads == old(self).threads,
            final(self).task_manager == old(self).task_manager,
            final(self).processor == old(self).processor,
            final(self).timers == old(self).timers,
            final(self).pipes == old(self).pipes,
            final(self).initproc == old(self).initproc,
            final(self).console_out == old(self).console_out,
            final(self).console_in == old(self).console_in,
    {
        let r = free_slot(&mut self.files);
        self.files.set(r, Some(OpenFile { kind, refs: 1 }));
        r
    }
}

/// Each thread stands on a kernel stack of its own, whose number is in use.
pub open spec fn threads_ok(threads: Seq<Option<TaskControlBlock>>, stacks: RecycleAllocator) -> bool {
    &&& forall|h: int|
        0 <= h < threads.len() && (#[trigger] threads[h]).is_some() ==> threads[h].unwrap().kstack.0
            <= MAX_KSTACK_ID && stacks.in_use(threads[h].unwrap().kstack.0)
    &&& forall|h: int, g: int|
        0 <= h < threads.len() && 0 <= g < threads.len() && h != g && (#[trigger] threads[h]).is_some()
            && (#[trigger] threads[g]).is_some() ==> threads[h].unwrap().kstack
            != threads[g].unwrap().kstack
}

/// Threads that keep their kernel stacks stay in order.
pub proof fn lemma_threads_same_stacks(
    t0: Seq<Option<TaskControlBlock>>,
    t1: Seq<Option<TaskControlBlock>>,
    stacks: RecycleAllocator,
)
    requires
        threads_ok(t0, stacks),
        t1.len() == t0.len(),
        forall|h: int| 0 <= h < t0.len() ==> (#[trigger] t1[h]).is_some() == t0[h].is_some(),
        forall|h: int|
            0 <= h < t0.len() && (#[trigger] t0[h]).is_some() ==> t1[h].unwrap().kstack
                == t0[h].unwrap().kstack,
    ensures
        threads_ok(t1, stacks),
{
    assert forall|h: int| 0 <= h < t1.len() && (#[trigger] t1[h]).is_some() implies t1[h].unwrap().kstack.0
        <= MAX_KSTACK_ID && stacks.in_use(t1[h].unwrap().kstack.0) by {
        assert(t0[h].is_some());
    }
    assert forall|h: int, g: int|
        0 <= h < t1.len() && 0 <= g < t1.len() && h != g && (#[trigger] t1[h]).is_some() && (
        #[trigger] t1[g]).is_some() implies t1[h].unwrap().kstack != t1[g].unwrap().kstack by {
        assert(t0[h].is_some() && t0[g].is_some());
    }
}

/// Threads stay in order when another kernel stack comes into use.
pub proof fn lemma_threads_more_stacks(
    t: Seq<Option<TaskControlBlock>>,
    s0: RecycleAllocator,
    s1: RecycleAllocator,
)
    requires
        threads_ok(t, s0),
        forall|id: usize| s0.in_use(id) ==> s1.in_use(id),
    ensures
        threads_ok(t, s1),
{
    assert forall|h: int| 0 <= h < t.len() && (#[trigger] t[h]).is_some() implies t[h].unwrap().kstack.0
        <= MAX_KSTACK_ID && s1.in_use(t[h].unwrap().kstack.0) by {}
}

/// A thread on a kernel stack that no other thread stands on can be added.
pub proof fn lemma_threads_insert(
    t0: Seq<Option<TaskControlBlock>>,
    t1: Seq<Option<TaskControlBlock>>,
    stacks: RecycleAllocator,
    h: int,
)
    requires
        threads_ok(t0, stacks),
        0 <= h < t1.len(),
        t0.len() <= t1.len(),
        forall|g: int| 0 <= g < t0.len() && g != h ==> #[trigger] t1[g] == t0[g],
        forall|g: int| t0.len() <= g < t1.len() && g != h ==> (#[trigger] t1[g]).is_none(),
        t1[h].is_some(),
        t1[h].unwrap().kstack.0 <= MAX_KSTACK_ID,
        stacks.in_use(t1[h].unwrap().kstack.0),
        forall|g: int|
            0 <= g < t0.len() && g != h && (#[trigger] t0[g]).is_some() ==> t0[g].unwrap().kstack
                != t1[h].unwrap().kstack,
    ensures
        threads_ok(t1, stacks),
{
    assert forall|g: int| 0 <= g < t1.len() && (#[trigger] t1[g]).is_some() implies t1[g].unwrap().kstack.0
        <= MAX_KSTACK_ID && stacks.in_use(t1[g].unwrap().kstack.0) by {
        if g != h {
            assert(t1[g] == t0[g]);
        }
    }
    assert forall|a: int, b: int|
        0 <= a < t1.len() && 0 <= b < t1.len() && a != b && (#[trigger] t1[a]).is_some() && (
        #[trigger] t1[b]).is_some() implies t1[a].unwrap().kstack != t1[b].unwrap().kstack by {
        if a != h && b != h {
            assert(t1[a] == t0[a] && t1[b] == t0[b]);
        } else if a == h {
            assert(t1[b] == t0[b]);
        } else {
            assert(t1[a] == t0[a]);
        }
    }
}

/// The pages of kernel stack `id`: the first and the one after the last.
pub open spec fn kstack_pages(id: int) -> (int, int) {
    (0x7ff_ffff - 3 * id - 2, 0x7ff_ffff - 3 * id)
}

/// Where the pages of a kernel stack lie.
pub proof fn lemma_kstack_pages(id: int)
    requires
        0 <= id <= MAX_KSTACK_ID,
    ensures
        va_page(kstack_position(id).0 as u64) == kstack_pages(id).0,
        va_page_up(kstack_position(id).1 as u64) == kstack_pages(id).1,
        0 <= kstack_pages(id).0 < kstack_pages(id).1 < VPN_LIMIT,
{
    let b = kstack_position(id).0 as u64;
    let t = kstack_position(id).1 as u64;
    lemma_low_39(b);
    lemma_low_39(t);
    let d = id * 12288;
    assert(b == 0x1ff_ffff * 0x80_0000_0000 + (0x80_0000_0000 - 4096 - d - 8192));
    assert(t == 0x1ff_ffff * 0x80_0000_0000 + (0x80_0000_0000 - 4096 - d));
    assert(b % 0x80_0000_0000 == 0x80_0000_0000 - 4096 - d - 8192) by (nonlinear_arith)
        requires
            b == 0x1ff_ffff * 0x80_0000_0000 + (0x80_0000_0000 - 4096 - d - 8192),
            0 <= 0x80_0000_0000 - 4096 - d - 8192 < 0x80_0000_0000,
    ;
    assert(t % 0x80_0000_0000 == 0x80_0000_0000 - 4096 - d) by (nonlinear_arith)
        requires
            t == 0x1ff_ffff * 0x80_0000_0000 + (0x80_0000_0000 - 4096 - d),
            0 <= 0x80_0000_0000 - 4096 - d < 0x80_0000_0000,
    ;
}

/// Why no kernel stack can be made in kernel `k`, if none can: the frames
/// run out where the next number for a kernel stack is too great or fewer
/// than six frames are free, and else a page is mapped already where a page
/// of the stack is mapped in the address space of the kernel.
pub open spec fn kstack_error(k: Kernel) -> Option<MapError> {
    let first = kstack_pages(k.kstack_allocator.next() as int).0;
    if k.kstack_allocator.next() > MAX_KSTACK_ID || k.frame_allocator@.free_count() < 6 {
        Some(MapError::OutOfFrames)
    } else if k.kernel_space.page_table.translation(first as u64).is_some()
        || k.kernel_space.page_table.translation((first + 1) as u64).is_some() {
        Some(MapError::AlreadyMapped)
    } else {
        None
    }
}

/// Makes a kernel stack: takes a number for it and maps its two pages,
/// readable and writable, in the address space of the kernel. Nothing
/// changes where the number is too great, fewer than six frames are free,
/// or a page of the stack is mapped already.
pub fn kstack_alloc(kernel: &mut Kernel) -> (r: Result<KernelStack, MapError>)
    requires
        old(kernel).wf(),
    ensures
        final(kernel).wf(),
        match kstack_error(*old(kernel)) {
            Some(e) => r == Err::<KernelStack, MapError>(e),
            None => r.is_ok(),
        },
        r.is_err() ==> *final(kernel) == *old(kernel),
        r.is_err() <==> old(kernel).kstack_allocator.next() > MAX_KSTACK_ID || old(kernel).frame_allocator@.free_count() < 6 || old(kernel).kernel_space.page_table.translation(
            kstack_pages(old(kernel).kstack_allocator.next() as int).0 as u64,
        ).is_some() || old(kernel).kernel_space.page_table.translation(
            (kstack_pages(old(kernel).kstack_allocator.next() as int).0 + 1) as u64,
        ).is_some(),
        r.is_ok() ==> {
            let id = r.unwrap().0;
            &&& id == old(kernel).kstack_allocator.next()
            &&& id <= MAX_KSTACK_ID
            &&& !old(kernel).kstack_allocator.in_use(id)
            &&& final(kernel).kstack_allocator.in_use(id)
            &&& forall|other: usize|
                other != id ==> final(kernel).kstack_allocator.in_use(other) == old(kernel).kstack_allocator.in_use(other)
            &&& final(kernel).kernel_space.areas@.len() == old(kernel).kernel_space.areas@.len() + 1
            &&& final(kernel).kernel_space.areas@.last().start() == kstack_pages(id as int).0
            &&& final(kernel).kernel_space.areas@.last().end() == kstack_pages(id as int).1
            &&& final(kernel).kernel_space.areas@.last().map_type == MapType::Framed
            &&& final(kernel).kernel_space.areas@.last().map_perm.bits == 6
            &&& final(kernel).machine == old(kernel).machine
            &&& final(kernel).pid_allocator == old(kernel).pid_allocator
            &&& final(kernel).processes == old(kernel).processes
            &&& final(kernel).threads == old(kernel).threads
            &&& final(kernel).task_manager == old(kernel).task_manager
            &&& final(kernel).processor == old(kernel).processor
            &&& final(kernel).timers == old(kernel).timers
            &&& final(kernel).files == old(kernel).files
            &&& final(kernel).pipes == old(kernel).pipes
            &&& final(kernel).initproc == old(kernel).initproc
            &&& final(kernel).console_out == old(kernel).console_out
            &&& final(kernel).console_in == old(kernel).console_in
            &&& forall|f: u64|
                old(kernel).frame_allocator@.in_use(f) ==> final(kernel).frame_allocator@.in_use(f)
            &&& forall|f: u64| #[trigger]
                final(kernel).kernel_space.owns(f) ==> old(kernel).kernel_space.owns(f) || !old(kernel).frame_allocator@.in_use(f)
        },
{
    let ghost k0 = *kernel;
    let ghost a0 = kernel.frame_allocator@;
    let id: usize = if kernel.kstack_allocator.recycled.len() > 0 {
        kernel.kstack_allocator.recycled[kernel.kstack_allocator.recycled.len() - 1]
    } else {
        kernel.kstack_allocator.current
    };
    if id > MAX_KSTACK_ID {
        return Err(MapError::OutOfFrames);
    }
    proof {
        lemma_complete_wf(k0.kernel_space, a0);
        lemma_wf_parts(k0.kernel_space, a0);
        lemma_kstack_pages(id as int);
    }
    if !kernel.frame_allocator.can_allocate(6) {
        return Err(MapError::OutOfFrames);
    }
    let (bottom, top) = kernel_stack_position(id);
    let first: u64 = VirtAddr::from(bottom).floor().0;
    if kernel.kernel_space.translate(VirtPageNum(first)).is_some() {
        return Err(MapError::AlreadyMapped);
    }
    if kernel.kernel_space.translate(VirtPageNum(first + 1)).is_some() {
        return Err(MapError::AlreadyMapped);
    }
    let got = kernel.kstack_allocator.allocate();
    let r = kernel.kernel_space.insert_framed_area(
        &mut kernel.frame_allocator,
        VirtAddr::from(bottom),
        VirtAddr::from(top),
        MapPermission::from_bits(6),
    );
    proof {
        assert(r.is_ok());
        lemma_grown_parts(
            &k0.kernel_space.page_table,
            a0,
            &kernel.kernel_space.page_table,
            kernel.frame_allocator@,
        );
        assert(kernel.spaces() =~= k0.spaces().update(0, Some(kernel.kernel_space)));
        lemma_spaces_step(k0.spaces(), a0, kernel.spaces(), kernel.frame_allocator@, 0);
        assert forall|pid: int| #[trigger] kernel.has_process(pid) implies {
            let p = kernel.process(pid);
            &&& p.pid.0 == pid
            &&& kernel.pid_allocator.in_use(pid as usize)
            &&& p.task_res_allocator.wf()
            &&& !p.is_zombie ==> p.memory_set.complete(kernel.frame_allocator@)
        } by {
            assert(k0.has_process(pid));
            assert(k0.spaces()[pid + 1] == Some(k0.process(pid).memory_set));
            assert(kernel.spaces()[pid + 1] == Some(kernel.process(pid).memory_set));
        }
        assert(threads_ok(kernel.threads@, kernel.kstack_allocator)) by {
            assert forall|other: usize| k0.kstack_allocator.in_use(other) implies kernel.kstack_allocator.in_use(
                other,
            ) by {}
            lemma_threads_more_stacks(k0.threads@, k0.kstack_allocator, kernel.kstack_allocator);
        }
        assert(kernel.kernel_space.complete(kernel.frame_allocator@));
        assert(spaces_wf(kernel.spaces(), kernel.frame_allocator@));
    }
    Ok(KernelStack(id))
}

/// Whether `k1` is `k0` but for the allocator of frames, which has changed
/// without taking back a frame of an address space of the kernel.
pub open spec fn only_frames_changed(k0: Kernel, k1: Kernel) -> bool {
    &&& k1.machine == k0.machine
    &&& k1.kernel_space == k0.kernel_space
    &&& k1.pid_allocator == k0.pid_allocator
    &&& k1.kstack_allocator == k0.kstack_allocator
    &&& k1.processes == k0.processes
    &&& k1.threads == k0.threads
    &&& k1.task_manager == k0.task_manager
    &&& k1.processor == k0.processor
    &&& k1.timers == k0.timers
    &&& k1.files == k0.files
    &&& k1.pipes == k0.pipes
    &&& k1.initproc == k0.initproc
    &&& k1.console_out == k0.console_out
    &&& k1.console_in == k0.console_in
}

/// A kernel stays in order when only its allocator of frames changes and no
/// frame of its address spaces is taken back.
pub proof fn lemma_kernel_other_allocator(k0: Kernel, k1: Kernel)
    requires
        k0.wf(),
        only_frames_changed(k0, k1),
        k1.frame_allocator@.wf(),
        k1.frame_allocator@.end == k0.frame_allocator@.end,
        forall|i: int, f: u64|
            0 <= i < k0.spaces().len() && k0.spaces()[i].is_some() && #[trigger] k0.spaces()[i].unwrap().owns(
                f,
            ) ==> k1.frame_allocator@.in_use(f),
    ensures
        k1.wf(),
{
    lemma_spaces_other_allocator(k0.spaces(), k0.frame_allocator@, k1.frame_allocator@);
    assert(k1.spaces() == k0.spaces());
    assert(k0.spaces()[0] == Some(k0.kernel_space));
    assert forall|pid: int| #[trigger] k1.has_process(pid) implies {
        let p = k1.process(pid);
        &&& p.pid.0 == pid
        &&& k1.pid_allocator.in_use(pid as usize)
        &&& p.task_res_allocator.wf()
        &&& !p.is_zombie ==> p.memory_set.complete(k1.frame_allocator@)
    } by {
        assert(k0.has_process(pid));
        assert(k0.spaces()[pid + 1] == Some(k0.process(pid).memory_set));
    }
}

/// A kernel stays in order when frames are handed out for something else.
pub proof fn lemma_kernel_mono(k0: Kernel, k1: Kernel)
    requires
        k0.wf(),
        only_frames_changed(k0, k1),
        k1.frame_allocator@.wf(),
        k1.frame_allocator@.end == k0.frame_allocator@.end,
        forall|f: u64| k0.frame_allocator@.in_use(f) ==> k1.frame_allocator@.in_use(f),
    ensures
        k1.wf(),
{
    assert forall|i: int, f: u64|
        0 <= i < k0.spaces().len() && k0.spaces()[i].is_some() && #[trigger] k0.spaces()[i].unwrap().owns(
            f,
        ) implies k1.frame_allocator@.in_use(f) by {
        lemma_owns_in_use(k0.spaces()[i].unwrap(), k0.frame_allocator@, f);
    }
    lemma_kernel_other_allocator(k0, k1);
}

/// No frame of `ms` belongs to an address space of the kernel.
pub open spec fn apart(k: Kernel, ms: MemorySet) -> bool {
    forall|i: int, f: u64|
        0 <= i < k.spaces().len() && k.spaces()[i].is_some() && #[trigger] k.spaces()[i].unwrap().owns(
            f,
        ) ==> !ms.owns(f)
}

/// The main thread of a new process `pid` with kernel stack `kstack` and
/// the given trap context, whose stack in the kernel is set to the top of
/// the kernel stack.
pub open spec fn main_thread(
    machine: Machine,
    pid: usize,
    kstack: KernelStack,
    ustack_base: u64,
    trap_cx_ppn: PhysPageNum,
    trap_cx: TrapContext,
    t: TaskControlBlock,
) -> bool {
    &&& t.process == pid
    &&& t.kstack == kstack
    &&& t.res == Some(TaskUserRes { tid: 0, ustack_base, process: pid })
    &&& t.trap_cx_ppn == trap_cx_ppn
    &&& t.trap_cx.x == trap_cx.x
    &&& t.trap_cx.sstatus == trap_cx.sstatus
    &&& t.trap_cx.sepc == trap_cx.sepc
    &&& t.trap_cx.kernel_satp == trap_cx.kernel_satp
    &&& t.trap_cx.trap_handler == trap_cx.trap_handler
    &&& t.trap_cx.kernel_sp == kstack_position(kstack.0 as int).1
    &&& t.task_cx.ra == machine.trap_return
    &&& t.task_cx.sp == kstack_position(kstack.0 as int).1
    &&& t.task_status == TaskStatus::Ready
    &&& t.exit_code.is_none()
    &&& t.resume == Resume::ToUser
}

/// A new process `pid` with the given address space, parent and file
/// descriptors and with main thread `handle`: it has not ended, has no
/// child, no pending signal and the default actions, and no mutex,
/// semaphore or condition variable.
pub open spec fn new_process(
    pid: usize,
    ms: MemorySet,
    parent: Option<usize>,
    fd_table: Seq<Option<usize>>,
    handle: usize,
    p: ProcessControlBlock,
) -> bool {
    &&& p.pid == PidHandle(pid)
    &&& p.registered
    &&& !p.is_zombie
    &&& p.memory_set == ms
    &&& p.parent == parent
    &&& p.children@.len() == 0
    &&& p.exit_code == 0
    &&& p.fd_table@ == fd_table
    &&& p.signals.bits == 0
    &&& p.signal_mask.bits == 0
    &&& p.handling_sig == -1
    &&& forall|i: int|
        0 <= i < 32 ==> p.signal_actions.table@[i].handler == 0 && p.signal_actions.table@[i].mask.bits
            == 40
    &&& !p.killed
    &&& !p.frozen
    &&& p.trap_ctx_backup.is_none()
    &&& p.tasks@ == seq![Some(handle)]
    &&& p.task_res_allocator.current == 1
    &&& p.task_res_allocator.recycled@.len() == 0
    &&& p.mutex_list@.len() == 0
    &&& p.semaphore_list@.len() == 0
    &&& p.condvar_list@.len() == 0
}

/// Makes a process of the address space `ms`, which was built with the
/// kernel's allocator and shares no frame with the kernel's address spaces:
/// makes a kernel stack, takes a number for the process, makes its main
/// thread with the given trap context, puts the process into the table of
/// processes and the thread last into the ready queue. The call fails just
/// where no kernel stack can be made, with the error that `kstack_error`
/// names; the frames of `ms` are given back then and nothing else changes.
pub fn install_process(
    kernel: &mut Kernel,
    ms: MemorySet,
    parent: Option<usize>,
    fd_table: Vec<Option<usize>>,
    ustack_base: u64,
    trap_cx: TrapContext,
) -> (r: Result<usize, MapError>)
    requires
        old(kernel).wf(),
        ms.complete(old(kernel).frame_allocator@),
        apart(*old(kernel), ms),
        old(kernel).pid_allocator.recycled@.len() > 0 || old(kernel).pid_allocator.current
            < usize::MAX,
    ensures
        final(kernel).wf(),
        final(kernel).threads@.len() >= old(kernel).threads@.len(),
        final(kernel).processes@.len() >= old(kernel).processes@.len(),
        final(kernel).pipes == old(kernel).pipes,
        match kstack_error(*old(kernel)) {
            Some(e) => r == Err::<usize, MapError>(e),
            None => r.is_ok(),
        },
        r.is_err() ==> only_frames_changed(*old(kernel), *final(kernel)),
        r.is_err() ==> forall|p: u64| #[trigger]
            final(kernel).frame_allocator@.in_use(p) == (old(kernel).frame_allocator@.in_use(p)
                && !ms.owns(p)),
        r.is_ok() ==> {
            let pid = r.unwrap();
            let handle = crate::task::process::first_free(
                old(kernel).threads@,
                old(kernel).threads@.len() as int,
            ) as usize;
            let kstack = KernelStack(old(kernel).kstack_allocator.next());
            &&& pid == old(kernel).pid_allocator.next()
            &&& !old(kernel).has_process(pid as int)
            &&& final(kernel).has_process(pid as int)
            &&& new_process(pid, ms, parent, fd_table@, handle, final(kernel).process(pid as int))
            &&& forall|other: int|
                other != pid ==> final(kernel).has_process(other) == old(kernel).has_process(other)
                    && (old(kernel).has_process(other) ==> final(kernel).processes@[other] == old(kernel).processes@[other])
            &&& !old(kernel).has_thread(handle as int)
            &&& final(kernel).has_thread(handle as int)
            &&& main_thread(
                old(kernel).machine,
                pid,
                kstack,
                ustack_base,
                match ms.translation((TRAMPOLINE_VPN - 1) as u64) {
                    Some(e) => PhysPageNum(crate::mm::page_table::pte_ppn(e.bits)),
                    None => PhysPageNum(0),
                },
                trap_cx,
                final(kernel).thread(handle as int),
            )
            &&& forall|other: int|
                other != handle ==> final(kernel).has_thread(other) == old(kernel).has_thread(other)
                    && (old(kernel).has_thread(other) ==> final(kernel).threads@[other] == old(kernel).threads@[other])
            &&& final(kernel).task_manager.ready_queue@ == old(kernel).task_manager.ready_queue@.push(
                handle,
            )
            &&& final(kernel).processor == old(kernel).processor
            &&& final(kernel).machine == old(kernel).machine
            &&& final(kernel).timers == old(kernel).timers
            &&& final(kernel).files == old(kernel).files
            &&& final(kernel).pipes == old(kernel).pipes
            &&& final(kernel).initproc == old(kernel).initproc
            &&& final(kernel).console_out == old(kernel).console_out
            &&& final(kernel).console_in == old(kernel).console_in
        },
{
    let ghost k0 = *kernel;
    let ghost a0 = kernel.frame_allocator@;
    proof {
        lemma_complete_wf(ms, a0);
        lemma_wf_parts(ms, a0);
    }
    let kstack = match kstack_alloc(kernel) {
        Err(e) => {
            proof {
                assert(*kernel == k0);
            }
            ms.release(&mut kernel.frame_allocator);
            proof {
                assert forall|i: int, f: u64|
                    0 <= i < k0.spaces().len() && k0.spaces()[i].is_some() && #[trigger] k0.spaces()[i].unwrap().owns(
                        f,
                    ) implies kernel.frame_allocator@.in_use(f) by {
                    lemma_owns_in_use(k0.spaces()[i].unwrap(), a0, f);
                }
                lemma_kernel_other_allocator(k0, *kernel);
            }
            return Err(e);
        },
        Ok(ks) => ks,
    };
    let ghost k1 = *kernel;
    let ghost a1 = kernel.frame_allocator@;
    proof {
        assert forall|f: u64| #[trigger] ms.owns(f) implies a1.in_use(f) by {
            lemma_owns_in_use(ms, a0, f);
        }
        lemma_wf_other_allocator(ms, a0, a1);
        assert(apart(k1, ms)) by {
            assert forall|i: int, f: u64|
                0 <= i < k1.spaces().len() && k1.spaces()[i].is_some() && #[trigger] k1.spaces()[i].unwrap().owns(
                    f,
                ) implies !ms.owns(f) by {
                if i == 0 {
                    assert(k1.spaces()[0] == Some(k1.kernel_space));
                    assert(k0.spaces()[0] == Some(k0.kernel_space));
                    if k0.kernel_space.owns(f) {
                        assert(k0.spaces()[0].unwrap().owns(f));
                    } else {
                        assert(!a0.in_use(f));
                        if ms.owns(f) {
                            lemma_owns_in_use(ms, a0, f);
                        }
                    }
                } else {
                    assert(k1.spaces()[i] == k0.spaces()[i]);
                    assert(k0.spaces()[i].unwrap().owns(f));
                }
            }
        }
    }
    let pid = kernel.pid_allocator.allocate();
    while kernel.processes.len() <= pid
        invariant
            kernel.processes@.len() >= k1.processes@.len(),
            forall|i: int| 0 <= i < k1.processes@.len() ==> kernel.processes@[i] == k1.processes@[i],
            forall|i: int| k1.processes@.len() <= i < kernel.processes@.len() ==> kernel.processes@[i].is_none(),
            kernel.machine == k1.machine,
            kernel.frame_allocator == k1.frame_allocator,
            kernel.kernel_space == k1.kernel_space,
            kernel.kstack_allocator == k1.kstack_allocator,
            kernel.threads == k1.threads,
            kernel.task_manager == k1.task_manager,
            kernel.processor == k1.processor,
            kernel.timers == k1.timers,
            kernel.files == k1.files,
            kernel.pipes == k1.pipes,
            kernel.initproc == k1.initproc,
            kernel.console_out == k1.console_out,
            kernel.console_in == k1.console_in,
            kernel.pid_allocator.wf(),
            kernel.pid_allocator.in_use(pid),
            forall|other: usize|
                other != pid ==> kernel.pid_allocator.in_use(other) == k1.pid_allocator.in_use(other),
        decreases pid + 1 - kernel.processes@.len(),
    {
        kernel.processes.push(None);
    }
    let handle = free_slot(&mut kernel.threads);
    let trap_cx_ppn = match ms.translate(VirtPageNum(TRAMPOLINE_VPN - 1)) {
        Some(e) => e.ppn(),
        None => PhysPageNum(0),
    };
    let kstack_top = kstack.get_top();
    let mut cx = trap_cx;
    cx.kernel_sp = kstack_top;
    let thread = TaskControlBlock {
        process: pid,
        kstack,
        res: Some(TaskUserRes { tid: 0, ustack_base, process: pid }),
        trap_cx_ppn,
        trap_cx: cx,
        task_cx: TaskContext::goto_trap_return(kstack_top, kernel.machine.trap_return),
        task_status: TaskStatus::Ready,
        exit_code: None,
        resume: Resume::ToUser,
        progress: 0,
    };
    let mut task_res_allocator = RecycleAllocator::new();
    let tid = task_res_allocator.allocate();
    let mut tasks: Vec<Option<usize>> = Vec::new();
    tasks.push(Some(handle));
    let process = ProcessControlBlock {
        pid: PidHandle(pid),
        registered: true,
        is_zombie: false,
        memory_set: ms,
        parent,
        children: Vec::new(),
        exit_code: 0,
        fd_table,
        signals: SignalFlags::empty(),
        signal_mask: SignalFlags::empty(),
        handling_sig: -1,
        signal_actions: SignalActions::default(),
        killed: false,
        frozen: false,
        trap_ctx_backup: None,
        tasks,
        task_res_allocator,
        mutex_list: Vec::new(),
        semaphore_list: Vec::new(),
        condvar_list: Vec::new(),
    };
    let ghost k2 = *kernel;
    proof {
        assert(!k1.has_process(pid as int)) by {
            if k1.has_process(pid as int) {
                assert(k1.pid_allocator.in_use(pid));
            }
        }
        assert(kernel.processes@[pid as int].is_none());
    }
    kernel.processes.set(pid, Some(process));
    kernel.threads.set(handle, Some(thread));
    kernel.task_manager.add(handle);
    proof {
        let s1 = k1.spaces();
        let s3 = kernel.spaces();
        assert(tasks@ =~= seq![Some(handle)]);
        assert(s3[pid + 1] == Some(ms));
        assert forall|j: int| 0 <= j < s1.len() && j != pid + 1 implies #[trigger] s3[j] == s1[j] by {
            if j > 0 {
                assert(kernel.processes@[j - 1] == k1.processes@[j - 1]);
            }
        }
        assert forall|j: int| s1.len() <= j < s3.len() && j != pid + 1 implies (
        #[trigger] s3[j]).is_none() by {
            assert(kernel.processes@[j - 1].is_none());
        }
        if pid + 1 < s1.len() {
            assert(s1[pid + 1].is_none());
        }
        lemma_spaces_insert(s1, a1, s3, pid + 1);
        assert(k1.spaces()[0] == Some(k1.kernel_space));
        assert forall|q: int| #[trigger] kernel.has_process(q) implies {
            let p = kernel.process(q);
            &&& p.pid.0 == q
            &&& kernel.pid_allocator.in_use(q as usize)
            &&& p.task_res_allocator.wf()
            &&& !p.is_zombie ==> p.memory_set.complete(kernel.frame_allocator@)
        } by {
            if q != pid {
                assert(k1.has_process(q));
                assert(kernel.processes@[q] == k1.processes@[q]);
            }
        }
        crate::task::process::lemma_first_free(k1.threads@, k1.threads@.len() as int);
        assert(threads_ok(kernel.threads@, kernel.kstack_allocator)) by {
            assert forall|g: int|
                0 <= g < k1.threads@.len() && g != handle && (#[trigger] k1.threads@[g]).is_some() implies k1.threads@[g].unwrap().kstack
                != kstack by {
                assert(k0.threads@[g].is_some());
                assert(k0.kstack_allocator.in_use(k0.threads@[g].unwrap().kstack.0));
            }
            lemma_threads_insert(k1.threads@, kernel.threads@, kernel.kstack_allocator, handle as int);
        }
        assert forall|other: int| other != pid implies kernel.has_process(other) == k0.has_process(
            other,
        ) && (k0.has_process(other) ==> kernel.processes@[other] == k0.processes@[other]) by {
            if 0 <= other < k1.processes@.len() {
                assert(kernel.processes@[other] == k1.processes@[other]);
            }
        }
    }
    Ok(pid)
}

/// Whether `k1` has the frames, the address spaces and the numbers of `k0`:
/// the same allocators and kernel address space, the same processes with
/// the same numbers and address spaces, ended or not as before, and the same
/// threads on the same kernel stacks.
pub open spec fn same_memory(k0: Kernel, k1: Kernel) -> bool {
    &&& k1.frame_allocator == k0.frame_allocator
    &&& k1.kernel_space == k0.kernel_space
    &&& k1.pid_allocator == k0.pid_allocator
    &&& k1.kstack_allocator == k0.kstack_allocator
    &&& k1.processes@.len() == k0.processes@.len()
    &&& forall|pid: int|
        0 <= pid < k0.processes@.len() ==> (#[trigger] k1.processes@[pid]).is_some()
            == k0.processes@[pid].is_some()
    &&& forall|pid: int| #[trigger]
        k0.has_process(pid) ==> {
            &&& k1.process(pid).pid == k0.process(pid).pid
            &&& k1.process(pid).memory_set == k0.process(pid).memory_set
            &&& k1.process(pid).is_zombie == k0.process(pid).is_zombie
            &&& k1.process(pid).task_res_allocator.wf()
        }
    &&& k1.threads@.len() == k0.threads@.len()
    &&& forall|h: int|
        0 <= h < k0.threads@.len() ==> (#[trigger] k1.threads@[h]).is_some()
            == k0.threads@[h].is_some()
    &&& forall|h: int| #[trigger] k0.has_thread(h) ==> k1.thread(h).kstack == k0.thread(h).kstack
}

/// A kernel whose frames, address spaces and numbers stay is in order as before.
pub proof fn lemma_same_memory(k0: Kernel, k1: Kernel)
    requires
        k0.wf(),
        same_memory(k0, k1),
    ensures
        k1.wf(),
{
    assert(k1.spaces() =~= k0.spaces()) by {
        assert forall|i: int| 0 <= i < k0.spaces().len() implies #[trigger] k1.spaces()[i]
            == k0.spaces()[i] by {
            if i > 0 {
                if k0.processes@[i - 1].is_some() {
                    assert(k0.has_process(i - 1));
                    assert(k1.processes@[i - 1].is_some());
                } else {
                    assert(k1.processes@[i - 1].is_some() == k0.processes@[i - 1].is_some());
                }
            }
        }
    }
    assert forall|pid: int| #[trigger] k1.has_process(pid) implies {
        let p = k1.process(pid);
        &&& p.pid.0 == pid
        &&& k1.pid_allocator.in_use(pid as usize)
        &&& p.task_res_allocator.wf()
        &&& !p.is_zombie ==> p.memory_set.complete(k1.frame_allocator@)
    } by {
        assert(k1.processes@[pid].is_some() == k0.processes@[pid].is_some());
        assert(k0.has_process(pid));
    }
    assert forall|h: int| 0 <= h < k0.threads@.len() && (#[trigger] k0.threads@[h]).is_some() implies k1.threads@[h].unwrap().kstack
        == k0.threads@[h].unwrap().kstack by {
        assert(k0.has_thread(h));
    }
    lemma_threads_same_stacks(k0.threads@, k1.threads@, k0.kstack_allocator);
}

impl ProcessControlBlock {
    /// A new process that runs the program of the ELF image `elf_data`: its
    /// address space is loaded from the image, its file descriptors 0, 1 and
    /// 2 are the input and, twice, the output of the console, and its main
    /// thread starts at the entry of the program on the user stack. The
    /// thread stands last in the ready queue. The call succeeds where
    /// `new_fits` holds; where it fails, what it took is given back and
    /// nothing but the allocator of frames has changed.
    pub fn new(kernel: &mut Kernel, elf_data: &[u8]) -> (r: Result<
        usize,
        crate::mm::memory_set::LoadError,
    >)
        requires
            old(kernel).wf(),
            old(kernel).pid_allocator.recycled@.len() > 0 || old(kernel).pid_allocator.current
                < usize::MAX,
        ensures
            final(kernel).wf(),
            final(kernel).threads@.len() >= old(kernel).threads@.len(),
            final(kernel).processes@.len() >= old(kernel).processes@.len(),
            final(kernel).pipes == old(kernel).pipes,
            r == Err::<usize, crate::mm::memory_set::LoadError>(
                crate::mm::memory_set::LoadError::InvalidElf,
            ) <==> crate::mm::elf::load_plan_of(elf_data@).is_none(),
            r != Err::<usize, crate::mm::memory_set::LoadError>(
                crate::mm::memory_set::LoadError::BadArguments,
            ),
            new_fits(*old(kernel), elf_data@) ==> r.is_ok(),
            r == Err::<usize, crate::mm::memory_set::LoadError>(
                crate::mm::memory_set::LoadError::Mapping(MapError::AlreadyMapped),
            ) ==> !sections_disjoint(crate::mm::elf::load_plan_of(elf_data@).unwrap().regions())
                || old(kernel).kernel_space.page_table.translation(
                kstack_pages(old(kernel).kstack_allocator.next() as int).0 as u64,
            ).is_some() || old(kernel).kernel_space.page_table.translation(
                (kstack_pages(old(kernel).kstack_allocator.next() as int).0 + 1) as u64,
            ).is_some(),
            r.is_err() ==> only_frames_changed(*old(kernel), *final(kernel)),
            r.is_ok() ==> {
                let pid = r.unwrap();
                let plan = crate::mm::elf::load_plan_of(elf_data@).unwrap();
                let p = final(kernel).process(pid as int);
                let handle = crate::task::process::first_free(
                    old(kernel).threads@,
                    old(kernel).threads@.len() as int,
                );
                let t = final(kernel).thread(handle);
                &&& pid == old(kernel).pid_allocator.next()
                &&& !old(kernel).has_process(pid as int)
                &&& final(kernel).has_process(pid as int)
                &&& final(kernel).has_thread(handle)
                &&& !p.is_zombie && p.parent.is_none() && p.children@.len() == 0 && p.exit_code == 0
                &&& p.signals.bits == 0
                &&& p.tasks@ == seq![Some(handle as usize)]
                &&& p.fd_table@.len() == 3
                &&& forall|fd: int|
                    0 <= fd < 3 ==> (#[trigger] p.fd_table@[fd]).is_some() && p.fd_table@[fd].unwrap()
                        < final(kernel).files@.len() && final(kernel).files@[p.fd_table@[fd].unwrap() as int].is_some()
                &&& final(kernel).files@[p.fd_table@[0].unwrap() as int].unwrap().kind is Stdin
                &&& final(kernel).files@[p.fd_table@[1].unwrap() as int].unwrap().kind is Stdout
                &&& final(kernel).files@[p.fd_table@[2].unwrap() as int].unwrap().kind is Stdout
                &&& p.memory_set.complete(final(kernel).frame_allocator@)
                &&& p.memory_set.built_for(plan.regions(), plan.regions().len() as int, MapType::Framed)
                &&& forall|k: int|
                    0 <= k < p.memory_set.areas@.len() ==> (#[trigger] p.memory_set.areas@[k]).loaded(
                        plan.region_data(elf_data@, k),
                    )
                &&& t.process == pid
                &&& t.task_status == TaskStatus::Ready
                &&& t.trap_cx.sepc == plan.entry_point
                &&& t.trap_cx.x@[2] == plan.user_stack_bottom + 8192
                &&& forall|i: int| 0 <= i < 32 && i != 2 ==> t.trap_cx.x@[i] == 0
                &&& t.trap_cx.sstatus == old(kernel).machine.user_sstatus
                &&& t.trap_cx.kernel_satp == old(kernel).kernel_space.page_table.token_value()
                &&& t.trap_cx.trap_handler == old(kernel).machine.trap_handler
                &&& t.trap_cx.kernel_sp == kstack_position(t.kstack.0 as int).1
                &&& t.res == Some(
                    TaskUserRes { tid: 0, ustack_base: plan.user_stack_bottom, process: pid },
                )
                &&& final(kernel).task_manager.ready_queue@ == old(kernel).task_manager.ready_queue@.push(
                    handle as usize,
                )
                &&& final(kernel).processor == old(kernel).processor
                &&& forall|other: int|
                    other != pid && old(kernel).has_process(other) ==> final(kernel).processes@[other]
                        == old(kernel).processes@[other]
                &&& forall|other: int|
                    other != handle && old(kernel).has_thread(other) ==> final(kernel).threads@[other]
                        == old(kernel).threads@[other]
            },
    {
        let ghost k0 = *kernel;
        let built = MemorySet::from_elf(
            &mut kernel.frame_allocator,
            elf_data,
            kernel.machine.strampoline,
        );
        proof {
            lemma_kernel_mono(k0, *kernel);
        }
        match built {
            Err(e) => Err(e),
            Ok((ms, user_stack_top, entry)) => {
                let ghost k1 = *kernel;
                proof {
                    assert(ms.fresh_since(k0.frame_allocator@));
                    assert(apart(k1, ms)) by {
                        assert forall|i: int, f: u64|
                            0 <= i < k1.spaces().len() && k1.spaces()[i].is_some() && #[trigger] k1.spaces()[i].unwrap().owns(
                                f,
                            ) implies !ms.owns(f) by {
                            assert(k1.spaces() == k0.spaces());
                            lemma_owns_in_use(k0.spaces()[i].unwrap(), k0.frame_allocator@, f);
                        }
                    }
                }
                let trap_cx = TrapContext::app_init_context(
                    entry,
                    user_stack_top,
                    kernel.kernel_space.token(),
                    0,
                    kernel.machine.trap_handler,
                    kernel.machine.user_sstatus,
                );
                let installed = install_process(
                    kernel,
                    ms,
                    None,
                    Vec::new(),
                    user_stack_top - crate::config::USER_STACK_SIZE,
                    trap_cx,
                );
                match installed {
                    Err(e) => Err(crate::mm::memory_set::LoadError::Mapping(e)),
                    Ok(pid) => {
                        let ghost k2 = *kernel;
                        let f0 = kernel.add_file(FileKind::Stdin);
                        let ghost fa = kernel.files@;
                        let f1 = kernel.add_file(FileKind::Stdout);
                        let ghost fb = kernel.files@;
                        let f2 = kernel.add_file(FileKind::Stdout);
                        proof {
                            crate::task::process::lemma_first_free(fa, fa.len() as int);
                            crate::task::process::lemma_first_free(fb, fb.len() as int);
                            assert(fa[f0 as int].is_some());
                            assert(fb[f0 as int].is_some());
                            assert(fb[f1 as int].is_some());
                        }
                        let mut fd_table: Vec<Option<usize>> = Vec::new();
                        fd_table.push(Some(f0));
                        fd_table.push(Some(f1));
                        fd_table.push(Some(f2));
                        let ghost k3 = *kernel;
                        let mut p = kernel.processes[pid].take().unwrap();
                        p.fd_table = fd_table;
                        kernel.processes.set(pid, Some(p));
                        proof {
                            assert(same_memory(k2, *kernel)) by {
                                assert forall|q: int| #[trigger] k2.has_process(q) implies {
                                    &&& kernel.process(q).pid == k2.process(q).pid
                                    &&& kernel.process(q).memory_set == k2.process(q).memory_set
                                    &&& kernel.process(q).is_zombie == k2.process(q).is_zombie
                                    &&& kernel.process(q).task_res_allocator.wf()
                                } by {}
                            }
                            lemma_same_memory(k2, *kernel);
                            assert forall|other: int|
                                other != pid && k0.has_process(other) implies kernel.processes@[other]
                                == k0.processes@[other] by {
                                assert(k1.has_process(other));
                                assert(k2.has_process(other));
                                assert(k2.processes@[other] == k1.processes@[other]);
                                assert(k3.processes@ == k2.processes@);
                                assert(kernel.processes@[other] == k3.processes@[other]);
                            }
                            crate::task::process::lemma_first_free(
                                k0.threads@,
                                k0.threads@.len() as int,
                            );
                            assert forall|other: int|
                                other != crate::task::process::first_free(
                                    k0.threads@,
                                    k0.threads@.len() as int,
                                ) && k0.has_thread(other) implies kernel.threads@[other]
                                == k0.threads@[other] by {
                                assert(k1.has_thread(other));
                                assert(k2.has_thread(other));
                                assert(k2.threads@[other] == k1.threads@[other]);
                            }
                            crate::task::process::lemma_first_free(
                                k2.files@,
                                k2.files@.len() as int,
                            );
                            assert(f0 != f1 && f1 != f2 && f0 != f2);
                        }
                        Ok(pid)
                    },
                }
            },
        }
    }
}

/// Whether thread `t` is the copy that a fork makes of thread `src` for
/// process `pid`: it has the registers of `src` but stands on its own
/// kernel stack.
pub open spec fn forked_thread(machine: Machine, pid: usize, src: TaskControlBlock, t: TaskControlBlock) -> bool {
    &&& t.process == pid
    &&& t.res.is_some()
    &&& src.res.is_some()
    &&& t.res.unwrap().tid == 0
    &&& t.res.unwrap().ustack_base == src.res.unwrap().ustack_base
    &&& t.res.unwrap().process == pid
    &&& t.trap_cx.x == src.trap_cx.x
    &&& t.trap_cx.sstatus == src.trap_cx.sstatus
    &&& t.trap_cx.sepc == src.trap_cx.sepc
    &&& t.trap_cx.kernel_satp == src.trap_cx.kernel_satp
    &&& t.trap_cx.trap_handler == src.trap_cx.trap_handler
    &&& t.trap_cx.kernel_sp == kstack_position(t.kstack.0 as int).1
    &&& t.task_cx.ra == machine.trap_return
    &&& t.task_cx.sp == kstack_position(t.kstack.0 as int).1
    &&& t.task_status == TaskStatus::Ready
    &&& t.exit_code.is_none()
}

/// The table of open files after each file that `fds` names has one more
/// file descriptor.
pub open spec fn files_shared(files: Seq<Option<OpenFile>>, fds: Seq<Option<usize>>, n: int) -> Seq<
    Option<OpenFile>,
>
    decreases n,
{
    if n <= 0 {
        files
    } else {
        let before = files_shared(files, fds, n - 1);
        match fds[n - 1] {
            Some(f) => if f < before.len() && before[f as int].is_some() && before[f as int].unwrap().refs
                < usize::MAX {
                before.update(
                    f as int,
                    Some(
                        OpenFile {
                            kind: before[f as int].unwrap().kind,
                            refs: (before[f as int].unwrap().refs + 1) as usize,
                        },
                    ),
                )
            } else {
                before
            },
            None => before,
        }
    }
}

impl Kernel {
    /// Gives each file that `fds` names one more file descriptor.
    pub fn share_files(&mut self, fds: &Vec<Option<usize>>)
        ensures
            final(self).files@ == files_shared(old(self).files@, fds@, fds@.len() as int),
            final(self).machine == old(self).machine,
            final(self).frame_allocator == old(self).frame_allocator,
            final(self).kernel_space == old(self).kernel_space,
            final(self).pid_allocator == old(self).pid_allocator,
            final(self).kstack_allocator == old(self).kstack_allocator,
            final(self).processes == old(self).processes,
            final(self).threads == old(self).threads,
            final(self).task_manager == old(self).task_manager,
            final(self).processor == old(self).processor,
            final(self).timers == old(self).timers,
            final(self).pipes == old(self).pipes,
            final(self).initproc == old(self).initproc,
            final(self).console_out == old(self).console_out,
            final(self).console_in == old(self).console_in,
    {
        let mut i: usize = 0;
        while i < fds.len()
            invariant
                0 <= i <= fds@.len(),
                self.files@ == files_shared(old(self).files@, fds@, i as int),
                self.machine == old(self).machine,
                self.frame_allocator == old(self).frame_allocator,
                self.kernel_space == old(self).kernel_space,
                self.pid_allocator == old(self).pid_allocator,
                self.kstack_allocator == old(self).kstack_allocator,
                self.processes == old(self).processes,
                self.threads == old(self).threads,
                self.task_manager == old(self).task_manager,
                self.processor == old(self).processor,
                self.timers == old(self).timers,
                self.pipes == old(self).pipes,
                self.initproc == old(self).initproc,
                self.console_out == old(self).console_out,
                self.console_in == old(self).console_in,
            decreases fds@.len() - i,
        {
            match fds[i] {
                Some(f) => {
                    if f < self.files.len() {
                        match self.files[f].take() {
                            Some(file) => {
                                if file.refs < usize::MAX {
                                    self.files.set(
                                        f,
                                        Some(OpenFile { kind: file.kind, refs: file.refs + 1 }),
                                    );
                                } else {
                                    self.files.set(f, Some(file));
                                }
                                assert(self.files@ =~= files_shared(
                                    old(self).files@,
                                    fds@,
                                    i as int + 1,
                                ));
                            },
                            None => {
                                assert(self.files@ =~= files_shared(
                                    old(self).files@,
                                    fds@,
                                    i as int + 1,
                                ));
                            },
                        }
                    }
                },
                None => {},
            }
            i += 1;
        }
    }
}

/// Whether process `parent` of kernel `k` can be copied for certain: no
/// region of its address space holds the trampoline page, the frames that
/// are free are enough for the copy, three for each page and three more, and
/// for a kernel stack, and a kernel stack can be made.
pub open spec fn fork_fits(k: Kernel, parent: int) -> bool {
    let space = k.process(parent).memory_set;
    let first = kstack_pages(k.kstack_allocator.next() as int).0;
    &&& !space.covered(TRAMPOLINE_VPN)
    &&& k.frame_allocator@.free_count() >= 9 + 3 * crate::mm::memory_set::sum_area_pages(
        space.areas@,
        space.areas@.len() as int,
    )
    &&& k.kstack_allocator.next() <= MAX_KSTACK_ID
    &&& k.kernel_space.page_table.translation(first as u64).is_none()
    &&& k.kernel_space.page_table.translation((first + 1) as u64).is_none()
}

impl ProcessControlBlock {
    /// A copy of process `parent`, which must have one thread: the child
    /// has a copy of the parent's address space in frames of its own, the
    /// parent's file descriptors, which stand for the same open files, and a
    /// main thread with the registers of the parent's thread on a kernel
    /// stack of its own. The child is the last child of the parent, and its
    /// thread stands last in the ready queue. The call succeeds where
    /// `fork_fits` holds; where it fails, what it took is given back and
    /// nothing but the allocator of frames has changed.
    pub fn fork(kernel: &mut Kernel, parent: usize) -> (r: Result<usize, MapError>)
        requires
            old(kernel).wf(),
            old(kernel).has_process(parent as int),
            !old(kernel).process(parent as int).is_zombie,
            old(kernel).process(parent as int).tasks@.len() == 1,
            old(kernel).process(parent as int).tasks@[0].is_some(),
            old(kernel).has_thread(old(kernel).process(parent as int).tasks@[0].unwrap() as int),
            old(kernel).thread(
                old(kernel).process(parent as int).tasks@[0].unwrap() as int,
            ).res.is_some(),
            old(kernel).pid_allocator.recycled@.len() > 0 || old(kernel).pid_allocator.current
                < usize::MAX,
        ensures
            final(kernel).wf(),
            final(kernel).threads@.len() >= old(kernel).threads@.len(),
            final(kernel).processes@.len() >= old(kernel).processes@.len(),
            final(kernel).pipes == old(kernel).pipes,
            fork_fits(*old(kernel), parent as int) ==> r.is_ok(),
            r == Err::<usize, MapError>(MapError::AlreadyMapped) ==> old(kernel).process(
                parent as int,
            ).memory_set.covered(TRAMPOLINE_VPN) || old(kernel).kernel_space.page_table.translation(
                kstack_pages(old(kernel).kstack_allocator.next() as int).0 as u64,
            ).is_some() || old(kernel).kernel_space.page_table.translation(
                (kstack_pages(old(kernel).kstack_allocator.next() as int).0 + 1) as u64,
            ).is_some(),
            r.is_err() ==> only_frames_changed(*old(kernel), *final(kernel)),
            r.is_ok() ==> {
                let pid = r.unwrap();
                let old_parent = old(kernel).process(parent as int);
                let p = final(kernel).process(pid as int);
                let handle = crate::task::process::first_free(
                    old(kernel).threads@,
                    old(kernel).threads@.len() as int,
                );
                &&& pid == old(kernel).pid_allocator.next()
                &&& pid != parent
                &&& !old(kernel).has_process(pid as int)
                &&& final(kernel).has_process(pid as int)
                &&& final(kernel).has_process(parent as int)
                &&& final(kernel).has_thread(handle)
                &&& !p.is_zombie && p.parent == Some(parent) && p.children@.len() == 0 && p.exit_code
                    == 0
                &&& p.signals.bits == 0
                &&& p.tasks@ == seq![Some(handle as usize)]
                &&& p.fd_table@ == old_parent.fd_table@
                &&& p.memory_set.complete(final(kernel).frame_allocator@)
                &&& p.memory_set.copy_of(&old_parent.memory_set, old_parent.memory_set.areas@.len() as int)
                &&& p.memory_set.areas@.len() == old_parent.memory_set.areas@.len()
                &&& forked_thread(
                    old(kernel).machine,
                    pid,
                    old(kernel).thread(old_parent.tasks@[0].unwrap() as int),
                    final(kernel).thread(handle),
                )
                &&& final(kernel).process(parent as int).children@ == old_parent.children@.push(pid)
                &&& final(kernel).process(parent as int).memory_set == old_parent.memory_set
                &&& final(kernel).process(parent as int).fd_table == old_parent.fd_table
                &&& final(kernel).process(parent as int).tasks == old_parent.tasks
                &&& final(kernel).files@ == files_shared(
                    old(kernel).files@,
                    old_parent.fd_table@,
                    old_parent.fd_table@.len() as int,
                )
                &&& final(kernel).task_manager.ready_queue@ == old(kernel).task_manager.ready_queue@.push(handle as usize)
                &&& final(kernel).processor == old(kernel).processor
                &&& forall|other: int|
                    other != handle && old(kernel).has_thread(other) ==> final(kernel).threads@[other]
                        == old(kernel).threads@[other]
                &&& forall|other: int|
                    other != pid && other != parent && old(kernel).has_process(other) ==> final(kernel).processes@[other] == old(kernel).processes@[other]
            },
    {
        let ghost k0 = *kernel;
        let ghost old_parent = k0.process(parent as int);
        let main = kernel.processes[parent].as_ref().unwrap().tasks[0].unwrap();
        let trap_cx = kernel.threads[main].as_ref().unwrap().trap_cx;
        let ustack_base = kernel.threads[main].as_ref().unwrap().res.unwrap().ustack_base;
        let built = MemorySet::from_existed_user(
            &mut kernel.frame_allocator,
            &kernel.processes[parent].as_ref().unwrap().memory_set,
            kernel.machine.strampoline,
        );
        proof {
            lemma_kernel_mono(k0, *kernel);
        }
        match built {
            Err(e) => Err(e),
            Ok(ms) => {
                let ghost k1 = *kernel;
                proof {
                    assert(apart(k1, ms)) by {
                        assert forall|i: int, f: u64|
                            0 <= i < k1.spaces().len() && k1.spaces()[i].is_some() && #[trigger] k1.spaces()[i].unwrap().owns(
                                f,
                            ) implies !ms.owns(f) by {
                            assert(k1.spaces() == k0.spaces());
                            lemma_owns_in_use(k0.spaces()[i].unwrap(), k0.frame_allocator@, f);
                        }
                    }
                }
                let installed = install_process(
                    kernel,
                    ms,
                    Some(parent),
                    Vec::new(),
                    ustack_base,
                    trap_cx,
                );
                match installed {
                    Err(e) => Err(e),
                    Ok(pid) => {
                        let ghost k2 = *kernel;
                        proof {
                            assert(k1.has_process(parent as int));
                            assert(k2.has_process(parent as int));
                            assert(k2.processes@[parent as int] == k1.processes@[parent as int]);
                        }
                        let mut pp = kernel.processes[parent].take().unwrap();
                        let mut fd_table: Vec<Option<usize>> = Vec::new();
                        let mut i: usize = 0;
                        while i < pp.fd_table.len()
                            invariant
                                0 <= i <= pp.fd_table@.len(),
                                fd_table@ == pp.fd_table@.take(i as int),
                            decreases pp.fd_table@.len() - i,
                        {
                            fd_table.push(pp.fd_table[i]);
                            i += 1;
                            assert(fd_table@ =~= pp.fd_table@.take(i as int));
                        }
                        assert(fd_table@ =~= pp.fd_table@);
                        pp.children.push(pid);
                        kernel.processes.set(parent, Some(pp));
                        let mut child = kernel.processes[pid].take().unwrap();
                        child.fd_table = fd_table;
                        kernel.processes.set(pid, Some(child));
                        let ghost k3 = *kernel;
                        proof {
                            assert(same_memory(k2, k3)) by {
                                assert forall|q: int| #[trigger] k2.has_process(q) implies {
                                    &&& k3.process(q).pid == k2.process(q).pid
                                    &&& k3.process(q).memory_set == k2.process(q).memory_set
                                    &&& k3.process(q).is_zombie == k2.process(q).is_zombie
                                    &&& k3.process(q).task_res_allocator.wf()
                                } by {}
                            }
                            lemma_same_memory(k2, k3);
                        }
                        let fds = &kernel.processes[pid].as_ref().unwrap().fd_table;
                        let mut copy: Vec<Option<usize>> = Vec::new();
                        let mut j: usize = 0;
                        while j < fds.len()
                            invariant
                                0 <= j <= fds@.len(),
                                copy@ == fds@.take(j as int),
                            decreases fds@.len() - j,
                        {
                            copy.push(fds[j]);
                            j += 1;
                            assert(copy@ =~= fds@.take(j as int));
                        }
                        assert(copy@ =~= fds@);
                        kernel.share_files(&copy);
                        proof {
                            assert(same_memory(k3, *kernel)) by {
                                assert forall|q: int| #[trigger] k3.has_process(q) implies {
                                    &&& kernel.process(q).pid == k3.process(q).pid
                                    &&& kernel.process(q).memory_set == k3.process(q).memory_set
                                    &&& kernel.process(q).is_zombie == k3.process(q).is_zombie
                                    &&& kernel.process(q).task_res_allocator.wf()
                                } by {}
                            }
                            lemma_same_memory(k3, *kernel);
                            crate::task::process::lemma_first_free(
                                k0.threads@,
                                k0.threads@.len() as int,
                            );
                            assert forall|other: int|
                                other != crate::task::process::first_free(
                                    k0.threads@,
                                    k0.threads@.len() as int,
                                ) && k0.has_thread(other) implies kernel.threads@[other]
                                == k0.threads@[other] by {
                                assert(k1.has_thread(other));
                                assert(k2.has_thread(other));
                                assert(k2.threads@[other] == k1.threads@[other]);
                            }
                            assert forall|other: int|
                                other != pid && other != parent && k0.has_process(
                                    other,
                                ) implies kernel.processes@[other] == k0.processes@[other] by {
                                assert(k1.has_process(other));
                                assert(k2.has_process(other));
                                assert(k2.processes@[other] == k1.processes@[other]);
                                assert(k3.processes@[other] == k2.processes@[other]);
                            }
                            assert(k2.has_thread(main as int));
                            assert(k1.has_thread(main as int));
                        }
                        Ok(pid)
                    },
                }
            },
        }
    }
}

/// Address of the string of argument `i` on the stack of a program whose
/// table of arguments lies at `argv_base`: the strings lie below the table,
/// each ended by a zero byte, the first argument highest.
pub open spec fn arg_addr(args: Seq<Vec<u8>>, argv_base: int, i: int) -> int
    decreases i + 1,
{
    if i < 0 {
        argv_base
    } else {
        arg_addr(args, argv_base, i - 1) - args[i]@.len() - 1
    }
}

/// Whether the program sees the bytes `data` from address `ptr` on.
pub open spec fn holds_bytes(ms: &MemorySet, ptr: int, data: Seq<u8>) -> bool {
    forall|i: int| 0 <= i < data.len() ==> #[trigger] seen(ms, (ptr + i) as u64) == Some(data[i])
}

/// Whether the stack of a program holds the first `n` arguments: for each,
/// its address in the table at `argv_base` and its string, ended by a zero
/// byte, at that address.
pub open spec fn holds_args(ms: &MemorySet, args: Seq<Vec<u8>>, argv_base: int, n: int) -> bool {
    forall|i: int|
        0 <= i < n ==> {
            &&& holds_bytes(
                ms,
                argv_base + 8 * i,
                vstd::bytes::spec_u64_to_le_bytes(#[trigger] arg_addr(args, argv_base, i) as u64),
            )
            &&& holds_bytes(ms, arg_addr(args, argv_base, i), args[i]@.push(0u8))
        }
}

/// The strings of more arguments lie lower.
pub proof fn lemma_arg_addr_mono(args: Seq<Vec<u8>>, argv_base: int, i: int, j: int)
    requires
        -1 <= i <= j,
    ensures
        arg_addr(args, argv_base, j) <= arg_addr(args, argv_base, i),
        i < j ==> arg_addr(args, argv_base, j) + args[j]@.len() + 1 <= arg_addr(args, argv_base, i),
    decreases j - i,
{
    if i < j {
        lemma_arg_addr_mono(args, argv_base, i, j - 1);
    }
}

/// Bytes that a program sees stay seen when only bytes at other addresses change.
pub proof fn lemma_holds_kept(m1: &MemorySet, m2: &MemorySet, ptr: int, data: Seq<u8>, lo: int, hi: int)
    requires
        holds_bytes(m1, ptr, data),
        0 <= ptr,
        ptr + data.len() <= u64::MAX,
        ptr + data.len() <= lo || hi <= ptr,
        forall|va: u64| !(lo <= va < hi) ==> #[trigger] seen(m2, va) == seen(m1, va),
    ensures
        holds_bytes(m2, ptr, data),
{
    assert forall|i: int| 0 <= i < data.len() implies #[trigger] seen(m2, (ptr + i) as u64) == Some(
        data[i],
    ) by {
        assert(seen(m1, (ptr + i) as u64) == Some(data[i]));
    }
}

/// One more argument on the stack: its address was stored in the table and
/// its string below the strings before it, and nothing else has changed.
pub proof fn lemma_args_step(
    m1: &MemorySet,
    m2: &MemorySet,
    m3: &MemorySet,
    args: Seq<Vec<u8>>,
    base: int,
    top: int,
    i: int,
)
    requires
        0 <= i < args.len(),
        args.len() < 0x1000_0000,
        base == top - 8 * (args.len() + 1),
        top <= u64::MAX,
        0 <= arg_addr(args, base, i),
        holds_args(m1, args, base, i),
        holds_bytes(m1, base + 8 * args.len(), vstd::bytes::spec_u64_to_le_bytes(0)),
        forall|va: u64|
            !(base + 8 * i <= va < base + 8 * i + 8) ==> #[trigger] seen(m2, va) == seen(m1, va),
        holds_bytes(
            m2,
            base + 8 * i,
            vstd::bytes::spec_u64_to_le_bytes(arg_addr(args, base, i) as u64),
        ),
        forall|va: u64|
            !(arg_addr(args, base, i) <= va < arg_addr(args, base, i - 1)) ==> #[trigger] seen(
                m3,
                va,
            ) == seen(m2, va),
        holds_bytes(m3, arg_addr(args, base, i), args[i]@.push(0u8)),
    ensures
        holds_args(m3, args, base, i + 1),
        holds_bytes(m3, base + 8 * args.len(), vstd::bytes::spec_u64_to_le_bytes(0)),
{
    vstd::bytes::lemma_auto_spec_u64_to_from_le_bytes();
    lemma_arg_addr_mono(args, base, -1, i);
    lemma_arg_addr_mono(args, base, -1, i - 1);
    let zero = vstd::bytes::spec_u64_to_le_bytes(0);
    lemma_holds_kept(m1, m2, base + 8 * args.len(), zero, base + 8 * i, base + 8 * i + 8);
    lemma_holds_kept(
        m2,
        m3,
        base + 8 * args.len(),
        zero,
        arg_addr(args, base, i),
        arg_addr(args, base, i - 1),
    );
    let word = vstd::bytes::spec_u64_to_le_bytes(arg_addr(args, base, i) as u64);
    lemma_holds_kept(m2, m3, base + 8 * i, word, arg_addr(args, base, i), arg_addr(args, base, i - 1));
    assert forall|j: int| 0 <= j < i + 1 implies {
        &&& holds_bytes(
            m3,
            base + 8 * j,
            vstd::bytes::spec_u64_to_le_bytes(#[trigger] arg_addr(args, base, j) as u64),
        )
        &&& holds_bytes(m3, arg_addr(args, base, j), args[j]@.push(0u8))
    } by {
        if j < i {
            let wj = vstd::bytes::spec_u64_to_le_bytes(arg_addr(args, base, j) as u64);
            lemma_arg_addr_mono(args, base, j, i - 1);
            lemma_arg_addr_mono(args, base, j, i);
            lemma_arg_addr_mono(args, base, -1, j);
            assert(holds_bytes(m1, base + 8 * j, wj));
            assert(holds_bytes(m1, arg_addr(args, base, j), args[j]@.push(0u8)));
            lemma_holds_kept(m1, m2, base + 8 * j, wj, base + 8 * i, base + 8 * i + 8);
            lemma_holds_kept(
                m2,
                m3,
                base + 8 * j,
                wj,
                arg_addr(args, base, i),
                arg_addr(args, base, i - 1),
            );
            lemma_holds_kept(
                m1,
                m2,
                arg_addr(args, base, j),
                args[j]@.push(0u8),
                base + 8 * i,
                base + 8 * i + 8,
            );
            lemma_holds_kept(
                m2,
                m3,
                arg_addr(args, base, j),
                args[j]@.push(0u8),
                arg_addr(args, base, i),
                arg_addr(args, base, i - 1),
            );
        }
    }
}

/// Whether the arguments `args` can be put on the stack that tops at
/// `stack_top` of the program with address space `ms`: they are fewer than
/// 2^28, the table of their addresses and their strings lie at addresses
/// that are not below 0 and not above the part of the address space that is
/// for programs, and the program can reach every byte from the last string
/// up to the top of the stack.
pub open spec fn arguments_fit(ms: &MemorySet, stack_top: u64, args: Seq<Vec<u8>>) -> bool {
    let base = stack_top - 8 * (args.len() + 1);
    let last = arg_addr(args, base, args.len() - 1);
    &&& args.len() < 0x1000_0000
    &&& stack_top <= crate::mm::user_buffer::USER_LIMIT
    &&& last >= 0
    &&& forall|va: u64| last <= va < stack_top ==> (#[trigger] seen(ms, va)).is_some()
}

/// Where the arguments fit, each piece of them can be stored, whatever has
/// been stored before.
pub proof fn lemma_fit_can_store(
    s0: &MemorySet,
    ms: &MemorySet,
    stack_top: u64,
    args: Seq<Vec<u8>>,
    ptr: u64,
    len: int,
)
    requires
        arguments_fit(s0, stack_top, args),
        forall|va: u64| (#[trigger] seen(ms, va)).is_some() == seen(s0, va).is_some(),
        arg_addr(args, stack_top - 8 * (args.len() + 1), args.len() - 1) <= ptr,
        0 <= len,
        ptr + len <= stack_top,
    ensures
        can_store(ms, ptr, len),
{
    assert forall|i: int| 0 <= i < len implies (#[trigger] seen(ms, (ptr + i) as u64)).is_some() by {
        assert(seen(s0, (ptr + i) as u64).is_some());
    }
}

/// What could be stored lies where the program could reach before anything
/// was stored.
pub proof fn lemma_stored_reach(s0: &MemorySet, ms: &MemorySet, ptr: u64, len: int)
    requires
        can_store(ms, ptr, len),
        forall|va: u64| (#[trigger] seen(ms, va)).is_some() == seen(s0, va).is_some(),
    ensures
        forall|va: u64| ptr <= va < ptr + len ==> (#[trigger] seen(s0, va)).is_some(),
{
    assert forall|va: u64| ptr <= va < ptr + len implies (#[trigger] seen(s0, va)).is_some() by {
        let i = va - ptr;
        assert(seen(ms, (ptr + i) as u64).is_some());
    }
}

/// Whether a program whose address space is made of the regions
/// `sections` can reach address `va`: the page of the address lies in one of
/// the regions and in the part of the address space that is for programs.
pub open spec fn reaches(sections: Seq<(u64, u64, u8)>, va: u64) -> bool {
    &&& va / 4096 < 0x400_0000
    &&& exists|j: int|
        0 <= j < sections.len() && #[trigger] crate::mm::memory_set::in_section(
            sections[j],
            (va / 4096) as u64,
        )
}

/// A program reaches just the addresses in the regions that its address
/// space was built for.
pub proof fn lemma_built_reach(ms: MemorySet, a: AllocatorState, sections: Seq<(u64, u64, u8)>, va: u64)
    requires
        ms.complete(a),
        ms.built_for(sections, sections.len() as int, MapType::Framed),
        ms.areas@.len() == sections.len(),
    ensures
        seen(&ms, va).is_some() == reaches(sections, va),
{
    reveal(seen);
    reveal(MemorySet::complete);
    reveal(MemorySet::wf);
    reveal(crate::mm::memory_set::MapArea::fits);
    let v = (va / 4096) as u64;
    crate::mm::user_buffer::lemma_area_holding(ms.areas@, v);
    let k = crate::mm::user_buffer::area_holding(ms.areas@, v);
    if reaches(sections, va) {
        let j = choose|j: int|
            0 <= j < sections.len() && #[trigger] crate::mm::memory_set::in_section(sections[j], v);
        let area = ms.areas@[j];
        assert(crate::mm::memory_set::is_section(area, sections[j], MapType::Framed));
        assert(area.contains(v));
        assert(area.mapped_in(&ms.page_table));
        assert(area.page_mapped(&ms.page_table, v));
        assert(area.slot(v).is_some());
        assert(0 <= k <= j);
        assert(ms.areas@[k].fits(&ms.page_table, a));
        assert(ms.areas@[k].contains(v));
        assert(k == j);
        let ppn = area.slot(v).unwrap().ppn.0;
        assert(a.in_use(ppn));
        crate::mm::page_table::lemma_pte_bits(ppn, area.map_perm.bits | 1);
        assert(ms.user_page(v).is_some());
    }
    if seen(&ms, va).is_some() {
        assert(ms.user_page(v).is_some());
        assert(k >= 0);
        assert(ms.areas@[k].fits(&ms.page_table, a));
        assert(ms.areas@[k].contains(v));
        assert(crate::mm::memory_set::is_section(ms.areas@[k], sections[k], MapType::Framed));
        assert(crate::mm::memory_set::in_section(sections[k], v));
    }
}

/// Whether the arguments `args` can be put on the user stack of the
/// program with load plan `plan`: as `arguments_fit` says of the address
/// space that is built for the plan.
pub open spec fn stack_holds(plan: crate::mm::elf::LoadPlanView, args: Seq<Vec<u8>>) -> bool {
    let top = plan.user_stack_bottom + 8192;
    let base = top - 8 * (args.len() + 1);
    let last = arg_addr(args, base, args.len() - 1);
    &&& args.len() < 0x1000_0000
    &&& top <= crate::mm::user_buffer::USER_LIMIT
    &&& last >= 0
    &&& forall|va: u64| last <= va < top ==> #[trigger] reaches(plan.regions(), va)
}

/// The arguments fit the address space that was built for a plan just
/// where the stack of the plan holds them.
pub proof fn lemma_stack_holds(
    ms: MemorySet,
    a: AllocatorState,
    plan: crate::mm::elf::LoadPlanView,
    args: Seq<Vec<u8>>,
)
    requires
        ms.complete(a),
        ms.built_for(plan.regions(), plan.regions().len() as int, MapType::Framed),
        ms.areas@.len() == plan.regions().len(),
        plan.user_stack_bottom + 8192 <= u64::MAX,
    ensures
        arguments_fit(&ms, (plan.user_stack_bottom + 8192) as u64, args) == stack_holds(plan, args),
{
    let top = (plan.user_stack_bottom + 8192) as u64;
    let base = top - 8 * (args.len() + 1);
    let last = arg_addr(args, base, args.len() - 1);
    if arguments_fit(&ms, top, args) {
        assert forall|va: u64| last <= va < top implies #[trigger] reaches(plan.regions(), va) by {
            lemma_built_reach(ms, a, plan.regions(), va);
            assert(seen(&ms, va).is_some());
        }
    }
    if stack_holds(plan, args) {
        assert forall|va: u64| last <= va < top implies (#[trigger] seen(&ms, va)).is_some() by {
            lemma_built_reach(ms, a, plan.regions(), va);
            assert(reaches(plan.regions(), va));
        }
    }
}

/// Whether the image `elf` can be loaded in kernel `k` for certain, with
/// `spare` frames left over: it has a load plan, its regions share no page,
/// and there are three free frames for each page of them, three more, and
/// the spare ones.
pub open spec fn load_fits(k: Kernel, elf: Seq<u8>, spare: int) -> bool {
    let plan = crate::mm::elf::load_plan_of(elf);
    &&& plan.is_some()
    &&& sections_disjoint(plan.unwrap().regions())
    &&& k.frame_allocator@.free_count() >= 3 + spare + 3 * sum_pages(
        plan.unwrap().regions(),
        plan.unwrap().regions().len() as int,
    )
}

/// Whether a process can be made of the image `elf` for certain: the image
/// can be loaded with six frames to spare for a kernel stack, and a kernel
/// stack can be made.
pub open spec fn new_fits(k: Kernel, elf: Seq<u8>) -> bool {
    let first = kstack_pages(k.kstack_allocator.next() as int).0;
    &&& load_fits(k, elf, 6)
    &&& k.kstack_allocator.next() <= MAX_KSTACK_ID
    &&& k.kernel_space.page_table.translation(first as u64).is_none()
    &&& k.kernel_space.page_table.translation((first + 1) as u64).is_none()
}

/// Whether a process can take up the program of the image `elf` with the
/// arguments `args` for certain: the image can be loaded, and its user stack
/// holds the arguments.
pub open spec fn exec_fits(k: Kernel, elf: Seq<u8>, args: Seq<Vec<u8>>) -> bool {
    load_fits(k, elf, 0) && stack_holds(crate::mm::elf::load_plan_of(elf).unwrap(), args)
}

/// Puts the arguments of a program on its stack, which tops at `stack_top`:
/// the table of the addresses of the strings, ended by a zero, just below
/// the top, and the strings below it. Gives the address of the table and the
/// stack pointer, which lies at or below the last string at a multiple of
/// eight. `None` just where the arguments do not fit as `arguments_fit`
/// says; some of the bytes may then be written.
pub fn push_arguments(ms: &mut MemorySet, stack_top: u64, args: &Vec<Vec<u8>>) -> (r: Option<
    (u64, u64),
>)
    requires
        old(ms).page_table.frames_wf(),
        old(ms).areas_wf(),
    ensures
        final(ms).same_frames(old(ms)),
        r.is_some() == arguments_fit(old(ms), stack_top, args@),
        forall|va: u64| (#[trigger] seen(final(ms), va)).is_some() == seen(old(ms), va).is_some(),
        r.is_some() ==> {
            let (argv_base, sp) = r.unwrap();
            let last = arg_addr(args@, argv_base as int, args@.len() - 1);
            &&& argv_base == stack_top - 8 * (args@.len() + 1)
            &&& sp == last - last % 8
            &&& holds_args(final(ms), args@, argv_base as int, args@.len() as int)
            &&& holds_bytes(
                final(ms),
                argv_base + 8 * args@.len(),
                vstd::bytes::spec_u64_to_le_bytes(0),
            )
            &&& forall|va: u64|
                !(sp <= va < stack_top) ==> #[trigger] seen(final(ms), va) == seen(old(ms), va)
        },
{
    let n: usize = args.len();
    proof {
        lemma_same_frames_refl(*old(ms));
        vstd::bytes::lemma_auto_spec_u64_to_from_le_bytes();
    }
    let ghost s0 = *old(ms);
    let ghost base = stack_top - 8 * (n + 1);
    let ghost last = arg_addr(args@, base, n - 1);
    proof {
        lemma_arg_addr_mono(args@, base, -1, n - 1);
    }
    if n as u128 >= 0x1000_0000 || (stack_top as u128) < 8 * (n as u128 + 1) {
        return None;
    }
    let argv_base: u64 = stack_top - 8 * (n as u64 + 1);
    let zero = vstd::bytes::u64_to_le_bytes(0);
    proof {
        if arguments_fit(&s0, stack_top, args@) {
            lemma_fit_can_store(&s0, &s0, stack_top, args@, (argv_base + 8 * n) as u64, 8);
        }
    }
    if !store_bytes(ms, argv_base + 8 * n as u64, zero.as_slice()) {
        return None;
    }
    proof {
        lemma_stored_reach(&s0, &s0, (argv_base + 8 * n) as u64, 8);
    }
    let mut sp: u64 = argv_base;
    let mut i: usize = 0;
    while i < n
        invariant
            0 <= i <= n,
            n == args@.len(),
            n < 0x1000_0000,
            s0 == *old(ms),
            argv_base == stack_top - 8 * (n + 1),
            sp == arg_addr(args@, argv_base as int, i - 1),
            sp <= argv_base,
            ms.page_table.frames_wf(),
            ms.areas_wf(),
            ms.same_frames(&s0),
            holds_args(ms, args@, argv_base as int, i as int),
            holds_bytes(ms, argv_base + 8 * n, vstd::bytes::spec_u64_to_le_bytes(0)),
            forall|va: u64| !(sp <= va < stack_top) ==> #[trigger] seen(ms, va) == seen(&s0, va),
            base == argv_base,
            last == arg_addr(args@, base, n - 1),
            stack_top <= crate::mm::user_buffer::USER_LIMIT,
            forall|va: u64| (#[trigger] seen(ms, va)).is_some() == seen(&s0, va).is_some(),
            forall|va: u64|
                (sp <= va < argv_base + 8 * i || argv_base + 8 * n <= va < stack_top) ==> (
                #[trigger] seen(&s0, va)).is_some(),
        decreases n - i,
    {
        let arg = &args[i];
        let len: usize = arg.len();
        proof {
            lemma_arg_addr_mono(args@, base, i as int, n - 1);
            assert(arg_addr(args@, base, i as int) == sp - len - 1);
        }
        if len as u128 + 1 > sp as u128 {
            return None;
        }
        let addr: u64 = sp - (len as u64 + 1);
        let ghost s1 = *ms;
        let word = vstd::bytes::u64_to_le_bytes(addr);
        proof {
            if arguments_fit(&s0, stack_top, args@) {
                lemma_fit_can_store(&s0, &s1, stack_top, args@, (argv_base + 8 * i) as u64, 8);
            }
        }
        if !store_bytes(ms, argv_base + 8 * i as u64, word.as_slice()) {
            return None;
        }
        proof {
            lemma_stored_reach(&s0, &s1, (argv_base + 8 * i) as u64, 8);
        }
        let ghost s2 = *ms;
        let mut text: Vec<u8> = Vec::new();
        let mut k: usize = 0;
        while k < len
            invariant
                0 <= k <= len,
                len == arg@.len(),
                text@ == arg@.take(k as int),
            decreases len - k,
        {
            text.push(arg[k]);
            k += 1;
            assert(text@ =~= arg@.take(k as int));
        }
        text.push(0u8);
        assert(text@ =~= arg@.push(0u8)) by {
            assert(arg@.take(len as int) =~= arg@);
        }
        proof {
            if arguments_fit(&s0, stack_top, args@) {
                lemma_fit_can_store(&s0, &s2, stack_top, args@, addr, len + 1);
            }
        }
        if !store_bytes(ms, addr, text.as_slice()) {
            return None;
        }
        proof {
            lemma_stored_reach(&s0, &s2, addr, len + 1);
            lemma_same_frames_trans(s2, s1, s0);
            lemma_same_frames_trans(*ms, s2, s0);
            assert(arg_addr(args@, argv_base as int, i as int) == addr);
            lemma_args_step(
                &s1,
                &s2,
                ms,
                args@,
                argv_base as int,
                stack_top as int,
                i as int,
            );
            assert forall|va: u64| !(addr <= va < stack_top) implies #[trigger] seen(ms, va) == seen(
                &s0,
                va,
            ) by {
                assert(seen(&s1, va) == seen(&s0, va));
                assert(seen(&s2, va) == seen(&s1, va));
                assert(seen(ms, va) == seen(&s2, va));
            }
        }
        sp = addr;
        i += 1;
    }
    let aligned: u64 = sp - sp % 8;
    Some((argv_base, aligned))
}

impl ProcessControlBlock {
    /// Makes process `pid`, which must have one thread, run the program of
    /// the ELF image `elf_data` with the arguments `args`: the process gets
    /// the address space of the program, with the arguments on the stack,
    /// its old address space is given back, and its thread starts at the
    /// entry of the program with the number of the arguments in register
    /// `a0` and the address of their table in `a1`. Where the image cannot
    /// be loaded or the arguments do not fit, the process stays as it is.
    /// The call succeeds where `exec_fits` holds, and it fails because of the
    /// arguments just where the image is loaded and its stack does not hold
    /// them as `stack_holds` says.
    pub fn exec(kernel: &mut Kernel, pid: usize, elf_data: &[u8], args: &Vec<Vec<u8>>) -> (r: Result<
        (),
        crate::mm::memory_set::LoadError,
    >)
        requires
            old(kernel).wf(),
            old(kernel).has_process(pid as int),
            !old(kernel).process(pid as int).is_zombie,
            old(kernel).process(pid as int).tasks@.len() == 1,
            old(kernel).process(pid as int).tasks@[0].is_some(),
            old(kernel).has_thread(old(kernel).process(pid as int).tasks@[0].unwrap() as int),
            old(kernel).thread(old(kernel).process(pid as int).tasks@[0].unwrap() as int).process
                == pid,
        ensures
            final(kernel).wf(),
            final(kernel).threads@.len() >= old(kernel).threads@.len(),
            final(kernel).processes@.len() >= old(kernel).processes@.len(),
            final(kernel).pipes == old(kernel).pipes,
            r == Err::<(), crate::mm::memory_set::LoadError>(
                crate::mm::memory_set::LoadError::InvalidElf,
            ) <==> crate::mm::elf::load_plan_of(elf_data@).is_none(),
            exec_fits(*old(kernel), elf_data@, args@) ==> r.is_ok(),
            load_fits(*old(kernel), elf_data@, 0) && !stack_holds(
                crate::mm::elf::load_plan_of(elf_data@).unwrap(),
                args@,
            ) ==> r == Err::<(), crate::mm::memory_set::LoadError>(
                crate::mm::memory_set::LoadError::BadArguments,
            ),
            r == Err::<(), crate::mm::memory_set::LoadError>(
                crate::mm::memory_set::LoadError::BadArguments,
            ) ==> crate::mm::elf::load_plan_of(elf_data@).is_some() && !stack_holds(
                crate::mm::elf::load_plan_of(elf_data@).unwrap(),
                args@,
            ),
            r == Err::<(), crate::mm::memory_set::LoadError>(
                crate::mm::memory_set::LoadError::Mapping(MapError::AlreadyMapped),
            ) ==> !sections_disjoint(crate::mm::elf::load_plan_of(elf_data@).unwrap().regions()),
            r.is_err() ==> only_frames_changed(*old(kernel), *final(kernel)),
            r.is_ok() ==> {
                let plan = crate::mm::elf::load_plan_of(elf_data@).unwrap();
                let p0 = old(kernel).process(pid as int);
                let p = final(kernel).process(pid as int);
                let h = p0.tasks@[0].unwrap() as int;
                let t0 = old(kernel).thread(h);
                let t = final(kernel).thread(h);
                let top = plan.user_stack_bottom + 8192;
                let argv_base = top - 8 * (args@.len() + 1);
                let last = arg_addr(args@, argv_base, args@.len() - 1);
                &&& final(kernel).has_process(pid as int)
                &&& final(kernel).has_thread(h)
                &&& p.memory_set.complete(final(kernel).frame_allocator@)
                &&& p.memory_set.built_for(plan.regions(), plan.regions().len() as int, MapType::Framed)
                &&& p.memory_set.areas@.len() == plan.regions().len()
                &&& holds_args(&p.memory_set, args@, argv_base, args@.len() as int)
                &&& holds_bytes(
                    &p.memory_set,
                    argv_base + 8 * args@.len(),
                    vstd::bytes::spec_u64_to_le_bytes(0),
                )
                &&& p.pid == p0.pid && p.parent == p0.parent && p.children == p0.children
                    && p.fd_table == p0.fd_table && p.tasks == p0.tasks && p.signals == p0.signals
                    && !p.is_zombie
                &&& t.process == pid && t.kstack == t0.kstack && t.task_status == t0.task_status
                &&& t.res == Some(
                    TaskUserRes { tid: 0, ustack_base: plan.user_stack_bottom, process: pid },
                )
                &&& t.trap_cx.sepc == plan.entry_point
                &&& t.trap_cx.x@[2] == last - last % 8
                &&& t.trap_cx.x@[10] == args@.len()
                &&& t.trap_cx.x@[11] == argv_base
                &&& forall|i: int|
                    0 <= i < 32 && i != 2 && i != 10 && i != 11 ==> t.trap_cx.x@[i] == 0
                &&& t.trap_cx.sstatus == old(kernel).machine.user_sstatus
                &&& t.trap_cx.kernel_satp == old(kernel).kernel_space.page_table.token_value()
                &&& t.trap_cx.kernel_sp == kstack_position(t.kstack.0 as int).1
                &&& t.trap_cx.trap_handler == old(kernel).machine.trap_handler
                &&& final(kernel).task_manager == old(kernel).task_manager
                &&& final(kernel).processor == old(kernel).processor
                &&& final(kernel).files == old(kernel).files
                &&& forall|other: int|
                    other != pid && old(kernel).has_process(other) ==> final(kernel).processes@[other]
                        == old(kernel).processes@[other]
                &&& forall|other: int|
                    other != h && old(kernel).has_thread(other) ==> final(kernel).threads@[other]
                        == old(kernel).threads@[other]
            },
    {
        let ghost k0 = *kernel;
        let ghost a0 = kernel.frame_allocator@;
        let built = MemorySet::from_elf(
            &mut kernel.frame_allocator,
            elf_data,
            kernel.machine.strampoline,
        );
        proof {
            lemma_kernel_mono(k0, *kernel);
        }
        let (mut ms, user_stack_top, entry) = match built {
            Err(e) => {
                return Err(e);
            },
            Ok(b) => b,
        };
        let ghost k1 = *kernel;
        let ghost a1 = kernel.frame_allocator@;
        let ghost ms1 = ms;
        proof {
            lemma_complete_wf(ms1, a1);
            lemma_wf_parts(ms1, a1);
            reveal(MemorySet::wf);
            reveal(crate::mm::memory_set::MapArea::fits);
        }
        proof {
            lemma_stack_holds(ms1, a1, crate::mm::elf::load_plan_of(elf_data@).unwrap(), args@);
        }
        let pushed = push_arguments(&mut ms, user_stack_top, args);
        proof {
            crate::mm::user_buffer::lemma_same_frames_wf(ms, ms1, a1);
        }
        let (argv_base, user_sp) = match pushed {
            None => {
                proof {
                    assert forall|i: int, f: u64|
                        0 <= i < k1.spaces().len() && k1.spaces()[i].is_some() && #[trigger] k1.spaces()[i].unwrap().owns(
                            f,
                        ) implies !ms.owns(f) by {
                        assert(k1.spaces() == k0.spaces());
                        lemma_owns_in_use(k0.spaces()[i].unwrap(), a0, f);
                        assert(ms.owns(f) == ms1.owns(f));
                    }
                }
                ms.release(&mut kernel.frame_allocator);
                proof {
                    assert forall|i: int, f: u64|
                        0 <= i < k1.spaces().len() && k1.spaces()[i].is_some() && #[trigger] k1.spaces()[i].unwrap().owns(
                            f,
                        ) implies kernel.frame_allocator@.in_use(f) by {
                        lemma_owns_in_use(k1.spaces()[i].unwrap(), a1, f);
                    }
                    lemma_kernel_other_allocator(k1, *kernel);
                }
                return Err(crate::mm::memory_set::LoadError::BadArguments);
            },
            Some(p) => p,
        };
        let h = kernel.processes[pid].as_ref().unwrap().tasks[0].unwrap();
        let mut p = kernel.processes[pid].take().unwrap();
        let ghost old_ms = p.memory_set;
        let ghost new_ms = ms;
        core::mem::swap(&mut p.memory_set, &mut ms);
        proof {
            assert(k1.spaces()[pid + 1] == Some(old_ms));
            assert(old_ms.wf(a1));
        }
        ms.release(&mut kernel.frame_allocator);
        let trap_cx_ppn = match p.memory_set.translate(VirtPageNum(TRAMPOLINE_VPN - 1)) {
            Some(e) => e.ppn(),
            None => PhysPageNum(0),
        };
        kernel.processes.set(pid, Some(p));
        let mut t = kernel.threads[h].take().unwrap();
        let kstack_top = t.kstack.get_top();
        let mut cx = TrapContext::app_init_context(
            entry,
            user_sp,
            kernel.kernel_space.token(),
            kstack_top,
            kernel.machine.trap_handler,
            kernel.machine.user_sstatus,
        );
        cx.x[10] = args.len() as u64;
        cx.x[11] = argv_base;
        t.res = Some(
            TaskUserRes {
                tid: 0,
                ustack_base: user_stack_top - crate::config::USER_STACK_SIZE,
                process: pid,
            },
        );
        t.trap_cx_ppn = trap_cx_ppn;
        t.trap_cx = cx;
        kernel.threads.set(h, Some(t));
        proof {
            let a2 = kernel.frame_allocator@;
            let s0 = k0.spaces();
            let s2 = kernel.spaces();
            assert(s0[pid + 1] == Some(old_ms));
            assert(s2[pid + 1] == Some(new_ms));
            assert forall|f: u64| #[trigger] new_ms.owns(f) implies a2.in_use(f) && !a0.in_use(f) by {
                assert(ms1.owns(f));
                lemma_owns_in_use(ms1, a1, f);
                if old_ms.owns(f) {
                    lemma_owns_in_use(old_ms, a0, f);
                }
            }
            lemma_wf_other_allocator(new_ms, a1, a2);
            assert forall|j: int| 0 <= j < s0.len() && j != pid + 1 implies #[trigger] s2[j]
                == s0[j] by {
                if j > 0 {
                    assert(kernel.processes@[j - 1] == k0.processes@[j - 1]);
                }
            }
            assert forall|f: u64| a0.in_use(f) && !#[trigger] a2.in_use(f) implies s0[pid + 1].unwrap().owns(
                f,
            ) by {
                assert(a1.in_use(f));
            }
            lemma_spaces_step(s0, a0, s2, a2, pid + 1);
            assert(s0[0] == Some(k0.kernel_space));
            assert(s2[0] == Some(kernel.kernel_space));
            assert forall|q: int| #[trigger] kernel.has_process(q) implies {
                let pr = kernel.process(q);
                &&& pr.pid.0 == q
                &&& kernel.pid_allocator.in_use(q as usize)
                &&& pr.task_res_allocator.wf()
                &&& !pr.is_zombie ==> pr.memory_set.complete(kernel.frame_allocator@)
            } by {
                assert(k0.has_process(q));
                if q != pid {
                    assert(kernel.processes@[q] == k0.processes@[q]);
                    assert(s0[q + 1] == Some(k0.process(q).memory_set));
                    assert(s2[q + 1] == Some(kernel.process(q).memory_set));
                }
            }
            assert forall|g: int|
                0 <= g < k0.threads@.len() && (#[trigger] k0.threads@[g]).is_some() implies kernel.threads@[g].unwrap().kstack
                == k0.threads@[g].unwrap().kstack by {
                if g != h {
                    assert(kernel.threads@[g] == k0.threads@[g]);
                }
            }
            assert forall|g: int| 0 <= g < k0.threads@.len() implies (#[trigger] kernel.threads@[g]).is_some()
                == k0.threads@[g].is_some() by {
                if g != h {
                    assert(kernel.threads@[g] == k0.threads@[g]);
                }
            }
            lemma_threads_same_stacks(k0.threads@, kernel.threads@, k0.kstack_allocator);
        }
        Ok(())
    }
}

} // verus!
