//! The user stack and the trap context of a thread in the address space of
//! its process.
use vstd::prelude::*;
use super::id::{
    trap_cx_bottom, trap_cx_bottom_from_tid, ustack_bottom, ustack_bottom_from_tid, TaskUserRes,
    MAX_TID,
};
use crate::mm::address::{lemma_low_39, pages_up, PhysPageNum, VirtAddr};
use crate::mm::frame_allocator::StackFrameAllocator;
use crate::mm::memory_set::{
    first_starting_at, MapArea, MapPermission, MapType, MemorySet, VPN_LIMIT,
};
use crate::mm::page_table::MapError;

verus! {

/// The table of regions without the first region that starts at page `vpn`.
pub open spec fn without_start(areas: Seq<MapArea>, vpn: u64) -> Seq<MapArea> {
    if first_starting_at(areas, vpn) >= 0 {
        areas.remove(first_starting_at(areas, vpn))
    } else {
        areas
    }
}

impl TaskUserRes {
    /// The number of the thread is in range, and its user stack lies in the
    /// part of the address space that is for programs.
    pub open spec fn fits(&self) -> bool {
        &&& self.tid <= MAX_TID
        &&& self.ustack_base + self.tid * 12288 + 8192 <= 0x40_0000_0000
    }

    /// The first page of the user stack of the thread.
    pub open spec fn stack_page(&self) -> u64 {
        (ustack_bottom(self.ustack_base as int, self.tid as int) / 4096) as u64
    }

    /// The page behind the last page that the user stack touches.
    pub open spec fn stack_end_page(&self) -> u64 {
        pages_up(ustack_bottom(self.ustack_base as int, self.tid as int) + 8192) as u64
    }

    /// The page of the trap context of the thread.
    pub open spec fn trap_page(&self) -> u64 {
        (0x7ff_fffe - self.tid) as u64
    }

    /// Where the pages of the thread lie.
    pub proof fn lemma_pages(&self)
        requires
            self.fits(),
        ensures
            (ustack_bottom(self.ustack_base as int, self.tid as int) as u64) & 0x7f_ffff_ffff
                == ustack_bottom(self.ustack_base as int, self.tid as int),
            (ustack_bottom(self.ustack_base as int, self.tid as int) + 8192) as u64 & 0x7f_ffff_ffff
                == ustack_bottom(self.ustack_base as int, self.tid as int) + 8192,
            self.stack_page() <= self.stack_end_page() <= 0x400_0001,
            (trap_cx_bottom(self.tid as int) as u64 & 0x7f_ffff_ffff) / 4096 == self.trap_page(),
            pages_up(((trap_cx_bottom(self.tid as int) + 4096) as u64 & 0x7f_ffff_ffff) as int)
                == self.trap_page() + 1,
            0x400_0001 < self.trap_page() < VPN_LIMIT,
    {
        let b = ustack_bottom(self.ustack_base as int, self.tid as int) as u64;
        lemma_low_39(b);
        lemma_low_39((b + 8192) as u64);
        let t = trap_cx_bottom(self.tid as int) as u64;
        let e = (t + 4096) as u64;
        lemma_low_39(t);
        lemma_low_39(e);
        let d = self.tid * 4096;
        assert(t == 0x1ff_ffff * 0x80_0000_0000 + (0x80_0000_0000 - 8192 - d));
        assert(e == 0x1ff_ffff * 0x80_0000_0000 + (0x80_0000_0000 - 4096 - d));
        assert(t % 0x80_0000_0000 == 0x80_0000_0000 - 8192 - d) by (nonlinear_arith)
            requires
                t == 0x1ff_ffff * 0x80_0000_0000 + (0x80_0000_0000 - 8192 - d),
                0 <= 0x80_0000_0000 - 8192 - d < 0x80_0000_0000,
        ;
        assert(e % 0x80_0000_0000 == 0x80_0000_0000 - 4096 - d) by (nonlinear_arith)
            requires
                e == 0x1ff_ffff * 0x80_0000_0000 + (0x80_0000_0000 - 4096 - d),
                0 <= 0x80_0000_0000 - 4096 - d < 0x80_0000_0000,
        ;
    }

    /// What a new thread of process `p` has in the address space of the
    /// process: the thread gets the number that the process hands out
    /// next, and, if `alloc_user_res`, its user stack and the
    /// page of its trap context are mapped as `alloc_user_res` says. `None`
    /// where the number is too great or the stack does not fit; the number
    /// is then free again and nothing else has changed.
    pub fn new(
        p: &mut super::process::ProcessControlBlock,
        allocator: &mut StackFrameAllocator,
        ustack_base: u64,
        alloc_user_res: bool,
    ) -> (r: Option<(Self, Result<(), MapError>)>)
        requires
            old(p).memory_set.wf(old(allocator)@),
            old(p).task_res_allocator.wf(),
            old(p).task_res_allocator.recycled@.len() > 0 || old(p).task_res_allocator.current
                < usize::MAX,
        ensures
            final(p).memory_set.wf(final(allocator)@),
            final(p).task_res_allocator.wf(),
            final(p).pid == old(p).pid,
            final(p).fd_table == old(p).fd_table,
            final(p).tasks == old(p).tasks,
            ({
                let tid = old(p).task_res_allocator.next();
                let res = TaskUserRes { tid, ustack_base, process: old(p).pid.0 };
                if res.fits() {
                    &&& r.is_some()
                    &&& r.unwrap().0 == res
                    &&& final(p).task_res_allocator.in_use(tid)
                    &&& !alloc_user_res ==> r.unwrap().1.is_ok() && final(p).memory_set == old(p).memory_set && final(allocator)@ == old(allocator)@
                    &&& alloc_user_res && r.unwrap().1.is_ok() ==> {
                        let n = old(p).memory_set.areas@.len() as int;
                        &&& final(p).memory_set.areas@.len() == n + 2
                        &&& final(p).memory_set.areas@[n].start() == res.stack_page()
                        &&& final(p).memory_set.areas@[n].mapped_in(&final(p).memory_set.page_table)
                        &&& final(p).memory_set.areas@[n + 1].start() == res.trap_page()
                        &&& final(p).memory_set.areas@[n + 1].mapped_in(
                            &final(p).memory_set.page_table,
                        )
                    }
                } else {
                    &&& r.is_none()
                    &&& !final(p).task_res_allocator.in_use(tid)
                    &&& final(p).memory_set == old(p).memory_set
                    &&& final(allocator)@ == old(allocator)@
                }
            }),
    {
        let tid = p.alloc_tid();
        let res = TaskUserRes { tid, ustack_base, process: p.pid.0 };
        if tid > MAX_TID || ustack_base > 0x40_0000_0000 || (tid as u64) * 12288 + 8192
            > 0x40_0000_0000 - ustack_base {
            p.dealloc_tid(tid);
            return None;
        }
        if alloc_user_res {
            let done = res.alloc_user_res(&mut p.memory_set, allocator);
            Some((res, done))
        } else {
            Some((res, Ok(())))
        }
    }

    /// Maps the user stack of the thread, for a program to read and write,
    /// and the page of its trap context, for the kernel to read and write,
    /// each page to a cleared frame of its own. The call fails where one of
    /// those pages is mapped already or the frames run out; the regions that
    /// were begun stay in the address space then.
    pub fn alloc_user_res(&self, ms: &mut MemorySet, allocator: &mut StackFrameAllocator) -> (r:
        Result<(), MapError>)
        requires
            old(ms).wf(old(allocator)@),
            self.fits(),
        ensures
            final(ms).wf(final(allocator)@),
            forall|k: int|
                0 <= k < old(ms).areas@.len() ==> #[trigger] final(ms).areas@[k] == old(ms).areas@[k],
            forall|v: u64|
                v < VPN_LIMIT && !(self.stack_page() <= v < self.stack_end_page()) && v
                    != self.trap_page() ==> #[trigger] final(ms).page_table.translation(v) == old(ms).page_table.translation(v),
            r.is_ok() ==> {
                let n = old(ms).areas@.len() as int;
                let stack = final(ms).areas@[n];
                let cx = final(ms).areas@[n + 1];
                &&& final(ms).areas@.len() == n + 2
                &&& stack.start() == self.stack_page() && stack.end() == self.stack_end_page()
                &&& stack.map_type == MapType::Framed && stack.map_perm.bits == 22
                &&& stack.mapped_in(&final(ms).page_table) && stack.loaded(None)
                &&& cx.start() == self.trap_page() && cx.end() == self.trap_page() + 1
                &&& cx.map_type == MapType::Framed && cx.map_perm.bits == 6
                &&& cx.mapped_in(&final(ms).page_table) && cx.loaded(None)
                &&& old(ms).complete(old(allocator)@) ==> final(ms).complete(final(allocator)@)
            },
            r.is_err() ==> old(ms).areas@.len() + 1 <= final(ms).areas@.len() <= old(ms).areas@.len()
                + 2,
            r == Err::<(), MapError>(MapError::AlreadyMapped) ==> exists|v: u64|
                (self.stack_page() <= v < self.stack_end_page() || v == self.trap_page()) && (
                #[trigger] old(ms).page_table.translation(v)).is_some(),
            r == Err::<(), MapError>(MapError::OutOfFrames) ==> final(allocator)@.free_count() < 3,
    {
        proof {
            self.lemma_pages();
        }
        let ghost m0 = *ms;
        let bottom = ustack_bottom_from_tid(self.ustack_base, self.tid);
        let top = bottom + 8192;
        let first = ms.insert_framed_area(
            allocator,
            VirtAddr::from(bottom),
            VirtAddr::from(top),
            MapPermission::from_bits(22),
        );
        let ghost m1 = *ms;
        let ghost stack = m1.areas@.last();
        if first.is_err() {
            return first;
        }
        let cx_bottom = trap_cx_bottom_from_tid(self.tid);
        let cx_top = cx_bottom + 4096;
        let second = ms.insert_framed_area(
            allocator,
            VirtAddr::from(cx_bottom),
            VirtAddr::from(cx_top),
            MapPermission::from_bits(6),
        );
        proof {
            let n = m0.areas@.len() as int;
            assert(ms.areas@[n] == m1.areas@[n]);
            assert(m1.areas@[n] == stack);
            if second.is_ok() {
                assert forall|v: u64| stack.start() <= v < stack.end() implies #[trigger] stack.page_mapped(
                    &ms.page_table,
                    v,
                ) by {
                    assert(stack.page_mapped(&m1.page_table, v));
                    assert(ms.page_table.translation(v) == m1.page_table.translation(v));
                }
            }
            if second == Err::<(), MapError>(MapError::AlreadyMapped) {
                let v = choose|v: u64|
                    self.trap_page() <= v < self.trap_page() + 1 && (
                    #[trigger] m1.page_table.translation(v)).is_some();
                assert(m0.page_table.translation(v) == m1.page_table.translation(v));
            }
        }
        second
    }

    /// Takes the user stack and the trap context of the thread out of the
    /// address space: the first region that starts at the first page of
    /// each goes, with its frames.
    pub fn dealloc_user_res(&self, ms: &mut MemorySet, allocator: &mut StackFrameAllocator)
        requires
            old(ms).complete(old(allocator)@),
            self.fits(),
        ensures
            final(ms).complete(final(allocator)@),
            final(ms).areas@ == without_start(
                without_start(old(ms).areas@, self.stack_page()),
                self.trap_page(),
            ),
            final(ms).page_table.root_ppn == old(ms).page_table.root_ppn,
            forall|p: u64| final(allocator)@.in_use(p) ==> old(allocator)@.in_use(p),
    {
        proof {
            self.lemma_pages();
        }
        let bottom = ustack_bottom_from_tid(self.ustack_base, self.tid);
        ms.remove_area_with_start_vpn(allocator, VirtAddr::from(bottom).floor());
        let cx_bottom = trap_cx_bottom_from_tid(self.tid);
        ms.remove_area_with_start_vpn(allocator, VirtAddr::from(cx_bottom).floor());
    }

    /// The frame of the trap context of the thread, if its page is mapped.
    pub fn trap_cx_ppn(&self, ms: &MemorySet) -> (r: Option<PhysPageNum>)
        requires
            ms.page_table.frames_wf(),
            self.fits(),
        ensures
            r.is_some() == ms.page_table.translation(self.trap_page()).is_some(),
            r.is_some() ==> r.unwrap().0 == crate::mm::page_table::pte_ppn(
                ms.page_table.translation(self.trap_page()).unwrap().bits,
            ),
    {
        proof {
            self.lemma_pages();
        }
        let cx_bottom = trap_cx_bottom_from_tid(self.tid);
        match ms.translate(VirtAddr::from(cx_bottom).floor()) {
            Some(entry) => Some(entry.ppn()),
            None => None,
        }
    }
}

} // verus!
