//! Address spaces: a page table together with the regions mapped in it.
use vstd::prelude::*;
use super::address::{
    lemma_low_39, vpn_indexes, PhysPageNum, SimpleRange, VPNRange, VirtAddr, VirtPageNum,
};
use super::frame_allocator::{
    frame_alloc, lemma_alloc_step, lemma_dealloc_step, zeros, AllocatorState, FrameTracker,
    StackFrameAllocator,
};
use super::page_table::{
    after_allocs, pte_bits, MapError, PTEFlags, PageTable, PageTableEntry,
};
use super::elf::{read_load_plan, load_plan_of, LoadPlan, LoadPlanView};

verus! {

/// Region can be read.
pub const PERM_R: u8 = 2;

/// Region can be written.
pub const PERM_W: u8 = 4;

/// Region can be executed.
pub const PERM_X: u8 = 8;

/// Region can be reached from user mode.
pub const PERM_U: u8 = 16;

/// Number of virtual pages of an address space.
pub const VPN_LIMIT: u64 = 0x800_0000;

/// Whether each page of a region maps to the frame with the same number or to
/// a frame of its own.
#[derive(Copy, Clone, PartialEq, Eq, Structural, Debug)]
pub enum MapType {
    Identical,
    Framed,
}

/// The access rights of a region: a subset of read, write, execute and user.
#[derive(Copy, Clone, PartialEq, Eq, Structural, Debug)]
pub struct MapPermission {
    pub bits: u8,
}

impl MapPermission {
    /// The rights with the given bits.
    pub fn from_bits(bits: u8) -> (r: Self)
        ensures
            r.bits == bits,
    {
        Self { bits }
    }

    /// The rights of either.
    pub fn union(self, other: Self) -> (r: Self)
        ensures
            r.bits == self.bits | other.bits,
    {
        Self { bits: self.bits | other.bits }
    }
}

/// Page numbers below the limit with the same indices are the same.
pub proof fn lemma_indexes_injective(v: u64, w: u64)
    requires
        v < VPN_LIMIT,
        w < VPN_LIMIT,
        vpn_indexes(v) == vpn_indexes(w),
    ensures
        v == w,
{
}

/// A region of an address space: a range of pages with one kind of mapping
/// and one set of access rights. A framed region owns the frames of its
/// pages; `data_frames[i]` is the frame of page `start + i`.
pub struct MapArea {
    pub vpn_range: VPNRange,
    pub data_frames: Vec<Option<FrameTracker>>,
    pub map_type: MapType,
    pub map_perm: MapPermission,
}

impl MapArea {
    /// First page of the region.
    pub open spec fn start(&self) -> u64 {
        self.vpn_range.start().0
    }

    /// The page after the last one of the region.
    pub open spec fn end(&self) -> u64 {
        self.vpn_range.end().0
    }

    /// The frame that the region holds for page `vpn`.
    pub open spec fn slot(&self, vpn: u64) -> Option<FrameTracker> {
        if self.start() <= vpn && vpn - self.start() < self.data_frames@.len() {
            self.data_frames@[vpn - self.start()]
        } else {
            None
        }
    }

    /// The range lies within the address space, frames are held only for
    /// pages of the range, only by a framed region, and each is a whole frame.
    pub open spec fn area_wf(&self) -> bool {
        &&& self.start() <= self.end() <= VPN_LIMIT
        &&& self.data_frames@.len() <= self.end() - self.start()
        &&& self.map_type == MapType::Identical ==> self.data_frames@.len() == 0
        &&& forall|i: int|
            0 <= i < self.data_frames@.len() && (#[trigger] self.data_frames@[i]).is_some()
                ==> self.data_frames@[i].unwrap().wf()
    }

    /// The entry that maps page `vpn` of this region to frame `ppn`.
    pub open spec fn entry_for(&self, ppn: u64) -> PageTableEntry {
        PageTableEntry { bits: pte_bits(ppn, self.map_perm.bits | 1) }
    }

    /// Whether page `vpn` is mapped in `pt` as this region asks: to the frame
    /// of the same number, or to the frame that the region holds for it.
    pub open spec fn page_mapped(&self, pt: &PageTable, vpn: u64) -> bool {
        match self.map_type {
            MapType::Identical => pt.translation(vpn) == Some(self.entry_for(vpn)),
            MapType::Framed => self.slot(vpn).is_some() && pt.translation(vpn) == Some(
                self.entry_for(self.slot(vpn).unwrap().ppn.0),
            ),
        }
    }

    /// Every page for which the region holds a frame is mapped to that frame.
    pub open spec fn consistent(&self, pt: &PageTable) -> bool {
        forall|v: u64| (#[trigger] self.slot(v)).is_some() ==> self.page_mapped(pt, v)
    }

    /// Every page of the region is mapped as the region asks.
    pub open spec fn mapped_in(&self, pt: &PageTable) -> bool {
        forall|v: u64| self.start() <= v < self.end() ==> #[trigger] self.page_mapped(pt, v)
    }

    /// Every frame of the region is in use with the allocator.
    pub open spec fn frames_in_use(&self, a: AllocatorState) -> bool {
        forall|v: u64| (#[trigger] self.slot(v)).is_some() ==> a.in_use(self.slot(v).unwrap().ppn.0)
    }

    /// No two pages of the region share a frame.
    pub open spec fn distinct_frames(&self) -> bool {
        forall|v: u64, w: u64|
            v != w && (#[trigger] self.slot(v)).is_some() && (#[trigger] self.slot(w)).is_some()
                ==> self.slot(v).unwrap().ppn != self.slot(w).unwrap().ppn
    }

    /// The region of the pages that `[start_va, end_va)` touches, with no
    /// page mapped yet.
    pub fn new(start_va: VirtAddr, end_va: VirtAddr, map_type: MapType, map_perm: MapPermission) -> (r:
        Self)
        requires
            start_va.0 / 4096 <= super::address::pages_up(end_va.0 as int),
        ensures
            r.start() == start_va.0 / 4096,
            r.end() == super::address::pages_up(end_va.0 as int),
            r.data_frames@.len() == 0,
            r.map_type == map_type,
            r.map_perm == map_perm,
    {
        let start_vpn: VirtPageNum = start_va.floor();
        let end_vpn: VirtPageNum = end_va.ceil();
        Self {
            vpn_range: SimpleRange::new(start_vpn, end_vpn),
            data_frames: Vec::new(),
            map_type,
            map_perm,
        }
    }

    /// Maps page `vpn` of the region in `page_table`: to the frame of the same
    /// number, or to a cleared frame taken from the allocator. Nothing
    /// changes when the page is mapped already or the allocator has too few
    /// frames for the page and the nodes on the way to it.
    pub fn map_one(
        &mut self,
        page_table: &mut PageTable,
        allocator: &mut StackFrameAllocator,
        vpn: VirtPageNum,
    ) -> (r: Result<(), MapError>)
        requires
            old(self).area_wf(),
            old(self).consistent(old(page_table)),
            old(self).start() <= vpn.0 < old(self).end(),
            old(page_table).wf(),
            old(page_table).frames_in_use(old(allocator)@),
            old(allocator)@.wf(),
            old(allocator)@.end <= 0x1000_0000_0000,
        ensures
            final(self).area_wf(),
            final(self).consistent(final(page_table)),
            final(self).vpn_range == old(self).vpn_range,
            final(self).map_type == old(self).map_type,
            final(self).map_perm == old(self).map_perm,
            final(page_table).wf(),
            final(page_table).frames_in_use(final(allocator)@),
            final(page_table).root_ppn == old(page_table).root_ppn,
            final(allocator)@.wf(),
            final(allocator)@.end == old(allocator)@.end,
            r == Err::<(), MapError>(MapError::AlreadyMapped) <==> old(page_table).translation(
                vpn.0,
            ).is_some(),
            r.is_ok() <==> old(page_table).translation(vpn.0).is_none() && old(self).frames_for(
                old(page_table),
                vpn.0,
            ) <= old(allocator)@.free_count(),
            r.is_err() ==> *final(self) == *old(self) && *final(page_table) == *old(page_table)
                && final(allocator)@ == old(allocator)@,
            r.is_ok() ==> {
                &&& final(self).page_mapped(final(page_table), vpn.0)
                &&& forall|v: u64|
                    v < VPN_LIMIT && v != vpn.0 ==> #[trigger] final(page_table).translation(v)
                        == old(page_table).translation(v)
                &&& forall|v: u64| v != vpn.0 ==> #[trigger] final(self).slot(v) == old(self).slot(v)
                &&& final(self).map_type == MapType::Framed ==> {
                    &&& final(self).slot(vpn.0).unwrap()@ == zeros(4096)
                    &&& !old(allocator)@.in_use(final(self).slot(vpn.0).unwrap().ppn.0)
                    &&& final(allocator)@.in_use(final(self).slot(vpn.0).unwrap().ppn.0)
                    &&& forall|k: int|
                        0 <= k < final(page_table).frames@.len() ==> (#[trigger] final(page_table).frames@[k]).ppn != final(self).slot(vpn.0).unwrap().ppn
                }
                &&& final(allocator)@ == after_allocs(
                    old(allocator)@,
                    old(self).frames_for(old(page_table), vpn.0),
                )
                &&& final(allocator)@.free_count() == old(allocator)@.free_count() - old(self).frames_for(old(page_table), vpn.0)
                &&& forall|p: u64| old(allocator)@.in_use(p) ==> final(allocator)@.in_use(p)
                &&& final(page_table).frames@.len() >= old(page_table).frames@.len()
                &&& forall|k: int|
                    0 <= k < old(page_table).frames@.len() ==> (#[trigger] final(page_table).frames@[k]).ppn == old(page_table).frames@[k].ppn
                &&& forall|k: int|
                    old(page_table).frames@.len() <= k < final(page_table).frames@.len() ==> !old(allocator)@.in_use((#[trigger] final(page_table).frames@[k]).ppn.0)
            },
    {
        if page_table.translate(vpn).is_some() {
            return Err(MapError::AlreadyMapped);
        }
        let missing = page_table.missing_count(vpn);
        let flags = PTEFlags::from_bits(self.map_perm.bits);
        let ghost a0 = allocator@;
        let ghost pt0 = *page_table;
        let ghost s0 = *self;
        proof {
            lemma_alloc_step(a0);
            lemma_alloc_step(a0.after_alloc());
            lemma_alloc_step(a0.after_alloc().after_alloc());
            reveal_with_fuel(after_allocs, 4);
            assert(s0.slot(vpn.0).is_none()) by {
                if s0.slot(vpn.0).is_some() {
                    assert(s0.page_mapped(&pt0, vpn.0));
                }
            }
        }
        match self.map_type {
            MapType::Identical => {
                if !allocator.can_allocate(missing) {
                    return Err(MapError::OutOfFrames);
                }
                let r = page_table.map(allocator, vpn, PhysPageNum(vpn.0), flags);
                proof {
                    assert(r.is_ok());
                    assert forall|v: u64| v < VPN_LIMIT && v != vpn.0 implies #[trigger] page_table.translation(
                    v) == pt0.translation(v) by {
                        if vpn_indexes(v) == vpn_indexes(vpn.0) {
                            lemma_indexes_injective(v, vpn.0);
                        }
                    }
                }
                Ok(())
            },
            MapType::Framed => {
                if !allocator.can_allocate(missing + 1) {
                    return Err(MapError::OutOfFrames);
                }
                let frame = frame_alloc(allocator).unwrap();
                let ppn = frame.ppn;
                let ghost a1 = allocator@;
                proof {
                    assert forall|k: int| 0 <= k < pt0.frames@.len() implies a1.in_use(
                        (#[trigger] pt0.frames@[k]).ppn.0,
                    ) by {
                        assert(a0.in_use(pt0.frames@[k].ppn.0));
                    }
                }
                let idx: usize = (vpn.0 - self.vpn_range.get_start().0) as usize;
                while self.data_frames.len() <= idx
                    invariant
                        self.vpn_range == s0.vpn_range,
                        self.map_type == s0.map_type,
                        self.map_perm == s0.map_perm,
                        s0.data_frames@.len() <= self.data_frames@.len() <= s0.end() - s0.start(),
                        idx == vpn.0 - s0.start(),
                        s0.start() <= vpn.0 < s0.end(),
                        s0.area_wf(),
                        forall|i: int|
                            0 <= i < s0.data_frames@.len() ==> #[trigger] self.data_frames@[i]
                                == s0.data_frames@[i],
                        forall|i: int|
                            s0.data_frames@.len() <= i < self.data_frames@.len()
                                ==> (#[trigger] self.data_frames@[i]).is_none(),
                    decreases s0.end() - s0.start() - self.data_frames@.len(),
                {
                    self.data_frames.push(None);
                }
                self.data_frames.set(idx, Some(frame));
                let r = page_table.map(allocator, vpn, ppn, flags);
                proof {
                    assert(r.is_ok());
                    assert(self.slot(vpn.0) == Some(frame));
                    assert forall|v: u64| v != vpn.0 implies #[trigger] self.slot(v) == s0.slot(
                        v,
                    ) by {}
                    assert forall|v: u64| v < VPN_LIMIT && v != vpn.0 implies #[trigger] page_table.translation(
                    v) == pt0.translation(v) by {
                        if vpn_indexes(v) == vpn_indexes(vpn.0) {
                            lemma_indexes_injective(v, vpn.0);
                        }
                    }
                    assert forall|v: u64| (#[trigger] self.slot(v)).is_some() implies self.page_mapped(
                        page_table,
                        v,
                    ) by {
                        if v != vpn.0 {
                            assert(s0.slot(v).is_some());
                            assert(s0.page_mapped(&pt0, v));
                        }
                    }
                    assert forall|k: int| 0 <= k < page_table.frames@.len() implies (
                    #[trigger] page_table.frames@[k]).ppn != ppn by {
                        if k < pt0.frames@.len() {
                            assert(a0.in_use(pt0.frames@[k].ppn.0));
                        } else {
                            assert(!a1.in_use(page_table.frames@[k].ppn.0));
                        }
                    }
                    assert forall|k: int|
                        pt0.frames@.len() <= k < page_table.frames@.len() implies !a0.in_use(
                        (#[trigger] page_table.frames@[k]).ppn.0,
                    ) by {
                        assert(!a1.in_use(page_table.frames@[k].ppn.0));
                    }
                    assert forall|p: u64| a0.in_use(p) implies allocator@.in_use(p) by {
                        lemma_allocs_keep(a1, pt0.missing(vpn.0), p);
                    }
                }
                Ok(())
            },
        }
    }

    /// Removes the mapping of page `vpn`, which must be mapped, and gives the
    /// frame that the region holds for it back to the allocator.
    pub fn unmap_one(
        &mut self,
        page_table: &mut PageTable,
        allocator: &mut StackFrameAllocator,
        vpn: VirtPageNum,
    )
        requires
            old(self).area_wf(),
            old(self).start() <= vpn.0 < old(self).end(),
            old(page_table).wf(),
            old(page_table).translation(vpn.0).is_some(),
            old(allocator)@.wf(),
            old(self).slot(vpn.0).is_some() ==> old(allocator)@.in_use(
                old(self).slot(vpn.0).unwrap().ppn.0,
            ),
        ensures
            final(self).area_wf(),
            final(self).vpn_range == old(self).vpn_range,
            final(self).map_type == old(self).map_type,
            final(self).map_perm == old(self).map_perm,
            final(self).data_frames@.len() == old(self).data_frames@.len(),
            final(page_table).wf(),
            final(page_table).root_ppn == old(page_table).root_ppn,
            final(page_table).frames@.len() == old(page_table).frames@.len(),
            forall|k: int|
                0 <= k < old(page_table).frames@.len() ==> (#[trigger] final(page_table).frames@[k]).ppn == old(page_table).frames@[k].ppn,
            final(page_table).translation(vpn.0).is_none(),
            forall|v: u64|
                v < VPN_LIMIT && v != vpn.0 ==> #[trigger] final(page_table).translation(v) == old(page_table).translation(v),
            forall|v: u64| #[trigger] final(page_table).missing(v) == old(page_table).missing(v),
            final(self).slot(vpn.0).is_none(),
            forall|v: u64| v != vpn.0 ==> #[trigger] final(self).slot(v) == old(self).slot(v),
            final(allocator)@.wf(),
            final(allocator)@ == if old(self).slot(vpn.0).is_some() {
                old(allocator)@.after_dealloc(old(self).slot(vpn.0).unwrap().ppn.0)
            } else {
                old(allocator)@
            },
    {
        let ghost pt0 = *page_table;
        let idx: usize = (vpn.0 - self.vpn_range.get_start().0) as usize;
        if idx < self.data_frames.len() {
            let held: Option<PhysPageNum> = match &self.data_frames[idx] {
                Some(f) => Some(f.ppn),
                None => None,
            };
            match held {
                Some(ppn) => {
                    allocator.dealloc(ppn);
                    self.data_frames.set(idx, None);
                },
                None => {},
            }
        }
        page_table.unmap(vpn);
        proof {
            assert forall|v: u64| v < VPN_LIMIT && v != vpn.0 implies #[trigger] page_table.translation(
            v) == pt0.translation(v) by {
                if vpn_indexes(v) == vpn_indexes(vpn.0) {
                    lemma_indexes_injective(v, vpn.0);
                }
            }
        }
    }

    /// No frame of the region is a node of `pt`.
    pub open spec fn disjoint_from(&self, pt: &PageTable) -> bool {
        forall|v: u64, k: int|
            (#[trigger] self.slot(v)).is_some() && 0 <= k < pt.frames@.len() ==> (
            #[trigger] pt.frames@[k]).ppn != self.slot(v).unwrap().ppn
    }

    /// What holds of a region, a page table and an allocator that are used
    /// together: the region's frames are mapped, are in use, differ from each
    /// other and from the table's nodes, and the table's nodes are in use.
    #[verifier::opaque]
    pub open spec fn fits(&self, pt: &PageTable, a: AllocatorState) -> bool {
        &&& self.area_wf()
        &&& self.consistent(pt)
        &&& self.frames_in_use(a)
        &&& self.distinct_frames()
        &&& self.disjoint_from(pt)
        &&& pt.wf()
        &&& pt.frames_in_use(a)
        &&& a.wf()
        &&& a.end <= 0x1000_0000_0000
    }

    /// Maps the pages of the region in ascending order and stops at the first
    /// that cannot be mapped; the pages before it stay mapped.
    pub fn map(&mut self, page_table: &mut PageTable, allocator: &mut StackFrameAllocator) -> (r:
        Result<(), MapError>)
        requires
            old(self).fits(old(page_table), old(allocator)@),
        ensures
            final(self).fits(final(page_table), final(allocator)@),
            final(self).vpn_range == old(self).vpn_range,
            final(self).map_type == old(self).map_type,
            final(self).map_perm == old(self).map_perm,
            grown(old(page_table), old(allocator)@, final(page_table), final(allocator)@),
            forall|v: u64|
                v < VPN_LIMIT && !(old(self).start() <= v < old(self).end()) ==> #[trigger] final(page_table).translation(v) == old(page_table).translation(v),
            forall|v: u64|
                (#[trigger] old(self).slot(v)).is_some() ==> final(self).slot(v) == old(self).slot(
                    v,
                ),
            forall|v: u64|
                (#[trigger] final(self).slot(v)).is_some() && old(self).slot(v).is_none() ==> {
                    &&& !old(allocator)@.in_use(final(self).slot(v).unwrap().ppn.0)
                    &&& final(self).slot(v).unwrap()@ == zeros(4096)
                },
            final(allocator)@.free_count() >= old(allocator)@.free_count() - 3 * (old(self).end()
                - old(self).start()),
            r.is_ok() ==> final(self).mapped_in(final(page_table)),
            r.is_ok() ==> forall|v: u64|
                old(self).start() <= v < old(self).end() ==> (#[trigger] old(page_table).translation(v)).is_none(),
            r == Err::<(), MapError>(MapError::AlreadyMapped) ==> exists|v: u64|
                old(self).start() <= v < old(self).end() && (#[trigger] old(page_table).translation(v)).is_some(),
            r == Err::<(), MapError>(MapError::OutOfFrames) ==> final(allocator)@.free_count() < 3,
            (forall|v: u64|
                old(self).start() <= v < old(self).end() ==> (#[trigger] old(page_table).translation(v)).is_none()) && old(allocator)@.free_count() >= 3 * (old(self).end() - old(self).start()) ==> r.is_ok(),
    {
        let ghost s0 = *self;
        let ghost pt0 = *page_table;
        let ghost a0 = allocator@;
        proof {
            reveal(MapArea::fits);
        }
        let start: u64 = self.vpn_range.get_start().0;
        let end: u64 = self.vpn_range.get_end().0;
        let mut cur: u64 = start;
        while cur < end
            invariant
                s0 == *old(self),
                pt0 == *old(page_table),
                a0 == old(allocator)@,
                start == s0.start(),
                end == s0.end(),
                start <= cur <= end,
                s0.fits(&pt0, a0),
                self.fits(page_table, allocator@),
                self.vpn_range == s0.vpn_range,
                self.map_type == s0.map_type,
                self.map_perm == s0.map_perm,
                page_table.root_ppn == pt0.root_ppn,
                allocator@.end == a0.end,
                forall|v: u64|
                    v < VPN_LIMIT && !(start <= v < cur) ==> #[trigger] page_table.translation(v)
                        == pt0.translation(v),
                forall|v: u64|
                    v < VPN_LIMIT && pt0.translation(v).is_some() ==> #[trigger] page_table.translation(
                    v) == pt0.translation(v),
                forall|v: u64| start <= v < cur ==> #[trigger] self.page_mapped(page_table, v),
                forall|v: u64| start <= v < cur ==> (#[trigger] pt0.translation(v)).is_none(),
                forall|p: u64| a0.in_use(p) ==> allocator@.in_use(p),
                page_table.frames@.len() >= pt0.frames@.len(),
                forall|k: int|
                    0 <= k < pt0.frames@.len() ==> (#[trigger] page_table.frames@[k]).ppn
                        == pt0.frames@[k].ppn,
                forall|k: int|
                    pt0.frames@.len() <= k < page_table.frames@.len() ==> !a0.in_use(
                        (#[trigger] page_table.frames@[k]).ppn.0,
                    ),
                forall|v: u64| (#[trigger] s0.slot(v)).is_some() ==> self.slot(v) == s0.slot(v),
                forall|v: u64|
                    (#[trigger] self.slot(v)).is_some() && s0.slot(v).is_none() ==> {
                        &&& !a0.in_use(self.slot(v).unwrap().ppn.0)
                        &&& self.slot(v).unwrap()@ == zeros(4096)
                    },
                allocator@.free_count() >= a0.free_count() - 3 * (cur - start),
            decreases end - cur,
        {
            let ghost s1 = *self;
            let ghost pt1 = *page_table;
            let ghost a1 = allocator@;
            proof {
                reveal(MapArea::fits);
            }
            let r = self.map_one(page_table, allocator, VirtPageNum(cur));
            match r {
                Err(e) => {
                    proof {
                        reveal(grown);
                        if e == MapError::AlreadyMapped {
                            assert(pt1.translation(cur).is_some());
                            assert(pt0.translation(cur).is_some());
                        } else {
                            assert(e == MapError::OutOfFrames);
                            assert(pt1.missing(cur) <= 2);
                        }
                    }
                    return Err(e);
                },
                Ok(()) => {
                    proof {
                        assert(pt1.missing(cur) <= 2);
                        assert forall|v: u64| start <= v < cur + 1 implies #[trigger] self.page_mapped(
                            page_table,
                            v,
                        ) by {
                            if v != cur {
                                assert(s1.page_mapped(&pt1, v));
                                assert(self.slot(v) == s1.slot(v));
                                assert(page_table.translation(v) == pt1.translation(v));
                            }
                        }
                        assert forall|v: u64|
                            (#[trigger] self.slot(v)).is_some() implies allocator@.in_use(
                            self.slot(v).unwrap().ppn.0,
                        ) by {
                            if v != cur {
                                assert(self.slot(v) == s1.slot(v));
                                assert(a1.in_use(s1.slot(v).unwrap().ppn.0));
                            }
                        }
                        assert forall|v: u64, w: u64|
                            v != w && (#[trigger] self.slot(v)).is_some() && (
                            #[trigger] self.slot(w)).is_some() implies self.slot(v).unwrap().ppn
                            != self.slot(w).unwrap().ppn by {
                            if v != cur {
                                assert(self.slot(v) == s1.slot(v));
                                assert(a1.in_use(s1.slot(v).unwrap().ppn.0));
                            }
                            if w != cur {
                                assert(self.slot(w) == s1.slot(w));
                                assert(a1.in_use(s1.slot(w).unwrap().ppn.0));
                            }
                        }
                        assert forall|v: u64, k: int|
                            (#[trigger] self.slot(v)).is_some() && 0 <= k
                                < page_table.frames@.len() implies (
                        #[trigger] page_table.frames@[k]).ppn != self.slot(v).unwrap().ppn by {
                            if v != cur {
                                assert(self.slot(v) == s1.slot(v));
                                assert(a1.in_use(s1.slot(v).unwrap().ppn.0));
                                if k < pt1.frames@.len() {
                                    assert(pt1.frames@[k].ppn != s1.slot(v).unwrap().ppn);
                                } else {
                                    assert(!a1.in_use(page_table.frames@[k].ppn.0));
                                }
                            }
                        }
                        assert forall|k: int|
                            pt0.frames@.len() <= k < page_table.frames@.len() implies !a0.in_use(
                            (#[trigger] page_table.frames@[k]).ppn.0,
                        ) by {
                            if k < pt1.frames@.len() {
                                assert(page_table.frames@[k].ppn == pt1.frames@[k].ppn);
                            } else {
                                assert(!a1.in_use(page_table.frames@[k].ppn.0));
                            }
                        }
                        assert forall|v: u64|
                            (#[trigger] self.slot(v)).is_some() && s0.slot(v).is_none() implies {
                            &&& !a0.in_use(self.slot(v).unwrap().ppn.0)
                            &&& self.slot(v).unwrap()@ == zeros(4096)
                        } by {
                            if v != cur {
                                assert(self.slot(v) == s1.slot(v));
                            } else {
                                assert(self.map_type == MapType::Framed);
                            }
                        }
                        assert forall|v: u64| (#[trigger] s0.slot(v)).is_some() implies self.slot(v)
                            == s0.slot(v) by {
                            assert(s1.slot(v) == s0.slot(v));
                            if v == cur {
                                assert(s1.page_mapped(&pt1, cur));
                            }
                        }
                    }
                },
            }
            cur += 1;
        }
        proof {
            reveal(grown);
        }
        Ok(())
    }

    /// Whether some page of the region lies in frame `p`.
    pub open spec fn holds_frame(&self, p: u64) -> bool {
        exists|v: u64| (#[trigger] self.slot(v)).is_some() && self.slot(v).unwrap().ppn.0 == p
    }

    /// Removes the mappings of all pages of the region, which must all be
    /// mapped, and gives the region's frames back to the allocator.
    pub fn unmap(&mut self, page_table: &mut PageTable, allocator: &mut StackFrameAllocator)
        requires
            old(self).fits(old(page_table), old(allocator)@),
            old(self).mapped_in(old(page_table)),
        ensures
            final(self).fits(final(page_table), final(allocator)@),
            final(self).vpn_range == old(self).vpn_range,
            final(self).map_type == old(self).map_type,
            final(self).map_perm == old(self).map_perm,
            forall|v: u64| (#[trigger] final(self).slot(v)).is_none(),
            final(page_table).root_ppn == old(page_table).root_ppn,
            final(page_table).frames@.len() == old(page_table).frames@.len(),
            forall|k: int|
                0 <= k < old(page_table).frames@.len() ==> (#[trigger] final(page_table).frames@[k]).ppn == old(page_table).frames@[k].ppn,
            forall|v: u64|
                old(self).start() <= v < old(self).end() ==> (#[trigger] final(page_table).translation(v)).is_none(),
            forall|v: u64|
                v < VPN_LIMIT && !(old(self).start() <= v < old(self).end()) ==> #[trigger] final(page_table).translation(v) == old(page_table).translation(v),
            final(allocator)@.end == old(allocator)@.end,
            forall|p: u64| #[trigger]
                final(allocator)@.in_use(p) == (old(allocator)@.in_use(p) && !old(self).holds_frame(p)),
    {
        let ghost s0 = *self;
        let ghost pt0 = *page_table;
        let ghost a0 = allocator@;
        proof {
            reveal(MapArea::fits);
        }
        let start: u64 = self.vpn_range.get_start().0;
        let end: u64 = self.vpn_range.get_end().0;
        let mut cur: u64 = start;
        while cur < end
            invariant
                s0 == *old(self),
                pt0 == *old(page_table),
                a0 == old(allocator)@,
                start == s0.start(),
                end == s0.end(),
                start <= cur <= end,
                s0.fits(&pt0, a0),
                s0.mapped_in(&pt0),
                self.area_wf(),
                page_table.wf(),
                allocator@.wf(),
                self.vpn_range == s0.vpn_range,
                self.map_type == s0.map_type,
                self.map_perm == s0.map_perm,
                self.data_frames@.len() == s0.data_frames@.len(),
                page_table.root_ppn == pt0.root_ppn,
                page_table.frames@.len() == pt0.frames@.len(),
                allocator@.end == a0.end,
                forall|k: int|
                    0 <= k < pt0.frames@.len() ==> (#[trigger] page_table.frames@[k]).ppn
                        == pt0.frames@[k].ppn,
                forall|v: u64|
                    v < VPN_LIMIT && !(start <= v < cur) ==> #[trigger] page_table.translation(v)
                        == pt0.translation(v),
                forall|v: u64| start <= v < cur ==> (#[trigger] page_table.translation(v)).is_none(),
                forall|v: u64| v < cur ==> (#[trigger] self.slot(v)).is_none(),
                forall|v: u64| cur <= v ==> #[trigger] self.slot(v) == s0.slot(v),
                forall|v: u64|
                    cur <= v && (#[trigger] s0.slot(v)).is_some() ==> allocator@.in_use(
                        s0.slot(v).unwrap().ppn.0,
                    ),
                forall|v: u64|
                    v < cur && (#[trigger] s0.slot(v)).is_some() ==> !allocator@.in_use(
                        s0.slot(v).unwrap().ppn.0,
                    ),
                forall|p: u64| allocator@.in_use(p) ==> a0.in_use(p),
                forall|p: u64| a0.in_use(p) && !s0.holds_frame(p) ==> allocator@.in_use(p),
            decreases end - cur,
        {
            let ghost a1 = allocator@;
            let ghost s1 = *self;
            proof {
                reveal(MapArea::fits);
                assert(s0.page_mapped(&pt0, cur));
                assert(page_table.translation(cur) == pt0.translation(cur));
                if s0.slot(cur).is_some() {
                    lemma_dealloc_step(a1, s0.slot(cur).unwrap().ppn.0);
                    assert(s0.holds_frame(s0.slot(cur).unwrap().ppn.0));
                }
            }
            self.unmap_one(page_table, allocator, VirtPageNum(cur));
            proof {
                assert forall|v: u64|
                    cur + 1 <= v && (#[trigger] s0.slot(v)).is_some() implies allocator@.in_use(
                    s0.slot(v).unwrap().ppn.0,
                ) by {
                    assert(a1.in_use(s0.slot(v).unwrap().ppn.0));
                    if s0.slot(cur).is_some() {
                        assert(s0.slot(v).unwrap().ppn != s0.slot(cur).unwrap().ppn);
                    }
                }
                assert forall|v: u64|
                    v < cur + 1 && (#[trigger] s0.slot(v)).is_some() implies !allocator@.in_use(
                    s0.slot(v).unwrap().ppn.0,
                ) by {
                    if v < cur {
                        assert(!a1.in_use(s0.slot(v).unwrap().ppn.0));
                    }
                }
                assert forall|v: u64| v < cur + 1 implies (#[trigger] self.slot(v)).is_none() by {
                    if v < cur {
                        assert(s1.slot(v).is_none());
                    }
                }
            }
            cur += 1;
        }
        proof {
            reveal(MapArea::fits);
            assert forall|v: u64| (#[trigger] self.slot(v)).is_none() by {
                if v >= end {
                    assert(self.slot(v) == s0.slot(v));
                }
            }
            assert forall|p: u64| #[trigger]
                allocator@.in_use(p) == (a0.in_use(p) && !s0.holds_frame(p)) by {
                if s0.holds_frame(p) {
                    let v = choose|v: u64|
                        (#[trigger] s0.slot(v)).is_some() && s0.slot(v).unwrap().ppn.0 == p;
                    assert(v < end);
                    assert(!allocator@.in_use(s0.slot(v).unwrap().ppn.0));
                }
            }
        }
    }

    /// Copies `data` to the pages of the region from its first page on, 4096
    /// bytes to a page. The bytes of the last page behind the data stay.
    pub fn copy_data(&mut self, data: &[u8])
        requires
            old(self).area_wf(),
            old(self).map_type == MapType::Framed,
            forall|j: int|
                0 <= j < super::address::pages_up(data@.len() as int) ==> (#[trigger] old(self).data_frames@[j]).is_some() && j < old(self).data_frames@.len(),
        ensures
            final(self).area_wf(),
            final(self).vpn_range == old(self).vpn_range,
            final(self).map_type == old(self).map_type,
            final(self).map_perm == old(self).map_perm,
            final(self).data_frames@.len() == old(self).data_frames@.len(),
            forall|j: int|
                0 <= j < old(self).data_frames@.len() ==> (#[trigger] final(self).data_frames@[j]).is_some() == old(self).data_frames@[j].is_some(),
            forall|j: int|
                0 <= j < old(self).data_frames@.len() && old(self).data_frames@[j].is_some()
                    ==> (#[trigger] final(self).data_frames@[j]).unwrap().ppn == old(self).data_frames@[j].unwrap().ppn,
            forall|j: int|
                super::address::pages_up(data@.len() as int) <= j < old(self).data_frames@.len()
                    ==> #[trigger] final(self).data_frames@[j] == old(self).data_frames@[j],
            forall|j: int|
                0 <= j < super::address::pages_up(data@.len() as int) ==> (#[trigger] final(self).data_frames@[j]).unwrap()@ == page_after_copy(
                    data@,
                    j,
                    old(self).data_frames@[j].unwrap()@,
                ),
    {
        let len: usize = data.len();
        let mut offset: usize = 0;
        let mut idx: usize = 0;
        let ghost pages = super::address::pages_up(data@.len() as int);
        while offset < len
            invariant
                len == data@.len(),
                pages == super::address::pages_up(data@.len() as int),
                offset <= len,
                0 <= idx <= pages,
                offset == if 4096 * idx <= len {
                    4096 * idx
                } else {
                    len as int
                },
                old(self).area_wf(),
                self.area_wf(),
                self.vpn_range == old(self).vpn_range,
                self.map_type == old(self).map_type,
                self.map_perm == old(self).map_perm,
                self.data_frames@.len() == old(self).data_frames@.len(),
                forall|j: int|
                    0 <= j < pages ==> (#[trigger] old(self).data_frames@[j]).is_some() && j < old(self).data_frames@.len(),
                forall|j: int|
                    0 <= j < old(self).data_frames@.len() ==> (#[trigger] self.data_frames@[j]).is_some()
                        == old(self).data_frames@[j].is_some(),
                forall|j: int|
                    0 <= j < old(self).data_frames@.len() && old(self).data_frames@[j].is_some()
                        ==> (#[trigger] self.data_frames@[j]).unwrap().ppn == old(self).data_frames@[j].unwrap().ppn,
                forall|j: int|
                    idx <= j < old(self).data_frames@.len() ==> #[trigger] self.data_frames@[j]
                        == old(self).data_frames@[j],
                forall|j: int|
                    0 <= j < idx ==> (#[trigger] self.data_frames@[j]).unwrap()@
                        == page_after_copy(data@, j, old(self).data_frames@[j].unwrap()@),
            decreases len - offset,
        {
            let hi: usize = if len - offset > 4096 {
                offset + 4096
            } else {
                len
            };
            let src = vstd::slice::slice_subrange(data, offset, hi);
            let ghost before = self.data_frames@;
            assert(before[idx as int].is_some());
            assert(before[idx as int].unwrap().wf());
            match &mut self.data_frames[idx] {
                Some(f) => {
                    f.copy_from(src);
                },
                None => {},
            }
            proof {
                assert(self.data_frames@[idx as int].unwrap()@ == page_after_copy(
                    data@,
                    idx as int,
                    old(self).data_frames@[idx as int].unwrap()@,
                ));
            }
            offset = hi;
            idx += 1;
        }
        proof {
            assert(idx == pages);
        }
    }

    /// Whether the pages of a framed region hold `data` from the first page
    /// on, 4096 bytes to a page, and zero bytes behind it; a region that is
    /// not framed holds nothing.
    pub open spec fn loaded(&self, data: Option<Seq<u8>>) -> bool {
        self.map_type == MapType::Framed ==> forall|j: int|
            0 <= j < self.end() - self.start() ==> j < self.data_frames@.len() && (
            #[trigger] self.data_frames@[j]).is_some() && self.data_frames@[j].unwrap()@
                == match data {
                Some(d) => page_after_copy(d, j, zeros(4096)),
                None => zeros(4096),
            }
    }

    /// Maps the pages of a region that holds no frame yet and, where all of
    /// them could be mapped, copies `data` to them.
    pub fn map_with_data(
        &mut self,
        page_table: &mut PageTable,
        allocator: &mut StackFrameAllocator,
        data: Option<&[u8]>,
    ) -> (r: Result<(), MapError>)
        requires
            old(self).area_wf(),
            old(self).data_frames@.len() == 0,
            old(page_table).wf(),
            old(page_table).frames_in_use(old(allocator)@),
            old(allocator)@.wf(),
            old(allocator)@.end <= 0x1000_0000_0000,
            data.is_some() ==> old(self).map_type == MapType::Framed && super::address::pages_up(
                data.unwrap()@.len() as int,
            ) <= old(self).end() - old(self).start(),
        ensures
            final(self).fits(final(page_table), final(allocator)@),
            final(self).vpn_range == old(self).vpn_range,
            final(self).map_type == old(self).map_type,
            final(self).map_perm == old(self).map_perm,
            grown(old(page_table), old(allocator)@, final(page_table), final(allocator)@),
            forall|v: u64|
                v < VPN_LIMIT && !old(self).contains(v) ==> #[trigger] final(page_table).translation(v) == old(page_table).translation(v),
            forall|v: u64|
                (#[trigger] final(self).slot(v)).is_some() ==> !old(allocator)@.in_use(
                    final(self).slot(v).unwrap().ppn.0,
                ),
            final(allocator)@.free_count() >= old(allocator)@.free_count() - 3 * (old(self).end()
                - old(self).start()),
            r.is_ok() ==> {
                &&& final(self).mapped_in(final(page_table))
                &&& forall|v: u64|
                    old(self).contains(v) ==> (#[trigger] old(page_table).translation(v)).is_none()
                &&& final(self).loaded(
                    match data {
                        Some(d) => Some(d@),
                        None => None,
                    },
                )
            },
            r == Err::<(), MapError>(MapError::AlreadyMapped) ==> exists|v: u64|
                old(self).contains(v) && (#[trigger] old(page_table).translation(v)).is_some(),
            r == Err::<(), MapError>(MapError::OutOfFrames) ==> final(allocator)@.free_count() < 3,
            (forall|v: u64|
                old(self).contains(v) ==> (#[trigger] old(page_table).translation(v)).is_none())
                && old(allocator)@.free_count() >= 3 * (old(self).end() - old(self).start())
                ==> r.is_ok(),
    {
        let ghost m0 = *self;
        let ghost pt0 = *page_table;
        let ghost a0 = allocator@;
        proof {
            assert forall|v: u64| (#[trigger] m0.slot(v)).is_none() by {}
            lemma_fits_empty(m0, &pt0, a0);
        }
        let r = self.map(page_table, allocator);
        let ghost m1 = *self;
        proof {
            assert(m1.area_wf()) by {
                reveal(MapArea::fits);
            }
            if r == Err::<(), MapError>(MapError::AlreadyMapped) {
                let v = choose|v: u64|
                    m0.start() <= v < m0.end() && (#[trigger] pt0.translation(v)).is_some();
                assert(m0.contains(v) && pt0.translation(v).is_some());
            }
            assert forall|v: u64| (#[trigger] m1.slot(v)).is_some() implies !a0.in_use(
                m1.slot(v).unwrap().ppn.0,
            ) && m1.slot(v).unwrap()@ == zeros(4096) by {
                assert(m0.slot(v).is_none());
            }
            if r.is_ok() && m0.map_type == MapType::Framed {
                assert forall|j: int| 0 <= j < m0.end() - m0.start() implies j
                    < m1.data_frames@.len() && (#[trigger] m1.data_frames@[j]).is_some()
                    && m1.data_frames@[j].unwrap()@ == zeros(4096) by {
                    let v = (m1.start() + j) as u64;
                    assert(m1.page_mapped(page_table, v));
                    assert(m1.slot(v).is_some());
                }
            }
        }
        if r.is_ok() {
            match data {
                Some(d) => {
                    self.copy_data(d);
                    proof {
                        lemma_fits_same_frames(m1, *self, page_table, allocator@);
                        assert forall|v: u64| (#[trigger] self.slot(v)).is_some() implies !a0.in_use(
                            self.slot(v).unwrap().ppn.0,
                        ) by {
                            assert(m1.slot(v).is_some());
                        }
                        assert forall|j: int| 0 <= j < m0.end() - m0.start() implies j
                            < self.data_frames@.len() && (#[trigger] self.data_frames@[j]).is_some()
                            && self.data_frames@[j].unwrap()@ == page_after_copy(
                            d@,
                            j,
                            zeros(4096),
                        ) by {
                            assert(j < m1.data_frames@.len() && m1.data_frames@[j].is_some());
                        }
                    }
                },
                None => {},
            }
        }
        r
    }

    /// Gives the frames of the region back to the allocator and forgets
    /// them. The page table is not touched: entries that named the frames
    /// stay as they are.
    pub fn release_frames(&mut self, allocator: &mut StackFrameAllocator)
        requires
            old(self).area_wf(),
            old(self).frames_in_use(old(allocator)@),
            old(self).distinct_frames(),
            old(allocator)@.wf(),
        ensures
            final(self).area_wf(),
            final(self).vpn_range == old(self).vpn_range,
            final(self).map_type == old(self).map_type,
            final(self).map_perm == old(self).map_perm,
            final(self).data_frames@.len() == 0,
            final(allocator)@.wf(),
            final(allocator)@.end == old(allocator)@.end,
            forall|p: u64| #[trigger]
                final(allocator)@.in_use(p) == (old(allocator)@.in_use(p) && !old(self).holds_frame(p)),
    {
        let ghost s0 = *self;
        let ghost a0 = allocator@;
        let ghost f0 = self.data_frames@;
        proof {
            assert forall|k: int| 0 <= k < f0.len() && (#[trigger] f0[k]).is_some() implies a0.in_use(
                f0[k].unwrap().ppn.0,
            ) by {
                assert(s0.slot((s0.start() + k) as u64) == f0[k]);
            }
        }
        while self.data_frames.len() > 0
            invariant
                s0 == *old(self),
                a0 == old(allocator)@,
                f0 == s0.data_frames@,
                s0.area_wf(),
                s0.distinct_frames(),
                self.vpn_range == s0.vpn_range,
                self.map_type == s0.map_type,
                self.map_perm == s0.map_perm,
                self.data_frames@.len() <= f0.len(),
                self.data_frames@ =~= f0.take(self.data_frames@.len() as int),
                allocator@.wf(),
                allocator@.end == a0.end,
                forall|k: int|
                    0 <= k < self.data_frames@.len() && (#[trigger] f0[k]).is_some()
                        ==> allocator@.in_use(f0[k].unwrap().ppn.0),
                forall|k: int|
                    self.data_frames@.len() <= k < f0.len() && (#[trigger] f0[k]).is_some()
                        ==> !allocator@.in_use(f0[k].unwrap().ppn.0),
                forall|p: u64| allocator@.in_use(p) ==> a0.in_use(p),
                forall|p: u64| a0.in_use(p) && !s0.holds_frame(p) ==> allocator@.in_use(p),
            decreases self.data_frames@.len(),
        {
            let ghost a1 = allocator@;
            let ghost n = self.data_frames@.len() - 1;
            let held = self.data_frames.pop().unwrap();
            proof {
                assert(held == f0[n]);
                assert(s0.slot((s0.start() + n) as u64) == f0[n]);
            }
            match held {
                Some(frame) => {
                    proof {
                        lemma_dealloc_step(a1, frame.ppn.0);
                        assert(s0.holds_frame(frame.ppn.0));
                    }
                    allocator.dealloc(frame.ppn);
                    proof {
                        assert forall|k: int|
                            0 <= k < self.data_frames@.len() && (#[trigger] f0[k]).is_some() implies allocator@.in_use(
                            f0[k].unwrap().ppn.0,
                        ) by {
                            assert(s0.slot((s0.start() + k) as u64) == f0[k]);
                            assert(a1.in_use(f0[k].unwrap().ppn.0));
                        }
                        assert forall|k: int|
                            self.data_frames@.len() <= k < f0.len() && (
                            #[trigger] f0[k]).is_some() implies !allocator@.in_use(
                            f0[k].unwrap().ppn.0,
                        ) by {
                            if k > n {
                                assert(!a1.in_use(f0[k].unwrap().ppn.0));
                            }
                        }
                    }
                },
                None => {},
            }
        }
        proof {
            assert forall|p: u64| #[trigger]
                allocator@.in_use(p) == (a0.in_use(p) && !s0.holds_frame(p)) by {
                if s0.holds_frame(p) {
                    let v = choose|v: u64|
                        (#[trigger] s0.slot(v)).is_some() && s0.slot(v).unwrap().ppn.0 == p;
                    let k = v - s0.start();
                    assert(f0[k] == s0.slot(v));
                    assert(!allocator@.in_use(f0[k].unwrap().ppn.0));
                }
            }
        }
    }

    /// A region with the range, the kind and the rights of `another` and
    /// with no page mapped.
    pub fn from_another(another: &MapArea) -> (r: Self)
        requires
            another.start() <= another.end(),
        ensures
            r.vpn_range.start() == another.vpn_range.start(),
            r.vpn_range.end() == another.vpn_range.end(),
            r.data_frames@.len() == 0,
            r.map_type == another.map_type,
            r.map_perm == another.map_perm,
    {
        Self {
            vpn_range: SimpleRange::new(
                another.vpn_range.get_start(),
                another.vpn_range.get_end(),
            ),
            data_frames: Vec::new(),
            map_type: another.map_type,
            map_perm: another.map_perm,
        }
    }

    /// Whether the region holds a frame for each of its pages.
    pub open spec fn full(&self) -> bool {
        &&& self.data_frames@.len() == self.end() - self.start()
        &&& forall|j: int|
            0 <= j < self.data_frames@.len() ==> (#[trigger] self.data_frames@[j]).is_some()
    }

    /// Whether each page of the region holds the bytes of the same page of `source`.
    pub open spec fn same_pages(&self, source: &MapArea) -> bool {
        &&& self.data_frames@.len() == source.data_frames@.len()
        &&& forall|j: int|
            0 <= j < self.data_frames@.len() ==> (#[trigger] self.data_frames@[j]).is_some()
                && source.data_frames@[j].is_some() && self.data_frames@[j].unwrap()@
                == source.data_frames@[j].unwrap()@
    }

    /// Copies the bytes of each page of `source` to the same page of this region.
    pub fn copy_pages(&mut self, source: &MapArea)
        requires
            old(self).area_wf(),
            source.area_wf(),
            old(self).full(),
            source.full(),
            old(self).data_frames@.len() == source.data_frames@.len(),
        ensures
            final(self).area_wf(),
            final(self).vpn_range == old(self).vpn_range,
            final(self).map_type == old(self).map_type,
            final(self).map_perm == old(self).map_perm,
            final(self).data_frames@.len() == old(self).data_frames@.len(),
            forall|j: int|
                0 <= j < old(self).data_frames@.len() ==> (#[trigger] final(self).data_frames@[j]).is_some()
                    == old(self).data_frames@[j].is_some(),
            forall|j: int|
                0 <= j < old(self).data_frames@.len() && old(self).data_frames@[j].is_some()
                    ==> (#[trigger] final(self).data_frames@[j]).unwrap().ppn == old(self).data_frames@[j].unwrap().ppn,
            final(self).same_pages(source),
    {
        let n: usize = self.data_frames.len();
        let mut j: usize = 0;
        while j < n
            invariant
                0 <= j <= n,
                n == old(self).data_frames@.len(),
                n == source.data_frames@.len(),
                old(self).area_wf(),
                old(self).full(),
                source.area_wf(),
                source.full(),
                self.area_wf(),
                self.vpn_range == old(self).vpn_range,
                self.map_type == old(self).map_type,
                self.map_perm == old(self).map_perm,
                self.data_frames@.len() == n,
                forall|i: int|
                    0 <= i < n ==> (#[trigger] self.data_frames@[i]).is_some() && self.data_frames@[i].unwrap().ppn
                        == old(self).data_frames@[i].unwrap().ppn,
                forall|i: int|
                    0 <= i < j ==> (#[trigger] self.data_frames@[i]).unwrap()@
                        == source.data_frames@[i].unwrap()@,
            decreases n - j,
        {
            assert(source.data_frames@[j as int].is_some());
            assert(source.data_frames@[j as int].unwrap().wf());
            assert(self.data_frames@[j as int].is_some());
            assert(self.data_frames@[j as int].unwrap().wf());
            match &source.data_frames[j] {
                Some(src) => {
                    match &mut self.data_frames[j] {
                        Some(dst) => {
                            dst.copy_from(src.get_bytes_array());
                            proof {
                                assert(src@.subrange(4096, 4096) =~= Seq::<u8>::empty());
                                assert(dst@ =~= src@);
                            }
                        },
                        None => {},
                    }
                },
                None => {},
            }
            j += 1;
        }
    }

    /// Maps the pages of a region that holds no frame yet and, where all of
    /// them could be mapped and the region is framed, copies the pages of
    /// `source` to them.
    pub fn map_with_copy(
        &mut self,
        page_table: &mut PageTable,
        allocator: &mut StackFrameAllocator,
        source: &MapArea,
    ) -> (r: Result<(), MapError>)
        requires
            old(self).area_wf(),
            old(self).data_frames@.len() == 0,
            old(page_table).wf(),
            old(page_table).frames_in_use(old(allocator)@),
            old(allocator)@.wf(),
            old(allocator)@.end <= 0x1000_0000_0000,
            source.area_wf(),
            source.map_type == old(self).map_type,
            source.start() == old(self).start(),
            source.end() == old(self).end(),
            source.map_type == MapType::Framed ==> source.full(),
        ensures
            final(self).fits(final(page_table), final(allocator)@),
            final(self).vpn_range == old(self).vpn_range,
            final(self).map_type == old(self).map_type,
            final(self).map_perm == old(self).map_perm,
            grown(old(page_table), old(allocator)@, final(page_table), final(allocator)@),
            forall|v: u64|
                v < VPN_LIMIT && !old(self).contains(v) ==> #[trigger] final(page_table).translation(v) == old(page_table).translation(v),
            forall|v: u64|
                (#[trigger] final(self).slot(v)).is_some() ==> !old(allocator)@.in_use(
                    final(self).slot(v).unwrap().ppn.0,
                ),
            final(allocator)@.free_count() >= old(allocator)@.free_count() - 3 * (old(self).end()
                - old(self).start()),
            r.is_ok() ==> {
                &&& final(self).mapped_in(final(page_table))
                &&& forall|v: u64|
                    old(self).contains(v) ==> (#[trigger] old(page_table).translation(v)).is_none()
                &&& final(self).map_type == MapType::Framed ==> final(self).same_pages(source)
            },
            r == Err::<(), MapError>(MapError::AlreadyMapped) ==> exists|v: u64|
                old(self).contains(v) && (#[trigger] old(page_table).translation(v)).is_some(),
            r == Err::<(), MapError>(MapError::OutOfFrames) ==> final(allocator)@.free_count() < 3,
            (forall|v: u64|
                old(self).contains(v) ==> (#[trigger] old(page_table).translation(v)).is_none())
                && old(allocator)@.free_count() >= 3 * (old(self).end() - old(self).start())
                ==> r.is_ok(),
    {
        let ghost m0 = *self;
        let r = self.map_with_data(page_table, allocator, None);
        let ghost m1 = *self;
        if r.is_ok() {
            match self.map_type {
                MapType::Framed => {
                    proof {
                        assert(m1.area_wf()) by {
                            reveal(MapArea::fits);
                        }
                        assert(m1.loaded(None));
                        if m1.end() > m1.start() {
                            let j = m1.end() - m1.start() - 1;
                            assert(j < m1.data_frames@.len() && m1.data_frames@[j].is_some());
                        }
                        assert(m1.data_frames@.len() == m1.end() - m1.start());
                        assert(m1.full());
                    }
                    self.copy_pages(source);
                    proof {
                        lemma_fits_same_frames(m1, *self, page_table, allocator@);
                        assert forall|v: u64| (#[trigger] self.slot(v)).is_some() implies !old(allocator)@.in_use(self.slot(v).unwrap().ppn.0) by {
                            assert(m1.slot(v).is_some());
                        }
                    }
                },
                MapType::Identical => {},
            }
        }
        r
    }

    /// Whether page `v` lies in the range of the region.
    pub open spec fn contains(&self, v: u64) -> bool {
        self.start() <= v < self.end()
    }

    /// Number of frames that mapping page `vpn` takes: the nodes that the
    /// walk lacks and, in a framed region, the page's own frame.
    pub open spec fn frames_for(&self, pt: &PageTable, vpn: u64) -> int {
        pt.missing(vpn) + if self.map_type == MapType::Framed {
            1int
        } else {
            0int
        }
    }
}

/// Page `j` of a region after `data` was copied to the region: the part of
/// the data that falls into the page, then what the page held behind it.
pub open spec fn page_after_copy(data: Seq<u8>, j: int, before: Seq<u8>) -> Seq<u8> {
    let lo = 4096 * j;
    let hi = if data.len() - lo > 4096 {
        lo + 4096
    } else {
        data.len() as int
    };
    if lo < data.len() {
        data.subrange(lo, hi) + before.subrange(hi - lo, 4096)
    } else {
        before
    }
}

/// A frame in use stays in use over allocations.
pub proof fn lemma_allocs_keep(a: AllocatorState, n: int, p: u64)
    requires
        a.wf(),
        a.in_use(p),
    ensures
        after_allocs(a, n).in_use(p),
        after_allocs(a, n).wf(),
        after_allocs(a, n).end == a.end,
    decreases n,
{
    if n > 0 {
        lemma_alloc_step(a);
        lemma_allocs_keep(a.after_alloc(), n - 1, p);
    }
}



/// A region whose frames lie in the same frames as those of a region that
/// fits, page by page, fits as well and is mapped as far as that one is.
pub proof fn lemma_fits_same_frames(a1: MapArea, a2: MapArea, pt: &PageTable, a: AllocatorState)
    requires
        a1.fits(pt, a),
        a2.area_wf(),
        a2.vpn_range == a1.vpn_range,
        a2.map_type == a1.map_type,
        a2.map_perm == a1.map_perm,
        a2.data_frames@.len() == a1.data_frames@.len(),
        forall|j: int|
            0 <= j < a1.data_frames@.len() ==> (#[trigger] a2.data_frames@[j]).is_some()
                == a1.data_frames@[j].is_some(),
        forall|j: int|
            0 <= j < a1.data_frames@.len() && a1.data_frames@[j].is_some() ==> (
            #[trigger] a2.data_frames@[j]).unwrap().ppn == a1.data_frames@[j].unwrap().ppn,
    ensures
        a2.fits(pt, a),
        a1.mapped_in(pt) ==> a2.mapped_in(pt),
        forall|v: u64| (#[trigger] a2.slot(v)).is_some() == a1.slot(v).is_some(),
        forall|v: u64|
            (#[trigger] a2.slot(v)).is_some() ==> a2.slot(v).unwrap().ppn == a1.slot(
                v,
            ).unwrap().ppn,
{
    reveal(MapArea::fits);
    assert forall|v: u64| (#[trigger] a2.slot(v)).is_some() == a1.slot(v).is_some() by {}
    assert forall|v: u64| (#[trigger] a2.slot(v)).is_some() implies a2.slot(v).unwrap().ppn
        == a1.slot(v).unwrap().ppn by {}
    assert forall|v: u64| (#[trigger] a2.slot(v)).is_some() implies a2.page_mapped(pt, v) by {
        assert(a1.slot(v).is_some());
        assert(a1.page_mapped(pt, v));
    }
    assert forall|v: u64| (#[trigger] a2.slot(v)).is_some() implies a.in_use(
        a2.slot(v).unwrap().ppn.0,
    ) by {
        assert(a1.slot(v).is_some());
    }
    assert forall|v: u64, w: u64|
        v != w && (#[trigger] a2.slot(v)).is_some() && (#[trigger] a2.slot(w)).is_some() implies a2.slot(
        v,
    ).unwrap().ppn != a2.slot(w).unwrap().ppn by {
        assert(a1.slot(v).is_some());
        assert(a1.slot(w).is_some());
    }
    assert forall|v: u64, k: int|
        (#[trigger] a2.slot(v)).is_some() && 0 <= k < pt.frames@.len() implies (
    #[trigger] pt.frames@[k]).ppn != a2.slot(v).unwrap().ppn by {
        assert(a1.slot(v).is_some());
    }
    if a1.mapped_in(pt) {
        assert forall|v: u64| a2.start() <= v < a2.end() implies #[trigger] a2.page_mapped(
            pt,
            v,
        ) by {
            assert(a1.page_mapped(pt, v));
            if a1.map_type == MapType::Framed {
                assert(a1.slot(v).is_some());
                assert(a2.slot(v).is_some());
            }
        }
    }
}

/// Number of the page that holds the trampoline.
pub const TRAMPOLINE_VPN: u64 = 0x7ff_ffff;

/// How a page table and an allocator may change while a region is mapped:
/// pages that were mapped stay as they were, nodes stay in their frames, new
/// nodes lie in frames that were free, and no frame is given back.
#[verifier::opaque]
pub open spec fn grown(pt0: &PageTable, a0: AllocatorState, pt1: &PageTable, a1: AllocatorState) -> bool {
    &&& pt1.wf()
    &&& pt1.frames_in_use(a1)
    &&& a1.wf()
    &&& a1.end == a0.end
    &&& pt1.root_ppn == pt0.root_ppn
    &&& pt1.frames@.len() >= pt0.frames@.len()
    &&& forall|v: u64|
        v < VPN_LIMIT && pt0.translation(v).is_some() ==> #[trigger] pt1.translation(v)
            == pt0.translation(v)
    &&& forall|p: u64| a0.in_use(p) ==> a1.in_use(p)
    &&& forall|k: int|
        0 <= k < pt0.frames@.len() ==> (#[trigger] pt1.frames@[k]).ppn == pt0.frames@[k].ppn
    &&& forall|k: int|
        pt0.frames@.len() <= k < pt1.frames@.len() ==> !a0.in_use((#[trigger] pt1.frames@[k]).ppn.0)
}

/// A region that fits stays fitting while the page table and the allocator grow.
pub proof fn lemma_fits_grown(
    ar: MapArea,
    pt0: &PageTable,
    a0: AllocatorState,
    pt1: &PageTable,
    a1: AllocatorState,
)
    requires
        ar.fits(pt0, a0),
        grown(pt0, a0, pt1, a1),
    ensures
        ar.fits(pt1, a1),
        ar.mapped_in(pt0) ==> ar.mapped_in(pt1),
{
    reveal(MapArea::fits);
    reveal(grown);
    assert forall|v: u64| (#[trigger] ar.slot(v)).is_some() implies ar.page_mapped(pt1, v) by {
        assert(ar.page_mapped(pt0, v));
        assert(v < VPN_LIMIT);
        assert(pt1.translation(v) == pt0.translation(v));
    }
    assert forall|v: u64, n: int|
        (#[trigger] ar.slot(v)).is_some() && 0 <= n < pt1.frames@.len() implies (
    #[trigger] pt1.frames@[n]).ppn != ar.slot(v).unwrap().ppn by {
        assert(a0.in_use(ar.slot(v).unwrap().ppn.0));
        if n < pt0.frames@.len() {
            assert(pt0.frames@[n].ppn != ar.slot(v).unwrap().ppn);
        }
    }
    if ar.mapped_in(pt0) {
        assert forall|v: u64| ar.start() <= v < ar.end() implies #[trigger] ar.page_mapped(
            pt1,
            v,
        ) by {
            assert(ar.page_mapped(pt0, v));
            assert(v < VPN_LIMIT);
            assert(pt1.translation(v) == pt0.translation(v));
        }
    }
}

/// What `wf` says of the page table and of the allocator.
pub proof fn lemma_wf_parts(s: MemorySet, a: AllocatorState)
    requires
        s.wf(a),
    ensures
        s.page_table.wf(),
        s.page_table.frames_wf(),
        s.page_table.frames_in_use(a),
        a.wf(),
        a.end <= 0x1000_0000_0000,
        forall|k: int| 0 <= k < s.areas@.len() ==> (#[trigger] s.areas@[k]).fits(&s.page_table, a),
{
    reveal(MemorySet::wf);
}

/// A region that holds no frame fits any page table and allocator in order.
pub proof fn lemma_fits_empty(m: MapArea, pt: &PageTable, a: AllocatorState)
    requires
        m.area_wf(),
        m.data_frames@.len() == 0,
        pt.wf(),
        pt.frames_in_use(a),
        a.wf(),
        a.end <= 0x1000_0000_0000,
    ensures
        m.fits(pt, a),
{
    reveal(MapArea::fits);
}

/// What growth keeps: the allocator's end, the root, and the translation of
/// every page that was mapped.
pub proof fn lemma_grown_parts(pt0: &PageTable, a0: AllocatorState, pt1: &PageTable, a1: AllocatorState)
    requires
        grown(pt0, a0, pt1, a1),
    ensures
        a1.end == a0.end,
        a1.wf(),
        pt1.wf(),
        pt1.root_ppn == pt0.root_ppn,
        forall|v: u64|
            v < VPN_LIMIT && pt0.translation(v).is_some() ==> #[trigger] pt1.translation(v)
                == pt0.translation(v),
        forall|p: u64| a0.in_use(p) ==> a1.in_use(p),
{
    reveal(grown);
}

/// Nothing changed is growth.
pub proof fn lemma_grown_refl(pt: &PageTable, a: AllocatorState)
    requires
        pt.wf(),
        pt.frames_in_use(a),
        a.wf(),
    ensures
        grown(pt, a, pt, a),
{
    reveal(grown);
}

/// Adding a region whose frames were free before keeps the frames of the
/// address space accounted for.
pub proof fn lemma_push_wf(s0: MemorySet, a0: AllocatorState, s1: MemorySet, a1: AllocatorState, m: MapArea)
    requires
        s0.wf(a0),
        grown(&s0.page_table, a0, &s1.page_table, a1),
        s1.areas@ == s0.areas@.push(m),
        m.fits(&s1.page_table, a1),
        forall|v: u64| (#[trigger] m.slot(v)).is_some() ==> !a0.in_use(m.slot(v).unwrap().ppn.0),
    ensures
        s1.wf(a1),
{
    reveal(MapArea::fits);
    reveal(grown);
    reveal(MemorySet::wf);
    assert forall|k: int| 0 <= k < s1.areas@.len() implies (#[trigger] s1.areas@[k]).fits(
        &s1.page_table,
        a1,
    ) by {
        if k < s0.areas@.len() {
            assert(s1.areas@[k] == s0.areas@[k]);
            lemma_fits_grown(s0.areas@[k], &s0.page_table, a0, &s1.page_table, a1);
        }
    }
    assert forall|k: int, j: int, v: u64, w: u64|
        0 <= k < j < s1.areas@.len() && (#[trigger] s1.areas@[k].slot(v)).is_some() && (
        #[trigger] s1.areas@[j].slot(w)).is_some() implies s1.areas@[k].slot(v).unwrap().ppn
        != s1.areas@[j].slot(w).unwrap().ppn by {
        assert(s1.areas@[k] == s0.areas@[k]);
        assert(s0.areas@[k].fits(&s0.page_table, a0));
        assert(a0.in_use(s0.areas@[k].slot(v).unwrap().ppn.0));
        if j < s0.areas@.len() {
            assert(s1.areas@[j] == s0.areas@[j]);
        }
    }
}

/// A frame that the address space owns after a region was added was owned
/// before or was free before.
pub proof fn lemma_push_owns(s0: MemorySet, a0: AllocatorState, s1: MemorySet, a1: AllocatorState, m: MapArea)
    requires
        grown(&s0.page_table, a0, &s1.page_table, a1),
        s1.areas@ == s0.areas@.push(m),
        forall|v: u64| (#[trigger] m.slot(v)).is_some() ==> !a0.in_use(m.slot(v).unwrap().ppn.0),
    ensures
        forall|p: u64| #[trigger] s1.owns(p) ==> s0.owns(p) || !a0.in_use(p),
{
    reveal(grown);
    assert forall|p: u64| #[trigger] s1.owns(p) implies s0.owns(p) || !a0.in_use(p) by {
        if s1.page_table.has_node(p) {
            let k = choose|k: int|
                0 <= k < s1.page_table.frames@.len() && (#[trigger] s1.page_table.frames@[k]).ppn.0
                    == p;
            if k < s0.page_table.frames@.len() {
                assert(s0.page_table.frames@[k].ppn.0 == p);
                assert(s0.page_table.has_node(p));
            }
        } else {
            let k = choose|k: int|
                0 <= k < s1.areas@.len() && (#[trigger] s1.areas@[k]).holds_frame(p);
            if k < s0.areas@.len() {
                assert(s1.areas@[k] == s0.areas@[k]);
                assert(s0.areas@[k].holds_frame(p));
            } else {
                assert(s1.areas@[k] == m);
                let v = choose|v: u64|
                    (#[trigger] m.slot(v)).is_some() && m.slot(v).unwrap().ppn.0 == p;
                assert(!a0.in_use(m.slot(v).unwrap().ppn.0));
            }
        }
    }
}

/// The page table and the allocator may grow under an address space whose
/// regions stay as they are.
pub proof fn lemma_wf_grown(s0: MemorySet, a0: AllocatorState, s1: MemorySet, a1: AllocatorState)
    requires
        s0.wf(a0),
        grown(&s0.page_table, a0, &s1.page_table, a1),
        s1.areas@ == s0.areas@,
    ensures
        s1.wf(a1),
        forall|p: u64| #[trigger] s1.owns(p) ==> s0.owns(p) || !a0.in_use(p),
{
    reveal(MemorySet::wf);
    assert forall|k: int| 0 <= k < s1.areas@.len() implies (#[trigger] s1.areas@[k]).fits(
        &s1.page_table,
        a1,
    ) by {
        lemma_fits_grown(s0.areas@[k], &s0.page_table, a0, &s1.page_table, a1);
    }
    reveal(grown);
    assert forall|p: u64| #[trigger] s1.owns(p) implies s0.owns(p) || !a0.in_use(p) by {
        if s1.page_table.has_node(p) {
            let k = choose|k: int|
                0 <= k < s1.page_table.frames@.len() && (#[trigger] s1.page_table.frames@[k]).ppn.0
                    == p;
            if k < s0.page_table.frames@.len() {
                assert(s0.page_table.frames@[k].ppn.0 == p);
                assert(s0.page_table.has_node(p));
            }
        } else {
            let k = choose|k: int|
                0 <= k < s1.areas@.len() && (#[trigger] s1.areas@[k]).holds_frame(p);
            assert(s0.areas@[k].holds_frame(p));
        }
    }
}

/// Mapping one page outside the regions, where no page was mapped, keeps a
/// complete address space complete if that page is the trampoline's.
pub proof fn lemma_complete_trampoline(s0: MemorySet, a0: AllocatorState, s1: MemorySet, a1: AllocatorState)
    requires
        s0.complete(a0),
        s1.wf(a1),
        grown(&s0.page_table, a0, &s1.page_table, a1),
        s1.areas@ == s0.areas@,
        forall|v: u64|
            v < VPN_LIMIT && v != TRAMPOLINE_VPN ==> #[trigger] s1.page_table.translation(v)
                == s0.page_table.translation(v),
    ensures
        s1.complete(a1),
{
    reveal(MemorySet::wf);
    reveal(MemorySet::complete);
    assert forall|k: int| 0 <= k < s1.areas@.len() implies (#[trigger] s1.areas@[k]).mapped_in(
        &s1.page_table,
    ) by {
        assert(s0.areas@[k].fits(&s0.page_table, a0));
        lemma_fits_grown(s0.areas@[k], &s0.page_table, a0, &s1.page_table, a1);
    }
    assert forall|v: u64|
        v < VPN_LIMIT && (#[trigger] s1.translation(v)).is_some() implies s1.covered(v) || v
        == TRAMPOLINE_VPN by {
        if v != TRAMPOLINE_VPN {
            assert(s1.page_table.translation(v) == s0.page_table.translation(v));
            assert(s0.translation(v).is_some());
            assert(s0.covered(v));
            let k = choose|k: int|
                0 <= k < s0.areas@.len() && (#[trigger] s0.areas@[k]).contains(v);
            assert(s1.areas@[k].contains(v));
        }
    }
}

/// What mapping one page does to a page table and an allocator is growth.
pub proof fn lemma_map_grown(
    pt0: &PageTable,
    a0: AllocatorState,
    pt1: &PageTable,
    a1: AllocatorState,
    vpn: u64,
    n: int,
)
    requires
        pt0.wf(),
        a0.wf(),
        vpn < VPN_LIMIT,
        pt0.translation(vpn).is_none(),
        pt1.wf(),
        pt1.frames_in_use(a1),
        pt1.root_ppn == pt0.root_ppn,
        a1 == after_allocs(a0, n),
        pt1.frames@.len() >= pt0.frames@.len(),
        forall|v: u64|
            vpn_indexes(v) != vpn_indexes(vpn) ==> #[trigger] pt1.translation(v) == pt0.translation(
                v,
            ),
        forall|k: int|
            0 <= k < pt0.frames@.len() ==> (#[trigger] pt1.frames@[k]).ppn == pt0.frames@[k].ppn,
        forall|k: int|
            pt0.frames@.len() <= k < pt1.frames@.len() ==> !a0.in_use((#[trigger] pt1.frames@[k]).ppn.0),
    ensures
        grown(pt0, a0, pt1, a1),
        forall|v: u64|
            v < VPN_LIMIT && v != vpn ==> #[trigger] pt1.translation(v) == pt0.translation(v),
{
    reveal(grown);
    assert forall|v: u64| v < VPN_LIMIT && v != vpn implies #[trigger] pt1.translation(v)
        == pt0.translation(v) by {
        if vpn_indexes(v) == vpn_indexes(vpn) {
            lemma_indexes_injective(v, vpn);
        }
    }
    assert forall|p: u64| a0.in_use(p) implies a1.in_use(p) by {
        lemma_allocs_keep(a0, n, p);
    }
    lemma_allocs_wf(a0, n);
}

/// Allocations keep the allocator in order and its end where it was.
pub proof fn lemma_allocs_wf(a: AllocatorState, n: int)
    requires
        a.wf(),
    ensures
        after_allocs(a, n).wf(),
        after_allocs(a, n).end == a.end,
    decreases n,
{
    if n > 0 {
        lemma_alloc_step(a);
        lemma_allocs_wf(a.after_alloc(), n - 1);
    }
}

/// Adding a region that is mapped throughout, on pages that were not mapped,
/// keeps the address space complete.
pub proof fn lemma_push_complete(
    s0: MemorySet,
    a0: AllocatorState,
    s1: MemorySet,
    a1: AllocatorState,
    m: MapArea,
)
    requires
        s0.complete(a0),
        s1.wf(a1),
        grown(&s0.page_table, a0, &s1.page_table, a1),
        s1.areas@ == s0.areas@.push(m),
        m.mapped_in(&s1.page_table),
        forall|v: u64| m.contains(v) ==> (#[trigger] s0.page_table.translation(v)).is_none(),
        forall|v: u64|
            v < VPN_LIMIT && !m.contains(v) ==> #[trigger] s1.page_table.translation(v)
                == s0.page_table.translation(v),
    ensures
        s1.complete(a1),
{
    reveal(MapArea::fits);
    reveal(MemorySet::wf);
    reveal(MemorySet::complete);
    let last = s0.areas@.len() as int;
    assert forall|k: int| 0 <= k < s1.areas@.len() implies (#[trigger] s1.areas@[k]).mapped_in(
        &s1.page_table,
    ) by {
        if k < last {
            assert(s1.areas@[k] == s0.areas@[k]);
            assert(s0.areas@[k].fits(&s0.page_table, a0));
            lemma_fits_grown(s0.areas@[k], &s0.page_table, a0, &s1.page_table, a1);
        }
    }
    assert forall|k: int, j: int, v: u64| 0 <= k < j < s1.areas@.len() implies !((
    #[trigger] s1.areas@[k].contains(v)) && (#[trigger] s1.areas@[j].contains(v))) by {
        assert(s1.areas@[k] == s0.areas@[k]);
        if j < last {
            assert(s1.areas@[j] == s0.areas@[j]);
        } else if s0.areas@[k].contains(v) && m.contains(v) {
            assert(s0.areas@[k].mapped_in(&s0.page_table));
            assert(s0.areas@[k].page_mapped(&s0.page_table, v));
            assert(s0.page_table.translation(v).is_none());
        }
    }
    assert forall|v: u64|
        v < VPN_LIMIT && (#[trigger] s1.translation(v)).is_some() implies s1.covered(v) || v
        == TRAMPOLINE_VPN by {
        if m.contains(v) {
            assert(s1.areas@[last].contains(v));
        } else {
            assert(s1.page_table.translation(v) == s0.page_table.translation(v));
            assert(s0.translation(v).is_some());
            if v != TRAMPOLINE_VPN {
                assert(s0.covered(v));
                let k = choose|k: int|
                    0 <= k < s0.areas@.len() && (#[trigger] s0.areas@[k]).contains(v);
                assert(s1.areas@[k] == s0.areas@[k]);
                assert(s1.areas@[k].contains(v));
            }
        }
    }
}

/// An address space: a page table and the regions that are mapped in it.
pub struct MemorySet {
    pub page_table: PageTable,
    pub areas: Vec<MapArea>,
}

impl MemorySet {
    /// The entry that page `vpn` is mapped by, if it is mapped.
    pub open spec fn translation(&self, vpn: u64) -> Option<PageTableEntry> {
        self.page_table.translation(vpn)
    }

    /// Whether page `v` lies in one of the regions.
    pub open spec fn covered(&self, v: u64) -> bool {
        exists|k: int| 0 <= k < self.areas@.len() && (#[trigger] self.areas@[k]).contains(v)
    }

    /// The frames of the address space are accounted for: the nodes of the
    /// page table and the frames of the regions are in use with the
    /// allocator and differ from each other, and each frame that a region
    /// holds for a page is what the page is mapped to.
    #[verifier::opaque]
    pub open spec fn wf(&self, a: AllocatorState) -> bool {
        &&& self.page_table.wf()
        &&& self.page_table.frames_in_use(a)
        &&& a.wf()
        &&& a.end <= 0x1000_0000_0000
        &&& forall|k: int|
            0 <= k < self.areas@.len() ==> (#[trigger] self.areas@[k]).fits(&self.page_table, a)
        &&& forall|k: int, m: int, v: u64, w: u64|
            0 <= k < m < self.areas@.len() && (#[trigger] self.areas@[k].slot(v)).is_some() && (
            #[trigger] self.areas@[m].slot(w)).is_some() ==> self.areas@[k].slot(v).unwrap().ppn
                != self.areas@[m].slot(w).unwrap().ppn
    }

    /// Beyond `wf`: every page of every region is mapped as its region asks,
    /// no page lies in two regions, and no page outside the regions is mapped
    /// but the trampoline.
    #[verifier::opaque]
    pub open spec fn complete(&self, a: AllocatorState) -> bool {
        &&& self.wf(a)
        &&& forall|k: int|
            0 <= k < self.areas@.len() ==> (#[trigger] self.areas@[k]).mapped_in(&self.page_table)
        &&& forall|k: int, m: int, v: u64|
            0 <= k < m < self.areas@.len() ==> !((#[trigger] self.areas@[k].contains(v)) && (
            #[trigger] self.areas@[m].contains(v)))
        &&& forall|v: u64|
            v < VPN_LIMIT && (#[trigger] self.translation(v)).is_some() ==> self.covered(v) || v
                == TRAMPOLINE_VPN
    }

    /// An address space with an empty page table and no region, or `None`
    /// when the allocator has no frame for the root of the table.
    pub fn new_bare(allocator: &mut StackFrameAllocator) -> (r: Option<Self>)
        requires
            old(allocator)@.wf(),
            old(allocator)@.end <= 0x1000_0000_0000,
        ensures
            final(allocator)@ == old(allocator)@.after_alloc(),
            r.is_some() == old(allocator)@.next().is_some(),
            r.is_some() ==> {
                let t = r.unwrap();
                &&& t.complete(final(allocator)@)
                &&& t.areas@.len() == 0
                &&& Some(t.page_table.root_ppn.0) == old(allocator)@.next()
                &&& t.page_table.frames@.len() == 1
                &&& forall|vpn: u64| t.translation(vpn).is_none()
                &&& forall|vpn: u64| t.page_table.missing(vpn) == 2
            },
    {
        proof {
            lemma_alloc_step(allocator@);
            reveal(MemorySet::wf);
            reveal(MemorySet::complete);
        }
        match PageTable::new(allocator) {
            None => None,
            Some(page_table) => Some(Self { page_table, areas: Vec::new() }),
        }
    }

    /// The value that selects this address space in the address-translation register.
    pub fn token(&self) -> (r: u64)
        ensures
            r == self.page_table.token_value(),
    {
        self.page_table.token()
    }

    /// The value to write to the address-translation register to make this
    /// address space the active one; the write and the fence that follows it
    /// are the caller's.
    pub fn activate(&self) -> (r: u64)
        ensures
            r == self.page_table.token_value(),
    {
        self.page_table.token()
    }

    /// The entry that maps page `vpn`, if the page is mapped.
    pub fn translate(&self, vpn: VirtPageNum) -> (r: Option<PageTableEntry>)
        requires
            self.page_table.frames_wf(),
        ensures
            r == self.translation(vpn.0),
    {
        self.page_table.translate(vpn)
    }

    /// Maps the region's pages, copies `data` to them if there is any, and
    /// adds the region to the address space. The region is added also when a
    /// page could not be mapped; it then holds the pages mapped before that one.
    pub fn push(&mut self, allocator: &mut StackFrameAllocator, map_area: MapArea, data: Option<&[u8]>) -> (r:
        Result<(), MapError>)
        requires
            old(self).wf(old(allocator)@),
            map_area.area_wf(),
            map_area.data_frames@.len() == 0,
            data.is_some() ==> map_area.map_type == MapType::Framed && super::address::pages_up(
                data.unwrap()@.len() as int,
            ) <= map_area.end() - map_area.start(),
        ensures
            final(self).wf(final(allocator)@),
            final(self).areas@.len() == old(self).areas@.len() + 1,
            forall|k: int|
                0 <= k < old(self).areas@.len() ==> #[trigger] final(self).areas@[k] == old(self).areas@[k],
            final(self).areas@.last().vpn_range == map_area.vpn_range,
            final(self).areas@.last().map_type == map_area.map_type,
            final(self).areas@.last().map_perm == map_area.map_perm,
            grown(
                &old(self).page_table,
                old(allocator)@,
                &final(self).page_table,
                final(allocator)@,
            ),
            forall|v: u64|
                v < VPN_LIMIT && !map_area.contains(v) ==> #[trigger] final(self).page_table.translation(v) == old(self).page_table.translation(v),
            forall|p: u64| #[trigger]
                final(self).owns(p) ==> old(self).owns(p) || !old(allocator)@.in_use(p),
            final(allocator)@.free_count() >= old(allocator)@.free_count() - 3 * (map_area.end()
                - map_area.start()),
            r.is_ok() ==> {
                &&& final(self).areas@.last().mapped_in(&final(self).page_table)
                &&& old(self).complete(old(allocator)@) ==> final(self).complete(
                    final(allocator)@,
                )
                &&& forall|v: u64|
                    map_area.contains(v) ==> (#[trigger] old(self).page_table.translation(
                        v,
                    )).is_none()
                &&& final(self).areas@.last().loaded(
                    match data {
                        Some(d) => Some(d@),
                        None => None,
                    },
                )
            },
            r == Err::<(), MapError>(MapError::AlreadyMapped) ==> exists|v: u64|
                map_area.contains(v) && (#[trigger] old(self).page_table.translation(v)).is_some(),
            r == Err::<(), MapError>(MapError::OutOfFrames) ==> final(allocator)@.free_count() < 3,
            (forall|v: u64|
                map_area.contains(v) ==> (#[trigger] old(self).page_table.translation(v)).is_none())
                && old(allocator)@.free_count() >= 3 * (map_area.end() - map_area.start())
                ==> r.is_ok(),
    {
        let ghost s0 = *self;
        let ghost a0 = allocator@;
        let mut map_area = map_area;
        proof {
            lemma_wf_parts(s0, a0);
        }
        let r = map_area.map_with_data(&mut self.page_table, allocator, data);
        let ghost m2 = map_area;
        self.areas.push(map_area);
        proof {
            lemma_push_wf(s0, a0, *self, allocator@, m2);
            lemma_push_owns(s0, a0, *self, allocator@, m2);
            if r.is_ok() && s0.complete(a0) {
                lemma_push_complete(s0, a0, *self, allocator@, m2);
            }
        }
        r
    }

    /// Adds a framed region for the pages that `[start_va, end_va)` touches,
    /// each mapped to a cleared frame of its own.
    pub fn insert_framed_area(
        &mut self,
        allocator: &mut StackFrameAllocator,
        start_va: VirtAddr,
        end_va: VirtAddr,
        permission: MapPermission,
    ) -> (r: Result<(), MapError>)
        requires
            old(self).wf(old(allocator)@),
            start_va.0 / 4096 <= super::address::pages_up(end_va.0 as int) <= VPN_LIMIT,
        ensures
            final(self).wf(final(allocator)@),
            final(self).areas@.len() == old(self).areas@.len() + 1,
            forall|k: int|
                0 <= k < old(self).areas@.len() ==> #[trigger] final(self).areas@[k] == old(self).areas@[k],
            final(self).areas@.last().start() == start_va.0 / 4096,
            final(self).areas@.last().end() == super::address::pages_up(end_va.0 as int),
            final(self).areas@.last().map_type == MapType::Framed,
            final(self).areas@.last().map_perm == permission,
            grown(
                &old(self).page_table,
                old(allocator)@,
                &final(self).page_table,
                final(allocator)@,
            ),
            forall|v: u64|
                v < VPN_LIMIT && !(start_va.0 / 4096 <= v < super::address::pages_up(
                    end_va.0 as int,
                )) ==> #[trigger] final(self).page_table.translation(v) == old(self).page_table.translation(v),
            forall|p: u64| #[trigger]
                final(self).owns(p) ==> old(self).owns(p) || !old(allocator)@.in_use(p),
            r.is_ok() ==> {
                &&& final(self).areas@.last().mapped_in(&final(self).page_table)
                &&& old(self).complete(old(allocator)@) ==> final(self).complete(
                    final(allocator)@,
                )
                &&& final(self).areas@.last().loaded(None)
            },
            r == Err::<(), MapError>(MapError::AlreadyMapped) ==> exists|v: u64|
                start_va.0 / 4096 <= v < super::address::pages_up(end_va.0 as int) && (
                #[trigger] old(self).page_table.translation(v)).is_some(),
            r == Err::<(), MapError>(MapError::OutOfFrames) ==> final(allocator)@.free_count() < 3,
            (forall|v: u64|
                start_va.0 / 4096 <= v < super::address::pages_up(end_va.0 as int) ==> (
                #[trigger] old(self).page_table.translation(v)).is_none()) && old(allocator)@.free_count() >= 3 * (super::address::pages_up(end_va.0 as int) - start_va.0 / 4096)
                ==> r.is_ok(),
    {
        let area = MapArea::new(start_va, end_va, MapType::Framed, permission);
        let ghost s0 = *self;
        let r = self.push(allocator, area, None);
        proof {
            if r == Err::<(), MapError>(MapError::AlreadyMapped) {
                let v = choose|v: u64|
                    area.contains(v) && (#[trigger] s0.page_table.translation(v)).is_some();
                assert(start_va.0 / 4096 <= v < super::address::pages_up(end_va.0 as int)
                    && s0.page_table.translation(v).is_some());
            }
        }
        r
    }
}

/// Taking the last region away, with its frames given back, keeps the frames
/// of the address space accounted for.
pub proof fn lemma_wf_after_pop(s0: MemorySet, a0: AllocatorState, s1: MemorySet, a1: AllocatorState)
    requires
        s0.wf(a0),
        s0.areas@.len() > 0,
        s1.areas@ == s0.areas@.drop_last(),
        s1.page_table == s0.page_table,
        a1.wf(),
        a1.end == a0.end,
        forall|p: u64| #[trigger]
            a1.in_use(p) == (a0.in_use(p) && !s0.areas@.last().holds_frame(p)),
    ensures
        s1.wf(a1),
{
    reveal(MemorySet::wf);
    reveal(MapArea::fits);
    let last = s0.areas@.len() - 1;
    let gone = s0.areas@[last];
    assert forall|k: int| 0 <= k < s0.page_table.frames@.len() implies a1.in_use(
        (#[trigger] s0.page_table.frames@[k]).ppn.0,
    ) by {
        let p = s0.page_table.frames@[k].ppn.0;
        assert(a0.in_use(p));
        if gone.holds_frame(p) {
            let v = choose|v: u64|
                (#[trigger] gone.slot(v)).is_some() && gone.slot(v).unwrap().ppn.0 == p;
            assert(s0.page_table.frames@[k].ppn != gone.slot(v).unwrap().ppn);
        }
    }
    assert forall|k: int| 0 <= k < s1.areas@.len() implies (#[trigger] s1.areas@[k]).fits(
        &s1.page_table,
        a1,
    ) by {
        let ar = s0.areas@[k];
        assert(s1.areas@[k] == ar);
        assert(ar.fits(&s0.page_table, a0));
        assert forall|v: u64| (#[trigger] ar.slot(v)).is_some() implies a1.in_use(
            ar.slot(v).unwrap().ppn.0,
        ) by {
            let p = ar.slot(v).unwrap().ppn.0;
            if gone.holds_frame(p) {
                let w = choose|w: u64|
                    (#[trigger] gone.slot(w)).is_some() && gone.slot(w).unwrap().ppn.0 == p;
                assert(s0.areas@[k].slot(v).unwrap().ppn != s0.areas@[last].slot(w).unwrap().ppn);
            }
        }
    }
    assert forall|k: int, m: int, v: u64, w: u64|
        0 <= k < m < s1.areas@.len() && (#[trigger] s1.areas@[k].slot(v)).is_some() && (
        #[trigger] s1.areas@[m].slot(w)).is_some() implies s1.areas@[k].slot(v).unwrap().ppn
        != s1.areas@[m].slot(w).unwrap().ppn by {
        assert(s1.areas@[k] == s0.areas@[k]);
        assert(s1.areas@[m] == s0.areas@[m]);
    }
}

impl MemorySet {
    /// Whether frame `p` holds a node of the page table or a page of a region.
    pub open spec fn owns(&self, p: u64) -> bool {
        self.page_table.has_node(p) || exists|k: int|
            0 <= k < self.areas@.len() && (#[trigger] self.areas@[k]).holds_frame(p)
    }

    /// Gives the frames of all regions back to the allocator and forgets the
    /// regions. The page table stays as it is.
    pub fn recycle_data_pages(&mut self, allocator: &mut StackFrameAllocator)
        requires
            old(self).wf(old(allocator)@),
        ensures
            final(self).wf(final(allocator)@),
            final(self).areas@.len() == 0,
            final(self).page_table == old(self).page_table,
            final(allocator)@.end == old(allocator)@.end,
            final(allocator)@.wf(),
            forall|p: u64| #[trigger] final(self).owns(p) ==> old(self).owns(p),
            forall|p: u64|
                old(allocator)@.in_use(p) && !#[trigger] final(allocator)@.in_use(p) ==> old(self).owns(p),
            forall|p: u64| #[trigger]
                final(allocator)@.in_use(p) == (old(allocator)@.in_use(p) && !(exists|k: int|
                    0 <= k < old(self).areas@.len() && (#[trigger] old(self).areas@[k]).holds_frame(
                        p,
                    ))),
    {
        let ghost s0 = *self;
        let ghost a0 = allocator@;
        proof {
            lemma_wf_parts(s0, a0);
        }
        while self.areas.len() > 0
            invariant
                s0 == *old(self),
                a0 == old(allocator)@,
                self.wf(allocator@),
                self.page_table == s0.page_table,
                self.areas@.len() <= s0.areas@.len(),
                self.areas@ =~= s0.areas@.take(self.areas@.len() as int),
                allocator@.end == a0.end,
                forall|p: u64| allocator@.in_use(p) ==> a0.in_use(p),
                forall|p: u64, k: int|
                    self.areas@.len() <= k < s0.areas@.len() && (#[trigger] s0.areas@[k].holds_frame(
                        p,
                    )) ==> !allocator@.in_use(p),
                forall|p: u64|
                    a0.in_use(p) && !(exists|k: int|
                        0 <= k < s0.areas@.len() && (#[trigger] s0.areas@[k]).holds_frame(p))
                        ==> #[trigger] allocator@.in_use(p),
            decreases self.areas@.len(),
        {
            let ghost s1 = *self;
            let ghost a1 = allocator@;
            let ghost n = self.areas@.len() - 1;
            let mut area = self.areas.pop().unwrap();
            proof {
                lemma_wf_parts(s1, a1);
                assert(area == s1.areas@[n]);
                assert(area == s0.areas@[n]);
                assert(area.fits(&s1.page_table, a1));
                assert(area.area_wf() && area.frames_in_use(a1) && area.distinct_frames()) by {
                    reveal(MapArea::fits);
                }
            }
            area.release_frames(allocator);
            proof {
                assert(self.areas@ =~= s1.areas@.drop_last());
                lemma_wf_after_pop(s1, a1, *self, allocator@);
                assert forall|p: u64, k: int|
                    self.areas@.len() <= k < s0.areas@.len() && (
                    #[trigger] s0.areas@[k].holds_frame(p)) implies !allocator@.in_use(p) by {
                    if k > n {
                        assert(!a1.in_use(p));
                    }
                }
                assert forall|p: u64|
                    a0.in_use(p) && !(exists|k: int|
                        0 <= k < s0.areas@.len() && (#[trigger] s0.areas@[k]).holds_frame(
                            p,
                        )) implies #[trigger] allocator@.in_use(p) by {
                    assert(a1.in_use(p));
                    assert(!s0.areas@[n].holds_frame(p));
                }
            }
        }
        proof {
            lemma_wf_parts(*self, allocator@);
            assert forall|p: u64| #[trigger] self.owns(p) implies s0.owns(p) by {
                if !self.page_table.has_node(p) {
                    let k = choose|k: int|
                        0 <= k < self.areas@.len() && (#[trigger] self.areas@[k]).holds_frame(p);
                }
            }
            assert forall|p: u64| #[trigger]
                allocator@.in_use(p) == (a0.in_use(p) && !(exists|k: int|
                    0 <= k < s0.areas@.len() && (#[trigger] s0.areas@[k]).holds_frame(p))) by {
                if exists|k: int|
                    0 <= k < s0.areas@.len() && (#[trigger] s0.areas@[k]).holds_frame(p) {
                    let k = choose|k: int|
                        0 <= k < s0.areas@.len() && (#[trigger] s0.areas@[k]).holds_frame(p);
                    assert(s0.areas@[k].holds_frame(p));
                }
            }
        }
    }

    /// Gives every frame of the address space back to the allocator: those
    /// of the regions and those of the page table. The address space is gone.
    pub fn release(self, allocator: &mut StackFrameAllocator)
        requires
            self.wf(old(allocator)@),
        ensures
            final(allocator)@.wf(),
            final(allocator)@.end == old(allocator)@.end,
            forall|p: u64| #[trigger]
                final(allocator)@.in_use(p) == (old(allocator)@.in_use(p) && !self.owns(p)),
    {
        let mut this = self;
        this.recycle_data_pages(allocator);
        proof {
            lemma_wf_parts(this, allocator@);
        }
        let MemorySet { page_table, areas } = this;
        page_table.release(allocator);
    }
}

/// The page of a virtual address given as a word: the address's low 39 bits
/// divided by the page size.
pub open spec fn va_page(x: u64) -> u64 {
    (x & 0x7f_ffff_ffff) / 4096
}

/// The first page at or after a virtual address given as a word.
pub open spec fn va_page_up(x: u64) -> u64 {
    super::address::pages_up((x & 0x7f_ffff_ffff) as int) as u64
}

/// The frame of a physical address given as a word: the address's low 56
/// bits divided by the frame size.
pub open spec fn pa_frame(x: u64) -> u64 {
    (x & 0xff_ffff_ffff_ffff) / 4096
}

/// Where the kernel's sections lie in memory, as the linker and the board
/// give it: the bounds of code, read-only data, data and zeroed data, the
/// end of the kernel, the frame of the trampoline code, the end of memory,
/// and the device registers as pairs of start and length.
pub struct KernelLayout {
    pub stext: u64,
    pub etext: u64,
    pub srodata: u64,
    pub erodata: u64,
    pub sdata: u64,
    pub edata: u64,
    pub sbss_with_stack: u64,
    pub ebss: u64,
    pub ekernel: u64,
    pub strampoline: u64,
    pub memory_end: u64,
    pub mmio: Vec<(u64, u64)>,
}

impl KernelLayout {
    /// The regions of the kernel's address space in the order in which they
    /// are mapped, each as start, end and access rights.
    pub open spec fn sections(&self) -> Seq<(u64, u64, u8)> {
        seq![
            (self.stext, self.etext, 10u8),
            (self.srodata, self.erodata, 2u8),
            (self.sdata, self.edata, 6u8),
            (self.sbss_with_stack, self.ebss, 6u8),
            (self.ekernel, self.memory_end, 6u8),
        ] + Seq::new(
            self.mmio@.len(),
            |i: int| (self.mmio@[i].0, (self.mmio@[i].0 + self.mmio@[i].1) as u64, 6u8),
        )
    }

    /// Each region starts at or before the page at which it ends, and the
    /// end of each range of device registers fits a word.
    pub open spec fn wf(&self) -> bool {
        &&& forall|k: int|
            0 <= k < self.sections().len() ==> va_page((#[trigger] self.sections()[k]).0)
                <= va_page_up(self.sections()[k].1)
        &&& forall|i: int|
            0 <= i < self.mmio@.len() ==> (#[trigger] self.mmio@[i]).0 + self.mmio@[i].1
                <= u64::MAX
    }
}

impl MemorySet {
    /// Every frame of the address space was free in state `base`.
    pub open spec fn fresh_since(&self, base: AllocatorState) -> bool {
        forall|p: u64| #[trigger] self.owns(p) ==> !base.in_use(p)
    }

    /// Maps the trampoline page, the last page of the address space, to the
    /// frame of `strampoline`, readable and executable. Nothing changes when
    /// the page is mapped already or the allocator has too few frames.
    pub fn map_trampoline(&mut self, allocator: &mut StackFrameAllocator, strampoline: u64) -> (r:
        Result<(), MapError>)
        requires
            old(self).wf(old(allocator)@),
        ensures
            final(self).wf(final(allocator)@),
            final(self).areas@ == old(self).areas@,
            grown(
                &old(self).page_table,
                old(allocator)@,
                &final(self).page_table,
                final(allocator)@,
            ),
            forall|p: u64| #[trigger]
                final(self).owns(p) ==> old(self).owns(p) || !old(allocator)@.in_use(p),
            r == Err::<(), MapError>(MapError::AlreadyMapped) <==> old(self).page_table.translation(TRAMPOLINE_VPN).is_some(),
            r.is_ok() <==> old(self).page_table.translation(TRAMPOLINE_VPN).is_none() && old(self).page_table.missing(TRAMPOLINE_VPN) <= old(allocator)@.free_count(),
            r.is_err() ==> *final(self) == *old(self) && final(allocator)@ == old(allocator)@,
            r.is_ok() ==> {
                &&& final(self).page_table.translation(TRAMPOLINE_VPN) == Some(
                    PageTableEntry { bits: pte_bits(pa_frame(strampoline), 11) },
                )
                &&& forall|v: u64|
                    v < VPN_LIMIT && v != TRAMPOLINE_VPN ==> #[trigger] final(self).page_table.translation(v) == old(self).page_table.translation(v)
                &&& old(self).complete(old(allocator)@) ==> final(self).complete(
                    final(allocator)@,
                )
                &&& final(allocator)@.free_count() == old(allocator)@.free_count() - old(self).page_table.missing(TRAMPOLINE_VPN)
            },
    {
        let ghost s0 = *self;
        let ghost a0 = allocator@;
        proof {
            lemma_wf_parts(s0, a0);
            lemma_grown_refl(&s0.page_table, a0);
            lemma_wf_grown(s0, a0, s0, a0);
        }
        proof {
            lemma_low_39(0);
        }
        let vpn = VirtAddr::from(crate::config::TRAMPOLINE).floor();
        assert(vpn.0 == TRAMPOLINE_VPN);
        let ppn = super::address::PhysAddr::from(strampoline).floor();
        if self.page_table.translate(vpn).is_some() {
            return Err(MapError::AlreadyMapped);
        }
        let r = self.page_table.map(allocator, vpn, ppn, PTEFlags::from_bits(10));
        proof {
            if r.is_ok() {
                assert(10u8 | 1 == 11u8) by (bit_vector);
                lemma_map_grown(
                    &s0.page_table,
                    a0,
                    &self.page_table,
                    allocator@,
                    TRAMPOLINE_VPN,
                    s0.page_table.missing(TRAMPOLINE_VPN),
                );
                lemma_wf_grown(s0, a0, *self, allocator@);
                if s0.complete(a0) {
                    lemma_complete_trampoline(s0, a0, *self, allocator@);
                }
            }
        }
        r
    }

    /// The kernel's own address space: the trampoline page and, mapped to
    /// the frames of the same numbers, the regions of the layout. Where a
    /// region cannot be mapped, what was built is given back to the allocator.
    pub fn new_kernel(allocator: &mut StackFrameAllocator, layout: &KernelLayout) -> (r: Result<
        Self,
        MapError,
    >)
        requires
            old(allocator)@.wf(),
            old(allocator)@.end <= 0x1000_0000_0000,
            layout.wf(),
        ensures
            final(allocator)@.wf(),
            final(allocator)@.end == old(allocator)@.end,
            forall|p: u64| old(allocator)@.in_use(p) ==> final(allocator)@.in_use(p),
            r.is_ok() ==> {
                let ms = r.unwrap();
                &&& ms.complete(final(allocator)@)
                &&& ms.fresh_since(old(allocator)@)
                &&& ms.built_for(
                    layout.sections(),
                    layout.sections().len() as int,
                    MapType::Identical,
                )
                &&& ms.areas@.len() == layout.sections().len()
                &&& ms.page_table.translation(TRAMPOLINE_VPN) == Some(
                    PageTableEntry { bits: pte_bits(pa_frame(layout.strampoline), 11) },
                )
            },
            r == Err::<Self, MapError>(MapError::AlreadyMapped) ==> !sections_disjoint(
                layout.sections(),
            ),
            sections_disjoint(layout.sections()) && old(allocator)@.free_count() >= 3 + 3
                * sum_pages(layout.sections(), layout.sections().len() as int) ==> r.is_ok(),
    {
        let ghost a0 = allocator@;
        proof {
            lemma_alloc_step(a0);
            lemma_sum_pages_mono(layout.sections(), 0, layout.sections().len() as int);
        }
        let mut memory_set = match Self::new_bare(allocator) {
            Some(ms) => ms,
            None => {
                return Err(MapError::OutOfFrames);
            },
        };
        proof {
            lemma_complete_wf(memory_set, allocator@);
            lemma_wf_parts(memory_set, allocator@);
            assert(memory_set.fresh_since(a0)) by {
                assert forall|p: u64| #[trigger] memory_set.owns(p) implies !a0.in_use(p) by {
                    if memory_set.page_table.has_node(p) {
                        let k = choose|k: int|
                            0 <= k < memory_set.page_table.frames@.len() && (
                            #[trigger] memory_set.page_table.frames@[k]).ppn.0 == p;
                        assert(k == 0);
                        assert(memory_set.page_table.frames@[0].ppn.0
                            == memory_set.page_table.root_ppn.0);
                    } else {
                        let k = choose|k: int|
                            0 <= k < memory_set.areas@.len() && (
                            #[trigger] memory_set.areas@[k]).holds_frame(p);
                        assert(memory_set.areas@.len() == 0);
                    }
                }
            }
            assert(memory_set.page_table.missing(TRAMPOLINE_VPN) == 2);
        }
        let ghost a1 = allocator@;
        let ghost ms1 = memory_set;
        let r = memory_set.map_trampoline(allocator, layout.strampoline);
        proof {
            lemma_grown_parts(&ms1.page_table, a1, &memory_set.page_table, allocator@);
        }
        if let Err(e) = r {
            memory_set.release(allocator);
            proof {
                assert(ms1.page_table.translation(TRAMPOLINE_VPN).is_none());
            }
            return Err(e);
        }
        let sections = layout.section_list();
        let mut k: usize = 0;
        while k < sections.len()
            invariant
                a0 == old(allocator)@,
                a0.wf(),
                sections@ == layout.sections(),
                layout.wf(),
                0 <= k <= sections@.len(),
                memory_set.complete(allocator@),
                memory_set.fresh_since(a0),
                memory_set.built_for(sections@, k as int, MapType::Identical),
                memory_set.areas@.len() == k,
                memory_set.page_table.translation(TRAMPOLINE_VPN) == Some(
                    PageTableEntry { bits: pte_bits(pa_frame(layout.strampoline), 11) },
                ),
                allocator@.wf(),
                allocator@.end == a0.end,
                a0.end <= 0x1000_0000_0000,
                forall|p: u64| a0.in_use(p) ==> allocator@.in_use(p),
                allocator@.free_count() >= a0.free_count() - 3 - 3 * sum_pages(sections@, k as int),
            decreases sections@.len() - k,
        {
            let (start, end, perm) = sections[k];
            let ghost ms2 = memory_set;
            let ghost a2 = allocator@;
            proof {
                assert(va_page(layout.sections()[k as int].0) <= va_page_up(
                    layout.sections()[k as int].1,
                ));
                lemma_complete_wf(ms2, a2);
                let x: u64 = end;
                lemma_low_39(x);
            }
            let area = MapArea::new(
                VirtAddr::from(start),
                VirtAddr::from(end),
                MapType::Identical,
                MapPermission::from_bits(perm),
            );
            let r = memory_set.push(allocator, area, None);
            proof {
                lemma_grown_parts(&ms2.page_table, a2, &memory_set.page_table, allocator@);
                lemma_sum_pages(sections@, k as int);
                if sections_disjoint(sections@) {
                    lemma_section_free(ms2, a2, sections@, k as int, MapType::Identical);
                } else {
                    lemma_sum_pages_mono(sections@, k as int + 1, sections@.len() as int);
                }
                if r == Err::<(), MapError>(MapError::AlreadyMapped) {
                    if sections_disjoint(sections@) {
                        let v = choose|v: u64|
                            area.contains(v) && (#[trigger] ms2.page_table.translation(
                                v,
                            )).is_some();
                        assert(false);
                    }
                }
                lemma_sum_pages_mono(sections@, k as int + 1, sections@.len() as int);
            }
            if let Err(e) = r {
                memory_set.release(allocator);
                return Err(e);
            }
            proof {
                assert(memory_set.fresh_since(a0)) by {
                    assert forall|p: u64| #[trigger] memory_set.owns(p) implies !a0.in_use(p) by {
                        if !ms2.owns(p) {
                            assert(!a2.in_use(p));
                        }
                    }
                }
                assert(memory_set.page_table.translation(TRAMPOLINE_VPN)
                    == ms2.page_table.translation(TRAMPOLINE_VPN));
                assert(memory_set.built_for(sections@, k as int + 1, MapType::Identical)) by {
                    assert forall|j: int| 0 <= j < k + 1 implies is_section(
                        #[trigger] memory_set.areas@[j],
                        sections@[j],
                        MapType::Identical,
                    ) by {
                        if j < k {
                            assert(memory_set.areas@[j] == ms2.areas@[j]);
                        }
                    }
                }
            }
            k += 1;
        }
        Ok(memory_set)
    }

    /// Whether the first `n` regions are those of `sections`, in order, each
    /// mapped in the given way.
    pub open spec fn built_for(&self, sections: Seq<(u64, u64, u8)>, n: int, map_type: MapType) -> bool {
        &&& n <= self.areas@.len()
        &&& n <= sections.len()
        &&& forall|j: int|
            0 <= j < n ==> is_section(#[trigger] self.areas@[j], sections[j], map_type)
    }
}

impl KernelLayout {
    /// The regions of the kernel's address space in the order in which they
    /// are mapped.
    pub fn section_list(&self) -> (r: Vec<(u64, u64, u8)>)
        requires
            self.wf(),
        ensures
            r@ == self.sections(),
    {
        let mut v: Vec<(u64, u64, u8)> = Vec::new();
        v.push((self.stext, self.etext, 10u8));
        v.push((self.srodata, self.erodata, 2u8));
        v.push((self.sdata, self.edata, 6u8));
        v.push((self.sbss_with_stack, self.ebss, 6u8));
        v.push((self.ekernel, self.memory_end, 6u8));
        let mut i: usize = 0;
        while i < self.mmio.len()
            invariant
                self.wf(),
                0 <= i <= self.mmio@.len(),
                v@.len() == 5 + i,
                forall|k: int| 0 <= k < 5 + i ==> #[trigger] v@[k] == self.sections()[k],
            decreases self.mmio@.len() - i,
        {
            let pair = self.mmio[i];
            assert(self.mmio@[i as int].0 + self.mmio@[i as int].1 <= u64::MAX);
            v.push((pair.0, pair.0 + pair.1, 6u8));
            i += 1;
        }
        assert(v@ =~= self.sections());
        v
    }
}

/// Whether a region is the one that is mapped for a section: the pages that
/// the section touches, mapped in the given way, with the section's access rights.
pub open spec fn is_section(area: MapArea, section: (u64, u64, u8), map_type: MapType) -> bool {
    &&& area.start() == va_page(section.0)
    &&& area.end() == va_page_up(section.1)
    &&& area.map_type == map_type
    &&& area.map_perm.bits == section.2
}

/// Whether page `v` lies in a section.
pub open spec fn in_section(section: (u64, u64, u8), v: u64) -> bool {
    va_page(section.0) <= v < va_page_up(section.1)
}

/// No page lies in two sections, and the trampoline page lies in none.
pub open spec fn sections_disjoint(sections: Seq<(u64, u64, u8)>) -> bool {
    &&& forall|j: int, k: int, v: u64|
        0 <= j < k < sections.len() ==> !(#[trigger] in_section(sections[j], v)
            && #[trigger] in_section(sections[k], v))
    &&& forall|k: int|
        0 <= k < sections.len() ==> !#[trigger] in_section(sections[k], TRAMPOLINE_VPN)
}

/// Number of pages in the first `n` sections.
pub open spec fn sum_pages(sections: Seq<(u64, u64, u8)>, n: int) -> int
    decreases n,
{
    if n <= 0 {
        0
    } else {
        sum_pages(sections, n - 1) + (va_page_up(sections[n - 1].1) - va_page(sections[n - 1].0))
    }
}

/// The sum over one more section.
pub proof fn lemma_sum_pages(sections: Seq<(u64, u64, u8)>, n: int)
    requires
        0 <= n,
    ensures
        sum_pages(sections, n + 1) == sum_pages(sections, n) + (va_page_up(sections[n].1)
            - va_page(sections[n].0)),
{
}

/// More sections have no fewer pages, where each section starts at or
/// before its end.
pub proof fn lemma_sum_pages_mono(sections: Seq<(u64, u64, u8)>, m: int, n: int)
    requires
        0 <= m <= n <= sections.len(),
        forall|k: int|
            0 <= k < sections.len() ==> va_page((#[trigger] sections[k]).0) <= va_page_up(
                sections[k].1,
            ),
    ensures
        sum_pages(sections, m) <= sum_pages(sections, n),
    decreases n - m,
{
    if m < n {
        lemma_sum_pages_mono(sections, m, n - 1);
    }
}

/// What `complete` says beyond `wf`.
pub proof fn lemma_complete_wf(s: MemorySet, a: AllocatorState)
    requires
        s.complete(a),
    ensures
        s.wf(a),
        forall|k: int|
            0 <= k < s.areas@.len() ==> (#[trigger] s.areas@[k]).mapped_in(&s.page_table),
        forall|v: u64|
            v < VPN_LIMIT && (#[trigger] s.page_table.translation(v)).is_some() ==> s.covered(v)
                || v == TRAMPOLINE_VPN,
{
    reveal(MemorySet::complete);
    assert forall|v: u64|
        v < VPN_LIMIT && (#[trigger] s.page_table.translation(v)).is_some() implies s.covered(v)
        || v == TRAMPOLINE_VPN by {
        assert(s.translation(v).is_some());
    }
}

/// Where the sections are disjoint and the first `k` of them are mapped in a
/// complete address space with no other region, no page of section `k` is mapped.
pub proof fn lemma_section_free(
    s: MemorySet,
    a: AllocatorState,
    sections: Seq<(u64, u64, u8)>,
    k: int,
    map_type: MapType,
)
    requires
        s.complete(a),
        s.areas@.len() == k,
        0 <= k < sections.len(),
        s.built_for(sections, k, map_type),
        sections_disjoint(sections),
    ensures
        forall|v: u64|
            in_section(sections[k], v) && v < VPN_LIMIT ==> (#[trigger] s.page_table.translation(
                v,
            )).is_none(),
{
    lemma_complete_wf(s, a);
    assert forall|v: u64| in_section(sections[k], v) && v < VPN_LIMIT implies (
    #[trigger] s.page_table.translation(v)).is_none() by {
        if s.page_table.translation(v).is_some() {
            if v != TRAMPOLINE_VPN {
                assert(s.covered(v));
                let j = choose|j: int| 0 <= j < s.areas@.len() && (#[trigger] s.areas@[j]).contains(v);
                assert(is_section(s.areas@[j], sections[j], map_type));
                assert(in_section(sections[j], v));
            }
        }
    }
}

impl LoadPlanView {
    /// The regions of the address space of a program in the order in which
    /// they are mapped, each as start, end and access rights: the segments,
    /// the user stack, and the page of the trap context.
    pub open spec fn regions(self) -> Seq<(u64, u64, u8)> {
        Seq::new(
            self.segments.len(),
            |k: int| (self.segments[k].start_va, self.segments[k].end_va, self.segments[k].perm),
        ) + seq![
            (self.user_stack_bottom, (self.user_stack_bottom + 8192) as u64, 22u8),
            (crate::config::TRAP_CONTEXT, crate::config::TRAMPOLINE, 6u8),
        ]
    }

    /// The bytes of the image that are loaded to region `k`: those of the
    /// segment, and none for the stack and the trap context.
    pub open spec fn region_data(self, data: Seq<u8>, k: int) -> Option<Seq<u8>> {
        if 0 <= k < self.segments.len() {
            Some(
                data.subrange(
                    self.segments[k].offset as int,
                    self.segments[k].offset + self.segments[k].file_size,
                ),
            )
        } else {
            None
        }
    }
}

impl LoadPlan {
    /// The regions of the plan in the order in which they are mapped.
    pub fn region_list(&self) -> (r: Vec<(u64, u64, u8)>)
        requires
            self.user_stack_bottom + 8192 <= u64::MAX,
        ensures
            r@ == self@.regions(),
    {
        let mut v: Vec<(u64, u64, u8)> = Vec::new();
        let mut i: usize = 0;
        while i < self.segments.len()
            invariant
                0 <= i <= self.segments@.len(),
                v@.len() == i,
                forall|k: int| 0 <= k < i ==> #[trigger] v@[k] == self@.regions()[k],
            decreases self.segments@.len() - i,
        {
            let s = self.segments[i];
            v.push((s.start_va, s.end_va, s.perm));
            i += 1;
        }
        v.push((self.user_stack_bottom, self.user_stack_bottom + 8192, 22u8));
        v.push((crate::config::TRAP_CONTEXT, crate::config::TRAMPOLINE, 6u8));
        assert(v@ =~= self@.regions());
        v
    }
}

/// Why an image could not be loaded.
#[derive(Copy, Clone, PartialEq, Eq, Structural, Debug)]
pub enum LoadError {
    /// The image is not a valid ELF image.
    InvalidElf,
    /// A region of the image could not be mapped.
    Mapping(MapError),
    /// The arguments of the program do not fit its stack.
    BadArguments,
}

impl MemorySet {
    /// The address space of a program with the given load plan: the
    /// trampoline page and, each page in a frame of its own, a region for
    /// each segment, holding the segment's bytes from the image, the user
    /// stack, and the page of the trap context. Where a region cannot be
    /// mapped, what was built is given back to the allocator. Besides the
    /// address space, gives the top of the user stack and the entry point.
    pub fn from_plan(
        allocator: &mut StackFrameAllocator,
        plan: &LoadPlan,
        data: &[u8],
        strampoline: u64,
    ) -> (r: Result<(Self, u64, u64), MapError>)
        requires
            old(allocator)@.wf(),
            old(allocator)@.end <= 0x1000_0000_0000,
            plan@.wf(data@.len() as int),
        ensures
            final(allocator)@.wf(),
            final(allocator)@.end == old(allocator)@.end,
            forall|p: u64| old(allocator)@.in_use(p) ==> final(allocator)@.in_use(p),
            r.is_ok() ==> {
                let ms = r.unwrap().0;
                &&& ms.complete(final(allocator)@)
                &&& ms.fresh_since(old(allocator)@)
                &&& ms.areas@.len() == plan@.regions().len()
                &&& ms.built_for(plan@.regions(), plan@.regions().len() as int, MapType::Framed)
                &&& forall|k: int|
                    0 <= k < ms.areas@.len() ==> (#[trigger] ms.areas@[k]).loaded(
                        plan@.region_data(data@, k),
                    )
                &&& ms.page_table.translation(TRAMPOLINE_VPN) == Some(
                    PageTableEntry { bits: pte_bits(pa_frame(strampoline), 11) },
                )
                &&& r.unwrap().1 == plan.user_stack_bottom + 8192
                &&& r.unwrap().2 == plan.entry_point
                &&& final(allocator)@.free_count() >= old(allocator)@.free_count() - 3 - 3
                    * sum_pages(plan@.regions(), plan@.regions().len() as int)
            },
            r == Err::<(Self, u64, u64), MapError>(MapError::AlreadyMapped) ==> !sections_disjoint(
                plan@.regions(),
            ),
            sections_disjoint(plan@.regions()) && old(allocator)@.free_count() >= 3 + 3
                * sum_pages(plan@.regions(), plan@.regions().len() as int) ==> r.is_ok(),
    {
        let ghost a0 = allocator@;
        let ghost regions = plan@.regions();
        proof {
            lemma_alloc_step(a0);
            lemma_regions_ordered(plan@, data@.len() as int);
            lemma_sum_pages_mono(regions, 0, regions.len() as int);
        }
        let mut memory_set = match Self::new_bare(allocator) {
            Some(ms) => ms,
            None => {
                return Err(MapError::OutOfFrames);
            },
        };
        proof {
            lemma_complete_wf(memory_set, allocator@);
            lemma_wf_parts(memory_set, allocator@);
            assert(memory_set.fresh_since(a0)) by {
                assert forall|p: u64| #[trigger] memory_set.owns(p) implies !a0.in_use(p) by {
                    if memory_set.page_table.has_node(p) {
                        let k = choose|k: int|
                            0 <= k < memory_set.page_table.frames@.len() && (
                            #[trigger] memory_set.page_table.frames@[k]).ppn.0 == p;
                        assert(k == 0);
                        assert(memory_set.page_table.frames@[0].ppn.0
                            == memory_set.page_table.root_ppn.0);
                    } else {
                        let k = choose|k: int|
                            0 <= k < memory_set.areas@.len() && (
                            #[trigger] memory_set.areas@[k]).holds_frame(p);
                        assert(memory_set.areas@.len() == 0);
                    }
                }
            }
            assert(memory_set.page_table.missing(TRAMPOLINE_VPN) == 2);
        }
        let ghost a1 = allocator@;
        let ghost ms1 = memory_set;
        let r = memory_set.map_trampoline(allocator, strampoline);
        proof {
            lemma_grown_parts(&ms1.page_table, a1, &memory_set.page_table, allocator@);
        }
        if let Err(e) = r {
            memory_set.release(allocator);
            proof {
                assert(ms1.page_table.translation(TRAMPOLINE_VPN).is_none());
            }
            return Err(e);
        }
        let sections = plan.region_list();
        let nseg: usize = plan.segments.len();
        let mut k: usize = 0;
        while k < sections.len()
            invariant
                a0 == old(allocator)@,
                a0.wf(),
                sections@ == plan@.regions(),
                sections@.len() == nseg + 2,
                nseg == plan.segments@.len(),
                plan@.wf(data@.len() as int),
                forall|j: int|
                    0 <= j < sections@.len() ==> va_page((#[trigger] sections@[j]).0)
                        <= va_page_up(sections@[j].1),
                0 <= k <= sections@.len(),
                memory_set.complete(allocator@),
                memory_set.fresh_since(a0),
                memory_set.built_for(sections@, k as int, MapType::Framed),
                memory_set.areas@.len() == k,
                forall|j: int|
                    0 <= j < k ==> (#[trigger] memory_set.areas@[j]).loaded(
                        plan@.region_data(data@, j),
                    ),
                memory_set.page_table.translation(TRAMPOLINE_VPN) == Some(
                    PageTableEntry { bits: pte_bits(pa_frame(strampoline), 11) },
                ),
                allocator@.wf(),
                allocator@.end == a0.end,
                a0.end <= 0x1000_0000_0000,
                forall|p: u64| a0.in_use(p) ==> allocator@.in_use(p),
                allocator@.free_count() >= a0.free_count() - 3 - 3 * sum_pages(sections@, k as int),
            decreases sections@.len() - k,
        {
            let (start, end, perm) = sections[k];
            let ghost ms2 = memory_set;
            let ghost a2 = allocator@;
            proof {
                assert(va_page(sections@[k as int].0) <= va_page_up(sections@[k as int].1));
                lemma_complete_wf(ms2, a2);
                let x: u64 = end;
                lemma_low_39(x);
            }
            let area = MapArea::new(
                VirtAddr::from(start),
                VirtAddr::from(end),
                MapType::Framed,
                MapPermission::from_bits(perm),
            );
            let ghost last_data = plan@.region_data(data@, k as int);
            let len: usize = data.len();
            let r = if k < nseg {
                let seg = plan.segments[k];
                assert(len == data@.len());
                proof {
                    let a: u64 = seg.start_va;
                    let b: u64 = seg.end_va;
                    lemma_low_39(a);
                    lemma_low_39(b);
                    assert(seg == plan@.segments[k as int]);
                    assert(super::elf::load_segment_ok(data@.len() as int, plan@.segments[k as int]));
                    assert(sections@[k as int] == (seg.start_va, seg.end_va, seg.perm));
                    assert(start == seg.start_va && end == seg.end_va);
                    assert(seg.offset + seg.file_size <= data@.len());
                }
                let bytes = vstd::slice::slice_subrange(
                    data,
                    seg.offset as usize,
                    (seg.offset + seg.file_size) as usize,
                );
                memory_set.push(allocator, area, Some(bytes))
            } else {
                memory_set.push(allocator, area, None)
            };
            proof {
                lemma_grown_parts(&ms2.page_table, a2, &memory_set.page_table, allocator@);
                lemma_sum_pages(sections@, k as int);
                if sections_disjoint(sections@) {
                    lemma_section_free(ms2, a2, sections@, k as int, MapType::Framed);
                }
                if r == Err::<(), MapError>(MapError::AlreadyMapped) {
                    if sections_disjoint(sections@) {
                        let v = choose|v: u64|
                            area.contains(v) && (#[trigger] ms2.page_table.translation(
                                v,
                            )).is_some();
                        assert(false);
                    }
                }
                lemma_sum_pages_mono(sections@, k as int + 1, sections@.len() as int);
            }
            if let Err(e) = r {
                memory_set.release(allocator);
                return Err(e);
            }
            proof {
                assert(memory_set.fresh_since(a0)) by {
                    assert forall|p: u64| #[trigger] memory_set.owns(p) implies !a0.in_use(p) by {
                        if !ms2.owns(p) {
                            assert(!a2.in_use(p));
                        }
                    }
                }
                assert(memory_set.page_table.translation(TRAMPOLINE_VPN)
                    == ms2.page_table.translation(TRAMPOLINE_VPN));
                assert(memory_set.built_for(sections@, k as int + 1, MapType::Framed)) by {
                    assert forall|j: int| 0 <= j < k + 1 implies is_section(
                        #[trigger] memory_set.areas@[j],
                        sections@[j],
                        MapType::Framed,
                    ) by {
                        if j < k {
                            assert(memory_set.areas@[j] == ms2.areas@[j]);
                        }
                    }
                }
                assert forall|j: int| 0 <= j < k + 1 implies (#[trigger] memory_set.areas@[j]).loaded(
                    plan@.region_data(data@, j),
                ) by {
                    if j < k {
                        assert(memory_set.areas@[j] == ms2.areas@[j]);
                    } else {
                        assert(memory_set.areas@[j] == memory_set.areas@.last());
                        assert(memory_set.areas@.last().loaded(last_data));
                    }
                }
            }
            k += 1;
        }
        Ok((memory_set, plan.user_stack_bottom + 8192, plan.entry_point))
    }

    /// The address space of the program in an ELF image; see `from_plan`. The
    /// image is refused where it has no load plan.
    pub fn from_elf(allocator: &mut StackFrameAllocator, elf_data: &[u8], strampoline: u64) -> (r:
        Result<(Self, u64, u64), LoadError>)
        requires
            old(allocator)@.wf(),
            old(allocator)@.end <= 0x1000_0000_0000,
        ensures
            final(allocator)@.wf(),
            final(allocator)@.end == old(allocator)@.end,
            forall|p: u64| old(allocator)@.in_use(p) ==> final(allocator)@.in_use(p),
            r == Err::<(Self, u64, u64), LoadError>(LoadError::InvalidElf) <==> load_plan_of(
                elf_data@,
            ).is_none(),
            r != Err::<(Self, u64, u64), LoadError>(LoadError::BadArguments),
            load_plan_of(elf_data@).is_none() ==> final(allocator)@ == old(allocator)@,
            r.is_ok() ==> {
                let ms = r.unwrap().0;
                let plan = load_plan_of(elf_data@).unwrap();
                &&& ms.complete(final(allocator)@)
                &&& ms.fresh_since(old(allocator)@)
                &&& ms.areas@.len() == plan.regions().len()
                &&& ms.built_for(plan.regions(), plan.regions().len() as int, MapType::Framed)
                &&& forall|k: int|
                    0 <= k < ms.areas@.len() ==> (#[trigger] ms.areas@[k]).loaded(
                        plan.region_data(elf_data@, k),
                    )
                &&& ms.page_table.translation(TRAMPOLINE_VPN) == Some(
                    PageTableEntry { bits: pte_bits(pa_frame(strampoline), 11) },
                )
                &&& r.unwrap().1 == plan.user_stack_bottom + 8192
                &&& r.unwrap().2 == plan.entry_point
                &&& final(allocator)@.free_count() >= old(allocator)@.free_count() - 3 - 3
                    * sum_pages(plan.regions(), plan.regions().len() as int)
            },
            r == Err::<(Self, u64, u64), LoadError>(LoadError::Mapping(MapError::AlreadyMapped))
                ==> !sections_disjoint(load_plan_of(elf_data@).unwrap().regions()),
            load_plan_of(elf_data@).is_some() && sections_disjoint(
                load_plan_of(elf_data@).unwrap().regions(),
            ) && old(allocator)@.free_count() >= 3 + 3 * sum_pages(
                load_plan_of(elf_data@).unwrap().regions(),
                load_plan_of(elf_data@).unwrap().regions().len() as int,
            ) ==> r.is_ok(),
    {
        match read_load_plan(elf_data) {
            None => Err(LoadError::InvalidElf),
            Some(plan) => match Self::from_plan(allocator, &plan, elf_data, strampoline) {
                Ok(built) => Ok(built),
                Err(e) => Err(LoadError::Mapping(e)),
            },
        }
    }
}

/// Each region of a load plan that fits its image starts at or before the
/// page at which it ends.
pub proof fn lemma_regions_ordered(plan: LoadPlanView, len: int)
    requires
        plan.wf(len),
    ensures
        plan.regions().len() == plan.segments.len() + 2,
        forall|j: int|
            0 <= j < plan.regions().len() ==> va_page((#[trigger] plan.regions()[j]).0)
                <= va_page_up(plan.regions()[j].1),
{
    lemma_low_39(0);
    assert forall|j: int| 0 <= j < plan.regions().len() implies va_page(
        (#[trigger] plan.regions()[j]).0,
    ) <= va_page_up(plan.regions()[j].1) by {
        if j < plan.segments.len() {
            let s = plan.segments[j];
            assert(super::elf::load_segment_ok(len, s));
            let a: u64 = s.start_va;
            let b: u64 = s.end_va;
            lemma_low_39(a);
            lemma_low_39(b);
        }
    }
}

/// Number of pages in the first `n` regions.
pub open spec fn sum_area_pages(areas: Seq<MapArea>, n: int) -> int
    decreases n,
{
    if n <= 0 {
        0
    } else {
        sum_area_pages(areas, n - 1) + (areas[n - 1].end() - areas[n - 1].start())
    }
}

/// More regions have no fewer pages.
pub proof fn lemma_sum_area_pages_mono(areas: Seq<MapArea>, m: int, n: int)
    requires
        0 <= m <= n <= areas.len(),
        forall|k: int| 0 <= k < areas.len() ==> (#[trigger] areas[k]).start() <= areas[k].end(),
    ensures
        sum_area_pages(areas, m) <= sum_area_pages(areas, n),
    decreases n - m,
{
    if m < n {
        lemma_sum_area_pages_mono(areas, m, n - 1);
    }
}

/// What `complete` says of one region: it is in order, it holds a frame for
/// each page if it is framed, and it shares no page with another region.
pub proof fn lemma_complete_area(s: MemorySet, a: AllocatorState, k: int)
    requires
        s.complete(a),
        0 <= k < s.areas@.len(),
    ensures
        s.areas@[k].area_wf(),
        s.areas@[k].fits(&s.page_table, a),
        s.areas@[k].mapped_in(&s.page_table),
        s.areas@[k].map_type == MapType::Framed ==> s.areas@[k].full(),
        forall|j: int, v: u64|
            0 <= j < s.areas@.len() && j != k ==> !(s.areas@[k].contains(v) && #[trigger] s.areas@[j].contains(
                v,
            )),
{
    reveal(MemorySet::complete);
    reveal(MemorySet::wf);
    reveal(MapArea::fits);
    let ar = s.areas@[k];
    assert(ar.fits(&s.page_table, a));
    assert(ar.mapped_in(&s.page_table));
    if ar.map_type == MapType::Framed {
        assert forall|j: int| 0 <= j < ar.end() - ar.start() implies j < ar.data_frames@.len() && (
        #[trigger] ar.data_frames@[j]).is_some() by {
            let v = (ar.start() + j) as u64;
            assert(ar.page_mapped(&s.page_table, v));
            assert(ar.slot(v).is_some());
        }
        if ar.end() > ar.start() {
            let j = ar.end() - ar.start() - 1;
            assert(j < ar.data_frames@.len() && ar.data_frames@[j].is_some());
        }
    }
    assert forall|j: int, v: u64| 0 <= j < s.areas@.len() && j != k implies !(ar.contains(v)
        && #[trigger] s.areas@[j].contains(v)) by {
        if j < k {
            assert(!(s.areas@[j].contains(v) && s.areas@[k].contains(v)));
        } else {
            assert(!(s.areas@[k].contains(v) && s.areas@[j].contains(v)));
        }
    }
}

/// Taking a region away whose pages were unmapped and whose frames were
/// given back keeps a complete address space complete.
pub proof fn lemma_remove_area(
    s0: MemorySet,
    a0: AllocatorState,
    s1: MemorySet,
    a1: AllocatorState,
    idx: int,
)
    requires
        s0.complete(a0),
        0 <= idx < s0.areas@.len(),
        s1.areas@ == s0.areas@.remove(idx),
        s1.page_table.wf(),
        s1.page_table.root_ppn == s0.page_table.root_ppn,
        s1.page_table.frames@.len() == s0.page_table.frames@.len(),
        forall|k: int|
            0 <= k < s0.page_table.frames@.len() ==> (#[trigger] s1.page_table.frames@[k]).ppn
                == s0.page_table.frames@[k].ppn,
        forall|v: u64|
            s0.areas@[idx].contains(v) ==> (#[trigger] s1.page_table.translation(v)).is_none(),
        forall|v: u64|
            v < VPN_LIMIT && !s0.areas@[idx].contains(v) ==> #[trigger] s1.page_table.translation(v)
                == s0.page_table.translation(v),
        a1.wf(),
        a1.end == a0.end,
        forall|p: u64| #[trigger]
            a1.in_use(p) == (a0.in_use(p) && !s0.areas@[idx].holds_frame(p)),
    ensures
        s1.complete(a1),
{
    reveal(MemorySet::complete);
    reveal(MemorySet::wf);
    reveal(MapArea::fits);
    let gone = s0.areas@[idx];
    let pt0 = &s0.page_table;
    let pt1 = &s1.page_table;
    assert forall|k: int| 0 <= k < pt1.frames@.len() implies a1.in_use(
        (#[trigger] pt1.frames@[k]).ppn.0,
    ) by {
        let p = pt0.frames@[k].ppn.0;
        assert(a0.in_use(p));
        if gone.holds_frame(p) {
            let v = choose|v: u64|
                (#[trigger] gone.slot(v)).is_some() && gone.slot(v).unwrap().ppn.0 == p;
            assert(pt0.frames@[k].ppn != gone.slot(v).unwrap().ppn);
        }
    }
    assert forall|m: int| 0 <= m < s1.areas@.len() implies (#[trigger] s1.areas@[m]).fits(pt1, a1)
        && s1.areas@[m].mapped_in(pt1) by {
        let n = if m < idx {
            m
        } else {
            m + 1
        };
        let ar = s0.areas@[n];
        assert(s1.areas@[m] == ar);
        assert(ar.fits(pt0, a0));
        assert(ar.mapped_in(pt0));
        assert forall|v: u64| ar.start() <= v < ar.end() implies #[trigger] ar.page_mapped(
            pt1,
            v,
        ) by {
            assert(ar.page_mapped(pt0, v));
            if n < idx {
                assert(!(s0.areas@[n].contains(v) && s0.areas@[idx].contains(v)));
            } else {
                assert(!(s0.areas@[idx].contains(v) && s0.areas@[n].contains(v)));
            }
            assert(pt1.translation(v) == pt0.translation(v));
        }
        assert forall|v: u64| (#[trigger] ar.slot(v)).is_some() implies ar.page_mapped(pt1, v)
            && a1.in_use(ar.slot(v).unwrap().ppn.0) by {
            assert(ar.contains(v));
            assert(ar.page_mapped(pt1, v));
            let p = ar.slot(v).unwrap().ppn.0;
            if gone.holds_frame(p) {
                let w = choose|w: u64|
                    (#[trigger] gone.slot(w)).is_some() && gone.slot(w).unwrap().ppn.0 == p;
                if n < idx {
                    assert(s0.areas@[n].slot(v).unwrap().ppn != s0.areas@[idx].slot(
                        w,
                    ).unwrap().ppn);
                } else {
                    assert(s0.areas@[idx].slot(w).unwrap().ppn != s0.areas@[n].slot(
                        v,
                    ).unwrap().ppn);
                }
            }
        }
        assert forall|v: u64, k: int|
            (#[trigger] ar.slot(v)).is_some() && 0 <= k < pt1.frames@.len() implies (
        #[trigger] pt1.frames@[k]).ppn != ar.slot(v).unwrap().ppn by {
            assert(pt0.frames@[k].ppn != ar.slot(v).unwrap().ppn);
        }
    }
    assert forall|k: int, m: int, v: u64, w: u64|
        0 <= k < m < s1.areas@.len() && (#[trigger] s1.areas@[k].slot(v)).is_some() && (
        #[trigger] s1.areas@[m].slot(w)).is_some() implies s1.areas@[k].slot(v).unwrap().ppn
        != s1.areas@[m].slot(w).unwrap().ppn by {
        let k0 = if k < idx {
            k
        } else {
            k + 1
        };
        let m0 = if m < idx {
            m
        } else {
            m + 1
        };
        assert(s1.areas@[k] == s0.areas@[k0]);
        assert(s1.areas@[m] == s0.areas@[m0]);
    }
    assert forall|k: int, m: int, v: u64| 0 <= k < m < s1.areas@.len() implies !((
    #[trigger] s1.areas@[k].contains(v)) && (#[trigger] s1.areas@[m].contains(v))) by {
        let k0 = if k < idx {
            k
        } else {
            k + 1
        };
        let m0 = if m < idx {
            m
        } else {
            m + 1
        };
        assert(s1.areas@[k] == s0.areas@[k0]);
        assert(s1.areas@[m] == s0.areas@[m0]);
        assert(!(s0.areas@[k0].contains(v) && s0.areas@[m0].contains(v)));
    }
    assert forall|v: u64|
        v < VPN_LIMIT && (#[trigger] s1.translation(v)).is_some() implies s1.covered(v) || v
        == TRAMPOLINE_VPN by {
        assert(!gone.contains(v));
        assert(s1.page_table.translation(v) == s0.page_table.translation(v));
        assert(s0.translation(v).is_some());
        if v != TRAMPOLINE_VPN {
            assert(s0.covered(v));
            let k = choose|k: int|
                0 <= k < s0.areas@.len() && (#[trigger] s0.areas@[k]).contains(v);
            let m = if k < idx {
                k
            } else {
                k - 1
            };
            assert(s1.areas@[m] == s0.areas@[k]);
            assert(s1.areas@[m].contains(v));
        }
    }
}

impl MemorySet {
    /// Index of the first region that starts at page `start_vpn`, or -1.
    pub open spec fn area_starting_at(&self, start_vpn: u64) -> int {
        first_starting_at(self.areas@, start_vpn)
    }

    /// Takes away the first region that starts at page `start_vpn`: unmaps
    /// its pages and gives its frames back to the allocator. Nothing changes
    /// when no region starts there.
    pub fn remove_area_with_start_vpn(
        &mut self,
        allocator: &mut StackFrameAllocator,
        start_vpn: VirtPageNum,
    ) -> (found: bool)
        requires
            old(self).complete(old(allocator)@),
        ensures
            final(self).complete(final(allocator)@),
            found == (old(self).area_starting_at(start_vpn.0) >= 0),
            !found ==> *final(self) == *old(self) && final(allocator)@ == old(allocator)@,
            found ==> {
                let idx = old(self).area_starting_at(start_vpn.0);
                let gone = old(self).areas@[idx];
                &&& 0 <= idx < old(self).areas@.len()
                &&& gone.start() == start_vpn.0
                &&& final(self).areas@ == old(self).areas@.remove(idx)
                &&& final(self).page_table.root_ppn == old(self).page_table.root_ppn
                &&& forall|v: u64|
                    gone.contains(v) ==> (#[trigger] final(self).page_table.translation(
                        v,
                    )).is_none()
                &&& forall|v: u64|
                    v < VPN_LIMIT && !gone.contains(v) ==> #[trigger] final(self).page_table.translation(v) == old(self).page_table.translation(v)
                &&& final(allocator)@.end == old(allocator)@.end
                &&& forall|p: u64| #[trigger]
                    final(allocator)@.in_use(p) == (old(allocator)@.in_use(p) && !gone.holds_frame(
                        p,
                    ))
                &&& forall|p: u64| #[trigger] final(self).owns(p) ==> old(self).owns(p)
                &&& forall|p: u64| gone.holds_frame(p) ==> #[trigger] old(self).owns(p)
            },
    {
        let ghost s0 = *self;
        let ghost a0 = allocator@;
        let mut i: usize = 0;
        while i < self.areas.len()
            invariant
                *self == s0,
                s0 == *old(self),
                a0 == old(allocator)@,
                allocator@ == a0,
                s0.complete(a0),
                0 <= i <= self.areas@.len(),
                forall|k: int| 0 <= k < i ==> (#[trigger] self.areas@[k]).start() != start_vpn.0,
            decreases self.areas@.len() - i,
        {
            if self.areas[i].vpn_range.get_start().0 == start_vpn.0 {
                proof {
                    lemma_first_starting_at(s0.areas@, start_vpn.0);
                    lemma_complete_area(s0, a0, i as int);
                    lemma_complete_wf(s0, a0);
                    lemma_wf_parts(s0, a0);
                }
                let mut area = self.areas.remove(i);
                area.unmap(&mut self.page_table, allocator);
                proof {
                    assert(self.page_table.wf() && allocator@.wf()) by {
                        reveal(MapArea::fits);
                    }
                    lemma_remove_area(s0, a0, *self, allocator@, i as int);
                    assert forall|p: u64| #[trigger] self.owns(p) implies s0.owns(p) by {
                        if self.page_table.has_node(p) {
                            let k = choose|k: int|
                                0 <= k < self.page_table.frames@.len() && (
                                #[trigger] self.page_table.frames@[k]).ppn.0 == p;
                            assert(s0.page_table.frames@[k].ppn.0 == p);
                            assert(s0.page_table.has_node(p));
                        } else {
                            let k = choose|k: int|
                                0 <= k < self.areas@.len() && (#[trigger] self.areas@[k]).holds_frame(
                                    p,
                                );
                            let k0 = if k < i {
                                k
                            } else {
                                k + 1
                            };
                            assert(self.areas@[k] == s0.areas@[k0]);
                            assert(s0.areas@[k0].holds_frame(p));
                        }
                    }
                    assert forall|p: u64| s0.areas@[i as int].holds_frame(p) implies #[trigger] s0.owns(
                        p,
                    ) by {}
                }
                return true;
            }
            i += 1;
        }
        proof {
            lemma_first_starting_at(s0.areas@, start_vpn.0);
        }
        false
    }

    /// Adds a region like `source` to the address space: maps its pages and,
    /// in a framed region, copies the pages of `source` to them. The region
    /// is added also when a page could not be mapped.
    pub fn push_copy(&mut self, allocator: &mut StackFrameAllocator, source: &MapArea) -> (r: Result<
        (),
        MapError,
    >)
        requires
            old(self).wf(old(allocator)@),
            source.area_wf(),
            source.map_type == MapType::Framed ==> source.full(),
        ensures
            final(self).wf(final(allocator)@),
            final(self).areas@.len() == old(self).areas@.len() + 1,
            forall|k: int|
                0 <= k < old(self).areas@.len() ==> #[trigger] final(self).areas@[k] == old(self).areas@[k],
            final(self).areas@.last().start() == source.start(),
            final(self).areas@.last().end() == source.end(),
            final(self).areas@.last().map_type == source.map_type,
            final(self).areas@.last().map_perm == source.map_perm,
            grown(
                &old(self).page_table,
                old(allocator)@,
                &final(self).page_table,
                final(allocator)@,
            ),
            forall|v: u64|
                v < VPN_LIMIT && !source.contains(v) ==> #[trigger] final(self).page_table.translation(v) == old(self).page_table.translation(v),
            forall|p: u64| #[trigger]
                final(self).owns(p) ==> old(self).owns(p) || !old(allocator)@.in_use(p),
            final(allocator)@.free_count() >= old(allocator)@.free_count() - 3 * (source.end()
                - source.start()),
            r.is_ok() ==> {
                &&& final(self).areas@.last().mapped_in(&final(self).page_table)
                &&& old(self).complete(old(allocator)@) ==> final(self).complete(
                    final(allocator)@,
                )
                &&& source.map_type == MapType::Framed ==> final(self).areas@.last().same_pages(
                    source,
                )
                &&& forall|v: u64|
                    source.contains(v) ==> (#[trigger] old(self).page_table.translation(
                        v,
                    )).is_none()
            },
            r == Err::<(), MapError>(MapError::AlreadyMapped) ==> exists|v: u64|
                source.contains(v) && (#[trigger] old(self).page_table.translation(v)).is_some(),
            (forall|v: u64| source.contains(v) ==> (#[trigger] old(self).page_table.translation(v)).is_none())
                && old(allocator)@.free_count() >= 3 * (source.end() - source.start())
                ==> r.is_ok(),
    {
        let ghost s0 = *self;
        let ghost a0 = allocator@;
        let mut map_area = MapArea::from_another(source);
        proof {
            lemma_wf_parts(s0, a0);
        }
        let r = map_area.map_with_copy(&mut self.page_table, allocator, source);
        let ghost m2 = map_area;
        self.areas.push(map_area);
        proof {
            lemma_push_wf(s0, a0, *self, allocator@, m2);
            lemma_push_owns(s0, a0, *self, allocator@, m2);
            if r.is_ok() && s0.complete(a0) {
                lemma_push_complete(s0, a0, *self, allocator@, m2);
            }
            if r == Err::<(), MapError>(MapError::AlreadyMapped) {
                let v = choose|v: u64|
                    m2.contains(v) && (#[trigger] s0.page_table.translation(v)).is_some();
                assert(source.contains(v) && s0.page_table.translation(v).is_some());
            }
        }
        r
    }

    /// A copy of the address space of a program: the trampoline page and a
    /// region for each region of `user_space`, with the same range, kind and
    /// rights, each page in a new frame that holds the bytes of the page it
    /// was copied from. Where a region cannot be mapped, what was built is
    /// given back to the allocator.
    pub fn from_existed_user(
        allocator: &mut StackFrameAllocator,
        user_space: &MemorySet,
        strampoline: u64,
    ) -> (r: Result<Self, MapError>)
        requires
            user_space.complete(old(allocator)@),
        ensures
            final(allocator)@.wf(),
            final(allocator)@.end == old(allocator)@.end,
            forall|p: u64| old(allocator)@.in_use(p) ==> final(allocator)@.in_use(p),
            r.is_ok() ==> {
                let ms = r.unwrap();
                &&& ms.complete(final(allocator)@)
                &&& ms.fresh_since(old(allocator)@)
                &&& ms.copy_of(user_space, user_space.areas@.len() as int)
                &&& ms.areas@.len() == user_space.areas@.len()
                &&& ms.page_table.translation(TRAMPOLINE_VPN) == Some(
                    PageTableEntry { bits: pte_bits(pa_frame(strampoline), 11) },
                )
                &&& final(allocator)@.free_count() >= old(allocator)@.free_count() - 3 - 3
                    * sum_area_pages(user_space.areas@, user_space.areas@.len() as int)
            },
            r == Err::<Self, MapError>(MapError::AlreadyMapped) ==> user_space.covered(
                TRAMPOLINE_VPN,
            ),
            !user_space.covered(TRAMPOLINE_VPN) && old(allocator)@.free_count() >= 3 + 3
                * sum_area_pages(user_space.areas@, user_space.areas@.len() as int) ==> r.is_ok(),
    {
        let ghost a0 = allocator@;
        proof {
            lemma_complete_wf(*user_space, a0);
            lemma_wf_parts(*user_space, a0);
            lemma_alloc_step(a0);
            assert forall|k: int| 0 <= k < user_space.areas@.len() implies (
            #[trigger] user_space.areas@[k]).start() <= user_space.areas@[k].end() by {
                lemma_complete_area(*user_space, a0, k);
            }
            lemma_sum_area_pages_mono(user_space.areas@, 0, user_space.areas@.len() as int);
        }
        let mut memory_set = match Self::new_bare(allocator) {
            Some(ms) => ms,
            None => {
                return Err(MapError::OutOfFrames);
            },
        };
        proof {
            lemma_complete_wf(memory_set, allocator@);
            lemma_wf_parts(memory_set, allocator@);
            assert(memory_set.fresh_since(a0)) by {
                assert forall|p: u64| #[trigger] memory_set.owns(p) implies !a0.in_use(p) by {
                    if memory_set.page_table.has_node(p) {
                        let k = choose|k: int|
                            0 <= k < memory_set.page_table.frames@.len() && (
                            #[trigger] memory_set.page_table.frames@[k]).ppn.0 == p;
                        assert(k == 0);
                        assert(memory_set.page_table.frames@[0].ppn.0
                            == memory_set.page_table.root_ppn.0);
                    } else {
                        let k = choose|k: int|
                            0 <= k < memory_set.areas@.len() && (
                            #[trigger] memory_set.areas@[k]).holds_frame(p);
                        assert(memory_set.areas@.len() == 0);
                    }
                }
            }
            assert(memory_set.page_table.missing(TRAMPOLINE_VPN) == 2);
        }
        let ghost a1 = allocator@;
        let ghost ms1 = memory_set;
        let r = memory_set.map_trampoline(allocator, strampoline);
        proof {
            lemma_grown_parts(&ms1.page_table, a1, &memory_set.page_table, allocator@);
        }
        if let Err(e) = r {
            memory_set.release(allocator);
            proof {
                assert(ms1.page_table.translation(TRAMPOLINE_VPN).is_none());
            }
            return Err(e);
        }
        let mut k: usize = 0;
        while k < user_space.areas.len()
            invariant
                a0 == old(allocator)@,
                a0.wf(),
                user_space.complete(a0),
                forall|j: int|
                    0 <= j < user_space.areas@.len() ==> (#[trigger] user_space.areas@[j]).start()
                        <= user_space.areas@[j].end(),
                0 <= k <= user_space.areas@.len(),
                memory_set.complete(allocator@),
                memory_set.fresh_since(a0),
                memory_set.copy_of(user_space, k as int),
                memory_set.areas@.len() == k,
                memory_set.page_table.translation(TRAMPOLINE_VPN) == Some(
                    PageTableEntry { bits: pte_bits(pa_frame(strampoline), 11) },
                ),
                allocator@.wf(),
                allocator@.end == a0.end,
                forall|p: u64| a0.in_use(p) ==> allocator@.in_use(p),
                allocator@.free_count() >= a0.free_count() - 3 - 3 * sum_area_pages(
                    user_space.areas@,
                    k as int,
                ),
            decreases user_space.areas@.len() - k,
        {
            let ghost ms2 = memory_set;
            let ghost a2 = allocator@;
            let source = &user_space.areas[k];
            proof {
                lemma_complete_area(*user_space, a0, k as int);
                lemma_complete_wf(ms2, a2);
                lemma_copy_free(ms2, a2, *user_space, a0, k as int);
                lemma_sum_area_pages_mono(
                    user_space.areas@,
                    k as int + 1,
                    user_space.areas@.len() as int,
                );
            }
            let r = memory_set.push_copy(allocator, source);
            proof {
                lemma_grown_parts(&ms2.page_table, a2, &memory_set.page_table, allocator@);
                if r == Err::<(), MapError>(MapError::AlreadyMapped) {
                    let v = choose|v: u64|
                        source.contains(v) && (#[trigger] ms2.page_table.translation(v)).is_some();
                    assert(v == TRAMPOLINE_VPN);
                    assert(user_space.areas@[k as int].contains(TRAMPOLINE_VPN));
                }
                if !user_space.covered(TRAMPOLINE_VPN) {
                    assert(!user_space.areas@[k as int].contains(TRAMPOLINE_VPN));
                }
            }
            if let Err(e) = r {
                memory_set.release(allocator);
                return Err(e);
            }
            proof {
                assert(memory_set.fresh_since(a0)) by {
                    assert forall|p: u64| #[trigger] memory_set.owns(p) implies !a0.in_use(p) by {
                        if !ms2.owns(p) {
                            assert(!a2.in_use(p));
                        }
                    }
                }
                assert(!source.contains(TRAMPOLINE_VPN));
                assert(memory_set.page_table.translation(TRAMPOLINE_VPN)
                    == ms2.page_table.translation(TRAMPOLINE_VPN));
                assert(memory_set.copy_of(user_space, k as int + 1)) by {
                    assert forall|j: int| 0 <= j < k + 1 implies is_copy(
                        #[trigger] memory_set.areas@[j],
                        user_space.areas@[j],
                    ) by {
                        if j < k {
                            assert(memory_set.areas@[j] == ms2.areas@[j]);
                        } else {
                            assert(memory_set.areas@[j] == memory_set.areas@.last());
                        }
                    }
                }
            }
            k += 1;
        }
        Ok(memory_set)
    }

    /// Whether the first `n` regions are copies of those of `other`.
    pub open spec fn copy_of(&self, other: &MemorySet, n: int) -> bool {
        &&& n <= self.areas@.len()
        &&& n <= other.areas@.len()
        &&& forall|j: int| 0 <= j < n ==> is_copy(#[trigger] self.areas@[j], other.areas@[j])
    }
}

/// Whether `area` has the range, the kind and the rights of `source` and, if
/// framed, holds in each page the bytes that `source` holds there.
pub open spec fn is_copy(area: MapArea, source: MapArea) -> bool {
    &&& area.start() == source.start()
    &&& area.end() == source.end()
    &&& area.map_type == source.map_type
    &&& area.map_perm == source.map_perm
    &&& area.map_type == MapType::Framed ==> area.same_pages(&source)
}

/// Index of the first region that starts at page `start`, or -1.
pub open spec fn first_starting_at(areas: Seq<MapArea>, start: u64) -> int
    decreases areas.len(),
{
    if areas.len() == 0 {
        -1
    } else if first_starting_at(areas.drop_last(), start) >= 0 {
        first_starting_at(areas.drop_last(), start)
    } else if areas.last().start() == start {
        areas.len() - 1
    } else {
        -1
    }
}

/// What `first_starting_at` finds: a region that starts there, before which
/// none starts there; or -1 when none starts there.
pub proof fn lemma_first_starting_at(areas: Seq<MapArea>, start: u64)
    ensures
        -1 <= first_starting_at(areas, start) < areas.len(),
        first_starting_at(areas, start) >= 0 ==> areas[first_starting_at(areas, start)].start()
            == start,
        forall|i: int|
            0 <= i < areas.len() && (#[trigger] areas[i]).start() == start ==> 0
                <= first_starting_at(areas, start) <= i,
    decreases areas.len(),
{
    if areas.len() > 0 {
        lemma_first_starting_at(areas.drop_last(), start);
        assert forall|i: int| 0 <= i < areas.len() && (#[trigger] areas[i]).start() == start implies 0
            <= first_starting_at(areas, start) <= i by {
            if i < areas.len() - 1 {
                assert(areas.drop_last()[i].start() == start);
            }
        }
    }
}

/// While an address space is copied region by region, the pages of the next
/// region are not mapped in the copy, but for the trampoline page.
pub proof fn lemma_copy_free(s: MemorySet, a: AllocatorState, other: MemorySet, b: AllocatorState, k: int)
    requires
        s.complete(a),
        other.complete(b),
        s.areas@.len() == k,
        0 <= k < other.areas@.len(),
        s.copy_of(&other, k),
    ensures
        forall|v: u64|
            other.areas@[k].contains(v) && v != TRAMPOLINE_VPN ==> (
            #[trigger] s.page_table.translation(v)).is_none(),
{
    lemma_complete_wf(s, a);
    lemma_complete_area(other, b, k);
    assert forall|v: u64| other.areas@[k].contains(v) && v != TRAMPOLINE_VPN implies (
    #[trigger] s.page_table.translation(v)).is_none() by {
        if s.page_table.translation(v).is_some() {
            assert(v < VPN_LIMIT);
            assert(s.covered(v));
            let j = choose|j: int| 0 <= j < s.areas@.len() && (#[trigger] s.areas@[j]).contains(v);
            assert(is_copy(s.areas@[j], other.areas@[j]));
            assert(other.areas@[j].contains(v));
        }
    }
}

/// A frame that an address space owns is in use with its allocator.
pub proof fn lemma_owns_in_use(s: MemorySet, a: AllocatorState, f: u64)
    requires
        s.wf(a),
        s.owns(f),
    ensures
        a.in_use(f),
{
    reveal(MemorySet::wf);
    reveal(MapArea::fits);
    if s.page_table.has_node(f) {
        let k = choose|k: int|
            0 <= k < s.page_table.frames@.len() && (#[trigger] s.page_table.frames@[k]).ppn.0 == f;
        assert(a.in_use(s.page_table.frames@[k].ppn.0));
    } else {
        let k = choose|k: int| 0 <= k < s.areas@.len() && (#[trigger] s.areas@[k]).holds_frame(f);
        let v = choose|v: u64|
            (#[trigger] s.areas@[k].slot(v)).is_some() && s.areas@[k].slot(v).unwrap().ppn.0 == f;
        assert(s.areas@[k].fits(&s.page_table, a));
        assert(a.in_use(s.areas@[k].slot(v).unwrap().ppn.0));
    }
}

/// An address space stays in order, and complete if it was, under any
/// change of the allocator that leaves its frames in use.
pub proof fn lemma_wf_other_allocator(s: MemorySet, a: AllocatorState, a2: AllocatorState)
    requires
        s.wf(a),
        a2.wf(),
        a2.end <= 0x1000_0000_0000,
        forall|f: u64| #[trigger] s.owns(f) ==> a2.in_use(f),
    ensures
        s.wf(a2),
        s.complete(a) ==> s.complete(a2),
{
    reveal(MemorySet::wf);
    reveal(MemorySet::complete);
    reveal(MapArea::fits);
    assert forall|k: int| 0 <= k < s.page_table.frames@.len() implies a2.in_use(
        (#[trigger] s.page_table.frames@[k]).ppn.0,
    ) by {
        assert(s.page_table.has_node(s.page_table.frames@[k].ppn.0));
        assert(s.owns(s.page_table.frames@[k].ppn.0));
    }
    assert forall|k: int| 0 <= k < s.areas@.len() implies (#[trigger] s.areas@[k]).fits(
        &s.page_table,
        a2,
    ) by {
        let ar = s.areas@[k];
        assert(ar.fits(&s.page_table, a));
        assert forall|v: u64| (#[trigger] ar.slot(v)).is_some() implies a2.in_use(
            ar.slot(v).unwrap().ppn.0,
        ) by {
            assert(ar.holds_frame(ar.slot(v).unwrap().ppn.0));
            assert(s.owns(ar.slot(v).unwrap().ppn.0));
        }
    }
}

/// The address spaces of a kernel: whether each is in order with the
/// allocator and no frame belongs to two of them.
pub open spec fn spaces_wf(spaces: Seq<Option<MemorySet>>, a: AllocatorState) -> bool {
    &&& a.wf()
    &&& a.end <= 0x1000_0000_0000
    &&& forall|i: int|
        0 <= i < spaces.len() && (#[trigger] spaces[i]).is_some() ==> spaces[i].unwrap().wf(a)
    &&& forall|i: int, j: int, f: u64|
        0 <= i < j < spaces.len() && spaces[i].is_some() && spaces[j].is_some() ==> !((
        #[trigger] spaces[i].unwrap().owns(f)) && (#[trigger] spaces[j].unwrap().owns(f)))
}

/// One step of a kernel on its address spaces: address space `i` changes,
/// comes or goes, every other one stays; the frames that space `i` gains
/// were free, and the frames that the allocator takes back were those of
/// space `i`. The address spaces are then in order as before, and those
/// that were complete and stay are complete.
pub proof fn lemma_spaces_step(
    s0: Seq<Option<MemorySet>>,
    a0: AllocatorState,
    s1: Seq<Option<MemorySet>>,
    a1: AllocatorState,
    i: int,
)
    requires
        spaces_wf(s0, a0),
        0 <= i < s1.len(),
        s0.len() <= s1.len(),
        forall|j: int| 0 <= j < s0.len() && j != i ==> #[trigger] s1[j] == s0[j],
        forall|j: int| s0.len() <= j < s1.len() && j != i ==> (#[trigger] s1[j]).is_none(),
        a1.wf(),
        a1.end == a0.end,
        s1[i].is_some() ==> s1[i].unwrap().wf(a1),
        s1[i].is_some() ==> forall|f: u64| #[trigger]
            s1[i].unwrap().owns(f) ==> (i < s0.len() && s0[i].is_some() && s0[i].unwrap().owns(f))
                || !a0.in_use(f),
        forall|f: u64|
            a0.in_use(f) && !#[trigger] a1.in_use(f) ==> i < s0.len() && s0[i].is_some()
                && s0[i].unwrap().owns(f),
    ensures
        spaces_wf(s1, a1),
        forall|j: int|
            0 <= j < s0.len() && j != i && s0[j].is_some() && (#[trigger] s0[j]).unwrap().complete(
                a0,
            ) ==> s1[j].unwrap().complete(a1),
{
    assert forall|j: int| 0 <= j < s1.len() && j != i && (#[trigger] s1[j]).is_some() implies s1[j].unwrap().wf(
        a1,
    ) && (s0[j].unwrap().complete(a0) ==> s1[j].unwrap().complete(a1)) by {
        let ms = s0[j].unwrap();
        assert(s1[j] == s0[j]);
        assert(ms.wf(a0));
        assert forall|f: u64| #[trigger] ms.owns(f) implies a1.in_use(f) by {
            lemma_owns_in_use(ms, a0, f);
            if !a1.in_use(f) {
                if j < i {
                    assert(!(s0[j].unwrap().owns(f) && s0[i].unwrap().owns(f)));
                } else {
                    assert(!(s0[i].unwrap().owns(f) && s0[j].unwrap().owns(f)));
                }
            }
        }
        lemma_wf_other_allocator(ms, a0, a1);
    }
    assert forall|j: int| 0 <= j < s1.len() && (#[trigger] s1[j]).is_some() implies s1[j].unwrap().wf(
        a1,
    ) by {}
    assert forall|j: int, k: int, f: u64|
        0 <= j < k < s1.len() && s1[j].is_some() && s1[k].is_some() implies !((
    #[trigger] s1[j].unwrap().owns(f)) && (#[trigger] s1[k].unwrap().owns(f))) by {
        if s1[j].unwrap().owns(f) && s1[k].unwrap().owns(f) {
            if j != i && k != i {
                assert(s1[j] == s0[j] && s1[k] == s0[k]);
                assert(!(s0[j].unwrap().owns(f) && s0[k].unwrap().owns(f)));
            } else {
                let o = if j == i {
                    k
                } else {
                    j
                };
                assert(s1[o] == s0[o]);
                lemma_owns_in_use(s0[o].unwrap(), a0, f);
                assert(s1[i].unwrap().owns(f));
                assert(i < s0.len() && s0[i].is_some() && s0[i].unwrap().owns(f));
                if o < i {
                    assert(!(s0[o].unwrap().owns(f) && s0[i].unwrap().owns(f)));
                } else {
                    assert(!(s0[i].unwrap().owns(f) && s0[o].unwrap().owns(f)));
                }
            }
        }
    }
}

/// The address spaces stay in order, and those that were complete stay
/// complete, under any change of the allocator that leaves their frames in use.
pub proof fn lemma_spaces_other_allocator(
    s: Seq<Option<MemorySet>>,
    a: AllocatorState,
    a2: AllocatorState,
)
    requires
        spaces_wf(s, a),
        a2.wf(),
        a2.end == a.end,
        forall|i: int, f: u64|
            0 <= i < s.len() && s[i].is_some() && #[trigger] s[i].unwrap().owns(f) ==> a2.in_use(f),
    ensures
        spaces_wf(s, a2),
        forall|i: int|
            0 <= i < s.len() && s[i].is_some() && (#[trigger] s[i]).unwrap().complete(a)
                ==> s[i].unwrap().complete(a2),
{
    assert forall|i: int| 0 <= i < s.len() && (#[trigger] s[i]).is_some() implies s[i].unwrap().wf(
        a2,
    ) && (s[i].unwrap().complete(a) ==> s[i].unwrap().complete(a2)) by {
        let ms = s[i].unwrap();
        assert forall|f: u64| #[trigger] ms.owns(f) implies a2.in_use(f) by {
            assert(s[i].unwrap().owns(f));
        }
        lemma_wf_other_allocator(ms, a, a2);
    }
}

/// An address space that shares no frame with the others can be added to
/// them.
pub proof fn lemma_spaces_insert(
    s0: Seq<Option<MemorySet>>,
    a: AllocatorState,
    s1: Seq<Option<MemorySet>>,
    i: int,
)
    requires
        spaces_wf(s0, a),
        0 <= i < s1.len(),
        s0.len() <= s1.len(),
        i < s0.len() ==> s0[i].is_none(),
        forall|j: int| 0 <= j < s0.len() && j != i ==> #[trigger] s1[j] == s0[j],
        forall|j: int| s0.len() <= j < s1.len() && j != i ==> (#[trigger] s1[j]).is_none(),
        s1[i].is_some(),
        s1[i].unwrap().wf(a),
        forall|j: int, f: u64|
            0 <= j < s0.len() && s0[j].is_some() && #[trigger] s0[j].unwrap().owns(f)
                ==> !s1[i].unwrap().owns(f),
    ensures
        spaces_wf(s1, a),
{
    assert forall|j: int| 0 <= j < s1.len() && (#[trigger] s1[j]).is_some() implies s1[j].unwrap().wf(
        a,
    ) by {
        if j != i {
            assert(s1[j] == s0[j]);
        }
    }
    assert forall|j: int, k: int, f: u64|
        0 <= j < k < s1.len() && s1[j].is_some() && s1[k].is_some() implies !((
    #[trigger] s1[j].unwrap().owns(f)) && (#[trigger] s1[k].unwrap().owns(f))) by {
        if j != i && k != i {
            assert(s1[j] == s0[j] && s1[k] == s0[k]);
            assert(!(s0[j].unwrap().owns(f) && s0[k].unwrap().owns(f)));
        } else if j == i {
            assert(s1[k] == s0[k]);
            if s0[k].unwrap().owns(f) {
                assert(!s1[i].unwrap().owns(f));
            }
        } else {
            assert(s1[j] == s0[j]);
            if s0[j].unwrap().owns(f) {
                assert(!s1[i].unwrap().owns(f));
            }
        }
    }
}

} // verus!
