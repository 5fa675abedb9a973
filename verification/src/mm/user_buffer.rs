//! Access from the kernel to the memory of a program: bytes, words, strings
//! and buffers at addresses of the program's address space.
//!
//! A byte of the program is reached through the page table and the region
//! that holds the page: the page must be mapped, a region must hold a frame
//! for it, and the entry must name that frame. Addresses of programs lie
//! below `USER_LIMIT`, the lower half of the address space.
use vstd::prelude::*;
use super::address::{PhysPageNum, VirtPageNum};
use super::frame_allocator::AllocatorState;
use super::memory_set::{lemma_fits_same_frames, MapArea, MemorySet};
use super::page_table::pte_ppn;
use vstd::bytes::{spec_u64_from_le_bytes, spec_u64_to_le_bytes, u64_from_le_bytes, u64_to_le_bytes};
use vstd::slice::slice_subrange;

verus! {

/// The first address that is not one of a program.
pub const USER_LIMIT: u64 = 0x40_0000_0000;

/// Index of the first region that holds a frame for page `vpn`, or -1.
pub open spec fn area_holding(areas: Seq<MapArea>, vpn: u64) -> int
    decreases areas.len(),
{
    if areas.len() == 0 {
        -1
    } else if area_holding(areas.drop_last(), vpn) >= 0 {
        area_holding(areas.drop_last(), vpn)
    } else if areas.last().slot(vpn).is_some() {
        areas.len() - 1
    } else {
        -1
    }
}

/// What `area_holding` finds: a region that holds a frame for the page,
/// before which none holds one; or -1 when none holds one.
pub proof fn lemma_area_holding(areas: Seq<MapArea>, vpn: u64)
    ensures
        -1 <= area_holding(areas, vpn) < areas.len(),
        area_holding(areas, vpn) >= 0 ==> areas[area_holding(areas, vpn)].slot(vpn).is_some(),
        forall|i: int|
            0 <= i < areas.len() && (#[trigger] areas[i]).slot(vpn).is_some() ==> 0
                <= area_holding(areas, vpn) <= i,
    decreases areas.len(),
{
    if areas.len() > 0 {
        lemma_area_holding(areas.drop_last(), vpn);
        assert forall|i: int| 0 <= i < areas.len() && (#[trigger] areas[i]).slot(vpn).is_some() implies 0
            <= area_holding(areas, vpn) <= i by {
            if i < areas.len() - 1 {
                assert(areas.drop_last()[i].slot(vpn).is_some());
            }
        }
    }
}

/// A piece of a buffer of a program that lies in one page: the page, the
/// frame it is mapped to, and the bytes `[start, end)` of the page.
#[derive(Copy, Clone, PartialEq, Eq, Structural, Debug)]
pub struct UserSegment {
    pub vpn: VirtPageNum,
    pub ppn: PhysPageNum,
    pub start: usize,
    pub end: usize,
}

/// Number of pages that the `len` bytes from `ptr` on touch.
pub open spec fn pages_touched(ptr: u64, len: u64) -> int {
    if len == 0 {
        0
    } else {
        (ptr + len - 1) / 4096 - ptr / 4096 + 1
    }
}

impl MemorySet {
    /// Every region is in order.
    pub open spec fn areas_wf(&self) -> bool {
        forall|k: int| 0 <= k < self.areas@.len() ==> (#[trigger] self.areas@[k]).area_wf()
    }

    /// The bytes of page `vpn` as a program sees them, if it can reach the page.
    pub open spec fn user_page(&self, vpn: u64) -> Option<Seq<u8>> {
        let k = area_holding(self.areas@, vpn);
        if vpn < 0x400_0000 && k >= 0 && self.page_table.translation(vpn).is_some() && pte_ppn(
            self.page_table.translation(vpn).unwrap().bits,
        ) == self.areas@[k].slot(vpn).unwrap().ppn.0 {
            Some(self.areas@[k].slot(vpn).unwrap()@)
        } else {
            None
        }
    }

    /// The byte at address `va` as a program sees it.
    pub open spec fn user_byte(&self, va: u64) -> Option<u8> {
        match self.user_page(va / 4096) {
            Some(bytes) => Some(bytes[(va % 4096) as int]),
            None => None,
        }
    }

    /// Whether a program can reach each of the `len` bytes from `ptr` on.
    pub open spec fn user_range_ok(&self, ptr: u64, len: int) -> bool {
        &&& ptr + len <= USER_LIMIT
        &&& forall|i: int| 0 <= i < len ==> (#[trigger] self.user_byte((ptr + i) as u64)).is_some()
    }

    /// The `len` bytes from `ptr` on as a program sees them.
    pub open spec fn user_bytes(&self, ptr: u64, len: int) -> Seq<u8> {
        Seq::new(len as nat, |i: int| self.user_byte((ptr + i) as u64).unwrap())
    }

    /// The place of the frame of page `vpn`: the region that holds it and the
    /// index of the page in the region; `None` where a program cannot reach
    /// the page.
    pub fn user_frame(&self, vpn: VirtPageNum) -> (r: Option<(usize, usize)>)
        requires
            self.page_table.frames_wf(),
            self.areas_wf(),
        ensures
            r.is_some() == self.user_page(vpn.0).is_some(),
            r.is_some() ==> {
                let (k, j) = r.unwrap();
                &&& k == area_holding(self.areas@, vpn.0)
                &&& k < self.areas@.len()
                &&& j == vpn.0 - self.areas@[k as int].start()
                &&& j < self.areas@[k as int].data_frames@.len()
                &&& self.areas@[k as int].data_frames@[j as int] == self.areas@[k as int].slot(
                    vpn.0,
                )
                &&& self.areas@[k as int].data_frames@[j as int].is_some()
                &&& self.areas@[k as int].data_frames@[j as int].unwrap().wf()
                &&& self.user_page(vpn.0) == Some(
                    self.areas@[k as int].data_frames@[j as int].unwrap()@,
                )
            },
    {
        proof {
            lemma_area_holding(self.areas@, vpn.0);
        }
        if vpn.0 >= 0x400_0000 {
            return None;
        }
        let entry = match self.page_table.translate(vpn) {
            None => {
                return None;
            },
            Some(e) => e,
        };
        let mut k: usize = 0;
        while k < self.areas.len()
            invariant
                0 <= k <= self.areas@.len(),
                self.areas_wf(),
                vpn.0 < 0x400_0000,
                self.page_table.translation(vpn.0) == Some(entry),
                forall|i: int| 0 <= i < k ==> (#[trigger] self.areas@[i]).slot(vpn.0).is_none(),
            decreases self.areas@.len() - k,
        {
            let area = &self.areas[k];
            let start: u64 = area.vpn_range.get_start().0;
            if start <= vpn.0 && vpn.0 - start < area.data_frames.len() as u64 {
                let j: usize = (vpn.0 - start) as usize;
                match &area.data_frames[j] {
                    Some(frame) => {
                        proof {
                            lemma_area_holding(self.areas@, vpn.0);
                            assert(self.areas@[k as int].slot(vpn.0).is_some());
                            let h = area_holding(self.areas@, vpn.0);
                            if h < k {
                                assert(self.areas@[h].slot(vpn.0).is_none());
                            }
                            assert(self.areas@[k as int].area_wf());
                        }
                        if entry.ppn().0 == frame.ppn.0 {
                            return Some((k, j));
                        } else {
                            return None;
                        }
                    },
                    None => {},
                }
            }
            k += 1;
        }
        proof {
            lemma_area_holding(self.areas@, vpn.0);
            let h = area_holding(self.areas@, vpn.0);
            if h >= 0 {
                assert(self.areas@[h].slot(vpn.0).is_none());
            }
        }
        None
    }

    /// The byte at address `va` of the program, or `None` where the program
    /// cannot reach it.
    pub fn read_user_byte(&self, va: u64) -> (r: Option<u8>)
        requires
            self.page_table.frames_wf(),
            self.areas_wf(),
        ensures
            r == self.user_byte(va),
    {
        match self.user_frame(VirtPageNum(va / 4096)) {
            None => None,
            Some((k, j)) => match &self.areas[k].data_frames[j] {
                Some(frame) => Some(frame.read_byte((va % 4096) as usize)),
                None => None,
            },
        }
    }

    /// Whether the region structure is that of `old`: the same page table
    /// and, region by region and page by page, the same frames. Only what
    /// the frames hold may differ.
    pub open spec fn same_frames(&self, old: &MemorySet) -> bool {
        &&& self.page_table == old.page_table
        &&& self.areas@.len() == old.areas@.len()
        &&& forall|k: int|
            0 <= k < self.areas@.len() ==> {
                let a = #[trigger] self.areas@[k];
                let b = old.areas@[k];
                &&& a.vpn_range == b.vpn_range
                &&& a.map_type == b.map_type
                &&& a.map_perm == b.map_perm
                &&& a.area_wf()
                &&& a.data_frames@.len() == b.data_frames@.len()
                &&& forall|j: int|
                    0 <= j < a.data_frames@.len() ==> (#[trigger] a.data_frames@[j]).is_some()
                        == b.data_frames@[j].is_some()
                &&& forall|j: int|
                    0 <= j < a.data_frames@.len() && b.data_frames@[j].is_some() ==> (
                    #[trigger] a.data_frames@[j]).unwrap().ppn == b.data_frames@[j].unwrap().ppn
            }
    }

    /// Stores `value` at address `va` of the program. Nothing changes, and
    /// the result is `false`, where the program cannot reach the address.
    pub fn write_user_byte(&mut self, va: u64, value: u8) -> (done: bool)
        requires
            old(self).page_table.frames_wf(),
            old(self).areas_wf(),
        ensures
            done == old(self).user_byte(va).is_some(),
            !done ==> *final(self) == *old(self),
            final(self).same_frames(old(self)),
            done ==> final(self).user_page(va / 4096) == Some(
                old(self).user_page(va / 4096).unwrap().update((va % 4096) as int, value),
            ),
            forall|v: u64|
                v != va / 4096 ==> #[trigger] final(self).user_page(v) == old(self).user_page(v),
            done ==> final(self).user_byte(va) == Some(value),
            forall|a: u64| a != va ==> #[trigger] final(self).user_byte(a) == old(self).user_byte(a),
            forall|a: u64| (#[trigger] final(self).user_byte(a)).is_some() == old(self).user_byte(a).is_some(),
    {
        let ghost s0 = *self;
        match self.user_frame(VirtPageNum(va / 4096)) {
            None => {
                proof {
                    assert(self.same_frames(&s0));
                }
                false
            },
            Some((k, j)) => {
                match &mut self.areas[k].data_frames[j] {
                    Some(frame) => {
                        frame.write_byte((va % 4096) as usize, value);
                    },
                    None => {},
                }
                proof {
                    assert forall|m: int| 0 <= m < self.areas@.len() && m != k implies #[trigger] self.areas@[m]
                        == s0.areas@[m] by {}
                    assert(self.same_frames(&s0)) by {
                        assert forall|m: int| 0 <= m < self.areas@.len() implies {
                            let a = #[trigger] self.areas@[m];
                            let b = s0.areas@[m];
                            &&& a.vpn_range == b.vpn_range
                            &&& a.map_type == b.map_type
                            &&& a.map_perm == b.map_perm
                            &&& a.area_wf()
                            &&& a.data_frames@.len() == b.data_frames@.len()
                            &&& forall|i: int|
                                0 <= i < a.data_frames@.len() ==> (#[trigger] a.data_frames@[i]).is_some()
                                    == b.data_frames@[i].is_some()
                            &&& forall|i: int|
                                0 <= i < a.data_frames@.len() && b.data_frames@[i].is_some() ==> (
                                #[trigger] a.data_frames@[i]).unwrap().ppn
                                    == b.data_frames@[i].unwrap().ppn
                        } by {
                            assert(s0.areas@[m].area_wf());
                            if m != k {
                                assert(self.areas@[m] == s0.areas@[m]);
                            }
                        }
                    }
                    lemma_same_frames_pages(*self, s0);
                    assert forall|v: u64| v != va / 4096 implies #[trigger] self.user_page(v)
                        == s0.user_page(v) by {
                        let h = area_holding(s0.areas@, v);
                        lemma_area_holding(s0.areas@, v);
                        if h >= 0 {
                            if h == k {
                                assert(v - s0.areas@[h].start() != j);
                            } else {
                                assert(self.areas@[h] == s0.areas@[h]);
                            }
                        }
                    }
                    let page0 = s0.user_page(va / 4096).unwrap();
                    assert(page0.len() == 4096);
                    assert(self.user_page(va / 4096) == Some(
                        page0.update((va % 4096) as int, value),
                    ));
                    assert forall|a: u64| a != va implies #[trigger] self.user_byte(a)
                        == s0.user_byte(a) by {
                        if a / 4096 == va / 4096 {
                            assert(a % 4096 != va % 4096);
                        } else {
                            assert(self.user_page(a / 4096) == s0.user_page(a / 4096));
                        }
                    }
                    assert forall|a: u64| (#[trigger] self.user_byte(a)).is_some() == s0.user_byte(
                        a,
                    ).is_some() by {
                        if a / 4096 != va / 4096 {
                            assert(self.user_page(a / 4096) == s0.user_page(a / 4096));
                        }
                    }
                }
                true
            },
        }
    }
}

/// Where only what the frames hold differs, each page is held by the same
/// region and lies in the same frame.
pub proof fn lemma_same_frames_pages(s1: MemorySet, s0: MemorySet)
    requires
        s1.same_frames(&s0),
    ensures
        forall|v: u64| #[trigger] area_holding(s1.areas@, v) == area_holding(s0.areas@, v),
        forall|v: u64, k: int|
            0 <= k < s1.areas@.len() ==> (#[trigger] s1.areas@[k].slot(v)).is_some()
                == s0.areas@[k].slot(v).is_some(),
        forall|v: u64, k: int|
            0 <= k < s1.areas@.len() && (#[trigger] s1.areas@[k].slot(v)).is_some()
                ==> s1.areas@[k].slot(v).unwrap().ppn == s0.areas@[k].slot(v).unwrap().ppn,
{
    assert forall|v: u64, k: int| 0 <= k < s1.areas@.len() implies (#[trigger] s1.areas@[k].slot(
        v,
    )).is_some() == s0.areas@[k].slot(v).is_some() && (s1.areas@[k].slot(v).is_some()
        ==> s1.areas@[k].slot(v).unwrap().ppn == s0.areas@[k].slot(v).unwrap().ppn) by {
        let a = s1.areas@[k];
        let b = s0.areas@[k];
        assert(a.start() == b.start());
    }
    assert forall|v: u64| #[trigger] area_holding(s1.areas@, v) == area_holding(s0.areas@, v) by {
        lemma_holding_same(s1.areas@, s0.areas@, v);
    }
}

/// Regions that hold frames for the same pages give the same first holder.
pub proof fn lemma_holding_same(a1: Seq<MapArea>, a0: Seq<MapArea>, v: u64)
    requires
        a1.len() == a0.len(),
        forall|k: int| 0 <= k < a1.len() ==> (#[trigger] a1[k]).slot(v).is_some() == a0[k].slot(v).is_some(),
    ensures
        area_holding(a1, v) == area_holding(a0, v),
    decreases a1.len(),
{
    if a1.len() > 0 {
        assert forall|k: int| 0 <= k < a1.drop_last().len() implies (#[trigger] a1.drop_last()[k]).slot(
            v,
        ).is_some() == a0.drop_last()[k].slot(v).is_some() by {
            assert(a1[k].slot(v).is_some() == a0[k].slot(v).is_some());
        }
        lemma_holding_same(a1.drop_last(), a0.drop_last(), v);
        assert(a1[a1.len() - 1].slot(v).is_some() == a0[a0.len() - 1].slot(v).is_some());
    }
}

/// Changing what the frames hold keeps the frames of an address space
/// accounted for, keeps it complete, and keeps what it owns.
pub proof fn lemma_same_frames_wf(s1: MemorySet, s0: MemorySet, a: AllocatorState)
    requires
        s1.same_frames(&s0),
        s0.wf(a),
    ensures
        s1.wf(a),
        s0.complete(a) ==> s1.complete(a),
        forall|p: u64| #[trigger] s1.owns(p) == s0.owns(p),
{
    reveal(MemorySet::wf);
    reveal(MemorySet::complete);
    lemma_same_frames_pages(s1, s0);
    assert forall|k: int| 0 <= k < s1.areas@.len() implies (#[trigger] s1.areas@[k]).fits(
        &s1.page_table,
        a,
    ) && (s0.areas@[k].mapped_in(&s0.page_table) ==> s1.areas@[k].mapped_in(&s1.page_table)) by {
        assert(s0.areas@[k].fits(&s0.page_table, a));
        lemma_fits_same_frames(s0.areas@[k], s1.areas@[k], &s0.page_table, a);
    }
    assert forall|k: int, m: int, v: u64, w: u64|
        0 <= k < m < s1.areas@.len() && (#[trigger] s1.areas@[k].slot(v)).is_some() && (
        #[trigger] s1.areas@[m].slot(w)).is_some() implies s1.areas@[k].slot(v).unwrap().ppn
        != s1.areas@[m].slot(w).unwrap().ppn by {
        assert(s0.areas@[k].slot(v).is_some());
        assert(s0.areas@[m].slot(w).is_some());
    }
    assert forall|p: u64| #[trigger] s1.owns(p) == s0.owns(p) by {
        if exists|k: int| 0 <= k < s1.areas@.len() && (#[trigger] s1.areas@[k]).holds_frame(p) {
            let k = choose|k: int|
                0 <= k < s1.areas@.len() && (#[trigger] s1.areas@[k]).holds_frame(p);
            let v = choose|v: u64|
                (#[trigger] s1.areas@[k].slot(v)).is_some() && s1.areas@[k].slot(v).unwrap().ppn.0
                    == p;
            assert(s0.areas@[k].slot(v).is_some());
            assert(s0.areas@[k].holds_frame(p));
        }
        if exists|k: int| 0 <= k < s0.areas@.len() && (#[trigger] s0.areas@[k]).holds_frame(p) {
            let k = choose|k: int|
                0 <= k < s0.areas@.len() && (#[trigger] s0.areas@[k]).holds_frame(p);
            let v = choose|v: u64|
                (#[trigger] s0.areas@[k].slot(v)).is_some() && s0.areas@[k].slot(v).unwrap().ppn.0
                    == p;
            assert(s1.areas@[k].slot(v).is_some());
            assert(s1.areas@[k].holds_frame(p));
        }
    }
    if s0.complete(a) {
        assert forall|k: int, m: int, v: u64| 0 <= k < m < s1.areas@.len() implies !((
        #[trigger] s1.areas@[k].contains(v)) && (#[trigger] s1.areas@[m].contains(v))) by {
            assert(!(s0.areas@[k].contains(v) && s0.areas@[m].contains(v)));
        }
        assert forall|v: u64|
            v < super::memory_set::VPN_LIMIT && (#[trigger] s1.translation(v)).is_some() implies s1.covered(
            v,
        ) || v == super::memory_set::TRAMPOLINE_VPN by {
            assert(s0.translation(v).is_some());
            if v != super::memory_set::TRAMPOLINE_VPN {
                assert(s0.covered(v));
                let k = choose|k: int|
                    0 <= k < s0.areas@.len() && (#[trigger] s0.areas@[k]).contains(v);
                assert(s1.areas@[k].contains(v));
            }
        }
    }
}

impl MemorySet {
    /// The `len` bytes from address `ptr` on, which must lie in one page; `None`
    /// where they do not or the program cannot reach the page.
    pub fn read_user_slice(&self, ptr: u64, len: usize) -> (r: Option<Vec<u8>>)
        requires
            self.page_table.frames_wf(),
            self.areas_wf(),
        ensures
            r.is_some() == (ptr % 4096 + len <= 4096 && self.user_page(ptr / 4096).is_some()),
            r.is_some() ==> r.unwrap()@.len() == len && self.user_page(
                ptr / 4096,
            ).unwrap().len() == 4096,
            r.is_some() ==> r.unwrap()@ == self.user_page(ptr / 4096).unwrap().subrange(
                (ptr % 4096) as int,
                ptr % 4096 + len,
            ),
    {
        let offset: usize = (ptr % 4096) as usize;
        if len > 4096 - offset {
            return None;
        }
        match self.user_frame(VirtPageNum(ptr / 4096)) {
            None => None,
            Some((k, j)) => match &self.areas[k].data_frames[j] {
                Some(frame) => {
                    let piece = slice_subrange(frame.get_bytes_array(), offset, offset + len);
                    Some(vstd::slice::slice_to_vec(piece))
                },
                None => None,
            },
        }
    }

    /// Stores `data` from address `ptr` on, which must lie in one page.
    /// Nothing changes, and the result is `false`, where it does not or the
    /// program cannot reach the page.
    pub fn write_user_slice(&mut self, ptr: u64, data: &[u8]) -> (done: bool)
        requires
            old(self).page_table.frames_wf(),
            old(self).areas_wf(),
        ensures
            done == (ptr % 4096 + data@.len() <= 4096 && old(self).user_page(
                ptr / 4096,
            ).is_some()),
            !done ==> *final(self) == *old(self),
            final(self).same_frames(old(self)),
            done ==> final(self).user_page(ptr / 4096) == Some(
                old(self).user_page(ptr / 4096).unwrap().subrange(0, (ptr % 4096) as int) + data@
                    + old(self).user_page(ptr / 4096).unwrap().subrange(
                    ptr % 4096 + data@.len(),
                    4096,
                ),
            ),
            forall|v: u64|
                v != ptr / 4096 ==> #[trigger] final(self).user_page(v) == old(self).user_page(v),
    {
        let ghost s0 = *self;
        let offset: usize = (ptr % 4096) as usize;
        if data.len() > 4096 - offset {
            proof {
                lemma_same_frames_refl(s0);
            }
            return false;
        }
        match self.user_frame(VirtPageNum(ptr / 4096)) {
            None => {
                proof {
                    lemma_same_frames_refl(s0);
                }
                false
            },
            Some((k, j)) => {
                match &mut self.areas[k].data_frames[j] {
                    Some(frame) => {
                        frame.write_at(offset, data);
                    },
                    None => {},
                }
                proof {
                    lemma_one_frame_changed(s0, *self, k as int, j as int);
                    lemma_same_frames_pages(*self, s0);
                    assert forall|v: u64| v != ptr / 4096 implies #[trigger] self.user_page(v)
                        == s0.user_page(v) by {
                        let h = area_holding(s0.areas@, v);
                        lemma_area_holding(s0.areas@, v);
                        if h >= 0 {
                            if h == k {
                                assert(v - s0.areas@[h].start() != j);
                            } else {
                                assert(self.areas@[h] == s0.areas@[h]);
                            }
                        }
                    }
                }
                true
            },
        }
    }
}

/// An address space has the frames that it has.
pub proof fn lemma_same_frames_refl(s: MemorySet)
    requires
        s.areas_wf(),
    ensures
        s.same_frames(&s),
{
}

/// Where one frame holds other bytes and nothing else differs, the frames
/// are the same.
pub proof fn lemma_one_frame_changed(s0: MemorySet, s1: MemorySet, k: int, j: int)
    requires
        s0.areas_wf(),
        s1.page_table == s0.page_table,
        s1.areas@.len() == s0.areas@.len(),
        0 <= k < s0.areas@.len(),
        0 <= j < s0.areas@[k].data_frames@.len(),
        s0.areas@[k].data_frames@[j].is_some(),
        forall|m: int| 0 <= m < s0.areas@.len() && m != k ==> #[trigger] s1.areas@[m] == s0.areas@[m],
        s1.areas@[k].vpn_range == s0.areas@[k].vpn_range,
        s1.areas@[k].map_type == s0.areas@[k].map_type,
        s1.areas@[k].map_perm == s0.areas@[k].map_perm,
        s1.areas@[k].data_frames@.len() == s0.areas@[k].data_frames@.len(),
        forall|i: int|
            0 <= i < s0.areas@[k].data_frames@.len() && i != j ==> #[trigger] s1.areas@[k].data_frames@[i]
                == s0.areas@[k].data_frames@[i],
        s1.areas@[k].data_frames@[j].is_some(),
        s1.areas@[k].data_frames@[j].unwrap().ppn == s0.areas@[k].data_frames@[j].unwrap().ppn,
        s1.areas@[k].data_frames@[j].unwrap().wf(),
    ensures
        s1.same_frames(&s0),
{
    assert forall|m: int| 0 <= m < s1.areas@.len() implies {
        let a = #[trigger] s1.areas@[m];
        let b = s0.areas@[m];
        &&& a.vpn_range == b.vpn_range
        &&& a.map_type == b.map_type
        &&& a.map_perm == b.map_perm
        &&& a.area_wf()
        &&& a.data_frames@.len() == b.data_frames@.len()
        &&& forall|i: int|
            0 <= i < a.data_frames@.len() ==> (#[trigger] a.data_frames@[i]).is_some()
                == b.data_frames@[i].is_some()
        &&& forall|i: int|
            0 <= i < a.data_frames@.len() && b.data_frames@[i].is_some() ==> (
            #[trigger] a.data_frames@[i]).unwrap().ppn == b.data_frames@[i].unwrap().ppn
    } by {
        assert(s0.areas@[m].area_wf());
        if m != k {
            assert(s1.areas@[m] == s0.areas@[m]);
        } else {
            let a = s1.areas@[k];
            let b = s0.areas@[k];
            assert forall|i: int|
                0 <= i < a.data_frames@.len() && (#[trigger] a.data_frames@[i]).is_some() implies a.data_frames@[i].unwrap().wf() by {
                if i != j {
                    assert(a.data_frames@[i] == b.data_frames@[i]);
                }
            }
            assert forall|i: int| 0 <= i < a.data_frames@.len() implies (
            #[trigger] a.data_frames@[i]).is_some() == b.data_frames@[i].is_some() by {
                if i != j {
                    assert(a.data_frames@[i] == b.data_frames@[i]);
                }
            }
            assert forall|i: int|
                0 <= i < a.data_frames@.len() && b.data_frames@[i].is_some() implies (
            #[trigger] a.data_frames@[i]).unwrap().ppn == b.data_frames@[i].unwrap().ppn by {
                if i != j {
                    assert(a.data_frames@[i] == b.data_frames@[i]);
                }
            }
        }
    }
}

/// The word of eight bytes at address `ptr` of the program, read
/// little-endian; `None` where the word does not lie in one page or the
/// program cannot reach the page.
pub fn translated_ref(memory_set: &MemorySet, ptr: u64) -> (r: Option<u64>)
    requires
        memory_set.page_table.frames_wf(),
        memory_set.areas_wf(),
    ensures
        r.is_some() == (ptr % 4096 + 8 <= 4096 && memory_set.user_page(ptr / 4096).is_some()),
        r.is_some() ==> r.unwrap() == spec_u64_from_le_bytes(
            memory_set.user_page(ptr / 4096).unwrap().subrange(
                (ptr % 4096) as int,
                ptr % 4096 + 8,
            ),
        ),
{
    match memory_set.read_user_slice(ptr, 8) {
        None => None,
        Some(bytes) => Some(u64_from_le_bytes(bytes.as_slice())),
    }
}

/// Stores `value` as the word of eight bytes at address `ptr` of the
/// program, little-endian. Nothing changes, and the result is `false`, where
/// the word does not lie in one page or the program cannot reach the page.
pub fn translated_refmut(memory_set: &mut MemorySet, ptr: u64, value: u64) -> (done: bool)
    requires
        old(memory_set).page_table.frames_wf(),
        old(memory_set).areas_wf(),
    ensures
        done == (ptr % 4096 + 8 <= 4096 && old(memory_set).user_page(ptr / 4096).is_some()),
        !done ==> *final(memory_set) == *old(memory_set),
        final(memory_set).same_frames(old(memory_set)),
        done ==> final(memory_set).user_page(ptr / 4096) == Some(
            old(memory_set).user_page(ptr / 4096).unwrap().subrange(0, (ptr % 4096) as int)
                + spec_u64_to_le_bytes(value) + old(memory_set).user_page(
                ptr / 4096,
            ).unwrap().subrange(ptr % 4096 + 8, 4096),
        ),
        forall|v: u64|
            v != ptr / 4096 ==> #[trigger] final(memory_set).user_page(v) == old(memory_set).user_page(v),
{
    let bytes = u64_to_le_bytes(value);
    memory_set.write_user_slice(ptr, bytes.as_slice())
}

/// The bytes from address `ptr` on up to, not including, the first zero
/// byte; `None` where the program cannot reach one of them or the zero byte.
pub fn translated_str(memory_set: &MemorySet, ptr: u64) -> (r: Option<Vec<u8>>)
    requires
        memory_set.page_table.frames_wf(),
        memory_set.areas_wf(),
    ensures
        r.is_some() ==> {
            let s = r.unwrap()@;
            &&& ptr + s.len() < USER_LIMIT
            &&& forall|i: int|
                0 <= i < s.len() ==> #[trigger] memory_set.user_byte((ptr + i) as u64) == Some(s[i])
                    && s[i] != 0
            &&& memory_set.user_byte((ptr + s.len()) as u64) == Some(0u8)
        },
        r.is_none() ==> exists|n: int|
            0 <= n && (ptr + n > u64::MAX || (#[trigger] memory_set.user_byte(
                (ptr + n) as u64,
            )).is_none()) && forall|i: int|
                0 <= i < n ==> (#[trigger] memory_set.user_byte((ptr + i) as u64)).is_some()
                    && memory_set.user_byte((ptr + i) as u64) != Some(0u8),
{
    let mut s: Vec<u8> = Vec::new();
    let mut va: u64 = ptr;
    loop
        invariant
            memory_set.page_table.frames_wf(),
            memory_set.areas_wf(),
            va == ptr + s@.len(),
            forall|i: int|
                0 <= i < s@.len() ==> #[trigger] memory_set.user_byte((ptr + i) as u64) == Some(
                    s@[i],
                ) && s@[i] != 0,
        decreases u64::MAX - va,
    {
        match memory_set.read_user_byte(va) {
            None => {
                proof {
                    assert(memory_set.user_byte((ptr + s@.len()) as u64).is_none());
                }
                return None;
            },
            Some(ch) => {
                if ch == 0 {
                    proof {
                        assert(va / 4096 < 0x400_0000);
                    }
                    return Some(s);
                }
                if va == u64::MAX {
                    proof {
                        assert(memory_set.user_page(va / 4096).is_some());
                        assert(va / 4096 < 0x400_0000);
                    }
                    return None;
                }
                s.push(ch);
                va += 1;
            },
        }
    }
}

/// The pieces, page by page, of the `len` bytes of the program from address
/// `ptr` on; `None` where the program cannot reach all of them.
pub fn translated_byte_buffer(memory_set: &MemorySet, ptr: u64, len: u64) -> (r: Option<
    Vec<UserSegment>,
>)
    requires
        memory_set.page_table.frames_wf(),
        memory_set.areas_wf(),
    ensures
        r.is_some() == memory_set.user_range_ok(ptr, len as int),
        r.is_some() ==> {
            let v = r.unwrap()@;
            &&& v.len() == pages_touched(ptr, len)
            &&& forall|i: int| 0 <= i < v.len() ==> #[trigger] v[i] == segment_at(memory_set, ptr, len, i)
        },
{
    if len > USER_LIMIT || ptr > USER_LIMIT - len {
        return None;
    }
    let end: u64 = ptr + len;
    let mut v: Vec<UserSegment> = Vec::new();
    let mut start: u64 = ptr;
    while start < end
        invariant
            memory_set.page_table.frames_wf(),
            memory_set.areas_wf(),
            ptr <= start <= end,
            end == ptr + len,
            end <= USER_LIMIT,
            start == ptr || start == end || start % 4096 == 0,
            v@.len() == if start == ptr {
                0
            } else {
                (start - 1) / 4096 - ptr / 4096 + 1
            },
            forall|i: int| 0 <= i < v@.len() ==> #[trigger] v@[i] == segment_at(memory_set, ptr, len, i),
            forall|i: int|
                0 <= i < start - ptr ==> (#[trigger] memory_set.user_byte((ptr + i) as u64)).is_some(),
        decreases end - start,
    {
        let vpn: u64 = start / 4096;
        let place = memory_set.user_frame(VirtPageNum(vpn));
        if place.is_none() {
            proof {
                assert(memory_set.user_byte((ptr + (start - ptr)) as u64).is_none());
            }
            return None;
        }
        let (k, j) = place.unwrap();
        let ppn = match &memory_set.areas[k].data_frames[j] {
            Some(frame) => frame.ppn,
            None => PhysPageNum(0),
        };
        let page_end: u64 = if end - start > 4096 - start % 4096 {
            start - start % 4096 + 4096
        } else {
            end
        };
        let lo: usize = (start % 4096) as usize;
        let hi: usize = lo + (page_end - start) as usize;
        proof {
            let i = v@.len() as int;
            assert(vpn == ptr / 4096 + i);
            assert forall|b: int| 0 <= b < page_end - ptr implies (
            #[trigger] memory_set.user_byte((ptr + b) as u64)).is_some() by {
                if b >= start - ptr {
                    assert(((ptr + b) as u64) / 4096 == vpn);
                }
            }
        }
        v.push(UserSegment { vpn: VirtPageNum(vpn), ppn, start: lo, end: hi });
        start = page_end;
    }
    Some(v)
}

/// Piece `i` of the `len` bytes from address `ptr` on: page `ptr / 4096 + i`,
/// the frame that the page lies in, and the part of the page that belongs to
/// the bytes.
pub open spec fn segment_at(memory_set: &MemorySet, ptr: u64, len: u64, i: int) -> UserSegment {
    let vpn = (ptr / 4096 + i) as u64;
    UserSegment {
        vpn: VirtPageNum(vpn),
        ppn: PhysPageNum(pte_ppn(memory_set.page_table.translation(vpn).unwrap().bits)),
        start: if i == 0 {
            (ptr % 4096) as usize
        } else {
            0
        },
        end: if vpn == (ptr + len - 1) / 4096 {
            ((ptr + len - 1) % 4096 + 1) as usize
        } else {
            4096
        },
    }
}

/// A buffer of a program as a list of pieces, each within one page.
pub struct UserBuffer {
    pub buffers: Vec<UserSegment>,
}

/// Number of bytes in the first `n` pieces.
pub open spec fn segments_len(segments: Seq<UserSegment>, n: int) -> int
    decreases n,
{
    if n <= 0 {
        0
    } else {
        segments_len(segments, n - 1) + (segments[n - 1].end - segments[n - 1].start)
    }
}

impl UserBuffer {
    pub fn new(buffers: Vec<UserSegment>) -> (r: Self)
        ensures
            r.buffers@ == buffers@,
    {
        Self { buffers }
    }

    /// Every piece is a range within a page.
    pub open spec fn wf(&self) -> bool {
        forall|i: int|
            0 <= i < self.buffers@.len() ==> (#[trigger] self.buffers@[i]).start
                <= self.buffers@[i].end <= 4096
    }

    /// Number of bytes in the buffer.
    pub fn len(&self) -> (r: usize)
        requires
            self.wf(),
            self.buffers@.len() <= usize::MAX / 4096,
        ensures
            r == segments_len(self.buffers@, self.buffers@.len() as int),
    {
        let mut total: usize = 0;
        let mut i: usize = 0;
        while i < self.buffers.len()
            invariant
                self.wf(),
                self.buffers@.len() <= usize::MAX / 4096,
                0 <= i <= self.buffers@.len(),
                total == segments_len(self.buffers@, i as int),
                total <= 4096 * i,
            decreases self.buffers@.len() - i,
        {
            let b = &self.buffers[i];
            total += b.end - b.start;
            i += 1;
        }
        total
    }

    /// A cursor over the addresses of the bytes of the buffer, in order.
    pub fn into_iter(self) -> (it: UserBufferIterator)
        ensures
            it.buffers@ == self.buffers@,
            it.current_buffer == 0,
            it.current_idx == 0,
    {
        UserBufferIterator { buffers: self.buffers, current_buffer: 0, current_idx: 0 }
    }
}

/// A cursor over the bytes of a buffer: the piece and the byte in the piece
/// that it stands at.
pub struct UserBufferIterator {
    pub buffers: Vec<UserSegment>,
    pub current_buffer: usize,
    pub current_idx: usize,
}

impl UserBufferIterator {
    /// The cursor stands within a piece, and no piece is empty.
    pub open spec fn wf(&self) -> bool {
        &&& forall|i: int|
            0 <= i < self.buffers@.len() ==> (#[trigger] self.buffers@[i]).start
                < self.buffers@[i].end <= 4096 && self.buffers@[i].vpn.0 < 0x400_0000
        &&& self.current_buffer < self.buffers@.len() ==> self.current_idx
            < self.buffers@[self.current_buffer as int].end
            - self.buffers@[self.current_buffer as int].start
    }

    /// The address of the byte that the cursor stands at, and a step to the
    /// next byte; `None` behind the last byte.
    pub fn next(&mut self) -> (r: Option<u64>)
        requires
            old(self).wf(),
        ensures
            final(self).wf(),
            final(self).buffers@ == old(self).buffers@,
            old(self).current_buffer >= old(self).buffers@.len() ==> r.is_none() && *final(self)
                == *old(self),
            old(self).current_buffer < old(self).buffers@.len() ==> {
                let b = old(self).buffers@[old(self).current_buffer as int];
                &&& r == Some((b.vpn.0 * 4096 + b.start + old(self).current_idx) as u64)
                &&& if old(self).current_idx + 1 == b.end - b.start {
                    final(self).current_buffer == old(self).current_buffer + 1 && final(self).current_idx == 0
                } else {
                    final(self).current_buffer == old(self).current_buffer && final(self).current_idx == old(self).current_idx + 1
                }
            },
    {
        if self.current_buffer >= self.buffers.len() {
            None
        } else {
            let b = self.buffers[self.current_buffer];
            let va: u64 = b.vpn.0 * 4096 + (b.start + self.current_idx) as u64;
            if self.current_idx + 1 == b.end - b.start {
                self.current_idx = 0;
                self.current_buffer += 1;
            } else {
                self.current_idx += 1;
            }
            Some(va)
        }
    }
}

impl MemorySet {
    /// Stores `data` from address `ptr` on. Nothing changes, and the result
    /// is `false`, where the program cannot reach one of the bytes.
    pub fn write_user_bytes(&mut self, ptr: u64, data: &[u8]) -> (done: bool)
        requires
            old(self).page_table.frames_wf(),
            old(self).areas_wf(),
        ensures
            final(self).same_frames(old(self)),
            done == old(self).user_range_ok(ptr, data@.len() as int),
            !done ==> *final(self) == *old(self),
            done ==> forall|i: int|
                0 <= i < data@.len() ==> #[trigger] final(self).user_byte((ptr + i) as u64) == Some(
                    data@[i],
                ),
            forall|va: u64|
                !(ptr <= va < ptr + data@.len()) ==> #[trigger] final(self).user_byte(va) == old(self).user_byte(va),
    {
        let len: usize = data.len();
        proof {
            lemma_same_frames_refl(*old(self));
        }
        if len as u64 > USER_LIMIT || ptr > USER_LIMIT - len as u64 {
            return false;
        }
        let mut k: usize = 0;
        while k < len
            invariant
                0 <= k <= len,
                len == data@.len(),
                ptr + len <= USER_LIMIT,
                *self == *old(self),
                self.page_table.frames_wf(),
                self.areas_wf(),
                forall|i: int| 0 <= i < k ==> (#[trigger] self.user_byte((ptr + i) as u64)).is_some(),
            decreases len - k,
        {
            if self.read_user_byte(ptr + k as u64).is_none() {
                return false;
            }
            k += 1;
        }
        let mut k: usize = 0;
        while k < len
            invariant
                0 <= k <= len,
                len == data@.len(),
                ptr + len <= USER_LIMIT,
                self.page_table.frames_wf(),
                self.areas_wf(),
                self.same_frames(old(self)),
                old(self).user_range_ok(ptr, len as int),
                forall|a: u64| (#[trigger] self.user_byte(a)).is_some() == old(self).user_byte(a).is_some(),
                forall|i: int|
                    0 <= i < k ==> #[trigger] self.user_byte((ptr + i) as u64) == Some(data@[i]),
                forall|va: u64|
                    !(ptr <= va < ptr + k) ==> #[trigger] self.user_byte(va) == old(self).user_byte(va),
            decreases len - k,
        {
            let ghost s1 = *self;
            let va: u64 = ptr + k as u64;
            proof {
                assert(old(self).user_byte((ptr + k) as u64).is_some());
                assert(s1.user_byte(va).is_some());
            }
            let done = self.write_user_byte(va, data[k]);
            proof {
                lemma_same_frames_trans(*self, s1, *old(self));
                assert forall|a: u64| (#[trigger] self.user_byte(a)).is_some() == old(self).user_byte(a).is_some() by {
                    assert(s1.user_byte(a).is_some() == old(self).user_byte(a).is_some());
                }
                assert forall|i: int| 0 <= i < k + 1 implies #[trigger] self.user_byte(
                    (ptr + i) as u64,
                ) == Some(data@[i]) by {
                    if i < k {
                        assert(s1.user_byte((ptr + i) as u64) == Some(data@[i]));
                    }
                }
                assert forall|a: u64| !(ptr <= a < ptr + k + 1) implies #[trigger] self.user_byte(a)
                    == old(self).user_byte(a) by {
                    assert(s1.user_byte(a) == old(self).user_byte(a));
                }
            }
            k += 1;
        }
        true
    }
}

/// Having the same frames carries over.
pub proof fn lemma_same_frames_trans(s2: MemorySet, s1: MemorySet, s0: MemorySet)
    requires
        s2.same_frames(&s1),
        s1.same_frames(&s0),
    ensures
        s2.same_frames(&s0),
{
    assert forall|k: int| 0 <= k < s2.areas@.len() implies {
        let a = #[trigger] s2.areas@[k];
        let b = s0.areas@[k];
        &&& a.vpn_range == b.vpn_range
        &&& a.map_type == b.map_type
        &&& a.map_perm == b.map_perm
        &&& a.area_wf()
        &&& a.data_frames@.len() == b.data_frames@.len()
        &&& forall|j: int|
            0 <= j < a.data_frames@.len() ==> (#[trigger] a.data_frames@[j]).is_some()
                == b.data_frames@[j].is_some()
        &&& forall|j: int|
            0 <= j < a.data_frames@.len() && b.data_frames@[j].is_some() ==> (
            #[trigger] a.data_frames@[j]).unwrap().ppn == b.data_frames@[j].unwrap().ppn
    } by {
        let a = s2.areas@[k];
        let m = s1.areas@[k];
        let b = s0.areas@[k];
        assert(m.data_frames@.len() == b.data_frames@.len());
        assert forall|j: int| 0 <= j < a.data_frames@.len() implies (#[trigger] a.data_frames@[j]).is_some()
            == b.data_frames@[j].is_some() by {
            assert(m.data_frames@[j].is_some() == b.data_frames@[j].is_some());
        }
        assert forall|j: int|
            0 <= j < a.data_frames@.len() && b.data_frames@[j].is_some() implies (
        #[trigger] a.data_frames@[j]).unwrap().ppn == b.data_frames@[j].unwrap().ppn by {
            assert(m.data_frames@[j].is_some() == b.data_frames@[j].is_some());
            assert(m.data_frames@[j].unwrap().ppn == b.data_frames@[j].unwrap().ppn);
        }
    }
}

/// The byte at address `va` as a program sees it; `user_byte` under a name
/// that proofs can leave folded.
#[verifier::opaque]
pub open spec fn seen(ms: &MemorySet, va: u64) -> Option<u8> {
    ms.user_byte(va)
}

/// Whether a program can reach each of the `len` bytes from `ptr` on, so
/// that they can be written for it; `user_range_ok` over `seen`.
pub open spec fn can_store(ms: &MemorySet, ptr: u64, len: int) -> bool {
    &&& ptr + len <= USER_LIMIT
    &&& forall|i: int| 0 <= i < len ==> (#[trigger] seen(ms, (ptr + i) as u64)).is_some()
}

/// Stores `data` from address `ptr` on, as `write_user_bytes` does: the
/// bytes are stored just when the program can reach all of their places,
/// and else nothing changes. Which bytes the program can reach stays as it
/// is either way.
pub fn store_bytes(ms: &mut MemorySet, ptr: u64, data: &[u8]) -> (done: bool)
    requires
        old(ms).page_table.frames_wf(),
        old(ms).areas_wf(),
    ensures
        done == can_store(old(ms), ptr, data@.len() as int),
        final(ms).same_frames(old(ms)),
        final(ms).page_table.frames_wf(),
        final(ms).areas_wf(),
        !done ==> *final(ms) == *old(ms),
        done ==> ptr + data@.len() <= USER_LIMIT,
        done ==> forall|i: int|
            0 <= i < data@.len() ==> #[trigger] seen(final(ms), (ptr + i) as u64) == Some(data@[i]),
        forall|va: u64|
            !(ptr <= va < ptr + data@.len()) ==> #[trigger] seen(final(ms), va) == seen(old(ms), va),
        forall|va: u64| (#[trigger] seen(final(ms), va)).is_some() == seen(old(ms), va).is_some(),
{
    reveal(seen);
    let done = ms.write_user_bytes(ptr, data);
    proof {
        let len = data@.len() as int;
        if old(ms).user_range_ok(ptr, len) {
            assert forall|i: int| 0 <= i < len implies (#[trigger] seen(
                old(ms),
                (ptr + i) as u64,
            )).is_some() by {
                assert(old(ms).user_byte((ptr + i) as u64).is_some());
            }
        }
        if can_store(old(ms), ptr, len) {
            assert forall|i: int| 0 <= i < len implies (#[trigger] old(ms).user_byte(
                (ptr + i) as u64,
            )).is_some() by {
                assert(seen(old(ms), (ptr + i) as u64).is_some());
            }
        }
        assert forall|va: u64| (#[trigger] seen(ms, va)).is_some() == seen(old(ms), va).is_some() by {
            if done && ptr <= va < ptr + data@.len() {
                let i = va - ptr;
                assert(ms.user_byte((ptr + i) as u64) == Some(data@[i]));
                assert(old(ms).user_byte((ptr + i) as u64).is_some());
            }
        }
    }
    done
}

} // verus!
