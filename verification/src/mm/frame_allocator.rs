//! Physical frames and the allocator that hands them out.
//!
//! A [`FrameTracker`] is the one owner of a frame: it carries the frame's
//! number and the 4096 bytes that the frame holds. Whoever owns the handle is
//! the only one who can read or change those bytes.
use vstd::prelude::*;
use vstd::bytes::{
    lemma_auto_spec_u64_to_from_le_bytes, spec_u64_from_le_bytes, spec_u64_to_le_bytes,
    spec_u64_to_le_bytes_to_open, u64_from_le_bytes, u64_to_le_bytes,
};
use vstd::slice::slice_subrange;
use super::address::PhysPageNum;

verus! {

/// Number of bytes in a frame, as a length.
pub const FRAME_BYTES: usize = 4096;

/// The word of eight bytes that starts at byte `8 * idx`, read little-endian.
pub open spec fn word_at(bytes: Seq<u8>, idx: int) -> u64 {
    spec_u64_from_le_bytes(bytes.subrange(8 * idx, 8 * idx + 8))
}

/// `bytes` with the eight bytes from `8 * idx` on replaced by `value`, little-endian.
pub open spec fn with_word(bytes: Seq<u8>, idx: int, value: u64) -> Seq<u8> {
    bytes.subrange(0, 8 * idx) + spec_u64_to_le_bytes(value) + bytes.subrange(
        8 * idx + 8,
        bytes.len() as int,
    )
}

/// A sequence of `n` zero bytes.
pub open spec fn zeros(n: nat) -> Seq<u8> {
    Seq::new(n, |i: int| 0u8)
}

/// Writing a word changes that word and no other.
pub proof fn lemma_with_word(bytes: Seq<u8>, idx: int, value: u64)
    requires
        0 <= idx,
        8 * idx + 8 <= bytes.len(),
    ensures
        with_word(bytes, idx, value).len() == bytes.len(),
        word_at(with_word(bytes, idx, value), idx) == value,
        forall|j: int|
            0 <= j && 8 * j + 8 <= bytes.len() && j != idx ==> #[trigger] word_at(
                with_word(bytes, idx, value),
                j,
            ) == word_at(bytes, j),
{
    lemma_auto_spec_u64_to_from_le_bytes();
    let w = with_word(bytes, idx, value);
    assert(w.subrange(8 * idx, 8 * idx + 8) =~= spec_u64_to_le_bytes(value));
    assert forall|j: int| 0 <= j && 8 * j + 8 <= bytes.len() && j != idx implies #[trigger] word_at(
        w,
        j,
    ) == word_at(bytes, j) by {
        assert(w.subrange(8 * j, 8 * j + 8) =~= bytes.subrange(8 * j, 8 * j + 8));
    }
}

/// Every word of a zeroed frame is zero.
pub proof fn lemma_zero_words(n: nat, idx: int)
    requires
        0 <= idx,
        8 * idx + 8 <= n,
    ensures
        word_at(zeros(n), idx) == 0,
{
    lemma_auto_spec_u64_to_from_le_bytes();
    spec_u64_to_le_bytes_to_open(0u64);
    assert(0u64 & 0xff == 0 && (0u64 >> 8) & 0xff == 0 && (0u64 >> 16) & 0xff == 0 && (0u64 >> 24)
        & 0xff == 0 && (0u64 >> 32) & 0xff == 0 && (0u64 >> 40) & 0xff == 0 && (0u64 >> 48) & 0xff
        == 0 && (0u64 >> 56) & 0xff == 0) by (bit_vector);
    assert(zeros(n).subrange(8 * idx, 8 * idx + 8) =~= spec_u64_to_le_bytes(0u64));
}

/// The owner of one physical frame and of the bytes in it.
pub struct FrameTracker {
    pub ppn: PhysPageNum,
    pub bytes: Vec<u8>,
}

impl View for FrameTracker {
    type V = Seq<u8>;

    /// The bytes that the frame holds.
    open spec fn view(&self) -> Seq<u8> {
        self.bytes@
    }
}

impl FrameTracker {
    /// A frame holds exactly 4096 bytes.
    pub open spec fn wf(&self) -> bool {
        self@.len() == 4096
    }

    /// Takes ownership of frame `ppn` and clears it.
    pub fn new(ppn: PhysPageNum) -> (r: Self)
        ensures
            r.ppn == ppn,
            r@ == zeros(4096),
            r.wf(),
    {
        let mut bytes: Vec<u8> = Vec::new();
        let mut i: usize = 0;
        while i < FRAME_BYTES
            invariant
                i <= 4096,
                bytes@ == zeros(i as nat),
            decreases 4096 - i,
        {
            bytes.push(0u8);
            i += 1;
            assert(bytes@ =~= zeros(i as nat));
        }
        Self { ppn, bytes }
    }

    /// The bytes of the frame.
    pub fn get_bytes_array(&self) -> (r: &[u8])
        ensures
            r@ == self@,
    {
        self.bytes.as_slice()
    }

    /// The byte at `offset`.
    pub fn read_byte(&self, offset: usize) -> (r: u8)
        requires
            offset < self@.len(),
        ensures
            r == self@[offset as int],
    {
        self.bytes[offset]
    }

    /// Stores `value` at `offset`.
    pub fn write_byte(&mut self, offset: usize, value: u8)
        requires
            offset < old(self)@.len(),
        ensures
            final(self)@ == old(self)@.update(offset as int, value),
            final(self).ppn == old(self).ppn,
    {
        self.bytes.set(offset, value);
    }

    /// Stores the bytes of `src` at the start of the frame.
    pub fn copy_from(&mut self, src: &[u8])
        requires
            old(self).wf(),
            src@.len() <= 4096,
        ensures
            final(self)@ == src@ + old(self)@.subrange(src@.len() as int, 4096),
            final(self).wf(),
            final(self).ppn == old(self).ppn,
    {
        let mut k: usize = 0;
        while k < src.len()
            invariant
                k <= src@.len() <= 4096,
                self.wf(),
                old(self).wf(),
                self.ppn == old(self).ppn,
                self@ =~= src@.subrange(0, k as int) + old(self)@.subrange(k as int, 4096),
            decreases src@.len() - k,
        {
            self.bytes.set(k, src[k]);
            k += 1;
        }
        assert(src@.subrange(0, src@.len() as int) =~= src@);
    }

    /// Stores the bytes of `src` in the frame from `offset` on.
    pub fn write_at(&mut self, offset: usize, src: &[u8])
        requires
            old(self).wf(),
            offset + src@.len() <= 4096,
        ensures
            final(self)@ == old(self)@.subrange(0, offset as int) + src@ + old(self)@.subrange(
                offset + src@.len(),
                4096,
            ),
            final(self).wf(),
            final(self).ppn == old(self).ppn,
    {
        let mut k: usize = 0;
        while k < src.len()
            invariant
                k <= src@.len(),
                offset + src@.len() <= 4096,
                self.wf(),
                old(self).wf(),
                self.ppn == old(self).ppn,
                self@ =~= old(self)@.subrange(0, offset as int) + src@.subrange(0, k as int) + old(
                    self,
                )@.subrange(offset + k, 4096),
            decreases src@.len() - k,
        {
            self.bytes.set(offset + k, src[k]);
            k += 1;
        }
        assert(src@.subrange(0, src@.len() as int) =~= src@);
    }

    /// The word with index `idx` of the frame, read little-endian.
    pub fn read_word(&self, idx: usize) -> (r: u64)
        requires
            self.wf(),
            idx < 512,
        ensures
            r == word_at(self@, idx as int),
    {
        let s = slice_subrange(self.bytes.as_slice(), 8 * idx, 8 * idx + 8);
        u64_from_le_bytes(s)
    }

    /// Stores `value` as the word with index `idx`, little-endian.
    pub fn write_word(&mut self, idx: usize, value: u64)
        requires
            old(self).wf(),
            idx < 512,
        ensures
            final(self)@ == with_word(old(self)@, idx as int, value),
            final(self).wf(),
            final(self).ppn == old(self).ppn,
    {
        let b = u64_to_le_bytes(value);
        let mut k: usize = 0;
        while k < 8
            invariant
                k <= 8,
                b@.len() == 8,
                idx < 512,
                old(self).wf(),
                self.ppn == old(self).ppn,
                self@ =~= old(self)@.subrange(0, 8 * idx) + b@.subrange(0, k as int) + old(
                    self,
                )@.subrange(8 * idx + k, old(self)@.len() as int),
            decreases 8 - k,
        {
            self.bytes.set(8 * idx + k, b[k]);
            k += 1;
        }
        assert(b@.subrange(0, 8) =~= b@);
    }
}

/// What the allocator knows: the frames `[current, end)` were never handed
/// out, and those in `recycled` were handed out and given back.
pub struct AllocatorState {
    pub current: u64,
    pub end: u64,
    pub recycled: Seq<u64>,
}

impl AllocatorState {
    /// The cursor does not pass the end, and a frame number is given back at
    /// most once and only after it was handed out.
    pub open spec fn wf(self) -> bool {
        &&& self.current <= self.end
        &&& self.recycled.no_duplicates()
        &&& forall|i: int| 0 <= i < self.recycled.len() ==> #[trigger] self.recycled[i] < self.current
    }

    /// Whether frame `ppn` is handed out (or lies below the managed range).
    pub open spec fn in_use(self, ppn: u64) -> bool {
        ppn < self.current && !self.recycled.contains(ppn)
    }

    /// Number of frames that can still be handed out.
    pub open spec fn free_count(self) -> int {
        self.recycled.len() + (self.end - self.current)
    }

    /// The frame that the next allocation hands out, if there is one: the one
    /// given back last, else the one under the cursor.
    pub open spec fn next(self) -> Option<u64> {
        if self.recycled.len() > 0 {
            Some(self.recycled.last())
        } else if self.current == self.end {
            None
        } else {
            Some(self.current)
        }
    }

    /// The state after one allocation.
    pub open spec fn after_alloc(self) -> AllocatorState {
        if self.recycled.len() > 0 {
            AllocatorState { recycled: self.recycled.drop_last(), ..self }
        } else if self.current == self.end {
            self
        } else {
            AllocatorState { current: (self.current + 1) as u64, ..self }
        }
    }

    /// The state after frame `ppn` was given back.
    pub open spec fn after_dealloc(self, ppn: u64) -> AllocatorState {
        AllocatorState { recycled: self.recycled.push(ppn), ..self }
    }
}

/// An allocation hands out a frame that was not in use, marks it in use and
/// leaves every other frame as it was.
pub proof fn lemma_alloc_step(a: AllocatorState)
    requires
        a.wf(),
    ensures
        a.after_alloc().wf(),
        a.next().is_none() <==> a.free_count() == 0,
        a.next().is_none() ==> a.after_alloc() == a,
        a.next().is_some() ==> {
            &&& !a.in_use(a.next().unwrap())
            &&& a.after_alloc().in_use(a.next().unwrap())
            &&& a.after_alloc().free_count() == a.free_count() - 1
            &&& forall|q: u64| q != a.next().unwrap() ==> a.after_alloc().in_use(q) == a.in_use(q)
        },
{
    if a.recycled.len() > 0 {
        let p = a.recycled.last();
        let rest = a.recycled.drop_last();
        assert(a.recycled.contains(p));
        assert(!rest.contains(p)) by {
            if rest.contains(p) {
                let i = choose|i: int| 0 <= i < rest.len() && rest[i] == p;
                assert(a.recycled[i] == p);
                assert(a.recycled[a.recycled.len() - 1] == p);
            }
        }
        assert forall|q: u64| q != p implies a.after_alloc().in_use(q) == a.in_use(q) by {
            if a.recycled.contains(q) {
                let i = choose|i: int| 0 <= i < a.recycled.len() && a.recycled[i] == q;
                assert(rest[i] == q);
            }
            if rest.contains(q) {
                let i = choose|i: int| 0 <= i < rest.len() && rest[i] == q;
                assert(a.recycled[i] == q);
            }
        }
        assert(a.recycled[a.recycled.len() - 1] < a.current);
    } else if a.current != a.end {
        assert forall|q: u64| q != a.current implies a.after_alloc().in_use(q) == a.in_use(q) by {}
    }
}

/// Giving back a frame in use keeps the state in order, frees that frame and
/// leaves every other frame as it was.
pub proof fn lemma_dealloc_step(a: AllocatorState, ppn: u64)
    requires
        a.wf(),
        a.in_use(ppn),
    ensures
        a.after_dealloc(ppn).wf(),
        !a.after_dealloc(ppn).in_use(ppn),
        a.after_dealloc(ppn).free_count() == a.free_count() + 1,
        a.after_dealloc(ppn).next() == Some(ppn),
        a.after_dealloc(ppn).after_alloc() == a,
        forall|q: u64| q != ppn ==> a.after_dealloc(ppn).in_use(q) == a.in_use(q),
{
    let b = a.after_dealloc(ppn);
    assert(b.recycled[a.recycled.len() as int] == ppn);
    assert(b.recycled.drop_last() =~= a.recycled);
    assert forall|q: u64| q != ppn implies b.in_use(q) == a.in_use(q) by {
        if a.recycled.contains(q) {
            let i = choose|i: int| 0 <= i < a.recycled.len() && a.recycled[i] == q;
            assert(b.recycled[i] == q);
        }
        if b.recycled.contains(q) {
            let i = choose|i: int| 0 <= i < b.recycled.len() && b.recycled[i] == q;
            assert(a.recycled[i] == q);
        }
    }
    assert forall|i: int, j: int|
        0 <= i < b.recycled.len() && 0 <= j < b.recycled.len() && i != j implies b.recycled[i]
        != b.recycled[j] by {
        if i < a.recycled.len() {
            assert(a.recycled.contains(b.recycled[i]));
        }
        if j < a.recycled.len() {
            assert(a.recycled.contains(b.recycled[j]));
        }
    }
}

/// Frame uniqueness: whatever set of frames the live handles hold, as long as
/// all of them are in use, the next allocation hands out a frame that none of
/// them holds, and all of them stay in use.
pub proof fn lemma_frame_uniqueness(a: AllocatorState, held: Set<u64>)
    requires
        a.wf(),
        forall|p: u64| held.contains(p) ==> a.in_use(p),
    ensures
        a.next().is_some() ==> !held.contains(a.next().unwrap()),
        forall|p: u64| held.contains(p) ==> a.after_alloc().in_use(p),
{
    lemma_alloc_step(a);
}

/// An allocator that hands out the frame given back last, and else the next
/// frame of its range.
pub struct StackFrameAllocator {
    current: u64,
    end: u64,
    recycled: Vec<u64>,
}

impl View for StackFrameAllocator {
    type V = AllocatorState;

    closed spec fn view(&self) -> AllocatorState {
        AllocatorState { current: self.current, end: self.end, recycled: self.recycled@ }
    }
}

impl StackFrameAllocator {
    /// An allocator with an empty range.
    pub fn new() -> (r: Self)
        ensures
            r@ == (AllocatorState { current: 0, end: 0, recycled: Seq::empty() }),
            r@.wf(),
    {
        Self { current: 0, end: 0, recycled: Vec::new() }
    }

    /// Sets the range to `[l, r)`; what was given back before stays given back.
    pub fn init(&mut self, l: PhysPageNum, r: PhysPageNum)
        ensures
            final(self)@ == (AllocatorState { current: l.0, end: r.0, ..old(self)@ }),
    {
        self.current = l.0;
        self.end = r.0;
    }

    /// Hands out a frame number, or `None` when none is left.
    pub fn allocate(&mut self) -> (r: Option<PhysPageNum>)
        requires
            old(self)@.wf(),
        ensures
            final(self)@ == old(self)@.after_alloc(),
            final(self)@.wf(),
            r.is_some() == old(self)@.next().is_some(),
            r.is_some() ==> old(self)@.next() == Some(r.unwrap().0),
    {
        proof {
            lemma_alloc_step(self@);
        }
        if self.recycled.len() > 0 {
            let ppn = self.recycled.pop().unwrap();
            Some(PhysPageNum(ppn))
        } else if self.current == self.end {
            None
        } else {
            self.current += 1;
            Some(PhysPageNum(self.current - 1))
        }
    }

    /// Whether frame `ppn` is handed out at present.
    pub fn is_allocated(&self, ppn: PhysPageNum) -> (r: bool)
        ensures
            r == self@.in_use(ppn.0),
    {
        if ppn.0 >= self.current {
            return false;
        }
        let mut i: usize = 0;
        while i < self.recycled.len()
            invariant
                i <= self.recycled.len(),
                forall|j: int| 0 <= j < i ==> self.recycled@[j] != ppn.0,
            decreases self.recycled.len() - i,
        {
            if self.recycled[i] == ppn.0 {
                return false;
            }
            i += 1;
        }
        true
    }

    /// Takes back frame `ppn`, which must be in use.
    pub fn dealloc(&mut self, ppn: PhysPageNum)
        requires
            old(self)@.wf(),
            old(self)@.in_use(ppn.0),
        ensures
            final(self)@ == old(self)@.after_dealloc(ppn.0),
            final(self)@.wf(),
    {
        proof {
            lemma_dealloc_step(self@, ppn.0);
        }
        self.recycled.push(ppn.0);
    }

    /// Whether `n` frames can still be handed out.
    pub fn can_allocate(&self, n: u64) -> (r: bool)
        requires
            self@.wf(),
        ensures
            r == (self@.free_count() >= n),
    {
        let fresh: u64 = self.end - self.current;
        if fresh >= n {
            true
        } else {
            let rest: u64 = n - fresh;
            let len: usize = self.recycled.len();
            rest <= len as u64
        }
    }

    /// Number of frames that can still be handed out.
    pub fn available(&self) -> (r: u64)
        requires
            self@.wf(),
            self@.free_count() <= u64::MAX,
        ensures
            r == self@.free_count(),
    {
        (self.end - self.current) + self.recycled.len() as u64
    }
}

/// An allocator for the frames from the first one at or after `ekernel` up to
/// the last one that ends at or before `memory_end`.
pub fn init_frame_allocator(ekernel: u64, memory_end: u64) -> (r: StackFrameAllocator)
    ensures
        r@ == (AllocatorState {
            current: super::address::pages_up((ekernel & 0xff_ffff_ffff_ffff) as int) as u64,
            end: (memory_end & 0xff_ffff_ffff_ffff) / 4096,
            recycled: Seq::empty(),
        }),
{
    let mut a = StackFrameAllocator::new();
    let l = super::address::PhysAddr::from(ekernel).ceil();
    let r = super::address::PhysAddr::from(memory_end).floor();
    a.init(l, r);
    a
}

/// Hands out a cleared frame, or `None` when none is left.
pub fn frame_alloc(allocator: &mut StackFrameAllocator) -> (r: Option<FrameTracker>)
    requires
        old(allocator)@.wf(),
    ensures
        final(allocator)@ == old(allocator)@.after_alloc(),
        final(allocator)@.wf(),
        r.is_some() == old(allocator)@.next().is_some(),
        r.is_some() ==> {
            &&& old(allocator)@.next() == Some(r.unwrap().ppn.0)
            &&& r.unwrap()@ == zeros(4096)
            &&& r.unwrap().wf()
        },
{
    match allocator.allocate() {
        Some(ppn) => Some(FrameTracker::new(ppn)),
        None => None,
    }
}

/// Gives frame `ppn` back to the allocator.
pub fn frame_dealloc(allocator: &mut StackFrameAllocator, ppn: PhysPageNum)
    requires
        old(allocator)@.wf(),
        old(allocator)@.in_use(ppn.0),
    ensures
        final(allocator)@ == old(allocator)@.after_dealloc(ppn.0),
        final(allocator)@.wf(),
{
    allocator.dealloc(ppn);
}

} // verus!
