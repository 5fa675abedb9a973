//! Physical and virtual addresses and page numbers of the Sv39 scheme.
use vstd::prelude::*;
use crate::config::PAGE_SIZE;

verus! {

/// Width of a physical address in bits.
pub const PA_WIDTH_SV39: u64 = 56;

/// Width of a virtual address in bits.
pub const VA_WIDTH_SV39: u64 = 39;

/// Width of a physical page number in bits.
pub const PPN_WIDTH_SV39: u64 = 44;

/// Width of a virtual page number in bits.
pub const VPN_WIDTH_SV39: u64 = 27;

/// A physical address.
#[derive(Copy, Clone, PartialEq, Eq, Structural, Debug)]
pub struct PhysAddr(pub u64);

/// A virtual address.
#[derive(Copy, Clone, PartialEq, Eq, Structural, Debug)]
pub struct VirtAddr(pub u64);

/// A physical page number.
#[derive(Copy, Clone, PartialEq, Eq, Structural, Debug)]
pub struct PhysPageNum(pub u64);

/// A virtual page number.
#[derive(Copy, Clone, PartialEq, Eq, Structural, Debug)]
pub struct VirtPageNum(pub u64);

/// Number of pages needed to hold `bytes` bytes.
pub open spec fn pages_up(bytes: int) -> int {
    (bytes + 4095) / 4096
}

/// First address of the page with number `n`: the number shifted left by 12
/// bits, the bits above the word being lost.
pub open spec fn page_base(n: u64) -> u64 {
    ((n & 0xf_ffff_ffff_ffff) * 4096) as u64
}

/// The low twelve bits of a word are its offset in its page, and a page
/// number shifted left by twelve bits is the page's first address.
pub proof fn lemma_page_bits(v: u64)
    ensures
        v & 4095 == v % 4096,
        (v & 0xf_ffff_ffff_ffff) * 4096 == (v << 12),
{
    assert(v & 4095 == v % 4096 && (v & 0xf_ffff_ffff_ffff) * 4096 == (v << 12)) by (bit_vector);
}

/// The low 39 bits of a word are at most the greatest address of 39 bits,
/// and a word that is at most that address is its own low 39 bits.
pub proof fn lemma_low_39(x: u64)
    ensures
        x & 0x7f_ffff_ffff <= 0x7f_ffff_ffff,
        x <= 0x7f_ffff_ffff ==> x & 0x7f_ffff_ffff == x,
        0xffff_ffff_ffff_f000u64 & 0x7f_ffff_ffffu64 == 0x7f_ffff_f000u64,
        0xffff_ffff_ffff_e000u64 & 0x7f_ffff_ffffu64 == 0x7f_ffff_e000u64,
        x & 0x7f_ffff_ffff == x % 0x80_0000_0000,
{
    assert(x & 0x7f_ffff_ffff <= 0x7f_ffff_ffff && (x <= 0x7f_ffff_ffff ==> x & 0x7f_ffff_ffff
        == x) && x & 0x7f_ffff_ffff == x % 0x80_0000_0000 && 0xffff_ffff_ffff_f000u64 & 0x7f_ffff_ffffu64 == 0x7f_ffff_f000u64
        && 0xffff_ffff_ffff_e000u64 & 0x7f_ffff_ffffu64 == 0x7f_ffff_e000u64) by (bit_vector);
}

/// A virtual address of 39 bits, extended to 64 bits by repeating bit 38.
pub open spec fn sign_extended(v: u64) -> u64 {
    if v >= 0x40_0000_0000 {
        v | 0xffff_ff80_0000_0000
    } else {
        v
    }
}

impl From<u64> for PhysAddr {
    /// Keeps the low 56 bits of `v`.
    fn from(v: u64) -> (r: Self)
        ensures
            r.0 == v & 0xff_ffff_ffff_ffff,
    {
        Self(v & 0xff_ffff_ffff_ffff)
    }
}

impl vstd::std_specs::convert::FromSpecImpl<u64> for PhysAddr {
    open spec fn obeys_from_spec() -> bool {
        true
    }

    open spec fn from_spec(v: u64) -> Self {
        PhysAddr(v & 0xff_ffff_ffff_ffff)
    }
}

impl From<u64> for PhysPageNum {
    /// Keeps the low 44 bits of `v`.
    fn from(v: u64) -> (r: Self)
        ensures
            r.0 == v & 0xfff_ffff_ffff,
    {
        Self(v & 0xfff_ffff_ffff)
    }
}

impl vstd::std_specs::convert::FromSpecImpl<u64> for PhysPageNum {
    open spec fn obeys_from_spec() -> bool {
        true
    }

    open spec fn from_spec(v: u64) -> Self {
        PhysPageNum(v & 0xfff_ffff_ffff)
    }
}

impl From<u64> for VirtAddr {
    /// Keeps the low 39 bits of `v`.
    fn from(v: u64) -> (r: Self)
        ensures
            r.0 == v & 0x7f_ffff_ffff,
    {
        Self(v & 0x7f_ffff_ffff)
    }
}

impl vstd::std_specs::convert::FromSpecImpl<u64> for VirtAddr {
    open spec fn obeys_from_spec() -> bool {
        true
    }

    open spec fn from_spec(v: u64) -> Self {
        VirtAddr(v & 0x7f_ffff_ffff)
    }
}

impl From<u64> for VirtPageNum {
    /// Keeps the low 27 bits of `v`.
    fn from(v: u64) -> (r: Self)
        ensures
            r.0 == v & 0x7ff_ffff,
    {
        Self(v & 0x7ff_ffff)
    }
}

impl vstd::std_specs::convert::FromSpecImpl<u64> for VirtPageNum {
    open spec fn obeys_from_spec() -> bool {
        true
    }

    open spec fn from_spec(v: u64) -> Self {
        VirtPageNum(v & 0x7ff_ffff)
    }
}

impl From<PhysAddr> for u64 {
    fn from(v: PhysAddr) -> (r: Self)
        ensures
            r == v.0,
    {
        v.0
    }
}

impl vstd::std_specs::convert::FromSpecImpl<PhysAddr> for u64 {
    open spec fn obeys_from_spec() -> bool {
        true
    }

    open spec fn from_spec(v: PhysAddr) -> Self {
        v.0
    }
}

impl VirtAddr {
    /// The page that holds this address.
    pub fn floor(&self) -> (r: VirtPageNum)
        ensures
            r.0 == self.0 / 4096,
    {
        VirtPageNum(self.0 / PAGE_SIZE)
    }

    /// The first page at or after this address.
    pub fn ceil(&self) -> (r: VirtPageNum)
        ensures
            r.0 == pages_up(self.0 as int),
    {
        if self.0 % PAGE_SIZE == 0 {
            VirtPageNum(self.0 / PAGE_SIZE)
        } else {
            VirtPageNum(self.0 / PAGE_SIZE + 1)
        }
    }

    /// Offset of this address within its page.
    pub fn page_offset(&self) -> (r: u64)
        ensures
            r == self.0 % 4096,
    {
        let v: u64 = self.0;
        proof {
            lemma_page_bits(v);
        }
        v & (PAGE_SIZE - 1)
    }

    /// Whether this address is the first of its page.
    pub fn aligned(&self) -> (r: bool)
        ensures
            r == (self.0 % 4096 == 0),
    {
        self.page_offset() == 0
    }
}

impl From<PhysPageNum> for u64 {
    fn from(v: PhysPageNum) -> (r: Self)
        ensures
            r == v.0,
    {
        v.0
    }
}

impl vstd::std_specs::convert::FromSpecImpl<PhysPageNum> for u64 {
    open spec fn obeys_from_spec() -> bool {
        true
    }

    open spec fn from_spec(v: PhysPageNum) -> Self {
        v.0
    }
}

impl From<VirtAddr> for u64 {
    /// Extends a 39-bit address to the full word by repeating its highest bit.
    fn from(v: VirtAddr) -> (r: Self)
        ensures
            r == sign_extended(v.0),
    {
        if v.0 >= 0x40_0000_0000 {
            v.0 | 0xffff_ff80_0000_0000
        } else {
            v.0
        }
    }
}

impl vstd::std_specs::convert::FromSpecImpl<VirtAddr> for u64 {
    open spec fn obeys_from_spec() -> bool {
        true
    }

    open spec fn from_spec(v: VirtAddr) -> Self {
        sign_extended(v.0)
    }
}

impl From<VirtPageNum> for u64 {
    fn from(v: VirtPageNum) -> (r: Self)
        ensures
            r == v.0,
    {
        v.0
    }
}

impl vstd::std_specs::convert::FromSpecImpl<VirtPageNum> for u64 {
    open spec fn obeys_from_spec() -> bool {
        true
    }

    open spec fn from_spec(v: VirtPageNum) -> Self {
        v.0
    }
}

impl From<VirtAddr> for VirtPageNum {
    /// The page of an address; meant for an address that is the first of its page.
    fn from(v: VirtAddr) -> (r: Self)
        ensures
            r.0 == v.0 / 4096,
    {
        v.floor()
    }
}

impl vstd::std_specs::convert::FromSpecImpl<VirtAddr> for VirtPageNum {
    open spec fn obeys_from_spec() -> bool {
        true
    }

    open spec fn from_spec(v: VirtAddr) -> Self {
        VirtPageNum(v.0 / 4096)
    }
}

impl From<VirtPageNum> for VirtAddr {
    /// The first address of a page.
    fn from(v: VirtPageNum) -> (r: Self)
        ensures
            r.0 == page_base(v.0),
    {
        let n: u64 = v.0;
        proof {
            lemma_page_bits(n);
        }
        Self(n << 12)
    }
}

impl vstd::std_specs::convert::FromSpecImpl<VirtPageNum> for VirtAddr {
    open spec fn obeys_from_spec() -> bool {
        true
    }

    open spec fn from_spec(v: VirtPageNum) -> Self {
        VirtAddr(page_base(v.0))
    }
}

impl From<PhysAddr> for PhysPageNum {
    /// The frame of an address; meant for an address that is the first of its frame.
    fn from(v: PhysAddr) -> (r: Self)
        ensures
            r.0 == v.0 / 4096,
    {
        v.floor()
    }
}

impl vstd::std_specs::convert::FromSpecImpl<PhysAddr> for PhysPageNum {
    open spec fn obeys_from_spec() -> bool {
        true
    }

    open spec fn from_spec(v: PhysAddr) -> Self {
        PhysPageNum(v.0 / 4096)
    }
}

impl From<PhysPageNum> for PhysAddr {
    /// The first address of a frame.
    fn from(v: PhysPageNum) -> (r: Self)
        ensures
            r.0 == page_base(v.0),
    {
        let n: u64 = v.0;
        proof {
            lemma_page_bits(n);
        }
        Self(n << 12)
    }
}

impl vstd::std_specs::convert::FromSpecImpl<PhysPageNum> for PhysAddr {
    open spec fn obeys_from_spec() -> bool {
        true
    }

    open spec fn from_spec(v: PhysPageNum) -> Self {
        PhysAddr(page_base(v.0))
    }
}

impl PhysAddr {
    /// The frame that holds this address.
    pub fn floor(&self) -> (r: PhysPageNum)
        ensures
            r.0 == self.0 / 4096,
    {
        PhysPageNum(self.0 / PAGE_SIZE)
    }

    /// The first frame at or after this address.
    pub fn ceil(&self) -> (r: PhysPageNum)
        ensures
            r.0 == pages_up(self.0 as int),
    {
        if self.0 % PAGE_SIZE == 0 {
            PhysPageNum(self.0 / PAGE_SIZE)
        } else {
            PhysPageNum(self.0 / PAGE_SIZE + 1)
        }
    }

    /// Offset of this address within its frame.
    pub fn page_offset(&self) -> (r: u64)
        ensures
            r == self.0 % 4096,
    {
        let v: u64 = self.0;
        proof {
            lemma_page_bits(v);
        }
        v & (PAGE_SIZE - 1)
    }

    /// Whether this address is the first of its frame.
    pub fn aligned(&self) -> (r: bool)
        ensures
            r == (self.0 % 4096 == 0),
    {
        self.page_offset() == 0
    }
}

/// The three 9-bit indices of a virtual page number, highest level first.
pub open spec fn vpn_indexes(vpn: u64) -> (int, int, int) {
    ((vpn as int / 262144) % 512, (vpn as int / 512) % 512, vpn as int % 512)
}

impl VirtPageNum {
    /// The indices that select the entry of this page in the three levels of
    /// a page table, the root's first.
    pub fn indexes(&self) -> (r: [usize; 3])
        ensures
            r[0] as int == vpn_indexes(self.0).0,
            r[1] as int == vpn_indexes(self.0).1,
            r[2] as int == vpn_indexes(self.0).2,
    {
        let vpn: u64 = self.0;
        assert((vpn >> 18) & 511 == (vpn / 262144) % 512 && (vpn >> 9) & 511 == (vpn / 512) % 512
            && vpn & 511 == vpn % 512) by (bit_vector);
        let i0: usize = ((vpn >> 18) & 511) as usize;
        let i1: usize = ((vpn >> 9) & 511) as usize;
        let i2: usize = (vpn & 511) as usize;
        [i0, i1, i2]
    }
}

/// A value with a successor, such as a page number.
pub trait StepByOne: Copy {
    /// Place of the value in the order that `step` walks.
    spec fn position(&self) -> int;

    /// Whether the value has a successor.
    spec fn has_next(&self) -> bool;

    /// Moves to the successor.
    fn step(&mut self)
        requires
            old(self).has_next(),
        ensures
            final(self).position() == old(self).position() + 1,
    ;

    /// Whether both values stand at the same place.
    fn is_at(&self, other: &Self) -> (b: bool)
        ensures
            b == (self.position() == other.position()),
    ;

    /// Whether this value stands at or before the other.
    fn not_after(&self, other: &Self) -> (b: bool)
        ensures
            b == (self.position() <= other.position()),
    ;
}

impl StepByOne for VirtPageNum {
    open spec fn position(&self) -> int {
        self.0 as int
    }

    open spec fn has_next(&self) -> bool {
        self.0 < u64::MAX
    }

    fn step(&mut self)
        ensures
            final(self).0 == old(self).0 + 1,
    {
        self.0 += 1;
    }

    fn is_at(&self, other: &Self) -> (b: bool) {
        self.0 == other.0
    }

    fn not_after(&self, other: &Self) -> (b: bool) {
        self.0 <= other.0
    }
}

/// A half-open range `[start, end)` of values that can be stepped through.
#[derive(Copy, Clone)]
pub struct SimpleRange<T: StepByOne> {
    l: T,
    r: T,
}

impl<T: StepByOne> SimpleRange<T> {
    /// First value of the range.
    pub closed spec fn start(&self) -> T {
        self.l
    }

    /// The value just after the last one of the range.
    pub closed spec fn end(&self) -> T {
        self.r
    }

    /// The range from `start` up to, not including, `end`.
    pub fn new(start: T, end: T) -> (r: Self)
        requires
            start.position() <= end.position(),
        ensures
            r.start() == start,
            r.end() == end,
    {
        Self { l: start, r: end }
    }

    pub fn get_start(&self) -> (r: T)
        ensures
            r == self.start(),
    {
        self.l
    }

    pub fn get_end(&self) -> (r: T)
        ensures
            r == self.end(),
    {
        self.r
    }

    /// A cursor that stands at the start of the range.
    pub fn into_iter(self) -> (it: SimpleRangeIterator<T>)
        ensures
            it.current() == self.start(),
            it.end() == self.end(),
    {
        SimpleRangeIterator::new(self.l, self.r)
    }
}

/// A cursor over a range: the next value to hand out and the end of the range.
pub struct SimpleRangeIterator<T: StepByOne> {
    current: T,
    end: T,
}

impl<T: StepByOne> SimpleRangeIterator<T> {
    /// The value that `next` hands out next.
    pub closed spec fn current(&self) -> T {
        self.current
    }

    /// The value at which the cursor stops.
    pub closed spec fn end(&self) -> T {
        self.end
    }

    pub fn new(l: T, r: T) -> (it: Self)
        ensures
            it.current() == l,
            it.end() == r,
    {
        Self { current: l, end: r }
    }

    /// Hands out the current value and moves on, or `None` at the end.
    pub fn next(&mut self) -> (r: Option<T>)
        requires
            old(self).current().position() != old(self).end().position() ==> old(
                self,
            ).current().has_next(),
        ensures
            final(self).end() == old(self).end(),
            old(self).current().position() == old(self).end().position() ==> r.is_none()
                && final(self).current() == old(self).current(),
            old(self).current().position() != old(self).end().position() ==> r == Some(
                old(self).current(),
            ) && final(self).current().position() == old(self).current().position() + 1,
    {
        if self.current.is_at(&self.end) {
            None
        } else {
            let t = self.current;
            self.current.step();
            Some(t)
        }
    }
}

/// A range of virtual pages.
pub type VPNRange = SimpleRange<VirtPageNum>;

} // verus!
