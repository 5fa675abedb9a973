//! Three-level page tables.
//!
//! A page table owns the frames of its nodes. A node holds 512 entries of 64
//! bits; an entry names the frame of the next node, or, in the last level,
//! the frame of the page. The walk finds a node by the frame number that the
//! entry above it holds.
use vstd::prelude::*;
use super::address::{vpn_indexes, PhysAddr, PhysPageNum, VirtAddr, VirtPageNum};
use super::frame_allocator::{
    frame_alloc, lemma_alloc_step, lemma_dealloc_step, lemma_with_word, lemma_zero_words, word_at,
    with_word, zeros, AllocatorState, FrameTracker, StackFrameAllocator,
};

verus! {

/// Entry is valid.
pub const PTE_V: u8 = 1;

/// Page can be read.
pub const PTE_R: u8 = 2;

/// Page can be written.
pub const PTE_W: u8 = 4;

/// Page can be executed.
pub const PTE_X: u8 = 8;

/// Page can be reached from user mode.
pub const PTE_U: u8 = 16;

/// Mapping is global.
pub const PTE_G: u8 = 32;

/// Page was accessed.
pub const PTE_A: u8 = 64;

/// Page was written.
pub const PTE_D: u8 = 128;

/// The flag bits of a page-table entry.
#[derive(Copy, Clone, PartialEq, Eq, Structural, Debug)]
pub struct PTEFlags {
    pub bits: u8,
}

impl PTEFlags {
    /// The flags with the given bits; every bit is a flag.
    pub fn from_bits(bits: u8) -> (r: Self)
        ensures
            r.bits == bits,
    {
        Self { bits }
    }

    /// No flag.
    pub fn empty() -> (r: Self)
        ensures
            r.bits == 0,
    {
        Self { bits: 0 }
    }

    /// The flags of either.
    pub fn union(self, other: Self) -> (r: Self)
        ensures
            r.bits == self.bits | other.bits,
    {
        Self { bits: self.bits | other.bits }
    }

    /// Whether every flag of `other` is set here.
    pub fn contains(self, other: Self) -> (r: bool)
        ensures
            r == (self.bits & other.bits == other.bits),
    {
        self.bits & other.bits == other.bits
    }
}

/// The frame number in an entry: bits 10 to 53.
pub open spec fn pte_ppn(bits: u64) -> u64 {
    (bits >> 10) & 0xfff_ffff_ffff
}

/// The flags of an entry: its low eight bits.
pub open spec fn pte_flags(bits: u64) -> u8 {
    bits as u8
}

/// Whether the entry's valid flag is set.
pub open spec fn pte_valid(bits: u64) -> bool {
    bits & 1 != 0
}

/// The bits of an entry for frame `ppn` with flags `flags`.
pub open spec fn pte_bits(ppn: u64, flags: u8) -> u64 {
    (ppn << 10) | (flags as u64)
}

/// An entry gives back the flags it was made with and, for a frame number of
/// at most 44 bits, the frame number.
pub proof fn lemma_pte_bits(ppn: u64, flags: u8)
    ensures
        (flags | 1) & 1 != 0,
        1u8 & 1 != 0,
        8u64 << 60 == 0x8000_0000_0000_0000u64,
        pte_flags(pte_bits(ppn, flags)) == flags,
        pte_valid(pte_bits(ppn, flags)) == (flags & 1 != 0),
        ppn < 0x1000_0000_0000 ==> pte_ppn(pte_bits(ppn, flags)) == ppn,
        pte_ppn(pte_bits(ppn, flags)) == ppn & 0xfff_ffff_ffff,
        !pte_valid(0),
{
    assert((flags | 1) & 1 != 0 && 1u8 & 1 != 0 && 8u64 << 60 == 0x8000_0000_0000_0000u64)
        by (bit_vector);
    assert(((ppn << 10) | (flags as u64)) as u8 == flags && ((((ppn << 10) | (flags as u64)) & 1
        != 0) == (flags & 1 != 0)) && (ppn < 0x1000_0000_0000 ==> ((((ppn << 10) | (flags as u64))
        >> 10) & 0xfff_ffff_ffff) == ppn) && ((((ppn << 10) | (flags as u64)) >> 10)
        & 0xfff_ffff_ffff) == ppn & 0xfff_ffff_ffff && 0u64 & 1 == 0) by (bit_vector);
}

/// One entry of a page table: 64 bits that hold a frame number and flags.
#[derive(Copy, Clone, PartialEq, Eq, Structural, Debug)]
pub struct PageTableEntry {
    pub bits: u64,
}

impl PageTableEntry {
    /// The entry for frame `ppn` with flags `flags`.
    pub fn new(ppn: PhysPageNum, flags: PTEFlags) -> (r: Self)
        ensures
            r.bits == pte_bits(ppn.0, flags.bits),
    {
        PageTableEntry { bits: (ppn.0 << 10) | (flags.bits as u64) }
    }

    /// The entry of all zero bits, which is not valid.
    pub fn empty() -> (r: Self)
        ensures
            r.bits == 0,
    {
        PageTableEntry { bits: 0 }
    }

    /// The frame that the entry names.
    pub fn ppn(&self) -> (r: PhysPageNum)
        ensures
            r.0 == pte_ppn(self.bits),
    {
        PhysPageNum((self.bits >> 10) & 0xfff_ffff_ffff)
    }

    /// The flags of the entry.
    pub fn flags(&self) -> (r: PTEFlags)
        ensures
            r.bits == pte_flags(self.bits),
    {
        PTEFlags { bits: self.bits as u8 }
    }

    pub fn is_valid(&self) -> (r: bool)
        ensures
            r == pte_valid(self.bits),
    {
        self.bits & 1 != 0
    }

    pub fn readable(&self) -> (r: bool)
        ensures
            r == (self.bits & 2 != 0),
    {
        self.bits & 2 != 0
    }

    pub fn writable(&self) -> (r: bool)
        ensures
            r == (self.bits & 4 != 0),
    {
        self.bits & 4 != 0
    }

    pub fn executable(&self) -> (r: bool)
        ensures
            r == (self.bits & 8 != 0),
    {
        self.bits & 8 != 0
    }
}

/// Index of the first node in `frames` that lies in frame `ppn`, or -1.
pub open spec fn node_index(frames: Seq<FrameTracker>, ppn: u64) -> int
    decreases frames.len(),
{
    if frames.len() == 0 {
        -1
    } else if node_index(frames.drop_last(), ppn) >= 0 {
        node_index(frames.drop_last(), ppn)
    } else if frames.last().ppn.0 == ppn {
        frames.len() - 1
    } else {
        -1
    }
}

/// What `node_index` finds: an index of a node in that frame, before which no
/// node lies in it; or -1 when no node lies in it.
pub proof fn lemma_node_index(frames: Seq<FrameTracker>, ppn: u64)
    ensures
        -1 <= node_index(frames, ppn) < frames.len(),
        node_index(frames, ppn) >= 0 ==> frames[node_index(frames, ppn)].ppn.0 == ppn,
        forall|i: int|
            0 <= i < frames.len() && #[trigger] frames[i].ppn.0 == ppn ==> 0 <= node_index(
                frames,
                ppn,
            ) <= i,
    decreases frames.len(),
{
    if frames.len() > 0 {
        lemma_node_index(frames.drop_last(), ppn);
        assert forall|i: int| 0 <= i < frames.len() && #[trigger] frames[i].ppn.0 == ppn implies 0
            <= node_index(frames, ppn) <= i by {
            if i < frames.len() - 1 {
                assert(frames.drop_last()[i].ppn.0 == ppn);
            }
        }
    }
}

/// Entry `idx` of node `node`.
pub open spec fn entry(frames: Seq<FrameTracker>, node: int, idx: int) -> u64 {
    word_at(frames[node]@, idx)
}

/// The node that entry `idx` of node `node` leads to, or -1 when the entry is
/// not valid or names a frame that holds no node of this table.
pub open spec fn child(frames: Seq<FrameTracker>, node: int, idx: int) -> int {
    if pte_valid(entry(frames, node, idx)) {
        node_index(frames, pte_ppn(entry(frames, node, idx)))
    } else {
        -1
    }
}

/// The node of the second level on the way to page `vpn`, or -1.
pub open spec fn mid_node(frames: Seq<FrameTracker>, root: u64, vpn: u64) -> int {
    let n0 = node_index(frames, root);
    if n0 < 0 {
        -1
    } else {
        child(frames, n0, vpn_indexes(vpn).0)
    }
}

/// The node of the last level on the way to page `vpn`, or -1.
pub open spec fn leaf_node(frames: Seq<FrameTracker>, root: u64, vpn: u64) -> int {
    let n1 = mid_node(frames, root, vpn);
    if n1 < 0 {
        -1
    } else {
        child(frames, n1, vpn_indexes(vpn).1)
    }
}

/// The entry that the walk for page `vpn` ends at, if it is reachable and valid.
pub open spec fn lookup(frames: Seq<FrameTracker>, root: u64, vpn: u64) -> Option<PageTableEntry> {
    let n2 = leaf_node(frames, root, vpn);
    if n2 < 0 {
        None
    } else if pte_valid(entry(frames, n2, vpn_indexes(vpn).2)) {
        Some(PageTableEntry { bits: entry(frames, n2, vpn_indexes(vpn).2) })
    } else {
        None
    }
}

/// Number of nodes that have to be made before page `vpn` can be mapped.
pub open spec fn missing_nodes(frames: Seq<FrameTracker>, root: u64, vpn: u64) -> int {
    if mid_node(frames, root, vpn) < 0 {
        2
    } else if leaf_node(frames, root, vpn) < 0 {
        1
    } else {
        0
    }
}

/// Whether the nodes form a tree below the root: every node is a frame of its
/// own, `levels` gives each node's depth, a valid entry above the last level
/// leads to a node one level down, and no two entries lead to the same node.
pub open spec fn tree(frames: Seq<FrameTracker>, root: u64, levels: Seq<int>) -> bool {
    &&& frames.len() >= 1
    &&& levels.len() == frames.len()
    &&& frames[0].ppn.0 == root
    &&& levels[0] == 0
    &&& forall|i: int| 0 <= i < frames.len() ==> (#[trigger] frames[i]).wf()
    &&& forall|i: int| 0 <= i < frames.len() ==> 0 <= #[trigger] levels[i] <= 2
    &&& forall|i: int, j: int|
        0 <= i < j < frames.len() ==> (#[trigger] frames[i]).ppn != (#[trigger] frames[j]).ppn
    &&& forall|n: int, idx: int|
        0 <= n < frames.len() && levels[n] < 2 && 0 <= idx < 512 && pte_valid(
            entry(frames, n, idx),
        ) ==> 0 <= #[trigger] child(frames, n, idx) < frames.len() && levels[child(
            frames,
            n,
            idx,
        )] == levels[n] + 1
    &&& forall|n: int, idx: int, m: int, jdx: int|
        0 <= n < frames.len() && levels[n] < 2 && 0 <= idx < 512 && 0 <= m < frames.len()
            && levels[m] < 2 && 0 <= jdx < 512 && #[trigger] child(frames, n, idx) >= 0
            && child(frames, n, idx) == #[trigger] child(frames, m, jdx) ==> n == m && idx == jdx
}

/// In a tree, the node in a node's own frame is that node.
pub proof fn lemma_node_index_own(frames: Seq<FrameTracker>, k: int)
    requires
        0 <= k < frames.len(),
        forall|i: int, j: int|
            0 <= i < j < frames.len() ==> (#[trigger] frames[i]).ppn != (#[trigger] frames[j]).ppn,
    ensures
        node_index(frames, frames[k].ppn.0) == k,
{
    lemma_node_index(frames, frames[k].ppn.0);
}

/// Nodes added in frames other than `ppn` do not change which node lies in frame `ppn`.
pub proof fn lemma_node_index_extended(f1: Seq<FrameTracker>, f2: Seq<FrameTracker>, ppn: u64)
    requires
        f1.len() <= f2.len(),
        forall|k: int| 0 <= k < f1.len() ==> (#[trigger] f2[k]).ppn == f1[k].ppn,
        forall|k: int| f1.len() <= k < f2.len() ==> (#[trigger] f2[k]).ppn.0 != ppn,
    ensures
        node_index(f2, ppn) == node_index(f1, ppn),
{
    lemma_node_index(f1, ppn);
    lemma_node_index(f2, ppn);
    let a = node_index(f1, ppn);
    let b = node_index(f2, ppn);
    if a >= 0 {
        assert(f2[a].ppn.0 == ppn);
    }
    if b >= 0 {
        assert(f2[b].ppn.0 == ppn);
        assert(b < f1.len());
        assert(f1[b].ppn.0 == ppn);
    }
}

/// Whether `f2` is `f1` with entry `idx` of node `n` set to `bits`.
pub open spec fn entry_set(
    f1: Seq<FrameTracker>,
    f2: Seq<FrameTracker>,
    n: int,
    idx: int,
    bits: u64,
) -> bool {
    &&& f2.len() == f1.len()
    &&& f2[n].ppn == f1[n].ppn
    &&& f2[n]@ == with_word(f1[n]@, idx, bits)
    &&& forall|k: int| 0 <= k < f1.len() && k != n ==> #[trigger] f2[k] == f1[k]
}

/// Linking a new, empty node below entry `idx` of node `n`, which led nowhere,
/// keeps the tree a tree, makes that entry lead to the new node, and changes
/// no other child and no translation.
pub proof fn lemma_link(
    f1: Seq<FrameTracker>,
    root: u64,
    v1: Seq<int>,
    n: int,
    idx: int,
    node: FrameTracker,
    fm: Seq<FrameTracker>,
)
    requires
        tree(f1, root, v1),
        0 <= n < f1.len(),
        v1[n] < 2,
        0 <= idx < 512,
        child(f1, n, idx) < 0,
        node@ == zeros(4096),
        node.ppn.0 < 0x1000_0000_0000,
        forall|k: int| 0 <= k < f1.len() ==> (#[trigger] f1[k]).ppn.0 != node.ppn.0,
        entry_set(f1, fm, n, idx, pte_bits(node.ppn.0, 1)),
    ensures
        tree(fm.push(node), root, v1.push(v1[n] + 1)),
        child(fm.push(node), n, idx) == f1.len(),
        forall|m: int, j: int|
            0 <= m < f1.len() && v1[m] < 2 && 0 <= j < 512 && !(m == n && j == idx)
                ==> #[trigger] child(fm.push(node), m, j) == child(f1, m, j),
        forall|j: int| 0 <= j < 512 ==> #[trigger] child(fm.push(node), f1.len() as int, j) == -1,
        forall|v: u64| #[trigger] lookup(fm.push(node), root, v) == lookup(f1, root, v),
{
    let f2 = fm.push(node);
    let v2 = v1.push(v1[n] + 1);
    let len = f1.len() as int;
    let p = node.ppn.0;
    lemma_pte_bits(p, 1);
    assert(1u8 & 1 != 0);
    lemma_with_word(f1[n]@, idx, pte_bits(p, 1));
    assert forall|k: int| 0 <= k < len implies (#[trigger] f2[k]).ppn == f1[k].ppn by {}
    // entries
    assert forall|m: int, j: int| 0 <= m < len && 0 <= j < 512 && !(m == n && j == idx) implies #[trigger] entry(
        f2,
        m,
        j,
    ) == entry(f1, m, j) by {
        if m != n {
            assert(f2[m] == f1[m]);
        }
    }
    assert(entry(f2, n, idx) == pte_bits(p, 1));
    assert forall|j: int| 0 <= j < 512 implies #[trigger] entry(f2, len, j) == 0 by {
        lemma_zero_words(4096, j);
    }
    // the new node is found by its frame
    lemma_node_index(f2, p);
    assert(f2[len].ppn.0 == p);
    assert(node_index(f2, p) == len) by {
        let b = node_index(f2, p);
        if b < len {
            assert(f1[b].ppn.0 == p);
        }
    }
    assert(child(f2, n, idx) == len);
    // children of old nodes
    assert forall|m: int, j: int|
        0 <= m < len && v1[m] < 2 && 0 <= j < 512 && !(m == n && j == idx) implies #[trigger] child(
        f2,
        m,
        j,
    ) == child(f1, m, j) by {
        let e = entry(f1, m, j);
        assert(entry(f2, m, j) == e);
        if pte_valid(e) {
            let c = child(f1, m, j);
            assert(0 <= c < len);
            lemma_node_index(f1, pte_ppn(e));
            assert(f1[c].ppn.0 == pte_ppn(e));
            assert(pte_ppn(e) != p);
            lemma_node_index_extended(f1, f2, pte_ppn(e));
        }
    }
    assert forall|j: int| 0 <= j < 512 implies #[trigger] child(f2, len, j) == -1 by {
        assert(entry(f2, len, j) == 0);
    }
    // the tree
    assert forall|i: int| 0 <= i < f2.len() implies (#[trigger] f2[i]).wf() by {
        if i < len && i != n {
            assert(f2[i] == f1[i]);
        }
    }
    assert forall|i: int, j: int| 0 <= i < j < f2.len() implies (#[trigger] f2[i]).ppn != (
    #[trigger] f2[j]).ppn by {
        if j < len {
            assert(f1[i].ppn != f1[j].ppn);
        }
    }
    assert forall|m: int, j: int|
        0 <= m < f2.len() && v2[m] < 2 && 0 <= j < 512 && pte_valid(entry(f2, m, j)) implies 0
        <= #[trigger] child(f2, m, j) < f2.len() && v2[child(f2, m, j)] == v2[m] + 1 by {
        if m == len {
            assert(entry(f2, len, j) == 0);
        } else if m == n && j == idx {
        } else {
            assert(child(f2, m, j) == child(f1, m, j));
            assert(entry(f2, m, j) == entry(f1, m, j));
        }
    }
    assert forall|m: int, j: int, m2: int, j2: int|
        0 <= m < f2.len() && v2[m] < 2 && 0 <= j < 512 && 0 <= m2 < f2.len() && v2[m2] < 2 && 0
            <= j2 < 512 && #[trigger] child(f2, m, j) >= 0 && child(f2, m, j) == #[trigger] child(
            f2,
            m2,
            j2,
        ) implies m == m2 && j == j2 by {
        if m == len {
            assert(child(f2, len, j) == -1);
        }
        if m2 == len {
            assert(child(f2, len, j2) == -1);
        }
        if m < len && m2 < len {
            if m == n && j == idx {
                if !(m2 == n && j2 == idx) {
                    assert(child(f2, m2, j2) == child(f1, m2, j2));
                    lemma_node_index(f1, pte_ppn(entry(f1, m2, j2)));
                }
            } else if m2 == n && j2 == idx {
                assert(child(f2, m, j) == child(f1, m, j));
                lemma_node_index(f1, pte_ppn(entry(f1, m, j)));
            } else {
                assert(child(f2, m, j) == child(f1, m, j));
                assert(child(f2, m2, j2) == child(f1, m2, j2));
            }
        }
    }
    assert(tree(f2, root, v2));
    // translations
    lemma_node_index_own(f1, 0);
    lemma_node_index_own(f2, 0);
    assert forall|v: u64| #[trigger] lookup(f2, root, v) == lookup(f1, root, v) by {
        let i0 = vpn_indexes(v).0;
        let i1 = vpn_indexes(v).1;
        let i2 = vpn_indexes(v).2;
        if n == 0 && idx == i0 {
            assert(child(f2, 0, i0) == len);
            assert(child(f2, len, i1) == -1);
        } else {
            assert(child(f2, 0, i0) == child(f1, 0, i0));
            let n1 = child(f1, 0, i0);
            if n1 >= 0 {
                assert(pte_valid(entry(f1, 0, i0)));
                assert(v1[n1] == 1);
                if n == n1 && idx == i1 {
                    assert(child(f2, n1, i1) == len);
                    assert(entry(f2, len, i2) == 0);
                } else {
                    assert(child(f2, n1, i1) == child(f1, n1, i1));
                    let n2 = child(f1, n1, i1);
                    if n2 >= 0 {
                        assert(pte_valid(entry(f1, n1, i1)));
                        assert(v1[n2] == 2);
                        assert(entry(f2, n2, i2) == entry(f1, n2, i2));
                    }
                }
            }
        }
    }
}

/// Setting an entry of a node of the last level keeps the tree and every
/// child, and changes the translation of the pages that end at that entry
/// and of no other.
pub proof fn lemma_set_leaf(
    f1: Seq<FrameTracker>,
    root: u64,
    v1: Seq<int>,
    n: int,
    idx: int,
    bits: u64,
    f2: Seq<FrameTracker>,
)
    requires
        tree(f1, root, v1),
        0 <= n < f1.len(),
        v1[n] == 2,
        0 <= idx < 512,
        entry_set(f1, f2, n, idx, bits),
    ensures
        tree(f2, root, v1),
        forall|m: int, j: int|
            0 <= m < f1.len() && v1[m] < 2 && 0 <= j < 512 ==> #[trigger] child(f2, m, j) == child(
                f1,
                m,
                j,
            ),
        forall|v: u64| #[trigger] leaf_node(f2, root, v) == leaf_node(f1, root, v),
        forall|v: u64| #[trigger] mid_node(f2, root, v) == mid_node(f1, root, v),
        forall|v: u64|
            #[trigger] lookup(f2, root, v) == if leaf_node(f1, root, v) == n && vpn_indexes(v).2
                == idx {
                if pte_valid(bits) {
                    Some(PageTableEntry { bits })
                } else {
                    None
                }
            } else {
                lookup(f1, root, v)
            },
{
    let len = f1.len() as int;
    lemma_with_word(f1[n]@, idx, bits);
    assert forall|k: int| 0 <= k < len implies (#[trigger] f2[k]).ppn == f1[k].ppn by {}
    assert forall|m: int, j: int| 0 <= m < len && 0 <= j < 512 && !(m == n && j == idx) implies #[trigger] entry(
        f2,
        m,
        j,
    ) == entry(f1, m, j) by {
        if m != n {
            assert(f2[m] == f1[m]);
        }
    }
    assert(entry(f2, n, idx) == bits);
    assert forall|m: int, j: int| 0 <= m < len && v1[m] < 2 && 0 <= j < 512 implies #[trigger] child(
        f2,
        m,
        j,
    ) == child(f1, m, j) by {
        let e = entry(f1, m, j);
        assert(entry(f2, m, j) == e);
        if pte_valid(e) {
            lemma_node_index_extended(f1, f2, pte_ppn(e));
        }
    }
    assert forall|i: int| 0 <= i < f2.len() implies (#[trigger] f2[i]).wf() by {
        if i != n {
            assert(f2[i] == f1[i]);
        }
    }
    assert forall|i: int, j: int| 0 <= i < j < f2.len() implies (#[trigger] f2[i]).ppn != (
    #[trigger] f2[j]).ppn by {
        assert(f1[i].ppn != f1[j].ppn);
    }
    assert forall|m: int, j: int|
        0 <= m < f2.len() && v1[m] < 2 && 0 <= j < 512 && pte_valid(entry(f2, m, j)) implies 0
        <= #[trigger] child(f2, m, j) < f2.len() && v1[child(f2, m, j)] == v1[m] + 1 by {
        assert(child(f2, m, j) == child(f1, m, j));
        assert(entry(f2, m, j) == entry(f1, m, j));
    }
    assert forall|m: int, j: int, m2: int, j2: int|
        0 <= m < f2.len() && v1[m] < 2 && 0 <= j < 512 && 0 <= m2 < f2.len() && v1[m2] < 2 && 0
            <= j2 < 512 && #[trigger] child(f2, m, j) >= 0 && child(f2, m, j) == #[trigger] child(
            f2,
            m2,
            j2,
        ) implies m == m2 && j == j2 by {
        assert(child(f2, m, j) == child(f1, m, j));
        assert(child(f2, m2, j2) == child(f1, m2, j2));
    }
    assert(tree(f2, root, v1));
    lemma_node_index_own(f1, 0);
    lemma_node_index_own(f2, 0);
    assert forall|v: u64|
        #[trigger] leaf_node(f2, root, v) == leaf_node(f1, root, v) && #[trigger] mid_node(
            f2,
            root,
            v,
        ) == mid_node(f1, root, v) by {
        lemma_walk_levels(f1, root, v1, v);
        let i0 = vpn_indexes(v).0;
        let i1 = vpn_indexes(v).1;
        assert(child(f2, 0, i0) == child(f1, 0, i0));
        let n1 = child(f1, 0, i0);
        if n1 >= 0 {
            assert(child(f2, n1, i1) == child(f1, n1, i1));
        }
    }
    assert forall|v: u64|
        #[trigger] lookup(f2, root, v) == if leaf_node(f1, root, v) == n && vpn_indexes(v).2
            == idx {
            if pte_valid(bits) {
                Some(PageTableEntry { bits })
            } else {
                None
            }
        } else {
            lookup(f1, root, v)
        } by {
        assert(leaf_node(f2, root, v) == leaf_node(f1, root, v));
        let n2 = leaf_node(f1, root, v);
        let i2 = vpn_indexes(v).2;
        if n2 >= 0 {
            lemma_walk_levels(f1, root, v1, v);
            if !(n2 == n && i2 == idx) {
                assert(entry(f2, n2, i2) == entry(f1, n2, i2));
            }
        }
    }
}

/// In a tree the walk goes from the root, node 0, to a node of level 1 and
/// then to a node of level 2.
pub proof fn lemma_walk_levels(frames: Seq<FrameTracker>, root: u64, levels: Seq<int>, v: u64)
    requires
        tree(frames, root, levels),
    ensures
        node_index(frames, root) == 0,
        mid_node(frames, root, v) == child(frames, 0, vpn_indexes(v).0),
        mid_node(frames, root, v) >= 0 ==> mid_node(frames, root, v) < frames.len() && levels[mid_node(
            frames,
            root,
            v,
        )] == 1,
        leaf_node(frames, root, v) >= 0 ==> mid_node(frames, root, v) >= 0 && leaf_node(
            frames,
            root,
            v,
        ) == child(frames, mid_node(frames, root, v), vpn_indexes(v).1) && leaf_node(
            frames,
            root,
            v,
        ) < frames.len() && levels[leaf_node(frames, root, v)] == 2,
{
    lemma_node_index_own(frames, 0);
    let i0 = vpn_indexes(v).0;
    let i1 = vpn_indexes(v).1;
    let n1 = child(frames, 0, i0);
    if n1 >= 0 {
        assert(pte_valid(entry(frames, 0, i0)));
        let n2 = child(frames, n1, i1);
        if n2 >= 0 {
            assert(pte_valid(entry(frames, n1, i1)));
        }
    }
}

/// In a tree two pages end at the same node of the last level only if their
/// first two indices agree.
pub proof fn lemma_same_leaf(frames: Seq<FrameTracker>, root: u64, levels: Seq<int>, v: u64, w: u64)
    requires
        tree(frames, root, levels),
        leaf_node(frames, root, v) >= 0,
        leaf_node(frames, root, v) == leaf_node(frames, root, w),
    ensures
        vpn_indexes(v).0 == vpn_indexes(w).0,
        vpn_indexes(v).1 == vpn_indexes(w).1,
{
    lemma_walk_levels(frames, root, levels, v);
    lemma_walk_levels(frames, root, levels, w);
    let a = mid_node(frames, root, v);
    let b = mid_node(frames, root, w);
    assert(child(frames, a, vpn_indexes(v).1) == child(frames, b, vpn_indexes(w).1));
    assert(a == b);
    assert(child(frames, 0, vpn_indexes(v).0) == child(frames, 0, vpn_indexes(w).0));
}

/// The number of the first process from number `from` on whose page table
/// `satp` selects, or -1.
pub open spec fn first_with_token(
    processes: Seq<Option<crate::task::process::ProcessControlBlock>>,
    satp: u64,
    from: int,
) -> int
    decreases processes.len() - from,
{
    if from < 0 || from >= processes.len() {
        -1
    } else if processes[from].is_some() && processes[from].unwrap().memory_set.page_table.token_value()
        == satp {
        from
    } else {
        first_with_token(processes, satp, from + 1)
    }
}

/// A three-level page table.
pub struct PageTable {
    pub root_ppn: PhysPageNum,
    pub frames: Vec<FrameTracker>,
    pub levels: Ghost<Seq<int>>,
}

/// Why a mapping could not be made.
#[derive(Copy, Clone, PartialEq, Eq, Structural, Debug)]
pub enum MapError {
    /// The allocator has fewer frames left than the mapping needs.
    OutOfFrames,
    /// The page is mapped already.
    AlreadyMapped,
}

impl PageTable {
    /// The table owns a root node and its nodes form a tree.
    pub open spec fn wf(&self) -> bool {
        tree(self.frames@, self.root_ppn.0, self.levels@)
    }

    /// The entry that page `vpn` is mapped by, if it is mapped.
    pub open spec fn translation(&self, vpn: u64) -> Option<PageTableEntry> {
        lookup(self.frames@, self.root_ppn.0, vpn)
    }

    /// Number of nodes that a mapping of page `vpn` has yet to make.
    pub open spec fn missing(&self, vpn: u64) -> int {
        missing_nodes(self.frames@, self.root_ppn.0, vpn)
    }

    /// Every frame of the table is in use with the allocator.
    pub open spec fn frames_in_use(&self, a: AllocatorState) -> bool {
        forall|i: int| 0 <= i < self.frames@.len() ==> a.in_use((#[trigger] self.frames@[i]).ppn.0)
    }

    /// The value that selects this table in the address-translation register:
    /// mode 8 in the top four bits, the root's frame number below.
    pub open spec fn token_value(&self) -> u64 {
        0x8000_0000_0000_0000u64 | self.root_ppn.0
    }

    /// A table with an empty root node, or `None` when no frame is left.
    pub fn new(allocator: &mut StackFrameAllocator) -> (r: Option<Self>)
        requires
            old(allocator)@.wf(),
        ensures
            final(allocator)@ == old(allocator)@.after_alloc(),
            final(allocator)@.wf(),
            r.is_some() == old(allocator)@.next().is_some(),
            r.is_some() ==> {
                let t = r.unwrap();
                &&& t.wf()
                &&& Some(t.root_ppn.0) == old(allocator)@.next()
                &&& t.frames@.len() == 1
                &&& t.frames_in_use(final(allocator)@)
                &&& forall|vpn: u64| t.translation(vpn).is_none()
                &&& forall|vpn: u64| t.missing(vpn) == 2
            },
    {
        proof {
            lemma_alloc_step(allocator@);
        }
        match frame_alloc(allocator) {
            None => None,
            Some(frame) => {
                let root_ppn = frame.ppn;
                let mut frames: Vec<FrameTracker> = Vec::new();
                frames.push(frame);
                let ghost lv: Seq<int> = Seq::empty().push(0int);
                let t = PageTable { root_ppn, frames, levels: Ghost(lv) };
                proof {
                    lemma_pte_bits(0, 0);
                    assert forall|n: int, idx: int| 0 <= n < 1 && 0 <= idx < 512 implies !pte_valid(
                        #[trigger] entry(t.frames@, n, idx),
                    ) by {
                        lemma_zero_words(4096, idx);
                    }
                    assert(node_index(t.frames@.drop_last(), root_ppn.0) == -1);
                    assert(node_index(t.frames@, root_ppn.0) == 0);
                    assert forall|vpn: u64| t.translation(vpn).is_none() && t.missing(vpn) == 2 by {
                        let i0 = vpn_indexes(vpn).0;
                        assert(!pte_valid(entry(t.frames@, 0, i0)));
                    }
                }
                Some(t)
            },
        }
    }

    /// The page table that `satp` selects among the address spaces of the
    /// kernel: that of the kernel itself, or else that of the process with
    /// the lowest number whose table `satp` selects; `None` where it selects
    /// none of them. The table owns its nodes, so it is found, not made.
    pub fn from_token(kernel: &crate::kernel::Kernel, satp: u64) -> (r: Option<&Self>)
        ensures
            r == if kernel.kernel_space.page_table.token_value() == satp {
                Some(&kernel.kernel_space.page_table)
            } else if first_with_token(kernel.processes@, satp, 0) >= 0 {
                Some(
                    &kernel.processes@[first_with_token(
                        kernel.processes@,
                        satp,
                        0,
                    )].unwrap().memory_set.page_table,
                )
            } else {
                None
            },
            r.is_some() ==> r.unwrap().token_value() == satp,
    {
        if kernel.kernel_space.page_table.token() == satp {
            return Some(&kernel.kernel_space.page_table);
        }
        let mut i: usize = 0;
        while i < kernel.processes.len()
            invariant
                0 <= i <= kernel.processes@.len(),
                kernel.kernel_space.page_table.token_value() != satp,
                first_with_token(kernel.processes@, satp, i as int) == first_with_token(
                    kernel.processes@,
                    satp,
                    0,
                ),
            decreases kernel.processes@.len() - i,
        {
            match &kernel.processes[i] {
                Some(p) => {
                    if p.memory_set.page_table.token() == satp {
                        proof {
                            assert(kernel.processes@[i as int].unwrap() == *p);
                            assert(first_with_token(kernel.processes@, satp, i as int) == i);
                        }
                        return Some(&p.memory_set.page_table);
                    }
                    proof {
                        assert(kernel.processes@[i as int].unwrap() == *p);
                    }
                },
                None => {},
            }
            i += 1;
        }
        None
    }

    /// The value that selects this table in the address-translation register.
    pub fn token(&self) -> (r: u64)
        ensures
            r == self.token_value(),
    {
        proof {
            lemma_pte_bits(0, 0);
        }
        (8u64 << 60) | self.root_ppn.0
    }

    /// Every node holds a whole frame.
    pub open spec fn frames_wf(&self) -> bool {
        forall|i: int| 0 <= i < self.frames@.len() ==> (#[trigger] self.frames@[i]).wf()
    }

    /// The node that lies in frame `ppn`.
    fn node_of(&self, ppn: PhysPageNum) -> (r: Option<usize>)
        ensures
            r.is_some() ==> r.unwrap() == node_index(self.frames@, ppn.0) && r.unwrap()
                < self.frames@.len(),
            r.is_none() ==> node_index(self.frames@, ppn.0) == -1,
    {
        proof {
            lemma_node_index(self.frames@, ppn.0);
        }
        let mut i: usize = 0;
        while i < self.frames.len()
            invariant
                i <= self.frames@.len(),
                forall|j: int| 0 <= j < i ==> (#[trigger] self.frames@[j]).ppn.0 != ppn.0,
            decreases self.frames@.len() - i,
        {
            if self.frames[i].ppn.0 == ppn.0 {
                proof {
                    lemma_node_index(self.frames@, ppn.0);
                    let ni = node_index(self.frames@, ppn.0);
                    assert(self.frames@[i as int].ppn.0 == ppn.0);
                    assert(0 <= ni <= i);
                    if ni < i {
                        assert(self.frames@[ni].ppn.0 != ppn.0);
                    }
                }
                return Some(i);
            }
            i += 1;
        }
        proof {
            lemma_node_index(self.frames@, ppn.0);
        }
        None
    }

    /// The node that entry `idx` of node `node` leads to.
    fn child_of(&self, node: usize, idx: usize) -> (r: Option<usize>)
        requires
            node < self.frames@.len(),
            idx < 512,
            self.frames_wf(),
        ensures
            r.is_some() ==> r.unwrap() == child(self.frames@, node as int, idx as int)
                && r.unwrap() < self.frames@.len(),
            r.is_none() ==> child(self.frames@, node as int, idx as int) == -1,
    {
        let e = PageTableEntry { bits: self.frames[node].read_word(idx) };
        if e.is_valid() {
            self.node_of(e.ppn())
        } else {
            None
        }
    }

    /// The place of the entry for page `vpn` in the last level: the node and
    /// the index in it; `None` when the walk does not reach the last level.
    fn find_pte(&self, vpn: VirtPageNum) -> (r: Option<(usize, usize)>)
        requires
            self.frames_wf(),
        ensures
            r.is_some() ==> r.unwrap().0 == leaf_node(self.frames@, self.root_ppn.0, vpn.0)
                && r.unwrap().0 < self.frames@.len() && r.unwrap().1 == vpn_indexes(vpn.0).2,
            r.is_none() ==> leaf_node(self.frames@, self.root_ppn.0, vpn.0) == -1,
    {
        let idxs = vpn.indexes();
        match self.node_of(self.root_ppn) {
            None => None,
            Some(n0) => match self.child_of(n0, idxs[0]) {
                None => None,
                Some(n1) => match self.child_of(n1, idxs[1]) {
                    None => None,
                    Some(n2) => Some((n2, idxs[2])),
                },
            },
        }
    }

    /// Number of nodes that a mapping of page `vpn` has yet to make.
    pub fn missing_count(&self, vpn: VirtPageNum) -> (r: u64)
        requires
            self.frames_wf(),
        ensures
            r == self.missing(vpn.0),
    {
        let idxs = vpn.indexes();
        match self.node_of(self.root_ppn) {
            None => 2,
            Some(n0) => match self.child_of(n0, idxs[0]) {
                None => 2,
                Some(n1) => match self.child_of(n1, idxs[1]) {
                    None => 1,
                    Some(_) => 0,
                },
            },
        }
    }

    /// The entry that maps page `vpn`: the entry of the last level, if the
    /// walk reaches it and it is valid.
    pub fn translate(&self, vpn: VirtPageNum) -> (r: Option<PageTableEntry>)
        requires
            self.frames_wf(),
        ensures
            r == self.translation(vpn.0),
    {
        match self.find_pte(vpn) {
            None => None,
            Some((n, i)) => {
                let e = PageTableEntry { bits: self.frames[n].read_word(i) };
                if e.is_valid() {
                    Some(e)
                } else {
                    None
                }
            },
        }
    }

    /// The physical address that `va` is mapped to: the frame of its page
    /// followed by its offset in the page; `None` when the page is not mapped.
    pub fn translate_va(&self, va: VirtAddr) -> (r: Option<PhysAddr>)
        requires
            self.frames_wf(),
        ensures
            r == match self.translation(va.0 / 4096) {
                Some(e) => Some(PhysAddr((pte_ppn(e.bits) * 4096 + va.0 % 4096) as u64)),
                None => None,
            },
    {
        match self.translate(va.floor()) {
            None => None,
            Some(e) => {
                let ppn: u64 = e.ppn().0;
                let bits: u64 = e.bits;
                assert(((bits >> 10) & 0xfff_ffff_ffff) < 0x1000_0000_0000) by (bit_vector);
                Some(PhysAddr(ppn * 4096 + va.page_offset()))
            },
        }
    }

    /// Makes sure that entry `idx` of node `node` leads to a node, making an
    /// empty one where it leads nowhere, and gives the node that it leads to.
    fn ensure_child(&mut self, allocator: &mut StackFrameAllocator, node: usize, idx: usize) -> (r:
        usize)
        requires
            old(self).wf(),
            old(self).frames_in_use(old(allocator)@),
            old(allocator)@.wf(),
            old(allocator)@.end <= 0x1000_0000_0000,
            node < old(self).frames@.len(),
            old(self).levels@[node as int] < 2,
            idx < 512,
            child(old(self).frames@, node as int, idx as int) < 0 ==> old(allocator)@.free_count()
                >= 1,
        ensures
            final(self).wf(),
            final(self).frames_in_use(final(allocator)@),
            final(allocator)@.wf(),
            final(self).root_ppn == old(self).root_ppn,
            r == child(final(self).frames@, node as int, idx as int),
            r < final(self).frames@.len(),
            final(self).levels@[r as int] == old(self).levels@[node as int] + 1,
            child(old(self).frames@, node as int, idx as int) >= 0 ==> *final(self) == *old(self)
                && final(allocator)@ == old(allocator)@,
            child(old(self).frames@, node as int, idx as int) < 0 ==> {
                &&& final(allocator)@ == old(allocator)@.after_alloc()
                &&& final(self).frames@.len() == old(self).frames@.len() + 1
                &&& Some(final(self).frames@.last().ppn.0) == old(allocator)@.next()
                &&& r == old(self).frames@.len()
                &&& forall|j: int|
                    0 <= j < 512 ==> #[trigger] child(final(self).frames@, r as int, j) == -1
            },
            forall|k: int|
                0 <= k < old(self).frames@.len() ==> (#[trigger] final(self).frames@[k]).ppn == old(
                    self,
                ).frames@[k].ppn && final(self).levels@[k] == old(self).levels@[k],
            forall|m: int, j: int|
                0 <= m < old(self).frames@.len() && old(self).levels@[m] < 2 && 0 <= j < 512 && !(m
                    == node && j == idx) ==> #[trigger] child(final(self).frames@, m, j) == child(
                    old(self).frames@,
                    m,
                    j,
                ),
            forall|v: u64| #[trigger] final(self).translation(v) == old(self).translation(v),
    {
        match self.child_of(node, idx) {
            Some(c) => {
                proof {
                    assert(pte_valid(entry(self.frames@, node as int, idx as int)));
                }
                c
            },
            None => {
                proof {
                    lemma_alloc_step(allocator@);
                }
                let frame = frame_alloc(allocator).unwrap();
                let ghost f1 = self.frames@;
                let ghost v1 = self.levels@;
                let ghost a1 = old(allocator)@;
                let p = frame.ppn;
                proof {
                    assert(!a1.in_use(p.0));
                    assert(p.0 < a1.current || a1.next() == Some(a1.current)) by {
                        if a1.recycled.len() > 0 {
                            assert(a1.recycled[a1.recycled.len() - 1] < a1.current);
                        }
                    }
                    assert forall|k: int| 0 <= k < f1.len() implies (#[trigger] f1[k]).ppn.0
                        != p.0 by {
                        assert(a1.in_use(f1[k].ppn.0));
                    }
                }
                let pte = PageTableEntry::new(p, PTEFlags { bits: 1 });
                self.frames[node].write_word(idx, pte.bits);
                let ghost fm = self.frames@;
                self.frames.push(frame);
                self.levels = Ghost(v1.push(v1[node as int] + 1));
                proof {
                    lemma_link(f1, self.root_ppn.0, v1, node as int, idx as int, frame, fm);
                    assert forall|k: int| 0 <= k < self.frames@.len() implies allocator@.in_use(
                        (#[trigger] self.frames@[k]).ppn.0,
                    ) by {
                        if k < f1.len() {
                            assert(a1.in_use(f1[k].ppn.0));
                            assert(self.frames@[k].ppn == f1[k].ppn);
                        }
                    }
                }
                self.frames.len() - 1
            },
        }
    }

    /// Maps page `vpn` to frame `ppn` with the flags `flags` and the valid
    /// flag. The page must not be mapped yet. Nodes that the walk lacks are
    /// made from frames of the allocator; when it has too few, nothing changes.
    #[verifier::rlimit(60)]
    #[verifier::spinoff_prover]
    pub fn map(
        &mut self,
        allocator: &mut StackFrameAllocator,
        vpn: VirtPageNum,
        ppn: PhysPageNum,
        flags: PTEFlags,
    ) -> (r: Result<(), MapError>)
        requires
            old(self).wf(),
            old(self).frames_in_use(old(allocator)@),
            old(allocator)@.wf(),
            old(allocator)@.end <= 0x1000_0000_0000,
            old(self).translation(vpn.0).is_none(),
        ensures
            r.is_ok() <==> old(self).missing(vpn.0) <= old(allocator)@.free_count(),
            r.is_err() ==> r == Err::<(), MapError>(MapError::OutOfFrames),
            r.is_err() ==> *final(self) == *old(self) && final(allocator)@ == old(allocator)@,
            final(self).wf(),
            final(self).frames_in_use(final(allocator)@),
            final(allocator)@.wf(),
            final(allocator)@.end == old(allocator)@.end,
            final(self).root_ppn == old(self).root_ppn,
            r.is_ok() ==> {
                &&& forall|v: u64|
                    #[trigger] final(self).translation(v) == if vpn_indexes(v) == vpn_indexes(
                        vpn.0,
                    ) {
                        Some(PageTableEntry { bits: pte_bits(ppn.0, flags.bits | 1) })
                    } else {
                        old(self).translation(v)
                    }
                &&& pte_ppn(final(self).translation(vpn.0).unwrap().bits) == ppn.0
                    & 0xfff_ffff_ffff
                &&& pte_flags(final(self).translation(vpn.0).unwrap().bits) == flags.bits | 1
                &&& final(allocator)@ == after_allocs(old(allocator)@, old(self).missing(vpn.0))
                &&& final(allocator)@.free_count() == old(allocator)@.free_count() - old(
                    self,
                ).missing(vpn.0)
                &&& final(self).frames@.len() == old(self).frames@.len() + old(self).missing(vpn.0)
                &&& forall|k: int|
                    0 <= k < old(self).frames@.len() ==> (#[trigger] final(self).frames@[k]).ppn
                        == old(self).frames@[k].ppn
                &&& forall|k: int|
                    old(self).frames@.len() <= k < final(self).frames@.len() ==> !old(
                        allocator,
                    )@.in_use((#[trigger] final(self).frames@[k]).ppn.0)
            },
    {
        let need = self.missing_count(vpn);
        if !allocator.can_allocate(need) {
            return Err(MapError::OutOfFrames);
        }
        let idxs = vpn.indexes();
        let ghost f0 = self.frames@;
        let ghost v0 = self.levels@;
        let ghost a0 = allocator@;
        let ghost root = self.root_ppn.0;
        proof {
            lemma_walk_levels(f0, root, v0, vpn.0);
            lemma_alloc_step(a0);
            lemma_alloc_step(a0.after_alloc());
            reveal_with_fuel(after_allocs, 3);
        }
        let ghost t0 = *self;
        let n1 = self.ensure_child(allocator, 0, idxs[0]);
        let ghost t1 = *self;
        let ghost f1 = self.frames@;
        let ghost v1 = self.levels@;
        proof {
            lemma_walk_levels(f1, root, v1, vpn.0);
            if mid_node(f0, root, vpn.0) >= 0 {
                assert(f1 == f0);
            } else {
                assert(n1 == f0.len());
            }
        }
        let n2 = self.ensure_child(allocator, n1, idxs[1]);
        let ghost t2 = *self;
        let ghost f2 = self.frames@;
        let ghost v2 = self.levels@;
        proof {
            assert(child(f2, 0, idxs[0] as int) == n1);
            lemma_walk_levels(f2, root, v2, vpn.0);
            assert(leaf_node(f2, root, vpn.0) == n2);
            assert(t2.translation(vpn.0) == t1.translation(vpn.0));
            assert(t1.translation(vpn.0) == t0.translation(vpn.0));
        }
        let pte = PageTableEntry::new(ppn, PTEFlags { bits: flags.bits | 1 });
        self.frames[n2].write_word(idxs[2], pte.bits);
        proof {
            let f3 = self.frames@;
            lemma_set_leaf(f2, root, v2, n2 as int, idxs[2] as int, pte.bits, f3);
            lemma_pte_bits(ppn.0, flags.bits | 1);
            lemma_pte_bits(ppn.0, flags.bits);
            assert forall|v: u64|
                #[trigger] lookup(f3, root, v) == if vpn_indexes(v) == vpn_indexes(vpn.0) {
                    Some(PageTableEntry { bits: pte_bits(ppn.0, flags.bits | 1) })
                } else {
                    lookup(f0, root, v)
                } by {
                assert(t2.translation(v) == t1.translation(v));
                assert(t1.translation(v) == t0.translation(v));
                if leaf_node(f2, root, v) == n2 {
                    lemma_same_leaf(f2, root, v2, vpn.0, v);
                }
            }
            assert forall|k: int| 0 <= k < f3.len() implies allocator@.in_use(
                (#[trigger] f3[k]).ppn.0,
            ) by {
                assert(f3[k].ppn == f2[k].ppn);
                assert(allocator@.in_use(f2[k].ppn.0));
            }
            assert forall|k: int| f0.len() <= k < f3.len() implies !a0.in_use(
                (#[trigger] f3[k]).ppn.0,
            ) by {
                assert(f3[k].ppn == f2[k].ppn);
                if k < f1.len() {
                    assert(f2[k].ppn == f1[k].ppn);
                    assert(f1.len() == f0.len() + 1);
                    assert(f1.last() == f1[k]);
                } else {
                    assert(f2.last() == f2[k]);
                    if f1.len() > f0.len() {
                        // the second frame was free after the first was taken
                        let p1 = a0.next().unwrap();
                        let a1 = a0.after_alloc();
                        assert(!a1.in_use(f2[k].ppn.0));
                        assert(f2[k].ppn.0 != p1);
                    }
                }
            }
        }
        Ok(())
    }

    /// Whether a node of the table lies in frame `p`.
    pub open spec fn has_node(&self, p: u64) -> bool {
        exists|k: int| 0 <= k < self.frames@.len() && (#[trigger] self.frames@[k]).ppn.0 == p
    }

    /// Gives the frames of all nodes back to the allocator; the table is gone.
    pub fn release(self, allocator: &mut StackFrameAllocator)
        requires
            self.wf(),
            self.frames_in_use(old(allocator)@),
            old(allocator)@.wf(),
        ensures
            final(allocator)@.wf(),
            final(allocator)@.end == old(allocator)@.end,
            forall|p: u64| #[trigger]
                final(allocator)@.in_use(p) == (old(allocator)@.in_use(p) && !self.has_node(p)),
    {
        let ghost f0 = self.frames@;
        let ghost a0 = allocator@;
        let mut frames = self.frames;
        while frames.len() > 0
            invariant
                a0 == old(allocator)@,
                f0 == self.frames@,
                frames@.len() <= f0.len(),
                frames@ =~= f0.take(frames@.len() as int),
                allocator@.wf(),
                allocator@.end == a0.end,
                forall|i: int, j: int|
                    0 <= i < j < f0.len() ==> (#[trigger] f0[i]).ppn != (#[trigger] f0[j]).ppn,
                forall|k: int| 0 <= k < frames@.len() ==> allocator@.in_use((#[trigger] f0[k]).ppn.0),
                forall|k: int|
                    frames@.len() <= k < f0.len() ==> !allocator@.in_use((#[trigger] f0[k]).ppn.0),
                forall|p: u64| allocator@.in_use(p) ==> a0.in_use(p),
                forall|p: u64| a0.in_use(p) && !self.has_node(p) ==> allocator@.in_use(p),
            decreases frames@.len(),
        {
            let ghost a1 = allocator@;
            let ghost n = frames@.len() - 1;
            let frame = frames.pop().unwrap();
            proof {
                assert(frame == f0[n]);
                lemma_dealloc_step(a1, frame.ppn.0);
                assert(self.has_node(frame.ppn.0));
            }
            allocator.dealloc(frame.ppn);
            proof {
                assert forall|k: int| 0 <= k < frames@.len() implies allocator@.in_use(
                    (#[trigger] f0[k]).ppn.0,
                ) by {
                    assert(f0[k].ppn != f0[n].ppn);
                    assert(a1.in_use(f0[k].ppn.0));
                }
                assert forall|k: int| frames@.len() <= k < f0.len() implies !allocator@.in_use(
                    (#[trigger] f0[k]).ppn.0,
                ) by {
                    if k > n {
                        assert(!a1.in_use(f0[k].ppn.0));
                    }
                }
            }
        }
        proof {
            assert forall|p: u64| #[trigger]
                allocator@.in_use(p) == (a0.in_use(p) && !self.has_node(p)) by {
                if self.has_node(p) {
                    let k = choose|k: int|
                        0 <= k < self.frames@.len() && (#[trigger] self.frames@[k]).ppn.0 == p;
                    assert(!allocator@.in_use(f0[k].ppn.0));
                }
            }
        }
    }

    /// Removes the mapping of page `vpn`, which must be mapped.
    pub fn unmap(&mut self, vpn: VirtPageNum)
        requires
            old(self).wf(),
            old(self).translation(vpn.0).is_some(),
        ensures
            final(self).wf(),
            final(self).root_ppn == old(self).root_ppn,
            final(self).frames@.len() == old(self).frames@.len(),
            forall|k: int|
                0 <= k < old(self).frames@.len() ==> (#[trigger] final(self).frames@[k]).ppn
                    == old(self).frames@[k].ppn,
            forall|v: u64|
                #[trigger] final(self).translation(v) == if vpn_indexes(v) == vpn_indexes(vpn.0) {
                    None
                } else {
                    old(self).translation(v)
                },
            forall|v: u64| #[trigger] final(self).missing(v) == old(self).missing(v),
    {
        let ghost f0 = self.frames@;
        let ghost root = self.root_ppn.0;
        let (n, i) = self.find_pte(vpn).unwrap();
        proof {
            lemma_walk_levels(f0, root, self.levels@, vpn.0);
        }
        self.frames[n].write_word(i, 0);
        proof {
            let f1 = self.frames@;
            lemma_set_leaf(f0, root, self.levels@, n as int, i as int, 0, f1);
            lemma_pte_bits(0, 0);
            assert forall|v: u64|
                #[trigger] lookup(f1, root, v) == if vpn_indexes(v) == vpn_indexes(vpn.0) {
                    None
                } else {
                    lookup(f0, root, v)
                } by {
                if leaf_node(f0, root, v) == n {
                    lemma_same_leaf(f0, root, self.levels@, vpn.0, v);
                }
            }
            assert forall|v: u64| #[trigger] self.missing(v) == old(self).missing(v) by {
                assert(leaf_node(f1, root, v) == leaf_node(f0, root, v));
                assert(mid_node(f1, root, v) == mid_node(f0, root, v));
            }
        }
    }
}

/// The state of the allocator after `n` allocations.
pub open spec fn after_allocs(a: AllocatorState, n: int) -> AllocatorState
    decreases n,
{
    if n <= 0 {
        a
    } else {
        after_allocs(a.after_alloc(), n - 1)
    }
}

} // verus!
