//! Bitmaps that hand out numbers: one bit for each inode or data block, set
//! while the number is in use.
use vstd::prelude::*;
use vstd::bytes::lemma_auto_spec_u64_to_from_le_bytes;
use super::block_cache::BlockCacheManager;
use super::block_dev::BlockDevice;
use crate::mm::frame_allocator::{lemma_with_word, word_at, with_word};

verus! {

/// Number of bits in a block.
pub const BLOCK_BITS: usize = 4096;

/// A bitmap in the blocks `[start_block_id, start_block_id + blocks)`. A
/// block holds 4096 bits in 64 words of 64 bits; bit `n` of the bitmap is bit
/// `n % 64` of word `n % 4096 / 64` of block `n / 4096`.
pub struct Bitmap {
    pub start_block_id: usize,
    pub blocks: usize,
}

/// The place of bit `bit`: the block of the bitmap, the word in the block,
/// and the bit in the word.
pub fn decomposition(bit: usize) -> (r: (usize, usize, usize))
    ensures
        r.0 == bit / 4096,
        r.1 == bit % 4096 / 64,
        r.2 == bit % 64,
{
    let block_pos = bit / BLOCK_BITS;
    let rest = bit % BLOCK_BITS;
    (block_pos, rest / 64, rest % 64)
}

/// Whether bit `i` of `word` is set.
pub open spec fn bit_set(word: u64, i: u64) -> bool {
    word & (1u64 << i) != 0
}

/// The lowest bit of `word` that is not set; `word` must have one.
pub fn lowest_zero(word: u64) -> (r: u64)
    requires
        word != u64::MAX,
    ensures
        r < 64,
        !bit_set(word, r),
        forall|j: u64| j < r ==> bit_set(word, j),
{
    let mut i: u64 = 0;
    while i < 64
        invariant
            0 <= i <= 64,
            word != u64::MAX,
            forall|j: u64| j < i ==> bit_set(word, j),
        decreases 64 - i,
    {
        if word & (1u64 << i) == 0 {
            return i;
        }
        i += 1;
    }
    proof {
        lemma_all_bits(word);
    }
    0
}

/// A word whose 64 bits are all set is the greatest word.
pub proof fn lemma_all_bits(word: u64)
    requires
        forall|j: u64| j < 64 ==> bit_set(word, j),
    ensures
        word == u64::MAX,
{
    assert(bit_set(word, 0) && bit_set(word, 1) && bit_set(word, 2) && bit_set(word, 3)
        && bit_set(word, 4) && bit_set(word, 5) && bit_set(word, 6) && bit_set(word, 7)
        && bit_set(word, 8) && bit_set(word, 9) && bit_set(word, 10) && bit_set(word, 11)
        && bit_set(word, 12) && bit_set(word, 13) && bit_set(word, 14) && bit_set(word, 15));
    assert(bit_set(word, 16) && bit_set(word, 17) && bit_set(word, 18) && bit_set(word, 19)
        && bit_set(word, 20) && bit_set(word, 21) && bit_set(word, 22) && bit_set(word, 23)
        && bit_set(word, 24) && bit_set(word, 25) && bit_set(word, 26) && bit_set(word, 27)
        && bit_set(word, 28) && bit_set(word, 29) && bit_set(word, 30) && bit_set(word, 31));
    assert(bit_set(word, 32) && bit_set(word, 33) && bit_set(word, 34) && bit_set(word, 35)
        && bit_set(word, 36) && bit_set(word, 37) && bit_set(word, 38) && bit_set(word, 39)
        && bit_set(word, 40) && bit_set(word, 41) && bit_set(word, 42) && bit_set(word, 43)
        && bit_set(word, 44) && bit_set(word, 45) && bit_set(word, 46) && bit_set(word, 47));
    assert(bit_set(word, 48) && bit_set(word, 49) && bit_set(word, 50) && bit_set(word, 51)
        && bit_set(word, 52) && bit_set(word, 53) && bit_set(word, 54) && bit_set(word, 55)
        && bit_set(word, 56) && bit_set(word, 57) && bit_set(word, 58) && bit_set(word, 59)
        && bit_set(word, 60) && bit_set(word, 61) && bit_set(word, 62) && bit_set(word, 63));
    assert((word & (1u64 << 0) != 0 && word & (1u64 << 1) != 0 && word & (1u64 << 2) != 0 && word
        & (1u64 << 3) != 0 && word & (1u64 << 4) != 0 && word & (1u64 << 5) != 0 && word & (1u64
        << 6) != 0 && word & (1u64 << 7) != 0 && word & (1u64 << 8) != 0 && word & (1u64 << 9) != 0
        && word & (1u64 << 10) != 0 && word & (1u64 << 11) != 0 && word & (1u64 << 12) != 0 && word
        & (1u64 << 13) != 0 && word & (1u64 << 14) != 0 && word & (1u64 << 15) != 0 && word & (1u64
        << 16) != 0 && word & (1u64 << 17) != 0 && word & (1u64 << 18) != 0 && word & (1u64 << 19)
        != 0 && word & (1u64 << 20) != 0 && word & (1u64 << 21) != 0 && word & (1u64 << 22) != 0
        && word & (1u64 << 23) != 0 && word & (1u64 << 24) != 0 && word & (1u64 << 25) != 0 && word
        & (1u64 << 26) != 0 && word & (1u64 << 27) != 0 && word & (1u64 << 28) != 0 && word & (1u64
        << 29) != 0 && word & (1u64 << 30) != 0 && word & (1u64 << 31) != 0 && word & (1u64 << 32)
        != 0 && word & (1u64 << 33) != 0 && word & (1u64 << 34) != 0 && word & (1u64 << 35) != 0
        && word & (1u64 << 36) != 0 && word & (1u64 << 37) != 0 && word & (1u64 << 38) != 0 && word
        & (1u64 << 39) != 0 && word & (1u64 << 40) != 0 && word & (1u64 << 41) != 0 && word & (1u64
        << 42) != 0 && word & (1u64 << 43) != 0 && word & (1u64 << 44) != 0 && word & (1u64 << 45)
        != 0 && word & (1u64 << 46) != 0 && word & (1u64 << 47) != 0 && word & (1u64 << 48) != 0
        && word & (1u64 << 49) != 0 && word & (1u64 << 50) != 0 && word & (1u64 << 51) != 0 && word
        & (1u64 << 52) != 0 && word & (1u64 << 53) != 0 && word & (1u64 << 54) != 0 && word & (1u64
        << 55) != 0 && word & (1u64 << 56) != 0 && word & (1u64 << 57) != 0 && word & (1u64 << 58)
        != 0 && word & (1u64 << 59) != 0 && word & (1u64 << 60) != 0 && word & (1u64 << 61) != 0
        && word & (1u64 << 62) != 0 && word & (1u64 << 63) != 0) ==> word
        == 0xffff_ffff_ffff_ffffu64) by (bit_vector);
}

/// Setting a clear bit of a word sets that bit and changes no other, and
/// taking it away again gives the word back.
pub proof fn lemma_set_clear(word: u64, i: u64)
    requires
        i < 64,
        !bit_set(word, i),
    ensures
        bit_set(word | (1u64 << i), i),
        (word | (1u64 << i)) >= (1u64 << i),
        ((word | (1u64 << i)) - (1u64 << i)) as u64 == word,
        forall|j: u64| j < 64 && j != i ==> bit_set(word | (1u64 << i), j) == bit_set(word, j),
{
    assert(i < 64 && word & (1u64 << i) == 0 ==> (word | (1u64 << i)) & (1u64 << i) != 0 && (word
        | (1u64 << i)) >= (1u64 << i) && (word | (1u64 << i)) - (1u64 << i) == word)
        by (bit_vector);
    assert forall|j: u64| j < 64 && j != i implies bit_set(word | (1u64 << i), j) == bit_set(
        word,
        j,
    ) by {
        assert(i < 64 && j < 64 && j != i ==> ((word | (1u64 << i)) & (1u64 << j) != 0) == (word
            & (1u64 << j) != 0)) by (bit_vector);
    }
}

/// Taking a set bit away from a word clears that bit and changes no other.
pub proof fn lemma_clear(word: u64, i: u64)
    requires
        i < 64,
        bit_set(word, i),
    ensures
        word >= (1u64 << i),
        !bit_set((word - (1u64 << i)) as u64, i),
        forall|j: u64|
            j < 64 && j != i ==> bit_set((word - (1u64 << i)) as u64, j) == bit_set(word, j),
{
    assert(i < 64 && word & (1u64 << i) != 0 ==> word >= (1u64 << i) && ((word - (1u64
        << i)) as u64) & (1u64 << i) == 0) by (bit_vector);
    assert forall|j: u64| j < 64 && j != i implies bit_set((word - (1u64 << i)) as u64, j)
        == bit_set(word, j) by {
        assert(i < 64 && j < 64 && j != i && word & (1u64 << i) != 0 ==> ((((word - (1u64 << i)) as u64)
            & (1u64 << j)) != 0) == (word & (1u64 << j) != 0)) by (bit_vector);
    }
}

/// Bitmap round trip: a block of a bitmap in which a clear bit was set, as
/// an allocation does, and taken away again, as giving the number back
/// does, holds what it held before.
pub proof fn lemma_alloc_dealloc_round_trip(block: Seq<u8>, word_idx: int, i: u64)
    requires
        block.len() == 512,
        0 <= word_idx < 64,
        i < 64,
        !bit_set(word_at(block, word_idx), i),
    ensures
        ({
            let w = word_at(block, word_idx);
            let set = with_word(block, word_idx, w | (1u64 << i));
            &&& bit_set(word_at(set, word_idx), i)
            &&& with_word(set, word_idx, (word_at(set, word_idx) - (1u64 << i)) as u64) == block
        }),
{
    let w = word_at(block, word_idx);
    let set = with_word(block, word_idx, w | (1u64 << i));
    lemma_with_word(block, word_idx, w | (1u64 << i));
    lemma_set_clear(w, i);
    lemma_auto_spec_u64_to_from_le_bytes();
    let back = with_word(set, word_idx, w);
    assert(block.subrange(8 * word_idx, 8 * word_idx + 8).len() == 8);
    assert(back =~= block);
}

impl Bitmap {
    /// The bits of the bitmap can be counted, and its blocks can be numbered.
    pub open spec fn wf(&self) -> bool {
        &&& self.blocks * 4096 <= usize::MAX
        &&& self.start_block_id + self.blocks <= usize::MAX
    }

    /// Whether bit `bit` is set in the bitmap as the file system sees it.
    pub open spec fn is_set<D: BlockDevice>(&self, cache: &BlockCacheManager, dev: &D, bit: int) -> bool {
        bit_set(
            word_at(
                cache.content(dev, (self.start_block_id + bit / 4096) as usize),
                bit % 4096 / 64,
            ),
            (bit % 64) as u64,
        )
    }

    /// The bitmap in `blocks` blocks from block `start_block_id` on.
    pub fn new(start_block_id: usize, blocks: usize) -> (r: Self)
        ensures
            r.start_block_id == start_block_id,
            r.blocks == blocks,
    {
        Self { start_block_id, blocks }
    }

    /// Number of bits in the bitmap.
    pub fn maximum(&self) -> (r: usize)
        requires
            self.wf(),
        ensures
            r == self.blocks * 4096,
    {
        self.blocks * BLOCK_BITS
    }

    /// Hands out the lowest number whose bit is not set, and sets the bit;
    /// `None` when every bit is set.
    pub fn allocate<D: BlockDevice>(&self, cache: &mut BlockCacheManager, block_device: &mut D) -> (r:
        Option<usize>)
        requires
            self.wf(),
            old(cache).wf(old(block_device)),
        ensures
            final(cache).wf(final(block_device)),
            r.is_none() ==> {
                &&& forall|b: int|
                    0 <= b < self.blocks * 4096 ==> #[trigger] self.is_set(
                        old(cache),
                        old(block_device),
                        b,
                    )
                &&& forall|id: usize| #[trigger]
                    final(cache).content(final(block_device), id) == old(cache).content(
                        old(block_device),
                        id,
                    )
            },
            r.is_some() ==> handed_out(
                *self,
                old(cache),
                old(block_device),
                final(cache),
                final(block_device),
                r.unwrap(),
            ),
            r.is_some() ==> self.is_set(final(cache), final(block_device), r.unwrap() as int),
            r.is_some() ==> old(cache).content(
                old(block_device),
                (self.start_block_id + r.unwrap() / 4096) as usize,
            ).len() == 512,
            r.is_some() ==> {
                let bit = r.unwrap();
                let blk = (self.start_block_id + bit / 4096) as usize;
                let before = old(cache).content(old(block_device), blk);
                &&& bit < self.blocks * 4096
                &&& !self.is_set(old(cache), old(block_device), bit as int)
                &&& forall|b: int|
                    0 <= b < bit ==> #[trigger] self.is_set(old(cache), old(block_device), b)
                &&& forall|id: usize| #[trigger]
                    final(cache).content(final(block_device), id) == if id == blk {
                        with_word(
                            before,
                            (bit % 4096 / 64) as int,
                            word_at(before, (bit % 4096 / 64) as int) | (1u64 << ((bit % 64) as u64)),
                        )
                    } else {
                        old(cache).content(old(block_device), id)
                    }
            },
    {
        let ghost c0 = *cache;
        let ghost d0 = *block_device;
        let mut block_id: usize = 0;
        while block_id < self.blocks
            invariant
                self.wf(),
                0 <= block_id <= self.blocks,
                cache.wf(block_device),
                forall|id: usize| #[trigger] cache.content(block_device, id) == c0.content(&d0, id),
                forall|b: int| 0 <= b < block_id * 4096 ==> #[trigger] self.is_set(&c0, &d0, b),
                c0 == *old(cache),
                d0 == *old(block_device),
            decreases self.blocks - block_id,
        {
            let mut w: usize = 0;
            while w < 64
                invariant
                    self.wf(),
                    0 <= block_id < self.blocks,
                    0 <= w <= 64,
                    cache.wf(block_device),
                    forall|id: usize| #[trigger]
                        cache.content(block_device, id) == c0.content(&d0, id),
                    forall|b: int|
                        0 <= b < block_id * 4096 + w * 64 ==> #[trigger] self.is_set(&c0, &d0, b),
                    c0 == *old(cache),
                    d0 == *old(block_device),
                decreases 64 - w,
            {
                let blk: usize = block_id + self.start_block_id;
                let word = cache.read_u64(blk, w, block_device);
                if word != u64::MAX {
                    let inner = lowest_zero(word);
                    let bit: usize = block_id * BLOCK_BITS + w * 64 + inner as usize;
                    proof {
                        assert(bit / 4096 == block_id && bit % 4096 / 64 == w && bit % 64 == inner);
                        assert forall|b: int| 0 <= b < bit implies #[trigger] self.is_set(
                            &c0,
                            &d0,
                            b,
                        ) by {
                            if b >= block_id * 4096 + w * 64 {
                                assert(b / 4096 == block_id && b % 4096 / 64 == w);
                                assert(bit_set(word, (b % 64) as u64));
                            }
                        }
                    }
                    cache.write_u64(blk, w, word | (1u64 << inner), block_device);
                    proof {
                        let before = c0.content(&d0, blk);
                        assert(word == word_at(before, w as int));
                        assert(!bit_set(word, inner));
                        lemma_alloc_dealloc_round_trip(before, w as int, inner);
                        assert(cache.content(block_device, blk) == with_word(
                            before,
                            w as int,
                            word | (1u64 << inner),
                        ));
                    }
                    return Some(bit);
                }
                proof {
                    assert forall|b: int|
                        0 <= b < block_id * 4096 + (w + 1) * 64 implies #[trigger] self.is_set(
                        &c0,
                        &d0,
                        b,
                    ) by {
                        if b >= block_id * 4096 + w * 64 {
                            assert(b / 4096 == block_id && b % 4096 / 64 == w);
                            let j = (b % 64) as u64;
                            assert(j < 64 ==> 0xffff_ffff_ffff_ffffu64 & (1u64 << j) != 0)
                                by (bit_vector);
                        }
                    }
                }
                w += 1;
            }
            block_id += 1;
        }
        None
    }

    /// Whether bit `bit` is set; see `is_set`.
    pub fn is_allocated<D: BlockDevice>(&self, cache: &mut BlockCacheManager, block_device: &mut D, bit: usize) -> (r:
        bool)
        requires
            old(cache).wf(old(block_device)),
            self.start_block_id + bit / 4096 <= usize::MAX,
        ensures
            final(cache).wf(final(block_device)),
            r == self.is_set(old(cache), old(block_device), bit as int),
            forall|id: usize| #[trigger]
                final(cache).content(final(block_device), id) == old(cache).content(
                    old(block_device),
                    id,
                ),
    {
        let (block_pos, bits64_pos, inner_pos) = decomposition(bit);
        let word = cache.read_u64(block_pos + self.start_block_id, bits64_pos, block_device);
        word & (1u64 << (inner_pos as u64)) != 0
    }

    /// Takes back number `bit`, whose bit must be set, and clears the bit.
    pub fn dealloc<D: BlockDevice>(&self, cache: &mut BlockCacheManager, block_device: &mut D, bit: usize)
        requires
            old(cache).wf(old(block_device)),
            self.start_block_id + bit / 4096 <= usize::MAX,
            self.is_set(old(cache), old(block_device), bit as int),
        ensures
            final(cache).wf(final(block_device)),
            forall|id: usize| #[trigger]
                final(cache).content(final(block_device), id) == if id == self.start_block_id + bit
                    / 4096 {
                    with_word(
                        old(cache).content(old(block_device), id),
                        (bit % 4096 / 64) as int,
                        (word_at(old(cache).content(old(block_device), id), (bit % 4096 / 64) as int)
                            - (1u64 << ((bit % 64) as u64))) as u64,
                    )
                } else {
                    old(cache).content(old(block_device), id)
                },
            !self.is_set(final(cache), final(block_device), bit as int),
            forall|b: int|
                0 <= b && b != bit && self.start_block_id + b / 4096 <= usize::MAX ==> #[trigger] self.is_set(
                    final(cache),
                    final(block_device),
                    b,
                ) == self.is_set(old(cache), old(block_device), b),
    {
        let (block_pos, bits64_pos, inner_pos) = decomposition(bit);
        let blk: usize = block_pos + self.start_block_id;
        let word = cache.read_u64(blk, bits64_pos, block_device);
        proof {
            lemma_clear(word, inner_pos as u64);
        }
        cache.write_u64(blk, bits64_pos, word - (1u64 << (inner_pos as u64)), block_device);
        proof {
            let before = old(cache).content(old(block_device), blk);
            let after = (word - (1u64 << (inner_pos as u64))) as u64;
            lemma_with_word(before, bits64_pos as int, after);
            assert(cache.content(block_device, blk) == with_word(before, bits64_pos as int, after));
            assert forall|b: int|
                0 <= b && b != bit && self.start_block_id + b / 4096 <= usize::MAX implies #[trigger] self.is_set(
                cache,
                block_device,
                b,
            ) == self.is_set(old(cache), old(block_device), b) by {
                let bb = (self.start_block_id + b / 4096) as usize;
                if bb == blk {
                    if b % 4096 / 64 == bits64_pos {
                        assert(b % 64 != inner_pos);
                        assert((b % 64) as u64 != inner_pos as u64);
                    } else {
                        assert(word_at(with_word(before, bits64_pos as int, after), b % 4096 / 64)
                            == word_at(before, b % 4096 / 64));
                    }
                }
            }
        }
    }
}

/// Whether the bitmap has handed out number `bit` between the file systems
/// `(c0, d0)` and `(c1, d1)`: the bit was the lowest that was not set, and
/// only it has changed.
pub open spec fn handed_out<D: BlockDevice>(
    bitmap: Bitmap,
    c0: &BlockCacheManager,
    d0: &D,
    c1: &BlockCacheManager,
    d1: &D,
    bit: usize,
) -> bool {
    let blk = (bitmap.start_block_id + bit / 4096) as usize;
    let before = c0.content(d0, blk);
    &&& bit < bitmap.blocks * 4096
    &&& !bitmap.is_set(c0, d0, bit as int)
    &&& forall|b: int| 0 <= b < bit ==> #[trigger] bitmap.is_set(c0, d0, b)
    &&& forall|id: usize| #[trigger]
        c1.content(d1, id) == if id == blk {
            with_word(
                before,
                (bit % 4096 / 64) as int,
                word_at(before, (bit % 4096 / 64) as int) | (1u64 << ((bit % 64) as u64)),
            )
        } else {
            c0.content(d0, id)
        }
}

/// Two numbers that a bitmap hands out one after the other differ.
pub proof fn lemma_allocs_distinct<D: BlockDevice>(
    bitmap: Bitmap,
    c0: &BlockCacheManager,
    d0: &D,
    c1: &BlockCacheManager,
    d1: &D,
    c2: &BlockCacheManager,
    d2: &D,
    first: usize,
    second: usize,
)
    requires
        bitmap.wf(),
        c0.content(d0, (bitmap.start_block_id + first / 4096) as usize).len() == 512,
        handed_out(bitmap, c0, d0, c1, d1, first),
        handed_out(bitmap, c1, d1, c2, d2, second),
    ensures
        bitmap.is_set(c1, d1, first as int),
        first != second,
{
    let blk = (bitmap.start_block_id + first / 4096) as usize;
    let before = c0.content(d0, blk);
    let word_idx = (first % 4096 / 64) as int;
    let i = (first % 64) as u64;
    assert(c1.content(d1, blk) == with_word(before, word_idx, word_at(before, word_idx) | (1u64 << i)));
    lemma_alloc_dealloc_round_trip(before, word_idx, i);
}

} // verus!
