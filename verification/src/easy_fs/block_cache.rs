//! A cache of blocks between the file system and the block device.
//!
//! The cache holds up to sixteen blocks. A block that is asked for and not
//! held is read from the device; when the cache is full, the block that
//! came first makes room and, if it was changed, is written back. The cache
//! hands out no reference to its buffers: callers read and write through it.
use vstd::prelude::*;
use vstd::bytes::{
    lemma_auto_spec_u32_to_from_le_bytes, spec_u32_from_le_bytes, spec_u32_to_le_bytes,
    u32_from_le_bytes, u32_to_le_bytes, u64_from_le_bytes, u64_to_le_bytes,
};
use vstd::slice::slice_subrange;
use super::block_dev::BlockDevice;
use crate::mm::frame_allocator::{word_at, with_word};

verus! {

/// Number of blocks that the cache holds at most.
pub const BLOCK_CACHE_SIZE: usize = 16;

/// The number of four bytes that starts at byte `4 * idx`, read little-endian.
pub open spec fn u32_at(bytes: Seq<u8>, idx: int) -> u32 {
    spec_u32_from_le_bytes(bytes.subrange(4 * idx, 4 * idx + 4))
}

/// `bytes` with the four bytes from `4 * idx` on replaced by `value`, little-endian.
pub open spec fn with_u32(bytes: Seq<u8>, idx: int, value: u32) -> Seq<u8> {
    bytes.subrange(0, 4 * idx) + spec_u32_to_le_bytes(value) + bytes.subrange(
        4 * idx + 4,
        bytes.len() as int,
    )
}

/// Writing a number changes that number and no other.
pub proof fn lemma_with_u32(bytes: Seq<u8>, idx: int, value: u32)
    requires
        0 <= idx,
        4 * idx + 4 <= bytes.len(),
    ensures
        with_u32(bytes, idx, value).len() == bytes.len(),
        u32_at(with_u32(bytes, idx, value), idx) == value,
        forall|j: int|
            0 <= j && 4 * j + 4 <= bytes.len() && j != idx ==> #[trigger] u32_at(
                with_u32(bytes, idx, value),
                j,
            ) == u32_at(bytes, j),
{
    lemma_auto_spec_u32_to_from_le_bytes();
    let w = with_u32(bytes, idx, value);
    assert(w.subrange(4 * idx, 4 * idx + 4) =~= spec_u32_to_le_bytes(value));
    assert forall|j: int| 0 <= j && 4 * j + 4 <= bytes.len() && j != idx implies #[trigger] u32_at(
        w,
        j,
    ) == u32_at(bytes, j) by {
        assert(w.subrange(4 * j, 4 * j + 4) =~= bytes.subrange(4 * j, 4 * j + 4));
    }
}

/// `bytes` with the bytes from `offset` on replaced by `data`.
pub open spec fn with_bytes(bytes: Seq<u8>, offset: int, data: Seq<u8>) -> Seq<u8> {
    bytes.subrange(0, offset) + data + bytes.subrange(offset + data.len(), bytes.len() as int)
}

/// A block in memory: its bytes, its number on the device, and whether the
/// bytes were changed since they were read or written back.
pub struct BlockCache {
    pub cache: Vec<u8>,
    pub block_id: usize,
    pub modified: bool,
}

impl BlockCache {
    /// A buffer holds a whole block.
    pub open spec fn wf(&self) -> bool {
        self.cache@.len() == 512
    }

    /// Reads block `block_id` from the device.
    pub fn new<D: BlockDevice>(block_id: usize, block_device: &D) -> (r: Self)
        requires
            block_device.inv(),
        ensures
            r.wf(),
            r.cache@ == block_device.block(block_id),
            r.block_id == block_id,
            !r.modified,
    {
        let mut cache: Vec<u8> = Vec::new();
        let mut k: usize = 0;
        while k < 512
            invariant
                0 <= k <= 512,
                cache@.len() == k,
            decreases 512 - k,
        {
            cache.push(0u8);
            k += 1;
        }
        block_device.read_block(block_id, &mut cache);
        Self { cache, block_id, modified: false }
    }

    /// The number at index `idx` of the block, counted in numbers of four bytes.
    pub fn read_u32(&self, idx: usize) -> (r: u32)
        requires
            self.wf(),
            idx < 128,
        ensures
            r == u32_at(self.cache@, idx as int),
    {
        u32_from_le_bytes(slice_subrange(self.cache.as_slice(), 4 * idx, 4 * idx + 4))
    }

    /// Stores `value` at index `idx`, counted in numbers of four bytes, and
    /// marks the block as changed.
    pub fn write_u32(&mut self, idx: usize, value: u32)
        requires
            old(self).wf(),
            idx < 128,
        ensures
            final(self).wf(),
            final(self).cache@ == with_u32(old(self).cache@, idx as int, value),
            final(self).block_id == old(self).block_id,
            final(self).modified,
    {
        let b = u32_to_le_bytes(value);
        let mut k: usize = 0;
        while k < 4
            invariant
                k <= 4,
                b@.len() == 4,
                idx < 128,
                old(self).wf(),
                self.block_id == old(self).block_id,
                self.cache@ =~= old(self).cache@.subrange(0, 4 * idx) + b@.subrange(0, k as int)
                    + old(self).cache@.subrange(4 * idx + k, 512),
            decreases 4 - k,
        {
            self.cache.set(4 * idx + k, b[k]);
            k += 1;
        }
        assert(b@.subrange(0, 4) =~= b@);
        self.modified = true;
    }

    /// The word at index `idx` of the block, counted in words of eight bytes.
    pub fn read_u64(&self, idx: usize) -> (r: u64)
        requires
            self.wf(),
            idx < 64,
        ensures
            r == word_at(self.cache@, idx as int),
    {
        u64_from_le_bytes(slice_subrange(self.cache.as_slice(), 8 * idx, 8 * idx + 8))
    }

    /// Stores `value` at index `idx`, counted in words of eight bytes, and
    /// marks the block as changed.
    pub fn write_u64(&mut self, idx: usize, value: u64)
        requires
            old(self).wf(),
            idx < 64,
        ensures
            final(self).wf(),
            final(self).cache@ == with_word(old(self).cache@, idx as int, value),
            final(self).block_id == old(self).block_id,
            final(self).modified,
    {
        let b = u64_to_le_bytes(value);
        let mut k: usize = 0;
        while k < 8
            invariant
                k <= 8,
                b@.len() == 8,
                idx < 64,
                old(self).wf(),
                self.block_id == old(self).block_id,
                self.cache@ =~= old(self).cache@.subrange(0, 8 * idx) + b@.subrange(0, k as int)
                    + old(self).cache@.subrange(8 * idx + k, 512),
            decreases 8 - k,
        {
            self.cache.set(8 * idx + k, b[k]);
            k += 1;
        }
        assert(b@.subrange(0, 8) =~= b@);
        self.modified = true;
    }

    /// Stores `data` in the block from `offset` on and marks the block as changed.
    pub fn write_bytes(&mut self, offset: usize, data: &[u8])
        requires
            old(self).wf(),
            offset + data@.len() <= 512,
        ensures
            final(self).wf(),
            final(self).cache@ == with_bytes(old(self).cache@, offset as int, data@),
            final(self).block_id == old(self).block_id,
            final(self).modified,
    {
        let mut k: usize = 0;
        while k < data.len()
            invariant
                k <= data@.len(),
                offset + data@.len() <= 512,
                old(self).wf(),
                self.block_id == old(self).block_id,
                self.cache@ =~= old(self).cache@.subrange(0, offset as int) + data@.subrange(
                    0,
                    k as int,
                ) + old(self).cache@.subrange(offset + k, 512),
            decreases data@.len() - k,
        {
            self.cache.set(offset + k, data[k]);
            k += 1;
        }
        assert(data@.subrange(0, data@.len() as int) =~= data@);
        self.modified = true;
    }

    /// Writes the block back to the device if it was changed.
    pub fn sync<D: BlockDevice>(&mut self, block_device: &mut D)
        requires
            old(self).wf(),
            old(block_device).inv(),
        ensures
            final(self).cache@ == old(self).cache@,
            final(self).block_id == old(self).block_id,
            !final(self).modified,
            final(block_device).inv(),
            forall|id: usize| #[trigger]
                final(block_device).block(id) == if id == old(self).block_id && old(self).modified {
                    old(self).cache@
                } else {
                    old(block_device).block(id)
                },
    {
        if self.modified {
            self.modified = false;
            block_device.write_block(self.block_id, self.cache.as_slice());
        }
    }
}

/// Index of the first buffer in `queue` that holds block `block_id`, or -1.
pub open spec fn cache_position(queue: Seq<BlockCache>, block_id: usize) -> int
    decreases queue.len(),
{
    if queue.len() == 0 {
        -1
    } else if cache_position(queue.drop_last(), block_id) >= 0 {
        cache_position(queue.drop_last(), block_id)
    } else if queue.last().block_id == block_id {
        queue.len() - 1
    } else {
        -1
    }
}

/// What `cache_position` finds: a buffer of that block, before which no
/// buffer holds it; or -1 when no buffer holds it.
pub proof fn lemma_cache_position(queue: Seq<BlockCache>, block_id: usize)
    ensures
        -1 <= cache_position(queue, block_id) < queue.len(),
        cache_position(queue, block_id) >= 0 ==> queue[cache_position(queue, block_id)].block_id
            == block_id,
        forall|i: int|
            0 <= i < queue.len() && (#[trigger] queue[i]).block_id == block_id ==> 0
                <= cache_position(queue, block_id) <= i,
    decreases queue.len(),
{
    if queue.len() > 0 {
        lemma_cache_position(queue.drop_last(), block_id);
        assert forall|i: int| 0 <= i < queue.len() && (#[trigger] queue[i]).block_id == block_id implies 0
            <= cache_position(queue, block_id) <= i by {
            if i < queue.len() - 1 {
                assert(queue.drop_last()[i].block_id == block_id);
            }
        }
    }
}

/// The blocks that are held in memory, in the order in which they came.
pub struct BlockCacheManager {
    pub queue: Vec<BlockCache>,
}

impl BlockCacheManager {
    /// The bytes of block `block_id` as the file system sees them: those of
    /// the buffer that holds the block, and else those on the device.
    pub open spec fn content<D: BlockDevice>(&self, dev: &D, block_id: usize) -> Seq<u8> {
        queue_content(self.queue@, dev, block_id)
    }

    /// At most sixteen blocks are held, each once and whole, and a buffer
    /// that is not marked as changed holds what the device holds.
    pub open spec fn wf<D: BlockDevice>(&self, dev: &D) -> bool {
        queue_wf(self.queue@, dev)
    }

    /// An empty cache.
    pub fn new() -> (r: Self)
        ensures
            r.queue@.len() == 0,
    {
        Self { queue: Vec::new() }
    }

    /// The place of the buffer that holds block `block_id`.
    fn find(&self, block_id: usize) -> (r: Option<usize>)
        ensures
            r.is_some() ==> r.unwrap() == cache_position(self.queue@, block_id) && r.unwrap()
                < self.queue@.len(),
            r.is_none() ==> cache_position(self.queue@, block_id) == -1,
    {
        let mut i: usize = 0;
        while i < self.queue.len()
            invariant
                i <= self.queue@.len(),
                forall|j: int| 0 <= j < i ==> (#[trigger] self.queue@[j]).block_id != block_id,
            decreases self.queue@.len() - i,
        {
            if self.queue[i].block_id == block_id {
                proof {
                    lemma_cache_position(self.queue@, block_id);
                    let p = cache_position(self.queue@, block_id);
                    assert(self.queue@[i as int].block_id == block_id);
                    if p < i {
                        assert(self.queue@[p].block_id != block_id);
                    }
                }
                return Some(i);
            }
            i += 1;
        }
        proof {
            lemma_cache_position(self.queue@, block_id);
        }
        None
    }

    /// Makes sure that block `block_id` is held and gives the place of its
    /// buffer. A block that is not held is read from the device and put
    /// last; when sixteen blocks are held, the first makes room and is
    /// written back if it was changed. What the file system sees of any
    /// block stays as it is.
    pub fn get_block_cache<D: BlockDevice>(&mut self, block_id: usize, block_device: &mut D) -> (r:
        usize)
        requires
            old(self).wf(old(block_device)),
        ensures
            final(self).wf(final(block_device)),
            r == cache_position(final(self).queue@, block_id),
            r < final(self).queue@.len(),
            final(self).queue@[r as int].block_id == block_id,
            old(self).content(old(block_device), block_id).len() == 512,
            forall|id: usize| #[trigger]
                final(self).content(final(block_device), id) == old(self).content(
                    old(block_device),
                    id,
                ),
            cache_position(old(self).queue@, block_id) >= 0 ==> final(self).queue@ == old(self).queue@ && *final(block_device) == *old(block_device),
            cache_position(old(self).queue@, block_id) < 0 ==> {
                let kept = if old(self).queue@.len() == 16 {
                    old(self).queue@.remove(0)
                } else {
                    old(self).queue@
                };
                &&& final(self).queue@.len() == kept.len() + 1
                &&& final(self).queue@.drop_last() == kept
                &&& !final(self).queue@.last().modified
            },
    {
        let ghost q0 = self.queue@;
        let ghost d0 = *old(block_device);
        match self.find(block_id) {
            Some(i) => {
                proof {
                    lemma_cache_position(q0, block_id);
                    assert(q0[i as int].wf());
                }
                i
            },
            None => {
                if self.queue.len() == BLOCK_CACHE_SIZE {
                    let mut first = self.queue.remove(0);
                    first.sync(block_device);
                }
                let ghost q1 = self.queue@;
                let block_cache = BlockCache::new(block_id, block_device);
                self.queue.push(block_cache);
                proof {
                    let q2 = self.queue@;
                    let n = q1.len() as int;
                    lemma_cache_position(q0, block_id);
                    assert forall|i: int| 0 <= i < q1.len() implies (#[trigger] q1[i]).block_id
                        != block_id && q1[i].wf() by {
                        if q0.len() == 16 {
                            assert(q1[i] == q0[i + 1]);
                        } else {
                            assert(q1[i] == q0[i]);
                        }
                    }
                    assert forall|i: int, j: int| 0 <= i < j < q2.len() implies (
                    #[trigger] q2[i]).block_id != (#[trigger] q2[j]).block_id by {
                        if j < n {
                            if q0.len() == 16 {
                                assert(q0[i + 1].block_id != q0[j + 1].block_id);
                            } else {
                                assert(q0[i].block_id != q0[j].block_id);
                            }
                        } else {
                            assert(q1[i].block_id != block_id);
                        }
                    }
                    assert forall|i: int| 0 <= i < q2.len() && !(#[trigger] q2[i]).modified implies q2[i].cache@
                        == block_device.block(q2[i].block_id) by {
                        if i < n {
                            if q0.len() == 16 {
                                assert(q2[i] == q0[i + 1]);
                                assert(q0[0].block_id != q0[i + 1].block_id);
                            } else {
                                assert(q2[i] == q0[i]);
                            }
                        }
                    }
                    assert forall|i: int| 0 <= i < q2.len() implies (#[trigger] q2[i]).wf() by {
                        if i < n {
                            assert(q2[i] == q1[i]);
                        }
                    }
                    lemma_cache_position(q2, block_id);
                    assert(q2[n].block_id == block_id);
                    assert(q2[n].wf());
                    assert(cache_position(q2, block_id) == n) by {
                        let p = cache_position(q2, block_id);
                        if p < n {
                            assert(q1[p].block_id != block_id);
                        }
                    }
                    assert forall|id: usize| #[trigger]
                        self.content(block_device, id) == old(self).content(&d0, id) by {
                        lemma_cache_position(q0, id);
                        lemma_cache_position(q2, id);
                        let p0 = cache_position(q0, id);
                        let p2 = cache_position(q2, id);
                        if id == block_id {
                            if q0.len() == 16 && q0[0].block_id == id {
                                assert(false);
                            }
                        } else {
                            if p2 >= 0 {
                                assert(p2 < n);
                                if q0.len() == 16 {
                                    assert(q2[p2] == q0[p2 + 1]);
                                    assert(q0[p2 + 1].block_id == id);
                                    if p0 != p2 + 1 {
                                        assert(q0[p0].block_id != q0[p2 + 1].block_id);
                                    }
                                } else {
                                    assert(q2[p2] == q0[p2]);
                                    if p0 != p2 {
                                        assert(q0[p0].block_id != q0[p2].block_id);
                                    }
                                }
                            } else {
                                if p0 >= 0 {
                                    if q0.len() == 16 {
                                        if p0 > 0 {
                                            assert(q2[p0 - 1] == q0[p0]);
                                            assert(q2[p0 - 1].block_id == id);
                                        } else {
                                            assert(q0[0].block_id == id);
                                        }
                                    } else {
                                        assert(q2[p0] == q0[p0]);
                                        assert(q2[p0].block_id == id);
                                    }
                                }
                            }
                        }
                    }
                }
                self.queue.len() - 1
            },
        }
    }

    /// The number at index `idx`, counted in numbers of four bytes, of block `block_id`.
    pub fn read_u32<D: BlockDevice>(&mut self, block_id: usize, idx: usize, block_device: &mut D) -> (r:
        u32)
        requires
            old(self).wf(old(block_device)),
            idx < 128,
        ensures
            final(self).wf(final(block_device)),
            old(self).content(old(block_device), block_id).len() == 512,
            r == u32_at(old(self).content(old(block_device), block_id), idx as int),
            forall|id: usize| #[trigger]
                final(self).content(final(block_device), id) == old(self).content(
                    old(block_device),
                    id,
                ),
    {
        let i = self.get_block_cache(block_id, block_device);
        assert(self.content(block_device, block_id) == old(self).content(
            old(block_device),
            block_id,
        ));
        assert(self.queue@[i as int].wf());
        self.queue[i].read_u32(idx)
    }

    /// Stores `value` at index `idx`, counted in numbers of four bytes, of
    /// block `block_id`. Every other block stays as it is.
    pub fn write_u32<D: BlockDevice>(
        &mut self,
        block_id: usize,
        idx: usize,
        value: u32,
        block_device: &mut D,
    )
        requires
            old(self).wf(old(block_device)),
            idx < 128,
        ensures
            final(self).wf(final(block_device)),
            old(self).content(old(block_device), block_id).len() == 512,
            forall|id: usize| #[trigger]
                final(self).content(final(block_device), id) == if id == block_id {
                    with_u32(old(self).content(old(block_device), block_id), idx as int, value)
                } else {
                    old(self).content(old(block_device), id)
                },
    {
        let i = self.get_block_cache(block_id, block_device);
        let ghost q1 = self.queue@;
        let ghost c1 = *self;
        assert(self.queue@[i as int].wf());
        self.queue[i].write_u32(idx, value);
        proof {
            lemma_changed_buffer(q1, self.queue@, i as int, block_device);
            assert forall|id: usize| #[trigger]
                self.content(block_device, id) == if id == block_id {
                    self.queue@[i as int].cache@
                } else {
                    old(self).content(old(block_device), id)
                } by {
                assert(c1.content(block_device, id) == old(self).content(old(block_device), id));
                assert(queue_content(self.queue@, block_device, id) == if id == q1[i as int].block_id {
                    self.queue@[i as int].cache@
                } else {
                    queue_content(q1, block_device, id)
                });
            }
            assert(c1.content(block_device, block_id) == old(self).content(
                old(block_device),
                block_id,
            ));
        }
    }

    /// The word at index `idx`, counted in words of eight bytes, of block `block_id`.
    pub fn read_u64<D: BlockDevice>(&mut self, block_id: usize, idx: usize, block_device: &mut D) -> (r:
        u64)
        requires
            old(self).wf(old(block_device)),
            idx < 64,
        ensures
            final(self).wf(final(block_device)),
            old(self).content(old(block_device), block_id).len() == 512,
            r == word_at(old(self).content(old(block_device), block_id), idx as int),
            forall|id: usize| #[trigger]
                final(self).content(final(block_device), id) == old(self).content(
                    old(block_device),
                    id,
                ),
    {
        let i = self.get_block_cache(block_id, block_device);
        assert(self.content(block_device, block_id) == old(self).content(
            old(block_device),
            block_id,
        ));
        assert(self.queue@[i as int].wf());
        self.queue[i].read_u64(idx)
    }

    /// Stores `value` at index `idx`, counted in words of eight bytes, of
    /// block `block_id`. Every other block stays as it is.
    pub fn write_u64<D: BlockDevice>(
        &mut self,
        block_id: usize,
        idx: usize,
        value: u64,
        block_device: &mut D,
    )
        requires
            old(self).wf(old(block_device)),
            idx < 64,
        ensures
            final(self).wf(final(block_device)),
            old(self).content(old(block_device), block_id).len() == 512,
            forall|id: usize| #[trigger]
                final(self).content(final(block_device), id) == if id == block_id {
                    with_word(old(self).content(old(block_device), block_id), idx as int, value)
                } else {
                    old(self).content(old(block_device), id)
                },
    {
        let i = self.get_block_cache(block_id, block_device);
        let ghost q1 = self.queue@;
        let ghost c1 = *self;
        assert(self.queue@[i as int].wf());
        self.queue[i].write_u64(idx, value);
        proof {
            lemma_changed_buffer(q1, self.queue@, i as int, block_device);
            assert forall|id: usize| #[trigger]
                self.content(block_device, id) == if id == block_id {
                    self.queue@[i as int].cache@
                } else {
                    old(self).content(old(block_device), id)
                } by {
                assert(c1.content(block_device, id) == old(self).content(old(block_device), id));
                assert(queue_content(self.queue@, block_device, id) == if id == q1[i as int].block_id {
                    self.queue@[i as int].cache@
                } else {
                    queue_content(q1, block_device, id)
                });
            }
            assert(c1.content(block_device, block_id) == old(self).content(
                old(block_device),
                block_id,
            ));
        }
    }

    /// The `len` bytes from `offset` on of block `block_id`.
    pub fn read_bytes<D: BlockDevice>(
        &mut self,
        block_id: usize,
        offset: usize,
        len: usize,
        block_device: &mut D,
    ) -> (r: Vec<u8>)
        requires
            old(self).wf(old(block_device)),
            offset + len <= 512,
        ensures
            final(self).wf(final(block_device)),
            old(self).content(old(block_device), block_id).len() == 512,
            r@ == old(self).content(old(block_device), block_id).subrange(
                offset as int,
                offset + len,
            ),
            forall|id: usize| #[trigger]
                final(self).content(final(block_device), id) == old(self).content(
                    old(block_device),
                    id,
                ),
    {
        let i = self.get_block_cache(block_id, block_device);
        assert(self.content(block_device, block_id) == old(self).content(
            old(block_device),
            block_id,
        ));
        assert(self.queue@[i as int].wf());
        let piece = slice_subrange(self.queue[i].cache.as_slice(), offset, offset + len);
        vstd::slice::slice_to_vec(piece)
    }

    /// Stores `data` from `offset` on in block `block_id`. Every other block
    /// stays as it is.
    pub fn write_bytes<D: BlockDevice>(
        &mut self,
        block_id: usize,
        offset: usize,
        data: &[u8],
        block_device: &mut D,
    )
        requires
            old(self).wf(old(block_device)),
            offset + data@.len() <= 512,
        ensures
            final(self).wf(final(block_device)),
            old(self).content(old(block_device), block_id).len() == 512,
            forall|id: usize| #[trigger]
                final(self).content(final(block_device), id) == if id == block_id {
                    with_bytes(old(self).content(old(block_device), block_id), offset as int, data@)
                } else {
                    old(self).content(old(block_device), id)
                },
    {
        let i = self.get_block_cache(block_id, block_device);
        let ghost q1 = self.queue@;
        let ghost c1 = *self;
        assert(self.queue@[i as int].wf());
        self.queue[i].write_bytes(offset, data);
        proof {
            lemma_changed_buffer(q1, self.queue@, i as int, block_device);
            assert forall|id: usize| #[trigger]
                self.content(block_device, id) == if id == block_id {
                    self.queue@[i as int].cache@
                } else {
                    old(self).content(old(block_device), id)
                } by {
                assert(c1.content(block_device, id) == old(self).content(old(block_device), id));
                assert(queue_content(self.queue@, block_device, id) == if id == q1[i as int].block_id {
                    self.queue@[i as int].cache@
                } else {
                    queue_content(q1, block_device, id)
                });
            }
            assert(c1.content(block_device, block_id) == old(self).content(
                old(block_device),
                block_id,
            ));
        }
    }

    /// Writes every block that was changed back to the device. Afterwards
    /// the device holds each block as the file system sees it.
    pub fn sync_all<D: BlockDevice>(&mut self, block_device: &mut D)
        requires
            old(self).wf(old(block_device)),
        ensures
            final(self).wf(final(block_device)),
            final(self).queue@.len() == old(self).queue@.len(),
            forall|i: int|
                0 <= i < final(self).queue@.len() ==> !(#[trigger] final(self).queue@[i]).modified
                    && final(self).queue@[i].block_id == old(self).queue@[i].block_id
                    && final(self).queue@[i].cache@ == old(self).queue@[i].cache@,
            forall|id: usize| #[trigger]
                final(block_device).block(id) == old(self).content(old(block_device), id),
            forall|id: usize| #[trigger]
                final(self).content(final(block_device), id) == old(self).content(
                    old(block_device),
                    id,
                ),
    {
        let ghost q0 = self.queue@;
        let ghost d0 = *old(block_device);
        let mut i: usize = 0;
        while i < self.queue.len()
            invariant
                q0 == old(self).queue@,
                d0 == *old(block_device),
                old(self).wf(&d0),
                0 <= i <= self.queue@.len(),
                self.queue@.len() == q0.len(),
                block_device.inv(),
                forall|j: int|
                    0 <= j < q0.len() ==> (#[trigger] self.queue@[j]).block_id == q0[j].block_id
                        && self.queue@[j].cache@ == q0[j].cache@,
                forall|j: int| 0 <= j < i ==> !(#[trigger] self.queue@[j]).modified,
                forall|j: int| i <= j < q0.len() ==> #[trigger] self.queue@[j] == q0[j],
                forall|id: usize| #[trigger]
                    block_device.block(id) == if 0 <= cache_position(q0, id) < i {
                        q0[cache_position(q0, id)].cache@
                    } else {
                        d0.block(id)
                    },
            decreases self.queue@.len() - i,
        {
            let ghost d1 = *block_device;
            self.queue[i].sync(block_device);
            proof {
                assert forall|id: usize| #[trigger]
                    block_device.block(id) == if 0 <= cache_position(q0, id) < i + 1 {
                        q0[cache_position(q0, id)].cache@
                    } else {
                        d0.block(id)
                    } by {
                    lemma_cache_position(q0, id);
                    let p = cache_position(q0, id);
                    if id == q0[i as int].block_id {
                        if p != i {
                            assert(q0[p].block_id != q0[i as int].block_id);
                        }
                    } else {
                        if p == i {
                            assert(false);
                        }
                    }
                }
            }
            i += 1;
        }
        proof {
            let q2 = self.queue@;
            assert forall|j: int| 0 <= j < q2.len() implies (#[trigger] q2[j]).wf() by {
                assert(q0[j].wf());
            }
            assert forall|a: int, b: int| 0 <= a < b < q2.len() implies (#[trigger] q2[a]).block_id
                != (#[trigger] q2[b]).block_id by {
                assert(q0[a].block_id != q0[b].block_id);
            }
            assert forall|j: int| 0 <= j < q2.len() && !(#[trigger] q2[j]).modified implies q2[j].cache@
                == block_device.block(q2[j].block_id) by {
                let id = q0[j].block_id;
                lemma_cache_position(q0, id);
                let p = cache_position(q0, id);
                if p != j {
                    assert(q0[p].block_id != q0[j].block_id);
                }
            }
            assert forall|id: usize| #[trigger]
                block_device.block(id) == old(self).content(&d0, id) by {
                lemma_cache_position(q0, id);
            }
            assert forall|id: usize| #[trigger]
                self.content(block_device, id) == old(self).content(&d0, id) by {
                lemma_positions_same(self.queue@, q0, id);
                lemma_cache_position(q0, id);
            }
        }
    }
}

/// Where one buffer of a cache was changed and is marked so, the cache is in
/// order as before, and the file system sees the new bytes in that block and
/// what it saw before in every other.
pub proof fn lemma_changed_buffer<D: BlockDevice>(
    q1: Seq<BlockCache>,
    q2: Seq<BlockCache>,
    i: int,
    dev: &D,
)
    requires
        queue_wf(q1, dev),
        0 <= i < q1.len(),
        q2.len() == q1.len(),
        forall|j: int| 0 <= j < q1.len() && j != i ==> #[trigger] q2[j] == q1[j],
        q2[i].block_id == q1[i].block_id,
        q2[i].wf(),
        q2[i].modified,
    ensures
        queue_wf(q2, dev),
        forall|id: usize| #[trigger]
            queue_content(q2, dev, id) == if id == q1[i].block_id {
                q2[i].cache@
            } else {
                queue_content(q1, dev, id)
            },
{
    assert forall|j: int| 0 <= j < q2.len() implies (#[trigger] q2[j]).wf() by {
        if j != i {
            assert(q2[j] == q1[j]);
        }
    }
    assert forall|a: int, b: int| 0 <= a < b < q2.len() implies (#[trigger] q2[a]).block_id != (
    #[trigger] q2[b]).block_id by {
        assert(q1[a].block_id != q1[b].block_id);
    }
    assert forall|j: int| 0 <= j < q2.len() && !(#[trigger] q2[j]).modified implies q2[j].cache@
        == dev.block(q2[j].block_id) by {
        assert(q2[j] == q1[j]);
    }
    assert forall|id: usize| #[trigger]
        queue_content(q2, dev, id) == if id == q1[i].block_id {
            q2[i].cache@
        } else {
            queue_content(q1, dev, id)
        } by {
        lemma_positions_same(q2, q1, id);
        lemma_cache_position(q1, id);
        let p = cache_position(q1, id);
        if id == q1[i].block_id {
            if p != i {
                assert(q1[p].block_id != q1[i].block_id);
            }
        } else if p >= 0 {
            assert(q2[p] == q1[p]);
        }
    }
}

/// What `BlockCacheManager::wf` says, of the queue alone.
pub open spec fn queue_wf<D: BlockDevice>(queue: Seq<BlockCache>, dev: &D) -> bool {
    &&& dev.inv()
    &&& queue.len() <= 16
    &&& forall|i: int| 0 <= i < queue.len() ==> (#[trigger] queue[i]).wf()
    &&& forall|i: int, j: int|
        0 <= i < j < queue.len() ==> (#[trigger] queue[i]).block_id != (#[trigger] queue[j]).block_id
    &&& forall|i: int|
        0 <= i < queue.len() && !(#[trigger] queue[i]).modified ==> queue[i].cache@ == dev.block(
            queue[i].block_id,
        )
}

/// What `BlockCacheManager::content` gives, of the queue alone.
pub open spec fn queue_content<D: BlockDevice>(queue: Seq<BlockCache>, dev: &D, block_id: usize) -> Seq<
    u8,
> {
    if cache_position(queue, block_id) >= 0 {
        queue[cache_position(queue, block_id)].cache@
    } else {
        dev.block(block_id)
    }
}

/// Queues that hold the same blocks at the same places give the same position.
pub proof fn lemma_positions_same(q1: Seq<BlockCache>, q0: Seq<BlockCache>, id: usize)
    requires
        q1.len() == q0.len(),
        forall|j: int| 0 <= j < q0.len() ==> (#[trigger] q1[j]).block_id == q0[j].block_id,
    ensures
        cache_position(q1, id) == cache_position(q0, id),
    decreases q1.len(),
{
    if q1.len() > 0 {
        assert forall|j: int| 0 <= j < q0.drop_last().len() implies (#[trigger] q1.drop_last()[j]).block_id
            == q0.drop_last()[j].block_id by {
            assert(q1[j].block_id == q0[j].block_id);
        }
        lemma_positions_same(q1.drop_last(), q0.drop_last(), id);
        assert(q1[q1.len() - 1].block_id == q0[q0.len() - 1].block_id);
    }
}

/// Makes sure that block `block_id` is held by the cache; see
/// `BlockCacheManager::get_block_cache`.
pub fn get_block_cache<D: BlockDevice>(
    manager: &mut BlockCacheManager,
    block_id: usize,
    block_device: &mut D,
) -> (r: usize)
    requires
        old(manager).wf(old(block_device)),
    ensures
        final(manager).wf(final(block_device)),
        r == cache_position(final(manager).queue@, block_id),
        r < final(manager).queue@.len(),
        forall|id: usize| #[trigger]
            final(manager).content(final(block_device), id) == old(manager).content(
                old(block_device),
                id,
            ),
{
    manager.get_block_cache(block_id, block_device)
}

/// Writes every changed block of the cache back to the device; see
/// `BlockCacheManager::sync_all`.
pub fn block_cache_sync_all<D: BlockDevice>(manager: &mut BlockCacheManager, block_device: &mut D)
    requires
        old(manager).wf(old(block_device)),
    ensures
        final(manager).wf(final(block_device)),
        forall|id: usize| #[trigger]
            final(block_device).block(id) == old(manager).content(old(block_device), id),
        forall|id: usize| #[trigger]
            final(manager).content(final(block_device), id) == old(manager).content(
                old(block_device),
                id,
            ),
{
    manager.sync_all(block_device);
}

} // verus!
