//! Where the inodes and the data blocks of a file system lie, and inodes as
//! they lie on the disk: 32 numbers of four bytes, little-endian, four
//! inodes to a block.
use vstd::prelude::*;
use super::block_cache::{u32_at, with_u32, BlockCacheManager};
use super::block_dev::BlockDevice;
use super::bitmap::Bitmap;
use super::layout::{DiskInode, DiskInodeType, InodeMap};

verus! {

/// The block that holds inode `inode_id` and the index, counted in numbers
/// of four bytes, at which the inode starts in the block.
pub fn get_disk_inode_pos(inode_area_start_block: u32, inode_id: u32) -> (r: (u32, usize))
    requires
        inode_area_start_block + inode_id / 4 <= u32::MAX,
    ensures
        r.0 == inode_area_start_block + inode_id / 4,
        r.1 == (inode_id % 4) * 32,
{
    (inode_area_start_block + inode_id / 4, (inode_id % 4) as usize * 32)
}

/// The block that holds data block `data_block_id`.
pub fn get_data_block_id(data_area_start_block: u32, data_block_id: u32) -> (r: u32)
    requires
        data_area_start_block + data_block_id <= u32::MAX,
    ensures
        r == data_area_start_block + data_block_id,
{
    data_area_start_block + data_block_id
}

/// Whether `inode` is the inode that lies in `block` from index `at` on:
/// its size, its 28 direct block numbers, the numbers of its two blocks of
/// block numbers, and its kind, 1 for a directory.
pub open spec fn inode_at(block: Seq<u8>, at: int, inode: DiskInode) -> bool {
    &&& inode.size == u32_at(block, at)
    &&& forall|i: int| 0 <= i < 28 ==> #[trigger] inode.direct@[i] == u32_at(block, at + 1 + i)
    &&& inode.indirect1 == u32_at(block, at + 29)
    &&& inode.indirect2 == u32_at(block, at + 30)
    &&& (inode.type_ == DiskInodeType::Directory) == (u32_at(block, at + 31) == 1)
}

/// The inode that lies in block `block_id` from index `at` on.
pub fn read_disk_inode<D: BlockDevice>(
    block_id: usize,
    at: usize,
    cache: &mut BlockCacheManager,
    block_device: &mut D,
) -> (r: DiskInode)
    requires
        old(cache).wf(old(block_device)),
        at + 32 <= 128,
    ensures
        final(cache).wf(final(block_device)),
        forall|id: usize| #[trigger]
            final(cache).content(final(block_device), id) == old(cache).content(old(block_device), id),
        inode_at(old(cache).content(old(block_device), block_id), at as int, r),
{
    let ghost block = cache.content(block_device, block_id);
    let size = cache.read_u32(block_id, at, block_device);
    let mut direct: [u32; 28] = [0; 28];
    let mut i: usize = 0;
    while i < 28
        invariant
            0 <= i <= 28,
            at + 32 <= 128,
            cache.wf(block_device),
            forall|id: usize| #[trigger]
                cache.content(block_device, id) == old(cache).content(old(block_device), id),
            block == old(cache).content(old(block_device), block_id),
            forall|k: int| 0 <= k < i ==> #[trigger] direct@[k] == u32_at(block, at + 1 + k),
        decreases 28 - i,
    {
        let v = cache.read_u32(block_id, at + 1 + i, block_device);
        direct[i] = v;
        i += 1;
    }
    let indirect1 = cache.read_u32(block_id, at + 29, block_device);
    let indirect2 = cache.read_u32(block_id, at + 30, block_device);
    let kind = cache.read_u32(block_id, at + 31, block_device);
    let type_ = if kind == 1 {
        DiskInodeType::Directory
    } else {
        DiskInodeType::File
    };
    DiskInode { size, direct, indirect1, indirect2, type_ }
}

/// The block `block` with the 32 numbers of `inode` from index `at` on, the
/// first `n` of them written.
pub open spec fn with_inode(block: Seq<u8>, at: int, inode: DiskInode, n: int) -> Seq<u8>
    decreases n,
{
    if n <= 0 {
        block
    } else {
        let before = with_inode(block, at, inode, n - 1);
        let value = if n == 1 {
            inode.size
        } else if n <= 29 {
            inode.direct@[n - 2]
        } else if n == 30 {
            inode.indirect1
        } else if n == 31 {
            inode.indirect2
        } else if inode.type_ == DiskInodeType::Directory {
            1u32
        } else {
            0u32
        };
        with_u32(before, at + n - 1, value)
    }
}

/// Writes `inode` into block `block_id` from index `at` on. Every other
/// block stays as it is.
pub fn write_disk_inode<D: BlockDevice>(
    inode: &DiskInode,
    block_id: usize,
    at: usize,
    cache: &mut BlockCacheManager,
    block_device: &mut D,
)
    requires
        old(cache).wf(old(block_device)),
        at + 32 <= 128,
    ensures
        final(cache).wf(final(block_device)),
        old(cache).content(old(block_device), block_id).len() == 512,
        forall|id: usize| #[trigger]
            final(cache).content(final(block_device), id) == if id == block_id {
                with_inode(old(cache).content(old(block_device), block_id), at as int, *inode, 32)
            } else {
                old(cache).content(old(block_device), id)
            },
{
    let ghost block = cache.content(block_device, block_id);
    cache.write_u32(block_id, at, inode.size, block_device);
    proof {
        assert(with_inode(block, at as int, *inode, 0) == block);
        assert(with_inode(block, at as int, *inode, 1) == with_u32(block, at as int, inode.size));
    }
    let mut i: usize = 0;
    while i < 28
        invariant
            0 <= i <= 28,
            at + 32 <= 128,
            cache.wf(block_device),
            block == old(cache).content(old(block_device), block_id),
            forall|id: usize| #[trigger]
                cache.content(block_device, id) == if id == block_id {
                    with_inode(block, at as int, *inode, i + 1)
                } else {
                    old(cache).content(old(block_device), id)
                },
        decreases 28 - i,
    {
        cache.write_u32(block_id, at + 1 + i, inode.direct[i], block_device);
        proof {
            assert(with_inode(block, at as int, *inode, i + 2) == with_u32(
                with_inode(block, at as int, *inode, i + 1),
                at + i + 1,
                inode.direct@[i as int],
            ));
        }
        i += 1;
    }
    cache.write_u32(block_id, at + 29, inode.indirect1, block_device);
    proof {
        assert(with_inode(block, at as int, *inode, 30) == with_u32(
            with_inode(block, at as int, *inode, 29),
            at + 29,
            inode.indirect1,
        ));
    }
    cache.write_u32(block_id, at + 30, inode.indirect2, block_device);
    proof {
        assert(with_inode(block, at as int, *inode, 31) == with_u32(
            with_inode(block, at as int, *inode, 30),
            at + 30,
            inode.indirect2,
        ));
    }
    let kind: u32 = match inode.type_ {
        DiskInodeType::Directory => 1,
        DiskInodeType::File => 0,
    };
    cache.write_u32(block_id, at + 31, kind, block_device);
    proof {
        assert(with_inode(block, at as int, *inode, 32) == with_u32(
            with_inode(block, at as int, *inode, 31),
            at + 31,
            kind,
        ));
    }
}

/// Number `k` of the 32 numbers that stand for `inode` on the disk.
pub open spec fn inode_word(inode: DiskInode, k: int) -> u32 {
    if k == 0 {
        inode.size
    } else if k <= 28 {
        inode.direct@[k - 1]
    } else if k == 29 {
        inode.indirect1
    } else if k == 30 {
        inode.indirect2
    } else if inode.type_ == DiskInodeType::Directory {
        1u32
    } else {
        0u32
    }
}

/// The first `n` numbers of an inode that has been written are in the
/// block, and the numbers of the block outside the inode are as they were.
pub proof fn lemma_with_inode(block: Seq<u8>, at: int, inode: DiskInode, n: int)
    requires
        block.len() == 512,
        0 <= at,
        at + 32 <= 128,
        0 <= n <= 32,
    ensures
        with_inode(block, at, inode, n).len() == 512,
        forall|k: int| 0 <= k < n ==> #[trigger] u32_at(with_inode(block, at, inode, n), at + k)
            == inode_word(inode, k),
        forall|j: int|
            0 <= j < 128 && !(at <= j < at + n) ==> #[trigger] u32_at(
                with_inode(block, at, inode, n),
                j,
            ) == u32_at(block, j),
    decreases n,
{
    if n > 0 {
        lemma_with_inode(block, at, inode, n - 1);
        let before = with_inode(block, at, inode, n - 1);
        super::block_cache::lemma_with_u32(before, at + n - 1, inode_word(inode, n - 1));
        assert(with_inode(block, at, inode, n) == with_u32(
            before,
            at + n - 1,
            inode_word(inode, n - 1),
        ));
        assert forall|k: int| 0 <= k < n implies #[trigger] u32_at(
            with_inode(block, at, inode, n),
            at + k,
        ) == inode_word(inode, k) by {
            if k < n - 1 {
                assert(u32_at(before, at + k) == inode_word(inode, k));
            }
        }
    }
}

/// An inode that has been written to the disk is the inode that is read
/// there, and the other inodes of the block are as they were.
pub proof fn lemma_inode_round_trip(block: Seq<u8>, at: int, inode: DiskInode, other: int, o: DiskInode)
    requires
        block.len() == 512,
        0 <= at,
        at + 32 <= 128,
        0 <= other,
        other + 32 <= 128,
        other + 32 <= at || at + 32 <= other,
        inode_at(block, other, o),
    ensures
        inode_at(with_inode(block, at, inode, 32), at, inode),
        inode_at(with_inode(block, at, inode, 32), other, o),
{
    lemma_with_inode(block, at, inode, 32);
    let w = with_inode(block, at, inode, 32);
    assert(u32_at(w, at + 0) == inode_word(inode, 0));
    assert forall|i: int| 0 <= i < 28 implies #[trigger] inode.direct@[i] == u32_at(w, at + 1 + i) by {
        assert(u32_at(w, at + (1 + i)) == inode_word(inode, 1 + i));
    }
    assert(u32_at(w, at + 29) == inode_word(inode, 29));
    assert(u32_at(w, at + 30) == inode_word(inode, 30));
    assert(u32_at(w, at + 31) == inode_word(inode, 31));
    assert(u32_at(w, other) == u32_at(block, other));
    assert forall|i: int| 0 <= i < 28 implies #[trigger] o.direct@[i] == u32_at(w, other + 1 + i) by {
        assert(u32_at(w, other + 1 + i) == u32_at(block, other + 1 + i));
    }
    assert(u32_at(w, other + 29) == u32_at(block, other + 29));
    assert(u32_at(w, other + 30) == u32_at(block, other + 30));
    assert(u32_at(w, other + 31) == u32_at(block, other + 31));
}

/// Where the parts of a file system lie: the bitmap of the inodes, the
/// bitmap of the data blocks, the first block of the inodes and the first
/// data block. Inode 0 is the directory.
pub struct EasyFileSystem {
    pub inode_bitmap: Bitmap,
    pub data_bitmap: Bitmap,
    pub inode_area_start_block: u32,
    pub data_area_start_block: u32,
}

/// The block map of the inode that lies in `block` from index `at` on.
pub open spec fn disk_map(block: Seq<u8>, at: int) -> InodeMap {
    InodeMap {
        direct: Seq::new(28, |i: int| u32_at(block, at + 1 + i)),
        indirect1: u32_at(block, at + 29),
        indirect2: u32_at(block, at + 30),
    }
}

/// An inode that lies in a block has the block map that the block holds.
pub proof fn lemma_disk_map(block: Seq<u8>, at: int, inode: DiskInode)
    requires
        inode_at(block, at, inode),
    ensures
        inode.map() == disk_map(block, at),
        inode.size == u32_at(block, at),
{
    assert(inode.map().direct =~= disk_map(block, at).direct);
}

/// The file system whose super block holds the given sizes, if the sizes
/// fit: the bitmap of the inodes lies behind the super block, then the
/// inodes, the bitmap of the data blocks and the data blocks.
pub open spec fn laid_out(inode_bitmap_blocks: u32, inode_area_blocks: u32, data_bitmap_blocks: u32) -> Option<
    EasyFileSystem,
> {
    if 1 + inode_bitmap_blocks + inode_area_blocks + data_bitmap_blocks <= u32::MAX
        && inode_bitmap_blocks * 4096 <= usize::MAX && data_bitmap_blocks * 4096 <= usize::MAX {
        Some(
            EasyFileSystem {
                inode_bitmap: Bitmap { start_block_id: 1, blocks: inode_bitmap_blocks as usize },
                data_bitmap: Bitmap {
                    start_block_id: (1 + inode_bitmap_blocks + inode_area_blocks) as usize,
                    blocks: data_bitmap_blocks as usize,
                },
                inode_area_start_block: (1 + inode_bitmap_blocks) as u32,
                data_area_start_block: (1 + inode_bitmap_blocks + inode_area_blocks
                    + data_bitmap_blocks) as u32,
            },
        )
    } else {
        None
    }
}

impl EasyFileSystem {
    /// The file system on a disk: block 0 must carry the mark of a super
    /// block, and the sizes that it holds must fit; see `laid_out`.
    pub fn open<D: BlockDevice>(cache: &mut BlockCacheManager, block_device: &mut D) -> (r: Option<Self>)
        requires
            old(cache).wf(old(block_device)),
        ensures
            final(cache).wf(final(block_device)),
            forall|b: usize| #[trigger]
                final(cache).content(final(block_device), b) == old(cache).content(old(block_device), b),
            ({
                let block = old(cache).content(old(block_device), 0);
                r == if u32_at(block, 0) == super::layout::EFS_MAGIC {
                    laid_out(u32_at(block, 2), u32_at(block, 3), u32_at(block, 4))
                } else {
                    None
                }
            }),
            r.is_some() ==> r.unwrap().wf(),
    {
        let magic = cache.read_u32(0, 0, block_device);
        let inode_bitmap_blocks = cache.read_u32(0, 2, block_device);
        let inode_area_blocks = cache.read_u32(0, 3, block_device);
        let data_bitmap_blocks = cache.read_u32(0, 4, block_device);
        if magic != super::layout::EFS_MAGIC {
            return None;
        }
        let end: u128 = 1 + inode_bitmap_blocks as u128 + inode_area_blocks as u128
            + data_bitmap_blocks as u128;
        if end > u32::MAX as u128 || inode_bitmap_blocks as u128 * 4096 > usize::MAX as u128
            || data_bitmap_blocks as u128 * 4096 > usize::MAX as u128 {
            return None;
        }
        Some(
            Self {
                inode_bitmap: Bitmap::new(1, inode_bitmap_blocks as usize),
                data_bitmap: Bitmap::new(
                    (1 + inode_bitmap_blocks + inode_area_blocks) as usize,
                    data_bitmap_blocks as usize,
                ),
                inode_area_start_block: 1 + inode_bitmap_blocks,
                data_area_start_block: 1 + inode_bitmap_blocks + inode_area_blocks
                    + data_bitmap_blocks,
            },
        )
    }

    /// The bitmaps are in order.
    pub open spec fn wf(&self) -> bool {
        self.inode_bitmap.wf() && self.data_bitmap.wf()
    }

    /// The block that holds inode `id`.
    pub open spec fn inode_block(&self, id: u32) -> int {
        self.inode_area_start_block + id / 4
    }

    /// The index, counted in numbers of four bytes, at which inode `id`
    /// starts in its block.
    pub open spec fn inode_index(&self, id: u32) -> int {
        (id % 4) * 32
    }

    /// Inode `id` as it lies on the disk; `None` where the number of its
    /// block does not fit 32 bits.
    pub fn read_inode<D: BlockDevice>(&self, id: u32, cache: &mut BlockCacheManager, block_device: &mut D) -> (r:
        Option<DiskInode>)
        requires
            old(cache).wf(old(block_device)),
        ensures
            final(cache).wf(final(block_device)),
            forall|b: usize| #[trigger]
                final(cache).content(final(block_device), b) == old(cache).content(old(block_device), b),
            r.is_some() == (self.inode_block(id) <= u32::MAX),
            r.is_some() ==> inode_at(
                old(cache).content(old(block_device), self.inode_block(id) as usize),
                self.inode_index(id),
                r.unwrap(),
            ),
    {
        if id / 4 > u32::MAX - self.inode_area_start_block {
            return None;
        }
        let (block, at) = get_disk_inode_pos(self.inode_area_start_block, id);
        Some(read_disk_inode(block as usize, at, cache, block_device))
    }

    /// Writes inode `id` to its place on the disk; nothing is written, and
    /// the result is `false`, where the number of its block does not fit 32
    /// bits.
    pub fn write_inode<D: BlockDevice>(
        &self,
        id: u32,
        inode: &DiskInode,
        cache: &mut BlockCacheManager,
        block_device: &mut D,
    ) -> (done: bool)
        requires
            old(cache).wf(old(block_device)),
        ensures
            final(cache).wf(final(block_device)),
            done == (self.inode_block(id) <= u32::MAX),
            done ==> old(cache).content(old(block_device), self.inode_block(id) as usize).len()
                == 512,
            forall|b: usize| #[trigger]
                final(cache).content(final(block_device), b) == if done && b == self.inode_block(id) {
                    with_inode(old(cache).content(old(block_device), b), self.inode_index(id), *inode, 32)
                } else {
                    old(cache).content(old(block_device), b)
                },
    {
        if id / 4 > u32::MAX - self.inode_area_start_block {
            return false;
        }
        let (block, at) = get_disk_inode_pos(self.inode_area_start_block, id);
        write_disk_inode(inode, block as usize, at, cache, block_device);
        true
    }

    /// Hands out a data block: the lowest number that the bitmap of the data
    /// blocks has free, as the number of its block on the disk. `None`
    /// where no number is free or the number of the block does not fit 32
    /// bits; the bitmap is as it was then.
    pub fn alloc_data<D: BlockDevice>(&self, cache: &mut BlockCacheManager, block_device: &mut D) -> (r:
        Option<u32>)
        requires
            self.wf(),
            old(cache).wf(old(block_device)),
        ensures
            final(cache).wf(final(block_device)),
            r.is_some() ==> {
                let bit = (r.unwrap() - self.data_area_start_block) as usize;
                &&& r.unwrap() >= self.data_area_start_block
                &&& super::bitmap::handed_out(
                    self.data_bitmap,
                    old(cache),
                    old(block_device),
                    final(cache),
                    final(block_device),
                    bit,
                )
                &&& self.data_bitmap.is_set(final(cache), final(block_device), bit as int)
            },
            r.is_none() ==> forall|b: usize| #[trigger]
                final(cache).content(final(block_device), b) == old(cache).content(old(block_device), b),
            (exists|bit: int|
                0 <= bit < self.data_bitmap.blocks * 4096 && self.data_area_start_block + bit
                    <= u32::MAX && !#[trigger] self.data_bitmap.is_set(
                    old(cache),
                    old(block_device),
                    bit,
                )) ==> r.is_some(),
    {
        let ghost c0 = *cache;
        let ghost d0 = *block_device;
        match self.data_bitmap.allocate(cache, block_device) {
            None => None,
            Some(bit) => {
                if bit as u128 + self.data_area_start_block as u128 > u32::MAX as u128 {
                    let ghost blk = (self.data_bitmap.start_block_id + bit / 4096) as usize;
                    let ghost c1 = *cache;
                    let ghost d1 = *block_device;
                    self.data_bitmap.dealloc(cache, block_device, bit);
                    proof {
                        let before = c0.content(&d0, blk);
                        super::bitmap::lemma_alloc_dealloc_round_trip(
                            before,
                            (bit % 4096 / 64) as int,
                            (bit % 64) as u64,
                        );
                        assert forall|b: usize| #[trigger]
                            cache.content(block_device, b) == c0.content(&d0, b) by {
                            assert(c1.content(&d1, b) == if b == blk {
                                crate::mm::frame_allocator::with_word(
                                    before,
                                    (bit % 4096 / 64) as int,
                                    crate::mm::frame_allocator::word_at(before, (bit % 4096 / 64) as int)
                                        | (1u64 << ((bit % 64) as u64)),
                                )
                            } else {
                                c0.content(&d0, b)
                            });
                        }
                    }
                    return None;
                }
                Some(self.data_area_start_block + bit as u32)
            },
        }
    }

    /// The bit of the bitmap of the data blocks that stands for block
    /// `block` of the disk, or -1 where the block is no data block.
    pub open spec fn data_bit(&self, block: u32) -> int {
        if block >= self.data_area_start_block && block - self.data_area_start_block
            < self.data_bitmap.blocks * 4096 {
            block - self.data_area_start_block
        } else {
            -1
        }
    }

    /// Whether one of the first `n` of `blocks` is the data block of bit `bit`.
    pub open spec fn names_bit(&self, blocks: Seq<u32>, n: int, bit: int) -> bool {
        exists|k: int| 0 <= k < n && k < blocks.len() && #[trigger] self.data_bit(blocks[k]) == bit
    }

    /// Gives the data blocks `blocks` back to the bitmap of the data
    /// blocks: the bit of each of them is clear afterwards, and the other
    /// bits are as they were. Numbers that are no data blocks are passed over.
    pub fn dealloc_blocks<D: BlockDevice>(&self, blocks: &Vec<u32>, cache: &mut BlockCacheManager, block_device: &mut D)
        requires
            self.wf(),
            old(cache).wf(old(block_device)),
        ensures
            final(cache).wf(final(block_device)),
            forall|b: usize|
                !(self.data_bitmap.start_block_id <= b < self.data_bitmap.start_block_id
                    + self.data_bitmap.blocks) ==> #[trigger] final(cache).content(
                    final(block_device),
                    b,
                ) == old(cache).content(old(block_device), b),
            forall|bit: int|
                0 <= bit < self.data_bitmap.blocks * 4096 ==> #[trigger] self.data_bitmap.is_set(
                    final(cache),
                    final(block_device),
                    bit,
                ) == (self.data_bitmap.is_set(old(cache), old(block_device), bit) && !self.names_bit(
                    blocks@,
                    blocks@.len() as int,
                    bit,
                )),
    {
        let mut i: usize = 0;
        while i < blocks.len()
            invariant
                0 <= i <= blocks@.len(),
                self.wf(),
                cache.wf(block_device),
                forall|b: usize|
                    !(self.data_bitmap.start_block_id <= b < self.data_bitmap.start_block_id
                        + self.data_bitmap.blocks) ==> #[trigger] cache.content(block_device, b)
                        == old(cache).content(old(block_device), b),
                forall|bit: int|
                    0 <= bit < self.data_bitmap.blocks * 4096 ==> #[trigger] self.data_bitmap.is_set(
                        cache,
                        block_device,
                        bit,
                    ) == (self.data_bitmap.is_set(old(cache), old(block_device), bit)
                        && !self.names_bit(blocks@, i as int, bit)),
            decreases blocks@.len() - i,
        {
            let block = blocks[i];
            let ghost c1 = *cache;
            let ghost d1 = *block_device;
            if block >= self.data_area_start_block {
                let bit: usize = (block - self.data_area_start_block) as usize;
                if bit < self.data_bitmap.maximum() {
                    assert(bit / 4096 < self.data_bitmap.blocks);
                    if self.data_bitmap.is_allocated(cache, block_device, bit) {
                        self.data_bitmap.dealloc(cache, block_device, bit);
                    }
                }
            }
            proof {
                let here = self.data_bit(block);
                assert forall|bit: int| 0 <= bit < self.data_bitmap.blocks * 4096 implies #[trigger] self.data_bitmap.is_set(
                    cache,
                    block_device,
                    bit,
                ) == (self.data_bitmap.is_set(old(cache), old(block_device), bit) && !self.names_bit(
                    blocks@,
                    i + 1,
                    bit,
                )) by {
                    assert(bit / 4096 < self.data_bitmap.blocks);
                    if self.names_bit(blocks@, i as int, bit) {
                        let k = choose|k: int|
                            0 <= k < i && k < blocks@.len() && #[trigger] self.data_bit(blocks@[k]) == bit;
                        assert(self.data_bit(blocks@[k]) == bit);
                    }
                    if self.names_bit(blocks@, i + 1, bit) && !self.names_bit(blocks@, i as int, bit) {
                        let k = choose|k: int|
                            0 <= k < i + 1 && k < blocks@.len() && #[trigger] self.data_bit(blocks@[k])
                                == bit;
                        assert(k == i);
                    }
                    if here == bit {
                        assert(self.data_bit(blocks@[i as int]) == bit);
                    }
                    assert(self.data_bitmap.is_set(&c1, &d1, bit) == (self.data_bitmap.is_set(
                        old(cache),
                        old(block_device),
                        bit,
                    ) && !self.names_bit(blocks@, i as int, bit)));
                }
            }
            i += 1;
        }
    }
}

} // verus!
