//! What lies on the disk: the super block, inodes and directory entries.
//!
//! An inode maps the blocks of a file to blocks of the device: the first 28
//! directly, the next 128 through one block of block numbers, and the rest
//! through a block of numbers of such blocks.
use vstd::prelude::*;
use vstd::string::StringSliceAdditionalSpecFns;
use vstd::bytes::{spec_u32_from_le_bytes, spec_u32_to_le_bytes, u32_from_le_bytes, u32_to_le_bytes};
use super::block_cache::{lemma_with_u32, u32_at, with_bytes, with_u32, BlockCacheManager};
use super::block_dev::BlockDevice;

verus! {

/// The number that marks a super block.
pub const EFS_MAGIC: u32 = 0x3b800001;

/// Number of blocks that an inode names directly.
pub const INODE_DIRECT_COUNT: usize = 28;

/// Greatest length of the name of a directory entry.
pub const NAME_LENGTH_LIMIT: usize = 27;

/// Number of block numbers in a block.
pub const INODE_INDIRECT1_COUNT: usize = 128;

/// Number of blocks that an inode names through the block of blocks of numbers.
pub const INODE_INDIRECT2_COUNT: usize = 16384;

/// Number of blocks that an inode names directly or through one block of numbers.
pub const INDIRECT1_BOUND: usize = 156;

/// Greatest number of blocks of a file.
pub const INDIRECT2_BOUND: usize = 16540;

/// The first block of a file system: a mark, the number of blocks of the
/// file system, and the sizes of its four regions in blocks.
#[derive(Copy, Clone, Debug)]
pub struct SuperBlock {
    pub magic: u32,
    pub total_blocks: u32,
    pub inode_bitmap_blocks: u32,
    pub inode_area_blocks: u32,
    pub data_bitmap_blocks: u32,
    pub data_area_blocks: u32,
}

impl SuperBlock {
    /// Sets the mark and the sizes.
    pub fn initialize(
        &mut self,
        total_blocks: u32,
        inode_bitmap_blocks: u32,
        inode_area_blocks: u32,
        data_bitmap_blocks: u32,
        data_area_blocks: u32,
    )
        ensures
            final(self).magic == EFS_MAGIC,
            final(self).total_blocks == total_blocks,
            final(self).inode_bitmap_blocks == inode_bitmap_blocks,
            final(self).inode_area_blocks == inode_area_blocks,
            final(self).data_bitmap_blocks == data_bitmap_blocks,
            final(self).data_area_blocks == data_area_blocks,
    {
        *self = Self {
            magic: EFS_MAGIC,
            total_blocks,
            inode_bitmap_blocks,
            inode_area_blocks,
            data_bitmap_blocks,
            data_area_blocks,
        }
    }

    /// Whether the block carries the mark of a super block.
    pub fn is_valid(&self) -> (r: bool)
        ensures
            r == (self.magic == EFS_MAGIC),
    {
        self.magic == EFS_MAGIC
    }
}

/// Whether an inode is a file or a directory.
#[derive(Copy, Clone, PartialEq, Eq, Structural, Debug)]
pub enum DiskInodeType {
    File,
    Directory,
}

/// An inode: the size of the file in bytes, the numbers of its first 28
/// blocks, the number of the block of block numbers, the number of the block
/// of numbers of such blocks, and the kind of the file.
pub struct DiskInode {
    pub size: u32,
    pub direct: [u32; 28],
    pub indirect1: u32,
    pub indirect2: u32,
    pub type_: DiskInodeType,
}

/// The part of an inode that maps blocks.
pub struct InodeMap {
    pub direct: Seq<u32>,
    pub indirect1: u32,
    pub indirect2: u32,
}

/// Number of blocks that hold `size` bytes.
pub open spec fn blocks_for(size: int) -> int {
    (size + 511) / 512
}

/// Number of blocks that a file of `n` data blocks takes: the data blocks
/// and the blocks of block numbers.
pub open spec fn total_for(n: int) -> int {
    n + if n > 28 {
        1int
    } else {
        0int
    } + if n > 156 {
        1 + (n - 156 + 127) / 128
    } else {
        0int
    }
}

/// Number `j` in block `blk` of block numbers.
pub open spec fn entry(fs: spec_fn(usize) -> Seq<u8>, blk: u32, j: int) -> u32 {
    u32_at(fs(blk as usize), j)
}

/// The block of the device that holds block `i` of the file.
pub open spec fn block_id_of(m: InodeMap, fs: spec_fn(usize) -> Seq<u8>, i: int) -> u32 {
    if i < 28 {
        m.direct[i]
    } else if i < 156 {
        entry(fs, m.indirect1, i - 28)
    } else {
        entry(fs, entry(fs, m.indirect2, (i - 156) / 128), (i - 156) % 128)
    }
}

/// The blocks that block `i` of the file brings into use, in the order in
/// which they are taken: a block of block numbers where block `i` is the
/// first that needs it, then the block of the data.
pub open spec fn extra(m: InodeMap, fs: spec_fn(usize) -> Seq<u8>, i: int) -> Seq<u32> {
    if i < 28 {
        seq![m.direct[i]]
    } else if i == 28 {
        seq![m.indirect1, entry(fs, m.indirect1, 0)]
    } else if i < 156 {
        seq![entry(fs, m.indirect1, i - 28)]
    } else {
        let j = i - 156;
        let l1 = entry(fs, m.indirect2, j / 128);
        if j == 0 {
            seq![m.indirect2, l1, entry(fs, l1, 0)]
        } else if j % 128 == 0 {
            seq![l1, entry(fs, l1, 0)]
        } else {
            seq![entry(fs, l1, j % 128)]
        }
    }
}

/// The blocks that the first `n` blocks of the file have in use, in the
/// order in which they are taken when the file grows.
pub open spec fn layout(m: InodeMap, fs: spec_fn(usize) -> Seq<u8>, n: int) -> Seq<u32>
    decreases n,
{
    if n <= 0 {
        Seq::empty()
    } else {
        layout(m, fs, n - 1) + extra(m, fs, n - 1)
    }
}

/// Inode block accounting: the blocks that a file of `n` data blocks has in
/// use are as many as `total_for` counts.
pub proof fn lemma_layout_len(m: InodeMap, fs: spec_fn(usize) -> Seq<u8>, n: int)
    requires
        0 <= n,
    ensures
        layout(m, fs, n).len() == total_for(n),
    decreases n,
{
    if n > 0 {
        lemma_layout_len(m, fs, n - 1);
    }
}

/// Two inodes and views of the disk on which each of the first `n` blocks
/// brings the same blocks into use have the same blocks in use.
pub proof fn lemma_layout_same(
    m1: InodeMap,
    fs1: spec_fn(usize) -> Seq<u8>,
    m2: InodeMap,
    fs2: spec_fn(usize) -> Seq<u8>,
    n: int,
)
    requires
        forall|k: int| 0 <= k < n ==> #[trigger] extra(m1, fs1, k) == extra(m2, fs2, k),
    ensures
        layout(m1, fs1, n) == layout(m2, fs2, n),
    decreases n,
{
    if n > 0 {
        lemma_layout_same(m1, fs1, m2, fs2, n - 1);
        assert(extra(m1, fs1, n - 1) == extra(m2, fs2, n - 1));
    }
}

/// The disk as the file system sees it through the cache.
pub open spec fn fs_of<D: BlockDevice>(cache: &BlockCacheManager, dev: &D) -> spec_fn(usize) -> Seq<
    u8,
> {
    |id: usize| cache.content(dev, id)
}

impl DiskInode {
    /// The part of the inode that maps blocks.
    pub open spec fn map(&self) -> InodeMap {
        InodeMap { direct: self.direct@, indirect1: self.indirect1, indirect2: self.indirect2 }
    }

    /// Number of data blocks of the file.
    pub open spec fn nblocks(&self) -> int {
        blocks_for(self.size as int)
    }

    /// Makes the inode that of an empty file of the given kind.
    pub fn initialize(&mut self, type_: DiskInodeType)
        ensures
            final(self).size == 0,
            forall|i: int| 0 <= i < 28 ==> final(self).direct@[i] == 0,
            final(self).indirect1 == 0,
            final(self).indirect2 == 0,
            final(self).type_ == type_,
    {
        self.size = 0;
        self.direct = [0u32; 28];
        self.indirect1 = 0;
        self.indirect2 = 0;
        self.type_ = type_;
    }

    /// Whether this inode is a directory.
    pub fn is_dir(&self) -> (r: bool)
        ensures
            r == (self.type_ == DiskInodeType::Directory),
    {
        self.type_ == DiskInodeType::Directory
    }

    /// Whether this inode is a file.
    pub fn is_file(&self) -> (r: bool)
        ensures
            r == (self.type_ == DiskInodeType::File),
    {
        self.type_ == DiskInodeType::File
    }

    /// Number of data blocks of the file.
    pub fn data_blocks(&self) -> (r: u32)
        ensures
            r == blocks_for(self.size as int),
    {
        Self::_data_blocks(self.size)
    }

    /// Number of blocks that hold `size` bytes.
    pub fn _data_blocks(size: u32) -> (r: u32)
        ensures
            r == blocks_for(size as int),
    {
        if size % 512 == 0 {
            size / 512
        } else {
            size / 512 + 1
        }
    }

    /// Number of blocks that a file of `size` bytes takes: its data blocks
    /// and its blocks of block numbers.
    pub fn total_blocks(size: u32) -> (r: u32)
        ensures
            r == total_for(blocks_for(size as int)),
    {
        let data_blocks: u32 = Self::_data_blocks(size);
        let mut total: u32 = data_blocks;
        if data_blocks > 28 {
            total += 1;
        }
        if data_blocks > 156 {
            total += 1;
            total += (data_blocks - 156 + 127) / 128;
        }
        total
    }

    /// Number of blocks that the file needs more when it grows to `new_size` bytes.
    pub fn blocks_num_needed(&self, new_size: u32) -> (r: u32)
        requires
            new_size >= self.size,
        ensures
            r == total_for(blocks_for(new_size as int)) - total_for(self.nblocks()),
    {
        Self::total_blocks(new_size) - Self::total_blocks(self.size)
    }

    /// The block of the device that holds block `inner_id` of the file.
    pub fn get_block_id<D: BlockDevice>(
        &self,
        inner_id: u32,
        cache: &mut BlockCacheManager,
        block_device: &mut D,
    ) -> (r: u32)
        requires
            old(cache).wf(old(block_device)),
            inner_id < INDIRECT2_BOUND,
        ensures
            final(cache).wf(final(block_device)),
            r == block_id_of(self.map(), fs_of(old(cache), old(block_device)), inner_id as int),
            forall|id: usize| #[trigger]
                final(cache).content(final(block_device), id) == old(cache).content(
                    old(block_device),
                    id,
                ),
    {
        let ghost fs = fs_of(old(cache), old(block_device));
        let inner: usize = inner_id as usize;
        if inner < INODE_DIRECT_COUNT {
            self.direct[inner]
        } else if inner < INDIRECT1_BOUND {
            let r = cache.read_u32(self.indirect1 as usize, inner - INODE_DIRECT_COUNT, block_device);
            assert(r == entry(fs, self.indirect1, inner - 28));
            r
        } else {
            let last: usize = inner - INDIRECT1_BOUND;
            let ghost c0 = *old(cache);
            let indirect1 = cache.read_u32(
                self.indirect2 as usize,
                last / INODE_INDIRECT1_COUNT,
                block_device,
            );
            assert(indirect1 == entry(fs, self.indirect2, (last / 128) as int));
            let ghost c1 = *cache;
            let ghost d1 = *block_device;
            assert(c1.content(&d1, indirect1 as usize) == fs(indirect1 as usize));
            let r = cache.read_u32(indirect1 as usize, last % INODE_INDIRECT1_COUNT, block_device);
            proof {
                assert forall|id: usize| #[trigger]
                    cache.content(block_device, id) == old(cache).content(
                        old(block_device),
                        id,
                    ) by {
                    assert(c1.content(&d1, id) == old(cache).content(old(block_device), id));
                }
            }
            r
        }
    }

    /// Makes the file empty and gives the blocks that it had in use, in the
    /// order in which they were taken: data blocks and blocks of block
    /// numbers. The blocks themselves stay as they are.
    pub fn clear_size<D: BlockDevice>(&mut self, cache: &mut BlockCacheManager, block_device: &mut D) -> (v:
        Vec<u32>)
        requires
            old(cache).wf(old(block_device)),
            old(self).nblocks() <= INDIRECT2_BOUND,
        ensures
            final(cache).wf(final(block_device)),
            forall|id: usize| #[trigger]
                final(cache).content(final(block_device), id) == old(cache).content(
                    old(block_device),
                    id,
                ),
            v@ == layout(
                old(self).map(),
                fs_of(old(cache), old(block_device)),
                old(self).nblocks(),
            ),
            v@.len() == total_for(old(self).nblocks()),
            final(self).size == 0,
            final(self).type_ == old(self).type_,
            forall|i: int|
                0 <= i < 28 ==> final(self).direct@[i] == if i < old(self).nblocks() {
                    0u32
                } else {
                    old(self).direct@[i]
                },
            final(self).indirect1 == if old(self).nblocks() > 28 {
                0u32
            } else {
                old(self).indirect1
            },
            final(self).indirect2 == if old(self).nblocks() > 156 {
                0u32
            } else {
                old(self).indirect2
            },
    {
        let ghost fs = fs_of(old(cache), old(block_device));
        let ghost m = old(self).map();
        let mut v: Vec<u32> = Vec::new();
        let data_blocks: usize = self.data_blocks() as usize;
        self.size = 0;
        let mut i: usize = 0;
        while i < data_blocks
            invariant
                0 <= i <= data_blocks,
                data_blocks == old(self).nblocks(),
                data_blocks <= INDIRECT2_BOUND,
                fs == fs_of(old(cache), old(block_device)),
                m == old(self).map(),
                cache.wf(block_device),
                forall|id: usize| #[trigger]
                    cache.content(block_device, id) == old(cache).content(old(block_device), id),
                v@ == layout(m, fs, i as int),
                self.size == 0,
                self.type_ == old(self).type_,
                self.indirect1 == old(self).indirect1,
                self.indirect2 == old(self).indirect2,
                forall|k: int|
                    0 <= k < 28 ==> self.direct@[k] == if k < i {
                        0u32
                    } else {
                        old(self).direct@[k]
                    },
            decreases data_blocks - i,
        {
            let ghost before = v@;
            if i < INODE_DIRECT_COUNT {
                v.push(self.direct[i]);
                self.direct[i] = 0;
            } else if i < INDIRECT1_BOUND {
                if i == INODE_DIRECT_COUNT {
                    v.push(self.indirect1);
                }
                let e = cache.read_u32(self.indirect1 as usize, i - INODE_DIRECT_COUNT, block_device);
                assert(e == entry(fs, m.indirect1, i - 28)) by {
                    assert(old(cache).content(old(block_device), m.indirect1 as usize) == fs(
                        m.indirect1 as usize,
                    ));
                }
                v.push(e);
            } else {
                let j: usize = i - INDIRECT1_BOUND;
                if j == 0 {
                    v.push(self.indirect2);
                }
                let l1 = cache.read_u32(self.indirect2 as usize, j / INODE_INDIRECT1_COUNT, block_device);
                assert(l1 == entry(fs, m.indirect2, (j / 128) as int)) by {
                    assert(old(cache).content(old(block_device), m.indirect2 as usize) == fs(
                        m.indirect2 as usize,
                    ));
                }
                if j % INODE_INDIRECT1_COUNT == 0 {
                    v.push(l1);
                }
                let ghost c1 = *cache;
                let ghost d1 = *block_device;
                let e = cache.read_u32(l1 as usize, j % INODE_INDIRECT1_COUNT, block_device);
                assert(e == entry(fs, l1, (j % 128) as int)) by {
                    assert(c1.content(&d1, l1 as usize) == fs(l1 as usize));
                }
                v.push(e);
                proof {
                    assert forall|id: usize| #[trigger]
                        cache.content(block_device, id) == old(cache).content(
                            old(block_device),
                            id,
                        ) by {
                        assert(c1.content(&d1, id) == old(cache).content(old(block_device), id));
                    }
                }
            }
            proof {
                assert(v@ =~= before + extra(m, fs, i as int));
            }
            i += 1;
        }
        if data_blocks > INODE_DIRECT_COUNT {
            self.indirect1 = 0;
        }
        if data_blocks > INDIRECT1_BOUND {
            self.indirect2 = 0;
        }
        proof {
            lemma_layout_len(m, fs, data_blocks as int);
        }
        v
    }
}

/// Whether `s` names the blocks of block numbers of the first `i` blocks of
/// the file at the places where the layout has them: the block of numbers at
/// place 28, the block of blocks at place 157, and block `a` of the second
/// level at place `158 + 129 * a`.
pub open spec fn indexed(m: InodeMap, fs: spec_fn(usize) -> Seq<u8>, s: Seq<u32>, i: int) -> bool {
    &&& i > 28 ==> s[28] == m.indirect1
    &&& i > 156 ==> s[157] == m.indirect2
    &&& forall|a: int|
        0 <= a && 156 + 128 * a < i ==> #[trigger] s[158 + 129 * a] == entry(fs, m.indirect2, a)
}

/// Whether place `p` of a layout is that of a block of block numbers.
pub open spec fn index_place(p: int) -> bool {
    p == 28 || p == 157 || (p >= 158 && (p - 158) % 129 == 0)
}

/// Whether block `id` is named by `s` before place `bound` at the place of a
/// block of block numbers.
pub open spec fn names_index(s: Seq<u32>, bound: int, id: usize) -> bool {
    exists|p: int| 0 <= p < bound && p < s.len() && index_place(p) && #[trigger] s[p] as usize == id
}

/// More data blocks take no fewer blocks.
pub proof fn lemma_total_mono(a: int, b: int)
    requires
        0 <= a <= b,
    ensures
        total_for(a) <= total_for(b),
        total_for(b) - total_for(a) >= b - a,
{
}

/// What a view of the disk is after one number in block `blk` was set.
pub open spec fn entry_written(
    fs: spec_fn(usize) -> Seq<u8>,
    fs2: spec_fn(usize) -> Seq<u8>,
    blk: u32,
    idx: int,
    value: u32,
) -> bool {
    &&& 0 <= idx < 128
    &&& fs(blk as usize).len() == 512
    &&& forall|id: usize| #[trigger]
        fs2(id) == if id == blk as usize {
            with_u32(fs(blk as usize), idx, value)
        } else {
            fs(id)
        }
}

/// After one number in block `blk` was set, that number reads as set, and
/// every other number of every block reads as before.
pub proof fn lemma_entry_written(
    fs: spec_fn(usize) -> Seq<u8>,
    fs2: spec_fn(usize) -> Seq<u8>,
    blk: u32,
    idx: int,
    value: u32,
)
    requires
        entry_written(fs, fs2, blk, idx, value),
    ensures
        entry(fs2, blk, idx) == value,
        forall|b: u32, j: int|
            0 <= j < 128 && !(b == blk && j == idx) ==> #[trigger] entry(fs2, b, j) == entry(fs, b, j),
{
    lemma_with_u32(fs(blk as usize), idx, value);
    assert(fs2(blk as usize) == with_u32(fs(blk as usize), idx, value));
    assert forall|b: u32, j: int| 0 <= j < 128 && !(b == blk && j == idx) implies #[trigger] entry(
        fs2,
        b,
        j,
    ) == entry(fs, b, j) by {
        if b != blk {
            assert(fs2(b as usize) == fs(b as usize));
        }
    }
}

/// Growth by a block that the inode names directly.
pub proof fn lemma_grow_direct(
    m: InodeMap,
    m2: InodeMap,
    fs: spec_fn(usize) -> Seq<u8>,
    s: Seq<u32>,
    i: int,
)
    requires
        0 <= i < 28,
        m.direct.len() == 28,
        total_for(i + 1) <= s.len(),
        layout(m, fs, i) == s.take(total_for(i)),
        m2.direct == m.direct.update(i, s[total_for(i)]),
        m2.indirect1 == m.indirect1,
        m2.indirect2 == m.indirect2,
    ensures
        layout(m2, fs, i + 1) == s.take(total_for(i + 1)),
        indexed(m2, fs, s, i + 1),
{
    assert forall|k: int| 0 <= k < i implies #[trigger] extra(m2, fs, k) == extra(m, fs, k) by {}
    lemma_layout_same(m2, fs, m, fs, i);
    assert(layout(m2, fs, i + 1) =~= s.take(total_for(i + 1)));
}

/// Growth by a block that the inode names through the block of numbers.
pub proof fn lemma_grow_indirect1(
    m: InodeMap,
    m2: InodeMap,
    fs: spec_fn(usize) -> Seq<u8>,
    fs2: spec_fn(usize) -> Seq<u8>,
    s: Seq<u32>,
    i: int,
)
    requires
        28 <= i < 156,
        total_for(i + 1) <= s.len(),
        layout(m, fs, i) == s.take(total_for(i)),
        indexed(m, fs, s, i),
        m2.direct == m.direct,
        m2.indirect2 == m.indirect2,
        m2.indirect1 == if i == 28 {
            s[28]
        } else {
            m.indirect1
        },
        entry_written(fs, fs2, m2.indirect1, i - 28, s[total_for(i + 1) - 1]),
    ensures
        layout(m2, fs2, i + 1) == s.take(total_for(i + 1)),
        indexed(m2, fs2, s, i + 1),
{
    lemma_entry_written(fs, fs2, m2.indirect1, i - 28, s[total_for(i + 1) - 1]);
    assert forall|k: int| 0 <= k < i implies #[trigger] extra(m2, fs2, k) == extra(m, fs, k) by {
        if k >= 28 {
            assert(entry(fs2, m2.indirect1, k - 28) == entry(fs, m.indirect1, k - 28));
        }
    }
    lemma_layout_same(m2, fs2, m, fs, i);
    assert(layout(m2, fs2, i + 1) =~= s.take(total_for(i + 1)));
}

/// Growth by a block that the inode names through the block of blocks of
/// numbers, where the blocks that `s` names are all different.
pub proof fn lemma_grow_indirect2(
    m: InodeMap,
    m2: InodeMap,
    fs: spec_fn(usize) -> Seq<u8>,
    fs1: spec_fn(usize) -> Seq<u8>,
    fs2: spec_fn(usize) -> Seq<u8>,
    s: Seq<u32>,
    i: int,
)
    requires
        156 <= i < 16540,
        s.no_duplicates(),
        total_for(i + 1) <= s.len(),
        layout(m, fs, i) == s.take(total_for(i)),
        indexed(m, fs, s, i),
        m2.direct == m.direct,
        m2.indirect1 == m.indirect1,
        m2.indirect2 == if i == 156 {
            s[157]
        } else {
            m.indirect2
        },
        (i - 156) % 128 == 0 ==> entry_written(
            fs,
            fs1,
            m2.indirect2,
            (i - 156) / 128,
            s[158 + 129 * ((i - 156) / 128)],
        ),
        (i - 156) % 128 != 0 ==> fs1 == fs,
        entry_written(
            fs1,
            fs2,
            s[158 + 129 * ((i - 156) / 128)],
            (i - 156) % 128,
            s[total_for(i + 1) - 1],
        ),
    ensures
        layout(m2, fs2, i + 1) == s.take(total_for(i + 1)),
        indexed(m2, fs2, s, i + 1),
{
    let j = i - 156;
    let a = j / 128;
    let b = j % 128;
    let l1 = s[158 + 129 * a];
    let ind2 = m2.indirect2;
    let ind1 = m.indirect1;
    assert(j == 128 * a + b && 0 <= b < 128);
    assert(total_for(i) == if j == 0 {
        157
    } else if b == 0 {
        158 + 129 * a
    } else {
        159 + 129 * a + b
    });
    assert(s[157] == ind2);
    if b != 0 {
        assert(s[158 + 129 * a] == entry(fs, m.indirect2, a));
    }
    assert(s[28] == ind1);
    assert(ind1 != ind2 && ind1 != l1 && ind2 != l1) by {
        assert(s[28] != s[157]);
        assert(s[28] != s[158 + 129 * a]);
        assert(s[157] != s[158 + 129 * a]);
    }
    if b == 0 {
        lemma_entry_written(fs, fs1, ind2, a, l1);
    }
    lemma_entry_written(fs1, fs2, l1, b, s[total_for(i + 1) - 1]);
    assert(entry(fs2, ind2, a) == l1);
    assert forall|k: int| 0 <= k < i implies #[trigger] extra(m2, fs2, k) == extra(m, fs, k) by {
        if 28 <= k < 156 {
            assert(entry(fs1, ind1, k - 28) == entry(fs, ind1, k - 28));
            assert(entry(fs2, ind1, k - 28) == entry(fs1, ind1, k - 28));
        } else if k >= 156 {
            let a2 = (k - 156) / 128;
            let b2 = (k - 156) % 128;
            assert(m.indirect2 == ind2);
            assert(entry(fs1, ind2, a2) == entry(fs, ind2, a2));
            assert(entry(fs2, ind2, a2) == entry(fs1, ind2, a2));
            let l = entry(fs, ind2, a2);
            assert(s[158 + 129 * a2] == l);
            if a2 < a {
                assert(s[158 + 129 * a2] != s[158 + 129 * a]);
                assert(s[158 + 129 * a2] != s[157]);
            }
            assert(entry(fs1, l, b2) == entry(fs, l, b2));
            assert(entry(fs2, l, b2) == entry(fs1, l, b2));
            assert(entry(fs1, l, 0) == entry(fs, l, 0));
            assert(entry(fs2, l, 0) == entry(fs1, l, 0));
        }
    }
    lemma_layout_same(m2, fs2, m, fs, i);
    assert(layout(m2, fs2, i + 1) =~= s.take(total_for(i + 1)));
    assert forall|a3: int| 0 <= a3 && 156 + 128 * a3 < i + 1 implies #[trigger] s[158 + 129 * a3]
        == entry(fs2, m2.indirect2, a3) by {
        if a3 < a {
            assert(s[158 + 129 * a3] == entry(fs, m.indirect2, a3));
            assert(entry(fs1, ind2, a3) == entry(fs, ind2, a3));
            assert(entry(fs2, ind2, a3) == entry(fs1, ind2, a3));
        }
    }
}

/// The layout of a file has the blocks of block numbers at their places.
pub proof fn lemma_layout_indexed(m: InodeMap, fs: spec_fn(usize) -> Seq<u8>, n: int)
    requires
        0 <= n,
    ensures
        indexed(m, fs, layout(m, fs, n), n),
        layout(m, fs, n).len() == total_for(n),
    decreases n,
{
    lemma_layout_len(m, fs, n);
    if n > 0 {
        lemma_layout_indexed(m, fs, n - 1);
        let prev = layout(m, fs, n - 1);
        let cur = layout(m, fs, n);
        let i = n - 1;
        assert(cur == prev + extra(m, fs, i));
        assert(prev.len() == total_for(i));
        if i >= 156 {
            let j = i - 156;
            assert(j == 128 * (j / 128) + j % 128);
        }
        assert forall|a: int| 0 <= a && 156 + 128 * a < n implies #[trigger] cur[158 + 129 * a]
            == entry(fs, m.indirect2, a) by {
            if 156 + 128 * a < i {
                assert(prev[158 + 129 * a] == entry(fs, m.indirect2, a));
                assert(158 + 129 * a < total_for(i));
            } else {
                assert(i == 156 + 128 * a);
            }
        }
        if n > 28 {
            if i > 28 {
                assert(prev[28] == m.indirect1);
            }
        }
        if n > 156 {
            if i > 156 {
                assert(prev[157] == m.indirect2);
            }
        }
    }
}

/// Whether the first `i` blocks of the file have in use what `s` names at
/// its start, with the blocks of block numbers at their places.
pub open spec fn grown_to(m: InodeMap, fs: spec_fn(usize) -> Seq<u8>, s: Seq<u32>, i: int) -> bool {
    &&& layout(m, fs, i) == s.take(total_for(i))
    &&& indexed(m, fs, s, i)
}

/// Whether `new_blocks` is what `s` names from place `base` on.
pub open spec fn feeds(new_blocks: Seq<u32>, s: Seq<u32>, base: int) -> bool {
    &&& 0 <= base
    &&& forall|k: int|
        0 <= k < new_blocks.len() && base + k < s.len() ==> #[trigger] s[base + k] == new_blocks[k]
}

impl DiskInode {
    /// Brings block `i` of the file into use where the inode names it directly.
    fn grow_direct<D: BlockDevice>(
        &mut self,
        i: usize,
        c: usize,
        new_blocks: &Vec<u32>,
        cache: &BlockCacheManager,
        block_device: &D,
        Ghost(s): Ghost<Seq<u32>>,
        Ghost(base): Ghost<int>,
    ) -> (c2: usize)
        requires
            i < 28,
            c == total_for(i as int) - base,
            total_for(i as int + 1) - base <= new_blocks@.len(),
            total_for(i as int + 1) <= s.len(),
            feeds(new_blocks@, s, base),
            s.no_duplicates() ==> grown_to(old(self).map(), fs_of(cache, block_device), s, i as int),
        ensures
            c2 == total_for(i as int + 1) - base,
            final(self).size == old(self).size,
            final(self).type_ == old(self).type_,
            s.no_duplicates() ==> grown_to(
                final(self).map(),
                fs_of(cache, block_device),
                s,
                i as int + 1,
            ),
    {
        let ghost m = self.map();
        assert(s[base + c] == new_blocks@[c as int]);
        self.direct[i] = new_blocks[c];
        proof {
            if s.no_duplicates() {
                lemma_grow_direct(m, self.map(), fs_of(cache, block_device), s, i as int);
            }
        }
        c + 1
    }

    /// Brings block `i` of the file into use where the inode names it
    /// through the block of block numbers.
    fn grow_indirect1<D: BlockDevice>(
        &mut self,
        i: usize,
        c: usize,
        new_blocks: &Vec<u32>,
        cache: &mut BlockCacheManager,
        block_device: &mut D,
        Ghost(s): Ghost<Seq<u32>>,
        Ghost(base): Ghost<int>,
    ) -> (c2: usize)
        requires
            28 <= i < 156,
            old(cache).wf(old(block_device)),
            c == total_for(i as int) - base,
            total_for(i as int + 1) - base <= new_blocks@.len(),
            total_for(i as int + 1) <= s.len(),
            feeds(new_blocks@, s, base),
            s.no_duplicates() ==> grown_to(
                old(self).map(),
                fs_of(old(cache), old(block_device)),
                s,
                i as int,
            ),
        ensures
            final(cache).wf(final(block_device)),
            c2 == total_for(i as int + 1) - base,
            final(self).size == old(self).size,
            final(self).type_ == old(self).type_,
            s.no_duplicates() ==> grown_to(
                final(self).map(),
                fs_of(final(cache), final(block_device)),
                s,
                i as int + 1,
            ),
            s.no_duplicates() ==> forall|id: usize|
                !names_index(s, total_for(i as int + 1), id) ==> #[trigger] final(cache).content(
                    final(block_device),
                    id,
                ) == old(cache).content(old(block_device), id),
    {
        let ghost m = self.map();
        let ghost fs = fs_of(old(cache), old(block_device));
        let mut c = c;
        if i == INODE_DIRECT_COUNT {
            assert(s[base + c] == new_blocks@[c as int]);
            self.indirect1 = new_blocks[c];
            c += 1;
        }
        assert(s[base + c] == new_blocks@[c as int]);
        cache.write_u32(self.indirect1 as usize, i - INODE_DIRECT_COUNT, new_blocks[c], block_device);
        proof {
            if s.no_duplicates() {
                let fs2 = fs_of(cache, block_device);
                assert(entry_written(fs, fs2, self.indirect1, i - 28, s[total_for(i as int + 1) - 1]));
                lemma_grow_indirect1(m, self.map(), fs, fs2, s, i as int);
                assert(s[28] == self.indirect1);
                assert(index_place(28) && s[28] as usize == self.indirect1 as usize);
            }
        }
        c + 1
    }

    /// Brings block `i` of the file into use where the inode names it
    /// through the block of blocks of block numbers.
    fn grow_indirect2<D: BlockDevice>(
        &mut self,
        i: usize,
        c: usize,
        new_blocks: &Vec<u32>,
        cache: &mut BlockCacheManager,
        block_device: &mut D,
        Ghost(s): Ghost<Seq<u32>>,
        Ghost(base): Ghost<int>,
    ) -> (c2: usize)
        requires
            156 <= i < 16540,
            old(cache).wf(old(block_device)),
            c == total_for(i as int) - base,
            total_for(i as int + 1) - base <= new_blocks@.len(),
            total_for(i as int + 1) <= s.len(),
            feeds(new_blocks@, s, base),
            s.no_duplicates() ==> grown_to(
                old(self).map(),
                fs_of(old(cache), old(block_device)),
                s,
                i as int,
            ),
        ensures
            final(cache).wf(final(block_device)),
            c2 == total_for(i as int + 1) - base,
            final(self).size == old(self).size,
            final(self).type_ == old(self).type_,
            s.no_duplicates() ==> grown_to(
                final(self).map(),
                fs_of(final(cache), final(block_device)),
                s,
                i as int + 1,
            ),
            s.no_duplicates() ==> forall|id: usize|
                !names_index(s, total_for(i as int + 1), id) ==> #[trigger] final(cache).content(
                    final(block_device),
                    id,
                ) == old(cache).content(old(block_device), id),
    {
        let ghost m = self.map();
        let ghost fs = fs_of(old(cache), old(block_device));
        let ghost h = s.no_duplicates();
        let mut c = c;
        let j: usize = i - INDIRECT1_BOUND;
        let a: usize = j / INODE_INDIRECT1_COUNT;
        let b: usize = j % INODE_INDIRECT1_COUNT;
        assert(j == 128 * a + b);
        if j == 0 {
            assert(s[base + c] == new_blocks@[c as int]);
            self.indirect2 = new_blocks[c];
            c += 1;
        }
        let l1: u32;
        if b == 0 {
            assert(s[base + c] == new_blocks@[c as int]);
            l1 = new_blocks[c];
            c += 1;
            cache.write_u32(self.indirect2 as usize, a, l1, block_device);
        } else {
            l1 = cache.read_u32(self.indirect2 as usize, a, block_device);
        }
        let ghost fs1 = fs_of(cache, block_device);
        let ghost c2 = *cache;
        let ghost d2 = *block_device;
        proof {
            if h {
                if b != 0 {
                    assert(fs1 =~= fs);
                    assert(l1 == entry(fs, m.indirect2, a as int));
                    assert(s[158 + 129 * a] == entry(fs, m.indirect2, a as int));
                }
                assert(l1 == s[158 + 129 * a]);
            }
        }
        assert(s[base + c] == new_blocks@[c as int]);
        cache.write_u32(l1 as usize, b, new_blocks[c], block_device);
        proof {
            if h {
                let fs2 = fs_of(cache, block_device);
                if b == 0 {
                    assert(entry_written(fs, fs1, self.indirect2, a as int, l1));
                }
                assert(entry_written(fs1, fs2, l1, b as int, s[total_for(i as int + 1) - 1]));
                lemma_grow_indirect2(m, self.map(), fs, fs1, fs2, s, i as int);
                assert(s[157] == self.indirect2);
                assert(index_place(157) && s[157] as usize == self.indirect2 as usize);
                assert(index_place(158 + 129 * a) && s[158 + 129 * a] as usize == l1 as usize);
                assert forall|id: usize|
                    !names_index(s, total_for(i as int + 1), id) implies #[trigger] cache.content(
                    block_device,
                    id,
                ) == old(cache).content(old(block_device), id) by {
                    assert(c2.content(&d2, id) == old(cache).content(old(block_device), id));
                }
            }
        }
        c + 1
    }

    /// Grows the file to `new_size` bytes. The blocks that it needs more are
    /// taken from `new_blocks` in order: for each new block of the file, a
    /// block of block numbers where that block is the first to need it, and
    /// then the block of the data.
    pub fn increase_size<D: BlockDevice>(
        &mut self,
        new_size: u32,
        new_blocks: Vec<u32>,
        cache: &mut BlockCacheManager,
        block_device: &mut D,
    )
        requires
            old(cache).wf(old(block_device)),
            new_size >= old(self).size,
            blocks_for(new_size as int) <= INDIRECT2_BOUND,
            new_blocks@.len() >= total_for(blocks_for(new_size as int)) - total_for(
                old(self).nblocks(),
            ),
        ensures
            final(cache).wf(final(block_device)),
            final(self).size == new_size,
            final(self).type_ == old(self).type_,
            ({
                let needed = total_for(blocks_for(new_size as int)) - total_for(
                    old(self).nblocks(),
                );
                let s = layout(
                    old(self).map(),
                    fs_of(old(cache), old(block_device)),
                    old(self).nblocks(),
                ) + new_blocks@.take(needed);
                s.no_duplicates() ==> {
                    &&& layout(
                        final(self).map(),
                        fs_of(final(cache), final(block_device)),
                        final(self).nblocks(),
                    ) == s
                    &&& forall|id: usize|
                        !names_index(s, s.len() as int, id) ==> #[trigger] final(cache).content(
                            final(block_device),
                            id,
                        ) == old(cache).content(old(block_device), id)
                }
            }),
    {
        let ghost fs0 = fs_of(old(cache), old(block_device));
        let ghost m0 = old(self).map();
        let ghost c0 = *old(cache);
        let ghost d0 = *old(block_device);
        let old_n: usize = self.data_blocks() as usize;
        self.size = new_size;
        let new_n: usize = self.data_blocks() as usize;
        let ghost needed = total_for(new_n as int) - total_for(old_n as int);
        let ghost base = total_for(old_n as int);
        let ghost s = layout(m0, fs0, old_n as int) + new_blocks@.take(needed);
        let ghost h = s.no_duplicates();
        proof {
            lemma_total_mono(old_n as int, new_n as int);
            assert(s.take(layout(m0, fs0, old_n as int).len() as int) =~= layout(
                m0,
                fs0,
                old_n as int,
            ));
            lemma_start_grown(m0, fs0, s, old_n as int);
            assert(s.len() == total_for(new_n as int));
            assert(feeds(new_blocks@, s, base));
        }
        let mut i: usize = old_n;
        let mut c: usize = 0;
        while i < new_n
            invariant
                old_n <= i <= new_n,
                new_n <= INDIRECT2_BOUND,
                new_n == blocks_for(new_size as int),
                base == total_for(old_n as int),
                c == total_for(i as int) - base,
                new_blocks@.len() >= total_for(new_n as int) - base,
                s.len() == total_for(new_n as int),
                feeds(new_blocks@, s, base),
                h == s.no_duplicates(),
                c0 == *old(cache),
                d0 == *old(block_device),
                cache.wf(block_device),
                self.size == new_size,
                self.type_ == old(self).type_,
                h ==> grown_to(self.map(), fs_of(cache, block_device), s, i as int),
                h ==> forall|id: usize|
                    !names_index(s, total_for(i as int), id) ==> #[trigger] cache.content(
                        block_device,
                        id,
                    ) == c0.content(&d0, id),
            decreases new_n - i,
        {
            let ghost c1 = *cache;
            let ghost d1 = *block_device;
            proof {
                lemma_total_mono(i as int + 1, new_n as int);
                lemma_total_mono(i as int, i as int + 1);
            }
            if i < INODE_DIRECT_COUNT {
                c = self.grow_direct(i, c, &new_blocks, cache, block_device, Ghost(s), Ghost(base));
            } else if i < INDIRECT1_BOUND {
                c = self.grow_indirect1(i, c, &new_blocks, cache, block_device, Ghost(s), Ghost(base));
            } else {
                c = self.grow_indirect2(i, c, &new_blocks, cache, block_device, Ghost(s), Ghost(base));
            }
            proof {
                if h {
                    assert forall|id: usize|
                        !names_index(s, total_for(i as int + 1), id) implies #[trigger] cache.content(
                        block_device,
                        id,
                    ) == c0.content(&d0, id) by {
                        lemma_names_mono(s, total_for(i as int), total_for(i as int + 1), id);
                        assert(c1.content(&d1, id) == c0.content(&d0, id));
                    }
                }
            }
            i += 1;
        }
        proof {
            if h {
                assert(s.take(s.len() as int) =~= s);
            }
        }
    }
}

/// The layout of a file, with anything behind it, names the first blocks of
/// the file at its start and has the blocks of block numbers at their places.
pub proof fn lemma_start_grown(m: InodeMap, fs: spec_fn(usize) -> Seq<u8>, s: Seq<u32>, n: int)
    requires
        0 <= n,
        layout(m, fs, n).len() <= s.len(),
        s.take(layout(m, fs, n).len() as int) == layout(m, fs, n),
    ensures
        grown_to(m, fs, s, n),
        layout(m, fs, n).len() == total_for(n),
{
    lemma_layout_indexed(m, fs, n);
    let l = layout(m, fs, n);
    assert forall|p: int| 0 <= p < l.len() implies s[p] == #[trigger] l[p] by {
        assert(s.take(l.len() as int)[p] == s[p]);
    }
    if n > 156 {
        let j = n - 1 - 156;
        assert(j == 128 * (j / 128) + j % 128);
    }
    assert forall|a: int| 0 <= a && 156 + 128 * a < n implies #[trigger] s[158 + 129 * a] == entry(
        fs,
        m.indirect2,
        a,
    ) by {
        assert(l[158 + 129 * a] == entry(fs, m.indirect2, a));
    }
    if n > 28 {
        assert(l[28] == m.indirect1);
    }
    if n > 156 {
        assert(l[157] == m.indirect2);
    }
}

/// A block that is named before a place is named before every later place.
pub proof fn lemma_names_mono(s: Seq<u32>, b1: int, b2: int, id: usize)
    requires
        b1 <= b2,
    ensures
        names_index(s, b1, id) ==> names_index(s, b2, id),
{
    if names_index(s, b1, id) {
        let p = choose|p: int|
            0 <= p < b1 && p < s.len() && index_place(p) && #[trigger] s[p] as usize == id;
        assert(0 <= p < b2 && p < s.len() && index_place(p) && s[p] as usize == id);
    }
}

/// Byte `k` of the file.
pub open spec fn file_byte(m: InodeMap, fs: spec_fn(usize) -> Seq<u8>, k: int) -> u8 {
    fs(block_id_of(m, fs, k / 512) as usize)[k % 512]
}

/// Number of bytes that a transfer of `len` bytes at `offset` moves in a file
/// of `size` bytes: those before the end of the file.
pub open spec fn transfer_len(offset: int, len: int, size: int) -> int {
    if offset + len <= size {
        len
    } else if offset <= size {
        size - offset
    } else {
        0
    }
}

/// The layout of a file names the block of data of block `i` at the place
/// just before the blocks that block `i + 1` brings into use.
pub proof fn lemma_layout_data(m: InodeMap, fs: spec_fn(usize) -> Seq<u8>, n: int, i: int)
    requires
        0 <= i < n,
    ensures
        layout(m, fs, n).len() == total_for(n),
        total_for(i + 1) <= total_for(n),
        layout(m, fs, n)[total_for(i + 1) - 1] == block_id_of(m, fs, i),
        !index_place(total_for(i + 1) - 1),
    decreases n,
{
    lemma_layout_len(m, fs, n);
    lemma_layout_len(m, fs, n - 1);
    lemma_total_mono(i + 1, n);
    if i >= 156 {
        let j = i - 156;
        assert(j == 128 * (j / 128) + j % 128);
        let p = total_for(i + 1) - 1;
        assert(p == 159 + 129 * (j / 128) + j % 128);
        assert((p - 158) % 129 == 1 + j % 128) by {
            assert(p - 158 == 129 * (j / 128) + (1 + j % 128));
        }
    }
    if i < n - 1 {
        lemma_layout_data(m, fs, n - 1, i);
    }
}

/// Where the blocks that a file has in use are all different, writing to
/// the block of data of block `i` changes no block number of the file and no
/// other block of data.
pub proof fn lemma_data_write(
    m: InodeMap,
    fs: spec_fn(usize) -> Seq<u8>,
    fs2: spec_fn(usize) -> Seq<u8>,
    n: int,
    i: int,
)
    requires
        0 <= i < n <= 16540,
        layout(m, fs, n).no_duplicates(),
        forall|id: usize| id != block_id_of(m, fs, i) as usize ==> #[trigger] fs2(id) == fs(id),
    ensures
        forall|k: int| 0 <= k < n ==> #[trigger] block_id_of(m, fs2, k) == block_id_of(m, fs, k),
        layout(m, fs2, n) == layout(m, fs, n),
        forall|k: int|
            0 <= k < n && k != i ==> fs2(#[trigger] block_id_of(m, fs, k) as usize) == fs(
                block_id_of(m, fs, k) as usize,
            ),
{
    let l = layout(m, fs, n);
    let blk = block_id_of(m, fs, i);
    lemma_layout_indexed(m, fs, n);
    lemma_layout_data(m, fs, n, i);
    let dp = total_for(i + 1) - 1;
    assert(l[dp] == blk);
    // the blocks of block numbers are not the block written
    if n > 28 {
        assert(l[28] != l[dp]);
        assert(fs2(m.indirect1 as usize) == fs(m.indirect1 as usize));
    }
    if n > 156 {
        assert(l[157] != l[dp]);
        assert(fs2(m.indirect2 as usize) == fs(m.indirect2 as usize));
    }
    assert forall|a: int| 0 <= a && 156 + 128 * a < n implies fs2(
        #[trigger] entry(fs, m.indirect2, a) as usize,
    ) == fs(entry(fs, m.indirect2, a) as usize) by {
        let j = n - 1 - 156;
        assert(j == 128 * (j / 128) + j % 128);
        assert(l[158 + 129 * a] == entry(fs, m.indirect2, a));
        assert(index_place(158 + 129 * a));
        assert(l[158 + 129 * a] != l[dp]);
    }
    assert forall|k: int| 0 <= k < n implies #[trigger] block_id_of(m, fs2, k) == block_id_of(
        m,
        fs,
        k,
    ) && extra(m, fs2, k) == extra(m, fs, k) by {
        if k >= 156 {
            let a = (k - 156) / 128;
            assert(k - 156 == 128 * a + (k - 156) % 128);
            assert(fs2(entry(fs, m.indirect2, a) as usize) == fs(entry(fs, m.indirect2, a) as usize));
        }
    }
    lemma_layout_same(m, fs2, m, fs, n);
    assert forall|k: int| 0 <= k < n && k != i implies fs2(
        #[trigger] block_id_of(m, fs, k) as usize,
    ) == fs(block_id_of(m, fs, k) as usize) by {
        lemma_layout_data(m, fs, n, k);
        let kp = total_for(k + 1) - 1;
        if k < i {
            lemma_total_mono(k + 1, i + 1);
        } else {
            lemma_total_mono(i + 1, k + 1);
        }
        assert(kp != dp);
        assert(l[kp] != l[dp]);
    }
}

/// Copies `src` into `buf` from place `at` on.
pub fn copy_into(buf: &mut Vec<u8>, at: usize, src: &Vec<u8>)
    requires
        at + src@.len() <= old(buf)@.len(),
    ensures
        final(buf)@ == with_bytes(old(buf)@, at as int, src@),
        final(buf)@.len() == old(buf)@.len(),
{
    let mut k: usize = 0;
    let total: usize = buf.len();
    while k < src.len()
        invariant
            k <= src@.len(),
            at + src@.len() <= old(buf)@.len(),
            buf@.len() == old(buf)@.len(),
            total == buf@.len(),
            buf@ =~= old(buf)@.subrange(0, at as int) + src@.subrange(0, k as int) + old(buf)@.subrange(at + k, old(buf)@.len() as int),
        decreases src@.len() - k,
    {
        buf.set(at + k, src[k]);
        k += 1;
    }
    assert(src@.subrange(0, src@.len() as int) =~= src@);
}

impl DiskInode {
    /// Reads the bytes of the file from `offset` on into `buf`, as many as
    /// `buf` holds and the file has, and gives their number.
    pub fn read_at<D: BlockDevice>(
        &self,
        offset: usize,
        buf: &mut Vec<u8>,
        cache: &mut BlockCacheManager,
        block_device: &mut D,
    ) -> (r: usize)
        requires
            old(cache).wf(old(block_device)),
            self.nblocks() <= INDIRECT2_BOUND,
            offset + old(buf)@.len() <= usize::MAX,
        ensures
            final(cache).wf(final(block_device)),
            forall|id: usize| #[trigger]
                final(cache).content(final(block_device), id) == old(cache).content(
                    old(block_device),
                    id,
                ),
            r == transfer_len(offset as int, old(buf)@.len() as int, self.size as int),
            final(buf)@.len() == old(buf)@.len(),
            forall|t: int|
                0 <= t < r ==> #[trigger] final(buf)@[t] == file_byte(
                    self.map(),
                    fs_of(old(cache), old(block_device)),
                    offset + t,
                ),
            forall|t: int| r <= t < old(buf)@.len() ==> #[trigger] final(buf)@[t] == old(buf)@[t],
    {
        let ghost fs = fs_of(old(cache), old(block_device));
        let ghost m = self.map();
        let len: usize = buf.len();
        let size: usize = self.size as usize;
        let end: usize = if offset + len < size {
            offset + len
        } else {
            size
        };
        if offset >= end {
            return 0;
        }
        let mut start: usize = offset;
        let mut read_size: usize = 0;
        while start < end
            invariant
                offset <= start <= end,
                end <= size,
                size == self.size,
                end <= offset + len,
                len == old(buf)@.len(),
                buf@.len() == len,
                read_size == start - offset,
                self.nblocks() <= INDIRECT2_BOUND,
                cache.wf(block_device),
                fs == fs_of(old(cache), old(block_device)),
                m == self.map(),
                forall|id: usize| #[trigger]
                    cache.content(block_device, id) == old(cache).content(old(block_device), id),
                forall|t: int|
                    0 <= t < read_size ==> #[trigger] buf@[t] == file_byte(m, fs, offset + t),
                forall|t: int| read_size <= t < len ==> #[trigger] buf@[t] == old(buf)@[t],
            decreases end - start,
        {
            let block_end: usize = (start / 512 + 1) * 512;
            let end_current_block: usize = if block_end < end {
                block_end
            } else {
                end
            };
            let block_read_size: usize = end_current_block - start;
            let ghost c1 = *cache;
            let ghost d1 = *block_device;
            let id = self.get_block_id((start / 512) as u32, cache, block_device);
            let ghost c2 = *cache;
            let ghost d2 = *block_device;
            let bytes = cache.read_bytes(id as usize, start % 512, block_read_size, block_device);
            let ghost before = buf@;
            copy_into(buf, read_size, &bytes);
            proof {
                assert(id == block_id_of(m, fs_of(&c1, &d1), (start / 512) as int));
                assert(fs_of(&c1, &d1) =~= fs);
                assert(c2.content(&d2, id as usize) == fs(id as usize)) by {
                    assert(c1.content(&d1, id as usize) == fs(id as usize));
                }
                assert forall|idx: usize| #[trigger]
                    cache.content(block_device, idx) == old(cache).content(
                        old(block_device),
                        idx,
                    ) by {
                    assert(c2.content(&d2, idx) == c1.content(&d1, idx));
                }
                assert forall|t: int| 0 <= t < read_size + block_read_size implies #[trigger] buf@[t]
                    == file_byte(m, fs, offset + t) by {
                    if t >= read_size {
                        let k = offset + t;
                        assert(k / 512 == start / 512);
                        assert(buf@[t] == bytes@[t - read_size]);
                        assert(k % 512 == start % 512 + (t - read_size));
                    } else {
                        assert(buf@[t] == before[t]);
                    }
                }
                assert forall|t: int| read_size + block_read_size <= t < len implies #[trigger] buf@[t]
                    == old(buf)@[t] by {
                    assert(buf@[t] == before[t]);
                }
            }
            read_size += block_read_size;
            start = end_current_block;
        }
        read_size
    }

    /// Writes the bytes of `buf` into the file from `offset` on, as many as
    /// lie before the end of the file, and gives their number. The file does
    /// not grow.
    pub fn write_at<D: BlockDevice>(
        &mut self,
        offset: usize,
        buf: &[u8],
        cache: &mut BlockCacheManager,
        block_device: &mut D,
    ) -> (r: usize)
        requires
            old(cache).wf(old(block_device)),
            old(self).nblocks() <= INDIRECT2_BOUND,
            offset + buf@.len() <= usize::MAX,
            offset <= old(self).size,
        ensures
            final(cache).wf(final(block_device)),
            final(self).size == old(self).size,
            final(self).type_ == old(self).type_,
            final(self).map() == old(self).map(),
            r == transfer_len(offset as int, buf@.len() as int, old(self).size as int),
            layout(
                old(self).map(),
                fs_of(old(cache), old(block_device)),
                old(self).nblocks(),
            ).no_duplicates() ==> {
                &&& layout(
                    old(self).map(),
                    fs_of(final(cache), final(block_device)),
                    old(self).nblocks(),
                ) == layout(
                    old(self).map(),
                    fs_of(old(cache), old(block_device)),
                    old(self).nblocks(),
                )
                &&& forall|k: int|
                    0 <= k < old(self).size ==> #[trigger] file_byte(
                        old(self).map(),
                        fs_of(final(cache), final(block_device)),
                        k,
                    ) == if offset <= k < offset + r {
                        buf@[k - offset]
                    } else {
                        file_byte(old(self).map(), fs_of(old(cache), old(block_device)), k)
                    }
            },
    {
        let ghost fs0 = fs_of(old(cache), old(block_device));
        let ghost m = self.map();
        let ghost n = self.nblocks();
        let ghost h = layout(m, fs0, n).no_duplicates();
        let len: usize = buf.len();
        let size: usize = self.size as usize;
        let end: usize = if offset + len < size {
            offset + len
        } else {
            size
        };
        let mut start: usize = offset;
        let mut write_size: usize = 0;
        while start < end
            invariant
                offset <= start <= end,
                end <= size,
                size == self.size,
                end <= offset + len,
                len == buf@.len(),
                write_size == start - offset,
                n == self.nblocks(),
                n <= INDIRECT2_BOUND,
                *self == *old(self),
                m == self.map(),
                cache.wf(block_device),
                fs0 == fs_of(old(cache), old(block_device)),
                h == layout(m, fs0, n).no_duplicates(),
                h ==> layout(m, fs_of(cache, block_device), n) == layout(m, fs0, n),
                h ==> forall|k: int|
                    0 <= k < n ==> #[trigger] block_id_of(m, fs_of(cache, block_device), k)
                        == block_id_of(m, fs0, k),
                h ==> forall|k: int|
                    0 <= k < size ==> #[trigger] file_byte(m, fs_of(cache, block_device), k)
                        == if offset <= k < start {
                        buf@[k - offset]
                    } else {
                        file_byte(m, fs0, k)
                    },
            decreases end - start,
        {
            let block_end: usize = (start / 512 + 1) * 512;
            let end_current_block: usize = if block_end < end {
                block_end
            } else {
                end
            };
            let block_write_size: usize = end_current_block - start;
            let ghost c1 = *cache;
            let ghost d1 = *block_device;
            let ghost fs1 = fs_of(cache, block_device);
            let id = self.get_block_id((start / 512) as u32, cache, block_device);
            let ghost c2 = *cache;
            let ghost d2 = *block_device;
            let src = vstd::slice::slice_subrange(buf, write_size, write_size + block_write_size);
            cache.write_bytes(id as usize, start % 512, src, block_device);
            proof {
                let fs2 = fs_of(cache, block_device);
                let i = (start / 512) as int;
                assert(id == block_id_of(m, fs1, i));
                if h {
                    assert forall|idx: usize|
                        idx != block_id_of(m, fs1, i) as usize implies #[trigger] fs2(idx) == fs1(
                        idx,
                    ) by {
                        assert(c2.content(&d2, idx) == c1.content(&d1, idx));
                    }
                    lemma_data_write(m, fs1, fs2, n, i);
                    assert(fs2(id as usize) == with_bytes(
                        fs1(id as usize),
                        (start % 512) as int,
                        src@,
                    )) by {
                        assert(c2.content(&d2, id as usize) == c1.content(&d1, id as usize));
                    }
                    assert(fs1(id as usize).len() == 512) by {
                        assert(c2.content(&d2, id as usize) == c1.content(&d1, id as usize));
                    }
                    assert forall|k: int| 0 <= k < size implies #[trigger] file_byte(m, fs2, k)
                        == if offset <= k < end_current_block {
                        buf@[k - offset]
                    } else {
                        file_byte(m, fs0, k)
                    } by {
                        let kb = k / 512;
                        assert(kb < n);
                        assert(block_id_of(m, fs2, kb) == block_id_of(m, fs1, kb));
                        if kb == i {
                            if start <= k < end_current_block {
                                assert(k % 512 == start % 512 + (k - start));
                                assert(src@[k - start] == buf@[write_size + (k - start)]);
                            }
                        } else {
                            assert(fs2(block_id_of(m, fs1, kb) as usize) == fs1(
                                block_id_of(m, fs1, kb) as usize,
                            ));
                        }
                        assert(file_byte(m, fs1, k) == if offset <= k < start {
                            buf@[k - offset]
                        } else {
                            file_byte(m, fs0, k)
                        });
                    }
                }
            }
            write_size += block_write_size;
            start = end_current_block;
        }
        write_size
    }
}

/// Size of a directory entry on the disk in bytes.
pub const DIRENT_SZ: usize = 32;

/// An entry of a directory: the name of a file, ended by a zero byte, in 28
/// bytes, and the number of the file's inode.
pub struct DirEntry {
    pub name: [u8; 28],
    pub inode_number: u32,
}

/// Index of the first zero byte among the first `n` bytes of `bytes`, or `n`.
pub open spec fn first_zero(bytes: Seq<u8>, n: int) -> int
    decreases n,
{
    if n <= 0 {
        0
    } else if first_zero(bytes, n - 1) < n - 1 {
        first_zero(bytes, n - 1)
    } else if bytes[n - 1] == 0 {
        n - 1
    } else {
        n
    }
}

/// What `first_zero` finds: no byte before it is zero, and the byte at it
/// is, unless it is `n`.
pub proof fn lemma_first_zero(bytes: Seq<u8>, n: int)
    requires
        0 <= n <= bytes.len(),
    ensures
        0 <= first_zero(bytes, n) <= n,
        forall|i: int| 0 <= i < first_zero(bytes, n) ==> bytes[i] != 0,
        first_zero(bytes, n) < n ==> bytes[first_zero(bytes, n)] == 0,
    decreases n,
{
    if n > 0 {
        lemma_first_zero(bytes, n - 1);
    }
}

impl DirEntry {
    /// The bytes of the name: those before the first zero byte.
    pub open spec fn name_bytes(&self) -> Seq<u8> {
        self.name@.take(first_zero(self.name@, 28))
    }

    /// An entry with an empty name and inode number 0.
    pub fn empty() -> (r: Self)
        ensures
            r.inode_number == 0,
            forall|i: int| 0 <= i < 28 ==> r.name@[i] == 0,
    {
        Self { name: [0u8; 28], inode_number: 0 }
    }

    /// The entry for the file `name` with inode `inode_number`. The name
    /// must leave room for the zero byte that ends it.
    pub fn new(name: &str, inode_number: u32) -> (r: Self)
        requires
            name.spec_bytes().len() <= NAME_LENGTH_LIMIT,
        ensures
            r.inode_number == inode_number,
            forall|i: int|
                0 <= i < 28 ==> r.name@[i] == if i < name.spec_bytes().len() {
                    name.spec_bytes()[i]
                } else {
                    0u8
                },
    {
        let src = name.as_bytes();
        let mut bytes = [0u8; 28];
        let mut i: usize = 0;
        while i < src.len()
            invariant
                0 <= i <= src@.len() <= 27,
                src@ == name.spec_bytes(),
                forall|k: int|
                    0 <= k < 28 ==> bytes@[k] == if k < i {
                        src@[k]
                    } else {
                        0u8
                    },
            decreases src@.len() - i,
        {
            bytes[i] = src[i];
            i += 1;
        }
        Self { name: bytes, inode_number }
    }

    /// The bytes of the name of the entry, which must hold a zero byte.
    pub fn name(&self) -> (r: Vec<u8>)
        requires
            first_zero(self.name@, 28) < 28,
        ensures
            r@ == self.name_bytes(),
    {
        let mut v: Vec<u8> = Vec::new();
        let mut i: usize = 0;
        proof {
            lemma_first_zero(self.name@, 28);
        }
        while i < 28 && self.name[i] != 0
            invariant
                0 <= i <= 28,
                i <= first_zero(self.name@, 28) < 28,
                first_zero(self.name@, 28) < 28 ==> self.name@[first_zero(self.name@, 28)] == 0,
                forall|k: int| 0 <= k < first_zero(self.name@, 28) ==> self.name@[k] != 0,
                v@ == self.name@.take(i as int),
            decreases 28 - i,
        {
            v.push(self.name[i]);
            i += 1;
            assert(v@ =~= self.name@.take(i as int));
        }
        v
    }

    /// The number of the inode of the file.
    pub fn inode_number(&self) -> (r: u32)
        ensures
            r == self.inode_number,
    {
        self.inode_number
    }

    /// The entry as it lies on the disk: the 28 bytes of the name, then the
    /// inode number, little-endian.
    pub fn as_bytes(&self) -> (r: Vec<u8>)
        ensures
            r@ == self.name@ + spec_u32_to_le_bytes(self.inode_number),
            r@.len() == 32,
    {
        let mut v: Vec<u8> = Vec::new();
        let mut i: usize = 0;
        while i < 28
            invariant
                0 <= i <= 28,
                v@ == self.name@.take(i as int),
            decreases 28 - i,
        {
            v.push(self.name[i]);
            i += 1;
            assert(v@ =~= self.name@.take(i as int));
        }
        assert(self.name@.take(28) =~= self.name@);
        let mut n = u32_to_le_bytes(self.inode_number);
        v.append(&mut n);
        v
    }

    /// The entry that lies on the disk as `bytes`.
    pub fn from_bytes(bytes: &[u8]) -> (r: Self)
        requires
            bytes@.len() == 32,
        ensures
            r.name@ == bytes@.take(28),
            r.inode_number == spec_u32_from_le_bytes(bytes@.subrange(28, 32)),
    {
        let mut name = [0u8; 28];
        let mut i: usize = 0;
        while i < 28
            invariant
                0 <= i <= 28,
                bytes@.len() == 32,
                forall|k: int| 0 <= k < i ==> name@[k] == bytes@[k],
            decreases 28 - i,
        {
            name[i] = bytes[i];
            i += 1;
        }
        assert(name@ =~= bytes@.take(28));
        let inode_number = u32_from_le_bytes(vstd::slice::slice_subrange(bytes, 28, 32));
        Self { name, inode_number }
    }
}

} // verus!
