//! Directories: files that hold entries of 32 bytes, one for each file of
//! the directory.
use vstd::prelude::*;
use vstd::bytes::spec_u32_from_le_bytes;
use super::block_cache::BlockCacheManager;
use super::block_dev::BlockDevice;
use super::efs::EasyFileSystem;
use super::layout::{
    blocks_for, file_byte, first_zero, fs_of, DirEntry, DiskInode, DiskInodeType, InodeMap,
    INDIRECT2_BOUND,
};

verus! {

/// Size of an entry of a directory in bytes.
pub const DIRENT_SZ: usize = 32;

/// The bytes of entry `i` of the directory with block map `m`.
pub open spec fn entry_bytes(m: InodeMap, fs: spec_fn(usize) -> Seq<u8>, i: int) -> Seq<u8> {
    Seq::new(32, |k: int| file_byte(m, fs, 32 * i + k))
}

/// The name of entry `i`: the bytes before the first zero byte among its
/// first 28 bytes.
pub open spec fn entry_name(m: InodeMap, fs: spec_fn(usize) -> Seq<u8>, i: int) -> Seq<u8> {
    let name = entry_bytes(m, fs, i).take(28);
    name.take(first_zero(name, 28))
}

/// The inode number of entry `i`: its last four bytes, little-endian.
pub open spec fn entry_inode(m: InodeMap, fs: spec_fn(usize) -> Seq<u8>, i: int) -> u32 {
    spec_u32_from_le_bytes(entry_bytes(m, fs, i).subrange(28, 32))
}

/// Index of the first entry with the name `name` among the entries from
/// `from` up to `n`, or -1.
pub open spec fn named_from(
    m: InodeMap,
    fs: spec_fn(usize) -> Seq<u8>,
    name: Seq<u8>,
    from: int,
    n: int,
) -> int
    decreases n - from,
{
    if from < 0 || from >= n {
        -1
    } else if entry_name(m, fs, from) == name {
        from
    } else {
        named_from(m, fs, name, from + 1, n)
    }
}

/// Whether two strings of bytes are the same.
fn same_bytes(a: &Vec<u8>, b: &[u8]) -> (r: bool)
    ensures
        r == (a@ == b@),
{
    if a.len() != b.len() {
        return false;
    }
    let mut i: usize = 0;
    while i < a.len()
        invariant
            0 <= i <= a@.len(),
            a@.len() == b@.len(),
            forall|k: int| 0 <= k < i ==> a@[k] == b@[k],
        decreases a@.len() - i,
    {
        if a[i] != b[i] {
            return false;
        }
        i += 1;
    }
    proof {
        assert(a@ =~= b@);
    }
    true
}

/// The name of an entry: the bytes before the first zero byte of its 28
/// bytes, all of them where none is zero.
pub fn name_of(entry: &DirEntry) -> (r: Vec<u8>)
    ensures
        r@ == entry.name_bytes(),
{
    let mut v: Vec<u8> = Vec::new();
    let mut i: usize = 0;
    while i < 28 && entry.name[i] != 0
        invariant
            0 <= i <= 28,
            first_zero(entry.name@, i as int) == i,
            v@ == entry.name@.take(i as int),
        decreases 28 - i,
    {
        v.push(entry.name[i]);
        i += 1;
        proof {
            assert(v@ =~= entry.name@.take(i as int));
        }
    }
    proof {
        lemma_first_zero_at(entry.name@, i as int, 28);
    }
    v
}

/// Where the first `i` bytes hold no zero byte and byte `i` is zero or `i`
/// is `n`, the first zero byte among the first `n` is at `i`.
pub proof fn lemma_first_zero_at(bytes: Seq<u8>, i: int, n: int)
    requires
        0 <= i <= n,
        first_zero(bytes, i) == i,
        i < n ==> bytes[i] == 0,
    ensures
        first_zero(bytes, n) == i,
    decreases n,
{
    if n > i {
        lemma_first_zero_at(bytes, i, n - 1);
    }
}

/// Entry `i` of the directory `dir`.
pub fn read_entry<D: BlockDevice>(
    dir: &DiskInode,
    i: usize,
    cache: &mut BlockCacheManager,
    block_device: &mut D,
) -> (r: DirEntry)
    requires
        old(cache).wf(old(block_device)),
        dir.nblocks() <= INDIRECT2_BOUND,
        32 * i + 32 <= dir.size,
    ensures
        final(cache).wf(final(block_device)),
        fs_of(final(cache), final(block_device)) == fs_of(old(cache), old(block_device)),
        r.name@ == entry_bytes(dir.map(), fs_of(old(cache), old(block_device)), i as int).take(28),
        r.name_bytes() == entry_name(dir.map(), fs_of(old(cache), old(block_device)), i as int),
        r.inode_number == entry_inode(dir.map(), fs_of(old(cache), old(block_device)), i as int),
{
    let mut buf: Vec<u8> = Vec::new();
    let mut k: usize = 0;
    while k < 32
        invariant
            0 <= k <= 32,
            buf@.len() == k,
        decreases 32 - k,
    {
        buf.push(0u8);
        k += 1;
    }
    let n = dir.read_at(DIRENT_SZ * i, &mut buf, cache, block_device);
    proof {
        assert(n == 32);
        assert(buf@ =~= entry_bytes(dir.map(), fs_of(old(cache), old(block_device)), i as int));
        assert(fs_of(cache, block_device) =~= fs_of(old(cache), old(block_device)));
    }
    DirEntry::from_bytes(buf.as_slice())
}

/// The inode number of the first file with the name `name` in the
/// directory `dir`, or `None` where there is no such file.
pub fn find_inode_id<D: BlockDevice>(
    dir: &DiskInode,
    name: &[u8],
    cache: &mut BlockCacheManager,
    block_device: &mut D,
) -> (r: Option<u32>)
    requires
        old(cache).wf(old(block_device)),
        dir.nblocks() <= INDIRECT2_BOUND,
    ensures
        final(cache).wf(final(block_device)),
        fs_of(final(cache), final(block_device)) == fs_of(old(cache), old(block_device)),
        ({
            let fs = fs_of(old(cache), old(block_device));
            let at = named_from(dir.map(), fs, name@, 0, dir.size as int / 32);
            r == if at < 0 {
                None
            } else {
                Some(entry_inode(dir.map(), fs, at))
            }
        }),
{
    let ghost fs = fs_of(old(cache), old(block_device));
    let count: usize = (dir.size / 32) as usize;
    let mut i: usize = 0;
    while i < count
        invariant
            0 <= i <= count,
            count == dir.size as int / 32,
            cache.wf(block_device),
            dir.nblocks() <= INDIRECT2_BOUND,
            fs_of(cache, block_device) == fs,
            fs == fs_of(old(cache), old(block_device)),
            named_from(dir.map(), fs, name@, i as int, count as int) == named_from(
                dir.map(),
                fs,
                name@,
                0,
                count as int,
            ),
        decreases count - i,
    {
        let entry = read_entry(dir, i, cache, block_device);
        let entry_name = name_of(&entry);
        if same_bytes(&entry_name, name) {
            return Some(entry.inode_number());
        }
        i += 1;
    }
    None
}

/// The names of the files of the directory `dir`, in the order of its entries.
pub fn ls<D: BlockDevice>(dir: &DiskInode, cache: &mut BlockCacheManager, block_device: &mut D) -> (r:
    Vec<Vec<u8>>)
    requires
        old(cache).wf(old(block_device)),
        dir.nblocks() <= INDIRECT2_BOUND,
    ensures
        final(cache).wf(final(block_device)),
        fs_of(final(cache), final(block_device)) == fs_of(old(cache), old(block_device)),
        r@.len() == dir.size as int / 32,
        forall|i: int|
            0 <= i < r@.len() ==> (#[trigger] r@[i])@ == entry_name(
                dir.map(),
                fs_of(old(cache), old(block_device)),
                i,
            ),
{
    let ghost fs = fs_of(old(cache), old(block_device));
    let count: usize = (dir.size / 32) as usize;
    let mut r: Vec<Vec<u8>> = Vec::new();
    let mut i: usize = 0;
    while i < count
        invariant
            0 <= i <= count,
            count == dir.size as int / 32,
            cache.wf(block_device),
            dir.nblocks() <= INDIRECT2_BOUND,
            fs_of(cache, block_device) == fs,
            fs == fs_of(old(cache), old(block_device)),
            r@.len() == i,
            forall|j: int| 0 <= j < i ==> (#[trigger] r@[j])@ == entry_name(dir.map(), fs, j),
        decreases count - i,
    {
        let entry = read_entry(dir, i, cache, block_device);
        r.push(name_of(&entry));
        i += 1;
    }
    r
}

/// The entry for the file `name`, which must leave room for the zero byte
/// that ends it, with inode `inode_number`.
pub fn entry_for(name: &[u8], inode_number: u32) -> (r: DirEntry)
    requires
        name@.len() <= 27,
    ensures
        r.inode_number == inode_number,
        forall|i: int|
            0 <= i < 28 ==> r.name@[i] == if i < name@.len() {
                name@[i]
            } else {
                0u8
            },
{
    let mut bytes = [0u8; 28];
    let mut i: usize = 0;
    while i < name.len()
        invariant
            0 <= i <= name@.len() <= 27,
            forall|k: int|
                0 <= k < 28 ==> bytes@[k] == if k < i {
                    name@[k]
                } else {
                    0u8
                },
        decreases name@.len() - i,
    {
        bytes[i] = name[i];
        i += 1;
    }
    DirEntry { name: bytes, inode_number }
}

/// Whether a file can be made in a directory of `size` bytes for certain without
/// a new block for the directory: the name leaves room for its zero byte,
/// the entry fits the last block of the directory, and an inode whose
/// number and whose block fit 32 bits is free.
pub open spec fn create_fits<D: BlockDevice>(
    fs: &EasyFileSystem,
    size: int,
    name: Seq<u8>,
    cache: &BlockCacheManager,
    dev: &D,
) -> bool {
    &&& name.len() <= 27
    &&& blocks_for(size + 32) == blocks_for(size)
    &&& size + 32 <= u32::MAX
    &&& blocks_for(size) <= INDIRECT2_BOUND
    &&& exists|bit: int|
        0 <= bit < fs.inode_bitmap.blocks * 4096 && bit <= u32::MAX && fs.inode_area_start_block + bit
            / 4 <= u32::MAX && !#[trigger] fs.inode_bitmap.is_set(cache, dev, bit)
}

/// Makes an empty file with the name `name` in the directory `root`, which
/// is inode 0: the file gets the lowest inode that is free, the directory
/// grows by the entry of the file, with blocks from the bitmap of the data
/// blocks where it needs them, and both inodes are written to the disk.
/// Gives the number and the inode of the file. `None`, with `root` as it
/// was and what was taken from the bitmaps given back, where the name is too
/// long, the directory cannot grow, or no inode or data block is free.
pub fn create<D: BlockDevice>(
    fs: &EasyFileSystem,
    root: &mut DiskInode,
    name: &[u8],
    cache: &mut BlockCacheManager,
    block_device: &mut D,
) -> (r: Option<(u32, DiskInode)>)
    requires
        fs.wf(),
        old(cache).wf(old(block_device)),
    ensures
        final(cache).wf(final(block_device)),
        create_fits(fs, old(root).size as int, name@, old(cache), old(block_device)) ==> r.is_some(),
        r.is_none() ==> *final(root) == *old(root),
        r.is_some() ==> {
            let (id, inode) = r.unwrap();
            &&& name@.len() <= 27
            &&& !fs.inode_bitmap.is_set(old(cache), old(block_device), id as int)
            &&& forall|b: int|
                0 <= b < id ==> #[trigger] fs.inode_bitmap.is_set(old(cache), old(block_device), b)
            &&& fs.inode_block(id) <= u32::MAX
            &&& inode.size == 0
            &&& inode.type_ == DiskInodeType::File
            &&& forall|i: int| 0 <= i < 28 ==> inode.direct@[i] == 0
            &&& inode.indirect1 == 0 && inode.indirect2 == 0
            &&& final(root).size == old(root).size + 32
            &&& final(root).type_ == old(root).type_
        },
{
    if name.len() > 27 {
        return None;
    }
    if root.size > u32::MAX - 32 {
        return None;
    }
    let old_size: u32 = root.size;
    let new_size: u32 = old_size + 32;
    if DiskInode::_data_blocks(new_size) as usize > INDIRECT2_BOUND {
        return None;
    }
    proof {
        assert(blocks_for(old_size as int) <= blocks_for(new_size as int));
    }
    let bit = match fs.inode_bitmap.allocate(cache, block_device) {
        None => {
            return None;
        },
        Some(bit) => bit,
    };
    if bit as u128 > u32::MAX as u128 || (bit / 4) as u128 + fs.inode_area_start_block as u128
        > u32::MAX as u128 {
        fs.inode_bitmap.dealloc(cache, block_device, bit);
        return None;
    }
    let id: u32 = bit as u32;
    let needed = root.blocks_num_needed(new_size);
    let mut blocks: Vec<u32> = Vec::new();
    let mut k: u32 = 0;
    while k < needed
        invariant
            0 <= k <= needed,
            blocks@.len() == k,
            fs.wf(),
            cache.wf(block_device),
            *root == *old(root),
            bit < fs.inode_bitmap.blocks * 4096,
            create_fits(fs, old(root).size as int, name@, old(cache), old(block_device)) ==> needed == 0,
        decreases needed - k,
    {
        match fs.alloc_data(cache, block_device) {
            None => {
                fs.dealloc_blocks(&blocks, cache, block_device);
                if fs.inode_bitmap.is_allocated(cache, block_device, bit) {
                    fs.inode_bitmap.dealloc(cache, block_device, bit);
                }
                return None;
            },
            Some(b) => {
                blocks.push(b);
            },
        }
        k += 1;
    }
    let mut inode = DiskInode {
        size: 0,
        direct: [0; 28],
        indirect1: 0,
        indirect2: 0,
        type_: DiskInodeType::File,
    };
    inode.initialize(DiskInodeType::File);
    fs.write_inode(id, &inode, cache, block_device);
    root.increase_size(new_size, blocks, cache, block_device);
    let entry = entry_for(name, id);
    let bytes = entry.as_bytes();
    root.write_at(old_size as usize, bytes.as_slice(), cache, block_device);
    fs.write_inode(0, root, cache, block_device);
    Some((id, inode))
}

/// All bytes of the file with inode `inode`.
pub fn read_all<D: BlockDevice>(inode: &DiskInode, cache: &mut BlockCacheManager, block_device: &mut D) -> (r:
    Vec<u8>)
    requires
        old(cache).wf(old(block_device)),
        inode.nblocks() <= INDIRECT2_BOUND,
    ensures
        final(cache).wf(final(block_device)),
        fs_of(final(cache), final(block_device)) == fs_of(old(cache), old(block_device)),
        r@.len() == inode.size,
        forall|k: int|
            0 <= k < inode.size ==> #[trigger] r@[k] == file_byte(
                inode.map(),
                fs_of(old(cache), old(block_device)),
                k,
            ),
{
    let size: usize = inode.size as usize;
    let mut buf: Vec<u8> = Vec::new();
    let mut k: usize = 0;
    while k < size
        invariant
            0 <= k <= size,
            buf@.len() == k,
        decreases size - k,
    {
        buf.push(0u8);
        k += 1;
    }
    let n = inode.read_at(0, &mut buf, cache, block_device);
    proof {
        assert(n == size);
        assert(fs_of(cache, block_device) =~= fs_of(old(cache), old(block_device)));
    }
    buf
}

/// The bytes of the file with the name `name` in the directory, inode 0,
/// of the file system `fs` on the disk `disk`; `None` where the directory or
/// the file is too large to be a file, there is no file of the name, or the
/// number of the block of its inode does not fit 32 bits.
pub open spec fn file_named(fs: &EasyFileSystem, disk: spec_fn(usize) -> Seq<u8>, name: Seq<u8>) -> Option<
    Seq<u8>,
> {
    let root = disk(fs.inode_area_start_block as usize);
    let size = super::block_cache::u32_at(root, 0);
    let at = named_from(super::efs::disk_map(root, 0), disk, name, 0, size as int / 32);
    let id = entry_inode(super::efs::disk_map(root, 0), disk, at);
    let block = disk(fs.inode_block(id) as usize);
    let index = fs.inode_index(id);
    let length = super::block_cache::u32_at(block, index);
    if blocks_for(size as int) <= INDIRECT2_BOUND && at >= 0 && fs.inode_block(id) <= u32::MAX
        && blocks_for(length as int) <= INDIRECT2_BOUND {
        Some(
            Seq::new(
                length as nat,
                |k: int| file_byte(super::efs::disk_map(block, index), disk, k),
            ),
        )
    } else {
        None
    }
}

/// All bytes of the file with the name `name` in the directory of the file
/// system `fs`; `None` where the directory or the file is too large to be a
/// file, there is no file of the name, or its inode cannot be read.
pub fn read_named<D: BlockDevice>(
    fs: &EasyFileSystem,
    name: &[u8],
    cache: &mut BlockCacheManager,
    block_device: &mut D,
) -> (r: Option<Vec<u8>>)
    requires
        old(cache).wf(old(block_device)),
    ensures
        final(cache).wf(final(block_device)),
        fs_of(final(cache), final(block_device)) == fs_of(old(cache), old(block_device)),
        match file_named(fs, fs_of(old(cache), old(block_device)), name@) {
            Some(bytes) => r.is_some() && r.unwrap()@ == bytes,
            None => r.is_none(),
        },
{
    let ghost c0 = *cache;
    let ghost d0 = *block_device;
    let ghost fs0 = fs_of(&c0, &d0);
    let root = match fs.read_inode(0, cache, block_device) {
        None => {
            return None;
        },
        Some(root) => root,
    };
    proof {
        super::efs::lemma_disk_map(fs0(fs.inode_area_start_block as usize), 0, root);
        assert(fs_of(cache, block_device) =~= fs0);
    }
    if root.data_blocks() as usize > INDIRECT2_BOUND {
        return None;
    }
    let id = match find_inode_id(&root, name, cache, block_device) {
        None => {
            return None;
        },
        Some(id) => id,
    };
    let ghost c1 = *cache;
    let ghost d1 = *block_device;
    proof {
        assert forall|b: usize| #[trigger] c1.content(&d1, b) == c0.content(&d0, b) by {
            assert(fs_of(&c1, &d1)(b) == fs0(b));
        }
    }
    let inode = match fs.read_inode(id, cache, block_device) {
        None => {
            return None;
        },
        Some(inode) => inode,
    };
    proof {
        super::efs::lemma_disk_map(fs0(fs.inode_block(id) as usize), fs.inode_index(id), inode);
        assert(fs_of(cache, block_device) =~= fs0);
    }
    if inode.data_blocks() as usize > INDIRECT2_BOUND {
        return None;
    }
    let r = read_all(&inode, cache, block_device);
    proof {
        assert(r@ =~= file_named(fs, fs0, name@).unwrap());
    }
    Some(r)
}

} // verus!
