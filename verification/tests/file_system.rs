use os_core::easy_fs::bitmap::{decomposition, Bitmap};
use os_core::easy_fs::block_cache::{block_cache_sync_all, BlockCacheManager};
use os_core::easy_fs::block_dev::{BlockDevice, RamDisk};
use os_core::easy_fs::efs::{get_data_block_id, get_disk_inode_pos, read_disk_inode, write_disk_inode};
use os_core::easy_fs::layout::{DirEntry, DiskInode, DiskInodeType, SuperBlock};
use os_core::easy_fs::vfs::{find_inode_id, ls, name_of, read_entry};

fn empty_inode() -> DiskInode {
    DiskInode { size: 0, direct: [0; 28], indirect1: 0, indirect2: 0, type_: DiskInodeType::File }
}

#[test]
fn bitmap_alloc_is_lowest_free_and_dealloc_restores() {
    let mut dev = RamDisk::new();
    let mut cache = BlockCacheManager::new();
    let bitmap = Bitmap::new(3, 2);
    assert_eq!(bitmap.maximum(), 8192);
    assert_eq!(bitmap.allocate(&mut cache, &mut dev), Some(0));
    assert_eq!(bitmap.allocate(&mut cache, &mut dev), Some(1));
    assert_eq!(bitmap.allocate(&mut cache, &mut dev), Some(2));
    bitmap.dealloc(&mut cache, &mut dev, 1);
    assert_eq!(bitmap.allocate(&mut cache, &mut dev), Some(1));
    block_cache_sync_all(&mut cache, &mut dev);
    let mut block = vec![0u8; 512];
    dev.read_block(3, &mut block);
    assert_eq!(block[0], 0b111);
    bitmap.dealloc(&mut cache, &mut dev, 0);
    bitmap.dealloc(&mut cache, &mut dev, 1);
    bitmap.dealloc(&mut cache, &mut dev, 2);
    block_cache_sync_all(&mut cache, &mut dev);
    dev.read_block(3, &mut block);
    assert_eq!(block, vec![0u8; 512]);
}

#[test]
fn bitmap_crosses_words_and_blocks_and_runs_out() {
    let mut dev = RamDisk::new();
    let mut cache = BlockCacheManager::new();
    let bitmap = Bitmap::new(0, 1);
    for i in 0..4096usize {
        assert_eq!(bitmap.allocate(&mut cache, &mut dev), Some(i));
    }
    assert_eq!(bitmap.allocate(&mut cache, &mut dev), None);
    bitmap.dealloc(&mut cache, &mut dev, 130);
    assert_eq!(bitmap.allocate(&mut cache, &mut dev), Some(130));
    assert_eq!(decomposition(8555), (2, 5, 43));
}

#[test]
fn block_cache_writes_back_on_eviction_and_sync() {
    let mut dev = RamDisk::new();
    let mut cache = BlockCacheManager::new();
    cache.write_u32(7, 3, 0xdead_beef, &mut dev);
    let mut block = vec![0u8; 512];
    dev.read_block(7, &mut block);
    assert_eq!(&block[12..16], &[0, 0, 0, 0]);
    for id in 100..116usize {
        assert_eq!(cache.read_u32(id, 0, &mut dev), 0);
    }
    assert_eq!(cache.queue.len(), 16);
    assert!(cache.queue.iter().all(|b| b.block_id != 7));
    dev.read_block(7, &mut block);
    assert_eq!(&block[12..16], &0xdead_beefu32.to_le_bytes());
    assert_eq!(cache.read_u32(7, 3, &mut dev), 0xdead_beef);
    cache.write_u64(200, 1, 5, &mut dev);
    block_cache_sync_all(&mut cache, &mut dev);
    dev.read_block(200, &mut block);
    assert_eq!(&block[8..16], &5u64.to_le_bytes());
}

#[test]
fn total_blocks_counts_index_blocks() {
    assert_eq!(DiskInode::total_blocks(0), 0);
    assert_eq!(DiskInode::total_blocks(1), 1);
    assert_eq!(DiskInode::total_blocks(28 * 512), 28);
    assert_eq!(DiskInode::total_blocks(28 * 512 + 1), 30);
    assert_eq!(DiskInode::total_blocks(156 * 512), 157);
    assert_eq!(DiskInode::total_blocks(156 * 512 + 1), 160);
    assert_eq!(DiskInode::total_blocks((156 + 128) * 512), 156 + 128 + 3);
    assert_eq!(DiskInode::total_blocks((156 + 129) * 512), 156 + 129 + 4);
    assert_eq!(DiskInode::_data_blocks(5000), 10);
}

#[test]
fn write_then_read_a_5000_byte_file() {
    let mut dev = RamDisk::new();
    let mut cache = BlockCacheManager::new();
    let mut inode = empty_inode();
    inode.initialize(DiskInodeType::File);
    assert!(inode.is_file() && !inode.is_dir());
    let needed = inode.blocks_num_needed(5000);
    assert_eq!(needed, 10);
    let blocks: Vec<u32> = (50..60).collect();
    inode.increase_size(5000, blocks, &mut cache, &mut dev);
    assert_eq!(inode.size, 5000);
    assert_eq!(inode.data_blocks(), 10);
    let written: Vec<u8> = (0..5000u32).map(|i| (i * 31 % 256) as u8).collect();
    assert_eq!(inode.write_at(0, &written, &mut cache, &mut dev), 5000);
    let mut buf = vec![0u8; 5000];
    assert_eq!(inode.read_at(0, &mut buf, &mut cache, &mut dev), 5000);
    assert_eq!(buf, written);
    let mut tail = vec![0xffu8; 100];
    assert_eq!(inode.read_at(4990, &mut tail, &mut cache, &mut dev), 10);
    assert_eq!(&tail[..10], &written[4990..]);
    assert_eq!(tail[10], 0xff);
    assert_eq!(inode.read_at(5000, &mut tail, &mut cache, &mut dev), 0);
    assert_eq!(inode.write_at(4999, &[1, 2, 3], &mut cache, &mut dev), 1);
}

#[test]
fn grow_through_both_index_levels_and_clear() {
    let mut dev = RamDisk::new();
    let mut cache = BlockCacheManager::new();
    let mut inode = empty_inode();
    let n_data: u32 = 156 + 128 + 5;
    let size = n_data * 512;
    let total = DiskInode::total_blocks(size);
    assert_eq!(total, n_data + 1 + 1 + 2);
    let blocks: Vec<u32> = (1000..1000 + total).collect();
    inode.increase_size(size, blocks.clone(), &mut cache, &mut dev);
    assert_eq!(inode.direct[0], 1000);
    assert_eq!(inode.direct[27], 1027);
    assert_eq!(inode.indirect1, 1028);
    assert_eq!(inode.get_block_id(28, &mut cache, &mut dev), 1029);
    assert_eq!(inode.get_block_id(155, &mut cache, &mut dev), 1156);
    assert_eq!(inode.indirect2, 1157);
    assert_eq!(inode.get_block_id(156, &mut cache, &mut dev), 1159);
    assert_eq!(inode.get_block_id(156 + 128, &mut cache, &mut dev), 1159 + 128 + 1);
    let freed = inode.clear_size(&mut cache, &mut dev);
    assert_eq!(freed, blocks);
    assert_eq!(inode.size, 0);
    assert_eq!(inode.indirect1, 0);
    assert_eq!(inode.indirect2, 0);
    assert_eq!(inode.direct[5], 0);
}

#[test]
fn grow_in_two_steps_keeps_the_first_blocks() {
    let mut dev = RamDisk::new();
    let mut cache = BlockCacheManager::new();
    let mut inode = empty_inode();
    inode.increase_size(20 * 512, (10..30).collect(), &mut cache, &mut dev);
    let bytes = vec![7u8; 20 * 512];
    inode.write_at(0, &bytes, &mut cache, &mut dev);
    let more = inode.blocks_num_needed(40 * 512);
    assert_eq!(more, 21);
    inode.increase_size(40 * 512, (100..121).collect(), &mut cache, &mut dev);
    assert_eq!(inode.direct[19], 29);
    assert_eq!(inode.direct[20], 100);
    assert_eq!(inode.indirect1, 108);
    assert_eq!(inode.get_block_id(28, &mut cache, &mut dev), 109);
    let mut buf = vec![0u8; 512];
    assert_eq!(inode.read_at(19 * 512, &mut buf, &mut cache, &mut dev), 512);
    assert_eq!(buf, vec![7u8; 512]);
}

#[test]
fn super_block_is_valid_after_initialize() {
    let mut sb = SuperBlock {
        magic: 0,
        total_blocks: 0,
        inode_bitmap_blocks: 0,
        inode_area_blocks: 0,
        data_bitmap_blocks: 0,
        data_area_blocks: 0,
    };
    assert!(!sb.is_valid());
    sb.initialize(4096, 1, 8, 1, 4085);
    assert!(sb.is_valid());
    assert_eq!(sb.magic, 0x3b80_0001);
    assert_eq!(sb.data_area_blocks, 4085);
}

#[test]
fn dir_entry_name_and_bytes() {
    let e = DirEntry::new("initproc", 5);
    assert_eq!(e.name(), b"initproc".to_vec());
    assert_eq!(e.inode_number(), 5);
    let bytes = e.as_bytes();
    assert_eq!(bytes.len(), 32);
    assert_eq!(&bytes[..8], b"initproc");
    assert_eq!(bytes[8], 0);
    assert_eq!(&bytes[28..], &5u32.to_le_bytes());
    let back = DirEntry::from_bytes(&bytes);
    assert_eq!(back.name(), b"initproc".to_vec());
    assert_eq!(back.inode_number(), 5);
    let none = DirEntry::empty();
    assert_eq!(none.name(), Vec::<u8>::new());
    assert_eq!(none.inode_number(), 0);
}

#[test]
fn directory_entries_are_found_by_name() {
    let mut dev = RamDisk::new();
    let mut cache = BlockCacheManager::new();
    let mut dir = empty_inode();
    dir.initialize(DiskInodeType::Directory);
    assert!(dir.is_dir());
    assert_eq!(find_inode_id(&dir, b"ls", &mut cache, &mut dev), None);
    assert!(ls(&dir, &mut cache, &mut dev).is_empty());
    dir.increase_size(96, vec![70], &mut cache, &mut dev);
    let entries = [DirEntry::new("initproc", 1), DirEntry::new("ls", 7), DirEntry::new("ls", 9)];
    for (i, e) in entries.iter().enumerate() {
        assert_eq!(dir.write_at(32 * i, &e.as_bytes(), &mut cache, &mut dev), 32);
    }
    assert_eq!(find_inode_id(&dir, b"ls", &mut cache, &mut dev), Some(7));
    assert_eq!(find_inode_id(&dir, b"initproc", &mut cache, &mut dev), Some(1));
    assert_eq!(find_inode_id(&dir, b"l", &mut cache, &mut dev), None);
    assert_eq!(find_inode_id(&dir, b"", &mut cache, &mut dev), None);
    assert_eq!(
        ls(&dir, &mut cache, &mut dev),
        vec![b"initproc".to_vec(), b"ls".to_vec(), b"ls".to_vec()]
    );
    let second = read_entry(&dir, 1, &mut cache, &mut dev);
    assert_eq!(second.inode_number(), 7);
    assert_eq!(name_of(&second), b"ls".to_vec());
    let full = DirEntry { name: [b'x'; 28], inode_number: 3 };
    assert_eq!(name_of(&full), vec![b'x'; 28]);
}

#[test]
fn inodes_lie_four_to_a_block() {
    assert_eq!(get_disk_inode_pos(2, 0), (2, 0));
    assert_eq!(get_disk_inode_pos(2, 3), (2, 96));
    assert_eq!(get_disk_inode_pos(2, 9), (4, 32));
    assert_eq!(get_data_block_id(100, 5), 105);
    let mut dev = RamDisk::new();
    let mut cache = BlockCacheManager::new();
    let mut inode = empty_inode();
    inode.size = 5000;
    inode.direct[0] = 11;
    inode.direct[27] = 38;
    inode.indirect1 = 40;
    inode.indirect2 = 41;
    inode.type_ = DiskInodeType::Directory;
    let mut other = empty_inode();
    other.size = 77;
    write_disk_inode(&other, 3, 0, &mut cache, &mut dev);
    write_disk_inode(&inode, 3, 32, &mut cache, &mut dev);
    let back = read_disk_inode(3, 32, &mut cache, &mut dev);
    assert_eq!(back.size, 5000);
    assert_eq!(back.direct, inode.direct);
    assert_eq!((back.indirect1, back.indirect2), (40, 41));
    assert!(back.is_dir());
    let first = read_disk_inode(3, 0, &mut cache, &mut dev);
    assert_eq!(first.size, 77);
    assert!(first.is_file());
    assert_eq!(read_disk_inode(3, 64, &mut cache, &mut dev).size, 0);
    block_cache_sync_all(&mut cache, &mut dev);
    assert_eq!(&dev.blocks[3][128..132], &5000u32.to_le_bytes());
    assert_eq!(&dev.blocks[3][128 + 124..128 + 128], &1u32.to_le_bytes());
}
