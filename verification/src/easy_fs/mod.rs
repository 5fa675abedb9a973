//! A file system on a block device: a cache of blocks, bitmaps that hand out
//! inodes and data blocks, and inodes with direct and indirect block maps.
pub mod block_cache;
pub mod block_dev;
pub mod bitmap;
pub mod efs;
pub mod layout;
pub mod vfs;
