//! Files as processes see them: pipes, the console and files on the disk.
pub mod inode;
pub mod pipe;
