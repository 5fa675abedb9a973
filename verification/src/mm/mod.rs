//! Virtual-memory management: addresses, frames, page tables and address spaces.
pub mod address;
pub mod frame_allocator;
pub mod page_table;
pub mod memory_set;
pub mod elf;
pub mod user_buffer;
