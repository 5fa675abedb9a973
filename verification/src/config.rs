//! Constants of the machine and of the kernel's address-space layout.
//!
//! The machine is a 64-bit one: addresses, registers and page numbers are
//! `u64` values here, whatever the width of `usize` on the host.
use vstd::prelude::*;

verus! {

/// Size of a user stack in bytes.
pub const USER_STACK_SIZE: u64 = 8192;

/// Size of a kernel stack in bytes.
pub const KERNEL_STACK_SIZE: u64 = 8192;

/// Size of the kernel heap in bytes.
pub const KERNEL_HEAP_SIZE: u64 = 0x20_0000;

/// Size of a page and of a physical frame in bytes.
pub const PAGE_SIZE: u64 = 0x1000;

/// Number of address bits that select a byte within a page.
pub const PAGE_SIZE_BITS: u64 = 12;

/// Address of the trampoline page, the highest page of every address space.
pub const TRAMPOLINE: u64 = 0xffff_ffff_ffff_f000;

/// Address of the trap-context page of the main thread, just below the trampoline.
pub const TRAP_CONTEXT: u64 = 0xffff_ffff_ffff_e000;

/// Address from which the trap-context pages of the threads of a process grow downwards.
pub const TRAP_CONTEXT_BASE: u64 = 0xffff_ffff_ffff_e000;

} // verus!
