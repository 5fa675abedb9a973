//! Core of a small teaching kernel for a 64-bit RISC-V class machine, together
//! with its block-device file system, written as a verified library.
//!
//! Hardware effects (control registers, context switching, the console, the
//! block device) are left to the caller: every function here works on plain
//! values and states in its contract what it returns and changes.
use vstd::prelude::*;

pub mod batch;
pub mod config;
pub mod easy_fs;
pub mod fs;
pub mod kernel;
pub mod mm;
pub mod sync;
pub mod syscall;
pub mod task;
pub mod timer;
pub mod trap;
pub mod user;

