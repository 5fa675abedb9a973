//! What programs use to talk to the kernel.
pub mod console;
pub mod lib;
pub mod syscall;
pub mod shell;
pub mod thread;
