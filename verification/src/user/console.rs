//! The console of a program: output through file descriptor 1, input
//! through file descriptor 0.
use vstd::prelude::*;
use super::syscall::{is_call, SyscallRequest, SYSCALL_READ, SYSCALL_WRITE};

verus! {

/// The file descriptor of the input of a program.
pub const STDIN: usize = 0;

/// The file descriptor of the output of a program.
pub const STDOUT: usize = 1;

/// The request that prints the `len` bytes of text at address `text`.
pub fn print(text: u64, len: u64) -> (r: SyscallRequest)
    ensures
        is_call(r, SYSCALL_WRITE, 1, text, len),
{
    crate::user::lib::write(STDOUT, text, len)
}

/// The request that reads one character to address `buffer`.
pub fn getchar(buffer: u64) -> (r: SyscallRequest)
    ensures
        is_call(r, SYSCALL_READ, 0, buffer, 1),
{
    crate::user::lib::read(STDIN, buffer, 1)
}

} // verus!
