//! The registers that a switch between threads saves.
use vstd::prelude::*;

verus! {

/// The registers of a thread while it is not running: the return address,
/// the stack pointer, and the twelve registers that a callee saves.
#[derive(Copy, Clone, Debug)]
pub struct TaskContext {
    pub ra: u64,
    pub sp: u64,
    pub s: [u64; 12],
}

impl TaskContext {
    /// All registers zero.
    pub fn zero_init() -> (r: Self)
        ensures
            r.ra == 0,
            r.sp == 0,
            forall|i: int| 0 <= i < 12 ==> r.s@[i] == 0,
    {
        Self { ra: 0, sp: 0, s: [0; 12] }
    }

    /// The registers of a thread that, when it is switched to, returns to
    /// the program by the routine at `trap_return`, on the kernel stack that
    /// tops at `kstack_ptr`.
    pub fn goto_trap_return(kstack_ptr: u64, trap_return: u64) -> (r: Self)
        ensures
            r.ra == trap_return,
            r.sp == kstack_ptr,
            forall|i: int| 0 <= i < 12 ==> r.s@[i] == 0,
    {
        Self { ra: trap_return, sp: kstack_ptr, s: [0; 12] }
    }
}

} // verus!
