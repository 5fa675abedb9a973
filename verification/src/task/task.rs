//! Threads.
use vstd::prelude::*;
use super::context::TaskContext;
use super::id::{KernelStack, TaskUserRes};
use crate::mm::address::PhysPageNum;
use crate::trap::context::TrapContext;

verus! {

/// Whether a thread waits for the processor, runs, or waits for something else.
#[derive(Copy, Clone, PartialEq, Eq, Structural, Debug)]
pub enum TaskStatus {
    Ready,
    Running,
    Blocking,
}

/// What a thread does first when it runs again, before it returns to its program.
#[derive(Copy, Clone, PartialEq, Eq, Structural, Debug)]
pub enum Resume {
    /// It returns to its program.
    ToUser,
    /// It makes the system call again that could not go on.
    Again,
    /// It asks again for the mutex that it gave up while it waited.
    Relock(usize),
    /// It looks at its pending signals again.
    Signals,
}

/// A thread: its process, its kernel stack, what it has in the address space
/// of the process, the frame of its trap context and the context itself, the
/// registers saved at the last switch, its status, and its exit code once it
/// has ended.
#[derive(Copy, Clone, Debug)]
pub struct TaskControlBlock {
    pub process: usize,
    pub kstack: KernelStack,
    pub res: Option<TaskUserRes>,
    pub trap_cx_ppn: PhysPageNum,
    pub trap_cx: TrapContext,
    pub task_cx: TaskContext,
    pub task_status: TaskStatus,
    pub exit_code: Option<i32>,
    pub resume: Resume,
    /// Number of bytes that a read or write that had to wait has moved so far.
    pub progress: u64,
}

impl TaskControlBlock {
    /// The trap context of the thread.
    pub fn get_trap_cx(&mut self) -> (r: &mut TrapContext)
        ensures
            *r == old(self).trap_cx,
            *final(self) == (TaskControlBlock { trap_cx: *final(r), ..*old(self) }),
    {
        &mut self.trap_cx
    }

    /// The status of the thread.
    pub fn get_status(&self) -> (r: TaskStatus)
        ensures
            r == self.task_status,
    {
        self.task_status
    }
}

} // verus!
