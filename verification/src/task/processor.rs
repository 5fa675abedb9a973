//! The processor: the thread that runs on it and the registers of the idle
//! flow of control that picks the next thread.
use vstd::prelude::*;
use super::context::TaskContext;

verus! {

/// The processor.
pub struct Processor {
    pub current: Option<usize>,
    pub idle_task_cx: TaskContext,
}

impl Processor {
    /// A processor on which no thread runs; the registers of its idle flow
    /// of control are zero.
    pub fn new() -> (r: Self)
        ensures
            r.current.is_none(),
            r.idle_task_cx.ra == 0,
            r.idle_task_cx.sp == 0,
            forall|i: int| 0 <= i < 12 ==> r.idle_task_cx.s@[i] == 0,
    {
        Self { current: None, idle_task_cx: TaskContext::zero_init() }
    }

    /// Takes the running thread off the processor.
    pub fn take_current(&mut self) -> (r: Option<usize>)
        ensures
            r == old(self).current,
            final(self).current.is_none(),
            final(self).idle_task_cx == old(self).idle_task_cx,
    {
        self.current.take()
    }

    /// The running thread.
    pub fn current(&self) -> (r: Option<usize>)
        ensures
            r == self.current,
    {
        self.current
    }
}

} // verus!
