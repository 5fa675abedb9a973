//! Condition variables.
use vstd::prelude::*;

verus! {

/// A condition variable: the threads that wait on it, the one that waits
/// longest first.
pub struct Condvar {
    pub wait_queue: Vec<usize>,
}

impl Condvar {
    /// A condition variable on which nobody waits.
    pub fn new() -> (r: Self)
        ensures
            r.wait_queue@.len() == 0,
    {
        Self { wait_queue: Vec::new() }
    }

    /// Takes the thread that waits longest out of the queue; it is to be
    /// made ready. `None` when nobody waits.
    pub fn signal(&mut self) -> (woken: Option<usize>)
        ensures
            old(self).wait_queue@.len() > 0 ==> woken == Some(old(self).wait_queue@[0]) && final(self).wait_queue@ == old(self).wait_queue@.skip(1),
            old(self).wait_queue@.len() == 0 ==> woken.is_none() && final(self).wait_queue@ == old(self).wait_queue@,
    {
        if self.wait_queue.len() > 0 {
            let t = self.wait_queue.remove(0);
            assert(self.wait_queue@ =~= old(self).wait_queue@.skip(1));
            Some(t)
        } else {
            None
        }
    }

    /// Puts thread `task` last in the queue; the thread is to block without
    /// the scheduler being entered.
    pub fn wait_no_sched(&mut self, task: usize)
        ensures
            final(self).wait_queue@ == old(self).wait_queue@.push(task),
    {
        self.wait_queue.push(task);
    }

    /// Thread `task`, which holds `mutex`, gives the mutex up and waits on
    /// the condition variable. Gives the thread that gets the mutex, if one
    /// waited for it. When `task` is woken, it asks for the mutex again.
    pub fn wait_with_mutex<M: super::mutex::Mutex>(&mut self, mutex: &mut M, task: usize) -> (woken:
        Option<usize>)
        requires
            old(mutex).is_locked(),
        ensures
            final(self).wait_queue@ == old(self).wait_queue@.push(task),
            final(mutex).when_locked() == old(mutex).when_locked(),
            old(mutex).waiters().len() > 0 ==> woken == Some(old(mutex).waiters()[0]) && final(mutex).waiters() == old(mutex).waiters().skip(1) && final(mutex).is_locked() == old(mutex).is_locked(),
            old(mutex).waiters().len() == 0 ==> woken.is_none() && !final(mutex).is_locked()
                && final(mutex).waiters() == old(mutex).waiters(),
    {
        let woken = mutex.unlock();
        self.wait_queue.push(task);
        woken
    }
}

} // verus!
