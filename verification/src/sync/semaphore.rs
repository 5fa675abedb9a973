//! Counting semaphores.
use vstd::prelude::*;

verus! {

/// A semaphore: a count, which goes below zero by the number of threads that
/// wait, and the threads that wait, the one that waits longest first.
pub struct Semaphore {
    pub count: i64,
    pub wait_queue: Vec<usize>,
}

impl Semaphore {
    /// The count and the queue agree: below zero the count is the number of
    /// the threads that wait, with its sign turned, and nobody waits on a
    /// count that is not below zero. So no thread waits while the semaphore
    /// has something to give, and each thread that waits is owed one `up`.
    pub open spec fn wf(&self) -> bool {
        self.wait_queue@.len() == if self.count < 0 {
            -self.count
        } else {
            0
        }
    }

    /// A semaphore that starts at `res_count`.
    pub fn new(res_count: usize) -> (r: Self)
        requires
            res_count <= i64::MAX,
        ensures
            r.count == res_count,
            r.wait_queue@.len() == 0,
            r.wf(),
    {
        Self { count: res_count as i64, wait_queue: Vec::new() }
    }

    /// Raises the count. Where it is still not above zero, the thread that
    /// waits longest, if there is one, is to be made ready.
    pub fn up(&mut self) -> (woken: Option<usize>)
        requires
            old(self).count < i64::MAX,
        ensures
            old(self).wf() ==> final(self).wf(),
            old(self).wf() ==> woken.is_some() == (old(self).count < 0),
            final(self).count == old(self).count + 1,
            old(self).count + 1 <= 0 && old(self).wait_queue@.len() > 0 ==> woken == Some(
                old(self).wait_queue@[0],
            ) && final(self).wait_queue@ == old(self).wait_queue@.skip(1),
            !(old(self).count + 1 <= 0 && old(self).wait_queue@.len() > 0) ==> woken.is_none()
                && final(self).wait_queue@ == old(self).wait_queue@,
    {
        self.count += 1;
        if self.count <= 0 && self.wait_queue.len() > 0 {
            let t = self.wait_queue.remove(0);
            assert(self.wait_queue@ =~= old(self).wait_queue@.skip(1));
            Some(t)
        } else {
            None
        }
    }

    /// Lowers the count for thread `task` and says whether the thread has
    /// to wait: when the count went below zero. It then stands last in the queue.
    pub fn down(&mut self, task: usize) -> (blocked: bool)
        requires
            old(self).count > i64::MIN,
        ensures
            old(self).wf() ==> final(self).wf(),
            final(self).count == old(self).count - 1,
            blocked == (old(self).count - 1 < 0),
            final(self).wait_queue@ == if blocked {
                old(self).wait_queue@.push(task)
            } else {
                old(self).wait_queue@
            },
    {
        self.count -= 1;
        if self.count < 0 {
            self.wait_queue.push(task);
            true
        } else {
            false
        }
    }
}

} // verus!
