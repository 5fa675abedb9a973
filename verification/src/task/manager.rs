//! The queue of the threads that are ready to run.
use vstd::prelude::*;

verus! {

/// The ready threads, by their handles, the one that waits longest first.
pub struct TaskManager {
    pub ready_queue: Vec<usize>,
}

impl TaskManager {
    /// An empty queue.
    pub fn new() -> (r: Self)
        ensures
            r.ready_queue@.len() == 0,
    {
        Self { ready_queue: Vec::new() }
    }

    /// Puts thread `task` last.
    pub fn add(&mut self, task: usize)
        ensures
            final(self).ready_queue@ == old(self).ready_queue@.push(task),
    {
        self.ready_queue.push(task);
    }

    /// Takes the first thread out of the queue.
    pub fn fetch(&mut self) -> (r: Option<usize>)
        ensures
            old(self).ready_queue@.len() == 0 ==> r.is_none() && final(self).ready_queue@ == old(self).ready_queue@,
            old(self).ready_queue@.len() > 0 ==> r == Some(old(self).ready_queue@[0]) && final(self).ready_queue@ == old(self).ready_queue@.skip(1),
    {
        if self.ready_queue.len() > 0 {
            let t = self.ready_queue.remove(0);
            assert(self.ready_queue@ =~= old(self).ready_queue@.skip(1));
            Some(t)
        } else {
            None
        }
    }

    /// Takes thread `task` out of the queue where it stands first; nothing
    /// changes when it is not in the queue.
    pub fn remove(&mut self, task: usize)
        ensures
            !old(self).ready_queue@.contains(task) ==> final(self).ready_queue@ == old(self).ready_queue@,
            old(self).ready_queue@.contains(task) ==> final(self).ready_queue@ == old(self).ready_queue@.remove(old(self).ready_queue@.index_of_first(task).unwrap()),
    {
        let mut i: usize = 0;
        while i < self.ready_queue.len()
            invariant
                0 <= i <= self.ready_queue@.len(),
                self.ready_queue@ == old(self).ready_queue@,
                forall|j: int| 0 <= j < i ==> self.ready_queue@[j] != task,
            decreases self.ready_queue@.len() - i,
        {
            if self.ready_queue[i] == task {
                proof {
                    let q = old(self).ready_queue@;
                    assert(q.contains(task));
                    q.index_of_first_ensures(task);
                    assert(q.index_of_first(task) == Some(i as int)) by {
                        let f = q.index_of_first(task);
                        assert(f.is_some());
                        if f.unwrap() < i {
                            assert(q[f.unwrap()] != task);
                        }
                    }
                }
                self.ready_queue.remove(i);
                return ;
            }
            i += 1;
        }
    }
}

} // verus!
