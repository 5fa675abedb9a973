//! Mutexes: one on which a thread that finds it locked tries again after
//! giving up the processor, and one on which it waits in a queue.
use vstd::prelude::*;

verus! {

/// What a thread that asked for a mutex does next.
#[derive(Copy, Clone, PartialEq, Eq, Structural, Debug)]
pub enum LockOutcome {
    /// The thread holds the mutex.
    Acquired,
    /// The mutex is locked; the thread gives up the processor and asks again.
    Retry,
    /// The mutex is locked; the thread waits until the mutex is handed to it.
    Blocked,
}

/// A mutex for the threads of a process. Threads are named by their handles.
pub trait Mutex {
    /// Whether the mutex is locked.
    spec fn is_locked(&self) -> bool;

    /// The threads that wait for the mutex, the one that waits longest first.
    spec fn waiters(&self) -> Seq<usize>;

    /// What the outcome of `lock` is on a locked mutex.
    spec fn when_locked(&self) -> LockOutcome;

    /// Thread `task` asks for the mutex. A free mutex is locked for it. On a
    /// locked mutex the thread tries again later or joins the queue.
    fn lock(&mut self, task: usize) -> (r: LockOutcome)
        ensures
            final(self).when_locked() == old(self).when_locked(),
            !old(self).is_locked() ==> r == LockOutcome::Acquired && final(self).is_locked()
                && final(self).waiters() == old(self).waiters(),
            old(self).is_locked() ==> r == old(self).when_locked() && final(self).is_locked()
                && final(self).waiters() == if r == LockOutcome::Blocked {
                old(self).waiters().push(task)
            } else {
                old(self).waiters()
            },
    ;

    /// The holder gives the mutex up, which must be locked. The thread that
    /// waits longest, if there is one, gets the mutex and is to be made
    /// ready; else the mutex is free.
    fn unlock(&mut self) -> (woken: Option<usize>)
        requires
            old(self).is_locked(),
        ensures
            final(self).when_locked() == old(self).when_locked(),
            old(self).waiters().len() > 0 ==> woken == Some(old(self).waiters()[0]) && final(self).waiters() == old(self).waiters().skip(1) && final(self).is_locked() == old(self).is_locked(),
            old(self).waiters().len() == 0 ==> woken.is_none() && !final(self).is_locked() && final(self).waiters() == old(self).waiters(),
    ;
}

/// A mutex on which a thread that finds it locked gives up the processor
/// and tries again.
pub struct MutexSpin {
    pub locked: bool,
}

impl MutexSpin {
    /// A free mutex.
    pub fn new() -> (r: Self)
        ensures
            !r.locked,
    {
        Self { locked: false }
    }
}

impl Mutex for MutexSpin {
    open spec fn is_locked(&self) -> bool {
        self.locked
    }

    open spec fn waiters(&self) -> Seq<usize> {
        Seq::empty()
    }

    open spec fn when_locked(&self) -> LockOutcome {
        LockOutcome::Retry
    }

    fn lock(&mut self, task: usize) -> (r: LockOutcome) {
        if self.locked {
            LockOutcome::Retry
        } else {
            self.locked = true;
            LockOutcome::Acquired
        }
    }

    fn unlock(&mut self) -> (woken: Option<usize>) {
        self.locked = false;
        None
    }
}

/// A mutex on which threads that find it locked wait in a queue.
pub struct MutexBlocking {
    pub locked: bool,
    pub wait_queue: Vec<usize>,
}

impl MutexBlocking {
    /// A free mutex on which nobody waits.
    pub fn new() -> (r: Self)
        ensures
            !r.locked,
            r.wait_queue@.len() == 0,
    {
        Self { locked: false, wait_queue: Vec::new() }
    }
}

impl Mutex for MutexBlocking {
    open spec fn is_locked(&self) -> bool {
        self.locked
    }

    open spec fn waiters(&self) -> Seq<usize> {
        self.wait_queue@
    }

    open spec fn when_locked(&self) -> LockOutcome {
        LockOutcome::Blocked
    }

    fn lock(&mut self, task: usize) -> (r: LockOutcome) {
        if self.locked {
            self.wait_queue.push(task);
            LockOutcome::Blocked
        } else {
            self.locked = true;
            LockOutcome::Acquired
        }
    }

    fn unlock(&mut self) -> (woken: Option<usize>) {
        if self.wait_queue.len() > 0 {
            let t = self.wait_queue.remove(0);
            assert(self.wait_queue@ =~= old(self).wait_queue@.skip(1));
            Some(t)
        } else {
            self.locked = false;
            None
        }
    }
}

} // verus!
