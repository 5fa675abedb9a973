//! Threads that a program runs by itself, taking turns without the kernel.
use vstd::prelude::*;

verus! {

/// Size of the stack of a thread in bytes.
pub const DEFAULT_STACK_SIZE: u64 = 1024;

/// Number of threads of a runtime.
pub const MAX_THREADS: usize = 4;

/// Whether a thread is free, runs, or waits for its turn.
#[derive(Copy, Clone, PartialEq, Eq, Structural, Debug)]
pub enum State {
    Available,
    Running,
    Ready,
}

/// The registers of a thread while it does not run: the return address,
/// the stack pointer, the registers that a callee saves, and the address at
/// which the thread starts.
#[derive(Copy, Clone, Debug)]
pub struct ThreadContext {
    pub ra: u64,
    pub sp: u64,
    pub s: [u64; 12],
    pub nx1: u64,
}

/// A thread of a runtime.
#[derive(Copy, Clone, Debug)]
pub struct Thread {
    pub id: usize,
    pub ctx: ThreadContext,
    pub state: State,
}

/// The threads of a program and the one that runs.
pub struct Runtime {
    pub threads: Vec<Thread>,
    pub current: usize,
}

/// Index of the first thread that waits for its turn, looking at `n`
/// threads from thread `from` on and going round at the end; -1 if none of
/// them waits.
pub open spec fn next_ready(threads: Seq<Thread>, from: int, n: int) -> int
    decreases n,
{
    if n <= 0 || threads.len() == 0 {
        -1
    } else if threads[from % (threads.len() as int)].state == State::Ready {
        from % (threads.len() as int)
    } else {
        next_ready(threads, from + 1, n - 1)
    }
}

impl Thread {
    /// A free thread with number `id`.
    pub fn new(id: usize) -> (r: Self)
        ensures
            r.id == id,
            r.state == State::Available,
            r.ctx.ra == 0 && r.ctx.sp == 0 && r.ctx.nx1 == 0,
    {
        Thread { id, ctx: ThreadContext { ra: 0, sp: 0, s: [0; 12], nx1: 0 }, state: State::Available }
    }

    /// The thread that runs when the runtime starts.
    pub fn init() -> (r: Self)
        ensures
            r.id == 0,
            r.state == State::Running,
            r.ctx.ra == 0 && r.ctx.sp == 0 && r.ctx.nx1 == 0,
    {
        Thread { id: 0, ctx: ThreadContext { ra: 0, sp: 0, s: [0; 12], nx1: 0 }, state: State::Running }
    }
}

impl Runtime {
    /// There are threads, and the one that runs is one of them.
    pub open spec fn wf(&self) -> bool {
        0 <= self.current < self.threads@.len()
    }

    /// A runtime of `MAX_THREADS` threads: the first runs, the others are free.
    pub fn new() -> (r: Self)
        ensures
            r.wf(),
            r.current == 0,
            r.threads@.len() == MAX_THREADS,
            r.threads@[0].state == State::Running,
            forall|i: int| 0 <= i < MAX_THREADS ==> (#[trigger] r.threads@[i]).id == i,
            forall|i: int| 1 <= i < MAX_THREADS ==> (#[trigger] r.threads@[i]).state == State::Available,
    {
        let mut threads: Vec<Thread> = Vec::new();
        threads.push(Thread::init());
        let mut i: usize = 1;
        while i < MAX_THREADS
            invariant
                1 <= i <= MAX_THREADS,
                threads@.len() == i,
                threads@[0].state == State::Running,
                forall|j: int| 0 <= j < i ==> (#[trigger] threads@[j]).id == j,
                forall|j: int| 1 <= j < i ==> (#[trigger] threads@[j]).state == State::Available,
            decreases MAX_THREADS - i,
        {
            threads.push(Thread::new(i));
            i += 1;
        }
        Runtime { threads, current: 0 }
    }

    /// The thread that runs gives the processor to the next thread that
    /// waits for its turn, in the order of the threads from itself on and
    /// round. It waits for its turn then, unless it is free. Gives the two
    /// threads between which the caller switches; `None`, with nothing
    /// changed, where no thread waits.
    pub fn t_yield(&mut self) -> (r: Option<(usize, usize)>)
        requires
            old(self).wf(),
        ensures
            final(self).wf(),
            final(self).threads@.len() == old(self).threads@.len(),
            ({
                let pos = next_ready(
                    old(self).threads@,
                    old(self).current as int,
                    old(self).threads@.len() as int,
                );
                if pos < 0 {
                    r.is_none() && final(self).threads@ == old(self).threads@ && final(self).current
                        == old(self).current
                } else {
                    &&& r == Some((old(self).current, pos as usize))
                    &&& final(self).current == pos
                    &&& forall|i: int|
                        0 <= i < old(self).threads@.len() ==> #[trigger] final(self).threads@[i] == (
                        Thread {
                            state: if i == pos {
                                State::Running
                            } else if i == old(self).current && old(self).threads@[i].state
                                != State::Available {
                                State::Ready
                            } else {
                                old(self).threads@[i].state
                            },
                            ..old(self).threads@[i]
                        })
                }
            }),
    {
        let n: usize = self.threads.len();
        let mut pos: usize = self.current;
        let mut seen: usize = 0;
        proof {
            vstd::arithmetic::div_mod::lemma_small_mod(self.current as nat, n as nat);
        }
        while self.threads[pos].state != State::Ready
            invariant
                *self == *old(self),
                self.wf(),
                n == self.threads@.len(),
                0 <= pos < n,
                0 <= seen < n,
                pos == (self.current + seen) % (n as int),
                next_ready(self.threads@, self.current as int, n as int) == next_ready(
                    self.threads@,
                    self.current + seen,
                    n - seen,
                ),
            decreases n - seen,
        {
            proof {
                assert((self.current + seen + 1) % (n as int) == if pos + 1 == n {
                    0
                } else {
                    pos + 1
                }) by (nonlinear_arith)
                    requires
                        pos == (self.current + seen) % (n as int),
                        0 <= pos < n,
                        n > 0,
                        self.current + seen >= 0,
                ;
            }
            proof {
                assert(next_ready(self.threads@, self.current + seen, n - seen) == next_ready(
                    self.threads@,
                    self.current + seen + 1,
                    n - seen - 1,
                ));
            }
            pos += 1;
            if pos == n {
                pos = 0;
            }
            seen += 1;
            if pos == self.current {
                proof {
                    assert(seen == n) by (nonlinear_arith)
                        requires
                            self.current == (self.current + seen) % (n as int),
                            0 < seen <= n,
                            0 <= self.current < n,
                    ;
                }
                return None;
            }
            proof {
                assert(seen < n) by (nonlinear_arith)
                    requires
                        pos == (self.current + seen) % (n as int),
                        pos != self.current,
                        0 < seen <= n,
                        0 <= self.current < n,
                ;
            }
        }
        let old_pos = self.current;
        if self.threads[old_pos].state != State::Available {
            let mut t = self.threads[old_pos];
            t.state = State::Ready;
            self.threads.set(old_pos, t);
        }
        let mut t = self.threads[pos];
        t.state = State::Running;
        self.threads.set(pos, t);
        self.current = pos;
        Some((old_pos, pos))
    }

    /// The thread that runs has come to its end: unless it is the first
    /// thread, it becomes free and the next thread gets the processor as
    /// `t_yield` says.
    pub fn t_return(&mut self) -> (r: Option<(usize, usize)>)
        requires
            old(self).wf(),
        ensures
            final(self).wf(),
            final(self).threads@.len() == old(self).threads@.len(),
            old(self).current == 0 ==> r.is_none() && final(self).threads@ == old(self).threads@
                && final(self).current == 0,
            old(self).current != 0 ==> {
                let cur = old(self).current as int;
                let freed = old(self).threads@.update(
                    cur,
                    Thread { state: State::Available, ..old(self).threads@[cur] },
                );
                let pos = next_ready(freed, cur, freed.len() as int);
                if pos < 0 {
                    r.is_none() && final(self).threads@ == freed && final(self).current == cur
                } else {
                    &&& r == Some((old(self).current, pos as usize))
                    &&& final(self).current == pos
                    &&& forall|i: int|
                        0 <= i < freed.len() ==> #[trigger] final(self).threads@[i] == (Thread {
                            state: if i == pos {
                                State::Running
                            } else {
                                freed[i].state
                            },
                            ..freed[i]
                        })
                }
            },
    {
        if self.current != 0 {
            let mut t = self.threads[self.current];
            t.state = State::Available;
            let at = self.current;
            self.threads.set(at, t);
            self.t_yield()
        } else {
            None
        }
    }

    /// Index of the first free thread among the first `n`, or -1.
    pub open spec fn first_available(threads: Seq<Thread>, n: int) -> int
        decreases n,
    {
        if n <= 0 {
            -1
        } else if Self::first_available(threads, n - 1) >= 0 {
            Self::first_available(threads, n - 1)
        } else if threads[n - 1].state == State::Available {
            n - 1
        } else {
            -1
        }
    }

    /// Makes the first free thread a thread that starts at address `f` on
    /// the stack at address `stack`: it returns to `guard` when it has come
    /// to its end, and it waits for its turn. Gives the thread; `None`, with
    /// nothing changed, where no thread is free.
    pub fn spawn(&mut self, f: u64, guard: u64, stack: u64) -> (r: Option<usize>)
        requires
            stack + DEFAULT_STACK_SIZE <= u64::MAX,
        ensures
            final(self).current == old(self).current,
            final(self).threads@.len() == old(self).threads@.len(),
            ({
                let at = Self::first_available(old(self).threads@, old(self).threads@.len() as int);
                if at < 0 {
                    r.is_none() && final(self).threads@ == old(self).threads@
                } else {
                    &&& r == Some(at as usize)
                    &&& 0 <= at < old(self).threads@.len()
                    &&& final(self).threads@ == old(self).threads@.update(
                        at,
                        Thread {
                            id: old(self).threads@[at].id,
                            ctx: ThreadContext {
                                ra: guard,
                                sp: (((stack + DEFAULT_STACK_SIZE) as u64 & !7u64) - DEFAULT_STACK_SIZE)
                                    as u64,
                                s: old(self).threads@[at].ctx.s,
                                nx1: f,
                            },
                            state: State::Ready,
                        },
                    )
                }
            }),
    {
        let mut i: usize = 0;
        while i < self.threads.len()
            invariant
                *self == *old(self),
                stack + DEFAULT_STACK_SIZE <= u64::MAX,
                0 <= i <= self.threads@.len(),
                Self::first_available(self.threads@, i as int) == -1,
            decreases self.threads@.len() - i,
        {
            if self.threads[i].state == State::Available {
                let mut t = self.threads[i];
                let end: u64 = stack + DEFAULT_STACK_SIZE;
                let top: u64 = end & !7u64;
                assert(end & !7u64 >= 1024u64) by (bit_vector)
                    requires
                        end >= 1024u64,
                ;
                t.ctx.ra = guard;
                t.ctx.nx1 = f;
                t.ctx.sp = top - DEFAULT_STACK_SIZE;
                t.state = State::Ready;
                self.threads.set(i, t);
                proof {
                    lemma_first_available(old(self).threads@, i as int, old(self).threads@.len() as int);
                }
                return Some(i);
            }
            i += 1;
        }
        None
    }
}

/// A free thread at index `i` with none before it is the first free thread
/// among any number of threads beyond it.
pub proof fn lemma_first_available(threads: Seq<Thread>, i: int, n: int)
    requires
        0 <= i < n <= threads.len(),
        Runtime::first_available(threads, i) == -1,
        threads[i].state == State::Available,
    ensures
        Runtime::first_available(threads, n) == i,
    decreases n,
{
    if n > i + 1 {
        lemma_first_available(threads, i, n - 1);
    }
}

} // verus!
