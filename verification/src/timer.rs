//! Time: the clock and the threads that sleep.
use vstd::prelude::*;

verus! {

/// Number of timer interrupts in a second.
pub const TICKS_PER_SEC: u64 = 100;

/// Number of milliseconds in a second.
pub const MSEC_PER_SEC: u64 = 1000;

/// The time in milliseconds at `time` ticks of a clock that ticks
/// `clock_freq` times in a second.
pub fn get_time_ms(time: u64, clock_freq: u64) -> (r: u64)
    requires
        clock_freq >= 1000,
    ensures
        r == time / (clock_freq / 1000),
{
    time / (clock_freq / MSEC_PER_SEC)
}

/// The tick at which the next timer interrupt is due: a hundredth of a
/// second after `time`. The caller sets the timer.
pub fn set_next_trigger(time: u64, clock_freq: u64) -> (r: u64)
    requires
        time + clock_freq / 100 <= u64::MAX,
    ensures
        r == time + clock_freq / 100,
{
    time + clock_freq / TICKS_PER_SEC
}

/// A thread that sleeps and the time in milliseconds at which it wakes.
#[derive(Copy, Clone, PartialEq, Eq, Structural, Debug)]
pub struct TimerCondVar {
    pub expire_ms: u64,
    pub task: usize,
}

/// The threads that sleep.
pub struct Timers {
    pub list: Vec<TimerCondVar>,
}

/// Index of the timer among the first `n` that is due first; of those due
/// at the same time, the one that was added first. `n` must not be 0.
pub open spec fn earliest(list: Seq<TimerCondVar>, n: int) -> int
    decreases n,
{
    if n <= 1 {
        0
    } else if list[n - 1].expire_ms < list[earliest(list, n - 1)].expire_ms {
        n - 1
    } else {
        earliest(list, n - 1)
    }
}

/// What `earliest` finds: a timer before which none is due.
pub proof fn lemma_earliest(list: Seq<TimerCondVar>, n: int)
    requires
        1 <= n <= list.len(),
    ensures
        0 <= earliest(list, n) < n,
        forall|i: int|
            0 <= i < n ==> list[earliest(list, n)].expire_ms <= (#[trigger] list[i]).expire_ms,
    decreases n,
{
    if n > 1 {
        lemma_earliest(list, n - 1);
    }
}

/// The threads whose timers are due at time `now`, the one that is due
/// first first.
pub open spec fn due_tasks(list: Seq<TimerCondVar>, now: u64) -> Seq<usize>
    decreases list.len(),
{
    if list.len() == 0 {
        Seq::empty()
    } else {
        let k = earliest(list, list.len() as int);
        if 0 <= k < list.len() && list[k].expire_ms <= now {
            seq![list[k].task] + due_tasks(list.remove(k), now)
        } else {
            Seq::empty()
        }
    }
}

impl Timers {
    /// Nobody sleeps.
    pub fn new() -> (r: Self)
        ensures
            r.list@.len() == 0,
    {
        Self { list: Vec::new() }
    }

    /// Thread `task` sleeps until `expire_ms`.
    pub fn add_timer(&mut self, expire_ms: u64, task: usize)
        ensures
            final(self).list@ == old(self).list@.push(TimerCondVar { expire_ms, task }),
    {
        self.list.push(TimerCondVar { expire_ms, task });
    }

    /// Index of the timer that is due first.
    fn first_due(&self) -> (r: usize)
        requires
            self.list@.len() > 0,
        ensures
            r == earliest(self.list@, self.list@.len() as int),
            r < self.list@.len(),
    {
        let mut best: usize = 0;
        let mut i: usize = 1;
        proof {
            lemma_earliest(self.list@, self.list@.len() as int);
        }
        while i < self.list.len()
            invariant
                1 <= i <= self.list@.len(),
                best == earliest(self.list@, i as int),
                best < i,
            decreases self.list@.len() - i,
        {
            if self.list[i].expire_ms < self.list[best].expire_ms {
                best = i;
            }
            i += 1;
        }
        best
    }

    /// Takes out the timers that are due at time `current_ms` and gives
    /// their threads, which are to be made ready, the one that is due first
    /// first. The timers that are not due stay, in their order.
    pub fn check_timer(&mut self, current_ms: u64) -> (woken: Vec<usize>)
        ensures
            woken@ == due_tasks(old(self).list@, current_ms),
            woken@.len() + final(self).list@.len() == old(self).list@.len(),
            final(self).list@ == old(self).list@.filter(|t: TimerCondVar| t.expire_ms > current_ms),
            forall|i: int| 0 <= i < final(self).list@.len() ==> final(self).list@[i].expire_ms > current_ms,
    {
        let mut woken: Vec<usize> = Vec::new();
        let ghost due = |t: TimerCondVar| t.expire_ms > current_ms;
        loop
            invariant
                woken@ + due_tasks(self.list@, current_ms) == due_tasks(old(self).list@, current_ms),
                woken@.len() + self.list@.len() == old(self).list@.len(),
                self.list@.filter(due) == old(self).list@.filter(due),
                due == (|t: TimerCondVar| t.expire_ms > current_ms),
            decreases self.list@.len(),
        {
            if self.list.len() == 0 {
                proof {
                    assert(self.list@.filter(due) =~= self.list@);
                    assert(woken@ + Seq::<usize>::empty() =~= woken@);
                }
                return woken;
            }
            let k = self.first_due();
            proof {
                lemma_earliest(self.list@, self.list@.len() as int);
            }
            if self.list[k].expire_ms <= current_ms {
                let ghost before = self.list@;
                let ghost woken_before = woken@;
                let t = self.list.remove(k);
                woken.push(t.task);
                proof {
                    lemma_filter_remove(before, k as int, due);
                    assert(woken@ + due_tasks(self.list@, current_ms) =~= woken_before + due_tasks(
                        before,
                        current_ms,
                    ));
                }
            } else {
                proof {
                    lemma_filter_all(self.list@, due);
                    assert(woken@ + Seq::<usize>::empty() =~= woken@);
                }
                return woken;
            }
        }
    }
}

/// Taking an element away that a filter refuses does not change what the
/// filter keeps.
pub proof fn lemma_filter_remove(s: Seq<TimerCondVar>, k: int, keep: spec_fn(TimerCondVar) -> bool)
    requires
        0 <= k < s.len(),
        !keep(s[k]),
    ensures
        s.remove(k).filter(keep) == s.filter(keep),
    decreases s.len(),
{
    reveal(Seq::filter);
    if k == s.len() - 1 {
        assert(s.remove(k) =~= s.drop_last());
    } else {
        lemma_filter_remove(s.drop_last(), k, keep);
        assert(s.remove(k).drop_last() =~= s.drop_last().remove(k));
        assert(s.remove(k).last() == s.last());
    }
}

/// A filter keeps a sequence whose elements it all accepts as it is.
pub proof fn lemma_filter_all(s: Seq<TimerCondVar>, keep: spec_fn(TimerCondVar) -> bool)
    requires
        forall|i: int| 0 <= i < s.len() ==> keep(s[i]),
    ensures
        s.filter(keep) == s,
    decreases s.len(),
{
    reveal(Seq::filter);
    if s.len() > 0 {
        lemma_filter_all(s.drop_last(), keep);
        assert(s.drop_last().push(s.last()) =~= s);
    }
}

/// The timers that are due at time `current_ms` are taken out, and their
/// threads are made ready, the one that is due first first: each stands in
/// the ready queue, in that order, and is marked as ready if it exists.
pub fn check_timer(kernel: &mut crate::kernel::Kernel, current_ms: u64)
    requires
        old(kernel).wf(),
    ensures
        final(kernel).wf(),
        crate::kernel::same_memory(*old(kernel), *final(kernel)),
        final(kernel).timers.list@ == old(kernel).timers.list@.filter(
            |t: TimerCondVar| t.expire_ms > current_ms,
        ),
        final(kernel).task_manager.ready_queue@ == old(kernel).task_manager.ready_queue@ + due_tasks(
            old(kernel).timers.list@,
            current_ms,
        ),
        final(kernel).threads@.len() == old(kernel).threads@.len(),
        forall|g: int|
            0 <= g < old(kernel).threads@.len() ==> #[trigger] final(kernel).threads@[g] == if due_tasks(
                old(kernel).timers.list@,
                current_ms,
            ).contains(g as usize) && old(kernel).threads@[g].is_some() {
                Some(
                    crate::task::task::TaskControlBlock {
                        task_status: crate::task::task::TaskStatus::Ready,
                        ..old(kernel).threads@[g].unwrap()
                    },
                )
            } else {
                old(kernel).threads@[g]
            },
        final(kernel).processor == old(kernel).processor,
        final(kernel).processes == old(kernel).processes,
        final(kernel).files == old(kernel).files,
        final(kernel).pipes == old(kernel).pipes,
        final(kernel).machine == old(kernel).machine,
        final(kernel).initproc == old(kernel).initproc,
        final(kernel).console_out == old(kernel).console_out,
        final(kernel).console_in == old(kernel).console_in,
{
    let ghost k0 = *kernel;
    let woken = kernel.timers.check_timer(current_ms);
    proof {
        assert(crate::kernel::same_memory(k0, *kernel));
        crate::kernel::lemma_same_memory(k0, *kernel);
    }
    let ghost k1 = *kernel;
    let mut i: usize = 0;
    while i < woken.len()
        invariant
            0 <= i <= woken@.len(),
            kernel.wf(),
            k0.wf(),
            crate::kernel::same_memory(k0, *kernel),
            kernel.timers == k1.timers,
            kernel.task_manager.ready_queue@ == k0.task_manager.ready_queue@ + woken@.take(i as int),
            kernel.threads@.len() == k0.threads@.len(),
            forall|g: int|
                0 <= g < k0.threads@.len() ==> #[trigger] kernel.threads@[g] == if woken@.take(
                    i as int,
                ).contains(g as usize) && k0.threads@[g].is_some() {
                    Some(
                        crate::task::task::TaskControlBlock {
                            task_status: crate::task::task::TaskStatus::Ready,
                            ..k0.threads@[g].unwrap()
                        },
                    )
                } else {
                    k0.threads@[g]
                },
            kernel.processor == k0.processor,
            kernel.processes == k0.processes,
            kernel.files == k0.files,
            kernel.pipes == k0.pipes,
            kernel.machine == k0.machine,
            kernel.initproc == k0.initproc,
            kernel.console_out == k0.console_out,
            kernel.console_in == k0.console_in,
        decreases woken@.len() - i,
    {
        let ghost k2 = *kernel;
        let ghost seen = woken@.take(i as int);
        let ghost more = woken@.take(i + 1);
        let task = woken[i];
        let slots: usize = kernel.threads.len();
        crate::task::sched::wake_task(kernel, task);
        proof {
            assert(more =~= seen.push(task));
            assert(crate::kernel::same_memory(k0, *kernel));
            assert forall|g: int| 0 <= g < k0.threads@.len() implies #[trigger] kernel.threads@[g]
                == if more.contains(g as usize) && k0.threads@[g].is_some() {
                Some(
                    crate::task::task::TaskControlBlock {
                        task_status: crate::task::task::TaskStatus::Ready,
                        ..k0.threads@[g].unwrap()
                    },
                )
            } else {
                k0.threads@[g]
            } by {
                assert(0 <= g < slots);
                assert(more.contains(g as usize) == (seen.contains(g as usize) || g == task)) by {
                    if seen.contains(g as usize) {
                        let j = choose|j: int| 0 <= j < seen.len() && seen[j] == g as usize;
                        assert(more[j] == g as usize);
                    }
                    if g == task {
                        assert(more[i as int] == task);
                    }
                    if more.contains(g as usize) {
                        let j = choose|j: int| 0 <= j < more.len() && more[j] == g as usize;
                        if j < i {
                            assert(seen[j] == g as usize);
                        }
                    }
                }
                if g == task {
                    if k2.has_thread(g) {
                        assert(kernel.thread(g).task_status == crate::task::task::TaskStatus::Ready);
                    }
                } else {
                    assert(kernel.threads@[g] == k2.threads@[g]);
                }
            }
        }
        i += 1;
    }
    proof {
        assert(woken@.take(woken@.len() as int) =~= woken@);
    }
}

} // verus!
