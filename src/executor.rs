//! The executor: a first-in-first-out ready queue of task identifiers, the
//! table of task slots, and the resume protocol.
//!
//! A task's slot holds its computation while the task is unfinished and is
//! emptied for good when the computation reports `Ready`. Spawned and woken
//! tasks enter the same queue and are served in arrival order. The queue
//! counts its producers (the spawners); it is closed when none is left, no
//! task is queued, and no task is unfinished (an unfinished task may still be
//! woken by whoever holds its wake handle).
use vstd::prelude::*;
use std::collections::VecDeque;
use crate::poll::{Poll, SimpleFuture, WakeHandle};

verus! {

/// What one queue entry led to.
#[derive(Clone, Copy, Debug, PartialEq, Eq, Structural)]
pub enum Resumption {
    /// The task's slot was empty (finished, or never spawned): nothing ran.
    Skipped,
    /// The computation was resumed and is not finished yet.
    Pending,
    /// The computation was resumed and finished.
    Finished,
}

/// One served queue entry.
#[derive(Clone, Copy, Debug, PartialEq, Eq, Structural)]
pub struct Resumed {
    pub task: usize,
    pub outcome: Resumption,
}

/// Why a computation was not accepted.
#[derive(Clone, Copy, Debug, PartialEq, Eq, Structural)]
pub enum SpawnError {
    /// The executor's receiving end is gone: the computation will never run.
    ExecutorGone,
}

/// Whether slot `t` holds no computation.
pub open spec fn slot_empty<F>(slots: Seq<Option<F>>, t: usize) -> bool {
    t >= slots.len() || slots[t as int] is None
}

/// Whether `log` serves exactly the entries of `queue`, in queue order.
pub open spec fn serves_in_order(log: Seq<Resumed>, queue: Seq<usize>) -> bool {
    &&& log.len() == queue.len()
    &&& forall|k: int| 0 <= k < log.len() ==> (#[trigger] log[k]).task == queue[k]
}

/// Whether task `t` finished at an entry of `log` before position `end`.
pub open spec fn finished_before(log: Seq<Resumed>, t: usize, end: int) -> bool {
    exists|j: int| 0 <= j < end && #[trigger] log[j] == Resumed { task: t, outcome: Resumption::Finished }
}

/// The outcomes of a drain of the queue, given which slots were empty when
/// it began: an entry is skipped exactly when its task's slot was empty or
/// the task finished at an earlier entry.
pub open spec fn drain_outcomes<F>(slots: Seq<Option<F>>, log: Seq<Resumed>) -> bool {
    forall|k: int|
        0 <= k < log.len() ==> ((#[trigger] log[k]).outcome is Skipped <==> (slot_empty(
            slots,
            log[k].task,
        ) || finished_before(log, log[k].task, k)))
}

/// What serving one entry for task `t` does to the slots: an empty slot is
/// skipped and nothing changes; otherwise the computation is polled once
/// with `t`'s wake handle, and its slot is emptied if it finished or holds
/// its new state if it is pending.
pub open spec fn resume_step<F: SimpleFuture<Output = ()>>(
    before: Seq<Option<F>>,
    t: usize,
    after: Seq<Option<F>>,
    outcome: Resumption,
) -> bool {
    if slot_empty(before, t) {
        &&& outcome is Skipped
        &&& after == before
    } else {
        let f = before[t as int]->0;
        let w = WakeHandle { task: t };
        match outcome {
            Resumption::Skipped => false,
            Resumption::Finished => {
                &&& exists|g: F, r: Poll<()>| r is Ready && #[trigger] f.polled(g, w, r)
                &&& after == before.update(t as int, None)
            },
            Resumption::Pending => exists|g: F|
                #[trigger] f.polled(g, w, Poll::Pending) && after == before.update(
                    t as int,
                    Some(g),
                ),
        }
    }
}

/// The slots after serving entry `e`: only `e.task`'s slot may change; it
/// is empty afterwards unless the task is still pending, and the entry was
/// skipped exactly when the slot was empty before.
proof fn lemma_resume_step_slots<F: SimpleFuture<Output = ()>>(
    before: Seq<Option<F>>,
    e: Resumed,
    after: Seq<Option<F>>,
)
    requires
        resume_step(before, e.task, after, e.outcome),
    ensures
        after.len() == before.len(),
        forall|t: usize| t != e.task ==> slot_empty(after, t) == slot_empty(before, t),
        slot_empty(after, e.task) <==> !(e.outcome is Pending),
        e.outcome is Skipped <==> slot_empty(before, e.task),
{
    if !slot_empty(before, e.task) && e.outcome is Pending {
        let f = before[e.task as int]->0;
        let w = WakeHandle { task: e.task };
        let g = choose|g: F| #[trigger] f.polled(g, w, Poll::Pending) && after == before.update(e.task as int, Some(g));
        assert(after == before.update(e.task as int, Some(g)));
    }
}

/// FIFO arrival: of two entries queued one after the other (whatever is
/// queued before, between, or after them), a drain serves the earlier one
/// first.
pub proof fn lemma_fifo_arrival(
    log: Seq<Resumed>,
    before: Seq<usize>,
    a: usize,
    between: Seq<usize>,
    b: usize,
    after: Seq<usize>,
)
    requires
        serves_in_order(log, before.push(a) + between.push(b) + after),
    ensures
        log.len() == before.len() + between.len() + after.len() + 2,
        log[before.len() as int].task == a,
        log[(before.len() + between.len() + 1) as int].task == b,
{
    let q = before.push(a) + between.push(b) + after;
    let i = before.len() as int;
    let j = (before.len() + between.len() + 1) as int;
    assert(q[i] == a);
    assert(q[j] == b);
}

/// Redundant wake-ups never run finished work again: in a drain, every
/// entry of a task after one at which it finished is skipped (so a task
/// finishes at most once), however often it was woken.
pub proof fn lemma_finished_task_not_rerun<F>(slots: Seq<Option<F>>, log: Seq<Resumed>)
    requires
        drain_outcomes(slots, log),
    ensures
        forall|i: int, j: int|
            0 <= i < j < log.len() && #[trigger] log[i].task == #[trigger] log[j].task
                && log[i].outcome is Finished ==> log[j].outcome is Skipped,
{
    assert forall|i: int, j: int|
        0 <= i < j < log.len() && #[trigger] log[i].task == #[trigger] log[j].task
            && log[i].outcome is Finished implies log[j].outcome is Skipped by {
        assert(log[i] == Resumed { task: log[j].task, outcome: Resumption::Finished });
        assert(finished_before(log, log[j].task, j));
    }
}

/// A cooperative executor over computations of type `F`.
pub struct Executor<F> {
    ready_queue: VecDeque<usize>,
    tasks: Vec<Option<F>>,
    spawners: usize,
    receiver_open: bool,
}

impl<F: SimpleFuture<Output = ()>> Executor<F> {
    /// The queued task identifiers, front first.
    pub closed spec fn queued(&self) -> Seq<usize> {
        self.ready_queue@
    }

    /// The task slots, indexed by task identifier.
    pub closed spec fn slots(&self) -> Seq<Option<F>> {
        self.tasks@
    }

    /// How many spawner handles are alive.
    pub closed spec fn spawner_count(&self) -> nat {
        self.spawners as nat
    }

    /// Whether the receiving end still accepts work.
    pub closed spec fn accepting(&self) -> bool {
        self.receiver_open
    }

    /// Whether the run is over: no producer left, nothing queued, nothing
    /// unfinished.
    pub open spec fn spec_closed(&self) -> bool {
        &&& self.spawner_count() == 0
        &&& self.queued().len() == 0
        &&& forall|t: usize| #[trigger] slot_empty(self.slots(), t)
    }

    /// How many tasks were spawned.
    pub fn task_count(&self) -> (n: usize)
        ensures
            n == self.slots().len(),
    {
        self.tasks.len()
    }

    /// How many spawner handles are alive.
    pub fn spawners(&self) -> (n: usize)
        ensures
            n == self.spawner_count(),
    {
        self.spawners
    }

    /// An executor with an empty queue, no tasks, and one spawner handle.
    pub fn new() -> (e: Self)
        ensures
            e.queued() == Seq::<usize>::empty(),
            e.slots() == Seq::<Option<F>>::empty(),
            e.spawner_count() == 1,
            e.accepting(),
    {
        Executor { ready_queue: VecDeque::new(), tasks: Vec::new(), spawners: 1, receiver_open: true }
    }

    /// A spawner handle is cloned.
    pub fn add_spawner(&mut self)
        requires
            old(self).spawner_count() < usize::MAX,
        ensures
            final(self).spawner_count() == old(self).spawner_count() + 1,
            final(self).queued() == old(self).queued(),
            final(self).slots() == old(self).slots(),
            final(self).accepting() == old(self).accepting(),
    {
        self.spawners = self.spawners + 1;
    }

    /// A spawner handle is dropped (nothing happens when none is left).
    pub fn drop_spawner(&mut self)
        ensures
            final(self).spawner_count() == if old(self).spawner_count() > 0 {
                old(self).spawner_count() - 1
            } else {
                0
            },
            final(self).queued() == old(self).queued(),
            final(self).slots() == old(self).slots(),
            final(self).accepting() == old(self).accepting(),
    {
        if self.spawners > 0 {
            self.spawners = self.spawners - 1;
        }
    }

    /// The receiving end is destroyed: queued entries are dropped, and no
    /// later work is accepted.
    pub fn shut_down(&mut self)
        ensures
            !final(self).accepting(),
            final(self).queued() == Seq::<usize>::empty(),
            final(self).slots() == old(self).slots(),
            final(self).spawner_count() == old(self).spawner_count(),
    {
        self.receiver_open = false;
        self.ready_queue.clear();
    }

    /// Wraps `future` in a new task and queues it. The task's identifier is
    /// the number of tasks spawned before it. Fails only when the receiving
    /// end is gone, in which case `future` is dropped and never runs.
    pub fn spawn(&mut self, future: F) -> (r: Result<usize, SpawnError>)
        requires
            old(self).slots().len() < usize::MAX,
        ensures
            old(self).accepting() ==> {
                &&& r == Ok::<usize, SpawnError>(old(self).slots().len() as usize)
                &&& final(self).slots() == old(self).slots().push(Some(future))
                &&& final(self).queued() == old(self).queued().push(
                    old(self).slots().len() as usize,
                )
            },
            !old(self).accepting() ==> {
                &&& r == Err::<usize, SpawnError>(SpawnError::ExecutorGone)
                &&& final(self).slots() == old(self).slots()
                &&& final(self).queued() == old(self).queued()
            },
            final(self).spawner_count() == old(self).spawner_count(),
            final(self).accepting() == old(self).accepting(),
    {
        if !self.receiver_open {
            return Err(SpawnError::ExecutorGone);
        }
        let id = self.tasks.len();
        self.tasks.push(Some(future));
        self.ready_queue.push_back(id);
        Ok(id)
    }

    /// Invokes a wake handle: its task is queued again (possibly a second
    /// time; a stale entry is skipped when served). Returns whether the
    /// entry was accepted, which it is unless the receiving end is gone.
    pub fn wake(&mut self, wake: WakeHandle) -> (accepted: bool)
        ensures
            accepted == old(self).accepting(),
            final(self).queued() == if accepted {
                old(self).queued().push(wake.task)
            } else {
                old(self).queued()
            },
            final(self).slots() == old(self).slots(),
            final(self).spawner_count() == old(self).spawner_count(),
            final(self).accepting() == old(self).accepting(),
    {
        if self.receiver_open {
            self.ready_queue.push_back(wake.task);
            true
        } else {
            false
        }
    }

    /// Serves the front entry of the queue, if any, by the resume protocol.
    pub fn run_step(&mut self) -> (r: Option<Resumed>)
        ensures
            old(self).queued().len() == 0 ==> {
                &&& r is None
                &&& final(self).queued() == old(self).queued()
                &&& final(self).slots() == old(self).slots()
            },
            old(self).queued().len() > 0 ==> {
                &&& r matches Some(e) && e.task == old(self).queued()[0] && resume_step(
                    old(self).slots(),
                    e.task,
                    final(self).slots(),
                    e.outcome,
                )
                &&& final(self).queued() == old(self).queued().drop_first()
            },
            final(self).spawner_count() == old(self).spawner_count(),
            final(self).accepting() == old(self).accepting(),
    {
        let t = match self.ready_queue.pop_front() {
            None => return None,
            Some(t) => t,
        };
        assert(self.ready_queue@ =~= old(self).queued().drop_first());
        if t >= self.tasks.len() {
            return Some(Resumed { task: t, outcome: Resumption::Skipped });
        }
        let slot = self.tasks[t].take();
        match slot {
            None => {
                assert(self.tasks@ =~= old(self).slots());
                Some(Resumed { task: t, outcome: Resumption::Skipped })
            },
            Some(mut future) => {
                let ghost f0 = future;
                let wake = WakeHandle { task: t };
                let r = future.poll(wake);
                match r {
                    Poll::Ready(()) => {
                        assert(f0.polled(future, wake, r));
                        assert(self.tasks@ =~= old(self).slots().update(t as int, None));
                        Some(Resumed { task: t, outcome: Resumption::Finished })
                    },
                    Poll::Pending => {
                        assert(f0.polled(future, wake, Poll::Pending));
                        self.tasks.set(t, Some(future));
                        assert(self.tasks@ =~= old(self).slots().update(t as int, Some(future)));
                        Some(Resumed { task: t, outcome: Resumption::Pending })
                    },
                }
            },
        }
    }

    /// Serves every queued entry, front first, and returns what each led
    /// to. Entries are served in exactly the order they were queued; a task
    /// that finishes is never resumed again.
    pub fn run_ready(&mut self) -> (log: Vec<Resumed>)
        ensures
            serves_in_order(log@, old(self).queued()),
            final(self).queued() == Seq::<usize>::empty(),
            final(self).slots().len() == old(self).slots().len(),
            drain_outcomes(old(self).slots(), log@),
            forall|t: usize|
                #[trigger] slot_empty(final(self).slots(), t) <==> (slot_empty(old(self).slots(), t)
                    || finished_before(log@, t, log@.len() as int)),
            final(self).spawner_count() == old(self).spawner_count(),
            final(self).accepting() == old(self).accepting(),
    {
        let ghost q0 = self.ready_queue@;
        let ghost s0 = self.tasks@;
        let mut log: Vec<Resumed> = Vec::new();
        while self.ready_queue.len() > 0
            invariant
                log@.len() <= q0.len(),
                serves_in_order(log@, q0.subrange(0, log@.len() as int)),
                self.ready_queue@ == q0.subrange(log@.len() as int, q0.len() as int),
                self.tasks@.len() == s0.len(),
                drain_outcomes(s0, log@),
                forall|t: usize|
                    #[trigger] slot_empty(self.tasks@, t) <==> (slot_empty(s0, t) || finished_before(
                        log@,
                        t,
                        log@.len() as int,
                    )),
                self.spawners == old(self).spawner_count(),
                self.receiver_open == old(self).accepting(),
            decreases self.ready_queue@.len(),
        {
            let ghost before = self.tasks@;
            let ghost old_log = log@;
            let served = self.run_step();
            let e = served.unwrap();
            proof {
                lemma_resume_step_slots(before, e, self.tasks@);
            }
            log.push(e);
            let ghost n = old_log.len() as int;
            assert(log@[n] == e);
            assert forall|j: int| 0 <= j < n implies log@[j] == old_log[j] by {}
            assert forall|t: usize, k: int| 0 <= k <= n implies finished_before(log@, t, k)
                == finished_before(old_log, t, k) by {
                if finished_before(old_log, t, k) {
                    let j = choose|j: int| 0 <= j < k && #[trigger] old_log[j] == Resumed { task: t, outcome: Resumption::Finished };
                    assert(log@[j] == old_log[j]);
                }
                if finished_before(log@, t, k) {
                    let j = choose|j: int| 0 <= j < k && #[trigger] log@[j] == Resumed { task: t, outcome: Resumption::Finished };
                    assert(log@[j] == old_log[j]);
                }
            }
            assert(serves_in_order(log@, q0.subrange(0, log@.len() as int)));
            assert(self.ready_queue@ =~= q0.subrange(log@.len() as int, q0.len() as int));
            assert forall|k: int| 0 <= k < log@.len() implies ((#[trigger] log@[k]).outcome is Skipped <==> (
                slot_empty(s0, log@[k].task) || finished_before(log@, log@[k].task, k))) by {
                if k < n {
                    assert(log@[k] == old_log[k]);
                }
            }
            assert forall|t: usize|
                #[trigger] slot_empty(self.tasks@, t) <==> (slot_empty(s0, t) || finished_before(
                    log@,
                    t,
                    log@.len() as int,
                )) by {
                assert(slot_empty(before, t) <==> (slot_empty(s0, t) || finished_before(old_log, t, n)));
                if finished_before(log@, t, n + 1) && !finished_before(log@, t, n) {
                    let j = choose|j: int| 0 <= j < n + 1 && #[trigger] log@[j] == Resumed { task: t, outcome: Resumption::Finished };
                    assert(j == n);
                }
                if e.outcome is Finished && e.task == t {
                    assert(log@[n] == Resumed { task: t, outcome: Resumption::Finished });
                }
                if t != e.task {
                    assert(slot_empty(self.tasks@, t) == slot_empty(before, t));
                }
            }
        }
        assert(q0.subrange(0, log@.len() as int) =~= q0);
        log
    }

    /// Whether the run is over: no spawner is left, nothing is queued, and
    /// every task has finished.
    pub fn is_closed(&self) -> (r: bool)
        ensures
            r == self.spec_closed(),
    {
        if self.spawners > 0 || self.ready_queue.len() > 0 {
            return false;
        }
        let mut i: usize = 0;
        while i < self.tasks.len()
            invariant
                i <= self.tasks@.len(),
                forall|t: usize| t < i ==> #[trigger] slot_empty(self.tasks@, t),
            decreases self.tasks@.len() - i,
        {
            if self.tasks[i].is_some() {
                assert(!slot_empty(self.slots(), i));
                return false;
            }
            i = i + 1;
        }
        assert forall|t: usize| #[trigger] slot_empty(self.tasks@, t) by {
            if t < self.tasks@.len() {
                assert(t < i);
            }
        }
        true
    }
}

} // verus!
