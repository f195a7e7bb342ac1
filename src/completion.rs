//! The completion cell: one-shot completion state shared by a background
//! producer (which signals) and a polling consumer (which registers a waiter).
//!
//! Every operation takes the cell exclusively, so operations on one cell are
//! totally ordered; the laws below are stated over any such order.
use vstd::prelude::*;
use crate::poll::{Poll, WakeHandle};

verus! {

/// The abstract state of a completion cell.
pub struct CellState {
    pub completed: bool,
    pub waiter: Option<WakeHandle>,
}

/// One operation on a cell, as it happens under the cell's lock.
pub enum CellOp {
    Poll(WakeHandle),
    Signal,
}

/// A fresh cell: not completed, nobody waiting.
pub open spec fn initial_state() -> CellState {
    CellState { completed: false, waiter: None }
}

/// The cell's invariant: a completed cell holds no waiter.
pub open spec fn cell_wf(s: CellState) -> bool {
    s.completed ==> s.waiter is None
}

/// State after a poll with `w`: a completed cell is unchanged, otherwise `w`
/// replaces any earlier waiter.
pub open spec fn poll_state(s: CellState, w: WakeHandle) -> CellState {
    if s.completed {
        s
    } else {
        CellState { completed: false, waiter: Some(w) }
    }
}

/// State after a signal: completed, with the waiter taken out.
pub open spec fn signal_state(s: CellState) -> CellState {
    CellState { completed: true, waiter: None }
}

/// State after one operation.
pub open spec fn apply_op(s: CellState, op: CellOp) -> CellState {
    match op {
        CellOp::Poll(w) => poll_state(s, w),
        CellOp::Signal => signal_state(s),
    }
}

/// The handles that one operation invokes: a signal invokes the waiter it
/// finds, a poll invokes nothing.
pub open spec fn op_wakes(s: CellState, op: CellOp) -> Seq<WakeHandle> {
    match op {
        CellOp::Poll(_) => Seq::empty(),
        CellOp::Signal => match s.waiter {
            Some(w) => seq![w],
            None => Seq::empty(),
        },
    }
}

/// State after a sequence of operations.
pub open spec fn run_ops(s: CellState, ops: Seq<CellOp>) -> CellState
    decreases ops.len(),
{
    if ops.len() == 0 {
        s
    } else {
        run_ops(apply_op(s, ops[0]), ops.drop_first())
    }
}

/// Every handle invoked by a sequence of operations, in order.
pub open spec fn run_wakes(s: CellState, ops: Seq<CellOp>) -> Seq<WakeHandle>
    decreases ops.len(),
{
    if ops.len() == 0 {
        Seq::empty()
    } else {
        op_wakes(s, ops[0]) + run_wakes(apply_op(s, ops[0]), ops.drop_first())
    }
}

/// Shared completion state: whether the operation finished and who to wake.
pub struct CompletionCell {
    completed: bool,
    waiter: Option<WakeHandle>,
}

impl View for CompletionCell {
    type V = CellState;

    closed spec fn view(&self) -> CellState {
        CellState { completed: self.completed, waiter: self.waiter }
    }
}

impl CompletionCell {
    pub fn new() -> (c: Self)
        ensures
            c@ == initial_state(),
    {
        CompletionCell { completed: false, waiter: None }
    }

    /// Reports `Ready` if the cell is completed; otherwise stores `wake` as
    /// the waiter (the last registration wins) and reports `Pending`.
    pub fn poll(&mut self, wake: WakeHandle) -> (r: Poll<()>)
        ensures
            r is Ready <==> old(self)@.completed,
            final(self)@ == poll_state(old(self)@, wake),
    {
        if self.completed {
            Poll::Ready(())
        } else {
            self.waiter = Some(wake);
            Poll::Pending
        }
    }

    /// Marks the cell completed and hands back the registered waiter, if
    /// any, for the caller to invoke once. Signalling again hands back none.
    pub fn signal(&mut self) -> (woken: Option<WakeHandle>)
        ensures
            final(self)@ == signal_state(old(self)@),
            woken == old(self)@.waiter,
    {
        self.completed = true;
        self.waiter.take()
    }

    pub fn is_completed(&self) -> (r: bool)
        ensures
            r == self@.completed,
    {
        self.completed
    }
}

/// Completion is monotonic: a cell on which a poll reports `Ready` reports
/// `Ready` to every later poll, whatever operations come in between.
pub proof fn lemma_ready_stays_ready(s: CellState, ops: Seq<CellOp>)
    requires
        s.completed,
    ensures
        run_ops(s, ops).completed,
    decreases ops.len(),
{
    if ops.len() > 0 {
        lemma_ready_stays_ready(apply_op(s, ops[0]), ops.drop_first());
    }
}

/// Every operation keeps the cell's invariant.
pub proof fn lemma_ops_keep_wf(s: CellState, ops: Seq<CellOp>)
    requires
        cell_wf(s),
    ensures
        cell_wf(run_ops(s, ops)),
    decreases ops.len(),
{
    if ops.len() > 0 {
        lemma_ops_keep_wf(apply_op(s, ops[0]), ops.drop_first());
    }
}

/// A completed cell wakes nobody, whatever operations follow: a signal that
/// came before a registration is never followed by a wake-up, and the poll
/// that follows it reports `Ready` at once.
pub proof fn lemma_completed_wakes_nobody(s: CellState, ops: Seq<CellOp>)
    requires
        cell_wf(s),
        s.completed,
    ensures
        run_wakes(s, ops) == Seq::<WakeHandle>::empty(),
    decreases ops.len(),
{
    if ops.len() > 0 {
        lemma_completed_wakes_nobody(apply_op(s, ops[0]), ops.drop_first());
        assert(run_wakes(s, ops) =~= Seq::<WakeHandle>::empty());
    }
}

/// No lost wake-up, and no double wake-up: a waiter registered by a poll
/// that reports `Pending` is invoked by the signal that follows it, and in
/// the whole run nobody else is woken, nor that waiter twice.
pub proof fn lemma_registered_waiter_woken_once(
    s: CellState,
    w: WakeHandle,
    rest: Seq<CellOp>,
)
    requires
        cell_wf(s),
        !s.completed,
    ensures
        run_wakes(s, seq![CellOp::Poll(w), CellOp::Signal] + rest) == seq![w],
{
    let ops = seq![CellOp::Poll(w), CellOp::Signal] + rest;
    let s1 = apply_op(s, CellOp::Poll(w));
    let s2 = apply_op(s1, CellOp::Signal);
    assert(ops[0] == CellOp::Poll(w));
    assert(ops.drop_first() =~= seq![CellOp::Signal] + rest);
    let ops1 = ops.drop_first();
    assert(ops1[0] == CellOp::Signal);
    assert(ops1.drop_first() =~= rest);
    lemma_completed_wakes_nobody(s2, rest);
    assert(run_wakes(s1, ops1) =~= seq![w]);
    assert(run_wakes(s, ops) =~= seq![w]);
}

/// Running `a` then `b` is running `a + b`.
proof fn lemma_run_split(s: CellState, a: Seq<CellOp>, b: Seq<CellOp>)
    ensures
        run_ops(s, a + b) == run_ops(run_ops(s, a), b),
        run_wakes(s, a + b) == run_wakes(s, a) + run_wakes(run_ops(s, a), b),
    decreases a.len(),
{
    if a.len() == 0 {
        assert(a + b =~= b);
        assert(run_wakes(s, a) + run_wakes(s, b) =~= run_wakes(s, b));
    } else {
        let s1 = apply_op(s, a[0]);
        lemma_run_split(s1, a.drop_first(), b);
        assert((a + b)[0] == a[0]);
        assert((a + b).drop_first() =~= a.drop_first() + b);
        assert(run_wakes(s, a + b) =~= op_wakes(s, a[0]) + (run_wakes(s1, a.drop_first()) + run_wakes(
            run_ops(s1, a.drop_first()),
            b,
        )));
    }
}

/// Polls alone leave a cell that is not completed uncompleted, wake nobody,
/// and leave the last poll's handle as the waiter.
proof fn lemma_polls_only(s: CellState, ops: Seq<CellOp>)
    requires
        !s.completed,
        forall|j: int| 0 <= j < ops.len() ==> ops[j] != CellOp::Signal,
    ensures
        !run_ops(s, ops).completed,
        run_wakes(s, ops) == Seq::<WakeHandle>::empty(),
        ops.len() > 0 ==> run_ops(s, ops).waiter == Some(ops[ops.len() - 1]->Poll_0),
        ops.len() == 0 ==> run_ops(s, ops).waiter == s.waiter,
    decreases ops.len(),
{
    if ops.len() > 0 {
        let s1 = apply_op(s, ops[0]);
        let tail = ops.drop_first();
        assert forall|j: int| 0 <= j < tail.len() implies tail[j] != CellOp::Signal by {
            assert(tail[j] == ops[j + 1]);
        }
        lemma_polls_only(s1, tail);
        assert(ops[0] != CellOp::Signal);
        assert(run_wakes(s, ops) =~= Seq::<WakeHandle>::empty());
        if tail.len() > 0 {
            assert(tail[tail.len() - 1] == ops[ops.len() - 1]);
        }
    }
}

/// No lost wake-up, in full: in a cell that is not completed, the first
/// signal wakes exactly the waiter registered by the last poll before it
/// (or the waiter the cell already held, if no poll came first), and in the
/// whole run nobody else is woken.
pub proof fn lemma_first_signal_wakes_last_registration(
    s: CellState,
    ops: Seq<CellOp>,
    k: int,
)
    requires
        cell_wf(s),
        !s.completed,
        0 <= k < ops.len(),
        ops[k] == CellOp::Signal,
        forall|j: int| 0 <= j < k ==> ops[j] != CellOp::Signal,
    ensures
        run_wakes(s, ops) == match (if k == 0 {
            s.waiter
        } else {
            Some(ops[k - 1]->Poll_0)
        }) {
            Some(w) => seq![w],
            None => Seq::<WakeHandle>::empty(),
        },
{
    let before = ops.subrange(0, k);
    let after = ops.subrange(k, ops.len() as int);
    assert(ops =~= before + after);
    lemma_polls_only(s, before);
    lemma_run_split(s, before, after);
    let s1 = run_ops(s, before);
    assert(after[0] == CellOp::Signal);
    let s2 = apply_op(s1, CellOp::Signal);
    lemma_completed_wakes_nobody(s2, after.drop_first());
    if k > 0 {
        assert(before[k - 1] == ops[k - 1]);
    }
    assert(run_wakes(s1, after) =~= op_wakes(s1, CellOp::Signal));
    assert(run_wakes(s, ops) =~= run_wakes(s1, after));
}

/// Each completion wakes at most once, and only a signal wakes anyone.
pub proof fn lemma_wakes_at_most_once(s: CellState, ops: Seq<CellOp>)
    requires
        cell_wf(s),
    ensures
        run_wakes(s, ops).len() <= 1,
        !ops.contains(CellOp::Signal) ==> run_wakes(s, ops) == Seq::<WakeHandle>::empty(),
    decreases ops.len(),
{
    if ops.len() > 0 {
        let s1 = apply_op(s, ops[0]);
        let tail = ops.drop_first();
        lemma_wakes_at_most_once(s1, tail);
        if ops[0] == CellOp::Signal {
            lemma_completed_wakes_nobody(s1, tail);
        } else {
            assert(op_wakes(s, ops[0]) =~= Seq::<WakeHandle>::empty());
            assert(run_wakes(s, ops) =~= run_wakes(s1, tail));
            if !ops.contains(CellOp::Signal) {
                assert forall|i: int| 0 <= i < tail.len() implies tail[i] != CellOp::Signal by {
                    assert(tail[i] == ops[i + 1]);
                }
            }
        }
    }
}

} // verus!
