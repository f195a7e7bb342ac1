//! A computation that completes when a background producer signals it.
//!
//! The completion cell is shared between the computation and a
//! [`TimerSignal`] held by the producer (a timer thread that sleeps for the
//! requested delay, then signals). Both sides take the cell's lock for every
//! access. Dropping the computation does not stop the producer: its signal
//! then finds nobody to wake.
use vstd::prelude::*;
use vstd::rwlock::{RwLock, RwLockPredicate};
use std::sync::Arc;
use crate::completion::{cell_wf, CompletionCell};
use crate::poll::{Poll, SimpleFuture, WakeHandle};

verus! {

/// The lock's invariant on the cell it guards.
pub struct CellInvariant;

impl RwLockPredicate<CompletionCell> for CellInvariant {
    open spec fn inv(self, c: CompletionCell) -> bool {
        cell_wf(c@)
    }
}

type SharedCell = Arc<RwLock<CompletionCell, CellInvariant>>;

/// A computation that is `Ready` once its shared cell has been signalled.
pub struct TimerFuture {
    shared_state: SharedCell,
    observed: bool,
}

/// The producer's side of a [`TimerFuture`]'s cell.
pub struct TimerSignal {
    shared_state: SharedCell,
}

impl TimerFuture {
    /// The lock guarding the shared cell.
    pub closed spec fn shared(&self) -> RwLock<CompletionCell, CellInvariant> {
        *self.shared_state
    }

    /// Whether a poll of this computation has reported `Ready`.
    pub closed spec fn observed_ready(&self) -> bool {
        self.observed
    }

    /// A computation whose cell is neither completed nor has a waiter.
    pub fn new() -> (t: Self)
        ensures
            !t.observed_ready(),
    {
        let cell = CompletionCell::new();
        let lock = RwLock::new(cell, Ghost(CellInvariant));
        TimerFuture { shared_state: Arc::new(lock), observed: false }
    }

    /// A producer's handle on this computation's cell.
    pub fn signal_handle(&self) -> (s: TimerSignal)
        ensures
            s.shared() == self.shared(),
    {
        TimerSignal { shared_state: self.shared_state.clone() }
    }
}

impl TimerSignal {
    /// The lock guarding the shared cell.
    pub closed spec fn shared(&self) -> RwLock<CompletionCell, CellInvariant> {
        *self.shared_state
    }

    /// Under the lock, marks the cell completed and takes out its waiter,
    /// which the caller invokes once, after the lock is released.
    pub fn signal(&self) -> (woken: Option<WakeHandle>) {
        let (mut cell, handle) = self.shared_state.acquire_write();
        let woken = cell.signal();
        handle.release_write(cell);
        woken
    }
}

impl SimpleFuture for TimerFuture {
    type Output = ();

    /// Once a poll has reported `Ready`, every later poll does; until then
    /// the outcome is the shared cell's, read under its lock.
    open spec fn polled(self, after: Self, wake: WakeHandle, r: Poll<()>) -> bool {
        &&& after.shared() == self.shared()
        &&& (self.observed_ready() ==> r is Ready)
        &&& (after.observed_ready() <==> r is Ready)
    }

    fn poll(&mut self, wake: WakeHandle) -> (r: Poll<()>) {
        if self.observed {
            return Poll::Ready(());
        }
        let (mut cell, handle) = self.shared_state.acquire_write();
        let r = cell.poll(wake);
        handle.release_write(cell);
        if let Poll::Ready(()) = r {
            self.observed = true;
        }
        r
    }
}

} // verus!
