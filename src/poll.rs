//! The resume interface shared by every computation.
use vstd::prelude::*;

verus! {

/// Outcome of one resume step of a computation.
pub enum Poll<T> {
    /// The computation finished with this value.
    Ready(T),
    /// The computation cannot progress yet; it has arranged to be woken.
    Pending,
}

/// A wake-up capability for one task: invoking it re-submits the task with
/// this identifier to the executor's ready queue.
#[derive(Clone, Copy, Debug, PartialEq, Eq, Structural)]
pub struct WakeHandle {
    pub task: usize,
}

/// A computation that can be resumed until it reports completion.
///
/// Each implementation states exactly what one resume does through
/// `polled`: `before.polled(after, wake, r)` holds when a poll of `before`
/// with `wake` may leave the computation as `after` and return `r`. An
/// implementation that does not state it promises nothing about its polls.
pub trait SimpleFuture: Sized {
    type Output;

    open spec fn polled(self, after: Self, wake: WakeHandle, r: Poll<Self::Output>) -> bool {
        true
    }

    fn poll(&mut self, wake: WakeHandle) -> (r: Poll<Self::Output>)
        ensures
            old(self).polled(*final(self), wake, r),
    ;
}

} // verus!
