//! A small cooperative task executor built on a poll/wake model.
//!
//! Computations are resumable state machines ([`poll::SimpleFuture`]); a
//! resume either finishes or reports `Pending` after registering a
//! [`poll::WakeHandle`]. The executor keeps a first-in-first-out ready queue
//! of task identifiers and resumes tasks in arrival order. A completion cell
//! hands a one-shot completion from a background producer to a polling
//! consumer without losing a wake-up.
pub mod poll;
pub mod completion;
pub mod socket;
pub mod combinators;
pub mod timer;
pub mod executor;
