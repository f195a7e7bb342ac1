//! Computations built from two others: run side by side, or one after the
//! other. A nested computation's `Pending` is passed upward unchanged.
use vstd::prelude::*;
use crate::poll::{Poll, SimpleFuture, WakeHandle};

verus! {

/// What one poll of a slot does: an empty slot stays empty and is not
/// polled; a held computation is polled once, dropped if it reported
/// `Ready`, and kept in its new state if it reported `Pending`.
pub open spec fn slot_polled<F: SimpleFuture<Output = ()>>(
    before: Option<F>,
    after: Option<F>,
    wake: WakeHandle,
) -> bool {
    match before {
        None => after is None,
        Some(f) => match after {
            Some(g) => f.polled(g, wake, Poll::Pending),
            None => exists|g: F, r: Poll<()>| r is Ready && #[trigger] f.polled(g, wake, r),
        },
    }
}

/// Runs two computations side by side until both have finished.
///
/// Each slot holds its computation until that computation reports `Ready`;
/// a finished computation is never polled again.
pub struct Join<FutureA, FutureB> {
    a: Option<FutureA>,
    b: Option<FutureB>,
}

impl<FutureA, FutureB> Join<FutureA, FutureB> {
    pub closed spec fn first(&self) -> Option<FutureA> {
        self.a
    }

    pub closed spec fn second(&self) -> Option<FutureB> {
        self.b
    }

    pub fn new(a: FutureA, b: FutureB) -> (j: Self)
        ensures
            j.first() == Some(a),
            j.second() == Some(b),
    {
        Join { a: Some(a), b: Some(b) }
    }
}

impl<FutureA, FutureB> SimpleFuture for Join<FutureA, FutureB> where
    FutureA: SimpleFuture<Output = ()>,
    FutureB: SimpleFuture<Output = ()>,
 {
    type Output = ();

    /// Both unfinished computations are polled; the join is `Ready` once
    /// neither is left.
    open spec fn polled(self, after: Self, wake: WakeHandle, r: Poll<()>) -> bool {
        &&& slot_polled(self.first(), after.first(), wake)
        &&& slot_polled(self.second(), after.second(), wake)
        &&& (r is Ready <==> after.first() is None && after.second() is None)
    }

    fn poll(&mut self, wake: WakeHandle) -> (r: Poll<()>) {
        if let Some(mut a) = self.a.take() {
            let ghost a0 = a;
            let ra = a.poll(wake);
            match ra {
                Poll::Ready(()) => {
                    assert(a0.polled(a, wake, ra));
                },
                Poll::Pending => self.a = Some(a),
            }
        }
        if let Some(mut b) = self.b.take() {
            let ghost b0 = b;
            let rb = b.poll(wake);
            match rb {
                Poll::Ready(()) => {
                    assert(b0.polled(b, wake, rb));
                },
                Poll::Pending => self.b = Some(b),
            }
        }
        if self.a.is_none() && self.b.is_none() {
            Poll::Ready(())
        } else {
            Poll::Pending
        }
    }
}

/// Runs one computation to completion, then another.
pub struct AndThenFut<FutureA, FutureB> {
    first: Option<FutureA>,
    second: FutureB,
}

impl<FutureA, FutureB> AndThenFut<FutureA, FutureB> {
    pub closed spec fn first(&self) -> Option<FutureA> {
        self.first
    }

    pub closed spec fn second(&self) -> FutureB {
        self.second
    }

    pub fn new(first: FutureA, second: FutureB) -> (f: Self)
        ensures
            f.first() == Some(first),
            f.second() == second,
    {
        AndThenFut { first: Some(first), second }
    }
}

impl<FutureA, FutureB> SimpleFuture for AndThenFut<FutureA, FutureB> where
    FutureA: SimpleFuture<Output = ()>,
    FutureB: SimpleFuture<Output = ()>,
 {
    type Output = ();

    /// While the first computation is unfinished only it is polled, and its
    /// `Pending` is the result; once it has finished, the second is polled
    /// in the same step and its result is the result.
    open spec fn polled(self, after: Self, wake: WakeHandle, r: Poll<()>) -> bool {
        match self.first() {
            Some(f) => match after.first() {
                Some(g) => {
                    &&& f.polled(g, wake, Poll::Pending)
                    &&& after.second() == self.second()
                    &&& r is Pending
                },
                None => {
                    &&& exists|g: FutureA, q: Poll<()>| q is Ready && #[trigger] f.polled(g, wake, q)
                    &&& self.second().polled(after.second(), wake, r)
                },
            },
            None => {
                &&& after.first() is None
                &&& self.second().polled(after.second(), wake, r)
            },
        }
    }

    fn poll(&mut self, wake: WakeHandle) -> (r: Poll<()>) {
        if let Some(mut first) = self.first.take() {
            let ghost f0 = first;
            let rfirst = first.poll(wake);
            match rfirst {
                Poll::Ready(()) => {
                    assert(f0.polled(first, wake, rfirst));
                },
                Poll::Pending => {
                    self.first = Some(first);
                    return Poll::Pending;
                },
            }
        }
        self.second.poll(wake)
    }
}

} // verus!
