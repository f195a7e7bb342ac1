//! A socket modelled by its receive buffer and its readiness callback, and
//! the computation that reads from it.
use vstd::prelude::*;
use crate::poll::{Poll, SimpleFuture, WakeHandle};

verus! {

/// A socket: the bytes that arrived and were not read yet, and the handle to
/// invoke when it next becomes readable.
pub struct Socket {
    buffer: Vec<u8>,
    readable_callback: Option<WakeHandle>,
}

impl Socket {
    pub closed spec fn buffered(&self) -> Seq<u8> {
        self.buffer@
    }

    pub closed spec fn callback(&self) -> Option<WakeHandle> {
        self.readable_callback
    }

    /// A socket with no data and no callback.
    pub fn new() -> (s: Self)
        ensures
            s.buffered() == Seq::<u8>::empty(),
            s.callback() is None,
    {
        Socket { buffer: Vec::new(), readable_callback: None }
    }

    /// Whether bytes are waiting to be read.
    pub fn has_data_to_read(&self) -> (r: bool)
        ensures
            r <==> self.buffered().len() > 0,
    {
        self.buffer.len() > 0
    }

    /// Takes every buffered byte out of the socket.
    pub fn read_buf(&mut self) -> (data: Vec<u8>)
        ensures
            data@ == old(self).buffered(),
            final(self).buffered() == Seq::<u8>::empty(),
            final(self).callback() == old(self).callback(),
    {
        let mut empty: Vec<u8> = Vec::new();
        std::mem::swap(&mut self.buffer, &mut empty);
        empty
    }

    /// Registers `wake` to be invoked when the socket becomes readable,
    /// replacing any earlier registration.
    pub fn set_readable_callback(&mut self, wake: WakeHandle)
        ensures
            final(self).callback() == Some(wake),
            final(self).buffered() == old(self).buffered(),
    {
        self.readable_callback = Some(wake);
    }

    /// Bytes arrive: they are appended to the buffer, and the registered
    /// callback is taken out and handed back for the caller to invoke.
    pub fn deliver(&mut self, bytes: &[u8]) -> (woken: Option<WakeHandle>)
        ensures
            final(self).buffered() == old(self).buffered() + bytes@,
            final(self).callback() is None,
            woken == old(self).callback(),
    {
        let mut i: usize = 0;
        while i < bytes.len()
            invariant
                i <= bytes@.len(),
                self.buffer@ == old(self).buffered() + bytes@.subrange(0, i as int),
                self.readable_callback == old(self).callback(),
            decreases bytes@.len() - i,
        {
            self.buffer.push(bytes[i]);
            i = i + 1;
            assert(self.buffer@ =~= old(self).buffered() + bytes@.subrange(0, i as int));
        }
        assert(bytes@.subrange(0, bytes@.len() as int) =~= bytes@);
        self.readable_callback.take()
    }
}

/// A computation that reads whatever the socket holds, waiting for data if
/// there is none.
pub struct SocketRead<'a> {
    socket: &'a mut Socket,
}

impl<'a> SocketRead<'a> {
    pub closed spec fn socket(&self) -> Socket {
        *self.socket
    }

    pub fn new(socket: &'a mut Socket) -> (r: Self)
        ensures
            r.socket() == *old(socket),
    {
        SocketRead { socket }
    }
}

impl<'a> SimpleFuture for SocketRead<'a> {
    type Output = Vec<u8>;

    /// With data buffered, the poll drains it and returns it; otherwise it
    /// registers `wake` as the readable callback and reports `Pending`.
    open spec fn polled(self, after: Self, wake: WakeHandle, r: Poll<Vec<u8>>) -> bool {
        if self.socket().buffered().len() > 0 {
            &&& r matches Poll::Ready(data) && data@ == self.socket().buffered()
            &&& after.socket().buffered() == Seq::<u8>::empty()
            &&& after.socket().callback() == self.socket().callback()
        } else {
            &&& r is Pending
            &&& after.socket().buffered() == self.socket().buffered()
            &&& after.socket().callback() == Some(wake)
        }
    }

    fn poll(&mut self, wake: WakeHandle) -> (r: Poll<Vec<u8>>) {
        if self.socket.has_data_to_read() {
            Poll::Ready(self.socket.read_buf())
        } else {
            self.socket.set_readable_callback(wake);
            Poll::Pending
        }
    }
}

} // verus!
