//! The transport: a byte stream together with the log of what was asked of
//! it.
//!
//! The stream is reached through the transport alone, and the transport
//! notes every operation before it hands the outcome back. So the log says
//! what was written and read, in which order, and what each operation came
//! to, whatever the stream is.

use crate::markov::{ByteStream, ReadOutcome, WriteOutcome};
use vstd::prelude::*;

verus! {

/// One operation on a stream, with what it was handed and what it came to.
pub enum Event {
    /// A write of `bytes`, bounded by `timeout_ms`.
    Write { bytes: Seq<u8>, timeout_ms: u16, written: WriteOutcome },
    /// A read of at most `limit` bytes, bounded by `timeout_ms`.
    Read { limit: usize, timeout_ms: u16, read: ReadOutcome },
}

/// A byte stream and the log of the operations asked of it.
pub struct Transport<B> where B: ByteStream {
    stream: B,
    log: Ghost<Seq<Event>>,
}

impl<B: ByteStream> Transport<B> {
    /// The operations asked of the stream so far, oldest first.
    pub closed spec fn log(&self) -> Seq<Event> {
        self.log@
    }

    /// The stream, as it stands.
    pub closed spec fn inner(&self) -> B {
        self.stream
    }

    /// A transport over `stream`, of which nothing was asked yet.
    pub fn new(stream: B) -> (r: Self)
        ensures
            r.log() == Seq::<Event>::empty(),
            r.inner() == stream,
    {
        Transport { stream, log: Ghost(Seq::empty()) }
    }

    /// Writes all of `bytes` in one write, giving up after `timeout_ms`
    /// milliseconds.
    pub fn write_all(&mut self, bytes: &[u8], timeout_ms: u16) -> (r: WriteOutcome)
        ensures
            final(self).log() == old(self).log().push(
                Event::Write { bytes: bytes@, timeout_ms, written: r },
            ),
    {
        let r = self.stream.write_all(bytes, timeout_ms);
        proof {
            self.log@ = self.log@.push(Event::Write { bytes: bytes@, timeout_ms, written: r });
        }
        r
    }

    /// Reads once, at most `limit` bytes, giving up after `timeout_ms`
    /// milliseconds.
    pub fn read(&mut self, limit: usize, timeout_ms: u16) -> (r: ReadOutcome)
        ensures
            final(self).log() == old(self).log().push(Event::Read { limit, timeout_ms, read: r }),
    {
        let r = self.stream.read(limit, timeout_ms);
        proof {
            self.log@ = self.log@.push(Event::Read { limit, timeout_ms, read: r });
        }
        r
    }

    /// The stream.
    pub fn stream(&self) -> (r: &B)
        ensures
            *r == self.inner(),
    {
        &self.stream
    }

    /// Gives up the transport for its stream.
    pub fn into_stream(self) -> (r: B)
        ensures
            r == self.inner(),
    {
        self.stream
    }
}

} // verus!
