//! The byte-stream boundary of the library.
//!
//! A session owns exactly one duplex byte connection. The library is
//! generic over that connection: anything that can hand over some bytes
//! and accept some bytes will do. Real sockets live outside the library
//! and implement this trait there; an in-memory connection lives here for
//! tests and for driving the protocol from buffers.

use vstd::prelude::*;
use crate::error::Error;

verus! {

/// A duplex byte stream the session reads frames from and writes frames
/// to. Nothing is promised of the bytes a transport hands over: the
/// session is verified for every sequence of bytes a transport may
/// produce.
pub trait Transport {
    /// Read some bytes from the stream, blocking until at least one byte
    /// is available. An empty result means the stream has ended. A
    /// transport can fail only with a transport error.
    fn read_bytes(&mut self) -> (r: Result<Vec<u8>, Error>)
        ensures
            r matches Err(e) ==> e is IoError,
    ;

    /// Write the given bytes, completely, to the stream. A transport can
    /// fail only with a transport error.
    fn write_bytes(&mut self, data: &[u8]) -> (r: Result<(), Error>)
        ensures
            r matches Err(e) ==> e is IoError,
    ;
}

/// An in-memory duplex buffer: reads are served from `input` in chunks,
/// writes are appended to `output`. Useful for tests and for feeding the
/// protocol from data that arrived by other means.
#[derive(Debug)]
pub struct MemoryConnection {
    /// The bytes that the connection will serve to readers.
    pub input: Vec<u8>,
    /// How many bytes of `input` have been served so far.
    pub pos: usize,
    /// The largest number of bytes one read will serve.
    pub chunk: usize,
    /// Every byte written to the connection, in order.
    pub output: Vec<u8>,
}

impl MemoryConnection {
    /// A connection that serves the given bytes, all at once.
    pub fn new(input: Vec<u8>) -> (r: MemoryConnection)
        ensures
            r.input == input,
            r.pos == 0,
            r.output@ == Seq::<u8>::empty(),
    {
        let chunk = if input.len() > 0 {
            input.len()
        } else {
            1
        };
        MemoryConnection { input, pos: 0, chunk, output: Vec::new() }
    }

    /// A connection that serves the given bytes at most `chunk` at a
    /// time, so a slow or dribbling peer can be simulated.
    pub fn with_chunk(input: Vec<u8>, chunk: usize) -> (r: MemoryConnection)
        ensures
            r.input == input,
            r.pos == 0,
            r.output@ == Seq::<u8>::empty(),
    {
        let chunk = if chunk == 0 {
            1
        } else {
            chunk
        };
        MemoryConnection { input, pos: 0, chunk, output: Vec::new() }
    }
}

impl Transport for MemoryConnection {
    /// Serves the next unread chunk of `input`: at least one byte, in
    /// order, advancing `pos` past what was served; once everything has
    /// been served, the end of the stream is a transport error.
    fn read_bytes(&mut self) -> (r: Result<Vec<u8>, Error>)
        ensures
            match r {
                Ok(v) => ({
                    &&& v@.len() > 0
                    &&& old(self).pos + v@.len() <= old(self).input@.len()
                    &&& v@ == old(self).input@.subrange(
                        old(self).pos as int,
                        old(self).pos + v@.len(),
                    )
                    &&& final(self).pos == old(self).pos + v@.len()
                    &&& final(self).input == old(self).input
                    &&& final(self).chunk == old(self).chunk
                    &&& final(self).output == old(self).output
                }),
                Err(e) => ({
                    &&& e is IoError
                    &&& old(self).pos >= old(self).input@.len()
                    &&& final(self).pos == old(self).pos
                    &&& final(self).input == old(self).input
                    &&& final(self).chunk == old(self).chunk
                    &&& final(self).output == old(self).output
                }),
            },
    {
        if self.pos >= self.input.len() {
            return Err(Error::IoError("end of input".to_owned()));
        }
        let remaining = self.input.len() - self.pos;
        let take = if self.chunk == 0 {
            remaining
        } else if self.chunk < remaining {
            self.chunk
        } else {
            remaining
        };
        let mut out: Vec<u8> = Vec::new();
        let mut i: usize = 0;
        while i < take
            invariant
                0 <= i <= take,
                0 < take,
                self.pos + take <= self.input.len(),
                self == old(self),
                out@ =~= self.input@.subrange(self.pos as int, self.pos + i),
            decreases take - i,
        {
            out.push(self.input[self.pos + i]);
            proof {
                assert(out@ =~= self.input@.subrange(self.pos as int, self.pos + i + 1));
            }
            i += 1;
        }
        self.pos = self.pos + take;
        Ok(out)
    }

    /// Appends the given bytes, all of them and nothing else, to
    /// `output`; writing into memory cannot fail.
    fn write_bytes(&mut self, data: &[u8]) -> (r: Result<(), Error>)
        ensures
            r is Ok,
            final(self).output@ == old(self).output@ + data@,
            final(self).pos == old(self).pos,
            final(self).input == old(self).input,
            final(self).chunk == old(self).chunk,
    {
        let mut i: usize = 0;
        let n = data.len();
        while i < n
            invariant
                0 <= i <= n,
                n == data@.len(),
                self.pos == old(self).pos,
                self.input == old(self).input,
                self.chunk == old(self).chunk,
                self.output@ =~= old(self).output@ + data@.take(i as int),
            decreases n - i,
        {
            self.output.push(data[i]);
            proof {
                assert(self.output@ =~= old(self).output@ + data@.take(i + 1));
            }
            i += 1;
        }
        proof {
            assert(old(self).output@ + data@.take(n as int) =~= old(self).output@ + data@);
        }
        Ok(())
    }
}

} // verus!
