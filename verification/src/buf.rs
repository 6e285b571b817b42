//! A growable in-memory byte buffer used as the block accumulator.
//!
//! Between flushes the buffer holds exactly the annotated bytes of the
//! lines belonging to the block currently open, in input order; nothing
//! is ever dropped on append, and clearing only truncates.

use vstd::prelude::*;

verus! {

/// A growable byte buffer that accepts writes and hands its contents out
/// in one piece.
pub struct MemWriter {
    buf: Vec<u8>,
}

impl View for MemWriter {
    type V = Seq<u8>;

    closed spec fn view(&self) -> Seq<u8> {
        self.buf@
    }
}

impl MemWriter {
    /// Create a new `MemWriter`.
    pub fn new() -> (r: MemWriter)
        ensures
            r@ == Seq::<u8>::empty(),
    {
        MemWriter::with_capacity(512)
    }

    /// Create a new `MemWriter`, allocating at least `n` bytes for the
    /// internal buffer.
    pub fn with_capacity(n: usize) -> (r: MemWriter)
        ensures
            r@ == Seq::<u8>::empty(),
    {
        MemWriter { buf: Vec::with_capacity(n) }
    }

    /// Acquires an immutable reference to the underlying buffer.
    pub fn get_ref(&self) -> (r: &[u8])
        ensures
            r@ == self@,
    {
        self.buf.as_slice()
    }

    /// Unwraps this `MemWriter`, returning the underlying buffer.
    pub fn unwrap(self) -> (r: Vec<u8>)
        ensures
            r@ == self@,
    {
        self.buf
    }

    /// Wraps an existing byte vector.
    pub fn wrap(buf: Vec<u8>) -> (r: MemWriter)
        ensures
            r@ == buf@,
    {
        MemWriter { buf }
    }

    /// Truncate the buffer to zero length, retaining its capacity.
    pub fn clear(&mut self)
        ensures
            final(self)@ == Seq::<u8>::empty(),
    {
        self.buf.clear();
    }

    /// True when the buffer holds no bytes.
    pub fn is_empty(&self) -> (r: bool)
        ensures
            r == (self@.len() == 0),
    {
        self.buf.is_empty()
    }

    /// Append all of `bytes` at the end of the buffer.
    pub fn write(&mut self, bytes: &[u8])
        ensures
            final(self)@ == old(self)@ + bytes@,
    {
        let mut i: usize = 0;
        while i < bytes.len()
            invariant
                i <= bytes@.len(),
                self@ == old(self)@ + bytes@.take(i as int),
            decreases bytes@.len() - i,
        {
            self.buf.push(bytes[i]);
            i = i + 1;
            proof {
                assert(bytes@.take(i as int) == bytes@.take(i - 1).push(bytes@[i - 1]));
            }
        }
        proof {
            assert(bytes@.take(bytes@.len() as int) == bytes@);
        }
    }

    /// Take the buffer's contents, leaving it empty.
    pub fn take(&mut self) -> (r: Vec<u8>)
        ensures
            r@ == old(self)@,
            final(self)@ == Seq::<u8>::empty(),
    {
        let mut out: Vec<u8> = Vec::new();
        core::mem::swap(&mut self.buf, &mut out);
        out
    }
}

} // verus!
