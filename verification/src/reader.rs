//! The cursor reader: a byte buffer together with a read position.

use crate::buffer::Buffer;
use vstd::prelude::*;

verus! {

/// The mathematical state of a [`ReadBuffer`]: the bytes it owns and how many
/// of them have been consumed.
pub struct Cursor {
    pub bytes: Seq<u8>,
    pub pos: nat,
}

impl Cursor {
    /// The bytes that have not been consumed yet.
    pub open spec fn unread(self) -> Seq<u8> {
        self.bytes.skip(self.pos as int)
    }

    /// The same bytes with the position moved forward by `n`.
    pub open spec fn advance(self, n: nat) -> Cursor {
        Cursor { bytes: self.bytes, pos: self.pos + n }
    }
}

/// A byte buffer from which values are decoded front to back.
pub struct ReadBuffer {
    buffer: Buffer,
    iter: usize,
}

impl View for ReadBuffer {
    type V = Cursor;

    // The position is cut off at the end of the bytes, so that every view,
    // also of a value that exists in a proof only, has it within them.
    closed spec fn view(&self) -> Cursor {
        Cursor {
            bytes: self.buffer@,
            pos: if self.iter <= self.buffer@.len() {
                self.iter as nat
            } else {
                self.buffer@.len()
            },
        }
    }
}

impl ReadBuffer {
    #[verifier::type_invariant]
    spec fn within(self) -> bool {
        self.iter <= self.buffer@.len()
    }

    /// The position never lies beyond the end of the bytes.
    pub proof fn lemma_position_within(&self)
        ensures
            self@.pos <= self@.bytes.len(),
    {
    }

    /// Wraps a buffer; nothing has been consumed yet.
    pub fn from_raw(vec: Buffer) -> (r: Self)
        ensures
            r@ == (Cursor { bytes: vec@, pos: 0 }),
    {
        Self { buffer: vec, iter: 0 }
    }

    /// Gives the buffer back and forgets the position.
    pub fn into_raw(self) -> (vec: Buffer)
        ensures
            vec@ == self@.bytes,
    {
        self.buffer
    }

    /// Whether the underlying buffer holds no bytes at all. This says nothing
    /// about how many bytes are left to read.
    pub fn is_empty(&self) -> (b: bool)
        ensures
            b <==> self@.bytes.len() == 0,
    {
        self.buffer.is_empty()
    }

    /// The number of bytes that have not been consumed yet.
    pub(crate) fn remaining_bytes(&self) -> (n: usize)
        ensures
            self@.pos <= self@.bytes.len(),
            n == self@.bytes.len() - self@.pos,
            n == self@.unread().len(),
    {
        proof {
            use_type_invariant(self);
        }
        self.buffer.len() - self.iter
    }

    /// The unread byte at offset `i` from the position.
    pub(crate) fn peek(&self, i: usize) -> (b: u8)
        requires
            i < self@.unread().len(),
        ensures
            b == self@.unread()[i as int],
    {
        proof {
            use_type_invariant(self);
            assert(self@.unread().len() == self.buffer.len() - self.iter);
        }
        self.buffer[self.iter + i]
    }

    /// Consumes `n` bytes.
    pub(crate) fn advance(&mut self, n: usize)
        requires
            n <= old(self)@.unread().len(),
        ensures
            final(self)@ == old(self)@.advance(n as nat),
            final(self)@.pos <= final(self)@.bytes.len(),
    {
        proof {
            use_type_invariant(&*self);
            assert(self@.unread().len() == self.buffer.len() - self.iter);
        }
        self.iter = self.iter + n;
    }
}

} // verus!
