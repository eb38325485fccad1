//! The codec capability: what it means for a type to be written to a byte
//! buffer and read back from a cursor.

use crate::buffer::Buffer;
use crate::reader::ReadBuffer;
use vstd::prelude::*;

verus! {

/// A type whose values can be appended to a [`Buffer`] and decoded again from
/// a [`ReadBuffer`].
///
/// The layout is stated over the type's deep view: `encoding` gives the bytes
/// of a value, `decoding` says what a decoder finds at the front of a byte
/// sequence. An implementation proves that the two agree, and its executable
/// methods are held to them.
pub trait Bufferable: Sized + DeepView {
    /// Whether a value of the type can stand for `v`: every length in it fits
    /// its length prefix.
    spec fn encodable(v: Self::V) -> bool;

    /// The bytes that stand for `v`.
    spec fn encoding(v: Self::V) -> Seq<u8>;

    /// What a decoder finds at the front of `bytes`: the value, or `None`
    /// where there is none, and the number of bytes that the attempt
    /// consumes.
    spec fn decoding(bytes: Seq<u8>) -> (Option<Self::V>, nat);

    /// A decoder never consumes more than there is.
    proof fn lemma_decoding_within(bytes: Seq<u8>)
        ensures
            Self::decoding(bytes).1 <= bytes.len(),
    ;

    /// Nothing can be decoded from no bytes.
    proof fn lemma_decoding_exhausted()
        ensures
            Self::decoding(Seq::<u8>::empty()).0 is None,
    ;

    /// Round trip: decoding the bytes of `v`, whatever follows them, gives
    /// `v` and consumes exactly those bytes.
    proof fn lemma_round_trip(v: Self::V, rest: Seq<u8>)
        requires
            Self::encodable(v),
        ensures
            Self::decoding(Self::encoding(v) + rest) == (Some(v), Self::encoding(v).len()),
    ;

    /// Truncation: from a proper prefix of the bytes of `v` nothing can be
    /// decoded.
    proof fn lemma_truncated(v: Self::V, n: int)
        requires
            Self::encodable(v),
            0 <= n < Self::encoding(v).len(),
        ensures
            Self::decoding(Self::encoding(v).take(n)).0 is None,
    ;

    /// Appends the bytes of `self` to `vec`, giving the value up.
    fn into_buffer(self, vec: &mut Buffer)
        ensures
            Self::encodable(self.deep_view()),
            final(vec)@ == old(vec)@ + Self::encoding(self.deep_view()),
    ;

    /// Appends the bytes of `self` to `vec`, leaving the value with the
    /// caller.
    fn copy_into_buffer(&self, vec: &mut Buffer)
        ensures
            Self::encodable(self.deep_view()),
            final(vec)@ == old(vec)@ + Self::encoding(self.deep_view()),
    ;

    /// Decodes a value from the unread bytes of `buf` and moves the position
    /// past what was consumed. The bytes themselves are never changed.
    ///
    /// `None` means that the bytes ran out or do not stand for a value; the
    /// two are not told apart. A failed attempt is not rolled back: what
    /// `decoding` counts as consumed stays consumed, so after a `None` from a
    /// text, a sequence or a tuple the reader is of no further use.
    fn from_buffer(buf: &mut ReadBuffer) -> (r: Option<Self>)
        ensures
            final(buf)@ == old(buf)@.advance(Self::decoding(old(buf)@.unread()).1),
            final(buf)@.pos <= final(buf)@.bytes.len(),
            r.deep_view() == Self::decoding(old(buf)@.unread()).0,
    ;
}

} // verus!
