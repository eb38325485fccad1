//! What holds of every codec, and of codecs used one after another. Each law
//! is stated over the cursor model in which `from_buffer` is specified, so it
//! speaks of what the executable decoders do.

use crate::codec::Bufferable;
use crate::ieee::{Float32, Float64};
use crate::reader::Cursor;
use vstd::prelude::*;
use vstd::utf8::valid_utf8;

verus! {

/// Round trip: a reader over exactly the bytes of `v` decodes `v`, and is
/// then positioned at the end of those bytes.
pub proof fn lemma_round_trip_fresh<T: Bufferable>(v: T::V)
    requires
        T::encodable(v),
    ensures
        ({
            let start = Cursor { bytes: T::encoding(v), pos: 0 };
            let (value, consumed) = T::decoding(start.unread());
            &&& value == Some(v)
            &&& start.advance(consumed).pos == T::encoding(v).len()
        }),
{
    let bytes = T::encoding(v);
    T::lemma_round_trip(v, Seq::empty());
    assert(bytes.skip(0) =~= bytes);
}

/// Round trip within a stream: with any bytes before and after those of
/// `v`, a reader that stands where the bytes of `v` begin decodes `v` and
/// then stands where they end.
pub proof fn lemma_round_trip_in_stream<T: Bufferable>(before: Seq<u8>, v: T::V, after: Seq<u8>)
    requires
        T::encodable(v),
    ensures
        ({
            let start = Cursor { bytes: before + T::encoding(v) + after, pos: before.len() };
            let (value, consumed) = T::decoding(start.unread());
            &&& value == Some(v)
            &&& start.advance(consumed).pos == before.len() + T::encoding(v).len()
        }),
{
    let bytes = before + T::encoding(v) + after;
    T::lemma_round_trip(v, after);
    assert(bytes.skip(before.len() as int) =~= T::encoding(v) + after);
}

/// Truncation: a reader over a proper prefix of the bytes of `v` decodes
/// nothing, and its bytes are what they were.
pub proof fn lemma_truncation<T: Bufferable>(v: T::V, n: int)
    requires
        T::encodable(v),
        0 <= n < T::encoding(v).len(),
    ensures
        ({
            let start = Cursor { bytes: T::encoding(v).take(n), pos: 0 };
            let (value, consumed) = T::decoding(start.unread());
            &&& value is None
            &&& start.advance(consumed).bytes == start.bytes
        }),
{
    let bytes = T::encoding(v).take(n);
    T::lemma_truncated(v, n);
    assert(bytes.skip(0) =~= bytes);
}

/// Truncation of the fixed-width types: with fewer bytes than the width,
/// nothing is decoded and nothing is consumed.
pub proof fn lemma_short_input(bytes: Seq<u8>)
    ensures
        bytes.len() < 1 ==> u8::decoding(bytes) == (None::<u8>, 0nat),
        bytes.len() < 2 ==> u16::decoding(bytes) == (None::<u16>, 0nat),
        bytes.len() < 4 ==> u32::decoding(bytes) == (None::<u32>, 0nat),
        bytes.len() < 8 ==> u64::decoding(bytes) == (None::<u64>, 0nat),
        bytes.len() < 4 ==> Float32::decoding(bytes) == (None::<u32>, 0nat),
        bytes.len() < 8 ==> Float64::decoding(bytes) == (None::<u64>, 0nat),
        bytes.len() < 8 ==> String::decoding(bytes) == (None::<Seq<char>>, 0nat),
{
}

/// Sequencing: three values, of whatever types, written one after another
/// into one buffer are read back in the same order by one reader, which then
/// stands at the end; a further attempt, for whatever type, decodes nothing.
pub proof fn lemma_sequencing<A: Bufferable, B: Bufferable, C: Bufferable, D: Bufferable>(
    a: A::V,
    b: B::V,
    c: C::V,
)
    requires
        A::encodable(a),
        B::encodable(b),
        C::encodable(c),
    ensures
        ({
            let bytes = A::encoding(a) + B::encoding(b) + C::encoding(c);
            let start = Cursor { bytes, pos: 0 };
            let after_a = start.advance(A::decoding(start.unread()).1);
            let after_b = after_a.advance(B::decoding(after_a.unread()).1);
            let after_c = after_b.advance(C::decoding(after_b.unread()).1);
            &&& A::decoding(start.unread()).0 == Some(a)
            &&& B::decoding(after_a.unread()).0 == Some(b)
            &&& C::decoding(after_b.unread()).0 == Some(c)
            &&& after_c.pos == bytes.len()
            &&& D::decoding(after_c.unread()).0 is None
        }),
{
    let ea = A::encoding(a);
    let eb = B::encoding(b);
    let ec = C::encoding(c);
    let bytes = ea + eb + ec;
    A::lemma_round_trip(a, eb + ec);
    assert(bytes =~= ea + (eb + ec));
    assert(bytes.skip(0) =~= bytes);
    B::lemma_round_trip(b, ec);
    assert(bytes.skip(ea.len() as int) =~= eb + ec);
    C::lemma_round_trip(c, Seq::empty());
    assert(bytes.skip((ea.len() + eb.len()) as int) =~= ec);
    D::lemma_decoding_exhausted();
    assert(bytes.skip(bytes.len() as int) =~= Seq::<u8>::empty());
}

/// Truncated text: where the length prefix promises more bytes than follow
/// it, no text is decoded, whatever those bytes are.
pub proof fn lemma_text_truncation(len: u64, body: Seq<u8>)
    requires
        body.len() < len,
    ensures
        String::decoding(u64::encoding(len) + body).0 is None,
{
    u64::lemma_round_trip(len, body);
}

/// Text validity: where the length prefix is followed by that many bytes,
/// but these are not well-formed UTF-8, no text is decoded, whatever comes
/// after them.
pub proof fn lemma_text_validity(body: Seq<u8>, rest: Seq<u8>)
    requires
        body.len() <= u64::MAX,
        !valid_utf8(body),
    ensures
        String::decoding(u64::encoding(body.len() as u64) + body + rest).0 is None,
{
    let len = body.len() as u64;
    let bytes = u64::encoding(len) + body + rest;
    u64::lemma_round_trip(len, body + rest);
    assert(bytes.skip(8) =~= body + rest);
    assert((body + rest).take(len as int) =~= body);
}

/// Composition: a triple is laid out, and decoded, as the pair of its first
/// two components followed by the third.
pub proof fn lemma_triple_is_pair_then_third<
    A: Bufferable + Clone,
    B: Bufferable + Clone,
    C: Bufferable + Clone,
>(v: (A::V, B::V, C::V), bytes: Seq<u8>)
    ensures
        <(A, B, C)>::encoding(v) == <(A, B)>::encoding((v.0, v.1)) + C::encoding(v.2),
        <(A, B, C)>::decoding(bytes) == (match <(A, B)>::decoding(bytes) {
            (Some(pair), n) => match C::decoding(bytes.skip(n as int)) {
                (Some(third), m) => (Some((pair.0, pair.1, third)), n + m),
                (None, m) => (None, n + m),
            },
            (None, n) => (None, n),
        }),
{
}

} // verus!
