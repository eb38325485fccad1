//! The codecs of pairs and triples: the components in their declared order,
//! with nothing between them and no length in front.

use crate::buffer::Buffer;
use crate::codec::Bufferable;
use crate::reader::ReadBuffer;
use vstd::prelude::*;

verus! {

/// The first component, then the second.
impl<A: Bufferable + Clone, B: Bufferable + Clone> Bufferable for (A, B) {
    open spec fn encodable(v: (A::V, B::V)) -> bool {
        A::encodable(v.0) && B::encodable(v.1)
    }

    open spec fn encoding(v: (A::V, B::V)) -> Seq<u8> {
        A::encoding(v.0) + B::encoding(v.1)
    }

    open spec fn decoding(bytes: Seq<u8>) -> (Option<(A::V, B::V)>, nat) {
        match A::decoding(bytes) {
            (Some(first), n) => match B::decoding(bytes.skip(n as int)) {
                (Some(second), m) => (Some((first, second)), n + m),
                (None, m) => (None, n + m),
            },
            (None, n) => (None, n),
        }
    }

    proof fn lemma_decoding_within(bytes: Seq<u8>) {
        A::lemma_decoding_within(bytes);
        B::lemma_decoding_within(bytes.skip(A::decoding(bytes).1 as int));
    }

    proof fn lemma_decoding_exhausted() {
        A::lemma_decoding_exhausted();
    }

    proof fn lemma_round_trip(v: (A::V, B::V), rest: Seq<u8>) {
        let head = A::encoding(v.0);
        let tail = B::encoding(v.1);
        let bytes = Self::encoding(v) + rest;
        A::lemma_round_trip(v.0, tail + rest);
        assert(bytes =~= head + (tail + rest));
        assert(bytes.skip(head.len() as int) =~= tail + rest);
        B::lemma_round_trip(v.1, rest);
    }

    proof fn lemma_truncated(v: (A::V, B::V), n: int) {
        let head = A::encoding(v.0);
        let tail = B::encoding(v.1);
        let bytes = Self::encoding(v).take(n);
        if n < head.len() {
            A::lemma_truncated(v.0, n);
            assert(bytes =~= head.take(n));
        } else {
            let cut = tail.take(n - head.len());
            A::lemma_round_trip(v.0, cut);
            assert(bytes =~= head + cut);
            assert(bytes.skip(head.len() as int) =~= cut);
            B::lemma_truncated(v.1, n - head.len());
        }
    }

    fn into_buffer(self, buf: &mut Buffer) {
        self.0.into_buffer(buf);
        self.1.into_buffer(buf);
    }

    fn copy_into_buffer(&self, buf: &mut Buffer) {
        self.0.copy_into_buffer(buf);
        self.1.copy_into_buffer(buf);
    }

    fn from_buffer(buf: &mut ReadBuffer) -> (r: Option<(A, B)>) {
        let x: A = match A::from_buffer(buf) {
            Some(x) => x,
            None => {
                return None;
            },
        };
        proof {
            let n = A::decoding(old(buf)@.unread()).1;
            assert(buf@.unread() =~= old(buf)@.unread().skip(n as int));
        }
        let y: B = match B::from_buffer(buf) {
            Some(y) => y,
            None => {
                return None;
            },
        };
        Some((x, y))
    }
}

/// The pair of the first two components, then the third.
impl<A: Bufferable + Clone, B: Bufferable + Clone, C: Bufferable + Clone> Bufferable for (
    A,
    B,
    C,
) {
    open spec fn encodable(v: (A::V, B::V, C::V)) -> bool {
        <(A, B)>::encodable((v.0, v.1)) && C::encodable(v.2)
    }

    open spec fn encoding(v: (A::V, B::V, C::V)) -> Seq<u8> {
        <(A, B)>::encoding((v.0, v.1)) + C::encoding(v.2)
    }

    open spec fn decoding(bytes: Seq<u8>) -> (Option<(A::V, B::V, C::V)>, nat) {
        match <(A, B)>::decoding(bytes) {
            (Some(pair), n) => match C::decoding(bytes.skip(n as int)) {
                (Some(third), m) => (Some((pair.0, pair.1, third)), n + m),
                (None, m) => (None, n + m),
            },
            (None, n) => (None, n),
        }
    }

    proof fn lemma_decoding_within(bytes: Seq<u8>) {
        <(A, B)>::lemma_decoding_within(bytes);
        C::lemma_decoding_within(bytes.skip(<(A, B)>::decoding(bytes).1 as int));
    }

    proof fn lemma_decoding_exhausted() {
        <(A, B)>::lemma_decoding_exhausted();
    }

    proof fn lemma_round_trip(v: (A::V, B::V, C::V), rest: Seq<u8>) {
        let pair = (v.0, v.1);
        let head = <(A, B)>::encoding(pair);
        let tail = C::encoding(v.2);
        let bytes = Self::encoding(v) + rest;
        <(A, B)>::lemma_round_trip(pair, tail + rest);
        assert(bytes =~= head + (tail + rest));
        assert(bytes.skip(head.len() as int) =~= tail + rest);
        C::lemma_round_trip(v.2, rest);
    }

    proof fn lemma_truncated(v: (A::V, B::V, C::V), n: int) {
        let pair = (v.0, v.1);
        let head = <(A, B)>::encoding(pair);
        let tail = C::encoding(v.2);
        let bytes = Self::encoding(v).take(n);
        if n < head.len() {
            <(A, B)>::lemma_truncated(pair, n);
            assert(bytes =~= head.take(n));
        } else {
            let cut = tail.take(n - head.len());
            <(A, B)>::lemma_round_trip(pair, cut);
            assert(bytes =~= head + cut);
            assert(bytes.skip(head.len() as int) =~= cut);
            C::lemma_truncated(v.2, n - head.len());
        }
    }

    fn into_buffer(self, buf: &mut Buffer) {
        self.0.into_buffer(buf);
        self.1.into_buffer(buf);
        self.2.into_buffer(buf);
    }

    fn copy_into_buffer(&self, buf: &mut Buffer) {
        self.0.copy_into_buffer(buf);
        self.1.copy_into_buffer(buf);
        self.2.copy_into_buffer(buf);
    }

    fn from_buffer(buf: &mut ReadBuffer) -> (r: Option<(A, B, C)>) {
        let x: A = match A::from_buffer(buf) {
            Some(x) => x,
            None => {
                return None;
            },
        };
        proof {
            let n = A::decoding(old(buf)@.unread()).1;
            assert(buf@.unread() =~= old(buf)@.unread().skip(n as int));
        }
        let y: B = match B::from_buffer(buf) {
            Some(y) => y,
            None => {
                return None;
            },
        };
        proof {
            let n = <(A, B)>::decoding(old(buf)@.unread()).1;
            assert(buf@.unread() =~= old(buf)@.unread().skip(n as int));
        }
        let z: C = match C::from_buffer(buf) {
            Some(z) => z,
            None => {
                return None;
            },
        };
        Some((x, y, z))
    }
}

} // verus!
