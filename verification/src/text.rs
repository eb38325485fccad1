//! The codec of text: the number of UTF-8 bytes as a 64-bit integer, then the
//! bytes themselves.

use crate::buffer::Buffer;
use crate::codec::Bufferable;
use crate::reader::ReadBuffer;
use vstd::prelude::*;
use vstd::utf8::{
    decode_utf8, encode_utf8, encode_utf8_decode_utf8, encode_utf8_valid_utf8, valid_utf8,
};

verus! {

/// `String::from_utf8` of the standard library: it accepts exactly the byte
/// sequences that are well-formed UTF-8, and the string it then gives
/// consists of those very bytes.
#[verifier::external_body]
fn string_from_utf8(bytes: Vec<u8>) -> (r: Option<String>)
    ensures
        r is Some <==> valid_utf8(bytes@),
        r matches Some(s) ==> encode_utf8(s@) == bytes@,
{
    match String::from_utf8(bytes) {
        Ok(s) => Some(s),
        Err(_) => None,
    }
}

/// What decoding text makes of the bytes that follow a length prefix which
/// was read as `len`, and how many of them it consumes.
pub open spec fn text_body(body: Seq<u8>, len: nat) -> (Option<Seq<char>>, nat) {
    if body.len() < len {
        (None, 0)
    } else if valid_utf8(body.take(len as int)) {
        (Some(decode_utf8(body.take(len as int))), len)
    } else {
        (None, len)
    }
}

/// The number of UTF-8 bytes as a `u64`, then those bytes.
impl Bufferable for String {
    open spec fn encodable(v: Seq<char>) -> bool {
        encode_utf8(v).len() <= u64::MAX
    }

    open spec fn encoding(v: Seq<char>) -> Seq<u8> {
        u64::encoding(encode_utf8(v).len() as u64) + encode_utf8(v)
    }

    open spec fn decoding(bytes: Seq<u8>) -> (Option<Seq<char>>, nat) {
        match u64::decoding(bytes) {
            (Some(len), n) => {
                let (text, m) = text_body(bytes.skip(n as int), len as nat);
                (text, n + m)
            },
            (None, n) => (None, n),
        }
    }

    proof fn lemma_decoding_within(bytes: Seq<u8>) {
    }

    proof fn lemma_decoding_exhausted() {
    }

    proof fn lemma_round_trip(v: Seq<char>, rest: Seq<u8>) {
        let body = encode_utf8(v);
        let len = body.len() as u64;
        let bytes = Self::encoding(v) + rest;
        u64::lemma_round_trip(len, body + rest);
        assert(bytes.skip(8) =~= body + rest);
        assert((body + rest).take(len as int) =~= body);
        encode_utf8_valid_utf8(v);
        encode_utf8_decode_utf8(v);
    }

    proof fn lemma_truncated(v: Seq<char>, n: int) {
        let body = encode_utf8(v);
        let len = body.len() as u64;
        u64::lemma_round_trip(len, body);
        if n >= 8 {
            u64::lemma_round_trip(len, body.take(n - 8));
        }
    }

    fn into_buffer(self, vec: &mut Buffer) {
        self.copy_into_buffer(vec);
    }

    fn copy_into_buffer(&self, vec: &mut Buffer) {
        let bytes: &[u8] = self.as_str().as_bytes();
        let len: usize = bytes.len();
        (len as u64).into_buffer(vec);
        let ghost prefix = vec@;
        let mut i: usize = 0;
        while i < len
            invariant
                i <= len,
                len == bytes@.len(),
                vec@ == prefix + bytes@.take(i as int),
            decreases len - i,
        {
            vec.push(bytes[i]);
            i += 1;
        }
    }

    fn from_buffer(buf: &mut ReadBuffer) -> (r: Option<String>) {
        let len: u64 = match u64::from_buffer(buf) {
            Some(len) => len,
            None => {
                return None;
            },
        };
        let remaining: usize = buf.remaining_bytes();
        if len > remaining as u64 {
            return None;
        }
        let count: usize = len as usize;
        let ghost body = buf@.unread();
        let mut bytes: Vec<u8> = Vec::new();
        let mut i: usize = 0;
        while i < count
            invariant
                i <= count <= body.len(),
                body == buf@.unread(),
                bytes@ == body.take(i as int),
            decreases count - i,
        {
            bytes.push(buf.peek(i));
            i += 1;
        }
        buf.advance(count);
        let text = string_from_utf8(bytes);
        proof {
            assert(body =~= old(buf)@.unread().skip(8));
            if text is Some {
                encode_utf8_decode_utf8(text->0@);
            }
        }
        text
    }
}

} // verus!
