//! Codecs of the unsigned integers: fixed width, most significant byte
//! first.

use crate::buffer::Buffer;
use crate::codec::Bufferable;
use crate::reader::ReadBuffer;
use vstd::prelude::*;

verus! {

/// The bytes of a 64-bit number, as masked shifts give them, are its
/// digits to the base 256.
proof fn lemma_u64_masks(x: u64)
    ensures
        ((x >> 56) & 0xff) == x / 0x100_0000_0000_0000,
        ((x >> 48) & 0xff) == x / 0x1_0000_0000_0000 % 0x100,
        ((x >> 40) & 0xff) == x / 0x100_0000_0000 % 0x100,
        ((x >> 32) & 0xff) == x / 0x1_0000_0000 % 0x100,
        ((x >> 24) & 0xff) == x / 0x100_0000 % 0x100,
        ((x >> 16) & 0xff) == x / 0x1_0000 % 0x100,
        ((x >> 8) & 0xff) == x / 0x100 % 0x100,
        (x & 0xff) == x % 0x100,
{
    assert(((x >> 56) & 0xff) == x / 0x100_0000_0000_0000
        && ((x >> 48) & 0xff) == x / 0x1_0000_0000_0000 % 0x100
        && ((x >> 40) & 0xff) == x / 0x100_0000_0000 % 0x100
        && ((x >> 32) & 0xff) == x / 0x1_0000_0000 % 0x100
        && ((x >> 24) & 0xff) == x / 0x100_0000 % 0x100
        && ((x >> 16) & 0xff) == x / 0x1_0000 % 0x100
        && ((x >> 8) & 0xff) == x / 0x100 % 0x100
        && (x & 0xff) == x % 0x100) by (bit_vector);
}

/// A byte moved up by whole bytes is the byte times a power of 256.
proof fn lemma_u64_shifts(b: u8)
    ensures
        (b as u64) << 8 == b * 0x100,
        (b as u64) << 16 == b * 0x1_0000,
        (b as u64) << 24 == b * 0x100_0000,
        (b as u64) << 32 == b * 0x1_0000_0000,
        (b as u64) << 40 == b * 0x100_0000_0000,
        (b as u64) << 48 == b * 0x1_0000_0000_0000,
        (b as u64) << 56 == b * 0x100_0000_0000_0000,
{
    assert((b as u64) << 8 == b * 0x100
        && (b as u64) << 16 == b * 0x1_0000
        && (b as u64) << 24 == b * 0x100_0000
        && (b as u64) << 32 == b * 0x1_0000_0000
        && (b as u64) << 40 == b * 0x100_0000_0000
        && (b as u64) << 48 == b * 0x1_0000_0000_0000
        && (b as u64) << 56 == b * 0x100_0000_0000_0000) by (bit_vector);
}

/// A 64-bit number is the sum of its digits to the base 256, each times
/// its power of 256.
proof fn lemma_u64_digits(v: u64)
    ensures
        v / 0x100_0000_0000_0000 < 0x100,
        v == v / 0x100_0000_0000_0000 * 0x100_0000_0000_0000
            + v / 0x1_0000_0000_0000 % 0x100 * 0x1_0000_0000_0000
            + v / 0x100_0000_0000 % 0x100 * 0x100_0000_0000
            + v / 0x1_0000_0000 % 0x100 * 0x1_0000_0000
            + v / 0x100_0000 % 0x100 * 0x100_0000
            + v / 0x1_0000 % 0x100 * 0x1_0000
            + v / 0x100 % 0x100 * 0x100
            + v % 0x100,
{
    let n = v as int;
    assert(n / 0x100 / 0x100 == n / 0x1_0000);
    assert(n / 0x1_0000 / 0x100 == n / 0x100_0000);
    assert(n / 0x100_0000 / 0x100 == n / 0x1_0000_0000);
    assert(n / 0x1_0000_0000 / 0x100 == n / 0x100_0000_0000);
    assert(n / 0x100_0000_0000 / 0x100 == n / 0x1_0000_0000_0000);
    assert(n / 0x1_0000_0000_0000 / 0x100 == n / 0x100_0000_0000_0000);
}

/// Eight bytes, most significant first.
impl Bufferable for u64 {
    open spec fn encodable(v: u64) -> bool {
        true
    }

    open spec fn encoding(v: u64) -> Seq<u8> {
        seq![
            (v / 0x100_0000_0000_0000) as u8,
            (v / 0x1_0000_0000_0000 % 0x100) as u8,
            (v / 0x100_0000_0000 % 0x100) as u8,
            (v / 0x1_0000_0000 % 0x100) as u8,
            (v / 0x100_0000 % 0x100) as u8,
            (v / 0x1_0000 % 0x100) as u8,
            (v / 0x100 % 0x100) as u8,
            (v % 0x100) as u8,
        ]
    }

    open spec fn decoding(bytes: Seq<u8>) -> (Option<u64>, nat) {
        if bytes.len() >= 8 {
            (
                Some(
                    (bytes[0] * 0x100_0000_0000_0000 + bytes[1] * 0x1_0000_0000_0000
                        + bytes[2] * 0x100_0000_0000 + bytes[3] * 0x1_0000_0000
                        + bytes[4] * 0x100_0000 + bytes[5] * 0x1_0000 + bytes[6] * 0x100
                        + bytes[7]) as u64,
                ),
                8,
            )
        } else {
            (None, 0)
        }
    }

    proof fn lemma_decoding_within(bytes: Seq<u8>) {
    }

    proof fn lemma_decoding_exhausted() {
    }

    proof fn lemma_round_trip(v: u64, rest: Seq<u8>) {
        lemma_u64_digits(v);
    }

    proof fn lemma_truncated(v: u64, n: int) {
    }

    fn into_buffer(self, vec: &mut Buffer) {
        vec.push(((self >> 56) & 0xff) as u8);
        vec.push(((self >> 48) & 0xff) as u8);
        vec.push(((self >> 40) & 0xff) as u8);
        vec.push(((self >> 32) & 0xff) as u8);
        vec.push(((self >> 24) & 0xff) as u8);
        vec.push(((self >> 16) & 0xff) as u8);
        vec.push(((self >> 8) & 0xff) as u8);
        vec.push((self & 0xff) as u8);
        proof {
            lemma_u64_masks(self);
        }
    }

    fn copy_into_buffer(&self, vec: &mut Buffer) {
        (*self).into_buffer(vec);
    }

    fn from_buffer(buf: &mut ReadBuffer) -> (r: Option<u64>) {
        if buf.remaining_bytes() < 8 {
            return None;
        }
        let ghost block = buf@.unread();
        proof {
            lemma_u64_shifts(block[0]);
            lemma_u64_shifts(block[1]);
            lemma_u64_shifts(block[2]);
            lemma_u64_shifts(block[3]);
            lemma_u64_shifts(block[4]);
            lemma_u64_shifts(block[5]);
            lemma_u64_shifts(block[6]);
        }
        let mut val: u64 = 0;
        val += (buf.peek(0) as u64) << 56;
        val += (buf.peek(1) as u64) << 48;
        val += (buf.peek(2) as u64) << 40;
        val += (buf.peek(3) as u64) << 32;
        val += (buf.peek(4) as u64) << 24;
        val += (buf.peek(5) as u64) << 16;
        val += (buf.peek(6) as u64) << 8;
        val += buf.peek(7) as u64;
        buf.advance(8);
        Some(val)
    }
}

/// The bytes of a 32-bit number, as masked shifts give them, are its
/// digits to the base 256.
proof fn lemma_u32_masks(x: u32)
    ensures
        ((x >> 24) & 0xff) == x / 0x100_0000,
        ((x >> 16) & 0xff) == x / 0x1_0000 % 0x100,
        ((x >> 8) & 0xff) == x / 0x100 % 0x100,
        (x & 0xff) == x % 0x100,
{
    assert(((x >> 24) & 0xff) == x / 0x100_0000
        && ((x >> 16) & 0xff) == x / 0x1_0000 % 0x100
        && ((x >> 8) & 0xff) == x / 0x100 % 0x100
        && (x & 0xff) == x % 0x100) by (bit_vector);
}

/// A byte moved up by whole bytes is the byte times a power of 256.
proof fn lemma_u32_shifts(b: u8)
    ensures
        (b as u32) << 8 == b * 0x100,
        (b as u32) << 16 == b * 0x1_0000,
        (b as u32) << 24 == b * 0x100_0000,
{
    assert((b as u32) << 8 == b * 0x100
        && (b as u32) << 16 == b * 0x1_0000
        && (b as u32) << 24 == b * 0x100_0000) by (bit_vector);
}

/// Four bytes, most significant first.
impl Bufferable for u32 {
    open spec fn encodable(v: u32) -> bool {
        true
    }

    open spec fn encoding(v: u32) -> Seq<u8> {
        seq![
            (v / 0x100_0000) as u8,
            (v / 0x1_0000 % 0x100) as u8,
            (v / 0x100 % 0x100) as u8,
            (v % 0x100) as u8,
        ]
    }

    open spec fn decoding(bytes: Seq<u8>) -> (Option<u32>, nat) {
        if bytes.len() >= 4 {
            (
                Some(
                    (bytes[0] * 0x100_0000 + bytes[1] * 0x1_0000 + bytes[2] * 0x100
                        + bytes[3]) as u32,
                ),
                4,
            )
        } else {
            (None, 0)
        }
    }

    proof fn lemma_decoding_within(bytes: Seq<u8>) {
    }

    proof fn lemma_decoding_exhausted() {
    }

    proof fn lemma_round_trip(v: u32, rest: Seq<u8>) {
    }

    proof fn lemma_truncated(v: u32, n: int) {
    }

    fn into_buffer(self, vec: &mut Buffer) {
        vec.push(((self >> 24) & 0xff) as u8);
        vec.push(((self >> 16) & 0xff) as u8);
        vec.push(((self >> 8) & 0xff) as u8);
        vec.push((self & 0xff) as u8);
        proof {
            lemma_u32_masks(self);
        }
    }

    fn copy_into_buffer(&self, vec: &mut Buffer) {
        (*self).into_buffer(vec);
    }

    fn from_buffer(buf: &mut ReadBuffer) -> (r: Option<u32>) {
        if buf.remaining_bytes() < 4 {
            proof {
                assert(buf@ == old(buf)@.advance(0));
            }
            return None;
        }
        let ghost block = buf@.unread();
        proof {
            lemma_u32_shifts(block[0]);
            lemma_u32_shifts(block[1]);
            lemma_u32_shifts(block[2]);
        }
        let mut val: u32 = 0;
        val += (buf.peek(0) as u32) << 24;
        val += (buf.peek(1) as u32) << 16;
        val += (buf.peek(2) as u32) << 8;
        val += buf.peek(3) as u32;
        buf.advance(4);
        Some(val)
    }
}

/// The bytes of a 16-bit number, as masked shifts give them, are its
/// digits to the base 256.
proof fn lemma_u16_masks(x: u16)
    ensures
        ((x >> 8) & 0xff) == x / 0x100,
        (x & 0xff) == x % 0x100,
{
    assert(((x >> 8) & 0xff) == x / 0x100 && (x & 0xff) == x % 0x100) by (bit_vector);
}

/// A byte moved up by one byte is the byte times 256.
proof fn lemma_u16_shifts(b: u8)
    ensures
        (b as u16) << 8 == b * 0x100,
{
    assert((b as u16) << 8 == b * 0x100) by (bit_vector);
}

/// Two bytes, most significant first.
impl Bufferable for u16 {
    open spec fn encodable(v: u16) -> bool {
        true
    }

    open spec fn encoding(v: u16) -> Seq<u8> {
        seq![(v / 0x100) as u8, (v % 0x100) as u8]
    }

    open spec fn decoding(bytes: Seq<u8>) -> (Option<u16>, nat) {
        if bytes.len() >= 2 {
            (Some((bytes[0] * 0x100 + bytes[1]) as u16), 2)
        } else {
            (None, 0)
        }
    }

    proof fn lemma_decoding_within(bytes: Seq<u8>) {
    }

    proof fn lemma_decoding_exhausted() {
    }

    proof fn lemma_round_trip(v: u16, rest: Seq<u8>) {
    }

    proof fn lemma_truncated(v: u16, n: int) {
    }

    fn into_buffer(self, vec: &mut Buffer) {
        vec.push(((self >> 8) & 0xff) as u8);
        vec.push((self & 0xff) as u8);
        proof {
            lemma_u16_masks(self);
        }
    }

    fn copy_into_buffer(&self, vec: &mut Buffer) {
        (*self).into_buffer(vec);
    }

    fn from_buffer(buf: &mut ReadBuffer) -> (r: Option<u16>) {
        if buf.remaining_bytes() < 2 {
            return None;
        }
        let ghost block = buf@.unread();
        proof {
            lemma_u16_shifts(block[0]);
        }
        let mut val: u16 = 0;
        val += (buf.peek(0) as u16) << 8;
        val += buf.peek(1) as u16;
        buf.advance(2);
        Some(val)
    }
}

/// One byte: the value itself.
impl Bufferable for u8 {
    open spec fn encodable(v: u8) -> bool {
        true
    }

    open spec fn encoding(v: u8) -> Seq<u8> {
        seq![v]
    }

    open spec fn decoding(bytes: Seq<u8>) -> (Option<u8>, nat) {
        if bytes.len() >= 1 {
            (Some(bytes[0]), 1)
        } else {
            (None, 0)
        }
    }

    proof fn lemma_decoding_within(bytes: Seq<u8>) {
    }

    proof fn lemma_decoding_exhausted() {
    }

    proof fn lemma_round_trip(v: u8, rest: Seq<u8>) {
    }

    proof fn lemma_truncated(v: u8, n: int) {
    }

    fn into_buffer(self, vec: &mut Buffer) {
        vec.push(self);
    }

    fn copy_into_buffer(&self, vec: &mut Buffer) {
        (*self).into_buffer(vec);
    }

    fn from_buffer(buf: &mut ReadBuffer) -> (r: Option<u8>) {
        if buf.remaining_bytes() < 1 {
            return None;
        }
        let val: u8 = buf.peek(0);
        buf.advance(1);
        Some(val)
    }
}

} // verus!
