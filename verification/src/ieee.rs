//! IEEE-754 numbers, carried by their bit patterns. The codec needs nothing
//! of a number but its bits, so that is all these types hold; callers convert
//! with the `to_bits` and `from_bits` of the primitive types.
//!
//! Two values are equal where their bits are. That is finer than the
//! equality of the numbers: it tells the two zeros apart, and a NaN equals
//! itself.

use crate::buffer::Buffer;
use crate::codec::Bufferable;
use crate::reader::ReadBuffer;
use vstd::prelude::*;

verus! {

/// The bit pattern of an IEEE-754 binary32 number.
#[derive(Clone, Copy, Debug, PartialEq, Eq, Structural)]
pub struct Float32 {
    pub bits: u32,
}

/// The bit pattern of an IEEE-754 binary64 number.
#[derive(Clone, Copy, Debug, PartialEq, Eq, Structural)]
pub struct Float64 {
    pub bits: u64,
}

impl View for Float32 {
    type V = u32;

    open spec fn view(&self) -> u32 {
        self.bits
    }
}

impl DeepView for Float32 {
    type V = u32;

    open spec fn deep_view(&self) -> u32 {
        self.bits
    }
}

impl View for Float64 {
    type V = u64;

    open spec fn view(&self) -> u64 {
        self.bits
    }
}

impl DeepView for Float64 {
    type V = u64;

    open spec fn deep_view(&self) -> u64 {
        self.bits
    }
}

impl Float32 {
    /// The number with the given bit pattern.
    pub fn from_bits(bits: u32) -> (r: Self)
        ensures
            r@ == bits,
    {
        Float32 { bits }
    }

    /// The bit pattern of the number.
    pub fn to_bits(self) -> (bits: u32)
        ensures
            bits == self@,
    {
        self.bits
    }
}

impl Float64 {
    /// The number with the given bit pattern.
    pub fn from_bits(bits: u64) -> (r: Self)
        ensures
            r@ == bits,
    {
        Float64 { bits }
    }

    /// The bit pattern of the number.
    pub fn to_bits(self) -> (bits: u64)
        ensures
            bits == self@,
    {
        self.bits
    }
}

/// The four bytes of the bit pattern, most significant first.
impl Bufferable for Float32 {
    open spec fn encodable(v: u32) -> bool {
        true
    }

    open spec fn encoding(v: u32) -> Seq<u8> {
        u32::encoding(v)
    }

    open spec fn decoding(bytes: Seq<u8>) -> (Option<u32>, nat) {
        u32::decoding(bytes)
    }

    proof fn lemma_decoding_within(bytes: Seq<u8>) {
    }

    proof fn lemma_decoding_exhausted() {
    }

    proof fn lemma_round_trip(v: u32, rest: Seq<u8>) {
        u32::lemma_round_trip(v, rest);
    }

    proof fn lemma_truncated(v: u32, n: int) {
        u32::lemma_truncated(v, n);
    }

    fn into_buffer(self, vec: &mut Buffer) {
        self.bits.into_buffer(vec);
    }

    fn copy_into_buffer(&self, vec: &mut Buffer) {
        self.bits.into_buffer(vec);
    }

    fn from_buffer(buf: &mut ReadBuffer) -> (r: Option<Float32>) {
        match u32::from_buffer(buf) {
            Some(bits) => Some(Float32 { bits }),
            None => None,
        }
    }
}

/// The eight bytes of the bit pattern, most significant first.
impl Bufferable for Float64 {
    open spec fn encodable(v: u64) -> bool {
        true
    }

    open spec fn encoding(v: u64) -> Seq<u8> {
        u64::encoding(v)
    }

    open spec fn decoding(bytes: Seq<u8>) -> (Option<u64>, nat) {
        u64::decoding(bytes)
    }

    proof fn lemma_decoding_within(bytes: Seq<u8>) {
    }

    proof fn lemma_decoding_exhausted() {
    }

    proof fn lemma_round_trip(v: u64, rest: Seq<u8>) {
        u64::lemma_round_trip(v, rest);
    }

    proof fn lemma_truncated(v: u64, n: int) {
        u64::lemma_truncated(v, n);
    }

    fn into_buffer(self, vec: &mut Buffer) {
        self.bits.into_buffer(vec);
    }

    fn copy_into_buffer(&self, vec: &mut Buffer) {
        self.bits.into_buffer(vec);
    }

    fn from_buffer(buf: &mut ReadBuffer) -> (r: Option<Float64>) {
        match u64::from_buffer(buf) {
            Some(bits) => Some(Float64 { bits }),
            None => None,
        }
    }
}

} // verus!
