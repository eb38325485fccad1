//! The codec of homogeneous sequences: the number of items as a 64-bit
//! integer, then the items one after another, each in its own encoding.

use crate::buffer::Buffer;
use crate::codec::Bufferable;
use crate::reader::ReadBuffer;
use vstd::prelude::*;

verus! {

/// Whether every item can be encoded.
pub open spec fn all_encodable<T: Bufferable>(items: Seq<T::V>) -> bool {
    forall|i: int| 0 <= i < items.len() ==> T::encodable(#[trigger] items[i])
}

/// The encodings of the items, one after another.
pub open spec fn items_encoding<T: Bufferable>(items: Seq<T::V>) -> Seq<u8>
    decreases items.len(),
{
    if items.len() == 0 {
        Seq::empty()
    } else {
        items_encoding::<T>(items.drop_last()) + T::encoding(items.last())
    }
}

/// What decoding `count` items in a row finds at the front of `bytes`. The
/// first item that cannot be decoded ends the attempt; what was consumed up
/// to and by that item stays consumed.
pub open spec fn items_decoding<T: Bufferable>(bytes: Seq<u8>, count: nat) -> (
    Option<Seq<T::V>>,
    nat,
)
    decreases count,
{
    if count == 0 {
        (Some(Seq::empty()), 0)
    } else {
        match items_decoding::<T>(bytes, (count - 1) as nat) {
            (Some(items), n) => match T::decoding(bytes.skip(n as int)) {
                (Some(item), m) => (Some(items.push(item)), n + m),
                (None, m) => (None, n + m),
            },
            (None, n) => (None, n),
        }
    }
}

/// Decoding items never consumes more than there is.
pub proof fn lemma_items_decoding_within<T: Bufferable>(bytes: Seq<u8>, count: nat)
    ensures
        items_decoding::<T>(bytes, count).1 <= bytes.len(),
    decreases count,
{
    if count > 0 {
        lemma_items_decoding_within::<T>(bytes, (count - 1) as nat);
        let n = items_decoding::<T>(bytes, (count - 1) as nat).1;
        T::lemma_decoding_within(bytes.skip(n as int));
    }
}

/// Once an item has failed to decode, asking for more items changes nothing.
pub proof fn lemma_items_decoding_failed<T: Bufferable>(bytes: Seq<u8>, count: nat, more: nat)
    requires
        items_decoding::<T>(bytes, count).0 is None,
        count <= more,
    ensures
        items_decoding::<T>(bytes, more) == items_decoding::<T>(bytes, count),
    decreases more,
{
    if count < more {
        lemma_items_decoding_failed::<T>(bytes, count, (more - 1) as nat);
    }
}

/// Items that were encoded in a row, whatever follows them, decode to the
/// same items, and exactly their bytes are consumed.
pub proof fn lemma_items_round_trip<T: Bufferable>(items: Seq<T::V>, rest: Seq<u8>)
    requires
        all_encodable::<T>(items),
    ensures
        items_decoding::<T>(items_encoding::<T>(items) + rest, items.len()) == (
            Some(items),
            items_encoding::<T>(items).len(),
        ),
    decreases items.len(),
{
    if items.len() > 0 {
        let front = items.drop_last();
        let head = items_encoding::<T>(front);
        let tail = T::encoding(items.last());
        let bytes = items_encoding::<T>(items) + rest;
        lemma_items_round_trip::<T>(front, tail + rest);
        assert(bytes =~= head + (tail + rest));
        assert(bytes.skip(head.len() as int) =~= tail + rest);
        T::lemma_round_trip(items.last(), rest);
    }
}

/// From a proper prefix of the bytes of some items, that many items cannot
/// be decoded.
pub proof fn lemma_items_truncated<T: Bufferable>(items: Seq<T::V>, n: int)
    requires
        all_encodable::<T>(items),
        0 <= n < items_encoding::<T>(items).len(),
    ensures
        items_decoding::<T>(items_encoding::<T>(items).take(n), items.len()).0 is None,
    decreases items.len(),
{
    let front = items.drop_last();
    let head = items_encoding::<T>(front);
    let tail = T::encoding(items.last());
    let bytes = items_encoding::<T>(items).take(n);
    if n < head.len() {
        lemma_items_truncated::<T>(front, n);
        assert(bytes =~= head.take(n));
    } else {
        let cut = tail.take(n - head.len());
        lemma_items_round_trip::<T>(front, cut);
        assert(bytes =~= head + cut);
        assert(bytes.skip(head.len() as int) =~= cut);
        T::lemma_truncated(items.last(), n - head.len());
    }
}

/// The number of items as a `u64`, then the items in order.
impl<T: Bufferable + Clone> Bufferable for Vec<T> {
    open spec fn encodable(v: Seq<T::V>) -> bool {
        v.len() <= u64::MAX && all_encodable::<T>(v)
    }

    open spec fn encoding(v: Seq<T::V>) -> Seq<u8> {
        u64::encoding(v.len() as u64) + items_encoding::<T>(v)
    }

    open spec fn decoding(bytes: Seq<u8>) -> (Option<Seq<T::V>>, nat) {
        match u64::decoding(bytes) {
            (Some(count), n) => {
                let (items, m) = items_decoding::<T>(bytes.skip(n as int), count as nat);
                (items, n + m)
            },
            (None, n) => (None, n),
        }
    }

    proof fn lemma_decoding_within(bytes: Seq<u8>) {
        if let (Some(count), n) = u64::decoding(bytes) {
            lemma_items_decoding_within::<T>(bytes.skip(n as int), count as nat);
        }
    }

    proof fn lemma_decoding_exhausted() {
    }

    proof fn lemma_round_trip(v: Seq<T::V>, rest: Seq<u8>) {
        let count = v.len() as u64;
        let body = items_encoding::<T>(v);
        let bytes = Self::encoding(v) + rest;
        u64::lemma_round_trip(count, body + rest);
        assert(bytes.skip(8) =~= body + rest);
        lemma_items_round_trip::<T>(v, rest);
    }

    proof fn lemma_truncated(v: Seq<T::V>, n: int) {
        let count = v.len() as u64;
        let body = items_encoding::<T>(v);
        let bytes = Self::encoding(v).take(n);
        u64::lemma_round_trip(count, body);
        if n >= 8 {
            u64::lemma_round_trip(count, body.take(n - 8));
            assert(bytes.skip(8) =~= body.take(n - 8));
            lemma_items_truncated::<T>(v, n - 8);
        }
    }

    fn into_buffer(self, buf: &mut Buffer) {
        let len: u64 = self.len() as u64;
        len.into_buffer(buf);
        let ghost items = self.deep_view();
        let ghost prefix = buf@;
        for x in it: self
            invariant
                it.seq().len() == items.len(),
                forall|i: int| 0 <= i < items.len() ==> it.seq()[i].deep_view() == items[i],
                all_encodable::<T>(items.take(it.index())),
                buf@ == prefix + items_encoding::<T>(items.take(it.index())),
        {
            let ghost i = it.index();
            x.into_buffer(buf);
            proof {
                assert(items.take(i + 1).drop_last() =~= items.take(i));
            }
        }
        proof {
            assert(items.take(items.len() as int) =~= items);
        }
    }

    fn copy_into_buffer(&self, buf: &mut Buffer) {
        let count: usize = self.len();
        (count as u64).into_buffer(buf);
        let ghost items = self.deep_view();
        let ghost prefix = buf@;
        let mut i: usize = 0;
        while i < count
            invariant
                i <= count,
                count == self@.len(),
                items == self.deep_view(),
                all_encodable::<T>(items.take(i as int)),
                buf@ == prefix + items_encoding::<T>(items.take(i as int)),
            decreases count - i,
        {
            self[i].copy_into_buffer(buf);
            i += 1;
            proof {
                assert(items.take(i as int).drop_last() =~= items.take(i - 1));
            }
        }
        proof {
            assert(items.take(count as int) =~= items);
        }
    }

    fn from_buffer(buf: &mut ReadBuffer) -> (r: Option<Vec<T>>) {
        let len: u64 = match u64::from_buffer(buf) {
            Some(len) => len,
            None => {
                return None;
            },
        };
        let ghost start = buf@;
        let ghost body = buf@.unread();
        let mut vec: Vec<T> = Vec::new();
        let mut i: u64 = 0;
        while i < len
            invariant
                i <= len,
                u64::decoding(old(buf)@.unread()) == (Some(len), 8nat),
                start == old(buf)@.advance(8),
                body == old(buf)@.unread().skip(8),
                body == start.unread(),
                buf@.bytes == start.bytes,
                start.pos <= buf@.pos <= buf@.bytes.len(),
                items_decoding::<T>(body, i as nat) == (
                    Some(vec.deep_view()),
                    (buf@.pos - start.pos) as nat,
                ),
            decreases len - i,
        {
            proof {
                assert(buf@.unread() =~= body.skip(buf@.pos - start.pos));
            }
            match T::from_buffer(buf) {
                Some(x) => {
                    vec.push(x);
                },
                None => {
                    proof {
                        lemma_items_decoding_failed::<T>(body, (i + 1) as nat, len as nat);
                    }
                    return None;
                },
            }
            i += 1;
        }
        Some(vec)
    }
}

} // verus!
