//! The byte buffer: an ordered, growable sequence of bytes.

use vstd::prelude::*;

verus! {

/// A growable sequence of bytes: the wire format. Any sequence of bytes is a
/// buffer; it grows at its end only.
pub type Buffer = Vec<u8>;

/// Appends every byte of `string`, in order, to the end of `vec`.
pub fn buffer_append_buffer(vec: &mut Buffer, string: &Buffer)
    ensures
        final(vec)@ == old(vec)@ + string@,
{
    let count: usize = string.len();
    let mut i: usize = 0;
    while i < count
        invariant
            i <= count,
            count == string@.len(),
            vec@ == old(vec)@ + string@.take(i as int),
        decreases count - i,
    {
        vec.push(string[i]);
        i += 1;
    }
}

} // verus!
