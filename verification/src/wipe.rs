//! Overwrite a buffer with zeroes.

use vstd::prelude::*;

verus! {

/// Wipe a buffer, overwriting every byte with zero.
///
/// The length of the buffer is unchanged; only its contents are erased.
pub fn wipe_buffer(buffer: &mut Vec<u8>)
    ensures
        final(buffer)@.len() == old(buffer)@.len(),
        forall|i: int| 0 <= i < final(buffer)@.len() ==> final(buffer)@[i] == 0u8,
{
    let mut i: usize = 0;
    while i < buffer.len()
        invariant
            i <= buffer@.len(),
            buffer@.len() == old(buffer)@.len(),
            forall|j: int| 0 <= j < i ==> buffer@[j] == 0u8,
        decreases buffer@.len() - i,
    {
        buffer.set(i, 0);
        i = i + 1;
    }
}

} // verus!
