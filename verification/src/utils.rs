//! Byte-buffer helpers.
use vstd::prelude::*;

use crate::types::overwritten;

verus! {

/// Copies `src` into the front of `out`.
pub fn copy_into(src: &[u8], out: &mut [u8])
    requires
        src@.len() <= old(out)@.len(),
    ensures
        final(out)@ == overwritten(old(out)@, src@, src@.len()),
{
    let mut i: usize = 0;
    while i < src.len()
        invariant
            i <= src@.len() <= out@.len(),
            out@.len() == old(out)@.len(),
            forall|j: int| 0 <= j < i ==> #[trigger] out@[j] == src@[j],
            forall|j: int| i <= j < out@.len() ==> #[trigger] out@[j] == old(out)@[j],
        decreases src@.len() - i,
    {
        out[i] = src[i];
        i = i + 1;
    }
    assert(out@ =~= overwritten(old(out)@, src@, src@.len()));
}

} // verus!
