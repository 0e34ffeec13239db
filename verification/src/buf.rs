use vstd::prelude::*;
use vstd::slice::*;

verus! {

/// Append every byte of `src` to `dst`, in order.
pub(crate) fn append_bytes(dst: &mut Vec<u8>, src: &[u8])
    ensures
        final(dst)@ == old(dst)@ + src@,
{
    let n = src.len();
    for i in 0..n
        invariant
            n == src@.len(),
            dst@ == old(dst)@ + src@.take(i as int),
    {
        dst.push(*slice_index_get(src, i));
        assert(dst@ =~= old(dst)@ + src@.take(i + 1));
    }
    assert(dst@ =~= old(dst)@ + src@);
}

} // verus!
