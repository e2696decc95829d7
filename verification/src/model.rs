//! When a model's matrix is uploaded to its per-frame buffers.
//!
//! A model keeps one buffer per frame in flight and a mask with one bit per
//! buffer: a set bit means the buffer already holds the current matrix. The
//! mask starts with every bit set, as every buffer is written when the model
//! is made.
use vstd::prelude::*;

verus! {

/// The mask of a model whose buffers all hold its current matrix.
pub const ALL_BUFFERS_CURRENT: usize = usize::MAX;

/// The bit of buffer `buffer` in the mask.
pub open spec fn buffer_bit(buffer: usize) -> usize {
    1usize << buffer
}

/// Whether buffer `buffer` holds the current matrix under `mask`.
pub open spec fn is_current(mask: usize, buffer: usize) -> bool {
    mask & buffer_bit(buffer) != 0
}

/// Decides the upload of a model's matrix to buffer `buffer`, given whether
/// the matrix `changed` since the last decision and the current `mask`. When
/// the matrix changed it is uploaded and only this buffer counts as current;
/// when it did not, a buffer that is current is skipped (`None`) and any
/// other is uploaded and marked current.
pub fn upload_mask(changed: bool, mask: usize, buffer: usize) -> (r: Option<usize>)
    requires
        buffer < usize::BITS,
    ensures
        changed ==> r == Some(buffer_bit(buffer)),
        !changed && is_current(mask, buffer) ==> r is None,
        !changed && !is_current(mask, buffer) ==> r == Some(mask | buffer_bit(buffer)),
{
    let bit: usize = 1usize << buffer;
    if changed {
        Some(bit)
    } else if mask & bit != 0 {
        None
    } else {
        Some(mask | bit)
    }
}

/// Once a buffer is uploaded, and while the matrix does not change, it is not
/// uploaded again.
pub proof fn lemma_upload_once(changed: bool, mask: usize, buffer: usize)
    requires
        buffer < usize::BITS,
        !(!changed && is_current(mask, buffer)),
    ensures
        is_current(
            if changed {
                buffer_bit(buffer)
            } else {
                mask | buffer_bit(buffer)
            },
            buffer,
        ),
{
    let bit = buffer_bit(buffer);
    assert(bit != 0 && bit & bit == bit) by (bit_vector)
        requires
            buffer < usize::BITS,
            bit == 1usize << buffer,
    ;
    assert((mask | bit) & bit == bit) by (bit_vector);
}

/// An upload to one buffer leaves the marks of the other buffers as they
/// were when the matrix did not change, and clears them when it did.
pub proof fn lemma_upload_other_buffers(changed: bool, mask: usize, buffer: usize, other: usize)
    requires
        buffer < usize::BITS,
        other < usize::BITS,
        other != buffer,
    ensures
        !changed ==> (is_current(mask | buffer_bit(buffer), other) == is_current(mask, other)),
        changed ==> !is_current(buffer_bit(buffer), other),
{
    let b = buffer_bit(buffer);
    let o = buffer_bit(other);
    assert((mask | b) & o == mask & o) by (bit_vector)
        requires
            buffer < usize::BITS,
            other < usize::BITS,
            other != buffer,
            b == 1usize << buffer,
            o == 1usize << other,
    ;
    assert(b & o == 0) by (bit_vector)
        requires
            buffer < usize::BITS,
            other < usize::BITS,
            other != buffer,
            b == 1usize << buffer,
            o == 1usize << other,
    ;
}

/// The mask after a decision of `upload_mask`: the one it returns, or the
/// mask as it was when it uploads nothing.
pub open spec fn mask_after(changed: bool, mask: usize, buffer: usize) -> usize {
    if changed {
        buffer_bit(buffer)
    } else if is_current(mask, buffer) {
        mask
    } else {
        mask | buffer_bit(buffer)
    }
}

/// The mask tracks the buffers uploaded since the matrix last changed: after
/// a decision for `buffer`, a buffer is current exactly when it is `buffer`,
/// or, when the matrix did not change, when it was current before.
pub proof fn lemma_mask_tracks_uploads(changed: bool, mask: usize, buffer: usize, other: usize)
    requires
        buffer < usize::BITS,
        other < usize::BITS,
    ensures
        is_current(mask_after(changed, mask, buffer), other) == (other == buffer || (!changed && is_current(
            mask,
            other,
        ))),
{
    if other == buffer {
        if !changed && is_current(mask, buffer) {
        } else {
            lemma_upload_once(changed, mask, buffer);
        }
    } else {
        lemma_upload_other_buffers(changed, mask, buffer, other);
    }
}

} // verus!
