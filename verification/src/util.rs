//! Small helpers: page masks and std collections.

use vstd::prelude::*;

verus! {

/// The mask that keeps the page-aligned part of an address, for a page
/// size that is a power of two.
pub fn page_size_to_mask(page_size: u64) -> (mask: u64)
    requires
        page_size >= 1,
    ensures
        mask == !((page_size - 1) as u64),
{
    !(page_size - 1)
}

/// Calls `Vec::shrink_to_fit`. Trusted: as documented, only the capacity
/// changes; the contents stay as they were.
#[verifier::external_body]
pub(crate) fn vec_shrink_to_fit<T>(v: &mut Vec<T>)
    ensures
        final(v)@ == old(v)@,
{
    v.shrink_to_fit();
}

} // verus!
