//! The ASAN pass's planning arithmetic: a rewritten stack allocation grows
//! by one redzone's worth of elements on each side, and the usable pointer
//! sits one redzone past the new base.

use vstd::prelude::*;

verus! {

/// The unit of the ASAN instrumentation pass.
pub struct ASANModule {}

/// The element count of a rewritten `[N x T]` allocation: `R/b` padding
/// elements on each side of the original `N`, with `R` the redzone size
/// and `b` the element's byte width.
pub open spec fn spec_padded_alloca_len(num_elems: int, elem_width: int) -> int {
    32int / elem_width + num_elems + 32int / elem_width
}

/// Computes the rewritten element count of a stack allocation.
pub fn padded_alloca_len(num_elems: u64, elem_width: u64) -> (r: u64)
    requires
        elem_width >= 1,
        num_elems + 64 <= u64::MAX,
    ensures
        r == spec_padded_alloca_len(num_elems as int, elem_width as int),
{
    let pad = 32 / elem_width;
    pad + num_elems + pad
}

/// The element offset of the usable region inside a rewritten allocation:
/// one redzone's worth of elements past the new base.
pub fn usable_elem_offset(elem_width: u64) -> (r: u64)
    requires
        elem_width >= 1,
    ensures
        r == 32 as int / elem_width as int,
{
    32 / elem_width
}

} // verus!
