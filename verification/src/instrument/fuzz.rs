//! The fuzz pass: every qualifying block gets a `trace_edge` call with a
//! random 64-bit location value.

use vstd::prelude::*;

verus! {

/// The unit of the fuzz instrumentation pass.
pub struct FuzzModule {}

/// Draws one random block location for an inserted `trace_edge` call.
pub fn get_rand_value() -> i64 {
    #[verifier::truncate]
    (rand::random::<u64>() as i64)
}

} // verus!
