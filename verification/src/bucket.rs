//! Rarity buckets for edge hit counts: a raw 8-bit hit counter is mapped to
//! a coarse class, and rarer classes are worth a higher score.

use vstd::prelude::*;

verus! {

pub const BUCKET_MAX_VALUE: u8 = 8;

/// The coarse class of a raw hit count: 0-1 -> 1, 2 -> 2, 3 -> 3, 4-7 -> 4,
/// 8-15 -> 5, 16-31 -> 6, 32-127 -> 7, 128-255 -> 8.
pub open spec fn spec_bucket(value: u8) -> u8 {
    if value <= 1 {
        1
    } else if value == 2 {
        2
    } else if value == 3 {
        3
    } else if value <= 7 {
        4
    } else if value <= 15 {
        5
    } else if value <= 31 {
        6
    } else if value <= 127 {
        7
    } else {
        8
    }
}

fn to_bucket(value: u8) -> (r: u8)
    ensures
        r == spec_bucket(value),
{
    if value <= 1 {
        1
    } else if value == 2 {
        2
    } else if value == 3 {
        3
    } else if value <= 7 {
        4
    } else if value <= 15 {
        5
    } else if value <= 31 {
        6
    } else if value <= 127 {
        7
    } else {
        8
    }
}

/// The rarity score of a raw hit count: 9 minus its bucket, so a count that
/// has rarely been seen scores high (8) and a hot count scores low (1).
pub fn get_score(value: u8) -> (r: u8)
    ensures
        r == 9 - spec_bucket(value),
        1 <= r <= 8,
{
    let score = to_bucket(value);
    (BUCKET_MAX_VALUE + 1) - score
}

} // verus!
