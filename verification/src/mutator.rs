//! The mutation engine: five operations — insert, change, delete, flip and
//! arithmetic — each applied at a random position with random material. One
//! `mutate` call applies between one and a fifth of the input's length of
//! them, so a seed drifts but never empties.

use vstd::prelude::*;
use vstd::bytes::{
    spec_u16_from_le_bytes, spec_u16_to_le_bytes, spec_u32_from_le_bytes, spec_u32_to_le_bytes,
    u16_from_le_bytes, u16_to_le_bytes, u32_from_le_bytes, u32_to_le_bytes,
    lemma_auto_spec_u16_to_from_le_bytes, lemma_auto_spec_u32_to_from_le_bytes,
};
use vstd::slice::slice_subrange;

verus! {

pub const KEEP_SEED_MIN_LEN: usize = 1;

/// The outcome of one mutation operation.
#[derive(PartialEq, Eq, Structural, Debug, Clone, Copy)]
pub enum MutateResult {
    EmptyInput,
    SeedTooShortToDelete,
    SeedTooShortToArithmeticMutate,
    Done,
}

/// Relies on rand::random, sampling from the standard uniform distribution;
/// nothing is promised of the value drawn.
pub assume_specification<T>[ rand::random::<T> ]() -> (r: T)
    where
        rand::distr::StandardUniform: rand::distr::Distribution<T>,
;

fn gen_new_byte() -> u8 {
    rand::random::<u8>()
}

fn gen_random_idx(len: usize) -> (r: usize)
    requires
        len > 0,
    ensures
        r < len,
{
    let x: u64 = rand::random::<u64>();
    (x % (len as u64)) as usize
}

/// Inserts a random byte at a random position.
pub fn insert(seed: &mut Vec<u8>) -> (r: MutateResult)
    ensures
        old(seed)@.len() == 0 ==> r == MutateResult::EmptyInput && final(seed)@ == old(seed)@,
        old(seed)@.len() > 0 ==> r == MutateResult::Done && final(seed)@.len() == old(seed)@.len()
            + 1 && exists|i: int, b: u8|
            0 <= i < old(seed)@.len() && final(seed)@ == old(seed)@.insert(i, b),
{
    if seed.len() == 0 {
        return MutateResult::EmptyInput;
    }
    let idx = gen_random_idx(seed.len());
    let b = gen_new_byte();
    seed.insert(idx, b);
    proof {
        assert(seed@ == old(seed)@.insert(idx as int, b));
    }
    MutateResult::Done
}

/// Overwrites the byte at a random position with a random byte.
pub fn change(seed: &mut Vec<u8>) -> (r: MutateResult)
    ensures
        old(seed)@.len() == 0 ==> r == MutateResult::EmptyInput && final(seed)@ == old(seed)@,
        old(seed)@.len() > 0 ==> r == MutateResult::Done && exists|i: int, b: u8|
            0 <= i < old(seed)@.len() && final(seed)@ == old(seed)@.update(i, b),
{
    if seed.len() == 0 {
        return MutateResult::EmptyInput;
    }
    let idx = gen_random_idx(seed.len());
    let b = gen_new_byte();
    seed.set(idx, b);
    proof {
        assert(seed@ == old(seed)@.update(idx as int, b));
    }
    MutateResult::Done
}

/// Removes the byte at a random position, unless that would empty the seed.
pub fn delete(seed: &mut Vec<u8>) -> (r: MutateResult)
    ensures
        old(seed)@.len() == 0 ==> r == MutateResult::EmptyInput && final(seed)@ == old(seed)@,
        old(seed)@.len() == 1 ==> r == MutateResult::SeedTooShortToDelete
            && final(seed)@ == old(seed)@,
        old(seed)@.len() > 1 ==> r == MutateResult::Done && final(seed)@.len() == old(seed)@.len()
            - 1 && exists|i: int|
            0 <= i < old(seed)@.len() && final(seed)@ == old(seed)@.remove(i),
{
    if seed.len() == 0 {
        return MutateResult::EmptyInput;
    }
    let idx = gen_random_idx(seed.len());
    if seed.len() > KEEP_SEED_MIN_LEN {
        seed.remove(idx);
        proof {
            assert(seed@ == old(seed)@.remove(idx as int));
        }
        MutateResult::Done
    } else {
        MutateResult::SeedTooShortToDelete
    }
}

/// Flips every bit of the byte at a random position.
pub fn flip(seed: &mut Vec<u8>) -> (r: MutateResult)
    ensures
        old(seed)@.len() == 0 ==> r == MutateResult::EmptyInput && final(seed)@ == old(seed)@,
        old(seed)@.len() > 0 ==> r == MutateResult::Done && exists|i: int|
            0 <= i < old(seed)@.len() && final(seed)@ == old(seed)@.update(
                i,
                old(seed)@[i] ^ 0xFF,
            ),
{
    if seed.len() == 0 {
        return MutateResult::EmptyInput;
    }
    let idx = gen_random_idx(seed.len());
    let b = seed[idx];
    seed.set(idx, b ^ 0xFF);
    proof {
        assert(seed@ == old(seed)@.update(idx as int, old(seed)@[idx as int] ^ 0xFF));
    }
    MutateResult::Done
}

/// What the arithmetic mutation does: the little-endian value of `w` bytes
/// at `i` moves by `d`, wrapping at the width; every other byte stays.
pub open spec fn arith_mutated(old_s: Seq<u8>, new_s: Seq<u8>, i: int, w: int, d: i64) -> bool {
    &&& (w == 1 || w == 2 || w == 4)
    &&& 0 <= i && i + w <= old_s.len()
    &&& -35 <= d <= 35
    &&& new_s.len() == old_s.len()
    &&& forall|k: int| 0 <= k < old_s.len() && !(i <= k < i + w) ==> new_s[k] == old_s[k]
    &&& (w == 1 ==> new_s[i] == vstd::wrapping::u8_specs::wrapping_add_signed(
        old_s[i],
        d as i8,
    ))
    &&& (w == 2 ==> new_s.subrange(i, i + 2) == spec_u16_to_le_bytes(
        vstd::wrapping::u16_specs::wrapping_add_signed(
            spec_u16_from_le_bytes(old_s.subrange(i, i + 2)),
            d as i16,
        ),
    ))
    &&& (w == 4 ==> new_s.subrange(i, i + 4) == spec_u32_to_le_bytes(
        vstd::wrapping::u32_specs::wrapping_add_signed(
            spec_u32_from_le_bytes(old_s.subrange(i, i + 4)),
            d as i32,
        ),
    ))
}

/// Adds a random value in `[-35, +35]` to the little-endian integer of a
/// random width in `{1, 2, 4}` at a random aligned-by-length position,
/// wrapping at that width.
pub fn arithmetic(seed: &mut Vec<u8>) -> (r: MutateResult)
    ensures
        old(seed)@.len() == 0 ==> r == MutateResult::EmptyInput && final(seed)@ == old(seed)@,
        old(seed)@.len() == 1 ==> r == MutateResult::SeedTooShortToArithmeticMutate
            && final(seed)@ == old(seed)@,
        old(seed)@.len() >= 2 ==> r == MutateResult::Done && exists|i: int, w: int, d: i64|
            arith_mutated(old(seed)@, final(seed)@, i, w, d),
{
    if seed.len() == 0 {
        return MutateResult::EmptyInput;
    }
    let len = seed.len();
    let width: usize = if len <= 1 {
        return MutateResult::SeedTooShortToArithmeticMutate;
    } else if len <= 3 {
        1
    } else if len == 4 {
        let pick = gen_random_idx(2);
        if pick == 0 {
            1
        } else {
            2
        }
    } else {
        let pick = gen_random_idx(3);
        if pick == 0 {
            1
        } else if pick == 1 {
            2
        } else {
            4
        }
    };
    let idx = gen_random_idx(len - width + 1);
    let delta_draw = rand::random::<u64>();
    let delta: i64 = ((delta_draw % 71) as i64) - 35;
    let ghost old_view = seed@;
    if width == 1 {
        let val = seed[idx];
        let new_val = val.wrapping_add_signed(delta as i8);
        seed.set(idx, new_val);
        proof {
            assert(arith_mutated(old_view, seed@, idx as int, 1, delta));
        }
    } else if width == 2 {
        proof {
            lemma_auto_spec_u16_to_from_le_bytes();
        }
        let piece = slice_subrange(seed.as_slice(), idx, idx + 2);
        let val = u16_from_le_bytes(piece);
        let new_val = val.wrapping_add_signed(delta as i16);
        let bytes = u16_to_le_bytes(new_val);
        let b0 = bytes[0];
        let b1 = bytes[1];
        seed.set(idx, b0);
        seed.set(idx + 1, b1);
        proof {
            assert(seed@.subrange(idx as int, idx + 2) =~= spec_u16_to_le_bytes(new_val));
            assert(old_view.subrange(idx as int, idx + 2) =~= piece@);
            assert(arith_mutated(old_view, seed@, idx as int, 2, delta));
        }
    } else {
        proof {
            lemma_auto_spec_u32_to_from_le_bytes();
        }
        let piece = slice_subrange(seed.as_slice(), idx, idx + 4);
        let val = u32_from_le_bytes(piece);
        let new_val = val.wrapping_add_signed(delta as i32);
        let bytes = u32_to_le_bytes(new_val);
        let b0 = bytes[0];
        let b1 = bytes[1];
        let b2 = bytes[2];
        let b3 = bytes[3];
        seed.set(idx, b0);
        seed.set(idx + 1, b1);
        seed.set(idx + 2, b2);
        seed.set(idx + 3, b3);
        proof {
            assert(seed@.subrange(idx as int, idx + 4) =~= spec_u32_to_le_bytes(new_val));
            assert(old_view.subrange(idx as int, idx + 4) =~= piece@);
            assert(arith_mutated(old_view, seed@, idx as int, 4, delta));
        }
    }
    MutateResult::Done
}

/// The number of mutations one call applies at most: a fifth of the
/// length, rounded up, which for a positive length already lies between one
/// and the length.
pub open spec fn spec_mutation_cap(len: int) -> int {
    (len - 1) / 5 + 1
}

/// Applies a uniformly drawn number of random mutations to the seed: at
/// least one, at most a fifth of the length rounded up. A nonempty seed
/// never becomes empty: a delete is refused at length one, and every other
/// operation keeps or grows the length.
#[verifier::loop_isolation(false)]
pub fn mutate(seed: &mut Vec<u8>) -> (r: Vec<MutateResult>)
    requires
        old(seed)@.len() > 0,
    ensures
        final(seed)@.len() > 0,
        1 <= r@.len() <= spec_mutation_cap(old(seed)@.len() as int),
        final(seed)@.len() <= old(seed)@.len() + r@.len(),
{
    let len = seed.len();
    let max = (len - 1) / 5 + 1;
    proof {
        vstd::arithmetic::div_mod::lemma_div_nonincreasing(len as int - 1, 5);
        assert(max <= len);
    }
    let n = gen_random_idx(max) + 1;
    let mut results: Vec<MutateResult> = Vec::new();
    let mut applied: usize = 0;
    while applied < n
        invariant
            seed@.len() > 0,
            seed@.len() <= old(seed)@.len() + applied,
            results@.len() == applied,
            applied <= n,
        decreases n - applied,
    {
        let which = gen_random_idx(5);
        let result = if which == 0 {
            insert(seed)
        } else if which == 1 {
            change(seed)
        } else if which == 2 {
            delete(seed)
        } else if which == 3 {
            flip(seed)
        } else {
            arithmetic(seed)
        };
        results.push(result);
        applied += 1;
    }
    results
}

} // verus!
