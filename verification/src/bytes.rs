//! Little-endian word access into plain byte buffers. The auxiliary
//! shared-memory region of the fuzzer stores all of its fields as
//! little-endian words; these readers and writers are the only way the rest
//! of the library touches such a buffer.

use vstd::prelude::*;
use vstd::bytes::{
    spec_u128_from_le_bytes, spec_u128_to_le_bytes, spec_u64_from_le_bytes, spec_u64_to_le_bytes,
    u128_from_le_bytes, u128_to_le_bytes, u64_from_le_bytes, u64_to_le_bytes,
    lemma_auto_spec_u128_to_from_le_bytes, lemma_auto_spec_u64_to_from_le_bytes,
};
use vstd::slice::slice_subrange;

verus! {

/// The 64-bit little-endian word stored at `mem[start .. start + 8]`.
pub open spec fn spec_read_u64(mem: Seq<u8>, start: int) -> u64 {
    spec_u64_from_le_bytes(mem.subrange(start, start + 8))
}

/// The 128-bit little-endian word stored at `mem[start .. start + 16]`.
pub open spec fn spec_read_u128(mem: Seq<u8>, start: int) -> u128 {
    spec_u128_from_le_bytes(mem.subrange(start, start + 16))
}

pub fn read_u64(mem: &[u8], start: usize) -> (r: u64)
    requires
        start + 8 <= mem@.len(),
    ensures
        r == spec_read_u64(mem@, start as int),
{
    let n = mem.len();
    let slice = slice_subrange(mem, start, start + 8);
    u64_from_le_bytes(slice)
}

pub fn read_u128(mem: &[u8], start: usize) -> (r: u128)
    requires
        start + 16 <= mem@.len(),
    ensures
        r == spec_read_u128(mem@, start as int),
{
    let n = mem.len();
    let slice = slice_subrange(mem, start, start + 16);
    u128_from_le_bytes(slice)
}

pub fn write_u64(mem: &mut Vec<u8>, start: usize, v: u64)
    requires
        start + 8 <= old(mem)@.len(),
    ensures
        final(mem)@.len() == old(mem)@.len(),
        forall|i: int|
            0 <= i < final(mem)@.len() && !(start <= i < start + 8) ==> final(mem)@[i] == old(
                mem,
            )@[i],
        spec_read_u64(final(mem)@, start as int) == v,
{
    proof {
        lemma_auto_spec_u64_to_from_le_bytes();
    }
    let n = mem.len();
    let bytes = u64_to_le_bytes(v);
    let mut j: usize = 0;
    while j < 8
        invariant
            start + 8 <= n == mem@.len() == old(mem)@.len(),
            bytes@ == spec_u64_to_le_bytes(v),
            bytes@.len() == 8,
            j <= 8,
            forall|i: int|
                0 <= i < mem@.len() && !(start <= i < start + 8) ==> mem@[i] == old(mem)@[i],
            forall|i: int| 0 <= i < j ==> mem@[start + i] == bytes@[i],
        decreases 8 - j,
    {
        let b = bytes[j];
        mem.set(start + j, b);
        j += 1;
    }
    proof {
        assert(mem@.subrange(start as int, start as int + 8) =~= spec_u64_to_le_bytes(v));
    }
}

pub fn write_u128(mem: &mut Vec<u8>, start: usize, v: u128)
    requires
        start + 16 <= old(mem)@.len(),
    ensures
        final(mem)@.len() == old(mem)@.len(),
        forall|i: int|
            0 <= i < final(mem)@.len() && !(start <= i < start + 16) ==> final(mem)@[i] == old(
                mem,
            )@[i],
        spec_read_u128(final(mem)@, start as int) == v,
{
    proof {
        lemma_auto_spec_u128_to_from_le_bytes();
    }
    let n = mem.len();
    let bytes = u128_to_le_bytes(v);
    let mut j: usize = 0;
    while j < 16
        invariant
            start + 16 <= n == mem@.len() == old(mem)@.len(),
            bytes@ == spec_u128_to_le_bytes(v),
            bytes@.len() == 16,
            j <= 16,
            forall|i: int|
                0 <= i < mem@.len() && !(start <= i < start + 16) ==> mem@[i] == old(mem)@[i],
            forall|i: int| 0 <= i < j ==> mem@[start + i] == bytes@[i],
        decreases 16 - j,
    {
        let b = bytes[j];
        mem.set(start + j, b);
        j += 1;
    }
    proof {
        assert(mem@.subrange(start as int, start as int + 16) =~= spec_u128_to_le_bytes(v));
    }
}

} // verus!
