//! Shadow-memory runtime for address sanitizing. Each shadow byte encodes
//! the addressability of one 8-byte chunk of user memory: `0` means fully
//! addressable, `1..=7` means only the first N bytes of the chunk are
//! addressable, and negative tags mark poisoned regions (redzones and freed
//! memory). Every allocation is surrounded by two 32-byte redzones, and a
//! map from usable pointer to usable size tracks the live allocations.

use vstd::prelude::*;
use vstd::arithmetic::div_mod::{
    lemma_div_is_ordered, lemma_div_multiples_vanish_fancy, lemma_div_plus_one,
    lemma_fundamental_div_mod, lemma_mod_multiples_vanish, lemma_small_mod,
};
use vstd::arithmetic::power2::{lemma2_to64, pow2};
use vstd::bits::{
    lemma_low_bits_mask_values, lemma_usize_low_bits_mask_is_mod, lemma_usize_shr_is_div,
};

verus! {

pub const ALLOC_STACK: u8 = 0x1;

pub const ALLOC_HEAP: u8 = 0x2;

pub const STACK_LEFT_REDZONE_MARKER: i8 = -0x10;

pub const STACK_RIGHT_REDZONE_MARKER: i8 = -0x11;

pub const HEAP_LEFT_REDZONE_MARKER: i8 = -0x20;

pub const HEAP_RIGHT_REDZONE_MARKER: i8 = -0x21;

pub const FREED_MARKER: i8 = -0x30;

pub const CLEAN_BYTE_MARKER: i8 = 0x00;

pub const SHADOW_SCALE: usize = 3;

pub const REDZONE_SIZE: usize = 32;

/// Default shadow size: one byte for each 8-byte chunk of a 32 GiB space.
pub const SHADOW_SIZE: u64 = 1u64 << 32;

pub const ALLOC_MAP_SIZE: usize = 1 << 15;

/// The exit code of the target process after an invalid memory access.
pub const EXIT_CODE: i32 = 99;

/// The live allocations: a map from usable pointer to usable size, bounded
/// by `ALLOC_MAP_SIZE` entries.
#[verifier::external_body]
pub struct AllocMap {
    map: heapless::index_map::FnvIndexMap<usize, usize, ALLOC_MAP_SIZE>,
}

/// What the allocation map holds: each tracked usable pointer with its size.
pub uninterp spec fn alloc_map_contents(m: AllocMap) -> Map<usize, usize>;

impl AllocMap {
    /// Relies on heapless::index_map::IndexMap::new: makes an empty map.
    #[verifier::external_body]
    pub fn new() -> (r: AllocMap)
        ensures
            alloc_map_contents(r) =~= Map::empty(),
            alloc_map_contents(r).dom().finite(),
    {
        AllocMap { map: heapless::index_map::FnvIndexMap::new() }
    }

    /// Relies on heapless::index_map::IndexMap::insert: updates the value of
    /// an existing key, or inserts a new pair unless the map is full; on a
    /// full map the pair comes back in the error and the map is unchanged.
    #[verifier::external_body]
    pub fn insert(&mut self, key: usize, value: usize) -> (r: Result<
        Option<usize>,
        (usize, usize),
    >)
        ensures
            r is Ok ==> alloc_map_contents(*final(self)) == alloc_map_contents(*old(self)).insert(
                key,
                value,
            ),
            r is Ok ==> r->Ok_0 == (if alloc_map_contents(*old(self)).dom().contains(key) {
                Some(alloc_map_contents(*old(self))[key])
            } else {
                None::<usize>
            }),
            r is Err ==> {
                &&& alloc_map_contents(*final(self)) == alloc_map_contents(*old(self))
                &&& !alloc_map_contents(*old(self)).dom().contains(key)
                &&& alloc_map_contents(*old(self)).dom().len() >= ALLOC_MAP_SIZE
                &&& r->Err_0 == (key, value)
            },
            alloc_map_contents(*old(self)).dom().contains(key) || alloc_map_contents(
                *old(self),
            ).dom().len() < ALLOC_MAP_SIZE ==> r is Ok,
    {
        self.map.insert(key, value)
    }

    /// Relies on heapless::index_map::IndexMap::remove: takes the pair for
    /// the key out of the map and returns its value, if the key is present.
    #[verifier::external_body]
    pub fn remove(&mut self, key: usize) -> (r: Option<usize>)
        ensures
            alloc_map_contents(*final(self)) == alloc_map_contents(*old(self)).remove(key),
            r == (if alloc_map_contents(*old(self)).dom().contains(key) {
                Some(alloc_map_contents(*old(self))[key])
            } else {
                None::<usize>
            }),
    {
        self.map.remove(&key)
    }

    /// Relies on heapless::index_map::IndexMap::get: looks the key up.
    #[verifier::external_body]
    pub fn get(&self, key: usize) -> (r: Option<usize>)
        ensures
            r == (if alloc_map_contents(*self).dom().contains(key) {
                Some(alloc_map_contents(*self)[key])
            } else {
                None::<usize>
            }),
    {
        self.map.get(&key).copied()
    }
}

/// The shadow index covering a user address: each shadow byte stands for
/// eight bytes of user memory.
pub fn convert_to_shadow_idx(addr: usize) -> (r: usize)
    ensures
        r == addr as int / 8,
{
    proof {
        lemma_usize_shr_is_div(addr, 3);
        lemma2_to64();
    }
    addr >> SHADOW_SCALE
}

/// The offset of a user address within its 8-byte chunk.
fn chunk_offset(addr: usize) -> (r: usize)
    ensures
        r == addr as int % 8,
        r <= 7,
{
    proof {
        lemma_usize_low_bits_mask_is_mod(addr, 3);
        lemma_low_bits_mask_values();
        lemma2_to64();
        lemma_small_mod((addr % 8) as nat, 8);
    }
    addr & 0x07
}

/// Writes one shadow byte; the index wraps around the shadow array.
pub fn write_shadow_mem(shadow_mem: &mut Vec<i8>, idx: usize, val: i8)
    requires
        old(shadow_mem)@.len() > 0,
    ensures
        final(shadow_mem)@ == old(shadow_mem)@.update(
            idx as int % old(shadow_mem)@.len() as int,
            val,
        ),
{
    let n = shadow_mem.len();
    shadow_mem.set(idx % n, val);
}

/// The shadow byte written at the edge of a region: the remainder of the
/// boundary address within its chunk if it is not chunk-aligned, else the
/// redzone marker itself.
pub open spec fn boundary_byte(pos: int, rz_marker: i8) -> i8 {
    if pos % 8 != 0 {
        (pos % 8) as i8
    } else {
        rz_marker
    }
}

/// Writes the boundary shadow byte for a region edge at address `start`
/// into shadow index `shadow_start`.
pub fn set_bounary_poison_byte(
    shadow_mem: &mut Vec<i8>,
    start: usize,
    shadow_start: usize,
    rz_marker: i8,
)
    requires
        old(shadow_mem)@.len() > 0,
    ensures
        final(shadow_mem)@ == old(shadow_mem)@.update(
            shadow_start as int % old(shadow_mem)@.len() as int,
            boundary_byte(start as int, rz_marker),
        ),
{
    let remaining = chunk_offset(start);
    if remaining != 0 {
        write_shadow_mem(shadow_mem, shadow_start, remaining as i8);
    } else {
        write_shadow_mem(shadow_mem, shadow_start, rz_marker);
    }
}

/// The left-redzone marker of an allocation kind.
pub open spec fn left_marker(alloc_kind: u8) -> i8 {
    if alloc_kind == 1 {
        STACK_LEFT_REDZONE_MARKER
    } else {
        HEAP_LEFT_REDZONE_MARKER
    }
}

/// The right-redzone marker of an allocation kind.
pub open spec fn right_marker(alloc_kind: u8) -> i8 {
    if alloc_kind == 1 {
        STACK_RIGHT_REDZONE_MARKER
    } else {
        HEAP_RIGHT_REDZONE_MARKER
    }
}

/// The shadow byte at index `j` after poisoning an allocation whose raw
/// region starts at `raw` with usable size `size`: a left redzone of 32
/// bytes, the clean usable region, and a right redzone of 32 bytes, each
/// with a boundary byte at its edge.
pub open spec fn alloc_shadow_byte(
    raw: int,
    size: int,
    left_m: i8,
    right_m: i8,
    old_b: i8,
    j: int,
) -> i8 {
    let idx0 = raw / 8;
    let idxu = (raw + 32) / 8;
    let idxe = (raw + 32 + size) / 8;
    let idxr = (raw + 64 + size) / 8;
    if j == idx0 {
        boundary_byte(raw, left_m)
    } else if idx0 < j < idxu {
        left_m
    } else if idxu <= j < idxe {
        CLEAN_BYTE_MARKER
    } else if j == idxe {
        boundary_byte(raw + 32 + size, right_m)
    } else if idxe < j < idxr {
        right_m
    } else if j == idxr {
        boundary_byte(raw + 64 + size, right_m)
    } else {
        old_b
    }
}

proof fn lemma_div8_add_32(a: int)
    requires
        a >= 0,
    ensures
        (a + 32) / 8 == a / 8 + 4,
{
    lemma_div_plus_one(a, 8);
    lemma_div_plus_one(a + 8, 8);
    lemma_div_plus_one(a + 16, 8);
    lemma_div_plus_one(a + 24, 8);
}

proof fn lemma_region_indices(raw: int, size: int, shadow_len: int)
    requires
        raw >= 0,
        size >= 0,
        raw + 64 + size < 8 * shadow_len,
    ensures
        (raw + 32) / 8 == raw / 8 + 4,
        (raw + 64 + size) / 8 == (raw + 32 + size) / 8 + 4,
        raw / 8 + 4 <= (raw + 32 + size) / 8,
        (raw + 64 + size) / 8 < shadow_len,
{
    lemma_div8_add_32(raw);
    lemma_div8_add_32(raw + 32 + size);
    lemma_div_is_ordered(raw + 32, raw + 32 + size, 8);
    lemma_div_is_ordered(raw + 64 + size, 8 * shadow_len - 8 + 7, 8);
    lemma_div_multiples_vanish_fancy(shadow_len - 1, 7, 8);
}

/// Poisons the left and right redzones of a fresh allocation and marks the
/// usable region as addressable. `base_ptr` is the start of the raw region
/// (left redzone included) and `usable_size` the size the caller asked for.
#[verifier::loop_isolation(false)]
pub fn poison_shadow_allocated(
    shadow_mem: &mut Vec<i8>,
    base_ptr: usize,
    usable_size: usize,
    alloc_kind: u8,
)
    requires
        alloc_kind == 1 || alloc_kind == 2,
        base_ptr + 64 + usable_size < 8 * old(shadow_mem)@.len(),
        base_ptr + 64 + usable_size <= usize::MAX,
    ensures
        final(shadow_mem)@.len() == old(shadow_mem)@.len(),
        forall|j: int|
            0 <= j < final(shadow_mem)@.len() ==> final(shadow_mem)@[j] == alloc_shadow_byte(
                base_ptr as int,
                usable_size as int,
                left_marker(alloc_kind),
                right_marker(alloc_kind),
                old(shadow_mem)@[j],
                j,
            ),
{
    let ghost orig = shadow_mem@;
    let ghost raw = base_ptr as int;
    let ghost size = usable_size as int;
    let ghost slen = shadow_mem@.len() as int;
    proof {
        lemma_region_indices(raw, size, slen);
    }
    let usable_ptr = base_ptr + REDZONE_SIZE;

    let (left_rz_marker, right_rz_marker) = if alloc_kind == 1 {
        (STACK_LEFT_REDZONE_MARKER, STACK_RIGHT_REDZONE_MARKER)
    } else {
        (HEAP_LEFT_REDZONE_MARKER, HEAP_RIGHT_REDZONE_MARKER)
    };
    let ghost lm = left_marker(alloc_kind);
    let ghost rm = right_marker(alloc_kind);

    // 1. Poison the left redzone.
    let left_start = base_ptr;
    let left_end = usable_ptr;
    let shadow_left_start = convert_to_shadow_idx(left_start);
    let shadow_left_end = convert_to_shadow_idx(left_end);
    let ghost idx0 = raw / 8;
    let ghost idxu = (raw + 32) / 8;
    let ghost idxe = (raw + 32 + size) / 8;
    let ghost idxr = (raw + 64 + size) / 8;

    set_bounary_poison_byte(shadow_mem, left_start, shadow_left_start, left_rz_marker);
    proof {
        lemma_small_mod(idx0 as nat, slen as nat);
    }
    let mut i = shadow_left_start + 1;
    while i < shadow_left_end
        invariant
            idx0 + 1 <= i <= idxu,
            shadow_left_end == idxu,
            shadow_mem@.len() == slen,
            idxr < slen,
            idx0 < idxu <= idxe < idxr,
            shadow_mem@[idx0] == boundary_byte(raw, lm),
            forall|j: int| idx0 < j < i ==> shadow_mem@[j] == lm,
            forall|j: int| 0 <= j < slen && !(idx0 <= j < i) ==> shadow_mem@[j] == orig[j],
        decreases idxu - i,
    {
        write_shadow_mem(shadow_mem, i, left_rz_marker);
        proof {
            lemma_small_mod(i as nat, slen as nat);
        }
        i += 1;
    }

    // 2. Unpoison the usable region.
    let usable_start = usable_ptr;
    let usable_end = usable_ptr + usable_size;
    let shadow_usable_start = convert_to_shadow_idx(usable_start);
    let shadow_usable_end = convert_to_shadow_idx(usable_end);

    let mut i = shadow_usable_start;
    while i < shadow_usable_end
        invariant
            idxu <= i <= idxe,
            shadow_usable_end == idxe,
            shadow_mem@.len() == slen,
            idxr < slen,
            idx0 < idxu <= idxe < idxr,
            shadow_mem@[idx0] == boundary_byte(raw, lm),
            forall|j: int| idx0 < j < idxu ==> shadow_mem@[j] == lm,
            forall|j: int| idxu <= j < i ==> shadow_mem@[j] == CLEAN_BYTE_MARKER,
            forall|j: int| 0 <= j < slen && !(idx0 <= j < i) ==> shadow_mem@[j] == orig[j],
        decreases idxe - i,
    {
        write_shadow_mem(shadow_mem, i, CLEAN_BYTE_MARKER);
        proof {
            lemma_small_mod(i as nat, slen as nat);
        }
        i += 1;
    }
    set_bounary_poison_byte(shadow_mem, usable_end, shadow_usable_end, right_rz_marker);
    proof {
        lemma_small_mod(idxe as nat, slen as nat);
    }

    // 3. Poison the right redzone.
    let right_start = usable_end;
    let right_end = right_start + REDZONE_SIZE;
    let shadow_right_start = convert_to_shadow_idx(right_start);
    let shadow_right_end = convert_to_shadow_idx(right_end);

    let mut i = shadow_right_start + 1;
    while i < shadow_right_end
        invariant
            idxe + 1 <= i <= idxr,
            shadow_right_end == idxr,
            shadow_mem@.len() == slen,
            idxr < slen,
            idx0 < idxu <= idxe < idxr,
            shadow_mem@[idx0] == boundary_byte(raw, lm),
            forall|j: int| idx0 < j < idxu ==> shadow_mem@[j] == lm,
            forall|j: int| idxu <= j < idxe ==> shadow_mem@[j] == CLEAN_BYTE_MARKER,
            shadow_mem@[idxe] == boundary_byte(raw + 32 + size, rm),
            forall|j: int| idxe < j < i ==> shadow_mem@[j] == rm,
            forall|j: int| 0 <= j < slen && !(idx0 <= j < i) ==> shadow_mem@[j] == orig[j],
        decreases idxr - i,
    {
        write_shadow_mem(shadow_mem, i, right_rz_marker);
        proof {
            lemma_small_mod(i as nat, slen as nat);
        }
        i += 1;
    }
    set_bounary_poison_byte(shadow_mem, right_end, shadow_right_end, right_rz_marker);
    proof {
        lemma_small_mod(idxr as nat, slen as nat);
    }
}

/// The shadow byte at index `j` after a region is poisoned as freed:
/// `start` is the start of the raw region (left redzone included) and
/// `size` the usable size; the whole raw region becomes `FREED_MARKER`,
/// with the boundary byte of `start` written at both edges.
pub open spec fn freed_shadow_byte(start: int, size: int, old_b: i8, j: int) -> i8 {
    let lo = start / 8;
    let hi = (start + 64 + size) / 8;
    if j == lo {
        boundary_byte(start, FREED_MARKER)
    } else if lo < j < hi {
        FREED_MARKER
    } else if j == hi {
        boundary_byte(start, FREED_MARKER)
    } else {
        old_b
    }
}

/// Poisons a whole raw region (both redzones and the usable bytes between
/// them) as freed. `usable_ptr` is the usable pointer; the raw region starts
/// 32 bytes before it.
#[verifier::loop_isolation(false)]
pub fn poison_shadow_freed(shadow_mem: &mut Vec<i8>, usable_ptr: usize, size: usize)
    requires
        usable_ptr >= 32,
        usable_ptr + 32 + size < 8 * old(shadow_mem)@.len(),
        usable_ptr + 32 + size <= usize::MAX,
    ensures
        final(shadow_mem)@.len() == old(shadow_mem)@.len(),
        forall|j: int|
            0 <= j < final(shadow_mem)@.len() ==> final(shadow_mem)@[j] == freed_shadow_byte(
                usable_ptr - 32,
                size as int,
                old(shadow_mem)@[j],
                j,
            ),
{
    let ghost orig = shadow_mem@;
    let ghost slen = shadow_mem@.len() as int;
    let start = usable_ptr - REDZONE_SIZE;
    let ghost lo = (usable_ptr - 32) / 8;
    let ghost hi = (usable_ptr - 32 + 64 + size) / 8;
    proof {
        lemma_region_indices(start as int, size as int, slen);
    }
    let shadow_start = convert_to_shadow_idx(start);
    let shadow_end = convert_to_shadow_idx(start + (REDZONE_SIZE + size + REDZONE_SIZE));
    set_bounary_poison_byte(shadow_mem, start, shadow_start, FREED_MARKER);
    proof {
        lemma_small_mod(lo as nat, slen as nat);
    }
    let mut i = shadow_start + 1;
    while i < shadow_end
        invariant
            lo + 1 <= i <= hi,
            shadow_mem@.len() == slen,
            shadow_mem@[lo] == boundary_byte(start as int, FREED_MARKER),
            forall|j: int| lo < j < i ==> shadow_mem@[j] == FREED_MARKER,
            forall|j: int| 0 <= j < slen && !(lo <= j < i) ==> shadow_mem@[j] == orig[j],
        decreases hi - i,
    {
        write_shadow_mem(shadow_mem, i, FREED_MARKER);
        proof {
            lemma_small_mod(i as nat, slen as nat);
        }
        i += 1;
    }
    set_bounary_poison_byte(shadow_mem, start, shadow_end, FREED_MARKER);
    proof {
        lemma_small_mod(hi as nat, slen as nat);
    }
}

/// Whether an access of `access_size` bytes at `addr` violates the shadow
/// protocol: the shadow byte of the address's chunk must be clean, or the
/// access must stay within the addressable prefix that a positive boundary
/// byte grants. A null address is never checked.
pub open spec fn spec_mem_check(shadow: Seq<i8>, addr: int, access_size: int) -> bool {
    if addr == 0 {
        false
    } else {
        let s = shadow[(addr / 8) % shadow.len() as int];
        s != CLEAN_BYTE_MARKER && (s < 0 || (addr % 8) + access_size > s)
    }
}

/// Checks one memory access against the shadow bytes; `true` means the
/// access is invalid and must be reported.
pub fn mem_check(shadow_mem: &Vec<i8>, addr: usize, access_size: usize) -> (viol: bool)
    requires
        shadow_mem@.len() > 0,
    ensures
        viol == spec_mem_check(shadow_mem@, addr as int, access_size as int),
{
    if addr == 0 {
        return false;
    }
    let n = shadow_mem.len();
    let idx = convert_to_shadow_idx(addr) % n;
    let s = shadow_mem[idx];
    if s == CLEAN_BYTE_MARKER {
        false
    } else if s < 0 {
        true
    } else {
        let off = chunk_offset(addr);
        let s_u = s as usize;
        if off > s_u {
            true
        } else {
            access_size > s_u - off
        }
    }
}

/// The start of the shadow-index range of an allocation at usable pointer
/// `p`: the chunk of the first byte of its left redzone.
pub open spec fn region_lo(p: int) -> int {
    (p - 32) / 8
}

/// The end of the shadow-index range of an allocation at usable pointer `p`
/// with usable size `n`: the chunk of the last boundary of its right redzone.
pub open spec fn region_hi(p: int, n: int) -> int {
    (p + n + 32) / 8
}

/// Two allocations' raw regions cover disjoint shadow bytes.
pub open spec fn regions_disjoint(p1: int, n1: int, p2: int, n2: int) -> bool {
    region_hi(p1, n1) < region_lo(p2) || region_hi(p2, n2) < region_lo(p1)
}

/// A live allocation entry is 8-byte aligned, leaves room for its left
/// redzone, and its raw region lies inside the shadow-mapped space.
pub open spec fn alloc_entry_wf(p: int, n: int, slen: int) -> bool {
    &&& p >= 32
    &&& p % 8 == 0
    &&& p + n + 32 < 8 * slen
    &&& p + n + 32 <= usize::MAX
}

/// The shadow bytes of one live allocation: poisoned left redzone, clean
/// usable region, the boundary byte holding the usable remainder, and a
/// poisoned right redzone.
pub open spec fn live_region_wf(shadow: Seq<i8>, p: int, n: int) -> bool {
    &&& forall|j: int| region_lo(p) <= j < p / 8 ==> shadow[j] < 0
    &&& forall|j: int| p / 8 <= j < (p + n) / 8 ==> shadow[j] == 0
    &&& n % 8 != 0 ==> shadow[(p + n) / 8] == n % 8
    &&& n % 8 == 0 ==> shadow[(p + n) / 8] < 0
    &&& forall|j: int| (p + n) / 8 < j < region_hi(p, n) ==> shadow[j] < 0
    &&& n % 8 != 0 ==> shadow[region_hi(p, n)] == n % 8
    &&& n % 8 == 0 ==> shadow[region_hi(p, n)] < 0
}

/// The shadow-memory runtime state: the shadow byte array and the map of
/// live allocations.
pub struct AsanRuntime {
    pub shadow: Vec<i8>,
    pub allocs: AllocMap,
}

impl AsanRuntime {
    /// The live allocations: usable pointer to usable size.
    pub open spec fn allocations(self) -> Map<usize, usize> {
        alloc_map_contents(self.allocs)
    }

    /// The shadow bytes.
    pub open spec fn shadow_view(self) -> Seq<i8> {
        self.shadow@
    }

    /// Every live allocation is aligned, in range, disjoint from the
    /// others, and its shadow bytes follow the redzone protocol.
    pub open spec fn wf(self) -> bool {
        let slen = self.shadow@.len() as int;
        let m = self.allocations();
        &&& slen > 0
        &&& m.dom().finite()
        &&& forall|p: usize| #[trigger]
            m.dom().contains(p) ==> alloc_entry_wf(p as int, m[p] as int, slen)
        &&& forall|p: usize| #[trigger]
            m.dom().contains(p) ==> live_region_wf(self.shadow@, p as int, m[p] as int)
        &&& forall|p1: usize, p2: usize|
            m.dom().contains(p1) && m.dom().contains(p2) && p1 != p2 ==> regions_disjoint(
                p1 as int,
                m[p1] as int,
                p2 as int,
                m[p2] as int,
            )
    }

    /// A fresh runtime: a zeroed shadow array of `shadow_len` bytes and no
    /// live allocation.
    pub fn new(shadow_len: usize) -> (r: AsanRuntime)
        requires
            shadow_len > 0,
        ensures
            r.wf(),
            r.allocations() =~= Map::empty(),
            r.shadow_view() =~= Seq::new(shadow_len as nat, |i: int| CLEAN_BYTE_MARKER),
    {
        let mut shadow: Vec<i8> = Vec::new();
        let mut i: usize = 0;
        while i < shadow_len
            invariant
                i <= shadow_len,
                shadow@.len() == i,
                forall|j: int| 0 <= j < i ==> shadow@[j] == CLEAN_BYTE_MARKER,
            decreases shadow_len - i,
        {
            shadow.push(CLEAN_BYTE_MARKER);
            i += 1;
        }
        let r = AsanRuntime { shadow, allocs: AllocMap::new() };
        proof {
            assert(r.allocations().dom() =~= Set::empty());
        }
        r
    }
}


proof fn lemma_div8_below(x: int, slen: int)
    requires
        0 <= x,
        x < 8 * slen,
    ensures
        0 <= x / 8 < slen,
{
    lemma_div_is_ordered(0, x, 8);
    lemma_div_is_ordered(x, 8 * slen - 8 + 7, 8);
    lemma_div_multiples_vanish_fancy(slen - 1, 7, 8);
}

proof fn lemma_mod8_shift(a: int, b: int)
    requires
        a % 8 == 0,
    ensures
        (a + b) % 8 == b % 8,
        (a + b) / 8 == a / 8 + b / 8,
{
    lemma_fundamental_div_mod(a, 8);
    lemma_mod_multiples_vanish(a / 8, b, 8);
    lemma_fundamental_div_mod(b, 8);
    lemma_div_multiples_vanish_fancy(a / 8 + b / 8, b % 8, 8);
}

/// Restores the shadow protocol of one live region when no shadow byte of
/// its chunk range changed.
proof fn lemma_live_region_preserved(sh0: Seq<i8>, sh1: Seq<i8>, q: int, nq: int)
    requires
        live_region_wf(sh0, q, nq),
        q >= 32,
        nq >= 0,
        forall|j: int| region_lo(q) <= j <= region_hi(q, nq) ==> sh1[j] == sh0[j],
    ensures
        live_region_wf(sh1, q, nq),
{
    lemma_div_is_ordered(q - 32, q, 8);
    lemma_div_is_ordered(q, q + nq, 8);
    lemma_div_is_ordered(q + nq, q + nq + 32, 8);
}

impl AsanRuntime {
    /// Checks one access of `access_size` bytes at `addr` against the
    /// shadow bytes; `true` means the access is invalid.
    pub fn check_access(&self, addr: usize, access_size: usize) -> (viol: bool)
        requires
            self.shadow_view().len() > 0,
        ensures
            viol == spec_mem_check(self.shadow_view(), addr as int, access_size as int),
    {
        mem_check(&self.shadow, addr, access_size)
    }

    /// Registers a fresh allocation: poisons its redzones, clears its usable
    /// region, and records the usable pointer and size in the allocation
    /// map. Returns the usable pointer, 32 bytes past the raw base.
    pub fn init_redzone(&mut self, base_ptr: usize, usable_size: usize, alloc_kind: u8) -> (usable_ptr: usize)
        requires
            old(self).wf(),
            alloc_kind == 1 || alloc_kind == 2,
            base_ptr % 8 == 0,
            base_ptr + 64 + usable_size < 8 * old(self).shadow_view().len(),
            base_ptr + 64 + usable_size <= usize::MAX,
            old(self).allocations().dom().len() < ALLOC_MAP_SIZE,
            forall|q: usize| #[trigger] old(self).allocations().dom().contains(q)
                ==> regions_disjoint(
                    base_ptr + 32,
                    usable_size as int,
                    q as int,
                    old(self).allocations()[q] as int,
                ),
        ensures
            final(self).wf(),
            usable_ptr == base_ptr + 32,
            final(self).allocations() == old(self).allocations().insert(
                (base_ptr + 32) as usize,
                usable_size,
            ),
            final(self).shadow_view().len() == old(self).shadow_view().len(),
            forall|j: int|
                0 <= j < final(self).shadow_view().len() ==> final(self).shadow_view()[j]
                    == alloc_shadow_byte(
                    base_ptr as int,
                    usable_size as int,
                    left_marker(alloc_kind),
                    right_marker(alloc_kind),
                    old(self).shadow_view()[j],
                    j,
                ),
    {
        let ghost m0 = self.allocations();
        let ghost sh0 = self.shadow@;
        let ghost slen = self.shadow@.len() as int;
        poison_shadow_allocated(&mut self.shadow, base_ptr, usable_size, alloc_kind);
        let usable_ptr = base_ptr + REDZONE_SIZE;
        let res = self.allocs.insert(usable_ptr, usable_size);
        match res {
            Ok(_) => {},
            Err(_) => {
                proof {
                    assert(false);
                }
            },
        }
        proof {
            let base = base_ptr as int;
            let n = usable_size as int;
            let p = base + 32;
            let sh1 = self.shadow@;
            let m1 = self.allocations();
            let lm = left_marker(alloc_kind);
            let rm = right_marker(alloc_kind);
            lemma_region_indices(base, n, slen);
            lemma_mod8_shift(base, 32);
            lemma_mod8_shift(p, n);
            lemma_mod8_shift(p, n + 32);
            let idx0 = base / 8;
            let idxu = p / 8;
            let idxe = (p + n) / 8;
            let idxr = (p + n + 32) / 8;
            lemma_div8_below(base, slen);
            assert(region_lo(p) == idx0);
            assert(region_hi(p, n) == idxr);
            assert(alloc_entry_wf(p, n, slen));
            assert(live_region_wf(sh1, p, n)) by {
                assert(boundary_byte(base, lm) == lm);
                assert(forall|j: int| region_lo(p) <= j < p / 8 ==> sh1[j] < 0);
            }
            assert forall|q: usize| m0.dom().contains(q) implies live_region_wf(
                sh1,
                q as int,
                m0[q] as int,
            ) by {
                let qi = q as int;
                let nq = m0[q] as int;
                assert(alloc_entry_wf(qi, nq, slen));
                lemma_div8_below(qi - 32, slen);
                lemma_div8_below(qi + nq + 32, slen);
                assert forall|j: int| region_lo(qi) <= j <= region_hi(qi, nq) implies sh1[j]
                    == sh0[j] by {
                    assert(regions_disjoint(p, n, qi, nq));
                }
                lemma_live_region_preserved(sh0, sh1, qi, nq);
            }
            assert(m1.dom() =~= m0.dom().insert(usable_ptr));
            assert forall|q: usize| m1.dom().contains(q) implies live_region_wf(
                sh1,
                q as int,
                m1[q] as int,
            ) && alloc_entry_wf(q as int, m1[q] as int, slen) by {
                if q == usable_ptr {
                } else {
                    assert(m0.dom().contains(q));
                    assert(m1[q] == m0[q]);
                }
            }
            assert(self.wf());
        }
        usable_ptr
    }

    /// Registers a heap allocation: the raw pointer came from the
    /// underlying allocator with room for both redzones.
    pub fn malloc(&mut self, base_ptr: usize, usable_size: usize) -> (usable_ptr: usize)
        requires
            old(self).wf(),
            base_ptr % 8 == 0,
            base_ptr + 64 + usable_size < 8 * old(self).shadow_view().len(),
            base_ptr + 64 + usable_size <= usize::MAX,
            old(self).allocations().dom().len() < ALLOC_MAP_SIZE,
            forall|q: usize| #[trigger] old(self).allocations().dom().contains(q)
                ==> regions_disjoint(
                    base_ptr + 32,
                    usable_size as int,
                    q as int,
                    old(self).allocations()[q] as int,
                ),
        ensures
            final(self).wf(),
            usable_ptr == base_ptr + 32,
            final(self).allocations() == old(self).allocations().insert(
                (base_ptr + 32) as usize,
                usable_size,
            ),
    {
        self.init_redzone(base_ptr, usable_size, ALLOC_HEAP)
    }

    /// Frees a tracked allocation: poisons its whole raw region as freed and
    /// drops it from the allocation map. Returns whether the pointer was
    /// tracked; an untracked pointer leaves the state unchanged, and the
    /// caller forwards it to the underlying allocator as it stands.
    pub fn free(&mut self, ptr: usize) -> (tracked_ptr: bool)
        requires
            old(self).wf(),
        ensures
            final(self).wf(),
            tracked_ptr == old(self).allocations().dom().contains(ptr),
            tracked_ptr ==> final(self).allocations() == old(self).allocations().remove(ptr),
            tracked_ptr ==> forall|j: int|
                ptr - 32 <= 8 * j < ptr + old(self).allocations()[ptr] + 32
                    ==> #[trigger] final(self).shadow_view()[j] == FREED_MARKER,
            !tracked_ptr ==> final(self).allocations() == old(self).allocations(),
            !tracked_ptr ==> final(self).shadow_view() == old(self).shadow_view(),
            final(self).shadow_view().len() == old(self).shadow_view().len(),
    {
        let ghost m0 = self.allocations();
        let ghost sh0 = self.shadow@;
        let ghost slen = self.shadow@.len() as int;
        let r = self.allocs.remove(ptr);
        match r {
            Some(size) => {
                proof {
                    assert(m0.dom().contains(ptr));
                    assert(alloc_entry_wf(ptr as int, size as int, slen));
                }
                poison_shadow_freed(&mut self.shadow, ptr, size);
                proof {
                    let pi = ptr as int;
                    let n = size as int;
                    let start = pi - 32;
                    let sh1 = self.shadow@;
                    let m1 = self.allocations();
                    lemma_mod8_shift(pi, -32);
                    lemma_mod8_shift(start, 64 + n);
                    lemma_region_indices(start, n, slen);
                    let lo = start / 8;
                    let hi = (start + 64 + n) / 8;
                    assert(boundary_byte(start, FREED_MARKER) == FREED_MARKER);
                    assert forall|j: int| start <= 8 * j < pi + n + 32 implies sh1[j]
                        == FREED_MARKER by {
                        lemma_fundamental_div_mod(start + 64 + n, 8);
                        assert(lo <= j <= hi);
                    }
                    assert forall|q: usize| m1.dom().contains(q) implies live_region_wf(
                        sh1,
                        q as int,
                        m1[q] as int,
                    ) by {
                        let qi = q as int;
                        let nq = m1[q] as int;
                        assert(m0.dom().contains(q) && q != ptr);
                        assert(alloc_entry_wf(qi, nq, slen));
                        lemma_div8_below(qi - 32, slen);
                        lemma_div8_below(qi + nq + 32, slen);
                        assert forall|j: int| region_lo(qi) <= j <= region_hi(qi, nq) implies
                            sh1[j] == sh0[j] by {
                            assert(regions_disjoint(pi, n, qi, nq));
                        }
                        lemma_live_region_preserved(sh0, sh1, qi, nq);
                    }
                    assert(self.wf());
                }
                true
            },
            None => false,
        }
    }

    /// The bookkeeping half of `realloc` for a tracked pointer: poisons the
    /// current region as freed, drops the entry, and hands back the old
    /// usable size so the caller can allocate anew and copy. An untracked
    /// pointer is left alone: the caller forwards it to the underlying
    /// reallocator.
    pub fn realloc_prepare(&mut self, ptr: usize) -> (r: Option<usize>)
        requires
            old(self).wf(),
        ensures
            final(self).wf(),
            r == (if old(self).allocations().dom().contains(ptr) {
                Some(old(self).allocations()[ptr])
            } else {
                None::<usize>
            }),
            r is Some ==> final(self).allocations() == old(self).allocations().remove(ptr),
            r is None ==> final(self).allocations() == old(self).allocations(),
            r is None ==> final(self).shadow_view() == old(self).shadow_view(),
            final(self).shadow_view().len() == old(self).shadow_view().len(),
    {
        let ghost m0 = self.allocations();
        let old_size = match self.allocs.get(ptr) {
            Some(size) => size,
            None => {
                return None;
            },
        };
        let tracked_ptr = self.free(ptr);
        Some(old_size)
    }

    /// The checks that the `strcpy` interposer makes before copying: every
    /// destination byte that will be written, terminator included, is
    /// checked. Returns whether any of those accesses is invalid.
    pub fn strcpy(&self, dest: usize, src_len: usize) -> (viol: bool)
        requires
            self.shadow_view().len() > 0,
            dest + src_len < usize::MAX,
        ensures
            viol == exists|i: int|
                0 <= i <= src_len && #[trigger] spec_mem_check(self.shadow_view(), dest + i, 1),
    {
        let mut i: usize = 0;
        while i <= src_len
            invariant
                0 <= i <= src_len + 1,
                dest + src_len < usize::MAX,
                self.shadow_view().len() > 0,
                forall|k: int|
                    0 <= k < i ==> !#[trigger] spec_mem_check(self.shadow_view(), dest + k, 1),
            decreases src_len - i + 1,
        {
            if mem_check(&self.shadow, dest + i, 1) {
                return true;
            }
            i += 1;
        }
        false
    }
}

/// The left and right redzones of every live allocation are poisoned: any
/// 8-byte chunk lying wholly inside `[p - 32, p)` or `[p + n, p + n + 32)`
/// has a negative shadow byte.
pub proof fn lemma_redzones_poisoned(s: AsanRuntime, p: usize, j: int)
    requires
        s.wf(),
        s.allocations().dom().contains(p),
        (p - 32 <= 8 * j && 8 * j + 8 <= p) || (p + s.allocations()[p] <= 8 * j && 8 * j + 8 <= p
            + s.allocations()[p] + 32),
    ensures
        s.shadow_view()[j] < 0,
{
    let pi = p as int;
    let n = s.allocations()[p] as int;
    let slen = s.shadow_view().len() as int;
    assert(alloc_entry_wf(pi, n, slen));
    assert(live_region_wf(s.shadow_view(), pi, n));
    lemma_mod8_shift(pi, -32);
    lemma_mod8_shift(pi, n);
    lemma_mod8_shift(pi, n + 32);
    lemma_fundamental_div_mod(pi - 32, 8);
    lemma_fundamental_div_mod(pi, 8);
    lemma_fundamental_div_mod(pi + n, 8);
    lemma_fundamental_div_mod(pi + n + 32, 8);
    if p - 32 <= 8 * j && 8 * j + 8 <= p {
        assert(region_lo(pi) <= j < pi / 8);
    } else {
        assert((pi + n) / 8 * 8 + (pi + n) % 8 == pi + n);
        if n % 8 == 0 {
            assert((pi + n) / 8 <= j < region_hi(pi, n));
        } else {
            assert((pi + n) / 8 < j < region_hi(pi, n));
        }
    }
}

/// An access that stays inside the usable region of a live allocation never
/// raises a violation.
pub proof fn lemma_mem_check_in_usable(s: AsanRuntime, p: usize, addr: usize, k: usize)
    requires
        s.wf(),
        s.allocations().dom().contains(p),
        k >= 1,
        p <= addr,
        addr + k <= p + s.allocations()[p],
    ensures
        !spec_mem_check(s.shadow_view(), addr as int, k as int),
{
    let pi = p as int;
    let n = s.allocations()[p] as int;
    let ai = addr as int;
    let slen = s.shadow_view().len() as int;
    assert(alloc_entry_wf(pi, n, slen));
    assert(live_region_wf(s.shadow_view(), pi, n));
    lemma_mod8_shift(pi, n);
    lemma_fundamental_div_mod(pi, 8);
    lemma_fundamental_div_mod(pi + n, 8);
    lemma_fundamental_div_mod(ai, 8);
    lemma_div_is_ordered(pi, ai, 8);
    lemma_div_is_ordered(ai, pi + n, 8);
    lemma_div8_below(pi + n, slen);
    let idx = ai / 8;
    assert(pi / 8 <= idx <= (pi + n) / 8);
    lemma_small_mod(idx as nat, slen as nat);
    if idx < (pi + n) / 8 {
        assert(s.shadow_view()[idx] == 0);
    } else {
        assert(idx == (pi + n) / 8);
        assert(8 * idx + (ai % 8) + k <= 8 * idx + (pi + n) % 8);
        assert(n % 8 != 0);
        assert(s.shadow_view()[idx] == n % 8);
    }
}


/// Whether `p` occurs in `s` starting at position `i`.
pub open spec fn contains_at(s: Seq<char>, p: Seq<char>, i: int) -> bool {
    0 <= i && i + p.len() <= s.len() && s.subrange(i, i + p.len() as int) == p
}

/// Whether `p` occurs anywhere in `s`.
pub open spec fn contains_sub(s: Seq<char>, p: Seq<char>) -> bool {
    exists|i: int| contains_at(s, p, i)
}

/// Whether one string occurs inside another.
#[verifier::loop_isolation(false)]
pub fn contains_str(s: &str, p: &str) -> (r: bool)
    ensures
        r == contains_sub(s@, p@),
{
    let sl = s.unicode_len();
    let pl = p.unicode_len();
    if pl > sl {
        proof {
            assert(forall|i: int| !contains_at(s@, p@, i));
        }
        return false;
    }
    if pl == 0 {
        proof {
            assert(s@.subrange(0, 0) =~= p@);
            assert(contains_at(s@, p@, 0));
        }
        return true;
    }
    let mut i: usize = 0;
    while i <= sl - pl
        invariant
            1 <= pl <= sl,
            i <= sl - pl + 1,
            forall|k: int| 0 <= k < i ==> !contains_at(s@, p@, k),
        decreases sl - pl - i + 1,
    {
        let mut j: usize = 0;
        let mut matches_here = true;
        while j < pl
            invariant
                j <= pl,
                i + pl <= sl,
                matches_here ==> forall|k: int| 0 <= k < j ==> s@[i + k] == p@[k],
                !matches_here ==> !contains_at(s@, p@, i as int),
            decreases pl - j,
        {
            if s.get_char(i + j) != p.get_char(j) {
                matches_here = false;
                proof {
                    assert(s@.subrange(i as int, i + pl as int)[j as int] != p@[j as int]);
                    assert(!contains_at(s@, p@, i as int));
                }
                break ;
            }
            j += 1;
        }
        if matches_here {
            proof {
                assert(s@.subrange(i as int, i + pl as int) =~= p@);
                assert(contains_at(s@, p@, i as int));
            }
            return true;
        }
        proof {
            assert(!contains_at(s@, p@, i as int));
        }
        i += 1;
    }
    proof {
        assert forall|k: int| !contains_at(s@, p@, k) by {
            if 0 <= k && k + p@.len() <= s@.len() {
                assert(k < i);
            }
        }
    }
    false
}

/// The lines from the first that mentions the anchor onward.
pub open spec fn spec_skip_to_anchor(lines: Seq<Seq<char>>, anchor: Seq<char>) -> Seq<Seq<char>>
    decreases lines.len(),
{
    if lines.len() == 0 {
        lines
    } else if contains_sub(lines[0], anchor) {
        lines
    } else {
        spec_skip_to_anchor(lines.drop_first(), anchor)
    }
}

/// The lines that do not mention the allocator frame.
pub open spec fn spec_drop_alloc_frames(lines: Seq<Seq<char>>, frame: Seq<char>) -> Seq<Seq<char>>
    decreases lines.len(),
{
    if lines.len() == 0 {
        lines
    } else {
        let rest = spec_drop_alloc_frames(lines.drop_last(), frame);
        if contains_sub(lines.last(), frame) {
            rest
        } else {
            rest.push(lines.last())
        }
    }
}

/// The backtrace a violation report shows under the test hook: the lines
/// from the one that mentions the checking entry point onward, without the
/// allocator's own frames, and without the first two lines that remain.
pub open spec fn spec_trim_runtime_bt(
    lines: Seq<Seq<char>>,
    anchor: Seq<char>,
    frame: Seq<char>,
) -> Seq<Seq<char>> {
    let kept = spec_drop_alloc_frames(spec_skip_to_anchor(lines, anchor), frame);
    if kept.len() <= 2 {
        Seq::empty()
    } else {
        kept.skip(2)
    }
}

/// Trims a captured backtrace for the violation report: keeps the lines
/// from the first that mentions `anchor` (the checking entry point), drops
/// every line that mentions `frame` (the allocator's own source), and drops
/// the first two lines that remain.
#[verifier::loop_isolation(false)]
pub fn trim_runtime_bt(lines: &Vec<String>, anchor: &str, frame: &str) -> (r: Vec<String>)
    ensures
        r@.map_values(|l: String| l@) == spec_trim_runtime_bt(
            lines@.map_values(|l: String| l@),
            anchor@,
            frame@,
        ),
{
    let ghost views = lines@.map_values(|l: String| l@);
    let n = lines.len();
    let mut start: usize = 0;
    proof {
        assert(views.skip(0) =~= views);
    }
    while start < n && !contains_str(lines[start].as_str(), anchor)
        invariant
            start <= n == views.len(),
            spec_skip_to_anchor(views, anchor@) == spec_skip_to_anchor(
                views.skip(start as int),
                anchor@,
            ),
        decreases n - start,
    {
        proof {
            assert(views.skip(start as int).drop_first() =~= views.skip(start + 1));
        }
        start += 1;
    }
    proof {
        if start < n {
            assert(spec_skip_to_anchor(views, anchor@) =~= views.skip(start as int));
        } else {
            assert(views.skip(start as int).len() == 0);
            assert(spec_skip_to_anchor(views, anchor@) =~= views.skip(start as int));
        }
    }
    let mut kept: Vec<String> = Vec::new();
    let mut i: usize = start;
    proof {
        assert(views.skip(start as int).take(0) =~= Seq::<Seq<char>>::empty());
    }
    while i < n
        invariant
            start <= i <= n == views.len(),
            kept@.map_values(|l: String| l@) == spec_drop_alloc_frames(
                views.skip(start as int).take(i - start),
                frame@,
            ),
        decreases n - i,
    {
        proof {
            assert(views.skip(start as int).take(i - start + 1).drop_last() =~= views.skip(
                start as int,
            ).take(i - start));
            assert(views.skip(start as int).take(i - start + 1).last() == views[i as int]);
        }
        if !contains_str(lines[i].as_str(), frame) {
            let line = lines[i].clone();
            kept.push(line);
            proof {
                assert(kept@.map_values(|l: String| l@) =~= spec_drop_alloc_frames(
                    views.skip(start as int).take(i - start + 1),
                    frame@,
                ));
            }
        }
        i += 1;
    }
    proof {
        assert(views.skip(start as int).take(n - start) =~= views.skip(start as int));
    }
    let mut out: Vec<String> = Vec::new();
    let mut k: usize = 2;
    while k < kept.len()
        invariant
            k >= 2,
            kept@.len() > 2 ==> 2 <= k <= kept@.len() && out@ == kept@.subrange(2, k as int),
            kept@.len() <= 2 ==> out@.len() == 0,
        decreases kept@.len() - k,
    {
        let line = kept[k].clone();
        out.push(line);
        proof {
            assert(out@ =~= kept@.subrange(2, k + 1));
        }
        k += 1;
    }
    proof {
        let kv = kept@.map_values(|l: String| l@);
        if kept@.len() > 2 {
            assert(out@ =~= kept@.subrange(2, kept@.len() as int));
            assert(out@.map_values(|l: String| l@) =~= kv.skip(2));
        } else {
            assert(out@.map_values(|l: String| l@) =~= Seq::<Seq<char>>::empty());
        }
    }
    out
}

} // verus!
