//! The edge-coverage runtime and the fuzzer's view of its shared state. The
//! primary map holds one saturating 8-bit hit counter per edge; the
//! auxiliary region holds the previous-location scratch word, the
//! new-coverage flag, the visited-edge counter and mark, and the list of
//! distinct edges seen in the current window. An edge is the XOR of the
//! current and previous locations, reduced modulo the map size.

use vstd::prelude::*;
use crate::bucket::spec_bucket;
use crate::bytes::{read_u128, read_u64, spec_read_u128, spec_read_u64, write_u128, write_u64};

verus! {

pub const PREV_LOC_IDX: usize = 0;

pub const NEW_COVERAGES: usize = 16;

pub const VISIT_EDGES: usize = 24;

pub const VISIT_MARK: usize = 32;

pub const VISIT_EDGES_INDICIES: usize = 40;

pub const VISIT_EDGES_INDEX_SIZE: usize = 8;

/// The status word sent for a child that exited normally; zero is rewritten
/// to this so the host never reads an empty word.
pub const PROCESS_EXIT_NORMAL: u64 = 1;

/// The previous-location scratch word of an auxiliary region.
pub open spec fn aux_prev_loc(aux: Seq<u8>) -> u128 {
    spec_read_u128(aux, 0)
}

/// The new-coverage flag of an auxiliary region.
pub open spec fn aux_new_coverage(aux: Seq<u8>) -> u64 {
    spec_read_u64(aux, 16)
}

/// The total count of edges ever seen as new.
pub open spec fn aux_visit_edges(aux: Seq<u8>) -> u64 {
    spec_read_u64(aux, 24)
}

/// The number of distinct edges recorded in the current window.
pub open spec fn aux_visit_mark(aux: Seq<u8>) -> u64 {
    spec_read_u64(aux, 32)
}

/// The distinct edges recorded in the current window.
pub open spec fn aux_visited(aux: Seq<u8>) -> Seq<u64> {
    Seq::new(aux_visit_mark(aux) as nat, |i: int| spec_read_u64(aux, 40 + 8 * i))
}

/// A location value widened to the 128-bit scratch word: the two's
/// complement bits of the location, as `as`-casting defines them.
pub open spec fn loc_wide(cur_loc: i64) -> u128 {
    cur_loc as u128
}

/// The edge identifier of a control-flow move from the stored previous
/// location to `cur_loc`: the low 64 bits of the XOR of the widened current
/// location with the previous-location word, reduced modulo the map size.
/// The hash is a function of the two locations and the map size alone.
pub open spec fn spec_edge(cur_loc: i64, prev_loc: u128, size: int) -> int {
    (((loc_wide(cur_loc) ^ prev_loc) as u64) as int) % size
}

/// The edge hash is deterministic: equal previous and current locations
/// give the same edge identifier.
pub proof fn lemma_edge_hash_deterministic(c1: i64, p1: u128, c2: i64, p2: u128, size: int)
    requires
        c1 == c2,
        p1 == p2,
    ensures
        spec_edge(c1, p1, size) == spec_edge(c2, p2, size),
{
}

/// Reading a word is unchanged when no byte under it changed.
pub proof fn lemma_read_u64_frame(a: Seq<u8>, b: Seq<u8>, start: int, lo: int, hi: int)
    requires
        a.len() == b.len(),
        0 <= start,
        start + 8 <= a.len(),
        forall|j: int| 0 <= j < b.len() && !(lo <= j < hi) ==> b[j] == a[j],
        start + 8 <= lo || start >= hi,
    ensures
        spec_read_u64(b, start) == spec_read_u64(a, start),
{
    assert(b.subrange(start, start + 8) =~= a.subrange(start, start + 8));
}

/// Reading a double word is unchanged when no byte under it changed.
pub proof fn lemma_read_u128_frame(a: Seq<u8>, b: Seq<u8>, start: int, lo: int, hi: int)
    requires
        a.len() == b.len(),
        0 <= start,
        start + 16 <= a.len(),
        forall|j: int| 0 <= j < b.len() && !(lo <= j < hi) ==> b[j] == a[j],
        start + 16 <= lo || start >= hi,
    ensures
        spec_read_u128(b, start) == spec_read_u128(a, start),
{
    assert(b.subrange(start, start + 16) =~= a.subrange(start, start + 16));
}

/// One saturating increment of a hit counter.
pub open spec fn spec_saturating_inc(b: u8) -> u8 {
    if b == 255 {
        255
    } else {
        (b + 1) as u8
    }
}

/// The edge-coverage runtime state: the hit-counter map, its size, and the
/// auxiliary region, each present only when the environment provided it.
pub struct EdgeCoverage {
    pub shm: Option<Vec<u8>>,
    pub shm_size: Option<usize>,
    pub aux: Option<Vec<u8>>,
}

/// Room in the auxiliary region for its fixed fields and the current
/// visited-edge list, with one extra slot to append into.
pub open spec fn aux_has_room(aux: Seq<u8>, mark: u64) -> bool {
    48 + 8 * mark <= aux.len()
}

impl EdgeCoverage {
    /// The buffers, as the runtime received them.
    pub fn new(shm: Option<Vec<u8>>, shm_size: Option<usize>, aux: Option<Vec<u8>>) -> (r:
        EdgeCoverage)
        ensures
            r.shm == shm,
            r.shm_size == shm_size,
            r.aux == aux,
    {
        EdgeCoverage { shm, shm_size, aux }
    }

    /// Whether all three pieces of shared state are present and consistent.
    pub open spec fn active(self) -> bool {
        &&& self.shm is Some
        &&& self.shm_size is Some
        &&& self.aux is Some
        &&& self.shm->0@.len() == self.shm_size->0
        &&& self.shm_size->0 > 0
    }

    /// Records one edge: hashes the current location against the stored
    /// previous location, appends the edge to the visited window if it is
    /// not there yet, raises the new-coverage flag on a counter that was
    /// zero, and bumps that counter, saturating. Without its shared state
    /// the runtime does nothing.
    pub fn trace_edge(&mut self, cur_loc: i64)
        requires
            old(self).active() ==> {
                &&& aux_has_room(old(self).aux->0@, aux_visit_mark(old(self).aux->0@))
                &&& aux_visit_edges(old(self).aux->0@) < u64::MAX
                &&& aux_visit_mark(old(self).aux->0@) < u64::MAX
            },
        ensures
            final(self).shm_size == old(self).shm_size,
            !old(self).active() ==> *final(self) == *old(self),
            old(self).active() ==> final(self).active(),
            old(self).active() ==> ({
                let shm0 = old(self).shm->0@;
                let aux0 = old(self).aux->0@;
                let shm1 = final(self).shm->0@;
                let aux1 = final(self).aux->0@;
                let size = old(self).shm_size->0 as int;
                let e = spec_edge(cur_loc, aux_prev_loc(aux0), size);
                &&& shm1 == shm0.update(e, spec_saturating_inc(shm0[e]))
                &&& aux1.len() == aux0.len()
                &&& aux_prev_loc(aux1) == loc_wide(cur_loc) >> 1
                &&& (shm0[e] == 0 ==> aux_new_coverage(aux1) == 1 && aux_visit_edges(aux1)
                    == aux_visit_edges(aux0) + 1)
                &&& (shm0[e] != 0 ==> aux_new_coverage(aux1) == aux_new_coverage(aux0)
                    && aux_visit_edges(aux1) == aux_visit_edges(aux0))
                &&& (aux_visited(aux0).contains(e as u64) ==> aux_visited(aux1) == aux_visited(
                    aux0,
                ))
                &&& (!aux_visited(aux0).contains(e as u64) ==> aux_visited(aux1) == aux_visited(
                    aux0,
                ).push(e as u64))
            }),
    {
        if self.shm.is_none() || self.shm_size.is_none() || self.aux.is_none() {
            return ;
        }
        let shm_size = self.shm_size.unwrap();
        let mut shm = self.shm.take().unwrap();
        let mut shm_aux = self.aux.take().unwrap();
        if shm.len() != shm_size || shm_size == 0 {
            self.shm = Some(shm);
            self.aux = Some(shm_aux);
            return ;
        }
        let ghost shm0 = shm@;
        let ghost aux0 = shm_aux@;

        let aux_len = shm_aux.len();
        let cur_loc_wide = #[verifier::truncate] (cur_loc as u128);
        let prev_loc = read_u128(&shm_aux, PREV_LOC_IDX);
        let low = #[verifier::truncate] ((cur_loc_wide ^ prev_loc) as u64);
        let edge = (low % (shm_size as u64)) as usize;
        let ghost e = spec_edge(cur_loc, aux_prev_loc(aux0), shm_size as int);
        proof {
            assert(edge == e);
        }
        write_u128(&mut shm_aux, PREV_LOC_IDX, cur_loc_wide >> 1);
        proof {
            lemma_read_u64_frame(aux0, shm_aux@, 32, 0, 16);
            lemma_read_u64_frame(aux0, shm_aux@, 16, 0, 16);
            lemma_read_u64_frame(aux0, shm_aux@, 24, 0, 16);
            assert forall|k: int| 0 <= k < aux_visit_mark(aux0) implies #[trigger] spec_read_u64(
                shm_aux@,
                40 + 8 * k,
            ) == spec_read_u64(aux0, 40 + 8 * k) by {
                lemma_read_u64_frame(aux0, shm_aux@, 40 + 8 * k, 0, 16);
            }
            assert(aux_visit_mark(shm_aux@) == aux_visit_mark(aux0));
            assert(aux_visited(shm_aux@) =~= aux_visited(aux0));
        }

        let visited_cnt_w = read_u64(&shm_aux, VISIT_MARK);
        let visited_cnt = visited_cnt_w as usize;
        let mut already_visited = false;
        let mut i: usize = 0;
        while i < visited_cnt
            invariant
                i <= visited_cnt,
                visited_cnt == aux_visit_mark(shm_aux@),
                48 + 8 * visited_cnt <= aux_len == shm_aux@.len(),
                already_visited ==> aux_visited(shm_aux@).contains(edge as u64),
                !already_visited ==> forall|k: int|
                    0 <= k < i ==> aux_visited(shm_aux@)[k] != edge as u64,
            decreases visited_cnt - i,
        {
            let stored_edge = read_u64(&shm_aux, VISIT_EDGES_INDICIES + i * VISIT_EDGES_INDEX_SIZE);
            if stored_edge == edge as u64 {
                proof {
                    assert(aux_visited(shm_aux@)[i as int] == edge as u64);
                }
                already_visited = true;
            }
            i += 1;
        }
        let ghost aux_before_append = shm_aux@;
        if !already_visited {
            proof {
                assert(!aux_visited(shm_aux@).contains(edge as u64));
            }
            write_u64(
                &mut shm_aux,
                VISIT_EDGES_INDICIES + visited_cnt * VISIT_EDGES_INDEX_SIZE,
                edge as u64,
            );
            let ghost aux_mid = shm_aux@;
            write_u64(&mut shm_aux, VISIT_MARK, visited_cnt_w + 1);
            proof {
                let m0 = visited_cnt as int;
                lemma_read_u64_frame(aux_before_append, aux_mid, 16, 40 + 8 * m0, 48 + 8 * m0);
                lemma_read_u64_frame(aux_before_append, aux_mid, 24, 40 + 8 * m0, 48 + 8 * m0);
                lemma_read_u64_frame(aux_mid, shm_aux@, 16, 32, 40);
                lemma_read_u64_frame(aux_mid, shm_aux@, 24, 32, 40);
                lemma_read_u64_frame(aux_mid, shm_aux@, 40 + 8 * m0, 32, 40);
                lemma_read_u128_frame(aux_before_append, aux_mid, 0, 40 + 8 * m0, 48 + 8 * m0);
                lemma_read_u128_frame(aux_mid, shm_aux@, 0, 32, 40);
                assert(aux_visit_mark(shm_aux@) == visited_cnt_w + 1);
                assert(spec_read_u64(shm_aux@, 40 + 8 * m0) == edge as u64);
                assert forall|k: int| 0 <= k < m0 implies #[trigger] spec_read_u64(
                    shm_aux@,
                    40 + 8 * k,
                ) == spec_read_u64(aux_before_append, 40 + 8 * k) by {
                    lemma_read_u64_frame(aux_before_append, aux_mid, 40 + 8 * k, 40 + 8 * m0, 48 + 8 * m0);
                    lemma_read_u64_frame(aux_mid, shm_aux@, 40 + 8 * k, 32, 40);
                }
                assert(aux_visited(shm_aux@) =~= aux_visited(aux_before_append).push(edge as u64));
            }
        }

        let ghost aux_after_list = shm_aux@;
        let counter = shm[edge];
        if counter == 0 {
            write_u64(&mut shm_aux, NEW_COVERAGES, 1);
            proof {
                lemma_read_u64_frame(aux_after_list, shm_aux@, 24, 16, 24);
                lemma_read_u64_frame(aux_after_list, shm_aux@, 32, 16, 24);
                lemma_read_u128_frame(aux_after_list, shm_aux@, 0, 16, 24);
                assert forall|k: int| 0 <= k < aux_visit_mark(aux_after_list) implies
                    #[trigger] spec_read_u64(shm_aux@, 40 + 8 * k) == spec_read_u64(
                    aux_after_list,
                    40 + 8 * k,
                ) by {
                    lemma_read_u64_frame(aux_after_list, shm_aux@, 40 + 8 * k, 16, 24);
                }
                assert(aux_visited(shm_aux@) =~= aux_visited(aux_after_list));
            }
            let ghost aux_after_flag = shm_aux@;
            let edges_total = read_u64(&shm_aux, VISIT_EDGES);
            write_u64(&mut shm_aux, VISIT_EDGES, edges_total + 1);
            proof {
                lemma_read_u64_frame(aux_after_flag, shm_aux@, 16, 24, 32);
                lemma_read_u64_frame(aux_after_flag, shm_aux@, 32, 24, 32);
                lemma_read_u128_frame(aux_after_flag, shm_aux@, 0, 24, 32);
                assert forall|k: int| 0 <= k < aux_visit_mark(aux_after_flag) implies
                    #[trigger] spec_read_u64(shm_aux@, 40 + 8 * k) == spec_read_u64(
                    aux_after_flag,
                    40 + 8 * k,
                ) by {
                    lemma_read_u64_frame(aux_after_flag, shm_aux@, 40 + 8 * k, 24, 32);
                }
                assert(aux_visited(shm_aux@) =~= aux_visited(aux_after_flag));
            }
        }
        let bumped = if counter == 255 {
            255
        } else {
            counter + 1
        };
        shm.set(edge, bumped);
        proof {
            assert(aux_visited(shm_aux@) =~= (if aux_visited(aux0).contains(e as u64) {
                aux_visited(aux0)
            } else {
                aux_visited(aux0).push(e as u64)
            }));
        }
        self.shm = Some(shm);
        self.aux = Some(shm_aux);
    }
}


/// The process status that the fork-server reports for a child killed by
/// the watchdog: the signal number of SIGKILL.
pub const SIGKILL: i32 = 9;

/// Clears the new-coverage flag between runs.
pub fn clear_new_coverage(aux: &mut Vec<u8>)
    requires
        old(aux)@.len() >= 40,
        40 + 8 * aux_visit_mark(old(aux)@) <= old(aux)@.len(),
    ensures
        final(aux)@.len() == old(aux)@.len(),
        aux_new_coverage(final(aux)@) == 0,
        aux_prev_loc(final(aux)@) == aux_prev_loc(old(aux)@),
        aux_visit_edges(final(aux)@) == aux_visit_edges(old(aux)@),
        aux_visit_mark(final(aux)@) == aux_visit_mark(old(aux)@),
        aux_visited(final(aux)@) == aux_visited(old(aux)@),
    {
    let ghost aux0 = aux@;
    write_u64(aux, NEW_COVERAGES, 0);
    proof {
        lemma_read_u128_frame(aux0, aux@, 0, 16, 24);
        lemma_read_u64_frame(aux0, aux@, 24, 16, 24);
        lemma_read_u64_frame(aux0, aux@, 32, 16, 24);
        assert forall|k: int| 0 <= k < aux_visit_mark(aux0) implies #[trigger] spec_read_u64(
            aux@,
            40 + 8 * k,
        ) == spec_read_u64(aux0, 40 + 8 * k) by {
            lemma_read_u64_frame(aux0, aux@, 40 + 8 * k, 16, 24);
        }
        assert(aux_visited(aux@) =~= aux_visited(aux0));
    }
}

/// Whether the last run saw an edge that had never been hit before.
pub fn is_new_coverage(aux: &Vec<u8>) -> (r: bool)
    requires
        aux@.len() >= 24,
    ensures
        r == (aux_new_coverage(aux@) != 0),
{
    let new_covs = read_u64(aux, NEW_COVERAGES);
    new_covs != 0
}

/// Clears the visited-edge window between runs: zeroes the recorded edge
/// slots and resets the mark.
pub fn clear_visited_edges(aux: &mut Vec<u8>)
    requires
        old(aux)@.len() >= 40,
        40 + 8 * aux_visit_mark(old(aux)@) <= old(aux)@.len(),
    ensures
        final(aux)@.len() == old(aux)@.len(),
        aux_visit_mark(final(aux)@) == 0,
        aux_new_coverage(final(aux)@) == aux_new_coverage(old(aux)@),
        aux_visit_edges(final(aux)@) == aux_visit_edges(old(aux)@),
        aux_prev_loc(final(aux)@) == aux_prev_loc(old(aux)@),
{
    let ghost aux0 = aux@;
    let aux_len = aux.len();
    let visit_edges = read_u64(aux, VISIT_MARK);
    let count = visit_edges as usize;
    let mut i: usize = 0;
    while i < count
        invariant
            i <= count,
            aux@.len() == aux0.len() == aux_len,
            40 + 8 * count <= aux_len,
            aux_prev_loc(aux@) == aux_prev_loc(aux0),
            aux_new_coverage(aux@) == aux_new_coverage(aux0),
            aux_visit_edges(aux@) == aux_visit_edges(aux0),
            aux_visit_mark(aux@) == aux_visit_mark(aux0),
        decreases count - i,
    {
        let ghost before = aux@;
        write_u64(aux, VISIT_EDGES_INDICIES + i * VISIT_EDGES_INDEX_SIZE, 0);
        proof {
            let lo = 40 + 8 * i as int;
            lemma_read_u128_frame(before, aux@, 0, lo, lo + 8);
            lemma_read_u64_frame(before, aux@, 16, lo, lo + 8);
            lemma_read_u64_frame(before, aux@, 24, lo, lo + 8);
            lemma_read_u64_frame(before, aux@, 32, lo, lo + 8);
        }
        i += 1;
    }
    let ghost before = aux@;
    write_u64(aux, VISIT_MARK, 0);
    proof {
        lemma_read_u128_frame(before, aux@, 0, 32, 40);
        lemma_read_u64_frame(before, aux@, 16, 32, 40);
        lemma_read_u64_frame(before, aux@, 24, 32, 40);
    }
}

/// The rarity score of a window of visited edges: the sum, over the nonzero
/// recorded edges, of nine minus the bucket of that edge\'s hit counter.
pub open spec fn spec_rarity_sum(shm: Seq<u8>, edges: Seq<u64>) -> int
    decreases edges.len(),
{
    if edges.len() == 0 {
        0
    } else {
        spec_rarity_sum(shm, edges.drop_last()) + (if edges.last() != 0 {
            9 - spec_bucket(shm[edges.last() as int])
        } else {
            0
        })
    }
}

proof fn lemma_rarity_sum_bound(shm: Seq<u8>, edges: Seq<u64>)
    ensures
        0 <= spec_rarity_sum(shm, edges) <= 8 * edges.len(),
    decreases edges.len(),
{
    if edges.len() > 0 {
        lemma_rarity_sum_bound(shm, edges.drop_last());
    }
}

/// Scores the last run. A hang (the child was killed) scores zero; a run
/// that saw new coverage scores the maximum; any other run scores the sum
/// of per-edge rarity scores over the visited window.
pub fn eval_seed(shm: &Vec<u8>, aux: &Vec<u8>, status: i32) -> (r: (u64, u64))
    requires
        aux@.len() >= 40,
        40 + 8 * aux_visit_mark(aux@) <= aux@.len(),
        forall|k: int|
            0 <= k < aux_visit_mark(aux@) ==> (#[trigger] aux_visited(aux@)[k]) < shm@.len()
                || aux_visited(aux@)[k] == 0,
    ensures
        status == SIGKILL ==> r == (0u64, 0u64),
        status != SIGKILL && aux_new_coverage(aux@) != 0 ==> r == (
            aux_visit_mark(aux@),
            u64::MAX,
        ),
        status != SIGKILL && aux_new_coverage(aux@) == 0 ==> r.0 == aux_visit_mark(aux@) && r.1
            == spec_rarity_sum(shm@, aux_visited(aux@)),
{
    if status == SIGKILL {
        return (0, 0);
    }
    let aux_len = aux.len();
    let shm_len = shm.len();
    let visit_edges = read_u64(aux, VISIT_MARK);
    if is_new_coverage(aux) {
        return (visit_edges, u64::MAX);
    }
    let count = visit_edges as usize;
    let mut score: u64 = 0;
    let mut i: usize = 0;
    proof {
        assert(aux_visited(aux@).subrange(0, 0) =~= Seq::<u64>::empty());
    }
    while i < count
        invariant
            i <= count,
            count == aux_visit_mark(aux@),
            40 + 8 * count <= aux_len == aux@.len(),
            shm_len == shm@.len(),
            forall|k: int|
                0 <= k < count ==> (#[trigger] aux_visited(aux@)[k]) < shm@.len() || aux_visited(
                    aux@,
                )[k] == 0,
            score == spec_rarity_sum(shm@, aux_visited(aux@).subrange(0, i as int)),
            score <= 8 * i,
        decreases count - i,
    {
        let edge_w = read_u64(aux, VISIT_EDGES_INDICIES + i * VISIT_EDGES_INDEX_SIZE);
        proof {
            assert(edge_w == aux_visited(aux@)[i as int]);
            assert(aux_visited(aux@).subrange(0, i + 1).drop_last() =~= aux_visited(
                aux@,
            ).subrange(0, i as int));
        }
        if edge_w != 0 {
            let edge = edge_w as usize;
            let hit = shm[edge];
            score += crate::bucket::get_score(hit) as u64;
        }
        i += 1;
    }
    proof {
        assert(aux_visited(aux@).subrange(0, count as int) =~= aux_visited(aux@));
    }
    (visit_edges, score)
}

} // verus!
