//! Seeds and the seed pool. A seed is an input with a score; the pool keeps
//! seeds totally ordered by `(score, bytes)` with set semantics, pops the
//! highest-scoring seed first, and evicts the lowest-scoring seed when it
//! grows past its cap.

use vstd::prelude::*;
use crate::mutator::{mutate, MutateResult};

verus! {

/// The pool's cap: one more seed than this evicts the minimum.
pub const MAX_SEED_LEN: usize = 1000;

/// Where minimized crash inputs are persisted, relative to the working
/// directory.
pub const CRASH_OUTPUT_DIR: &'static str = "crashes";

/// Lexicographic order on byte strings; a prefix comes first.
pub open spec fn lex_le(a: Seq<u8>, b: Seq<u8>) -> bool
    decreases a.len(),
{
    if a.len() == 0 {
        true
    } else if b.len() == 0 {
        false
    } else if a[0] < b[0] {
        true
    } else if a[0] > b[0] {
        false
    } else {
        lex_le(a.drop_first(), b.drop_first())
    }
}

proof fn lemma_lex_le_total(a: Seq<u8>, b: Seq<u8>)
    ensures
        lex_le(a, b) || lex_le(b, a),
    decreases a.len(),
{
    if a.len() != 0 && b.len() != 0 && a[0] == b[0] {
        lemma_lex_le_total(a.drop_first(), b.drop_first());
    }
}

proof fn lemma_lex_le_trans(a: Seq<u8>, b: Seq<u8>, c: Seq<u8>)
    requires
        lex_le(a, b),
        lex_le(b, c),
    ensures
        lex_le(a, c),
    decreases a.len(),
{
    if a.len() != 0 && b.len() != 0 && c.len() != 0 && a[0] == b[0] && b[0] == c[0] {
        lemma_lex_le_trans(a.drop_first(), b.drop_first(), c.drop_first());
    }
}

/// Skipping a common prefix does not change the order of two byte strings.
proof fn lemma_lex_le_skip(a: Seq<u8>, b: Seq<u8>, i: int)
    requires
        0 <= i <= a.len(),
        i <= b.len(),
        forall|k: int| 0 <= k < i ==> a[k] == b[k],
    ensures
        lex_le(a, b) == lex_le(a.skip(i), b.skip(i)),
    decreases i,
{
    if i > 0 {
        assert(a.drop_first() =~= a.skip(1));
        assert(b.drop_first() =~= b.skip(1));
        lemma_lex_le_skip(a.skip(1), b.skip(1), i - 1);
        assert(a.skip(1).skip(i - 1) =~= a.skip(i));
        assert(b.skip(1).skip(i - 1) =~= b.skip(i));
    } else {
        assert(a.skip(0) =~= a);
        assert(b.skip(0) =~= b);
    }
}

/// One unit of fuzzing work: the input bytes and the score the last
/// evaluation gave them.
#[derive(Debug)]
pub struct Seed {
    pub input: Vec<u8>,
    pub score: u64,
}

/// Two seeds are the same pool element when both bytes and score agree.
pub open spec fn seed_eq(a: Seed, b: Seed) -> bool {
    a.input@ == b.input@ && a.score == b.score
}

/// The pool's total order: by score, then by bytes.
pub open spec fn spec_seed_le(a: Seed, b: Seed) -> bool {
    a.score < b.score || (a.score == b.score && lex_le(a.input@, b.input@))
}

proof fn lemma_seed_le_total(a: Seed, b: Seed)
    ensures
        spec_seed_le(a, b) || spec_seed_le(b, a),
{
    lemma_lex_le_total(a.input@, b.input@);
}

proof fn lemma_seed_le_trans(a: Seed, b: Seed, c: Seed)
    requires
        spec_seed_le(a, b),
        spec_seed_le(b, c),
    ensures
        spec_seed_le(a, c),
{
    if a.score == b.score && b.score == c.score {
        lemma_lex_le_trans(a.input@, b.input@, c.input@);
    }
}

/// Compares two byte strings lexicographically.
fn bytes_le(a: &Vec<u8>, b: &Vec<u8>) -> (r: bool)
    ensures
        r == lex_le(a@, b@),
{
    let a_len = a.len();
    let b_len = b.len();
    let shorter = if a_len < b_len {
        a_len
    } else {
        b_len
    };
    let mut i: usize = 0;
    while i < shorter
        invariant
            i <= shorter,
            shorter == (if a@.len() < b@.len() {
                a@.len()
            } else {
                b@.len()
            }),
            forall|k: int| 0 <= k < i ==> a@[k] == b@[k],
        decreases shorter - i,
    {
        if a[i] < b[i] {
            proof {
                lemma_lex_le_skip(a@, b@, i as int);
            }
            return true;
        }
        if a[i] > b[i] {
            proof {
                lemma_lex_le_skip(a@, b@, i as int);
            }
            return false;
        }
        i += 1;
    }
    proof {
        lemma_lex_le_skip(a@, b@, shorter as int);
        if a@.len() <= b@.len() {
            assert(a@.skip(shorter as int).len() == 0);
        } else {
            assert(b@.skip(shorter as int).len() == 0);
            assert(a@.skip(shorter as int).len() > 0);
        }
    }
    a_len <= b_len
}

/// Compares two seeds in the pool's order.
fn seed_le(a: &Seed, b: &Seed) -> (r: bool)
    ensures
        r == spec_seed_le(*a, *b),
{
    if a.score < b.score {
        true
    } else if a.score > b.score {
        false
    } else {
        bytes_le(&a.input, &b.input)
    }
}

/// Whether two seeds are the same pool element.
fn seed_same(a: &Seed, b: &Seed) -> (r: bool)
    ensures
        r == seed_eq(*a, *b),
{
    if a.score != b.score {
        return false;
    }
    if a.input.len() != b.input.len() {
        proof {
            assert(a.input@ != b.input@);
        }
        return false;
    }
    let mut i: usize = 0;
    while i < a.input.len()
        invariant
            i <= a.input@.len() == b.input@.len(),
            a.score == b.score,
            forall|k: int| 0 <= k < i ==> a.input@[k] == b.input@[k],
        decreases a.input@.len() - i,
    {
        if a.input[i] != b.input[i] {
            proof {
                assert(a.input@ != b.input@);
            }
            return false;
        }
        i += 1;
    }
    proof {
        assert(a.input@ =~= b.input@);
    }
    true
}

impl Seed {
    pub fn new(input: Vec<u8>, score: u64) -> (r: Seed)
        ensures
            r.input == input,
            r.score == score,
    {
        Seed { input, score }
    }

    /// Applies a batch of random mutations to the input: at least one, at
    /// most a fifth of the length rounded up.
    pub fn mutate(&mut self) -> (r: Vec<MutateResult>)
        requires
            old(self).input@.len() > 0,
        ensures
            final(self).input@.len() > 0,
            1 <= r@.len() <= crate::mutator::spec_mutation_cap(old(self).input@.len() as int),
            final(self).input@.len() <= old(self).input@.len() + r@.len(),
            final(self).score == old(self).score,
    {
        mutate(&mut self.input)
    }

    pub fn get_input(&self) -> (r: &Vec<u8>)
        ensures
            r@ == self.input@,
    {
        &self.input
    }

    pub fn get_score(&self) -> (r: u64)
        ensures
            r == self.score,
    {
        self.score
    }

    /// The input rendered in uppercase hexadecimal.
    pub fn to_hex(&self) -> (r: String)
        ensures
            r@ == crate::strfmt::spec_hex(self.input@),
    {
        crate::strfmt::bytes_to_hex(&self.input)
    }

    pub fn set_score(&mut self, v: u64)
        ensures
            final(self).score == v,
            final(self).input == old(self).input,
    {
        self.score = v;
    }
}

/// Whether a pool holds an element equal to the seed.
pub open spec fn pool_has(s: Seq<Seed>, x: Seed) -> bool {
    exists|i: int| 0 <= i < s.len() && seed_eq(s[i], x)
}

/// The priority pool of seeds, a set ordered by `(score, bytes)`.
pub struct SeedPool {
    pub seeds: Vec<Seed>,
}

impl SeedPool {
    /// No two pool elements are the same seed.
    pub open spec fn wf(self) -> bool {
        forall|i: int, j: int|
            0 <= i < j < self.seeds@.len() ==> !seed_eq(self.seeds@[i], self.seeds@[j])
    }

    /// A pool of the given initial inputs: each becomes one element with
    /// score zero, equal inputs collapsing to one, and nothing else enters.
    #[verifier::loop_isolation(false)]
    pub fn new(init_seeds: Vec<Vec<u8>>) -> (r: SeedPool)
        ensures
            r.wf(),
            forall|i: int|
                0 <= i < init_seeds@.len() ==> pool_has(
                    r.seeds@,
                    Seed { input: init_seeds@[i], score: 0 },
                ),
            forall|j: int|
                0 <= j < r.seeds@.len() ==> (#[trigger] r.seeds@[j]).score == 0 && exists|i: int|
                    0 <= i < init_seeds@.len() && r.seeds@[j].input@ == init_seeds@[i]@,
    {
        let mut pool = SeedPool { seeds: Vec::new() };
        let mut i: usize = 0;
        while i < init_seeds.len()
            invariant
                pool.wf(),
                i <= init_seeds@.len(),
                forall|k: int|
                    0 <= k < i ==> pool_has(
                        pool.seeds@,
                        Seed { input: init_seeds@[k], score: 0 },
                    ),
                forall|j: int|
                    0 <= j < pool.seeds@.len() ==> (#[trigger] pool.seeds@[j]).score == 0
                        && exists|k: int|
                        0 <= k < i && pool.seeds@[j].input@ == init_seeds@[k]@,
            decreases init_seeds@.len() - i,
        {
            let mut input: Vec<u8> = Vec::new();
            let entry = &init_seeds[i];
            let mut k: usize = 0;
            while k < entry.len()
                invariant
                    k <= entry@.len(),
                    input@ == entry@.subrange(0, k as int),
                decreases entry@.len() - k,
            {
                let byte = entry[k];
                input.push(byte);
                proof {
                    assert(input@ =~= entry@.subrange(0, k + 1));
                }
                k += 1;
            }
            proof {
                assert(input@ =~= init_seeds@[i as int]@);
            }
            let ghost before = pool.seeds@;
            let fresh = Seed::new(input, 0);
            let ghost fresh_v = fresh;
            pool.insert_unique(fresh);
            proof {
                assert forall|k: int| 0 <= k < i + 1 implies pool_has(
                    pool.seeds@,
                    Seed { input: init_seeds@[k], score: 0 },
                ) by {
                    if k < i {
                        let w = choose|w: int|
                            0 <= w < before.len() && seed_eq(
                                before[w],
                                Seed { input: init_seeds@[k], score: 0 },
                            );
                        assert(seed_eq(
                            pool.seeds@[w],
                            Seed { input: init_seeds@[k], score: 0 },
                        ));
                    } else {
                        let target = Seed { input: init_seeds@[k], score: 0 };
                        if pool_has(before, fresh_v) {
                            let w = choose|w: int|
                                0 <= w < before.len() && seed_eq(before[w], fresh_v);
                            assert(seed_eq(pool.seeds@[w], target));
                        } else {
                            let n = pool.seeds@.len() - 1;
                            assert(seed_eq(pool.seeds@[n], target));
                        }
                    }
                }
            }
            i += 1;
        }
        pool
    }

    /// Inserts a seed with set semantics: an equal element already present
    /// leaves the pool unchanged.
    fn insert_unique(&mut self, seed: Seed)
        requires
            old(self).wf(),
        ensures
            final(self).wf(),
            pool_has(old(self).seeds@, seed) ==> final(self).seeds@ == old(self).seeds@,
            !pool_has(old(self).seeds@, seed) ==> final(self).seeds@ == old(self).seeds@.push(
                seed,
            ),
    {
        if !self.contains_seed(&seed) {
            let ghost before = self.seeds@;
            self.seeds.push(seed);
            proof {
                let n = self.seeds@.len() - 1;
                assert(seed_eq(self.seeds@[n], seed));
                assert forall|i: int, j: int|
                    0 <= i < j < self.seeds@.len() implies !seed_eq(
                    self.seeds@[i],
                    self.seeds@[j],
                ) by {
                    if j == n {
                        assert(!seed_eq(before[i], seed));
                    }
                }
            }
        }
    }

    /// The position of a least seed.
    fn min_index(&self) -> (r: usize)
        requires
            self.seeds@.len() > 0,
        ensures
            r < self.seeds@.len(),
            forall|k: int|
                0 <= k < self.seeds@.len() ==> spec_seed_le(self.seeds@[r as int], self.seeds@[k]),
    {
        let mut best: usize = 0;
        let mut i: usize = 1;
        proof {
            lemma_seed_le_total(self.seeds@[0], self.seeds@[0]);
        }
        while i < self.seeds.len()
            invariant
                best < i <= self.seeds@.len(),
                forall|k: int|
                    0 <= k < i ==> spec_seed_le(self.seeds@[best as int], self.seeds@[k]),
            decreases self.seeds@.len() - i,
        {
            if seed_le(&self.seeds[i], &self.seeds[best]) {
                proof {
                    assert forall|k: int|
                        0 <= k < i + 1 implies spec_seed_le(
                        self.seeds@[i as int],
                        self.seeds@[k],
                    ) by {
                        if k < i {
                            lemma_seed_le_trans(
                                self.seeds@[i as int],
                                self.seeds@[best as int],
                                self.seeds@[k],
                            );
                        } else {
                            lemma_seed_le_total(self.seeds@[i as int], self.seeds@[i as int]);
                        }
                    }
                }
                best = i;
            } else {
                proof {
                    lemma_seed_le_total(self.seeds@[i as int], self.seeds@[best as int]);
                }
            }
            i += 1;
        }
        best
    }

    /// The position of a greatest seed.
    fn max_index(&self) -> (r: usize)
        requires
            self.seeds@.len() > 0,
        ensures
            r < self.seeds@.len(),
            forall|k: int|
                0 <= k < self.seeds@.len() ==> spec_seed_le(self.seeds@[k], self.seeds@[r as int]),
    {
        let mut best: usize = 0;
        let mut i: usize = 1;
        proof {
            lemma_seed_le_total(self.seeds@[0], self.seeds@[0]);
        }
        while i < self.seeds.len()
            invariant
                best < i <= self.seeds@.len(),
                forall|k: int|
                    0 <= k < i ==> spec_seed_le(self.seeds@[k], self.seeds@[best as int]),
            decreases self.seeds@.len() - i,
        {
            if seed_le(&self.seeds[best], &self.seeds[i]) {
                proof {
                    assert forall|k: int|
                        0 <= k < i + 1 implies spec_seed_le(
                        self.seeds@[k],
                        self.seeds@[i as int],
                    ) by {
                        if k < i {
                            lemma_seed_le_trans(
                                self.seeds@[k],
                                self.seeds@[best as int],
                                self.seeds@[i as int],
                            );
                        } else {
                            lemma_seed_le_total(self.seeds@[i as int], self.seeds@[i as int]);
                        }
                    }
                }
                best = i;
            } else {
                proof {
                    lemma_seed_le_total(self.seeds@[best as int], self.seeds@[i as int]);
                }
            }
            i += 1;
        }
        best
    }

    /// Whether the pool already holds this seed.
    fn contains_seed(&self, seed: &Seed) -> (r: bool)
        ensures
            r == exists|i: int| 0 <= i < self.seeds@.len() && seed_eq(self.seeds@[i], *seed),
    {
        let mut i: usize = 0;
        while i < self.seeds.len()
            invariant
                i <= self.seeds@.len(),
                forall|k: int| 0 <= k < i ==> !seed_eq(self.seeds@[k], *seed),
            decreases self.seeds@.len() - i,
    {
            if seed_same(&self.seeds[i], seed) {
                return true;
            }
            i += 1;
        }
        false
    }

    /// Adds a seed. A pool over its cap first evicts one least seed; the
    /// rest of the pool is kept as it stands, and a seed the pool already
    /// holds is not duplicated.
    pub fn add_seed(&mut self, seed: Seed)
        requires
            old(self).wf(),
        ensures
            final(self).wf(),
            old(self).seeds@.len() <= MAX_SEED_LEN ==> final(self).seeds@ == (if pool_has(
                old(self).seeds@,
                seed,
            ) {
                old(self).seeds@
            } else {
                old(self).seeds@.push(seed)
            }),
            old(self).seeds@.len() > MAX_SEED_LEN ==> exists|m: int|
                {
                    &&& 0 <= m < old(self).seeds@.len()
                    &&& (forall|k: int|
                        0 <= k < old(self).seeds@.len() ==> spec_seed_le(
                            #[trigger] old(self).seeds@[m],
                            old(self).seeds@[k],
                        ))
                    &&& final(self).seeds@ == (if pool_has(old(self).seeds@.remove(m), seed) {
                        old(self).seeds@.remove(m)
                    } else {
                        old(self).seeds@.remove(m).push(seed)
                    })
                },
    {
        if self.seeds.len() > MAX_SEED_LEN {
            let m = self.min_index();
            self.seeds.remove(m);
            proof {
                assert forall|i: int, j: int|
                    0 <= i < j < self.seeds@.len() implies !seed_eq(
                    self.seeds@[i],
                    self.seeds@[j],
                ) by {
                    let m0 = m as int;
                    let oi = if i < m0 {
                        i
                    } else {
                        i + 1
                    };
                    let oj = if j < m0 {
                        j
                    } else {
                        j + 1
                    };
                    assert(old(self).seeds@[oi] == self.seeds@[i]);
                    assert(old(self).seeds@[oj] == self.seeds@[j]);
                }
            }
            self.insert_unique(seed);
        } else {
            self.insert_unique(seed);
        }
    }

    /// Pops a greatest seed: every seed still in the pool compares at or
    /// below the one returned.
    pub fn pop_seed(&mut self) -> (r: Option<Seed>)
        requires
            old(self).wf(),
        ensures
            final(self).wf(),
            old(self).seeds@.len() == 0 ==> r is None && final(self).seeds@ == old(self).seeds@,
            old(self).seeds@.len() > 0 ==> (r matches Some(s) && exists|i: int|
                0 <= i < old(self).seeds@.len() && old(self).seeds@[i] == s && final(self).seeds@
                    == old(self).seeds@.remove(i)) && (forall|k: int|
                0 <= k < old(self).seeds@.len() ==> spec_seed_le(old(self).seeds@[k], r->0)),
    {
        if self.seeds.len() == 0 {
            return None;
        }
        let m = self.max_index();
        let s = self.seeds.remove(m);
        proof {
            assert forall|i: int, j: int|
                0 <= i < j < self.seeds@.len() implies !seed_eq(
                self.seeds@[i],
                self.seeds@[j],
            ) by {
                let m0 = m as int;
                let oi = if i < m0 {
                    i
                } else {
                    i + 1
                };
                let oj = if j < m0 {
                    j
                } else {
                    j + 1
                };
                assert(old(self).seeds@[oi] == self.seeds@[i]);
                assert(old(self).seeds@[oj] == self.seeds@[j]);
            }
        }
        Some(s)
    }

    pub fn is_empty(&self) -> (r: bool)
        ensures
            r == (self.seeds@.len() == 0),
    {
        self.seeds.len() == 0
    }

    pub fn len(&self) -> (r: usize)
        ensures
            r == self.seeds@.len(),
    {
        self.seeds.len()
    }
}

/// Seeds pop in non-increasing score order: when one pop returns a greatest
/// seed of the pool, any seed left behind — in particular whatever the next
/// pop returns — scores no higher.
pub proof fn lemma_pop_scores_non_increasing(pool: Seq<Seed>, i: int, later: Seed)
    requires
        0 <= i < pool.len(),
        forall|k: int| 0 <= k < pool.len() ==> spec_seed_le(pool[k], pool[i]),
        pool.remove(i).contains(later),
    ensures
        later.score <= pool[i].score,
{
    let rest = pool.remove(i);
    let k = choose|k: int| 0 <= k < rest.len() && rest[k] == later;
    if k < i {
        assert(pool[k] == later);
    } else {
        assert(pool[k + 1] == later);
    }
}

} // verus!
