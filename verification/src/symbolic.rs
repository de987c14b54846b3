//! The symbolic runtime's constraint store: constraints arrive from the
//! module constructor grouped by leaf-state identifier, and the solution
//! write-back picks the value solved for one stable address and renders it
//! at the width of the symbolic variable.

use vstd::prelude::*;
use std::collections::HashMap;
use vstd::bytes::{spec_u32_to_le_bytes, spec_u64_to_le_bytes, u32_to_le_bytes, u64_to_le_bytes};
use crate::instrument::symbolic::ConstraintSerialized;

verus! {

/// The per-state constraint store.
pub struct Solver {
    pub constraints: HashMap<i64, Vec<ConstraintSerialized>>,
}

impl Solver {
    pub fn new() -> (r: Solver)
        ensures
            r.constraints@ =~= Map::empty(),
    {
        Solver { constraints: HashMap::new() }
    }

    /// Stores one constraint under its state identifier, after any already
    /// stored for that state.
    pub fn add_constraint(
        &mut self,
        id: i64,
        left_operand_kind: i8,
        left_operand_val: i64,
        right_operand_kind: i8,
        right_operand_val: i64,
        predicate: i8,
    )
        ensures
            final(self).constraints@.contains_key(id),
            final(self).constraints@[id]@ == (if old(self).constraints@.contains_key(id) {
                old(self).constraints@[id]@
            } else {
                Seq::empty()
            }).push(
                ConstraintSerialized {
                    id,
                    left_operand_kind,
                    left_operand_val,
                    right_operand_kind,
                    right_operand_val,
                    predicate,
                },
            ),
            forall|k: i64|
                k != id ==> final(self).constraints@.contains_key(k) == old(
                    self,
                ).constraints@.contains_key(k),
            forall|k: i64| #![auto]
                k != id && old(self).constraints@.contains_key(k) ==> final(self).constraints@[k]
                    == old(self).constraints@[k],
    {
        let mut entry = match self.constraints.remove(&id) {
            Some(existing) => existing,
            None => Vec::new(),
        };
        entry.push(
            ConstraintSerialized::new(
                id,
                left_operand_kind,
                left_operand_val,
                right_operand_kind,
                right_operand_val,
                predicate,
            ),
        );
        self.constraints.insert(id, entry);
    }

    /// The constraints stored for one state.
    pub fn constraints_of(&self, id: i64) -> (r: Option<&Vec<ConstraintSerialized>>)
        ensures
            r is Some <==> self.constraints@.contains_key(id),
            r matches Some(v) ==> v == self.constraints@[id],
    {
        self.constraints.get(&id)
    }
}

/// The solved value for one stable address, if the solver bound it: the
/// last binding wins, as a write-back loop would leave it.
pub open spec fn spec_solution_for(solutions: Seq<(i64, i64)>, addr: i64) -> Option<i64>
    decreases solutions.len(),
{
    if solutions.len() == 0 {
        None
    } else if solutions.last().0 == addr {
        Some(solutions.last().1)
    } else {
        spec_solution_for(solutions.drop_last(), addr)
    }
}

/// Picks the solved value for one stable address out of a solver's model.
pub fn solution_for(solutions: &Vec<(i64, i64)>, addr: i64) -> (r: Option<i64>)
    ensures
        r == spec_solution_for(solutions@, addr),
{
    let mut i: usize = solutions.len();
    proof {
        assert(solutions@.subrange(0, solutions@.len() as int) =~= solutions@);
    }
    while i > 0
        invariant
            i <= solutions@.len(),
            spec_solution_for(solutions@, addr) == spec_solution_for(
                solutions@.subrange(0, i as int),
                addr,
            ),
        decreases i,
    {
        proof {
            assert(solutions@.subrange(0, i as int).drop_last() =~= solutions@.subrange(
                0,
                i - 1,
            ));
        }
        let pair = solutions[i - 1];
        if pair.0 == addr {
            return Some(pair.1);
        }
        i -= 1;
    }
    proof {
        assert(solutions@.subrange(0, 0) =~= Seq::<(i64, i64)>::empty());
    }
    None
}

/// The bytes written back into a symbolic variable of a given width: one
/// byte for width one, four little-endian bytes for width four, eight for
/// any other width.
pub open spec fn spec_solution_bytes(typ_size: int, solution: i64) -> Seq<u8> {
    if typ_size == 1 {
        seq![solution as u8]
    } else if typ_size == 4 {
        spec_u32_to_le_bytes(solution as u32)
    } else {
        spec_u64_to_le_bytes(solution as u64)
    }
}

/// Renders a solved value at the width of its symbolic variable.
pub fn solution_bytes(typ_size: usize, solution: i64) -> (r: Vec<u8>)
    ensures
        r@ == spec_solution_bytes(typ_size as int, solution),
{
    if typ_size == 1 {
        let mut out: Vec<u8> = Vec::new();
        let b = #[verifier::truncate] (solution as u8);
        out.push(b);
        proof {
            assert(out@ =~= seq![solution as u8]);
        }
        out
    } else if typ_size == 4 {
        let w = #[verifier::truncate] (solution as u32);
        u32_to_le_bytes(w)
    } else {
        let w = #[verifier::truncate] (solution as u64);
        u64_to_le_bytes(w)
    }
}

} // verus!
