//! The symbolic pass's path-state model: operands, predicates, constraints
//! with negation, and the forking of a path state at a conditional branch
//! into a true state and a false state.

use vstd::prelude::*;

verus! {

pub const VAR_KIND: i8 = 0;

pub const CONST_KIND: i8 = 1;

pub const PREDICATE_EQ: i8 = 0;

pub const PREDICATE_NE: i8 = 1;

pub const PREDICATE_SLT: i8 = 2;

pub const PREDICATE_SLE: i8 = 3;

pub const PREDICATE_SGT: i8 = 4;

pub const PREDICATE_SGE: i8 = 5;

/// One side of a comparison: a symbolic variable, named by its stable
/// address, or a signed 64-bit constant.
#[derive(Debug, PartialEq, Eq, Structural, Clone, Copy)]
pub enum Operand {
    Var(i64),
    Const(i64),
}

impl Operand {
    pub fn is_const(&self) -> (r: bool)
        ensures
            r == (self is Const),
    {
        match self {
            Self::Const(_) => true,
            Self::Var(_) => false,
        }
    }
}

/// The signed comparison predicates the pass recognizes.
#[derive(Debug, PartialEq, Eq, Structural, Clone, Copy)]
pub enum Predicate {
    Eq,
    Ne,
    Slt,
    Sle,
    Sgt,
    Sge,
}

/// One path constraint: a comparison between two operands.
#[derive(Debug, PartialEq, Eq, Structural, Clone, Copy)]
pub struct Constraint {
    pub left_operand: Operand,
    pub right_operand: Operand,
    pub predicate: Predicate,
}

/// The logical negation of a predicate.
pub open spec fn spec_negate_predicate(p: Predicate) -> Predicate {
    match p {
        Predicate::Eq => Predicate::Ne,
        Predicate::Ne => Predicate::Eq,
        Predicate::Slt => Predicate::Sge,
        Predicate::Sle => Predicate::Sgt,
        Predicate::Sgt => Predicate::Sle,
        Predicate::Sge => Predicate::Slt,
    }
}

/// The wire byte of a predicate.
pub open spec fn spec_predicate_to_i8(p: Predicate) -> i8 {
    match p {
        Predicate::Eq => 0,
        Predicate::Ne => 1,
        Predicate::Slt => 2,
        Predicate::Sle => 3,
        Predicate::Sgt => 4,
        Predicate::Sge => 5,
    }
}

impl Constraint {
    pub fn new(left_operand: Operand, right_operand: Operand, predicate: Predicate) -> (r:
        Constraint)
        ensures
            r == (Constraint { left_operand, right_operand, predicate }),
    {
        Constraint { left_operand, right_operand, predicate }
    }

    pub fn predicate_to_i8(&self) -> (r: i8)
        ensures
            r == spec_predicate_to_i8(self.predicate),
    {
        match self.predicate {
            Predicate::Eq => PREDICATE_EQ,
            Predicate::Ne => PREDICATE_NE,
            Predicate::Slt => PREDICATE_SLT,
            Predicate::Sle => PREDICATE_SLE,
            Predicate::Sgt => PREDICATE_SGT,
            Predicate::Sge => PREDICATE_SGE,
        }
    }

    /// The constraint of the other branch: same operands, negated predicate.
    pub fn negate(&self) -> (r: Constraint)
        ensures
            r.left_operand == self.left_operand,
            r.right_operand == self.right_operand,
            r.predicate == spec_negate_predicate(self.predicate),
    {
        let predicate = match self.predicate {
            Predicate::Eq => Predicate::Ne,
            Predicate::Ne => Predicate::Eq,
            Predicate::Slt => Predicate::Sge,
            Predicate::Sle => Predicate::Sgt,
            Predicate::Sgt => Predicate::Sle,
            Predicate::Sge => Predicate::Slt,
        };
        Constraint::new(self.left_operand, self.right_operand, predicate)
    }
}

/// One constraint on the wire, as the module constructor hands it to the
/// symbolic runtime.
#[derive(Debug, PartialEq, Eq, Structural, Clone, Copy)]
pub struct ConstraintSerialized {
    pub id: i64,
    pub left_operand_kind: i8,
    pub left_operand_val: i64,
    pub right_operand_kind: i8,
    pub right_operand_val: i64,
    pub predicate: i8,
}

impl ConstraintSerialized {
    pub fn new(
        id: i64,
        left_operand_kind: i8,
        left_operand_val: i64,
        right_operand_kind: i8,
        right_operand_val: i64,
        predicate: i8,
    ) -> (r: ConstraintSerialized)
        ensures
            r == (ConstraintSerialized {
                id,
                left_operand_kind,
                left_operand_val,
                right_operand_kind,
                right_operand_val,
                predicate,
            }),
    {
        ConstraintSerialized {
            id,
            left_operand_kind,
            left_operand_val,
            right_operand_kind,
            right_operand_val,
            predicate,
        }
    }
}

/// One path state: its identifier, the constraints along its path, and
/// whether its block ends in an unconditional branch.
pub struct State {
    pub id: i64,
    pub path_constraints: Vec<Constraint>,
    pub is_leaf: bool,
}

impl State {
    /// The root state of a function.
    pub fn new() -> (r: State)
        ensures
            r.id == 0,
            r.path_constraints@.len() == 0,
            !r.is_leaf,
    {
        State { id: 0, path_constraints: Vec::new(), is_leaf: false }
    }

    /// Forks this state at a conditional branch: the true state appends the
    /// constraint, the false state appends its negation, and both get fresh
    /// identifiers from the counter.
    pub fn fork(&self, constraint: Constraint, next_id: &mut i64) -> (r: (State, State))
        requires
            *old(next_id) <= i64::MAX - 2,
        ensures
            *final(next_id) == *old(next_id) + 2,
            r.0.id == *old(next_id) + 1,
            r.1.id == *old(next_id) + 2,
            r.0.path_constraints@ == self.path_constraints@.push(constraint),
            r.1.path_constraints@.len() == self.path_constraints@.len() + 1,
            forall|i: int|
                0 <= i < self.path_constraints@.len() ==> r.1.path_constraints@[i]
                    == self.path_constraints@[i],
            r.1.path_constraints@.last().left_operand == constraint.left_operand,
            r.1.path_constraints@.last().right_operand == constraint.right_operand,
            r.1.path_constraints@.last().predicate == spec_negate_predicate(constraint.predicate),
            r.0.is_leaf == self.is_leaf,
            r.1.is_leaf == self.is_leaf,
    {
        let tid = *next_id + 1;
        let fid = *next_id + 2;
        *next_id = *next_id + 2;
        let mut true_constraints: Vec<Constraint> = Vec::new();
        let mut false_constraints: Vec<Constraint> = Vec::new();
        let mut i: usize = 0;
        while i < self.path_constraints.len()
            invariant
                i <= self.path_constraints@.len(),
                true_constraints@ == self.path_constraints@.subrange(0, i as int),
                false_constraints@ == self.path_constraints@.subrange(0, i as int),
            decreases self.path_constraints@.len() - i,
        {
            let c = self.path_constraints[i];
            true_constraints.push(c);
            false_constraints.push(c);
            proof {
                assert(true_constraints@ =~= self.path_constraints@.subrange(0, i + 1));
                assert(false_constraints@ =~= self.path_constraints@.subrange(0, i + 1));
            }
            i += 1;
        }
        proof {
            assert(self.path_constraints@.subrange(0, self.path_constraints@.len() as int)
                =~= self.path_constraints@);
        }
        true_constraints.push(constraint);
        false_constraints.push(constraint.negate());
        let state_t = State { id: tid, path_constraints: true_constraints, is_leaf: self.is_leaf };
        let state_f = State { id: fid, path_constraints: false_constraints, is_leaf: self.is_leaf };
        (state_t, state_f)
    }
}

/// The unit of the symbolic instrumentation pass.
pub struct SymbolicModule {}


/// The wire kind of an operand.
pub open spec fn spec_operand_kind(o: Operand) -> i8 {
    match o {
        Operand::Var(_) => 0,
        Operand::Const(_) => 1,
    }
}

/// The wire value of an operand: the variable's stable address, or the
/// constant itself.
pub open spec fn spec_operand_val(o: Operand) -> i64 {
    match o {
        Operand::Var(a) => a,
        Operand::Const(v) => v,
    }
}

/// One constraint on the wire, under its state's identifier.
pub open spec fn spec_serialize_constraint(id: i64, c: Constraint) -> ConstraintSerialized {
    ConstraintSerialized {
        id,
        left_operand_kind: spec_operand_kind(c.left_operand),
        left_operand_val: spec_operand_val(c.left_operand),
        right_operand_kind: spec_operand_kind(c.right_operand),
        right_operand_val: spec_operand_val(c.right_operand),
        predicate: spec_predicate_to_i8(c.predicate),
    }
}

/// What one state contributes to the wire: a leaf state's constraints in
/// path order, and nothing from an inner state.
pub open spec fn spec_serialize_state(s: State) -> Seq<ConstraintSerialized> {
    if s.is_leaf {
        Seq::new(
            s.path_constraints@.len(),
            |i: int| spec_serialize_constraint(s.id, s.path_constraints@[i]),
        )
    } else {
        Seq::empty()
    }
}

/// What a list of states contributes to the wire, in order.
pub open spec fn spec_serialize_states(ss: Seq<State>) -> Seq<ConstraintSerialized>
    decreases ss.len(),
{
    if ss.len() == 0 {
        Seq::empty()
    } else {
        spec_serialize_states(ss.drop_last()) + spec_serialize_state(ss.last())
    }
}

fn operand_kind(o: Operand) -> (r: i8)
    ensures
        r == spec_operand_kind(o),
{
    match o {
        Operand::Var(_) => VAR_KIND,
        Operand::Const(_) => CONST_KIND,
    }
}

fn operand_val(o: Operand) -> (r: i64)
    ensures
        r == spec_operand_val(o),
{
    match o {
        Operand::Var(a) => a,
        Operand::Const(v) => v,
    }
}

/// Serializes the constraints of every leaf state, grouped by state and in
/// path order, for the module constructor to hand to the symbolic runtime.
#[verifier::loop_isolation(false)]
pub fn serialize_constraints(states: &Vec<State>) -> (r: Vec<ConstraintSerialized>)
    ensures
        r@ == spec_serialize_states(states@),
{
    let mut out: Vec<ConstraintSerialized> = Vec::new();
    let mut i: usize = 0;
    proof {
        assert(states@.subrange(0, 0) =~= Seq::<State>::empty());
    }
    while i < states.len()
        invariant
            i <= states@.len(),
            out@ == spec_serialize_states(states@.subrange(0, i as int)),
        decreases states@.len() - i,
    {
        let state = &states[i];
        let ghost before = out@;
        if state.is_leaf {
            let mut j: usize = 0;
            while j < state.path_constraints.len()
                invariant
                    j <= state.path_constraints@.len(),
                    out@ == before + Seq::new(
                        j as nat,
                        |k: int| spec_serialize_constraint(
                            state.id,
                            state.path_constraints@[k],
                        ),
                    ),
                decreases state.path_constraints@.len() - j,
            {
                let c = state.path_constraints[j];
                out.push(
                    ConstraintSerialized::new(
                        state.id,
                        operand_kind(c.left_operand),
                        operand_val(c.left_operand),
                        operand_kind(c.right_operand),
                        operand_val(c.right_operand),
                        c.predicate_to_i8(),
                    ),
                );
                proof {
                    assert(out@ =~= before + Seq::new(
                        (j + 1) as nat,
                        |k: int| spec_serialize_constraint(
                            state.id,
                            state.path_constraints@[k],
                        ),
                    ));
                }
                j += 1;
            }
        }
        proof {
            assert(states@.subrange(0, i + 1).drop_last() =~= states@.subrange(0, i as int));
            assert(states@.subrange(0, i + 1).last() == states@[i as int]);
            assert(out@ =~= spec_serialize_states(states@.subrange(0, i + 1)));
        }
        i += 1;
    }
    proof {
        assert(states@.subrange(0, states@.len() as int) =~= states@);
    }
    out
}

} // verus!
