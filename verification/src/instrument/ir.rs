//! The engine's view of an IR module, as plain values: blocks of
//! instructions with opcodes, debug lines, defined-value and operand
//! identities, and branch targets as block indices. The pass drivers below
//! turn this view into instrumentation plans — what each pass decides,
//! separated from the IR mutation that carries the plan out.

use vstd::prelude::*;
use crate::covmap::{insert_unique_sorted, set_of, strictly_sorted};
use crate::instrument::coverage::spec_switch_pairs;

verus! {

/// The opcodes the engine inspects.
#[derive(Debug, PartialEq, Eq, Structural, Clone, Copy)]
pub enum ModelOp {
    Load,
    Store,
    Alloca,
    Call,
    GetElementPtr,
    Br,
    Switch,
    Invoke,
    ICmp,
    LandingPad,
    Phi,
}

/// One operand: a value identity, a signed constant, or a branch-target
/// block index.
#[derive(Debug, PartialEq, Eq, Structural, Clone, Copy)]
pub enum ModelOperand {
    Value(i64),
    ConstInt(i64),
    Block(usize),
}

/// One instruction of the engine's view; a call also carries its callee's
/// name, and a comparison its predicate.
pub struct ModelInstr {
    pub opcode: ModelOp,
    pub line: Option<u32>,
    pub dest: i64,
    pub operands: Vec<ModelOperand>,
    pub callee: Option<String>,
    pub predicate: Option<crate::instrument::symbolic::Predicate>,
}

/// One basic block: whether the skip policy excludes it (its first
/// instruction's file differs from the module's), and its instructions.
pub struct ModelBlock {
    pub skip: bool,
    pub instrs: Vec<ModelInstr>,
}

/// The first debug line a block's instructions carry, as the branch
/// recorder walks a target block.
pub open spec fn spec_first_line(instrs: Seq<ModelInstr>) -> Option<u32>
    decreases instrs.len(),
{
    if instrs.len() == 0 {
        None
    } else {
        match instrs[0].line {
            Some(l) => Some(l),
            None => spec_first_line(instrs.drop_first()),
        }
    }
}

/// Walks a block until an instruction carries a debug line.
pub fn block_first_line(block: &ModelBlock) -> (r: Option<u32>)
    ensures
        r == spec_first_line(block.instrs@),
{
    let mut i: usize = 0;
    proof {
        assert(block.instrs@.skip(0) =~= block.instrs@);
    }
    while i < block.instrs.len()
        invariant
            i <= block.instrs@.len(),
            spec_first_line(block.instrs@) == spec_first_line(block.instrs@.skip(i as int)),
        decreases block.instrs@.len() - i,
    {
        proof {
            assert(block.instrs@.skip(i as int).drop_first() =~= block.instrs@.skip(i + 1));
        }
        match block.instrs[i].line {
            Some(l) => {
                return Some(l);
            },
            None => {},
        }
        i += 1;
    }
    proof {
        assert(block.instrs@.skip(block.instrs@.len() as int).len() == 0);
    }
    None
}

/// The set of debug lines a block's instructions touch.
pub open spec fn spec_block_lines(b: ModelBlock) -> Set<u32> {
    Set::new(
        |l: u32|
            exists|i: int|
                0 <= i < b.instrs@.len() && (#[trigger] b.instrs@[i]).line == Some(l),
    )
}

/// The sibling pairs one block's terminator contributes to the branch list:
/// a conditional branch records its true and false targets' first lines, a
/// switch records its rotated case pairs, and anything else records
/// nothing. Targets without a debug line are passed over.
pub open spec fn spec_block_br_pairs(blocks: Seq<ModelBlock>, b: ModelBlock) -> Seq<u32> {
    if b.skip || b.instrs@.len() == 0 {
        Seq::empty()
    } else {
        let term = b.instrs@.last();
        if term.opcode is Br {
            if term.operands@.len() == 2 {
                match (spec_target_line(blocks, term.operands@[0]), spec_target_line(
                    blocks,
                    term.operands@[1],
                )) {
                    (Some(lt), Some(lf)) => seq![lt, lf],
                    _ => Seq::empty(),
                }
            } else {
                Seq::empty()
            }
        } else if term.opcode is Switch {
            let case_lines = spec_case_lines(blocks, term.operands@);
            if case_lines.len() > 0 {
                spec_switch_pairs(case_lines)
            } else {
                Seq::empty()
            }
        } else {
            Seq::empty()
        }
    }
}

/// The first line of a branch-target operand, when it names a block in
/// range that carries one.
pub open spec fn spec_target_line(blocks: Seq<ModelBlock>, op: ModelOperand) -> Option<u32> {
    match op {
        ModelOperand::Block(t) => if t < blocks.len() {
            spec_first_line(blocks[t as int].instrs@)
        } else {
            None
        },
        _ => None,
    }
}

/// The first lines of a switch's targets, in order, keeping only the
/// targets that carry one.
pub open spec fn spec_case_lines(blocks: Seq<ModelBlock>, targets: Seq<ModelOperand>) -> Seq<u32>
    decreases targets.len(),
{
    if targets.len() == 0 {
        Seq::empty()
    } else {
        let rest = spec_case_lines(blocks, targets.drop_last());
        match spec_target_line(blocks, targets.last()) {
            Some(l) => rest.push(l),
            None => rest,
        }
    }
}

/// The branch list of a whole function: each block's pairs, in block order.
pub open spec fn spec_br_list(blocks: Seq<ModelBlock>, upto: int) -> Seq<u32>
    decreases upto,
{
    if upto <= 0 {
        Seq::empty()
    } else {
        spec_br_list(blocks, upto - 1) + spec_block_br_pairs(blocks, blocks[upto - 1])
    }
}

/// What the coverage pass plans for one function: a hit batch per block
/// (empty for a skipped block, which gets no call), the function-start
/// line, the branch sibling pairs, and the function's line set for the
/// module accumulator.
pub struct CoveragePlan {
    pub hit_batches: Vec<Vec<u32>>,
    pub funcs: Vec<u32>,
    pub brs: Vec<u32>,
    pub lines: Vec<u32>,
}

/// Collects a block's lines, sorted and deduplicated.
fn collect_block_lines(block: &ModelBlock) -> (r: Vec<u32>)
    ensures
        strictly_sorted(r@),
        set_of(r@) =~= spec_block_lines(*block),
{
    let mut out: Vec<u32> = Vec::new();
    let mut i: usize = 0;
    while i < block.instrs.len()
        invariant
            i <= block.instrs@.len(),
            strictly_sorted(out@),
            forall|l: u32|
                set_of(out@).contains(l) ==> spec_block_lines(*block).contains(l),
            forall|k: int| #![auto]
                0 <= k < i && block.instrs@[k].line is Some ==> set_of(out@).contains(
                    block.instrs@[k].line->0,
                ),
        decreases block.instrs@.len() - i,
    {
        match block.instrs[i].line {
            Some(l) => {
                insert_unique_sorted(&mut out, l);
            },
            None => {},
        }
        i += 1;
    }
    proof {
        assert forall|l: u32| #[trigger]
            spec_block_lines(*block).contains(l) implies set_of(out@).contains(l) by {
            let k = choose|k: int|
                0 <= k < block.instrs@.len() && (#[trigger] block.instrs@[k]).line == Some(l);
        }
    }
    out
}

/// The coverage pass over one function: for each qualifying block the
/// sorted line batch of a `cov_hit_batch` call, the function's start line
/// for the function list, the branch sibling pairs of every terminator, and
/// the union of block lines for the module's line set.
#[verifier::loop_isolation(false)]
pub fn coverage_pass(blocks: &Vec<ModelBlock>, start_line: u32) -> (r: CoveragePlan)
    ensures
        r.hit_batches@.len() == blocks@.len(),
        forall|b: int|
            0 <= b < blocks@.len() && (#[trigger] blocks@[b]).skip ==> r.hit_batches@[b]@.len()
                == 0,
        forall|b: int|
            0 <= b < blocks@.len() && !(#[trigger] blocks@[b]).skip ==> strictly_sorted(
                r.hit_batches@[b]@,
            ) && set_of(r.hit_batches@[b]@) == spec_block_lines(blocks@[b]),
        r.funcs@ == seq![start_line],
        r.brs@ == spec_br_list(blocks@, blocks@.len() as int),
        strictly_sorted(r.lines@),
        forall|l: u32| #[trigger]
            set_of(r.lines@).contains(l) == exists|b: int|
                0 <= b < blocks@.len() && !(#[trigger] blocks@[b]).skip && spec_block_lines(
                    blocks@[b],
                ).contains(l),
{
    let mut hit_batches: Vec<Vec<u32>> = Vec::new();
    let mut brs: Vec<u32> = Vec::new();
    let mut lines: Vec<u32> = Vec::new();
    let mut b: usize = 0;
    while b < blocks.len()
        invariant
            b <= blocks@.len(),
            hit_batches@.len() == b,
            forall|k: int|
                0 <= k < b && (#[trigger] blocks@[k]).skip ==> hit_batches@[k]@.len() == 0,
            forall|k: int|
                0 <= k < b && !(#[trigger] blocks@[k]).skip ==> strictly_sorted(
                    hit_batches@[k]@,
                ) && set_of(hit_batches@[k]@) == spec_block_lines(blocks@[k]),
            brs@ == spec_br_list(blocks@, b as int),
            strictly_sorted(lines@),
            forall|l: u32| #[trigger]
                set_of(lines@).contains(l) == exists|k: int|
                    0 <= k < b && !(#[trigger] blocks@[k]).skip && spec_block_lines(
                        blocks@[k],
                    ).contains(l),
        decreases blocks@.len() - b,
    {
        let ghost lines_before = lines@;
        if blocks[b].skip {
            hit_batches.push(Vec::new());
        } else {
            let batch = collect_block_lines(&blocks[b]);
            let mut t: usize = 0;
            while t < batch.len()
                invariant
                    t <= batch@.len(),
                    strictly_sorted(lines@),
                    forall|l: u32| #[trigger]
                        set_of(lines@).contains(l) == (set_of(lines_before).contains(l) || exists|
                            j: int,
                        |
                            0 <= j < t && #[trigger] batch@[j] == l),
                decreases batch@.len() - t,
            {
                let l = batch[t];
                insert_unique_sorted(&mut lines, l);
                proof {
                    assert forall|x: u32| #[trigger]
                        set_of(lines@).contains(x) == (set_of(lines_before).contains(x) || exists|
                            j: int,
                        |
                            0 <= j < t + 1 && #[trigger] batch@[j] == x) by {
                        if x == l {
                            assert(batch@[t as int] == x);
                        }
                    }
                }
                t += 1;
            }
            hit_batches.push(batch);
            append_block_brs(&mut brs, blocks, b);
            proof {
                assert(brs@ =~= spec_br_list(blocks@, b + 1));
                assert forall|l: u32| #[trigger]
                    set_of(lines@).contains(l) == (set_of(lines_before).contains(l)
                        || spec_block_lines(blocks@[b as int]).contains(l)) by {
                    assert(set_of(hit_batches@[b as int]@) == spec_block_lines(
                        blocks@[b as int],
                    ));
                }
            }
        }
        proof {
            if blocks@[b as int].skip {
                assert(spec_block_br_pairs(blocks@, blocks@[b as int]) =~= Seq::<u32>::empty());
                assert(brs@ =~= spec_br_list(blocks@, b + 1));
            }
        }
        b += 1;
    }
    let mut funcs: Vec<u32> = Vec::new();
    funcs.push(start_line);
    proof {
        assert(funcs@ =~= seq![start_line]);
    }
    CoveragePlan { hit_batches, funcs, brs, lines }
}

/// Appends one block's branch sibling pairs.
#[verifier::loop_isolation(false)]
fn append_block_brs(brs: &mut Vec<u32>, blocks: &Vec<ModelBlock>, b: usize)
    requires
        b < blocks@.len(),
    ensures
        final(brs)@ == old(brs)@ + spec_block_br_pairs(blocks@, blocks@[b as int]),
{
    let ghost target = spec_block_br_pairs(blocks@, blocks@[b as int]);
    if blocks[b].skip || blocks[b].instrs.len() == 0 {
        proof {
            assert(old(brs)@ + target =~= old(brs)@);
        }
        return ;
    }
    let term_idx = blocks[b].instrs.len() - 1;
    let opcode = blocks[b].instrs[term_idx].opcode;
    match opcode {
        ModelOp::Br => {
            if blocks[b].instrs[term_idx].operands.len() == 2 {
                let t_line = target_line(blocks, &blocks[b].instrs[term_idx].operands[0]);
                let f_line = target_line(blocks, &blocks[b].instrs[term_idx].operands[1]);
                match (t_line, f_line) {
                    (Some(lt), Some(lf)) => {
                        crate::instrument::coverage::record_br(brs, lt, lf);
                        proof {
                            assert(brs@ =~= old(brs)@ + target);
                        }
                    },
                    _ => {
                        proof {
                            assert(old(brs)@ + target =~= old(brs)@);
                        }
                    },
                }
            } else {
                proof {
                    assert(old(brs)@ + target =~= old(brs)@);
                }
            }
        },
        ModelOp::Switch => {
            let case_lines = collect_case_lines(blocks, &blocks[b].instrs[term_idx].operands);
            if case_lines.len() > 0 {
                crate::instrument::coverage::record_switch(brs, &case_lines);
            } else {
                proof {
                    assert(old(brs)@ + target =~= old(brs)@);
                }
            }
        },
        _ => {
            proof {
                assert(old(brs)@ + target =~= old(brs)@);
            }
        },
    }
}

/// The first line of a branch-target operand.
fn target_line(blocks: &Vec<ModelBlock>, op: &ModelOperand) -> (r: Option<u32>)
    ensures
        r == spec_target_line(blocks@, *op),
{
    match op {
        ModelOperand::Block(t) => {
            if *t < blocks.len() {
                block_first_line(&blocks[*t])
            } else {
                None
            }
        },
        _ => None,
    }
}

/// The first lines of a switch's targets, keeping only those that carry
/// one.
#[verifier::loop_isolation(false)]
fn collect_case_lines(blocks: &Vec<ModelBlock>, targets: &Vec<ModelOperand>) -> (r: Vec<u32>)
    ensures
        r@ == spec_case_lines(blocks@, targets@),
{
    let mut out: Vec<u32> = Vec::new();
    let mut i: usize = 0;
    proof {
        assert(targets@.subrange(0, 0) =~= Seq::<ModelOperand>::empty());
    }
    while i < targets.len()
        invariant
            i <= targets@.len(),
            out@ == spec_case_lines(blocks@, targets@.subrange(0, i as int)),
        decreases targets@.len() - i,
    {
        proof {
            assert(targets@.subrange(0, i + 1).drop_last() =~= targets@.subrange(0, i as int));
            assert(targets@.subrange(0, i + 1).last() == targets@[i as int]);
        }
        match target_line(blocks, &targets[i]) {
            Some(l) => {
                out.push(l);
            },
            None => {},
        }
        i += 1;
    }
    proof {
        assert(targets@.subrange(0, targets@.len() as int) =~= targets@);
    }
    out
}


/// Whether a list holds an identifier.
fn contains_i64(v: &Vec<i64>, x: i64) -> (r: bool)
    ensures
        r == v@.contains(x),
{
    let mut i: usize = 0;
    while i < v.len()
        invariant
            i <= v@.len(),
            forall|k: int| 0 <= k < i ==> v@[k] != x,
        decreases v@.len() - i,
    {
        if v[i] == x {
            proof {
                assert(v@[i as int] == x);
            }
            return true;
        }
        i += 1;
    }
    false
}

/// What one instruction contributes to the race pass's event stream: a
/// lock or unlock call on its first operand, or an access to a global
/// integer variable — a load reads its first operand, a store writes its
/// second. An instruction without a debug line reports line zero.
pub open spec fn spec_race_instr_events(globals: Seq<i64>, it: ModelInstr) -> Seq<
    crate::instrument::race::RaceEvent,
> {
    let line = match it.line {
        Some(l) => l as i64,
        None => 0,
    };
    match it.opcode {
        ModelOp::Call => match it.callee {
            Some(name) => if it.operands@.len() >= 1 && is_value_op(it.operands@[0]) {
                if name@ == "pthread_mutex_lock"@ {
                    seq![
                        crate::instrument::race::RaceEvent::LockOp(
                            crate::instrument::race::Lock {
                                typ: crate::instrument::race::LockTyp::Lock,
                                lock: spec_first_value(it.operands@),
                            },
                        ),
                    ]
                } else if name@ == "pthread_mutex_unlock"@ {
                    seq![
                        crate::instrument::race::RaceEvent::LockOp(
                            crate::instrument::race::Lock {
                                typ: crate::instrument::race::LockTyp::UnLock,
                                lock: spec_first_value(it.operands@),
                            },
                        ),
                    ]
                } else {
                    Seq::empty()
                }
            } else {
                Seq::empty()
            },
            None => Seq::empty(),
        },
        ModelOp::Load => if it.operands@.len() >= 1 && is_value_op(it.operands@[0])
            && globals.contains(spec_first_value(it.operands@)) {
            seq![
                crate::instrument::race::RaceEvent::Access {
                    global_var_id: spec_first_value(it.operands@),
                    op: crate::instrument::race::AccessOperation::Read,
                    line,
                },
            ]
        } else {
            Seq::empty()
        },
        ModelOp::Store => if it.operands@.len() >= 2 && is_value_op(it.operands@[1])
            && globals.contains(spec_second_value(it.operands@)) {
            seq![
                crate::instrument::race::RaceEvent::Access {
                    global_var_id: spec_second_value(it.operands@),
                    op: crate::instrument::race::AccessOperation::Write,
                    line,
                },
            ]
        } else {
            Seq::empty()
        },
        _ => Seq::empty(),
    }
}

/// Whether an operand is a value identity.
pub open spec fn is_value_op(o: ModelOperand) -> bool {
    match o {
        ModelOperand::Value(_) => true,
        _ => false,
    }
}

/// The value identity of the first operand.
pub open spec fn spec_first_value(ops: Seq<ModelOperand>) -> i64 {
    match ops[0] {
        ModelOperand::Value(v) => v,
        _ => 0,
    }
}

/// The value identity of the second operand.
pub open spec fn spec_second_value(ops: Seq<ModelOperand>) -> i64 {
    match ops[1] {
        ModelOperand::Value(v) => v,
        _ => 0,
    }
}

/// The event stream of a run of instructions.
pub open spec fn spec_race_events(globals: Seq<i64>, instrs: Seq<ModelInstr>) -> Seq<
    crate::instrument::race::RaceEvent,
>
    decreases instrs.len(),
{
    if instrs.len() == 0 {
        Seq::empty()
    } else {
        spec_race_events(globals, instrs.drop_last()) + spec_race_instr_events(
            globals,
            instrs.last(),
        )
    }
}

/// The event stream of a whole function, block by block.
pub open spec fn spec_race_events_blocks(globals: Seq<i64>, blocks: Seq<ModelBlock>, upto: int) -> Seq<
    crate::instrument::race::RaceEvent,
>
    decreases upto,
{
    if upto <= 0 {
        Seq::empty()
    } else {
        spec_race_events_blocks(globals, blocks, upto - 1) + spec_race_events(
            globals,
            blocks[upto - 1].instrs@,
        )
    }
}

/// The race pass's scan of one function: the stream of lock operations and
/// global accesses, in program order. The runtime-call plan follows this
/// stream one to one — an `update_lock_held` after each lock event, an
/// `update_shared_mem` after each access — and the live locks at any access
/// are `live_locks_after` of the stream before it.
#[verifier::loop_isolation(false)]
pub fn race_pass(blocks: &Vec<ModelBlock>, globals: &Vec<i64>) -> (r: Vec<
    crate::instrument::race::RaceEvent,
>)
    ensures
        r@ == spec_race_events_blocks(globals@, blocks@, blocks@.len() as int),
{
    let mut out: Vec<crate::instrument::race::RaceEvent> = Vec::new();
    let mut b: usize = 0;
    while b < blocks.len()
        invariant
            b <= blocks@.len(),
            out@ == spec_race_events_blocks(globals@, blocks@, b as int),
        decreases blocks@.len() - b,
    {
        let block = &blocks[b];
        let mut i: usize = 0;
        let ghost at_block_entry = out@;
        proof {
            assert(block.instrs@.subrange(0, 0) =~= Seq::<ModelInstr>::empty());
        }
        while i < block.instrs.len()
            invariant
                i <= block.instrs@.len(),
                block == blocks@[b as int],
                out@ == at_block_entry + spec_race_events(
                    globals@,
                    block.instrs@.subrange(0, i as int),
                ),
            decreases block.instrs@.len() - i,
        {
            proof {
                assert(block.instrs@.subrange(0, i + 1).drop_last() =~= block.instrs@.subrange(
                    0,
                    i as int,
                ));
                assert(block.instrs@.subrange(0, i + 1).last() == block.instrs@[i as int]);
            }
            let it = &block.instrs[i];
            let line: i64 = match it.line {
                Some(l) => l as i64,
                None => 0,
            };
            match it.opcode {
                ModelOp::Call => {
                    match &it.callee {
                        Some(name) => {
                            if it.operands.len() >= 1 {
                                match it.operands[0] {
                                    ModelOperand::Value(lock_id) => {
                                        if crate::instrument::cli::str_eq_str(
                                            name.as_str(),
                                            crate::instrument::names::PTHREAD_MUTEX_LOCK,
                                        ) {
                                            out.push(
                                                crate::instrument::race::RaceEvent::LockOp(
                                                    crate::instrument::race::Lock::new(
                                                        crate::instrument::race::LockTyp::Lock,
                                                        lock_id,
                                                    ),
                                                ),
                                            );
                                        } else if crate::instrument::cli::str_eq_str(
                                            name.as_str(),
                                            crate::instrument::names::PTHREAD_MUTEX_UNLOCK,
                                        ) {
                                            out.push(
                                                crate::instrument::race::RaceEvent::LockOp(
                                                    crate::instrument::race::Lock::new(
                                                        crate::instrument::race::LockTyp::UnLock,
                                                        lock_id,
                                                    ),
                                                ),
                                            );
                                        }
                                    },
                                    _ => {},
                                }
                            }
                        },
                        None => {},
                    }
                },
                ModelOp::Load => {
                    if it.operands.len() >= 1 {
                        match it.operands[0] {
                            ModelOperand::Value(p) => {
                                if contains_i64(globals, p) {
                                    out.push(
                                        crate::instrument::race::RaceEvent::Access {
                                            global_var_id: p,
                                            op: crate::instrument::race::AccessOperation::Read,
                                            line,
                                        },
                                    );
                                }
                            },
                            _ => {},
                        }
                    }
                },
                ModelOp::Store => {
                    if it.operands.len() >= 2 {
                        match it.operands[1] {
                            ModelOperand::Value(p) => {
                                if contains_i64(globals, p) {
                                    out.push(
                                        crate::instrument::race::RaceEvent::Access {
                                            global_var_id: p,
                                            op: crate::instrument::race::AccessOperation::Write,
                                            line,
                                        },
                                    );
                                }
                            },
                            _ => {},
                        }
                    }
                },
                _ => {},
            }
            proof {
                assert(out@ =~= at_block_entry + spec_race_events(
                    globals@,
                    block.instrs@.subrange(0, i + 1),
                ));
            }
            i += 1;
        }
        proof {
            assert(block.instrs@.subrange(0, block.instrs@.len() as int) =~= block.instrs@);
            assert(out@ =~= spec_race_events_blocks(globals@, blocks@, b + 1));
        }
        b += 1;
    }
    out
}

/// One entry of the module's global constructor array.
#[derive(Debug, PartialEq, Eq, Structural, Clone, Copy)]
pub struct CtorEntry {
    pub priority: u32,
    pub func: i64,
}

/// Rebuilds the constructor array as a pass registers its module
/// initializer: the existing entries are re-emitted in order and the new
/// constructor is appended with the lowest priority; the array keeps its
/// appending linkage.
pub fn rebuild_ctors(existing: &Vec<CtorEntry>, constructor: i64) -> (r: Vec<CtorEntry>)
    ensures
        r@ == existing@.push(CtorEntry { priority: u32::MAX, func: constructor }),
{
    let mut out: Vec<CtorEntry> = Vec::new();
    let mut i: usize = 0;
    proof {
        assert(existing@.subrange(0, 0) =~= Seq::<CtorEntry>::empty());
        assert(out@ =~= existing@.subrange(0, 0));
    }
    while i < existing.len()
        invariant
            i <= existing@.len(),
            out@ == existing@.subrange(0, i as int),
        decreases existing@.len() - i,
    {
        let entry = existing[i];
        out.push(entry);
        proof {
            assert(out@ =~= existing@.subrange(0, i + 1));
        }
        i += 1;
    }
    proof {
        assert(existing@.subrange(0, existing@.len() as int) =~= existing@);
    }
    out.push(CtorEntry { priority: u32::MAX, func: constructor });
    out
}

/// The rewrite the ASAN pass plans for one `[N x T]` stack allocation: the
/// padded element count and where the usable region starts inside it.
pub struct AllocaPlan {
    pub padded_len: u64,
    pub usable_offset: u64,
}

/// Plans one stack-allocation rewrite.
pub fn plan_alloca(num_elems: u64, elem_width: u64) -> (r: AllocaPlan)
    requires
        elem_width >= 1,
        num_elems + 64 <= u64::MAX,
    ensures
        r.padded_len == crate::instrument::asan::spec_padded_alloca_len(
            num_elems as int,
            elem_width as int,
        ),
        r.usable_offset == 32 as int / elem_width as int,
{
    AllocaPlan {
        padded_len: crate::instrument::asan::padded_alloca_len(num_elems, elem_width),
        usable_offset: crate::instrument::asan::usable_elem_offset(elem_width),
    }
}

/// How the symbolic pass resolves one comparison operand: a constant is
/// itself; a value is traced backward from the comparison through the
/// block's instructions until a load, whose pointer must be a known
/// symbolic address — calls and arithmetic on the way are not modeled, and
/// anything else resolves to nothing.
pub open spec fn spec_resolve_operand(
    instrs: Seq<ModelInstr>,
    pos: int,
    sym_addrs: Seq<i64>,
    op: ModelOperand,
) -> Option<crate::instrument::symbolic::Operand>
    decreases pos + 1,
{
    match op {
        ModelOperand::ConstInt(v) => Some(crate::instrument::symbolic::Operand::Const(v)),
        ModelOperand::Block(_) => None,
        ModelOperand::Value(_) => if pos < 0 {
            None
        } else if instrs[pos].opcode is Load {
            if instrs[pos].operands@.len() >= 1 && is_value_op(instrs[pos].operands@[0])
                && sym_addrs.contains(spec_first_value(instrs[pos].operands@)) {
                Some(
                    crate::instrument::symbolic::Operand::Var(
                        spec_first_value(instrs[pos].operands@),
                    ),
                )
            } else {
                None
            }
        } else {
            spec_resolve_operand(instrs, pos - 1, sym_addrs, op)
        },
    }
}

/// Resolves one comparison operand by the backward walk, starting just
/// before position `pos`.
#[verifier::loop_isolation(false)]
pub fn resolve_operand(
    instrs: &Vec<ModelInstr>,
    pos: usize,
    sym_addrs: &Vec<i64>,
    op: ModelOperand,
) -> (r: Option<crate::instrument::symbolic::Operand>)
    requires
        pos < instrs@.len(),
    ensures
        r == spec_resolve_operand(instrs@, pos as int, sym_addrs@, op),
{
    match op {
        ModelOperand::ConstInt(v) => Some(crate::instrument::symbolic::Operand::Const(v)),
        ModelOperand::Block(_) => None,
        ModelOperand::Value(_) => {
            let mut cur = pos;
            loop
                invariant
                    cur <= pos < instrs@.len(),
                    spec_resolve_operand(instrs@, pos as int, sym_addrs@, op)
                        == spec_resolve_operand(instrs@, cur as int, sym_addrs@, op),
                decreases cur,
            {
                match instrs[cur].opcode {
                    ModelOp::Load => {
                        if instrs[cur].operands.len() >= 1 {
                            match instrs[cur].operands[0] {
                                ModelOperand::Value(ptr) => {
                                    if contains_i64(sym_addrs, ptr) {
                                        return Some(
                                            crate::instrument::symbolic::Operand::Var(ptr),
                                        );
                                    } else {
                                        return None;
                                    }
                                },
                                _ => {
                                    return None;
                                },
                            }
                        } else {
                            return None;
                        }
                    },
                    _ => {
                        if cur == 0 {
                            return None;
                        }
                        cur -= 1;
                    },
                }
            }
        },
    }
}


/// The block index a branch-target operand names, when it is one.
pub open spec fn spec_block_target(o: ModelOperand) -> usize {
    match o {
        ModelOperand::Block(t) => t,
        _ => 0,
    }
}

/// Whether an operand is a branch target.
pub open spec fn is_block_op(o: ModelOperand) -> bool {
    match o {
        ModelOperand::Block(_) => true,
        _ => false,
    }
}

/// What the symbolic pass finds in one block, scanning from position `i`:
/// the first comparison immediately followed by a conditional branch whose
/// operands both resolve with at least one symbolic variable, together with
/// the branch's true and false targets. A pair that does not resolve, or
/// compares two constants, is passed over — a block has at most one
/// terminator, so at most one pair ever forks the state.
pub open spec fn spec_block_compare(
    instrs: Seq<ModelInstr>,
    sym_addrs: Seq<i64>,
    i: int,
) -> Option<(crate::instrument::symbolic::Constraint, usize, usize)>
    decreases instrs.len() - i,
{
    if i < 0 || i + 1 >= instrs.len() {
        None
    } else if instrs[i].opcode is ICmp && instrs[i].predicate is Some && instrs[i].operands@.len()
        >= 2 && instrs[i + 1].opcode is Br && instrs[i + 1].operands@.len() == 2 && is_block_op(
        instrs[i + 1].operands@[0],
    ) && is_block_op(instrs[i + 1].operands@[1]) {
        let left = spec_resolve_operand(instrs, i, sym_addrs, instrs[i].operands@[0]);
        let right = spec_resolve_operand(instrs, i, sym_addrs, instrs[i].operands@[1]);
        match (left, right) {
            (Some(l), Some(r)) => if (l is Const) && (r is Const) {
                spec_block_compare(instrs, sym_addrs, i + 1)
            } else {
                Some(
                    (
                        crate::instrument::symbolic::Constraint {
                            left_operand: l,
                            right_operand: r,
                            predicate: instrs[i].predicate->0,
                        },
                        spec_block_target(instrs[i + 1].operands@[0]),
                        spec_block_target(instrs[i + 1].operands@[1]),
                    ),
                )
            },
            _ => spec_block_compare(instrs, sym_addrs, i + 1),
        }
    } else {
        spec_block_compare(instrs, sym_addrs, i + 1)
    }
}

/// Finds the comparison of a block that forks the path state: an `ICmp`
/// immediately followed by a conditional branch, both operands resolved by
/// the backward walk and at least one symbolic. Returns the constraint and
/// the true and false target blocks; the caller forks the block's state
/// with `State::fork` and assigns the results to the targets.
#[verifier::loop_isolation(false)]
pub fn block_compare(block: &ModelBlock, sym_addrs: &Vec<i64>) -> (r: Option<
    (crate::instrument::symbolic::Constraint, usize, usize),
>)
    ensures
        r == spec_block_compare(block.instrs@, sym_addrs@, 0),
{
    let n = block.instrs.len();
    if n == 0 {
        return None;
    }
    let mut i: usize = 0;
    while i + 1 < n
        invariant
            i < n == block.instrs@.len(),
            spec_block_compare(block.instrs@, sym_addrs@, 0) == spec_block_compare(
                block.instrs@,
                sym_addrs@,
                i as int,
            ),
        decreases n - i,
    {
        match block.instrs[i].opcode {
            ModelOp::ICmp => {
                if block.instrs[i].predicate.is_some() && block.instrs[i].operands.len() >= 2 {
                    let next_is_cond_br = match block.instrs[i + 1].opcode {
                        ModelOp::Br => {
                            block.instrs[i + 1].operands.len() == 2 && matches!(
                                block.instrs[i + 1].operands[0],
                                ModelOperand::Block(_),
                            ) && matches!(block.instrs[i + 1].operands[1], ModelOperand::Block(_))
                        },
                        _ => false,
                    };
                    if next_is_cond_br {
                        let left = resolve_operand(
                            &block.instrs,
                            i,
                            sym_addrs,
                            block.instrs[i].operands[0],
                        );
                        let right = resolve_operand(
                            &block.instrs,
                            i,
                            sym_addrs,
                            block.instrs[i].operands[1],
                        );
                        match (left, right) {
                            (Some(l), Some(r)) => {
                                if !(l.is_const() && r.is_const()) {
                                    let t = match block.instrs[i + 1].operands[0] {
                                        ModelOperand::Block(t) => t,
                                        _ => 0,
                                    };
                                    let f = match block.instrs[i + 1].operands[1] {
                                        ModelOperand::Block(f) => f,
                                        _ => 0,
                                    };
                                    let predicate = match block.instrs[i].predicate {
                                        Some(p) => p,
                                        None => {
                                            proof {
                                                assert(false);
                                            }
                                            crate::instrument::symbolic::Predicate::Eq
                                        },
                                    };
                                    return Some(
                                        (
                                            crate::instrument::symbolic::Constraint {
                                                left_operand: l,
                                                right_operand: r,
                                                predicate,
                                            },
                                            t,
                                            f,
                                        ),
                                    );
                                }
                            },
                            _ => {},
                        }
                    }
                }
            },
            _ => {},
        }
        i += 1;
    }
    None
}


/// Where a pass inserts a call in a block: past any leading landing-pad and
/// phi instructions, which must stay first in their block.
pub open spec fn spec_insertion_point(instrs: Seq<ModelInstr>, i: int) -> int
    decreases instrs.len() - i,
{
    if i < 0 || i >= instrs.len() {
        instrs.len() as int
    } else if instrs[i].opcode is LandingPad || instrs[i].opcode is Phi {
        spec_insertion_point(instrs, i + 1)
    } else {
        i
    }
}

/// Finds the insertion point of a block.
#[verifier::loop_isolation(false)]
pub fn insertion_point(block: &ModelBlock) -> (r: usize)
    ensures
        r == spec_insertion_point(block.instrs@, 0),
        r <= block.instrs@.len(),
{
    let n = block.instrs.len();
    let mut i: usize = 0;
    while i < n
        invariant
            i <= n == block.instrs@.len(),
            spec_insertion_point(block.instrs@, 0) == spec_insertion_point(
                block.instrs@,
                i as int,
            ),
        decreases n - i,
    {
        match block.instrs[i].opcode {
            ModelOp::LandingPad => {},
            ModelOp::Phi => {},
            _ => {
                return i;
            },
        }
        i += 1;
    }
    n
}

} // verus!
