use dynanalysis::instrument::ir::{
    block_compare, coverage_pass, insertion_point, plan_alloca, race_pass, rebuild_ctors,
    CtorEntry, ModelBlock, ModelInstr, ModelOp, ModelOperand,
};
use dynanalysis::instrument::race::{candidate_lockset_for, AccessOperation, RaceEvent};
use dynanalysis::instrument::symbolic::{Operand, Predicate};

fn instr(opcode: ModelOp, line: Option<u32>) -> ModelInstr {
    ModelInstr {
        opcode,
        line,
        dest: 0,
        operands: Vec::new(),
        callee: None,
        predicate: None,
    }
}

#[test]
fn test_coverage_pass_plan() {
    // block 0: lines {3, 4}, conditionally branching to blocks 1 and 2
    let mut br = instr(ModelOp::Br, Some(4));
    br.operands = vec![ModelOperand::Block(1), ModelOperand::Block(2)];
    let blocks = vec![
        ModelBlock {
            skip: false,
            instrs: vec![instr(ModelOp::Load, Some(4)), instr(ModelOp::Store, Some(3)), br],
        },
        ModelBlock {
            skip: false,
            instrs: vec![instr(ModelOp::Phi, None), instr(ModelOp::Call, Some(7))],
        },
        ModelBlock {
            skip: true,
            instrs: vec![instr(ModelOp::Call, Some(99))],
        },
    ];
    let plan = coverage_pass(&blocks, 2);
    assert_eq!(plan.funcs, vec![2]);
    assert_eq!(plan.hit_batches.len(), 3);
    assert_eq!(plan.hit_batches[0], vec![3, 4]);
    assert_eq!(plan.hit_batches[1], vec![7]);
    // the skipped block gets no call
    assert!(plan.hit_batches[2].is_empty());
    // the pair records the targets' first lines: block 1 starts at 7,
    // block 2 at 99
    assert_eq!(plan.brs, vec![7, 99]);
    assert_eq!(plan.lines, vec![3, 4, 7]);
}

#[test]
fn test_race_pass_events() {
    let mut lock_call = instr(ModelOp::Call, Some(10));
    lock_call.callee = Some("pthread_mutex_lock".to_string());
    lock_call.operands = vec![ModelOperand::Value(99)];
    let mut store = instr(ModelOp::Store, Some(11));
    store.operands = vec![ModelOperand::Value(5), ModelOperand::Value(200)];
    let mut unlock_call = instr(ModelOp::Call, Some(12));
    unlock_call.callee = Some("pthread_mutex_unlock".to_string());
    unlock_call.operands = vec![ModelOperand::Value(99)];
    let mut other_load = instr(ModelOp::Load, Some(13));
    other_load.operands = vec![ModelOperand::Value(42)];

    let blocks = vec![ModelBlock {
        skip: false,
        instrs: vec![lock_call, store, unlock_call, other_load],
    }];
    let globals = vec![200];
    let events = race_pass(&blocks, &globals);
    assert_eq!(events.len(), 3);
    assert!(matches!(events[0], RaceEvent::LockOp(l) if l.lock == 99));
    assert!(matches!(
        events[1],
        RaceEvent::Access {
            global_var_id: 200,
            op: AccessOperation::Write,
            line: 11,
        }
    ));
    assert!(matches!(events[2], RaceEvent::LockOp(l) if l.lock == 99));
}

#[test]
fn test_block_compare_resolves_through_load() {
    // load the symbolic variable, compare it with a constant, branch
    let mut load = instr(ModelOp::Load, Some(20));
    load.dest = 7;
    load.operands = vec![ModelOperand::Value(1000)];
    let mut cmp = instr(ModelOp::ICmp, Some(21));
    cmp.operands = vec![ModelOperand::Value(7), ModelOperand::ConstInt(5)];
    cmp.predicate = Some(Predicate::Slt);
    let mut br = instr(ModelOp::Br, Some(21));
    br.operands = vec![ModelOperand::Block(1), ModelOperand::Block(2)];

    let block = ModelBlock {
        skip: false,
        instrs: vec![load, cmp, br],
    };
    let (constraint, t, f) = block_compare(&block, &vec![1000]).unwrap();
    assert_eq!(constraint.left_operand, Operand::Var(1000));
    assert_eq!(constraint.right_operand, Operand::Const(5));
    assert_eq!(constraint.predicate, Predicate::Slt);
    assert_eq!((t, f), (1, 2));

    // with an unknown pointer the walk resolves nothing and no state forks
    assert!(block_compare(&block, &vec![555]).is_none());
}

#[test]
fn test_rebuild_ctors_appends_lowest_priority() {
    let existing = vec![CtorEntry {
        priority: 65535,
        func: 1,
    }];
    let rebuilt = rebuild_ctors(&existing, 2);
    assert_eq!(rebuilt.len(), 2);
    assert_eq!(rebuilt[0], existing[0]);
    assert_eq!(
        rebuilt[1],
        CtorEntry {
            priority: u32::MAX,
            func: 2
        }
    );
}

#[test]
fn test_plan_alloca() {
    let plan = plan_alloca(10, 4);
    assert_eq!(plan.padded_len, 26);
    assert_eq!(plan.usable_offset, 8);
}
#[test]
fn test_candidate_lockset_snapshot() {
    let blocks = vec![ModelBlock {
        skip: false,
        instrs: {
            let mut lock_a = instr(ModelOp::Call, Some(1));
            lock_a.callee = Some("pthread_mutex_lock".to_string());
            lock_a.operands = vec![ModelOperand::Value(7)];
            let mut store = instr(ModelOp::Store, Some(2));
            store.operands = vec![ModelOperand::Value(5), ModelOperand::Value(300)];
            let mut unlock_a = instr(ModelOp::Call, Some(3));
            unlock_a.callee = Some("pthread_mutex_unlock".to_string());
            unlock_a.operands = vec![ModelOperand::Value(7)];
            vec![lock_a, store, unlock_a]
        },
    }];
    let events = race_pass(&blocks, &vec![300]);
    // the last access to the global saw lock 7 held
    let candidate = candidate_lockset_for(&events, 300).unwrap();
    assert_eq!(candidate.as_vec(), &vec![7]);
    // a global never accessed registers nothing
    assert!(candidate_lockset_for(&events, 400).is_none());
}
#[test]
fn test_insertion_point_past_phis() {
    let block = ModelBlock {
        skip: false,
        instrs: vec![
            instr(ModelOp::LandingPad, None),
            instr(ModelOp::Phi, None),
            instr(ModelOp::Load, Some(4)),
        ],
    };
    assert_eq!(insertion_point(&block), 2);
    let plain = ModelBlock {
        skip: false,
        instrs: vec![instr(ModelOp::Store, Some(9))],
    };
    assert_eq!(insertion_point(&plain), 0);
}

