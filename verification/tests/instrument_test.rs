use dynanalysis::instrument::asan::padded_alloca_len;
use dynanalysis::instrument::cli::ModuleTyp;
use dynanalysis::instrument::coverage::{record_br, record_switch};
use dynanalysis::instrument::names::can_skip_instrument;
use dynanalysis::instrument::race::{live_locks_after, AccessOperation, Lock, LockTyp, RaceEvent};
use dynanalysis::instrument::symbolic::{serialize_constraints, Constraint, Operand, Predicate, State};
use dynanalysis::symbolic::{solution_bytes, solution_for, Solver};
use dynanalysis::fuzz::{should_terminate, TERMINATE_SENTINEL};
use dynanalysis::tools::{extract_filename, valid_compiler, valid_opt_level};

#[test]
fn test_skip_policy() {
    assert!(can_skip_instrument("__cov_hit_batch", true));
    assert!(can_skip_instrument("__asan_mem_check", true));
    assert!(can_skip_instrument("__fuzzer_trace_edge", true));
    assert!(can_skip_instrument("__symbolic_init", true));
    assert!(can_skip_instrument("__race_update_lock_held", true));
    assert!(can_skip_instrument("external_decl", false));
    assert!(!can_skip_instrument("main", true));
}

#[test]
fn test_lock_and_access_encodings() {
    assert_eq!(LockTyp::Lock.i8(), 1);
    assert_eq!(LockTyp::UnLock.i8(), 0);
    assert_eq!(LockTyp::from_i8(1), Some(LockTyp::Lock));
    assert_eq!(LockTyp::from_i8(0), Some(LockTyp::UnLock));
    assert_eq!(LockTyp::from_i8(7), None);
    assert_eq!(AccessOperation::Write.i8(), 1);
    assert_eq!(AccessOperation::Read.i8(), 0);
    assert_eq!(AccessOperation::from_i8(2), None);
}

#[test]
fn test_module_typ_round_trip() {
    for (typ, name) in [
        (ModuleTyp::Coverage, "coverage"),
        (ModuleTyp::Asan, "asan"),
        (ModuleTyp::Fuzz, "fuzz"),
        (ModuleTyp::Race, "race"),
        (ModuleTyp::Symbolic, "symbolic"),
        (ModuleTyp::All, "all"),
    ] {
        assert_eq!(typ.as_str(), name);
        assert_eq!(ModuleTyp::from_str(name).unwrap().as_str(), name);
    }
    assert!(ModuleTyp::from_str("unknown").is_none());
}

#[test]
fn test_branch_pairs() {
    let mut brs = Vec::new();
    record_br(&mut brs, 11, 12);
    assert_eq!(brs, vec![11, 12]);
    // switch labels rotate left by one: the last case pairs with the first
    let mut sw = Vec::new();
    record_switch(&mut sw, &vec![4, 7, 9]);
    assert_eq!(sw, vec![4, 7, 7, 9, 9, 4]);
}

#[test]
fn test_padded_alloca() {
    // [10 x i32]: 32/4 = 8 padding elements on each side
    assert_eq!(padded_alloca_len(10, 4), 26);
    // [5 x i8]: a full redzone of bytes on each side
    assert_eq!(padded_alloca_len(5, 1), 69);
}

#[test]
fn test_constraint_negation() {
    let c = Constraint::new(Operand::Var(100), Operand::Const(5), Predicate::Slt);
    let n = c.negate();
    assert_eq!(n.predicate, Predicate::Sge);
    assert_eq!(n.negate(), c);
    assert_eq!(c.predicate_to_i8(), 2);
    assert!(Operand::Const(5).is_const());
    assert!(!Operand::Var(100).is_const());
}

#[test]
fn test_state_fork() {
    let root = State::new();
    let mut counter: i64 = 0;
    let c = Constraint::new(Operand::Var(1), Operand::Const(2), Predicate::Eq);
    let (t, f) = root.fork(c, &mut counter);
    assert_eq!(t.id, 1);
    assert_eq!(f.id, 2);
    assert_eq!(counter, 2);
    assert_eq!(t.path_constraints[0].predicate, Predicate::Eq);
    assert_eq!(f.path_constraints[0].predicate, Predicate::Ne);
    let c2 = Constraint::new(Operand::Var(1), Operand::Const(9), Predicate::Sgt);
    let (tt, tf) = t.fork(c2, &mut counter);
    assert_eq!((tt.id, tf.id), (3, 4));
    assert_eq!(tt.path_constraints.len(), 2);
    assert_eq!(tf.path_constraints[1].predicate, Predicate::Sle);
}

#[test]
fn test_solver_store() {
    let mut solver = Solver::new();
    solver.add_constraint(3, 0, 100, 1, 5, 2);
    solver.add_constraint(3, 0, 100, 1, 9, 4);
    solver.add_constraint(4, 0, 100, 1, 5, 3);
    assert_eq!(solver.constraints_of(3).unwrap().len(), 2);
    assert_eq!(solver.constraints_of(4).unwrap().len(), 1);
    assert!(solver.constraints_of(5).is_none());
    assert_eq!(solver.constraints_of(3).unwrap()[1].predicate, 4);
}

#[test]
fn test_solution_write_back() {
    let solutions = vec![(100, 42), (200, -1)];
    assert_eq!(solution_for(&solutions, 100), Some(42));
    assert_eq!(solution_for(&solutions, 200), Some(-1));
    assert_eq!(solution_for(&solutions, 300), None);
    assert_eq!(solution_bytes(1, 42), vec![42]);
    assert_eq!(solution_bytes(4, -1), vec![0xFF, 0xFF, 0xFF, 0xFF]);
    assert_eq!(solution_bytes(8, 1), vec![1, 0, 0, 0, 0, 0, 0, 0]);
}

#[test]
fn test_build_arg_validation() {
    assert!(valid_opt_level("O0"));
    assert!(valid_opt_level("O3"));
    assert!(!valid_opt_level("O4"));
    assert!(valid_compiler("clang"));
    assert!(valid_compiler("clang++"));
    assert!(!valid_compiler("gcc"));
}

#[test]
fn test_extract_filename() {
    assert_eq!(extract_filename("dir/sub/prog.c"), "prog.c");
    assert_eq!(extract_filename("prog.c"), "prog.c");
    // trailing slashes are ignored, as the underlying path handling does
    assert_eq!(extract_filename("dir/sub/"), "sub");
    assert_eq!(extract_filename("/"), "");
    assert_eq!(extract_filename(".."), "");
}

#[test]
fn test_serialize_leaf_constraints() {
    let root = State::new();
    let mut counter: i64 = 0;
    let c = Constraint::new(Operand::Var(100), Operand::Const(5), Predicate::Slt);
    let (mut t, f) = root.fork(c, &mut counter);
    t.is_leaf = true;
    // only the leaf state's constraints reach the wire
    let serialized = serialize_constraints(&vec![t, f]);
    assert_eq!(serialized.len(), 1);
    assert_eq!(serialized[0].id, 1);
    assert_eq!(serialized[0].left_operand_kind, 0);
    assert_eq!(serialized[0].left_operand_val, 100);
    assert_eq!(serialized[0].right_operand_kind, 1);
    assert_eq!(serialized[0].right_operand_val, 5);
    assert_eq!(serialized[0].predicate, 2);
}

#[test]
fn test_forkserver_terminate_word() {
    assert!(should_terminate(TERMINATE_SENTINEL));
    assert!(!should_terminate(1));
}
#[test]
fn test_live_lock_tracking() {
    let events = vec![
        RaceEvent::LockOp(Lock::new(LockTyp::Lock, 7)),
        RaceEvent::Access {
            global_var_id: 1,
            op: AccessOperation::Write,
            line: 10,
        },
        RaceEvent::LockOp(Lock::new(LockTyp::Lock, 8)),
        RaceEvent::LockOp(Lock::new(LockTyp::UnLock, 7)),
    ];
    let live = live_locks_after(&events);
    assert_eq!(live.as_vec(), &vec![8]);
}

