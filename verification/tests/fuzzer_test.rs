use dynanalysis::edge::{clear_new_coverage, eval_seed, is_new_coverage, EdgeCoverage, SIGKILL};
use dynanalysis::bucket::get_score;
use dynanalysis::fuzz::{is_crash, notify_word, wakeup_word, FuzzInput, HostSend, TERMINATE_SENTINEL};
use dynanalysis::seed::{Seed, SeedPool};

const SHM_SIZE: usize = 1 << 16;
const SHM_AUX_SIZE: usize = 1 << 20;

fn fresh_coverage() -> EdgeCoverage {
    EdgeCoverage::new(
        Some(vec![0u8; SHM_SIZE]),
        Some(SHM_SIZE),
        Some(vec![0u8; SHM_AUX_SIZE]),
    )
}

fn new_coverage_seen(ec: &EdgeCoverage) -> bool {
    is_new_coverage(ec.aux.as_ref().unwrap())
}

fn clear(ec: &mut EdgeCoverage) {
    clear_new_coverage(ec.aux.as_mut().unwrap());
}

fn eval(ec: &EdgeCoverage, status: i32) -> (u64, u64) {
    eval_seed(ec.shm.as_ref().unwrap(), ec.aux.as_ref().unwrap(), status)
}

#[test]
fn test_path_coverage() {
    let mut ec = fresh_coverage();
    let (a, b, c, d, e) = (100, 200, 300, 400, 500);
    // path: a -> b -> c -> d -> e -> a
    ec.trace_edge(a);
    assert!(new_coverage_seen(&ec));
    ec.trace_edge(b);
    assert!(new_coverage_seen(&ec));
    ec.trace_edge(c);
    assert!(new_coverage_seen(&ec));
    ec.trace_edge(d);
    assert!(new_coverage_seen(&ec));
    ec.trace_edge(e);
    assert!(new_coverage_seen(&ec));
    ec.trace_edge(a);
    assert!(new_coverage_seen(&ec));

    clear(&mut ec);

    // known path: a -> b -> c -> d -> e
    // new   path: a -> b
    ec.trace_edge(b);
    assert!(!new_coverage_seen(&ec));

    // known path: a -> b -> c -> d -> e
    // new   path: a -> b -> c
    ec.trace_edge(c);
    assert!(!new_coverage_seen(&ec));

    // known path: a -> b -> c -> d -> e
    // new   path: a -> b -> c -> d
    ec.trace_edge(d);
    assert!(!new_coverage_seen(&ec));

    // known path: a -> b -> c -> d -> e
    // new   path: a -> b -> c -> d -> e
    ec.trace_edge(e);
    assert!(!new_coverage_seen(&ec));
}

#[test]
fn test_coverage_bucket() {
    let mut ec = fresh_coverage();
    let (a, b, c) = (100, 200, 300);
    // path: a -> b -> a
    //       (a,b) , (b,a)
    ec.trace_edge(a);
    ec.trace_edge(b);
    ec.trace_edge(a);
    assert!(eval(&ec, 0) == (3, u64::MAX));
    clear(&mut ec);

    // path: a -> b
    ec.trace_edge(b);
    assert!(eval(&ec, 0) == (3, 15));
    clear(&mut ec);

    // path: b -> a -> b
    ec.trace_edge(a);
    ec.trace_edge(b);
    assert!(eval(&ec, 0) == (3, 14));
    clear(&mut ec);

    // path: b -> a -> b
    ec.trace_edge(a);
    ec.trace_edge(b);
    assert!(eval(&ec, 0) == (3, 13));
    clear(&mut ec);

    // path: b -> a -> b
    ec.trace_edge(a);
    ec.trace_edge(b);
    assert!(eval(&ec, 0) == (3, 13));
    clear(&mut ec);

    // path: b -> a -> b
    ec.trace_edge(a);
    ec.trace_edge(b);
    assert!(eval(&ec, 0) == (3, 13));
    clear(&mut ec);

    // path: b -> a -> b
    ec.trace_edge(a);
    ec.trace_edge(b);
    assert!(eval(&ec, 0) == (3, 13));
    clear(&mut ec);

    // path: b -> a -> b
    ec.trace_edge(a);
    ec.trace_edge(b);
    assert!(eval(&ec, 0) == (3, 12));
    clear(&mut ec);

    // path: b -> c
    ec.trace_edge(c);
    assert!(eval(&ec, 0) == (4, u64::MAX));
}

#[test]
fn test_eval_seed_hang_scores_zero() {
    let mut ec = fresh_coverage();
    ec.trace_edge(100);
    assert_eq!(eval(&ec, SIGKILL), (0, 0));
}

#[test]
fn test_seed_pool_pops_highest_score() {
    let mut pool = SeedPool::new(Vec::new());
    pool.add_seed(Seed::new(vec![1], 10));
    pool.add_seed(Seed::new(vec![2], 30));
    pool.add_seed(Seed::new(vec![3], 20));
    pool.add_seed(Seed::new(vec![4], 30));
    let mut last = u64::MAX;
    let mut popped = 0;
    while let Some(s) = pool.pop_seed() {
        assert!(s.get_score() <= last);
        last = s.get_score();
        popped += 1;
    }
    assert_eq!(popped, 4);
}

#[test]
fn test_seed_pool_set_semantics() {
    let mut pool = SeedPool::new(Vec::new());
    pool.add_seed(Seed::new(vec![1, 2], 5));
    pool.add_seed(Seed::new(vec![1, 2], 5));
    assert_eq!(pool.len(), 1);
    // a different score for the same bytes is a distinct element
    pool.add_seed(Seed::new(vec![1, 2], 6));
    assert_eq!(pool.len(), 2);
    assert!(!pool.is_empty());
}

#[test]
fn test_seed_to_hex() {
    let seed = Seed::new(vec![0x0F, 0xA0, 0x01], 0);
    assert_eq!(seed.to_hex(), "0FA001");
}

#[test]
fn test_mutate_keeps_seed_usable() {
    let mut seed = Seed::new(vec![9, 8, 7, 6, 5], 0);
    for _ in 0..50 {
        let before = seed.get_input().len();
        let results = seed.mutate();
        // at most a fifth of the length, rounded up, and never zero
        assert!(results.len() >= 1);
        assert!(results.len() <= (before - 1) / 5 + 1);
        assert!(!seed.get_input().is_empty());
        assert!(seed.get_input().len() <= before + results.len());
    }
}

#[test]
fn test_bucket_scores() {
    assert_eq!(get_score(0), 8);
    assert_eq!(get_score(1), 8);
    assert_eq!(get_score(2), 7);
    assert_eq!(get_score(3), 6);
    assert_eq!(get_score(4), 5);
    assert_eq!(get_score(8), 4);
    assert_eq!(get_score(16), 3);
    assert_eq!(get_score(32), 2);
    assert_eq!(get_score(128), 1);
    assert_eq!(get_score(255), 1);
}

#[test]
fn test_wire_protocol_words() {
    assert_eq!(wakeup_word(HostSend::Wakeup(0)), 1);
    assert_eq!(wakeup_word(HostSend::Wakeup(5)), 5);
    assert_eq!(wakeup_word(HostSend::Terminate), TERMINATE_SENTINEL);
    assert_eq!(notify_word(0), 1);
    assert_eq!(notify_word(77), 77);
    assert!(!is_crash(1));
    assert!(!is_crash(SIGKILL));
    assert!(is_crash(99));
}

#[test]
fn test_fuzz_input_modes() {
    assert_eq!(FuzzInput::from_str("file"), Some(FuzzInput::ProgramArgument));
    assert_eq!(FuzzInput::from_str("stdin"), Some(FuzzInput::Stdin));
    assert_eq!(FuzzInput::from_str("pipe"), None);
    assert_eq!(FuzzInput::ProgramArgument.as_str(), "file");
    assert_eq!(FuzzInput::Stdin.as_str(), "stdin");
}
