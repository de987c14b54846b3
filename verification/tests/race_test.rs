use dynanalysis::instrument::names::RACE_GLOBAL_PREFIX;
use dynanalysis::instrument::race::AccessOperation;
use dynanalysis::race::RaceDetector;

#[test]
fn test_race() {
    let mut detector = RaceDetector::new();
    let global_var_name = format!("{}.v", RACE_GLOBAL_PREFIX);
    let global_var_decl: u32 = 100;
    let global_var_id: i64 = 200;
    detector.init_candidate_lockset_global_var(&global_var_name, global_var_decl, global_var_id);

    let write = AccessOperation::Write;
    let thread_id1 = 300;
    let thread_id2 = 400;
    let line = 500;
    // virgin -> exclusive
    detector.race_update_shared_mem(write.i8(), thread_id1, global_var_id, line);
    // exclusive -> shared-modified
    detector.race_update_shared_mem(write.i8(), thread_id2, global_var_id, line);
    assert!(detector.reported_len() == 0);
    // reported
    detector.race_update_shared_mem(write.i8(), thread_id2, global_var_id, line);
    assert!(detector.reported_len() == 1);
}

#[test]
fn test_race_reported_once_per_key() {
    let mut detector = RaceDetector::new();
    let name = format!("{}counter", RACE_GLOBAL_PREFIX);
    detector.init_candidate_lockset_global_var(&name, 10, 1);
    detector.race_update_shared_mem(1, 300, 1, 42);
    detector.race_update_shared_mem(1, 400, 1, 42);
    let first = detector.race_update_shared_mem(1, 400, 1, 42);
    assert!(first.is_some());
    // the same (thread, variable, declaration, use line) key reports once
    let second = detector.race_update_shared_mem(1, 400, 1, 42);
    assert!(second.is_none());
    assert_eq!(detector.reported_len(), 1);
    // a different use line is a fresh key
    let third = detector.race_update_shared_mem(1, 400, 1, 43);
    assert!(third.is_some());
    assert_eq!(detector.reported_len(), 2);
}

#[test]
fn test_race_lock_protects() {
    let mut detector = RaceDetector::new();
    let var_name = format!("{}shared", RACE_GLOBAL_PREFIX);
    let lock_name = format!("{}mu", RACE_GLOBAL_PREFIX);
    detector.init_candidate_lockset_global_var(&var_name, 5, 7);
    detector.init_candidate_lockset_lock_var(7, &lock_name, 6, 99);
    // both threads hold the lock around their writes
    detector.update_lock_held(1, 300, 99);
    detector.race_update_shared_mem(1, 300, 7, 20);
    detector.update_lock_held(0, 300, 99);
    detector.update_lock_held(1, 400, 99);
    detector.race_update_shared_mem(1, 400, 7, 21);
    detector.race_update_shared_mem(1, 400, 7, 22);
    detector.update_lock_held(0, 400, 99);
    // the common lock keeps the candidate lockset nonempty: no report
    assert_eq!(detector.reported_len(), 0);
}

#[test]
fn test_race_read_makes_shared() {
    let mut detector = RaceDetector::new();
    let name = format!("{}flag", RACE_GLOBAL_PREFIX);
    detector.init_candidate_lockset_global_var(&name, 1, 2);
    detector.race_update_shared_mem(1, 300, 2, 30);
    // a read by another thread moves the variable to shared, not a race yet
    detector.race_update_shared_mem(0, 400, 2, 31);
    assert_eq!(detector.reported_len(), 0);
    // a later unprotected write is the race
    detector.race_update_shared_mem(1, 400, 2, 32);
    detector.race_update_shared_mem(1, 300, 2, 33);
    assert_eq!(detector.reported_len(), 1);
}

#[test]
fn test_race_report_strips_prefix() {
    let mut detector = RaceDetector::new();
    let name = format!("{}v", RACE_GLOBAL_PREFIX);
    detector.init_candidate_lockset_global_var(&name, 1, 2);
    assert_eq!(detector.global_var_name_of(2).unwrap(), "v");
}
