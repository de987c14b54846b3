use dynanalysis::codec::{decode_payload, encode_reports, read_cov_report, write_cov_shm};
use dynanalysis::covmap::{get_intersect, get_symmetric_diff, make_cov, CoverageState};

#[test]
fn test_line_hit() {
    let mut state = CoverageState::new();
    let lines = vec![10, 20, 30];
    state.cov_hit_batch("test.c", &lines);

    let bitmap = state.cov_get_hit_map(lines.len());
    assert_eq!(bitmap, vec![1, 1, 1]);
}

#[test]
fn test_cov_report() {
    let mut state = CoverageState::new();
    let hit_lines = vec![5, 7, 9, 10, 12];
    state.cov_hit_batch("test.c", &hit_lines);

    let (funcs_lines, brs_lines, lines_lines) = (vec![5, 20], vec![11, 12], vec![5, 7, 8, 9, 10]);
    state.cov_mapping_src("test.c", funcs_lines, brs_lines, lines_lines);

    let reports = make_cov(&state);
    let cov_report = &reports[0];
    assert_eq!(cov_report.funcs_hit_ratio, "50.00");
    assert_eq!(cov_report.brs_hit_ratio, "50.00");
    assert_eq!(cov_report.lines_hit_ratio, "80.00");
    assert_eq!(cov_report.uncovered_funcs, "20");
    assert_eq!(cov_report.uncovered_brs, "11(12:F)");
    assert_eq!(cov_report.uncovered_lines, "8,12");
}

#[test]
fn test_cov_clear() {
    let mut state = CoverageState::new();
    state.cov_hit_batch("test.c", &vec![1, 2, 3]);
    state.cov_clear();
    assert!(state.cov_get_hit_map(3).is_empty());
}

#[test]
fn test_cov_record_counts() {
    let mut state = CoverageState::new();
    assert_eq!(state.cov_record("a.c", 7), 0);
    assert_eq!(state.cov_record("a.c", 7), 1);
    assert_eq!(state.cov_record("a.c", 7), 2);
    // the same line of another file has its own counter
    assert_eq!(state.cov_record("b.c", 7), 0);
}

#[test]
fn test_cov_reset() {
    let mut state = CoverageState::new();
    state.cov_record("a.c", 7);
    state.cov_record("a.c", 7);
    state.cov_reset();
    assert_eq!(state.cov_get_hit_map(1), vec![0]);
}

#[test]
fn test_report_truncates_to_five() {
    let mut state = CoverageState::new();
    state.cov_mapping_src("long.c", vec![], vec![], vec![1, 2, 3, 4, 5, 6, 7]);
    let reports = make_cov(&state);
    assert_eq!(reports[0].uncovered_lines, "...1,2,3,4,5");
}

#[test]
fn test_cov_serialization_round_trip() {
    let mut state = CoverageState::new();
    state.cov_hit_batch("test.c", &vec![5, 7, 9, 10, 12]);
    state.cov_mapping_src("test.c", vec![5, 20], vec![11, 12], vec![5, 7, 8, 9, 10]);
    let reports = make_cov(&state);

    let encoded = encode_reports(&reports);
    let decoded = decode_payload(&encoded).unwrap();
    assert_eq!(decoded.len(), reports.len());
    for (a, b) in decoded.iter().zip(reports.iter()) {
        assert_eq!(a.file, b.file);
        assert_eq!(a.funcs_hit_ratio, b.funcs_hit_ratio);
        assert_eq!(a.uncovered_funcs, b.uncovered_funcs);
        assert_eq!(a.brs_hit_ratio, b.brs_hit_ratio);
        assert_eq!(a.uncovered_brs, b.uncovered_brs);
        assert_eq!(a.lines_hit_ratio, b.lines_hit_ratio);
        assert_eq!(a.uncovered_lines, b.uncovered_lines);
    }
}

#[test]
fn test_cov_shm_staging_round_trip() {
    let mut state = CoverageState::new();
    state.cov_hit_batch("test.c", &vec![3]);
    state.cov_mapping_src("test.c", vec![3], vec![], vec![3, 4]);
    let reports = make_cov(&state);

    let mut shm = vec![0u8; 1 << 13];
    assert!(write_cov_shm(&mut shm, &reports));
    let read_back = read_cov_report(&shm);
    assert_eq!(read_back.len(), 1);
    assert_eq!(read_back[0].file, "test.c");
    assert_eq!(read_back[0].funcs_hit_ratio, "100.00");
    assert_eq!(read_back[0].lines_hit_ratio, "50.00");
}

#[test]
fn test_set_helpers() {
    let a = vec![3, 1, 2, 3];
    let b = vec![2, 3, 5];
    assert_eq!(get_intersect(&a, &b), vec![2, 3]);
    assert_eq!(get_symmetric_diff(&a, &b), vec![1, 5]);
}
