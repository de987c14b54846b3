use dynanalysis::shadow::{trim_runtime_bt, AsanRuntime, EXIT_CODE};

#[test]
fn test_asan_oob_read() {
    // one shadow byte covers 8 user bytes; 128 shadow bytes cover 1 KiB
    let mut rt = AsanRuntime::new(128);
    let p = rt.malloc(64, 8);
    assert_eq!(p, 96);
    // the allocation itself is addressable
    assert!(!rt.check_access(p, 8));
    // one past the end lands in the right redzone
    assert!(rt.check_access(p + 8, 1));
    assert_eq!(EXIT_CODE, 99);
}

#[test]
fn test_asan_use_after_free() {
    let mut rt = AsanRuntime::new(128);
    let p = rt.malloc(64, 16);
    assert!(!rt.check_access(p, 16));
    assert!(rt.free(p));
    assert!(rt.check_access(p, 1));
    assert_eq!(EXIT_CODE, 99);
}

#[test]
fn test_asan_in_bounds_never_raises() {
    let mut rt = AsanRuntime::new(128);
    let p = rt.malloc(64, 13);
    for off in 0..13 {
        for k in 1..=(13 - off) {
            assert!(!rt.check_access(p + off, k));
        }
    }
}

#[test]
fn test_asan_redzones_poisoned() {
    let mut rt = AsanRuntime::new(128);
    let p = rt.malloc(64, 8);
    // every single-byte access in the left and right redzones raises
    for off in 1..=32 {
        assert!(rt.check_access(p - off, 1));
        assert!(rt.check_access(p + 8 + off - 1, 1));
    }
}

#[test]
fn test_asan_free_poisons_whole_region() {
    let mut rt = AsanRuntime::new(128);
    let p = rt.malloc(64, 16);
    assert!(rt.free(p));
    for off in 0..(32 + 16 + 32) {
        assert!(rt.check_access(p - 32 + off, 1));
    }
    // an untracked pointer is left to the underlying allocator
    assert!(!rt.free(p));
}

#[test]
fn test_asan_realloc_prepare() {
    let mut rt = AsanRuntime::new(128);
    let p = rt.malloc(64, 24);
    assert_eq!(rt.realloc_prepare(p), Some(24));
    assert!(rt.check_access(p, 1));
    assert_eq!(rt.realloc_prepare(p), None);
}

#[test]
fn test_asan_strcpy_checks_terminator() {
    let mut rt = AsanRuntime::new(128);
    let p = rt.malloc(64, 8);
    // seven characters and the terminator fit
    assert!(!rt.strcpy(p, 7));
    // eight characters put the terminator one past the end
    assert!(rt.strcpy(p, 8));
}
#[test]
fn test_trim_runtime_bt() {
    let lines: Vec<String> = vec![
        "  0: capture".to_string(),
        "  1: __asan_mem_check".to_string(),
        "  2: at allocator.rs:10".to_string(),
        "  3: caller_one".to_string(),
        "  4: caller_two".to_string(),
        "  5: main".to_string(),
    ];
    let trimmed = trim_runtime_bt(&lines, "__asan_mem_check", "allocator.rs");
    // the capture frame never shows; the allocator frame is dropped; the
    // anchor line and its successor are skipped
    assert_eq!(
        trimmed,
        vec!["  4: caller_two".to_string(), "  5: main".to_string()]
    );
}

