use aura_lang::race_detector::{AccessType, MemoryAccess, RaceDetector, RaceViolation, SynchronizationInfo};

#[test]
fn test_simple_data_race() {
    let mut detector = RaceDetector::new();
    detector.record_access(MemoryAccess::new("x".to_string(), AccessType::Write, 0, 5, 0));
    detector.record_access(MemoryAccess::new("x".to_string(), AccessType::Read, 1, 10, 0));
    detector.detect_all();
    assert!(detector.has_violations());
    assert!(detector.violations().iter().any(|v| matches!(v, RaceViolation::DataRace { .. })));
}

#[test]
fn test_protected_variable_no_race() {
    let mut detector = RaceDetector::new();
    detector.add_protection("x".to_string(), "lock1".to_string());
    detector.record_access(MemoryAccess::new("x".to_string(), AccessType::Write, 0, 5, 0));
    detector.record_access(MemoryAccess::new("x".to_string(), AccessType::Read, 1, 10, 0));
    detector.detect_all();
    assert!(!detector.violations().iter().any(|v| matches!(v, RaceViolation::DataRace { .. })));
}

#[test]
fn test_use_after_free() {
    let mut detector = RaceDetector::new();
    detector.record_free("ptr".to_string(), 0, 5, 0);
    detector.record_access(MemoryAccess::new("ptr".to_string(), AccessType::Read, 0, 10, 0));
    detector.detect_all();
    assert!(detector.violations().iter().any(|v| matches!(v, RaceViolation::UseAfterFree { .. })));
}

#[test]
fn test_lock_leak() {
    let mut detector = RaceDetector::new();
    detector.record_lock("lock1".to_string(), true, 0, 5, 0);
    detector.detect_all();
    assert!(detector.violations().iter().any(|v| matches!(v, RaceViolation::LockLeak { .. })));
}

#[test]
fn test_memory_access_new() {
    let access = MemoryAccess::new("x".to_string(), AccessType::Write, 1, 5, 10);
    assert_eq!(access.var_name, "x");
    assert_eq!(access.thread_id, 1);
    assert!(access.is_write());
}

#[test]
fn test_synchronization_info() {
    let mut sync = SynchronizationInfo::new();
    sync.add_protection("x".to_string(), "lock1".to_string());
    assert!(sync.is_protected("x"));
    assert!(!sync.is_protected("y"));
    assert!(sync.get_protecting_locks("x").is_some());
}

#[test]
fn race_reports_first_access_and_first_other_thread() {
    let mut d = RaceDetector::default();
    d.record_access(MemoryAccess::new("y".to_string(), AccessType::Read, 0, 1, 1));
    d.record_access(MemoryAccess::new("x".to_string(), AccessType::Read, 0, 2, 3));
    d.record_access(MemoryAccess::new("x".to_string(), AccessType::Read, 0, 4, 5));
    d.record_access(MemoryAccess::new("x".to_string(), AccessType::Write, 2, 6, 7));
    d.record_access(MemoryAccess::new("y".to_string(), AccessType::Read, 1, 8, 9));
    d.detect_all();
    let msgs: Vec<String> = d.violations().iter().map(|v| v.message()).collect();
    assert_eq!(msgs, vec!["data race on 'x': thread 0 accesses at 2:3, thread 2 accesses at 6:7".to_string()]);
}

#[test]
fn frees_leaks_and_releases() {
    let mut d = RaceDetector::new();
    d.record_free("p".to_string(), 3, 5, 1);
    d.record_access(MemoryAccess::new("p".to_string(), AccessType::Read, 3, 5, 9));
    d.record_access(MemoryAccess::new("p".to_string(), AccessType::Write, 3, 7, 2));
    d.record_access(MemoryAccess::new("p".to_string(), AccessType::Read, 4, 9, 2));
    d.record_lock("m".to_string(), true, 1, 2, 2);
    d.record_lock("m".to_string(), true, 2, 3, 3);
    d.record_lock("m".to_string(), false, 1, 4, 4);
    d.record_lock("n".to_string(), false, 1, 4, 4);
    d.detect_all();
    let msgs: Vec<String> = d.violations().iter().map(|v| v.message()).collect();
    assert_eq!(
        msgs,
        vec![
            "data race on 'p': thread 3 accesses at 5:9, thread 4 accesses at 9:2".to_string(),
            "use after free: 'p' freed at 5:1 but used at 7:2".to_string(),
            "lock leak: 'm' acquired at 3:3 but never released".to_string(),
        ]
    );
    let cycle = RaceViolation::Deadlock { cycle: vec![("a".to_string(), "b".to_string()), ("b".to_string(), "a".to_string())] };
    assert_eq!(cycle.message(), "deadlock detected: a → b → b → a");
}

#[test]
fn one_thread_never_races() {
    let mut detector = RaceDetector::new();
    detector.record_access(MemoryAccess::new("x".to_string(), AccessType::Write, 3, 1, 0));
    detector.record_access(MemoryAccess::new("x".to_string(), AccessType::Write, 3, 2, 0));
    detector.record_access(MemoryAccess::new("y".to_string(), AccessType::Read, 3, 3, 0));
    detector.detect_all();
    assert!(!detector.violations().iter().any(|v| matches!(v, RaceViolation::DataRace { .. })));
}

#[test]
fn data_race_names_two_different_threads() {
    let mut detector = RaceDetector::new();
    detector.record_access(MemoryAccess::new("x".to_string(), AccessType::Write, 0, 1, 0));
    detector.record_access(MemoryAccess::new("x".to_string(), AccessType::Read, 0, 2, 0));
    detector.record_access(MemoryAccess::new("x".to_string(), AccessType::Read, 1, 3, 0));
    detector.detect_data_races();
    let race = detector
        .violations()
        .iter()
        .find(|v| matches!(v, RaceViolation::DataRace { .. }))
        .expect("a data race on x");
    match race {
        RaceViolation::DataRace { var_name, thread1, access1, thread2, access2 } => {
            assert_eq!(var_name, "x");
            assert_eq!(*thread1, 0);
            assert_eq!(*access1, (1, 0));
            assert_eq!(*thread2, 1);
            assert_eq!(*access2, (3, 0));
        }
        _ => unreachable!(),
    }
}
