use aura_lang::net_verifier::{NetworkVerifier, SocketState};

#[test]
fn detects_simple_deadlock() {
    let mut verifier = NetworkVerifier::new();
    verifier.register_lock("lock_a");
    verifier.register_lock("lock_b");
    verifier.record_lock_order("thread1", &["lock_a", "lock_b"]);
    verifier.record_lock_order("thread2", &["lock_b", "lock_a"]);
    assert!(verifier.has_cycle_in_lock_graph());
    assert!(!verifier.verify_all().is_empty());
}

#[test]
fn allows_consistent_lock_order() {
    let mut verifier = NetworkVerifier::new();
    verifier.register_lock("lock_a");
    verifier.register_lock("lock_b");
    verifier.record_lock_order("thread1", &["lock_a", "lock_b"]);
    verifier.record_lock_order("thread2", &["lock_a", "lock_b"]);
    assert!(!verifier.has_cycle_in_lock_graph());
    assert!(verifier.verify_all().is_empty());
}

#[test]
fn detects_unsynchronized_access() {
    let mut verifier = NetworkVerifier::new();
    let t1 = verifier.new_thread_id();
    let t2 = verifier.new_thread_id();
    verifier.record_thread_access(t1, "shared_var");
    verifier.record_thread_access(t2, "shared_var");
    let violations = verifier.verify_all();
    assert!(!violations.is_empty());
    assert!(violations[0].contains("RACE CONDITION"));
}

#[test]
fn allows_synchronized_access() {
    let mut verifier = NetworkVerifier::new();
    let t1 = verifier.new_thread_id();
    let t2 = verifier.new_thread_id();
    verifier.register_lock("mutex");
    verifier.record_thread_access(t1, "shared_var");
    verifier.record_thread_access(t2, "shared_var");
    verifier.record_synchronized_access("shared_var", &["mutex"]);
    let violations = verifier.verify_all();
    assert!(violations.is_empty());
}

#[test]
fn socket_lifecycle_valid_transition() {
    let mut verifier = NetworkVerifier::new();
    verifier.init_socket("sock");
    assert!(verifier.transition_socket("sock", SocketState::Open));
    assert!(verifier.transition_socket("sock", SocketState::Accepting));
    assert!(verifier.transition_socket("sock", SocketState::Reading));
    assert!(verifier.transition_socket("sock", SocketState::Closed));
}

#[test]
fn socket_lifecycle_rejects_invalid_transition() {
    let mut verifier = NetworkVerifier::new();
    verifier.init_socket("sock");
    verifier.transition_socket("sock", SocketState::Open);
    verifier.transition_socket("sock", SocketState::Closed);
    assert!(!verifier.transition_socket("sock", SocketState::Open));
}

#[test]
fn longer_cycles_and_unregistered_locks() {
    let mut v = NetworkVerifier::default();
    for name in ["a", "b", "c"] {
        v.register_lock(name);
    }
    v.record_lock_order("f", &["a", "b", "c"]);
    assert!(!v.has_cycle_in_lock_graph());
    v.record_lock_order("g", &["c", "a"]);
    assert!(v.has_cycle_in_lock_graph());
    v.register_lock("c");
    assert!(!v.has_cycle_in_lock_graph());
    // orders from an unregistered lock are not recorded
    let mut w = NetworkVerifier::new();
    w.register_lock("x");
    w.record_lock_order("f", &["x", "y"]);
    w.record_lock_order("g", &["y", "x"]);
    assert!(!w.has_cycle_in_lock_graph());
    // a lock ordered after itself is a cycle
    w.record_lock_order("h", &["x", "x"]);
    assert!(w.has_cycle_in_lock_graph());
    let report = w.verify_all();
    assert_eq!(
        report,
        vec!["DEADLOCK RISK: Circular lock dependency detected. Locks must be acquired in consistent order.".to_string()]
    );
    w.clear();
    assert!(w.violations().is_empty());
}

#[test]
fn race_and_socket_messages() {
    let mut v = NetworkVerifier::new();
    let t1 = v.new_thread_id();
    let t2 = v.new_thread_id();
    let t3 = v.new_thread_id();
    assert_eq!((t1, t2, t3), (0, 1, 2));
    v.record_thread_access(t1, "x");
    v.record_thread_access(t2, "x");
    v.record_thread_access(t3, "x");
    v.record_thread_access(t3, "y");
    v.record_synchronized_access("y", &[]);
    assert_eq!(
        v.verify_all(),
        vec!["RACE CONDITION: Variable 'x' accessed by 3 threads without synchronization".to_string()]
    );
    let mut s = NetworkVerifier::new();
    assert!(!s.transition_socket("fresh", SocketState::Reading));
    assert_eq!(s.violations(), &["Invalid socket transition Uninitialized -> Reading".to_string()]);
    assert!(s.transition_socket("fresh", SocketState::Open));
    assert!(s.transition_socket("fresh", SocketState::Writing));
    assert!(s.transition_socket("fresh", SocketState::Writing));
    assert!(!s.transition_socket("fresh", SocketState::Reading));
}

#[test]
fn closed_socket_stays_closed() {
    let mut verifier = NetworkVerifier::new();
    assert!(!verifier.transition_socket("s", SocketState::Reading));
    assert!(verifier.transition_socket("s", SocketState::Open));
    assert!(verifier.transition_socket("s", SocketState::Closed));
    for to in [
        SocketState::Uninitialized,
        SocketState::Open,
        SocketState::Accepting,
        SocketState::Reading,
        SocketState::Writing,
        SocketState::Closed,
    ] {
        assert!(!verifier.transition_socket("s", to));
    }
    // another socket is not affected
    assert!(verifier.transition_socket("t", SocketState::Open));
}
