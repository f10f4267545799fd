use aura_lang::capability_enforcement::{
    CapabilityBinding, CapabilityContext, CapabilityKind, CapabilityState, CapabilityViolation,
};

#[test]
fn test_capability_fresh_to_inuse() {
    let mut binding = CapabilityBinding::new("sock".to_string(), CapabilityKind::Socket, 1, 0);
    assert!(binding.transition(CapabilityState::InUse, 2, 0).is_ok());
    assert_eq!(binding.state, CapabilityState::InUse);
}

#[test]
fn test_capability_inuse_to_consumed() {
    let mut binding = CapabilityBinding::new("sock".to_string(), CapabilityKind::Socket, 1, 0);
    binding.transition(CapabilityState::InUse, 2, 0).unwrap();
    assert!(binding.transition(CapabilityState::Consumed, 3, 0).is_ok());
    assert_eq!(binding.state, CapabilityState::Consumed);
}

#[test]
fn test_capability_consumed_invalid_transition() {
    let mut binding = CapabilityBinding::new("sock".to_string(), CapabilityKind::Socket, 1, 0);
    binding.transition(CapabilityState::Consumed, 2, 0).unwrap();
    assert!(binding.transition(CapabilityState::InUse, 3, 0).is_err());
}

#[test]
fn test_context_define_and_use() {
    let mut ctx = CapabilityContext::new();
    ctx.set_location(1, 0);
    assert!(ctx.define_capability("sock".to_string(), CapabilityKind::Socket).is_ok());
    assert!(ctx.use_capability("sock").is_ok());
    assert_eq!(ctx.get_state("sock"), Some(CapabilityState::InUse));
}

#[test]
fn test_context_use_after_consume() {
    let mut ctx = CapabilityContext::new();
    ctx.set_location(1, 0);
    ctx.define_capability("sock".to_string(), CapabilityKind::Socket).unwrap();
    ctx.set_location(2, 0);
    ctx.consume_capability("sock").unwrap();
    ctx.set_location(3, 0);
    assert!(ctx.use_capability("sock").is_err());
}

#[test]
fn test_context_concurrent_access_without_sync() {
    let mut ctx = CapabilityContext::new();
    ctx.set_location(1, 0);
    ctx.define_capability("sock".to_string(), CapabilityKind::Socket).unwrap();
    ctx.use_capability("sock").unwrap();

    ctx.set_current_thread(1);
    ctx.use_capability("sock").unwrap();

    let violations = ctx.validate_all();
    assert!(violations.iter().any(|v| matches!(v, CapabilityViolation::ConcurrentUseWithoutSync { .. })));
}

#[test]
fn test_context_shared_capability() {
    let mut ctx = CapabilityContext::new();
    ctx.set_location(1, 0);
    ctx.define_capability("sock".to_string(), CapabilityKind::Socket).unwrap();
    ctx.share_capability("sock").unwrap();

    ctx.use_capability("sock").unwrap();
    ctx.set_current_thread(1);
    ctx.use_capability("sock").unwrap();

    let violations = ctx.validate_all();
    assert!(!violations.iter().any(|v| matches!(v, CapabilityViolation::ConcurrentUseWithoutSync { .. })));
}

#[test]
fn test_context_define_duplicate() {
    let mut ctx = CapabilityContext::new();
    ctx.set_location(1, 0);
    ctx.define_capability("sock".to_string(), CapabilityKind::Socket).unwrap();
    ctx.set_location(2, 0);
    assert!(ctx.define_capability("sock".to_string(), CapabilityKind::Socket).is_err());
}

#[test]
fn test_binding_history() {
    let mut binding = CapabilityBinding::new("sock".to_string(), CapabilityKind::Socket, 1, 0);
    binding.transition(CapabilityState::InUse, 2, 0).unwrap();
    binding.transition(CapabilityState::Consumed, 3, 0).unwrap();

    let history = binding.history;
    assert_eq!(history.len(), 3);
    assert_eq!(history[0].0, CapabilityState::Fresh);
    assert_eq!(history[1].0, CapabilityState::InUse);
    assert_eq!(history[2].0, CapabilityState::Consumed);
}

#[test]
fn test_capability_state_can_use() {
    assert!(CapabilityState::Fresh.can_use());
    assert!(CapabilityState::InUse.can_use());
    assert!(!CapabilityState::Consumed.can_use());
    assert!(!CapabilityState::Suspended.can_use());
}

#[test]
fn test_capability_state_can_share() {
    assert!(CapabilityState::Fresh.can_share());
    assert!(CapabilityState::InUse.can_share());
    assert!(!CapabilityState::Consumed.can_share());
    assert!(!CapabilityState::Suspended.can_share());
}

#[test]
fn exit_scope_reports_first_leak_and_restores_bindings() {
    let mut ctx = CapabilityContext::new();
    ctx.set_location(1, 0);
    ctx.define_capability("outer".to_string(), CapabilityKind::Tensor).unwrap();
    ctx.enter_scope();
    ctx.define_capability("inner".to_string(), CapabilityKind::Region).unwrap();
    let r = ctx.exit_scope();
    match r {
        Err(v) => {
            assert_eq!(
                v.message(),
                "resource leak: capability 'outer' not consumed before scope end (current state: fresh)"
            );
        }
        Ok(_) => panic!("expected a leak"),
    }
    assert!(ctx.binding_exists("outer"));
    assert!(!ctx.binding_exists("inner"));
}

#[test]
fn exit_scope_without_leaks_succeeds() {
    let mut ctx = CapabilityContext::new();
    ctx.enter_scope();
    ctx.define_capability("t".to_string(), CapabilityKind::Tensor).unwrap();
    ctx.consume_capability("t").unwrap();
    let r = ctx.exit_scope();
    assert!(matches!(r, Ok(ref v) if v.is_empty()));
}

#[test]
fn violation_messages() {
    let v = CapabilityViolation::UseAfterConsumption { var_name: "s".to_string(), consumed_at: (3, 4) };
    assert_eq!(v.message(), "capability 's' used after consumption (consumed at 3:4)");
    let v = CapabilityViolation::InvalidTransition {
        var_name: "s".to_string(),
        from: CapabilityState::Consumed,
        to: CapabilityState::InUse,
    };
    assert_eq!(v.message(), "invalid state transition for capability 's': consumed → in-use");
    let v = CapabilityViolation::ImproperSharing { var_name: "s".to_string(), shared_at: (1, 2) };
    assert_eq!(
        v.message(),
        "capability 's' shared without proper synchronization annotation (shared at 1:2)"
    );
}

#[test]
fn history_and_sharing_refusals() {
    let mut ctx = CapabilityContext::new();
    ctx.set_location(5, 1);
    ctx.define_capability("r".to_string(), CapabilityKind::Region).unwrap();
    ctx.set_location(6, 1);
    ctx.consume_capability("r").unwrap();
    let h = ctx.get_history("r").unwrap();
    assert_eq!(h, vec![(CapabilityState::Fresh, 5, 1), (CapabilityState::Consumed, 6, 1)]);
    assert!(matches!(ctx.share_capability("r"), Err(CapabilityViolation::ImproperSharing { .. })));
    assert!(matches!(ctx.share_capability("nope"), Err(CapabilityViolation::ImproperSharing { .. })));
    assert_eq!(ctx.get_history("nope"), None);
}

#[test]
fn consumed_capability_cannot_be_used_consumed_or_shared() {
    let mut ctx = CapabilityContext::new();
    ctx.set_location(1, 0);
    ctx.define_capability("f".to_string(), CapabilityKind::Tensor).unwrap();
    ctx.set_location(4, 2);
    ctx.consume_capability("f").unwrap();
    ctx.set_location(9, 1);
    assert_eq!(
        ctx.use_capability("f"),
        Err(CapabilityViolation::UseAfterConsumption { var_name: "f".to_string(), consumed_at: (4, 2) })
    );
    assert_eq!(
        ctx.consume_capability("f"),
        Err(CapabilityViolation::InvalidTransition {
            var_name: "f".to_string(),
            from: CapabilityState::Consumed,
            to: CapabilityState::Consumed,
        })
    );
    assert_eq!(
        ctx.share_capability("f"),
        Err(CapabilityViolation::ImproperSharing { var_name: "f".to_string(), shared_at: (9, 1) })
    );
}
