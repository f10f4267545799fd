use aura_lang::ownership_enforcement::{OwnershipContext, OwnershipState, ViolationKind};

#[test]
fn test_simple_use() {
    let mut ctx = OwnershipContext::new();
    ctx.set_location(1, 0);
    ctx.define_binding("x".to_string(), "Model".to_string(), true);

    ctx.set_location(2, 0);
    assert!(ctx.record_use("x").is_ok());
}

#[test]
fn test_use_after_move() {
    let mut ctx = OwnershipContext::new();
    ctx.set_location(1, 0);
    ctx.define_binding("x".to_string(), "Model".to_string(), true);

    ctx.set_location(2, 0);
    assert!(ctx.record_move("x").is_ok());

    ctx.set_location(3, 0);
    let result = ctx.record_use("x");
    assert!(result.is_err());
    assert_eq!(result.unwrap_err().error_kind, ViolationKind::UseAfterMove);
}

#[test]
fn test_double_move() {
    let mut ctx = OwnershipContext::new();
    ctx.set_location(1, 0);
    ctx.define_binding("x".to_string(), "Model".to_string(), true);

    ctx.set_location(2, 0);
    assert!(ctx.record_move("x").is_ok());

    ctx.set_location(3, 0);
    let result = ctx.record_move("x");
    assert!(result.is_err());
    assert_eq!(result.unwrap_err().error_kind, ViolationKind::DoubleMove);
}

#[test]
fn test_borrow_then_move() {
    let mut ctx = OwnershipContext::new();
    ctx.set_location(1, 0);
    ctx.define_binding("x".to_string(), "Model".to_string(), true);

    ctx.set_location(2, 0);
    assert!(ctx.record_borrow_immut("x").is_ok());

    ctx.set_location(3, 0);
    let result = ctx.record_move("x");
    assert!(result.is_err());
    assert_eq!(result.unwrap_err().error_kind, ViolationKind::MoveAfterBorrow);
}

#[test]
fn test_linear_resource_not_consumed() {
    let mut ctx = OwnershipContext::new();
    ctx.set_location(1, 0);
    ctx.define_binding("x".to_string(), "Model".to_string(), true);

    let unconsumed = ctx.check_linear_resources_consumed();
    assert!(unconsumed.len() > 0);
    assert_eq!(unconsumed[0].error_kind, ViolationKind::UseNotMoved);
}

#[test]
fn test_scoped_bindings() {
    let mut ctx = OwnershipContext::new();
    ctx.set_location(1, 0);
    ctx.define_binding("x".to_string(), "u32".to_string(), false);

    ctx.push_scope();
    ctx.set_location(2, 0);
    ctx.define_binding("y".to_string(), "Model".to_string(), true);
    assert!(ctx.record_use("x").is_ok());
    assert!(ctx.record_use("y").is_ok());

    ctx.pop_scope();
    assert!(!ctx.binding_exists("y"));
    assert!(ctx.binding_exists("x"));
}

#[test]
fn test_mutable_borrow() {
    let mut ctx = OwnershipContext::new();
    ctx.set_location(1, 0);
    ctx.define_binding("x".to_string(), "Vector".to_string(), true);

    ctx.set_location(2, 0);
    assert!(ctx.record_borrow_mut("x").is_ok());

    ctx.set_location(3, 0);
    let result = ctx.record_move("x");
    assert!(result.is_err());
    assert_eq!(result.unwrap_err().error_kind, ViolationKind::MoveAfterBorrow);
}

#[test]
fn ownership_messages_name_binding_and_line() {
    let mut ctx = OwnershipContext::new();
    ctx.set_location(4, 2);
    ctx.define_binding("m".to_string(), "Model".to_string(), true);
    ctx.set_location(7, 1);
    ctx.record_move("m").unwrap();
    ctx.set_location(9, 3);
    let err = ctx.record_use("m").unwrap_err();
    assert_eq!(err.message, "cannot use binding 'm' after it was moved at line 7");
    assert_eq!(err.moved_at_line, Some(7));
    assert_eq!(err.moved_at_col, Some(1));
    assert_eq!(err.at_line, 9);
    let err = ctx.record_move("m").unwrap_err();
    assert_eq!(err.message, "cannot move binding 'm' again: already consumed");
    let err = ctx.record_use("nope").unwrap_err();
    assert_eq!(err.message, "binding 'nope' not found in scope");
    let err = ctx.record_borrow_mut("m").unwrap_err();
    assert_eq!(err.error_kind, ViolationKind::BorrowAfterMove);
    assert_eq!(err.message, "cannot mutably borrow 'm': it was moved at line 7");
}

#[test]
fn unconsumed_resource_message_and_return() {
    let mut ctx = OwnershipContext::new();
    ctx.define_binding("t".to_string(), "Tensor".to_string(), true);
    ctx.define_binding("n".to_string(), "u32".to_string(), false);
    ctx.define_binding("r".to_string(), "Model".to_string(), true);
    assert!(ctx.record_return("r").is_ok());
    let v = ctx.check_linear_resources_consumed();
    assert_eq!(v.len(), 1);
    assert_eq!(v[0].message, "linear resource 't' of type 'Tensor' must be consumed before function ends");
    assert_eq!(ctx.current_bindings()[2].state, OwnershipState::Returned);
}

#[test]
fn ownership_state_permissions() {
    assert!(OwnershipState::Owned.allows_move());
    assert!(!OwnershipState::BorrowedImmut.allows_move());
    assert!(OwnershipState::BorrowedMut.allows_mutate());
    assert!(!OwnershipState::BorrowedImmut.allows_mutate());
    assert!(!OwnershipState::Returned.allows_use());
    assert_eq!(OwnershipState::BorrowedImmut.display(), "borrowed (immut)");
}
