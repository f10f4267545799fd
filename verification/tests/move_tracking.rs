use aura_lang::move_tracking::{classify_type, LinearTypeKind, LinearTypeRules, MoveTracker};
use aura_lang::ownership_enforcement::OwnershipContext;
use aura_lang::types::Type;

#[test]
fn test_classify_copyable_types() {
    assert_eq!(classify_type(&Type::U32), LinearTypeKind::Copyable);
    assert_eq!(classify_type(&Type::Bool), LinearTypeKind::Copyable);
    assert_eq!(classify_type(&Type::String), LinearTypeKind::Copyable);
    assert_eq!(classify_type(&Type::Unit), LinearTypeKind::Copyable);
}

#[test]
fn test_classify_linear_types() {
    let tensor_type = Type::Tensor {
        elem: Box::new(Type::U32),
        shape: None,
    };
    assert_eq!(classify_type(&tensor_type), LinearTypeKind::Linear);

    assert_eq!(classify_type(&Type::Model), LinearTypeKind::Linear);
    assert_eq!(classify_type(&Type::Style), LinearTypeKind::Linear);
}

#[test]
fn test_classify_named_linear_types() {
    let tensor_named = Type::Named("TensorBuffer".to_string());
    assert_eq!(classify_type(&tensor_named), LinearTypeKind::Linear);

    let model_named = Type::Named("ModelHandle".to_string());
    assert_eq!(classify_type(&model_named), LinearTypeKind::Linear);
}

#[test]
fn test_classify_generic_linear_types() {
    let vec_type = Type::Applied {
        name: "Vec".to_string(),
        args: vec![Type::U32],
    };
    assert_eq!(classify_type(&vec_type), LinearTypeKind::Linear);

    let option_type = Type::Applied {
        name: "Option".to_string(),
        args: vec![Type::U32],
    };
    assert_eq!(classify_type(&option_type), LinearTypeKind::Copyable);
}

#[test]
fn test_move_tracker() {
    let mut tracker = MoveTracker::new();
    assert!(!tracker.is_moved("x"));

    tracker.record_move("x");
    assert!(tracker.is_moved("x"));
}

#[test]
fn test_borrow_tracker() {
    let mut tracker = MoveTracker::new();
    assert!(!tracker.is_borrowed("x"));

    tracker.record_borrow("x");
    assert!(tracker.is_borrowed("x"));
}

#[test]
fn test_linear_type_rules_use_after_move() {
    let result = LinearTypeRules::check_no_use_after_move_simple(true, "x");
    assert!(result.is_err());

    let result = LinearTypeRules::check_no_use_after_move_simple(false, "x");
    assert!(result.is_ok());
}

#[test]
fn classify_refs_ranges_and_other_names() {
    let r = Type::Ref { mutable: false, inner: Box::new(Type::Model), region: None };
    assert_eq!(classify_type(&r), LinearTypeKind::Reference);
    let range = Type::ConstrainedRange { base: Box::new(Type::Named("RegionPool".to_string())), lo: 0, hi: 3 };
    assert_eq!(classify_type(&range), LinearTypeKind::Linear);
    assert_eq!(classify_type(&Type::Named("Point".to_string())), LinearTypeKind::Copyable);
    let map = Type::Applied { name: "HashMap".to_string(), args: vec![] };
    assert_eq!(classify_type(&map), LinearTypeKind::Linear);
}

#[test]
fn rules_against_ownership_context() {
    let mut ctx = OwnershipContext::new();
    ctx.set_location(1, 0);
    ctx.define_binding("m".to_string(), "Model".to_string(), true);
    ctx.define_binding("v".to_string(), "Vec".to_string(), true);
    ctx.set_location(3, 4);
    ctx.record_move("m").unwrap();
    ctx.record_borrow_immut("v").unwrap();

    assert_eq!(
        LinearTypeRules::check_no_use_after_move(&ctx, "m", 5).unwrap_err(),
        "cannot use binding 'm' after it was moved at line 3:4"
    );
    assert!(LinearTypeRules::check_no_use_after_move(&ctx, "v", 5).is_ok());
    assert_eq!(
        LinearTypeRules::check_no_move_while_borrowed(&ctx, "v").unwrap_err(),
        "cannot move binding 'v' while it's borrowed"
    );
    assert_eq!(
        LinearTypeRules::check_borrow_exclusivity(&ctx, "v", true).unwrap_err(),
        "cannot take mutable borrow of 'v': already borrowed immutably"
    );
    assert!(LinearTypeRules::check_borrow_exclusivity(&ctx, "v", false).is_ok());
    let errs = LinearTypeRules::check_linear_consumed(&ctx).unwrap_err();
    assert_eq!(errs, vec!["linear resource 'v' of type 'Vec' must be consumed before function ends".to_string()]);
}

#[test]
fn tracker_clear_forgets() {
    let mut t = MoveTracker::new();
    t.record_move("a");
    t.record_move("a");
    t.record_borrow("b");
    t.clear();
    assert!(!t.is_moved("a"));
    assert!(!t.is_borrowed("b"));
}
