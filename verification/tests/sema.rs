use aura_lang::ast::{BinOp, CallArg, Expr, ExprKind, Spanned};
use aura_lang::error::Span;
use aura_lang::range_proof::{DummySolver, Verifier};
use aura_lang::sema::{
    check_assignable, expr_to_callee_name, infer_u32_range_binop, is_u32_like, mk_u32_range,
    refinement_u32_range_from_where, type_satisfies_trait, u32_bounds,
};
use aura_lang::types::Type;

fn range(lo: u64, hi: u64) -> Type {
    Type::ConstrainedRange { base: Box::new(Type::U32), lo, hi }
}

#[test]
fn bounds_of_u32_types() {
    assert_eq!(u32_bounds(&Type::U32), Some((0, 0xFFFF_FFFF)));
    assert_eq!(u32_bounds(&range(3, 9)), Some((3, 9)));
    assert_eq!(u32_bounds(&Type::Bool), None);
    assert_eq!(u32_bounds(&Type::ConstrainedRange { base: Box::new(Type::U64), lo: 0, hi: 1 }), None);
    assert!(is_u32_like(&range(1, 2)));
    assert!(is_u32_like(&Type::ConstrainedRange { base: Box::new(range(1, 2)), lo: 1, hi: 1 }));
    assert!(!is_u32_like(&Type::U64));
}

#[test]
fn full_range_is_plain_u32_and_bounds_are_clamped() {
    assert!(matches!(mk_u32_range(0, u64::MAX), Type::U32));
    assert_eq!(u32_bounds(&mk_u32_range(5, u64::MAX)), Some((5, 0xFFFF_FFFF)));
    assert_eq!(u32_bounds(&mk_u32_range(u64::MAX, u64::MAX)), Some((0xFFFF_FFFF, 0xFFFF_FFFF)));
}

#[test]
fn arithmetic_ranges() {
    let a = range(2, 10);
    let b = range(3, 5);
    assert_eq!(u32_bounds(&infer_u32_range_binop(&BinOp::Add, &a, &b)), Some((5, 15)));
    assert_eq!(u32_bounds(&infer_u32_range_binop(&BinOp::Sub, &a, &b)), Some((0, 7)));
    assert_eq!(u32_bounds(&infer_u32_range_binop(&BinOp::Mul, &a, &b)), Some((6, 50)));
    assert_eq!(u32_bounds(&infer_u32_range_binop(&BinOp::Div, &a, &b)), Some((0, 3)));
    assert_eq!(u32_bounds(&infer_u32_range_binop(&BinOp::Div, &range(20, 30), &b)), Some((4, 10)));
    // a divisor that may be zero, a comparison, and an operand that is no u32
    assert!(matches!(infer_u32_range_binop(&BinOp::Div, &a, &range(0, 4)), Type::U32));
    assert!(matches!(infer_u32_range_binop(&BinOp::Lt, &a, &b), Type::U32));
    assert!(matches!(infer_u32_range_binop(&BinOp::Add, &a, &Type::Bool), Type::U32));
    // sums that leave the u32 range are held at its top
    assert_eq!(
        u32_bounds(&infer_u32_range_binop(&BinOp::Add, &Type::U32, &range(1, 1))),
        Some((1, 0xFFFF_FFFF))
    );
    assert!(matches!(infer_u32_range_binop(&BinOp::Mul, &Type::U32, &Type::U32), Type::U32));
}

#[test]
fn built_in_traits() {
    assert!(type_satisfies_trait(&range(0, 3), "Numeric"));
    assert!(type_satisfies_trait(&Type::String, "Scalar"));
    assert!(type_satisfies_trait(&Type::Style, "Scalar"));
    assert!(!type_satisfies_trait(&Type::Style, "Eq"));
    assert!(type_satisfies_trait(&Type::Bool, "Eq"));
    assert!(!type_satisfies_trait(&Type::Bool, "Numeric"));
    assert!(!type_satisfies_trait(&Type::U32, "Hash"));
}

fn sp(offset: usize) -> Span {
    Span { offset, len: 1 }
}

fn ident(name: &str) -> Expr {
    Expr { span: sp(0), kind: ExprKind::Ident(Spanned::new(sp(0), name.to_string())) }
}

fn lit(n: u64) -> Expr {
    Expr { span: sp(7), kind: ExprKind::IntLit(n) }
}

fn bin(left: Expr, op: BinOp, right: Expr) -> Expr {
    Expr { span: sp(0), kind: ExprKind::Binary { left: Box::new(left), op, right: Box::new(right) } }
}

fn member(base: Expr, name: &str) -> Expr {
    Expr { span: sp(0), kind: ExprKind::Member { base: Box::new(base), member: Spanned::new(sp(0), name.to_string()) } }
}

fn call(callee: Expr, args: Vec<Expr>) -> Expr {
    Expr {
        span: sp(9),
        kind: ExprKind::Call {
            callee: Box::new(callee),
            args: args.into_iter().map(CallArg::Positional).collect(),
            trailing: None,
        },
    }
}

fn tensor(shape: Option<Vec<u64>>) -> Type {
    Type::Tensor { elem: Box::new(Type::U32), shape }
}

#[test]
fn ranges_from_where_clauses() {
    assert_eq!(refinement_u32_range_from_where("x", &bin(ident("x"), BinOp::Ge, lit(3))), Some((3, 0xFFFF_FFFF)));
    assert_eq!(refinement_u32_range_from_where("x", &bin(ident("x"), BinOp::Lt, lit(10))), Some((0, 9)));
    assert_eq!(refinement_u32_range_from_where("x", &bin(lit(10), BinOp::Gt, ident("x"))), Some((0, 9)));
    assert_eq!(refinement_u32_range_from_where("x", &bin(ident("x"), BinOp::Lt, lit(0))), Some((0, 0)));
    let both = bin(bin(ident("x"), BinOp::Gt, lit(2)), BinOp::And, bin(ident("x"), BinOp::Le, lit(8)));
    assert_eq!(refinement_u32_range_from_where("x", &both), Some((3, 8)));
    assert_eq!(refinement_u32_range_from_where("y", &both), None);
    assert_eq!(refinement_u32_range_from_where("x", &bin(ident("x"), BinOp::Ne, lit(8))), None);
}

#[test]
fn callee_names() {
    assert_eq!(expr_to_callee_name(&member(member(ident("a"), "b"), "c")), "a.b.c");
    assert_eq!(expr_to_callee_name(&lit(3)), "<unknown>");
}

#[test]
fn assignability() {
    let v = Verifier::new(DummySolver);
    // a literal against a u32 range
    assert!(check_assignable(false, &v, &range(0, 10), &Type::U32, &lit(10)).is_ok());
    let e = check_assignable(false, &v, &range(0, 10), &Type::U32, &lit(11)).unwrap_err();
    assert_eq!(e.message, "literal 11 is outside required range 0..10");
    assert_eq!(e.span, sp(7));
    // a non-literal is left to the solver, or to a later proof when deferred
    assert!(check_assignable(false, &v, &range(0, 10), &Type::U32, &ident("n")).is_ok());
    assert!(check_assignable(true, &v, &range(0, 10), &Type::U32, &lit(99)).is_ok());
    let e = check_assignable(true, &v, &range(0, 10), &Type::Bool, &ident("b")).unwrap_err();
    assert_eq!(e.message, "type mismatch: expected u32[0..10], got bool");
    // sub-ranges of other bases, and ranges used as their base
    let r64 = |lo, hi| Type::ConstrainedRange { base: Box::new(Type::U64), lo, hi };
    assert!(check_assignable(false, &v, &r64(0, 10), &r64(2, 5), &ident("n")).is_ok());
    assert!(check_assignable(false, &v, &r64(0, 10), &r64(2, 50), &ident("n")).is_err());
    assert!(check_assignable(false, &v, &Type::U32, &range(2, 5), &ident("n")).is_ok());
    let e = check_assignable(false, &v, &r64(0, 10), &Type::U32, &ident("n")).unwrap_err();
    assert_eq!(e.message, "cannot prove range safety for non-literal assignment (SMT stub)");
    assert!(check_assignable(true, &v, &r64(0, 10), &Type::U32, &ident("n")).is_err());
    // equal types, and types that differ
    assert!(check_assignable(false, &v, &Type::Bool, &Type::Bool, &ident("b")).is_ok());
    let e = check_assignable(false, &v, &Type::Bool, &Type::U8, &ident("b")).unwrap_err();
    assert_eq!(e.message, "type mismatch: expected bool, got u8");
}

#[test]
fn tensor_assignability() {
    let v = Verifier::new(DummySolver);
    let x = ident("t");
    assert!(check_assignable(false, &v, &tensor(None), &tensor(Some(vec![2, 3])), &x).is_ok());
    assert!(check_assignable(false, &v, &tensor(Some(vec![2, 3])), &tensor(Some(vec![2, 3])), &x).is_ok());
    assert!(check_assignable(false, &v, &tensor(Some(vec![2, 3])), &tensor(Some(vec![3, 2])), &x).is_err());
    let e = check_assignable(false, &v, &tensor(Some(vec![2, 3])), &tensor(None), &x).unwrap_err();
    assert_eq!(e.message, "type mismatch: expected Tensor<u32, [2, 3]>, got Tensor<u32>");
    assert_eq!(e.span, sp(0));
    // a call that gives the shape
    let new6 = call(member(ident("tensor"), "new"), vec![lit(6)]);
    let new5 = call(member(ident("tensor"), "new"), vec![lit(5)]);
    let infer = call(member(ident("model"), "infer"), vec![ident("t")]);
    assert!(check_assignable(false, &v, &tensor(Some(vec![2, 3])), &tensor(None), &new6).is_ok());
    assert!(check_assignable(false, &v, &tensor(Some(vec![2, 3])), &tensor(None), &new5).is_err());
    assert!(check_assignable(false, &v, &tensor(Some(vec![2, 3])), &tensor(None), &infer).is_ok());
    // a product that leaves u64 on the way is refused even where it ends at 0
    let huge = tensor(Some(vec![1 << 40, 1 << 40, 0]));
    let new0 = call(member(ident("tensor"), "new"), vec![lit(0)]);
    assert!(check_assignable(false, &v, &huge, &tensor(None), &new0).is_err());
    // element types: Unknown matches any
    let unknown = Type::Tensor { elem: Box::new(Type::Unknown), shape: None };
    assert!(check_assignable(false, &v, &unknown, &tensor(None), &x).is_ok());
    let bools = Type::Tensor { elem: Box::new(Type::Bool), shape: None };
    assert!(check_assignable(false, &v, &bools, &tensor(None), &x).is_err());
}

#[test]
fn generic_assignability() {
    let v = Verifier::new(DummySolver);
    let x = ident("o");
    let opt = |t: Type| Type::Applied { name: "Option".to_string(), args: vec![t] };
    assert!(check_assignable(false, &v, &opt(Type::U32), &opt(range(1, 2)), &x).is_ok());
    assert!(check_assignable(false, &v, &opt(Type::Unknown), &opt(Type::Bool), &x).is_ok());
    assert!(check_assignable(false, &v, &opt(Type::Bool), &opt(Type::U8), &x).is_err());
    assert!(check_assignable(false, &v, &opt(range(1, 2)), &opt(Type::U32), &x).is_err());
    let other = Type::Applied { name: "List".to_string(), args: vec![Type::U32] };
    assert!(check_assignable(false, &v, &opt(Type::U32), &other, &x).is_err());
}
