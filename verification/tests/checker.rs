use aura_lang::ast::{
    AssertStmt, BinOp, IfStmt, WhileStmt, AssignStmt, Block, CallArg, CellDef, EnumDef, EnumFieldDef, EnumVariantDef, Expr, ExprKind, FlowOp, ImportStmt,
    MatchArm, MatchStmt, Param, Pattern, Program, RecordDef, RecordFieldDef, Spanned, Stmt, StrandDef, TypeArg,
    TypeParam, TypeRef,
};
use aura_lang::error::Span;
use aura_lang::sema::Checker;

fn sp() -> Span {
    Span { offset: 0, len: 1 }
}

fn id(name: &str) -> Spanned<String> {
    Spanned::new(sp(), name.to_string())
}

fn e(kind: ExprKind) -> Expr {
    Expr { span: sp(), kind }
}

fn var(name: &str) -> Expr {
    e(ExprKind::Ident(id(name)))
}

fn num(n: u64) -> Expr {
    e(ExprKind::IntLit(n))
}

fn text(s: &str) -> Expr {
    e(ExprKind::StringLit(s.to_string()))
}

/// `module::name(args)`
fn call(module: &str, name: &str, args: Vec<Expr>) -> Expr {
    let callee = e(ExprKind::Member { base: Box::new(var(module)), member: id(name) });
    e(ExprKind::Call { callee: Box::new(callee), args: args.into_iter().map(CallArg::Positional).collect(), trailing: None })
}

/// `name(args)`
fn call_fn(name: &str, args: Vec<Expr>) -> Expr {
    e(ExprKind::Call { callee: Box::new(var(name)), args: args.into_iter().map(CallArg::Positional).collect(), trailing: None })
}

fn ty(name: &str) -> TypeRef {
    TypeRef { span: sp(), name: id(name), args: vec![], range: None }
}

fn ty_of(name: &str, arg: TypeRef) -> TypeRef {
    TypeRef { span: sp(), name: id(name), args: vec![TypeArg::Type(Box::new(arg))], range: None }
}

fn val(name: &str, t: Option<TypeRef>, expr: Expr) -> Stmt {
    Stmt::StrandDef(StrandDef { span: sp(), name: id(name), mutable: false, ty: t, where_clause: None, expr })
}

fn val_mut(name: &str, t: Option<TypeRef>, expr: Expr) -> Stmt {
    Stmt::StrandDef(StrandDef { span: sp(), name: id(name), mutable: true, ty: t, where_clause: None, expr })
}

fn import(path: &[&str]) -> Stmt {
    Stmt::Import(ImportStmt { span: sp(), path: path.iter().map(|p| id(p)).collect() })
}

fn block(stmts: Vec<Stmt>) -> Block {
    Block { span: sp(), stmts, yield_expr: None }
}

fn cell(name: &str, params: Vec<(&str, TypeRef)>, body: Vec<Stmt>) -> Stmt {
    Stmt::CellDef(CellDef {
        span: sp(),
        name: id(name),
        params: params
            .into_iter()
            .map(|(n, t)| Param { span: sp(), name: id(n), mutable: false, ty: t })
            .collect(),
        flow: Some(FlowOp::Sync),
        body: block(body),
    })
}

fn arm(pat: Pattern, body: Vec<Stmt>) -> MatchArm {
    MatchArm { span: sp(), pat, body: block(body) }
}

fn match_on(x: Expr, arms: Vec<MatchArm>) -> Stmt {
    Stmt::Match(MatchStmt { span: sp(), scrutinee: x, arms })
}

fn int_pat(n: u64) -> Pattern {
    Pattern::IntLit { span: sp(), value: n }
}

fn wildcard() -> Pattern {
    Pattern::Wildcard { span: sp() }
}

fn check(stmts: Vec<Stmt>) -> Result<(), String> {
    Checker::new().check_program(&Program { stmts }).map_err(|err| err.message)
}

#[test]
fn match_requires_trailing_wildcard_arm() {
    // val x = 1
    // match x:
    //     1:
    //         val a = 0
    let err = check(vec![
        val("x", None, num(1)),
        match_on(var("x"), vec![arm(int_pat(1), vec![val("a", None, num(0))])]),
    ])
    .expect_err("expected sema error");
    assert!(err.contains("non-exhaustive match"), "unexpected error: {}", err);
}

#[test]
fn match_wildcard_must_be_last() {
    // val x = 1
    // match x:
    //     _:
    //         val a = 0
    //     1:
    //         val a = 1
    let err = check(vec![
        val("x", None, num(1)),
        match_on(
            var("x"),
            vec![arm(wildcard(), vec![val("a", None, num(0))]), arm(int_pat(1), vec![val("a", None, num(1))])],
        ),
    ])
    .expect_err("expected sema error");
    assert!(err.contains("wildcard") && err.contains("last"), "unexpected error: {}", err);
}

#[test]
fn match_rejects_duplicate_literals() {
    // val x = 1
    // match x:
    //     1:
    //         val a = 0
    //     1:
    //         val a = 1
    //     _:
    //         val a = 2
    let err = check(vec![
        val("x", None, num(1)),
        match_on(
            var("x"),
            vec![
                arm(int_pat(1), vec![val("a", None, num(0))]),
                arm(int_pat(1), vec![val("a", None, num(1))]),
                arm(wildcard(), vec![val("a", None, num(2))]),
            ],
        ),
    ])
    .expect_err("expected sema error");
    assert!(err.contains("duplicate"), "unexpected error: {}", err);
}

#[test]
fn model_use_after_move_rejected() {
    // import aura::ai
    // import aura::tensor
    //
    // cell main() ->:
    //   val model: Model = ai::load_model("test.onnx")
    //   val data1: Tensor = tensor::new(10)
    //   val data2: Tensor = tensor::new(5)
    //   val result1: Tensor = ai::infer(model, data1)
    //   val result2: Tensor = ai::infer(model, data2)
    let err = check(vec![
        import(&["aura", "ai"]),
        import(&["aura", "tensor"]),
        cell(
            "main",
            vec![],
            vec![
                val("model", Some(ty("Model")), call("ai", "load_model", vec![text("test.onnx")])),
                val("data1", Some(ty("Tensor")), call("tensor", "new", vec![num(10)])),
                val("data2", Some(ty("Tensor")), call("tensor", "new", vec![num(5)])),
                val("result1", Some(ty("Tensor")), call("ai", "infer", vec![var("model"), var("data1")])),
                val("result2", Some(ty("Tensor")), call("ai", "infer", vec![var("model"), var("data2")])),
            ],
        ),
    ])
    .expect_err("expected sema error");
    assert!(err.contains("used after move"), "expected 'used after move' error, got: {}", err);
}

#[test]
fn model_single_use_allowed() {
    // import aura::ai
    // import aura::tensor
    //
    // cell main() ->:
    //   val model: Model = ai::load_model("test.onnx")
    //   val data: Tensor = tensor::new(10)
    //   val result: Tensor = ai::infer(model, data)
    check(vec![
        import(&["aura", "ai"]),
        import(&["aura", "tensor"]),
        cell(
            "main",
            vec![],
            vec![
                val("model", Some(ty("Model")), call("ai", "load_model", vec![text("test.onnx")])),
                val("data", Some(ty("Tensor")), call("tensor", "new", vec![num(10)])),
                val("result", Some(ty("Tensor")), call("ai", "infer", vec![var("model"), var("data")])),
            ],
        ),
    ])
    .expect("sema should pass");
}

#[test]
fn copy_types_allow_reuse() {
    // cell main() ->:
    //   val x: u32 = 5
    //   val y: u32 = x
    //   val z: u32 = x
    //   val w: u32 = x + y + z
    let sum = e(ExprKind::Binary {
        left: Box::new(e(ExprKind::Binary {
            left: Box::new(var("x")),
            op: aura_lang::ast::BinOp::Add,
            right: Box::new(var("y")),
        })),
        op: aura_lang::ast::BinOp::Add,
        right: Box::new(var("z")),
    });
    check(vec![cell(
        "main",
        vec![],
        vec![
            val("x", Some(ty("u32")), num(5)),
            val("y", Some(ty("u32")), var("x")),
            val("z", Some(ty("u32")), var("x")),
            val("w", Some(ty("u32")), sum),
        ],
    )])
    .expect("sema should pass");
}

#[test]
fn tensor_multiple_independent_uses() {
    // import aura::tensor
    //
    // cell main() ->:
    //   val t1: Tensor = tensor::new(10)
    //   val t2: Tensor = tensor::new(5)
    //   val len1: u32 = tensor::len(t1)
    //   val len2: u32 = tensor::len(t2)
    check(vec![
        import(&["aura", "tensor"]),
        cell(
            "main",
            vec![],
            vec![
                val("t1", Some(ty("Tensor")), call("tensor", "new", vec![num(10)])),
                val("t2", Some(ty("Tensor")), call("tensor", "new", vec![num(5)])),
                val("len1", Some(ty("u32")), call("tensor", "len", vec![var("t1")])),
                val("len2", Some(ty("u32")), call("tensor", "len", vec![var("t2")])),
            ],
        ),
    ])
    .expect("sema should pass");
}

#[test]
fn tensor_mutable_borrow_allows_reuse() {
    // import aura::tensor
    //
    // cell main() ->:
    //   val mut t: Tensor = tensor::new(100)
    //   tensor::set(t, 0, 42)
    //   tensor::set(t, 1, 43)
    //   val len: u32 = tensor::len(t)
    check(vec![
        import(&["aura", "tensor"]),
        cell(
            "main",
            vec![],
            vec![
                val_mut("t", Some(ty("Tensor")), call("tensor", "new", vec![num(100)])),
                Stmt::ExprStmt(call("tensor", "set", vec![var("t"), num(0), num(42)])),
                Stmt::ExprStmt(call("tensor", "set", vec![var("t"), num(1), num(43)])),
                val("len", Some(ty("u32")), call("tensor", "len", vec![var("t")])),
            ],
        ),
    ])
    .expect("sema should pass");
}

#[test]
fn tensor_len_read_only_borrow_allows_reuse() {
    // import aura::tensor
    //
    // cell main() ->:
    //   val t: Tensor = tensor::new(100)
    //   val len1: u32 = tensor::len(t)
    //   val len2: u32 = tensor::len(t)
    //   val len3: u32 = tensor::len(t)
    check(vec![
        import(&["aura", "tensor"]),
        cell(
            "main",
            vec![],
            vec![
                val("t", Some(ty("Tensor")), call("tensor", "new", vec![num(100)])),
                val("len1", Some(ty("u32")), call("tensor", "len", vec![var("t")])),
                val("len2", Some(ty("u32")), call("tensor", "len", vec![var("t")])),
                val("len3", Some(ty("u32")), call("tensor", "len", vec![var("t")])),
            ],
        ),
    ])
    .expect("sema should pass");
}

#[test]
fn function_parameter_move() {
    // import aura::ai
    //
    // cell process_model(m: Model) ->:
    //   val len: u32 = 0
    //
    // cell main() ->:
    //   val model: Model = ai::load_model("test.onnx")
    //   process_model(model)
    //   val x: Model = model
    let err = check(vec![
        import(&["aura", "ai"]),
        cell("process_model", vec![("m", ty("Model"))], vec![val("len", Some(ty("u32")), num(0))]),
        cell(
            "main",
            vec![],
            vec![
                val("model", Some(ty("Model")), call("ai", "load_model", vec![text("test.onnx")])),
                Stmt::ExprStmt(call_fn("process_model", vec![var("model")])),
                val("x", Some(ty("Model")), var("model")),
            ],
        ),
    ])
    .expect_err("expected sema error");
    assert!(err.contains("used after move"), "expected 'used after move' error, got: {}", err);
}

#[test]
fn immutable_tensor_move_on_consume() {
    // import aura::tensor
    //
    // cell consume_tensor(t: Tensor) ->:
    //   val len: u32 = tensor::len(t)
    //
    // cell main() ->:
    //   val t: Tensor = tensor::new(10)
    //   consume_tensor(t)
    //   val len: u32 = tensor::len(t)
    let err = check(vec![
        import(&["aura", "tensor"]),
        cell(
            "consume_tensor",
            vec![("t", ty("Tensor"))],
            vec![val("len", Some(ty("u32")), call("tensor", "len", vec![var("t")]))],
        ),
        cell(
            "main",
            vec![],
            vec![
                val("t", Some(ty("Tensor")), call("tensor", "new", vec![num(10)])),
                Stmt::ExprStmt(call_fn("consume_tensor", vec![var("t")])),
                val("len", Some(ty("u32")), call("tensor", "len", vec![var("t")])),
            ],
        ),
    ])
    .expect_err("expected sema error");
    assert!(err.contains("used after move"), "expected 'used after move' error, got: {}", err);
}

#[test]
fn tensor_len_borrows_readonly_does_not_move() {
    // import aura::tensor
    //
    // cell main() ->:
    //   val t: Tensor = tensor::new(1)
    //   val a: u32 = tensor::len(t)
    //   val b: u32 = tensor::len(t)
    check(vec![
        import(&["aura", "tensor"]),
        cell(
            "main",
            vec![],
            vec![
                val("t", Some(ty("Tensor")), call("tensor", "new", vec![num(1)])),
                val("a", Some(ty("u32")), call("tensor", "len", vec![var("t")])),
                val("b", Some(ty("u32")), call("tensor", "len", vec![var("t")])),
            ],
        ),
    ])
    .expect("sema");
}

#[test]
fn tensor_set_requires_mutable_binding() {
    // import aura::tensor
    //
    // cell main() ->:
    //   val t: Tensor = tensor::new(1)
    //   tensor::set(t, 0, 1)
    let err = check(vec![
        import(&["aura", "tensor"]),
        cell(
            "main",
            vec![],
            vec![
                val("t", Some(ty("Tensor")), call("tensor", "new", vec![num(1)])),
                Stmt::ExprStmt(call("tensor", "set", vec![var("t"), num(0), num(1)])),
            ],
        ),
    ])
    .expect_err("expected sema error");
    assert!(err.contains("immutable") && err.contains("tensor"), "unexpected error: {}", err);
}

#[test]
fn tensor_set_allows_mutable_binding_and_does_not_move() {
    // import aura::tensor
    //
    // cell main() ->:
    //   val mut t: Tensor = tensor::new(1)
    //   tensor::set(t, 0, 1)
    //   val n: u32 = tensor::len(t)
    check(vec![
        import(&["aura", "tensor"]),
        cell(
            "main",
            vec![],
            vec![
                val_mut("t", Some(ty("Tensor")), call("tensor", "new", vec![num(1)])),
                Stmt::ExprStmt(call("tensor", "set", vec![var("t"), num(0), num(1)])),
                val("n", Some(ty("u32")), call("tensor", "len", vec![var("t")])),
            ],
        ),
    ])
    .expect("sema");
}

fn type_param(name: &str) -> TypeParam {
    TypeParam { span: sp(), name: id(name), bound: None }
}

#[test]
fn generic_record_infers_and_allows_annotation() {
    // type Box<T> = record { x: T }
    //
    // val b: Box<u32> = Box { x: 1 }
    // val y: u32 = b.x
    let record = Stmt::RecordDef(RecordDef {
        span: sp(),
        name: id("Box"),
        params: vec![type_param("T")],
        fields: vec![RecordFieldDef { span: sp(), name: id("x"), ty: ty("T"), default: None }],
    });
    let lit = e(ExprKind::RecordLit { name: id("Box"), fields: vec![(id("x"), num(1))] });
    let member = e(ExprKind::Member { base: Box::new(var("b")), member: id("x") });
    check(vec![record, val("b", Some(ty_of("Box", ty("u32"))), lit), val("y", Some(ty("u32")), member)])
        .expect("sema");
}

#[test]
fn generic_enum_ctor_and_match_binder_types() {
    // type Option<T> = enum { Some(x: T), None }
    //
    // val o: Option<u32> = Option::Some(1)
    //
    // match o:
    //     Option::Some(x):
    //         val y: u32 = x
    //     _:
    //         val z: u32 = 0
    let option = Stmt::EnumDef(EnumDef {
        span: sp(),
        name: id("Option"),
        params: vec![type_param("T")],
        variants: vec![
            EnumVariantDef {
                span: sp(),
                name: id("Some"),
                fields: vec![EnumFieldDef { span: sp(), name: id("x"), ty: ty("T") }],
            },
            EnumVariantDef { span: sp(), name: id("None"), fields: vec![] },
        ],
    });
    let ctor = Pattern::Ctor { span: sp(), ty: id("Option"), variant: id("Some"), binders: vec![id("x")] };
    check(vec![
        option,
        val("o", Some(ty_of("Option", ty("u32"))), call("Option", "Some", vec![num(1)])),
        match_on(
            var("o"),
            vec![arm(ctor, vec![val("y", Some(ty("u32")), var("x"))]), arm(wildcard(), vec![val("z", Some(ty("u32")), num(0))])],
        ),
    ])
    .expect("sema");
}

#[test]
fn builtin_signatures_and_defaults() {
    let c = Checker::new();
    assert_eq!(c.function_param_names("ai.infer"), Some(vec!["model".to_string(), "input".to_string()]));
    assert_eq!(
        c.function_param_names("shop.edit"),
        Some(vec!["index".to_string(), "name".to_string(), "qty".to_string(), "notes".to_string()])
    );
    assert_eq!(c.function_param_names("ui.event_text"), Some(vec![]));
    assert_eq!(c.function_param_names("nope"), None);
    assert_eq!(c.enum_variant_info("Option", "Some"), None);
}

#[test]
fn declared_functions_and_enums_are_known_after_checking() {
    let mut c = Checker::new();
    let option = Stmt::EnumDef(EnumDef {
        span: sp(),
        name: id("Status"),
        params: vec![],
        variants: vec![
            EnumVariantDef { span: sp(), name: id("Active"), fields: vec![] },
            EnumVariantDef {
                span: sp(),
                name: id("Code"),
                fields: vec![EnumFieldDef { span: sp(), name: id("code"), ty: ty("u32") }],
            },
        ],
    });
    let program = Program {
        stmts: vec![option, cell("f", vec![("a", ty("u32")), ("b", ty("bool"))], vec![val("x", None, num(1))])],
    };
    c.check_program(&program).expect("sema");
    assert_eq!(c.function_param_names("f"), Some(vec!["a".to_string(), "b".to_string()]));
    assert_eq!(c.enum_variant_info("Status", "Code"), Some((1, 1)));
    assert_eq!(c.enum_variant_info("Status", "Active"), Some((0, 0)));
    assert_eq!(c.enum_variant_info("Status", "Gone"), None);
}

#[test]
fn statement_errors() {
    // an empty match
    let err = check(vec![val("x", None, num(1)), match_on(var("x"), vec![])]).unwrap_err();
    assert_eq!(err, "match must have at least one arm");
    // a literal beyond u32
    let err = check(vec![val("x", None, num(1 << 40))]).unwrap_err();
    assert_eq!(err, "integer literal out of range for u32 (max=4294967295)");
    // a second binding of one name, an unknown name, assigning to an immutable binding
    let err = check(vec![val("x", None, num(1)), val("x", None, num(2))]).unwrap_err();
    assert_eq!(err, "val 'x' already defined as u32[1..1]");
    let err = check(vec![val("x", None, var("y"))]).unwrap_err();
    assert_eq!(err, "unknown identifier 'y'");
    let assign = Stmt::Assign(AssignStmt { span: sp(), target: id("x"), expr: num(2) });
    let err = check(vec![val("x", None, num(1)), assign]).unwrap_err();
    assert_eq!(err, "cannot assign to immutable val 'x'");
    let assign = Stmt::Assign(AssignStmt { span: sp(), target: id("x"), expr: num(2) });
    assert!(check(vec![val_mut("x", Some(ty("u32")), num(1)), assign]).is_ok());
    // a range literal out of its range
    let ranged = TypeRef {
        span: sp(),
        name: id("u32"),
        args: vec![],
        range: Some(aura_lang::ast::RangeConstraint { span: sp(), lo: num(0), hi: num(10) }),
    };
    // (a binding checks only the base type; an assignment checks the range)
    let assign = Stmt::Assign(AssignStmt { span: sp(), target: id("x"), expr: num(11) });
    let err = check(vec![val_mut("x", Some(ranged), num(11)), assign]).unwrap_err();
    assert_eq!(err, "literal 11 is outside required range 0..10");
    // macros must be expanded before the semantic pass
    let mac = Stmt::MacroCall(aura_lang::ast::MacroCall { span: sp(), name: id("m"), args: vec![] });
    let err = check(vec![cell("main", vec![], vec![mac])]).unwrap_err();
    assert_eq!(err, "macros must be expanded before semantic analysis");
    // an alias that names itself
    let alias = Stmt::TypeAlias(aura_lang::ast::TypeAlias {
        span: sp(),
        name: id("Loop"),
        params: vec![type_param("T")],
        target: ty_of("Loop", ty("T")),
    });
    let err = check(vec![alias, val("x", Some(ty_of("Loop", ty("u32"))), num(1))]).unwrap_err();
    assert_eq!(err, "type alias 'Loop' expands without end");
}

#[test]
fn runtime_header_declares_the_wide_integers() {
    let h = aura_lang::backend::emit_runtime_h();
    assert!(h.starts_with("#pragma once\n"));
    assert!(h.contains("aura_u128_t"));
    assert!(h.contains("aura_i128_t"));
    assert!(h.contains("AURA_RANGE_CHECK_U32"));
}

#[test]
fn non_copy_identifier_is_moved_when_passed_to_user_cell() {
    // import aura::tensor
    //
    // cell consume(x: Tensor) ->:
    //   val z: u32 = 0
    //
    // cell main() ->:
    //   val t: Tensor = tensor::new(1)
    //   consume(t)
    //   val n: u32 = tensor::len(t)
    let err = check(vec![
        import(&["aura", "tensor"]),
        cell("consume", vec![("x", ty("Tensor"))], vec![val("z", Some(ty("u32")), num(0))]),
        cell(
            "main",
            vec![],
            vec![
                val("t", Some(ty("Tensor")), call("tensor", "new", vec![num(1)])),
                Stmt::ExprStmt(call_fn("consume", vec![var("t")])),
                val("n", Some(ty("u32")), call("tensor", "len", vec![var("t")])),
            ],
        ),
    ])
    .expect_err("expected sema error");
    // The ownership check reports the move first, with the message of
    // `immutable_tensor_move_on_consume` and `function_parameter_move`.
    assert!(err.contains("used after move"), "unexpected error: {}", err);
}

#[test]
fn enum_ctor_moves_non_copy_identifier_args() {
    // import aura::tensor
    //
    // type Opt = enum { None, Some(v: Tensor) }
    //
    // cell main() ->:
    //   val t: Tensor = tensor::new(1)
    //   val o: Opt = Opt::Some(t)
    //   val n: u32 = tensor::len(t)
    let opt = Stmt::EnumDef(EnumDef {
        span: sp(),
        name: id("Opt"),
        params: vec![],
        variants: vec![
            EnumVariantDef { span: sp(), name: id("None"), fields: vec![] },
            EnumVariantDef {
                span: sp(),
                name: id("Some"),
                fields: vec![EnumFieldDef { span: sp(), name: id("v"), ty: ty("Tensor") }],
            },
        ],
    });
    let err = check(vec![
        import(&["aura", "tensor"]),
        opt,
        cell(
            "main",
            vec![],
            vec![
                val("t", Some(ty("Tensor")), call("tensor", "new", vec![num(1)])),
                val("o", Some(ty("Opt")), call("Opt", "Some", vec![var("t")])),
                val("n", Some(ty("u32")), call("tensor", "len", vec![var("t")])),
            ],
        ),
    ])
    .expect_err("expected sema error");
    // The ownership check reports the move first, with the message of
    // `immutable_tensor_move_on_consume` and `function_parameter_move`.
    assert!(err.contains("used after move"), "unexpected error: {}", err);
}

fn linear_record_moved_then_read(nominal: &str, field: &str, init: u64, first: &str, second: &str) -> Result<(), String> {
    // type <T> = record { <field>: u32 }
    //
    // cell main() ->:
    //   val <first>: <T> = <T> { <field>: <init> }
    //   val <second>: <T> = <first>
    //   val y: u32 = <first>.<field>
    let record = Stmt::RecordDef(RecordDef {
        span: sp(),
        name: id(nominal),
        params: vec![],
        fields: vec![RecordFieldDef { span: sp(), name: id(field), ty: ty("u32"), default: None }],
    });
    let lit = e(ExprKind::RecordLit { name: id(nominal), fields: vec![(id(field), num(init))] });
    let member = e(ExprKind::Member { base: Box::new(var(first)), member: id(field) });
    check(vec![
        record,
        cell(
            "main",
            vec![],
            vec![
                val(first, Some(ty(nominal)), lit),
                val(second, Some(ty(nominal)), var(first)),
                val("y", Some(ty("u32")), member),
            ],
        ),
    ])
}

#[test]
fn socket_named_nominal_is_treated_as_linear_and_cannot_be_used_after_move() {
    let err = linear_record_moved_then_read("Socket", "x", 1, "s", "t").expect_err("expected sema error");
    // The ownership check reports the move first, with the message of
    // `immutable_tensor_move_on_consume` and `function_parameter_move`.
    assert!(err.contains("used after move"), "unexpected error: {}", err);
}

#[test]
fn region_named_nominal_is_treated_as_linear_and_cannot_be_used_after_move() {
    let err = linear_record_moved_then_read("Region", "id", 0, "r", "q").expect_err("expected sema error");
    // The ownership check reports the move first, with the message of
    // `immutable_tensor_move_on_consume` and `function_parameter_move`.
    assert!(err.contains("used after move"), "unexpected error: {}", err);
}

fn bin(left: Expr, op: BinOp, right: Expr) -> Expr {
    e(ExprKind::Binary { left: Box::new(left), op, right: Box::new(right) })
}

#[test]
fn literal_statements_in_a_cell_check() {
    // cell main() ->:
    //   assert 1 + 2 < 4
    //   3 * 5
    //   match 7:
    //     7:
    //     _:
    let assert_stmt = Stmt::Assert(AssertStmt { span: sp(), expr: bin(bin(num(1), BinOp::Add, num(2)), BinOp::Lt, num(4)) });
    let expr_stmt = Stmt::ExprStmt(bin(num(3), BinOp::Mul, num(5)));
    let m = match_on(num(7), vec![arm(int_pat(7), vec![]), arm(wildcard(), vec![])]);
    check(vec![cell("main", vec![], vec![assert_stmt, expr_stmt, m])]).expect("sema");
}

#[test]
fn ill_typed_literal_expressions_are_refused() {
    let err = check(vec![Stmt::ExprStmt(bin(num(1), BinOp::Add, text("a")))]).expect_err("expected sema error");
    assert!(err.contains("arithmetic op expects u32,u32"), "unexpected error: {}", err);
    let err = check(vec![Stmt::Assert(AssertStmt { span: sp(), expr: num(1) })]).expect_err("expected sema error");
    assert!(err.contains("assert expects bool"), "unexpected error: {}", err);
    let err = check(vec![match_on(num(7), vec![arm(int_pat(7), vec![])])]).expect_err("expected sema error");
    assert_eq!(err, "non-exhaustive match; add a final '_' arm");
}

#[test]
fn cell_with_literal_vals_checks() {
    // cell main() ->:
    //   val a = 1 + 2
    //   val b = "text"
    //   val c = 3 < 4
    //   assert c == c
    check(vec![cell(
        "main",
        vec![],
        vec![
            val("a", None, bin(num(1), BinOp::Add, num(2))),
            val("b", None, text("text")),
            val("c", None, bin(num(3), BinOp::Lt, num(4))),
            Stmt::Assert(AssertStmt { span: sp(), expr: bin(num(5), BinOp::Eq, num(5)) }),
        ],
    )])
    .expect("sema");
}

#[test]
fn if_and_while_need_bool_conditions() {
    // cell main() ->:
    //   val n = 3
    //   if n < 4:
    //     val a = 1
    //   else:
    //     val b = 2
    //   while n > 0 invariant true decreases n:
    //     n + 1
    let if_stmt = Stmt::If(IfStmt {
        span: sp(),
        cond: bin(var("n"), BinOp::Lt, num(4)),
        then_block: block(vec![val("a", None, num(1))]),
        else_block: Some(block(vec![val("b", None, num(2))])),
    });
    let while_stmt = Stmt::While(WhileStmt {
        span: sp(),
        cond: bin(var("n"), BinOp::Gt, num(0)),
        invariant: Some(bin(num(1), BinOp::Eq, num(1))),
        decreases: Some(var("n")),
        body: block(vec![Stmt::ExprStmt(bin(var("n"), BinOp::Add, num(1)))]),
    });
    check(vec![cell("main", vec![], vec![val("n", None, num(3)), if_stmt, while_stmt])]).expect("sema");
    let bad_if = Stmt::If(IfStmt { span: sp(), cond: bin(num(1), BinOp::Add, num(2)), then_block: block(vec![]), else_block: None });
    let err = check(vec![cell("main", vec![], vec![bad_if])]).expect_err("expected sema error");
    assert!(err.starts_with("if condition must be bool"), "unexpected error: {}", err);
}

#[test]
fn cell_with_named_vals_is_decided() {
    // cell main() ->:
    //   val a = 1
    //   val b: u32 = a + 2
    //   assert b > 0
    check(vec![cell(
        "main",
        vec![],
        vec![
            val("a", None, num(1)),
            val("b", Some(ty("u32")), bin(var("a"), BinOp::Add, num(2))),
            Stmt::Assert(AssertStmt { span: sp(), expr: bin(var("b"), BinOp::Gt, num(0)) }),
        ],
    )])
    .expect("sema");
    // val s: u32 = "x"
    check(vec![cell("main", vec![], vec![val("s", Some(ty("u32")), text("x"))])]).expect_err("expected sema error");
    // val a = 1; assert a
    let err = check(vec![cell(
        "main",
        vec![],
        vec![val("a", None, num(1)), Stmt::Assert(AssertStmt { span: sp(), expr: var("a") })],
    )])
    .expect_err("expected sema error");
    assert!(err.contains("assert expects bool"), "unexpected error: {}", err);
    // val s = "x"; s + 1
    let err = check(vec![cell(
        "main",
        vec![],
        vec![val("s", None, text("x")), Stmt::ExprStmt(bin(var("s"), BinOp::Add, num(1)))],
    )])
    .expect_err("expected sema error");
    assert!(err.contains("arithmetic op expects u32,u32"), "unexpected error: {}", err);
    // val a = 1; val a = 2
    check(vec![cell("main", vec![], vec![val("a", None, num(1)), val("a", None, num(2))])])
        .expect_err("expected sema error");
}

#[test]
fn moved_model_named_as_a_statement_is_refused() {
    // import aura::ai
    // import aura::tensor
    //
    // cell main() ->:
    //   val model: Model = ai::load_model("test.onnx")
    //   val data: Tensor = tensor::new(10)
    //   val result: Tensor = ai::infer(model, data)
    //   model
    let err = check(vec![
        import(&["aura", "ai"]),
        import(&["aura", "tensor"]),
        cell(
            "main",
            vec![],
            vec![
                val("model", Some(ty("Model")), call("ai", "load_model", vec![text("test.onnx")])),
                val("data", Some(ty("Tensor")), call("tensor", "new", vec![num(10)])),
                val("result", Some(ty("Tensor")), call("ai", "infer", vec![var("model"), var("data")])),
                Stmt::ExprStmt(var("model")),
            ],
        ),
    ])
    .expect_err("expected sema error");
    assert_eq!(err, "value 'model' used after move");
}

#[test]
fn integer_pattern_on_string_scrutinee_is_refused() {
    // cell main() ->:
    //   val s = "a"
    //   match s:
    //     1:
    //     _:
    check(vec![cell(
        "main",
        vec![],
        vec![val("s", None, text("a")), match_on(var("s"), vec![arm(int_pat(1), vec![]), arm(wildcard(), vec![])])],
    )])
    .expect_err("expected sema error");
    check(vec![cell(
        "main",
        vec![],
        vec![val("n", None, num(3)), match_on(var("n"), vec![arm(int_pat(1), vec![]), arm(wildcard(), vec![])])],
    )])
    .expect("sema");
}
