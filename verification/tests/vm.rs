use aura_lang::ast::{ImportStmt, Pattern, Program, Spanned, Stmt};
use aura_lang::error::Span;
use aura_lang::vm::{
    avm_value_to_prop_string, detect_requested_plugins, normalize_source_for_plugin_imports, format_ui_tree, interpolate_string, is_ui_call,
    pat_matches_value, stmt_kind_name, stmt_span, AvmValue, UiNode,
};

fn sp(offset: usize) -> Span {
    Span { offset, len: 2 }
}

fn import(path: &[&str]) -> Stmt {
    Stmt::Import(ImportStmt { span: sp(3), path: path.iter().map(|p| Spanned::new(sp(0), p.to_string())).collect() })
}

#[test]
fn plugins_are_listed_once_in_order() {
    let program = Program {
        stmts: vec![
            import(&["aura_lumina"]),
            import(&["aura", "ai"]),
            import(&["aura", "tensor"]),
            import(&["aura_ai"]),
            import(&["x", "ai"]),
        ],
    };
    assert_eq!(detect_requested_plugins(&program), vec!["aura-ai".to_string(), "aura-lumina".to_string()]);
    let program = Program { stmts: vec![import(&["aura", "iot"]), import(&[])] };
    assert_eq!(detect_requested_plugins(&program), vec!["aura-iot".to_string()]);
    assert!(detect_requested_plugins(&Program { stmts: vec![] }).is_empty());
}

#[test]
fn statement_names_and_spans() {
    let s = import(&["aura"]);
    assert_eq!(stmt_kind_name(&s), "Import");
    assert_eq!(stmt_span(&s), sp(3));
}

#[test]
fn ui_calls() {
    assert!(is_ui_call("Button", false));
    assert!(is_ui_call("anything", true));
    assert!(!is_ui_call("button", false));
}

#[test]
fn patterns_match_values() {
    assert!(pat_matches_value(&Pattern::Wildcard { span: sp(0) }, &AvmValue::Unit));
    assert!(pat_matches_value(&Pattern::IntLit { span: sp(0), value: 7 }, &AvmValue::Int(7)));
    assert!(!pat_matches_value(&Pattern::IntLit { span: sp(0), value: 7 }, &AvmValue::Int(8)));
    assert!(pat_matches_value(&Pattern::IntLit { span: sp(0), value: u64::MAX }, &AvmValue::Int(-1)));
    assert!(pat_matches_value(&Pattern::StringLit { span: sp(0), value: "a".to_string() }, &AvmValue::Str("a".to_string())));
    assert!(!pat_matches_value(&Pattern::IntLit { span: sp(0), value: 1 }, &AvmValue::Bool(true)));
}

#[test]
fn property_texts() {
    assert_eq!(avm_value_to_prop_string(&AvmValue::Int(-42)), "-42");
    assert_eq!(avm_value_to_prop_string(&AvmValue::Bool(false)), "false");
    assert_eq!(avm_value_to_prop_string(&AvmValue::Str("red".to_string())), "red");
    assert_eq!(avm_value_to_prop_string(&AvmValue::Style(vec![])), "<style>");
    assert_eq!(avm_value_to_prop_string(&AvmValue::Unit), "Unit");
    let node = UiNode { kind: "Button".to_string(), props: vec![], children: vec![] };
    assert_eq!(avm_value_to_prop_string(&AvmValue::Ui(node)), "<Button>");
}

#[test]
fn interpolation() {
    let env = vec![
        ("n".to_string(), AvmValue::Int(3)),
        ("s".to_string(), AvmValue::Str("hi".to_string())),
        ("n".to_string(), AvmValue::Int(-4)),
        ("u".to_string(), AvmValue::Unit),
    ];
    assert_eq!(interpolate_string(&env, "n={n}, s={s}, u={u}"), "n=-4, s=hi, u=()");
    assert_eq!(interpolate_string(&env, "{missing} {n"), "{missing} {n");
    assert_eq!(interpolate_string(&env, "{{n}}"), "{{n}}");
    assert_eq!(interpolate_string(&env, "a{n}b{s}"), "a-4bhi");
    assert_eq!(interpolate_string(&env, ""), "");
}

#[test]
fn ui_tree_text() {
    let leaf = UiNode {
        kind: "Text".to_string(),
        props: vec![("value".to_string(), "hi".to_string()), ("color".to_string(), "red".to_string())],
        children: vec![],
    };
    let root = UiNode {
        kind: "App".to_string(),
        props: vec![],
        children: vec![UiNode { kind: "VStack".to_string(), props: vec![], children: vec![leaf] }],
    };
    assert_eq!(format_ui_tree(&root), "App\n  VStack\n    Text(value: hi, color: red)\n");
}

#[test]
fn plugin_imports_are_normalized() {
    assert_eq!(
        normalize_source_for_plugin_imports("import aura-ai\n\timport aura-iot\nval x = 1\n"),
        "import aura_ai\n import aura_iot\nval x = 1"
    );
    assert_eq!(normalize_source_for_plugin_imports("  import aura-lumina x"), "  import aura_lumina x");
    assert_eq!(normalize_source_for_plugin_imports("\u{3000}import aura-ai"), "   import aura_ai");
    assert_eq!(normalize_source_for_plugin_imports("val s = \"import aura-ai\""), "val s = \"import aura-ai\"");
    assert_eq!(normalize_source_for_plugin_imports(""), "");
}
