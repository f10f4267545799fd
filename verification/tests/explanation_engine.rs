use aura_lang::explanation_engine::{Counterexample, Explanation, ExplanationEngine, ProofStep, VariableBinding};

#[test]
fn test_proof_step_creation() {
    let step = ProofStep::new(
        (5, 0),
        "x = 10".to_string(),
        "x >= 0".to_string(),
        "x is assigned positive value".to_string(),
    );
    assert_eq!(step.location, (5, 0));
    assert_eq!(step.derives, "x >= 0");
}

#[test]
fn test_variable_binding() {
    let binding = VariableBinding::new("x".to_string(), "u32".to_string()).with_value("42".to_string());
    assert_eq!(binding.name, "x");
    assert_eq!(binding.value, Some("42".to_string()));
}

#[test]
fn test_counterexample_display() {
    let mut ce = Counterexample::new();
    let binding = VariableBinding::new("x".to_string(), "u32".to_string()).with_value("5".to_string());
    ce.add_binding(binding);
    ce.add_violation("x > 10".to_string(), "true".to_string(), "false".to_string());
    let display = ce.display();
    assert!(display.contains("x"));
    assert!(display.contains("5"));
}

#[test]
fn test_explanation_creation() {
    let mut exp = Explanation::new("Test error".to_string());
    let step = ProofStep::new((1, 0), "code".to_string(), "property".to_string(), "reason".to_string());
    exp.add_step(step);
    exp.add_suggestion("Fix it".to_string());
    assert!(!exp.proof_steps.is_empty());
    assert_eq!(exp.suggestions.len(), 1);
}

#[test]
fn test_explanation_engine() {
    let mut engine = ExplanationEngine::new();
    let binding = VariableBinding::new("x".to_string(), "u32".to_string()).with_value("5".to_string());
    engine.add_variable_info(binding);
    let exp = engine.explain_counterexample("x > 10", "true", "false");
    assert!(exp.message.contains("failed"));
    assert!(exp.counterexample.is_some());
}

#[test]
fn test_short_explanation() {
    let mut exp = Explanation::new("Error".to_string());
    let mut ce = Counterexample::new();
    ce.add_violation("prop".to_string(), "expected".to_string(), "actual".to_string());
    exp.set_counterexample(ce);
    let short = exp.short_explanation();
    assert!(short.contains("prop"));
    assert!(short.contains("expected"));
}

#[test]
fn test_full_explanation() {
    let mut exp = Explanation::new("Test error".to_string());
    let step = ProofStep::new((5, 0), "x = 10".to_string(), "derived".to_string(), "because".to_string());
    exp.add_step(step);
    let binding = VariableBinding::new("x".to_string(), "u32".to_string()).with_value("10".to_string());
    exp.add_variable(binding);
    let full = exp.full_explanation();
    assert!(full.contains("Test error"));
    assert!(full.contains("Proof"));
    assert!(full.contains("Variable Trace"));
}

#[test]
fn test_explain_with_example() {
    let engine = ExplanationEngine::new();
    let mut binding = VariableBinding::new("x".to_string(), "u32".to_string());
    binding.defined_at = (1, 0);
    let example = vec![("x".to_string(), "5".to_string())];
    let exp = engine.explain_with_example("x > 10", example);
    assert!(exp.message.contains("Counterexample"));
}

#[test]
fn exact_texts() {
    let step = ProofStep::new((7, 2), "y = 1".to_string(), "y > 0".to_string(), "literal".to_string());
    assert_eq!(step.to_english(), "At line 7: y = 1\nThis means: y > 0\nBecause: literal");
    let mut exp = Explanation::new("Boom".to_string());
    exp.add_step(step.with_child(ProofStep::new((1, 1), "a".to_string(), "b".to_string(), "c".to_string())));
    let mut b = VariableBinding::new("y".to_string(), "i32".to_string());
    b.defined_at = (3, 0);
    b.used_at = vec![(4, 1), (9, 2)];
    exp.add_variable(b);
    let mut ce = Counterexample::new();
    ce.add_violation("p".to_string(), "e".to_string(), "a".to_string());
    exp.set_counterexample(ce);
    exp.add_suggestion("s1".to_string());
    exp.add_suggestion("s2".to_string());
    assert_eq!(
        exp.full_explanation(),
        "# Boom\n\n## Proof\n1. At line 7: y = 1\n   → y > 0\n   (Because: literal)\n\n## Variable Trace\n  - y: i32\n    Defined at line 3\n    Used at lines: 4, 9\n\n## Counterexample\nCounterexample:\n  Variables:\n  Violations:\n    p should be 'e' but is 'a'\n\n## How to Fix\n1. s1\n2. s2\n"
    );
    assert_eq!(exp.short_explanation(), "p: expected e but got a");
    assert_eq!(Explanation::new("only".to_string()).short_explanation(), "only");
}

#[test]
fn trace_replaces_by_name_and_engine_explains() {
    let mut exp = Explanation::new("m".to_string());
    exp.add_variable(VariableBinding::new("x".to_string(), "u8".to_string()));
    exp.add_variable(VariableBinding::new("x".to_string(), "u16".to_string()));
    assert_eq!(exp.variable_trace.len(), 1);
    assert_eq!(exp.variable_trace.get("x").unwrap().ty, "u16");

    let mut engine = ExplanationEngine::default();
    engine.add_variable_info(VariableBinding::new("x".to_string(), "u32".to_string()));
    engine.add_proof_step((2, 0), ProofStep::new((2, 0), "s".to_string(), "d".to_string(), "r".to_string()));
    engine.add_proof_step((2, 0), ProofStep::new((2, 0), "t".to_string(), "d".to_string(), "r".to_string()));
    let exp = engine.explain_proof("inv", &[(2, 0), (3, 0), (2, 0)]);
    assert_eq!(exp.message, "Could not verify: inv");
    assert_eq!(exp.proof_steps.len(), 2);
    assert_eq!(exp.proof_steps[0].source_line, "t");
    assert_eq!(exp.variable_trace.len(), 1);

    let exp = engine.explain_counterexample("x > 1", "true", "false");
    assert_eq!(exp.message, "Verification failed: x > 1 should be 'true' but is 'false'");
    assert_eq!(exp.suggestions.len(), 2);

    let example = vec![("x".to_string(), "7".to_string()), ("z".to_string(), "1".to_string())];
    let exp = engine.explain_with_example("x > 10", example);
    let ce = exp.counterexample.as_ref().unwrap();
    assert_eq!(ce.bindings.len(), 1);
    assert_eq!(ce.bindings[0].display(), "x: u32 = 7");
    assert_eq!(exp.suggestions, vec!["Use this example to debug your code".to_string()]);
}
