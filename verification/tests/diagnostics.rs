use aura_lang::diagnostics::{
    CodeSnippet, DiagnosticBuilder, DiagnosticFactory, DiagnosticReporter, LinearTypeDiagnostic, Location, Severity,
};
use aura_lang::ownership_enforcement::ViolationKind;

#[test]
fn test_location() {
    let loc = Location::new("test.aura".to_string(), 10, 5);
    assert_eq!(loc.display(), "test.aura:10:5");
}

#[test]
fn test_diagnostic_creation() {
    let diag = LinearTypeDiagnostic::new(
        Location::new("test.aura".to_string(), 5, 0),
        ViolationKind::UseAfterMove,
        "use after move".to_string(),
    );
    assert_eq!(diag.severity, Severity::Error);
    assert!(diag.display().contains("ERROR"));
}

#[test]
fn test_diagnostic_builder() {
    let diag = DiagnosticBuilder::new(
        "test.aura".to_string(),
        5,
        0,
        ViolationKind::UseAfterMove,
        "test error".to_string(),
    )
    .suggestion("fix this".to_string())
    .build();

    assert_eq!(diag.severity, Severity::Error);
    assert!(diag.suggestion.is_some());
}

#[test]
fn test_use_after_move_diagnostic() {
    let diag = DiagnosticFactory::use_after_move("test.aura".to_string(), 10, 5, "x", 5, 0);
    assert_eq!(diag.error_kind, ViolationKind::UseAfterMove);
    assert!(!diag.related.is_empty());
}

#[test]
fn diagnostics_test_code_snippet() {
    let lines = vec!["let x = model;".to_string(), "consume(x);".to_string(), "use(x);".to_string()];
    let snippet = CodeSnippet::new(lines, 1).with_highlight(2, 4, 5);
    let displayed = snippet.display();
    assert!(displayed.contains("3 | use(x);"));
}

#[test]
fn diagnostics_test_diagnostic_reporter() {
    let mut reporter = DiagnosticReporter::new();
    reporter.add(LinearTypeDiagnostic::new(
        Location::new("test.aura".to_string(), 1, 0),
        ViolationKind::UseAfterMove,
        "error".to_string(),
    ));
    assert!(reporter.has_errors());
    assert_eq!(reporter.errors().len(), 1);
}

#[test]
fn snippet_text_exact() {
    let lines = vec!["let x = model;".to_string(), "use(x);".to_string()];
    let snippet = CodeSnippet::new(lines, 9).with_highlight(1, 4, 5);
    assert_eq!(
        snippet.display(),
        "   9 | let x = model;\n  10 | use(x);\n     |            ^\n"
    );
    let wide = CodeSnippet::new(vec!["a".to_string()], 12345);
    assert_eq!(wide.display(), "12345 | a\n");
}

#[test]
fn full_diagnostic_text() {
    let snippet = CodeSnippet::new(vec!["f(x)".to_string()], 3).with_highlight(0, 2, 3);
    let diag = DiagnosticBuilder::new("m.aura".to_string(), 3, 2, ViolationKind::DoubleMove, "moved twice".to_string())
        .severity(Severity::Warning)
        .details("because".to_string())
        .related("m.aura".to_string(), 1, 1, "first".to_string())
        .suggestion("don't".to_string())
        .snippet(snippet)
        .build();
    assert_eq!(
        diag.display(),
        "WARNING: m.aura:3:2: moved twice\n\n   3 | f(x)\n     |          ^\n\nDetails:\n  because\n\nRelated locations:\n  m.aura:1:1 first\n\nSuggestion:\n  don't\n"
    );
    let mut reporter = DiagnosticReporter::new();
    reporter.add(diag);
    assert!(!reporter.has_errors());
    assert!(reporter.errors().is_empty());
    assert_eq!(reporter.diagnostics().len(), 1);
    assert!(reporter.report().ends_with("don't\n\n"));
}

#[test]
fn factory_texts() {
    let d = DiagnosticFactory::use_after_move("a.aura".to_string(), 10, 5, "x", 5, 0);
    assert_eq!(d.message, "cannot use binding 'x' after it was moved");
    assert_eq!(d.related[0].message, "'x' was moved here");
    assert_eq!(d.related[0].location.display(), "a.aura:5:0");
    assert_eq!(
        d.details.as_deref(),
        Some("The binding 'x' was moved at line 5:0, meaning ownership was transferred. After a move, the original binding cannot be used again.")
    );
    assert_eq!(
        d.suggestion.as_deref(),
        Some("If you need to use 'x' multiple times, either:\n  1. Clone/copy the value if it's copyable\n  2. Use a reference (&x) if borrowing is sufficient\n  3. Restructure your code to avoid the move")
    );

    let d = DiagnosticFactory::linear_not_consumed("a.aura".to_string(), 1, 2, "m", "Model");
    assert_eq!(d.message, "linear resource 'm' of type 'Model' was not consumed");
    assert_eq!(d.error_kind, ViolationKind::UseNotMoved);
    assert!(d.related.is_empty());

    let d = DiagnosticFactory::double_move("a.aura".to_string(), 7, 1, "y", 3, 4);
    assert_eq!(d.message, "cannot move binding 'y' a second time");
    assert_eq!(
        d.details.as_deref(),
        Some("The binding 'y' can only be moved once. After the first move at line 3:4, the binding is no longer usable.")
    );

    let d = DiagnosticFactory::move_after_borrow("a.aura".to_string(), 7, 1, "y", 3, 4);
    assert_eq!(d.message, "cannot move binding 'y' while it's borrowed");
    assert_eq!(d.related[0].message, "'y' was borrowed here");

    let d = DiagnosticFactory::borrow_after_move("a.aura".to_string(), 7, 1, "y", 3, 4);
    assert_eq!(d.message, "cannot borrow binding 'y' after it was moved");
    assert_eq!(
        d.suggestion.as_deref(),
        Some("Either avoid moving 'y', or restructure your code to borrow it before the move")
    );
}
