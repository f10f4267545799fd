use aura_lang::capability_diagnostics::{
    CapabilityDiagnostic, CapabilityDiagnosticFactory, CapabilityDiagnosticReporter, CapabilityLocation,
    CapabilitySeverity, CodeSnippet, RelatedLocation,
};
use aura_lang::capability_enforcement::{CapabilityKind, CapabilityState, CapabilityViolation};

#[test]
fn test_use_after_consumption_diagnostic() {
    let diag = CapabilityDiagnosticFactory::use_after_consumption(
        "test.aura".to_string(),
        5,
        10,
        "socket",
        CapabilityKind::Socket,
        3,
        5,
    );
    assert_eq!(diag.severity, CapabilitySeverity::Error);
    assert!(diag.message.contains("socket"));
    assert!(diag.full_message().contains("consumed"));
}

#[test]
fn test_resource_leak_diagnostic() {
    let diag = CapabilityDiagnosticFactory::resource_leak(
        "test.aura".to_string(),
        10,
        0,
        "tensor",
        CapabilityKind::Tensor,
        2,
        5,
    );
    assert_eq!(diag.severity, CapabilitySeverity::Error);
    assert!(diag.message.contains("resource leak"));
    assert!(diag.suggestion.is_some());
}

#[test]
fn test_concurrent_use_diagnostic() {
    let diag = CapabilityDiagnosticFactory::concurrent_use_without_sync(
        "test.aura".to_string(),
        8,
        5,
        "shared_socket",
        CapabilityKind::Socket,
        3,
        0,
        7,
        10,
    );
    assert_eq!(diag.severity, CapabilitySeverity::Error);
    assert!(diag.message.contains("concurrent"));
    assert_eq!(diag.related_locations.len(), 2);
}

#[test]
fn capability_diagnostics_test_diagnostic_reporter() {
    let mut reporter = CapabilityDiagnosticReporter::new();
    let diag1 = CapabilityDiagnosticFactory::use_after_consumption(
        "test.aura".to_string(),
        5,
        10,
        "socket",
        CapabilityKind::Socket,
        3,
        5,
    );
    let diag2 =
        CapabilityDiagnosticFactory::improper_sharing("test.aura".to_string(), 10, 5, "tensor", CapabilityKind::Tensor);
    reporter.add(diag1);
    reporter.add(diag2);
    assert_eq!(reporter.count(), 2);
    assert_eq!(reporter.errors().len(), 1);
    assert_eq!(reporter.warnings().len(), 1);
}

#[test]
fn capability_diagnostics_test_code_snippet() {
    let snippet = CodeSnippet::new("val socket = Socket::create()".to_string(), 5, 4, 10);
    let display = snippet.display();
    assert!(display.contains("5 |"));
    assert!(display.contains("^"));
}

#[test]
fn test_location_display() {
    let loc = CapabilityLocation::new("test.aura".to_string(), 5, 10);
    assert_eq!(loc.display(), "test.aura:5:10");
}

#[test]
fn test_diagnostic_builder_pattern() {
    let location = CapabilityLocation::new("test.aura".to_string(), 5, 10);
    let violation =
        CapabilityViolation::ResourceLeak { var_name: "socket".to_string(), current_state: CapabilityState::InUse };
    let diag = CapabilityDiagnostic::new(location, violation, "test".to_string())
        .with_severity(CapabilitySeverity::Warning)
        .with_details("details".to_string())
        .with_suggestion("fix".to_string());
    assert_eq!(diag.severity, CapabilitySeverity::Warning);
    assert!(diag.details.is_some());
    assert!(diag.suggestion.is_some());
}

#[test]
fn snippet_marks_follow_bytes() {
    let snippet = CodeSnippet::new("abcdef".to_string(), 12, 1, 3);
    assert_eq!(snippet.display(), "  12 | abcdef\n    |  ^^   ");
    let snippet = CodeSnippet::new("é".to_string(), 1, 0, 1);
    assert_eq!(snippet.display(), "  1 | é\n    | ^ ");
}

#[test]
fn full_message_text() {
    let diag = CapabilityDiagnosticFactory::use_after_consumption(
        "t.aura".to_string(),
        5,
        10,
        "s",
        CapabilityKind::Socket,
        3,
        5,
    );
    assert_eq!(
        diag.full_message(),
        "error: capability 's' (socket) used after consumption\n  Details: The socket capability 's' was already consumed (closed/finalized) at 3:5. It cannot be used again after that point.\n  Related locations:\n    - 's' was consumed here at t.aura:3:5\n  Suggestion: Either:\n  1. Use 's' before the consumption point\n  2. Create a new socket capability instead\n  3. Restructure your code to avoid using after consumption"
    );
    let related = RelatedLocation::new("t.aura".to_string(), 1, 2, "here".to_string());
    let d = CapabilityDiagnostic::new(
        CapabilityLocation::new("t.aura".to_string(), 1, 1),
        CapabilityViolation::ImproperSharing { var_name: "x".to_string(), shared_at: (1, 1) },
        "m".to_string(),
    )
    .with_severity(CapabilitySeverity::Info)
    .with_related(related);
    assert_eq!(d.full_message(), "info: m\n  Related locations:\n    - here at t.aura:1:2");
}

#[test]
fn factory_messages() {
    let d = CapabilityDiagnosticFactory::improper_sharing("t.aura".to_string(), 4, 2, "m", CapabilityKind::Region);
    assert_eq!(d.severity, CapabilitySeverity::Warning);
    assert_eq!(d.message, "capability 'm' (region) shared without proper annotation");
    assert_eq!(
        d.suggestion.as_deref(),
        Some("Add a sharing annotation to 'm' if concurrent access is intentional:\n  @shared val m: region = ...")
    );
    assert!(matches!(d.violation, CapabilityViolation::ImproperSharing { shared_at: (4, 2), .. }));
    let d = CapabilityDiagnosticFactory::resource_leak("t.aura".to_string(), 9, 0, "t", CapabilityKind::Tensor, 2, 5);
    assert_eq!(d.message, "resource leak: tensor capability 't' not consumed before scope end");
    assert_eq!(d.related_locations[0].message, "'t' was defined here");
    let mut reporter = CapabilityDiagnosticReporter::default();
    reporter.add(d);
    assert!(reporter.has_errors());
    assert_eq!(reporter.all().len(), 1);
    assert!(reporter.report_all().starts_with("error: resource leak"));
    reporter.clear();
    assert_eq!(reporter.count(), 0);
    assert!(!reporter.has_errors());
}
