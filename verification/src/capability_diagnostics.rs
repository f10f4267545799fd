//! Diagnostics for capability violations: location, details, related locations,
//! suggestions, a one-line code snippet, and a reporter that collects them.
use std::collections::VecDeque;
use vstd::prelude::*;
use crate::capability_enforcement::{CapabilityKind, CapabilityState, CapabilityViolation, ViolationModel};
use crate::diagnostics::{LocationModel, RelatedModel, location_text, opt_text};
use crate::ownership_enforcement::{append_decimal, quote_between, quoted};
use crate::text::{nat_decimal, push_char};

verus! {

/// How serious a capability diagnostic is.
#[derive(Clone, Copy, Debug, PartialEq, Eq, Structural)]
pub enum CapabilitySeverity {
    Error,
    Warning,
    Info,
}

impl CapabilitySeverity {
    pub open spec fn severity_text(self) -> Seq<char> {
        match self {
            CapabilitySeverity::Error => "error"@,
            CapabilitySeverity::Warning => "warning"@,
            CapabilitySeverity::Info => "info"@,
        }
    }

    /// The lower-case name of the severity.
    pub fn display(&self) -> (r: &'static str)
        ensures
            r@ == self.severity_text(),
    {
        match self {
            CapabilitySeverity::Error => "error",
            CapabilitySeverity::Warning => "warning",
            CapabilitySeverity::Info => "info",
        }
    }
}

/// A position in a source file.
#[derive(Clone, Debug)]
pub struct CapabilityLocation {
    pub file: String,
    pub line: u32,
    pub col: u32,
}

impl View for CapabilityLocation {
    type V = LocationModel;

    open spec fn view(&self) -> LocationModel {
        LocationModel { file: self.file@, line: self.line, col: self.col }
    }
}

fn append_location(out: &mut String, l: &CapabilityLocation)
    ensures
        final(out)@ == old(out)@ + location_text(l@),
{
    out.append(l.file.as_str());
    out.append(":");
    append_decimal(out, l.line as u64);
    out.append(":");
    append_decimal(out, l.col as u64);
    assert(final(out)@ =~= old(out)@ + location_text(l@));
}

impl CapabilityLocation {
    pub fn new(file: String, line: u32, col: u32) -> (r: Self)
        ensures
            r@ == (LocationModel { file: file@, line, col }),
    {
        CapabilityLocation { file, line, col }
    }

    /// `file:line:col`.
    pub fn display(&self) -> (r: String)
        ensures
            r@ == location_text(self@),
    {
        let mut out = String::new();
        append_location(&mut out, self);
        assert(out@ =~= location_text(self@));
        out
    }
}

/// A location that gives context to a diagnostic, with a message.
#[derive(Clone, Debug)]
pub struct RelatedLocation {
    pub location: CapabilityLocation,
    pub message: String,
}

impl View for RelatedLocation {
    type V = RelatedModel;

    open spec fn view(&self) -> RelatedModel {
        RelatedModel { location: self.location@, message: self.message@ }
    }
}

impl RelatedLocation {
    pub fn new(file: String, line: u32, col: u32, message: String) -> (r: Self)
        ensures
            r@ == (RelatedModel { location: LocationModel { file: file@, line, col }, message: message@ }),
    {
        RelatedLocation { location: CapabilityLocation::new(file, line, col), message }
    }
}

/// One source line with a highlighted byte range.
#[derive(Clone, Debug)]
pub struct CodeSnippet {
    pub source_line: String,
    pub line_number: u32,
    pub highlight_start: u32,
    pub highlight_end: u32,
}

pub struct LineSnippetModel {
    pub source_line: Seq<char>,
    pub line_number: u32,
    pub highlight_start: u32,
    pub highlight_end: u32,
}

impl View for CodeSnippet {
    type V = LineSnippetModel;

    open spec fn view(&self) -> LineSnippetModel {
        LineSnippetModel {
            source_line: self.source_line@,
            line_number: self.line_number,
            highlight_start: self.highlight_start,
            highlight_end: self.highlight_end,
        }
    }
}

/// One mark per byte of the UTF-8 encoding of the line: `^` inside the highlight,
/// a space outside it.
pub open spec fn marks(n: nat, start: u32, end: u32) -> Seq<char> {
    Seq::new(n, |i: int| if start <= i && i < end { '^' } else { ' ' })
}

/// `  {line} | {source}` and, below it, `    | ` followed by the marks.
pub open spec fn line_snippet_text(s: LineSnippetModel) -> Seq<char> {
    "  "@ + nat_decimal(s.line_number as nat) + " | "@ + s.source_line + "\n"@ + "    | "@
        + marks(vstd::utf8::encode_utf8(s.source_line).len(), s.highlight_start, s.highlight_end)
}

impl CodeSnippet {
    pub fn new(source_line: String, line_number: u32, highlight_start: u32, highlight_end: u32) -> (r: Self)
        ensures
            r@ == (LineSnippetModel { source_line: source_line@, line_number, highlight_start, highlight_end }),
    {
        CodeSnippet { source_line, line_number, highlight_start, highlight_end }
    }

    /// The numbered line and the highlight marks under it (see [`line_snippet_text`]).
    pub fn display(&self) -> (r: String)
        ensures
            r@ == line_snippet_text(self@),
    {
        let mut output = String::from_str("  ");
        append_decimal(&mut output, self.line_number as u64);
        output.append(" | ");
        output.append(self.source_line.as_str());
        output.append("\n");
        output.append("    | ");
        let ghost head = output@;
        let n = self.source_line.as_str().as_bytes().len();
        let start = self.highlight_start as usize;
        let end = self.highlight_end as usize;
        let mut i: usize = 0;
        while i < n
            invariant
                i <= n,
                start == self.highlight_start,
                end == self.highlight_end,
                output@ == head + marks(i as nat, self.highlight_start, self.highlight_end),
            decreases n - i,
        {
            if i >= start && i < end {
                push_char(&mut output, '^');
            } else {
                push_char(&mut output, ' ');
            }
            i = i + 1;
            assert(output@ =~= head + marks(i as nat, self.highlight_start, self.highlight_end));
        }
        assert(output@ =~= line_snippet_text(self@));
        output
    }
}

/// A capability violation with everything needed to explain it.
#[derive(Debug)]
pub struct CapabilityDiagnostic {
    pub location: CapabilityLocation,
    pub violation: CapabilityViolation,
    pub severity: CapabilitySeverity,
    pub message: String,
    pub details: Option<String>,
    pub related_locations: Vec<RelatedLocation>,
    pub suggestion: Option<String>,
    pub code_snippet: Option<CodeSnippet>,
}

pub struct CapabilityDiagnosticModel {
    pub location: LocationModel,
    pub violation: ViolationModel,
    pub severity: CapabilitySeverity,
    pub message: Seq<char>,
    pub details: Option<Seq<char>>,
    pub related: Seq<RelatedModel>,
    pub suggestion: Option<Seq<char>>,
    pub code_snippet: Option<LineSnippetModel>,
}

pub open spec fn related_models(rs: Seq<RelatedLocation>) -> Seq<RelatedModel> {
    rs.map_values(|r: RelatedLocation| r@)
}

impl View for CapabilityDiagnostic {
    type V = CapabilityDiagnosticModel;

    open spec fn view(&self) -> CapabilityDiagnosticModel {
        CapabilityDiagnosticModel {
            location: self.location@,
            violation: self.violation@,
            severity: self.severity,
            message: self.message@,
            details: opt_text(self.details),
            related: related_models(self.related_locations@),
            suggestion: opt_text(self.suggestion),
            code_snippet: match self.code_snippet {
                Some(s) => Some(s@),
                None => None,
            },
        }
    }
}

/// `\n    - message at file:line:col` per related location.
pub open spec fn related_lines(rs: Seq<RelatedModel>) -> Seq<char>
    decreases rs.len(),
{
    if rs.len() == 0 {
        Seq::empty()
    } else {
        related_lines(rs.drop_last()) + "\n    - "@ + rs.last().message + " at "@ + location_text(rs.last().location)
    }
}

/// `severity: message`, then the details, the related locations and the suggestion,
/// each where present.
pub open spec fn full_text(d: CapabilityDiagnosticModel) -> Seq<char> {
    d.severity.severity_text() + ": "@ + d.message
        + match d.details {
            Some(x) => "\n  Details: "@ + x,
            None => Seq::empty(),
        }
        + if d.related.len() == 0 {
            Seq::empty()
        } else {
            "\n  Related locations:"@ + related_lines(d.related)
        }
        + match d.suggestion {
            Some(x) => "\n  Suggestion: "@ + x,
            None => Seq::empty(),
        }
}

fn append_opt(out: &mut String, label: &str, x: &Option<String>)
    ensures
        final(out)@ == old(out)@ + match opt_text(*x) {
            Some(t) => label@ + t,
            None => Seq::empty(),
        },
{
    if let Some(t) = x {
        out.append(label);
        out.append(t.as_str());
        assert(final(out)@ =~= old(out)@ + (label@ + t@));
    } else {
        assert(final(out)@ =~= old(out)@ + Seq::<char>::empty());
    }
}

impl CapabilityDiagnostic {
    /// An error at `location` with only a message.
    pub fn new(location: CapabilityLocation, violation: CapabilityViolation, message: String) -> (r: Self)
        ensures
            r@ == (CapabilityDiagnosticModel {
                location: location@,
                violation: violation@,
                severity: CapabilitySeverity::Error,
                message: message@,
                details: None,
                related: Seq::empty(),
                suggestion: None,
                code_snippet: None,
            }),
    {
        let r = CapabilityDiagnostic {
            location,
            violation,
            severity: CapabilitySeverity::Error,
            message,
            details: None,
            related_locations: Vec::new(),
            suggestion: None,
            code_snippet: None,
        };
        assert(r@.related =~= Seq::<RelatedModel>::empty());
        r
    }

    pub fn with_details(self, details: String) -> (r: Self)
        ensures
            r@ == (CapabilityDiagnosticModel { details: Some(details@), ..self@ }),
    {
        let mut d = self;
        d.details = Some(details);
        d
    }

    pub fn with_severity(self, severity: CapabilitySeverity) -> (r: Self)
        ensures
            r@ == (CapabilityDiagnosticModel { severity, ..self@ }),
    {
        let mut d = self;
        d.severity = severity;
        d
    }

    /// Appends a related location.
    pub fn with_related(self, related: RelatedLocation) -> (r: Self)
        ensures
            r@ == (CapabilityDiagnosticModel { related: self@.related.push(related@), ..self@ }),
    {
        let mut d = self;
        let ghost before = d.related_locations@;
        let ghost rm = related@;
        d.related_locations.push(related);
        assert(related_models(d.related_locations@) =~= related_models(before).push(rm));
        d
    }

    pub fn with_suggestion(self, suggestion: String) -> (r: Self)
        ensures
            r@ == (CapabilityDiagnosticModel { suggestion: Some(suggestion@), ..self@ }),
    {
        let mut d = self;
        d.suggestion = Some(suggestion);
        d
    }

    pub fn with_code_snippet(self, snippet: CodeSnippet) -> (r: Self)
        ensures
            r@ == (CapabilityDiagnosticModel { code_snippet: Some(snippet@), ..self@ }),
    {
        let mut d = self;
        d.code_snippet = Some(snippet);
        d
    }

    /// The message with its details, related locations and suggestion (see
    /// [`full_text`]).
    pub fn full_message(&self) -> (r: String)
        ensures
            r@ == full_text(self@),
    {
        let ghost d = self@;
        let mut msg = String::from_str(self.severity.display());
        msg.append(": ");
        msg.append(self.message.as_str());
        let ghost head = msg@;
        append_opt(&mut msg, "\n  Details: ", &self.details);
        let ghost with_details = msg@;
        if self.related_locations.len() > 0 {
            msg.append("\n  Related locations:");
            let ghost start = msg@;
            let mut k: usize = 0;
            while k < self.related_locations.len()
                invariant
                    k <= self.related_locations@.len(),
                    d == self@,
                    msg@ == start + related_lines(d.related.subrange(0, k as int)),
                decreases self.related_locations.len() - k,
            {
                let ghost sub = d.related.subrange(0, k + 1);
                assert(sub.drop_last() =~= d.related.subrange(0, k as int));
                assert(sub.last() == self.related_locations@[k as int]@);
                let rel = &self.related_locations[k];
                msg.append("\n    - ");
                msg.append(rel.message.as_str());
                msg.append(" at ");
                append_location(&mut msg, &rel.location);
                assert(msg@ =~= start + related_lines(sub));
                k = k + 1;
            }
            assert(d.related.subrange(0, self.related_locations@.len() as int) =~= d.related);
        }
        let ghost with_related = msg@;
        append_opt(&mut msg, "\n  Suggestion: ", &self.suggestion);
        assert(msg@ =~= full_text(d));
        msg
    }
}

/// `The {kind} capability '{name}'`.
pub open spec fn the_capability(kind: CapabilityKind, name: Seq<char>) -> Seq<char> {
    "The "@ + kind.kind_text() + " capability "@ + quoted(name)
}

fn text_with_kind(prefix: &str, kind: CapabilityKind, middle: &str, name: &str, tail: &str) -> (r: String)
    ensures
        r@ == prefix@ + kind.kind_text() + middle@ + quoted(name@) + tail@,
{
    let mut s = String::from_str(prefix);
    s.append(kind.display());
    let q = quote_between(middle, name, tail);
    s.append(q.as_str());
    assert(s@ =~= prefix@ + kind.kind_text() + middle@ + quoted(name@) + tail@);
    s
}

fn quote_kind(prefix: &str, name: &str, middle: &str, kind: CapabilityKind, tail: &str) -> (r: String)
    ensures
        r@ == prefix@ + quoted(name@) + middle@ + kind.kind_text() + tail@,
{
    let mut s = quote_between(prefix, name, middle);
    s.append(kind.display());
    s.append(tail);
    assert(s@ =~= prefix@ + quoted(name@) + middle@ + kind.kind_text() + tail@);
    s
}

/// Ready-made diagnostics for the capability violations.
pub struct CapabilityDiagnosticFactory;

impl CapabilityDiagnosticFactory {
    /// A use of `var_name` after it was consumed at `consumed_at_line:consumed_at_col`.
    pub fn use_after_consumption(
        file: String,
        line: u32,
        col: u32,
        var_name: &str,
        kind: CapabilityKind,
        consumed_at_line: u32,
        consumed_at_col: u32,
    ) -> (r: CapabilityDiagnostic)
        ensures
            r@ == (CapabilityDiagnosticModel {
                location: LocationModel { file: file@, line, col },
                violation: ViolationModel::UseAfterConsumption {
                    var_name: var_name@,
                    consumed_at: (consumed_at_line, consumed_at_col),
                },
                severity: CapabilitySeverity::Error,
                message: "capability "@ + quoted(var_name@) + " ("@ + kind.kind_text() + ") used after consumption"@,
                details: Some(the_capability(kind, var_name@) + " was already consumed (closed/finalized) at "@
                    + nat_decimal(consumed_at_line as nat) + ":"@ + nat_decimal(consumed_at_col as nat)
                    + ". It cannot be used again after that point."@),
                related: seq![RelatedModel {
                    location: LocationModel { file: file@, line: consumed_at_line, col: consumed_at_col },
                    message: quoted(var_name@) + " was consumed here"@,
                }],
                suggestion: Some("Either:\n  1. Use "@ + quoted(var_name@) + " before the consumption point\n  2. Create a new "@
                    + kind.kind_text() + " capability instead\n  3. Restructure your code to avoid using after consumption"@),
                code_snippet: None,
            }),
    {
        let location = CapabilityLocation::new(file.clone(), line, col);
        let violation = CapabilityViolation::UseAfterConsumption {
            var_name: String::from_str(var_name),
            consumed_at: (consumed_at_line, consumed_at_col),
        };
        let message = quote_kind("capability ", var_name, " (", kind, ") used after consumption");
        let diag = CapabilityDiagnostic::new(location, violation, message);
        let mut details = text_with_kind("The ", kind, " capability ", var_name,
            " was already consumed (closed/finalized) at ");
        append_decimal(&mut details, consumed_at_line as u64);
        details.append(":");
        append_decimal(&mut details, consumed_at_col as u64);
        details.append(". It cannot be used again after that point.");
        let diag = diag.with_details(details);
        let diag = diag.with_related(RelatedLocation::new(file, consumed_at_line, consumed_at_col,
            quote_between("", var_name, " was consumed here")));
        let mut suggestion = quote_between("Either:\n  1. Use ", var_name, " before the consumption point\n  2. Create a new ");
        suggestion.append(kind.display());
        suggestion.append(" capability instead\n  3. Restructure your code to avoid using after consumption");
        let r = diag.with_suggestion(suggestion);
        proof {
            reveal_strlit("");
        }
        assert(""@ + quoted(var_name@) =~= quoted(var_name@));
        assert(r@.related =~= seq![r@.related[0]]);
        assert(r@.details->0 =~= the_capability(kind, var_name@) + " was already consumed (closed/finalized) at "@
            + nat_decimal(consumed_at_line as nat) + ":"@ + nat_decimal(consumed_at_col as nat)
            + ". It cannot be used again after that point."@);
        assert(r@.suggestion->0 =~= "Either:\n  1. Use "@ + quoted(var_name@) + " before the consumption point\n  2. Create a new "@
            + kind.kind_text() + " capability instead\n  3. Restructure your code to avoid using after consumption"@);
        r
    }

    /// A capability `var_name` defined at `defined_at_line:defined_at_col` that was
    /// never consumed (reported as a leak in the in-use state).
    pub fn resource_leak(
        file: String,
        line: u32,
        col: u32,
        var_name: &str,
        kind: CapabilityKind,
        defined_at_line: u32,
        defined_at_col: u32,
    ) -> (r: CapabilityDiagnostic)
        ensures
            r@ == (CapabilityDiagnosticModel {
                location: LocationModel { file: file@, line, col },
                violation: ViolationModel::ResourceLeak { var_name: var_name@, current_state: CapabilityState::InUse },
                severity: CapabilitySeverity::Error,
                message: "resource leak: "@ + kind.kind_text() + " capability "@ + quoted(var_name@)
                    + " not consumed before scope end"@,
                details: Some(the_capability(kind, var_name@) + " was created at "@ + nat_decimal(defined_at_line as nat)
                    + ":"@ + nat_decimal(defined_at_col as nat)
                    + " but never consumed. This will leak resources. All exclusive capabilities must be explicitly closed/finalized before the scope ends."@),
                related: seq![RelatedModel {
                    location: LocationModel { file: file@, line: defined_at_line, col: defined_at_col },
                    message: quoted(var_name@) + " was defined here"@,
                }],
                suggestion: Some("You must consume the "@ + kind.kind_text() + " capability "@ + quoted(var_name@)
                    + ":\n  1. If it's a socket: close it (socket.close())\n  2. If it's a tensor: release it (tensor.release())\n  3. If it's a region: deallocate it (region.dealloc())\n  4. Or pass it to a function that will consume it"@),
                code_snippet: None,
            }),
    {
        let location = CapabilityLocation::new(file.clone(), line, col);
        let violation = CapabilityViolation::ResourceLeak {
            var_name: String::from_str(var_name),
            current_state: CapabilityState::InUse,
        };
        let message = text_with_kind("resource leak: ", kind, " capability ", var_name, " not consumed before scope end");
        let diag = CapabilityDiagnostic::new(location, violation, message);
        let diag = diag.with_severity(CapabilitySeverity::Error);
        let mut details = text_with_kind("The ", kind, " capability ", var_name, " was created at ");
        append_decimal(&mut details, defined_at_line as u64);
        details.append(":");
        append_decimal(&mut details, defined_at_col as u64);
        details.append(
            " but never consumed. This will leak resources. All exclusive capabilities must be explicitly closed/finalized before the scope ends.");
        let diag = diag.with_details(details);
        let diag = diag.with_related(RelatedLocation::new(file, defined_at_line, defined_at_col,
            quote_between("", var_name, " was defined here")));
        let r = diag.with_suggestion(text_with_kind("You must consume the ", kind, " capability ", var_name,
            ":\n  1. If it's a socket: close it (socket.close())\n  2. If it's a tensor: release it (tensor.release())\n  3. If it's a region: deallocate it (region.dealloc())\n  4. Or pass it to a function that will consume it"));
        proof {
            reveal_strlit("");
        }
        assert(""@ + quoted(var_name@) =~= quoted(var_name@));
        assert(r@.related =~= seq![r@.related[0]]);
        assert(r@.details->0 =~= the_capability(kind, var_name@) + " was created at "@ + nat_decimal(defined_at_line as nat)
            + ":"@ + nat_decimal(defined_at_col as nat)
            + " but never consumed. This will leak resources. All exclusive capabilities must be explicitly closed/finalized before the scope ends."@);
        r
    }

    /// Accesses of `var_name` from concurrent threads without synchronization.
    pub fn concurrent_use_without_sync(
        file: String,
        line: u32,
        col: u32,
        var_name: &str,
        kind: CapabilityKind,
        first_access_line: u32,
        first_access_col: u32,
        second_access_line: u32,
        second_access_col: u32,
    ) -> (r: CapabilityDiagnostic)
        ensures
            r@ == (CapabilityDiagnosticModel {
                location: LocationModel { file: file@, line, col },
                violation: ViolationModel::ConcurrentUseWithoutSync {
                    var_name: var_name@,
                    first_access: (first_access_line, first_access_col),
                    second_access: (second_access_line, second_access_col),
                },
                severity: CapabilitySeverity::Error,
                message: "capability "@ + quoted(var_name@) + " ("@ + kind.kind_text()
                    + ") used concurrently without synchronization"@,
                details: Some(the_capability(kind, var_name@)
                    + " is being accessed by multiple concurrent threads without proper synchronization. Exclusive capabilities cannot be safely shared across threads."@),
                related: seq![
                    RelatedModel {
                        location: LocationModel { file: file@, line: first_access_line, col: first_access_col },
                        message: "First access to "@ + quoted(var_name@) + " here"@,
                    },
                    RelatedModel {
                        location: LocationModel { file: file@, line: second_access_line, col: second_access_col },
                        message: "Second concurrent access to "@ + quoted(var_name@) + " here"@,
                    },
                ],
                suggestion: Some("To safely share the "@ + kind.kind_text() + " capability "@ + quoted(var_name@)
                    + ":\n  1. Wrap it in a Mutex<> or RwLock<>\n  2. Mark it with @shared annotation\n  3. Use thread-safe synchronization primitives"@),
                code_snippet: None,
            }),
    {
        let location = CapabilityLocation::new(file.clone(), line, col);
        let violation = CapabilityViolation::ConcurrentUseWithoutSync {
            var_name: String::from_str(var_name),
            first_access: (first_access_line, first_access_col),
            second_access: (second_access_line, second_access_col),
        };
        let message = quote_kind("capability ", var_name, " (", kind, ") used concurrently without synchronization");
        let diag = CapabilityDiagnostic::new(location, violation, message);
        let diag = diag.with_severity(CapabilitySeverity::Error);
        let diag = diag.with_details(text_with_kind("The ", kind, " capability ", var_name,
            " is being accessed by multiple concurrent threads without proper synchronization. Exclusive capabilities cannot be safely shared across threads."));
        let diag = diag.with_related(RelatedLocation::new(file.clone(), first_access_line, first_access_col,
            quote_between("First access to ", var_name, " here")));
        let diag = diag.with_related(RelatedLocation::new(file, second_access_line, second_access_col,
            quote_between("Second concurrent access to ", var_name, " here")));
        let r = diag.with_suggestion(text_with_kind("To safely share the ", kind, " capability ", var_name,
            ":\n  1. Wrap it in a Mutex<> or RwLock<>\n  2. Mark it with @shared annotation\n  3. Use thread-safe synchronization primitives"));
        assert(r@.related =~= seq![r@.related[0], r@.related[1]]);
        r
    }

    /// A capability shared without a sharing annotation, reported as a warning at
    /// `line:col`.
    pub fn improper_sharing(file: String, line: u32, col: u32, var_name: &str, kind: CapabilityKind)
        -> (r: CapabilityDiagnostic)
        ensures
            r@ == (CapabilityDiagnosticModel {
                location: LocationModel { file: file@, line, col },
                violation: ViolationModel::ImproperSharing { var_name: var_name@, shared_at: (line, col) },
                severity: CapabilitySeverity::Warning,
                message: "capability "@ + quoted(var_name@) + " ("@ + kind.kind_text() + ") shared without proper annotation"@,
                details: Some(the_capability(kind, var_name@)
                    + " is being shared across threads or scopes, but it is not marked with a sharing annotation."@),
                related: Seq::empty(),
                suggestion: Some("Add a sharing annotation to "@ + quoted(var_name@)
                    + " if concurrent access is intentional:\n  @shared val "@ + var_name@ + ": "@ + kind.kind_text()
                    + " = ..."@),
                code_snippet: None,
            }),
    {
        let location = CapabilityLocation::new(file, line, col);
        let violation = CapabilityViolation::ImproperSharing { var_name: String::from_str(var_name), shared_at: (line, col) };
        let message = quote_kind("capability ", var_name, " (", kind, ") shared without proper annotation");
        let diag = CapabilityDiagnostic::new(location, violation, message);
        let diag = diag.with_severity(CapabilitySeverity::Warning);
        let diag = diag.with_details(text_with_kind("The ", kind, " capability ", var_name,
            " is being shared across threads or scopes, but it is not marked with a sharing annotation."));
        let mut suggestion = quote_between("Add a sharing annotation to ", var_name,
            " if concurrent access is intentional:\n  @shared val ");
        suggestion.append(var_name);
        suggestion.append(": ");
        suggestion.append(kind.display());
        suggestion.append(" = ...");
        assert(suggestion@ =~= "Add a sharing annotation to "@ + quoted(var_name@)
            + " if concurrent access is intentional:\n  @shared val "@ + var_name@ + ": "@ + kind.kind_text() + " = ..."@);
        diag.with_suggestion(suggestion)
    }
}

/// The diagnostics among `ds` with severity `s`, in order.
pub open spec fn with_severity_of(ds: Seq<CapabilityDiagnosticModel>, s: CapabilitySeverity) -> Seq<CapabilityDiagnosticModel>
    decreases ds.len(),
{
    if ds.len() == 0 {
        Seq::empty()
    } else if ds.last().severity == s {
        with_severity_of(ds.drop_last(), s).push(ds.last())
    } else {
        with_severity_of(ds.drop_last(), s)
    }
}

/// Each diagnostic's full message followed by a newline.
pub open spec fn full_report(ds: Seq<CapabilityDiagnosticModel>) -> Seq<char>
    decreases ds.len(),
{
    if ds.len() == 0 {
        Seq::empty()
    } else {
        full_report(ds.drop_last()) + full_text(ds.last()) + "\n"@
    }
}

/// Collects capability diagnostics in the order they were added.
pub struct CapabilityDiagnosticReporter {
    diagnostics: VecDeque<CapabilityDiagnostic>,
}

impl View for CapabilityDiagnosticReporter {
    type V = Seq<CapabilityDiagnosticModel>;

    closed spec fn view(&self) -> Seq<CapabilityDiagnosticModel> {
        self.diagnostics@.map_values(|d: CapabilityDiagnostic| d@)
    }
}

impl CapabilityDiagnosticReporter {
    pub fn new() -> (r: Self)
        ensures
            r@ == Seq::<CapabilityDiagnosticModel>::empty(),
    {
        let r = CapabilityDiagnosticReporter { diagnostics: VecDeque::new() };
        assert(r@ =~= Seq::<CapabilityDiagnosticModel>::empty());
        r
    }

    pub fn add(&mut self, diag: CapabilityDiagnostic)
        ensures
            final(self)@ == old(self)@.push(diag@),
    {
        let ghost before = self.diagnostics@;
        let ghost m = diag@;
        self.diagnostics.push_back(diag);
        assert(self@ =~= before.map_values(|d: CapabilityDiagnostic| d@).push(m));
    }

    fn select(&self, all: bool, s: CapabilitySeverity) -> (r: Vec<&CapabilityDiagnostic>)
        ensures
            all ==> r@.len() == self@.len() && forall|i: int| 0 <= i < r@.len() ==> (#[trigger] r@[i])@ == self@[i],
            !all ==> r@.len() == with_severity_of(self@, s).len() && forall|i: int| 0 <= i < r@.len()
                ==> (#[trigger] r@[i])@ == with_severity_of(self@, s)[i],
    {
        let ghost ds = self@;
        let mut out: Vec<&CapabilityDiagnostic> = Vec::new();
        let mut k: usize = 0;
        while k < self.diagnostics.len()
            invariant
                k <= self.diagnostics@.len(),
                ds == self@,
                ds.len() == self.diagnostics@.len(),
                all ==> out@.len() == k && forall|i: int| 0 <= i < out@.len() ==> (#[trigger] out@[i])@ == ds[i],
                !all ==> out@.len() == with_severity_of(ds.subrange(0, k as int), s).len() && forall|i: int|
                    0 <= i < out@.len() ==> (#[trigger] out@[i])@ == with_severity_of(ds.subrange(0, k as int), s)[i],
            decreases self.diagnostics.len() - k,
        {
            let ghost sub = ds.subrange(0, k + 1);
            assert(sub.drop_last() =~= ds.subrange(0, k as int));
            assert(sub.last() == self.diagnostics@[k as int]@);
            let d = &self.diagnostics[k];
            if all || d.severity == s {
                out.push(d);
            }
            k = k + 1;
        }
        assert(ds.subrange(0, self.diagnostics@.len() as int) =~= ds);
        out
    }

    /// All diagnostics, in order.
    pub fn all(&self) -> (r: Vec<&CapabilityDiagnostic>)
        ensures
            r@.len() == self@.len(),
            forall|i: int| 0 <= i < r@.len() ==> (#[trigger] r@[i])@ == self@[i],
    {
        self.select(true, CapabilitySeverity::Error)
    }

    /// The error diagnostics, in order.
    pub fn errors(&self) -> (r: Vec<&CapabilityDiagnostic>)
        ensures
            r@.len() == with_severity_of(self@, CapabilitySeverity::Error).len(),
            forall|i: int| 0 <= i < r@.len() ==> (#[trigger] r@[i])@ == with_severity_of(self@, CapabilitySeverity::Error)[i],
    {
        self.select(false, CapabilitySeverity::Error)
    }

    /// The warning diagnostics, in order.
    pub fn warnings(&self) -> (r: Vec<&CapabilityDiagnostic>)
        ensures
            r@.len() == with_severity_of(self@, CapabilitySeverity::Warning).len(),
            forall|i: int| 0 <= i < r@.len() ==> (#[trigger] r@[i])@ == with_severity_of(self@, CapabilitySeverity::Warning)[i],
    {
        self.select(false, CapabilitySeverity::Warning)
    }

    /// Whether any diagnostic is an error.
    pub fn has_errors(&self) -> (r: bool)
        ensures
            r == (with_severity_of(self@, CapabilitySeverity::Error).len() > 0),
    {
        self.errors().len() > 0
    }

    pub fn count(&self) -> (r: usize)
        ensures
            r == self@.len(),
    {
        self.diagnostics.len()
    }

    pub fn clear(&mut self)
        ensures
            final(self)@ == Seq::<CapabilityDiagnosticModel>::empty(),
    {
        self.diagnostics.clear();
        assert(self@ =~= Seq::<CapabilityDiagnosticModel>::empty());
    }

    /// Every diagnostic's full message followed by a newline.
    pub fn report_all(&self) -> (r: String)
        ensures
            r@ == full_report(self@),
    {
        let ghost ds = self@;
        let all = self.all();
        let mut output = String::new();
        let mut k: usize = 0;
        while k < all.len()
            invariant
                k <= all@.len(),
                all@.len() == ds.len(),
                forall|i: int| 0 <= i < all@.len() ==> (#[trigger] all@[i])@ == ds[i],
                output@ == full_report(ds.subrange(0, k as int)),
            decreases all.len() - k,
        {
            let ghost sub = ds.subrange(0, k + 1);
            assert(sub.drop_last() =~= ds.subrange(0, k as int));
            assert(sub.last() == all@[k as int]@);
            let text = all[k].full_message();
            output.append(text.as_str());
            output.append("\n");
            assert(output@ =~= full_report(sub));
            k = k + 1;
        }
        assert(ds.subrange(0, all@.len() as int) =~= ds);
        output
    }
}

impl Default for CapabilityDiagnosticReporter {
    fn default() -> (r: Self)
        ensures
            r@ == Seq::<CapabilityDiagnosticModel>::empty(),
    {
        Self::new()
    }
}

} // verus!
