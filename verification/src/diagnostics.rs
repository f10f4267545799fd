//! Diagnostics for linear type violations: locations, code snippets with
//! highlights, details, related locations and suggestions, and their text.
use vstd::prelude::*;
use crate::ownership_enforcement::{ViolationKind, append_decimal, quote_between, quoted};
use crate::text::{chars_of, nat_decimal, push_char, u64_to_decimal};

verus! {

/// How serious a diagnostic is.
#[derive(Clone, Copy, Debug, PartialEq, Eq, Structural)]
pub enum Severity {
    Error,
    Warning,
    Info,
}

impl Severity {
    pub open spec fn severity_text(self) -> Seq<char> {
        match self {
            Severity::Error => "error"@,
            Severity::Warning => "warning"@,
            Severity::Info => "info"@,
        }
    }

    pub open spec fn upper_text(self) -> Seq<char> {
        match self {
            Severity::Error => "ERROR"@,
            Severity::Warning => "WARNING"@,
            Severity::Info => "INFO"@,
        }
    }

    /// The lower-case name of the severity.
    pub fn display(&self) -> (r: &'static str)
        ensures
            r@ == self.severity_text(),
    {
        match self {
            Severity::Error => "error",
            Severity::Warning => "warning",
            Severity::Info => "info",
        }
    }

    fn upper(&self) -> (r: &'static str)
        ensures
            r@ == self.upper_text(),
    {
        match self {
            Severity::Error => "ERROR",
            Severity::Warning => "WARNING",
            Severity::Info => "INFO",
        }
    }
}

/// A position in a source file (line and column are 1-based).
#[derive(Clone, Debug)]
pub struct Location {
    pub line: u32,
    pub col: u32,
    pub file: String,
}

pub struct LocationModel {
    pub file: Seq<char>,
    pub line: u32,
    pub col: u32,
}

impl View for Location {
    type V = LocationModel;

    open spec fn view(&self) -> LocationModel {
        LocationModel { file: self.file@, line: self.line, col: self.col }
    }
}

/// `file:line:col`.
pub open spec fn location_text(l: LocationModel) -> Seq<char> {
    l.file + ":"@ + nat_decimal(l.line as nat) + ":"@ + nat_decimal(l.col as nat)
}

fn append_location(out: &mut String, l: &Location)
    ensures
        final(out)@ == old(out)@ + location_text(l@),
{
    out.append(l.file.as_str());
    out.append(":");
    append_decimal(out, l.line as u64);
    out.append(":");
    append_decimal(out, l.col as u64);
    assert(final(out)@ =~= old(out)@ + location_text(l@));
}

impl Location {
    pub fn new(file: String, line: u32, col: u32) -> (r: Self)
        ensures
            r@ == (LocationModel { file: file@, line, col }),
    {
        Location { file, line, col }
    }

    /// `file:line:col`.
    pub fn display(&self) -> (r: String)
        ensures
            r@ == location_text(self@),
    {
        let mut out = String::new();
        append_location(&mut out, self);
        assert(out@ =~= location_text(self@));
        out
    }
}

/// A location related to a diagnostic, such as where a value was moved.
#[derive(Clone, Debug)]
pub struct RelatedLocation {
    pub location: Location,
    pub message: String,
}

pub struct RelatedModel {
    pub location: LocationModel,
    pub message: Seq<char>,
}

impl View for RelatedLocation {
    type V = RelatedModel;

    open spec fn view(&self) -> RelatedModel {
        RelatedModel { location: self.location@, message: self.message@ }
    }
}

/// Source lines shown with a diagnostic, with underlined column ranges.
#[derive(Clone, Debug)]
pub struct CodeSnippet {
    pub lines: Vec<String>,
    /// The line number of the first line (1-based).
    pub start_line: u32,
    /// Ranges to underline: line offset, start column, end column.
    pub highlights: Vec<(u32, u32, u32)>,
}

pub struct SnippetModel {
    pub lines: Seq<Seq<char>>,
    pub start_line: u32,
    pub highlights: Seq<(u32, u32, u32)>,
}

impl View for CodeSnippet {
    type V = SnippetModel;

    open spec fn view(&self) -> SnippetModel {
        SnippetModel {
            lines: self.lines@.map_values(|s: String| s@),
            start_line: self.start_line,
            highlights: self.highlights@,
        }
    }
}

/// `n` copies of `c`.
pub open spec fn repeat_char(c: char, n: nat) -> Seq<char> {
    Seq::new(n, |i: int| c)
}

/// `s` right-aligned in a field of `width` characters.
pub open spec fn pad_left(s: Seq<char>, width: nat) -> Seq<char> {
    if s.len() < width {
        repeat_char(' ', (width - s.len()) as nat) + s
    } else {
        s
    }
}

/// The first highlight for line offset `idx`.
pub open spec fn first_highlight(hs: Seq<(u32, u32, u32)>, idx: int) -> Option<(u32, u32, u32)>
    decreases hs.len(),
{
    if hs.len() == 0 {
        None
    } else if hs[0].0 == idx {
        Some(hs[0])
    } else {
        first_highlight(hs.drop_first(), idx)
    }
}

/// One source line with its number, and its underline when it has a highlight.
pub open spec fn snippet_line(num: nat, line: Seq<char>, h: Option<(u32, u32, u32)>) -> Seq<char> {
    pad_left(nat_decimal(num), 4) + " | "@ + line + "\n"@ + match h {
        Some(h) => "     | "@ + repeat_char(' ', (7 + h.1) as nat) + repeat_char('^', (h.2 - h.1) as nat) + "\n"@,
        None => Seq::empty(),
    }
}

/// The text of the first `lines.len()` lines of a snippet.
pub open spec fn snippet_lines(lines: Seq<Seq<char>>, start: nat, hs: Seq<(u32, u32, u32)>) -> Seq<char>
    decreases lines.len(),
{
    if lines.len() == 0 {
        Seq::empty()
    } else {
        snippet_lines(lines.drop_last(), start, hs) + snippet_line(
            (start + lines.len() - 1) as nat,
            lines.last(),
            first_highlight(hs, lines.len() - 1),
        )
    }
}

pub open spec fn snippet_text(s: SnippetModel) -> Seq<char> {
    snippet_lines(s.lines, s.start_line as nat, s.highlights)
}

/// The line numbers fit in `u32` and every highlight that is drawn starts no later
/// than it ends.
pub open spec fn snippet_ok(s: SnippetModel) -> bool {
    &&& s.start_line + s.lines.len() <= u32::MAX + 1
    &&& forall|idx: int| 0 <= idx < s.lines.len() ==> (#[trigger] first_highlight(s.highlights, idx) matches Some(h)
        ==> h.1 <= h.2 && h.1 + 7 <= usize::MAX)
}

fn push_repeat(out: &mut String, c: char, n: usize)
    ensures
        final(out)@ == old(out)@ + repeat_char(c, n as nat),
{
    let mut k: usize = 0;
    while k < n
        invariant
            k <= n,
            out@ == old(out)@ + repeat_char(c, k as nat),
        decreases n - k,
    {
        push_char(out, c);
        k = k + 1;
        assert(out@ =~= old(out)@ + repeat_char(c, k as nat));
    }
}

fn find_highlight(hs: &Vec<(u32, u32, u32)>, idx: usize) -> (r: Option<(u32, u32, u32)>)
    ensures
        r == first_highlight(hs@, idx as int),
{
    let mut k: usize = 0;
    assert(hs@.subrange(0, hs@.len() as int) =~= hs@);
    while k < hs.len()
        invariant
            k <= hs.len(),
            first_highlight(hs@, idx as int) == first_highlight(hs@.subrange(k as int, hs@.len() as int), idx as int),
        decreases hs.len() - k,
    {
        let ghost rest = hs@.subrange(k as int, hs@.len() as int);
        assert(rest.drop_first() =~= hs@.subrange(k + 1, hs@.len() as int));
        if hs[k].0 as usize == idx {
            return Some(hs[k]);
        }
        k = k + 1;
    }
    None
}

fn append_snippet_line(out: &mut String, num: u32, line: &str, h: Option<(u32, u32, u32)>)
    requires
        h matches Some(h) ==> h.1 <= h.2 && h.1 + 7 <= usize::MAX,
    ensures
        final(out)@ == old(out)@ + snippet_line(num as nat, line@, h),
{
    let digits = u64_to_decimal(num as u64);
    let dl = chars_of(digits.as_str()).len();
    if dl < 4 {
        push_repeat(out, ' ', 4 - dl);
    }
    out.append(digits.as_str());
    out.append(" | ");
    out.append(line);
    out.append("\n");
    let ghost mid = out@;
    assert(mid =~= old(out)@ + (pad_left(nat_decimal(num as nat), 4) + " | "@ + line@ + "\n"@));
    if let Some(h) = h {
        out.append("     | ");
        push_repeat(out, ' ', 4 + 3 + h.1 as usize);
        push_repeat(out, '^', (h.2 - h.1) as usize);
        out.append("\n");
        assert(final(out)@ =~= mid + ("     | "@ + repeat_char(' ', (7 + h.1) as nat)
            + repeat_char('^', (h.2 - h.1) as nat) + "\n"@));
    } else {
        assert(final(out)@ =~= mid + Seq::<char>::empty());
    }
}

impl CodeSnippet {
    pub fn new(lines: Vec<String>, start_line: u32) -> (r: Self)
        ensures
            r@ == (SnippetModel { lines: lines@.map_values(|s: String| s@), start_line, highlights: Seq::empty() }),
    {
        let r = CodeSnippet { lines, start_line, highlights: Vec::new() };
        assert(r@.highlights =~= Seq::<(u32, u32, u32)>::empty());
        r
    }

    /// Adds an underline from `start_col` to `end_col` on line offset `line_offset`.
    pub fn with_highlight(self, line_offset: u32, start_col: u32, end_col: u32) -> (r: Self)
        ensures
            r@ == (SnippetModel { highlights: self@.highlights.push((line_offset, start_col, end_col)), ..self@ }),
    {
        let mut s = self;
        s.highlights.push((line_offset, start_col, end_col));
        s
    }

    /// Each line as `{number:>4} | {line}`, followed by `     | ` and a caret underline
    /// under the first highlight of that line, if any.
    pub fn display(&self) -> (r: String)
        requires
            snippet_ok(self@),
        ensures
            r@ == snippet_text(self@),
    {
        let ghost m = self@;
        let mut result = String::new();
        let mut idx: usize = 0;
        while idx < self.lines.len()
            invariant
                idx <= self.lines@.len(),
                m == self@,
                snippet_ok(m),
                result@ == snippet_lines(m.lines.subrange(0, idx as int), m.start_line as nat, m.highlights),
            decreases self.lines.len() - idx,
        {
            let ghost sub = m.lines.subrange(0, idx + 1);
            assert(sub.drop_last() =~= m.lines.subrange(0, idx as int));
            assert(sub.last() == self.lines@[idx as int]@);
            let line_num = self.start_line + idx as u32;
            let h = find_highlight(&self.highlights, idx);
            assert(snippet_ok(m));
            assert(first_highlight(m.highlights, idx as int) == h);
            let ghost before = result@;
            append_snippet_line(&mut result, line_num, self.lines[idx].as_str(), h);
            assert(result@ =~= before + snippet_line((m.start_line + idx) as nat, sub.last(), h));
            idx = idx + 1;
        }
        assert(m.lines.subrange(0, self.lines@.len() as int) =~= m.lines);
        result
    }
}

/// A linear type violation with everything needed to explain it.
#[derive(Clone, Debug)]
pub struct LinearTypeDiagnostic {
    pub location: Location,
    pub severity: Severity,
    pub error_kind: ViolationKind,
    pub message: String,
    pub details: Option<String>,
    pub related: Vec<RelatedLocation>,
    pub suggestion: Option<String>,
    pub code_snippet: Option<CodeSnippet>,
}

pub struct DiagnosticModel {
    pub location: LocationModel,
    pub severity: Severity,
    pub error_kind: ViolationKind,
    pub message: Seq<char>,
    pub details: Option<Seq<char>>,
    pub related: Seq<RelatedModel>,
    pub suggestion: Option<Seq<char>>,
    pub code_snippet: Option<SnippetModel>,
}

pub open spec fn opt_text(o: Option<String>) -> Option<Seq<char>> {
    match o {
        Some(s) => Some(s@),
        None => None,
    }
}

pub open spec fn related_models(rs: Seq<RelatedLocation>) -> Seq<RelatedModel> {
    rs.map_values(|r: RelatedLocation| r@)
}

impl View for LinearTypeDiagnostic {
    type V = DiagnosticModel;

    open spec fn view(&self) -> DiagnosticModel {
        DiagnosticModel {
            location: self.location@,
            severity: self.severity,
            error_kind: self.error_kind,
            message: self.message@,
            details: opt_text(self.details),
            related: related_models(self.related@),
            suggestion: opt_text(self.suggestion),
            code_snippet: match self.code_snippet {
                Some(s) => Some(s@),
                None => None,
            },
        }
    }
}

/// `  file:line:col message` per related location.
pub open spec fn related_text(rs: Seq<RelatedModel>) -> Seq<char>
    decreases rs.len(),
{
    if rs.len() == 0 {
        Seq::empty()
    } else {
        related_text(rs.drop_last()) + "  "@ + location_text(rs.last().location) + " "@ + rs.last().message + "\n"@
    }
}

pub open spec fn header_text(d: DiagnosticModel) -> Seq<char> {
    d.severity.upper_text() + ": "@ + location_text(d.location) + ": "@ + d.message + "\n"@
}

pub open spec fn snippet_part(s: Option<SnippetModel>) -> Seq<char> {
    match s {
        Some(s) => "\n"@ + snippet_text(s),
        None => Seq::empty(),
    }
}

pub open spec fn details_part(x: Option<Seq<char>>) -> Seq<char> {
    match x {
        Some(x) => "\nDetails:\n  "@ + x + "\n"@,
        None => Seq::empty(),
    }
}

pub open spec fn related_part(rs: Seq<RelatedModel>) -> Seq<char> {
    if rs.len() == 0 {
        Seq::empty()
    } else {
        "\nRelated locations:\n"@ + related_text(rs)
    }
}

pub open spec fn suggestion_part(x: Option<Seq<char>>) -> Seq<char> {
    match x {
        Some(x) => "\nSuggestion:\n  "@ + x + "\n"@,
        None => Seq::empty(),
    }
}

/// The text of a diagnostic: `SEVERITY: location: message`, then the snippet, the
/// details, the related locations and the suggestion, each where present.
pub open spec fn diagnostic_text(d: DiagnosticModel) -> Seq<char> {
    header_text(d) + snippet_part(d.code_snippet) + details_part(d.details) + related_part(d.related)
        + suggestion_part(d.suggestion)
}

fn append_labelled(out: &mut String, label: &str, x: &Option<String>)
    ensures
        final(out)@ == old(out)@ + match opt_text(*x) {
            Some(t) => label@ + t + "\n"@,
            None => Seq::empty(),
        },
{
    if let Some(t) = x {
        out.append(label);
        out.append(t.as_str());
        out.append("\n");
        assert(final(out)@ =~= old(out)@ + (label@ + t@ + "\n"@));
    } else {
        assert(final(out)@ =~= old(out)@ + Seq::<char>::empty());
    }
}

fn append_related(out: &mut String, rs: &Vec<RelatedLocation>)
    ensures
        final(out)@ == old(out)@ + related_part(related_models(rs@)),
{
    let ghost m = related_models(rs@);
    if rs.len() > 0 {
        out.append("\nRelated locations:\n");
        let ghost start = out@;
        let mut k: usize = 0;
        while k < rs.len()
            invariant
                k <= rs@.len(),
                m == related_models(rs@),
                out@ == start + related_text(m.subrange(0, k as int)),
            decreases rs.len() - k,
        {
            let ghost sub = m.subrange(0, k + 1);
            assert(sub.drop_last() =~= m.subrange(0, k as int));
            assert(sub.last() == rs@[k as int]@);
            let rel = &rs[k];
            out.append("  ");
            append_location(out, &rel.location);
            out.append(" ");
            out.append(rel.message.as_str());
            out.append("\n");
            assert(out@ =~= start + related_text(sub));
            k = k + 1;
        }
        assert(m.subrange(0, rs@.len() as int) =~= m);
        assert(final(out)@ =~= old(out)@ + related_part(m));
    } else {
        assert(final(out)@ =~= old(out)@ + related_part(m));
    }
}

fn append_snippet(out: &mut String, s: &Option<CodeSnippet>)
    requires
        s matches Some(x) ==> snippet_ok(x@),
    ensures
        final(out)@ == old(out)@ + snippet_part(match s {
            Some(x) => Some(x@),
            None => None,
        }),
{
    if let Some(snippet) = s {
        out.append("\n");
        let t = snippet.display();
        out.append(t.as_str());
        assert(final(out)@ =~= old(out)@ + ("\n"@ + snippet_text(snippet@)));
    } else {
        assert(final(out)@ =~= old(out)@ + Seq::<char>::empty());
    }
}

/// The snippet, if any, can be shown.
pub open spec fn showable(d: DiagnosticModel) -> bool {
    d.code_snippet matches Some(s) ==> snippet_ok(s)
}

impl LinearTypeDiagnostic {
    /// An error at `location` with only a message.
    pub fn new(location: Location, error_kind: ViolationKind, message: String) -> (r: Self)
        ensures
            r@ == (DiagnosticModel {
                location: location@,
                severity: Severity::Error,
                error_kind,
                message: message@,
                details: None,
                related: Seq::empty(),
                suggestion: None,
                code_snippet: None,
            }),
    {
        let r = LinearTypeDiagnostic {
            location,
            severity: Severity::Error,
            error_kind,
            message,
            details: None,
            related: Vec::new(),
            suggestion: None,
            code_snippet: None,
        };
        assert(r@.related =~= Seq::<RelatedModel>::empty());
        r
    }

    pub fn with_severity(self, severity: Severity) -> (r: Self)
        ensures
            r@ == (DiagnosticModel { severity, ..self@ }),
    {
        let mut d = self;
        d.severity = severity;
        d
    }

    pub fn with_details(self, details: String) -> (r: Self)
        ensures
            r@ == (DiagnosticModel { details: Some(details@), ..self@ }),
    {
        let mut d = self;
        d.details = Some(details);
        d
    }

    /// Appends a related location.
    pub fn with_related(self, location: Location, message: String) -> (r: Self)
        ensures
            r@ == (DiagnosticModel {
                related: self@.related.push(RelatedModel { location: location@, message: message@ }),
                ..self@
            }),
    {
        let mut d = self;
        let ghost before = d.related@;
        let rel = RelatedLocation { location, message };
        d.related.push(rel);
        assert(related_models(d.related@) =~= related_models(before).push(rel@));
        d
    }

    pub fn with_suggestion(self, suggestion: String) -> (r: Self)
        ensures
            r@ == (DiagnosticModel { suggestion: Some(suggestion@), ..self@ }),
    {
        let mut d = self;
        d.suggestion = Some(suggestion);
        d
    }

    pub fn with_snippet(self, snippet: CodeSnippet) -> (r: Self)
        ensures
            r@ == (DiagnosticModel { code_snippet: Some(snippet@), ..self@ }),
    {
        let mut d = self;
        d.code_snippet = Some(snippet);
        d
    }

    /// The text of the diagnostic (see [`diagnostic_text`]).
    pub fn display(&self) -> (r: String)
        requires
            showable(self@),
        ensures
            r@ == diagnostic_text(self@),
    {
        let ghost d = self@;
        let mut output = String::new();
        output.append(self.severity.upper());
        output.append(": ");
        append_location(&mut output, &self.location);
        output.append(": ");
        output.append(self.message.as_str());
        output.append("\n");
        assert(output@ =~= header_text(d));
        append_snippet(&mut output, &self.code_snippet);
        append_labelled(&mut output, "\nDetails:\n  ", &self.details);
        append_related(&mut output, &self.related);
        append_labelled(&mut output, "\nSuggestion:\n  ", &self.suggestion);
        assert(output@ =~= diagnostic_text(d));
        output
    }
}

/// Collects the parts of a diagnostic and builds it.
pub struct DiagnosticBuilder {
    location: Location,
    error_kind: ViolationKind,
    message: String,
    severity: Severity,
    details: Option<String>,
    related: Vec<RelatedLocation>,
    suggestion: Option<String>,
    code_snippet: Option<CodeSnippet>,
}

impl View for DiagnosticBuilder {
    type V = DiagnosticModel;

    /// The diagnostic that `build` returns.
    closed spec fn view(&self) -> DiagnosticModel {
        DiagnosticModel {
            location: self.location@,
            severity: self.severity,
            error_kind: self.error_kind,
            message: self.message@,
            details: opt_text(self.details),
            related: related_models(self.related@),
            suggestion: opt_text(self.suggestion),
            code_snippet: match self.code_snippet {
                Some(s) => Some(s@),
                None => None,
            },
        }
    }
}

impl DiagnosticBuilder {
    /// An error at `file:line:col` with only a message.
    pub fn new(file: String, line: u32, col: u32, error_kind: ViolationKind, message: String) -> (r: Self)
        ensures
            r@ == (DiagnosticModel {
                location: LocationModel { file: file@, line, col },
                severity: Severity::Error,
                error_kind,
                message: message@,
                details: None,
                related: Seq::empty(),
                suggestion: None,
                code_snippet: None,
            }),
    {
        let r = DiagnosticBuilder {
            location: Location::new(file, line, col),
            error_kind,
            message,
            severity: Severity::Error,
            details: None,
            related: Vec::new(),
            suggestion: None,
            code_snippet: None,
        };
        assert(r@.related =~= Seq::<RelatedModel>::empty());
        r
    }

    pub fn severity(self, severity: Severity) -> (r: Self)
        ensures
            r@ == (DiagnosticModel { severity, ..self@ }),
    {
        let mut b = self;
        b.severity = severity;
        b
    }

    pub fn details(self, details: String) -> (r: Self)
        ensures
            r@ == (DiagnosticModel { details: Some(details@), ..self@ }),
    {
        let mut b = self;
        b.details = Some(details);
        b
    }

    /// Appends a related location at `file:line:col`.
    pub fn related(self, file: String, line: u32, col: u32, message: String) -> (r: Self)
        ensures
            r@ == (DiagnosticModel {
                related: self@.related.push(RelatedModel { location: LocationModel { file: file@, line, col },
                    message: message@ }),
                ..self@
            }),
    {
        let mut b = self;
        let ghost before = b.related@;
        let rel = RelatedLocation { location: Location::new(file, line, col), message };
        b.related.push(rel);
        assert(related_models(b.related@) =~= related_models(before).push(rel@));
        b
    }

    pub fn suggestion(self, suggestion: String) -> (r: Self)
        ensures
            r@ == (DiagnosticModel { suggestion: Some(suggestion@), ..self@ }),
    {
        let mut b = self;
        b.suggestion = Some(suggestion);
        b
    }

    pub fn snippet(self, snippet: CodeSnippet) -> (r: Self)
        ensures
            r@ == (DiagnosticModel { code_snippet: Some(snippet@), ..self@ }),
    {
        let mut b = self;
        b.code_snippet = Some(snippet);
        b
    }

    pub fn build(self) -> (r: LinearTypeDiagnostic)
        ensures
            r@ == self@,
    {
        let mut diag = LinearTypeDiagnostic::new(self.location, self.error_kind, self.message);
        diag.severity = self.severity;
        diag.details = self.details;
        diag.related = self.related;
        diag.suggestion = self.suggestion;
        diag.code_snippet = self.code_snippet;
        diag
    }
}

/// `line:col`.
pub open spec fn line_col(line: u32, col: u32) -> Seq<char> {
    nat_decimal(line as nat) + ":"@ + nat_decimal(col as nat)
}

/// An error diagnostic with one related location in the same file, details and a
/// suggestion.
pub open spec fn explained(
    file: Seq<char>,
    at: (u32, u32),
    kind: ViolationKind,
    message: Seq<char>,
    related_at: (u32, u32),
    related_message: Seq<char>,
    details: Seq<char>,
    suggestion: Seq<char>,
) -> DiagnosticModel {
    DiagnosticModel {
        location: LocationModel { file, line: at.0, col: at.1 },
        severity: Severity::Error,
        error_kind: kind,
        message,
        details: Some(details),
        related: seq![RelatedModel { location: LocationModel { file, line: related_at.0, col: related_at.1 },
            message: related_message }],
        suggestion: Some(suggestion),
        code_snippet: None,
    }
}

fn text_at(prefix: &str, name: &str, middle: &str, line: u32, col: u32, tail: &str) -> (r: String)
    ensures
        r@ == prefix@ + quoted(name@) + middle@ + line_col(line, col) + tail@,
{
    let mut s = quote_between(prefix, name, middle);
    append_decimal(&mut s, line as u64);
    s.append(":");
    append_decimal(&mut s, col as u64);
    s.append(tail);
    assert(s@ =~= prefix@ + quoted(name@) + middle@ + line_col(line, col) + tail@);
    s
}

fn quote_tail(name: &str, tail: &str) -> (r: String)
    ensures
        r@ == quoted(name@) + tail@,
{
    let mut out = String::from_str("'");
    out.append(name);
    out.append("'");
    out.append(tail);
    assert(out@ =~= quoted(name@) + tail@);
    out
}

/// Ready-made diagnostics for the common linear type errors.
pub struct DiagnosticFactory;

impl DiagnosticFactory {
    /// A use of `var_name` after its move at `move_line:move_col`.
    pub fn use_after_move(file: String, use_line: u32, use_col: u32, var_name: &str, move_line: u32, move_col: u32)
        -> (r: LinearTypeDiagnostic)
        ensures
            r@ == explained(
                file@,
                (use_line, use_col),
                ViolationKind::UseAfterMove,
                "cannot use binding "@ + quoted(var_name@) + " after it was moved"@,
                (move_line, move_col),
                quoted(var_name@) + " was moved here"@,
                "The binding "@ + quoted(var_name@) + " was moved at line "@ + line_col(move_line, move_col)
                    + ", meaning ownership was transferred. After a move, the original binding cannot be used again."@,
                "If you need to use "@ + quoted(var_name@)
                    + " multiple times, either:\n  1. Clone/copy the value if it's copyable\n  2. Use a reference (&"@
                    + var_name@ + ") if borrowing is sufficient\n  3. Restructure your code to avoid the move"@,
            ),
    {
        let location = Location::new(file.clone(), use_line, use_col);
        let message = quote_between("cannot use binding ", var_name, " after it was moved");
        let diag = LinearTypeDiagnostic::new(location, ViolationKind::UseAfterMove, message);
        let diag = diag.with_related(Location::new(file, move_line, move_col), quote_tail(var_name, " was moved here"));
        let diag = diag.with_details(text_at("The binding ", var_name, " was moved at line ", move_line, move_col,
            ", meaning ownership was transferred. After a move, the original binding cannot be used again."));
        let mut suggestion = quote_between("If you need to use ", var_name,
            " multiple times, either:\n  1. Clone/copy the value if it's copyable\n  2. Use a reference (&");
        suggestion.append(var_name);
        suggestion.append(") if borrowing is sufficient\n  3. Restructure your code to avoid the move");
        assert(suggestion@ =~= "If you need to use "@ + quoted(var_name@)
            + " multiple times, either:\n  1. Clone/copy the value if it's copyable\n  2. Use a reference (&"@
            + var_name@ + ") if borrowing is sufficient\n  3. Restructure your code to avoid the move"@);
        let r = diag.with_suggestion(suggestion);
        assert(r@.related =~= seq![r@.related[0]]);
        r
    }

    /// A linear resource `var_name` of type `ty_name` that was never consumed.
    pub fn linear_not_consumed(file: String, line: u32, col: u32, var_name: &str, ty_name: &str)
        -> (r: LinearTypeDiagnostic)
        ensures
            r@ == (DiagnosticModel {
                location: LocationModel { file: file@, line, col },
                severity: Severity::Error,
                error_kind: ViolationKind::UseNotMoved,
                message: "linear resource "@ + quoted(var_name@) + " of type "@ + quoted(ty_name@) + " was not consumed"@,
                details: Some("Linear types like "@ + quoted(ty_name@)
                    + " must be explicitly consumed (moved, returned, or closed) before the function ends. This resource was not consumed, which may leak resources."@),
                related: Seq::empty(),
                suggestion: Some("You must consume the linear resource "@ + quoted(var_name@)
                    + ":\n  1. Pass it to another function that consumes it\n  2. Return it to the caller\n  3. Explicitly close/finalize it if applicable"@),
                code_snippet: None,
            }),
    {
        let location = Location::new(file, line, col);
        let tail = quote_between(" of type ", ty_name, " was not consumed");
        let message = quote_between("linear resource ", var_name, tail.as_str());
        assert(message@ =~= "linear resource "@ + quoted(var_name@) + " of type "@ + quoted(ty_name@) + " was not consumed"@);
        let diag = LinearTypeDiagnostic::new(location, ViolationKind::UseNotMoved, message);
        let diag = diag.with_details(quote_between("Linear types like ", ty_name,
            " must be explicitly consumed (moved, returned, or closed) before the function ends. This resource was not consumed, which may leak resources."));
        diag.with_suggestion(quote_between("You must consume the linear resource ", var_name,
            ":\n  1. Pass it to another function that consumes it\n  2. Return it to the caller\n  3. Explicitly close/finalize it if applicable"))
    }

    /// A second move of `var_name`, first moved at `first_move_line:first_move_col`.
    pub fn double_move(
        file: String,
        second_move_line: u32,
        second_move_col: u32,
        var_name: &str,
        first_move_line: u32,
        first_move_col: u32,
    ) -> (r: LinearTypeDiagnostic)
        ensures
            r@ == explained(
                file@,
                (second_move_line, second_move_col),
                ViolationKind::DoubleMove,
                "cannot move binding "@ + quoted(var_name@) + " a second time"@,
                (first_move_line, first_move_col),
                quoted(var_name@) + " was first moved here"@,
                "The binding "@ + quoted(var_name@) + " can only be moved once. After the first move at line "@
                    + line_col(first_move_line, first_move_col) + ", the binding is no longer usable."@,
                "Remove this second move, or use a reference if you need to access "@ + quoted(var_name@) + " again"@,
            ),
    {
        let location = Location::new(file.clone(), second_move_line, second_move_col);
        let message = quote_between("cannot move binding ", var_name, " a second time");
        let diag = LinearTypeDiagnostic::new(location, ViolationKind::DoubleMove, message);
        let diag = diag.with_related(Location::new(file, first_move_line, first_move_col),
            quote_tail(var_name, " was first moved here"));
        let diag = diag.with_details(text_at("The binding ", var_name,
            " can only be moved once. After the first move at line ", first_move_line, first_move_col,
            ", the binding is no longer usable."));
        let r = diag.with_suggestion(quote_between("Remove this second move, or use a reference if you need to access ",
            var_name, " again"));
        assert(r@.related =~= seq![r@.related[0]]);
        r
    }

    /// A move of `var_name` while it is borrowed (since `borrow_line:borrow_col`).
    pub fn move_after_borrow(file: String, move_line: u32, move_col: u32, var_name: &str, borrow_line: u32, borrow_col: u32)
        -> (r: LinearTypeDiagnostic)
        ensures
            r@ == explained(
                file@,
                (move_line, move_col),
                ViolationKind::MoveAfterBorrow,
                "cannot move binding "@ + quoted(var_name@) + " while it's borrowed"@,
                (borrow_line, borrow_col),
                quoted(var_name@) + " was borrowed here"@,
                "The binding "@ + quoted(var_name@) + " has an active borrow at line "@ + line_col(borrow_line, borrow_col)
                    + ". You cannot move a value while there are outstanding references to it."@,
                "Ensure all borrowing of this value is complete before attempting to move it"@,
            ),
    {
        let location = Location::new(file.clone(), move_line, move_col);
        let message = quote_between("cannot move binding ", var_name, " while it's borrowed");
        let diag = LinearTypeDiagnostic::new(location, ViolationKind::MoveAfterBorrow, message);
        let diag = diag.with_related(Location::new(file, borrow_line, borrow_col),
            quote_tail(var_name, " was borrowed here"));
        let diag = diag.with_details(text_at("The binding ", var_name, " has an active borrow at line ", borrow_line,
            borrow_col, ". You cannot move a value while there are outstanding references to it."));
        let r = diag.with_suggestion(String::from_str(
            "Ensure all borrowing of this value is complete before attempting to move it"));
        assert(r@.related =~= seq![r@.related[0]]);
        r
    }

    /// A borrow of `var_name` after its move at `move_line:move_col`.
    pub fn borrow_after_move(file: String, borrow_line: u32, borrow_col: u32, var_name: &str, move_line: u32, move_col: u32)
        -> (r: LinearTypeDiagnostic)
        ensures
            r@ == explained(
                file@,
                (borrow_line, borrow_col),
                ViolationKind::BorrowAfterMove,
                "cannot borrow binding "@ + quoted(var_name@) + " after it was moved"@,
                (move_line, move_col),
                quoted(var_name@) + " was moved here"@,
                "Once a binding is moved at line "@ + line_col(move_line, move_col)
                    + ", the original binding is invalidated and cannot be borrowed or used in any way."@,
                "Either avoid moving "@ + quoted(var_name@) + ", or restructure your code to borrow it before the move"@,
            ),
    {
        let location = Location::new(file.clone(), borrow_line, borrow_col);
        let message = quote_between("cannot borrow binding ", var_name, " after it was moved");
        let diag = LinearTypeDiagnostic::new(location, ViolationKind::BorrowAfterMove, message);
        let diag = diag.with_related(Location::new(file, move_line, move_col), quote_tail(var_name, " was moved here"));
        let mut details = String::from_str("Once a binding is moved at line ");
        append_decimal(&mut details, move_line as u64);
        details.append(":");
        append_decimal(&mut details, move_col as u64);
        details.append(", the original binding is invalidated and cannot be borrowed or used in any way.");
        proof {
            assert(details@ =~= "Once a binding is moved at line "@ + line_col(move_line, move_col)
                + ", the original binding is invalidated and cannot be borrowed or used in any way."@);
        }
        let diag = diag.with_details(details);
        let r = diag.with_suggestion(quote_between("Either avoid moving ", var_name,
            ", or restructure your code to borrow it before the move"));
        assert(r@.related =~= seq![r@.related[0]]);
        r
    }
}

/// The error diagnostics among `ds`, in order.
pub open spec fn errors_of(ds: Seq<DiagnosticModel>) -> Seq<DiagnosticModel>
    decreases ds.len(),
{
    if ds.len() == 0 {
        Seq::empty()
    } else if ds.last().severity is Error {
        errors_of(ds.drop_last()).push(ds.last())
    } else {
        errors_of(ds.drop_last())
    }
}

/// The texts of diagnostics, each followed by an empty line.
pub open spec fn report_text(ds: Seq<DiagnosticModel>) -> Seq<char>
    decreases ds.len(),
{
    if ds.len() == 0 {
        Seq::empty()
    } else {
        report_text(ds.drop_last()) + diagnostic_text(ds.last()) + "\n"@
    }
}

pub open spec fn diagnostic_models(ds: Seq<LinearTypeDiagnostic>) -> Seq<DiagnosticModel> {
    ds.map_values(|d: LinearTypeDiagnostic| d@)
}

/// Collects diagnostics in the order they were added.
pub struct DiagnosticReporter {
    diagnostics: Vec<LinearTypeDiagnostic>,
}

impl View for DiagnosticReporter {
    type V = Seq<DiagnosticModel>;

    closed spec fn view(&self) -> Seq<DiagnosticModel> {
        diagnostic_models(self.diagnostics@)
    }
}

impl DiagnosticReporter {
    pub fn new() -> (r: Self)
        ensures
            r@ == Seq::<DiagnosticModel>::empty(),
    {
        let r = DiagnosticReporter { diagnostics: Vec::new() };
        assert(r@ =~= Seq::<DiagnosticModel>::empty());
        r
    }

    pub fn add(&mut self, diagnostic: LinearTypeDiagnostic)
        ensures
            final(self)@ == old(self)@.push(diagnostic@),
    {
        let ghost before = self.diagnostics@;
        self.diagnostics.push(diagnostic);
        assert(diagnostic_models(self.diagnostics@) =~= diagnostic_models(before).push(diagnostic@));
    }

    /// All diagnostics, in order.
    pub fn diagnostics(&self) -> (r: &[LinearTypeDiagnostic])
        ensures
            diagnostic_models(r@) == self@,
    {
        self.diagnostics.as_slice()
    }

    /// The error diagnostics, in order.
    pub fn errors(&self) -> (r: Vec<&LinearTypeDiagnostic>)
        ensures
            r@.len() == errors_of(self@).len(),
            forall|i: int| 0 <= i < r@.len() ==> (#[trigger] r@[i])@ == errors_of(self@)[i],
    {
        let ghost ds = self@;
        let mut out: Vec<&LinearTypeDiagnostic> = Vec::new();
        let mut k: usize = 0;
        while k < self.diagnostics.len()
            invariant
                k <= self.diagnostics@.len(),
                ds == self@,
                out@.len() == errors_of(ds.subrange(0, k as int)).len(),
                forall|i: int| 0 <= i < out@.len() ==> (#[trigger] out@[i])@ == errors_of(ds.subrange(0, k as int))[i],
            decreases self.diagnostics.len() - k,
        {
            let ghost sub = ds.subrange(0, k + 1);
            assert(sub.drop_last() =~= ds.subrange(0, k as int));
            assert(sub.last() == self.diagnostics@[k as int]@);
            let d = &self.diagnostics[k];
            if d.severity == Severity::Error {
                out.push(d);
            }
            k = k + 1;
        }
        assert(ds.subrange(0, self.diagnostics@.len() as int) =~= ds);
        out
    }

    /// Whether any diagnostic is an error.
    pub fn has_errors(&self) -> (r: bool)
        ensures
            r == exists|i: int| 0 <= i < self@.len() && (#[trigger] self@[i]).severity is Error,
    {
        let mut k: usize = 0;
        while k < self.diagnostics.len()
            invariant
                k <= self.diagnostics@.len(),
                forall|i: int| 0 <= i < k ==> !((#[trigger] self@[i]).severity is Error),
            decreases self.diagnostics.len() - k,
        {
            assert(self@[k as int] == self.diagnostics@[k as int]@);
            if self.diagnostics[k].severity == Severity::Error {
                return true;
            }
            k = k + 1;
        }
        false
    }

    /// Every diagnostic's text followed by an empty line.
    pub fn report(&self) -> (r: String)
        requires
            forall|i: int| 0 <= i < self@.len() ==> showable(#[trigger] self@[i]),
        ensures
            r@ == report_text(self@),
    {
        let ghost ds = self@;
        let mut output = String::new();
        let mut k: usize = 0;
        while k < self.diagnostics.len()
            invariant
                k <= self.diagnostics@.len(),
                ds == self@,
                forall|i: int| 0 <= i < ds.len() ==> showable(#[trigger] ds[i]),
                output@ == report_text(ds.subrange(0, k as int)),
            decreases self.diagnostics.len() - k,
        {
            let ghost sub = ds.subrange(0, k + 1);
            assert(sub.drop_last() =~= ds.subrange(0, k as int));
            assert(sub.last() == self.diagnostics@[k as int]@);
            assert(showable(ds[k as int]));
            let text = self.diagnostics[k].display();
            output.append(text.as_str());
            output.append("\n");
            assert(output@ =~= report_text(sub));
            k = k + 1;
        }
        assert(ds.subrange(0, self.diagnostics@.len() as int) =~= ds);
        output
    }
}

} // verus!
