//! Structured diagnostics: one data model for every error and warning, and its renderings.
use vstd::prelude::*;
use vstd::string::*;
use crate::chars;
use crate::text;
use crate::ast::Span;
use crate::chars::{chars_of, lines_of, starts_at, string_of};
use crate::errors::{LexError, LexErrorKind, LexErrorKindV, ParseError, ParseErrorKind};
use crate::text::decimal_text;

verus! {

#[derive(Debug, Clone, Copy, PartialEq, Eq, Structural)]
pub enum Severity {
    Error,
    Warning,
    Note,
}

#[derive(Debug, Clone, Copy, PartialEq, Eq)]
pub struct DiagCode(pub &'static str);

/// A place in a source: line and column count from one, the column in characters; `byte`
/// is an offset from zero.
#[derive(Debug, Clone, Copy, PartialEq, Eq, Structural)]
pub struct Position {
    pub line: u32,
    pub col: u32,
    pub byte: u32,
}

#[derive(Debug, Clone, PartialEq, Eq)]
pub struct SourceSpan {
    pub file: String,
    pub start: Position,
    pub end: Position,
}

#[derive(Debug, Clone, PartialEq, Eq)]
pub struct Label {
    pub span: SourceSpan,
    pub message: String,
}

#[derive(Debug, Clone, Copy, PartialEq, Eq, Structural)]
pub enum Applicability {
    MachineApplicable,
    MaybeIncorrect,
    HasPlaceholders,
    Unspecified,
}

#[derive(Debug, Clone, PartialEq, Eq)]
pub struct Suggestion {
    pub description: String,
    pub span: SourceSpan,
    pub replacement: String,
    pub applicability: Applicability,
}

#[derive(Debug, Clone, PartialEq, Eq)]
pub struct Diagnostic {
    pub severity: Severity,
    pub code: DiagCode,
    pub message: String,
    pub primary: SourceSpan,
    pub labels: Vec<Label>,
    pub notes: Vec<String>,
    pub suggestions: Vec<Suggestion>,
}

pub struct SourceSpanV {
    pub file: Seq<char>,
    pub start: Position,
    pub end: Position,
}

pub struct LabelV {
    pub span: SourceSpanV,
    pub message: Seq<char>,
}

pub struct SuggestionV {
    pub description: Seq<char>,
    pub span: SourceSpanV,
    pub replacement: Seq<char>,
    pub applicability: Applicability,
}

#[verifier::ext_equal]
pub struct DiagnosticV {
    pub severity: Severity,
    pub code: Seq<char>,
    pub message: Seq<char>,
    pub primary: SourceSpanV,
    pub labels: Seq<LabelV>,
    pub notes: Seq<Seq<char>>,
    pub suggestions: Seq<SuggestionV>,
}

impl View for SourceSpan {
    type V = SourceSpanV;

    open spec fn view(&self) -> SourceSpanV {
        SourceSpanV { file: self.file@, start: self.start, end: self.end }
    }
}

impl View for Label {
    type V = LabelV;

    open spec fn view(&self) -> LabelV {
        LabelV { span: self.span@, message: self.message@ }
    }
}

impl DeepView for Label {
    type V = LabelV;

    open spec fn deep_view(&self) -> LabelV {
        self@
    }
}

impl View for Suggestion {
    type V = SuggestionV;

    open spec fn view(&self) -> SuggestionV {
        SuggestionV {
            description: self.description@,
            span: self.span@,
            replacement: self.replacement@,
            applicability: self.applicability,
        }
    }
}

impl DeepView for Suggestion {
    type V = SuggestionV;

    open spec fn deep_view(&self) -> SuggestionV {
        self@
    }
}

impl View for Diagnostic {
    type V = DiagnosticV;

    open spec fn view(&self) -> DiagnosticV {
        DiagnosticV {
            severity: self.severity,
            code: self.code.0@,
            message: self.message@,
            primary: self.primary@,
            labels: self.labels.deep_view(),
            notes: self.notes.deep_view(),
            suggestions: self.suggestions.deep_view(),
        }
    }
}

impl DeepView for Diagnostic {
    type V = DiagnosticV;

    open spec fn deep_view(&self) -> DiagnosticV {
        self@
    }
}

// ---------------------------------------------------------------------------
// Rendering.

pub open spec fn severity_text(s: Severity) -> Seq<char> {
    match s {
        Severity::Error => "error"@,
        Severity::Warning => "warning"@,
        Severity::Note => "note"@,
    }
}

pub open spec fn short_text(d: DiagnosticV) -> Seq<char> {
    d.primary.file + ":"@ + text::decimal(d.primary.start.line as nat) + ":"@ + text::decimal(d.primary.start.col as nat) + ": "@
        + severity_text(d.severity) + "["@ + d.code + "]: "@ + d.message
}

/// The line of the source that a span starts on, if the source has it.
pub open spec fn snippet_text(line: u32, src: Seq<char>) -> Option<Seq<char>> {
    if 1 <= line <= chars::lines(src).len() {
        Some("  | "@ + chars::lines(src)[line - 1])
    } else {
        None
    }
}

pub open spec fn with_snippet(out: Seq<char>, line: u32, src: Seq<char>) -> Seq<char> {
    match snippet_text(line, src) {
        Some(t) => out + "\n"@ + t,
        None => out,
    }
}

pub open spec fn with_label(out: Seq<char>, l: LabelV, src: Seq<char>) -> Seq<char> {
    with_snippet(
        out + "\n  "@ + l.span.file + ":"@ + text::decimal(l.span.start.line as nat) + ":"@ + text::decimal(
            l.span.start.col as nat,
        ) + ": note: "@ + l.message,
        l.span.start.line,
        src,
    )
}

pub open spec fn with_labels(out: Seq<char>, ls: Seq<LabelV>, src: Seq<char>, i: nat) -> Seq<char>
    decreases ls.len() - i,
{
    if i >= ls.len() {
        out
    } else {
        with_labels(with_label(out, ls[i as int], src), ls, src, i + 1)
    }
}

pub open spec fn with_notes(out: Seq<char>, ns: Seq<Seq<char>>, i: nat) -> Seq<char>
    decreases ns.len() - i,
{
    if i >= ns.len() {
        out
    } else {
        with_notes(out + "\n  = note: "@ + ns[i as int], ns, i + 1)
    }
}

/// The text of a string as `{:?}` writes it: in quotes, with escapes.
pub uninterp spec fn debug_text(s: Seq<char>) -> Seq<char>;

/// What a suggestion is rendered as, given its replacement in quotes.
pub open spec fn help_text(description: Seq<char>, quoted: Seq<char>) -> Seq<char> {
    "\n  = help: "@ + description + " (replace with "@ + quoted + ")"@
}

pub open spec fn with_help(out: Seq<char>, ss: Seq<SuggestionV>, i: nat) -> Seq<char>
    decreases ss.len() - i,
{
    if i >= ss.len() {
        out
    } else {
        with_help(
            out + help_text(ss[i as int].description, debug_text(ss[i as int].replacement)),
            ss,
            i + 1,
        )
    }
}

/// The short form, the source line, then the labels, the notes and the suggestions.
pub open spec fn human_text(d: DiagnosticV, src: Seq<char>) -> Seq<char> {
    let out = with_snippet(short_text(d), d.primary.start.line, src);
    let out = with_labels(out, d.labels, src, 0);
    let out = with_notes(out, d.notes, 0);
    with_help(out, d.suggestions, 0)
}

/// `format!("{:?}", s)` of the standard library, whose result is a function of the text.
#[verifier::external_body]
fn quoted(s: &str) -> (r: String)
    ensures
        r@ == debug_text(s@),
{
    format!("{:?}", s)
}

/// The line that offers a suggestion.
pub fn help_line(description: &str, quoted: &str) -> (r: String)
    ensures
        r@ == help_text(description@, quoted@),
{
    let mut out: String = "\n  = help: ".to_owned();
    out.append(description);
    out.append(" (replace with ");
    out.append(quoted);
    out.append(")");
    out
}

fn append_snippet(out: &mut String, line: u32, source_lines: &Vec<Vec<char>>, Ghost(src): Ghost<Seq<char>>)
    requires
        source_lines.deep_view() == chars::lines(src),
    ensures
        final(out)@ == with_snippet(old(out)@, line, src),
{
    if line >= 1 && ((line - 1) as usize) < source_lines.len() {
        let i: usize = (line - 1) as usize;
        assert(chars::lines(src)[i as int] == source_lines@[i as int].deep_view());
        assert(source_lines@[i as int].deep_view() =~= source_lines@[i as int]@);
        let mut t: String = "  | ".to_owned();
        t.append(string_of(&source_lines[i]).as_str());
        out.append("\n");
        out.append(t.as_str());
    }
}

impl Diagnostic {
    pub fn render_short(&self) -> (r: String)
        ensures
            r@ == short_text(self@),
    {
        let sev = match self.severity {
            Severity::Error => "error",
            Severity::Warning => "warning",
            Severity::Note => "note",
        };
        let mut out: String = self.primary.file.clone();
        out.append(":");
        out.append(decimal_text(self.primary.start.line as u64).as_str());
        out.append(":");
        out.append(decimal_text(self.primary.start.col as u64).as_str());
        out.append(": ");
        out.append(sev);
        out.append("[");
        out.append(self.code.0);
        out.append("]: ");
        out.append(self.message.as_str());
        out
    }

    pub fn render_human(&self, src: &str) -> (r: String)
        ensures
            r@ == human_text(self@, src@),
    {
        let source_lines = lines_of(&chars_of(src));
        let mut out = self.render_short();
        append_snippet(&mut out, self.primary.start.line, &source_lines, Ghost(src@));
        let ghost o1 = out@;
        let ghost ls = self.labels.deep_view();
        let mut i: usize = 0;
        while i < self.labels.len()
            invariant
                i <= self.labels@.len(),
                ls == self.labels.deep_view(),
                source_lines.deep_view() == chars::lines(src@),
                with_labels(out@, ls, src@, i as nat) == with_labels(o1, ls, src@, 0),
            decreases self.labels@.len() - i,
        {
            let l = &self.labels[i];
            assert(ls[i as int] == l@);
            out.append("\n  ");
            out.append(l.span.file.as_str());
            out.append(":");
            out.append(decimal_text(l.span.start.line as u64).as_str());
            out.append(":");
            out.append(decimal_text(l.span.start.col as u64).as_str());
            out.append(": note: ");
            out.append(l.message.as_str());
            append_snippet(&mut out, l.span.start.line, &source_lines, Ghost(src@));
            i += 1;
        }
        let ghost o2 = out@;
        let ghost ns = self.notes.deep_view();
        let mut j: usize = 0;
        while j < self.notes.len()
            invariant
                j <= self.notes@.len(),
                ns == self.notes.deep_view(),
                with_notes(out@, ns, j as nat) == with_notes(o2, ns, 0),
            decreases self.notes@.len() - j,
        {
            assert(ns[j as int] == self.notes@[j as int]@);
            out.append("\n  = note: ");
            out.append(self.notes[j].as_str());
            j += 1;
        }
        let ghost o3 = out@;
        let ghost ss = self.suggestions.deep_view();
        let mut k: usize = 0;
        while k < self.suggestions.len()
            invariant
                k <= self.suggestions@.len(),
                ss == self.suggestions.deep_view(),
                with_help(out@, ss, k as nat) == with_help(o3, ss, 0),
            decreases self.suggestions@.len() - k,
        {
            let s = &self.suggestions[k];
            assert(ss[k as int] == s@);
            let q = quoted(s.replacement.as_str());
            out.append(help_line(s.description.as_str(), q.as_str()).as_str());
            k += 1;
        }
        out
    }
}

// ---------------------------------------------------------------------------
// From byte offsets to lines and columns.

/// The byte offsets at which the lines of a source start.
pub struct LineMap {
    line_starts: Vec<u32>,
}

impl View for LineMap {
    type V = Seq<u32>;

    closed spec fn view(&self) -> Seq<u32> {
        self.line_starts@
    }
}

pub open spec fn starts_from(acc: Seq<u32>, b: Seq<u8>, i: nat) -> Seq<u32>
    decreases b.len() - i,
{
    if i >= b.len() {
        acc
    } else {
        starts_from(
            if b[i as int] == 10 {
                acc.push((i + 1) as u32)
            } else {
                acc
            },
            b,
            i + 1,
        )
    }
}

/// Zero and the offset after each line feed.
pub open spec fn line_starts(b: Seq<u8>) -> Seq<u32> {
    starts_from(seq![0u32], b, 0)
}

/// The first line from `i` on that starts after the offset.
pub open spec fn line_after(starts: Seq<u32>, byte: u32, i: nat) -> nat
    decreases starts.len() - i,
{
    if i >= starts.len() {
        starts.len()
    } else if starts[i as int] <= byte {
        line_after(starts, byte, i + 1)
    } else {
        i
    }
}

/// How many characters begin between two offsets: a character begins at each byte that does
/// not continue one.
pub open spec fn chars_between(b: Seq<u8>, from: int, to: int) -> nat
    decreases to - from,
{
    if to <= from {
        0
    } else {
        chars_between(b, from, to - 1) + (if vstd::utf8::is_continuation_byte(b[to - 1]) {
            0nat
        } else {
            1nat
        })
    }
}

/// The index of the line that the offset lies on.
pub open spec fn line_of(starts: Seq<u32>, byte: u32) -> nat {
    let n = line_after(starts, byte, 0);
    if n == 0 {
        0
    } else {
        (n - 1) as nat
    }
}

pub open spec fn position_in(starts: Seq<u32>, byte: u32, b: Seq<u8>) -> Position {
    let line = line_of(starts, byte);
    let from = if line < starts.len() {
        starts[line as int]
    } else {
        0
    };
    let to = if (byte as nat) < b.len() {
        byte as int
    } else {
        b.len() as int
    };
    Position {
        line: (line + 1) as u32,
        col: (chars_between(b, from as int, to) as u32).wrapping_add(1),
        byte,
    }
}

pub open spec fn span_in(starts: Seq<u32>, file: Seq<char>, span: Span, b: Seq<u8>) -> SourceSpanV {
    SourceSpanV { file, start: position_in(starts, span.start, b), end: position_in(starts, span.end, b) }
}

fn count_chars(b: &[u8], from: usize, to: usize) -> (r: usize)
    requires
        to <= b@.len(),
    ensures
        r == chars_between(b@, from as int, to as int),
{
    let mut n: usize = 0;
    let mut i: usize = from;
    while i < to
        invariant
            from <= i,
            to <= b@.len(),
            from <= to ==> i <= to,
            from > to ==> i == from,
            n == chars_between(b@, from as int, i as int),
            n <= i - from,
        decreases to - i,
    {
        if b[i] < 0x80 || b[i] > 0xbf {
            n += 1;
        }
        i += 1;
    }
    n
}

impl LineMap {
    pub fn new(src: &str) -> (r: LineMap)
        ensures
            r@ == line_starts(src.spec_bytes()),
    {
        let b = src.as_bytes();
        let mut starts: Vec<u32> = Vec::new();
        starts.push(0);
        assert(starts@ =~= seq![0u32]);
        let mut i: usize = 0;
        while i < b.len()
            invariant
                i <= b@.len(),
                starts_from(starts@, b@, i as nat) == line_starts(b@),
            decreases b@.len() - i,
        {
            if b[i] == 10 {
                starts.push((i + 1) as u32);
            }
            i += 1;
        }
        LineMap { line_starts: starts }
    }

    /// The position of a byte offset. An offset past the end is on the last line, and one inside a
    /// character is taken to be after that character's start.
    pub fn position(&self, byte: u32, src: &str) -> (r: Position)
        ensures
            r == position_in(self@, byte, src.spec_bytes()),
    {
        let b = src.as_bytes();
        let mut n: usize = 0;
        while n < self.line_starts.len() && self.line_starts[n] <= byte
            invariant
                n <= self.line_starts@.len(),
                line_after(self@, byte, n as nat) == line_after(self@, byte, 0),
            decreases self.line_starts@.len() - n,
        {
            n += 1;
        }
        let line: usize = if n == 0 {
            0
        } else {
            n - 1
        };
        let from: usize = if line < self.line_starts.len() {
            self.line_starts[line] as usize
        } else {
            0
        };
        let to: usize = if (byte as usize) < b.len() {
            byte as usize
        } else {
            b.len()
        };
        let chars: usize = count_chars(b, from, to);
        Position { line: (line + 1) as u32, col: (chars as u32).wrapping_add(1), byte }
    }

    pub fn span(&self, file: &str, span: Span, src: &str) -> (r: SourceSpan)
        ensures
            r@ == span_in(self@, file@, span, src.spec_bytes()),
    {
        SourceSpan { file: file.to_owned(), start: self.position(span.start, src), end: self.position(span.end, src) }
    }
}

// ---------------------------------------------------------------------------
// A sink for the diagnostics of a pass.

pub struct DiagSink {
    diags: Vec<Diagnostic>,
}

impl View for DiagSink {
    type V = Seq<DiagnosticV>;

    closed spec fn view(&self) -> Seq<DiagnosticV> {
        self.diags.deep_view()
    }
}

impl Default for DiagSink {
    fn default() -> (r: DiagSink)
        ensures
            r@ == Seq::<DiagnosticV>::empty(),
    {
        DiagSink::new()
    }
}

impl DiagSink {
    pub fn new() -> (r: DiagSink)
        ensures
            r@ == Seq::<DiagnosticV>::empty(),
    {
        let r = DiagSink { diags: Vec::new() };
        assert(r@ =~= Seq::<DiagnosticV>::empty());
        r
    }

    pub fn emit(&mut self, d: Diagnostic)
        ensures
            final(self)@ == old(self)@.push(d@),
    {
        let ghost before = self@;
        let ghost dv = d@;
        self.diags.push(d);
        assert(self@ =~= before.push(dv));
    }

    pub fn diagnostics(&self) -> (r: &[Diagnostic])
        ensures
            r.deep_view() == self@,
    {
        let r = self.diags.as_slice();
        assert(r.deep_view() =~= self@);
        r
    }

    pub fn into_vec(self) -> (r: Vec<Diagnostic>)
        ensures
            r.deep_view() == self@,
    {
        self.diags
    }

    pub fn has_errors(&self) -> (r: bool)
        ensures
            r == exists|i: int| 0 <= i < self@.len() && (#[trigger] self@[i]).severity == Severity::Error,
    {
        let mut i: usize = 0;
        while i < self.diags.len()
            invariant
                i <= self.diags@.len(),
                forall|j: int| 0 <= j < i ==> (#[trigger] self@[j]).severity != Severity::Error,
            decreases self.diags@.len() - i,
        {
            assert(self@[i as int] == self.diags@[i as int]@);
            if self.diags[i].severity == Severity::Error {
                return true;
            }
            i += 1;
        }
        false
    }
}

// ---------------------------------------------------------------------------
// From lexical and syntax errors.

/// A diagnostic with nothing but a code, a message and a span.
pub open spec fn plain_error(code: Seq<char>, message: Seq<char>, primary: SourceSpanV) -> DiagnosticV {
    DiagnosticV {
        severity: Severity::Error,
        code,
        message,
        primary,
        labels: Seq::empty(),
        notes: Seq::empty(),
        suggestions: Seq::empty(),
    }
}

fn build_plain(code: &'static str, message: String, primary: SourceSpan) -> (r: Diagnostic)
    ensures
        r@ == plain_error(code@, message@, primary@),
{
    let r = Diagnostic {
        severity: Severity::Error,
        code: DiagCode(code),
        message,
        primary,
        labels: Vec::new(),
        notes: Vec::new(),
        suggestions: Vec::new(),
    };
    assert(r@ =~= plain_error(code@, message@, primary@));
    r
}

pub open spec fn lex_diagnostic(kind: LexErrorKindV, primary: SourceSpanV) -> DiagnosticV {
    match kind {
        LexErrorKindV::UnexpectedChar(c) => plain_error("E0001"@, "unexpected character `"@ + seq![c] + "`"@, primary),
        LexErrorKindV::UnterminatedBlockComment => plain_error("E0002"@, "unterminated block comment"@, primary),
        LexErrorKindV::UnterminatedString => plain_error("E0005"@, "unterminated string literal"@, primary),
        LexErrorKindV::InvalidNumber(s) => plain_error("E0003"@, "invalid number literal: "@ + s, primary),
        LexErrorKindV::InvalidNumSuffix(s) => plain_error(
            "E0004"@,
            "invalid numeric type suffix `"@ + s
                + "`; expected one of i8/i16/i32/i64/u8/u16/u32/u64/isize/usize/f32/f64"@,
            primary,
        ),
    }
}

pub fn from_lex(err: &LexError, file: &str, lm: &LineMap, src: &str) -> (r: Diagnostic)
    ensures
        r@ == lex_diagnostic(err.kind@, span_in(lm@, file@, err.span, src.spec_bytes())),
{
    let primary = lm.span(file, err.span, src);
    match &err.kind {
        LexErrorKind::UnexpectedChar(c) => {
            let mut m: String = "unexpected character `".to_owned();
            m.push(*c);
            m.append("`");
            assert(m@ =~= "unexpected character `"@ + seq![*c] + "`"@);
            build_plain("E0001", m, primary)
        },
        LexErrorKind::UnterminatedBlockComment => build_plain("E0002", "unterminated block comment".to_owned(), primary),
        LexErrorKind::UnterminatedString => build_plain("E0005", "unterminated string literal".to_owned(), primary),
        LexErrorKind::InvalidNumber(s) => {
            let mut m: String = "invalid number literal: ".to_owned();
            m.append(s.as_str());
            build_plain("E0003", m, primary)
        },
        LexErrorKind::InvalidNumSuffix(s) => {
            let mut m: String = "invalid numeric type suffix `".to_owned();
            m.append(s.as_str());
            m.append("`; expected one of i8/i16/i32/i64/u8/u16/u32/u64/isize/usize/f32/f64");
            build_plain("E0004", m, primary)
        },
    }
}

/// The text occurs in the other at position `k`.
pub open spec fn occurs_at(s: Seq<char>, p: Seq<char>, k: int) -> bool {
    0 <= k && chars::starts_with(s.skip(k), p)
}

pub open spec fn occurs_in(s: Seq<char>, p: Seq<char>) -> bool {
    exists|k: int| k <= s.len() && #[trigger] occurs_at(s, p, k)
}

fn contains_text(s: &str, p: &str) -> (r: bool)
    ensures
        r == occurs_in(s@, p@),
{
    let v = chars_of(s);
    let n: usize = v.len();
    let mut k: usize = 0;
    let mut done = false;
    while !done
        invariant
            k <= n,
            n == v@.len(),
            v@ == s@,
            forall|j: int| j < k ==> !#[trigger] occurs_at(s@, p@, j),
            done ==> !occurs_in(s@, p@),
        decreases n - k, (if done { 0nat } else { 1nat }),
    {
        if starts_at(&v, k, p) {
            assert(occurs_at(s@, p@, k as int));
            return true;
        }
        assert(!occurs_at(s@, p@, k as int));
        if k < n {
            k += 1;
        } else {
            done = true;
        }
    }
    false
}

pub open spec fn semicolon_fix(primary: SourceSpanV) -> SuggestionV {
    SuggestionV {
        description: "insert `;`"@,
        span: SourceSpanV { file: primary.file, start: primary.start, end: primary.start },
        replacement: ";"@,
        applicability: Applicability::MaybeIncorrect,
    }
}

pub open spec fn parse_diagnostic(kind: ParseErrorKind, primary: SourceSpanV) -> DiagnosticV {
    match kind {
        ParseErrorKind::Unexpected { found, expected } => {
            let d = plain_error("E0100"@, "expected "@ + expected@ + ", found "@ + found@, primary);
            if occurs_in(expected@, "`;`"@) {
                DiagnosticV { suggestions: seq![semicolon_fix(primary)], ..d }
            } else {
                d
            }
        },
        ParseErrorKind::UnexpectedEof { expected } => plain_error(
            "E0101"@,
            "unexpected end of input, expected "@ + expected@,
            primary,
        ),
        ParseErrorKind::NonChainableComparison => plain_error(
            "E0102"@,
            "comparison operators are non-chainable; use `&&` between comparisons"@,
            primary,
        ),
    }
}

pub fn from_parse(err: &ParseError, file: &str, lm: &LineMap, src: &str) -> (r: Diagnostic)
    ensures
        r@ == parse_diagnostic(err.kind, span_in(lm@, file@, err.span, src.spec_bytes())),
{
    let primary = lm.span(file, err.span, src);
    match &err.kind {
        ParseErrorKind::Unexpected { found, expected } => {
            let mut m: String = "expected ".to_owned();
            m.append(*expected);
            m.append(", found ");
            m.append(found.as_str());
            let fix = Suggestion {
                description: "insert `;`".to_owned(),
                span: SourceSpan { file: primary.file.clone(), start: primary.start, end: primary.start },
                replacement: ";".to_owned(),
                applicability: Applicability::MaybeIncorrect,
            };
            let ghost pv = primary@;
            assert(fix@ == semicolon_fix(pv));
            let mut d = build_plain("E0100", m, primary);
            if contains_text(*expected, "`;`") {
                d.suggestions.push(fix);
                assert(d.suggestions.deep_view() =~= seq![semicolon_fix(pv)]);
            }
            d
        },
        ParseErrorKind::UnexpectedEof { expected } => {
            let mut m: String = "unexpected end of input, expected ".to_owned();
            m.append(*expected);
            build_plain("E0101", m, primary)
        },
        ParseErrorKind::NonChainableComparison => build_plain(
            "E0102",
            "comparison operators are non-chainable; use `&&` between comparisons".to_owned(),
            primary,
        ),
    }
}

} // verus!
