//! Diagnostics: positions, renderings and what each error becomes.

use cplus_core::ast::Span;
use cplus_core::diagnostics::{
    from_lex, from_parse, help_line, Applicability, DiagCode, DiagSink, Diagnostic, Label, LineMap, Position, Severity,
    SourceSpan, Suggestion,
};
use cplus_core::errors::{LexError, LexErrorKind, ParseError, ParseErrorKind};
use cplus_core::lexer::tokenize;

#[test]
fn line_map_basic() {
    let src = "a\nbb\nccc";
    let lm = LineMap::new(src);
    assert_eq!(lm.position(0, src), Position { line: 1, col: 1, byte: 0 });
    assert_eq!(lm.position(1, src), Position { line: 1, col: 2, byte: 1 });
    assert_eq!(lm.position(2, src), Position { line: 2, col: 1, byte: 2 });
    assert_eq!(lm.position(4, src), Position { line: 2, col: 3, byte: 4 });
    assert_eq!(lm.position(5, src), Position { line: 3, col: 1, byte: 5 });
}

#[test]
fn line_map_handles_eof() {
    let src = "abc";
    let lm = LineMap::new(src);
    let p = lm.position(3, src);
    assert_eq!(p.line, 1);
    assert_eq!(p.col, 4);
}

#[test]
fn from_lex_assigns_correct_code() {
    let src = "@";
    let err = tokenize(src).unwrap_err();
    let lm = LineMap::new(src);
    let d = from_lex(&err, "test.cplus", &lm, src);
    assert_eq!(d.code, DiagCode("E0001"));
    assert_eq!(d.severity, Severity::Error);
}

#[test]
fn diag_sink_accumulates() {
    let mut sink = DiagSink::new();
    assert!(!sink.has_errors());
    sink.emit(Diagnostic {
        severity: Severity::Error,
        code: DiagCode("E0001"),
        message: "x".into(),
        primary: SourceSpan {
            file: "a".to_string(),
            start: Position { line: 1, col: 1, byte: 0 },
            end: Position { line: 1, col: 1, byte: 0 },
        },
        labels: Vec::new(), notes: Vec::new(), suggestions: Vec::new(),
    });
    assert!(sink.has_errors());
    assert_eq!(sink.diagnostics().len(), 1);
}

#[test]
fn render_short_format() {
    let d = Diagnostic {
        severity: Severity::Error,
        code: DiagCode("E0001"),
        message: "boom".to_string(),
        primary: SourceSpan {
            file: "foo.cplus".to_string(),
            start: Position { line: 12, col: 5, byte: 0 },
            end: Position { line: 12, col: 5, byte: 0 },
        },
        labels: Vec::new(), notes: Vec::new(), suggestions: Vec::new(),
    };
    assert_eq!(d.render_short(), "foo.cplus:12:5: error[E0001]: boom");
}

fn lex_report(src: &str) -> Diagnostic {
    let err = tokenize(src).unwrap_err();
    from_lex(&err, "t.cplus", &LineMap::new(src), src)
}

#[test]
fn every_lex_error_has_its_code_and_message() {
    let d = lex_report("let x = $;");
    assert_eq!((d.code, d.message.as_str()), (DiagCode("E0001"), "unexpected character `$`"));
    assert_eq!(d.primary.start, Position { line: 1, col: 9, byte: 8 });
    let d = lex_report("a /* open");
    assert_eq!((d.code, d.message.as_str()), (DiagCode("E0002"), "unterminated block comment"));
    let d = lex_report("0x;");
    assert_eq!((d.code, d.message.as_str()), (DiagCode("E0003"), "invalid number literal: 0x"));
    let d = lex_report("12q8");
    assert_eq!(d.code, DiagCode("E0004"));
    assert_eq!(
        d.message,
        "invalid numeric type suffix `q8`; expected one of i8/i16/i32/i64/u8/u16/u32/u64/isize/usize/f32/f64"
    );
    let d = lex_report("\"open\n\"");
    assert_eq!((d.code, d.message.as_str()), (DiagCode("E0005"), "unterminated string literal"));
}

#[test]
fn an_unexpected_character_outside_ascii_is_shown() {
    let d = lex_report("é");
    assert_eq!(d.message, "unexpected character `é`");
    assert_eq!(d.primary.end, Position { line: 1, col: 2, byte: 2 });
}

fn parse_report(kind: ParseErrorKind) -> Diagnostic {
    let src = "ab\ncd";
    let err = ParseError { kind, span: Span { start: 3, end: 5 } };
    from_parse(&err, "t.cplus", &LineMap::new(src), src)
}

#[test]
fn every_parse_error_has_its_code_and_message() {
    let d = parse_report(ParseErrorKind::Unexpected { found: "`}`".to_string(), expected: "a type" });
    assert_eq!((d.code, d.message.as_str()), (DiagCode("E0100"), "expected a type, found `}`"));
    assert!(d.suggestions.is_empty());
    assert_eq!(d.primary.start, Position { line: 2, col: 1, byte: 3 });
    assert_eq!(d.primary.end, Position { line: 2, col: 3, byte: 5 });
    let d = parse_report(ParseErrorKind::Unexpected { found: "`0`".to_string(), expected: "`;` after this" });
    assert_eq!(d.suggestions.len(), 1);
    assert_eq!(d.suggestions[0].span.end, Position { line: 2, col: 1, byte: 3 });
    assert_eq!(d.suggestions[0].applicability, Applicability::MaybeIncorrect);
    let d = parse_report(ParseErrorKind::UnexpectedEof { expected: "`}`" });
    assert_eq!((d.code, d.message.as_str()), (DiagCode("E0101"), "unexpected end of input, expected `}`"));
    let d = parse_report(ParseErrorKind::NonChainableComparison);
    assert_eq!(d.code, DiagCode("E0102"));
    assert_eq!(d.message, "comparison operators are non-chainable; use `&&` between comparisons");
}

#[test]
fn columns_count_characters_and_lines_count_feeds() {
    let src = "é\nxé€z";
    let lm = LineMap::new(src);
    assert_eq!(lm.position(2, src), Position { line: 1, col: 2, byte: 2 });
    assert_eq!(lm.position(3, src), Position { line: 2, col: 1, byte: 3 });
    assert_eq!(lm.position(4, src), Position { line: 2, col: 2, byte: 4 });
    assert_eq!(lm.position(6, src), Position { line: 2, col: 3, byte: 6 });
    assert_eq!(lm.position(9, src), Position { line: 2, col: 4, byte: 9 });
    assert_eq!(lm.position(10, src), Position { line: 2, col: 5, byte: 10 });
}

#[test]
fn later_characters_have_later_positions() {
    let src = "a\n\nbé\nc";
    let lm = LineMap::new(src);
    let mut last = (0, 0);
    for (byte, _) in src.char_indices() {
        let p = lm.position(byte as u32, src);
        assert!((p.line, p.col) > last);
        last = (p.line, p.col);
    }
}

#[test]
fn the_human_form_shows_lines_labels_notes_and_quoted_fixes() {
    let src = "let a = \"x\";\nlet b = a;";
    let lm = LineMap::new(src);
    let d = Diagnostic {
        severity: Severity::Warning,
        code: DiagCode("W1"),
        message: "look here".to_string(),
        primary: lm.span("f.cplus", Span { start: 17, end: 18 }, src),
        labels: vec![Label { span: lm.span("f.cplus", Span { start: 4, end: 5 }, src), message: "first".to_string() }],
        notes: vec!["a note".to_string()],
        suggestions: vec![Suggestion {
            description: "use another".to_string(),
            span: lm.span("f.cplus", Span { start: 8, end: 11 }, src),
            replacement: "\"y\"\n".to_string(),
            applicability: Applicability::HasPlaceholders,
        }],
    };
    assert_eq!(
        d.render_human(src),
        "f.cplus:2:5: warning[W1]: look here\n  | let b = a;\n  f.cplus:1:5: note: first\n  | let a = \"x\";\n  = note: a note\n  = help: use another (replace with \"\\\"y\\\"\\n\")"
    );
}

#[test]
fn a_line_that_the_source_lacks_is_not_shown() {
    let far = Position { line: 9, col: 1, byte: 0 };
    let d = Diagnostic {
        severity: Severity::Note,
        code: DiagCode("N1"),
        message: "m".to_string(),
        primary: SourceSpan { file: "f".to_string(), start: far, end: far },
        labels: Vec::new(),
        notes: Vec::new(),
        suggestions: Vec::new(),
    };
    assert_eq!(d.render_human("one line"), "f:9:1: note[N1]: m");
}

#[test]
fn a_suggestion_is_offered_with_the_quoted_text_it_is_given() {
    assert_eq!(help_line("drop it", "\"\""), "\n  = help: drop it (replace with \"\")");
}

#[test]
fn only_errors_count_as_errors() {
    let at = Position { line: 1, col: 1, byte: 0 };
    let mut sink = DiagSink::default();
    let note = |severity: Severity| Diagnostic {
        severity,
        code: DiagCode("X"),
        message: String::new(),
        primary: SourceSpan { file: String::new(), start: at, end: at },
        labels: Vec::new(),
        notes: Vec::new(),
        suggestions: Vec::new(),
    };
    sink.emit(note(Severity::Warning));
    sink.emit(note(Severity::Note));
    assert!(!sink.has_errors());
    sink.emit(note(Severity::Error));
    assert!(sink.has_errors());
    let all = sink.into_vec();
    assert_eq!(all.len(), 3);
    assert_eq!(all[2].severity, Severity::Error);
}

#[test]
fn an_error_value_can_be_built_by_hand() {
    let err = LexError { kind: LexErrorKind::UnexpectedChar('~'), span: Span { start: 0, end: 1 } };
    let d = from_lex(&err, "h.cplus", &LineMap::new("~"), "~");
    assert_eq!(d.render_short(), "h.cplus:1:1: error[E0001]: unexpected character `~`");
}
