//! The formatter on small sources.

use cplus_core::fmt::{format_source, FormatError};
use cplus_core::lexer::{tokenize, tokenize_with_trivia, TokenKind};

fn fmt(src: &str) -> String {
    format_source(src).expect("format")
}

#[test]
fn idempotent_on_empty() {
    assert_eq!(fmt(""), "\n");
}

#[test]
fn idempotent_simple_function() {
    let src = "fn main() -> i32 {\n    return 0;\n}\n";
    let once = fmt(src);
    let twice = fmt(&once);
    assert_eq!(once, twice, "format must be idempotent");
}

#[test]
fn normalizes_operator_spacing() {
    let out = fmt("fn f() -> i32 { return 1+2 ; }\n");
    assert!(out.contains("return 1 + 2;"), "got: {out}");
}

#[test]
fn bitwise_or_is_spaced() {
    let out = fmt("fn f(a: u64, b: u64) -> u64 { return a|b; }\n");
    assert!(out.contains("return a | b;"), "inline bitwise-or:\n{out}");
    let wrapped = fmt("fn f() -> u64 {\n    let x: u64 = mask_a\n        | mask_b\n        | mask_c;\n    return x;\n}\n");
    assert!(wrapped.contains("| mask_b") && wrapped.contains("| mask_c"), "wrapped bitwise-or keeps space:\n{wrapped}");
    assert!(!wrapped.contains("|mask"), "no glued pipe:\n{wrapped}");
}

#[test]
fn complement_pattern_pipes_stay_tight() {
    let src = "fn f() -> i32 {\n    guard let R::Ok(v) = run() else |R::Err(e)| {\n        return e;\n    }\n    return v;\n}\n";
    let out = fmt(src);
    assert!(out.contains("else |R::Err(e)| {"), "complement pattern stays tight:\n{out}");
}

#[test]
fn preserves_line_comments() {
    let src = "// header\nfn main() -> i32 {\n    return 0; // trailing\n}\n";
    let out = fmt(src);
    assert!(out.contains("// header"), "got: {out}");
    assert!(out.contains("// trailing"), "got: {out}");
}

#[test]
fn preserves_inline_struct_literal_braces() {
    let src = "struct Point { x: i32, y: i32 }\nfn main() -> i32 { return 0; }\n";
    let out = fmt(src);
    assert!(
        out.contains("struct Point { x: i32, y: i32 }"),
        "got: {out}"
    );
}

#[test]
fn tight_path_separator() {
    let out =
        fmt("enum Color { Red, Blue }\nfn f() -> i32 { let c = Color::Red; return 0; }\n");
    assert!(out.contains("Color::Red"), "got: {out}");
    assert!(!out.contains("Color :: Red"), "got: {out}");
}

#[test]
fn builder_block_at_marker_tight_and_idempotent() {
    let src = "fn f() -> i32 {\n    let v = @view {\n        text(\"a\")\n            .font = bigger\n    };\n    return 0;\n}\n";
    let out = fmt(src);
    assert!(out.contains("@view {"), "got: {out}");
    assert!(!out.contains("@ view"), "got: {out}");
    assert_eq!(
        fmt(&out),
        out,
        "format must be idempotent on builder blocks"
    );
}

#[test]
fn builder_block_containers_and_flow_idempotent() {
    let src = "fn f() -> i32 {\n    let v = @view {\n        vstack {\n            text(1)\n            if flag {\n                text(2)\n            }\n            for x in xs {\n                row(x)\n            }\n        }\n    };\n    return 0;\n}\n";
    let out = fmt(src);
    assert_eq!(
        fmt(&out),
        out,
        "format must be idempotent on builder blocks with control flow"
    );
}

#[test]
fn collapses_runs_of_blank_lines() {
    let src = "fn f() -> i32 {\n\n\n\n    return 0;\n}\n";
    let out = fmt(src);
    assert!(out.contains("\n\n    return"), "got: {out:?}");
    assert!(!out.contains("\n\n\n"), "got: {out:?}");
}

#[test]
fn ensures_trailing_newline() {
    let out = fmt("fn f() -> i32 { return 0; }");
    assert!(out.ends_with('\n'));
}


#[test]
fn a_source_is_put_in_canonical_form() {
    assert_eq!(
        fmt("fn f( a:i32 ,b : *u8)->i32{\n\treturn *b+a ;}"),
        "fn f(a: i32, b: *u8) -> i32 {\n    return *b + a; }\n"
    );
}

#[test]
fn closing_lines_step_out_and_continuations_stay() {
    assert_eq!(
        fmt("fn f() {\nlet x = [\n1,\n2\n];\nlet y = a\n\t + b;\n}"),
        "fn f() {\n    let x = [\n1,\n        2\n    ];\n    let y = a\n     + b;\n}\n"
    );
}

#[test]
fn comments_keep_their_gaps() {
    assert_eq!(fmt("a;   // x\nb;/* y */c;\t// z  "), "a;   // x\nb; /* y */c;\t// z\n");
}

#[test]
fn line_breaks_are_kept_up_to_one_blank_line() {
    assert_eq!(fmt("a;\n\n\n\nb;\nc;\n\n\n"), "a;\n\nb;\nc;\n");
}

#[test]
fn formatting_twice_is_formatting_once() {
    for src in [
        "",
        "   \n\n",
        "x . y :: z [ 1 ] ( 2 )",
        "let r = 0 .. n ; // end  ",
        "m { A | B => { c ! ( d ) } , _ => - 1 }",
        "else | P ( x ) | { y }",
        "f ( take a , ref b ) ;\n\n\n\n#[ keeps ( this ) ]\n@ view".trim_end_matches("@ view"),
    ] {
        let once = fmt(src);
        assert_eq!(fmt(&once), once, "{src:?}");
    }
}

fn token_texts(src: &str) -> Vec<(TokenKind, String)> {
    let chars: Vec<char> = src.chars().collect();
    tokenize_with_trivia(src)
        .expect("lex")
        .iter()
        .map(|t| (t.kind, chars[t.start..t.end].iter().collect::<String>()))
        .collect()
}

#[test]
fn formatting_keeps_every_token_and_its_text() {
    let src = "fn  g ( s : str ) { /* c  d */ let q = 0xFF_u8 +% 1.5e-3 ; \"a  b\" ; c\"z\" ;}\n// é  \nx";
    assert_eq!(token_texts(&fmt(src)), token_texts(src));
}

#[test]
fn operators_that_meet_can_make_another() {
    assert_eq!(fmt("a ! = b"), "a!= b\n");
    assert_eq!(fmt("a!= b"), "a != b\n");
}

#[test]
fn a_source_that_cannot_be_split_is_refused() {
    let src = "let s = \"open";
    let err = format_source(src).unwrap_err();
    let d = err.to_diagnostic("t.cplus", src);
    assert_eq!(d.render_short(), "t.cplus:1:9: error[E0005]: unterminated string literal");
    assert!(matches!(err, FormatError::Lex(_)));
}

#[test]
fn tokens_carry_byte_spans_and_character_positions() {
    let toks = tokenize("é x").unwrap_err();
    assert_eq!((toks.span.start, toks.span.end), (0, 2));
    let toks = tokenize("\"é\" x").expect("lex");
    assert_eq!((toks[1].span.start, toks[1].span.end, toks[1].start, toks[1].end), (5, 6, 4, 5));
    assert_eq!(toks[2].kind, TokenKind::Eof);
}

#[test]
fn a_comment_behind_an_open_bracket_does_not_hide_the_line_break() {
    let want = "fn f() { // note\n    return 0;\n}\n";
    assert_eq!(format_source("fn f() { // note\nreturn 0;\n}\n").expect("format"), want);
    assert_eq!(format_source(want).expect("format"), want);
    let list = "let a = [ /* one */ // two\n    1,\n    2\n];\n";
    assert_eq!(format_source(list).expect("format"), list);
    let inline = "fn f() { /* note */ }\n";
    assert_eq!(format_source(inline).expect("format"), inline);
    for open in ["{ // only", "{\n// only", "{ /* a */\n/* b */"] {
        let once = format_source(open).expect("format");
        assert_eq!(format_source(&once).expect("format"), once);
    }
}

#[test]
fn a_program_keeps_its_tokens_and_is_formatted_for_good() {
    let src = "// a\nstruct P[T]{x:*T,y:i32}\nimpl P[T]:Show{fn f(ref this,n:u64)->i32{for i in 0..=10{this.x=*p;}\n\n\n\n/* b */ if !done(n)&&t.pair.x!=1.5{return -1;} // c\nmatch n{E::V(q)=>q|2,_=>#size_of::[*u8]()}\nlet s=\"x ${n}\";}}\n";
    let once = fmt(src);
    assert_eq!(fmt(&once), once);
    let a = tokenize_with_trivia(src).expect("lex");
    let b = tokenize_with_trivia(&once).expect("lex");
    assert_eq!(a.len(), b.len());
    for (x, y) in a.iter().zip(b.iter()) {
        assert_eq!(x.kind, y.kind);
        let left: String = src.chars().skip(x.start).take(x.end - x.start).collect();
        let right: String = once.chars().skip(y.start).take(y.end - y.start).collect();
        assert_eq!(left, right);
    }
}

#[test]
fn operators_that_only_white_space_parts_are_joined() {
    assert_eq!(fmt("a ! = b"), "a!= b\n");
    assert_eq!(fmt(&fmt("a ! = b")), "a != b\n");
}
