//! The canonical formatter: keeps the line breaks of a source, and settles the indentation and
//! the spacing inside each line.
use vstd::prelude::*;
use vstd::string::*;
use crate::chars;
use crate::diagnostics;
use crate::lexer;
use crate::chars::{append_chars, append_text, chars_of, string_of};
use crate::diagnostics::{Diagnostic, LineMap, from_lex};
use crate::errors::{LexError, LexErrorV};
use crate::lexer::{Token, TokenKind, tokenize_with_trivia};

verus! {

/// One level of indentation.
pub const INDENT: &'static str = "    ";

#[derive(Debug, Clone, Copy, PartialEq, Eq, Structural)]
pub enum BracketKind {
    Paren,
    Bracket,
    Brace,
}

/// An open bracket; a line break follows it if it is multi-line.
#[derive(Debug, Clone, Copy, PartialEq, Eq, Structural)]
pub struct BracketCtx {
    pub open: BracketKind,
    pub multi_line: bool,
}

// ---------------------------------------------------------------------------
// Spacing between two tokens of a line.

fn is_comment_kind(k: TokenKind) -> (r: bool)
    ensures
        r == lexer::is_comment(k),
{
    k == TokenKind::LineComment || k == TokenKind::BlockComment
}

/// Operators with a space on either side.
pub open spec fn is_operator(t: TokenKind) -> bool {
    t == TokenKind::Plus || t == TokenKind::Minus || t == TokenKind::Star || t == TokenKind::Slash
        || t == TokenKind::Percent || t == TokenKind::PlusPercent || t == TokenKind::MinusPercent
        || t == TokenKind::StarPercent || t == TokenKind::EqEq || t == TokenKind::BangEq || t == TokenKind::Lt
        || t == TokenKind::Le || t == TokenKind::Gt || t == TokenKind::Ge || t == TokenKind::AmpAmp
        || t == TokenKind::PipePipe || t == TokenKind::Amp || t == TokenKind::Pipe || t == TokenKind::Caret
        || t == TokenKind::Shl || t == TokenKind::Shr || t == TokenKind::Eq || t == TokenKind::PlusEq
        || t == TokenKind::MinusEq || t == TokenKind::StarEq || t == TokenKind::SlashEq || t == TokenKind::PercentEq
        || t == TokenKind::AmpEq || t == TokenKind::PipeEq || t == TokenKind::CaretEq || t == TokenKind::ShlEq
        || t == TokenKind::ShrEq || t == TokenKind::Arrow || t == TokenKind::FatArrow || t == TokenKind::As
        || t == TokenKind::In
}

fn is_binary_op(t: TokenKind) -> (r: bool)
    ensures
        r == is_operator(t),
{
    t == TokenKind::Plus || t == TokenKind::Minus || t == TokenKind::Star || t == TokenKind::Slash
        || t == TokenKind::Percent || t == TokenKind::PlusPercent || t == TokenKind::MinusPercent
        || t == TokenKind::StarPercent || t == TokenKind::EqEq || t == TokenKind::BangEq || t == TokenKind::Lt
        || t == TokenKind::Le || t == TokenKind::Gt || t == TokenKind::Ge || t == TokenKind::AmpAmp
        || t == TokenKind::PipePipe || t == TokenKind::Amp || t == TokenKind::Pipe || t == TokenKind::Caret
        || t == TokenKind::Shl || t == TokenKind::Shr || t == TokenKind::Eq || t == TokenKind::PlusEq
        || t == TokenKind::MinusEq || t == TokenKind::StarEq || t == TokenKind::SlashEq || t == TokenKind::PercentEq
        || t == TokenKind::AmpEq || t == TokenKind::PipeEq || t == TokenKind::CaretEq || t == TokenKind::ShlEq
        || t == TokenKind::ShrEq || t == TokenKind::Arrow || t == TokenKind::FatArrow || t == TokenKind::As
        || t == TokenKind::In
}

/// A `*` after this token is part of a pointer type.
pub open spec fn in_type_position(before: Option<TokenKind>) -> bool {
    before == Some(TokenKind::Colon) || before == Some(TokenKind::Arrow) || before == Some(TokenKind::Star)
        || before == Some(TokenKind::As) || before == Some(TokenKind::LBracket)
}

fn is_type_position(before: Option<TokenKind>) -> (r: bool)
    ensures
        r == in_type_position(before),
{
    before == Some(TokenKind::Colon) || before == Some(TokenKind::Arrow) || before == Some(TokenKind::Star)
        || before == Some(TokenKind::As) || before == Some(TokenKind::LBracket)
}

/// A `*` after this token is a dereference.
pub open spec fn unary_position(before: Option<TokenKind>) -> bool {
    before == None::<TokenKind> || before == Some(TokenKind::LParen) || before == Some(TokenKind::LBrace)
        || before == Some(TokenKind::Comma) || before == Some(TokenKind::Semi) || before == Some(TokenKind::Eq)
        || before == Some(TokenKind::EqEq) || before == Some(TokenKind::BangEq) || before == Some(TokenKind::Lt)
        || before == Some(TokenKind::Le) || before == Some(TokenKind::Gt) || before == Some(TokenKind::Ge)
        || before == Some(TokenKind::Plus) || before == Some(TokenKind::Minus) || before == Some(TokenKind::Slash)
        || before == Some(TokenKind::Percent) || before == Some(TokenKind::AmpAmp)
        || before == Some(TokenKind::PipePipe) || before == Some(TokenKind::Return) || before == Some(TokenKind::If)
        || before == Some(TokenKind::Else) || before == Some(TokenKind::While) || before == Some(TokenKind::FatArrow)
}

fn is_unary_position(before: Option<TokenKind>) -> (r: bool)
    ensures
        r == unary_position(before),
{
    before == None::<TokenKind> || before == Some(TokenKind::LParen) || before == Some(TokenKind::LBrace)
        || before == Some(TokenKind::Comma) || before == Some(TokenKind::Semi) || before == Some(TokenKind::Eq)
        || before == Some(TokenKind::EqEq) || before == Some(TokenKind::BangEq) || before == Some(TokenKind::Lt)
        || before == Some(TokenKind::Le) || before == Some(TokenKind::Gt) || before == Some(TokenKind::Ge)
        || before == Some(TokenKind::Plus) || before == Some(TokenKind::Minus) || before == Some(TokenKind::Slash)
        || before == Some(TokenKind::Percent) || before == Some(TokenKind::AmpAmp)
        || before == Some(TokenKind::PipePipe) || before == Some(TokenKind::Return) || before == Some(TokenKind::If)
        || before == Some(TokenKind::Else) || before == Some(TokenKind::While) || before == Some(TokenKind::FatArrow)
}

/// A bracket after this token calls or indexes it.
pub open spec fn ends_call_target(t: TokenKind) -> bool {
    t == TokenKind::Ident || t == TokenKind::SelfLower || t == TokenKind::SelfUpper || t == TokenKind::RParen
        || t == TokenKind::RBracket || t == TokenKind::RBrace || t == TokenKind::Int || t == TokenKind::Float
}

fn is_call_target(t: TokenKind) -> (r: bool)
    ensures
        r == ends_call_target(t),
{
    t == TokenKind::Ident || t == TokenKind::SelfLower || t == TokenKind::SelfUpper || t == TokenKind::RParen
        || t == TokenKind::RBracket || t == TokenKind::RBrace || t == TokenKind::Int || t == TokenKind::Float
}

/// Whether a space goes between two tokens of a line.
pub open spec fn spaced(prev: TokenKind, curr: TokenKind) -> bool {
    if prev == TokenKind::LParen || prev == TokenKind::LBracket {
        false
    } else if curr == TokenKind::RParen || curr == TokenKind::RBracket || curr == TokenKind::Comma || curr == TokenKind::Semi {
        false
    } else if prev == TokenKind::LBrace {
        curr != TokenKind::RBrace
    } else if curr == TokenKind::RBrace {
        true
    } else if prev == TokenKind::ColonColon || prev == TokenKind::Dot || curr == TokenKind::ColonColon || curr == TokenKind::Dot {
        false
    } else if prev == TokenKind::Pound || prev == TokenKind::At {
        false
    } else if prev == TokenKind::DotDot || prev == TokenKind::DotDotEq || curr == TokenKind::DotDot || curr == TokenKind::DotDotEq {
        false
    } else if curr == TokenKind::Colon {
        false
    } else if prev == TokenKind::Colon {
        true
    } else if (curr == TokenKind::LParen || curr == TokenKind::LBracket) && ends_call_target(prev) {
        false
    } else if prev == TokenKind::Ident && curr == TokenKind::Bang {
        false
    } else if prev == TokenKind::Comma || prev == TokenKind::Semi {
        true
    } else if prev == TokenKind::Bang || prev == TokenKind::Tilde {
        false
    } else if is_operator(prev) || is_operator(curr) {
        true
    } else {
        !lexer::is_comment(prev) && !lexer::is_comment(curr)
    }
}

fn needs_space_between(prev: TokenKind, curr: TokenKind) -> (r: bool)
    ensures
        r == spaced(prev, curr),
{
    if prev == TokenKind::LParen || prev == TokenKind::LBracket {
        false
    } else if curr == TokenKind::RParen || curr == TokenKind::RBracket || curr == TokenKind::Comma || curr == TokenKind::Semi {
        false
    } else if prev == TokenKind::LBrace {
        curr != TokenKind::RBrace
    } else if curr == TokenKind::RBrace {
        true
    } else if prev == TokenKind::ColonColon || prev == TokenKind::Dot || curr == TokenKind::ColonColon || curr == TokenKind::Dot {
        false
    } else if prev == TokenKind::Pound || prev == TokenKind::At {
        false
    } else if prev == TokenKind::DotDot || prev == TokenKind::DotDotEq || curr == TokenKind::DotDot || curr == TokenKind::DotDotEq {
        false
    } else if curr == TokenKind::Colon {
        false
    } else if prev == TokenKind::Colon {
        true
    } else if (curr == TokenKind::LParen || curr == TokenKind::LBracket) && is_call_target(prev) {
        false
    } else if prev == TokenKind::Ident && curr == TokenKind::Bang {
        false
    } else if prev == TokenKind::Comma || prev == TokenKind::Semi {
        true
    } else if prev == TokenKind::Bang || prev == TokenKind::Tilde {
        false
    } else if is_binary_op(prev) || is_binary_op(curr) {
        true
    } else {
        !is_comment_kind(prev) && !is_comment_kind(curr)
    }
}

/// The same, knowing also the token before the two: a `*` can belong to a type or dereference.
pub open spec fn spaced_in_context(before: Option<TokenKind>, prev: TokenKind, curr: TokenKind) -> bool {
    if curr == TokenKind::Star && (prev == TokenKind::Colon || prev == TokenKind::Arrow) {
        true
    } else if prev == TokenKind::Star && (in_type_position(before) || unary_position(before)) {
        false
    } else if prev == TokenKind::Fn && curr == TokenKind::LParen {
        false
    } else {
        spaced(prev, curr)
    }
}

fn needs_space_between_ctx(before: Option<TokenKind>, prev: TokenKind, curr: TokenKind) -> (r: bool)
    ensures
        r == spaced_in_context(before, prev, curr),
{
    if curr == TokenKind::Star && (prev == TokenKind::Colon || prev == TokenKind::Arrow) {
        true
    } else if prev == TokenKind::Star && (is_type_position(before) || is_unary_position(before)) {
        false
    } else if prev == TokenKind::Fn && curr == TokenKind::LParen {
        false
    } else {
        needs_space_between(prev, curr)
    }
}

/// What a `|` stands for.
#[derive(Debug, Clone, Copy, PartialEq, Eq, Structural)]
pub enum PipeRole {
    /// Opens the pattern of an `else |..|`.
    PatternOpen,
    /// Closes the pattern of an `else |..|`.
    PatternClose,
    Bitwise,
}

/// The last token before `i` that is no comment.
pub open spec fn code_before(ts: Seq<Token>, i: nat) -> Option<TokenKind>
    decreases i,
{
    if i == 0 || i > ts.len() {
        None
    } else if lexer::is_comment(ts[i - 1].kind) {
        code_before(ts, (i - 1) as nat)
    } else {
        Some(ts[i - 1].kind)
    }
}

/// The first token from `i` on that is no comment.
pub open spec fn code_from(ts: Seq<Token>, i: nat) -> Option<TokenKind>
    decreases ts.len() - i,
{
    if i >= ts.len() {
        None
    } else if lexer::is_comment(ts[i as int].kind) {
        code_from(ts, i + 1)
    } else {
        Some(ts[i as int].kind)
    }
}

pub open spec fn role_of_pipe(ts: Seq<Token>, i: nat) -> PipeRole {
    if code_before(ts, i) == Some(TokenKind::Else) {
        PipeRole::PatternOpen
    } else if code_from(ts, i + 1) == Some(TokenKind::LBrace) {
        PipeRole::PatternClose
    } else {
        PipeRole::Bitwise
    }
}

fn pipe_role(ts: &Vec<Token>, idx: usize) -> (r: PipeRole)
    requires
        idx < ts@.len(),
    ensures
        r == role_of_pipe(ts@, idx as nat),
{
    let mut i: usize = idx;
    while i > 0 && is_comment_kind(ts[i - 1].kind)
        invariant
            i <= idx < ts@.len(),
            code_before(ts@, i as nat) == code_before(ts@, idx as nat),
        decreases i,
    {
        i -= 1;
    }
    if i > 0 && ts[i - 1].kind == TokenKind::Else {
        return PipeRole::PatternOpen;
    }
    let n: usize = ts.len();
    let mut j: usize = idx + 1;
    while j < n && is_comment_kind(ts[j].kind)
        invariant
            idx < j <= n == ts@.len(),
            code_from(ts@, j as nat) == code_from(ts@, idx as nat + 1),
        decreases ts@.len() - j,
    {
        j += 1;
    }
    if j < n && ts[j].kind == TokenKind::LBrace {
        PipeRole::PatternClose
    } else {
        PipeRole::Bitwise
    }
}

// ---------------------------------------------------------------------------
// The printer.

#[verifier::ext_equal]
pub struct PrinterV {
    pub out: Seq<char>,
    pub brackets: Seq<BracketCtx>,
    /// The position past the last printed token.
    pub prev_end: nat,
    /// The last printed token, and the one before it.
    pub prev: Option<TokenKind>,
    pub prev_prev: Option<TokenKind>,
}

pub open spec fn new_printer() -> PrinterV {
    PrinterV { out: Seq::empty(), brackets: Seq::empty(), prev_end: 0, prev: None, prev_prev: None }
}

/// The depth of the indentation: the number of open multi-line brackets.
pub open spec fn depth(bs: Seq<BracketCtx>) -> nat
    decreases bs.len(),
{
    if bs.len() == 0 {
        0
    } else {
        depth(bs.drop_last()) + (if bs.last().multi_line {
            1nat
        } else {
            0nat
        })
    }
}

pub open spec fn repeated(out: Seq<char>, t: Seq<char>, n: nat) -> Seq<char>
    decreases n,
{
    if n == 0 {
        out
    } else {
        repeated(out + t, t, (n - 1) as nat)
    }
}

pub open spec fn is_open(bs: Seq<BracketCtx>, k: BracketKind) -> bool {
    bs.len() > 0 && bs.last().open == k && bs.last().multi_line
}

/// The token closes the innermost bracket, which is multi-line.
pub open spec fn closes(bs: Seq<BracketCtx>, k: TokenKind) -> bool {
    ||| k == TokenKind::RBrace && is_open(bs, BracketKind::Brace)
    ||| k == TokenKind::RParen && is_open(bs, BracketKind::Paren)
    ||| k == TokenKind::RBracket && is_open(bs, BracketKind::Bracket)
}

/// How deep a token that starts a line is indented.
pub open spec fn indent_of(bs: Seq<BracketCtx>, k: TokenKind) -> nat {
    if closes(bs, k) && depth(bs) > 0 {
        (depth(bs) - 1) as nat
    } else {
        depth(bs)
    }
}

/// A token at the start of a line starts a statement, an element or a closing line, rather
/// than continuing an expression.
pub open spec fn starts_afresh(prev: Option<TokenKind>, k: TokenKind) -> bool {
    k == TokenKind::RBrace || k == TokenKind::RParen || k == TokenKind::RBracket || match prev {
        None => true,
        Some(p) => p == TokenKind::Semi || p == TokenKind::RBrace || p == TokenKind::LBrace || p == TokenKind::Comma || p
            == TokenKind::FatArrow || lexer::is_comment(p),
    }
}

/// The blanks from `i` on, with an indentation for each tab.
pub open spec fn kept_indent(out: Seq<char>, s: Seq<char>, i: int, to: int) -> Seq<char>
    decreases to - i,
{
    if i >= to {
        out
    } else if s[i] == ' ' {
        kept_indent(out.push(' '), s, i + 1, to)
    } else if s[i] == '\t' {
        kept_indent(out + INDENT@, s, i + 1, to)
    } else {
        out
    }
}

/// The spaces and tabs between two positions.
pub open spec fn kept_gap(out: Seq<char>, s: Seq<char>, i: int, to: int) -> Seq<char>
    decreases to - i,
{
    if i >= to {
        out
    } else if s[i] == ' ' || s[i] == '\t' {
        kept_gap(out.push(s[i]), s, i + 1, to)
    } else {
        kept_gap(out, s, i + 1, to)
    }
}

pub open spec fn ends_blank(out: Seq<char>) -> bool {
    out.len() > 0 && (out.last() == ' ' || out.last() == '\t')
}

/// A space, unless the text ends with a blank.
pub open spec fn parted(out: Seq<char>) -> Seq<char> {
    if ends_blank(out) {
        out
    } else {
        out.push(' ')
    }
}

/// Whether a space goes before token `i`, which is on the line of the one before it.
pub open spec fn space_before(p: PrinterV, ts: Seq<Token>, i: nat, prev: TokenKind) -> bool {
    let k = ts[i as int].kind;
    if k == TokenKind::Pipe && role_of_pipe(ts, i) == PipeRole::PatternClose {
        false
    } else if prev == TokenKind::Pipe && role_of_pipe(ts, (i - 1) as nat) == PipeRole::PatternOpen {
        false
    } else {
        spaced_in_context(p.prev_prev, prev, k)
    }
}

/// The output with the white space before token `i`.
#[verifier::opaque]
pub open spec fn with_gap(p: PrinterV, s: Seq<char>, ts: Seq<Token>, i: nat) -> Seq<char> {
    let t = ts[i as int];
    let n = chars::feeds(s, p.prev_end as int, t.start as int);
    match p.prev {
        None => p.out,
        Some(prev) => if n > 0 {
            let out = repeated(p.out, "\n"@, if n < 2 { n } else { 2 });
            if starts_afresh(p.prev, t.kind) {
                repeated(out, INDENT@, indent_of(p.brackets, t.kind))
            } else {
                kept_indent(out, s, chars::after_last(s, '\n', t.start as nat) as int, t.start as int)
            }
        } else if lexer::is_comment(t.kind) {
            parted(kept_gap(p.out, s, p.prev_end as int, t.start as int))
        } else if space_before(p, ts, i, prev) {
            p.out.push(' ')
        } else {
            p.out
        },
    }
}

/// The position of the first token from `i` on that is no comment.
pub open spec fn code_place(ts: Seq<Token>, i: nat) -> nat
    decreases ts.len() - i,
{
    if i < ts.len() && lexer::is_comment(ts[i as int].kind) {
        code_place(ts, i + 1)
    } else {
        i
    }
}

/// A line break stands between the bracket at `i` and the next token that is no comment, or,
/// where only comments follow, the last of them.
#[verifier::opaque]
pub open spec fn breaks_after(s: Seq<char>, ts: Seq<Token>, i: nat) -> bool {
    let j = code_place(ts, i + 1);
    let next = if j < ts.len() && ts[j as int].kind != TokenKind::Eof {
        j as int
    } else {
        j - 1
    };
    chars::feeds(s, ts[i as int].end as int, ts[next].start as int) > 0
}

pub open spec fn opened_by(k: TokenKind) -> Option<BracketKind> {
    if k == TokenKind::LBrace {
        Some(BracketKind::Brace)
    } else if k == TokenKind::LParen {
        Some(BracketKind::Paren)
    } else if k == TokenKind::LBracket {
        Some(BracketKind::Bracket)
    } else {
        None
    }
}

/// The open brackets after token `i`.
pub open spec fn brackets_after(bs: Seq<BracketCtx>, s: Seq<char>, ts: Seq<Token>, i: nat) -> Seq<BracketCtx> {
    let k = ts[i as int].kind;
    match opened_by(k) {
        Some(open) => bs.push(BracketCtx { open, multi_line: breaks_after(s, ts, i) }),
        None => if (k == TokenKind::RBrace || k == TokenKind::RParen || k == TokenKind::RBracket) && bs.len() > 0 {
            bs.drop_last()
        } else {
            bs
        },
    }
}

/// Prints token `i`.
pub open spec fn emitted(p: PrinterV, s: Seq<char>, ts: Seq<Token>, i: nat) -> PrinterV {
    let t = ts[i as int];
    PrinterV {
        out: with_gap(p, s, ts, i) + s.subrange(t.start as int, t.end as int),
        brackets: brackets_after(p.brackets, s, ts, i),
        prev_end: t.end as nat,
        prev: Some(t.kind),
        prev_prev: p.prev,
    }
}

/// Prints the tokens from `i` up to the end token.
pub open spec fn printed(p: PrinterV, s: Seq<char>, ts: Seq<Token>, i: nat) -> PrinterV
    decreases ts.len() - i,
{
    if i >= ts.len() || ts[i as int].kind == TokenKind::Eof {
        p
    } else {
        printed(emitted(p, s, ts, i), s, ts, i + 1)
    }
}

pub open spec fn without_end_blanks(out: Seq<char>) -> Seq<char>
    decreases out.len(),
{
    if ends_blank(out) {
        without_end_blanks(out.drop_last())
    } else {
        out
    }
}

pub open spec fn with_feed(out: Seq<char>) -> Seq<char> {
    if out.len() > 0 && out.last() == '\n' {
        out
    } else {
        out.push('\n')
    }
}

pub open spec fn with_one_feed(out: Seq<char>) -> Seq<char>
    decreases out.len(),
{
    if out.len() >= 2 && out[out.len() - 1] == '\n' && out[out.len() - 2] == '\n' {
        with_one_feed(out.drop_last())
    } else {
        out
    }
}

/// The text ends with exactly one line feed, and no blanks before it.
pub open spec fn finished(out: Seq<char>) -> Seq<char> {
    with_one_feed(with_feed(without_end_blanks(out)))
}

/// The canonical form of a source.
pub open spec fn formatted(s: Seq<char>) -> Result<Seq<char>, LexErrorV> {
    match lexer::tokens(s, true) {
        Ok(ts) => Ok(finished(printed(new_printer(), s, ts, 0).out)),
        Err(e) => Err(e),
    }
}

pub struct Printer {
    out: Vec<char>,
    brackets: Vec<BracketCtx>,
    prev_end: usize,
    prev_kind: Option<TokenKind>,
    prev_prev_kind: Option<TokenKind>,
}

impl View for Printer {
    type V = PrinterV;

    closed spec fn view(&self) -> PrinterV {
        PrinterV {
            out: self.out@,
            brackets: self.brackets@,
            prev_end: self.prev_end as nat,
            prev: self.prev_kind,
            prev_prev: self.prev_prev_kind,
        }
    }
}

fn count_newlines(v: &Vec<char>, from: usize, to: usize) -> (r: usize)
    requires
        from <= to <= v@.len(),
    ensures
        r == chars::feeds(v@, from as int, to as int),
{
    let mut n: usize = 0;
    let mut i: usize = from;
    while i < to
        invariant
            from <= i <= to <= v@.len(),
            n == chars::feeds(v@, from as int, i as int),
            n <= i - from,
        decreases to - i,
    {
        if v[i] == '\n' {
            n += 1;
        }
        i += 1;
    }
    n
}

fn append_repeated(out: &mut Vec<char>, t: &str, n: usize)
    ensures
        final(out)@ == repeated(old(out)@, t@, n as nat),
{
    let mut left: usize = n;
    while left > 0
        invariant
            repeated(out@, t@, left as nat) == repeated(old(out)@, t@, n as nat),
        decreases left,
    {
        append_text(out, t);
        left -= 1;
    }
}

fn is_open_multi_line(v: &Vec<char>, ts: &Vec<Token>, idx: usize) -> (r: bool)
    requires
        idx < ts@.len(),
        lexer::in_order(v@, ts@),
    ensures
        r == breaks_after(v@, ts@, idx as nat),
{
    proof {
        reveal(breaks_after);
    }
    let n: usize = ts.len();
    let mut j: usize = idx + 1;
    while j < n && is_comment_kind(ts[j].kind)
        invariant
            idx < j <= n == ts@.len(),
            code_place(ts@, j as nat) == code_place(ts@, idx as nat + 1),
        decreases n - j,
    {
        j += 1;
    }
    let next: usize = if j < n && ts[j].kind != TokenKind::Eof { j } else { j - 1 };
    next > idx && count_newlines(v, ts[idx].end, ts[next].start) > 0
}

impl Printer {
    fn new() -> (r: Printer)
        ensures
            r@ == new_printer(),
    {
        Printer { out: Vec::new(), brackets: Vec::new(), prev_end: 0, prev_kind: None, prev_prev_kind: None }
    }

    fn indent_depth(&self) -> (r: usize)
        ensures
            r == depth(self@.brackets),
    {
        let mut n: usize = 0;
        let mut i: usize = 0;
        assert(self.brackets@.take(0) =~= Seq::<BracketCtx>::empty());
        while i < self.brackets.len()
            invariant
                i <= self.brackets@.len(),
                n <= i,
                n == depth(self.brackets@.take(i as int)),
            decreases self.brackets@.len() - i,
        {
            assert(self.brackets@.take(i as int + 1).drop_last() =~= self.brackets@.take(i as int));
            if self.brackets[i].multi_line {
                n += 1;
            }
            i += 1;
        }
        assert(self.brackets@.take(i as int) =~= self.brackets@);
        n
    }

    fn is_statement_start_after_newline(&self, k: TokenKind) -> (r: bool)
        ensures
            r == starts_afresh(self@.prev, k),
    {
        k == TokenKind::RBrace || k == TokenKind::RParen || k == TokenKind::RBracket || match self.prev_kind {
            None => true,
            Some(p) => p == TokenKind::Semi || p == TokenKind::RBrace || p == TokenKind::LBrace || p == TokenKind::Comma
                || p == TokenKind::FatArrow || is_comment_kind(p),
        }
    }

    fn is_innermost(&self, k: BracketKind) -> (r: bool)
        ensures
            r == is_open(self@.brackets, k),
    {
        let n: usize = self.brackets.len();
        n > 0 && self.brackets[n - 1].open == k && self.brackets[n - 1].multi_line
    }

    fn emit_indent_for_token(&mut self, k: TokenKind)
        ensures
            final(self)@ == (PrinterV {
                out: repeated(old(self)@.out, INDENT@, indent_of(old(self)@.brackets, k)),
                ..old(self)@
            }),
    {
        let mut depth: usize = self.indent_depth();
        let closing = (k == TokenKind::RBrace && self.is_innermost(BracketKind::Brace)) || (k == TokenKind::RParen
            && self.is_innermost(BracketKind::Paren)) || (k == TokenKind::RBracket && self.is_innermost(
            BracketKind::Bracket,
        ));
        if closing && depth > 0 {
            depth -= 1;
        }
        append_repeated(&mut self.out, INDENT, depth);
    }

    fn preserve_line_leading_whitespace(&mut self, v: &Vec<char>, start: usize)
        requires
            start <= v@.len(),
        ensures
            final(self)@ == (PrinterV {
                out: kept_indent(old(self)@.out, v@, chars::after_last(v@, '\n', start as nat) as int, start as int),
                ..old(self)@
            }),
    {
        let mut from: usize = start;
        while from > 0 && v[from - 1] != '\n'
            invariant
                from <= start <= v@.len(),
                chars::after_last(v@, '\n', from as nat) == chars::after_last(v@, '\n', start as nat),
            decreases from,
        {
            from -= 1;
        }
        assert(from == chars::after_last(v@, '\n', start as nat));
        let ghost first = self@;
        let mut i: usize = from;
        while i < start && (v[i] == ' ' || v[i] == '\t')
            invariant
                from <= i <= start <= v@.len(),
                self@ == (PrinterV { out: self@.out, ..first }),
                kept_indent(self@.out, v@, i as int, start as int) == kept_indent(
                    first.out,
                    v@,
                    from as int,
                    start as int,
                ),
            decreases start - i,
        {
            if v[i] == ' ' {
                self.out.push(' ');
            } else {
                append_text(&mut self.out, INDENT);
            }
            i += 1;
        }
    }

    fn preserve_gap(&mut self, v: &Vec<char>, to: usize)
        requires
            old(self)@.prev_end <= to <= v@.len(),
        ensures
            final(self)@ == (PrinterV {
                out: parted(kept_gap(old(self)@.out, v@, old(self)@.prev_end as int, to as int)),
                ..old(self)@
            }),
    {
        let ghost first = self@;
        let mut i: usize = self.prev_end;
        while i < to
            invariant
                i <= to <= v@.len(),
                self@ == (PrinterV { out: self@.out, ..first }),
                kept_gap(self@.out, v@, i as int, to as int) == kept_gap(
                    first.out,
                    v@,
                    first.prev_end as int,
                    to as int,
                ),
            decreases to - i,
        {
            if v[i] == ' ' || v[i] == '\t' {
                self.out.push(v[i]);
            }
            i += 1;
        }
        let n: usize = self.out.len();
        if !(n > 0 && (self.out[n - 1] == ' ' || self.out[n - 1] == '\t')) {
            self.out.push(' ');
        }
    }

    fn wants_space(&self, ts: &Vec<Token>, idx: usize, prev: TokenKind) -> (r: bool)
        requires
            0 < idx < ts@.len(),
        ensures
            r == space_before(self@, ts@, idx as nat, prev),
    {
        let k = ts[idx].kind;
        if k == TokenKind::Pipe && pipe_role(ts, idx) == PipeRole::PatternClose {
            false
        } else if prev == TokenKind::Pipe && pipe_role(ts, idx - 1) == PipeRole::PatternOpen {
            false
        } else {
            needs_space_between_ctx(self.prev_prev_kind, prev, k)
        }
    }

    fn emit_gap(&mut self, v: &Vec<char>, ts: &Vec<Token>, idx: usize)
        requires
            idx < ts@.len(),
            lexer::in_order(v@, ts@),
            old(self)@.prev_end <= ts@[idx as int].start,
            old(self)@.prev is Some ==> idx > 0,
        ensures
            final(self)@ == (PrinterV { out: with_gap(old(self)@, v@, ts@, idx as nat), ..old(self)@ }),
    {
        proof {
            reveal(with_gap);
        }
        let t = ts[idx];
        let newlines: usize = count_newlines(v, self.prev_end, t.start);
        if let Some(prev) = self.prev_kind {
            if newlines > 0 {
                append_repeated(&mut self.out, "\n", if newlines < 2 { newlines } else { 2 });
                if self.is_statement_start_after_newline(t.kind) {
                    self.emit_indent_for_token(t.kind);
                } else {
                    self.preserve_line_leading_whitespace(v, t.start);
                }
            } else if is_comment_kind(t.kind) {
                self.preserve_gap(v, t.start);
            } else if self.wants_space(ts, idx, prev) {
                self.out.push(' ');
            }
        }
    }

    fn update_bracket_stack(&mut self, v: &Vec<char>, ts: &Vec<Token>, idx: usize)
        requires
            idx < ts@.len(),
            lexer::in_order(v@, ts@),
        ensures
            final(self)@ == (PrinterV {
                brackets: brackets_after(old(self)@.brackets, v@, ts@, idx as nat),
                ..old(self)@
            }),
    {
        let k = ts[idx].kind;
        let multi_line = is_open_multi_line(v, ts, idx);
        if k == TokenKind::LBrace {
            self.brackets.push(BracketCtx { open: BracketKind::Brace, multi_line });
        } else if k == TokenKind::LParen {
            self.brackets.push(BracketCtx { open: BracketKind::Paren, multi_line });
        } else if k == TokenKind::LBracket {
            self.brackets.push(BracketCtx { open: BracketKind::Bracket, multi_line });
        } else if k == TokenKind::RBrace || k == TokenKind::RParen || k == TokenKind::RBracket {
            let _ = self.brackets.pop();
        }
    }

    fn emit(&mut self, v: &Vec<char>, ts: &Vec<Token>, idx: usize)
        requires
            idx < ts@.len(),
            lexer::in_order(v@, ts@),
            old(self)@.prev_end <= ts@[idx as int].start,
            old(self)@.prev is Some ==> idx > 0,
        ensures
            final(self)@ == emitted(old(self)@, v@, ts@, idx as nat),
    {
        let t = ts[idx];
        self.emit_gap(v, ts, idx);
        append_chars(&mut self.out, v, t.start, t.end);
        self.update_bracket_stack(v, ts, idx);
        self.prev_end = t.end;
        self.prev_prev_kind = self.prev_kind;
        self.prev_kind = Some(t.kind);
    }

    fn print(&mut self, v: &Vec<char>, ts: &Vec<Token>)
        requires
            lexer::in_order(v@, ts@),
            old(self)@ == new_printer(),
        ensures
            final(self)@ == printed(old(self)@, v@, ts@, 0),
    {
        let mut i: usize = 0;
        while i < ts.len() && ts[i].kind != TokenKind::Eof
            invariant
                i <= ts@.len(),
                lexer::in_order(v@, ts@),
                self@.prev is Some <==> i > 0,
                i > 0 ==> self@.prev_end == ts@[i - 1].end,
                i == 0 ==> self@.prev_end == 0,
                printed(self@, v@, ts@, i as nat) == printed(old(self)@, v@, ts@, 0),
            decreases ts@.len() - i,
        {
            self.emit(v, ts, i);
            i += 1;
        }
    }

    fn finish(self) -> (r: Vec<char>)
        ensures
            r@ == finished(self@.out),
    {
        let ghost all = self@.out;
        let mut out = self.out;
        while out.len() > 0 && (out[out.len() - 1] == ' ' || out[out.len() - 1] == '\t')
            invariant
                without_end_blanks(out@) == without_end_blanks(all),
            decreases out@.len(),
        {
            let ghost before = out@;
            let _ = out.pop();
            assert(out@ =~= before.drop_last());
        }
        if !(out.len() > 0 && out[out.len() - 1] == '\n') {
            out.push('\n');
        }
        let ghost fed = out@;
        while out.len() >= 2 && out[out.len() - 1] == '\n' && out[out.len() - 2] == '\n'
            invariant
                with_one_feed(out@) == with_one_feed(fed),
            decreases out@.len(),
        {
            let ghost before = out@;
            let _ = out.pop();
            assert(out@ =~= before.drop_last());
        }
        out
    }
}

#[derive(Debug)]
pub enum FormatError {
    Lex(LexError),
}

pub open spec fn format_view(r: Result<String, FormatError>) -> Result<Seq<char>, LexErrorV> {
    match r {
        Ok(s) => Ok(s@),
        Err(FormatError::Lex(e)) => Err(e@),
    }
}

/// Formats a source; fails exactly where it cannot be split into tokens.
pub fn format_source(src: &str) -> (r: Result<String, FormatError>)
    ensures
        format_view(r) == formatted(src@),
{
    match tokenize_with_trivia(src) {
        Ok(ts) => {
            let v = chars_of(src);
            let len: usize = v.len();
            proof {
                lexer::tokens_are_in_order(v@, ts@);
            }
            let mut p = Printer::new();
            p.print(&v, &ts);
            Ok(string_of(&p.finish()))
        },
        Err(e) => Err(FormatError::Lex(e)),
    }
}

impl FormatError {
    pub fn to_diagnostic(&self, file: &str, src: &str) -> (r: Diagnostic)
        ensures
            match *self {
                FormatError::Lex(e) => r@ == diagnostics::lex_diagnostic(
                    e.kind@,
                    diagnostics::span_in(diagnostics::line_starts(src.spec_bytes()), file@, e.span, src.spec_bytes()),
                ),
            },
    {
        match self {
            FormatError::Lex(e) => {
                let lm = LineMap::new(src);
                from_lex(e, file, &lm, src)
            },
        }
    }
}

} // verus!
