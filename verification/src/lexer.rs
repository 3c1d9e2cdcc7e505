//! Source text as tokens.
use vstd::prelude::*;
use vstd::string::*;
use crate::chars;
use crate::ast::{Ident, Span, Type};
use crate::chars::{chars_of, is_name, position_of_char, text_of};
use crate::errors::{LexError, LexErrorKind, LexErrorKindV, LexErrorV};
use crate::text::str_eq;

verus! {

#[derive(Debug, Clone, Copy, PartialEq, Eq, Structural)]
pub enum TokenKind {
    Eof,
    LineComment,
    BlockComment,
    Ident,
    Int,
    Float,
    Str,
    CStr,
    LParen,
    RParen,
    LBracket,
    RBracket,
    LBrace,
    RBrace,
    Comma,
    Semi,
    Colon,
    Dot,
    Pound,
    Bang,
    Tilde,
    Plus,
    Minus,
    Star,
    Slash,
    Percent,
    Lt,
    Gt,
    Amp,
    Pipe,
    Caret,
    Eq,
    DotDot,
    ColonColon,
    Arrow,
    FatArrow,
    EqEq,
    BangEq,
    Le,
    Shl,
    Ge,
    Shr,
    AmpAmp,
    AmpEq,
    PipePipe,
    PipeEq,
    CaretEq,
    PlusEq,
    PlusPercent,
    MinusEq,
    MinusPercent,
    StarEq,
    StarPercent,
    SlashEq,
    PercentEq,
    DotDotEq,
    ShlEq,
    ShrEq,
    As,
    Assert,
    Await,
    Break,
    Const,
    Continue,
    Defer,
    Else,
    Enum,
    False,
    Fn,
    For,
    Guard,
    If,
    Impl,
    Import,
    In,
    Interface,
    Let,
    Loop,
    Match,
    Opaque,
    Pub,
    Ref,
    Return,
    SelfLower,
    SelfUpper,
    Static,
    Struct,
    Take,
    True,
    Type,
    Var,
    While,
    Yield,
    At,
}

/// A token: its span in bytes, and the positions of its first character and of the one
/// after its last.
#[derive(Debug, Clone, Copy, PartialEq, Eq, Structural)]
pub struct Token {
    pub kind: TokenKind,
    pub span: Span,
    pub start: usize,
    pub end: usize,
}

// ---------------------------------------------------------------------------
// Byte offsets.

/// How many bytes the character takes.
pub open spec fn char_width(c: char) -> nat {
    vstd::utf8::encode_scalar(c as u32).len()
}

/// The byte offset of the character at position `i`.
pub open spec fn byte_pos(s: Seq<char>, i: nat) -> nat
    decreases i,
{
    if i == 0 || i > s.len() {
        0
    } else {
        byte_pos(s, (i - 1) as nat) + char_width(s[i - 1])
    }
}

pub proof fn lemma_byte_pos_shift(s: Seq<char>, i: nat)
    requires
        i < s.len(),
    ensures
        byte_pos(s, i + 1) == char_width(s[0]) + byte_pos(s.drop_first(), i),
    decreases i,
{
    if i > 0 {
        lemma_byte_pos_shift(s, (i - 1) as nat);
        assert(s.drop_first()[i - 1] == s[i as int]);
    } else {
        reveal_with_fuel(byte_pos, 3);
    }
}

/// The offset past the last character is the length of the text in bytes.
pub proof fn byte_pos_of_the_end(s: Seq<char>)
    ensures
        byte_pos(s, s.len()) == vstd::utf8::encode_utf8(s).len(),
    decreases s.len(),
{
    if s.len() > 0 {
        byte_pos_of_the_end(s.drop_first());
        lemma_byte_pos_shift(s, (s.len() - 1) as nat);
    }
}

proof fn lemma_byte_pos_grows(s: Seq<char>, i: nat, j: nat)
    requires
        i <= j <= s.len(),
    ensures
        byte_pos(s, i) <= byte_pos(s, j),
    decreases j,
{
    if i < j {
        lemma_byte_pos_grows(s, i, (j - 1) as nat);
    }
}

fn width_of(c: char) -> (r: usize)
    ensures
        r == char_width(c),
{
    let n: u32 = c as u32;
    if n <= 0x7f {
        1
    } else if n <= 0x7ff {
        2
    } else if n <= 0xffff {
        3
    } else {
        4
    }
}

/// The byte offset of every position of a text.
fn byte_positions(src: &str, v: &Vec<char>) -> (r: Vec<usize>)
    requires
        v@ == src@,
    ensures
        r@.len() == v@.len() + 1,
        forall|i: int| 0 <= i <= v@.len() ==> #[trigger] r@[i] == byte_pos(v@, i as nat),
{
    let total: usize = src.as_bytes().len();
    proof {
        byte_pos_of_the_end(v@);
    }
    let mut out: Vec<usize> = Vec::new();
    out.push(0);
    let mut at: usize = 0;
    let mut i: usize = 0;
    while i < v.len()
        invariant
            i <= v@.len(),
            total == byte_pos(v@, v@.len()),
            at == byte_pos(v@, i as nat),
            out@.len() == i + 1,
            forall|k: int| 0 <= k <= i ==> #[trigger] out@[k] == byte_pos(v@, k as nat),
        decreases v@.len() - i,
    {
        proof {
            lemma_byte_pos_grows(v@, i as nat + 1, v@.len());
        }
        at = at + width_of(v[i]);
        out.push(at);
        i += 1;
    }
    out
}

// ---------------------------------------------------------------------------
// Words.

/// The kind of a word: a keyword or a name.
pub open spec fn word_kind(w: Seq<char>) -> TokenKind {
    if w == "as"@ {
        TokenKind::As
    } else if w == "assert"@ {
        TokenKind::Assert
    } else if w == "await"@ {
        TokenKind::Await
    } else if w == "break"@ {
        TokenKind::Break
    } else if w == "const"@ {
        TokenKind::Const
    } else if w == "continue"@ {
        TokenKind::Continue
    } else if w == "defer"@ {
        TokenKind::Defer
    } else if w == "else"@ {
        TokenKind::Else
    } else if w == "enum"@ {
        TokenKind::Enum
    } else if w == "false"@ {
        TokenKind::False
    } else if w == "fn"@ {
        TokenKind::Fn
    } else if w == "for"@ {
        TokenKind::For
    } else if w == "guard"@ {
        TokenKind::Guard
    } else if w == "if"@ {
        TokenKind::If
    } else if w == "impl"@ {
        TokenKind::Impl
    } else if w == "import"@ {
        TokenKind::Import
    } else if w == "in"@ {
        TokenKind::In
    } else if w == "interface"@ {
        TokenKind::Interface
    } else if w == "let"@ {
        TokenKind::Let
    } else if w == "loop"@ {
        TokenKind::Loop
    } else if w == "match"@ {
        TokenKind::Match
    } else if w == "opaque"@ {
        TokenKind::Opaque
    } else if w == "pub"@ {
        TokenKind::Pub
    } else if w == "ref"@ {
        TokenKind::Ref
    } else if w == "return"@ {
        TokenKind::Return
    } else if w == "self"@ {
        TokenKind::SelfLower
    } else if w == "Self"@ {
        TokenKind::SelfUpper
    } else if w == "static"@ {
        TokenKind::Static
    } else if w == "struct"@ {
        TokenKind::Struct
    } else if w == "take"@ {
        TokenKind::Take
    } else if w == "this"@ {
        TokenKind::SelfLower
    } else if w == "true"@ {
        TokenKind::True
    } else if w == "type"@ {
        TokenKind::Type
    } else if w == "var"@ {
        TokenKind::Var
    } else if w == "while"@ {
        TokenKind::While
    } else if w == "yield"@ {
        TokenKind::Yield
    } else {
        TokenKind::Ident
    }
}

fn kind_of_word(w: &str) -> (r: TokenKind)
    ensures
        r == word_kind(w@),
{
    if str_eq(w, "as") {
        TokenKind::As
    } else if str_eq(w, "assert") {
        TokenKind::Assert
    } else if str_eq(w, "await") {
        TokenKind::Await
    } else if str_eq(w, "break") {
        TokenKind::Break
    } else if str_eq(w, "const") {
        TokenKind::Const
    } else if str_eq(w, "continue") {
        TokenKind::Continue
    } else if str_eq(w, "defer") {
        TokenKind::Defer
    } else if str_eq(w, "else") {
        TokenKind::Else
    } else if str_eq(w, "enum") {
        TokenKind::Enum
    } else if str_eq(w, "false") {
        TokenKind::False
    } else if str_eq(w, "fn") {
        TokenKind::Fn
    } else if str_eq(w, "for") {
        TokenKind::For
    } else if str_eq(w, "guard") {
        TokenKind::Guard
    } else if str_eq(w, "if") {
        TokenKind::If
    } else if str_eq(w, "impl") {
        TokenKind::Impl
    } else if str_eq(w, "import") {
        TokenKind::Import
    } else if str_eq(w, "in") {
        TokenKind::In
    } else if str_eq(w, "interface") {
        TokenKind::Interface
    } else if str_eq(w, "let") {
        TokenKind::Let
    } else if str_eq(w, "loop") {
        TokenKind::Loop
    } else if str_eq(w, "match") {
        TokenKind::Match
    } else if str_eq(w, "opaque") {
        TokenKind::Opaque
    } else if str_eq(w, "pub") {
        TokenKind::Pub
    } else if str_eq(w, "ref") {
        TokenKind::Ref
    } else if str_eq(w, "return") {
        TokenKind::Return
    } else if str_eq(w, "self") {
        TokenKind::SelfLower
    } else if str_eq(w, "Self") {
        TokenKind::SelfUpper
    } else if str_eq(w, "static") {
        TokenKind::Static
    } else if str_eq(w, "struct") {
        TokenKind::Struct
    } else if str_eq(w, "take") {
        TokenKind::Take
    } else if str_eq(w, "this") {
        TokenKind::SelfLower
    } else if str_eq(w, "true") {
        TokenKind::True
    } else if str_eq(w, "type") {
        TokenKind::Type
    } else if str_eq(w, "var") {
        TokenKind::Var
    } else if str_eq(w, "while") {
        TokenKind::While
    } else if str_eq(w, "yield") {
        TokenKind::Yield
    } else {
        TokenKind::Ident
    }
}

pub open spec fn is_digit(c: char) -> bool {
    '0' <= c <= '9'
}

/// A character that a name can start with.
pub open spec fn starts_name(c: char) -> bool {
    chars::is_name_char(c) && !is_digit(c)
}

/// The end of the run of name characters from `i` on.
pub open spec fn name_end(s: Seq<char>, i: nat) -> nat
    decreases s.len() - i,
{
    if i < s.len() && chars::is_name_char(s[i as int]) {
        name_end(s, i + 1)
    } else {
        i
    }
}

pub proof fn lemma_name_end(s: Seq<char>, i: nat)
    requires
        i <= s.len(),
    ensures
        i <= name_end(s, i) <= s.len(),
    decreases s.len() - i,
{
    if i < s.len() && chars::is_name_char(s[i as int]) {
        lemma_name_end(s, i + 1);
    }
}

pub fn end_of_name(v: &Vec<char>, from: usize) -> (r: usize)
    requires
        from <= v@.len(),
    ensures
        r == name_end(v@, from as nat),
        from <= r <= v@.len(),
{
    let mut i: usize = from;
    while i < v.len() && is_name(v[i])
        invariant
            from <= i <= v@.len(),
            name_end(v@, i as nat) == name_end(v@, from as nat),
        decreases v@.len() - i,
    {
        i += 1;
    }
    i
}

// ---------------------------------------------------------------------------
// Numbers.

#[derive(Debug, Clone, Copy, PartialEq, Eq, Structural)]
pub enum Radix {
    Binary,
    Octal,
    Decimal,
    Hex,
}

/// A digit of the radix, or an underscore between digits.
pub open spec fn is_digit_of(r: Radix, c: char) -> bool {
    c == '_' || match r {
        Radix::Binary => '0' <= c <= '1',
        Radix::Octal => '0' <= c <= '7',
        Radix::Decimal => '0' <= c <= '9',
        Radix::Hex => '0' <= c <= '9' || 'a' <= c <= 'f' || 'A' <= c <= 'F',
    }
}

fn is_radix_digit(r: Radix, c: char) -> (b: bool)
    ensures
        b == is_digit_of(r, c),
{
    c == '_' || match r {
        Radix::Binary => '0' <= c && c <= '1',
        Radix::Octal => '0' <= c && c <= '7',
        Radix::Decimal => '0' <= c && c <= '9',
        Radix::Hex => ('0' <= c && c <= '9') || ('a' <= c && c <= 'f') || ('A' <= c && c <= 'F'),
    }
}

pub open spec fn digits_end(r: Radix, s: Seq<char>, i: nat) -> nat
    decreases s.len() - i,
{
    if i < s.len() && is_digit_of(r, s[i as int]) {
        digits_end(r, s, i + 1)
    } else {
        i
    }
}

pub proof fn lemma_digits_end(r: Radix, s: Seq<char>, i: nat)
    requires
        i <= s.len(),
    ensures
        i <= digits_end(r, s, i) <= s.len(),
    decreases s.len() - i,
{
    if i < s.len() && is_digit_of(r, s[i as int]) {
        lemma_digits_end(r, s, i + 1);
    }
}

fn end_of_digits(r: Radix, v: &Vec<char>, from: usize) -> (e: usize)
    requires
        from <= v@.len(),
    ensures
        e == digits_end(r, v@, from as nat),
        from <= e <= v@.len(),
{
    let mut i: usize = from;
    while i < v.len() && is_radix_digit(r, v[i])
        invariant
            from <= i <= v@.len(),
            digits_end(r, v@, i as nat) == digits_end(r, v@, from as nat),
        decreases v@.len() - i,
    {
        i += 1;
    }
    i
}

/// The character at a position, or NUL past the end.
pub open spec fn char_at(s: Seq<char>, i: nat) -> char {
    if i < s.len() {
        s[i as int]
    } else {
        '\0'
    }
}

fn char_in(v: &Vec<char>, i: usize, off: usize) -> (r: char)
    requires
        i < v@.len(),
        off <= 2,
    ensures
        r == char_at(v@, (i + off) as nat),
{
    if off < v.len() - i {
        v[i + off]
    } else {
        '\0'
    }
}

/// The radix that a number's prefix gives, if it has one.
pub open spec fn radix_prefix(s: Seq<char>, i: nat) -> Option<Radix> {
    if s[i as int] != '0' {
        None
    } else if char_at(s, i + 1) == 'x' {
        Some(Radix::Hex)
    } else if char_at(s, i + 1) == 'b' {
        Some(Radix::Binary)
    } else if char_at(s, i + 1) == 'o' {
        Some(Radix::Octal)
    } else {
        None
    }
}

fn prefix_of_number(v: &Vec<char>, i: usize) -> (r: Option<Radix>)
    requires
        i < v@.len(),
    ensures
        r == radix_prefix(v@, i as nat),
{
    if v[i] != '0' {
        return None;
    }
    let c: char = char_in(v, i, 1);
    if c == 'x' {
        Some(Radix::Hex)
    } else if c == 'b' {
        Some(Radix::Binary)
    } else if c == 'o' {
        Some(Radix::Octal)
    } else {
        None
    }
}

/// The end of the fraction of a decimal number whose digits end at `i`: a point belongs to
/// the number only if a digit follows.
pub open spec fn fraction_end(s: Seq<char>, i: nat) -> nat {
    if char_at(s, i) == '.' && is_digit(char_at(s, i + 1)) {
        digits_end(Radix::Decimal, s, i + 1)
    } else {
        i
    }
}

/// The end of the exponent of a decimal number, if one starts at `i`.
pub open spec fn exponent_end(s: Seq<char>, i: nat) -> nat {
    let c = char_at(s, i);
    let d = char_at(s, i + 1);
    if c != 'e' && c != 'E' {
        i
    } else if is_digit(d) {
        digits_end(Radix::Decimal, s, i + 1)
    } else if (d == '+' || d == '-') && is_digit(char_at(s, i + 2)) {
        digits_end(Radix::Decimal, s, i + 2)
    } else {
        i
    }
}

pub open spec fn is_int_suffix(w: Seq<char>) -> bool {
    ||| w == "i8"@
    ||| w == "i16"@
    ||| w == "i32"@
    ||| w == "i64"@
    ||| w == "u8"@
    ||| w == "u16"@
    ||| w == "u32"@
    ||| w == "u64"@
    ||| w == "isize"@
    ||| w == "usize"@
}

pub open spec fn is_float_suffix(w: Seq<char>) -> bool {
    w == "f32"@ || w == "f64"@
}

fn has_int_suffix(w: &str) -> (r: bool)
    ensures
        r == is_int_suffix(w@),
{
    str_eq(w, "i8") || str_eq(w, "i16") || str_eq(w, "i32") || str_eq(w, "i64") || str_eq(w, "u8") || str_eq(w, "u16") || str_eq(w, "u32") || str_eq(w, "u64") || str_eq(w, "isize") || str_eq(w, "usize")
}

// ---------------------------------------------------------------------------
// One step.

/// What stands at a position of a text.
pub enum LexedV {
    /// White space up to the position.
    Blank(nat),
    /// A token up to the position.
    Token(TokenKind, nat),
    /// An error in the text up to the position.
    Error(LexErrorKindV, nat),
}

pub enum Lexed {
    Blank(usize),
    Token(TokenKind, usize),
    Error(LexErrorKind, usize),
}

impl View for Lexed {
    type V = LexedV;

    open spec fn view(&self) -> LexedV {
        match *self {
            Lexed::Blank(e) => LexedV::Blank(e as nat),
            Lexed::Token(k, e) => LexedV::Token(k, e as nat),
            Lexed::Error(k, e) => LexedV::Error(k@, e as nat),
        }
    }
}

/// A number whose digits end at `digits`: a type suffix may follow.
pub open spec fn suffixed(s: Seq<char>, digits: nat, float: bool) -> LexedV {
    let e = name_end(s, digits);
    let w = s.subrange(digits as int, e as int);
    if w.len() == 0 {
        LexedV::Token(if float { TokenKind::Float } else { TokenKind::Int }, e)
    } else if is_float_suffix(w) {
        LexedV::Token(TokenKind::Float, e)
    } else if is_int_suffix(w) && !float {
        LexedV::Token(TokenKind::Int, e)
    } else {
        LexedV::Error(LexErrorKindV::InvalidNumSuffix(w), e)
    }
}

/// The number at a position.
pub open spec fn number_at(s: Seq<char>, i: nat) -> LexedV {
    match radix_prefix(s, i) {
        Some(r) => {
            let e = digits_end(r, s, i + 2);
            if e == i + 2 {
                let all = name_end(s, i);
                LexedV::Error(LexErrorKindV::InvalidNumber(s.subrange(i as int, all as int)), all)
            } else {
                suffixed(s, e, false)
            }
        },
        None => {
            let whole = digits_end(Radix::Decimal, s, i);
            let fraction = fraction_end(s, whole);
            let exponent = exponent_end(s, fraction);
            suffixed(s, exponent, exponent > whole)
        },
    }
}

/// The end of the string whose text starts at `i`, past its closing quote.
pub open spec fn string_end(s: Seq<char>, i: nat) -> Option<nat>
    decreases s.len() - i,
{
    if i >= s.len() {
        None
    } else if s[i as int] == '"' {
        Some(i + 1)
    } else if s[i as int] == '\n' {
        None
    } else if s[i as int] == '\\' {
        if i + 1 < s.len() {
            string_end(s, i + 2)
        } else {
            None
        }
    } else {
        string_end(s, i + 1)
    }
}

pub proof fn lemma_string_end(s: Seq<char>, i: nat)
    ensures
        string_end(s, i) matches Some(e) ==> i < e <= s.len(),
    decreases s.len() - i,
{
    if i < s.len() && s[i as int] != '"' && s[i as int] != '\n' {
        if s[i as int] == '\\' {
            if i + 1 < s.len() {
                lemma_string_end(s, i + 2);
            }
        } else {
            lemma_string_end(s, i + 1);
        }
    }
}

fn end_of_string(v: &Vec<char>, from: usize) -> (r: Option<usize>)
    requires
        from <= v@.len(),
    ensures
        match r {
            Some(e) => string_end(v@, from as nat) == Some(e as nat) && from < e <= v@.len(),
            None => string_end(v@, from as nat) is None,
        },
{
    let n: usize = v.len();
    let mut i: usize = from;
    while i < n
        invariant
            from <= i <= n,
            n == v@.len(),
            string_end(v@, i as nat) == string_end(v@, from as nat),
        decreases n - i,
    {
        if v[i] == '"' {
            return Some(i + 1);
        }
        if v[i] == '\n' {
            return None;
        }
        if v[i] == '\\' {
            if n - i <= 1 {
                return None;
            }
            i += 2;
        } else {
            i += 1;
        }
    }
    None
}

/// The position past the `*/` that closes a comment, from `i` on.
pub open spec fn comment_end(s: Seq<char>, i: nat) -> Option<nat>
    decreases s.len() - i,
{
    if i + 1 >= s.len() {
        None
    } else if s[i as int] == '*' && s[i as int + 1] == '/' {
        Some(i + 2)
    } else {
        comment_end(s, i + 1)
    }
}

pub proof fn lemma_comment_end(s: Seq<char>, i: nat)
    ensures
        comment_end(s, i) matches Some(e) ==> i < e <= s.len(),
    decreases s.len() - i,
{
    if i + 1 < s.len() && !(s[i as int] == '*' && s[i as int + 1] == '/') {
        lemma_comment_end(s, i + 1);
    }
}

fn end_of_comment(v: &Vec<char>, from: usize) -> (r: Option<usize>)
    requires
        from <= v@.len(),
    ensures
        match r {
            Some(e) => comment_end(v@, from as nat) == Some(e as nat) && from < e <= v@.len(),
            None => comment_end(v@, from as nat) is None,
        },
{
    let n: usize = v.len();
    let mut i: usize = from;
    while i < n && n - i > 1
        invariant
            from <= i <= n,
            n == v@.len(),
            comment_end(v@, i as nat) == comment_end(v@, from as nat),
        decreases n - i,
    {
        if v[i] == '*' && v[i + 1] == '/' {
            return Some(i + 2);
        }
        i += 1;
    }
    None
}

pub open spec fn is_blank(c: char) -> bool {
    c == ' ' || c == '\t' || c == '\r' || c == '\n'
}

pub fn is_blank_char(c: char) -> (r: bool)
    ensures
        r == is_blank(c),
{
    c == ' ' || c == '\t' || c == '\r' || c == '\n'
}

/// The longest operator or delimiter that the characters start with, and its length.
pub open spec fn punct(c: char, d: char, e: char) -> Option<(TokenKind, nat)> {
    if c == '.' && d == '.' && e == '=' {
        Some((TokenKind::DotDotEq, 3nat))
    } else if c == '<' && d == '<' && e == '=' {
        Some((TokenKind::ShlEq, 3nat))
    } else if c == '>' && d == '>' && e == '=' {
        Some((TokenKind::ShrEq, 3nat))
    } else if c == '.' && d == '.' {
        Some((TokenKind::DotDot, 2nat))
    } else if c == ':' && d == ':' {
        Some((TokenKind::ColonColon, 2nat))
    } else if c == '-' && d == '>' {
        Some((TokenKind::Arrow, 2nat))
    } else if c == '=' && d == '>' {
        Some((TokenKind::FatArrow, 2nat))
    } else if c == '=' && d == '=' {
        Some((TokenKind::EqEq, 2nat))
    } else if c == '!' && d == '=' {
        Some((TokenKind::BangEq, 2nat))
    } else if c == '<' && d == '=' {
        Some((TokenKind::Le, 2nat))
    } else if c == '<' && d == '<' {
        Some((TokenKind::Shl, 2nat))
    } else if c == '>' && d == '=' {
        Some((TokenKind::Ge, 2nat))
    } else if c == '>' && d == '>' {
        Some((TokenKind::Shr, 2nat))
    } else if c == '&' && d == '&' {
        Some((TokenKind::AmpAmp, 2nat))
    } else if c == '&' && d == '=' {
        Some((TokenKind::AmpEq, 2nat))
    } else if c == '|' && d == '|' {
        Some((TokenKind::PipePipe, 2nat))
    } else if c == '|' && d == '=' {
        Some((TokenKind::PipeEq, 2nat))
    } else if c == '^' && d == '=' {
        Some((TokenKind::CaretEq, 2nat))
    } else if c == '+' && d == '=' {
        Some((TokenKind::PlusEq, 2nat))
    } else if c == '+' && d == '%' {
        Some((TokenKind::PlusPercent, 2nat))
    } else if c == '-' && d == '=' {
        Some((TokenKind::MinusEq, 2nat))
    } else if c == '-' && d == '%' {
        Some((TokenKind::MinusPercent, 2nat))
    } else if c == '*' && d == '=' {
        Some((TokenKind::StarEq, 2nat))
    } else if c == '*' && d == '%' {
        Some((TokenKind::StarPercent, 2nat))
    } else if c == '/' && d == '=' {
        Some((TokenKind::SlashEq, 2nat))
    } else if c == '%' && d == '=' {
        Some((TokenKind::PercentEq, 2nat))
    } else if c == '(' {
        Some((TokenKind::LParen, 1nat))
    } else if c == ')' {
        Some((TokenKind::RParen, 1nat))
    } else if c == '[' {
        Some((TokenKind::LBracket, 1nat))
    } else if c == ']' {
        Some((TokenKind::RBracket, 1nat))
    } else if c == '{' {
        Some((TokenKind::LBrace, 1nat))
    } else if c == '}' {
        Some((TokenKind::RBrace, 1nat))
    } else if c == ',' {
        Some((TokenKind::Comma, 1nat))
    } else if c == ';' {
        Some((TokenKind::Semi, 1nat))
    } else if c == ':' {
        Some((TokenKind::Colon, 1nat))
    } else if c == '.' {
        Some((TokenKind::Dot, 1nat))
    } else if c == '#' {
        Some((TokenKind::Pound, 1nat))
    } else if c == '!' {
        Some((TokenKind::Bang, 1nat))
    } else if c == '~' {
        Some((TokenKind::Tilde, 1nat))
    } else if c == '+' {
        Some((TokenKind::Plus, 1nat))
    } else if c == '-' {
        Some((TokenKind::Minus, 1nat))
    } else if c == '*' {
        Some((TokenKind::Star, 1nat))
    } else if c == '/' {
        Some((TokenKind::Slash, 1nat))
    } else if c == '%' {
        Some((TokenKind::Percent, 1nat))
    } else if c == '<' {
        Some((TokenKind::Lt, 1nat))
    } else if c == '>' {
        Some((TokenKind::Gt, 1nat))
    } else if c == '&' {
        Some((TokenKind::Amp, 1nat))
    } else if c == '|' {
        Some((TokenKind::Pipe, 1nat))
    } else if c == '^' {
        Some((TokenKind::Caret, 1nat))
    } else if c == '=' {
        Some((TokenKind::Eq, 1nat))
    } else if c == '@' && starts_name(d) {
        Some((TokenKind::At, 1nat))
    } else {
        None
    }
}

fn punct_of(c: char, d: char, e: char) -> (r: Option<(TokenKind, usize)>)
    ensures
        match r {
            Some((k, n)) => punct(c, d, e) == Some((k, n as nat)) && 1 <= n <= 3,
            None => punct(c, d, e) is None,
        },
{
    let named = is_name(d) && !('0' <= d && d <= '9');
    if c == '.' && d == '.' && e == '=' {
        Some((TokenKind::DotDotEq, 3usize))
    } else if c == '<' && d == '<' && e == '=' {
        Some((TokenKind::ShlEq, 3usize))
    } else if c == '>' && d == '>' && e == '=' {
        Some((TokenKind::ShrEq, 3usize))
    } else if c == '.' && d == '.' {
        Some((TokenKind::DotDot, 2usize))
    } else if c == ':' && d == ':' {
        Some((TokenKind::ColonColon, 2usize))
    } else if c == '-' && d == '>' {
        Some((TokenKind::Arrow, 2usize))
    } else if c == '=' && d == '>' {
        Some((TokenKind::FatArrow, 2usize))
    } else if c == '=' && d == '=' {
        Some((TokenKind::EqEq, 2usize))
    } else if c == '!' && d == '=' {
        Some((TokenKind::BangEq, 2usize))
    } else if c == '<' && d == '=' {
        Some((TokenKind::Le, 2usize))
    } else if c == '<' && d == '<' {
        Some((TokenKind::Shl, 2usize))
    } else if c == '>' && d == '=' {
        Some((TokenKind::Ge, 2usize))
    } else if c == '>' && d == '>' {
        Some((TokenKind::Shr, 2usize))
    } else if c == '&' && d == '&' {
        Some((TokenKind::AmpAmp, 2usize))
    } else if c == '&' && d == '=' {
        Some((TokenKind::AmpEq, 2usize))
    } else if c == '|' && d == '|' {
        Some((TokenKind::PipePipe, 2usize))
    } else if c == '|' && d == '=' {
        Some((TokenKind::PipeEq, 2usize))
    } else if c == '^' && d == '=' {
        Some((TokenKind::CaretEq, 2usize))
    } else if c == '+' && d == '=' {
        Some((TokenKind::PlusEq, 2usize))
    } else if c == '+' && d == '%' {
        Some((TokenKind::PlusPercent, 2usize))
    } else if c == '-' && d == '=' {
        Some((TokenKind::MinusEq, 2usize))
    } else if c == '-' && d == '%' {
        Some((TokenKind::MinusPercent, 2usize))
    } else if c == '*' && d == '=' {
        Some((TokenKind::StarEq, 2usize))
    } else if c == '*' && d == '%' {
        Some((TokenKind::StarPercent, 2usize))
    } else if c == '/' && d == '=' {
        Some((TokenKind::SlashEq, 2usize))
    } else if c == '%' && d == '=' {
        Some((TokenKind::PercentEq, 2usize))
    } else if c == '(' {
        Some((TokenKind::LParen, 1usize))
    } else if c == ')' {
        Some((TokenKind::RParen, 1usize))
    } else if c == '[' {
        Some((TokenKind::LBracket, 1usize))
    } else if c == ']' {
        Some((TokenKind::RBracket, 1usize))
    } else if c == '{' {
        Some((TokenKind::LBrace, 1usize))
    } else if c == '}' {
        Some((TokenKind::RBrace, 1usize))
    } else if c == ',' {
        Some((TokenKind::Comma, 1usize))
    } else if c == ';' {
        Some((TokenKind::Semi, 1usize))
    } else if c == ':' {
        Some((TokenKind::Colon, 1usize))
    } else if c == '.' {
        Some((TokenKind::Dot, 1usize))
    } else if c == '#' {
        Some((TokenKind::Pound, 1usize))
    } else if c == '!' {
        Some((TokenKind::Bang, 1usize))
    } else if c == '~' {
        Some((TokenKind::Tilde, 1usize))
    } else if c == '+' {
        Some((TokenKind::Plus, 1usize))
    } else if c == '-' {
        Some((TokenKind::Minus, 1usize))
    } else if c == '*' {
        Some((TokenKind::Star, 1usize))
    } else if c == '/' {
        Some((TokenKind::Slash, 1usize))
    } else if c == '%' {
        Some((TokenKind::Percent, 1usize))
    } else if c == '<' {
        Some((TokenKind::Lt, 1usize))
    } else if c == '>' {
        Some((TokenKind::Gt, 1usize))
    } else if c == '&' {
        Some((TokenKind::Amp, 1usize))
    } else if c == '|' {
        Some((TokenKind::Pipe, 1usize))
    } else if c == '^' {
        Some((TokenKind::Caret, 1usize))
    } else if c == '=' {
        Some((TokenKind::Eq, 1usize))
    } else if c == '@' && named {
        Some((TokenKind::At, 1usize))
    } else {
        None
    }
}

/// What stands at a position.
pub open spec fn lex_at(s: Seq<char>, i: nat) -> LexedV {
    let c = s[i as int];
    let d = char_at(s, i + 1);
    let e = char_at(s, i + 2);
    if is_blank(c) {
        LexedV::Blank(i + 1)
    } else if c == '/' && d == '/' {
        LexedV::Token(TokenKind::LineComment, chars::find_char(s, '\n', i))
    } else if c == '/' && d == '*' {
        match comment_end(s, i + 2) {
            Some(end) => LexedV::Token(TokenKind::BlockComment, end),
            None => LexedV::Error(LexErrorKindV::UnterminatedBlockComment, s.len()),
        }
    } else if c == '"' {
        match string_end(s, i + 1) {
            Some(end) => LexedV::Token(TokenKind::Str, end),
            None => LexedV::Error(LexErrorKindV::UnterminatedString, i + 1),
        }
    } else if c == 'c' && d == '"' {
        match string_end(s, i + 2) {
            Some(end) => LexedV::Token(TokenKind::CStr, end),
            None => LexedV::Error(LexErrorKindV::UnterminatedString, i + 2),
        }
    } else if is_digit(c) {
        number_at(s, i)
    } else if starts_name(c) {
        let end = name_end(s, i);
        LexedV::Token(word_kind(s.subrange(i as int, end as int)), end)
    } else {
        match punct(c, d, e) {
            Some((k, n)) => if i + n <= s.len() {
                LexedV::Token(k, i + n)
            } else {
                LexedV::Error(LexErrorKindV::UnexpectedChar(c), i + 1)
            },
            None => LexedV::Error(LexErrorKindV::UnexpectedChar(c), i + 1),
        }
    }
}

pub open spec fn lexed_end(l: LexedV) -> nat {
    match l {
        LexedV::Blank(e) => e,
        LexedV::Token(_, e) => e,
        LexedV::Error(_, e) => e,
    }
}

proof fn lemma_suffixed(s: Seq<char>, d: nat, float: bool)
    requires
        d <= s.len(),
    ensures
        d <= lexed_end(suffixed(s, d, float)) <= s.len(),
{
    lemma_name_end(s, d);
}

/// Every step moves on and stays in the text.
pub proof fn lexing_advances(s: Seq<char>, i: nat)
    requires
        i < s.len(),
    ensures
        i < lexed_end(lex_at(s, i)) <= s.len(),
{
    chars::lemma_find_char(s, '\n', i);
    lemma_name_end(s, i);
    lemma_digits_end(Radix::Decimal, s, i);
    if s[i as int] == '/' && char_at(s, i + 1) == '/' {
        assert(chars::find_char(s, '\n', i) > i);
    }
    if i + 1 < s.len() {
        lemma_string_end(s, i + 1);
    }
    lemma_string_end(s, i + 2);
    lemma_comment_end(s, i + 2);
    if is_digit(s[i as int]) {
        match radix_prefix(s, i) {
            Some(r) => {
                lemma_digits_end(r, s, i + 2);
                lemma_suffixed(s, digits_end(r, s, i + 2), false);
                assert(chars::is_name_char(s[i as int]));
                lemma_name_end(s, i + 1);
            },
            None => {
                let whole = digits_end(Radix::Decimal, s, i);
                lemma_digits_end(Radix::Decimal, s, i + 1);
                assert(whole > i);
                if char_at(s, whole) == '.' && is_digit(char_at(s, whole + 1)) {
                    lemma_digits_end(Radix::Decimal, s, whole + 1);
                }
                let fraction = fraction_end(s, whole);
                if is_digit(char_at(s, fraction + 1)) {
                    lemma_digits_end(Radix::Decimal, s, fraction + 1);
                }
                if is_digit(char_at(s, fraction + 2)) {
                    lemma_digits_end(Radix::Decimal, s, fraction + 2);
                }
                let exponent = exponent_end(s, fraction);
                lemma_suffixed(s, exponent, exponent > whole);
            },
        }
    } else if starts_name(s[i as int]) {
        lemma_name_end(s, i + 1);
    }
}

fn lex_suffix(v: &Vec<char>, digits: usize, float: bool) -> (r: Lexed)
    requires
        digits <= v@.len(),
    ensures
        r@ == suffixed(v@, digits as nat, float),
{
    let e: usize = end_of_name(v, digits);
    let w = text_of(v, digits, e);
    if digits == e {
        Lexed::Token(if float { TokenKind::Float } else { TokenKind::Int }, e)
    } else if str_eq(w.as_str(), "f32") || str_eq(w.as_str(), "f64") {
        Lexed::Token(TokenKind::Float, e)
    } else if has_int_suffix(w.as_str()) && !float {
        Lexed::Token(TokenKind::Int, e)
    } else {
        Lexed::Error(LexErrorKind::InvalidNumSuffix(w), e)
    }
}

fn digit_after(v: &Vec<char>, i: usize, off: usize) -> (r: bool)
    requires
        i <= v@.len(),
        off <= 2,
    ensures
        r == is_digit(char_at(v@, (i + off) as nat)),
{
    if i < v.len() {
        let c: char = char_in(v, i, off);
        '0' <= c && c <= '9'
    } else {
        false
    }
}

fn lex_number(v: &Vec<char>, i: usize) -> (r: Lexed)
    requires
        i < v@.len(),
        is_digit(v@[i as int]),
    ensures
        r@ == number_at(v@, i as nat),
{
    let len: usize = v.len();
    assert(len == v@.len());
    match prefix_of_number(v, i) {
        Some(radix) => {
            let e: usize = end_of_digits(radix, v, i + 2);
            if e == i + 2 {
                let all: usize = end_of_name(v, i);
                Lexed::Error(LexErrorKind::InvalidNumber(text_of(v, i, all)), all)
            } else {
                lex_suffix(v, e, false)
            }
        },
        None => {
            let whole: usize = end_of_digits(Radix::Decimal, v, i);
            let mut at: usize = whole;
            if at < len && v[at] == '.' && digit_after(v, at, 1) {
                at = end_of_digits(Radix::Decimal, v, at + 1);
            }
            assert(at == fraction_end(v@, whole as nat));
            let ghost fraction = at as nat;
            if at < len && (v[at] == 'e' || v[at] == 'E') {
                if digit_after(v, at, 1) {
                    at = end_of_digits(Radix::Decimal, v, at + 1);
                } else {
                    let sign: char = char_in(v, at, 1);
                    if (sign == '+' || sign == '-') && digit_after(v, at, 2) {
                        at = end_of_digits(Radix::Decimal, v, at + 2);
                    }
                }
            }
            assert(at == exponent_end(v@, fraction));
            lex_suffix(v, at, at > whole)
        },
    }
}

fn lex_step(v: &Vec<char>, i: usize) -> (r: Lexed)
    requires
        i < v@.len(),
    ensures
        r@ == lex_at(v@, i as nat),
{
    let len: usize = v.len();
    let c: char = v[i];
    let d: char = char_in(v, i, 1);
    let e: char = char_in(v, i, 2);
    if is_blank_char(c) {
        Lexed::Blank(i + 1)
    } else if c == '/' && d == '/' {
        Lexed::Token(TokenKind::LineComment, position_of_char(v, '\n', i))
    } else if c == '/' && d == '*' {
        match end_of_comment(v, i + 2) {
            Some(end) => Lexed::Token(TokenKind::BlockComment, end),
            None => Lexed::Error(LexErrorKind::UnterminatedBlockComment, len),
        }
    } else if c == '"' {
        match end_of_string(v, i + 1) {
            Some(end) => Lexed::Token(TokenKind::Str, end),
            None => Lexed::Error(LexErrorKind::UnterminatedString, i + 1),
        }
    } else if c == 'c' && d == '"' {
        match end_of_string(v, i + 2) {
            Some(end) => Lexed::Token(TokenKind::CStr, end),
            None => Lexed::Error(LexErrorKind::UnterminatedString, i + 2),
        }
    } else if '0' <= c && c <= '9' {
        lex_number(v, i)
    } else if is_name(c) {
        let end: usize = end_of_name(v, i);
        Lexed::Token(kind_of_word(text_of(v, i, end).as_str()), end)
    } else {
        match punct_of(c, d, e) {
            Some((k, n)) => if n <= len - i {
                Lexed::Token(k, i + n)
            } else {
                Lexed::Error(LexErrorKind::UnexpectedChar(c), i + 1)
            },
            None => Lexed::Error(LexErrorKind::UnexpectedChar(c), i + 1),
        }
    }
}

// ---------------------------------------------------------------------------
// The whole text.

pub open spec fn span_of(s: Seq<char>, from: nat, to: nat) -> Span {
    Span { start: byte_pos(s, from) as u32, end: byte_pos(s, to) as u32 }
}

pub open spec fn token_at(s: Seq<char>, kind: TokenKind, from: nat, to: nat) -> Token {
    Token { kind, span: span_of(s, from, to), start: from as usize, end: to as usize }
}

pub open spec fn is_comment(k: TokenKind) -> bool {
    k == TokenKind::LineComment || k == TokenKind::BlockComment
}

/// The tokens from position `i` on, with an end token last; comments only if asked for.
pub open spec fn tokens_from(acc: Seq<Token>, s: Seq<char>, comments: bool, i: nat) -> Result<Seq<Token>, LexErrorV>
    decreases s.len() - i,
{
    if i >= s.len() {
        Ok(acc.push(token_at(s, TokenKind::Eof, s.len(), s.len())))
    } else {
        proof {
            lexing_advances(s, i);
        }
        match lex_at(s, i) {
            LexedV::Blank(e) => tokens_from(acc, s, comments, e),
            LexedV::Token(k, e) => tokens_from(
                if comments || !is_comment(k) {
                    acc.push(token_at(s, k, i, e))
                } else {
                    acc
                },
                s,
                comments,
                e,
            ),
            LexedV::Error(k, e) => Err(LexErrorV { kind: k, span: span_of(s, i, e) }),
        }
    }
}

pub open spec fn tokens(s: Seq<char>, comments: bool) -> Result<Seq<Token>, LexErrorV> {
    tokens_from(Seq::empty(), s, comments, 0)
}

pub open spec fn lex_view(r: Result<Vec<Token>, LexError>) -> Result<Seq<Token>, LexErrorV> {
    match r {
        Ok(v) => Ok(v@),
        Err(e) => Err(e@),
    }
}

fn tokenize_text(src: &str, comments: bool) -> (r: Result<Vec<Token>, LexError>)
    ensures
        lex_view(r) == tokens(src@, comments),
{
    let v = chars_of(src);
    let at = byte_positions(src, &v);
    let n: usize = v.len();
    let mut out: Vec<Token> = Vec::new();
    let mut i: usize = 0;
    while i < n
        invariant
            i <= n,
            n == v@.len(),
            v@ == src@,
            at@.len() == n + 1,
            forall|k: int| 0 <= k <= n ==> #[trigger] at@[k] == byte_pos(v@, k as nat),
            tokens_from(out@, v@, comments, i as nat) == tokens(src@, comments),
        decreases n - i,
    {
        proof {
            lexing_advances(v@, i as nat);
        }
        match lex_step(&v, i) {
            Lexed::Blank(e) => {
                i = e;
            },
            Lexed::Token(kind, e) => {
                if comments || !(kind == TokenKind::LineComment || kind == TokenKind::BlockComment) {
                    out.push(Token { kind, span: Span { start: at[i] as u32, end: at[e] as u32 }, start: i, end: e });
                }
                i = e;
            },
            Lexed::Error(kind, e) => {
                return Err(LexError { kind, span: Span { start: at[i] as u32, end: at[e] as u32 } });
            },
        }
    }
    let end: u32 = at[n] as u32;
    out.push(Token { kind: TokenKind::Eof, span: Span { start: end, end }, start: n, end: n });
    Ok(out)
}

/// The tokens of a text, without comments.
pub fn tokenize(src: &str) -> (r: Result<Vec<Token>, LexError>)
    ensures
        lex_view(r) == tokens(src@, false),
{
    tokenize_text(src, false)
}

/// The tokens of a text, comments among them.
pub fn tokenize_with_trivia(src: &str) -> (r: Result<Vec<Token>, LexError>)
    ensures
        lex_view(r) == tokens(src@, true),
{
    tokenize_text(src, true)
}

// ---------------------------------------------------------------------------
// Where the tokens of a text lie.

/// The tokens lie in the text, one after the other.
pub open spec fn in_order(s: Seq<char>, ts: Seq<Token>) -> bool {
    &&& forall|i: int| 0 <= i < ts.len() ==> (#[trigger] ts[i]).start <= ts[i].end <= s.len()
    &&& forall|i: int, j: int| 0 <= i < j < ts.len() ==> (#[trigger] ts[i]).end <= (#[trigger] ts[j]).start
}

pub open spec fn all_blank(s: Seq<char>, from: int, to: int) -> bool {
    forall|k: int| from <= k < to ==> is_blank(#[trigger] s[k])
}

/// The position past the tokens before `i`.
pub open spec fn end_before(ts: Seq<Token>, i: int) -> int {
    if i <= 0 {
        0
    } else {
        ts[i - 1].end as int
    }
}

/// Only white space lies before each token.
pub open spec fn only_blanks_between(s: Seq<char>, ts: Seq<Token>) -> bool {
    forall|i: int| 0 <= i < ts.len() ==> all_blank(s, end_before(ts, i), (#[trigger] ts[i]).start as int)
}

/// The last token is the end token, and no other is.
pub open spec fn ends_the_text(s: Seq<char>, ts: Seq<Token>) -> bool {
    &&& ts.len() > 0
    &&& ts.last().kind == TokenKind::Eof
    &&& ts.last().start == s.len()
    &&& ts.last().end == s.len()
    &&& forall|i: int| 0 <= i < ts.len() - 1 ==> (#[trigger] ts[i]).kind != TokenKind::Eof
}

/// At `i` a token of this kind is read, which ends at `e`.
#[verifier::opaque]
pub open spec fn reads(s: Seq<char>, i: nat, k: TokenKind, e: nat) -> bool {
    i < s.len() && lex_at(s, i) == LexedV::Token(k, e)
}

pub open spec fn is_read(s: Seq<char>, t: Token) -> bool {
    t.kind != TokenKind::Eof ==> reads(s, t.start as nat, t.kind, t.end as nat)
}

/// Each token but the end token is what is read where it starts.
pub open spec fn each_is_read(s: Seq<char>, ts: Seq<Token>) -> bool {
    forall|i: int| 0 <= i < ts.len() ==> is_read(s, #[trigger] ts[i])
}

proof fn lemma_no_eof(s: Seq<char>, i: nat)
    requires
        i < s.len(),
    ensures
        lex_at(s, i) matches LexedV::Token(k, _) ==> k != TokenKind::Eof,
{
}

proof fn lemma_tokens_from(acc: Seq<Token>, s: Seq<char>, comments: bool, i: nat)
    requires
        i <= s.len() <= usize::MAX,
        in_order(s, acc),
        acc.len() > 0 ==> acc.last().end <= i,
        forall|k: int| 0 <= k < acc.len() ==> (#[trigger] acc[k]).kind != TokenKind::Eof,
        comments ==> only_blanks_between(s, acc) && all_blank(s, end_before(acc, acc.len() as int), i as int),
    ensures
        tokens_from(acc, s, comments, i) matches Ok(ts) ==> in_order(s, ts) && ends_the_text(s, ts) && (comments
            ==> only_blanks_between(s, ts)),
    decreases s.len() - i,
{
    if i >= s.len() {
        let t = token_at(s, TokenKind::Eof, s.len(), s.len());
        let ts = acc.push(t);
        assert forall|a: int, b: int| 0 <= a < b < ts.len() implies (#[trigger] ts[a]).end <= (#[trigger] ts[b]).start by {
            if b == acc.len() && a < acc.len() - 1 {
                assert(acc[a].end <= acc[acc.len() - 1].start);
            }
        }
        if comments {
            assert forall|k: int| 0 <= k < ts.len() implies all_blank(s, end_before(ts, k), (#[trigger] ts[k]).start as int) by {
                assert(end_before(ts, k) == end_before(acc, k));
                if k < acc.len() {
                    assert(ts[k] == acc[k]);
                }
            }
        }
    } else {
        lexing_advances(s, i);
        lemma_no_eof(s, i);
        match lex_at(s, i) {
            LexedV::Blank(e) => {
                lemma_tokens_from(acc, s, comments, e);
            },
            LexedV::Token(k, e) => {
                if comments || !is_comment(k) {
                    let t = token_at(s, k, i, e);
                    let next = acc.push(t);
                    assert(t.start == i && t.end == e);
                    assert forall|a: int, b: int| 0 <= a < b < next.len() implies (#[trigger] next[a]).end <= (
                    #[trigger] next[b]).start by {
                        if b == acc.len() && a < acc.len() - 1 {
                            assert(acc[a].end <= acc[acc.len() - 1].start);
                        }
                    }
                    if comments {
                        assert forall|m: int| 0 <= m < next.len() implies all_blank(
                            s,
                            end_before(next, m),
                            (#[trigger] next[m]).start as int,
                        ) by {
                            assert(end_before(next, m) == end_before(acc, m));
                            if m < acc.len() {
                                assert(next[m] == acc[m]);
                            }
                        }
                        assert(end_before(next, next.len() as int) == e);
                    }
                    lemma_tokens_from(next, s, comments, e);
                } else {
                    lemma_tokens_from(acc, s, comments, e);
                }
            },
            LexedV::Error(_, _) => {},
        }
    }
}

proof fn lemma_each_is_read(acc: Seq<Token>, s: Seq<char>, comments: bool, i: nat)
    requires
        i <= s.len() <= usize::MAX,
        each_is_read(s, acc),
    ensures
        tokens_from(acc, s, comments, i) matches Ok(ts) ==> each_is_read(s, ts),
    decreases s.len() - i,
{
    if i < s.len() {
        lexing_advances(s, i);
        let l = lex_at(s, i);
        match l {
            LexedV::Blank(e) => {
                lemma_each_is_read(acc, s, comments, e);
            },
            LexedV::Token(k, e) => {
                if comments || !is_comment(k) {
                    let t = token_at(s, k, i, e);
                    assert(t.start as nat == i && t.end as nat == e);
                    assert(is_read(s, t)) by {
                        reveal(reads);
                    }
                    lemma_each_is_read(acc.push(t), s, comments, e);
                } else {
                    lemma_each_is_read(acc, s, comments, e);
                }
            },
            LexedV::Error(_, _) => {},
        }
    }
}

/// The tokens of a text lie in it one after the other, each where it is read, with an end
/// token last.
pub proof fn tokens_are_in_order(s: Seq<char>, ts: Seq<Token>)
    requires
        s.len() <= usize::MAX,
        tokens(s, true) == Ok::<Seq<Token>, LexErrorV>(ts) || tokens(s, false) == Ok::<Seq<Token>, LexErrorV>(ts),
    ensures
        in_order(s, ts),
        each_is_read(s, ts),
        ends_the_text(s, ts),
{
    lemma_tokens_from(Seq::empty(), s, true, 0);
    lemma_tokens_from(Seq::empty(), s, false, 0);
    lemma_each_is_read(Seq::empty(), s, true, 0);
    lemma_each_is_read(Seq::empty(), s, false, 0);
}

/// With its comments, nothing but white space of a text lies outside its tokens.
pub proof fn tokens_cover_the_text(s: Seq<char>, ts: Seq<Token>)
    requires
        s.len() <= usize::MAX,
        tokens(s, true) == Ok::<Seq<Token>, LexErrorV>(ts),
    ensures
        only_blanks_between(s, ts),
{
    lemma_tokens_from(Seq::empty(), s, true, 0);
}

} // verus!
