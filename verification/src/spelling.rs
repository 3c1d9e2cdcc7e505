//! How tokens are written.
use vstd::prelude::*;
use crate::chars;
use crate::lexer;
use crate::errors::{LexErrorKindV, LexErrorV};
use crate::lexer::{Token, TokenKind};

verus! {

/// How an operator or a delimiter is written.
pub open spec fn sign(k: TokenKind) -> Option<Seq<char>> {
    match k {
        TokenKind::LParen => Some(seq!['(']),
        TokenKind::RParen => Some(seq![')']),
        TokenKind::LBracket => Some(seq!['[']),
        TokenKind::RBracket => Some(seq![']']),
        TokenKind::LBrace => Some(seq!['{']),
        TokenKind::RBrace => Some(seq!['}']),
        TokenKind::Comma => Some(seq![',']),
        TokenKind::Semi => Some(seq![';']),
        TokenKind::Colon => Some(seq![':']),
        TokenKind::Dot => Some(seq!['.']),
        TokenKind::Pound => Some(seq!['#']),
        TokenKind::Bang => Some(seq!['!']),
        TokenKind::Tilde => Some(seq!['~']),
        TokenKind::Plus => Some(seq!['+']),
        TokenKind::Minus => Some(seq!['-']),
        TokenKind::Star => Some(seq!['*']),
        TokenKind::Slash => Some(seq!['/']),
        TokenKind::Percent => Some(seq!['%']),
        TokenKind::Lt => Some(seq!['<']),
        TokenKind::Gt => Some(seq!['>']),
        TokenKind::Amp => Some(seq!['&']),
        TokenKind::Pipe => Some(seq!['|']),
        TokenKind::Caret => Some(seq!['^']),
        TokenKind::Eq => Some(seq!['=']),
        TokenKind::At => Some(seq!['@']),
        TokenKind::DotDot => Some(seq!['.', '.']),
        TokenKind::ColonColon => Some(seq![':', ':']),
        TokenKind::Arrow => Some(seq!['-', '>']),
        TokenKind::FatArrow => Some(seq!['=', '>']),
        TokenKind::EqEq => Some(seq!['=', '=']),
        TokenKind::BangEq => Some(seq!['!', '=']),
        TokenKind::Le => Some(seq!['<', '=']),
        TokenKind::Shl => Some(seq!['<', '<']),
        TokenKind::Ge => Some(seq!['>', '=']),
        TokenKind::Shr => Some(seq!['>', '>']),
        TokenKind::AmpAmp => Some(seq!['&', '&']),
        TokenKind::AmpEq => Some(seq!['&', '=']),
        TokenKind::PipePipe => Some(seq!['|', '|']),
        TokenKind::PipeEq => Some(seq!['|', '=']),
        TokenKind::CaretEq => Some(seq!['^', '=']),
        TokenKind::PlusEq => Some(seq!['+', '=']),
        TokenKind::PlusPercent => Some(seq!['+', '%']),
        TokenKind::MinusEq => Some(seq!['-', '=']),
        TokenKind::MinusPercent => Some(seq!['-', '%']),
        TokenKind::StarEq => Some(seq!['*', '=']),
        TokenKind::StarPercent => Some(seq!['*', '%']),
        TokenKind::SlashEq => Some(seq!['/', '=']),
        TokenKind::PercentEq => Some(seq!['%', '=']),
        TokenKind::DotDotEq => Some(seq!['.', '.', '=']),
        TokenKind::ShlEq => Some(seq!['<', '<', '=']),
        TokenKind::ShrEq => Some(seq!['>', '>', '=']),
        _ => None,
    }
}

/// How a keyword is written. The receiver has two spellings.
pub open spec fn is_word(k: TokenKind, w: Seq<char>) -> bool {
    match k {
        TokenKind::As => w == "as"@,
        TokenKind::Assert => w == "assert"@,
        TokenKind::Await => w == "await"@,
        TokenKind::Break => w == "break"@,
        TokenKind::Const => w == "const"@,
        TokenKind::Continue => w == "continue"@,
        TokenKind::Defer => w == "defer"@,
        TokenKind::Else => w == "else"@,
        TokenKind::Enum => w == "enum"@,
        TokenKind::False => w == "false"@,
        TokenKind::Fn => w == "fn"@,
        TokenKind::For => w == "for"@,
        TokenKind::Guard => w == "guard"@,
        TokenKind::If => w == "if"@,
        TokenKind::Impl => w == "impl"@,
        TokenKind::Import => w == "import"@,
        TokenKind::In => w == "in"@,
        TokenKind::Interface => w == "interface"@,
        TokenKind::Let => w == "let"@,
        TokenKind::Loop => w == "loop"@,
        TokenKind::Match => w == "match"@,
        TokenKind::Opaque => w == "opaque"@,
        TokenKind::Pub => w == "pub"@,
        TokenKind::Ref => w == "ref"@,
        TokenKind::Return => w == "return"@,
        TokenKind::Static => w == "static"@,
        TokenKind::Struct => w == "struct"@,
        TokenKind::Take => w == "take"@,
        TokenKind::True => w == "true"@,
        TokenKind::Type => w == "type"@,
        TokenKind::Var => w == "var"@,
        TokenKind::While => w == "while"@,
        TokenKind::Yield => w == "yield"@,
        TokenKind::SelfLower => w == "self"@ || w == "this"@,
        TokenKind::SelfUpper => w == "Self"@,
        _ => false,
    }
}

/// The text of the token.
pub open spec fn spelled(s: Seq<char>, t: Token) -> Seq<char> {
    s.subrange(t.start as int, t.end as int)
}

/// The tokens of the text, with or without its comments.
pub open spec fn are_tokens(s: Seq<char>, ts: Seq<Token>) -> bool {
    s.len() <= usize::MAX && (tokens_are(s, ts, true) || tokens_are(s, ts, false))
}

pub open spec fn tokens_are(s: Seq<char>, ts: Seq<Token>, comments: bool) -> bool {
    lexer::tokens(s, comments) == Ok::<Seq<Token>, LexErrorV>(ts)
}

/// The characters stand in the text at the position.
pub open spec fn stands(s: Seq<char>, i: int, w: Seq<char>) -> bool {
    i + w.len() <= s.len() && forall|k: int| 0 <= k < w.len() ==> #[trigger] s[i + k] == w[k]
}

proof fn lemma_read(s: Seq<char>, ts: Seq<Token>, i: int)
    requires
        are_tokens(s, ts),
        0 <= i < ts.len(),
        ts[i].kind != TokenKind::Eof,
    ensures
        ts[i].start < ts[i].end <= s.len(),
        lexer::lex_at(s, ts[i].start as nat) == lexer::LexedV::Token(ts[i].kind, ts[i].end as nat),
{
    lexer::tokens_are_in_order(s, ts);
    assert(lexer::is_read(s, ts[i]));
    reveal(lexer::reads);
    lexer::lexing_advances(s, ts[i].start as nat);
}

/// What reads as a sign is the sign.
proof fn lemma_sign(c: char, d: char, e: char)
    ensures
        match lexer::punct(c, d, e) {
            Some((k, n)) => match sign(k) {
                Some(w) => w.len() == n && 1 <= n <= 3 && w[0] == c && (n >= 2 ==> w[1] == d) && (n >= 3 ==> w[2] == e),
                None => false,
            },
            None => true,
        },
{
}

/// A sign that the characters start with is no longer than what they read as.
proof fn lemma_longest(c: char, d: char, e: char, k: TokenKind, w: Seq<char>)
    requires
        sign(k) == Some(w),
        w[0] == c,
        w.len() >= 2 ==> w[1] == d,
        w.len() >= 3 ==> w[2] == e,
    ensures
        lexer::punct(c, d, e) matches Some((_, n)) ==> w.len() <= n,
        k != TokenKind::At ==> lexer::punct(c, d, e) is Some,
{
}

proof fn lemma_other(s: Seq<char>, i: nat)
    requires
        i < s.len(),
    ensures
        lexer::lex_at(s, i) matches lexer::LexedV::Token(k, _) ==> sign(k) is Some ==> !lexer::is_blank(s[i as int])
            && lexer::lex_at(s, i) == {
            let p = lexer::punct(s[i as int], lexer::char_at(s, i + 1), lexer::char_at(s, i + 2));
            lexer::LexedV::Token(p->Some_0.0, i + p->Some_0.1)
        } && lexer::punct(s[i as int], lexer::char_at(s, i + 1), lexer::char_at(s, i + 2)) is Some,
{
}

/// Operators and delimiters are read as they are written.
pub proof fn signs_are_read_as_written(s: Seq<char>, ts: Seq<Token>, i: int, w: Seq<char>)
    requires
        are_tokens(s, ts),
        0 <= i < ts.len(),
        sign(ts[i].kind) == Some(w),
    ensures
        ts[i].end <= s.len(),
        spelled(s, ts[i]) == w,
{
    lemma_read(s, ts, i);
    let a = ts[i].start as nat;
    lemma_other(s, a);
    lemma_sign(s[a as int], lexer::char_at(s, a + 1), lexer::char_at(s, a + 2));
    assert(spelled(s, ts[i]) =~= w);
}

/// Where signs could be read in more than one way, the longest is read.
pub proof fn the_longest_sign_is_read(s: Seq<char>, ts: Seq<Token>, i: int, k: TokenKind, w: Seq<char>)
    requires
        are_tokens(s, ts),
        0 <= i < ts.len(),
        sign(ts[i].kind) is Some,
        sign(k) == Some(w),
        stands(s, ts[i].start as int, w),
    ensures
        w.len() <= ts[i].end - ts[i].start,
{
    lemma_read(s, ts, i);
    let a = ts[i].start as nat;
    lemma_other(s, a);
    assert(s[a as int + 0] == w[0]);
    if w.len() >= 2 {
        assert(s[a as int + 1] == w[1]);
    }
    if w.len() >= 3 {
        assert(s[a as int + 2] == w[2]);
    }
    lemma_longest(s[a as int], lexer::char_at(s, a + 1), lexer::char_at(s, a + 2), k, w);
}

/// The kind is that of a name or a keyword.
pub open spec fn is_wordlike(k: TokenKind) -> bool {
    k == TokenKind::Ident || exists|w: Seq<char>| is_word(k, w)
}

proof fn lemma_word(w: Seq<char>)
    ensures
        lexer::word_kind(w) == TokenKind::Ident || is_word(lexer::word_kind(w), w),
{
}

proof fn lemma_name(w: Seq<char>, k: TokenKind)
    requires
        lexer::word_kind(w) == TokenKind::Ident,
    ensures
        !is_word(k, w),
{
}

proof fn lemma_is_word(s: Seq<char>, i: nat, w: Seq<char>)
    requires
        i < s.len(),
    ensures
        lexer::lex_at(s, i) matches lexer::LexedV::Token(k, e) ==> (k == TokenKind::Ident || is_word(k, w)) ==> e == lexer::name_end(
            s,
            i,
        ) && k == lexer::word_kind(s.subrange(i as int, e as int)) && lexer::starts_name(s[i as int]),
{
}

proof fn lemma_whole(s: Seq<char>, i: nat)
    ensures
        forall|j: int| i <= j < lexer::name_end(s, i) ==> chars::is_name_char(#[trigger] s[j]),
        i <= lexer::name_end(s, i),
        lexer::name_end(s, i) < s.len() ==> !chars::is_name_char(s[lexer::name_end(s, i) as int]),
    decreases s.len() - i,
{
    if i < s.len() && chars::is_name_char(s[i as int]) {
        lemma_whole(s, i + 1);
    }
}

/// A keyword is read where, and only where, the whole word is one; every other word is a name.
pub proof fn words_are_read_whole(s: Seq<char>, ts: Seq<Token>, i: int, k: TokenKind)
    requires
        are_tokens(s, ts),
        0 <= i < ts.len(),
        is_wordlike(ts[i].kind),
    ensures
        ts[i].start < ts[i].end <= s.len(),
        ts[i].kind == TokenKind::Ident ==> !is_word(k, spelled(s, ts[i])),
        ts[i].kind != TokenKind::Ident ==> is_word(ts[i].kind, spelled(s, ts[i])),
        lexer::starts_name(s[ts[i].start as int]),
        forall|j: int| ts[i].start <= j < ts[i].end ==> chars::is_name_char(#[trigger] s[j]),
        ts[i].end < s.len() ==> !chars::is_name_char(s[ts[i].end as int]),
{
    lemma_read(s, ts, i);
    let a = ts[i].start as nat;
    if ts[i].kind == TokenKind::Ident {
        lemma_is_word(s, a, Seq::empty());
    } else {
        let w = choose|w: Seq<char>| is_word(ts[i].kind, w);
        lemma_is_word(s, a, w);
    }
    lemma_word(spelled(s, ts[i]));
    if ts[i].kind == TokenKind::Ident {
        lemma_name(spelled(s, ts[i]), k);
    }
    lemma_whole(s, a);
}

/// A line comment runs from its slashes to the end of its line.
pub proof fn line_comments_end_with_their_line(s: Seq<char>, ts: Seq<Token>, i: int)
    requires
        are_tokens(s, ts),
        0 <= i < ts.len(),
        ts[i].kind == TokenKind::LineComment,
    ensures
        ts[i].start + 2 <= ts[i].end <= s.len(),
        s[ts[i].start as int] == '/' && s[ts[i].start + 1] == '/',
        forall|j: int| ts[i].start <= j < ts[i].end ==> #[trigger] s[j] != '\n',
        ts[i].end < s.len() ==> s[ts[i].end as int] == '\n',
{
    lemma_read(s, ts, i);
    let a = ts[i].start as nat;
    chars::lemma_find_char(s, '\n', a);
    assert(s[a as int] == '/' && lexer::char_at(s, a + 1) == '/');
}

proof fn lemma_comment(s: Seq<char>, i: nat)
    ensures
        lexer::comment_end(s, i) matches Some(e) ==> i + 2 <= e <= s.len() && s[e - 2] == '*' && s[e - 1] == '/' && forall|j: int|
            i <= j < e - 2 ==> !(#[trigger] s[j] == '*' && s[j + 1] == '/'),
    decreases s.len() - i,
{
    if i + 1 < s.len() && !(s[i as int] == '*' && s[i as int + 1] == '/') {
        lemma_comment(s, i + 1);
    }
}

/// A block comment runs to the first `*/` behind its start.
pub proof fn block_comments_end_where_they_are_closed(s: Seq<char>, ts: Seq<Token>, i: int)
    requires
        are_tokens(s, ts),
        0 <= i < ts.len(),
        ts[i].kind == TokenKind::BlockComment,
    ensures
        ts[i].start + 4 <= ts[i].end <= s.len(),
        s[ts[i].start as int] == '/' && s[ts[i].start + 1] == '*',
        s[ts[i].end - 2] == '*' && s[ts[i].end - 1] == '/',
        forall|j: int| ts[i].start + 2 <= j < ts[i].end - 2 ==> !(#[trigger] s[j] == '*' && s[j + 1] == '/'),
{
    lemma_read(s, ts, i);
    let a = ts[i].start as nat;
    lemma_comment(s, a + 2);
    assert(s[a as int] == '/' && lexer::char_at(s, a + 1) == '*');
}

/// The backslashes that stand directly before the position, from `from` on.
pub open spec fn slashes(s: Seq<char>, from: int, i: int) -> nat
    decreases i - from,
{
    if i > from && s[i - 1] == '\\' {
        slashes(s, from, i - 1) + 1
    } else {
        0
    }
}

proof fn lemma_string(s: Seq<char>, from: int, i: nat)
    requires
        0 <= from <= i,
        slashes(s, from, i as int) % 2 == 0,
    ensures
        lexer::string_end(s, i) matches Some(e) ==> i < e <= s.len() && s[e - 1] == '"' && slashes(s, from, e - 1) % 2 == 0
            && forall|j: int| i <= j < e - 1 && #[trigger] s[j] == '"' ==> slashes(s, from, j) % 2 == 1,
    decreases s.len() - i,
{
    if i < s.len() && s[i as int] != '"' && s[i as int] != '\n' {
        if s[i as int] == '\\' {
            if i + 1 < s.len() {
                assert(slashes(s, from, i as int + 1) == slashes(s, from, i as int) + 1);
                if s[i as int + 1] == '\\' {
                    assert(slashes(s, from, i as int + 2) == slashes(s, from, i as int + 1) + 1);
                } else {
                    assert(slashes(s, from, i as int + 2) == 0);
                }
                lemma_string(s, from, i + 2);
                if let Some(e) = lexer::string_end(s, i) {
                    assert forall|j: int| i <= j < e - 1 && #[trigger] s[j] == '"' implies slashes(s, from, j) % 2 == 1 by {
                        if j == i + 1 {
                        }
                    }
                }
            }
        } else {
            assert(slashes(s, from, i as int + 1) == 0);
            lemma_string(s, from, i + 1);
        }
    }
}

/// A string runs from its quote to the first quote behind it that no backslash escapes.
pub proof fn strings_end_at_their_quote(s: Seq<char>, ts: Seq<Token>, i: int)
    requires
        are_tokens(s, ts),
        0 <= i < ts.len(),
        ts[i].kind == TokenKind::Str,
    ensures
        ts[i].start + 2 <= ts[i].end <= s.len(),
        s[ts[i].start as int] == '"' && s[ts[i].end - 1] == '"',
        slashes(s, ts[i].start + 1, ts[i].end - 1) % 2 == 0,
        forall|j: int|
            ts[i].start < j < ts[i].end - 1 && #[trigger] s[j] == '"' ==> slashes(s, ts[i].start + 1, j) % 2 == 1,
{
    lemma_read(s, ts, i);
    let a = ts[i].start as nat;
    lemma_string(s, a as int + 1, a + 1);
    assert(s[a as int] == '"');
}

// ---------------------------------------------------------------------------
// Texts that cannot be read.

/// No `*/` stands in the text from the position on.
pub open spec fn is_never_closed(s: Seq<char>, from: int) -> bool {
    forall|j: int| from <= j < s.len() - 1 ==> !(#[trigger] s[j] == '*' && s[j + 1] == '/')
}

/// Every quote from the position on, up to where the line ends, is escaped. A backslash takes the
/// character behind it along, the end of a line too.
pub open spec fn has_no_end(s: Seq<char>, from: int) -> bool {
    forall|j: int|
        from <= j < s.len() && #[trigger] s[j] == '"' && slashes(s, from, j) % 2 == 0 ==> exists|m: int|
            from <= m < j && #[trigger] s[m] == '\n' && slashes(s, from, m) % 2 == 0
}

/// Something stands at the position that gives the error.
pub open spec fn is_fault(s: Seq<char>, i: int, k: LexErrorKindV) -> bool {
    match k {
        LexErrorKindV::UnexpectedChar(c) => s[i] == c && !lexer::is_blank(c) && !lexer::starts_name(c) && !lexer::is_digit(c) && c
            != '"',
        LexErrorKindV::UnterminatedBlockComment => i + 1 < s.len() && s[i] == '/' && s[i + 1] == '*' && is_never_closed(s, i + 2),
        LexErrorKindV::UnterminatedString => (s[i] == '"' && has_no_end(s, i + 1)) || (i + 1 < s.len() && s[i] == 'c' && s[i + 1]
            == '"' && has_no_end(s, i + 2)),
        LexErrorKindV::InvalidNumber(w) => lexer::is_digit(s[i]) && stands(s, i, w),
        LexErrorKindV::InvalidNumSuffix(w) => lexer::is_digit(s[i]) && w.len() > 0 && exists|j: int| i < j && #[trigger] stands(s, j, w),
    }
}

proof fn lemma_never_closed(s: Seq<char>, i: nat)
    requires
        lexer::comment_end(s, i) is None,
    ensures
        is_never_closed(s, i as int),
    decreases s.len() - i,
{
    if i + 1 < s.len() {
        lemma_never_closed(s, i + 1);
    }
}

proof fn lemma_no_end(s: Seq<char>, from: int, i: nat)
    requires
        0 <= from <= i,
        slashes(s, from, i as int) % 2 == 0,
        lexer::string_end(s, i) is None,
    ensures
        forall|j: int|
            i <= j < s.len() && #[trigger] s[j] == '"' && slashes(s, from, j) % 2 == 0 ==> exists|m: int|
                from <= m < j && #[trigger] s[m] == '\n' && slashes(s, from, m) % 2 == 0,
    decreases s.len() - i,
{
    if i < s.len() {
        if s[i as int] == '\n' {
            assert forall|j: int| i <= j < s.len() && #[trigger] s[j] == '"' implies exists|m: int|
                from <= m < j && #[trigger] s[m] == '\n' && slashes(s, from, m) % 2 == 0 by {
                assert(s[i as int] == '\n');
            }
        } else if s[i as int] == '\\' {
            assert(slashes(s, from, i as int + 1) == slashes(s, from, i as int) + 1);
            if i + 1 < s.len() {
                if s[i as int + 1] == '\\' {
                    assert(slashes(s, from, i as int + 2) == slashes(s, from, i as int + 1) + 1);
                } else {
                    assert(slashes(s, from, i as int + 2) == 0);
                }
                lemma_no_end(s, from, i + 2);
                assert forall|j: int| i <= j < s.len() && #[trigger] s[j] == '"' && slashes(s, from, j) % 2 == 0 implies exists|m: int|
                    from <= m < j && #[trigger] s[m] == '\n' && slashes(s, from, m) % 2 == 0 by {
                    if j == i + 1 {
                        assert(slashes(s, from, j) % 2 == 1);
                    }
                }
            }
        } else {
            assert(slashes(s, from, i as int + 1) == 0);
            lemma_no_end(s, from, i + 1);
        }
    }
}

proof fn lemma_fault(s: Seq<char>, i: nat)
    requires
        i < s.len(),
    ensures
        lexer::lex_at(s, i) matches lexer::LexedV::Error(k, e) ==> is_fault(s, i as int, k),
{
    if let lexer::LexedV::Error(k, e) = lexer::lex_at(s, i) {
        match k {
            LexErrorKindV::UnexpectedChar(c) => {},
            LexErrorKindV::UnterminatedBlockComment => {
                assert(lexer::char_at(s, i + 1) == '*');
                lemma_never_closed(s, i + 2);
            },
            LexErrorKindV::UnterminatedString => {
                if s[i as int] == '"' {
                    lemma_no_end(s, i as int + 1, i + 1);
                } else {
                    assert(lexer::char_at(s, i + 1) == '"');
                    lemma_no_end(s, i as int + 2, i + 2);
                }
            },
            LexErrorKindV::InvalidNumber(w) => {
                lexer::lemma_name_end(s, i);
                assert(stands(s, i as int, s.subrange(i as int, lexer::name_end(s, i) as int)));
            },
            LexErrorKindV::InvalidNumSuffix(w) => {
                lemma_suffix(s, i, w);
            },
        }
    }
}

proof fn lemma_suffix(s: Seq<char>, i: nat, w: Seq<char>)
    requires
        i < s.len(),
        lexer::is_digit(s[i as int]),
        lexer::number_at(s, i) matches lexer::LexedV::Error(k, _) && k == LexErrorKindV::InvalidNumSuffix(w),
    ensures
        w.len() > 0 && exists|j: int| i < j && #[trigger] stands(s, j, w),
{
    lexer::lemma_digits_end(lexer::Radix::Decimal, s, i);
    lexer::lemma_digits_end(lexer::Radix::Decimal, s, i + 1);
    let whole = lexer::digits_end(lexer::Radix::Decimal, s, i);
    let d = match lexer::radix_prefix(s, i) {
        Some(r) => lexer::digits_end(r, s, i + 2),
        None => lexer::exponent_end(s, lexer::fraction_end(s, whole)),
    };
    if let Some(r) = lexer::radix_prefix(s, i) {
        lexer::lemma_digits_end(r, s, i + 2);
    } else {
        if lexer::char_at(s, whole) == '.' && lexer::is_digit(lexer::char_at(s, whole + 1)) {
            lexer::lemma_digits_end(lexer::Radix::Decimal, s, whole + 1);
        }
        let fraction = lexer::fraction_end(s, whole);
        if lexer::is_digit(lexer::char_at(s, fraction + 1)) {
            lexer::lemma_digits_end(lexer::Radix::Decimal, s, fraction + 1);
        }
        if lexer::is_digit(lexer::char_at(s, fraction + 2)) {
            lexer::lemma_digits_end(lexer::Radix::Decimal, s, fraction + 2);
        }
    }
    lexer::lemma_name_end(s, d);
    assert(w == s.subrange(d as int, lexer::name_end(s, d) as int));
    assert(stands(s, d as int, w));
}

proof fn lemma_refused(acc: Seq<Token>, s: Seq<char>, comments: bool, i: nat) -> (r: nat)
    requires
        lexer::tokens_from(acc, s, comments, i) is Err,
    ensures
        r < s.len(),
        is_fault(s, r as int, lexer::tokens_from(acc, s, comments, i)->Err_0.kind),
    decreases s.len() - i,
{
    lexer::lexing_advances(s, i);
    match lexer::lex_at(s, i) {
        lexer::LexedV::Blank(e) => lemma_refused(acc, s, comments, e),
        lexer::LexedV::Token(k, e) => lemma_refused(
            if comments || !lexer::is_comment(k) {
                acc.push(lexer::token_at(s, k, i, e))
            } else {
                acc
            },
            s,
            comments,
            e,
        ),
        lexer::LexedV::Error(k, e) => {
            lemma_fault(s, i);
            i
        },
    }
}

/// A text is refused only for what stands in it: a character that starts no token, a comment or a
/// string that is never closed, a number without digits, or a number with a word behind it.
pub proof fn texts_are_refused_for_a_fault(s: Seq<char>, comments: bool) -> (i: nat)
    requires
        lexer::tokens(s, comments) is Err,
    ensures
        i < s.len(),
        is_fault(s, i as int, lexer::tokens(s, comments)->Err_0.kind),
{
    lemma_refused(Seq::empty(), s, comments, 0)
}

} // verus!
