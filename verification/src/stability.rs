//! What formatting keeps: the tokens of a source, its line breaks, and its own results.
use vstd::prelude::*;
use crate::chars;
use crate::cutting;
use crate::fmt;
use crate::lexer;
use crate::errors::LexErrorV;
use crate::fmt::{INDENT, PrinterV};
use crate::lexer::{Token, TokenKind};

verus! {

/// The printer after the first `i` tokens.
pub open spec fn upto(s: Seq<char>, ts: Seq<Token>, i: nat) -> PrinterV
    decreases i,
{
    if i == 0 {
        fmt::new_printer()
    } else {
        fmt::emitted(upto(s, ts, (i - 1) as nat), s, ts, (i - 1) as nat)
    }
}

/// Where token `i` starts in the printed text.
pub open spec fn spot(s: Seq<char>, ts: Seq<Token>, i: nat) -> nat {
    fmt::with_gap(upto(s, ts, i), s, ts, i).len()
}

/// Where the printed text of the first `i` tokens ends.
pub open spec fn printed_end(s: Seq<char>, ts: Seq<Token>, i: nat) -> nat {
    upto(s, ts, i).out.len()
}

pub open spec fn text_of_token(s: Seq<char>, t: Token) -> Seq<char> {
    s.subrange(t.start as int, t.end as int)
}

/// The number of tokens before the end token.
pub open spec fn token_count(ts: Seq<Token>) -> nat {
    (ts.len() - 1) as nat
}

/// The text of the tokens, before the end of the last line is settled.
pub open spec fn printed_text(s: Seq<char>, ts: Seq<Token>) -> Seq<char> {
    upto(s, ts, token_count(ts)).out
}

proof fn lemma_printed(s: Seq<char>, ts: Seq<Token>, i: nat)
    requires
        lexer::ends_the_text(s, ts),
        i < ts.len(),
    ensures
        fmt::printed(upto(s, ts, i), s, ts, i) == upto(s, ts, token_count(ts)),
    decreases ts.len() - i,
{
    if i + 1 < ts.len() {
        assert(ts[i as int].kind != TokenKind::Eof);
        lemma_printed(s, ts, i + 1);
    }
}

// ---------------------------------------------------------------------------
// The white space between two tokens.

/// `b` is `a` with white space behind it.
pub open spec fn grown(a: Seq<char>, b: Seq<char>) -> bool {
    &&& a.len() <= b.len()
    &&& forall|k: int| 0 <= k < a.len() ==> #[trigger] b[k] == a[k]
    &&& forall|k: int| a.len() <= k < b.len() ==> lexer::is_blank(#[trigger] b[k])
}

/// From `from` up to `to` there is only the one character.
pub open spec fn filled(s: Seq<char>, from: int, to: int, c: char) -> bool {
    forall|k: int| from <= k < to ==> #[trigger] s[k] == c
}

pub proof fn lemma_repeated(out: Seq<char>, t: Seq<char>, n: nat, c: char)
    requires
        filled(t, 0, t.len() as int, c),
    ensures
        out.len() <= fmt::repeated(out, t, n).len(),
        forall|k: int| 0 <= k < out.len() ==> #[trigger] fmt::repeated(out, t, n)[k] == out[k],
        filled(fmt::repeated(out, t, n), out.len() as int, fmt::repeated(out, t, n).len() as int, c),
        t.len() == 1 ==> fmt::repeated(out, t, n).len() == out.len() + n,
    decreases n,
{
    if n > 0 {
        lemma_repeated(out + t, t, (n - 1) as nat, c);
        let r = fmt::repeated(out, t, n);
        assert forall|k: int| 0 <= k < out.len() implies #[trigger] r[k] == out[k] by {
            assert((out + t)[k] == out[k]);
        }
        assert forall|k: int| out.len() <= k < r.len() implies #[trigger] r[k] == c by {
            if k < out.len() + t.len() {
                assert((out + t)[k] == t[k - out.len()]);
            }
        }
    }
}

pub proof fn lemma_kept_indent(out: Seq<char>, s: Seq<char>, i: int, to: int)
    requires
        0 <= i,
        to <= s.len(),
    ensures
        out.len() <= fmt::kept_indent(out, s, i, to).len(),
        forall|k: int| 0 <= k < out.len() ==> #[trigger] fmt::kept_indent(out, s, i, to)[k] == out[k],
        filled(fmt::kept_indent(out, s, i, to), out.len() as int, fmt::kept_indent(out, s, i, to).len() as int, ' '),
    decreases to - i,
{
    reveal_strlit("    ");
    if i < to && (s[i] == ' ' || s[i] == '\t') {
        let next = if s[i] == ' ' {
            out.push(' ')
        } else {
            out + INDENT@
        };
        lemma_kept_indent(next, s, i + 1, to);
        let r = fmt::kept_indent(out, s, i, to);
        assert forall|k: int| 0 <= k < out.len() implies #[trigger] r[k] == out[k] by {
            assert(next[k] == out[k]);
        }
        assert forall|k: int| out.len() <= k < r.len() implies #[trigger] r[k] == ' ' by {
            if k < next.len() {
                assert(next[k] == ' ');
            }
        }
    }
}

/// Blanks that are kept as they are.
pub proof fn lemma_kept_spaces(out: Seq<char>, s: Seq<char>, i: int, to: int)
    requires
        0 <= i <= to <= s.len(),
        filled(s, i, to, ' '),
    ensures
        fmt::kept_indent(out, s, i, to) == out + s.subrange(i, to),
    decreases to - i,
{
    if i < to {
        lemma_kept_spaces(out.push(' '), s, i + 1, to);
        assert(out.push(' ') + s.subrange(i + 1, to) =~= out + s.subrange(i, to));
    } else {
        assert(out + s.subrange(i, to) =~= out);
    }
}

spec fn is_gap_char(c: char) -> bool {
    c == ' ' || c == '\t'
}

proof fn lemma_kept_gap(out: Seq<char>, s: Seq<char>, i: int, to: int)
    requires
        0 <= i,
        to <= s.len(),
    ensures
        out.len() <= fmt::kept_gap(out, s, i, to).len(),
        forall|k: int| 0 <= k < out.len() ==> #[trigger] fmt::kept_gap(out, s, i, to)[k] == out[k],
        forall|k: int|
            out.len() <= k < fmt::kept_gap(out, s, i, to).len() ==> is_gap_char(#[trigger] fmt::kept_gap(out, s, i, to)[k]),
        i <= to && (forall|k: int| i <= k < to ==> is_gap_char(#[trigger] s[k])) ==> fmt::kept_gap(out, s, i, to) == out
            + s.subrange(i, to),
    decreases to - i,
{
    if i < to {
        let next = if s[i] == ' ' || s[i] == '\t' {
            out.push(s[i])
        } else {
            out
        };
        lemma_kept_gap(next, s, i + 1, to);
        let r = fmt::kept_gap(out, s, i, to);
        assert forall|k: int| 0 <= k < out.len() implies #[trigger] r[k] == out[k] by {
            assert(next[k] == out[k]);
        }
        assert forall|k: int| out.len() <= k < r.len() implies is_gap_char(#[trigger] r[k]) by {
            if k < next.len() {
                assert(next[k] == s[i]);
            }
        }
        if forall|k: int| i <= k < to ==> is_gap_char(#[trigger] s[k]) {
            assert(is_gap_char(s[i]));
            assert(out.push(s[i]) + s.subrange(i + 1, to) =~= out + s.subrange(i, to));
        }
    } else {
        assert(i <= to ==> out + s.subrange(i, to) =~= out);
    }
}

proof fn lemma_feeds_agree(a: Seq<char>, i: int, b: Seq<char>, j: int, n: nat)
    requires
        forall|k: int| 0 <= k < n ==> #[trigger] a[i + k] == b[j + k],
    ensures
        chars::feeds(a, i, i + n) == chars::feeds(b, j, j + n),
    decreases n,
{
    if n > 0 {
        lemma_feeds_agree(a, i, b, j, (n - 1) as nat);
        assert(a[i + (n - 1)] == b[j + (n - 1)]);
    }
}

proof fn lemma_no_feeds(a: Seq<char>, i: int, j: int)
    requires
        forall|k: int| i <= k < j ==> #[trigger] a[k] != '\n',
    ensures
        chars::feeds(a, i, j) == 0,
    decreases j - i,
{
    if i < j {
        lemma_no_feeds(a, i, j - 1);
    }
}

proof fn lemma_all_feeds(a: Seq<char>, i: int, j: int)
    requires
        i <= j,
        filled(a, i, j, '\n'),
    ensures
        chars::feeds(a, i, j) == j - i,
    decreases j - i,
{
    if i < j {
        lemma_all_feeds(a, i, j - 1);
    }
}

proof fn lemma_feeds_add(a: Seq<char>, i: int, m: int, j: int)
    requires
        i <= m <= j,
    ensures
        chars::feeds(a, i, j) == chars::feeds(a, i, m) + chars::feeds(a, m, j),
    decreases j - m,
{
    if m < j {
        lemma_feeds_add(a, i, m, j - 1);
    }
}

/// How many of the line feeds between two tokens are printed.
pub open spec fn kept_feeds(n: nat) -> nat {
    if n < 2 {
        n
    } else {
        2
    }
}

/// The white space before a token: line feeds and then spaces, or spaces and tabs.
pub open spec fn is_gap(out: Seq<char>, r: Seq<char>, m: nat) -> bool {
    &&& grown(out, r)
    &&& out.len() + m <= r.len()
    &&& filled(r, out.len() as int, (out.len() + m) as int, '\n')
    &&& forall|k: int| out.len() + m <= k < r.len() ==> #[trigger] r[k] == ' ' || (m == 0 && r[k] == '\t')
}

proof fn lemma_gap(p: PrinterV, s: Seq<char>, ts: Seq<Token>, i: nat)
    requires
        i < ts.len(),
        ts[i as int].start <= s.len(),
        p.prev is Some,
    ensures
        is_gap(p.out, fmt::with_gap(p, s, ts, i), kept_feeds(chars::feeds(s, p.prev_end as int, ts[i as int].start as int))),
{
    reveal(fmt::with_gap);
    reveal_strlit("\n");
    reveal_strlit("    ");
    let t = ts[i as int];
    let n = chars::feeds(s, p.prev_end as int, t.start as int);
    let r = fmt::with_gap(p, s, ts, i);
    if n > 0 {
        let m = kept_feeds(n);
        let fed = fmt::repeated(p.out, "\n"@, m);
        lemma_repeated(p.out, "\n"@, m, '\n');
        if fmt::starts_afresh(p.prev, t.kind) {
            lemma_repeated(fed, INDENT@, fmt::indent_of(p.brackets, t.kind), ' ');
        } else {
            chars::lemma_after_last(s, '\n', t.start as nat);
            lemma_kept_indent(fed, s, chars::after_last(s, '\n', t.start as nat) as int, t.start as int);
        }
        assert forall|k: int| 0 <= k < p.out.len() implies #[trigger] r[k] == p.out[k] by {
            assert(r[k] == fed[k]);
        }
        assert forall|k: int| p.out.len() <= k < p.out.len() + m implies #[trigger] r[k] == '\n' by {
            assert(r[k] == fed[k]);
        }
    } else if lexer::is_comment(t.kind) {
        lemma_kept_gap(p.out, s, p.prev_end as int, t.start as int);
    }
}

proof fn lemma_gap_feeds(out: Seq<char>, r: Seq<char>, m: nat)
    requires
        is_gap(out, r, m),
    ensures
        chars::feeds(r, out.len() as int, r.len() as int) == m,
{
    lemma_all_feeds(r, out.len() as int, (out.len() + m) as int);
    lemma_no_feeds(r, (out.len() + m) as int, r.len() as int);
    lemma_feeds_add(r, out.len() as int, (out.len() + m) as int, r.len() as int);
}

// ---------------------------------------------------------------------------
// Where the tokens are printed.

pub proof fn lemma_step(s: Seq<char>, ts: Seq<Token>, i: nat)
    requires
        lexer::in_order(s, ts),
        lexer::ends_the_text(s, ts),
        i < token_count(ts),
    ensures
        upto(s, ts, i + 1).prev == Some(ts[i as int].kind),
        upto(s, ts, i + 1).prev_end == ts[i as int].end,
        upto(s, ts, i + 1).out == fmt::with_gap(upto(s, ts, i), s, ts, i) + text_of_token(s, ts[i as int]),
        printed_end(s, ts, i + 1) == spot(s, ts, i) + (ts[i as int].end - ts[i as int].start),
        i == 0 ==> spot(s, ts, i) == 0,
        i > 0 ==> is_gap(
            upto(s, ts, i).out,
            fmt::with_gap(upto(s, ts, i), s, ts, i),
            kept_feeds(chars::feeds(s, ts[i - 1].end as int, ts[i as int].start as int)),
        ),
        printed_end(s, ts, i) <= spot(s, ts, i) <= printed_end(s, ts, i + 1),
{
    reveal(fmt::with_gap);
    if i > 0 {
        assert(upto(s, ts, i) == fmt::emitted(upto(s, ts, (i - 1) as nat), s, ts, (i - 1) as nat));
        lemma_gap(upto(s, ts, i), s, ts, i);
    }
}

/// What is printed stays.
proof fn lemma_prefix(s: Seq<char>, ts: Seq<Token>, i: nat, j: nat)
    requires
        lexer::in_order(s, ts),
        lexer::ends_the_text(s, ts),
        i <= j <= token_count(ts),
    ensures
        printed_end(s, ts, i) <= printed_end(s, ts, j),
        forall|k: int| 0 <= k < printed_end(s, ts, i) ==> #[trigger] upto(s, ts, j).out[k] == upto(s, ts, i).out[k],
    decreases j - i,
{
    if i < j {
        let h = (j - 1) as nat;
        lemma_prefix(s, ts, i, h);
        lemma_step(s, ts, h);
        let g = fmt::with_gap(upto(s, ts, h), s, ts, h);
        assert forall|k: int| 0 <= k < printed_end(s, ts, i) implies #[trigger] upto(s, ts, j).out[k] == upto(
            s,
            ts,
            i,
        ).out[k] by {
            assert(g[k] == upto(s, ts, h).out[k]);
            assert(upto(s, ts, j).out[k] == g[k]);
        }
    }
}

/// Token `i` is printed at its spot, with its text, and only white space stands between it and
/// the token before, with the line feeds that stood there, up to two.
pub open spec fn is_printed(s: Seq<char>, ts: Seq<Token>, o: Seq<char>, i: nat) -> bool {
    &&& printed_end(s, ts, i) <= spot(s, ts, i)
    &&& printed_end(s, ts, i + 1) == spot(s, ts, i) + (ts[i as int].end - ts[i as int].start) <= o.len()
    &&& o.subrange(spot(s, ts, i) as int, printed_end(s, ts, i + 1) as int) == text_of_token(s, ts[i as int])
    &&& lexer::all_blank(o, printed_end(s, ts, i) as int, spot(s, ts, i) as int)
    &&& i == 0 ==> spot(s, ts, i) == 0
    &&& i > 0 ==> chars::feeds(o, printed_end(s, ts, i) as int, spot(s, ts, i) as int) == kept_feeds(
        chars::feeds(s, ts[i - 1].end as int, ts[i as int].start as int),
    )
}

proof fn lemma_is_printed(s: Seq<char>, ts: Seq<Token>, i: nat)
    requires
        lexer::in_order(s, ts),
        lexer::ends_the_text(s, ts),
        i < token_count(ts),
    ensures
        is_printed(s, ts, printed_text(s, ts), i),
{
    let o = printed_text(s, ts);
    let g = fmt::with_gap(upto(s, ts, i), s, ts, i);
    let u = upto(s, ts, i + 1).out;
    lemma_step(s, ts, i);
    lemma_prefix(s, ts, i + 1, token_count(ts));
    assert(o.subrange(spot(s, ts, i) as int, printed_end(s, ts, i + 1) as int) =~= text_of_token(s, ts[i as int])) by {
        assert forall|k: int| 0 <= k < ts[i as int].end - ts[i as int].start implies o[spot(s, ts, i) + k]
            == text_of_token(s, ts[i as int])[k] by {
            assert(o[spot(s, ts, i) + k] == u[spot(s, ts, i) + k]);
        }
    }
    assert forall|k: int| 0 <= k < g.len() implies o[k] == #[trigger] g[k] by {
        assert(o[k] == u[k]);
    }
    if i > 0 {
        let m = kept_feeds(chars::feeds(s, ts[i - 1].end as int, ts[i as int].start as int));
        let n = (g.len() - printed_end(s, ts, i)) as nat;
        lemma_gap_feeds(upto(s, ts, i).out, g, m);
        assert forall|k: int| 0 <= k < n implies #[trigger] g[printed_end(s, ts, i) + k] == o[printed_end(s, ts, i)
            + k] by {}
        lemma_feeds_agree(g, printed_end(s, ts, i) as int, o, printed_end(s, ts, i) as int, n);
        assert forall|k: int| printed_end(s, ts, i) <= k < spot(s, ts, i) implies lexer::is_blank(#[trigger] o[k]) by {
            assert(o[k] == g[k]);
        }
    }
}

/// Formatting changes only the white space between tokens: every token is printed in order with
/// its own text, with nothing but white space in between, and with the line breaks that the
/// source has there, one blank line at most. Only the end of the last line is settled after.
pub proof fn tokens_are_printed_in_order(s: Seq<char>, ts: Seq<Token>)
    requires
        s.len() <= usize::MAX,
        lexer::tokens(s, true) == Ok::<Seq<Token>, LexErrorV>(ts),
    ensures
        fmt::formatted(s) == Ok::<Seq<char>, LexErrorV>(fmt::finished(printed_text(s, ts))),
        forall|i: nat| i < token_count(ts) ==> #[trigger] is_printed(s, ts, printed_text(s, ts), i),
{
    lexer::tokens_are_in_order(s, ts);
    lemma_printed(s, ts, 0);
    assert forall|i: nat| i < token_count(ts) implies #[trigger] is_printed(s, ts, printed_text(s, ts), i) by {
        lemma_is_printed(s, ts, i);
    }
}

proof fn lemma_without_end_blanks(out: Seq<char>)
    ensures
        fmt::without_end_blanks(out).len() <= out.len(),
        fmt::without_end_blanks(out) == out.take(fmt::without_end_blanks(out).len() as int),
        !fmt::ends_blank(fmt::without_end_blanks(out)),
        forall|k: int| fmt::without_end_blanks(out).len() <= k < out.len() ==> is_gap_char(#[trigger] out[k]),
    decreases out.len(),
{
    if fmt::ends_blank(out) {
        let shorter = out.drop_last();
        lemma_without_end_blanks(shorter);
        let n = fmt::without_end_blanks(out).len() as int;
        assert(shorter.take(n) =~= out.take(n));
        assert forall|k: int| n <= k < out.len() implies is_gap_char(#[trigger] out[k]) by {
            if k < shorter.len() {
                assert(shorter[k] == out[k]);
            }
        }
    } else {
        assert(out.take(out.len() as int) =~= out);
    }
}

proof fn lemma_with_one_feed(out: Seq<char>)
    requires
        out.len() > 0,
        out.last() == '\n',
    ensures
        fmt::with_one_feed(out).len() > 0,
        fmt::with_one_feed(out).last() == '\n',
        fmt::with_one_feed(out).len() > 1 ==> fmt::with_one_feed(out)[fmt::with_one_feed(out).len() - 2] != '\n',
    decreases out.len(),
{
    if out.len() >= 2 && out[out.len() - 2] == '\n' {
        lemma_with_one_feed(out.drop_last());
    }
}

/// A formatted source ends with a line feed, and not with an empty line.
pub proof fn formatted_ends_with_one_feed(s: Seq<char>, f: Seq<char>)
    requires
        fmt::formatted(s) == Ok::<Seq<char>, LexErrorV>(f),
    ensures
        f.len() > 0,
        f.last() == '\n',
        f.len() > 1 ==> f[f.len() - 2] != '\n',
{
    let ts = lexer::tokens(s, true)->Ok_0;
    let a = fmt::without_end_blanks(fmt::printed(fmt::new_printer(), s, ts, 0).out);
    lemma_with_one_feed(fmt::with_feed(a));
}

// ---------------------------------------------------------------------------
// The tokens of the formatted text.

/// Kinds of words and numbers.
pub open spec fn is_wordlike(k: TokenKind) -> bool {
    match k {
        TokenKind::Ident | TokenKind::Int | TokenKind::Float | TokenKind::CStr => true,
        TokenKind::As | TokenKind::Assert | TokenKind::Await | TokenKind::Break | TokenKind::Const => true,
        TokenKind::Continue | TokenKind::Defer | TokenKind::Else | TokenKind::Enum | TokenKind::False => true,
        TokenKind::Fn | TokenKind::For | TokenKind::Guard | TokenKind::If | TokenKind::Impl => true,
        TokenKind::Import | TokenKind::In | TokenKind::Interface | TokenKind::Let | TokenKind::Loop => true,
        TokenKind::Match | TokenKind::Opaque | TokenKind::Pub | TokenKind::Ref | TokenKind::Return => true,
        TokenKind::SelfLower | TokenKind::SelfUpper | TokenKind::Static | TokenKind::Struct => true,
        TokenKind::Take | TokenKind::True | TokenKind::Type | TokenKind::Var | TokenKind::While => true,
        TokenKind::Yield => true,
        _ => false,
    }
}

pub open spec fn is_number(k: TokenKind) -> bool {
    k == TokenKind::Int || k == TokenKind::Float
}

spec fn starts_with_eq(k: TokenKind) -> bool {
    k == TokenKind::Eq || k == TokenKind::EqEq || k == TokenKind::FatArrow
}

/// What the first character says of a token.
spec fn opens(c: char, k: TokenKind) -> bool {
    &&& chars::is_name_char(c) <==> is_wordlike(k)
    &&& lexer::is_digit(c) ==> is_number(k)
    &&& is_number(k) ==> lexer::is_digit(c)
    &&& c == '"' ==> k == TokenKind::Str
    &&& c == '.' ==> k == TokenKind::Dot || k == TokenKind::DotDot || k == TokenKind::DotDotEq
    &&& c == '=' ==> starts_with_eq(k)
    &&& c == ':' ==> k == TokenKind::Colon || k == TokenKind::ColonColon
    &&& c == '|' ==> k == TokenKind::Pipe || k == TokenKind::PipePipe || k == TokenKind::PipeEq
    &&& c == '%' ==> k == TokenKind::Percent || k == TokenKind::PercentEq
    &&& c == '>' ==> k == TokenKind::Gt || k == TokenKind::Ge || k == TokenKind::Shr || k == TokenKind::ShrEq
    &&& c == '<' ==> k == TokenKind::Lt || k == TokenKind::Le || k == TokenKind::Shl || k == TokenKind::ShlEq
    &&& c == '&' ==> k == TokenKind::Amp || k == TokenKind::AmpAmp || k == TokenKind::AmpEq
    &&& c == '/' ==> k == TokenKind::Slash || k == TokenKind::SlashEq || lexer::is_comment(k)
    &&& c == '*' ==> k == TokenKind::Star || k == TokenKind::StarEq || k == TokenKind::StarPercent
}

proof fn lemma_word_kinds(w: Seq<char>)
    ensures
        is_wordlike(lexer::word_kind(w)),
        !is_number(lexer::word_kind(w)),
{
}

proof fn lemma_punct_opens(c: char, d: char, e: char)
    requires
        !chars::is_name_char(c),
        c != '"',
    ensures
        lexer::punct(c, d, e) matches Some((k, _)) ==> opens(c, k) && !lexer::is_comment(k) && (k == TokenKind::DotDot || k
            == TokenKind::DotDotEq ==> d == '.') && (k == TokenKind::At ==> lexer::starts_name(d)),
{
}

proof fn lemma_opens(s: Seq<char>, i: nat, e: nat, k: TokenKind)
    requires
        lexer::reads(s, i, k, e),
    ensures
        opens(s[i as int], k),
        k == TokenKind::DotDot || k == TokenKind::DotDotEq ==> i + 2 <= e && s[i as int + 1] == '.',
        k == TokenKind::At ==> e == i + 1 && lexer::starts_name(lexer::char_at(s, e)),
        k == TokenKind::Dot ==> e == i + 1,
{
    reveal(lexer::reads);
    lexer::lexing_advances(s, i);
    let c = s[i as int];
    let d = lexer::char_at(s, i + 1);
    if lexer::is_digit(c) {
    } else if lexer::starts_name(c) {
        lemma_word_kinds(s.subrange(i as int, e as int));
    } else if c != '"' && !(c == '/' && (d == '/' || d == '*')) {
        lemma_punct_opens(c, d, lexer::char_at(s, i + 2));
    }
}

/// A character that makes another token of an operator or delimiter when it follows directly.
spec fn extends(k: TokenKind, x: char) -> bool {
    match k {
        TokenKind::Dot => x == '.',
        TokenKind::DotDot => x == '=',
        TokenKind::Colon => x == ':',
        TokenKind::Minus => x == '>' || x == '=' || x == '%',
        TokenKind::Eq => x == '>' || x == '=',
        TokenKind::Bang => x == '=',
        TokenKind::Lt => x == '=' || x == '<',
        TokenKind::Gt => x == '=' || x == '>',
        TokenKind::Shl => x == '=',
        TokenKind::Shr => x == '=',
        TokenKind::Amp => x == '&' || x == '=',
        TokenKind::Pipe => x == '|' || x == '=',
        TokenKind::Caret => x == '=',
        TokenKind::Plus => x == '=' || x == '%',
        TokenKind::Star => x == '=' || x == '%',
        TokenKind::Slash => x == '=' || x == '/' || x == '*',
        TokenKind::Percent => x == '=',
        TokenKind::At => !lexer::starts_name(x),
        _ => false,
    }
}

proof fn lemma_punct_keeps(c: char, d: char, e: char, k: TokenKind, n: nat, x: char, y: char)
    requires
        lexer::punct(c, d, e) == Some((k, n)),
        !extends(k, x),
    ensures
        n == 1 ==> lexer::punct(c, x, y) == Some((k, n)) && !(c == '/' && (x == '/' || x == '*')),
        n == 2 ==> lexer::punct(c, d, x) == Some((k, n)) && (c == '/' ==> d == '='),
        n == 3 ==> c != '/',
        1 <= n <= 3,
{
}

proof fn lemma_ends(s: Seq<char>, i: nat, e: nat, k: TokenKind, x: char, y: char)
    requires
        lexer::reads(s, i, k, e),
        k == TokenKind::LineComment ==> x == '\n',
        is_wordlike(k) ==> !chars::is_name_char(x) && x != '"',
        is_number(k) ==> !(cutting::only_digits(s.subrange(i as int, e as int)) && x == '.' && lexer::is_digit(y)),
        !extends(k, x),
    ensures
        cutting::ends_before(k, s.subrange(i as int, e as int), x, y),
{
    reveal(lexer::reads);
    lexer::lexing_advances(s, i);
    lemma_opens(s, i, e, k);
    let w = s.subrange(i as int, e as int);
    let c = s[i as int];
    let d = lexer::char_at(s, i + 1);
    let f = lexer::char_at(s, i + 2);
    assert(w[0] == c);
    if i + 1 < e {
        assert(w[1] == d);
    }
    if i + 2 < e {
        assert(w[2] == f);
    }
    if !(c == '/' && (d == '/' || d == '*')) && c != '"' && !chars::is_name_char(c) {
        lemma_punct_keeps(c, d, f, k, (e - i) as nat, x, y);
    }
}

/// Two tokens that make another token when nothing stands between them.
pub open spec fn merges(a: TokenKind, b: TokenKind) -> bool {
    let eq = b == TokenKind::Eq || b == TokenKind::EqEq || b == TokenKind::FatArrow;
    match a {
        TokenKind::Dot => b == TokenKind::Dot || b == TokenKind::DotDot || b == TokenKind::DotDotEq,
        TokenKind::Colon => b == TokenKind::Colon || b == TokenKind::ColonColon,
        TokenKind::DotDot => eq,
        TokenKind::Bang => eq,
        TokenKind::Star => eq || b == TokenKind::Percent || b == TokenKind::PercentEq,
        TokenKind::Pipe => eq || b == TokenKind::Pipe || b == TokenKind::PipePipe || b == TokenKind::PipeEq,
        _ => false,
    }
}

/// Token `i` is printed directly behind the one before.
pub open spec fn is_joined(s: Seq<char>, ts: Seq<Token>, i: nat) -> bool {
    spot(s, ts, i) == printed_end(s, ts, i)
}

/// No tokens that lie apart in the source are printed so that they read as another token: no
/// two operators that make a longer one, and no point between two numbers.
pub open spec fn stays_apart(s: Seq<char>, ts: Seq<Token>) -> bool {
    forall|i: nat|
        0 < i < token_count(ts) && #[trigger] is_joined(s, ts, i) ==> {
            &&& !merges(ts[i - 1].kind, ts[i as int].kind)
            &&& is_number(ts[i - 1].kind) && cutting::only_digits(text_of_token(s, ts[i - 1])) && ts[i as int].kind
                == TokenKind::Dot && i + 1 < token_count(ts) && is_joined(s, ts, i + 1) ==> !is_number(
                ts[i as int + 1].kind,
            )
        }
}

/// Token `i` does not make another token together with its neighbours: it is not of a kind that
/// merges with the one before, and is no point between an integer and a number.
pub open spec fn is_plain_at(ts: Seq<Token>, i: int) -> bool {
    &&& !merges(ts[i - 1].kind, ts[i].kind)
    &&& !(ts[i - 1].kind == TokenKind::Int && ts[i].kind == TokenKind::Dot && i + 1 < ts.len() && is_number(ts[i + 1].kind))
}

/// No token makes another token together with its neighbours. This speaks of the kinds alone,
/// in the order in which they come: it leaves out texts such as `a ! = b` and `1 . 2`.
pub open spec fn has_plain_neighbours(ts: Seq<Token>) -> bool {
    forall|i: int| 0 < i < ts.len() ==> #[trigger] is_plain_at(ts, i)
}

proof fn lemma_bare_number(s: Seq<char>, ts: Seq<Token>, i: int)
    requires
        s.len() <= usize::MAX,
        lexer::tokens(s, true) == Ok::<Seq<Token>, LexErrorV>(ts),
        0 <= i < token_count(ts),
        is_number(ts[i].kind),
        cutting::only_digits(text_of_token(s, ts[i])),
    ensures
        ts[i].kind == TokenKind::Int,
{
    let t = ts[i];
    lexer::tokens_are_in_order(s, ts);
    cutting::tokens_have_solid_ends(s, t.start as nat, t.end as nat, t.kind);
    lemma_opens(s, t.start as nat, t.end as nat, t.kind);
    cutting::digits_alone_are_an_integer(s, t.start as nat, t.end as nat, t.kind);
}

/// Tokens with plain neighbours stay apart, wherever they are printed.
pub proof fn plain_neighbours_stay_apart(s: Seq<char>, ts: Seq<Token>)
    requires
        s.len() <= usize::MAX,
        lexer::tokens(s, true) == Ok::<Seq<Token>, LexErrorV>(ts),
        has_plain_neighbours(ts),
    ensures
        stays_apart(s, ts),
{
    assert(ts.len() > 0) by {
        lexer::tokens_are_in_order(s, ts);
    }
    assert forall|i: nat| 0 < i < token_count(ts) && #[trigger] is_joined(s, ts, i) implies {
        &&& !merges(ts[i - 1].kind, ts[i as int].kind)
        &&& is_number(ts[i - 1].kind) && cutting::only_digits(text_of_token(s, ts[i - 1])) && ts[i as int].kind
            == TokenKind::Dot && i + 1 < token_count(ts) && is_joined(s, ts, i + 1) ==> !is_number(ts[i as int + 1].kind)
    } by {
        assert(is_plain_at(ts, i as int));
        if is_number(ts[i - 1].kind) && cutting::only_digits(text_of_token(s, ts[i - 1])) {
            lemma_bare_number(s, ts, i - 1);
        }
    }
}

proof fn lemma_tight(before: Option<TokenKind>, a: TokenKind, b: TokenKind, x: char)
    requires
        !fmt::spaced_in_context(before, a, b),
        !lexer::is_comment(b),
        opens(x, b),
        !merges(a, b),
        a != TokenKind::At,
    ensures
        is_wordlike(a) ==> !chars::is_name_char(x) && x != '"',
        !extends(a, x),
{
}

/// The text ends with a token, and is closed by one line feed.
#[verifier::rlimit(30)]
proof fn lemma_finished(s: Seq<char>, ts: Seq<Token>)
    requires
        s.len() <= usize::MAX,
        lexer::tokens(s, true) == Ok::<Seq<Token>, LexErrorV>(ts),
    ensures
        fmt::finished(printed_text(s, ts)) == fmt::without_end_blanks(printed_text(s, ts)).push('\n'),
        !fmt::ends_blank(fmt::without_end_blanks(printed_text(s, ts))),
        token_count(ts) == 0 ==> printed_text(s, ts).len() == 0,
        token_count(ts) > 0 ==> spot(s, ts, (token_count(ts) - 1) as nat) < fmt::without_end_blanks(
            printed_text(s, ts),
        ).len(),
        token_count(ts) > 0 && ts[token_count(ts) - 1].kind != TokenKind::LineComment ==> fmt::without_end_blanks(
            printed_text(s, ts),
        ) == printed_text(s, ts),
        token_count(ts) > 0 && ts[token_count(ts) - 1].kind == TokenKind::LineComment ==> spot(
            s,
            ts,
            (token_count(ts) - 1) as nat,
        ) + 2 <= fmt::without_end_blanks(printed_text(s, ts)).len(),
        fmt::without_end_blanks(printed_text(s, ts)).len() > 0 ==> fmt::without_end_blanks(printed_text(s, ts)).last() != '\n',
{
    lexer::tokens_are_in_order(s, ts);
    let o = printed_text(s, ts);
    let w = fmt::without_end_blanks(o);
    let n = token_count(ts);
    lemma_without_end_blanks(o);
    if n > 0 {
        let i = (n - 1) as nat;
        let t = ts[i as int];
        let at = spot(s, ts, i);
        cutting::tokens_have_solid_ends(s, t.start as nat, t.end as nat, t.kind);
        lemma_step(s, ts, i);
        assert(forall|k: int| 0 <= k < t.end - t.start ==> #[trigger] o[at + k] == s[t.start + k]);
        assert(o[at as int + 0] == s[t.start + 0]);
        assert(o[at + (t.end - t.start - 1)] == s[t.start + (t.end - t.start - 1)]);
        if t.kind == TokenKind::LineComment {
            assert(o[at as int + 1] == s[t.start + 1]);
            assert(w.last() != '\n') by {
                let m = w.len() - 1;
                assert(w[m] == o[m]);
                assert(o[at + (m - at)] == s[t.start + (m - at)]);
            }
        }
    }
    assert(fmt::with_feed(w) == w.push('\n'));
    assert(fmt::with_one_feed(w.push('\n')) == w.push('\n'));
}

/// Where token `i` of the formatted text ends.
spec fn new_end(s: Seq<char>, ts: Seq<Token>, i: nat) -> nat {
    if i + 1 == token_count(ts) {
        fmt::without_end_blanks(printed_text(s, ts)).len()
    } else {
        printed_end(s, ts, i + 1)
    }
}

/// The formatted text starts with what is printed.
proof fn lemma_formatted_prefix(s: Seq<char>, ts: Seq<Token>, f: Seq<char>)
    requires
        s.len() <= usize::MAX,
        lexer::tokens(s, true) == Ok::<Seq<Token>, LexErrorV>(ts),
        f == fmt::finished(printed_text(s, ts)),
    ensures
        f.len() == fmt::without_end_blanks(printed_text(s, ts)).len() + 1,
        f.last() == '\n',
        forall|k: int| 0 <= k < f.len() - 1 ==> #[trigger] f[k] == printed_text(s, ts)[k],
        forall|i: nat| i < token_count(ts) ==> #[trigger] spot(s, ts, i) < f.len() - 1,
        forall|i: nat| i < token_count(ts) ==> spot(s, ts, i) < #[trigger] new_end(s, ts, i) < f.len(),
{
    let o = printed_text(s, ts);
    lemma_finished(s, ts);
    lemma_without_end_blanks(o);
    lexer::tokens_are_in_order(s, ts);
    let n = token_count(ts);
    if n > 0 {
        let last = (n - 1) as nat;
        assert forall|i: nat| i < n implies #[trigger] spot(s, ts, i) < f.len() - 1 && spot(s, ts, i) < new_end(s, ts, i)
            < f.len() by {
            let t = ts[i as int];
            cutting::tokens_have_solid_ends(s, t.start as nat, t.end as nat, t.kind);
            lemma_step(s, ts, i);
            lemma_step(s, ts, last);
            if i < last {
                lemma_prefix(s, ts, i + 1, last);
            }
        }
    }
}

/// What stands behind token `i` in the formatted text, if another token follows.
proof fn lemma_behind(s: Seq<char>, ts: Seq<Token>, f: Seq<char>, i: nat)
    requires
        s.len() <= usize::MAX,
        lexer::tokens(s, true) == Ok::<Seq<Token>, LexErrorV>(ts),
        f == fmt::finished(printed_text(s, ts)),
        i + 1 < token_count(ts),
    ensures
        new_end(s, ts, i) == printed_end(s, ts, i + 1) <= spot(s, ts, i + 1) < f.len() - 1,
        f[spot(s, ts, i + 1) as int] == s[ts[i as int + 1].start as int],
        spot(s, ts, i + 1) > new_end(s, ts, i) ==> lexer::is_blank(f[new_end(s, ts, i) as int]),
        chars::feeds(s, ts[i as int].end as int, ts[i as int + 1].start as int) > 0 ==> spot(s, ts, i + 1) > new_end(s, ts, i)
            && f[new_end(s, ts, i) as int] == '\n',
{
    let o = printed_text(s, ts);
    let u = ts[i as int + 1];
    let next = spot(s, ts, i + 1);
    let at = new_end(s, ts, i);
    lexer::tokens_are_in_order(s, ts);
    lemma_formatted_prefix(s, ts, f);
    cutting::tokens_have_solid_ends(s, u.start as nat, u.end as nat, u.kind);
    lemma_step(s, ts, i);
    lemma_step(s, ts, i + 1);
    lemma_is_printed(s, ts, i + 1);
    let g = fmt::with_gap(upto(s, ts, i + 1), s, ts, i + 1);
    assert(f[next as int] == o[next as int]);
    let v = o.subrange(next as int, printed_end(s, ts, i + 2) as int);
    assert(v[0] == o[next as int]);
    assert(v[0] == text_of_token(s, u)[0]);
    if next > at {
        assert(f[at as int] == o[at as int]);
        lemma_prefix(s, ts, i + 2, token_count(ts));
        assert(upto(s, ts, i + 2).out[at as int] == g[at as int]);
    }
}

/// A line comment ends with its line.
proof fn lemma_comment_breaks(s: Seq<char>, ts: Seq<Token>, i: nat)
    requires
        s.len() <= usize::MAX,
        lexer::tokens(s, true) == Ok::<Seq<Token>, LexErrorV>(ts),
        i + 1 < token_count(ts),
        ts[i as int].kind == TokenKind::LineComment,
    ensures
        chars::feeds(s, ts[i as int].end as int, ts[i as int + 1].start as int) > 0,
{
    let t = ts[i as int];
    let u = ts[i as int + 1];
    lexer::tokens_are_in_order(s, ts);
    cutting::tokens_have_solid_ends(s, t.start as nat, t.end as nat, t.kind);
    cutting::tokens_have_solid_ends(s, u.start as nat, u.end as nat, u.kind);
    assert(t.end <= u.start);
    assert(s[t.end as int] == '\n');
    lemma_feeds_add(s, t.end as int, t.end + 1, u.start as int);
    reveal_with_fuel(chars::feeds, 2);
}

/// A name stands directly behind an `@`, in the source and when printed.
proof fn lemma_at_joins(s: Seq<char>, ts: Seq<Token>, i: nat)
    requires
        s.len() <= usize::MAX,
        lexer::tokens(s, true) == Ok::<Seq<Token>, LexErrorV>(ts),
        i < token_count(ts),
        ts[i as int].kind == TokenKind::At,
    ensures
        i + 1 < token_count(ts),
        lexer::starts_name(s[ts[i as int + 1].start as int]),
        is_joined(s, ts, i + 1),
{
    let t = ts[i as int];
    let u = ts[i as int + 1];
    lexer::tokens_are_in_order(s, ts);
    lexer::tokens_cover_the_text(s, ts);
    cutting::tokens_have_solid_ends(s, t.start as nat, t.end as nat, t.kind);
    lemma_opens(s, t.start as nat, t.end as nat, t.kind);
    assert(lexer::all_blank(s, lexer::end_before(ts, i as int + 1), u.start as int));
    assert(t.end <= u.start);
    if u.start > t.end {
        assert(lexer::is_blank(s[t.end as int]));
    }
    assert(u.start < s.len());
    assert(u.kind != TokenKind::Eof);
    lemma_opens(s, u.start as nat, u.end as nat, u.kind);
    lemma_step(s, ts, i);
    assert(is_wordlike(u.kind));
    assert(!fmt::spaced_in_context(upto(s, ts, i + 1).prev_prev, t.kind, u.kind));
    assert(chars::feeds(s, t.end as int, u.start as int) == 0);
    reveal(fmt::with_gap);
}

/// Tokens that are printed without a gap, and that do not merge.
proof fn lemma_joined_pair(s: Seq<char>, ts: Seq<Token>, i: nat)
    requires
        s.len() <= usize::MAX,
        lexer::tokens(s, true) == Ok::<Seq<Token>, LexErrorV>(ts),
        i + 1 < token_count(ts),
        is_joined(s, ts, i + 1),
        !merges(ts[i as int].kind, ts[i as int + 1].kind),
        ts[i as int].kind != TokenKind::LineComment,
        ts[i as int].kind != TokenKind::At,
    ensures
        is_wordlike(ts[i as int].kind) ==> !chars::is_name_char(s[ts[i as int + 1].start as int]) && s[ts[i as int
            + 1].start as int] != '"',
        !extends(ts[i as int].kind, s[ts[i as int + 1].start as int]),
{
    let t = ts[i as int];
    let u = ts[i as int + 1];
    let p = upto(s, ts, i + 1);
    lexer::tokens_are_in_order(s, ts);
    cutting::tokens_have_solid_ends(s, t.start as nat, t.end as nat, t.kind);
    lemma_opens(s, u.start as nat, u.end as nat, u.kind);
    lemma_step(s, ts, i);
    lemma_step(s, ts, i + 1);
    assert(p.out.last() == s[t.end - 1]) by {
        assert(text_of_token(s, t).last() == s[t.end - 1]);
    }
    assert(!fmt::ends_blank(p.out));
    reveal(fmt::with_gap);
    lemma_kept_gap(p.out, s, p.prev_end as int, u.start as int);
    assert(chars::feeds(s, t.end as int, u.start as int) == 0);
    assert(!lexer::is_comment(u.kind));
    assert(!fmt::space_before(p, ts, i + 1, t.kind));
    if !fmt::spaced_in_context(p.prev_prev, t.kind, u.kind) {
        lemma_tight(p.prev_prev, t.kind, u.kind, s[u.start as int]);
    }
}

/// The characters behind token `i` in the formatted text end it.
proof fn lemma_token_ends(s: Seq<char>, ts: Seq<Token>, f: Seq<char>, i: nat)
    requires
        s.len() <= usize::MAX,
        lexer::tokens(s, true) == Ok::<Seq<Token>, LexErrorV>(ts),
        f == fmt::finished(printed_text(s, ts)),
        stays_apart(s, ts),
        i < token_count(ts),
    ensures
        ts[i as int].kind == TokenKind::LineComment ==> lexer::char_at(f, new_end(s, ts, i)) == '\n',
        ts[i as int].kind != TokenKind::LineComment ==> cutting::ends_before(
            ts[i as int].kind,
            text_of_token(s, ts[i as int]),
            lexer::char_at(f, new_end(s, ts, i)),
            lexer::char_at(f, new_end(s, ts, i) + 1),
        ),
{
    let n = token_count(ts);
    let t = ts[i as int];
    let at = new_end(s, ts, i);
    let x = lexer::char_at(f, at);
    let y = lexer::char_at(f, at + 1);
    lexer::tokens_are_in_order(s, ts);
    lemma_formatted_prefix(s, ts, f);
    if t.kind == TokenKind::At {
        lemma_at_joins(s, ts, i);
    }
    if i + 1 == n {
        assert(x == '\n');
    } else {
        lemma_behind(s, ts, f, i);
        if t.kind == TokenKind::LineComment {
            lemma_comment_breaks(s, ts, i);
        }
        if is_joined(s, ts, i + 1) && t.kind != TokenKind::At && t.kind != TokenKind::LineComment {
            lemma_joined_pair(s, ts, i);
            if is_number(t.kind) && cutting::only_digits(text_of_token(s, t)) && x == '.' {
                lemma_after_a_number(s, ts, f, i);
            }
        }
    }
    if t.kind != TokenKind::LineComment {
        lemma_ends(s, t.start as nat, t.end as nat, t.kind, x, y);
    }
}

/// No digit follows a point that is printed directly behind a number.
proof fn lemma_after_a_number(s: Seq<char>, ts: Seq<Token>, f: Seq<char>, i: nat)
    requires
        s.len() <= usize::MAX,
        lexer::tokens(s, true) == Ok::<Seq<Token>, LexErrorV>(ts),
        f == fmt::finished(printed_text(s, ts)),
        stays_apart(s, ts),
        i + 1 < token_count(ts),
        is_joined(s, ts, i + 1),
        is_number(ts[i as int].kind),
        cutting::only_digits(text_of_token(s, ts[i as int])),
        s[ts[i as int + 1].start as int] == '.',
    ensures
        !lexer::is_digit(lexer::char_at(f, new_end(s, ts, i) + 1)),
{
    let o = printed_text(s, ts);
    let n = token_count(ts);
    let u = ts[i as int + 1];
    let at = new_end(s, ts, i);
    lexer::tokens_are_in_order(s, ts);
    lemma_formatted_prefix(s, ts, f);
    cutting::tokens_have_solid_ends(s, u.start as nat, u.end as nat, u.kind);
    lemma_opens(s, u.start as nat, u.end as nat, u.kind);
    lemma_step(s, ts, i);
    lemma_step(s, ts, i + 1);
    lemma_is_printed(s, ts, i + 1);
    let v = o.subrange(at as int, printed_end(s, ts, i + 2) as int);
    if u.kind != TokenKind::Dot {
        assert(v[1] == o[at as int + 1]);
        assert(v[1] == text_of_token(s, u)[1]);
        lemma_finished(s, ts);
        if i + 2 < n {
            lemma_prefix(s, ts, i + 2, (n - 1) as nat);
            lemma_step(s, ts, (n - 1) as nat);
        }
        assert(f[at as int + 1] == o[at as int + 1]);
    } else {
        assert(printed_end(s, ts, i + 2) == at + 1);
        if i + 2 == n {
            lemma_finished(s, ts);
        } else {
            let w = ts[i as int + 2];
            let next = spot(s, ts, i + 2);
            cutting::tokens_have_solid_ends(s, w.start as nat, w.end as nat, w.kind);
            lemma_opens(s, w.start as nat, w.end as nat, w.kind);
            lemma_step(s, ts, i + 2);
            lemma_is_printed(s, ts, i + 2);
            assert(f[at as int + 1] == o[at as int + 1]);
            if next > at + 1 {
                assert(lexer::is_blank(o[at as int + 1]));
            } else {
                let z = o.subrange(next as int, printed_end(s, ts, i + 3) as int);
                assert(z[0] == o[next as int]);
                assert(z[0] == text_of_token(s, w)[0]);
                assert(is_joined(s, ts, i + 2));
            }
        }
    }
}

proof fn lemma_comment_is_read(f: Seq<char>, i: nat, e: nat)
    requires
        i + 2 <= e < f.len(),
        f[i as int] == '/',
        f[i as int + 1] == '/',
        f[e as int] == '\n',
        forall|k: int| i <= k < e ==> #[trigger] f[k] != '\n',
    ensures
        lexer::reads(f, i, TokenKind::LineComment, e),
{
    reveal(lexer::reads);
    chars::lemma_find_char(f, '\n', i);
}

/// The text of token `i` stands at its spot, up to blanks at the very end.
proof fn lemma_text_again(s: Seq<char>, ts: Seq<Token>, f: Seq<char>, i: nat)
    requires
        s.len() <= usize::MAX,
        lexer::tokens(s, true) == Ok::<Seq<Token>, LexErrorV>(ts),
        f == fmt::finished(printed_text(s, ts)),
        i < token_count(ts),
    ensures
        new_end(s, ts, i) <= spot(s, ts, i) + (ts[i as int].end - ts[i as int].start),
        ts[i as int].kind != TokenKind::LineComment ==> new_end(s, ts, i) == spot(s, ts, i) + (ts[i as int].end
            - ts[i as int].start),
        ts[i as int].kind == TokenKind::LineComment ==> spot(s, ts, i) + 2 <= new_end(s, ts, i),
        forall|k: int|
            spot(s, ts, i) <= k < new_end(s, ts, i) ==> #[trigger] f[k] == s[k - spot(s, ts, i) + ts[i as int].start],
{
    let o = printed_text(s, ts);
    let t = ts[i as int];
    let at = spot(s, ts, i);
    lexer::tokens_are_in_order(s, ts);
    cutting::tokens_have_solid_ends(s, t.start as nat, t.end as nat, t.kind);
    lemma_formatted_prefix(s, ts, f);
    lemma_finished(s, ts);
    lemma_step(s, ts, i);
    lemma_is_printed(s, ts, i);
    lemma_without_end_blanks(o);
    let v = o.subrange(at as int, printed_end(s, ts, i + 1) as int);
    assert forall|k: int| at <= k < new_end(s, ts, i) implies #[trigger] f[k] == s[k - at + t.start] by {
        assert(v[k - at] == text_of_token(s, t)[k - at]);
        assert(f[k] == o[k]);
    }
}

/// Token `i` is read again at its spot.
proof fn lemma_read_again(s: Seq<char>, ts: Seq<Token>, f: Seq<char>, i: nat)
    requires
        s.len() <= usize::MAX,
        lexer::tokens(s, true) == Ok::<Seq<Token>, LexErrorV>(ts),
        f == fmt::finished(printed_text(s, ts)),
        stays_apart(s, ts),
        i < token_count(ts),
    ensures
        lexer::reads(f, spot(s, ts, i), ts[i as int].kind, new_end(s, ts, i)),
{
    let t = ts[i as int];
    let at = spot(s, ts, i);
    let e = new_end(s, ts, i);
    lexer::tokens_are_in_order(s, ts);
    cutting::tokens_have_solid_ends(s, t.start as nat, t.end as nat, t.kind);
    lemma_formatted_prefix(s, ts, f);
    lemma_token_ends(s, ts, f, i);
    lemma_text_again(s, ts, f, i);
    if t.kind == TokenKind::LineComment {
        assert(f[at as int + 1] == s[t.start + 1]);
        lemma_comment_is_read(f, at, e);
    } else {
        assert(f.subrange(at as int, e as int) =~= text_of_token(s, t));
        cutting::reading_is_local(s, t.start as nat, t.end as nat, t.kind, f, at);
    }
}

/// Up to the spot of a token, the formatted text is what was printed so far.
pub proof fn lemma_before_spot(s: Seq<char>, ts: Seq<Token>, f: Seq<char>, i: nat)
    requires
        s.len() <= usize::MAX,
        lexer::tokens(s, true) == Ok::<Seq<Token>, LexErrorV>(ts),
        fmt::formatted(s) == Ok::<Seq<char>, LexErrorV>(f),
        i < token_count(ts),
    ensures
        spot(s, ts, i) < f.len(),
        forall|k: int| 0 <= k < spot(s, ts, i) ==> #[trigger] f[k] == fmt::with_gap(upto(s, ts, i), s, ts, i)[k],
{
    lexer::tokens_are_in_order(s, ts);
    tokens_are_printed_in_order(s, ts);
    lemma_formatted_prefix(s, ts, f);
    lemma_step(s, ts, i);
    lemma_prefix(s, ts, i + 1, token_count(ts));
    let g = fmt::with_gap(upto(s, ts, i), s, ts, i);
    assert forall|k: int| 0 <= k < g.len() implies #[trigger] f[k] == g[k] by {
        assert(upto(s, ts, i + 1).out[k] == g[k]);
        assert(f[k] == printed_text(s, ts)[k]);
    }
}

/// What is printed before token `i` ends with the last character of the token before.
pub proof fn lemma_solid_end(s: Seq<char>, ts: Seq<Token>, i: nat)
    requires
        s.len() <= usize::MAX,
        lexer::tokens(s, true) == Ok::<Seq<Token>, LexErrorV>(ts),
        0 < i < token_count(ts),
        ts[i - 1].kind != TokenKind::LineComment,
    ensures
        upto(s, ts, i).out.len() > 0,
        !fmt::ends_blank(upto(s, ts, i).out),
{
    let t = ts[i - 1];
    lexer::tokens_are_in_order(s, ts);
    cutting::tokens_have_solid_ends(s, t.start as nat, t.end as nat, t.kind);
    lemma_step(s, ts, (i - 1) as nat);
    assert(upto(s, ts, i).out.last() == s[t.end - 1]) by {
        assert(text_of_token(s, t).last() == s[t.end - 1]);
    }
}

/// The tokens of the formatted text: those of the source, at their new places.
pub closed spec fn moved(s: Seq<char>, ts: Seq<Token>, f: Seq<char>) -> Seq<Token> {
    Seq::new(
        ts.len(),
        |i: int|
            if i < token_count(ts) {
                lexer::token_at(f, ts[i].kind, spot(s, ts, i as nat), new_end(s, ts, i as nat))
            } else {
                lexer::token_at(f, TokenKind::Eof, f.len(), f.len())
            },
    )
}

/// The tokens with those from `p` on.
#[verifier::opaque]
spec fn with_rest(acc: Seq<Token>, f: Seq<char>, p: nat) -> Result<Seq<Token>, LexErrorV> {
    lexer::tokens_from(acc, f, true, p)
}

proof fn lemma_skip_blanks(acc: Seq<Token>, f: Seq<char>, p: nat, q: nat)
    requires
        p <= q <= f.len(),
        lexer::all_blank(f, p as int, q as int),
    ensures
        with_rest(acc, f, p) == with_rest(acc, f, q),
    decreases q - p,
{
    reveal(with_rest);
    if p < q {
        assert(lexer::is_blank(f[p as int]));
        lemma_skip_blanks(acc, f, p + 1, q);
    }
}

proof fn lemma_take_token(acc: Seq<Token>, f: Seq<char>, p: nat, k: TokenKind, e: nat)
    requires
        lexer::reads(f, p, k, e),
    ensures
        with_rest(acc, f, p) == with_rest(acc.push(lexer::token_at(f, k, p, e)), f, e),
{
    reveal(lexer::reads);
    reveal(with_rest);
}

spec fn walk_start(s: Seq<char>, ts: Seq<Token>, i: nat) -> nat {
    if i == 0 {
        0
    } else {
        new_end(s, ts, (i - 1) as nat)
    }
}

#[verifier::rlimit(30)]
proof fn lemma_walk(s: Seq<char>, ts: Seq<Token>, f: Seq<char>, i: nat)
    requires
        s.len() <= usize::MAX,
        lexer::tokens(s, true) == Ok::<Seq<Token>, LexErrorV>(ts),
        f == fmt::finished(printed_text(s, ts)),
        stays_apart(s, ts),
        i <= token_count(ts),
    ensures
        with_rest(moved(s, ts, f).take(i as int), f, walk_start(s, ts, i)) == Ok::<Seq<Token>, LexErrorV>(
            moved(s, ts, f),
        ),
    decreases token_count(ts) - i,
{
    let n = token_count(ts);
    let m = moved(s, ts, f);
    let acc = m.take(i as int);
    let p = walk_start(s, ts, i);
    lexer::tokens_are_in_order(s, ts);
    lemma_formatted_prefix(s, ts, f);
    if i < n {
        lemma_walk(s, ts, f, i + 1);
        lemma_is_printed(s, ts, i);
        lemma_read_again(s, ts, f, i);
        let q = spot(s, ts, i);
        assert(p == printed_end(s, ts, i));
        assert(lexer::all_blank(f, p as int, q as int)) by {
            assert forall|k: int| p <= k < q implies lexer::is_blank(#[trigger] f[k]) by {
                assert(f[k] == printed_text(s, ts)[k]);
            }
        }
        lemma_skip_blanks(acc, f, p, q);
        lemma_take_token(acc, f, q, ts[i as int].kind, new_end(s, ts, i));
        assert(acc.push(m[i as int]) =~= m.take(i as int + 1));
    } else {
        assert(lexer::all_blank(f, p as int, f.len() as int)) by {
            if n > 0 {
                assert(p == f.len() - 1);
            } else {
                lemma_finished(s, ts);
                assert(f.len() == 1);
            }
        }
        lemma_skip_blanks(acc, f, p, f.len());
        reveal(with_rest);
        assert(acc.push(m[n as int]) =~= m);
    }
}

/// Token `i` of the second text is token `i` of the first; a comment that ends the source may
/// have lost blanks at its end.
pub open spec fn same_token(s: Seq<char>, ts: Seq<Token>, f: Seq<char>, us: Seq<Token>, i: int) -> bool {
    &&& us[i].kind == ts[i].kind
    &&& text_of_token(f, us[i]) == text_of_token(s, ts[i]) || (i + 2 == ts.len() && text_of_token(f, us[i])
        == fmt::without_end_blanks(text_of_token(s, ts[i])))
}

proof fn lemma_end_blanks_of_tail(a: Seq<char>, b: Seq<char>)
    requires
        fmt::without_end_blanks(a + b).len() > a.len(),
    ensures
        fmt::without_end_blanks(a + b) == a + fmt::without_end_blanks(b),
    decreases b.len(),
{
    lemma_without_end_blanks(a + b);
    if b.len() == 0 {
        assert(a + b =~= a);
    } else {
        assert((a + b).last() == b.last());
        if fmt::ends_blank(b) {
            assert((a + b).drop_last() =~= a + b.drop_last());
            lemma_end_blanks_of_tail(a, b.drop_last());
        }
    }
}

proof fn lemma_same_token(s: Seq<char>, ts: Seq<Token>, f: Seq<char>, i: nat)
    requires
        s.len() <= usize::MAX,
        lexer::tokens(s, true) == Ok::<Seq<Token>, LexErrorV>(ts),
        f == fmt::finished(printed_text(s, ts)),
        f.len() <= usize::MAX,
        i < token_count(ts),
    ensures
        same_token(s, ts, f, moved(s, ts, f), i as int),
{
    let o = printed_text(s, ts);
    let t = ts[i as int];
    let at = spot(s, ts, i);
    lexer::tokens_are_in_order(s, ts);
    lemma_formatted_prefix(s, ts, f);
    lemma_finished(s, ts);
    lemma_is_printed(s, ts, i);
    let v = o.subrange(at as int, printed_end(s, ts, i + 1) as int);
    let w = f.subrange(at as int, new_end(s, ts, i) as int);
    assert(text_of_token(f, moved(s, ts, f)[i as int]) == w);
    if i + 1 < token_count(ts) {
        lemma_step(s, ts, (token_count(ts) - 1) as nat);
        lemma_prefix(s, ts, i + 1, (token_count(ts) - 1) as nat);
        assert(w =~= v);
    } else {
        lemma_step(s, ts, i);
        let g = fmt::with_gap(upto(s, ts, i), s, ts, i);
        let text = text_of_token(s, t);
        assert(o == g + text);
        lemma_end_blanks_of_tail(g, text);
        assert(w =~= fmt::without_end_blanks(text)) by {
            assert forall|k: int| 0 <= k < w.len() implies w[k] == fmt::without_end_blanks(text)[k] by {
                assert(w[k] == f[at + k]);
                assert((g + fmt::without_end_blanks(text))[at + k] == fmt::without_end_blanks(text)[k]);
                assert(fmt::without_end_blanks(o)[at + k] == f[at + k]);
            }
        }
    }
}

/// Formatting keeps the tokens: the formatted text has the kinds and texts of the source's
/// tokens, in the same order.
pub proof fn formatting_keeps_the_tokens(s: Seq<char>, ts: Seq<Token>, f: Seq<char>)
    requires
        s.len() <= usize::MAX,
        lexer::tokens(s, true) == Ok::<Seq<Token>, LexErrorV>(ts),
        stays_apart(s, ts),
        fmt::formatted(s) == Ok::<Seq<char>, LexErrorV>(f),
        f.len() <= usize::MAX,
    ensures
        lexer::tokens(f, true) == Ok::<Seq<Token>, LexErrorV>(moved(s, ts, f)),
        moved(s, ts, f).len() == ts.len(),
        forall|i: int| 0 <= i < ts.len() - 1 ==> #[trigger] same_token(s, ts, f, moved(s, ts, f), i),
{
    tokens_are_printed_in_order(s, ts);
    lemma_walk(s, ts, f, 0);
    reveal(with_rest);
    assert(moved(s, ts, f).take(0) =~= Seq::<Token>::empty());
    assert forall|i: int| 0 <= i < ts.len() - 1 implies #[trigger] same_token(s, ts, f, moved(s, ts, f), i) by {
        lemma_same_token(s, ts, f, i as nat);
    }
}

// ---------------------------------------------------------------------------
// Formatting again.

/// The printer on the formatted text, in step with the printer on the source.
spec fn again(p: PrinterV) -> PrinterV {
    PrinterV { prev_end: p.out.len(), ..p }
}

proof fn lemma_after_feeds(f: Seq<char>, a: nat, i: nat)
    requires
        0 < a <= i <= f.len(),
        f[a - 1] == '\n',
        forall|k: int| a <= k < i ==> #[trigger] f[k] != '\n',
    ensures
        chars::after_last(f, '\n', i) == a,
    decreases i - a,
{
    if a < i {
        assert(f[i - 1] != '\n');
        lemma_after_feeds(f, a, (i - 1) as nat);
    }
}

proof fn lemma_same_kinds_before(ts: Seq<Token>, us: Seq<Token>, i: nat)
    requires
        ts.len() == us.len(),
        i <= ts.len(),
        forall|k: int| 0 <= k < ts.len() ==> (#[trigger] us[k]).kind == ts[k].kind,
    ensures
        fmt::code_before(us, i) == fmt::code_before(ts, i),
    decreases i,
{
    if i > 0 {
        assert(us[i - 1].kind == ts[i - 1].kind);
        lemma_same_kinds_before(ts, us, (i - 1) as nat);
    }
}

proof fn lemma_same_kinds_from(ts: Seq<Token>, us: Seq<Token>, i: nat)
    requires
        ts.len() == us.len(),
        forall|k: int| 0 <= k < ts.len() ==> (#[trigger] us[k]).kind == ts[k].kind,
    ensures
        fmt::code_from(us, i) == fmt::code_from(ts, i),
    decreases ts.len() - i,
{
    if i < ts.len() {
        assert(us[i as int].kind == ts[i as int].kind);
        lemma_same_kinds_from(ts, us, i + 1);
    }
}

/// The gap that is printed is printed again.
proof fn lemma_gap_again(p: PrinterV, s: Seq<char>, ts: Seq<Token>, f: Seq<char>, us: Seq<Token>, i: nat)
    requires
        0 < i < ts.len(),
        ts.len() == us.len(),
        forall|k: int| 0 <= k < ts.len() ==> (#[trigger] us[k]).kind == ts[k].kind,
        ts[i as int].start <= s.len(),
        p.prev is Some,
        us[i as int].start == fmt::with_gap(p, s, ts, i).len() <= f.len(),
        forall|k: int| 0 <= k < fmt::with_gap(p, s, ts, i).len() ==> #[trigger] f[k] == fmt::with_gap(p, s, ts, i)[k],
    ensures
        fmt::with_gap(again(p), f, us, i) == fmt::with_gap(p, s, ts, i),
{
    let g = fmt::with_gap(p, s, ts, i);
    let n = chars::feeds(s, p.prev_end as int, ts[i as int].start as int);
    let m = kept_feeds(n);
    let a = p.out.len();
    let k = ts[i as int].kind;
    lemma_gap(p, s, ts, i);
    lemma_gap_feeds(p.out, g, m);
    assert forall|h: int| 0 <= h < g.len() - a implies #[trigger] f[a + h] == g[a + h] by {}
    lemma_feeds_agree(f, a as int, g, a as int, (g.len() - a) as nat);
    assert(chars::feeds(f, a as int, g.len() as int) == m);
    assert(us[i as int].kind == k);
    reveal(fmt::with_gap);
    reveal_strlit("\n");
    if n > 0 {
        let fed = fmt::repeated(p.out, "\n"@, m);
        lemma_repeated(p.out, "\n"@, m, '\n');
        if !fmt::starts_afresh(p.prev, k) {
            lemma_after_feeds(f, a + m, g.len());
            assert(filled(f, (a + m) as int, g.len() as int, ' '));
            lemma_kept_spaces(fed, f, (a + m) as int, g.len() as int);
            assert(fed + f.subrange((a + m) as int, g.len() as int) =~= g) by {
                chars::lemma_after_last(s, '\n', ts[i as int].start as nat);
                lemma_kept_indent(
                    fed,
                    s,
                    chars::after_last(s, '\n', ts[i as int].start as nat) as int,
                    ts[i as int].start as int,
                );
            }
        }
    } else if lexer::is_comment(k) {
        lemma_kept_gap(p.out, s, p.prev_end as int, ts[i as int].start as int);
        lemma_kept_gap(p.out, f, a as int, g.len() as int);
        assert forall|h: int| a <= h < g.len() implies is_gap_char(#[trigger] f[h]) by {
            assert(f[h] == g[h]);
        }
        assert(p.out + f.subrange(a as int, g.len() as int) =~= g);
    } else {
        lemma_same_kinds_before(ts, us, i);
        lemma_same_kinds_from(ts, us, i + 1);
        lemma_same_kinds_before(ts, us, (i - 1) as nat);
        lemma_same_kinds_from(ts, us, i);
        let prev = p.prev->Some_0;
        assert(fmt::space_before(again(p), us, i, prev) == fmt::space_before(p, ts, i, prev));
    }
}

/// Facts about the moved tokens.
proof fn lemma_moved(s: Seq<char>, ts: Seq<Token>, f: Seq<char>)
    requires
        s.len() <= usize::MAX,
        lexer::tokens(s, true) == Ok::<Seq<Token>, LexErrorV>(ts),
        f == fmt::finished(printed_text(s, ts)),
        f.len() <= usize::MAX,
    ensures
        moved(s, ts, f).len() == ts.len(),
        forall|k: int| 0 <= k < ts.len() ==> (#[trigger] moved(s, ts, f)[k]).kind == ts[k].kind,
        forall|k: nat| k < token_count(ts) ==> moved(s, ts, f)[k as int].start == #[trigger] spot(s, ts, k),
        forall|k: nat| k < token_count(ts) ==> moved(s, ts, f)[k as int].end == #[trigger] new_end(s, ts, k),
        moved(s, ts, f)[ts.len() - 1].start == f.len(),
{
    lexer::tokens_are_in_order(s, ts);
    lemma_formatted_prefix(s, ts, f);
    assert forall|k: nat| k < token_count(ts) implies moved(s, ts, f)[k as int].start == #[trigger] spot(s, ts, k) by {
        assert(spot(s, ts, k) < new_end(s, ts, k));
    }
}

/// The gap behind token `h` holds a line break in both texts or in neither.
proof fn lemma_same_gap_feeds(s: Seq<char>, ts: Seq<Token>, f: Seq<char>, h: nat)
    requires
        s.len() <= usize::MAX,
        lexer::tokens(s, true) == Ok::<Seq<Token>, LexErrorV>(ts),
        f == fmt::finished(printed_text(s, ts)),
        f.len() <= usize::MAX,
        h + 1 < token_count(ts),
    ensures
        chars::feeds(f, moved(s, ts, f)[h as int].end as int, moved(s, ts, f)[h as int + 1].start as int) > 0 <==> chars::feeds(
            s,
            ts[h as int].end as int,
            ts[h as int + 1].start as int,
        ) > 0,
{
    let us = moved(s, ts, f);
    let o = printed_text(s, ts);
    let i = h + 1;
    lexer::tokens_are_in_order(s, ts);
    lemma_moved(s, ts, f);
    lemma_formatted_prefix(s, ts, f);
    lemma_is_printed(s, ts, i);
    lemma_step(s, ts, i);
    let a = printed_end(s, ts, i);
    let b = spot(s, ts, i);
    assert(us[h as int].end == new_end(s, ts, h) == a);
    assert(us[i as int].start == b);
    assert forall|k: int| 0 <= k < b - a implies #[trigger] f[a + k] == o[a + k] by {}
    lemma_feeds_agree(f, a as int, o, a as int, (b - a) as nat);
}

/// Token `h`, which is not the last, holds the same line breaks in both texts.
proof fn lemma_same_token_feeds(s: Seq<char>, ts: Seq<Token>, f: Seq<char>, h: nat)
    requires
        s.len() <= usize::MAX,
        lexer::tokens(s, true) == Ok::<Seq<Token>, LexErrorV>(ts),
        f == fmt::finished(printed_text(s, ts)),
        f.len() <= usize::MAX,
        h + 1 < token_count(ts),
    ensures
        chars::feeds(f, moved(s, ts, f)[h as int].start as int, moved(s, ts, f)[h as int].end as int) == chars::feeds(
            s,
            ts[h as int].start as int,
            ts[h as int].end as int,
        ),
{
    let us = moved(s, ts, f);
    lexer::tokens_are_in_order(s, ts);
    lemma_moved(s, ts, f);
    lemma_formatted_prefix(s, ts, f);
    lemma_step(s, ts, h);
    lemma_text_again(s, ts, f, h);
    let a = spot(s, ts, h) as int;
    let b = ts[h as int].start as int;
    let n = (ts[h as int].end - ts[h as int].start) as nat;
    assert(us[h as int].start == a);
    assert(us[h as int].end == new_end(s, ts, h));
    assert(new_end(s, ts, h) == printed_end(s, ts, h + 1) == a + n);
    assert forall|k: int| 0 <= k < n implies #[trigger] f[a + k] == s[b + k] by {
        assert(f[a + k] == s[a + k - a + b]);
    }
    lemma_feeds_agree(f, a, s, b, n);
}

/// Between token `h` and token `m` both texts have line breaks, or neither has.
proof fn lemma_same_feeds(s: Seq<char>, ts: Seq<Token>, f: Seq<char>, h: nat, m: nat)
    requires
        s.len() <= usize::MAX,
        lexer::tokens(s, true) == Ok::<Seq<Token>, LexErrorV>(ts),
        f == fmt::finished(printed_text(s, ts)),
        f.len() <= usize::MAX,
        h < m < token_count(ts),
    ensures
        chars::feeds(f, moved(s, ts, f)[h as int].end as int, moved(s, ts, f)[m as int].start as int) > 0 <==> chars::feeds(
            s,
            ts[h as int].end as int,
            ts[m as int].start as int,
        ) > 0,
        moved(s, ts, f)[h as int].end <= moved(s, ts, f)[m as int].start,
    decreases m,
{
    let us = moved(s, ts, f);
    let l = (m - 1) as nat;
    lexer::tokens_are_in_order(s, ts);
    lemma_moved(s, ts, f);
    lemma_formatted_prefix(s, ts, f);
    lemma_same_gap_feeds(s, ts, f, l);
    lemma_step(s, ts, m);
    assert(us[l as int].end == new_end(s, ts, l) == printed_end(s, ts, m));
    assert(us[m as int].start == spot(s, ts, m));
    if h < l {
        lemma_same_feeds(s, ts, f, h, l);
        lemma_same_token_feeds(s, ts, f, l);
        assert(us[l as int].start == spot(s, ts, l) < new_end(s, ts, l));
        lemma_feeds_add(s, ts[h as int].end as int, ts[l as int].start as int, ts[l as int].end as int);
        lemma_feeds_add(s, ts[h as int].end as int, ts[l as int].end as int, ts[m as int].start as int);
        lemma_feeds_add(f, us[h as int].end as int, us[l as int].start as int, us[l as int].end as int);
        lemma_feeds_add(f, us[h as int].end as int, us[l as int].end as int, us[m as int].start as int);
    }
}

proof fn lemma_same_code_place(ts: Seq<Token>, us: Seq<Token>, i: nat)
    requires
        us.len() == ts.len(),
        forall|k: int| 0 <= k < ts.len() ==> (#[trigger] us[k]).kind == ts[k].kind,
        i <= ts.len(),
    ensures
        fmt::code_place(us, i) == fmt::code_place(ts, i),
        i <= fmt::code_place(ts, i) <= ts.len(),
        fmt::code_place(ts, i) < ts.len() ==> !lexer::is_comment(ts[fmt::code_place(ts, i) as int].kind),
        forall|k: int| i <= k < fmt::code_place(ts, i) ==> lexer::is_comment((#[trigger] ts[k]).kind),
    decreases ts.len() - i,
{
    if i < ts.len() {
        assert(us[i as int].kind == ts[i as int].kind);
        if lexer::is_comment(ts[i as int].kind) {
            lemma_same_code_place(ts, us, i + 1);
        }
    }
}

/// A line break follows the bracket at `h` in both texts or in neither.
proof fn lemma_same_break(s: Seq<char>, ts: Seq<Token>, f: Seq<char>, h: nat)
    requires
        s.len() <= usize::MAX,
        lexer::tokens(s, true) == Ok::<Seq<Token>, LexErrorV>(ts),
        f == fmt::finished(printed_text(s, ts)),
        f.len() <= usize::MAX,
        h + 1 < token_count(ts),
    ensures
        fmt::breaks_after(f, moved(s, ts, f), h) == fmt::breaks_after(s, ts, h),
{
    reveal(fmt::breaks_after);
    let us = moved(s, ts, f);
    lexer::tokens_are_in_order(s, ts);
    lemma_moved(s, ts, f);
    lemma_formatted_prefix(s, ts, f);
    lemma_same_code_place(ts, us, h + 1);
    let j = fmt::code_place(ts, h + 1);
    assert(!lexer::is_comment(ts[ts.len() - 1].kind));
    assert(j < ts.len());
    let next = if ts[j as int].kind != TokenKind::Eof {
        j as int
    } else {
        j - 1
    };
    assert(us[j as int].kind == ts[j as int].kind);
    if next > h {
        lemma_same_feeds(s, ts, f, h, next as nat);
    } else {
        assert(us[h as int].start == spot(s, ts, h) < new_end(s, ts, h) == us[h as int].end);
    }
}

/// The printers stay in step up to the last token.
proof fn lemma_in_step(s: Seq<char>, ts: Seq<Token>, f: Seq<char>, i: nat)
    requires
        s.len() <= usize::MAX,
        lexer::tokens(s, true) == Ok::<Seq<Token>, LexErrorV>(ts),
        f == fmt::finished(printed_text(s, ts)),
        f.len() <= usize::MAX,
        i < token_count(ts),
    ensures
        upto(f, moved(s, ts, f), i) == again(upto(s, ts, i)),
    decreases i,
{
    if i > 0 {
        let h = (i - 1) as nat;
        let us = moved(s, ts, f);
        let p = upto(s, ts, h);
        let q = upto(f, us, h);
        lemma_in_step(s, ts, f, h);
        lexer::tokens_are_in_order(s, ts);
        lemma_moved(s, ts, f);
        lemma_formatted_prefix(s, ts, f);
        lemma_same_gap(s, ts, f, h);
        lemma_step(s, ts, h);
        lemma_text_again(s, ts, f, h);
        assert(new_end(s, ts, h) == printed_end(s, ts, i));
        assert(f.subrange(us[h as int].start as int, us[h as int].end as int) =~= text_of_token(s, ts[h as int]));
        lemma_same_break(s, ts, f, h);
        assert(us[h as int].kind == ts[h as int].kind);
    }
}

/// The gap before token `i` is the same, if the printers are in step.
proof fn lemma_same_gap(s: Seq<char>, ts: Seq<Token>, f: Seq<char>, i: nat)
    requires
        s.len() <= usize::MAX,
        lexer::tokens(s, true) == Ok::<Seq<Token>, LexErrorV>(ts),
        f == fmt::finished(printed_text(s, ts)),
        f.len() <= usize::MAX,
        i < token_count(ts),
        upto(f, moved(s, ts, f), i) == again(upto(s, ts, i)),
    ensures
        fmt::with_gap(upto(f, moved(s, ts, f), i), f, moved(s, ts, f), i) == fmt::with_gap(upto(s, ts, i), s, ts, i),
{
    let us = moved(s, ts, f);
    let g = fmt::with_gap(upto(s, ts, i), s, ts, i);
    lexer::tokens_are_in_order(s, ts);
    lemma_moved(s, ts, f);
    lemma_formatted_prefix(s, ts, f);
    lemma_step(s, ts, i);
    if i > 0 {
        lemma_step(s, ts, (i - 1) as nat);
        lemma_prefix(s, ts, i + 1, token_count(ts));
        assert forall|k: int| 0 <= k < g.len() implies #[trigger] f[k] == g[k] by {
            assert(f[k] == printed_text(s, ts)[k]);
            assert(upto(s, ts, i + 1).out[k] == g[k]);
        }
        assert(us[i as int].start == spot(s, ts, i));
        lemma_gap_again(upto(s, ts, i), s, ts, f, us, i);
    } else {
        reveal(fmt::with_gap);
    }
}

/// Formatting again changes nothing.
pub proof fn formatting_is_idempotent(s: Seq<char>, ts: Seq<Token>, f: Seq<char>)
    requires
        s.len() <= usize::MAX,
        lexer::tokens(s, true) == Ok::<Seq<Token>, LexErrorV>(ts),
        stays_apart(s, ts),
        fmt::formatted(s) == Ok::<Seq<char>, LexErrorV>(f),
        f.len() <= usize::MAX,
    ensures
        fmt::formatted(f) == Ok::<Seq<char>, LexErrorV>(f),
{
    let us = moved(s, ts, f);
    let o = printed_text(s, ts);
    let n = token_count(ts);
    lexer::tokens_are_in_order(s, ts);
    tokens_are_printed_in_order(s, ts);
    formatting_keeps_the_tokens(s, ts, f);
    tokens_are_printed_in_order(f, us);
    lemma_finished(s, ts);
    lemma_without_end_blanks(o);
    lemma_formatted_prefix(s, ts, f);
    lemma_moved(s, ts, f);
    if n > 0 {
        let h = (n - 1) as nat;
        lemma_in_step(s, ts, f, h);
        lemma_same_gap(s, ts, f, h);
        lemma_step(s, ts, h);
        let g = fmt::with_gap(upto(s, ts, h), s, ts, h);
        assert(us[h as int].start == spot(s, ts, h));
        assert(us[h as int].end == new_end(s, ts, h));
        assert(upto(f, us, n).out == g + f.subrange(us[h as int].start as int, us[h as int].end as int));
        assert(printed_text(f, us) =~= fmt::without_end_blanks(o)) by {
            assert forall|k: int| 0 <= k < fmt::without_end_blanks(o).len() implies printed_text(f, us)[k]
                == fmt::without_end_blanks(o)[k] by {
                assert(f[k] == o[k]);
                if k < g.len() {
                    assert(o[k] == g[k]);
                }
            }
        }
    } else {
        assert(printed_text(f, us) =~= fmt::without_end_blanks(o));
    }
    assert(fmt::without_end_blanks(fmt::without_end_blanks(o)) == fmt::without_end_blanks(o));
}

/// A text whose tokens have plain neighbours is formatted once and for all: its tokens and
/// comments are kept, only the white space between them changes, the result has plain
/// neighbours too, and formatting it again changes nothing.
pub proof fn plain_texts_are_settled(s: Seq<char>, ts: Seq<Token>, f: Seq<char>)
    requires
        s.len() <= usize::MAX,
        lexer::tokens(s, true) == Ok::<Seq<Token>, LexErrorV>(ts),
        has_plain_neighbours(ts),
        fmt::formatted(s) == Ok::<Seq<char>, LexErrorV>(f),
        f.len() <= usize::MAX,
    ensures
        fmt::formatted(f) == Ok::<Seq<char>, LexErrorV>(f),
        lexer::tokens(f, true) == Ok::<Seq<Token>, LexErrorV>(moved(s, ts, f)),
        moved(s, ts, f).len() == ts.len(),
        forall|i: int| 0 <= i < ts.len() - 1 ==> #[trigger] same_token(s, ts, f, moved(s, ts, f), i),
        has_plain_neighbours(moved(s, ts, f)),
{
    plain_neighbours_stay_apart(s, ts);
    formatting_keeps_the_tokens(s, ts, f);
    formatting_is_idempotent(s, ts, f);
    tokens_are_printed_in_order(s, ts);
    lemma_moved(s, ts, f);
    lemma_same_neighbours(ts, moved(s, ts, f));
}

proof fn lemma_same_neighbours(ts: Seq<Token>, us: Seq<Token>)
    requires
        us.len() == ts.len(),
        forall|k: int| 0 <= k < ts.len() ==> (#[trigger] us[k]).kind == ts[k].kind,
        has_plain_neighbours(ts),
    ensures
        has_plain_neighbours(us),
{
    assert forall|i: int| 0 < i < us.len() implies #[trigger] is_plain_at(us, i) by {
        assert(is_plain_at(ts, i));
        assert(us[i].kind == ts[i].kind);
        assert(us[i - 1].kind == ts[i - 1].kind);
        if i + 1 < us.len() {
            assert(us[i + 1].kind == ts[i + 1].kind);
        }
    }
}

} // verus!
