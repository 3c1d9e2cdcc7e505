//! How formatted text is laid out: indentation, line breaks, and the spaces inside a line.
use vstd::prelude::*;
use crate::chars;
use crate::fmt;
use crate::lexer;
use crate::stability;
use crate::errors::LexErrorV;
use crate::fmt::{BracketCtx, BracketKind, INDENT};
use crate::lexer::{Token, TokenKind};

verus! {

pub open spec fn opens(k: TokenKind) -> bool {
    k == TokenKind::LBrace || k == TokenKind::LParen || k == TokenKind::LBracket
}

pub open spec fn closes(k: TokenKind) -> bool {
    k == TokenKind::RBrace || k == TokenKind::RParen || k == TokenKind::RBracket
}

/// The two are a pair of brackets.
pub open spec fn pairs(open: TokenKind, close: TokenKind) -> bool {
    ||| open == TokenKind::LBrace && close == TokenKind::RBrace
    ||| open == TokenKind::LParen && close == TokenKind::RParen
    ||| open == TokenKind::LBracket && close == TokenKind::RBracket
}

/// The brackets that are open before token `i`, outermost first: each opening bracket adds
/// itself, and each closing one takes the innermost away.
pub open spec fn open_before(ts: Seq<Token>, i: int) -> Seq<int>
    decreases i,
{
    if i <= 0 {
        Seq::empty()
    } else {
        let open = open_before(ts, i - 1);
        if opens(ts[i - 1].kind) {
            open.push(i - 1)
        } else if closes(ts[i - 1].kind) && open.len() > 0 {
            open.drop_last()
        } else {
            open
        }
    }
}

/// A line feed stands between two positions.
pub open spec fn has_feed(s: Seq<char>, from: int, to: int) -> bool {
    exists|k: int| from <= k < to && #[trigger] s[k] == '\n'
}

/// A line breaks behind the bracket at `j`: before the next token, or behind comments that
/// follow it.
#[verifier::opaque]
pub open spec fn breaks(s: Seq<char>, ts: Seq<Token>, j: int) -> bool {
    exists|m: int|
        {
            &&& j < m < ts.len()
            &&& (#[trigger] ts[m]).kind != TokenKind::Eof
            &&& forall|k: int| j < k < m ==> lexer::is_comment((#[trigger] ts[k]).kind)
            &&& has_feed(s, ts[j].end as int, ts[m].start as int)
        }
}

/// How many of the brackets break the line.
pub open spec fn broken(s: Seq<char>, ts: Seq<Token>, open: Seq<int>) -> nat
    decreases open.len(),
{
    if open.len() == 0 {
        0
    } else {
        broken(s, ts, open.drop_last()) + (if breaks(s, ts, open.last()) {
            1nat
        } else {
            0nat
        })
    }
}

/// How deep token `i` is indented at the start of a line: once for each open bracket that
/// breaks the line, except that a closing bracket stands as deep as the line of its own.
pub open spec fn level(s: Seq<char>, ts: Seq<Token>, i: int) -> int {
    let open = open_before(ts, i);
    if open.len() > 0 && pairs(ts[open.last()].kind, ts[i].kind) && breaks(s, ts, open.last()) {
        broken(s, ts, open) - 1
    } else {
        broken(s, ts, open) as int
    }
}

/// Behind these a line starts afresh.
pub open spec fn ends_a_part(k: TokenKind) -> bool {
    ||| k == TokenKind::Semi
    ||| k == TokenKind::LBrace
    ||| k == TokenKind::RBrace
    ||| k == TokenKind::Comma
    ||| k == TokenKind::FatArrow
    ||| k == TokenKind::LineComment
    ||| k == TokenKind::BlockComment
}

// ---------------------------------------------------------------------------
// The brackets of the printer.

proof fn lemma_feeds(s: Seq<char>, from: int, to: int)
    requires
        0 <= from,
        to <= s.len(),
    ensures
        chars::feeds(s, from, to) > 0 <==> has_feed(s, from, to),
    decreases to - from,
{
    if from < to {
        lemma_feeds(s, from, to - 1);
        if s[to - 1] == '\n' {
            assert(has_feed(s, from, to));
        }
        if has_feed(s, from, to - 1) {
            let k = choose|k: int| from <= k < to - 1 && #[trigger] s[k] == '\n';
            assert(s[k] == '\n');
        }
        if has_feed(s, from, to) {
            let k = choose|k: int| from <= k < to && #[trigger] s[k] == '\n';
            if k < to - 1 {
                assert(has_feed(s, from, to - 1));
            }
        }
    }
}

proof fn lemma_code_place(ts: Seq<Token>, i: nat)
    requires
        i <= ts.len(),
    ensures
        i <= fmt::code_place(ts, i) <= ts.len(),
        fmt::code_place(ts, i) < ts.len() ==> !lexer::is_comment(ts[fmt::code_place(ts, i) as int].kind),
        forall|k: int| i <= k < fmt::code_place(ts, i) ==> lexer::is_comment((#[trigger] ts[k]).kind),
    decreases ts.len() - i,
{
    if i < ts.len() && lexer::is_comment(ts[i as int].kind) {
        lemma_code_place(ts, i + 1);
    }
}

/// The tokens are those of a text.
#[verifier::opaque]
spec fn laid_out(s: Seq<char>, ts: Seq<Token>) -> bool {
    lexer::in_order(s, ts) && lexer::ends_the_text(s, ts)
}

proof fn lemma_places(s: Seq<char>, ts: Seq<Token>, a: int, b: int)
    requires
        laid_out(s, ts),
        0 <= a <= b < ts.len(),
    ensures
        ts[a].start <= ts[b].start <= ts[b].end <= s.len(),
        a < b ==> ts[a].end <= ts[b].start,
        (ts[a].kind == TokenKind::Eof) == (a == ts.len() - 1),
        (ts[b].kind == TokenKind::Eof) == (b == ts.len() - 1),
{
    reveal(laid_out);
    if a < b {
        assert(ts[a].start <= ts[a].end);
        assert(ts[a].end <= ts[b].start);
    }
    assert(ts[ts.len() - 1] == ts.last());
}

/// A line feed stands somewhere behind token `j`, before token `m`.
spec fn feeds_to(s: Seq<char>, ts: Seq<Token>, j: int, m: int) -> bool {
    has_feed(s, ts[j].end as int, ts[m].start as int)
}

proof fn lemma_feeds_to(s: Seq<char>, ts: Seq<Token>, j: int, m: int, n: int)
    requires
        laid_out(s, ts),
        0 <= j <= m <= n < ts.len(),
        feeds_to(s, ts, j, m),
    ensures
        feeds_to(s, ts, j, n),
        j < m,
{
    lemma_places(s, ts, m, n);
    lemma_places(s, ts, j, m);
    let k = choose|k: int| ts[j].end <= k < ts[m].start && #[trigger] s[k] == '\n';
    assert(s[k] == '\n');
    if j == m {
        reveal(laid_out);
    }
}

proof fn lemma_breaks(s: Seq<char>, ts: Seq<Token>, j: nat)
    requires
        laid_out(s, ts),
        j + 1 < ts.len(),
    ensures
        fmt::breaks_after(s, ts, j) <==> breaks(s, ts, j as int),
{
    reveal(breaks);
    let c = fmt::code_place(ts, j + 1);
    lemma_code_place(ts, j + 1);
    lemma_places(s, ts, j as int, ts.len() - 1);
    assert(c < ts.len()) by {
        if c == ts.len() {
            assert(lexer::is_comment(ts[ts.len() - 1].kind));
        }
    }
    let next = if ts[c as int].kind != TokenKind::Eof {
        c as int
    } else {
        c - 1
    };
    lemma_places(s, ts, j as int, next);
    lemma_places(s, ts, next, c as int);
    lemma_feeds(s, ts[j as int].end as int, ts[next].start as int);
    assert(fmt::breaks_after(s, ts, j) <==> feeds_to(s, ts, j as int, next)) by {
        reveal(fmt::breaks_after);
    }
    if feeds_to(s, ts, j as int, next) {
        lemma_feeds_to(s, ts, j as int, next, next);
        assert(ts[next].kind != TokenKind::Eof) by {
            if next == c - 1 {
                assert(lexer::is_comment(ts[next].kind));
            }
        }
        assert(breaks(s, ts, j as int));
    }
    if breaks(s, ts, j as int) {
        let m = choose|m: int|
            {
                &&& j < m < ts.len()
                &&& (#[trigger] ts[m]).kind != TokenKind::Eof
                &&& forall|k: int| j < k < m ==> lexer::is_comment((#[trigger] ts[k]).kind)
                &&& has_feed(s, ts[j as int].end as int, ts[m].start as int)
            };
        assert(m <= next) by {
            if m > c {
                assert(lexer::is_comment(ts[c as int].kind));
            }
        }
        lemma_feeds_to(s, ts, j as int, m, next);
    }
}

spec fn same_brackets(s: Seq<char>, ts: Seq<Token>, bs: Seq<BracketCtx>, open: Seq<int>) -> bool {
    &&& bs.len() == open.len()
    &&& forall|m: int|
        0 <= m < bs.len() ==> 0 <= open[m] < ts.len() && (#[trigger] bs[m]).multi_line == breaks(s, ts, open[m]) && fmt::opened_by(
            ts[open[m]].kind,
        ) == Some(bs[m].open)
}

proof fn lemma_next_brackets(s: Seq<char>, ts: Seq<Token>, bs: Seq<BracketCtx>, h: nat)
    requires
        h + 1 < ts.len(),
        same_brackets(s, ts, bs, open_before(ts, h as int)),
        fmt::breaks_after(s, ts, h) <==> breaks(s, ts, h as int),
    ensures
        same_brackets(s, ts, fmt::brackets_after(bs, s, ts, h), open_before(ts, h as int + 1)),
{
    let open = open_before(ts, h as int);
    let next = open_before(ts, h as int + 1);
    let after = fmt::brackets_after(bs, s, ts, h);
    assert forall|m: int| 0 <= m < after.len() implies 0 <= next[m] < ts.len() && (#[trigger] after[m]).multi_line == breaks(
        s,
        ts,
        next[m],
    ) && fmt::opened_by(ts[next[m]].kind) == Some(after[m].open) by {
        if m < bs.len() {
            assert(after[m] == bs[m]);
            assert(next[m] == open[m]);
        }
    }
}

proof fn lemma_brackets(s: Seq<char>, ts: Seq<Token>, i: nat)
    requires
        laid_out(s, ts),
        i <= stability::token_count(ts),
        ts.len() > 0,
    ensures
        same_brackets(s, ts, stability::upto(s, ts, i).brackets, open_before(ts, i as int)),
    decreases i,
{
    if i > 0 {
        let h = (i - 1) as nat;
        lemma_brackets(s, ts, h);
        lemma_places(s, ts, 0, ts.len() - 1);
        lemma_breaks(s, ts, h);
        lemma_next_brackets(s, ts, stability::upto(s, ts, h).brackets, h);
    }
}

proof fn lemma_depth(s: Seq<char>, ts: Seq<Token>, bs: Seq<BracketCtx>, open: Seq<int>)
    requires
        same_brackets(s, ts, bs, open),
    ensures
        fmt::depth(bs) == broken(s, ts, open),
    decreases bs.len(),
{
    if bs.len() > 0 {
        let b = bs.drop_last();
        let o = open.drop_last();
        assert(same_brackets(s, ts, b, o)) by {
            assert forall|m: int| 0 <= m < b.len() implies 0 <= o[m] < ts.len() && (#[trigger] b[m]).multi_line == breaks(
                s,
                ts,
                o[m],
            ) && fmt::opened_by(ts[o[m]].kind) == Some(b[m].open) by {
                assert(b[m] == bs[m]);
            }
        }
        lemma_depth(s, ts, b, o);
        assert(bs[bs.len() - 1].multi_line == breaks(s, ts, open.last()));
    }
}

proof fn lemma_level(s: Seq<char>, ts: Seq<Token>, i: nat)
    requires
        lexer::in_order(s, ts),
        lexer::ends_the_text(s, ts),
        i < stability::token_count(ts),
    ensures
        fmt::indent_of(stability::upto(s, ts, i).brackets, ts[i as int].kind) == level(s, ts, i as int),
{
    let bs = stability::upto(s, ts, i).brackets;
    let open = open_before(ts, i as int);
    reveal(laid_out);
    lemma_brackets(s, ts, i);
    lemma_depth(s, ts, bs, open);
    if bs.len() > 0 {
        assert(bs[bs.len() - 1].multi_line == breaks(s, ts, open.last()));
        assert(fmt::opened_by(ts[open.last()].kind) == Some(bs.last().open));
    }
}

/// The printer before token `i` knows the two tokens before it.
proof fn lemma_known(s: Seq<char>, ts: Seq<Token>, i: nat)
    requires
        lexer::in_order(s, ts),
        lexer::ends_the_text(s, ts),
        0 < i < stability::token_count(ts),
    ensures
        stability::upto(s, ts, i).prev == Some(ts[i - 1].kind),
        stability::upto(s, ts, i).prev_end == ts[i - 1].end,
        i > 1 ==> stability::upto(s, ts, i).prev_prev == Some(ts[i - 2].kind),
        i == 1 ==> stability::upto(s, ts, i).prev_prev is None,
{
    let h = (i - 1) as nat;
    stability::lemma_step(s, ts, h);
    assert(stability::upto(s, ts, i) == fmt::emitted(stability::upto(s, ts, h), s, ts, h));
    if i > 1 {
        stability::lemma_step(s, ts, (i - 2) as nat);
    }
}

// ---------------------------------------------------------------------------
// Lines.

/// Before token `i` the formatted text breaks the line, and only the given number of spaces
/// stands before the token on its line.
pub open spec fn starts_line(s: Seq<char>, ts: Seq<Token>, f: Seq<char>, i: nat, spaces: int) -> bool {
    let at = stability::spot(s, ts, i) as int;
    &&& 0 <= spaces < at < f.len()
    &&& f[at - spaces - 1] == '\n'
    &&& forall|k: int| at - spaces <= k < at ==> #[trigger] f[k] == ' '
}

proof fn lemma_indents(out: Seq<char>, n: nat)
    ensures
        fmt::repeated(out, INDENT@, n).len() == out.len() + 4 * n,
    decreases n,
{
    reveal_strlit("    ");
    if n > 0 {
        lemma_indents(out + INDENT@, (n - 1) as nat);
    }
}

/// A token that starts a line of the source, and is a closing bracket or follows a semicolon, a
/// brace, a comma, an arrow of a match arm or a comment, starts a line of the formatted text,
/// and is indented by four spaces for each open bracket that breaks the line, whatever blanks
/// stood before it.
pub proof fn fresh_lines_are_indented(s: Seq<char>, ts: Seq<Token>, f: Seq<char>, i: nat)
    requires
        s.len() <= usize::MAX,
        lexer::tokens(s, true) == Ok::<Seq<Token>, LexErrorV>(ts),
        fmt::formatted(s) == Ok::<Seq<char>, LexErrorV>(f),
        0 < i < stability::token_count(ts),
        has_feed(s, ts[i - 1].end as int, ts[i as int].start as int),
        closes(ts[i as int].kind) || ends_a_part(ts[i - 1].kind),
    ensures
        starts_line(s, ts, f, i, 4 * level(s, ts, i as int)),
{
    lexer::tokens_are_in_order(s, ts);
    lemma_known(s, ts, i);
    lemma_level(s, ts, i);
    lemma_feeds(s, ts[i - 1].end as int, ts[i as int].start as int);
    stability::lemma_before_spot(s, ts, f, i);
    let p = stability::upto(s, ts, i);
    let n = chars::feeds(s, ts[i - 1].end as int, ts[i as int].start as int);
    let m: nat = if n < 2 {
        n
    } else {
        2
    };
    let d = fmt::indent_of(p.brackets, ts[i as int].kind);
    let fed = fmt::repeated(p.out, "\n"@, m);
    reveal(fmt::with_gap);
    reveal_strlit("\n");
    reveal_strlit("    ");
    stability::lemma_repeated(p.out, "\n"@, m, '\n');
    stability::lemma_repeated(fed, INDENT@, d, ' ');
    lemma_indents(fed, d);
    let g = fmt::with_gap(p, s, ts, i);
    assert(g == fmt::repeated(fed, INDENT@, d));
    assert(g[fed.len() - 1] == '\n');
    let at = stability::spot(s, ts, i) as int;
    assert(at == fed.len() + 4 * d);
    assert forall|k: int| at - 4 * d <= k < at implies #[trigger] f[k] == ' ' by {
        assert(f[k] == g[k]);
    }
    assert(f[at - 4 * d - 1] == g[at - 4 * d - 1]);
}

proof fn lemma_after_last(s: Seq<char>, i: nat, b: int)
    requires
        0 < b <= i <= s.len(),
        s[b - 1] == '\n',
        forall|k: int| b <= k < i ==> #[trigger] s[k] != '\n',
    ensures
        chars::after_last(s, '\n', i) == b,
    decreases i,
{
    if b < i {
        lemma_after_last(s, (i - 1) as nat, b);
    }
}

/// Any other token that starts a line of the source goes on where it stood: it starts a line of
/// the formatted text with the spaces that stood before it.
pub proof fn continued_lines_keep_their_spaces(s: Seq<char>, ts: Seq<Token>, f: Seq<char>, i: nat, b: int)
    requires
        s.len() <= usize::MAX,
        lexer::tokens(s, true) == Ok::<Seq<Token>, LexErrorV>(ts),
        fmt::formatted(s) == Ok::<Seq<char>, LexErrorV>(f),
        0 < i < stability::token_count(ts),
        !closes(ts[i as int].kind),
        !ends_a_part(ts[i - 1].kind),
        ts[i - 1].end < b <= ts[i as int].start,
        s[b - 1] == '\n',
        forall|k: int| b <= k < ts[i as int].start ==> #[trigger] s[k] == ' ',
    ensures
        starts_line(s, ts, f, i, ts[i as int].start - b),
{
    lexer::tokens_are_in_order(s, ts);
    lemma_known(s, ts, i);
    lemma_feeds(s, ts[i - 1].end as int, ts[i as int].start as int);
    stability::lemma_before_spot(s, ts, f, i);
    lemma_after_last(s, ts[i as int].start as nat, b);
    let p = stability::upto(s, ts, i);
    let to = ts[i as int].start as int;
    let n = chars::feeds(s, ts[i - 1].end as int, to);
    let m: nat = if n < 2 {
        n
    } else {
        2
    };
    let fed = fmt::repeated(p.out, "\n"@, m);
    reveal(fmt::with_gap);
    reveal_strlit("\n");
    stability::lemma_repeated(p.out, "\n"@, m, '\n');
    stability::lemma_kept_spaces(fed, s, b, to);
    let g = fmt::with_gap(p, s, ts, i);
    assert(g == fed + s.subrange(b, to));
    assert(g[fed.len() - 1] == '\n');
    let at = stability::spot(s, ts, i) as int;
    assert forall|k: int| at - (to - b) <= k < at implies #[trigger] f[k] == ' ' by {
        assert(f[k] == g[k]);
        assert(g[k] == s.subrange(b, to)[k - fed.len()]);
    }
    assert(f[at - (to - b) - 1] == g[at - (to - b) - 1]);
}

// ---------------------------------------------------------------------------
// Inside a line.

/// Operators that stand between two operands.
pub open spec fn is_infix(k: TokenKind) -> bool {
    match k {
        TokenKind::Plus | TokenKind::Minus | TokenKind::Slash | TokenKind::Percent | TokenKind::PlusPercent => true,
        TokenKind::MinusPercent | TokenKind::StarPercent | TokenKind::EqEq | TokenKind::BangEq | TokenKind::Lt => true,
        TokenKind::Le | TokenKind::Gt | TokenKind::Ge | TokenKind::AmpAmp | TokenKind::PipePipe | TokenKind::Amp => true,
        TokenKind::Caret | TokenKind::Shl | TokenKind::Shr | TokenKind::Eq | TokenKind::PlusEq | TokenKind::MinusEq => true,
        TokenKind::StarEq | TokenKind::SlashEq | TokenKind::PercentEq | TokenKind::AmpEq | TokenKind::PipeEq => true,
        TokenKind::CaretEq | TokenKind::ShlEq | TokenKind::ShrEq | TokenKind::Arrow | TokenKind::FatArrow => true,
        TokenKind::As | TokenKind::In => true,
        _ => false,
    }
}

/// Tokens with no space on either side.
pub open spec fn is_joint(k: TokenKind) -> bool {
    k == TokenKind::Dot || k == TokenKind::ColonColon || k == TokenKind::DotDot || k == TokenKind::DotDotEq
}

/// Tokens with no space before them.
pub open spec fn hugs_left(k: TokenKind) -> bool {
    ||| k == TokenKind::RParen
    ||| k == TokenKind::RBracket
    ||| k == TokenKind::Comma
    ||| k == TokenKind::Semi
    ||| k == TokenKind::Colon
    ||| is_joint(k)
}

/// Tokens with no space behind them.
pub open spec fn hugs_right(k: TokenKind) -> bool {
    ||| k == TokenKind::LParen
    ||| k == TokenKind::LBracket
    ||| k == TokenKind::Bang
    ||| k == TokenKind::Tilde
    ||| k == TokenKind::Pound
    ||| k == TokenKind::At
    ||| is_joint(k)
}

/// Tokens that a bracket behind them calls or indexes.
pub open spec fn is_called(k: TokenKind) -> bool {
    ||| k == TokenKind::Ident
    ||| k == TokenKind::SelfLower
    ||| k == TokenKind::SelfUpper
    ||| k == TokenKind::RParen
    ||| k == TokenKind::RBracket
    ||| k == TokenKind::RBrace
}

/// Tokens that end an operand.
pub open spec fn ends_operand(k: TokenKind) -> bool {
    ||| k == TokenKind::Ident
    ||| k == TokenKind::Int
    ||| k == TokenKind::Float
    ||| k == TokenKind::Str
    ||| k == TokenKind::RParen
    ||| k == TokenKind::RBracket
    ||| k == TokenKind::SelfLower
}

/// Tokens that start an operand.
pub open spec fn starts_operand(k: TokenKind) -> bool {
    ||| k == TokenKind::Ident
    ||| k == TokenKind::Int
    ||| k == TokenKind::Float
    ||| k == TokenKind::Str
    ||| k == TokenKind::LParen
    ||| k == TokenKind::LBracket
    ||| k == TokenKind::SelfLower
    ||| k == TokenKind::Bang
    ||| k == TokenKind::Minus
}

/// A `*` behind these is the start of a type.
pub open spec fn is_before_type(k: TokenKind) -> bool {
    k == TokenKind::Colon || k == TokenKind::Arrow || k == TokenKind::Star || k == TokenKind::As || k == TokenKind::LBracket
}

/// A `*` behind these is a dereference.
pub open spec fn is_before_operand(k: TokenKind) -> bool {
    match k {
        TokenKind::LParen | TokenKind::LBrace | TokenKind::Comma | TokenKind::Semi | TokenKind::Eq | TokenKind::EqEq => true,
        TokenKind::BangEq | TokenKind::Lt | TokenKind::Le | TokenKind::Gt | TokenKind::Ge | TokenKind::Plus => true,
        TokenKind::Minus | TokenKind::Slash | TokenKind::Percent | TokenKind::AmpAmp | TokenKind::PipePipe => true,
        TokenKind::Return | TokenKind::If | TokenKind::Else | TokenKind::While | TokenKind::FatArrow => true,
        _ => false,
    }
}

/// Nothing stands between token `i` and the one before it.
pub open spec fn is_tight(s: Seq<char>, ts: Seq<Token>, i: nat) -> bool {
    stability::spot(s, ts, i) == stability::printed_end(s, ts, i)
}

/// One space stands between token `i` and the one before it.
pub open spec fn is_parted(s: Seq<char>, ts: Seq<Token>, f: Seq<char>, i: nat) -> bool {
    &&& stability::spot(s, ts, i) == stability::printed_end(s, ts, i) + 1
    &&& f[stability::printed_end(s, ts, i) as int] == ' '
}

/// Nothing stands between the two tokens of a line; `before` is the token before them.
pub open spec fn must_hug(before: Option<TokenKind>, a: TokenKind, b: TokenKind) -> bool {
    // Brackets, points, colons, commas, semicolons and prefixes.
    ||| hugs_right(a) && b != TokenKind::RBrace
    ||| hugs_left(b) && a != TokenKind::LBrace
    // Empty braces.
    ||| a == TokenKind::LBrace && b == TokenKind::RBrace
    // Calls and indices, macros and function types.
    ||| is_called(a) && (b == TokenKind::LParen || b == TokenKind::LBracket)
    ||| a == TokenKind::Fn && b == TokenKind::LParen
    ||| a == TokenKind::Ident && b == TokenKind::Bang
    // Pointer types and dereferences.
    ||| a == TokenKind::Star && (before is None || is_before_type(before->Some_0) || is_before_operand(before->Some_0))
}

/// One space stands between the two tokens of a line; `before` is the token before them.
pub open spec fn must_part(before: Option<TokenKind>, a: TokenKind, b: TokenKind) -> bool {
    // Behind a comma, a semicolon or a colon.
    ||| (a == TokenKind::Comma || a == TokenKind::Semi || a == TokenKind::Colon) && !hugs_left(b) && b != TokenKind::RBrace
    // Braces inside a line.
    ||| a == TokenKind::LBrace && b != TokenKind::RBrace && !hugs_left(b)
    ||| b == TokenKind::RBrace && a != TokenKind::LBrace && a != TokenKind::LParen && a != TokenKind::LBracket && a != TokenKind::Star
    // Operators.
    ||| ends_operand(a) && (is_infix(b) || b == TokenKind::Star)
    ||| is_infix(a) && starts_operand(b)
    ||| a == TokenKind::Star && before is Some && ends_operand(before->Some_0) && starts_operand(b)
    ||| (a == TokenKind::Colon || a == TokenKind::Arrow) && b == TokenKind::Star
    // Words and numbers.
    ||| stability::is_wordlike(a) && stability::is_wordlike(b)
}

/// What stands between two tokens of a line, in the formatted text: a space or nothing, as the
/// rules say. Pipes have rules of their own.
pub open spec fn is_spaced_well(s: Seq<char>, ts: Seq<Token>, f: Seq<char>, i: nat) -> bool {
    let before = if i > 1 {
        Some(ts[i - 2].kind)
    } else {
        None
    };
    let a = ts[i - 1].kind;
    let b = ts[i as int].kind;
    let pipes = a == TokenKind::Pipe || b == TokenKind::Pipe;
    &&& is_tight(s, ts, i) || is_parted(s, ts, f, i)
    &&& !pipes && must_hug(before, a, b) ==> is_tight(s, ts, i)
    &&& !pipes && must_part(before, a, b) ==> is_parted(s, ts, f, i)
}

proof fn lemma_hug_a(before: Option<TokenKind>, a: TokenKind, b: TokenKind)
    requires
        !lexer::is_comment(b),
        hugs_right(a) && b != TokenKind::RBrace,
    ensures
        !fmt::spaced_in_context(before, a, b),
{
}

proof fn lemma_hug_b(before: Option<TokenKind>, a: TokenKind, b: TokenKind)
    requires
        !lexer::is_comment(b),
        hugs_left(b) && a != TokenKind::LBrace,
    ensures
        !fmt::spaced_in_context(before, a, b),
{
}

proof fn lemma_hug_c(before: Option<TokenKind>, a: TokenKind, b: TokenKind)
    requires
        !lexer::is_comment(b),
        a == TokenKind::LBrace && b == TokenKind::RBrace,
    ensures
        !fmt::spaced_in_context(before, a, b),
{
}

proof fn lemma_hug_d(before: Option<TokenKind>, a: TokenKind, b: TokenKind)
    requires
        !lexer::is_comment(b),
        is_called(a) && (b == TokenKind::LParen || b == TokenKind::LBracket),
    ensures
        !fmt::spaced_in_context(before, a, b),
{
}

proof fn lemma_hug_e(before: Option<TokenKind>, a: TokenKind, b: TokenKind)
    requires
        !lexer::is_comment(b),
        a == TokenKind::Fn && b == TokenKind::LParen,
    ensures
        !fmt::spaced_in_context(before, a, b),
{
}

proof fn lemma_hug_f(before: Option<TokenKind>, a: TokenKind, b: TokenKind)
    requires
        !lexer::is_comment(b),
        a == TokenKind::Ident && b == TokenKind::Bang,
    ensures
        !fmt::spaced_in_context(before, a, b),
{
}

proof fn lemma_hug_g(before: Option<TokenKind>, a: TokenKind, b: TokenKind)
    requires
        !lexer::is_comment(b),
        a == TokenKind::Star && (before is None || is_before_type(before->Some_0) || is_before_operand(before->Some_0)),
    ensures
        !fmt::spaced_in_context(before, a, b),
{
}

proof fn lemma_must_hug(before: Option<TokenKind>, a: TokenKind, b: TokenKind)
    requires
        !lexer::is_comment(b),
        must_hug(before, a, b),
    ensures
        !fmt::spaced_in_context(before, a, b),
{
    if hugs_right(a) && b != TokenKind::RBrace {
        lemma_hug_a(before, a, b);
    } else if hugs_left(b) && a != TokenKind::LBrace {
        lemma_hug_b(before, a, b);
    } else if a == TokenKind::LBrace && b == TokenKind::RBrace {
        lemma_hug_c(before, a, b);
    } else if is_called(a) && (b == TokenKind::LParen || b == TokenKind::LBracket) {
        lemma_hug_d(before, a, b);
    } else if a == TokenKind::Fn && b == TokenKind::LParen {
        lemma_hug_e(before, a, b);
    } else if a == TokenKind::Ident && b == TokenKind::Bang {
        lemma_hug_f(before, a, b);
    } else if a == TokenKind::Star && (before is None || is_before_type(before->Some_0) || is_before_operand(before->Some_0)) {
        lemma_hug_g(before, a, b);
    }
}

proof fn lemma_part_a(before: Option<TokenKind>, a: TokenKind, b: TokenKind)
    requires
        !lexer::is_comment(b),
        (a == TokenKind::Comma || a == TokenKind::Semi || a == TokenKind::Colon) && !hugs_left(b) && b != TokenKind::RBrace,
    ensures
        fmt::spaced_in_context(before, a, b),
{
}

proof fn lemma_part_b(before: Option<TokenKind>, a: TokenKind, b: TokenKind)
    requires
        !lexer::is_comment(b),
        a == TokenKind::LBrace && b != TokenKind::RBrace && !hugs_left(b),
    ensures
        fmt::spaced_in_context(before, a, b),
{
}

proof fn lemma_part_c(before: Option<TokenKind>, a: TokenKind, b: TokenKind)
    requires
        !lexer::is_comment(b),
        b == TokenKind::RBrace && a != TokenKind::LBrace && a != TokenKind::LParen && a != TokenKind::LBracket && a != TokenKind::Star,
    ensures
        fmt::spaced_in_context(before, a, b),
{
}

proof fn lemma_part_d(before: Option<TokenKind>, a: TokenKind, b: TokenKind)
    requires
        !lexer::is_comment(b),
        ends_operand(a) && (is_infix(b) || b == TokenKind::Star),
    ensures
        fmt::spaced_in_context(before, a, b),
{
}

proof fn lemma_part_e(before: Option<TokenKind>, a: TokenKind, b: TokenKind)
    requires
        !lexer::is_comment(b),
        is_infix(a) && starts_operand(b),
    ensures
        fmt::spaced_in_context(before, a, b),
{
}

proof fn lemma_part_f(before: Option<TokenKind>, a: TokenKind, b: TokenKind)
    requires
        !lexer::is_comment(b),
        a == TokenKind::Star && before is Some && ends_operand(before->Some_0) && starts_operand(b),
    ensures
        fmt::spaced_in_context(before, a, b),
{
}

proof fn lemma_part_g(before: Option<TokenKind>, a: TokenKind, b: TokenKind)
    requires
        !lexer::is_comment(b),
        (a == TokenKind::Colon || a == TokenKind::Arrow) && b == TokenKind::Star,
    ensures
        fmt::spaced_in_context(before, a, b),
{
}

proof fn lemma_part_h(before: Option<TokenKind>, a: TokenKind, b: TokenKind)
    requires
        !lexer::is_comment(b),
        stability::is_wordlike(a) && stability::is_wordlike(b),
    ensures
        fmt::spaced_in_context(before, a, b),
{
}

proof fn lemma_must_part(before: Option<TokenKind>, a: TokenKind, b: TokenKind)
    requires
        !lexer::is_comment(b),
        must_part(before, a, b),
    ensures
        fmt::spaced_in_context(before, a, b),
{
    if (a == TokenKind::Comma || a == TokenKind::Semi || a == TokenKind::Colon) && !hugs_left(b) && b != TokenKind::RBrace {
        lemma_part_a(before, a, b);
    } else if a == TokenKind::LBrace && b != TokenKind::RBrace && !hugs_left(b) {
        lemma_part_b(before, a, b);
    } else if b == TokenKind::RBrace && a != TokenKind::LBrace && a != TokenKind::LParen && a != TokenKind::LBracket && a != TokenKind::Star {
        lemma_part_c(before, a, b);
    } else if ends_operand(a) && (is_infix(b) || b == TokenKind::Star) {
        lemma_part_d(before, a, b);
    } else if is_infix(a) && starts_operand(b) {
        lemma_part_e(before, a, b);
    } else if a == TokenKind::Star && before is Some && ends_operand(before->Some_0) && starts_operand(b) {
        lemma_part_f(before, a, b);
    } else if (a == TokenKind::Colon || a == TokenKind::Arrow) && b == TokenKind::Star {
        lemma_part_g(before, a, b);
    } else if stability::is_wordlike(a) && stability::is_wordlike(b) {
        lemma_part_h(before, a, b);
    }
}

/// Token `i` is printed behind a space, or behind nothing.
proof fn lemma_space(s: Seq<char>, ts: Seq<Token>, f: Seq<char>, i: nat)
    requires
        s.len() <= usize::MAX,
        lexer::tokens(s, true) == Ok::<Seq<Token>, LexErrorV>(ts),
        fmt::formatted(s) == Ok::<Seq<char>, LexErrorV>(f),
        0 < i < stability::token_count(ts),
        !has_feed(s, ts[i - 1].end as int, ts[i as int].start as int),
        !lexer::is_comment(ts[i as int].kind),
    ensures
        fmt::space_before(stability::upto(s, ts, i), ts, i, ts[i - 1].kind) ==> is_parted(s, ts, f, i),
        !fmt::space_before(stability::upto(s, ts, i), ts, i, ts[i - 1].kind) ==> is_tight(s, ts, i),
        i > 1 ==> stability::upto(s, ts, i).prev_prev == Some(ts[i - 2].kind),
        i == 1 ==> stability::upto(s, ts, i).prev_prev is None,
{
    lexer::tokens_are_in_order(s, ts);
    lemma_known(s, ts, i);
    lemma_feeds(s, ts[i - 1].end as int, ts[i as int].start as int);
    stability::lemma_before_spot(s, ts, f, i);
    let p = stability::upto(s, ts, i);
    let g = fmt::with_gap(p, s, ts, i);
    if fmt::space_before(p, ts, i, ts[i - 1].kind) {
        assert(g == p.out.push(' ')) by {
            reveal(fmt::with_gap);
        }
        assert(f[p.out.len() as int] == g[p.out.len() as int]);
    } else {
        assert(g == p.out) by {
            reveal(fmt::with_gap);
        }
    }
}

/// Two tokens of a line stand in the formatted text as the rules of spacing say, whatever
/// blanks stood between them.
pub proof fn tokens_of_a_line_are_spaced_well(s: Seq<char>, ts: Seq<Token>, f: Seq<char>, i: nat)
    requires
        s.len() <= usize::MAX,
        lexer::tokens(s, true) == Ok::<Seq<Token>, LexErrorV>(ts),
        fmt::formatted(s) == Ok::<Seq<char>, LexErrorV>(f),
        0 < i < stability::token_count(ts),
        !has_feed(s, ts[i - 1].end as int, ts[i as int].start as int),
        !lexer::is_comment(ts[i as int].kind),
    ensures
        is_spaced_well(s, ts, f, i),
{
    lemma_space(s, ts, f, i);
    let before = stability::upto(s, ts, i).prev_prev;
    let a = ts[i - 1].kind;
    let b = ts[i as int].kind;
    if a != TokenKind::Pipe && b != TokenKind::Pipe {
        if must_hug(before, a, b) {
            lemma_must_hug(before, a, b);
        }
        if must_part(before, a, b) {
            lemma_must_part(before, a, b);
        }
    }
}

/// The pipes of an `else |pattern| {` hug the pattern; any other pipe between operands has a
/// space on either side.
pub proof fn pipes_hug_their_pattern(s: Seq<char>, ts: Seq<Token>, f: Seq<char>, i: nat)
    requires
        s.len() <= usize::MAX,
        lexer::tokens(s, true) == Ok::<Seq<Token>, LexErrorV>(ts),
        fmt::formatted(s) == Ok::<Seq<char>, LexErrorV>(f),
        1 < i,
        i + 1 < stability::token_count(ts),
        !has_feed(s, ts[i - 1].end as int, ts[i as int].start as int),
        !lexer::is_comment(ts[i as int].kind),
        !lexer::is_comment(ts[i - 1].kind),
        !lexer::is_comment(ts[i - 2].kind),
        !lexer::is_comment(ts[i as int + 1].kind),
    ensures
        ts[i - 1].kind == TokenKind::Pipe && ts[i - 2].kind == TokenKind::Else ==> is_tight(s, ts, i),
        ts[i as int].kind == TokenKind::Pipe && ts[i - 1].kind != TokenKind::Else && ts[i as int + 1].kind
            == TokenKind::LBrace ==> is_tight(s, ts, i),
        ts[i as int].kind == TokenKind::Pipe && ends_operand(ts[i - 1].kind) && ts[i as int + 1].kind
            != TokenKind::LBrace ==> is_parted(s, ts, f, i),
        ts[i - 1].kind == TokenKind::Pipe && ts[i - 2].kind != TokenKind::Else && starts_operand(ts[i as int].kind)
            ==> is_parted(s, ts, f, i),
{
    assert(ts.len() > 0) by {
        lexer::tokens_are_in_order(s, ts);
    }
    lemma_space(s, ts, f, i);
    let before = stability::upto(s, ts, i).prev_prev;
    let a = ts[i - 1].kind;
    let b = ts[i as int].kind;
    assert(fmt::code_before(ts, i) == Some(a));
    assert(fmt::code_before(ts, (i - 1) as nat) == Some(ts[i - 2].kind));
    assert(fmt::code_from(ts, i + 1) == Some(ts[i as int + 1].kind));
    lemma_pipe(before, a, b);
}

proof fn lemma_pipe(before: Option<TokenKind>, a: TokenKind, b: TokenKind)
    ensures
        b == TokenKind::Pipe && ends_operand(a) ==> fmt::spaced_in_context(before, a, b),
        a == TokenKind::Pipe && starts_operand(b) ==> fmt::spaced_in_context(before, a, b),
{
}

/// A comment at the end of a line is kept there, with the blanks before it, or one space where
/// there were none.
pub proof fn comments_keep_their_distance(s: Seq<char>, ts: Seq<Token>, f: Seq<char>, i: nat)
    requires
        s.len() <= usize::MAX,
        lexer::tokens(s, true) == Ok::<Seq<Token>, LexErrorV>(ts),
        fmt::formatted(s) == Ok::<Seq<char>, LexErrorV>(f),
        0 < i < stability::token_count(ts),
        lexer::is_comment(ts[i as int].kind),
        forall|k: int| ts[i - 1].end <= k < ts[i as int].start ==> #[trigger] s[k] == ' ',
        !lexer::is_comment(ts[i - 1].kind),
    ensures
        ({
            let n = ts[i as int].start - ts[i - 1].end;
            let end = stability::printed_end(s, ts, i) as int;
            let at = stability::spot(s, ts, i) as int;
            &&& at - end == (if n > 0 {
                n
            } else {
                1
            })
            &&& forall|k: int| end <= k < at ==> #[trigger] f[k] == ' '
        }),
{
    lexer::tokens_are_in_order(s, ts);
    lemma_known(s, ts, i);
    stability::lemma_before_spot(s, ts, f, i);
    let p = stability::upto(s, ts, i);
    let from = ts[i - 1].end as int;
    let to = ts[i as int].start as int;
    lemma_feeds(s, from, to);
    lemma_kept_blanks(p.out, s, from, to);
    let g = fmt::with_gap(p, s, ts, i);
    let kept = p.out + s.subrange(from, to);
    reveal(fmt::with_gap);
    stability::lemma_solid_end(s, ts, i);
    if from < to {
        assert(kept.last() == s[to - 1]);
        assert(g == kept);
    } else {
        assert(kept =~= p.out);
        assert(g == p.out.push(' '));
    }
    assert forall|k: int| p.out.len() <= k < g.len() implies #[trigger] f[k] == ' ' by {
        assert(f[k] == g[k]);
        if from < to {
            assert(g[k] == s[from + (k - p.out.len())]);
        }
    }
}

proof fn lemma_kept_blanks(out: Seq<char>, s: Seq<char>, i: int, to: int)
    requires
        0 <= i <= to <= s.len(),
        forall|k: int| i <= k < to ==> #[trigger] s[k] == ' ',
    ensures
        fmt::kept_gap(out, s, i, to) == out + s.subrange(i, to),
    decreases to - i,
{
    if i < to {
        lemma_kept_blanks(out.push(s[i]), s, i + 1, to);
        assert(out.push(s[i]) + s.subrange(i + 1, to) =~= out + s.subrange(i, to));
    } else {
        assert(out + s.subrange(i, to) =~= out);
    }
}

} // verus!
