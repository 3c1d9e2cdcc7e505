//! Where a token ends: what may follow it without changing how it is read.
use vstd::prelude::*;
use crate::chars;
use crate::lexer;
use crate::lexer::{LexedV, Radix, TokenKind};

verus! {

/// Two texts agree on the characters from `i` up to `e` of the first and from `j` on of the
/// second.
pub open spec fn agree(s: Seq<char>, i: nat, e: nat, t: Seq<char>, j: nat) -> bool {
    &&& i <= e <= s.len()
    &&& j + (e - i) <= t.len()
    &&& forall|k: int| i <= k < e ==> #[trigger] s[k] == t[k - i + j]
}

/// Only decimal digits, and underscores between them.
pub open spec fn only_digits(w: Seq<char>) -> bool {
    lexer::digits_end(Radix::Decimal, w, 0) == w.len()
}

/// A token with the text `w` ends where the characters `x` and `y` follow.
pub open spec fn ends_before(k: TokenKind, w: Seq<char>, x: char, y: char) -> bool {
    let c = w[0];
    let d = if w.len() > 1 {
        w[1]
    } else {
        x
    };
    let e = if w.len() > 2 {
        w[2]
    } else if w.len() == 2 {
        x
    } else {
        y
    };
    if k == TokenKind::LineComment {
        x == '\n'
    } else if k == TokenKind::BlockComment || k == TokenKind::Str || k == TokenKind::CStr {
        true
    } else if lexer::is_digit(c) {
        !chars::is_name_char(x) && !(only_digits(w) && x == '.' && lexer::is_digit(y))
    } else if lexer::starts_name(c) {
        !chars::is_name_char(x) && x != '"'
    } else {
        !(c == '/' && (d == '/' || d == '*')) && lexer::punct(c, d, e) == Some((k, w.len()))
    }
}

proof fn lemma_name_moves(s: Seq<char>, i: nat, t: Seq<char>, j: nat)
    requires
        i <= s.len(),
        agree(s, i, lexer::name_end(s, i), t, j),
        !chars::is_name_char(lexer::char_at(t, (lexer::name_end(s, i) - i + j) as nat)),
    ensures
        lexer::name_end(t, j) == lexer::name_end(s, i) - i + j,
    decreases s.len() - i,
{
    if i < s.len() && chars::is_name_char(s[i as int]) {
        lexer::lemma_name_end(s, i + 1);
        assert(s[i as int] == t[i - i + j]);
        assert forall|k: int| i + 1 <= k < lexer::name_end(s, i + 1) implies #[trigger] s[k] == t[k - (i + 1) + (j + 1)] by {
            assert(s[k] == t[k - i + j]);
        }
        lemma_name_moves(s, i + 1, t, j + 1);
    }
}

proof fn lemma_digits_move(r: Radix, s: Seq<char>, i: nat, e: nat, t: Seq<char>, j: nat)
    requires
        agree(s, i, e, t, j),
        lexer::digits_end(r, s, i) <= e,
        lexer::digits_end(r, s, i) == e ==> !lexer::is_digit_of(r, lexer::char_at(t, (e - i + j) as nat)),
    ensures
        lexer::digits_end(r, t, j) == lexer::digits_end(r, s, i) - i + j,
    decreases e - i,
{
    lexer::lemma_digits_end(r, s, i);
    if i < e {
        assert(s[i as int] == t[i - i + j]);
        if lexer::is_digit_of(r, s[i as int]) {
            lexer::lemma_digits_end(r, s, i + 1);
            assert forall|k: int| i + 1 <= k < e implies #[trigger] s[k] == t[k - (i + 1) + (j + 1)] by {
                assert(s[k] == t[k - i + j]);
            }
            lemma_digits_move(r, s, i + 1, e, t, j + 1);
        }
    }
}

proof fn lemma_string_moves(s: Seq<char>, i: nat, e: nat, t: Seq<char>, j: nat)
    requires
        lexer::string_end(s, i) == Some(e),
        agree(s, i, e, t, j),
    ensures
        lexer::string_end(t, j) == Some((e - i + j) as nat),
    decreases s.len() - i,
{
    lexer::lemma_string_end(s, i);
    assert(s[i as int] == t[i - i + j]);
    if s[i as int] != '"' {
        let step: nat = if s[i as int] == '\\' {
            2
        } else {
            1
        };
        lexer::lemma_string_end(s, i + step);
        assert forall|k: int| i + step <= k < e implies #[trigger] s[k] == t[k - (i + step) + (j + step)] by {
            assert(s[k] == t[k - i + j]);
        }
        lemma_string_moves(s, i + step, e, t, j + step);
    }
}

proof fn lemma_comment_moves(s: Seq<char>, i: nat, e: nat, t: Seq<char>, j: nat)
    requires
        lexer::comment_end(s, i) == Some(e),
        agree(s, i, e, t, j),
    ensures
        lexer::comment_end(t, j) == Some((e - i + j) as nat),
    decreases s.len() - i,
{
    lexer::lemma_comment_end(s, i);
    assert(s[i as int] == t[i - i + j]);
    if !(s[i as int] == '*' && s[i as int + 1] == '/') {
        lexer::lemma_comment_end(s, i + 1);
        assert(s[i as int + 1] == t[i + 1 - i + j]);
        assert forall|k: int| i + 1 <= k < e implies #[trigger] s[k] == t[k - (i + 1) + (j + 1)] by {
            assert(s[k] == t[k - i + j]);
        }
        lemma_comment_moves(s, i + 1, e, t, j + 1);
    } else {
        assert(s[i as int + 1] == t[i + 1 - i + j]);
    }
}

proof fn lemma_no_suffix_is_an_exponent(w: Seq<char>)
    requires
        lexer::is_int_suffix(w) || lexer::is_float_suffix(w),
    ensures
        w.len() > 0,
        w[0] != 'e',
        w[0] != 'E',
        w[0] != '.',
{
    reveal_strlit("i8");
    reveal_strlit("i16");
    reveal_strlit("i32");
    reveal_strlit("i64");
    reveal_strlit("u8");
    reveal_strlit("u16");
    reveal_strlit("u32");
    reveal_strlit("u64");
    reveal_strlit("isize");
    reveal_strlit("usize");
    reveal_strlit("f32");
    reveal_strlit("f64");
}

proof fn lemma_suffix_moves(s: Seq<char>, d: nat, e: nat, float: bool, k: TokenKind, t: Seq<char>, j: nat)
    requires
        d <= s.len(),
        lexer::suffixed(s, d, float) == LexedV::Token(k, e),
        agree(s, d, e, t, j),
        !chars::is_name_char(lexer::char_at(t, (e - d + j) as nat)),
    ensures
        lexer::suffixed(t, j, float) == LexedV::Token(k, (e - d + j) as nat),
{
    lemma_name_moves(s, d, t, j);
    assert(s.subrange(d as int, e as int) =~= t.subrange(j as int, e - d + j)) by {
        assert forall|m: int| 0 <= m < e - d implies s.subrange(d as int, e as int)[m] == t.subrange(
            j as int,
            e - d + j,
        )[m] by {
            assert(s[d + m] == t[d + m - d + j]);
        }
    }
}

proof fn lemma_agree_later(s: Seq<char>, i: nat, e: nat, t: Seq<char>, j: nat, by: nat)
    requires
        agree(s, i, e, t, j),
        i + by <= e,
    ensures
        agree(s, i + by, e, t, j + by),
        by < e - i ==> s[i as int + by] == t[j as int + by],
{
    assert forall|k: int| i + by <= k < e implies #[trigger] s[k] == t[k - (i + by) + (j + by)] by {
        assert(s[k] == t[k - i + j]);
    }
    if by < e - i {
        assert(s[i as int + by] == t[i + by - i + j]);
    }
}

proof fn lemma_digits_of_part(s: Seq<char>, i: nat, e: nat)
    requires
        i <= e <= s.len(),
        lexer::digits_end(Radix::Decimal, s, i) == e,
    ensures
        only_digits(s.subrange(i as int, e as int)),
{
    let w = s.subrange(i as int, e as int);
    assert(agree(s, i, e, w, 0));
    lemma_digits_move(Radix::Decimal, s, i, e, w, 0);
}

proof fn lemma_fraction_moves(s: Seq<char>, i: nat, e: nat, t: Seq<char>, j: nat)
    requires
        agree(s, i, e, t, j),
        lexer::fraction_end(s, i) <= e,
        !chars::is_name_char(lexer::char_at(t, (e - i + j) as nat)),
        i == e ==> !(lexer::char_at(t, j) == '.' && lexer::is_digit(lexer::char_at(t, j + 1))),
        i < e && lexer::fraction_end(s, i) == i ==> s[i as int] != '.',
    ensures
        lexer::fraction_end(t, j) == lexer::fraction_end(s, i) - i + j,
{
    if lexer::fraction_end(s, i) != i {
        lexer::lemma_digits_end(Radix::Decimal, s, i + 1);
    }
    if i < e {
        lemma_agree_later(s, i, e, t, j, 0);
        if lexer::fraction_end(s, i) != i {
            lexer::lemma_digits_end(Radix::Decimal, s, i + 1);
            lexer::lemma_digits_end(Radix::Decimal, s, i + 2);
            lemma_agree_later(s, i, e, t, j, 1);
            lemma_digits_move(Radix::Decimal, s, i + 1, e, t, j + 1);
        }
    }
}

proof fn lemma_exponent_moves(s: Seq<char>, i: nat, e: nat, t: Seq<char>, j: nat)
    requires
        agree(s, i, e, t, j),
        lexer::exponent_end(s, i) <= e,
        !chars::is_name_char(lexer::char_at(t, (e - i + j) as nat)),
        i < e && lexer::exponent_end(s, i) == i ==> s[i as int] != 'e' && s[i as int] != 'E',
    ensures
        lexer::exponent_end(t, j) == lexer::exponent_end(s, i) - i + j,
{
    if lexer::exponent_end(s, i) != i {
        lexer::lemma_digits_end(Radix::Decimal, s, i + 1);
        if !lexer::is_digit(lexer::char_at(s, i + 1)) {
            lexer::lemma_digits_end(Radix::Decimal, s, i + 2);
        }
    }
    if i < e {
        lemma_agree_later(s, i, e, t, j, 0);
        if lexer::exponent_end(s, i) != i {
            if lexer::is_digit(lexer::char_at(s, i + 1)) {
                lexer::lemma_digits_end(Radix::Decimal, s, i + 1);
                lexer::lemma_digits_end(Radix::Decimal, s, i + 2);
                lemma_agree_later(s, i, e, t, j, 1);
                lemma_digits_move(Radix::Decimal, s, i + 1, e, t, j + 1);
            } else {
                lexer::lemma_digits_end(Radix::Decimal, s, i + 2);
                lexer::lemma_digits_end(Radix::Decimal, s, i + 3);
                lemma_agree_later(s, i, e, t, j, 1);
                lemma_agree_later(s, i, e, t, j, 2);
                lemma_digits_move(Radix::Decimal, s, i + 2, e, t, j + 2);
            }
        }
    }
}

proof fn lemma_number_moves(s: Seq<char>, i: nat, e: nat, k: TokenKind, t: Seq<char>, j: nat)
    requires
        i < s.len(),
        lexer::is_digit(s[i as int]),
        lexer::number_at(s, i) == LexedV::Token(k, e),
        agree(s, i, e, t, j),
        !chars::is_name_char(lexer::char_at(t, (e - i + j) as nat)),
        !(only_digits(s.subrange(i as int, e as int)) && lexer::char_at(t, (e - i + j) as nat) == '.' && lexer::is_digit(
            lexer::char_at(t, (e - i + j + 1) as nat),
        )),
    ensures
        lexer::number_at(t, j) == LexedV::Token(k, (e - i + j) as nat),
{
    let x = lexer::char_at(t, (e - i + j) as nat);
    lexer::lexing_advances(s, i);
    assert(lexer::lex_at(s, i) == lexer::number_at(s, i));
    lemma_agree_later(s, i, e, t, j, 0);
    if i + 1 < e {
        lemma_agree_later(s, i, e, t, j, 1);
    }
    match lexer::radix_prefix(s, i) {
        Some(r) => {
            let d = lexer::digits_end(r, s, i + 2);
            lexer::lemma_digits_end(r, s, i + 2);
            lexer::lemma_name_end(s, d);
            assert(d <= e);
            lemma_agree_later(s, i, e, t, j, 2);
            lemma_digits_move(r, s, i + 2, e, t, j + 2);
            lemma_agree_later(s, i, e, t, j, (d - i) as nat);
            lemma_suffix_moves(s, d, e, false, k, t, (d - i + j) as nat);
        },
        None => {
            let whole = lexer::digits_end(Radix::Decimal, s, i);
            lexer::lemma_digits_end(Radix::Decimal, s, i);
            lexer::lemma_digits_end(Radix::Decimal, s, i + 1);
            let fraction = lexer::fraction_end(s, whole);
            if fraction != whole {
                lexer::lemma_digits_end(Radix::Decimal, s, whole + 1);
            }
            let exponent = lexer::exponent_end(s, fraction);
            if exponent != fraction {
                if lexer::is_digit(lexer::char_at(s, fraction + 1)) {
                    lexer::lemma_digits_end(Radix::Decimal, s, fraction + 1);
                } else {
                    lexer::lemma_digits_end(Radix::Decimal, s, fraction + 2);
                }
            }
            lexer::lemma_name_end(s, exponent);
            assert(whole <= fraction <= exponent <= e);
            let w = s.subrange(exponent as int, e as int);
            if exponent < e {
                lemma_no_suffix_is_an_exponent(w);
                assert(w[0] == s[exponent as int]);
            }
            assert(lexer::radix_prefix(t, j) is None);
            lemma_digits_move(Radix::Decimal, s, i, e, t, j);
            if whole == e {
                lemma_digits_of_part(s, i, e);
            }
            lemma_agree_later(s, i, e, t, j, (whole - i) as nat);
            lemma_fraction_moves(s, whole, e, t, (whole - i + j) as nat);
            lemma_agree_later(s, i, e, t, j, (fraction - i) as nat);
            lemma_exponent_moves(s, fraction, e, t, (fraction - i + j) as nat);
            lemma_agree_later(s, i, e, t, j, (exponent - i) as nat);
            lemma_suffix_moves(s, exponent, e, exponent > whole, k, t, (exponent - i + j) as nat);
        },
    }
}

/// A token is read from its own text and from the two characters after it: wherever the same
/// text stands before characters that end it, the same token is read.
pub proof fn reading_is_local(s: Seq<char>, i: nat, e: nat, k: TokenKind, t: Seq<char>, j: nat)
    requires
        lexer::reads(s, i, k, e),
        i <= e,
        j + (e - i) <= t.len(),
        t.subrange(j as int, j + (e - i)) == s.subrange(i as int, e as int),
        ends_before(
            k,
            s.subrange(i as int, e as int),
            lexer::char_at(t, (j + (e - i)) as nat),
            lexer::char_at(t, (j + (e - i) + 1) as nat),
        ),
    ensures
        lexer::reads(t, j, k, (j + (e - i)) as nat),
{
    reveal(lexer::reads);
    lexer::lexing_advances(s, i);
    let w = s.subrange(i as int, e as int);
    let v = t.subrange(j as int, j + (e - i));
    assert(agree(s, i, e, t, j)) by {
        assert forall|m: int| i <= m < e implies #[trigger] s[m] == t[m - i + j] by {
            assert(w[m - i] == v[m - i]);
        }
    }
    lemma_agree_later(s, i, e, t, j, 0);
    if i + 1 < e {
        lemma_agree_later(s, i, e, t, j, 1);
    }
    if i + 2 < e {
        lemma_agree_later(s, i, e, t, j, 2);
    }
    let c = s[i as int];
    let d = lexer::char_at(s, i + 1);
    if c == '/' && d == '/' {
        chars::lemma_find_char(s, '\n', i);
        chars::lemma_find_char(t, '\n', j);
        assert(i + 1 < e);
        let p = chars::find_char(t, '\n', j);
        let q = j + (e - i);
        if p < q {
            assert(s[p - j + i] == t[p - j + i - i + j]);
        }
        assert(t[q as int] == '\n');
    } else if c == '/' && d == '*' {
        lexer::lemma_comment_end(s, i + 2);
        lemma_agree_later(s, i, e, t, j, 2);
        lemma_comment_moves(s, i + 2, e, t, j + 2);
    } else if c == '"' {
        lemma_agree_later(s, i, e, t, j, 1);
        lemma_string_moves(s, i + 1, e, t, j + 1);
    } else if c == 'c' && d == '"' {
        lexer::lemma_string_end(s, i + 2);
        lemma_agree_later(s, i, e, t, j, 2);
        lemma_string_moves(s, i + 2, e, t, j + 2);
    } else if lexer::is_digit(c) {
        assert(w[0] == c);
        lemma_number_moves(s, i, e, k, t, j);
    } else if lexer::starts_name(c) {
        assert(w[0] == c);
        lemma_name_moves(s, i, t, j);
        assert(t.subrange(j as int, j + (e - i)) =~= w);
        if i + 1 < e {
            assert(t[j as int + 1] == s[i as int + 1]);
        }
    } else {
        assert(w[0] == c);
    }
}

// ---------------------------------------------------------------------------
// The first and the last character of a token.

proof fn lemma_name_chars(s: Seq<char>, i: nat)
    requires
        i <= s.len(),
    ensures
        forall|k: int| i <= k < lexer::name_end(s, i) ==> chars::is_name_char(#[trigger] s[k]),
    decreases s.len() - i,
{
    if i < s.len() && chars::is_name_char(s[i as int]) {
        lemma_name_chars(s, i + 1);
    }
}

proof fn lemma_digit_chars(r: Radix, s: Seq<char>, i: nat)
    requires
        i <= s.len(),
    ensures
        forall|k: int| i <= k < lexer::digits_end(r, s, i) ==> chars::is_name_char(#[trigger] s[k]),
    decreases s.len() - i,
{
    if i < s.len() && lexer::is_digit_of(r, s[i as int]) {
        lemma_digit_chars(r, s, i + 1);
    }
}

proof fn lemma_string_last(s: Seq<char>, i: nat)
    ensures
        lexer::string_end(s, i) matches Some(e) ==> s[e - 1] == '"',
    decreases s.len() - i,
{
    if i < s.len() && s[i as int] != '"' && s[i as int] != '\n' {
        if s[i as int] == '\\' {
            if i + 1 < s.len() {
                lemma_string_last(s, i + 2);
            }
        } else {
            lemma_string_last(s, i + 1);
        }
    }
}

proof fn lemma_comment_last(s: Seq<char>, i: nat)
    ensures
        lexer::comment_end(s, i) matches Some(e) ==> s[e - 1] == '/',
    decreases s.len() - i,
{
    if i + 1 < s.len() && !(s[i as int] == '*' && s[i as int + 1] == '/') {
        lemma_comment_last(s, i + 1);
    }
}

proof fn lemma_number_last(s: Seq<char>, i: nat)
    requires
        i < s.len(),
        lexer::is_digit(s[i as int]),
    ensures
        lexer::number_at(s, i) matches LexedV::Token(_, e) ==> chars::is_name_char(s[e - 1]),
{
    lexer::lexing_advances(s, i);
    match lexer::radix_prefix(s, i) {
        Some(r) => {
            let d = lexer::digits_end(r, s, i + 2);
            lexer::lemma_digits_end(r, s, i + 2);
            lemma_digit_chars(r, s, i + 2);
            lexer::lemma_name_end(s, d);
            lemma_name_chars(s, d);
        },
        None => {
            let whole = lexer::digits_end(Radix::Decimal, s, i);
            lexer::lemma_digits_end(Radix::Decimal, s, i);
            lexer::lemma_digits_end(Radix::Decimal, s, i + 1);
            lemma_digit_chars(Radix::Decimal, s, i);
            let fraction = lexer::fraction_end(s, whole);
            if fraction != whole {
                lexer::lemma_digits_end(Radix::Decimal, s, whole + 1);
                lexer::lemma_digits_end(Radix::Decimal, s, whole + 2);
                lemma_digit_chars(Radix::Decimal, s, whole + 1);
            }
            assert(chars::is_name_char(s[fraction - 1]));
            let exponent = lexer::exponent_end(s, fraction);
            if exponent != fraction {
                if lexer::is_digit(lexer::char_at(s, fraction + 1)) {
                    lexer::lemma_digits_end(Radix::Decimal, s, fraction + 1);
                    lexer::lemma_digits_end(Radix::Decimal, s, fraction + 2);
                    lemma_digit_chars(Radix::Decimal, s, fraction + 1);
                } else {
                    lexer::lemma_digits_end(Radix::Decimal, s, fraction + 2);
                    lexer::lemma_digits_end(Radix::Decimal, s, fraction + 3);
                    lemma_digit_chars(Radix::Decimal, s, fraction + 2);
                }
            }
            assert(chars::is_name_char(s[exponent - 1]));
            lexer::lemma_name_end(s, exponent);
            lemma_name_chars(s, exponent);
        },
    }
}

/// A token neither starts nor ends with white space, except that a line comment takes in what
/// is left of its line.
pub proof fn tokens_have_solid_ends(s: Seq<char>, i: nat, e: nat, k: TokenKind)
    requires
        lexer::reads(s, i, k, e),
    ensures
        i < e <= s.len(),
        !lexer::is_blank(s[i as int]),
        k != TokenKind::LineComment ==> !lexer::is_blank(s[e - 1]),
        k == TokenKind::LineComment ==> s[i as int] == '/' && i + 1 < e && s[i as int + 1] == '/' && (forall|m: int|
            i <= m < e ==> #[trigger] s[m] != '\n') && (e < s.len() ==> s[e as int] == '\n'),
{
    reveal(lexer::reads);
    lexer::lexing_advances(s, i);
    let c = s[i as int];
    let d = lexer::char_at(s, i + 1);
    if c == '/' && d == '/' {
        chars::lemma_find_char(s, '\n', i);
    } else if c == '/' && d == '*' {
        lemma_comment_last(s, i + 2);
    } else if c == '"' {
        lemma_string_last(s, i + 1);
    } else if c == 'c' && d == '"' {
        lemma_string_last(s, i + 2);
    } else if lexer::is_digit(c) {
        lemma_number_last(s, i);
    } else if lexer::starts_name(c) {
        lemma_name_chars(s, i);
    }
}

proof fn lemma_digits_inside(w: Seq<char>, i: nat, k: int)
    requires
        lexer::digits_end(Radix::Decimal, w, i) == w.len(),
        i <= k < w.len(),
    ensures
        lexer::is_digit_of(Radix::Decimal, w[k]),
    decreases w.len() - i,
{
    if i < k {
        lemma_digits_inside(w, i + 1, k);
    }
}

proof fn lemma_digits_reach(s: Seq<char>, i: nat, e: nat)
    requires
        i <= e <= s.len(),
        forall|k: int| i <= k < e ==> lexer::is_digit_of(Radix::Decimal, #[trigger] s[k]),
    ensures
        lexer::digits_end(Radix::Decimal, s, i) >= e,
    decreases e - i,
{
    lexer::lemma_digits_end(Radix::Decimal, s, i);
    if i < e {
        lemma_digits_reach(s, i + 1, e);
    }
}

/// A number of digits alone is an integer.
pub proof fn digits_alone_are_an_integer(s: Seq<char>, i: nat, e: nat, k: TokenKind)
    requires
        lexer::reads(s, i, k, e),
        lexer::is_digit(s[i as int]),
        only_digits(s.subrange(i as int, e as int)),
    ensures
        k == TokenKind::Int,
{
    reveal(lexer::reads);
    lexer::lexing_advances(s, i);
    assert(lexer::lex_at(s, i) == lexer::number_at(s, i));
    let w = s.subrange(i as int, e as int);
    assert forall|j: int| i <= j < e implies lexer::is_digit_of(Radix::Decimal, #[trigger] s[j]) by {
        lemma_digits_inside(w, 0, j - i);
        assert(w[j - i] == s[j]);
    }
    match lexer::radix_prefix(s, i) {
        Some(r) => {
            let d = lexer::digits_end(r, s, i + 2);
            lexer::lemma_digits_end(r, s, i + 2);
            lexer::lemma_name_end(s, d);
            assert(lexer::is_digit_of(Radix::Decimal, s[i as int + 1]));
        },
        None => {
            let whole = lexer::digits_end(Radix::Decimal, s, i);
            lemma_digits_reach(s, i, e);
            lexer::lemma_digits_end(Radix::Decimal, s, i);
            let fraction = lexer::fraction_end(s, whole);
            if fraction != whole {
                lexer::lemma_digits_end(Radix::Decimal, s, whole + 1);
            }
            let exponent = lexer::exponent_end(s, fraction);
            if exponent != fraction {
                lexer::lemma_digits_end(Radix::Decimal, s, fraction + 1);
                if !lexer::is_digit(lexer::char_at(s, fraction + 1)) {
                    lexer::lemma_digits_end(Radix::Decimal, s, fraction + 2);
                }
            }
            lexer::lemma_name_end(s, exponent);
        },
    }
}

} // verus!
