//! What the lines and columns of diagnostics count.
use vstd::prelude::*;
use vstd::utf8::{
    encode_scalar, encode_utf8, has_width_1_encoding, has_width_2_encoding, has_width_3_encoding, has_width_4_encoding,
    is_continuation_byte, is_scalar, last_continuation_byte, leading_byte_width_1, leading_byte_width_2,
    leading_byte_width_3, leading_byte_width_4, second_last_continuation_byte, third_last_continuation_byte,
};
use crate::chars;
use crate::diagnostics;
use crate::lexer;
use crate::diagnostics::Position;

verus! {

// ---------------------------------------------------------------------------
// The bytes of a character.

proof fn lemma_one_byte(c: u32)
    by (bit_vector)
    requires
        has_width_1_encoding(c),
    ensures
        leading_byte_width_1(c) <= 0x7f,
        leading_byte_width_1(c) == 10 <==> c == 10,
{
}

proof fn lemma_two_bytes(c: u32)
    by (bit_vector)
    requires
        has_width_2_encoding(c),
    ensures
        leading_byte_width_2(c) >= 0xc0,
        is_continuation_byte(last_continuation_byte(c)),
{
}

proof fn lemma_three_bytes(c: u32)
    by (bit_vector)
    requires
        has_width_3_encoding(c),
    ensures
        leading_byte_width_3(c) >= 0xe0,
        is_continuation_byte(second_last_continuation_byte(c)),
        is_continuation_byte(last_continuation_byte(c)),
{
}

proof fn lemma_four_bytes(c: u32)
    by (bit_vector)
    requires
        has_width_4_encoding(c),
    ensures
        leading_byte_width_4(c) >= 0xf0,
        is_continuation_byte(third_last_continuation_byte(c)),
        is_continuation_byte(second_last_continuation_byte(c)),
        is_continuation_byte(last_continuation_byte(c)),
{
}

/// A character's first byte continues none, and its other bytes do; a line feed is one byte,
/// which no other character has.
proof fn lemma_scalar_bytes(c: u32)
    requires
        is_scalar(c),
    ensures
        encode_scalar(c).len() >= 1,
        !is_continuation_byte(encode_scalar(c)[0]),
        forall|k: int| 0 < k < encode_scalar(c).len() ==> is_continuation_byte(#[trigger] encode_scalar(c)[k]),
        encode_scalar(c)[0] == 10 <==> c == 10,
        c == 10 ==> encode_scalar(c).len() == 1,
{
    if has_width_1_encoding(c) {
        lemma_one_byte(c);
    } else if has_width_2_encoding(c) {
        lemma_two_bytes(c);
    } else if has_width_3_encoding(c) {
        lemma_three_bytes(c);
    } else {
        lemma_four_bytes(c);
    }
}

proof fn lemma_char_bytes(c: char)
    ensures
        lexer::char_width(c) >= 1,
        !is_continuation_byte(encode_scalar(c as u32)[0]),
        forall|k: int| 0 < k < lexer::char_width(c) ==> is_continuation_byte(#[trigger] encode_scalar(c as u32)[k]),
        encode_scalar(c as u32)[0] == 10 <==> c == '\n',
        c == '\n' ==> lexer::char_width(c) == 1,
{
    vstd::utf8::char_is_scalar(c);
    lemma_scalar_bytes(c as u32);
}

/// The bytes of character `k` stand from its offset on.
proof fn lemma_bytes_of(s: Seq<char>, k: nat, j: int)
    requires
        k < s.len(),
        0 <= j < lexer::char_width(s[k as int]),
    ensures
        lexer::byte_pos(s, k) + j < encode_utf8(s).len(),
        encode_utf8(s)[lexer::byte_pos(s, k) + j] == encode_scalar(s[k as int] as u32)[j],
    decreases k,
{
    if k > 0 {
        let t = s.drop_first();
        lexer::lemma_byte_pos_shift(s, (k - 1) as nat);
        assert(t[k - 1] == s[k as int]);
        lemma_bytes_of(t, (k - 1) as nat, j);
    }
}

// ---------------------------------------------------------------------------
// Lines of a text in bytes.

/// The number of line feeds from `from` up to `to`.
pub open spec fn byte_feeds(b: Seq<u8>, from: int, to: int) -> nat
    decreases to - from,
{
    if to <= from {
        0
    } else {
        byte_feeds(b, from, to - 1) + (if b[to - 1] == 10 {
            1nat
        } else {
            0nat
        })
    }
}

/// The offset at which the line of offset `n` starts.
pub open spec fn line_begin(b: Seq<u8>, n: nat) -> nat
    decreases n,
{
    if n == 0 || n > b.len() {
        0
    } else if b[n - 1] == 10 {
        n
    } else {
        line_begin(b, (n - 1) as nat)
    }
}

proof fn lemma_byte_feeds_first(b: Seq<u8>, from: int, to: int)
    requires
        from < to,
    ensures
        byte_feeds(b, from, to) == (if b[from] == 10 {
            1nat
        } else {
            0nat
        }) + byte_feeds(b, from + 1, to),
    decreases to - from,
{
    if from + 1 < to {
        lemma_byte_feeds_first(b, from, to - 1);
    } else {
        reveal_with_fuel(byte_feeds, 2);
    }
}

/// The starts of the lines from `i` on lie after `i`.
proof fn lemma_later_starts(acc: Seq<u32>, b: Seq<u8>, i: nat)
    requires
        i <= b.len() < u32::MAX,
    ensures
        acc.len() <= diagnostics::starts_from(acc, b, i).len(),
        forall|k: int| 0 <= k < acc.len() ==> #[trigger] diagnostics::starts_from(acc, b, i)[k] == acc[k],
        forall|k: int| acc.len() <= k < diagnostics::starts_from(acc, b, i).len() ==> #[trigger] diagnostics::starts_from(acc, b, i)[k] > i,
    decreases b.len() - i,
{
    if i < b.len() {
        let next = if b[i as int] == 10 {
            acc.push((i + 1) as u32)
        } else {
            acc
        };
        lemma_later_starts(next, b, i + 1);
        let r = diagnostics::starts_from(acc, b, i);
        assert forall|k: int| 0 <= k < acc.len() implies #[trigger] r[k] == acc[k] by {
            assert(next[k] == acc[k]);
        }
        assert forall|k: int| acc.len() <= k < r.len() implies #[trigger] r[k] > i by {
            if k < next.len() {
                assert(r[k] == next[k]);
            }
        }
    }
}

proof fn lemma_line_after_at(r: Seq<u32>, byte: u32, i: nat, n: nat)
    requires
        i <= n <= r.len(),
        forall|k: int| 0 <= k < n ==> #[trigger] r[k] <= byte,
        n < r.len() ==> r[n as int] > byte,
    ensures
        diagnostics::line_after(r, byte, i) == n,
    decreases n - i,
{
    if i < n {
        assert(r[i as int] <= byte);
        lemma_line_after_at(r, byte, i + 1, n);
    }
}

/// The line of an offset is found among the starts.
proof fn lemma_line_of(acc: Seq<u32>, b: Seq<u8>, i: nat, byte: u32)
    requires
        i <= byte <= b.len() < u32::MAX,
        acc.len() > 0,
        forall|k: int| 0 <= k < acc.len() ==> #[trigger] acc[k] <= i,
        acc.last() == line_begin(b, i),
    ensures
        diagnostics::line_after(diagnostics::starts_from(acc, b, i), byte, 0) == acc.len() + byte_feeds(b, i as int, byte as int),
        acc.len() + byte_feeds(b, i as int, byte as int) <= diagnostics::starts_from(acc, b, i).len(),
        diagnostics::starts_from(acc, b, i)[acc.len() + byte_feeds(b, i as int, byte as int) - 1] == line_begin(b, byte as nat),
    decreases b.len() - i,
{
    if i == byte {
        lemma_later_starts(acc, b, i);
        let r = diagnostics::starts_from(acc, b, i);
        assert forall|k: int| 0 <= k < acc.len() implies #[trigger] r[k] <= byte by {
            assert(r[k] == acc[k]);
        }
        lemma_line_after_at(r, byte, 0, acc.len());
        assert(r[acc.len() - 1] == acc.last());
    } else {
        let next = if b[i as int] == 10 {
            acc.push((i + 1) as u32)
        } else {
            acc
        };
        assert forall|k: int| 0 <= k < next.len() implies #[trigger] next[k] <= i + 1 by {
            if k < acc.len() {
                assert(next[k] == acc[k]);
            }
        }
        lemma_line_of(next, b, i + 1, byte);
        lemma_byte_feeds_first(b, i as int, byte as int);
    }
}

/// The line of an offset is one more than the number of line feeds before it, and it starts
/// after the last of them.
pub proof fn lines_count_feeds(b: Seq<u8>, byte: u32)
    requires
        byte <= b.len() < u32::MAX,
    ensures
        diagnostics::line_of(diagnostics::line_starts(b), byte) == byte_feeds(b, 0, byte as int),
        byte_feeds(b, 0, byte as int) < diagnostics::line_starts(b).len(),
        diagnostics::line_starts(b)[byte_feeds(b, 0, byte as int) as int] == line_begin(b, byte as nat),
{
    lemma_line_of(seq![0u32], b, 0, byte);
}

// ---------------------------------------------------------------------------
// Lines and columns of a text in characters.

/// One character further.
proof fn lemma_one_character(s: Seq<char>, i: nat, from: int)
    requires
        i < s.len(),
        from <= lexer::byte_pos(s, i),
    ensures
        lexer::byte_pos(s, i + 1) == lexer::byte_pos(s, i) + lexer::char_width(s[i as int]),
        diagnostics::chars_between(encode_utf8(s), from, lexer::byte_pos(s, i + 1) as int) == diagnostics::chars_between(
            encode_utf8(s),
            from,
            lexer::byte_pos(s, i) as int,
        ) + 1,
        byte_feeds(encode_utf8(s), from, lexer::byte_pos(s, i + 1) as int) == byte_feeds(
            encode_utf8(s),
            from,
            lexer::byte_pos(s, i) as int,
        ) + (if s[i as int] == '\n' {
            1nat
        } else {
            0nat
        }),
{
    lemma_part_of_character(s, i, from, lexer::char_width(s[i as int]) as int);
}

proof fn lemma_part_of_character(s: Seq<char>, i: nat, from: int, n: int)
    requires
        i < s.len(),
        from <= lexer::byte_pos(s, i),
        1 <= n <= lexer::char_width(s[i as int]),
    ensures
        diagnostics::chars_between(encode_utf8(s), from, lexer::byte_pos(s, i) + n) == diagnostics::chars_between(
            encode_utf8(s),
            from,
            lexer::byte_pos(s, i) as int,
        ) + 1,
        byte_feeds(encode_utf8(s), from, lexer::byte_pos(s, i) + n) == byte_feeds(
            encode_utf8(s),
            from,
            lexer::byte_pos(s, i) as int,
        ) + (if s[i as int] == '\n' {
            1nat
        } else {
            0nat
        }),
    decreases n,
{
    lemma_char_bytes(s[i as int]);
    lemma_bytes_of(s, i, n - 1);
    if n > 1 {
        lemma_part_of_character(s, i, from, n - 1);
    }
}

proof fn lemma_characters_between(s: Seq<char>, a: nat, i: nat)
    requires
        a <= i <= s.len(),
    ensures
        lexer::byte_pos(s, a) <= lexer::byte_pos(s, i),
        diagnostics::chars_between(encode_utf8(s), lexer::byte_pos(s, a) as int, lexer::byte_pos(s, i) as int) == i - a,
    decreases i - a,
{
    if a < i {
        lemma_characters_between(s, a, (i - 1) as nat);
        lemma_one_character(s, (i - 1) as nat, lexer::byte_pos(s, a) as int);
    }
}

proof fn lemma_feeds_before(s: Seq<char>, i: nat)
    requires
        i <= s.len(),
    ensures
        byte_feeds(encode_utf8(s), 0, lexer::byte_pos(s, i) as int) == chars::feeds(s, 0, i as int),
        chars::feeds(s, 0, i as int) <= i,
    decreases i,
{
    if i > 0 {
        lemma_feeds_before(s, (i - 1) as nat);
        lemma_one_character(s, (i - 1) as nat, 0);
    }
}

proof fn lemma_begin_in_character(s: Seq<char>, i: nat, n: int)
    requires
        i < s.len(),
        1 <= n <= lexer::char_width(s[i as int]),
    ensures
        line_begin(encode_utf8(s), (lexer::byte_pos(s, i) + n) as nat) == (if s[i as int] == '\n' {
            lexer::byte_pos(s, i) + n
        } else {
            line_begin(encode_utf8(s), lexer::byte_pos(s, i)) as int
        }),
    decreases n,
{
    lemma_char_bytes(s[i as int]);
    lemma_bytes_of(s, i, n - 1);
    if n > 1 {
        lemma_begin_in_character(s, i, n - 1);
    }
}

proof fn lemma_begin(s: Seq<char>, i: nat)
    requires
        i <= s.len(),
    ensures
        line_begin(encode_utf8(s), lexer::byte_pos(s, i)) == lexer::byte_pos(s, chars::after_last(s, '\n', i)),
        chars::after_last(s, '\n', i) <= i,
    decreases i,
{
    chars::lemma_after_last(s, '\n', i);
    if i > 0 {
        let h = (i - 1) as nat;
        lemma_begin(s, h);
        lemma_char_bytes(s[h as int]);
        lemma_begin_in_character(s, h, lexer::char_width(s[h as int]) as int);
    }
}

/// The position of a character: its line is one more than the number of line feeds before it,
/// and its column is one more than the number of characters before it on its line.
pub proof fn positions_count_lines_and_characters(s: Seq<char>, i: nat)
    requires
        i <= s.len(),
        encode_utf8(s).len() < u32::MAX,
    ensures
        lexer::byte_pos(s, i) <= encode_utf8(s).len(),
        diagnostics::position_in(diagnostics::line_starts(encode_utf8(s)), lexer::byte_pos(s, i) as u32, encode_utf8(s)) == (Position {
            line: (1 + chars::feeds(s, 0, i as int)) as u32,
            col: (1 + i - chars::after_last(s, '\n', i)) as u32,
            byte: lexer::byte_pos(s, i) as u32,
        }),
{
    let b = encode_utf8(s);
    let a = chars::after_last(s, '\n', i);
    lexer::byte_pos_of_the_end(s);
    lemma_characters_between(s, i, s.len());
    lemma_characters_between(s, 0, i);
    lemma_width_bound(s, i);
    lemma_begin(s, i);
    lemma_characters_between(s, a, i);
    lemma_feeds_before(s, i);
    lines_count_feeds(b, lexer::byte_pos(s, i) as u32);
}

proof fn lemma_width_bound(s: Seq<char>, i: nat)
    requires
        i <= s.len(),
    ensures
        i <= lexer::byte_pos(s, i),
    decreases i,
{
    if i > 0 {
        lemma_width_bound(s, (i - 1) as nat);
        lemma_char_bytes(s[i - 1]);
    }
}

/// Positions keep the order of the text: of two characters, the later one is on a later line, or
/// on the same line in a later column.
pub proof fn positions_keep_order(s: Seq<char>, i: nat, j: nat)
    requires
        i < j <= s.len(),
        encode_utf8(s).len() < u32::MAX,
    ensures
        ({
            let b = encode_utf8(s);
            let p = diagnostics::position_in(diagnostics::line_starts(b), lexer::byte_pos(s, i) as u32, b);
            let q = diagnostics::position_in(diagnostics::line_starts(b), lexer::byte_pos(s, j) as u32, b);
            p.line < q.line || (p.line == q.line && p.col < q.col)
        }),
    decreases j - i,
{
    positions_count_lines_and_characters(s, i);
    positions_count_lines_and_characters(s, j);
    lexer::byte_pos_of_the_end(s);
    lemma_width_bound(s, s.len());
    lemma_feeds_before(s, i);
    lemma_feeds_before(s, j);
    lemma_order(s, i, j);
    chars::lemma_after_last(s, '\n', i);
    chars::lemma_after_last(s, '\n', j);
}

proof fn lemma_order(s: Seq<char>, i: nat, j: nat)
    requires
        i <= j <= s.len(),
    ensures
        chars::feeds(s, 0, i as int) <= chars::feeds(s, 0, j as int),
        chars::feeds(s, 0, i as int) == chars::feeds(s, 0, j as int) ==> chars::after_last(s, '\n', j) == chars::after_last(s, '\n', i),
    decreases j - i,
{
    if i < j {
        lemma_order(s, i, (j - 1) as nat);
    }
}

/// There are at most as many line feeds as bytes.
pub proof fn lemma_few_feeds(b: Seq<u8>, from: int, to: int)
    requires
        from <= to,
    ensures
        byte_feeds(b, from, to) <= to - from,
    decreases to - from,
{
    if from < to {
        lemma_few_feeds(b, from, to - 1);
    }
}

proof fn lemma_feeds_bound(s: Seq<char>, i: int)
    requires
        0 <= i,
    ensures
        chars::feeds(s, 0, i) <= i,
    decreases i,
{
    if i > 0 {
        lemma_feeds_bound(s, i - 1);
    }
}

/// Before a character there are at most as many line feeds as bytes, and its line starts before
/// it.
pub proof fn lemma_few_characters(s: Seq<char>, i: nat)
    requires
        i <= s.len(),
        encode_utf8(s).len() < u32::MAX,
    ensures
        1 + chars::feeds(s, 0, i as int) <= u32::MAX,
        chars::after_last(s, '\n', i) <= i,
        1 + i <= u32::MAX,
{
    lexer::byte_pos_of_the_end(s);
    lemma_width_bound(s, s.len());
    lemma_feeds_bound(s, i as int);
    chars::lemma_after_last(s, '\n', i);
}

} // verus!
