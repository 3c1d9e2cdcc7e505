//! Tests from documentation: each fenced block in a `///` comment becomes a test function.
use vstd::prelude::*;
use vstd::string::*;
use crate::chars;
use crate::lexer;
use crate::sigs;
use crate::text;
use crate::chars::{append_chars, append_text, chars_of, has_prefix, lines_of, slice_chars, string_of, stripped_prefix, trimmed, trimmed_start};
use crate::lexer::end_of_name;
use crate::text::{decimal_text, str_eq};

verus! {

/// A line of a documentation comment.
pub open spec fn is_doc(line: Seq<char>) -> bool {
    chars::starts_with(chars::trim_start(line), "///"@)
}

pub fn is_doc_line(line: &Vec<char>) -> (r: bool)
    ensures
        r == is_doc(line@),
{
    has_prefix(&trimmed_start(line), "///")
}

/// The text without the prefix, where it has it.
pub open spec fn without_prefix(s: Seq<char>, p: Seq<char>) -> Seq<char> {
    match chars::strip_prefix(s, p) {
        Some(t) => t,
        None => s,
    }
}

pub fn drop_prefix(v: &Vec<char>, p: &str) -> (r: Vec<char>)
    ensures
        r@ == without_prefix(v@, p@),
{
    match stripped_prefix(v, p) {
        Some(t) => t,
        None => {
            let r = slice_chars(v, 0, v.len());
            assert(r@ =~= v@);
            r
        },
    }
}

/// What a documentation line says: the marker and one space after it are left out.
pub open spec fn doc_text(line: Seq<char>) -> Seq<char> {
    without_prefix(without_prefix(chars::trim_start(line), "///"@), " "@)
}

pub fn strip_doc_prefix(line: &Vec<char>) -> (r: Vec<char>)
    ensures
        r@ == doc_text(line@),
{
    drop_prefix(&drop_prefix(&trimmed_start(line), "///"), " ")
}

/// The end of the run of documentation lines from `i` on.
pub open spec fn doc_end(ls: Seq<Seq<char>>, i: nat) -> nat
    decreases ls.len() - i,
{
    if i < ls.len() && is_doc(ls[i as int]) {
        doc_end(ls, i + 1)
    } else {
        i
    }
}

pub proof fn lemma_doc_end(ls: Seq<Seq<char>>, i: nat)
    requires
        i <= ls.len(),
    ensures
        i <= doc_end(ls, i) <= ls.len(),
        i < ls.len() && is_doc(ls[i as int]) ==> i < doc_end(ls, i),
    decreases ls.len() - i,
{
    if i < ls.len() && is_doc(ls[i as int]) {
        lemma_doc_end(ls, i + 1);
    }
}

/// What the documentation lines from `i` up to `j` say.
pub open spec fn doc_lines(ls: Seq<Seq<char>>, i: int, j: int) -> Seq<Seq<char>> {
    Seq::new((j - i) as nat, |k: int| doc_text(ls[i + k]))
}

/// The documentation lines from `i` on: what they say, and where they end.
pub fn doc_block(ls: &Vec<Vec<char>>, i: usize) -> (r: (Vec<Vec<char>>, usize))
    requires
        i <= ls@.len(),
    ensures
        r.1 == doc_end(ls.deep_view(), i as nat),
        i <= r.1 <= ls@.len(),
        r.0.deep_view() == doc_lines(ls.deep_view(), i as int, r.1 as int),
{
    let ghost lv = ls.deep_view();
    let mut out: Vec<Vec<char>> = Vec::new();
    let mut j: usize = i;
    while j < ls.len() && is_doc_line(&ls[j])
        invariant
            i <= j <= ls@.len(),
            lv == ls.deep_view(),
            doc_end(lv, j as nat) == doc_end(lv, i as nat),
            out@.len() == j - i,
            forall|k: int| 0 <= k < out@.len() ==> (#[trigger] out@[k])@ == doc_text(lv[i + k]),
        decreases ls@.len() - j,
    {
        assert(lv[j as int] =~= ls@[j as int]@);
        out.push(strip_doc_prefix(&ls[j]));
        j += 1;
    }
    proof {
        if j < ls@.len() {
            assert(lv[j as int] =~= ls@[j as int]@);
        }
        assert forall|k: int| 0 <= k < out@.len() implies #[trigger] out.deep_view()[k] == doc_lines(
            lv,
            i as int,
            j as int,
        )[k] by {
            assert(out@[k].deep_view() =~= out@[k]@);
        }
        assert(out.deep_view() =~= doc_lines(lv, i as int, j as int));
    }
    (out, j)
}

pub open spec fn is_fence(line: Seq<char>) -> bool {
    chars::trim(line) == "```"@
}

fn is_fence_line(line: &Vec<char>) -> (r: bool)
    ensures
        r == is_fence(line@),
{
    str_eq(string_of(&trimmed(line)).as_str(), "```")
}

/// The first fence from `i` on, or the end.
pub open spec fn next_fence(ls: Seq<Seq<char>>, i: nat) -> nat
    decreases ls.len() - i,
{
    if i >= ls.len() {
        ls.len()
    } else if is_fence(ls[i as int]) {
        i
    } else {
        next_fence(ls, i + 1)
    }
}

pub proof fn lemma_next_fence(ls: Seq<Seq<char>>, i: nat)
    requires
        i <= ls.len(),
    ensures
        i <= next_fence(ls, i) <= ls.len(),
    decreases ls.len() - i,
{
    if i < ls.len() && !is_fence(ls[i as int]) {
        lemma_next_fence(ls, i + 1);
    }
}

fn find_fence(ls: &Vec<Vec<char>>, from: usize) -> (r: usize)
    requires
        from <= ls@.len(),
    ensures
        r == next_fence(ls.deep_view(), from as nat),
        from <= r <= ls@.len(),
{
    let mut i: usize = from;
    while i < ls.len()
        invariant
            from <= i <= ls@.len(),
            next_fence(ls.deep_view(), i as nat) == next_fence(ls.deep_view(), from as nat),
        decreases ls@.len() - i,
    {
        assert(ls.deep_view()[i as int] =~= ls@[i as int]@);
        if is_fence_line(&ls[i]) {
            return i;
        }
        i += 1;
    }
    i
}

pub open spec fn with_lines(out: Seq<char>, ls: Seq<Seq<char>>, i: nat, to: nat) -> Seq<char>
    decreases to - i,
{
    if i >= to {
        out
    } else {
        with_lines(out + ls[i as int] + "\n"@, ls, i + 1, to)
    }
}

pub fn append_lines(out: &mut Vec<char>, ls: &Vec<Vec<char>>, from: usize, to: usize)
    requires
        from <= to <= ls@.len(),
    ensures
        final(out)@ == with_lines(old(out)@, ls.deep_view(), from as nat, to as nat),
{
    let mut i: usize = from;
    while i < to
        invariant
            from <= i <= to <= ls@.len(),
            with_lines(out@, ls.deep_view(), i as nat, to as nat) == with_lines(
                old(out)@,
                ls.deep_view(),
                from as nat,
                to as nat,
            ),
        decreases to - i,
    {
        assert(ls.deep_view()[i as int] =~= ls@[i as int]@);
        append_chars(out, &ls[i], 0, ls[i].len());
        assert(ls@[i as int]@.subrange(0, ls@[i as int]@.len() as int) =~= ls@[i as int]@);
        append_text(out, "\n");
        i += 1;
    }
}

/// The name of the test made from a fenced block.
pub open spec fn test_name(item: Seq<char>, idx: nat) -> Seq<char> {
    "__doctest_"@ + item + "_"@ + text::decimal(idx)
}

/// The test made from the lines between two fences.
pub open spec fn with_test(out: Seq<char>, item: Seq<char>, idx: nat, ls: Seq<Seq<char>>, from: nat, to: nat) -> Seq<char> {
    with_lines(out + "\n#[test]\nfn "@ + test_name(item, idx) + "() {\n"@, ls, from, to) + "}\n"@
}

/// The tests made from the fenced blocks from line `i` on; one that is not closed makes none.
pub open spec fn with_tests(out: Seq<char>, item: Seq<char>, ls: Seq<Seq<char>>, idx: nat, i: nat) -> Seq<char>
    decreases ls.len() - i,
{
    if i >= ls.len() {
        out
    } else if is_fence(ls[i as int]) {
        let e = next_fence(ls, i + 1);
        proof {
            lemma_next_fence(ls, i + 1);
        }
        if e < ls.len() {
            with_tests(with_test(out, item, idx, ls, i + 1, e), item, ls, idx + 1, e + 1)
        } else {
            out
        }
    } else {
        with_tests(out, item, ls, idx, i + 1)
    }
}

fn append_tests(out: &mut Vec<char>, item: &str, ls: &Vec<Vec<char>>)
    ensures
        final(out)@ == with_tests(old(out)@, item@, ls.deep_view(), 0, 0),
{
    let ghost lv = ls.deep_view();
    let n: usize = ls.len();
    let mut idx: usize = 0;
    let mut i: usize = 0;
    while i < n
        invariant
            i <= n,
            idx <= i,
            n == ls@.len(),
            lv == ls.deep_view(),
            with_tests(out@, item@, lv, idx as nat, i as nat) == with_tests(old(out)@, item@, lv, 0, 0),
        decreases n - i,
    {
        assert(lv[i as int] =~= ls@[i as int]@);
        if is_fence_line(&ls[i]) {
            let e: usize = find_fence(ls, i + 1);
            if e >= n {
                return;
            }
            let mut head: String = "__doctest_".to_owned();
            head.append(item);
            head.append("_");
            head.append(decimal_text(idx as u64).as_str());
            assert(head@ == test_name(item@, idx as nat));
            append_text(out, "\n#[test]\nfn ");
            append_text(out, head.as_str());
            append_text(out, "() {\n");
            append_lines(out, ls, i + 1, e);
            append_text(out, "}\n");
            idx += 1;
            i = e + 1;
        } else {
            i += 1;
        }
    }
}

/// The name at the start of a text.
pub open spec fn leading_name(s: Seq<char>) -> Seq<char> {
    s.take(lexer::name_end(s, 0) as int)
}

pub fn name_at_start(v: &Vec<char>) -> (r: Vec<char>)
    ensures
        r@ == leading_name(v@),
{
    let r = slice_chars(v, 0, end_of_name(v, 0));
    assert(r@ =~= leading_name(v@));
    r
}

/// What follows the keyword of an item, whether the item is public or foreign.
pub open spec fn after_keyword(line: Seq<char>) -> Option<Seq<char>> {
    let t = without_prefix(without_prefix(line, "pub "@), "extern "@);
    if chars::starts_with(t, "fn "@) {
        chars::strip_prefix(t, "fn "@)
    } else if chars::starts_with(t, "struct "@) {
        chars::strip_prefix(t, "struct "@)
    } else if chars::starts_with(t, "enum "@) {
        chars::strip_prefix(t, "enum "@)
    } else if chars::starts_with(t, "interface "@) {
        chars::strip_prefix(t, "interface "@)
    } else if chars::starts_with(t, "type "@) {
        chars::strip_prefix(t, "type "@)
    } else if chars::starts_with(t, "const "@) {
        chars::strip_prefix(t, "const "@)
    } else if chars::starts_with(t, "static "@) {
        chars::strip_prefix(t, "static "@)
    } else {
        chars::strip_prefix(t, "impl "@)
    }
}

/// A line between a documentation comment and its item: blank, a comment or an attribute.
pub open spec fn is_between(t: Seq<char>) -> bool {
    ||| t.len() == 0
    ||| chars::starts_with(t, "//"@) && !chars::starts_with(t, "///"@)
    ||| chars::starts_with(t, "#["@)
}

pub fn is_between_line(t: &Vec<char>) -> (r: bool)
    ensures
        r == is_between(t@),
{
    t.len() == 0 || (has_prefix(t, "//") && !has_prefix(t, "///")) || has_prefix(t, "#[")
}

/// The name of the item that follows a documentation comment.
pub open spec fn item_name(ls: Seq<Seq<char>>, i: nat) -> Option<Seq<char>>
    decreases ls.len() - i,
{
    if i >= ls.len() {
        None
    } else {
        let t = chars::trim_start(ls[i as int]);
        if is_between(t) {
            item_name(ls, i + 1)
        } else {
            match after_keyword(t) {
                Some(rest) => if leading_name(rest).len() > 0 {
                    Some(leading_name(rest))
                } else {
                    None
                },
                None => None,
            }
        }
    }
}

fn strip_keyword(line: &Vec<char>) -> (r: Option<Vec<char>>)
    ensures
        chars::opt_chars(r) == after_keyword(line@),
{
    let t = drop_prefix(&drop_prefix(line, "pub "), "extern ");
    if has_prefix(&t, "fn ") {
        stripped_prefix(&t, "fn ")
    } else if has_prefix(&t, "struct ") {
        stripped_prefix(&t, "struct ")
    } else if has_prefix(&t, "enum ") {
        stripped_prefix(&t, "enum ")
    } else if has_prefix(&t, "interface ") {
        stripped_prefix(&t, "interface ")
    } else if has_prefix(&t, "type ") {
        stripped_prefix(&t, "type ")
    } else if has_prefix(&t, "const ") {
        stripped_prefix(&t, "const ")
    } else if has_prefix(&t, "static ") {
        stripped_prefix(&t, "static ")
    } else {
        stripped_prefix(&t, "impl ")
    }
}

fn find_next_item_name(ls: &Vec<Vec<char>>, from: usize) -> (r: Option<String>)
    requires
        from <= ls@.len(),
    ensures
        sigs::opt_name(r) == item_name(ls.deep_view(), from as nat),
{
    let mut i: usize = from;
    while i < ls.len()
        invariant
            from <= i <= ls@.len(),
            item_name(ls.deep_view(), i as nat) == item_name(ls.deep_view(), from as nat),
        decreases ls@.len() - i,
    {
        assert(ls.deep_view()[i as int] =~= ls@[i as int]@);
        let t = trimmed_start(&ls[i]);
        if is_between_line(&t) {
            i += 1;
        } else {
            return match strip_keyword(&t) {
                Some(rest) => {
                    let name = name_at_start(&rest);
                    if name.len() > 0 {
                        Some(string_of(&name))
                    } else {
                        None
                    }
                },
                None => None,
            };
        }
    }
    None
}

/// The name that the tests of the comment from line `i` up to `j` are given.
pub open spec fn block_name(ls: Seq<Seq<char>>, i: nat, j: nat) -> Seq<char> {
    match item_name(ls, j) {
        Some(n) => n,
        None => "anon_l"@ + text::decimal(i + 1),
    }
}

/// The tests made from the documentation comments from line `i` on.
pub open spec fn made_tests(out: Seq<char>, ls: Seq<Seq<char>>, i: nat) -> Seq<char>
    decreases ls.len() - i,
{
    if i >= ls.len() {
        out
    } else if !is_doc(ls[i as int]) {
        made_tests(out, ls, i + 1)
    } else {
        let j = doc_end(ls, i);
        proof {
            lemma_doc_end(ls, i);
        }
        made_tests(with_tests(out, block_name(ls, i, j), doc_lines(ls, i as int, j as int), 0, 0), ls, j)
    }
}

/// The source followed by the tests in its comments; unchanged where there are none.
pub open spec fn extracted(src: Seq<char>) -> Seq<char> {
    let made = made_tests(Seq::empty(), chars::lines(src), 0);
    if made.len() == 0 {
        src
    } else if src.len() > 0 && src.last() == '\n' {
        src + made
    } else {
        src + "\n"@ + made
    }
}

/// Appends to a source a test function for each fenced block in its documentation comments.
pub fn extract(src: &str) -> (r: String)
    ensures
        r@ == extracted(src@),
{
    let v = chars_of(src);
    let ls = lines_of(&v);
    let ghost lv = ls.deep_view();
    let n: usize = ls.len();
    let mut made: Vec<char> = Vec::new();
    let mut i: usize = 0;
    while i < n
        invariant
            i <= n,
            n == ls@.len(),
            lv == ls.deep_view(),
            made_tests(made@, lv, i as nat) == made_tests(Seq::empty(), lv, 0),
        decreases n - i,
    {
        assert(lv[i as int] =~= ls@[i as int]@);
        if !is_doc_line(&ls[i]) {
            i += 1;
        } else {
            proof {
                lemma_doc_end(lv, i as nat);
            }
            let (bodies, j) = doc_block(&ls, i);
            let name = match find_next_item_name(&ls, j) {
                Some(n) => n,
                None => {
                    let mut s: String = "anon_l".to_owned();
                    s.append(decimal_text(i as u64 + 1).as_str());
                    s
                },
            };
            append_tests(&mut made, name.as_str(), &bodies);
            i = j;
        }
    }
    if made.len() == 0 {
        return src.to_owned();
    }
    let mut out: String = src.to_owned();
    if !(v.len() > 0 && v[v.len() - 1] == '\n') {
        out.append("\n");
    }
    out.append(string_of(&made).as_str());
    out
}

// ---------------------------------------------------------------------------
// Display names.

fn past_last(v: &Vec<char>, c: char) -> (r: usize)
    ensures
        r == chars::after_last(v@, c, v@.len()),
        r <= v@.len(),
{
    let mut i: usize = v.len();
    while i > 0
        invariant
            i <= v@.len(),
            chars::after_last(v@, c, i as nat) == chars::after_last(v@, c, v@.len()),
        decreases i,
    {
        if v[i - 1] == c {
            return i;
        }
        i -= 1;
    }
    0
}

pub open spec fn all_digits(s: Seq<char>) -> bool {
    forall|i: int| 0 <= i < s.len() ==> '0' <= #[trigger] s[i] <= '9'
}

fn is_all_digits(v: &Vec<char>) -> (r: bool)
    ensures
        r == all_digits(v@),
{
    let mut i: usize = 0;
    while i < v.len()
        invariant
            i <= v@.len(),
            forall|j: int| 0 <= j < i ==> '0' <= #[trigger] v@[j] <= '9',
        decreases v@.len() - i,
    {
        if !('0' <= v[i] && v[i] <= '9') {
            return false;
        }
        i += 1;
    }
    true
}

/// The qualifier with `::` for each dot.
pub open spec fn with_colons(out: Seq<char>, s: Seq<char>, i: nat) -> Seq<char>
    decreases s.len() - i,
{
    if i >= s.len() {
        out
    } else {
        with_colons(
            if s[i as int] == '.' {
                out + "::"@
            } else {
                out.push(s[i as int])
            },
            s,
            i + 1,
        )
    }
}

fn append_with_colons(out: &mut Vec<char>, v: &Vec<char>)
    ensures
        final(out)@ == with_colons(old(out)@, v@, 0),
{
    let mut i: usize = 0;
    while i < v.len()
        invariant
            i <= v@.len(),
            with_colons(out@, v@, i as nat) == with_colons(old(out)@, v@, 0),
        decreases v@.len() - i,
    {
        if v[i] == '.' {
            append_text(out, "::");
        } else {
            out.push(v[i]);
        }
        i += 1;
    }
}

/// The item and the index in the name of a test made from documentation.
pub open spec fn test_parts(leaf: Seq<char>) -> Option<(Seq<char>, Seq<char>)> {
    match chars::strip_prefix(leaf, "__doctest_"@) {
        Some(rest) => {
            let at = chars::after_last(rest, '_', rest.len());
            if at == 0 {
                None
            } else {
                let item = rest.take(at - 1);
                let idx = rest.skip(at as int);
                if item.len() == 0 || idx.len() == 0 || !all_digits(idx) {
                    None
                } else {
                    Some((item, idx))
                }
            }
        },
        None => None,
    }
}

/// How a test made from documentation is shown; `None` for any other name.
pub open spec fn display_name(qualified: Seq<char>) -> Option<Seq<char>> {
    let at = chars::after_last(qualified, '.', qualified.len());
    let leaf = qualified.skip(at as int);
    match test_parts(leaf) {
        Some((item, idx)) => {
            let out = if at > 1 {
                with_colons("DOC_TEST::"@, qualified.take(at - 1), 0) + "::"@
            } else {
                "DOC_TEST::"@
            };
            Some(out + item + "::"@ + idx)
        },
        None => None,
    }
}

pub fn format_doctest_display_name(qualified: &str) -> (r: Option<String>)
    ensures
        sigs::opt_name(r) == display_name(qualified@),
{
    let v = chars_of(qualified);
    let at: usize = past_last(&v, '.');
    let leaf = slice_chars(&v, at, v.len());
    assert(leaf@ =~= v@.skip(at as int));
    let rest = match stripped_prefix(&leaf, "__doctest_") {
        Some(t) => t,
        None => {
            return None;
        },
    };
    let split: usize = past_last(&rest, '_');
    if split == 0 {
        return None;
    }
    let item = slice_chars(&rest, 0, split - 1);
    let idx = slice_chars(&rest, split, rest.len());
    assert(item@ =~= rest@.take(split - 1));
    assert(idx@ =~= rest@.skip(split as int));
    if item.len() == 0 || idx.len() == 0 || !is_all_digits(&idx) {
        return None;
    }
    let mut out: Vec<char> = Vec::new();
    append_text(&mut out, "DOC_TEST::");
    assert(out@ =~= "DOC_TEST::"@);
    if at > 1 {
        let prefix = slice_chars(&v, 0, at - 1);
        assert(prefix@ =~= v@.take(at - 1));
        append_with_colons(&mut out, &prefix);
        append_text(&mut out, "::");
    }
    append_chars(&mut out, &item, 0, item.len());
    assert(item@.subrange(0, item@.len() as int) =~= item@);
    append_text(&mut out, "::");
    append_chars(&mut out, &idx, 0, idx.len());
    assert(idx@.subrange(0, idx@.len() as int) =~= idx@);
    Some(string_of(&out))
}

// ---------------------------------------------------------------------------
// What extraction and display names promise.

/// The source itself is kept: tests are only added behind it.
pub proof fn extraction_keeps_the_source(src: Seq<char>)
    ensures
        extracted(src).len() >= src.len(),
        extracted(src).take(src.len() as int) == src,
{
    assert(extracted(src).take(src.len() as int) =~= src);
}

proof fn lemma_nothing_made(ls: Seq<Seq<char>>, i: nat)
    requires
        forall|k: int| i <= k < ls.len() ==> !is_doc(#[trigger] ls[k]),
    ensures
        made_tests(Seq::empty(), ls, i) == Seq::<char>::empty(),
    decreases ls.len() - i,
{
    if i < ls.len() {
        lemma_nothing_made(ls, i + 1);
    }
}

/// A source without documentation comments is left as it is.
pub proof fn sources_without_comments_stay(src: Seq<char>)
    requires
        forall|k: int| 0 <= k < chars::lines(src).len() ==> !is_doc(#[trigger] chars::lines(src)[k]),
    ensures
        extracted(src) == src,
{
    lemma_nothing_made(chars::lines(src), 0);
}

proof fn lemma_no_fence(out: Seq<char>, item: Seq<char>, ls: Seq<Seq<char>>, i: nat)
    requires
        forall|k: int| i <= k < ls.len() ==> !is_fence(#[trigger] ls[k]),
    ensures
        with_tests(out, item, ls, 0, i) == out,
    decreases ls.len() - i,
{
    if i < ls.len() {
        lemma_no_fence(out, item, ls, i + 1);
    }
}

proof fn lemma_no_fences_made(ls: Seq<Seq<char>>, i: nat)
    requires
        forall|k: int| 0 <= k < ls.len() && is_doc(#[trigger] ls[k]) ==> !is_fence(doc_text(ls[k])),
    ensures
        made_tests(Seq::empty(), ls, i) == Seq::<char>::empty(),
    decreases ls.len() - i,
{
    if i < ls.len() {
        if !is_doc(ls[i as int]) {
            lemma_no_fences_made(ls, i + 1);
        } else {
            let j = doc_end(ls, i);
            let docs = doc_lines(ls, i as int, j as int);
            lemma_doc_end(ls, i);
            lemma_doc_run(ls, i);
            assert forall|k: int| 0 <= k < docs.len() implies !is_fence(#[trigger] docs[k]) by {
                assert(is_doc(ls[i + k]));
            }
            lemma_no_fence(Seq::empty(), block_name(ls, i, j), docs, 0);
            lemma_no_fences_made(ls, j);
        }
    }
}

proof fn lemma_doc_run(ls: Seq<Seq<char>>, i: nat)
    requires
        i <= ls.len(),
    ensures
        forall|k: int| i <= k < doc_end(ls, i) ==> is_doc(#[trigger] ls[k]),
    decreases ls.len() - i,
{
    if i < ls.len() && is_doc(ls[i as int]) {
        lemma_doc_run(ls, i + 1);
    }
}

/// Comments without a fence make no tests.
pub proof fn comments_without_a_fence_are_ignored(src: Seq<char>)
    requires
        forall|k: int|
            0 <= k < chars::lines(src).len() && is_doc(#[trigger] chars::lines(src)[k]) ==> !is_fence(
                doc_text(chars::lines(src)[k]),
            ),
    ensures
        extracted(src) == src,
{
    lemma_no_fences_made(chars::lines(src), 0);
}

proof fn lemma_decimal_digits(n: nat)
    ensures
        text::decimal(n).len() > 0,
        all_digits(text::decimal(n)),
    decreases n,
{
    if n >= 10 {
        lemma_decimal_digits(n / 10);
    }
}

proof fn lemma_decimal_value(m: nat, n: nat)
    requires
        text::decimal(m) == text::decimal(n),
    ensures
        m == n,
    decreases m,
{
    let a = text::decimal(m);
    let b = text::decimal(n);
    assert(a.last() == text::digit_char(m % 10));
    assert(b.last() == text::digit_char(n % 10));
    assert(m % 10 == n % 10);
    if m >= 10 {
        lemma_decimal_digits(m / 10);
        if n >= 10 {
            assert(a.drop_last() =~= text::decimal(m / 10));
            assert(b.drop_last() =~= text::decimal(n / 10));
            lemma_decimal_value(m / 10, n / 10);
        }
    } else if n >= 10 {
        lemma_decimal_digits(n / 10);
    }
}

/// The blocks of a comment make tests of different names.
pub proof fn test_names_are_distinct(item: Seq<char>, m: nat, n: nat)
    requires
        m != n,
    ensures
        test_name(item, m) != test_name(item, n),
{
    if test_name(item, m) == test_name(item, n) {
        let head = "__doctest_"@ + item + "_"@;
        assert(test_name(item, m).skip(head.len() as int) =~= text::decimal(m));
        assert(test_name(item, n).skip(head.len() as int) =~= text::decimal(n));
        lemma_decimal_value(m, n);
    }
}

proof fn lemma_after_last_at(s: Seq<char>, c: char, at: nat, i: nat)
    requires
        at <= i <= s.len(),
        at == 0 || s[at - 1] == c,
        forall|k: int| at <= k < i ==> #[trigger] s[k] != c,
    ensures
        chars::after_last(s, c, i) == at,
    decreases i - at,
{
    if at < i {
        assert(s[i - 1] != c);
        lemma_after_last_at(s, c, at, (i - 1) as nat);
    }
}

/// The item and the index can be read back from the name of a test.
pub proof fn test_names_have_their_parts(item: Seq<char>, n: nat)
    requires
        item.len() > 0,
    ensures
        test_parts(test_name(item, n)) == Some((item, text::decimal(n))),
{
    reveal_strlit("_");
    let p = "__doctest_"@;
    let leaf = test_name(item, n);
    let rest = item + "_"@ + text::decimal(n);
    assert(leaf =~= p + rest);
    assert(leaf.subrange(0, p.len() as int) =~= p);
    assert(leaf.skip(p.len() as int) =~= rest);
    assert(chars::strip_prefix(leaf, p) == Some(rest));
    lemma_decimal_digits(n);
    let at = item.len() + 1;
    assert forall|k: int| at <= k < rest.len() implies #[trigger] rest[k] != '_' by {
        assert(rest[k] == text::decimal(n)[k - at]);
    }
    lemma_after_last_at(rest, '_', at, rest.len());
    assert(rest.take(at - 1) =~= item);
    assert(rest.skip(at as int) =~= text::decimal(n));
}

/// A test made from documentation is shown by its item and index.
pub proof fn tests_are_shown_by_item_and_index(item: Seq<char>, n: nat)
    requires
        item.len() > 0,
        forall|k: int| 0 <= k < item.len() ==> #[trigger] item[k] != '.',
    ensures
        display_name(test_name(item, n)) == Some("DOC_TEST::"@ + item + "::"@ + text::decimal(n)),
{
    reveal_strlit("__doctest_");
    reveal_strlit("_");
    let leaf = test_name(item, n);
    lemma_decimal_digits(n);
    test_names_have_their_parts(item, n);
    assert forall|k: int| 0 <= k < leaf.len() implies #[trigger] leaf[k] != '.' by {
        if k < 10 {
            assert(leaf[k] == "__doctest_"@[k]);
        } else if k < 10 + item.len() {
            assert(leaf[k] == item[k - 10]);
        } else if k > 10 + item.len() {
            assert(leaf[k] == text::decimal(n)[k - 11 - item.len()]);
        }
    }
    lemma_after_last_at(leaf, '.', 0, leaf.len());
    assert(leaf.skip(0) =~= leaf);
}

} // verus!
