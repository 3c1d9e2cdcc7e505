//! What extracting tests from documentation finds: every closed block, and nothing else.
use vstd::prelude::*;
use crate::chars;
use crate::doctest;
use crate::lexer;
use crate::text;

verus! {

// ---------------------------------------------------------------------------
// Lines.

pub open spec fn all_white(s: Seq<char>) -> bool {
    forall|k: int| 0 <= k < s.len() ==> chars::is_white(#[trigger] s[k])
}

proof fn lemma_first_solid(s: Seq<char>, n: nat, i: nat)
    requires
        i <= n <= s.len(),
        forall|k: int| i <= k < n ==> chars::is_white(#[trigger] s[k]),
        n < s.len() ==> !chars::is_white(s[n as int]),
    ensures
        chars::first_solid(s, i) == n,
    decreases n - i,
{
    if i < n {
        lemma_first_solid(s, n, i + 1);
    }
}

/// Leading white space is left out, and nothing else.
pub proof fn lemma_trim_start(w: Seq<char>, t: Seq<char>)
    requires
        all_white(w),
        t.len() > 0 ==> !chars::is_white(t[0]),
    ensures
        chars::trim_start(w + t) == t,
{
    let s = w + t;
    assert forall|k: int| 0 <= k < w.len() implies chars::is_white(#[trigger] s[k]) by {
        assert(s[k] == w[k]);
    }
    if t.len() > 0 {
        assert(s[w.len() as int] == t[0]);
    }
    lemma_first_solid(s, w.len(), 0);
    assert(s.skip(w.len() as int) =~= t);
}

proof fn lemma_starts(p: Seq<char>, t: Seq<char>)
    ensures
        chars::starts_with(p + t, p),
        chars::strip_prefix(p + t, p) == Some(t),
{
    assert((p + t).take(p.len() as int) =~= p);
    assert((p + t).skip(p.len() as int) =~= t);
}

/// A line of white space, three slashes, a space and a text is a documentation line that says
/// the text; the space may be missing, where the text does not start with one.
pub proof fn documentation_lines_say_their_text(w: Seq<char>, t: Seq<char>)
    requires
        forall|k: int| 0 <= k < w.len() ==> chars::is_white(#[trigger] w[k]),
    ensures
        doctest::is_doc(w + "///"@ + " "@ + t),
        doctest::doc_text(w + "///"@ + " "@ + t) == t,
        doctest::is_doc(w + "///"@ + t),
        t.len() == 0 || t[0] != ' ' ==> doctest::doc_text(w + "///"@ + t) == t,
{
    reveal_strlit("///");
    reveal_strlit(" ");
    assert(w + "///"@ + " "@ + t =~= w + ("///"@ + (" "@ + t)));
    assert(w + "///"@ + t =~= w + ("///"@ + t));
    lemma_trim_start(w, "///"@ + (" "@ + t));
    lemma_trim_start(w, "///"@ + t);
    lemma_starts("///"@, " "@ + t);
    lemma_starts("///"@, t);
    lemma_starts(" "@, t);
    if t.len() == 0 || t[0] != ' ' {
        assert(!chars::starts_with(t, " "@)) by {
            if t.len() > 0 {
                assert(t.take(1)[0] == t[0]);
                assert(" "@[0] == ' ');
            }
        }
    }
}

/// A line whose first characters that are no white space are not three slashes is no
/// documentation line.
pub proof fn other_lines_are_no_documentation(w: Seq<char>, t: Seq<char>)
    requires
        forall|k: int| 0 <= k < w.len() ==> chars::is_white(#[trigger] w[k]),
        t.len() > 0 ==> !chars::is_white(t[0]),
        t.len() < 3 || t[0] != '/' || t[1] != '/' || t[2] != '/',
    ensures
        !doctest::is_doc(w + t),
{
    reveal_strlit("///");
    lemma_trim_start(w, t);
    if t.len() >= 3 {
        let h = t.take(3);
        assert(h[0] == t[0] && h[1] == t[1] && h[2] == t[2]);
        assert("///"@[0] == '/' && "///"@[1] == '/' && "///"@[2] == '/');
    }
}

// ---------------------------------------------------------------------------
// Blocks.

/// Line `k` is a fence in a documentation comment.
pub open spec fn is_fence_at(ls: Seq<Seq<char>>, k: int) -> bool {
    0 <= k < ls.len() && doctest::is_doc(ls[k]) && chars::trim(doctest::doc_text(ls[k])) == "```"@
}

/// The lines from `i` up to `j` are a documentation comment, and the lines around them are not
/// part of it.
pub open spec fn is_comment(ls: Seq<Seq<char>>, i: int, j: int) -> bool {
    &&& 0 <= i < j <= ls.len()
    &&& forall|k: int| i <= k < j ==> doctest::is_doc(#[trigger] ls[k])
    &&& i > 0 ==> !doctest::is_doc(ls[i - 1])
    &&& j < ls.len() ==> !doctest::is_doc(ls[j])
}

/// The number of fences before line `a` in the comment that it is in.
pub open spec fn fences_before(ls: Seq<Seq<char>>, a: int) -> nat
    decreases a,
{
    if a <= 0 || !doctest::is_doc(ls[a - 1]) {
        0
    } else {
        fences_before(ls, a - 1) + (if is_fence_at(ls, a - 1) {
            1nat
        } else {
            0nat
        })
    }
}

/// The lines from `a` to `b` are a block: fences at both ends, and only other documentation
/// lines between them.
pub open spec fn is_block(ls: Seq<Seq<char>>, a: int, b: int) -> bool {
    &&& 0 <= a < b < ls.len()
    &&& is_fence_at(ls, a)
    &&& is_fence_at(ls, b)
    &&& forall|k: int| a < k < b ==> doctest::is_doc(#[trigger] ls[k]) && !is_fence_at(ls, k)
}

/// A closed block opens at line `a`: the fences before it in its comment come in pairs, and
/// another fence follows in the comment.
pub open spec fn opens_block(ls: Seq<Seq<char>>, a: int) -> bool {
    fences_before(ls, a) % 2 == 0 && exists|b: int| #[trigger] is_block(ls, a, b)
}

/// What the lines from `from` up to `to` say, each with a line feed.
pub open spec fn said(ls: Seq<Seq<char>>, from: int, to: int) -> Seq<char>
    decreases to - from,
{
    if to <= from {
        Seq::empty()
    } else {
        said(ls, from, to - 1) + doctest::doc_text(ls[to - 1]) + "\n"@
    }
}

/// The test of the block from `a` to `b` in the comment from `i` up to `j`: it is named by the
/// comment's item and the number of blocks before it, and its body is what the lines between
/// the fences say.
pub open spec fn test_of(ls: Seq<Seq<char>>, i: int, j: int, a: int, b: int) -> Seq<char> {
    "\n#[test]\nfn "@ + ("__doctest_"@ + doctest::block_name(ls, i as nat, j as nat) + "_"@ + text::decimal(
        fences_before(ls, a) / 2,
    )) + "() {\n"@ + said(ls, a + 1, b) + "}\n"@
}

/// The text is the test of the block that opens at line `a`.
pub open spec fn is_test_at(ls: Seq<Seq<char>>, a: int, t: Seq<char>) -> bool {
    exists|i: int, j: int, b: int|
        #[trigger] is_comment(ls, i, j) && i <= a < j && #[trigger] is_block(ls, a, b) && t == test_of(ls, i, j, a, b)
}

pub open spec fn together(ts: Seq<Seq<char>>) -> Seq<char>
    decreases ts.len(),
{
    if ts.len() == 0 {
        Seq::empty()
    } else {
        together(ts.drop_last()) + ts.last()
    }
}

/// `at` lists the lines from `from` up to `to` at which closed blocks open, in order, and `ts`
/// their tests.
pub open spec fn are_tests(ls: Seq<Seq<char>>, from: int, to: int, at: Seq<int>, ts: Seq<Seq<char>>) -> bool {
    &&& at.len() == ts.len()
    &&& forall|k: int, m: int| 0 <= k < m < at.len() ==> #[trigger] at[k] < #[trigger] at[m]
    &&& forall|a: int| #[trigger] at.contains(a) <==> from <= a < to && opens_block(ls, a)
    &&& forall|k: int| 0 <= k < at.len() ==> is_test_at(ls, #[trigger] at[k], ts[k])
}

proof fn lemma_together(a: Seq<Seq<char>>, b: Seq<Seq<char>>)
    ensures
        together(a + b) == together(a) + together(b),
    decreases b.len(),
{
    if b.len() == 0 {
        assert(a + b =~= a);
        assert(together(a) + together(b) =~= together(a));
    } else {
        lemma_together(a, b.drop_last());
        assert((a + b).drop_last() =~= a + b.drop_last());
        assert(together(a) + (together(b.drop_last()) + b.last()) =~= (together(a) + together(b.drop_last())) + b.last());
    }
}

pub proof fn lemma_together_one(t: Seq<char>, ts: Seq<Seq<char>>)
    ensures
        together(seq![t]) == t,
        together(seq![t] + ts) == t + together(ts),
{
    let one = seq![t];
    assert(one.drop_last() =~= Seq::<Seq<char>>::empty());
    assert(together(Seq::<Seq<char>>::empty()) =~= Seq::<char>::empty());
    assert(together(one) =~= t);
    lemma_together(one, ts);
}

proof fn lemma_no_tests(ls: Seq<Seq<char>>, from: int, to: int)
    requires
        forall|a: int| from <= a < to ==> !#[trigger] opens_block(ls, a),
    ensures
        are_tests(ls, from, to, Seq::empty(), Seq::empty()),
{
}

proof fn lemma_one_test(ls: Seq<Seq<char>>, a: int, to: int, t: Seq<char>)
    requires
        a < to,
        opens_block(ls, a),
        is_test_at(ls, a, t),
        forall|k: int| a < k < to ==> !#[trigger] opens_block(ls, k),
    ensures
        are_tests(ls, a, to, seq![a], seq![t]),
{
    let at = seq![a];
    assert forall|k: int| #[trigger] at.contains(k) <==> a <= k < to && opens_block(ls, k) by {
        if k == a {
            assert(at[0] == a);
        }
        if at.contains(k) {
            assert(k == a);
        }
    }
}

proof fn lemma_tests_add(
    ls: Seq<Seq<char>>,
    from: int,
    mid: int,
    to: int,
    a: Seq<int>,
    s: Seq<Seq<char>>,
    b: Seq<int>,
    t: Seq<Seq<char>>,
)
    requires
        from <= mid <= to,
        are_tests(ls, from, mid, a, s),
        are_tests(ls, mid, to, b, t),
    ensures
        are_tests(ls, from, to, a + b, s + t),
        together(s + t) == together(s) + together(t),
{
    let c = a + b;
    lemma_together(s, t);
    assert forall|k: int, m: int| 0 <= k < m < c.len() implies #[trigger] c[k] < #[trigger] c[m] by {
        if k < a.len() && m >= a.len() {
            assert(a.contains(a[k]));
            assert(b.contains(b[m - a.len()]));
        }
    }
    assert forall|x: int| #[trigger] c.contains(x) <==> from <= x < to && opens_block(ls, x) by {
        if a.contains(x) {
            let k = choose|k: int| 0 <= k < a.len() && a[k] == x;
            assert(c[k] == x);
        }
        if b.contains(x) {
            let k = choose|k: int| 0 <= k < b.len() && b[k] == x;
            assert(c[k + a.len()] == x);
        }
        if c.contains(x) {
            let k = choose|k: int| 0 <= k < c.len() && c[k] == x;
            if k < a.len() {
                assert(a[k] == x);
            } else {
                assert(b[k - a.len()] == x);
            }
        }
    }
    assert forall|k: int| 0 <= k < c.len() implies is_test_at(ls, #[trigger] c[k], (s + t)[k]) by {
        if k < a.len() {
            assert(c[k] == a[k]);
        } else {
            assert(c[k] == b[k - a.len()]);
        }
    }
}

pub proof fn lemma_said(out: Seq<char>, ls: Seq<Seq<char>>, i: int, j: int, from: nat, to: nat)
    requires
        0 <= i <= j <= ls.len(),
        from <= to <= j - i,
    ensures
        doctest::with_lines(out, doctest::doc_lines(ls, i, j), from, to) == out + said(ls, i + from, i + to),
    decreases to - from,
{
    let docs = doctest::doc_lines(ls, i, j);
    if from >= to {
        assert(out + said(ls, i + from, i + to) =~= out);
    } else {
        let next = out + docs[from as int] + "\n"@;
        lemma_said(next, ls, i, j, from + 1, to);
        lemma_said_first(ls, i + from, i + to);
        assert(next + said(ls, i + from + 1, i + to) =~= out + (doctest::doc_text(ls[i + from]) + "\n"@ + said(
            ls,
            i + from + 1,
            i + to,
        )));
    }
}

proof fn lemma_said_first(ls: Seq<Seq<char>>, from: int, to: int)
    requires
        from < to,
    ensures
        said(ls, from, to) == doctest::doc_text(ls[from]) + "\n"@ + said(ls, from + 1, to),
    decreases to - from,
{
    if from + 1 < to {
        lemma_said_first(ls, from, to - 1);
        assert(said(ls, from, to) =~= doctest::doc_text(ls[from]) + "\n"@ + said(ls, from + 1, to));
    } else {
        assert(said(ls, from, to - 1) =~= Seq::empty());
        assert(said(ls, from, to) =~= doctest::doc_text(ls[from]) + "\n"@ + said(ls, from + 1, to));
    }
}

proof fn lemma_next_fence(docs: Seq<Seq<char>>, p: nat)
    requires
        p <= docs.len(),
    ensures
        p <= doctest::next_fence(docs, p) <= docs.len(),
        doctest::next_fence(docs, p) < docs.len() ==> doctest::is_fence(docs[doctest::next_fence(docs, p) as int]),
        forall|k: int| p <= k < doctest::next_fence(docs, p) ==> !doctest::is_fence(#[trigger] docs[k]),
    decreases docs.len() - p,
{
    if p < docs.len() && !doctest::is_fence(docs[p as int]) {
        lemma_next_fence(docs, p + 1);
    }
}

/// Between line `a` and line `b` of a comment there are no fences.
proof fn lemma_same_fences(ls: Seq<Seq<char>>, a: int, b: int)
    requires
        0 <= a <= b <= ls.len(),
        forall|k: int| a <= k < b ==> doctest::is_doc(#[trigger] ls[k]) && !is_fence_at(ls, k),
    ensures
        fences_before(ls, b) == fences_before(ls, a),
    decreases b - a,
{
    if a < b {
        assert(doctest::is_doc(ls[b - 1]) && !is_fence_at(ls, b - 1));
        lemma_same_fences(ls, a, b - 1);
    }
}

/// What the documentation lines of a comment say of its fences.
proof fn lemma_fences_of(ls: Seq<Seq<char>>, i: int, j: int)
    requires
        is_comment(ls, i, j),
    ensures
        doctest::doc_lines(ls, i, j).len() == j - i,
        forall|k: int|
            0 <= k < j - i ==> (doctest::is_fence(#[trigger] doctest::doc_lines(ls, i, j)[k]) <==> is_fence_at(ls, i + k)),
{
    let docs = doctest::doc_lines(ls, i, j);
    assert forall|k: int| 0 <= k < docs.len() implies (doctest::is_fence(#[trigger] docs[k]) <==> is_fence_at(ls, i + k)) by {
        assert(doctest::is_doc(ls[i + k]));
    }
}

/// From a fence on, no fence follows before line `i + e`.
proof fn lemma_to_next_fence(ls: Seq<Seq<char>>, i: int, j: int, p: nat) -> (e: nat)
    requires
        is_comment(ls, i, j),
        p < j - i,
        is_fence_at(ls, i + p),
    ensures
        e == doctest::next_fence(doctest::doc_lines(ls, i, j), p + 1),
        p < e <= j - i,
        e < j - i ==> is_fence_at(ls, i + e),
        forall|k: int| i + p < k < i + e ==> doctest::is_doc(#[trigger] ls[k]) && !is_fence_at(ls, k),
        fences_before(ls, i + e) == fences_before(ls, i + p) + 1,
{
    let docs = doctest::doc_lines(ls, i, j);
    let e = doctest::next_fence(docs, p + 1);
    lemma_fences_of(ls, i, j);
    lemma_next_fence(docs, p + 1);
    assert forall|k: int| i + p < k < i + e implies doctest::is_doc(#[trigger] ls[k]) && !is_fence_at(ls, k) by {
        assert(!doctest::is_fence(docs[k - i]));
    }
    assert(fences_before(ls, i + p + 1) == fences_before(ls, i + p) + 1);
    lemma_same_fences(ls, i + p + 1, i + e);
    e
}

/// A block makes one test, and no other block opens in it.
proof fn lemma_block_tests(ls: Seq<Seq<char>>, i: int, j: int, a: int, b: int)
    requires
        is_comment(ls, i, j),
        i <= a < b < j,
        is_block(ls, a, b),
        fences_before(ls, a) % 2 == 0,
        fences_before(ls, b) == fences_before(ls, a) + 1,
    ensures
        are_tests(ls, a, b + 1, seq![a], seq![test_of(ls, i, j, a, b)]),
{
    let t = test_of(ls, i, j, a, b);
    assert(opens_block(ls, a));
    assert(is_test_at(ls, a, t));
    assert forall|k: int| a < k < b + 1 implies !#[trigger] opens_block(ls, k) by {
        if k < b {
            assert(!is_fence_at(ls, k));
        }
    }
    lemma_one_test(ls, a, b + 1, t);
}

/// A fence that no other follows in its comment opens no block.
proof fn lemma_open_end(ls: Seq<Seq<char>>, i: int, j: int, a: int)
    requires
        is_comment(ls, i, j),
        i <= a < j,
        forall|k: int| a < k < j ==> doctest::is_doc(#[trigger] ls[k]) && !is_fence_at(ls, k),
    ensures
        are_tests(ls, a, j, Seq::empty(), Seq::empty()),
{
    assert forall|k: int| a <= k < j implies !#[trigger] opens_block(ls, k) by {
        if k > a {
            assert(!is_fence_at(ls, k));
        } else {
            assert forall|b: int| !#[trigger] is_block(ls, a, b) by {
                if is_block(ls, a, b) && b > j {
                    assert(doctest::is_doc(ls[j]));
                }
            }
        }
    }
    lemma_no_tests(ls, a, j);
}

/// The tests of a comment, from its line `p` on.
proof fn lemma_comment_tests(ls: Seq<Seq<char>>, i: int, j: int, out: Seq<char>, idx: nat, p: nat) -> (r: (
    Seq<int>,
    Seq<Seq<char>>,
))
    requires
        is_comment(ls, i, j),
        p <= j - i,
        fences_before(ls, i + p) == 2 * idx,
    ensures
        are_tests(ls, i + p, j, r.0, r.1),
        doctest::with_tests(
            out,
            doctest::block_name(ls, i as nat, j as nat),
            doctest::doc_lines(ls, i, j),
            idx,
            p,
        ) == out + together(r.1),
    decreases j - i - p,
{
    let docs = doctest::doc_lines(ls, i, j);
    let name = doctest::block_name(ls, i as nat, j as nat);
    lemma_fences_of(ls, i, j);
    if p >= docs.len() {
        lemma_no_tests(ls, i + p, j);
        assert(out + together(Seq::empty()) =~= out);
        (Seq::empty(), Seq::empty())
    } else if doctest::is_fence(docs[p as int]) {
        let a = i + p;
        let e = lemma_to_next_fence(ls, i, j, p);
        if e < docs.len() {
            let b = i + e;
            let t = test_of(ls, i, j, a, b);
            assert(is_block(ls, a, b));
            lemma_block_tests(ls, i, j, a, b);
            let next = doctest::with_test(out, name, idx, docs, p + 1, e);
            lemma_said(out + "\n#[test]\nfn "@ + doctest::test_name(name, idx) + "() {\n"@, ls, i, j, p + 1, e);
            assert(next =~= out + t);
            let (at, ts) = lemma_comment_tests(ls, i, j, next, idx + 1, e + 1);
            lemma_tests_add(ls, a, b + 1, j, seq![a], seq![t], at, ts);
            lemma_together_one(t, ts);
            assert(out + (t + together(ts)) =~= next + together(ts));
            (seq![a] + at, seq![t] + ts)
        } else {
            lemma_open_end(ls, i, j, a);
            assert(out + together(Seq::empty()) =~= out);
            (Seq::empty(), Seq::empty())
        }
    } else {
        assert(doctest::is_doc(ls[i + p]));
        assert(!is_fence_at(ls, i + p));
        let (at, ts) = lemma_comment_tests(ls, i, j, out, idx, p + 1);
        assert forall|k: int| i + p <= k < i + p + 1 implies !#[trigger] opens_block(ls, k) by {
            assert(k == i + p);
        }
        lemma_no_tests(ls, i + p, i + p + 1);
        lemma_tests_add(ls, i + p, i + p + 1, j, Seq::empty(), Seq::empty(), at, ts);
        assert(Seq::<int>::empty() + at =~= at);
        assert(Seq::<Seq<char>>::empty() + ts =~= ts);
        (at, ts)
    }
}

proof fn lemma_doc_end(ls: Seq<Seq<char>>, i: nat)
    requires
        i <= ls.len(),
    ensures
        i <= doctest::doc_end(ls, i) <= ls.len(),
        forall|k: int| i <= k < doctest::doc_end(ls, i) ==> doctest::is_doc(#[trigger] ls[k]),
        doctest::doc_end(ls, i) < ls.len() ==> !doctest::is_doc(ls[doctest::doc_end(ls, i) as int]),
    decreases ls.len() - i,
{
    if i < ls.len() && doctest::is_doc(ls[i as int]) {
        lemma_doc_end(ls, i + 1);
    }
}

proof fn lemma_made_tests(out: Seq<char>, ls: Seq<Seq<char>>, i: nat) -> (r: (Seq<int>, Seq<Seq<char>>))
    requires
        i <= ls.len(),
        i < ls.len() && doctest::is_doc(ls[i as int]) && i > 0 ==> !doctest::is_doc(ls[i - 1]),
    ensures
        are_tests(ls, i as int, ls.len() as int, r.0, r.1),
        doctest::made_tests(out, ls, i) == out + together(r.1),
    decreases ls.len() - i,
{
    if i >= ls.len() {
        lemma_no_tests(ls, i as int, ls.len() as int);
        assert(out + together(Seq::empty()) =~= out);
        (Seq::empty(), Seq::empty())
    } else if !doctest::is_doc(ls[i as int]) {
        let (at, ts) = lemma_made_tests(out, ls, i + 1);
        assert forall|k: int| i <= k < i + 1 implies !#[trigger] opens_block(ls, k) by {
            assert(k == i);
        }
        lemma_no_tests(ls, i as int, i as int + 1);
        lemma_tests_add(ls, i as int, i as int + 1, ls.len() as int, Seq::empty(), Seq::empty(), at, ts);
        assert(Seq::<int>::empty() + at =~= at);
        assert(Seq::<Seq<char>>::empty() + ts =~= ts);
        (at, ts)
    } else {
        let j = doctest::doc_end(ls, i);
        lemma_doc_end(ls, i);
        doctest::lemma_doc_end(ls, i);
        assert(is_comment(ls, i as int, j as int));
        let (a, s) = lemma_comment_tests(ls, i as int, j as int, out, 0, 0);
        let next = out + together(s);
        let (b, t) = lemma_made_tests(next, ls, j);
        lemma_tests_add(ls, i as int, j as int, ls.len() as int, a, s, b, t);
        assert(out + together(s + t) =~= next + together(t));
        (a + b, s + t)
    }
}

/// The source is followed by the tests of its closed blocks: one for each block of each
/// documentation comment, in their order, and nothing else. Where there is a test, the source
/// ends its last line first.
pub proof fn each_closed_block_is_a_test(src: Seq<char>) -> (r: (Seq<int>, Seq<Seq<char>>))
    ensures
        ({
            let ls = chars::lines(src);
            &&& are_tests(ls, 0, ls.len() as int, r.0, r.1)
            &&& r.1.len() == 0 ==> doctest::extracted(src) == src
            &&& r.1.len() > 0 && src.len() > 0 && src.last() == '\n' ==> doctest::extracted(src) == src + together(r.1)
            &&& r.1.len() > 0 && !(src.len() > 0 && src.last() == '\n') ==> doctest::extracted(src) == src + "\n"@ + together(
                r.1,
            )
        }),
{
    let ls = chars::lines(src);
    let (at, ts) = lemma_made_tests(Seq::empty(), ls, 0);
    let made = doctest::made_tests(Seq::empty(), ls, 0);
    assert(made =~= together(ts));
    if ts.len() > 0 {
        let k = ts.len() - 1;
        assert(is_test_at(ls, at[k], ts[k]));
        let (i, j, b) = choose|i: int, j: int, b: int|
            #[trigger] is_comment(ls, i, j) && i <= at[k] < j && #[trigger] is_block(ls, at[k], b) && ts[k] == test_of(
                ls,
                i,
                j,
                at[k],
                b,
            );
        reveal_strlit("}\n");
        assert(ts[k].len() > 0);
    }
    (at, ts)
}

// ---------------------------------------------------------------------------
// Names.

/// A line that may stand between a comment and its item: a blank line, a comment that is no
/// documentation, or an attribute.
pub open spec fn may_stand_between(line: Seq<char>) -> bool {
    exists|w: Seq<char>, t: Seq<char>|
        {
            &&& line == #[trigger] (w + t)
            &&& forall|k: int| 0 <= k < w.len() ==> chars::is_white(#[trigger] w[k])
            &&& t.len() == 0 || (t.len() >= 2 && t[0] == '#' && t[1] == '[') || (t.len() >= 2 && t[0] == '/' && t[1] == '/' && (
            t.len() == 2 || t[2] != '/'))
        }
}

/// The words that items start with.
pub open spec fn is_item_word(kw: Seq<char>) -> bool {
    ||| kw == "fn "@
    ||| kw == "struct "@
    ||| kw == "enum "@
    ||| kw == "interface "@
    ||| kw == "type "@
    ||| kw == "const "@
    ||| kw == "static "@
    ||| kw == "impl "@
}

proof fn lemma_between(line: Seq<char>)
    requires
        may_stand_between(line),
    ensures
        doctest::is_between(chars::trim_start(line)),
{
    reveal_strlit("//");
    reveal_strlit("///");
    reveal_strlit("#[");
    let (w, t) = choose|w: Seq<char>, t: Seq<char>|
        {
            &&& line == #[trigger] (w + t)
            &&& forall|k: int| 0 <= k < w.len() ==> chars::is_white(#[trigger] w[k])
            &&& t.len() == 0 || (t.len() >= 2 && t[0] == '#' && t[1] == '[') || (t.len() >= 2 && t[0] == '/' && t[1] == '/' && (
            t.len() == 2 || t[2] != '/'))
        };
    lemma_trim_start(w, t);
    if t.len() >= 2 {
        if t[0] == '#' {
            assert(t.take(2) =~= "#["@);
        } else {
            assert(t.take(2) =~= "//"@);
            if t.len() >= 3 {
                assert(t.take(3)[2] == t[2]);
                assert("///"@[2] == '/');
            }
        }
    }
}

proof fn lemma_item_name(ls: Seq<Seq<char>>, j: nat, m: nat)
    requires
        j <= m <= ls.len(),
        forall|k: int| j <= k < m ==> may_stand_between(#[trigger] ls[k]),
    ensures
        doctest::item_name(ls, j) == doctest::item_name(ls, m),
    decreases m - j,
{
    if j < m {
        lemma_between(ls[j as int]);
        lemma_item_name(ls, j + 1, m);
    }
}

proof fn lemma_name_end(s: Seq<char>, n: nat, i: nat)
    requires
        i <= n <= s.len(),
        forall|k: int| i <= k < n ==> chars::is_name_char(#[trigger] s[k]),
        n < s.len() ==> !chars::is_name_char(s[n as int]),
    ensures
        lexer::name_end(s, i) == n,
    decreases n - i,
{
    if i < n {
        lemma_name_end(s, n, i + 1);
    }
}

proof fn lemma_words()
    ensures
        "fn "@ =~= seq!['f', 'n', ' '],
        "struct "@ =~= seq!['s', 't', 'r', 'u', 'c', 't', ' '],
        "enum "@ =~= seq!['e', 'n', 'u', 'm', ' '],
        "interface "@ =~= seq!['i', 'n', 't', 'e', 'r', 'f', 'a', 'c', 'e', ' '],
        "type "@ =~= seq!['t', 'y', 'p', 'e', ' '],
        "const "@ =~= seq!['c', 'o', 'n', 's', 't', ' '],
        "static "@ =~= seq!['s', 't', 'a', 't', 'i', 'c', ' '],
        "impl "@ =~= seq!['i', 'm', 'p', 'l', ' '],
        "pub "@ =~= seq!['p', 'u', 'b', ' '],
        "extern "@ =~= seq!['e', 'x', 't', 'e', 'r', 'n', ' '],
{
    reveal_strlit("fn ");
    reveal_strlit("struct ");
    reveal_strlit("enum ");
    reveal_strlit("interface ");
    reveal_strlit("type ");
    reveal_strlit("const ");
    reveal_strlit("static ");
    reveal_strlit("impl ");
    reveal_strlit("pub ");
    reveal_strlit("extern ");
}

/// The text does not start with the prefix: they differ in one of the first two characters.
proof fn lemma_other_prefix(t: Seq<char>, p: Seq<char>)
    requires
        p.len() >= 2,
        t.len() >= 2,
        t[0] != p[0] || t[1] != p[1],
    ensures
        !chars::starts_with(t, p),
{
    if chars::starts_with(t, p) {
        assert(t.take(p.len() as int)[0] == t[0]);
        assert(t.take(p.len() as int)[1] == t[1]);
    }
}

proof fn lemma_keyword(kw: Seq<char>, rest: Seq<char>)
    requires
        is_item_word(kw),
    ensures
        doctest::after_keyword(kw + rest) == Some(rest),
        doctest::after_keyword("pub "@ + (kw + rest)) == Some(rest),
        doctest::after_keyword("extern "@ + (kw + rest)) == Some(rest),
        doctest::after_keyword("pub "@ + ("extern "@ + (kw + rest))) == Some(rest),
        !chars::is_white(kw[0]),
        kw.len() >= 3,
{
    lemma_words();
    let t = kw + rest;
    assert(t[0] == kw[0] && t[1] == kw[1]);
    lemma_starts(kw, rest);
    lemma_starts("pub "@, t);
    lemma_starts("extern "@, t);
    lemma_starts("pub "@, "extern "@ + t);
    let e = "extern "@ + t;
    assert(e[0] == 'e' && e[1] == 'x');
    lemma_other_prefix(e, "pub "@);
    lemma_other_prefix(t, "pub "@);
    lemma_other_prefix(t, "extern "@);
    if kw != "fn "@ {
        lemma_other_prefix(t, "fn "@);
        if kw != "struct "@ && kw != "static "@ {
            lemma_other_prefix(t, "struct "@);
        }
        if kw == "static "@ {
            if chars::starts_with(t, "struct "@) {
                assert(t.take(7)[2] == t[2]);
                assert(t[2] == kw[2]);
            }
        }
        if kw != "enum "@ {
            lemma_other_prefix(t, "enum "@);
        }
        if kw != "interface "@ {
            lemma_other_prefix(t, "interface "@);
        }
        if kw != "type "@ {
            lemma_other_prefix(t, "type "@);
        }
        if kw != "const "@ {
            lemma_other_prefix(t, "const "@);
        }
        if kw != "static "@ && kw != "struct "@ {
            lemma_other_prefix(t, "static "@);
        }
    }
}

/// The text behind the words of a public or a foreign item.
pub open spec fn headed(is_pub: bool, is_foreign: bool, t: Seq<char>) -> Seq<char> {
    let u = if is_foreign {
        "extern "@ + t
    } else {
        t
    };
    if is_pub {
        "pub "@ + u
    } else {
        u
    }
}

/// A test is named after the item that follows its comment: past blank lines, other comments
/// and attributes, the name behind the item's keyword, whether the item is public or foreign.
pub proof fn tests_are_named_after_their_item(
    ls: Seq<Seq<char>>,
    i: nat,
    j: nat,
    m: nat,
    w: Seq<char>,
    is_pub: bool,
    is_foreign: bool,
    kw: Seq<char>,
    name: Seq<char>,
    rest: Seq<char>,
)
    requires
        j <= m < ls.len(),
        forall|k: int| j <= k < m ==> may_stand_between(#[trigger] ls[k]),
        forall|k: int| 0 <= k < w.len() ==> chars::is_white(#[trigger] w[k]),
        is_item_word(kw),
        name.len() > 0,
        forall|k: int| 0 <= k < name.len() ==> chars::is_name_char(#[trigger] name[k]),
        rest.len() > 0 ==> !chars::is_name_char(rest[0]),
        ls[m as int] == w + headed(is_pub, is_foreign, kw + (name + rest)),
    ensures
        doctest::block_name(ls, i, j) == name,
{
    lemma_item_name(ls, j, m);
    let line = headed(is_pub, is_foreign, kw + (name + rest));
    lemma_headed(is_pub, is_foreign, kw, name + rest);
    lemma_trim_start(w, line);
    lemma_leading_name(name, rest);
}

proof fn lemma_solid_start(t: Seq<char>)
    requires
        t.len() >= 2,
        t[0] != '/',
        t[0] != '#',
    ensures
        !doctest::is_between(t),
{
    reveal_strlit("//");
    reveal_strlit("#[");
    lemma_other_prefix(t, "//"@);
    lemma_other_prefix(t, "#["@);
}

proof fn lemma_word_starts(kw: Seq<char>)
    requires
        is_item_word(kw) || kw == "pub "@ || kw == "extern "@,
    ensures
        kw.len() >= 3,
        'a' <= kw[0] <= 'z',
{
    lemma_words();
}

proof fn lemma_headed(is_pub: bool, is_foreign: bool, kw: Seq<char>, t: Seq<char>)
    requires
        is_item_word(kw),
    ensures
        doctest::after_keyword(headed(is_pub, is_foreign, kw + t)) == Some(t),
        !doctest::is_between(headed(is_pub, is_foreign, kw + t)),
        headed(is_pub, is_foreign, kw + t).len() > 0,
        !chars::is_white(headed(is_pub, is_foreign, kw + t)[0]),
{
    let line = headed(is_pub, is_foreign, kw + t);
    lemma_keyword(kw, t);
    lemma_word_starts(kw);
    lemma_word_starts("pub "@);
    lemma_word_starts("extern "@);
    assert('a' <= line[0] <= 'z');
    lemma_solid_start(line);
}

pub proof fn lemma_leading_name(name: Seq<char>, rest: Seq<char>)
    requires
        forall|k: int| 0 <= k < name.len() ==> chars::is_name_char(#[trigger] name[k]),
        rest.len() > 0 ==> !chars::is_name_char(rest[0]),
    ensures
        doctest::leading_name(name + rest) == name,
{
    let t = name + rest;
    assert forall|k: int| 0 <= k < name.len() implies chars::is_name_char(#[trigger] t[k]) by {
        assert(t[k] == name[k]);
    }
    if rest.len() > 0 {
        assert(t[name.len() as int] == rest[0]);
    }
    lemma_name_end(t, name.len(), 0);
    assert(t.take(name.len() as int) =~= name);
}

/// Where no item follows its comment, a test is named by the line that the comment starts on.
pub proof fn tests_without_an_item_are_named_by_their_line(ls: Seq<Seq<char>>, i: nat, j: nat)
    requires
        j <= ls.len(),
        forall|k: int| j <= k < ls.len() ==> may_stand_between(#[trigger] ls[k]),
    ensures
        doctest::block_name(ls, i, j) == "anon_l"@ + text::decimal(i + 1),
{
    lemma_item_name(ls, j, ls.len());
}

} // verus!
