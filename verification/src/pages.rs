//! What a documentation page lists: every documented public item, with its parts.
use vstd::prelude::*;
use crate::chars;
use crate::docgen;
use crate::doctest;
use crate::fences;
use crate::lexer;
use crate::text;
use crate::docgen::{DocItemV, ItemKind};

verus! {

// ---------------------------------------------------------------------------
// Lines and items.

/// The last line before `i` that is no blank line, other comment or attribute is not part of a
/// documentation comment either.
pub open spec fn starts_fresh(ls: Seq<Seq<char>>, i: int) -> bool
    decreases i,
{
    if i <= 0 {
        true
    } else if doctest::is_between(chars::trim_start(ls[i - 1])) {
        starts_fresh(ls, i - 1)
    } else {
        !doctest::is_doc(ls[i - 1])
    }
}

/// The `impl` block that line `k` is in, as the lines before it open and close blocks.
pub open spec fn block_at(ls: Seq<Seq<char>>, k: int) -> Option<Seq<char>>
    decreases k,
{
    if k <= 0 {
        None
    } else {
        docgen::impl_after(ls[k - 1], block_at(ls, k - 1))
    }
}

/// The comment from `i` up to `j` documents what starts on line `k`: only blank lines, other
/// comments and attributes stand between them.
pub open spec fn documents(ls: Seq<Seq<char>>, i: int, j: int, k: int) -> bool {
    &&& fences::is_comment(ls, i, j)
    &&& starts_fresh(ls, i)
    &&& j <= k < ls.len()
    &&& forall|m: int| j <= m < k ==> doctest::is_between(chars::trim_start(#[trigger] ls[m]))
    &&& !doctest::is_between(chars::trim_start(ls[k]))
}

/// The words that a public item starts with, by its kind.
pub open spec fn head_word(kind: ItemKind, foreign: bool) -> Seq<char> {
    match kind {
        ItemKind::Fn => if foreign {
            "pub extern fn "@
        } else {
            "pub fn "@
        },
        ItemKind::Struct => "pub struct "@,
        ItemKind::Enum => "pub enum "@,
        ItemKind::Interface => "pub interface "@,
        ItemKind::TypeAlias => "pub type "@,
        ItemKind::Impl => "impl "@,
    }
}

proof fn lemma_doc_is_solid(line: Seq<char>)
    requires
        doctest::is_doc(line),
    ensures
        !doctest::is_between(chars::trim_start(line)),
        line != "}"@,
        docgen::after_impl(chars::trim_start(line)) is None,
{
    reveal_strlit("///");
    reveal_strlit("//");
    reveal_strlit("#[");
    reveal_strlit("}");
    reveal_strlit("impl ");
    reveal_strlit("pub impl ");
    let t = chars::trim_start(line);
    assert(t.take(3)[0] == t[0]);
    lemma_not_prefix(t, "#["@);
    lemma_not_prefix(t, "impl "@);
    lemma_not_prefix(t, "pub impl "@);
    if line == "}"@ {
        assert(t.len() <= 1);
    }
}

proof fn lemma_between_opens_nothing(line: Seq<char>)
    requires
        doctest::is_between(chars::trim_start(line)),
    ensures
        line != "}"@,
        docgen::after_impl(chars::trim_start(line)) is None,
{
    reveal_strlit("//");
    reveal_strlit("#[");
    reveal_strlit("}");
    reveal_strlit("impl ");
    reveal_strlit("pub impl ");
    let t = chars::trim_start(line);
    if t.len() > 0 {
        if chars::starts_with(t, "//"@) {
            assert(t.take(2)[0] == t[0]);
        } else {
            assert(t.take(2)[0] == t[0]);
        }
        lemma_not_prefix(t, "impl "@);
        lemma_not_prefix(t, "pub impl "@);
    }
    if line == "}"@ {
        reveal_with_fuel(chars::first_solid, 2);
        assert(line[0] == '}');
        assert(!chars::is_white('}'));
        assert(chars::first_solid(line, 0) == 0);
        assert(t =~= line);
    }
}

proof fn lemma_not_prefix(t: Seq<char>, p: Seq<char>)
    requires
        p.len() > 0,
        t.len() > 0,
        t[0] != p[0],
    ensures
        !chars::starts_with(t, p),
{
    if chars::starts_with(t, p) {
        assert(t.take(p.len() as int)[0] == t[0]);
    }
}

/// Lines that open and close nothing leave the block as it is.
proof fn lemma_same_block(ls: Seq<Seq<char>>, a: int, b: int)
    requires
        0 <= a <= b <= ls.len(),
        forall|m: int|
            a <= m < b ==> doctest::is_doc(#[trigger] ls[m]) || doctest::is_between(chars::trim_start(ls[m])),
    ensures
        block_at(ls, b) == block_at(ls, a),
    decreases b - a,
{
    if a < b {
        lemma_same_block(ls, a, b - 1);
        if doctest::is_doc(ls[b - 1]) {
            lemma_doc_is_solid(ls[b - 1]);
        } else {
            lemma_between_opens_nothing(ls[b - 1]);
        }
    }
}

proof fn lemma_items_stay(items: Seq<DocItemV>, ls: Seq<Seq<char>>, target: Option<Seq<char>>, h: nat)
    ensures
        items.is_prefix_of(docgen::items_from(items, ls, target, h)),
    decreases ls.len() - h,
{
    if h < ls.len() {
        if !doctest::is_doc(ls[h as int]) {
            lemma_items_stay(items, ls, docgen::impl_after(ls[h as int], target), h + 1);
        } else {
            let j = doctest::doc_end(ls, h);
            doctest::lemma_doc_end(ls, h);
            docgen::lemma_item_line(ls, j);
            let k = docgen::item_line(ls, j);
            if k < ls.len() {
                lemma_items_stay(
                    docgen::push_item(items, docgen::item_at(ls, h, j, k, target)),
                    ls,
                    docgen::impl_after(ls[k as int], target),
                    k + 1,
                );
            }
        }
    }
}

proof fn lemma_doc_end(ls: Seq<Seq<char>>, i: nat)
    requires
        i <= ls.len(),
    ensures
        i <= doctest::doc_end(ls, i) <= ls.len(),
        forall|k: int| i <= k < doctest::doc_end(ls, i) ==> doctest::is_doc(#[trigger] ls[k]),
        doctest::doc_end(ls, i) < ls.len() ==> !doctest::is_doc(ls[doctest::doc_end(ls, i) as int]),
    decreases ls.len() - i,
{
    if i < ls.len() && doctest::is_doc(ls[i as int]) {
        lemma_doc_end(ls, i + 1);
    }
}

proof fn lemma_item_line(ls: Seq<Seq<char>>, i: nat)
    requires
        i <= ls.len(),
    ensures
        i <= docgen::item_line(ls, i) <= ls.len(),
        forall|m: int| i <= m < docgen::item_line(ls, i) ==> doctest::is_between(chars::trim_start(#[trigger] ls[m])),
        docgen::item_line(ls, i) < ls.len() ==> !doctest::is_between(
            chars::trim_start(ls[docgen::item_line(ls, i) as int]),
        ),
    decreases ls.len() - i,
{
    if i < ls.len() && doctest::is_between(chars::trim_start(ls[i as int])) {
        lemma_item_line(ls, i + 1);
    }
}

/// Going back from a fresh start over lines that may stand between, no documentation is met.
proof fn lemma_fresh(ls: Seq<Seq<char>>, a: int, i: int)
    requires
        0 < a <= i <= ls.len(),
        starts_fresh(ls, i),
        forall|m: int| a <= m < i ==> doctest::is_between(chars::trim_start(#[trigger] ls[m])),
    ensures
        !doctest::is_doc(ls[a - 1]),
    decreases i - a,
{
    if a < i {
        lemma_fresh(ls, a, i - 1);
    } else if doctest::is_doc(ls[a - 1]) {
        lemma_doc_is_solid(ls[a - 1]);
    }
}

/// The items from line `h` on hold what the comment documents.
proof fn lemma_listed(
    items: Seq<DocItemV>,
    ls: Seq<Seq<char>>,
    h: nat,
    i: nat,
    j: nat,
    k: nat,
    x: DocItemV,
)
    requires
        documents(ls, i as int, j as int, k as int),
        h <= i,
        docgen::item_at(ls, i, j, k, block_at(ls, k as int)) == Some(x),
    ensures
        docgen::items_from(items, ls, block_at(ls, h as int), h).contains(x),
    decreases i - h,
{
    let t = block_at(ls, h as int);
    assert(doctest::is_doc(ls[i as int]));
    if h == i {
        lemma_doc_end(ls, i);
        let e = doctest::doc_end(ls, i);
        assert(e == j) by {
            if e < j {
                assert(doctest::is_doc(ls[e as int]));
            }
            if j < e {
                assert(doctest::is_doc(ls[j as int]));
            }
        }
        lemma_item_line(ls, j);
        let q = docgen::item_line(ls, j);
        assert(q == k) by {
            if q < k {
                assert(doctest::is_between(chars::trim_start(ls[q as int])));
            }
            if k < q {
                assert(doctest::is_between(chars::trim_start(ls[k as int])));
            }
        }
        lemma_same_block(ls, i as int, k as int);
        let next = docgen::push_item(items, Some(x));
        assert(next[items.len() as int] == x);
        lemma_items_stay(next, ls, docgen::impl_after(ls[k as int], t), k + 1);
        let all = docgen::items_from(next, ls, docgen::impl_after(ls[k as int], t), k + 1);
        assert(all[items.len() as int] == x);
        doctest::lemma_doc_end(ls, i);
        docgen::lemma_item_line(ls, j);
    } else if !doctest::is_doc(ls[h as int]) {
        lemma_listed(items, ls, h + 1, i, j, k, x);
    } else {
        lemma_doc_end(ls, h);
        let e = doctest::doc_end(ls, h);
        assert(e < i) by {
            if e >= i {
                assert(doctest::is_doc(ls[i - 1]));
            }
        }
        doctest::lemma_doc_end(ls, h);
        lemma_item_line(ls, e);
        docgen::lemma_item_line(ls, e);
        let q = docgen::item_line(ls, e);
        assert(q < i) by {
            if q >= i {
                lemma_doc_is_solid(ls[i as int]);
                if q > i {
                    assert(doctest::is_between(chars::trim_start(ls[i as int])));
                }
                lemma_fresh(ls, e as int, i as int);
                assert(doctest::is_doc(ls[e - 1]));
            }
        }
        lemma_same_block(ls, h as int, q as int);
        let next = docgen::push_item(items, docgen::item_at(ls, h, e, q, t));
        assert(block_at(ls, q as int + 1) == docgen::impl_after(ls[q as int], t));
        lemma_listed(next, ls, q + 1, i, j, k, x);
    }
}

proof fn lemma_said(ls: Seq<Seq<char>>, i: int, j: int, m: nat)
    requires
        0 <= i <= j <= ls.len(),
        m <= j - i,
    ensures
        doctest::with_lines(Seq::empty(), doctest::doc_lines(ls, i, j), 0, m) == fences::said(ls, i, i + m),
{
    fences::lemma_said(Seq::empty(), ls, i, j, 0, m);
    assert(Seq::<char>::empty() + fences::said(ls, i, i + m) =~= fences::said(ls, i, i + m));
}

/// Every documented public item is listed: with its kind, its name, qualified by the type whose
/// block it is in where it is a function, its line, and all that its comment says.
pub proof fn documented_items_are_listed(
    src: Seq<char>,
    i: nat,
    j: nat,
    k: nat,
    w: Seq<char>,
    kind: ItemKind,
    foreign: bool,
    name: Seq<char>,
    rest: Seq<char>,
) -> (x: DocItemV)
    requires
        documents(chars::lines(src), i as int, j as int, k as int),
        forall|m: int| 0 <= m < w.len() ==> chars::is_white(#[trigger] w[m]),
        name.len() > 0,
        forall|m: int| 0 <= m < name.len() ==> chars::is_name_char(#[trigger] name[m]),
        rest.len() > 0 ==> !chars::is_name_char(rest[0]),
        chars::lines(src)[k as int] == w + (head_word(kind, foreign) + (name + rest)),
        kind == ItemKind::Impl ==> docgen::is_public_type(chars::lines(src), name),
    ensures
        docgen::documented(src).contains(x),
        x.kind == kind,
        x.name == (match (kind, block_at(chars::lines(src), k as int)) {
            (ItemKind::Fn, Some(t)) => t + "::"@ + name,
            _ => name,
        }),
        x.line == k + 1,
        x.doc == fences::said(chars::lines(src), i as int, j as int),
{
    let ls = chars::lines(src);
    let head = head_word(kind, foreign) + (name + rest);
    lemma_header(kind, foreign, name, rest);
    fences::lemma_trim_start(w, head);
    let x = docgen::item_at(ls, i, j, k, block_at(ls, k as int))->Some_0;
    lemma_said(ls, i as int, j as int, (j - i) as nat);
    lemma_listed(Seq::empty(), ls, 0, i, j, k, x);
    x
}

proof fn lemma_words()
    ensures
        "pub fn "@ =~= seq!['p', 'u', 'b', ' ', 'f', 'n', ' '],
        "pub extern fn "@ =~= seq!['p', 'u', 'b', ' ', 'e', 'x', 't', 'e', 'r', 'n', ' ', 'f', 'n', ' '],
        "pub struct "@ =~= seq!['p', 'u', 'b', ' ', 's', 't', 'r', 'u', 'c', 't', ' '],
        "pub enum "@ =~= seq!['p', 'u', 'b', ' ', 'e', 'n', 'u', 'm', ' '],
        "pub interface "@ =~= seq!['p', 'u', 'b', ' ', 'i', 'n', 't', 'e', 'r', 'f', 'a', 'c', 'e', ' '],
        "pub type "@ =~= seq!['p', 'u', 'b', ' ', 't', 'y', 'p', 'e', ' '],
        "pub impl "@ =~= seq!['p', 'u', 'b', ' ', 'i', 'm', 'p', 'l', ' '],
        "impl "@ =~= seq!['i', 'm', 'p', 'l', ' '],
        "pub "@ =~= seq!['p', 'u', 'b', ' '],
        "extern "@ =~= seq!['e', 'x', 't', 'e', 'r', 'n', ' '],
{
    reveal_strlit("pub fn ");
    reveal_strlit("pub extern fn ");
    reveal_strlit("pub struct ");
    reveal_strlit("pub enum ");
    reveal_strlit("pub interface ");
    reveal_strlit("pub type ");
    reveal_strlit("pub impl ");
    reveal_strlit("impl ");
    reveal_strlit("pub ");
    reveal_strlit("extern ");
}

proof fn lemma_starts(t: Seq<char>, p: Seq<char>)
    requires
        p.len() <= t.len(),
        forall|m: int| 0 <= m < p.len() ==> #[trigger] t[m] == p[m],
    ensures
        chars::starts_with(t, p),
{
    assert(t.take(p.len() as int) =~= p);
}

proof fn lemma_differs(t: Seq<char>, p: Seq<char>, m: int)
    requires
        0 <= m < p.len(),
        m < t.len(),
        t[m] != p[m],
    ensures
        !chars::starts_with(t, p),
{
    if chars::starts_with(t, p) {
        assert(t.take(p.len() as int)[m] == t[m]);
    }
}

proof fn lemma_kind(kind: ItemKind, foreign: bool, t: Seq<char>)
    ensures
        docgen::header_kind(head_word(kind, foreign) + t) == Some(kind),
        !chars::is_white((head_word(kind, foreign) + t)[0]),
        (head_word(kind, foreign) + t).len() > 0,
{
    lemma_words();
    let h = head_word(kind, foreign) + t;
    let word = head_word(kind, foreign);
    assert forall|m: int| 0 <= m < word.len() implies #[trigger] h[m] == word[m] by {}
    lemma_starts(h, word);
    match kind {
        ItemKind::Fn => {},
        ItemKind::Struct => {
            lemma_differs(h, "pub fn "@, 4);
            lemma_differs(h, "pub extern fn "@, 4);
        },
        ItemKind::Enum => {
            lemma_differs(h, "pub fn "@, 4);
            lemma_differs(h, "pub extern fn "@, 5);
            lemma_differs(h, "pub struct "@, 4);
        },
        ItemKind::Interface => {
            lemma_differs(h, "pub fn "@, 4);
            lemma_differs(h, "pub extern fn "@, 4);
            lemma_differs(h, "pub struct "@, 4);
            lemma_differs(h, "pub enum "@, 4);
        },
        ItemKind::TypeAlias => {
            lemma_differs(h, "pub fn "@, 4);
            lemma_differs(h, "pub extern fn "@, 4);
            lemma_differs(h, "pub struct "@, 4);
            lemma_differs(h, "pub enum "@, 4);
            lemma_differs(h, "pub interface "@, 4);
        },
        ItemKind::Impl => {
            lemma_differs(h, "pub fn "@, 0);
            lemma_differs(h, "pub extern fn "@, 0);
            lemma_differs(h, "pub struct "@, 0);
            lemma_differs(h, "pub enum "@, 0);
            lemma_differs(h, "pub interface "@, 0);
            lemma_differs(h, "pub type "@, 0);
        },
    }
}

/// The words behind `pub` and `extern`.
spec fn last_word(kind: ItemKind) -> Seq<char> {
    match kind {
        ItemKind::Fn => seq!['f', 'n', ' '],
        ItemKind::Struct => seq!['s', 't', 'r', 'u', 'c', 't', ' '],
        ItemKind::Enum => seq!['e', 'n', 'u', 'm', ' '],
        ItemKind::Interface => seq!['i', 'n', 't', 'e', 'r', 'f', 'a', 'c', 'e', ' '],
        ItemKind::TypeAlias => seq!['t', 'y', 'p', 'e', ' '],
        ItemKind::Impl => seq!['i', 'm', 'p', 'l', ' '],
    }
}

proof fn lemma_without_one(p: Seq<char>, t: Seq<char>)
    requires
        p.len() > 0,
        !chars::starts_with(t, p),
    ensures
        docgen::without_all(p + t, p) == t,
        docgen::without_all(t, p) == t,
{
    assert((p + t).take(p.len() as int) =~= p);
    assert((p + t).skip(p.len() as int) =~= t);
    assert(docgen::without_all(t, p) == t);
    assert(docgen::without_all(p + t, p) == docgen::without_all((p + t).skip(p.len() as int), p));
}

proof fn lemma_find_space(s: Seq<char>, n: nat, i: nat)
    requires
        i <= n < s.len(),
        s[n as int] == ' ',
        forall|m: int| i <= m < n ==> #[trigger] s[m] != ' ',
    ensures
        chars::find_char(s, ' ', i) == n,
    decreases n - i,
{
    if i < n {
        lemma_find_space(s, n, i + 1);
    }
}

proof fn lemma_after_word(kind: ItemKind, t: Seq<char>)
    ensures
        docgen::after_space(last_word(kind) + t) == t,
{
    let word = last_word(kind);
    let s = word + t;
    let n = (word.len() - 1) as nat;
    assert(s[n as int] == ' ');
    assert forall|m: int| 0 <= m < n implies #[trigger] s[m] != ' ' by {
        assert(s[m] == word[m]);
    }
    lemma_find_space(s, n, 0);
    assert(s.skip(n as int + 1) =~= t);
}

proof fn lemma_bare(kind: ItemKind, foreign: bool, t: Seq<char>)
    requires
        foreign ==> kind == ItemKind::Fn,
    ensures
        docgen::without_all(docgen::without_all(head_word(kind, foreign) + t, "pub "@), "extern "@) == last_word(kind) + t,
{
    lemma_words();
    let h = head_word(kind, foreign) + t;
    let u = last_word(kind) + t;
    assert(u[0] == last_word(kind)[0] && u[1] == last_word(kind)[1]);
    lemma_differs(u, "pub "@, 0);
    lemma_differs(u, "extern "@, if kind == ItemKind::Enum { 1 } else { 0 });
    lemma_without_one("extern "@, u);
    if kind == ItemKind::Impl {
        assert(h =~= u);
        lemma_without_one("pub "@, u);
    } else if foreign {
        let e = "extern "@ + u;
        assert(h =~= "pub "@ + e);
        assert(e[0] == 'e');
        lemma_differs(e, "pub "@, 0);
        lemma_without_one("pub "@, e);
    } else {
        assert(h =~= "pub "@ + u);
        lemma_without_one("pub "@, u);
    }
}

proof fn lemma_header(kind: ItemKind, foreign: bool, name: Seq<char>, rest: Seq<char>)
    requires
        forall|m: int| 0 <= m < name.len() ==> chars::is_name_char(#[trigger] name[m]),
        rest.len() > 0 ==> !chars::is_name_char(rest[0]),
    ensures
        docgen::header_kind(head_word(kind, foreign) + (name + rest)) == Some(kind),
        docgen::header_name(head_word(kind, foreign) + (name + rest)) == name,
        !chars::is_white((head_word(kind, foreign) + (name + rest))[0]),
        (head_word(kind, foreign) + (name + rest)).len() > 0,
{
    let t = name + rest;
    let is_foreign = foreign && kind == ItemKind::Fn;
    assert(head_word(kind, foreign) == head_word(kind, is_foreign));
    lemma_kind(kind, foreign, t);
    lemma_bare(kind, is_foreign, t);
    lemma_after_word(kind, t);
    fences::lemma_leading_name(name, rest);
}

/// A signature that ends on its first line is what stands before its brace or semicolon.
pub proof fn signatures_end_before_the_body(ls: Seq<Seq<char>>, k: nat, stop: nat)
    requires
        k < ls.len(),
        stop < ls[k as int].len(),
        ls[k as int][stop as int] == '{' || ls[k as int][stop as int] == ';',
        forall|m: int| 0 <= m < stop ==> #[trigger] ls[k as int][m] != '{' && ls[k as int][m] != ';',
    ensures
        docgen::signature_from(Seq::empty(), ls, k) == chars::trim_end(ls[k as int].take(stop as int)),
{
    lemma_body_start(ls[k as int], stop, 0);
    assert(docgen::on_new_line(Seq::empty()) + ls[k as int].take(stop as int) =~= ls[k as int].take(stop as int));
}

proof fn lemma_body_start(s: Seq<char>, n: nat, i: nat)
    requires
        i <= n < s.len(),
        s[n as int] == '{' || s[n as int] == ';',
        forall|m: int| i <= m < n ==> #[trigger] s[m] != '{' && s[m] != ';',
    ensures
        docgen::body_start(s, i) == n,
    decreases n - i,
{
    if i < n {
        lemma_body_start(s, n, i + 1);
    }
}

/// An `impl` line opens the block of its type, and a brace of its own at the start of a line
/// closes it.
pub proof fn impl_lines_name_their_type(w: Seq<char>, name: Seq<char>, rest: Seq<char>, target: Option<Seq<char>>)
    requires
        forall|m: int| 0 <= m < w.len() ==> chars::is_white(#[trigger] w[m]),
        name.len() > 0,
        forall|m: int| 0 <= m < name.len() ==> chars::is_name_char(#[trigger] name[m]),
        rest.len() > 0,
        rest[0] == ':' || rest[0] == '{',
    ensures
        docgen::impl_after(w + ("impl "@ + (name + rest)), target) == Some(name),
        docgen::impl_after("}"@, target) is None,
{
    lemma_words();
    let after = name + rest;
    let t = "impl "@ + after;
    fences::lemma_trim_start(w, t);
    assert(t.take(5) =~= "impl "@);
    assert(t.skip(5) =~= after);
    reveal_strlit("}");
    let line = w + t;
    assert(line.len() > 1);
    lemma_target_end(after, name.len(), 0);
    assert(after.take(name.len() as int) =~= name);
    lemma_trim_name(name);
    lemma_no_for(name);
    assert(name.take(name.len() as int) =~= name);
    lemma_no_bracket(name, 0);
}

proof fn lemma_target_end(s: Seq<char>, n: nat, i: nat)
    requires
        i <= n < s.len(),
        forall|m: int| i <= m < n ==> docgen::is_target_char(#[trigger] s[m]),
        !docgen::is_target_char(s[n as int]),
    ensures
        docgen::target_end(s, i) == n,
    decreases n - i,
{
    if i < n {
        lemma_target_end(s, n, i + 1);
    }
}

proof fn lemma_trim_name(name: Seq<char>)
    requires
        forall|m: int| 0 <= m < name.len() ==> chars::is_name_char(#[trigger] name[m]),
    ensures
        chars::trim(name) == name,
{
    if name.len() > 0 {
        assert(!chars::is_white(name[0]));
        assert(chars::first_solid(name, 0) == 0);
        assert(name.skip(0) =~= name);
        assert(!chars::is_white(name[name.len() - 1]));
        assert(chars::last_solid(name, name.len()) == name.len());
        assert(name.take(name.len() as int) =~= name);
    } else {
        assert(chars::trim(name) =~= name);
    }
}

proof fn lemma_no_for(name: Seq<char>)
    requires
        forall|m: int| 0 <= m < name.len() ==> chars::is_name_char(#[trigger] name[m]),
    ensures
        docgen::before_text(name, " for "@) == name,
{
    reveal_strlit(" for ");
    lemma_no_text(name, 0);
    assert(name.take(name.len() as int) =~= name);
}

proof fn lemma_no_text(name: Seq<char>, i: nat)
    requires
        i <= name.len(),
        forall|m: int| 0 <= m < name.len() ==> chars::is_name_char(#[trigger] name[m]),
    ensures
        docgen::find_text(name, " for "@, i) == name.len(),
    decreases name.len() - i,
{
    reveal_strlit(" for ");
    if i < name.len() {
        let t = name.skip(i as int);
        assert(t[0] == name[i as int]);
        lemma_not_prefix(t, " for "@);
        lemma_no_text(name, i + 1);
    }
}

proof fn lemma_no_bracket(name: Seq<char>, i: nat)
    requires
        i <= name.len(),
        forall|m: int| 0 <= m < name.len() ==> chars::is_name_char(#[trigger] name[m]),
    ensures
        chars::find_char(name, '[', i) == name.len(),
    decreases name.len() - i,
{
    if i < name.len() {
        assert(chars::is_name_char(name[i as int]));
        lemma_no_bracket(name, i + 1);
    }
}

// ---------------------------------------------------------------------------
// The page.

pub open spec fn kind_word(kind: ItemKind) -> Seq<char> {
    match kind {
        ItemKind::Fn => "fn"@,
        ItemKind::Struct => "struct"@,
        ItemKind::Enum => "enum"@,
        ItemKind::Impl => "impl"@,
        ItemKind::Interface => "interface"@,
        ItemKind::TypeAlias => "type"@,
    }
}

/// The entry of an item in the contents: its kind and name, linked to its section.
pub open spec fn is_entry(t: Seq<char>, it: DocItemV) -> bool {
    t == "- [`"@ + kind_word(it.kind) + "` "@ + it.name + "](#"@ + docgen::slug(it.name) + ")\n"@
}

/// The section of an item: its kind, its name, where the contents link to it, its line, its
/// signature, and what its comment says, with an empty line behind it.
pub open spec fn is_section(t: Seq<char>, it: DocItemV) -> bool {
    let head = "## `"@ + kind_word(it.kind) + " "@ + it.name + "` <a id=\""@ + docgen::slug(it.name)
        + "\"></a>\n\nDefined at line "@ + text::decimal(it.line) + ".\n\n```\n"@ + chars::trim_end(it.signature) + "\n```\n\n"@;
    if it.doc.len() == 0 {
        t == head
    } else if it.doc.last() == '\n' {
        t == head + it.doc + "\n"@
    } else {
        t == head + it.doc + "\n\n"@
    }
}

proof fn lemma_contents(out: Seq<char>, items: Seq<DocItemV>, i: nat) -> (cs: Seq<Seq<char>>)
    requires
        i <= items.len(),
    ensures
        cs.len() == items.len() - i,
        forall|k: int| 0 <= k < cs.len() ==> is_entry(#[trigger] cs[k], items[i + k]),
        docgen::with_contents(out, items, i) == out + fences::together(cs),
    decreases items.len() - i,
{
    if i < items.len() {
        let c = docgen::contents_line(items[i as int]);
        let rest = lemma_contents(out + c, items, i + 1);
        let cs = seq![c] + rest;
        fences::lemma_together_one(c, rest);
        assert(out + (c + fences::together(rest)) =~= out + c + fences::together(rest));
        assert forall|k: int| 0 <= k < cs.len() implies is_entry(#[trigger] cs[k], items[i + k]) by {
            if k > 0 {
                assert(cs[k] == rest[k - 1]);
            }
        }
        cs
    } else {
        assert(out + fences::together(Seq::empty()) =~= out);
        Seq::empty()
    }
}

proof fn lemma_sections(out: Seq<char>, items: Seq<DocItemV>, i: nat) -> (cs: Seq<Seq<char>>)
    requires
        i <= items.len(),
    ensures
        cs.len() == items.len() - i,
        forall|k: int| 0 <= k < cs.len() ==> is_section(#[trigger] cs[k], items[i + k]),
        docgen::with_sections(out, items, i) == out + fences::together(cs),
    decreases items.len() - i,
{
    if i < items.len() {
        let c = docgen::section(items[i as int]);
        lemma_section(items[i as int]);
        let rest = lemma_sections(out + c, items, i + 1);
        let cs = seq![c] + rest;
        fences::lemma_together_one(c, rest);
        assert(out + (c + fences::together(rest)) =~= out + c + fences::together(rest));
        assert forall|k: int| 0 <= k < cs.len() implies is_section(#[trigger] cs[k], items[i + k]) by {
            if k > 0 {
                assert(cs[k] == rest[k - 1]);
            }
        }
        cs
    } else {
        assert(out + fences::together(Seq::empty()) =~= out);
        Seq::empty()
    }
}

proof fn lemma_section(it: DocItemV)
    ensures
        is_section(docgen::section(it), it),
{
    let head = "## `"@ + kind_word(it.kind) + " "@ + it.name + "` <a id=\""@ + docgen::slug(it.name)
        + "\"></a>\n\nDefined at line "@ + text::decimal(it.line) + ".\n\n```\n"@ + chars::trim_end(it.signature) + "\n```\n\n"@;
    assert(docgen::section(it) == head + docgen::doc_part(it.doc));
    if it.doc.len() == 0 {
        assert(head + docgen::doc_part(it.doc) =~= head);
    } else if it.doc.last() == '\n' {
        assert(head + (it.doc + "\n"@) =~= head + it.doc + "\n"@);
    } else {
        assert(head + (it.doc + "\n\n"@) =~= head + it.doc + "\n\n"@);
    }
}

/// A page has one entry in its contents and one section for each item, both in the same order,
/// kind after kind.
pub proof fn pages_hold_every_item(label: Seq<char>, items: Seq<DocItemV>) -> (r: (Seq<DocItemV>, Seq<Seq<char>>, Seq<Seq<char>>))
    requires
        items.len() > 0,
    ensures
        r.0.to_multiset() == items.to_multiset(),
        forall|a: int, b: int|
            0 <= a < b < r.0.len() ==> docgen::kind_rank((#[trigger] r.0[a]).kind) <= docgen::kind_rank((#[trigger] r.0[b]).kind),
        r.1.len() == r.0.len(),
        r.2.len() == r.0.len(),
        forall|k: int| 0 <= k < r.1.len() ==> is_entry(#[trigger] r.1[k], r.0[k]),
        forall|k: int| 0 <= k < r.2.len() ==> is_section(#[trigger] r.2[k], r.0[k]),
        docgen::page(label, items) == "# `"@ + label + "`\n\n"@ + "## Contents\n\n"@ + fences::together(r.1) + "\n"@ + fences::together(
            r.2,
        ),
{
    let shown = docgen::by_kind(items);
    docgen::pages_are_grouped_by_kind(items);
    let out = "# `"@ + label + "`\n\n"@ + "## Contents\n\n"@;
    let cs = lemma_contents(out, shown, 0);
    let ss = lemma_sections(out + fences::together(cs) + "\n"@, shown, 0);
    (shown, cs, ss)
}

} // verus!
