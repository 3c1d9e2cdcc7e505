//! Reference documentation: the documented public items of a source, and their Markdown page.
use vstd::prelude::*;
use vstd::string::*;
use crate::chars;
use crate::doctest;
use crate::sigs;
use crate::text;
use crate::chars::{append_chars, append_text, chars_of, has_prefix, is_ascii_alnum_char, is_name, lines_of, position_of_char, slice_chars, starts_at, string_of, stripped_prefix, text_of, trimmed, trimmed_end, trimmed_start};
use crate::doctest::{append_lines, doc_block, is_between_line, is_doc_line, name_at_start};
use crate::text::{decimal_text, str_eq};

verus! {

#[derive(Debug, Clone, Copy, PartialEq, Eq, Structural)]
pub enum ItemKind {
    Fn,
    Struct,
    Enum,
    Impl,
    Interface,
    TypeAlias,
}

/// A documented item.
#[derive(Debug, Clone, PartialEq)]
pub struct DocItem {
    pub kind: ItemKind,
    pub name: String,
    /// The text up to the opening brace or the semicolon.
    pub signature: String,
    /// The text of the documentation comment.
    pub doc: String,
    /// The line that the item starts on, counted from one.
    pub line: usize,
}

pub struct DocItemV {
    pub kind: ItemKind,
    pub name: Seq<char>,
    pub signature: Seq<char>,
    pub doc: Seq<char>,
    pub line: nat,
}

impl View for DocItem {
    type V = DocItemV;

    open spec fn view(&self) -> DocItemV {
        DocItemV {
            kind: self.kind,
            name: self.name@,
            signature: self.signature@,
            doc: self.doc@,
            line: self.line as nat,
        }
    }
}

impl DeepView for DocItem {
    type V = DocItemV;

    open spec fn deep_view(&self) -> DocItemV {
        self@
    }
}

pub open spec fn kind_label(k: ItemKind) -> Seq<char> {
    match k {
        ItemKind::Fn => "fn"@,
        ItemKind::Struct => "struct"@,
        ItemKind::Enum => "enum"@,
        ItemKind::Impl => "impl"@,
        ItemKind::Interface => "interface"@,
        ItemKind::TypeAlias => "type"@,
    }
}

impl ItemKind {
    pub fn label(self) -> (r: &'static str)
        ensures
            r@ == kind_label(self),
    {
        match self {
            ItemKind::Fn => "fn",
            ItemKind::Struct => "struct",
            ItemKind::Enum => "enum",
            ItemKind::Impl => "impl",
            ItemKind::Interface => "interface",
            ItemKind::TypeAlias => "type",
        }
    }
}

// ---------------------------------------------------------------------------
// Item headers.

/// The kind of the public item that a line starts, if it starts one.
pub open spec fn header_kind(head: Seq<char>) -> Option<ItemKind> {
    if chars::starts_with(head, "pub fn "@) || chars::starts_with(head, "pub extern fn "@) {
        Some(ItemKind::Fn)
    } else if chars::starts_with(head, "pub struct "@) {
        Some(ItemKind::Struct)
    } else if chars::starts_with(head, "pub enum "@) {
        Some(ItemKind::Enum)
    } else if chars::starts_with(head, "pub interface "@) {
        Some(ItemKind::Interface)
    } else if chars::starts_with(head, "pub type "@) {
        Some(ItemKind::TypeAlias)
    } else if chars::starts_with(head, "pub impl "@) || chars::starts_with(head, "impl "@) {
        Some(ItemKind::Impl)
    } else {
        None
    }
}

fn kind_of_header(head: &Vec<char>) -> (r: Option<ItemKind>)
    ensures
        r == header_kind(head@),
{
    if has_prefix(head, "pub fn ") || has_prefix(head, "pub extern fn ") {
        Some(ItemKind::Fn)
    } else if has_prefix(head, "pub struct ") {
        Some(ItemKind::Struct)
    } else if has_prefix(head, "pub enum ") {
        Some(ItemKind::Enum)
    } else if has_prefix(head, "pub interface ") {
        Some(ItemKind::Interface)
    } else if has_prefix(head, "pub type ") {
        Some(ItemKind::TypeAlias)
    } else if has_prefix(head, "pub impl ") || has_prefix(head, "impl ") {
        Some(ItemKind::Impl)
    } else {
        None
    }
}

/// The text without any of the copies of the prefix that it starts with.
pub open spec fn without_all(s: Seq<char>, p: Seq<char>) -> Seq<char>
    decreases s.len(),
{
    if p.len() > 0 && chars::starts_with(s, p) {
        without_all(s.skip(p.len() as int), p)
    } else {
        s
    }
}

fn drop_all(v: &Vec<char>, p: &str) -> (r: Vec<char>)
    ensures
        r@ == without_all(v@, p@),
{
    let n: usize = p.unicode_len();
    let mut cur = slice_chars(v, 0, v.len());
    assert(cur@ =~= v@);
    while n > 0 && has_prefix(&cur, p)
        invariant
            n == p@.len(),
            without_all(cur@, p@) == without_all(v@, p@),
        decreases cur@.len(),
    {
        let next = slice_chars(&cur, n, cur.len());
        assert(next@ =~= cur@.skip(n as int));
        cur = next;
    }
    cur
}

/// The text after the first space, or nothing.
pub open spec fn after_space(s: Seq<char>) -> Seq<char> {
    let i = chars::find_char(s, ' ', 0);
    if i < s.len() {
        s.skip(i as int + 1)
    } else {
        Seq::empty()
    }
}

fn past_space(v: &Vec<char>) -> (r: Vec<char>)
    ensures
        r@ == after_space(v@),
{
    let i: usize = position_of_char(v, ' ', 0);
    if i < v.len() {
        let r = slice_chars(v, i + 1, v.len());
        assert(r@ =~= v@.skip(i as int + 1));
        r
    } else {
        Vec::new()
    }
}

/// The name in an item's header.
pub open spec fn header_name(head: Seq<char>) -> Seq<char> {
    doctest::leading_name(after_space(without_all(without_all(head, "pub "@), "extern "@)))
}

fn name_of_header(head: &Vec<char>) -> (r: Vec<char>)
    ensures
        r@ == header_name(head@),
{
    name_at_start(&past_space(&drop_all(&drop_all(head, "pub "), "extern ")))
}

/// The first brace or semicolon from `i` on, or the end.
pub open spec fn body_start(s: Seq<char>, i: nat) -> nat
    decreases s.len() - i,
{
    if i >= s.len() {
        s.len()
    } else if s[i as int] == '{' || s[i as int] == ';' {
        i
    } else {
        body_start(s, i + 1)
    }
}

fn start_of_body(v: &Vec<char>) -> (r: usize)
    ensures
        r == body_start(v@, 0),
        r <= v@.len(),
{
    let mut i: usize = 0;
    while i < v.len()
        invariant
            i <= v@.len(),
            body_start(v@, i as nat) == body_start(v@, 0),
        decreases v@.len() - i,
    {
        if v[i] == '{' || v[i] == ';' {
            return i;
        }
        i += 1;
    }
    i
}

pub open spec fn on_new_line(sig: Seq<char>) -> Seq<char> {
    if sig.len() > 0 {
        sig + "\n"@
    } else {
        sig
    }
}

/// The signature that starts on line `j`: up to the first brace or semicolon.
pub open spec fn signature_from(sig: Seq<char>, ls: Seq<Seq<char>>, j: nat) -> Seq<char>
    decreases ls.len() - j,
{
    if j >= ls.len() {
        chars::trim_end(sig)
    } else {
        let l = ls[j as int];
        let stop = body_start(l, 0);
        if stop < l.len() {
            chars::trim_end(on_new_line(sig) + l.take(stop as int))
        } else {
            signature_from(on_new_line(sig) + l, ls, j + 1)
        }
    }
}

fn signature_of(ls: &Vec<Vec<char>>, from: usize) -> (r: String)
    requires
        from <= ls@.len(),
    ensures
        r@ == signature_from(Seq::empty(), ls.deep_view(), from as nat),
{
    let ghost lv = ls.deep_view();
    let mut sig: Vec<char> = Vec::new();
    let mut j: usize = from;
    while j < ls.len()
        invariant
            from <= j <= ls@.len(),
            lv == ls.deep_view(),
            signature_from(sig@, lv, j as nat) == signature_from(Seq::empty(), lv, from as nat),
        decreases ls@.len() - j,
    {
        let l = &ls[j];
        assert(lv[j as int] =~= l@);
        if sig.len() > 0 {
            append_text(&mut sig, "\n");
        }
        let stop: usize = start_of_body(l);
        append_chars(&mut sig, l, 0, stop);
        if stop < l.len() {
            assert(l@.subrange(0, stop as int) =~= l@.take(stop as int));
            return string_of(&trimmed_end(&sig));
        }
        assert(l@.subrange(0, stop as int) =~= l@);
        j += 1;
    }
    string_of(&trimmed_end(&sig))
}

/// The name shown for an item: a method's is qualified by the type it belongs to.
pub open spec fn shown_name(kind: ItemKind, name: Seq<char>, target: Option<Seq<char>>) -> Seq<char> {
    match (kind, target) {
        (ItemKind::Fn, Some(t)) => t + "::"@ + name,
        _ => name,
    }
}

// ---------------------------------------------------------------------------
// The type that an `impl` block is for.

pub open spec fn is_target_char(c: char) -> bool {
    chars::is_name_char(c) || c == '[' || c == ']' || c == ',' || c == ' '
}

pub open spec fn target_end(s: Seq<char>, i: nat) -> nat
    decreases s.len() - i,
{
    if i < s.len() && is_target_char(s[i as int]) {
        target_end(s, i + 1)
    } else {
        i
    }
}

fn end_of_target(v: &Vec<char>) -> (r: usize)
    ensures
        r == target_end(v@, 0),
        r <= v@.len(),
{
    let mut i: usize = 0;
    while i < v.len() && (is_name(v[i]) || v[i] == '[' || v[i] == ']' || v[i] == ',' || v[i] == ' ')
        invariant
            i <= v@.len(),
            target_end(v@, i as nat) == target_end(v@, 0),
        decreases v@.len() - i,
    {
        i += 1;
    }
    i
}

/// The first position from `i` on at which the text occurs, or the end.
pub open spec fn find_text(s: Seq<char>, p: Seq<char>, i: nat) -> nat
    decreases s.len() - i,
{
    if i >= s.len() {
        s.len()
    } else if chars::starts_with(s.skip(i as int), p) {
        i
    } else {
        find_text(s, p, i + 1)
    }
}

fn position_of_text(v: &Vec<char>, p: &str) -> (r: usize)
    ensures
        r == find_text(v@, p@, 0),
        r <= v@.len(),
{
    let mut i: usize = 0;
    while i < v.len()
        invariant
            i <= v@.len(),
            find_text(v@, p@, i as nat) == find_text(v@, p@, 0),
        decreases v@.len() - i,
    {
        if starts_at(v, i, p) {
            return i;
        }
        i += 1;
    }
    i
}

pub open spec fn before_text(s: Seq<char>, p: Seq<char>) -> Seq<char> {
    s.take(find_text(s, p, 0) as int)
}

/// The type named after `impl`, without its type parameters.
pub open spec fn impl_type(after: Seq<char>) -> Seq<char> {
    let name = chars::trim(after.take(target_end(after, 0) as int));
    let ty = chars::trim(before_text(name, " for "@));
    chars::trim(ty.take(chars::find_char(ty, '[', 0) as int))
}

fn type_of_impl(after: &Vec<char>) -> (r: Vec<char>)
    ensures
        r@ == impl_type(after@),
{
    let head = slice_chars(after, 0, end_of_target(after));
    assert(head@ =~= after@.take(target_end(after@, 0) as int));
    let name = trimmed(&head);
    let part = slice_chars(&name, 0, position_of_text(&name, " for "));
    assert(part@ =~= before_text(name@, " for "@));
    let ty = trimmed(&part);
    let bare = slice_chars(&ty, 0, position_of_char(&ty, '[', 0));
    assert(bare@ =~= ty@.take(chars::find_char(ty@, '[', 0) as int));
    trimmed(&bare)
}

pub open spec fn after_impl(t: Seq<char>) -> Option<Seq<char>> {
    if chars::starts_with(t, "impl "@) {
        chars::strip_prefix(t, "impl "@)
    } else {
        chars::strip_prefix(t, "pub impl "@)
    }
}

/// The `impl` block that the lines after this one are in.
pub open spec fn impl_after(line: Seq<char>, target: Option<Seq<char>>) -> Option<Seq<char>> {
    if line == "}"@ {
        None
    } else {
        match after_impl(chars::trim_start(line)) {
            Some(after) => if impl_type(after).len() > 0 {
                Some(impl_type(after))
            } else {
                target
            },
            None => target,
        }
    }
}

fn update_impl_tracker(line: &Vec<char>, target: Option<String>) -> (r: Option<String>)
    ensures
        sigs::opt_name(r) == impl_after(line@, sigs::opt_name(target)),
{
    if str_eq(string_of(line).as_str(), "}") {
        return None;
    }
    let t = trimmed_start(line);
    let after = if has_prefix(&t, "impl ") {
        stripped_prefix(&t, "impl ")
    } else {
        stripped_prefix(&t, "pub impl ")
    };
    match after {
        Some(a) => {
            let ty = type_of_impl(&a);
            if ty.len() > 0 {
                Some(string_of(&ty))
            } else {
                target
            }
        },
        None => target,
    }
}

// ---------------------------------------------------------------------------
// The documented items of a source.

/// The first line from `i` on that is neither blank, a comment nor an attribute.
pub open spec fn item_line(ls: Seq<Seq<char>>, i: nat) -> nat
    decreases ls.len() - i,
{
    if i < ls.len() && doctest::is_between(chars::trim_start(ls[i as int])) {
        item_line(ls, i + 1)
    } else {
        i
    }
}

pub proof fn lemma_item_line(ls: Seq<Seq<char>>, i: nat)
    requires
        i <= ls.len(),
    ensures
        i <= item_line(ls, i) <= ls.len(),
    decreases ls.len() - i,
{
    if i < ls.len() && doctest::is_between(chars::trim_start(ls[i as int])) {
        lemma_item_line(ls, i + 1);
    }
}

fn skip_attributes(ls: &Vec<Vec<char>>, from: usize) -> (r: usize)
    requires
        from <= ls@.len(),
    ensures
        r == item_line(ls.deep_view(), from as nat),
        from <= r <= ls@.len(),
{
    let mut i: usize = from;
    while i < ls.len() && is_between_line(&trimmed_start(&ls[i]))
        invariant
            from <= i <= ls@.len(),
            item_line(ls.deep_view(), i as nat) == item_line(ls.deep_view(), from as nat),
        decreases ls@.len() - i,
    {
        assert(ls.deep_view()[i as int] =~= ls@[i as int]@);
        i += 1;
    }
    proof {
        if i < ls@.len() {
            assert(ls.deep_view()[i as int] =~= ls@[i as int]@);
        }
    }
    i
}

/// The line declares a public type of the name.
pub open spec fn declares_type(line: Seq<char>, name: Seq<char>) -> bool {
    let head = chars::trim_start(line);
    &&& header_kind(head) == Some(ItemKind::Struct) || header_kind(head) == Some(ItemKind::Enum) || header_kind(head) == Some(
        ItemKind::TypeAlias,
    )
    &&& header_name(head) == name
}

/// Some line declares a public type of the name.
pub open spec fn is_public_type(ls: Seq<Seq<char>>, name: Seq<char>) -> bool {
    exists|k: int| 0 <= k < ls.len() && declares_type(#[trigger] ls[k], name)
}

fn has_public_type(ls: &Vec<Vec<char>>, name: &Vec<char>) -> (r: bool)
    ensures
        r == is_public_type(ls.deep_view(), name@),
{
    let ghost lv = ls.deep_view();
    let wanted = string_of(name);
    let mut i: usize = 0;
    while i < ls.len()
        invariant
            i <= ls@.len(),
            lv == ls.deep_view(),
            wanted@ == name@,
            forall|k: int| 0 <= k < i ==> !declares_type(#[trigger] lv[k], name@),
        decreases ls@.len() - i,
    {
        assert(lv[i as int] =~= ls@[i as int]@);
        let head = trimmed_start(&ls[i]);
        let is_type = match kind_of_header(&head) {
            Some(ItemKind::Struct) => true,
            Some(ItemKind::Enum) => true,
            Some(ItemKind::TypeAlias) => true,
            _ => false,
        };
        if is_type && str_eq(string_of(&name_of_header(&head)).as_str(), wanted.as_str()) {
            assert(declares_type(lv[i as int], name@));
            return true;
        }
        i += 1;
    }
    false
}

/// The item of the kind and name is documented: an `impl` block only if its type is public.
pub open spec fn is_shown(ls: Seq<Seq<char>>, kind: ItemKind, name: Seq<char>) -> bool {
    name.len() > 0 && (kind == ItemKind::Impl ==> is_public_type(ls, name))
}

/// The item that starts on line `k`, documented by the lines from `i` up to `j`.
pub open spec fn item_at(ls: Seq<Seq<char>>, i: nat, j: nat, k: nat, target: Option<Seq<char>>) -> Option<DocItemV> {
    let head = chars::trim_start(ls[k as int]);
    match header_kind(head) {
        Some(kind) => if is_shown(ls, kind, header_name(head)) {
            let docs = doctest::doc_lines(ls, i as int, j as int);
            Some(
                DocItemV {
                    kind,
                    name: shown_name(kind, header_name(head), target),
                    signature: signature_from(Seq::empty(), ls, k),
                    doc: doctest::with_lines(Seq::empty(), docs, 0, docs.len()),
                    line: k + 1,
                },
            )
        } else {
            None
        },
        None => None,
    }
}

pub open spec fn push_item(items: Seq<DocItemV>, item: Option<DocItemV>) -> Seq<DocItemV> {
    match item {
        Some(x) => items.push(x),
        None => items,
    }
}

/// The documented items from line `i` on.
pub open spec fn items_from(items: Seq<DocItemV>, ls: Seq<Seq<char>>, target: Option<Seq<char>>, i: nat) -> Seq<DocItemV>
    decreases ls.len() - i,
{
    if i >= ls.len() {
        items
    } else if !doctest::is_doc(ls[i as int]) {
        items_from(items, ls, impl_after(ls[i as int], target), i + 1)
    } else {
        let j = doctest::doc_end(ls, i);
        proof {
            doctest::lemma_doc_end(ls, i);
            lemma_item_line(ls, j);
        }
        let k = item_line(ls, j);
        if k >= ls.len() {
            items
        } else {
            items_from(push_item(items, item_at(ls, i, j, k, target)), ls, impl_after(ls[k as int], target), k + 1)
        }
    }
}

pub open spec fn documented(src: Seq<char>) -> Seq<DocItemV> {
    items_from(Seq::empty(), chars::lines(src), None, 0)
}

fn find_item(ls: &Vec<Vec<char>>, docs: &Vec<Vec<char>>, k: usize, target: &Option<String>, Ghost(i): Ghost<nat>, Ghost(j): Ghost<nat>) -> (r: Option<
    DocItem,
>)
    requires
        k < ls@.len(),
        docs.deep_view() == doctest::doc_lines(ls.deep_view(), i as int, j as int),
    ensures
        match r {
            Some(x) => item_at(ls.deep_view(), i, j, k as nat, sigs::opt_name(*target)) == Some(x@),
            None => item_at(ls.deep_view(), i, j, k as nat, sigs::opt_name(*target)) is None,
        },
{
    assert(ls.deep_view()[k as int] =~= ls@[k as int]@);
    let len: usize = ls.len();
    let head = trimmed_start(&ls[k]);
    let kind = match kind_of_header(&head) {
        Some(x) => x,
        None => {
            return None;
        },
    };
    let raw = name_of_header(&head);
    if raw.len() == 0 {
        return None;
    }
    if let ItemKind::Impl = kind {
        if !has_public_type(ls, &raw) {
            return None;
        }
    }
    let mut name: String = String::new();
    if let ItemKind::Fn = kind {
        if let Some(t) = target {
            name = t.clone();
            name.append("::");
        }
    }
    name.append(string_of(&raw).as_str());
    assert(name@ =~= shown_name(kind, raw@, sigs::opt_name(*target)));
    let mut doc: Vec<char> = Vec::new();
    append_lines(&mut doc, docs, 0, docs.len());
    Some(DocItem { kind, name, signature: signature_of(ls, k), doc: string_of(&doc), line: k + 1 })
}

/// The public items, and the `impl` blocks of public types, that a documentation comment
/// precedes.
pub fn extract(src: &str) -> (r: Vec<DocItem>)
    ensures
        r.deep_view() == documented(src@),
{
    let v = chars_of(src);
    let ls = lines_of(&v);
    let ghost lv = ls.deep_view();
    let n: usize = ls.len();
    let mut items: Vec<DocItem> = Vec::new();
    assert(items.deep_view() =~= Seq::<DocItemV>::empty());
    let mut target: Option<String> = None;
    let mut i: usize = 0;
    while i < n
        invariant
            i <= n,
            n == ls@.len(),
            lv == ls.deep_view(),
            lv == chars::lines(src@),
            items_from(items.deep_view(), lv, sigs::opt_name(target), i as nat) == items_from(Seq::empty(), lv, None, 0),
        decreases n - i,
    {
        assert(lv[i as int] =~= ls@[i as int]@);
        if !is_doc_line(&ls[i]) {
            target = update_impl_tracker(&ls[i], target);
            i += 1;
        } else {
            let (docs, j) = doc_block(&ls, i);
            let k: usize = skip_attributes(&ls, j);
            if k >= n {
                return items;
            }
            if let Some(x) = find_item(&ls, &docs, k, &target, Ghost(i as nat), Ghost(j as nat)) {
                let ghost before = items.deep_view();
                let ghost xv = x@;
                items.push(x);
                assert(items.deep_view() =~= before.push(xv));
            }
            assert(lv[k as int] =~= ls@[k as int]@);
            target = update_impl_tracker(&ls[k], target);
            proof {
                doctest::lemma_doc_end(lv, i as nat);
                lemma_item_line(lv, j as nat);
            }
            i = k + 1;
        }
    }
    items
}

// ---------------------------------------------------------------------------
// The Markdown page.

pub open spec fn ascii_lower(c: char) -> char {
    if 'A' <= c <= 'Z' {
        ((c as u8) + 32) as char
    } else {
        c
    }
}

fn lower_char(c: char) -> (r: char)
    ensures
        r == ascii_lower(c),
{
    if 'A' <= c && c <= 'Z' {
        (c as u8 + 32) as char
    } else {
        c
    }
}

/// Letters and digits in lower case, with one dash for each run of other characters between
/// them.
pub open spec fn slug_from(out: Seq<char>, s: Seq<char>, i: nat) -> Seq<char>
    decreases s.len() - i,
{
    if i >= s.len() {
        out
    } else if chars::is_ascii_alnum(s[i as int]) {
        slug_from(out.push(ascii_lower(s[i as int])), s, i + 1)
    } else if out.len() > 0 && out.last() != '-' {
        slug_from(out.push('-'), s, i + 1)
    } else {
        slug_from(out, s, i + 1)
    }
}

/// The name of the section of an item.
pub open spec fn slug(s: Seq<char>) -> Seq<char> {
    let out = slug_from(Seq::empty(), s, 0);
    if out.len() > 0 && out.last() == '-' {
        out.drop_last()
    } else {
        out
    }
}

pub fn anchor(name: &str) -> (r: String)
    ensures
        r@ == slug(name@),
{
    let v = chars_of(name);
    let mut out: Vec<char> = Vec::new();
    let mut i: usize = 0;
    while i < v.len()
        invariant
            i <= v@.len(),
            slug_from(out@, v@, i as nat) == slug_from(Seq::empty(), v@, 0),
        decreases v@.len() - i,
    {
        if is_ascii_alnum_char(v[i]) {
            out.push(lower_char(v[i]));
        } else if out.len() > 0 && out[out.len() - 1] != '-' {
            out.push('-');
        }
        i += 1;
    }
    if out.len() > 0 && out[out.len() - 1] == '-' {
        let n: usize = out.len() - 1;
        let r = text_of(&out, 0, n);
        assert(out@.subrange(0, n as int) =~= out@.drop_last());
        r
    } else {
        string_of(&out)
    }
}

pub open spec fn contents_line(it: DocItemV) -> Seq<char> {
    "- [`"@ + kind_label(it.kind) + "` "@ + it.name + "](#"@ + slug(it.name) + ")\n"@
}

pub open spec fn with_contents(out: Seq<char>, items: Seq<DocItemV>, i: nat) -> Seq<char>
    decreases items.len() - i,
{
    if i >= items.len() {
        out
    } else {
        with_contents(out + contents_line(items[i as int]), items, i + 1)
    }
}

/// The documentation of an item, with a blank line after it.
pub open spec fn doc_part(doc: Seq<char>) -> Seq<char> {
    if doc.len() == 0 {
        Seq::empty()
    } else if doc.last() == '\n' {
        doc + "\n"@
    } else {
        doc + "\n\n"@
    }
}

pub open spec fn section(it: DocItemV) -> Seq<char> {
    "## `"@ + kind_label(it.kind) + " "@ + it.name + "` <a id=\""@ + slug(it.name) + "\"></a>\n\nDefined at line "@
        + text::decimal(it.line) + ".\n\n```\n"@ + chars::trim_end(it.signature) + "\n```\n\n"@ + doc_part(it.doc)
}

pub open spec fn with_sections(out: Seq<char>, items: Seq<DocItemV>, i: nat) -> Seq<char>
    decreases items.len() - i,
{
    if i >= items.len() {
        out
    } else {
        with_sections(out + section(items[i as int]), items, i + 1)
    }
}

/// The items of one kind, in their order.
pub open spec fn of_kind(items: Seq<DocItemV>, kind: ItemKind) -> Seq<DocItemV> {
    items.filter(|it: DocItemV| it.kind == kind)
}

/// The items kind by kind.
pub open spec fn by_kind(items: Seq<DocItemV>) -> Seq<DocItemV> {
    of_kind(items, ItemKind::Fn) + of_kind(items, ItemKind::Struct) + of_kind(items, ItemKind::Enum) + of_kind(
        items,
        ItemKind::Impl,
    ) + of_kind(items, ItemKind::Interface) + of_kind(items, ItemKind::TypeAlias)
}

/// The page of a file: its contents, then a section for each item, both kind by kind.
pub open spec fn page(label: Seq<char>, items: Seq<DocItemV>) -> Seq<char> {
    let out = "# `"@ + label + "`\n\n"@;
    if items.len() == 0 {
        out + "_No documented `pub` items._\n"@
    } else {
        with_sections(with_contents(out + "## Contents\n\n"@, by_kind(items), 0) + "\n"@, by_kind(items), 0)
    }
}

fn add_kind<'a>(out: &mut Vec<&'a DocItem>, items: &'a [DocItem], kind: ItemKind)
    ensures
        final(out).deep_view() == old(out).deep_view() + of_kind(items.deep_view(), kind),
{
    let ghost iv = items.deep_view();
    let ghost p = |it: DocItemV| it.kind == kind;
    let ghost start = out.deep_view();
    let mut i: usize = 0;
    proof {
        reveal(Seq::filter);
        assert(iv.take(0).filter(p) =~= Seq::empty());
        assert(start + iv.take(0).filter(p) =~= start);
    }
    while i < items.len()
        invariant
            i <= items@.len(),
            iv == items.deep_view(),
            p == (|it: DocItemV| it.kind == kind),
            out.deep_view() == start + iv.take(i as int).filter(p),
        decreases items@.len() - i,
    {
        let ghost before = out.deep_view();
        proof {
            reveal(Seq::filter);
            assert(iv.take(i as int + 1).drop_last() =~= iv.take(i as int));
            assert(iv.take(i as int + 1).last() == items@[i as int]@);
        }
        if items[i].kind == kind {
            out.push(&items[i]);
            assert(out.deep_view() =~= before.push(items@[i as int]@));
            assert(before.push(items@[i as int]@) =~= start + iv.take(i as int + 1).filter(p));
        }
        i += 1;
    }
    assert(iv.take(i as int) =~= iv);
}

fn group_by_kind<'a>(items: &'a [DocItem]) -> (r: Vec<&'a DocItem>)
    ensures
        r.deep_view() == by_kind(items.deep_view()),
{
    let mut out: Vec<&'a DocItem> = Vec::new();
    assert(out.deep_view() =~= Seq::<DocItemV>::empty());
    add_kind(&mut out, items, ItemKind::Fn);
    assert(out.deep_view() =~= of_kind(items.deep_view(), ItemKind::Fn));
    add_kind(&mut out, items, ItemKind::Struct);
    add_kind(&mut out, items, ItemKind::Enum);
    add_kind(&mut out, items, ItemKind::Impl);
    add_kind(&mut out, items, ItemKind::Interface);
    add_kind(&mut out, items, ItemKind::TypeAlias);
    out
}

fn contents_text(it: &DocItem) -> (r: String)
    ensures
        r@ == contents_line(it@),
{
    let mut out: String = "- [`".to_owned();
    out.append(it.kind.label());
    out.append("` ");
    out.append(it.name.as_str());
    out.append("](#");
    out.append(anchor(it.name.as_str()).as_str());
    out.append(")\n");
    out
}

fn doc_text_of(doc: &String) -> (r: String)
    ensures
        r@ == doc_part(doc@),
{
    let v = chars_of(doc.as_str());
    let mut out: String = doc.clone();
    if v.len() == 0 {
        assert(out@ =~= doc_part(doc@));
    } else {
        if v[v.len() - 1] == '\n' {
            out.append("\n");
        } else {
            out.append("\n\n");
        }
    }
    out
}

fn section_text(it: &DocItem) -> (r: String)
    ensures
        r@ == section(it@),
{
    let mut out: String = "## `".to_owned();
    out.append(it.kind.label());
    out.append(" ");
    out.append(it.name.as_str());
    out.append("` <a id=\"");
    out.append(anchor(it.name.as_str()).as_str());
    out.append("\"></a>\n\nDefined at line ");
    out.append(decimal_text(it.line as u64).as_str());
    out.append(".\n\n```\n");
    let sig = trimmed_end(&chars_of(it.signature.as_str()));
    out.append(string_of(&sig).as_str());
    out.append("\n```\n\n");
    out.append(doc_text_of(&it.doc).as_str());
    out
}

pub fn render_markdown(file_label: &str, items: &[DocItem]) -> (r: String)
    ensures
        r@ == page(file_label@, items.deep_view()),
{
    let mut out: String = "# `".to_owned();
    out.append(file_label);
    out.append("`\n\n");
    if items.len() == 0 {
        out.append("_No documented `pub` items._\n");
        return out;
    }
    let shown = group_by_kind(items);
    let ghost iv = shown.deep_view();
    out.append("## Contents\n\n");
    let ghost o1 = out@;
    let mut i: usize = 0;
    while i < shown.len()
        invariant
            i <= shown@.len(),
            iv == shown.deep_view(),
            with_contents(out@, iv, i as nat) == with_contents(o1, iv, 0),
        decreases shown@.len() - i,
    {
        assert(iv[i as int] == shown@[i as int]@);
        out.append(contents_text(shown[i]).as_str());
        i += 1;
    }
    out.append("\n");
    let ghost o2 = out@;
    let mut j: usize = 0;
    while j < shown.len()
        invariant
            j <= shown@.len(),
            iv == shown.deep_view(),
            with_sections(out@, iv, j as nat) == with_sections(o2, iv, 0),
        decreases shown@.len() - j,
    {
        assert(iv[j as int] == shown@[j as int]@);
        out.append(section_text(shown[j]).as_str());
        j += 1;
    }
    out
}

// ---------------------------------------------------------------------------
// What the documented items promise.

/// The item stands on a line of the source that starts a public item, or an `impl` of a public
/// type, and carries its name.
pub open spec fn stands_in(it: DocItemV, ls: Seq<Seq<char>>) -> bool {
    let head = chars::trim_start(ls[it.line - 1]);
    &&& 1 <= it.line <= ls.len()
    &&& header_kind(head) == Some(it.kind)
    &&& is_shown(ls, it.kind, header_name(head))
    &&& it.name == header_name(head) || (it.kind == ItemKind::Fn && exists|t: Seq<char>|
        it.name == #[trigger] (t + "::"@) + header_name(head))
    &&& it.signature == signature_from(Seq::empty(), ls, (it.line - 1) as nat)
}

proof fn lemma_items_stand(items: Seq<DocItemV>, ls: Seq<Seq<char>>, target: Option<Seq<char>>, i: nat)
    requires
        i <= ls.len(),
        forall|k: int| 0 <= k < items.len() ==> stands_in(#[trigger] items[k], ls) && items[k].line <= i,
        forall|a: int, b: int| 0 <= a < b < items.len() ==> (#[trigger] items[a]).line < (#[trigger] items[b]).line,
    ensures
        forall|k: int|
            0 <= k < items_from(items, ls, target, i).len() ==> stands_in(
                #[trigger] items_from(items, ls, target, i)[k],
                ls,
            ),
        forall|a: int, b: int|
            0 <= a < b < items_from(items, ls, target, i).len() ==> (#[trigger] items_from(items, ls, target, i)[a]).line
                < (#[trigger] items_from(items, ls, target, i)[b]).line,
    decreases ls.len() - i,
{
    if i < ls.len() {
        if !doctest::is_doc(ls[i as int]) {
            lemma_items_stand(items, ls, impl_after(ls[i as int], target), i + 1);
        } else {
            let j = doctest::doc_end(ls, i);
            doctest::lemma_doc_end(ls, i);
            lemma_item_line(ls, j);
            let k = item_line(ls, j);
            if k < ls.len() {
                let x = item_at(ls, i, j, k, target);
                let next = push_item(items, x);
                if x is Some {
                    let it = x->Some_0;
                    assert(stands_in(it, ls)) by {
                        let head = chars::trim_start(ls[it.line - 1]);
                        if it.kind == ItemKind::Fn && target is Some {
                            assert(it.name == (target->Some_0 + "::"@) + header_name(head));
                        }
                    }
                    assert forall|m: int| 0 <= m < next.len() implies stands_in(#[trigger] next[m], ls) && next[m].line <= k
                        + 1 by {
                        if m < items.len() {
                            assert(next[m] == items[m]);
                        }
                    }
                    assert forall|a: int, b: int| 0 <= a < b < next.len() implies (#[trigger] next[a]).line < (
                    #[trigger] next[b]).line by {
                        assert(next[a] == items[a]);
                        if b < items.len() {
                            assert(next[b] == items[b]);
                        }
                    }
                }
                lemma_items_stand(next, ls, impl_after(ls[k as int], target), k + 1);
            }
        }
    }
}

/// Only public items and `impl` blocks of public types are documented, each with its kind, its
/// name and its signature as they stand on its line, in the order of the source.
pub proof fn documented_items_stand_in_the_source(src: Seq<char>)
    ensures
        forall|k: int| 0 <= k < documented(src).len() ==> stands_in(#[trigger] documented(src)[k], chars::lines(src)),
        forall|a: int, b: int|
            0 <= a < b < documented(src).len() ==> (#[trigger] documented(src)[a]).line < (
            #[trigger] documented(src)[b]).line,
{
    lemma_items_stand(Seq::empty(), chars::lines(src), None, 0);
}

/// The place of a kind on a page.
pub open spec fn kind_rank(kind: ItemKind) -> nat {
    match kind {
        ItemKind::Fn => 0,
        ItemKind::Struct => 1,
        ItemKind::Enum => 2,
        ItemKind::Impl => 3,
        ItemKind::Interface => 4,
        ItemKind::TypeAlias => 5,
    }
}

proof fn lemma_of_kind(items: Seq<DocItemV>, kind: ItemKind)
    ensures
        forall|k: int| 0 <= k < of_kind(items, kind).len() ==> (#[trigger] of_kind(items, kind)[k]).kind == kind,
    decreases items.len(),
{
    reveal(Seq::filter);
    if items.len() > 0 {
        lemma_of_kind(items.drop_last(), kind);
    }
}

proof fn lemma_kind_count(items: Seq<DocItemV>, kind: ItemKind, x: DocItemV)
    ensures
        of_kind(items, kind).to_multiset().count(x) == (if x.kind == kind {
            items.to_multiset().count(x)
        } else {
            0
        }),
    decreases items.len(),
{
    reveal(Seq::filter);
    items.to_multiset_ensures();
    of_kind(items, kind).to_multiset_ensures();
    if items.len() > 0 {
        let rest = items.drop_last();
        let last = items.last();
        lemma_kind_count(rest, kind, x);
        rest.to_multiset_ensures();
        of_kind(rest, kind).to_multiset_ensures();
        assert(items =~= rest.push(last));
    } else {
        assert(items =~= Seq::empty());
        assert(of_kind(items, kind) =~= Seq::empty());
    }
}

/// A page has one section for each item, kind after kind.
pub proof fn pages_are_grouped_by_kind(items: Seq<DocItemV>)
    ensures
        by_kind(items).to_multiset() == items.to_multiset(),
        forall|a: int, b: int|
            0 <= a < b < by_kind(items).len() ==> kind_rank((#[trigger] by_kind(items)[a]).kind) <= kind_rank(
                (#[trigger] by_kind(items)[b]).kind,
            ),
{
    let k0 = of_kind(items, ItemKind::Fn);
    let k1 = of_kind(items, ItemKind::Struct);
    let k2 = of_kind(items, ItemKind::Enum);
    let k3 = of_kind(items, ItemKind::Impl);
    let k4 = of_kind(items, ItemKind::Interface);
    let k5 = of_kind(items, ItemKind::TypeAlias);
    lemma_of_kind(items, ItemKind::Fn);
    lemma_of_kind(items, ItemKind::Struct);
    lemma_of_kind(items, ItemKind::Enum);
    lemma_of_kind(items, ItemKind::Impl);
    lemma_of_kind(items, ItemKind::Interface);
    lemma_of_kind(items, ItemKind::TypeAlias);
    vstd::seq_lib::lemma_multiset_commutative(k0, k1);
    vstd::seq_lib::lemma_multiset_commutative(k0 + k1, k2);
    vstd::seq_lib::lemma_multiset_commutative(k0 + k1 + k2, k3);
    vstd::seq_lib::lemma_multiset_commutative(k0 + k1 + k2 + k3, k4);
    vstd::seq_lib::lemma_multiset_commutative(k0 + k1 + k2 + k3 + k4, k5);
    assert forall|x: DocItemV| by_kind(items).to_multiset().count(x) == items.to_multiset().count(x) by {
        lemma_kind_count(items, ItemKind::Fn, x);
        lemma_kind_count(items, ItemKind::Struct, x);
        lemma_kind_count(items, ItemKind::Enum, x);
        lemma_kind_count(items, ItemKind::Impl, x);
        lemma_kind_count(items, ItemKind::Interface, x);
        lemma_kind_count(items, ItemKind::TypeAlias, x);
    }
    assert(by_kind(items).to_multiset() =~= items.to_multiset());
}

/// A character that needs no escape in the address of a section.
pub open spec fn is_url_safe(c: char) -> bool {
    'a' <= c <= 'z' || '0' <= c <= '9' || c == '-'
}

spec fn is_slug(out: Seq<char>) -> bool {
    &&& forall|k: int| 0 <= k < out.len() ==> is_url_safe(#[trigger] out[k])
    &&& out.len() > 0 ==> out[0] != '-'
    &&& forall|k: int| 0 <= k < out.len() - 1 && #[trigger] out[k] == '-' ==> out[k + 1] != '-'
}

proof fn lemma_slug(out: Seq<char>, s: Seq<char>, i: nat)
    requires
        is_slug(out),
    ensures
        is_slug(slug_from(out, s, i)),
    decreases s.len() - i,
{
    if i < s.len() {
        let c = s[i as int];
        if chars::is_ascii_alnum(c) {
            assert(is_slug(out.push(ascii_lower(c))));
            lemma_slug(out.push(ascii_lower(c)), s, i + 1);
        } else if out.len() > 0 && out.last() != '-' {
            assert(is_slug(out.push('-')));
            lemma_slug(out.push('-'), s, i + 1);
        } else {
            lemma_slug(out, s, i + 1);
        }
    }
}

/// An anchor has only lower-case letters, digits and dashes, and no dash at its ends or beside
/// another dash.
pub proof fn anchors_are_url_safe(s: Seq<char>)
    ensures
        forall|k: int| 0 <= k < slug(s).len() ==> is_url_safe(#[trigger] slug(s)[k]),
        slug(s).len() > 0 ==> slug(s)[0] != '-' && slug(s).last() != '-',
        forall|k: int| 0 <= k < slug(s).len() - 1 && #[trigger] slug(s)[k] == '-' ==> slug(s)[k + 1] != '-',
{
    lemma_slug(Seq::empty(), s, 0);
    let out = slug_from(Seq::empty(), s, 0);
    if out.len() > 0 && out.last() == '-' {
        assert(out[out.len() - 1] == '-');
        assert(out.len() > 1 ==> out[out.len() - 2] != '-');
    }
}

} // verus!
