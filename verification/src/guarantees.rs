//! What holds of every report of the borrow checker.
use vstd::prelude::*;
use crate::analyzer;
use crate::borrowck;
use crate::chars;
use crate::diagnostics;
use crate::elision;
use crate::lexer;
use crate::ordered;
use crate::place;
use crate::positions;
use crate::sigs;
use crate::ast::{Expr, Function, ImplBlock, Item, ItemKind, Method, Param, Program, Span};
use crate::borrowck::{AnalysisV, FilesV, FindingV, SourceFileV, ViewCxV};
use crate::borrows::CxV;
use crate::diagnostics::{Applicability, DiagnosticV, Position, Severity, SourceSpanV};
use crate::elision::ReturnBorrowSourceV;
use crate::messages::RawDiagV;
use crate::oracle::OracleV;
use crate::ordered::OrdKey;
use crate::place::FunctionAnalysisV;

verus! {

// ---------------------------------------------------------------------------
// One report for one conflict.

proof fn lemma_keep_first(acc: Seq<FindingV>, fs: Seq<FindingV>, i: nat)
    requires
        i <= fs.len(),
    ensures
        forall|f: FindingV|
            #[trigger] borrowck::keep_first(acc, fs, i).contains(f) <==> acc.contains(f) || exists|k: int|
                i <= k < fs.len() && #[trigger] fs[k] == f && !borrowck::superseded(fs, f),
    decreases fs.len() - i,
{
    if i < fs.len() {
        let x = fs[i as int];
        let next = if borrowck::superseded(fs, x) {
            acc
        } else {
            acc.push(x)
        };
        lemma_keep_first(next, fs, i + 1);
        assert(borrowck::keep_first(acc, fs, i) == borrowck::keep_first(next, fs, i + 1));
        assert forall|f: FindingV| #[trigger] borrowck::keep_first(acc, fs, i).contains(f) <==> acc.contains(f) || exists|k: int|
            i <= k < fs.len() && #[trigger] fs[k] == f && !borrowck::superseded(fs, f) by {
            assert(next.contains(f) <==> acc.contains(f) || (f == x && !borrowck::superseded(fs, x))) by {
                if acc.contains(f) {
                    let j = choose|j: int| 0 <= j < acc.len() && acc[j] == f;
                    assert(next[j] == f);
                }
                if f == x && !borrowck::superseded(fs, x) {
                    assert(next[acc.len() as int] == f);
                }
            }
            assert(borrowck::keep_first(next, fs, i + 1).contains(f) <==> next.contains(f) || exists|k: int|
                i + 1 <= k < fs.len() && #[trigger] fs[k] == f && !borrowck::superseded(fs, f));
            if f == x {
                assert(fs[i as int] == f);
            }
        }
    }
}

/// Of all that is found, only a read at the very place of a conflict between claims in the
/// same file is left out; every other finding is reported, and nothing else is.
pub proof fn only_superseded_reads_are_dropped(fs: Seq<FindingV>, f: FindingV)
    ensures
        borrowck::deduped(fs).contains(f) <==> fs.contains(f) && !borrowck::superseded(fs, f),
{
    lemma_keep_first(Seq::empty(), fs, 0);
    if fs.contains(f) {
        let k = choose|k: int| 0 <= k < fs.len() && fs[k] == f;
        assert(fs[k] == f);
    }
}

/// A conflict between claims is always reported.
pub proof fn claims_are_always_reported(fs: Seq<FindingV>, f: FindingV)
    requires
        fs.contains(f),
        borrowck::is_claim_code(f.diag.code),
    ensures
        borrowck::deduped(fs).contains(f),
{
    reveal_strlit("E0370");
    reveal_strlit("E0380");
    reveal_strlit("E0381");
    reveal_strlit("E0382");
    reveal_strlit("E0374");
    reveal_strlit("E0383");
    assert("E0370"@[3] == '7' && "E0370"@[4] == '0');
    assert("E0380"@[4] == '0');
    assert("E0381"@[4] == '1');
    assert("E0382"@[4] == '2');
    assert("E0374"@[4] == '4');
    assert("E0383"@[4] == '3');
    only_superseded_reads_are_dropped(fs, f);
}

// ---------------------------------------------------------------------------
// Reports and sources.

/// What is reported, and in which order, does not depend on the sources: they only say where
/// the reports are shown. Every report is an error.
pub proof fn reports_do_not_depend_on_sources(
    prog: Program,
    a_file: Seq<char>,
    a_src: Seq<char>,
    a_files: FilesV,
    b_file: Seq<char>,
    b_src: Seq<char>,
    b_files: FilesV,
)
    ensures
        ({
            let a = borrowck::problems(prog, a_file, a_src, a_files);
            let b = borrowck::problems(prog, b_file, b_src, b_files);
            &&& a.len() == b.len()
            &&& forall|i: int|
                0 <= i < a.len() ==> (#[trigger] a[i]).code == b[i].code && a[i].message == b[i].message && a[i].severity
                    == Severity::Error
        }),
{
}

/// A program all of whose items come from the entry file is reported as a single file.
pub proof fn one_file_needs_no_others(prog: Program, file: Seq<char>, src: Seq<char>, files: FilesV)
    requires
        forall|k: int| 0 <= k < borrowck::analysis_of(prog).1.len() ==> (#[trigger] borrowck::analysis_of(prog).1[k]).origin is None,
    ensures
        borrowck::problems(prog, file, src, files) == borrowck::problems(prog, file, src, Seq::empty()),
{
    assert(borrowck::problems(prog, file, src, files) =~= borrowck::problems(prog, file, src, Seq::empty()));
}

// ---------------------------------------------------------------------------
// Where reports are shown.

/// The position stands in the text at the byte offset: its line is one more than the line feeds
/// before the offset, and its column, where the offset is that of character `c`, is one more
/// than the characters between the last of them and `c`.
pub open spec fn stands_at(p: Position, text: Seq<char>, byte: u32) -> bool {
    let b = vstd::utf8::encode_utf8(text);
    &&& p.byte == byte
    &&& byte <= b.len() ==> p.line == 1 + positions::byte_feeds(b, 0, byte as int)
    &&& forall|c: nat|
        c <= text.len() && #[trigger] lexer::byte_pos(text, c) == byte ==> p.line == 1 + chars::feeds(text, 0, c as int) && p.col
            == 1 + c - chars::after_last(text, '\n', c)
}

/// The span is that of the bytes of the text, in the file.
pub open spec fn spans(sp: SourceSpanV, span: Span, file: Seq<char>, text: Seq<char>) -> bool {
    sp.file == file && stands_at(sp.start, text, span.start) && stands_at(sp.end, text, span.end)
}

/// The diagnostic says what was found, at its places in the text of the file.
pub open spec fn tells(d: DiagnosticV, r: RawDiagV, file: Seq<char>, text: Seq<char>) -> bool {
    &&& d.severity == Severity::Error
    &&& d.code == r.code
    &&& d.message == r.message
    &&& spans(d.primary, r.primary, file, text)
    &&& match r.label {
        Some((span, message)) => d.labels.len() == 1 && d.labels[0].message == message && spans(
            d.labels[0].span,
            span,
            file,
            text,
        ),
        None => d.labels.len() == 0,
    }
    &&& match r.suggestion {
        Some((span, replacement, description)) => d.suggestions.len() == 1 && d.suggestions[0].replacement == replacement
            && d.suggestions[0].description == description && d.suggestions[0].applicability
            == Applicability::MaybeIncorrect && spans(d.suggestions[0].span, span, file, text),
        None => d.suggestions.len() == 0,
    }
    &&& d.notes.len() == 0
}

proof fn lemma_stands_at(text: Seq<char>, byte: u32)
    requires
        vstd::utf8::encode_utf8(text).len() < u32::MAX,
    ensures
        ({
            let b = vstd::utf8::encode_utf8(text);
            stands_at(diagnostics::position_in(diagnostics::line_starts(b), byte, b), text, byte)
        }),
{
    let b = vstd::utf8::encode_utf8(text);
    let p = diagnostics::position_in(diagnostics::line_starts(b), byte, b);
    if byte <= b.len() {
        positions::lines_count_feeds(b, byte);
        positions::lemma_few_feeds(b, 0, byte as int);
    }
    assert forall|c: nat| c <= text.len() && #[trigger] lexer::byte_pos(text, c) == byte implies p.line == 1 + chars::feeds(
        text,
        0,
        c as int,
    ) && p.col == 1 + c - chars::after_last(text, '\n', c) by {
        positions::positions_count_lines_and_characters(text, c);
        positions::lemma_few_characters(text, c);
    }
}

proof fn lemma_tells(r: RawDiagV, file: Seq<char>, text: Seq<char>)
    requires
        vstd::utf8::encode_utf8(text).len() < u32::MAX,
    ensures
        tells(borrowck::located(r, file, text), r, file, text),
{
    lemma_stands_at(text, r.primary.start);
    lemma_stands_at(text, r.primary.end);
    if let Some((span, _)) = r.label {
        lemma_stands_at(text, span.start);
        lemma_stands_at(text, span.end);
    }
    if let Some((span, _, _)) = r.suggestion {
        lemma_stands_at(text, span.start);
        lemma_stands_at(text, span.end);
    }
}

proof fn lemma_file_at(files: FilesV, j: int)
    requires
        ordered::ord_sorted::<String, SourceFileV>(files),
        0 <= j < files.len(),
    ensures
        ordered::ord_get::<String, SourceFileV>(files, files[j].0) == Some(files[j].1),
{
    ordered::lemma_ord_has::<String, SourceFileV>(files, files[j].0);
    let p = ordered::ord_pos::<String, SourceFileV>(files, files[j].0, 0) as int;
    <String as OrdKey>::lt_irreflexive(files[j].0);
    if p < j {
        assert(<String as OrdKey>::lt(files[p].0, files[j].0));
    } else if j < p {
        assert(<String as OrdKey>::lt(files[j].0, files[p].0));
    }
}

/// What is found in an item of a known file is reported in that file, at the lines and columns
/// of its own text.
pub proof fn findings_are_shown_in_their_files(
    prog: Program,
    file: Seq<char>,
    src: Seq<char>,
    files: FilesV,
    k: int,
    j: int,
)
    requires
        ordered::ord_sorted::<String, SourceFileV>(files),
        0 <= k < borrowck::analysis_of(prog).1.len(),
        0 <= j < files.len(),
        borrowck::analysis_of(prog).1[k].origin == Some(files[j].0),
        vstd::utf8::encode_utf8(files[j].1.text).len() < u32::MAX,
    ensures
        borrowck::problems(prog, file, src, files).len() == borrowck::analysis_of(prog).1.len(),
        tells(
            borrowck::problems(prog, file, src, files)[k],
            borrowck::analysis_of(prog).1[k].diag,
            files[j].1.path,
            files[j].1.text,
        ),
{
    lemma_file_at(files, j);
    lemma_tells(borrowck::analysis_of(prog).1[k].diag, files[j].1.path, files[j].1.text);
}

/// Any other finding is reported in the entry file, at the lines and columns of its text.
pub proof fn other_findings_are_shown_in_the_entry_file(
    prog: Program,
    file: Seq<char>,
    src: Seq<char>,
    files: FilesV,
    k: int,
)
    requires
        0 <= k < borrowck::analysis_of(prog).1.len(),
        borrowck::analysis_of(prog).1[k].origin is None || forall|j: int|
            0 <= j < files.len() ==> Some((#[trigger] files[j]).0) != borrowck::analysis_of(prog).1[k].origin,
        vstd::utf8::encode_utf8(src).len() < u32::MAX,
    ensures
        borrowck::problems(prog, file, src, files).len() == borrowck::analysis_of(prog).1.len(),
        tells(borrowck::problems(prog, file, src, files)[k], borrowck::analysis_of(prog).1[k].diag, file, src),
{
    if let Some(o) = borrowck::analysis_of(prog).1[k].origin {
        assert(ordered::ord_get::<String, SourceFileV>(files, o) is None);
    }
    lemma_tells(borrowck::analysis_of(prog).1[k].diag, file, src);
}

// ---------------------------------------------------------------------------
// Every function is analysed.

proof fn lemma_methods_are_analysed(
    acc: (AnalysisV, Seq<FindingV>),
    origin: Option<Seq<char>>,
    cx: CxV,
    b: ImplBlock,
    j: nat,
    name: Seq<char>,
)
    requires
        ordered::ord_sorted::<String, FunctionAnalysisV>(acc.0),
    ensures
        ordered::ord_sorted::<String, FunctionAnalysisV>(borrowck::own_methods(acc, origin, cx, b, j).0),
        ordered::ord_get::<String, FunctionAnalysisV>(acc.0, name) is Some ==> ordered::ord_get::<String, FunctionAnalysisV>(
            borrowck::own_methods(acc, origin, cx, b, j).0,
            name,
        ) is Some,
        (exists|k: int|
            j <= k < b.methods@.len() && sigs::method_key(b.target.name@, (#[trigger] b.methods@[k]).name.name@) == name)
            ==> ordered::ord_get::<String, FunctionAnalysisV>(borrowck::own_methods(acc, origin, cx, b, j).0, name) is Some,
    decreases b.methods@.len() - j,
{
    if j < b.methods@.len() {
        let m = b.methods@[j as int];
        let key = sigs::method_key(b.target.name@, m.name.name@);
        let (w, f) = analyzer::method_analysis(cx, key, b.target.name@, m.receiver, m.params@, m.body);
        ordered::lemma_ord_put::<String, FunctionAnalysisV>(acc.0, key, f, name);
        lemma_methods_are_analysed(
            (ordered::ord_put::<String, FunctionAnalysisV>(acc.0, key, f), borrowck::from_file(acc.1, origin, w.diags)),
            origin,
            cx,
            b,
            j + 1,
            name,
        );
    }
}

/// The item declares a function or a method that is analysed under the name.
pub open spec fn declares(item: Item, name: Seq<char>) -> bool {
    match item.kind {
        ItemKind::Function(f) => f.name.name@ == name,
        ItemKind::Impl(b) => exists|k: int|
            0 <= k < b.methods@.len() && sigs::method_key(b.target.name@, (#[trigger] b.methods@[k]).name.name@) == name,
        _ => false,
    }
}

proof fn lemma_items_are_analysed(
    acc: (AnalysisV, Seq<FindingV>),
    cx: CxV,
    items: Seq<Item>,
    i: nat,
    name: Seq<char>,
)
    requires
        ordered::ord_sorted::<String, FunctionAnalysisV>(acc.0),
    ensures
        ordered::ord_sorted::<String, FunctionAnalysisV>(borrowck::own_items(acc, cx, items, i).0),
        ordered::ord_get::<String, FunctionAnalysisV>(acc.0, name) is Some ==> ordered::ord_get::<String, FunctionAnalysisV>(
            borrowck::own_items(acc, cx, items, i).0,
            name,
        ) is Some,
        (exists|k: int| i <= k < items.len() && declares(#[trigger] items[k], name)) ==> ordered::ord_get::<
            String,
            FunctionAnalysisV,
        >(borrowck::own_items(acc, cx, items, i).0, name) is Some,
    decreases items.len() - i,
{
    if i < items.len() {
        let item = items[i as int];
        match item.kind {
            ItemKind::Function(f) => {
                let (w, a) = analyzer::function_analysis(cx, f.name.name@, f.params@, f.body);
                ordered::lemma_ord_put::<String, FunctionAnalysisV>(acc.0, f.name.name@, a, name);
            },
            ItemKind::Impl(b) => {
                lemma_methods_are_analysed(acc, sigs::opt_name(item.origin_file), cx, b, 0, name);
            },
            _ => {},
        }
        lemma_items_are_analysed(borrowck::own_item(acc, cx, item), cx, items, i + 1, name);
    }
}

/// Every function and every method of a program is analysed, and the analysis lists them in
/// the order of their names.
pub proof fn every_function_is_analysed(prog: Program, name: Seq<char>)
    ensures
        ordered::ord_sorted::<String, FunctionAnalysisV>(borrowck::analysis_of(prog).0),
        (exists|k: int| 0 <= k < prog.items@.len() && declares(#[trigger] prog.items@[k], name)) ==> ordered::ord_get::<
            String,
            FunctionAnalysisV,
        >(borrowck::analysis_of(prog).0, name) is Some,
{
    let cx = borrowck::known_cx(prog);
    let found = borrowck::ambiguous_items(Seq::empty(), prog.items@, cx.sigs, cx.oracle, 0);
    let found = borrowck::view_items(found, borrowck::view_cx(prog, cx), prog.items@, 0);
    lemma_items_are_analysed((Seq::empty(), found), cx, prog.items@, 0, name);
}

/// What the item's own functions report, with its file.
pub open spec fn item_reports(cx: CxV, item: Item, d: RawDiagV) -> bool {
    match item.kind {
        ItemKind::Function(f) => analyzer::function_analysis(cx, f.name.name@, f.params@, f.body).0.diags.contains(d),
        ItemKind::Impl(b) => exists|k: int|
            0 <= k < b.methods@.len() && #[trigger] method_reports(cx, b, b.methods@[k], d),
        _ => false,
    }
}

pub open spec fn method_reports(cx: CxV, b: ImplBlock, m: Method, d: RawDiagV) -> bool {
    analyzer::method_analysis(
        cx,
        sigs::method_key(b.target.name@, m.name.name@),
        b.target.name@,
        m.receiver,
        m.params@,
        m.body,
    ).0.diags.contains(d)
}

proof fn lemma_from_file(acc: Seq<FindingV>, origin: Option<Seq<char>>, ds: Seq<RawDiagV>, f: FindingV)
    ensures
        acc.contains(f) ==> borrowck::from_file(acc, origin, ds).contains(f),
        f.origin == origin && ds.contains(f.diag) ==> borrowck::from_file(acc, origin, ds).contains(f),
{
    let r = borrowck::from_file(acc, origin, ds);
    if acc.contains(f) {
        let k = choose|k: int| 0 <= k < acc.len() && acc[k] == f;
        assert(r[k] == f);
    }
    if f.origin == origin && ds.contains(f.diag) {
        let k = choose|k: int| 0 <= k < ds.len() && ds[k] == f.diag;
        assert(r[acc.len() + k] == f);
    }
}

proof fn lemma_methods_report(
    acc: (AnalysisV, Seq<FindingV>),
    origin: Option<Seq<char>>,
    cx: CxV,
    b: ImplBlock,
    j: nat,
    f: FindingV,
)
    ensures
        acc.1.contains(f) ==> borrowck::own_methods(acc, origin, cx, b, j).1.contains(f),
        f.origin == origin && (exists|k: int|
            j <= k < b.methods@.len() && #[trigger] method_reports(cx, b, b.methods@[k], f.diag)) ==> borrowck::own_methods(
            acc,
            origin,
            cx,
            b,
            j,
        ).1.contains(f),
    decreases b.methods@.len() - j,
{
    if j < b.methods@.len() {
        let m = b.methods@[j as int];
        let key = sigs::method_key(b.target.name@, m.name.name@);
        let (w, a) = analyzer::method_analysis(cx, key, b.target.name@, m.receiver, m.params@, m.body);
        lemma_from_file(acc.1, origin, w.diags, f);
        lemma_methods_report(
            (ordered::ord_put::<String, FunctionAnalysisV>(acc.0, key, a), borrowck::from_file(acc.1, origin, w.diags)),
            origin,
            cx,
            b,
            j + 1,
            f,
        );
    }
}

proof fn lemma_items_report(acc: (AnalysisV, Seq<FindingV>), cx: CxV, items: Seq<Item>, i: nat, f: FindingV)
    ensures
        acc.1.contains(f) ==> borrowck::own_items(acc, cx, items, i).1.contains(f),
        (exists|k: int|
            i <= k < items.len() && f.origin == sigs::opt_name((#[trigger] items[k]).origin_file) && item_reports(
                cx,
                items[k],
                f.diag,
            )) ==> borrowck::own_items(acc, cx, items, i).1.contains(f),
    decreases items.len() - i,
{
    if i < items.len() {
        let item = items[i as int];
        match item.kind {
            ItemKind::Function(g) => {
                let (w, a) = analyzer::function_analysis(cx, g.name.name@, g.params@, g.body);
                lemma_from_file(acc.1, sigs::opt_name(item.origin_file), w.diags, f);
            },
            ItemKind::Impl(b) => {
                lemma_methods_report(acc, sigs::opt_name(item.origin_file), cx, b, 0, f);
            },
            _ => {},
        }
        lemma_items_report(borrowck::own_item(acc, cx, item), cx, items, i + 1, f);
    }
}

/// What the analysis of any function or method reports is reported of the program, unless it
/// is a read at the place of a conflict that is reported instead.
pub proof fn reports_of_functions_are_reported(prog: Program, k: int, d: RawDiagV)
    requires
        0 <= k < prog.items@.len(),
        item_reports(borrowck::known_cx(prog), prog.items@[k], d),
    ensures
        ({
            let f = FindingV { origin: sigs::opt_name(prog.items@[k].origin_file), diag: d };
            borrowck::analysis_of(prog).1.contains(f) || borrowck::superseded(borrowck::findings_of(prog).1, f)
        }),
{
    let f = FindingV { origin: sigs::opt_name(prog.items@[k].origin_file), diag: d };
    let cx = borrowck::known_cx(prog);
    let found = borrowck::ambiguous_items(Seq::empty(), prog.items@, cx.sigs, cx.oracle, 0);
    let found = borrowck::view_items(found, borrowck::view_cx(prog, cx), prog.items@, 0);
    let all = borrowck::own_items((Seq::empty(), found), cx, prog.items@, 0).1;
    lemma_items_report((Seq::empty(), found), cx, prog.items@, 0, f);
    assert(all.contains(f));
    only_superseded_reads_are_dropped(all, f);
}

/// What the view rules report in the item's functions.
pub open spec fn item_view_reports(vc: ViewCxV, item: Item, d: RawDiagV) -> bool {
    match item.kind {
        ItemKind::Function(f) => !f.is_foreign && !f.is_declaration && borrowck::fn_view_diags(vc, f).contains(d),
        ItemKind::Impl(b) => exists|k: int|
            0 <= k < b.methods@.len() && #[trigger] method_view_reports(vc, b, b.methods@[k], d),
        _ => false,
    }
}

pub open spec fn method_view_reports(vc: ViewCxV, b: ImplBlock, m: Method, d: RawDiagV) -> bool {
    !m.is_declaration && borrowck::method_view_diags(vc, b, m).contains(d)
}

proof fn lemma_view_methods_report(
    acc: Seq<FindingV>,
    origin: Option<Seq<char>>,
    vc: ViewCxV,
    b: ImplBlock,
    j: nat,
    f: FindingV,
)
    ensures
        acc.contains(f) ==> borrowck::view_methods(acc, origin, vc, b, j).contains(f),
        f.origin == origin && (exists|k: int|
            j <= k < b.methods@.len() && #[trigger] method_view_reports(vc, b, b.methods@[k], f.diag)) ==> borrowck::view_methods(
            acc,
            origin,
            vc,
            b,
            j,
        ).contains(f),
    decreases b.methods@.len() - j,
{
    if j < b.methods@.len() {
        let m = b.methods@[j as int];
        let next = if m.is_declaration {
            acc
        } else {
            borrowck::from_file(acc, origin, borrowck::method_view_diags(vc, b, m))
        };
        lemma_from_file(acc, origin, borrowck::method_view_diags(vc, b, m), f);
        lemma_view_methods_report(next, origin, vc, b, j + 1, f);
    }
}

proof fn lemma_view_items_report(acc: Seq<FindingV>, vc: ViewCxV, items: Seq<Item>, i: nat, f: FindingV)
    ensures
        acc.contains(f) ==> borrowck::view_items(acc, vc, items, i).contains(f),
        (exists|k: int|
            i <= k < items.len() && f.origin == sigs::opt_name((#[trigger] items[k]).origin_file) && item_view_reports(
                vc,
                items[k],
                f.diag,
            )) ==> borrowck::view_items(acc, vc, items, i).contains(f),
    decreases items.len() - i,
{
    if i < items.len() {
        let item = items[i as int];
        match item.kind {
            ItemKind::Function(g) => {
                lemma_from_file(acc, sigs::opt_name(item.origin_file), borrowck::fn_view_diags(vc, g), f);
            },
            ItemKind::Impl(b) => {
                lemma_view_methods_report(acc, sigs::opt_name(item.origin_file), vc, b, 0, f);
            },
            _ => {},
        }
        lemma_view_items_report(borrowck::view_item(acc, vc, item), vc, items, i + 1, f);
    }
}

/// What the view rules report in any function or method is reported of the program, unless it
/// is a read at the place of a conflict that is reported instead.
pub proof fn view_reports_are_reported(prog: Program, k: int, d: RawDiagV)
    requires
        0 <= k < prog.items@.len(),
        item_view_reports(borrowck::view_cx(prog, borrowck::known_cx(prog)), prog.items@[k], d),
    ensures
        ({
            let f = FindingV { origin: sigs::opt_name(prog.items@[k].origin_file), diag: d };
            borrowck::analysis_of(prog).1.contains(f) || borrowck::superseded(borrowck::findings_of(prog).1, f)
        }),
{
    let f = FindingV { origin: sigs::opt_name(prog.items@[k].origin_file), diag: d };
    let cx = borrowck::known_cx(prog);
    let first = borrowck::ambiguous_items(Seq::empty(), prog.items@, cx.sigs, cx.oracle, 0);
    let found = borrowck::view_items(first, borrowck::view_cx(prog, cx), prog.items@, 0);
    let all = borrowck::own_items((Seq::empty(), found), cx, prog.items@, 0).1;
    lemma_view_items_report(first, borrowck::view_cx(prog, cx), prog.items@, 0, f);
    lemma_items_report((Seq::empty(), found), cx, prog.items@, 0, f);
    only_superseded_reads_are_dropped(all, f);
}

// ---------------------------------------------------------------------------
// What results borrow from.

/// Ascending indices of parameters.
pub open spec fn are_params(is: Seq<u32>, n: nat) -> bool {
    &&& forall|a: int| 0 <= a < is.len() ==> (#[trigger] is[a]) < n
    &&& forall|a: int, b: int| 0 <= a < b < is.len() ==> #[trigger] is[a] < #[trigger] is[b]
}

proof fn lemma_push_param(acc: Seq<u32>, i: nat)
    requires
        are_params(acc, i),
        i < u32::MAX,
    ensures
        are_params(acc.push(i as u32), i + 1),
{
    let next = acc.push(i as u32);
    assert forall|a: int, b: int| 0 <= a < b < next.len() implies #[trigger] next[a] < #[trigger] next[b] by {
        assert(next[a] == acc[a]);
        if b < acc.len() {
            assert(next[b] == acc[b]);
        }
    }
    assert forall|a: int| 0 <= a < next.len() implies (#[trigger] next[a]) < i + 1 by {
        if a < acc.len() {
            assert(next[a] == acc[a]);
        }
    }
}

proof fn lemma_returned_params(params: Seq<Param>, rs: Seq<Option<&Expr>>, acc: Seq<u32>, i: nat)
    requires
        i <= params.len() < u32::MAX,
        are_params(acc, i),
    ensures
        are_params(elision::returned_params(params, rs, acc, i), params.len()),
        elision::returned_params(params, rs, acc, i).len() >= acc.len(),
        (exists|k: int|
            i <= k < params.len() && elision::first_of_name(params, k) && elision::is_returned(rs, (#[trigger] params[k]).name.name@))
            ==> elision::returned_params(params, rs, acc, i).len() > acc.len(),
    decreases params.len() - i,
{
    if i < params.len() {
        lemma_push_param(acc, i);
        if elision::first_of_name(params, i as int) && elision::is_returned(rs, params[i as int].name.name@) {
            lemma_returned_params(params, rs, acc.push(i as u32), i + 1);
        } else {
            lemma_returned_params(params, rs, acc, i + 1);
        }
    }
}

proof fn lemma_first_of_name(params: Seq<Param>, k: int) -> (j: int)
    requires
        0 <= k < params.len(),
    ensures
        0 <= j <= k,
        elision::first_of_name(params, j),
        params[j].name.name@ == params[k].name.name@,
    decreases k,
{
    if elision::first_of_name(params, k) {
        k
    } else {
        let h = choose|h: int| 0 <= h < k && (#[trigger] params[h]).name.name@ == params[k].name.name@;
        lemma_first_of_name(params, h)
    }
}

proof fn lemma_view_params(params: Seq<Param>, o: OracleV, acc: Seq<u32>, i: nat)
    requires
        i <= params.len() < u32::MAX,
        are_params(acc, i),
    ensures
        are_params(elision::view_params(params, o, acc, i), params.len()),
    decreases params.len() - i,
{
    if i < params.len() {
        lemma_push_param(acc, i);
        if elision::views_through(o, params[i as int]) {
            lemma_view_params(params, o, acc.push(i as u32), i + 1);
        } else {
            lemma_view_params(params, o, acc, i + 1);
        }
    }
}

/// A function's result borrows from its own parameters only: from one of them, or from
/// some of them in ascending order, never from a receiver.
pub proof fn results_borrow_from_parameters(f: Function, o: OracleV)
    requires
        f.params@.len() < u32::MAX,
    ensures
        match elision::fn_elision(f, o) {
            Some((ReturnBorrowSourceV::Param(i), _)) => i < f.params@.len(),
            Some((ReturnBorrowSourceV::MultiParam(is), _)) => is.len() > 0 && are_params(is, f.params@.len()),
            Some((ReturnBorrowSourceV::SelfReceiver, _)) => false,
            None => true,
        },
{
    let rs = elision::returns_of(f.body);
    lemma_returned_params(f.params@, rs, Seq::empty(), 0);
    lemma_view_params(f.params@, o, Seq::empty(), 0);
    if elision::multi_source(f, o, true) is Some || elision::multi_source(f, o, false) is Some {
        assert(elision::returns_a_param(rs[0], f.params@));
        let n = place::root_of(*rs[0]->Some_0)->Some_0;
        let k = choose|k: int| 0 <= k < f.params@.len() && (#[trigger] f.params@[k]).name.name@ == n;
        let j = lemma_first_of_name(f.params@, k);
        assert(elision::returns_root(rs[0], f.params@[j].name.name@));
    }
}

} // verus!
