//! The borrow checker: analyses a program and reports what breaks its ownership rules.
use vstd::prelude::*;
use vstd::string::*;
use crate::addr;
use crate::analyzer;
use crate::ast;
use crate::captures;
use crate::diagnostics;
use crate::elision;
use crate::flow;
use crate::infer;
use crate::messages;
use crate::oracle;
use crate::ordered;
use crate::place;
use crate::rounds;
use crate::sigs;
use crate::viewwalk;
use crate::walks;
pub use crate::addr::fns_with_address_taken;
use crate::analyzer::{analyze_function, analyze_method};
use crate::ast::{Block, Expr, Function, ImplBlock, Item, ItemKind, Method, Param, Program, Span, Type, TypeKind, TypeV, has_keeps};
use crate::borrows::{Cx, CxV};
use crate::captures::receiver_capturing_methods;
use crate::diagnostics::{Applicability, DiagCode, Diagnostic, DiagnosticV, Label, LabelV, LineMap, Severity, Suggestion, SuggestionV};
pub use crate::elision::{BorrowFlavor, ReturnBorrowSource};
use crate::elision::ReturnBorrowSourceV;
use crate::flow::has_bit;
use crate::rounds::compute_receiver_flows;
use crate::messages::{RawDiag, RawDiagV, report_ambiguous_return};
pub use crate::oracle::CopyOracle;
use crate::oracle::OracleV;
use crate::ordered::OrdMap;
pub use crate::place::{FunctionAnalysis, Place, PlaceOverlap, PlaceState, PointSnapshot, ProgramAnalysis, Projection};
use crate::place::{FunctionAnalysisV, expr_root_ident};
pub use crate::sigs::{
    method_return_borrow_source, method_return_borrow_source_with_flavor, return_borrow_source,
    return_borrow_source_with_flavor,
};
use crate::sigs::{FnEntry, FnEntryV, SigTable, SigTableV, key_of};
use crate::table::{NameMap, NameSet};
use crate::text::str_eq;
use crate::views::{MethodSet, ViewRules, ViewSite, ViewSiteV};
use crate::walks::collect_exits_block;

verus! {

/// A report, with the file it comes from if that is not the entry file.
pub struct Finding {
    pub origin: Option<String>,
    pub diag: RawDiag,
}

pub struct FindingV {
    pub origin: Option<Seq<char>>,
    pub diag: RawDiagV,
}

impl View for Finding {
    type V = FindingV;

    open spec fn view(&self) -> FindingV {
        FindingV { origin: sigs::opt_name(self.origin), diag: self.diag@ }
    }
}

impl DeepView for Finding {
    type V = FindingV;

    open spec fn deep_view(&self) -> FindingV {
        self@
    }
}

fn clone_origin(o: &Option<String>) -> (r: Option<String>)
    ensures
        sigs::opt_name(r) == sigs::opt_name(*o),
{
    match o {
        Some(s) => Some(s.clone()),
        None => None,
    }
}

fn push_finding(out: &mut Vec<Finding>, origin: &Option<String>, diag: RawDiag)
    ensures
        final(out).deep_view() == old(out).deep_view().push(FindingV { origin: sigs::opt_name(*origin), diag: diag@ }),
{
    let ghost before = out.deep_view();
    let f = Finding { origin: clone_origin(origin), diag };
    let ghost fv = f@;
    out.push(f);
    assert(out.deep_view() =~= before.push(fv));
}

pub open spec fn from_file(acc: Seq<FindingV>, origin: Option<Seq<char>>, ds: Seq<RawDiagV>) -> Seq<FindingV> {
    acc + Seq::new(ds.len(), |i: int| FindingV { origin, diag: ds[i] })
}

fn add_findings(out: &mut Vec<Finding>, origin: &Option<String>, ds: Vec<RawDiag>)
    ensures
        final(out).deep_view() == from_file(old(out).deep_view(), sigs::opt_name(*origin), ds.deep_view()),
{
    let ghost start = out.deep_view();
    let ghost dv = ds.deep_view();
    let ghost all = from_file(start, sigs::opt_name(*origin), dv);
    let mut ds = ds;
    let n: usize = ds.len();
    let mut i: usize = 0;
    while i < n
        invariant
            i <= n,
            n == dv.len(),
            ds@.len() == n - i,
            ds.deep_view() == dv.skip(i as int),
            out.deep_view() == all.take(start.len() + i),
            all == from_file(start, sigs::opt_name(*origin), dv),
        decreases n - i,
    {
        assert(ds.deep_view()[0] == ds@[0]@);
        assert(dv.skip(i as int)[0] == dv[i as int]);
        let ghost rest = ds;
        let d = ds.remove(0);
        assert(d@ == dv[i as int]);
        assert forall|k: int| 0 <= k < ds@.len() implies #[trigger] ds.deep_view()[k] == dv.skip(i as int + 1)[k] by {
            assert(ds@[k] == rest@[k + 1]);
            assert(rest.deep_view()[k + 1] == rest@[k + 1]@);
        }
        assert(ds.deep_view() =~= dv.skip(i as int + 1));
        push_finding(out, origin, d);
        assert(out.deep_view() =~= all.take(start.len() + i + 1));
        i += 1;
    }
    assert(all.take((start.len() + n) as int) =~= all);
}

// ---------------------------------------------------------------------------
// Results that may borrow from several parameters.

/// Every parameter is lent and of a type that is moved.
pub open spec fn all_lent(ps: Seq<Param>, o: OracleV) -> bool {
    forall|i: int| 0 <= i < ps.len() ==> !(#[trigger] ps[i]).move_ && o.non_copy(ps[i].ty@)
}

pub open spec fn is_param(ps: Seq<Param>, n: Seq<char>) -> bool {
    exists|i: int| 0 <= i < ps.len() && (#[trigger] ps[i]).name.name@ == n
}

pub open spec fn roots_in_param(ps: Seq<Param>, e: Option<&Expr>) -> bool {
    match e {
        Some(x) => match place::root_of(*x) {
            Some(n) => is_param(ps, n),
            None => false,
        },
        None => false,
    }
}

/// Some `return` gives back a place in a parameter.
pub open spec fn returns_param(ps: Seq<Param>, b: Block) -> bool {
    exists|k: int|
        0 <= k < walks::exits_block(Seq::empty(), &b).len() && roots_in_param(ps, #[trigger] walks::exits_block(Seq::empty(), &b)[k])
}

pub open spec fn moves_ret(ret: Option<Type>, o: OracleV) -> bool {
    match ret {
        Some(t) => o.non_copy(t@),
        None => false,
    }
}

/// The result borrows from one of several parameters and nothing tells which.
pub open spec fn ambiguous(ps: Seq<Param>, ret: Option<Type>, b: Block, entry: Option<FnEntryV>, o: OracleV) -> bool {
    &&& ps.len() >= 2
    &&& all_lent(ps, o)
    &&& moves_ret(ret, o)
    &&& match entry {
        Some(e) => e.return_borrow is None,
        None => false,
    }
    &&& returns_param(ps, b)
}

fn is_param_name(ps: &Vec<Param>, n: &str) -> (r: bool)
    ensures
        r == is_param(ps@, n@),
{
    let mut i: usize = 0;
    while i < ps.len()
        invariant
            i <= ps@.len(),
            forall|j: int| 0 <= j < i ==> (#[trigger] ps@[j]).name.name@ != n@,
        decreases ps@.len() - i,
    {
        if str_eq(ps[i].name.name.as_str(), n) {
            return true;
        }
        i += 1;
    }
    false
}

fn any_return_rooted_at_param(b: &Block, ps: &Vec<Param>) -> (r: bool)
    ensures
        r == returns_param(ps@, *b),
{
    let mut exits: Vec<Option<&Expr>> = Vec::new();
    collect_exits_block(&mut exits, b);
    let ghost all = walks::exits_block(Seq::empty(), b);
    let mut k: usize = 0;
    while k < exits.len()
        invariant
            k <= exits@.len(),
            all == exits@,
            all == walks::exits_block(Seq::empty(), b),
            forall|j: int| 0 <= j < k ==> !roots_in_param(ps@, #[trigger] all[j]),
        decreases exits@.len() - k,
    {
        if let Some(e) = exits[k] {
            if let Some(n) = expr_root_ident(e) {
                if is_param_name(ps, n) {
                    assert(roots_in_param(ps@, all[k as int]));
                    return true;
                }
            }
        }
        k += 1;
    }
    false
}

fn all_params_lent(ps: &Vec<Param>, o: &CopyOracle) -> (r: bool)
    ensures
        r == all_lent(ps@, o@),
{
    let mut i: usize = 0;
    while i < ps.len()
        invariant
            i <= ps@.len(),
            forall|j: int| 0 <= j < i ==> !(#[trigger] ps@[j]).move_ && o@.non_copy(ps@[j].ty@),
        decreases ps@.len() - i,
    {
        if ps[i].move_ || !o.definitely_non_copy(&ps[i].ty) {
            return false;
        }
        i += 1;
    }
    true
}

fn is_ambiguous(ps: &Vec<Param>, ret: &Option<Type>, b: &Block, entry: Option<&FnEntry>, o: &CopyOracle) -> (r: bool)
    ensures
        r == ambiguous(
            ps@,
            *ret,
            *b,
            match entry {
                Some(e) => Some(e@),
                None => None,
            },
            o@,
        ),
{
    if ps.len() < 2 || !all_params_lent(ps, o) {
        return false;
    }
    let moved = match ret {
        Some(t) => o.definitely_non_copy(t),
        None => false,
    };
    let open = match entry {
        Some(e) => e.return_borrow.is_none(),
        None => false,
    };
    moved && open && any_return_rooted_at_param(b, ps)
}

pub open spec fn ambiguous_methods(
    acc: Seq<FindingV>,
    origin: Option<Seq<char>>,
    b: ImplBlock,
    sigs: SigTableV,
    o: OracleV,
    j: nat,
) -> Seq<FindingV>
    decreases b.methods@.len() - j,
{
    if j >= b.methods@.len() {
        acc
    } else {
        let m = b.methods@[j as int];
        let key = sigs::method_key(b.target.name@, m.name.name@);
        ambiguous_methods(
            if ambiguous(m.params@, m.return_type, m.body, sigs::look(sigs.methods, key), o) {
                acc.push(FindingV { origin, diag: messages::ambiguous_return(key, m.name.span) })
            } else {
                acc
            },
            origin,
            b,
            sigs,
            o,
            j + 1,
        )
    }
}

pub open spec fn ambiguous_item(acc: Seq<FindingV>, item: Item, sigs: SigTableV, o: OracleV) -> Seq<FindingV> {
    match item.kind {
        ItemKind::Function(f) => if ambiguous(f.params@, f.return_type, f.body, sigs::look(sigs.fns, f.name.name@), o) {
            acc.push(
                FindingV { origin: sigs::opt_name(item.origin_file), diag: messages::ambiguous_return(f.name.name@, f.name.span) },
            )
        } else {
            acc
        },
        ItemKind::Impl(b) => ambiguous_methods(acc, sigs::opt_name(item.origin_file), b, sigs, o, 0),
        _ => acc,
    }
}

pub open spec fn ambiguous_items(acc: Seq<FindingV>, items: Seq<Item>, sigs: SigTableV, o: OracleV, i: nat) -> Seq<FindingV>
    decreases items.len() - i,
{
    if i >= items.len() {
        acc
    } else {
        ambiguous_items(ambiguous_item(acc, items[i as int], sigs, o), items, sigs, o, i + 1)
    }
}

fn collect_ambiguous_methods(out: &mut Vec<Finding>, origin: &Option<String>, b: &ImplBlock, sigs: &SigTable, o: &CopyOracle)
    ensures
        final(out).deep_view() == ambiguous_methods(old(out).deep_view(), sigs::opt_name(*origin), *b, sigs@, o@, 0),
{
    let mut j: usize = 0;
    while j < b.methods.len()
        invariant
            j <= b.methods@.len(),
            ambiguous_methods(out.deep_view(), sigs::opt_name(*origin), *b, sigs@, o@, j as nat) == ambiguous_methods(
                old(out).deep_view(),
                sigs::opt_name(*origin),
                *b,
                sigs@,
                o@,
                0,
            ),
        decreases b.methods@.len() - j,
    {
        let m = &b.methods[j];
        let key = key_of(b.target.name.as_str(), m.name.name.as_str());
        if is_ambiguous(&m.params, &m.return_type, &m.body, sigs.methods.get(key.as_str()), o) {
            push_finding(out, origin, report_ambiguous_return(key.as_str(), m.name.span));
        }
        j += 1;
    }
}

fn collect_ambiguous_returns(out: &mut Vec<Finding>, prog: &Program, sigs: &SigTable, o: &CopyOracle)
    ensures
        final(out).deep_view() == ambiguous_items(old(out).deep_view(), prog.items@, sigs@, o@, 0),
{
    let mut i: usize = 0;
    while i < prog.items.len()
        invariant
            i <= prog.items@.len(),
            ambiguous_items(out.deep_view(), prog.items@, sigs@, o@, i as nat) == ambiguous_items(
                old(out).deep_view(),
                prog.items@,
                sigs@,
                o@,
                0,
            ),
        decreases prog.items@.len() - i,
    {
        let item = &prog.items[i];
        match &item.kind {
            ItemKind::Function(f) => if is_ambiguous(
                &f.params,
                &f.return_type,
                &f.body,
                sigs.fns.get(f.name.name.as_str()),
                o,
            ) {
                push_finding(out, &item.origin_file, report_ambiguous_return(f.name.name.as_str(), f.name.span));
            },
            ItemKind::Impl(b) => collect_ambiguous_methods(out, &item.origin_file, b, sigs, o),
            _ => {},
        }
        i += 1;
    }
}

// ---------------------------------------------------------------------------
// Raw pointer results that carry borrows.

/// The parameters whose views flow into the result.
pub open spec fn flowing_params(acc: Seq<u32>, ps: Seq<Param>, bits: u64, o: OracleV, i: nat) -> Seq<u32>
    decreases ps.len() - i,
{
    if i >= ps.len() {
        acc
    } else {
        let p = ps[i as int];
        flowing_params(
            if flow::bit_at(bits, i) && !p.move_ && (o.contains_view(p.ty@) || o.non_copy(p.ty@)) {
                acc.push(i as u32)
            } else {
                acc
            },
            ps,
            bits,
            o,
            i + 1,
        )
    }
}

pub open spec fn source_of_params(is: Seq<u32>) -> Option<ReturnBorrowSourceV> {
    if is.len() == 0 {
        None
    } else if is.len() == 1 {
        Some(ReturnBorrowSourceV::Param(is[0]))
    } else {
        Some(ReturnBorrowSourceV::MultiParam(is))
    }
}

/// What a raw pointer result borrows, by the flows found in the function's body.
pub open spec fn erased_source(f: Function, entry: FnEntryV, o: OracleV) -> Option<ReturnBorrowSourceV> {
    if ast::keeps(f.attributes@, "nothing"@) || entry.return_borrow is Some {
        None
    } else {
        match (f.return_type, entry.computed_ret_flow) {
            (Some(Type { kind: TypeKind::RawPtr(_), .. }), Some(bits)) => source_of_params(
                flowing_params(Seq::empty(), f.params@, bits, o, 0),
            ),
            _ => None,
        }
    }
}

pub open spec fn promote_item(sigs: SigTableV, item: Item, o: OracleV) -> SigTableV {
    match item.kind {
        ItemKind::Function(f) => match sigs::look(sigs.fns, f.name.name@) {
            Some(e) => match erased_source(f, e, o) {
                Some(s) => SigTableV {
                    fns: sigs.fns.insert(
                        f.name.name@,
                        FnEntryV { return_borrow: Some((s, BorrowFlavor::Shared)), ..e },
                    ),
                    ..sigs
                },
                None => sigs,
            },
            None => sigs,
        },
        _ => sigs,
    }
}

pub open spec fn promoted(sigs: SigTableV, items: Seq<Item>, o: OracleV, i: nat) -> SigTableV
    decreases items.len() - i,
{
    if i >= items.len() {
        sigs
    } else {
        promoted(promote_item(sigs, items[i as int], o), items, o, i + 1)
    }
}

fn params_that_flow(ps: &Vec<Param>, bits: u64, o: &CopyOracle) -> (r: Vec<u32>)
    ensures
        r@ == flowing_params(Seq::empty(), ps@, bits, o@, 0),
{
    let mut out: Vec<u32> = Vec::new();
    let mut i: usize = 0;
    while i < ps.len()
        invariant
            i <= ps@.len(),
            flowing_params(out@, ps@, bits, o@, i as nat) == flowing_params(Seq::empty(), ps@, bits, o@, 0),
        decreases ps@.len() - i,
    {
        if has_bit(bits, i) && !ps[i].move_ && (o.type_contains_view(&ps[i].ty) || o.definitely_non_copy(&ps[i].ty)) {
            out.push(i as u32);
        }
        i += 1;
    }
    out
}

fn find_erased_source(f: &Function, entry: &FnEntry, o: &CopyOracle) -> (r: Option<ReturnBorrowSource>)
    ensures
        elision::opt_source(r) == erased_source(*f, entry@, o@),
{
    if has_keeps(&f.attributes, "nothing") || entry.return_borrow.is_some() {
        return None;
    }
    let bits: u64 = match &f.return_type {
        Some(t) => match &t.kind {
            TypeKind::RawPtr(_) => match entry.computed_ret_flow {
                Some(b) => b,
                None => {
                    return None;
                },
            },
            _ => {
                return None;
            },
        },
        None => {
            return None;
        },
    };
    let is = params_that_flow(&f.params, bits, o);
    if is.len() == 0 {
        None
    } else if is.len() == 1 {
        Some(ReturnBorrowSource::Param(is[0]))
    } else {
        Some(ReturnBorrowSource::MultiParam(is))
    }
}

fn promote_erased_return_flows(prog: &Program, o: &CopyOracle, sigs: &mut SigTable)
    ensures
        final(sigs)@ == promoted(old(sigs)@, prog.items@, o@, 0),
{
    let mut i: usize = 0;
    while i < prog.items.len()
        invariant
            i <= prog.items@.len(),
            promoted(sigs@, prog.items@, o@, i as nat) == promoted(old(sigs)@, prog.items@, o@, 0),
        decreases prog.items@.len() - i,
    {
        if let ItemKind::Function(f) = &prog.items[i].kind {
            let mut next: Option<FnEntry> = None;
            if let Some(e) = sigs.fns.get(f.name.name.as_str()) {
                if let Some(s) = find_erased_source(f, e, o) {
                    let mut n = e.clone();
                    n.return_borrow = Some((s, BorrowFlavor::Shared));
                    next = Some(n);
                }
            }
            if let Some(n) = next {
                sigs.fns.insert(f.name.name.clone(), n);
            }
        }
        i += 1;
    }
}

// ---------------------------------------------------------------------------
// The rules on views, over the whole program.

pub open spec fn statics_in(acc: Map<Seq<char>, TypeV>, items: Seq<Item>, i: nat) -> Map<Seq<char>, TypeV>
    decreases items.len() - i,
{
    if i >= items.len() {
        acc
    } else {
        statics_in(
            match items[i as int].kind {
                ItemKind::Static(s) => acc.insert(s.name.name@, s.ty@),
                _ => acc,
            },
            items,
            i + 1,
        )
    }
}

/// What the view rules work with, for a whole program.
pub struct ViewCxV {
    pub cx: CxV,
    pub statics: Map<Seq<char>, TypeV>,
    pub capturing: Set<(Seq<char>, Seq<char>)>,
    pub addressed: Set<Seq<char>>,
}

pub open spec fn view_cx(prog: Program, cx: CxV) -> ViewCxV {
    ViewCxV {
        cx,
        statics: statics_in(Map::empty(), prog.items@, 0),
        capturing: captures::capturing_of(prog, cx.sigs),
        addressed: addr::address_taken(prog),
    }
}

/// What the view rules report in a function.
pub open spec fn fn_view_diags(vc: ViewCxV, f: Function) -> Seq<RawDiagV> {
    viewwalk::view_block(
        viewwalk::view_start(
            vc.cx.sigs,
            vc.cx.oracle,
            vc.statics,
            vc.capturing,
            ViewSiteV::Free { name: f.name.name@, exported: !vc.addressed.contains(f.name.name@) },
            None,
            None,
            f.params@,
            sigs::opt_type(f.return_type),
            f.attributes@,
        ),
        f.body,
    ).diags
}

/// What the view rules report in a method.
pub open spec fn method_view_diags(vc: ViewCxV, b: ImplBlock, m: Method) -> Seq<RawDiagV> {
    viewwalk::view_block(
        viewwalk::view_start(
            vc.cx.sigs,
            vc.cx.oracle,
            vc.statics,
            vc.capturing,
            ViewSiteV::Method { key: sigs::method_key(b.target.name@, m.name.name@) },
            m.receiver,
            if m.receiver is Some {
                Some(infer::path_at(b.target.name@, b.target.span))
            } else {
                None
            },
            m.params@,
            sigs::opt_type(m.return_type),
            m.attributes@,
        ),
        m.body,
    ).diags
}

pub open spec fn view_methods(acc: Seq<FindingV>, origin: Option<Seq<char>>, vc: ViewCxV, b: ImplBlock, j: nat) -> Seq<FindingV>
    decreases b.methods@.len() - j,
{
    if j >= b.methods@.len() {
        acc
    } else {
        let m = b.methods@[j as int];
        view_methods(
            if m.is_declaration {
                acc
            } else {
                from_file(acc, origin, method_view_diags(vc, b, m))
            },
            origin,
            vc,
            b,
            j + 1,
        )
    }
}

pub open spec fn view_item(acc: Seq<FindingV>, vc: ViewCxV, item: Item) -> Seq<FindingV> {
    match item.kind {
        ItemKind::Function(f) => if f.is_foreign || f.is_declaration {
            acc
        } else {
            from_file(acc, sigs::opt_name(item.origin_file), fn_view_diags(vc, f))
        },
        ItemKind::Impl(b) => view_methods(acc, sigs::opt_name(item.origin_file), vc, b, 0),
        _ => acc,
    }
}

pub open spec fn view_items(acc: Seq<FindingV>, vc: ViewCxV, items: Seq<Item>, i: nat) -> Seq<FindingV>
    decreases items.len() - i,
{
    if i >= items.len() {
        acc
    } else {
        view_items(view_item(acc, vc, items[i as int]), vc, items, i + 1)
    }
}

fn collect_statics(prog: &Program) -> (r: NameMap<Type>)
    ensures
        r@ == statics_in(Map::empty(), prog.items@, 0),
{
    let mut out: NameMap<Type> = NameMap::new();
    let mut i: usize = 0;
    while i < prog.items.len()
        invariant
            i <= prog.items@.len(),
            statics_in(out@, prog.items@, i as nat) == statics_in(Map::empty(), prog.items@, 0),
        decreases prog.items@.len() - i,
    {
        if let ItemKind::Static(s) = &prog.items[i].kind {
            out.insert(s.name.name.clone(), s.ty.clone());
        }
        i += 1;
    }
    out
}

struct ViewCx<'p> {
    cx: Cx<'p>,
    statics: NameMap<Type>,
    capturing: MethodSet,
    addressed: NameSet,
}

impl<'p> View for ViewCx<'p> {
    type V = ViewCxV;

    closed spec fn view(&self) -> ViewCxV {
        ViewCxV {
            cx: self.cx@,
            statics: self.statics@,
            capturing: self.capturing@,
            addressed: self.addressed@,
        }
    }
}

fn check_fn_views(vc: &ViewCx, f: &Function) -> (r: Vec<RawDiag>)
    ensures
        r.deep_view() == fn_view_diags(vc@, *f),
{
    let exported = !vc.addressed.contains(f.name.name.as_str());
    let mut v = ViewRules::new(
        vc.cx.sigs,
        vc.cx.oracle,
        &vc.statics,
        &vc.capturing,
        ViewSite::Free { name: f.name.name.clone(), exported },
        None,
        None,
        &f.params,
        &f.return_type,
        &f.attributes,
    );
    v.walk_block(&f.body);
    v.diags
}

fn check_method_views(vc: &ViewCx, b: &ImplBlock, m: &Method) -> (r: Vec<RawDiag>)
    ensures
        r.deep_view() == method_view_diags(vc@, *b, *m),
{
    let receiver_ty = if m.receiver.is_some() {
        Some(Type { kind: TypeKind::Path(b.target.name.clone()), span: b.target.span })
    } else {
        None
    };
    let mut v = ViewRules::new(
        vc.cx.sigs,
        vc.cx.oracle,
        &vc.statics,
        &vc.capturing,
        ViewSite::Method { key: key_of(b.target.name.as_str(), m.name.name.as_str()) },
        m.receiver,
        receiver_ty,
        &m.params,
        &m.return_type,
        &m.attributes,
    );
    v.walk_block(&m.body);
    v.diags
}

fn collect_method_view_diagnostics(out: &mut Vec<Finding>, origin: &Option<String>, vc: &ViewCx, b: &ImplBlock)
    ensures
        final(out).deep_view() == view_methods(old(out).deep_view(), sigs::opt_name(*origin), vc@, *b, 0),
{
    let mut j: usize = 0;
    while j < b.methods.len()
        invariant
            j <= b.methods@.len(),
            view_methods(out.deep_view(), sigs::opt_name(*origin), vc@, *b, j as nat) == view_methods(
                old(out).deep_view(),
                sigs::opt_name(*origin),
                vc@,
                *b,
                0,
            ),
        decreases b.methods@.len() - j,
    {
        if !b.methods[j].is_declaration {
            let ds = check_method_views(vc, b, &b.methods[j]);
            add_findings(out, origin, ds);
        }
        j += 1;
    }
}

fn collect_view_diagnostics(out: &mut Vec<Finding>, prog: &Program, sigs: &SigTable, o: &CopyOracle)
    ensures
        final(out).deep_view() == view_items(
            old(out).deep_view(),
            view_cx(*prog, (CxV { sigs: sigs@, oracle: o@ })),
            prog.items@,
            0,
        ),
{
    let vc = ViewCx {
        cx: Cx { sigs, oracle: o },
        statics: collect_statics(prog),
        capturing: receiver_capturing_methods(prog, sigs),
        addressed: fns_with_address_taken(prog),
    };
    let mut i: usize = 0;
    while i < prog.items.len()
        invariant
            i <= prog.items@.len(),
            view_items(out.deep_view(), vc@, prog.items@, i as nat) == view_items(
                old(out).deep_view(),
                vc@,
                prog.items@,
                0,
            ),
        decreases prog.items@.len() - i,
    {
        let item = &prog.items[i];
        match &item.kind {
            ItemKind::Function(f) => if !f.is_foreign && !f.is_declaration {
                let ds = check_fn_views(&vc, f);
                add_findings(out, &item.origin_file, ds);
            },
            ItemKind::Impl(b) => collect_method_view_diagnostics(out, &item.origin_file, &vc, b),
            _ => {},
        }
        i += 1;
    }
}

// ---------------------------------------------------------------------------
// Ownership, over the whole program.

pub type AnalysisV = Seq<(Seq<char>, FunctionAnalysisV)>;

pub open spec fn own_methods(
    acc: (AnalysisV, Seq<FindingV>),
    origin: Option<Seq<char>>,
    cx: CxV,
    b: ImplBlock,
    j: nat,
) -> (AnalysisV, Seq<FindingV>)
    decreases b.methods@.len() - j,
{
    if j >= b.methods@.len() {
        acc
    } else {
        let m = b.methods@[j as int];
        let key = sigs::method_key(b.target.name@, m.name.name@);
        let (w, f) = analyzer::method_analysis(cx, key, b.target.name@, m.receiver, m.params@, m.body);
        own_methods(
            (ordered::ord_put::<String, FunctionAnalysisV>(acc.0, key, f), from_file(acc.1, origin, w.diags)),
            origin,
            cx,
            b,
            j + 1,
        )
    }
}

pub open spec fn own_item(acc: (AnalysisV, Seq<FindingV>), cx: CxV, item: Item) -> (AnalysisV, Seq<FindingV>) {
    match item.kind {
        ItemKind::Function(f) => {
            let (w, a) = analyzer::function_analysis(cx, f.name.name@, f.params@, f.body);
            (
                ordered::ord_put::<String, FunctionAnalysisV>(acc.0, f.name.name@, a),
                from_file(acc.1, sigs::opt_name(item.origin_file), w.diags),
            )
        },
        ItemKind::Impl(b) => own_methods(acc, sigs::opt_name(item.origin_file), cx, b, 0),
        _ => acc,
    }
}

pub open spec fn own_items(acc: (AnalysisV, Seq<FindingV>), cx: CxV, items: Seq<Item>, i: nat) -> (AnalysisV, Seq<FindingV>)
    decreases items.len() - i,
{
    if i >= items.len() {
        acc
    } else {
        own_items(own_item(acc, cx, items[i as int]), cx, items, i + 1)
    }
}

fn own_all_methods(analysis: &mut ProgramAnalysis, out: &mut Vec<Finding>, origin: &Option<String>, cx: &Cx, b: &ImplBlock)
    ensures
        (final(analysis)@, final(out).deep_view()) == own_methods(
            (old(analysis)@, old(out).deep_view()),
            sigs::opt_name(*origin),
            cx@,
            *b,
            0,
        ),
{
    let mut j: usize = 0;
    while j < b.methods.len()
        invariant
            j <= b.methods@.len(),
            own_methods((analysis@, out.deep_view()), sigs::opt_name(*origin), cx@, *b, j as nat) == own_methods(
                (old(analysis)@, old(out).deep_view()),
                sigs::opt_name(*origin),
                cx@,
                *b,
                0,
            ),
        decreases b.methods@.len() - j,
    {
        let m = &b.methods[j];
        let key = key_of(b.target.name.as_str(), m.name.name.as_str());
        let (w, f) = analyze_method(cx, key.as_str(), b.target.name.as_str(), m.receiver, &m.params, &m.body);
        analysis.functions.insert(key, f);
        add_findings(out, origin, w.diags);
        j += 1;
    }
}

fn own_everything(analysis: &mut ProgramAnalysis, out: &mut Vec<Finding>, cx: &Cx, prog: &Program)
    ensures
        (final(analysis)@, final(out).deep_view()) == own_items(
            (old(analysis)@, old(out).deep_view()),
            cx@,
            prog.items@,
            0,
        ),
{
    let mut i: usize = 0;
    while i < prog.items.len()
        invariant
            i <= prog.items@.len(),
            own_items((analysis@, out.deep_view()), cx@, prog.items@, i as nat) == own_items(
                (old(analysis)@, old(out).deep_view()),
                cx@,
                prog.items@,
                0,
            ),
        decreases prog.items@.len() - i,
    {
        let item = &prog.items[i];
        match &item.kind {
            ItemKind::Function(f) => {
                let (w, a) = analyze_function(cx, f.name.name.as_str(), &f.params, &f.body);
                analysis.functions.insert(f.name.name.clone(), a);
                add_findings(out, &item.origin_file, w.diags);
            },
            ItemKind::Impl(b) => own_all_methods(analysis, out, &item.origin_file, cx, b),
            _ => {},
        }
        i += 1;
    }
}

// ---------------------------------------------------------------------------
// One report for one conflict.

/// The codes of conflicts between the claims of one call.
pub open spec fn is_claim_code(c: Seq<char>) -> bool {
    c == "E0370"@ || c == "E0380"@ || c == "E0381"@ || c == "E0382"@
}

/// The codes of reads that such a conflict makes redundant.
pub open spec fn is_read_code(c: Seq<char>) -> bool {
    c == "E0374"@ || c == "E0383"@
}

pub open spec fn is_claim_at(f: FindingV, origin: Option<Seq<char>>, span: Span) -> bool {
    is_claim_code(f.diag.code) && f.origin == origin && f.diag.primary == span
}

/// A read that is reported where a claim of the same file already is.
pub open spec fn superseded(fs: Seq<FindingV>, f: FindingV) -> bool {
    is_read_code(f.diag.code) && exists|k: int|
        0 <= k < fs.len() && is_claim_at(#[trigger] fs[k], f.origin, f.diag.primary)
}

pub open spec fn keep_first(acc: Seq<FindingV>, fs: Seq<FindingV>, i: nat) -> Seq<FindingV>
    decreases fs.len() - i,
{
    if i >= fs.len() {
        acc
    } else {
        keep_first(
            if superseded(fs, fs[i as int]) {
                acc
            } else {
                acc.push(fs[i as int])
            },
            fs,
            i + 1,
        )
    }
}

pub open spec fn deduped(fs: Seq<FindingV>) -> Seq<FindingV> {
    keep_first(Seq::empty(), fs, 0)
}

fn code_is_claim(c: &str) -> (r: bool)
    ensures
        r == is_claim_code(c@),
{
    str_eq(c, "E0370") || str_eq(c, "E0380") || str_eq(c, "E0381") || str_eq(c, "E0382")
}

fn same_origin(a: &Option<String>, b: &Option<String>) -> (r: bool)
    ensures
        r == (sigs::opt_name(*a) == sigs::opt_name(*b)),
{
    match (a, b) {
        (Some(x), Some(y)) => str_eq(x.as_str(), y.as_str()),
        (None, None) => true,
        _ => false,
    }
}

fn is_superseded(fs: &Vec<Finding>, i: usize) -> (r: bool)
    requires
        i < fs@.len(),
    ensures
        r == superseded(fs.deep_view(), fs.deep_view()[i as int]),
{
    let ghost fv = fs.deep_view();
    assert(fv[i as int] == fs@[i as int]@);
    if !(str_eq(fs[i].diag.code, "E0374") || str_eq(fs[i].diag.code, "E0383")) {
        return false;
    }
    let span = fs[i].diag.primary;
    let mut k: usize = 0;
    while k < fs.len()
        invariant
            i < fs@.len(),
            k <= fs@.len(),
            fv == fs.deep_view(),
            span == fv[i as int].diag.primary,
            fv[i as int] == fs@[i as int]@,
            is_read_code(fv[i as int].diag.code),
            forall|j: int| 0 <= j < k ==> !is_claim_at(#[trigger] fv[j], fv[i as int].origin, span),
        decreases fs@.len() - k,
    {
        assert(fv[k as int] == fs@[k as int]@);
        if code_is_claim(fs[k].diag.code) && fs[k].diag.primary == span && same_origin(&fs[k].origin, &fs[i].origin) {
            assert(is_claim_at(fv[k as int], fv[i as int].origin, span));
            return true;
        }
        k += 1;
    }
    false
}

fn clone_suggestion(s: &Option<(Span, String, String)>) -> (r: Option<(Span, String, String)>)
    ensures
        match (r, *s) {
            (Some((a, b, c)), Some((x, y, z))) => a == x && b@ == y@ && c@ == z@,
            (None, None) => true,
            _ => false,
        },
{
    match s {
        Some((a, b, c)) => Some((*a, b.clone(), c.clone())),
        None => None,
    }
}

fn clone_label(s: &Option<(Span, String)>) -> (r: Option<(Span, String)>)
    ensures
        match (r, *s) {
            (Some((a, b)), Some((x, y))) => a == x && b@ == y@,
            (None, None) => true,
            _ => false,
        },
{
    match s {
        Some((a, b)) => Some((*a, b.clone())),
        None => None,
    }
}

fn clone_finding(f: &Finding) -> (r: Finding)
    ensures
        r@ == f@,
{
    Finding {
        origin: clone_origin(&f.origin),
        diag: RawDiag {
            code: f.diag.code,
            message: f.diag.message.clone(),
            primary: f.diag.primary,
            suggestion: clone_suggestion(&f.diag.suggestion),
            label: clone_label(&f.diag.label),
        },
    }
}

/// Leaves out the reads at whose place, in the same file, a conflict between claims is found.
pub fn dedupe_conflicts_at_one_span(fs: &Vec<Finding>) -> (r: Vec<Finding>)
    ensures
        r.deep_view() == deduped(fs.deep_view()),
{
    let mut out: Vec<Finding> = Vec::new();
    assert(out.deep_view() =~= Seq::<FindingV>::empty());
    let mut i: usize = 0;
    while i < fs.len()
        invariant
            i <= fs@.len(),
            keep_first(out.deep_view(), fs.deep_view(), i as nat) == deduped(fs.deep_view()),
        decreases fs@.len() - i,
    {
        assert(fs.deep_view()[i as int] == fs@[i as int]@);
        if !is_superseded(fs, i) {
            let ghost before = out.deep_view();
            out.push(clone_finding(&fs[i]));
            assert(out.deep_view() =~= before.push(fs.deep_view()[i as int]));
        }
        i += 1;
    }
    out
}

// ---------------------------------------------------------------------------
// The whole analysis.

/// The signatures that the analysis works with: as declared, with the flows found in the
/// bodies.
pub open spec fn known_sigs(prog: Program) -> SigTableV {
    let o = oracle::oracle_of(prog);
    promoted(rounds::with_flows(sigs::sigs_of(prog, o), prog), prog.items@, o, 0)
}

pub open spec fn known_cx(prog: Program) -> CxV {
    CxV { sigs: known_sigs(prog), oracle: oracle::oracle_of(prog) }
}

/// The ownership states of every function, and everything that is found.
pub open spec fn findings_of(prog: Program) -> (AnalysisV, Seq<FindingV>) {
    let cx = known_cx(prog);
    let found = ambiguous_items(Seq::empty(), prog.items@, cx.sigs, cx.oracle, 0);
    let found = view_items(found, view_cx(prog, cx), prog.items@, 0);
    own_items((Seq::empty(), found), cx, prog.items@, 0)
}

/// The ownership states of every function, and everything that is reported.
pub open spec fn analysis_of(prog: Program) -> (AnalysisV, Seq<FindingV>) {
    let (states, found) = findings_of(prog);
    (states, deduped(found))
}

fn analyze_with_diags(prog: &Program) -> (r: (ProgramAnalysis, Vec<Finding>))
    ensures
        (r.0@, r.1.deep_view()) == analysis_of(*prog),
{
    let oracle = CopyOracle::build(prog);
    let mut sigs = SigTable::collect(prog, &oracle);
    compute_receiver_flows(prog, &mut sigs);
    promote_erased_return_flows(prog, &oracle, &mut sigs);
    let cx = Cx { sigs: &sigs, oracle: &oracle };
    let mut analysis = ProgramAnalysis { functions: OrdMap::new() };
    let mut found: Vec<Finding> = Vec::new();
    assert(found.deep_view() =~= Seq::<FindingV>::empty());
    collect_ambiguous_returns(&mut found, prog, &sigs, &oracle);
    collect_view_diagnostics(&mut found, prog, &sigs, &oracle);
    own_everything(&mut analysis, &mut found, &cx, prog);
    let kept = dedupe_conflicts_at_one_span(&found);
    (analysis, kept)
}

/// The ownership states at every point of every function of a program.
pub fn analyze(prog: &Program) -> (r: ProgramAnalysis)
    ensures
        r@ == analysis_of(*prog).0,
{
    let (analysis, _) = analyze_with_diags(prog);
    analysis
}

/// A source file that items of a program come from.
pub struct SourceFile {
    pub path: String,
    pub text: String,
}

pub struct SourceFileV {
    pub path: Seq<char>,
    pub text: Seq<char>,
}

impl DeepView for SourceFile {
    type V = SourceFileV;

    open spec fn deep_view(&self) -> SourceFileV {
        SourceFileV { path: self.path@, text: self.text@ }
    }
}

pub type FilesV = Seq<(Seq<char>, SourceFileV)>;

/// A report as a diagnostic of the source it is about.
pub open spec fn located(r: RawDiagV, file: Seq<char>, src: Seq<char>) -> DiagnosticV {
    let b = vstd::utf8::encode_utf8(src);
    let starts = diagnostics::line_starts(b);
    DiagnosticV {
        severity: Severity::Error,
        code: r.code,
        message: r.message,
        primary: diagnostics::span_in(starts, file, r.primary, b),
        labels: match r.label {
            Some((span, message)) => seq![LabelV { span: diagnostics::span_in(starts, file, span, b), message }],
            None => Seq::empty(),
        },
        notes: Seq::empty(),
        suggestions: match r.suggestion {
            Some((span, replacement, description)) => seq![
                SuggestionV {
                    description,
                    span: diagnostics::span_in(starts, file, span, b),
                    replacement,
                    applicability: Applicability::MaybeIncorrect,
                },
            ],
            None => Seq::empty(),
        },
    }
}

/// A report is about the file its item comes from, if that is known, or else the entry file.
pub open spec fn placed(f: FindingV, file: Seq<char>, src: Seq<char>, files: FilesV) -> DiagnosticV {
    match f.origin {
        Some(o) => match ordered::ord_get::<String, SourceFileV>(files, o) {
            Some(s) => located(f.diag, s.path, s.text),
            None => located(f.diag, file, src),
        },
        None => located(f.diag, file, src),
    }
}

/// Everything that is wrong with a program.
pub open spec fn problems(prog: Program, file: Seq<char>, src: Seq<char>, files: FilesV) -> Seq<DiagnosticV> {
    let found = analysis_of(prog).1;
    Seq::new(found.len(), |i: int| placed(found[i], file, src, files))
}

fn raw_to_diagnostic(r: &RawDiag, file: &str, src: &str, lm: &LineMap) -> (d: Diagnostic)
    requires
        lm@ == diagnostics::line_starts(src.spec_bytes()),
    ensures
        d@ == located(r@, file@, src@),
{
    let mut suggestions: Vec<Suggestion> = Vec::new();
    if let Some((span, replacement, description)) = &r.suggestion {
        suggestions.push(
            Suggestion {
                description: description.clone(),
                span: lm.span(file, *span, src),
                replacement: replacement.clone(),
                applicability: Applicability::MaybeIncorrect,
            },
        );
    }
    let mut labels: Vec<Label> = Vec::new();
    if let Some((span, message)) = &r.label {
        labels.push(Label { span: lm.span(file, *span, src), message: message.clone() });
    }
    let d = Diagnostic {
        severity: Severity::Error,
        code: DiagCode(r.code),
        message: r.message.clone(),
        primary: lm.span(file, r.primary, src),
        labels,
        notes: Vec::new(),
        suggestions,
    };
    assert(d@.labels =~= located(r@, file@, src@).labels);
    assert(d@.suggestions =~= located(r@, file@, src@).suggestions);
    assert(d@ =~= located(r@, file@, src@));
    d
}

fn place_finding(f: &Finding, file: &str, src: &str, lm: &LineMap, files: &OrdMap<String, SourceFile>) -> (d: Diagnostic)
    requires
        lm@ == diagnostics::line_starts(src.spec_bytes()),
    ensures
        d@ == placed(f@, file@, src@, files@),
{
    if let Some(o) = &f.origin {
        if let Some(s) = files.get(o) {
            let own = LineMap::new(s.text.as_str());
            return raw_to_diagnostic(&f.diag, s.path.as_str(), s.text.as_str(), &own);
        }
    }
    raw_to_diagnostic(&f.diag, file, src, lm)
}

/// Reports everything that is wrong with a program whose items come from several files.
pub fn check_multi(prog: &Program, entry_file: &str, entry_src: &str, files: &OrdMap<String, SourceFile>) -> (r: Vec<Diagnostic>)
    ensures
        r.deep_view() == problems(*prog, entry_file@, entry_src@, files@),
{
    let (_, found) = analyze_with_diags(prog);
    let lm = LineMap::new(entry_src);
    let ghost fv = found.deep_view();
    let mut out: Vec<Diagnostic> = Vec::new();
    let mut i: usize = 0;
    while i < found.len()
        invariant
            i <= found@.len(),
            fv == found.deep_view(),
            lm@ == diagnostics::line_starts(entry_src.spec_bytes()),
            out@.len() == i,
            forall|j: int| 0 <= j < i ==> (#[trigger] out@[j])@ == placed(fv[j], entry_file@, entry_src@, files@),
        decreases found@.len() - i,
    {
        assert(fv[i as int] == found@[i as int]@);
        out.push(place_finding(&found[i], entry_file, entry_src, &lm, files));
        i += 1;
    }
    assert(out.deep_view() =~= problems(*prog, entry_file@, entry_src@, files@));
    out
}

/// Reports everything that is wrong with a program that is all in one file.
pub fn check(prog: &Program, file: &str, src: &str) -> (r: Vec<Diagnostic>)
    ensures
        r.deep_view() == problems(*prog, file@, src@, Seq::empty()),
{
    let none: OrdMap<String, SourceFile> = OrdMap::new();
    check_multi(prog, file, src, &none)
}

} // verus!
