//! What a whole program is promised: signatures as they are declared, and reports that cannot be
//! missed.
use vstd::prelude::*;
use crate::ast;
use crate::borrowck;
use crate::guarantees;
use crate::infer;
use crate::oracle;
use crate::owners;
use crate::parts;
use crate::place;
use crate::reaching;
use crate::rounds;
use crate::sigs;
use crate::views;
use crate::viewwalk;
use crate::ast::{Block, Expr, ExprKind, Function, Ident, ImplBlock, Item, ItemKind, Param, Program, Stmt, StmtKind, TypeV};
use crate::borrowck::FindingV;
use crate::oracle::OracleV;
use crate::parts::Node;
use crate::sigs::{FnEntryV, SigTableV};
use crate::views::ViewRulesV;

verus! {

// ---------------------------------------------------------------------------
// Signatures.

/// The item is the last function of its name.
pub open spec fn is_last_function(items: Seq<Item>, k: int, f: Function) -> bool {
    &&& 0 <= k < items.len()
    &&& items[k].kind == ItemKind::Function(f)
    &&& forall|m: int|
        k < m < items.len() ==> !((#[trigger] items[m]).kind matches ItemKind::Function(g) && g.name.name@ == f.name.name@)
}

/// The entry says what the function declares of its parameters and its result.
pub open spec fn is_declared_as(e: FnEntryV, f: Function, o: OracleV) -> bool {
    &&& e.param_muts.len() == f.params@.len()
    &&& e.param_moves.len() == f.params@.len()
    &&& e.param_tys.len() == f.params@.len()
    &&& forall|i: int| 0 <= i < f.params@.len() ==> #[trigger] e.param_muts[i] == f.params@[i].mutable
    &&& forall|i: int| 0 <= i < f.params@.len() && (#[trigger] e.param_moves[i]) ==> f.params@[i].move_
    &&& forall|i: int|
        0 <= i < f.params@.len() && f.params@[i].move_ && o.non_copy(f.params@[i].ty@) && (f.params@[i].ty@.kind is Path
            || f.params@[i].ty@.kind is Generic) ==> #[trigger] e.param_moves[i]
    &&& forall|i: int| 0 <= i < f.params@.len() ==> #[trigger] e.param_tys[i] == f.params@[i].ty@
    &&& e.ret_ty == sigs::opt_type(f.return_type)
    &&& e.receiver_claim is None
}

/// Two entries that declare the same.
spec fn declare_alike(a: FnEntryV, b: FnEntryV) -> bool {
    &&& a.param_muts == b.param_muts
    &&& a.param_moves == b.param_moves
    &&& a.param_tys == b.param_tys
    &&& a.ret_ty == b.ret_ty
    &&& a.receiver_claim == b.receiver_claim
}

proof fn lemma_methods_keep_fns(t: SigTableV, b: ImplBlock, o: OracleV, i: nat)
    ensures
        sigs::with_methods(t, b, o, i).fns == t.fns,
    decreases b.methods@.len() - i,
{
    if i < b.methods@.len() {
        let m = b.methods@[i as int];
        lemma_methods_keep_fns(
            SigTableV {
                methods: t.methods.insert(sigs::method_key(b.target.name@, m.name.name@), sigs::method_entry_of(b, m, o)),
                ..t
            },
            b,
            o,
            i + 1,
        );
    }
}

proof fn lemma_item_keeps(t: SigTableV, item: Item, o: OracleV, n: Seq<char>)
    requires
        !(item.kind matches ItemKind::Function(g) && g.name.name@ == n),
    ensures
        sigs::look(sigs::with_item(t, item, o).fns, n) == sigs::look(t.fns, n),
{
    if let ItemKind::Impl(b) = item.kind {
        lemma_methods_keep_fns(
            SigTableV {
                impl_generics: if b.target_generic_params@.len() > 0 && !t.impl_generics.dom().contains(b.target.name@) {
                    t.impl_generics.insert(b.target.name@, oracle::generic_names(b.target_generic_params@))
                } else {
                    t.impl_generics
                },
                ..t
            },
            b,
            o,
            0,
        );
    }
}

proof fn lemma_collected(t: SigTableV, items: Seq<Item>, o: OracleV, i: nat, k: int, f: Function)
    requires
        is_last_function(items, k, f),
        i <= k || sigs::look(t.fns, f.name.name@) == Some(sigs::fn_entry(f, o)),
        i <= items.len(),
    ensures
        sigs::look(sigs::with_items(t, items, o, i).fns, f.name.name@) == Some(sigs::fn_entry(f, o)),
    decreases items.len() - i,
{
    if i < items.len() {
        let next = sigs::with_item(t, items[i as int], o);
        if i > k {
            lemma_item_keeps(t, items[i as int], o, f.name.name@);
        }
        lemma_collected(next, items, o, i + 1, k, f);
    }
}

proof fn lemma_promoted(s: SigTableV, items: Seq<Item>, o: OracleV, i: nat, n: Seq<char>)
    requires
        s.fns.dom().contains(n),
    ensures
        borrowck::promoted(s, items, o, i).fns.dom().contains(n),
        declare_alike(s.fns[n], borrowck::promoted(s, items, o, i).fns[n]),
    decreases items.len() - i,
{
    if i < items.len() {
        lemma_promoted(borrowck::promote_item(s, items[i as int], o), items, o, i + 1, n);
    }
}

/// The analysis works with the signatures that the program declares: what a function takes by
/// `ref`, what it takes over, the types of its parameters, and its result.
pub proof fn functions_are_known_as_declared(prog: Program, k: int, f: Function)
    requires
        is_last_function(prog.items@, k, f),
    ensures
        borrowck::known_sigs(prog).fns.dom().contains(f.name.name@),
        is_declared_as(borrowck::known_sigs(prog).fns[f.name.name@], f, oracle::oracle_of(prog)),
{
    let o = oracle::oracle_of(prog);
    let n = f.name.name@;
    let a = sigs::sigs_of(prog, o);
    lemma_collected(sigs::no_sigs(), prog.items@, o, 0, k, f);
    assert(a.fns.dom().contains(n) && a.fns[n] == sigs::fn_entry(f, o));
    let b = rounds::with_flows(a, prog);
    rounds::known_flows_stay_known(a, prog);
    assert(b.fns.dom().contains(n));
    assert(rounds::knows_more(a.fns[n], b.fns[n]));
    lemma_promoted(b, prog.items@, o, 0, n);
    assert(declare_alike(a.fns[n], borrowck::known_sigs(prog).fns[n]));
}

// ---------------------------------------------------------------------------
// Reports.

/// Lending one place to two `ref` parameters of a call is reported, wherever in a function of the
/// program the call stands, at the second of the two arguments.
pub proof fn lending_a_place_twice_is_reported(
    prog: Program,
    k: int,
    f: Function,
    h: int,
    g: Function,
    x: Expr,
    i: int,
    j: int,
    p: Seq<char>,
) -> (m: int)
    requires
        0 <= k < prog.items@.len(),
        prog.items@[k].kind == ItemKind::Function(f),
        is_last_function(prog.items@, h, g),
        parts::in_block(f.body, Node::Expr(x), false),
        x.kind matches ExprKind::Call { callee, args, .. } && (callee.kind matches ExprKind::Ident(c) && c@ == g.name.name@) && 0 <= i
            < j < args@.len() && j < g.params@.len() && place::place_of(args@[i]) is Some && place::place_of(args@[i])
            == place::place_of(args@[j]),
        g.params@[i].mutable && !g.params@[i].move_,
        g.params@[j].mutable && !g.params@[j].move_,
    ensures
        0 <= m < borrowck::analysis_of(prog).1.len(),
        borrowck::analysis_of(prog).1[m].diag.code == "E0380"@,
        x.kind matches ExprKind::Call { args, .. } && borrowck::analysis_of(prog).1[m].diag.primary == args@[j].span,
        borrowck::analysis_of(prog).1[m].origin == sigs::opt_name(prog.items@[k].origin_file),
{
    let cx = borrowck::known_cx(prog);
    functions_are_known_as_declared(prog, h, g);
    assert(reaching::lends_twice(cx, x, i, j));
    let d = reaching::lending_twice_always_reports(cx, x, i, j);
    reaching::calls_are_met_wherever_they_stand(cx, f.name.name@, f.params@, f.body, Node::Expr(x), d);
    let found = FindingV { origin: sigs::opt_name(prog.items@[k].origin_file), diag: d };
    guarantees::reports_of_functions_are_reported(prog, k, d);
    assert(!borrowck::is_read_code(d.code)) by {
        lemma_codes();
    }
    assert(borrowck::analysis_of(prog).1.contains(found));
    choose|m: int| 0 <= m < borrowck::analysis_of(prog).1.len() && borrowck::analysis_of(prog).1[m] == found
}

proof fn lemma_codes()
    ensures
        !borrowck::is_read_code("E0380"@),
        !borrowck::is_read_code("E0513"@),
{
    reveal_strlit("E0380");
    reveal_strlit("E0513");
    reveal_strlit("E0374");
    reveal_strlit("E0383");
    assert("E0380"@[4] == '0');
    assert("E0513"@[2] == '5');
    assert("E0374"@[4] == '4' && "E0374"@[2] == '3');
    assert("E0383"@[4] == '3' && "E0383"@[2] == '3');
}

/// The rules that a function's views are held to.
pub open spec fn rules_of(prog: Program, f: Function) -> ViewRulesV {
    let vc = borrowck::view_cx(prog, borrowck::known_cx(prog));
    viewwalk::view_start(
        vc.cx.sigs,
        vc.cx.oracle,
        vc.statics,
        vc.capturing,
        views::ViewSiteV::Free { name: f.name.name@, exported: !vc.addressed.contains(f.name.name@) },
        None,
        None,
        f.params@,
        sigs::opt_type(f.return_type),
        f.attributes@,
    )
}

proof fn lemma_enter(v: ViewRulesV, ps: Seq<Param>, i: nat)
    ensures
        v.enter(ps, i).oracle == v.oracle,
        v.enter(ps, i).ret == v.ret,
    decreases ps.len() - i,
{
    reveal_with_fuel(ViewRulesV::enter, 2);
    if i < ps.len() {
        let p = ps[i as int];
        let n = p.name.name@;
        lemma_enter(
            ViewRulesV {
                params: v.params.insert(n),
                index: v.index.insert(n, i as usize),
                refs: if p.mutable && !p.move_ {
                    v.refs.insert(n)
                } else {
                    v.refs
                },
                scopes: seq![v.scopes[0].insert(n, views::plain_local(Some(p.ty@), p.move_))],
                ..v
            },
            ps,
            i + 1,
        );
    }
}

/// The rules of a function's views work with the types of the program and with the declared
/// result.
proof fn lemma_rules(prog: Program, f: Function)
    ensures
        rules_of(prog, f).oracle == oracle::oracle_of(prog),
        rules_of(prog, f).ret == sigs::opt_type(f.return_type),
{
    let vc = borrowck::view_cx(prog, borrowck::known_cx(prog));
    lemma_enter(
        ViewRulesV {
            sigs: vc.cx.sigs,
            oracle: vc.cx.oracle,
            statics: vc.statics,
            capturing: vc.capturing,
            taint: Seq::empty(),
            scopes: seq![Map::empty()],
            params: Set::empty(),
            index: Map::empty(),
            refs: Set::empty(),
            ret: sigs::opt_type(f.return_type),
            site: views::ViewSiteV::Free { name: f.name.name@, exported: !vc.addressed.contains(f.name.name@) },
            declares: ast::keeps(f.attributes@, "this"@) || ast::keeps(f.attributes@, "nothing"@),
            diags: Seq::empty(),
        },
        f.params@,
        0,
    );
}

/// A function of the program whose result is a view does not hand out a place of a local that it
/// owns and whose type is moved: however deep the declaration and the return stand, the return
/// is reported.
pub proof fn returning_a_view_of_a_local_is_reported(
    prog: Program,
    k: int,
    f: Function,
    c: Block,
    i: nat,
    name: Ident,
    s: Stmt,
    e: Expr,
    ret: TypeV,
) -> (m: int)
    requires
        0 <= k < prog.items@.len(),
        prog.items@[k].kind == ItemKind::Function(f),
        !f.is_foreign,
        !f.is_declaration,
        parts::in_block(f.body, Node::Block(c), true),
        i < c.stmts@.len(),
        c.stmts@[i as int].kind matches StmtKind::Let { name: n, ty: Some(t), .. } && n == name
            && !oracle::oracle_of(prog).assumed_copied(t@) && !rules_of(prog, f).viewing(t@),
        parts::in_stmts(c.stmts@, Node::Stmt(s), true, i + 1),
        !owners::rebinds_stmts(c.stmts@, views::canonical_name(name.name@), i + 1),
        s.kind == StmtKind::Return(Some(e)),
        owners::is_place_of(e, name.name@),
        sigs::opt_type(f.return_type) == Some(ret),
        infer::is_view(ret),
    ensures
        0 <= m < borrowck::analysis_of(prog).1.len(),
        borrowck::analysis_of(prog).1[m].diag.code == "E0513"@,
        borrowck::analysis_of(prog).1[m].diag.primary == e.span,
        borrowck::analysis_of(prog).1[m].origin == sigs::opt_name(prog.items@[k].origin_file),
{
    let v = rules_of(prog, f);
    lemma_rules(prog, f);
    owners::views_of_locals_are_not_returned(v, f.body, c, i, name, s, e, ret);
    let d = owners::escape_report(v, name.name@, e.span);
    let vc = borrowck::view_cx(prog, borrowck::known_cx(prog));
    assert(borrowck::fn_view_diags(vc, f).contains(d));
    guarantees::view_reports_are_reported(prog, k, d);
    assert(!borrowck::is_read_code(d.code)) by {
        lemma_codes();
    }
    let found = FindingV { origin: sigs::opt_name(prog.items@[k].origin_file), diag: d };
    assert(borrowck::analysis_of(prog).1.contains(found));
    choose|m: int| 0 <= m < borrowck::analysis_of(prog).1.len() && borrowck::analysis_of(prog).1[m] == found
}

} // verus!
