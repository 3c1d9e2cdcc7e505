//! What single statements do to what is known: moves, borrows, and uses that are reported.
use vstd::prelude::*;
use crate::analyzer;
use crate::borrows;
use crate::conflicts;
use crate::infer;
use crate::messages;
use crate::ordered;
use crate::ownership;
use crate::place;
use crate::sigs;
use crate::ast::{AssignOp, Expr, ExprKind, FieldInit, Ident, Span, Stmt, StmtKind, Type, TypeV};
use crate::borrows::{CxV, WorldV};
use crate::elision::{BorrowFlavor, ReturnBorrowSourceV};
use crate::messages::RawDiagV;
use crate::ownership::tidy;
use crate::place::{Place, PlaceOverlap, PlaceStateV, PlaceV, StateV};
use crate::sigs::ClaimKind;

verus! {

/// What is known of a whole binding.
pub open spec fn known(w: WorldV, name: Seq<char>) -> Option<PlaceStateV> {
    place::st_get(w.state, place::root_place(name))
}

proof fn lemma_other_root(a: Seq<char>, b: Seq<char>)
    requires
        a != b,
    ensures
        place::root_place(a) != place::root_place(b),
{
}

proof fn lemma_own_other(w: WorldV, name: Seq<char>, other: Seq<char>)
    requires
        tidy(w),
        name != other,
    ensures
        known(w.own(name), other) == known(w, other),
        known(w.own(name), name) == Some(PlaceStateV::Owned),
{
    lemma_other_root(name, other);
    ordered::lemma_ord_put::<Place, PlaceStateV>(
        w.state,
        place::root_place(name),
        PlaceStateV::Owned,
        place::root_place(other),
    );
}

// ---------------------------------------------------------------------------
// Moves.

/// Binding a moved value to another name moves it: the old name is moved and the new one owns.
pub proof fn a_let_moves_its_source(cx: CxV, w: WorldV, s: Stmt, name: Ident, ty: Option<Type>, e: Expr, n: Seq<char>)
    requires
        tidy(w),
        s.kind matches StmtKind::Let { name: a, ty: b, init: Some(c), .. } && a == name && b == ty && c == e,
        e.kind matches ExprKind::Ident(m) && m@ == n,
        w.non_copy(cx, n),
        !analyzer::is_view_opt(sigs::opt_type(ty)),
        name.name@ != n,
    ensures
        known(analyzer::apply_stmt(cx, w, s), n) == Some(PlaceStateV::Moved),
        known(analyzer::apply_stmt(cx, w, s), name.name@) == Some(PlaceStateV::Owned),
{
    let t = sigs::opt_type(ty);
    assert(analyzer::let_sources(cx, w, t, e) =~= Seq::empty());
    let v = w.move_out(cx, n, e.span);
    ownership::moves_take_the_source(cx, w, n, e.span);
    ownership::lemma_move_out(cx, w, n, e.span);
    let u = match (t, Some(e)) {
        (None, Some(x)) => match infer::infer(cx.sigs, v.env(), x) {
            Some(g) => v.guess(name.name@, g),
            None => v,
        },
        _ => v,
    };
    let x = u.typed(name.name@, t);
    assert(tidy(x));
    lemma_own_other(x, name.name@, n);
}

/// Passing a moved value to a parameter that takes it moves it.
pub proof fn a_call_moves_what_it_takes(cx: CxV, w: WorldV, x: Expr, g: Seq<char>, n: Seq<char>)
    requires
        tidy(w),
        x.kind matches ExprKind::Call { callee, args, .. } && (callee.kind matches ExprKind::Ident(f) && f@ == g) && args@.len() == 1
            && (args@[0].kind matches ExprKind::Ident(m) && m@ == n),
        cx.sigs.fns.dom().contains(g),
        cx.sigs.fns[g].param_moves.len() > 0,
        cx.sigs.fns[g].param_moves[0],
        cx.sigs.fns[g].computed_ref_flows.len() == 0,
        w.non_copy(cx, n),
    ensures
        known(analyzer::apply_expr(cx, w, x), n) == Some(PlaceStateV::Moved),
{
    if let ExprKind::Call { callee, args, .. } = x.kind {
        let b = analyzer::apply_expr(cx, w, *callee);
        ownership::lemma_expr(cx, w, *callee);
        assert(b.state == w.state && b.live == w.live && b.from == w.from && b.types == w.types && b.inferred == w.inferred);
        let call = analyzer::call_info(cx, b.env(), *callee);
        let c = WorldV {
            diags: conflicts::call_conflicts(cx, b.env(), b.diags, args@, call.moves, call.muts, analyzer::receiver_of(*callee, call)),
            ..b
        };
        let f = c.check_ref_args(args@, call.muts, 0);
        lemma_ref_args(c, args@, call.muts, 0);
        assert(f.env() =~= w.env());
        assert(tidy(f));
        ownership::moves_take_the_source(cx, f, n, args@[0].span);
        reveal_with_fuel(analyzer::apply_args, 2);
        let h = f.move_out(cx, n, args@[0].span);
        assert(analyzer::arg_moves(cx, f, args@[0], call, 0));
        assert(analyzer::apply_args(cx, f, args@, call, 0) == analyzer::apply_args(cx, h, args@, call, 1));
        assert(analyzer::apply_args(cx, h, args@, call, 1) == h);
        assert(analyzer::flows_of(cx, *callee).len() == 0);
        assert(h.tie_receiver(cx, args@, call, callee.span) == h);
        assert(h.tie_flows(cx, args@, analyzer::flows_of(cx, *callee), callee.span, 0) == h);
        assert(!analyzer::is_enum_path(cx, *callee));
        assert(analyzer::apply_call(cx, w, x) == h);
        assert(analyzer::apply_expr(cx, w, x) == analyzer::apply_call(cx, w, x));
    }
}

proof fn lemma_ref_args(w: WorldV, args: Seq<Expr>, muts: Option<Seq<bool>>, i: nat)
    ensures
        ({
            let v = w.check_ref_args(args, muts, i);
            v.state == w.state && v.live == w.live && v.from == w.from && v.types == w.types && v.inferred == w.inferred
        }),
    decreases args.len() - i,
{
    if i < args.len() {
        let v = if conflicts::opt_flag(muts, i as int) {
            w.check_ref_arg(args[i as int])
        } else {
            w
        };
        lemma_ref_args(v, args, muts, i + 1);
    }
}

/// A moved value that is put into an aggregate is moved; so is one in an array or a tuple, and
/// in a field of a literal.
pub proof fn an_aggregate_moves_its_parts(cx: CxV, w: WorldV, x: Expr, e: Expr, n: Seq<char>)
    requires
        tidy(w),
        e.kind matches ExprKind::Ident(m) && m@ == n,
        w.non_copy(cx, n),
        match x.kind {
            ExprKind::ArrayLit { elements } => elements@ == seq![e],
            ExprKind::TupleLit { elements } => elements@ == seq![e],
            ExprKind::StructLit { fields, .. } => fields@.len() == 1 && fields@[0].value == e,
            ExprKind::InferredStructLit { fields } => fields@.len() == 1 && fields@[0].value == e,
            ExprKind::GenericStructLit { fields, .. } => fields@.len() == 1 && fields@[0].value == e,
            ExprKind::GenericEnumCall { enum_name, args, .. } => cx.sigs.enums.contains(enum_name.name@) && args@ == seq![e],
            _ => false,
        },
    ensures
        known(analyzer::apply_expr(cx, w, x), n) == Some(PlaceStateV::Moved),
{
    ownership::moves_take_the_source(cx, w, n, e.span);
    let v = w.move_out(cx, n, e.span);
    assert(analyzer::apply_elem(cx, w, e) == v);
    match x.kind {
        ExprKind::ArrayLit { elements } => lemma_one_elem(cx, w, elements@, e),
        ExprKind::TupleLit { elements } => lemma_one_elem(cx, w, elements@, e),
        ExprKind::StructLit { fields, .. } => lemma_one_field(cx, w, fields@, e),
        ExprKind::InferredStructLit { fields } => lemma_one_field(cx, w, fields@, e),
        ExprKind::GenericStructLit { fields, .. } => lemma_one_field(cx, w, fields@, e),
        ExprKind::GenericEnumCall { args, .. } => lemma_one_elem(cx, w, args@, e),
        _ => {},
    }
}

proof fn lemma_one_elem(cx: CxV, w: WorldV, es: Seq<Expr>, e: Expr)
    requires
        es == seq![e],
    ensures
        analyzer::apply_elems(cx, w, es, 0) == analyzer::apply_elem(cx, w, e),
{
    let v = analyzer::apply_elem(cx, w, es[0]);
    assert(analyzer::apply_elems(cx, w, es, 0) == analyzer::apply_elems(cx, v, es, 1));
    assert(analyzer::apply_elems(cx, v, es, 1) == v);
}

proof fn lemma_one_field(cx: CxV, w: WorldV, fs: Seq<FieldInit>, e: Expr)
    requires
        fs.len() == 1,
        fs[0].value == e,
    ensures
        analyzer::apply_fields(cx, w, fs, 0) == analyzer::apply_elem(cx, w, e),
{
    let v = analyzer::apply_elem(cx, w, fs[0].value);
    assert(analyzer::apply_fields(cx, w, fs, 0) == analyzer::apply_fields(cx, v, fs, 1));
    assert(analyzer::apply_fields(cx, v, fs, 1) == v);
}

/// Assigning to a moved binding makes it whole again.
pub proof fn assigning_makes_whole(cx: CxV, w: WorldV, x: Expr, n: Seq<char>)
    requires
        tidy(w),
        known(w, n) == Some(PlaceStateV::Moved),
        x.kind matches ExprKind::Assign { target, value, .. } && (target.kind matches ExprKind::Ident(m) && m@ == n)
            && value.kind is IntLit,
        !w.from.dom().contains(n),
    ensures
        known(analyzer::apply_expr(cx, w, x), n) == Some(PlaceStateV::Owned),
{
    if let ExprKind::Assign { target, value, .. } = x.kind {
        let b = w.check_write(*target);
        assert(b.state == w.state && b.from == w.from && b.live == w.live);
        let c = analyzer::apply_expr(cx, b, *value);
        assert(c == b);
        ordered::lemma_ord_put::<Place, PlaceStateV>(
            c.state,
            place::root_place(n),
            PlaceStateV::Owned,
            place::root_place(n),
        );
        let s = borrows::sources_of(cx, b.env(), *value);
        assert(s =~= Seq::empty());
        assert(analyzer::coerced_source(cx, c.own(n), *value) =~= Seq::empty());
    }
}

// ---------------------------------------------------------------------------
// Borrows.

/// Binding the result of a call that borrows from its argument borrows the argument: shared or
/// exclusively, as the function does.
pub proof fn a_let_borrows_from_the_argument(
    cx: CxV,
    w: WorldV,
    s: Stmt,
    name: Ident,
    ty: Option<Type>,
    e: Expr,
    g: Seq<char>,
    n: Seq<char>,
    flavor: BorrowFlavor,
)
    requires
        tidy(w),
        s.kind matches StmtKind::Let { name: a, ty: b, init: Some(c), .. } && a == name && b == ty && c == e,
        e.kind matches ExprKind::Call { callee, args, .. } && (callee.kind matches ExprKind::Ident(f) && f@ == g) && args@.len() == 1
            && (args@[0].kind matches ExprKind::Ident(m) && m@ == n),
        cx.sigs.fns.dom().contains(g),
        cx.sigs.fns[g].return_borrow == Some((ReturnBorrowSourceV::Param(0u32), flavor)),
    ensures
        match flavor {
            BorrowFlavor::Shared => known(analyzer::apply_stmt(cx, w, s), n) matches Some(PlaceStateV::BorrowedShared(_)),
            BorrowFlavor::Exclusive => known(analyzer::apply_stmt(cx, w, s), n) == Some(
                PlaceStateV::BorrowedExclusive(name.name@),
            ),
        },
        borrows::borrow_site(analyzer::apply_stmt(cx, w, s).live, place::root_place(n), name.name@) == Some(name.span),
{
    let t = sigs::opt_type(ty);
    let p = place::root_place(n);
    let src = analyzer::let_sources(cx, w, t, e);
    if let ExprKind::Call { callee, args, .. } = e.kind {
        let none: crate::borrows::SourcesV = Seq::empty();
        assert(place::place_of(args@[0]) == Some(p));
        assert(borrows::sources(cx, w.env(), none, e) == borrows::arg_sources(cx, w.env(), none, args@, 0, flavor));
        assert(borrows::arg_sources(cx, w.env(), none, args@, 0, flavor) == none.push((p, flavor)));
    }
    assert(src =~= seq![(p, flavor)]);
    let v = analyzer::apply_expr(cx, w, e);
    ownership::lemma_expr(cx, w, e);
    let u = match (t, Some(e)) {
        (None, Some(x)) => match infer::infer(cx.sigs, v.env(), x) {
            Some(k) => v.guess(name.name@, k),
            None => v,
        },
        _ => v,
    };
    let x = u.typed(name.name@, t);
    assert(tidy(x));
    let y = x.own(name.name@);
    ownership::lemma_put(x, place::root_place(name.name@), PlaceStateV::Owned);
    assert(tidy(y));
    lemma_acquire_one(y, p, flavor, name.name@, name.span);
}

proof fn lemma_acquire_one(w: WorldV, p: PlaceV, flavor: BorrowFlavor, borrower: Seq<char>, span: Span)
    requires
        tidy(w),
    ensures
        ({
            let v = w.acquire(seq![(p, flavor)], borrower, span);
            &&& match flavor {
                BorrowFlavor::Shared => place::st_get(v.state, p) matches Some(PlaceStateV::BorrowedShared(_)),
                BorrowFlavor::Exclusive => place::st_get(v.state, p) == Some(PlaceStateV::BorrowedExclusive(borrower)),
            }
            &&& borrows::borrow_site(v.live, p, borrower) == Some(span)
        }),
{
    let one = seq![(p, flavor)];
    reveal_with_fuel(borrows::first_places, 2);
    reveal_with_fuel(WorldV::claim_all, 2);
    assert(!borrows::has_place(Seq::empty(), p));
    assert(borrows::first_places(Seq::empty(), one, 0) =~= one);
    let s = borrows::borrowers_at(w.live, p);
    lemma_borrowers_sorted(w, p);
    let set = ordered::ord_put::<String, Span>(s, borrower, span);
    ordered::lemma_ord_put::<String, Span>(s, borrower, span, borrower);
    ordered::lemma_ord_put::<Place, Seq<(Seq<char>, Span)>>(w.live, p, set, p);
    ordered::lemma_ord_put::<Place, PlaceStateV>(w.state, p, PlaceStateV::BorrowedShared(set.len() as u32), p);
    ordered::lemma_ord_put::<Place, PlaceStateV>(w.state, p, PlaceStateV::BorrowedExclusive(borrower), p);
}

proof fn lemma_borrowers_sorted(w: WorldV, p: PlaceV)
    requires
        tidy(w),
    ensures
        ordered::ord_sorted::<String, Span>(borrows::borrowers_at(w.live, p)),
{
    if ordered::ord_has::<Place, Seq<(Seq<char>, Span)>>(w.live, p) {
        let k = ordered::ord_pos::<Place, Seq<(Seq<char>, Span)>>(w.live, p, 0) as int;
        assert(ordered::ord_sorted::<String, Span>(w.live[k].1));
    }
}

// ---------------------------------------------------------------------------
// Uses that are reported.

/// Using a binding that may have been moved is reported where it is read.
pub proof fn reading_in_doubt_is_reported(cx: CxV, w: WorldV, e: Expr, n: Seq<char>)
    requires
        e.kind matches ExprKind::Ident(m) && m@ == n,
        known(w, n) == Some(PlaceStateV::MaybePartial),
        w.non_copy(cx, n),
    ensures
        analyzer::apply_expr(cx, w, e).diags == w.diags.push(messages::maybe_moved(n, e.span)),
        messages::maybe_moved(n, e.span).code == "E0371"@,
        messages::maybe_moved(n, e.span).primary == e.span,
{
}

/// So is passing it on to a parameter that takes it.
pub proof fn passing_in_doubt_is_reported(cx: CxV, w: WorldV, x: Expr, g: Seq<char>, n: Seq<char>)
    requires
        x.kind matches ExprKind::Call { callee, args, .. } && (callee.kind matches ExprKind::Ident(f) && f@ == g) && args@.len() == 1
            && (args@[0].kind matches ExprKind::Ident(m) && m@ == n),
        cx.sigs.fns.dom().contains(g),
        known(w, n) == Some(PlaceStateV::MaybePartial),
        w.non_copy(cx, n),
    ensures
        exists|d: RawDiagV|
            #![trigger d.code]
            analyzer::apply_expr(cx, w, x).diags.contains(d) && d.code == "E0371"@,
{
    if let ExprKind::Call { callee, args, .. } = x.kind {
        let d = messages::maybe_moved(n, args@[0].span);
        let b = analyzer::apply_expr(cx, w, *callee);
        assert(b.state == w.state && b.live == w.live && b.from == w.from && b.types == w.types && b.inferred == w.inferred);
        let call = analyzer::call_info(cx, b.env(), *callee);
        let c = WorldV {
            diags: conflicts::call_conflicts(cx, b.env(), b.diags, args@, call.moves, call.muts, analyzer::receiver_of(*callee, call)),
            ..b
        };
        let f = c.check_ref_args(args@, call.muts, 0);
        lemma_ref_args(c, args@, call.muts, 0);
        assert(f.env() =~= w.env());
        reveal_with_fuel(analyzer::apply_args, 2);
        let h = analyzer::apply_args(cx, f, args@, call, 0);
        let k = f.check_doubt(cx, n, args@[0].span);
        assert(k.diags[f.diags.len() as int] == d);
        assert(h.diags.contains(d)) by {
            if analyzer::arg_moves(cx, f, args@[0], call, 0) {
                let m = k.check_move(n, args@[0].span);
                assert(m.diags[f.diags.len() as int] == d);
                let y = WorldV {
                    state: place::st_put(m.state, place::root_place(n), PlaceStateV::Moved),
                    live: borrows::live_del(m.live, place::root_place(n)),
                    ..m
                };
                lemma_quiet_drop(y, n);
            } else {
                assert(h.diags == f.diags.push(d));
                assert(h.diags[f.diags.len() as int] == d);
            }
        }
        let g2 = h.tie_receiver(cx, args@, call, callee.span);
        ownership::lemma_tie_receiver(h, cx, args@, call, callee.span);
        ownership::lemma_tie_flows(g2, cx, args@, analyzer::flows_of(cx, *callee), callee.span, 0);
        let q = choose|q: int| 0 <= q < h.diags.len() && h.diags[q] == d;
        assert(g2.diags[q] == d);
        assert(analyzer::apply_call(cx, w, x).diags[q] == d);
        assert(analyzer::apply_expr(cx, w, x).diags.contains(d));
        assert(d.code == "E0371"@);
    }
}

proof fn lemma_quiet_drop(w: WorldV, name: Seq<char>)
    ensures
        w.drop_borrower(name).diags == w.diags,
{
    if w.from.dom().contains(name) {
        lemma_quiet_release(WorldV { from: w.from.remove(name), ..w }, w.from[name], name, 0);
    }
}

proof fn lemma_quiet_release(w: WorldV, ps: Seq<PlaceV>, borrower: Seq<char>, i: nat)
    ensures
        w.release_all(ps, borrower, i).diags == w.diags,
    decreases ps.len() - i,
{
    if i < ps.len() {
        lemma_quiet_release(w.release(ps[i as int], borrower), ps, borrower, i + 1);
    }
}

/// Assigning to a place of a binding that another borrows is reported.
pub proof fn writing_a_borrowed_binding_is_reported(cx: CxV, w: WorldV, x: Expr, n: Seq<char>, k: int)
    requires
        tidy(w),
        x.kind matches ExprKind::Assign { target, .. } && (place::place_of(*target) matches Some(p) && p.root == n)
            && !(target.kind is Index),
        known(w, n) matches Some(st) && (st is BorrowedShared || st is BorrowedExclusive),
        0 <= k < w.live.len(),
        w.live[k].0 == place::root_place(n),
        w.live[k].1.len() > 0,
    ensures
        exists|d: RawDiagV|
            #![trigger d.code]
            analyzer::apply_expr(cx, w, x).diags.contains(d) && d.code == "E0381"@,
{
    if let ExprKind::Assign { target, value, .. } = x.kind {
        let heal = analyzer::heals(w, *target);
        assert(!heal);
        let a = analyzer::apply_expr(cx, w, *target);
        assert(a.state == w.state && a.live == w.live);
        lemma_live_at(w, k);
        let (b, at) = w.live[k].1[0];
        let d = messages::write_while_borrowed(n, b, target.span, at);
        let c = a.check_write(*target);
        assert(c.diags == a.diags.push(d));
        assert(c.diags[a.diags.len() as int] == d);
        let s = borrows::sources_of(cx, c.env(), *value);
        let f = analyzer::apply_expr(cx, c, *value);
        ownership::lemma_expr(cx, c, *value);
        ownership::lemma_rebind(f, cx, *target, *value, s);
        assert(f.diags[a.diags.len() as int] == d);
        assert(analyzer::apply_expr(cx, w, x).diags[a.diags.len() as int] == d);
        assert(d.code == "E0381"@);
    }
}

proof fn lemma_live_at(w: WorldV, k: int)
    requires
        tidy(w),
        0 <= k < w.live.len(),
    ensures
        borrows::live_get(w.live, w.live[k].0) == Some(w.live[k].1),
{
    ordered::lemma_ord_has::<Place, Seq<(Seq<char>, Span)>>(w.live, w.live[k].0);
    let p = ordered::ord_pos::<Place, Seq<(Seq<char>, Span)>>(w.live, w.live[k].0, 0) as int;
    <Place as ordered::OrdKey>::lt_irreflexive(w.live[k].0);
    if p < k {
        assert(<Place as ordered::OrdKey>::lt(w.live[p].0, w.live[k].0));
    } else if k < p {
        assert(<Place as ordered::OrdKey>::lt(w.live[k].0, w.live[p].0));
    }
}

/// Calling a method that changes or takes its receiver is reported while the receiver is
/// borrowed.
pub proof fn changing_a_borrowed_receiver_is_reported(cx: CxV, w: WorldV, x: Expr, n: Seq<char>, t: TypeV, base: Seq<char>, m: Seq<char>)
    requires
        x.kind matches ExprKind::Call { callee, .. } && (callee.kind matches ExprKind::Field { receiver, name } && name.name@ == m && (
        receiver.kind matches ExprKind::Ident(r) && r@ == n)),
        w.env().dom().contains(n),
        w.env()[n] == t,
        crate::flow::nominal(t.kind) == Some(base),
        cx.sigs.method(base, m) matches Some(entry) && (entry.receiver_claim == Some(ClaimKind::Exclusive) || entry.receiver_claim
            == Some(ClaimKind::Move)),
        known(w, n) matches Some(PlaceStateV::BorrowedShared(_)),
    ensures
        exists|d: RawDiagV|
            #![trigger d.code]
            analyzer::apply_expr(cx, w, x).diags.contains(d) && d.code == "E0381"@,
{
    if let ExprKind::Call { callee, args, .. } = x.kind {
        if let ExprKind::Field { receiver, name } = callee.kind {
            let a = w.check_receiver(cx, *receiver, m);
            let d = match borrows::first_borrower(w.live, place::root_place(n)) {
                Some((b, at)) => messages::call_while_shared(n, m, b, receiver.span, Some(at)),
                None => messages::call_while_shared(n, m, "(unknown)"@, receiver.span, None),
            };
            assert(a.diags == w.diags.push(d));
            assert(a.diags[w.diags.len() as int] == d);
            lemma_after_receiver(cx, w, a, x);
            assert(analyzer::apply_expr(cx, w, x).diags[w.diags.len() as int] == d);
            assert(d.code == "E0381"@);
        }
    }
}

/// What the receiver leads to stays reported when the call goes on.
proof fn lemma_after_receiver(cx: CxV, w: WorldV, a: WorldV, x: Expr)
    requires
        x.kind matches ExprKind::Call { callee, .. } && (callee.kind matches ExprKind::Field { receiver, name } && a
            == w.check_receiver(cx, *receiver, name.name@)),
    ensures
        a.diags.is_prefix_of(analyzer::apply_expr(cx, w, x).diags),
{
    assert(analyzer::apply_expr(cx, w, x) == analyzer::apply_call(cx, w, x));
    if let ExprKind::Call { callee, args, .. } = x.kind {
        let b = analyzer::apply_expr(cx, a, *callee);
        ownership::lemma_expr(cx, a, *callee);
        if analyzer::is_enum_path(cx, *callee) {
            ownership::lemma_elems(cx, b, args@, 0);
        } else {
            let call = analyzer::call_info(cx, b.env(), *callee);
            let c = WorldV {
                diags: conflicts::call_conflicts(cx, b.env(), b.diags, args@, call.moves, call.muts, analyzer::receiver_of(*callee, call)),
                ..b
            };
            ownership::lemma_call_conflicts(cx, b.env(), b.diags, args@, call.moves, call.muts, analyzer::receiver_of(*callee, call));
            let f = c.check_ref_args(args@, call.muts, 0);
            ownership::lemma_check_ref_args(c, args@, call.muts, 0);
            let g = analyzer::apply_args(cx, f, args@, call, 0);
            ownership::lemma_args(cx, f, args@, call, 0);
            let h = g.tie_receiver(cx, args@, call, callee.span);
            ownership::lemma_tie_receiver(g, cx, args@, call, callee.span);
            ownership::lemma_tie_flows(h, cx, args@, analyzer::flows_of(cx, *callee), callee.span, 0);
        }
    }
}

} // verus!
