//! What every step of the ownership analysis keeps.
use vstd::prelude::*;
use crate::analyzer;
use crate::borrows;
use crate::conflicts;
use crate::infer;
use crate::messages;
use crate::ordered;
use crate::place;
use crate::sigs;
use crate::text;
use crate::walks;
use crate::analyzer::CallV;
use crate::ast::{AsmOperand, Block, Expr, ExprKind, FieldInit, ForLoop, Ident, InterpStrPart, MatchArm, Param, Receiver, Span, Stmt, StmtKind, TypeKindV, TypeV};
use crate::borrows::{CxV, LiveV, SourcesV, WorldV};
use crate::conflicts::ArgClaimV;
use crate::elision::BorrowFlavor;
use crate::messages::RawDiagV;
use crate::ordered::{NameListV, OrdKey};
use crate::place::{FunctionAnalysisV, Place, PlaceOverlap, PlaceStateV, PlaceV, PointSnapshotV, ProjectionV, StateV};
use crate::sigs::ClaimKind;

verus! {

/// Every list of borrowers is in order.
pub open spec fn sets_in_order(l: LiveV) -> bool {
    forall|k: int| 0 <= k < l.len() ==> ordered::ord_sorted::<String, Span>((#[trigger] l[k]).1)
}

/// The states and the borrows list each place once, in order.
pub open spec fn tidy(w: WorldV) -> bool {
    &&& ordered::ord_sorted::<Place, PlaceStateV>(w.state)
    &&& ordered::ord_sorted::<Place, Seq<(Seq<char>, Span)>>(w.live)
    &&& sets_in_order(w.live)
}

/// A later world: nothing that was reported is withdrawn, and places stay in order.
pub open spec fn follows(w: WorldV, v: WorldV) -> bool {
    &&& w.diags.is_prefix_of(v.diags)
    &&& tidy(w) ==> tidy(v)
}

pub proof fn lemma_chain(a: WorldV, b: WorldV, c: WorldV)
    requires
        follows(a, b),
        follows(b, c),
    ensures
        follows(a, c),
{
}

pub proof fn lemma_put(w: WorldV, p: PlaceV, s: PlaceStateV)
    ensures
        follows(w, w.put(p, s)),
{
    if tidy(w) {
        ordered::lemma_ord_put::<Place, PlaceStateV>(w.state, p, s, p);
    }
}

// ---------------------------------------------------------------------------
// Borrows.

proof fn lemma_live_put(l: LiveV, p: PlaceV, s: Seq<(Seq<char>, Span)>)
    requires
        ordered::ord_sorted::<Place, Seq<(Seq<char>, Span)>>(l),
        sets_in_order(l),
        ordered::ord_sorted::<String, Span>(s),
    ensures
        ordered::ord_sorted::<Place, Seq<(Seq<char>, Span)>>(borrows::live_put(l, p, s)),
        sets_in_order(borrows::live_put(l, p, s)),
{
    ordered::lemma_ord_put::<Place, Seq<(Seq<char>, Span)>>(l, p, s, p);
    ordered::lemma_pos::<Place, Seq<(Seq<char>, Span)>>(l, p, 0);
    let at = ordered::ord_pos::<Place, Seq<(Seq<char>, Span)>>(l, p, 0) as int;
    let r = borrows::live_put(l, p, s);
    assert forall|k: int| 0 <= k < r.len() implies ordered::ord_sorted::<String, Span>((#[trigger] r[k]).1) by {
        if k != at {
            if r.len() == l.len() || k < at {
                assert(r[k] == l[k]);
            } else {
                assert(r[k] == l[k - 1]);
            }
        }
    }
}

proof fn lemma_live_del(l: LiveV, p: PlaceV)
    requires
        ordered::ord_sorted::<Place, Seq<(Seq<char>, Span)>>(l),
        sets_in_order(l),
    ensures
        ordered::ord_sorted::<Place, Seq<(Seq<char>, Span)>>(borrows::live_del(l, p)),
        sets_in_order(borrows::live_del(l, p)),
{
    ordered::lemma_ord_del::<Place, Seq<(Seq<char>, Span)>>(l, p, p);
    let at = ordered::ord_pos::<Place, Seq<(Seq<char>, Span)>>(l, p, 0) as int;
    let r = borrows::live_del(l, p);
    assert forall|k: int| 0 <= k < r.len() implies ordered::ord_sorted::<String, Span>((#[trigger] r[k]).1) by {
        if r.len() == l.len() || k < at {
            assert(r[k] == l[k]);
        } else {
            assert(r[k] == l[k + 1]);
        }
    }
}

proof fn lemma_claim(w: WorldV, p: PlaceV, flavor: BorrowFlavor, borrower: Seq<char>, span: Span)
    ensures
        follows(w, w.claim(p, flavor, borrower, span)),
{
    if tidy(w) {
        let s = borrows::borrowers_at(w.live, p);
        let set = ordered::ord_put::<String, Span>(s, borrower, span);
        ordered::lemma_ord_put::<String, Span>(s, borrower, span, borrower);
        lemma_live_put(w.live, p, set);
        let state = w.claim(p, flavor, borrower, span).state;
        ordered::lemma_ord_put::<Place, PlaceStateV>(w.state, p, PlaceStateV::BorrowedShared(set.len() as u32), p);
        ordered::lemma_ord_put::<Place, PlaceStateV>(w.state, p, PlaceStateV::BorrowedExclusive(borrower), p);
    }
}

proof fn lemma_claim_all(w: WorldV, ps: SourcesV, borrower: Seq<char>, span: Span, i: nat)
    ensures
        follows(w, w.claim_all(ps, borrower, span, i)),
    decreases ps.len() - i,
{
    if i < ps.len() {
        let v = w.claim(ps[i as int].0, ps[i as int].1, borrower, span);
        lemma_claim(w, ps[i as int].0, ps[i as int].1, borrower, span);
        lemma_claim_all(v, ps, borrower, span, i + 1);
        lemma_chain(w, v, w.claim_all(ps, borrower, span, i));
    }
}

proof fn lemma_acquire_some(w: WorldV, ps: SourcesV, borrower: Seq<char>, span: Span)
    ensures
        follows(w, w.acquire_some(ps, borrower, span)),
{
    let unique = borrows::first_places(Seq::empty(), ps, 0);
    lemma_claim_all(WorldV { from: w.from.insert(borrower, borrows::places_in(unique)), ..w }, unique, borrower, span, 0);
}

proof fn lemma_extend(w: WorldV, ps: SourcesV, borrower: Seq<char>, span: Span)
    ensures
        follows(w, w.extend(ps, borrower, span)),
{
    let unique = borrows::first_places(Seq::empty(), ps, 0);
    let back = match sigs::look(w.from, borrower) {
        Some(b) => b,
        None => Seq::empty(),
    };
    lemma_claim_all(WorldV { from: w.from.insert(borrower, borrows::add_places(back, unique, 0)), ..w }, unique, borrower, span, 0);
}

proof fn lemma_release(w: WorldV, p: PlaceV, borrower: Seq<char>)
    ensures
        follows(w, w.release(p, borrower)),
{
    if tidy(w) {
        if let Some(s) = borrows::live_get(w.live, p) {
            let rest = ordered::ord_del::<String, Span>(s, borrower);
            ordered::lemma_ord_del::<String, Span>(s, borrower, borrower);
            lemma_live_del(w.live, p);
            lemma_live_put(w.live, p, rest);
            ordered::lemma_ord_put::<Place, PlaceStateV>(w.state, p, PlaceStateV::Owned, p);
            ordered::lemma_ord_put::<Place, PlaceStateV>(w.state, p, PlaceStateV::BorrowedShared(rest.len() as u32), p);
        }
    }
}

proof fn lemma_release_all(w: WorldV, ps: Seq<PlaceV>, borrower: Seq<char>, i: nat)
    ensures
        follows(w, w.release_all(ps, borrower, i)),
    decreases ps.len() - i,
{
    if i < ps.len() {
        let v = w.release(ps[i as int], borrower);
        lemma_release(w, ps[i as int], borrower);
        lemma_release_all(v, ps, borrower, i + 1);
        lemma_chain(w, v, w.release_all(ps, borrower, i));
    }
}

proof fn lemma_drop_borrower(w: WorldV, borrower: Seq<char>)
    ensures
        follows(w, w.drop_borrower(borrower)),
{
    if w.from.dom().contains(borrower) {
        lemma_release_all(WorldV { from: w.from.remove(borrower), ..w }, w.from[borrower], borrower, 0);
    }
}

pub proof fn lemma_release_after(w: WorldV, uses: Seq<(Seq<char>, nat)>, i: nat, k: nat)
    ensures
        follows(w, w.release_after(uses, i, k)),
    decreases uses.len() - k,
{
    if k < uses.len() {
        let v = if uses[k as int].1 == i {
            w.drop_borrower(uses[k as int].0)
        } else {
            w
        };
        lemma_drop_borrower(w, uses[k as int].0);
        lemma_release_after(v, uses, i, k + 1);
        lemma_chain(w, v, w.release_after(uses, i, k));
    }
}

// ---------------------------------------------------------------------------
// Scopes and branches.

proof fn lemma_retained(acc: StateV, s: StateV, outer: StateV, i: nat)
    requires
        ordered::ord_sorted::<Place, PlaceStateV>(s),
        ordered::ord_sorted::<Place, PlaceStateV>(acc),
        forall|a: int, b: int|
            0 <= a < acc.len() && i <= b < s.len() ==> <Place as OrdKey>::lt((#[trigger] acc[a]).0, (#[trigger] s[b]).0),
    ensures
        ordered::ord_sorted::<Place, PlaceStateV>(analyzer::retained(acc, s, outer, i)),
    decreases s.len() - i,
{
    if i < s.len() {
        let next = if place::st_has(outer, s[i as int].0) {
            acc.push(s[i as int])
        } else {
            acc
        };
        assert forall|a: int, b: int| 0 <= a < b < next.len() implies <Place as OrdKey>::lt(
            (#[trigger] next[a]).0,
            (#[trigger] next[b]).0,
        ) by {
            assert(next[a] == acc[a]);
            if b < acc.len() {
                assert(next[b] == acc[b]);
            }
        }
        assert forall|a: int, b: int| 0 <= a < next.len() && i + 1 <= b < s.len() implies <Place as OrdKey>::lt(
            (#[trigger] next[a]).0,
            (#[trigger] s[b]).0,
        ) by {
            if a < acc.len() {
                assert(next[a] == acc[a]);
            }
        }
        lemma_retained(next, s, outer, i + 1);
    }
}

/// What a scope leaves is in order.
proof fn lemma_retain(s: StateV, outer: StateV)
    requires
        ordered::ord_sorted::<Place, PlaceStateV>(s),
    ensures
        ordered::ord_sorted::<Place, PlaceStateV>(analyzer::retain(s, outer)),
{
    lemma_retained(Seq::empty(), s, outer, 0);
}

proof fn lemma_live_without(acc: LiveV, l: LiveV, dying: NameListV, i: nat)
    requires
        ordered::ord_sorted::<Place, Seq<(Seq<char>, Span)>>(l),
        sets_in_order(l),
        ordered::ord_sorted::<Place, Seq<(Seq<char>, Span)>>(acc),
        sets_in_order(acc),
        forall|a: int, b: int|
            0 <= a < acc.len() && i <= b < l.len() ==> <Place as OrdKey>::lt((#[trigger] acc[a]).0, (#[trigger] l[b]).0),
    ensures
        ordered::ord_sorted::<Place, Seq<(Seq<char>, Span)>>(analyzer::live_without(acc, l, dying, i)),
        sets_in_order(analyzer::live_without(acc, l, dying, i)),
    decreases l.len() - i,
{
    if i < l.len() {
        let next = if analyzer::listed(dying, l[i as int].0.root) {
            acc
        } else {
            acc.push(l[i as int])
        };
        assert forall|a: int, b: int| 0 <= a < b < next.len() implies <Place as OrdKey>::lt(
            (#[trigger] next[a]).0,
            (#[trigger] next[b]).0,
        ) by {
            assert(next[a] == acc[a]);
            if b < acc.len() {
                assert(next[b] == acc[b]);
            }
        }
        assert forall|a: int, b: int| 0 <= a < next.len() && i + 1 <= b < l.len() implies <Place as OrdKey>::lt(
            (#[trigger] next[a]).0,
            (#[trigger] l[b]).0,
        ) by {
            if a < acc.len() {
                assert(next[a] == acc[a]);
            }
        }
        assert forall|k: int| 0 <= k < next.len() implies ordered::ord_sorted::<String, Span>((#[trigger] next[k]).1) by {
            if k < acc.len() {
                assert(next[k] == acc[k]);
            }
        }
        lemma_live_without(next, l, dying, i + 1);
    }
}

proof fn lemma_escapes(acc: Seq<RawDiagV>, l: LiveV, dying: NameListV, seen: Set<Seq<char>>, i: nat)
    ensures
        acc.is_prefix_of(analyzer::escapes(acc, l, dying, seen, i)),
    decreases l.len() - i,
{
    if i < l.len() {
        let owner = l[i as int].0.root;
        let set = l[i as int].1;
        if !analyzer::listed(dying, owner) || seen.contains(owner) {
            lemma_escapes(acc, l, dying, seen, i + 1);
        } else if set.len() > 0 {
            let next = acc.push(messages::outlived(owner, set[0].0, set[0].1));
            assert(acc.is_prefix_of(next));
            lemma_escapes(next, l, dying, seen.insert(owner), i + 1);
        } else {
            lemma_escapes(acc, l, dying, seen.insert(owner), i + 1);
        }
    }
}

proof fn lemma_drop_names(w: WorldV, names: NameListV, i: nat)
    ensures
        follows(w, w.drop_names(names, i)),
    decreases names.len() - i,
{
    if i < names.len() {
        let v = w.drop_borrower(names[i as int].0);
        lemma_drop_borrower(w, names[i as int].0);
        lemma_drop_names(v, names, i + 1);
        lemma_chain(w, v, w.drop_names(names, i));
    }
}

pub proof fn lemma_end_scope(w: WorldV, outer: StateV)
    ensures
        follows(w, w.end_scope(outer)),
{
    let dying = analyzer::dying_roots(Seq::empty(), w.state, outer, 0);
    let v = w.drop_names(dying, 0);
    lemma_drop_names(w, dying, 0);
    lemma_escapes(v.diags, v.live, dying, Set::empty(), 0);
    if tidy(v) {
        lemma_live_without(Seq::empty(), v.live, dying, 0);
        lemma_retain(v.state, outer);
    }
    lemma_chain(w, v, w.end_scope(outer));
}

/// Merging keeps the order of the places.
pub proof fn lemma_merge(pre: StateV, arms: Seq<StateV>, leaves: Seq<bool>)
    requires
        ordered::ord_sorted::<Place, PlaceStateV>(pre),
    ensures
        ordered::ord_sorted::<Place, PlaceStateV>(analyzer::merge_arms(pre, arms, leaves)),
{
    let r = analyzer::merge_arms(pre, arms, leaves);
    analyzer::merge_keeps_places(pre, arms, leaves);
    assert forall|a: int, b: int| 0 <= a < b < r.len() implies <Place as OrdKey>::lt(
        (#[trigger] r[a]).0,
        (#[trigger] r[b]).0,
    ) by {
        assert(r[a].0 == pre[a].0 && r[b].0 == pre[b].0);
    }
}

// ---------------------------------------------------------------------------
// Single accesses and calls.

pub proof fn lemma_move_out(cx: CxV, w: WorldV, name: Seq<char>, span: Span)
    ensures
        follows(w, w.move_out(cx, name, span)),
{
    let v = w.check_doubt(cx, name, span).check_move(name, span);
    assert(follows(w, v));
    if v.non_copy(cx, name) {
        let u = WorldV {
            state: place::st_put(v.state, place::root_place(name), PlaceStateV::Moved),
            live: borrows::live_del(v.live, place::root_place(name)),
            ..v
        };
        if tidy(v) {
            ordered::lemma_ord_put::<Place, PlaceStateV>(v.state, place::root_place(name), PlaceStateV::Moved, place::root_place(name));
            lemma_live_del(v.live, place::root_place(name));
        }
        assert(follows(v, u));
        lemma_drop_borrower(u, name);
        lemma_chain(v, u, u.drop_borrower(name));
        lemma_chain(w, v, u.drop_borrower(name));
    }
}

pub proof fn lemma_check_ref_args(w: WorldV, args: Seq<Expr>, muts: Option<Seq<bool>>, i: nat)
    ensures
        follows(w, w.check_ref_args(args, muts, i)),
    decreases args.len() - i,
{
    if i < args.len() {
        let v = if conflicts::opt_flag(muts, i as int) {
            w.check_ref_arg(args[i as int])
        } else {
            w
        };
        assert(follows(w, v));
        lemma_check_ref_args(v, args, muts, i + 1);
        lemma_chain(w, v, w.check_ref_args(args, muts, i));
    }
}

pub proof fn lemma_tie_flows(w: WorldV, cx: CxV, args: Seq<Expr>, flows: Seq<(usize, usize)>, span: Span, k: nat)
    ensures
        follows(w, w.tie_flows(cx, args, flows, span, k)),
    decreases flows.len() - k,
{
    if k < flows.len() {
        let src = flows[k as int].0;
        let dst = flows[k as int].1;
        let v = w.tie_flow(cx, args, src, dst, span);
        assert(follows(w, v)) by {
            if dst < args.len() && src < args.len() {
                if let Some(d) = place::place_of(args[dst as int]) {
                    let s = analyzer::not_rooted(
                        Seq::empty(),
                        analyzer::lent_by(cx, w, args[src as int], BorrowFlavor::Shared, false),
                        d.root,
                        0,
                    );
                    lemma_extend(w, s, d.root, span);
                }
            }
        }
        lemma_tie_flows(v, cx, args, flows, span, k + 1);
        lemma_chain(w, v, w.tie_flows(cx, args, flows, span, k));
    }
}

pub proof fn lemma_tie_receiver(w: WorldV, cx: CxV, args: Seq<Expr>, call: CallV, span: Span)
    ensures
        follows(w, w.tie_receiver(cx, args, call, span)),
{
    if let Some((root, flags)) = call.tie {
        lemma_extend(w, analyzer::tie_sources(cx, w, Seq::empty(), args, call.muts, flags, root, 0), root, span);
    }
}

pub proof fn lemma_receiver_conflicts(
    cx: CxV,
    env: Map<Seq<char>, TypeV>,
    acc: Seq<RawDiagV>,
    rc: ArgClaimV,
    claims: Seq<Option<ArgClaimV>>,
    args: Seq<Expr>,
    j: nat,
)
    ensures
        acc.is_prefix_of(conflicts::receiver_conflicts(cx, env, acc, rc, claims, args, j)),
    decreases args.len() - j,
{
    if j < args.len() {
        let next = conflicts::push_opt(acc, conflicts::receiver_conflict(cx, env, rc, claims[j as int], args[j as int]));
        assert(acc.is_prefix_of(next));
        lemma_receiver_conflicts(cx, env, next, rc, claims, args, j + 1);
    }
}

pub proof fn lemma_row_conflicts(
    cx: CxV,
    env: Map<Seq<char>, TypeV>,
    acc: Seq<RawDiagV>,
    a: ArgClaimV,
    i: nat,
    claims: Seq<Option<ArgClaimV>>,
    args: Seq<Expr>,
    j: nat,
)
    ensures
        acc.is_prefix_of(conflicts::row_conflicts(cx, env, acc, a, i, claims, args, j)),
    decreases args.len() - j,
{
    if j < args.len() {
        let next = conflicts::push_opt(acc, conflicts::pair_conflict(cx, env, a, i, claims, args, j));
        assert(acc.is_prefix_of(next));
        lemma_row_conflicts(cx, env, next, a, i, claims, args, j + 1);
    }
}

pub proof fn lemma_all_conflicts(
    cx: CxV,
    env: Map<Seq<char>, TypeV>,
    acc: Seq<RawDiagV>,
    claims: Seq<Option<ArgClaimV>>,
    args: Seq<Expr>,
    i: nat,
)
    ensures
        acc.is_prefix_of(conflicts::all_conflicts(cx, env, acc, claims, args, i)),
    decreases args.len() - i,
{
    if i < args.len() {
        let next = match claims[i as int] {
            Some(a) => conflicts::row_conflicts(cx, env, acc, a, i, claims, args, 0),
            None => acc,
        };
        if let Some(a) = claims[i as int] {
            lemma_row_conflicts(cx, env, acc, a, i, claims, args, 0);
        }
        lemma_all_conflicts(cx, env, next, claims, args, i + 1);
    }
}

pub proof fn lemma_call_conflicts(
    cx: CxV,
    env: Map<Seq<char>, TypeV>,
    acc: Seq<RawDiagV>,
    args: Seq<Expr>,
    moves: Option<Seq<bool>>,
    muts: Option<Seq<bool>>,
    receiver: Option<(ClaimKind, Expr)>,
)
    ensures
        acc.is_prefix_of(conflicts::call_conflicts(cx, env, acc, args, moves, muts, receiver)),
{
    let claims = conflicts::claims_of(cx, env, args, moves, muts);
    let next = match receiver {
        Some((kind, r)) => match conflicts::receiver_claim(cx, env, kind, r) {
            Some(rc) => conflicts::receiver_conflicts(cx, env, acc, rc, claims, args, 0),
            None => acc,
        },
        None => acc,
    };
    if let Some((kind, r)) = receiver {
        if let Some(rc) = conflicts::receiver_claim(cx, env, kind, r) {
            lemma_receiver_conflicts(cx, env, acc, rc, claims, args, 0);
        }
    }
    lemma_all_conflicts(cx, env, next, claims, args, 0);
}

// ---------------------------------------------------------------------------
// Bindings.

pub proof fn lemma_bind_let(w: WorldV, cx: CxV, name: Ident, ty: Option<TypeV>, init: Option<Expr>, s: SourcesV)
    ensures
        follows(w, w.bind_let(cx, name, ty, init, s)),
{
    let v = match (ty, init) {
        (None, Some(e)) => match infer::infer(cx.sigs, w.env(), e) {
            Some(t) => w.guess(name.name@, t),
            None => w,
        },
        _ => w,
    };
    let u = v.typed(name.name@, ty);
    lemma_put(u, place::root_place(name.name@), PlaceStateV::Owned);
    lemma_acquire_some(u.own(name.name@), s, name.name@, name.span);
}

proof fn lemma_guess_fields(w: WorldV, fs: Map<Seq<char>, TypeV>, ids: Seq<Ident>, i: nat)
    ensures
        follows(w, w.guess_fields(fs, ids, i)),
    decreases ids.len() - i,
{
    if i < ids.len() {
        let v = match sigs::look(fs, ids[i as int].name@) {
            Some(t) => w.guess(ids[i as int].name@, t),
            None => w,
        };
        lemma_guess_fields(v, fs, ids, i + 1);
    }
}

pub proof fn lemma_guess_destructured(w: WorldV, cx: CxV, ids: Seq<Ident>, init: Expr)
    ensures
        follows(w, w.guess_destructured(cx, ids, init)),
{
    match infer::infer(cx.sigs, w.env(), init) {
        Some(TypeV { kind: TypeKindV::Path(s), .. }) => {
            if let Some(fs) = sigs::look(cx.sigs.struct_fields, s) {
                lemma_guess_fields(w, fs, ids, 0);
            }
        },
        _ => {},
    }
}

pub proof fn lemma_bind_fields(w: WorldV, ids: Seq<Ident>, s: SourcesV, i: nat)
    ensures
        follows(w, w.bind_fields(ids, s, i)),
    decreases ids.len() - i,
{
    if i < ids.len() {
        let id = ids[i as int];
        let t = w.typed(id.name@, None);
        let u = t.own(id.name@);
        let v = u.acquire_some(s, id.name@, id.span);
        lemma_put(t, place::root_place(id.name@), PlaceStateV::Owned);
        lemma_acquire_some(u, s, id.name@, id.span);
        lemma_bind_fields(v, ids, s, i + 1);
        lemma_chain(w, u, v);
        lemma_chain(w, v, w.bind_fields(ids, s, i));
    }
}

pub proof fn lemma_rebind(w: WorldV, cx: CxV, target: Expr, value: Expr, s: SourcesV)
    ensures
        follows(w, w.rebind(cx, target, value, s)),
{
    match target.kind {
        ExprKind::Ident(n) => {
            let v = w.drop_borrower(n@);
            lemma_drop_borrower(w, n@);
            let t = if s.len() == 0 && analyzer::is_view_opt(sigs::look(v.env(), n@)) {
                analyzer::coerced_source(cx, v, value)
            } else {
                s
            };
            lemma_acquire_some(v, t, n@, target.span);
            lemma_chain(w, v, w.rebind(cx, target, value, s));
        },
        _ => {
            if let Some(p) = place::place_of(target) {
                lemma_acquire_some(w, s, p.root, target.span);
            }
        },
    }
}

// ---------------------------------------------------------------------------
// Expressions and statements.

pub proof fn lemma_exprs(cx: CxV, w: WorldV, es: Seq<Expr>, i: nat)
    ensures
        follows(w, analyzer::apply_exprs(cx, w, es, i)),
    decreases es, es.len() - i,
{
    if i < es.len() {
        let v = analyzer::apply_expr(cx, w, es[i as int]);
        lemma_expr(cx, w, es[i as int]);
        lemma_exprs(cx, v, es, i + 1);
        lemma_chain(w, v, analyzer::apply_exprs(cx, w, es, i));
    }
}

pub proof fn lemma_parts(cx: CxV, w: WorldV, ps: Seq<InterpStrPart>, i: nat)
    ensures
        follows(w, analyzer::apply_parts(cx, w, ps, i)),
    decreases ps, ps.len() - i,
{
    if i < ps.len() {
        let v = match ps[i as int] {
            InterpStrPart::Expr(e) => analyzer::apply_expr(cx, w, e),
            InterpStrPart::Text(_) => w,
        };
        if let InterpStrPart::Expr(e) = ps[i as int] {
            lemma_expr(cx, w, e);
        }
        lemma_parts(cx, v, ps, i + 1);
        lemma_chain(w, v, analyzer::apply_parts(cx, w, ps, i));
    }
}

pub proof fn lemma_operands(cx: CxV, w: WorldV, ops: Seq<AsmOperand>, i: nat)
    ensures
        follows(w, analyzer::apply_operands(cx, w, ops, i)),
    decreases ops, ops.len() - i,
{
    if i < ops.len() {
        let v = analyzer::apply_expr(cx, w, ops[i as int].value);
        lemma_expr(cx, w, ops[i as int].value);
        lemma_operands(cx, v, ops, i + 1);
        lemma_chain(w, v, analyzer::apply_operands(cx, w, ops, i));
    }
}

pub proof fn lemma_elem(cx: CxV, w: WorldV, e: Expr)
    ensures
        follows(w, analyzer::apply_elem(cx, w, e)),
    decreases e, 3nat,
{
    lemma_expr(cx, w, e);
    if let ExprKind::Ident(n) = e.kind {
        lemma_move_out(cx, w, n@, e.span);
    }
}

pub proof fn lemma_elems(cx: CxV, w: WorldV, es: Seq<Expr>, i: nat)
    ensures
        follows(w, analyzer::apply_elems(cx, w, es, i)),
    decreases es, es.len() - i,
{
    if i < es.len() {
        let v = analyzer::apply_elem(cx, w, es[i as int]);
        lemma_elem(cx, w, es[i as int]);
        lemma_elems(cx, v, es, i + 1);
        lemma_chain(w, v, analyzer::apply_elems(cx, w, es, i));
    }
}

pub proof fn lemma_fields(cx: CxV, w: WorldV, fs: Seq<FieldInit>, i: nat)
    ensures
        follows(w, analyzer::apply_fields(cx, w, fs, i)),
    decreases fs, fs.len() - i,
{
    if i < fs.len() {
        let v = analyzer::apply_elem(cx, w, fs[i as int].value);
        lemma_elem(cx, w, fs[i as int].value);
        lemma_fields(cx, v, fs, i + 1);
        lemma_chain(w, v, analyzer::apply_fields(cx, w, fs, i));
    }
}

pub proof fn lemma_args(cx: CxV, w: WorldV, args: Seq<Expr>, call: CallV, i: nat)
    ensures
        follows(w, analyzer::apply_args(cx, w, args, call, i)),
    decreases args, args.len() - i,
{
    if i < args.len() {
        let arg = args[i as int];
        let v = if analyzer::arg_moves(cx, w, arg, call, i as int) {
            w.move_out(cx, analyzer::ident_of(arg), arg.span)
        } else {
            analyzer::apply_expr(cx, w, arg)
        };
        lemma_expr(cx, w, arg);
        lemma_move_out(cx, w, analyzer::ident_of(arg), arg.span);
        lemma_args(cx, v, args, call, i + 1);
        lemma_chain(w, v, analyzer::apply_args(cx, w, args, call, i));
    }
}

proof fn lemma_call(cx: CxV, w: WorldV, e: Expr)
    ensures
        follows(w, analyzer::apply_call(cx, w, e)),
    decreases e, 1nat,
{
    if let ExprKind::Call { callee, args, .. } = e.kind {
        let a = match callee.kind {
            ExprKind::Field { receiver, name } => w.check_receiver(cx, *receiver, name.name@),
            _ => w,
        };
        assert(follows(w, a));
        let b = analyzer::apply_expr(cx, a, *callee);
        lemma_expr(cx, a, *callee);
        lemma_chain(w, a, b);
        if analyzer::is_enum_path(cx, *callee) {
            lemma_elems(cx, b, args@, 0);
            lemma_chain(w, b, analyzer::apply_call(cx, w, e));
        } else {
            let call = analyzer::call_info(cx, b.env(), *callee);
            let c = WorldV {
                diags: conflicts::call_conflicts(cx, b.env(), b.diags, args@, call.moves, call.muts, analyzer::receiver_of(*callee, call)),
                ..b
            };
            lemma_call_conflicts(cx, b.env(), b.diags, args@, call.moves, call.muts, analyzer::receiver_of(*callee, call));
            assert(follows(b, c));
            lemma_chain(w, b, c);
            let d = c.check_ref_args(args@, call.muts, 0);
            lemma_check_ref_args(c, args@, call.muts, 0);
            lemma_chain(w, c, d);
            let f = analyzer::apply_args(cx, d, args@, call, 0);
            lemma_args(cx, d, args@, call, 0);
            lemma_chain(w, d, f);
            let g = f.tie_receiver(cx, args@, call, callee.span);
            lemma_tie_receiver(f, cx, args@, call, callee.span);
            lemma_chain(w, f, g);
            lemma_tie_flows(g, cx, args@, analyzer::flows_of(cx, *callee), callee.span, 0);
            lemma_chain(w, g, analyzer::apply_call(cx, w, e));
        }
    }
}

proof fn lemma_arms(
    cx: CxV,
    w: WorldV,
    pre: StateV,
    scrutinee: Expr,
    arms: Seq<MatchArm>,
    states: Seq<StateV>,
    leaves: Seq<bool>,
    i: nat,
)
    requires
        tidy(w) ==> ordered::ord_sorted::<Place, PlaceStateV>(pre),
    ensures
        follows(w, analyzer::apply_arms(cx, w, pre, scrutinee, arms, states, leaves, i).0),
    decreases arms, arms.len() - i,
{
    if i < arms.len() {
        let arm = arms[i as int];
        let a = WorldV {
            inferred: infer::with_pattern(w.inferred, cx.sigs, arm.pattern, infer::infer(cx.sigs, w.env(), scrutinee)),
            state: pre,
            ..w
        };
        assert(follows(w, a));
        let b = analyzer::apply_expr(cx, a, arm.body);
        lemma_expr(cx, a, arm.body);
        lemma_chain(w, a, b);
        if tidy(w) {
            lemma_arms(
                cx,
                b,
                pre,
                scrutinee,
                arms,
                states.push(analyzer::retain(b.state, pre)),
                leaves.push(walks::expr_leaves(arm.body)),
                i + 1,
            );
        } else {
            lemma_arms_reports(
                cx,
                b,
                pre,
                scrutinee,
                arms,
                states.push(analyzer::retain(b.state, pre)),
                leaves.push(walks::expr_leaves(arm.body)),
                i + 1,
            );
        }
    }
}

pub proof fn lemma_arms_reports(
    cx: CxV,
    w: WorldV,
    pre: StateV,
    scrutinee: Expr,
    arms: Seq<MatchArm>,
    states: Seq<StateV>,
    leaves: Seq<bool>,
    i: nat,
)
    ensures
        w.diags.is_prefix_of(analyzer::apply_arms(cx, w, pre, scrutinee, arms, states, leaves, i).0.diags),
    decreases arms, arms.len() - i,
{
    if i < arms.len() {
        let arm = arms[i as int];
        let a = WorldV {
            inferred: infer::with_pattern(w.inferred, cx.sigs, arm.pattern, infer::infer(cx.sigs, w.env(), scrutinee)),
            state: pre,
            ..w
        };
        let b = analyzer::apply_expr(cx, a, arm.body);
        lemma_expr(cx, a, arm.body);
        lemma_arms_reports(
            cx,
            b,
            pre,
            scrutinee,
            arms,
            states.push(analyzer::retain(b.state, pre)),
            leaves.push(walks::expr_leaves(arm.body)),
            i + 1,
        );
    }
}

proof fn lemma_if(cx: CxV, w: WorldV, e: Expr)
    requires
        e.kind is If,
    ensures
        follows(w, analyzer::apply_expr(cx, w, e)),
    decreases e, 1nat,
{
    if let ExprKind::If { cond, then, else_branch } = e.kind {
        let a = analyzer::apply_expr(cx, w, *cond);
        lemma_expr(cx, w, *cond);
        let pre = a.state;
        let b = analyzer::walk_scope(cx, a, then, pre);
        lemma_scope(cx, a, then, pre);
        lemma_chain(w, a, b);
        match else_branch {
            Some(x) => {
                let c = analyzer::apply_expr(cx, b.with_state(pre), *x);
                lemma_expr(cx, b.with_state(pre), *x);
                if tidy(w) {
                    lemma_merge(
                        pre,
                        seq![b.state, analyzer::retain(c.state, pre)],
                        seq![walks::block_leaves(then), walks::expr_leaves(*x)],
                    );
                }
            },
            None => {
                if tidy(w) {
                    lemma_merge(pre, seq![b.state, pre], seq![walks::block_leaves(then), false]);
                }
            },
        }
    }
}

proof fn lemma_match(cx: CxV, w: WorldV, e: Expr)
    requires
        e.kind is Match,
    ensures
        follows(w, analyzer::apply_expr(cx, w, e)),
    decreases e, 1nat,
{
    if let ExprKind::Match { scrutinee, arms } = e.kind {
        let a = analyzer::apply_expr(cx, w, *scrutinee);
        lemma_expr(cx, w, *scrutinee);
        let pre = a.state;
        if arms@.len() > 0 {
            let (b, states, leaves) = analyzer::apply_arms(cx, a, pre, *scrutinee, arms@, Seq::empty(), Seq::empty(), 0);
            lemma_arms(cx, a, pre, *scrutinee, arms@, Seq::empty(), Seq::empty(), 0);
            lemma_chain(w, a, b);
            if tidy(w) {
                lemma_merge(pre, states, leaves);
            }
        }
    }
}

proof fn lemma_assign(cx: CxV, w: WorldV, e: Expr)
    requires
        e.kind is Assign,
    ensures
        follows(w, analyzer::apply_expr(cx, w, e)),
    decreases e, 1nat,
{
    if let ExprKind::Assign { target, value, .. } = e.kind {
        let heal = analyzer::heals(w, *target);
        let a = if heal {
            w
        } else {
            analyzer::apply_expr(cx, w, *target)
        };
        lemma_expr(cx, w, *target);
        let b = a.check_write(*target);
        assert(follows(a, b));
        lemma_chain(w, a, b);
        let s = borrows::sources_of(cx, b.env(), *value);
        let c = analyzer::apply_expr(cx, b, *value);
        lemma_expr(cx, b, *value);
        lemma_chain(w, b, c);
        let d = if heal {
            c.own(analyzer::ident_of(*target))
        } else {
            c
        };
        lemma_put(c, place::root_place(analyzer::ident_of(*target)), PlaceStateV::Owned);
        lemma_chain(w, c, d);
        lemma_rebind(d, cx, *target, *value, s);
        lemma_chain(w, d, analyzer::apply_expr(cx, w, e));
    }
}

pub proof fn lemma_expr(cx: CxV, w: WorldV, e: Expr)
    ensures
        follows(w, analyzer::apply_expr(cx, w, e)),
    decreases e, 2nat,
{
    match e.kind {
        ExprKind::Intrinsic { args, .. } => lemma_exprs(cx, w, args@, 0),
        ExprKind::Asm { operands, .. } => lemma_operands(cx, w, operands@, 0),
        ExprKind::InterpStr { parts } => lemma_parts(cx, w, parts@, 0),
        ExprKind::Field { receiver, .. } => {
            if place::place_of(e) is None {
                lemma_expr(cx, w, *receiver);
            }
        },
        ExprKind::Index { receiver, index } => {
            match place::place_of(e) {
                Some(p) => {
                    let v = w.read_place(cx, p, e.span);
                    assert(follows(w, v));
                    lemma_expr(cx, v, *index);
                    lemma_chain(w, v, analyzer::apply_expr(cx, w, e));
                },
                None => {
                    let v = analyzer::apply_expr(cx, w, *receiver);
                    lemma_expr(cx, w, *receiver);
                    lemma_expr(cx, v, *index);
                    lemma_chain(w, v, analyzer::apply_expr(cx, w, e));
                },
            }
        },
        ExprKind::Block(b) => lemma_scope(cx, w, b, w.state),
        ExprKind::Await(inner) => lemma_expr(cx, w, *inner),
        ExprKind::Yield(inner) => lemma_expr(cx, w, *inner),
        ExprKind::If { .. } => lemma_if(cx, w, e),
        ExprKind::Call { .. } => lemma_call(cx, w, e),
        ExprKind::Binary { lhs, rhs, .. } => {
            let v = analyzer::apply_expr(cx, w, *lhs);
            lemma_expr(cx, w, *lhs);
            lemma_expr(cx, v, *rhs);
            lemma_chain(w, v, analyzer::apply_expr(cx, w, e));
        },
        ExprKind::Unary { operand, .. } => lemma_expr(cx, w, *operand),
        ExprKind::Range { start, end, .. } => {
            let v = match start {
                Some(x) => analyzer::apply_expr(cx, w, *x),
                None => w,
            };
            if let Some(x) = start {
                lemma_expr(cx, w, *x);
            }
            if let Some(x) = end {
                lemma_expr(cx, v, *x);
            }
        },
        ExprKind::Assign { .. } => lemma_assign(cx, w, e),
        ExprKind::Cast { expr, .. } => lemma_expr(cx, w, *expr),
        ExprKind::CastChecked { expr, .. } => lemma_expr(cx, w, *expr),
        ExprKind::StructLit { fields, .. } => lemma_fields(cx, w, fields@, 0),
        ExprKind::InferredStructLit { fields } => lemma_fields(cx, w, fields@, 0),
        ExprKind::GenericStructLit { fields, .. } => lemma_fields(cx, w, fields@, 0),
        ExprKind::ArrayFill { fill, .. } => lemma_expr(cx, w, *fill),
        ExprKind::GenericEnumCall { args, .. } => {
            lemma_elems(cx, w, args@, 0);
            lemma_exprs(cx, w, args@, 0);
        },
        ExprKind::ArrayLit { elements } => lemma_elems(cx, w, elements@, 0),
        ExprKind::TupleLit { elements } => lemma_elems(cx, w, elements@, 0),
        ExprKind::Match { .. } => lemma_match(cx, w, e),
        _ => {},
    }
}

pub proof fn lemma_stmts(cx: CxV, w: WorldV, ss: Seq<Stmt>, uses: Seq<(Seq<char>, nat)>, i: nat)
    ensures
        follows(w, analyzer::walk_stmts(cx, w, ss, uses, i)),
    decreases ss, ss.len() - i,
{
    if i < ss.len() {
        let u = analyzer::apply_stmt(cx, w, ss[i as int]);
        let v = u.release_after(uses, i, 0);
        lemma_stmt(cx, w, ss[i as int]);
        lemma_release_after(u, uses, i, 0);
        lemma_chain(w, u, v);
        lemma_stmts(cx, v, ss, uses, i + 1);
        lemma_chain(w, v, analyzer::walk_stmts(cx, w, ss, uses, i));
    }
}

pub proof fn lemma_scope(cx: CxV, w: WorldV, b: Block, outer: StateV)
    ensures
        follows(w, analyzer::walk_scope(cx, w, b, outer)),
    decreases b, 0nat,
{
    let uses = analyzer::last_uses(cx, w.env(), b);
    let u = analyzer::walk_stmts(cx, w, b.stmts@, uses, 0);
    lemma_stmts(cx, w, b.stmts@, uses, 0);
    let v = match b.tail {
        Some(t) => analyzer::apply_expr(cx, u, *t),
        None => u,
    };
    if let Some(t) = b.tail {
        lemma_expr(cx, u, *t);
    }
    lemma_chain(w, u, v);
    lemma_end_scope(v, outer);
    lemma_chain(w, v, analyzer::walk_scope(cx, w, b, outer));
}

pub proof fn lemma_loop(cx: CxV, w: WorldV, b: Block)
    ensures
        follows(w, analyzer::loop_body(cx, w, b)),
    decreases b, 1nat,
{
    let v = analyzer::walk_scope(cx, w, b, w.state);
    lemma_scope(cx, w, b, w.state);
    if tidy(w) {
        lemma_merge(w.state, seq![w.state, v.state], seq![false, false]);
    }
}

pub proof fn lemma_stmt(cx: CxV, w: WorldV, s: Stmt)
    ensures
        follows(w, analyzer::apply_stmt(cx, w, s)),
    decreases s, 0nat,
{
    match s.kind {
        StmtKind::Let { name, ty, init, .. } => {
            let t = sigs::opt_type(ty);
            match init {
                Some(e) => {
                    let src = analyzer::let_sources(cx, w, t, e);
                    let v = match e.kind {
                        ExprKind::Ident(n) => if src.len() == 0 && w.non_copy(cx, n@) {
                            w.move_out(cx, n@, e.span)
                        } else {
                            analyzer::apply_expr(cx, w, e)
                        },
                        _ => analyzer::apply_expr(cx, w, e),
                    };
                    lemma_expr(cx, w, e);
                    if let ExprKind::Ident(n) = e.kind {
                        lemma_move_out(cx, w, n@, e.span);
                    }
                    lemma_bind_let(v, cx, name, t, init, src);
                    lemma_chain(w, v, analyzer::apply_stmt(cx, w, s));
                },
                None => lemma_bind_let(w, cx, name, t, init, Seq::empty()),
            }
        },
        StmtKind::LetDestructure { fields, init, .. } => {
            let src = borrows::sources_of(cx, w.env(), init);
            let u = w.guess_destructured(cx, fields@, init);
            lemma_guess_destructured(w, cx, fields@, init);
            let v = analyzer::apply_expr(cx, u, init);
            lemma_expr(cx, u, init);
            lemma_chain(w, u, v);
            lemma_bind_fields(v, fields@, src, 0);
            lemma_chain(w, v, analyzer::apply_stmt(cx, w, s));
        },
        StmtKind::Return(Some(e)) => lemma_expr(cx, w, e),
        StmtKind::Expr(e) => lemma_expr(cx, w, e),
        StmtKind::Defer(e) => lemma_expr(cx, w, e),
        StmtKind::Assert(e) => lemma_expr(cx, w, e),
        StmtKind::While { cond, body } => {
            let v = analyzer::apply_expr(cx, w, cond);
            lemma_expr(cx, w, cond);
            lemma_loop(cx, v, body);
            lemma_chain(w, v, analyzer::apply_stmt(cx, w, s));
        },
        StmtKind::For(fl) => lemma_for(cx, w, fl),
        StmtKind::Loop(b) => lemma_loop(cx, w, b),
        _ => {},
    }
}

pub proof fn lemma_for(cx: CxV, w: WorldV, fl: ForLoop)
    ensures
        follows(w, analyzer::apply_for(cx, w, fl)),
    decreases fl, 0nat,
{
    match fl {
        ForLoop::CStyle { init, cond, update, body } => {
            let a = match init {
                Some(s) => analyzer::apply_stmt(cx, w, *s),
                None => w,
            };
            if let Some(s) = init {
                lemma_stmt(cx, w, *s);
            }
            let b = match cond {
                Some(c) => analyzer::apply_expr(cx, a, c),
                None => a,
            };
            if let Some(c) = cond {
                lemma_expr(cx, a, c);
            }
            lemma_chain(w, a, b);
            let d = analyzer::apply_exprs(cx, b, update@, 0);
            lemma_exprs(cx, b, update@, 0);
            lemma_chain(w, b, d);
            lemma_loop(cx, d, body);
            lemma_chain(w, d, analyzer::apply_for(cx, w, fl));
        },
        ForLoop::Range { var, iter, body } => {
            let a = analyzer::apply_expr(cx, w, iter).typed(var.name@, Some(infer::path_at("i32"@, var.span)));
            lemma_expr(cx, w, iter);
            assert(follows(w, a));
            let b = a.own(var.name@);
            lemma_put(a, place::root_place(var.name@), PlaceStateV::Owned);
            let c = analyzer::walk_scope(cx, b, body, a.state);
            lemma_scope(cx, b, body, a.state);
            lemma_chain(w, a, b);
            lemma_chain(w, b, c);
            if tidy(w) {
                lemma_merge(a.state, seq![a.state, c.state], seq![false, false]);
            }
        },
    }
}

/// Walking an expression withdraws no report and keeps the places in order.
pub proof fn expressions_keep_reports(cx: CxV, w: WorldV, e: Expr)
    ensures
        follows(w, analyzer::apply_expr(cx, w, e)),
{
    lemma_expr(cx, w, e);
}

/// Walking a statement withdraws no report and keeps the places in order.
pub proof fn statements_keep_reports(cx: CxV, w: WorldV, s: Stmt)
    ensures
        follows(w, analyzer::apply_stmt(cx, w, s)),
{
    lemma_stmt(cx, w, s);
}

// ---------------------------------------------------------------------------
// Whole functions.

pub proof fn lemma_enter(w: WorldV, ps: Seq<Param>, i: nat)
    ensures
        follows(w, w.enter(ps, i)),
    decreases ps.len() - i,
{
    if i < ps.len() {
        let n = ps[i as int].name.name@;
        let u = w.typed(n, Some(ps[i as int].ty@));
        lemma_put(u, place::root_place(n), PlaceStateV::Owned);
        lemma_enter(u.own(n), ps, i + 1);
        lemma_chain(w, u.own(n), w.enter(ps, i));
    }
}

/// The label of a point of a body with `n` statements.
pub open spec fn point_label(i: int, n: int) -> Seq<char> {
    if i == 0 {
        "entry"@
    } else if i <= n {
        "after stmt "@ + text::decimal((i - 1) as nat)
    } else {
        "exit"@
    }
}

pub proof fn lemma_points(
    cx: CxV,
    w: WorldV,
    ss: Seq<Stmt>,
    uses: Seq<(Seq<char>, nat)>,
    acc: Seq<PointSnapshotV>,
    i: nat,
)
    requires
        i <= ss.len(),
        tidy(w),
        acc.len() == i + 1,
        forall|k: int|
            0 <= k < acc.len() ==> (#[trigger] acc[k]).label == point_label(k, ss.len() as int) && ordered::ord_sorted::<
                Place,
                PlaceStateV,
            >(acc[k].state),
    ensures
        ({
            let (v, points) = analyzer::points_from(cx, w, ss, uses, acc, i);
            &&& tidy(v)
            &&& points.len() == ss.len() + 1
            &&& forall|k: int|
                0 <= k < points.len() ==> (#[trigger] points[k]).label == point_label(k, ss.len() as int) && ordered::ord_sorted::<
                    Place,
                    PlaceStateV,
                >(points[k].state)
        }),
    decreases ss.len() - i,
{
    if i < ss.len() {
        let u = analyzer::apply_stmt(cx, w, ss[i as int]);
        let v = u.release_after(uses, i, 0);
        lemma_stmt(cx, w, ss[i as int]);
        lemma_release_after(u, uses, i, 0);
        let next = acc.push(PointSnapshotV { label: "after stmt "@ + text::decimal(i), state: v.state });
        assert forall|k: int| 0 <= k < next.len() implies (#[trigger] next[k]).label == point_label(k, ss.len() as int)
            && ordered::ord_sorted::<Place, PlaceStateV>(next[k].state) by {
            if k < acc.len() {
                assert(next[k] == acc[k]);
            }
        }
        lemma_points(cx, v, ss, uses, next, i + 1);
    }
}

/// The states of a body are recorded at its entry, after each statement and at its exit.
pub open spec fn is_recorded(a: FunctionAnalysisV, name: Seq<char>, b: Block) -> bool {
    &&& a.name == name
    &&& a.points.len() == b.stmts@.len() + 2
    &&& forall|k: int|
        0 <= k < a.points.len() ==> (#[trigger] a.points[k]).label == point_label(k, b.stmts@.len() as int)
            && ordered::ord_sorted::<Place, PlaceStateV>(a.points[k].state)
}

pub proof fn lemma_body(cx: CxV, w: WorldV, name: Seq<char>, b: Block)
    requires
        tidy(w),
    ensures
        is_recorded(analyzer::walked_body(cx, w, name, b).1, name, b),
{
    let entry = seq![PointSnapshotV { label: "entry"@, state: w.state }];
    let uses = analyzer::last_uses(cx, w.env(), b);
    lemma_points(cx, w, b.stmts@, uses, entry, 0);
    let (v, points) = analyzer::points_from(cx, w, b.stmts@, uses, entry, 0);
    if let Some(t) = b.tail {
        lemma_expr(cx, v, *t);
    }
}

/// The analysis of a function records the states at its entry, after each of its statements
/// and at its exit, each state with its places once and in order.
pub proof fn functions_are_recorded(cx: CxV, name: Seq<char>, ps: Seq<Param>, b: Block)
    ensures
        is_recorded(analyzer::function_analysis(cx, name, ps, b).1, name, b),
{
    lemma_enter(borrows::empty_world(), ps, 0);
    lemma_body(cx, borrows::empty_world().enter(ps, 0), name, b);
}

/// The same holds of a method.
pub proof fn methods_are_recorded(
    cx: CxV,
    name: Seq<char>,
    target: Seq<char>,
    receiver: Option<Receiver>,
    ps: Seq<Param>,
    b: Block,
)
    ensures
        is_recorded(analyzer::method_analysis(cx, name, target, receiver, ps, b).1, name, b),
{
    let e = borrows::empty_world();
    let t = e.typed("self"@, Some(infer::path_at(target, Span { start: 0, end: 0 })));
    lemma_put(t, place::root_place("self"@), PlaceStateV::Owned);
    let w = if receiver is Some {
        e.enter_receiver(target)
    } else {
        e
    };
    lemma_enter(w, ps, 0);
    lemma_body(cx, w.enter(ps, 0), name, b);
}

// ---------------------------------------------------------------------------
// Moves.

/// A binding whose type is copied stays as it is when it is passed on.
pub proof fn copies_leave_the_source(cx: CxV, w: WorldV, name: Seq<char>, span: Span)
    requires
        !w.non_copy(cx, name),
    ensures
        w.move_out(cx, name, span).state == w.state,
        w.move_out(cx, name, span).live == w.live,
        w.move_out(cx, name, span).from == w.from,
{
}

proof fn lemma_release_elsewhere(w: WorldV, ps: Seq<PlaceV>, borrower: Seq<char>, i: nat, p: PlaceV)
    requires
        tidy(w),
        borrows::live_get(w.live, p) is None,
    ensures
        place::st_get(w.release_all(ps, borrower, i).state, p) == place::st_get(w.state, p),
    decreases ps.len() - i,
{
    if i < ps.len() {
        let q = ps[i as int];
        let v = w.release(q, borrower);
        lemma_release(w, q, borrower);
        if let Some(s) = borrows::live_get(w.live, q) {
            let rest = ordered::ord_del::<String, Span>(s, borrower);
            ordered::lemma_ord_put::<Place, PlaceStateV>(w.state, q, PlaceStateV::Owned, p);
            ordered::lemma_ord_put::<Place, PlaceStateV>(w.state, q, PlaceStateV::BorrowedShared(rest.len() as u32), p);
            ordered::lemma_ord_del::<Place, Seq<(Seq<char>, Span)>>(w.live, q, p);
            ordered::lemma_ord_put::<Place, Seq<(Seq<char>, Span)>>(w.live, q, rest, p);
        }
        lemma_release_elsewhere(v, ps, borrower, i + 1, p);
    }
}

/// A binding whose type is moved is moved when it is passed on.
pub proof fn moves_take_the_source(cx: CxV, w: WorldV, name: Seq<char>, span: Span)
    requires
        tidy(w),
        w.non_copy(cx, name),
    ensures
        place::st_get(w.move_out(cx, name, span).state, place::root_place(name)) == Some(PlaceStateV::Moved),
{
    let p = place::root_place(name);
    let v = w.check_doubt(cx, name, span).check_move(name, span);
    assert(v.env() =~= w.env());
    let u = WorldV { state: place::st_put(v.state, p, PlaceStateV::Moved), live: borrows::live_del(v.live, p), ..v };
    ordered::lemma_ord_put::<Place, PlaceStateV>(v.state, p, PlaceStateV::Moved, p);
    ordered::lemma_ord_del::<Place, Seq<(Seq<char>, Span)>>(v.live, p, p);
    lemma_live_del(v.live, p);
    if u.from.dom().contains(name) {
        lemma_release_elsewhere(WorldV { from: u.from.remove(name), ..u }, u.from[name], name, 0, p);
    }
}

pub proof fn lemma_state_at(s: StateV, k: int)
    requires
        ordered::ord_sorted::<Place, PlaceStateV>(s),
        0 <= k < s.len(),
    ensures
        place::st_get(s, s[k].0) == Some(s[k].1),
{
    ordered::lemma_ord_has::<Place, PlaceStateV>(s, s[k].0);
    let p = ordered::ord_pos::<Place, PlaceStateV>(s, s[k].0, 0) as int;
    <Place as OrdKey>::lt_irreflexive(s[k].0);
    if p < k {
        assert(<Place as OrdKey>::lt(s[p].0, s[k].0));
    } else if k < p {
        assert(<Place as OrdKey>::lt(s[k].0, s[p].0));
    }
}

/// What only one path of a branch moves is in doubt after it.
pub proof fn a_move_on_one_path_leaves_doubt(pre: StateV, a: StateV, b: StateV, k: int)
    requires
        0 <= k < pre.len(),
        analyzer::arm_state(a, pre[k].0) == PlaceStateV::Moved,
        analyzer::arm_state(b, pre[k].0) == PlaceStateV::Owned,
    ensures
        analyzer::merge_arms(pre, seq![a, b], seq![false, false])[k] == (pre[k].0, PlaceStateV::MaybePartial),
        analyzer::merge_arms(pre, seq![b, a], seq![false, false])[k] == (pre[k].0, PlaceStateV::MaybePartial),
{
    reveal_with_fuel(analyzer::reaching, 3);
    reveal_with_fuel(analyzer::merged_over, 3);
    assert(analyzer::reaching(seq![a, b], seq![false, false], Seq::empty(), 0) =~= seq![a, b]);
    assert(analyzer::reaching(seq![b, a], seq![false, false], Seq::empty(), 0) =~= seq![b, a]);
}

/// What the body of a loop moves is in doubt after the loop, since the body may not run.
pub proof fn a_move_in_a_loop_leaves_doubt(cx: CxV, w: WorldV, b: Block, k: int)
    requires
        tidy(w),
        0 <= k < w.state.len(),
        w.state[k].1 == PlaceStateV::Owned,
        analyzer::arm_state(analyzer::walk_scope(cx, w, b, w.state).state, w.state[k].0) == PlaceStateV::Moved,
    ensures
        place::st_get(analyzer::loop_body(cx, w, b).state, w.state[k].0) == Some(PlaceStateV::MaybePartial),
{
    let pre = w.state;
    let after = analyzer::walk_scope(cx, w, b, pre).state;
    lemma_state_at(pre, k);
    a_move_on_one_path_leaves_doubt(pre, after, pre, k);
    lemma_merge(pre, seq![pre, after], seq![false, false]);
    lemma_state_at(analyzer::merge_arms(pre, seq![pre, after], seq![false, false]), k);
}

/// A use of a binding in doubt is reported.
pub proof fn doubt_is_reported(cx: CxV, w: WorldV, name: Seq<char>, span: Span)
    requires
        w.in_doubt(cx, name),
    ensures
        w.read(cx, name, span).diags == w.diags.push(messages::maybe_moved(name, span)),
        w.check_doubt(cx, name, span).diags == w.diags.push(messages::maybe_moved(name, span)),
{
}

// ---------------------------------------------------------------------------
// Borrows.

proof fn lemma_borrowed_part(l: LiveV, name: Seq<char>, i: nat, k: int)
    requires
        i <= k < l.len(),
        l[k].0.root == name,
        l[k].1.len() > 0,
    ensures
        conflicts::borrowed_part(l, name, i) is Some,
    decreases l.len() - i,
{
    if !(l[i as int].0.root == name && l[i as int].1.len() > 0) {
        lemma_borrowed_part(l, name, i + 1, k);
    }
}

/// A binding that is borrowed, in whole or in part, is not moved in silence.
pub proof fn moving_a_borrowed_binding_is_reported(cx: CxV, w: WorldV, name: Seq<char>, span: Span, k: int)
    requires
        0 <= k < w.live.len(),
        w.live[k].0.root == name,
        w.live[k].1.len() > 0,
    ensures
        w.move_out(cx, name, span).diags.len() > w.diags.len(),
{
    let u = w.check_doubt(cx, name, span);
    let v = u.check_move(name, span);
    lemma_borrowed_part(u.live, name, 0, k);
    if v.non_copy(cx, name) {
        let x = WorldV {
            state: place::st_put(v.state, place::root_place(name), PlaceStateV::Moved),
            live: borrows::live_del(v.live, place::root_place(name)),
            ..v
        };
        lemma_drop_borrower(x, name);
    }
}

proof fn lemma_blocker(s: StateV, target: PlaceV, i: nat, k: int)
    requires
        i <= k < s.len(),
        conflicts::blocks(s[k], target),
    ensures
        conflicts::blocker(s, target, i) is Some,
    decreases s.len() - i,
{
    if !conflicts::blocks(s[i as int], target) {
        lemma_blocker(s, target, i + 1, k);
    }
}

/// A place that overlaps what another binding borrows exclusively is not read in silence.
pub proof fn reading_an_exclusive_borrow_is_reported(cx: CxV, w: WorldV, place: PlaceV, span: Span, k: int)
    requires
        0 <= k < w.state.len(),
        conflicts::blocks(w.state[k], place),
    ensures
        w.read_place(cx, place, span).diags.len() == w.diags.len() + 1,
{
    lemma_blocker(w.state, place, 0, k);
    if place.projections.len() == 0 {
        assert(place.projections =~= Seq::<ProjectionV>::empty());
    }
}

proof fn lemma_escape(acc: Seq<RawDiagV>, l: LiveV, dying: NameListV, seen: Set<Seq<char>>, i: nat, k: int)
    requires
        i <= k < l.len(),
        analyzer::listed(dying, l[k].0.root),
        !seen.contains(l[k].0.root),
        forall|j: int| i <= j < l.len() && (#[trigger] l[j]).0.root == l[k].0.root ==> l[j].1.len() > 0,
    ensures
        analyzer::escapes(acc, l, dying, seen, i).len() > acc.len(),
    decreases l.len() - i,
{
    let owner = l[i as int].0.root;
    let set = l[i as int].1;
    if !analyzer::listed(dying, owner) || seen.contains(owner) {
        lemma_escape(acc, l, dying, seen, i + 1, k);
    } else if set.len() > 0 {
        let next = acc.push(messages::outlived(owner, set[0].0, set[0].1));
        lemma_escapes(next, l, dying, seen.insert(owner), i + 1);
    } else {
        assert(owner != l[k].0.root);
        lemma_escape(acc, l, dying, seen.insert(owner), i + 1, k);
    }
}

/// An owner that leaves scope while it is still borrowed is reported.
pub proof fn owners_do_not_die_borrowed(w: WorldV, outer: StateV, k: int)
    requires
        ({
            let dying = analyzer::dying_roots(Seq::empty(), w.state, outer, 0);
            let l = w.drop_names(dying, 0).live;
            &&& 0 <= k < l.len()
            &&& analyzer::listed(dying, l[k].0.root)
            &&& forall|j: int| 0 <= j < l.len() ==> (#[trigger] l[j]).1.len() > 0
        }),
    ensures
        w.end_scope(outer).diags.len() > w.diags.len(),
{
    let dying = analyzer::dying_roots(Seq::empty(), w.state, outer, 0);
    let v = w.drop_names(dying, 0);
    lemma_drop_names(w, dying, 0);
    lemma_escape(v.diags, v.live, dying, Set::empty(), 0, k);
}

// ---------------------------------------------------------------------------
// Arguments of one call.

/// Claims that cannot stand together in one call.
pub open spec fn clash(a: ArgClaimV, b: ArgClaimV) -> bool {
    let o = place::overlap_of(a.place, b.place);
    ||| o == PlaceOverlap::Contains || o == PlaceOverlap::Contained
    ||| o == PlaceOverlap::Same && (a.kind == ClaimKind::Exclusive && b.kind != ClaimKind::Shared || b.kind
        == ClaimKind::Exclusive && a.kind != ClaimKind::Shared)
}

proof fn lemma_row_reports(
    cx: CxV,
    env: Map<Seq<char>, TypeV>,
    acc: Seq<RawDiagV>,
    a: ArgClaimV,
    i: nat,
    claims: Seq<Option<ArgClaimV>>,
    args: Seq<Expr>,
    j: nat,
    k: nat,
)
    requires
        j <= k < args.len(),
        i < k,
        claims[k as int] is Some,
        clash(a, claims[k as int]->Some_0),
    ensures
        conflicts::row_conflicts(cx, env, acc, a, i, claims, args, j).len() > acc.len(),
    decreases args.len() - j,
{
    let next = conflicts::push_opt(acc, conflicts::pair_conflict(cx, env, a, i, claims, args, j));
    if j == k {
        lemma_row_conflicts(cx, env, next, a, i, claims, args, j + 1);
    } else {
        lemma_row_reports(cx, env, next, a, i, claims, args, j + 1, k);
    }
}

proof fn lemma_all_report(
    cx: CxV,
    env: Map<Seq<char>, TypeV>,
    acc: Seq<RawDiagV>,
    claims: Seq<Option<ArgClaimV>>,
    args: Seq<Expr>,
    h: nat,
    i: nat,
    k: nat,
)
    requires
        h <= i < k < args.len(),
        claims[i as int] is Some,
        claims[k as int] is Some,
        clash(claims[i as int]->Some_0, claims[k as int]->Some_0),
    ensures
        conflicts::all_conflicts(cx, env, acc, claims, args, h).len() > acc.len(),
    decreases args.len() - h,
{
    let next = match claims[h as int] {
        Some(a) => conflicts::row_conflicts(cx, env, acc, a, h, claims, args, 0),
        None => acc,
    };
    if let Some(a) = claims[h as int] {
        lemma_row_conflicts(cx, env, acc, a, h, claims, args, 0);
    }
    if h == i {
        lemma_row_reports(cx, env, acc, claims[i as int]->Some_0, i, claims, args, 0, k);
        lemma_all_conflicts(cx, env, next, claims, args, h + 1);
    } else {
        lemma_all_report(cx, env, next, claims, args, h + 1, i, k);
    }
}

/// Two arguments of one call whose claims clash are reported.
pub proof fn clashing_arguments_are_reported(
    cx: CxV,
    env: Map<Seq<char>, TypeV>,
    acc: Seq<RawDiagV>,
    args: Seq<Expr>,
    moves: Option<Seq<bool>>,
    muts: Option<Seq<bool>>,
    receiver: Option<(ClaimKind, Expr)>,
    i: nat,
    k: nat,
)
    requires
        i < k < args.len(),
        conflicts::claims_of(cx, env, args, moves, muts)[i as int] is Some,
        conflicts::claims_of(cx, env, args, moves, muts)[k as int] is Some,
        clash(
            conflicts::claims_of(cx, env, args, moves, muts)[i as int]->Some_0,
            conflicts::claims_of(cx, env, args, moves, muts)[k as int]->Some_0,
        ),
    ensures
        conflicts::call_conflicts(cx, env, acc, args, moves, muts, receiver).len() > acc.len(),
{
    let claims = conflicts::claims_of(cx, env, args, moves, muts);
    let next = match receiver {
        Some((kind, r)) => match conflicts::receiver_claim(cx, env, kind, r) {
            Some(rc) => conflicts::receiver_conflicts(cx, env, acc, rc, claims, args, 0),
            None => acc,
        },
        None => acc,
    };
    if let Some((kind, r)) = receiver {
        if let Some(rc) = conflicts::receiver_claim(cx, env, kind, r) {
            lemma_receiver_conflicts(cx, env, acc, rc, claims, args, 0);
        }
    }
    lemma_all_report(cx, env, next, claims, args, 0, i, k);
}

} // verus!
