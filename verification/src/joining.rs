//! What is known where paths meet: after loops, branches and arms.
use vstd::prelude::*;
use crate::analyzer;
use crate::infer;
use crate::ordered;
use crate::ownership;
use crate::place;
use crate::walks;
use crate::ast::{Block, Expr, ExprKind, ForLoop, Ident, MatchArm, Stmt, StmtKind};
use crate::borrows::{CxV, WorldV};
use crate::ownership::tidy;
use crate::place::{Place, PlaceStateV, PlaceV, StateV};

verus! {

/// What is known of a place where one path left it as `a` and the other as `b`: where they
/// agree, that; where one path moved it and the other owns it, or where there is any doubt, or
/// an exclusive borrow on one of them, doubt; and a shared borrow where at least one path has
/// one, with the larger number of borrowers.
pub open spec fn is_meet(a: PlaceStateV, b: PlaceStateV, m: PlaceStateV) -> bool {
    &&& a == b ==> m == a
    &&& a == PlaceStateV::Owned && b == PlaceStateV::Moved ==> m == PlaceStateV::MaybePartial
    &&& a == PlaceStateV::Moved && b == PlaceStateV::Owned ==> m == PlaceStateV::MaybePartial
    &&& a == PlaceStateV::MaybePartial || b == PlaceStateV::MaybePartial ==> m == PlaceStateV::MaybePartial
    &&& a != b && (a is BorrowedExclusive || b is BorrowedExclusive) ==> m == PlaceStateV::MaybePartial
    &&& match (a, b) {
        (PlaceStateV::BorrowedShared(x), PlaceStateV::BorrowedShared(y)) => m matches PlaceStateV::BorrowedShared(z) && z >= x
            && z >= y && (z == x || z == y),
        (PlaceStateV::BorrowedShared(x), PlaceStateV::Owned) => m == a,
        (PlaceStateV::BorrowedShared(x), PlaceStateV::Moved) => m == a,
        (PlaceStateV::Owned, PlaceStateV::BorrowedShared(y)) => m == b,
        (PlaceStateV::Moved, PlaceStateV::BorrowedShared(y)) => m == b,
        _ => true,
    }
}

/// The states list the same places.
pub open spec fn same_places(a: StateV, b: StateV) -> bool {
    &&& a.len() == b.len()
    &&& forall|k: int| 0 <= k < a.len() ==> (#[trigger] a[k]).0 == b[k].0
}

/// After two paths that start with the places of `pre`: the same places, and of each what is
/// known where the paths meet.
pub open spec fn meets(pre: StateV, a: StateV, b: StateV, after: StateV) -> bool {
    &&& same_places(pre, after)
    &&& forall|k: int|
        0 <= k < after.len() ==> is_meet(
            analyzer::arm_state(a, (#[trigger] after[k]).0),
            analyzer::arm_state(b, after[k].0),
            after[k].1,
        )
}

proof fn lemma_is_meet(a: PlaceStateV, b: PlaceStateV)
    ensures
        is_meet(a, b, place::merged(a, b)),
{
}

proof fn lemma_meets(pre: StateV, a: StateV, b: StateV)
    ensures
        meets(pre, a, b, analyzer::merge_arms(pre, seq![a, b], seq![false, false])),
{
    let after = analyzer::merge_arms(pre, seq![a, b], seq![false, false]);
    reveal_with_fuel(analyzer::reaching, 3);
    assert(analyzer::reaching(seq![a, b], seq![false, false], Seq::empty(), 0) =~= seq![a, b]);
    assert forall|k: int| 0 <= k < after.len() implies is_meet(
        analyzer::arm_state(a, (#[trigger] after[k]).0),
        analyzer::arm_state(b, after[k].0),
        after[k].1,
    ) by {
        reveal_with_fuel(analyzer::merged_over, 3);
        lemma_is_meet(analyzer::arm_state(a, pre[k].0), analyzer::arm_state(b, pre[k].0));
    }
}

proof fn lemma_one_left(pre: StateV, a: StateV, b: StateV)
    ensures
        ({
            let first = analyzer::merge_arms(pre, seq![a, b], seq![false, true]);
            let second = analyzer::merge_arms(pre, seq![a, b], seq![true, false]);
            &&& same_places(pre, first)
            &&& forall|k: int| 0 <= k < first.len() ==> (#[trigger] first[k]).1 == analyzer::arm_state(a, first[k].0)
            &&& same_places(pre, second)
            &&& forall|k: int| 0 <= k < second.len() ==> (#[trigger] second[k]).1 == analyzer::arm_state(b, second[k].0)
            &&& analyzer::merge_arms(pre, seq![a, b], seq![true, true]) == pre
        }),
{
    reveal_with_fuel(analyzer::reaching, 3);
    reveal_with_fuel(analyzer::merged_over, 2);
    assert(analyzer::reaching(seq![a, b], seq![false, true], Seq::empty(), 0) =~= seq![a]);
    assert(analyzer::reaching(seq![a, b], seq![true, false], Seq::empty(), 0) =~= seq![b]);
    assert(analyzer::reaching(seq![a, b], seq![true, true], Seq::empty(), 0) =~= Seq::empty());
}

// ---------------------------------------------------------------------------
// Loops.

/// The state after a loop: the body may not have run, so what was known before it meets what is
/// known at the end of the body; and what the body reports is reported.
pub open spec fn is_after_loop(before: StateV, end: WorldV, after: WorldV) -> bool {
    &&& meets(before, before, end.state, after.state)
    &&& after.diags == end.diags
}

/// A `for` over a range: its body starts with the variable owned, on top of what is known after
/// the range, and may not run. The variable is gone after the loop.
pub proof fn a_range_loop_may_not_run(cx: CxV, w: WorldV, s: Stmt, var: Ident, iter: Expr, body: Block)
    requires
        s.kind == StmtKind::For(ForLoop::Range { var, iter, body }),
    ensures
        ({
            let before = analyzer::apply_expr(cx, w, iter).typed(var.name@, Some(infer::path_at("i32"@, var.span)));
            let end = analyzer::walk_scope(cx, before.own(var.name@), body, before.state);
            is_after_loop(before.state, end, analyzer::apply_stmt(cx, w, s))
        }),
{
    let before = analyzer::apply_expr(cx, w, iter).typed(var.name@, Some(infer::path_at("i32"@, var.span)));
    let end = analyzer::walk_scope(cx, before.own(var.name@), body, before.state);
    lemma_meets(before.state, before.state, end.state);
}

/// A `while`: its condition is met first, and its body may not run.
pub proof fn a_while_loop_may_not_run(cx: CxV, w: WorldV, s: Stmt, cond: Expr, body: Block)
    requires
        s.kind == (StmtKind::While { cond, body }),
    ensures
        ({
            let before = analyzer::apply_expr(cx, w, cond);
            let end = analyzer::walk_scope(cx, before, body, before.state);
            is_after_loop(before.state, end, analyzer::apply_stmt(cx, w, s))
        }),
{
    let before = analyzer::apply_expr(cx, w, cond);
    lemma_meets(before.state, before.state, analyzer::walk_scope(cx, before, body, before.state).state);
}

/// A `loop`: what follows it may be reached before its body has run to the end.
pub proof fn a_loop_may_be_left(cx: CxV, w: WorldV, s: Stmt, body: Block)
    requires
        s.kind == StmtKind::Loop(body),
    ensures
        is_after_loop(w.state, analyzer::walk_scope(cx, w, body, w.state), analyzer::apply_stmt(cx, w, s)),
{
    lemma_meets(w.state, w.state, analyzer::walk_scope(cx, w, body, w.state).state);
}

/// A `for` with a head of three parts: the first statement, the condition and the updates are
/// met in turn, and its body may not run.
pub proof fn a_counting_loop_may_not_run(
    cx: CxV,
    w: WorldV,
    s: Stmt,
    init: Option<Box<Stmt>>,
    cond: Option<Expr>,
    update: Vec<Expr>,
    body: Block,
)
    requires
        s.kind == StmtKind::For(ForLoop::CStyle { init, cond, update, body }),
    ensures
        ({
            let a = match init {
                Some(x) => analyzer::apply_stmt(cx, w, *x),
                None => w,
            };
            let b = match cond {
                Some(c) => analyzer::apply_expr(cx, a, c),
                None => a,
            };
            let before = analyzer::apply_exprs(cx, b, update@, 0);
            let end = analyzer::walk_scope(cx, before, body, before.state);
            is_after_loop(before.state, end, analyzer::apply_stmt(cx, w, s))
        }),
{
    let a = match init {
        Some(x) => analyzer::apply_stmt(cx, w, *x),
        None => w,
    };
    let b = match cond {
        Some(c) => analyzer::apply_expr(cx, a, c),
        None => a,
    };
    let before = analyzer::apply_exprs(cx, b, update@, 0);
    assert(analyzer::apply_stmt(cx, w, s) == analyzer::apply_for(cx, w, ForLoop::CStyle { init, cond, update, body }));
    assert(analyzer::apply_stmt(cx, w, s) == analyzer::loop_body(cx, before, body));
    lemma_meets(before.state, before.state, analyzer::walk_scope(cx, before, body, before.state).state);
}

/// What the body of any loop moves is in doubt after the loop.
pub proof fn moves_in_loops_leave_doubt(before: StateV, end: WorldV, after: WorldV, p: PlaceV)
    requires
        is_after_loop(before, end, after),
        ordered::ord_sorted::<Place, PlaceStateV>(before),
        place::st_get(before, p) == Some(PlaceStateV::Owned),
        place::st_get(end.state, p) == Some(PlaceStateV::Moved),
    ensures
        place::st_get(after.state, p) == Some(PlaceStateV::MaybePartial),
{
    let k = ordered::ord_pos::<Place, PlaceStateV>(before, p, 0) as int;
    assert(before[k].0 == p);
    assert(after.state[k].0 == p);
    lemma_sorted_like(before, after.state);
    ownership::lemma_state_at(after.state, k);
}

proof fn lemma_sorted_like(a: StateV, b: StateV)
    requires
        same_places(a, b),
        ordered::ord_sorted::<Place, PlaceStateV>(a),
    ensures
        ordered::ord_sorted::<Place, PlaceStateV>(b),
{
    assert forall|i: int, j: int| 0 <= i < j < b.len() implies <Place as ordered::OrdKey>::lt(
        (#[trigger] b[i]).0,
        (#[trigger] b[j]).0,
    ) by {
        assert(a[i].0 == b[i].0);
        assert(a[j].0 == b[j].0);
    }
}

// ---------------------------------------------------------------------------
// Blocks.

/// Every listed place is one of the outer ones.
pub open spec fn are_outer(s: StateV, outer: StateV) -> bool {
    forall|k: int| 0 <= k < s.len() ==> place::st_has(outer, (#[trigger] s[k]).0)
}

proof fn lemma_retained(acc: StateV, s: StateV, outer: StateV, i: nat)
    requires
        are_outer(acc, outer),
    ensures
        are_outer(analyzer::retained(acc, s, outer, i), outer),
    decreases s.len() - i,
{
    if i < s.len() {
        let next = if place::st_has(outer, s[i as int].0) {
            acc.push(s[i as int])
        } else {
            acc
        };
        assert forall|k: int| 0 <= k < next.len() implies place::st_has(outer, (#[trigger] next[k]).0) by {
            if k < acc.len() {
                assert(next[k] == acc[k]);
            }
        }
        lemma_retained(next, s, outer, i + 1);
    }
}

/// What a block declares is gone after it: only places from outside it are still listed.
pub proof fn blocks_leave_no_names(cx: CxV, w: WorldV, b: Block, outer: StateV)
    ensures
        are_outer(analyzer::walk_scope(cx, w, b, outer).state, outer),
{
    let u = analyzer::walk_stmts(cx, w, b.stmts@, analyzer::last_uses(cx, w.env(), b), 0);
    let v = match b.tail {
        Some(t) => analyzer::apply_expr(cx, u, *t),
        None => u,
    };
    let dying = analyzer::dying_roots(Seq::empty(), v.state, outer, 0);
    lemma_retained(Seq::empty(), v.drop_names(dying, 0).state, outer, 0);
}

// ---------------------------------------------------------------------------
// Branches.

/// An `if` with an `else`: where neither branch leaves, what they know meets; where one leaves,
/// what the other knows holds.
pub proof fn branches_meet(cx: CxV, w: WorldV, e: Expr, cond: Box<Expr>, then: Block, other: Box<Expr>)
    requires
        e.kind == (ExprKind::If { cond, then, else_branch: Some(other) }),
    ensures
        ({
            let before = analyzer::apply_expr(cx, w, *cond);
            let a = analyzer::walk_scope(cx, before, then, before.state);
            let b = analyzer::apply_expr(cx, a.with_state(before.state), *other);
            let after = analyzer::apply_expr(cx, w, e);
            let kept = analyzer::retain(b.state, before.state);
            &&& after.diags == b.diags
            &&& same_places(before.state, after.state)
            &&& !walks::block_leaves(then) && !walks::expr_leaves(*other) ==> meets(before.state, a.state, kept, after.state)
            &&& walks::block_leaves(then) && !walks::expr_leaves(*other) ==> forall|k: int|
                0 <= k < after.state.len() ==> (#[trigger] after.state[k]).1 == analyzer::arm_state(kept, after.state[k].0)
            &&& !walks::block_leaves(then) && walks::expr_leaves(*other) ==> forall|k: int|
                0 <= k < after.state.len() ==> (#[trigger] after.state[k]).1 == analyzer::arm_state(a.state, after.state[k].0)
        }),
{
    let before = analyzer::apply_expr(cx, w, *cond);
    let a = analyzer::walk_scope(cx, before, then, before.state);
    let b = analyzer::apply_expr(cx, a.with_state(before.state), *other);
    let kept = analyzer::retain(b.state, before.state);
    lemma_meets(before.state, a.state, kept);
    lemma_one_left(before.state, a.state, kept);
}

/// An `if` without an `else`: the branch may not be taken.
pub proof fn a_branch_may_not_be_taken(cx: CxV, w: WorldV, e: Expr, cond: Box<Expr>, then: Block)
    requires
        e.kind == (ExprKind::If { cond, then, else_branch: None }),
    ensures
        ({
            let before = analyzer::apply_expr(cx, w, *cond);
            let a = analyzer::walk_scope(cx, before, then, before.state);
            let after = analyzer::apply_expr(cx, w, e);
            &&& after.diags == a.diags
            &&& same_places(before.state, after.state)
            &&& !walks::block_leaves(then) ==> meets(before.state, a.state, before.state, after.state)
            &&& walks::block_leaves(then) ==> forall|k: int|
                0 <= k < after.state.len() ==> (#[trigger] after.state[k]).1 == analyzer::arm_state(
                    before.state,
                    after.state[k].0,
                )
        }),
{
    let before = analyzer::apply_expr(cx, w, *cond);
    let a = analyzer::walk_scope(cx, before, then, before.state);
    lemma_meets(before.state, a.state, before.state);
    lemma_one_left(before.state, a.state, before.state);
}

// ---------------------------------------------------------------------------
// Arms.

/// An arm of a match was walked from the places before the match, and left them like this.
pub open spec fn is_arm_end(cx: CxV, pre: StateV, arm: MatchArm, end: StateV) -> bool {
    exists|u: WorldV| u.state == pre && end == analyzer::retain((#[trigger] analyzer::apply_expr(cx, u, arm.body)).state, pre)
}

proof fn lemma_arm_ends(
    cx: CxV,
    w: WorldV,
    pre: StateV,
    scrutinee: Expr,
    arms: Seq<MatchArm>,
    states: Seq<StateV>,
    leaves: Seq<bool>,
    i: nat,
)
    requires
        i <= arms.len(),
        states.len() == i,
        leaves.len() == i,
        forall|k: int| 0 <= k < i ==> is_arm_end(cx, pre, arms[k], #[trigger] states[k]),
        forall|k: int| 0 <= k < i ==> #[trigger] leaves[k] == walks::expr_leaves(arms[k].body),
    ensures
        ({
            let (v, ss, ls) = analyzer::apply_arms(cx, w, pre, scrutinee, arms, states, leaves, i);
            &&& ss.len() == arms.len()
            &&& ls.len() == arms.len()
            &&& forall|k: int| 0 <= k < arms.len() ==> is_arm_end(cx, pre, arms[k], #[trigger] ss[k])
            &&& forall|k: int| 0 <= k < arms.len() ==> #[trigger] ls[k] == walks::expr_leaves(arms[k].body)
        }),
    decreases arms.len() - i,
{
    if i < arms.len() {
        let arm = arms[i as int];
        let u = WorldV {
            inferred: infer::with_pattern(w.inferred, cx.sigs, arm.pattern, infer::infer(cx.sigs, w.env(), scrutinee)),
            state: pre,
            ..w
        };
        let v = analyzer::apply_expr(cx, u, arm.body);
        let end = analyzer::retain(v.state, pre);
        assert(is_arm_end(cx, pre, arm, end));
        let ss = states.push(end);
        let ls = leaves.push(walks::expr_leaves(arm.body));
        assert forall|k: int| 0 <= k < i + 1 implies is_arm_end(cx, pre, arms[k], #[trigger] ss[k]) by {
            if k < i {
                assert(ss[k] == states[k]);
            }
        }
        assert forall|k: int| 0 <= k < i + 1 implies #[trigger] ls[k] == walks::expr_leaves(arms[k].body) by {
            if k < i {
                assert(ls[k] == leaves[k]);
            }
        }
        lemma_arm_ends(cx, v, pre, scrutinee, arms, ss, ls, i + 1);
    }
}

proof fn lemma_doubt_stays(arms: Seq<StateV>, p: PlaceV, i: nat)
    ensures
        analyzer::merged_over(arms, p, PlaceStateV::MaybePartial, i) == PlaceStateV::MaybePartial,
    decreases arms.len() - i,
{
    if i < arms.len() {
        lemma_doubt_stays(arms, p, i + 1);
    }
}

/// Only owned and moved places meet, so the outcome is one of them, or doubt.
spec fn is_plain(s: PlaceStateV) -> bool {
    s == PlaceStateV::Owned || s == PlaceStateV::Moved
}

proof fn lemma_merged_over(arms: Seq<StateV>, p: PlaceV, acc: PlaceStateV, i: nat, k: int)
    requires
        is_plain(acc),
        forall|j: int| i <= j < arms.len() ==> is_plain(analyzer::arm_state(#[trigger] arms[j], p)),
        i <= k < arms.len(),
        analyzer::arm_state(arms[k], p) != acc,
    ensures
        analyzer::merged_over(arms, p, acc, i) == PlaceStateV::MaybePartial,
    decreases arms.len() - i,
{
    let here = analyzer::arm_state(arms[i as int], p);
    if here != acc {
        lemma_doubt_stays(arms, p, i + 1);
    } else {
        lemma_merged_over(arms, p, acc, i + 1, k);
    }
}

/// The arms that do not leave, by their numbers.
proof fn lemma_reaching(arms: Seq<StateV>, leaves: Seq<bool>, acc: Seq<StateV>, i: nat)
    requires
        arms.len() == leaves.len(),
        i <= arms.len(),
    ensures
        acc.is_prefix_of(analyzer::reaching(arms, leaves, acc, i)),
        forall|k: int|
            i <= k < arms.len() && !leaves[k] ==> analyzer::reaching(arms, leaves, acc, i).contains(#[trigger] arms[k]),
        forall|m: int|
            acc.len() <= m < analyzer::reaching(arms, leaves, acc, i).len() ==> exists|k: int|
                i <= k < arms.len() && !leaves[k] && #[trigger] arms[k] == (#[trigger] analyzer::reaching(
                    arms,
                    leaves,
                    acc,
                    i,
                )[m]),
    decreases arms.len() - i,
{
    if i < arms.len() {
        let next = if leaves[i as int] {
            acc
        } else {
            acc.push(arms[i as int])
        };
        lemma_reaching(arms, leaves, next, i + 1);
        let all = analyzer::reaching(arms, leaves, acc, i);
        if !leaves[i as int] {
            assert(all[acc.len() as int] == next[acc.len() as int]);
            assert(all.contains(arms[i as int]));
        }
        assert forall|m: int| acc.len() <= m < all.len() implies exists|k: int|
            i <= k < arms.len() && !leaves[k] && #[trigger] arms[k] == (#[trigger] all[m]) by {
            if m < next.len() {
                assert(arms[i as int] == all[m]);
            } else {
                let k = choose|k: int| i + 1 <= k < arms.len() && !leaves[k] && #[trigger] arms[k] == all[m];
                assert(arms[k] == all[m]);
            }
        }
    }
}

/// A match: every arm is walked from what is known before it; a place that one arm moves and
/// another, that does not leave either, still owns is in doubt after it.
pub proof fn arms_meet(cx: CxV, w: WorldV, e: Expr, scrutinee: Box<Expr>, arms: Vec<MatchArm>) -> (ends: Seq<StateV>)
    requires
        e.kind == (ExprKind::Match { scrutinee, arms }),
        arms@.len() > 0,
    ensures
        ({
            let pre = analyzer::apply_expr(cx, w, *scrutinee).state;
            let after = analyzer::apply_expr(cx, w, e).state;
            &&& ends.len() == arms@.len()
            &&& forall|k: int| 0 <= k < ends.len() ==> is_arm_end(cx, pre, arms@[k], #[trigger] ends[k])
            &&& same_places(pre, after)
            &&& forall|i: int, j: int, p: int|
                #![trigger ends[i], ends[j], after[p]]
                0 <= i < ends.len() && 0 <= j < ends.len() && 0 <= p < after.len() && !walks::expr_leaves(arms@[i].body)
                    && !walks::expr_leaves(arms@[j].body) && analyzer::arm_state(ends[i], after[p].0) == PlaceStateV::Moved
                    && analyzer::arm_state(ends[j], after[p].0) == PlaceStateV::Owned && (forall|k: int|
                    0 <= k < ends.len() ==> is_plain_at(#[trigger] ends[k], after[p].0)) ==> after[p].1
                    == PlaceStateV::MaybePartial
        }),
{
    let a = analyzer::apply_expr(cx, w, *scrutinee);
    let pre = a.state;
    let (v, ss, ls) = analyzer::apply_arms(cx, a, pre, *scrutinee, arms@, Seq::empty(), Seq::empty(), 0);
    lemma_arm_ends(cx, a, pre, *scrutinee, arms@, Seq::empty(), Seq::empty(), 0);
    let after = analyzer::apply_expr(cx, w, e).state;
    assert(after == analyzer::merge_arms(pre, ss, ls));
    let live = analyzer::reaching(ss, ls, Seq::empty(), 0);
    lemma_reaching(ss, ls, Seq::empty(), 0);
    assert forall|i: int, j: int, p: int|
        #![trigger ss[i], ss[j], after[p]]
        0 <= i < ss.len() && 0 <= j < ss.len() && 0 <= p < after.len() && !walks::expr_leaves(arms@[i].body)
            && !walks::expr_leaves(arms@[j].body) && analyzer::arm_state(ss[i], after[p].0) == PlaceStateV::Moved
            && analyzer::arm_state(ss[j], after[p].0) == PlaceStateV::Owned && (forall|k: int|
            0 <= k < ss.len() ==> is_plain_at(#[trigger] ss[k], after[p].0)) implies after[p].1
        == PlaceStateV::MaybePartial by {
        assert(!ls[i] && !ls[j]);
        assert(live.contains(ss[i]) && live.contains(ss[j]));
        let x = choose|x: int| 0 <= x < live.len() && live[x] == ss[i];
        let y = choose|y: int| 0 <= y < live.len() && live[y] == ss[j];
        let q = pre[p].0;
        let first = analyzer::arm_state(live[0], q);
        assert forall|m: int| 0 <= m < live.len() implies is_plain(analyzer::arm_state(#[trigger] live[m], q)) by {
            let k = choose|k: int| 0 <= k < ss.len() && !ls[k] && #[trigger] ss[k] == live[m];
            assert(is_plain_at(ss[k], after[p].0));
        }
        if first == PlaceStateV::Moved {
            lemma_merged_over(live, q, first, 1, y);
        } else {
            lemma_merged_over(live, q, first, 1, x);
        }
    }
    ss
}

/// The place is owned or moved.
pub open spec fn is_plain_at(s: StateV, p: PlaceV) -> bool {
    analyzer::arm_state(s, p) == PlaceStateV::Owned || analyzer::arm_state(s, p) == PlaceStateV::Moved
}

} // verus!
