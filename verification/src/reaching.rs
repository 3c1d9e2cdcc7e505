//! What a walk over a body meets: every part of it, however deep it stands.
use vstd::prelude::*;
use crate::analyzer;
use crate::borrows;
use crate::conflicts;
use crate::infer;
use crate::messages;
use crate::ordered;
use crate::ownership;
use crate::parts;
use crate::place;
use crate::sigs;
use crate::text;
use crate::walks;
use crate::analyzer::CallV;
use crate::ast::{AsmOperand, Block, Expr, ExprKind, FieldInit, ForLoop, Ident, InterpStrPart, MatchArm, Param, Receiver, Span, Stmt, StmtKind, TypeV};
use crate::borrows::{CxV, WorldV};
use crate::conflicts::ArgClaimV;
use crate::messages::RawDiagV;
use crate::ownership::follows;
use crate::parts::Node;
use crate::place::{PlaceOverlap, PlaceV, PointSnapshotV, StateV};
use crate::sigs::{ClaimKind, FnEntryV};

verus! {

/// Walking the call leads to the report, from wherever the walk comes to it.
pub open spec fn always_reports(cx: CxV, n: Node, d: RawDiagV) -> bool {
    match n {
        Node::Expr(x) => x.kind is Call && forall|w: WorldV| (#[trigger] analyzer::apply_expr(cx, w, x)).diags.contains(d),
        _ => false,
    }
}

proof fn lemma_stays(a: WorldV, b: WorldV, d: RawDiagV)
    requires
        follows(a, b),
        a.diags.contains(d),
    ensures
        b.diags.contains(d),
{
    let k = choose|k: int| 0 <= k < a.diags.len() && a.diags[k] == d;
    assert(b.diags[k] == d);
}

proof fn meet_exprs(cx: CxV, w: WorldV, es: Seq<Expr>, i: nat, n: Node, d: RawDiagV)
    requires
        always_reports(cx, n, d),
        parts::in_exprs(es, n, false, i),
    ensures
        analyzer::apply_exprs(cx, w, es, i).diags.contains(d),
    decreases es, es.len() - i,
{
    let v = analyzer::apply_expr(cx, w, es[i as int]);
    if parts::in_expr(es[i as int], n, false) {
        meet_expr(cx, w, es[i as int], n, d);
        ownership::lemma_exprs(cx, v, es, i + 1);
        lemma_stays(v, analyzer::apply_exprs(cx, w, es, i), d);
    } else {
        meet_exprs(cx, v, es, i + 1, n, d);
    }
}

proof fn meet_operands(cx: CxV, w: WorldV, ops: Seq<AsmOperand>, i: nat, n: Node, d: RawDiagV)
    requires
        always_reports(cx, n, d),
        parts::in_operands(ops, n, false, i),
    ensures
        analyzer::apply_operands(cx, w, ops, i).diags.contains(d),
    decreases ops, ops.len() - i,
{
    let v = analyzer::apply_expr(cx, w, ops[i as int].value);
    if parts::in_expr(ops[i as int].value, n, false) {
        meet_expr(cx, w, ops[i as int].value, n, d);
        ownership::lemma_operands(cx, v, ops, i + 1);
        lemma_stays(v, analyzer::apply_operands(cx, w, ops, i), d);
    } else {
        meet_operands(cx, v, ops, i + 1, n, d);
    }
}

proof fn meet_elems(cx: CxV, w: WorldV, es: Seq<Expr>, i: nat, n: Node, d: RawDiagV)
    requires
        always_reports(cx, n, d),
        parts::in_exprs(es, n, false, i),
    ensures
        analyzer::apply_elems(cx, w, es, i).diags.contains(d),
    decreases es, es.len() - i,
{
    let v = analyzer::apply_elem(cx, w, es[i as int]);
    if parts::in_expr(es[i as int], n, false) {
        meet_elem(cx, w, es[i as int], n, d);
        ownership::lemma_elems(cx, v, es, i + 1);
        lemma_stays(v, analyzer::apply_elems(cx, w, es, i), d);
    } else {
        meet_elems(cx, v, es, i + 1, n, d);
    }
}

proof fn meet_fields(cx: CxV, w: WorldV, fs: Seq<FieldInit>, i: nat, n: Node, d: RawDiagV)
    requires
        always_reports(cx, n, d),
        parts::in_fields(fs, n, false, i),
    ensures
        analyzer::apply_fields(cx, w, fs, i).diags.contains(d),
    decreases fs, fs.len() - i,
{
    let v = analyzer::apply_elem(cx, w, fs[i as int].value);
    if parts::in_expr(fs[i as int].value, n, false) {
        meet_elem(cx, w, fs[i as int].value, n, d);
        ownership::lemma_fields(cx, v, fs, i + 1);
        lemma_stays(v, analyzer::apply_fields(cx, w, fs, i), d);
    } else {
        meet_fields(cx, v, fs, i + 1, n, d);
    }
}

proof fn meet_parts(cx: CxV, w: WorldV, ps: Seq<InterpStrPart>, i: nat, n: Node, d: RawDiagV)
    requires
        always_reports(cx, n, d),
        parts::in_text_parts(ps, n, false, i),
    ensures
        analyzer::apply_parts(cx, w, ps, i).diags.contains(d),
    decreases ps, ps.len() - i,
{
    let v = match ps[i as int] {
        InterpStrPart::Expr(e) => analyzer::apply_expr(cx, w, e),
        InterpStrPart::Text(_) => w,
    };
    let here = match ps[i as int] {
        InterpStrPart::Expr(e) => parts::in_expr(e, n, false),
        InterpStrPart::Text(_) => false,
    };
    if here {
        if let InterpStrPart::Expr(e) = ps[i as int] {
            meet_expr(cx, w, e, n, d);
        }
        ownership::lemma_parts(cx, v, ps, i + 1);
        lemma_stays(v, analyzer::apply_parts(cx, w, ps, i), d);
    } else {
        meet_parts(cx, v, ps, i + 1, n, d);
    }
}

proof fn meet_elem(cx: CxV, w: WorldV, e: Expr, n: Node, d: RawDiagV)
    requires
        always_reports(cx, n, d),
        parts::in_expr(e, n, false),
    ensures
        analyzer::apply_elem(cx, w, e).diags.contains(d),
    decreases e, 3nat,
{
    meet_expr(cx, w, e, n, d);
}

proof fn meet_args(cx: CxV, w: WorldV, args: Seq<Expr>, call: CallV, i: nat, n: Node, d: RawDiagV)
    requires
        always_reports(cx, n, d),
        parts::in_exprs(args, n, false, i),
    ensures
        analyzer::apply_args(cx, w, args, call, i).diags.contains(d),
    decreases args, args.len() - i,
{
    let arg = args[i as int];
    let v = if analyzer::arg_moves(cx, w, arg, call, i as int) {
        w.move_out(cx, analyzer::ident_of(arg), arg.span)
    } else {
        analyzer::apply_expr(cx, w, arg)
    };
    if parts::in_expr(arg, n, false) {
        meet_expr(cx, w, arg, n, d);
        ownership::lemma_args(cx, v, args, call, i + 1);
        lemma_stays(v, analyzer::apply_args(cx, w, args, call, i), d);
    } else {
        meet_args(cx, v, args, call, i + 1, n, d);
    }
}

proof fn meet_call(cx: CxV, w: WorldV, e: Expr, n: Node, d: RawDiagV)
    requires
        always_reports(cx, n, d),
        e.kind is Call,
        parts::in_expr(e, n, false),
    ensures
        analyzer::apply_expr(cx, w, e).diags.contains(d),
    decreases e, 1nat,
{
    assert(analyzer::apply_expr(cx, w, e) == analyzer::apply_call(cx, w, e));
    if n == Node::Expr(e) {
    } else if let ExprKind::Call { callee, args, .. } = e.kind {
        let a = match callee.kind {
            ExprKind::Field { receiver, name } => w.check_receiver(cx, *receiver, name.name@),
            _ => w,
        };
        let b = analyzer::apply_expr(cx, a, *callee);
        let here = parts::in_expr(*callee, n, false);
        if here {
            meet_expr(cx, a, *callee, n, d);
        }
        if analyzer::is_enum_path(cx, *callee) {
            if here {
                ownership::lemma_elems(cx, b, args@, 0);
                lemma_stays(b, analyzer::apply_call(cx, w, e), d);
            } else {
                meet_elems(cx, b, args@, 0, n, d);
            }
        } else {
            let call = analyzer::call_info(cx, b.env(), *callee);
            let c = WorldV {
                diags: conflicts::call_conflicts(cx, b.env(), b.diags, args@, call.moves, call.muts, analyzer::receiver_of(*callee, call)),
                ..b
            };
            ownership::lemma_call_conflicts(cx, b.env(), b.diags, args@, call.moves, call.muts, analyzer::receiver_of(*callee, call));
            assert(follows(b, c));
            let f = c.check_ref_args(args@, call.muts, 0);
            ownership::lemma_check_ref_args(c, args@, call.muts, 0);
            let g = analyzer::apply_args(cx, f, args@, call, 0);
            ownership::lemma_args(cx, f, args@, call, 0);
            let h = g.tie_receiver(cx, args@, call, callee.span);
            ownership::lemma_tie_receiver(g, cx, args@, call, callee.span);
            ownership::lemma_tie_flows(h, cx, args@, analyzer::flows_of(cx, *callee), callee.span, 0);
            if here {
                lemma_stays(b, c, d);
                lemma_stays(c, f, d);
                lemma_stays(f, g, d);
            } else {
                meet_args(cx, f, args@, call, 0, n, d);
            }
            lemma_stays(g, h, d);
            lemma_stays(h, analyzer::apply_call(cx, w, e), d);
        }
    }
}

proof fn meet_arms(
    cx: CxV,
    w: WorldV,
    pre: StateV,
    scrutinee: Expr,
    arms: Seq<MatchArm>,
    states: Seq<StateV>,
    leaves: Seq<bool>,
    i: nat,
    n: Node,
    d: RawDiagV,
)
    requires
        always_reports(cx, n, d),
        parts::in_arms(arms, n, false, i),
    ensures
        analyzer::apply_arms(cx, w, pre, scrutinee, arms, states, leaves, i).0.diags.contains(d),
    decreases arms, arms.len() - i,
{
    let arm = arms[i as int];
    let a = WorldV {
        inferred: infer::with_pattern(w.inferred, cx.sigs, arm.pattern, infer::infer(cx.sigs, w.env(), scrutinee)),
        state: pre,
        ..w
    };
    let b = analyzer::apply_expr(cx, a, arm.body);
    let states = states.push(analyzer::retain(b.state, pre));
    let leaves = leaves.push(walks::expr_leaves(arm.body));
    if parts::in_expr(arm.body, n, false) {
        meet_expr(cx, a, arm.body, n, d);
        ownership::lemma_arms_reports(cx, b, pre, scrutinee, arms, states, leaves, i + 1);
        let k = choose|k: int| 0 <= k < b.diags.len() && b.diags[k] == d;
        let after = analyzer::apply_arms(cx, b, pre, scrutinee, arms, states, leaves, i + 1).0;
        assert(after.diags[k] == d);
    } else {
        meet_arms(cx, b, pre, scrutinee, arms, states, leaves, i + 1, n, d);
    }
}

proof fn meet_if(cx: CxV, w: WorldV, e: Expr, n: Node, d: RawDiagV)
    requires
        always_reports(cx, n, d),
        e.kind is If,
        parts::in_expr(e, n, false),
    ensures
        analyzer::apply_expr(cx, w, e).diags.contains(d),
    decreases e, 1nat,
{
    if let ExprKind::If { cond, then, else_branch } = e.kind {
        let a = analyzer::apply_expr(cx, w, *cond);
        let pre = a.state;
        let b = analyzer::walk_scope(cx, a, then, pre);
        ownership::lemma_scope(cx, a, then, pre);
        if let Some(x) = else_branch {
            ownership::lemma_expr(cx, b.with_state(pre), *x);
        }
        if parts::in_expr(*cond, n, false) {
            meet_expr(cx, w, *cond, n, d);
            lemma_stays(a, b, d);
        } else if parts::in_block(then, n, false) {
            meet_scope(cx, a, then, pre, n, d);
        } else if let Some(x) = else_branch {
            meet_expr(cx, b.with_state(pre), *x, n, d);
        }
        if let Some(x) = else_branch {
            if parts::in_expr(*cond, n, false) || parts::in_block(then, n, false) {
                lemma_stays_in(b.diags, analyzer::apply_expr(cx, b.with_state(pre), *x).diags, d);
            }
        }
    }
}

proof fn lemma_stays_in(a: Seq<RawDiagV>, b: Seq<RawDiagV>, d: RawDiagV)
    requires
        a.is_prefix_of(b),
        a.contains(d),
    ensures
        b.contains(d),
{
    let k = choose|k: int| 0 <= k < a.len() && a[k] == d;
    assert(b[k] == d);
}

proof fn meet_match(cx: CxV, w: WorldV, e: Expr, n: Node, d: RawDiagV)
    requires
        always_reports(cx, n, d),
        e.kind is Match,
        parts::in_expr(e, n, false),
    ensures
        analyzer::apply_expr(cx, w, e).diags.contains(d),
    decreases e, 1nat,
{
    if let ExprKind::Match { scrutinee, arms } = e.kind {
        let a = analyzer::apply_expr(cx, w, *scrutinee);
        if arms@.len() > 0 {
            ownership::lemma_arms_reports(cx, a, a.state, *scrutinee, arms@, Seq::empty(), Seq::empty(), 0);
        }
        if parts::in_expr(*scrutinee, n, false) {
            meet_expr(cx, w, *scrutinee, n, d);
            if arms@.len() > 0 {
                lemma_stays_in(
                    a.diags,
                    analyzer::apply_arms(cx, a, a.state, *scrutinee, arms@, Seq::empty(), Seq::empty(), 0).0.diags,
                    d,
                );
            }
        } else {
            meet_arms(cx, a, a.state, *scrutinee, arms@, Seq::empty(), Seq::empty(), 0, n, d);
        }
    }
}

proof fn meet_assign(cx: CxV, w: WorldV, e: Expr, n: Node, d: RawDiagV)
    requires
        always_reports(cx, n, d),
        e.kind is Assign,
        parts::in_expr(e, n, false),
    ensures
        analyzer::apply_expr(cx, w, e).diags.contains(d),
    decreases e, 1nat,
{
    if let ExprKind::Assign { target, value, .. } = e.kind {
        let heal = analyzer::heals(w, *target);
        let a = if heal {
            w
        } else {
            analyzer::apply_expr(cx, w, *target)
        };
        let b = a.check_write(*target);
        assert(follows(a, b));
        let s = borrows::sources_of(cx, b.env(), *value);
        let c = analyzer::apply_expr(cx, b, *value);
        ownership::lemma_expr(cx, b, *value);
        let f = if heal {
            c.own(analyzer::ident_of(*target))
        } else {
            c
        };
        ownership::lemma_rebind(f, cx, *target, *value, s);
        if parts::in_expr(*target, n, false) {
            meet_expr(cx, w, *target, n, d);
            assert(!heal);
            lemma_stays(a, b, d);
            lemma_stays(b, c, d);
        } else {
            meet_expr(cx, b, *value, n, d);
        }
        assert(f.diags == c.diags);
        lemma_stays(f, analyzer::apply_expr(cx, w, e), d);
    }
}

/// Two expressions that are walked one after the other.
proof fn meet_either(cx: CxV, w: WorldV, a: Expr, b: Expr, n: Node, d: RawDiagV)
    requires
        always_reports(cx, n, d),
        parts::in_expr(a, n, false) ==> analyzer::apply_expr(cx, w, a).diags.contains(d),
        parts::in_expr(b, n, false) ==> analyzer::apply_expr(cx, analyzer::apply_expr(cx, w, a), b).diags.contains(d),
        parts::in_expr(a, n, false) || parts::in_expr(b, n, false),
    ensures
        analyzer::apply_expr(cx, analyzer::apply_expr(cx, w, a), b).diags.contains(d),
{
    let v = analyzer::apply_expr(cx, w, a);
    ownership::lemma_expr(cx, v, b);
    if parts::in_expr(a, n, false) {
        lemma_stays(v, analyzer::apply_expr(cx, v, b), d);
    }
}

proof fn meet_expr(cx: CxV, w: WorldV, e: Expr, n: Node, d: RawDiagV)
    requires
        always_reports(cx, n, d),
        parts::in_expr(e, n, false),
    ensures
        analyzer::apply_expr(cx, w, e).diags.contains(d),
    decreases e, 2nat,
{
    if n == Node::Expr(e) {
    } else {
        match e.kind {
            ExprKind::Intrinsic { args, .. } => meet_exprs(cx, w, args@, 0, n, d),
            ExprKind::Asm { operands, .. } => meet_operands(cx, w, operands@, 0, n, d),
            ExprKind::InterpStr { parts } => meet_parts(cx, w, parts@, 0, n, d),
            ExprKind::Field { receiver, .. } => meet_expr(cx, w, *receiver, n, d),
            ExprKind::Index { receiver, index } => match place::place_of(e) {
                Some(p) => meet_expr(cx, w.read_place(cx, p, e.span), *index, n, d),
                None => {
                    if parts::in_expr(*receiver, n, false) {
                        meet_expr(cx, w, *receiver, n, d);
                    }
                    if parts::in_expr(*index, n, false) {
                        meet_expr(cx, analyzer::apply_expr(cx, w, *receiver), *index, n, d);
                    }
                    meet_either(cx, w, *receiver, *index, n, d);
                },
            },
            ExprKind::Block(b) => meet_scope(cx, w, b, w.state, n, d),
            ExprKind::Await(inner) => meet_expr(cx, w, *inner, n, d),
            ExprKind::Yield(inner) => meet_expr(cx, w, *inner, n, d),
            ExprKind::If { .. } => meet_if(cx, w, e, n, d),
            ExprKind::Call { .. } => meet_call(cx, w, e, n, d),
            ExprKind::Binary { lhs, rhs, .. } => {
                if parts::in_expr(*lhs, n, false) {
                    meet_expr(cx, w, *lhs, n, d);
                }
                if parts::in_expr(*rhs, n, false) {
                    meet_expr(cx, analyzer::apply_expr(cx, w, *lhs), *rhs, n, d);
                }
                meet_either(cx, w, *lhs, *rhs, n, d);
            },
            ExprKind::Unary { operand, .. } => meet_expr(cx, w, *operand, n, d),
            ExprKind::Range { .. } => meet_range(cx, w, e, n, d),
            ExprKind::Assign { .. } => meet_assign(cx, w, e, n, d),
            ExprKind::Cast { expr, .. } => meet_expr(cx, w, *expr, n, d),
            ExprKind::CastChecked { expr, .. } => meet_expr(cx, w, *expr, n, d),
            ExprKind::StructLit { fields, .. } => meet_fields(cx, w, fields@, 0, n, d),
            ExprKind::InferredStructLit { fields } => meet_fields(cx, w, fields@, 0, n, d),
            ExprKind::GenericStructLit { fields, .. } => meet_fields(cx, w, fields@, 0, n, d),
            ExprKind::ArrayFill { fill, .. } => meet_expr(cx, w, *fill, n, d),
            ExprKind::GenericEnumCall { enum_name, args, .. } => {
                if cx.sigs.enums.contains(enum_name.name@) {
                    meet_elems(cx, w, args@, 0, n, d);
                } else {
                    meet_exprs(cx, w, args@, 0, n, d);
                }
            },
            ExprKind::ArrayLit { elements } => meet_elems(cx, w, elements@, 0, n, d),
            ExprKind::TupleLit { elements } => meet_elems(cx, w, elements@, 0, n, d),
            ExprKind::Match { .. } => meet_match(cx, w, e, n, d),
            _ => {},
        }
    }
}

proof fn meet_range(cx: CxV, w: WorldV, e: Expr, n: Node, d: RawDiagV)
    requires
        always_reports(cx, n, d),
        e.kind is Range,
        parts::in_expr(e, n, false),
    ensures
        analyzer::apply_expr(cx, w, e).diags.contains(d),
    decreases e, 1nat,
{
    if let ExprKind::Range { start, end, .. } = e.kind {
        let a = match start {
            Some(x) => analyzer::apply_expr(cx, w, *x),
            None => w,
        };
        let early = match start {
            Some(x) => parts::in_expr(*x, n, false),
            None => false,
        };
        if early {
            if let Some(x) = start {
                meet_expr(cx, w, *x, n, d);
            }
            if let Some(x) = end {
                ownership::lemma_expr(cx, a, *x);
                lemma_stays(a, analyzer::apply_expr(cx, a, *x), d);
            }
        } else if let Some(x) = end {
            meet_expr(cx, a, *x, n, d);
        }
    }
}

proof fn meet_stmts(cx: CxV, w: WorldV, ss: Seq<Stmt>, uses: Seq<(Seq<char>, nat)>, i: nat, n: Node, d: RawDiagV)
    requires
        always_reports(cx, n, d),
        parts::in_stmts(ss, n, false, i),
    ensures
        analyzer::walk_stmts(cx, w, ss, uses, i).diags.contains(d),
    decreases ss, ss.len() - i,
{
    let u = analyzer::apply_stmt(cx, w, ss[i as int]);
    let v = u.release_after(uses, i, 0);
    ownership::lemma_release_after(u, uses, i, 0);
    if parts::in_stmt(ss[i as int], n, false) {
        meet_stmt(cx, w, ss[i as int], n, d);
        lemma_stays(u, v, d);
        ownership::lemma_stmts(cx, v, ss, uses, i + 1);
        lemma_stays(v, analyzer::walk_stmts(cx, w, ss, uses, i), d);
    } else {
        meet_stmts(cx, v, ss, uses, i + 1, n, d);
    }
}

proof fn meet_scope(cx: CxV, w: WorldV, b: Block, outer: StateV, n: Node, d: RawDiagV)
    requires
        always_reports(cx, n, d),
        parts::in_block(b, n, false),
    ensures
        analyzer::walk_scope(cx, w, b, outer).diags.contains(d),
    decreases b, 0nat,
{
    let uses = analyzer::last_uses(cx, w.env(), b);
    let u = analyzer::walk_stmts(cx, w, b.stmts@, uses, 0);
    let v = match b.tail {
        Some(t) => analyzer::apply_expr(cx, u, *t),
        None => u,
    };
    if let Some(t) = b.tail {
        ownership::lemma_expr(cx, u, *t);
    }
    if parts::in_stmts(b.stmts@, n, false, 0) {
        meet_stmts(cx, w, b.stmts@, uses, 0, n, d);
        lemma_stays(u, v, d);
    } else if let Some(t) = b.tail {
        meet_expr(cx, u, *t, n, d);
    }
    ownership::lemma_end_scope(v, outer);
    lemma_stays(v, analyzer::walk_scope(cx, w, b, outer), d);
}

proof fn meet_stmt(cx: CxV, w: WorldV, s: Stmt, n: Node, d: RawDiagV)
    requires
        always_reports(cx, n, d),
        parts::in_stmt(s, n, false),
    ensures
        analyzer::apply_stmt(cx, w, s).diags.contains(d),
    decreases s, 0nat,
{
    match s.kind {
        StmtKind::Let { name, ty, init, .. } => {
            let t = sigs::opt_type(ty);
            if let Some(e) = init {
                let src = analyzer::let_sources(cx, w, t, e);
                let v = match e.kind {
                    ExprKind::Ident(m) => if src.len() == 0 && w.non_copy(cx, m@) {
                        w.move_out(cx, m@, e.span)
                    } else {
                        analyzer::apply_expr(cx, w, e)
                    },
                    _ => analyzer::apply_expr(cx, w, e),
                };
                meet_expr(cx, w, e, n, d);
                ownership::lemma_bind_let(v, cx, name, t, init, src);
                lemma_stays(v, analyzer::apply_stmt(cx, w, s), d);
            }
        },
        StmtKind::LetDestructure { fields, init, .. } => {
            let src = borrows::sources_of(cx, w.env(), init);
            let u = w.guess_destructured(cx, fields@, init);
            let v = analyzer::apply_expr(cx, u, init);
            meet_expr(cx, u, init, n, d);
            ownership::lemma_bind_fields(v, fields@, src, 0);
            lemma_stays(v, analyzer::apply_stmt(cx, w, s), d);
        },
        StmtKind::Return(Some(e)) => meet_expr(cx, w, e, n, d),
        StmtKind::Expr(e) => meet_expr(cx, w, e, n, d),
        StmtKind::Defer(e) => meet_expr(cx, w, e, n, d),
        StmtKind::Assert(e) => meet_expr(cx, w, e, n, d),
        StmtKind::While { cond, body } => {
            let v = analyzer::apply_expr(cx, w, cond);
            ownership::lemma_loop(cx, v, body);
            if parts::in_expr(cond, n, false) {
                meet_expr(cx, w, cond, n, d);
                lemma_stays(v, analyzer::apply_stmt(cx, w, s), d);
            } else {
                meet_scope(cx, v, body, v.state, n, d);
            }
        },
        StmtKind::For(fl) => meet_for(cx, w, fl, n, d),
        StmtKind::Loop(b) => meet_scope(cx, w, b, w.state, n, d),
        _ => {},
    }
}

proof fn meet_for(cx: CxV, w: WorldV, fl: ForLoop, n: Node, d: RawDiagV)
    requires
        always_reports(cx, n, d),
        parts::in_for(fl, n, false),
    ensures
        analyzer::apply_for(cx, w, fl).diags.contains(d),
    decreases fl, 0nat,
{
    match fl {
        ForLoop::CStyle { init, cond, update, body } => {
            let a = match init {
                Some(s) => analyzer::apply_stmt(cx, w, *s),
                None => w,
            };
            let b = match cond {
                Some(c) => analyzer::apply_expr(cx, a, c),
                None => a,
            };
            let f = analyzer::apply_exprs(cx, b, update@, 0);
            let in_init = match init {
                Some(s) => parts::in_stmt(*s, n, false),
                None => false,
            };
            let in_cond = match cond {
                Some(c) => parts::in_expr(c, n, false),
                None => false,
            };
            if let Some(c) = cond {
                ownership::lemma_expr(cx, a, c);
            }
            ownership::lemma_exprs(cx, b, update@, 0);
            ownership::lemma_loop(cx, f, body);
            if in_init {
                if let Some(s) = init {
                    meet_stmt(cx, w, *s, n, d);
                }
                lemma_stays(a, b, d);
                lemma_stays(b, f, d);
                lemma_stays(f, analyzer::apply_for(cx, w, fl), d);
            } else if in_cond {
                if let Some(c) = cond {
                    meet_expr(cx, a, c, n, d);
                }
                lemma_stays(b, f, d);
                lemma_stays(f, analyzer::apply_for(cx, w, fl), d);
            } else if parts::in_exprs(update@, n, false, 0) {
                meet_exprs(cx, b, update@, 0, n, d);
                lemma_stays(f, analyzer::apply_for(cx, w, fl), d);
            } else {
                meet_scope(cx, f, body, f.state, n, d);
            }
        },
        ForLoop::Range { var, iter, body } => {
            let a = analyzer::apply_expr(cx, w, iter).typed(var.name@, Some(infer::path_at("i32"@, var.span)));
            let b = a.own(var.name@);
            let c = analyzer::walk_scope(cx, b, body, a.state);
            ownership::lemma_scope(cx, b, body, a.state);
            if parts::in_expr(iter, n, false) {
                meet_expr(cx, w, iter, n, d);
                assert(b.diags == analyzer::apply_expr(cx, w, iter).diags);
                lemma_stays(b, c, d);
            } else {
                meet_scope(cx, b, body, a.state, n, d);
            }
        },
    }
}

// ---------------------------------------------------------------------------
// Whole bodies.

proof fn meet_points(
    cx: CxV,
    w: WorldV,
    ss: Seq<Stmt>,
    uses: Seq<(Seq<char>, nat)>,
    acc: Seq<PointSnapshotV>,
    i: nat,
)
    ensures
        analyzer::points_from(cx, w, ss, uses, acc, i).0 == analyzer::walk_stmts(cx, w, ss, uses, i),
    decreases ss.len() - i,
{
    if i < ss.len() {
        let v = analyzer::apply_stmt(cx, w, ss[i as int]).release_after(uses, i, 0);
        meet_points(
            cx,
            v,
            ss,
            uses,
            acc.push(PointSnapshotV { label: "after stmt "@ + text::decimal(i), state: v.state }),
            i + 1,
        );
    }
}

proof fn meet_body(cx: CxV, w: WorldV, name: Seq<char>, b: Block, n: Node, d: RawDiagV)
    requires
        always_reports(cx, n, d),
        parts::in_block(b, n, false),
    ensures
        analyzer::walked_body(cx, w, name, b).0.diags.contains(d),
{
    let entry = seq![PointSnapshotV { label: "entry"@, state: w.state }];
    let uses = analyzer::last_uses(cx, w.env(), b);
    meet_points(cx, w, b.stmts@, uses, entry, 0);
    let u = analyzer::walk_stmts(cx, w, b.stmts@, uses, 0);
    if let Some(t) = b.tail {
        ownership::lemma_expr(cx, u, *t);
    }
    if parts::in_stmts(b.stmts@, n, false, 0) {
        meet_stmts(cx, w, b.stmts@, uses, 0, n, d);
        if let Some(t) = b.tail {
            lemma_stays(u, analyzer::apply_expr(cx, u, *t), d);
        }
    } else if let Some(t) = b.tail {
        meet_expr(cx, u, *t, n, d);
    }
}

/// What a call is bound to lead to is reported wherever the call stands in a function: in a loop
/// of any kind, a branch, an arm, a block, an argument, or any other expression.
pub proof fn calls_are_met_wherever_they_stand(cx: CxV, name: Seq<char>, ps: Seq<Param>, b: Block, n: Node, d: RawDiagV)
    requires
        always_reports(cx, n, d),
        parts::in_block(b, n, false),
    ensures
        analyzer::function_analysis(cx, name, ps, b).0.diags.contains(d),
{
    meet_body(cx, borrows::empty_world().enter(ps, 0), name, b, n, d);
}

/// The same holds of a method.
pub proof fn calls_are_met_in_methods(
    cx: CxV,
    name: Seq<char>,
    target: Seq<char>,
    receiver: Option<Receiver>,
    ps: Seq<Param>,
    b: Block,
    n: Node,
    d: RawDiagV,
)
    requires
        always_reports(cx, n, d),
        parts::in_block(b, n, false),
    ensures
        analyzer::method_analysis(cx, name, target, receiver, ps, b).0.diags.contains(d),
{
    let w = if receiver is Some {
        borrows::empty_world().enter_receiver(target)
    } else {
        borrows::empty_world()
    };
    meet_body(cx, w.enter(ps, 0), name, b, n, d);
}

// ---------------------------------------------------------------------------
// Lending one place twice.

/// The call lends the same place to the parameters `i` and `k` of a function that takes both by
/// `ref`.
pub open spec fn lends_twice(cx: CxV, x: Expr, i: int, k: int) -> bool {
    match x.kind {
        ExprKind::Call { callee, args, .. } => match callee.kind {
            ExprKind::Ident(g) => {
                &&& 0 <= i < k < args@.len()
                &&& cx.sigs.fns.dom().contains(g@)
                &&& is_ref_param(cx.sigs.fns[g@], i)
                &&& is_ref_param(cx.sigs.fns[g@], k)
                &&& place::place_of(args@[i]) is Some
                &&& place::place_of(args@[i]) == place::place_of(args@[k])
            },
            _ => false,
        },
        _ => false,
    }
}

pub open spec fn is_ref_param(e: FnEntryV, i: int) -> bool {
    &&& 0 <= i < e.param_muts.len()
    &&& e.param_muts[i]
    &&& !(i < e.param_moves.len() && e.param_moves[i])
}

proof fn lemma_row_has(
    cx: CxV,
    env: Map<Seq<char>, TypeV>,
    acc: Seq<RawDiagV>,
    a: ArgClaimV,
    i: nat,
    claims: Seq<Option<ArgClaimV>>,
    args: Seq<Expr>,
    j: nat,
    k: nat,
    d: RawDiagV,
)
    requires
        j <= k < args.len(),
        conflicts::pair_conflict(cx, env, a, i, claims, args, k) == Some(d),
    ensures
        conflicts::row_conflicts(cx, env, acc, a, i, claims, args, j).contains(d),
    decreases args.len() - j,
{
    let next = conflicts::push_opt(acc, conflicts::pair_conflict(cx, env, a, i, claims, args, j));
    if j == k {
        assert(next[acc.len() as int] == d);
        ownership::lemma_row_conflicts(cx, env, next, a, i, claims, args, j + 1);
        lemma_stays_in(next, conflicts::row_conflicts(cx, env, acc, a, i, claims, args, j), d);
    } else {
        lemma_row_has(cx, env, next, a, i, claims, args, j + 1, k, d);
    }
}

proof fn lemma_all_have(
    cx: CxV,
    env: Map<Seq<char>, TypeV>,
    acc: Seq<RawDiagV>,
    claims: Seq<Option<ArgClaimV>>,
    args: Seq<Expr>,
    h: nat,
    i: nat,
    k: nat,
    d: RawDiagV,
)
    requires
        h <= i < args.len(),
        k < args.len(),
        claims[i as int] is Some,
        conflicts::pair_conflict(cx, env, claims[i as int]->Some_0, i, claims, args, k) == Some(d),
    ensures
        conflicts::all_conflicts(cx, env, acc, claims, args, h).contains(d),
    decreases args.len() - h,
{
    let next = match claims[h as int] {
        Some(a) => conflicts::row_conflicts(cx, env, acc, a, h, claims, args, 0),
        None => acc,
    };
    if h == i {
        lemma_row_has(cx, env, acc, claims[i as int]->Some_0, i, claims, args, 0, k, d);
        ownership::lemma_all_conflicts(cx, env, next, claims, args, h + 1);
        lemma_stays_in(next, conflicts::all_conflicts(cx, env, acc, claims, args, h), d);
    } else {
        lemma_all_have(cx, env, next, claims, args, h + 1, i, k, d);
    }
}

/// Walking a call that lends one place twice leads to a report at the second of the arguments,
/// from wherever the walk comes to it.
pub proof fn lending_twice_always_reports(cx: CxV, x: Expr, i: int, k: int) -> (d: RawDiagV)
    requires
        lends_twice(cx, x, i, k),
    ensures
        always_reports(cx, Node::Expr(x), d),
        d.code == "E0380"@,
        x.kind matches ExprKind::Call { args, .. } && d.primary == args@[k].span,
{
    if let ExprKind::Call { callee, args, .. } = x.kind {
        let p = place::place_of(args@[i])->Some_0;
        let d = messages::exclusive_twice(p.root, args@[i].span, args@[k].span, args@[i].span.merge_spec(args@[k].span));
        assert forall|w: WorldV| (#[trigger] analyzer::apply_expr(cx, w, x)).diags.contains(d) by {
            lemma_lends(cx, w, x, i, k, d);
        }
        d
    } else {
        arbitrary()
    }
}

proof fn lemma_lends(cx: CxV, w: WorldV, x: Expr, i: int, k: int, d: RawDiagV)
    requires
        lends_twice(cx, x, i, k),
        x.kind matches ExprKind::Call { args, .. } && d == messages::exclusive_twice(
            place::place_of(args@[i])->Some_0.root,
            args@[i].span,
            args@[k].span,
            args@[i].span.merge_spec(args@[k].span),
        ),
    ensures
        analyzer::apply_expr(cx, w, x).diags.contains(d),
{
    assert(analyzer::apply_expr(cx, w, x) == analyzer::apply_call(cx, w, x));
    if let ExprKind::Call { callee, args, .. } = x.kind {
        let b = analyzer::apply_expr(cx, w, *callee);
        let call = analyzer::call_info(cx, b.env(), *callee);
        let claims = conflicts::claims_of(cx, b.env(), args@, call.moves, call.muts);
        assert(conflicts::pair_conflict(cx, b.env(), claims[i]->Some_0, i as nat, claims, args@, k as nat) == Some(d));
        lemma_all_have(cx, b.env(), b.diags, claims, args@, 0, i as nat, k as nat, d);
        let c = WorldV {
            diags: conflicts::call_conflicts(cx, b.env(), b.diags, args@, call.moves, call.muts, analyzer::receiver_of(*callee, call)),
            ..b
        };
        assert(c.diags.contains(d));
        let f = c.check_ref_args(args@, call.muts, 0);
        ownership::lemma_check_ref_args(c, args@, call.muts, 0);
        lemma_stays(c, f, d);
        let g = analyzer::apply_args(cx, f, args@, call, 0);
        ownership::lemma_args(cx, f, args@, call, 0);
        lemma_stays(f, g, d);
        let h = g.tie_receiver(cx, args@, call, callee.span);
        ownership::lemma_tie_receiver(g, cx, args@, call, callee.span);
        lemma_stays(g, h, d);
        ownership::lemma_tie_flows(h, cx, args@, analyzer::flows_of(cx, *callee), callee.span, 0);
        lemma_stays(h, analyzer::apply_call(cx, w, x), d);
    }
}

} // verus!
