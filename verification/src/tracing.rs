//! What following views meets: every statement of a body, however deep it stands.
use vstd::prelude::*;
use crate::escapes;
use crate::flow;
use crate::following;
use crate::infer;
use crate::messages;
use crate::ordered;
use crate::parts;
use crate::sigs;
use crate::views;
use crate::viewwalk;
use crate::ast::{AsmOperand, AssignOp, Block, Expr, ExprKind, FieldInit, ForLoop, Ident, InterpStrPart, MatchArm, Span, Stmt, StmtKind, TypeKindV, TypeV};
use crate::escapes::LeafRule;
use crate::following::{same_rules, settles};
use crate::messages::RawDiagV;
use crate::ordered::NameListV;
use crate::parts::Node;
use crate::views::{LocalV, ScopeV, ViewRulesV};

verus! {

/// Following the part leads to the report, from wherever the walk comes to it.
pub open spec fn always_tells(v: ViewRulesV, n: Node, d: RawDiagV) -> bool {
    match n {
        Node::Expr(x) => forall|u: ViewRulesV|
            same_rules(v, u) ==> (#[trigger] viewwalk::view_expr(u, x)).diags.contains(d),
        Node::Stmt(x) => forall|u: ViewRulesV|
            same_rules(v, u) ==> (#[trigger] viewwalk::view_stmt(u, x)).diags.contains(d),
        Node::Block(x) => forall|u: ViewRulesV|
            same_rules(v, u) ==> (#[trigger] viewwalk::view_block(u, x)).diags.contains(d),
    }
}

proof fn lemma_stays(a: ViewRulesV, b: ViewRulesV, d: RawDiagV)
    requires
        settles(a, b),
        a.diags.contains(d),
    ensures
        b.diags.contains(d),
{
    let k = choose|k: int| 0 <= k < a.diags.len() && a.diags[k] == d;
    assert(b.diags[k] == d);
}

proof fn trace_exprs(z: ViewRulesV, v: ViewRulesV, es: Seq<Expr>, i: nat, n: Node, d: RawDiagV)
    requires
        same_rules(z, v),
        always_tells(z, n, d),
        parts::in_exprs(es, n, true, i),
    ensures
        viewwalk::view_exprs(v, es, i).diags.contains(d),
    decreases es, es.len() - i,
{
    let w = viewwalk::view_expr(v, es[i as int]);
    following::lemma_expr(v, es[i as int]);
    if parts::in_expr(es[i as int], n, true) {
        trace_expr(z, v, es[i as int], n, d);
        following::lemma_exprs(w, es, i + 1);
        lemma_stays(w, viewwalk::view_exprs(v, es, i), d);
    } else {
        trace_exprs(z, w, es, i + 1, n, d);
    }
}

proof fn trace_fields(z: ViewRulesV, v: ViewRulesV, fs: Seq<FieldInit>, i: nat, n: Node, d: RawDiagV)
    requires
        same_rules(z, v),
        always_tells(z, n, d),
        parts::in_fields(fs, n, true, i),
    ensures
        viewwalk::view_fields(v, fs, i).diags.contains(d),
    decreases fs, fs.len() - i,
{
    let w = viewwalk::view_expr(v, fs[i as int].value);
    following::lemma_expr(v, fs[i as int].value);
    if parts::in_expr(fs[i as int].value, n, true) {
        trace_expr(z, v, fs[i as int].value, n, d);
        following::lemma_fields(w, fs, i + 1);
        lemma_stays(w, viewwalk::view_fields(v, fs, i), d);
    } else {
        trace_fields(z, w, fs, i + 1, n, d);
    }
}

proof fn trace_operands(z: ViewRulesV, v: ViewRulesV, ops: Seq<AsmOperand>, i: nat, n: Node, d: RawDiagV)
    requires
        same_rules(z, v),
        always_tells(z, n, d),
        parts::in_operands(ops, n, true, i),
    ensures
        viewwalk::view_operands(v, ops, i).diags.contains(d),
    decreases ops, ops.len() - i,
{
    let w = viewwalk::view_expr(v, ops[i as int].value);
    following::lemma_expr(v, ops[i as int].value);
    if parts::in_expr(ops[i as int].value, n, true) {
        trace_expr(z, v, ops[i as int].value, n, d);
        following::lemma_operands(w, ops, i + 1);
        lemma_stays(w, viewwalk::view_operands(v, ops, i), d);
    } else {
        trace_operands(z, w, ops, i + 1, n, d);
    }
}

proof fn trace_args(z: ViewRulesV, v: ViewRulesV, args: Seq<Expr>, builds: bool, i: nat, n: Node, d: RawDiagV)
    requires
        same_rules(z, v),
        always_tells(z, n, d),
        parts::in_exprs(args, n, true, i),
    ensures
        viewwalk::view_args(v, args, builds, i).diags.contains(d),
    decreases args, args.len() - i,
{
    let u = if builds {
        v
    } else {
        v.check_capture_arg(args[i as int])
    };
    let w = viewwalk::view_expr(u, args[i as int]);
    following::lemma_expr(u, args[i as int]);
    if parts::in_expr(args[i as int], n, true) {
        trace_expr(z, u, args[i as int], n, d);
        following::lemma_args(w, args, builds, i + 1);
        lemma_stays(w, viewwalk::view_args(v, args, builds, i), d);
    } else {
        trace_args(z, w, args, builds, i + 1, n, d);
    }
}

proof fn trace_parts(z: ViewRulesV, v: ViewRulesV, ps: Seq<InterpStrPart>, i: nat, n: Node, d: RawDiagV)
    requires
        same_rules(z, v),
        always_tells(z, n, d),
        parts::in_text_parts(ps, n, true, i),
    ensures
        viewwalk::view_parts(v, ps, i).diags.contains(d),
    decreases ps, ps.len() - i,
{
    let w = match ps[i as int] {
        InterpStrPart::Expr(e) => viewwalk::view_expr(v, e),
        InterpStrPart::Text(_) => v,
    };
    let here = match ps[i as int] {
        InterpStrPart::Expr(e) => parts::in_expr(e, n, true),
        InterpStrPart::Text(_) => false,
    };
    if let InterpStrPart::Expr(e) = ps[i as int] {
        following::lemma_expr(v, e);
    }
    if here {
        if let InterpStrPart::Expr(e) = ps[i as int] {
            trace_expr(z, v, e, n, d);
        }
        following::lemma_parts(w, ps, i + 1);
        lemma_stays(w, viewwalk::view_parts(v, ps, i), d);
    } else {
        trace_parts(z, w, ps, i + 1, n, d);
    }
}

proof fn trace_arms(
    z: ViewRulesV,
    v: ViewRulesV,
    before: Seq<ScopeV>,
    scrutinee: Expr,
    owned: bool,
    arms: Seq<MatchArm>,
    per: Seq<Seq<ScopeV>>,
    i: nat,
    n: Node,
    d: RawDiagV,
)
    requires
        same_rules(z, v),
        v.scopes.len() == before.len(),
        always_tells(z, n, d),
        parts::in_arms(arms, n, true, i),
    ensures
        viewwalk::view_arms(v, before, scrutinee, owned, arms, per, i).0.diags.contains(d),
    decreases arms, arms.len() - i,
{
    let arm = arms[i as int];
    let a = v.with_scopes(before).push_scope();
    let b = a.bind_pattern(arm.pattern, scrutinee, owned);
    following::lemma_bind_names(
        a,
        flow::pattern_names(Seq::empty(), arm.pattern),
        infer::with_pattern(Map::empty(), a.sigs, arm.pattern, a.infer_ty(scrutinee)),
        owned,
        0,
    );
    let c = viewwalk::view_expr(b, arm.body);
    following::lemma_expr(b, arm.body);
    let f = c.pop_scope();
    if parts::in_expr(arm.body, n, true) {
        trace_expr(z, b, arm.body, n, d);
        following::lemma_arms(f, before, scrutinee, owned, arms, per.push(f.scopes), i + 1);
        lemma_stays(f, viewwalk::view_arms(v, before, scrutinee, owned, arms, per, i).0, d);
    } else {
        trace_arms(z, f, before, scrutinee, owned, arms, per.push(f.scopes), i + 1, n, d);
    }
}

proof fn trace_if(z: ViewRulesV, v: ViewRulesV, e: Expr, n: Node, d: RawDiagV)
    requires
        same_rules(z, v),
        always_tells(z, n, d),
        e.kind is If,
        n != Node::Expr(e),
        parts::in_expr(e, n, true),
    ensures
        viewwalk::view_expr(v, e).diags.contains(d),
    decreases e, 1nat,
{
    if let ExprKind::If { cond, then, else_branch } = e.kind {
        let a = viewwalk::view_expr(v, *cond);
        following::lemma_expr(v, *cond);
        let b = viewwalk::view_block(a, then);
        following::lemma_block(a, then);
        let c = b.with_scopes(a.scopes);
        if let Some(x) = else_branch {
            following::lemma_expr(c, *x);
        }
        if parts::in_expr(*cond, n, true) {
            trace_expr(z, v, *cond, n, d);
            lemma_stays(a, b, d);
            if let Some(x) = else_branch {
                lemma_stays(c, viewwalk::view_expr(c, *x), d);
            }
        } else if parts::in_block(then, n, true) {
            trace_block(z, a, then, n, d);
            if let Some(x) = else_branch {
                lemma_stays(c, viewwalk::view_expr(c, *x), d);
            }
        } else if let Some(x) = else_branch {
            trace_expr(z, c, *x, n, d);
        }
    }
}

proof fn trace_match(z: ViewRulesV, v: ViewRulesV, e: Expr, n: Node, d: RawDiagV)
    requires
        same_rules(z, v),
        always_tells(z, n, d),
        e.kind is Match,
        n != Node::Expr(e),
        parts::in_expr(e, n, true),
    ensures
        viewwalk::view_expr(v, e).diags.contains(d),
    decreases e, 1nat,
{
    if let ExprKind::Match { scrutinee, arms } = e.kind {
        let a = viewwalk::view_expr(v, *scrutinee);
        following::lemma_expr(v, *scrutinee);
        let owned = a.owned_scrutinee(*scrutinee);
        following::lemma_arms(a, a.scopes, *scrutinee, owned, arms@, Seq::empty(), 0);
        if parts::in_expr(*scrutinee, n, true) {
            trace_expr(z, v, *scrutinee, n, d);
            lemma_stays(a, viewwalk::view_arms(a, a.scopes, *scrutinee, owned, arms@, Seq::empty(), 0).0, d);
        } else {
            trace_arms(z, a, a.scopes, *scrutinee, owned, arms@, Seq::empty(), 0, n, d);
        }
    }
}

proof fn trace_assign(z: ViewRulesV, v: ViewRulesV, e: Expr, n: Node, d: RawDiagV)
    requires
        same_rules(z, v),
        always_tells(z, n, d),
        e.kind is Assign,
        n != Node::Expr(e),
        parts::in_expr(e, n, true),
    ensures
        viewwalk::view_expr(v, e).diags.contains(d),
    decreases e, 1nat,
{
    if let ExprKind::Assign { op, target, value } = e.kind {
        let a = viewwalk::view_expr(v, *value);
        following::lemma_expr(v, *value);
        let b = viewwalk::view_expr(a, *target);
        following::lemma_expr(a, *target);
        following::lemma_assign(b, *target, *value);
        if parts::in_expr(*value, n, true) {
            trace_expr(z, v, *value, n, d);
            lemma_stays(a, b, d);
        } else {
            trace_expr(z, a, *target, n, d);
        }
        if op == AssignOp::Assign {
            lemma_stays(b, b.check_assign(*target, *value), d);
        }
    }
}

proof fn trace_call(z: ViewRulesV, v: ViewRulesV, e: Expr, n: Node, d: RawDiagV)
    requires
        same_rules(z, v),
        always_tells(z, n, d),
        e.kind is Call,
        n != Node::Expr(e),
        parts::in_expr(e, n, true),
    ensures
        viewwalk::view_expr(v, e).diags.contains(d),
    decreases e, 1nat,
{
    if let ExprKind::Call { callee, args, .. } = e.kind {
        let a = viewwalk::view_expr(v, *callee);
        following::lemma_expr(v, *callee);
        let builds = viewwalk::builds_enum(a.sigs, *callee);
        following::lemma_args(a, args@, builds, 0);
        if parts::in_expr(*callee, n, true) {
            trace_expr(z, v, *callee, n, d);
            lemma_stays(a, viewwalk::view_args(a, args@, builds, 0), d);
        } else {
            trace_args(z, a, args@, builds, 0, n, d);
        }
    }
}

/// Two expressions that are followed one after the other.
proof fn trace_either(v: ViewRulesV, a: Expr, b: Expr, n: Node, d: RawDiagV)
    requires
        parts::in_expr(a, n, true) ==> viewwalk::view_expr(v, a).diags.contains(d),
        parts::in_expr(b, n, true) ==> viewwalk::view_expr(viewwalk::view_expr(v, a), b).diags.contains(d),
        parts::in_expr(a, n, true) || parts::in_expr(b, n, true),
    ensures
        viewwalk::view_expr(viewwalk::view_expr(v, a), b).diags.contains(d),
{
    let w = viewwalk::view_expr(v, a);
    following::lemma_expr(w, b);
    if parts::in_expr(a, n, true) {
        lemma_stays(w, viewwalk::view_expr(w, b), d);
    }
}

proof fn trace_range(z: ViewRulesV, v: ViewRulesV, e: Expr, n: Node, d: RawDiagV)
    requires
        same_rules(z, v),
        always_tells(z, n, d),
        e.kind is Range,
        n != Node::Expr(e),
        parts::in_expr(e, n, true),
    ensures
        viewwalk::view_expr(v, e).diags.contains(d),
    decreases e, 1nat,
{
    if let ExprKind::Range { start, end, .. } = e.kind {
        let a = match start {
            Some(x) => viewwalk::view_expr(v, *x),
            None => v,
        };
        let early = match start {
            Some(x) => parts::in_expr(*x, n, true),
            None => false,
        };
        if let Some(x) = start {
            following::lemma_expr(v, *x);
        }
        if early {
            if let Some(x) = start {
                trace_expr(z, v, *x, n, d);
            }
            if let Some(x) = end {
                following::lemma_expr(a, *x);
                lemma_stays(a, viewwalk::view_expr(a, *x), d);
            }
        } else if let Some(x) = end {
            trace_expr(z, a, *x, n, d);
        }
    }
}

proof fn trace_expr(z: ViewRulesV, v: ViewRulesV, e: Expr, n: Node, d: RawDiagV)
    requires
        same_rules(z, v),
        always_tells(z, n, d),
        parts::in_expr(e, n, true),
    ensures
        viewwalk::view_expr(v, e).diags.contains(d),
    decreases e, 2nat,
{
    if n == Node::Expr(e) {
    } else {
        match e.kind {
            ExprKind::Block(b) => trace_block(z, v, b, n, d),
            ExprKind::If { .. } => trace_if(z, v, e, n, d),
            ExprKind::Match { .. } => trace_match(z, v, e, n, d),
            ExprKind::Assign { .. } => trace_assign(z, v, e, n, d),
            ExprKind::Call { .. } => trace_call(z, v, e, n, d),
            ExprKind::Binary { lhs, rhs, .. } => {
                following::lemma_expr(v, *lhs);
                if parts::in_expr(*lhs, n, true) {
                    trace_expr(z, v, *lhs, n, d);
                }
                if parts::in_expr(*rhs, n, true) {
                    trace_expr(z, viewwalk::view_expr(v, *lhs), *rhs, n, d);
                }
                trace_either(v, *lhs, *rhs, n, d);
            },
            ExprKind::Unary { operand, .. } => trace_expr(z, v, *operand, n, d),
            ExprKind::Field { receiver, .. } => trace_expr(z, v, *receiver, n, d),
            ExprKind::Index { receiver, index } => {
                following::lemma_expr(v, *receiver);
                if parts::in_expr(*receiver, n, true) {
                    trace_expr(z, v, *receiver, n, d);
                }
                if parts::in_expr(*index, n, true) {
                    trace_expr(z, viewwalk::view_expr(v, *receiver), *index, n, d);
                }
                trace_either(v, *receiver, *index, n, d);
            },
            ExprKind::Cast { expr, .. } => trace_expr(z, v, *expr, n, d),
            ExprKind::StructLit { fields, .. } => trace_fields(z, v, fields@, 0, n, d),
            ExprKind::InferredStructLit { fields } => trace_fields(z, v, fields@, 0, n, d),
            ExprKind::GenericStructLit { fields, .. } => trace_fields(z, v, fields@, 0, n, d),
            ExprKind::ArrayLit { elements } => trace_exprs(z, v, elements@, 0, n, d),
            ExprKind::TupleLit { elements } => trace_exprs(z, v, elements@, 0, n, d),
            ExprKind::GenericEnumCall { args, .. } => trace_exprs(z, v, args@, 0, n, d),
            ExprKind::ArrayFill { fill, .. } => trace_expr(z, v, *fill, n, d),
            ExprKind::CastChecked { expr, .. } => trace_expr(z, v, *expr, n, d),
            ExprKind::Await(inner) => trace_expr(z, v, *inner, n, d),
            ExprKind::Yield(inner) => trace_expr(z, v, *inner, n, d),
            ExprKind::Range { .. } => trace_range(z, v, e, n, d),
            ExprKind::InterpStr { parts } => trace_parts(z, v, parts@, 0, n, d),
            ExprKind::Intrinsic { args, .. } => trace_exprs(z, v, args@, 0, n, d),
            ExprKind::Asm { operands, .. } => trace_operands(z, v, operands@, 0, n, d),
            _ => {},
        }
    }
}

proof fn trace_stmts(z: ViewRulesV, v: ViewRulesV, ss: Seq<Stmt>, i: nat, n: Node, d: RawDiagV)
    requires
        same_rules(z, v),
        always_tells(z, n, d),
        parts::in_stmts(ss, n, true, i),
    ensures
        viewwalk::view_stmts(v, ss, i).diags.contains(d),
    decreases ss, ss.len() - i,
{
    let w = viewwalk::view_stmt(v, ss[i as int]);
    following::lemma_stmt(v, ss[i as int]);
    if parts::in_stmt(ss[i as int], n, true) {
        trace_stmt(z, v, ss[i as int], n, d);
        following::lemma_stmts(w, ss, i + 1);
        lemma_stays(w, viewwalk::view_stmts(v, ss, i), d);
    } else {
        trace_stmts(z, w, ss, i + 1, n, d);
    }
}

proof fn trace_block(z: ViewRulesV, v: ViewRulesV, b: Block, n: Node, d: RawDiagV)
    requires
        same_rules(z, v),
        always_tells(z, n, d),
        parts::in_block(b, n, true),
    ensures
        viewwalk::view_block(v, b).diags.contains(d),
    decreases b, 0nat,
{
    if n == Node::Block(b) {
    } else {
        let a = v.push_scope();
        let c = viewwalk::view_stmts(a, b.stmts@, 0);
        following::lemma_stmts(a, b.stmts@, 0);
        if parts::in_stmts(b.stmts@, n, true, 0) {
            trace_stmts(z, a, b.stmts@, 0, n, d);
            if let Some(t) = b.tail {
                following::lemma_expr(c, *t);
                lemma_stays(c, viewwalk::view_expr(c, *t), d);
            }
        } else if let Some(t) = b.tail {
            trace_expr(z, c, *t, n, d);
        }
    }
}

proof fn trace_stmt(z: ViewRulesV, v: ViewRulesV, s: Stmt, n: Node, d: RawDiagV)
    requires
        same_rules(z, v),
        always_tells(z, n, d),
        parts::in_stmt(s, n, true),
    ensures
        viewwalk::view_stmt(v, s).diags.contains(d),
    decreases s, 0nat,
{
    if n == Node::Stmt(s) {
    } else {
        let u = v.update_taint(s);
        assert(settles(v, u));
        match s.kind {
            StmtKind::Let { name, ty, init, .. } => {
                if let Some(e) = init {
                    let w = viewwalk::view_expr(u, e);
                    following::lemma_expr(u, e);
                    trace_expr(z, u, e, n, d);
                    following::lemma_let(w, name.name@, sigs::opt_type(ty), init);
                    lemma_stays(w, viewwalk::view_stmt(v, s), d);
                }
            },
            StmtKind::LetDestructure { struct_name, fields, init } => {
                let w = viewwalk::view_expr(u, init);
                following::lemma_expr(u, init);
                trace_expr(z, u, init, n, d);
                let x = w.check_destructured(struct_name.name@, init);
                following::lemma_leaves(w, LeafRule::Temporary, init, Some(infer::path_at(struct_name.name@, init.span)));
                following::lemma_bind_parts(x, struct_name.name@, fields@, 0);
                lemma_stays(w, x, d);
                lemma_stays(x, viewwalk::view_stmt(v, s), d);
            },
            StmtKind::Return(Some(e)) => {
                following::lemma_expr(u, e);
                trace_expr(z, u, e, n, d);
                following::lemma_return(viewwalk::view_expr(u, e), e);
                lemma_stays(viewwalk::view_expr(u, e), viewwalk::view_stmt(v, s), d);
            },
            StmtKind::While { cond, body } => {
                let w = viewwalk::view_expr(u, cond);
                following::lemma_expr(u, cond);
                following::lemma_block(w, body);
                if parts::in_expr(cond, n, true) {
                    trace_expr(z, u, cond, n, d);
                    lemma_stays(w, viewwalk::view_block(w, body), d);
                } else {
                    trace_block(z, w, body, n, d);
                }
            },
            StmtKind::For(fl) => trace_for(z, u.push_scope(), fl, n, d),
            StmtKind::Loop(b) => trace_block(z, u, b, n, d),
            StmtKind::Expr(e) => trace_expr(z, u, e, n, d),
            StmtKind::Defer(e) => trace_expr(z, u, e, n, d),
            StmtKind::Assert(e) => trace_expr(z, u, e, n, d),
            _ => {},
        }
    }
}

proof fn trace_for(z: ViewRulesV, v: ViewRulesV, fl: ForLoop, n: Node, d: RawDiagV)
    requires
        same_rules(z, v),
        always_tells(z, n, d),
        parts::in_for(fl, n, true),
    ensures
        viewwalk::view_for(v, fl).diags.contains(d),
    decreases fl, 0nat,
{
    match fl {
        ForLoop::CStyle { init, cond, update, body } => {
            let a = match init {
                Some(s) => viewwalk::view_stmt(v, *s),
                None => v,
            };
            let b = match cond {
                Some(c) => viewwalk::view_expr(a, c),
                None => a,
            };
            let f = viewwalk::view_exprs(b, update@, 0);
            let in_init = match init {
                Some(s) => parts::in_stmt(*s, n, true),
                None => false,
            };
            let in_cond = match cond {
                Some(c) => parts::in_expr(c, n, true),
                None => false,
            };
            if let Some(s) = init {
                following::lemma_stmt(v, *s);
            }
            if let Some(c) = cond {
                following::lemma_expr(a, c);
            }
            following::lemma_exprs(b, update@, 0);
            following::lemma_block(f, body);
            if in_init {
                if let Some(s) = init {
                    trace_stmt(z, v, *s, n, d);
                }
                lemma_stays(a, b, d);
                lemma_stays(b, f, d);
                lemma_stays(f, viewwalk::view_block(f, body), d);
            } else if in_cond {
                if let Some(c) = cond {
                    trace_expr(z, a, c, n, d);
                }
                lemma_stays(b, f, d);
                lemma_stays(f, viewwalk::view_block(f, body), d);
            } else if parts::in_exprs(update@, n, true, 0) {
                trace_exprs(z, b, update@, 0, n, d);
                lemma_stays(f, viewwalk::view_block(f, body), d);
            } else {
                trace_block(z, f, body, n, d);
            }
        },
        ForLoop::Range { var, iter, body } => {
            let a = viewwalk::view_expr(v, iter);
            following::lemma_expr(v, iter);
            let b = a.bind(var.name@, views::plain_local(None, false));
            following::lemma_block(b, body);
            if parts::in_expr(iter, n, true) {
                trace_expr(z, v, iter, n, d);
                lemma_stays(b, viewwalk::view_block(b, body), d);
            } else {
                trace_block(z, b, body, n, d);
            }
        },
    }
}

/// What a statement, an expression or a block is bound to lead to is reported wherever it stands
/// in a body: in a loop of any kind, a branch, an arm, a block, an argument, or any other
/// expression.
pub proof fn views_are_followed_wherever_they_stand(v: ViewRulesV, b: Block, n: Node, d: RawDiagV)
    requires
        always_tells(v, n, d),
        parts::in_block(b, n, true),
    ensures
        viewwalk::view_block(v, b).diags.contains(d),
{
    trace_block(v, v, b, n, d);
}

} // verus!
