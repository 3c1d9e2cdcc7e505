//! What every step of the walk that follows views keeps.
use vstd::prelude::*;
use crate::escapes;
use crate::flow;
use crate::infer;
use crate::messages;
use crate::sigs;
use crate::views;
use crate::viewwalk;
use crate::ast::{AsmOperand, Block, Expr, ExprKind, FieldInit, ForLoop, Ident, InterpStrPart, MatchArm, Span, Stmt, StmtKind, TypeKindV, TypeV};
use crate::escapes::LeafRule;
use crate::ordered::NameListV;
use crate::views::{ScopeV, ViewRulesV};

verus! {

/// The rules are those of the same body.
pub open spec fn same_rules(v: ViewRulesV, w: ViewRulesV) -> bool {
    &&& w.sigs == v.sigs
    &&& w.oracle == v.oracle
    &&& w.statics == v.statics
    &&& w.capturing == v.capturing
    &&& w.params == v.params
    &&& w.index == v.index
    &&& w.refs == v.refs
    &&& w.ret == v.ret
    &&& w.site == v.site
    &&& w.declares == v.declares
}

/// A later step: the same rules, nothing that was reported is withdrawn, and as many scopes.
pub open spec fn settles(v: ViewRulesV, w: ViewRulesV) -> bool {
    &&& same_rules(v, w)
    &&& v.diags.is_prefix_of(w.diags)
    &&& w.scopes.len() == v.scopes.len()
}

pub proof fn lemma_chain(a: ViewRulesV, b: ViewRulesV, c: ViewRulesV)
    requires
        settles(a, b),
        settles(b, c),
    ensures
        settles(a, c),
{
}

proof fn lemma_flag_roots(v: ViewRulesV, roots: NameListV, span: Span, i: nat)
    ensures
        settles(v, v.flag_roots(roots, span, i)),
    decreases roots.len() - i,
{
    if i < roots.len() {
        let w = if v.dies_at_return(roots[i as int].0) {
            v.report(messages::escaping_leaf(v.owner_desc(roots[i as int].0), span))
        } else {
            v
        };
        assert(settles(v, w));
        lemma_flag_roots(w, roots, span, i + 1);
        lemma_chain(v, w, v.flag_roots(roots, span, i));
    }
}

proof fn lemma_leaf(v: ViewRulesV, rule: LeafRule, e: Expr, expected: Option<TypeV>)
    ensures
        settles(v, v.check_leaf(rule, e, expected)),
{
    lemma_flag_roots(v, v.leaf_roots(e, expected), e.span, 0);
    assert(settles(v, v.check_temp(e)));
    assert(settles(v.check_temp(e), v.check_temp(e).check_rvalue(e)));
}

pub proof fn lemma_leaves(v: ViewRulesV, rule: LeafRule, e: Expr, expected: Option<TypeV>)
    ensures
        settles(v, v.check_leaves(rule, e, expected)),
    decreases e, 0nat,
{
    match e.kind {
        ExprKind::StructLit { name, fields } => lemma_leaf_fields(v, rule, fields@, Some(name.name@), 0),
        ExprKind::GenericStructLit { name, fields, .. } => lemma_leaf_fields(v, rule, fields@, Some(name.name@), 0),
        ExprKind::InferredStructLit { fields } => lemma_leaf_fields(v, rule, fields@, views::nominal_of(expected), 0),
        ExprKind::ArrayLit { elements } => lemma_leaf_elems(v, rule, elements@, views::element_of(expected), 0),
        ExprKind::TupleLit { elements } => lemma_leaf_tuple(v, rule, elements@, escapes::tuple_types(expected), 0),
        ExprKind::ArrayFill { fill, .. } => lemma_leaves(v, rule, *fill, views::element_of(expected)),
        _ => lemma_leaf(v, rule, e, expected),
    }
}

proof fn lemma_leaf_fields(v: ViewRulesV, rule: LeafRule, fs: Seq<FieldInit>, base: Option<Seq<char>>, i: nat)
    ensures
        settles(v, v.check_fields(rule, fs, base, i)),
    decreases fs, fs.len() - i,
{
    if i < fs.len() {
        let t = v.field_in(base, fs[i as int].name.name@);
        let w = v.check_leaves(rule, fs[i as int].value, t);
        lemma_leaves(v, rule, fs[i as int].value, t);
        lemma_leaf_fields(w, rule, fs, base, i + 1);
        lemma_chain(v, w, v.check_fields(rule, fs, base, i));
    }
}

proof fn lemma_leaf_elems(v: ViewRulesV, rule: LeafRule, es: Seq<Expr>, expected: Option<TypeV>, i: nat)
    ensures
        settles(v, v.check_elems(rule, es, expected, i)),
    decreases es, es.len() - i,
{
    if i < es.len() {
        let w = v.check_leaves(rule, es[i as int], expected);
        lemma_leaves(v, rule, es[i as int], expected);
        lemma_leaf_elems(w, rule, es, expected, i + 1);
        lemma_chain(v, w, v.check_elems(rule, es, expected, i));
    }
}

proof fn lemma_leaf_tuple(v: ViewRulesV, rule: LeafRule, es: Seq<Expr>, ts: Seq<TypeV>, i: nat)
    ensures
        settles(v, v.check_tuple(rule, es, ts, i)),
    decreases es, es.len() - i,
{
    if i < es.len() {
        let w = v.check_leaves(rule, es[i as int], escapes::type_at(ts, i as int));
        lemma_leaves(v, rule, es[i as int], escapes::type_at(ts, i as int));
        lemma_leaf_tuple(w, rule, es, ts, i + 1);
        lemma_chain(v, w, v.check_tuple(rule, es, ts, i));
    }
}

pub proof fn lemma_bound_view(v: ViewRulesV, t: TypeV, e: Expr)
    ensures
        settles(v, v.check_bound_view(t, e)),
{
    assert(settles(v, v.check_temp(e)));
    assert(settles(v.check_temp(e), v.check_temp(e).check_rvalue(e)));
    lemma_leaves(v, LeafRule::Temporary, e, Some(t));
}

proof fn lemma_rooted(ss: Seq<ScopeV>, key: Seq<char>, roots: NameListV, n: nat)
    ensures
        views::rooted(ss, key, roots, n).len() == ss.len(),
    decreases n,
{
    if n > 0 && n <= ss.len() && !ss[n - 1].dom().contains(key) {
        lemma_rooted(ss, key, roots, (n - 1) as nat);
    }
}

pub proof fn lemma_assign(v: ViewRulesV, target: Expr, value: Expr)
    ensures
        settles(v, v.check_assign(target, value)),
{
    let a = v.check_store_escape(target, value);
    assert(settles(v, a));
    let b = a.check_raw_store(target, value);
    assert(settles(a, b));
    let c = b.check_capture_store(target, value);
    assert(settles(b, c));
    let d = match c.place_ty(target) {
        Some(t) => c.check_bound_view(t, value),
        None => c,
    };
    if let Some(t) = c.place_ty(target) {
        lemma_bound_view(c, t, value);
    }
    assert(settles(v, d));
    if let ExprKind::Ident(n) = target.kind {
        lemma_rooted(d.scopes, views::canonical_name(n@), d.borrow_roots(value), d.scopes.len());
        lemma_rooted(d.scopes, views::canonical_name(n@), Seq::empty(), d.scopes.len());
    }
}

pub proof fn lemma_bind_names(v: ViewRulesV, names: Seq<Seq<char>>, tys: Map<Seq<char>, TypeV>, owned: bool, i: nat)
    ensures
        settles(v, v.bind_names(names, tys, owned, i)),
    decreases names.len() - i,
{
    if i < names.len() {
        let w = v.bind(names[i as int], views::plain_local(sigs::look(tys, names[i as int]), owned));
        assert(settles(v, w));
        lemma_bind_names(w, names, tys, owned, i + 1);
        lemma_chain(v, w, v.bind_names(names, tys, owned, i));
    }
}

pub proof fn lemma_bind_parts(v: ViewRulesV, base: Seq<char>, ids: Seq<Ident>, i: nat)
    ensures
        settles(v, v.bind_parts(base, ids, i)),
    decreases ids.len() - i,
{
    if i < ids.len() {
        let w = v.bind(ids[i as int].name@, views::plain_local(infer::field_of(v.sigs, base, ids[i as int].name@), true));
        assert(settles(v, w));
        lemma_bind_parts(w, base, ids, i + 1);
        lemma_chain(v, w, v.bind_parts(base, ids, i));
    }
}

pub proof fn lemma_join_all(ss: Seq<ScopeV>, per: Seq<Seq<ScopeV>>, i: nat)
    ensures
        viewwalk::join_all(ss, per, i).len() == ss.len(),
    decreases per.len() - i,
{
    if i < per.len() {
        lemma_join_all(views::joined(ss, per[i as int]), per, i + 1);
    }
}

pub proof fn lemma_report_captures(v: ViewRulesV, roots: Seq<Seq<char>>, e: Expr, i: nat)
    ensures
        settles(v, v.report_captures(roots, e, i)),
        v.report_captures(roots, e, i).diags.len() == v.diags.len() + (if i < roots.len() {
            roots.len() - i
        } else {
            0
        }),
    decreases roots.len() - i,
{
    if i < roots.len() {
        let w = v.report(messages::captured_return(roots[i as int], v.carried_by(roots[i as int], e), e.span));
        assert(settles(v, w));
        lemma_report_captures(w, roots, e, i + 1);
        lemma_chain(v, w, v.report_captures(roots, e, i));
    }
}

pub proof fn lemma_let(v: ViewRulesV, name: Seq<char>, ty: Option<TypeV>, init: Option<Expr>)
    ensures
        settles(v, v.bind_let(name, ty, init)),
{
    let resolved = match (ty, init) {
        (Some(t), _) => Some(t),
        (None, Some(e)) => v.infer_ty(e),
        (None, None) => None,
    };
    if let (Some(t), Some(e)) = (resolved, init) {
        lemma_bound_view(v, t, e);
    }
}

pub proof fn lemma_return(v: ViewRulesV, e: Expr)
    ensures
        settles(v, v.check_returned_aggregate(e).check_return(e).check_capture_return(e)),
{
    lemma_leaves(v, LeafRule::Escape, e, v.ret);
    let a = v.check_returned_aggregate(e);
    assert(settles(v, a));
    let b = a.check_return(e);
    assert(settles(a, a.check_temp(e)));
    assert(settles(a, b));
    lemma_report_captures(b, b.captures(e, false), e, 0);
    lemma_chain(v, a, b);
    lemma_chain(v, b, b.check_capture_return(e));
}

// ---------------------------------------------------------------------------
// The walk.

pub proof fn lemma_exprs(v: ViewRulesV, es: Seq<Expr>, i: nat)
    ensures
        settles(v, viewwalk::view_exprs(v, es, i)),
    decreases es, es.len() - i,
{
    if i < es.len() {
        let w = viewwalk::view_expr(v, es[i as int]);
        lemma_expr(v, es[i as int]);
        lemma_exprs(w, es, i + 1);
        lemma_chain(v, w, viewwalk::view_exprs(v, es, i));
    }
}

pub proof fn lemma_fields(v: ViewRulesV, fs: Seq<FieldInit>, i: nat)
    ensures
        settles(v, viewwalk::view_fields(v, fs, i)),
    decreases fs, fs.len() - i,
{
    if i < fs.len() {
        let w = viewwalk::view_expr(v, fs[i as int].value);
        lemma_expr(v, fs[i as int].value);
        lemma_fields(w, fs, i + 1);
        lemma_chain(v, w, viewwalk::view_fields(v, fs, i));
    }
}

pub proof fn lemma_parts(v: ViewRulesV, ps: Seq<InterpStrPart>, i: nat)
    ensures
        settles(v, viewwalk::view_parts(v, ps, i)),
    decreases ps, ps.len() - i,
{
    if i < ps.len() {
        let w = match ps[i as int] {
            InterpStrPart::Expr(e) => viewwalk::view_expr(v, e),
            InterpStrPart::Text(_) => v,
        };
        if let InterpStrPart::Expr(e) = ps[i as int] {
            lemma_expr(v, e);
        }
        lemma_parts(w, ps, i + 1);
        lemma_chain(v, w, viewwalk::view_parts(v, ps, i));
    }
}

pub proof fn lemma_operands(v: ViewRulesV, ops: Seq<AsmOperand>, i: nat)
    ensures
        settles(v, viewwalk::view_operands(v, ops, i)),
    decreases ops, ops.len() - i,
{
    if i < ops.len() {
        let w = viewwalk::view_expr(v, ops[i as int].value);
        lemma_expr(v, ops[i as int].value);
        lemma_operands(w, ops, i + 1);
        lemma_chain(v, w, viewwalk::view_operands(v, ops, i));
    }
}

pub proof fn lemma_args(v: ViewRulesV, args: Seq<Expr>, builds: bool, i: nat)
    ensures
        settles(v, viewwalk::view_args(v, args, builds, i)),
    decreases args, args.len() - i,
{
    if i < args.len() {
        let u = if builds {
            v
        } else {
            v.check_capture_arg(args[i as int])
        };
        assert(settles(v, u));
        let w = viewwalk::view_expr(u, args[i as int]);
        lemma_expr(u, args[i as int]);
        lemma_chain(v, u, w);
        lemma_args(w, args, builds, i + 1);
        lemma_chain(v, w, viewwalk::view_args(v, args, builds, i));
    }
}

pub proof fn lemma_arms(
    v: ViewRulesV,
    before: Seq<ScopeV>,
    scrutinee: Expr,
    owned: bool,
    arms: Seq<MatchArm>,
    per: Seq<Seq<ScopeV>>,
    i: nat,
)
    requires
        v.scopes.len() == before.len(),
    ensures
        settles(v, viewwalk::view_arms(v, before, scrutinee, owned, arms, per, i).0),
    decreases arms, arms.len() - i,
{
    if i < arms.len() {
        let arm = arms[i as int];
        let a = v.with_scopes(before).push_scope();
        let b = a.bind_pattern(arm.pattern, scrutinee, owned);
        lemma_bind_names(
            a,
            flow::pattern_names(Seq::empty(), arm.pattern),
            infer::with_pattern(Map::empty(), a.sigs, arm.pattern, a.infer_ty(scrutinee)),
            owned,
            0,
        );
        let c = viewwalk::view_expr(b, arm.body);
        lemma_expr(b, arm.body);
        let d = c.pop_scope();
        assert(settles(v, d));
        lemma_arms(d, before, scrutinee, owned, arms, per.push(d.scopes), i + 1);
    }
}

proof fn lemma_if(v: ViewRulesV, e: Expr)
    requires
        e.kind is If,
    ensures
        settles(v, viewwalk::view_expr(v, e)),
    decreases e, 0nat,
{
    if let ExprKind::If { cond, then, else_branch } = e.kind {
        let a = viewwalk::view_expr(v, *cond);
        lemma_expr(v, *cond);
        let b = viewwalk::view_block(a, then);
        lemma_block(a, then);
        let c = b.with_scopes(a.scopes);
        assert(settles(a, c));
        if let Some(x) = else_branch {
            lemma_expr(c, *x);
        }
    }
}

proof fn lemma_match(v: ViewRulesV, e: Expr)
    requires
        e.kind is Match,
    ensures
        settles(v, viewwalk::view_expr(v, e)),
    decreases e, 0nat,
{
    if let ExprKind::Match { scrutinee, arms } = e.kind {
        let a = viewwalk::view_expr(v, *scrutinee);
        lemma_expr(v, *scrutinee);
        let owned = a.owned_scrutinee(*scrutinee);
        lemma_arms(a, a.scopes, *scrutinee, owned, arms@, Seq::empty(), 0);
        let (w, per) = viewwalk::view_arms(a, a.scopes, *scrutinee, owned, arms@, Seq::empty(), 0);
        lemma_join_all(a.scopes, per, 0);
    }
}

proof fn lemma_walk_assign(v: ViewRulesV, e: Expr)
    requires
        e.kind is Assign,
    ensures
        settles(v, viewwalk::view_expr(v, e)),
    decreases e, 0nat,
{
    if let ExprKind::Assign { op, target, value } = e.kind {
        let a = viewwalk::view_expr(v, *value);
        lemma_expr(v, *value);
        let b = viewwalk::view_expr(a, *target);
        lemma_expr(a, *target);
        lemma_chain(v, a, b);
        lemma_assign(b, *target, *value);
    }
}

proof fn lemma_call(v: ViewRulesV, e: Expr)
    requires
        e.kind is Call,
    ensures
        settles(v, viewwalk::view_expr(v, e)),
    decreases e, 0nat,
{
    if let ExprKind::Call { callee, args, .. } = e.kind {
        let a = viewwalk::view_expr(v, *callee);
        lemma_expr(v, *callee);
        lemma_args(a, args@, viewwalk::builds_enum(a.sigs, *callee), 0);
    }
}

proof fn lemma_range(v: ViewRulesV, e: Expr)
    requires
        e.kind is Range,
    ensures
        settles(v, viewwalk::view_expr(v, e)),
    decreases e, 0nat,
{
    if let ExprKind::Range { start, end, .. } = e.kind {
        let a = match start {
            Some(x) => viewwalk::view_expr(v, *x),
            None => v,
        };
        if let Some(x) = start {
            lemma_expr(v, *x);
        }
        if let Some(x) = end {
            lemma_expr(a, *x);
        }
    }
}

pub proof fn lemma_expr(v: ViewRulesV, e: Expr)
    ensures
        settles(v, viewwalk::view_expr(v, e)),
    decreases e, 1nat,
{
    match e.kind {
        ExprKind::Block(b) => lemma_block(v, b),
        ExprKind::If { .. } => lemma_if(v, e),
        ExprKind::Match { .. } => lemma_match(v, e),
        ExprKind::Assign { .. } => lemma_walk_assign(v, e),
        ExprKind::Call { .. } => lemma_call(v, e),
        ExprKind::Binary { lhs, rhs, .. } => {
            lemma_expr(v, *lhs);
            lemma_expr(viewwalk::view_expr(v, *lhs), *rhs);
        },
        ExprKind::Unary { operand, .. } => lemma_expr(v, *operand),
        ExprKind::Field { receiver, .. } => lemma_expr(v, *receiver),
        ExprKind::Index { receiver, index } => {
            lemma_expr(v, *receiver);
            lemma_expr(viewwalk::view_expr(v, *receiver), *index);
        },
        ExprKind::Cast { expr, .. } => lemma_expr(v, *expr),
        ExprKind::StructLit { fields, .. } => lemma_fields(v, fields@, 0),
        ExprKind::InferredStructLit { fields } => lemma_fields(v, fields@, 0),
        ExprKind::GenericStructLit { fields, .. } => lemma_fields(v, fields@, 0),
        ExprKind::ArrayLit { elements } => lemma_exprs(v, elements@, 0),
        ExprKind::TupleLit { elements } => lemma_exprs(v, elements@, 0),
        ExprKind::GenericEnumCall { args, .. } => lemma_exprs(v, args@, 0),
        ExprKind::ArrayFill { fill, .. } => lemma_expr(v, *fill),
        ExprKind::CastChecked { expr, .. } => lemma_expr(v, *expr),
        ExprKind::Await(inner) => lemma_expr(v, *inner),
        ExprKind::Yield(inner) => lemma_expr(v, *inner),
        ExprKind::Range { .. } => lemma_range(v, e),
        ExprKind::InterpStr { parts } => lemma_parts(v, parts@, 0),
        ExprKind::Intrinsic { args, .. } => lemma_exprs(v, args@, 0),
        ExprKind::Asm { operands, .. } => lemma_operands(v, operands@, 0),
        ExprKind::FnRef { callee, .. } => lemma_expr(v, *callee),
        _ => {},
    }
}

pub proof fn lemma_stmts(v: ViewRulesV, ss: Seq<Stmt>, i: nat)
    ensures
        settles(v, viewwalk::view_stmts(v, ss, i)),
    decreases ss, ss.len() - i,
{
    if i < ss.len() {
        let w = viewwalk::view_stmt(v, ss[i as int]);
        lemma_stmt(v, ss[i as int]);
        lemma_stmts(w, ss, i + 1);
        lemma_chain(v, w, viewwalk::view_stmts(v, ss, i));
    }
}

pub proof fn lemma_block(v: ViewRulesV, b: Block)
    ensures
        settles(v, viewwalk::view_block(v, b)),
    decreases b, 0nat,
{
    let a = v.push_scope();
    let c = viewwalk::view_stmts(a, b.stmts@, 0);
    lemma_stmts(a, b.stmts@, 0);
    if let Some(t) = b.tail {
        lemma_expr(c, *t);
    }
}

pub proof fn lemma_stmt(v: ViewRulesV, s: Stmt)
    ensures
        settles(v, viewwalk::view_stmt(v, s)),
    decreases s, 0nat,
{
    let u = v.update_taint(s);
    assert(settles(v, u));
    match s.kind {
        StmtKind::Let { name, ty, init, .. } => {
            let w = match init {
                Some(e) => viewwalk::view_expr(u, e),
                None => u,
            };
            if let Some(e) = init {
                lemma_expr(u, e);
            }
            lemma_let(w, name.name@, sigs::opt_type(ty), init);
        },
        StmtKind::LetDestructure { struct_name, fields, init } => {
            let w = viewwalk::view_expr(u, init);
            lemma_expr(u, init);
            let x = w.check_destructured(struct_name.name@, init);
            lemma_leaves(w, LeafRule::Temporary, init, Some(infer::path_at(struct_name.name@, init.span)));
            lemma_bind_parts(x, struct_name.name@, fields@, 0);
        },
        StmtKind::Return(Some(e)) => {
            lemma_expr(u, e);
            lemma_return(viewwalk::view_expr(u, e), e);
        },
        StmtKind::While { cond, body } => {
            lemma_expr(u, cond);
            lemma_block(viewwalk::view_expr(u, cond), body);
        },
        StmtKind::For(fl) => lemma_for(u.push_scope(), fl),
        StmtKind::Loop(b) => lemma_block(u, b),
        StmtKind::Expr(e) => lemma_expr(u, e),
        StmtKind::Defer(e) => lemma_expr(u, e),
        StmtKind::Assert(e) => lemma_expr(u, e),
        _ => {},
    }
}

pub proof fn lemma_for(v: ViewRulesV, fl: ForLoop)
    ensures
        settles(v, viewwalk::view_for(v, fl)),
    decreases fl, 0nat,
{
    match fl {
        ForLoop::CStyle { init, cond, update, body } => {
            let a = match init {
                Some(s) => viewwalk::view_stmt(v, *s),
                None => v,
            };
            if let Some(s) = init {
                lemma_stmt(v, *s);
            }
            let b = match cond {
                Some(c) => viewwalk::view_expr(a, c),
                None => a,
            };
            if let Some(c) = cond {
                lemma_expr(a, c);
            }
            let d = viewwalk::view_exprs(b, update@, 0);
            lemma_exprs(b, update@, 0);
            lemma_block(d, body);
        },
        ForLoop::Range { var, iter, body } => {
            let a = viewwalk::view_expr(v, iter);
            lemma_expr(v, iter);
            let b = a.bind(var.name@, views::plain_local(None, false));
            assert(settles(a, b));
            lemma_block(b, body);
        },
    }
}

/// Following the views of a block withdraws no report, leaves the rules alone and gives up
/// every scope that the block opens.
pub proof fn blocks_are_left_as_found(v: ViewRulesV, b: Block)
    ensures
        settles(v, viewwalk::view_block(v, b)),
{
    lemma_block(v, b);
}

// ---------------------------------------------------------------------------
// What does not leave a function in silence.

proof fn lemma_first_dying(v: ViewRulesV, roots: NameListV, moved: Set<Seq<char>>, i: nat, k: int)
    requires
        i <= k < roots.len(),
        !moved.contains(roots[k].0),
        v.dies_at_return(roots[k].0),
    ensures
        v.first_dying(roots, moved, i) is Some,
    decreases roots.len() - i,
{
    if !(!moved.contains(roots[i as int].0) && v.dies_at_return(roots[i as int].0)) {
        lemma_first_dying(v, roots, moved, i + 1, k);
    }
}

/// A view is not returned in silence if what it looks into dies with the function.
pub proof fn returned_views_outlive_the_function(v: ViewRulesV, e: Expr, t: TypeV, k: int)
    requires
        v.ret == Some(t),
        infer::is_view(t),
        ({
            let w = v.check_temp(e);
            0 <= k < w.borrow_roots(e).len() && w.dies_at_return(w.borrow_roots(e)[k].0)
        }),
    ensures
        v.check_return(e).diags.len() > v.diags.len(),
{
    let w = v.check_temp(e);
    lemma_first_dying(w, w.borrow_roots(e), Set::empty(), 0, k);
}

/// Nor is a value that carries such a view, unless it takes the owner along.
pub proof fn returned_carriers_outlive_the_function(v: ViewRulesV, e: Expr, t: TypeV, k: int)
    requires
        v.ret == Some(t),
        !infer::is_view(t),
        v.carries(t),
        0 <= k < v.borrow_roots(e).len(),
        v.dies_at_return(v.borrow_roots(e)[k].0),
        !views::moved_out(Set::empty(), e).contains(v.borrow_roots(e)[k].0),
    ensures
        v.check_return(e).diags.len() > v.diags.len(),
{
    lemma_first_dying(v, v.borrow_roots(e), views::moved_out(Set::empty(), e), 0, k);
}

/// Every storage that a returned value has bound and that dies with the function is reported.
pub proof fn returned_captures_are_reported(v: ViewRulesV, e: Expr)
    ensures
        v.check_capture_return(e).diags.len() == v.diags.len() + v.captures(e, false).len(),
{
    lemma_report_captures(v, v.captures(e, false), e, 0);
}

// ---------------------------------------------------------------------------
// What is not held against a function.

/// The function does not own the binding, or the binding's type may be copied for all that the
/// declarations tell, as that of a generic parameter or an alias may.
pub open spec fn is_open(v: ViewRulesV, root: Seq<char>) -> bool {
    match v.local(root) {
        Some(l) => !l.owns || match l.ty {
            Some(t) => v.oracle.assumed_copied(t),
            None => true,
        },
        None => true,
    }
}

/// A binding whose type is a name that is not declared is not known to die with the function.
pub proof fn undeclared_types_are_open(v: ViewRulesV, root: Seq<char>, t: TypeV, name: Seq<char>)
    requires
        v.local(root) matches Some(l) && l.ty == Some(t),
        t.kind == TypeKindV::Path(name),
        !v.oracle.types.dom().contains(name),
    ensures
        is_open(v, root),
        !v.dies_at_return(root),
{
}

proof fn lemma_none_dying(v: ViewRulesV, roots: NameListV, moved: Set<Seq<char>>, i: nat)
    requires
        forall|k: int| 0 <= k < roots.len() ==> is_open(v, (#[trigger] roots[k]).0),
    ensures
        v.first_dying(roots, moved, i) is None,
    decreases roots.len() - i,
{
    if i < roots.len() {
        lemma_none_dying(v, roots, moved, i + 1);
    }
}

/// A returned value is not reported unless some owner that it looks into is known to be moved
/// rather than copied, or is held by no binding.
pub proof fn returns_of_open_types_are_accepted(v: ViewRulesV, e: Expr)
    requires
        v.temp_origin(e) is None,
        forall|k: int| 0 <= k < v.borrow_roots(e).len() ==> is_open(v, (#[trigger] v.borrow_roots(e)[k]).0),
    ensures
        v.check_return(e).diags == v.diags,
{
    lemma_none_dying(v, v.borrow_roots(e), Set::empty(), 0);
    lemma_none_dying(v, v.borrow_roots(e), views::moved_out(Set::empty(), e), 0);
}

} // verus!
