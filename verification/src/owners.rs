//! Bindings that own their value, followed through a body to where it is returned.
use vstd::prelude::*;
use crate::escapes;
use crate::flow;
use crate::following;
use crate::infer;
use crate::messages;
use crate::ordered;
use crate::parts;
use crate::place;
use crate::sigs;
use crate::tracing;
use crate::views;
use crate::viewwalk;
use crate::ast::{AsmOperand, AssignOp, Block, Expr, ExprKind, FieldInit, ForLoop, Ident, InterpStrPart, MatchArm, Pattern, Span, Stmt, StmtKind, TypeKindV, TypeV};
use crate::escapes::LeafRule;
use crate::following::{same_rules, settles};
use crate::messages::RawDiagV;
use crate::ordered::NameListV;
use crate::parts::Node;
use crate::views::{LocalV, ScopeV, ViewRulesV};

verus! {

// ---------------------------------------------------------------------------
// Where a name is bound anew.

/// The pattern binds the name.
pub open spec fn names_here(p: Pattern, key: Seq<char>) -> bool {
    exists|k: int|
        0 <= k < flow::pattern_names(Seq::empty(), p).len() && views::canonical_name(
            #[trigger] flow::pattern_names(Seq::empty(), p)[k],
        ) == key
}

/// The expression assigns to the name.
pub open spec fn sets_here(e: Expr, key: Seq<char>) -> bool {
    match e.kind {
        ExprKind::Assign { target, .. } => match target.kind {
            ExprKind::Ident(n) => views::canonical_name(n@) == key,
            _ => false,
        },
        _ => false,
    }
}

/// The statement binds the name.
pub open spec fn binds_here(s: Stmt, key: Seq<char>) -> bool {
    match s.kind {
        StmtKind::Let { name, .. } => views::canonical_name(name.name@) == key,
        StmtKind::LetDestructure { fields, .. } => exists|k: int|
            0 <= k < fields@.len() && views::canonical_name((#[trigger] fields@[k]).name@) == key,
        _ => false,
    }
}

/// Some part of the expression binds the name anew, or assigns to it.
pub open spec fn rebinds_expr(e: Expr, key: Seq<char>) -> bool
    decreases e, 0nat,
{
    sets_here(e, key) || match e.kind {
        ExprKind::Intrinsic { args, .. } => rebinds_exprs(args@, key, 0),
        ExprKind::Asm { operands, .. } => rebinds_operands(operands@, key, 0),
        ExprKind::InterpStr { parts } => rebinds_text_parts(parts@, key, 0),
        ExprKind::Field { receiver, .. } => rebinds_expr(*receiver, key),
        ExprKind::Index { receiver, index } => rebinds_expr(*index, key) || (rebinds_expr(
            *receiver,
            key,
        )),
        ExprKind::Block(b) => rebinds_block(b, key),
        ExprKind::Await(inner) => rebinds_expr(*inner, key),
        ExprKind::Yield(inner) => rebinds_expr(*inner, key),
        ExprKind::If { cond, then, else_branch } => {
            ||| rebinds_expr(*cond, key)
            ||| rebinds_block(then, key)
            ||| match else_branch {
                Some(x) => rebinds_expr(*x, key),
                None => false,
            }
        },
        ExprKind::Call { callee, args, .. } => rebinds_expr(*callee, key) || rebinds_exprs(args@, key, 0),
        ExprKind::Binary { lhs, rhs, .. } => rebinds_expr(*lhs, key) || rebinds_expr(*rhs, key),
        ExprKind::Unary { operand, .. } => rebinds_expr(*operand, key),
        ExprKind::Range { start, end, .. } => {
            ||| match start {
                Some(x) => rebinds_expr(*x, key),
                None => false,
            }
            ||| match end {
                Some(x) => rebinds_expr(*x, key),
                None => false,
            }
        },
        ExprKind::Assign { target, value, .. } => rebinds_expr(*target, key) || rebinds_expr(*value, key),
        ExprKind::Cast { expr, .. } => rebinds_expr(*expr, key),
        ExprKind::CastChecked { expr, .. } => rebinds_expr(*expr, key),
        ExprKind::StructLit { fields, .. } => rebinds_fields(fields@, key, 0),
        ExprKind::InferredStructLit { fields } => rebinds_fields(fields@, key, 0),
        ExprKind::GenericStructLit { fields, .. } => rebinds_fields(fields@, key, 0),
        ExprKind::ArrayFill { fill, .. } => rebinds_expr(*fill, key),
        ExprKind::GenericEnumCall { args, .. } => rebinds_exprs(args@, key, 0),
        ExprKind::ArrayLit { elements } => rebinds_exprs(elements@, key, 0),
        ExprKind::TupleLit { elements } => rebinds_exprs(elements@, key, 0),
        ExprKind::Match { scrutinee, arms } => rebinds_expr(*scrutinee, key) || rebinds_arms(arms@, key, 0),
        ExprKind::FnRef { callee, .. } => rebinds_expr(*callee, key),
        _ => false,
    }
}

pub open spec fn rebinds_exprs(es: Seq<Expr>, key: Seq<char>, i: nat) -> bool
    decreases es, es.len() - i,
{
    i < es.len() && (rebinds_expr(es[i as int], key) || rebinds_exprs(es, key, i + 1))
}

pub open spec fn rebinds_fields(fs: Seq<FieldInit>, key: Seq<char>, i: nat) -> bool
    decreases fs, fs.len() - i,
{
    i < fs.len() && (rebinds_expr(fs[i as int].value, key) || rebinds_fields(fs, key, i + 1))
}

pub open spec fn rebinds_arms(arms: Seq<MatchArm>, key: Seq<char>, i: nat) -> bool
    decreases arms, arms.len() - i,
{
    i < arms.len() && (names_here(arms[i as int].pattern, key) || rebinds_expr(arms[i as int].body, key) || rebinds_arms(arms, key, i + 1))
}

pub open spec fn rebinds_operands(ops: Seq<AsmOperand>, key: Seq<char>, i: nat) -> bool
    decreases ops, ops.len() - i,
{
    i < ops.len() && (rebinds_expr(ops[i as int].value, key) || rebinds_operands(ops, key, i + 1))
}

pub open spec fn rebinds_text_parts(ps: Seq<InterpStrPart>, key: Seq<char>, i: nat) -> bool
    decreases ps, ps.len() - i,
{
    i < ps.len() && ((match ps[i as int] {
        InterpStrPart::Expr(e) => rebinds_expr(e, key),
        InterpStrPart::Text(_) => false,
    }) || rebinds_text_parts(ps, key, i + 1))
}

pub open spec fn rebinds_stmt(s: Stmt, key: Seq<char>) -> bool
    decreases s, 0nat,
{
    binds_here(s, key) || match s.kind {
        StmtKind::Let { init, .. } => match init {
            Some(e) => rebinds_expr(e, key),
            None => false,
        },
        StmtKind::LetDestructure { init, .. } => rebinds_expr(init, key),
        StmtKind::Return(value) => match value {
            Some(e) => rebinds_expr(e, key),
            None => false,
        },
        StmtKind::Expr(e) => rebinds_expr(e, key),
        StmtKind::Defer(e) => rebinds_expr(e, key),
        StmtKind::Assert(e) => rebinds_expr(e, key),
        StmtKind::While { cond, body } => rebinds_expr(cond, key) || rebinds_block(body, key),
        StmtKind::Loop(b) => rebinds_block(b, key),
        StmtKind::For(fl) => rebinds_for(fl, key),
        _ => false,
    }
}

pub open spec fn rebinds_for(fl: ForLoop, key: Seq<char>) -> bool
    decreases fl, 0nat,
{
    match fl {
        ForLoop::CStyle { init, cond, update, body } => {
            ||| match init {
                Some(s) => rebinds_stmt(*s, key),
                None => false,
            }
            ||| match cond {
                Some(c) => rebinds_expr(c, key),
                None => false,
            }
            ||| rebinds_exprs(update@, key, 0)
            ||| rebinds_block(body, key)
        },
        ForLoop::Range { var, iter, body } => views::canonical_name(var.name@) == key || rebinds_expr(iter, key) || rebinds_block(body, key),
    }
}

pub open spec fn rebinds_stmts(ss: Seq<Stmt>, key: Seq<char>, i: nat) -> bool
    decreases ss, ss.len() - i,
{
    i < ss.len() && (rebinds_stmt(ss[i as int], key) || rebinds_stmts(ss, key, i + 1))
}

pub open spec fn rebinds_block(b: Block, key: Seq<char>) -> bool
    decreases b, 0nat,
{
    rebinds_stmts(b.stmts@, key, 0) || match b.tail {
        Some(t) => rebinds_expr(*t, key),
        None => false,
    }
}

// ---------------------------------------------------------------------------
// A part of a body binds nothing that the body does not bind.

proof fn inside_exprs(es: Seq<Expr>, i: nat, s: Stmt, key: Seq<char>)
    requires
        parts::in_exprs(es, Node::Stmt(s), true, i),
        !rebinds_exprs(es, key, i),
    ensures
        !rebinds_stmt(s, key),
    decreases es, es.len() - i,
{
    if parts::in_expr(es[i as int], Node::Stmt(s), true) {
        inside_expr(es[i as int], s, key);
    } else {
        inside_exprs(es, i + 1, s, key);
    }
}

proof fn inside_fields(fs: Seq<FieldInit>, i: nat, s: Stmt, key: Seq<char>)
    requires
        parts::in_fields(fs, Node::Stmt(s), true, i),
        !rebinds_fields(fs, key, i),
    ensures
        !rebinds_stmt(s, key),
    decreases fs, fs.len() - i,
{
    if parts::in_expr(fs[i as int].value, Node::Stmt(s), true) {
        inside_expr(fs[i as int].value, s, key);
    } else {
        inside_fields(fs, i + 1, s, key);
    }
}

proof fn inside_arms(arms: Seq<MatchArm>, i: nat, s: Stmt, key: Seq<char>)
    requires
        parts::in_arms(arms, Node::Stmt(s), true, i),
        !rebinds_arms(arms, key, i),
    ensures
        !rebinds_stmt(s, key),
    decreases arms, arms.len() - i,
{
    if parts::in_expr(arms[i as int].body, Node::Stmt(s), true) {
        inside_expr(arms[i as int].body, s, key);
    } else {
        inside_arms(arms, i + 1, s, key);
    }
}

proof fn inside_operands(ops: Seq<AsmOperand>, i: nat, s: Stmt, key: Seq<char>)
    requires
        parts::in_operands(ops, Node::Stmt(s), true, i),
        !rebinds_operands(ops, key, i),
    ensures
        !rebinds_stmt(s, key),
    decreases ops, ops.len() - i,
{
    if parts::in_expr(ops[i as int].value, Node::Stmt(s), true) {
        inside_expr(ops[i as int].value, s, key);
    } else {
        inside_operands(ops, i + 1, s, key);
    }
}

proof fn inside_text_parts(ps: Seq<InterpStrPart>, i: nat, s: Stmt, key: Seq<char>)
    requires
        parts::in_text_parts(ps, Node::Stmt(s), true, i),
        !rebinds_text_parts(ps, key, i),
    ensures
        !rebinds_stmt(s, key),
    decreases ps, ps.len() - i,
{
    let here = match ps[i as int] {
        InterpStrPart::Expr(e) => parts::in_expr(e, Node::Stmt(s), true),
        InterpStrPart::Text(_) => false,
    };
    if here {
        if let InterpStrPart::Expr(e) = ps[i as int] {
            inside_expr(e, s, key);
        }
    } else {
        inside_text_parts(ps, i + 1, s, key);
    }
}

proof fn inside_stmts(ss: Seq<Stmt>, i: nat, s: Stmt, key: Seq<char>)
    requires
        parts::in_stmts(ss, Node::Stmt(s), true, i),
        !rebinds_stmts(ss, key, i),
    ensures
        !rebinds_stmt(s, key),
    decreases ss, ss.len() - i,
{
    if parts::in_stmt(ss[i as int], Node::Stmt(s), true) {
        inside_stmt(ss[i as int], s, key);
    } else {
        inside_stmts(ss, i + 1, s, key);
    }
}

proof fn inside_expr(e: Expr, s: Stmt, key: Seq<char>)
    requires
        parts::in_expr(e, Node::Stmt(s), true),
        !rebinds_expr(e, key),
    ensures
        !rebinds_stmt(s, key),
    decreases e, 0nat,
{
    match e.kind {
        ExprKind::Intrinsic { args, .. } => inside_exprs(args@, 0, s, key),
        ExprKind::Asm { operands, .. } => inside_operands(operands@, 0, s, key),
        ExprKind::InterpStr { parts } => inside_text_parts(parts@, 0, s, key),
        ExprKind::Field { receiver, .. } => inside_expr(*receiver, s, key),
        ExprKind::Index { receiver, index } => {
            if parts::in_expr(*index, Node::Stmt(s), true) {
                inside_expr(*index, s, key);
            } else {
                inside_expr(*receiver, s, key);
            }
        },
        ExprKind::Block(b) => inside_block(b, s, key),
        ExprKind::Await(inner) => inside_expr(*inner, s, key),
        ExprKind::Yield(inner) => inside_expr(*inner, s, key),
        ExprKind::If { cond, then, else_branch } => {
            if parts::in_expr(*cond, Node::Stmt(s), true) {
                inside_expr(*cond, s, key);
            } else if parts::in_block(then, Node::Stmt(s), true) {
                inside_block(then, s, key);
            } else if let Some(x) = else_branch {
                inside_expr(*x, s, key);
            }
        },
        ExprKind::Call { callee, args, .. } => {
            if parts::in_expr(*callee, Node::Stmt(s), true) {
                inside_expr(*callee, s, key);
            } else {
                inside_exprs(args@, 0, s, key);
            }
        },
        ExprKind::Binary { lhs, rhs, .. } => {
            if parts::in_expr(*lhs, Node::Stmt(s), true) {
                inside_expr(*lhs, s, key);
            } else {
                inside_expr(*rhs, s, key);
            }
        },
        ExprKind::Unary { operand, .. } => inside_expr(*operand, s, key),
        ExprKind::Range { start, end, .. } => {
            let early = match start {
                Some(x) => parts::in_expr(*x, Node::Stmt(s), true),
                None => false,
            };
            if early {
                if let Some(x) = start {
                    inside_expr(*x, s, key);
                }
            } else if let Some(x) = end {
                inside_expr(*x, s, key);
            }
        },
        ExprKind::Assign { target, value, .. } => {
            if parts::in_expr(*target, Node::Stmt(s), true) {
                inside_expr(*target, s, key);
            } else {
                inside_expr(*value, s, key);
            }
        },
        ExprKind::Cast { expr, .. } => inside_expr(*expr, s, key),
        ExprKind::CastChecked { expr, .. } => inside_expr(*expr, s, key),
        ExprKind::StructLit { fields, .. } => inside_fields(fields@, 0, s, key),
        ExprKind::InferredStructLit { fields } => inside_fields(fields@, 0, s, key),
        ExprKind::GenericStructLit { fields, .. } => inside_fields(fields@, 0, s, key),
        ExprKind::ArrayFill { fill, .. } => inside_expr(*fill, s, key),
        ExprKind::GenericEnumCall { args, .. } => inside_exprs(args@, 0, s, key),
        ExprKind::ArrayLit { elements } => inside_exprs(elements@, 0, s, key),
        ExprKind::TupleLit { elements } => inside_exprs(elements@, 0, s, key),
        ExprKind::Match { scrutinee, arms } => {
            if parts::in_expr(*scrutinee, Node::Stmt(s), true) {
                inside_expr(*scrutinee, s, key);
            } else {
                inside_arms(arms@, 0, s, key);
            }
        },
        _ => {},
    }
}

proof fn inside_stmt(x: Stmt, s: Stmt, key: Seq<char>)
    requires
        parts::in_stmt(x, Node::Stmt(s), true),
        !rebinds_stmt(x, key),
    ensures
        !rebinds_stmt(s, key),
    decreases x, 0nat,
{
    if x != s {
        match x.kind {
            StmtKind::Let { init, .. } => {
                if let Some(e) = init {
                    inside_expr(e, s, key);
                }
            },
            StmtKind::LetDestructure { init, .. } => inside_expr(init, s, key),
            StmtKind::Return(value) => {
                if let Some(e) = value {
                    inside_expr(e, s, key);
                }
            },
            StmtKind::Expr(e) => inside_expr(e, s, key),
            StmtKind::Defer(e) => inside_expr(e, s, key),
            StmtKind::Assert(e) => inside_expr(e, s, key),
            StmtKind::While { cond, body } => {
                if parts::in_expr(cond, Node::Stmt(s), true) {
                    inside_expr(cond, s, key);
                } else {
                    inside_block(body, s, key);
                }
            },
            StmtKind::Loop(b) => inside_block(b, s, key),
            StmtKind::For(fl) => inside_for(fl, s, key),
            _ => {},
        }
    }
}

proof fn inside_for(fl: ForLoop, s: Stmt, key: Seq<char>)
    requires
        parts::in_for(fl, Node::Stmt(s), true),
        !rebinds_for(fl, key),
    ensures
        !rebinds_stmt(s, key),
    decreases fl, 0nat,
{
    match fl {
        ForLoop::CStyle { init, cond, update, body } => {
            let in_init = match init {
                Some(x) => parts::in_stmt(*x, Node::Stmt(s), true),
                None => false,
            };
            let in_cond = match cond {
                Some(c) => parts::in_expr(c, Node::Stmt(s), true),
                None => false,
            };
            if in_init {
                if let Some(x) = init {
                    inside_stmt(*x, s, key);
                }
            } else if in_cond {
                if let Some(c) = cond {
                    inside_expr(c, s, key);
                }
            } else if parts::in_exprs(update@, Node::Stmt(s), true, 0) {
                inside_exprs(update@, 0, s, key);
            } else {
                inside_block(body, s, key);
            }
        },
        ForLoop::Range { iter, body, .. } => {
            if parts::in_expr(iter, Node::Stmt(s), true) {
                inside_expr(iter, s, key);
            } else {
                inside_block(body, s, key);
            }
        },
    }
}

proof fn inside_block(b: Block, s: Stmt, key: Seq<char>)
    requires
        parts::in_block(b, Node::Stmt(s), true),
        !rebinds_block(b, key),
    ensures
        !rebinds_stmt(s, key),
    decreases b, 0nat,
{
    if parts::in_stmts(b.stmts@, Node::Stmt(s), true, 0) {
        inside_stmts(b.stmts@, 0, s, key);
    } else if let Some(t) = b.tail {
        inside_expr(*t, s, key);
    }
}

// ---------------------------------------------------------------------------
// A binding stays as it is.

/// A binding in one of the scopes: its name, the scope, and what is known of it.
pub struct Own {
    pub key: Seq<char>,
    pub depth: int,
    pub local: LocalV,
}

/// The scopes hold the binding, which borrows from nothing, and no inner scope hides it.
pub open spec fn owned_in(ss: Seq<ScopeV>, o: Own) -> bool {
    &&& 0 <= o.depth < ss.len()
    &&& ss[o.depth].dom().contains(o.key)
    &&& ss[o.depth][o.key] == o.local
    &&& o.local.roots.len() == 0
    &&& forall|j: int| o.depth < j < ss.len() ==> !(#[trigger] ss[j]).dom().contains(o.key)
}

proof fn lemma_found(ss: Seq<ScopeV>, o: Own, n: nat)
    requires
        owned_in(ss, o),
        o.depth < n <= ss.len(),
    ensures
        views::find_local(ss, o.key, n) == Some(o.local),
    decreases n,
{
    if n - 1 > o.depth {
        assert(!ss[n - 1].dom().contains(o.key));
        lemma_found(ss, o, (n - 1) as nat);
    }
}

proof fn lemma_bind(o: Own, v: ViewRulesV, name: Seq<char>, l: LocalV)
    requires
        owned_in(v.scopes, o),
        views::canonical_name(name) != o.key,
    ensures
        owned_in(v.bind(name, l).scopes, o),
{
    let w = v.bind(name, l);
    assert forall|j: int| o.depth < j < w.scopes.len() implies !(#[trigger] w.scopes[j]).dom().contains(o.key) by {
        assert(!v.scopes[j].dom().contains(o.key));
    }
}

proof fn lemma_push(o: Own, v: ViewRulesV)
    requires
        owned_in(v.scopes, o),
    ensures
        owned_in(v.push_scope().scopes, o),
{
}

proof fn lemma_pop(o: Own, v: ViewRulesV)
    requires
        owned_in(v.scopes, o),
        o.depth < v.scopes.len() - 1,
    ensures
        owned_in(v.pop_scope().scopes, o),
{
    let w = v.pop_scope();
    assert forall|j: int| o.depth < j < w.scopes.len() implies !(#[trigger] w.scopes[j]).dom().contains(o.key) by {
        assert(w.scopes[j] == v.scopes[j]);
    }
}

proof fn lemma_rooted(o: Own, ss: Seq<ScopeV>, key: Seq<char>, roots: NameListV, n: nat)
    requires
        owned_in(ss, o),
        key != o.key,
    ensures
        owned_in(views::rooted(ss, key, roots, n), o),
    decreases n,
{
    if n > 0 && n <= ss.len() {
        if ss[n - 1].dom().contains(key) {
            let r = views::rooted(ss, key, roots, n);
            assert forall|j: int| o.depth < j < r.len() implies !(#[trigger] r[j]).dom().contains(o.key) by {
                assert(!ss[j].dom().contains(o.key));
            }
        } else {
            lemma_rooted(o, ss, key, roots, (n - 1) as nat);
        }
    }
}

proof fn lemma_joined(o: Own, ss: Seq<ScopeV>, other: Seq<ScopeV>)
    requires
        owned_in(ss, o),
        owned_in(other, o),
    ensures
        owned_in(views::joined(ss, other), o),
{
    let r = views::joined(ss, other);
    assert(r[o.depth].dom().contains(o.key));
    assert(r[o.depth][o.key] == views::joined_local(o.local, o.key, other[o.depth]));
    assert(views::put_names(o.local.roots, o.local.roots, 0) == o.local.roots);
    assert forall|j: int| o.depth < j < r.len() implies !(#[trigger] r[j]).dom().contains(o.key) by {
        assert(!ss[j].dom().contains(o.key));
    }
}

/// All the scopes hold the binding.
spec fn all_own(per: Seq<Seq<ScopeV>>, o: Own) -> bool {
    forall|k: int| 0 <= k < per.len() ==> owned_in(#[trigger] per[k], o)
}

proof fn lemma_join_all(o: Own, ss: Seq<ScopeV>, per: Seq<Seq<ScopeV>>, i: nat)
    requires
        owned_in(ss, o),
        all_own(per, o),
    ensures
        owned_in(viewwalk::join_all(ss, per, i), o),
    decreases per.len() - i,
{
    if i < per.len() {
        lemma_joined(o, ss, per[i as int]);
        lemma_join_all(o, views::joined(ss, per[i as int]), per, i + 1);
    }
}

// The rules only report.

proof fn lemma_flag_roots(v: ViewRulesV, roots: NameListV, span: Span, i: nat)
    ensures
        v.flag_roots(roots, span, i).scopes == v.scopes,
    decreases roots.len() - i,
{
    if i < roots.len() {
        let w = if v.dies_at_return(roots[i as int].0) {
            v.report(messages::escaping_leaf(v.owner_desc(roots[i as int].0), span))
        } else {
            v
        };
        lemma_flag_roots(w, roots, span, i + 1);
    }
}

proof fn lemma_leaves(v: ViewRulesV, rule: LeafRule, e: Expr, expected: Option<TypeV>)
    ensures
        v.check_leaves(rule, e, expected).scopes == v.scopes,
    decreases e, 0nat,
{
    match e.kind {
        ExprKind::StructLit { name, fields } => lemma_leaf_fields(v, rule, fields@, Some(name.name@), 0),
        ExprKind::GenericStructLit { name, fields, .. } => lemma_leaf_fields(v, rule, fields@, Some(name.name@), 0),
        ExprKind::InferredStructLit { fields } => lemma_leaf_fields(v, rule, fields@, views::nominal_of(expected), 0),
        ExprKind::ArrayLit { elements } => lemma_leaf_elems(v, rule, elements@, views::element_of(expected), 0),
        ExprKind::TupleLit { elements } => lemma_leaf_tuple(v, rule, elements@, escapes::tuple_types(expected), 0),
        ExprKind::ArrayFill { fill, .. } => lemma_leaves(v, rule, *fill, views::element_of(expected)),
        _ => lemma_flag_roots(v, v.leaf_roots(e, expected), e.span, 0),
    }
}

proof fn lemma_leaf_fields(v: ViewRulesV, rule: LeafRule, fs: Seq<FieldInit>, base: Option<Seq<char>>, i: nat)
    ensures
        v.check_fields(rule, fs, base, i).scopes == v.scopes,
    decreases fs, fs.len() - i,
{
    if i < fs.len() {
        let t = v.field_in(base, fs[i as int].name.name@);
        lemma_leaves(v, rule, fs[i as int].value, t);
        lemma_leaf_fields(v.check_leaves(rule, fs[i as int].value, t), rule, fs, base, i + 1);
    }
}

proof fn lemma_leaf_elems(v: ViewRulesV, rule: LeafRule, es: Seq<Expr>, expected: Option<TypeV>, i: nat)
    ensures
        v.check_elems(rule, es, expected, i).scopes == v.scopes,
    decreases es, es.len() - i,
{
    if i < es.len() {
        lemma_leaves(v, rule, es[i as int], expected);
        lemma_leaf_elems(v.check_leaves(rule, es[i as int], expected), rule, es, expected, i + 1);
    }
}

proof fn lemma_leaf_tuple(v: ViewRulesV, rule: LeafRule, es: Seq<Expr>, ts: Seq<TypeV>, i: nat)
    ensures
        v.check_tuple(rule, es, ts, i).scopes == v.scopes,
    decreases es, es.len() - i,
{
    if i < es.len() {
        lemma_leaves(v, rule, es[i as int], escapes::type_at(ts, i as int));
        lemma_leaf_tuple(v.check_leaves(rule, es[i as int], escapes::type_at(ts, i as int)), rule, es, ts, i + 1);
    }
}

proof fn lemma_report_captures(v: ViewRulesV, roots: Seq<Seq<char>>, e: Expr, i: nat)
    ensures
        v.report_captures(roots, e, i).scopes == v.scopes,
    decreases roots.len() - i,
{
    if i < roots.len() {
        let w = v.report(messages::captured_return(roots[i as int], v.carried_by(roots[i as int], e), e.span));
        lemma_report_captures(w, roots, e, i + 1);
    }
}

proof fn lemma_bound_view(v: ViewRulesV, t: TypeV, e: Expr)
    ensures
        v.check_bound_view(t, e).scopes == v.scopes,
{
    lemma_leaves(v, LeafRule::Temporary, e, Some(t));
}

proof fn lemma_return(v: ViewRulesV, e: Expr)
    ensures
        v.check_returned_aggregate(e).check_return(e).check_capture_return(e).scopes == v.scopes,
        v.check_returned_aggregate(e).scopes == v.scopes,
{
    lemma_leaves(v, LeafRule::Escape, e, v.ret);
    let b = v.check_returned_aggregate(e).check_return(e);
    lemma_report_captures(b, b.captures(e, false), e, 0);
}

proof fn keep_assign(o: Own, v: ViewRulesV, target: Expr, value: Expr)
    requires
        owned_in(v.scopes, o),
        target.kind matches ExprKind::Ident(n) ==> views::canonical_name(n@) != o.key,
    ensures
        owned_in(v.check_assign(target, value).scopes, o),
{
    let c = v.check_store_escape(target, value).check_raw_store(target, value).check_capture_store(target, value);
    assert(c.scopes == v.scopes);
    let d = match c.place_ty(target) {
        Some(t) => c.check_bound_view(t, value),
        None => c,
    };
    if let Some(t) = c.place_ty(target) {
        lemma_bound_view(c, t, value);
    }
    if let ExprKind::Ident(n) = target.kind {
        lemma_rooted(o, d.scopes, views::canonical_name(n@), d.borrow_roots(value), d.scopes.len());
        lemma_rooted(o, d.scopes, views::canonical_name(n@), Seq::empty(), d.scopes.len());
    }
}

proof fn keep_names(o: Own, v: ViewRulesV, names: Seq<Seq<char>>, tys: Map<Seq<char>, TypeV>, owned: bool, i: nat)
    requires
        owned_in(v.scopes, o),
        forall|k: int| i <= k < names.len() ==> views::canonical_name(#[trigger] names[k]) != o.key,
    ensures
        owned_in(v.bind_names(names, tys, owned, i).scopes, o),
    decreases names.len() - i,
{
    if i < names.len() {
        let l = views::plain_local(sigs::look(tys, names[i as int]), owned);
        lemma_bind(o, v, names[i as int], l);
        keep_names(o, v.bind(names[i as int], l), names, tys, owned, i + 1);
    }
}

proof fn keep_pattern(o: Own, v: ViewRulesV, p: Pattern, scrutinee: Expr, owned: bool)
    requires
        owned_in(v.scopes, o),
        !names_here(p, o.key),
    ensures
        owned_in(v.bind_pattern(p, scrutinee, owned).scopes, o),
{
    keep_names(
        o,
        v,
        flow::pattern_names(Seq::empty(), p),
        infer::with_pattern(Map::empty(), v.sigs, p, v.infer_ty(scrutinee)),
        owned,
        0,
    );
}

proof fn keep_bind_parts(o: Own, v: ViewRulesV, base: Seq<char>, ids: Seq<Ident>, i: nat)
    requires
        owned_in(v.scopes, o),
        forall|k: int| i <= k < ids.len() ==> views::canonical_name((#[trigger] ids[k]).name@) != o.key,
    ensures
        owned_in(v.bind_parts(base, ids, i).scopes, o),
    decreases ids.len() - i,
{
    if i < ids.len() {
        let l = views::plain_local(infer::field_of(v.sigs, base, ids[i as int].name@), true);
        lemma_bind(o, v, ids[i as int].name@, l);
        keep_bind_parts(o, v.bind(ids[i as int].name@, l), base, ids, i + 1);
    }
}

proof fn keep_let(o: Own, v: ViewRulesV, name: Seq<char>, ty: Option<TypeV>, init: Option<Expr>)
    requires
        owned_in(v.scopes, o),
        views::canonical_name(name) != o.key,
    ensures
        owned_in(v.bind_let(name, ty, init).scopes, o),
{
    let resolved = match (ty, init) {
        (Some(t), _) => Some(t),
        (None, Some(e)) => v.infer_ty(e),
        (None, None) => None,
    };
    match (resolved, init) {
        (Some(t), Some(e)) => {
            let w = v.check_bound_view(t, e);
            lemma_bound_view(v, t, e);
            let roots = if w.viewing(t) {
                w.borrow_roots(e)
            } else {
                Seq::empty()
            };
            lemma_bind(o, w, name, LocalV { ty: resolved, owns: true, roots });
        },
        _ => lemma_bind(o, v, name, views::plain_local(resolved, true)),
    }
}

proof fn keep_exprs(o: Own, v: ViewRulesV, es: Seq<Expr>, i: nat)
    requires
        owned_in(v.scopes, o),
        !rebinds_exprs(es, o.key, i),
    ensures
        owned_in(viewwalk::view_exprs(v, es, i).scopes, o),
    decreases es, es.len() - i,
{
    if i < es.len() {
        keep_expr(o, v, es[i as int]);
        keep_exprs(o, viewwalk::view_expr(v, es[i as int]), es, i + 1);
    }
}

proof fn keep_fields(o: Own, v: ViewRulesV, fs: Seq<FieldInit>, i: nat)
    requires
        owned_in(v.scopes, o),
        !rebinds_fields(fs, o.key, i),
    ensures
        owned_in(viewwalk::view_fields(v, fs, i).scopes, o),
    decreases fs, fs.len() - i,
{
    if i < fs.len() {
        keep_expr(o, v, fs[i as int].value);
        keep_fields(o, viewwalk::view_expr(v, fs[i as int].value), fs, i + 1);
    }
}

proof fn keep_operands(o: Own, v: ViewRulesV, ops: Seq<AsmOperand>, i: nat)
    requires
        owned_in(v.scopes, o),
        !rebinds_operands(ops, o.key, i),
    ensures
        owned_in(viewwalk::view_operands(v, ops, i).scopes, o),
    decreases ops, ops.len() - i,
{
    if i < ops.len() {
        keep_expr(o, v, ops[i as int].value);
        keep_operands(o, viewwalk::view_expr(v, ops[i as int].value), ops, i + 1);
    }
}

proof fn keep_args(o: Own, v: ViewRulesV, args: Seq<Expr>, builds: bool, i: nat)
    requires
        owned_in(v.scopes, o),
        !rebinds_exprs(args, o.key, i),
    ensures
        owned_in(viewwalk::view_args(v, args, builds, i).scopes, o),
    decreases args, args.len() - i,
{
    if i < args.len() {
        let u = if builds {
            v
        } else {
            v.check_capture_arg(args[i as int])
        };
        assert(u.scopes == v.scopes);
        keep_expr(o, u, args[i as int]);
        keep_args(o, viewwalk::view_expr(u, args[i as int]), args, builds, i + 1);
    }
}

proof fn keep_parts(o: Own, v: ViewRulesV, ps: Seq<InterpStrPart>, i: nat)
    requires
        owned_in(v.scopes, o),
        !rebinds_text_parts(ps, o.key, i),
    ensures
        owned_in(viewwalk::view_parts(v, ps, i).scopes, o),
    decreases ps, ps.len() - i,
{
    if i < ps.len() {
        match ps[i as int] {
            InterpStrPart::Expr(e) => {
                keep_expr(o, v, e);
                keep_parts(o, viewwalk::view_expr(v, e), ps, i + 1);
            },
            InterpStrPart::Text(_) => keep_parts(o, v, ps, i + 1),
        }
    }
}

proof fn keep_arms(
    o: Own,
    v: ViewRulesV,
    before: Seq<ScopeV>,
    scrutinee: Expr,
    owned: bool,
    arms: Seq<MatchArm>,
    per: Seq<Seq<ScopeV>>,
    i: nat,
)
    requires
        owned_in(before, o),
        !rebinds_arms(arms, o.key, i),
        v.scopes.len() == before.len(),
    ensures
        all_own(per, o) ==> all_own(viewwalk::view_arms(v, before, scrutinee, owned, arms, per, i).1, o),
    decreases arms, arms.len() - i,
{
    if i < arms.len() {
        let arm = arms[i as int];
        let a = v.with_scopes(before).push_scope();
        lemma_push(o, v.with_scopes(before));
        let b = a.bind_pattern(arm.pattern, scrutinee, owned);
        keep_pattern(o, a, arm.pattern, scrutinee, owned);
        following::lemma_bind_names(
            a,
            flow::pattern_names(Seq::empty(), arm.pattern),
            infer::with_pattern(Map::empty(), a.sigs, arm.pattern, a.infer_ty(scrutinee)),
            owned,
            0,
        );
        let c = viewwalk::view_expr(b, arm.body);
        keep_expr(o, b, arm.body);
        following::lemma_expr(b, arm.body);
        let f = c.pop_scope();
        lemma_pop(o, c);
        let next = per.push(f.scopes);
        keep_arms(o, f, before, scrutinee, owned, arms, next, i + 1);
        if all_own(per, o) {
            assert forall|k: int| 0 <= k < next.len() implies owned_in(#[trigger] next[k], o) by {
                if k < per.len() {
                    assert(next[k] == per[k]);
                }
            }
        }
    }
}

proof fn keep_if(o: Own, v: ViewRulesV, e: Expr)
    requires
        e.kind is If,
        owned_in(v.scopes, o),
        !rebinds_expr(e, o.key),
    ensures
        owned_in(viewwalk::view_expr(v, e).scopes, o),
    decreases e, 0nat,
{
    if let ExprKind::If { cond, then, else_branch } = e.kind {
        let a = viewwalk::view_expr(v, *cond);
        keep_expr(o, v, *cond);
        let b = viewwalk::view_block(a, then);
        keep_block(o, a, then);
        let c = b.with_scopes(a.scopes);
        if let Some(x) = else_branch {
            keep_expr(o, c, *x);
            lemma_joined(o, viewwalk::view_expr(c, *x).scopes, b.scopes);
        } else {
            lemma_joined(o, c.scopes, b.scopes);
        }
    }
}

proof fn keep_match(o: Own, v: ViewRulesV, e: Expr)
    requires
        e.kind is Match,
        owned_in(v.scopes, o),
        !rebinds_expr(e, o.key),
    ensures
        owned_in(viewwalk::view_expr(v, e).scopes, o),
    decreases e, 0nat,
{
    if let ExprKind::Match { scrutinee, arms } = e.kind {
        let a = viewwalk::view_expr(v, *scrutinee);
        keep_expr(o, v, *scrutinee);
        let owned = a.owned_scrutinee(*scrutinee);
        keep_arms(o, a, a.scopes, *scrutinee, owned, arms@, Seq::empty(), 0);
        lemma_join_all(o, a.scopes, viewwalk::view_arms(a, a.scopes, *scrutinee, owned, arms@, Seq::empty(), 0).1, 0);
    }
}

proof fn keep_set(o: Own, v: ViewRulesV, e: Expr)
    requires
        e.kind is Assign,
        owned_in(v.scopes, o),
        !rebinds_expr(e, o.key),
    ensures
        owned_in(viewwalk::view_expr(v, e).scopes, o),
    decreases e, 0nat,
{
    if let ExprKind::Assign { op, target, value } = e.kind {
        let a = viewwalk::view_expr(v, *value);
        keep_expr(o, v, *value);
        keep_expr(o, a, *target);
        keep_assign(o, viewwalk::view_expr(a, *target), *target, *value);
    }
}

proof fn keep_range(o: Own, v: ViewRulesV, e: Expr)
    requires
        e.kind is Range,
        owned_in(v.scopes, o),
        !rebinds_expr(e, o.key),
    ensures
        owned_in(viewwalk::view_expr(v, e).scopes, o),
    decreases e, 0nat,
{
    if let ExprKind::Range { start, end, .. } = e.kind {
        let a = match start {
            Some(x) => viewwalk::view_expr(v, *x),
            None => v,
        };
        if let Some(x) = start {
            keep_expr(o, v, *x);
        }
        if let Some(x) = end {
            keep_expr(o, a, *x);
        }
    }
}

proof fn keep_expr(o: Own, v: ViewRulesV, e: Expr)
    requires
        owned_in(v.scopes, o),
        !rebinds_expr(e, o.key),
    ensures
        owned_in(viewwalk::view_expr(v, e).scopes, o),
    decreases e, 1nat,
{
    match e.kind {
        ExprKind::Block(b) => keep_block(o, v, b),
        ExprKind::If { .. } => keep_if(o, v, e),
        ExprKind::Match { .. } => keep_match(o, v, e),
        ExprKind::Assign { .. } => keep_set(o, v, e),
        ExprKind::Call { callee, args, .. } => {
            let a = viewwalk::view_expr(v, *callee);
            keep_expr(o, v, *callee);
            keep_args(o, a, args@, viewwalk::builds_enum(a.sigs, *callee), 0);
        },
        ExprKind::Binary { lhs, rhs, .. } => {
            keep_expr(o, v, *lhs);
            keep_expr(o, viewwalk::view_expr(v, *lhs), *rhs);
        },
        ExprKind::Unary { operand, .. } => keep_expr(o, v, *operand),
        ExprKind::Field { receiver, .. } => keep_expr(o, v, *receiver),
        ExprKind::Index { receiver, index } => {
            keep_expr(o, v, *receiver);
            keep_expr(o, viewwalk::view_expr(v, *receiver), *index);
        },
        ExprKind::Cast { expr, .. } => keep_expr(o, v, *expr),
        ExprKind::StructLit { fields, .. } => keep_fields(o, v, fields@, 0),
        ExprKind::InferredStructLit { fields } => keep_fields(o, v, fields@, 0),
        ExprKind::GenericStructLit { fields, .. } => keep_fields(o, v, fields@, 0),
        ExprKind::ArrayLit { elements } => keep_exprs(o, v, elements@, 0),
        ExprKind::TupleLit { elements } => keep_exprs(o, v, elements@, 0),
        ExprKind::GenericEnumCall { args, .. } => keep_exprs(o, v, args@, 0),
        ExprKind::ArrayFill { fill, .. } => keep_expr(o, v, *fill),
        ExprKind::CastChecked { expr, .. } => keep_expr(o, v, *expr),
        ExprKind::Await(inner) => keep_expr(o, v, *inner),
        ExprKind::Yield(inner) => keep_expr(o, v, *inner),
        ExprKind::Range { .. } => keep_range(o, v, e),
        ExprKind::InterpStr { parts } => keep_parts(o, v, parts@, 0),
        ExprKind::Intrinsic { args, .. } => keep_exprs(o, v, args@, 0),
        ExprKind::Asm { operands, .. } => keep_operands(o, v, operands@, 0),
        ExprKind::FnRef { callee, .. } => keep_expr(o, v, *callee),
        _ => {},
    }
}

proof fn keep_stmts(o: Own, v: ViewRulesV, ss: Seq<Stmt>, i: nat)
    requires
        owned_in(v.scopes, o),
        !rebinds_stmts(ss, o.key, i),
    ensures
        owned_in(viewwalk::view_stmts(v, ss, i).scopes, o),
    decreases ss, ss.len() - i,
{
    if i < ss.len() {
        keep_stmt(o, v, ss[i as int]);
        keep_stmts(o, viewwalk::view_stmt(v, ss[i as int]), ss, i + 1);
    }
}

proof fn keep_block(o: Own, v: ViewRulesV, b: Block)
    requires
        owned_in(v.scopes, o),
        !rebinds_block(b, o.key),
    ensures
        owned_in(viewwalk::view_block(v, b).scopes, o),
    decreases b, 0nat,
{
    let a = v.push_scope();
    lemma_push(o, v);
    let c = viewwalk::view_stmts(a, b.stmts@, 0);
    keep_stmts(o, a, b.stmts@, 0);
    following::lemma_stmts(a, b.stmts@, 0);
    let f = match b.tail {
        Some(t) => viewwalk::view_expr(c, *t),
        None => c,
    };
    if let Some(t) = b.tail {
        keep_expr(o, c, *t);
        following::lemma_expr(c, *t);
    }
    lemma_pop(o, f);
}

proof fn keep_stmt(o: Own, v: ViewRulesV, s: Stmt)
    requires
        owned_in(v.scopes, o),
        !rebinds_stmt(s, o.key),
    ensures
        owned_in(viewwalk::view_stmt(v, s).scopes, o),
    decreases s, 0nat,
{
    let u = v.update_taint(s);
    assert(u.scopes == v.scopes);
    match s.kind {
        StmtKind::Let { name, ty, init, .. } => {
            let w = match init {
                Some(e) => viewwalk::view_expr(u, e),
                None => u,
            };
            if let Some(e) = init {
                keep_expr(o, u, e);
            }
            keep_let(o, w, name.name@, sigs::opt_type(ty), init);
        },
        StmtKind::LetDestructure { struct_name, fields, init } => {
            let w = viewwalk::view_expr(u, init);
            keep_expr(o, u, init);
            lemma_leaves(w, LeafRule::Temporary, init, Some(infer::path_at(struct_name.name@, init.span)));
            keep_bind_parts(o, w.check_destructured(struct_name.name@, init), struct_name.name@, fields@, 0);
        },
        StmtKind::Return(Some(e)) => {
            keep_expr(o, u, e);
            lemma_return(viewwalk::view_expr(u, e), e);
        },
        StmtKind::While { cond, body } => {
            keep_expr(o, u, cond);
            keep_block(o, viewwalk::view_expr(u, cond), body);
        },
        StmtKind::For(fl) => {
            lemma_push(o, u);
            keep_for(o, u.push_scope(), fl);
            following::lemma_for(u.push_scope(), fl);
            lemma_pop(o, viewwalk::view_for(u.push_scope(), fl));
        },
        StmtKind::Loop(b) => keep_block(o, u, b),
        StmtKind::Expr(e) => keep_expr(o, u, e),
        StmtKind::Defer(e) => keep_expr(o, u, e),
        StmtKind::Assert(e) => keep_expr(o, u, e),
        _ => {},
    }
}

proof fn keep_for(o: Own, v: ViewRulesV, fl: ForLoop)
    requires
        owned_in(v.scopes, o),
        !rebinds_for(fl, o.key),
    ensures
        owned_in(viewwalk::view_for(v, fl).scopes, o),
    decreases fl, 0nat,
{
    match fl {
        ForLoop::CStyle { init, cond, update, body } => {
            let a = match init {
                Some(s) => viewwalk::view_stmt(v, *s),
                None => v,
            };
            if let Some(s) = init {
                keep_stmt(o, v, *s);
            }
            let b = match cond {
                Some(c) => viewwalk::view_expr(a, c),
                None => a,
            };
            if let Some(c) = cond {
                keep_expr(o, a, c);
            }
            keep_exprs(o, b, update@, 0);
            keep_block(o, viewwalk::view_exprs(b, update@, 0), body);
        },
        ForLoop::Range { var, iter, body } => {
            let a = viewwalk::view_expr(v, iter);
            keep_expr(o, v, iter);
            lemma_bind(o, a, var.name@, views::plain_local(None, false));
            keep_block(o, a.bind(var.name@, views::plain_local(None, false)), body);
        },
    }
}

// ---------------------------------------------------------------------------
// The binding where it is used.

/// Following the part leads to the report wherever the binding is known.
pub open spec fn always_tells_of(v: ViewRulesV, o: Own, n: Node, d: RawDiagV) -> bool {
    match n {
        Node::Stmt(x) => forall|u: ViewRulesV|
            same_rules(v, u) && owned_in(u.scopes, o) ==> (#[trigger] viewwalk::view_stmt(u, x)).diags.contains(d),
        _ => false,
    }
}

proof fn lemma_stays(a: ViewRulesV, b: ViewRulesV, d: RawDiagV)
    requires
        settles(a, b),
        a.diags.contains(d),
    ensures
        b.diags.contains(d),
{
    let k = choose|k: int| 0 <= k < a.diags.len() && a.diags[k] == d;
    assert(b.diags[k] == d);
}

proof fn meet_exprs(z: ViewRulesV, o: Own, v: ViewRulesV, es: Seq<Expr>, i: nat, n: Node, d: RawDiagV)
    requires
        same_rules(z, v),
        owned_in(v.scopes, o),
        always_tells_of(z, o, n, d),
        parts::in_exprs(es, n, true, i),
        !rebinds_exprs(es, o.key, i),
    ensures
        viewwalk::view_exprs(v, es, i).diags.contains(d),
    decreases es, es.len() - i,
{
    let w = viewwalk::view_expr(v, es[i as int]);
    following::lemma_expr(v, es[i as int]);
    keep_expr(o, v, es[i as int]);
    if parts::in_expr(es[i as int], n, true) {
        meet_expr(z, o, v, es[i as int], n, d);
        following::lemma_exprs(w, es, i + 1);
        keep_exprs(o, w, es, i + 1);
        lemma_stays(w, viewwalk::view_exprs(v, es, i), d);
    } else {
        meet_exprs(z, o, w, es, i + 1, n, d);
    }
}

proof fn meet_fields(z: ViewRulesV, o: Own, v: ViewRulesV, fs: Seq<FieldInit>, i: nat, n: Node, d: RawDiagV)
    requires
        same_rules(z, v),
        owned_in(v.scopes, o),
        always_tells_of(z, o, n, d),
        parts::in_fields(fs, n, true, i),
        !rebinds_fields(fs, o.key, i),
    ensures
        viewwalk::view_fields(v, fs, i).diags.contains(d),
    decreases fs, fs.len() - i,
{
    let w = viewwalk::view_expr(v, fs[i as int].value);
    following::lemma_expr(v, fs[i as int].value);
    keep_expr(o, v, fs[i as int].value);
    if parts::in_expr(fs[i as int].value, n, true) {
        meet_expr(z, o, v, fs[i as int].value, n, d);
        following::lemma_fields(w, fs, i + 1);
        keep_fields(o, w, fs, i + 1);
        lemma_stays(w, viewwalk::view_fields(v, fs, i), d);
    } else {
        meet_fields(z, o, w, fs, i + 1, n, d);
    }
}

proof fn meet_operands(z: ViewRulesV, o: Own, v: ViewRulesV, ops: Seq<AsmOperand>, i: nat, n: Node, d: RawDiagV)
    requires
        same_rules(z, v),
        owned_in(v.scopes, o),
        always_tells_of(z, o, n, d),
        parts::in_operands(ops, n, true, i),
        !rebinds_operands(ops, o.key, i),
    ensures
        viewwalk::view_operands(v, ops, i).diags.contains(d),
    decreases ops, ops.len() - i,
{
    let w = viewwalk::view_expr(v, ops[i as int].value);
    following::lemma_expr(v, ops[i as int].value);
    keep_expr(o, v, ops[i as int].value);
    if parts::in_expr(ops[i as int].value, n, true) {
        meet_expr(z, o, v, ops[i as int].value, n, d);
        following::lemma_operands(w, ops, i + 1);
        keep_operands(o, w, ops, i + 1);
        lemma_stays(w, viewwalk::view_operands(v, ops, i), d);
    } else {
        meet_operands(z, o, w, ops, i + 1, n, d);
    }
}

proof fn meet_args(z: ViewRulesV, o: Own, v: ViewRulesV, args: Seq<Expr>, builds: bool, i: nat, n: Node, d: RawDiagV)
    requires
        same_rules(z, v),
        owned_in(v.scopes, o),
        always_tells_of(z, o, n, d),
        parts::in_exprs(args, n, true, i),
        !rebinds_exprs(args, o.key, i),
    ensures
        viewwalk::view_args(v, args, builds, i).diags.contains(d),
    decreases args, args.len() - i,
{
    let u = if builds {
        v
    } else {
        v.check_capture_arg(args[i as int])
    };
    assert(u.scopes == v.scopes);
    let w = viewwalk::view_expr(u, args[i as int]);
    following::lemma_expr(u, args[i as int]);
    keep_expr(o, u, args[i as int]);
    if parts::in_expr(args[i as int], n, true) {
        meet_expr(z, o, u, args[i as int], n, d);
        following::lemma_args(w, args, builds, i + 1);
        keep_args(o, w, args, builds, i + 1);
        lemma_stays(w, viewwalk::view_args(v, args, builds, i), d);
    } else {
        meet_args(z, o, w, args, builds, i + 1, n, d);
    }
}

proof fn meet_parts(z: ViewRulesV, o: Own, v: ViewRulesV, ps: Seq<InterpStrPart>, i: nat, n: Node, d: RawDiagV)
    requires
        same_rules(z, v),
        owned_in(v.scopes, o),
        always_tells_of(z, o, n, d),
        parts::in_text_parts(ps, n, true, i),
        !rebinds_text_parts(ps, o.key, i),
    ensures
        viewwalk::view_parts(v, ps, i).diags.contains(d),
    decreases ps, ps.len() - i,
{
    let w = match ps[i as int] {
        InterpStrPart::Expr(e) => viewwalk::view_expr(v, e),
        InterpStrPart::Text(_) => v,
    };
    let here = match ps[i as int] {
        InterpStrPart::Expr(e) => parts::in_expr(e, n, true),
        InterpStrPart::Text(_) => false,
    };
    if let InterpStrPart::Expr(e) = ps[i as int] {
        following::lemma_expr(v, e);
        keep_expr(o, v, e);
    }
    if here {
        if let InterpStrPart::Expr(e) = ps[i as int] {
            meet_expr(z, o, v, e, n, d);
        }
        following::lemma_parts(w, ps, i + 1);
        keep_parts(o, w, ps, i + 1);
        lemma_stays(w, viewwalk::view_parts(v, ps, i), d);
    } else {
        meet_parts(z, o, w, ps, i + 1, n, d);
    }
}

proof fn meet_arms(
    z: ViewRulesV,
    o: Own,
    v: ViewRulesV,
    before: Seq<ScopeV>,
    scrutinee: Expr,
    owned: bool,
    arms: Seq<MatchArm>,
    per: Seq<Seq<ScopeV>>,
    i: nat,
    n: Node,
    d: RawDiagV,
)
    requires
        same_rules(z, v),
        v.scopes.len() == before.len(),
        owned_in(before, o),
        always_tells_of(z, o, n, d),
        parts::in_arms(arms, n, true, i),
        !rebinds_arms(arms, o.key, i),
    ensures
        viewwalk::view_arms(v, before, scrutinee, owned, arms, per, i).0.diags.contains(d),
    decreases arms, arms.len() - i,
{
    let arm = arms[i as int];
    let a = v.with_scopes(before).push_scope();
    let b = a.bind_pattern(arm.pattern, scrutinee, owned);
    following::lemma_bind_names(
        a,
        flow::pattern_names(Seq::empty(), arm.pattern),
        infer::with_pattern(Map::empty(), a.sigs, arm.pattern, a.infer_ty(scrutinee)),
        owned,
        0,
    );
    lemma_push(o, v.with_scopes(before));
    keep_pattern(o, a, arm.pattern, scrutinee, owned);
    let c = viewwalk::view_expr(b, arm.body);
    following::lemma_expr(b, arm.body);
    keep_expr(o, b, arm.body);
    let f = c.pop_scope();
    if parts::in_expr(arm.body, n, true) {
        meet_expr(z, o, b, arm.body, n, d);
        following::lemma_arms(f, before, scrutinee, owned, arms, per.push(f.scopes), i + 1);
        keep_arms(o, f, before, scrutinee, owned, arms, per.push(f.scopes), i + 1);
        lemma_stays(f, viewwalk::view_arms(v, before, scrutinee, owned, arms, per, i).0, d);
    } else {
        meet_arms(z, o, f, before, scrutinee, owned, arms, per.push(f.scopes), i + 1, n, d);
    }
}

proof fn meet_if(z: ViewRulesV, o: Own, v: ViewRulesV, e: Expr, n: Node, d: RawDiagV)
    requires
        same_rules(z, v),
        owned_in(v.scopes, o),
        always_tells_of(z, o, n, d),
        e.kind is If,
        n != Node::Expr(e),
        parts::in_expr(e, n, true),
        !rebinds_expr(e, o.key),
    ensures
        viewwalk::view_expr(v, e).diags.contains(d),
    decreases e, 1nat,
{
    if let ExprKind::If { cond, then, else_branch } = e.kind {
        let a = viewwalk::view_expr(v, *cond);
        following::lemma_expr(v, *cond);
        keep_expr(o, v, *cond);
        let b = viewwalk::view_block(a, then);
        following::lemma_block(a, then);
        keep_block(o, a, then);
        let c = b.with_scopes(a.scopes);
        if let Some(x) = else_branch {
            following::lemma_expr(c, *x);
            keep_expr(o, c, *x);
        }
        if parts::in_expr(*cond, n, true) {
            meet_expr(z, o, v, *cond, n, d);
            lemma_stays(a, b, d);
            if let Some(x) = else_branch {
                lemma_stays(c, viewwalk::view_expr(c, *x), d);
            }
        } else if parts::in_block(then, n, true) {
            meet_block(z, o, a, then, n, d);
            if let Some(x) = else_branch {
                lemma_stays(c, viewwalk::view_expr(c, *x), d);
            }
        } else if let Some(x) = else_branch {
            meet_expr(z, o, c, *x, n, d);
        }
    }
}

proof fn meet_match(z: ViewRulesV, o: Own, v: ViewRulesV, e: Expr, n: Node, d: RawDiagV)
    requires
        same_rules(z, v),
        owned_in(v.scopes, o),
        always_tells_of(z, o, n, d),
        e.kind is Match,
        n != Node::Expr(e),
        parts::in_expr(e, n, true),
        !rebinds_expr(e, o.key),
    ensures
        viewwalk::view_expr(v, e).diags.contains(d),
    decreases e, 1nat,
{
    if let ExprKind::Match { scrutinee, arms } = e.kind {
        let a = viewwalk::view_expr(v, *scrutinee);
        following::lemma_expr(v, *scrutinee);
        keep_expr(o, v, *scrutinee);
        let owned = a.owned_scrutinee(*scrutinee);
        following::lemma_arms(a, a.scopes, *scrutinee, owned, arms@, Seq::empty(), 0);
        keep_arms(o, a, a.scopes, *scrutinee, owned, arms@, Seq::empty(), 0);
        if parts::in_expr(*scrutinee, n, true) {
            meet_expr(z, o, v, *scrutinee, n, d);
            lemma_stays(a, viewwalk::view_arms(a, a.scopes, *scrutinee, owned, arms@, Seq::empty(), 0).0, d);
        } else {
            meet_arms(z, o, a, a.scopes, *scrutinee, owned, arms@, Seq::empty(), 0, n, d);
        }
    }
}

proof fn meet_assign(z: ViewRulesV, o: Own, v: ViewRulesV, e: Expr, n: Node, d: RawDiagV)
    requires
        same_rules(z, v),
        owned_in(v.scopes, o),
        always_tells_of(z, o, n, d),
        e.kind is Assign,
        n != Node::Expr(e),
        parts::in_expr(e, n, true),
        !rebinds_expr(e, o.key),
    ensures
        viewwalk::view_expr(v, e).diags.contains(d),
    decreases e, 1nat,
{
    if let ExprKind::Assign { op, target, value } = e.kind {
        let a = viewwalk::view_expr(v, *value);
        following::lemma_expr(v, *value);
        keep_expr(o, v, *value);
        let b = viewwalk::view_expr(a, *target);
        following::lemma_expr(a, *target);
        keep_expr(o, a, *target);
        following::lemma_assign(b, *target, *value);
        if parts::in_expr(*value, n, true) {
            meet_expr(z, o, v, *value, n, d);
            lemma_stays(a, b, d);
        } else {
            meet_expr(z, o, a, *target, n, d);
        }
        if op == AssignOp::Assign {
            lemma_stays(b, b.check_assign(*target, *value), d);
        }
    }
}

proof fn meet_call(z: ViewRulesV, o: Own, v: ViewRulesV, e: Expr, n: Node, d: RawDiagV)
    requires
        same_rules(z, v),
        owned_in(v.scopes, o),
        always_tells_of(z, o, n, d),
        e.kind is Call,
        n != Node::Expr(e),
        parts::in_expr(e, n, true),
        !rebinds_expr(e, o.key),
    ensures
        viewwalk::view_expr(v, e).diags.contains(d),
    decreases e, 1nat,
{
    if let ExprKind::Call { callee, args, .. } = e.kind {
        let a = viewwalk::view_expr(v, *callee);
        following::lemma_expr(v, *callee);
        keep_expr(o, v, *callee);
        let builds = viewwalk::builds_enum(a.sigs, *callee);
        following::lemma_args(a, args@, builds, 0);
        keep_args(o, a, args@, builds, 0);
        if parts::in_expr(*callee, n, true) {
            meet_expr(z, o, v, *callee, n, d);
            lemma_stays(a, viewwalk::view_args(a, args@, builds, 0), d);
        } else {
            meet_args(z, o, a, args@, builds, 0, n, d);
        }
    }
}

/// Two expressions that are followed one after the other.
proof fn meet_either(v: ViewRulesV, a: Expr, b: Expr, n: Node, d: RawDiagV)
    requires
        parts::in_expr(a, n, true) ==> viewwalk::view_expr(v, a).diags.contains(d),
        parts::in_expr(b, n, true) ==> viewwalk::view_expr(viewwalk::view_expr(v, a), b).diags.contains(d),
        parts::in_expr(a, n, true) || parts::in_expr(b, n, true),
    ensures
        viewwalk::view_expr(viewwalk::view_expr(v, a), b).diags.contains(d),
{
    let w = viewwalk::view_expr(v, a);
    following::lemma_expr(w, b);
    if parts::in_expr(a, n, true) {
        lemma_stays(w, viewwalk::view_expr(w, b), d);
    }
}

proof fn meet_range(z: ViewRulesV, o: Own, v: ViewRulesV, e: Expr, n: Node, d: RawDiagV)
    requires
        same_rules(z, v),
        owned_in(v.scopes, o),
        always_tells_of(z, o, n, d),
        e.kind is Range,
        n != Node::Expr(e),
        parts::in_expr(e, n, true),
        !rebinds_expr(e, o.key),
    ensures
        viewwalk::view_expr(v, e).diags.contains(d),
    decreases e, 1nat,
{
    if let ExprKind::Range { start, end, .. } = e.kind {
        let a = match start {
            Some(x) => viewwalk::view_expr(v, *x),
            None => v,
        };
        let early = match start {
            Some(x) => parts::in_expr(*x, n, true),
            None => false,
        };
        if let Some(x) = start {
            following::lemma_expr(v, *x);
            keep_expr(o, v, *x);
        }
        if early {
            if let Some(x) = start {
                meet_expr(z, o, v, *x, n, d);
            }
            if let Some(x) = end {
                following::lemma_expr(a, *x);
                keep_expr(o, a, *x);
                lemma_stays(a, viewwalk::view_expr(a, *x), d);
            }
        } else if let Some(x) = end {
            meet_expr(z, o, a, *x, n, d);
        }
    }
}

proof fn meet_expr(z: ViewRulesV, o: Own, v: ViewRulesV, e: Expr, n: Node, d: RawDiagV)
    requires
        same_rules(z, v),
        owned_in(v.scopes, o),
        always_tells_of(z, o, n, d),
        parts::in_expr(e, n, true),
        !rebinds_expr(e, o.key),
    ensures
        viewwalk::view_expr(v, e).diags.contains(d),
    decreases e, 2nat,
{
    if n == Node::Expr(e) {
    } else {
        match e.kind {
            ExprKind::Block(b) => meet_block(z, o, v, b, n, d),
            ExprKind::If { .. } => meet_if(z, o, v, e, n, d),
            ExprKind::Match { .. } => meet_match(z, o, v, e, n, d),
            ExprKind::Assign { .. } => meet_assign(z, o, v, e, n, d),
            ExprKind::Call { .. } => meet_call(z, o, v, e, n, d),
            ExprKind::Binary { lhs, rhs, .. } => {
                following::lemma_expr(v, *lhs);
                keep_expr(o, v, *lhs);
                if parts::in_expr(*lhs, n, true) {
                    meet_expr(z, o, v, *lhs, n, d);
                }
                if parts::in_expr(*rhs, n, true) {
                    meet_expr(z, o, viewwalk::view_expr(v, *lhs), *rhs, n, d);
                }
                meet_either(v, *lhs, *rhs, n, d);
            },
            ExprKind::Unary { operand, .. } => meet_expr(z, o, v, *operand, n, d),
            ExprKind::Field { receiver, .. } => meet_expr(z, o, v, *receiver, n, d),
            ExprKind::Index { receiver, index } => {
                following::lemma_expr(v, *receiver);
                keep_expr(o, v, *receiver);
                if parts::in_expr(*receiver, n, true) {
                    meet_expr(z, o, v, *receiver, n, d);
                }
                if parts::in_expr(*index, n, true) {
                    meet_expr(z, o, viewwalk::view_expr(v, *receiver), *index, n, d);
                }
                meet_either(v, *receiver, *index, n, d);
            },
            ExprKind::Cast { expr, .. } => meet_expr(z, o, v, *expr, n, d),
            ExprKind::StructLit { fields, .. } => meet_fields(z, o, v, fields@, 0, n, d),
            ExprKind::InferredStructLit { fields } => meet_fields(z, o, v, fields@, 0, n, d),
            ExprKind::GenericStructLit { fields, .. } => meet_fields(z, o, v, fields@, 0, n, d),
            ExprKind::ArrayLit { elements } => meet_exprs(z, o, v, elements@, 0, n, d),
            ExprKind::TupleLit { elements } => meet_exprs(z, o, v, elements@, 0, n, d),
            ExprKind::GenericEnumCall { args, .. } => meet_exprs(z, o, v, args@, 0, n, d),
            ExprKind::ArrayFill { fill, .. } => meet_expr(z, o, v, *fill, n, d),
            ExprKind::CastChecked { expr, .. } => meet_expr(z, o, v, *expr, n, d),
            ExprKind::Await(inner) => meet_expr(z, o, v, *inner, n, d),
            ExprKind::Yield(inner) => meet_expr(z, o, v, *inner, n, d),
            ExprKind::Range { .. } => meet_range(z, o, v, e, n, d),
            ExprKind::InterpStr { parts } => meet_parts(z, o, v, parts@, 0, n, d),
            ExprKind::Intrinsic { args, .. } => meet_exprs(z, o, v, args@, 0, n, d),
            ExprKind::Asm { operands, .. } => meet_operands(z, o, v, operands@, 0, n, d),
            _ => {},
        }
    }
}

proof fn meet_stmts(z: ViewRulesV, o: Own, v: ViewRulesV, ss: Seq<Stmt>, i: nat, n: Node, d: RawDiagV)
    requires
        same_rules(z, v),
        owned_in(v.scopes, o),
        always_tells_of(z, o, n, d),
        parts::in_stmts(ss, n, true, i),
        !rebinds_stmts(ss, o.key, i),
    ensures
        viewwalk::view_stmts(v, ss, i).diags.contains(d),
    decreases ss, ss.len() - i,
{
    let w = viewwalk::view_stmt(v, ss[i as int]);
    following::lemma_stmt(v, ss[i as int]);
    keep_stmt(o, v, ss[i as int]);
    if parts::in_stmt(ss[i as int], n, true) {
        meet_stmt(z, o, v, ss[i as int], n, d);
        following::lemma_stmts(w, ss, i + 1);
        keep_stmts(o, w, ss, i + 1);
        lemma_stays(w, viewwalk::view_stmts(v, ss, i), d);
    } else {
        meet_stmts(z, o, w, ss, i + 1, n, d);
    }
}

proof fn meet_block(z: ViewRulesV, o: Own, v: ViewRulesV, b: Block, n: Node, d: RawDiagV)
    requires
        same_rules(z, v),
        owned_in(v.scopes, o),
        always_tells_of(z, o, n, d),
        parts::in_block(b, n, true),
        !rebinds_block(b, o.key),
    ensures
        viewwalk::view_block(v, b).diags.contains(d),
    decreases b, 0nat,
{
    if n == Node::Block(b) {
    } else {
        let a = v.push_scope();
        lemma_push(o, v);
        let c = viewwalk::view_stmts(a, b.stmts@, 0);
        following::lemma_stmts(a, b.stmts@, 0);
        keep_stmts(o, a, b.stmts@, 0);
        if parts::in_stmts(b.stmts@, n, true, 0) {
            meet_stmts(z, o, a, b.stmts@, 0, n, d);
            if let Some(t) = b.tail {
                following::lemma_expr(c, *t);
                keep_expr(o, c, *t);
                lemma_stays(c, viewwalk::view_expr(c, *t), d);
            }
        } else if let Some(t) = b.tail {
            meet_expr(z, o, c, *t, n, d);
        }
    }
}

proof fn meet_stmt(z: ViewRulesV, o: Own, v: ViewRulesV, s: Stmt, n: Node, d: RawDiagV)
    requires
        same_rules(z, v),
        owned_in(v.scopes, o),
        always_tells_of(z, o, n, d),
        parts::in_stmt(s, n, true),
        !rebinds_stmt(s, o.key),
    ensures
        viewwalk::view_stmt(v, s).diags.contains(d),
    decreases s, 0nat,
{
    if n == Node::Stmt(s) {
    } else {
        let u = v.update_taint(s);
        assert(settles(v, u));
        match s.kind {
            StmtKind::Let { name, ty, init, .. } => {
                if let Some(e) = init {
                    let w = viewwalk::view_expr(u, e);
                    following::lemma_expr(u, e);
                    keep_expr(o, u, e);
                    meet_expr(z, o, u, e, n, d);
                    following::lemma_let(w, name.name@, sigs::opt_type(ty), init);
                    lemma_stays(w, viewwalk::view_stmt(v, s), d);
                }
            },
            StmtKind::LetDestructure { struct_name, fields, init } => {
                let w = viewwalk::view_expr(u, init);
                following::lemma_expr(u, init);
                keep_expr(o, u, init);
                meet_expr(z, o, u, init, n, d);
                let x = w.check_destructured(struct_name.name@, init);
                following::lemma_leaves(w, LeafRule::Temporary, init, Some(infer::path_at(struct_name.name@, init.span)));
                following::lemma_bind_parts(x, struct_name.name@, fields@, 0);
                lemma_stays(w, x, d);
                lemma_stays(x, viewwalk::view_stmt(v, s), d);
            },
            StmtKind::Return(Some(e)) => {
                following::lemma_expr(u, e);
                keep_expr(o, u, e);
                meet_expr(z, o, u, e, n, d);
                following::lemma_return(viewwalk::view_expr(u, e), e);
                lemma_stays(viewwalk::view_expr(u, e), viewwalk::view_stmt(v, s), d);
            },
            StmtKind::While { cond, body } => {
                let w = viewwalk::view_expr(u, cond);
                following::lemma_expr(u, cond);
                keep_expr(o, u, cond);
                following::lemma_block(w, body);
                keep_block(o, w, body);
                if parts::in_expr(cond, n, true) {
                    meet_expr(z, o, u, cond, n, d);
                    lemma_stays(w, viewwalk::view_block(w, body), d);
                } else {
                    meet_block(z, o, w, body, n, d);
                }
            },
            StmtKind::For(fl) => {
                lemma_push(o, u);
                meet_for(z, o, u.push_scope(), fl, n, d);
            },
            StmtKind::Loop(b) => meet_block(z, o, u, b, n, d),
            StmtKind::Expr(e) => meet_expr(z, o, u, e, n, d),
            StmtKind::Defer(e) => meet_expr(z, o, u, e, n, d),
            StmtKind::Assert(e) => meet_expr(z, o, u, e, n, d),
            _ => {},
        }
    }
}

proof fn meet_for(z: ViewRulesV, o: Own, v: ViewRulesV, fl: ForLoop, n: Node, d: RawDiagV)
    requires
        same_rules(z, v),
        owned_in(v.scopes, o),
        always_tells_of(z, o, n, d),
        parts::in_for(fl, n, true),
        !rebinds_for(fl, o.key),
    ensures
        viewwalk::view_for(v, fl).diags.contains(d),
    decreases fl, 0nat,
{
    match fl {
        ForLoop::CStyle { init, cond, update, body } => {
            let a = match init {
                Some(s) => viewwalk::view_stmt(v, *s),
                None => v,
            };
            let b = match cond {
                Some(c) => viewwalk::view_expr(a, c),
                None => a,
            };
            let f = viewwalk::view_exprs(b, update@, 0);
            let in_init = match init {
                Some(s) => parts::in_stmt(*s, n, true),
                None => false,
            };
            let in_cond = match cond {
                Some(c) => parts::in_expr(c, n, true),
                None => false,
            };
            if let Some(s) = init {
                following::lemma_stmt(v, *s);
                keep_stmt(o, v, *s);
            }
            if let Some(c) = cond {
                following::lemma_expr(a, c);
                keep_expr(o, a, c);
            }
            following::lemma_exprs(b, update@, 0);
            keep_exprs(o, b, update@, 0);
            following::lemma_block(f, body);
            keep_block(o, f, body);
            if in_init {
                if let Some(s) = init {
                    meet_stmt(z, o, v, *s, n, d);
                }
                lemma_stays(a, b, d);
                lemma_stays(b, f, d);
                lemma_stays(f, viewwalk::view_block(f, body), d);
            } else if in_cond {
                if let Some(c) = cond {
                    meet_expr(z, o, a, c, n, d);
                }
                lemma_stays(b, f, d);
                lemma_stays(f, viewwalk::view_block(f, body), d);
            } else if parts::in_exprs(update@, n, true, 0) {
                meet_exprs(z, o, b, update@, 0, n, d);
                lemma_stays(f, viewwalk::view_block(f, body), d);
            } else {
                meet_block(z, o, f, body, n, d);
            }
        },
        ForLoop::Range { var, iter, body } => {
            let a = viewwalk::view_expr(v, iter);
            following::lemma_expr(v, iter);
            keep_expr(o, v, iter);
            let b = a.bind(var.name@, views::plain_local(None, false));
            lemma_bind(o, a, var.name@, views::plain_local(None, false));
            following::lemma_block(b, body);
            keep_block(o, b, body);
            if parts::in_expr(iter, n, true) {
                meet_expr(z, o, v, iter, n, d);
                lemma_stays(b, viewwalk::view_block(b, body), d);
            } else {
                meet_block(z, o, b, body, n, d);
            }
        },
    }
}

// ---------------------------------------------------------------------------
// Returned views of owners.

/// The expression names a place of the binding: the binding itself, or fields and elements of
/// it.
pub open spec fn is_place_of(e: Expr, name: Seq<char>) -> bool
    decreases e,
{
    match e.kind {
        ExprKind::Ident(n) => n@ == name,
        ExprKind::Field { receiver, .. } => is_place_of(*receiver, name),
        ExprKind::Index { receiver, .. } => is_place_of(*receiver, name),
        _ => false,
    }
}

proof fn lemma_roots(v: ViewRulesV, e: Expr, name: Seq<char>)
    requires
        is_place_of(e, name),
    ensures
        v.view_roots(Seq::empty(), e) == seq![(name, ())],
    decreases e,
{
    match e.kind {
        ExprKind::Ident(n) => {
            assert(views::put_name(Seq::empty(), n@) =~= seq![(name, ())]);
        },
        ExprKind::Field { receiver, .. } => lemma_roots(v, *receiver, name),
        ExprKind::Index { receiver, .. } => lemma_roots(v, *receiver, name),
        _ => {},
    }
}

/// The value is a view of the binding: a place of it, or a method of such a place that hands out
/// a view of its receiver.
pub open spec fn views_binding(v: ViewRulesV, e: Expr, name: Seq<char>) -> bool {
    ||| is_place_of(e, name)
    ||| match e.kind {
        ExprKind::Call { callee, .. } => match callee.kind {
            ExprKind::Field { receiver, name: method } => is_place_of(*receiver, name) && v.lends_view(*receiver, method.name@),
            _ => false,
        },
        _ => false,
    }
}

/// What is reported of a returned view of a binding that dies with the function.
pub open spec fn escape_report(v: ViewRulesV, name: Seq<char>, span: Span) -> RawDiagV {
    messages::returned_view(v.owner_desc(name), span)
}

proof fn lemma_return_tells(z: ViewRulesV, u: ViewRulesV, o: Own, s: Stmt, e: Expr, name: Seq<char>, ret: TypeV)
    requires
        same_rules(z, u),
        owned_in(u.scopes, o),
        o.key == views::canonical_name(name),
        o.local.owns,
        o.local.ty is Some,
        !z.oracle.assumed_copied(o.local.ty->Some_0),
        z.ret == Some(ret),
        infer::is_view(ret),
        s.kind == StmtKind::Return(Some(e)),
        !rebinds_expr(e, o.key),
        forall|x: ViewRulesV| same_rules(z, x) && owned_in(x.scopes, o) ==> #[trigger] views_binding(x, e, name),
    ensures
        viewwalk::view_stmt(u, s).diags.contains(escape_report(z, name, e.span)),
{
    let a = viewwalk::view_expr(u.update_taint(s), e);
    assert(settles(u, u.update_taint(s)));
    assert(u.update_taint(s).scopes == u.scopes);
    following::lemma_expr(u.update_taint(s), e);
    keep_expr(o, u.update_taint(s), e);
    let b = a.check_returned_aggregate(e);
    lemma_return(a, e);
    following::lemma_leaves(a, LeafRule::Escape, e, a.ret);
    assert(settles(a, b));
    let c = b.check_temp(e);
    assert(settles(b, c) && c.scopes == b.scopes);
    assert(views_binding(c, e, name));
    lemma_found(c.scopes, o, c.scopes.len());
    assert(c.local(name) == Some(o.local));
    assert(c.dies_at_return(name));
    assert(c.view_roots(Seq::empty(), e) == seq![(name, ())]) by {
        if is_place_of(e, name) {
            lemma_roots(c, e, name);
        } else if let ExprKind::Call { callee, .. } = e.kind {
            if let ExprKind::Field { receiver, .. } = callee.kind {
                lemma_roots(c, *receiver, name);
            }
        }
    }
    let one = seq![(name, ())];
    assert(c.owners(Seq::empty(), one, 0) == one) by {
        reveal_with_fuel(ViewRulesV::owners, 3);
        assert(views::put_name(Seq::empty(), name) =~= one);
    }
    assert(c.borrow_roots(e)[0].0 == name);
    assert(c.first_dying(c.borrow_roots(e), Set::empty(), 0) == Some(name));
    let d = escape_report(z, name, e.span);
    let f = b.check_return(e);
    assert(f.diags == c.diags.push(d));
    assert(f.diags[c.diags.len() as int] == d);
    let g = f.check_capture_return(e);
    following::lemma_report_captures(f, f.captures(e, false), e, 0);
    lemma_stays(f, g, d);
}

/// A function whose result is a view does not return, in silence, a view of a local that it owns
/// and that dies with it: wherever the local is declared, and however deep in loops, branches,
/// arms and blocks the return stands behind the declaration, the return is reported, as long as
/// the name is not bound or assigned anew in between.
pub proof fn views_of_locals_are_not_returned(
    v: ViewRulesV,
    body: Block,
    c: Block,
    i: nat,
    name: Ident,
    s: Stmt,
    e: Expr,
    ret: TypeV,
)
    requires
        parts::in_block(body, Node::Block(c), true),
        i < c.stmts@.len(),
        c.stmts@[i as int].kind matches StmtKind::Let { name: n, ty: Some(t), .. } && n == name && !v.oracle.assumed_copied(
            t@,
        ) && !v.viewing(t@),
        parts::in_stmts(c.stmts@, Node::Stmt(s), true, i + 1),
        !rebinds_stmts(c.stmts@, views::canonical_name(name.name@), i + 1),
        s.kind == StmtKind::Return(Some(e)),
        v.ret == Some(ret),
        infer::is_view(ret),
        is_place_of(e, name.name@) || forall|x: ViewRulesV|
            same_rules(v, x) && x.type_named(name.name@) == declared_type(c.stmts@[i as int]) ==> #[trigger] views_binding(
                x,
                e,
                name.name@,
            ),
    ensures
        viewwalk::view_block(v, body).diags.contains(escape_report(v, name.name@, e.span)),
        escape_report(v, name.name@, e.span).code == "E0513"@,
        escape_report(v, name.name@, e.span).primary == e.span,
{
    let d = escape_report(v, name.name@, e.span);
    assert forall|u: ViewRulesV| same_rules(v, u) implies (#[trigger] viewwalk::view_block(u, c)).diags.contains(d) by {
        lemma_block_tells(v, u, c, i, name, s, e, ret);
    }
    tracing::views_are_followed_wherever_they_stand(v, body, Node::Block(c), d);
}

/// The type that a `let` declares.
pub open spec fn declared_type(s: Stmt) -> Option<TypeV> {
    match s.kind {
        StmtKind::Let { ty, .. } => sigs::opt_type(ty),
        _ => None,
    }
}

proof fn lemma_rebinds_inside(ss: Seq<Stmt>, i: nat, s: Stmt, e: Expr, key: Seq<char>)
    requires
        parts::in_stmts(ss, Node::Stmt(s), true, i),
        !rebinds_stmts(ss, key, i),
        s.kind == StmtKind::Return(Some(e)),
    ensures
        !rebinds_expr(e, key),
{
    inside_stmts(ss, i, s, key);
}

proof fn lemma_block_tells(v: ViewRulesV, u: ViewRulesV, c: Block, i: nat, name: Ident, s: Stmt, e: Expr, ret: TypeV)
    requires
        same_rules(v, u),
        i < c.stmts@.len(),
        c.stmts@[i as int].kind matches StmtKind::Let { name: n, ty: Some(t), .. } && n == name && !v.oracle.assumed_copied(
            t@,
        ) && !v.viewing(t@),
        parts::in_stmts(c.stmts@, Node::Stmt(s), true, i + 1),
        !rebinds_stmts(c.stmts@, views::canonical_name(name.name@), i + 1),
        s.kind == StmtKind::Return(Some(e)),
        v.ret == Some(ret),
        infer::is_view(ret),
        is_place_of(e, name.name@) || forall|x: ViewRulesV|
            same_rules(v, x) && x.type_named(name.name@) == declared_type(c.stmts@[i as int]) ==> #[trigger] views_binding(
                x,
                e,
                name.name@,
            ),
    ensures
        viewwalk::view_block(u, c).diags.contains(escape_report(v, name.name@, e.span)),
{
    let d = escape_report(v, name.name@, e.span);
    let key = views::canonical_name(name.name@);
    let a = u.push_scope();
    let l = LocalV { ty: declared_type(c.stmts@[i as int]), owns: true, roots: Seq::empty() };
    let o = Own { key, depth: u.scopes.len() as int, local: l };
    lemma_rebinds_inside(c.stmts@, i + 1, s, e, key);
    assert forall|x: ViewRulesV| same_rules(v, x) && owned_in(x.scopes, o) implies #[trigger] views_binding(
        x,
        e,
        name.name@,
    ) by {
        lemma_found(x.scopes, o, x.scopes.len());
        assert(x.local(name.name@) == Some(l));
    }
    assert forall|x: ViewRulesV| same_rules(v, x) && owned_in(x.scopes, o) implies (#[trigger] viewwalk::view_stmt(
        x,
        s,
    )).diags.contains(d) by {
        lemma_return_tells(v, x, o, s, e, name.name@, ret);
    }
    assert forall|x: ViewRulesV| same_rules(v, x) && x.scopes.len() == a.scopes.len() implies (
    #[trigger] viewwalk::view_stmts(x, c.stmts@, i)).diags.contains(d) by {
        lemma_from_let(v, o, x, c.stmts@, i, name, s, d);
    }
    lemma_reach(v, a, c.stmts@, a.scopes.len(), 0, i, d);
    let w = viewwalk::view_stmts(a, c.stmts@, 0);
    following::lemma_stmts(a, c.stmts@, 0);
    if let Some(t) = c.tail {
        following::lemma_expr(w, *t);
        lemma_stays(w, viewwalk::view_expr(w, *t), d);
    }
}

/// From the declaration on to the return.
proof fn lemma_from_let(v: ViewRulesV, o: Own, a: ViewRulesV, ss: Seq<Stmt>, i: nat, name: Ident, s: Stmt, d: RawDiagV)
    requires
        same_rules(v, a),
        i < ss.len(),
        o.depth >= 0,
        a.scopes.len() == o.depth + 1,
        ss[i as int].kind matches StmtKind::Let { name: n, ty: Some(t), .. } && n == name && !v.viewing(t@) && o.local
            == (LocalV { ty: Some(t@), owns: true, roots: Seq::empty() }),
        o.key == views::canonical_name(name.name@),
        parts::in_stmts(ss, Node::Stmt(s), true, i + 1),
        !rebinds_stmts(ss, o.key, i + 1),
        always_tells_of(v, o, Node::Stmt(s), d),
    ensures
        viewwalk::view_stmts(a, ss, i).diags.contains(d),
{
    let w = viewwalk::view_stmt(a, ss[i as int]);
    following::lemma_stmt(a, ss[i as int]);
    lemma_declared(v, o, a, ss[i as int]);
    meet_stmts(v, o, w, ss, i + 1, Node::Stmt(s), d);
}

/// From the start of a block to one of its statements.
proof fn lemma_reach(v: ViewRulesV, a: ViewRulesV, ss: Seq<Stmt>, depth: nat, h: nat, i: nat, d: RawDiagV)
    requires
        same_rules(v, a),
        h <= i < ss.len(),
        a.scopes.len() == depth,
        forall|u: ViewRulesV|
            same_rules(v, u) && u.scopes.len() == depth ==> (#[trigger] viewwalk::view_stmts(u, ss, i)).diags.contains(d),
    ensures
        viewwalk::view_stmts(a, ss, h).diags.contains(d),
    decreases i - h,
{
    if h < i {
        following::lemma_stmt(a, ss[h as int]);
        lemma_reach(v, viewwalk::view_stmt(a, ss[h as int]), ss, depth, h + 1, i, d);
    }
}

proof fn lemma_declared(v: ViewRulesV, o: Own, a: ViewRulesV, s: Stmt)
    requires
        same_rules(v, a),
        a.scopes.len() == o.depth + 1,
        o.depth >= 0,
        s.kind matches StmtKind::Let { name: n, ty: Some(t), .. } && !v.viewing(t@) && o.local == (LocalV {
            ty: Some(t@),
            owns: true,
            roots: Seq::empty(),
        }) && o.key == views::canonical_name(n.name@),
    ensures
        owned_in(viewwalk::view_stmt(a, s).scopes, o),
{
    if let StmtKind::Let { name, ty: Some(t), init, .. } = s.kind {
        let u = a.update_taint(s);
        assert(settles(a, u));
        let w = match init {
            Some(e) => viewwalk::view_expr(u, e),
            None => u,
        };
        if let Some(e) = init {
            following::lemma_expr(u, e);
            lemma_bound_view(w, t@, e);
            following::lemma_bound_view(w, t@, e);
            let x = w.check_bound_view(t@, e);
            lemma_viewing(v, x, t@);
        }
    }
}

proof fn lemma_viewing(a: ViewRulesV, b: ViewRulesV, t: TypeV)
    requires
        same_rules(a, b),
    ensures
        a.viewing(t) == b.viewing(t),
{
    lemma_carries(a, b, t);
}

proof fn lemma_carries(a: ViewRulesV, b: ViewRulesV, t: TypeV)
    requires
        same_rules(a, b),
    ensures
        a.carries(t) == b.carries(t),
    decreases t, 0nat,
{
    if let TypeKindV::Tuple(ts) = t.kind {
        lemma_any_carries(a, b, ts, 0);
    }
}

proof fn lemma_any_carries(a: ViewRulesV, b: ViewRulesV, ts: Seq<TypeV>, i: nat)
    requires
        same_rules(a, b),
    ensures
        a.any_carries(ts, i) == b.any_carries(ts, i),
    decreases ts, ts.len() - i,
{
    if i < ts.len() {
        lemma_carries(a, b, ts[i as int]);
        lemma_any_carries(a, b, ts, i + 1);
    }
}

} // verus!
