//! What the walks over a body find: every part that stands in it, however deep.
use vstd::prelude::*;
use crate::addr;
use crate::analyzer;
use crate::captures;
use crate::conflicts;
use crate::escapes;
use crate::parts;
use crate::place;
use crate::walks;
use crate::ast::{AsmOperand, Block, Expr, ExprKind, FieldInit, ForLoop, Function, ImplBlock, InterpStrPart, Item, ItemKind, MatchArm, Method, Program, Span, Stmt, StmtKind, TypeV};
use crate::borrows::CxV;
use crate::conflicts::ArgClaimV;
use crate::parts::Node;
use crate::place::{PlaceOverlap, PlaceV};
use crate::sigs::{ClaimKind, SigTableV};

verus! {

// ---------------------------------------------------------------------------
// Names.

proof fn named_exprs(acc: Set<Seq<char>>, es: Seq<Expr>, i: nat, n: Node, m: Seq<char>)
    requires
        n matches Node::Expr(x) && x.kind matches ExprKind::Ident(c) && c@ == m,
    ensures
        acc.contains(m) || parts::in_exprs(es, n, true, i) ==> walks::names_exprs(acc, es, i).contains(m),
    decreases es, es.len() - i,
{
    if i < es.len() {
        named_expr(acc, es[i as int], n, m);
        named_exprs(walks::names_expr(acc, &es[i as int]), es, i + 1, n, m);
    }
}

proof fn named_fields(acc: Set<Seq<char>>, es: Seq<FieldInit>, i: nat, n: Node, m: Seq<char>)
    requires
        n matches Node::Expr(x) && x.kind matches ExprKind::Ident(c) && c@ == m,
    ensures
        acc.contains(m) || parts::in_fields(es, n, true, i) ==> walks::names_fields(acc, es, i).contains(m),
    decreases es, es.len() - i,
{
    if i < es.len() {
        named_expr(acc, es[i as int].value, n, m);
        named_fields(walks::names_expr(acc, &es[i as int].value), es, i + 1, n, m);
    }
}

proof fn named_arms(acc: Set<Seq<char>>, es: Seq<MatchArm>, i: nat, n: Node, m: Seq<char>)
    requires
        n matches Node::Expr(x) && x.kind matches ExprKind::Ident(c) && c@ == m,
    ensures
        acc.contains(m) || parts::in_arms(es, n, true, i) ==> walks::names_arms(acc, es, i).contains(m),
    decreases es, es.len() - i,
{
    if i < es.len() {
        named_expr(acc, es[i as int].body, n, m);
        named_arms(walks::names_expr(acc, &es[i as int].body), es, i + 1, n, m);
    }
}

proof fn named_operands(acc: Set<Seq<char>>, es: Seq<AsmOperand>, i: nat, n: Node, m: Seq<char>)
    requires
        n matches Node::Expr(x) && x.kind matches ExprKind::Ident(c) && c@ == m,
    ensures
        acc.contains(m) || parts::in_operands(es, n, true, i) ==> walks::names_operands(acc, es, i).contains(m),
    decreases es, es.len() - i,
{
    if i < es.len() {
        named_expr(acc, es[i as int].value, n, m);
        named_operands(walks::names_expr(acc, &es[i as int].value), es, i + 1, n, m);
    }
}

proof fn named_parts(acc: Set<Seq<char>>, es: Seq<InterpStrPart>, i: nat, n: Node, m: Seq<char>)
    requires
        n matches Node::Expr(x) && x.kind matches ExprKind::Ident(c) && c@ == m,
    ensures
        acc.contains(m) || parts::in_text_parts(es, n, true, i) ==> walks::names_parts(acc, es, i).contains(m),
    decreases es, es.len() - i,
{
    if i < es.len() {
        let a = match es[i as int] {
            InterpStrPart::Expr(x) => walks::names_expr(acc, &x),
            InterpStrPart::Text(_) => acc,
        };
        if let InterpStrPart::Expr(x) = es[i as int] {
            named_expr(acc, x, n, m);
        }
        named_parts(a, es, i + 1, n, m);
    }
}

proof fn named_stmts(acc: Set<Seq<char>>, es: Seq<Stmt>, i: nat, n: Node, m: Seq<char>)
    requires
        n matches Node::Expr(x) && x.kind matches ExprKind::Ident(c) && c@ == m,
    ensures
        acc.contains(m) || parts::in_stmts(es, n, true, i) ==> walks::names_stmts(acc, es, i).contains(m),
    decreases es, es.len() - i,
{
    if i < es.len() {
        named_stmt(acc, es[i as int], n, m);
        named_stmts(walks::names_stmt(acc, &es[i as int]), es, i + 1, n, m);
    }
}

proof fn named_expr(acc: Set<Seq<char>>, e: Expr, n: Node, m: Seq<char>)
    requires
        n matches Node::Expr(x) && x.kind matches ExprKind::Ident(c) && c@ == m,
    ensures
        acc.contains(m) || parts::in_expr(e, n, true) ==> walks::names_expr(acc, &e).contains(m),
    decreases e, 0nat,
{
    let a = acc;
    if n == Node::Expr(e) {
        assert(walks::names_expr(acc, &e).contains(m));
    }
    match e.kind {
        ExprKind::Await(x) => {
            named_expr(a, *x, n, m);
        },
        ExprKind::Yield(x) => {
            named_expr(a, *x, n, m);
        },
        ExprKind::Cast { expr: x, .. } => {
            named_expr(a, *x, n, m);
        },
        ExprKind::CastChecked { expr: x, .. } => {
            named_expr(a, *x, n, m);
        },
        ExprKind::Unary { operand: x, .. } => {
            named_expr(a, *x, n, m);
        },
        ExprKind::Field { receiver: x, .. } => {
            named_expr(a, *x, n, m);
        },
        ExprKind::ArrayFill { fill: x, .. } => {
            named_expr(a, *x, n, m);
        },
        ExprKind::Index { receiver, index } => {
            named_expr(a, *receiver, n, m);
            named_expr(walks::names_expr(a, &*receiver), *index, n, m);
        },
        ExprKind::Assign { target, value, .. } => {
            named_expr(a, *target, n, m);
            named_expr(walks::names_expr(a, &*target), *value, n, m);
        },
        ExprKind::Binary { lhs, rhs, .. } => {
            named_expr(a, *lhs, n, m);
            named_expr(walks::names_expr(a, &*lhs), *rhs, n, m);
        },
        ExprKind::Call { callee, args, .. } => {
            named_expr(a, *callee, n, m);
            named_exprs(walks::names_expr(a, &*callee), args@, 0, n, m);
        },
        ExprKind::StructLit { fields, .. } => {
            named_fields(a, fields@, 0, n, m);
        },
        ExprKind::InferredStructLit { fields } => {
            named_fields(a, fields@, 0, n, m);
        },
        ExprKind::GenericStructLit { fields, .. } => {
            named_fields(a, fields@, 0, n, m);
        },
        ExprKind::ArrayLit { elements: es } => {
            named_exprs(a, es@, 0, n, m);
        },
        ExprKind::TupleLit { elements: es } => {
            named_exprs(a, es@, 0, n, m);
        },
        ExprKind::GenericEnumCall { args: es, .. } => {
            named_exprs(a, es@, 0, n, m);
        },
        ExprKind::Intrinsic { args: es, .. } => {
            named_exprs(a, es@, 0, n, m);
        },
        ExprKind::InterpStr { parts: ps } => {
            named_parts(a, ps@, 0, n, m);
        },
        ExprKind::Asm { operands, .. } => {
            named_operands(a, operands@, 0, n, m);
        },
        ExprKind::Block(b) => {
            named_block(a, b, n, m);
        },
        ExprKind::Match { scrutinee, arms } => {
            named_expr(a, *scrutinee, n, m);
            named_arms(walks::names_expr(a, &*scrutinee), arms@, 0, n, m);
        },
        ExprKind::If { cond, then, else_branch } => {
            named_expr(a, *cond, n, m);
            let b = walks::names_expr(a, &*cond);
            named_block(b, then, n, m);
            if let Some(x) = else_branch {
                named_expr(walks::names_block(b, &then), *x, n, m);
            }
        },
        ExprKind::Range { start, end, .. } => {
            let b = match start {
                Some(x) => walks::names_expr(a, &*x),
                None => a,
            };
            if let Some(x) = start {
                named_expr(a, *x, n, m);
            }
            if let Some(x) = end {
                named_expr(b, *x, n, m);
            }
        },
        ExprKind::FnRef { callee, .. } => {
            named_expr(a, *callee, n, m);
        },
        ExprKind::BuilderBlock { body } => {
            named_block(a, body, n, m);
        },
        _ => {},
    }
}

proof fn named_stmt(acc: Set<Seq<char>>, s: Stmt, n: Node, m: Seq<char>)
    requires
        n matches Node::Expr(x) && x.kind matches ExprKind::Ident(c) && c@ == m,
    ensures
        acc.contains(m) || parts::in_stmt(s, n, true) ==> walks::names_stmt(acc, &s).contains(m),
    decreases s, 0nat,
{
    match s.kind {
        StmtKind::Let { init: v, .. } => {
            if let Some(x) = v {
                named_expr(acc, x, n, m);
            }
        },
        StmtKind::Return(v) => {
            if let Some(x) = v {
                named_expr(acc, x, n, m);
            }
        },
        StmtKind::LetDestructure { init: x, .. } => {
            named_expr(acc, x, n, m);
        },
        StmtKind::Expr(x) => {
            named_expr(acc, x, n, m);
        },
        StmtKind::Defer(x) => {
            named_expr(acc, x, n, m);
        },
        StmtKind::Assert(x) => {
            named_expr(acc, x, n, m);
        },
        StmtKind::While { cond, body } => {
            named_expr(acc, cond, n, m);
            named_block(walks::names_expr(acc, &cond), body, n, m);
        },
        StmtKind::Loop(b) => {
            named_block(acc, b, n, m);
        },
        StmtKind::For(fl) => {
            named_for(acc, fl, n, m);
        },
        StmtKind::GuardLet { value, otherwise, .. } => {
            named_expr(acc, value, n, m);
            named_block(walks::names_expr(acc, &value), otherwise, n, m);
        },
        StmtKind::WhileLet { value, body, .. } => {
            named_expr(acc, value, n, m);
            named_block(walks::names_expr(acc, &value), body, n, m);
        },
        StmtKind::IfLet { value, then, otherwise, .. } => {
            named_expr(acc, value, n, m);
            let a = walks::names_expr(acc, &value);
            named_block(a, then, n, m);
            if let Some(x) = otherwise {
                named_block(walks::names_block(a, &then), x, n, m);
            }
        },
        _ => {},
    }
}

proof fn named_for(acc: Set<Seq<char>>, fl: ForLoop, n: Node, m: Seq<char>)
    requires
        n matches Node::Expr(x) && x.kind matches ExprKind::Ident(c) && c@ == m,
    ensures
        acc.contains(m) || parts::in_for(fl, n, true) ==> walks::names_for(acc, &fl).contains(m),
    decreases fl, 0nat,
{
    match fl {
        ForLoop::CStyle { init, cond, update, body } => {
            let a = match init {
                Some(x) => walks::names_stmt(acc, &*x),
                None => acc,
            };
            if let Some(x) = init {
                named_stmt(acc, *x, n, m);
            }
            let b = match cond {
                Some(x) => walks::names_expr(a, &x),
                None => a,
            };
            if let Some(x) = cond {
                named_expr(a, x, n, m);
            }
            named_exprs(b, update@, 0, n, m);
            named_block(walks::names_exprs(b, update@, 0), body, n, m);
        },
        ForLoop::Range { iter, body, .. } => {
            named_expr(acc, iter, n, m);
            named_block(walks::names_expr(acc, &iter), body, n, m);
        },
    }
}

proof fn named_block(acc: Set<Seq<char>>, b: Block, n: Node, m: Seq<char>)
    requires
        n matches Node::Expr(x) && x.kind matches ExprKind::Ident(c) && c@ == m,
    ensures
        acc.contains(m) || parts::in_block(b, n, true) ==> walks::names_block(acc, &b).contains(m),
    decreases b, 0nat,
{
    named_stmts(acc, b.stmts@, 0, n, m);
    if let Some(x) = b.tail {
        named_expr(walks::names_stmts(acc, b.stmts@, 0), *x, n, m);
    }
}

/// A statement mentions each name that stands in it, however deep.
pub proof fn statements_mention_their_names(s: Stmt, x: Expr, name: Seq<char>)
    requires
        parts::in_stmt(s, Node::Expr(x), true),
        x.kind matches ExprKind::Ident(c) && c@ == name,
    ensures
        walks::names_stmt(Set::empty(), &s).contains(name),
{
    named_stmt(Set::empty(), s, Node::Expr(x), name);
}

// ---------------------------------------------------------------------------
// Expressions.

/// The list holds the expression.
pub open spec fn lists(es: Seq<&Expr>, x: Expr) -> bool {
    exists|k: int| 0 <= k < es.len() && *#[trigger] es[k] == x
}

proof fn listed_exprs(acc: Seq<&Expr>, es: Seq<Expr>, i: nat, n: Node, m: Expr)
    requires
        n == Node::Expr(m),
    ensures
        lists(acc, m) || parts::in_exprs(es, n, true, i) ==> lists(walks::subs_exprs(acc, es, i), m),
    decreases es, es.len() - i,
{
    if i < es.len() {
        listed_expr(acc, es[i as int], n, m);
        listed_exprs(walks::subs_expr(acc, &es[i as int]), es, i + 1, n, m);
    }
}

proof fn listed_fields(acc: Seq<&Expr>, es: Seq<FieldInit>, i: nat, n: Node, m: Expr)
    requires
        n == Node::Expr(m),
    ensures
        lists(acc, m) || parts::in_fields(es, n, true, i) ==> lists(walks::subs_fields(acc, es, i), m),
    decreases es, es.len() - i,
{
    if i < es.len() {
        listed_expr(acc, es[i as int].value, n, m);
        listed_fields(walks::subs_expr(acc, &es[i as int].value), es, i + 1, n, m);
    }
}

proof fn listed_arms(acc: Seq<&Expr>, es: Seq<MatchArm>, i: nat, n: Node, m: Expr)
    requires
        n == Node::Expr(m),
    ensures
        lists(acc, m) || parts::in_arms(es, n, true, i) ==> lists(walks::subs_arms(acc, es, i), m),
    decreases es, es.len() - i,
{
    if i < es.len() {
        listed_expr(acc, es[i as int].body, n, m);
        listed_arms(walks::subs_expr(acc, &es[i as int].body), es, i + 1, n, m);
    }
}

proof fn listed_operands(acc: Seq<&Expr>, es: Seq<AsmOperand>, i: nat, n: Node, m: Expr)
    requires
        n == Node::Expr(m),
    ensures
        lists(acc, m) || parts::in_operands(es, n, true, i) ==> lists(walks::subs_operands(acc, es, i), m),
    decreases es, es.len() - i,
{
    if i < es.len() {
        listed_expr(acc, es[i as int].value, n, m);
        listed_operands(walks::subs_expr(acc, &es[i as int].value), es, i + 1, n, m);
    }
}

proof fn listed_parts(acc: Seq<&Expr>, es: Seq<InterpStrPart>, i: nat, n: Node, m: Expr)
    requires
        n == Node::Expr(m),
    ensures
        lists(acc, m) || parts::in_text_parts(es, n, true, i) ==> lists(walks::subs_parts(acc, es, i), m),
    decreases es, es.len() - i,
{
    if i < es.len() {
        let a = match es[i as int] {
            InterpStrPart::Expr(x) => walks::subs_expr(acc, &x),
            InterpStrPart::Text(_) => acc,
        };
        if let InterpStrPart::Expr(x) = es[i as int] {
            listed_expr(acc, x, n, m);
        }
        listed_parts(a, es, i + 1, n, m);
    }
}

proof fn listed_stmts(acc: Seq<&Expr>, es: Seq<Stmt>, i: nat, n: Node, m: Expr)
    requires
        n == Node::Expr(m),
    ensures
        lists(acc, m) || parts::in_stmts(es, n, true, i) ==> lists(walks::subs_stmts(acc, es, i), m),
    decreases es, es.len() - i,
{
    if i < es.len() {
        listed_stmt(acc, es[i as int], n, m);
        listed_stmts(walks::subs_stmt(acc, &es[i as int]), es, i + 1, n, m);
    }
}

proof fn listed_expr(acc: Seq<&Expr>, e: Expr, n: Node, m: Expr)
    requires
        n == Node::Expr(m),
    ensures
        lists(acc, m) || parts::in_expr(e, n, true) ==> lists(walks::subs_expr(acc, &e), m),
    decreases e, 0nat,
{
    let a = acc.push(&e);
    assert(lists(acc, m) || n == Node::Expr(e) ==> lists(a, m)) by {
        if n == Node::Expr(e) {
            assert(*a[acc.len() as int] == m);
        } else if lists(acc, m) {
            let k = choose|k: int| 0 <= k < acc.len() && *#[trigger] acc[k] == m;
            assert(*a[k] == m);
        }
    }
    match e.kind {
        ExprKind::Await(x) => {
            listed_expr(a, *x, n, m);
        },
        ExprKind::Yield(x) => {
            listed_expr(a, *x, n, m);
        },
        ExprKind::Cast { expr: x, .. } => {
            listed_expr(a, *x, n, m);
        },
        ExprKind::CastChecked { expr: x, .. } => {
            listed_expr(a, *x, n, m);
        },
        ExprKind::Unary { operand: x, .. } => {
            listed_expr(a, *x, n, m);
        },
        ExprKind::Field { receiver: x, .. } => {
            listed_expr(a, *x, n, m);
        },
        ExprKind::ArrayFill { fill: x, .. } => {
            listed_expr(a, *x, n, m);
        },
        ExprKind::Index { receiver, index } => {
            listed_expr(a, *receiver, n, m);
            listed_expr(walks::subs_expr(a, &*receiver), *index, n, m);
        },
        ExprKind::Assign { target, value, .. } => {
            listed_expr(a, *target, n, m);
            listed_expr(walks::subs_expr(a, &*target), *value, n, m);
        },
        ExprKind::Binary { lhs, rhs, .. } => {
            listed_expr(a, *lhs, n, m);
            listed_expr(walks::subs_expr(a, &*lhs), *rhs, n, m);
        },
        ExprKind::Call { callee, args, .. } => {
            listed_expr(a, *callee, n, m);
            listed_exprs(walks::subs_expr(a, &*callee), args@, 0, n, m);
        },
        ExprKind::StructLit { fields, .. } => {
            listed_fields(a, fields@, 0, n, m);
        },
        ExprKind::InferredStructLit { fields } => {
            listed_fields(a, fields@, 0, n, m);
        },
        ExprKind::GenericStructLit { fields, .. } => {
            listed_fields(a, fields@, 0, n, m);
        },
        ExprKind::ArrayLit { elements: es } => {
            listed_exprs(a, es@, 0, n, m);
        },
        ExprKind::TupleLit { elements: es } => {
            listed_exprs(a, es@, 0, n, m);
        },
        ExprKind::GenericEnumCall { args: es, .. } => {
            listed_exprs(a, es@, 0, n, m);
        },
        ExprKind::Intrinsic { args: es, .. } => {
            listed_exprs(a, es@, 0, n, m);
        },
        ExprKind::InterpStr { parts: ps } => {
            listed_parts(a, ps@, 0, n, m);
        },
        ExprKind::Asm { operands, .. } => {
            listed_operands(a, operands@, 0, n, m);
        },
        ExprKind::Block(b) => {
            listed_block(a, b, n, m);
        },
        ExprKind::Match { scrutinee, arms } => {
            listed_expr(a, *scrutinee, n, m);
            listed_arms(walks::subs_expr(a, &*scrutinee), arms@, 0, n, m);
        },
        ExprKind::If { cond, then, else_branch } => {
            listed_expr(a, *cond, n, m);
            let b = walks::subs_expr(a, &*cond);
            listed_block(b, then, n, m);
            if let Some(x) = else_branch {
                listed_expr(walks::subs_block(b, &then), *x, n, m);
            }
        },
        ExprKind::Range { start, end, .. } => {
            let b = match start {
                Some(x) => walks::subs_expr(a, &*x),
                None => a,
            };
            if let Some(x) = start {
                listed_expr(a, *x, n, m);
            }
            if let Some(x) = end {
                listed_expr(b, *x, n, m);
            }
        },
        ExprKind::FnRef { callee, .. } => {
            listed_expr(a, *callee, n, m);
        },
        _ => {},
    }
}

proof fn listed_stmt(acc: Seq<&Expr>, s: Stmt, n: Node, m: Expr)
    requires
        n == Node::Expr(m),
    ensures
        lists(acc, m) || parts::in_stmt(s, n, true) ==> lists(walks::subs_stmt(acc, &s), m),
    decreases s, 0nat,
{
    match s.kind {
        StmtKind::Let { init: v, .. } => {
            if let Some(x) = v {
                listed_expr(acc, x, n, m);
            }
        },
        StmtKind::Return(v) => {
            if let Some(x) = v {
                listed_expr(acc, x, n, m);
            }
        },
        StmtKind::LetDestructure { init: x, .. } => {
            listed_expr(acc, x, n, m);
        },
        StmtKind::Expr(x) => {
            listed_expr(acc, x, n, m);
        },
        StmtKind::Defer(x) => {
            listed_expr(acc, x, n, m);
        },
        StmtKind::Assert(x) => {
            listed_expr(acc, x, n, m);
        },
        StmtKind::While { cond, body } => {
            listed_expr(acc, cond, n, m);
            listed_block(walks::subs_expr(acc, &cond), body, n, m);
        },
        StmtKind::Loop(b) => {
            listed_block(acc, b, n, m);
        },
        StmtKind::For(fl) => {
            listed_for(acc, fl, n, m);
        },
        _ => {},
    }
}

proof fn listed_for(acc: Seq<&Expr>, fl: ForLoop, n: Node, m: Expr)
    requires
        n == Node::Expr(m),
    ensures
        lists(acc, m) || parts::in_for(fl, n, true) ==> lists(walks::subs_for(acc, &fl), m),
    decreases fl, 0nat,
{
    match fl {
        ForLoop::CStyle { init, cond, update, body } => {
            let a = match init {
                Some(x) => walks::subs_stmt(acc, &*x),
                None => acc,
            };
            if let Some(x) = init {
                listed_stmt(acc, *x, n, m);
            }
            let b = match cond {
                Some(x) => walks::subs_expr(a, &x),
                None => a,
            };
            if let Some(x) = cond {
                listed_expr(a, x, n, m);
            }
            listed_exprs(b, update@, 0, n, m);
            listed_block(walks::subs_exprs(b, update@, 0), body, n, m);
        },
        ForLoop::Range { iter, body, .. } => {
            listed_expr(acc, iter, n, m);
            listed_block(walks::subs_expr(acc, &iter), body, n, m);
        },
    }
}

proof fn listed_block(acc: Seq<&Expr>, b: Block, n: Node, m: Expr)
    requires
        n == Node::Expr(m),
    ensures
        lists(acc, m) || parts::in_block(b, n, true) ==> lists(walks::subs_block(acc, &b), m),
    decreases b, 0nat,
{
    listed_stmts(acc, b.stmts@, 0, n, m);
    if let Some(x) = b.tail {
        listed_expr(walks::subs_stmts(acc, b.stmts@, 0), *x, n, m);
    }
}

/// The expressions of a body are all listed, however deep they stand.
pub proof fn bodies_list_their_expressions(b: Block, x: Expr)
    requires
        parts::in_block(b, Node::Expr(x), true),
    ensures
        lists(walks::subs_block(Seq::empty(), &b), x),
{
    listed_block(Seq::empty(), b, Node::Expr(x), x);
}

// ---------------------------------------------------------------------------
// Functions that are used as values.

/// Walking the part notes the name. A part that only names what is called, or a field of a
/// receiver, is no such part.
pub open spec fn always_takes(fns: Set<Seq<char>>, n: Node, m: Seq<char>) -> bool {
    match n {
        Node::Expr(x) => !(x.kind is Ident) && !(x.kind is Path) && !(x.kind is Field) && forall|acc: Set<Seq<char>>|
            (#[trigger] addr::taken_expr(acc, fns, &x)).contains(m),
        Node::Stmt(x) => forall|acc: Set<Seq<char>>| (#[trigger] addr::taken_stmt(acc, fns, &x)).contains(m),
        Node::Block(x) => forall|acc: Set<Seq<char>>| (#[trigger] addr::taken_block(acc, fns, &x)).contains(m),
    }
}

proof fn taken_exprs(acc: Set<Seq<char>>, fns: Set<Seq<char>>, es: Seq<Expr>, i: nat, n: Node, m: Seq<char>)
    requires
        always_takes(fns, n, m),
    ensures
        acc.contains(m) || parts::in_exprs(es, n, true, i) ==> addr::taken_exprs(acc, fns, es, i).contains(m),
    decreases es, es.len() - i,
{
    if i < es.len() {
        taken_expr(acc, fns, es[i as int], n, m);
        taken_exprs(addr::taken_expr(acc, fns, &es[i as int]), fns, es, i + 1, n, m);
    }
}

proof fn taken_fields(acc: Set<Seq<char>>, fns: Set<Seq<char>>, es: Seq<FieldInit>, i: nat, n: Node, m: Seq<char>)
    requires
        always_takes(fns, n, m),
    ensures
        acc.contains(m) || parts::in_fields(es, n, true, i) ==> addr::taken_fields(acc, fns, es, i).contains(m),
    decreases es, es.len() - i,
{
    if i < es.len() {
        taken_expr(acc, fns, es[i as int].value, n, m);
        taken_fields(addr::taken_expr(acc, fns, &es[i as int].value), fns, es, i + 1, n, m);
    }
}

proof fn taken_arms(acc: Set<Seq<char>>, fns: Set<Seq<char>>, es: Seq<MatchArm>, i: nat, n: Node, m: Seq<char>)
    requires
        always_takes(fns, n, m),
    ensures
        acc.contains(m) || parts::in_arms(es, n, true, i) ==> addr::taken_arms(acc, fns, es, i).contains(m),
    decreases es, es.len() - i,
{
    if i < es.len() {
        taken_expr(acc, fns, es[i as int].body, n, m);
        taken_arms(addr::taken_expr(acc, fns, &es[i as int].body), fns, es, i + 1, n, m);
    }
}

proof fn taken_operands(acc: Set<Seq<char>>, fns: Set<Seq<char>>, es: Seq<AsmOperand>, i: nat, n: Node, m: Seq<char>)
    requires
        always_takes(fns, n, m),
    ensures
        acc.contains(m) || parts::in_operands(es, n, true, i) ==> addr::taken_operands(acc, fns, es, i).contains(m),
    decreases es, es.len() - i,
{
    if i < es.len() {
        taken_expr(acc, fns, es[i as int].value, n, m);
        taken_operands(addr::taken_expr(acc, fns, &es[i as int].value), fns, es, i + 1, n, m);
    }
}

proof fn taken_parts(acc: Set<Seq<char>>, fns: Set<Seq<char>>, es: Seq<InterpStrPart>, i: nat, n: Node, m: Seq<char>)
    requires
        always_takes(fns, n, m),
    ensures
        acc.contains(m) || parts::in_text_parts(es, n, true, i) ==> addr::taken_parts(acc, fns, es, i).contains(m),
    decreases es, es.len() - i,
{
    if i < es.len() {
        let a = match es[i as int] {
            InterpStrPart::Expr(x) => addr::taken_expr(acc, fns, &x),
            InterpStrPart::Text(_) => acc,
        };
        if let InterpStrPart::Expr(x) = es[i as int] {
            taken_expr(acc, fns, x, n, m);
        }
        taken_parts(a, fns, es, i + 1, n, m);
    }
}

proof fn taken_stmts(acc: Set<Seq<char>>, fns: Set<Seq<char>>, es: Seq<Stmt>, i: nat, n: Node, m: Seq<char>)
    requires
        always_takes(fns, n, m),
    ensures
        acc.contains(m) || parts::in_stmts(es, n, true, i) ==> addr::taken_stmts(acc, fns, es, i).contains(m),
    decreases es, es.len() - i,
{
    if i < es.len() {
        taken_stmt(acc, fns, es[i as int], n, m);
        taken_stmts(addr::taken_stmt(acc, fns, &es[i as int]), fns, es, i + 1, n, m);
    }
}

proof fn taken_expr(acc: Set<Seq<char>>, fns: Set<Seq<char>>, e: Expr, n: Node, m: Seq<char>)
    requires
        always_takes(fns, n, m),
    ensures
        acc.contains(m) || parts::in_expr(e, n, true) ==> addr::taken_expr(acc, fns, &e).contains(m),
    decreases e, 0nat,
{
    let a = acc;
    if n == Node::Expr(e) {
        assert(addr::taken_expr(acc, fns, &e).contains(m));
    }
    match e.kind {
        ExprKind::Await(x) => {
            taken_expr(a, fns, *x, n, m);
        },
        ExprKind::Yield(x) => {
            taken_expr(a, fns, *x, n, m);
        },
        ExprKind::Cast { expr: x, .. } => {
            taken_expr(a, fns, *x, n, m);
        },
        ExprKind::CastChecked { expr: x, .. } => {
            taken_expr(a, fns, *x, n, m);
        },
        ExprKind::Unary { operand: x, .. } => {
            taken_expr(a, fns, *x, n, m);
        },
        ExprKind::Field { receiver: x, .. } => {
            taken_expr(a, fns, *x, n, m);
        },
        ExprKind::ArrayFill { fill: x, .. } => {
            taken_expr(a, fns, *x, n, m);
        },
        ExprKind::Index { receiver, index } => {
            taken_expr(a, fns, *receiver, n, m);
            taken_expr(addr::taken_expr(a, fns, &*receiver), fns, *index, n, m);
        },
        ExprKind::Assign { target, value, .. } => {
            taken_expr(a, fns, *target, n, m);
            taken_expr(addr::taken_expr(a, fns, &*target), fns, *value, n, m);
        },
        ExprKind::Binary { lhs, rhs, .. } => {
            taken_expr(a, fns, *lhs, n, m);
            taken_expr(addr::taken_expr(a, fns, &*lhs), fns, *rhs, n, m);
        },
        ExprKind::Call { callee, args, .. } => {
            let b = match callee.kind {
                ExprKind::Field { receiver, .. } => addr::taken_expr(a, fns, &*receiver),
                ExprKind::Ident(_) => a,
                ExprKind::Path { .. } => a,
                _ => addr::taken_expr(a, fns, &*callee),
            };
            match callee.kind {
                ExprKind::Field { receiver, .. } => {
                    assert(parts::in_expr(*callee, n, true) ==> parts::in_expr(*receiver, n, true));
                    taken_expr(a, fns, *receiver, n, m);
                },
                ExprKind::Ident(_) => {
                    assert(!parts::in_expr(*callee, n, true));
                },
                ExprKind::Path { .. } => {
                    assert(!parts::in_expr(*callee, n, true));
                },
                _ => {
                    taken_expr(a, fns, *callee, n, m);
                },
            }
            taken_exprs(b, fns, args@, 0, n, m);
        },
        ExprKind::StructLit { fields, .. } => {
            taken_fields(a, fns, fields@, 0, n, m);
        },
        ExprKind::InferredStructLit { fields } => {
            taken_fields(a, fns, fields@, 0, n, m);
        },
        ExprKind::GenericStructLit { fields, .. } => {
            taken_fields(a, fns, fields@, 0, n, m);
        },
        ExprKind::ArrayLit { elements: es } => {
            taken_exprs(a, fns, es@, 0, n, m);
        },
        ExprKind::TupleLit { elements: es } => {
            taken_exprs(a, fns, es@, 0, n, m);
        },
        ExprKind::GenericEnumCall { args: es, .. } => {
            taken_exprs(a, fns, es@, 0, n, m);
        },
        ExprKind::Intrinsic { args: es, .. } => {
            taken_exprs(a, fns, es@, 0, n, m);
        },
        ExprKind::InterpStr { parts: ps } => {
            taken_parts(a, fns, ps@, 0, n, m);
        },
        ExprKind::Asm { operands, .. } => {
            taken_operands(a, fns, operands@, 0, n, m);
        },
        ExprKind::Block(b) => {
            taken_block(a, fns, b, n, m);
        },
        ExprKind::Match { scrutinee, arms } => {
            taken_expr(a, fns, *scrutinee, n, m);
            taken_arms(addr::taken_expr(a, fns, &*scrutinee), fns, arms@, 0, n, m);
        },
        ExprKind::If { cond, then, else_branch } => {
            taken_expr(a, fns, *cond, n, m);
            let b = addr::taken_expr(a, fns, &*cond);
            taken_block(b, fns, then, n, m);
            if let Some(x) = else_branch {
                taken_expr(addr::taken_block(b, fns, &then), fns, *x, n, m);
            }
        },
        ExprKind::Range { start, end, .. } => {
            let b = match start {
                Some(x) => addr::taken_expr(a, fns, &*x),
                None => a,
            };
            if let Some(x) = start {
                taken_expr(a, fns, *x, n, m);
            }
            if let Some(x) = end {
                taken_expr(b, fns, *x, n, m);
            }
        },
        _ => {},
    }
}

proof fn taken_stmt(acc: Set<Seq<char>>, fns: Set<Seq<char>>, s: Stmt, n: Node, m: Seq<char>)
    requires
        always_takes(fns, n, m),
    ensures
        acc.contains(m) || parts::in_stmt(s, n, true) ==> addr::taken_stmt(acc, fns, &s).contains(m),
    decreases s, 0nat,
{
    if n == Node::Stmt(s) {
        assert(addr::taken_stmt(acc, fns, &s).contains(m));
    }
    match s.kind {
        StmtKind::Let { init: v, .. } => {
            if let Some(x) = v {
                taken_expr(acc, fns, x, n, m);
            }
        },
        StmtKind::Return(v) => {
            if let Some(x) = v {
                taken_expr(acc, fns, x, n, m);
            }
        },
        StmtKind::LetDestructure { init: x, .. } => {
            taken_expr(acc, fns, x, n, m);
        },
        StmtKind::Expr(x) => {
            taken_expr(acc, fns, x, n, m);
        },
        StmtKind::Defer(x) => {
            taken_expr(acc, fns, x, n, m);
        },
        StmtKind::Assert(x) => {
            taken_expr(acc, fns, x, n, m);
        },
        StmtKind::While { cond, body } => {
            taken_expr(acc, fns, cond, n, m);
            taken_block(addr::taken_expr(acc, fns, &cond), fns, body, n, m);
        },
        StmtKind::Loop(b) => {
            taken_block(acc, fns, b, n, m);
        },
        StmtKind::For(fl) => {
            taken_for(acc, fns, fl, n, m);
        },
        _ => {},
    }
}

proof fn taken_for(acc: Set<Seq<char>>, fns: Set<Seq<char>>, fl: ForLoop, n: Node, m: Seq<char>)
    requires
        always_takes(fns, n, m),
    ensures
        acc.contains(m) || parts::in_for(fl, n, true) ==> addr::taken_for(acc, fns, &fl).contains(m),
    decreases fl, 0nat,
{
    match fl {
        ForLoop::CStyle { init, cond, update, body } => {
            let a = match init {
                Some(x) => addr::taken_stmt(acc, fns, &*x),
                None => acc,
            };
            if let Some(x) = init {
                taken_stmt(acc, fns, *x, n, m);
            }
            let b = match cond {
                Some(x) => addr::taken_expr(a, fns, &x),
                None => a,
            };
            if let Some(x) = cond {
                taken_expr(a, fns, x, n, m);
            }
            taken_exprs(b, fns, update@, 0, n, m);
            taken_block(addr::taken_exprs(b, fns, update@, 0), fns, body, n, m);
        },
        ForLoop::Range { iter, body, .. } => {
            taken_expr(acc, fns, iter, n, m);
            taken_block(addr::taken_expr(acc, fns, &iter), fns, body, n, m);
        },
    }
}

proof fn taken_block(acc: Set<Seq<char>>, fns: Set<Seq<char>>, b: Block, n: Node, m: Seq<char>)
    requires
        always_takes(fns, n, m),
    ensures
        acc.contains(m) || parts::in_block(b, n, true) ==> addr::taken_block(acc, fns, &b).contains(m),
    decreases b, 0nat,
{
    if n == Node::Block(b) {
        assert(addr::taken_block(acc, fns, &b).contains(m));
    }
    taken_stmts(acc, fns, b.stmts@, 0, n, m);
    if let Some(x) = b.tail {
        taken_expr(addr::taken_stmts(acc, fns, b.stmts@, 0), fns, *x, n, m);
    }
}

proof fn lemma_taken_methods(acc: Set<Seq<char>>, fns: Set<Seq<char>>, ms: Seq<Method>, i: nat, j: int, n: Node, m: Seq<char>)
    requires
        always_takes(fns, n, m),
        acc.contains(m) || (i <= j < ms.len() && parts::in_block(ms[j].body, n, true)),
    ensures
        addr::taken_methods(acc, fns, ms, i).contains(m),
    decreases ms.len() - i,
{
    if i < ms.len() {
        taken_block(acc, fns, ms[i as int].body, n, m);
        lemma_taken_methods(addr::taken_block(acc, fns, &ms[i as int].body), fns, ms, i + 1, j, n, m);
    }
}

proof fn lemma_methods_stay(acc: Set<Seq<char>>, fns: Set<Seq<char>>, ms: Seq<Method>, i: nat, n: Node, m: Seq<char>)
    requires
        always_takes(fns, n, m),
        acc.contains(m),
    ensures
        addr::taken_methods(acc, fns, ms, i).contains(m),
{
    lemma_taken_methods(acc, fns, ms, i, 0, n, m);
}

/// The part stands in a body of the item.
pub open spec fn in_item(item: Item, n: Node) -> bool {
    match item.kind {
        ItemKind::Function(f) => parts::in_block(f.body, n, true),
        ItemKind::Impl(b) => exists|j: int| 0 <= j < b.methods@.len() && parts::in_block((#[trigger] b.methods@[j]).body, n, true),
        _ => false,
    }
}

proof fn lemma_taken_items(acc: Set<Seq<char>>, fns: Set<Seq<char>>, items: Seq<Item>, i: nat, k: int, n: Node, m: Seq<char>)
    requires
        always_takes(fns, n, m),
        acc.contains(m) || (i <= k < items.len() && in_item(items[k], n)),
    ensures
        addr::taken_items(acc, fns, items, i).contains(m),
    decreases items.len() - i,
{
    if i < items.len() {
        let item = items[i as int];
        match item.kind {
            ItemKind::Function(f) => {
                taken_block(acc, fns, f.body, n, m);
            },
            ItemKind::Impl(b) => {
                if acc.contains(m) {
                    lemma_methods_stay(acc, fns, b.methods@, 0, n, m);
                } else if i == k {
                    let j = choose|j: int| 0 <= j < b.methods@.len() && parts::in_block((#[trigger] b.methods@[j]).body, n, true);
                    lemma_taken_methods(acc, fns, b.methods@, 0, j, n, m);
                }
            },
            _ => {},
        }
        lemma_taken_items(addr::taken_item(acc, fns, item), fns, items, i + 1, k, n, m);
    }
}

/// A reference to a function takes its address, in whatever body and however deep it stands.
pub proof fn references_take_the_address(prog: Program, k: int, x: Expr, name: Seq<char>)
    requires
        0 <= k < prog.items@.len(),
        in_item(prog.items@[k], Node::Expr(x)),
        x.kind matches ExprKind::FnRef { callee, .. } && callee.kind matches ExprKind::Ident(c) && c@ == name,
    ensures
        addr::address_taken(prog).contains(name),
{
    let fns = addr::function_names(prog.items@);
    lemma_taken_items(Set::empty(), fns, prog.items@, 0, k, Node::Expr(x), name);
}

/// The call hands over a bare name, as one of its arguments.
pub open spec fn passes(x: Expr, i: int, name: Seq<char>) -> bool {
    x.kind matches ExprKind::Call { args, .. } && 0 <= i < args@.len() && (args@[i].kind matches ExprKind::Ident(c)
        && c@ == name)
}

proof fn lemma_args(acc: Set<Seq<char>>, fns: Set<Seq<char>>, es: Seq<Expr>, i: nat, j: int, name: Seq<char>)
    requires
        fns.contains(name),
        acc.contains(name) || (i <= j < es.len() && (es[j].kind matches ExprKind::Ident(c) && c@ == name)),
    ensures
        addr::taken_exprs(acc, fns, es, i).contains(name),
    decreases es.len() - i,
{
    if i < es.len() {
        if acc.contains(name) {
            addr_stays(acc, fns, es[i as int], name);
        }
        lemma_args(addr::taken_expr(acc, fns, &es[i as int]), fns, es, i + 1, j, name);
    }
}

/// What was noted stays noted.
proof fn addr_stays(acc: Set<Seq<char>>, fns: Set<Seq<char>>, e: Expr, name: Seq<char>)
    requires
        acc.contains(name),
    ensures
        addr::taken_expr(acc, fns, &e).contains(name),
{
    addr::lemma_used_expr(acc, fns, &e, name);
}

/// A function that is handed to a call has its address taken, in whatever body and however deep
/// the call stands.
pub proof fn passing_a_function_takes_its_address(prog: Program, k: int, x: Expr, i: int, h: int, f: Function)
    requires
        0 <= k < prog.items@.len(),
        in_item(prog.items@[k], Node::Expr(x)),
        0 <= h < prog.items@.len(),
        prog.items@[h].kind == ItemKind::Function(f),
        passes(x, i, f.name.name@),
    ensures
        addr::address_taken(prog).contains(f.name.name@),
{
    let fns = addr::function_names(prog.items@);
    let name = f.name.name@;
    assert(addr::is_function(prog.items@[h], name));
    assert(fns.contains(name));
    assert forall|acc: Set<Seq<char>>| (#[trigger] addr::taken_expr(acc, fns, &x)).contains(name) by {
        if let ExprKind::Call { callee, args, .. } = x.kind {
            let b = match callee.kind {
                ExprKind::Field { receiver, .. } => addr::taken_expr(acc, fns, &*receiver),
                ExprKind::Ident(_) => acc,
                ExprKind::Path { .. } => acc,
                _ => addr::taken_expr(acc, fns, &*callee),
            };
            lemma_args(b, fns, args@, 0, i, name);
        }
    }
    lemma_taken_items(Set::empty(), fns, prog.items@, 0, k, Node::Expr(x), name);
}

/// A `let` that binds a function to a name takes its address, wherever it stands.
pub proof fn binding_a_function_takes_its_address(prog: Program, k: int, s: Stmt, h: int, f: Function)
    requires
        0 <= k < prog.items@.len(),
        in_item(prog.items@[k], Node::Stmt(s)),
        0 <= h < prog.items@.len(),
        prog.items@[h].kind == ItemKind::Function(f),
        s.kind matches StmtKind::Let { init: Some(e), .. } && e.kind matches ExprKind::Ident(c) && c@ == f.name.name@,
    ensures
        addr::address_taken(prog).contains(f.name.name@),
{
    let fns = addr::function_names(prog.items@);
    assert(addr::is_function(prog.items@[h], f.name.name@));
    lemma_taken_items(Set::empty(), fns, prog.items@, 0, k, Node::Stmt(s), f.name.name@);
}

// ---------------------------------------------------------------------------
// Methods that capture their receiver.

/// The call hands over a method bound to the receiver, as one of its arguments.
pub open spec fn passes_bound(sigs: SigTableV, target: Seq<char>, x: Expr, i: int) -> bool {
    x.kind matches ExprKind::Call { args, .. } && 0 <= i < args@.len() && (args@[i].kind matches ExprKind::Field { receiver, name }
        && (receiver.kind matches ExprKind::Ident(c) && (c@ == "this"@ || c@ == "self"@)) && escapes::bound_method(
        sigs,
        target,
        name.name@,
    ))
}

/// The call is one of the receiver's own methods.
pub open spec fn calls_own(x: Expr, m: Seq<char>) -> bool {
    x.kind matches ExprKind::Call { callee, .. } && (callee.kind matches ExprKind::Field { receiver, name } && (
    receiver.kind matches ExprKind::Ident(c) && (c@ == "this"@ || c@ == "self"@)) && name.name@ == m)
}

/// A method with a result captures its receiver where its body, however deep, hands a method
/// bound to the receiver to a call, or calls a method of the receiver that captures it.
pub proof fn bound_methods_are_captured(
    prog: Program,
    sigs: SigTableV,
    known: Set<(Seq<char>, Seq<char>)>,
    k: int,
    b: ImplBlock,
    j: int,
    x: Expr,
)
    requires
        captures::is_capturing(prog, sigs, known),
        0 <= k < prog.items@.len(),
        prog.items@[k].kind == ItemKind::Impl(b),
        0 <= j < b.methods@.len(),
        b.methods@[j].return_type is Some,
        sigs.struct_fields.dom().contains(b.target.name@),
        parts::in_block(b.methods@[j].body, Node::Expr(x), true),
        (exists|i: int| passes_bound(sigs, b.target.name@, x, i)) || exists|m: Seq<char>|
            #[trigger] calls_own(x, m) && known.contains((b.target.name@, m)),
    ensures
        known.contains((b.target.name@, b.methods@[j].name.name@)),
{
    let t = b.target.name@;
    let xs = walks::subs_block(Seq::empty(), &b.methods@[j].body);
    bodies_list_their_expressions(b.methods@[j].body, x);
    let q = choose|q: int| 0 <= q < xs.len() && *#[trigger] xs[q] == x;
    assert(captures::call_binds(sigs, t, known, xs[q])) by {
        if exists|i: int| passes_bound(sigs, t, x, i) {
            let i = choose|i: int| passes_bound(sigs, t, x, i);
            if let ExprKind::Call { args, .. } = x.kind {
                assert(captures::arg_binds(sigs, t, args@[i]));
            }
        }
    }
    assert(captures::body_binds(sigs, t, known, b.methods@[j].body));
    assert(captures::item_captures(sigs, known, prog.items@[k]));
    if let ItemKind::Impl(c) = prog.items@[k].kind {
        assert(captures::capture_rule(sigs, known, c, j));
    }
}

// ---------------------------------------------------------------------------
// When borrowers are last used.

proof fn lemma_last(ss: Seq<Stmt>, name: Seq<char>, i: nat, j: nat)
    ensures
        analyzer::last_mention(ss, name, i, j) >= i,
        forall|m: int|
            0 <= m <= j && m < ss.len() && walks::names_stmt(Set::empty(), &#[trigger] ss[m]).contains(name) ==> m
                <= analyzer::last_mention(ss, name, i, j),
    decreases j,
{
    if j > i && !(j < ss.len() && walks::names_stmt(Set::empty(), &ss[j as int]).contains(name)) {
        lemma_last(ss, name, i, (j - 1) as nat);
    }
}

/// No binding of the list gives its borrows back before a statement that mentions it, nor is it
/// one that is kept.
spec fn lasts(uses: Seq<(Seq<char>, nat)>, pins: Set<Seq<char>>, ss: Seq<Stmt>) -> bool {
    forall|k: int| 0 <= k < uses.len() ==> !pins.contains((#[trigger] uses[k]).0) && lasts_long(uses[k], ss)
}

spec fn lasts_long(u: (Seq<char>, nat), ss: Seq<Stmt>) -> bool {
    forall|m: int| 0 <= m < ss.len() && walks::names_stmt(Set::empty(), &#[trigger] ss[m]).contains(u.0) ==> m <= u.1
}

proof fn lemma_add_uses(acc: Seq<(Seq<char>, nat)>, names: Seq<Seq<char>>, pins: Set<Seq<char>>, ss: Seq<Stmt>, i: nat, k: nat)
    requires
        lasts(acc, pins, ss),
        i < ss.len(),
    ensures
        lasts(analyzer::add_uses(acc, names, pins, ss, i, k), pins, ss),
    decreases names.len() - k,
{
    if k < names.len() {
        let n = names[k as int];
        let u = (n, analyzer::last_mention(ss, n, i, (ss.len() - 1) as nat));
        lemma_last(ss, n, i, (ss.len() - 1) as nat);
        assert(lasts_long(u, ss));
        let next = if pins.contains(n) {
            acc
        } else {
            acc.push(u)
        };
        assert(lasts(next, pins, ss));
        lemma_add_uses(next, names, pins, ss, i, k + 1);
    }
}

proof fn lemma_last_uses(cx: CxV, env: Map<Seq<char>, TypeV>, acc: Seq<(Seq<char>, nat)>, pins: Set<Seq<char>>, ss: Seq<Stmt>, i: nat)
    requires
        lasts(acc, pins, ss),
    ensures
        lasts(analyzer::last_uses_from(cx, env, acc, pins, ss, i), pins, ss),
    decreases ss.len() - i,
{
    if i < ss.len() {
        let names = analyzer::early_names(cx, env, ss[i as int]);
        lemma_add_uses(acc, names, pins, ss, i, 0);
        lemma_last_uses(cx, env, analyzer::add_uses(acc, names, pins, ss, i, 0), pins, ss, i + 1);
    }
}

/// A borrower keeps its borrows as long as a later statement of its block mentions it, however
/// deep: none is let go after an earlier statement.
pub proof fn borrowers_last_to_their_last_mention(
    cx: CxV,
    env: Map<Seq<char>, TypeV>,
    b: Block,
    k: int,
    j: int,
    x: Expr,
    name: Seq<char>,
)
    requires
        0 <= k < analyzer::last_uses(cx, env, b).len(),
        analyzer::last_uses(cx, env, b)[k].0 == name,
        0 <= j < b.stmts@.len(),
        parts::in_stmt(b.stmts@[j], Node::Expr(x), true),
        x.kind matches ExprKind::Ident(c) && c@ == name,
    ensures
        j <= analyzer::last_uses(cx, env, b)[k].1,
{
    lemma_last_uses(cx, env, Seq::empty(), analyzer::pinned(b), b.stmts@, 0);
    statements_mention_their_names(b.stmts@[j], x, name);
    assert(lasts_long(analyzer::last_uses(cx, env, b)[k], b.stmts@));
}

proof fn lemma_pinned(acc: Set<Seq<char>>, ss: Seq<Stmt>, i: nat, j: int, name: Seq<char>)
    requires
        acc.contains(name) || (i <= j < ss.len() && ss[j].kind is Defer && walks::names_stmt(Set::empty(), &ss[j]).contains(name)),
    ensures
        analyzer::pinned_from(acc, ss, i).contains(name),
    decreases ss.len() - i,
{
    if i < ss.len() {
        lemma_pinned(
            match ss[i as int].kind {
                StmtKind::Defer(_) => acc.union(walks::names_stmt(Set::empty(), &ss[i as int])),
                _ => acc,
            },
            ss,
            i + 1,
            j,
            name,
        );
    }
}

/// A borrower that the value of its block, or a `defer`, mentions keeps its borrows to the end of
/// the block.
pub proof fn borrowers_in_the_tail_last(cx: CxV, env: Map<Seq<char>, TypeV>, b: Block, x: Expr, j: int, name: Seq<char>, k: int)
    requires
        x.kind matches ExprKind::Ident(c) && c@ == name,
        (b.tail matches Some(t) && parts::in_expr(*t, Node::Expr(x), true)) || (0 <= j < b.stmts@.len() && b.stmts@[j].kind is Defer
            && parts::in_stmt(b.stmts@[j], Node::Expr(x), true)),
        0 <= k < analyzer::last_uses(cx, env, b).len(),
    ensures
        analyzer::last_uses(cx, env, b)[k].0 != name,
{
    lemma_last_uses(cx, env, Seq::empty(), analyzer::pinned(b), b.stmts@, 0);
    let start = match b.tail {
        Some(t) => walks::names_expr(Set::empty(), &*t),
        None => Set::empty(),
    };
    if let Some(t) = b.tail {
        named_expr(Set::empty(), *t, Node::Expr(x), name);
    }
    if !start.contains(name) {
        statements_mention_their_names(b.stmts@[j], x, name);
    }
    lemma_pinned(start, b.stmts@, 0, j, name);
    assert(analyzer::pinned(b).contains(name));
}

// ---------------------------------------------------------------------------
// Reads beside a claim.

/// An expression all of whose parts are evaluated with it.
pub open spec fn is_transparent(x: Expr) -> bool {
    x.kind is Call || x.kind is Binary || x.kind is Unary || x.kind is Cast || x.kind is Field || x.kind is Index || x.kind is StructLit
        || x.kind is InferredStructLit || x.kind is GenericStructLit || x.kind is ArrayLit || x.kind is GenericEnumCall || x.kind is Range
}

/// The expression is a place that overlaps the other.
pub open spec fn touches(p: PlaceV, x: Expr) -> bool {
    place::place_of(x) matches Some(q) && place::overlap_of(p, q) != PlaceOverlap::Disjoint
}

proof fn keep_exprs(acc: Option<(PlaceOverlap, Span)>, p: PlaceV, es: Seq<Expr>, i: nat)
    ensures
        acc is Some ==> walks::overlapping_exprs(acc, p, es, i) is Some,
    decreases es, es.len() - i,
{
    if i < es.len() {
        keep_expr(acc, p, es[i as int]);
        keep_exprs(walks::overlapping_expr(acc, p, &es[i as int]), p, es, i + 1);
    }
}

proof fn keep_fields(acc: Option<(PlaceOverlap, Span)>, p: PlaceV, es: Seq<FieldInit>, i: nat)
    ensures
        acc is Some ==> walks::overlapping_fields(acc, p, es, i) is Some,
    decreases es, es.len() - i,
{
    if i < es.len() {
        keep_expr(acc, p, es[i as int].value);
        keep_fields(walks::overlapping_expr(acc, p, &es[i as int].value), p, es, i + 1);
    }
}

proof fn keep_expr(acc: Option<(PlaceOverlap, Span)>, p: PlaceV, e: Expr)
    ensures
        acc is Some ==> walks::overlapping_expr(acc, p, &e) is Some,
    decreases e, 0nat,
{
    let a = walks::first_overlap(acc, p, e);
    match e.kind {
        ExprKind::Call { callee, args, .. } => {
            keep_expr(a, p, *callee);
            keep_exprs(walks::overlapping_expr(a, p, &*callee), p, args@, 0);
        },
        ExprKind::Binary { lhs, rhs, .. } => {
            keep_expr(a, p, *lhs);
            keep_expr(walks::overlapping_expr(a, p, &*lhs), p, *rhs);
        },
        ExprKind::Unary { operand, .. } => {
            keep_expr(a, p, *operand);
        },
        ExprKind::Cast { expr, .. } => {
            keep_expr(a, p, *expr);
        },
        ExprKind::Field { receiver, .. } => {
            keep_expr(a, p, *receiver);
        },
        ExprKind::Index { receiver, index } => {
            keep_expr(a, p, *receiver);
            keep_expr(walks::overlapping_expr(a, p, &*receiver), p, *index);
        },
        ExprKind::StructLit { fields, .. } => {
            keep_fields(a, p, fields@, 0);
        },
        ExprKind::InferredStructLit { fields } => {
            keep_fields(a, p, fields@, 0);
        },
        ExprKind::GenericStructLit { fields, .. } => {
            keep_fields(a, p, fields@, 0);
        },
        ExprKind::ArrayLit { elements } => {
            keep_exprs(a, p, elements@, 0);
        },
        ExprKind::GenericEnumCall { args, .. } => {
            keep_exprs(a, p, args@, 0);
        },
        ExprKind::If { cond, .. } => {
            keep_expr(a, p, *cond);
        },
        ExprKind::Match { scrutinee, .. } => {
            keep_expr(a, p, *scrutinee);
        },
        ExprKind::Range { start, end, .. } => {
            let b = match start {
                Some(y) => walks::overlapping_expr(a, p, &*y),
                None => a,
            };
            if let Some(y) = start {
                keep_expr(a, p, *y);
            }
            if let Some(y) = end {
                keep_expr(b, p, *y);
            }
        },
        _ => {},
    }
}

proof fn met_exprs(acc: Option<(PlaceOverlap, Span)>, p: PlaceV, es: Seq<Expr>, i: nat, x: Expr)
    requires
        touches(p, x),
        forall|y: Expr| parts::in_exprs(es, Node::Expr(y), true, i) && parts::in_expr(y, Node::Expr(x), true) && y != x
            ==> #[trigger] is_transparent(y),
    ensures
        acc is Some || parts::in_exprs(es, Node::Expr(x), true, i) ==> walks::overlapping_exprs(acc, p, es, i) is Some,
    decreases es, es.len() - i,
{
    if i < es.len() {
        met_expr(acc, p, es[i as int], x);
        met_exprs(walks::overlapping_expr(acc, p, &es[i as int]), p, es, i + 1, x);
    }
}

proof fn met_fields(acc: Option<(PlaceOverlap, Span)>, p: PlaceV, es: Seq<FieldInit>, i: nat, x: Expr)
    requires
        touches(p, x),
        forall|y: Expr| parts::in_fields(es, Node::Expr(y), true, i) && parts::in_expr(y, Node::Expr(x), true) && y != x
            ==> #[trigger] is_transparent(y),
    ensures
        acc is Some || parts::in_fields(es, Node::Expr(x), true, i) ==> walks::overlapping_fields(acc, p, es, i) is Some,
    decreases es, es.len() - i,
{
    if i < es.len() {
        met_expr(acc, p, es[i as int].value, x);
        met_fields(walks::overlapping_expr(acc, p, &es[i as int].value), p, es, i + 1, x);
    }
}

proof fn met_expr(acc: Option<(PlaceOverlap, Span)>, p: PlaceV, e: Expr, x: Expr)
    requires
        touches(p, x),
        forall|y: Expr| parts::in_expr(e, Node::Expr(y), true) && parts::in_expr(y, Node::Expr(x), true) && y != x
            ==> #[trigger] is_transparent(y),
    ensures
        acc is Some || parts::in_expr(e, Node::Expr(x), true) ==> walks::overlapping_expr(acc, p, &e) is Some,
    decreases e, 0nat,
{
    let a = walks::first_overlap(acc, p, e);
    assert(parts::in_expr(e, Node::Expr(e), true));
    assert(parts::in_expr(e, Node::Expr(x), true) && e != x ==> is_transparent(e));
    assert(e == x ==> a is Some);
    match e.kind {
        ExprKind::Call { callee, args, .. } => {
            met_expr(a, p, *callee, x);
            met_exprs(walks::overlapping_expr(a, p, &*callee), p, args@, 0, x);
        },
        ExprKind::Binary { lhs, rhs, .. } => {
            met_expr(a, p, *lhs, x);
            met_expr(walks::overlapping_expr(a, p, &*lhs), p, *rhs, x);
        },
        ExprKind::Unary { operand, .. } => {
            met_expr(a, p, *operand, x);
        },
        ExprKind::Cast { expr, .. } => {
            met_expr(a, p, *expr, x);
        },
        ExprKind::Field { receiver, .. } => {
            met_expr(a, p, *receiver, x);
        },
        ExprKind::Index { receiver, index } => {
            met_expr(a, p, *receiver, x);
            met_expr(walks::overlapping_expr(a, p, &*receiver), p, *index, x);
        },
        ExprKind::StructLit { fields, .. } => {
            met_fields(a, p, fields@, 0, x);
        },
        ExprKind::InferredStructLit { fields } => {
            met_fields(a, p, fields@, 0, x);
        },
        ExprKind::GenericStructLit { fields, .. } => {
            met_fields(a, p, fields@, 0, x);
        },
        ExprKind::ArrayLit { elements } => {
            met_exprs(a, p, elements@, 0, x);
        },
        ExprKind::GenericEnumCall { args, .. } => {
            met_exprs(a, p, args@, 0, x);
        },
        ExprKind::If { cond, .. } => {
            keep_expr(a, p, *cond);
        },
        ExprKind::Match { scrutinee, .. } => {
            keep_expr(a, p, *scrutinee);
        },
        ExprKind::Range { start, end, .. } => {
            let b = match start {
                Some(y) => walks::overlapping_expr(a, p, &*y),
                None => a,
            };
            if let Some(y) = start {
                met_expr(a, p, *y, x);
            }
            if let Some(y) = end {
                met_expr(b, p, *y, x);
            }
        },
        _ => {},
    }
}

/// An argument that reads, at any depth, a place that overlaps what another argument of the call
/// takes over or borrows for itself is reported.
pub proof fn reads_beside_a_claim_are_reported(cx: CxV, env: Map<Seq<char>, TypeV>, a: ArgClaimV, other: Expr, x: Expr)
    requires
        a.kind != ClaimKind::Shared,
        !conflicts::names_method(cx, env, other),
        parts::in_expr(other, Node::Expr(x), true),
        touches(a.place, x),
        forall|y: Expr| parts::in_expr(other, Node::Expr(y), true) && parts::in_expr(y, Node::Expr(x), true) && y != x
            ==> #[trigger] is_transparent(y),
    ensures
        conflicts::sibling_conflict(cx, env, a, other) is Some,
{
    met_expr(None, a.place, other, x);
}

} // verus!
