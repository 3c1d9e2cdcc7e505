//! Walks over expressions and bodies.
use vstd::prelude::*;
use crate::place;
use crate::ast::{AsmOperand, Block, Expr, ExprKind, FieldInit, ForLoop, InterpStrPart, MatchArm, Span, Stmt, StmtKind};
use crate::place::{Place, PlaceOverlap, PlaceV, place_from_expr};
use crate::table::NameSet;

verus! {

/// Adds every name that an expression mentions.
pub open spec fn names_expr(acc: Set<Seq<char>>, e: &Expr) -> Set<Seq<char>>
    decreases e, 0nat,
{
    match e.kind {
        ExprKind::Ident(n) => acc.insert(n@),
        ExprKind::Field { receiver, .. } => names_expr(acc, &*receiver),
        ExprKind::Index { receiver, index } => names_expr(names_expr(acc, &*receiver), &*index),
        ExprKind::Assign { target, value, .. } => names_expr(names_expr(acc, &*target), &*value),
        ExprKind::Call { callee, args, .. } => names_exprs(names_expr(acc, &*callee), args@, 0),
        ExprKind::StructLit { fields, .. } => names_fields(acc, fields@, 0),
        ExprKind::InferredStructLit { fields } => names_fields(acc, fields@, 0),
        ExprKind::GenericStructLit { fields, .. } => names_fields(acc, fields@, 0),
        ExprKind::GenericEnumCall { args, .. } => names_exprs(acc, args@, 0),
        ExprKind::ArrayLit { elements } => names_exprs(acc, elements@, 0),
        ExprKind::TupleLit { elements } => names_exprs(acc, elements@, 0),
        ExprKind::ArrayFill { fill, .. } => names_expr(acc, &*fill),
        ExprKind::Block(b) => names_block(acc, &b),
        ExprKind::If { cond, then, else_branch } => (match else_branch {
                Some(x) => names_expr(names_block(names_expr(acc, &*cond), &then), &*x),
                None => names_block(names_expr(acc, &*cond), &then),
            }),
        ExprKind::Match { scrutinee, arms } => names_arms(names_expr(acc, &*scrutinee), arms@, 0),
        ExprKind::Cast { expr, .. } => names_expr(acc, &*expr),
        ExprKind::CastChecked { expr, .. } => names_expr(acc, &*expr),
        ExprKind::Await(inner) => names_expr(acc, &*inner),
        ExprKind::Yield(inner) => names_expr(acc, &*inner),
        ExprKind::Unary { operand, .. } => names_expr(acc, &*operand),
        ExprKind::Binary { lhs, rhs, .. } => names_expr(names_expr(acc, &*lhs), &*rhs),
        ExprKind::Range { start, end, .. } => (match end {
                Some(x) => names_expr((match start {
                Some(x) => names_expr(acc, &*x),
                None => acc,
            }), &*x),
                None => (match start {
                Some(x) => names_expr(acc, &*x),
                None => acc,
            }),
            }),
        ExprKind::InterpStr { parts } => names_parts(acc, parts@, 0),
        ExprKind::Intrinsic { args, .. } => names_exprs(acc, args@, 0),
        ExprKind::Asm { operands, .. } => names_operands(acc, operands@, 0),
        ExprKind::FnRef { callee, .. } => names_expr(acc, &*callee),
        ExprKind::BuilderBlock { body } => names_block(acc, &body),
        _ => acc,
    }
}

pub open spec fn names_exprs(acc: Set<Seq<char>>, es: Seq<Expr>, i: nat) -> Set<Seq<char>>
    decreases es, es.len() - i,
{
    if i >= es.len() {
        acc
    } else {
        names_exprs(names_expr(acc, &es[i as int]), es, i + 1)
    }
}

pub open spec fn names_fields(acc: Set<Seq<char>>, es: Seq<FieldInit>, i: nat) -> Set<Seq<char>>
    decreases es, es.len() - i,
{
    if i >= es.len() {
        acc
    } else {
        names_fields(names_expr(acc, &es[i as int].value), es, i + 1)
    }
}

pub open spec fn names_arms(acc: Set<Seq<char>>, es: Seq<MatchArm>, i: nat) -> Set<Seq<char>>
    decreases es, es.len() - i,
{
    if i >= es.len() {
        acc
    } else {
        names_arms(names_expr(acc, &es[i as int].body), es, i + 1)
    }
}

pub open spec fn names_parts(acc: Set<Seq<char>>, es: Seq<InterpStrPart>, i: nat) -> Set<Seq<char>>
    decreases es, es.len() - i,
{
    if i >= es.len() {
        acc
    } else {
        names_parts((match es[i as int] {
                InterpStrPart::Expr(x) => names_expr(acc, &x),
                InterpStrPart::Text(_) => acc,
            }), es, i + 1)
    }
}

pub open spec fn names_operands(acc: Set<Seq<char>>, es: Seq<AsmOperand>, i: nat) -> Set<Seq<char>>
    decreases es, es.len() - i,
{
    if i >= es.len() {
        acc
    } else {
        names_operands(names_expr(acc, &es[i as int].value), es, i + 1)
    }
}

pub open spec fn names_stmt(acc: Set<Seq<char>>, st: &Stmt) -> Set<Seq<char>>
    decreases st, 0nat,
{
    match st.kind {
        StmtKind::Let { init, .. } => (match init {
                Some(x) => names_expr(acc, &x),
                None => acc,
            }),
        StmtKind::LetDestructure { init, .. } => names_expr(acc, &init),
        StmtKind::Return(value) => (match value {
                Some(x) => names_expr(acc, &x),
                None => acc,
            }),
        StmtKind::Expr(e) => names_expr(acc, &e),
        StmtKind::Defer(e) => names_expr(acc, &e),
        StmtKind::Assert(e) => names_expr(acc, &e),
        StmtKind::While { cond, body } => names_block(names_expr(acc, &cond), &body),
        StmtKind::Loop(b) => names_block(acc, &b),
        StmtKind::For(fl) => names_for(acc, &fl),
        StmtKind::IfLet { value, then, otherwise, .. } => (match otherwise {
                Some(x) => names_block(names_block(names_expr(acc, &value), &then), &x),
                None => names_block(names_expr(acc, &value), &then),
            }),
        StmtKind::GuardLet { value, otherwise, .. } => names_block(names_expr(acc, &value), &otherwise),
        StmtKind::WhileLet { value, body, .. } => names_block(names_expr(acc, &value), &body),
        _ => acc,
    }
}

pub open spec fn names_for(acc: Set<Seq<char>>, fl: &ForLoop) -> Set<Seq<char>>
    decreases fl, 0nat,
{
    match fl {
        ForLoop::CStyle { init, cond, update, body } => {
            let a = (match init {
                Some(x) => names_stmt(acc, &*x),
                None => acc,
            });
            let b = (match cond {
                Some(x) => names_expr(a, &x),
                None => a,
            });
            names_block(names_exprs(b, update@, 0), &body)
        },
        ForLoop::Range { iter, body, .. } => names_block(names_expr(acc, &iter), &body),
    }
}

pub open spec fn names_stmts(acc: Set<Seq<char>>, es: Seq<Stmt>, i: nat) -> Set<Seq<char>>
    decreases es, es.len() - i,
{
    if i >= es.len() {
        acc
    } else {
        names_stmts(names_stmt(acc, &es[i as int]), es, i + 1)
    }
}

pub open spec fn names_block(acc: Set<Seq<char>>, b: &Block) -> Set<Seq<char>>
    decreases b, 0nat,
{
    let acc = names_stmts(acc, b.stmts@, 0);
    match b.tail {
        Some(x) => names_expr(acc, &*x),
        None => acc,
    }
}

pub fn collect_names_expr(out: &mut NameSet, e: &Expr)
    ensures
        final(out)@ == names_expr(old(out)@, e),
    decreases e,
{
    match &e.kind {
        ExprKind::Ident(n) => {
            out.insert(n.clone());
        },
        ExprKind::Field { receiver, .. } => {
            collect_names_expr(out, receiver);
        },
        ExprKind::Index { receiver, index } => {
            collect_names_expr(out, receiver);
            collect_names_expr(out, index);
        },
        ExprKind::Assign { target, value, .. } => {
            collect_names_expr(out, target);
            collect_names_expr(out, value);
        },
        ExprKind::Call { callee, args, .. } => {
            collect_names_expr(out, callee);
            collect_names_exprs(out, args);
        },
        ExprKind::StructLit { fields, .. } => {
            collect_names_fields(out, fields);
        },
        ExprKind::InferredStructLit { fields } => {
            collect_names_fields(out, fields);
        },
        ExprKind::GenericStructLit { fields, .. } => {
            collect_names_fields(out, fields);
        },
        ExprKind::GenericEnumCall { args, .. } => {
            collect_names_exprs(out, args);
        },
        ExprKind::ArrayLit { elements } => {
            collect_names_exprs(out, elements);
        },
        ExprKind::TupleLit { elements } => {
            collect_names_exprs(out, elements);
        },
        ExprKind::ArrayFill { fill, .. } => {
            collect_names_expr(out, fill);
        },
        ExprKind::Block(b) => {
            collect_names_block(out, b);
        },
        ExprKind::If { cond, then, else_branch } => {
            collect_names_expr(out, cond);
            collect_names_block(out, then);
            if let Some(x) = else_branch {
                collect_names_expr(out, x);
            }
        },
        ExprKind::Match { scrutinee, arms } => {
            collect_names_expr(out, scrutinee);
            collect_names_arms(out, arms);
        },
        ExprKind::Cast { expr, .. } => {
            collect_names_expr(out, expr);
        },
        ExprKind::CastChecked { expr, .. } => {
            collect_names_expr(out, expr);
        },
        ExprKind::Await(inner) => {
            collect_names_expr(out, inner);
        },
        ExprKind::Yield(inner) => {
            collect_names_expr(out, inner);
        },
        ExprKind::Unary { operand, .. } => {
            collect_names_expr(out, operand);
        },
        ExprKind::Binary { lhs, rhs, .. } => {
            collect_names_expr(out, lhs);
            collect_names_expr(out, rhs);
        },
        ExprKind::Range { start, end, .. } => {
            if let Some(x) = start {
                collect_names_expr(out, x);
            }
            if let Some(x) = end {
                collect_names_expr(out, x);
            }
        },
        ExprKind::InterpStr { parts } => {
            collect_names_parts(out, parts);
        },
        ExprKind::Intrinsic { args, .. } => {
            collect_names_exprs(out, args);
        },
        ExprKind::Asm { operands, .. } => {
            collect_names_operands(out, operands);
        },
        ExprKind::FnRef { callee, .. } => {
            collect_names_expr(out, callee);
        },
        ExprKind::BuilderBlock { body } => {
            collect_names_block(out, body);
        },
        _ => {},
    }
}

#[verifier::loop_isolation(false)]
fn collect_names_exprs(out: &mut NameSet, es: &Vec<Expr>)
    ensures
        final(out)@ == names_exprs(old(out)@, es@, 0),
    decreases es,
{
    let mut i: usize = 0;
    while i < es.len()
        invariant
            i <= es@.len(),
            names_exprs(out@, es@, i as nat) == names_exprs(old(out)@, es@, 0),
        decreases es@.len() - i,
    {
        collect_names_expr(out, &es[i]);
        i += 1;
    }
}

#[verifier::loop_isolation(false)]
fn collect_names_fields(out: &mut NameSet, es: &Vec<FieldInit>)
    ensures
        final(out)@ == names_fields(old(out)@, es@, 0),
    decreases es,
{
    let mut i: usize = 0;
    while i < es.len()
        invariant
            i <= es@.len(),
            names_fields(out@, es@, i as nat) == names_fields(old(out)@, es@, 0),
        decreases es@.len() - i,
    {
        collect_names_expr(out, &es[i].value);
        i += 1;
    }
}

#[verifier::loop_isolation(false)]
fn collect_names_arms(out: &mut NameSet, es: &Vec<MatchArm>)
    ensures
        final(out)@ == names_arms(old(out)@, es@, 0),
    decreases es,
{
    let mut i: usize = 0;
    while i < es.len()
        invariant
            i <= es@.len(),
            names_arms(out@, es@, i as nat) == names_arms(old(out)@, es@, 0),
        decreases es@.len() - i,
    {
        collect_names_expr(out, &es[i].body);
        i += 1;
    }
}

#[verifier::loop_isolation(false)]
fn collect_names_parts(out: &mut NameSet, es: &Vec<InterpStrPart>)
    ensures
        final(out)@ == names_parts(old(out)@, es@, 0),
    decreases es,
{
    let mut i: usize = 0;
    while i < es.len()
        invariant
            i <= es@.len(),
            names_parts(out@, es@, i as nat) == names_parts(old(out)@, es@, 0),
        decreases es@.len() - i,
    {
        if let InterpStrPart::Expr(x) = &es[i] {
            collect_names_expr(out, x);
        }
        i += 1;
    }
}

#[verifier::loop_isolation(false)]
fn collect_names_operands(out: &mut NameSet, es: &Vec<AsmOperand>)
    ensures
        final(out)@ == names_operands(old(out)@, es@, 0),
    decreases es,
{
    let mut i: usize = 0;
    while i < es.len()
        invariant
            i <= es@.len(),
            names_operands(out@, es@, i as nat) == names_operands(old(out)@, es@, 0),
        decreases es@.len() - i,
    {
        collect_names_expr(out, &es[i].value);
        i += 1;
    }
}

#[verifier::loop_isolation(false)]
fn collect_names_stmts(out: &mut NameSet, es: &Vec<Stmt>)
    ensures
        final(out)@ == names_stmts(old(out)@, es@, 0),
    decreases es,
{
    let mut i: usize = 0;
    while i < es.len()
        invariant
            i <= es@.len(),
            names_stmts(out@, es@, i as nat) == names_stmts(old(out)@, es@, 0),
        decreases es@.len() - i,
    {
        collect_names_stmt(out, &es[i]);
        i += 1;
    }
}

pub fn collect_names_stmt(out: &mut NameSet, st: &Stmt)
    ensures
        final(out)@ == names_stmt(old(out)@, st),
    decreases st,
{
    match &st.kind {
        StmtKind::Let { init, .. } => {
            if let Some(x) = init {
                collect_names_expr(out, x);
            }
        },
        StmtKind::LetDestructure { init, .. } => {
            collect_names_expr(out, init);
        },
        StmtKind::Return(value) => {
            if let Some(x) = value {
                collect_names_expr(out, x);
            }
        },
        StmtKind::Expr(e) => {
            collect_names_expr(out, e);
        },
        StmtKind::Defer(e) => {
            collect_names_expr(out, e);
        },
        StmtKind::Assert(e) => {
            collect_names_expr(out, e);
        },
        StmtKind::While { cond, body } => {
            collect_names_expr(out, cond);
            collect_names_block(out, body);
        },
        StmtKind::Loop(b) => {
            collect_names_block(out, b);
        },
        StmtKind::For(fl) => {
            collect_names_for(out, fl);
        },
        StmtKind::IfLet { value, then, otherwise, .. } => {
            collect_names_expr(out, value);
            collect_names_block(out, then);
            if let Some(x) = otherwise {
                collect_names_block(out, x);
            }
        },
        StmtKind::GuardLet { value, otherwise, .. } => {
            collect_names_expr(out, value);
            collect_names_block(out, otherwise);
        },
        StmtKind::WhileLet { value, body, .. } => {
            collect_names_expr(out, value);
            collect_names_block(out, body);
        },
        _ => {},
    }
}

fn collect_names_for(out: &mut NameSet, fl: &ForLoop)
    ensures
        final(out)@ == names_for(old(out)@, fl),
    decreases fl,
{
    match fl {
        ForLoop::CStyle { init, cond, update, body } => {
            if let Some(x) = init {
                collect_names_stmt(out, x);
            }
            if let Some(x) = cond {
                collect_names_expr(out, x);
            }
            collect_names_exprs(out, update);
            collect_names_block(out, body);
        },
        ForLoop::Range { iter, body, .. } => {
            collect_names_expr(out, iter);
            collect_names_block(out, body);
        },
    }
}

fn collect_names_block(out: &mut NameSet, b: &Block)
    ensures
        final(out)@ == names_block(old(out)@, b),
    decreases b,
{
    collect_names_stmts(out, &b.stmts);
    if let Some(x) = &b.tail {
        collect_names_expr(out, x);
    }
}

/// Lists an expression and the expressions inside it, outermost first.
pub open spec fn subs_expr<'a>(acc: Seq<&'a Expr>, e: &'a Expr) -> Seq<&'a Expr>
    decreases e, 0nat,
{
    let acc = acc.push(e);
    match e.kind {
        ExprKind::Block(b) => subs_block(acc, &b),
        ExprKind::Await(inner) => subs_expr(acc, &*inner),
        ExprKind::Yield(inner) => subs_expr(acc, &*inner),
        ExprKind::Cast { expr, .. } => subs_expr(acc, &*expr),
        ExprKind::Unary { operand, .. } => subs_expr(acc, &*operand),
        ExprKind::Field { receiver, .. } => subs_expr(acc, &*receiver),
        ExprKind::Binary { lhs, rhs, .. } => subs_expr(subs_expr(acc, &*lhs), &*rhs),
        ExprKind::Assign { target, value, .. } => subs_expr(subs_expr(acc, &*target), &*value),
        ExprKind::Index { receiver, index } => subs_expr(subs_expr(acc, &*receiver), &*index),
        ExprKind::Range { start, end, .. } => (match end {
                Some(x) => subs_expr((match start {
                Some(x) => subs_expr(acc, &*x),
                None => acc,
            }), &*x),
                None => (match start {
                Some(x) => subs_expr(acc, &*x),
                None => acc,
            }),
            }),
        ExprKind::If { cond, then, else_branch } => (match else_branch {
                Some(x) => subs_expr(subs_block(subs_expr(acc, &*cond), &then), &*x),
                None => subs_block(subs_expr(acc, &*cond), &then),
            }),
        ExprKind::Match { scrutinee, arms } => subs_arms(subs_expr(acc, &*scrutinee), arms@, 0),
        ExprKind::Call { callee, args, .. } => subs_exprs(subs_expr(acc, &*callee), args@, 0),
        ExprKind::StructLit { fields, .. } => subs_fields(acc, fields@, 0),
        ExprKind::InferredStructLit { fields } => subs_fields(acc, fields@, 0),
        ExprKind::GenericStructLit { fields, .. } => subs_fields(acc, fields@, 0),
        ExprKind::ArrayLit { elements } => subs_exprs(acc, elements@, 0),
        ExprKind::TupleLit { elements } => subs_exprs(acc, elements@, 0),
        ExprKind::GenericEnumCall { args, .. } => subs_exprs(acc, args@, 0),
        ExprKind::ArrayFill { fill, .. } => subs_expr(acc, &*fill),
        ExprKind::Intrinsic { args, .. } => subs_exprs(acc, args@, 0),
        ExprKind::InterpStr { parts } => subs_parts(acc, parts@, 0),
        ExprKind::CastChecked { expr, .. } => subs_expr(acc, &*expr),
        ExprKind::Asm { operands, .. } => subs_operands(acc, operands@, 0),
        ExprKind::FnRef { callee, .. } => subs_expr(acc, &*callee),
        _ => acc,
    }
}

pub open spec fn subs_exprs<'a>(acc: Seq<&'a Expr>, es: Seq<Expr>, i: nat) -> Seq<&'a Expr>
    decreases es, es.len() - i,
{
    if i >= es.len() {
        acc
    } else {
        subs_exprs(subs_expr(acc, &es[i as int]), es, i + 1)
    }
}

pub open spec fn subs_fields<'a>(acc: Seq<&'a Expr>, es: Seq<FieldInit>, i: nat) -> Seq<&'a Expr>
    decreases es, es.len() - i,
{
    if i >= es.len() {
        acc
    } else {
        subs_fields(subs_expr(acc, &es[i as int].value), es, i + 1)
    }
}

pub open spec fn subs_arms<'a>(acc: Seq<&'a Expr>, es: Seq<MatchArm>, i: nat) -> Seq<&'a Expr>
    decreases es, es.len() - i,
{
    if i >= es.len() {
        acc
    } else {
        subs_arms(subs_expr(acc, &es[i as int].body), es, i + 1)
    }
}

pub open spec fn subs_parts<'a>(acc: Seq<&'a Expr>, es: Seq<InterpStrPart>, i: nat) -> Seq<&'a Expr>
    decreases es, es.len() - i,
{
    if i >= es.len() {
        acc
    } else {
        subs_parts((match es[i as int] {
                InterpStrPart::Expr(x) => subs_expr(acc, &x),
                InterpStrPart::Text(_) => acc,
            }), es, i + 1)
    }
}

pub open spec fn subs_operands<'a>(acc: Seq<&'a Expr>, es: Seq<AsmOperand>, i: nat) -> Seq<&'a Expr>
    decreases es, es.len() - i,
{
    if i >= es.len() {
        acc
    } else {
        subs_operands(subs_expr(acc, &es[i as int].value), es, i + 1)
    }
}

pub open spec fn subs_stmt<'a>(acc: Seq<&'a Expr>, st: &'a Stmt) -> Seq<&'a Expr>
    decreases st, 0nat,
{
    match st.kind {
        StmtKind::Let { init, .. } => (match init {
                Some(x) => subs_expr(acc, &x),
                None => acc,
            }),
        StmtKind::Expr(e) => subs_expr(acc, &e),
        StmtKind::Return(value) => (match value {
                Some(x) => subs_expr(acc, &x),
                None => acc,
            }),
        StmtKind::Defer(e) => subs_expr(acc, &e),
        StmtKind::Assert(e) => subs_expr(acc, &e),
        StmtKind::LetDestructure { init, .. } => subs_expr(acc, &init),
        StmtKind::While { cond, body } => subs_block(subs_expr(acc, &cond), &body),
        StmtKind::Loop(b) => subs_block(acc, &b),
        StmtKind::For(fl) => subs_for(acc, &fl),
        _ => acc,
    }
}

pub open spec fn subs_for<'a>(acc: Seq<&'a Expr>, fl: &'a ForLoop) -> Seq<&'a Expr>
    decreases fl, 0nat,
{
    match fl {
        ForLoop::CStyle { init, cond, update, body } => {
            let a = match init {
                Some(x) => subs_stmt(acc, &*x),
                None => acc,
            };
            let b = (match cond {
                Some(x) => subs_expr(a, &x),
                None => a,
            });
            subs_block(subs_exprs(b, update@, 0), &body)
        },
        ForLoop::Range { iter, body, .. } => subs_block(subs_expr(acc, &iter), &body),
    }
}

pub open spec fn subs_stmts<'a>(acc: Seq<&'a Expr>, es: Seq<Stmt>, i: nat) -> Seq<&'a Expr>
    decreases es, es.len() - i,
{
    if i >= es.len() {
        acc
    } else {
        subs_stmts(subs_stmt(acc, &es[i as int]), es, i + 1)
    }
}

pub open spec fn subs_block<'a>(acc: Seq<&'a Expr>, b: &'a Block) -> Seq<&'a Expr>
    decreases b, 0nat,
{
    let acc = subs_stmts(acc, b.stmts@, 0);
    match b.tail {
        Some(x) => subs_expr(acc, &*x),
        None => acc,
    }
}

pub fn collect_subs_expr<'a>(out: &mut Vec<&'a Expr>, e: &'a Expr)
    ensures
        final(out)@ == subs_expr(old(out)@, e),
    decreases e,
{
    out.push(e);
    match &e.kind {
        ExprKind::Block(b) => {
            collect_subs_block(out, b);
        },
        ExprKind::Await(inner) => {
            collect_subs_expr(out, inner);
        },
        ExprKind::Yield(inner) => {
            collect_subs_expr(out, inner);
        },
        ExprKind::Cast { expr, .. } => {
            collect_subs_expr(out, expr);
        },
        ExprKind::Unary { operand, .. } => {
            collect_subs_expr(out, operand);
        },
        ExprKind::Field { receiver, .. } => {
            collect_subs_expr(out, receiver);
        },
        ExprKind::Binary { lhs, rhs, .. } => {
            collect_subs_expr(out, lhs);
            collect_subs_expr(out, rhs);
        },
        ExprKind::Assign { target, value, .. } => {
            collect_subs_expr(out, target);
            collect_subs_expr(out, value);
        },
        ExprKind::Index { receiver, index } => {
            collect_subs_expr(out, receiver);
            collect_subs_expr(out, index);
        },
        ExprKind::Range { start, end, .. } => {
            if let Some(x) = start {
                collect_subs_expr(out, x);
            }
            if let Some(x) = end {
                collect_subs_expr(out, x);
            }
        },
        ExprKind::If { cond, then, else_branch } => {
            collect_subs_expr(out, cond);
            collect_subs_block(out, then);
            if let Some(x) = else_branch {
                collect_subs_expr(out, x);
            }
        },
        ExprKind::Match { scrutinee, arms } => {
            collect_subs_expr(out, scrutinee);
            collect_subs_arms(out, arms);
        },
        ExprKind::Call { callee, args, .. } => {
            collect_subs_expr(out, callee);
            collect_subs_exprs(out, args);
        },
        ExprKind::StructLit { fields, .. } => {
            collect_subs_fields(out, fields);
        },
        ExprKind::InferredStructLit { fields } => {
            collect_subs_fields(out, fields);
        },
        ExprKind::GenericStructLit { fields, .. } => {
            collect_subs_fields(out, fields);
        },
        ExprKind::ArrayLit { elements } => {
            collect_subs_exprs(out, elements);
        },
        ExprKind::TupleLit { elements } => {
            collect_subs_exprs(out, elements);
        },
        ExprKind::GenericEnumCall { args, .. } => {
            collect_subs_exprs(out, args);
        },
        ExprKind::ArrayFill { fill, .. } => {
            collect_subs_expr(out, fill);
        },
        ExprKind::Intrinsic { args, .. } => {
            collect_subs_exprs(out, args);
        },
        ExprKind::InterpStr { parts } => {
            collect_subs_parts(out, parts);
        },
        ExprKind::CastChecked { expr, .. } => {
            collect_subs_expr(out, expr);
        },
        ExprKind::Asm { operands, .. } => {
            collect_subs_operands(out, operands);
        },
        ExprKind::FnRef { callee, .. } => {
            collect_subs_expr(out, callee);
        },
        _ => {},
    }
}

#[verifier::loop_isolation(false)]
fn collect_subs_exprs<'a>(out: &mut Vec<&'a Expr>, es: &'a Vec<Expr>)
    ensures
        final(out)@ == subs_exprs(old(out)@, es@, 0),
    decreases es,
{
    let mut i: usize = 0;
    while i < es.len()
        invariant
            i <= es@.len(),
            subs_exprs(out@, es@, i as nat) == subs_exprs(old(out)@, es@, 0),
        decreases es@.len() - i,
    {
        collect_subs_expr(out, &es[i]);
        i += 1;
    }
}

#[verifier::loop_isolation(false)]
fn collect_subs_operands<'a>(out: &mut Vec<&'a Expr>, es: &'a Vec<AsmOperand>)
    ensures
        final(out)@ == subs_operands(old(out)@, es@, 0),
    decreases es,
{
    let mut i: usize = 0;
    while i < es.len()
        invariant
            i <= es@.len(),
            subs_operands(out@, es@, i as nat) == subs_operands(old(out)@, es@, 0),
        decreases es@.len() - i,
    {
        collect_subs_expr(out, &es[i].value);
        i += 1;
    }
}

#[verifier::loop_isolation(false)]
fn collect_subs_fields<'a>(out: &mut Vec<&'a Expr>, es: &'a Vec<FieldInit>)
    ensures
        final(out)@ == subs_fields(old(out)@, es@, 0),
    decreases es,
{
    let mut i: usize = 0;
    while i < es.len()
        invariant
            i <= es@.len(),
            subs_fields(out@, es@, i as nat) == subs_fields(old(out)@, es@, 0),
        decreases es@.len() - i,
    {
        collect_subs_expr(out, &es[i].value);
        i += 1;
    }
}

#[verifier::loop_isolation(false)]
fn collect_subs_arms<'a>(out: &mut Vec<&'a Expr>, es: &'a Vec<MatchArm>)
    ensures
        final(out)@ == subs_arms(old(out)@, es@, 0),
    decreases es,
{
    let mut i: usize = 0;
    while i < es.len()
        invariant
            i <= es@.len(),
            subs_arms(out@, es@, i as nat) == subs_arms(old(out)@, es@, 0),
        decreases es@.len() - i,
    {
        collect_subs_expr(out, &es[i].body);
        i += 1;
    }
}

#[verifier::loop_isolation(false)]
fn collect_subs_parts<'a>(out: &mut Vec<&'a Expr>, es: &'a Vec<InterpStrPart>)
    ensures
        final(out)@ == subs_parts(old(out)@, es@, 0),
    decreases es,
{
    let mut i: usize = 0;
    while i < es.len()
        invariant
            i <= es@.len(),
            subs_parts(out@, es@, i as nat) == subs_parts(old(out)@, es@, 0),
        decreases es@.len() - i,
    {
        if let InterpStrPart::Expr(x) = &es[i] {
            collect_subs_expr(out, x);
        }
        i += 1;
    }
}

#[verifier::loop_isolation(false)]
fn collect_subs_stmts<'a>(out: &mut Vec<&'a Expr>, es: &'a Vec<Stmt>)
    ensures
        final(out)@ == subs_stmts(old(out)@, es@, 0),
    decreases es,
{
    let mut i: usize = 0;
    while i < es.len()
        invariant
            i <= es@.len(),
            subs_stmts(out@, es@, i as nat) == subs_stmts(old(out)@, es@, 0),
        decreases es@.len() - i,
    {
        collect_subs_stmt(out, &es[i]);
        i += 1;
    }
}

fn collect_subs_stmt<'a>(out: &mut Vec<&'a Expr>, st: &'a Stmt)
    ensures
        final(out)@ == subs_stmt(old(out)@, st),
    decreases st,
{
    match &st.kind {
        StmtKind::Let { init, .. } => {
            if let Some(x) = init {
                collect_subs_expr(out, x);
            }
        },
        StmtKind::Expr(e) => {
            collect_subs_expr(out, e);
        },
        StmtKind::Return(value) => {
            if let Some(x) = value {
                collect_subs_expr(out, x);
            }
        },
        StmtKind::Defer(e) => {
            collect_subs_expr(out, e);
        },
        StmtKind::Assert(e) => {
            collect_subs_expr(out, e);
        },
        StmtKind::LetDestructure { init, .. } => {
            collect_subs_expr(out, init);
        },
        StmtKind::While { cond, body } => {
            collect_subs_expr(out, cond);
            collect_subs_block(out, body);
        },
        StmtKind::Loop(b) => {
            collect_subs_block(out, b);
        },
        StmtKind::For(fl) => {
            collect_subs_for(out, fl);
        },
        _ => {},
    }
}

fn collect_subs_for<'a>(out: &mut Vec<&'a Expr>, fl: &'a ForLoop)
    ensures
        final(out)@ == subs_for(old(out)@, fl),
    decreases fl,
{
    match fl {
        ForLoop::CStyle { init, cond, update, body } => {
            if let Some(x) = init {
                collect_subs_stmt(out, x);
            }
            if let Some(x) = cond {
                collect_subs_expr(out, x);
            }
            collect_subs_exprs(out, update);
            collect_subs_block(out, body);
        },
        ForLoop::Range { iter, body, .. } => {
            collect_subs_expr(out, iter);
            collect_subs_block(out, body);
        },
    }
}

pub fn collect_subs_block<'a>(out: &mut Vec<&'a Expr>, b: &'a Block)
    ensures
        final(out)@ == subs_block(old(out)@, b),
    decreases b,
{
    collect_subs_stmts(out, &b.stmts);
    if let Some(x) = &b.tail {
        collect_subs_expr(out, x);
    }
}

/// The `return` statements on the statement level of an expression.
pub open spec fn exits_expr<'a>(acc: Seq<Option<&'a Expr>>, e: &'a Expr) -> Seq<Option<&'a Expr>>
    decreases e, 0nat,
{
    match e.kind {
        ExprKind::Block(b) => exits_block(acc, &b),
        ExprKind::If { cond, then, else_branch } => (match else_branch {
                Some(x) => exits_expr(exits_block(exits_expr(acc, &*cond), &then), &*x),
                None => exits_block(exits_expr(acc, &*cond), &then),
            }),
        ExprKind::Match { scrutinee, arms } => exits_arms(exits_expr(acc, &*scrutinee), arms@, 0),
        _ => acc,
    }
}

pub open spec fn exits_exprs<'a>(acc: Seq<Option<&'a Expr>>, es: Seq<Expr>, i: nat) -> Seq<Option<&'a Expr>>
    decreases es, es.len() - i,
{
    if i >= es.len() {
        acc
    } else {
        exits_exprs(exits_expr(acc, &es[i as int]), es, i + 1)
    }
}

pub open spec fn exits_arms<'a>(acc: Seq<Option<&'a Expr>>, es: Seq<MatchArm>, i: nat) -> Seq<Option<&'a Expr>>
    decreases es, es.len() - i,
{
    if i >= es.len() {
        acc
    } else {
        exits_arms(exits_expr(acc, &es[i as int].body), es, i + 1)
    }
}

pub open spec fn exits_stmt<'a>(acc: Seq<Option<&'a Expr>>, st: &'a Stmt) -> Seq<Option<&'a Expr>>
    decreases st, 0nat,
{
    match st.kind {
        StmtKind::Return(value) => acc.push(match value {
            Some(x) => Some(&x),
            None => None,
        }),
        StmtKind::Let { init, .. } => (match init {
                Some(x) => exits_expr(acc, &x),
                None => acc,
            }),
        StmtKind::LetDestructure { init, .. } => exits_expr(acc, &init),
        StmtKind::Expr(e) => exits_expr(acc, &e),
        StmtKind::Defer(e) => exits_expr(acc, &e),
        StmtKind::Assert(e) => exits_expr(acc, &e),
        StmtKind::While { cond, body } => exits_block(exits_expr(acc, &cond), &body),
        StmtKind::For(fl) => exits_for(acc, &fl),
        StmtKind::Loop(b) => exits_block(acc, &b),
        _ => acc,
    }
}

pub open spec fn exits_for<'a>(acc: Seq<Option<&'a Expr>>, fl: &'a ForLoop) -> Seq<Option<&'a Expr>>
    decreases fl, 0nat,
{
    match fl {
        ForLoop::CStyle { init, cond, update, body } => {
            let a = (match init {
                Some(x) => exits_stmt(acc, &*x),
                None => acc,
            });
            let b = (match cond {
                Some(x) => exits_expr(a, &x),
                None => a,
            });
            exits_block(exits_exprs(b, update@, 0), &body)
        },
        ForLoop::Range { iter, body, .. } => exits_block(exits_expr(acc, &iter), &body),
    }
}

pub open spec fn exits_stmts<'a>(acc: Seq<Option<&'a Expr>>, es: Seq<Stmt>, i: nat) -> Seq<Option<&'a Expr>>
    decreases es, es.len() - i,
{
    if i >= es.len() {
        acc
    } else {
        exits_stmts(exits_stmt(acc, &es[i as int]), es, i + 1)
    }
}

pub open spec fn exits_block<'a>(acc: Seq<Option<&'a Expr>>, b: &'a Block) -> Seq<Option<&'a Expr>>
    decreases b, 0nat,
{
    let acc = exits_stmts(acc, b.stmts@, 0);
    match b.tail {
        Some(x) => exits_expr(acc, &*x),
        None => acc,
    }
}

fn collect_exits_expr<'a>(out: &mut Vec<Option<&'a Expr>>, e: &'a Expr)
    ensures
        final(out)@ == exits_expr(old(out)@, e),
    decreases e,
{
    match &e.kind {
        ExprKind::Block(b) => {
            collect_exits_block(out, b);
        },
        ExprKind::If { cond, then, else_branch } => {
            collect_exits_expr(out, cond);
            collect_exits_block(out, then);
            if let Some(x) = else_branch {
                collect_exits_expr(out, x);
            }
        },
        ExprKind::Match { scrutinee, arms } => {
            collect_exits_expr(out, scrutinee);
            collect_exits_arms(out, arms);
        },
        _ => {},
    }
}

#[verifier::loop_isolation(false)]
fn collect_exits_exprs<'a>(out: &mut Vec<Option<&'a Expr>>, es: &'a Vec<Expr>)
    ensures
        final(out)@ == exits_exprs(old(out)@, es@, 0),
    decreases es,
{
    let mut i: usize = 0;
    while i < es.len()
        invariant
            i <= es@.len(),
            exits_exprs(out@, es@, i as nat) == exits_exprs(old(out)@, es@, 0),
        decreases es@.len() - i,
    {
        collect_exits_expr(out, &es[i]);
        i += 1;
    }
}

#[verifier::loop_isolation(false)]
fn collect_exits_arms<'a>(out: &mut Vec<Option<&'a Expr>>, es: &'a Vec<MatchArm>)
    ensures
        final(out)@ == exits_arms(old(out)@, es@, 0),
    decreases es,
{
    let mut i: usize = 0;
    while i < es.len()
        invariant
            i <= es@.len(),
            exits_arms(out@, es@, i as nat) == exits_arms(old(out)@, es@, 0),
        decreases es@.len() - i,
    {
        collect_exits_expr(out, &es[i].body);
        i += 1;
    }
}

#[verifier::loop_isolation(false)]
fn collect_exits_stmts<'a>(out: &mut Vec<Option<&'a Expr>>, es: &'a Vec<Stmt>)
    ensures
        final(out)@ == exits_stmts(old(out)@, es@, 0),
    decreases es,
{
    let mut i: usize = 0;
    while i < es.len()
        invariant
            i <= es@.len(),
            exits_stmts(out@, es@, i as nat) == exits_stmts(old(out)@, es@, 0),
        decreases es@.len() - i,
    {
        collect_exits_stmt(out, &es[i]);
        i += 1;
    }
}

fn collect_exits_stmt<'a>(out: &mut Vec<Option<&'a Expr>>, st: &'a Stmt)
    ensures
        final(out)@ == exits_stmt(old(out)@, st),
    decreases st,
{
    match &st.kind {
        StmtKind::Return(value) => {
            match value {
                Some(x) => out.push(Some(x)),
                None => out.push(None),
            }
        },
        StmtKind::Let { init, .. } => {
            if let Some(x) = init {
                collect_exits_expr(out, x);
            }
        },
        StmtKind::LetDestructure { init, .. } => {
            collect_exits_expr(out, init);
        },
        StmtKind::Expr(e) => {
            collect_exits_expr(out, e);
        },
        StmtKind::Defer(e) => {
            collect_exits_expr(out, e);
        },
        StmtKind::Assert(e) => {
            collect_exits_expr(out, e);
        },
        StmtKind::While { cond, body } => {
            collect_exits_expr(out, cond);
            collect_exits_block(out, body);
        },
        StmtKind::For(fl) => {
            collect_exits_for(out, fl);
        },
        StmtKind::Loop(b) => {
            collect_exits_block(out, b);
        },
        _ => {},
    }
}

fn collect_exits_for<'a>(out: &mut Vec<Option<&'a Expr>>, fl: &'a ForLoop)
    ensures
        final(out)@ == exits_for(old(out)@, fl),
    decreases fl,
{
    match fl {
        ForLoop::CStyle { init, cond, update, body } => {
            if let Some(x) = init {
                collect_exits_stmt(out, x);
            }
            if let Some(x) = cond {
                collect_exits_expr(out, x);
            }
            collect_exits_exprs(out, update);
            collect_exits_block(out, body);
        },
        ForLoop::Range { iter, body, .. } => {
            collect_exits_expr(out, iter);
            collect_exits_block(out, body);
        },
    }
}

pub fn collect_exits_block<'a>(out: &mut Vec<Option<&'a Expr>>, b: &'a Block)
    ensures
        final(out)@ == exits_block(old(out)@, b),
    decreases b,
{
    collect_exits_stmts(out, &b.stmts);
    if let Some(x) = &b.tail {
        collect_exits_expr(out, x);
    }
}

/// Keeps what was found, or else looks at the place of the expression itself.
pub open spec fn first_overlap(acc: Option<(PlaceOverlap, Span)>, primary: PlaceV, e: Expr) -> Option<(PlaceOverlap, Span)> {
    match acc {
        Some(_) => acc,
        None => match place::place_of(e) {
            Some(p) => if place::overlap_of(primary, p) != PlaceOverlap::Disjoint {
                Some((place::overlap_of(primary, p), e.span))
            } else {
                None
            },
            None => None,
        },
    }
}

fn note_overlap(out: &mut Option<(PlaceOverlap, Span)>, primary: &Place, e: &Expr)
    ensures
        *final(out) == first_overlap(*old(out), primary@, *e),
{
    if out.is_none() {
        if let Some(p) = place_from_expr(e) {
            let o = primary.overlap(&p);
            match o {
                PlaceOverlap::Disjoint => {},
                _ => {
                    *out = Some((o, e.span));
                },
            }
        }
    }
}

/// The first place inside an expression, outermost first, that overlaps the given one.
pub open spec fn overlapping_expr(acc: Option<(PlaceOverlap, Span)>, primary: PlaceV, e: &Expr) -> Option<(PlaceOverlap, Span)>
    decreases e, 0nat,
{
    let acc = first_overlap(acc, primary, *e);
    match e.kind {
        ExprKind::Call { callee, args, .. } => overlapping_exprs(overlapping_expr(acc, primary, &*callee), primary, args@, 0),
        ExprKind::Binary { lhs, rhs, .. } => overlapping_expr(overlapping_expr(acc, primary, &*lhs), primary, &*rhs),
        ExprKind::Unary { operand, .. } => overlapping_expr(acc, primary, &*operand),
        ExprKind::Cast { expr, .. } => overlapping_expr(acc, primary, &*expr),
        ExprKind::Field { receiver, .. } => overlapping_expr(acc, primary, &*receiver),
        ExprKind::Index { receiver, index } => overlapping_expr(overlapping_expr(acc, primary, &*receiver), primary, &*index),
        ExprKind::StructLit { fields, .. } => overlapping_fields(acc, primary, fields@, 0),
        ExprKind::InferredStructLit { fields } => overlapping_fields(acc, primary, fields@, 0),
        ExprKind::GenericStructLit { fields, .. } => overlapping_fields(acc, primary, fields@, 0),
        ExprKind::ArrayLit { elements } => overlapping_exprs(acc, primary, elements@, 0),
        ExprKind::GenericEnumCall { args, .. } => overlapping_exprs(acc, primary, args@, 0),
        ExprKind::If { cond, .. } => overlapping_expr(acc, primary, &*cond),
        ExprKind::Range { start, end, .. } => (match end {
                Some(x) => overlapping_expr((match start {
                Some(x) => overlapping_expr(acc, primary, &*x),
                None => acc,
            }), primary, &*x),
                None => (match start {
                Some(x) => overlapping_expr(acc, primary, &*x),
                None => acc,
            }),
            }),
        ExprKind::Match { scrutinee, .. } => overlapping_expr(acc, primary, &*scrutinee),
        _ => acc,
    }
}

pub open spec fn overlapping_exprs(acc: Option<(PlaceOverlap, Span)>, primary: PlaceV, es: Seq<Expr>, i: nat) -> Option<(PlaceOverlap, Span)>
    decreases es, es.len() - i,
{
    if i >= es.len() {
        acc
    } else {
        overlapping_exprs(overlapping_expr(acc, primary, &es[i as int]), primary, es, i + 1)
    }
}

pub open spec fn overlapping_fields(acc: Option<(PlaceOverlap, Span)>, primary: PlaceV, es: Seq<FieldInit>, i: nat) -> Option<(PlaceOverlap, Span)>
    decreases es, es.len() - i,
{
    if i >= es.len() {
        acc
    } else {
        overlapping_fields(overlapping_expr(acc, primary, &es[i as int].value), primary, es, i + 1)
    }
}

pub fn scan_overlapping_expr(out: &mut Option<(PlaceOverlap, Span)>, primary: &Place, e: &Expr)
    ensures
        *final(out) == overlapping_expr(*old(out), primary@, e),
    decreases e,
{
    note_overlap(out, primary, e);
    match &e.kind {
        ExprKind::Call { callee, args, .. } => {
            scan_overlapping_expr(out, primary, callee);
            scan_overlapping_exprs(out, primary, args);
        },
        ExprKind::Binary { lhs, rhs, .. } => {
            scan_overlapping_expr(out, primary, lhs);
            scan_overlapping_expr(out, primary, rhs);
        },
        ExprKind::Unary { operand, .. } => {
            scan_overlapping_expr(out, primary, operand);
        },
        ExprKind::Cast { expr, .. } => {
            scan_overlapping_expr(out, primary, expr);
        },
        ExprKind::Field { receiver, .. } => {
            scan_overlapping_expr(out, primary, receiver);
        },
        ExprKind::Index { receiver, index } => {
            scan_overlapping_expr(out, primary, receiver);
            scan_overlapping_expr(out, primary, index);
        },
        ExprKind::StructLit { fields, .. } => {
            scan_overlapping_fields(out, primary, fields);
        },
        ExprKind::InferredStructLit { fields } => {
            scan_overlapping_fields(out, primary, fields);
        },
        ExprKind::GenericStructLit { fields, .. } => {
            scan_overlapping_fields(out, primary, fields);
        },
        ExprKind::ArrayLit { elements } => {
            scan_overlapping_exprs(out, primary, elements);
        },
        ExprKind::GenericEnumCall { args, .. } => {
            scan_overlapping_exprs(out, primary, args);
        },
        ExprKind::If { cond, .. } => {
            scan_overlapping_expr(out, primary, cond);
        },
        ExprKind::Range { start, end, .. } => {
            if let Some(x) = start {
                scan_overlapping_expr(out, primary, x);
            }
            if let Some(x) = end {
                scan_overlapping_expr(out, primary, x);
            }
        },
        ExprKind::Match { scrutinee, .. } => {
            scan_overlapping_expr(out, primary, scrutinee);
        },
        _ => {},
    }
}

#[verifier::loop_isolation(false)]
fn scan_overlapping_exprs(out: &mut Option<(PlaceOverlap, Span)>, primary: &Place, es: &Vec<Expr>)
    ensures
        *final(out) == overlapping_exprs(*old(out), primary@, es@, 0),
    decreases es,
{
    let mut i: usize = 0;
    while i < es.len()
        invariant
            i <= es@.len(),
            overlapping_exprs(*out, primary@, es@, i as nat) == overlapping_exprs(*old(out), primary@, es@, 0),
        decreases es@.len() - i,
    {
        scan_overlapping_expr(out, primary, &es[i]);
        i += 1;
    }
}

#[verifier::loop_isolation(false)]
fn scan_overlapping_fields(out: &mut Option<(PlaceOverlap, Span)>, primary: &Place, es: &Vec<FieldInit>)
    ensures
        *final(out) == overlapping_fields(*old(out), primary@, es@, 0),
    decreases es,
{
    let mut i: usize = 0;
    while i < es.len()
        invariant
            i <= es@.len(),
            overlapping_fields(*out, primary@, es@, i as nat) == overlapping_fields(*old(out), primary@, es@, 0),
        decreases es@.len() - i,
    {
        scan_overlapping_expr(out, primary, &es[i].value);
        i += 1;
    }
}

/// Control never reaches the end of the block.
pub open spec fn block_leaves(b: Block) -> bool
    decreases b, 0nat,
{
    stmts_leave(b.stmts@, 0) || match b.tail {
        Some(t) => expr_leaves(*t),
        None => false,
    }
}

pub open spec fn stmts_leave(ss: Seq<Stmt>, i: nat) -> bool
    decreases ss, ss.len() - i,
{
    i < ss.len() && (stmt_leaves(ss[i as int]) || stmts_leave(ss, i + 1))
}

pub open spec fn stmt_leaves(s: Stmt) -> bool
    decreases s, 0nat,
{
    match s.kind {
        StmtKind::Return(_) => true,
        StmtKind::Break => true,
        StmtKind::Continue => true,
        StmtKind::Expr(e) => expr_leaves(e),
        _ => false,
    }
}

/// Every path through the expression returns, breaks or continues.
pub open spec fn expr_leaves(e: Expr) -> bool
    decreases e, 0nat,
{
    match e.kind {
        ExprKind::Block(b) => block_leaves(b),
        ExprKind::If { then, else_branch, .. } => match else_branch {
            Some(x) => block_leaves(then) && expr_leaves(*x),
            None => false,
        },
        ExprKind::Match { arms, .. } => arms@.len() > 0 && arms_leave(arms@, 0),
        _ => false,
    }
}

pub open spec fn arms_leave(arms: Seq<MatchArm>, i: nat) -> bool
    decreases arms, arms.len() - i,
{
    i >= arms.len() || (expr_leaves(arms[i as int].body) && arms_leave(arms, i + 1))
}

#[verifier::loop_isolation(false)]
pub fn block_diverges(b: &Block) -> (r: bool)
    ensures
        r == block_leaves(*b),
    decreases b,
{
    let mut i: usize = 0;
    while i < b.stmts.len()
        invariant
            i <= b.stmts@.len(),
            stmts_leave(b.stmts@, 0) == stmts_leave(b.stmts@, i as nat),
        decreases b.stmts@.len() - i,
    {
        if stmt_diverges(&b.stmts[i]) {
            return true;
        }
        i += 1;
    }
    match &b.tail {
        Some(t) => expr_diverges(t),
        None => false,
    }
}

fn stmt_diverges(s: &Stmt) -> (r: bool)
    ensures
        r == stmt_leaves(*s),
    decreases s,
{
    match &s.kind {
        StmtKind::Return(_) => true,
        StmtKind::Break => true,
        StmtKind::Continue => true,
        StmtKind::Expr(e) => expr_diverges(e),
        _ => false,
    }
}

#[verifier::loop_isolation(false)]
pub fn expr_diverges(e: &Expr) -> (r: bool)
    ensures
        r == expr_leaves(*e),
    decreases e,
{
    match &e.kind {
        ExprKind::Block(b) => block_diverges(b),
        ExprKind::If { then, else_branch, .. } => match else_branch {
            Some(x) => block_diverges(then) && expr_diverges(x),
            None => false,
        },
        ExprKind::Match { arms, .. } => {
            let mut i: usize = 0;
            while i < arms.len()
                invariant
                    i <= arms@.len(),
                    arms_leave(arms@, 0) == arms_leave(arms@, i as nat),
                decreases arms@.len() - i,
            {
                if !expr_diverges(&arms[i].body) {
                    return false;
                }
                i += 1;
            }
            arms.len() > 0
        },
        _ => false,
    }
}

} // verus!
