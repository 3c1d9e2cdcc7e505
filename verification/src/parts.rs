//! What stands inside an expression, a statement or a block.
use vstd::prelude::*;
use crate::place;
use crate::ast::{AsmOperand, Block, Expr, ExprKind, FieldInit, ForLoop, InterpStrPart, MatchArm, Stmt, StmtKind};

verus! {

/// A part of a body.
pub enum Node {
    Expr(Expr),
    Stmt(Stmt),
    Block(Block),
}

/// The part stands in the expression, at any depth. Where `deep` is not set, a chain of fields
/// and indices that names a place counts as one: only its last index has parts.
pub open spec fn in_expr(e: Expr, n: Node, deep: bool) -> bool
    decreases e, 0nat,
{
    n == Node::Expr(e) || match e.kind {
        ExprKind::Intrinsic { args, .. } => in_exprs(args@, n, deep, 0),
        ExprKind::Asm { operands, .. } => in_operands(operands@, n, deep, 0),
        ExprKind::InterpStr { parts } => in_text_parts(parts@, n, deep, 0),
        ExprKind::Field { receiver, .. } => (deep || place::place_of(e) is None) && in_expr(*receiver, n, deep),
        ExprKind::Index { receiver, index } => in_expr(*index, n, deep) || ((deep || place::place_of(e) is None) && in_expr(
            *receiver,
            n,
            deep,
        )),
        ExprKind::Block(b) => in_block(b, n, deep),
        ExprKind::Await(inner) => in_expr(*inner, n, deep),
        ExprKind::Yield(inner) => in_expr(*inner, n, deep),
        ExprKind::If { cond, then, else_branch } => {
            ||| in_expr(*cond, n, deep)
            ||| in_block(then, n, deep)
            ||| match else_branch {
                Some(x) => in_expr(*x, n, deep),
                None => false,
            }
        },
        ExprKind::Call { callee, args, .. } => in_expr(*callee, n, deep) || in_exprs(args@, n, deep, 0),
        ExprKind::Binary { lhs, rhs, .. } => in_expr(*lhs, n, deep) || in_expr(*rhs, n, deep),
        ExprKind::Unary { operand, .. } => in_expr(*operand, n, deep),
        ExprKind::Range { start, end, .. } => {
            ||| match start {
                Some(x) => in_expr(*x, n, deep),
                None => false,
            }
            ||| match end {
                Some(x) => in_expr(*x, n, deep),
                None => false,
            }
        },
        ExprKind::Assign { target, value, .. } => in_expr(*target, n, deep) || in_expr(*value, n, deep),
        ExprKind::Cast { expr, .. } => in_expr(*expr, n, deep),
        ExprKind::CastChecked { expr, .. } => in_expr(*expr, n, deep),
        ExprKind::StructLit { fields, .. } => in_fields(fields@, n, deep, 0),
        ExprKind::InferredStructLit { fields } => in_fields(fields@, n, deep, 0),
        ExprKind::GenericStructLit { fields, .. } => in_fields(fields@, n, deep, 0),
        ExprKind::ArrayFill { fill, .. } => in_expr(*fill, n, deep),
        ExprKind::GenericEnumCall { args, .. } => in_exprs(args@, n, deep, 0),
        ExprKind::ArrayLit { elements } => in_exprs(elements@, n, deep, 0),
        ExprKind::TupleLit { elements } => in_exprs(elements@, n, deep, 0),
        ExprKind::Match { scrutinee, arms } => in_expr(*scrutinee, n, deep) || in_arms(arms@, n, deep, 0),
        _ => false,
    }
}

pub open spec fn in_exprs(es: Seq<Expr>, n: Node, deep: bool, i: nat) -> bool
    decreases es, es.len() - i,
{
    i < es.len() && (in_expr(es[i as int], n, deep) || in_exprs(es, n, deep, i + 1))
}

pub open spec fn in_fields(fs: Seq<FieldInit>, n: Node, deep: bool, i: nat) -> bool
    decreases fs, fs.len() - i,
{
    i < fs.len() && (in_expr(fs[i as int].value, n, deep) || in_fields(fs, n, deep, i + 1))
}

pub open spec fn in_arms(arms: Seq<MatchArm>, n: Node, deep: bool, i: nat) -> bool
    decreases arms, arms.len() - i,
{
    i < arms.len() && (in_expr(arms[i as int].body, n, deep) || in_arms(arms, n, deep, i + 1))
}

pub open spec fn in_operands(ops: Seq<AsmOperand>, n: Node, deep: bool, i: nat) -> bool
    decreases ops, ops.len() - i,
{
    i < ops.len() && (in_expr(ops[i as int].value, n, deep) || in_operands(ops, n, deep, i + 1))
}

pub open spec fn in_text_parts(ps: Seq<InterpStrPart>, n: Node, deep: bool, i: nat) -> bool
    decreases ps, ps.len() - i,
{
    i < ps.len() && ((match ps[i as int] {
        InterpStrPart::Expr(e) => in_expr(e, n, deep),
        InterpStrPart::Text(_) => false,
    }) || in_text_parts(ps, n, deep, i + 1))
}

/// The part stands in the statement, at any depth.
pub open spec fn in_stmt(s: Stmt, n: Node, deep: bool) -> bool
    decreases s, 0nat,
{
    n == Node::Stmt(s) || match s.kind {
        StmtKind::Let { init, .. } => match init {
            Some(e) => in_expr(e, n, deep),
            None => false,
        },
        StmtKind::LetDestructure { init, .. } => in_expr(init, n, deep),
        StmtKind::Return(value) => match value {
            Some(e) => in_expr(e, n, deep),
            None => false,
        },
        StmtKind::Expr(e) => in_expr(e, n, deep),
        StmtKind::Defer(e) => in_expr(e, n, deep),
        StmtKind::Assert(e) => in_expr(e, n, deep),
        StmtKind::While { cond, body } => in_expr(cond, n, deep) || in_block(body, n, deep),
        StmtKind::Loop(b) => in_block(b, n, deep),
        StmtKind::For(fl) => in_for(fl, n, deep),
        _ => false,
    }
}

pub open spec fn in_for(fl: ForLoop, n: Node, deep: bool) -> bool
    decreases fl, 0nat,
{
    match fl {
        ForLoop::CStyle { init, cond, update, body } => {
            ||| match init {
                Some(s) => in_stmt(*s, n, deep),
                None => false,
            }
            ||| match cond {
                Some(c) => in_expr(c, n, deep),
                None => false,
            }
            ||| in_exprs(update@, n, deep, 0)
            ||| in_block(body, n, deep)
        },
        ForLoop::Range { iter, body, .. } => in_expr(iter, n, deep) || in_block(body, n, deep),
    }
}

pub open spec fn in_stmts(ss: Seq<Stmt>, n: Node, deep: bool, i: nat) -> bool
    decreases ss, ss.len() - i,
{
    i < ss.len() && (in_stmt(ss[i as int], n, deep) || in_stmts(ss, n, deep, i + 1))
}

/// The part stands in the block, at any depth.
pub open spec fn in_block(b: Block, n: Node, deep: bool) -> bool
    decreases b, 0nat,
{
    n == Node::Block(b) || in_stmts(b.stmts@, n, deep, 0) || match b.tail {
        Some(t) => in_expr(*t, n, deep),
        None => false,
    }
}

} // verus!
