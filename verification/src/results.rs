//! Where a body gives its results.
use vstd::prelude::*;
use crate::borrowck;
use crate::elision;
use crate::parts;
use crate::place;
use crate::walks;
use crate::ast::{Block, Expr, ExprKind, FieldInit, ForLoop, Function, ImplBlock, MatchArm, Method, Param, Receiver, Stmt, StmtKind, Type};
use crate::elision::{BorrowFlavor, ReturnBorrowSourceV};
use crate::oracle::OracleV;
use crate::parts::Node;
use crate::sigs::FnEntryV;

verus! {

/// The part is a `return` of the value.
pub open spec fn is_return(n: Node, v: Option<Expr>) -> bool {
    n matches Node::Stmt(s) && s.kind == StmtKind::Return(v)
}

pub open spec fn is_value(r: Option<&Expr>, v: Option<Expr>) -> bool {
    match r {
        Some(x) => v == Some(*x),
        None => v is None,
    }
}

/// The value is one of those that are given.
pub open spec fn gives(rs: Seq<Option<&Expr>>, v: Option<Expr>) -> bool {
    exists|k: int| 0 <= k < rs.len() && is_value(#[trigger] rs[k], v)
}

proof fn lemma_gives(a: Seq<Option<&Expr>>, b: Seq<Option<&Expr>>, v: Option<Expr>)
    requires
        a.len() <= b.len(),
        forall|k: int| 0 <= k < a.len() ==> #[trigger] b[k] == a[k],
    ensures
        gives(a, v) ==> gives(b, v),
{
    if gives(a, v) {
        let k = choose|k: int| 0 <= k < a.len() && is_value(#[trigger] a[k], v);
        assert(is_value(b[k], v));
    }
}

/// An expression in which results are looked for: all but tuples, filled arrays, checked casts,
/// `await`, `yield`, interpolated strings, intrinsics and assembly.
pub open spec fn is_searched(x: Expr) -> bool {
    !(x.kind is TupleLit || x.kind is ArrayFill || x.kind is CastChecked || x.kind is Await || x.kind is Yield || x.kind is InterpStr
        || x.kind is Intrinsic || x.kind is Asm)
}

/// The statement is no `return`, or is the part itself.
pub open spec fn ends_with(s: Stmt, n: Node) -> bool {
    !(s.kind is Return) || n == Node::Stmt(s)
}

/// The part does not stand in the value of another `return`.
pub open spec fn is_outermost(b: Block, n: Node) -> bool {
    forall|x: Stmt| parts::in_block(b, Node::Stmt(x), true) && parts::in_stmt(x, n, true) ==> #[trigger] ends_with(x, n)
}

/// A block or a branch.
pub open spec fn is_branching(x: Expr) -> bool {
    x.kind is Block || x.kind is If || x.kind is Match
}

/// The expressions of the body around the part are all such that results are looked for in them.
pub open spec fn is_reached(b: Block, n: Node) -> bool {
    forall|x: Expr| parts::in_block(b, Node::Expr(x), true) && parts::in_expr(x, n, true) ==> #[trigger] is_searched(x)
}

/// Only blocks and branches of the body stand around the part.
pub open spec fn is_on_the_way(b: Block, n: Node) -> bool {
    forall|x: Expr| parts::in_block(b, Node::Expr(x), true) && parts::in_expr(x, n, true) ==> #[trigger] is_branching(x)
}

proof fn returned_exprs(acc: Seq<Option<&Expr>>, es: Seq<Expr>, i: nat, n: Node, v: Option<Expr>)
    requires
        is_return(n, v),
        forall|x: Expr| parts::in_exprs(es, Node::Expr(x), true, i) && parts::in_expr(x, n, true) ==> #[trigger] is_searched(x),
        forall|x: Stmt| parts::in_exprs(es, Node::Stmt(x), true, i) && parts::in_stmt(x, n, true) ==> #[trigger] ends_with(x, n),
    ensures
        gives(acc, v) || parts::in_exprs(es, n, true, i) ==> gives(elision::returns_exprs(acc, es, i), v),
    decreases es, es.len() - i,
{
    if i < es.len() {
        returned_expr(acc, es[i as int], n, v);
        returned_exprs(elision::returns_expr(acc, &es[i as int]), es, i + 1, n, v);
    }
}

proof fn returned_fields(acc: Seq<Option<&Expr>>, es: Seq<FieldInit>, i: nat, n: Node, v: Option<Expr>)
    requires
        is_return(n, v),
        forall|x: Expr| parts::in_fields(es, Node::Expr(x), true, i) && parts::in_expr(x, n, true) ==> #[trigger] is_searched(x),
        forall|x: Stmt| parts::in_fields(es, Node::Stmt(x), true, i) && parts::in_stmt(x, n, true) ==> #[trigger] ends_with(x, n),
    ensures
        gives(acc, v) || parts::in_fields(es, n, true, i) ==> gives(elision::returns_fields(acc, es, i), v),
    decreases es, es.len() - i,
{
    if i < es.len() {
        returned_expr(acc, es[i as int].value, n, v);
        returned_fields(elision::returns_expr(acc, &es[i as int].value), es, i + 1, n, v);
    }
}

proof fn returned_arms(acc: Seq<Option<&Expr>>, es: Seq<MatchArm>, i: nat, n: Node, v: Option<Expr>)
    requires
        is_return(n, v),
        forall|x: Expr| parts::in_arms(es, Node::Expr(x), true, i) && parts::in_expr(x, n, true) ==> #[trigger] is_searched(x),
        forall|x: Stmt| parts::in_arms(es, Node::Stmt(x), true, i) && parts::in_stmt(x, n, true) ==> #[trigger] ends_with(x, n),
    ensures
        gives(acc, v) || parts::in_arms(es, n, true, i) ==> gives(elision::returns_arms(acc, es, i), v),
    decreases es, es.len() - i,
{
    if i < es.len() {
        returned_expr(acc, es[i as int].body, n, v);
        returned_arms(elision::returns_expr(acc, &es[i as int].body), es, i + 1, n, v);
    }
}

proof fn returned_stmts(acc: Seq<Option<&Expr>>, es: Seq<Stmt>, i: nat, n: Node, v: Option<Expr>)
    requires
        is_return(n, v),
        forall|x: Expr| parts::in_stmts(es, Node::Expr(x), true, i) && parts::in_expr(x, n, true) ==> #[trigger] is_searched(x),
        forall|x: Stmt| parts::in_stmts(es, Node::Stmt(x), true, i) && parts::in_stmt(x, n, true) ==> #[trigger] ends_with(x, n),
    ensures
        gives(acc, v) || parts::in_stmts(es, n, true, i) ==> gives(elision::returns_stmts(acc, es, i), v),
    decreases es, es.len() - i,
{
    if i < es.len() {
        returned_stmt(acc, es[i as int], n, v);
        returned_stmts(elision::returns_stmt(acc, &es[i as int]), es, i + 1, n, v);
    }
}

proof fn returned_expr(acc: Seq<Option<&Expr>>, e: Expr, n: Node, v: Option<Expr>)
    requires
        is_return(n, v),
        forall|x: Expr| parts::in_expr(e, Node::Expr(x), true) && parts::in_expr(x, n, true) ==> #[trigger] is_searched(x),
        forall|x: Stmt| parts::in_expr(e, Node::Stmt(x), true) && parts::in_stmt(x, n, true) ==> #[trigger] ends_with(x, n),
    ensures
        gives(acc, v) || parts::in_expr(e, n, true) ==> gives(elision::returns_expr(acc, &e), v),
    decreases e, 0nat,
{
    assert(parts::in_expr(e, Node::Expr(e), true));
    assert(parts::in_expr(e, n, true) ==> is_searched(e));
    match e.kind {
        ExprKind::Block(b) => {
            returned_block(acc, b, n, v);
        },
        ExprKind::Match { scrutinee, arms } => {
            returned_expr(acc, *scrutinee, n, v);
            returned_arms(elision::returns_expr(acc, &*scrutinee), arms@, 0, n, v);
        },
        ExprKind::Call { callee, args, .. } => {
            returned_expr(acc, *callee, n, v);
            returned_exprs(elision::returns_expr(acc, &*callee), args@, 0, n, v);
        },
        ExprKind::Binary { lhs, rhs, .. } => {
            returned_expr(acc, *lhs, n, v);
            returned_expr(elision::returns_expr(acc, &*lhs), *rhs, n, v);
        },
        ExprKind::Unary { operand: x, .. } => {
            returned_expr(acc, *x, n, v);
        },
        ExprKind::Assign { target, value, .. } => {
            returned_expr(acc, *target, n, v);
            returned_expr(elision::returns_expr(acc, &*target), *value, n, v);
        },
        ExprKind::Cast { expr: x, .. } => {
            returned_expr(acc, *x, n, v);
        },
        ExprKind::StructLit { fields, .. } => {
            returned_fields(acc, fields@, 0, n, v);
        },
        ExprKind::InferredStructLit { fields } => {
            returned_fields(acc, fields@, 0, n, v);
        },
        ExprKind::GenericStructLit { fields, .. } => {
            returned_fields(acc, fields@, 0, n, v);
        },
        ExprKind::Field { receiver: x, .. } => {
            returned_expr(acc, *x, n, v);
        },
        ExprKind::ArrayLit { elements: es } => {
            returned_exprs(acc, es@, 0, n, v);
        },
        ExprKind::GenericEnumCall { args: es, .. } => {
            returned_exprs(acc, es@, 0, n, v);
        },
        ExprKind::Index { receiver, index } => {
            returned_expr(acc, *receiver, n, v);
            returned_expr(elision::returns_expr(acc, &*receiver), *index, n, v);
        },
        ExprKind::If { cond, then, else_branch } => {
            returned_expr(acc, *cond, n, v);
            let b = elision::returns_expr(acc, &*cond);
            returned_block(b, then, n, v);
            if let Some(x) = else_branch {
                returned_expr(elision::returns_block(b, &then), *x, n, v);
            }
        },
        ExprKind::Range { start, end, .. } => {
            let b = match start {
                Some(x) => elision::returns_expr(acc, &*x),
                None => acc,
            };
            if let Some(x) = start {
                returned_expr(acc, *x, n, v);
            }
            if let Some(x) = end {
                returned_expr(b, *x, n, v);
            }
        },
        _ => {},
    }
}

proof fn returned_stmt(acc: Seq<Option<&Expr>>, s: Stmt, n: Node, v: Option<Expr>)
    requires
        is_return(n, v),
        forall|x: Expr| parts::in_stmt(s, Node::Expr(x), true) && parts::in_expr(x, n, true) ==> #[trigger] is_searched(x),
        forall|x: Stmt| parts::in_stmt(s, Node::Stmt(x), true) && parts::in_stmt(x, n, true) ==> #[trigger] ends_with(x, n),
    ensures
        gives(acc, v) || parts::in_stmt(s, n, true) ==> gives(elision::returns_stmt(acc, &s), v),
    decreases s, 0nat,
{
    assert(parts::in_stmt(s, Node::Stmt(s), true));
    assert(parts::in_stmt(s, n, true) ==> ends_with(s, n));
    match s.kind {
        StmtKind::Return(o) => {
            lemma_gives(acc, elision::returns_stmt(acc, &s), v);
            if n == Node::Stmt(s) {
                assert(gives(elision::returns_stmt(acc, &s), v)) by {
                    assert(is_value(elision::returns_stmt(acc, &s)[acc.len() as int], v));
                }
            }
        },
        StmtKind::Let { init: o, .. } => {
            if let Some(x) = o {
                returned_expr(acc, x, n, v);
            }
        },
        StmtKind::LetDestructure { init: x, .. } => {
            returned_expr(acc, x, n, v);
        },
        StmtKind::Expr(x) => {
            returned_expr(acc, x, n, v);
        },
        StmtKind::Defer(x) => {
            returned_expr(acc, x, n, v);
        },
        StmtKind::Assert(x) => {
            returned_expr(acc, x, n, v);
        },
        StmtKind::While { cond, body } => {
            returned_expr(acc, cond, n, v);
            returned_block(elision::returns_expr(acc, &cond), body, n, v);
        },
        StmtKind::Loop(b) => {
            returned_block(acc, b, n, v);
        },
        StmtKind::For(fl) => {
            returned_for(acc, fl, n, v);
        },
        _ => {},
    }
}

proof fn returned_for(acc: Seq<Option<&Expr>>, fl: ForLoop, n: Node, v: Option<Expr>)
    requires
        is_return(n, v),
        forall|x: Expr| parts::in_for(fl, Node::Expr(x), true) && parts::in_expr(x, n, true) ==> #[trigger] is_searched(x),
        forall|x: Stmt| parts::in_for(fl, Node::Stmt(x), true) && parts::in_stmt(x, n, true) ==> #[trigger] ends_with(x, n),
    ensures
        gives(acc, v) || parts::in_for(fl, n, true) ==> gives(elision::returns_for(acc, &fl), v),
    decreases fl, 0nat,
{
    match fl {
        ForLoop::CStyle { init, cond, update, body } => {
            let a = match init {
                Some(x) => elision::returns_stmt(acc, &*x),
                None => acc,
            };
            if let Some(x) = init {
                returned_stmt(acc, *x, n, v);
            }
            let b = match cond {
                Some(x) => elision::returns_expr(a, &x),
                None => a,
            };
            if let Some(x) = cond {
                returned_expr(a, x, n, v);
            }
            returned_exprs(b, update@, 0, n, v);
            returned_block(elision::returns_exprs(b, update@, 0), body, n, v);
        },
        ForLoop::Range { iter, body, .. } => {
            returned_expr(acc, iter, n, v);
            returned_block(elision::returns_expr(acc, &iter), body, n, v);
        },
    }
}

proof fn returned_block(acc: Seq<Option<&Expr>>, b: Block, n: Node, v: Option<Expr>)
    requires
        is_return(n, v),
        forall|x: Expr| parts::in_block(b, Node::Expr(x), true) && parts::in_expr(x, n, true) ==> #[trigger] is_searched(x),
        forall|x: Stmt| parts::in_block(b, Node::Stmt(x), true) && parts::in_stmt(x, n, true) ==> #[trigger] ends_with(x, n),
    ensures
        gives(acc, v) || parts::in_block(b, n, true) ==> gives(elision::returns_block(acc, &b), v),
    decreases b, 0nat,
{
    returned_stmts(acc, b.stmts@, 0, n, v);
    if let Some(x) = b.tail {
        returned_expr(elision::returns_stmts(acc, b.stmts@, 0), *x, n, v);
    }
}

proof fn left_exprs(acc: Seq<Option<&Expr>>, es: Seq<Expr>, i: nat, n: Node, v: Option<Expr>)
    requires
        is_return(n, v),
        forall|x: Expr| parts::in_exprs(es, Node::Expr(x), true, i) && parts::in_expr(x, n, true) ==> #[trigger] is_branching(x),
        forall|x: Stmt| parts::in_exprs(es, Node::Stmt(x), true, i) && parts::in_stmt(x, n, true) ==> #[trigger] ends_with(x, n),
    ensures
        gives(acc, v) || parts::in_exprs(es, n, true, i) ==> gives(walks::exits_exprs(acc, es, i), v),
    decreases es, es.len() - i,
{
    if i < es.len() {
        left_expr(acc, es[i as int], n, v);
        left_exprs(walks::exits_expr(acc, &es[i as int]), es, i + 1, n, v);
    }
}

proof fn left_arms(acc: Seq<Option<&Expr>>, es: Seq<MatchArm>, i: nat, n: Node, v: Option<Expr>)
    requires
        is_return(n, v),
        forall|x: Expr| parts::in_arms(es, Node::Expr(x), true, i) && parts::in_expr(x, n, true) ==> #[trigger] is_branching(x),
        forall|x: Stmt| parts::in_arms(es, Node::Stmt(x), true, i) && parts::in_stmt(x, n, true) ==> #[trigger] ends_with(x, n),
    ensures
        gives(acc, v) || parts::in_arms(es, n, true, i) ==> gives(walks::exits_arms(acc, es, i), v),
    decreases es, es.len() - i,
{
    if i < es.len() {
        left_expr(acc, es[i as int].body, n, v);
        left_arms(walks::exits_expr(acc, &es[i as int].body), es, i + 1, n, v);
    }
}

proof fn left_stmts(acc: Seq<Option<&Expr>>, es: Seq<Stmt>, i: nat, n: Node, v: Option<Expr>)
    requires
        is_return(n, v),
        forall|x: Expr| parts::in_stmts(es, Node::Expr(x), true, i) && parts::in_expr(x, n, true) ==> #[trigger] is_branching(x),
        forall|x: Stmt| parts::in_stmts(es, Node::Stmt(x), true, i) && parts::in_stmt(x, n, true) ==> #[trigger] ends_with(x, n),
    ensures
        gives(acc, v) || parts::in_stmts(es, n, true, i) ==> gives(walks::exits_stmts(acc, es, i), v),
    decreases es, es.len() - i,
{
    if i < es.len() {
        left_stmt(acc, es[i as int], n, v);
        left_stmts(walks::exits_stmt(acc, &es[i as int]), es, i + 1, n, v);
    }
}

proof fn left_expr(acc: Seq<Option<&Expr>>, e: Expr, n: Node, v: Option<Expr>)
    requires
        is_return(n, v),
        forall|x: Expr| parts::in_expr(e, Node::Expr(x), true) && parts::in_expr(x, n, true) ==> #[trigger] is_branching(x),
        forall|x: Stmt| parts::in_expr(e, Node::Stmt(x), true) && parts::in_stmt(x, n, true) ==> #[trigger] ends_with(x, n),
    ensures
        gives(acc, v) || parts::in_expr(e, n, true) ==> gives(walks::exits_expr(acc, &e), v),
    decreases e, 0nat,
{
    assert(parts::in_expr(e, Node::Expr(e), true));
    assert(parts::in_expr(e, n, true) ==> is_branching(e));
    match e.kind {
        ExprKind::Block(b) => {
            left_block(acc, b, n, v);
        },
        ExprKind::Match { scrutinee, arms } => {
            left_expr(acc, *scrutinee, n, v);
            left_arms(walks::exits_expr(acc, &*scrutinee), arms@, 0, n, v);
        },
        ExprKind::If { cond, then, else_branch } => {
            left_expr(acc, *cond, n, v);
            let b = walks::exits_expr(acc, &*cond);
            left_block(b, then, n, v);
            if let Some(x) = else_branch {
                left_expr(walks::exits_block(b, &then), *x, n, v);
            }
        },
        _ => {},
    }
}

proof fn left_stmt(acc: Seq<Option<&Expr>>, s: Stmt, n: Node, v: Option<Expr>)
    requires
        is_return(n, v),
        forall|x: Expr| parts::in_stmt(s, Node::Expr(x), true) && parts::in_expr(x, n, true) ==> #[trigger] is_branching(x),
        forall|x: Stmt| parts::in_stmt(s, Node::Stmt(x), true) && parts::in_stmt(x, n, true) ==> #[trigger] ends_with(x, n),
    ensures
        gives(acc, v) || parts::in_stmt(s, n, true) ==> gives(walks::exits_stmt(acc, &s), v),
    decreases s, 0nat,
{
    assert(parts::in_stmt(s, Node::Stmt(s), true));
    assert(parts::in_stmt(s, n, true) ==> ends_with(s, n));
    match s.kind {
        StmtKind::Return(o) => {
            lemma_gives(acc, walks::exits_stmt(acc, &s), v);
            if n == Node::Stmt(s) {
                assert(gives(walks::exits_stmt(acc, &s), v)) by {
                    assert(is_value(walks::exits_stmt(acc, &s)[acc.len() as int], v));
                }
            }
        },
        StmtKind::Let { init: o, .. } => {
            if let Some(x) = o {
                left_expr(acc, x, n, v);
            }
        },
        StmtKind::LetDestructure { init: x, .. } => {
            left_expr(acc, x, n, v);
        },
        StmtKind::Expr(x) => {
            left_expr(acc, x, n, v);
        },
        StmtKind::Defer(x) => {
            left_expr(acc, x, n, v);
        },
        StmtKind::Assert(x) => {
            left_expr(acc, x, n, v);
        },
        StmtKind::While { cond, body } => {
            left_expr(acc, cond, n, v);
            left_block(walks::exits_expr(acc, &cond), body, n, v);
        },
        StmtKind::Loop(b) => {
            left_block(acc, b, n, v);
        },
        StmtKind::For(fl) => {
            left_for(acc, fl, n, v);
        },
        _ => {},
    }
}

proof fn left_for(acc: Seq<Option<&Expr>>, fl: ForLoop, n: Node, v: Option<Expr>)
    requires
        is_return(n, v),
        forall|x: Expr| parts::in_for(fl, Node::Expr(x), true) && parts::in_expr(x, n, true) ==> #[trigger] is_branching(x),
        forall|x: Stmt| parts::in_for(fl, Node::Stmt(x), true) && parts::in_stmt(x, n, true) ==> #[trigger] ends_with(x, n),
    ensures
        gives(acc, v) || parts::in_for(fl, n, true) ==> gives(walks::exits_for(acc, &fl), v),
    decreases fl, 0nat,
{
    match fl {
        ForLoop::CStyle { init, cond, update, body } => {
            let a = match init {
                Some(x) => walks::exits_stmt(acc, &*x),
                None => acc,
            };
            if let Some(x) = init {
                left_stmt(acc, *x, n, v);
            }
            let b = match cond {
                Some(x) => walks::exits_expr(a, &x),
                None => a,
            };
            if let Some(x) = cond {
                left_expr(a, x, n, v);
            }
            left_exprs(b, update@, 0, n, v);
            left_block(walks::exits_exprs(b, update@, 0), body, n, v);
        },
        ForLoop::Range { iter, body, .. } => {
            left_expr(acc, iter, n, v);
            left_block(walks::exits_expr(acc, &iter), body, n, v);
        },
    }
}

proof fn left_block(acc: Seq<Option<&Expr>>, b: Block, n: Node, v: Option<Expr>)
    requires
        is_return(n, v),
        forall|x: Expr| parts::in_block(b, Node::Expr(x), true) && parts::in_expr(x, n, true) ==> #[trigger] is_branching(x),
        forall|x: Stmt| parts::in_block(b, Node::Stmt(x), true) && parts::in_stmt(x, n, true) ==> #[trigger] ends_with(x, n),
    ensures
        gives(acc, v) || parts::in_block(b, n, true) ==> gives(walks::exits_block(acc, &b), v),
    decreases b, 0nat,
{
    left_stmts(acc, b.stmts@, 0, n, v);
    if let Some(x) = b.tail {
        left_expr(walks::exits_stmts(acc, b.stmts@, 0), *x, n, v);
    }
}

/// Every `return` of a body is found, however deep in loops, branches and blocks it stands.
pub proof fn returns_are_found(b: Block, n: Node, v: Option<Expr>)
    requires
        is_return(n, v),
        parts::in_block(b, n, true),
        is_reached(b, n),
        is_outermost(b, n),
    ensures
        gives(elision::returns_of(b), v),
{
    returned_block(Seq::empty(), b, n, v);
}

/// Where a function's result borrows its only parameter for itself, every `return` gives a place
/// in that parameter.
pub proof fn an_exclusive_result_is_a_place_in_the_parameter(f: Function, o: OracleV, p: u32, n: Node, v: Option<Expr>)
    requires
        elision::fn_elision(f, o) == Some((ReturnBorrowSourceV::Param(p), BorrowFlavor::Exclusive)),
        is_return(n, v),
        parts::in_block(f.body, n, true),
        is_reached(f.body, n),
        is_outermost(f.body, n),
    ensures
        p == 0 && f.params@.len() == 1 && f.params@[0].mutable && !f.params@[0].move_,
        v matches Some(e) && place::root_of(e) == Some(f.params@[0].name.name@),
{
    returns_are_found(f.body, n, v);
    let rs = elision::returns_of(f.body);
    let k = choose|k: int| 0 <= k < rs.len() && is_value(#[trigger] rs[k], v);
    assert(elision::returns_root(rs[k], f.params@[0].name.name@));
}

proof fn lemma_returned(ps: Seq<Param>, rs: Seq<Option<&Expr>>, acc: Seq<u32>, i: nat, j: int)
    requires
        ps.len() <= u32::MAX,
        0 <= j < ps.len(),
        acc.contains(j as u32) || (i <= j && elision::first_of_name(ps, j) && elision::is_returned(rs, ps[j].name.name@)),
    ensures
        elision::returned_params(ps, rs, acc, i).contains(j as u32),
    decreases ps.len() - i,
{
    if i < ps.len() {
        let hit = elision::first_of_name(ps, i as int) && elision::is_returned(rs, ps[i as int].name.name@);
        let next = if hit {
            acc.push(i as u32)
        } else {
            acc
        };
        assert(next.contains(j as u32) || (i + 1 <= j && !acc.contains(j as u32))) by {
            if acc.contains(j as u32) {
                let k = choose|k: int| 0 <= k < acc.len() && acc[k] == j as u32;
                assert(next[k] == j as u32);
            } else if i == j {
                assert(next[acc.len() as int] == j as u32);
            }
        }
        lemma_returned(ps, rs, next, i + 1, j);
    }
}

/// Where a function's result borrows one of several parameters for itself, every parameter of
/// which some `return` gives a place is among them.
pub proof fn exclusive_results_name_what_they_return(
    f: Function,
    o: OracleV,
    ix: Seq<u32>,
    n: Node,
    e: Expr,
    j: int,
)
    requires
        elision::fn_elision(f, o) == Some((ReturnBorrowSourceV::MultiParam(ix), BorrowFlavor::Exclusive)),
        f.params@.len() <= u32::MAX,
        is_return(n, Some(e)),
        parts::in_block(f.body, n, true),
        is_reached(f.body, n),
        is_outermost(f.body, n),
        0 <= j < f.params@.len(),
        place::root_of(e) == Some(f.params@[j].name.name@),
        forall|m: int| 0 <= m < j ==> (#[trigger] f.params@[m]).name.name@ != f.params@[j].name.name@,
    ensures
        ix.contains(j as u32),
{
    returns_are_found(f.body, n, Some(e));
    let rs = elision::returns_of(f.body);
    let k = choose|k: int| 0 <= k < rs.len() && is_value(#[trigger] rs[k], Some(e));
    assert(elision::returns_root(rs[k], f.params@[j].name.name@));
    assert(elision::is_returned(rs, f.params@[j].name.name@));
    lemma_returned(f.params@, rs, Seq::empty(), 0, j);
}

/// Where a method's result borrows the receiver for itself, every `return` gives a place in the
/// receiver.
pub proof fn an_exclusive_result_is_a_place_in_the_receiver(b: ImplBlock, m: Method, o: OracleV, n: Node, v: Option<Expr>)
    requires
        elision::method_elision(b, m, o) == Some((ReturnBorrowSourceV::SelfReceiver, BorrowFlavor::Exclusive)),
        is_return(n, v),
        parts::in_block(m.body, n, true),
        is_reached(m.body, n),
        is_outermost(m.body, n),
    ensures
        m.receiver == Some(Receiver::Mut),
        v matches Some(e) && place::root_of(e) == Some("self"@),
{
    returns_are_found(m.body, n, v);
    let rs = elision::returns_of(m.body);
    let k = choose|k: int| 0 <= k < rs.len() && is_value(#[trigger] rs[k], v);
    assert(elision::returns_root(rs[k], "self"@));
}

/// A function without parameters has nothing that its result could borrow.
pub proof fn results_without_parameters_borrow_nothing(f: Function, o: OracleV)
    requires
        f.params@.len() == 0,
    ensures
        elision::fn_elision(f, o) is None,
{
}

/// A `return` of a place in a parameter counts wherever in branches, loops and blocks it stands:
/// a result that may come from either of several lent parameters, and of which no borrow is
/// known, is ambiguous.
pub proof fn returns_of_parameters_are_ambiguous(
    ps: Seq<Param>,
    ret: Option<Type>,
    b: Block,
    entry: FnEntryV,
    o: OracleV,
    n: Node,
    e: Expr,
    j: int,
)
    requires
        ps.len() >= 2,
        forall|i: int| 0 <= i < ps.len() ==> !(#[trigger] ps[i]).move_ && o.non_copy(ps[i].ty@),
        ret matches Some(t) && o.non_copy(t@),
        entry.return_borrow is None,
        is_return(n, Some(e)),
        parts::in_block(b, n, true),
        is_on_the_way(b, n),
        is_outermost(b, n),
        0 <= j < ps.len(),
        place::root_of(e) == Some(ps[j].name.name@),
    ensures
        borrowck::ambiguous(ps, ret, b, Some(entry), o),
{
    left_block(Seq::empty(), b, n, Some(e));
    let rs = walks::exits_block(Seq::empty(), &b);
    let k = choose|k: int| 0 <= k < rs.len() && is_value(#[trigger] rs[k], Some(e));
    assert(borrowck::is_param(ps, ps[j].name.name@));
    assert(borrowck::roots_in_param(ps, rs[k]));
}

} // verus!
