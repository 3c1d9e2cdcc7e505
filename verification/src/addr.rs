//! Functions that are used as values.
use vstd::prelude::*;
use crate::ast::{AsmOperand, Block, Expr, ExprKind, FieldInit, ForLoop, InterpStrPart, Item, ItemKind, MatchArm, Method, Program, Stmt, StmtKind};
use crate::table::NameSet;

verus! {

/// Adds the functions whose names an expression uses as values.
pub open spec fn taken_expr(acc: Set<Seq<char>>, fns: Set<Seq<char>>, e: &Expr) -> Set<Seq<char>>
    decreases e, 0nat,
{
    match e.kind {
        ExprKind::Ident(n) => if fns.contains(n@) {
            acc.insert(n@)
        } else {
            acc
        },
        ExprKind::FnRef { callee, .. } => match callee.kind {
            ExprKind::Ident(n) => acc.insert(n@),
            _ => acc,
        },
        ExprKind::Call { callee, args, .. } => {
            let acc = match callee.kind {
                ExprKind::Field { receiver, .. } => taken_expr(acc, fns, &*receiver),
                ExprKind::Ident(_) => acc,
                ExprKind::Path { .. } => acc,
                _ => taken_expr(acc, fns, &*callee),
            };
            taken_exprs(acc, fns, args@, 0)
        },
        ExprKind::Assign { target, value, .. } => taken_expr(taken_expr(acc, fns, &*target), fns, &*value),
        ExprKind::Field { receiver, .. } => taken_expr(acc, fns, &*receiver),
        ExprKind::Index { receiver, index } => taken_expr(taken_expr(acc, fns, &*receiver), fns, &*index),
        ExprKind::Cast { expr, .. } => taken_expr(acc, fns, &*expr),
        ExprKind::CastChecked { expr, .. } => taken_expr(acc, fns, &*expr),
        ExprKind::Range { start, end, .. } => {
            let acc = match start {
                Some(x) => taken_expr(acc, fns, &*x),
                None => acc,
            };
            match end {
                Some(x) => taken_expr(acc, fns, &*x),
                None => acc,
            }
        },
        ExprKind::Unary { operand, .. } => taken_expr(acc, fns, &*operand),
        ExprKind::Binary { lhs, rhs, .. } => taken_expr(taken_expr(acc, fns, &*lhs), fns, &*rhs),
        ExprKind::StructLit { fields, .. } => taken_fields(acc, fns, fields@, 0),
        ExprKind::InferredStructLit { fields } => taken_fields(acc, fns, fields@, 0),
        ExprKind::GenericStructLit { fields, .. } => taken_fields(acc, fns, fields@, 0),
        ExprKind::ArrayLit { elements } => taken_exprs(acc, fns, elements@, 0),
        ExprKind::TupleLit { elements } => taken_exprs(acc, fns, elements@, 0),
        ExprKind::GenericEnumCall { args, .. } => taken_exprs(acc, fns, args@, 0),
        ExprKind::ArrayFill { fill, .. } => taken_expr(acc, fns, &*fill),
        ExprKind::Block(b) => taken_block(acc, fns, &b),
        ExprKind::If { cond, then, else_branch } => (match else_branch {
                Some(x) => taken_expr(taken_block(taken_expr(acc, fns, &*cond), fns, &then), fns, &*x),
                None => taken_block(taken_expr(acc, fns, &*cond), fns, &then),
            }),
        ExprKind::Match { scrutinee, arms } => taken_arms(taken_expr(acc, fns, &*scrutinee), fns, arms@, 0),
        ExprKind::Await(inner) => taken_expr(acc, fns, &*inner),
        ExprKind::Yield(inner) => taken_expr(acc, fns, &*inner),
        ExprKind::InterpStr { parts } => taken_parts(acc, fns, parts@, 0),
        ExprKind::Intrinsic { args, .. } => taken_exprs(acc, fns, args@, 0),
        ExprKind::Asm { operands, .. } => taken_operands(acc, fns, operands@, 0),
        _ => acc,
    }
}

pub open spec fn taken_exprs(acc: Set<Seq<char>>, fns: Set<Seq<char>>, es: Seq<Expr>, i: nat) -> Set<Seq<char>>
    decreases es, es.len() - i,
{
    if i >= es.len() {
        acc
    } else {
        taken_exprs(taken_expr(acc, fns, &es[i as int]), fns, es, i + 1)
    }
}

pub open spec fn taken_fields(acc: Set<Seq<char>>, fns: Set<Seq<char>>, es: Seq<FieldInit>, i: nat) -> Set<Seq<char>>
    decreases es, es.len() - i,
{
    if i >= es.len() {
        acc
    } else {
        taken_fields(taken_expr(acc, fns, &es[i as int].value), fns, es, i + 1)
    }
}

pub open spec fn taken_arms(acc: Set<Seq<char>>, fns: Set<Seq<char>>, es: Seq<MatchArm>, i: nat) -> Set<Seq<char>>
    decreases es, es.len() - i,
{
    if i >= es.len() {
        acc
    } else {
        taken_arms(taken_expr(acc, fns, &es[i as int].body), fns, es, i + 1)
    }
}

pub open spec fn taken_parts(acc: Set<Seq<char>>, fns: Set<Seq<char>>, es: Seq<InterpStrPart>, i: nat) -> Set<Seq<char>>
    decreases es, es.len() - i,
{
    if i >= es.len() {
        acc
    } else {
        taken_parts((match es[i as int] {
                InterpStrPart::Expr(x) => taken_expr(acc, fns, &x),
                InterpStrPart::Text(_) => acc,
            }), fns, es, i + 1)
    }
}

pub open spec fn taken_operands(acc: Set<Seq<char>>, fns: Set<Seq<char>>, es: Seq<AsmOperand>, i: nat) -> Set<Seq<char>>
    decreases es, es.len() - i,
{
    if i >= es.len() {
        acc
    } else {
        taken_operands(taken_expr(acc, fns, &es[i as int].value), fns, es, i + 1)
    }
}

pub open spec fn taken_stmt(acc: Set<Seq<char>>, fns: Set<Seq<char>>, st: &Stmt) -> Set<Seq<char>>
    decreases st, 0nat,
{
    match st.kind {
        StmtKind::Let { init, .. } => (match init {
                Some(x) => taken_expr(acc, fns, &x),
                None => acc,
            }),
        StmtKind::LetDestructure { init, .. } => taken_expr(acc, fns, &init),
        StmtKind::Return(value) => (match value {
                Some(x) => taken_expr(acc, fns, &x),
                None => acc,
            }),
        StmtKind::Expr(e) => taken_expr(acc, fns, &e),
        StmtKind::Defer(e) => taken_expr(acc, fns, &e),
        StmtKind::Assert(e) => taken_expr(acc, fns, &e),
        StmtKind::While { cond, body } => taken_block(taken_expr(acc, fns, &cond), fns, &body),
        StmtKind::Loop(b) => taken_block(acc, fns, &b),
        StmtKind::For(fl) => taken_for(acc, fns, &fl),
        _ => acc,
    }
}

pub open spec fn taken_for(acc: Set<Seq<char>>, fns: Set<Seq<char>>, fl: &ForLoop) -> Set<Seq<char>>
    decreases fl, 0nat,
{
    match fl {
        ForLoop::CStyle { init, cond, update, body } => {
            let a = (match init {
                Some(x) => taken_stmt(acc, fns, &*x),
                None => acc,
            });
            let b = (match cond {
                Some(x) => taken_expr(a, fns, &x),
                None => a,
            });
            taken_block(taken_exprs(b, fns, update@, 0), fns, &body)
        },
        ForLoop::Range { iter, body, .. } => taken_block(taken_expr(acc, fns, &iter), fns, &body),
    }
}

pub open spec fn taken_stmts(acc: Set<Seq<char>>, fns: Set<Seq<char>>, es: Seq<Stmt>, i: nat) -> Set<Seq<char>>
    decreases es, es.len() - i,
{
    if i >= es.len() {
        acc
    } else {
        taken_stmts(taken_stmt(acc, fns, &es[i as int]), fns, es, i + 1)
    }
}

pub open spec fn taken_block(acc: Set<Seq<char>>, fns: Set<Seq<char>>, b: &Block) -> Set<Seq<char>>
    decreases b, 0nat,
{
    let acc = taken_stmts(acc, fns, b.stmts@, 0);
    match b.tail {
        Some(x) => taken_expr(acc, fns, &*x),
        None => acc,
    }
}

fn walk_taken_expr(out: &mut NameSet, fns: &NameSet, e: &Expr)
    ensures
        final(out)@ == taken_expr(old(out)@, fns@, e),
    decreases e,
{
    match &e.kind {
        ExprKind::Ident(n) => {
            if fns.contains(n.as_str()) {
                out.insert(n.clone());
            }
        },
        ExprKind::FnRef { callee, .. } => {
            if let ExprKind::Ident(n) = &callee.kind {
                out.insert(n.clone());
            }
        },
        ExprKind::Call { callee, args, .. } => {
            match &callee.kind {
                ExprKind::Field { receiver, .. } => {
                    walk_taken_expr(out, fns, receiver);
                },
                ExprKind::Ident(_) => {},
                ExprKind::Path { .. } => {},
                _ => {
                    walk_taken_expr(out, fns, callee);
                },
            }
            walk_taken_exprs(out, fns, args);
        },
        ExprKind::Assign { target, value, .. } => {
            walk_taken_expr(out, fns, target);
            walk_taken_expr(out, fns, value);
        },
        ExprKind::Field { receiver, .. } => {
            walk_taken_expr(out, fns, receiver);
        },
        ExprKind::Index { receiver, index } => {
            walk_taken_expr(out, fns, receiver);
            walk_taken_expr(out, fns, index);
        },
        ExprKind::Cast { expr, .. } => {
            walk_taken_expr(out, fns, expr);
        },
        ExprKind::CastChecked { expr, .. } => {
            walk_taken_expr(out, fns, expr);
        },
        ExprKind::Range { start, end, .. } => {
            if let Some(x) = start {
                walk_taken_expr(out, fns, x);
            }
            if let Some(x) = end {
                walk_taken_expr(out, fns, x);
            }
        },
        ExprKind::Unary { operand, .. } => {
            walk_taken_expr(out, fns, operand);
        },
        ExprKind::Binary { lhs, rhs, .. } => {
            walk_taken_expr(out, fns, lhs);
            walk_taken_expr(out, fns, rhs);
        },
        ExprKind::StructLit { fields, .. } => {
            walk_taken_fields(out, fns, fields);
        },
        ExprKind::InferredStructLit { fields } => {
            walk_taken_fields(out, fns, fields);
        },
        ExprKind::GenericStructLit { fields, .. } => {
            walk_taken_fields(out, fns, fields);
        },
        ExprKind::ArrayLit { elements } => {
            walk_taken_exprs(out, fns, elements);
        },
        ExprKind::TupleLit { elements } => {
            walk_taken_exprs(out, fns, elements);
        },
        ExprKind::GenericEnumCall { args, .. } => {
            walk_taken_exprs(out, fns, args);
        },
        ExprKind::ArrayFill { fill, .. } => {
            walk_taken_expr(out, fns, fill);
        },
        ExprKind::Block(b) => {
            walk_taken_block(out, fns, b);
        },
        ExprKind::If { cond, then, else_branch } => {
            walk_taken_expr(out, fns, cond);
            walk_taken_block(out, fns, then);
            if let Some(x) = else_branch {
                walk_taken_expr(out, fns, x);
            }
        },
        ExprKind::Match { scrutinee, arms } => {
            walk_taken_expr(out, fns, scrutinee);
            walk_taken_arms(out, fns, arms);
        },
        ExprKind::Await(inner) => {
            walk_taken_expr(out, fns, inner);
        },
        ExprKind::Yield(inner) => {
            walk_taken_expr(out, fns, inner);
        },
        ExprKind::InterpStr { parts } => {
            walk_taken_parts(out, fns, parts);
        },
        ExprKind::Intrinsic { args, .. } => {
            walk_taken_exprs(out, fns, args);
        },
        ExprKind::Asm { operands, .. } => {
            walk_taken_operands(out, fns, operands);
        },
        _ => {},
    }
}

#[verifier::loop_isolation(false)]
fn walk_taken_exprs(out: &mut NameSet, fns: &NameSet, es: &Vec<Expr>)
    ensures
        final(out)@ == taken_exprs(old(out)@, fns@, es@, 0),
    decreases es,
{
    let mut i: usize = 0;
    while i < es.len()
        invariant
            i <= es@.len(),
            taken_exprs(out@, fns@, es@, i as nat) == taken_exprs(old(out)@, fns@, es@, 0),
        decreases es@.len() - i,
    {
        walk_taken_expr(out, fns, &es[i]);
        i += 1;
    }
}

#[verifier::loop_isolation(false)]
fn walk_taken_fields(out: &mut NameSet, fns: &NameSet, es: &Vec<FieldInit>)
    ensures
        final(out)@ == taken_fields(old(out)@, fns@, es@, 0),
    decreases es,
{
    let mut i: usize = 0;
    while i < es.len()
        invariant
            i <= es@.len(),
            taken_fields(out@, fns@, es@, i as nat) == taken_fields(old(out)@, fns@, es@, 0),
        decreases es@.len() - i,
    {
        walk_taken_expr(out, fns, &es[i].value);
        i += 1;
    }
}

#[verifier::loop_isolation(false)]
fn walk_taken_arms(out: &mut NameSet, fns: &NameSet, es: &Vec<MatchArm>)
    ensures
        final(out)@ == taken_arms(old(out)@, fns@, es@, 0),
    decreases es,
{
    let mut i: usize = 0;
    while i < es.len()
        invariant
            i <= es@.len(),
            taken_arms(out@, fns@, es@, i as nat) == taken_arms(old(out)@, fns@, es@, 0),
        decreases es@.len() - i,
    {
        walk_taken_expr(out, fns, &es[i].body);
        i += 1;
    }
}

#[verifier::loop_isolation(false)]
fn walk_taken_parts(out: &mut NameSet, fns: &NameSet, es: &Vec<InterpStrPart>)
    ensures
        final(out)@ == taken_parts(old(out)@, fns@, es@, 0),
    decreases es,
{
    let mut i: usize = 0;
    while i < es.len()
        invariant
            i <= es@.len(),
            taken_parts(out@, fns@, es@, i as nat) == taken_parts(old(out)@, fns@, es@, 0),
        decreases es@.len() - i,
    {
        if let InterpStrPart::Expr(x) = &es[i] {
            walk_taken_expr(out, fns, x);
        }
        i += 1;
    }
}

#[verifier::loop_isolation(false)]
fn walk_taken_operands(out: &mut NameSet, fns: &NameSet, es: &Vec<AsmOperand>)
    ensures
        final(out)@ == taken_operands(old(out)@, fns@, es@, 0),
    decreases es,
{
    let mut i: usize = 0;
    while i < es.len()
        invariant
            i <= es@.len(),
            taken_operands(out@, fns@, es@, i as nat) == taken_operands(old(out)@, fns@, es@, 0),
        decreases es@.len() - i,
    {
        walk_taken_expr(out, fns, &es[i].value);
        i += 1;
    }
}

#[verifier::loop_isolation(false)]
fn walk_taken_stmts(out: &mut NameSet, fns: &NameSet, es: &Vec<Stmt>)
    ensures
        final(out)@ == taken_stmts(old(out)@, fns@, es@, 0),
    decreases es,
{
    let mut i: usize = 0;
    while i < es.len()
        invariant
            i <= es@.len(),
            taken_stmts(out@, fns@, es@, i as nat) == taken_stmts(old(out)@, fns@, es@, 0),
        decreases es@.len() - i,
    {
        walk_taken_stmt(out, fns, &es[i]);
        i += 1;
    }
}

fn walk_taken_stmt(out: &mut NameSet, fns: &NameSet, st: &Stmt)
    ensures
        final(out)@ == taken_stmt(old(out)@, fns@, st),
    decreases st,
{
    match &st.kind {
        StmtKind::Let { init, .. } => {
            if let Some(x) = init {
                walk_taken_expr(out, fns, x);
            }
        },
        StmtKind::LetDestructure { init, .. } => {
            walk_taken_expr(out, fns, init);
        },
        StmtKind::Return(value) => {
            if let Some(x) = value {
                walk_taken_expr(out, fns, x);
            }
        },
        StmtKind::Expr(e) => {
            walk_taken_expr(out, fns, e);
        },
        StmtKind::Defer(e) => {
            walk_taken_expr(out, fns, e);
        },
        StmtKind::Assert(e) => {
            walk_taken_expr(out, fns, e);
        },
        StmtKind::While { cond, body } => {
            walk_taken_expr(out, fns, cond);
            walk_taken_block(out, fns, body);
        },
        StmtKind::Loop(b) => {
            walk_taken_block(out, fns, b);
        },
        StmtKind::For(fl) => {
            walk_taken_for(out, fns, fl);
        },
        _ => {},
    }
}

fn walk_taken_for(out: &mut NameSet, fns: &NameSet, fl: &ForLoop)
    ensures
        final(out)@ == taken_for(old(out)@, fns@, fl),
    decreases fl,
{
    match fl {
        ForLoop::CStyle { init, cond, update, body } => {
            if let Some(x) = init {
                walk_taken_stmt(out, fns, x);
            }
            if let Some(x) = cond {
                walk_taken_expr(out, fns, x);
            }
            walk_taken_exprs(out, fns, update);
            walk_taken_block(out, fns, body);
        },
        ForLoop::Range { iter, body, .. } => {
            walk_taken_expr(out, fns, iter);
            walk_taken_block(out, fns, body);
        },
    }
}

fn walk_taken_block(out: &mut NameSet, fns: &NameSet, b: &Block)
    ensures
        final(out)@ == taken_block(old(out)@, fns@, b),
    decreases b,
{
    walk_taken_stmts(out, fns, &b.stmts);
    if let Some(x) = &b.tail {
        walk_taken_expr(out, fns, x);
    }
}

pub open spec fn is_function(item: Item, name: Seq<char>) -> bool {
    match item.kind {
        ItemKind::Function(f) => f.name.name@ == name,
        _ => false,
    }
}

/// The names of the free functions of a program.
pub open spec fn function_names(items: Seq<Item>) -> Set<Seq<char>> {
    Set::new(|n: Seq<char>| exists|k: int| 0 <= k < items.len() && is_function(#[trigger] items[k], n))
}

pub open spec fn taken_methods(acc: Set<Seq<char>>, fns: Set<Seq<char>>, ms: Seq<Method>, i: nat) -> Set<Seq<char>>
    decreases ms.len() - i,
{
    if i >= ms.len() {
        acc
    } else {
        taken_methods(taken_block(acc, fns, &ms[i as int].body), fns, ms, i + 1)
    }
}

pub open spec fn taken_item(acc: Set<Seq<char>>, fns: Set<Seq<char>>, item: Item) -> Set<Seq<char>> {
    match item.kind {
        ItemKind::Function(f) => taken_block(acc, fns, &f.body),
        ItemKind::Impl(b) => taken_methods(acc, fns, b.methods@, 0),
        _ => acc,
    }
}

pub open spec fn taken_items(acc: Set<Seq<char>>, fns: Set<Seq<char>>, items: Seq<Item>, i: nat) -> Set<Seq<char>>
    decreases items.len() - i,
{
    if i >= items.len() {
        acc
    } else {
        taken_items(taken_item(acc, fns, items[i as int]), fns, items, i + 1)
    }
}

/// The functions that some body uses other than by calling them.
pub open spec fn address_taken(prog: Program) -> Set<Seq<char>> {
    taken_items(Set::empty(), function_names(prog.items@), prog.items@, 0)
}

fn collect_function_names(items: &Vec<Item>) -> (r: NameSet)
    ensures
        r@ == function_names(items@),
{
    let mut out = NameSet::new();
    let mut i: usize = 0;
    while i < items.len()
        invariant
            i <= items@.len(),
            forall|n: Seq<char>| #[trigger] out@.contains(n) <==> exists|k: int| 0 <= k < i && is_function(#[trigger] items@[k], n),
        decreases items@.len() - i,
    {
        let ghost before = out@;
        if let ItemKind::Function(f) = &items[i].kind {
            out.insert(f.name.name.clone());
        }
        assert forall|n: Seq<char>| #[trigger] out@.contains(n) <==> exists|k: int| 0 <= k < i + 1 && is_function(#[trigger] items@[k], n) by {
            assert(before.contains(n) <==> exists|k: int| 0 <= k < i && is_function(#[trigger] items@[k], n));
            if is_function(items@[i as int], n) {
                assert(out@.contains(n));
            }
        }
        i += 1;
    }
    assert(out@ =~= function_names(items@));
    out
}

fn walk_taken_methods(out: &mut NameSet, fns: &NameSet, ms: &Vec<Method>)
    ensures
        final(out)@ == taken_methods(old(out)@, fns@, ms@, 0),
{
    let mut i: usize = 0;
    while i < ms.len()
        invariant
            i <= ms@.len(),
            taken_methods(out@, fns@, ms@, i as nat) == taken_methods(old(out)@, fns@, ms@, 0),
        decreases ms@.len() - i,
    {
        walk_taken_block(out, fns, &ms[i].body);
        i += 1;
    }
}

/// The functions whose address a program takes.
pub fn fns_with_address_taken(prog: &Program) -> (r: NameSet)
    ensures
        r@ == address_taken(*prog),
{
    let fns = collect_function_names(&prog.items);
    let mut out = NameSet::new();
    let mut i: usize = 0;
    while i < prog.items.len()
        invariant
            i <= prog.items@.len(),
            taken_items(out@, fns@, prog.items@, i as nat) == taken_items(Set::empty(), fns@, prog.items@, 0),
        decreases prog.items@.len() - i,
    {
        match &prog.items[i].kind {
            ItemKind::Function(f) => {
                walk_taken_block(&mut out, &fns, &f.body);
            },
            ItemKind::Impl(b) => {
                walk_taken_methods(&mut out, &fns, &b.methods);
            },
            _ => {},
        }
        i += 1;
    }
    out
}

// ---------------------------------------------------------------------------
// What it means that an address is taken.

/// The name stands in the expression as a value: on its own where it is the name of a declared
/// function, or in a reference to a function, but not as what a call calls.
pub open spec fn used_in_expr(e: &Expr, n: Seq<char>, declared: bool) -> bool
    decreases e, 0nat,
{
    match e.kind {
        ExprKind::Ident(m) => declared && m@ == n,
        ExprKind::FnRef { callee, .. } => match callee.kind {
            ExprKind::Ident(m) => m@ == n,
            _ => false,
        },
        ExprKind::Call { callee, args, .. } => {
            ||| match callee.kind {
                ExprKind::Field { receiver, .. } => used_in_expr(&*receiver, n, declared),
                ExprKind::Ident(_) => false,
                ExprKind::Path { .. } => false,
                _ => used_in_expr(&*callee, n, declared),
            }
            ||| used_in_exprs(args@, n, declared, 0)
        },
        ExprKind::Assign { target, value, .. } => used_in_expr(&*target, n, declared) || used_in_expr(&*value, n, declared),
        ExprKind::Field { receiver, .. } => used_in_expr(&*receiver, n, declared),
        ExprKind::Index { receiver, index } => used_in_expr(&*receiver, n, declared) || used_in_expr(&*index, n, declared),
        ExprKind::Cast { expr, .. } => used_in_expr(&*expr, n, declared),
        ExprKind::CastChecked { expr, .. } => used_in_expr(&*expr, n, declared),
        ExprKind::Range { start, end, .. } => {
            ||| match start {
                Some(x) => used_in_expr(&*x, n, declared),
                None => false,
            }
            ||| match end {
                Some(x) => used_in_expr(&*x, n, declared),
                None => false,
            }
        },
        ExprKind::Unary { operand, .. } => used_in_expr(&*operand, n, declared),
        ExprKind::Binary { lhs, rhs, .. } => used_in_expr(&*lhs, n, declared) || used_in_expr(&*rhs, n, declared),
        ExprKind::StructLit { fields, .. } => used_in_fields(fields@, n, declared, 0),
        ExprKind::InferredStructLit { fields } => used_in_fields(fields@, n, declared, 0),
        ExprKind::GenericStructLit { fields, .. } => used_in_fields(fields@, n, declared, 0),
        ExprKind::ArrayLit { elements } => used_in_exprs(elements@, n, declared, 0),
        ExprKind::TupleLit { elements } => used_in_exprs(elements@, n, declared, 0),
        ExprKind::GenericEnumCall { args, .. } => used_in_exprs(args@, n, declared, 0),
        ExprKind::ArrayFill { fill, .. } => used_in_expr(&*fill, n, declared),
        ExprKind::Block(b) => used_in_block(&b, n, declared),
        ExprKind::If { cond, then, else_branch } => {
            ||| used_in_expr(&*cond, n, declared)
            ||| used_in_block(&then, n, declared)
            ||| match else_branch {
                Some(x) => used_in_expr(&*x, n, declared),
                None => false,
            }
        },
        ExprKind::Match { scrutinee, arms } => used_in_expr(&*scrutinee, n, declared) || used_in_arms(arms@, n, declared, 0),
        ExprKind::Await(inner) => used_in_expr(&*inner, n, declared),
        ExprKind::Yield(inner) => used_in_expr(&*inner, n, declared),
        ExprKind::InterpStr { parts } => used_in_parts(parts@, n, declared, 0),
        ExprKind::Intrinsic { args, .. } => used_in_exprs(args@, n, declared, 0),
        ExprKind::Asm { operands, .. } => used_in_operands(operands@, n, declared, 0),
        _ => false,
    }
}

pub open spec fn used_in_exprs(es: Seq<Expr>, n: Seq<char>, declared: bool, i: nat) -> bool
    decreases es, es.len() - i,
{
    i < es.len() && (used_in_expr(&es[i as int], n, declared) || used_in_exprs(es, n, declared, i + 1))
}

pub open spec fn used_in_fields(es: Seq<FieldInit>, n: Seq<char>, declared: bool, i: nat) -> bool
    decreases es, es.len() - i,
{
    i < es.len() && (used_in_expr(&es[i as int].value, n, declared) || used_in_fields(es, n, declared, i + 1))
}

pub open spec fn used_in_arms(es: Seq<MatchArm>, n: Seq<char>, declared: bool, i: nat) -> bool
    decreases es, es.len() - i,
{
    i < es.len() && (used_in_expr(&es[i as int].body, n, declared) || used_in_arms(es, n, declared, i + 1))
}

pub open spec fn used_in_operands(es: Seq<AsmOperand>, n: Seq<char>, declared: bool, i: nat) -> bool
    decreases es, es.len() - i,
{
    i < es.len() && (used_in_expr(&es[i as int].value, n, declared) || used_in_operands(es, n, declared, i + 1))
}

pub open spec fn used_in_stmts(es: Seq<Stmt>, n: Seq<char>, declared: bool, i: nat) -> bool
    decreases es, es.len() - i,
{
    i < es.len() && (used_in_stmt(&es[i as int], n, declared) || used_in_stmts(es, n, declared, i + 1))
}

pub open spec fn used_in_parts(es: Seq<InterpStrPart>, n: Seq<char>, declared: bool, i: nat) -> bool
    decreases es, es.len() - i,
{
    i < es.len() && ((match es[i as int] {
        InterpStrPart::Expr(x) => used_in_expr(&x, n, declared),
        InterpStrPart::Text(_) => false,
    }) || used_in_parts(es, n, declared, i + 1))
}

pub open spec fn used_in_stmt(st: &Stmt, n: Seq<char>, declared: bool) -> bool
    decreases st, 0nat,
{
    match st.kind {
        StmtKind::Let { init, .. } => (match init {
            Some(x) => used_in_expr(&x, n, declared),
            None => false,
        }),
        StmtKind::LetDestructure { init, .. } => used_in_expr(&init, n, declared),
        StmtKind::Return(value) => (match value {
            Some(x) => used_in_expr(&x, n, declared),
            None => false,
        }),
        StmtKind::Expr(e) => used_in_expr(&e, n, declared),
        StmtKind::Defer(e) => used_in_expr(&e, n, declared),
        StmtKind::Assert(e) => used_in_expr(&e, n, declared),
        StmtKind::While { cond, body } => used_in_expr(&cond, n, declared) || used_in_block(&body, n, declared),
        StmtKind::Loop(b) => used_in_block(&b, n, declared),
        StmtKind::For(fl) => used_in_for(&fl, n, declared),
        _ => false,
    }
}

pub open spec fn used_in_for(fl: &ForLoop, n: Seq<char>, declared: bool) -> bool
    decreases fl, 0nat,
{
    match fl {
        ForLoop::CStyle { init, cond, update, body } => {
            ||| match init {
                Some(x) => used_in_stmt(&*x, n, declared),
                None => false,
            }
            ||| match cond {
                Some(x) => used_in_expr(&x, n, declared),
                None => false,
            }
            ||| used_in_exprs(update@, n, declared, 0)
            ||| used_in_block(&body, n, declared)
        },
        ForLoop::Range { iter, body, .. } => used_in_expr(&iter, n, declared) || used_in_block(&body, n, declared),
    }
}

pub open spec fn used_in_block(b: &Block, n: Seq<char>, declared: bool) -> bool
    decreases b, 0nat,
{
    ||| used_in_stmts(b.stmts@, n, declared, 0)
    ||| match b.tail {
        Some(x) => used_in_expr(&*x, n, declared),
        None => false,
    }
}

/// The name stands as a value in a body of the item.
pub open spec fn used_in_item(item: Item, n: Seq<char>, declared: bool) -> bool {
    match item.kind {
        ItemKind::Function(f) => used_in_block(&f.body, n, declared),
        ItemKind::Impl(b) => exists|k: int| 0 <= k < b.methods@.len() && used_in_block(&(#[trigger] b.methods@[k]).body, n, declared),
        _ => false,
    }
}

/// The name stands as a value in a body of the program.
pub open spec fn used_in_items(items: Seq<Item>, n: Seq<char>, declared: bool) -> bool {
    exists|k: int| 0 <= k < items.len() && used_in_item(#[trigger] items[k], n, declared)
}

pub proof fn lemma_used_expr(acc: Set<Seq<char>>, fns: Set<Seq<char>>, e: &Expr, n: Seq<char>)
    ensures
        taken_expr(acc, fns, e).contains(n) <==> acc.contains(n) || used_in_expr(e, n, fns.contains(n)),
    decreases e, 0nat,
{
    match e.kind {
        ExprKind::Call { callee, args, .. } => {
            let mid = match callee.kind {
                ExprKind::Field { receiver, .. } => taken_expr(acc, fns, &*receiver),
                ExprKind::Ident(_) => acc,
                ExprKind::Path { .. } => acc,
                _ => taken_expr(acc, fns, &*callee),
            };
            match callee.kind {
                ExprKind::Field { receiver, .. } => {
                    lemma_used_expr(acc, fns, &*receiver, n);
                },
                ExprKind::Ident(_) => {},
                ExprKind::Path { .. } => {},
                _ => {
                    lemma_used_expr(acc, fns, &*callee, n);
                },
            }
            lemma_used_exprs(mid, fns, args@, 0, n);
        },
        ExprKind::Assign { target, value, .. } => {
            lemma_used_expr(acc, fns, &*target, n);
            lemma_used_expr(taken_expr(acc, fns, &*target), fns, &*value, n);
        },
        ExprKind::Field { receiver, .. } => {
            lemma_used_expr(acc, fns, &*receiver, n);
        },
        ExprKind::Index { receiver, index } => {
            lemma_used_expr(acc, fns, &*receiver, n);
            lemma_used_expr(taken_expr(acc, fns, &*receiver), fns, &*index, n);
        },
        ExprKind::Cast { expr, .. } => {
            lemma_used_expr(acc, fns, &*expr, n);
        },
        ExprKind::CastChecked { expr, .. } => {
            lemma_used_expr(acc, fns, &*expr, n);
        },
        ExprKind::Range { start, end, .. } => {
            let mid = match start {
                Some(x) => taken_expr(acc, fns, &*x),
                None => acc,
            };
            if let Some(x) = start {
                lemma_used_expr(acc, fns, &*x, n);
            }
            if let Some(x) = end {
                lemma_used_expr(mid, fns, &*x, n);
            }
        },
        ExprKind::Unary { operand, .. } => {
            lemma_used_expr(acc, fns, &*operand, n);
        },
        ExprKind::Binary { lhs, rhs, .. } => {
            lemma_used_expr(acc, fns, &*lhs, n);
            lemma_used_expr(taken_expr(acc, fns, &*lhs), fns, &*rhs, n);
        },
        ExprKind::StructLit { fields, .. } => {
            lemma_used_fields(acc, fns, fields@, 0, n);
        },
        ExprKind::InferredStructLit { fields } => {
            lemma_used_fields(acc, fns, fields@, 0, n);
        },
        ExprKind::GenericStructLit { fields, .. } => {
            lemma_used_fields(acc, fns, fields@, 0, n);
        },
        ExprKind::ArrayLit { elements } => {
            lemma_used_exprs(acc, fns, elements@, 0, n);
        },
        ExprKind::TupleLit { elements } => {
            lemma_used_exprs(acc, fns, elements@, 0, n);
        },
        ExprKind::GenericEnumCall { args, .. } => {
            lemma_used_exprs(acc, fns, args@, 0, n);
        },
        ExprKind::ArrayFill { fill, .. } => {
            lemma_used_expr(acc, fns, &*fill, n);
        },
        ExprKind::Block(b) => {
            lemma_used_block(acc, fns, &b, n);
        },
        ExprKind::If { cond, then, else_branch } => {
            let a = taken_expr(acc, fns, &*cond);
            lemma_used_expr(acc, fns, &*cond, n);
            lemma_used_block(a, fns, &then, n);
            if let Some(x) = else_branch {
                lemma_used_expr(taken_block(a, fns, &then), fns, &*x, n);
            }
        },
        ExprKind::Match { scrutinee, arms } => {
            lemma_used_expr(acc, fns, &*scrutinee, n);
            lemma_used_arms(taken_expr(acc, fns, &*scrutinee), fns, arms@, 0, n);
        },
        ExprKind::Await(inner) => {
            lemma_used_expr(acc, fns, &*inner, n);
        },
        ExprKind::Yield(inner) => {
            lemma_used_expr(acc, fns, &*inner, n);
        },
        ExprKind::InterpStr { parts } => {
            lemma_used_parts(acc, fns, parts@, 0, n);
        },
        ExprKind::Intrinsic { args, .. } => {
            lemma_used_exprs(acc, fns, args@, 0, n);
        },
        ExprKind::Asm { operands, .. } => {
            lemma_used_operands(acc, fns, operands@, 0, n);
        },
        _ => {},
    }
}

proof fn lemma_used_exprs(acc: Set<Seq<char>>, fns: Set<Seq<char>>, es: Seq<Expr>, i: nat, n: Seq<char>)
    ensures
        taken_exprs(acc, fns, es, i).contains(n) <==> acc.contains(n) || used_in_exprs(es, n, fns.contains(n), i),
    decreases es, es.len() - i,
{
    if i < es.len() {
        lemma_used_expr(acc, fns, &es[i as int], n);
        lemma_used_exprs(taken_expr(acc, fns, &es[i as int]), fns, es, i + 1, n);
    }
}

proof fn lemma_used_fields(acc: Set<Seq<char>>, fns: Set<Seq<char>>, es: Seq<FieldInit>, i: nat, n: Seq<char>)
    ensures
        taken_fields(acc, fns, es, i).contains(n) <==> acc.contains(n) || used_in_fields(es, n, fns.contains(n), i),
    decreases es, es.len() - i,
{
    if i < es.len() {
        lemma_used_expr(acc, fns, &es[i as int].value, n);
        lemma_used_fields(taken_expr(acc, fns, &es[i as int].value), fns, es, i + 1, n);
    }
}

proof fn lemma_used_arms(acc: Set<Seq<char>>, fns: Set<Seq<char>>, es: Seq<MatchArm>, i: nat, n: Seq<char>)
    ensures
        taken_arms(acc, fns, es, i).contains(n) <==> acc.contains(n) || used_in_arms(es, n, fns.contains(n), i),
    decreases es, es.len() - i,
{
    if i < es.len() {
        lemma_used_expr(acc, fns, &es[i as int].body, n);
        lemma_used_arms(taken_expr(acc, fns, &es[i as int].body), fns, es, i + 1, n);
    }
}

proof fn lemma_used_operands(acc: Set<Seq<char>>, fns: Set<Seq<char>>, es: Seq<AsmOperand>, i: nat, n: Seq<char>)
    ensures
        taken_operands(acc, fns, es, i).contains(n) <==> acc.contains(n) || used_in_operands(es, n, fns.contains(n), i),
    decreases es, es.len() - i,
{
    if i < es.len() {
        lemma_used_expr(acc, fns, &es[i as int].value, n);
        lemma_used_operands(taken_expr(acc, fns, &es[i as int].value), fns, es, i + 1, n);
    }
}

proof fn lemma_used_stmts(acc: Set<Seq<char>>, fns: Set<Seq<char>>, es: Seq<Stmt>, i: nat, n: Seq<char>)
    ensures
        taken_stmts(acc, fns, es, i).contains(n) <==> acc.contains(n) || used_in_stmts(es, n, fns.contains(n), i),
    decreases es, es.len() - i,
{
    if i < es.len() {
        lemma_used_stmt(acc, fns, &es[i as int], n);
        lemma_used_stmts(taken_stmt(acc, fns, &es[i as int]), fns, es, i + 1, n);
    }
}

proof fn lemma_used_parts(acc: Set<Seq<char>>, fns: Set<Seq<char>>, es: Seq<InterpStrPart>, i: nat, n: Seq<char>)
    ensures
        taken_parts(acc, fns, es, i).contains(n) <==> acc.contains(n) || used_in_parts(es, n, fns.contains(n), i),
    decreases es, es.len() - i,
{
    if i < es.len() {
        let next = match es[i as int] {
            InterpStrPart::Expr(x) => taken_expr(acc, fns, &x),
            InterpStrPart::Text(_) => acc,
        };
        if let InterpStrPart::Expr(x) = es[i as int] {
            lemma_used_expr(acc, fns, &x, n);
        }
        lemma_used_parts(next, fns, es, i + 1, n);
    }
}

proof fn lemma_used_stmt(acc: Set<Seq<char>>, fns: Set<Seq<char>>, st: &Stmt, n: Seq<char>)
    ensures
        taken_stmt(acc, fns, st).contains(n) <==> acc.contains(n) || used_in_stmt(st, n, fns.contains(n)),
    decreases st, 0nat,
{
    match st.kind {
        StmtKind::Let { init, .. } => {
            if let Some(x) = init {
                lemma_used_expr(acc, fns, &x, n);
            }
        },
        StmtKind::LetDestructure { init, .. } => {
            lemma_used_expr(acc, fns, &init, n);
        },
        StmtKind::Return(value) => {
            if let Some(x) = value {
                lemma_used_expr(acc, fns, &x, n);
            }
        },
        StmtKind::Expr(e) => {
            lemma_used_expr(acc, fns, &e, n);
        },
        StmtKind::Defer(e) => {
            lemma_used_expr(acc, fns, &e, n);
        },
        StmtKind::Assert(e) => {
            lemma_used_expr(acc, fns, &e, n);
        },
        StmtKind::While { cond, body } => {
            lemma_used_expr(acc, fns, &cond, n);
            lemma_used_block(taken_expr(acc, fns, &cond), fns, &body, n);
        },
        StmtKind::Loop(b) => {
            lemma_used_block(acc, fns, &b, n);
        },
        StmtKind::For(fl) => {
            lemma_used_for(acc, fns, &fl, n);
        },
        _ => {},
    }
}

proof fn lemma_used_for(acc: Set<Seq<char>>, fns: Set<Seq<char>>, fl: &ForLoop, n: Seq<char>)
    ensures
        taken_for(acc, fns, fl).contains(n) <==> acc.contains(n) || used_in_for(fl, n, fns.contains(n)),
    decreases fl, 0nat,
{
    match fl {
        ForLoop::CStyle { init, cond, update, body } => {
            let a = match init {
                Some(x) => taken_stmt(acc, fns, &*x),
                None => acc,
            };
            let b = match cond {
                Some(x) => taken_expr(a, fns, &x),
                None => a,
            };
            if let Some(x) = init {
                lemma_used_stmt(acc, fns, &*x, n);
            }
            if let Some(x) = cond {
                lemma_used_expr(a, fns, &x, n);
            }
            lemma_used_exprs(b, fns, update@, 0, n);
            lemma_used_block(taken_exprs(b, fns, update@, 0), fns, &body, n);
        },
        ForLoop::Range { iter, body, .. } => {
            lemma_used_expr(acc, fns, &iter, n);
            lemma_used_block(taken_expr(acc, fns, &iter), fns, &body, n);
        },
    }
}

proof fn lemma_used_block(acc: Set<Seq<char>>, fns: Set<Seq<char>>, b: &Block, n: Seq<char>)
    ensures
        taken_block(acc, fns, b).contains(n) <==> acc.contains(n) || used_in_block(b, n, fns.contains(n)),
    decreases b, 0nat,
{
    lemma_used_stmts(acc, fns, b.stmts@, 0, n);
    if let Some(x) = b.tail {
        lemma_used_expr(taken_stmts(acc, fns, b.stmts@, 0), fns, &*x, n);
    }
}

proof fn lemma_used_methods(acc: Set<Seq<char>>, fns: Set<Seq<char>>, ms: Seq<Method>, i: nat, n: Seq<char>)
    ensures
        taken_methods(acc, fns, ms, i).contains(n) <==> acc.contains(n) || exists|k: int|
            i <= k < ms.len() && used_in_block(&(#[trigger] ms[k]).body, n, fns.contains(n)),
    decreases ms.len() - i,
{
    if i < ms.len() {
        let next = taken_block(acc, fns, &ms[i as int].body);
        lemma_used_block(acc, fns, &ms[i as int].body, n);
        lemma_used_methods(next, fns, ms, i + 1, n);
        if used_in_block(&ms[i as int].body, n, fns.contains(n)) {
            assert(used_in_block(&ms[i as int].body, n, fns.contains(n)));
        }
    }
}

proof fn lemma_used_items(acc: Set<Seq<char>>, fns: Set<Seq<char>>, items: Seq<Item>, i: nat, n: Seq<char>)
    ensures
        taken_items(acc, fns, items, i).contains(n) <==> acc.contains(n) || exists|k: int|
            i <= k < items.len() && used_in_item(#[trigger] items[k], n, fns.contains(n)),
    decreases items.len() - i,
{
    if i < items.len() {
        let item = items[i as int];
        match item.kind {
            ItemKind::Function(f) => {
                lemma_used_block(acc, fns, &f.body, n);
            },
            ItemKind::Impl(b) => {
                lemma_used_methods(acc, fns, b.methods@, 0, n);
            },
            _ => {},
        }
        assert(taken_item(acc, fns, item).contains(n) <==> acc.contains(n) || used_in_item(item, n, fns.contains(n)));
        lemma_used_items(taken_item(acc, fns, item), fns, items, i + 1, n);
    }
}

/// The address of a function is taken where, and only where, its name stands as a value in
/// some body.
pub proof fn taken_is_used_as_a_value(prog: Program, n: Seq<char>)
    ensures
        address_taken(prog).contains(n) <==> used_in_items(prog.items@, n, function_names(prog.items@).contains(n)),
{
    lemma_used_items(Set::empty(), function_names(prog.items@), prog.items@, 0, n);
}

proof fn lemma_declared_is_used(item: Item, n: Seq<char>)
    ensures
        used_in_item(item, n, false) ==> used_in_item(item, n, true),
{
    match item.kind {
        ItemKind::Function(f) => {
            lemma_more_names_block(&f.body, n);
        },
        ItemKind::Impl(b) => {
            if used_in_item(item, n, false) {
                let k = choose|k: int| 0 <= k < b.methods@.len() && used_in_block(&(#[trigger] b.methods@[k]).body, n, false);
                lemma_more_names_block(&b.methods@[k].body, n);
                assert(used_in_block(&b.methods@[k].body, n, true));
            }
        },
        _ => {},
    }
}

proof fn lemma_more_names_expr(e: &Expr, n: Seq<char>)
    ensures
        used_in_expr(e, n, false) ==> used_in_expr(e, n, true),
    decreases e, 0nat,
{
    match e.kind {
        ExprKind::Call { callee, args, .. } => {
            match callee.kind {
                ExprKind::Field { receiver, .. } => {
                    lemma_more_names_expr(&*receiver, n);
                },
                ExprKind::Ident(_) => {},
                ExprKind::Path { .. } => {},
                _ => {
                    lemma_more_names_expr(&*callee, n);
                },
            }
            lemma_more_names_exprs(args@, 0, n);
        },
        ExprKind::Assign { target, value, .. } => {
            lemma_more_names_expr(&*target, n);
            lemma_more_names_expr(&*value, n);
        },
        ExprKind::Field { receiver, .. } => {
            lemma_more_names_expr(&*receiver, n);
        },
        ExprKind::Index { receiver, index } => {
            lemma_more_names_expr(&*receiver, n);
            lemma_more_names_expr(&*index, n);
        },
        ExprKind::Cast { expr, .. } => {
            lemma_more_names_expr(&*expr, n);
        },
        ExprKind::CastChecked { expr, .. } => {
            lemma_more_names_expr(&*expr, n);
        },
        ExprKind::Range { start, end, .. } => {
            if let Some(x) = start {
                lemma_more_names_expr(&*x, n);
            }
            if let Some(x) = end {
                lemma_more_names_expr(&*x, n);
            }
        },
        ExprKind::Unary { operand, .. } => {
            lemma_more_names_expr(&*operand, n);
        },
        ExprKind::Binary { lhs, rhs, .. } => {
            lemma_more_names_expr(&*lhs, n);
            lemma_more_names_expr(&*rhs, n);
        },
        ExprKind::StructLit { fields, .. } => {
            lemma_more_names_fields(fields@, 0, n);
        },
        ExprKind::InferredStructLit { fields } => {
            lemma_more_names_fields(fields@, 0, n);
        },
        ExprKind::GenericStructLit { fields, .. } => {
            lemma_more_names_fields(fields@, 0, n);
        },
        ExprKind::ArrayLit { elements } => {
            lemma_more_names_exprs(elements@, 0, n);
        },
        ExprKind::TupleLit { elements } => {
            lemma_more_names_exprs(elements@, 0, n);
        },
        ExprKind::GenericEnumCall { args, .. } => {
            lemma_more_names_exprs(args@, 0, n);
        },
        ExprKind::ArrayFill { fill, .. } => {
            lemma_more_names_expr(&*fill, n);
        },
        ExprKind::Block(b) => {
            lemma_more_names_block(&b, n);
        },
        ExprKind::If { cond, then, else_branch } => {
            lemma_more_names_expr(&*cond, n);
            lemma_more_names_block(&then, n);
            if let Some(x) = else_branch {
                lemma_more_names_expr(&*x, n);
            }
        },
        ExprKind::Match { scrutinee, arms } => {
            lemma_more_names_expr(&*scrutinee, n);
            lemma_more_names_arms(arms@, 0, n);
        },
        ExprKind::Await(inner) => {
            lemma_more_names_expr(&*inner, n);
        },
        ExprKind::Yield(inner) => {
            lemma_more_names_expr(&*inner, n);
        },
        ExprKind::InterpStr { parts } => {
            lemma_more_names_parts(parts@, 0, n);
        },
        ExprKind::Intrinsic { args, .. } => {
            lemma_more_names_exprs(args@, 0, n);
        },
        ExprKind::Asm { operands, .. } => {
            lemma_more_names_operands(operands@, 0, n);
        },
        _ => {},
    }
}

proof fn lemma_more_names_exprs(es: Seq<Expr>, i: nat, n: Seq<char>)
    ensures
        used_in_exprs(es, n, false, i) ==> used_in_exprs(es, n, true, i),
    decreases es, es.len() - i,
{
    if i < es.len() {
        lemma_more_names_expr(&es[i as int], n);
        lemma_more_names_exprs(es, i + 1, n);
    }
}

proof fn lemma_more_names_fields(es: Seq<FieldInit>, i: nat, n: Seq<char>)
    ensures
        used_in_fields(es, n, false, i) ==> used_in_fields(es, n, true, i),
    decreases es, es.len() - i,
{
    if i < es.len() {
        lemma_more_names_expr(&es[i as int].value, n);
        lemma_more_names_fields(es, i + 1, n);
    }
}

proof fn lemma_more_names_arms(es: Seq<MatchArm>, i: nat, n: Seq<char>)
    ensures
        used_in_arms(es, n, false, i) ==> used_in_arms(es, n, true, i),
    decreases es, es.len() - i,
{
    if i < es.len() {
        lemma_more_names_expr(&es[i as int].body, n);
        lemma_more_names_arms(es, i + 1, n);
    }
}

proof fn lemma_more_names_operands(es: Seq<AsmOperand>, i: nat, n: Seq<char>)
    ensures
        used_in_operands(es, n, false, i) ==> used_in_operands(es, n, true, i),
    decreases es, es.len() - i,
{
    if i < es.len() {
        lemma_more_names_expr(&es[i as int].value, n);
        lemma_more_names_operands(es, i + 1, n);
    }
}

proof fn lemma_more_names_stmts(es: Seq<Stmt>, i: nat, n: Seq<char>)
    ensures
        used_in_stmts(es, n, false, i) ==> used_in_stmts(es, n, true, i),
    decreases es, es.len() - i,
{
    if i < es.len() {
        lemma_more_names_stmt(&es[i as int], n);
        lemma_more_names_stmts(es, i + 1, n);
    }
}

proof fn lemma_more_names_parts(es: Seq<InterpStrPart>, i: nat, n: Seq<char>)
    ensures
        used_in_parts(es, n, false, i) ==> used_in_parts(es, n, true, i),
    decreases es, es.len() - i,
{
    if i < es.len() {
        if let InterpStrPart::Expr(x) = es[i as int] {
            lemma_more_names_expr(&x, n);
        }
        lemma_more_names_parts(es, i + 1, n);
    }
}

proof fn lemma_more_names_stmt(st: &Stmt, n: Seq<char>)
    ensures
        used_in_stmt(st, n, false) ==> used_in_stmt(st, n, true),
    decreases st, 0nat,
{
    match st.kind {
        StmtKind::Let { init, .. } => {
            if let Some(x) = init {
                lemma_more_names_expr(&x, n);
            }
        },
        StmtKind::LetDestructure { init, .. } => {
            lemma_more_names_expr(&init, n);
        },
        StmtKind::Return(value) => {
            if let Some(x) = value {
                lemma_more_names_expr(&x, n);
            }
        },
        StmtKind::Expr(e) => {
            lemma_more_names_expr(&e, n);
        },
        StmtKind::Defer(e) => {
            lemma_more_names_expr(&e, n);
        },
        StmtKind::Assert(e) => {
            lemma_more_names_expr(&e, n);
        },
        StmtKind::While { cond, body } => {
            lemma_more_names_expr(&cond, n);
            lemma_more_names_block(&body, n);
        },
        StmtKind::Loop(b) => {
            lemma_more_names_block(&b, n);
        },
        StmtKind::For(fl) => {
            lemma_more_names_for(&fl, n);
        },
        _ => {},
    }
}

proof fn lemma_more_names_for(fl: &ForLoop, n: Seq<char>)
    ensures
        used_in_for(fl, n, false) ==> used_in_for(fl, n, true),
    decreases fl, 0nat,
{
    match fl {
        ForLoop::CStyle { init, cond, update, body } => {
            if let Some(x) = init {
                lemma_more_names_stmt(&*x, n);
            }
            if let Some(x) = cond {
                lemma_more_names_expr(&x, n);
            }
            lemma_more_names_exprs(update@, 0, n);
            lemma_more_names_block(&body, n);
        },
        ForLoop::Range { iter, body, .. } => {
            lemma_more_names_expr(&iter, n);
            lemma_more_names_block(&body, n);
        },
    }
}

proof fn lemma_more_names_block(b: &Block, n: Seq<char>)
    ensures
        used_in_block(b, n, false) ==> used_in_block(b, n, true),
    decreases b, 0nat,
{
    lemma_more_names_stmts(b.stmts@, 0, n);
    if let Some(x) = b.tail {
        lemma_more_names_expr(&*x, n);
    }
}

/// Further items only add names: what is taken stays taken.
pub proof fn further_items_take_more(p: Program, q: Program)
    requires
        p.items@.is_prefix_of(q.items@),
    ensures
        address_taken(p).subset_of(address_taken(q)),
{
    assert forall|n: Seq<char>| address_taken(p).contains(n) implies address_taken(q).contains(n) by {
        taken_is_used_as_a_value(p, n);
        taken_is_used_as_a_value(q, n);
        let known = function_names(p.items@).contains(n);
        let k = choose|k: int| 0 <= k < p.items@.len() && used_in_item(#[trigger] p.items@[k], n, known);
        assert(q.items@[k] == p.items@[k]);
        if known {
            let j = choose|j: int| 0 <= j < p.items@.len() && is_function(#[trigger] p.items@[j], n);
            assert(is_function(q.items@[j], n));
        }
        lemma_declared_is_used(p.items@[k], n);
        assert(used_in_item(q.items@[k], n, function_names(q.items@).contains(n)));
    }
}

/// Where no name stands as a value, that is where functions are only called, no address is
/// taken.
pub proof fn called_functions_are_not_taken(prog: Program)
    requires
        forall|n: Seq<char>| !(#[trigger] used_in_items(prog.items@, n, function_names(prog.items@).contains(n))),
    ensures
        address_taken(prog) == Set::<Seq<char>>::empty(),
{
    assert forall|n: Seq<char>| !address_taken(prog).contains(n) by {
        taken_is_used_as_a_value(prog, n);
    }
    assert(address_taken(prog) =~= Set::empty());
}

} // verus!
