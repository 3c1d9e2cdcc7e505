//! Which borrow a function's result holds, when nothing in its signature says so.
use vstd::prelude::*;
use crate::ast;
use crate::place;
use crate::ast::{Block, Expr, ExprKind, FieldInit, ForLoop, Function, ImplBlock, MatchArm, Method, Param, Receiver, Span, Stmt, StmtKind, Type, TypeKind, TypeKindV, TypeV, has_keeps};
use crate::oracle::{CopyOracle, OracleV};
use crate::place::expr_root_ident;
use crate::text::str_eq;

verus! {

/// The `return` statements met in an expression, in order, each with its value.
pub open spec fn returns_expr<'a>(acc: Seq<Option<&'a Expr>>, e: &'a Expr) -> Seq<Option<&'a Expr>>
    decreases e, 0nat,
{
    match e.kind {
        ExprKind::Block(b) => returns_block(acc, &b),
        ExprKind::If { cond, then, else_branch } => (match else_branch {
                Some(x) => returns_expr(returns_block(returns_expr(acc, &*cond), &then), &*x),
                None => returns_block(returns_expr(acc, &*cond), &then),
            }),
        ExprKind::Match { scrutinee, arms } => returns_arms(returns_expr(acc, &*scrutinee), arms@, 0),
        ExprKind::Call { callee, args, .. } => returns_exprs(returns_expr(acc, &*callee), args@, 0),
        ExprKind::Binary { lhs, rhs, .. } => returns_expr(returns_expr(acc, &*lhs), &*rhs),
        ExprKind::Unary { operand, .. } => returns_expr(acc, &*operand),
        ExprKind::Range { start, end, .. } => (match end {
                Some(x) => returns_expr((match start {
                Some(x) => returns_expr(acc, &*x),
                None => acc,
            }), &*x),
                None => (match start {
                Some(x) => returns_expr(acc, &*x),
                None => acc,
            }),
            }),
        ExprKind::Assign { target, value, .. } => returns_expr(returns_expr(acc, &*target), &*value),
        ExprKind::Cast { expr, .. } => returns_expr(acc, &*expr),
        ExprKind::StructLit { fields, .. } => returns_fields(acc, fields@, 0),
        ExprKind::InferredStructLit { fields } => returns_fields(acc, fields@, 0),
        ExprKind::GenericStructLit { fields, .. } => returns_fields(acc, fields@, 0),
        ExprKind::Field { receiver, .. } => returns_expr(acc, &*receiver),
        ExprKind::ArrayLit { elements } => returns_exprs(acc, elements@, 0),
        ExprKind::GenericEnumCall { args, .. } => returns_exprs(acc, args@, 0),
        ExprKind::Index { receiver, index } => returns_expr(returns_expr(acc, &*receiver), &*index),
        _ => acc,
    }
}

pub open spec fn returns_exprs<'a>(acc: Seq<Option<&'a Expr>>, es: Seq<Expr>, i: nat) -> Seq<Option<&'a Expr>>
    decreases es, es.len() - i,
{
    if i >= es.len() {
        acc
    } else {
        returns_exprs(returns_expr(acc, &es[i as int]), es, i + 1)
    }
}

pub open spec fn returns_fields<'a>(acc: Seq<Option<&'a Expr>>, es: Seq<FieldInit>, i: nat) -> Seq<Option<&'a Expr>>
    decreases es, es.len() - i,
{
    if i >= es.len() {
        acc
    } else {
        returns_fields(returns_expr(acc, &es[i as int].value), es, i + 1)
    }
}

pub open spec fn returns_arms<'a>(acc: Seq<Option<&'a Expr>>, es: Seq<MatchArm>, i: nat) -> Seq<Option<&'a Expr>>
    decreases es, es.len() - i,
{
    if i >= es.len() {
        acc
    } else {
        returns_arms(returns_expr(acc, &es[i as int].body), es, i + 1)
    }
}

pub open spec fn returns_stmt<'a>(acc: Seq<Option<&'a Expr>>, st: &'a Stmt) -> Seq<Option<&'a Expr>>
    decreases st, 0nat,
{
    match st.kind {
        StmtKind::Return(value) => acc.push(match value {
            Some(x) => Some(&x),
            None => None,
        }),
        StmtKind::Expr(e) => returns_expr(acc, &e),
        StmtKind::Defer(e) => returns_expr(acc, &e),
        StmtKind::Let { init, .. } => (match init {
                Some(x) => returns_expr(acc, &x),
                None => acc,
            }),
        StmtKind::LetDestructure { init, .. } => returns_expr(acc, &init),
        StmtKind::While { cond, body } => returns_block(returns_expr(acc, &cond), &body),
        StmtKind::For(fl) => returns_for(acc, &fl),
        StmtKind::Loop(b) => returns_block(acc, &b),
        StmtKind::Assert(e) => returns_expr(acc, &e),
        _ => acc,
    }
}

pub open spec fn returns_for<'a>(acc: Seq<Option<&'a Expr>>, fl: &'a ForLoop) -> Seq<Option<&'a Expr>>
    decreases fl, 0nat,
{
    match fl {
        ForLoop::CStyle { init, cond, update, body } => {
            let a = (match init {
                Some(x) => returns_stmt(acc, &*x),
                None => acc,
            });
            let b = (match cond {
                Some(x) => returns_expr(a, &x),
                None => a,
            });
            returns_block(returns_exprs(b, update@, 0), &body)
        },
        ForLoop::Range { iter, body, .. } => returns_block(returns_expr(acc, &iter), &body),
    }
}

pub open spec fn returns_stmts<'a>(acc: Seq<Option<&'a Expr>>, es: Seq<Stmt>, i: nat) -> Seq<Option<&'a Expr>>
    decreases es, es.len() - i,
{
    if i >= es.len() {
        acc
    } else {
        returns_stmts(returns_stmt(acc, &es[i as int]), es, i + 1)
    }
}

pub open spec fn returns_block<'a>(acc: Seq<Option<&'a Expr>>, b: &'a Block) -> Seq<Option<&'a Expr>>
    decreases b, 0nat,
{
    let acc = returns_stmts(acc, b.stmts@, 0);
    match b.tail {
        Some(x) => returns_expr(acc, &*x),
        None => acc,
    }
}

fn collect_returns_expr<'a>(out: &mut Vec<Option<&'a Expr>>, e: &'a Expr)
    ensures
        final(out)@ == returns_expr(old(out)@, e),
    decreases e,
{
    match &e.kind {
        ExprKind::Block(b) => {
            collect_returns_block(out, b);
        },
        ExprKind::If { cond, then, else_branch } => {
            collect_returns_expr(out, cond);
            collect_returns_block(out, then);
            if let Some(x) = else_branch {
                collect_returns_expr(out, x);
            }
        },
        ExprKind::Match { scrutinee, arms } => {
            collect_returns_expr(out, scrutinee);
            collect_returns_arms(out, arms);
        },
        ExprKind::Call { callee, args, .. } => {
            collect_returns_expr(out, callee);
            collect_returns_exprs(out, args);
        },
        ExprKind::Binary { lhs, rhs, .. } => {
            collect_returns_expr(out, lhs);
            collect_returns_expr(out, rhs);
        },
        ExprKind::Unary { operand, .. } => {
            collect_returns_expr(out, operand);
        },
        ExprKind::Range { start, end, .. } => {
            if let Some(x) = start {
                collect_returns_expr(out, x);
            }
            if let Some(x) = end {
                collect_returns_expr(out, x);
            }
        },
        ExprKind::Assign { target, value, .. } => {
            collect_returns_expr(out, target);
            collect_returns_expr(out, value);
        },
        ExprKind::Cast { expr, .. } => {
            collect_returns_expr(out, expr);
        },
        ExprKind::StructLit { fields, .. } => {
            collect_returns_fields(out, fields);
        },
        ExprKind::InferredStructLit { fields } => {
            collect_returns_fields(out, fields);
        },
        ExprKind::GenericStructLit { fields, .. } => {
            collect_returns_fields(out, fields);
        },
        ExprKind::Field { receiver, .. } => {
            collect_returns_expr(out, receiver);
        },
        ExprKind::ArrayLit { elements } => {
            collect_returns_exprs(out, elements);
        },
        ExprKind::GenericEnumCall { args, .. } => {
            collect_returns_exprs(out, args);
        },
        ExprKind::Index { receiver, index } => {
            collect_returns_expr(out, receiver);
            collect_returns_expr(out, index);
        },
        _ => {},
    }
}

#[verifier::loop_isolation(false)]
fn collect_returns_exprs<'a>(out: &mut Vec<Option<&'a Expr>>, es: &'a Vec<Expr>)
    ensures
        final(out)@ == returns_exprs(old(out)@, es@, 0),
    decreases es,
{
    let mut i: usize = 0;
    while i < es.len()
        invariant
            i <= es@.len(),
            returns_exprs(out@, es@, i as nat) == returns_exprs(old(out)@, es@, 0),
        decreases es@.len() - i,
    {
        collect_returns_expr(out, &es[i]);
        i += 1;
    }
}

#[verifier::loop_isolation(false)]
fn collect_returns_fields<'a>(out: &mut Vec<Option<&'a Expr>>, es: &'a Vec<FieldInit>)
    ensures
        final(out)@ == returns_fields(old(out)@, es@, 0),
    decreases es,
{
    let mut i: usize = 0;
    while i < es.len()
        invariant
            i <= es@.len(),
            returns_fields(out@, es@, i as nat) == returns_fields(old(out)@, es@, 0),
        decreases es@.len() - i,
    {
        collect_returns_expr(out, &es[i].value);
        i += 1;
    }
}

#[verifier::loop_isolation(false)]
fn collect_returns_arms<'a>(out: &mut Vec<Option<&'a Expr>>, es: &'a Vec<MatchArm>)
    ensures
        final(out)@ == returns_arms(old(out)@, es@, 0),
    decreases es,
{
    let mut i: usize = 0;
    while i < es.len()
        invariant
            i <= es@.len(),
            returns_arms(out@, es@, i as nat) == returns_arms(old(out)@, es@, 0),
        decreases es@.len() - i,
    {
        collect_returns_expr(out, &es[i].body);
        i += 1;
    }
}

#[verifier::loop_isolation(false)]
fn collect_returns_stmts<'a>(out: &mut Vec<Option<&'a Expr>>, es: &'a Vec<Stmt>)
    ensures
        final(out)@ == returns_stmts(old(out)@, es@, 0),
    decreases es,
{
    let mut i: usize = 0;
    while i < es.len()
        invariant
            i <= es@.len(),
            returns_stmts(out@, es@, i as nat) == returns_stmts(old(out)@, es@, 0),
        decreases es@.len() - i,
    {
        collect_returns_stmt(out, &es[i]);
        i += 1;
    }
}

fn collect_returns_stmt<'a>(out: &mut Vec<Option<&'a Expr>>, st: &'a Stmt)
    ensures
        final(out)@ == returns_stmt(old(out)@, st),
    decreases st,
{
    match &st.kind {
        StmtKind::Return(value) => {
            match value {
                Some(x) => out.push(Some(x)),
                None => out.push(None),
            }
        },
        StmtKind::Expr(e) => {
            collect_returns_expr(out, e);
        },
        StmtKind::Defer(e) => {
            collect_returns_expr(out, e);
        },
        StmtKind::Let { init, .. } => {
            if let Some(x) = init {
                collect_returns_expr(out, x);
            }
        },
        StmtKind::LetDestructure { init, .. } => {
            collect_returns_expr(out, init);
        },
        StmtKind::While { cond, body } => {
            collect_returns_expr(out, cond);
            collect_returns_block(out, body);
        },
        StmtKind::For(fl) => {
            collect_returns_for(out, fl);
        },
        StmtKind::Loop(b) => {
            collect_returns_block(out, b);
        },
        StmtKind::Assert(e) => {
            collect_returns_expr(out, e);
        },
        _ => {},
    }
}

fn collect_returns_for<'a>(out: &mut Vec<Option<&'a Expr>>, fl: &'a ForLoop)
    ensures
        final(out)@ == returns_for(old(out)@, fl),
    decreases fl,
{
    match fl {
        ForLoop::CStyle { init, cond, update, body } => {
            if let Some(x) = init {
                collect_returns_stmt(out, x);
            }
            if let Some(x) = cond {
                collect_returns_expr(out, x);
            }
            collect_returns_exprs(out, update);
            collect_returns_block(out, body);
        },
        ForLoop::Range { iter, body, .. } => {
            collect_returns_expr(out, iter);
            collect_returns_block(out, body);
        },
    }
}

fn collect_returns_block<'a>(out: &mut Vec<Option<&'a Expr>>, b: &'a Block)
    ensures
        final(out)@ == returns_block(old(out)@, b),
    decreases b,
{
    collect_returns_stmts(out, &b.stmts);
    if let Some(x) = &b.tail {
        collect_returns_expr(out, x);
    }
}

/// What a function's result borrows from.
#[derive(Debug, PartialEq, Eq)]
pub enum ReturnBorrowSource {
    /// One parameter, by index.
    Param(u32),
    SelfReceiver,
    /// Any of several parameters.
    MultiParam(Vec<u32>),
}

#[derive(Debug, Clone, Copy, PartialEq, Eq, Structural)]
pub enum BorrowFlavor {
    Shared,
    Exclusive,
}

pub enum ReturnBorrowSourceV {
    Param(u32),
    SelfReceiver,
    MultiParam(Seq<u32>),
}

impl View for ReturnBorrowSource {
    type V = ReturnBorrowSourceV;

    open spec fn view(&self) -> ReturnBorrowSourceV {
        match *self {
            ReturnBorrowSource::Param(i) => ReturnBorrowSourceV::Param(i),
            ReturnBorrowSource::SelfReceiver => ReturnBorrowSourceV::SelfReceiver,
            ReturnBorrowSource::MultiParam(v) => ReturnBorrowSourceV::MultiParam(v@),
        }
    }
}

impl DeepView for ReturnBorrowSource {
    type V = ReturnBorrowSourceV;

    open spec fn deep_view(&self) -> ReturnBorrowSourceV {
        self@
    }
}

impl DeepView for BorrowFlavor {
    type V = BorrowFlavor;

    open spec fn deep_view(&self) -> BorrowFlavor {
        *self
    }
}

impl Clone for ReturnBorrowSource {
    fn clone(&self) -> (r: ReturnBorrowSource)
        ensures
            r@ == self@,
    {
        match self {
            ReturnBorrowSource::Param(i) => ReturnBorrowSource::Param(*i),
            ReturnBorrowSource::SelfReceiver => ReturnBorrowSource::SelfReceiver,
            ReturnBorrowSource::MultiParam(v) => {
                let c = v.clone();
                assert(c@ =~= v@);
                ReturnBorrowSource::MultiParam(c)
            },
        }
    }
}

pub open spec fn opt_source(s: Option<ReturnBorrowSource>) -> Option<ReturnBorrowSourceV> {
    match s {
        Some(x) => Some(x@),
        None => None,
    }
}

/// The `return` statements of a body.
pub open spec fn returns_of(b: Block) -> Seq<Option<&'static Expr>> {
    returns_block(Seq::empty(), &b)
}

pub open spec fn returns_root(r: Option<&Expr>, root: Seq<char>) -> bool {
    match r {
        Some(e) => place::root_of(*e) == Some(root),
        None => false,
    }
}

/// The body returns, and only paths that start at `root`.
pub open spec fn returns_only_rooted(b: Block, root: Seq<char>) -> bool {
    let rs = returns_of(b);
    rs.len() > 0 && forall|i: int| 0 <= i < rs.len() ==> returns_root(#[trigger] rs[i], root)
}

fn body_returns_only_rooted_at(b: &Block, root: &str) -> (r: bool)
    ensures
        r == returns_only_rooted(*b, root@),
{
    let mut rs: Vec<Option<&Expr>> = Vec::new();
    collect_returns_block(&mut rs, b);
    let mut i: usize = 0;
    while i < rs.len()
        invariant
            i <= rs@.len(),
            rs@ == returns_of(*b),
            forall|j: int| 0 <= j < i ==> returns_root(#[trigger] rs@[j], root@),
        decreases rs@.len() - i,
    {
        let ok = match rs[i] {
            Some(e) => match expr_root_ident(e) {
                Some(n) => str_eq(n, root),
                None => false,
            },
            None => false,
        };
        assert(ok == returns_root(rs@[i as int], root@));
        if !ok {
            return false;
        }
        i += 1;
    }
    rs.len() > 0
}

pub open spec fn moves_result(o: OracleV, ret: Option<Type>) -> bool {
    match ret {
        Some(t) => o.non_copy(t@),
        None => false,
    }
}

pub open spec fn views_result(o: OracleV, ret: Option<Type>) -> bool {
    match ret {
        Some(t) => o.contains_view(t@),
        None => false,
    }
}

fn result_is_moved(o: &CopyOracle, ret: &Option<Type>) -> (r: bool)
    ensures
        r == moves_result(o@, *ret),
{
    match ret {
        Some(t) => o.definitely_non_copy(t),
        None => false,
    }
}

fn result_is_view(o: &CopyOracle, ret: &Option<Type>) -> (r: bool)
    ensures
        r == views_result(o@, *ret),
{
    match ret {
        Some(t) => o.type_contains_view(t),
        None => false,
    }
}

/// A parameter that is lent, and of a type that is moved.
pub open spec fn lends(o: OracleV, p: Param, exclusive: bool) -> bool {
    p.mutable == exclusive && !p.move_ && o.non_copy(p.ty@)
}

fn param_lends(o: &CopyOracle, p: &Param, exclusive: bool) -> (r: bool)
    ensures
        r == lends(o@, *p, exclusive),
{
    p.mutable == exclusive && !p.move_ && o.definitely_non_copy(&p.ty)
}

/// The only parameter is lent and every result is a path into it.
pub open spec fn single_source(f: Function, o: OracleV, exclusive: bool) -> Option<ReturnBorrowSourceV> {
    if f.params@.len() == 1 && lends(o, f.params@[0], exclusive) && moves_result(o, f.return_type) && returns_only_rooted(
        f.body,
        f.params@[0].name.name@,
    ) {
        Some(ReturnBorrowSourceV::Param(0))
    } else {
        None
    }
}

fn detect_fn_e1(f: &Function, o: &CopyOracle, exclusive: bool) -> (r: Option<ReturnBorrowSource>)
    ensures
        opt_source(r) == single_source(*f, o@, exclusive),
{
    if f.params.len() != 1 {
        return None;
    }
    let p = &f.params[0];
    if param_lends(o, p, exclusive) && result_is_moved(o, &f.return_type) && body_returns_only_rooted_at(
        &f.body,
        p.name.name.as_str(),
    ) {
        Some(ReturnBorrowSource::Param(0))
    } else {
        None
    }
}

pub open spec fn names_param(params: Seq<Param>, n: Seq<char>) -> bool {
    exists|i: int| 0 <= i < params.len() && (#[trigger] params[i]).name.name@ == n
}

pub open spec fn returns_a_param(r: Option<&Expr>, params: Seq<Param>) -> bool {
    match r {
        Some(e) => match place::root_of(*e) {
            Some(n) => names_param(params, n),
            None => false,
        },
        None => false,
    }
}

pub open spec fn is_returned(rs: Seq<Option<&Expr>>, n: Seq<char>) -> bool {
    exists|k: int| 0 <= k < rs.len() && returns_root(#[trigger] rs[k], n)
}

pub open spec fn first_of_name(params: Seq<Param>, i: int) -> bool {
    forall|j: int| 0 <= j < i ==> (#[trigger] params[j]).name.name@ != params[i].name.name@
}

/// The indices of the parameters that some `return` names, ascending.
pub open spec fn returned_params(params: Seq<Param>, rs: Seq<Option<&Expr>>, acc: Seq<u32>, i: nat) -> Seq<u32>
    decreases params.len() - i,
{
    if i >= params.len() {
        acc
    } else if first_of_name(params, i as int) && is_returned(rs, params[i as int].name.name@) {
        returned_params(params, rs, acc.push(i as u32), i + 1)
    } else {
        returned_params(params, rs, acc, i + 1)
    }
}

/// All of two or more parameters are lent and every result is a path into one of them.
pub open spec fn multi_source(f: Function, o: OracleV, exclusive: bool) -> Option<ReturnBorrowSourceV> {
    let rs = returns_of(f.body);
    if {
        &&& f.params@.len() >= 2
        &&& forall|i: int| 0 <= i < f.params@.len() ==> lends(o, #[trigger] f.params@[i], exclusive)
        &&& moves_result(o, f.return_type)
        &&& rs.len() > 0
        &&& forall|i: int| 0 <= i < rs.len() ==> returns_a_param(#[trigger] rs[i], f.params@)
    } {
        Some(ReturnBorrowSourceV::MultiParam(returned_params(f.params@, rs, Seq::empty(), 0)))
    } else {
        None
    }
}

fn is_param_name(params: &Vec<Param>, n: &str) -> (r: bool)
    ensures
        r == names_param(params@, n@),
{
    let mut i: usize = 0;
    while i < params.len()
        invariant
            i <= params@.len(),
            forall|j: int| 0 <= j < i ==> (#[trigger] params@[j]).name.name@ != n@,
        decreases params@.len() - i,
    {
        if str_eq(params[i].name.name.as_str(), n) {
            return true;
        }
        i += 1;
    }
    false
}

fn is_first_of_name(params: &Vec<Param>, i: usize) -> (r: bool)
    requires
        i < params@.len(),
    ensures
        r == first_of_name(params@, i as int),
{
    let mut j: usize = 0;
    while j < i
        invariant
            j <= i < params@.len(),
            forall|k: int| 0 <= k < j ==> (#[trigger] params@[k]).name.name@ != params@[i as int].name.name@,
        decreases i - j,
    {
        if params[j].name.name == params[i].name.name {
            return false;
        }
        j += 1;
    }
    true
}

fn some_return_names(rs: &Vec<Option<&Expr>>, n: &str) -> (r: bool)
    ensures
        r == is_returned(rs@, n@),
{
    let mut i: usize = 0;
    while i < rs.len()
        invariant
            i <= rs@.len(),
            forall|j: int| 0 <= j < i ==> !returns_root(#[trigger] rs@[j], n@),
        decreases rs@.len() - i,
    {
        let hit = match rs[i] {
            Some(e) => match expr_root_ident(e) {
                Some(m) => str_eq(m, n),
                None => false,
            },
            None => false,
        };
        assert(hit == returns_root(rs@[i as int], n@));
        if hit {
            return true;
        }
        i += 1;
    }
    false
}

fn detect_fn_e3(f: &Function, o: &CopyOracle, exclusive: bool) -> (r: Option<ReturnBorrowSource>)
    ensures
        opt_source(r) == multi_source(*f, o@, exclusive),
{
    if f.params.len() < 2 {
        return None;
    }
    let mut i: usize = 0;
    while i < f.params.len()
        invariant
            i <= f.params@.len(),
            forall|j: int| 0 <= j < i ==> lends(o@, #[trigger] f.params@[j], exclusive),
        decreases f.params@.len() - i,
    {
        if !param_lends(o, &f.params[i], exclusive) {
            return None;
        }
        i += 1;
    }
    if !result_is_moved(o, &f.return_type) {
        return None;
    }
    let mut rs: Vec<Option<&Expr>> = Vec::new();
    collect_returns_block(&mut rs, &f.body);
    if rs.len() == 0 {
        return None;
    }
    let mut k: usize = 0;
    while k < rs.len()
        invariant
            k <= rs@.len(),
            rs@ == returns_of(f.body),
            forall|j: int| 0 <= j < k ==> returns_a_param(#[trigger] rs@[j], f.params@),
        decreases rs@.len() - k,
    {
        let ok = match rs[k] {
            Some(e) => match expr_root_ident(e) {
                Some(n) => is_param_name(&f.params, n),
                None => false,
            },
            None => false,
        };
        assert(ok == returns_a_param(rs@[k as int], f.params@));
        if !ok {
            return None;
        }
        k += 1;
    }
    let mut indices: Vec<u32> = Vec::new();
    let mut m: usize = 0;
    while m < f.params.len()
        invariant
            m <= f.params@.len(),
            returned_params(f.params@, rs@, indices@, m as nat) == returned_params(f.params@, rs@, Seq::empty(), 0),
        decreases f.params@.len() - m,
    {
        if is_first_of_name(&f.params, m) && some_return_names(&rs, f.params[m].name.name.as_str()) {
            indices.push(m as u32);
        }
        m += 1;
    }
    Some(ReturnBorrowSource::MultiParam(indices))
}

pub open spec fn views_through(o: OracleV, p: Param) -> bool {
    !p.move_ && (o.non_copy(p.ty@) || o.contains_view(p.ty@))
}

pub open spec fn view_params(params: Seq<Param>, o: OracleV, acc: Seq<u32>, i: nat) -> Seq<u32>
    decreases params.len() - i,
{
    if i >= params.len() {
        acc
    } else if views_through(o, params[i as int]) {
        view_params(params, o, acc.push(i as u32), i + 1)
    } else {
        view_params(params, o, acc, i + 1)
    }
}

/// A view that is returned may look into any parameter that owns or holds views.
pub open spec fn view_source(f: Function, o: OracleV) -> Option<ReturnBorrowSourceV> {
    let indices = view_params(f.params@, o, Seq::empty(), 0);
    if !views_result(o, f.return_type) || indices.len() == 0 {
        None
    } else if indices.len() == 1 {
        Some(ReturnBorrowSourceV::Param(indices[0]))
    } else {
        Some(ReturnBorrowSourceV::MultiParam(indices))
    }
}

fn detect_fn_view(f: &Function, o: &CopyOracle) -> (r: Option<ReturnBorrowSource>)
    ensures
        opt_source(r) == view_source(*f, o@),
{
    if !result_is_view(o, &f.return_type) {
        return None;
    }
    let mut indices: Vec<u32> = Vec::new();
    let mut i: usize = 0;
    while i < f.params.len()
        invariant
            i <= f.params@.len(),
            view_params(f.params@, o@, indices@, i as nat) == view_params(f.params@, o@, Seq::empty(), 0),
        decreases f.params@.len() - i,
    {
        let p = &f.params[i];
        if !p.move_ && (o.definitely_non_copy(&p.ty) || o.type_contains_view(&p.ty)) {
            indices.push(i as u32);
        }
        i += 1;
    }
    if indices.len() == 0 {
        None
    } else if indices.len() == 1 {
        Some(ReturnBorrowSource::Param(indices[0]))
    } else {
        Some(ReturnBorrowSource::MultiParam(indices))
    }
}

/// A source with its flavor.
pub type ElisionV = Option<(ReturnBorrowSourceV, BorrowFlavor)>;

/// The borrow that a function's result holds: an exclusive or shared path into the
/// parameters, or a view into them; none where the function declares that it keeps nothing.
pub open spec fn fn_elision(f: Function, o: OracleV) -> ElisionV {
    if ast::keeps(f.attributes@, "nothing"@) {
        None
    } else if let Some(s) = single_source(f, o, true) {
        Some((s, BorrowFlavor::Exclusive))
    } else if let Some(s) = single_source(f, o, false) {
        Some((s, BorrowFlavor::Shared))
    } else if let Some(s) = multi_source(f, o, true) {
        Some((s, BorrowFlavor::Exclusive))
    } else if let Some(s) = multi_source(f, o, false) {
        Some((s, BorrowFlavor::Shared))
    } else if let Some(s) = view_source(f, o) {
        Some((s, BorrowFlavor::Shared))
    } else {
        None
    }
}

pub open spec fn opt_elision(s: Option<(ReturnBorrowSource, BorrowFlavor)>) -> ElisionV {
    match s {
        Some((x, fl)) => Some((x@, fl)),
        None => None,
    }
}

pub fn detect_fn_elision_with_flavor(f: &Function, o: &CopyOracle) -> (r: Option<(ReturnBorrowSource, BorrowFlavor)>)
    ensures
        opt_elision(r) == fn_elision(*f, o@),
{
    if has_keeps(&f.attributes, "nothing") {
        return None;
    }
    if let Some(s) = detect_fn_e1(f, o, true) {
        return Some((s, BorrowFlavor::Exclusive));
    }
    if let Some(s) = detect_fn_e1(f, o, false) {
        return Some((s, BorrowFlavor::Shared));
    }
    if let Some(s) = detect_fn_e3(f, o, true) {
        return Some((s, BorrowFlavor::Exclusive));
    }
    if let Some(s) = detect_fn_e3(f, o, false) {
        return Some((s, BorrowFlavor::Shared));
    }
    if let Some(s) = detect_fn_view(f, o) {
        return Some((s, BorrowFlavor::Shared));
    }
    None
}

/// The type that a bare name denotes.
pub open spec fn named_type(name: Seq<char>) -> TypeV {
    TypeV { kind: TypeKindV::Path(name), span: Span { start: 0, end: 0 } }
}

pub fn type_of_name(name: &str) -> (r: Type)
    ensures
        r@ == named_type(name@),
{
    Type { kind: TypeKind::Path(name.to_owned()), span: Span { start: 0, end: 0 } }
}

/// The receiver is lent, its type is moved, and every result is a path into it.
pub open spec fn receiver_path(b: ImplBlock, m: Method, o: OracleV, exclusive: bool) -> bool {
    &&& m.receiver == Some(if exclusive { Receiver::Mut } else { Receiver::Read })
    &&& o.non_copy(named_type(b.target.name@))
    &&& moves_result(o, m.return_type)
    &&& returns_only_rooted(m.body, "self"@)
}

fn detect_method_e2(b: &ImplBlock, m: &Method, o: &CopyOracle, exclusive: bool) -> (r: bool)
    ensures
        r == receiver_path(*b, *m, o@, exclusive),
{
    let lent = match m.receiver {
        Some(Receiver::Mut) => exclusive,
        Some(Receiver::Read) => !exclusive,
        _ => false,
    };
    lent && o.definitely_non_copy(&type_of_name(b.target.name.as_str())) && result_is_moved(o, &m.return_type)
        && body_returns_only_rooted_at(&m.body, "self")
}

/// The receiver is lent, owns or holds views, and the method returns a view.
pub open spec fn receiver_view(b: ImplBlock, m: Method, o: OracleV) -> bool {
    let t = named_type(b.target.name@);
    &&& m.receiver == Some(Receiver::Read) || m.receiver == Some(Receiver::Mut)
    &&& o.non_copy(t) || o.contains_view(t)
    &&& views_result(o, m.return_type)
}

fn detect_method_view(b: &ImplBlock, m: &Method, o: &CopyOracle) -> (r: bool)
    ensures
        r == receiver_view(*b, *m, o@),
{
    let lent = match m.receiver {
        Some(Receiver::Mut) => true,
        Some(Receiver::Read) => true,
        _ => false,
    };
    let t = type_of_name(b.target.name.as_str());
    lent && (o.definitely_non_copy(&t) || o.type_contains_view(&t)) && result_is_view(o, &m.return_type)
}

/// The borrow that a method's result holds on its receiver.
pub open spec fn method_elision(b: ImplBlock, m: Method, o: OracleV) -> ElisionV {
    if ast::keeps(m.attributes@, "nothing"@) {
        None
    } else if receiver_path(b, m, o, true) {
        Some((ReturnBorrowSourceV::SelfReceiver, BorrowFlavor::Exclusive))
    } else if receiver_path(b, m, o, false) || receiver_view(b, m, o) {
        Some((ReturnBorrowSourceV::SelfReceiver, BorrowFlavor::Shared))
    } else {
        None
    }
}

pub fn detect_method_elision_with_flavor(b: &ImplBlock, m: &Method, o: &CopyOracle) -> (r: Option<
    (ReturnBorrowSource, BorrowFlavor),
>)
    ensures
        opt_elision(r) == method_elision(*b, *m, o@),
{
    if has_keeps(&m.attributes, "nothing") {
        return None;
    }
    if detect_method_e2(b, m, o, true) {
        return Some((ReturnBorrowSource::SelfReceiver, BorrowFlavor::Exclusive));
    }
    if detect_method_e2(b, m, o, false) || detect_method_view(b, m, o) {
        return Some((ReturnBorrowSource::SelfReceiver, BorrowFlavor::Shared));
    }
    None
}

} // verus!
