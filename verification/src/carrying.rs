//! What a body carries: into its receiver, into its result and into its bindings.
use vstd::prelude::*;
use crate::ast;
use crate::flow;
use crate::place;
use crate::sigs;
use crate::ast::{Block, Expr, ExprKind, FieldInit, ForLoop, Ident, InterpStrPart, MatchArm, Pattern, PatternKind, Stmt, StmtKind, TypeV};
use crate::flow::FlowV;
use crate::sigs::{FnEntryV, SigTableV};

verus! {

/// Every source of the first set is in the second.
#[verifier::opaque]
pub open spec fn within(a: u64, b: u64) -> bool {
    a & b == a
}

proof fn lemma_within(a: u64, b: u64)
    ensures
        within(a, a),
        within(a, a | b),
        within(b, a | b),
        within(0, a),
{
    reveal(within);
    assert(a & a == a) by (bit_vector);
    assert(a & (a | b) == a) by (bit_vector);
    assert(b & (a | b) == b) by (bit_vector);
    assert(0 & a == 0) by (bit_vector);
}

proof fn lemma_chain(a: u64, b: u64, c: u64)
    requires
        within(a, b),
        within(b, c),
    ensures
        within(a, c),
{
    reveal(within);
    assert(a & c == a) by (bit_vector)
        requires
            a & b == a,
            b & c == b,
    ;
}

/// What had reached the receiver or the result still has.
pub open spec fn carries_on(a: FlowV, b: FlowV) -> bool {
    within(a.receiver_bits, b.receiver_bits) && within(a.ret_bits, b.ret_bits)
}

proof fn lemma_on(a: FlowV, b: FlowV, c: FlowV)
    requires
        carries_on(a, b),
        carries_on(b, c),
    ensures
        carries_on(a, c),
{
    lemma_chain(a.receiver_bits, b.receiver_bits, c.receiver_bits);
    lemma_chain(a.ret_bits, b.ret_bits, c.ret_bits);
}

proof fn lemma_same(a: FlowV, b: FlowV)
    requires
        a.receiver_bits == b.receiver_bits,
        a.ret_bits == b.ret_bits,
    ensures
        carries_on(a, b),
{
    lemma_within(a.receiver_bits, 0);
    lemma_within(a.ret_bits, 0);
}

proof fn lemma_into(st: FlowV, root: Seq<char>, bits: u64)
    ensures
        carries_on(st, st.into_root(root, bits)),
{
    lemma_within(st.receiver_bits, bits);
    lemma_within(st.ret_bits, bits);
}

proof fn lemma_set_names(st: FlowV, names: Seq<Seq<char>>, bits: u64, i: nat)
    ensures
        carries_on(st, flow::set_names(st, names, bits, i)),
        forall|n: Seq<char>| names.skip(i as int).contains(n) || (i <= names.len() && st.taint.dom().contains(n) && st.taint[n] == bits)
            ==> i <= names.len() ==> #[trigger] flow::set_names(st, names, bits, i).of(n) == bits,
    decreases names.len() - i,
{
    if i >= names.len() {
        lemma_same(st, st);
        assert forall|n: Seq<char>| i <= names.len() && names.skip(i as int).contains(n) implies false by {
            assert(names.skip(i as int).len() == 0);
        }
    } else {
        let a = st.set(names[i as int], bits);
        lemma_same(st, a);
        lemma_set_names(a, names, bits, i + 1);
        lemma_on(st, a, flow::set_names(st, names, bits, i));
        assert forall|n: Seq<char>| names.skip(i as int).contains(n) || (st.taint.dom().contains(n) && st.taint[n] == bits) implies
            #[trigger] flow::set_names(st, names, bits, i).of(n) == bits by {
            if names.skip(i as int).contains(n) {
                let k = choose|k: int| 0 <= k < names.skip(i as int).len() && names.skip(i as int)[k] == n;
                if k > 0 {
                    assert(names.skip(i as int + 1)[k - 1] == n);
                }
            }
        }
    }
}

proof fn lemma_set_idents(st: FlowV, ids: Seq<Ident>, bits: u64, i: nat)
    ensures
        carries_on(st, flow::set_idents(st, ids, bits, i)),
    decreases ids.len() - i,
{
    if i >= ids.len() {
        lemma_same(st, st);
    } else {
        let a = st.set(ids[i as int].name@, bits);
        lemma_same(st, a);
        lemma_set_idents(a, ids, bits, i + 1);
        lemma_on(st, a, flow::set_idents(st, ids, bits, i));
    }
}

proof fn lemma_payload(st: FlowV, payload: Seq<Pattern>, tys: Seq<TypeV>, map: Map<Seq<char>, TypeV>, i: nat)
    ensures
        flow::payload_bindings(st, payload, tys, map, i).receiver_bits == st.receiver_bits,
        flow::payload_bindings(st, payload, tys, map, i).ret_bits == st.ret_bits,
        flow::payload_bindings(st, payload, tys, map, i).taint == st.taint,
    decreases payload.len() - i,
{
    if i < payload.len() {
        match payload[i as int].kind {
            PatternKind::Binding(b) if i < tys.len() => match flow::nominal(sigs::subst(tys[i as int], map).kind) {
                Some(n) => {
                    lemma_payload(st.typed(b.name@, sigs::base_of(n)), payload, tys, map, i + 1);
                },
                None => {
                    lemma_payload(st, payload, tys, map, i + 1);
                },
            },
            _ => {
                lemma_payload(st, payload, tys, map, i + 1);
            },
        }
    }
}

proof fn lemma_pattern_types(st: FlowV, sigs: SigTableV, p: Pattern)
    ensures
        carries_on(st, flow::pattern_types(st, sigs, p)),
        flow::pattern_types(st, sigs, p).taint == st.taint,
{
    lemma_same(st, st);
    if let PatternKind::Variant { enum_name, type_args, variant_name, payload } = p.kind {
        let base = sigs::base_of(enum_name.name@);
        lemma_payload(
            st,
            payload@,
            sigs.enum_payloads[base][variant_name.name@],
            sigs::bind_args(Map::empty(), sigs.enum_generics[base], ast::types_view(type_args@), 0),
            0,
        );
        lemma_same(st, flow::pattern_types(st, sigs, p));
    }
}

proof fn on_exprs(sigs: SigTableV, st: FlowV, es: Seq<Expr>, acc: Seq<u64>, i: nat)
    ensures
        carries_on(st, flow::flow_exprs(sigs, st, es, acc, i).0),
    decreases es, es.len() - i,
{
    lemma_same(st, st);
    if i < es.len() {
        let (a, t) = flow::flow_expr(sigs, st, es[i as int]);
        on_expr(sigs, st, es[i as int]);
        on_exprs(sigs, a, es, acc.push(t), i + 1);
        lemma_on(st, a, flow::flow_exprs(sigs, st, es, acc, i).0);
    }
}

proof fn on_fields(sigs: SigTableV, st: FlowV, fs: Seq<FieldInit>, acc: u64, i: nat)
    ensures
        carries_on(st, flow::flow_fields(sigs, st, fs, acc, i).0),
        within(acc, flow::flow_fields(sigs, st, fs, acc, i).1),
    decreases fs, fs.len() - i,
{
    lemma_same(st, st);
    lemma_within(acc, acc);
    if i < fs.len() {
        let (a, t) = flow::flow_expr(sigs, st, fs[i as int].value);
        on_expr(sigs, st, fs[i as int].value);
        on_fields(sigs, a, fs, acc | t, i + 1);
        lemma_on(st, a, flow::flow_fields(sigs, st, fs, acc, i).0);
        lemma_within(acc, t);
        lemma_chain(acc, acc | t, flow::flow_fields(sigs, st, fs, acc, i).1);
    }
}

proof fn on_arms(sigs: SigTableV, st: FlowV, arms: Seq<MatchArm>, bits: u64, acc: u64, i: nat)
    ensures
        carries_on(st, flow::flow_arms(sigs, st, arms, bits, acc, i).0),
        within(acc, flow::flow_arms(sigs, st, arms, bits, acc, i).1),
    decreases arms, arms.len() - i,
{
    lemma_same(st, st);
    lemma_within(acc, acc);
    if i < arms.len() {
        let arm = arms[i as int];
        let names = flow::pattern_names(Seq::empty(), arm.pattern);
        let a = flow::set_names(st, names, bits, 0);
        lemma_set_names(st, names, bits, 0);
        let b = flow::pattern_types(a, sigs, arm.pattern);
        lemma_pattern_types(a, sigs, arm.pattern);
        lemma_on(st, a, b);
        let (c, t) = flow::flow_expr(sigs, b, arm.body);
        on_expr(sigs, b, arm.body);
        lemma_on(st, b, c);
        on_arms(sigs, c, arms, bits, acc | t, i + 1);
        lemma_on(st, c, flow::flow_arms(sigs, st, arms, bits, acc, i).0);
        lemma_within(acc, t);
        lemma_chain(acc, acc | t, flow::flow_arms(sigs, st, arms, bits, acc, i).1);
    }
}

proof fn on_parts(sigs: SigTableV, st: FlowV, ps: Seq<InterpStrPart>, i: nat)
    ensures
        carries_on(st, flow::flow_parts(sigs, st, ps, i)),
    decreases ps, ps.len() - i,
{
    lemma_same(st, st);
    if i < ps.len() {
        let a = match ps[i as int] {
            InterpStrPart::Expr(e) => flow::flow_expr(sigs, st, e).0,
            InterpStrPart::Text(_) => st,
        };
        if let InterpStrPart::Expr(e) = ps[i as int] {
            on_expr(sigs, st, e);
        }
        on_parts(sigs, a, ps, i + 1);
        lemma_on(st, a, flow::flow_parts(sigs, st, ps, i));
    }
}

proof fn on_stmts(sigs: SigTableV, st: FlowV, ss: Seq<Stmt>, i: nat)
    ensures
        carries_on(st, flow::flow_stmts(sigs, st, ss, i)),
    decreases ss, ss.len() - i,
{
    lemma_same(st, st);
    if i < ss.len() {
        let a = flow::flow_stmt(sigs, st, ss[i as int]);
        on_stmt(sigs, st, ss[i as int]);
        on_stmts(sigs, a, ss, i + 1);
        lemma_on(st, a, flow::flow_stmts(sigs, st, ss, i));
    }
}

proof fn on_twice(sigs: SigTableV, st: FlowV, b: Block)
    ensures
        carries_on(flow::flow_block(sigs, st, b).0, flow::flow_block(sigs, flow::flow_block(sigs, st, b).0, b).0),
        carries_on(st, flow::flow_block(sigs, flow::flow_block(sigs, st, b).0, b).0),
    decreases b, 1nat,
{
    let a = flow::flow_block(sigs, st, b).0;
    on_block(sigs, st, b);
    on_block(sigs, a, b);
    lemma_on(st, a, flow::flow_block(sigs, a, b).0);
}

proof fn on_stmt(sigs: SigTableV, st: FlowV, s: Stmt)
    ensures
        carries_on(st, flow::flow_stmt(sigs, st, s)),
    decreases s, 0nat,
{
    lemma_same(st, st);
    match s.kind {
        StmtKind::Let { name, ty, init, .. } => {
            let a = match init {
                Some(e) => flow::flow_expr(sigs, st, e).0,
                None => st,
            };
            if let Some(e) = init {
                on_expr(sigs, st, e);
            }
            lemma_same(a, flow::flow_stmt(sigs, st, s));
            lemma_on(st, a, flow::flow_stmt(sigs, st, s));
        },
        StmtKind::LetDestructure { fields, init, .. } => {
            let (a, t) = flow::flow_expr(sigs, st, init);
            on_expr(sigs, st, init);
            lemma_set_idents(a, fields@, t, 0);
            lemma_on(st, a, flow::flow_stmt(sigs, st, s));
        },
        StmtKind::Return(v) => {
            if let Some(e) = v {
                let (a, t) = flow::flow_expr(sigs, st, e);
                on_expr(sigs, st, e);
                lemma_within(a.ret_bits, t);
                lemma_within(a.receiver_bits, t);
                lemma_on(st, a, a.returning(t));
            }
        },
        StmtKind::Expr(e) => {
            on_expr(sigs, st, e);
        },
        StmtKind::Defer(e) => {
            on_expr(sigs, st, e);
        },
        StmtKind::Assert(e) => {
            on_expr(sigs, st, e);
        },
        StmtKind::While { cond, body } => {
            let a = flow::flow_expr(sigs, st, cond).0;
            on_expr(sigs, st, cond);
            on_twice(sigs, a, body);
            lemma_on(st, a, flow::flow_stmt(sigs, st, s));
        },
        StmtKind::Loop(b) => {
            on_twice(sigs, st, b);
        },
        StmtKind::For(fl) => {
            on_for(sigs, st, fl);
        },
        _ => {},
    }
}

proof fn on_for(sigs: SigTableV, st: FlowV, fl: ForLoop)
    ensures
        carries_on(st, flow::flow_for(sigs, st, fl)),
        carries_on(st, for_entry(sigs, st, fl)),
    decreases fl, 0nat,
{
    lemma_same(st, st);
    match fl {
        ForLoop::CStyle { init, cond, update, body } => {
            let a = match init {
                Some(s) => flow::flow_stmt(sigs, st, *s),
                None => st,
            };
            if let Some(s) = init {
                on_stmt(sigs, st, *s);
            }
            let b = match cond {
                Some(c) => flow::flow_expr(sigs, a, c).0,
                None => a,
            };
            lemma_same(a, a);
            if let Some(c) = cond {
                on_expr(sigs, a, c);
            }
            lemma_on(st, a, b);
            let c = flow::flow_exprs(sigs, b, update@, Seq::empty(), 0).0;
            on_exprs(sigs, b, update@, Seq::empty(), 0);
            lemma_on(st, b, c);
            on_twice(sigs, c, body);
            lemma_on(st, c, flow::flow_for(sigs, st, fl));
        },
        ForLoop::Range { var, iter, body } => {
            let a = flow::flow_expr(sigs, st, iter).0;
            on_expr(sigs, st, iter);
            let b = a.set(var.name@, 0);
            lemma_same(a, b);
            lemma_on(st, a, b);
            on_twice(sigs, b, body);
            lemma_on(st, b, flow::flow_for(sigs, st, fl));
        },
    }
}

proof fn on_block(sigs: SigTableV, st: FlowV, b: Block)
    ensures
        carries_on(st, flow::flow_block(sigs, st, b).0),
    decreases b, 0nat,
{
    let a = flow::flow_stmts(sigs, st, b.stmts@, 0);
    on_stmts(sigs, st, b.stmts@, 0);
    if let Some(t) = b.tail {
        on_expr(sigs, a, *t);
        lemma_on(st, a, flow::flow_expr(sigs, a, *t).0);
    }
}

proof fn on_call(sigs: SigTableV, st: FlowV, e: Expr)
    requires
        e.kind is Call,
    ensures
        carries_on(st, flow::flow_expr(sigs, st, e).0),
    decreases e, 0nat,
{
    if let ExprKind::Call { callee, args, .. } = e.kind {
        let (a, ts) = flow::flow_exprs(sigs, st, args@, Seq::empty(), 0);
        on_exprs(sigs, st, args@, Seq::empty(), 0);
        match callee.kind {
            ExprKind::Field { receiver, name } => {
                let (b, rtaint) = flow::flow_expr(sigs, a, *receiver);
                on_expr(sigs, a, *receiver);
                lemma_on(st, a, b);
                let root = flow::root_name(place::place_of(*receiver));
                if let Some(r) = root {
                    if let Some(ty) = flow::receiver_type(b, root) {
                        if let Some(entry) = sigs.method(ty, name.name@) {
                            let kept = flow::union_kept(sigs::kept_params(entry), ts, 0, 0);
                            lemma_into(b, r, kept);
                            lemma_on(st, b, b.into_root(r, kept));
                        }
                    }
                }
            },
            ExprKind::Ident(_) => {},
            _ => {
                on_expr(sigs, a, *callee);
                lemma_on(st, a, flow::flow_expr(sigs, a, *callee).0);
            },
        }
    }
}

proof fn on_expr(sigs: SigTableV, st: FlowV, e: Expr)
    ensures
        carries_on(st, flow::flow_expr(sigs, st, e).0),
    decreases e, 1nat,
{
    lemma_same(st, st);
    match e.kind {
        ExprKind::Field { receiver, .. } => {
            on_expr(sigs, st, *receiver);
        },
        ExprKind::Index { receiver, index } => {
            let a = flow::flow_expr(sigs, st, *index).0;
            on_expr(sigs, st, *index);
            on_expr(sigs, a, *receiver);
            lemma_on(st, a, flow::flow_expr(sigs, a, *receiver).0);
        },
        ExprKind::Assign { target, value, .. } => {
            let (a, t) = flow::flow_expr(sigs, st, *value);
            on_expr(sigs, st, *value);
            if let Some(p) = place::place_of(*target) {
                lemma_into(a, p.root, t);
                lemma_on(st, a, a.into_root(p.root, t));
            }
        },
        ExprKind::Call { .. } => {
            on_call(sigs, st, e);
        },
        ExprKind::StructLit { fields, .. } => {
            on_fields(sigs, st, fields@, 0, 0);
        },
        ExprKind::InferredStructLit { fields } => {
            on_fields(sigs, st, fields@, 0, 0);
        },
        ExprKind::Block(b) => {
            on_block(sigs, st, b);
        },
        ExprKind::If { cond, then, else_branch } => {
            let a = flow::flow_expr(sigs, st, *cond).0;
            on_expr(sigs, st, *cond);
            let b = flow::flow_block(sigs, a, then).0;
            on_block(sigs, a, then);
            lemma_on(st, a, b);
            if let Some(x) = else_branch {
                on_expr(sigs, b, *x);
                lemma_on(st, b, flow::flow_expr(sigs, b, *x).0);
            }
        },
        ExprKind::Match { scrutinee, arms } => {
            let (a, bits) = flow::flow_expr(sigs, st, *scrutinee);
            on_expr(sigs, st, *scrutinee);
            on_arms(sigs, a, arms@, bits, 0, 0);
            lemma_on(st, a, flow::flow_arms(sigs, a, arms@, bits, 0, 0).0);
        },
        ExprKind::Cast { expr, .. } => {
            on_expr(sigs, st, *expr);
        },
        ExprKind::Await(inner) => {
            on_expr(sigs, st, *inner);
        },
        ExprKind::Yield(inner) => {
            on_expr(sigs, st, *inner);
        },
        ExprKind::Unary { operand, .. } => {
            on_expr(sigs, st, *operand);
        },
        ExprKind::Binary { lhs, rhs, .. } => {
            let a = flow::flow_expr(sigs, st, *lhs).0;
            on_expr(sigs, st, *lhs);
            on_expr(sigs, a, *rhs);
            lemma_on(st, a, flow::flow_expr(sigs, a, *rhs).0);
        },
        ExprKind::InterpStr { parts } => {
            on_parts(sigs, st, parts@, 0);
        },
        ExprKind::Intrinsic { args, .. } => {
            on_exprs(sigs, st, args@, Seq::empty(), 0);
        },
        _ => {},
    }
}

/// What has reached the receiver or the result of a body is never taken back.
pub proof fn flows_are_never_lost(sigs: SigTableV, st: FlowV, ss: Seq<Stmt>, i: nat)
    ensures
        carries_on(st, flow::flow_stmts(sigs, st, ss, i)),
{
    on_stmts(sigs, st, ss, i);
}

/// What is known when the body of a `for` is entered for the first time.
pub open spec fn for_entry(sigs: SigTableV, st: FlowV, fl: ForLoop) -> FlowV {
    match fl {
        ForLoop::CStyle { init, cond, update, .. } => {
            let a = match init {
                Some(s) => flow::flow_stmt(sigs, st, *s),
                None => st,
            };
            let b = match cond {
                Some(c) => flow::flow_expr(sigs, a, c).0,
                None => a,
            };
            flow::flow_exprs(sigs, b, update@, Seq::empty(), 0).0
        },
        ForLoop::Range { var, iter, .. } => flow::flow_expr(sigs, st, iter).0.set(var.name@, 0),
    }
}

/// What the body carries in the first round, and in a round that starts from there, is known.
pub open spec fn carries_rounds(sigs: SigTableV, entry: FlowV, body: Block, after: FlowV) -> bool {
    let first = flow::flow_block(sigs, entry, body).0;
    carries_on(first, after) && carries_on(flow::flow_block(sigs, first, body).0, after)
}

/// What a loop's body carries into the receiver or the result has reached it after the loop, be it
/// in the first round or in one that builds on it.
pub proof fn bodies_of_loops_carry(sigs: SigTableV, st: FlowV, s: Stmt)
    ensures
        s.kind matches StmtKind::While { cond, body } ==> carries_rounds(
            sigs,
            flow::flow_expr(sigs, st, cond).0,
            body,
            flow::flow_stmt(sigs, st, s),
        ),
        s.kind matches StmtKind::Loop(b) ==> carries_rounds(sigs, st, b, flow::flow_stmt(sigs, st, s)),
        s.kind matches StmtKind::For(fl) ==> (fl matches ForLoop::Range { var, iter, body } ==> carries_rounds(
            sigs,
            for_entry(sigs, st, fl),
            body,
            flow::flow_stmt(sigs, st, s),
        )),
        s.kind matches StmtKind::For(fl) ==> (fl matches ForLoop::CStyle { init, cond, update, body } ==> carries_rounds(
            sigs,
            for_entry(sigs, st, fl),
            body,
            flow::flow_stmt(sigs, st, s),
        )),
{
    let after = flow::flow_stmt(sigs, st, s);
    lemma_same(after, after);
    match s.kind {
        StmtKind::While { cond, body } => {
            on_twice(sigs, flow::flow_expr(sigs, st, cond).0, body);
        },
        StmtKind::Loop(b) => {
            on_twice(sigs, st, b);
        },
        StmtKind::For(fl) => match fl {
            ForLoop::CStyle { body, .. } => {
                on_twice(sigs, for_entry(sigs, st, fl), body);
                assert(after == flow::flow_for(sigs, st, fl));
            },
            ForLoop::Range { body, .. } => {
                on_twice(sigs, for_entry(sigs, st, fl), body);
                assert(after == flow::flow_for(sigs, st, fl));
            },
        },
        _ => {},
    }
}

/// Both branches of an `if` carry, into the receiver, into the result and as its value.
pub proof fn branches_carry(sigs: SigTableV, st: FlowV, e: Expr, cond: Expr, then: Block, x: Expr)
    requires
        e.kind matches ExprKind::If { cond: c, then: t, else_branch: Some(y) } && *c == cond && t == then && *y == x,
    ensures
        carries_on(flow::flow_block(sigs, flow::flow_expr(sigs, st, cond).0, then).0, flow::flow_expr(sigs, st, e).0),
        within(flow::flow_block(sigs, flow::flow_expr(sigs, st, cond).0, then).1, flow::flow_expr(sigs, st, e).1),
        carries_on(
            flow::flow_expr(sigs, flow::flow_block(sigs, flow::flow_expr(sigs, st, cond).0, then).0, x).0,
            flow::flow_expr(sigs, st, e).0,
        ),
        within(
            flow::flow_expr(sigs, flow::flow_block(sigs, flow::flow_expr(sigs, st, cond).0, then).0, x).1,
            flow::flow_expr(sigs, st, e).1,
        ),
{
    let (a, t) = flow::flow_block(sigs, flow::flow_expr(sigs, st, cond).0, then);
    let (b, u) = flow::flow_expr(sigs, a, x);
    on_expr(sigs, a, x);
    lemma_same(b, b);
    lemma_within(t, u);
    lemma_within(u, t);
    assert(flow::flow_expr(sigs, st, e) == (b, t | u));
}

/// A `return` carries its value into the result.
pub proof fn returns_carry(sigs: SigTableV, st: FlowV, s: Stmt, e: Expr)
    requires
        s.kind == StmtKind::Return(Some(e)),
    ensures
        within(flow::flow_expr(sigs, st, e).1, flow::flow_stmt(sigs, st, s).ret_bits),
{
    let (a, t) = flow::flow_expr(sigs, st, e);
    lemma_within(a.ret_bits, t);
}

/// A place of the receiver that is written to carries the value into the receiver; any other place
/// carries it into its binding, on top of what the binding held.
pub proof fn stores_carry(sigs: SigTableV, st: FlowV, e: Expr, root: Seq<char>)
    requires
        e.kind matches ExprKind::Assign { target, .. } && (place::place_of(*target) matches Some(p) && p.root == root),
    ensures
        e.kind matches ExprKind::Assign { value, .. } && {
            let (a, t) = flow::flow_expr(sigs, st, *value);
            let b = flow::flow_expr(sigs, st, e).0;
            if root == "self"@ || root == "this"@ {
                within(t, b.receiver_bits)
            } else {
                within(t, b.of(root)) && within(a.of(root), b.of(root))
            }
        },
{
    if let ExprKind::Assign { value, .. } = e.kind {
        let (a, t) = flow::flow_expr(sigs, st, *value);
        lemma_within(a.receiver_bits, t);
        lemma_within(a.of(root), t);
    }
}

/// A `let` carries its value into the binding, and nothing else.
pub proof fn lets_carry(sigs: SigTableV, st: FlowV, s: Stmt, name: Seq<char>, e: Expr)
    requires
        s.kind matches StmtKind::Let { name: n, init: Some(x), .. } && n.name@ == name && x == e,
    ensures
        flow::flow_stmt(sigs, st, s).of(name) == flow::flow_expr(sigs, st, e).1,
{
}

/// The names that a pattern binds carry what is matched on.
pub proof fn patterns_carry(st: FlowV, p: Pattern, bits: u64, name: Seq<char>)
    requires
        flow::pattern_names(Seq::empty(), p).contains(name),
    ensures
        flow::set_names(st, flow::pattern_names(Seq::empty(), p), bits, 0).of(name) == bits,
{
    let names = flow::pattern_names(Seq::empty(), p);
    lemma_set_names(st, names, bits, 0);
    assert(names.skip(0) =~= names);
}

/// What is known before field `j` of a literal is walked.
pub open spec fn before_field(sigs: SigTableV, st: FlowV, fs: Seq<FieldInit>, j: nat) -> FlowV
    decreases j,
{
    if j == 0 || j > fs.len() {
        st
    } else {
        flow::flow_expr(sigs, before_field(sigs, st, fs, (j - 1) as nat), fs[j - 1].value).0
    }
}

proof fn lemma_fields(sigs: SigTableV, st: FlowV, fs: Seq<FieldInit>, acc: u64, i: nat, j: nat)
    requires
        i <= j < fs.len(),
    ensures
        within(
            flow::flow_expr(sigs, before_field(sigs, st, fs, j), fs[j as int].value).1,
            flow::flow_fields(sigs, before_field(sigs, st, fs, i), fs, acc, i).1,
        ),
    decreases fs.len() - i,
{
    let a = before_field(sigs, st, fs, i);
    let (b, t) = flow::flow_expr(sigs, a, fs[i as int].value);
    assert(before_field(sigs, st, fs, i + 1) == b);
    if i == j {
        on_fields(sigs, b, fs, acc | t, i + 1);
        lemma_within(acc, t);
        lemma_chain(t, acc | t, flow::flow_fields(sigs, b, fs, acc | t, i + 1).1);
    } else {
        lemma_fields(sigs, st, fs, acc | t, i + 1, j);
    }
}

/// A literal carries what each of its fields carries.
pub proof fn literals_carry_their_fields(sigs: SigTableV, st: FlowV, e: Expr, fs: Seq<FieldInit>, j: nat)
    requires
        (e.kind matches ExprKind::StructLit { fields, .. } && fields@ == fs) || (e.kind matches ExprKind::InferredStructLit { fields }
            && fields@ == fs),
        j < fs.len(),
    ensures
        within(
            flow::flow_expr(sigs, before_field(sigs, st, fs, j), fs[j as int].value).1,
            flow::flow_expr(sigs, st, e).1,
        ),
{
    lemma_fields(sigs, st, fs, 0, 0, j);
}

proof fn lemma_selected(ts: Seq<u64>, bits: u64, acc: u64, i: nat, j: nat)
    ensures
        within(acc, flow::union_selected(ts, bits, acc, i)),
        i <= j < ts.len() && flow::bit_at(bits, j) ==> within(ts[j as int], flow::union_selected(ts, bits, acc, i)),
    decreases ts.len() - i,
{
    lemma_within(acc, acc);
    if i < ts.len() {
        let next = if flow::bit_at(bits, i) {
            acc | ts[i as int]
        } else {
            acc
        };
        lemma_within(acc, ts[i as int]);
        lemma_selected(ts, bits, next, i + 1, j);
        let r = flow::union_selected(ts, bits, acc, i);
        lemma_chain(acc, next, r);
        if i == j && flow::bit_at(bits, i) {
            lemma_chain(ts[i as int], next, r);
        }
    }
}

proof fn lemma_kept(keeps: Seq<bool>, ts: Seq<u64>, acc: u64, i: nat, j: nat)
    ensures
        within(acc, flow::union_kept(keeps, ts, acc, i)),
        i <= j < keeps.len() && j < ts.len() && keeps[j as int] ==> within(ts[j as int], flow::union_kept(keeps, ts, acc, i)),
    decreases keeps.len() - i,
{
    lemma_within(acc, acc);
    if i < keeps.len() {
        let t: u64 = if i < ts.len() { ts[i as int] } else { 0 };
        let next = if keeps[i as int] {
            acc | t
        } else {
            acc
        };
        lemma_within(acc, t);
        lemma_kept(keeps, ts, next, i + 1, j);
        let r = flow::union_kept(keeps, ts, acc, i);
        lemma_chain(acc, next, r);
        if i == j && keeps[i as int] {
            lemma_chain(t, next, r);
        }
    }
}

/// A call of a function carries what the arguments carry that are known to flow into its result.
pub proof fn calls_carry_what_flows_through(sigs: SigTableV, st: FlowV, e: Expr, name: Seq<char>, args: Seq<Expr>, bits: u64, j: nat)
    requires
        e.kind matches ExprKind::Call { callee, args: xs, .. } && xs@ == args && (callee.kind matches ExprKind::Ident(c) && c@ == name),
        sigs.fns.dom().contains(name),
        sigs.fns[name].computed_ret_flow == Some(bits),
        j < flow::flow_exprs(sigs, st, args, Seq::empty(), 0).1.len(),
        flow::bit_at(bits, j),
    ensures
        within(flow::flow_exprs(sigs, st, args, Seq::empty(), 0).1[j as int], flow::flow_expr(sigs, st, e).1),
{
    lemma_selected(flow::flow_exprs(sigs, st, args, Seq::empty(), 0).1, bits, 0, 0, j);
}

/// A call of a method carries the arguments that it keeps into the receiver's binding, or into the
/// receiver of the body.
pub proof fn kept_arguments_reach_the_receiver(st: FlowV, entry: FnEntryV, root: Seq<char>, rtaint: u64, ts: Seq<u64>, j: nat)
    requires
        j < ts.len(),
        j < sigs::kept_params(entry).len(),
        sigs::kept_params(entry)[j as int],
    ensures
        ({
            let b = flow::method_flow(st, entry, Some(root), rtaint, ts).0;
            if root == "self"@ || root == "this"@ {
                within(ts[j as int], b.receiver_bits)
            } else {
                within(ts[j as int], b.of(root))
            }
        }),
{
    let kept = flow::union_kept(sigs::kept_params(entry), ts, 0, 0);
    lemma_kept(sigs::kept_params(entry), ts, 0, 0, j);
    let b = flow::method_flow(st, entry, Some(root), rtaint, ts).0;
    if kept == 0 {
        lemma_nothing(ts[j as int]);
        lemma_within(b.receiver_bits, 0);
        lemma_within(b.of(root), 0);
    } else {
        lemma_within(st.receiver_bits, kept);
        lemma_within(st.of(root), kept);
        lemma_chain(ts[j as int], kept, st.receiver_bits | kept);
        lemma_chain(ts[j as int], kept, st.of(root) | kept);
    }
}

proof fn lemma_nothing(a: u64)
    ensures
        within(a, 0) ==> a == 0,
{
    reveal(within);
    assert(a & 0 == 0) by (bit_vector);
}

} // verus!
