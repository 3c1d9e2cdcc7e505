//! How values passed to a function flow into its receiver, its result and its `ref`
//! parameters.
use vstd::prelude::*;
use vstd::string::*;
use crate::ast;
use crate::place;
use crate::sigs;
use crate::ast::{Block, Expr, ExprKind, FieldInit, ForLoop, Function, Ident, ImplBlock, InterpStrPart, Item, ItemKind, MatchArm, Method, Param, Pattern, PatternKind, Program, Stmt, StmtKind, Type, TypeKind, TypeKindV, TypeV};
use crate::place::{PlaceV, place_from_expr};
use crate::sigs::{FnEntry, FnEntryV, SigTable, SigTableV, base_type_name, bindings, effective_keeps, flag, key_of, subst_type};
use crate::table::NameMap;
use crate::text::str_eq;

verus! {

/// The bit that stands for the receiver; parameters use the bits of their index.
pub const RECV_TAINT_BIT: u64 = 0x8000_0000_0000_0000;

/// The names that a pattern binds, in order.
pub open spec fn pattern_names(acc: Seq<Seq<char>>, p: Pattern) -> Seq<Seq<char>>
    decreases p, 0nat,
{
    match p.kind {
        PatternKind::Binding(id) => acc.push(id.name@),
        PatternKind::Variant { payload, .. } => patterns_names(acc, payload@, 0),
        _ => acc,
    }
}

pub open spec fn patterns_names(acc: Seq<Seq<char>>, ps: Seq<Pattern>, i: nat) -> Seq<Seq<char>>
    decreases ps, ps.len() - i,
{
    if i >= ps.len() {
        acc
    } else {
        patterns_names(pattern_names(acc, ps[i as int]), ps, i + 1)
    }
}

#[verifier::loop_isolation(false)]
fn collect_pattern_names(p: &Pattern, out: &mut Vec<String>)
    ensures
        final(out).deep_view() == pattern_names(old(out).deep_view(), *p),
    decreases p,
{
    match &p.kind {
        PatternKind::Binding(id) => {
            let ghost before = out.deep_view();
            out.push(id.name.clone());
            assert(out.deep_view() =~= before.push(id.name@));
        },
        PatternKind::Variant { payload, .. } => {
            let mut i: usize = 0;
            while i < payload.len()
                invariant
                    i <= payload@.len(),
                    patterns_names(out.deep_view(), payload@, i as nat) == patterns_names(
                        old(out).deep_view(),
                        payload@,
                        0,
                    ),
                decreases payload@.len() - i,
            {
                collect_pattern_names(&payload[i], out);
                i += 1;
            }
        },
        _ => {},
    }
}

pub fn pattern_binding_names(p: &Pattern) -> (r: Vec<String>)
    ensures
        r.deep_view() == pattern_names(Seq::empty(), *p),
{
    let mut out: Vec<String> = Vec::new();
    assert(out.deep_view() =~= Seq::<Seq<char>>::empty());
    collect_pattern_names(p, &mut out);
    out
}

/// The sources that may have reached each binding, the receiver and the result.
#[verifier::ext_equal]
pub struct FlowV {
    pub taint: Map<Seq<char>, u64>,
    pub types: Map<Seq<char>, Seq<char>>,
    pub receiver_bits: u64,
    pub ret_bits: u64,
}

pub struct FlowCtx {
    pub taint: NameMap<u64>,
    pub types: NameMap<String>,
    pub receiver_bits: u64,
    pub ret_bits: u64,
}

impl View for FlowCtx {
    type V = FlowV;

    open spec fn view(&self) -> FlowV {
        FlowV {
            taint: self.taint@,
            types: self.types@,
            receiver_bits: self.receiver_bits,
            ret_bits: self.ret_bits,
        }
    }
}

pub open spec fn receiver_root(root: Seq<char>) -> bool {
    root == "self"@ || root == "this"@
}

fn is_receiver_root(root: &str) -> (r: bool)
    ensures
        r == receiver_root(root@),
{
    str_eq(root, "self") || str_eq(root, "this")
}

pub open spec fn bit(i: nat) -> u64 {
    1u64 << (i as u64)
}

pub open spec fn bit_at(bits: u64, i: nat) -> bool {
    i < 64 && bits & bit(i) != 0
}

pub fn has_bit(bits: u64, i: usize) -> (r: bool)
    ensures
        r == bit_at(bits, i as nat),
{
    i < 64 && bits & (1u64 << (i as u64)) != 0
}

/// The union of all the taints.
pub open spec fn union_all(ts: Seq<u64>, acc: u64, i: nat) -> u64
    decreases ts.len() - i,
{
    if i >= ts.len() {
        acc
    } else {
        union_all(ts, acc | ts[i as int], i + 1)
    }
}

/// The union of the taints of the arguments that the bit set selects.
pub open spec fn union_selected(ts: Seq<u64>, bits: u64, acc: u64, i: nat) -> u64
    decreases ts.len() - i,
{
    if i >= ts.len() {
        acc
    } else {
        union_selected(ts, bits, if bit_at(bits, i) { acc | ts[i as int] } else { acc }, i + 1)
    }
}

/// The union of the taints of the arguments that are kept.
pub open spec fn union_kept(keeps: Seq<bool>, ts: Seq<u64>, acc: u64, i: nat) -> u64
    decreases keeps.len() - i,
{
    if i >= keeps.len() {
        acc
    } else {
        let t = if i < ts.len() { ts[i as int] } else { 0 };
        union_kept(keeps, ts, if keeps[i as int] { acc | t } else { acc }, i + 1)
    }
}

fn or_all(ts: &Vec<u64>, start: u64) -> (r: u64)
    ensures
        r == union_all(ts@, start, 0),
{
    let mut acc: u64 = start;
    let mut i: usize = 0;
    while i < ts.len()
        invariant
            i <= ts@.len(),
            union_all(ts@, acc, i as nat) == union_all(ts@, start, 0),
        decreases ts@.len() - i,
    {
        acc = acc | ts[i];
        i += 1;
    }
    acc
}

fn or_selected(ts: &Vec<u64>, bits: u64, start: u64) -> (r: u64)
    ensures
        r == union_selected(ts@, bits, start, 0),
{
    let mut acc: u64 = start;
    let mut i: usize = 0;
    while i < ts.len()
        invariant
            i <= ts@.len(),
            union_selected(ts@, bits, acc, i as nat) == union_selected(ts@, bits, start, 0),
        decreases ts@.len() - i,
    {
        if has_bit(bits, i) {
            acc = acc | ts[i];
        }
        i += 1;
    }
    acc
}

fn or_kept(keeps: &Vec<bool>, ts: &Vec<u64>) -> (r: u64)
    ensures
        r == union_kept(keeps@, ts@, 0, 0),
{
    let mut acc: u64 = 0;
    let mut i: usize = 0;
    while i < keeps.len()
        invariant
            i <= keeps@.len(),
            union_kept(keeps@, ts@, acc, i as nat) == union_kept(keeps@, ts@, 0, 0),
        decreases keeps@.len() - i,
    {
        if keeps[i] {
            let t: u64 = if i < ts.len() { ts[i] } else { 0 };
            acc = acc | t;
        }
        i += 1;
    }
    acc
}

impl FlowV {
    pub open spec fn of(self, name: Seq<char>) -> u64 {
        if self.taint.dom().contains(name) {
            self.taint[name]
        } else {
            0
        }
    }

    pub open spec fn set(self, name: Seq<char>, bits: u64) -> FlowV {
        FlowV { taint: self.taint.insert(name, bits), ..self }
    }

    pub open spec fn typed(self, name: Seq<char>, ty: Seq<char>) -> FlowV {
        FlowV { types: self.types.insert(name, ty), ..self }
    }

    /// The bits flow into the place rooted at `root`.
    pub open spec fn into_root(self, root: Seq<char>, bits: u64) -> FlowV {
        if receiver_root(root) {
            FlowV { receiver_bits: self.receiver_bits | bits, ..self }
        } else {
            self.set(root, self.of(root) | bits)
        }
    }

    pub open spec fn returning(self, bits: u64) -> FlowV {
        FlowV { ret_bits: self.ret_bits | bits, ..self }
    }
}

pub open spec fn set_names(st: FlowV, names: Seq<Seq<char>>, bits: u64, i: nat) -> FlowV
    decreases names.len() - i,
{
    if i >= names.len() {
        st
    } else {
        set_names(st.set(names[i as int], bits), names, bits, i + 1)
    }
}

pub open spec fn set_idents(st: FlowV, ids: Seq<Ident>, bits: u64, i: nat) -> FlowV
    decreases ids.len() - i,
{
    if i >= ids.len() {
        st
    } else {
        set_idents(st.set(ids[i as int].name@, bits), ids, bits, i + 1)
    }
}

/// The declared type name of a type, if it has one.
pub open spec fn nominal(k: TypeKindV) -> Option<Seq<char>> {
    match k {
        TypeKindV::Path(p) => Some(p),
        TypeKindV::Generic { name, .. } => Some(name),
        _ => None,
    }
}

/// Records the types that payload bindings get from the type arguments of their pattern.
pub open spec fn payload_bindings(
    st: FlowV,
    payload: Seq<Pattern>,
    tys: Seq<TypeV>,
    map: Map<Seq<char>, TypeV>,
    i: nat,
) -> FlowV
    decreases payload.len() - i,
{
    if i >= payload.len() {
        st
    } else {
        payload_bindings(
            match payload[i as int].kind {
                PatternKind::Binding(b) if i < tys.len() => match nominal(sigs::subst(tys[i as int], map).kind) {
                    Some(n) => st.typed(b.name@, sigs::base_of(n)),
                    None => st,
                },
                _ => st,
            },
            payload,
            tys,
            map,
            i + 1,
        )
    }
}

pub open spec fn pattern_types(st: FlowV, sigs: SigTableV, p: Pattern) -> FlowV {
    match p.kind {
        PatternKind::Variant { enum_name, type_args, variant_name, payload } => {
            let base = sigs::base_of(enum_name.name@);
            if type_args@.len() == 0 || payload@.len() == 0 || !sigs.enum_generics.dom().contains(base)
                || !sigs.enum_payloads.dom().contains(base) || !sigs.enum_payloads[base].dom().contains(variant_name.name@) {
                st
            } else {
                payload_bindings(
                    st,
                    payload@,
                    sigs.enum_payloads[base][variant_name.name@],
                    sigs::bind_args(Map::empty(), sigs.enum_generics[base], ast::types_view(type_args@), 0),
                    0,
                )
            }
        },
        _ => st,
    }
}

pub open spec fn flow_block(sigs: SigTableV, st: FlowV, b: Block) -> (FlowV, u64)
    decreases b, 0nat,
{
    let st = flow_stmts(sigs, st, b.stmts@, 0);
    match b.tail {
        Some(t) => flow_expr(sigs, st, *t),
        None => (st, 0),
    }
}

pub open spec fn flow_stmts(sigs: SigTableV, st: FlowV, ss: Seq<Stmt>, i: nat) -> FlowV
    decreases ss, ss.len() - i,
{
    if i >= ss.len() {
        st
    } else {
        flow_stmts(sigs, flow_stmt(sigs, st, ss[i as int]), ss, i + 1)
    }
}

pub open spec fn declare_type(st: FlowV, name: Seq<char>, ty: Option<Type>) -> FlowV {
    match ty {
        Some(t) => match t.kind {
            TypeKind::Path(p) => st.typed(name, p@),
            TypeKind::Generic { name: g, .. } => st.typed(name, sigs::base_of(g@)),
            _ => st,
        },
        None => st,
    }
}

pub open spec fn flow_stmt(sigs: SigTableV, st: FlowV, s: Stmt) -> FlowV
    decreases s, 0nat,
{
    match s.kind {
        StmtKind::Let { name, ty, init, .. } => {
            let (st, t) = match init {
                Some(e) => flow_expr(sigs, st, e),
                None => (st, 0),
            };
            declare_type(st.set(name.name@, t), name.name@, ty)
        },
        StmtKind::LetDestructure { fields, init, .. } => {
            let (st, t) = flow_expr(sigs, st, init);
            set_idents(st, fields@, t, 0)
        },
        StmtKind::Return(Some(e)) => {
            let (st, t) = flow_expr(sigs, st, e);
            st.returning(t)
        },
        StmtKind::Expr(e) => flow_expr(sigs, st, e).0,
        StmtKind::Defer(e) => flow_expr(sigs, st, e).0,
        StmtKind::Assert(e) => flow_expr(sigs, st, e).0,
        StmtKind::While { cond, body } => {
            let st = flow_expr(sigs, st, cond).0;
            flow_block(sigs, flow_block(sigs, st, body).0, body).0
        },
        StmtKind::Loop(b) => flow_block(sigs, flow_block(sigs, st, b).0, b).0,
        StmtKind::For(fl) => flow_for(sigs, st, fl),
        _ => st,
    }
}

pub open spec fn flow_for(sigs: SigTableV, st: FlowV, fl: ForLoop) -> FlowV
    decreases fl, 0nat,
{
    match fl {
        ForLoop::CStyle { init, cond, update, body } => {
            let st = match init {
                Some(s) => flow_stmt(sigs, st, *s),
                None => st,
            };
            let st = match cond {
                Some(c) => flow_expr(sigs, st, c).0,
                None => st,
            };
            let st = flow_exprs(sigs, st, update@, Seq::empty(), 0).0;
            flow_block(sigs, flow_block(sigs, st, body).0, body).0
        },
        ForLoop::Range { var, iter, body } => {
            let st = flow_expr(sigs, st, iter).0.set(var.name@, 0);
            flow_block(sigs, flow_block(sigs, st, body).0, body).0
        },
    }
}

/// Walks expressions in order and lists their taints.
pub open spec fn flow_exprs(sigs: SigTableV, st: FlowV, es: Seq<Expr>, acc: Seq<u64>, i: nat) -> (FlowV, Seq<u64>)
    decreases es, es.len() - i,
{
    if i >= es.len() {
        (st, acc)
    } else {
        let (st, t) = flow_expr(sigs, st, es[i as int]);
        flow_exprs(sigs, st, es, acc.push(t), i + 1)
    }
}

pub open spec fn flow_fields(sigs: SigTableV, st: FlowV, fs: Seq<FieldInit>, acc: u64, i: nat) -> (FlowV, u64)
    decreases fs, fs.len() - i,
{
    if i >= fs.len() {
        (st, acc)
    } else {
        let (st, t) = flow_expr(sigs, st, fs[i as int].value);
        flow_fields(sigs, st, fs, acc | t, i + 1)
    }
}

pub open spec fn flow_arms(sigs: SigTableV, st: FlowV, arms: Seq<MatchArm>, bits: u64, acc: u64, i: nat) -> (FlowV, u64)
    decreases arms, arms.len() - i,
{
    if i >= arms.len() {
        (st, acc)
    } else {
        let arm = arms[i as int];
        let st = set_names(st, pattern_names(Seq::empty(), arm.pattern), bits, 0);
        let (st, t) = flow_expr(sigs, pattern_types(st, sigs, arm.pattern), arm.body);
        flow_arms(sigs, st, arms, bits, acc | t, i + 1)
    }
}

pub open spec fn flow_parts(sigs: SigTableV, st: FlowV, ps: Seq<InterpStrPart>, i: nat) -> FlowV
    decreases ps, ps.len() - i,
{
    if i >= ps.len() {
        st
    } else {
        flow_parts(
            sigs,
            match ps[i as int] {
                InterpStrPart::Expr(e) => flow_expr(sigs, st, e).0,
                InterpStrPart::Text(_) => st,
            },
            ps,
            i + 1,
        )
    }
}

/// The type name under which the receiver of a call is known.
pub open spec fn receiver_type(st: FlowV, root: Option<Seq<char>>) -> Option<Seq<char>> {
    match root {
        Some(r) => if receiver_root(r) {
            sigs::look(st.types, "self"@)
        } else {
            sigs::look(st.types, r)
        },
        None => None,
    }
}

pub open spec fn root_name(p: Option<PlaceV>) -> Option<Seq<char>> {
    match p {
        Some(p) => Some(p.root),
        None => None,
    }
}

/// The effect of calling a known method: kept arguments reach the receiver, and the result
/// carries what flows into it.
pub open spec fn method_flow(
    st: FlowV,
    entry: FnEntryV,
    root: Option<Seq<char>>,
    rtaint: u64,
    ts: Seq<u64>,
) -> (FlowV, u64) {
    let kept = union_kept(sigs::kept_params(entry), ts, 0, 0);
    let st = match root {
        Some(r) if kept != 0 => st.into_root(r, kept),
        _ => st,
    };
    let out = match (entry.computed_ret_flow, entry.computed_ret_from_receiver) {
        (Some(bits), Some(recv)) => union_selected(ts, bits, if recv { rtaint } else { 0 }, 0),
        _ => if entry.ret_view {
            rtaint | union_all(ts, 0, 0)
        } else {
            0
        },
    };
    (st, out)
}

pub open spec fn fn_flow(entry: FnEntryV, ts: Seq<u64>) -> u64 {
    match entry.computed_ret_flow {
        Some(bits) => union_selected(ts, bits, 0, 0),
        None => if entry.ret_view {
            union_all(ts, 0, 0)
        } else {
            0
        },
    }
}

/// Walks an expression; gives the state after it and the taint of its value.
pub open spec fn flow_expr(sigs: SigTableV, st: FlowV, e: Expr) -> (FlowV, u64)
    decreases e, 0nat,
{
    match e.kind {
        ExprKind::Ident(name) => (st, st.of(name@)),
        ExprKind::Field { receiver, .. } => match place::place_of(e) {
            Some(p) => (st, st.of(p.root)),
            None => flow_expr(sigs, st, *receiver),
        },
        ExprKind::Index { receiver, index } => {
            let st = flow_expr(sigs, st, *index).0;
            match place::place_of(e) {
                Some(p) => (st, st.of(p.root)),
                None => flow_expr(sigs, st, *receiver),
            }
        },
        ExprKind::Assign { target, value, .. } => {
            let (st, t) = flow_expr(sigs, st, *value);
            match place::place_of(*target) {
                Some(p) => (st.into_root(p.root, t), 0),
                None => (st, 0),
            }
        },
        ExprKind::Call { callee, args, .. } => {
            let (st, ts) = flow_exprs(sigs, st, args@, Seq::empty(), 0);
            match callee.kind {
                ExprKind::Field { receiver, name } => {
                    let (st, rtaint) = flow_expr(sigs, st, *receiver);
                    let root = root_name(place::place_of(*receiver));
                    match receiver_type(st, root) {
                        Some(ty) => match sigs.method(ty, name.name@) {
                            Some(entry) => method_flow(st, entry, root, rtaint, ts),
                            None => (st, 0),
                        },
                        None => (st, 0),
                    }
                },
                ExprKind::Ident(name) => match sigs::look(sigs.fns, name@) {
                    Some(entry) => (st, fn_flow(entry, ts)),
                    None => (st, 0),
                },
                _ => (flow_expr(sigs, st, *callee).0, 0),
            }
        },
        ExprKind::StructLit { fields, .. } => flow_fields(sigs, st, fields@, 0, 0),
        ExprKind::InferredStructLit { fields } => flow_fields(sigs, st, fields@, 0, 0),
        ExprKind::Block(b) => flow_block(sigs, st, b),
        ExprKind::If { cond, then, else_branch } => {
            let st = flow_expr(sigs, st, *cond).0;
            let (st, t) = flow_block(sigs, st, then);
            let (st, u) = match else_branch {
                Some(x) => flow_expr(sigs, st, *x),
                None => (st, 0),
            };
            (st, t | u)
        },
        ExprKind::Match { scrutinee, arms } => {
            let (st, bits) = flow_expr(sigs, st, *scrutinee);
            flow_arms(sigs, st, arms@, bits, 0, 0)
        },
        ExprKind::Cast { expr, .. } => flow_expr(sigs, st, *expr),
        ExprKind::Await(inner) => flow_expr(sigs, st, *inner),
        ExprKind::Yield(inner) => flow_expr(sigs, st, *inner),
        ExprKind::Unary { operand, .. } => (flow_expr(sigs, st, *operand).0, 0),
        ExprKind::Binary { lhs, rhs, .. } => (flow_expr(sigs, flow_expr(sigs, st, *lhs).0, *rhs).0, 0),
        ExprKind::InterpStr { parts } => (flow_parts(sigs, st, parts@, 0), 0),
        ExprKind::Intrinsic { args, .. } => (flow_exprs(sigs, st, args@, Seq::empty(), 0).0, 0),
        _ => (st, 0),
    }
}

impl FlowCtx {
    fn new() -> (r: FlowCtx)
        ensures
            r@ == no_flow(),
    {
        FlowCtx { taint: NameMap::new(), types: NameMap::new(), receiver_bits: 0, ret_bits: 0 }
    }

    fn taint_of(&self, name: &str) -> (r: u64)
        ensures
            r == self@.of(name@),
    {
        match self.taint.get(name) {
            Some(t) => *t,
            None => 0,
        }
    }

    fn flow_into(&mut self, root: &str, bits: u64)
        ensures
            final(self)@ == old(self)@.into_root(root@, bits),
    {
        if is_receiver_root(root) {
            self.receiver_bits = self.receiver_bits | bits;
        } else {
            let t: u64 = self.taint_of(root);
            self.taint.insert(root.to_owned(), t | bits);
        }
    }

    fn type_payload_bindings(&mut self, sigs: &SigTable, p: &Pattern)
        ensures
            final(self)@ == pattern_types(old(self)@, sigs@, *p),
    {
        if let PatternKind::Variant { enum_name, type_args, variant_name, payload } = &p.kind {
            if type_args.len() == 0 || payload.len() == 0 {
                return;
            }
            let base = base_type_name(enum_name.name.as_str());
            let generics = match sigs.enum_generics.get(base.as_str()) {
                Some(g) => g,
                None => {
                    return;
                },
            };
            let variants = match sigs.enum_payloads.get(base.as_str()) {
                Some(v) => v,
                None => {
                    return;
                },
            };
            let tys = match variants.get(variant_name.name.as_str()) {
                Some(t) => t,
                None => {
                    return;
                },
            };
            let map = bindings(generics, type_args);
            let mut i: usize = 0;
            while i < payload.len()
                invariant
                    i <= payload@.len(),
                    payload_bindings(self@, payload@, tys.deep_view(), map@, i as nat) == payload_bindings(
                        old(self)@,
                        payload@,
                        tys.deep_view(),
                        map@,
                        0,
                    ),
                decreases payload@.len() - i,
            {
                if let PatternKind::Binding(b) = &payload[i].kind {
                    if i < tys.len() {
                        assert(tys.deep_view()[i as int] == tys@[i as int]@);
                        let resolved = subst_type(&tys[i], &map);
                        match &resolved.kind {
                            TypeKind::Path(n) => {
                                self.types.insert(b.name.clone(), base_type_name(n.as_str()));
                            },
                            TypeKind::Generic { name, .. } => {
                                self.types.insert(b.name.clone(), base_type_name(name.as_str()));
                            },
                            _ => {},
                        }
                    }
                }
                i += 1;
            }
        }
    }

    fn walk_block(&mut self, sigs: &SigTable, b: &Block) -> (r: u64)
        ensures
            (final(self)@, r) == flow_block(sigs@, old(self)@, *b),
        decreases b,
    {
        self.walk_stmts(sigs, &b.stmts);
        match &b.tail {
            Some(t) => self.expr_taint(sigs, t),
            None => 0,
        }
    }

    #[verifier::loop_isolation(false)]
    fn walk_stmts(&mut self, sigs: &SigTable, ss: &Vec<Stmt>)
        ensures
            final(self)@ == flow_stmts(sigs@, old(self)@, ss@, 0),
        decreases ss,
    {
        let mut i: usize = 0;
        while i < ss.len()
            invariant
                i <= ss@.len(),
                flow_stmts(sigs@, self@, ss@, i as nat) == flow_stmts(sigs@, old(self)@, ss@, 0),
            decreases ss@.len() - i,
        {
            self.walk_stmt(sigs, &ss[i]);
            i += 1;
        }
    }

    fn walk_stmt(&mut self, sigs: &SigTable, s: &Stmt)
        ensures
            final(self)@ == flow_stmt(sigs@, old(self)@, *s),
        decreases s,
    {
        match &s.kind {
            StmtKind::Let { name, ty, init, .. } => {
                let t: u64 = match init {
                    Some(e) => self.expr_taint(sigs, e),
                    None => 0,
                };
                self.taint.insert(name.name.clone(), t);
                if let Some(decl) = ty {
                    match &decl.kind {
                        TypeKind::Path(p) => {
                            self.types.insert(name.name.clone(), p.clone());
                        },
                        TypeKind::Generic { name: g, .. } => {
                            self.types.insert(name.name.clone(), base_type_name(g.as_str()));
                        },
                        _ => {},
                    }
                }
            },
            StmtKind::LetDestructure { fields, init, .. } => {
                let t: u64 = self.expr_taint(sigs, init);
                let ghost mid = self@;
                let mut i: usize = 0;
                while i < fields.len()
                    invariant
                        i <= fields@.len(),
                        set_idents(self@, fields@, t, i as nat) == set_idents(mid, fields@, t, 0),
                    decreases fields@.len() - i,
                {
                    self.taint.insert(fields[i].name.clone(), t);
                    i += 1;
                }
            },
            StmtKind::Return(Some(e)) => {
                let t: u64 = self.expr_taint(sigs, e);
                self.ret_bits = self.ret_bits | t;
            },
            StmtKind::Expr(e) => {
                let _ = self.expr_taint(sigs, e);
            },
            StmtKind::Defer(e) => {
                let _ = self.expr_taint(sigs, e);
            },
            StmtKind::Assert(e) => {
                let _ = self.expr_taint(sigs, e);
            },
            StmtKind::While { cond, body } => {
                let _ = self.expr_taint(sigs, cond);
                let _ = self.walk_block(sigs, body);
                let _ = self.walk_block(sigs, body);
            },
            StmtKind::Loop(b) => {
                let _ = self.walk_block(sigs, b);
                let _ = self.walk_block(sigs, b);
            },
            StmtKind::For(fl) => {
                self.walk_for(sigs, fl);
            },
            _ => {},
        }
    }

    fn walk_for(&mut self, sigs: &SigTable, fl: &ForLoop)
        ensures
            final(self)@ == flow_for(sigs@, old(self)@, *fl),
        decreases fl,
    {
        match fl {
            ForLoop::CStyle { init, cond, update, body } => {
                if let Some(s) = init {
                    self.walk_stmt(sigs, s);
                }
                if let Some(c) = cond {
                    let _ = self.expr_taint(sigs, c);
                }
                let _ = self.exprs_taint(sigs, update);
                let _ = self.walk_block(sigs, body);
                let _ = self.walk_block(sigs, body);
            },
            ForLoop::Range { var, iter, body } => {
                let _ = self.expr_taint(sigs, iter);
                self.taint.insert(var.name.clone(), 0);
                let _ = self.walk_block(sigs, body);
                let _ = self.walk_block(sigs, body);
            },
        }
    }

    #[verifier::loop_isolation(false)]
    fn exprs_taint(&mut self, sigs: &SigTable, es: &Vec<Expr>) -> (r: Vec<u64>)
        ensures
            (final(self)@, r@) == flow_exprs(sigs@, old(self)@, es@, Seq::empty(), 0),
        decreases es,
    {
        let mut out: Vec<u64> = Vec::new();
        let mut i: usize = 0;
        while i < es.len()
            invariant
                i <= es@.len(),
                flow_exprs(sigs@, self@, es@, out@, i as nat) == flow_exprs(sigs@, old(self)@, es@, Seq::empty(), 0),
            decreases es@.len() - i,
        {
            let t: u64 = self.expr_taint(sigs, &es[i]);
            out.push(t);
            i += 1;
        }
        out
    }

    #[verifier::loop_isolation(false)]
    fn fields_taint(&mut self, sigs: &SigTable, fs: &Vec<FieldInit>) -> (r: u64)
        ensures
            (final(self)@, r) == flow_fields(sigs@, old(self)@, fs@, 0, 0),
        decreases fs,
    {
        let mut acc: u64 = 0;
        let mut i: usize = 0;
        while i < fs.len()
            invariant
                i <= fs@.len(),
                flow_fields(sigs@, self@, fs@, acc, i as nat) == flow_fields(sigs@, old(self)@, fs@, 0, 0),
            decreases fs@.len() - i,
        {
            let t: u64 = self.expr_taint(sigs, &fs[i].value);
            acc = acc | t;
            i += 1;
        }
        acc
    }

    fn bind_names(&mut self, names: &Vec<String>, bits: u64)
        ensures
            final(self)@ == set_names(old(self)@, names.deep_view(), bits, 0),
    {
        let mut i: usize = 0;
        while i < names.len()
            invariant
                i <= names@.len(),
                set_names(self@, names.deep_view(), bits, i as nat) == set_names(
                    old(self)@,
                    names.deep_view(),
                    bits,
                    0,
                ),
            decreases names@.len() - i,
        {
            assert(names.deep_view()[i as int] == names@[i as int]@);
            self.taint.insert(names[i].clone(), bits);
            i += 1;
        }
    }

    #[verifier::loop_isolation(false)]
    fn arms_taint(&mut self, sigs: &SigTable, arms: &Vec<MatchArm>, bits: u64) -> (r: u64)
        ensures
            (final(self)@, r) == flow_arms(sigs@, old(self)@, arms@, bits, 0, 0),
        decreases arms,
    {
        let mut acc: u64 = 0;
        let mut i: usize = 0;
        while i < arms.len()
            invariant
                i <= arms@.len(),
                flow_arms(sigs@, self@, arms@, bits, acc, i as nat) == flow_arms(sigs@, old(self)@, arms@, bits, 0, 0),
            decreases arms@.len() - i,
        {
            let names = pattern_binding_names(&arms[i].pattern);
            self.bind_names(&names, bits);
            self.type_payload_bindings(sigs, &arms[i].pattern);
            let t: u64 = self.expr_taint(sigs, &arms[i].body);
            acc = acc | t;
            i += 1;
        }
        acc
    }

    #[verifier::loop_isolation(false)]
    fn parts_taint(&mut self, sigs: &SigTable, ps: &Vec<InterpStrPart>)
        ensures
            final(self)@ == flow_parts(sigs@, old(self)@, ps@, 0),
        decreases ps,
    {
        let mut i: usize = 0;
        while i < ps.len()
            invariant
                i <= ps@.len(),
                flow_parts(sigs@, self@, ps@, i as nat) == flow_parts(sigs@, old(self)@, ps@, 0),
            decreases ps@.len() - i,
        {
            if let InterpStrPart::Expr(e) = &ps[i] {
                let _ = self.expr_taint(sigs, e);
            }
            i += 1;
        }
    }

    fn method_call(&mut self, entry: &FnEntry, root: Option<String>, rtaint: u64, ts: &Vec<u64>) -> (r: u64)
        ensures
            (final(self)@, r) == method_flow(old(self)@, entry@, sigs::opt_name(root), rtaint, ts@),
    {
        let keeps = effective_keeps(entry);
        let kept: u64 = or_kept(&keeps, ts);
        if kept != 0 {
            if let Some(r) = &root {
                self.flow_into(r.as_str(), kept);
            }
        }
        match (entry.computed_ret_flow, entry.computed_ret_from_receiver) {
            (Some(bits), Some(recv)) => or_selected(ts, bits, if recv { rtaint } else { 0 }),
            _ => if entry.ret_view {
                rtaint | or_all(ts, 0)
            } else {
                0
            },
        }
    }

    fn expr_taint(&mut self, sigs: &SigTable, e: &Expr) -> (r: u64)
        ensures
            (final(self)@, r) == flow_expr(sigs@, old(self)@, *e),
        decreases e,
    {
        match &e.kind {
            ExprKind::Ident(name) => self.taint_of(name.as_str()),
            ExprKind::Field { receiver, .. } => match place_from_expr(e) {
                Some(p) => self.taint_of(p.root.as_str()),
                None => self.expr_taint(sigs, receiver),
            },
            ExprKind::Index { receiver, index } => {
                let _ = self.expr_taint(sigs, index);
                match place_from_expr(e) {
                    Some(p) => self.taint_of(p.root.as_str()),
                    None => self.expr_taint(sigs, receiver),
                }
            },
            ExprKind::Assign { target, value, .. } => {
                let t: u64 = self.expr_taint(sigs, value);
                if let Some(p) = place_from_expr(target) {
                    self.flow_into(p.root.as_str(), t);
                }
                0
            },
            ExprKind::Call { callee, args, .. } => {
                let ts = self.exprs_taint(sigs, args);
                match &callee.kind {
                    ExprKind::Field { receiver, name } => {
                        let rtaint: u64 = self.expr_taint(sigs, receiver);
                        let root: Option<String> = match place_from_expr(receiver) {
                            Some(p) => Some(p.root),
                            None => None,
                        };
                        let ty: Option<&String> = match &root {
                            Some(r) => if is_receiver_root(r.as_str()) {
                                self.types.get("self")
                            } else {
                                self.types.get(r.as_str())
                            },
                            None => None,
                        };
                        match ty {
                            Some(t) => match sigs.method_entry(t.as_str(), name.name.as_str()) {
                                Some(entry) => self.method_call(entry, root, rtaint, &ts),
                                None => 0,
                            },
                            None => 0,
                        }
                    },
                    ExprKind::Ident(name) => match sigs.fns.get(name.as_str()) {
                        Some(entry) => match entry.computed_ret_flow {
                            Some(bits) => or_selected(&ts, bits, 0),
                            None => if entry.ret_view {
                                or_all(&ts, 0)
                            } else {
                                0
                            },
                        },
                        None => 0,
                    },
                    _ => {
                        let _ = self.expr_taint(sigs, callee);
                        0
                    },
                }
            },
            ExprKind::StructLit { fields, .. } => self.fields_taint(sigs, fields),
            ExprKind::InferredStructLit { fields } => self.fields_taint(sigs, fields),
            ExprKind::Block(b) => self.walk_block(sigs, b),
            ExprKind::If { cond, then, else_branch } => {
                let _ = self.expr_taint(sigs, cond);
                let t: u64 = self.walk_block(sigs, then);
                let u: u64 = match else_branch {
                    Some(x) => self.expr_taint(sigs, x),
                    None => 0,
                };
                t | u
            },
            ExprKind::Match { scrutinee, arms } => {
                let bits: u64 = self.expr_taint(sigs, scrutinee);
                self.arms_taint(sigs, arms, bits)
            },
            ExprKind::Cast { expr, .. } => self.expr_taint(sigs, expr),
            ExprKind::Await(inner) => self.expr_taint(sigs, inner),
            ExprKind::Yield(inner) => self.expr_taint(sigs, inner),
            ExprKind::Unary { operand, .. } => {
                let _ = self.expr_taint(sigs, operand);
                0
            },
            ExprKind::Binary { lhs, rhs, .. } => {
                let _ = self.expr_taint(sigs, lhs);
                let _ = self.expr_taint(sigs, rhs);
                0
            },
            ExprKind::InterpStr { parts } => {
                self.parts_taint(sigs, parts);
                0
            },
            ExprKind::Intrinsic { args, .. } => {
                let _ = self.exprs_taint(sigs, args);
                0
            },
            _ => 0,
        }
    }
}

pub open spec fn no_flow() -> FlowV {
    FlowV { taint: Map::empty(), types: Map::empty(), receiver_bits: 0, ret_bits: 0 }
}

pub open spec fn is_named(t: TypeV) -> bool {
    t.kind is Path || t.kind is Generic
}

fn type_is_named(t: &Type) -> (r: bool)
    ensures
        r == is_named(t@),
{
    match &t.kind {
        TypeKind::Path(_) => true,
        TypeKind::Generic { .. } => true,
        _ => false,
    }
}

/// A parameter is a source if it holds a view or is lent.
pub open spec fn is_source(flags: Seq<bool>, p: Param, i: nat) -> bool {
    sigs::flag_at(flags, i as int) || (!p.move_ && is_named(p.ty@))
}

/// The state on entry: each source parameter carries its own bit.
pub open spec fn seed_params(st: FlowV, flags: Seq<bool>, ps: Seq<Param>, i: nat) -> FlowV
    decreases ps.len() - i,
{
    if i >= ps.len() {
        st
    } else {
        let p = ps[i as int];
        let st = st.set(p.name.name@, if is_source(flags, p, i) && i < 64 { bit(i) } else { 0 });
        seed_params(
            match p.ty.kind {
                TypeKind::Path(t) => st.typed(p.name.name@, t@),
                _ => st,
            },
            flags,
            ps,
            i + 1,
        )
    }
}

fn seed(ctx: &mut FlowCtx, flags: &Vec<bool>, ps: &Vec<Param>)
    ensures
        final(ctx)@ == seed_params(old(ctx)@, flags@, ps@, 0),
{
    let mut i: usize = 0;
    while i < ps.len()
        invariant
            i <= ps@.len(),
            seed_params(ctx@, flags@, ps@, i as nat) == seed_params(old(ctx)@, flags@, ps@, 0),
        decreases ps@.len() - i,
    {
        let p = &ps[i];
        let source = flag(flags, i) || (!p.move_ && type_is_named(&p.ty));
        let bits: u64 = if source && i < 64 { 1u64 << (i as u64) } else { 0 };
        ctx.taint.insert(p.name.name.clone(), bits);
        if let TypeKind::Path(t) = &p.ty.kind {
            ctx.types.insert(p.name.name.clone(), t.clone());
        }
        i += 1;
    }
}

/// The bits of the first `n` parameters.
pub open spec fn param_mask(n: nat) -> u64 {
    if n >= 64 {
        !RECV_TAINT_BIT
    } else {
        ((1u64 << (n as u64)) - 1) as u64
    }
}

fn mask_of(n: usize) -> (r: u64)
    ensures
        r == param_mask(n as nat),
{
    if n >= 64 {
        !RECV_TAINT_BIT
    } else {
        let k: u64 = n as u64;
        assert(1u64 << k >= 1u64) by (bit_vector)
            requires
                k < 64,
        ;
        (1u64 << k) - 1
    }
}

pub open spec fn flags_of(bits: u64, n: nat) -> Seq<bool> {
    Seq::new(n, |i: int| bit_at(bits, i as nat))
}

fn flags_from(bits: u64, n: usize) -> (r: Vec<bool>)
    ensures
        r@ == flags_of(bits, n as nat),
{
    let mut out: Vec<bool> = Vec::new();
    let mut i: usize = 0;
    while i < n
        invariant
            i <= n,
            out@.len() == i,
            forall|j: int| 0 <= j < i ==> #[trigger] out@[j] == bit_at(bits, j as nat),
        decreases n - i,
    {
        out.push(has_bit(bits, i));
        i += 1;
    }
    assert(out@ =~= flags_of(bits, n as nat));
    out
}

pub open spec fn some_flag(flags: Seq<bool>) -> bool {
    exists|i: int| 0 <= i < flags.len() && flags[i]
}

pub fn any_flag(flags: &Vec<bool>) -> (r: bool)
    ensures
        r == some_flag(flags@),
{
    let mut i: usize = 0;
    while i < flags.len()
        invariant
            i <= flags@.len(),
            forall|j: int| 0 <= j < i ==> !flags@[j],
        decreases flags@.len() - i,
    {
        if flags[i] {
            return true;
        }
        i += 1;
    }
    false
}

/// One of the flags is set that the others lack.
pub open spec fn brings_flag(flags: Seq<bool>, more: Seq<bool>) -> bool {
    exists|i: int| 0 <= i < more.len() && #[trigger] more[i] && !sigs::flag_at(flags, i)
}

/// The flags, with those set that are set in `more`.
pub open spec fn with_flags(flags: Seq<bool>, more: Seq<bool>) -> Seq<bool> {
    if brings_flag(flags, more) {
        Seq::new(
            if flags.len() < more.len() {
                more.len()
            } else {
                flags.len()
            },
            |i: int| sigs::flag_at(flags, i) || sigs::flag_at(more, i),
        )
    } else {
        flags
    }
}

fn has_news(flags: &Vec<bool>, more: &Vec<bool>) -> (r: bool)
    ensures
        r == brings_flag(flags@, more@),
{
    let mut i: usize = 0;
    while i < more.len()
        invariant
            i <= more@.len(),
            forall|j: int| 0 <= j < i ==> !(#[trigger] more@[j] && !sigs::flag_at(flags@, j)),
        decreases more@.len() - i,
    {
        if more[i] && !flag(flags, i) {
            return true;
        }
        i += 1;
    }
    false
}

fn add_flags(flags: &mut Vec<bool>, more: &Vec<bool>) -> (changed: bool)
    ensures
        final(flags)@ == with_flags(old(flags)@, more@),
        changed == (final(flags)@ != old(flags)@),
{
    if !has_news(flags, more) {
        return false;
    }
    let n: usize = if flags.len() < more.len() { more.len() } else { flags.len() };
    let mut out: Vec<bool> = Vec::new();
    let mut i: usize = 0;
    while i < n
        invariant
            i <= n,
            out@.len() == i,
            flags@ == old(flags)@,
            forall|j: int| 0 <= j < i ==> #[trigger] out@[j] == (sigs::flag_at(flags@, j) || sigs::flag_at(more@, j)),
        decreases n - i,
    {
        out.push(flag(flags, i) || flag(more, i));
        i += 1;
    }
    proof {
        assert(out@ =~= with_flags(old(flags)@, more@));
        let k = choose|k: int| 0 <= k < more@.len() && #[trigger] more@[k] && !sigs::flag_at(flags@, k);
        assert(out@[k]);
        assert(sigs::flag_at(out@, k));
    }
    *flags = out;
    true
}

/// Flows are listed by their target, then by their source.
pub open spec fn flow_before(a: (usize, usize), b: (usize, usize)) -> bool {
    a.1 < b.1 || (a.1 == b.1 && a.0 < b.0)
}

/// The position from `i` on at which a flow belongs.
pub open spec fn flow_place(flows: Seq<(usize, usize)>, p: (usize, usize), i: nat) -> nat
    decreases flows.len() - i,
{
    if i >= flows.len() || flow_before(p, flows[i as int]) {
        i
    } else {
        flow_place(flows, p, i + 1)
    }
}

pub open spec fn with_flow(flows: Seq<(usize, usize)>, p: (usize, usize)) -> Seq<(usize, usize)> {
    if flows.contains(p) {
        flows
    } else {
        flows.insert(flow_place(flows, p, 0) as int, p)
    }
}

/// The flows, with those added that `more` lists from `k` on.
pub open spec fn with_more_flows(flows: Seq<(usize, usize)>, more: Seq<(usize, usize)>, k: nat) -> Seq<(usize, usize)>
    decreases more.len() - k,
{
    if k >= more.len() {
        flows
    } else {
        with_more_flows(with_flow(flows, more[k as int]), more, k + 1)
    }
}

pub proof fn lemma_flow_place(flows: Seq<(usize, usize)>, p: (usize, usize), i: nat)
    requires
        i <= flows.len(),
    ensures
        i <= flow_place(flows, p, i) <= flows.len(),
    decreases flows.len() - i,
{
    if i < flows.len() && !flow_before(p, flows[i as int]) {
        lemma_flow_place(flows, p, i + 1);
    }
}

/// Adding a flow keeps the others.
pub proof fn lemma_with_flow(flows: Seq<(usize, usize)>, p: (usize, usize))
    ensures
        with_flow(flows, p).len() >= flows.len(),
        with_flow(flows, p).len() == flows.len() ==> with_flow(flows, p) == flows,
        with_flow(flows, p).contains(p),
        forall|q: (usize, usize)| #[trigger] with_flow(flows, p).contains(q) <==> flows.contains(q) || q == p,
{
    if !flows.contains(p) {
        lemma_flow_place(flows, p, 0);
        let k = flow_place(flows, p, 0) as int;
        let out = with_flow(flows, p);
        assert(out[k] == p);
        assert forall|q: (usize, usize)| #[trigger] out.contains(q) <==> flows.contains(q) || q == p by {
            if flows.contains(q) {
                let j = choose|j: int| 0 <= j < flows.len() && flows[j] == q;
                if j < k {
                    assert(out[j] == q);
                } else {
                    assert(out[j + 1] == q);
                }
            }
            if out.contains(q) {
                let j = choose|j: int| 0 <= j < out.len() && out[j] == q;
                if j < k {
                    assert(flows[j] == q);
                } else if j > k {
                    assert(flows[j - 1] == q);
                }
            }
        }
    }
}

/// Adding flows keeps the others.
pub proof fn lemma_with_more_flows(flows: Seq<(usize, usize)>, more: Seq<(usize, usize)>, k: nat)
    ensures
        with_more_flows(flows, more, k).len() >= flows.len(),
        with_more_flows(flows, more, k).len() == flows.len() ==> with_more_flows(flows, more, k) == flows,
        forall|q: (usize, usize)| #[trigger] with_more_flows(flows, more, k).contains(q) ==> flows.contains(q) || more.contains(q),
        forall|q: (usize, usize)| flows.contains(q) ==> #[trigger] with_more_flows(flows, more, k).contains(q),
        forall|j: int| k <= j < more.len() ==> with_more_flows(flows, more, k).contains(#[trigger] more[j]),
    decreases more.len() - k,
{
    if k < more.len() {
        let next = with_flow(flows, more[k as int]);
        lemma_with_flow(flows, more[k as int]);
        lemma_with_more_flows(next, more, k + 1);
    }
}

fn has_flow(flows: &Vec<(usize, usize)>, p: (usize, usize)) -> (r: bool)
    ensures
        r == flows@.contains(p),
{
    let mut i: usize = 0;
    while i < flows.len()
        invariant
            i <= flows@.len(),
            forall|j: int| 0 <= j < i ==> flows@[j] != p,
        decreases flows@.len() - i,
    {
        if flows[i].0 == p.0 && flows[i].1 == p.1 {
            assert(flows@[i as int] == p);
            return true;
        }
        i += 1;
    }
    false
}

fn add_flows(flows: &mut Vec<(usize, usize)>, more: &Vec<(usize, usize)>) -> (changed: bool)
    ensures
        final(flows)@ == with_more_flows(old(flows)@, more@, 0),
        changed == (final(flows)@ != old(flows)@),
{
    let mut changed = false;
    let mut k: usize = 0;
    while k < more.len()
        invariant
            k <= more@.len(),
            with_more_flows(flows@, more@, k as nat) == with_more_flows(old(flows)@, more@, 0),
            changed ==> flows@.len() > old(flows)@.len(),
            !changed ==> flows@ == old(flows)@,
        decreases more@.len() - k,
    {
        let p = more[k];
        if !has_flow(flows, p) {
            let mut i: usize = 0;
            while i < flows.len() && !(p.1 < flows[i].1 || (p.1 == flows[i].1 && p.0 < flows[i].0))
                invariant
                    i <= flows@.len(),
                    flow_place(flows@, p, i as nat) == flow_place(flows@, p, 0),
                decreases flows@.len() - i,
            {
                i += 1;
            }
            flows.insert(i, p);
            changed = true;
        }
        k += 1;
    }
    changed
}

pub open spec fn or_zero(x: Option<u64>) -> u64 {
    match x {
        Some(v) => v,
        None => 0,
    }
}

/// The entry of a method after its body was walked with the given result: flows are only
/// added.
pub open spec fn method_learns(e: FnEntryV, n: nat, receiver_bits: u64, ret_bits: u64) -> FnEntryV {
    FnEntryV {
        computed_keeps: with_flags(e.computed_keeps, flags_of(receiver_bits, n)),
        computed_ret_flow: Some(or_zero(e.computed_ret_flow) | (ret_bits & param_mask(n))),
        computed_ret_from_receiver: Some(
            e.computed_ret_from_receiver == Some(true) || ret_bits & RECV_TAINT_BIT != 0,
        ),
        ..e
    }
}

pub open spec fn method_start(b: ImplBlock, m: Method, e: FnEntryV) -> FlowV {
    let st = no_flow().typed("self"@, b.target.name@).set("this"@, RECV_TAINT_BIT).set("self"@, RECV_TAINT_BIT);
    seed_params(st, e.param_view_flags, m.params@, 0)
}

/// The body of the method is walked.
pub open spec fn is_walked_method(m: Method) -> bool {
    m.generic_params@.len() == 0 && !m.is_declaration && m.receiver is Some
}

/// The flows that one walk over a method's body shows.
pub open spec fn method_step(sigs: SigTableV, b: ImplBlock, m: Method) -> SigTableV {
    let key = sigs::method_key(b.target.name@, m.name.name@);
    if !is_walked_method(m) || !sigs.methods.dom().contains(key) {
        sigs
    } else {
        let e = sigs.methods[key];
        let (st, tail) = flow_block(sigs, method_start(b, m, e), m.body);
        SigTableV {
            methods: sigs.methods.insert(key, method_learns(e, m.params@.len(), st.receiver_bits, st.ret_bits | tail)),
            ..sigs
        }
    }
}

pub open spec fn method_steps(sigs: SigTableV, b: ImplBlock, i: nat) -> SigTableV
    decreases b.methods@.len() - i,
{
    if i >= b.methods@.len() {
        sigs
    } else {
        method_steps(method_step(sigs, b, b.methods@[i as int]), b, i + 1)
    }
}

pub open spec fn impl_steps(sigs: SigTableV, items: Seq<Item>, i: nat) -> SigTableV
    decreases items.len() - i,
{
    if i >= items.len() {
        sigs
    } else {
        impl_steps(
            match items[i as int].kind {
                ItemKind::Impl(b) => method_steps(sigs, b, 0),
                _ => sigs,
            },
            items,
            i + 1,
        )
    }
}

/// The parameters that flow into `ref` parameter `j`.
pub open spec fn flows_into(acc: Seq<(usize, usize)>, bits: u64, j: nat, n: nat, i: nat) -> Seq<(usize, usize)>
    decreases n - i,
{
    if i >= n || i >= 64 {
        acc
    } else {
        flows_into(
            if i != j && bit_at(bits, i) {
                acc.push((i as usize, j as usize))
            } else {
                acc
            },
            bits,
            j,
            n,
            i + 1,
        )
    }
}

pub open spec fn ref_flows(acc: Seq<(usize, usize)>, st: FlowV, ps: Seq<Param>, j: nat) -> Seq<(usize, usize)>
    decreases ps.len() - j,
{
    if j >= ps.len() {
        acc
    } else {
        let p = ps[j as int];
        ref_flows(
            if p.mutable && !p.move_ {
                flows_into(acc, st.of(p.name.name@), j, ps.len(), 0)
            } else {
                acc
            },
            st,
            ps,
            j + 1,
        )
    }
}

/// The entry of a function after its body was walked with the given result: flows are only
/// added.
pub open spec fn fn_learns(e: FnEntryV, ps: Seq<Param>, st: FlowV, ret_bits: u64) -> FnEntryV {
    FnEntryV {
        computed_ref_flows: with_more_flows(e.computed_ref_flows, ref_flows(Seq::empty(), st, ps, 0), 0),
        computed_ret_flow: Some(or_zero(e.computed_ret_flow) | (ret_bits & param_mask(ps.len()))),
        ..e
    }
}

/// The body of the function is walked.
pub open spec fn is_walked_fn(f: Function) -> bool {
    f.generic_params@.len() == 0 && !f.is_foreign && !f.is_declaration
}

pub open spec fn fn_step(sigs: SigTableV, f: Function) -> SigTableV {
    let name = f.name.name@;
    if !is_walked_fn(f) || !sigs.fns.dom().contains(name) {
        sigs
    } else {
        let e = sigs.fns[name];
        let (st, tail) = flow_block(sigs, seed_params(no_flow(), e.param_view_flags, f.params@, 0), f.body);
        SigTableV { fns: sigs.fns.insert(name, fn_learns(e, f.params@, st, st.ret_bits | tail)), ..sigs }
    }
}

pub open spec fn fn_steps(sigs: SigTableV, items: Seq<Item>, i: nat) -> SigTableV
    decreases items.len() - i,
{
    if i >= items.len() {
        sigs
    } else {
        fn_steps(
            match items[i as int].kind {
                ItemKind::Function(f) => fn_step(sigs, f),
                _ => sigs,
            },
            items,
            i + 1,
        )
    }
}

/// One round: every method body, then every function body.
pub open spec fn flow_round(sigs: SigTableV, prog: Program) -> SigTableV {
    fn_steps(impl_steps(sigs, prog.items@, 0), prog.items@, 0)
}

pub fn walk_method(sigs: &mut SigTable, b: &ImplBlock, m: &Method) -> (changed: bool)
    ensures
        final(sigs)@ == method_step(old(sigs)@, *b, *m),
        changed == (final(sigs)@ != old(sigs)@),
{
    if m.generic_params.len() > 0 || m.is_declaration || m.receiver.is_none() {
        return false;
    }
    let key = key_of(b.target.name.as_str(), m.name.name.as_str());
    let mut entry: FnEntry = match sigs.methods.get(key.as_str()) {
        Some(e) => e.clone(),
        None => {
            return false;
        },
    };
    let ghost e0 = entry@;
    let mut ctx = FlowCtx::new();
    ctx.types.insert("self".to_owned(), b.target.name.clone());
    ctx.taint.insert("this".to_owned(), RECV_TAINT_BIT);
    ctx.taint.insert("self".to_owned(), RECV_TAINT_BIT);
    seed(&mut ctx, &entry.param_view_flags, &m.params);
    assert(ctx@ == method_start(*b, *m, e0));
    let tail: u64 = ctx.walk_block(sigs, &m.body);
    let ret: u64 = ctx.ret_bits | tail;
    let n: usize = m.params.len();
    let new_flags = flags_from(ctx.receiver_bits, n);
    let mut changed = add_flags(&mut entry.computed_keeps, &new_flags);
    let old_flow: u64 = match entry.computed_ret_flow {
        Some(v) => v,
        None => 0,
    };
    let merged: u64 = old_flow | (ret & mask_of(n));
    let mrecv: bool = match entry.computed_ret_from_receiver {
        Some(v) => v,
        None => false,
    } || ret & RECV_TAINT_BIT != 0;
    let same_flow = match entry.computed_ret_flow {
        Some(v) => v == merged,
        None => false,
    };
    let same_recv = match entry.computed_ret_from_receiver {
        Some(v) => v == mrecv,
        None => false,
    };
    if !same_flow || !same_recv {
        entry.computed_ret_flow = Some(merged);
        entry.computed_ret_from_receiver = Some(mrecv);
        changed = true;
    }
    proof {
        let learned = method_learns(e0, n as nat, ctx.receiver_bits, ret);
        assert(entry@ =~= learned);
        assert(sigs@.methods.insert(key@, e0) =~= sigs@.methods);
        assert(changed == (learned != e0));
        assert(sigs@.methods.insert(key@, learned)[key@] == learned);
    }
    if changed {
        sigs.methods.insert(key, entry);
    }
    changed
}

fn collect_ref_flows(ctx: &FlowCtx, ps: &Vec<Param>) -> (r: Vec<(usize, usize)>)
    ensures
        r@ == ref_flows(Seq::empty(), ctx@, ps@, 0),
{
    let mut out: Vec<(usize, usize)> = Vec::new();
    let n: usize = ps.len();
    let mut j: usize = 0;
    while j < ps.len()
        invariant
            n == ps@.len(),
            j <= ps@.len(),
            ref_flows(out@, ctx@, ps@, j as nat) == ref_flows(Seq::empty(), ctx@, ps@, 0),
        decreases ps@.len() - j,
    {
        let p = &ps[j];
        if p.mutable && !p.move_ {
            let bits: u64 = ctx.taint_of(p.name.name.as_str());
            let ghost start = out@;
            let mut i: usize = 0;
            while i < n && i < 64
                invariant
                    i <= n,
                    j < n,
                    n == ps@.len(),
                    flows_into(out@, bits, j as nat, n as nat, i as nat) == flows_into(start, bits, j as nat, n as nat, 0),
                decreases n - i,
            {
                if i != j && has_bit(bits, i) {
                    out.push((i, j));
                }
                i += 1;
            }
        }
        j += 1;
    }
    out
}

pub fn walk_function(sigs: &mut SigTable, f: &Function) -> (changed: bool)
    ensures
        final(sigs)@ == fn_step(old(sigs)@, *f),
        changed == (final(sigs)@ != old(sigs)@),
{
    if f.generic_params.len() > 0 || f.is_foreign || f.is_declaration {
        return false;
    }
    let mut entry: FnEntry = match sigs.fns.get(f.name.name.as_str()) {
        Some(e) => e.clone(),
        None => {
            return false;
        },
    };
    let ghost e0 = entry@;
    let mut ctx = FlowCtx::new();
    seed(&mut ctx, &entry.param_view_flags, &f.params);
    let tail: u64 = ctx.walk_block(sigs, &f.body);
    let ret: u64 = ctx.ret_bits | tail;
    let flows = collect_ref_flows(&ctx, &f.params);
    let mut changed = add_flows(&mut entry.computed_ref_flows, &flows);
    let old_flow: u64 = match entry.computed_ret_flow {
        Some(v) => v,
        None => 0,
    };
    let merged: u64 = old_flow | (ret & mask_of(f.params.len()));
    let same_flow = match entry.computed_ret_flow {
        Some(v) => v == merged,
        None => false,
    };
    if !same_flow {
        entry.computed_ret_flow = Some(merged);
        changed = true;
    }
    proof {
        let learned = fn_learns(e0, f.params@, ctx@, ret);
        assert(entry@ =~= learned);
        assert(sigs@.fns.insert(f.name.name@, e0) =~= sigs@.fns);
        assert(changed == (learned != e0));
        assert(sigs@.fns.insert(f.name.name@, learned)[f.name.name@] == learned);
    }
    if changed {
        sigs.fns.insert(f.name.name.clone(), entry);
    }
    changed
}

} // verus!
