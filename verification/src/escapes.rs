//! The rules on views that would outlive their owners: in returned values, in stores, in
//! captured addresses, and in bindings of temporaries.
use vstd::prelude::*;
use vstd::string::*;
use crate::ast;
use crate::conflicts;
use crate::flow;
use crate::infer;
use crate::messages;
use crate::ordered;
use crate::place;
use crate::sigs;
use crate::views;
use crate::walks;
use crate::ast::{Expr, ExprKind, FieldInit, Ident, Span, Stmt, StmtKind, Type, TypeKind, TypeKindV, TypeV, UnaryOp, clone_types};
use crate::infer::{field_type, is_view_ty, type_name_of};
use crate::messages::{RawDiag, RawDiagV, report_captured_arg, report_captured_return, report_captured_store, report_escaping_leaf, report_raw_store, report_returned_carrier, report_returned_view, report_stored_local_view, report_stored_param_view, report_view_of_interpolation, report_view_of_rvalue, report_view_of_temporary};
use crate::ordered::{NameList, NameListV, OrdMap};
use crate::place::expr_root_ident;
use crate::sigs::{SigTable, SigTableV, clone_opt_type, effective_keeps, flag, has_name, key_of};
use crate::table::NameSet;
use crate::text::str_eq;
use crate::views::{LocalV, TaintV, ViewLocal, ViewRules, ViewRulesV, ViewSite, ViewSiteV, base_name, canonical, element_ty, moved_out_roots, place_root, trivial_tail};
use crate::walks::collect_subs_expr;

verus! {

/// What is looked for at the leaves of an aggregate.
#[derive(Debug, Clone, Copy, PartialEq, Eq, Structural)]
pub enum LeafRule {
    /// Views of owners that die at the return.
    Escape,
    /// Views of temporaries.
    Temporary,
}

pub open spec fn add_once(out: Seq<Seq<char>>, n: Seq<char>) -> Seq<Seq<char>> {
    if out.contains(n) {
        out
    } else {
        out.push(n)
    }
}

pub open spec fn add_each(out: Seq<Seq<char>>, more: Seq<Seq<char>>, i: nat) -> Seq<Seq<char>>
    decreases more.len() - i,
{
    if i >= more.len() {
        out
    } else {
        add_each(add_once(out, more[i as int]), more, i + 1)
    }
}

/// An expression under `e` is the name `n`.
pub open spec fn names_under(e: Expr, n: Seq<char>) -> bool {
    exists|k: int| 0 <= k < walks::subs_expr(Seq::empty(), &e).len() && is_ident(#[trigger] walks::subs_expr(Seq::empty(), &e)[k], n)
}

pub open spec fn is_ident(e: &Expr, n: Seq<char>) -> bool {
    match e.kind {
        ExprKind::Ident(m) => m@ == n,
        _ => false,
    }
}

pub open spec fn taint_of(t: TaintV, n: Seq<char>) -> Seq<Seq<char>> {
    match ordered::ord_get::<String, Seq<Seq<char>>>(t, n) {
        Some(s) => s,
        None => Seq::empty(),
    }
}

pub open spec fn tuple_types(t: Option<TypeV>) -> Seq<TypeV> {
    match t {
        Some(TypeV { kind: TypeKindV::Tuple(ts), .. }) => ts,
        _ => Seq::empty(),
    }
}

pub open spec fn type_at(ts: Seq<TypeV>, i: int) -> Option<TypeV> {
    if 0 <= i < ts.len() {
        Some(ts[i])
    } else {
        None
    }
}

/// The first binding after `i` that has captured `root` and that the expression names.
pub open spec fn holder(t: TaintV, root: Seq<char>, e: Expr, i: nat) -> Option<Seq<char>>
    decreases t.len() - i,
{
    if i >= t.len() {
        None
    } else if t[i as int].1.contains(root) && names_under(e, t[i as int].0) {
        Some(t[i as int].0)
    } else {
        holder(t, root, e, i + 1)
    }
}

impl ViewRulesV {
    pub open spec fn check_temp(self, e: Expr) -> ViewRulesV {
        match self.temp_origin(e) {
            Some((t, m)) => self.report(messages::view_of_temporary(t, m, e.span)),
            None => self,
        }
    }

    pub open spec fn check_rvalue(self, value: Expr) -> ViewRulesV {
        let core = views::tail_core(value);
        if views::deref_root(core) is Some {
            self
        } else if core.kind is InterpStr {
            self.report(messages::view_of_interpolation(value.span))
        } else {
            match self.infer_ty(core) {
                Some(t) => if infer::is_view(t) || self.oracle.assumed_copied(t) {
                    self
                } else {
                    match flow::nominal(t.kind) {
                        Some(n) => self.report(messages::view_of_rvalue(n, value.span)),
                        None => self,
                    }
                },
                None => self,
            }
        }
    }

    /// The roots that a leaf of a returned aggregate may view.
    pub open spec fn leaf_roots(self, e: Expr, expected: Option<TypeV>) -> NameListV {
        let called = match e.kind {
            ExprKind::Call { callee, .. } => callee.kind is Field || callee.kind is Ident,
            _ => false,
        };
        if called || self.coerces(e, expected) {
            self.view_roots(Seq::empty(), e)
        } else {
            Seq::empty()
        }
    }

    pub open spec fn flag_roots(self, roots: NameListV, span: Span, i: nat) -> ViewRulesV
        decreases roots.len() - i,
    {
        if i >= roots.len() {
            self
        } else {
            (if self.dies_at_return(roots[i as int].0) {
                self.report(messages::escaping_leaf(self.owner_desc(roots[i as int].0), span))
            } else {
                self
            }).flag_roots(roots, span, i + 1)
        }
    }

    pub open spec fn check_leaf(self, rule: LeafRule, e: Expr, expected: Option<TypeV>) -> ViewRulesV {
        match rule {
            LeafRule::Escape => self.flag_roots(self.leaf_roots(e, expected), e.span, 0),
            LeafRule::Temporary => {
                let v = self.check_temp(e);
                if v.coerces(e, expected) {
                    v.check_rvalue(e)
                } else {
                    v
                }
            },
        }
    }

    /// Checks the leaves of an aggregate of the expected type.
    pub open spec fn check_leaves(self, rule: LeafRule, e: Expr, expected: Option<TypeV>) -> ViewRulesV
        decreases e, 0nat,
    {
        match e.kind {
            ExprKind::StructLit { name, fields } => self.check_fields(rule, fields@, Some(name.name@), 0),
            ExprKind::GenericStructLit { name, fields, .. } => self.check_fields(rule, fields@, Some(name.name@), 0),
            ExprKind::InferredStructLit { fields } => self.check_fields(rule, fields@, views::nominal_of(expected), 0),
            ExprKind::ArrayLit { elements } => self.check_elems(rule, elements@, views::element_of(expected), 0),
            ExprKind::TupleLit { elements } => self.check_tuple(rule, elements@, tuple_types(expected), 0),
            ExprKind::ArrayFill { fill, .. } => self.check_leaves(rule, *fill, views::element_of(expected)),
            _ => self.check_leaf(rule, e, expected),
        }
    }

    pub open spec fn field_in(self, base: Option<Seq<char>>, field: Seq<char>) -> Option<TypeV> {
        match base {
            Some(b) => infer::field_of(self.sigs, b, field),
            None => None,
        }
    }

    pub open spec fn check_fields(self, rule: LeafRule, fs: Seq<FieldInit>, base: Option<Seq<char>>, i: nat) -> ViewRulesV
        decreases fs, fs.len() - i,
    {
        if i >= fs.len() {
            self
        } else {
            self.check_leaves(rule, fs[i as int].value, self.field_in(base, fs[i as int].name.name@)).check_fields(
                rule,
                fs,
                base,
                i + 1,
            )
        }
    }

    pub open spec fn check_elems(self, rule: LeafRule, es: Seq<Expr>, expected: Option<TypeV>, i: nat) -> ViewRulesV
        decreases es, es.len() - i,
    {
        if i >= es.len() {
            self
        } else {
            self.check_leaves(rule, es[i as int], expected).check_elems(rule, es, expected, i + 1)
        }
    }

    pub open spec fn check_tuple(self, rule: LeafRule, es: Seq<Expr>, ts: Seq<TypeV>, i: nat) -> ViewRulesV
        decreases es, es.len() - i,
    {
        if i >= es.len() {
            self
        } else {
            self.check_leaves(rule, es[i as int], type_at(ts, i as int)).check_tuple(rule, es, ts, i + 1)
        }
    }

    pub open spec fn first_dying(self, roots: NameListV, moved: Set<Seq<char>>, i: nat) -> Option<Seq<char>>
        decreases roots.len() - i,
    {
        if i >= roots.len() {
            None
        } else if !moved.contains(roots[i as int].0) && self.dies_at_return(roots[i as int].0) {
            Some(roots[i as int].0)
        } else {
            self.first_dying(roots, moved, i + 1)
        }
    }

    /// A returned view, or a returned value with views in it, must not borrow from what the
    /// return frees.
    pub open spec fn check_return(self, e: Expr) -> ViewRulesV {
        match self.ret {
            Some(t) => if infer::is_view(t) {
                let v = self.check_temp(e);
                match v.first_dying(v.borrow_roots(e), Set::empty(), 0) {
                    Some(r) => v.report(messages::returned_view(v.owner_desc(r), e.span)),
                    None => v,
                }
            } else if self.carries(t) {
                match self.first_dying(self.borrow_roots(e), views::moved_out(Set::empty(), e), 0) {
                    Some(r) => self.report(messages::returned_carrier(self.owner_desc(r), e.span)),
                    None => self,
                }
            } else {
                self
            },
            None => self,
        }
    }

    pub open spec fn check_returned_aggregate(self, e: Expr) -> ViewRulesV {
        match e.kind {
            ExprKind::StructLit { .. } => self.check_leaves(LeafRule::Escape, e, self.ret),
            ExprKind::InferredStructLit { .. } => self.check_leaves(LeafRule::Escape, e, self.ret),
            ExprKind::GenericStructLit { .. } => self.check_leaves(LeafRule::Escape, e, self.ret),
            ExprKind::ArrayLit { .. } => self.check_leaves(LeafRule::Escape, e, self.ret),
            ExprKind::TupleLit { .. } => self.check_leaves(LeafRule::Escape, e, self.ret),
            ExprKind::ArrayFill { .. } => self.check_leaves(LeafRule::Escape, e, self.ret),
            _ => self,
        }
    }

    pub open spec fn writes_raw(self, target: Expr) -> bool
        decreases target,
    {
        match target.kind {
            ExprKind::Unary { op: UnaryOp::Deref, operand } => match self.place_ty(*operand) {
                Some(t) => t.kind is RawPtr,
                None => false,
            },
            ExprKind::Field { receiver, .. } => self.writes_raw(*receiver),
            ExprKind::Index { receiver, .. } => self.writes_raw(*receiver),
            _ => false,
        }
    }

    /// A view stored through a raw pointer needs a declared flow.
    pub open spec fn check_raw_store(self, target: Expr, value: Expr) -> ViewRulesV {
        if self.declares || !self.writes_raw(target) {
            self
        } else {
            match self.place_ty(target) {
                Some(t) => if self.viewing(t) {
                    self.report(messages::raw_store(value.span))
                } else {
                    self
                },
                None => self,
            }
        }
    }

    /// Callers tie the target to the source of the store.
    pub open spec fn tied(self, src: Seq<char>, receiver: bool, target: Seq<char>) -> bool {
        if receiver {
            src == "self"@ || match self.site {
                ViewSiteV::Method { key } => match (sigs::look(self.sigs.methods, key), sigs::look(self.index, src)) {
                    (Some(e), Some(i)) => sigs::flag_at(sigs::kept_params(e), i as int),
                    _ => false,
                },
                _ => false,
            }
        } else {
            match self.site {
                ViewSiteV::Free { name, exported: true } => match (
                    sigs::look(self.sigs.fns, name),
                    sigs::look(self.index, src),
                    sigs::look(self.index, target),
                ) {
                    (Some(e), Some(s), Some(d)) => e.computed_ref_flows.contains((s, d)),
                    _ => false,
                },
                _ => false,
            }
        }
    }

    pub open spec fn is_static(self, root: Seq<char>) -> bool {
        self.statics.dom().contains(root)
    }

    /// How a store's target that outlives the call is named.
    pub open spec fn dest_desc(self, raw: Seq<char>) -> Seq<char> {
        if self.is_static(views::canonical_name(raw)) {
            "static `"@ + views::canonical_name(raw) + "`"@
        } else {
            "`ref` target `"@ + raw + "`"@
        }
    }

    /// What is wrong with storing what `root` lends, if anything.
    pub open spec fn store_fault(self, root: Seq<char>, raw: Seq<char>, span: Span) -> Option<RawDiagV> {
        let key = views::canonical_name(root);
        let target = views::canonical_name(raw);
        let receiver = target == "self"@;
        match self.local(key) {
            Some(LocalV { ty: Some(t), owns, .. }) => {
                if owns && !self.oracle.assumed_copied(t) {
                    Some(messages::stored_local_view(self.owner_desc(root), self.dest_desc(raw), span))
                } else if !(self.params.contains(key) && (self.carries(t) || (!owns && !self.oracle.assumed_copied(t)))) {
                    None
                } else if !self.is_static(target) && self.tied(key, receiver, target) {
                    None
                } else {
                    Some(messages::stored_param_view(root, self.dest_desc(raw), store_hint(receiver), span))
                }
            },
            _ => None,
        }
    }

    pub open spec fn first_store_fault(self, roots: NameListV, raw: Seq<char>, span: Span, i: nat) -> Option<RawDiagV>
        decreases roots.len() - i,
    {
        if i >= roots.len() {
            None
        } else {
            match self.store_fault(roots[i as int].0, raw, span) {
                Some(d) => Some(d),
                None => self.first_store_fault(roots, raw, span, i + 1),
            }
        }
    }

    /// A view stored where it outlives the call must not die with it.
    pub open spec fn check_store_escape(self, target: Expr, value: Expr) -> ViewRulesV {
        match (self.place_ty(target), views::deref_root(target)) {
            (Some(t), Some(raw)) => {
                let root = views::canonical_name(raw);
                if self.viewing(t) && (self.is_static(root) || self.refs.contains(root)) {
                    match self.first_store_fault(self.borrow_roots(value), raw, value.span, 0) {
                        Some(d) => self.report(d),
                        None => self,
                    }
                } else {
                    self
                }
            },
            _ => self,
        }
    }

    /// The struct that a place is of.
    pub open spec fn struct_of(self, e: Expr) -> Option<Seq<char>> {
        match views::nominal_of(self.place_ty(e)) {
            Some(b) => if self.sigs.struct_fields.dom().contains(b) {
                Some(b)
            } else {
                None
            },
            None => None,
        }
    }

    /// `base.name` is a method bound to a value rather than a field.
    pub open spec fn binds_method(self, base: Seq<char>, name: Seq<char>) -> bool {
        bound_method(self.sigs, base, name)
    }

    /// The binding's own storage ends with the call.
    pub open spec fn storage_dies(self, root: Seq<char>) -> bool {
        let key = views::canonical_name(root);
        match self.local(key) {
            Some(l) => l.owns || (key != "self"@ && self.params.contains(key) && match l.ty {
                Some(t) => self.oracle.assumed_copied(t),
                None => false,
            }),
            None => false,
        }
    }

    pub open spec fn capture_arg(self, out: Seq<Seq<char>>, arg: Expr) -> Seq<Seq<char>> {
        match arg.kind {
            ExprKind::Field { receiver, name } => match (place::root_of(*receiver), self.struct_of(*receiver)) {
                (Some(root), Some(base)) => if self.binds_method(base, name.name@) && self.storage_dies(root) {
                    add_once(out, root)
                } else {
                    out
                },
                _ => out,
            },
            _ => out,
        }
    }

    pub open spec fn capture_args(self, out: Seq<Seq<char>>, args: Seq<Expr>, i: nat) -> Seq<Seq<char>>
        decreases args.len() - i,
    {
        if i >= args.len() {
            out
        } else {
            self.capture_args(self.capture_arg(out, args[i as int]), args, i + 1)
        }
    }

    pub open spec fn capture_callee(self, out: Seq<Seq<char>>, callee: Expr) -> Seq<Seq<char>> {
        match callee.kind {
            ExprKind::Field { receiver, name } => match (place::root_of(*receiver), self.struct_of(*receiver)) {
                (Some(root), Some(base)) => if self.capturing.contains((base, name.name@)) && self.storage_dies(root) {
                    add_once(out, root)
                } else {
                    out
                },
                _ => out,
            },
            _ => out,
        }
    }

    pub open spec fn capture_step(self, out: Seq<Seq<char>>, x: &Expr, flow_only: bool) -> Seq<Seq<char>> {
        match x.kind {
            ExprKind::Ident(n) => add_each(out, taint_of(self.taint, n@), 0),
            ExprKind::Call { callee, args, .. } => self.capture_callee(
                if flow_only {
                    out
                } else {
                    self.capture_args(out, args@, 0)
                },
                *callee,
            ),
            _ => out,
        }
    }

    pub open spec fn captures_in(self, out: Seq<Seq<char>>, xs: Seq<&Expr>, flow_only: bool, i: nat) -> Seq<Seq<char>>
        decreases xs.len() - i,
    {
        if i >= xs.len() {
            out
        } else {
            self.captures_in(self.capture_step(out, xs[i as int], flow_only), xs, flow_only, i + 1)
        }
    }

    /// The bindings whose addresses the value of an expression captures.
    pub open spec fn captures(self, e: Expr, flow_only: bool) -> Seq<Seq<char>> {
        self.captures_in(Seq::empty(), walks::subs_expr(Seq::empty(), &e), flow_only, 0)
    }

    pub open spec fn captures_all(self, out: Seq<Seq<char>>, es: Seq<Expr>, i: nat) -> Seq<Seq<char>>
        decreases es.len() - i,
    {
        if i >= es.len() {
            out
        } else {
            self.captures_all(out + self.captures(es[i as int], true), es, i + 1)
        }
    }

    pub open spec fn add_taint(self, dest: Seq<char>, srcs: Seq<Seq<char>>) -> ViewRulesV {
        if srcs.len() == 0 {
            self
        } else {
            ViewRulesV {
                taint: ordered::ord_put::<String, Seq<Seq<char>>>(self.taint, dest, add_each(taint_of(self.taint, dest), srcs, 0)),
                ..self
            }
        }
    }

    /// A statement that makes a value with captured addresses taints its destination.
    pub open spec fn update_taint(self, s: Stmt) -> ViewRulesV {
        match s.kind {
            StmtKind::Let { name, init: Some(e), .. } => self.add_taint(name.name@, self.captures(e, true)),
            StmtKind::Expr(e) => match e.kind {
                ExprKind::Call { callee, args, .. } => match callee.kind {
                    ExprKind::Field { receiver, .. } => match place::root_of(*receiver) {
                        Some(dest) => self.add_taint(dest, self.captures_all(Seq::empty(), args@, 0)),
                        None => self,
                    },
                    _ => self,
                },
                ExprKind::Assign { target, value, .. } => match place::root_of(*target) {
                    Some(dest) => self.add_taint(dest, self.captures(*value, true)),
                    None => self,
                },
                _ => self,
            },
            _ => self,
        }
    }

    pub open spec fn carried_by(self, root: Seq<char>, e: Expr) -> Seq<char> {
        if names_under(e, root) {
            ""@
        } else {
            match holder(self.taint, root, e, 0) {
                Some(h) => " (carried out by `"@ + h + "`)"@,
                None => ""@,
            }
        }
    }

    pub open spec fn check_capture_store(self, target: Expr, value: Expr) -> ViewRulesV {
        match views::deref_root(target) {
            Some(raw) => {
                let root = views::canonical_name(raw);
                let found = self.captures(value, false);
                if (self.is_static(root) || self.refs.contains(root)) && found.len() > 0 {
                    self.report(
                        messages::captured_store(found[0], self.carried_by(found[0], value), self.dest_desc(raw), value.span),
                    )
                } else {
                    self
                }
            },
            None => self,
        }
    }

    pub open spec fn first_dead(self, names: Seq<Seq<char>>, i: nat) -> Option<Seq<char>>
        decreases names.len() - i,
    {
        if i >= names.len() {
            None
        } else if self.storage_dies(names[i as int]) {
            Some(names[i as int])
        } else {
            self.first_dead(names, i + 1)
        }
    }

    pub open spec fn check_capture_arg(self, arg: Expr) -> ViewRulesV {
        match self.first_dead(self.captures(arg, false), 0) {
            Some(root) => self.report(messages::captured_arg(root, arg.span)),
            None => self,
        }
    }

    pub open spec fn report_captures(self, roots: Seq<Seq<char>>, e: Expr, i: nat) -> ViewRulesV
        decreases roots.len() - i,
    {
        if i >= roots.len() {
            self
        } else {
            self.report(messages::captured_return(roots[i as int], self.carried_by(roots[i as int], e), e.span)).report_captures(
                roots,
                e,
                i + 1,
            )
        }
    }

    pub open spec fn check_capture_return(self, e: Expr) -> ViewRulesV {
        self.report_captures(self.captures(e, false), e, 0)
    }

    /// The end of a `let`: what the new binding may view is checked and remembered.
    pub open spec fn bind_let(self, name: Seq<char>, ty: Option<TypeV>, init: Option<Expr>) -> ViewRulesV {
        let resolved = match (ty, init) {
            (Some(t), _) => Some(t),
            (None, Some(e)) => self.infer_ty(e),
            (None, None) => None,
        };
        match (resolved, init) {
            (Some(t), Some(e)) => {
                let v = self.check_bound_view(t, e);
                let roots = if v.viewing(t) {
                    v.borrow_roots(e)
                } else {
                    Seq::empty()
                };
                v.bind(name, LocalV { ty: resolved, owns: true, roots })
            },
            _ => self.bind(name, views::plain_local(resolved, true)),
        }
    }

    /// A value of the type must not view a temporary when it is bound or assigned.
    pub open spec fn check_bound_view(self, t: TypeV, e: Expr) -> ViewRulesV {
        if infer::is_view(t) {
            self.check_temp(e).check_rvalue(e)
        } else if self.carries(t) {
            self.check_leaves(LeafRule::Temporary, e, Some(t))
        } else {
            self
        }
    }
}

pub open spec fn store_hint(receiver: bool) -> Seq<char> {
    if receiver {
        " Own the bytes (a `Text` field), intern them (`text::intern`), or declare the method `#[keeps(this)]` so every caller ties the receiver to the argument's owner."@
    } else {
        " Own the bytes (`Text`), or intern them (`text::intern`) for a process-lifetime view."@
    }
}

pub open spec fn bound_method(sigs: SigTableV, base: Seq<char>, name: Seq<char>) -> bool {
    match sigs::look(sigs.struct_fields, base) {
        Some(fs) => !fs.dom().contains(name) && sigs.methods.dom().contains(sigs::method_key(base, name)),
        None => false,
    }
}

pub fn is_bound_method_ref(sigs: &SigTable, base: &str, name: &str) -> (r: bool)
    ensures
        r == bound_method(sigs@, base@, name@),
{
    match sigs.struct_fields.get(base) {
        Some(fs) => !fs.contains(name) && sigs.methods.contains(key_of(base, name).as_str()),
        None => false,
    }
}

pub fn add_name_once(out: &mut Vec<String>, n: &str)
    ensures
        final(out).deep_view() == add_once(old(out).deep_view(), n@),
{
    if !has_name(out, n) {
        let ghost before = out.deep_view();
        out.push(n.to_owned());
        assert(out.deep_view() =~= before.push(n@));
    }
}

fn add_each_name(out: &mut Vec<String>, more: &Vec<String>)
    ensures
        final(out).deep_view() == add_each(old(out).deep_view(), more.deep_view(), 0),
{
    let mut i: usize = 0;
    while i < more.len()
        invariant
            i <= more@.len(),
            add_each(out.deep_view(), more.deep_view(), i as nat) == add_each(
                old(out).deep_view(),
                more.deep_view(),
                0,
            ),
        decreases more@.len() - i,
    {
        assert(more.deep_view()[i as int] == more@[i as int]@);
        add_name_once(out, more[i].as_str());
        i += 1;
    }
}

fn append_names(out: &mut Vec<String>, more: &Vec<String>)
    ensures
        final(out).deep_view() == old(out).deep_view() + more.deep_view(),
{
    let ghost start = out.deep_view();
    let mut i: usize = 0;
    while i < more.len()
        invariant
            i <= more@.len(),
            start == old(out).deep_view(),
            out@.len() == start.len() + i,
            out.deep_view() == start + more.deep_view().take(i as int),
        decreases more@.len() - i,
    {
        let ghost before = out.deep_view();
        out.push(more[i].clone());
        assert(out.deep_view() =~= before.push(more@[i as int]@));
        assert(more.deep_view()[i as int] == more@[i as int]@);
        assert(more.deep_view().take(i as int + 1) =~= more.deep_view().take(i as int).push(more@[i as int]@));
        i += 1;
    }
    assert(more.deep_view().take(i as int) =~= more.deep_view());
}

/// An expression under `e` is the name.
pub fn mentions_ident(e: &Expr, n: &str) -> (r: bool)
    ensures
        r == names_under(*e, n@),
{
    let mut xs: Vec<&Expr> = Vec::new();
    collect_subs_expr(&mut xs, e);
    let ghost all = walks::subs_expr(Seq::empty(), e);
    assert(xs@ =~= all);
    let mut i: usize = 0;
    while i < xs.len()
        invariant
            i <= xs@.len(),
            all == xs@,
            all == walks::subs_expr(Seq::empty(), e),
            forall|k: int| 0 <= k < i ==> !is_ident(#[trigger] all[k], n@),
        decreases xs@.len() - i,
    {
        if let ExprKind::Ident(m) = &xs[i].kind {
            if str_eq(m.as_str(), n) {
                assert(is_ident(all[i as int], n@));
                return true;
            }
        }
        i += 1;
    }
    false
}

fn type_in(ts: &Vec<Type>, i: usize) -> (r: Option<Type>)
    ensures
        sigs::opt_type(r) == type_at(ast::types_view(ts@), i as int),
{
    proof {
        ast::lemma_types_view(ts@);
    }
    if i < ts.len() {
        Some(ts[i].clone())
    } else {
        None
    }
}

fn clone_tuple_types(t: &Option<Type>) -> (r: Vec<Type>)
    ensures
        ast::types_view(r@) == tuple_types(sigs::opt_type(*t)),
{
    if let Some(t) = t {
        if let TypeKind::Tuple(ts) = &t.kind {
            return clone_types(ts);
        }
    }
    let r: Vec<Type> = Vec::new();
    proof {
        ast::lemma_types_view(r@);
        assert(ast::types_view(r@) =~= Seq::<TypeV>::empty());
    }
    r
}

impl<'a> ViewRules<'a> {
    pub fn check_view_of_temp(&mut self, e: &Expr)
        ensures
            final(self)@ == old(self)@.check_temp(*e),
    {
        if let Some((t, m)) = self.temp_view_origin(e) {
            self.report(report_view_of_temporary(t.as_str(), m.as_str(), e.span));
        }
    }

    pub fn check_view_of_rvalue_owner(&mut self, value: &Expr)
        ensures
            final(self)@ == old(self)@.check_rvalue(*value),
    {
        let core = trivial_tail(value);
        if place_root(core).is_some() {
            return;
        }
        if let ExprKind::InterpStr { .. } = &core.kind {
            self.report(report_view_of_interpolation(value.span));
            return;
        }
        let t = match self.infer_ty(core) {
            Some(t) => t,
            None => {
                return;
            },
        };
        if is_view_ty(&t) || self.oracle.may_be_copied(&t) {
            return;
        }
        if let Some(n) = type_name_of(&t) {
            self.report(report_view_of_rvalue(n.as_str(), value.span));
        }
    }

    fn view_leaf_roots(&self, e: &Expr, expected: &Option<Type>) -> (r: NameList)
        ensures
            r@ == self@.leaf_roots(*e, sigs::opt_type(*expected)),
    {
        let called = match &e.kind {
            ExprKind::Call { callee, .. } => match &callee.kind {
                ExprKind::Field { .. } => true,
                ExprKind::Ident(_) => true,
                _ => false,
            },
            _ => false,
        };
        if called || self.is_coercion_to_view(e, expected) {
            self.view_source_roots(e)
        } else {
            OrdMap::new()
        }
    }

    fn check_leaf(&mut self, rule: LeafRule, e: &Expr, expected: &Option<Type>)
        ensures
            final(self)@ == old(self)@.check_leaf(rule, *e, sigs::opt_type(*expected)),
    {
        match rule {
            LeafRule::Escape => {
                let roots = self.view_leaf_roots(e, expected);
                let mut i: usize = 0;
                while i < roots.entries.len()
                    invariant
                        i <= roots.entries@.len(),
                        self@.flag_roots(roots@, e.span, i as nat) == old(self)@.flag_roots(roots@, e.span, 0),
                    decreases roots.entries@.len() - i,
                {
                    assert(roots@[i as int].0 == roots.entries@[i as int].0@);
                    if self.root_dies_at_return(roots.entries[i].0.as_str()) {
                        let owner = self.owner_desc(roots.entries[i].0.as_str());
                        self.report(report_escaping_leaf(owner.as_str(), e.span));
                    }
                    i += 1;
                }
            },
            LeafRule::Temporary => {
                self.check_view_of_temp(e);
                if self.is_coercion_to_view(e, expected) {
                    self.check_view_of_rvalue_owner(e);
                }
            },
        }
    }

    /// Checks the leaves of a returned or bound aggregate.
    pub fn check_leaves(&mut self, rule: LeafRule, e: &Expr, expected: &Option<Type>)
        ensures
            final(self)@ == old(self)@.check_leaves(rule, *e, sigs::opt_type(*expected)),
        decreases e, 0nat,
    {
        match &e.kind {
            ExprKind::StructLit { name, fields } => self.check_fields(rule, fields, Some(name.name.as_str())),
            ExprKind::GenericStructLit { name, fields, .. } => self.check_fields(rule, fields, Some(name.name.as_str())),
            ExprKind::InferredStructLit { fields } => self.check_fields(rule, fields, base_name(expected)),
            ExprKind::ArrayLit { elements } => {
                let t = element_ty(expected);
                self.check_elems(rule, elements, &t);
            },
            ExprKind::TupleLit { elements } => {
                let ts = clone_tuple_types(expected);
                self.check_tuple(rule, elements, &ts);
            },
            ExprKind::ArrayFill { fill, .. } => {
                let t = element_ty(expected);
                self.check_leaves(rule, fill, &t);
            },
            _ => self.check_leaf(rule, e, expected),
        }
    }

    #[verifier::loop_isolation(false)]
    fn check_fields(&mut self, rule: LeafRule, fs: &Vec<FieldInit>, base: Option<&str>)
        ensures
            final(self)@ == old(self)@.check_fields(rule, fs@, views::opt_text(base), 0),
        decreases fs, 0nat,
    {
        let mut i: usize = 0;
        while i < fs.len()
            invariant
                i <= fs@.len(),
                self@.check_fields(rule, fs@, views::opt_text(base), i as nat) == old(self)@.check_fields(
                    rule,
                    fs@,
                    views::opt_text(base),
                    0,
                ),
            decreases fs@.len() - i,
        {
            let t = match base {
                Some(b) => field_type(self.sigs, b, fs[i].name.name.as_str()),
                None => None,
            };
            self.check_leaves(rule, &fs[i].value, &t);
            i += 1;
        }
    }

    #[verifier::loop_isolation(false)]
    fn check_elems(&mut self, rule: LeafRule, es: &Vec<Expr>, expected: &Option<Type>)
        ensures
            final(self)@ == old(self)@.check_elems(rule, es@, sigs::opt_type(*expected), 0),
        decreases es, 0nat,
    {
        let mut i: usize = 0;
        while i < es.len()
            invariant
                i <= es@.len(),
                self@.check_elems(rule, es@, sigs::opt_type(*expected), i as nat) == old(self)@.check_elems(
                    rule,
                    es@,
                    sigs::opt_type(*expected),
                    0,
                ),
            decreases es@.len() - i,
        {
            self.check_leaves(rule, &es[i], expected);
            i += 1;
        }
    }

    #[verifier::loop_isolation(false)]
    fn check_tuple(&mut self, rule: LeafRule, es: &Vec<Expr>, ts: &Vec<Type>)
        ensures
            final(self)@ == old(self)@.check_tuple(rule, es@, ast::types_view(ts@), 0),
        decreases es, 0nat,
    {
        let mut i: usize = 0;
        while i < es.len()
            invariant
                i <= es@.len(),
                self@.check_tuple(rule, es@, ast::types_view(ts@), i as nat) == old(self)@.check_tuple(
                    rule,
                    es@,
                    ast::types_view(ts@),
                    0,
                ),
            decreases es@.len() - i,
        {
            let t = type_in(ts, i);
            self.check_leaves(rule, &es[i], &t);
            i += 1;
        }
    }

    fn find_dying(&self, roots: &NameList, moved: &NameSet) -> (r: Option<String>)
        ensures
            sigs::opt_name(r) == self@.first_dying(roots@, moved@, 0),
    {
        let mut i: usize = 0;
        while i < roots.entries.len()
            invariant
                i <= roots.entries@.len(),
                self@.first_dying(roots@, moved@, i as nat) == self@.first_dying(roots@, moved@, 0),
            decreases roots.entries@.len() - i,
        {
            assert(roots@[i as int].0 == roots.entries@[i as int].0@);
            if !moved.contains(roots.entries[i].0.as_str()) && self.root_dies_at_return(roots.entries[i].0.as_str()) {
                return Some(roots.entries[i].0.clone());
            }
            i += 1;
        }
        None
    }

    pub fn check_return(&mut self, e: &Expr)
        ensures
            final(self)@ == old(self)@.check_return(*e),
    {
        let (views, carries) = match &self.return_ty {
            Some(t) => (is_view_ty(t), self.carries_view(t)),
            None => {
                return;
            },
        };
        let mut moved = NameSet::new();
        if views {
            self.check_view_of_temp(e);
            let roots = self.borrow_roots_of(e);
            if let Some(root) = self.find_dying(&roots, &moved) {
                let owner = self.owner_desc(root.as_str());
                self.report(report_returned_view(owner.as_str(), e.span));
            }
        } else if carries {
            moved_out_roots(&mut moved, e);
            let roots = self.borrow_roots_of(e);
            if let Some(root) = self.find_dying(&roots, &moved) {
                let owner = self.owner_desc(root.as_str());
                self.report(report_returned_carrier(owner.as_str(), e.span));
            }
        }
    }

    pub fn check_returned_aggregate(&mut self, e: &Expr)
        ensures
            final(self)@ == old(self)@.check_returned_aggregate(*e),
    {
        let aggregate = match &e.kind {
            ExprKind::StructLit { .. } => true,
            ExprKind::InferredStructLit { .. } => true,
            ExprKind::GenericStructLit { .. } => true,
            ExprKind::ArrayLit { .. } => true,
            ExprKind::TupleLit { .. } => true,
            ExprKind::ArrayFill { .. } => true,
            _ => false,
        };
        if aggregate {
            let expected = clone_opt_type(&self.return_ty);
            self.check_leaves(LeafRule::Escape, e, &expected);
        }
    }

    fn writes_through_raw_deref(&self, target: &Expr) -> (r: bool)
        ensures
            r == self@.writes_raw(*target),
        decreases target,
    {
        match &target.kind {
            ExprKind::Unary { op: UnaryOp::Deref, operand } => match self.place_ty(operand) {
                Some(t) => match &t.kind {
                    TypeKind::RawPtr(_) => true,
                    _ => false,
                },
                None => false,
            },
            ExprKind::Field { receiver, .. } => self.writes_through_raw_deref(receiver),
            ExprKind::Index { receiver, .. } => self.writes_through_raw_deref(receiver),
            _ => false,
        }
    }

    pub fn check_raw_store(&mut self, target: &Expr, value: &Expr)
        ensures
            final(self)@ == old(self)@.check_raw_store(*target, *value),
    {
        if self.declares_flows || !self.writes_through_raw_deref(target) {
            return;
        }
        if let Some(t) = self.place_ty(target) {
            if self.is_viewing(&t) {
                self.report(report_raw_store(value.span));
            }
        }
    }

    #[verifier::loop_isolation(false)]
    fn store_is_tied(&self, src: &str, receiver: bool, target: &str) -> (r: bool)
        ensures
            r == self@.tied(src@, receiver, target@),
    {
        if receiver {
            if str_eq(src, "self") {
                return true;
            }
            match &self.site {
                ViewSite::Method { key } => match (self.sigs.methods.get(key.as_str()), self.param_index.get(src)) {
                    (Some(e), Some(i)) => flag(&effective_keeps(e), *i),
                    _ => false,
                },
                _ => false,
            }
        } else {
            match &self.site {
                ViewSite::Free { name, exported } => {
                    if !*exported {
                        return false;
                    }
                    match (self.sigs.fns.get(name.as_str()), self.param_index.get(src), self.param_index.get(target)) {
                        (Some(e), Some(s), Some(d)) => {
                            let mut i: usize = 0;
                            while i < e.computed_ref_flows.len()
                                invariant
                                    i <= e.computed_ref_flows@.len(),
                                    forall|k: int| 0 <= k < i ==> (#[trigger] e.computed_ref_flows@[k]) != (*s, *d),
                                decreases e.computed_ref_flows@.len() - i,
                            {
                                let (a, b) = e.computed_ref_flows[i];
                                if a == *s && b == *d {
                                    assert(e.computed_ref_flows@[i as int] == (*s, *d));
                                    return true;
                                }
                                i += 1;
                            }
                            false
                        },
                        _ => false,
                    }
                },
                _ => false,
            }
        }
    }

    fn dest_desc(&self, raw: &str) -> (r: String)
        ensures
            r@ == self@.dest_desc(raw@),
    {
        let key = canonical(raw);
        if self.statics.contains(key.as_str()) {
            let mut s: String = "static `".to_owned();
            s.append(key.as_str());
            s.append("`");
            s
        } else {
            let mut s: String = "`ref` target `".to_owned();
            s.append(raw);
            s.append("`");
            s
        }
    }

    fn store_fault(&self, root: &str, raw: &str, span: Span) -> (r: Option<RawDiag>)
        ensures
            conflicts::opt_diag(r) == self@.store_fault(root@, raw@, span),
    {
        let key = canonical(root);
        let target = canonical(raw);
        let receiver = str_eq(target.as_str(), "self");
        let l = match self.lookup(key.as_str()) {
            Some(l) => l,
            None => {
                return None;
            },
        };
        let t = match &l.ty {
            Some(t) => t,
            None => {
                return None;
            },
        };
        let copies = self.oracle.may_be_copied(t);
        if l.owns_value && !copies {
            let owner = self.owner_desc(root);
            let dest = self.dest_desc(raw);
            return Some(report_stored_local_view(owner.as_str(), dest.as_str(), span));
        }
        if !(self.param_names.contains(key.as_str()) && (self.carries_view(t) || (!l.owns_value && !copies))) {
            return None;
        }
        if !self.statics.contains(target.as_str()) && self.store_is_tied(key.as_str(), receiver, target.as_str()) {
            return None;
        }
        let dest = self.dest_desc(raw);
        let hint = if receiver {
            " Own the bytes (a `Text` field), intern them (`text::intern`), or declare the method `#[keeps(this)]` so every caller ties the receiver to the argument's owner."
        } else {
            " Own the bytes (`Text`), or intern them (`text::intern`) for a process-lifetime view."
        };
        Some(report_stored_param_view(root, dest.as_str(), hint, span))
    }

    pub fn check_store_escape(&mut self, target: &Expr, value: &Expr)
        ensures
            final(self)@ == old(self)@.check_store_escape(*target, *value),
    {
        let t = match self.place_ty(target) {
            Some(t) => t,
            None => {
                return;
            },
        };
        let raw = match place_root(target) {
            Some(r) => r,
            None => {
                return;
            },
        };
        let root = canonical(raw);
        if !self.is_viewing(&t) {
            return;
        }
        if !(self.statics.contains(root.as_str()) || self.ref_targets.contains(root.as_str())) {
            return;
        }
        let roots = self.borrow_roots_of(value);
        let mut i: usize = 0;
        let ghost v = self@;
        while i < roots.entries.len()
            invariant
                i <= roots.entries@.len(),
                v == self@,
                v == old(self)@,
                v.first_store_fault(roots@, raw@, value.span, i as nat) == v.first_store_fault(
                    roots@,
                    raw@,
                    value.span,
                    0,
                ),
                v.check_store_escape(*target, *value) == (match v.first_store_fault(roots@, raw@, value.span, 0) {
                    Some(d) => v.report(d),
                    None => v,
                }),
            decreases roots.entries@.len() - i,
        {
            assert(roots@[i as int].0 == roots.entries@[i as int].0@);
            if let Some(d) = self.store_fault(roots.entries[i].0.as_str(), raw, value.span) {
                self.report(d);
                return;
            }
            i += 1;
        }
    }

    fn struct_name_of(&self, e: &Expr) -> (r: Option<String>)
        ensures
            sigs::opt_name(r) == self@.struct_of(*e),
    {
        let t = self.place_ty(e);
        match base_name(&t) {
            Some(b) => if self.sigs.struct_fields.contains(b) {
                Some(b.to_owned())
            } else {
                None
            },
            None => None,
        }
    }

    fn capture_root_dies(&self, root: &str) -> (r: bool)
        ensures
            r == self@.storage_dies(root@),
    {
        let key = canonical(root);
        match self.lookup(key.as_str()) {
            Some(l) => l.owns_value || (!str_eq(key.as_str(), "self") && self.param_names.contains(key.as_str())
                && match &l.ty {
                Some(t) => self.oracle.may_be_copied(t),
                None => false,
            }),
            None => false,
        }
    }

    fn capture_arg(&self, out: &mut Vec<String>, arg: &Expr)
        ensures
            final(out).deep_view() == self@.capture_arg(old(out).deep_view(), *arg),
    {
        if let ExprKind::Field { receiver, name } = &arg.kind {
            if let Some(root) = expr_root_ident(receiver) {
                if let Some(base) = self.struct_name_of(receiver) {
                    if is_bound_method_ref(self.sigs, base.as_str(), name.name.as_str()) && self.capture_root_dies(root) {
                        add_name_once(out, root);
                    }
                }
            }
        }
    }

    fn capture_args(&self, out: &mut Vec<String>, args: &Vec<Expr>)
        ensures
            final(out).deep_view() == self@.capture_args(old(out).deep_view(), args@, 0),
    {
        let mut i: usize = 0;
        while i < args.len()
            invariant
                i <= args@.len(),
                self@.capture_args(out.deep_view(), args@, i as nat) == self@.capture_args(
                    old(out).deep_view(),
                    args@,
                    0,
                ),
            decreases args@.len() - i,
        {
            self.capture_arg(out, &args[i]);
            i += 1;
        }
    }

    fn capture_callee(&self, out: &mut Vec<String>, callee: &Expr)
        ensures
            final(out).deep_view() == self@.capture_callee(old(out).deep_view(), *callee),
    {
        if let ExprKind::Field { receiver, name } = &callee.kind {
            if let Some(root) = expr_root_ident(receiver) {
                if let Some(base) = self.struct_name_of(receiver) {
                    if self.capturing.contains(base.as_str(), name.name.as_str()) && self.capture_root_dies(root) {
                        add_name_once(out, root);
                    }
                }
            }
        }
    }

    fn capture_step(&self, out: &mut Vec<String>, x: &Expr, flow_only: bool)
        ensures
            final(out).deep_view() == self@.capture_step(old(out).deep_view(), x, flow_only),
    {
        match &x.kind {
            ExprKind::Ident(n) => match self.capture_taint.get(n) {
                Some(srcs) => add_each_name(out, srcs),
                None => {},
            },
            ExprKind::Call { callee, args, .. } => {
                if !flow_only {
                    self.capture_args(out, args);
                }
                self.capture_callee(out, callee);
            },
            _ => {},
        }
    }

    pub fn capture_sources(&self, e: &Expr, flow_only: bool) -> (r: Vec<String>)
        ensures
            r.deep_view() == self@.captures(*e, flow_only),
    {
        let mut xs: Vec<&Expr> = Vec::new();
        collect_subs_expr(&mut xs, e);
        let mut out: Vec<String> = Vec::new();
        assert(out.deep_view() =~= Seq::<Seq<char>>::empty());
        let mut i: usize = 0;
        while i < xs.len()
            invariant
                i <= xs@.len(),
                self@.captures_in(out.deep_view(), xs@, flow_only, i as nat) == self@.captures_in(
                    Seq::empty(),
                    xs@,
                    flow_only,
                    0,
                ),
            decreases xs@.len() - i,
        {
            self.capture_step(&mut out, xs[i], flow_only);
            i += 1;
        }
        out
    }

    fn taint(&mut self, dest: &str, srcs: &Vec<String>)
        ensures
            final(self)@ == old(self)@.add_taint(dest@, srcs.deep_view()),
    {
        if srcs.len() == 0 {
            return;
        }
        let key = dest.to_owned();
        let mut slot: Vec<String> = Vec::new();
        assert(slot.deep_view() =~= Seq::<Seq<char>>::empty());
        if let Some(have) = self.capture_taint.get(&key) {
            append_names(&mut slot, have);
            assert(slot.deep_view() =~= have.deep_view());
        }
        assert(slot.deep_view() == taint_of(self@.taint, dest@));
        add_each_name(&mut slot, srcs);
        self.capture_taint.insert(key, slot);
    }

    pub fn update_capture_taint(&mut self, s: &Stmt)
        ensures
            final(self)@ == old(self)@.update_taint(*s),
    {
        match &s.kind {
            StmtKind::Let { name, init, .. } => if let Some(e) = init {
                let srcs = self.capture_sources(e, true);
                self.taint(name.name.as_str(), &srcs);
            },
            StmtKind::Expr(e) => match &e.kind {
                ExprKind::Call { callee, args, .. } => if let ExprKind::Field { receiver, .. } = &callee.kind {
                    if let Some(dest) = expr_root_ident(receiver) {
                        let mut acc: Vec<String> = Vec::new();
                        assert(acc.deep_view() =~= Seq::<Seq<char>>::empty());
                        let ghost v = self@;
                        let mut i: usize = 0;
                        while i < args.len()
                            invariant
                                i <= args@.len(),
                                v == self@,
                                v == old(self)@,
                                v.captures_all(acc.deep_view(), args@, i as nat) == v.captures_all(
                                    Seq::empty(),
                                    args@,
                                    0,
                                ),
                            decreases args@.len() - i,
                        {
                            let more = self.capture_sources(&args[i], true);
                            append_names(&mut acc, &more);
                            i += 1;
                        }
                        self.taint(dest, &acc);
                    }
                },
                ExprKind::Assign { target, value, .. } => if let Some(dest) = expr_root_ident(target) {
                    let srcs = self.capture_sources(value, true);
                    self.taint(dest, &srcs);
                },
                _ => {},
            },
            _ => {},
        }
    }

    fn carried_out_by(&self, root: &str, e: &Expr) -> (r: String)
        ensures
            r@ == self@.carried_by(root@, *e),
    {
        if mentions_ident(e, root) {
            return "".to_owned();
        }
        let ghost t = self@.taint;
        let mut i: usize = 0;
        while i < self.capture_taint.entries.len()
            invariant
                i <= self.capture_taint.entries@.len(),
                t == self.capture_taint@,
                t == self@.taint,
                !names_under(*e, root@),
                holder(t, root@, *e, i as nat) == holder(t, root@, *e, 0),
            decreases self.capture_taint.entries@.len() - i,
        {
            let h = &self.capture_taint.entries[i].0;
            assert(t[i as int] == (h@, self.capture_taint.entries@[i as int].1.deep_view()));
            if has_name(&self.capture_taint.entries[i].1, root) && mentions_ident(e, h.as_str()) {
                let mut s: String = " (carried out by `".to_owned();
                s.append(h.as_str());
                s.append("`)");
                return s;
            }
            i += 1;
        }
        "".to_owned()
    }

    pub fn check_capture_store(&mut self, target: &Expr, value: &Expr)
        ensures
            final(self)@ == old(self)@.check_capture_store(*target, *value),
    {
        let raw = match place_root(target) {
            Some(r) => r,
            None => {
                return;
            },
        };
        let root = canonical(raw);
        if !(self.statics.contains(root.as_str()) || self.ref_targets.contains(root.as_str())) {
            return;
        }
        let found = self.capture_sources(value, false);
        if found.len() > 0 {
            assert(found.deep_view()[0] == found@[0]@);
            let dest = self.dest_desc(raw);
            let via = self.carried_out_by(found[0].as_str(), value);
            self.report(report_captured_store(found[0].as_str(), via.as_str(), dest.as_str(), value.span));
        }
    }

    pub fn check_capture_arg(&mut self, arg: &Expr)
        ensures
            final(self)@ == old(self)@.check_capture_arg(*arg),
    {
        let found = self.capture_sources(arg, false);
        let ghost v = self@;
        let ghost fv = found.deep_view();
        let mut i: usize = 0;
        while i < found.len()
            invariant
                i <= found@.len(),
                fv == found.deep_view(),
                v == self@,
                v == old(self)@,
                fv == v.captures(*arg, false),
                v.first_dead(fv, i as nat) == v.first_dead(fv, 0),
            decreases found@.len() - i,
        {
            assert(fv[i as int] == found@[i as int]@);
            if self.capture_root_dies(found[i].as_str()) {
                self.report(report_captured_arg(found[i].as_str(), arg.span));
                return;
            }
            i += 1;
        }
    }

    pub fn check_capture_return(&mut self, e: &Expr)
        ensures
            final(self)@ == old(self)@.check_capture_return(*e),
    {
        let roots = self.capture_sources(e, false);
        let ghost rv = roots.deep_view();
        let mut i: usize = 0;
        while i < roots.len()
            invariant
                i <= roots@.len(),
                rv == roots.deep_view(),
                self@.report_captures(rv, *e, i as nat) == old(self)@.report_captures(rv, *e, 0),
            decreases roots@.len() - i,
        {
            assert(rv[i as int] == roots@[i as int]@);
            let via = self.carried_out_by(roots[i].as_str(), e);
            self.report(report_captured_return(roots[i].as_str(), via.as_str(), e.span));
            i += 1;
        }
    }

    pub fn check_bound_view(&mut self, t: &Type, e: &Expr)
        ensures
            final(self)@ == old(self)@.check_bound_view(t@, *e),
    {
        if is_view_ty(t) {
            self.check_view_of_temp(e);
            self.check_view_of_rvalue_owner(e);
        } else if self.carries_view(t) {
            let expected = Some(t.clone());
            self.check_leaves(LeafRule::Temporary, e, &expected);
        }
    }

    pub fn bind_let(&mut self, name: &str, ty: &Option<Type>, init: &Option<Expr>)
        ensures
            final(self)@ == old(self)@.bind_let(name@, sigs::opt_type(*ty), *init),
    {
        let resolved = match ty {
            Some(t) => Some(t.clone()),
            None => match init {
                Some(e) => self.infer_ty(e),
                None => None,
            },
        };
        let mut roots: NameList = OrdMap::new();
        if let Some(t) = &resolved {
            if let Some(e) = init {
                self.check_bound_view(t, e);
                if self.is_viewing(t) {
                    roots = self.borrow_roots_of(e);
                }
            }
        }
        self.bind(name, ViewLocal { ty: resolved, owns_value: true, borrow_roots: roots });
    }
}

} // verus!
