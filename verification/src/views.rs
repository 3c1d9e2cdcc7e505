//! What a function knows of its bindings when views are followed: their types, whether they
//! own their values, and the owners that the views they hold borrow from.
use vstd::prelude::*;
use vstd::string::*;
use crate::ast;
use crate::flow;
use crate::infer;
use crate::ordered;
use crate::sigs;
use crate::ast::{Expr, ExprKind, FieldInit, MatchArm, Method, Type, TypeKind, TypeKindV, TypeV, UnaryOp};
use crate::elision::{ReturnBorrowSource, ReturnBorrowSourceV};
use crate::infer::{TypeEnv, field_type, infer_expr_type_with, is_view_ty, type_name_of};
use crate::messages::{RawDiag, RawDiagV};
use crate::oracle::{CopyOracle, OracleV};
use crate::ordered::{NameList, NameListV, OrdMap};
use crate::sigs::{SigTable, SigTableV, clone_opt_type, key_of};
use crate::table::{NameMap, NameSet};
use crate::text::str_eq;

verus! {

pub open spec fn put_name(names: NameListV, n: Seq<char>) -> NameListV {
    ordered::ord_put::<String, ()>(names, n, ())
}

pub open spec fn put_names(names: NameListV, more: NameListV, i: nat) -> NameListV
    decreases more.len() - i,
{
    if i >= more.len() {
        names
    } else {
        put_names(put_name(names, more[i as int].0), more, i + 1)
    }
}

pub fn add_names(names: &mut NameList, more: &NameList)
    ensures
        final(names)@ == put_names(old(names)@, more@, 0),
{
    let mut i: usize = 0;
    while i < more.entries.len()
        invariant
            i <= more.entries@.len(),
            put_names(names@, more@, i as nat) == put_names(old(names)@, more@, 0),
        decreases more.entries@.len() - i,
    {
        assert(more@[i as int].0 == more.entries@[i as int].0@);
        names.insert(more.entries[i].0.clone(), ());
        i += 1;
    }
}

pub fn clone_names(names: &NameList) -> (r: NameList)
    ensures
        r@ == names@,
{
    let mut out: NameList = OrdMap { entries: Vec::new() };
    let mut i: usize = 0;
    while i < names.entries.len()
        invariant
            i <= names.entries@.len(),
            out.entries@.len() == i,
            forall|j: int| 0 <= j < i ==> (#[trigger] out@[j]) == names@[j],
        decreases names.entries@.len() - i,
    {
        let ghost before = out@;
        out.entries.push((names.entries[i].0.clone(), ()));
        assert(forall|j: int| 0 <= j < i ==> (#[trigger] out@[j]) == before[j]);
        i += 1;
    }
    assert(out@ =~= names@);
    out
}

/// A binding: its type where known, whether it owns its value, and the roots of the owners
/// that the views in it borrow from.
pub struct ViewLocal {
    pub ty: Option<Type>,
    pub owns_value: bool,
    pub borrow_roots: NameList,
}

pub struct LocalV {
    pub ty: Option<TypeV>,
    pub owns: bool,
    pub roots: NameListV,
}

impl View for ViewLocal {
    type V = LocalV;

    open spec fn view(&self) -> LocalV {
        LocalV { ty: sigs::opt_type(self.ty), owns: self.owns_value, roots: self.borrow_roots@ }
    }
}

impl DeepView for ViewLocal {
    type V = LocalV;

    open spec fn deep_view(&self) -> LocalV {
        self@
    }
}

pub fn clone_local(l: &ViewLocal) -> (r: ViewLocal)
    ensures
        r@ == l@,
{
    ViewLocal { ty: clone_opt_type(&l.ty), owns_value: l.owns_value, borrow_roots: clone_names(&l.borrow_roots) }
}

pub open spec fn plain_local(ty: Option<TypeV>, owns: bool) -> LocalV {
    LocalV { ty, owns, roots: Seq::empty() }
}

pub fn new_local(ty: Option<Type>, owns_value: bool) -> (r: ViewLocal)
    ensures
        r@ == plain_local(sigs::opt_type(ty), owns_value),
{
    ViewLocal { ty, owns_value, borrow_roots: OrdMap::new() }
}

pub type ScopeV = Map<Seq<char>, LocalV>;

pub type Scopes = Vec<NameMap<ViewLocal>>;

fn clone_scope(s: &NameMap<ViewLocal>) -> (r: NameMap<ViewLocal>)
    ensures
        r@ == s@,
{
    let mut out: NameMap<ViewLocal> = NameMap { entries: Vec::new() };
    let mut i: usize = 0;
    while i < s.entries.len()
        invariant
            i <= s.entries@.len(),
            out.entries@.len() == i,
            forall|j: int|
                0 <= j < i ==> (#[trigger] out.entries@[j]).0@ == s.entries@[j].0@ && out.entries@[j].1@
                    == s.entries@[j].1@,
        decreases s.entries@.len() - i,
    {
        out.entries.push((s.entries[i].0.clone(), clone_local(&s.entries[i].1)));
        i += 1;
    }
    proof {
        out.lemma_same_entries(s);
    }
    out
}

pub fn clone_scopes(s: &Scopes) -> (r: Scopes)
    ensures
        r.deep_view() == s.deep_view(),
{
    let mut out: Scopes = Vec::new();
    let mut i: usize = 0;
    while i < s.len()
        invariant
            i <= s@.len(),
            out@.len() == i,
            forall|j: int| 0 <= j < i ==> (#[trigger] out@[j])@ == s@[j]@,
        decreases s@.len() - i,
    {
        out.push(clone_scope(&s[i]));
        i += 1;
    }
    assert(out.deep_view() =~= s.deep_view());
    out
}

/// A binding with the roots that it has in the other scope added to its own.
pub open spec fn joined_local(l: LocalV, k: Seq<char>, other: ScopeV) -> LocalV {
    if other.dom().contains(k) {
        LocalV { roots: put_names(l.roots, other[k].roots, 0), ..l }
    } else {
        l
    }
}

pub open spec fn joined_scope(s: ScopeV, other: ScopeV) -> ScopeV {
    s.map_entries(|k: Seq<char>, l: LocalV| joined_local(l, k, other))
}

/// Where two paths meet, a binding may borrow from what it borrows on either.
pub open spec fn joined(ss: Seq<ScopeV>, other: Seq<ScopeV>) -> Seq<ScopeV> {
    Seq::new(
        ss.len(),
        |d: int|
            if d < other.len() {
                joined_scope(ss[d], other[d])
            } else {
                ss[d]
            },
    )
}

fn join_scope(s: &NameMap<ViewLocal>, other: &NameMap<ViewLocal>) -> (r: NameMap<ViewLocal>)
    ensures
        r@ == joined_scope(s@, other@),
{
    let mut out: NameMap<ViewLocal> = NameMap { entries: Vec::new() };
    let mut i: usize = 0;
    while i < s.entries.len()
        invariant
            i <= s.entries@.len(),
            out.entries@.len() == i,
            forall|j: int|
                0 <= j < i ==> (#[trigger] out.entries@[j]).0@ == s.entries@[j].0@ && out.entries@[j].1@
                    == joined_local(s.entries@[j].1@, s.entries@[j].0@, other@),
        decreases s.entries@.len() - i,
    {
        let mut l = clone_local(&s.entries[i].1);
        if let Some(o) = other.get(s.entries[i].0.as_str()) {
            add_names(&mut l.borrow_roots, &o.borrow_roots);
        }
        out.entries.push((s.entries[i].0.clone(), l));
        i += 1;
    }
    proof {
        out.lemma_same_names(s);
        assert forall|k: Seq<char>| out@.dom().contains(k) implies #[trigger] out@[k] == joined_scope(s@, other@)[k] by {
            s.lemma_value(k);
            out.lemma_value(k);
        }
        assert(out@ =~= joined_scope(s@, other@));
    }
    out
}

pub fn join_scopes(ss: &Scopes, other: &Scopes) -> (r: Scopes)
    ensures
        r.deep_view() == joined(ss.deep_view(), other.deep_view()),
{
    let mut out: Scopes = Vec::new();
    let mut d: usize = 0;
    while d < ss.len()
        invariant
            d <= ss@.len(),
            out@.len() == d,
            forall|j: int|
                0 <= j < d ==> (#[trigger] out@[j])@ == joined(ss.deep_view(), other.deep_view())[j],
        decreases ss@.len() - d,
    {
        assert(ss.deep_view()[d as int] == ss@[d as int]@);
        if d < other.len() {
            assert(other.deep_view()[d as int] == other@[d as int]@);
            out.push(join_scope(&ss[d], &other[d]));
        } else {
            out.push(clone_scope(&ss[d]));
        }
        d += 1;
    }
    assert(out.deep_view() =~= joined(ss.deep_view(), other.deep_view()));
    out
}

/// Joining never loses a binding.
pub proof fn joining_keeps_bindings(ss: Seq<ScopeV>, other: Seq<ScopeV>)
    ensures
        joined(ss, other).len() == ss.len(),
        forall|d: int| 0 <= d < ss.len() ==> (#[trigger] joined(ss, other)[d]).dom() == ss[d].dom(),
{
    assert forall|d: int| 0 <= d < ss.len() implies (#[trigger] joined(ss, other)[d]).dom() == ss[d].dom() by {
        assert(joined(ss, other)[d].dom() =~= ss[d].dom());
    }
}

/// Whose body is walked.
pub enum ViewSite {
    Free { name: String, exported: bool },
    Method { key: String },
}

pub enum ViewSiteV {
    Free { name: Seq<char>, exported: bool },
    Method { key: Seq<char> },
}

impl View for ViewSite {
    type V = ViewSiteV;

    open spec fn view(&self) -> ViewSiteV {
        match *self {
            ViewSite::Free { name, exported } => ViewSiteV::Free { name: name@, exported },
            ViewSite::Method { key } => ViewSiteV::Method { key: key@ },
        }
    }
}

/// A set of method names with the types they belong to.
pub struct MethodSet {
    pub pairs: Vec<(String, String)>,
}

impl View for MethodSet {
    type V = Set<(Seq<char>, Seq<char>)>;

    open spec fn view(&self) -> Set<(Seq<char>, Seq<char>)> {
        self.pairs.deep_view().to_set()
    }
}

impl MethodSet {
    pub fn new() -> (r: MethodSet)
        ensures
            r@ == Set::<(Seq<char>, Seq<char>)>::empty(),
            r.pairs@.len() == 0,
    {
        let r = MethodSet { pairs: Vec::new() };
        assert(r@ =~= Set::<(Seq<char>, Seq<char>)>::empty());
        r
    }

    pub fn contains(&self, ty: &str, method: &str) -> (r: bool)
        ensures
            r == self@.contains((ty@, method@)),
    {
        let mut i: usize = 0;
        while i < self.pairs.len()
            invariant
                i <= self.pairs@.len(),
                forall|j: int| 0 <= j < i ==> (#[trigger] self.pairs.deep_view()[j]) != (ty@, method@),
            decreases self.pairs@.len() - i,
        {
            assert(self.pairs.deep_view()[i as int] == (self.pairs@[i as int].0@, self.pairs@[i as int].1@));
            if str_eq(self.pairs[i].0.as_str(), ty) && str_eq(self.pairs[i].1.as_str(), method) {
                assert(self.pairs.deep_view().contains((ty@, method@)));
                return true;
            }
            i += 1;
        }
        false
    }

    pub fn insert(&mut self, ty: String, method: String)
        ensures
            final(self)@ == old(self)@.insert((ty@, method@)),
            final(self).pairs.deep_view() == old(self).pairs.deep_view().push((ty@, method@)),
    {
        let ghost before = self.pairs.deep_view();
        let ghost v = (ty@, method@);
        self.pairs.push((ty, method));
        let ghost after = self.pairs.deep_view();
        assert(after =~= before.push(v));
        assert forall|p: (Seq<char>, Seq<char>)| #[trigger] after.contains(p) <==> before.contains(p) || p == v by {
            if before.contains(p) {
                let k = choose|k: int| 0 <= k < before.len() && before[k] == p;
                assert(after[k] == p);
            }
            if p == v {
                assert(after[before.len() as int] == p);
            }
            if after.contains(p) && p != v {
                let k = choose|k: int| 0 <= k < after.len() && after[k] == p;
                assert(before[k] == p);
            }
        }
        assert(self@ =~= old(self)@.insert(v));
    }
}

/// For each binding, the bindings whose addresses its value has captured.
pub type TaintV = Seq<(Seq<char>, Seq<Seq<char>>)>;

/// The state of the walk over one body.
pub struct ViewRules<'a> {
    pub sigs: &'a SigTable,
    pub oracle: &'a CopyOracle,
    pub statics: &'a NameMap<Type>,
    pub capturing: &'a MethodSet,
    pub capture_taint: OrdMap<String, Vec<String>>,
    pub scopes: Scopes,
    pub param_names: NameSet,
    pub param_index: NameMap<usize>,
    pub ref_targets: NameSet,
    pub return_ty: Option<Type>,
    pub site: ViewSite,
    pub declares_flows: bool,
    pub diags: Vec<RawDiag>,
}

#[verifier::ext_equal]
pub struct ViewRulesV {
    pub sigs: SigTableV,
    pub oracle: OracleV,
    pub statics: Map<Seq<char>, TypeV>,
    pub capturing: Set<(Seq<char>, Seq<char>)>,
    pub taint: TaintV,
    pub scopes: Seq<ScopeV>,
    pub params: Set<Seq<char>>,
    pub index: Map<Seq<char>, usize>,
    pub refs: Set<Seq<char>>,
    pub ret: Option<TypeV>,
    pub site: ViewSiteV,
    pub declares: bool,
    pub diags: Seq<RawDiagV>,
}

impl<'a> View for ViewRules<'a> {
    type V = ViewRulesV;

    open spec fn view(&self) -> ViewRulesV {
        ViewRulesV {
            sigs: self.sigs@,
            oracle: self.oracle@,
            statics: self.statics@,
            capturing: self.capturing@,
            taint: self.capture_taint@,
            scopes: self.scopes.deep_view(),
            params: self.param_names@,
            index: self.param_index@,
            refs: self.ref_targets@,
            ret: sigs::opt_type(self.return_ty),
            site: self.site@,
            declares: self.declares_flows,
            diags: self.diags.deep_view(),
        }
    }
}

/// `this` and `self` name the receiver.
pub open spec fn canonical_name(name: Seq<char>) -> Seq<char> {
    if name == "this"@ {
        "self"@
    } else {
        name
    }
}

pub fn canonical(name: &str) -> (r: String)
    ensures
        r@ == canonical_name(name@),
{
    if str_eq(name, "this") {
        "self".to_owned()
    } else {
        name.to_owned()
    }
}

/// The binding of a name in the innermost of the first `n` scopes that has one.
pub open spec fn find_local(ss: Seq<ScopeV>, key: Seq<char>, n: nat) -> Option<LocalV>
    decreases n,
{
    if n == 0 || n > ss.len() {
        None
    } else if ss[n - 1].dom().contains(key) {
        Some(ss[n - 1][key])
    } else {
        find_local(ss, key, (n - 1) as nat)
    }
}

pub open spec fn rooted(ss: Seq<ScopeV>, key: Seq<char>, roots: NameListV, n: nat) -> Seq<ScopeV>
    decreases n,
{
    if n == 0 || n > ss.len() {
        ss
    } else if ss[n - 1].dom().contains(key) {
        ss.update(n - 1, ss[n - 1].insert(key, LocalV { roots, ..ss[n - 1][key] }))
    } else {
        rooted(ss, key, roots, (n - 1) as nat)
    }
}

pub open spec fn assoc_ret(sigs: SigTableV, e: Expr) -> Option<TypeV> {
    match e.kind {
        ExprKind::Call { callee, .. } => match callee.kind {
            ExprKind::Path { segments } => if segments@.len() == 2 {
                infer::ret_of(sigs::look(sigs.methods, sigs::method_key(segments@[0].name@, segments@[1].name@)))
            } else {
                None
            },
            _ => None,
        },
        _ => None,
    }
}

pub open spec fn element_of(t: Option<TypeV>) -> Option<TypeV> {
    match t {
        Some(TypeV { kind: TypeKindV::Slice(inner), .. }) => Some(*inner),
        Some(TypeV { kind: TypeKindV::Array { elem, .. }, .. }) => Some(*elem),
        _ => None,
    }
}

pub open spec fn nominal_of(t: Option<TypeV>) -> Option<Seq<char>> {
    match t {
        Some(t) => flow::nominal(t.kind),
        None => None,
    }
}

/// The binding at the root of a place, seen through dereferences.
pub open spec fn deref_root(e: Expr) -> Option<Seq<char>>
    decreases e,
{
    match e.kind {
        ExprKind::Ident(n) => Some(n@),
        ExprKind::Field { receiver, .. } => deref_root(*receiver),
        ExprKind::Index { receiver, .. } => deref_root(*receiver),
        ExprKind::Unary { op: UnaryOp::Deref, operand } => deref_root(*operand),
        _ => None,
    }
}

/// The bindings that an expression hands over whole.
pub open spec fn moved_out(acc: Set<Seq<char>>, e: Expr) -> Set<Seq<char>>
    decreases e, 0nat,
{
    match e.kind {
        ExprKind::Ident(n) => acc.insert(n@),
        ExprKind::StructLit { fields, .. } => moved_fields(acc, fields@, 0),
        ExprKind::InferredStructLit { fields } => moved_fields(acc, fields@, 0),
        ExprKind::GenericStructLit { fields, .. } => moved_fields(acc, fields@, 0),
        ExprKind::ArrayLit { elements } => moved_elems(acc, elements@, 0),
        ExprKind::TupleLit { elements } => moved_elems(acc, elements@, 0),
        ExprKind::GenericEnumCall { args, .. } => moved_elems(acc, args@, 0),
        ExprKind::Block(b) => match b.tail {
            Some(t) => moved_out(acc, *t),
            None => acc,
        },
        ExprKind::If { then, else_branch, .. } => {
            let a = match then.tail {
                Some(t) => moved_out(acc, *t),
                None => acc,
            };
            match else_branch {
                Some(x) => moved_out(a, *x),
                None => a,
            }
        },
        ExprKind::Match { arms, .. } => moved_arms(acc, arms@, 0),
        _ => acc,
    }
}

pub open spec fn moved_ident(acc: Set<Seq<char>>, e: Expr) -> Set<Seq<char>> {
    match e.kind {
        ExprKind::Ident(n) => acc.insert(n@),
        _ => acc,
    }
}

pub open spec fn moved_fields(acc: Set<Seq<char>>, fs: Seq<FieldInit>, i: nat) -> Set<Seq<char>>
    decreases fs, fs.len() - i,
{
    if i >= fs.len() {
        acc
    } else {
        moved_fields(moved_ident(acc, fs[i as int].value), fs, i + 1)
    }
}

pub open spec fn moved_elems(acc: Set<Seq<char>>, es: Seq<Expr>, i: nat) -> Set<Seq<char>>
    decreases es, es.len() - i,
{
    if i >= es.len() {
        acc
    } else {
        moved_elems(moved_ident(acc, es[i as int]), es, i + 1)
    }
}

pub open spec fn moved_arms(acc: Set<Seq<char>>, arms: Seq<MatchArm>, i: nat) -> Set<Seq<char>>
    decreases arms, arms.len() - i,
{
    if i >= arms.len() {
        acc
    } else {
        moved_arms(moved_out(acc, arms[i as int].body), arms, i + 1)
    }
}

/// A block without statements stands for its tail.
pub open spec fn tail_core(e: Expr) -> Expr
    decreases e,
{
    match e.kind {
        ExprKind::Block(b) => if b.stmts@.len() == 0 {
            match b.tail {
                Some(t) => tail_core(*t),
                None => e,
            }
        } else {
            e
        },
        _ => e,
    }
}

impl ViewRulesV {
    pub open spec fn local(self, name: Seq<char>) -> Option<LocalV> {
        find_local(self.scopes, canonical_name(name), self.scopes.len())
    }

    pub open spec fn type_named(self, name: Seq<char>) -> Option<TypeV> {
        match self.local(name) {
            Some(LocalV { ty: Some(t), .. }) => Some(t),
            _ => sigs::look(self.statics, canonical_name(name)),
        }
    }

    /// The types of the names in scope.
    pub open spec fn env(self) -> Map<Seq<char>, TypeV> {
        Map::new(|n: Seq<char>| self.type_named(n) is Some, |n: Seq<char>| self.type_named(n)->0)
    }

    pub open spec fn bind(self, name: Seq<char>, l: LocalV) -> ViewRulesV {
        if self.scopes.len() == 0 {
            self
        } else {
            let n = self.scopes.len() - 1;
            ViewRulesV { scopes: self.scopes.update(n, self.scopes[n].insert(canonical_name(name), l)), ..self }
        }
    }

    pub open spec fn set_roots(self, name: Seq<char>, roots: NameListV) -> ViewRulesV {
        ViewRulesV { scopes: rooted(self.scopes, canonical_name(name), roots, self.scopes.len()), ..self }
    }

    pub open spec fn push_scope(self) -> ViewRulesV {
        ViewRulesV { scopes: self.scopes.push(Map::empty()), ..self }
    }

    pub open spec fn pop_scope(self) -> ViewRulesV {
        if self.scopes.len() == 0 {
            self
        } else {
            ViewRulesV { scopes: self.scopes.drop_last(), ..self }
        }
    }

    pub open spec fn with_scopes(self, ss: Seq<ScopeV>) -> ViewRulesV {
        ViewRulesV { scopes: ss, ..self }
    }

    pub open spec fn report(self, d: RawDiagV) -> ViewRulesV {
        ViewRulesV { diags: self.diags.push(d), ..self }
    }

    pub open spec fn infer_ty(self, e: Expr) -> Option<TypeV> {
        match assoc_ret(self.sigs, e) {
            Some(t) => Some(t),
            None => infer::infer(self.sigs, self.env(), e),
        }
    }

    pub open spec fn carries(self, t: TypeV) -> bool
        decreases t, 0nat,
    {
        match t.kind {
            TypeKindV::Tuple(ts) => self.any_carries(ts, 0),
            _ => self.oracle.contains_view(t),
        }
    }

    pub open spec fn any_carries(self, ts: Seq<TypeV>, i: nat) -> bool
        decreases ts, ts.len() - i,
    {
        if i >= ts.len() {
            false
        } else {
            self.carries(ts[i as int]) || self.any_carries(ts, i + 1)
        }
    }

    /// A view, or a value that holds one.
    pub open spec fn viewing(self, t: TypeV) -> bool {
        infer::is_view(t) || self.carries(t)
    }

    /// The method lends a view of its receiver.
    pub open spec fn lends_view(self, receiver: Expr, method: Seq<char>) -> bool {
        match nominal_of(self.infer_ty(receiver)) {
            Some(base) => match self.sigs.method(base, method) {
                Some(e) => match e.return_borrow {
                    Some((ReturnBorrowSourceV::SelfReceiver, _)) => match e.ret_ty {
                        Some(t) => self.carries(t),
                        None => false,
                    },
                    _ => false,
                },
                None => false,
            },
            None => false,
        }
    }

    /// The roots of the places whose memory the value of an expression may view.
    pub open spec fn view_roots(self, acc: NameListV, e: Expr) -> NameListV
        decreases e, 0nat,
    {
        match e.kind {
            ExprKind::Ident(n) => put_name(acc, n@),
            ExprKind::Field { receiver, .. } => self.view_roots(acc, *receiver),
            ExprKind::Index { receiver, .. } => self.view_roots(acc, *receiver),
            ExprKind::Unary { op: UnaryOp::Deref, operand } => self.view_roots(acc, *operand),
            ExprKind::StructLit { fields, .. } => self.view_roots_fields(acc, fields@, 0),
            ExprKind::InferredStructLit { fields } => self.view_roots_fields(acc, fields@, 0),
            ExprKind::GenericStructLit { fields, .. } => self.view_roots_fields(acc, fields@, 0),
            ExprKind::ArrayLit { elements } => self.view_roots_all(acc, elements@, 0),
            ExprKind::TupleLit { elements } => self.view_roots_all(acc, elements@, 0),
            ExprKind::GenericEnumCall { args, .. } => self.view_roots_all(acc, args@, 0),
            ExprKind::ArrayFill { fill, .. } => self.view_roots(acc, *fill),
            ExprKind::Call { callee, args, .. } => match callee.kind {
                ExprKind::Field { receiver, name } => if self.lends_view(*receiver, name.name@) {
                    self.view_roots(acc, *receiver)
                } else {
                    acc
                },
                ExprKind::Ident(f) => match sigs::look(self.sigs.fns, f@) {
                    Some(entry) => match entry.return_borrow {
                        Some((ReturnBorrowSourceV::Param(i), _)) => self.view_roots_arg(acc, args@, i as nat),
                        Some((ReturnBorrowSourceV::MultiParam(is), _)) => self.view_roots_params(acc, args@, is, 0),
                        _ => acc,
                    },
                    None => acc,
                },
                _ => acc,
            },
            ExprKind::If { then, else_branch, .. } => {
                let a = match then.tail {
                    Some(t) => self.view_roots(acc, *t),
                    None => acc,
                };
                match else_branch {
                    Some(x) => self.view_roots(a, *x),
                    None => a,
                }
            },
            ExprKind::Block(b) => match b.tail {
                Some(t) => self.view_roots(acc, *t),
                None => acc,
            },
            ExprKind::Match { arms, .. } => self.view_roots_arms(acc, arms@, 0),
            _ => acc,
        }
    }

    pub open spec fn view_roots_arg(self, acc: NameListV, args: Seq<Expr>, i: nat) -> NameListV
        decreases args, 0nat,
    {
        if i < args.len() {
            self.view_roots(acc, args[i as int])
        } else {
            acc
        }
    }

    pub open spec fn view_roots_params(self, acc: NameListV, args: Seq<Expr>, is: Seq<u32>, k: nat) -> NameListV
        decreases args, 1 + is.len() - k,
    {
        if k >= is.len() {
            acc
        } else {
            self.view_roots_params(self.view_roots_arg(acc, args, is[k as int] as nat), args, is, k + 1)
        }
    }

    pub open spec fn view_roots_all(self, acc: NameListV, es: Seq<Expr>, i: nat) -> NameListV
        decreases es, es.len() - i,
    {
        if i >= es.len() {
            acc
        } else {
            self.view_roots_all(self.view_roots(acc, es[i as int]), es, i + 1)
        }
    }

    pub open spec fn view_roots_fields(self, acc: NameListV, fs: Seq<FieldInit>, i: nat) -> NameListV
        decreases fs, fs.len() - i,
    {
        if i >= fs.len() {
            acc
        } else {
            self.view_roots_fields(self.view_roots(acc, fs[i as int].value), fs, i + 1)
        }
    }

    pub open spec fn view_roots_arms(self, acc: NameListV, arms: Seq<MatchArm>, i: nat) -> NameListV
        decreases arms, arms.len() - i,
    {
        if i >= arms.len() {
            acc
        } else {
            self.view_roots_arms(self.view_roots(acc, arms[i as int].body), arms, i + 1)
        }
    }

    pub open spec fn owners(self, acc: NameListV, roots: NameListV, i: nat) -> NameListV
        decreases roots.len() - i,
    {
        if i >= roots.len() {
            acc
        } else {
            let root = roots[i as int].0;
            self.owners(
                match self.local(root) {
                    Some(l) => if l.roots.len() > 0 {
                        put_names(acc, l.roots, 0)
                    } else {
                        put_name(acc, root)
                    },
                    None => put_name(acc, root),
                },
                roots,
                i + 1,
            )
        }
    }

    /// The owners that the value of an expression may borrow from: a binding that itself
    /// borrows stands for its owners.
    pub open spec fn borrow_roots(self, e: Expr) -> NameListV {
        self.owners(Seq::empty(), self.view_roots(Seq::empty(), e), 0)
    }

    /// The binding owns memory that is freed when the function returns.
    pub open spec fn dies_at_return(self, root: Seq<char>) -> bool {
        match self.local(root) {
            Some(LocalV { owns: true, ty: Some(t), .. }) => !self.oracle.assumed_copied(t),
            _ => false,
        }
    }

    pub open spec fn owner_desc(self, root: Seq<char>) -> Seq<char> {
        if root == "self"@ || root == "this"@ {
            "the `take this` receiver"@
        } else if self.params.contains(root) {
            "`take` parameter `"@ + root + "`"@
        } else {
            "local `"@ + root + "`"@
        }
    }

    /// The value is an owner where a view is wanted.
    pub open spec fn coerces(self, e: Expr, expected: Option<TypeV>) -> bool {
        match expected {
            Some(want) => infer::is_view(want) && match self.infer_ty(e) {
                Some(t) => !infer::is_view(t) && !self.oracle.assumed_copied(t),
                None => false,
            },
            None => false,
        }
    }

    /// The type of a place, seen through dereferences.
    pub open spec fn place_ty(self, e: Expr) -> Option<TypeV>
        decreases e,
    {
        match e.kind {
            ExprKind::Unary { op: UnaryOp::Deref, operand } => match self.place_ty(*operand) {
                Some(TypeV { kind: TypeKindV::RawPtr(inner), .. }) => Some(*inner),
                _ => None,
            },
            ExprKind::Index { receiver, .. } => element_of(self.place_ty(*receiver)),
            ExprKind::Field { receiver, name } => match nominal_of(self.place_ty(*receiver)) {
                Some(base) => infer::field_of(self.sigs, base, name.name@),
                None => None,
            },
            _ => self.infer_ty(e),
        }
    }

    /// A view taken of a value that no binding holds: the value's type and the method.
    pub open spec fn temp_origin(self, e: Expr) -> Option<(Seq<char>, Seq<char>)>
        decreases e,
    {
        match e.kind {
            ExprKind::Call { callee, .. } => match callee.kind {
                ExprKind::Field { receiver, name } => if deref_root(*receiver) is Some {
                    None
                } else {
                    match self.infer_ty(*receiver) {
                        Some(t) => if !self.lends_view(*receiver, name.name@) {
                            None
                        } else if self.oracle.assumed_copied(t) {
                            if infer::is_view(t) {
                                self.temp_origin(*receiver)
                            } else {
                                None
                            }
                        } else {
                            match flow::nominal(t.kind) {
                                Some(n) => Some((n, name.name@)),
                                None => None,
                            }
                        },
                        None => None,
                    }
                },
                _ => None,
            },
            _ => None,
        }
    }
}

impl<'a> TypeEnv for ViewRules<'a> {
    open spec fn env(&self) -> Map<Seq<char>, TypeV> {
        self@.env()
    }

    fn type_of(&self, name: &str) -> (r: Option<Type>) {
        if let Some(l) = self.lookup(name) {
            if let Some(t) = &l.ty {
                return Some(t.clone());
            }
        }
        let key = canonical(name);
        match self.statics.get(key.as_str()) {
            Some(t) => Some(t.clone()),
            None => None,
        }
    }
}

pub fn element_ty(t: &Option<Type>) -> (r: Option<Type>)
    ensures
        sigs::opt_type(r) == element_of(sigs::opt_type(*t)),
{
    match t {
        Some(t) => match &t.kind {
            TypeKind::Slice(inner) => Some((**inner).clone()),
            TypeKind::Array { elem, .. } => Some((**elem).clone()),
            _ => None,
        },
        None => None,
    }
}

pub open spec fn opt_text(n: Option<&str>) -> Option<Seq<char>> {
    match n {
        Some(s) => Some(s@),
        None => None,
    }
}

pub fn base_name(t: &Option<Type>) -> (r: Option<&str>)
    ensures
        opt_text(r) == nominal_of(sigs::opt_type(*t)),
{
    match t {
        Some(t) => match type_name_of(t) {
            Some(n) => Some(n.as_str()),
            None => None,
        },
        None => None,
    }
}

pub fn place_root(e: &Expr) -> (r: Option<&str>)
    ensures
        opt_text(r) == deref_root(*e),
    decreases e,
{
    match &e.kind {
        ExprKind::Ident(n) => Some(n.as_str()),
        ExprKind::Field { receiver, .. } => place_root(receiver),
        ExprKind::Index { receiver, .. } => place_root(receiver),
        ExprKind::Unary { op: UnaryOp::Deref, operand } => place_root(operand),
        _ => None,
    }
}

pub fn trivial_tail(e: &Expr) -> (r: &Expr)
    ensures
        *r == tail_core(*e),
    decreases e,
{
    if let ExprKind::Block(b) = &e.kind {
        if b.stmts.len() == 0 {
            if let Some(t) = &b.tail {
                return trivial_tail(t);
            }
        }
    }
    e
}

fn add_moved_ident(out: &mut NameSet, e: &Expr)
    ensures
        final(out)@ == moved_ident(old(out)@, *e),
{
    if let ExprKind::Ident(n) = &e.kind {
        out.insert(n.clone());
    }
}

fn add_moved_fields(out: &mut NameSet, fs: &Vec<FieldInit>)
    ensures
        final(out)@ == moved_fields(old(out)@, fs@, 0),
{
    let mut i: usize = 0;
    while i < fs.len()
        invariant
            i <= fs@.len(),
            moved_fields(out@, fs@, i as nat) == moved_fields(old(out)@, fs@, 0),
        decreases fs@.len() - i,
    {
        add_moved_ident(out, &fs[i].value);
        i += 1;
    }
}

fn add_moved_elems(out: &mut NameSet, es: &Vec<Expr>)
    ensures
        final(out)@ == moved_elems(old(out)@, es@, 0),
{
    let mut i: usize = 0;
    while i < es.len()
        invariant
            i <= es@.len(),
            moved_elems(out@, es@, i as nat) == moved_elems(old(out)@, es@, 0),
        decreases es@.len() - i,
    {
        add_moved_ident(out, &es[i]);
        i += 1;
    }
}

#[verifier::loop_isolation(false)]
fn add_moved_arms(out: &mut NameSet, arms: &Vec<MatchArm>)
    ensures
        final(out)@ == moved_arms(old(out)@, arms@, 0),
    decreases arms,
{
    let mut i: usize = 0;
    while i < arms.len()
        invariant
            i <= arms@.len(),
            moved_arms(out@, arms@, i as nat) == moved_arms(old(out)@, arms@, 0),
        decreases arms@.len() - i,
    {
        moved_out_roots(out, &arms[i].body);
        i += 1;
    }
}

pub fn moved_out_roots(out: &mut NameSet, e: &Expr)
    ensures
        final(out)@ == moved_out(old(out)@, *e),
    decreases e,
{
    match &e.kind {
        ExprKind::Ident(n) => out.insert(n.clone()),
        ExprKind::StructLit { fields, .. } => add_moved_fields(out, fields),
        ExprKind::InferredStructLit { fields } => add_moved_fields(out, fields),
        ExprKind::GenericStructLit { fields, .. } => add_moved_fields(out, fields),
        ExprKind::ArrayLit { elements } => add_moved_elems(out, elements),
        ExprKind::TupleLit { elements } => add_moved_elems(out, elements),
        ExprKind::GenericEnumCall { args, .. } => add_moved_elems(out, args),
        ExprKind::Block(b) => if let Some(t) = &b.tail {
            moved_out_roots(out, t);
        },
        ExprKind::If { then, else_branch, .. } => {
            if let Some(t) = &then.tail {
                moved_out_roots(out, t);
            }
            if let Some(x) = else_branch {
                moved_out_roots(out, x);
            }
        },
        ExprKind::Match { arms, .. } => add_moved_arms(out, arms),
        _ => {},
    }
}

impl<'a> ViewRules<'a> {
    pub fn lookup(&self, name: &str) -> (r: Option<&ViewLocal>)
        ensures
            match r {
                Some(l) => self@.local(name@) == Some(l@),
                None => self@.local(name@) is None,
            },
    {
        let key = canonical(name);
        let ghost ss = self.scopes.deep_view();
        let mut n: usize = self.scopes.len();
        while n > 0
            invariant
                n <= self.scopes@.len(),
                ss == self.scopes.deep_view(),
                find_local(ss, key@, n as nat) == find_local(ss, key@, ss.len()),
                key@ == canonical_name(name@),
                ss == self@.scopes,
            decreases n,
        {
            assert(ss[n - 1] == self.scopes@[n - 1]@);
            if let Some(l) = self.scopes[n - 1].get(key.as_str()) {
                return Some(l);
            }
            n -= 1;
        }
        None
    }

    pub fn bind(&mut self, name: &str, l: ViewLocal)
        ensures
            final(self)@ == old(self)@.bind(name@, l@),
    {
        if self.scopes.len() > 0 {
            let n: usize = self.scopes.len() - 1;
            let ghost ss = self.scopes.deep_view();
            let ghost lv = l@;
            let mut top = self.scopes.remove(n);
            assert(ss[n as int] == top@);
            top.insert(canonical(name), l);
            let ghost tv = top@;
            self.scopes.push(top);
            assert(self.scopes.deep_view() =~= ss.update(n as int, tv));
        }
    }

    pub fn set_roots(&mut self, name: &str, roots: NameList)
        ensures
            final(self)@ == old(self)@.set_roots(name@, roots@),
    {
        let key = canonical(name);
        let ghost ss = self.scopes.deep_view();
        let mut n: usize = self.scopes.len();
        while n > 0
            invariant
                n <= self.scopes@.len(),
                ss == self.scopes.deep_view(),
                *self == *old(self),
                rooted(ss, key@, roots@, n as nat) == rooted(ss, key@, roots@, ss.len()),
                key@ == canonical_name(name@),
                ss == self@.scopes,
            decreases n,
        {
            assert(ss[n - 1] == self.scopes@[n - 1]@);
            let found = match self.scopes[n - 1].get(key.as_str()) {
                Some(l) => Some(ViewLocal { ty: clone_opt_type(&l.ty), owns_value: l.owns_value, borrow_roots: clone_names(&roots) }),
                None => None,
            };
            if let Some(l) = found {
                let mut s = self.scopes.remove(n - 1);
                s.insert(key, l);
                let ghost sv = s@;
                self.scopes.insert(n - 1, s);
                assert(self.scopes.deep_view() =~= ss.update(n - 1, sv));
                return;
            }
            n -= 1;
        }
    }

    pub fn push_scope(&mut self)
        ensures
            final(self)@ == old(self)@.push_scope(),
    {
        let ghost ss = self.scopes.deep_view();
        self.scopes.push(NameMap::new());
        assert(self.scopes.deep_view() =~= ss.push(Map::empty()));
    }

    pub fn pop_scope(&mut self)
        ensures
            final(self)@ == old(self)@.pop_scope(),
    {
        if self.scopes.len() > 0 {
            let ghost ss = self.scopes.deep_view();
            let _ = self.scopes.pop();
            assert(self.scopes.deep_view() =~= ss.drop_last());
        }
    }

    pub fn report(&mut self, d: RawDiag)
        ensures
            final(self)@ == old(self)@.report(d@),
    {
        let ghost before = self.diags.deep_view();
        let ghost dv = d@;
        self.diags.push(d);
        assert(self.diags.deep_view() =~= before.push(dv));
    }

    fn assoc_call_ret_ty(&self, e: &Expr) -> (r: Option<Type>)
        ensures
            sigs::opt_type(r) == assoc_ret(self@.sigs, *e),
    {
        if let ExprKind::Call { callee, .. } = &e.kind {
            if let ExprKind::Path { segments } = &callee.kind {
                if segments.len() == 2 {
                    let key = key_of(segments[0].name.as_str(), segments[1].name.as_str());
                    if let Some(entry) = self.sigs.methods.get(key.as_str()) {
                        return clone_opt_type(&entry.ret_ty);
                    }
                }
            }
        }
        None
    }

    pub fn infer_ty(&self, e: &Expr) -> (r: Option<Type>)
        ensures
            sigs::opt_type(r) == self@.infer_ty(*e),
    {
        match self.assoc_call_ret_ty(e) {
            Some(t) => Some(t),
            None => infer_expr_type_with(e, self.sigs, self),
        }
    }

    pub fn carries_view(&self, t: &Type) -> (r: bool)
        ensures
            r == self@.carries(t@),
        decreases t,
    {
        match &t.kind {
            TypeKind::Tuple(ts) => {
                proof {
                    ast::lemma_types_view(ts@);
                }
                self.any_carries_view(ts)
            },
            _ => self.oracle.type_contains_view(t),
        }
    }

    #[verifier::loop_isolation(false)]
    fn any_carries_view(&self, ts: &Vec<Type>) -> (r: bool)
        ensures
            r == self@.any_carries(ast::types_view(ts@), 0),
        decreases ts,
    {
        proof {
            ast::lemma_types_view(ts@);
        }
        let mut i: usize = 0;
        while i < ts.len()
            invariant
                i <= ts@.len(),
                self@.any_carries(ast::types_view(ts@), i as nat) == self@.any_carries(ast::types_view(ts@), 0),
            decreases ts@.len() - i,
        {
            if self.carries_view(&ts[i]) {
                return true;
            }
            i += 1;
        }
        false
    }

    pub fn is_viewing(&self, t: &Type) -> (r: bool)
        ensures
            r == self@.viewing(t@),
    {
        is_view_ty(t) || self.carries_view(t)
    }

    pub fn method_produces_view(&self, receiver: &Expr, method: &str) -> (r: bool)
        ensures
            r == self@.lends_view(*receiver, method@),
    {
        let t = self.infer_ty(receiver);
        let base = match base_name(&t) {
            Some(b) => b,
            None => {
                return false;
            },
        };
        match self.sigs.method_entry(base, method) {
            Some(e) => match &e.return_borrow {
                Some((ReturnBorrowSource::SelfReceiver, _)) => match &e.ret_ty {
                    Some(t) => self.carries_view(t),
                    None => false,
                },
                _ => false,
            },
            None => false,
        }
    }

    #[verifier::loop_isolation(false)]
    fn add_view_roots_all(&self, out: &mut NameList, es: &Vec<Expr>)
        ensures
            final(out)@ == self@.view_roots_all(old(out)@, es@, 0),
        decreases es, 2nat,
    {
        let mut i: usize = 0;
        while i < es.len()
            invariant
                i <= es@.len(),
                self@.view_roots_all(out@, es@, i as nat) == self@.view_roots_all(old(out)@, es@, 0),
            decreases es@.len() - i,
        {
            self.add_view_roots(out, &es[i]);
            i += 1;
        }
    }

    #[verifier::loop_isolation(false)]
    fn add_view_roots_fields(&self, out: &mut NameList, fs: &Vec<FieldInit>)
        ensures
            final(out)@ == self@.view_roots_fields(old(out)@, fs@, 0),
        decreases fs, 2nat,
    {
        let mut i: usize = 0;
        while i < fs.len()
            invariant
                i <= fs@.len(),
                self@.view_roots_fields(out@, fs@, i as nat) == self@.view_roots_fields(old(out)@, fs@, 0),
            decreases fs@.len() - i,
        {
            self.add_view_roots(out, &fs[i].value);
            i += 1;
        }
    }

    #[verifier::loop_isolation(false)]
    fn add_view_roots_arms(&self, out: &mut NameList, arms: &Vec<MatchArm>)
        ensures
            final(out)@ == self@.view_roots_arms(old(out)@, arms@, 0),
        decreases arms, 2nat,
    {
        let mut i: usize = 0;
        while i < arms.len()
            invariant
                i <= arms@.len(),
                self@.view_roots_arms(out@, arms@, i as nat) == self@.view_roots_arms(old(out)@, arms@, 0),
            decreases arms@.len() - i,
        {
            self.add_view_roots(out, &arms[i].body);
            i += 1;
        }
    }

    fn add_view_roots_arg(&self, out: &mut NameList, args: &Vec<Expr>, i: u32)
        ensures
            final(out)@ == self@.view_roots_arg(old(out)@, args@, i as nat),
        decreases args, 1nat,
    {
        if (i as usize) < args.len() {
            self.add_view_roots(out, &args[i as usize]);
        }
    }

    #[verifier::loop_isolation(false)]
    fn add_view_roots_params(&self, out: &mut NameList, args: &Vec<Expr>, is: &Vec<u32>)
        ensures
            final(out)@ == self@.view_roots_params(old(out)@, args@, is@, 0),
        decreases args, 2nat,
    {
        let mut k: usize = 0;
        while k < is.len()
            invariant
                k <= is@.len(),
                self@.view_roots_params(out@, args@, is@, k as nat) == self@.view_roots_params(old(out)@, args@, is@, 0),
            decreases is@.len() - k,
        {
            self.add_view_roots_arg(out, args, is[k]);
            k += 1;
        }
    }

    pub fn add_view_roots(&self, out: &mut NameList, e: &Expr)
        ensures
            final(out)@ == self@.view_roots(old(out)@, *e),
        decreases e, 0nat,
    {
        match &e.kind {
            ExprKind::Ident(n) => {
                out.insert(n.clone(), ());
            },
            ExprKind::Field { receiver, .. } => self.add_view_roots(out, receiver),
            ExprKind::Index { receiver, .. } => self.add_view_roots(out, receiver),
            ExprKind::Unary { op: UnaryOp::Deref, operand } => self.add_view_roots(out, operand),
            ExprKind::StructLit { fields, .. } => self.add_view_roots_fields(out, fields),
            ExprKind::InferredStructLit { fields } => self.add_view_roots_fields(out, fields),
            ExprKind::GenericStructLit { fields, .. } => self.add_view_roots_fields(out, fields),
            ExprKind::ArrayLit { elements } => self.add_view_roots_all(out, elements),
            ExprKind::TupleLit { elements } => self.add_view_roots_all(out, elements),
            ExprKind::GenericEnumCall { args, .. } => self.add_view_roots_all(out, args),
            ExprKind::ArrayFill { fill, .. } => self.add_view_roots(out, fill),
            ExprKind::Call { callee, args, .. } => match &callee.kind {
                ExprKind::Field { receiver, name } => if self.method_produces_view(receiver, name.name.as_str()) {
                    self.add_view_roots(out, receiver);
                },
                ExprKind::Ident(f) => if let Some(entry) = self.sigs.fns.get(f.as_str()) {
                    match &entry.return_borrow {
                        Some((ReturnBorrowSource::Param(i), _)) => self.add_view_roots_arg(out, args, *i),
                        Some((ReturnBorrowSource::MultiParam(is), _)) => self.add_view_roots_params(out, args, is),
                        _ => {},
                    }
                },
                _ => {},
            },
            ExprKind::If { then, else_branch, .. } => {
                if let Some(t) = &then.tail {
                    self.add_view_roots(out, t);
                }
                if let Some(x) = else_branch {
                    self.add_view_roots(out, x);
                }
            },
            ExprKind::Block(b) => if let Some(t) = &b.tail {
                self.add_view_roots(out, t);
            },
            ExprKind::Match { arms, .. } => self.add_view_roots_arms(out, arms),
            _ => {},
        }
    }

    pub fn view_source_roots(&self, e: &Expr) -> (r: NameList)
        ensures
            r@ == self@.view_roots(Seq::empty(), *e),
    {
        let mut out: NameList = OrdMap::new();
        self.add_view_roots(&mut out, e);
        out
    }

    pub fn borrow_roots_of(&self, e: &Expr) -> (r: NameList)
        ensures
            r@ == self@.borrow_roots(*e),
    {
        let roots = self.view_source_roots(e);
        let mut out: NameList = OrdMap::new();
        let mut i: usize = 0;
        while i < roots.entries.len()
            invariant
                i <= roots.entries@.len(),
                self@.owners(out@, roots@, i as nat) == self@.owners(Seq::empty(), roots@, 0),
            decreases roots.entries@.len() - i,
        {
            assert(roots@[i as int].0 == roots.entries@[i as int].0@);
            match self.lookup(roots.entries[i].0.as_str()) {
                Some(l) => if l.borrow_roots.entries.len() > 0 {
                    add_names(&mut out, &l.borrow_roots);
                } else {
                    out.insert(roots.entries[i].0.clone(), ());
                },
                None => {
                    out.insert(roots.entries[i].0.clone(), ());
                },
            }
            i += 1;
        }
        out
    }

    pub fn root_dies_at_return(&self, root: &str) -> (r: bool)
        ensures
            r == self@.dies_at_return(root@),
    {
        match self.lookup(root) {
            Some(l) => match &l.ty {
                Some(t) => l.owns_value && !self.oracle.may_be_copied(t),
                None => false,
            },
            None => false,
        }
    }

    pub fn owner_desc(&self, root: &str) -> (r: String)
        ensures
            r@ == self@.owner_desc(root@),
    {
        if str_eq(root, "self") || str_eq(root, "this") {
            "the `take this` receiver".to_owned()
        } else if self.param_names.contains(root) {
            let mut s: String = "`take` parameter `".to_owned();
            s.append(root);
            s.append("`");
            s
        } else {
            let mut s: String = "local `".to_owned();
            s.append(root);
            s.append("`");
            s
        }
    }

    pub fn is_coercion_to_view(&self, e: &Expr, expected: &Option<Type>) -> (r: bool)
        ensures
            r == self@.coerces(*e, sigs::opt_type(*expected)),
    {
        match expected {
            Some(want) => is_view_ty(want) && match self.infer_ty(e) {
                Some(t) => !is_view_ty(&t) && !self.oracle.may_be_copied(&t),
                None => false,
            },
            None => false,
        }
    }

    pub fn place_ty(&self, e: &Expr) -> (r: Option<Type>)
        ensures
            sigs::opt_type(r) == self@.place_ty(*e),
        decreases e,
    {
        match &e.kind {
            ExprKind::Unary { op: UnaryOp::Deref, operand } => match self.place_ty(operand) {
                Some(t) => match t.kind {
                    TypeKind::RawPtr(inner) => Some(*inner),
                    _ => None,
                },
                None => None,
            },
            ExprKind::Index { receiver, .. } => element_ty(&self.place_ty(receiver)),
            ExprKind::Field { receiver, name } => {
                let t = self.place_ty(receiver);
                match base_name(&t) {
                    Some(base) => field_type(self.sigs, base, name.name.as_str()),
                    None => None,
                }
            },
            _ => self.infer_ty(e),
        }
    }

    pub fn temp_view_origin(&self, e: &Expr) -> (r: Option<(String, String)>)
        ensures
            match r {
                Some((t, m)) => self@.temp_origin(*e) == Some((t@, m@)),
                None => self@.temp_origin(*e) is None,
            },
        decreases e,
    {
        if let ExprKind::Call { callee, .. } = &e.kind {
            if let ExprKind::Field { receiver, name } = &callee.kind {
                if place_root(receiver).is_some() {
                    return None;
                }
                let t = match self.infer_ty(receiver) {
                    Some(t) => t,
                    None => {
                        return None;
                    },
                };
                if !self.method_produces_view(receiver, name.name.as_str()) {
                    return None;
                }
                if self.oracle.may_be_copied(&t) {
                    if is_view_ty(&t) {
                        return self.temp_view_origin(receiver);
                    }
                    return None;
                }
                return match type_name_of(&t) {
                    Some(n) => Some((n.clone(), name.name.clone())),
                    None => None,
                };
            }
        }
        None
    }
}

} // verus!
