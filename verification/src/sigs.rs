//! The signatures of a program, as callers see them.
use vstd::prelude::*;
use vstd::string::*;
use crate::ast;
use crate::elision;
use crate::oracle;
use crate::ast::{AttrArg, Attribute, FieldDecl, Function, GenericParam, ImplBlock, Item, ItemKind, Method, Param, Program, Receiver, Type, TypeKind, TypeKindV, TypeV, VariantDecl, clone_types, has_keeps};
use crate::elision::{BorrowFlavor, ElisionV, ReturnBorrowSource, ReturnBorrowSourceV, detect_fn_elision_with_flavor, detect_method_elision_with_flavor, type_of_name};
use crate::oracle::{CopyOracle, OracleV};
use crate::table::{NameMap, NameSet};
use crate::text::str_eq;

verus! {

/// What an argument slot or a receiver does to the place it names.
#[derive(Debug, Clone, Copy, PartialEq, Eq, Structural)]
pub enum ClaimKind {
    Shared,
    Exclusive,
    Move,
}

/// What is known of a function or method.
pub struct FnEntry {
    pub receiver_claim: Option<ClaimKind>,
    pub param_moves: Vec<bool>,
    pub param_muts: Vec<bool>,
    /// What the result borrows, and how.
    pub return_borrow: Option<(ReturnBorrowSource, BorrowFlavor)>,
    /// Declared to store its view arguments in the receiver.
    pub keeps_this: bool,
    pub param_view_flags: Vec<bool>,
    /// Parameters found to flow into the receiver.
    pub computed_keeps: Vec<bool>,
    pub ret_view: bool,
    /// Pairs of a parameter and the `ref` parameter that it flows into.
    pub computed_ref_flows: Vec<(usize, usize)>,
    /// Parameters found to flow into the result, as a bit set.
    pub computed_ret_flow: Option<u64>,
    pub computed_ret_from_receiver: Option<bool>,
    pub ret_ty: Option<Type>,
    pub param_tys: Vec<Type>,
}

#[verifier::ext_equal]
pub struct FnEntryV {
    pub receiver_claim: Option<ClaimKind>,
    pub param_moves: Seq<bool>,
    pub param_muts: Seq<bool>,
    pub return_borrow: ElisionV,
    pub keeps_this: bool,
    pub param_view_flags: Seq<bool>,
    pub computed_keeps: Seq<bool>,
    pub ret_view: bool,
    pub computed_ref_flows: Seq<(usize, usize)>,
    pub computed_ret_flow: Option<u64>,
    pub computed_ret_from_receiver: Option<bool>,
    pub ret_ty: Option<TypeV>,
    pub param_tys: Seq<TypeV>,
}

pub open spec fn opt_type(t: Option<Type>) -> Option<TypeV> {
    match t {
        Some(x) => Some(x@),
        None => None,
    }
}

impl View for FnEntry {
    type V = FnEntryV;

    open spec fn view(&self) -> FnEntryV {
        FnEntryV {
            receiver_claim: self.receiver_claim,
            param_moves: self.param_moves@,
            param_muts: self.param_muts@,
            return_borrow: elision::opt_elision(self.return_borrow),
            keeps_this: self.keeps_this,
            param_view_flags: self.param_view_flags@,
            computed_keeps: self.computed_keeps@,
            ret_view: self.ret_view,
            computed_ref_flows: self.computed_ref_flows@,
            computed_ret_flow: self.computed_ret_flow,
            computed_ret_from_receiver: self.computed_ret_from_receiver,
            ret_ty: opt_type(self.ret_ty),
            param_tys: ast::types_view(self.param_tys@),
        }
    }
}

impl DeepView for FnEntry {
    type V = FnEntryV;

    open spec fn deep_view(&self) -> FnEntryV {
        self@
    }
}

pub fn clone_flags(v: &Vec<bool>) -> (r: Vec<bool>)
    ensures
        r@ == v@,
{
    let r = v.clone();
    assert(r@ =~= v@);
    r
}

pub fn clone_opt_type(t: &Option<Type>) -> (r: Option<Type>)
    ensures
        opt_type(r) == opt_type(*t),
{
    match t {
        Some(x) => Some(x.clone()),
        None => None,
    }
}

fn clone_flows(v: &Vec<(usize, usize)>) -> (r: Vec<(usize, usize)>)
    ensures
        r@ == v@,
{
    let mut out: Vec<(usize, usize)> = Vec::new();
    let mut i: usize = 0;
    while i < v.len()
        invariant
            i <= v@.len(),
            out@ == v@.subrange(0, i as int),
        decreases v@.len() - i,
    {
        out.push(v[i]);
        i += 1;
        assert(out@ =~= v@.subrange(0, i as int));
    }
    assert(out@ =~= v@);
    out
}

impl Clone for FnEntry {
    fn clone(&self) -> (r: FnEntry)
        ensures
            r@ == self@,
    {
        FnEntry {
            receiver_claim: self.receiver_claim,
            param_moves: clone_flags(&self.param_moves),
            param_muts: clone_flags(&self.param_muts),
            return_borrow: match &self.return_borrow {
                Some((s, fl)) => Some((s.clone(), *fl)),
                None => None,
            },
            keeps_this: self.keeps_this,
            param_view_flags: clone_flags(&self.param_view_flags),
            computed_keeps: clone_flags(&self.computed_keeps),
            ret_view: self.ret_view,
            computed_ref_flows: clone_flows(&self.computed_ref_flows),
            computed_ret_flow: self.computed_ret_flow,
            computed_ret_from_receiver: self.computed_ret_from_receiver,
            ret_ty: clone_opt_type(&self.ret_ty),
            param_tys: clone_types(&self.param_tys),
        }
    }
}

/// The signatures, field types and variants of a program, by name. Methods are listed
/// under `Type.method`.
pub struct SigTable {
    pub fns: NameMap<FnEntry>,
    pub methods: NameMap<FnEntry>,
    pub struct_fields: NameMap<NameMap<Type>>,
    pub enums: NameSet,
    pub enum_payloads: NameMap<NameMap<Vec<Type>>>,
    pub enum_generics: NameMap<Vec<String>>,
    pub impl_generics: NameMap<Vec<String>>,
    /// The struct declared as the string type of the language.
    pub lang_string: Option<String>,
}

pub struct SigTableV {
    pub fns: Map<Seq<char>, FnEntryV>,
    pub methods: Map<Seq<char>, FnEntryV>,
    pub struct_fields: Map<Seq<char>, Map<Seq<char>, TypeV>>,
    pub enums: Set<Seq<char>>,
    pub enum_payloads: Map<Seq<char>, Map<Seq<char>, Seq<TypeV>>>,
    pub enum_generics: Map<Seq<char>, Seq<Seq<char>>>,
    pub impl_generics: Map<Seq<char>, Seq<Seq<char>>>,
    pub lang_string: Option<Seq<char>>,
}

pub open spec fn opt_name(n: Option<String>) -> Option<Seq<char>> {
    match n {
        Some(x) => Some(x@),
        None => None,
    }
}

impl View for SigTable {
    type V = SigTableV;

    open spec fn view(&self) -> SigTableV {
        SigTableV {
            fns: self.fns@,
            methods: self.methods@,
            struct_fields: self.struct_fields@,
            enums: self.enums@,
            enum_payloads: self.enum_payloads@,
            enum_generics: self.enum_generics@,
            impl_generics: self.impl_generics@,
            lang_string: opt_name(self.lang_string),
        }
    }
}

/// A flag that is false where the list does not reach.
pub open spec fn flag_at(flags: Seq<bool>, i: int) -> bool {
    0 <= i < flags.len() && flags[i]
}

pub fn flag(flags: &Vec<bool>, i: usize) -> (r: bool)
    ensures
        r == flag_at(flags@, i as int),
{
    i < flags.len() && flags[i]
}

/// One of the names stands somewhere in the type; the signature of a function pointer does
/// not count.
pub open spec fn mentions_name(t: TypeV, names: Seq<Seq<char>>) -> bool
    decreases t, 0nat,
{
    match t.kind {
        TypeKindV::Path(p) => names.contains(p),
        TypeKindV::Generic { name, args } => names.contains(name) || any_mentions_name(args, names, 0),
        TypeKindV::Slice(inner) => mentions_name(*inner, names),
        TypeKindV::RawPtr(inner) => mentions_name(*inner, names),
        TypeKindV::Array { elem, .. } => mentions_name(*elem, names),
        TypeKindV::Tuple(ts) => any_mentions_name(ts, names, 0),
        TypeKindV::FnPtr { .. } => false,
    }
}

pub open spec fn any_mentions_name(ts: Seq<TypeV>, names: Seq<Seq<char>>, i: nat) -> bool
    decreases ts, ts.len() - i,
{
    if i >= ts.len() {
        false
    } else {
        mentions_name(ts[i as int], names) || any_mentions_name(ts, names, i + 1)
    }
}

pub fn has_name(names: &Vec<String>, n: &str) -> (r: bool)
    ensures
        r == names.deep_view().contains(n@),
{
    let mut i: usize = 0;
    while i < names.len()
        invariant
            i <= names@.len(),
            forall|j: int| 0 <= j < i ==> (#[trigger] names.deep_view()[j]) != n@,
        decreases names@.len() - i,
    {
        assert(names.deep_view()[i as int] == names@[i as int]@);
        if str_eq(names[i].as_str(), n) {
            return true;
        }
        i += 1;
    }
    false
}

#[verifier::loop_isolation(false)]
fn some_mentions_name(ts: &Vec<Type>, names: &Vec<String>) -> (r: bool)
    ensures
        r == any_mentions_name(ast::types_view(ts@), names.deep_view(), 0),
    decreases ts,
{
    proof {
        ast::lemma_types_view(ts@);
    }
    let mut i: usize = 0;
    while i < ts.len()
        invariant
            i <= ts@.len(),
            any_mentions_name(ast::types_view(ts@), names.deep_view(), 0) == any_mentions_name(
                ast::types_view(ts@),
                names.deep_view(),
                i as nat,
            ),
        decreases ts@.len() - i,
    {
        assert(ast::types_view(ts@)[i as int] == ts@[i as int]@);
        if type_mentions_name(&ts[i], names) {
            return true;
        }
        i += 1;
    }
    false
}

pub fn type_mentions_name(t: &Type, names: &Vec<String>) -> (r: bool)
    ensures
        r == mentions_name(t@, names.deep_view()),
    decreases t,
{
    match &t.kind {
        TypeKind::Path(p) => has_name(names, p.as_str()),
        TypeKind::Generic { name, args } => has_name(names, name.as_str()) || some_mentions_name(args, names),
        TypeKind::Slice(inner) => type_mentions_name(inner, names),
        TypeKind::RawPtr(inner) => type_mentions_name(inner, names),
        TypeKind::Array { elem, .. } => type_mentions_name(elem, names),
        TypeKind::Tuple(ts) => some_mentions_name(ts, names),
        TypeKind::FnPtr { .. } => false,
    }
}

/// The part of a path after its last `::` that begins at or before `i`.
pub open spec fn base_from(name: Seq<char>, i: nat) -> Seq<char>
    decreases i,
{
    if i + 1 < name.len() && name[i as int] == ':' && name[i as int + 1] == ':' {
        name.subrange(i as int + 2, name.len() as int)
    } else if i == 0 {
        name
    } else {
        base_from(name, (i - 1) as nat)
    }
}

/// The last segment of a path.
pub open spec fn base_of(name: Seq<char>) -> Seq<char> {
    base_from(name, name.len())
}

pub fn base_type_name(name: &str) -> (r: String)
    ensures
        r@ == base_of(name@),
{
    let n: usize = name.unicode_len();
    let mut i: usize = n;
    loop
        invariant
            n == name@.len(),
            i <= n,
            base_from(name@, i as nat) == base_of(name@),
        decreases i,
    {
        if n > 0 && i < n - 1 {
            if name.get_char(i) == ':' && name.get_char(i + 1) == ':' {
                return name.substring_char(i + 2, n).to_owned();
            }
        }
        if i == 0 {
            return name.to_owned();
        }
        i -= 1;
    }
}

pub open spec fn method_key(ty: Seq<char>, method: Seq<char>) -> Seq<char> {
    ty + "."@ + method
}

pub fn key_of(ty: &str, method: &str) -> (r: String)
    ensures
        r@ == method_key(ty@, method@),
{
    let mut s = ty.to_owned();
    s.append(".");
    s.append(method);
    s
}

pub open spec fn look<V>(m: Map<Seq<char>, V>, k: Seq<char>) -> Option<V> {
    if m.dom().contains(k) {
        Some(m[k])
    } else {
        None
    }
}

impl SigTableV {
    /// A method of a type; the string type also has the methods of `str`.
    pub open spec fn method(self, ty: Seq<char>, method: Seq<char>) -> Option<FnEntryV> {
        if self.methods.dom().contains(method_key(ty, method)) {
            Some(self.methods[method_key(ty, method)])
        } else if self.lang_string == Some(ty) || self.lang_string == Some(base_of(ty)) {
            look(self.methods, method_key("str"@, method))
        } else {
            None
        }
    }
}

/// The parameters whose arguments the receiver keeps: the declared ones that hold views or
/// are lent exclusively, and those found to flow into it.
pub open spec fn kept_params(e: FnEntryV) -> Seq<bool> {
    let a = e.param_view_flags.len();
    let b = e.computed_keeps.len();
    let c = e.param_muts.len();
    let ab = if a >= b { a } else { b };
    Seq::new(if ab >= c { ab } else { c }, |i: int| keeps_param(e, i))
}

pub open spec fn keeps_param(e: FnEntryV, i: int) -> bool {
    (e.keeps_this && (flag_at(e.param_view_flags, i) || flag_at(e.param_muts, i))) || flag_at(e.computed_keeps, i)
}

pub fn effective_keeps(e: &FnEntry) -> (r: Vec<bool>)
    ensures
        r@ == kept_params(e@),
{
    let mut n: usize = e.param_view_flags.len();
    if e.computed_keeps.len() > n {
        n = e.computed_keeps.len();
    }
    if e.param_muts.len() > n {
        n = e.param_muts.len();
    }
    let mut out: Vec<bool> = Vec::new();
    let mut i: usize = 0;
    while i < n
        invariant
            i <= n,
            out@.len() == i,
            forall|j: int| 0 <= j < i ==> out@[j] == keeps_param(e@, j),
        decreases n - i,
    {
        out.push(
            (e.keeps_this && (flag(&e.param_view_flags, i) || flag(&e.param_muts, i))) || flag(&e.computed_keeps, i),
        );
        i += 1;
    }
    assert(out@ =~= kept_params(e@));
    out
}

/// A `take` parameter that consumes its argument: its type is moved, or depends on a
/// generic parameter.
pub open spec fn consumes(p: Param, o: OracleV, generics: Seq<Seq<char>>) -> bool {
    &&& p.move_
    &&& p.ty@.kind is Path || p.ty@.kind is Generic
    &&& o.non_copy(p.ty@) || mentions_name(p.ty@, generics)
}

fn param_is_effective_move(p: &Param, o: &CopyOracle, generics: &Vec<String>) -> (r: bool)
    ensures
        r == consumes(*p, o@, generics.deep_view()),
{
    let named = match &p.ty.kind {
        TypeKind::Path(_) => true,
        TypeKind::Generic { .. } => true,
        _ => false,
    };
    p.move_ && named && (o.definitely_non_copy(&p.ty) || type_mentions_name(&p.ty, generics))
}

pub open spec fn moved_params(ps: Seq<Param>, o: OracleV, generics: Seq<Seq<char>>) -> Seq<bool> {
    Seq::new(ps.len(), |i: int| consumes(ps[i], o, generics))
}

pub open spec fn ref_params(ps: Seq<Param>) -> Seq<bool> {
    Seq::new(ps.len(), |i: int| ps[i].mutable)
}

pub open spec fn viewing_params(ps: Seq<Param>, o: OracleV) -> Seq<bool> {
    Seq::new(ps.len(), |i: int| o.contains_view(ps[i].ty@))
}

pub open spec fn param_types(ps: Seq<Param>) -> Seq<TypeV> {
    Seq::new(ps.len(), |i: int| ps[i].ty@)
}

struct ParamFacts {
    moves: Vec<bool>,
    muts: Vec<bool>,
    views: Vec<bool>,
    tys: Vec<Type>,
}

fn param_facts(ps: &Vec<Param>, o: &CopyOracle, generics: &Vec<String>) -> (r: ParamFacts)
    ensures
        r.moves@ == moved_params(ps@, o@, generics.deep_view()),
        r.muts@ == ref_params(ps@),
        r.views@ == viewing_params(ps@, o@),
        ast::types_view(r.tys@) == param_types(ps@),
{
    let mut moves: Vec<bool> = Vec::new();
    let mut muts: Vec<bool> = Vec::new();
    let mut views: Vec<bool> = Vec::new();
    let mut tys: Vec<Type> = Vec::new();
    let mut i: usize = 0;
    while i < ps.len()
        invariant
            i <= ps@.len(),
            moves@.len() == i,
            muts@.len() == i,
            views@.len() == i,
            tys@.len() == i,
            forall|j: int| 0 <= j < i ==> #[trigger] moves@[j] == consumes(ps@[j], o@, generics.deep_view()),
            forall|j: int| 0 <= j < i ==> #[trigger] muts@[j] == ps@[j].mutable,
            forall|j: int| 0 <= j < i ==> #[trigger] views@[j] == o@.contains_view(ps@[j].ty@),
            forall|j: int| 0 <= j < i ==> ast::type_view(#[trigger] tys@[j]) == ps@[j].ty@,
        decreases ps@.len() - i,
    {
        let p = &ps[i];
        moves.push(param_is_effective_move(p, o, generics));
        muts.push(p.mutable);
        views.push(o.type_contains_view(&p.ty));
        tys.push(p.ty.clone());
        i += 1;
    }
    proof {
        ast::lemma_types_view(tys@);
        assert(moves@ =~= moved_params(ps@, o@, generics.deep_view()));
        assert(muts@ =~= ref_params(ps@));
        assert(views@ =~= viewing_params(ps@, o@));
        assert(ast::types_view(tys@) =~= param_types(ps@));
    }
    ParamFacts { moves, muts, views, tys }
}

/// The result may hold what was passed in: a view, an owned value, or a generic one.
pub open spec fn ret_views(ret: Option<Type>, o: OracleV, generics: Seq<Seq<char>>) -> bool {
    match ret {
        Some(t) => o.contains_view(t@) || o.non_copy(t@) || mentions_name(t@, generics),
        None => false,
    }
}

fn result_may_view(ret: &Option<Type>, o: &CopyOracle, generics: &Vec<String>) -> (r: bool)
    ensures
        r == ret_views(*ret, o@, generics.deep_view()),
{
    match ret {
        Some(t) => o.type_contains_view(t) || o.definitely_non_copy(t) || type_mentions_name(t, generics),
        None => false,
    }
}

pub fn names_of(gs: &Vec<GenericParam>) -> (r: Vec<String>)
    ensures
        r.deep_view() == oracle::generic_names(gs@),
{
    let mut out: Vec<String> = Vec::new();
    push_names(&mut out, gs);
    assert(out.deep_view() =~= oracle::generic_names(gs@));
    out
}

fn push_names(out: &mut Vec<String>, gs: &Vec<GenericParam>)
    ensures
        final(out).deep_view() == old(out).deep_view() + oracle::generic_names(gs@),
{
    let ghost start = out.deep_view();
    let mut i: usize = 0;
    while i < gs.len()
        invariant
            i <= gs@.len(),
            out@.len() == start.len() + i,
            forall|j: int| 0 <= j < start.len() ==> #[trigger] out.deep_view()[j] == start[j],
            forall|j: int| 0 <= j < i ==> #[trigger] out.deep_view()[start.len() + j] == gs@[j].name.name@,
        decreases gs@.len() - i,
    {
        let ghost before = out.deep_view();
        out.push(gs[i].name.name.clone());
        assert(out.deep_view() =~= before.push(gs@[i as int].name.name@));
        i += 1;
    }
    assert(out.deep_view() =~= start + oracle::generic_names(gs@)) by {
        assert forall|k: int| 0 <= k < out.deep_view().len() implies out.deep_view()[k] == (start + oracle::generic_names(gs@))[k] by {
            if k >= start.len() {
                assert(out.deep_view()[start.len() + (k - start.len())] == gs@[k - start.len()].name.name@);
            }
        }
    }
}

/// The entry of a free function. Flow bits are tracked where the body is analysed.
pub open spec fn fn_entry(f: Function, o: OracleV) -> FnEntryV {
    let generics = oracle::generic_names(f.generic_params@);
    let analyzed = f.generic_params@.len() == 0 && !f.is_foreign && !f.is_declaration;
    FnEntryV {
        receiver_claim: None,
        param_moves: moved_params(f.params@, o, generics),
        param_muts: ref_params(f.params@),
        return_borrow: elision::fn_elision(f, o),
        keeps_this: ast::keeps(f.attributes@, "this"@),
        param_view_flags: viewing_params(f.params@, o),
        computed_keeps: Seq::empty(),
        ret_view: ret_views(f.return_type, o, generics),
        computed_ref_flows: Seq::empty(),
        computed_ret_flow: if analyzed { Some(0) } else { None },
        computed_ret_from_receiver: if analyzed { Some(false) } else { None },
        ret_ty: opt_type(f.return_type),
        param_tys: param_types(f.params@),
    }
}

fn entry_of_fn(f: &Function, o: &CopyOracle) -> (r: FnEntry)
    ensures
        r@ == fn_entry(*f, o@),
{
    let generics = names_of(&f.generic_params);
    let analyzed = f.generic_params.len() == 0 && !f.is_foreign && !f.is_declaration;
    let facts = param_facts(&f.params, o, &generics);
    let r = FnEntry {
        receiver_claim: None,
        param_moves: facts.moves,
        param_muts: facts.muts,
        return_borrow: detect_fn_elision_with_flavor(f, o),
        keeps_this: has_keeps(&f.attributes, "this"),
        param_view_flags: facts.views,
        computed_keeps: Vec::new(),
        ret_view: result_may_view(&f.return_type, o, &generics),
        computed_ref_flows: Vec::new(),
        computed_ret_flow: if analyzed { Some(0) } else { None },
        computed_ret_from_receiver: if analyzed { Some(false) } else { None },
        ret_ty: clone_opt_type(&f.return_type),
        param_tys: facts.tys,
    };
    assert(r@ =~= fn_entry(*f, o@));
    r
}

pub open spec fn receiver_claim_of(r: Option<Receiver>) -> Option<ClaimKind> {
    match r {
        Some(Receiver::Read) => Some(ClaimKind::Shared),
        Some(Receiver::Mut) => Some(ClaimKind::Exclusive),
        Some(Receiver::Move) => Some(ClaimKind::Move),
        None => None,
    }
}

pub open spec fn method_entry_of(b: ImplBlock, m: Method, o: OracleV) -> FnEntryV {
    let generics = oracle::generic_names(b.target_generic_params@) + oracle::generic_names(m.generic_params@);
    let analyzed = m.generic_params@.len() == 0 && !m.is_declaration && m.receiver is Some;
    FnEntryV {
        receiver_claim: receiver_claim_of(m.receiver),
        param_moves: moved_params(m.params@, o, generics),
        param_muts: ref_params(m.params@),
        return_borrow: elision::method_elision(b, m, o),
        keeps_this: ast::keeps(m.attributes@, "this"@),
        param_view_flags: viewing_params(m.params@, o),
        computed_keeps: Seq::empty(),
        ret_view: ret_views(m.return_type, o, generics),
        computed_ref_flows: Seq::empty(),
        computed_ret_flow: if analyzed { Some(0) } else { None },
        computed_ret_from_receiver: if analyzed { Some(false) } else { None },
        ret_ty: opt_type(m.return_type),
        param_tys: param_types(m.params@),
    }
}

fn entry_of_method(b: &ImplBlock, m: &Method, o: &CopyOracle) -> (r: FnEntry)
    ensures
        r@ == method_entry_of(*b, *m, o@),
{
    let mut generics = names_of(&b.target_generic_params);
    push_names(&mut generics, &m.generic_params);
    let analyzed = m.generic_params.len() == 0 && !m.is_declaration && m.receiver.is_some();
    let facts = param_facts(&m.params, o, &generics);
    let r = FnEntry {
        receiver_claim: match m.receiver {
            Some(Receiver::Read) => Some(ClaimKind::Shared),
            Some(Receiver::Mut) => Some(ClaimKind::Exclusive),
            Some(Receiver::Move) => Some(ClaimKind::Move),
            None => None,
        },
        param_moves: facts.moves,
        param_muts: facts.muts,
        return_borrow: detect_method_elision_with_flavor(b, m, o),
        keeps_this: has_keeps(&m.attributes, "this"),
        param_view_flags: facts.views,
        computed_keeps: Vec::new(),
        ret_view: result_may_view(&m.return_type, o, &generics),
        computed_ref_flows: Vec::new(),
        computed_ret_flow: if analyzed { Some(0) } else { None },
        computed_ret_from_receiver: if analyzed { Some(false) } else { None },
        ret_ty: clone_opt_type(&m.return_type),
        param_tys: facts.tys,
    };
    assert(r@ =~= method_entry_of(*b, *m, o@));
    r
}

pub open spec fn field_table(acc: Map<Seq<char>, TypeV>, fields: Seq<FieldDecl>, i: nat) -> Map<Seq<char>, TypeV>
    decreases fields.len() - i,
{
    if i >= fields.len() {
        acc
    } else {
        field_table(acc.insert(fields[i as int].name.name@, fields[i as int].ty@), fields, i + 1)
    }
}

pub open spec fn variant_table(acc: Map<Seq<char>, Seq<TypeV>>, vs: Seq<VariantDecl>, i: nat) -> Map<Seq<char>, Seq<TypeV>>
    decreases vs.len() - i,
{
    if i >= vs.len() {
        acc
    } else {
        variant_table(acc.insert(vs[i as int].name.name@, ast::types_view(vs[i as int].payload@)), vs, i + 1)
    }
}

fn fields_of(fields: &Vec<FieldDecl>) -> (r: NameMap<Type>)
    ensures
        r@ == field_table(Map::empty(), fields@, 0),
{
    let mut out: NameMap<Type> = NameMap::new();
    let mut i: usize = 0;
    while i < fields.len()
        invariant
            i <= fields@.len(),
            field_table(out@, fields@, i as nat) == field_table(Map::empty(), fields@, 0),
        decreases fields@.len() - i,
    {
        out.insert(fields[i].name.name.clone(), fields[i].ty.clone());
        i += 1;
    }
    out
}

fn variants_of(vs: &Vec<VariantDecl>) -> (r: NameMap<Vec<Type>>)
    ensures
        r@ == variant_table(Map::empty(), vs@, 0),
{
    let mut out: NameMap<Vec<Type>> = NameMap::new();
    let mut i: usize = 0;
    while i < vs.len()
        invariant
            i <= vs@.len(),
            variant_table(out@, vs@, i as nat) == variant_table(Map::empty(), vs@, 0),
        decreases vs@.len() - i,
    {
        let payload = clone_types(&vs[i].payload);
        proof {
            ast::lemma_types_view(payload@);
            assert(payload.deep_view() =~= ast::types_view(payload@));
        }
        out.insert(vs[i].name.name.clone(), payload);
        i += 1;
    }
    out
}

/// The attribute `#[lang("string")]`.
pub open spec fn marks_string(a: Attribute) -> bool {
    a.path.name@ == "lang"@ && a.args@.len() > 0 && match a.args@[0] {
        AttrArg::Str(v, _) => v@ == "string"@,
        _ => false,
    }
}

pub open spec fn is_string_type(attributes: Seq<Attribute>) -> bool {
    exists|i: int| 0 <= i < attributes.len() && marks_string(#[trigger] attributes[i])
}

fn declares_string(attributes: &Vec<Attribute>) -> (r: bool)
    ensures
        r == is_string_type(attributes@),
{
    let mut i: usize = 0;
    while i < attributes.len()
        invariant
            i <= attributes@.len(),
            forall|j: int| 0 <= j < i ==> !marks_string(#[trigger] attributes@[j]),
        decreases attributes@.len() - i,
    {
        let a = &attributes[i];
        let mut hit = false;
        if str_eq(a.path.name.as_str(), "lang") && a.args.len() > 0 {
            if let AttrArg::Str(v, _) = &a.args[0] {
                hit = str_eq(v.as_str(), "string");
            }
        }
        assert(hit == marks_string(attributes@[i as int]));
        if hit {
            return true;
        }
        i += 1;
    }
    false
}

pub open spec fn with_methods(t: SigTableV, b: ImplBlock, o: OracleV, i: nat) -> SigTableV
    decreases b.methods@.len() - i,
{
    if i >= b.methods@.len() {
        t
    } else {
        let m = b.methods@[i as int];
        with_methods(
            SigTableV {
                methods: t.methods.insert(method_key(b.target.name@, m.name.name@), method_entry_of(b, m, o)),
                ..t
            },
            b,
            o,
            i + 1,
        )
    }
}

pub open spec fn with_item(t: SigTableV, item: Item, o: OracleV) -> SigTableV {
    match item.kind {
        ItemKind::Function(f) => SigTableV { fns: t.fns.insert(f.name.name@, fn_entry(f, o)), ..t },
        ItemKind::Struct(s) => SigTableV {
            struct_fields: t.struct_fields.insert(s.name.name@, field_table(Map::empty(), s.fields@, 0)),
            lang_string: if is_string_type(s.attributes@) { Some(s.name.name@) } else { t.lang_string },
            ..t
        },
        ItemKind::Enum(e) => SigTableV {
            enums: t.enums.insert(e.name.name@),
            enum_payloads: t.enum_payloads.insert(e.name.name@, variant_table(Map::empty(), e.variants@, 0)),
            enum_generics: if e.generic_params@.len() > 0 {
                t.enum_generics.insert(e.name.name@, oracle::generic_names(e.generic_params@))
            } else {
                t.enum_generics
            },
            ..t
        },
        ItemKind::Impl(b) => with_methods(
            SigTableV {
                impl_generics: if b.target_generic_params@.len() > 0 && !t.impl_generics.dom().contains(b.target.name@) {
                    t.impl_generics.insert(b.target.name@, oracle::generic_names(b.target_generic_params@))
                } else {
                    t.impl_generics
                },
                ..t
            },
            b,
            o,
            0,
        ),
        _ => t,
    }
}

pub open spec fn with_items(t: SigTableV, items: Seq<Item>, o: OracleV, i: nat) -> SigTableV
    decreases items.len() - i,
{
    if i >= items.len() {
        t
    } else {
        with_items(with_item(t, items[i as int], o), items, o, i + 1)
    }
}

pub open spec fn no_sigs() -> SigTableV {
    SigTableV {
        fns: Map::empty(),
        methods: Map::empty(),
        struct_fields: Map::empty(),
        enums: Set::empty(),
        enum_payloads: Map::empty(),
        enum_generics: Map::empty(),
        impl_generics: Map::empty(),
        lang_string: None,
    }
}

/// The entry of the built-in `str.to_text`, which copies its receiver into a string.
pub open spec fn to_text_entry(string: Seq<char>) -> FnEntryV {
    FnEntryV {
        receiver_claim: Some(ClaimKind::Shared),
        param_moves: Seq::empty(),
        param_muts: Seq::empty(),
        return_borrow: None,
        keeps_this: false,
        param_view_flags: Seq::empty(),
        computed_keeps: Seq::empty(),
        ret_view: false,
        computed_ref_flows: Seq::empty(),
        computed_ret_flow: Some(0),
        computed_ret_from_receiver: Some(false),
        ret_ty: Some(elision::named_type(string)),
        param_tys: Seq::empty(),
    }
}

pub open spec fn with_builtins(t: SigTableV) -> SigTableV {
    match t.lang_string {
        Some(s) => if t.methods.dom().contains("str.to_text"@) {
            t
        } else {
            SigTableV { methods: t.methods.insert("str.to_text"@, to_text_entry(s)), ..t }
        },
        None => t,
    }
}

/// The signatures of a program before any flow is computed.
pub open spec fn sigs_of(prog: Program, o: OracleV) -> SigTableV {
    with_builtins(with_items(no_sigs(), prog.items@, o, 0))
}

impl SigTable {
    fn new() -> (r: SigTable)
        ensures
            r@ == no_sigs(),
    {
        SigTable {
            fns: NameMap::new(),
            methods: NameMap::new(),
            struct_fields: NameMap::new(),
            enums: NameSet::new(),
            enum_payloads: NameMap::new(),
            enum_generics: NameMap::new(),
            impl_generics: NameMap::new(),
            lang_string: None,
        }
    }

    pub fn method_entry(&self, ty: &str, method: &str) -> (r: Option<&FnEntry>)
        ensures
            match r {
                Some(e) => self@.method(ty@, method@) == Some(e@),
                None => self@.method(ty@, method@) is None,
            },
    {
        let key = key_of(ty, method);
        if let Some(e) = self.methods.get(key.as_str()) {
            return Some(e);
        }
        match &self.lang_string {
            Some(ls) => {
                if str_eq(ty, ls.as_str()) || base_type_name(ty) == *ls {
                    let k2 = key_of("str", method);
                    self.methods.get(k2.as_str())
                } else {
                    None
                }
            },
            None => None,
        }
    }

    fn register_builtin_str_methods(&mut self)
        ensures
            final(self)@ == with_builtins(old(self)@),
    {
        match &self.lang_string {
            Some(ls) => {
                if !self.methods.contains("str.to_text") {
                    let entry = FnEntry {
                        receiver_claim: Some(ClaimKind::Shared),
                        param_moves: Vec::new(),
                        param_muts: Vec::new(),
                        return_borrow: None,
                        keeps_this: false,
                        param_view_flags: Vec::new(),
                        computed_keeps: Vec::new(),
                        ret_view: false,
                        computed_ref_flows: Vec::new(),
                        computed_ret_flow: Some(0),
                        computed_ret_from_receiver: Some(false),
                        ret_ty: Some(type_of_name(ls.as_str())),
                        param_tys: Vec::new(),
                    };
                    proof {
                        ast::lemma_types_view(entry.param_tys@);
                        assert(entry@ =~= to_text_entry(ls@));
                    }
                    self.methods.insert("str.to_text".to_owned(), entry);
                }
            },
            None => {},
        }
    }

    fn add_impl(&mut self, b: &ImplBlock, o: &CopyOracle)
        ensures
            final(self)@ == with_methods(old(self)@, *b, o@, 0),
    {
        let mut i: usize = 0;
        while i < b.methods.len()
            invariant
                i <= b.methods@.len(),
                with_methods(self@, *b, o@, i as nat) == with_methods(old(self)@, *b, o@, 0),
            decreases b.methods@.len() - i,
        {
            let m = &b.methods[i];
            let key = key_of(b.target.name.as_str(), m.name.name.as_str());
            self.methods.insert(key, entry_of_method(b, m, o));
            i += 1;
        }
    }

    fn add_item(&mut self, item: &Item, o: &CopyOracle)
        ensures
            final(self)@ == with_item(old(self)@, *item, o@),
    {
        match &item.kind {
            ItemKind::Function(f) => {
                self.fns.insert(f.name.name.clone(), entry_of_fn(f, o));
            },
            ItemKind::Struct(s) => {
                self.struct_fields.insert(s.name.name.clone(), fields_of(&s.fields));
                if declares_string(&s.attributes) {
                    self.lang_string = Some(s.name.name.clone());
                }
            },
            ItemKind::Enum(e) => {
                self.enums.insert(e.name.name.clone());
                self.enum_payloads.insert(e.name.name.clone(), variants_of(&e.variants));
                if e.generic_params.len() > 0 {
                    self.enum_generics.insert(e.name.name.clone(), names_of(&e.generic_params));
                }
            },
            ItemKind::Impl(b) => {
                if b.target_generic_params.len() > 0 && !self.impl_generics.contains(b.target.name.as_str()) {
                    self.impl_generics.insert(b.target.name.clone(), names_of(&b.target_generic_params));
                }
                self.add_impl(b, o);
            },
            _ => {},
        }
    }

    /// Reads the signatures of a program.
    pub fn collect(prog: &Program, o: &CopyOracle) -> (r: SigTable)
        ensures
            r@ == sigs_of(*prog, o@),
    {
        let mut t = SigTable::new();
        let mut i: usize = 0;
        while i < prog.items.len()
            invariant
                i <= prog.items@.len(),
                with_items(t@, prog.items@, o@, i as nat) == with_items(no_sigs(), prog.items@, o@, 0),
            decreases prog.items@.len() - i,
        {
            t.add_item(&prog.items[i], o);
            i += 1;
        }
        t.register_builtin_str_methods();
        t
    }
}

/// A type with every generic parameter in the map replaced.
pub open spec fn subst(t: TypeV, map: Map<Seq<char>, TypeV>) -> TypeV
    decreases t, 0nat,
{
    match t.kind {
        TypeKindV::Path(name) => if map.dom().contains(name) {
            map[name]
        } else {
            t
        },
        TypeKindV::Generic { name, args } => TypeV {
            kind: TypeKindV::Generic { name, args: subst_all(args, map, Seq::empty(), 0) },
            span: t.span,
        },
        TypeKindV::Slice(inner) => TypeV { kind: TypeKindV::Slice(Box::new(subst(*inner, map))), span: t.span },
        TypeKindV::Array { elem, len } => TypeV {
            kind: TypeKindV::Array { elem: Box::new(subst(*elem, map)), len },
            span: t.span,
        },
        _ => t,
    }
}

pub open spec fn subst_all(ts: Seq<TypeV>, map: Map<Seq<char>, TypeV>, acc: Seq<TypeV>, i: nat) -> Seq<TypeV>
    decreases ts, ts.len() - i,
{
    if i >= ts.len() {
        acc
    } else {
        subst_all(ts, map, acc.push(subst(ts[i as int], map)), i + 1)
    }
}

#[verifier::loop_isolation(false)]
pub fn subst_type(t: &Type, map: &NameMap<Type>) -> (r: Type)
    ensures
        r@ == subst(t@, map@),
    decreases t,
{
    match &t.kind {
        TypeKind::Path(name) => match map.get(name.as_str()) {
            Some(u) => u.clone(),
            None => t.clone(),
        },
        TypeKind::Generic { name, args } => {
            proof {
                ast::lemma_types_view(args@);
            }
            let mut out: Vec<Type> = Vec::new();
            let mut i: usize = 0;
            proof {
                ast::lemma_types_view(out@);
                assert(ast::types_view(out@) =~= Seq::<TypeV>::empty());
            }
            while i < args.len()
                invariant
                    i <= args@.len(),
                    subst_all(ast::types_view(args@), map@, ast::types_view(out@), i as nat) == subst_all(
                        ast::types_view(args@),
                        map@,
                        Seq::empty(),
                        0,
                    ),
                decreases args@.len() - i,
            {
                let ghost before = out@;
                let s = subst_type(&args[i], map);
                let ghost sv = s@;
                out.push(s);
                proof {
                    ast::lemma_types_view(before);
                    ast::lemma_types_view(out@);
                    assert(ast::types_view(args@)[i as int] == args@[i as int]@);
                    assert(ast::types_view(out@) =~= ast::types_view(before).push(sv));
                }
                i += 1;
            }
            Type { kind: TypeKind::Generic { name: name.clone(), args: out }, span: t.span }
        },
        TypeKind::Slice(inner) => Type { kind: TypeKind::Slice(Box::new(subst_type(inner, map))), span: t.span },
        TypeKind::Array { elem, len } => Type {
            kind: TypeKind::Array { elem: Box::new(subst_type(elem, map)), len: *len },
            span: t.span,
        },
        _ => t.clone(),
    }
}

/// Pairs parameters with arguments, as far as both reach; a later pair wins.
pub open spec fn bind_args(acc: Map<Seq<char>, TypeV>, params: Seq<Seq<char>>, args: Seq<TypeV>, i: nat) -> Map<Seq<char>, TypeV>
    decreases params.len() - i,
{
    if i >= params.len() || i >= args.len() {
        acc
    } else {
        bind_args(acc.insert(params[i as int], args[i as int]), params, args, i + 1)
    }
}

pub fn bindings(params: &Vec<String>, args: &Vec<Type>) -> (r: NameMap<Type>)
    ensures
        r@ == bind_args(Map::empty(), params.deep_view(), ast::types_view(args@), 0),
{
    let mut out: NameMap<Type> = NameMap::new();
    let mut i: usize = 0;
    proof {
        ast::lemma_types_view(args@);
    }
    while i < params.len() && i < args.len()
        invariant
            i <= params@.len(),
            i <= args@.len(),
            ast::types_view(args@).len() == args@.len(),
            forall|k: int| 0 <= k < args@.len() ==> #[trigger] ast::types_view(args@)[k] == args@[k]@,
            bind_args(out@, params.deep_view(), ast::types_view(args@), i as nat) == bind_args(
                Map::empty(),
                params.deep_view(),
                ast::types_view(args@),
                0,
            ),
        decreases params@.len() - i,
    {
        assert(ast::types_view(args@)[i as int] == args@[i as int]@);
        assert(params.deep_view()[i as int] == params@[i as int]@);
        out.insert(params[i].clone(), args[i].clone());
        i += 1;
    }
    out
}

/// Substituting nothing changes nothing.
pub proof fn subst_of_nothing(t: TypeV)
    ensures
        subst(t, Map::empty()) == t,
    decreases t, 0nat,
{
    match t.kind {
        TypeKindV::Generic { name, args } => {
            lemma_subst_nothing_all(args, Seq::empty(), 0);
            assert(Seq::<TypeV>::empty() + args.subrange(0, args.len() as int) =~= args);
        },
        TypeKindV::Slice(inner) => subst_of_nothing(*inner),
        TypeKindV::Array { elem, .. } => subst_of_nothing(*elem),
        _ => {},
    }
}

proof fn lemma_subst_nothing_all(ts: Seq<TypeV>, acc: Seq<TypeV>, i: nat)
    requires
        i <= ts.len(),
    ensures
        subst_all(ts, Map::empty(), acc, i) == acc + ts.subrange(i as int, ts.len() as int),
    decreases ts, ts.len() - i,
{
    if i < ts.len() {
        subst_of_nothing(ts[i as int]);
        lemma_subst_nothing_all(ts, acc.push(ts[i as int]), i + 1);
        assert(acc.push(ts[i as int]) + ts.subrange(i as int + 1, ts.len() as int) =~= acc + ts.subrange(i as int, ts.len() as int));
    } else {
        assert(acc + ts.subrange(i as int, ts.len() as int) =~= acc);
    }
}

// ---------------------------------------------------------------------------
// Queries on a whole program.

pub open spec fn fn_source(prog: Program, name: Seq<char>) -> ElisionV {
    match look(sigs_of(prog, oracle::oracle_of(prog)).fns, name) {
        Some(e) => e.return_borrow,
        None => None,
    }
}

pub open spec fn method_source(prog: Program, target: Seq<char>, method: Seq<char>) -> ElisionV {
    match look(sigs_of(prog, oracle::oracle_of(prog)).methods, method_key(target, method)) {
        Some(e) => e.return_borrow,
        None => None,
    }
}

pub open spec fn source_only(e: ElisionV) -> Option<ReturnBorrowSourceV> {
    match e {
        Some((s, _)) => Some(s),
        None => None,
    }
}

/// What a function's result borrows from, and how.
pub fn return_borrow_source_with_flavor(prog: &Program, fn_name: &str) -> (r: Option<(ReturnBorrowSource, BorrowFlavor)>)
    ensures
        elision::opt_elision(r) == fn_source(*prog, fn_name@),
{
    let o = CopyOracle::build(prog);
    let sigs = SigTable::collect(prog, &o);
    match sigs.fns.get(fn_name) {
        Some(e) => match &e.return_borrow {
            Some((s, fl)) => Some((s.clone(), *fl)),
            None => None,
        },
        None => None,
    }
}

/// What a method's result borrows from, and how.
pub fn method_return_borrow_source_with_flavor(prog: &Program, target: &str, method: &str) -> (r: Option<
    (ReturnBorrowSource, BorrowFlavor),
>)
    ensures
        elision::opt_elision(r) == method_source(*prog, target@, method@),
{
    let o = CopyOracle::build(prog);
    let sigs = SigTable::collect(prog, &o);
    let key = key_of(target, method);
    match sigs.methods.get(key.as_str()) {
        Some(e) => match &e.return_borrow {
            Some((s, fl)) => Some((s.clone(), *fl)),
            None => None,
        },
        None => None,
    }
}

/// What a function's result borrows from.
pub fn return_borrow_source(prog: &Program, fn_name: &str) -> (r: Option<ReturnBorrowSource>)
    ensures
        elision::opt_source(r) == source_only(fn_source(*prog, fn_name@)),
{
    match return_borrow_source_with_flavor(prog, fn_name) {
        Some((s, _)) => Some(s),
        None => None,
    }
}

/// What a method's result borrows from.
pub fn method_return_borrow_source(prog: &Program, target: &str, method: &str) -> (r: Option<ReturnBorrowSource>)
    ensures
        elision::opt_source(r) == source_only(method_source(*prog, target@, method@)),
{
    match method_return_borrow_source_with_flavor(prog, target, method) {
        Some((s, _)) => Some(s),
        None => None,
    }
}

} // verus!
