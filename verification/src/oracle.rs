//! Which types are copied, which have a destructor, and which carry views.
use vstd::prelude::*;
use crate::ast;
use crate::ast::{FieldDecl, GenericParam, Item, ItemKind, Method, Program, Type, TypeKind, TypeKindV, TypeV, VariantDecl};
use crate::table::{NameMap, NameSet};
use crate::text::str_eq;

verus! {

/// The names whose values are copied bit for bit and own nothing.
pub open spec fn primitive(name: Seq<char>) -> bool {
    ||| name == "i8"@
    ||| name == "i16"@
    ||| name == "i32"@
    ||| name == "i64"@
    ||| name == "u8"@
    ||| name == "u16"@
    ||| name == "u32"@
    ||| name == "u64"@
    ||| name == "isize"@
    ||| name == "usize"@
    ||| name == "f32"@
    ||| name == "f64"@
    ||| name == "bool"@
    ||| name == "()"@
}

pub fn is_primitive_name(name: &str) -> (r: bool)
    ensures
        r == primitive(name@),
{
    str_eq(name, "i8") || str_eq(name, "i16") || str_eq(name, "i32") || str_eq(name, "i64") || str_eq(name, "u8")
        || str_eq(name, "u16") || str_eq(name, "u32") || str_eq(name, "u64") || str_eq(name, "isize") || str_eq(
        name,
        "usize",
    ) || str_eq(name, "f32") || str_eq(name, "f64") || str_eq(name, "bool") || str_eq(name, "()")
}

/// What is known of a declared type.
#[derive(Debug, Clone, Copy, PartialEq, Eq, Structural)]
pub struct TypeInfo {
    pub is_copy: bool,
    pub is_drop: bool,
}

impl DeepView for TypeInfo {
    type V = TypeInfo;

    open spec fn deep_view(&self) -> TypeInfo {
        *self
    }
}

/// For each generic type, which of its parameters it stores.
pub type StoredV = Map<Seq<char>, Seq<bool>>;

pub struct OracleV {
    pub types: Map<Seq<char>, TypeInfo>,
    pub view_carrying: Set<Seq<char>>,
    pub stored: StoredV,
}

/// Whether a type stores its `i`-th argument; assumed where nothing is known.
pub open spec fn stores_arg(stored: StoredV, base: Seq<char>, i: int) -> bool {
    if stored.dom().contains(base) && 0 <= i < stored[base].len() {
        stored[base][i]
    } else {
        true
    }
}

/// Whether a value of the type holds a value of the generic parameter.
pub open spec fn mentions_param(t: TypeV, name: Seq<char>, stored: StoredV) -> bool
    decreases t, 0nat,
{
    match t.kind {
        TypeKindV::Path(p) => p == name,
        TypeKindV::Generic { name: base, args } => any_arg_mentions(args, base, name, stored, 0),
        TypeKindV::Slice(inner) => mentions_param(*inner, name, stored),
        TypeKindV::Array { elem, .. } => mentions_param(*elem, name, stored),
        TypeKindV::RawPtr(inner) => mentions_param(*inner, name, stored),
        _ => false,
    }
}

pub open spec fn any_arg_mentions(args: Seq<TypeV>, base: Seq<char>, name: Seq<char>, stored: StoredV, i: nat) -> bool
    decreases args, args.len() - i,
{
    if i >= args.len() {
        false
    } else {
        (stores_arg(stored, base, i as int) && mentions_param(args[i as int], name, stored)) || any_arg_mentions(
            args,
            base,
            name,
            stored,
            i + 1,
        )
    }
}

pub open spec fn any_mentions(parts: Seq<TypeV>, name: Seq<char>, stored: StoredV) -> bool {
    exists|j: int| 0 <= j < parts.len() && mentions_param(#[trigger] parts[j], name, stored)
}

impl OracleV {
    /// A value of the type holds a view: a `str`, a slice, or a type that carries one.
    pub open spec fn contains_view(self, t: TypeV) -> bool
        decreases t, 0nat,
    {
        match t.kind {
            TypeKindV::Slice(_) => true,
            TypeKindV::Path(name) => name == "str"@ || self.view_carrying.contains(name),
            TypeKindV::Array { elem, .. } => self.contains_view(*elem),
            TypeKindV::Generic { name, args } => self.view_carrying.contains(name) || self.any_arg_contains_view(
                name,
                args,
                0,
            ),
            _ => false,
        }
    }

    pub open spec fn any_arg_contains_view(self, base: Seq<char>, args: Seq<TypeV>, i: nat) -> bool
        decreases args, args.len() - i,
    {
        if i >= args.len() {
            false
        } else {
            (stores_arg(self.stored, base, i as int) && self.contains_view(args[i as int]))
                || self.any_arg_contains_view(base, args, i + 1)
        }
    }

    pub open spec fn known_drop(self, name: Seq<char>) -> bool {
        self.types.dom().contains(name) && self.types[name].is_drop
    }

    pub open spec fn known_non_copy(self, name: Seq<char>) -> bool {
        self.types.dom().contains(name) && !self.types[name].is_copy
    }

    /// Dropping a value of the type runs a destructor.
    pub open spec fn has_drop(self, t: TypeV) -> bool
        decreases t,
    {
        match t.kind {
            TypeKindV::Path(name) => self.known_drop(name),
            TypeKindV::Generic { name, .. } => self.known_drop(name),
            TypeKindV::Array { elem, .. } => self.has_drop(*elem),
            _ => false,
        }
    }

    /// The type is known to be moved rather than copied.
    pub open spec fn non_copy(self, t: TypeV) -> bool
        decreases t,
    {
        match t.kind {
            TypeKindV::Path(name) => !primitive(name) && self.known_non_copy(name),
            TypeKindV::Array { elem, .. } => self.non_copy(*elem),
            TypeKindV::Generic { name, .. } => self.known_drop(name),
            _ => false,
        }
    }

    /// The type is copied as far as its declarations tell: a name that is not declared, such as
    /// a generic parameter or an alias, does not stand against it.
    pub open spec fn assumed_copied(self, t: TypeV) -> bool
        decreases t,
    {
        match t.kind {
            TypeKindV::Path(name) => primitive(name) || !self.known_non_copy(name),
            TypeKindV::Array { elem, .. } => self.assumed_copied(*elem),
            TypeKindV::RawPtr(_) => true,
            TypeKindV::FnPtr { .. } => true,
            TypeKindV::Generic { .. } => false,
            TypeKindV::Slice(_) => true,
            TypeKindV::Tuple(_) => false,
        }
    }

    /// The name is that of a copied type: a primitive, a declared type that is copied, or
    /// the view `str`. A part whose type is a name that is not declared does not count against
    /// a declared type.
    pub open spec fn known_copied(self, name: Seq<char>) -> bool {
        primitive(name) || (if self.types.dom().contains(name) {
            self.types[name].is_copy
        } else {
            name == "str"@
        })
    }

    /// The type is copied; a name that is not declared is never called so, but as the type of a
    /// part it does not count against a declared type.
    pub open spec fn copies(self, t: TypeV) -> bool
        decreases t,
    {
        match t.kind {
            TypeKindV::Path(name) => self.known_copied(name),
            TypeKindV::Array { elem, .. } => self.copies(*elem),
            TypeKindV::RawPtr(_) => true,
            TypeKindV::FnPtr { .. } => true,
            TypeKindV::Generic { .. } => false,
            TypeKindV::Slice(_) => true,
            TypeKindV::Tuple(_) => false,
        }
    }
}

/// A declared struct or enum: its name, its generic parameters, the types of its parts,
/// and the types of those parts that are not opaque.
pub struct DeclV {
    pub name: Seq<char>,
    pub generics: Seq<Seq<char>>,
    pub parts: Seq<TypeV>,
    pub stored_parts: Seq<TypeV>,
}

pub struct Decl<'a> {
    pub name: &'a String,
    pub generics: &'a Vec<GenericParam>,
    pub parts: Vec<&'a Type>,
    pub stored_parts: Vec<&'a Type>,
}

impl<'a> DeepView for Decl<'a> {
    type V = DeclV;

    open spec fn deep_view(&self) -> DeclV {
        DeclV {
            name: self.name@,
            generics: generic_names(self.generics@),
            parts: self.parts.deep_view(),
            stored_parts: self.stored_parts.deep_view(),
        }
    }
}

pub open spec fn generic_names(gs: Seq<GenericParam>) -> Seq<Seq<char>> {
    Seq::new(gs.len(), |i: int| gs[i].name.name@)
}

pub open spec fn field_types(fields: Seq<FieldDecl>, skip_opaque: bool, acc: Seq<TypeV>, i: nat) -> Seq<TypeV>
    decreases fields.len() - i,
{
    if i >= fields.len() {
        acc
    } else if skip_opaque && fields[i as int].is_opaque {
        field_types(fields, skip_opaque, acc, i + 1)
    } else {
        field_types(fields, skip_opaque, acc.push(fields[i as int].ty@), i + 1)
    }
}

pub open spec fn payload_types(variants: Seq<VariantDecl>, acc: Seq<TypeV>, i: nat) -> Seq<TypeV>
    decreases variants.len() - i,
{
    if i >= variants.len() {
        acc
    } else {
        payload_types(variants, acc + ast::types_view(variants[i as int].payload@), i + 1)
    }
}

pub open spec fn decl_of(item: Item) -> Option<DeclV> {
    match item.kind {
        ItemKind::Struct(s) => Some(
            DeclV {
                name: s.name.name@,
                generics: generic_names(s.generic_params@),
                parts: field_types(s.fields@, false, Seq::empty(), 0),
                stored_parts: field_types(s.fields@, true, Seq::empty(), 0),
            },
        ),
        ItemKind::Enum(e) => Some(
            DeclV {
                name: e.name.name@,
                generics: generic_names(e.generic_params@),
                parts: payload_types(e.variants@, Seq::empty(), 0),
                stored_parts: payload_types(e.variants@, Seq::empty(), 0),
            },
        ),
        _ => None,
    }
}

pub open spec fn decls_from(items: Seq<Item>, acc: Seq<DeclV>, i: nat) -> Seq<DeclV>
    decreases items.len() - i,
{
    if i >= items.len() {
        acc
    } else {
        decls_from(
            items,
            match decl_of(items[i as int]) {
                Some(d) => acc.push(d),
                None => acc,
            },
            i + 1,
        )
    }
}

/// The structs and enums of a program, in order.
pub open spec fn decls_of(prog: Program) -> Seq<DeclV> {
    decls_from(prog.items@, Seq::empty(), 0)
}

fn collect_fields<'a>(fields: &'a Vec<FieldDecl>, skip_opaque: bool) -> (r: Vec<&'a Type>)
    ensures
        r.deep_view() == field_types(fields@, skip_opaque, Seq::empty(), 0),
{
    let mut out: Vec<&'a Type> = Vec::new();
    let mut i: usize = 0;
    assert(out.deep_view() =~= Seq::<TypeV>::empty());
    while i < fields.len()
        invariant
            i <= fields@.len(),
            field_types(fields@, skip_opaque, out.deep_view(), i as nat) == field_types(
                fields@,
                skip_opaque,
                Seq::empty(),
                0,
            ),
        decreases fields@.len() - i,
    {
        if !(skip_opaque && fields[i].is_opaque) {
            let ghost before = out.deep_view();
            out.push(&fields[i].ty);
            assert(out.deep_view() =~= before.push(fields@[i as int].ty@));
        }
        i += 1;
    }
    out
}

fn collect_payloads<'a>(variants: &'a Vec<VariantDecl>) -> (r: Vec<&'a Type>)
    ensures
        r.deep_view() == payload_types(variants@, Seq::empty(), 0),
{
    let mut out: Vec<&'a Type> = Vec::new();
    let mut i: usize = 0;
    assert(out.deep_view() =~= Seq::<TypeV>::empty());
    while i < variants.len()
        invariant
            i <= variants@.len(),
            payload_types(variants@, out.deep_view(), i as nat) == payload_types(variants@, Seq::empty(), 0),
        decreases variants@.len() - i,
    {
        let ghost before = out.deep_view();
        let payload = &variants[i].payload;
        let mut j: usize = 0;
        proof {
            ast::lemma_types_view(payload@);
            assert(before + ast::types_view(payload@).subrange(0, 0) =~= before);
        }
        while j < payload.len()
            invariant
                j <= payload@.len(),
                ast::types_view(payload@).len() == payload@.len(),
                forall|k: int| 0 <= k < payload@.len() ==> ast::types_view(payload@)[k] == (#[trigger] payload@[k])@,
                out.deep_view() == before + ast::types_view(payload@).subrange(0, j as int),
            decreases payload@.len() - j,
        {
            let ghost mid = out.deep_view();
            out.push(&payload[j]);
            assert(out.deep_view() =~= mid.push(payload@[j as int]@));
            assert(out.deep_view() =~= before + ast::types_view(payload@).subrange(0, j + 1));
            j += 1;
        }
        assert(ast::types_view(payload@).subrange(0, payload@.len() as int) =~= ast::types_view(payload@));
        i += 1;
    }
    out
}

fn collect_decls<'a>(prog: &'a Program) -> (r: Vec<Decl<'a>>)
    ensures
        r.deep_view() == decls_of(*prog),
{
    let mut out: Vec<Decl<'a>> = Vec::new();
    let mut i: usize = 0;
    assert(out.deep_view() =~= Seq::<DeclV>::empty());
    while i < prog.items.len()
        invariant
            i <= prog.items@.len(),
            decls_from(prog.items@, out.deep_view(), i as nat) == decls_of(*prog),
        decreases prog.items@.len() - i,
    {
        let ghost before = out.deep_view();
        match &prog.items[i].kind {
            ItemKind::Struct(s) => {
                let d = Decl {
                    name: &s.name.name,
                    generics: &s.generic_params,
                    parts: collect_fields(&s.fields, false),
                    stored_parts: collect_fields(&s.fields, true),
                };
                let ghost dv = d.deep_view();
                out.push(d);
                assert(out.deep_view() =~= before.push(dv));
            },
            ItemKind::Enum(e) => {
                let d = Decl {
                    name: &e.name.name,
                    generics: &e.generic_params,
                    parts: collect_payloads(&e.variants),
                    stored_parts: collect_payloads(&e.variants),
                };
                let ghost dv = d.deep_view();
                out.push(d);
                assert(out.deep_view() =~= before.push(dv));
            },
            _ => {},
        }
        i += 1;
    }
    out
}

// ---------------------------------------------------------------------------
// Counting what is still missing from a growing set of facts.

/// How many candidates a set of facts does not hold yet.
pub open spec fn missing<C>(cands: Seq<C>, facts: Set<C>, i: nat) -> nat
    decreases cands.len() - i,
{
    if i >= cands.len() {
        0
    } else {
        (if facts.contains(cands[i as int]) { 0nat } else { 1nat }) + missing(cands, facts, i + 1)
    }
}

proof fn lemma_missing_le<C>(cands: Seq<C>, a: Set<C>, b: Set<C>, i: nat)
    requires
        a.subset_of(b),
    ensures
        missing(cands, b, i) <= missing(cands, a, i),
    decreases cands.len() - i,
{
    if i < cands.len() {
        lemma_missing_le(cands, a, b, i + 1);
    }
}

proof fn lemma_missing_lt<C>(cands: Seq<C>, a: Set<C>, b: Set<C>, k: int, i: nat)
    requires
        a.subset_of(b),
        i <= k < cands.len(),
        !a.contains(cands[k]),
        b.contains(cands[k]),
    ensures
        missing(cands, b, i) < missing(cands, a, i),
    decreases cands.len() - i,
{
    if i == k {
        lemma_missing_le(cands, a, b, i + 1);
    } else {
        lemma_missing_lt(cands, a, b, k, i + 1);
    }
}

// ---------------------------------------------------------------------------
// Which generic parameters are stored.

/// The number of parameters of the last generic declaration with the name.
pub open spec fn arity(ds: Seq<DeclV>, name: Seq<char>) -> nat
    decreases ds.len(),
{
    if ds.len() == 0 {
        0
    } else if ds.last().name == name && ds.last().generics.len() > 0 {
        ds.last().generics.len()
    } else {
        arity(ds.drop_last(), name)
    }
}

pub open spec fn stored_shape(ds: Seq<DeclV>, st: StoredV) -> bool {
    forall|n: Seq<char>|
        {
            &&& #[trigger] st.dom().contains(n) <==> arity(ds, n) > 0
            &&& st.dom().contains(n) ==> st[n].len() == arity(ds, n)
        }
}

pub open spec fn stored_le(a: StoredV, b: StoredV) -> bool {
    forall|n: Seq<char>, i: int|
        a.dom().contains(n) && 0 <= i < a[n].len() && #[trigger] a[n][i] ==> b[n][i]
}

/// A declaration's parameter is marked if one of its parts mentions it.
pub open spec fn stored_rule(d: DeclV, st: StoredV, i: int) -> bool {
    0 <= i < d.generics.len() && i < st[d.name].len() && any_mentions(d.stored_parts, d.generics[i], st) ==> st[d.name][i]
}

pub open spec fn stored_closed(ds: Seq<DeclV>, st: StoredV) -> bool {
    &&& stored_shape(ds, st)
    &&& forall|k: int, i: int| 0 <= k < ds.len() ==> #[trigger] stored_rule(ds[k], st, i)
}

/// The least marking closed under the rule.
pub open spec fn is_stored(ds: Seq<DeclV>, st: StoredV) -> bool {
    &&& stored_closed(ds, st)
    &&& forall|other: StoredV| #[trigger] stored_closed(ds, other) ==> stored_le(st, other)
}

pub open spec fn stored_of(ds: Seq<DeclV>) -> StoredV {
    choose|st: StoredV| is_stored(ds, st)
}

proof fn lemma_stored_unique(ds: Seq<DeclV>, a: StoredV, b: StoredV)
    requires
        is_stored(ds, a),
        is_stored(ds, b),
    ensures
        a == b,
{
    assert(stored_le(a, b) && stored_le(b, a));
    assert forall|n: Seq<char>| true implies #[trigger] a.dom().contains(n) == b.dom().contains(n) by {}
    assert forall|n: Seq<char>| a.dom().contains(n) implies #[trigger] a[n] == b[n] by {
        assert(b.dom().contains(n));
        assert forall|i: int| 0 <= i < a[n].len() implies a[n][i] == b[n][i] by {}
        assert(a[n] =~= b[n]);
    }
    assert(a =~= b);
}

proof fn lemma_arity_push(ds: Seq<DeclV>, d: DeclV, name: Seq<char>)
    ensures
        arity(ds.push(d), name) == (if d.name == name && d.generics.len() > 0 {
            d.generics.len()
        } else {
            arity(ds, name)
        }),
{
    assert(ds.push(d).drop_last() =~= ds);
}

proof fn lemma_arity_pos(ds: Seq<DeclV>, k: int)
    requires
        0 <= k < ds.len(),
        ds[k].generics.len() > 0,
    ensures
        arity(ds, ds[k].name) > 0,
    decreases ds.len(),
{
    if k < ds.len() - 1 {
        lemma_arity_pos(ds.drop_last(), k);
    }
}

proof fn lemma_mentions_monotone(t: TypeV, name: Seq<char>, a: StoredV, b: StoredV)
    requires
        stored_le(a, b),
        forall|n: Seq<char>| #[trigger] a.dom().contains(n) <==> b.dom().contains(n),
        forall|n: Seq<char>| #[trigger] a.dom().contains(n) ==> a[n].len() == b[n].len(),
        mentions_param(t, name, a),
    ensures
        mentions_param(t, name, b),
    decreases t, 0nat,
{
    match t.kind {
        TypeKindV::Generic { name: base, args } => lemma_args_monotone(args, base, name, a, b, 0),
        TypeKindV::Slice(inner) => lemma_mentions_monotone(*inner, name, a, b),
        TypeKindV::Array { elem, .. } => lemma_mentions_monotone(*elem, name, a, b),
        TypeKindV::RawPtr(inner) => lemma_mentions_monotone(*inner, name, a, b),
        _ => {},
    }
}

proof fn lemma_args_monotone(args: Seq<TypeV>, base: Seq<char>, name: Seq<char>, a: StoredV, b: StoredV, i: nat)
    requires
        stored_le(a, b),
        forall|n: Seq<char>| #[trigger] a.dom().contains(n) <==> b.dom().contains(n),
        forall|n: Seq<char>| #[trigger] a.dom().contains(n) ==> a[n].len() == b[n].len(),
        any_arg_mentions(args, base, name, a, i),
    ensures
        any_arg_mentions(args, base, name, b, i),
    decreases args, args.len() - i,
{
    if i < args.len() {
        if stores_arg(a, base, i as int) && mentions_param(args[i as int], name, a) {
            lemma_mentions_monotone(args[i as int], name, a, b);
            assert(a.dom().contains(base) ==> b.dom().contains(base));
            if a.dom().contains(base) && i < a[base].len() {
                assert(a[base][i as int]);
            }
        } else {
            lemma_args_monotone(args, base, name, a, b, i + 1);
        }
    }
}

pub open spec fn param_slots(ds: Seq<DeclV>, k: nat) -> Seq<(Seq<char>, int)>
    decreases ds.len() - k,
{
    if k >= ds.len() {
        Seq::empty()
    } else {
        Seq::new(ds[k as int].generics.len(), |i: int| (ds[k as int].name, i)) + param_slots(ds, k + 1)
    }
}

pub open spec fn marked(st: StoredV) -> Set<(Seq<char>, int)> {
    Set::new(|p: (Seq<char>, int)| st.dom().contains(p.0) && 0 <= p.1 < st[p.0].len() && st[p.0][p.1])
}

proof fn lemma_slot(ds: Seq<DeclV>, k: int, i: int, from: nat) -> (at: int)
    requires
        from <= k < ds.len(),
        0 <= i < ds[k].generics.len(),
    ensures
        0 <= at < param_slots(ds, from).len(),
        param_slots(ds, from)[at] == (ds[k].name, i),
    decreases ds.len() - from,
{
    let here = Seq::new(ds[from as int].generics.len(), |j: int| (ds[from as int].name, j));
    if from == k {
        assert(param_slots(ds, from)[i] == here[i]);
        i
    } else {
        let at = lemma_slot(ds, k, i, from + 1);
        assert(param_slots(ds, from)[here.len() + at] == param_slots(ds, from + 1)[at]);
        here.len() + at
    }
}

#[verifier::loop_isolation(false)]
fn mentions(t: &Type, name: &str, stored: &NameMap<Vec<bool>>) -> (r: bool)
    ensures
        r == mentions_param(t@, name@, stored@),
    decreases t,
{
    match &t.kind {
        TypeKind::Path(p) => str_eq(p.as_str(), name),
        TypeKind::Generic { name: base, args } => {
            proof {
                ast::lemma_types_view(args@);
            }
            let flags = stored.get(base.as_str());
            let mut i: usize = 0;
            while i < args.len()
                invariant
                    i <= args@.len(),
                    decreases_to!(t => args@),
                    ast::types_view(args@).len() == args@.len(),
                    forall|k: int| 0 <= k < args@.len() ==> #[trigger] ast::types_view(args@)[k] == args@[k]@,
                    flags is Some <==> stored@.dom().contains(base@),
                    flags matches Some(f) ==> f.deep_view() == stored@[base@],
                    any_arg_mentions(ast::types_view(args@), base@, name@, stored@, 0) == any_arg_mentions(
                        ast::types_view(args@),
                        base@,
                        name@,
                        stored@,
                        i as nat,
                    ),
                decreases args@.len() - i,
            {
                let inner_stores = match flags {
                    Some(f) => if i < f.len() {
                        assert(f.deep_view()[i as int] == f@[i as int]);
                        f[i]
                    } else {
                        true
                    },
                    None => true,
                };
                if inner_stores && mentions(&args[i], name, stored) {
                    return true;
                }
                i += 1;
            }
            false
        },
        TypeKind::Slice(inner) => mentions(inner, name, stored),
        TypeKind::Array { elem, .. } => mentions(elem, name, stored),
        TypeKind::RawPtr(inner) => mentions(inner, name, stored),
        _ => false,
    }
}

fn any_part_mentions(parts: &Vec<&Type>, name: &str, stored: &NameMap<Vec<bool>>) -> (r: bool)
    ensures
        r == any_mentions(parts.deep_view(), name@, stored@),
{
    let mut i: usize = 0;
    while i < parts.len()
        invariant
            i <= parts@.len(),
            forall|j: int| 0 <= j < i ==> !mentions_param(#[trigger] parts.deep_view()[j], name@, stored@),
        decreases parts@.len() - i,
    {
        let hit = mentions(parts[i], name, stored);
        assert(parts.deep_view()[i as int] == parts@[i as int]@);
        if hit {
            return true;
        }
        i += 1;
    }
    false
}

fn initial_stored(ds: &Vec<Decl>) -> (r: NameMap<Vec<bool>>)
    ensures
        stored_shape(ds.deep_view(), r@),
        forall|n: Seq<char>, i: int|
            r@.dom().contains(n) && 0 <= i < r@[n].len() ==> !(#[trigger] r@[n][i]),
{
    let mut st: NameMap<Vec<bool>> = NameMap::new();
    let mut k: usize = 0;
    let ghost dv = ds.deep_view();
    assert(dv.subrange(0, 0) =~= Seq::<DeclV>::empty());
    while k < ds.len()
        invariant
            dv == ds.deep_view(),
            k <= ds@.len(),
            stored_shape(dv.subrange(0, k as int), st@),
            forall|n: Seq<char>, i: int|
                st@.dom().contains(n) && 0 <= i < st@[n].len() ==> !(#[trigger] st@[n][i]),
        decreases ds@.len() - k,
    {
        let d = &ds[k];
        let ghost before = st@;
        let ghost prefix = dv.subrange(0, k as int);
        if d.generics.len() > 0 {
            let mut flags: Vec<bool> = Vec::new();
            let mut i: usize = 0;
            while i < d.generics.len()
                invariant
                    i <= d.generics@.len(),
                    flags@.len() == i,
                    forall|j: int| 0 <= j < i ==> !flags@[j],
                decreases d.generics@.len() - i,
            {
                flags.push(false);
                i += 1;
            }
            st.insert(d.name.clone(), flags);
        }
        proof {
            assert(dv.subrange(0, k + 1) =~= prefix.push(dv[k as int]));
            assert(dv[k as int] == d.deep_view());
            assert forall|n: Seq<char>| true implies {
                &&& #[trigger] st@.dom().contains(n) <==> arity(dv.subrange(0, k + 1), n) > 0
                &&& st@.dom().contains(n) ==> st@[n].len() == arity(dv.subrange(0, k + 1), n)
            } by {
                lemma_arity_push(prefix, dv[k as int], n);
                assert(before.dom().contains(n) <==> arity(prefix, n) > 0);
            }
        }
        k += 1;
    }
    assert(dv.subrange(0, dv.len() as int) =~= dv);
    st
}

/// One pass over the declarations: marks every parameter that the current marking shows
/// to be stored.
fn stored_pass(ds: &Vec<Decl>, st: &mut NameMap<Vec<bool>>) -> (changed: bool)
    requires
        stored_shape(ds.deep_view(), old(st)@),
        forall|other: StoredV| #[trigger] stored_closed(ds.deep_view(), other) ==> stored_le(old(st)@, other),
    ensures
        stored_shape(ds.deep_view(), final(st)@),
        forall|other: StoredV| #[trigger] stored_closed(ds.deep_view(), other) ==> stored_le(final(st)@, other),
        !changed ==> final(st)@ == old(st)@ && stored_closed(ds.deep_view(), final(st)@),
        changed ==> missing(param_slots(ds.deep_view(), 0), marked(final(st)@), 0) < missing(
            param_slots(ds.deep_view(), 0),
            marked(old(st)@),
            0,
        ),
{
    let ghost dv = ds.deep_view();
    let ghost slots = param_slots(dv, 0);
    let mut changed = false;
    let mut k: usize = 0;
    while k < ds.len()
        invariant
            dv == ds.deep_view(),
            slots == param_slots(dv, 0),
            k <= ds@.len(),
            stored_shape(dv, st@),
            marked(old(st)@).subset_of(marked(st@)),
            forall|other: StoredV| #[trigger] stored_closed(dv, other) ==> stored_le(st@, other),
            !changed ==> st@ == old(st)@ && forall|j: int, i: int| 0 <= j < k ==> #[trigger] stored_rule(dv[j], st@, i),
            changed ==> missing(slots, marked(st@), 0) < missing(slots, marked(old(st)@), 0),
        decreases ds@.len() - k,
    {
        let d = &ds[k];
        assert(dv[k as int] == d.deep_view());
        let mut i: usize = 0;
        while i < d.generics.len()
            invariant
                dv == ds.deep_view(),
                slots == param_slots(dv, 0),
                k < ds@.len(),
                dv[k as int] == d.deep_view(),
                i <= d.generics@.len(),
                stored_shape(dv, st@),
                marked(old(st)@).subset_of(marked(st@)),
                forall|other: StoredV| #[trigger] stored_closed(dv, other) ==> stored_le(st@, other),
                !changed ==> st@ == old(st)@ && forall|j: int, i2: int| 0 <= j < k ==> #[trigger] stored_rule(dv[j], st@, i2),
                !changed ==> forall|i2: int| i2 < i ==> #[trigger] stored_rule(dv[k as int], st@, i2),
                changed ==> missing(slots, marked(st@), 0) < missing(slots, marked(old(st)@), 0),
            decreases d.generics@.len() - i,
        {
            let ghost before = st@;
            let ghost name = d.name@;
            proof {
                lemma_arity_pos(dv, k as int);
                assert(st@.dom().contains(name));
            }
            let mut flags: Vec<bool> = match st.get(d.name.as_str()) {
                Some(f) => f.clone(),
                None => Vec::new(),
            };
            assert(flags@ =~= before[name]);
            if i < flags.len() && !flags[i] && any_part_mentions(&d.stored_parts, d.generics[i].name.name.as_str(), st) {
                flags.set(i, true);
                let ghost fv = flags.deep_view();
                assert(fv =~= before[name].update(i as int, true));
                st.insert(d.name.clone(), flags);
                proof {
                    assert(st@[name] == before[name].update(i as int, true));
                    assert forall|n: Seq<char>| true implies {
                        &&& #[trigger] st@.dom().contains(n) <==> arity(dv, n) > 0
                        &&& st@.dom().contains(n) ==> st@[n].len() == arity(dv, n)
                    } by {
                        assert(before.dom().contains(n) <==> arity(dv, n) > 0);
                    }
                    assert forall|p: (Seq<char>, int)| marked(before).contains(p) implies marked(st@).contains(p) by {
                        if p.0 == name {
                        }
                    }
                    let at = lemma_slot(dv, k as int, i as int, 0);
                    assert(!marked(before).contains(slots[at]));
                    assert(marked(st@).contains(slots[at]));
                    lemma_missing_lt(slots, marked(before), marked(st@), at, 0);
                    lemma_missing_le(slots, marked(old(st)@), marked(before), 0);
                    assert forall|other: StoredV| #[trigger] stored_closed(dv, other) implies stored_le(st@, other) by {
                        assert(stored_le(before, other));
                        assert(stored_shape(dv, before) && stored_shape(dv, other));
                        assert(stored_rule(dv[k as int], other, i as int));
                        let g = dv[k as int].generics[i as int];
                        let j = choose|j: int|
                            0 <= j < dv[k as int].stored_parts.len() && mentions_param(
                                #[trigger] dv[k as int].stored_parts[j],
                                g,
                                before,
                            );
                        assert forall|n: Seq<char>| true implies (#[trigger] before.dom().contains(n) <==> other.dom().contains(n)) by {
                            assert(other.dom().contains(n) <==> arity(dv, n) > 0);
                        }
                        assert forall|n: Seq<char>| #[trigger] before.dom().contains(n) implies before[n].len() == other[n].len() by {
                            assert(other.dom().contains(n));
                        }
                        lemma_mentions_monotone(dv[k as int].stored_parts[j], g, before, other);
                        assert(any_mentions(dv[k as int].stored_parts, g, other));
                        assert(other.dom().contains(name));
                        assert(before[name].len() == other[name].len());
                        assert(other[name][i as int]);
                        assert forall|n: Seq<char>, i2: int|
                            st@.dom().contains(n) && 0 <= i2 < st@[n].len() && #[trigger] st@[n][i2] implies other[n][i2] by {
                            if n == name && i2 == i {
                            } else {
                                assert(before[n][i2]);
                            }
                        }
                    }
                }
                changed = true;
            } else {
                proof {
                    assert(stored_rule(dv[k as int], st@, i as int));
                }
            }
            i += 1;
        }
        k += 1;
    }
    proof {
        if !changed {
            assert forall|j: int, i: int| 0 <= j < dv.len() implies #[trigger] stored_rule(dv[j], st@, i) by {}
        }
    }
    changed
}

fn stored_params(ds: &Vec<Decl>) -> (r: NameMap<Vec<bool>>)
    ensures
        is_stored(ds.deep_view(), r@),
        r@ == stored_of(ds.deep_view()),
{
    let mut st = initial_stored(ds);
    let mut changed = true;
    while changed
        invariant
            stored_shape(ds.deep_view(), st@),
            forall|other: StoredV| #[trigger] stored_closed(ds.deep_view(), other) ==> stored_le(st@, other),
            !changed ==> stored_closed(ds.deep_view(), st@),
        decreases missing(param_slots(ds.deep_view(), 0), marked(st@), 0), if changed { 1nat } else { 0nat },
    {
        changed = stored_pass(ds, &mut st);
    }
    proof {
        lemma_stored_unique(ds.deep_view(), st@, stored_of(ds.deep_view()));
    }
    st
}

// ---------------------------------------------------------------------------
// Which declared types are copied and which have a destructor.

pub open spec fn declared(ds: Seq<DeclV>) -> Set<Seq<char>> {
    Set::new(|n: Seq<char>| exists|k: int| 0 <= k < ds.len() && (#[trigger] ds[k]).name == n)
}

pub open spec fn has_drop_method(methods: Seq<Method>) -> bool {
    exists|j: int| 0 <= j < methods.len() && (#[trigger] methods[j]).name.name@ == "drop"@
}

pub open spec fn drops_itself(item: Item, name: Seq<char>) -> bool {
    match item.kind {
        ItemKind::Impl(b) => b.target.name@ == name && has_drop_method(b.methods@),
        _ => false,
    }
}

/// The names with an implementation block that defines `drop`.
pub open spec fn drop_impls(items: Seq<Item>) -> Set<Seq<char>> {
    Set::new(|n: Seq<char>| exists|k: int| 0 <= k < items.len() && drops_itself(#[trigger] items[k], n))
}

pub type TypesV = Map<Seq<char>, TypeInfo>;

pub open spec fn with_types(types: TypesV) -> OracleV {
    OracleV { types, view_carrying: Set::empty(), stored: Map::empty() }
}

pub open spec fn some_part_not_copied(parts: Seq<TypeV>, types: TypesV) -> bool {
    exists|j: int| 0 <= j < parts.len() && !with_types(types).assumed_copied(#[trigger] parts[j])
}

pub open spec fn some_part_dropped(parts: Seq<TypeV>, types: TypesV) -> bool {
    exists|j: int| 0 <= j < parts.len() && with_types(types).has_drop(#[trigger] parts[j])
}

/// A type with a part that is not copied is not copied, and one with a part that is
/// dropped is dropped.
pub open spec fn types_rule(d: DeclV, types: TypesV) -> bool {
    &&& some_part_not_copied(d.parts, types) ==> !types[d.name].is_copy
    &&& some_part_dropped(d.parts, types) ==> types[d.name].is_drop
}

pub open spec fn types_closed(ds: Seq<DeclV>, seeds: Set<Seq<char>>, types: TypesV) -> bool {
    &&& types.dom() == declared(ds)
    &&& forall|n: Seq<char>| seeds.contains(n) && #[trigger] types.dom().contains(n) ==> types[n].is_drop && !types[n].is_copy
    &&& forall|k: int| 0 <= k < ds.len() ==> types_rule(#[trigger] ds[k], types)
}

/// `b` says at least as much as `a`: it has every destructor and every non-copied type.
pub open spec fn types_le(a: TypesV, b: TypesV) -> bool {
    forall|n: Seq<char>| #[trigger] a.dom().contains(n) ==> {
        &&& a[n].is_drop ==> b[n].is_drop
        &&& !a[n].is_copy ==> !b[n].is_copy
    }
}

/// The least assignment closed under the rule, given the types that define `drop`.
pub open spec fn is_types(ds: Seq<DeclV>, seeds: Set<Seq<char>>, types: TypesV) -> bool {
    &&& types_closed(ds, seeds, types)
    &&& forall|other: TypesV| #[trigger] types_closed(ds, seeds, other) ==> types_le(types, other)
}

pub open spec fn types_of(ds: Seq<DeclV>, seeds: Set<Seq<char>>) -> TypesV {
    choose|types: TypesV| is_types(ds, seeds, types)
}

proof fn lemma_types_unique(ds: Seq<DeclV>, seeds: Set<Seq<char>>, a: TypesV, b: TypesV)
    requires
        is_types(ds, seeds, a),
        is_types(ds, seeds, b),
    ensures
        a == b,
{
    assert(types_le(a, b) && types_le(b, a));
    assert forall|n: Seq<char>| a.dom().contains(n) implies #[trigger] a[n] == b[n] by {
        assert(b.dom().contains(n));
    }
    assert(a =~= b);
}

proof fn lemma_types_monotone(t: TypeV, a: TypesV, b: TypesV)
    requires
        a.dom() == b.dom(),
        types_le(a, b),
    ensures
        !with_types(a).assumed_copied(t) ==> !with_types(b).assumed_copied(t),
        with_types(a).has_drop(t) ==> with_types(b).has_drop(t),
    decreases t,
{
    match t.kind {
        TypeKindV::Array { elem, .. } => lemma_types_monotone(*elem, a, b),
        TypeKindV::Path(name) => {
            assert(a.dom().contains(name) ==> b.dom().contains(name));
        },
        TypeKindV::Generic { name, .. } => {
            assert(a.dom().contains(name) ==> b.dom().contains(name));
        },
        _ => {},
    }
}

fn assumed_copy_in(t: &Type, types: &NameMap<TypeInfo>) -> (r: bool)
    ensures
        r == with_types(types@).assumed_copied(t@),
    decreases t,
{
    match &t.kind {
        TypeKind::Path(name) => {
            if is_primitive_name(name.as_str()) {
                return true;
            }
            match types.get(name.as_str()) {
                Some(i) => i.is_copy,
                None => true,
            }
        },
        TypeKind::Array { elem, .. } => assumed_copy_in(elem, types),
        TypeKind::RawPtr(_) => true,
        TypeKind::FnPtr { .. } => true,
        TypeKind::Generic { .. } => false,
        TypeKind::Slice(_) => true,
        TypeKind::Tuple(_) => false,
    }
}

fn has_drop_in(t: &Type, types: &NameMap<TypeInfo>) -> (r: bool)
    ensures
        r == with_types(types@).has_drop(t@),
    decreases t,
{
    match &t.kind {
        TypeKind::Path(name) => match types.get(name.as_str()) {
            Some(i) => i.is_drop,
            None => false,
        },
        TypeKind::Generic { name, .. } => match types.get(name.as_str()) {
            Some(i) => i.is_drop,
            None => false,
        },
        TypeKind::Array { elem, .. } => has_drop_in(elem, types),
        _ => false,
    }
}

fn any_part_not_copied(parts: &Vec<&Type>, types: &NameMap<TypeInfo>) -> (r: bool)
    ensures
        r == some_part_not_copied(parts.deep_view(), types@),
{
    let mut i: usize = 0;
    while i < parts.len()
        invariant
            i <= parts@.len(),
            forall|j: int| 0 <= j < i ==> with_types(types@).assumed_copied(#[trigger] parts.deep_view()[j]),
        decreases parts@.len() - i,
    {
        let c = assumed_copy_in(parts[i], types);
        assert(parts.deep_view()[i as int] == parts@[i as int]@);
        if !c {
            return true;
        }
        i += 1;
    }
    false
}

fn any_part_dropped(parts: &Vec<&Type>, types: &NameMap<TypeInfo>) -> (r: bool)
    ensures
        r == some_part_dropped(parts.deep_view(), types@),
{
    let mut i: usize = 0;
    while i < parts.len()
        invariant
            i <= parts@.len(),
            forall|j: int| 0 <= j < i ==> !with_types(types@).has_drop(#[trigger] parts.deep_view()[j]),
        decreases parts@.len() - i,
    {
        let c = has_drop_in(parts[i], types);
        assert(parts.deep_view()[i as int] == parts@[i as int]@);
        if c {
            return true;
        }
        i += 1;
    }
    false
}

fn defines_drop(methods: &Vec<Method>) -> (r: bool)
    ensures
        r == has_drop_method(methods@),
{
    let mut i: usize = 0;
    while i < methods.len()
        invariant
            i <= methods@.len(),
            forall|j: int| 0 <= j < i ==> (#[trigger] methods@[j]).name.name@ != "drop"@,
        decreases methods@.len() - i,
    {
        if str_eq(methods[i].name.name.as_str(), "drop") {
            return true;
        }
        i += 1;
    }
    false
}

/// Every declared type starts out copied, except those that define `drop`.
fn initial_types(ds: &Vec<Decl>, prog: &Program) -> (r: NameMap<TypeInfo>)
    ensures
        r@.dom() == declared(ds.deep_view()),
        forall|n: Seq<char>| #[trigger] r@.dom().contains(n) ==> r@[n] == (TypeInfo {
            is_copy: !drop_impls(prog.items@).contains(n),
            is_drop: drop_impls(prog.items@).contains(n),
        }),
{
    let ghost dv = ds.deep_view();
    let mut types: NameMap<TypeInfo> = NameMap::new();
    let mut k: usize = 0;
    while k < ds.len()
        invariant
            dv == ds.deep_view(),
            k <= ds@.len(),
            forall|n: Seq<char>| #[trigger] types@.dom().contains(n) <==> exists|j: int| 0 <= j < k && (#[trigger] dv[j]).name == n,
            forall|n: Seq<char>| #[trigger] types@.dom().contains(n) ==> types@[n] == (TypeInfo { is_copy: true, is_drop: false }),
        decreases ds@.len() - k,
    {
        let ghost before = types@;
        assert(dv[k as int] == ds@[k as int].deep_view());
        types.insert(ds[k].name.clone(), TypeInfo { is_copy: true, is_drop: false });
        assert forall|n: Seq<char>| #[trigger] types@.dom().contains(n) <==> exists|j: int| 0 <= j < k + 1 && (#[trigger] dv[j]).name == n by {
            assert(before.dom().contains(n) <==> exists|j: int| 0 <= j < k && (#[trigger] dv[j]).name == n);
            if n == dv[k as int].name {
                assert(types@.dom().contains(n));
            }
        }
        k += 1;
    }
    assert(types@.dom() =~= declared(dv));
    let mut i: usize = 0;
    while i < prog.items.len()
        invariant
            i <= prog.items@.len(),
            types@.dom() == declared(dv),
            forall|n: Seq<char>| #[trigger] types@.dom().contains(n) ==> ({
                let hit = exists|j: int| 0 <= j < i && drops_itself(#[trigger] prog.items@[j], n);
                types@[n] == (TypeInfo { is_copy: !hit, is_drop: hit })
            }),
        decreases prog.items@.len() - i,
    {
        let ghost before = types@;
        if let ItemKind::Impl(b) = &prog.items[i].kind {
            if defines_drop(&b.methods) {
                if types.contains(b.target.name.as_str()) {
                    types.insert(b.target.name.clone(), TypeInfo { is_copy: false, is_drop: true });
                    assert(types@.dom() =~= before.dom());
                }
            }
        }
        assert forall|n: Seq<char>| #[trigger] types@.dom().contains(n) implies ({
            let hit = exists|j: int| 0 <= j < i + 1 && drops_itself(#[trigger] prog.items@[j], n);
            types@[n] == (TypeInfo { is_copy: !hit, is_drop: hit })
        }) by {
            assert(before.dom().contains(n));
            let was = exists|j: int| 0 <= j < i && drops_itself(#[trigger] prog.items@[j], n);
            if drops_itself(prog.items@[i as int], n) {
                assert(exists|j: int| 0 <= j < i + 1 && drops_itself(#[trigger] prog.items@[j], n));
            } else if was {
                let j = choose|j: int| 0 <= j < i && drops_itself(#[trigger] prog.items@[j], n);
                assert(drops_itself(prog.items@[j], n));
            }
        }
        i += 1;
    }
    types
}

/// Facts still open for a declaration: that it is not copied, that it is dropped.
pub open spec fn type_facts(ds: Seq<DeclV>) -> Seq<(Seq<char>, bool)> {
    Seq::new(2 * ds.len(), |i: int| (ds[i / 2].name, i % 2 == 0))
}

pub open spec fn facts_of(types: TypesV) -> Set<(Seq<char>, bool)> {
    Set::new(
        |f: (Seq<char>, bool)|
            types.dom().contains(f.0) && (if f.1 { !types[f.0].is_copy } else { types[f.0].is_drop }),
    )
}

fn types_pass(ds: &Vec<Decl>, types: &mut NameMap<TypeInfo>, Ghost(seeds): Ghost<Set<Seq<char>>>) -> (changed: bool)
    requires
        old(types)@.dom() == declared(ds.deep_view()),
        forall|n: Seq<char>| seeds.contains(n) && #[trigger] old(types)@.dom().contains(n) ==> old(types)@[n].is_drop && !old(types)@[n].is_copy,
        forall|other: TypesV| #[trigger] types_closed(ds.deep_view(), seeds, other) ==> types_le(old(types)@, other),
    ensures
        final(types)@.dom() == declared(ds.deep_view()),
        forall|n: Seq<char>| seeds.contains(n) && #[trigger] final(types)@.dom().contains(n) ==> final(types)@[n].is_drop && !final(types)@[n].is_copy,
        forall|other: TypesV| #[trigger] types_closed(ds.deep_view(), seeds, other) ==> types_le(final(types)@, other),
        !changed ==> final(types)@ == old(types)@ && types_closed(ds.deep_view(), seeds, final(types)@),
        changed ==> missing(type_facts(ds.deep_view()), facts_of(final(types)@), 0) < missing(
            type_facts(ds.deep_view()),
            facts_of(old(types)@),
            0,
        ),
{
    let ghost dv = ds.deep_view();
    let ghost cands = type_facts(dv);
    let mut changed = false;
    let mut k: usize = 0;
    while k < ds.len()
        invariant
            dv == ds.deep_view(),
            cands == type_facts(dv),
            k <= ds@.len(),
            types@.dom() == declared(dv),
            forall|n: Seq<char>| seeds.contains(n) && #[trigger] types@.dom().contains(n) ==> types@[n].is_drop && !types@[n].is_copy,
            facts_of(old(types)@).subset_of(facts_of(types@)),
            forall|other: TypesV| #[trigger] types_closed(dv, seeds, other) ==> types_le(types@, other),
            !changed ==> types@ == old(types)@ && forall|j: int| 0 <= j < k ==> types_rule(#[trigger] dv[j], types@),
            changed ==> missing(cands, facts_of(types@), 0) < missing(cands, facts_of(old(types)@), 0),
        decreases ds@.len() - k,
    {
        let d = &ds[k];
        assert(dv[k as int] == d.deep_view());
        let ghost name = d.name@;
        let ghost before = types@;
        assert(declared(dv).contains(name)) by {
            assert(dv[k as int].name == name);
        }
        let info: TypeInfo = match types.get(d.name.as_str()) {
            Some(i) => *i,
            None => TypeInfo { is_copy: true, is_drop: false },
        };
        let loses_copy = info.is_copy && any_part_not_copied(&d.parts, types);
        if loses_copy {
            types.insert(d.name.clone(), TypeInfo { is_copy: false, is_drop: info.is_drop });
            proof {
                lemma_types_step(dv, seeds, before, types@, k as int, true);
                lemma_missing_le(cands, facts_of(old(types)@), facts_of(before), 0);
            }
            changed = true;
        }
        let ghost mid = types@;
        let gains_drop = !info.is_drop && any_part_dropped(&d.parts, types);
        if gains_drop {
            types.insert(d.name.clone(), TypeInfo { is_copy: info.is_copy && !loses_copy, is_drop: true });
            proof {
                lemma_types_step(dv, seeds, mid, types@, k as int, false);
                lemma_missing_le(cands, facts_of(old(types)@), facts_of(mid), 0);
            }
            changed = true;
        }
        k += 1;
    }
    changed
}

/// Recording one more consequence of the rule keeps the facts below every closed assignment.
proof fn lemma_types_step(ds: Seq<DeclV>, seeds: Set<Seq<char>>, a: TypesV, b: TypesV, k: int, copy: bool)
    requires
        0 <= k < ds.len(),
        a.dom() == declared(ds),
        a.dom().contains(ds[k].name),
        forall|n: Seq<char>| seeds.contains(n) && #[trigger] a.dom().contains(n) ==> a[n].is_drop && !a[n].is_copy,
        forall|other: TypesV| #[trigger] types_closed(ds, seeds, other) ==> types_le(a, other),
        copy ==> a[ds[k].name].is_copy && some_part_not_copied(ds[k].parts, a) && b == a.insert(
            ds[k].name,
            TypeInfo { is_copy: false, is_drop: a[ds[k].name].is_drop },
        ),
        !copy ==> !a[ds[k].name].is_drop && some_part_dropped(ds[k].parts, a) && b == a.insert(
            ds[k].name,
            TypeInfo { is_copy: a[ds[k].name].is_copy, is_drop: true },
        ),
    ensures
        b.dom() == declared(ds),
        forall|n: Seq<char>| seeds.contains(n) && #[trigger] b.dom().contains(n) ==> b[n].is_drop && !b[n].is_copy,
        forall|other: TypesV| #[trigger] types_closed(ds, seeds, other) ==> types_le(b, other),
        facts_of(a).subset_of(facts_of(b)),
        missing(type_facts(ds), facts_of(b), 0) < missing(type_facts(ds), facts_of(a), 0),
{
    let name = ds[k].name;
    assert(b.dom() =~= a.dom());
    assert forall|n: Seq<char>| seeds.contains(n) && #[trigger] b.dom().contains(n) implies b[n].is_drop && !b[n].is_copy by {
        assert(a.dom().contains(n));
    }
    assert forall|other: TypesV| #[trigger] types_closed(ds, seeds, other) implies types_le(b, other) by {
        assert(types_le(a, other));
        assert(types_rule(ds[k], other));
        assert(a.dom() == other.dom());
        if copy {
            let j = choose|j: int| 0 <= j < ds[k].parts.len() && !with_types(a).assumed_copied(#[trigger] ds[k].parts[j]);
            lemma_types_monotone(ds[k].parts[j], a, other);
            assert(some_part_not_copied(ds[k].parts, other));
        } else {
            let j = choose|j: int| 0 <= j < ds[k].parts.len() && with_types(a).has_drop(#[trigger] ds[k].parts[j]);
            lemma_types_monotone(ds[k].parts[j], a, other);
            assert(some_part_dropped(ds[k].parts, other));
        }
        assert forall|n: Seq<char>| #[trigger] b.dom().contains(n) implies {
            &&& b[n].is_drop ==> other[n].is_drop
            &&& !b[n].is_copy ==> !other[n].is_copy
        } by {
            assert(a.dom().contains(n));
            assert(a.dom().contains(name));
        }
    }
    let at = if copy { 2 * k } else { 2 * k + 1 };
    assert(type_facts(ds)[at] == (name, copy));
    assert(!facts_of(a).contains((name, copy)));
    assert(facts_of(b).contains((name, copy)));
    lemma_missing_lt(type_facts(ds), facts_of(a), facts_of(b), at, 0);
}

fn type_infos(ds: &Vec<Decl>, prog: &Program) -> (r: NameMap<TypeInfo>)
    ensures
        is_types(ds.deep_view(), drop_impls(prog.items@), r@),
        r@ == types_of(ds.deep_view(), drop_impls(prog.items@)),
{
    let ghost seeds = drop_impls(prog.items@);
    let mut types = initial_types(ds, prog);
    proof {
        assert forall|other: TypesV| #[trigger] types_closed(ds.deep_view(), seeds, other) implies types_le(types@, other) by {
            assert forall|n: Seq<char>| #[trigger] types@.dom().contains(n) implies {
                &&& types@[n].is_drop ==> other[n].is_drop
                &&& !types@[n].is_copy ==> !other[n].is_copy
            } by {
                assert(other.dom().contains(n));
            }
        }
    }
    let mut changed = true;
    while changed
        invariant
            types@.dom() == declared(ds.deep_view()),
            forall|n: Seq<char>| seeds.contains(n) && #[trigger] types@.dom().contains(n) ==> types@[n].is_drop && !types@[n].is_copy,
            forall|other: TypesV| #[trigger] types_closed(ds.deep_view(), seeds, other) ==> types_le(types@, other),
            !changed ==> types_closed(ds.deep_view(), seeds, types@),
        decreases missing(type_facts(ds.deep_view()), facts_of(types@), 0), if changed { 1nat } else { 0nat },
    {
        changed = types_pass(ds, &mut types, Ghost(seeds));
    }
    proof {
        lemma_types_unique(ds.deep_view(), seeds, types@, types_of(ds.deep_view(), seeds));
    }
    types
}

// ---------------------------------------------------------------------------
// Which declared types carry views.

pub open spec fn with_views(stored: StoredV, carrying: Set<Seq<char>>) -> OracleV {
    OracleV { types: Map::empty(), view_carrying: carrying, stored }
}

pub open spec fn some_part_views(parts: Seq<TypeV>, stored: StoredV, carrying: Set<Seq<char>>) -> bool {
    exists|j: int| 0 <= j < parts.len() && with_views(stored, carrying).contains_view(#[trigger] parts[j])
}

pub open spec fn carrying_closed(ds: Seq<DeclV>, stored: StoredV, carrying: Set<Seq<char>>) -> bool {
    forall|k: int| 0 <= k < ds.len() && some_part_views((#[trigger] ds[k]).parts, stored, carrying) ==> carrying.contains(ds[k].name)
}

/// The least set that holds every declared type with a part that contains a view.
pub open spec fn is_carrying(ds: Seq<DeclV>, stored: StoredV, carrying: Set<Seq<char>>) -> bool {
    &&& carrying_closed(ds, stored, carrying)
    &&& forall|other: Set<Seq<char>>| #[trigger] carrying_closed(ds, stored, other) ==> carrying.subset_of(other)
}

pub open spec fn carrying_of(ds: Seq<DeclV>, stored: StoredV) -> Set<Seq<char>> {
    choose|c: Set<Seq<char>>| is_carrying(ds, stored, c)
}

proof fn lemma_views_monotone(t: TypeV, stored: StoredV, a: Set<Seq<char>>, b: Set<Seq<char>>)
    requires
        a.subset_of(b),
        with_views(stored, a).contains_view(t),
    ensures
        with_views(stored, b).contains_view(t),
    decreases t, 0nat,
{
    match t.kind {
        TypeKindV::Array { elem, .. } => lemma_views_monotone(*elem, stored, a, b),
        TypeKindV::Generic { name, args } => {
            if !a.contains(name) {
                lemma_arg_views_monotone(name, args, stored, a, b, 0);
            }
        },
        _ => {},
    }
}

proof fn lemma_arg_views_monotone(base: Seq<char>, args: Seq<TypeV>, stored: StoredV, a: Set<Seq<char>>, b: Set<Seq<char>>, i: nat)
    requires
        a.subset_of(b),
        with_views(stored, a).any_arg_contains_view(base, args, i),
    ensures
        with_views(stored, b).any_arg_contains_view(base, args, i),
    decreases args, args.len() - i,
{
    if i < args.len() {
        if stores_arg(stored, base, i as int) && with_views(stored, a).contains_view(args[i as int]) {
            lemma_views_monotone(args[i as int], stored, a, b);
        } else {
            lemma_arg_views_monotone(base, args, stored, a, b, i + 1);
        }
    }
}

#[verifier::loop_isolation(false)]
fn contains_view_in(t: &Type, stored: &NameMap<Vec<bool>>, carrying: &NameSet) -> (r: bool)
    ensures
        r == with_views(stored@, carrying@).contains_view(t@),
    decreases t,
{
    let ghost o = with_views(stored@, carrying@);
    match &t.kind {
        TypeKind::Slice(_) => true,
        TypeKind::Path(name) => str_eq(name.as_str(), "str") || carrying.contains(name.as_str()),
        TypeKind::Array { elem, .. } => contains_view_in(elem, stored, carrying),
        TypeKind::Generic { name, args } => {
            if carrying.contains(name.as_str()) {
                return true;
            }
            proof {
                ast::lemma_types_view(args@);
            }
            let flags = stored.get(name.as_str());
            let mut i: usize = 0;
            while i < args.len()
                invariant
                    i <= args@.len(),
                    o.any_arg_contains_view(name@, ast::types_view(args@), 0) == o.any_arg_contains_view(
                        name@,
                        ast::types_view(args@),
                        i as nat,
                    ),
                decreases args@.len() - i,
            {
                let keep = match flags {
                    Some(f) => if i < f.len() {
                        assert(f.deep_view()[i as int] == f@[i as int]);
                        f[i]
                    } else {
                        true
                    },
                    None => true,
                };
                assert(ast::types_view(args@)[i as int] == args@[i as int]@);
                if keep && contains_view_in(&args[i], stored, carrying) {
                    return true;
                }
                i += 1;
            }
            false
        },
        _ => false,
    }
}

fn any_part_views(parts: &Vec<&Type>, stored: &NameMap<Vec<bool>>, carrying: &NameSet) -> (r: bool)
    ensures
        r == some_part_views(parts.deep_view(), stored@, carrying@),
{
    let mut i: usize = 0;
    while i < parts.len()
        invariant
            i <= parts@.len(),
            forall|j: int| 0 <= j < i ==> !with_views(stored@, carrying@).contains_view(#[trigger] parts.deep_view()[j]),
        decreases parts@.len() - i,
    {
        let c = contains_view_in(parts[i], stored, carrying);
        assert(parts.deep_view()[i as int] == parts@[i as int]@);
        if c {
            return true;
        }
        i += 1;
    }
    false
}

pub open spec fn decl_names(ds: Seq<DeclV>) -> Seq<Seq<char>> {
    Seq::new(ds.len(), |i: int| ds[i].name)
}

fn carrying_pass(ds: &Vec<Decl>, stored: &NameMap<Vec<bool>>, carrying: &mut NameSet) -> (changed: bool)
    requires
        forall|other: Set<Seq<char>>| #[trigger] carrying_closed(ds.deep_view(), stored@, other) ==> old(carrying)@.subset_of(other),
    ensures
        forall|other: Set<Seq<char>>| #[trigger] carrying_closed(ds.deep_view(), stored@, other) ==> final(carrying)@.subset_of(other),
        !changed ==> final(carrying)@ == old(carrying)@ && carrying_closed(ds.deep_view(), stored@, final(carrying)@),
        changed ==> missing(decl_names(ds.deep_view()), final(carrying)@, 0) < missing(
            decl_names(ds.deep_view()),
            old(carrying)@,
            0,
        ),
{
    let ghost dv = ds.deep_view();
    let ghost cands = decl_names(dv);
    let mut changed = false;
    let mut k: usize = 0;
    while k < ds.len()
        invariant
            dv == ds.deep_view(),
            cands == decl_names(dv),
            k <= ds@.len(),
            old(carrying)@.subset_of(carrying@),
            forall|other: Set<Seq<char>>| #[trigger] carrying_closed(dv, stored@, other) ==> carrying@.subset_of(other),
            !changed ==> carrying@ == old(carrying)@ && forall|j: int|
                0 <= j < k && some_part_views((#[trigger] dv[j]).parts, stored@, carrying@) ==> carrying@.contains(dv[j].name),
            changed ==> missing(cands, carrying@, 0) < missing(cands, old(carrying)@, 0),
        decreases ds@.len() - k,
    {
        let d = &ds[k];
        assert(dv[k as int] == d.deep_view());
        let ghost before = carrying@;
        if !carrying.contains(d.name.as_str()) && any_part_views(&d.parts, stored, carrying) {
            carrying.insert(d.name.clone());
            proof {
                assert(cands[k as int] == d.name@);
                lemma_missing_lt(cands, before, carrying@, k as int, 0);
                lemma_missing_le(cands, old(carrying)@, before, 0);
                assert forall|other: Set<Seq<char>>| #[trigger] carrying_closed(dv, stored@, other) implies carrying@.subset_of(other) by {
                    assert(before.subset_of(other));
                    let j = choose|j: int| 0 <= j < dv[k as int].parts.len() && with_views(stored@, before).contains_view(
                        #[trigger] dv[k as int].parts[j],
                    );
                    lemma_views_monotone(dv[k as int].parts[j], stored@, before, other);
                    assert(some_part_views(dv[k as int].parts, stored@, other));
                }
            }
            changed = true;
        }
        k += 1;
    }
    changed
}

fn carrying_types(ds: &Vec<Decl>, stored: &NameMap<Vec<bool>>) -> (r: NameSet)
    ensures
        is_carrying(ds.deep_view(), stored@, r@),
        r@ == carrying_of(ds.deep_view(), stored@),
{
    let mut carrying = NameSet::new();
    let mut changed = true;
    while changed
        invariant
            forall|other: Set<Seq<char>>| #[trigger] carrying_closed(ds.deep_view(), stored@, other) ==> carrying@.subset_of(other),
            !changed ==> carrying_closed(ds.deep_view(), stored@, carrying@),
        decreases missing(decl_names(ds.deep_view()), carrying@, 0), if changed { 1nat } else { 0nat },
    {
        changed = carrying_pass(ds, stored, &mut carrying);
    }
    proof {
        let c = carrying_of(ds.deep_view(), stored@);
        assert(is_carrying(ds.deep_view(), stored@, carrying@));
        assert(carrying@ =~= c);
    }
    carrying
}

// ---------------------------------------------------------------------------

/// What a program declares of its types: the least marking of stored parameters, the least
/// assignment of destructors and moved types, and the least set of view carriers.
pub open spec fn oracle_of(prog: Program) -> OracleV {
    let ds = decls_of(prog);
    OracleV {
        types: types_of(ds, drop_impls(prog.items@)),
        view_carrying: carrying_of(ds, stored_of(ds)),
        stored: stored_of(ds),
    }
}

pub struct CopyOracle {
    pub types: NameMap<TypeInfo>,
    pub view_carrying: NameSet,
    pub generic_param_stored: NameMap<Vec<bool>>,
}

impl View for CopyOracle {
    type V = OracleV;

    open spec fn view(&self) -> OracleV {
        OracleV { types: self.types@, view_carrying: self.view_carrying@, stored: self.generic_param_stored@ }
    }
}

pub proof fn lemma_parts_of_oracle(o: OracleV, t: TypeV)
    ensures
        o.assumed_copied(t) == with_types(o.types).assumed_copied(t),
        o.has_drop(t) == with_types(o.types).has_drop(t),
        o.contains_view(t) == with_views(o.stored, o.view_carrying).contains_view(t),
    decreases t, 0nat,
{
    match t.kind {
        TypeKindV::Array { elem, .. } => lemma_parts_of_oracle(o, *elem),
        TypeKindV::Generic { name, args } => lemma_args_of_oracle(o, name, args, 0),
        _ => {},
    }
}

proof fn lemma_args_of_oracle(o: OracleV, base: Seq<char>, args: Seq<TypeV>, i: nat)
    ensures
        o.any_arg_contains_view(base, args, i) == with_views(o.stored, o.view_carrying).any_arg_contains_view(base, args, i),
    decreases args, args.len() - i,
{
    if i < args.len() {
        lemma_parts_of_oracle(o, args[i as int]);
        lemma_args_of_oracle(o, base, args, i + 1);
    }
}

impl CopyOracle {
    /// Works out the oracle of a program.
    pub fn build(prog: &Program) -> (r: CopyOracle)
        ensures
            r@ == oracle_of(*prog),
            is_stored(decls_of(*prog), r@.stored),
            is_types(decls_of(*prog), drop_impls(prog.items@), r@.types),
            is_carrying(decls_of(*prog), r@.stored, r@.view_carrying),
    {
        let ds = collect_decls(prog);
        let generic_param_stored = stored_params(&ds);
        let types = type_infos(&ds, prog);
        let view_carrying = carrying_types(&ds, &generic_param_stored);
        CopyOracle { types, view_carrying, generic_param_stored }
    }

    pub fn type_contains_view(&self, ty: &Type) -> (r: bool)
        ensures
            r == self@.contains_view(ty@),
    {
        proof {
            lemma_parts_of_oracle(self@, ty@);
        }
        contains_view_in(ty, &self.generic_param_stored, &self.view_carrying)
    }

    /// The type is copied as far as its declarations tell. A rule that reports what a moved
    /// value does asks this, so that it stays silent on a type that may turn out to be copied.
    pub fn may_be_copied(&self, ty: &Type) -> (r: bool)
        ensures
            r == self@.assumed_copied(ty@),
    {
        proof {
            lemma_parts_of_oracle(self@, ty@);
        }
        assumed_copy_in(ty, &self.types)
    }

    pub fn is_copy(&self, ty: &Type) -> (r: bool)
        ensures
            r == self@.copies(ty@),
        decreases ty,
    {
        match &ty.kind {
            TypeKind::Path(name) => {
                if is_primitive_name(name.as_str()) {
                    return true;
                }
                match self.types.get(name.as_str()) {
                    Some(i) => i.is_copy,
                    None => str_eq(name.as_str(), "str"),
                }
            },
            TypeKind::Array { elem, .. } => self.is_copy(elem),
            TypeKind::RawPtr(_) => true,
            TypeKind::FnPtr { .. } => true,
            TypeKind::Generic { .. } => false,
            TypeKind::Slice(_) => true,
            TypeKind::Tuple(_) => false,
        }
    }

    pub fn type_has_drop(&self, ty: &Type) -> (r: bool)
        ensures
            r == self@.has_drop(ty@),
    {
        proof {
            lemma_parts_of_oracle(self@, ty@);
        }
        has_drop_in(ty, &self.types)
    }

    pub fn definitely_non_copy(&self, ty: &Type) -> (r: bool)
        ensures
            r == self@.non_copy(ty@),
        decreases ty,
    {
        match &ty.kind {
            TypeKind::Path(name) => {
                if is_primitive_name(name.as_str()) {
                    return false;
                }
                match self.types.get(name.as_str()) {
                    Some(i) => !i.is_copy,
                    None => false,
                }
            },
            TypeKind::Array { elem, .. } => self.definitely_non_copy(elem),
            TypeKind::Generic { name, .. } => match self.types.get(name.as_str()) {
                Some(i) => i.is_drop,
                None => false,
            },
            TypeKind::RawPtr(_) => false,
            TypeKind::FnPtr { .. } => false,
            TypeKind::Slice(_) => false,
            TypeKind::Tuple(_) => false,
        }
    }
}

/// A type that is known to be moved is never called copied, and is not taken to be copied
/// either.
pub proof fn non_copy_excludes_copy(o: OracleV, t: TypeV)
    requires
        o.non_copy(t),
    ensures
        !o.copies(t),
        !o.assumed_copied(t),
    decreases t,
{
    if let TypeKindV::Array { elem, .. } = t.kind {
        non_copy_excludes_copy(o, *elem);
    }
}

/// What is called copied may be copied.
pub proof fn copied_may_be_copied(o: OracleV, t: TypeV)
    requires
        o.copies(t),
    ensures
        o.assumed_copied(t),
    decreases t,
{
    if let TypeKindV::Array { elem, .. } = t.kind {
        copied_may_be_copied(o, *elem);
    }
}

/// Of a name that is not declared, and is neither a primitive nor `str`, nothing is known: it
/// is neither known to be copied nor known to be moved, and may be copied.
pub proof fn undeclared_names_are_unknown(o: OracleV, t: TypeV, name: Seq<char>)
    requires
        t.kind == TypeKindV::Path(name),
        !primitive(name),
        name != "str"@,
        !o.types.dom().contains(name),
    ensures
        !o.copies(t),
        !o.non_copy(t),
        o.assumed_copied(t),
{
}

/// A declared type with a destructor is never copied, unless a declaration takes the name
/// of a primitive.
pub proof fn dropped_types_are_not_copied(ds: Seq<DeclV>, seeds: Set<Seq<char>>, types: TypesV, n: Seq<char>)
    requires
        is_types(ds, seeds, types),
        forall|k: int| 0 <= k < ds.len() ==> !primitive((#[trigger] ds[k]).name),
        types.dom().contains(n),
        types[n].is_drop,
    ensures
        !types[n].is_copy,
{
    let weaker = Map::new(
        |m: Seq<char>| types.dom().contains(m),
        |m: Seq<char>| TypeInfo { is_copy: types[m].is_copy, is_drop: types[m].is_drop && !types[m].is_copy },
    );
    assert(weaker.dom() =~= types.dom());
    assert forall|k: int| 0 <= k < ds.len() implies types_rule(#[trigger] ds[k], weaker) by {
        let d = ds[k];
        assert(types_rule(d, types));
        assert(declared(ds).contains(d.name));
        if some_part_not_copied(d.parts, weaker) {
            let j = choose|j: int| 0 <= j < d.parts.len() && !with_types(weaker).assumed_copied(#[trigger] d.parts[j]);
            lemma_weaker_drop(ds, d.parts[j], types, weaker);
            assert(some_part_not_copied(d.parts, types));
        }
        if some_part_dropped(d.parts, weaker) {
            let j = choose|j: int| 0 <= j < d.parts.len() && with_types(weaker).has_drop(#[trigger] d.parts[j]);
            lemma_weaker_drop(ds, d.parts[j], types, weaker);
            assert(some_part_dropped(d.parts, types));
            assert(some_part_not_copied(d.parts, types));
        }
    }
    assert(types_closed(ds, seeds, weaker)) by {
        assert forall|m: Seq<char>| seeds.contains(m) && #[trigger] weaker.dom().contains(m) implies weaker[m].is_drop && !weaker[m].is_copy by {
            assert(types.dom().contains(m));
        }
    }
    assert(types_le(types, weaker));
}

proof fn lemma_weaker_drop(ds: Seq<DeclV>, t: TypeV, types: TypesV, weaker: TypesV)
    requires
        types.dom() == declared(ds),
        weaker.dom() == types.dom(),
        forall|k: int| 0 <= k < ds.len() ==> !primitive((#[trigger] ds[k]).name),
        forall|m: Seq<char>| #[trigger] types.dom().contains(m) ==> weaker[m].is_copy == types[m].is_copy && weaker[m].is_drop == (types[m].is_drop && !types[m].is_copy),
    ensures
        with_types(weaker).assumed_copied(t) == with_types(types).assumed_copied(t),
        with_types(weaker).has_drop(t) ==> with_types(types).has_drop(t) && !with_types(types).assumed_copied(t),
    decreases t,
{
    match t.kind {
        TypeKindV::Array { elem, .. } => lemma_weaker_drop(ds, *elem, types, weaker),
        TypeKindV::Path(name) => {
            if types.dom().contains(name) {
                assert(weaker.dom().contains(name));
            }
        },
        TypeKindV::Generic { name, .. } => {
            if types.dom().contains(name) {
                assert(weaker.dom().contains(name));
            }
        },
        _ => {},
    }
}

// ---------------------------------------------------------------------------
// The order of the items does not matter.

proof fn lemma_stored_exists(ds: Seq<DeclV>)
    ensures
        is_stored(ds, stored_of(ds)),
{
    let least = Map::new(
        |n: Seq<char>| arity(ds, n) > 0,
        |n: Seq<char>|
            Seq::new(arity(ds, n), |i: int| forall|other: StoredV| #[trigger] stored_closed(ds, other) ==> other[n][i]),
    );
    assert forall|other: StoredV| #[trigger] stored_closed(ds, other) implies stored_le(least, other) by {}
    assert forall|k: int, i: int| 0 <= k < ds.len() implies #[trigger] stored_rule(ds[k], least, i) by {
        let d = ds[k];
        if 0 <= i < d.generics.len() && i < least[d.name].len() && any_mentions(d.stored_parts, d.generics[i], least) {
            lemma_arity_pos(ds, k);
            let j = choose|j: int|
                0 <= j < d.stored_parts.len() && mentions_param(#[trigger] d.stored_parts[j], d.generics[i], least);
            assert forall|other: StoredV| #[trigger] stored_closed(ds, other) implies other[d.name][i] by {
                assert forall|n: Seq<char>| #[trigger] least.dom().contains(n) <==> other.dom().contains(n) by {
                    assert(other.dom().contains(n) <==> arity(ds, n) > 0);
                }
                assert forall|n: Seq<char>| #[trigger] least.dom().contains(n) implies least[n].len() == other[n].len() by {
                    assert(other.dom().contains(n));
                }
                lemma_mentions_monotone(d.stored_parts[j], d.generics[i], least, other);
                assert(any_mentions(d.stored_parts, d.generics[i], other));
                assert(other.dom().contains(d.name));
                assert(stored_rule(ds[k], other, i));
            }
        }
    }
    assert(stored_closed(ds, least));
    assert(is_stored(ds, least));
}

proof fn lemma_types_exist(ds: Seq<DeclV>, seeds: Set<Seq<char>>)
    ensures
        is_types(ds, seeds, types_of(ds, seeds)),
{
    let least = Map::new(
        |n: Seq<char>| declared(ds).contains(n),
        |n: Seq<char>|
            TypeInfo {
                is_copy: exists|other: TypesV| #[trigger] types_closed(ds, seeds, other) && other[n].is_copy,
                is_drop: forall|other: TypesV| #[trigger] types_closed(ds, seeds, other) ==> other[n].is_drop,
            },
    );
    assert(least.dom() =~= declared(ds));
    assert forall|other: TypesV| #[trigger] types_closed(ds, seeds, other) implies types_le(least, other) by {}
    assert forall|n: Seq<char>| seeds.contains(n) && #[trigger] least.dom().contains(n) implies least[n].is_drop
        && !least[n].is_copy by {
        assert forall|other: TypesV| #[trigger] types_closed(ds, seeds, other) implies other[n].is_drop && !other[n].is_copy by {
            assert(other.dom().contains(n));
        }
    }
    assert forall|k: int| 0 <= k < ds.len() implies types_rule(#[trigger] ds[k], least) by {
        let d = ds[k];
        assert(least.dom().contains(d.name));
        if some_part_not_copied(d.parts, least) {
            let j = choose|j: int| 0 <= j < d.parts.len() && !with_types(least).assumed_copied(#[trigger] d.parts[j]);
            assert forall|other: TypesV| #[trigger] types_closed(ds, seeds, other) implies !other[d.name].is_copy by {
                lemma_types_monotone(d.parts[j], least, other);
                assert(types_rule(ds[k], other));
            }
        }
        if some_part_dropped(d.parts, least) {
            let j = choose|j: int| 0 <= j < d.parts.len() && with_types(least).has_drop(#[trigger] d.parts[j]);
            assert forall|other: TypesV| #[trigger] types_closed(ds, seeds, other) implies other[d.name].is_drop by {
                lemma_types_monotone(d.parts[j], least, other);
                assert(types_rule(ds[k], other));
            }
        }
    }
    assert(types_closed(ds, seeds, least));
    assert(is_types(ds, seeds, least));
}

proof fn lemma_carrying_exists(ds: Seq<DeclV>, stored: StoredV)
    ensures
        is_carrying(ds, stored, carrying_of(ds, stored)),
{
    let least = Set::new(
        |n: Seq<char>| forall|other: Set<Seq<char>>| #[trigger] carrying_closed(ds, stored, other) ==> other.contains(n),
    );
    assert forall|other: Set<Seq<char>>| #[trigger] carrying_closed(ds, stored, other) implies least.subset_of(other) by {}
    assert forall|k: int| 0 <= k < ds.len() && some_part_views((#[trigger] ds[k]).parts, stored, least) implies least.contains(
        ds[k].name,
    ) by {
        let d = ds[k];
        let j = choose|j: int| 0 <= j < d.parts.len() && with_views(stored, least).contains_view(#[trigger] d.parts[j]);
        assert forall|other: Set<Seq<char>>| #[trigger] carrying_closed(ds, stored, other) implies other.contains(d.name) by {
            lemma_views_monotone(d.parts[j], stored, least, other);
            assert(some_part_views(ds[k].parts, stored, other));
        }
    }
    assert(is_carrying(ds, stored, least));
}

/// No name has two different declarations.
pub open spec fn is_consistent(ds: Seq<DeclV>) -> bool {
    forall|i: int, j: int|
        0 <= i < ds.len() && 0 <= j < ds.len() && (#[trigger] ds[i]).name == (#[trigger] ds[j]).name ==> ds[i] == ds[j]
}

/// The same declarations, in any order.
spec fn same_decls(a: Seq<DeclV>, b: Seq<DeclV>) -> bool {
    forall|d: DeclV| #[trigger] a.contains(d) <==> b.contains(d)
}

proof fn lemma_arity_of(ds: Seq<DeclV>, n: Seq<char>)
    ensures
        arity(ds, n) > 0 ==> exists|k: int|
            0 <= k < ds.len() && (#[trigger] ds[k]).name == n && ds[k].generics.len() == arity(ds, n),
    decreases ds.len(),
{
    if ds.len() > 0 {
        let rest = ds.drop_last();
        lemma_arity_of(rest, n);
        if ds.last().name == n && ds.last().generics.len() > 0 {
            assert(ds[ds.len() - 1].name == n);
        } else if arity(ds, n) > 0 {
            let k = choose|k: int|
                0 <= k < rest.len() && (#[trigger] rest[k]).name == n && rest[k].generics.len() == arity(rest, n);
            assert(ds[k] == rest[k]);
        }
    }
}

proof fn lemma_decl_in(a: Seq<DeclV>, b: Seq<DeclV>, k: int) -> (j: int)
    requires
        same_decls(a, b),
        0 <= k < a.len(),
    ensures
        0 <= j < b.len(),
        b[j] == a[k],
{
    assert(a.contains(a[k]));
    choose|j: int| 0 <= j < b.len() && b[j] == a[k]
}

proof fn lemma_arity_le(a: Seq<DeclV>, b: Seq<DeclV>, n: Seq<char>)
    requires
        same_decls(a, b),
        is_consistent(a),
        arity(a, n) > 0,
    ensures
        arity(b, n) == arity(a, n),
{
    lemma_arity_of(a, n);
    let k = choose|k: int| 0 <= k < a.len() && (#[trigger] a[k]).name == n && a[k].generics.len() == arity(a, n);
    let j = lemma_decl_in(a, b, k);
    lemma_arity_pos(b, j);
    lemma_arity_of(b, n);
    let m = choose|m: int| 0 <= m < b.len() && (#[trigger] b[m]).name == n && b[m].generics.len() == arity(b, n);
    let h = lemma_decl_in(b, a, m);
    assert(a[h] == a[k]);
}

proof fn lemma_same_arity(a: Seq<DeclV>, b: Seq<DeclV>, n: Seq<char>)
    requires
        same_decls(a, b),
        is_consistent(a),
    ensures
        arity(a, n) == arity(b, n),
{
    if arity(a, n) > 0 {
        lemma_arity_le(a, b, n);
    } else if arity(b, n) > 0 {
        lemma_arity_of(b, n);
        let m = choose|m: int| 0 <= m < b.len() && (#[trigger] b[m]).name == n && b[m].generics.len() == arity(b, n);
        let h = lemma_decl_in(b, a, m);
        lemma_arity_pos(a, h);
    }
}

proof fn lemma_stored_closed_le(a: Seq<DeclV>, b: Seq<DeclV>, st: StoredV)
    requires
        same_decls(a, b),
        forall|n: Seq<char>| arity(a, n) == #[trigger] arity(b, n),
        stored_closed(a, st),
    ensures
        stored_closed(b, st),
{
    assert forall|n: Seq<char>| {
        &&& #[trigger] st.dom().contains(n) <==> arity(b, n) > 0
        &&& st.dom().contains(n) ==> st[n].len() == arity(b, n)
    } by {
        assert(arity(a, n) == arity(b, n));
    }
    assert forall|k: int, i: int| 0 <= k < b.len() implies #[trigger] stored_rule(b[k], st, i) by {
        let j = lemma_decl_in(b, a, k);
        assert(stored_rule(a[j], st, i));
    }
}

proof fn lemma_same_stored(a: Seq<DeclV>, b: Seq<DeclV>)
    requires
        same_decls(a, b),
        is_consistent(a),
    ensures
        stored_of(a) == stored_of(b),
{
    assert forall|n: Seq<char>| arity(a, n) == #[trigger] arity(b, n) by {
        lemma_same_arity(a, b, n);
    }
    lemma_stored_exists(a);
    lemma_stored_exists(b);
    let st = stored_of(a);
    lemma_stored_closed_le(a, b, st);
    assert forall|other: StoredV| #[trigger] stored_closed(b, other) implies stored_le(st, other) by {
        lemma_stored_closed_le(b, a, other);
    }
    lemma_stored_unique(b, st, stored_of(b));
}

proof fn lemma_types_closed_le(a: Seq<DeclV>, b: Seq<DeclV>, seeds: Set<Seq<char>>, types: TypesV)
    requires
        same_decls(a, b),
        types_closed(a, seeds, types),
    ensures
        types_closed(b, seeds, types),
{
    assert forall|n: Seq<char>| declared(a).contains(n) <==> declared(b).contains(n) by {
        if declared(a).contains(n) {
            let k = choose|k: int| 0 <= k < a.len() && (#[trigger] a[k]).name == n;
            let j = lemma_decl_in(a, b, k);
            assert(b[j].name == n);
        }
        if declared(b).contains(n) {
            let k = choose|k: int| 0 <= k < b.len() && (#[trigger] b[k]).name == n;
            let j = lemma_decl_in(b, a, k);
            assert(a[j].name == n);
        }
    }
    assert(declared(a) =~= declared(b));
    assert forall|k: int| 0 <= k < b.len() implies types_rule(#[trigger] b[k], types) by {
        let j = lemma_decl_in(b, a, k);
        assert(types_rule(a[j], types));
    }
}

proof fn lemma_same_types(a: Seq<DeclV>, b: Seq<DeclV>, seeds: Set<Seq<char>>)
    requires
        same_decls(a, b),
    ensures
        types_of(a, seeds) == types_of(b, seeds),
{
    lemma_types_exist(a, seeds);
    lemma_types_exist(b, seeds);
    let types = types_of(a, seeds);
    lemma_types_closed_le(a, b, seeds, types);
    assert forall|other: TypesV| #[trigger] types_closed(b, seeds, other) implies types_le(types, other) by {
        lemma_types_closed_le(b, a, seeds, other);
    }
    lemma_types_unique(b, seeds, types, types_of(b, seeds));
}

proof fn lemma_carrying_closed_le(a: Seq<DeclV>, b: Seq<DeclV>, stored: StoredV, c: Set<Seq<char>>)
    requires
        same_decls(a, b),
        carrying_closed(a, stored, c),
    ensures
        carrying_closed(b, stored, c),
{
    assert forall|k: int| 0 <= k < b.len() && some_part_views((#[trigger] b[k]).parts, stored, c) implies c.contains(b[k].name) by {
        let j = lemma_decl_in(b, a, k);
        assert(a[j] == b[k]);
    }
}

proof fn lemma_same_carrying(a: Seq<DeclV>, b: Seq<DeclV>, stored: StoredV)
    requires
        same_decls(a, b),
    ensures
        carrying_of(a, stored) == carrying_of(b, stored),
{
    lemma_carrying_exists(a, stored);
    lemma_carrying_exists(b, stored);
    lemma_carrying_closed_le(a, b, stored, carrying_of(a, stored));
    lemma_carrying_closed_le(b, a, stored, carrying_of(b, stored));
    assert(carrying_of(a, stored) =~= carrying_of(b, stored));
}

proof fn lemma_decls_from(items: Seq<Item>, acc: Seq<DeclV>, i: nat, d: DeclV)
    ensures
        decls_from(items, acc, i).contains(d) <==> acc.contains(d) || exists|k: int|
            i <= k < items.len() && decl_of(#[trigger] items[k]) == Some(d),
    decreases items.len() - i,
{
    if i < items.len() {
        let next = match decl_of(items[i as int]) {
            Some(x) => acc.push(x),
            None => acc,
        };
        lemma_decls_from(items, next, i + 1, d);
        if let Some(x) = decl_of(items[i as int]) {
            assert(acc.push(x).contains(d) <==> acc.contains(d) || x == d) by {
                if acc.contains(d) {
                    let j = choose|j: int| 0 <= j < acc.len() && acc[j] == d;
                    assert(acc.push(x)[j] == d);
                }
                if x == d {
                    assert(acc.push(x)[acc.len() as int] == d);
                }
            }
        }
    }
}

proof fn lemma_item_in(p: Seq<Item>, q: Seq<Item>, k: int) -> (j: int)
    requires
        p.to_multiset() == q.to_multiset(),
        0 <= k < p.len(),
    ensures
        0 <= j < q.len(),
        q[j] == p[k],
{
    p.to_multiset_ensures();
    q.to_multiset_ensures();
    assert(p.contains(p[k]));
    assert(q.to_multiset().count(p[k]) > 0);
    assert(q.contains(p[k]));
    choose|j: int| 0 <= j < q.len() && q[j] == p[k]
}

proof fn lemma_decls_in(p: Program, q: Program, d: DeclV)
    requires
        p.items@.to_multiset() == q.items@.to_multiset(),
        decls_of(p).contains(d),
    ensures
        decls_of(q).contains(d),
{
    lemma_decls_from(p.items@, Seq::empty(), 0, d);
    lemma_decls_from(q.items@, Seq::empty(), 0, d);
    let k = choose|k: int| 0 <= k < p.items@.len() && decl_of(#[trigger] p.items@[k]) == Some(d);
    let j = lemma_item_in(p.items@, q.items@, k);
    assert(decl_of(q.items@[j]) == Some(d));
}

proof fn lemma_drop_impls_in(p: Seq<Item>, q: Seq<Item>)
    requires
        p.to_multiset() == q.to_multiset(),
    ensures
        drop_impls(p).subset_of(drop_impls(q)),
{
    assert forall|n: Seq<char>| drop_impls(p).contains(n) implies drop_impls(q).contains(n) by {
        let k = choose|k: int| 0 <= k < p.len() && drops_itself(#[trigger] p[k], n);
        let j = lemma_item_in(p, q, k);
        assert(drops_itself(q[j], n));
    }
}

/// The answers about types do not depend on the order of the items, as long as no name has two
/// different declarations.
pub proof fn order_of_items_does_not_matter(p: Program, q: Program)
    requires
        p.items@.to_multiset() == q.items@.to_multiset(),
        is_consistent(decls_of(p)),
    ensures
        oracle_of(p) == oracle_of(q),
        forall|t: TypeV| #[trigger] oracle_of(p).copies(t) == oracle_of(q).copies(t),
        forall|t: TypeV| #[trigger] oracle_of(p).assumed_copied(t) == oracle_of(q).assumed_copied(t),
        forall|t: TypeV| #[trigger] oracle_of(p).non_copy(t) == oracle_of(q).non_copy(t),
        forall|t: TypeV| #[trigger] oracle_of(p).has_drop(t) == oracle_of(q).has_drop(t),
        forall|t: TypeV| #[trigger] oracle_of(p).contains_view(t) == oracle_of(q).contains_view(t),
{
    let a = decls_of(p);
    let b = decls_of(q);
    assert forall|d: DeclV| #[trigger] a.contains(d) <==> b.contains(d) by {
        if a.contains(d) {
            lemma_decls_in(p, q, d);
        }
        if b.contains(d) {
            lemma_decls_in(q, p, d);
        }
    }
    lemma_drop_impls_in(p.items@, q.items@);
    lemma_drop_impls_in(q.items@, p.items@);
    assert(drop_impls(p.items@) =~= drop_impls(q.items@));
    lemma_same_stored(a, b);
    lemma_same_types(a, b, drop_impls(p.items@));
    lemma_same_carrying(a, b, stored_of(a));
}

} // verus!
