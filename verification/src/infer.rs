//! The types of expressions, as far as signatures and bindings give them.
use vstd::prelude::*;
use vstd::string::*;
use crate::ast;
use crate::flow;
use crate::sigs;
use crate::ast::{Expr, ExprKind, Pattern, PatternKind, Span, Type, TypeKind, TypeKindV, TypeV, clone_types};
use crate::sigs::{FnEntryV, SigTable, SigTableV, bindings, clone_opt_type, key_of, subst_type};
use crate::table::NameMap;
use crate::text::str_eq;

verus! {

/// Bindings whose types are known.
pub trait TypeEnv {
    spec fn env(&self) -> Map<Seq<char>, TypeV>;

    fn type_of(&self, name: &str) -> (r: Option<Type>)
        ensures
            sigs::opt_type(r) == sigs::look(self.env(), name@),
    ;
}

/// The type that a bare name denotes at a span.
pub open spec fn path_at(name: Seq<char>, span: Span) -> TypeV {
    TypeV { kind: TypeKindV::Path(name), span }
}

pub open spec fn generic_at(name: Seq<char>, args: Seq<TypeV>, span: Span) -> TypeV {
    TypeV { kind: TypeKindV::Generic { name, args }, span }
}

pub open spec fn ret_of(e: Option<FnEntryV>) -> Option<TypeV> {
    match e {
        Some(entry) => entry.ret_ty,
        None => None,
    }
}

/// The result type of a method on a receiver type.
pub open spec fn method_ret(sigs: SigTableV, recv: TypeV, method: Seq<char>) -> Option<TypeV> {
    match recv.kind {
        TypeKindV::Path(t) => ret_of(sigs.method(t, method)),
        TypeKindV::Generic { name, args } => match (sigs::look(sigs.methods, sigs::method_key(name, method)), sigs::look(sigs.impl_generics, name)) {
            (Some(entry), Some(params)) => match entry.ret_ty {
                Some(t) => Some(sigs::subst(t, sigs::bind_args(Map::empty(), params, args, 0))),
                None => None,
            },
            _ => None,
        },
        _ => None,
    }
}

/// The declared type of a struct's field.
pub open spec fn field_of(sigs: SigTableV, base: Seq<char>, field: Seq<char>) -> Option<TypeV> {
    match sigs::look(sigs.struct_fields, base) {
        Some(fs) => sigs::look(fs, field),
        None => None,
    }
}

/// The type of an expression, where it can be told.
pub open spec fn infer(sigs: SigTableV, env: Map<Seq<char>, TypeV>, e: Expr) -> Option<TypeV>
    decreases e,
{
    match e.kind {
        ExprKind::Ident(n) => sigs::look(env, n@),
        ExprKind::StrLit(_) => Some(path_at("str"@, e.span)),
        ExprKind::Cast { ty, .. } => Some(ty@),
        ExprKind::StructLit { name, .. } => Some(path_at(name.name@, e.span)),
        ExprKind::GenericStructLit { name, type_args, .. } => Some(generic_at(name.name@, ast::types_view(type_args@), e.span)),
        ExprKind::GenericEnumCall { enum_name, type_args, .. } => Some(
            generic_at(enum_name.name@, ast::types_view(type_args@), e.span),
        ),
        ExprKind::Call { callee, .. } => match callee.kind {
            ExprKind::Ident(f) => ret_of(sigs::look(sigs.fns, f@)),
            ExprKind::Path { segments } => if segments@.len() == 2 {
                ret_of(sigs::look(sigs.methods, sigs::method_key(segments@[0].name@, segments@[1].name@)))
            } else {
                None
            },
            ExprKind::Field { receiver, name } => match infer(sigs, env, *receiver) {
                Some(t) => method_ret(sigs, t, name.name@),
                None => None,
            },
            _ => None,
        },
        ExprKind::Field { receiver, name } => match infer(sigs, env, *receiver) {
            Some(t) => match t.kind {
                TypeKindV::Path(s) => field_of(sigs, s, name.name@),
                _ => None,
            },
            None => None,
        },
        ExprKind::Block(b) => match b.tail {
            Some(t) => infer(sigs, env, *t),
            None => None,
        },
        ExprKind::If { then, .. } => match then.tail {
            Some(t) => infer(sigs, env, *t),
            None => None,
        },
        ExprKind::Match { arms, .. } => if arms@.len() > 0 {
            infer(sigs, env, arms@[0].body)
        } else {
            None
        },
        _ => None,
    }
}

pub fn field_type(sigs: &SigTable, base: &str, field: &str) -> (r: Option<Type>)
    ensures
        sigs::opt_type(r) == field_of(sigs@, base@, field@),
{
    match sigs.struct_fields.get(base) {
        Some(fs) => match fs.get(field) {
            Some(t) => Some(t.clone()),
            None => None,
        },
        None => None,
    }
}

fn method_result(sigs: &SigTable, recv: &Type, method: &str) -> (r: Option<Type>)
    ensures
        sigs::opt_type(r) == method_ret(sigs@, recv@, method@),
{
    match &recv.kind {
        TypeKind::Path(t) => match sigs.method_entry(t.as_str(), method) {
            Some(e) => clone_opt_type(&e.ret_ty),
            None => None,
        },
        TypeKind::Generic { name, args } => {
            let key = key_of(name.as_str(), method);
            let entry = match sigs.methods.get(key.as_str()) {
                Some(e) => e,
                None => {
                    return None;
                },
            };
            let params = match sigs.impl_generics.get(name.as_str()) {
                Some(p) => p,
                None => {
                    return None;
                },
            };
            match &entry.ret_ty {
                Some(t) => Some(subst_type(t, &bindings(params, args))),
                None => None,
            }
        },
        _ => None,
    }
}

pub fn infer_expr_type_with<E: TypeEnv>(e: &Expr, sigs: &SigTable, env: &E) -> (r: Option<Type>)
    ensures
        sigs::opt_type(r) == infer(sigs@, env.env(), *e),
    decreases e,
{
    match &e.kind {
        ExprKind::Ident(n) => env.type_of(n.as_str()),
        ExprKind::StrLit(_) => Some(Type { kind: TypeKind::Path("str".to_owned()), span: e.span }),
        ExprKind::Cast { ty, .. } => Some(ty.clone()),
        ExprKind::StructLit { name, .. } => Some(Type { kind: TypeKind::Path(name.name.clone()), span: e.span }),
        ExprKind::GenericStructLit { name, type_args, .. } => Some(
            Type {
                kind: TypeKind::Generic { name: name.name.clone(), args: clone_types(type_args) },
                span: e.span,
            },
        ),
        ExprKind::GenericEnumCall { enum_name, type_args, .. } => Some(
            Type {
                kind: TypeKind::Generic { name: enum_name.name.clone(), args: clone_types(type_args) },
                span: e.span,
            },
        ),
        ExprKind::Call { callee, .. } => match &callee.kind {
            ExprKind::Ident(f) => match sigs.fns.get(f.as_str()) {
                Some(entry) => clone_opt_type(&entry.ret_ty),
                None => None,
            },
            ExprKind::Path { segments } => {
                if segments.len() != 2 {
                    return None;
                }
                let key = key_of(segments[0].name.as_str(), segments[1].name.as_str());
                match sigs.methods.get(key.as_str()) {
                    Some(entry) => clone_opt_type(&entry.ret_ty),
                    None => None,
                }
            },
            ExprKind::Field { receiver, name } => match infer_expr_type_with(receiver, sigs, env) {
                Some(t) => method_result(sigs, &t, name.name.as_str()),
                None => None,
            },
            _ => None,
        },
        ExprKind::Field { receiver, name } => match infer_expr_type_with(receiver, sigs, env) {
            Some(t) => match &t.kind {
                TypeKind::Path(s) => field_type(sigs, s.as_str(), name.name.as_str()),
                _ => None,
            },
            None => None,
        },
        ExprKind::Block(b) => match &b.tail {
            Some(t) => infer_expr_type_with(t, sigs, env),
            None => None,
        },
        ExprKind::If { then, .. } => match &then.tail {
            Some(t) => infer_expr_type_with(t, sigs, env),
            None => None,
        },
        ExprKind::Match { arms, .. } => if arms.len() > 0 {
            infer_expr_type_with(&arms[0].body, sigs, env)
        } else {
            None
        },
        _ => None,
    }
}

/// The types of the bindings that a variant pattern makes, from the payload types of the
/// variant and the type arguments of the pattern or of what is matched. `None` where they
/// cannot be told.
pub open spec fn pattern_args(
    sigs: SigTableV,
    enum_name: Seq<char>,
    type_args: Seq<TypeV>,
    matched: Option<TypeV>,
) -> Option<Map<Seq<char>, TypeV>> {
    match sigs::look(sigs.enum_generics, enum_name) {
        None => Some(Map::empty()),
        Some(params) => if type_args.len() > 0 {
            Some(sigs::bind_args(Map::empty(), params, type_args, 0))
        } else {
            match matched {
                Some(t) => match t.kind {
                    TypeKindV::Generic { name, args } => if name == enum_name {
                        Some(sigs::bind_args(Map::empty(), params, args, 0))
                    } else {
                        None
                    },
                    _ => None,
                },
                None => None,
            }
        },
    }
}

pub open spec fn payload_map(
    acc: Map<Seq<char>, TypeV>,
    payload: Seq<Pattern>,
    tys: Seq<TypeV>,
    map: Map<Seq<char>, TypeV>,
    i: nat,
) -> Map<Seq<char>, TypeV>
    decreases payload.len() - i,
{
    if i >= payload.len() || i >= tys.len() {
        acc
    } else {
        payload_map(
            match payload[i as int].kind {
                PatternKind::Binding(id) => acc.insert(id.name@, sigs::subst(tys[i as int], map)),
                _ => acc,
            },
            payload,
            tys,
            map,
            i + 1,
        )
    }
}

/// Adds the types of a pattern's bindings to a table.
pub open spec fn with_pattern(
    acc: Map<Seq<char>, TypeV>,
    sigs: SigTableV,
    pat: Pattern,
    matched: Option<TypeV>,
) -> Map<Seq<char>, TypeV> {
    match pat.kind {
        PatternKind::Variant { enum_name, type_args, variant_name, payload } => match sigs::look(sigs.enum_payloads, enum_name.name@) {
            Some(vs) => match sigs::look(vs, variant_name.name@) {
                Some(tys) => match pattern_args(sigs, enum_name.name@, ast::types_view(type_args@), matched) {
                    Some(map) => payload_map(acc, payload@, tys, map, 0),
                    None => acc,
                },
                None => acc,
            },
            None => acc,
        },
        _ => acc,
    }
}

fn pattern_bindings(sigs: &SigTable, enum_name: &str, type_args: &Vec<Type>, matched: &Option<Type>) -> (r: Option<
    NameMap<Type>,
>)
    ensures
        match r {
            Some(m) => pattern_args(sigs@, enum_name@, ast::types_view(type_args@), sigs::opt_type(*matched)) == Some(m@),
            None => pattern_args(sigs@, enum_name@, ast::types_view(type_args@), sigs::opt_type(*matched)) is None,
        },
{
    proof {
        ast::lemma_types_view(type_args@);
    }
    match sigs.enum_generics.get(enum_name) {
        None => Some(NameMap::new()),
        Some(params) => {
            if type_args.len() > 0 {
                return Some(bindings(params, type_args));
            }
            match matched {
                Some(t) => match &t.kind {
                    TypeKind::Generic { name, args } => if str_eq(name.as_str(), enum_name) {
                        Some(bindings(params, args))
                    } else {
                        None
                    },
                    _ => None,
                },
                None => None,
            }
        },
    }
}

pub fn add_pattern_types(out: &mut NameMap<Type>, sigs: &SigTable, pat: &Pattern, matched: &Option<Type>)
    ensures
        final(out)@ == with_pattern(old(out)@, sigs@, *pat, sigs::opt_type(*matched)),
{
    if let PatternKind::Variant { enum_name, type_args, variant_name, payload } = &pat.kind {
        let variants = match sigs.enum_payloads.get(enum_name.name.as_str()) {
            Some(v) => v,
            None => {
                return;
            },
        };
        let tys = match variants.get(variant_name.name.as_str()) {
            Some(t) => t,
            None => {
                return;
            },
        };
        let map = match pattern_bindings(sigs, enum_name.name.as_str(), type_args, matched) {
            Some(m) => m,
            None => {
                return;
            },
        };
        let mut i: usize = 0;
        while i < payload.len() && i < tys.len()
            invariant
                i <= payload@.len(),
                i <= tys@.len(),
                payload_map(out@, payload@, tys.deep_view(), map@, i as nat) == payload_map(
                    old(out)@,
                    payload@,
                    tys.deep_view(),
                    map@,
                    0,
                ),
            decreases payload@.len() - i,
        {
            assert(tys.deep_view()[i as int] == tys@[i as int]@);
            if let PatternKind::Binding(id) = &payload[i].kind {
                out.insert(id.name.clone(), subst_type(&tys[i], &map));
            }
            i += 1;
        }
    }
}

/// A view type: `str` or a slice.
pub open spec fn is_view(t: TypeV) -> bool {
    match t.kind {
        TypeKindV::Slice(_) => true,
        TypeKindV::Path(n) => n == "str"@,
        _ => false,
    }
}

pub fn is_view_ty(t: &Type) -> (r: bool)
    ensures
        r == is_view(t@),
{
    match &t.kind {
        TypeKind::Slice(_) => true,
        TypeKind::Path(n) => str_eq(n.as_str(), "str"),
        _ => false,
    }
}

/// The declared name of a type.
pub fn type_name_of(t: &Type) -> (r: Option<&String>)
    ensures
        match r {
            Some(n) => flow::nominal(t@.kind) == Some(n@),
            None => flow::nominal(t@.kind) is None,
        },
{
    match &t.kind {
        TypeKind::Path(p) => Some(p),
        TypeKind::Generic { name, .. } => Some(name),
        _ => None,
    }
}

} // verus!
