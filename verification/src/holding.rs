//! What declared types have from their parts.
use vstd::prelude::*;
use crate::ast;
use crate::oracle;
use crate::ast::{FieldDecl, ImplBlock, Item, ItemKind, Program, TypeV, VariantDecl};
use crate::oracle::{DeclV, OracleV};

verus! {

/// The oracle of the program: the least that its declarations force.
pub open spec fn is_oracle(prog: Program, o: OracleV) -> bool {
    &&& oracle::is_types(oracle::decls_of(prog), oracle::drop_impls(prog.items@), o.types)
    &&& oracle::is_carrying(oracle::decls_of(prog), o.stored, o.view_carrying)
}

/// The item declares a type of that name which holds a part of type `t`: as a field, or as a payload
/// of any of its variants.
pub open spec fn holds(item: Item, name: Seq<char>, t: TypeV) -> bool {
    match item.kind {
        ItemKind::Struct(s) => s.name.name@ == name && exists|i: int| 0 <= i < s.fields@.len() && (#[trigger] s.fields@[i]).ty@ == t,
        ItemKind::Enum(e) => e.name.name@ == name && exists|i: int|
            0 <= i < e.variants@.len() && has_payload(#[trigger] e.variants@[i], t),
        _ => false,
    }
}

pub open spec fn has_payload(v: VariantDecl, t: TypeV) -> bool {
    exists|j: int| 0 <= j < v.payload@.len() && (#[trigger] v.payload@[j])@ == t
}

proof fn lemma_fields(fields: Seq<FieldDecl>, acc: Seq<TypeV>, i: nat, k: int, t: TypeV)
    requires
        acc.contains(t) || (i <= k < fields.len() && fields[k].ty@ == t),
    ensures
        oracle::field_types(fields, false, acc, i).contains(t),
    decreases fields.len() - i,
{
    if i < fields.len() {
        let next = acc.push(fields[i as int].ty@);
        if acc.contains(t) {
            let q = choose|q: int| 0 <= q < acc.len() && acc[q] == t;
            assert(next[q] == t);
        } else if i == k {
            assert(next[acc.len() as int] == t);
        }
        lemma_fields(fields, next, i + 1, k, t);
    }
}

proof fn lemma_payloads(vs: Seq<VariantDecl>, acc: Seq<TypeV>, i: nat, k: int, t: TypeV)
    requires
        acc.contains(t) || (i <= k < vs.len() && has_payload(vs[k], t)),
    ensures
        oracle::payload_types(vs, acc, i).contains(t),
    decreases vs.len() - i,
{
    if i < vs.len() {
        let ts = vs[i as int].payload@;
        let more = ast::types_view(ts);
        ast::lemma_types_view(ts);
        let next = acc + more;
        if acc.contains(t) {
            let q = choose|q: int| 0 <= q < acc.len() && acc[q] == t;
            assert(next[q] == t);
        } else if i == k {
            let j = choose|j: int| 0 <= j < ts.len() && (#[trigger] ts[j])@ == t;
            assert(more[j] == t);
            assert(next[acc.len() + j] == t);
        }
        lemma_payloads(vs, next, i + 1, k, t);
    }
}

proof fn lemma_decls(items: Seq<Item>, acc: Seq<DeclV>, i: nat, k: int, d: DeclV)
    requires
        acc.contains(d) || (i <= k < items.len() && oracle::decl_of(items[k]) == Some(d)),
    ensures
        oracle::decls_from(items, acc, i).contains(d),
    decreases items.len() - i,
{
    if i < items.len() {
        let next = match oracle::decl_of(items[i as int]) {
            Some(x) => acc.push(x),
            None => acc,
        };
        if acc.contains(d) {
            let q = choose|q: int| 0 <= q < acc.len() && acc[q] == d;
            assert(next[q] == d);
        } else if i == k {
            assert(next[acc.len() as int] == d);
        }
        lemma_decls(items, next, i + 1, k, d);
    }
}

/// The declaration of a type that holds the part.
proof fn lemma_part(prog: Program, k: int, name: Seq<char>, t: TypeV) -> (r: (int, int))
    requires
        0 <= k < prog.items@.len(),
        holds(prog.items@[k], name, t),
    ensures
        0 <= r.0 < oracle::decls_of(prog).len(),
        oracle::decls_of(prog)[r.0].name == name,
        0 <= r.1 < oracle::decls_of(prog)[r.0].parts.len(),
        oracle::decls_of(prog)[r.0].parts[r.1] == t,
{
    let item = prog.items@[k];
    let d = oracle::decl_of(item)->Some_0;
    match item.kind {
        ItemKind::Struct(s) => {
            let i = choose|i: int| 0 <= i < s.fields@.len() && (#[trigger] s.fields@[i]).ty@ == t;
            lemma_fields(s.fields@, Seq::empty(), 0, i, t);
        },
        ItemKind::Enum(e) => {
            let i = choose|i: int| 0 <= i < e.variants@.len() && has_payload(#[trigger] e.variants@[i], t);
            lemma_payloads(e.variants@, Seq::empty(), 0, i, t);
        },
        _ => {},
    }
    assert(d.parts.contains(t));
    lemma_decls(prog.items@, Seq::empty(), 0, k, d);
    let ds = oracle::decls_of(prog);
    let a = choose|a: int| 0 <= a < ds.len() && ds[a] == d;
    let b = choose|b: int| 0 <= b < d.parts.len() && d.parts[b] == t;
    (a, b)
}

/// A type with a part that is not copied is not copied itself, whichever part it is.
pub proof fn parts_that_move_make_types_move(prog: Program, o: OracleV, k: int, name: Seq<char>, t: TypeV)
    requires
        is_oracle(prog, o),
        0 <= k < prog.items@.len(),
        holds(prog.items@[k], name, t),
        !o.assumed_copied(t),
    ensures
        o.types.dom().contains(name) && !o.types[name].is_copy,
{
    let (a, b) = lemma_part(prog, k, name, t);
    let ds = oracle::decls_of(prog);
    oracle::lemma_parts_of_oracle(o, t);
    assert(oracle::types_rule(ds[a], o.types));
    assert(!oracle::with_types(o.types).assumed_copied(ds[a].parts[b]));
    assert(oracle::declared(ds).contains(name));
}

/// A type with a part that has a destructor has one itself, whichever part it is.
pub proof fn parts_that_drop_make_types_drop(prog: Program, o: OracleV, k: int, name: Seq<char>, t: TypeV)
    requires
        is_oracle(prog, o),
        0 <= k < prog.items@.len(),
        holds(prog.items@[k], name, t),
        o.has_drop(t),
    ensures
        o.types.dom().contains(name) && o.types[name].is_drop,
{
    let (a, b) = lemma_part(prog, k, name, t);
    let ds = oracle::decls_of(prog);
    oracle::lemma_parts_of_oracle(o, t);
    assert(oracle::types_rule(ds[a], o.types));
    assert(oracle::with_types(o.types).has_drop(ds[a].parts[b]));
    assert(oracle::declared(ds).contains(name));
}

/// A type with a part that contains a view carries it, whichever part it is.
pub proof fn parts_that_view_make_types_view(prog: Program, o: OracleV, k: int, name: Seq<char>, t: TypeV)
    requires
        is_oracle(prog, o),
        0 <= k < prog.items@.len(),
        holds(prog.items@[k], name, t),
        o.contains_view(t),
    ensures
        o.view_carrying.contains(name),
{
    let (a, b) = lemma_part(prog, k, name, t);
    let ds = oracle::decls_of(prog);
    oracle::lemma_parts_of_oracle(o, t);
    assert(oracle::with_views(o.stored, o.view_carrying).contains_view(ds[a].parts[b]));
    assert(oracle::some_part_views(ds[a].parts, o.stored, o.view_carrying));
}

/// A declared type with a method `drop`, in any of its implementation blocks, has a destructor and is
/// not copied.
pub proof fn a_drop_method_is_a_destructor(prog: Program, o: OracleV, k: int, b: ImplBlock, j: int)
    requires
        is_oracle(prog, o),
        0 <= k < prog.items@.len(),
        prog.items@[k].kind == ItemKind::Impl(b),
        0 <= j < b.methods@.len(),
        b.methods@[j].name.name@ == "drop"@,
        o.types.dom().contains(b.target.name@),
    ensures
        o.types[b.target.name@].is_drop && !o.types[b.target.name@].is_copy,
{
    assert(oracle::drops_itself(prog.items@[k], b.target.name@));
    assert(oracle::drop_impls(prog.items@).contains(b.target.name@));
}

} // verus!
