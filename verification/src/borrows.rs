//! The bindings, borrows and states that the analysis of one function tracks.
use vstd::prelude::*;
use vstd::string::*;
use crate::flow;
use crate::infer;
use crate::ordered;
use crate::place;
use crate::sigs;
use crate::ast::{Expr, ExprKind, FieldInit, MatchArm, Span, Type, TypeV};
use crate::elision::{BorrowFlavor, ReturnBorrowSource, ReturnBorrowSourceV};
use crate::infer::{TypeEnv, field_type, infer_expr_type_with, type_name_of};
use crate::messages::{RawDiag, RawDiagV};
use crate::oracle::{CopyOracle, OracleV};
use crate::ordered::{OrdKey, OrdMap};
use crate::place::{Place, PlaceState, PlaceStateV, PlaceV, State, StateV, place_from_expr};
use crate::sigs::{SigTable, SigTableV};
use crate::table::NameMap;

verus! {

impl DeepView for Span {
    type V = Span;

    open spec fn deep_view(&self) -> Span {
        *self
    }
}

/// What the analysis of a program works with.
pub struct Cx<'p> {
    pub sigs: &'p SigTable,
    pub oracle: &'p CopyOracle,
}

pub struct CxV {
    pub sigs: SigTableV,
    pub oracle: OracleV,
}

impl<'p> View for Cx<'p> {
    type V = CxV;

    open spec fn view(&self) -> CxV {
        CxV { sigs: self.sigs@, oracle: self.oracle@ }
    }
}

/// The declared type of a binding, if it has one.
pub enum BindingType {
    Known(Type),
    Unknown,
}

impl DeepView for BindingType {
    type V = Option<TypeV>;

    open spec fn deep_view(&self) -> Option<TypeV> {
        match *self {
            BindingType::Known(t) => Some(t@),
            BindingType::Unknown => None,
        }
    }
}

/// Who borrows each place, and where each borrow was made.
pub type LiveV = Seq<(PlaceV, Seq<(Seq<char>, Span)>)>;

pub type SourcesV = Seq<(PlaceV, BorrowFlavor)>;

#[verifier::ext_equal]
pub struct WorldV {
    pub types: Map<Seq<char>, Option<TypeV>>,
    pub inferred: Map<Seq<char>, TypeV>,
    pub diags: Seq<RawDiagV>,
    pub live: LiveV,
    /// The places that each borrower borrows.
    pub from: Map<Seq<char>, Seq<PlaceV>>,
    pub state: StateV,
}

pub struct World {
    pub types: NameMap<BindingType>,
    pub inferred: NameMap<Type>,
    pub diags: Vec<RawDiag>,
    pub live: OrdMap<Place, OrdMap<String, Span>>,
    pub from: NameMap<Vec<Place>>,
    pub state: State,
}

impl View for World {
    type V = WorldV;

    open spec fn view(&self) -> WorldV {
        WorldV {
            types: self.types@,
            inferred: self.inferred@,
            diags: self.diags.deep_view(),
            live: self.live@,
            from: self.from@,
            state: self.state@,
        }
    }
}

pub open spec fn live_get(l: LiveV, p: PlaceV) -> Option<Seq<(Seq<char>, Span)>> {
    ordered::ord_get::<Place, Seq<(Seq<char>, Span)>>(l, p)
}

pub open spec fn live_put(l: LiveV, p: PlaceV, s: Seq<(Seq<char>, Span)>) -> LiveV {
    ordered::ord_put::<Place, Seq<(Seq<char>, Span)>>(l, p, s)
}

pub open spec fn live_del(l: LiveV, p: PlaceV) -> LiveV {
    ordered::ord_del::<Place, Seq<(Seq<char>, Span)>>(l, p)
}

pub open spec fn borrowers_at(l: LiveV, p: PlaceV) -> Seq<(Seq<char>, Span)> {
    match live_get(l, p) {
        Some(s) => s,
        None => Seq::empty(),
    }
}

/// Where the named borrower took its borrow of the place.
pub open spec fn borrow_site(l: LiveV, p: PlaceV, borrower: Seq<char>) -> Option<Span> {
    match live_get(l, p) {
        Some(s) => ordered::ord_get::<String, Span>(s, borrower),
        None => None,
    }
}

/// The first borrower of a place.
pub open spec fn first_borrower(l: LiveV, p: PlaceV) -> Option<(Seq<char>, Span)> {
    match live_get(l, p) {
        Some(s) => if s.len() > 0 {
            Some(s[0])
        } else {
            None
        },
        None => None,
    }
}

impl WorldV {
    /// The types of the bindings in scope: declared, or else inferred.
    pub open spec fn env(self) -> Map<Seq<char>, TypeV> {
        Map::new(
            |n: Seq<char>| (self.types.dom().contains(n) && self.types[n] is Some) || self.inferred.dom().contains(n),
            |n: Seq<char>|
                if self.types.dom().contains(n) && self.types[n] is Some {
                    self.types[n]->0
                } else {
                    self.inferred[n]
                },
        )
    }

    pub open spec fn put(self, p: PlaceV, s: PlaceStateV) -> WorldV {
        WorldV { state: place::st_put(self.state, p, s), ..self }
    }

    pub open spec fn own(self, name: Seq<char>) -> WorldV {
        self.put(place::root_place(name), PlaceStateV::Owned)
    }

    pub open spec fn with_state(self, s: StateV) -> WorldV {
        WorldV { state: s, ..self }
    }

    pub open spec fn report(self, d: RawDiagV) -> WorldV {
        WorldV { diags: self.diags.push(d), ..self }
    }

    pub open spec fn typed(self, name: Seq<char>, t: Option<TypeV>) -> WorldV {
        WorldV { types: self.types.insert(name, t), ..self }
    }

    pub open spec fn guess(self, name: Seq<char>, t: TypeV) -> WorldV {
        WorldV { inferred: self.inferred.insert(name, t), ..self }
    }

    pub open spec fn non_copy(self, cx: CxV, name: Seq<char>) -> bool {
        binding_moves(cx, self.env(), name)
    }

    /// `borrower` takes a borrow of one place.
    pub open spec fn claim(self, p: PlaceV, flavor: BorrowFlavor, borrower: Seq<char>, span: Span) -> WorldV {
        let set = ordered::ord_put::<String, Span>(borrowers_at(self.live, p), borrower, span);
        WorldV {
            live: live_put(self.live, p, set),
            state: place::st_put(
                self.state,
                p,
                match flavor {
                    BorrowFlavor::Shared => PlaceStateV::BorrowedShared(set.len() as u32),
                    BorrowFlavor::Exclusive => PlaceStateV::BorrowedExclusive(borrower),
                },
            ),
            ..self
        }
    }

    pub open spec fn claim_all(self, ps: SourcesV, borrower: Seq<char>, span: Span, i: nat) -> WorldV
        decreases ps.len() - i,
    {
        if i >= ps.len() {
            self
        } else {
            self.claim(ps[i as int].0, ps[i as int].1, borrower, span).claim_all(ps, borrower, span, i + 1)
        }
    }

    /// `borrower` takes borrows of the places and forgets its earlier sources.
    pub open spec fn acquire(self, ps: SourcesV, borrower: Seq<char>, span: Span) -> WorldV {
        let unique = first_places(Seq::empty(), ps, 0);
        WorldV { from: self.from.insert(borrower, places_in(unique)), ..self }.claim_all(unique, borrower, span, 0)
    }

    /// `borrower` takes further borrows.
    pub open spec fn extend(self, ps: SourcesV, borrower: Seq<char>, span: Span) -> WorldV {
        let unique = first_places(Seq::empty(), ps, 0);
        let back = match sigs::look(self.from, borrower) {
            Some(b) => b,
            None => Seq::empty(),
        };
        WorldV { from: self.from.insert(borrower, add_places(back, unique, 0)), ..self }.claim_all(
            unique,
            borrower,
            span,
            0,
        )
    }

    /// `borrower` gives one place back.
    pub open spec fn release(self, p: PlaceV, borrower: Seq<char>) -> WorldV {
        match live_get(self.live, p) {
            None => self,
            Some(s) => {
                let rest = ordered::ord_del::<String, Span>(s, borrower);
                if rest.len() as u32 == 0 {
                    WorldV {
                        live: live_del(self.live, p),
                        state: if place::st_has(self.state, p) {
                            place::st_put(self.state, p, PlaceStateV::Owned)
                        } else {
                            self.state
                        },
                        ..self
                    }
                } else {
                    WorldV {
                        live: live_put(self.live, p, rest),
                        state: if place::st_has(self.state, p) {
                            place::st_put(self.state, p, PlaceStateV::BorrowedShared(rest.len() as u32))
                        } else {
                            self.state
                        },
                        ..self
                    }
                }
            },
        }
    }

    pub open spec fn release_all(self, ps: Seq<PlaceV>, borrower: Seq<char>, i: nat) -> WorldV
        decreases ps.len() - i,
    {
        if i >= ps.len() {
            self
        } else {
            self.release(ps[i as int], borrower).release_all(ps, borrower, i + 1)
        }
    }

    /// `borrower` gives back everything it borrows.
    pub open spec fn drop_borrower(self, borrower: Seq<char>) -> WorldV {
        if self.from.dom().contains(borrower) {
            WorldV { from: self.from.remove(borrower), ..self }.release_all(self.from[borrower], borrower, 0)
        } else {
            self
        }
    }
}

pub open spec fn binding_moves(cx: CxV, env: Map<Seq<char>, TypeV>, name: Seq<char>) -> bool {
    match sigs::look(env, name) {
        Some(t) => cx.oracle.non_copy(t),
        None => false,
    }
}

pub open spec fn has_place(ps: SourcesV, p: PlaceV) -> bool {
    exists|i: int| 0 <= i < ps.len() && (#[trigger] ps[i]).0 == p
}

/// The sources without repeated places; the first mention of a place decides its flavor.
pub open spec fn first_places(acc: SourcesV, ps: SourcesV, i: nat) -> SourcesV
    decreases ps.len() - i,
{
    if i >= ps.len() {
        acc
    } else {
        first_places(
            if has_place(acc, ps[i as int].0) {
                acc
            } else {
                acc.push(ps[i as int])
            },
            ps,
            i + 1,
        )
    }
}

pub open spec fn places_in(ps: SourcesV) -> Seq<PlaceV> {
    Seq::new(ps.len(), |i: int| ps[i].0)
}

pub open spec fn add_places(acc: Seq<PlaceV>, ps: SourcesV, i: nat) -> Seq<PlaceV>
    decreases ps.len() - i,
{
    if i >= ps.len() {
        acc
    } else {
        add_places(
            if acc.contains(ps[i as int].0) {
                acc
            } else {
                acc.push(ps[i as int].0)
            },
            ps,
            i + 1,
        )
    }
}

/// A borrower that has given everything back has nothing left to give.
pub proof fn dropping_a_borrower_twice(w: WorldV, borrower: Seq<char>)
    ensures
        w.drop_borrower(borrower).drop_borrower(borrower) == w.drop_borrower(borrower),
{
    if w.from.dom().contains(borrower) {
        let cleared = WorldV { from: w.from.remove(borrower), ..w };
        lemma_release_keeps_from(cleared, w.from[borrower], borrower, 0);
    }
}

proof fn lemma_release_keeps_from(w: WorldV, ps: Seq<PlaceV>, borrower: Seq<char>, i: nat)
    ensures
        w.release_all(ps, borrower, i).from == w.from,
        w.release_all(ps, borrower, i).diags == w.diags,
        w.release_all(ps, borrower, i).types == w.types,
        w.release_all(ps, borrower, i).inferred == w.inferred,
    decreases ps.len() - i,
{
    if i < ps.len() {
        lemma_release_keeps_from(w.release(ps[i as int], borrower), ps, borrower, i + 1);
    }
}

/// Giving borrows back reports nothing and touches no types.
pub proof fn dropping_a_borrower_is_silent(w: WorldV, borrower: Seq<char>)
    ensures
        w.drop_borrower(borrower).diags == w.diags,
        w.drop_borrower(borrower).env() == w.env(),
{
    if w.from.dom().contains(borrower) {
        let cleared = WorldV { from: w.from.remove(borrower), ..w };
        lemma_release_keeps_from(cleared, w.from[borrower], borrower, 0);
        assert(w.drop_borrower(borrower).env() =~= w.env());
    }
}

impl TypeEnv for World {
    open spec fn env(&self) -> Map<Seq<char>, TypeV> {
        self@.env()
    }

    fn type_of(&self, name: &str) -> (r: Option<Type>) {
        match self.binding_type(name) {
            Some(t) => Some(t.clone()),
            None => None,
        }
    }
}

pub fn clone_borrowers(s: &OrdMap<String, Span>) -> (r: OrdMap<String, Span>)
    ensures
        r@ == s@,
{
    let mut out: OrdMap<String, Span> = OrdMap { entries: Vec::new() };
    let mut i: usize = 0;
    while i < s.entries.len()
        invariant
            i <= s.entries@.len(),
            out.entries@.len() == i,
            forall|j: int| 0 <= j < i ==> (#[trigger] out@[j]) == s@[j],
        decreases s.entries@.len() - i,
    {
        let ghost before = out@;
        out.entries.push((s.entries[i].0.clone(), s.entries[i].1));
        assert(forall|j: int| 0 <= j < i ==> (#[trigger] out@[j]) == before[j]);
        i += 1;
    }
    assert(out@ =~= s@);
    out
}

pub fn clone_places(ps: &Vec<Place>) -> (r: Vec<Place>)
    ensures
        r.deep_view() == ps.deep_view(),
{
    let mut out: Vec<Place> = Vec::new();
    let mut i: usize = 0;
    while i < ps.len()
        invariant
            i <= ps@.len(),
            out@.len() == i,
            forall|j: int| 0 <= j < i ==> (#[trigger] out@[j])@ == ps@[j]@,
        decreases ps@.len() - i,
    {
        out.push(ps[i].clone());
        i += 1;
    }
    assert(out.deep_view() =~= ps.deep_view());
    out
}

fn unique_sources(ps: &Vec<(Place, BorrowFlavor)>) -> (r: Vec<(Place, BorrowFlavor)>)
    ensures
        r.deep_view() == first_places(Seq::empty(), ps.deep_view(), 0),
{
    let mut out: Vec<(Place, BorrowFlavor)> = Vec::new();
    let mut i: usize = 0;
    assert(out.deep_view() =~= Seq::<(PlaceV, BorrowFlavor)>::empty());
    while i < ps.len()
        invariant
            i <= ps@.len(),
            first_places(out.deep_view(), ps.deep_view(), i as nat) == first_places(Seq::empty(), ps.deep_view(), 0),
        decreases ps@.len() - i,
    {
        let mut j: usize = 0;
        let mut seen = false;
        while j < out.len()
            invariant
                i < ps@.len(),
                j <= out@.len(),
                seen == exists|k: int| 0 <= k < j && (#[trigger] out.deep_view()[k]).0 == ps@[i as int].0@,
            decreases out@.len() - j,
        {
            assert(out.deep_view()[j as int].0 == out@[j as int].0@);
            if out[j].0.key_eq(&ps[i].0) {
                seen = true;
            }
            j += 1;
        }
        assert(ps.deep_view()[i as int] == (ps@[i as int].0@, ps@[i as int].1));
        if !seen {
            let ghost before = out.deep_view();
            out.push((ps[i].0.clone(), ps[i].1));
            assert(out.deep_view() =~= before.push(ps.deep_view()[i as int]));
        }
        i += 1;
    }
    out
}

fn has_same_place(ps: &Vec<Place>, p: &Place) -> (r: bool)
    ensures
        r == ps.deep_view().contains(p@),
{
    let mut i: usize = 0;
    while i < ps.len()
        invariant
            i <= ps@.len(),
            forall|j: int| 0 <= j < i ==> (#[trigger] ps.deep_view()[j]) != p@,
        decreases ps@.len() - i,
    {
        assert(ps.deep_view()[i as int] == ps@[i as int]@);
        if ps[i].key_eq(p) {
            return true;
        }
        i += 1;
    }
    false
}

impl World {
    pub fn new() -> (r: World)
        ensures
            r@ == empty_world(),
    {
        let r = World {
            types: NameMap::new(),
            inferred: NameMap::new(),
            diags: Vec::new(),
            live: OrdMap::new(),
            from: NameMap::new(),
            state: OrdMap::new(),
        };
        assert(r@.diags =~= Seq::<RawDiagV>::empty());
        r
    }

    pub fn binding_type(&self, name: &str) -> (r: Option<&Type>)
        ensures
            match r {
                Some(t) => sigs::look(self@.env(), name@) == Some(t@),
                None => sigs::look(self@.env(), name@) is None,
            },
    {
        match self.types.get(name) {
            Some(BindingType::Known(t)) => Some(t),
            _ => self.inferred.get(name),
        }
    }

    pub fn binding_is_non_copy(&self, cx: &Cx, name: &str) -> (r: bool)
        ensures
            r == self@.non_copy(cx@, name@),
    {
        match self.binding_type(name) {
            Some(t) => cx.oracle.definitely_non_copy(t),
            None => false,
        }
    }

    pub fn report(&mut self, d: RawDiag)
        ensures
            final(self)@ == old(self)@.report(d@),
    {
        let ghost dv = d@;
        self.diags.push(d);
        assert(self@.diags =~= old(self)@.diags.push(dv));
    }

    pub fn own(&mut self, name: &str)
        ensures
            final(self)@ == old(self)@.own(name@),
    {
        self.state.insert(Place::root(name), PlaceState::Owned);
    }

    fn claim(&mut self, place: &Place, flavor: BorrowFlavor, borrower: &str, span: Span)
        ensures
            final(self)@ == old(self)@.claim(place@, flavor, borrower@, span),
    {
        let mut set: OrdMap<String, Span> = match self.live.get(place) {
            Some(s) => clone_borrowers(s),
            None => OrdMap::new(),
        };
        set.insert(borrower.to_owned(), span);
        let n: u32 = set.len() as u32;
        self.live.insert(place.clone(), set);
        let st = match flavor {
            BorrowFlavor::Shared => PlaceState::BorrowedShared(n),
            BorrowFlavor::Exclusive => PlaceState::BorrowedExclusive(borrower.to_owned()),
        };
        self.state.insert(place.clone(), st);
    }

    fn claim_all(&mut self, ps: &Vec<(Place, BorrowFlavor)>, borrower: &str, span: Span)
        ensures
            final(self)@ == old(self)@.claim_all(ps.deep_view(), borrower@, span, 0),
    {
        let mut i: usize = 0;
        while i < ps.len()
            invariant
                i <= ps@.len(),
                self@.claim_all(ps.deep_view(), borrower@, span, i as nat) == old(self)@.claim_all(
                    ps.deep_view(),
                    borrower@,
                    span,
                    0,
                ),
            decreases ps@.len() - i,
        {
            assert(ps.deep_view()[i as int] == (ps@[i as int].0@, ps@[i as int].1));
            self.claim(&ps[i].0, ps[i].1, borrower, span);
            i += 1;
        }
    }

    /// `borrower` takes borrows of the places and forgets its earlier sources.
    pub fn acquire_borrows(&mut self, ps: &Vec<(Place, BorrowFlavor)>, borrower: &str, span: Span)
        ensures
            final(self)@ == old(self)@.acquire(ps.deep_view(), borrower@, span),
    {
        let unique = unique_sources(ps);
        let mut places: Vec<Place> = Vec::new();
        let mut i: usize = 0;
        while i < unique.len()
            invariant
                i <= unique@.len(),
                places@.len() == i,
                forall|j: int| 0 <= j < i ==> (#[trigger] places@[j])@ == unique@[j].0@,
            decreases unique@.len() - i,
        {
            places.push(unique[i].0.clone());
            i += 1;
        }
        assert(places.deep_view() =~= places_in(unique.deep_view()));
        self.from.insert(borrower.to_owned(), places);
        self.claim_all(&unique, borrower, span);
    }

    /// `borrower` takes further borrows.
    pub fn extend_borrows(&mut self, ps: &Vec<(Place, BorrowFlavor)>, borrower: &str, span: Span)
        ensures
            final(self)@ == old(self)@.extend(ps.deep_view(), borrower@, span),
    {
        let unique = unique_sources(ps);
        let mut back: Vec<Place> = match self.from.get(borrower) {
            Some(b) => clone_places(b),
            None => Vec::new(),
        };
        let ghost start = back.deep_view();
        proof {
            if !self@.from.dom().contains(borrower@) {
                assert(start =~= Seq::<PlaceV>::empty());
            }
        }
        let mut i: usize = 0;
        while i < unique.len()
            invariant
                i <= unique@.len(),
                add_places(back.deep_view(), unique.deep_view(), i as nat) == add_places(start, unique.deep_view(), 0),
            decreases unique@.len() - i,
        {
            assert(unique.deep_view()[i as int].0 == unique@[i as int].0@);
            if !has_same_place(&back, &unique[i].0) {
                let ghost before = back.deep_view();
                back.push(unique[i].0.clone());
                assert(back.deep_view() =~= before.push(unique@[i as int].0@));
            }
            i += 1;
        }
        self.from.insert(borrower.to_owned(), back);
        self.claim_all(&unique, borrower, span);
    }

    fn release_borrow(&mut self, place: &Place, borrower: &str)
        ensures
            final(self)@ == old(self)@.release(place@, borrower@),
    {
        let mut set: OrdMap<String, Span> = match self.live.get(place) {
            Some(s) => clone_borrowers(s),
            None => {
                return;
            },
        };
        let who = borrower.to_owned();
        set.remove(&who);
        let n: u32 = set.len() as u32;
        if n == 0 {
            self.live.remove(place);
            if self.state.contains(place) {
                self.state.insert(place.clone(), PlaceState::Owned);
            }
        } else {
            self.live.insert(place.clone(), set);
            if self.state.contains(place) {
                self.state.insert(place.clone(), PlaceState::BorrowedShared(n));
            }
        }
    }

    /// `borrower` gives back everything it borrows.
    pub fn drop_borrower(&mut self, borrower: &str)
        ensures
            final(self)@ == old(self)@.drop_borrower(borrower@),
    {
        let places: Vec<Place> = match self.from.get(borrower) {
            Some(ps) => clone_places(ps),
            None => {
                return;
            },
        };
        self.from.remove(borrower);
        let ghost start = self@;
        let mut i: usize = 0;
        while i < places.len()
            invariant
                i <= places@.len(),
                self@.release_all(places.deep_view(), borrower@, i as nat) == start.release_all(
                    places.deep_view(),
                    borrower@,
                    0,
                ),
            decreases places@.len() - i,
        {
            assert(places.deep_view()[i as int] == places@[i as int]@);
            self.release_borrow(&places[i], borrower);
            i += 1;
        }
    }

    pub fn site_of(&self, place: &Place, borrower: &str) -> (r: Option<Span>)
        ensures
            r == borrow_site(self@.live, place@, borrower@),
    {
        match self.live.get(place) {
            Some(s) => {
                let who = borrower.to_owned();
                match s.get(&who) {
                    Some(sp) => Some(*sp),
                    None => None,
                }
            },
            None => None,
        }
    }

    pub fn first_borrower_of(&self, place: &Place) -> (r: Option<(String, Span)>)
        ensures
            match r {
                Some((b, sp)) => first_borrower(self@.live, place@) == Some((b@, sp)),
                None => first_borrower(self@.live, place@) is None,
            },
    {
        match self.live.get(place) {
            Some(s) => if s.entries.len() > 0 {
                assert(s@[0] == (s.entries@[0].0@, s.entries@[0].1));
                Some((s.entries[0].0.clone(), s.entries[0].1))
            } else {
                None
            },
            None => None,
        }
    }
}

pub open spec fn empty_world() -> WorldV {
    WorldV {
        types: Map::empty(),
        inferred: Map::empty(),
        diags: Seq::empty(),
        live: Seq::empty(),
        from: Map::empty(),
        state: Seq::empty(),
    }
}

// ---------------------------------------------------------------------------
// What an expression borrows.

/// The declared name of the type of a place expression.
pub open spec fn place_type(cx: CxV, env: Map<Seq<char>, TypeV>, e: Expr) -> Option<Seq<char>>
    decreases e,
{
    match e.kind {
        ExprKind::Ident(n) => match sigs::look(env, n@) {
            Some(t) => flow::nominal(t.kind),
            None => None,
        },
        ExprKind::Field { receiver, name } => match place_type(cx, env, *receiver) {
            Some(s) => match infer::field_of(cx.sigs, s, name.name@) {
                Some(t) => flow::nominal(t.kind),
                None => None,
            },
            None => None,
        },
        _ => None,
    }
}

/// The places that the value of an expression borrows, through calls and aggregates.
pub open spec fn sources(cx: CxV, env: Map<Seq<char>, TypeV>, acc: SourcesV, e: Expr) -> SourcesV
    decreases e, 1nat,
{
    match e.kind {
        ExprKind::Call { callee, args, .. } => match callee.kind {
            ExprKind::Ident(f) => match sigs::look(cx.sigs.fns, f@) {
                Some(entry) => match entry.return_borrow {
                    Some((ReturnBorrowSourceV::Param(i), fl)) => arg_sources(cx, env, acc, args@, i as nat, fl),
                    Some((ReturnBorrowSourceV::MultiParam(is), fl)) => params_sources(cx, env, acc, args@, is, fl, 0),
                    _ => acc,
                },
                None => acc,
            },
            ExprKind::Field { receiver, name } => match place::place_of(*receiver) {
                Some(p) => match place_type(cx, env, *receiver) {
                    Some(t) => match cx.sigs.method(t, name.name@) {
                        Some(entry) => match entry.return_borrow {
                            Some((ReturnBorrowSourceV::SelfReceiver, fl)) => acc.push((p, fl)),
                            _ => acc,
                        },
                        None => acc,
                    },
                    None => acc,
                },
                None => acc,
            },
            ExprKind::Path { segments } => if segments@.len() == 2 && cx.sigs.enums.contains(segments@[0].name@) {
                sources_all(cx, env, acc, args@, 0)
            } else {
                acc
            },
            _ => acc,
        },
        ExprKind::StructLit { fields, .. } => sources_fields(cx, env, acc, fields@, 0),
        ExprKind::InferredStructLit { fields } => sources_fields(cx, env, acc, fields@, 0),
        ExprKind::GenericStructLit { fields, .. } => sources_fields(cx, env, acc, fields@, 0),
        ExprKind::ArrayLit { elements } => sources_all(cx, env, acc, elements@, 0),
        ExprKind::TupleLit { elements } => sources_all(cx, env, acc, elements@, 0),
        ExprKind::GenericEnumCall { args, .. } => sources_all(cx, env, acc, args@, 0),
        ExprKind::ArrayFill { fill, .. } => sources(cx, env, acc, *fill),
        ExprKind::If { then, else_branch, .. } => {
            let acc = match then.tail {
                Some(t) => sources(cx, env, acc, *t),
                None => acc,
            };
            match else_branch {
                Some(x) => sources(cx, env, acc, *x),
                None => acc,
            }
        },
        ExprKind::Block(b) => match b.tail {
            Some(t) => sources(cx, env, acc, *t),
            None => acc,
        },
        ExprKind::Match { arms, .. } => sources_arms(cx, env, acc, arms@, 0),
        _ => acc,
    }
}

/// What passing one argument lends: its place, or else what the argument borrows.
pub open spec fn arg_sources(cx: CxV, env: Map<Seq<char>, TypeV>, acc: SourcesV, args: Seq<Expr>, i: nat, fl: BorrowFlavor) -> SourcesV
    decreases args, 0nat,
{
    if i >= args.len() {
        acc
    } else {
        match place::place_of(args[i as int]) {
            Some(p) => acc.push((p, fl)),
            None => sources(cx, env, acc, args[i as int]),
        }
    }
}

pub open spec fn params_sources(
    cx: CxV,
    env: Map<Seq<char>, TypeV>,
    acc: SourcesV,
    args: Seq<Expr>,
    is: Seq<u32>,
    fl: BorrowFlavor,
    k: nat,
) -> SourcesV
    decreases args, is.len() + 1 - k,
{
    if k >= is.len() {
        acc
    } else {
        params_sources(cx, env, arg_sources(cx, env, acc, args, is[k as int] as nat, fl), args, is, fl, k + 1)
    }
}

pub open spec fn sources_all(cx: CxV, env: Map<Seq<char>, TypeV>, acc: SourcesV, es: Seq<Expr>, i: nat) -> SourcesV
    decreases es, es.len() - i,
{
    if i >= es.len() {
        acc
    } else {
        sources_all(cx, env, sources(cx, env, acc, es[i as int]), es, i + 1)
    }
}

pub open spec fn sources_fields(cx: CxV, env: Map<Seq<char>, TypeV>, acc: SourcesV, fs: Seq<FieldInit>, i: nat) -> SourcesV
    decreases fs, fs.len() - i,
{
    if i >= fs.len() {
        acc
    } else {
        sources_fields(cx, env, sources(cx, env, acc, fs[i as int].value), fs, i + 1)
    }
}

pub open spec fn sources_arms(cx: CxV, env: Map<Seq<char>, TypeV>, acc: SourcesV, arms: Seq<MatchArm>, i: nat) -> SourcesV
    decreases arms, arms.len() - i,
{
    if i >= arms.len() {
        acc
    } else {
        sources_arms(cx, env, sources(cx, env, acc, arms[i as int].body), arms, i + 1)
    }
}

pub open spec fn sources_of(cx: CxV, env: Map<Seq<char>, TypeV>, e: Expr) -> SourcesV {
    sources(cx, env, Seq::empty(), e)
}

impl World {
    pub fn place_type_name(&self, cx: &Cx, e: &Expr) -> (r: Option<String>)
        ensures
            sigs::opt_name(r) == place_type(cx@, self@.env(), *e),
        decreases e,
    {
        match &e.kind {
            ExprKind::Ident(n) => match self.binding_type(n.as_str()) {
                Some(t) => match type_name_of(t) {
                    Some(s) => Some(s.clone()),
                    None => None,
                },
                None => None,
            },
            ExprKind::Field { receiver, name } => match self.place_type_name(cx, receiver) {
                Some(s) => match field_type(cx.sigs, s.as_str(), name.name.as_str()) {
                    Some(t) => match type_name_of(&t) {
                        Some(u) => Some(u.clone()),
                        None => None,
                    },
                    None => None,
                },
                None => None,
            },
            _ => None,
        }
    }

    pub fn infer_expr_type(&self, cx: &Cx, e: &Expr) -> (r: Option<Type>)
        ensures
            sigs::opt_type(r) == infer::infer(cx@.sigs, self@.env(), *e),
    {
        infer_expr_type_with(e, cx.sigs, self)
    }

    pub fn classify_borrow_source(&self, cx: &Cx, e: &Expr) -> (r: Vec<(Place, BorrowFlavor)>)
        ensures
            r.deep_view() == sources_of(cx@, self@.env(), *e),
    {
        let mut out: Vec<(Place, BorrowFlavor)> = Vec::new();
        assert(out.deep_view() =~= Seq::<(PlaceV, BorrowFlavor)>::empty());
        self.add_sources(cx, &mut out, e);
        out
    }

    fn add_sources(&self, cx: &Cx, out: &mut Vec<(Place, BorrowFlavor)>, e: &Expr)
        ensures
            final(out).deep_view() == sources(cx@, self@.env(), old(out).deep_view(), *e),
        decreases e, 1nat,
    {
        match &e.kind {
            ExprKind::Call { callee, args, .. } => match &callee.kind {
                ExprKind::Ident(f) => {
                    if let Some(entry) = cx.sigs.fns.get(f.as_str()) {
                        match &entry.return_borrow {
                            Some((ReturnBorrowSource::Param(i), fl)) => {
                                self.add_arg_sources(cx, out, args, *i, *fl);
                            },
                            Some((ReturnBorrowSource::MultiParam(is), fl)) => {
                                self.add_params_sources(cx, out, args, is, *fl);
                            },
                            _ => {},
                        }
                    }
                },
                ExprKind::Field { receiver, name } => {
                    if let Some(p) = place_from_expr(receiver) {
                        if let Some(t) = self.place_type_name(cx, receiver) {
                            if let Some(entry) = cx.sigs.method_entry(t.as_str(), name.name.as_str()) {
                                if let Some((ReturnBorrowSource::SelfReceiver, fl)) = &entry.return_borrow {
                                    let ghost before = out.deep_view();
                                    let ghost pv = p@;
                                    out.push((p, *fl));
                                    assert(out.deep_view() =~= before.push((pv, *fl)));
                                }
                            }
                        }
                    }
                },
                ExprKind::Path { segments } => {
                    if segments.len() == 2 && cx.sigs.enums.contains(segments[0].name.as_str()) {
                        self.add_sources_all(cx, out, args);
                    }
                },
                _ => {},
            },
            ExprKind::StructLit { fields, .. } => self.add_sources_fields(cx, out, fields),
            ExprKind::InferredStructLit { fields } => self.add_sources_fields(cx, out, fields),
            ExprKind::GenericStructLit { fields, .. } => self.add_sources_fields(cx, out, fields),
            ExprKind::ArrayLit { elements } => self.add_sources_all(cx, out, elements),
            ExprKind::TupleLit { elements } => self.add_sources_all(cx, out, elements),
            ExprKind::GenericEnumCall { args, .. } => self.add_sources_all(cx, out, args),
            ExprKind::ArrayFill { fill, .. } => self.add_sources(cx, out, fill),
            ExprKind::If { then, else_branch, .. } => {
                if let Some(t) = &then.tail {
                    self.add_sources(cx, out, t);
                }
                if let Some(x) = else_branch {
                    self.add_sources(cx, out, x);
                }
            },
            ExprKind::Block(b) => {
                if let Some(t) = &b.tail {
                    self.add_sources(cx, out, t);
                }
            },
            ExprKind::Match { arms, .. } => self.add_sources_arms(cx, out, arms),
            _ => {},
        }
    }

    fn add_arg_sources(&self, cx: &Cx, out: &mut Vec<(Place, BorrowFlavor)>, args: &Vec<Expr>, i: u32, fl: BorrowFlavor)
        ensures
            final(out).deep_view() == arg_sources(cx@, self@.env(), old(out).deep_view(), args@, i as nat, fl),
        decreases args, 0nat,
    {
        let k: usize = i as usize;
        if k < args.len() {
            match place_from_expr(&args[k]) {
                Some(p) => {
                    let ghost before = out.deep_view();
                    let ghost pv = p@;
                    out.push((p, fl));
                    assert(out.deep_view() =~= before.push((pv, fl)));
                },
                None => self.add_sources(cx, out, &args[k]),
            }
        }
    }

    #[verifier::loop_isolation(false)]
    fn add_params_sources(
        &self,
        cx: &Cx,
        out: &mut Vec<(Place, BorrowFlavor)>,
        args: &Vec<Expr>,
        is: &Vec<u32>,
        fl: BorrowFlavor,
    )
        ensures
            final(out).deep_view() == params_sources(cx@, self@.env(), old(out).deep_view(), args@, is@, fl, 0),
        decreases args, 1nat,
    {
        let mut k: usize = 0;
        while k < is.len()
            invariant
                k <= is@.len(),
                params_sources(cx@, self@.env(), out.deep_view(), args@, is@, fl, k as nat) == params_sources(
                    cx@,
                    self@.env(),
                    old(out).deep_view(),
                    args@,
                    is@,
                    fl,
                    0,
                ),
            decreases is@.len() - k,
        {
            self.add_arg_sources(cx, out, args, is[k], fl);
            k += 1;
        }
    }

    #[verifier::loop_isolation(false)]
    fn add_sources_all(&self, cx: &Cx, out: &mut Vec<(Place, BorrowFlavor)>, es: &Vec<Expr>)
        ensures
            final(out).deep_view() == sources_all(cx@, self@.env(), old(out).deep_view(), es@, 0),
        decreases es, 0nat,
    {
        let mut i: usize = 0;
        while i < es.len()
            invariant
                i <= es@.len(),
                sources_all(cx@, self@.env(), out.deep_view(), es@, i as nat) == sources_all(
                    cx@,
                    self@.env(),
                    old(out).deep_view(),
                    es@,
                    0,
                ),
            decreases es@.len() - i,
        {
            self.add_sources(cx, out, &es[i]);
            i += 1;
        }
    }

    #[verifier::loop_isolation(false)]
    fn add_sources_fields(&self, cx: &Cx, out: &mut Vec<(Place, BorrowFlavor)>, fs: &Vec<FieldInit>)
        ensures
            final(out).deep_view() == sources_fields(cx@, self@.env(), old(out).deep_view(), fs@, 0),
        decreases fs, 0nat,
    {
        let mut i: usize = 0;
        while i < fs.len()
            invariant
                i <= fs@.len(),
                sources_fields(cx@, self@.env(), out.deep_view(), fs@, i as nat) == sources_fields(
                    cx@,
                    self@.env(),
                    old(out).deep_view(),
                    fs@,
                    0,
                ),
            decreases fs@.len() - i,
        {
            self.add_sources(cx, out, &fs[i].value);
            i += 1;
        }
    }

    #[verifier::loop_isolation(false)]
    fn add_sources_arms(&self, cx: &Cx, out: &mut Vec<(Place, BorrowFlavor)>, arms: &Vec<MatchArm>)
        ensures
            final(out).deep_view() == sources_arms(cx@, self@.env(), old(out).deep_view(), arms@, 0),
        decreases arms, 0nat,
    {
        let mut i: usize = 0;
        while i < arms.len()
            invariant
                i <= arms@.len(),
                sources_arms(cx@, self@.env(), out.deep_view(), arms@, i as nat) == sources_arms(
                    cx@,
                    self@.env(),
                    old(out).deep_view(),
                    arms@,
                    0,
                ),
            decreases arms@.len() - i,
        {
            self.add_sources(cx, out, &arms[i].body);
            i += 1;
        }
    }
}

} // verus!
