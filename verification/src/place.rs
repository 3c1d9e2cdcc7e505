//! Places, the ownership states they can be in, and snapshots of an analysis.
use vstd::prelude::*;
use vstd::string::*;
use crate::ordered;
use crate::text;
use crate::ast::{Expr, ExprKind};
use crate::ordered::{OrdKey, OrdMap};
use crate::text::{decimal_text, text_less};

verus! {

/// A storage location: a binding and a path of projections below it.
#[derive(Debug, PartialEq, Eq, Hash, PartialOrd, Ord)]
pub struct Place {
    pub root: String,
    pub projections: Vec<Projection>,
}

#[derive(Debug, PartialEq, Eq, Hash, PartialOrd, Ord)]
pub enum Projection {
    Field(String),
    Index(u64),
    /// An element whose index is not a literal.
    AnyIndex,
}

pub struct PlaceV {
    pub root: Seq<char>,
    pub projections: Seq<ProjectionV>,
}

pub enum ProjectionV {
    Field(Seq<char>),
    Index(u64),
    AnyIndex,
}

impl View for Projection {
    type V = ProjectionV;

    open spec fn view(&self) -> ProjectionV {
        match *self {
            Projection::Field(f) => ProjectionV::Field(f@),
            Projection::Index(n) => ProjectionV::Index(n),
            Projection::AnyIndex => ProjectionV::AnyIndex,
        }
    }
}

impl DeepView for Projection {
    type V = ProjectionV;

    open spec fn deep_view(&self) -> ProjectionV {
        self@
    }
}

impl View for Place {
    type V = PlaceV;

    open spec fn view(&self) -> PlaceV {
        PlaceV { root: self.root@, projections: self.projections.deep_view() }
    }
}

impl DeepView for Place {
    type V = PlaceV;

    open spec fn deep_view(&self) -> PlaceV {
        self@
    }
}

impl Clone for Projection {
    fn clone(&self) -> (r: Projection)
        ensures
            r@ == self@,
    {
        match self {
            Projection::Field(f) => Projection::Field(f.clone()),
            Projection::Index(n) => Projection::Index(*n),
            Projection::AnyIndex => Projection::AnyIndex,
        }
    }
}

impl Clone for Place {
    fn clone(&self) -> (r: Place)
        ensures
            r@ == self@,
    {
        let mut projections: Vec<Projection> = Vec::new();
        let mut i: usize = 0;
        while i < self.projections.len()
            invariant
                i <= self.projections@.len(),
                projections@.len() == i,
                forall|j: int| 0 <= j < i ==> (#[trigger] projections@[j])@ == self.projections@[j]@,
            decreases self.projections@.len() - i,
        {
            projections.push(self.projections[i].clone());
            i += 1;
        }
        let r = Place { root: self.root.clone(), projections };
        assert(r@.projections =~= self@.projections);
        r
    }
}

/// How two places relate.
#[derive(Debug, Clone, Copy, PartialEq, Eq, Structural)]
pub enum PlaceOverlap {
    Same,
    /// The first holds the second as a part.
    Contains,
    /// The first is a part of the second.
    Contained,
    Disjoint,
}

/// Two places overlap if they have the same root and one path is a prefix of the other.
pub open spec fn overlap_of(a: PlaceV, b: PlaceV) -> PlaceOverlap {
    if a.root != b.root {
        PlaceOverlap::Disjoint
    } else if a.projections == b.projections {
        PlaceOverlap::Same
    } else if a.projections.is_prefix_of(b.projections) {
        PlaceOverlap::Contains
    } else if b.projections.is_prefix_of(a.projections) {
        PlaceOverlap::Contained
    } else {
        PlaceOverlap::Disjoint
    }
}

pub open spec fn projection_text(p: ProjectionV) -> Seq<char> {
    match p {
        ProjectionV::Field(f) => "."@ + f,
        ProjectionV::Index(n) => "["@ + text::decimal(n as nat) + "]"@,
        ProjectionV::AnyIndex => "[*]"@,
    }
}

pub open spec fn path_text(acc: Seq<char>, ps: Seq<ProjectionV>, i: nat) -> Seq<char>
    decreases ps.len() - i,
{
    if i >= ps.len() {
        acc
    } else {
        path_text(acc + projection_text(ps[i as int]), ps, i + 1)
    }
}

/// The written form of a place: the root followed by its projections.
pub open spec fn canonical_text(p: PlaceV) -> Seq<char> {
    path_text(p.root, p.projections, 0)
}

fn projection_eq(a: &Projection, b: &Projection) -> (r: bool)
    ensures
        r == (a@ == b@),
{
    match (a, b) {
        (Projection::Field(x), Projection::Field(y)) => *x == *y,
        (Projection::Index(x), Projection::Index(y)) => *x == *y,
        (Projection::AnyIndex, Projection::AnyIndex) => true,
        _ => false,
    }
}

fn is_path_prefix(a: &Vec<Projection>, b: &Vec<Projection>) -> (r: bool)
    ensures
        r == a.deep_view().is_prefix_of(b.deep_view()),
{
    if a.len() > b.len() {
        return false;
    }
    let mut i: usize = 0;
    while i < a.len()
        invariant
            i <= a@.len() <= b@.len(),
            forall|j: int| 0 <= j < i ==> a.deep_view()[j] == b.deep_view()[j],
        decreases a@.len() - i,
    {
        if !projection_eq(&a[i], &b[i]) {
            assert(a.deep_view()[i as int] != b.deep_view()[i as int]);
            assert(b.deep_view().subrange(0, a@.len() as int)[i as int] == b.deep_view()[i as int]);
            return false;
        }
        i += 1;
    }
    assert(a.deep_view() =~= b.deep_view().subrange(0, a@.len() as int));
    true
}

impl Place {
    /// The place of a whole binding.
    pub fn root(name: &str) -> (r: Place)
        ensures
            r@ == (PlaceV { root: name@, projections: Seq::empty() }),
    {
        let r = Place { root: name.to_owned(), projections: Vec::new() };
        assert(r@.projections =~= Seq::<ProjectionV>::empty());
        r
    }

    /// The written form of the place.
    pub fn canonical(&self) -> (r: String)
        ensures
            r@ == canonical_text(self@),
    {
        let mut s = self.root.clone();
        let mut i: usize = 0;
        while i < self.projections.len()
            invariant
                i <= self.projections@.len(),
                path_text(s@, self@.projections, i as nat) == canonical_text(self@),
            decreases self.projections@.len() - i,
        {
            let ghost before = s@;
            match &self.projections[i] {
                Projection::Field(f) => {
                    let mut t = ".".to_owned();
                    t.append(f.as_str());
                    s.append(t.as_str());
                },
                Projection::Index(n) => {
                    let mut t = "[".to_owned();
                    t.append(decimal_text(*n).as_str());
                    t.append("]");
                    s.append(t.as_str());
                },
                Projection::AnyIndex => {
                    s.append("[*]");
                },
            }
            assert(s@ == before + projection_text(self@.projections[i as int]));
            i += 1;
        }
        s
    }

    /// How this place relates to another.
    pub fn overlap(&self, other: &Place) -> (r: PlaceOverlap)
        ensures
            r == overlap_of(self@, other@),
    {
        if self.root != other.root {
            return PlaceOverlap::Disjoint;
        }
        let ab = is_path_prefix(&self.projections, &other.projections);
        let ba = is_path_prefix(&other.projections, &self.projections);
        proof {
            let a = self@.projections;
            let b = other@.projections;
            if ab && ba {
                assert(a =~= b.subrange(0, a.len() as int));
                assert(a =~= b);
            }
            if a == b {
                assert(a =~= b.subrange(0, a.len() as int));
            }
        }
        if ab && ba {
            PlaceOverlap::Same
        } else if ab {
            PlaceOverlap::Contains
        } else if ba {
            PlaceOverlap::Contained
        } else {
            PlaceOverlap::Disjoint
        }
    }

    /// Whether an access to one place touches the other.
    pub fn conflicts_with(&self, other: &Place) -> (r: bool)
        ensures
            r == (overlap_of(self@, other@) != PlaceOverlap::Disjoint),
    {
        match self.overlap(other) {
            PlaceOverlap::Disjoint => false,
            _ => true,
        }
    }
}

/// Swapping the places swaps `Contains` and `Contained` and keeps the other answers.
pub proof fn overlap_is_symmetric(a: PlaceV, b: PlaceV)
    ensures
        overlap_of(a, b) == PlaceOverlap::Same <==> overlap_of(b, a) == PlaceOverlap::Same,
        overlap_of(a, b) == PlaceOverlap::Contains <==> overlap_of(b, a) == PlaceOverlap::Contained,
        overlap_of(a, b) == PlaceOverlap::Disjoint <==> overlap_of(b, a) == PlaceOverlap::Disjoint,
{
    let x = a.projections;
    let y = b.projections;
    if x.is_prefix_of(y) && y.is_prefix_of(x) {
        assert(x =~= y);
    }
}

/// A place is the same as itself, and only as itself.
pub proof fn overlap_same_is_equality(a: PlaceV, b: PlaceV)
    ensures
        overlap_of(a, b) == PlaceOverlap::Same <==> a == b,
{
}

/// A projection of a place is a part of it.
pub proof fn projection_is_contained(a: PlaceV, p: ProjectionV)
    ensures
        overlap_of(a, PlaceV { root: a.root, projections: a.projections.push(p) }) == PlaceOverlap::Contains,
{
    let q = a.projections.push(p);
    assert(a.projections.len() != q.len());
    assert(a.projections =~= q.subrange(0, a.projections.len() as int));
}

/// The ownership state of a place.
#[derive(Debug, PartialEq, Eq, PartialOrd, Ord)]
pub enum PlaceState {
    Owned,
    /// Borrowed by this many bindings.
    BorrowedShared(u32),
    /// Borrowed exclusively by the named binding.
    BorrowedExclusive(String),
    Moved,
    /// Not in the same state on every path.
    MaybePartial,
}

pub enum PlaceStateV {
    Owned,
    BorrowedShared(u32),
    BorrowedExclusive(Seq<char>),
    Moved,
    MaybePartial,
}

impl View for PlaceState {
    type V = PlaceStateV;

    open spec fn view(&self) -> PlaceStateV {
        match *self {
            PlaceState::Owned => PlaceStateV::Owned,
            PlaceState::BorrowedShared(n) => PlaceStateV::BorrowedShared(n),
            PlaceState::BorrowedExclusive(b) => PlaceStateV::BorrowedExclusive(b@),
            PlaceState::Moved => PlaceStateV::Moved,
            PlaceState::MaybePartial => PlaceStateV::MaybePartial,
        }
    }
}

impl DeepView for PlaceState {
    type V = PlaceStateV;

    open spec fn deep_view(&self) -> PlaceStateV {
        self@
    }
}

impl Clone for PlaceState {
    fn clone(&self) -> (r: PlaceState)
        ensures
            r@ == self@,
    {
        match self {
            PlaceState::Owned => PlaceState::Owned,
            PlaceState::BorrowedShared(n) => PlaceState::BorrowedShared(*n),
            PlaceState::BorrowedExclusive(b) => PlaceState::BorrowedExclusive(b.clone()),
            PlaceState::Moved => PlaceState::Moved,
            PlaceState::MaybePartial => PlaceState::MaybePartial,
        }
    }
}

/// The state after two paths meet. Shared borrows survive from either side; any other
/// disagreement is `MaybePartial`.
pub open spec fn merged(a: PlaceStateV, b: PlaceStateV) -> PlaceStateV {
    match (a, b) {
        (PlaceStateV::BorrowedShared(x), PlaceStateV::BorrowedShared(y)) => PlaceStateV::BorrowedShared(
            if x >= y { x } else { y },
        ),
        (PlaceStateV::BorrowedShared(x), PlaceStateV::Owned) => PlaceStateV::BorrowedShared(x),
        (PlaceStateV::BorrowedShared(x), PlaceStateV::Moved) => PlaceStateV::BorrowedShared(x),
        (PlaceStateV::Owned, PlaceStateV::BorrowedShared(y)) => PlaceStateV::BorrowedShared(y),
        (PlaceStateV::Moved, PlaceStateV::BorrowedShared(y)) => PlaceStateV::BorrowedShared(y),
        _ => if a == b { a } else { PlaceStateV::MaybePartial },
    }
}

impl PlaceState {
    pub fn merge(&self, other: &PlaceState) -> (r: PlaceState)
        ensures
            r@ == merged(self@, other@),
    {
        match (self, other) {
            (PlaceState::Owned, PlaceState::Owned) => PlaceState::Owned,
            (PlaceState::Moved, PlaceState::Moved) => PlaceState::Moved,
            (PlaceState::BorrowedShared(a), PlaceState::BorrowedShared(b)) => PlaceState::BorrowedShared(
                if *a >= *b { *a } else { *b },
            ),
            (PlaceState::BorrowedExclusive(a), PlaceState::BorrowedExclusive(b)) => {
                if *a == *b {
                    PlaceState::BorrowedExclusive(a.clone())
                } else {
                    PlaceState::MaybePartial
                }
            },
            (PlaceState::BorrowedShared(n), PlaceState::Owned) => PlaceState::BorrowedShared(*n),
            (PlaceState::BorrowedShared(n), PlaceState::Moved) => PlaceState::BorrowedShared(*n),
            (PlaceState::Owned, PlaceState::BorrowedShared(n)) => PlaceState::BorrowedShared(*n),
            (PlaceState::Moved, PlaceState::BorrowedShared(n)) => PlaceState::BorrowedShared(*n),
            _ => PlaceState::MaybePartial,
        }
    }
}

/// The order of the two paths does not matter.
pub proof fn merge_is_commutative(a: PlaceStateV, b: PlaceStateV)
    ensures
        merged(a, b) == merged(b, a),
{
}

/// Paths that agree keep their state.
pub proof fn merge_is_idempotent(a: PlaceStateV)
    ensures
        merged(a, a) == a,
{
}

/// Once a place is in doubt on one path it stays in doubt.
pub proof fn merge_absorbs_maybe_partial(a: PlaceStateV)
    ensures
        merged(PlaceStateV::MaybePartial, a) == PlaceStateV::MaybePartial,
        merged(a, PlaceStateV::MaybePartial) == PlaceStateV::MaybePartial,
{
}

/// A move on one path only leaves the place in doubt.
pub proof fn merge_of_a_one_sided_move(a: PlaceStateV)
    requires
        a is Owned || a is BorrowedExclusive,
    ensures
        merged(a, PlaceStateV::Moved) == PlaceStateV::MaybePartial,
{
}

pub open spec fn projection_lt(a: ProjectionV, b: ProjectionV) -> bool {
    match (a, b) {
        (ProjectionV::Field(x), ProjectionV::Field(y)) => text::text_lt(x, y, 0),
        (ProjectionV::Field(_), _) => true,
        (ProjectionV::Index(x), ProjectionV::Index(y)) => x < y,
        (ProjectionV::Index(_), ProjectionV::AnyIndex) => true,
        _ => false,
    }
}

pub open spec fn path_lt(a: Seq<ProjectionV>, b: Seq<ProjectionV>, i: nat) -> bool
    decreases b.len() - i,
{
    if i >= b.len() {
        false
    } else if i >= a.len() {
        true
    } else if a[i as int] == b[i as int] {
        path_lt(a, b, i + 1)
    } else {
        projection_lt(a[i as int], b[i as int])
    }
}

/// Places order by root and then by path, fields first.
pub open spec fn place_lt(a: PlaceV, b: PlaceV) -> bool {
    if a.root == b.root {
        path_lt(a.projections, b.projections, 0)
    } else {
        text::text_lt(a.root, b.root, 0)
    }
}

proof fn lemma_projection_order(a: ProjectionV, b: ProjectionV, c: ProjectionV)
    ensures
        !projection_lt(a, a),
        projection_lt(a, b) && projection_lt(b, c) ==> projection_lt(a, c),
        projection_lt(a, b) || a == b || projection_lt(b, a),
{
    match (a, b) {
        (ProjectionV::Field(x), ProjectionV::Field(y)) => {
            text::lemma_text_lt_irreflexive(x, 0);
            text::lemma_text_lt_total(x, y, 0);
            if let ProjectionV::Field(z) = c {
                if text::text_lt(x, y, 0) && text::text_lt(y, z, 0) {
                    text::lemma_text_lt_transitive(x, y, z, 0);
                }
            }
        },
        (ProjectionV::Field(x), _) => {
            text::lemma_text_lt_irreflexive(x, 0);
        },
        _ => {},
    }
}

proof fn lemma_path_irreflexive(a: Seq<ProjectionV>, i: nat)
    ensures
        !path_lt(a, a, i),
    decreases a.len() - i,
{
    if i < a.len() {
        lemma_path_irreflexive(a, i + 1);
    }
}

proof fn lemma_path_transitive(a: Seq<ProjectionV>, b: Seq<ProjectionV>, c: Seq<ProjectionV>, i: nat)
    requires
        path_lt(a, b, i),
        path_lt(b, c, i),
    ensures
        path_lt(a, c, i),
    decreases c.len() - i,
{
    if i < a.len() && i < b.len() && i < c.len() {
        let k = i as int;
        if a[k] == b[k] && b[k] == c[k] {
            lemma_path_transitive(a, b, c, i + 1);
        } else {
            lemma_projection_order(a[k], b[k], c[k]);
            lemma_projection_order(a[k], b[k], a[k]);
        }
    }
}

proof fn lemma_path_total(a: Seq<ProjectionV>, b: Seq<ProjectionV>, i: nat)
    requires
        i <= a.len(),
        i <= b.len(),
        forall|j: int| 0 <= j < i ==> a[j] == b[j],
    ensures
        path_lt(a, b, i) || a == b || path_lt(b, a, i),
    decreases b.len() - i,
{
    if i == a.len() && i == b.len() {
        assert(a =~= b);
    } else if i < a.len() && i < b.len() {
        if a[i as int] == b[i as int] {
            lemma_path_total(a, b, i + 1);
        } else {
            lemma_projection_order(a[i as int], b[i as int], a[i as int]);
        }
    }
}

fn projection_less(a: &Projection, b: &Projection) -> (r: bool)
    ensures
        r == projection_lt(a@, b@),
{
    match (a, b) {
        (Projection::Field(x), Projection::Field(y)) => text_less(x.as_str(), y.as_str()),
        (Projection::Field(_), _) => true,
        (Projection::Index(x), Projection::Index(y)) => *x < *y,
        (Projection::Index(_), Projection::AnyIndex) => true,
        _ => false,
    }
}

impl OrdKey for Place {
    open spec fn lt(a: PlaceV, b: PlaceV) -> bool {
        place_lt(a, b)
    }

    proof fn lt_irreflexive(a: PlaceV) {
        lemma_path_irreflexive(a.projections, 0);
    }

    proof fn lt_transitive(a: PlaceV, b: PlaceV, c: PlaceV) {
        if a.root == b.root && b.root == c.root {
            lemma_path_transitive(a.projections, b.projections, c.projections, 0);
        } else if a.root != b.root && b.root != c.root {
            text::lemma_text_lt_transitive(a.root, b.root, c.root, 0);
            text::lemma_text_lt_irreflexive(a.root, 0);
        }
    }

    proof fn lt_total(a: PlaceV, b: PlaceV) {
        if a.root == b.root {
            lemma_path_total(a.projections, b.projections, 0);
        } else {
            text::lemma_text_lt_total(a.root, b.root, 0);
        }
    }

    fn key_lt(&self, other: &Place) -> (r: bool) {
        if self.root != other.root {
            return text_less(self.root.as_str(), other.root.as_str());
        }
        let mut i: usize = 0;
        while i < other.projections.len()
            invariant
                i <= other.projections@.len(),
                self@.root == other@.root,
                self@.projections.len() == self.projections@.len(),
                other@.projections.len() == other.projections@.len(),
                path_lt(self@.projections, other@.projections, 0) == path_lt(
                    self@.projections,
                    other@.projections,
                    i as nat,
                ),
            decreases other.projections@.len() - i,
        {
            if i >= self.projections.len() {
                return true;
            }
            assert(self@.projections[i as int] == self.projections@[i as int]@);
            assert(other@.projections[i as int] == other.projections@[i as int]@);
            if !projection_eq(&self.projections[i], &other.projections[i]) {
                return projection_less(&self.projections[i], &other.projections[i]);
            }
            i += 1;
        }
        false
    }

    fn key_eq(&self, other: &Place) -> (r: bool) {
        match self.overlap(other) {
            PlaceOverlap::Same => true,
            _ => false,
        }
    }
}

/// Ownership states by place, in place order.
pub type State = OrdMap<Place, PlaceState>;

pub type StateV = Seq<(PlaceV, PlaceStateV)>;

pub open spec fn st_get(s: StateV, p: PlaceV) -> Option<PlaceStateV> {
    ordered::ord_get::<Place, PlaceStateV>(s, p)
}

pub open spec fn st_has(s: StateV, p: PlaceV) -> bool {
    ordered::ord_has::<Place, PlaceStateV>(s, p)
}

pub open spec fn st_put(s: StateV, p: PlaceV, v: PlaceStateV) -> StateV {
    ordered::ord_put::<Place, PlaceStateV>(s, p, v)
}

/// The place of a whole binding.
pub open spec fn root_place(name: Seq<char>) -> PlaceV {
    PlaceV { root: name, projections: Seq::empty() }
}

pub fn clone_state(s: &State) -> (r: State)
    ensures
        r@ == s@,
{
    let mut out: State = OrdMap { entries: Vec::new() };
    let mut i: usize = 0;
    while i < s.entries.len()
        invariant
            i <= s.entries@.len(),
            out.entries@.len() == i,
            forall|j: int| 0 <= j < i ==> (#[trigger] out@[j]) == s@[j],
        decreases s.entries@.len() - i,
    {
        let ghost before = out@;
        let e = (s.entries[i].0.clone(), s.entries[i].1.clone());
        out.entries.push(e);
        assert(forall|j: int| 0 <= j < i ==> (#[trigger] out@[j]) == before[j]);
        i += 1;
    }
    assert(out@ =~= s@);
    out
}

/// The ownership states found in every function of a program.
pub struct ProgramAnalysis {
    pub functions: OrdMap<String, FunctionAnalysis>,
}

pub struct FunctionAnalysis {
    pub name: String,
    pub points: Vec<PointSnapshot>,
}

/// The states at one point of a function.
pub struct PointSnapshot {
    pub label: String,
    pub state: State,
}

pub struct FunctionAnalysisV {
    pub name: Seq<char>,
    pub points: Seq<PointSnapshotV>,
}

pub struct PointSnapshotV {
    pub label: Seq<char>,
    pub state: StateV,
}

impl View for PointSnapshot {
    type V = PointSnapshotV;

    open spec fn view(&self) -> PointSnapshotV {
        PointSnapshotV { label: self.label@, state: self.state@ }
    }
}

impl DeepView for PointSnapshot {
    type V = PointSnapshotV;

    open spec fn deep_view(&self) -> PointSnapshotV {
        self@
    }
}

impl View for FunctionAnalysis {
    type V = FunctionAnalysisV;

    open spec fn view(&self) -> FunctionAnalysisV {
        FunctionAnalysisV { name: self.name@, points: self.points.deep_view() }
    }
}

impl DeepView for FunctionAnalysis {
    type V = FunctionAnalysisV;

    open spec fn deep_view(&self) -> FunctionAnalysisV {
        self@
    }
}

impl View for ProgramAnalysis {
    type V = Seq<(Seq<char>, FunctionAnalysisV)>;

    open spec fn view(&self) -> Seq<(Seq<char>, FunctionAnalysisV)> {
        self.functions@
    }
}

pub open spec fn state_text(s: PlaceStateV) -> Seq<char> {
    match s {
        PlaceStateV::Owned => "Owned"@,
        PlaceStateV::BorrowedShared(n) => "BorrowedShared("@ + text::decimal(n as nat) + ")"@,
        PlaceStateV::BorrowedExclusive(name) => "BorrowedExclusive("@ + name + ")"@,
        PlaceStateV::Moved => "Moved"@,
        PlaceStateV::MaybePartial => "MaybePartial"@,
    }
}

/// The written form of a state.
pub fn fmt_state(s: &PlaceState) -> (r: String)
    ensures
        r@ == state_text(s@),
{
    match s {
        PlaceState::Owned => "Owned".to_owned(),
        PlaceState::BorrowedShared(n) => {
            let mut t = "BorrowedShared(".to_owned();
            t.append(decimal_text(*n as u64).as_str());
            t.append(")");
            t
        },
        PlaceState::BorrowedExclusive(name) => {
            let mut t = "BorrowedExclusive(".to_owned();
            t.append(name.as_str());
            t.append(")");
            t
        },
        PlaceState::Moved => "Moved".to_owned(),
        PlaceState::MaybePartial => "MaybePartial".to_owned(),
    }
}

pub open spec fn dump_states(acc: Seq<char>, s: StateV, i: nat) -> Seq<char>
    decreases s.len() - i,
{
    if i >= s.len() {
        acc
    } else {
        let sep = if i == 0 { acc } else { acc + ", "@ };
        dump_states(sep + canonical_text(s[i as int].0) + "="@ + state_text(s[i as int].1), s, i + 1)
    }
}

pub open spec fn dump_point(acc: Seq<char>, p: PointSnapshotV) -> Seq<char> {
    let head = acc + "  "@ + p.label + ": "@;
    if p.state.len() == 0 {
        head + "{}\n"@
    } else {
        dump_states(head + "{"@, p.state, 0) + "}\n"@
    }
}

pub open spec fn dump_points(acc: Seq<char>, ps: Seq<PointSnapshotV>, i: nat) -> Seq<char>
    decreases ps.len() - i,
{
    if i >= ps.len() {
        acc
    } else {
        dump_points(dump_point(acc, ps[i as int]), ps, i + 1)
    }
}

pub open spec fn dump_functions(acc: Seq<char>, fs: Seq<(Seq<char>, FunctionAnalysisV)>, i: nat) -> Seq<char>
    decreases fs.len() - i,
{
    if i >= fs.len() {
        acc
    } else {
        dump_functions(
            dump_points(acc + "fn "@ + fs[i as int].0 + ":\n"@, fs[i as int].1.points, 0),
            fs,
            i + 1,
        )
    }
}

impl ProgramAnalysis {
    /// A listing of the analysis: every function in name order, each point with its label
    /// and the states at it in place order.
    pub fn dump(&self) -> (r: String)
        ensures
            r@ == dump_functions(Seq::empty(), self@, 0),
    {
        let mut out = String::new();
        let mut i: usize = 0;
        while i < self.functions.entries.len()
            invariant
                i <= self.functions.entries@.len(),
                dump_functions(out@, self@, i as nat) == dump_functions(Seq::empty(), self@, 0),
            decreases self.functions.entries@.len() - i,
        {
            let ghost acc = out@;
            let entry = &self.functions.entries[i];
            assert(self@[i as int] == (entry.0@, entry.1@));
            out.append("fn ");
            out.append(entry.0.as_str());
            out.append(":\n");
            let ghost head = out@;
            let points = &entry.1.points;
            let mut j: usize = 0;
            while j < points.len()
                invariant
                    j <= points@.len(),
                    dump_points(out@, points.deep_view(), j as nat) == dump_points(head, points.deep_view(), 0),
                decreases points@.len() - j,
            {
                Self::dump_one(&mut out, &points[j]);
                j += 1;
            }
            assert(out@ == dump_points(head, self@[i as int].1.points, 0));
            i += 1;
        }
        out
    }

    fn dump_one(out: &mut String, p: &PointSnapshot)
        ensures
            final(out)@ == dump_point(old(out)@, p@),
    {
        out.append("  ");
        out.append(p.label.as_str());
        out.append(": ");
        if p.state.entries.len() == 0 {
            out.append("{}\n");
        } else {
            out.append("{");
            let ghost head = out@;
            let mut i: usize = 0;
            while i < p.state.entries.len()
                invariant
                    i <= p.state.entries@.len(),
                    dump_states(out@, p@.state, i as nat) == dump_states(head, p@.state, 0),
                decreases p.state.entries@.len() - i,
            {
                if i > 0 {
                    out.append(", ");
                }
                let e = &p.state.entries[i];
                assert(p@.state[i as int] == (e.0@, e.1@));
                out.append(e.0.canonical().as_str());
                out.append("=");
                out.append(fmt_state(&e.1).as_str());
                i += 1;
            }
            out.append("}\n");
        }
    }
}

/// The place an expression denotes, if it is a path of fields and elements.
pub open spec fn place_of(e: Expr) -> Option<PlaceV>
    decreases e,
{
    match e.kind {
        ExprKind::Ident(name) => Some(root_place(name@)),
        ExprKind::Field { receiver, name } => match place_of(*receiver) {
            Some(p) => Some(PlaceV { root: p.root, projections: p.projections.push(ProjectionV::Field(name.name@)) }),
            None => None,
        },
        ExprKind::Index { receiver, index } => match place_of(*receiver) {
            Some(p) => Some(PlaceV { root: p.root, projections: p.projections.push(index_projection(*index)) }),
            None => None,
        },
        _ => None,
    }
}

pub open spec fn index_projection(index: Expr) -> ProjectionV {
    match index.kind {
        ExprKind::IntLit(value, _) => ProjectionV::Index(value),
        _ => ProjectionV::AnyIndex,
    }
}

pub open spec fn opt_place(p: Option<Place>) -> Option<PlaceV> {
    match p {
        Some(x) => Some(x@),
        None => None,
    }
}

pub fn place_from_expr(e: &Expr) -> (r: Option<Place>)
    ensures
        opt_place(r) == place_of(*e),
    decreases e,
{
    match &e.kind {
        ExprKind::Ident(name) => Some(Place::root(name.as_str())),
        ExprKind::Field { receiver, name } => match place_from_expr(receiver) {
            Some(mut p) => {
                let ghost before = p.projections.deep_view();
                p.projections.push(Projection::Field(name.name.clone()));
                assert(p.projections.deep_view() =~= before.push(ProjectionV::Field(name.name@)));
                Some(p)
            },
            None => None,
        },
        ExprKind::Index { receiver, index } => match place_from_expr(receiver) {
            Some(mut p) => {
                let proj = match &index.kind {
                    ExprKind::IntLit(value, _) => Projection::Index(*value),
                    _ => Projection::AnyIndex,
                };
                let ghost before = p.projections.deep_view();
                let ghost pv = proj@;
                p.projections.push(proj);
                assert(p.projections.deep_view() =~= before.push(pv));
                Some(p)
            },
            None => None,
        },
        _ => None,
    }
}

/// The binding at the root of a path expression.
pub open spec fn root_of(e: Expr) -> Option<Seq<char>>
    decreases e,
{
    match e.kind {
        ExprKind::Ident(n) => Some(n@),
        ExprKind::Field { receiver, .. } => root_of(*receiver),
        ExprKind::Index { receiver, .. } => root_of(*receiver),
        _ => None,
    }
}

pub fn expr_root_ident(e: &Expr) -> (r: Option<&str>)
    ensures
        match r {
            Some(n) => root_of(*e) == Some(n@),
            None => root_of(*e) is None,
        },
    decreases e,
{
    match &e.kind {
        ExprKind::Ident(n) => Some(n.as_str()),
        ExprKind::Field { receiver, .. } => expr_root_ident(receiver),
        ExprKind::Index { receiver, .. } => expr_root_ident(receiver),
        _ => None,
    }
}

} // verus!
