//! Reads, writes, moves and calls that conflict with a borrow.
use vstd::prelude::*;
use vstd::string::*;
use crate::borrows;
use crate::flow;
use crate::messages;
use crate::place;
use crate::sigs;
use crate::walks;
use crate::ast::{Expr, ExprKind, Span, TypeV};
use crate::borrows::{Cx, CxV, LiveV, World, WorldV};
use crate::infer::type_name_of;
use crate::messages::{RawDiag, RawDiagV, report_call_while_exclusive, report_call_while_shared, report_exclusive_and_moved, report_exclusive_and_read, report_exclusive_twice, report_maybe_moved, report_move_of_exclusive, report_move_of_parent, report_move_of_shared, report_moved_and_read, report_partial_overlap, report_partial_sibling_read, report_read_of_exclusive, report_read_of_exclusive_place, report_read_of_partly_exclusive, report_read_overlapping_exclusive, report_receiver_borrowed_by_arg, report_receiver_moved_by_arg, report_receiver_passed, report_ref_while_borrowed, report_write_while_borrowed};
use crate::place::{Place, PlaceOverlap, PlaceState, PlaceStateV, PlaceV, State, StateV, place_from_expr};
use crate::sigs::{ClaimKind, FnEntryV, flag};
use crate::text::str_eq;
use crate::walks::scan_overlapping_expr;

verus! {

// ---------------------------------------------------------------------------
// Single accesses.

/// An exclusive borrow by another binding of a place that overlaps the target.
pub open spec fn blocks(entry: (PlaceV, PlaceStateV), target: PlaceV) -> bool {
    match entry.1 {
        PlaceStateV::BorrowedExclusive(b) => b != target.root && place::overlap_of(target, entry.0) != PlaceOverlap::Disjoint,
        _ => false,
    }
}

/// The first such borrow, in place order.
pub open spec fn blocker(s: StateV, target: PlaceV, i: nat) -> Option<(PlaceV, Seq<char>)>
    decreases s.len() - i,
{
    if i >= s.len() {
        None
    } else if blocks(s[i as int], target) {
        Some((s[i as int].0, s[i as int].1->BorrowedExclusive_0))
    } else {
        blocker(s, target, i + 1)
    }
}

/// The first borrowed place under the binding, with its first borrower.
pub open spec fn borrowed_part(l: LiveV, name: Seq<char>, i: nat) -> Option<(PlaceV, Seq<char>, Span)>
    decreases l.len() - i,
{
    if i >= l.len() {
        None
    } else if l[i as int].0.root == name && l[i as int].1.len() > 0 {
        Some((l[i as int].0, l[i as int].1[0].0, l[i as int].1[0].1))
    } else {
        borrowed_part(l, name, i + 1)
    }
}

pub open spec fn is_borrowed(s: Option<PlaceStateV>) -> bool {
    match s {
        Some(PlaceStateV::BorrowedShared(_)) => true,
        Some(PlaceStateV::BorrowedExclusive(_)) => true,
        _ => false,
    }
}

impl WorldV {
    /// A use of a binding that only some paths have moved.
    pub open spec fn in_doubt(self, cx: CxV, name: Seq<char>) -> bool {
        place::st_get(self.state, place::root_place(name)) == Some(PlaceStateV::MaybePartial) && self.non_copy(cx, name)
    }

    /// Reads a whole binding.
    pub open spec fn read(self, cx: CxV, name: Seq<char>, span: Span) -> WorldV {
        if self.in_doubt(cx, name) {
            self.report(messages::maybe_moved(name, span))
        } else {
            match blocker(self.state, place::root_place(name), 0) {
                None => self,
                Some((p, b)) => {
                    let at = borrows::borrow_site(self.live, p, b);
                    if place::overlap_of(place::root_place(name), p) == PlaceOverlap::Same {
                        self.report(messages::read_of_exclusive(name, b, span, at))
                    } else {
                        self.report(messages::read_of_partly_exclusive(name, place::canonical_text(p), b, span, at))
                    }
                },
            }
        }
    }

    /// Reads a place.
    pub open spec fn read_place(self, cx: CxV, place: PlaceV, span: Span) -> WorldV {
        if place.projections.len() == 0 {
            self.read(cx, place.root, span)
        } else {
            match blocker(self.state, place, 0) {
                None => self,
                Some((p, b)) => {
                    let at = borrows::borrow_site(self.live, p, b);
                    let text = place::canonical_text(place);
                    if place::overlap_of(place, p) == PlaceOverlap::Same {
                        self.report(messages::read_of_exclusive_place(text, place.root, b, span, at))
                    } else {
                        self.report(messages::read_overlapping_exclusive(text, place.root, place::canonical_text(p), b, span, at))
                    }
                },
            }
        }
    }

    /// Reports a move of a binding that may be moved already.
    pub open spec fn check_doubt(self, cx: CxV, name: Seq<char>, span: Span) -> WorldV {
        if self.in_doubt(cx, name) {
            self.report(messages::maybe_moved(name, span))
        } else {
            self
        }
    }

    /// Reports a move of a binding that is borrowed, in whole or in part.
    pub open spec fn check_move(self, name: Seq<char>, span: Span) -> WorldV {
        match borrowed_part(self.live, name, 0) {
            None => self,
            Some((p, b, at)) => {
                let exclusive = place::st_get(self.state, p) matches Some(PlaceStateV::BorrowedExclusive(_));
                if p.projections.len() > 0 {
                    let flavor = if exclusive { "exclusively"@ } else { "shared"@ };
                    self.report(messages::move_of_parent(name, place::canonical_text(p), flavor, b, span, at))
                } else if exclusive {
                    self.report(messages::move_of_exclusive(name, b, span, at))
                } else {
                    self.report(messages::move_of_shared(name, b, span, at))
                }
            },
        }
    }

    /// Moves a binding out: it may not be in doubt or borrowed, and its borrows end.
    pub open spec fn move_out(self, cx: CxV, name: Seq<char>, span: Span) -> WorldV {
        let w = self.check_doubt(cx, name, span).check_move(name, span);
        if w.non_copy(cx, name) {
            WorldV {
                state: place::st_put(w.state, place::root_place(name), PlaceStateV::Moved),
                live: borrows::live_del(w.live, place::root_place(name)),
                ..w
            }.drop_borrower(name)
        } else {
            w
        }
    }

    /// Reports a `ref` argument whose binding is borrowed.
    pub open spec fn check_ref_arg(self, arg: Expr) -> WorldV {
        match place::place_of(arg) {
            None => self,
            Some(p) => match borrows::first_borrower(self.live, place::root_place(p.root)) {
                Some((b, at)) if is_borrowed(place::st_get(self.state, place::root_place(p.root))) => self.report(
                    messages::ref_while_borrowed(p.root, b, arg.span, at),
                ),
                _ => self,
            },
        }
    }

    /// Reports a write to a binding that is borrowed.
    pub open spec fn check_write(self, target: Expr) -> WorldV {
        match place::place_of(target) {
            None => self,
            Some(p) => match borrows::first_borrower(self.live, place::root_place(p.root)) {
                Some((b, at)) if is_borrowed(place::st_get(self.state, place::root_place(p.root))) => self.report(
                    messages::write_while_borrowed(p.root, b, target.span, at),
                ),
                _ => self,
            },
        }
    }

    /// Reports a call on a receiver whose borrows do not admit it.
    pub open spec fn check_receiver(self, cx: CxV, receiver: Expr, method: Seq<char>) -> WorldV {
        match receiver.kind {
            ExprKind::Ident(n) => match sigs::look(self.env(), n@) {
                Some(t) => match flow::nominal(t.kind) {
                    Some(s) => match cx.sigs.method(s, method) {
                        Some(entry) => self.check_known_receiver(entry, n@, method, receiver.span),
                        None => self,
                    },
                    None => self,
                },
                None => self,
            },
            _ => self,
        }
    }

    pub open spec fn check_known_receiver(self, entry: FnEntryV, name: Seq<char>, method: Seq<char>, span: Span) -> WorldV {
        let mutates = entry.receiver_claim == Some(ClaimKind::Exclusive) || entry.receiver_claim == Some(ClaimKind::Move);
        match place::st_get(self.state, place::root_place(name)) {
            Some(PlaceStateV::BorrowedShared(_)) if mutates => {
                match borrows::first_borrower(self.live, place::root_place(name)) {
                    Some((b, at)) => self.report(messages::call_while_shared(name, method, b, span, Some(at))),
                    None => self.report(messages::call_while_shared(name, method, "(unknown)"@, span, None)),
                }
            },
            Some(PlaceStateV::BorrowedExclusive(b)) if b != name => self.report(
                messages::call_while_exclusive(name, method, b, span, borrows::borrow_site(self.live, place::root_place(name), b)),
            ),
            _ => self,
        }
    }
}

fn find_blocker(s: &State, target: &Place) -> (r: Option<usize>)
    ensures
        match r {
            Some(i) => i < s@.len() && blocks(s@[i as int], target@) && blocker(s@, target@, 0) == Some(
                (s@[i as int].0, s@[i as int].1->BorrowedExclusive_0),
            ),
            None => blocker(s@, target@, 0) is None,
        },
{
    let mut i: usize = 0;
    while i < s.entries.len()
        invariant
            i <= s.entries@.len(),
            blocker(s@, target@, 0) == blocker(s@, target@, i as nat),
        decreases s.entries@.len() - i,
    {
        assert(s@[i as int] == (s.entries@[i as int].0@, s.entries@[i as int].1@));
        if let PlaceState::BorrowedExclusive(b) = &s.entries[i].1 {
            if *b != target.root && target.conflicts_with(&s.entries[i].0) {
                return Some(i);
            }
        }
        i += 1;
    }
    None
}

impl World {
    fn is_in_doubt(&self, cx: &Cx, name: &str) -> (r: bool)
        ensures
            r == self@.in_doubt(cx@, name@),
    {
        match self.state.get(&Place::root(name)) {
            Some(PlaceState::MaybePartial) => self.binding_is_non_copy(cx, name),
            _ => false,
        }
    }

    pub fn record_read(&mut self, cx: &Cx, name: &str, span: Span)
        ensures
            final(self)@ == old(self)@.read(cx@, name@, span),
    {
        if self.is_in_doubt(cx, name) {
            self.report(report_maybe_moved(name, span));
            return;
        }
        let target = Place::root(name);
        if let Some(i) = find_blocker(&self.state, &target) {
            let p = self.state.entries[i].0.clone();
            assert(self.state@[i as int] == (self.state.entries@[i as int].0@, self.state.entries@[i as int].1@));
            if let PlaceState::BorrowedExclusive(b) = &self.state.entries[i].1 {
                let who = b.clone();
                let at = self.site_of(&p, who.as_str());
                let same = match target.overlap(&p) {
                    PlaceOverlap::Same => true,
                    _ => false,
                };
                if same {
                    self.report(report_read_of_exclusive(name, who.as_str(), span, at));
                } else {
                    self.report(
                        report_read_of_partly_exclusive(name, p.canonical().as_str(), who.as_str(), span, at),
                    );
                }
            }
        }
    }

    pub fn record_place_read(&mut self, cx: &Cx, place: &Place, span: Span)
        ensures
            final(self)@ == old(self)@.read_place(cx@, place@, span),
    {
        if place.projections.len() == 0 {
            self.record_read(cx, place.root.as_str(), span);
            return;
        }
        if let Some(i) = find_blocker(&self.state, place) {
            let p = self.state.entries[i].0.clone();
            assert(self.state@[i as int] == (self.state.entries@[i as int].0@, self.state.entries@[i as int].1@));
            if let PlaceState::BorrowedExclusive(b) = &self.state.entries[i].1 {
                let who = b.clone();
                let at = self.site_of(&p, who.as_str());
                let text = place.canonical();
                let same = match place.overlap(&p) {
                    PlaceOverlap::Same => true,
                    _ => false,
                };
                if same {
                    self.report(
                        report_read_of_exclusive_place(text.as_str(), place.root.as_str(), who.as_str(), span, at),
                    );
                } else {
                    self.report(
                        report_read_overlapping_exclusive(
                            text.as_str(),
                            place.root.as_str(),
                            p.canonical().as_str(),
                            who.as_str(),
                            span,
                            at,
                        ),
                    );
                }
            }
        }
    }

    fn record_move_arg_use(&mut self, cx: &Cx, name: &str, span: Span)
        ensures
            final(self)@ == old(self)@.check_doubt(cx@, name@, span),
    {
        if self.is_in_doubt(cx, name) {
            self.report(report_maybe_moved(name, span));
        }
    }

    fn find_borrowed_part(&self, name: &str) -> (r: Option<usize>)
        ensures
            match r {
                Some(i) => i < self@.live.len() && self@.live[i as int].0.root == name@ && self@.live[i as int].1.len() > 0
                    && borrowed_part(self@.live, name@, 0) == Some(
                    (self@.live[i as int].0, self@.live[i as int].1[0].0, self@.live[i as int].1[0].1),
                ),
                None => borrowed_part(self@.live, name@, 0) is None,
            },
    {
        let mut i: usize = 0;
        while i < self.live.entries.len()
            invariant
                i <= self.live.entries@.len(),
                borrowed_part(self@.live, name@, 0) == borrowed_part(self@.live, name@, i as nat),
            decreases self.live.entries@.len() - i,
        {
            assert(self@.live[i as int] == (self.live.entries@[i as int].0@, self.live.entries@[i as int].1@));
            if str_eq(self.live.entries[i].0.root.as_str(), name) && self.live.entries[i].1.entries.len() > 0 {
                return Some(i);
            }
            i += 1;
        }
        None
    }

    fn check_move_against_borrow(&mut self, name: &str, span: Span)
        ensures
            final(self)@ == old(self)@.check_move(name@, span),
    {
        if let Some(i) = self.find_borrowed_part(name) {
            let p = self.live.entries[i].0.clone();
            let set = &self.live.entries[i].1;
            assert(self@.live[i as int] == (self.live.entries@[i as int].0@, self.live.entries@[i as int].1@));
            assert(set@[0] == (set.entries@[0].0@, set.entries@[0].1));
            let who = set.entries[0].0.clone();
            let at = set.entries[0].1;
            let exclusive = match self.state.get(&p) {
                Some(PlaceState::BorrowedExclusive(_)) => true,
                _ => false,
            };
            if p.projections.len() > 0 {
                let flavor = if exclusive { "exclusively" } else { "shared" };
                self.report(
                    report_move_of_parent(name, p.canonical().as_str(), flavor, who.as_str(), span, at),
                );
            } else if exclusive {
                self.report(report_move_of_exclusive(name, who.as_str(), span, at));
            } else {
                self.report(report_move_of_shared(name, who.as_str(), span, at));
            }
        }
    }

    pub fn apply_move_of_binding(&mut self, cx: &Cx, name: &str, span: Span)
        ensures
            final(self)@ == old(self)@.move_out(cx@, name@, span),
    {
        self.record_move_arg_use(cx, name, span);
        self.check_move_against_borrow(name, span);
        if self.binding_is_non_copy(cx, name) {
            let root = Place::root(name);
            self.state.insert(root.clone(), PlaceState::Moved);
            self.live.remove(&root);
            self.drop_borrower(name);
        }
    }

    fn is_borrowed_root(&self, root: &Place) -> (r: bool)
        ensures
            r == is_borrowed(place::st_get(self@.state, root@)),
    {
        match self.state.get(root) {
            Some(PlaceState::BorrowedShared(_)) => true,
            Some(PlaceState::BorrowedExclusive(_)) => true,
            _ => false,
        }
    }

    pub fn check_ref_arg_against_borrows(&mut self, arg: &Expr)
        ensures
            final(self)@ == old(self)@.check_ref_arg(*arg),
    {
        if let Some(p) = place_from_expr(arg) {
            let root = Place::root(p.root.as_str());
            if self.is_borrowed_root(&root) {
                if let Some((b, at)) = self.first_borrower_of(&root) {
                    self.report(report_ref_while_borrowed(p.root.as_str(), b.as_str(), arg.span, at));
                }
            }
        }
    }

    pub fn check_write_against_borrows(&mut self, target: &Expr)
        ensures
            final(self)@ == old(self)@.check_write(*target),
    {
        if let Some(p) = place_from_expr(target) {
            let root = Place::root(p.root.as_str());
            if self.is_borrowed_root(&root) {
                if let Some((b, at)) = self.first_borrower_of(&root) {
                    self.report(report_write_while_borrowed(p.root.as_str(), b.as_str(), target.span, at));
                }
            }
        }
    }

    pub fn check_method_receiver_claim(&mut self, cx: &Cx, receiver: &Expr, method: &str)
        ensures
            final(self)@ == old(self)@.check_receiver(cx@, *receiver, method@),
    {
        if let ExprKind::Ident(n) = &receiver.kind {
            let name: String = match self.binding_type(n.as_str()) {
                Some(t) => match type_name_of(t) {
                    Some(s) => s.clone(),
                    None => {
                        return;
                    },
                },
                None => {
                    return;
                },
            };
            let entry = match cx.sigs.method_entry(name.as_str(), method) {
                Some(e) => e,
                None => {
                    return;
                },
            };
            let mutates = match entry.receiver_claim {
                Some(ClaimKind::Exclusive) => true,
                Some(ClaimKind::Move) => true,
                _ => false,
            };
            let place = Place::root(n.as_str());
            let st: PlaceState = match self.state.get(&place) {
                Some(s) => s.clone(),
                None => {
                    return;
                },
            };
            match st {
                PlaceState::BorrowedShared(_) => {
                    if mutates {
                        match self.first_borrower_of(&place) {
                            Some((b, at)) => {
                                self.report(
                                    report_call_while_shared(n.as_str(), method, b.as_str(), receiver.span, Some(at)),
                                );
                            },
                            None => {
                                self.report(
                                    report_call_while_shared(n.as_str(), method, "(unknown)", receiver.span, None),
                                );
                            },
                        }
                    }
                },
                PlaceState::BorrowedExclusive(b) => {
                    if b != *n {
                        let at = self.site_of(&place, b.as_str());
                        self.report(
                            report_call_while_exclusive(n.as_str(), method, b.as_str(), receiver.span, at),
                        );
                    }
                },
                _ => {},
            }
        }
    }
}

// ---------------------------------------------------------------------------
// Arguments of one call.

/// What one argument or the receiver claims for the duration of a call.
pub struct ArgClaim {
    pub kind: ClaimKind,
    pub place: Place,
    pub span: Span,
}

pub struct ArgClaimV {
    pub kind: ClaimKind,
    pub place: PlaceV,
    pub span: Span,
}

impl DeepView for ArgClaim {
    type V = ArgClaimV;

    open spec fn deep_view(&self) -> ArgClaimV {
        ArgClaimV { kind: self.kind, place: self.place@, span: self.span }
    }
}

pub open spec fn opt_flag(flags: Option<Seq<bool>>, i: int) -> bool {
    match flags {
        Some(f) => sigs::flag_at(f, i),
        None => false,
    }
}

pub open spec fn opt_flags(flags: Option<Vec<bool>>) -> Option<Seq<bool>> {
    match flags {
        Some(f) => Some(f@),
        None => None,
    }
}

pub fn flag_in(flags: &Option<Vec<bool>>, i: usize) -> (r: bool)
    ensures
        r == opt_flag(opt_flags(*flags), i as int),
{
    match flags {
        Some(f) => flag(f, i),
        None => false,
    }
}

/// The claim of an argument: a `take` of a moved binding, or a `ref`.
pub open spec fn claim_of(cx: CxV, env: Map<Seq<char>, TypeV>, arg: Expr, moved: bool, lent: bool) -> Option<ArgClaimV> {
    match place::place_of(arg) {
        Some(p) => if moved {
            if borrows::binding_moves(cx, env, p.root) {
                Some(ArgClaimV { kind: ClaimKind::Move, place: p, span: arg.span })
            } else {
                None
            }
        } else if lent {
            Some(ArgClaimV { kind: ClaimKind::Exclusive, place: p, span: arg.span })
        } else {
            None
        },
        None => None,
    }
}

pub open spec fn claims_of(
    cx: CxV,
    env: Map<Seq<char>, TypeV>,
    args: Seq<Expr>,
    moves: Option<Seq<bool>>,
    muts: Option<Seq<bool>>,
) -> Seq<Option<ArgClaimV>> {
    Seq::new(args.len(), |i: int| claim_of(cx, env, args[i], opt_flag(moves, i), opt_flag(muts, i)))
}

/// The claim of the receiver, where its binding is moved.
pub open spec fn receiver_claim(cx: CxV, env: Map<Seq<char>, TypeV>, kind: ClaimKind, receiver: Expr) -> Option<ArgClaimV> {
    match place::place_of(receiver) {
        Some(p) => if borrows::binding_moves(cx, env, p.root) {
            Some(ArgClaimV { kind, place: p, span: receiver.span })
        } else {
            None
        },
        None => None,
    }
}

/// What two claims that overlap lead to; a pair that is met twice is reported once.
pub open spec fn direct_conflict(a: ArgClaimV, b: ArgClaimV, i: nat, j: nat) -> Option<RawDiagV> {
    let overlap = place::overlap_of(a.place, b.place);
    let both = a.span.merge_spec(b.span);
    let name = a.place.root;
    if overlap == PlaceOverlap::Contains || overlap == PlaceOverlap::Contained {
        if j < i {
            None
        } else {
            Some(messages::partial_overlap(name, place::canonical_text(a.place), place::canonical_text(b.place), a.span, both, b.span))
        }
    } else if j < i {
        None
    } else {
        match (a.kind, b.kind) {
            (ClaimKind::Exclusive, ClaimKind::Exclusive) => Some(messages::exclusive_twice(name, a.span, b.span, both)),
            (ClaimKind::Exclusive, ClaimKind::Move) => Some(messages::exclusive_and_moved(name, a.span, b.span, both)),
            (ClaimKind::Move, ClaimKind::Exclusive) => Some(messages::exclusive_and_moved(name, b.span, a.span, both)),
            _ => None,
        }
    }
}

/// A field expression that names a method rather than a field.
pub open spec fn names_method(cx: CxV, env: Map<Seq<char>, TypeV>, e: Expr) -> bool {
    match e.kind {
        ExprKind::Field { receiver, name } => match borrows::place_type(cx, env, *receiver) {
            Some(t) => match sigs::look(cx.sigs.struct_fields, t) {
                Some(fs) => !fs.dom().contains(name.name@),
                None => false,
            },
            None => false,
        },
        _ => false,
    }
}

/// What a sibling argument that reads the claimed place leads to.
pub open spec fn sibling_conflict(cx: CxV, env: Map<Seq<char>, TypeV>, a: ArgClaimV, other: Expr) -> Option<RawDiagV> {
    if names_method(cx, env, other) {
        None
    } else {
        match walks::overlapping_expr(None, a.place, &other) {
            None => None,
            Some((overlap, at)) => {
                let both = a.span.merge_spec(at);
                let name = a.place.root;
                if overlap == PlaceOverlap::Contains || overlap == PlaceOverlap::Contained {
                    Some(messages::partial_sibling_read(name, a.span, at, both))
                } else {
                    match a.kind {
                        ClaimKind::Move => Some(messages::moved_and_read(name, a.span, at, both)),
                        ClaimKind::Exclusive => Some(messages::exclusive_and_read(name, a.span, at, both)),
                        ClaimKind::Shared => None,
                    }
                }
            },
        }
    }
}

/// What an argument that touches the receiver leads to.
pub open spec fn receiver_conflict(
    cx: CxV,
    env: Map<Seq<char>, TypeV>,
    rc: ArgClaimV,
    claim: Option<ArgClaimV>,
    arg: Expr,
) -> Option<RawDiagV> {
    let name = rc.place.root;
    match claim {
        Some(c) => if place::overlap_of(rc.place, c.place) == PlaceOverlap::Disjoint {
            None
        } else {
            let both = rc.span.merge_spec(c.span);
            match (rc.kind, c.kind) {
                (ClaimKind::Shared, ClaimKind::Shared) => None,
                (ClaimKind::Shared, ClaimKind::Move) => Some(messages::receiver_moved_by_arg(name, c.span, rc.span, both)),
                (ClaimKind::Shared, ClaimKind::Exclusive) => Some(messages::receiver_borrowed_by_arg(name, c.span, rc.span, both)),
                _ => direct_conflict(rc, c, 0, 1),
            }
        },
        None => if rc.kind == ClaimKind::Shared {
            None
        } else {
            match place::place_of(arg) {
                Some(p) => if place::overlap_of(rc.place, p) == PlaceOverlap::Same && borrows::binding_moves(cx, env, p.root) {
                    Some(messages::receiver_passed(name, arg.span, rc.span, rc.span.merge_spec(arg.span)))
                } else {
                    None
                },
                None => None,
            }
        },
    }
}

pub open spec fn push_opt(acc: Seq<RawDiagV>, d: Option<RawDiagV>) -> Seq<RawDiagV> {
    match d {
        Some(x) => acc.push(x),
        None => acc,
    }
}

pub open spec fn receiver_conflicts(
    cx: CxV,
    env: Map<Seq<char>, TypeV>,
    acc: Seq<RawDiagV>,
    rc: ArgClaimV,
    claims: Seq<Option<ArgClaimV>>,
    args: Seq<Expr>,
    j: nat,
) -> Seq<RawDiagV>
    decreases args.len() - j,
{
    if j >= args.len() {
        acc
    } else {
        receiver_conflicts(
            cx,
            env,
            push_opt(acc, receiver_conflict(cx, env, rc, claims[j as int], args[j as int])),
            rc,
            claims,
            args,
            j + 1,
        )
    }
}

pub open spec fn pair_conflict(
    cx: CxV,
    env: Map<Seq<char>, TypeV>,
    a: ArgClaimV,
    i: nat,
    claims: Seq<Option<ArgClaimV>>,
    args: Seq<Expr>,
    j: nat,
) -> Option<RawDiagV> {
    if i == j {
        None
    } else {
        match claims[j as int] {
            Some(b) => if place::overlap_of(a.place, b.place) == PlaceOverlap::Disjoint {
                None
            } else {
                direct_conflict(a, b, i, j)
            },
            None => sibling_conflict(cx, env, a, args[j as int]),
        }
    }
}

pub open spec fn row_conflicts(
    cx: CxV,
    env: Map<Seq<char>, TypeV>,
    acc: Seq<RawDiagV>,
    a: ArgClaimV,
    i: nat,
    claims: Seq<Option<ArgClaimV>>,
    args: Seq<Expr>,
    j: nat,
) -> Seq<RawDiagV>
    decreases args.len() - j,
{
    if j >= args.len() {
        acc
    } else {
        row_conflicts(cx, env, push_opt(acc, pair_conflict(cx, env, a, i, claims, args, j)), a, i, claims, args, j + 1)
    }
}

pub open spec fn all_conflicts(
    cx: CxV,
    env: Map<Seq<char>, TypeV>,
    acc: Seq<RawDiagV>,
    claims: Seq<Option<ArgClaimV>>,
    args: Seq<Expr>,
    i: nat,
) -> Seq<RawDiagV>
    decreases args.len() - i,
{
    if i >= args.len() {
        acc
    } else {
        all_conflicts(
            cx,
            env,
            match claims[i as int] {
                Some(a) => row_conflicts(cx, env, acc, a, i, claims, args, 0),
                None => acc,
            },
            claims,
            args,
            i + 1,
        )
    }
}

/// The conflicts among the receiver and the arguments of one call, after those found so far.
pub open spec fn call_conflicts(
    cx: CxV,
    env: Map<Seq<char>, TypeV>,
    acc: Seq<RawDiagV>,
    args: Seq<Expr>,
    moves: Option<Seq<bool>>,
    muts: Option<Seq<bool>>,
    receiver: Option<(ClaimKind, Expr)>,
) -> Seq<RawDiagV> {
    let claims = claims_of(cx, env, args, moves, muts);
    let acc = match receiver {
        Some((kind, r)) => match receiver_claim(cx, env, kind, r) {
            Some(rc) => receiver_conflicts(cx, env, acc, rc, claims, args, 0),
            None => acc,
        },
        None => acc,
    };
    all_conflicts(cx, env, acc, claims, args, 0)
}

pub open spec fn opt_diag(d: Option<RawDiag>) -> Option<RawDiagV> {
    match d {
        Some(x) => Some(x@),
        None => None,
    }
}

pub open spec fn opt_claim(c: Option<ArgClaim>) -> Option<ArgClaimV> {
    match c {
        Some(x) => Some(x.deep_view()),
        None => None,
    }
}

pub fn build_direct_claim_diag(a: &ArgClaim, b: &ArgClaim, i: usize, j: usize) -> (r: Option<RawDiag>)
    ensures
        opt_diag(r) == direct_conflict(a.deep_view(), b.deep_view(), i as nat, j as nat),
{
    if j < i {
        return None;
    }
    let both = a.span.merge(b.span);
    let name = a.place.root.as_str();
    let partial = match a.place.overlap(&b.place) {
        PlaceOverlap::Contains => true,
        PlaceOverlap::Contained => true,
        _ => false,
    };
    if partial {
        return Some(
            report_partial_overlap(
                name,
                a.place.canonical().as_str(),
                b.place.canonical().as_str(),
                a.span,
                both,
                b.span,
            ),
        );
    }
    match (a.kind, b.kind) {
        (ClaimKind::Exclusive, ClaimKind::Exclusive) => Some(report_exclusive_twice(name, a.span, b.span, both)),
        (ClaimKind::Exclusive, ClaimKind::Move) => Some(report_exclusive_and_moved(name, a.span, b.span, both)),
        (ClaimKind::Move, ClaimKind::Exclusive) => Some(report_exclusive_and_moved(name, b.span, a.span, both)),
        _ => None,
    }
}

impl World {
    pub fn is_method_ref(&self, cx: &Cx, e: &Expr) -> (r: bool)
        ensures
            r == names_method(cx@, self@.env(), *e),
    {
        match &e.kind {
            ExprKind::Field { receiver, name } => match self.place_type_name(cx, receiver) {
                Some(t) => match cx.sigs.struct_fields.get(t.as_str()) {
                    Some(fs) => !fs.contains(name.name.as_str()),
                    None => false,
                },
                None => false,
            },
            _ => false,
        }
    }

    fn find_overlapping_shared_read(&self, cx: &Cx, a: &ArgClaim, other: &Expr) -> (r: Option<RawDiag>)
        ensures
            opt_diag(r) == sibling_conflict(cx@, self@.env(), a.deep_view(), *other),
    {
        if self.is_method_ref(cx, other) {
            return None;
        }
        let mut found: Option<(PlaceOverlap, Span)> = None;
        scan_overlapping_expr(&mut found, &a.place, other);
        match found {
            None => None,
            Some((overlap, at)) => {
                let both = a.span.merge(at);
                let name = a.place.root.as_str();
                let partial = match overlap {
                    PlaceOverlap::Contains => true,
                    PlaceOverlap::Contained => true,
                    _ => false,
                };
                if partial {
                    return Some(report_partial_sibling_read(name, a.span, at, both));
                }
                match a.kind {
                    ClaimKind::Move => Some(report_moved_and_read(name, a.span, at, both)),
                    ClaimKind::Exclusive => Some(report_exclusive_and_read(name, a.span, at, both)),
                    ClaimKind::Shared => None,
                }
            },
        }
    }

    fn arg_claim(&self, cx: &Cx, arg: &Expr, moved: bool, lent: bool) -> (r: Option<ArgClaim>)
        ensures
            opt_claim(r) == claim_of(cx@, self@.env(), *arg, moved, lent),
    {
        match place_from_expr(arg) {
            Some(p) => {
                if moved {
                    if self.binding_is_non_copy(cx, p.root.as_str()) {
                        Some(ArgClaim { kind: ClaimKind::Move, place: p, span: arg.span })
                    } else {
                        None
                    }
                } else if lent {
                    Some(ArgClaim { kind: ClaimKind::Exclusive, place: p, span: arg.span })
                } else {
                    None
                }
            },
            None => None,
        }
    }

    fn check_against_receiver(&self, cx: &Cx, rc: &ArgClaim, claim: &Option<ArgClaim>, arg: &Expr) -> (r: Option<RawDiag>)
        ensures
            opt_diag(r) == receiver_conflict(cx@, self@.env(), rc.deep_view(), opt_claim(*claim), *arg),
    {
        let name = rc.place.root.as_str();
        match claim {
            Some(c) => {
                if !rc.place.conflicts_with(&c.place) {
                    return None;
                }
                let both = rc.span.merge(c.span);
                match (rc.kind, c.kind) {
                    (ClaimKind::Shared, ClaimKind::Shared) => None,
                    (ClaimKind::Shared, ClaimKind::Move) => Some(
                        report_receiver_moved_by_arg(name, c.span, rc.span, both),
                    ),
                    (ClaimKind::Shared, ClaimKind::Exclusive) => Some(
                        report_receiver_borrowed_by_arg(name, c.span, rc.span, both),
                    ),
                    _ => build_direct_claim_diag(rc, c, 0, 1),
                }
            },
            None => {
                let holds = match rc.kind {
                    ClaimKind::Shared => false,
                    _ => true,
                };
                if !holds {
                    return None;
                }
                match place_from_expr(arg) {
                    Some(p) => {
                        let same = match rc.place.overlap(&p) {
                            PlaceOverlap::Same => true,
                            _ => false,
                        };
                        if same && self.binding_is_non_copy(cx, p.root.as_str()) {
                            Some(report_receiver_passed(name, arg.span, rc.span, rc.span.merge(arg.span)))
                        } else {
                            None
                        }
                    },
                    None => None,
                }
            },
        }
    }

    fn collect_claims(&self, cx: &Cx, args: &Vec<Expr>, moves: &Option<Vec<bool>>, muts: &Option<Vec<bool>>) -> (r: Vec<
        Option<ArgClaim>,
    >)
        ensures
            r@.len() == args@.len(),
            r.deep_view() == claims_of(cx@, self@.env(), args@, opt_flags(*moves), opt_flags(*muts)),
    {
        let mut out: Vec<Option<ArgClaim>> = Vec::new();
        let mut i: usize = 0;
        while i < args.len()
            invariant
                i <= args@.len(),
                out@.len() == i,
                forall|j: int|
                    0 <= j < i ==> opt_claim(#[trigger] out@[j]) == claim_of(
                        cx@,
                        self@.env(),
                        args@[j],
                        opt_flag(opt_flags(*moves), j),
                        opt_flag(opt_flags(*muts), j),
                    ),
            decreases args@.len() - i,
        {
            out.push(self.arg_claim(cx, &args[i], flag_in(moves, i), flag_in(muts, i)));
            i += 1;
        }
        assert(out.deep_view() =~= claims_of(cx@, self@.env(), args@, opt_flags(*moves), opt_flags(*muts))) by {
            assert forall|j: int| 0 <= j < out@.len() implies #[trigger] out.deep_view()[j] == opt_claim(out@[j]) by {}
        }
        out
    }

    fn push_diag(&mut self, d: Option<RawDiag>)
        ensures
            final(self)@ == (WorldV { diags: push_opt(old(self)@.diags, opt_diag(d)), ..old(self)@ }),
    {
        if let Some(x) = d {
            self.report(x);
        }
    }

    fn pair_diag(&self, cx: &Cx, a: &ArgClaim, i: usize, claims: &Vec<Option<ArgClaim>>, args: &Vec<Expr>, j: usize) -> (r: Option<
        RawDiag,
    >)
        requires
            j < args@.len(),
            claims@.len() == args@.len(),
        ensures
            opt_diag(r) == pair_conflict(cx@, self@.env(), a.deep_view(), i as nat, claims.deep_view(), args@, j as nat),
    {
        if i == j {
            return None;
        }
        assert(claims.deep_view()[j as int] == opt_claim(claims@[j as int]));
        match &claims[j] {
            Some(b) => {
                if !a.place.conflicts_with(&b.place) {
                    return None;
                }
                build_direct_claim_diag(a, b, i, j)
            },
            None => self.find_overlapping_shared_read(cx, a, &args[j]),
        }
    }

    /// Reports the conflicts among the receiver and the arguments of one call.
    pub fn check_intra_call_conflicts(
        &mut self,
        cx: &Cx,
        args: &Vec<Expr>,
        moves: &Option<Vec<bool>>,
        muts: &Option<Vec<bool>>,
        receiver: Option<(ClaimKind, &Expr)>,
    )
        ensures
            final(self)@ == (WorldV {
                diags: call_conflicts(
                    cx@,
                    old(self)@.env(),
                    old(self)@.diags,
                    args@,
                    opt_flags(*moves),
                    opt_flags(*muts),
                    match receiver {
                        Some((k, e)) => Some((k, *e)),
                        None => None,
                    },
                ),
                ..old(self)@
            }),
    {
        let claims = self.collect_claims(cx, args, moves, muts);
        let ghost env = self@.env();
        let ghost w0 = self@;
        let ghost cv = claims.deep_view();
        if let Some((kind, r)) = receiver {
            let mut rc: Option<ArgClaim> = None;
            if let Some(p) = place_from_expr(r) {
                if self.binding_is_non_copy(cx, p.root.as_str()) {
                    rc = Some(ArgClaim { kind, place: p, span: r.span });
                }
            }
            assert(opt_claim(rc) == receiver_claim(cx@, env, kind, *r));
            if let Some(c) = &rc {
                let ghost start = self@.diags;
                let mut j: usize = 0;
                while j < args.len()
                    invariant
                        j <= args@.len() == claims@.len(),
                        cv == claims.deep_view(),
                        self@ == (WorldV { diags: self@.diags, ..w0 }),
                        self@.env() == env,
                        receiver_conflicts(cx@, env, self@.diags, c.deep_view(), cv, args@, j as nat)
                            == receiver_conflicts(cx@, env, start, c.deep_view(), cv, args@, 0),
                    decreases args@.len() - j,
                {
                    assert(cv[j as int] == opt_claim(claims@[j as int]));
                    let d = self.check_against_receiver(cx, c, &claims[j], &args[j]);
                    self.push_diag(d);
                    assert(self@.env() =~= env);
                    j += 1;
                }
            }
        }
        let ghost mid = self@.diags;
        let mut i: usize = 0;
        while i < args.len()
            invariant
                i <= args@.len() == claims@.len(),
                cv == claims.deep_view(),
                self@ == (WorldV { diags: self@.diags, ..w0 }),
                self@.env() == env,
                all_conflicts(cx@, env, self@.diags, cv, args@, i as nat) == all_conflicts(cx@, env, mid, cv, args@, 0),
            decreases args@.len() - i,
        {
            assert(cv[i as int] == opt_claim(claims@[i as int]));
            if let Some(a) = &claims[i] {
                let ghost row = self@.diags;
                let mut j: usize = 0;
                while j < args.len()
                    invariant
                        i < args@.len(),
                        j <= args@.len() == claims@.len(),
                        cv == claims.deep_view(),
                        self@ == (WorldV { diags: self@.diags, ..w0 }),
                        self@.env() == env,
                        row_conflicts(cx@, env, self@.diags, a.deep_view(), i as nat, cv, args@, j as nat)
                            == row_conflicts(cx@, env, row, a.deep_view(), i as nat, cv, args@, 0),
                    decreases args@.len() - j,
                {
                    let d = self.pair_diag(cx, a, i, &claims, args, j);
                    self.push_diag(d);
                    assert(self@.env() =~= env);
                    j += 1;
                }
            }
            i += 1;
        }
    }
}

} // verus!
