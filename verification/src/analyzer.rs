//! The walk over a function's body: how every statement and expression changes ownership.
use vstd::prelude::*;
use vstd::string::*;
use crate::ast;
use crate::borrows;
use crate::conflicts;
use crate::flow;
use crate::infer;
use crate::messages;
use crate::ordered;
use crate::place;
use crate::sigs;
use crate::text;
use crate::walks;
use crate::ast::{AsmOperand, Block, Expr, ExprKind, FieldInit, ForLoop, Ident, InterpStrPart, MatchArm, Param, Pattern, Receiver, Span, Stmt, StmtKind, Type, TypeKind, TypeKindV, TypeV, clone_types};
use crate::borrows::{BindingType, Cx, CxV, LiveV, SourcesV, World, WorldV, clone_borrowers};
use crate::conflicts::flag_in;
use crate::elision::BorrowFlavor;
use crate::flow::any_flag;
use crate::infer::{add_pattern_types, field_type, is_view_ty};
use crate::messages::{RawDiag, RawDiagV, report_outlived};
use crate::ordered::{NameList, NameListV, OrdMap};
use crate::place::{FunctionAnalysis, FunctionAnalysisV, Place, PlaceState, PlaceStateV, PlaceV, PointSnapshot, PointSnapshotV, Projection, ProjectionV, State, StateV, clone_state, place_from_expr};
use crate::sigs::{ClaimKind, FnEntryV, bindings, clone_flags, effective_keeps, flag, key_of, subst_type};
use crate::table::NameSet;
use crate::text::{decimal_text, str_eq};
use crate::walks::{block_diverges, collect_names_expr, collect_names_stmt, expr_diverges};

verus! {

// ---------------------------------------------------------------------------
// States where paths meet.

/// The state of a place over the arms, from `i` on.
pub open spec fn merged_over(arms: Seq<StateV>, p: PlaceV, acc: PlaceStateV, i: nat) -> PlaceStateV
    decreases arms.len() - i,
{
    if i >= arms.len() {
        acc
    } else {
        merged_over(arms, p, place::merged(acc, arm_state(arms[i as int], p)), i + 1)
    }
}

/// The state that an arm leaves a place in; a place it does not list is owned.
pub open spec fn arm_state(arm: StateV, p: PlaceV) -> PlaceStateV {
    match place::st_get(arm, p) {
        Some(s) => s,
        None => PlaceStateV::Owned,
    }
}

/// The arms that reach the meeting point.
pub open spec fn reaching(arms: Seq<StateV>, leaves: Seq<bool>, acc: Seq<StateV>, i: nat) -> Seq<StateV>
    decreases arms.len() - i,
{
    if i >= arms.len() || i >= leaves.len() {
        acc
    } else {
        reaching(
            arms,
            leaves,
            if leaves[i as int] {
                acc
            } else {
                acc.push(arms[i as int])
            },
            i + 1,
        )
    }
}

/// The state after a branch: the places known before it, each merged over the arms that
/// reach the end; unchanged where none does.
pub open spec fn merge_arms(pre: StateV, arms: Seq<StateV>, leaves: Seq<bool>) -> StateV {
    let live = reaching(arms, leaves, Seq::empty(), 0);
    if live.len() == 0 {
        pre
    } else {
        Seq::new(pre.len(), |k: int| (pre[k].0, merged_over(live, pre[k].0, arm_state(live[0], pre[k].0), 1)))
    }
}

/// Merging keeps exactly the places that were known before the branch.
pub proof fn merge_keeps_places(pre: StateV, arms: Seq<StateV>, leaves: Seq<bool>)
    ensures
        merge_arms(pre, arms, leaves).len() == pre.len(),
        forall|k: int| 0 <= k < pre.len() ==> (#[trigger] merge_arms(pre, arms, leaves)[k]).0 == pre[k].0,
{
}

/// An arm that leaves has no say in the merged state.
pub proof fn leaving_arms_do_not_count(pre: StateV, a: StateV, b: StateV)
    ensures
        merge_arms(pre, seq![a, b], seq![true, false]) == merge_arms(pre, seq![b], seq![false]),
        merge_arms(pre, seq![a, b], seq![false, true]) == merge_arms(pre, seq![a], seq![false]),
        merge_arms(pre, seq![a, b], seq![true, true]) == pre,
{
    let e = Seq::<StateV>::empty();
    reveal_with_fuel(reaching, 3);
    assert(reaching(seq![a, b], seq![true, false], e, 0) =~= seq![b]);
    assert(reaching(seq![b], seq![false], e, 0) =~= seq![b]);
    assert(reaching(seq![a, b], seq![false, true], e, 0) =~= seq![a]);
    assert(reaching(seq![a], seq![false], e, 0) =~= seq![a]);
}

pub fn merge_branches(pre: &State, arms: &Vec<State>, leaves: &Vec<bool>) -> (r: State)
    ensures
        r@ == merge_arms(pre@, arms.deep_view(), leaves@),
{
    let mut live: Vec<&State> = Vec::new();
    let mut i: usize = 0;
    assert(live.deep_view() =~= Seq::<StateV>::empty());
    while i < arms.len() && i < leaves.len()
        invariant
            i <= arms@.len(),
            i <= leaves@.len(),
            reaching(arms.deep_view(), leaves@, live.deep_view(), i as nat) == reaching(
                arms.deep_view(),
                leaves@,
                Seq::empty(),
                0,
            ),
        decreases arms@.len() - i,
    {
        if !leaves[i] {
            let ghost before = live.deep_view();
            live.push(&arms[i]);
            assert(live.deep_view() =~= before.push(arms.deep_view()[i as int]));
        }
        i += 1;
    }
    if live.len() == 0 {
        return clone_state(pre);
    }
    let ghost lv = live.deep_view();
    let mut out: State = OrdMap { entries: Vec::new() };
    let mut k: usize = 0;
    while k < pre.entries.len()
        invariant
            k <= pre.entries@.len(),
            live@.len() > 0,
            lv == live.deep_view(),
            out.entries@.len() == k,
            forall|j: int|
                0 <= j < k ==> (#[trigger] out@[j]) == (
                    pre@[j].0,
                    merged_over(lv, pre@[j].0, arm_state(lv[0], pre@[j].0), 1),
                ),
        decreases pre.entries@.len() - k,
    {
        let p = &pre.entries[k].0;
        assert(pre@[k as int].0 == p@);
        let mut acc: PlaceState = state_in_arm(live[0], p);
        let mut m: usize = 1;
        let ghost first = arm_state(lv[0], p@);
        while m < live.len()
            invariant
                1 <= m <= live@.len(),
                lv == live.deep_view(),
                merged_over(lv, p@, acc@, m as nat) == merged_over(lv, p@, first, 1),
            decreases live@.len() - m,
        {
            assert(lv[m as int] == live@[m as int]@);
            acc = acc.merge(&state_in_arm(live[m], p));
            m += 1;
        }
        let ghost before = out@;
        out.entries.push((p.clone(), acc));
        assert(forall|j: int| 0 <= j < k ==> (#[trigger] out@[j]) == before[j]);
        k += 1;
    }
    assert(out@ =~= merge_arms(pre@, arms.deep_view(), leaves@));
    out
}

fn state_in_arm(arm: &State, p: &Place) -> (r: PlaceState)
    ensures
        r@ == arm_state(arm@, p@),
{
    match arm.get(p) {
        Some(s) => s.clone(),
        None => PlaceState::Owned,
    }
}

/// The entries whose places are also in `outer`.
pub open spec fn retained(acc: StateV, s: StateV, outer: StateV, i: nat) -> StateV
    decreases s.len() - i,
{
    if i >= s.len() {
        acc
    } else {
        retained(
            if place::st_has(outer, s[i as int].0) {
                acc.push(s[i as int])
            } else {
                acc
            },
            s,
            outer,
            i + 1,
        )
    }
}

pub open spec fn retain(s: StateV, outer: StateV) -> StateV {
    retained(Seq::empty(), s, outer, 0)
}

fn retain_state(s: &State, outer: &State) -> (r: State)
    ensures
        r@ == retain(s@, outer@),
{
    let mut out: State = OrdMap { entries: Vec::new() };
    let mut i: usize = 0;
    assert(out@ =~= Seq::<(PlaceV, PlaceStateV)>::empty());
    while i < s.entries.len()
        invariant
            i <= s.entries@.len(),
            retained(out@, s@, outer@, i as nat) == retained(Seq::empty(), s@, outer@, 0),
        decreases s.entries@.len() - i,
    {
        assert(s@[i as int] == (s.entries@[i as int].0@, s.entries@[i as int].1@));
        if outer.contains(&s.entries[i].0) {
            let ghost before = out@;
            out.entries.push((s.entries[i].0.clone(), s.entries[i].1.clone()));
            assert(out@ =~= before.push(s@[i as int]));
        }
        i += 1;
    }
    out
}

// ---------------------------------------------------------------------------
// When borrowers are last used.

/// The names that must keep their borrows to the end of the block: those in its tail and
/// those in its `defer` statements.
pub open spec fn pinned_from(acc: Set<Seq<char>>, ss: Seq<Stmt>, i: nat) -> Set<Seq<char>>
    decreases ss.len() - i,
{
    if i >= ss.len() {
        acc
    } else {
        pinned_from(
            match ss[i as int].kind {
                StmtKind::Defer(_) => acc.union(walks::names_stmt(Set::empty(), &ss[i as int])),
                _ => acc,
            },
            ss,
            i + 1,
        )
    }
}

pub open spec fn pinned(b: Block) -> Set<Seq<char>> {
    pinned_from(
        match b.tail {
            Some(t) => walks::names_expr(Set::empty(), &*t),
            None => Set::empty(),
        },
        b.stmts@,
        0,
    )
}

/// The last statement at or before `j` and after `i` that mentions the name, or else `i`.
pub open spec fn last_mention(ss: Seq<Stmt>, name: Seq<char>, i: nat, j: nat) -> nat
    decreases j,
{
    if j <= i {
        i
    } else if j < ss.len() && walks::names_stmt(Set::empty(), &ss[j as int]).contains(name) {
        j
    } else {
        last_mention(ss, name, i, (j - 1) as nat)
    }
}

pub open spec fn ident_names(ids: Seq<Ident>) -> Seq<Seq<char>> {
    Seq::new(ids.len(), |i: int| ids[i].name@)
}

/// The bindings of a statement that may give their borrows back before the block ends: all
/// but those whose destructor has yet to run.
pub open spec fn early_names(cx: CxV, env: Map<Seq<char>, TypeV>, s: Stmt) -> Seq<Seq<char>> {
    match s.kind {
        StmtKind::Let { name, ty, init, .. } => {
            let declared = match ty {
                Some(t) => Some(t@),
                None => match init {
                    Some(e) => infer::infer(cx.sigs, env, e),
                    None => None,
                },
            };
            match declared {
                Some(t) if cx.oracle.has_drop(t) => Seq::empty(),
                _ => seq![name.name@],
            }
        },
        StmtKind::LetDestructure { fields, .. } => ident_names(fields@),
        _ => Seq::empty(),
    }
}

pub open spec fn add_uses(
    acc: Seq<(Seq<char>, nat)>,
    names: Seq<Seq<char>>,
    pins: Set<Seq<char>>,
    ss: Seq<Stmt>,
    i: nat,
    k: nat,
) -> Seq<(Seq<char>, nat)>
    decreases names.len() - k,
{
    if k >= names.len() {
        acc
    } else {
        add_uses(
            if pins.contains(names[k as int]) {
                acc
            } else {
                acc.push((names[k as int], last_mention(ss, names[k as int], i, (ss.len() - 1) as nat)))
            },
            names,
            pins,
            ss,
            i,
            k + 1,
        )
    }
}

pub open spec fn last_uses_from(
    cx: CxV,
    env: Map<Seq<char>, TypeV>,
    acc: Seq<(Seq<char>, nat)>,
    pins: Set<Seq<char>>,
    ss: Seq<Stmt>,
    i: nat,
) -> Seq<(Seq<char>, nat)>
    decreases ss.len() - i,
{
    if i >= ss.len() {
        acc
    } else {
        last_uses_from(cx, env, add_uses(acc, early_names(cx, env, ss[i as int]), pins, ss, i, 0), pins, ss, i + 1)
    }
}

/// After which statement each binding of the block gives its borrows back.
pub open spec fn last_uses(cx: CxV, env: Map<Seq<char>, TypeV>, b: Block) -> Seq<(Seq<char>, nat)> {
    last_uses_from(cx, env, Seq::empty(), pinned(b), b.stmts@, 0)
}

impl WorldV {
    /// Drops the borrowers whose last use is statement `i`.
    pub open spec fn release_after(self, uses: Seq<(Seq<char>, nat)>, i: nat, k: nat) -> WorldV
        decreases uses.len() - k,
    {
        if k >= uses.len() {
            self
        } else {
            (if uses[k as int].1 == i {
                self.drop_borrower(uses[k as int].0)
            } else {
                self
            }).release_after(uses, i, k + 1)
        }
    }
}

/// A binding and the statement after which it gives its borrows back.
pub struct LastUse {
    pub name: String,
    pub at: usize,
}

impl DeepView for LastUse {
    type V = (Seq<char>, nat);

    open spec fn deep_view(&self) -> (Seq<char>, nat) {
        (self.name@, self.at as nat)
    }
}

fn add_set(out: &mut NameSet, other: &NameSet)
    ensures
        final(out)@ == old(out)@.union(other@),
{
    let ghost start = out@;
    let mut i: usize = 0;
    while i < other.names.entries.len()
        invariant
            i <= other.names.entries@.len(),
            forall|n: Seq<char>|
                #[trigger] out@.contains(n) <==> start.contains(n) || exists|k: int|
                    0 <= k < i && (#[trigger] other.names.entries@[k]).0@ == n,
        decreases other.names.entries@.len() - i,
    {
        let ghost before = out@;
        out.insert(other.names.entries[i].0.clone());
        assert forall|n: Seq<char>| #[trigger] out@.contains(n) <==> start.contains(n) || exists|k: int|
            0 <= k < i + 1 && (#[trigger] other.names.entries@[k]).0@ == n by {
            assert(before.contains(n) <==> start.contains(n) || exists|k: int|
                0 <= k < i && (#[trigger] other.names.entries@[k]).0@ == n);
            if n == other.names.entries@[i as int].0@ {
                assert(out@.contains(n));
            }
        }
        i += 1;
    }
    proof {
        assert forall|n: Seq<char>| #[trigger] out@.contains(n) <==> start.union(other@).contains(n) by {
            other.names.lemma_dom(n);
        }
        assert(out@ =~= start.union(other@));
    }
}

fn pinned_names(b: &Block, mentions: &Vec<NameSet>) -> (r: NameSet)
    requires
        mentions@.len() == b.stmts@.len(),
        forall|i: int| 0 <= i < mentions@.len() ==> (#[trigger] mentions@[i])@ == walks::names_stmt(Set::empty(), &b.stmts@[i]),
    ensures
        r@ == pinned(*b),
{
    let mut out = NameSet::new();
    if let Some(t) = &b.tail {
        collect_names_expr(&mut out, t);
    }
    let ghost start = out@;
    let mut i: usize = 0;
    while i < b.stmts.len()
        invariant
            i <= b.stmts@.len() == mentions@.len(),
            forall|k: int| 0 <= k < mentions@.len() ==> (#[trigger] mentions@[k])@ == walks::names_stmt(Set::empty(), &b.stmts@[k]),
            pinned_from(out@, b.stmts@, i as nat) == pinned_from(start, b.stmts@, 0),
        decreases b.stmts@.len() - i,
    {
        if let StmtKind::Defer(_) = &b.stmts[i].kind {
            add_set(&mut out, &mentions[i]);
        }
        i += 1;
    }
    out
}

fn find_last(mentions: &Vec<NameSet>, name: &str, i: usize, Ghost(ss): Ghost<Seq<Stmt>>) -> (r: usize)
    requires
        i < mentions@.len() == ss.len(),
        forall|k: int| 0 <= k < mentions@.len() ==> (#[trigger] mentions@[k])@ == walks::names_stmt(Set::empty(), &ss[k]),
    ensures
        r as nat == last_mention(ss, name@, i as nat, (ss.len() - 1) as nat),
{
    let mut j: usize = mentions.len() - 1;
    while j > i
        invariant
            i <= j < mentions@.len() == ss.len(),
            forall|k: int| 0 <= k < mentions@.len() ==> (#[trigger] mentions@[k])@ == walks::names_stmt(Set::empty(), &ss[k]),
            last_mention(ss, name@, i as nat, j as nat) == last_mention(ss, name@, i as nat, (ss.len() - 1) as nat),
        decreases j,
    {
        if mentions[j].contains(name) {
            return j;
        }
        j -= 1;
    }
    i
}

impl World {
    fn early_release_names(&self, cx: &Cx, s: &Stmt) -> (r: Vec<String>)
        ensures
            r.deep_view() == early_names(cx@, self@.env(), *s),
    {
        let mut out: Vec<String> = Vec::new();
        match &s.kind {
            StmtKind::Let { name, ty, init, .. } => {
                let held = match ty {
                    Some(t) => cx.oracle.type_has_drop(t),
                    None => match init {
                        Some(e) => match self.infer_expr_type(cx, e) {
                            Some(t) => cx.oracle.type_has_drop(&t),
                            None => false,
                        },
                        None => false,
                    },
                };
                if !held {
                    out.push(name.name.clone());
                }
                assert(out.deep_view() =~= early_names(cx@, self@.env(), *s));
            },
            StmtKind::LetDestructure { fields, .. } => {
                let mut i: usize = 0;
                while i < fields.len()
                    invariant
                        i <= fields@.len(),
                        out@.len() == i,
                        forall|j: int| 0 <= j < i ==> (#[trigger] out@[j])@ == fields@[j].name@,
                    decreases fields@.len() - i,
                {
                    out.push(fields[i].name.clone());
                    i += 1;
                }
                assert(out.deep_view() =~= ident_names(fields@));
            },
            _ => {
                assert(out.deep_view() =~= Seq::<Seq<char>>::empty());
            },
        }
        out
    }

    fn nll_release_schedule(&self, cx: &Cx, b: &Block) -> (r: Vec<LastUse>)
        ensures
            r.deep_view() == last_uses(cx@, self@.env(), *b),
    {
        let mut mentions: Vec<NameSet> = Vec::new();
        let mut m: usize = 0;
        while m < b.stmts.len()
            invariant
                m <= b.stmts@.len(),
                mentions@.len() == m,
                forall|k: int| 0 <= k < m ==> (#[trigger] mentions@[k])@ == walks::names_stmt(Set::empty(), &b.stmts@[k]),
            decreases b.stmts@.len() - m,
        {
            let mut set = NameSet::new();
            collect_names_stmt(&mut set, &b.stmts[m]);
            mentions.push(set);
            m += 1;
        }
        let pins = pinned_names(b, &mentions);
        let ghost ss = b.stmts@;
        let ghost env = self@.env();
        let mut out: Vec<LastUse> = Vec::new();
        assert(out.deep_view() =~= Seq::<(Seq<char>, nat)>::empty());
        let mut i: usize = 0;
        while i < b.stmts.len()
            invariant
                i <= b.stmts@.len() == mentions@.len(),
                ss == b.stmts@,
                env == self@.env(),
                pins@ == pinned(*b),
                forall|k: int| 0 <= k < mentions@.len() ==> (#[trigger] mentions@[k])@ == walks::names_stmt(Set::empty(), &ss[k]),
                last_uses_from(cx@, env, out.deep_view(), pins@, ss, i as nat) == last_uses(cx@, env, *b),
            decreases b.stmts@.len() - i,
        {
            let names = self.early_release_names(cx, &b.stmts[i]);
            let ghost start = out.deep_view();
            let ghost nv = names.deep_view();
            let mut k: usize = 0;
            while k < names.len()
                invariant
                    i < mentions@.len() == ss.len(),
                    k <= names@.len(),
                    nv == names.deep_view(),
                    forall|q: int| 0 <= q < mentions@.len() ==> (#[trigger] mentions@[q])@ == walks::names_stmt(Set::empty(), &ss[q]),
                    add_uses(out.deep_view(), nv, pins@, ss, i as nat, k as nat) == add_uses(
                        start,
                        nv,
                        pins@,
                        ss,
                        i as nat,
                        0,
                    ),
                decreases names@.len() - k,
            {
                assert(nv[k as int] == names@[k as int]@);
                if !pins.contains(names[k].as_str()) {
                    let at: usize = find_last(&mentions, names[k].as_str(), i, Ghost(ss));
                    let ghost before = out.deep_view();
                    out.push(LastUse { name: names[k].clone(), at });
                    assert(out.deep_view() =~= before.push((nv[k as int], at as nat)));
                }
                k += 1;
            }
            i += 1;
        }
        out
    }

    fn release_after(&mut self, uses: &Vec<LastUse>, i: usize)
        ensures
            final(self)@ == old(self)@.release_after(uses.deep_view(), i as nat, 0),
    {
        let mut k: usize = 0;
        while k < uses.len()
            invariant
                k <= uses@.len(),
                self@.release_after(uses.deep_view(), i as nat, k as nat) == old(self)@.release_after(
                    uses.deep_view(),
                    i as nat,
                    0,
                ),
            decreases uses@.len() - k,
        {
            assert(uses.deep_view()[k as int] == (uses@[k as int].name@, uses@[k as int].at as nat));
            if uses[k].at == i {
                self.drop_borrower(uses[k].name.as_str());
            }
            k += 1;
        }
    }
}

// ---------------------------------------------------------------------------
// The end of a scope.

pub open spec fn listed(names: NameListV, n: Seq<char>) -> bool {
    ordered::ord_has::<String, ()>(names, n)
}

/// The roots of the places that the outer scope does not know, in order.
pub open spec fn dying_roots(acc: NameListV, s: StateV, outer: StateV, i: nat) -> NameListV
    decreases s.len() - i,
{
    if i >= s.len() {
        acc
    } else {
        dying_roots(
            if place::st_has(outer, s[i as int].0) {
                acc
            } else {
                ordered::ord_put::<String, ()>(acc, s[i as int].0.root, ())
            },
            s,
            outer,
            i + 1,
        )
    }
}

pub open spec fn live_without(acc: LiveV, l: LiveV, dying: NameListV, i: nat) -> LiveV
    decreases l.len() - i,
{
    if i >= l.len() {
        acc
    } else {
        live_without(
            if listed(dying, l[i as int].0.root) {
                acc
            } else {
                acc.push(l[i as int])
            },
            l,
            dying,
            i + 1,
        )
    }
}

/// One report for each dying owner that is still borrowed.
pub open spec fn escapes(acc: Seq<RawDiagV>, l: LiveV, dying: NameListV, seen: Set<Seq<char>>, i: nat) -> Seq<RawDiagV>
    decreases l.len() - i,
{
    if i >= l.len() {
        acc
    } else {
        let owner = l[i as int].0.root;
        let set = l[i as int].1;
        if !listed(dying, owner) || seen.contains(owner) {
            escapes(acc, l, dying, seen, i + 1)
        } else if set.len() > 0 {
            escapes(acc.push(messages::outlived(owner, set[0].0, set[0].1)), l, dying, seen.insert(owner), i + 1)
        } else {
            escapes(acc, l, dying, seen.insert(owner), i + 1)
        }
    }
}

impl WorldV {
    pub open spec fn drop_names(self, names: NameListV, i: nat) -> WorldV
        decreases names.len() - i,
    {
        if i >= names.len() {
            self
        } else {
            self.drop_borrower(names[i as int].0).drop_names(names, i + 1)
        }
    }

    /// Leaves a scope: its bindings give their borrows back, owners that are still borrowed
    /// are reported, and only what the outer scope knows remains.
    pub open spec fn end_scope(self, outer: StateV) -> WorldV {
        let dying = dying_roots(Seq::empty(), self.state, outer, 0);
        let w = self.drop_names(dying, 0);
        WorldV {
            diags: escapes(w.diags, w.live, dying, Set::empty(), 0),
            live: live_without(Seq::empty(), w.live, dying, 0),
            state: retain(w.state, outer),
            ..w
        }
    }
}

impl World {
    fn end_scope(&mut self, outer: &State)
        ensures
            final(self)@ == old(self)@.end_scope(outer@),
    {
        let ghost w0 = self@;
        let mut dying: NameList = OrdMap::new();
        let mut i: usize = 0;
        while i < self.state.entries.len()
            invariant
                i <= self.state.entries@.len(),
                self@ == w0,
                dying_roots(dying@, w0.state, outer@, i as nat) == dying_roots(Seq::empty(), w0.state, outer@, 0),
            decreases self.state.entries@.len() - i,
        {
            assert(w0.state[i as int].0 == self.state.entries@[i as int].0@);
            if !outer.contains(&self.state.entries[i].0) {
                dying.insert(self.state.entries[i].0.root.clone(), ());
            }
            i += 1;
        }
        let mut k: usize = 0;
        while k < dying.entries.len()
            invariant
                k <= dying.entries@.len(),
                self@.drop_names(dying@, k as nat) == w0.drop_names(dying@, 0),
            decreases dying.entries@.len() - k,
        {
            assert(dying@[k as int].0 == dying.entries@[k as int].0@);
            self.drop_borrower(dying.entries[k].0.as_str());
            k += 1;
        }
        let ghost w = self@;
        let mut seen = NameSet::new();
        let mut kept: OrdMap<Place, OrdMap<String, Span>> = OrdMap::new();
        let mut found: Vec<RawDiag> = Vec::new();
        std::mem::swap(&mut found, &mut self.diags);
        let mut m: usize = 0;
        while m < self.live.entries.len()
            invariant
                m <= self.live.entries@.len(),
                self.live@ == w.live,
                escapes(found.deep_view(), w.live, dying@, seen@, m as nat) == escapes(w.diags, w.live, dying@, Set::empty(), 0),
                live_without(kept@, w.live, dying@, m as nat) == live_without(Seq::empty(), w.live, dying@, 0),
            decreases self.live.entries@.len() - m,
        {
            let p = &self.live.entries[m].0;
            let set = &self.live.entries[m].1;
            assert(w.live[m as int] == (p@, set@));
            if dying.contains(&p.root) {
                if !seen.contains(p.root.as_str()) {
                    seen.insert(p.root.clone());
                    if set.entries.len() > 0 {
                        assert(set@[0] == (set.entries@[0].0@, set.entries@[0].1));
                        let d = report_outlived(p.root.as_str(), set.entries[0].0.as_str(), set.entries[0].1);
                        let ghost before = found.deep_view();
                        let ghost dv = d@;
                        found.push(d);
                        assert(found.deep_view() =~= before.push(dv));
                    }
                }
            } else {
                let ghost before = kept@;
                kept.entries.push((p.clone(), clone_borrowers(set)));
                assert(kept@ =~= before.push(w.live[m as int]));
            }
            m += 1;
        }
        self.diags = found;
        self.live = kept;
        self.state = retain_state(&self.state, outer);
    }
}

// ---------------------------------------------------------------------------
// Calls.

/// What is known of a call before its arguments are walked.
pub struct CallV {
    pub moves: Option<Seq<bool>>,
    pub muts: Option<Seq<bool>>,
    pub tys: Option<Seq<TypeV>>,
    pub claim: Option<ClaimKind>,
    /// The binding that keeps arguments, and which ones.
    pub tie: Option<(Seq<char>, Seq<bool>)>,
}

pub struct CallInfo {
    pub moves: Option<Vec<bool>>,
    pub muts: Option<Vec<bool>>,
    pub tys: Option<Vec<Type>>,
    pub claim: Option<ClaimKind>,
    pub tie: Option<(String, Vec<bool>)>,
}

pub open spec fn opt_types(ts: Option<Vec<Type>>) -> Option<Seq<TypeV>> {
    match ts {
        Some(v) => Some(ast::types_view(v@)),
        None => None,
    }
}

pub open spec fn opt_tie(t: Option<(String, Vec<bool>)>) -> Option<(Seq<char>, Seq<bool>)> {
    match t {
        Some((n, f)) => Some((n@, f@)),
        None => None,
    }
}

impl View for CallInfo {
    type V = CallV;

    open spec fn view(&self) -> CallV {
        CallV {
            moves: conflicts::opt_flags(self.moves),
            muts: conflicts::opt_flags(self.muts),
            tys: opt_types(self.tys),
            claim: self.claim,
            tie: opt_tie(self.tie),
        }
    }
}

pub open spec fn generic_keeps(cx: CxV, e: FnEntryV, map: Map<Seq<char>, TypeV>, i: int) -> bool {
    if e.keeps_this && sigs::flag_at(e.param_muts, i) {
        true
    } else {
        (e.keeps_this || sigs::flag_at(e.computed_keeps, i)) && cx.oracle.contains_view(sigs::subst(e.param_tys[i], map))
    }
}

/// The arguments that a method keeps in a receiver of the given type, if any.
pub open spec fn keeps_for(cx: CxV, kind: TypeKindV, method: Seq<char>) -> Option<Seq<bool>> {
    match kind {
        TypeKindV::Path(t) => match cx.sigs.method(t, method) {
            Some(e) => if flow::some_flag(sigs::kept_params(e)) {
                Some(sigs::kept_params(e))
            } else {
                None
            },
            None => None,
        },
        TypeKindV::Generic { name, args } => match (sigs::look(cx.sigs.methods, sigs::method_key(name, method)), sigs::look(cx.sigs.impl_generics, name)) {
            (Some(e), Some(params)) => {
                let map = sigs::bind_args(Map::empty(), params, args, 0);
                let flags = Seq::new(e.param_tys.len(), |i: int| generic_keeps(cx, e, map, i));
                if flow::some_flag(flags) {
                    Some(flags)
                } else {
                    None
                }
            },
            _ => None,
        },
        _ => None,
    }
}

fn keeps_flags_for_receiver_ty(cx: &Cx, ty: &Type, method: &str) -> (r: Option<Vec<bool>>)
    ensures
        conflicts::opt_flags(r) == keeps_for(cx@, ty@.kind, method@),
{
    match &ty.kind {
        TypeKind::Path(t) => match cx.sigs.method_entry(t.as_str(), method) {
            Some(e) => {
                let keeps = effective_keeps(e);
                if any_flag(&keeps) {
                    Some(keeps)
                } else {
                    None
                }
            },
            None => None,
        },
        TypeKind::Generic { name, args } => {
            let key = key_of(name.as_str(), method);
            let e = match cx.sigs.methods.get(key.as_str()) {
                Some(e) => e,
                None => {
                    return None;
                },
            };
            let params = match cx.sigs.impl_generics.get(name.as_str()) {
                Some(p) => p,
                None => {
                    return None;
                },
            };
            let map = bindings(params, args);
            let mut flags: Vec<bool> = Vec::new();
            proof {
                ast::lemma_types_view(e.param_tys@);
            }
            let mut i: usize = 0;
            while i < e.param_tys.len()
                invariant
                    i <= e.param_tys@.len(),
                    e@.param_tys.len() == e.param_tys@.len(),
                    forall|k: int| 0 <= k < e.param_tys@.len() ==> #[trigger] e@.param_tys[k] == e.param_tys@[k]@,
                    flags@.len() == i,
                    forall|j: int| 0 <= j < i ==> #[trigger] flags@[j] == generic_keeps(cx@, e@, map@, j),
                decreases e.param_tys@.len() - i,
            {
                assert(e@.param_tys[i as int] == e.param_tys@[i as int]@);
                let k = if e.keeps_this && flag(&e.param_muts, i) {
                    true
                } else {
                    (e.keeps_this || flag(&e.computed_keeps, i)) && cx.oracle.type_contains_view(
                        &subst_type(&e.param_tys[i], &map),
                    )
                };
                flags.push(k);
                i += 1;
            }
            assert(flags@ =~= Seq::new(e@.param_tys.len(), |i: int| generic_keeps(cx@, e@, map@, i)));
            if any_flag(&flags) {
                Some(flags)
            } else {
                None
            }
        },
        _ => None,
    }
}

/// The type at the end of a path of fields.
pub open spec fn type_along(cx: CxV, t: Option<TypeV>, ps: Seq<ProjectionV>, i: nat) -> Option<TypeV>
    decreases ps.len() - i,
{
    if i >= ps.len() {
        t
    } else {
        match (t, ps[i as int]) {
            (Some(TypeV { kind: TypeKindV::Path(s), .. }), ProjectionV::Field(f)) => type_along(
                cx,
                infer::field_of(cx.sigs, s, f),
                ps,
                i + 1,
            ),
            _ => None,
        }
    }
}

pub open spec fn tie_on(cx: CxV, t: Option<TypeV>, root: Seq<char>, method: Seq<char>) -> Option<(Seq<char>, Seq<bool>)> {
    match t {
        Some(t) => match keeps_for(cx, t.kind, method) {
            Some(f) => Some((root, f)),
            None => None,
        },
        None => None,
    }
}

pub open spec fn call_info(cx: CxV, env: Map<Seq<char>, TypeV>, callee: Expr) -> CallV {
    match callee.kind {
        ExprKind::Ident(n) => match sigs::look(cx.sigs.fns, n@) {
            Some(e) => CallV {
                moves: Some(e.param_moves),
                muts: Some(e.param_muts),
                tys: Some(e.param_tys),
                claim: None,
                tie: None,
            },
            None => match sigs::look(env, n@) {
                Some(TypeV { kind: TypeKindV::FnPtr { param_takes, param_refs, .. }, .. }) => CallV {
                    moves: Some(param_takes),
                    muts: Some(param_refs),
                    tys: None,
                    claim: None,
                    tie: None,
                },
                _ => no_call(),
            },
        },
        ExprKind::Field { receiver, name } => match receiver.kind {
            ExprKind::Ident(r) => {
                let tie = tie_on(cx, sigs::look(env, r@), r@, name.name@);
                match sigs::look(env, r@) {
                    Some(TypeV { kind: TypeKindV::Path(t), .. }) => match sigs::look(cx.sigs.methods, sigs::method_key(t, name.name@)) {
                        Some(e) => CallV {
                            moves: Some(e.param_moves),
                            muts: Some(e.param_muts),
                            tys: Some(e.param_tys),
                            claim: e.receiver_claim,
                            tie,
                        },
                        None => CallV { tie, ..no_call() },
                    },
                    _ => CallV { tie, ..no_call() },
                }
            },
            _ => match place::place_of(*receiver) {
                Some(p) => CallV {
                    tie: tie_on(cx, type_along(cx, sigs::look(env, p.root), p.projections, 0), p.root, name.name@),
                    ..no_call()
                },
                None => no_call(),
            },
        },
        _ => no_call(),
    }
}

pub open spec fn no_call() -> CallV {
    CallV { moves: None, muts: None, tys: None, claim: None, tie: None }
}

/// What passing an argument lends to whoever keeps it: what it borrows, or else the owners
/// it borrows from and its own place.
pub open spec fn lent_by(cx: CxV, w: WorldV, arg: Expr, fl: BorrowFlavor, always: bool) -> SourcesV {
    let s = borrows::sources_of(cx, w.env(), arg);
    if s.len() > 0 {
        s
    } else {
        match place::place_of(arg) {
            Some(p) => {
                let owners = match sigs::look(w.from, p.root) {
                    Some(ps) => Seq::new(ps.len(), |i: int| (ps[i], fl)),
                    None => Seq::empty(),
                };
                if always || w.non_copy(cx, p.root) {
                    owners.push((p, fl))
                } else {
                    owners
                }
            },
            None => Seq::empty(),
        }
    }
}

pub open spec fn not_rooted(acc: SourcesV, s: SourcesV, root: Seq<char>, i: nat) -> SourcesV
    decreases s.len() - i,
{
    if i >= s.len() {
        acc
    } else {
        not_rooted(
            if s[i as int].0.root != root {
                acc.push(s[i as int])
            } else {
                acc
            },
            s,
            root,
            i + 1,
        )
    }
}

pub open spec fn tie_sources(
    cx: CxV,
    w: WorldV,
    acc: SourcesV,
    args: Seq<Expr>,
    muts: Option<Seq<bool>>,
    flags: Seq<bool>,
    root: Seq<char>,
    i: nat,
) -> SourcesV
    decreases args.len() - i,
{
    if i >= args.len() {
        acc
    } else if !sigs::flag_at(flags, i as int) {
        tie_sources(cx, w, acc, args, muts, flags, root, i + 1)
    } else {
        let lent = conflicts::opt_flag(muts, i as int);
        let fl = if lent { BorrowFlavor::Exclusive } else { BorrowFlavor::Shared };
        tie_sources(
            cx,
            w,
            not_rooted(acc, lent_by(cx, w, args[i as int], fl, lent), root, 0),
            args,
            muts,
            flags,
            root,
            i + 1,
        )
    }
}

impl WorldV {
    /// The receiver takes the borrows of the arguments it keeps.
    pub open spec fn tie_receiver(self, cx: CxV, args: Seq<Expr>, call: CallV, span: Span) -> WorldV {
        match call.tie {
            Some((root, flags)) => {
                let s = tie_sources(cx, self, Seq::empty(), args, call.muts, flags, root, 0);
                if s.len() > 0 {
                    self.extend(s, root, span)
                } else {
                    self
                }
            },
            None => self,
        }
    }

    /// A `ref` argument takes the borrows of an argument that flows into it.
    pub open spec fn tie_flow(self, cx: CxV, args: Seq<Expr>, src: usize, dst: usize, span: Span) -> WorldV {
        if dst < args.len() && src < args.len() {
            match place::place_of(args[dst as int]) {
                Some(d) => {
                    let s = not_rooted(
                        Seq::empty(),
                        lent_by(cx, self, args[src as int], BorrowFlavor::Shared, false),
                        d.root,
                        0,
                    );
                    if s.len() > 0 {
                        self.extend(s, d.root, span)
                    } else {
                        self
                    }
                },
                None => self,
            }
        } else {
            self
        }
    }

    pub open spec fn tie_flows(self, cx: CxV, args: Seq<Expr>, flows: Seq<(usize, usize)>, span: Span, k: nat) -> WorldV
        decreases flows.len() - k,
    {
        if k >= flows.len() {
            self
        } else {
            self.tie_flow(cx, args, flows[k as int].0, flows[k as int].1, span).tie_flows(cx, args, flows, span, k + 1)
        }
    }

    pub open spec fn check_ref_args(self, args: Seq<Expr>, muts: Option<Seq<bool>>, i: nat) -> WorldV
        decreases args.len() - i,
    {
        if i >= args.len() {
            self
        } else {
            (if conflicts::opt_flag(muts, i as int) {
                self.check_ref_arg(args[i as int])
            } else {
                self
            }).check_ref_args(args, muts, i + 1)
        }
    }
}

pub open spec fn flows_of(cx: CxV, callee: Expr) -> Seq<(usize, usize)> {
    match callee.kind {
        ExprKind::Ident(n) => match sigs::look(cx.sigs.fns, n@) {
            Some(e) => e.computed_ref_flows,
            None => Seq::empty(),
        },
        _ => Seq::empty(),
    }
}

/// The argument moves its binding: the slot takes it, and the binding's type is moved
/// wherever the slot leaves that open.
pub open spec fn arg_moves(cx: CxV, w: WorldV, arg: Expr, call: CallV, i: int) -> bool {
    match arg.kind {
        ExprKind::Ident(n) => {
            let conditional = match call.tys {
                Some(ts) => i < ts.len() && !cx.oracle.non_copy(ts[i]),
                None => false,
            };
            conflicts::opt_flag(call.moves, i) && (!conditional || w.non_copy(cx, n@))
        },
        _ => false,
    }
}

pub open spec fn ident_of(e: Expr) -> Seq<char> {
    match e.kind {
        ExprKind::Ident(n) => n@,
        _ => Seq::empty(),
    }
}

// ---------------------------------------------------------------------------
// Expressions and statements.

pub open spec fn is_enum_path(cx: CxV, callee: Expr) -> bool {
    match callee.kind {
        ExprKind::Path { segments } => segments@.len() == 2 && cx.sigs.enums.contains(segments@[0].name@),
        _ => false,
    }
}

/// A view of a place whose owner is moved.
pub open spec fn coerced_source(cx: CxV, w: WorldV, e: Expr) -> SourcesV {
    match place::place_of(e) {
        Some(p) => if w.non_copy(cx, p.root) {
            seq![(p, BorrowFlavor::Shared)]
        } else {
            Seq::empty()
        },
        None => Seq::empty(),
    }
}

pub open spec fn is_view_opt(t: Option<TypeV>) -> bool {
    match t {
        Some(t) => infer::is_view(t),
        None => false,
    }
}

pub open spec fn let_sources(cx: CxV, w: WorldV, ty: Option<TypeV>, e: Expr) -> SourcesV {
    let s = borrows::sources_of(cx, w.env(), e);
    if s.len() == 0 && is_view_opt(ty) {
        coerced_source(cx, w, e)
    } else {
        s
    }
}

impl WorldV {
    pub open spec fn acquire_some(self, s: SourcesV, borrower: Seq<char>, span: Span) -> WorldV {
        if s.len() > 0 {
            self.acquire(s, borrower, span)
        } else {
            self
        }
    }

    /// The end of a `let`: the new binding gets its type, is owned, and takes its borrows.
    pub open spec fn bind_let(self, cx: CxV, name: Ident, ty: Option<TypeV>, init: Option<Expr>, s: SourcesV) -> WorldV {
        let w = match (ty, init) {
            (None, Some(e)) => match infer::infer(cx.sigs, self.env(), e) {
                Some(t) => self.guess(name.name@, t),
                None => self,
            },
            _ => self,
        };
        w.typed(name.name@, ty).own(name.name@).acquire_some(s, name.name@, name.span)
    }

    pub open spec fn guess_fields(self, fs: Map<Seq<char>, TypeV>, ids: Seq<Ident>, i: nat) -> WorldV
        decreases ids.len() - i,
    {
        if i >= ids.len() {
            self
        } else {
            (match sigs::look(fs, ids[i as int].name@) {
                Some(t) => self.guess(ids[i as int].name@, t),
                None => self,
            }).guess_fields(fs, ids, i + 1)
        }
    }

    pub open spec fn guess_destructured(self, cx: CxV, ids: Seq<Ident>, init: Expr) -> WorldV {
        match infer::infer(cx.sigs, self.env(), init) {
            Some(TypeV { kind: TypeKindV::Path(s), .. }) => match sigs::look(cx.sigs.struct_fields, s) {
                Some(fs) => self.guess_fields(fs, ids, 0),
                None => self,
            },
            _ => self,
        }
    }

    pub open spec fn bind_fields(self, ids: Seq<Ident>, s: SourcesV, i: nat) -> WorldV
        decreases ids.len() - i,
    {
        if i >= ids.len() {
            self
        } else {
            let id = ids[i as int];
            self.typed(id.name@, None).own(id.name@).acquire_some(s, id.name@, id.span).bind_fields(ids, s, i + 1)
        }
    }

    /// After the value of an assignment: the target takes the borrows of the value.
    pub open spec fn rebind(self, cx: CxV, target: Expr, value: Expr, s: SourcesV) -> WorldV {
        match target.kind {
            ExprKind::Ident(n) => {
                let w = self.drop_borrower(n@);
                let s = if s.len() == 0 && is_view_opt(sigs::look(w.env(), n@)) {
                    coerced_source(cx, w, value)
                } else {
                    s
                };
                w.acquire_some(s, n@, target.span)
            },
            _ => match place::place_of(target) {
                Some(p) => if p.projections.len() > 0 {
                    self.acquire_some(s, p.root, target.span)
                } else {
                    self
                },
                None => self,
            },
        }
    }
}

/// Assigning to a moved binding makes it whole again.
pub open spec fn heals(w: WorldV, target: Expr) -> bool {
    match target.kind {
        ExprKind::Ident(n) => place::st_get(w.state, place::root_place(n@)) == Some(PlaceStateV::Moved),
        _ => false,
    }
}

pub open spec fn apply_exprs(cx: CxV, w: WorldV, es: Seq<Expr>, i: nat) -> WorldV
    decreases es, es.len() - i,
{
    if i >= es.len() {
        w
    } else {
        apply_exprs(cx, apply_expr(cx, w, es[i as int]), es, i + 1)
    }
}

pub open spec fn apply_parts(cx: CxV, w: WorldV, ps: Seq<InterpStrPart>, i: nat) -> WorldV
    decreases ps, ps.len() - i,
{
    if i >= ps.len() {
        w
    } else {
        apply_parts(
            cx,
            match ps[i as int] {
                InterpStrPart::Expr(e) => apply_expr(cx, w, e),
                InterpStrPart::Text(_) => w,
            },
            ps,
            i + 1,
        )
    }
}

pub open spec fn apply_operands(cx: CxV, w: WorldV, ops: Seq<AsmOperand>, i: nat) -> WorldV
    decreases ops, ops.len() - i,
{
    if i >= ops.len() {
        w
    } else {
        apply_operands(cx, apply_expr(cx, w, ops[i as int].value), ops, i + 1)
    }
}

/// A part of an aggregate: a moved binding is moved into it.
pub open spec fn apply_elem(cx: CxV, w: WorldV, e: Expr) -> WorldV
    decreases e, 3nat,
{
    match e.kind {
        ExprKind::Ident(n) => if w.non_copy(cx, n@) {
            w.move_out(cx, n@, e.span)
        } else {
            apply_expr(cx, w, e)
        },
        _ => apply_expr(cx, w, e),
    }
}

pub open spec fn apply_elems(cx: CxV, w: WorldV, es: Seq<Expr>, i: nat) -> WorldV
    decreases es, es.len() - i,
{
    if i >= es.len() {
        w
    } else {
        apply_elems(cx, apply_elem(cx, w, es[i as int]), es, i + 1)
    }
}

pub open spec fn apply_fields(cx: CxV, w: WorldV, fs: Seq<FieldInit>, i: nat) -> WorldV
    decreases fs, fs.len() - i,
{
    if i >= fs.len() {
        w
    } else {
        apply_fields(cx, apply_elem(cx, w, fs[i as int].value), fs, i + 1)
    }
}

pub open spec fn apply_args(cx: CxV, w: WorldV, args: Seq<Expr>, call: CallV, i: nat) -> WorldV
    decreases args, args.len() - i,
{
    if i >= args.len() {
        w
    } else {
        let arg = args[i as int];
        apply_args(
            cx,
            if arg_moves(cx, w, arg, call, i as int) {
                w.move_out(cx, ident_of(arg), arg.span)
            } else {
                apply_expr(cx, w, arg)
            },
            args,
            call,
            i + 1,
        )
    }
}

/// A call: the receiver and callee, then the arguments against each other and against the
/// borrows, then each argument, then the borrows that the call ties together.
pub open spec fn apply_call(cx: CxV, w: WorldV, e: Expr) -> WorldV
    decreases e, 1nat,
{
    match e.kind {
        ExprKind::Call { callee, args, .. } => {
            let w = match callee.kind {
                ExprKind::Field { receiver, name } => w.check_receiver(cx, *receiver, name.name@),
                _ => w,
            };
            let w = apply_expr(cx, w, *callee);
            if is_enum_path(cx, *callee) {
                apply_elems(cx, w, args@, 0)
            } else {
                let call = call_info(cx, w.env(), *callee);
                let w = WorldV {
                    diags: conflicts::call_conflicts(cx, w.env(), w.diags, args@, call.moves, call.muts, receiver_of(*callee, call)),
                    ..w
                };
                let w = w.check_ref_args(args@, call.muts, 0);
                let w = apply_args(cx, w, args@, call, 0);
                let w = w.tie_receiver(cx, args@, call, callee.span);
                w.tie_flows(cx, args@, flows_of(cx, *callee), callee.span, 0)
            }
        },
        _ => w,
    }
}

pub open spec fn receiver_of(callee: Expr, call: CallV) -> Option<(ClaimKind, Expr)> {
    match (callee.kind, call.claim) {
        (ExprKind::Field { receiver, .. }, Some(k)) => Some((k, *receiver)),
        _ => None,
    }
}

/// Walks the arms of a match from the same state; gives the world with what was reported
/// and learned, the state after each arm, and which arms leave.
pub open spec fn apply_arms(
    cx: CxV,
    w: WorldV,
    pre: StateV,
    scrutinee: Expr,
    arms: Seq<MatchArm>,
    states: Seq<StateV>,
    leaves: Seq<bool>,
    i: nat,
) -> (WorldV, Seq<StateV>, Seq<bool>)
    decreases arms, arms.len() - i,
{
    if i >= arms.len() {
        (w, states, leaves)
    } else {
        let arm = arms[i as int];
        let w = WorldV { inferred: infer::with_pattern(w.inferred, cx.sigs, arm.pattern, infer::infer(cx.sigs, w.env(), scrutinee)), state: pre, ..w };
        let w = apply_expr(cx, w, arm.body);
        apply_arms(
            cx,
            w,
            pre,
            scrutinee,
            arms,
            states.push(retain(w.state, pre)),
            leaves.push(walks::expr_leaves(arm.body)),
            i + 1,
        )
    }
}

pub open spec fn apply_expr(cx: CxV, w: WorldV, e: Expr) -> WorldV
    decreases e, 2nat,
{
    match e.kind {
        ExprKind::Intrinsic { args, .. } => apply_exprs(cx, w, args@, 0),
        ExprKind::Asm { operands, .. } => apply_operands(cx, w, operands@, 0),
        ExprKind::InterpStr { parts } => apply_parts(cx, w, parts@, 0),
        ExprKind::Ident(n) => w.read(cx, n@, e.span),
        ExprKind::Field { receiver, .. } => match place::place_of(e) {
            Some(p) => w.read_place(cx, p, e.span),
            None => apply_expr(cx, w, *receiver),
        },
        ExprKind::Index { receiver, index } => match place::place_of(e) {
            Some(p) => apply_expr(cx, w.read_place(cx, p, e.span), *index),
            None => apply_expr(cx, apply_expr(cx, w, *receiver), *index),
        },
        ExprKind::Block(b) => walk_scope(cx, w, b, w.state),
        ExprKind::Await(inner) => apply_expr(cx, w, *inner),
        ExprKind::Yield(inner) => apply_expr(cx, w, *inner),
        ExprKind::If { cond, then, else_branch } => {
            let w = apply_expr(cx, w, *cond);
            let pre = w.state;
            let w = walk_scope(cx, w, then, pre);
            let after_then = w.state;
            match else_branch {
                Some(x) => {
                    let w = apply_expr(cx, w.with_state(pre), *x);
                    w.with_state(
                        merge_arms(
                            pre,
                            seq![after_then, retain(w.state, pre)],
                            seq![walks::block_leaves(then), walks::expr_leaves(*x)],
                        ),
                    )
                },
                None => w.with_state(merge_arms(pre, seq![after_then, pre], seq![walks::block_leaves(then), false])),
            }
        },
        ExprKind::Call { .. } => apply_call(cx, w, e),
        ExprKind::Binary { lhs, rhs, .. } => apply_expr(cx, apply_expr(cx, w, *lhs), *rhs),
        ExprKind::Unary { operand, .. } => apply_expr(cx, w, *operand),
        ExprKind::Range { start, end, .. } => {
            let w = match start {
                Some(x) => apply_expr(cx, w, *x),
                None => w,
            };
            match end {
                Some(x) => apply_expr(cx, w, *x),
                None => w,
            }
        },
        ExprKind::Assign { target, value, .. } => {
            let heal = heals(w, *target);
            let w = if heal {
                w
            } else {
                apply_expr(cx, w, *target)
            };
            let w = w.check_write(*target);
            let s = borrows::sources_of(cx, w.env(), *value);
            let w = apply_expr(cx, w, *value);
            let w = if heal {
                w.own(ident_of(*target))
            } else {
                w
            };
            w.rebind(cx, *target, *value, s)
        },
        ExprKind::Cast { expr, .. } => apply_expr(cx, w, *expr),
        ExprKind::CastChecked { expr, .. } => apply_expr(cx, w, *expr),
        ExprKind::StructLit { fields, .. } => apply_fields(cx, w, fields@, 0),
        ExprKind::InferredStructLit { fields } => apply_fields(cx, w, fields@, 0),
        ExprKind::GenericStructLit { fields, .. } => apply_fields(cx, w, fields@, 0),
        ExprKind::ArrayFill { fill, .. } => apply_expr(cx, w, *fill),
        ExprKind::GenericEnumCall { enum_name, args, .. } => if cx.sigs.enums.contains(enum_name.name@) {
            apply_elems(cx, w, args@, 0)
        } else {
            apply_exprs(cx, w, args@, 0)
        },
        ExprKind::ArrayLit { elements } => apply_elems(cx, w, elements@, 0),
        ExprKind::TupleLit { elements } => apply_elems(cx, w, elements@, 0),
        ExprKind::Match { scrutinee, arms } => {
            let w = apply_expr(cx, w, *scrutinee);
            if arms@.len() == 0 {
                w
            } else {
                let pre = w.state;
                let (w, states, leaves) = apply_arms(cx, w, pre, *scrutinee, arms@, Seq::empty(), Seq::empty(), 0);
                w.with_state(merge_arms(pre, states, leaves))
            }
        },
        _ => w,
    }
}

/// Walks the statements of a block; after each, the borrowers that are done give back.
pub open spec fn walk_stmts(cx: CxV, w: WorldV, ss: Seq<Stmt>, uses: Seq<(Seq<char>, nat)>, i: nat) -> WorldV
    decreases ss, ss.len() - i,
{
    if i >= ss.len() {
        w
    } else {
        walk_stmts(cx, apply_stmt(cx, w, ss[i as int]).release_after(uses, i, 0), ss, uses, i + 1)
    }
}

/// Walks a block as a scope of its own inside `outer`.
pub open spec fn walk_scope(cx: CxV, w: WorldV, b: Block, outer: StateV) -> WorldV
    decreases b, 0nat,
{
    let w = walk_stmts(cx, w, b.stmts@, last_uses(cx, w.env(), b), 0);
    let w = match b.tail {
        Some(t) => apply_expr(cx, w, *t),
        None => w,
    };
    w.end_scope(outer)
}

/// A loop body may run or not.
pub open spec fn loop_body(cx: CxV, w: WorldV, b: Block) -> WorldV
    decreases b, 1nat,
{
    let pre = w.state;
    let w = walk_scope(cx, w, b, pre);
    w.with_state(merge_arms(pre, seq![pre, w.state], seq![false, false]))
}

pub open spec fn apply_stmt(cx: CxV, w: WorldV, s: Stmt) -> WorldV
    decreases s, 0nat,
{
    match s.kind {
        StmtKind::Let { name, ty, init, .. } => {
            let t = sigs::opt_type(ty);
            match init {
                Some(e) => {
                    let src = let_sources(cx, w, t, e);
                    let w = match e.kind {
                        ExprKind::Ident(n) => if src.len() == 0 && w.non_copy(cx, n@) {
                            w.move_out(cx, n@, e.span)
                        } else {
                            apply_expr(cx, w, e)
                        },
                        _ => apply_expr(cx, w, e),
                    };
                    w.bind_let(cx, name, t, init, src)
                },
                None => w.bind_let(cx, name, t, init, Seq::empty()),
            }
        },
        StmtKind::LetDestructure { fields, init, .. } => {
            let src = borrows::sources_of(cx, w.env(), init);
            let w = w.guess_destructured(cx, fields@, init);
            let w = apply_expr(cx, w, init);
            w.bind_fields(fields@, src, 0)
        },
        StmtKind::Return(Some(e)) => apply_expr(cx, w, e),
        StmtKind::Expr(e) => apply_expr(cx, w, e),
        StmtKind::Defer(e) => apply_expr(cx, w, e),
        StmtKind::Assert(e) => apply_expr(cx, w, e),
        StmtKind::While { cond, body } => loop_body(cx, apply_expr(cx, w, cond), body),
        StmtKind::For(fl) => apply_for(cx, w, fl),
        StmtKind::Loop(b) => loop_body(cx, w, b),
        _ => w,
    }
}

pub open spec fn apply_for(cx: CxV, w: WorldV, fl: ForLoop) -> WorldV
    decreases fl, 0nat,
{
    match fl {
        ForLoop::CStyle { init, cond, update, body } => {
            let w = match init {
                Some(s) => apply_stmt(cx, w, *s),
                None => w,
            };
            let w = match cond {
                Some(c) => apply_expr(cx, w, c),
                None => w,
            };
            loop_body(cx, apply_exprs(cx, w, update@, 0), body)
        },
        ForLoop::Range { var, iter, body } => {
            let w = apply_expr(cx, w, iter).typed(var.name@, Some(infer::path_at("i32"@, var.span)));
            let pre = w.state;
            let w = walk_scope(cx, w.own(var.name@), body, pre);
            w.with_state(merge_arms(pre, seq![pre, w.state], seq![false, false]))
        },
    }
}

// ---------------------------------------------------------------------------
// The walk itself.

#[verifier::loop_isolation(false)]
fn follow_fields(cx: &Cx, t: Option<&Type>, ps: &Vec<Projection>) -> (r: Option<Type>)
    ensures
        sigs::opt_type(r) == type_along(
            cx@,
            match t {
                Some(t) => Some(t@),
                None => None,
            },
            ps.deep_view(),
            0,
        ),
{
    let mut cur: Option<Type> = match t {
        Some(t) => Some(t.clone()),
        None => None,
    };
    let ghost start = sigs::opt_type(cur);
    let mut i: usize = 0;
    while i < ps.len()
        invariant
            i <= ps@.len(),
            type_along(cx@, sigs::opt_type(cur), ps.deep_view(), i as nat) == type_along(cx@, start, ps.deep_view(), 0),
        decreases ps@.len() - i,
    {
        assert(ps.deep_view()[i as int] == ps@[i as int]@);
        let next: Option<Type> = match (&cur, &ps[i]) {
            (Some(t), Projection::Field(f)) => match &t.kind {
                TypeKind::Path(s) => field_type(cx.sigs, s.as_str(), f.as_str()),
                _ => {
                    return None;
                },
            },
            _ => {
                return None;
            },
        };
        cur = next;
        i += 1;
    }
    cur
}

fn keep_tie(cx: &Cx, t: Option<&Type>, root: &str, method: &str) -> (r: Option<(String, Vec<bool>)>)
    ensures
        opt_tie(r) == tie_on(
            cx@,
            match t {
                Some(t) => Some(t@),
                None => None,
            },
            root@,
            method@,
        ),
{
    match t {
        Some(t) => match keeps_flags_for_receiver_ty(cx, t, method) {
            Some(f) => Some((root.to_owned(), f)),
            None => None,
        },
        None => None,
    }
}

fn add_not_rooted(out: &mut Vec<(Place, BorrowFlavor)>, s: &Vec<(Place, BorrowFlavor)>, root: &str)
    ensures
        final(out).deep_view() == not_rooted(old(out).deep_view(), s.deep_view(), root@, 0),
{
    let mut i: usize = 0;
    while i < s.len()
        invariant
            i <= s@.len(),
            not_rooted(out.deep_view(), s.deep_view(), root@, i as nat) == not_rooted(
                old(out).deep_view(),
                s.deep_view(),
                root@,
                0,
            ),
        decreases s@.len() - i,
    {
        assert(s.deep_view()[i as int] == (s@[i as int].0@, s@[i as int].1));
        if !str_eq(s[i].0.root.as_str(), root) {
            let ghost before = out.deep_view();
            out.push((s[i].0.clone(), s[i].1));
            assert(out.deep_view() =~= before.push(s.deep_view()[i as int]));
        }
        i += 1;
    }
}

impl World {
    fn call_info(&self, cx: &Cx, callee: &Expr) -> (r: CallInfo)
        ensures
            r@ == call_info(cx@, self@.env(), *callee),
    {
        let mut r = CallInfo { moves: None, muts: None, tys: None, claim: None, tie: None };
        match &callee.kind {
            ExprKind::Ident(n) => match cx.sigs.fns.get(n.as_str()) {
                Some(e) => {
                    r.moves = Some(clone_flags(&e.param_moves));
                    r.muts = Some(clone_flags(&e.param_muts));
                    r.tys = Some(clone_types(&e.param_tys));
                },
                None => if let Some(t) = self.binding_type(n.as_str()) {
                    if let TypeKind::FnPtr { param_takes, param_refs, .. } = &t.kind {
                        r.moves = Some(clone_flags(param_takes));
                        r.muts = Some(clone_flags(param_refs));
                    }
                },
            },
            ExprKind::Field { receiver, name } => match &receiver.kind {
                ExprKind::Ident(n) => {
                    let t = self.binding_type(n.as_str());
                    r.tie = keep_tie(cx, t, n.as_str(), name.name.as_str());
                    if let Some(t) = t {
                        if let TypeKind::Path(p) = &t.kind {
                            let key = key_of(p.as_str(), name.name.as_str());
                            if let Some(e) = cx.sigs.methods.get(key.as_str()) {
                                r.moves = Some(clone_flags(&e.param_moves));
                                r.muts = Some(clone_flags(&e.param_muts));
                                r.tys = Some(clone_types(&e.param_tys));
                                r.claim = e.receiver_claim;
                            }
                        }
                    }
                },
                _ => if let Some(p) = place_from_expr(receiver) {
                    let t = follow_fields(cx, self.binding_type(p.root.as_str()), &p.projections);
                    r.tie = keep_tie(cx, t.as_ref(), p.root.as_str(), name.name.as_str());
                },
            },
            _ => {},
        }
        r
    }

    fn lent_sources(&self, cx: &Cx, arg: &Expr, fl: BorrowFlavor, always: bool) -> (r: Vec<(Place, BorrowFlavor)>)
        ensures
            r.deep_view() == lent_by(cx@, self@, *arg, fl, always),
    {
        let mut out = self.classify_borrow_source(cx, arg);
        if out.len() > 0 {
            return out;
        }
        assert(out.deep_view() =~= Seq::<(PlaceV, BorrowFlavor)>::empty());
        if let Some(p) = place_from_expr(arg) {
            if let Some(ps) = self.from.get(p.root.as_str()) {
                let ghost pv = ps.deep_view();
                let mut i: usize = 0;
                while i < ps.len()
                    invariant
                        i <= ps@.len(),
                        out@.len() == i,
                        forall|j: int| 0 <= j < i ==> (#[trigger] out@[j]).deep_view() == (ps@[j]@, fl),
                    decreases ps@.len() - i,
                {
                    out.push((ps[i].clone(), fl));
                    i += 1;
                }
                assert(out.deep_view() =~= Seq::new(pv.len(), |i: int| (pv[i], fl)));
            }
            if always || self.binding_is_non_copy(cx, p.root.as_str()) {
                let ghost before = out.deep_view();
                let ghost v = (p@, fl);
                out.push((p, fl));
                assert(out.deep_view() =~= before.push(v));
            }
        }
        out
    }

    fn tie_receiver(&mut self, cx: &Cx, args: &Vec<Expr>, call: &CallInfo, span: Span)
        ensures
            final(self)@ == old(self)@.tie_receiver(cx@, args@, call@, span),
    {
        if let Some((root, flags)) = &call.tie {
            let mut out: Vec<(Place, BorrowFlavor)> = Vec::new();
            let mut i: usize = 0;
            let ghost w = self@;
            assert(out.deep_view() =~= Seq::<(PlaceV, BorrowFlavor)>::empty());
            while i < args.len()
                invariant
                    i <= args@.len(),
                    w == self@,
                    tie_sources(cx@, w, out.deep_view(), args@, call@.muts, flags@, root@, i as nat) == tie_sources(
                        cx@,
                        w,
                        Seq::empty(),
                        args@,
                        call@.muts,
                        flags@,
                        root@,
                        0,
                    ),
                decreases args@.len() - i,
            {
                if flag(flags, i) {
                    let lent = flag_in(&call.muts, i);
                    let fl = if lent { BorrowFlavor::Exclusive } else { BorrowFlavor::Shared };
                    let s = self.lent_sources(cx, &args[i], fl, lent);
                    add_not_rooted(&mut out, &s, root.as_str());
                }
                i += 1;
            }
            if out.len() > 0 {
                self.extend_borrows(&out, root.as_str(), span);
            }
        }
    }

    fn tie_flow(&mut self, cx: &Cx, args: &Vec<Expr>, src: usize, dst: usize, span: Span)
        ensures
            final(self)@ == old(self)@.tie_flow(cx@, args@, src, dst, span),
    {
        if dst < args.len() && src < args.len() {
            if let Some(d) = place_from_expr(&args[dst]) {
                let s = self.lent_sources(cx, &args[src], BorrowFlavor::Shared, false);
                let mut out: Vec<(Place, BorrowFlavor)> = Vec::new();
                assert(out.deep_view() =~= Seq::<(PlaceV, BorrowFlavor)>::empty());
                add_not_rooted(&mut out, &s, d.root.as_str());
                if out.len() > 0 {
                    self.extend_borrows(&out, d.root.as_str(), span);
                }
            }
        }
    }

    fn tie_flows(&mut self, cx: &Cx, args: &Vec<Expr>, callee: &Expr)
        ensures
            final(self)@ == old(self)@.tie_flows(cx@, args@, flows_of(cx@, *callee), callee.span, 0),
    {
        if let ExprKind::Ident(n) = &callee.kind {
            if let Some(e) = cx.sigs.fns.get(n.as_str()) {
                let ghost flows = e.computed_ref_flows@;
                let mut k: usize = 0;
                while k < e.computed_ref_flows.len()
                    invariant
                        k <= e.computed_ref_flows@.len(),
                        flows == e.computed_ref_flows@,
                        self@.tie_flows(cx@, args@, flows, callee.span, k as nat) == old(self)@.tie_flows(
                            cx@,
                            args@,
                            flows,
                            callee.span,
                            0,
                        ),
                    decreases e.computed_ref_flows@.len() - k,
                {
                    let (src, dst) = e.computed_ref_flows[k];
                    self.tie_flow(cx, args, src, dst, callee.span);
                    k += 1;
                }
            }
        }
    }

    fn check_ref_args(&mut self, args: &Vec<Expr>, muts: &Option<Vec<bool>>)
        ensures
            final(self)@ == old(self)@.check_ref_args(args@, conflicts::opt_flags(*muts), 0),
    {
        let mut i: usize = 0;
        while i < args.len()
            invariant
                i <= args@.len(),
                self@.check_ref_args(args@, conflicts::opt_flags(*muts), i as nat) == old(self)@.check_ref_args(
                    args@,
                    conflicts::opt_flags(*muts),
                    0,
                ),
            decreases args@.len() - i,
        {
            if flag_in(muts, i) {
                self.check_ref_arg_against_borrows(&args[i]);
            }
            i += 1;
        }
    }

    fn arg_is_moved(&self, cx: &Cx, arg: &Expr, call: &CallInfo, i: usize) -> (r: bool)
        ensures
            r == arg_moves(cx@, self@, *arg, call@, i as int),
    {
        match &arg.kind {
            ExprKind::Ident(n) => {
                let conditional = match &call.tys {
                    Some(ts) => {
                        proof {
                            ast::lemma_types_view(ts@);
                        }
                        i < ts.len() && !cx.oracle.definitely_non_copy(&ts[i])
                    },
                    None => false,
                };
                flag_in(&call.moves, i) && (!conditional || self.binding_is_non_copy(cx, n.as_str()))
            },
            _ => false,
        }
    }

    fn coerced(&self, cx: &Cx, e: &Expr) -> (r: Vec<(Place, BorrowFlavor)>)
        ensures
            r.deep_view() == coerced_source(cx@, self@, *e),
    {
        let mut out: Vec<(Place, BorrowFlavor)> = Vec::new();
        assert(out.deep_view() =~= Seq::<(PlaceV, BorrowFlavor)>::empty());
        if let Some(p) = place_from_expr(e) {
            if self.binding_is_non_copy(cx, p.root.as_str()) {
                let ghost v = (p@, BorrowFlavor::Shared);
                out.push((p, BorrowFlavor::Shared));
                assert(out.deep_view() =~= seq![v]);
            }
        }
        out
    }

    fn acquire_some(&mut self, s: &Vec<(Place, BorrowFlavor)>, borrower: &str, span: Span)
        ensures
            final(self)@ == old(self)@.acquire_some(s.deep_view(), borrower@, span),
    {
        if s.len() > 0 {
            self.acquire_borrows(s, borrower, span);
        }
    }

    fn bind_let(&mut self, cx: &Cx, name: &Ident, ty: &Option<Type>, init: &Option<Expr>, s: &Vec<(Place, BorrowFlavor)>)
        ensures
            final(self)@ == old(self)@.bind_let(cx@, *name, sigs::opt_type(*ty), *init, s.deep_view()),
    {
        if let None = ty {
            if let Some(e) = init {
                if let Some(t) = self.infer_expr_type(cx, e) {
                    self.inferred.insert(name.name.clone(), t);
                }
            }
        }
        let bt = match ty {
            Some(t) => BindingType::Known(t.clone()),
            None => BindingType::Unknown,
        };
        self.types.insert(name.name.clone(), bt);
        self.own(name.name.as_str());
        self.acquire_some(s, name.name.as_str(), name.span);
    }

    fn guess_destructured(&mut self, cx: &Cx, ids: &Vec<Ident>, init: &Expr)
        ensures
            final(self)@ == old(self)@.guess_destructured(cx@, ids@, *init),
    {
        if let Some(t) = self.infer_expr_type(cx, init) {
            if let TypeKind::Path(s) = &t.kind {
                if let Some(fs) = cx.sigs.struct_fields.get(s.as_str()) {
                    let mut i: usize = 0;
                    while i < ids.len()
                        invariant
                            i <= ids@.len(),
                            self@.guess_fields(fs@, ids@, i as nat) == old(self)@.guess_fields(fs@, ids@, 0),
                        decreases ids@.len() - i,
                    {
                        if let Some(ft) = fs.get(ids[i].name.as_str()) {
                            self.inferred.insert(ids[i].name.clone(), ft.clone());
                        }
                        i += 1;
                    }
                }
            }
        }
    }

    fn bind_fields(&mut self, ids: &Vec<Ident>, s: &Vec<(Place, BorrowFlavor)>)
        ensures
            final(self)@ == old(self)@.bind_fields(ids@, s.deep_view(), 0),
    {
        let mut i: usize = 0;
        while i < ids.len()
            invariant
                i <= ids@.len(),
                self@.bind_fields(ids@, s.deep_view(), i as nat) == old(self)@.bind_fields(ids@, s.deep_view(), 0),
            decreases ids@.len() - i,
        {
            self.types.insert(ids[i].name.clone(), BindingType::Unknown);
            self.own(ids[i].name.as_str());
            self.acquire_some(s, ids[i].name.as_str(), ids[i].span);
            i += 1;
        }
    }

    fn rebind(&mut self, cx: &Cx, target: &Expr, value: &Expr, s: Vec<(Place, BorrowFlavor)>)
        ensures
            final(self)@ == old(self)@.rebind(cx@, *target, *value, s.deep_view()),
    {
        match &target.kind {
            ExprKind::Ident(n) => {
                self.drop_borrower(n.as_str());
                let views = match self.binding_type(n.as_str()) {
                    Some(t) => is_view_ty(t),
                    None => false,
                };
                if s.len() == 0 && views {
                    let c = self.coerced(cx, value);
                    self.acquire_some(&c, n.as_str(), target.span);
                } else {
                    self.acquire_some(&s, n.as_str(), target.span);
                }
            },
            _ => if let Some(p) = place_from_expr(target) {
                if p.projections.len() > 0 {
                    self.acquire_some(&s, p.root.as_str(), target.span);
                }
            },
        }
    }

    #[verifier::loop_isolation(false)]
    fn apply_exprs(&mut self, cx: &Cx, es: &Vec<Expr>)
        ensures
            final(self)@ == apply_exprs(cx@, old(self)@, es@, 0),
        decreases es, 0nat,
    {
        let mut i: usize = 0;
        while i < es.len()
            invariant
                i <= es@.len(),
                apply_exprs(cx@, self@, es@, i as nat) == apply_exprs(cx@, old(self)@, es@, 0),
            decreases es@.len() - i,
        {
            self.apply_expr(cx, &es[i]);
            i += 1;
        }
    }

    #[verifier::loop_isolation(false)]
    fn apply_parts(&mut self, cx: &Cx, ps: &Vec<InterpStrPart>)
        ensures
            final(self)@ == apply_parts(cx@, old(self)@, ps@, 0),
        decreases ps, 0nat,
    {
        let mut i: usize = 0;
        while i < ps.len()
            invariant
                i <= ps@.len(),
                apply_parts(cx@, self@, ps@, i as nat) == apply_parts(cx@, old(self)@, ps@, 0),
            decreases ps@.len() - i,
        {
            if let InterpStrPart::Expr(e) = &ps[i] {
                self.apply_expr(cx, e);
            }
            i += 1;
        }
    }

    #[verifier::loop_isolation(false)]
    fn apply_operands(&mut self, cx: &Cx, ops: &Vec<AsmOperand>)
        ensures
            final(self)@ == apply_operands(cx@, old(self)@, ops@, 0),
        decreases ops, 0nat,
    {
        let mut i: usize = 0;
        while i < ops.len()
            invariant
                i <= ops@.len(),
                apply_operands(cx@, self@, ops@, i as nat) == apply_operands(cx@, old(self)@, ops@, 0),
            decreases ops@.len() - i,
        {
            self.apply_expr(cx, &ops[i].value);
            i += 1;
        }
    }

    fn apply_aggregate_element(&mut self, cx: &Cx, e: &Expr)
        ensures
            final(self)@ == apply_elem(cx@, old(self)@, *e),
        decreases e, 3nat,
    {
        if let ExprKind::Ident(n) = &e.kind {
            if self.binding_is_non_copy(cx, n.as_str()) {
                self.apply_move_of_binding(cx, n.as_str(), e.span);
                return;
            }
        }
        self.apply_expr(cx, e);
    }

    #[verifier::loop_isolation(false)]
    fn apply_elems(&mut self, cx: &Cx, es: &Vec<Expr>)
        ensures
            final(self)@ == apply_elems(cx@, old(self)@, es@, 0),
        decreases es, 0nat,
    {
        let mut i: usize = 0;
        while i < es.len()
            invariant
                i <= es@.len(),
                apply_elems(cx@, self@, es@, i as nat) == apply_elems(cx@, old(self)@, es@, 0),
            decreases es@.len() - i,
        {
            self.apply_aggregate_element(cx, &es[i]);
            i += 1;
        }
    }

    #[verifier::loop_isolation(false)]
    fn apply_fields(&mut self, cx: &Cx, fs: &Vec<FieldInit>)
        ensures
            final(self)@ == apply_fields(cx@, old(self)@, fs@, 0),
        decreases fs, 0nat,
    {
        let mut i: usize = 0;
        while i < fs.len()
            invariant
                i <= fs@.len(),
                apply_fields(cx@, self@, fs@, i as nat) == apply_fields(cx@, old(self)@, fs@, 0),
            decreases fs@.len() - i,
        {
            self.apply_aggregate_element(cx, &fs[i].value);
            i += 1;
        }
    }

    #[verifier::loop_isolation(false)]
    fn apply_args(&mut self, cx: &Cx, args: &Vec<Expr>, call: &CallInfo)
        ensures
            final(self)@ == apply_args(cx@, old(self)@, args@, call@, 0),
        decreases args, 0nat,
    {
        let mut i: usize = 0;
        while i < args.len()
            invariant
                i <= args@.len(),
                apply_args(cx@, self@, args@, call@, i as nat) == apply_args(cx@, old(self)@, args@, call@, 0),
            decreases args@.len() - i,
        {
            let mut done = false;
            if self.arg_is_moved(cx, &args[i], call, i) {
                if let ExprKind::Ident(n) = &args[i].kind {
                    self.apply_move_of_binding(cx, n.as_str(), args[i].span);
                    done = true;
                }
            }
            if !done {
                self.apply_expr(cx, &args[i]);
            }
            i += 1;
        }
    }

    fn apply_call(&mut self, cx: &Cx, e: &Expr)
        ensures
            final(self)@ == apply_call(cx@, old(self)@, *e),
        decreases e, 1nat,
    {
        if let ExprKind::Call { callee, args, .. } = &e.kind {
            if let ExprKind::Field { receiver, name } = &callee.kind {
                self.check_method_receiver_claim(cx, receiver, name.name.as_str());
            }
            self.apply_expr(cx, callee);
            if let ExprKind::Path { segments } = &callee.kind {
                if segments.len() == 2 && cx.sigs.enums.contains(segments[0].name.as_str()) {
                    self.apply_elems(cx, args);
                    return;
                }
            }
            let call = self.call_info(cx, callee);
            let receiver: Option<(ClaimKind, &Expr)> = match (&callee.kind, call.claim) {
                (ExprKind::Field { receiver, .. }, Some(k)) => Some((k, receiver)),
                _ => None,
            };
            self.check_intra_call_conflicts(cx, args, &call.moves, &call.muts, receiver);
            self.check_ref_args(args, &call.muts);
            self.apply_args(cx, args, &call);
            self.tie_receiver(cx, args, &call, callee.span);
            self.tie_flows(cx, args, callee);
        }
    }

    fn take_state(&mut self, pre: &State) -> (r: State)
        ensures
            r@ == old(self)@.state,
            final(self)@ == old(self)@.with_state(pre@),
    {
        let mut s = clone_state(pre);
        std::mem::swap(&mut s, &mut self.state);
        s
    }

    fn learn_pattern(&mut self, cx: &Cx, pat: &Pattern, scrutinee: &Expr)
        ensures
            final(self)@ == (WorldV {
                inferred: infer::with_pattern(old(self)@.inferred, cx@.sigs, *pat, infer::infer(cx@.sigs, old(self)@.env(), *scrutinee)),
                ..old(self)@
            }),
    {
        let matched = self.infer_expr_type(cx, scrutinee);
        add_pattern_types(&mut self.inferred, cx.sigs, pat, &matched);
    }

    #[verifier::loop_isolation(false)]
    fn apply_arms(&mut self, cx: &Cx, scrutinee: &Expr, arms: &Vec<MatchArm>)
        ensures
            ({
                let pre = old(self)@.state;
                let (w, states, leaves) = apply_arms(
                    cx@,
                    old(self)@,
                    pre,
                    *scrutinee,
                    arms@,
                    Seq::empty(),
                    Seq::empty(),
                    0,
                );
                final(self)@ == w.with_state(merge_arms(pre, states, leaves))
            }),
        decreases arms, 0nat,
    {
        let pre = clone_state(&self.state);
        let mut states: Vec<State> = Vec::new();
        let mut leaves: Vec<bool> = Vec::new();
        let ghost total = apply_arms(cx@, self@, pre@, *scrutinee, arms@, Seq::empty(), Seq::empty(), 0);
        assert(states.deep_view() =~= Seq::<StateV>::empty());
        let mut i: usize = 0;
        while i < arms.len()
            invariant
                i <= arms@.len(),
                apply_arms(cx@, self@, pre@, *scrutinee, arms@, states.deep_view(), leaves@, i as nat) == total,
            decreases arms@.len() - i,
        {
            self.state = clone_state(&pre);
            self.learn_pattern(cx, &arms[i].pattern, scrutinee);
            self.apply_expr(cx, &arms[i].body);
            let kept = retain_state(&self.state, &pre);
            let ghost before = states.deep_view();
            let ghost v = kept@;
            states.push(kept);
            assert(states.deep_view() =~= before.push(v));
            leaves.push(expr_diverges(&arms[i].body));
            i += 1;
        }
        self.state = merge_branches(&pre, &states, &leaves);
    }

    fn apply_expr(&mut self, cx: &Cx, e: &Expr)
        ensures
            final(self)@ == apply_expr(cx@, old(self)@, *e),
        decreases e, 2nat,
    {
        match &e.kind {
            ExprKind::Intrinsic { args, .. } => self.apply_exprs(cx, args),
            ExprKind::Asm { operands, .. } => self.apply_operands(cx, operands),
            ExprKind::InterpStr { parts } => self.apply_parts(cx, parts),
            ExprKind::Ident(n) => self.record_read(cx, n.as_str(), e.span),
            ExprKind::Field { receiver, .. } => match place_from_expr(e) {
                Some(p) => self.record_place_read(cx, &p, e.span),
                None => self.apply_expr(cx, receiver),
            },
            ExprKind::Index { receiver, index } => {
                match place_from_expr(e) {
                    Some(p) => self.record_place_read(cx, &p, e.span),
                    None => self.apply_expr(cx, receiver),
                }
                self.apply_expr(cx, index);
            },
            ExprKind::Block(b) => {
                let outer = clone_state(&self.state);
                self.walk_block_in_scope(cx, b, &outer);
            },
            ExprKind::Await(inner) => self.apply_expr(cx, inner),
            ExprKind::Yield(inner) => self.apply_expr(cx, inner),
            ExprKind::If { cond, then, else_branch } => {
                self.apply_expr(cx, cond);
                let pre = clone_state(&self.state);
                self.walk_block_in_scope(cx, then, &pre);
                let after_then = self.take_state(&pre);
                let mut leaves: Vec<bool> = Vec::new();
                leaves.push(block_diverges(then));
                let after_else = match else_branch {
                    Some(x) => {
                        self.apply_expr(cx, x);
                        leaves.push(expr_diverges(x));
                        retain_state(&self.state, &pre)
                    },
                    None => {
                        leaves.push(false);
                        clone_state(&pre)
                    },
                };
                let ghost a = after_then@;
                let ghost b = after_else@;
                let mut states: Vec<State> = Vec::new();
                states.push(after_then);
                states.push(after_else);
                assert(states.deep_view() =~= seq![a, b]);
                assert(leaves@ =~= seq![leaves@[0], leaves@[1]]);
                self.state = merge_branches(&pre, &states, &leaves);
            },
            ExprKind::Call { .. } => self.apply_call(cx, e),
            ExprKind::Binary { lhs, rhs, .. } => {
                self.apply_expr(cx, lhs);
                self.apply_expr(cx, rhs);
            },
            ExprKind::Unary { operand, .. } => self.apply_expr(cx, operand),
            ExprKind::Range { start, end, .. } => {
                if let Some(x) = start {
                    self.apply_expr(cx, x);
                }
                if let Some(x) = end {
                    self.apply_expr(cx, x);
                }
            },
            ExprKind::Assign { target, value, .. } => {
                let heal = match &target.kind {
                    ExprKind::Ident(n) => match self.state.get(&Place::root(n.as_str())) {
                        Some(PlaceState::Moved) => true,
                        _ => false,
                    },
                    _ => false,
                };
                assert(heal == heals(self@, **target));
                if !heal {
                    self.apply_expr(cx, target);
                }
                self.check_write_against_borrows(target);
                let s = self.classify_borrow_source(cx, value);
                self.apply_expr(cx, value);
                if heal {
                    if let ExprKind::Ident(n) = &target.kind {
                        self.own(n.as_str());
                    }
                }
                self.rebind(cx, target, value, s);
            },
            ExprKind::Cast { expr, .. } => self.apply_expr(cx, expr),
            ExprKind::CastChecked { expr, .. } => self.apply_expr(cx, expr),
            ExprKind::StructLit { fields, .. } => self.apply_fields(cx, fields),
            ExprKind::InferredStructLit { fields } => self.apply_fields(cx, fields),
            ExprKind::GenericStructLit { fields, .. } => self.apply_fields(cx, fields),
            ExprKind::ArrayFill { fill, .. } => self.apply_expr(cx, fill),
            ExprKind::GenericEnumCall { enum_name, args, .. } => if cx.sigs.enums.contains(enum_name.name.as_str()) {
                self.apply_elems(cx, args)
            } else {
                self.apply_exprs(cx, args)
            },
            ExprKind::ArrayLit { elements } => self.apply_elems(cx, elements),
            ExprKind::TupleLit { elements } => self.apply_elems(cx, elements),
            ExprKind::Match { scrutinee, arms } => {
                self.apply_expr(cx, scrutinee);
                if arms.len() > 0 {
                    self.apply_arms(cx, scrutinee, arms);
                }
            },
            _ => {},
        }
    }

    #[verifier::loop_isolation(false)]
    fn walk_stmts(&mut self, cx: &Cx, ss: &Vec<Stmt>, uses: &Vec<LastUse>)
        ensures
            final(self)@ == walk_stmts(cx@, old(self)@, ss@, uses.deep_view(), 0),
        decreases ss, 0nat,
    {
        let mut i: usize = 0;
        while i < ss.len()
            invariant
                i <= ss@.len(),
                walk_stmts(cx@, self@, ss@, uses.deep_view(), i as nat) == walk_stmts(
                    cx@,
                    old(self)@,
                    ss@,
                    uses.deep_view(),
                    0,
                ),
            decreases ss@.len() - i,
        {
            self.apply_stmt(cx, &ss[i]);
            self.release_after(uses, i);
            i += 1;
        }
    }

    fn walk_block_in_scope(&mut self, cx: &Cx, b: &Block, outer: &State)
        ensures
            final(self)@ == walk_scope(cx@, old(self)@, *b, outer@),
        decreases b, 0nat,
    {
        let uses = self.nll_release_schedule(cx, b);
        self.walk_stmts(cx, &b.stmts, &uses);
        if let Some(t) = &b.tail {
            self.apply_expr(cx, t);
        }
        self.end_scope(outer);
    }

    fn meet_loop(&mut self, pre: State)
        ensures
            final(self)@ == old(self)@.with_state(
                merge_arms(pre@, seq![pre@, old(self)@.state], seq![false, false]),
            ),
    {
        let after = clone_state(&self.state);
        let ghost b = after@;
        let ghost a = pre@;
        let mut states: Vec<State> = Vec::new();
        states.push(clone_state(&pre));
        states.push(after);
        let mut leaves: Vec<bool> = Vec::new();
        leaves.push(false);
        leaves.push(false);
        assert(states.deep_view() =~= seq![a, b]);
        assert(leaves@ =~= seq![false, false]);
        self.state = merge_branches(&pre, &states, &leaves);
    }

    fn walk_loop_body(&mut self, cx: &Cx, b: &Block)
        ensures
            final(self)@ == loop_body(cx@, old(self)@, *b),
        decreases b, 1nat,
    {
        let pre = clone_state(&self.state);
        self.walk_block_in_scope(cx, b, &pre);
        self.meet_loop(pre);
    }

    fn apply_stmt(&mut self, cx: &Cx, s: &Stmt)
        ensures
            final(self)@ == apply_stmt(cx@, old(self)@, *s),
        decreases s, 0nat,
    {
        match &s.kind {
            StmtKind::Let { name, ty, init, .. } => {
                let mut src: Vec<(Place, BorrowFlavor)> = Vec::new();
                assert(src.deep_view() =~= Seq::<(PlaceV, BorrowFlavor)>::empty());
                if let Some(e) = init {
                    src = self.classify_borrow_source(cx, e);
                    let views = match ty {
                        Some(t) => is_view_ty(t),
                        None => false,
                    };
                    if src.len() == 0 && views {
                        src = self.coerced(cx, e);
                    }
                    let mut moved = false;
                    if let ExprKind::Ident(n) = &e.kind {
                        if src.len() == 0 && self.binding_is_non_copy(cx, n.as_str()) {
                            self.apply_move_of_binding(cx, n.as_str(), e.span);
                            moved = true;
                        }
                    }
                    if !moved {
                        self.apply_expr(cx, e);
                    }
                }
                self.bind_let(cx, name, ty, init, &src);
            },
            StmtKind::LetDestructure { fields, init, .. } => {
                let src = self.classify_borrow_source(cx, init);
                self.guess_destructured(cx, fields, init);
                self.apply_expr(cx, init);
                self.bind_fields(fields, &src);
            },
            StmtKind::Return(r) => if let Some(e) = r {
                self.apply_expr(cx, e);
            },
            StmtKind::Expr(e) => self.apply_expr(cx, e),
            StmtKind::Defer(e) => self.apply_expr(cx, e),
            StmtKind::Assert(e) => self.apply_expr(cx, e),
            StmtKind::While { cond, body } => {
                self.apply_expr(cx, cond);
                self.walk_loop_body(cx, body);
            },
            StmtKind::For(fl) => self.apply_for(cx, fl),
            StmtKind::Loop(b) => self.walk_loop_body(cx, b),
            _ => {},
        }
    }

    fn apply_for(&mut self, cx: &Cx, fl: &ForLoop)
        ensures
            final(self)@ == apply_for(cx@, old(self)@, *fl),
        decreases fl, 0nat,
    {
        match fl {
            ForLoop::CStyle { init, cond, update, body } => {
                if let Some(s) = init {
                    self.apply_stmt(cx, s);
                }
                if let Some(c) = cond {
                    self.apply_expr(cx, c);
                }
                self.apply_exprs(cx, update);
                self.walk_loop_body(cx, body);
            },
            ForLoop::Range { var, iter, body } => {
                self.apply_expr(cx, iter);
                let t = Type { kind: TypeKind::Path("i32".to_owned()), span: var.span };
                self.types.insert(var.name.clone(), BindingType::Known(t));
                let pre = clone_state(&self.state);
                self.own(var.name.as_str());
                self.walk_block_in_scope(cx, body, &pre);
                self.meet_loop(pre);
            },
        }
    }
}

// ---------------------------------------------------------------------------
// Whole functions.

impl WorldV {
    /// Enters the parameters: each has its type and is owned.
    pub open spec fn enter(self, ps: Seq<Param>, i: nat) -> WorldV
        decreases ps.len() - i,
    {
        if i >= ps.len() {
            self
        } else {
            self.typed(ps[i as int].name.name@, Some(ps[i as int].ty@)).own(ps[i as int].name.name@).enter(ps, i + 1)
        }
    }

    /// Enters the receiver of a method of the type.
    pub open spec fn enter_receiver(self, target: Seq<char>) -> WorldV {
        self.typed("self"@, Some(infer::path_at(target, Span { start: 0, end: 0 }))).own("self"@)
    }
}

/// Walks the statements and records the state after each.
pub open spec fn points_from(
    cx: CxV,
    w: WorldV,
    ss: Seq<Stmt>,
    uses: Seq<(Seq<char>, nat)>,
    acc: Seq<PointSnapshotV>,
    i: nat,
) -> (WorldV, Seq<PointSnapshotV>)
    decreases ss.len() - i,
{
    if i >= ss.len() {
        (w, acc)
    } else {
        let w = apply_stmt(cx, w, ss[i as int]).release_after(uses, i, 0);
        points_from(
            cx,
            w,
            ss,
            uses,
            acc.push(PointSnapshotV { label: "after stmt "@ + text::decimal(i), state: w.state }),
            i + 1,
        )
    }
}

/// The world and the recorded states after a body.
pub open spec fn walked_body(cx: CxV, w: WorldV, name: Seq<char>, b: Block) -> (WorldV, FunctionAnalysisV) {
    let entry = seq![PointSnapshotV { label: "entry"@, state: w.state }];
    let (w, points) = points_from(cx, w, b.stmts@, last_uses(cx, w.env(), b), entry, 0);
    let w = match b.tail {
        Some(t) => apply_expr(cx, w, *t),
        None => w,
    };
    (w, FunctionAnalysisV { name, points: points.push(PointSnapshotV { label: "exit"@, state: w.state }) })
}

/// The analysis of a function: what it reports and the states at its points.
pub open spec fn function_analysis(cx: CxV, name: Seq<char>, ps: Seq<Param>, b: Block) -> (WorldV, FunctionAnalysisV) {
    walked_body(cx, borrows::empty_world().enter(ps, 0), name, b)
}

/// The analysis of a method.
pub open spec fn method_analysis(
    cx: CxV,
    name: Seq<char>,
    target: Seq<char>,
    receiver: Option<Receiver>,
    ps: Seq<Param>,
    b: Block,
) -> (WorldV, FunctionAnalysisV) {
    let w = if receiver is Some {
        borrows::empty_world().enter_receiver(target)
    } else {
        borrows::empty_world()
    };
    walked_body(cx, w.enter(ps, 0), name, b)
}

impl World {
    fn enter(&mut self, ps: &Vec<Param>)
        ensures
            final(self)@ == old(self)@.enter(ps@, 0),
    {
        let mut i: usize = 0;
        while i < ps.len()
            invariant
                i <= ps@.len(),
                self@.enter(ps@, i as nat) == old(self)@.enter(ps@, 0),
            decreases ps@.len() - i,
        {
            self.types.insert(ps[i].name.name.clone(), BindingType::Known(ps[i].ty.clone()));
            self.own(ps[i].name.name.as_str());
            i += 1;
        }
    }

    fn walk_body(&mut self, cx: &Cx, name: &str, b: &Block) -> (r: FunctionAnalysis)
        ensures
            (final(self)@, r@) == walked_body(cx@, old(self)@, name@, *b),
    {
        let mut points: Vec<PointSnapshot> = Vec::new();
        let uses = self.nll_release_schedule(cx, b);
        let ghost uv = uses.deep_view();
        let first = PointSnapshot { label: "entry".to_owned(), state: clone_state(&self.state) };
        let ghost entry = seq![PointSnapshotV { label: "entry"@, state: self@.state }];
        points.push(first);
        assert(points.deep_view() =~= entry);
        let mut i: usize = 0;
        while i < b.stmts.len()
            invariant
                i <= b.stmts@.len(),
                uv == uses.deep_view(),
                points_from(cx@, self@, b.stmts@, uv, points.deep_view(), i as nat) == points_from(
                    cx@,
                    old(self)@,
                    b.stmts@,
                    uv,
                    entry,
                    0,
                ),
            decreases b.stmts@.len() - i,
        {
            self.apply_stmt(cx, &b.stmts[i]);
            self.release_after(&uses, i);
            let mut label: String = "after stmt ".to_owned();
            label.append(decimal_text(i as u64).as_str());
            let p = PointSnapshot { label, state: clone_state(&self.state) };
            let ghost before = points.deep_view();
            let ghost v = p@;
            points.push(p);
            assert(points.deep_view() =~= before.push(v));
            i += 1;
        }
        if let Some(t) = &b.tail {
            self.apply_expr(cx, t);
        }
        let last = PointSnapshot { label: "exit".to_owned(), state: clone_state(&self.state) };
        let ghost before = points.deep_view();
        let ghost v = last@;
        points.push(last);
        assert(points.deep_view() =~= before.push(v));
        FunctionAnalysis { name: name.to_owned(), points }
    }
}

pub fn analyze_function(cx: &Cx, name: &str, ps: &Vec<Param>, b: &Block) -> (r: (World, FunctionAnalysis))
    ensures
        (r.0@, r.1@) == function_analysis(cx@, name@, ps@, *b),
{
    let mut w = World::new();
    w.enter(ps);
    let f = w.walk_body(cx, name, b);
    (w, f)
}

pub fn analyze_method(
    cx: &Cx,
    name: &str,
    target: &str,
    receiver: Option<Receiver>,
    ps: &Vec<Param>,
    b: &Block,
) -> (r: (World, FunctionAnalysis))
    ensures
        (r.0@, r.1@) == method_analysis(cx@, name@, target@, receiver, ps@, *b),
{
    let mut w = World::new();
    if receiver.is_some() {
        let t = Type { kind: TypeKind::Path(target.to_owned()), span: Span { start: 0, end: 0 } };
        w.types.insert("self".to_owned(), BindingType::Known(t));
        w.own("self");
    }
    w.enter(ps);
    let f = w.walk_body(cx, name, b);
    (w, f)
}

} // verus!
