//! The rounds over all bodies in which the flows of a program are found.
use vstd::prelude::*;
use crate::flow;
use crate::sigs;
use crate::ast::{Function, ImplBlock, Item, ItemKind, Method, Param, Program};
use crate::flow::{FlowV, lemma_with_more_flows, walk_function, walk_method};
use crate::sigs::{FnEntry, FnEntryV, SigTable, SigTableV, key_of};

verus! {

// ---------------------------------------------------------------------------
// What is learned of flows stays learned.

/// The later entry knows at least the flows that the earlier one knows, and declares the same.
pub open spec fn knows_more(a: FnEntryV, b: FnEntryV) -> bool {
    &&& a.computed_ret_flow is Some ==> b.computed_ret_flow is Some
    &&& flow::or_zero(a.computed_ret_flow) & flow::or_zero(b.computed_ret_flow) == flow::or_zero(a.computed_ret_flow)
    &&& a.computed_ret_from_receiver == Some(true) ==> b.computed_ret_from_receiver == Some(true)
    &&& forall|i: int| #[trigger] sigs::flag_at(a.computed_keeps, i) ==> sigs::flag_at(b.computed_keeps, i)
    &&& forall|p: (usize, usize)| #[trigger] a.computed_ref_flows.contains(p) ==> b.computed_ref_flows.contains(p)
    &&& a.computed_ret_from_receiver is Some ==> b.computed_ret_from_receiver is Some
    &&& b == (FnEntryV {
        computed_keeps: b.computed_keeps,
        computed_ref_flows: b.computed_ref_flows,
        computed_ret_flow: b.computed_ret_flow,
        computed_ret_from_receiver: b.computed_ret_from_receiver,
        ..a
    })
}

pub open spec fn table_knows_more(a: Map<Seq<char>, FnEntryV>, b: Map<Seq<char>, FnEntryV>) -> bool {
    &&& a.dom() == b.dom()
    &&& forall|k: Seq<char>| a.dom().contains(k) ==> knows_more(#[trigger] a[k], b[k])
}

/// The later table knows at least the flows that the earlier one knows, and declares the same.
pub open spec fn sigs_know_more(a: SigTableV, b: SigTableV) -> bool {
    &&& table_knows_more(a.fns, b.fns)
    &&& table_knows_more(a.methods, b.methods)
    &&& b == (SigTableV { fns: b.fns, methods: b.methods, ..a })
}

proof fn lemma_keeps_bits(x: u64, y: u64, z: u64)
    ensures
        x & (x | y) == x,
        x & x == x,
        x & y == x && y & z == y ==> x & z == x,
{
    assert(x & (x | y) == x) by (bit_vector);
    assert(x & x == x) by (bit_vector);
    assert(x & y == x && y & z == y ==> x & z == x) by (bit_vector);
}

proof fn lemma_knows_itself(a: FnEntryV)
    ensures
        knows_more(a, a),
{
    lemma_keeps_bits(flow::or_zero(a.computed_ret_flow), 0, 0);
}

proof fn lemma_sigs_know_themselves(a: SigTableV)
    ensures
        sigs_know_more(a, a),
{
    assert forall|k: Seq<char>| a.fns.dom().contains(k) implies knows_more(#[trigger] a.fns[k], a.fns[k]) by {
        lemma_knows_itself(a.fns[k]);
    }
    assert forall|k: Seq<char>| a.methods.dom().contains(k) implies knows_more(#[trigger] a.methods[k], a.methods[k]) by {
        lemma_knows_itself(a.methods[k]);
    }
}

proof fn lemma_know_more_chains(a: SigTableV, b: SigTableV, c: SigTableV)
    requires
        sigs_know_more(a, b),
        sigs_know_more(b, c),
    ensures
        sigs_know_more(a, c),
{
    assert forall|k: Seq<char>| a.fns.dom().contains(k) implies knows_more(#[trigger] a.fns[k], c.fns[k]) by {
        assert(knows_more(a.fns[k], b.fns[k]));
        assert(knows_more(b.fns[k], c.fns[k]));
        lemma_keeps_bits(
            flow::or_zero(a.fns[k].computed_ret_flow),
            flow::or_zero(b.fns[k].computed_ret_flow),
            flow::or_zero(c.fns[k].computed_ret_flow),
        );
    }
    assert forall|k: Seq<char>| a.methods.dom().contains(k) implies knows_more(#[trigger] a.methods[k], c.methods[k]) by {
        assert(knows_more(a.methods[k], b.methods[k]));
        assert(knows_more(b.methods[k], c.methods[k]));
        lemma_keeps_bits(
            flow::or_zero(a.methods[k].computed_ret_flow),
            flow::or_zero(b.methods[k].computed_ret_flow),
            flow::or_zero(c.methods[k].computed_ret_flow),
        );
    }
}

proof fn lemma_insert_knows_more(t: Map<Seq<char>, FnEntryV>, key: Seq<char>, e: FnEntryV)
    requires
        t.dom().contains(key),
        knows_more(t[key], e),
    ensures
        table_knows_more(t, t.insert(key, e)),
{
    assert(t.insert(key, e).dom() =~= t.dom());
    assert forall|k: Seq<char>| t.dom().contains(k) implies knows_more(#[trigger] t[k], t.insert(key, e)[k]) by {
        lemma_knows_itself(t[k]);
    }
}

proof fn lemma_method_step(sigs: SigTableV, b: ImplBlock, m: Method)
    ensures
        sigs_know_more(sigs, flow::method_step(sigs, b, m)),
{
    lemma_sigs_know_themselves(sigs);
    let key = sigs::method_key(b.target.name@, m.name.name@);
    if sigs.methods.dom().contains(key) {
        let e = sigs.methods[key];
        let (st, tail) = flow::flow_block(sigs, flow::method_start(b, m, e), m.body);
        let n = m.params@.len();
        lemma_keeps_bits(flow::or_zero(e.computed_ret_flow), (st.ret_bits | tail) & flow::param_mask(n), 0);
        lemma_insert_knows_more(sigs.methods, key, flow::method_learns(e, n, st.receiver_bits, st.ret_bits | tail));
    }
}

proof fn lemma_method_steps(sigs: SigTableV, b: ImplBlock, i: nat)
    ensures
        sigs_know_more(sigs, flow::method_steps(sigs, b, i)),
    decreases b.methods@.len() - i,
{
    lemma_sigs_know_themselves(sigs);
    if i < b.methods@.len() {
        let next = flow::method_step(sigs, b, b.methods@[i as int]);
        lemma_method_step(sigs, b, b.methods@[i as int]);
        lemma_method_steps(next, b, i + 1);
        lemma_know_more_chains(sigs, next, flow::method_steps(next, b, i + 1));
    }
}

proof fn lemma_impl_steps(sigs: SigTableV, items: Seq<Item>, i: nat)
    ensures
        sigs_know_more(sigs, flow::impl_steps(sigs, items, i)),
    decreases items.len() - i,
{
    lemma_sigs_know_themselves(sigs);
    if i < items.len() {
        let next = match items[i as int].kind {
            ItemKind::Impl(b) => flow::method_steps(sigs, b, 0),
            _ => sigs,
        };
        if let ItemKind::Impl(b) = items[i as int].kind {
            lemma_method_steps(sigs, b, 0);
        }
        lemma_impl_steps(next, items, i + 1);
        lemma_know_more_chains(sigs, next, flow::impl_steps(next, items, i + 1));
    }
}

proof fn lemma_fn_step(sigs: SigTableV, f: Function)
    ensures
        sigs_know_more(sigs, flow::fn_step(sigs, f)),
{
    lemma_sigs_know_themselves(sigs);
    let name = f.name.name@;
    if sigs.fns.dom().contains(name) {
        let e = sigs.fns[name];
        let (st, tail) = flow::flow_block(sigs, flow::seed_params(flow::no_flow(), e.param_view_flags, f.params@, 0), f.body);
        lemma_keeps_bits(flow::or_zero(e.computed_ret_flow), (st.ret_bits | tail) & flow::param_mask(f.params@.len()), 0);
        lemma_with_more_flows(e.computed_ref_flows, flow::ref_flows(Seq::empty(), st, f.params@, 0), 0);
        lemma_insert_knows_more(sigs.fns, name, flow::fn_learns(e, f.params@, st, st.ret_bits | tail));
    }
}

proof fn lemma_fn_steps(sigs: SigTableV, items: Seq<Item>, i: nat)
    ensures
        sigs_know_more(sigs, flow::fn_steps(sigs, items, i)),
    decreases items.len() - i,
{
    lemma_sigs_know_themselves(sigs);
    if i < items.len() {
        let next = match items[i as int].kind {
            ItemKind::Function(f) => flow::fn_step(sigs, f),
            _ => sigs,
        };
        if let ItemKind::Function(f) = items[i as int].kind {
            lemma_fn_step(sigs, f);
        }
        lemma_fn_steps(next, items, i + 1);
        lemma_know_more_chains(sigs, next, flow::fn_steps(next, items, i + 1));
    }
}

/// A round over the bodies never forgets a flow, into a receiver, a result or a `ref`
/// parameter, and never changes what a signature declares.
pub proof fn rounds_never_forget(sigs: SigTableV, prog: Program)
    ensures
        sigs_know_more(sigs, flow::flow_round(sigs, prog)),
{
    let half = flow::impl_steps(sigs, prog.items@, 0);
    lemma_impl_steps(sigs, prog.items@, 0);
    lemma_fn_steps(half, prog.items@, 0);
    lemma_know_more_chains(sigs, half, flow::flow_round(sigs, prog));
}

// ---------------------------------------------------------------------------
// How much can still be learned.

pub open spec fn flags_left(flags: Seq<bool>, n: nat) -> nat
    decreases n,
{
    if n == 0 {
        0
    } else {
        (if sigs::flag_at(flags, n - 1) {
            0nat
        } else {
            1nat
        }) + flags_left(flags, (n - 1) as nat)
    }
}

/// The flows into parameter `j` from the first `n` that are not listed.
pub open spec fn sources_left(flows: Seq<(usize, usize)>, j: usize, n: nat) -> nat
    decreases n,
{
    if n == 0 {
        0
    } else {
        (if flows.contains(((n - 1) as usize, j)) {
            0nat
        } else {
            1nat
        }) + sources_left(flows, j, (n - 1) as nat)
    }
}

pub open spec fn flows_left(flows: Seq<(usize, usize)>, n: nat, j: nat) -> nat
    decreases j,
{
    if j == 0 {
        0
    } else {
        sources_left(flows, (j - 1) as usize, n) + flows_left(flows, n, (j - 1) as nat)
    }
}

/// What an entry with `n` parameters can still learn.
pub open spec fn entry_room(e: FnEntryV, n: nat) -> nat {
    flags_left(e.computed_keeps, n) + flows_left(e.computed_ref_flows, n, n) + (u64::MAX - flow::or_zero(
        e.computed_ret_flow,
    )) as nat + (if e.computed_ret_flow is Some {
        0nat
    } else {
        1nat
    }) + (match e.computed_ret_from_receiver {
        Some(true) => 0nat,
        Some(false) => 1nat,
        None => 2nat,
    })
}

pub open spec fn table_room(t: Map<Seq<char>, FnEntryV>, key: Seq<char>, n: nat) -> nat {
    if t.dom().contains(key) {
        entry_room(t[key], n)
    } else {
        0
    }
}

pub open spec fn methods_room(sigs: SigTableV, b: ImplBlock, i: nat) -> nat
    decreases b.methods@.len() - i,
{
    if i >= b.methods@.len() {
        0
    } else {
        let m = b.methods@[i as int];
        table_room(sigs.methods, sigs::method_key(b.target.name@, m.name.name@), m.params@.len()) + methods_room(
            sigs,
            b,
            i + 1,
        )
    }
}

pub open spec fn item_room(sigs: SigTableV, item: Item) -> nat {
    match item.kind {
        ItemKind::Impl(b) => methods_room(sigs, b, 0),
        ItemKind::Function(f) => table_room(sigs.fns, f.name.name@, f.params@.len()),
        _ => 0,
    }
}

/// What the entries of the items from `i` on can still learn.
pub open spec fn room(sigs: SigTableV, items: Seq<Item>, i: nat) -> nat
    decreases items.len() - i,
{
    if i >= items.len() {
        0
    } else {
        item_room(sigs, items[i as int]) + room(sigs, items, i + 1)
    }
}

proof fn lemma_flags_left(a: Seq<bool>, b: Seq<bool>, n: nat)
    requires
        forall|i: int| #[trigger] sigs::flag_at(a, i) ==> sigs::flag_at(b, i),
    ensures
        flags_left(b, n) <= flags_left(a, n),
        (exists|i: int| 0 <= i < n && #[trigger] sigs::flag_at(b, i) && !sigs::flag_at(a, i)) ==> flags_left(b, n)
            < flags_left(a, n),
    decreases n,
{
    if n > 0 {
        lemma_flags_left(a, b, (n - 1) as nat);
    }
}

proof fn lemma_sources_left(a: Seq<(usize, usize)>, b: Seq<(usize, usize)>, j: usize, n: nat)
    requires
        n <= usize::MAX,
        forall|p: (usize, usize)| #[trigger] a.contains(p) ==> b.contains(p),
    ensures
        sources_left(b, j, n) <= sources_left(a, j, n),
        (exists|i: usize| i < n && #[trigger] b.contains((i, j)) && !a.contains((i, j))) ==> sources_left(b, j, n)
            < sources_left(a, j, n),
    decreases n,
{
    if n > 0 {
        lemma_sources_left(a, b, j, (n - 1) as nat);
    }
}

proof fn lemma_flows_left(a: Seq<(usize, usize)>, b: Seq<(usize, usize)>, n: nat, m: nat)
    requires
        n <= usize::MAX,
        m <= usize::MAX,
        forall|p: (usize, usize)| #[trigger] a.contains(p) ==> b.contains(p),
    ensures
        flows_left(b, n, m) <= flows_left(a, n, m),
        (exists|i: usize, j: usize| i < n && j < m && #[trigger] b.contains((i, j)) && !a.contains((i, j))) ==> flows_left(
            b,
            n,
            m,
        ) < flows_left(a, n, m),
    decreases m,
{
    if m > 0 {
        lemma_flows_left(a, b, n, (m - 1) as nat);
        lemma_sources_left(a, b, (m - 1) as usize, n);
    }
}

proof fn lemma_less_room(a: FnEntryV, b: FnEntryV, n: nat)
    requires
        n <= usize::MAX,
        knows_more(a, b),
    ensures
        entry_room(b, n) <= entry_room(a, n),
        a.computed_ret_flow != b.computed_ret_flow ==> entry_room(b, n) < entry_room(a, n),
        a.computed_ret_from_receiver != b.computed_ret_from_receiver ==> entry_room(b, n) < entry_room(a, n),
        (exists|i: int|
            0 <= i < n && #[trigger] sigs::flag_at(b.computed_keeps, i) && !sigs::flag_at(a.computed_keeps, i))
            ==> entry_room(b, n) < entry_room(a, n),
        (exists|i: usize, j: usize|
            i < n && j < n && #[trigger] b.computed_ref_flows.contains((i, j)) && !a.computed_ref_flows.contains((i, j)))
            ==> entry_room(b, n) < entry_room(a, n),
{
    let x = flow::or_zero(a.computed_ret_flow);
    let y = flow::or_zero(b.computed_ret_flow);
    assert(x & y == x ==> x <= y) by (bit_vector);
    lemma_flags_left(a.computed_keeps, b.computed_keeps, n);
    lemma_flows_left(a.computed_ref_flows, b.computed_ref_flows, n, n);
}

proof fn lemma_methods_room(x: SigTableV, y: SigTableV, b: ImplBlock, i: nat)
    requires
        sigs_know_more(x, y),
    ensures
        methods_room(y, b, i) <= methods_room(x, b, i),
        forall|k: int|
            i <= k < b.methods@.len() && table_room(
                y.methods,
                sigs::method_key(b.target.name@, (#[trigger] b.methods@[k]).name.name@),
                b.methods@[k].params@.len(),
            ) < table_room(
                x.methods,
                sigs::method_key(b.target.name@, b.methods@[k].name.name@),
                b.methods@[k].params@.len(),
            ) ==> methods_room(y, b, i) < methods_room(x, b, i),
    decreases b.methods@.len() - i,
{
    if i < b.methods@.len() {
        let m = b.methods@[i as int];
        let key = sigs::method_key(b.target.name@, m.name.name@);
        assert(m.params@.len() == m.params.len());
        if x.methods.dom().contains(key) {
            assert(knows_more(x.methods[key], y.methods[key]));
            lemma_less_room(x.methods[key], y.methods[key], m.params@.len());
        }
        lemma_methods_room(x, y, b, i + 1);
    }
}

proof fn lemma_room(x: SigTableV, y: SigTableV, items: Seq<Item>, i: nat)
    requires
        sigs_know_more(x, y),
    ensures
        room(y, items, i) <= room(x, items, i),
        forall|k: int|
            i <= k < items.len() && item_room(y, #[trigger] items[k]) < item_room(x, items[k]) ==> room(y, items, i) < room(
                x,
                items,
                i,
            ),
    decreases items.len() - i,
{
    if i < items.len() {
        match items[i as int].kind {
            ItemKind::Impl(b) => {
                lemma_methods_room(x, y, b, 0);
            },
            ItemKind::Function(f) => {
                assert(f.params@.len() == f.params.len());
                if x.fns.dom().contains(f.name.name@) {
                    assert(knows_more(x.fns[f.name.name@], y.fns[f.name.name@]));
                    lemma_less_room(x.fns[f.name.name@], y.fns[f.name.name@], f.params@.len());
                }
            },
            _ => {},
        }
        lemma_room(x, y, items, i + 1);
    }
}

/// The flows are between the first `n` parameters.
spec fn are_within(flows: Seq<(usize, usize)>, n: nat) -> bool {
    forall|k: int| 0 <= k < flows.len() ==> (#[trigger] flows[k]).0 < n && flows[k].1 < n
}

proof fn lemma_flows_into(acc: Seq<(usize, usize)>, bits: u64, j: nat, n: nat, i: nat)
    requires
        n <= usize::MAX,
        j < n,
        are_within(acc, n),
    ensures
        are_within(flow::flows_into(acc, bits, j, n, i), n),
    decreases n - i,
{
    if i < n && i < 64 {
        let next = if i != j && flow::bit_at(bits, i) {
            acc.push((i as usize, j as usize))
        } else {
            acc
        };
        lemma_flows_into(next, bits, j, n, i + 1);
    }
}

proof fn lemma_ref_flows(acc: Seq<(usize, usize)>, st: FlowV, ps: Seq<Param>, j: nat)
    requires
        ps.len() <= usize::MAX,
        are_within(acc, ps.len()),
    ensures
        are_within(flow::ref_flows(acc, st, ps, j), ps.len()),
    decreases ps.len() - j,
{
    if j < ps.len() {
        let p = ps[j as int];
        let bits = st.of(p.name.name@);
        let next = if p.mutable && !p.move_ {
            flow::flows_into(acc, bits, j, ps.len(), 0)
        } else {
            acc
        };
        lemma_flows_into(acc, bits, j, ps.len(), 0);
        lemma_ref_flows(next, st, ps, j + 1);
    }
}

/// A method that learns something has less left to learn.
proof fn lemma_method_progress(sigs: SigTableV, items: Seq<Item>, x: int, b: ImplBlock, k: int)
    requires
        0 <= x < items.len(),
        items[x].kind == ItemKind::Impl(b),
        0 <= k < b.methods@.len(),
    ensures
        ({
            let next = flow::method_step(sigs, b, b.methods@[k]);
            next == sigs || room(next, items, 0) < room(sigs, items, 0)
        }),
{
    let m = b.methods@[k];
    let next = flow::method_step(sigs, b, m);
    let key = sigs::method_key(b.target.name@, m.name.name@);
    if next != sigs {
        let e = sigs.methods[key];
        let n = m.params@.len();
        assert(n == m.params.len());
        let (st, tail) = flow::flow_block(sigs, flow::method_start(b, m, e), m.body);
        let flags = flow::flags_of(st.receiver_bits, n);
        let learned = flow::method_learns(e, n, st.receiver_bits, st.ret_bits | tail);
        lemma_method_step(sigs, b, m);
        assert(next.methods[key] == learned);
        if learned == e {
            assert(sigs.methods.insert(key, e) =~= sigs.methods);
        }
        assert(knows_more(e, learned));
        if learned.computed_keeps != e.computed_keeps {
            let i = choose|i: int| 0 <= i < flags.len() && #[trigger] flags[i] && !sigs::flag_at(e.computed_keeps, i);
            assert(sigs::flag_at(flags, i));
            assert(sigs::flag_at(learned.computed_keeps, i));
        }
        lemma_less_room(e, learned, n);
        lemma_methods_room(sigs, next, b, 0);
        assert(b.methods@[k] == m);
        lemma_room(sigs, next, items, 0);
        assert(item_room(next, items[x]) < item_room(sigs, items[x]));
    }
}

/// A function that learns something has less left to learn.
proof fn lemma_fn_progress(sigs: SigTableV, items: Seq<Item>, x: int, f: Function)
    requires
        0 <= x < items.len(),
        items[x].kind == ItemKind::Function(f),
    ensures
        ({
            let next = flow::fn_step(sigs, f);
            next == sigs || room(next, items, 0) < room(sigs, items, 0)
        }),
{
    let next = flow::fn_step(sigs, f);
    let name = f.name.name@;
    if next != sigs {
        let e = sigs.fns[name];
        let n = f.params@.len();
        assert(n == f.params.len());
        let (st, tail) = flow::flow_block(sigs, flow::seed_params(flow::no_flow(), e.param_view_flags, f.params@, 0), f.body);
        let flows = flow::ref_flows(Seq::empty(), st, f.params@, 0);
        let learned = flow::fn_learns(e, f.params@, st, st.ret_bits | tail);
        lemma_fn_step(sigs, f);
        assert(next.fns[name] == learned);
        if learned == e {
            assert(sigs.fns.insert(name, e) =~= sigs.fns);
        }
        assert(knows_more(e, learned));
        if learned.computed_ref_flows != e.computed_ref_flows {
            lemma_ref_flows(Seq::empty(), st, f.params@, 0);
            let p = lemma_new_flow(e.computed_ref_flows, flows, 0);
            assert(learned.computed_ref_flows.contains((p.0, p.1)));
        }
        lemma_less_room(e, learned, n);
        lemma_room(sigs, next, items, 0);
        assert(item_room(next, items[x]) < item_room(sigs, items[x]));
    }
}

/// Where adding flows changes a list, one of them was not in it.
proof fn lemma_new_flow(flows: Seq<(usize, usize)>, more: Seq<(usize, usize)>, k: nat) -> (p: (usize, usize))
    requires
        flow::with_more_flows(flows, more, k) != flows,
    ensures
        more.contains(p),
        !flows.contains(p),
        flow::with_more_flows(flows, more, k).contains(p),
    decreases more.len() - k,
{
    lemma_with_more_flows(flows, more, k);
    if flows.contains(more[k as int]) {
        lemma_new_flow(flows, more, k + 1)
    } else {
        more[k as int]
    }
}

proof fn lemma_methods_progress(sigs: SigTableV, items: Seq<Item>, x: int, b: ImplBlock, k: nat)
    requires
        0 <= x < items.len(),
        items[x].kind == ItemKind::Impl(b),
    ensures
        ({
            let next = flow::method_steps(sigs, b, k);
            next == sigs || room(next, items, 0) < room(sigs, items, 0)
        }),
    decreases b.methods@.len() - k,
{
    if k < b.methods@.len() {
        lemma_method_progress(sigs, items, x, b, k as int);
        lemma_methods_progress(flow::method_step(sigs, b, b.methods@[k as int]), items, x, b, k + 1);
    }
}

proof fn lemma_impls_progress(sigs: SigTableV, items: Seq<Item>, i: nat)
    ensures
        ({
            let next = flow::impl_steps(sigs, items, i);
            next == sigs || room(next, items, 0) < room(sigs, items, 0)
        }),
    decreases items.len() - i,
{
    if i < items.len() {
        let next = match items[i as int].kind {
            ItemKind::Impl(b) => flow::method_steps(sigs, b, 0),
            _ => sigs,
        };
        if let ItemKind::Impl(b) = items[i as int].kind {
            lemma_methods_progress(sigs, items, i as int, b, 0);
        }
        lemma_impls_progress(next, items, i + 1);
    }
}

proof fn lemma_fns_progress(sigs: SigTableV, items: Seq<Item>, i: nat)
    ensures
        ({
            let next = flow::fn_steps(sigs, items, i);
            next == sigs || room(next, items, 0) < room(sigs, items, 0)
        }),
    decreases items.len() - i,
{
    if i < items.len() {
        let next = match items[i as int].kind {
            ItemKind::Function(f) => flow::fn_step(sigs, f),
            _ => sigs,
        };
        if let ItemKind::Function(f) = items[i as int].kind {
            lemma_fn_progress(sigs, items, i as int, f);
        }
        lemma_fns_progress(next, items, i + 1);
    }
}

/// A round that teaches something leaves less to learn.
pub proof fn rounds_come_to_an_end(sigs: SigTableV, prog: Program)
    ensures
        flow::flow_round(sigs, prog) == sigs || room(flow::flow_round(sigs, prog), prog.items@, 0) < room(
            sigs,
            prog.items@,
            0,
        ),
{
    lemma_impls_progress(sigs, prog.items@, 0);
    lemma_fns_progress(flow::impl_steps(sigs, prog.items@, 0), prog.items@, 0);
}

// ---------------------------------------------------------------------------
// The flows of a program.

/// The table after all the rounds that teach something.
pub open spec fn settled(sigs: SigTableV, prog: Program) -> SigTableV
    decreases room(sigs, prog.items@, 0)
    via settled_ends
{
    let next = flow::flow_round(sigs, prog);
    if next == sigs {
        sigs
    } else {
        settled(next, prog)
    }
}

#[via_fn]
proof fn settled_ends(sigs: SigTableV, prog: Program) {
    rounds_come_to_an_end(sigs, prog);
}

/// The entry of a method whose body is walked: no flow into its result is known yet. Only what
/// is never walked counts as passing on whatever it is given.
pub open spec fn opened_method(e: FnEntryV) -> FnEntryV {
    FnEntryV {
        computed_ret_flow: Some(flow::or_zero(e.computed_ret_flow)),
        computed_ret_from_receiver: Some(e.computed_ret_from_receiver == Some(true)),
        ..e
    }
}

/// The entry of a function whose body is walked: no flow into its result is known yet.
pub open spec fn opened_fn(e: FnEntryV) -> FnEntryV {
    FnEntryV { computed_ret_flow: Some(flow::or_zero(e.computed_ret_flow)), ..e }
}

pub open spec fn open_methods(sigs: SigTableV, b: ImplBlock, i: nat) -> SigTableV
    decreases b.methods@.len() - i,
{
    if i >= b.methods@.len() {
        sigs
    } else {
        let m = b.methods@[i as int];
        let key = sigs::method_key(b.target.name@, m.name.name@);
        open_methods(
            if flow::is_walked_method(m) && sigs.methods.dom().contains(key) {
                SigTableV { methods: sigs.methods.insert(key, opened_method(sigs.methods[key])), ..sigs }
            } else {
                sigs
            },
            b,
            i + 1,
        )
    }
}

/// The table before the first round: of the bodies that are walked, from item `i` on, the
/// results are known to be looked into.
pub open spec fn open_items(sigs: SigTableV, items: Seq<Item>, i: nat) -> SigTableV
    decreases items.len() - i,
{
    if i >= items.len() {
        sigs
    } else {
        open_items(
            match items[i as int].kind {
                ItemKind::Impl(b) => open_methods(sigs, b, 0),
                ItemKind::Function(f) => if flow::is_walked_fn(f) && sigs.fns.dom().contains(f.name.name@) {
                    SigTableV { fns: sigs.fns.insert(f.name.name@, opened_fn(sigs.fns[f.name.name@])), ..sigs }
                } else {
                    sigs
                },
                _ => sigs,
            },
            items,
            i + 1,
        )
    }
}

/// The signatures with all the flows that the bodies show.
pub open spec fn with_flows(sigs: SigTableV, prog: Program) -> SigTableV {
    settled(open_items(sigs, prog.items@, 0), prog)
}

/// The rounds end in a table that a further round would not change.
pub proof fn settled_tables_stay(sigs: SigTableV, prog: Program)
    ensures
        flow::flow_round(settled(sigs, prog), prog) == settled(sigs, prog),
    decreases room(sigs, prog.items@, 0),
{
    let next = flow::flow_round(sigs, prog);
    if next != sigs {
        rounds_come_to_an_end(sigs, prog);
        settled_tables_stay(next, prog);
    }
}

proof fn lemma_settled_knows_more(sigs: SigTableV, prog: Program)
    ensures
        sigs_know_more(sigs, settled(sigs, prog)),
    decreases room(sigs, prog.items@, 0),
{
    lemma_sigs_know_themselves(sigs);
    let next = flow::flow_round(sigs, prog);
    if next != sigs {
        rounds_come_to_an_end(sigs, prog);
        rounds_never_forget(sigs, prog);
        lemma_settled_knows_more(next, prog);
        lemma_know_more_chains(sigs, next, settled(next, prog));
    }
}

proof fn lemma_open_methods(sigs: SigTableV, b: ImplBlock, i: nat)
    ensures
        sigs_know_more(sigs, open_methods(sigs, b, i)),
    decreases b.methods@.len() - i,
{
    lemma_sigs_know_themselves(sigs);
    if i < b.methods@.len() {
        let m = b.methods@[i as int];
        let key = sigs::method_key(b.target.name@, m.name.name@);
        let next = if flow::is_walked_method(m) && sigs.methods.dom().contains(key) {
            SigTableV { methods: sigs.methods.insert(key, opened_method(sigs.methods[key])), ..sigs }
        } else {
            sigs
        };
        if flow::is_walked_method(m) && sigs.methods.dom().contains(key) {
            lemma_knows_itself(sigs.methods[key]);
            lemma_insert_knows_more(sigs.methods, key, opened_method(sigs.methods[key]));
        }
        lemma_open_methods(next, b, i + 1);
        lemma_know_more_chains(sigs, next, open_methods(next, b, i + 1));
    }
}

proof fn lemma_open_items(sigs: SigTableV, items: Seq<Item>, i: nat)
    ensures
        sigs_know_more(sigs, open_items(sigs, items, i)),
    decreases items.len() - i,
{
    lemma_sigs_know_themselves(sigs);
    if i < items.len() {
        let next = match items[i as int].kind {
            ItemKind::Impl(b) => open_methods(sigs, b, 0),
            ItemKind::Function(f) => if flow::is_walked_fn(f) && sigs.fns.dom().contains(f.name.name@) {
                SigTableV { fns: sigs.fns.insert(f.name.name@, opened_fn(sigs.fns[f.name.name@])), ..sigs }
            } else {
                sigs
            },
            _ => sigs,
        };
        match items[i as int].kind {
            ItemKind::Impl(b) => {
                lemma_open_methods(sigs, b, 0);
            },
            ItemKind::Function(f) => {
                if flow::is_walked_fn(f) && sigs.fns.dom().contains(f.name.name@) {
                    lemma_knows_itself(sigs.fns[f.name.name@]);
                    lemma_insert_knows_more(sigs.fns, f.name.name@, opened_fn(sigs.fns[f.name.name@]));
                }
            },
            _ => {},
        }
        lemma_open_items(next, items, i + 1);
        lemma_know_more_chains(sigs, next, open_items(next, items, i + 1));
    }
}

/// Finding the flows of a program keeps every flow that was known before, and never changes
/// what a signature declares.
pub proof fn known_flows_stay_known(sigs: SigTableV, prog: Program)
    ensures
        sigs_know_more(sigs, with_flows(sigs, prog)),
{
    let start = open_items(sigs, prog.items@, 0);
    lemma_open_items(sigs, prog.items@, 0);
    lemma_settled_knows_more(start, prog);
    lemma_know_more_chains(sigs, start, with_flows(sigs, prog));
}

fn open_impl(sigs: &mut SigTable, b: &ImplBlock)
    ensures
        final(sigs)@ == open_methods(old(sigs)@, *b, 0),
{
    let mut i: usize = 0;
    while i < b.methods.len()
        invariant
            i <= b.methods@.len(),
            open_methods(sigs@, *b, i as nat) == open_methods(old(sigs)@, *b, 0),
        decreases b.methods@.len() - i,
    {
        let m = &b.methods[i];
        if m.generic_params.len() == 0 && !m.is_declaration && m.receiver.is_some() {
            let key = key_of(b.target.name.as_str(), m.name.name.as_str());
            let found: Option<FnEntry> = match sigs.methods.get(key.as_str()) {
                Some(e) => Some(e.clone()),
                None => None,
            };
            if let Some(e) = found {
                let mut entry: FnEntry = e;
                let ghost e0 = entry@;
                let bits: u64 = match entry.computed_ret_flow {
                    Some(v) => v,
                    None => 0,
                };
                let from_receiver: bool = match entry.computed_ret_from_receiver {
                    Some(v) => v,
                    None => false,
                };
                entry.computed_ret_flow = Some(bits);
                entry.computed_ret_from_receiver = Some(from_receiver);
                assert(entry@ =~= opened_method(e0));
                sigs.methods.insert(key, entry);
            }
        }
        i += 1;
    }
}

fn open_function(sigs: &mut SigTable, f: &Function)
    ensures
        final(sigs)@ == (if flow::is_walked_fn(*f) && old(sigs)@.fns.dom().contains(f.name.name@) {
            SigTableV { fns: old(sigs)@.fns.insert(f.name.name@, opened_fn(old(sigs)@.fns[f.name.name@])), ..old(sigs)@ }
        } else {
            old(sigs)@
        }),
{
    if f.generic_params.len() > 0 || f.is_foreign || f.is_declaration {
        return ;
    }
    let mut entry: FnEntry = match sigs.fns.get(f.name.name.as_str()) {
        Some(e) => e.clone(),
        None => {
            return ;
        },
    };
    let ghost e0 = entry@;
    let bits: u64 = match entry.computed_ret_flow {
        Some(v) => v,
        None => 0,
    };
    entry.computed_ret_flow = Some(bits);
    assert(entry@ =~= opened_fn(e0));
    sigs.fns.insert(f.name.name.clone(), entry);
}

fn open_flows(sigs: &mut SigTable, prog: &Program)
    ensures
        final(sigs)@ == open_items(old(sigs)@, prog.items@, 0),
{
    let mut i: usize = 0;
    while i < prog.items.len()
        invariant
            i <= prog.items@.len(),
            open_items(sigs@, prog.items@, i as nat) == open_items(old(sigs)@, prog.items@, 0),
        decreases prog.items@.len() - i,
    {
        match &prog.items[i].kind {
            ItemKind::Impl(b) => open_impl(sigs, b),
            ItemKind::Function(f) => open_function(sigs, f),
            _ => {},
        }
        i += 1;
    }
}

fn walk_impls(sigs: &mut SigTable, prog: &Program) -> (changed: bool)
    ensures
        final(sigs)@ == flow::impl_steps(old(sigs)@, prog.items@, 0),
        changed == (final(sigs)@ != old(sigs)@),
{
    let mut changed = false;
    let mut i: usize = 0;
    while i < prog.items.len()
        invariant
            i <= prog.items@.len(),
            flow::impl_steps(sigs@, prog.items@, i as nat) == flow::impl_steps(old(sigs)@, prog.items@, 0),
            !changed ==> sigs@ == old(sigs)@,
            changed ==> room(sigs@, prog.items@, 0) < room(old(sigs)@, prog.items@, 0),
        decreases prog.items@.len() - i,
    {
        if let ItemKind::Impl(b) = &prog.items[i].kind {
            let ghost start = sigs@;
            let mut j: usize = 0;
            while j < b.methods.len()
                invariant
                    i < prog.items@.len(),
                    prog.items@[i as int].kind == ItemKind::Impl(*b),
                    j <= b.methods@.len(),
                    flow::method_steps(sigs@, *b, j as nat) == flow::method_steps(start, *b, 0),
                    !changed ==> sigs@ == old(sigs)@,
                    changed ==> room(sigs@, prog.items@, 0) < room(old(sigs)@, prog.items@, 0),
                decreases b.methods@.len() - j,
            {
                proof {
                    lemma_method_progress(sigs@, prog.items@, i as int, *b, j as int);
                }
                if walk_method(sigs, b, &b.methods[j]) {
                    changed = true;
                }
                j += 1;
            }
        }
        i += 1;
    }
    changed
}

fn walk_functions(sigs: &mut SigTable, prog: &Program) -> (changed: bool)
    ensures
        final(sigs)@ == flow::fn_steps(old(sigs)@, prog.items@, 0),
        changed == (final(sigs)@ != old(sigs)@),
{
    let mut changed = false;
    let mut i: usize = 0;
    while i < prog.items.len()
        invariant
            i <= prog.items@.len(),
            flow::fn_steps(sigs@, prog.items@, i as nat) == flow::fn_steps(old(sigs)@, prog.items@, 0),
            !changed ==> sigs@ == old(sigs)@,
            changed ==> room(sigs@, prog.items@, 0) < room(old(sigs)@, prog.items@, 0),
        decreases prog.items@.len() - i,
    {
        if let ItemKind::Function(f) = &prog.items[i].kind {
            proof {
                lemma_fn_progress(sigs@, prog.items@, i as int, *f);
            }
            if walk_function(sigs, f) {
                changed = true;
            }
        }
        i += 1;
    }
    changed
}

/// Adds to the signatures the flows that the bodies show, round by round until a round finds
/// nothing new.
pub fn compute_receiver_flows(prog: &Program, sigs: &mut SigTable)
    ensures
        final(sigs)@ == with_flows(old(sigs)@, *prog),
        flow::flow_round(final(sigs)@, *prog) == final(sigs)@,
        sigs_know_more(old(sigs)@, final(sigs)@),
{
    open_flows(sigs, prog);
    let mut changed = true;
    while changed
        invariant
            settled(sigs@, *prog) == with_flows(old(sigs)@, *prog),
            !changed ==> flow::flow_round(sigs@, *prog) == sigs@,
        decreases room(sigs@, prog.items@, 0), changed as int,
    {
        proof {
            lemma_impls_progress(sigs@, prog.items@, 0);
            lemma_fns_progress(flow::impl_steps(sigs@, prog.items@, 0), prog.items@, 0);
        }
        let a = walk_impls(sigs, prog);
        let b = walk_functions(sigs, prog);
        changed = a || b;
    }
    proof {
        known_flows_stay_known(old(sigs)@, *prog);
    }
}

} // verus!
