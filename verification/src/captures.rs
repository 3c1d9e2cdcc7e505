//! The methods whose result captures the address of the receiver.
use vstd::prelude::*;
use crate::escapes;
use crate::walks;
use crate::ast::{Block, Expr, ExprKind, ImplBlock, Item, ItemKind, Program};
use crate::escapes::is_bound_method_ref;
use crate::sigs::{SigTable, SigTableV};
use crate::text::str_eq;
use crate::views::MethodSet;
use crate::walks::collect_subs_block;

verus! {

pub open spec fn is_receiver(e: Expr) -> bool {
    match e.kind {
        ExprKind::Ident(n) => n@ == "this"@ || n@ == "self"@,
        _ => false,
    }
}

fn expr_is_receiver(e: &Expr) -> (r: bool)
    ensures
        r == is_receiver(*e),
{
    match &e.kind {
        ExprKind::Ident(n) => str_eq(n.as_str(), "this") || str_eq(n.as_str(), "self"),
        _ => false,
    }
}

/// The argument is a method bound to the receiver.
pub open spec fn arg_binds(sigs: SigTableV, target: Seq<char>, arg: Expr) -> bool {
    match arg.kind {
        ExprKind::Field { receiver, name } => is_receiver(*receiver) && escapes::bound_method(sigs, target, name.name@),
        _ => false,
    }
}

/// The call binds a method to the receiver, or is one of the receiver's own capturing
/// methods.
pub open spec fn call_binds(sigs: SigTableV, target: Seq<char>, known: Set<(Seq<char>, Seq<char>)>, e: &Expr) -> bool {
    match e.kind {
        ExprKind::Call { callee, args, .. } => {
            ||| exists|k: int| 0 <= k < args@.len() && arg_binds(sigs, target, #[trigger] args@[k])
            ||| match callee.kind {
                ExprKind::Field { receiver, name } => is_receiver(*receiver) && known.contains((target, name.name@)),
                _ => false,
            }
        },
        _ => false,
    }
}

pub open spec fn body_binds(sigs: SigTableV, target: Seq<char>, known: Set<(Seq<char>, Seq<char>)>, b: Block) -> bool {
    exists|k: int|
        0 <= k < walks::subs_block(Seq::empty(), &b).len() && call_binds(
            sigs,
            target,
            known,
            #[trigger] walks::subs_block(Seq::empty(), &b)[k],
        )
}

/// If the method gives a result that captures its receiver, the set has it.
pub open spec fn capture_rule(sigs: SigTableV, known: Set<(Seq<char>, Seq<char>)>, b: ImplBlock, j: int) -> bool {
    0 <= j < b.methods@.len() && sigs.struct_fields.dom().contains(b.target.name@) && b.methods@[j].return_type is Some
        && body_binds(sigs, b.target.name@, known, b.methods@[j].body) ==> known.contains(
        (b.target.name@, b.methods@[j].name.name@),
    )
}

pub open spec fn item_captures(sigs: SigTableV, known: Set<(Seq<char>, Seq<char>)>, item: Item) -> bool {
    match item.kind {
        ItemKind::Impl(b) => forall|j: int| #[trigger] capture_rule(sigs, known, b, j),
        _ => true,
    }
}

pub open spec fn captures_closed(prog: Program, sigs: SigTableV, known: Set<(Seq<char>, Seq<char>)>) -> bool {
    forall|i: int| 0 <= i < prog.items@.len() ==> item_captures(sigs, known, #[trigger] prog.items@[i])
}

/// The least set of methods closed under the rule.
pub open spec fn is_capturing(prog: Program, sigs: SigTableV, known: Set<(Seq<char>, Seq<char>)>) -> bool {
    &&& captures_closed(prog, sigs, known)
    &&& forall|other: Set<(Seq<char>, Seq<char>)>| #[trigger] captures_closed(prog, sigs, other) ==> known.subset_of(other)
}

pub open spec fn capturing_of(prog: Program, sigs: SigTableV) -> Set<(Seq<char>, Seq<char>)> {
    choose|s: Set<(Seq<char>, Seq<char>)>| is_capturing(prog, sigs, s)
}

proof fn lemma_binds_grows(
    sigs: SigTableV,
    target: Seq<char>,
    a: Set<(Seq<char>, Seq<char>)>,
    b: Set<(Seq<char>, Seq<char>)>,
    body: Block,
)
    requires
        a.subset_of(b),
        body_binds(sigs, target, a, body),
    ensures
        body_binds(sigs, target, b, body),
{
    let xs = walks::subs_block(Seq::empty(), &body);
    let k = choose|k: int| 0 <= k < xs.len() && call_binds(sigs, target, a, #[trigger] xs[k]);
    assert(call_binds(sigs, target, b, xs[k]));
}

fn call_binds_receiver(sigs: &SigTable, target: &str, known: &MethodSet, e: &Expr) -> (r: bool)
    ensures
        r == call_binds(sigs@, target@, known@, e),
{
    if let ExprKind::Call { callee, args, .. } = &e.kind {
        let mut k: usize = 0;
        while k < args.len()
            invariant
                k <= args@.len(),
                forall|j: int| 0 <= j < k ==> !arg_binds(sigs@, target@, #[trigger] args@[j]),
                e.kind is Call,
                e.kind->Call_args == *args,
            decreases args@.len() - k,
        {
            if let ExprKind::Field { receiver, name } = &args[k].kind {
                if expr_is_receiver(receiver) && is_bound_method_ref(sigs, target, name.name.as_str()) {
                    assert(arg_binds(sigs@, target@, args@[k as int]));
                    return true;
                }
            }
            k += 1;
        }
        if let ExprKind::Field { receiver, name } = &callee.kind {
            return expr_is_receiver(receiver) && known.contains(target, name.name.as_str());
        }
    }
    false
}

fn body_binds_receiver(sigs: &SigTable, target: &str, known: &MethodSet, b: &Block) -> (r: bool)
    ensures
        r == body_binds(sigs@, target@, known@, *b),
{
    let mut xs: Vec<&Expr> = Vec::new();
    collect_subs_block(&mut xs, b);
    let ghost all = walks::subs_block(Seq::empty(), b);
    let mut k: usize = 0;
    while k < xs.len()
        invariant
            k <= xs@.len(),
            all == xs@,
            all == walks::subs_block(Seq::empty(), b),
            forall|j: int| 0 <= j < k ==> !call_binds(sigs@, target@, known@, #[trigger] all[j]),
        decreases xs@.len() - k,
    {
        if call_binds_receiver(sigs, target, known, xs[k]) {
            assert(call_binds(sigs@, target@, known@, all[k as int]));
            return true;
        }
        k += 1;
    }
    false
}

pub open spec fn methods_of(item: Item) -> nat {
    match item.kind {
        ItemKind::Impl(b) => b.methods@.len(),
        _ => 0,
    }
}

/// The pair names a method of one of the items.
pub open spec fn names_a_method(items: Seq<Item>, p: (Seq<char>, Seq<char>)) -> bool {
    exists|i: int, j: int|
        0 <= i < items.len() && 0 <= j < methods_of(items[i]) && #[trigger] method_at(items, i, j) == p
}

pub open spec fn method_at(items: Seq<Item>, i: int, j: int) -> (Seq<char>, Seq<char>) {
    match items[i].kind {
        ItemKind::Impl(b) => (b.target.name@, b.methods@[j].name.name@),
        _ => (Seq::empty(), Seq::empty()),
    }
}

/// The pairs that name methods of the first `i` items.
spec fn listed_methods(items: Seq<Item>, i: nat) -> Seq<(Seq<char>, Seq<char>)>
    decreases i,
{
    if i == 0 {
        Seq::empty()
    } else {
        listed_methods(items, (i - 1) as nat) + Seq::new(methods_of(items[i - 1]), |j: int| method_at(items, i - 1, j))
    }
}

proof fn lemma_listed(items: Seq<Item>, i: nat, a: int, j: int)
    requires
        0 <= a < i <= items.len(),
        0 <= j < methods_of(items[a]),
    ensures
        listed_methods(items, i).contains(method_at(items, a, j)),
    decreases i,
{
    let prev = listed_methods(items, (i - 1) as nat);
    let last = Seq::new(methods_of(items[i - 1]), |k: int| method_at(items, i - 1, k));
    let all = listed_methods(items, i);
    assert(all =~= prev + last);
    if a == i - 1 {
        assert(all[prev.len() + j] == method_at(items, a, j));
    } else {
        lemma_listed(items, (i - 1) as nat, a, j);
        let k = choose|k: int| 0 <= k < prev.len() && prev[k] == method_at(items, a, j);
        assert(all[k] == method_at(items, a, j));
    }
}

/// Distinct pairs that all name methods are no more than there are methods.
proof fn lemma_few_methods(items: Seq<Item>, s: Seq<(Seq<char>, Seq<char>)>)
    requires
        s.no_duplicates(),
        forall|k: int| 0 <= k < s.len() ==> names_a_method(items, #[trigger] s[k]),
    ensures
        s.len() <= listed_methods(items, items.len()).len(),
{
    let all = listed_methods(items, items.len());
    assert forall|p: (Seq<char>, Seq<char>)| s.to_set().contains(p) implies all.to_set().contains(p) by {
        let k = choose|k: int| 0 <= k < s.len() && s[k] == p;
        assert(names_a_method(items, s[k]));
        let (i, j) = choose|i: int, j: int|
            0 <= i < items.len() && 0 <= j < methods_of(items[i]) && #[trigger] method_at(items, i, j) == p;
        lemma_listed(items, items.len(), i, j);
    }
    s.unique_seq_to_set();
    all.lemma_cardinality_of_set();
    vstd::set_lib::lemma_len_subset(s.to_set(), all.to_set());
}

/// One pass over the methods; tells whether it added one.
#[verifier::loop_isolation(false)]
fn add_capturing(prog: &Program, sigs: &SigTable, known: &mut MethodSet) -> (grew: bool)
    requires
        old(known).pairs.deep_view().no_duplicates(),
        forall|k: int|
            0 <= k < old(known).pairs@.len() ==> names_a_method(
                prog.items@,
                #[trigger] old(known).pairs.deep_view()[k],
            ),
    ensures
        final(known).pairs.deep_view().no_duplicates(),
        forall|k: int|
            0 <= k < final(known).pairs@.len() ==> names_a_method(
                prog.items@,
                #[trigger] final(known).pairs.deep_view()[k],
            ),
        forall|other: Set<(Seq<char>, Seq<char>)>|
            #[trigger] captures_closed(*prog, sigs@, other) && old(known)@.subset_of(other) ==> final(known)@.subset_of(
                other,
            ),
        grew ==> final(known).pairs@.len() > old(known).pairs@.len(),
        !grew ==> final(known).pairs@.len() == old(known).pairs@.len() && captures_closed(*prog, sigs@, final(known)@),
{
    let ghost items = prog.items@;
    let ghost start = known@;
    let ghost n0 = known.pairs@.len();
    let mut grew = false;
    let mut i: usize = 0;
    while i < prog.items.len()
        invariant
            i <= prog.items@.len(),
            known.pairs.deep_view().no_duplicates(),
            forall|k: int| 0 <= k < known.pairs@.len() ==> names_a_method(items, #[trigger] known.pairs.deep_view()[k]),
            forall|other: Set<(Seq<char>, Seq<char>)>|
                #[trigger] captures_closed(*prog, sigs@, other) && start.subset_of(other) ==> known@.subset_of(other),
            grew ==> known.pairs@.len() > n0,
            !grew ==> known@ == start && known.pairs@.len() == n0 && forall|a: int| 0 <= a < i ==> item_captures(sigs@, start, #[trigger] items[a]),
        decreases prog.items@.len() - i,
    {
        if let ItemKind::Impl(b) = &prog.items[i].kind {
            let target = b.target.name.as_str();
            if sigs.struct_fields.contains(target) {
                let mut j: usize = 0;
                while j < b.methods.len()
                    invariant
                        j <= b.methods@.len(),
                        known.pairs.deep_view().no_duplicates(),
                        forall|k: int|
                            0 <= k < known.pairs@.len() ==> names_a_method(items, #[trigger] known.pairs.deep_view()[k]),
                        forall|other: Set<(Seq<char>, Seq<char>)>|
                            #[trigger] captures_closed(*prog, sigs@, other) && start.subset_of(other) ==> known@.subset_of(
                                other,
                            ),
                        grew ==> known.pairs@.len() > n0,
                        !grew ==> known@ == start && known.pairs@.len() == n0 && (forall|a: int|
                            0 <= a < i ==> item_captures(sigs@, start, #[trigger] items[a])) && (forall|m: int|
                            0 <= m < j ==> #[trigger] capture_rule(sigs@, start, *b, m)),
                    decreases b.methods@.len() - j,
                {
                    let m = &b.methods[j];
                    if m.return_type.is_some() && !known.contains(target, m.name.name.as_str()) {
                        if body_binds_receiver(sigs, target, known, &m.body) {
                            let ghost before = *known;
                            let ghost p = (target@, m.name.name@);
                            proof {
                                assert forall|other: Set<(Seq<char>, Seq<char>)>| #[trigger]
                                    captures_closed(*prog, sigs@, other) && start.subset_of(other) implies other.contains(p) by {
                                    assert(item_captures(sigs@, other, items[i as int]));
                                    assert(capture_rule(sigs@, other, *b, j as int));
                                    lemma_binds_grows(sigs@, target@, known@, other, m.body);
                                }
                                assert(method_at(items, i as int, j as int) == p);
                                assert(names_a_method(items, p));
                            }
                            known.insert(b.target.name.clone(), m.name.name.clone());
                            proof {
                                let a = before.pairs.deep_view();
                                let c = known.pairs.deep_view();
                                assert(c == a.push(p));
                                assert(!a.contains(p)) by {
                                    assert(before@.contains(p) == a.contains(p));
                                }
                                assert(c.no_duplicates());
                                assert forall|k: int| 0 <= k < c.len() implies names_a_method(items, #[trigger] c[k]) by {
                                    if k < a.len() {
                                        assert(c[k] == a[k]);
                                    }
                                }
                            }
                            grew = true;
                        }
                    }
                    j += 1;
                }
                proof {
                    if !grew {
                        assert forall|m: int| #[trigger] capture_rule(sigs@, start, *b, m) by {}
                        assert(item_captures(sigs@, start, items[i as int]));
                    }
                }
            } else {
                proof {
                    assert forall|m: int| #[trigger] capture_rule(sigs@, start, *b, m) by {}
                    assert(item_captures(sigs@, start, items[i as int]));
                }
            }
        }
        i += 1;
    }
    grew
}

/// The methods whose result captures the address of the receiver.
pub fn receiver_capturing_methods(prog: &Program, sigs: &SigTable) -> (r: MethodSet)
    ensures
        is_capturing(*prog, sigs@, r@),
        r@ == capturing_of(*prog, sigs@),
{
    let mut known = MethodSet::new();
    let mut grew = true;
    let ghost items = prog.items@;
    let ghost bound = listed_methods(items, items.len()).len();
    while grew
        invariant
            items == prog.items@,
            bound == listed_methods(items, items.len()).len(),
            known.pairs.deep_view().no_duplicates(),
            forall|k: int| 0 <= k < known.pairs@.len() ==> names_a_method(items, #[trigger] known.pairs.deep_view()[k]),
            forall|other: Set<(Seq<char>, Seq<char>)>|
                #[trigger] captures_closed(*prog, sigs@, other) ==> known@.subset_of(other),
            known.pairs@.len() <= bound,
            !grew ==> captures_closed(*prog, sigs@, known@),
        decreases bound - known.pairs@.len(), (if grew { 1nat } else { 0nat }),
    {
        grew = add_capturing(prog, sigs, &mut known);
        proof {
            lemma_few_methods(items, known.pairs.deep_view());
        }
    }
    proof {
        assert(is_capturing(*prog, sigs@, known@));
        let c = capturing_of(*prog, sigs@);
        assert(is_capturing(*prog, sigs@, c));
        assert(known@ =~= c);
    }
    known
}

} // verus!
