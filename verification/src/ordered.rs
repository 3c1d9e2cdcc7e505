//! Association lists and sets kept in the order of their keys.
use vstd::prelude::*;

verus! {

/// A key with a strict total order that executable code can decide.
pub trait OrdKey: DeepView + Sized {
    spec fn lt(a: Self::V, b: Self::V) -> bool;

    proof fn lt_irreflexive(a: Self::V)
        ensures
            !Self::lt(a, a),
    ;

    proof fn lt_transitive(a: Self::V, b: Self::V, c: Self::V)
        requires
            Self::lt(a, b),
            Self::lt(b, c),
        ensures
            Self::lt(a, c),
    ;

    proof fn lt_total(a: Self::V, b: Self::V)
        ensures
            Self::lt(a, b) || a == b || Self::lt(b, a),
    ;

    fn key_lt(&self, other: &Self) -> (r: bool)
        ensures
            r == Self::lt(self.deep_view(), other.deep_view()),
    ;

    fn key_eq(&self, other: &Self) -> (r: bool)
        ensures
            r == (self.deep_view() == other.deep_view()),
    ;
}

/// The number of leading entries, from `i` on, whose keys come before `k`, plus `i`.
pub open spec fn ord_pos<K: OrdKey, X>(s: Seq<(K::V, X)>, k: K::V, i: nat) -> nat
    decreases s.len() - i,
{
    if i < s.len() && K::lt(s[i as int].0, k) {
        ord_pos::<K, X>(s, k, i + 1)
    } else {
        i
    }
}

pub open spec fn ord_has<K: OrdKey, X>(s: Seq<(K::V, X)>, k: K::V) -> bool {
    let p = ord_pos::<K, X>(s, k, 0);
    p < s.len() && s[p as int].0 == k
}

/// The value stored under `k`.
pub open spec fn ord_get<K: OrdKey, X>(s: Seq<(K::V, X)>, k: K::V) -> Option<X> {
    if ord_has::<K, X>(s, k) {
        Some(s[ord_pos::<K, X>(s, k, 0) as int].1)
    } else {
        None
    }
}

/// The list with `k` bound to `v`.
pub open spec fn ord_put<K: OrdKey, X>(s: Seq<(K::V, X)>, k: K::V, v: X) -> Seq<(K::V, X)> {
    let p = ord_pos::<K, X>(s, k, 0) as int;
    if ord_has::<K, X>(s, k) {
        s.update(p, (k, v))
    } else {
        s.insert(p, (k, v))
    }
}

/// The list without `k`.
pub open spec fn ord_del<K: OrdKey, X>(s: Seq<(K::V, X)>, k: K::V) -> Seq<(K::V, X)> {
    if ord_has::<K, X>(s, k) {
        s.remove(ord_pos::<K, X>(s, k, 0) as int)
    } else {
        s
    }
}

/// Keys strictly ascending: the invariant of an ordered list.
pub open spec fn ord_sorted<K: OrdKey, X>(s: Seq<(K::V, X)>) -> bool {
    forall|i: int, j: int| 0 <= i < j < s.len() ==> K::lt((#[trigger] s[i]).0, (#[trigger] s[j]).0)
}

pub proof fn lemma_pos<K: OrdKey, X>(s: Seq<(K::V, X)>, k: K::V, i: nat)
    requires
        i <= s.len(),
    ensures
        ({
            let p = ord_pos::<K, X>(s, k, i);
            &&& i <= p <= s.len()
            &&& forall|j: int| i <= j < p ==> K::lt((#[trigger] s[j]).0, k)
            &&& p < s.len() ==> !K::lt(s[p as int].0, k)
        }),
    decreases s.len() - i,
{
    if i < s.len() && K::lt(s[i as int].0, k) {
        lemma_pos::<K, X>(s, k, i + 1);
    }
}

proof fn lemma_pos_is<K: OrdKey, X>(s: Seq<(K::V, X)>, k: K::V, p: nat)
    requires
        p <= s.len(),
        forall|j: int| 0 <= j < p ==> K::lt((#[trigger] s[j]).0, k),
        p < s.len() ==> !K::lt(s[p as int].0, k),
    ensures
        ord_pos::<K, X>(s, k, 0) == p,
{
    lemma_pos::<K, X>(s, k, 0);
}

/// In a sorted list every key that occurs is found.
pub proof fn lemma_ord_has<K: OrdKey, X>(s: Seq<(K::V, X)>, k: K::V)
    requires
        ord_sorted::<K, X>(s),
    ensures
        ord_has::<K, X>(s, k) <==> exists|i: int| 0 <= i < s.len() && (#[trigger] s[i]).0 == k,
{
    lemma_pos::<K, X>(s, k, 0);
    let p = ord_pos::<K, X>(s, k, 0) as int;
    if exists|i: int| 0 <= i < s.len() && (#[trigger] s[i]).0 == k {
        let i = choose|i: int| 0 <= i < s.len() && (#[trigger] s[i]).0 == k;
        K::lt_irreflexive(k);
        assert(p <= i);
        if p < i {
            assert(K::lt(s[p].0, s[i].0));
        }
    }
}

/// Binding a key keeps the list sorted, answers for that key with the new value, and
/// leaves every other key as it was.
pub proof fn lemma_ord_put<K: OrdKey, X>(s: Seq<(K::V, X)>, k: K::V, v: X, other: K::V)
    requires
        ord_sorted::<K, X>(s),
    ensures
        ord_sorted::<K, X>(ord_put::<K, X>(s, k, v)),
        ord_get::<K, X>(ord_put::<K, X>(s, k, v), k) == Some(v),
        other != k ==> ord_get::<K, X>(ord_put::<K, X>(s, k, v), other) == ord_get::<K, X>(s, other),
{
    let t = ord_put::<K, X>(s, k, v);
    let p = ord_pos::<K, X>(s, k, 0) as int;
    lemma_pos::<K, X>(s, k, 0);
    K::lt_irreflexive(k);
    if p < s.len() {
        K::lt_total(s[p].0, k);
    }
    assert forall|i: int, j: int| 0 <= i < j < t.len() implies K::lt((#[trigger] t[i]).0, (#[trigger] t[j]).0) by {
        if ord_has::<K, X>(s, k) {
            assert(t[i].0 == s[i].0 && t[j].0 == s[j].0);
        } else {
            if i < p && j > p {
                assert(t[j] == s[j - 1]);
                assert(t[i] == s[i]);
            } else if i == p {
                assert(t[j] == s[j - 1]);
                if j - 1 > p {
                    K::lt_transitive(k, s[p].0, s[j - 1].0);
                }
            } else if i > p {
                assert(t[i] == s[i - 1] && t[j] == s[j - 1]);
            }
        }
    }
    lemma_pos_is::<K, X>(t, k, p as nat);
    if other != k {
        lemma_pos::<K, X>(s, other, 0);
        let q = ord_pos::<K, X>(s, other, 0) as int;
        K::lt_total(other, k);
        if ord_has::<K, X>(s, k) {
            lemma_pos_is::<K, X>(t, other, q as nat);
        } else {
            if K::lt(k, other) {
                assert forall|j: int| 0 <= j < p implies K::lt((#[trigger] s[j]).0, other) by {
                    K::lt_transitive(s[j].0, k, other);
                }
                if q < p {
                    assert(K::lt(s[q].0, other));
                }
                assert forall|j: int| 0 <= j < q + 1 implies K::lt((#[trigger] t[j]).0, other) by {
                    if j > p {
                        assert(t[j] == s[j - 1]);
                    }
                }
                if q < s.len() {
                    assert(t[q + 1] == s[q]);
                }
                lemma_pos_is::<K, X>(t, other, (q + 1) as nat);
            } else {
                if q > p {
                    K::lt_transitive(s[p].0, other, k);
                }
                if q == p {
                    if K::lt(k, other) {
                        K::lt_transitive(k, other, k);
                    }
                }
                if K::lt(k, other) {
                    K::lt_transitive(k, other, k);
                }
                lemma_pos_is::<K, X>(t, other, q as nat);
                if q == p {
                    if p < s.len() && s[p].0 == other {
                        K::lt_irreflexive(other);
                        assert(K::lt(s[p].0, k));
                    }
                }
            }
        }
    }
}

/// Deleting keeps the order, removes the key, and leaves other keys alone.
pub proof fn lemma_ord_del<K: OrdKey, X>(s: Seq<(K::V, X)>, k: K::V, other: K::V)
    requires
        ord_sorted::<K, X>(s),
    ensures
        ord_sorted::<K, X>(ord_del::<K, X>(s, k)),
        ord_get::<K, X>(ord_del::<K, X>(s, k), k) is None,
        other != k ==> ord_get::<K, X>(ord_del::<K, X>(s, k), other) == ord_get::<K, X>(s, other),
{
    let t = ord_del::<K, X>(s, k);
    let p = ord_pos::<K, X>(s, k, 0) as int;
    lemma_pos::<K, X>(s, k, 0);
    if ord_has::<K, X>(s, k) {
        assert forall|i: int, j: int| 0 <= i < j < t.len() implies K::lt((#[trigger] t[i]).0, (#[trigger] t[j]).0) by {
            let a = if i < p {
                i
            } else {
                i + 1
            };
            let b = if j < p {
                j
            } else {
                j + 1
            };
            assert(t[i] == s[a] && t[j] == s[b]);
        }
        K::lt_irreflexive(k);
        lemma_ord_has::<K, X>(t, k);
        if ord_has::<K, X>(t, k) {
            let i = choose|i: int| 0 <= i < t.len() && (#[trigger] t[i]).0 == k;
            let a = if i < p {
                i
            } else {
                i + 1
            };
            assert(t[i] == s[a]);
            if a < p {
                assert(K::lt(s[a].0, s[p].0));
            } else {
                assert(K::lt(s[p].0, s[a].0));
            }
        }
        if other != k {
            lemma_pos::<K, X>(s, other, 0);
            let q = ord_pos::<K, X>(s, other, 0) as int;
            let r = if q <= p {
                q
            } else {
                q - 1
            };
            assert forall|j: int| 0 <= j < r implies K::lt((#[trigger] t[j]).0, other) by {
                if j < p {
                    assert(t[j] == s[j]);
                } else {
                    assert(t[j] == s[j + 1]);
                }
            }
            if r < t.len() {
                if r < p {
                    assert(t[r] == s[r]);
                } else {
                    assert(t[r] == s[r + 1]);
                    if q == p {
                        if K::lt(s[p + 1].0, other) {
                            K::lt_transitive(s[p].0, s[p + 1].0, other);
                        }
                    }
                }
            }
            lemma_pos_is::<K, X>(t, other, r as nat);
            if q == p && r < t.len() && t[r].0 == other {
                assert(K::lt(s[p].0, s[p + 1].0));
                assert(false);
            }
        }
    }
}

/// A map whose entries are listed in key order.
pub struct OrdMap<K, V> {
    pub entries: Vec<(K, V)>,
}

/// Names in order.
pub type NameList = OrdMap<String, ()>;

pub type NameListV = Seq<(Seq<char>, ())>;

impl<K: OrdKey, V: DeepView> View for OrdMap<K, V> {
    type V = Seq<(K::V, V::V)>;

    open spec fn view(&self) -> Seq<(K::V, V::V)> {
        self.entries.deep_view()
    }
}

impl<K: OrdKey, V: DeepView> DeepView for OrdMap<K, V> {
    type V = Seq<(K::V, V::V)>;

    open spec fn deep_view(&self) -> Seq<(K::V, V::V)> {
        self.entries.deep_view()
    }
}

impl<K: OrdKey, V: DeepView> OrdMap<K, V> {
    /// The keys are strictly ascending.
    pub open spec fn wf(self) -> bool {
        ord_sorted::<K, V::V>(self@)
    }

    pub fn new() -> (r: Self)
        ensures
            r@ == Seq::<(K::V, V::V)>::empty(),
            r.wf(),
    {
        let r = OrdMap { entries: Vec::new() };
        assert(r@ =~= Seq::<(K::V, V::V)>::empty());
        r
    }

    pub fn len(&self) -> (n: usize)
        ensures
            n == self@.len(),
    {
        self.entries.len()
    }

    pub fn position(&self, key: &K) -> (p: usize)
        ensures
            p == ord_pos::<K, V::V>(self@, key.deep_view(), 0),
            p <= self@.len(),
    {
        let mut i: usize = 0;
        while i < self.entries.len() && self.entries[i].0.key_lt(key)
            invariant
                i <= self@.len(),
                self@.len() == self.entries@.len(),
                ord_pos::<K, V::V>(self@, key.deep_view(), 0) == ord_pos::<K, V::V>(
                    self@,
                    key.deep_view(),
                    i as nat,
                ),
            decreases self.entries.len() - i,
        {
            i += 1;
        }
        i
    }

    pub fn contains(&self, key: &K) -> (r: bool)
        ensures
            r == ord_has::<K, V::V>(self@, key.deep_view()),
    {
        let p: usize = self.position(key);
        p < self.entries.len() && self.entries[p].0.key_eq(key)
    }

    pub fn get(&self, key: &K) -> (r: Option<&V>)
        ensures
            match r {
                Some(v) => ord_get::<K, V::V>(self@, key.deep_view()) == Some(v.deep_view()),
                None => ord_get::<K, V::V>(self@, key.deep_view()) is None,
            },
    {
        let p: usize = self.position(key);
        if p < self.entries.len() && self.entries[p].0.key_eq(key) {
            Some(&self.entries[p].1)
        } else {
            None
        }
    }

    pub fn insert(&mut self, key: K, value: V)
        ensures
            final(self)@ == ord_put::<K, V::V>(old(self)@, key.deep_view(), value.deep_view()),
            old(self).wf() ==> final(self).wf(),
    {
        proof {
            if self.wf() {
                lemma_ord_put::<K, V::V>(self@, key.deep_view(), value.deep_view(), key.deep_view());
            }
        }
        let p: usize = self.position(&key);
        let ghost before = self@;
        let found = p < self.entries.len() && self.entries[p].0.key_eq(&key);
        if found {
            self.entries.set(p, (key, value));
            assert(self@ =~= before.update(p as int, (key.deep_view(), value.deep_view())));
        } else {
            self.entries.insert(p, (key, value));
            assert(self@ =~= before.insert(p as int, (key.deep_view(), value.deep_view())));
        }
    }

    pub fn remove(&mut self, key: &K)
        ensures
            final(self)@ == ord_del::<K, V::V>(old(self)@, key.deep_view()),
            old(self).wf() ==> final(self).wf(),
    {
        proof {
            if self.wf() {
                lemma_ord_del::<K, V::V>(self@, key.deep_view(), key.deep_view());
            }
        }
        let p: usize = self.position(key);
        let ghost before = self@;
        if p < self.entries.len() && self.entries[p].0.key_eq(key) {
            let _ = self.entries.remove(p);
            assert(self@ =~= before.remove(p as int));
        }
    }
}

impl OrdKey for String {
    open spec fn lt(a: Seq<char>, b: Seq<char>) -> bool {
        crate::text::text_lt(a, b, 0)
    }

    proof fn lt_irreflexive(a: Seq<char>) {
        crate::text::lemma_text_lt_irreflexive(a, 0);
    }

    proof fn lt_transitive(a: Seq<char>, b: Seq<char>, c: Seq<char>) {
        crate::text::lemma_text_lt_transitive(a, b, c, 0);
    }

    proof fn lt_total(a: Seq<char>, b: Seq<char>) {
        crate::text::lemma_text_lt_total(a, b, 0);
    }

    fn key_lt(&self, other: &String) -> (r: bool) {
        crate::text::text_less(self.as_str(), other.as_str())
    }

    fn key_eq(&self, other: &String) -> (r: bool) {
        *self == *other
    }
}

} // verus!
