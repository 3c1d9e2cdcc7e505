//! Tables keyed by name.
use vstd::prelude::*;

verus! {

/// A finite map from names to values, as an association list without repeated names.
pub struct NameMap<V> {
    pub entries: Vec<(String, V)>,
}

impl<V: DeepView> NameMap<V> {
    /// The position of a name among the entries, or their number if it has none.
    pub open spec fn find(entries: Seq<(String, V)>, name: Seq<char>, i: nat) -> nat
        decreases entries.len() - i,
    {
        if i >= entries.len() {
            entries.len()
        } else if entries[i as int].0@ == name {
            i
        } else {
            Self::find(entries, name, i + 1)
        }
    }
}

impl<V: DeepView> View for NameMap<V> {
    type V = Map<Seq<char>, V::V>;

    open spec fn view(&self) -> Map<Seq<char>, V::V> {
        Map::new(
            |k: Seq<char>| Self::find(self.entries@, k, 0) < self.entries@.len(),
            |k: Seq<char>| self.entries@[Self::find(self.entries@, k, 0) as int].1.deep_view(),
        )
    }
}

impl<V: DeepView> DeepView for NameMap<V> {
    type V = Map<Seq<char>, V::V>;

    open spec fn deep_view(&self) -> Map<Seq<char>, V::V> {
        self@
    }
}

proof fn lemma_find<V: DeepView>(entries: Seq<(String, V)>, name: Seq<char>, i: nat)
    requires
        i <= entries.len(),
    ensures
        ({
            let p = NameMap::<V>::find(entries, name, i);
            &&& i <= p <= entries.len()
            &&& p < entries.len() ==> entries[p as int].0@ == name
            &&& forall|j: int| i <= j < p ==> (#[trigger] entries[j]).0@ != name
        }),
    decreases entries.len() - i,
{
    if i < entries.len() && entries[i as int].0@ != name {
        lemma_find(entries, name, i + 1);
    }
}

proof fn lemma_find_is<V: DeepView>(entries: Seq<(String, V)>, name: Seq<char>, p: nat)
    requires
        p <= entries.len(),
        p < entries.len() ==> entries[p as int].0@ == name,
        forall|j: int| 0 <= j < p ==> (#[trigger] entries[j]).0@ != name,
    ensures
        NameMap::<V>::find(entries, name, 0) == p,
{
    lemma_find(entries, name, 0);
}

impl<V: DeepView> NameMap<V> {
    pub fn new() -> (r: Self)
        ensures
            r@ == Map::<Seq<char>, V::V>::empty(),
    {
        let r = NameMap { entries: Vec::new() };
        assert(r@ =~= Map::<Seq<char>, V::V>::empty());
        r
    }

    fn position(&self, name: &str) -> (p: usize)
        ensures
            p == Self::find(self.entries@, name@, 0),
            p <= self.entries@.len(),
    {
        let mut i: usize = 0;
        while i < self.entries.len()
            invariant
                i <= self.entries@.len(),
                Self::find(self.entries@, name@, 0) == Self::find(self.entries@, name@, i as nat),
            decreases self.entries.len() - i,
        {
            if crate::text::str_eq(self.entries[i].0.as_str(), name) {
                return i;
            }
            i += 1;
        }
        i
    }

    pub fn get(&self, name: &str) -> (r: Option<&V>)
        ensures
            r is Some <==> self@.dom().contains(name@),
            r matches Some(v) ==> v.deep_view() == self@[name@],
    {
        let p: usize = self.position(name);
        if p < self.entries.len() {
            Some(&self.entries[p].1)
        } else {
            None
        }
    }

    pub fn contains(&self, name: &str) -> (r: bool)
        ensures
            r == self@.dom().contains(name@),
    {
        self.position(name) < self.entries.len()
    }

    /// A name is bound exactly if an entry has it.
    pub proof fn lemma_dom(&self, name: Seq<char>)
        ensures
            self@.dom().contains(name) <==> exists|k: int|
                0 <= k < self.entries@.len() && (#[trigger] self.entries@[k]).0@ == name,
    {
        lemma_find(self.entries@, name, 0);
    }

    /// Entries with the same names and values make the same table.
    pub proof fn lemma_same_entries(&self, other: &NameMap<V>)
        requires
            self.entries@.len() == other.entries@.len(),
            forall|i: int|
                0 <= i < self.entries@.len() ==> (#[trigger] self.entries@[i]).0@ == other.entries@[i].0@
                    && self.entries@[i].1.deep_view() == other.entries@[i].1.deep_view(),
        ensures
            self@ == other@,
    {
        self.lemma_same_names(other);
        assert forall|k: Seq<char>| self@.dom().contains(k) implies #[trigger] self@[k] == other@[k] by {
            self.lemma_value(k);
            other.lemma_value(k);
        }
        assert(self@ =~= other@);
    }

    /// Entries with the same names bind the same names.
    pub proof fn lemma_same_names(&self, other: &NameMap<V>)
        requires
            self.entries@.len() == other.entries@.len(),
            forall|i: int| 0 <= i < self.entries@.len() ==> (#[trigger] self.entries@[i]).0@ == other.entries@[i].0@,
        ensures
            self@.dom() == other@.dom(),
            forall|k: Seq<char>|
                #[trigger] NameMap::<V>::find(self.entries@, k, 0) == NameMap::<V>::find(other.entries@, k, 0),
    {
        let a = self.entries@;
        let b = other.entries@;
        assert forall|k: Seq<char>| true implies #[trigger] NameMap::<V>::find(a, k, 0) == NameMap::<V>::find(b, k, 0) by {
            lemma_find(a, k, 0);
            let p = NameMap::<V>::find(a, k, 0);
            assert forall|j: int| 0 <= j < p implies (#[trigger] b[j]).0@ != k by {
                assert(a[j].0@ == b[j].0@);
            }
            lemma_find_is(b, k, p);
        }
        assert(self@.dom() =~= other@.dom());
    }

    /// A bound name has the value of the first entry with the name.
    pub proof fn lemma_value(&self, k: Seq<char>)
        requires
            self@.dom().contains(k),
        ensures
            ({
                let p = NameMap::<V>::find(self.entries@, k, 0);
                &&& p < self.entries@.len()
                &&& self.entries@[p as int].0@ == k
                &&& self@[k] == self.entries@[p as int].1.deep_view()
            }),
    {
        lemma_find(self.entries@, k, 0);
    }

    /// Takes a name out.
    pub fn remove(&mut self, name: &str)
        ensures
            final(self)@ == old(self)@.remove(name@),
    {
        let mut i: usize = 0;
        while i < self.entries.len()
            invariant
                i <= self.entries@.len(),
                forall|j: int| 0 <= j < i ==> (#[trigger] self.entries@[j]).0@ != name@,
                self@.remove(name@) == old(self)@.remove(name@),
            decreases self.entries@.len() - i,
        {
            if crate::text::str_eq(self.entries[i].0.as_str(), name) {
                let ghost before = *self;
                let _ = self.entries.remove(i);
                proof {
                    let b = before.entries@;
                    let a = self.entries@;
                    assert forall|k: Seq<char>| k != name@ implies (NameMap::<V>::find(b, k, 0) < b.len()
                        <==> #[trigger] NameMap::<V>::find(a, k, 0) < a.len()) && (NameMap::<V>::find(b, k, 0) < b.len()
                        ==> b[NameMap::<V>::find(b, k, 0) as int] == a[NameMap::<V>::find(a, k, 0) as int]) by {
                        lemma_find(b, k, 0);
                        let p = NameMap::<V>::find(b, k, 0);
                        if p < i {
                            lemma_find_is(a, k, p);
                        } else {
                            assert(p != i);
                            assert forall|j: int| 0 <= j < p - 1 implies (#[trigger] a[j]).0@ != k by {
                                if j >= i {
                                    assert(a[j] == b[j + 1]);
                                }
                            }
                            if p < b.len() {
                                assert(a[p - 1] == b[p as int]);
                            }
                            lemma_find_is(a, k, (p - 1) as nat);
                        }
                    }
                    assert(self@.remove(name@) =~= before@.remove(name@));
                }
            } else {
                i += 1;
            }
        }
        proof {
            lemma_find_is(self.entries@, name@, self.entries@.len());
            assert(self@ =~= self@.remove(name@));
        }
    }

    pub fn insert(&mut self, name: String, value: V)
        ensures
            final(self)@ == old(self)@.insert(name@, value.deep_view()),
    {
        let p: usize = self.position(name.as_str());
        let ghost before = self.entries@;
        if p < self.entries.len() {
            self.entries.set(p, (name, value));
        } else {
            self.entries.push((name, value));
        }
        proof {
            let after = self.entries@;
            lemma_find(before, name@, 0);
            assert(after.len() == before.len() || after.len() == before.len() + 1);
            assert forall|k: Seq<char>| true implies
                #[trigger] NameMap::<V>::find(after, k, 0) == (if k == name@ {
                    p as nat
                } else if NameMap::<V>::find(before, k, 0) < before.len() {
                    NameMap::<V>::find(before, k, 0)
                } else {
                    after.len()
                }) by {
                lemma_find(before, k, 0);
                if k == name@ {
                    lemma_find_is(after, k, p as nat);
                } else if NameMap::<V>::find(before, k, 0) < before.len() {
                    lemma_find_is(after, k, NameMap::<V>::find(before, k, 0));
                } else {
                    lemma_find_is(after, k, after.len());
                }
            }
            assert forall|k: Seq<char>| true implies
                #[trigger] self@.dom().contains(k) == old(self)@.insert(name@, value.deep_view()).dom().contains(k) by {
                lemma_find(before, k, 0);
                lemma_find(after, k, 0);
            }
            assert forall|k: Seq<char>| self@.dom().contains(k) implies
                #[trigger] self@[k] == old(self)@.insert(name@, value.deep_view())[k] by {
                lemma_find(before, k, 0);
                lemma_find(after, k, 0);
            }
            assert(self@ =~= old(self)@.insert(name@, value.deep_view()));
        }
    }
}

/// A finite set of names.
pub struct NameSet {
    pub names: NameMap<()>,
}

impl View for NameSet {
    type V = Set<Seq<char>>;

    open spec fn view(&self) -> Set<Seq<char>> {
        self.names@.dom()
    }
}

impl DeepView for NameSet {
    type V = Set<Seq<char>>;

    open spec fn deep_view(&self) -> Set<Seq<char>> {
        self@
    }
}

impl NameSet {
    pub fn new() -> (r: Self)
        ensures
            r@ == Set::<Seq<char>>::empty(),
    {
        let r = NameSet { names: NameMap::new() };
        assert(r@ =~= Set::<Seq<char>>::empty());
        r
    }

    pub fn contains(&self, name: &str) -> (r: bool)
        ensures
            r == self@.contains(name@),
    {
        self.names.contains(name)
    }

    pub fn insert(&mut self, name: String)
        ensures
            final(self)@ == old(self)@.insert(name@),
    {
        self.names.insert(name, ());
        assert(self@ =~= old(self)@.insert(name@));
    }
}

} // verus!
