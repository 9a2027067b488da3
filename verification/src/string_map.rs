//! Maps and sets keyed by text that keep the order in which their keys came.
use vstd::hash_map::StringHashMap;
use vstd::prelude::*;

verus! {

/// A map keyed by text. Looking a key up goes through a hash index; walking the map follows the
/// order in which the keys came.
pub struct StringMap<V> {
    entries: Vec<(String, V)>,
    index: StringHashMap<usize>,
}

impl<V> View for StringMap<V> {
    type V = Map<Seq<char>, V>;

    closed spec fn view(&self) -> Map<Seq<char>, V> {
        Map::new(
            |k: Seq<char>| self.index@.contains_key(k),
            |k: Seq<char>| self.entries@[self.index@[k] as int].1,
        )
    }
}

impl<V> StringMap<V> {
    /// The keys in the order in which they came.
    pub closed spec fn keys(self) -> Seq<Seq<char>> {
        self.entries@.map_values(|e: (String, V)| e.0@)
    }

    /// The index knows every key, each at its own place, and no other.
    pub closed spec fn wf(self) -> bool {
        &&& forall|i: int|
            0 <= i < self.entries@.len() ==> self.index@.contains_key(
                (#[trigger] self.entries@[i]).0@,
            ) && self.index@[self.entries@[i].0@] == i
        &&& forall|k: Seq<char>| #[trigger]
            self.index@.contains_key(k) ==> self.index@[k] < self.entries@.len()
                && self.entries@[self.index@[k] as int].0@ == k
    }

    /// No key comes twice, and the keys are those of the map.
    pub proof fn keys_are_the_domain(self)
        requires
            self.wf(),
        ensures
            self.keys().no_duplicates(),
            forall|k: Seq<char>| self.keys().contains(k) <==> #[trigger] self@.contains_key(k),
            self@.dom() == self.keys().to_set(),
            self@.dom().finite(),
            self@.dom().len() == self.keys().len(),
    {
        let ks = self.keys();
        assert forall|i: int, j: int| 0 <= i < ks.len() && 0 <= j < ks.len() && i != j implies ks[i]
            != ks[j] by {
            assert(ks[i] == self.entries@[i].0@);
            assert(ks[j] == self.entries@[j].0@);
        }
        assert forall|k: Seq<char>| ks.contains(k) <==> #[trigger] self@.contains_key(k) by {
            if ks.contains(k) {
                let i = choose|i: int| 0 <= i < ks.len() && ks[i] == k;
                assert(self.entries@[i].0@ == k);
            }
            if self@.contains_key(k) {
                assert(ks[self.index@[k] as int] == k);
            }
        }
        assert(self@.dom() =~= ks.to_set());
        ks.unique_seq_to_set();
    }

    /// The empty map.
    pub fn new() -> (r: Self)
        ensures
            r.wf(),
            r@ == Map::<Seq<char>, V>::empty(),
            r.keys() == Seq::<Seq<char>>::empty(),
    {
        let r = StringMap { entries: Vec::new(), index: StringHashMap::new() };
        assert(r@ =~= Map::<Seq<char>, V>::empty());
        assert(r.keys() =~= Seq::<Seq<char>>::empty());
        r
    }

    /// The number of keys.
    pub fn len(&self) -> (r: usize)
        requires
            self.wf(),
        ensures
            r == self.keys().len(),
            r == self@.dom().len(),
    {
        proof {
            self.keys_are_the_domain();
        }
        self.entries.len()
    }

    /// Whether the map has the key.
    pub fn contains_key(&self, key: &str) -> (r: bool)
        ensures
            r == self@.contains_key(key@),
    {
        self.index.contains_key(key)
    }

    /// The place of the key in the order of the keys.
    pub fn position(&self, key: &str) -> (r: Option<usize>)
        requires
            self.wf(),
        ensures
            match r {
                Some(i) => i < self.keys().len() && self.keys()[i as int] == key@
                    && self@.contains_key(key@),
                None => !self@.contains_key(key@),
            },
    {
        match self.index.get(key) {
            Some(i) => Some(*i),
            None => None,
        }
    }

    /// The value of the key.
    pub fn get(&self, key: &str) -> (r: Option<&V>)
        requires
            self.wf(),
        ensures
            match r {
                Some(v) => self@.contains_key(key@) && *v == self@[key@],
                None => !self@.contains_key(key@),
            },
    {
        match self.index.get(key) {
            Some(i) => Some(&self.entries[*i].1),
            None => None,
        }
    }

    /// The key at a place.
    pub fn key_at(&self, i: usize) -> (r: &String)
        requires
            self.wf(),
            i < self.keys().len(),
        ensures
            r@ == self.keys()[i as int],
            self@.contains_key(r@),
    {
        &self.entries[i].0
    }

    /// The value at a place.
    pub fn value_at(&self, i: usize) -> (r: &V)
        requires
            self.wf(),
            i < self.keys().len(),
        ensures
            *r == self@[self.keys()[i as int]],
            self@.contains_key(self.keys()[i as int]),
    {
        assert(self.index@.contains_key(self.entries@[i as int].0@));
        &self.entries[i].1
    }

    /// The value at a place, to be changed.
    pub fn value_mut(&mut self, i: usize) -> (r: &mut V)
        requires
            old(self).wf(),
            i < old(self).keys().len(),
        ensures
            old(self)@.contains_key(old(self).keys()[i as int]),
            *r == old(self)@[old(self).keys()[i as int]],
            final(self).wf(),
            final(self).keys() == old(self).keys(),
            final(self)@ == old(self)@.insert(old(self).keys()[i as int], *final(r)),
    {
        &mut self.entries[i].1
    }

    /// Adds a key that the map does not have yet, after all the others.
    pub fn push(&mut self, key: String, value: V)
        requires
            old(self).wf(),
            !old(self)@.contains_key(key@),
        ensures
            final(self).wf(),
            final(self)@ == old(self)@.insert(key@, value),
            final(self).keys() == old(self).keys().push(key@),
    {
        let ghost before = *self;
        let place = self.entries.len();
        let ghost k = key@;
        self.index.insert(key.clone(), place);
        self.entries.push((key, value));
        proof {
            assert forall|i: int| 0 <= i < self.entries@.len() implies self.index@.contains_key(
                (#[trigger] self.entries@[i]).0@,
            ) && self.index@[self.entries@[i].0@] == i by {
                if i < place {
                    assert(self.entries@[i] == before.entries@[i]);
                    assert(before.index@.contains_key(before.entries@[i].0@));
                }
            }
            assert(self@ =~= before@.insert(k, value));
            assert(self.keys() =~= before.keys().push(k));
        }
    }
}

/// A set of texts that keeps the order in which they came.
pub struct StringSet {
    map: StringMap<()>,
}

impl View for StringSet {
    type V = Set<Seq<char>>;

    closed spec fn view(&self) -> Set<Seq<char>> {
        self.map@.dom()
    }
}

impl StringSet {
    /// The underlying map is in order.
    pub closed spec fn wf(self) -> bool {
        self.map.wf()
    }

    /// The members in the order in which they came.
    pub closed spec fn items(self) -> Seq<Seq<char>> {
        self.map.keys()
    }

    /// No member comes twice, and the members are those of the set.
    pub proof fn items_are_the_set(self)
        requires
            self.wf(),
        ensures
            self.items().no_duplicates(),
            forall|k: Seq<char>| self.items().contains(k) <==> #[trigger] self@.contains(k),
            self@.finite(),
    {
        self.map.keys_are_the_domain();
        assert forall|k: Seq<char>| self.items().contains(k) <==> #[trigger] self@.contains(k) by {
            assert(self.map@.contains_key(k) <==> self@.contains(k));
        }
    }

    /// The empty set.
    pub fn new() -> (r: Self)
        ensures
            r.wf(),
            r@ == Set::<Seq<char>>::empty(),
            r.items() == Seq::<Seq<char>>::empty(),
    {
        let r = StringSet { map: StringMap::new() };
        assert(r@ =~= Set::<Seq<char>>::empty());
        r
    }

    /// The number of members.
    pub fn len(&self) -> (r: usize)
        requires
            self.wf(),
        ensures
            r == self.items().len(),
            r == self@.len(),
    {
        self.map.len()
    }

    /// Whether the set has the member.
    pub fn contains(&self, item: &str) -> (r: bool)
        ensures
            r == self@.contains(item@),
    {
        self.map.contains_key(item)
    }

    /// The member at a place.
    pub fn item_at(&self, i: usize) -> (r: &String)
        requires
            self.wf(),
            i < self.items().len(),
        ensures
            r@ == self.items()[i as int],
    {
        self.map.key_at(i)
    }

    /// Adds a member.
    pub fn insert(&mut self, item: String)
        requires
            old(self).wf(),
        ensures
            final(self).wf(),
            final(self)@ == old(self)@.insert(item@),
    {
        let ghost before = self@;
        let ghost k = item@;
        if !self.map.contains_key(item.as_str()) {
            self.map.push(item, ());
        }
        assert(self@ =~= before.insert(k));
    }

    /// Adds every member of another set.
    pub fn extend(&mut self, other: &StringSet)
        requires
            old(self).wf(),
            other.wf(),
        ensures
            final(self).wf(),
            final(self)@ == old(self)@.union(other@),
    {
        let ghost before = self@;
        let n = other.len();
        let mut i: usize = 0;
        proof {
            assert(self@ =~= before.union(other.items().take(0).to_set()));
        }
        while i < n
            invariant
                i <= n,
                n == other.items().len(),
                other.wf(),
                self.wf(),
                self@ == before.union(other.items().take(i as int).to_set()),
            decreases n - i,
        {
            let item = other.item_at(i).clone();
            let ghost k = item@;
            self.insert(item);
            proof {
                let t = other.items().take(i as int);
                let u = other.items().take(i + 1);
                assert(u == t.push(k));
                assert forall|x: Seq<char>| u.to_set().contains(x) <==> t.to_set().insert(k).contains(
                    x,
                ) by {
                    if t.contains(x) {
                        let j = choose|j: int| 0 <= j < t.len() && t[j] == x;
                        assert(u[j] == x);
                    }
                    if x == k {
                        assert(u[i as int] == k);
                    }
                    if u.contains(x) {
                        let j = choose|j: int| 0 <= j < u.len() && u[j] == x;
                        if j < i {
                            assert(t[j] == x);
                        }
                    }
                }
                assert(self@ =~= before.union(u.to_set()));
            }
            i += 1;
        }
        proof {
            other.items_are_the_set();
            assert(other.items().take(n as int) == other.items());
            assert(other.items().to_set() =~= other@);
        }
    }
}

} // verus!
