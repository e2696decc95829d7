//! A map from names to values, kept as a list of entries in insertion order
//! with no name twice.

use vstd::prelude::*;
use crate::text::chars_of;

verus! {

/// Whether the text of `a` equals `b`.
pub fn text_eq(a: &str, b: &str) -> (r: bool)
    ensures
        r == (a@ == b@),
{
    let x = chars_of(a);
    let y = chars_of(b);
    if x.len() != y.len() {
        return false;
    }
    let mut i: usize = 0;
    while i < x.len()
        invariant
            x@ == a@,
            y@ == b@,
            x@.len() == y@.len(),
            i <= x@.len(),
            forall|j: int| 0 <= j < i ==> x@[j] == y@[j],
        decreases x@.len() - i,
    {
        if x[i] != y[i] {
            return false;
        }
        i = i + 1;
    }
    assert(x@ =~= y@);
    true
}

/// A map from names to values.
pub struct StrMap<V> {
    entries: Vec<(String, V)>,
}

impl<V> View for StrMap<V> {
    type V = Map<Seq<char>, V>;

    closed spec fn view(&self) -> Map<Seq<char>, V> {
        Map::new(
            |k: Seq<char>| exists|i: int| 0 <= i < self.entries@.len() && self.entries@[i].0@ == k,
            |k: Seq<char>| self.entries@[self.index_of_key(k)].1,
        )
    }
}

impl<V> StrMap<V> {
    spec fn index_of_key(&self, k: Seq<char>) -> int {
        choose|i: int| 0 <= i < self.entries@.len() && self.entries@[i].0@ == k
    }

    /// The names, in the order they were first inserted.
    pub closed spec fn keys_seq(&self) -> Seq<Seq<char>> {
        self.entries@.map_values(|e: (String, V)| e.0@)
    }

    /// No name occurs twice.
    #[verifier::type_invariant]
    spec fn wf(&self) -> bool {
        forall|i: int, j: int|
            0 <= i < self.entries@.len() && 0 <= j < self.entries@.len() && i != j
                ==> #[trigger] self.entries@[i].0@ != #[trigger] self.entries@[j].0@
    }

    proof fn lemma_lookup(&self, i: int)
        requires
            self.wf(),
            0 <= i < self.entries@.len(),
        ensures
            self@.contains_key(self.entries@[i].0@),
            self@[self.entries@[i].0@] == self.entries@[i].1,
    {
        let k = self.entries@[i].0@;
        assert(self@.dom().contains(k));
        let j = self.index_of_key(k);
        assert(self.entries@[j].0@ == k);
    }

    proof fn lemma_keys(&self)
        requires
            self.wf(),
        ensures
            self.keys_seq().no_duplicates(),
            self.keys_seq().len() == self.entries@.len(),
            forall|k: Seq<char>| self@.contains_key(k) <==> self.keys_seq().contains(k),
            self@.dom().finite(),
            self@.len() == self.entries@.len(),
    {
        let ks = self.keys_seq();
        assert forall|k: Seq<char>| self@.contains_key(k) <==> ks.contains(k) by {
            if self@.contains_key(k) {
                let i = choose|i: int| 0 <= i < self.entries@.len() && self.entries@[i].0@ == k;
                assert(ks[i] == k);
            }
            if ks.contains(k) {
                let i = choose|i: int| 0 <= i < ks.len() && ks[i] == k;
                assert(self.entries@[i].0@ == k);
            }
        }
        assert(self@.dom() =~= ks.to_set());
        ks.unique_seq_to_set();
    }

    /// An empty map.
    pub fn new() -> (m: Self)
        ensures
            m@ == Map::<Seq<char>, V>::empty(),
            m.keys_seq() == Seq::<Seq<char>>::empty(),
            forall|k: Seq<char>| m@.contains_key(k) <==> m.keys_seq().contains(k),
    {
        let m = StrMap { entries: Vec::new() };
        assert(m@ =~= Map::<Seq<char>, V>::empty());
        assert(m.keys_seq() =~= Seq::<Seq<char>>::empty());
        m
    }

    /// The number of names.
    pub fn len(&self) -> (n: usize)
        ensures
            n == self@.len(),
            n == self.keys_seq().len(),
    {
        proof {
            use_type_invariant(&*self);
            self.lemma_keys();
        }
        self.entries.len()
    }

    fn find(&self, key: &str) -> (r: Option<usize>)
        requires
            self.wf(),
        ensures
            r is None <==> !self@.contains_key(key@),
            r matches Some(i) ==> i < self.entries@.len() && self.entries@[i as int].0@ == key@
                && self@[key@] == self.entries@[i as int].1,
    {
        let mut i: usize = 0;
        while i < self.entries.len()
            invariant
                self.wf(),
                i <= self.entries@.len(),
                forall|j: int| 0 <= j < i ==> self.entries@[j].0@ != key@,
            decreases self.entries@.len() - i,
        {
            if text_eq(self.entries[i].0.as_str(), key) {
                proof {
                    self.lemma_lookup(i as int);
                }
                return Some(i);
            }
            i = i + 1;
        }
        None
    }

    /// The value stored under `key`.
    pub fn get(&self, key: &str) -> (r: Option<&V>)
        ensures
            r is Some <==> self@.contains_key(key@),
            r is Some <==> self.keys_seq().contains(key@),
            r matches Some(v) ==> *v == self@[key@],
    {
        proof {
            use_type_invariant(&*self);
            self.lemma_keys();
        }
        match self.find(key) {
            Some(i) => Some(&self.entries[i].1),
            None => None,
        }
    }

    /// Whether a value is stored under `key`.
    pub fn contains_key(&self, key: &str) -> (r: bool)
        ensures
            r == self@.contains_key(key@),
            r == self.keys_seq().contains(key@),
    {
        proof {
            use_type_invariant(&*self);
            self.lemma_keys();
        }
        self.find(key).is_some()
    }

    /// Stores `value` under `key`, replacing and returning any value stored there.
    /// A new name goes after the names already present.
    pub fn insert(&mut self, key: String, value: V) -> (r: Option<V>)
        ensures
            final(self)@ == old(self)@.insert(key@, value),
            old(self)@.contains_key(key@) <==> old(self).keys_seq().contains(key@),
            old(self)@.contains_key(key@) ==> r == Some(old(self)@[key@])
                && final(self).keys_seq() == old(self).keys_seq(),
            !old(self)@.contains_key(key@) ==> r is None
                && final(self).keys_seq() == old(self).keys_seq().push(key@),
            forall|k: Seq<char>| final(self)@.contains_key(k) <==> final(self).keys_seq().contains(k),
    {
        proof {
            use_type_invariant(&*self);
            self.lemma_keys();
        }
        match self.find(key.as_str()) {
            Some(i) => {
                let ghost k = key@;
                let ghost e0 = self.entries@;
                let mut old_entry = (key, value);
                let mut entries: Vec<(String, V)> = Vec::new();
                std::mem::swap(&mut entries, &mut self.entries);
                std::mem::swap(&mut entries[i], &mut old_entry);
                proof {
                    assert forall|a: int, b: int|
                        0 <= a < entries@.len() && 0 <= b < entries@.len() && a != b
                            implies #[trigger] entries@[a].0@ != #[trigger] entries@[b].0@ by {
                        assert(e0[a].0@ != e0[b].0@);
                    }
                }
                self.entries = entries;
                proof {
                    assert(self.entries@ == e0.update(i as int, (self.entries@[i as int].0, value)));
                    assert forall|a: int, b: int|
                        0 <= a < self.entries@.len() && 0 <= b < self.entries@.len() && a != b
                            implies #[trigger] self.entries@[a].0@ != #[trigger] self.entries@[b].0@ by {
                        assert(e0[a].0@ != e0[b].0@);
                    }
                    assert(self.keys_seq() =~= old(self).keys_seq());
                    assert forall|q: Seq<char>| #[trigger] self@.contains_key(q) <==> old(self)@.insert(k, value).contains_key(q) by {
                        if self@.contains_key(q) {
                            let j = choose|j: int| 0 <= j < self.entries@.len() && self.entries@[j].0@ == q;
                            assert(e0[j].0@ == q);
                        }
                        if old(self)@.contains_key(q) {
                            let j = choose|j: int| 0 <= j < e0.len() && e0[j].0@ == q;
                            assert(self.entries@[j].0@ == q);
                        }
                    }
                    assert forall|q: Seq<char>| #[trigger] self@.contains_key(q) implies self@[q] == old(self)@.insert(k, value)[q] by {
                        let j = choose|j: int| 0 <= j < self.entries@.len() && self.entries@[j].0@ == q;
                        self.lemma_lookup(j);
                        if q != k {
                            old(self).lemma_lookup(j);
                        }
                    }
                    assert(self@ =~= old(self)@.insert(k, value));
                }
                proof {
                    use_type_invariant(&*self);
                    self.lemma_keys();
                }
                Some(old_entry.1)
            },
            None => {
                let ghost k = key@;
                let ghost e0 = self.entries@;
                let mut entries: Vec<(String, V)> = Vec::new();
                std::mem::swap(&mut entries, &mut self.entries);
                entries.push((key, value));
                self.entries = entries;
                proof {
                    let n = e0.len() as int;
                    assert(self.entries@[n].0@ == k);
                    assert forall|a: int, b: int|
                        0 <= a < self.entries@.len() && 0 <= b < self.entries@.len() && a != b
                            implies #[trigger] self.entries@[a].0@ != #[trigger] self.entries@[b].0@ by {
                        if a < n && b < n {
                            assert(e0[a].0@ != e0[b].0@);
                        } else if a < n {
                            assert(e0[a].0@ != k);
                        } else {
                            assert(e0[b].0@ != k);
                        }
                    }
                    assert(self.keys_seq() =~= old(self).keys_seq().push(k));
                    assert forall|q: Seq<char>| #[trigger] self@.contains_key(q) <==> old(self)@.insert(k, value).contains_key(q) by {
                        if self@.contains_key(q) {
                            let j = choose|j: int| 0 <= j < self.entries@.len() && self.entries@[j].0@ == q;
                            if j < n {
                                assert(e0[j].0@ == q);
                            }
                        }
                        if old(self)@.contains_key(q) {
                            let j = choose|j: int| 0 <= j < e0.len() && e0[j].0@ == q;
                            assert(self.entries@[j].0@ == q);
                        }
                    }
                    assert forall|q: Seq<char>| #[trigger] self@.contains_key(q) implies self@[q] == old(self)@.insert(k, value)[q] by {
                        let j = choose|j: int| 0 <= j < self.entries@.len() && self.entries@[j].0@ == q;
                        self.lemma_lookup(j);
                        if j < n {
                            old(self).lemma_lookup(j);
                        }
                    }
                    assert(self@ =~= old(self)@.insert(k, value));
                }
                proof {
                    use_type_invariant(&*self);
                    self.lemma_keys();
                }
                None
            },
        }
    }

    /// Removes and returns the value stored under `key`.
    pub fn remove(&mut self, key: &str) -> (r: Option<V>)
        ensures
            final(self)@ == old(self)@.remove(key@),
            old(self)@.contains_key(key@) <==> old(self).keys_seq().contains(key@),
            old(self)@.contains_key(key@) ==> r == Some(old(self)@[key@])
                && final(self).keys_seq() == old(self).keys_seq().remove(old(self).keys_seq().index_of(key@)),
            !old(self)@.contains_key(key@) ==> r is None && final(self).keys_seq() == old(self).keys_seq(),
    {
        proof {
            use_type_invariant(&*self);
            self.lemma_keys();
        }
        match self.find(key) {
            None => {
                assert(self@ =~= old(self)@.remove(key@));
                None
            },
            Some(i) => {
                let ghost e0 = self.entries@;
                let ghost k = key@;
                let mut entries: Vec<(String, V)> = Vec::new();
                std::mem::swap(&mut entries, &mut self.entries);
                let entry = entries.remove(i);
                self.entries = entries;
                proof {
                    let ii = i as int;
                    assert(self.entries@ =~= e0.remove(ii));
                    assert forall|a: int, b: int|
                        0 <= a < self.entries@.len() && 0 <= b < self.entries@.len() && a != b
                            implies #[trigger] self.entries@[a].0@ != #[trigger] self.entries@[b].0@ by {
                        let a1 = if a < ii { a } else { a + 1 };
                        let b1 = if b < ii { b } else { b + 1 };
                        assert(e0[a1].0@ != e0[b1].0@);
                    }
                    old(self).lemma_keys();
                    let ks = old(self).keys_seq();
                    assert(ks[ii] == k);
                    let kk = ks.index_of(k);
                    assert(ks[kk] == k);
                    assert(kk == ii);
                    assert(self.keys_seq() =~= ks.remove(ii));
                    assert forall|q: Seq<char>| #[trigger] self@.contains_key(q) <==> old(self)@.remove(k).contains_key(q) by {
                        if self@.contains_key(q) {
                            let j = choose|j: int| 0 <= j < self.entries@.len() && self.entries@[j].0@ == q;
                            let j1 = if j < ii { j } else { j + 1 };
                            assert(e0[j1].0@ == q);
                            assert(j1 != ii);
                        }
                        if old(self)@.remove(k).contains_key(q) {
                            let j = choose|j: int| 0 <= j < e0.len() && e0[j].0@ == q;
                            assert(j != ii);
                            let j2 = if j < ii { j } else { j - 1 };
                            assert(self.entries@[j2].0@ == q);
                        }
                    }
                    assert forall|q: Seq<char>| #[trigger] self@.contains_key(q) implies self@[q] == old(self)@.remove(k)[q] by {
                        let j = choose|j: int| 0 <= j < self.entries@.len() && self.entries@[j].0@ == q;
                        self.lemma_lookup(j);
                        let j1 = if j < ii { j } else { j + 1 };
                        old(self).lemma_lookup(j1);
                    }
                    assert(self@ =~= old(self)@.remove(k));
                }
                Some(entry.1)
            },
        }
    }

    /// References to the names, in insertion order.
    pub fn keys(&self) -> (r: Vec<&String>)
        ensures
            self.keys_seq().no_duplicates(),
            forall|k: Seq<char>| self@.contains_key(k) <==> self.keys_seq().contains(k),
            r@.len() == self.keys_seq().len(),
            forall|i: int| 0 <= i < r@.len() ==> (#[trigger] r@[i])@ == self.keys_seq()[i],
    {
        proof {
            use_type_invariant(&*self);
        }
        proof {
            self.lemma_keys();
        }
        let mut r: Vec<&String> = Vec::new();
        let mut i: usize = 0;
        while i < self.entries.len()
            invariant
                i <= self.entries@.len(),
                r@.len() == i,
                forall|j: int| 0 <= j < i ==> (#[trigger] r@[j])@ == self.entries@[j].0@,
            decreases self.entries@.len() - i,
        {
            r.push(&self.entries[i].0);
            i = i + 1;
        }
        r
    }

    /// References to the values, in the order of their names.
    pub fn values(&self) -> (r: Vec<&V>)
        ensures
            r@.len() == self.keys_seq().len(),
            forall|i: int| 0 <= i < r@.len() ==> *(#[trigger] r@[i]) == self@[self.keys_seq()[i]],
    {
        proof {
            use_type_invariant(&*self);
        }
        let mut r: Vec<&V> = Vec::new();
        let mut i: usize = 0;
        while i < self.entries.len()
            invariant
                self.wf(),
                i <= self.entries@.len(),
                r@.len() == i,
                forall|j: int| 0 <= j < i ==> *(#[trigger] r@[j]) == self@[self.keys_seq()[j]],
            decreases self.entries@.len() - i,
        {
            proof {
                self.lemma_lookup(i as int);
            }
            r.push(&self.entries[i].1);
            i = i + 1;
        }
        r
    }

    /// Every recorded name is a key of the map.
    pub proof fn lemma_keys_in_map(&self, j: int)
        requires
            0 <= j < self.keys_seq().len(),
        ensures
            self@.contains_key(self.keys_seq()[j]),
    {
        assert(self.entries@[j].0@ == self.keys_seq()[j]);
    }
}

/// A value stored under a name is what a lookup of that name then finds,
/// and every other name keeps what it had.
pub proof fn lemma_get_after_insert<V>(m: Map<Seq<char>, V>, key: Seq<char>, value: V, other: Seq<char>)
    requires
        other != key,
    ensures
        m.insert(key, value).contains_key(key),
        m.insert(key, value)[key] == value,
        m.insert(key, value).contains_key(other) == m.contains_key(other),
        m.contains_key(other) ==> m.insert(key, value)[other] == m[other],
{
}

/// Removing a name leaves it unstored and every other name as it was.
pub proof fn lemma_get_after_remove<V>(m: Map<Seq<char>, V>, key: Seq<char>, other: Seq<char>)
    requires
        other != key,
    ensures
        !m.remove(key).contains_key(key),
        m.remove(key).contains_key(other) == m.contains_key(other),
        m.contains_key(other) ==> m.remove(key)[other] == m[other],
{
}

} // verus!
