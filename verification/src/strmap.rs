//! String-keyed maps and sets, backed by association vectors with distinct
//! keys. Contracts speak of the mathematical `Map` / `Set` view of each
//! structure.

use vstd::prelude::*;

verus! {

/// Character-for-character equality of two string slices.
pub fn str_eq(a: &str, b: &str) -> (r: bool)
    ensures
        r == (a@ == b@),
{
    let al = a.unicode_len();
    let bl = b.unicode_len();
    if al != bl {
        return false;
    }
    let mut i: usize = 0;
    while i < al
        invariant
            i <= al,
            al == a@.len(),
            al == b@.len(),
            forall|j: int| 0 <= j < i ==> a@[j] == b@[j],
        decreases al - i,
    {
        if a.get_char(i) != b.get_char(i) {
            assert(a@ != b@) by {
                assert(a@[i as int] != b@[i as int]);
            }
            return false;
        }
        i = i + 1;
    }
    assert(a@ =~= b@);
    true
}

/// The finite map an association list denotes: later entries shadow earlier
/// ones, though with distinct keys no shadowing occurs.
pub open spec fn assoc_map<V>(s: Seq<(String, V)>) -> Map<Seq<char>, V>
    decreases s.len(),
{
    if s.len() == 0 {
        Map::empty()
    } else {
        assoc_map(s.drop_last()).insert(s.last().0@, s.last().1)
    }
}

/// No two entries share a key.
pub open spec fn distinct_keys<V>(s: Seq<(String, V)>) -> bool {
    forall|i: int, j: int|
        0 <= i < j < s.len() ==> (#[trigger] s[i]).0@ != (#[trigger] s[j]).0@
}

proof fn lemma_distinct_drop_last<V>(s: Seq<(String, V)>)
    requires
        s.len() > 0,
        distinct_keys(s),
    ensures
        distinct_keys(s.drop_last()),
{
    assert forall|i: int, j: int|
        0 <= i < j < s.drop_last().len() implies (#[trigger] s.drop_last()[i]).0@
        != (#[trigger] s.drop_last()[j]).0@ by {
        assert(s.drop_last()[i] == s[i]);
        assert(s.drop_last()[j] == s[j]);
    }
}

proof fn lemma_assoc_contains<V>(s: Seq<(String, V)>, k: Seq<char>)
    ensures
        assoc_map(s).dom().contains(k) <==> exists|i: int|
            0 <= i < s.len() && (#[trigger] s[i]).0@ == k,
    decreases s.len(),
{
    if s.len() > 0 {
        lemma_assoc_contains(s.drop_last(), k);
        if s.last().0@ == k {
            assert((s[s.len() - 1]).0@ == k);
        } else {
            if assoc_map(s).dom().contains(k) {
                let i = choose|i: int|
                    0 <= i < s.drop_last().len() && (#[trigger] s.drop_last()[i]).0@ == k;
                assert(s.drop_last()[i] == s[i]);
            }
            if exists|i: int| 0 <= i < s.len() && (#[trigger] s[i]).0@ == k {
                let i = choose|i: int| 0 <= i < s.len() && (#[trigger] s[i]).0@ == k;
                assert(i < s.len() - 1);
                assert(s.drop_last()[i] == s[i]);
            }
        }
    }
}

proof fn lemma_assoc_contains_all<V>(s: Seq<(String, V)>)
    ensures
        forall|k: Seq<char>|
            assoc_map(s).dom().contains(k) <==> exists|i: int|
                0 <= i < s.len() && (#[trigger] s[i]).0@ == k,
{
    assert forall|k: Seq<char>|
        assoc_map(s).dom().contains(k) <==> exists|i: int|
            0 <= i < s.len() && (#[trigger] s[i]).0@ == k by {
        lemma_assoc_contains(s, k);
    }
}

proof fn lemma_assoc_lookup<V>(s: Seq<(String, V)>, i: int)
    requires
        distinct_keys(s),
        0 <= i < s.len(),
    ensures
        assoc_map(s).dom().contains((s[i]).0@),
        assoc_map(s)[(s[i]).0@] == (s[i]).1,
    decreases s.len(),
{
    if i == s.len() - 1 {
    } else {
        lemma_distinct_drop_last(s);
        lemma_assoc_lookup(s.drop_last(), i);
        assert(s.drop_last()[i] == s[i]);
        assert((s[s.len() - 1]).0@ != (s[i]).0@);
    }
}

proof fn lemma_assoc_remove<V>(s: Seq<(String, V)>, i: int)
    requires
        distinct_keys(s),
        0 <= i < s.len(),
    ensures
        distinct_keys(s.remove(i)),
        assoc_map(s.remove(i)) == assoc_map(s).remove((s[i]).0@),
    decreases s.len(),
{
    assert forall|a: int, b: int|
        0 <= a < b < s.remove(i).len() implies (#[trigger] s.remove(i)[a]).0@
        != (#[trigger] s.remove(i)[b]).0@ by {
        let a0: int = if a < i { a } else { a + 1 };
        let b0: int = if b < i { b } else { b + 1 };
        assert(s.remove(i)[a] == s[a0]);
        assert(s.remove(i)[b] == s[b0]);
    }
    lemma_distinct_drop_last(s);
    if i == s.len() - 1 {
        assert(s.remove(i) =~= s.drop_last());
        lemma_assoc_contains(s.drop_last(), s.last().0@);
        assert(!assoc_map(s.drop_last()).dom().contains(s.last().0@)) by {
            if exists|j: int| 0 <= j < s.drop_last().len() && (#[trigger] s.drop_last()[j]).0@
                == s.last().0@ {
                let j = choose|j: int|
                    0 <= j < s.drop_last().len() && (#[trigger] s.drop_last()[j]).0@
                        == s.last().0@;
                assert(s.drop_last()[j] == s[j]);
            }
        }
        assert(assoc_map(s).remove(s.last().0@) =~= assoc_map(s.drop_last()));
    } else {
        let t = s.remove(i);
        assert(t.len() == s.len() - 1);
        assert(t.last() == s.last()) by {
            assert(t[t.len() - 1] == s[s.len() - 1]);
        }
        assert(t.drop_last() =~= s.drop_last().remove(i));
        lemma_assoc_remove(s.drop_last(), i);
        assert((s[i]).0@ != s.last().0@);
        assert(s.drop_last()[i] == s[i]);
        assert(assoc_map(t) == assoc_map(s.drop_last()).remove((s[i]).0@).insert(
            s.last().0@,
            s.last().1,
        ));
        assert(assoc_map(s.drop_last()).remove((s[i]).0@).insert(s.last().0@, s.last().1)
            =~= assoc_map(s.drop_last()).insert(s.last().0@, s.last().1).remove((s[i]).0@));
    }
}

proof fn lemma_assoc_update<V>(s: Seq<(String, V)>, i: int, e: (String, V))
    requires
        distinct_keys(s),
        0 <= i < s.len(),
        e.0@ == (s[i]).0@,
    ensures
        distinct_keys(s.update(i, e)),
        assoc_map(s.update(i, e)) == assoc_map(s).insert(e.0@, e.1),
    decreases s.len(),
{
    assert forall|a: int, b: int|
        0 <= a < b < s.update(i, e).len() implies (#[trigger] s.update(i, e)[a]).0@
        != (#[trigger] s.update(i, e)[b]).0@ by {
        assert((s.update(i, e)[a]).0@ == (s[a]).0@);
        assert((s.update(i, e)[b]).0@ == (s[b]).0@);
    }
    lemma_distinct_drop_last(s);
    if i == s.len() - 1 {
        assert(s.update(i, e).drop_last() =~= s.drop_last());
        assert(assoc_map(s.update(i, e)) == assoc_map(s.drop_last()).insert(e.0@, e.1));
        assert(assoc_map(s.drop_last()).insert(e.0@, e.1) =~= assoc_map(s.drop_last()).insert(
            s.last().0@,
            s.last().1,
        ).insert(e.0@, e.1));
    } else {
        let t = s.update(i, e);
        assert(t.last() == s.last());
        assert(t.drop_last() =~= s.drop_last().update(i, e));
        assert(s.drop_last()[i] == s[i]);
        lemma_assoc_update(s.drop_last(), i, e);
        assert(e.0@ != s.last().0@);
        assert(assoc_map(t) == assoc_map(s.drop_last()).insert(e.0@, e.1).insert(
            s.last().0@,
            s.last().1,
        ));
        assert(assoc_map(s.drop_last()).insert(e.0@, e.1).insert(s.last().0@, s.last().1)
            =~= assoc_map(s.drop_last()).insert(s.last().0@, s.last().1).insert(e.0@, e.1));
    }
}

proof fn lemma_assoc_card<V>(s: Seq<(String, V)>)
    requires
        distinct_keys(s),
    ensures
        assoc_map(s).dom().finite(),
        assoc_map(s).dom().len() == s.len(),
    decreases s.len(),
{
    if s.len() > 0 {
        lemma_distinct_drop_last(s);
        lemma_assoc_card(s.drop_last());
        lemma_assoc_contains(s.drop_last(), s.last().0@);
        assert(!assoc_map(s.drop_last()).dom().contains(s.last().0@)) by {
            if exists|j: int| 0 <= j < s.drop_last().len() && (#[trigger] s.drop_last()[j]).0@
                == s.last().0@ {
                let j = choose|j: int|
                    0 <= j < s.drop_last().len() && (#[trigger] s.drop_last()[j]).0@
                        == s.last().0@;
                assert(s.drop_last()[j] == s[j]);
            }
        }
        assert(assoc_map(s).dom() =~= assoc_map(s.drop_last()).dom().insert(s.last().0@));
    }
}

/// A map from strings to values, with the mathematical map as its view.
pub struct StrMap<V> {
    entries: Vec<(String, V)>,
}

impl<V> View for StrMap<V> {
    type V = Map<Seq<char>, V>;

    closed spec fn view(&self) -> Map<Seq<char>, V> {
        assoc_map(self.entries@)
    }
}

impl<V> StrMap<V> {
    #[verifier::type_invariant]
    spec fn inv(self) -> bool {
        distinct_keys(self.entries@)
    }

    pub fn new() -> (r: Self)
        ensures
            r@ == Map::<Seq<char>, V>::empty(),
    {
        StrMap { entries: Vec::new() }
    }

    fn index_of(&self, k: &str) -> (r: Option<usize>)
        ensures
            match r {
                Some(i) => i < self.entries@.len() && (self.entries@[i as int]).0@ == k@,
                None => forall|i: int|
                    0 <= i < self.entries@.len() ==> (#[trigger] self.entries@[i]).0@ != k@,
            },
    {
        let n = self.entries.len();
        let mut i: usize = 0;
        while i < n
            invariant
                i <= n,
                n == self.entries@.len(),
                forall|j: int| 0 <= j < i ==> (#[trigger] self.entries@[j]).0@ != k@,
            decreases n - i,
        {
            if str_eq(self.entries[i].0.as_str(), k) {
                return Some(i);
            }
            i = i + 1;
        }
        None
    }

    /// How many keys the map holds.
    pub fn len(&self) -> (n: usize)
        ensures
            n == self@.dom().len(),
            self@.dom().finite(),
    {
        proof {
            use_type_invariant(self);
            lemma_assoc_card(self.entries@);
        }
        self.entries.len()
    }

    pub fn is_empty(&self) -> (r: bool)
        ensures
            r == (self@.dom() == Set::<Seq<char>>::empty()),
    {
        proof {
            use_type_invariant(self);
            lemma_assoc_card(self.entries@);
            if self.entries@.len() == 0 {
                assert(self@.dom() =~= Set::<Seq<char>>::empty());
            } else {
                lemma_assoc_contains(self.entries@, (self.entries@[0]).0@);
                assert(self@.dom().contains((self.entries@[0]).0@));
            }
        }
        self.entries.len() == 0
    }

    pub fn contains_key(&self, k: &str) -> (r: bool)
        ensures
            r == self@.dom().contains(k@),
    {
        proof {
            lemma_assoc_contains(self.entries@, k@);
        }
        self.index_of(k).is_some()
    }

    pub fn get(&self, k: &str) -> (r: Option<&V>)
        ensures
            match r {
                Some(v) => self@.dom().contains(k@) && *v == self@[k@],
                None => !self@.dom().contains(k@),
            },
    {
        proof {
            use_type_invariant(self);
            lemma_assoc_contains(self.entries@, k@);
        }
        match self.index_of(k) {
            Some(i) => {
                proof {
                    lemma_assoc_lookup(self.entries@, i as int);
                }
                Some(&self.entries[i].1)
            },
            None => None,
        }
    }

    /// Bind `k` to `v`, replacing any earlier binding.
    pub fn insert(&mut self, k: String, v: V)
        ensures
            final(self)@ == old(self)@.insert(k@, v),
    {
        proof {
            use_type_invariant(&*self);
        }
        let ghost s0 = self.entries@;
        let idx = self.index_of(k.as_str());
        let mut es: Vec<(String, V)> = Vec::new();
        core::mem::swap(&mut es, &mut self.entries);
        match idx {
            Some(i) => {
                es[i] = (k, v);
                proof {
                    lemma_assoc_update(s0, i as int, es@[i as int]);
                    assert(es@ =~= s0.update(i as int, es@[i as int]));
                }
            },
            None => {
                es.push((k, v));
                proof {
                    assert(es@.drop_last() =~= s0);
                    assert forall|a: int, b: int|
                        0 <= a < b < es@.len() implies (#[trigger] es@[a]).0@
                        != (#[trigger] es@[b]).0@ by {
                        if b < es@.len() - 1 {
                            assert(es@[a] == s0[a]);
                            assert(es@[b] == s0[b]);
                        } else {
                            assert(es@[a] == s0[a]);
                        }
                    }
                }
            },
        }
        core::mem::swap(&mut es, &mut self.entries);
    }

    /// Drop the binding of `k`, returning the value it had.
    pub fn remove(&mut self, k: &str) -> (r: Option<V>)
        ensures
            final(self)@ == old(self)@.remove(k@),
            r is Some <==> old(self)@.dom().contains(k@),
            r matches Some(v) ==> v == old(self)@[k@],
    {
        proof {
            use_type_invariant(&*self);
            lemma_assoc_contains(self.entries@, k@);
        }
        match self.index_of(k) {
            Some(i) => {
                proof {
                    lemma_assoc_lookup(self.entries@, i as int);
                    lemma_assoc_remove(self.entries@, i as int);
                }
                let mut es: Vec<(String, V)> = Vec::new();
                core::mem::swap(&mut es, &mut self.entries);
                let e = es.remove(i);
                core::mem::swap(&mut es, &mut self.entries);
                Some(e.1)
            },
            None => {
                proof {
                    assert(old(self)@.remove(k@) =~= old(self)@);
                }
                None
            },
        }
    }

    /// All keys, each exactly once.
    pub fn keys(&self) -> (r: Vec<String>)
        ensures
            r@.len() == self@.dom().len(),
            forall|i: int| 0 <= i < r@.len() ==> self@.dom().contains((#[trigger] r@[i])@),
            forall|k: Seq<char>|
                self@.dom().contains(k) ==> exists|i: int|
                    0 <= i < r@.len() && (#[trigger] r@[i])@ == k,
            forall|i: int, j: int| 0 <= i < j < r@.len() ==> (r@[i])@ != (r@[j])@,
    {
        proof {
            use_type_invariant(self);
            lemma_assoc_card(self.entries@);
            lemma_assoc_contains_all(self.entries@);
        }
        let n = self.entries.len();
        let mut r: Vec<String> = Vec::new();
        let mut i: usize = 0;
        while i < n
            invariant
                i <= n,
                n == self.entries@.len(),
                r@.len() == i,
                forall|j: int| 0 <= j < i ==> (#[trigger] r@[j])@ == (self.entries@[j]).0@,
            decreases n - i,
        {
            r.push(self.entries[i].0.clone());
            i = i + 1;
        }
        proof {
            assert forall|k: Seq<char>| self@.dom().contains(k) implies exists|j: int|
                0 <= j < r@.len() && (#[trigger] r@[j])@ == k by {
                let j = choose|j: int|
                    0 <= j < self.entries@.len() && (#[trigger] self.entries@[j]).0@ == k;
                assert((r@[j])@ == k);
            }
        }
        r
    }

    /// The entries as key/value pairs; each key maps to its value in the view.
    pub fn entries(&self) -> (r: &Vec<(String, V)>)
        ensures
            r@.len() == self@.dom().len(),
            forall|i: int|
                0 <= i < r@.len() ==> self@.dom().contains((#[trigger] r@[i]).0@) && self@[(
                r@[i]).0@] == (r@[i]).1,
            forall|k: Seq<char>|
                self@.dom().contains(k) ==> exists|i: int|
                    0 <= i < r@.len() && (#[trigger] r@[i]).0@ == k,
            forall|i: int, j: int| 0 <= i < j < r@.len() ==> (r@[i]).0@ != (r@[j]).0@,
    {
        proof {
            use_type_invariant(self);
            lemma_assoc_card(self.entries@);
            lemma_assoc_contains_all(self.entries@);
            assert forall|i: int| 0 <= i < self.entries@.len() implies self@.dom().contains(
                (#[trigger] self.entries@[i]).0@,
            ) && self@[(self.entries@[i]).0@] == (self.entries@[i]).1 by {
                lemma_assoc_lookup(self.entries@, i);
            }
        }
        &self.entries
    }

    /// Drop every binding.
    pub fn clear(&mut self)
        ensures
            final(self)@ == Map::<Seq<char>, V>::empty(),
    {
        let mut es: Vec<(String, V)> = Vec::new();
        core::mem::swap(&mut es, &mut self.entries);
    }
}

/// A set of strings, with the mathematical set as its view.
pub struct StrSet {
    inner: StrMap<()>,
}

impl View for StrSet {
    type V = Set<Seq<char>>;

    closed spec fn view(&self) -> Set<Seq<char>> {
        self.inner@.dom()
    }
}

impl StrSet {
    pub fn new() -> (r: Self)
        ensures
            r@ == Set::<Seq<char>>::empty(),
    {
        let inner = StrMap::new();
        proof {
            assert(inner@.dom() =~= Set::<Seq<char>>::empty());
        }
        StrSet { inner }
    }

    pub fn len(&self) -> (n: usize)
        ensures
            n == self@.len(),
            self@.finite(),
    {
        self.inner.len()
    }

    pub fn is_empty(&self) -> (r: bool)
        ensures
            r == (self@ == Set::<Seq<char>>::empty()),
    {
        self.inner.is_empty()
    }

    pub fn contains(&self, k: &str) -> (r: bool)
        ensures
            r == self@.contains(k@),
    {
        self.inner.contains_key(k)
    }

    pub fn insert(&mut self, k: String)
        ensures
            final(self)@ == old(self)@.insert(k@),
    {
        let ghost k0 = k@;
        self.inner.insert(k, ());
        proof {
            assert(self.inner@.dom() =~= old(self).inner@.dom().insert(k0));
        }
    }

    /// Drop `k`, reporting whether it was present.
    pub fn remove(&mut self, k: &str) -> (was: bool)
        ensures
            final(self)@ == old(self)@.remove(k@),
            was == old(self)@.contains(k@),
    {
        let r = self.inner.remove(k);
        proof {
            assert(self.inner@.dom() =~= old(self).inner@.dom().remove(k@));
        }
        r.is_some()
    }

    /// The elements, each exactly once.
    pub fn to_vec(&self) -> (r: Vec<String>)
        ensures
            r@.len() == self@.len(),
            forall|i: int| 0 <= i < r@.len() ==> self@.contains((#[trigger] r@[i])@),
            forall|k: Seq<char>|
                self@.contains(k) ==> exists|i: int| 0 <= i < r@.len() && (#[trigger] r@[i])@ == k,
            forall|i: int, j: int| 0 <= i < j < r@.len() ==> (r@[i])@ != (r@[j])@,
    {
        self.inner.keys()
    }

    /// A copy with the same elements.
    pub fn duplicate(&self) -> (r: Self)
        ensures
            r@ == self@,
    {
        let items = self.to_vec();
        let mut r = StrSet::new();
        let n = items.len();
        let mut i: usize = 0;
        while i < n
            invariant
                i <= n,
                n == items@.len(),
                forall|j: int| 0 <= j < i ==> r@.contains((#[trigger] items@[j])@),
                forall|k: Seq<char>|
                    r@.contains(k) ==> exists|j: int|
                        0 <= j < i && (#[trigger] items@[j])@ == k,
                forall|j: int| 0 <= j < n ==> (self@.contains((#[trigger] items@[j])@)),
                forall|k: Seq<char>|
                    self@.contains(k) ==> exists|j: int|
                        0 <= j < n && (#[trigger] items@[j])@ == k,
            decreases n - i,
        {
            let ghost rpre = r@;
            r.insert(items[i].clone());
            proof {
                assert forall|k: Seq<char>| r@.contains(k) implies exists|j: int|
                    0 <= j < i + 1 && (#[trigger] items@[j])@ == k by {
                    if k == (items@[i as int])@ {
                        assert((items@[i as int])@ == k);
                    } else {
                        assert(rpre.contains(k));
                    }
                }
            }
            i = i + 1;
        }
        proof {
            assert(r@ =~= self@);
        }
        r
    }
}

} // verus!
