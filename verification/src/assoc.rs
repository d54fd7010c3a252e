use vstd::prelude::*;

verus! {

/// Whether some entry of `s` has the key `k`.
pub open spec fn has_key<W>(s: Seq<(Seq<char>, W)>, k: Seq<char>) -> bool {
    exists|i: int| 0 <= i < s.len() && (#[trigger] s[i]).0 == k
}

/// The position of an entry of `s` with the key `k`, where there is one.
pub open spec fn key_index<W>(s: Seq<(Seq<char>, W)>, k: Seq<char>) -> int {
    choose|i: int| 0 <= i < s.len() && (#[trigger] s[i]).0 == k
}

/// No key stands at two positions of `s`.
pub open spec fn distinct_keys<W>(s: Seq<(Seq<char>, W)>) -> bool {
    forall|i: int, j: int|
        0 <= i < j < s.len() ==> (#[trigger] s[i]).0 != (#[trigger] s[j]).0
}

/// The mapping that the entries of `s` stand for.
pub open spec fn pairs_map<W>(s: Seq<(Seq<char>, W)>) -> Map<Seq<char>, W> {
    Map::new(|k: Seq<char>| has_key(s, k), |k: Seq<char>| s[key_index(s, k)].1)
}

/// The entries once `k` is bound to `v`: a key that is bound keeps its place
/// and takes the new value, a new key goes to the end.
pub open spec fn put<W>(s: Seq<(Seq<char>, W)>, k: Seq<char>, v: W) -> Seq<(Seq<char>, W)> {
    if has_key(s, k) {
        s.update(key_index(s, k), (k, v))
    } else {
        s.push((k, v))
    }
}

/// The entries without the one that has the key `k`, if there is one.
pub open spec fn cut<W>(s: Seq<(Seq<char>, W)>, k: Seq<char>) -> Seq<(Seq<char>, W)> {
    if has_key(s, k) {
        s.remove(key_index(s, k))
    } else {
        s
    }
}

/// With distinct keys, the key at position `i` is found at `i` and nowhere else.
pub proof fn lemma_key_index<W>(s: Seq<(Seq<char>, W)>, i: int)
    requires
        distinct_keys(s),
        0 <= i < s.len(),
    ensures
        has_key(s, s[i].0),
        key_index(s, s[i].0) == i,
        pairs_map(s)[s[i].0] == s[i].1,
{
    let k = s[i].0;
    assert(s[i].0 == k);
    let j = key_index(s, k);
    assert(0 <= j < s.len() && s[j].0 == k);
    if j < i {
        assert(s[j].0 != s[i].0);
    } else if i < j {
        assert(s[i].0 != s[j].0);
    }
}

/// Appending an entry under a new key keeps the keys distinct and adds the
/// entry to the mapping.
pub proof fn lemma_push<W>(s: Seq<(Seq<char>, W)>, k: Seq<char>, v: W)
    requires
        distinct_keys(s),
        !has_key(s, k),
    ensures
        distinct_keys(s.push((k, v))),
        pairs_map(s.push((k, v))) == pairs_map(s).insert(k, v),
{
    let t = s.push((k, v));
    assert forall|i: int, j: int| 0 <= i < j < t.len() implies (#[trigger] t[i]).0 != (
    #[trigger] t[j]).0 by {
        if j < s.len() {
            assert(s[i].0 != s[j].0);
        } else {
            assert(t[i] == s[i]);
            assert(s[i].0 != k);
        }
    }
    assert(t[s.len() as int].0 == k);
    assert forall|q: Seq<char>| has_key(t, q) <==> (q == k || has_key(s, q)) by {
        if has_key(t, q) {
            let i = key_index(t, q);
            if i < s.len() {
                assert(s[i].0 == q);
            }
        }
        if has_key(s, q) {
            let i = key_index(s, q);
            assert(t[i].0 == q);
        }
    }
    assert forall|q: Seq<char>| has_key(t, q) implies #[trigger] pairs_map(t)[q] == pairs_map(
        s,
    ).insert(k, v)[q] by {
        let i = key_index(t, q);
        lemma_key_index(t, i);
        if i < s.len() {
            assert(t[i] == s[i]);
            lemma_key_index(s, i);
        }
    }
    assert(pairs_map(t) =~= pairs_map(s).insert(k, v));
}

/// Replacing the value at position `i` keeps the keys distinct and rebinds
/// that key in the mapping.
pub proof fn lemma_update<W>(s: Seq<(Seq<char>, W)>, i: int, v: W)
    requires
        distinct_keys(s),
        0 <= i < s.len(),
    ensures
        distinct_keys(s.update(i, (s[i].0, v))),
        pairs_map(s.update(i, (s[i].0, v))) == pairs_map(s).insert(s[i].0, v),
{
    let k = s[i].0;
    let t = s.update(i, (k, v));
    assert forall|a: int| 0 <= a < t.len() implies (#[trigger] t[a]).0 == s[a].0 by {}
    assert forall|a: int, b: int| 0 <= a < b < t.len() implies (#[trigger] t[a]).0 != (
    #[trigger] t[b]).0 by {
        assert(s[a].0 != s[b].0);
    }
    assert forall|q: Seq<char>| has_key(t, q) <==> has_key(s, q) by {
        if has_key(t, q) {
            let a = key_index(t, q);
            assert(s[a].0 == q);
        }
        if has_key(s, q) {
            let a = key_index(s, q);
            assert(t[a].0 == q);
        }
    }
    lemma_key_index(s, i);
    assert forall|q: Seq<char>| has_key(t, q) implies #[trigger] pairs_map(t)[q] == pairs_map(
        s,
    ).insert(k, v)[q] by {
        let a = key_index(t, q);
        lemma_key_index(t, a);
        if a != i {
            assert(t[a] == s[a]);
            lemma_key_index(s, a);
        }
    }
    assert(pairs_map(t) =~= pairs_map(s).insert(k, v));
}

/// Dropping the entry at position `i` keeps the keys distinct and removes
/// that key from the mapping.
pub proof fn lemma_remove<W>(s: Seq<(Seq<char>, W)>, i: int)
    requires
        distinct_keys(s),
        0 <= i < s.len(),
    ensures
        distinct_keys(s.remove(i)),
        pairs_map(s.remove(i)) == pairs_map(s).remove(s[i].0),
{
    let k = s[i].0;
    let t = s.remove(i);
    assert forall|a: int| 0 <= a < t.len() implies #[trigger] t[a] == s[if a < i {
        a
    } else {
        a + 1
    }] by {}
    assert forall|a: int, b: int| 0 <= a < b < t.len() implies (#[trigger] t[a]).0 != (
    #[trigger] t[b]).0 by {
        let a2 = if a < i { a } else { a + 1 };
        let b2 = if b < i { b } else { b + 1 };
        assert(s[a2].0 != s[b2].0);
    }
    assert forall|q: Seq<char>| has_key(t, q) <==> (q != k && has_key(s, q)) by {
        if has_key(t, q) {
            let a = key_index(t, q);
            let a2 = if a < i { a } else { a + 1 };
            assert(s[a2].0 == q);
            if a2 < i {
                assert(s[a2].0 != s[i].0);
            } else {
                assert(s[i].0 != s[a2].0);
            }
        }
        if q != k && has_key(s, q) {
            let a = key_index(s, q);
            let a2 = if a < i { a } else { a - 1 };
            assert(t[a2].0 == q);
        }
    }
    assert forall|q: Seq<char>| has_key(t, q) implies #[trigger] pairs_map(t)[q] == pairs_map(
        s,
    ).remove(k)[q] by {
        let a = key_index(t, q);
        lemma_key_index(t, a);
        let a2 = if a < i { a } else { a + 1 };
        assert(t[a] == s[a2]);
        lemma_key_index(s, a2);
    }
    assert(pairs_map(t) =~= pairs_map(s).remove(k));
}

/// Two lists that carry the same keys at the same positions bind the same
/// keys, and find each at the same position.
pub proof fn lemma_same_keys<W1, W2>(s: Seq<(Seq<char>, W1)>, t: Seq<(Seq<char>, W2)>)
    requires
        s.len() == t.len(),
        forall|i: int| 0 <= i < s.len() ==> (#[trigger] s[i]).0 == t[i].0,
        distinct_keys(s),
    ensures
        distinct_keys(t),
        forall|k: Seq<char>| has_key(s, k) == has_key(t, k),
        forall|k: Seq<char>| has_key(s, k) ==> key_index(s, k) == key_index(t, k),
{
    assert forall|i: int, j: int| 0 <= i < j < t.len() implies (#[trigger] t[i]).0 != (
    #[trigger] t[j]).0 by {
        assert(s[i].0 != s[j].0);
    }
    assert forall|k: Seq<char>| has_key(s, k) == has_key(t, k) by {
        if has_key(s, k) {
            let i = key_index(s, k);
            assert(s[i].0 == k);
            assert(t[i].0 == k);
        }
        if has_key(t, k) {
            let i = key_index(t, k);
            assert(s[i].0 == k);
        }
    }
    assert forall|k: Seq<char>| has_key(s, k) implies key_index(s, k) == key_index(t, k) by {
        let i = key_index(s, k);
        assert(s[i].0 == k);
        assert(t[i].0 == k);
        lemma_key_index(t, i);
    }
}

/// A string-keyed mapping kept as a list of entries in insertion order.
///
/// The order of the entries is part of the value, so keys and values read
/// from one instance always correspond.
pub struct Assoc<V> {
    pub(crate) entries: Vec<(String, V)>,
}

impl<V: DeepView> View for Assoc<V> {
    type V = Map<Seq<char>, V::V>;

    open spec fn view(&self) -> Map<Seq<char>, V::V> {
        pairs_map(self.pairs())
    }
}

impl<V: DeepView> Assoc<V> {
    /// The entries, in order, each key and value by its view.
    pub closed spec fn pairs(&self) -> Seq<(Seq<char>, V::V)> {
        self.entries.deep_view()
    }

    /// No key occurs twice.
    pub open spec fn wf(&self) -> bool {
        distinct_keys(self.pairs())
    }

    /// The mapping without entries.
    pub fn new() -> (r: Self)
        ensures
            r.pairs() == Seq::<(Seq<char>, V::V)>::empty(),
            r.wf(),
            r@ == Map::<Seq<char>, V::V>::empty(),
    {
        let r = Assoc { entries: Vec::new() };
        proof {
            assert(r.pairs() =~= Seq::<(Seq<char>, V::V)>::empty());
            assert(r@ =~= Map::<Seq<char>, V::V>::empty());
        }
        r
    }

    /// The number of entries.
    pub fn len(&self) -> (r: usize)
        ensures
            r == self.pairs().len(),
    {
        self.entries.len()
    }

    /// The key of the entry at position `i`.
    pub fn key_at(&self, i: usize) -> (r: &String)
        requires
            i < self.pairs().len(),
        ensures
            r@ == self.pairs()[i as int].0,
    {
        &self.entries[i].0
    }

    /// The value of the entry at position `i`.
    pub fn value_at(&self, i: usize) -> (r: &V)
        requires
            i < self.pairs().len(),
        ensures
            r.deep_view() == self.pairs()[i as int].1,
    {
        &self.entries[i].1
    }

    /// The position of the entry with this key.
    pub fn find(&self, key: &String) -> (r: Option<usize>)
        ensures
            match r {
                Some(i) => i < self.pairs().len() && self.pairs()[i as int].0 == key@,
                None => !has_key(self.pairs(), key@),
            },
            self.wf() && r.is_some() ==> r.unwrap() == key_index(self.pairs(), key@),
    {
        let mut i: usize = 0;
        while i < self.entries.len()
            invariant
                i <= self.entries.len(),
                forall|j: int| 0 <= j < i ==> (#[trigger] self.pairs()[j]).0 != key@,
            decreases self.entries.len() - i,
        {
            if self.entries[i].0 == *key {
                proof {
                    if self.wf() {
                        lemma_key_index(self.pairs(), i as int);
                    }
                }
                return Some(i);
            }
            i += 1;
        }
        None
    }

    /// Whether the mapping binds this key.
    pub fn contains_key(&self, key: &String) -> (r: bool)
        ensures
            r == self@.contains_key(key@),
    {
        self.find(key).is_some()
    }

    /// The value bound to this key, where there is one.
    pub fn get(&self, key: &String) -> (r: Option<&V>)
        requires
            self.wf(),
        ensures
            match r {
                Some(v) => self@.contains_key(key@) && v.deep_view() == self@[key@],
                None => !self@.contains_key(key@),
            },
    {
        match self.find(key) {
            Some(i) => {
                proof {
                    lemma_key_index(self.pairs(), i as int);
                }
                Some(&self.entries[i].1)
            },
            None => None,
        }
    }

    /// Binds `key` to `value`. A key that is already bound keeps its place
    /// and takes the new value; a new key goes to the end.
    pub fn insert(&mut self, key: String, value: V)
        requires
            old(self).wf(),
        ensures
            final(self).wf(),
            final(self)@ == old(self)@.insert(key@, value.deep_view()),
            final(self).pairs() == put(old(self).pairs(), key@, value.deep_view()),
    {
        let ghost before = self.pairs();
        let ghost k = key@;
        let ghost v = value.deep_view();
        match self.find(&key) {
            Some(i) => {
                self.entries.set(i, (key, value));
                proof {
                    assert(self.pairs() =~= before.update(i as int, (k, v)));
                    lemma_update(before, i as int, v);
                }
            },
            None => {
                self.entries.push((key, value));
                proof {
                    assert(self.pairs() =~= before.push((k, v)));
                    lemma_push(before, k, v);
                }
            },
        }
    }

    /// Drops the entry with this key, if there is one; the others keep their
    /// order.
    pub fn remove(&mut self, key: &String)
        requires
            old(self).wf(),
        ensures
            final(self).wf(),
            final(self)@ == old(self)@.remove(key@),
            final(self).pairs() == cut(old(self).pairs(), key@),
    {
        let ghost before = self.pairs();
        match self.find(key) {
            Some(i) => {
                let _ = self.entries.remove(i);
                proof {
                    assert(self.pairs() =~= before.remove(i as int));
                    lemma_remove(before, i as int);
                }
            },
            None => {
                proof {
                    assert(self@ =~= self@.remove(key@));
                }
            },
        }
    }
    /// The keys, in the order of the entries.
    pub fn keys(&self) -> (r: Vec<String>)
        ensures
            r.deep_view() == Seq::new(self.pairs().len(), |i: int| self.pairs()[i].0),
    {
        let mut out: Vec<String> = Vec::new();
        let mut i: usize = 0;
        while i < self.entries.len()
            invariant
                i <= self.entries.len(),
                out.len() == i,
                forall|j: int| 0 <= j < i ==> (#[trigger] out[j])@ == self.pairs()[j].0,
            decreases self.entries.len() - i,
        {
            out.push(self.entries[i].0.clone());
            i += 1;
        }
        proof {
            assert(out.deep_view() =~= Seq::new(self.pairs().len(), |i: int| self.pairs()[i].0));
        }
        out
    }

    /// The entries themselves, in order.
    pub fn into_entries(self) -> (r: Vec<(String, V)>)
        ensures
            r.deep_view() == self.pairs(),
    {
        self.entries
    }
}

impl Assoc<String> {
    /// A copy with the same entries in the same order.
    pub fn duplicate(&self) -> (r: Self)
        ensures
            r.pairs() == self.pairs(),
    {
        let mut out: Vec<(String, String)> = Vec::new();
        let mut i: usize = 0;
        while i < self.entries.len()
            invariant
                i <= self.entries.len(),
                out.len() == i,
                forall|j: int| 0 <= j < i ==> (#[trigger] out[j]).deep_view() == self.pairs()[j],
            decreases self.entries.len() - i,
        {
            out.push((self.entries[i].0.clone(), self.entries[i].1.clone()));
            i += 1;
        }
        let r = Assoc { entries: out };
        proof {
            assert(r.pairs() =~= self.pairs());
        }
        r
    }
}

} // verus!
