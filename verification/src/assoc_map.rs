//! A finite map kept as a list of entries with distinct keys, in insertion order.

use vstd::prelude::*;

verus! {

/// Keys that can be compared for equality of their views.
pub trait MapKey: View + Sized {
    fn key_eq(&self, other: &Self) -> (b: bool)
        ensures
            b == (self@ == other@),
    ;
}

impl MapKey for u64 {
    fn key_eq(&self, other: &u64) -> (b: bool) {
        *self == *other
    }
}

impl MapKey for String {
    fn key_eq(&self, other: &String) -> (b: bool) {
        *self == *other
    }
}

/// A sequence with an element that satisfies `p` has a first such element.
pub proof fn lemma_first_index<A>(s: Seq<A>, p: spec_fn(A) -> bool)
    requires
        exists|i: int| 0 <= i < s.len() && p(s[i]),
    ensures
        exists|i: int| 0 <= i < s.len() && p(s[i]) && forall|j: int| 0 <= j < i ==> !p(s[j]),
    decreases s.len(),
{
    if !p(s[0]) {
        let t = s.drop_first();
        let k = choose|i: int| 0 <= i < s.len() && p(s[i]);
        assert(t[k - 1] == s[k]);
        lemma_first_index(t, p);
        let m = choose|i: int| 0 <= i < t.len() && p(t[i]) && forall|j: int| 0 <= j < i ==> !p(t[j]);
        assert(s[m + 1] == t[m]);
        assert forall|j: int| 0 <= j < m + 1 implies !p(s[j]) by {
            if j > 0 {
                assert(s[j] == t[j - 1]);
            }
        }
    }
}

/// No two entries share a key.
pub open spec fn distinct_keys<K: View, V>(s: Seq<(K, V)>) -> bool {
    forall|i: int, j: int| 0 <= i < s.len() && 0 <= j < s.len() && i != j ==> s[i].0@ != s[j].0@
}

/// The map that a list of entries denotes.
pub open spec fn map_of<K: View, V>(s: Seq<(K, V)>) -> Map<K::V, V> {
    Map::new(
        |k: K::V| exists|i: int| 0 <= i < s.len() && s[i].0@ == k,
        |k: K::V| s[choose|i: int| 0 <= i < s.len() && s[i].0@ == k].1,
    )
}

/// In a list with distinct keys, the entry at `i` is what the map holds for its key.
pub proof fn lemma_map_of_at<K: View, V>(s: Seq<(K, V)>, i: int)
    requires
        distinct_keys(s),
        0 <= i < s.len(),
    ensures
        map_of(s).contains_key(s[i].0@),
        map_of(s)[s[i].0@] == s[i].1,
{
    let k = s[i].0@;
    assert(exists|j: int| 0 <= j < s.len() && s[j].0@ == k);
    let j = choose|j: int| 0 <= j < s.len() && s[j].0@ == k;
    assert(j == i);
}

/// Appending an entry with a fresh key inserts it into the map.
pub proof fn lemma_map_of_push<K: View, V>(s: Seq<(K, V)>, k: K, v: V)
    requires
        distinct_keys(s),
        !map_of(s).contains_key(k@),
    ensures
        distinct_keys(s.push((k, v))),
        map_of(s.push((k, v))) == map_of(s).insert(k@, v),
{
    let t = s.push((k, v));
    assert forall|i: int, j: int| 0 <= i < t.len() && 0 <= j < t.len() && i != j implies t[i].0@
        != t[j].0@ by {
        if i == s.len() as int {
            assert(!(exists|x: int| 0 <= x < s.len() && s[x].0@ == k@));
            assert(t[j] == s[j]);
        } else if j == s.len() as int {
            assert(!(exists|x: int| 0 <= x < s.len() && s[x].0@ == k@));
            assert(t[i] == s[i]);
        } else {
            assert(t[i] == s[i] && t[j] == s[j]);
        }
    }
    assert forall|key: K::V| #[trigger] map_of(t).contains_key(key) == map_of(s).insert(
        k@,
        v,
    ).contains_key(key) by {
        if map_of(s).contains_key(key) {
            let x = choose|x: int| 0 <= x < s.len() && s[x].0@ == key;
            assert(t[x] == s[x]);
        }
        if key == k@ {
            assert(t[s.len() as int].0@ == key);
        }
    }
    assert forall|key: K::V| #[trigger] map_of(t).contains_key(key) implies map_of(t)[key]
        == map_of(s).insert(k@, v)[key] by {
        let x = choose|x: int| 0 <= x < t.len() && t[x].0@ == key;
        lemma_map_of_at(t, x);
        if x < s.len() {
            assert(t[x] == s[x]);
            lemma_map_of_at(s, x);
        }
    }
    assert(map_of(t) =~= map_of(s).insert(k@, v));
}

/// Replacing the value of the entry at `i` updates the map at that key.
pub proof fn lemma_map_of_update<K: View, V>(s: Seq<(K, V)>, i: int, k: K, v: V)
    requires
        distinct_keys(s),
        0 <= i < s.len(),
        s[i].0@ == k@,
    ensures
        distinct_keys(s.update(i, (k, v))),
        map_of(s.update(i, (k, v))) == map_of(s).insert(k@, v),
{
    let t = s.update(i, (k, v));
    assert forall|a: int, b: int| 0 <= a < t.len() && 0 <= b < t.len() && a != b implies t[a].0@
        != t[b].0@ by {
        assert(t[a].0@ == s[a].0@);
        assert(t[b].0@ == s[b].0@);
    }
    assert forall|key: K::V| #[trigger] map_of(t).contains_key(key) == map_of(s).insert(
        k@,
        v,
    ).contains_key(key) by {
        if map_of(s).contains_key(key) {
            let x = choose|x: int| 0 <= x < s.len() && s[x].0@ == key;
            assert(t[x].0@ == key);
        }
        if map_of(t).contains_key(key) {
            let x = choose|x: int| 0 <= x < t.len() && t[x].0@ == key;
            assert(s[x].0@ == key);
        }
        if key == k@ {
            assert(t[i].0@ == key);
        }
    }
    assert forall|key: K::V| #[trigger] map_of(t).contains_key(key) implies map_of(t)[key]
        == map_of(s).insert(k@, v)[key] by {
        let x = choose|x: int| 0 <= x < t.len() && t[x].0@ == key;
        lemma_map_of_at(t, x);
        if x != i {
            lemma_map_of_at(s, x);
        }
    }
    assert(map_of(t) =~= map_of(s).insert(k@, v));
}

/// A list with distinct keys has as many entries as its map has keys.
pub proof fn lemma_map_of_len<K: View, V>(s: Seq<(K, V)>)
    requires
        distinct_keys(s),
    ensures
        map_of(s).dom().finite(),
        map_of(s).dom().len() == s.len(),
    decreases s.len(),
{
    if s.len() == 0 {
        assert(map_of(s).dom() =~= Set::empty());
    } else {
        let p = s.drop_last();
        assert(distinct_keys(p)) by {
            assert forall|i: int, j: int|
                0 <= i < p.len() && 0 <= j < p.len() && i != j implies p[i].0@ != p[j].0@ by {
                assert(p[i] == s[i] && p[j] == s[j]);
            }
        }
        lemma_map_of_len(p);
        let last = s.last();
        assert(!map_of(p).contains_key(last.0@)) by {
            if map_of(p).contains_key(last.0@) {
                let x = choose|x: int| 0 <= x < p.len() && p[x].0@ == last.0@;
                assert(s[x].0@ == s[s.len() - 1].0@);
            }
        }
        lemma_map_of_push(p, last.0, last.1);
        assert(p.push((last.0, last.1)) =~= s);
    }
}

/// A finite map from keys to values, kept in insertion order.
#[derive(Debug)]
pub struct AssocMap<K, V> {
    entries: Vec<(K, V)>,
}

impl<K: View, V> View for AssocMap<K, V> {
    type V = Map<K::V, V>;

    closed spec fn view(&self) -> Map<K::V, V> {
        map_of(self.entries@)
    }
}

impl<K: MapKey, V> AssocMap<K, V> {
    /// The entries, in insertion order.
    pub closed spec fn entries(&self) -> Seq<(K, V)> {
        self.entries@
    }

    /// Keys are distinct and the map is the one the entries denote.
    pub closed spec fn wf(&self) -> bool {
        distinct_keys(self.entries@)
    }

    pub proof fn lemma_view(&self)
        requires
            self.wf(),
        ensures
            self@ == map_of(self.entries()),
            distinct_keys(self.entries()),
            self@.dom().finite(),
            self@.dom().len() == self.entries().len(),
    {
        lemma_map_of_len(self.entries@);
    }

    /// An empty map.
    pub fn new() -> (m: Self)
        ensures
            m.wf(),
            m@ == Map::<K::V, V>::empty(),
            m.entries() == Seq::<(K, V)>::empty(),
    {
        let m = AssocMap { entries: Vec::new() };
        assert(map_of(m.entries@) =~= Map::<K::V, V>::empty());
        m
    }

    /// The number of keys.
    pub fn len(&self) -> (n: usize)
        requires
            self.wf(),
        ensures
            n == self@.len(),
            n == self.entries().len(),
    {
        proof {
            lemma_map_of_len(self.entries@);
        }
        self.entries.len()
    }

    /// The position of the entry for `k`, if there is one.
    pub fn index_of(&self, k: &K) -> (r: Option<usize>)
        requires
            self.wf(),
        ensures
            r is None <==> !self@.contains_key(k@),
            r matches Some(i) ==> i < self.entries().len() && self.entries()[i as int].0@ == k@
                && self@[k@] == self.entries()[i as int].1,
    {
        let mut i: usize = 0;
        while i < self.entries.len()
            invariant
                self.wf(),
                i <= self.entries@.len(),
                forall|j: int| 0 <= j < i ==> self.entries@[j].0@ != k@,
            decreases self.entries@.len() - i,
        {
            if self.entries[i].0.key_eq(k) {
                proof {
                    lemma_map_of_at(self.entries@, i as int);
                }
                return Some(i);
            }
            i = i + 1;
        }
        None
    }

    /// Whether `k` has an entry.
    pub fn contains_key(&self, k: &K) -> (b: bool)
        requires
            self.wf(),
        ensures
            b == self@.contains_key(k@),
    {
        self.index_of(k).is_some()
    }

    /// The value stored for `k`, if any.
    pub fn get(&self, k: &K) -> (r: Option<&V>)
        requires
            self.wf(),
        ensures
            r is Some <==> self@.contains_key(k@),
            r matches Some(v) ==> *v == self@[k@],
    {
        match self.index_of(k) {
            Some(i) => Some(&self.entries[i].1),
            None => None,
        }
    }

    /// The key of the entry at position `i`.
    pub fn key_at(&self, i: usize) -> (k: &K)
        requires
            i < self.entries().len(),
        ensures
            *k == self.entries()[i as int].0,
    {
        &self.entries[i].0
    }

    /// The value of the entry at position `i`.
    pub fn value_at(&self, i: usize) -> (v: &V)
        requires
            i < self.entries().len(),
        ensures
            *v == self.entries()[i as int].1,
    {
        &self.entries[i].1
    }

    /// The value of the entry at position `i`, for changing in place.
    pub fn value_at_mut(&mut self, i: usize) -> (v: &mut V)
        requires
            old(self).wf(),
            i < old(self).entries().len(),
        ensures
            *v == old(self).entries()[i as int].1,
            final(self).wf(),
            final(self).entries() == old(self).entries().update(
                i as int,
                (old(self).entries()[i as int].0, *final(v)),
            ),
            final(self)@ == old(self)@.insert(old(self).entries()[i as int].0@, *final(v)),
    {
        proof {
            let s = self.entries@;
            let k = s[i as int].0;
            assert forall|x: V| #![auto] distinct_keys(s.update(i as int, (k, x))) && map_of(s.update(i as int, (k, x))) == map_of(s).insert(k@, x) by {
                lemma_map_of_update(s, i as int, k, x);
            }
        }
        &mut self.entries[i].1
    }

    /// Stores `v` for `k`: an existing entry keeps its position, a new key goes last.
    pub fn insert(&mut self, k: K, v: V)
        requires
            old(self).wf(),
        ensures
            final(self).wf(),
            final(self)@ == old(self)@.insert(k@, v),
            old(self)@.contains_key(k@) ==> exists|i: int|
                0 <= i < old(self).entries().len() && old(self).entries()[i].0@ == k@ 
                    && final(self).entries() == old(self).entries().update(i, (k, v)),
            !old(self)@.contains_key(k@) ==> final(self).entries() == old(self).entries().push(
                (k, v),
            ),
    {
        match self.index_of(&k) {
            Some(i) => {
                proof {
                    lemma_map_of_update(self.entries@, i as int, k, v);
                }
                self.entries.set(i, (k, v));
            },
            None => {
                proof {
                    lemma_map_of_push(self.entries@, k, v);
                }
                self.entries.push((k, v));
            },
        }
    }
}

impl<K: MapKey + Copy, V: Copy> AssocMap<K, V> {
    /// A copy with the same entries in the same order.
    pub fn duplicate(&self) -> (c: Self)
        ensures
            c.wf() == self.wf(),
            c.entries() == self.entries(),
            c@ == self@,
    {
        let mut entries: Vec<(K, V)> = Vec::new();
        let mut i: usize = 0;
        while i < self.entries.len()
            invariant
                i <= self.entries@.len(),
                entries@ == self.entries@.take(i as int),
            decreases self.entries@.len() - i,
        {
            let e = self.entries[i];
            entries.push(e);
            assert(entries@ =~= self.entries@.take(i + 1));
            i = i + 1;
        }
        assert(entries@ =~= self.entries@);
        AssocMap { entries }
    }
}

} // verus!
