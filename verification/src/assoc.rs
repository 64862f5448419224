//! Maps keyed by text, held as a list of entries with distinct keys.

use vstd::prelude::*;

verus! {

/// Keys that can be compared by their views.
pub trait KeyEq: View + Sized {
    fn key_eq(&self, other: &Self) -> (b: bool)
        ensures
            b == (self@ == other@),
    ;
}

impl KeyEq for String {
    fn key_eq(&self, other: &Self) -> (b: bool) {
        *self == *other
    }
}

impl KeyEq for (String, String) {
    fn key_eq(&self, other: &Self) -> (b: bool) {
        self.0 == other.0 && self.1 == other.1
    }
}

/// No two entries of `s` have the same key.
pub open spec fn keys_distinct<K: View, V>(s: Seq<(K, V)>) -> bool {
    forall|i: int, j: int| 0 <= i < j < s.len() ==> s[i].0@ != s[j].0@
}

/// The map that the entries `s` hold.
pub open spec fn map_of<K: View, V>(s: Seq<(K, V)>) -> Map<K::V, V>
    decreases s.len(),
{
    if s.len() == 0 {
        Map::empty()
    } else {
        map_of(s.drop_last()).insert(s.last().0@, s.last().1)
    }
}

/// A key is in `map_of(s)` exactly when some entry has it.
proof fn lemma_map_of_dom<K: View, V>(s: Seq<(K, V)>, k: K::V)
    ensures
        map_of(s).dom().contains(k) <==> exists|i: int| 0 <= i < s.len() && s[i].0@ == k,
    decreases s.len(),
{
    if s.len() > 0 {
        lemma_map_of_dom(s.drop_last(), k);
        if map_of(s.drop_last()).dom().contains(k) {
            let i = choose|i: int| 0 <= i < s.drop_last().len() && s.drop_last()[i].0@ == k;
            assert(s[i].0@ == k);
        }
        if exists|i: int| 0 <= i < s.len() && s[i].0@ == k {
            let i = choose|i: int| 0 <= i < s.len() && s[i].0@ == k;
            if i < s.len() - 1 {
                assert(s.drop_last()[i].0@ == k);
            }
        }
    }
}

/// With distinct keys, the map holds each entry's value under its key.
proof fn lemma_map_of_at<K: View, V>(s: Seq<(K, V)>, i: int)
    requires
        keys_distinct(s),
        0 <= i < s.len(),
    ensures
        map_of(s).dom().contains(s[i].0@),
        map_of(s)[s[i].0@] == s[i].1,
    decreases s.len(),
{
    if i < s.len() - 1 {
        let t = s.drop_last();
        assert(keys_distinct(t));
        assert(t[i] == s[i]);
        lemma_map_of_at(t, i);
        assert(s[i].0@ != s.last().0@);
    }
}

/// Replacing the value of an existing key updates the map at that key alone.
proof fn lemma_map_of_update<K: View, V>(s: Seq<(K, V)>, i: int, kv: (K, V))
    requires
        keys_distinct(s),
        0 <= i < s.len(),
        kv.0@ == s[i].0@,
    ensures
        keys_distinct(s.update(i, kv)),
        map_of(s.update(i, kv)) == map_of(s).insert(kv.0@, kv.1),
    decreases s.len(),
{
    let u = s.update(i, kv);
    assert(keys_distinct(u)) by {
        assert forall|a: int, b: int| 0 <= a < b < u.len() implies u[a].0@ != u[b].0@ by {
            assert(s[a].0@ != s[b].0@);
        }
    }
    if i == s.len() - 1 {
        assert(u.drop_last() == s.drop_last());
        lemma_map_of_dom(s.drop_last(), kv.0@);
        assert(map_of(u) == map_of(s).insert(kv.0@, kv.1));
    } else {
        let t = s.drop_last();
        assert(keys_distinct(t));
        lemma_map_of_update(t, i, kv);
        assert(u.drop_last() == t.update(i, kv));
        assert(s.last().0@ != kv.0@);
        assert(map_of(u) == map_of(s).insert(kv.0@, kv.1));
    }
}

/// A map from keys to values, held as a list of entries without repeated keys.
pub struct AssocMap<K: View, V> {
    entries: Vec<(K, V)>,
}

impl<K: View, V> View for AssocMap<K, V> {
    type V = Map<K::V, V>;

    closed spec fn view(&self) -> Map<K::V, V> {
        map_of(self.entries@)
    }
}

impl<K: View, V> AssocMap<K, V> {
    #[verifier::type_invariant]
    spec fn well_formed(self) -> bool {
        keys_distinct(self.entries@)
    }
}

impl<K: KeyEq, V> AssocMap<K, V> {
    /// An empty map.
    pub fn new() -> (m: Self)
        ensures
            m@ == Map::<K::V, V>::empty(),
    {
        AssocMap { entries: Vec::new() }
    }

    /// The value held under `k`, if any.
    pub fn get(&self, k: &K) -> (r: Option<&V>)
        ensures
            match r {
                Some(v) => self@.contains_key(k@) && self@[k@] == *v,
                None => !self@.contains_key(k@),
            },
    {
        proof {
            use_type_invariant(self);
        }
        let mut i: usize = 0;
        while i < self.entries.len()
            invariant
                keys_distinct(self.entries@),
                i <= self.entries@.len(),
                forall|j: int| 0 <= j < i ==> self.entries@[j].0@ != k@,
            decreases self.entries@.len() - i,
        {
            if self.entries[i].0.key_eq(k) {
                proof {
                    lemma_map_of_at(self.entries@, i as int);
                }
                return Some(&self.entries[i].1);
            }
            i = i + 1;
        }
        proof {
            lemma_map_of_dom(self.entries@, k@);
        }
        None
    }

    /// Holds `v` under `k`, in place of any value held there before.
    pub fn insert(&mut self, k: K, v: V)
        ensures
            final(self)@ == old(self)@.insert(k@, v),
    {
        proof {
            use_type_invariant(&*self);
        }
        let mut i: usize = 0;
        while i < self.entries.len()
            invariant
                self.entries@ == old(self).entries@,
                keys_distinct(self.entries@),
                i <= self.entries@.len(),
                forall|j: int| 0 <= j < i ==> self.entries@[j].0@ != k@,
            decreases self.entries@.len() - i,
        {
            if self.entries[i].0.key_eq(&k) {
                proof {
                    lemma_map_of_update(self.entries@, i as int, (k, v));
                }
                let mut entries: Vec<(K, V)> = Vec::new();
                std::mem::swap(&mut entries, &mut self.entries);
                entries.set(i, (k, v));
                self.entries = entries;
                return;
            }
            i = i + 1;
        }
        let mut entries: Vec<(K, V)> = Vec::new();
        std::mem::swap(&mut entries, &mut self.entries);
        proof {
            assert(keys_distinct(entries@.push((k, v))));
            assert(entries@.push((k, v)).drop_last() == entries@);
        }
        entries.push((k, v));
        self.entries = entries;
    }
}

} // verus!
