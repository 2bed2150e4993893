//! Maps and sets keyed by [`Key`], kept as vectors without duplicate keys.
use vstd::prelude::*;

use crate::model::{key_eq, Key, KeyView};

verus! {

/// A map from keys to values; a key occurs at most once.
pub struct KeyMap<V> {
    entries: Vec<(Key, V)>,
}

/// No two entries of `s` have the same key.
pub open spec fn distinct_entry_keys<V>(s: Seq<(Key, V)>) -> bool {
    forall|i: int, j: int| 0 <= i < s.len() && 0 <= j < s.len() && i != j ==> s[i].0@ != s[j].0@
}

/// Some entry of `s` has the key `k`.
pub open spec fn has_entry_key<V>(s: Seq<(Key, V)>, k: KeyView) -> bool {
    exists|i: int| 0 <= i < s.len() && s[i].0@ == k
}

pub open spec fn entry_index<V>(s: Seq<(Key, V)>, k: KeyView) -> int {
    choose|i: int| 0 <= i < s.len() && s[i].0@ == k
}

impl<V: View> KeyMap<V> {
    pub closed spec fn entries_view(&self) -> Seq<(Key, V)> {
        self.entries@
    }

    /// The map that the entries denote.
    pub closed spec fn map_view(&self) -> Map<KeyView, V::V> {
        Map::new(
            |k: KeyView| has_entry_key(self.entries@, k),
            |k: KeyView| self.entries@[entry_index(self.entries@, k)].1@,
        )
    }

    pub closed spec fn wf(&self) -> bool {
        distinct_entry_keys(self.entries@)
    }

    /// The value stored under `k` itself (the map view keeps its view only).
    pub closed spec fn stored(&self, k: KeyView) -> V {
        self.entries@[entry_index(self.entries@, k)].1
    }

    proof fn lemma_at(&self, i: int)
        requires
            self.wf(),
            0 <= i < self.entries_view().len(),
        ensures
            self.map_view().dom().contains(self.entries_view()[i].0@),
            self.map_view()[self.entries_view()[i].0@] == self.entries_view()[i].1@,
    {
        let k = self.entries@[i].0@;
        assert(has_entry_key(self.entries@, k));
        let j = entry_index(self.entries@, k);
        assert(j == i);
    }

    /// The empty map.
    pub fn new() -> (r: Self)
        ensures
            r.wf(),
            r.map_view() == Map::<KeyView, V::V>::empty(),
    {
        let r = KeyMap { entries: Vec::new() };
        assert(r.map_view() =~= Map::<KeyView, V::V>::empty());
        r
    }

    /// The number of entries.
    pub fn len(&self) -> (r: usize)
        requires
            self.wf(),
        ensures
            r == self.map_view().dom().len(),
    {
        proof {
            self.lemma_dom_len();
        }
        self.entries.len()
    }

    pub proof fn lemma_dom_len(&self)
        requires
            self.wf(),
        ensures
            self.map_view().dom().finite(),
            self.map_view().dom().len() == self.entries_view().len(),
    {
        let s = self.entries@;
        let ks = s.map_values(|e: (Key, V)| e.0@);
        assert forall|i: int, j: int| 0 <= i < ks.len() && 0 <= j < ks.len() && i != j implies ks[i]
            != ks[j] by {}
        assert(ks.no_duplicates());
        assert(self.map_view().dom() =~= ks.to_set()) by {
            assert forall|k: KeyView| self.map_view().dom().contains(k) implies ks.to_set().contains(k) by {
                let i = choose|i: int| 0 <= i < s.len() && s[i].0@ == k;
                assert(ks[i] == k);
            }
            assert forall|k: KeyView| ks.to_set().contains(k) implies self.map_view().dom().contains(k) by {
                let i = choose|i: int| 0 <= i < ks.len() && ks[i] == k;
                assert(s[i].0@ == k);
            }
        }
        ks.unique_seq_to_set();
    }

    /// The position of the entry with key `k`, if any.
    pub fn find(&self, k: &Key) -> (r: Option<usize>)
        requires
            self.wf(),
        ensures
            r is None <==> !self.map_view().dom().contains(k@),
            r matches Some(i) ==> i < self.entries_view().len() && self.entries_view()[i as int].0@ == k@,
    {
        let mut i: usize = 0;
        while i < self.entries.len()
            invariant
                i <= self.entries@.len(),
                forall|j: int| 0 <= j < i ==> self.entries@[j].0@ != k@,
            decreases self.entries@.len() - i,
        {
            if key_eq(&self.entries[i].0, k) {
                return Some(i);
            }
            i = i + 1;
        }
        None
    }

    /// The value stored under `k`, if any.
    pub fn get(&self, k: &Key) -> (r: Option<&V>)
        requires
            self.wf(),
        ensures
            r is Some <==> self.map_view().dom().contains(k@),
            r matches Some(v) ==> v@ == self.map_view()[k@],
    {
        match self.find(k) {
            Some(i) => {
                proof {
                    self.lemma_at(i as int);
                }
                Some(&self.entries[i].1)
            },
            None => None,
        }
    }

    /// Whether some value is stored under `k`.
    pub fn contains_key(&self, k: &Key) -> (r: bool)
        requires
            self.wf(),
        ensures
            r == self.map_view().dom().contains(k@),
    {
        self.find(k).is_some()
    }

    /// The key of the entry at position `i`.
    pub fn key_at(&self, i: usize) -> (r: &Key)
        requires
            self.wf(),
            i < self.entries_view().len(),
        ensures
            r@ == self.entries_view()[i as int].0@,
            self.map_view().dom().contains(r@),
    {
        proof {
            self.lemma_at(i as int);
        }
        &self.entries[i].0
    }

    /// The value of the entry at position `i`.
    pub fn value_at(&self, i: usize) -> (r: &V)
        requires
            self.wf(),
            i < self.entries_view().len(),
        ensures
            r@ == self.map_view()[self.entries_view()[i as int].0@],
    {
        proof {
            self.lemma_at(i as int);
        }
        &self.entries[i].1
    }

    /// The number of entries, as positions go.
    pub fn size(&self) -> (r: usize)
        ensures
            r == self.entries_view().len(),
    {
        self.entries.len()
    }

    /// The key of every position is a key of the map, with the value there.
    pub proof fn lemma_position_key(&self, j: int)
        requires
            self.wf(),
            0 <= j < self.entries_view().len(),
        ensures
            self.map_view().dom().contains(self.entries_view()[j].0@),
            self.map_view()[self.entries_view()[j].0@] == self.entries_view()[j].1@,
    {
        self.lemma_at(j);
    }

    /// Every key of the map is the key of some position.
    pub proof fn lemma_key_has_position(&self, k: KeyView)
        requires
            self.wf(),
            self.map_view().dom().contains(k),
        ensures
            exists|i: int| 0 <= i < self.entries_view().len() && self.entries_view()[i].0@ == k,
    {
        let i = choose|i: int| 0 <= i < self.entries@.len() && self.entries@[i].0@ == k;
        assert(self.entries_view()[i].0@ == k);
    }

    /// Replaces the value at position `i`.
    pub fn set_value_at(&mut self, i: usize, v: V)
        requires
            old(self).wf(),
            i < old(self).entries_view().len(),
        ensures
            final(self).wf(),
            final(self).entries_view().len() == old(self).entries_view().len(),
            forall|j: int|
                0 <= j < old(self).entries_view().len() ==> #[trigger] final(self).entries_view()[j].0@
                    == old(self).entries_view()[j].0@,
            final(self).map_view() == old(self).map_view().insert(old(self).entries_view()[i as int].0@, v@),
            final(self).stored(old(self).entries_view()[i as int].0@) == v,
    {
        let ghost old_self = *self;
        let ghost k = self.entries@[i as int].0@;
        let key = self.entries[i].0.copy();
        self.entries.set(i, (key, v));
        proof {
            assert forall|a: int, b: int|
                0 <= a < self.entries@.len() && 0 <= b < self.entries@.len() && a != b implies self.entries@[a].0@
                != self.entries@[b].0@ by {
                assert(self.entries@[a].0@ == old_self.entries@[a].0@);
                assert(self.entries@[b].0@ == old_self.entries@[b].0@);
            }
            let m = old_self.map_view().insert(k, v@);
            assert forall|x: KeyView| #[trigger] self.map_view().dom().contains(x) == m.dom().contains(x) by {
                if has_entry_key(self.entries@, x) {
                    let j = choose|j: int| 0 <= j < self.entries@.len() && self.entries@[j].0@ == x;
                    assert(old_self.entries@[j].0@ == x);
                }
                if has_entry_key(old_self.entries@, x) {
                    let j = choose|j: int| 0 <= j < old_self.entries@.len() && old_self.entries@[j].0@ == x;
                    assert(self.entries@[j].0@ == x);
                }
            }
            assert forall|x: KeyView| self.map_view().dom().contains(x) implies self.map_view()[x]
                == m[x] by {
                let j = choose|j: int| 0 <= j < self.entries@.len() && self.entries@[j].0@ == x;
                self.lemma_at(j);
                if j != i {
                    old_self.lemma_at(j);
                }
            }
            assert(self.map_view() =~= m);
            assert(self.entries@[i as int].0@ == k);
            assert(has_entry_key(self.entries@, k));
            let j = entry_index(self.entries@, k);
            assert(self.entries@[j].0@ == k);
            assert(j == i);
        }
    }

    /// Puts `v` at position `i` and returns the value that was there.
    pub fn swap_value_at(&mut self, i: usize, v: V) -> (r: V)
        requires
            old(self).wf(),
            i < old(self).entries_view().len(),
        ensures
            final(self).wf(),
            final(self).entries_view().len() == old(self).entries_view().len(),
            forall|j: int|
                0 <= j < old(self).entries_view().len() ==> #[trigger] final(self).entries_view()[j].0@
                    == old(self).entries_view()[j].0@,
            r@ == old(self).map_view()[old(self).entries_view()[i as int].0@],
            final(self).map_view() == old(self).map_view().insert(old(self).entries_view()[i as int].0@, v@),
    {
        proof {
            self.lemma_at(i as int);
        }
        let (key, old_v) = self.entries.remove(i);
        let ghost mid = self.entries@;
        self.entries.insert(i, (key, v));
        let ghost e = self.entries@;
        proof {
            let ghost o = old(self).entries@;
            assert forall|j: int| 0 <= j < o.len() && j != i implies e[j] == o[j] by {
                if j < i {
                    assert(mid[j] == o[j]);
                } else {
                    assert(mid[j - 1] == o[j]);
                }
            }
        }
        let ghost swapped = *self;
        proof {
            let ghost o = old(self).entries@;
            assert forall|a: int, b: int|
                0 <= a < e.len() && 0 <= b < e.len() && a != b implies e[a].0@ != e[b].0@ by {
                assert(e[a].0@ == o[a].0@);
                assert(e[b].0@ == o[b].0@);
            }
            let m = old(self).map_view().insert(o[i as int].0@, v@);
            assert forall|x: KeyView| #[trigger] swapped.map_view().dom().contains(x) == m.dom().contains(x) by {
                if has_entry_key(e, x) {
                    let j = choose|j: int| 0 <= j < e.len() && e[j].0@ == x;
                    assert(o[j].0@ == x);
                }
                if has_entry_key(o, x) {
                    let j = choose|j: int| 0 <= j < o.len() && o[j].0@ == x;
                    assert(e[j].0@ == x);
                }
            }
            assert forall|x: KeyView| swapped.map_view().dom().contains(x) implies swapped.map_view()[x]
                == m[x] by {
                let j = choose|j: int| 0 <= j < e.len() && e[j].0@ == x;
                swapped.lemma_at(j);
                if j != i {
                    old(self).lemma_at(j);
                }
            }
            assert(swapped.map_view() =~= m);
        }
        old_v
    }

    /// Stores `v` under `k`, replacing any value stored there.
    pub fn insert(&mut self, k: Key, v: V)
        requires
            old(self).wf(),
        ensures
            final(self).wf(),
            final(self).map_view() == old(self).map_view().insert(k@, v@),
    {
        match self.find(&k) {
            Some(i) => {
                self.set_value_at(i, v);
            },
            None => {
                let ghost old_self = *self;
                let ghost kv = k@;
                let ghost vv = v@;
                self.entries.push((k, v));
                proof {
                    let n = old_self.entries@.len() as int;
                    assert forall|a: int, b: int|
                        0 <= a < self.entries@.len() && 0 <= b < self.entries@.len() && a
                            != b implies self.entries@[a].0@ != self.entries@[b].0@ by {
                        if a == n {
                            assert(old_self.entries@[b].0@ == self.entries@[b].0@);
                        } else if b == n {
                            assert(old_self.entries@[a].0@ == self.entries@[a].0@);
                        } else {
                            assert(old_self.entries@[a] == self.entries@[a]);
                            assert(old_self.entries@[b] == self.entries@[b]);
                        }
                    }
                    let m = old_self.map_view().insert(kv, vv);
                    assert forall|x: KeyView| #[trigger] self.map_view().dom().contains(x)
                        == m.dom().contains(x) by {
                        if has_entry_key(self.entries@, x) {
                            let j = choose|j: int|
                                0 <= j < self.entries@.len() && self.entries@[j].0@ == x;
                            if j < n {
                                assert(old_self.entries@[j] == self.entries@[j]);
                            }
                        }
                        if has_entry_key(old_self.entries@, x) {
                            let j = choose|j: int|
                                0 <= j < old_self.entries@.len() && old_self.entries@[j].0@ == x;
                            assert(self.entries@[j] == old_self.entries@[j]);
                        }
                        if x == kv {
                            assert(self.entries@[n].0@ == kv);
                        }
                    }
                    assert forall|x: KeyView| self.map_view().dom().contains(x) implies self.map_view()[x]
                        == m[x] by {
                        let j = choose|j: int|
                            0 <= j < self.entries@.len() && self.entries@[j].0@ == x;
                        self.lemma_at(j);
                        if j < n {
                            assert(old_self.entries@[j] == self.entries@[j]);
                            old_self.lemma_at(j);
                        }
                    }
                    assert(self.map_view() =~= m);
                }
            },
        }
    }

    /// Removes what is stored under `k`, returning it.
    pub fn remove(&mut self, k: &Key) -> (r: Option<V>)
        requires
            old(self).wf(),
        ensures
            final(self).wf(),
            final(self).map_view() == old(self).map_view().remove(k@),
            r is Some <==> old(self).map_view().dom().contains(k@),
            r matches Some(v) ==> v@ == old(self).map_view()[k@],
    {
        match self.find(k) {
            Some(i) => {
                let ghost old_self = *self;
                proof {
                    old_self.lemma_at(i as int);
                }
                let (_, v) = self.entries.remove(i);
                proof {
                    let s = old_self.entries@;
                    let t = self.entries@;
                    assert(t =~= s.remove(i as int));
                    assert forall|a: int, b: int|
                        0 <= a < t.len() && 0 <= b < t.len() && a != b implies t[a].0@ != t[b].0@ by {
                        let a2 = if a < i { a } else { a + 1 };
                        let b2 = if b < i { b } else { b + 1 };
                        assert(t[a] == s[a2]);
                        assert(t[b] == s[b2]);
                    }
                    let m = old_self.map_view().remove(k@);
                    assert forall|x: KeyView| #[trigger] self.map_view().dom().contains(x)
                        == m.dom().contains(x) by {
                        if has_entry_key(t, x) {
                            let j = choose|j: int| 0 <= j < t.len() && t[j].0@ == x;
                            let j2 = if j < i { j } else { j + 1 };
                            assert(t[j] == s[j2]);
                        }
                        if has_entry_key(s, x) && x != k@ {
                            let j = choose|j: int| 0 <= j < s.len() && s[j].0@ == x;
                            assert(j != i);
                            let j2 = if j < i { j } else { j - 1 };
                            assert(t[j2] == s[j]);
                        }
                    }
                    assert forall|x: KeyView| self.map_view().dom().contains(x) implies self.map_view()[x]
                        == m[x] by {
                        let j = choose|j: int| 0 <= j < t.len() && t[j].0@ == x;
                        self.lemma_at(j);
                        let j2 = if j < i { j } else { j + 1 };
                        assert(t[j] == s[j2]);
                        old_self.lemma_at(j2);
                    }
                    assert(self.map_view() =~= m);
                }
                Some(v)
            },
            None => {
                assert(self.map_view() =~= self.map_view().remove(k@));
                None
            },
        }
    }
}

/// The set of keys in a sequence.
pub open spec fn key_set(s: Seq<Key>) -> Set<KeyView> {
    Set::new(|k: KeyView| exists|i: int| 0 <= i < s.len() && s[i]@ == k)
}

/// No key occurs twice in `s`.
pub open spec fn distinct_keys(s: Seq<Key>) -> bool {
    forall|i: int, j: int| 0 <= i < s.len() && 0 <= j < s.len() && i != j ==> s[i]@ != s[j]@
}

/// The position of `k` in `v`, if it occurs there.
pub fn position_of_key(v: &Vec<Key>, k: &Key) -> (r: Option<usize>)
    ensures
        r is None <==> !key_set(v@).contains(k@),
        r matches Some(i) ==> i < v@.len() && v@[i as int]@ == k@,
{
    let mut i: usize = 0;
    while i < v.len()
        invariant
            i <= v@.len(),
            forall|j: int| 0 <= j < i ==> v@[j]@ != k@,
        decreases v@.len() - i,
    {
        if key_eq(&v[i], k) {
            return Some(i);
        }
        i = i + 1;
    }
    None
}

/// Adds `k` to the keys of `v` unless it occurs there already.
pub fn add_key(v: &mut Vec<Key>, k: Key)
    requires
        distinct_keys(old(v)@),
    ensures
        distinct_keys(final(v)@),
        key_set(final(v)@) == key_set(old(v)@).insert(k@),
{
    let ghost s = v@;
    if position_of_key(v, &k).is_none() {
        v.push(k);
        proof {
            let t = v@;
            assert forall|a: int, b: int|
                0 <= a < t.len() && 0 <= b < t.len() && a != b implies t[a]@ != t[b]@ by {
                if a < s.len() && b < s.len() {
                    assert(t[a] == s[a]);
                    assert(t[b] == s[b]);
                } else if a < s.len() {
                    assert(t[a] == s[a]);
                    assert(key_set(s).contains(s[a]@));
                } else {
                    assert(t[b] == s[b]);
                    assert(key_set(s).contains(s[b]@));
                }
            }
            assert forall|x: KeyView| #[trigger] key_set(t).contains(x) == key_set(s).insert(k@).contains(x) by {
                if key_set(t).contains(x) {
                    let j = choose|j: int| 0 <= j < t.len() && t[j]@ == x;
                    if j < s.len() {
                        assert(t[j] == s[j]);
                    }
                }
                if key_set(s).contains(x) {
                    let j = choose|j: int| 0 <= j < s.len() && s[j]@ == x;
                    assert(t[j] == s[j]);
                }
                if x == k@ {
                    assert(t[s.len() as int]@ == x);
                }
            }
            assert(key_set(t) =~= key_set(s).insert(k@));
        }
    } else {
        assert(key_set(s) =~= key_set(s).insert(k@));
    }
}

/// Removes `k` from the keys of `v`.
pub fn drop_key(v: &mut Vec<Key>, k: &Key)
    requires
        distinct_keys(old(v)@),
    ensures
        distinct_keys(final(v)@),
        key_set(final(v)@) == key_set(old(v)@).remove(k@),
{
    let ghost s = v@;
    match position_of_key(v, k) {
        Some(i) => {
            v.remove(i);
            proof {
                let t = v@;
                assert(t =~= s.remove(i as int));
                assert forall|a: int, b: int|
                    0 <= a < t.len() && 0 <= b < t.len() && a != b implies t[a]@ != t[b]@ by {
                    let a2 = if a < i { a } else { a + 1 };
                    let b2 = if b < i { b } else { b + 1 };
                    assert(t[a] == s[a2]);
                    assert(t[b] == s[b2]);
                }
                assert forall|x: KeyView| #[trigger] key_set(t).contains(x) == key_set(s).remove(
                    k@,
                ).contains(x) by {
                    if key_set(t).contains(x) {
                        let j = choose|j: int| 0 <= j < t.len() && t[j]@ == x;
                        let j2 = if j < i { j } else { j + 1 };
                        assert(t[j] == s[j2]);
                    }
                    if key_set(s).contains(x) && x != k@ {
                        let j = choose|j: int| 0 <= j < s.len() && s[j]@ == x;
                        let j2 = if j < i { j } else { j - 1 };
                        assert(t[j2] == s[j]);
                    }
                }
                assert(key_set(t) =~= key_set(s).remove(k@));
            }
        },
        None => {
            assert(key_set(s) =~= key_set(s).remove(k@));
        },
    }
}

} // verus!
