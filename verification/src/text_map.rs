//! A map from text keys to values that can be listed.
use vstd::prelude::*;

use crate::text::same_text;

verus! {

/// A map with text keys. Its entries are kept in the order in which their keys first came in.
pub struct TextMap<T> {
    entries: Vec<(String, T)>,
}

/// The keys and values of `list` are those of `map`, each key once.
pub open spec fn lists<T>(list: Seq<(Seq<char>, T)>, map: Map<Seq<char>, T>) -> bool {
    &&& forall|i: int, j: int|
        #![trigger list[i], list[j]]
        0 <= i < list.len() && 0 <= j < list.len() && i != j ==> list[i].0 != list[j].0
    &&& forall|i: int|
        #![trigger list[i]]
        0 <= i < list.len() ==> map.contains_key(list[i].0) && map[list[i].0] == list[i].1
    &&& forall|key: Seq<char>| #[trigger]
        map.contains_key(key) ==> exists|i: int|
        0 <= i < list.len() && (#[trigger] list[i]).0 == key
}

spec fn key_index<T>(entries: Seq<(String, T)>, key: Seq<char>) -> int {
    choose|i: int| 0 <= i < entries.len() && (#[trigger] entries[i]).0@ == key
}

spec fn has_key<T>(entries: Seq<(String, T)>, key: Seq<char>) -> bool {
    exists|i: int| 0 <= i < entries.len() && (#[trigger] entries[i]).0@ == key
}

spec fn distinct_keys<T>(entries: Seq<(String, T)>) -> bool {
    forall|i: int, j: int|
        #![trigger entries[i], entries[j]]
        0 <= i < entries.len() && 0 <= j < entries.len() && i != j ==> entries[i].0@
            != entries[j].0@
}

impl<T> TextMap<T> {
    #[verifier::type_invariant]
    spec fn distinct(self) -> bool {
        distinct_keys(self.entries@)
    }
}

impl<T: DeepView> TextMap<T> {
    /// The entries in the order in which the map lists them.
    pub closed spec fn listing(self) -> Seq<(Seq<char>, T::V)> {
        self.entries@.map_values(|entry: (String, T)| (entry.0@, entry.1.deep_view()))
    }
}

impl<T: DeepView> DeepView for TextMap<T> {
    type V = Map<Seq<char>, T::V>;

    closed spec fn deep_view(&self) -> Map<Seq<char>, T::V> {
        Map::new(
            |key: Seq<char>| has_key(self.entries@, key),
            |key: Seq<char>| self.entries@[key_index(self.entries@, key)].1.deep_view(),
        )
    }
}

impl<T: DeepView> TextMap<T> {
    /// The map without entries.
    pub fn new() -> (r: Self)
        ensures
            r.deep_view() == Map::<Seq<char>, T::V>::empty(),
            r.listing() == Seq::<(Seq<char>, T::V)>::empty(),
    {
        let r = TextMap { entries: Vec::new() };
        assert(r.deep_view() =~= Map::<Seq<char>, T::V>::empty());
        assert(r.listing() =~= Seq::<(Seq<char>, T::V)>::empty());
        r
    }

    /// The number of entries.
    pub fn len(&self) -> (n: usize)
        ensures
            n == self.listing().len(),
            lists(self.listing(), self.deep_view()),
    {
        proof {
            use_type_invariant(self);
            let e = self.entries@;
            let list = self.listing();
            assert forall|i: int| #![trigger list[i]] 0 <= i < list.len() implies {
                self.deep_view().contains_key(list[i].0) && self.deep_view()[list[i].0] == list[i].1
            } by {
                assert(e[i].0@ == list[i].0);
                let k = key_index(e, list[i].0);
                assert(k == i);
            }
            assert forall|key: Seq<char>| #[trigger]
                self.deep_view().contains_key(key) implies exists|i: int|
                0 <= i < list.len() && (#[trigger] list[i]).0 == key by {
                let k = key_index(e, key);
                assert(list[k].0 == key);
            }
        }
        self.entries.len()
    }

    /// The key of the entry at a position of the listing.
    pub fn key_at(&self, i: usize) -> (key: &String)
        requires
            i < self.listing().len(),
        ensures
            key@ == self.listing()[i as int].0,
    {
        &self.entries[i].0
    }

    /// The value of the entry at a position of the listing.
    pub fn value_at(&self, i: usize) -> (value: &T)
        requires
            i < self.listing().len(),
        ensures
            value.deep_view() == self.listing()[i as int].1,
    {
        &self.entries[i].1
    }

    /// The position of a key in the listing, its length where the key is absent.
    fn position(&self, key: &str) -> (i: usize)
        ensures
            i <= self.entries@.len(),
            i < self.entries@.len() ==> self.entries@[i as int].0@ == key@ && i == key_index(
                self.entries@,
                key@,
            ),
            i < self.entries@.len() <==> has_key(self.entries@, key@),
    {
        proof {
            use_type_invariant(self);
        }
        let mut i: usize = 0;
        while i < self.entries.len()
            invariant
                i <= self.entries@.len(),
                distinct_keys(self.entries@),
                forall|k: int| 0 <= k < i ==> (#[trigger] self.entries@[k]).0@ != key@,
            decreases self.entries@.len() - i,
        {
            if same_text(self.entries[i].0.as_str(), key) {
                return i;
            }
            i += 1;
        }
        i
    }

    /// The value under a key.
    pub fn get(&self, key: &str) -> (r: Option<&T>)
        ensures
            match r {
                Some(value) => self.deep_view().contains_key(key@) && value.deep_view()
                    == self.deep_view()[key@],
                None => !self.deep_view().contains_key(key@),
            },
    {
        let i = self.position(key);
        if i < self.entries.len() {
            Some(&self.entries[i].1)
        } else {
            None
        }
    }

    /// Whether a key has a value.
    pub fn contains_key(&self, key: &str) -> (r: bool)
        ensures
            r == self.deep_view().contains_key(key@),
    {
        self.position(key) < self.entries.len()
    }

    /// Puts a value under a key, in place of the one it had.
    pub fn insert(&mut self, key: String, value: T)
        ensures
            final(self).deep_view() == old(self).deep_view().insert(key@, value.deep_view()),
    {
        proof {
            use_type_invariant(&*self);
        }
        let i = self.position(key.as_str());
        let mut entries: Vec<(String, T)> = Vec::new();
        let ghost before = self.entries@;
        let ghost map = self.deep_view();
        std::mem::swap(&mut entries, &mut self.entries);
        if i < entries.len() {
            entries.set(i, (key, value));
        } else {
            entries.push((key, value));
        }
        assert forall|a: int, b: int|
            #![trigger entries@[a], entries@[b]]
            0 <= a < entries@.len() && 0 <= b < entries@.len() && a != b implies entries@[a].0@
            != entries@[b].0@ by {
            if i < before.len() {
                assert(before[a].0@ == entries@[a].0@);
                assert(before[b].0@ == entries@[b].0@);
            } else {
                if a < before.len() {
                    assert(before[a] == entries@[a]);
                }
                if b < before.len() {
                    assert(before[b] == entries@[b]);
                }
            }
        }
        let ghost after = entries@;
        self.entries = entries;
        proof {
            let new_map = self.deep_view();
            let wanted = map.insert(key@, value.deep_view());
            assert forall|k: Seq<char>| #[trigger] new_map.contains_key(k) == wanted.contains_key(
                k,
            ) by {
                if has_key(before, k) {
                    let p = key_index(before, k);
                    assert(after[p].0@ == k);
                }
                if k == key@ {
                    assert(after[i as int].0@ == k);
                }
                if has_key(after, k) {
                    let p = key_index(after, k);
                    if p < before.len() {
                        assert(before[p].0@ == k);
                    }
                }
            }
            assert forall|k: Seq<char>| #[trigger] new_map.contains_key(k) implies new_map[k]
                == wanted[k] by {
                let p = key_index(after, k);
                if k == key@ {
                    assert(after[i as int].0@ == k);
                    assert(p == i);
                } else {
                    assert(p != i);
                    assert(before[p] == after[p]);
                    assert(has_key(before, k));
                    let q = key_index(before, k);
                    assert(p == q);
                }
            }
            assert(new_map =~= wanted);
        }
    }

    /// Takes out the entry of a key.
    pub fn remove(&mut self, key: &str) -> (r: Option<T>)
        ensures
            final(self).deep_view() == old(self).deep_view().remove(key@),
            match r {
                Some(value) => old(self).deep_view().contains_key(key@) && value.deep_view() == old(
                    self,
                ).deep_view()[key@],
                None => !old(self).deep_view().contains_key(key@),
            },
    {
        proof {
            use_type_invariant(&*self);
        }
        let i = self.position(key);
        let ghost before = self.entries@;
        let ghost map = self.deep_view();
        if i == self.entries.len() {
            assert(map.remove(key@) =~= map);
            return None;
        }
        let mut entries: Vec<(String, T)> = Vec::new();
        std::mem::swap(&mut entries, &mut self.entries);
        let removed = entries.remove(i);
        let ghost after = entries@;
        assert forall|a: int, b: int|
            #![trigger entries@[a], entries@[b]]
            0 <= a < entries@.len() && 0 <= b < entries@.len() && a != b implies entries@[a].0@
            != entries@[b].0@ by {
            let x = if a < i { a } else { a + 1 };
            let y = if b < i { b } else { b + 1 };
            assert(entries@[a] == before[x]);
            assert(entries@[b] == before[y]);
        }
        self.entries = entries;
        proof {
            let new_map = self.deep_view();
            let wanted = map.remove(key@);
            assert forall|k: Seq<char>| #[trigger] new_map.contains_key(k) == wanted.contains_key(
                k,
            ) by {
                if has_key(before, k) && k != key@ {
                    let p = key_index(before, k);
                    let q = if p < i { p } else { p - 1 };
                    assert(after[q] == before[p]);
                }
                if has_key(after, k) {
                    let q = key_index(after, k);
                    let p = if q < i { q } else { q + 1 };
                    assert(after[q] == before[p]);
                }
            }
            assert forall|k: Seq<char>| #[trigger] new_map.contains_key(k) implies new_map[k]
                == wanted[k] by {
                let q = key_index(after, k);
                let p = if q < i { q } else { q + 1 };
                assert(after[q] == before[p]);
                assert(p == key_index(before, k));
            }
            assert(new_map =~= wanted);
        }
        Some(removed.1)
    }
}

} // verus!
