//! A set of texts.
use vstd::prelude::*;

use crate::text::{same_text, starts_with, has_prefix};

verus! {

/// A set of texts.
pub struct TextSet {
    items: Vec<String>,
}

impl DeepView for TextSet {
    type V = Set<Seq<char>>;

    closed spec fn deep_view(&self) -> Set<Seq<char>> {
        Set::new(
            |item: Seq<char>|
                exists|i: int|
                    0 <= i < self.items@.len() && (#[trigger] self.items@[i])@ == item,
        )
    }
}

impl TextSet {
    /// The set without texts.
    pub fn new() -> (r: Self)
        ensures
            r.deep_view() == Set::<Seq<char>>::empty(),
    {
        let r = TextSet { items: Vec::new() };
        assert(r.deep_view() =~= Set::<Seq<char>>::empty());
        r
    }

    /// Whether a text is in the set.
    pub fn contains(&self, item: &str) -> (r: bool)
        ensures
            r == self.deep_view().contains(item@),
    {
        let mut i: usize = 0;
        while i < self.items.len()
            invariant
                i <= self.items@.len(),
                forall|k: int| 0 <= k < i ==> (#[trigger] self.items@[k])@ != item@,
            decreases self.items@.len() - i,
        {
            if same_text(self.items[i].as_str(), item) {
                return true;
            }
            i += 1;
        }
        false
    }

    /// Puts a text in.
    pub fn insert(&mut self, item: String)
        ensures
            final(self).deep_view() == old(self).deep_view().insert(item@),
    {
        if self.contains(item.as_str()) {
            assert(self.deep_view() =~= old(self).deep_view().insert(item@));
            return;
        }
        self.items.push(item);
        proof {
            let before = old(self).items@;
            let after = self.items@;
            assert forall|text: Seq<char>| #[trigger] self.deep_view().contains(text) == old(
                self,
            ).deep_view().insert(item@).contains(text) by {
                if old(self).deep_view().contains(text) {
                    let i = choose|i: int| 0 <= i < before.len() && (#[trigger] before[i])@ == text;
                    assert(after[i]@ == text);
                }
                if text == item@ {
                    assert(after[before.len() as int]@ == text);
                }
                if self.deep_view().contains(text) {
                    let i = choose|i: int| 0 <= i < after.len() && (#[trigger] after[i])@ == text;
                    if i < before.len() {
                        assert(before[i]@ == text);
                    }
                }
            }
            assert(self.deep_view() =~= old(self).deep_view().insert(item@));
        }
    }

    /// Takes a text out.
    pub fn remove(&mut self, item: &str)
        ensures
            final(self).deep_view() == old(self).deep_view().remove(item@),
    {
        let mut kept: Vec<String> = Vec::new();
        let mut i: usize = 0;
        while i < self.items.len()
            invariant
                i <= self.items@.len(),
                forall|k: int|
                    0 <= k < kept@.len() ==> (#[trigger] kept@[k])@ != item@ && exists|j: int|
                        0 <= j < i && (#[trigger] self.items@[j])@ == kept@[k]@,
                forall|j: int|
                    0 <= j < i && (#[trigger] self.items@[j])@ != item@ ==> exists|k: int|
                        0 <= k < kept@.len() && (#[trigger] kept@[k])@ == self.items@[j]@,
            decreases self.items@.len() - i,
        {
            if !same_text(self.items[i].as_str(), item) {
                let ghost before = kept@;
                kept.push(self.items[i].clone());
                assert(kept@[before.len() as int]@ == self.items@[i as int]@);
                assert forall|k: int| 0 <= k < before.len() implies kept@[k] == before[k] by {
                }
            }
            i += 1;
        }
        self.items = kept;
        assert(self.deep_view() =~= old(self).deep_view().remove(item@));
    }

    /// Takes out every text that begins with `prefix`.
    pub fn remove_prefixed(&mut self, prefix: &str)
        ensures
            final(self).deep_view() == old(self).deep_view().filter(
                |item: Seq<char>| !has_prefix(item, prefix@),
            ),
    {
        let mut kept: Vec<String> = Vec::new();
        let mut i: usize = 0;
        while i < self.items.len()
            invariant
                i <= self.items@.len(),
                forall|k: int|
                    0 <= k < kept@.len() ==> !has_prefix((#[trigger] kept@[k])@, prefix@) && exists|
                        j: int,
                    |
                        0 <= j < i && (#[trigger] self.items@[j])@ == kept@[k]@,
                forall|j: int|
                    0 <= j < i && !has_prefix((#[trigger] self.items@[j])@, prefix@) ==> exists|
                        k: int,
                    |
                        0 <= k < kept@.len() && (#[trigger] kept@[k])@ == self.items@[j]@,
            decreases self.items@.len() - i,
        {
            if !starts_with(self.items[i].as_str(), prefix) {
                let ghost before = kept@;
                kept.push(self.items[i].clone());
                assert(kept@[before.len() as int]@ == self.items@[i as int]@);
                assert forall|k: int| 0 <= k < before.len() implies kept@[k] == before[k] by {
                }
            }
            i += 1;
        }
        self.items = kept;
        assert(self.deep_view() =~= old(self).deep_view().filter(
            |item: Seq<char>| !has_prefix(item, prefix@),
        ));
    }
}

} // verus!
