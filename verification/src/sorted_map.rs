//! Maps from strings to values, kept in the order of their keys.

use vstd::prelude::*;

use crate::order::{self, text_le, text_lt};
use crate::text;

verus! {

/// A map whose entries stand in the order of their keys, each key once.
#[derive(Debug)]
pub struct SortedMap<T: DeepView> {
    entries: Vec<(String, T)>,
}

/// Keys in strictly ascending order.
pub open spec fn strictly_ascending(keys: Seq<Seq<char>>) -> bool {
    forall|i: int, j: int|
        0 <= i < j < keys.len() ==> text_lt(#[trigger] keys[i], #[trigger] keys[j])
}

impl<T: DeepView> SortedMap<T> {
    /// The keys, in order.
    pub closed spec fn keys(self) -> Seq<Seq<char>> {
        Seq::new(self.entries@.len(), |i: int| self.entries@[i].0@)
    }

    /// The values, in the order of their keys.
    pub closed spec fn values(self) -> Seq<T::V> {
        Seq::new(self.entries@.len(), |i: int| self.entries@[i].1.deep_view())
    }

    #[verifier::type_invariant]
    spec fn inv(self) -> bool {
        strictly_ascending(self.keys())
    }
}

impl<T: DeepView> View for SortedMap<T> {
    type V = Map<Seq<char>, T::V>;

    open spec fn view(&self) -> Map<Seq<char>, T::V> {
        Map::new(
            |k: Seq<char>| self.keys().contains(k),
            |k: Seq<char>| self.values()[self.keys().index_of(k)],
        )
    }
}

impl<T: DeepView> DeepView for SortedMap<T> {
    type V = Map<Seq<char>, T::V>;

    open spec fn deep_view(&self) -> Map<Seq<char>, T::V> {
        self@
    }
}

pub proof fn lemma_text_lt(a: Seq<char>, b: Seq<char>)
    ensures
        text_lt(a, b) <==> text_le(a, b) && a != b,
{
    order::lemma_text_total(a, b);
}

/// Keys in strictly ascending order do not repeat, and their order is fixed by
/// which keys there are.
pub proof fn lemma_ascending_distinct(keys: Seq<Seq<char>>)
    requires
        strictly_ascending(keys),
    ensures
        keys.no_duplicates(),
{
    assert forall|i: int, j: int| 0 <= i < keys.len() && 0 <= j < keys.len() && i != j implies
        keys[i] != keys[j] by {
        if i < j {
            lemma_text_lt(keys[i], keys[j]);
        } else {
            lemma_text_lt(keys[j], keys[i]);
        }
    }
}

impl<T: DeepView> SortedMap<T> {
    proof fn lemma_at(self, i: int)
        requires
            self.inv(),
            0 <= i < self.keys().len(),
        ensures
            self.values().len() == self.keys().len(),
            self@.dom().contains(self.keys()[i]),
            self@[self.keys()[i]] == self.values()[i],
    {
        lemma_ascending_distinct(self.keys());
        assert(self.keys().contains(self.keys()[i]));
        let k = self.keys().index_of(self.keys()[i]);
        assert(self.keys()[k] == self.keys()[i]);
    }

    /// The empty map.
    pub fn new() -> (r: SortedMap<T>)
        ensures
            r@ == Map::<Seq<char>, T::V>::empty(),
            r.keys() == Seq::<Seq<char>>::empty(),
    {
        let r = SortedMap { entries: Vec::new() };
        assert(r.keys() =~= Seq::<Seq<char>>::empty());
        assert(r@ =~= Map::<Seq<char>, T::V>::empty());
        r
    }

    /// How many entries there are.
    pub fn len(&self) -> (r: usize)
        ensures
            r == self.keys().len(),
            strictly_ascending(self.keys()),
            forall|k: Seq<char>| #[trigger] self@.dom().contains(k) <==> self.keys().contains(k),
    {
        proof {
            use_type_invariant(&*self);
        }
        self.entries.len()
    }

    /// The key of the entry at position `i`.
    pub fn key(&self, i: usize) -> (r: &String)
        requires
            i < self.keys().len(),
        ensures
            r@ == self.keys()[i as int],
            self@.dom().contains(r@),
    {
        proof {
            use_type_invariant(&*self);
            self.lemma_at(i as int);
        }
        &self.entries[i].0
    }

    /// The value of the entry at position `i`.
    pub fn value(&self, i: usize) -> (r: &T)
        requires
            i < self.keys().len(),
        ensures
            r.deep_view() == self@[self.keys()[i as int]],
            self@.dom().contains(self.keys()[i as int]),
    {
        proof {
            use_type_invariant(&*self);
            self.lemma_at(i as int);
        }
        &self.entries[i].1
    }

    fn position(&self, key: &str) -> (r: usize)
        ensures
            r <= self.entries@.len(),
            forall|i: int| 0 <= i < r ==> text_lt(#[trigger] self.keys()[i], key@),
            r < self.entries@.len() ==> text_le(key@, self.keys()[r as int]),
    {
        let mut i: usize = 0;
        while i < self.entries.len() && !order::le(key, self.entries[i].0.as_str())
            invariant
                i <= self.entries@.len(),
                forall|j: int| 0 <= j < i ==> text_lt(#[trigger] self.keys()[j], key@),
            decreases self.entries@.len() - i,
        {
            assert(self.keys()[i as int] == self.entries@[i as int].0@);
            i = i + 1;
        }
        i
    }

    proof fn lemma_absent(self, k: int, key: Seq<char>)
        requires
            self.inv(),
            0 <= k <= self.keys().len(),
            forall|i: int| 0 <= i < k ==> text_lt(#[trigger] self.keys()[i], key),
            k < self.keys().len() ==> text_lt(key, self.keys()[k]),
        ensures
            !self.keys().contains(key),
            forall|i: int| k <= i < self.keys().len() ==> text_lt(key, #[trigger] self.keys()[i]),
    {
        let keys = self.keys();
        assert forall|i: int| k <= i < keys.len() implies text_lt(key, #[trigger] keys[i]) by {
            if i > k {
                lemma_text_lt(key, keys[k]);
                lemma_text_lt(keys[k], keys[i]);
                order::lemma_text_transitive(key, keys[k], keys[i]);
                order::lemma_text_total(key, keys[i]);
                if key == keys[i] {
                    order::lemma_text_total(keys[k], keys[i]);
                }
            }
        }
        assert forall|i: int| 0 <= i < keys.len() implies keys[i] != key by {
            lemma_text_lt(keys[i], key);
            lemma_text_lt(key, keys[i]);
        }
    }

    /// The value under `key`.
    pub fn get(&self, key: &str) -> (r: Option<&T>)
        ensures
            match r {
                Some(v) => self@.dom().contains(key@) && self@[key@] == v.deep_view(),
                None => !self@.dom().contains(key@),
            },
    {
        proof {
            use_type_invariant(&*self);
        }
        let k: usize = self.position(key);
        if k < self.entries.len() && text::eq(self.entries[k].0.as_str(), key) {
            proof {
                self.lemma_at(k as int);
            }
            Some(&self.entries[k].1)
        } else {
            proof {
                if k < self.entries@.len() {
                    lemma_text_lt(key@, self.keys()[k as int]);
                }
                self.lemma_absent(k as int, key@);
            }
            None
        }
    }

    /// Whether there is a value under `key`.
    pub fn contains_key(&self, key: &str) -> (r: bool)
        ensures
            r == self@.dom().contains(key@),
    {
        self.get(key).is_some()
    }

    /// Puts `value` under `key`, in place of what was there.
    pub fn insert(self, key: String, value: T) -> (r: SortedMap<T>)
        ensures
            r@ == self@.insert(key@, value.deep_view()),
    {
        proof {
            use_type_invariant(&self);
        }
        let k: usize = self.position(key.as_str());
        let ghost before = self;
        let found: bool = k < self.entries.len() && text::eq(
            self.entries[k].0.as_str(),
            key.as_str(),
        );
        let mut entries = self.entries;
        if found {
            entries.set(k, (key, value));
            assert(Seq::new(entries@.len(), |i: int| entries@[i].0@) =~= before.keys());
            let r = SortedMap { entries };
            proof {
                before.lemma_at(k as int);
                assert(r.keys() =~= before.keys());
                lemma_ascending_distinct(before.keys());
                assert forall|x: Seq<char>| #[trigger] r@.dom().contains(x) implies r@[x]
                    == before@.insert(key@, value.deep_view())[x] by {
                    let i = before.keys().index_of(x);
                    assert(before.keys()[i] == x);
                    before.lemma_at(i);
                    r.lemma_at(i);
                }
                assert(r@ =~= before@.insert(key@, value.deep_view()));
            }
            r
        } else {
            proof {
                if k < before.entries@.len() {
                    lemma_text_lt(key@, before.keys()[k as int]);
                }
                before.lemma_absent(k as int, key@);
            }
            entries.insert(k, (key, value));
            let ghost keys = Seq::new(entries@.len(), |i: int| entries@[i].0@);
            assert(keys =~= before.keys().insert(k as int, key@));
            assert(strictly_ascending(keys)) by {
                assert forall|i: int, j: int| 0 <= i < j < keys.len() implies text_lt(
                    #[trigger] keys[i],
                    #[trigger] keys[j],
                ) by {
                    if j < k {
                        assert(text_lt(before.keys()[i], before.keys()[j]));
                    } else if i > k {
                        assert(text_lt(before.keys()[i - 1], before.keys()[j - 1]));
                    } else if j == k {
                        assert(text_lt(before.keys()[i], key@));
                    } else if i == k {
                        assert(text_lt(key@, before.keys()[j - 1]));
                    } else {
                        assert(text_lt(before.keys()[i], before.keys()[j - 1]));
                    }
                }
            }
            let r = SortedMap { entries };
            proof {
                assert(r.keys() =~= keys);
                assert forall|x: Seq<char>| #[trigger] r@.dom().contains(x) <==> before@.insert(
                    key@,
                    value.deep_view(),
                ).dom().contains(x) by {
                    if r@.dom().contains(x) {
                        let i = r.keys().index_of(x);
                        assert(r.keys()[i] == x);
                        if i < k {
                            assert(before.keys()[i] == x);
                        } else if i > k {
                            assert(before.keys()[i - 1] == x);
                        }
                    }
                    if before@.dom().contains(x) {
                        let i = before.keys().index_of(x);
                        assert(before.keys()[i] == x);
                        if i < k {
                            assert(r.keys()[i] == x);
                        } else {
                            assert(r.keys()[i + 1] == x);
                        }
                    }
                    assert(r.keys()[k as int] == key@);
                }
                assert forall|x: Seq<char>| #[trigger] r@.dom().contains(x) implies r@[x]
                    == before@.insert(key@, value.deep_view())[x] by {
                    let i = r.keys().index_of(x);
                    assert(r.keys()[i] == x);
                    r.lemma_at(i);
                    if i < k {
                        before.lemma_at(i);
                    } else if i > k {
                        before.lemma_at(i - 1);
                    }
                }
                assert(r@ =~= before@.insert(key@, value.deep_view()));
            }
            r
        }
    }
}

} // verus!
