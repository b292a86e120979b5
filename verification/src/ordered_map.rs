//! A map from strings to values that keeps its keys in the order of strings,
//! so that walking it is deterministic.

use crate::order::{lemma_text_order, str_lt, text_lt};
use vstd::prelude::*;

verus! {

/// Whether each text of `keys` comes strictly before the next.
pub open spec fn ascending(keys: Seq<Seq<char>>) -> bool {
    forall|i: int, j: int| 0 <= i < j < keys.len() ==> text_lt(#[trigger] keys[i], #[trigger] keys[j])
}

/// In an ascending sequence no text occurs twice.
pub proof fn lemma_ascending_distinct(keys: Seq<Seq<char>>, i: int, j: int)
    requires
        ascending(keys),
        0 <= i < keys.len(),
        0 <= j < keys.len(),
        keys[i] == keys[j],
    ensures
        i == j,
{
    lemma_text_order(keys[i], keys[j], keys[i]);
    if i < j {
        assert(text_lt(keys[i], keys[j]));
    } else if j < i {
        assert(text_lt(keys[j], keys[i]));
    }
}

/// The map `map` with each of its strings as a text.
pub open spec fn text_values(map: Map<Seq<char>, String>) -> Map<Seq<char>, Seq<char>> {
    map.map_values(|text: String| text@)
}

/// A map keyed by strings, held in ascending order of its keys.
#[derive(Debug)]
pub struct OrderedMap<V> {
    keys: Vec<String>,
    values: Vec<V>,
}

impl<V> OrderedMap<V> {
    /// Keys and values pair up, and the keys ascend.
    #[verifier::type_invariant]
    pub closed spec fn well_formed(&self) -> bool {
        &&& self.keys.len() == self.values.len()
        &&& ascending(self.keys.deep_view())
    }

    /// The keys, in ascending order.
    pub closed spec fn ordered_keys(&self) -> Seq<Seq<char>> {
        self.keys.deep_view()
    }

    /// The values, in the order of their keys.
    pub closed spec fn ordered_values(&self) -> Seq<V> {
        self.values@
    }

    /// The map: each key with its value.
    pub closed spec fn view(&self) -> Map<Seq<char>, V> {
        Map::new(
            |k: Seq<char>| self.keys.deep_view().contains(k),
            |k: Seq<char>| self.values@[self.keys.deep_view().index_of(k)],
        )
    }

    /// How the ordered keys and values make up the map.
    pub proof fn lemma_entries(&self)
        requires
            self.well_formed(),
        ensures
            ascending(self.ordered_keys()),
            self.ordered_keys().len() == self.ordered_values().len(),
            self@.dom() == self.ordered_keys().to_set(),
            self@.dom().finite(),
            self@.dom().len() == self.ordered_keys().len(),
            forall|i: int|
                0 <= i < self.ordered_keys().len() ==> #[trigger] self@.contains_key(
                    self.ordered_keys()[i],
                ) && self@[self.ordered_keys()[i]] == self.ordered_values()[i],
    {
        let keys = self.keys.deep_view();
        assert(self@.dom() =~= keys.to_set());
        assert forall|i: int| 0 <= i < keys.len() implies #[trigger] self@.contains_key(keys[i])
            && self@[keys[i]] == self.values@[i] by {
            assert(keys.contains(keys[i]));
            lemma_ascending_distinct(keys, i, keys.index_of(keys[i]));
        }
        assert(keys.no_duplicates()) by {
            assert forall|i: int, j: int| 0 <= i < keys.len() && 0 <= j < keys.len() && i != j implies keys[i] != keys[j] by {
                if keys[i] == keys[j] {
                    lemma_ascending_distinct(keys, i, j);
                }
            }
        }
        keys.unique_seq_to_set();
    }

    /// The empty map.
    pub fn new() -> (r: Self)
        ensures
            r@ == Map::<Seq<char>, V>::empty(),
            r.ordered_keys() == Seq::<Seq<char>>::empty(),
    {
        let r = OrderedMap { keys: Vec::new(), values: Vec::new() };
        assert(r@ =~= Map::<Seq<char>, V>::empty());
        assert(r.ordered_keys() =~= Seq::<Seq<char>>::empty());
        r
    }

    /// The number of keys.
    pub fn len(&self) -> (r: usize)
        ensures
            r == self.ordered_keys().len(),
            r == self@.dom().len(),
    {
        proof {
            use_type_invariant(self);
            self.lemma_entries();
        }
        self.keys.len()
    }

    /// Whether the map holds nothing.
    pub fn is_empty(&self) -> (r: bool)
        ensures
            r == (self.ordered_keys().len() == 0),
            r == (self@ == Map::<Seq<char>, V>::empty()),
    {
        proof {
            use_type_invariant(self);
            self.lemma_entries();
            if self.keys.len() == 0 {
                assert(self@ =~= Map::<Seq<char>, V>::empty());
            } else {
                assert(self@.contains_key(self.ordered_keys()[0]));
            }
        }
        self.keys.len() == 0
    }

    /// The place of the first key that does not come before `key`, and
    /// whether that key is `key`.
    fn search(&self, key: &str) -> (r: (usize, bool))
        ensures
            r.0 <= self.keys.len(),
            forall|i: int| 0 <= i < r.0 ==> text_lt(#[trigger] self.keys.deep_view()[i], key@),
            forall|i: int|
                r.0 + (if r.1 { 1int } else { 0 }) <= i < self.keys.len() ==> text_lt(
                    key@,
                    #[trigger] self.keys.deep_view()[i],
                ),
            r.1 ==> r.0 < self.keys.len() && self.keys.deep_view()[r.0 as int] == key@,
            r.1 == self.keys.deep_view().contains(key@),
    {
        proof {
            use_type_invariant(self);
        }
        let ghost keys = self.keys.deep_view();
        let mut low: usize = 0;
        let mut high: usize = self.keys.len();
        while low < high
            invariant
                low <= high <= self.keys.len(),
                keys == self.keys.deep_view(),
                ascending(keys),
                forall|i: int| 0 <= i < low ==> text_lt(#[trigger] keys[i], key@),
                forall|i: int| high <= i < keys.len() ==> !text_lt(#[trigger] keys[i], key@),
            decreases high - low,
        {
            let mid = low + (high - low) / 2;
            if str_lt(self.keys[mid].as_str(), key) {
                assert forall|i: int| 0 <= i < mid + 1 implies text_lt(#[trigger] keys[i], key@) by {
                    if i < mid {
                        lemma_text_order(keys[i], keys[mid as int], key@);
                    }
                }
                low = mid + 1;
            } else {
                assert forall|i: int| mid <= i < keys.len() implies !text_lt(
                    #[trigger] keys[i],
                    key@,
                ) by {
                    if i > mid {
                        lemma_text_order(keys[mid as int], keys[i], key@);
                    }
                }
                high = mid;
            }
        }
        let found = low < self.keys.len() && !str_lt(key, self.keys[low].as_str());
        proof {
            if found {
                lemma_text_order(keys[low as int], key@, key@);
            }
            assert forall|i: int| low + (if found { 1int } else { 0 }) <= i < keys.len() implies text_lt(
                key@,
                #[trigger] keys[i],
            ) by {
                lemma_text_order(key@, keys[i], key@);
                if found {
                    assert(text_lt(keys[low as int], keys[i]));
                } else if i > low {
                    lemma_text_order(key@, keys[low as int], keys[i]);
                }
            }
            if keys.contains(key@) {
                let i = keys.index_of(key@);
                lemma_text_order(key@, key@, key@);
                assert(i == low);
            }
        }
        (low, found)
    }

    /// Empties the map and hands out what it held.
    fn take_entries(&mut self) -> (r: (Vec<String>, Vec<V>))
        ensures
            r.0 == old(self).keys,
            r.1 == old(self).values,
            final(self).keys@.len() == 0,
            final(self).values@.len() == 0,
    {
        let mut taken = OrderedMap { keys: Vec::new(), values: Vec::new() };
        core::mem::swap(self, &mut taken);
        let OrderedMap { keys, values } = taken;
        (keys, values)
    }

    /// Whether `key` has a value.
    pub fn contains_key(&self, key: &str) -> (r: bool)
        ensures
            r == self@.contains_key(key@),
    {
        self.search(key).1
    }

    /// The value of `key`, if it has one.
    pub fn get(&self, key: &str) -> (r: Option<&V>)
        ensures
            match r {
                Some(value) => self@.contains_key(key@) && *value == self@[key@],
                None => !self@.contains_key(key@),
            },
    {
        let (at, found) = self.search(key);
        if found {
            proof {
                use_type_invariant(self);
                self.lemma_entries();
                assert(self@.contains_key(self.ordered_keys()[at as int]));
            }
            Some(&self.values[at])
        } else {
            None
        }
    }

    /// Gives `key` the value `value`, and returns the value it had.
    pub fn insert(&mut self, key: String, value: V) -> (r: Option<V>)
        ensures
            final(self)@ == old(self)@.insert(key@, value),
            r == if old(self)@.contains_key(key@) {
                Some(old(self)@[key@])
            } else {
                None
            },
    {
        proof {
            use_type_invariant(&*self);
            self.lemma_entries();
        }
        let ghost before = *self;
        let ghost keys = self.keys.deep_view();
        let (at, found) = self.search(key.as_str());
        if found {
            assert(before@.contains_key(before.ordered_keys()[at as int]));
            let (keys_now, mut values_now) = self.take_entries();
            // The new value goes last, and from there into the place of the old one.
            values_now.push(value);
            let previous = values_now.swap_remove(at);
            *self = OrderedMap { keys: keys_now, values: values_now };
            proof {
                assert(self.values@ =~= before.values@.update(at as int, value));
                self.lemma_entries();
                before.lemma_entries();
                assert forall|k: Seq<char>| #[trigger] self@.contains_key(k) implies self@[k]
                    == before@.insert(key@, value)[k] by {
                    let i = keys.index_of(k);
                    assert(self@.contains_key(self.ordered_keys()[i]));
                    assert(before@.contains_key(before.ordered_keys()[i]));
                }
                assert(self@ =~= before@.insert(key@, value));
            }
            Some(previous)
        } else {
            let ghost text = key@;
            let (mut keys_now, mut values_now) = self.take_entries();
            keys_now.insert(at, key);
            values_now.insert(at, value);
            proof {
                let after = keys_now.deep_view();
                assert(after =~= keys.insert(at as int, text));
                assert forall|i: int, j: int| 0 <= i < j < after.len() implies text_lt(
                    #[trigger] after[i],
                    #[trigger] after[j],
                ) by {
                    if i < at && j > at {
                        assert(after[i] == keys[i]);
                        assert(after[j] == keys[j - 1]);
                    }
                }
            }
            *self = OrderedMap { keys: keys_now, values: values_now };
            proof {
                let after = self.keys.deep_view();
                self.lemma_entries();
                before.lemma_entries();
                assert forall|k: Seq<char>| #[trigger] self@.contains_key(k) implies before@.insert(
                    text,
                    value,
                ).contains_key(k) && self@[k] == before@.insert(text, value)[k] by {
                    let i = after.index_of(k);
                    assert(self@.contains_key(self.ordered_keys()[i]));
                    if i < at {
                        assert(before@.contains_key(before.ordered_keys()[i]));
                    } else if i > at {
                        assert(before@.contains_key(before.ordered_keys()[i - 1]));
                    }
                }
                assert forall|k: Seq<char>| #[trigger] before@.insert(text, value).contains_key(
                    k,
                ) implies self@.contains_key(k) by {
                    if k == text {
                        assert(after[at as int] == k);
                    } else {
                        let i = keys.index_of(k);
                        if i < at {
                            assert(after[i] == k);
                        } else {
                            assert(after[i + 1] == k);
                        }
                    }
                }
                assert(self@ =~= before@.insert(text, value));
            }
            None
        }
    }

    /// Takes `key` and its value out of the map, and returns the value.
    pub fn remove(&mut self, key: &str) -> (r: Option<V>)
        ensures
            final(self)@ == old(self)@.remove(key@),
            r == if old(self)@.contains_key(key@) {
                Some(old(self)@[key@])
            } else {
                None
            },
    {
        proof {
            use_type_invariant(&*self);
            self.lemma_entries();
        }
        let ghost before = *self;
        let ghost keys = self.keys.deep_view();
        let (at, found) = self.search(key);
        if found {
            assert(before@.contains_key(before.ordered_keys()[at as int]));
            let (mut keys_now, mut values_now) = self.take_entries();
            keys_now.remove(at);
            let previous = values_now.remove(at);
            proof {
                let after = keys_now.deep_view();
                assert(after =~= keys.remove(at as int));
                assert forall|i: int, j: int| 0 <= i < j < after.len() implies text_lt(
                    #[trigger] after[i],
                    #[trigger] after[j],
                ) by {
                    let (a, b) = (if i < at { i } else { i + 1 }, if j < at { j } else { j + 1 });
                    assert(after[i] == keys[a]);
                    assert(after[j] == keys[b]);
                }
            }
            *self = OrderedMap { keys: keys_now, values: values_now };
            proof {
                let after = self.keys.deep_view();
                self.lemma_entries();
                before.lemma_entries();
                assert forall|k: Seq<char>| #[trigger] self@.contains_key(k) implies before@.remove(
                    key@,
                ).contains_key(k) && self@[k] == before@.remove(key@)[k] by {
                    let i = after.index_of(k);
                    let a = if i < at { i } else { i + 1 };
                    assert(self@.contains_key(self.ordered_keys()[i]));
                    assert(before@.contains_key(before.ordered_keys()[a]));
                    if k == key@ {
                        lemma_ascending_distinct(keys, a, at as int);
                    }
                }
                assert forall|k: Seq<char>| #[trigger] before@.remove(key@).contains_key(
                    k,
                ) implies self@.contains_key(k) by {
                    let i = keys.index_of(k);
                    if i < at {
                        assert(after[i] == k);
                    } else {
                        assert(after[i - 1] == k);
                    }
                }
                assert(self@ =~= before@.remove(key@));
            }
            Some(previous)
        } else {
            assert(self@ =~= before@.remove(key@));
            None
        }
    }

    /// The key at place `at` of the ascending order.
    pub fn key_at(&self, at: usize) -> (r: &str)
        requires
            at < self.ordered_keys().len(),
        ensures
            r@ == self.ordered_keys()[at as int],
            self@.contains_key(r@),
    {
        proof {
            use_type_invariant(self);
            self.lemma_entries();
            assert(self@.contains_key(self.ordered_keys()[at as int]));
        }
        self.keys[at].as_str()
    }

    /// The value of the key at place `at` of the ascending order.
    pub fn value_at(&self, at: usize) -> (r: &V)
        requires
            at < self.ordered_keys().len(),
        ensures
            *r == self.ordered_values()[at as int],
            *r == self@[self.ordered_keys()[at as int]],
    {
        proof {
            use_type_invariant(self);
            self.lemma_entries();
            assert(self@.contains_key(self.ordered_keys()[at as int]));
        }
        &self.values[at]
    }

    /// The keys, in ascending order.
    pub fn keys(&self) -> (r: Vec<String>)
        ensures
            r.deep_view() == self.ordered_keys(),
            ascending(r.deep_view()),
            r.deep_view().to_set() == self@.dom(),
    {
        proof {
            use_type_invariant(self);
            self.lemma_entries();
        }
        let mut names: Vec<String> = Vec::new();
        let mut i: usize = 0;
        while i < self.keys.len()
            invariant
                i <= self.keys.len(),
                names.len() == i,
                forall|j: int| 0 <= j < i ==> names@[j]@ == self.keys@[j]@,
            decreases self.keys.len() - i,
        {
            names.push(self.keys[i].clone());
            i += 1;
        }
        assert(names.deep_view() =~= self.keys.deep_view());
        names
    }
}

impl<V: Clone> Clone for OrderedMap<V> {
    /// A map with the same keys, each with a clone of its value.
    fn clone(&self) -> (r: Self)
        ensures
            r.ordered_keys() == self.ordered_keys(),
            r.ordered_values().len() == self.ordered_values().len(),
            forall|i: int|
                0 <= i < self.ordered_values().len() ==> cloned(
                    #[trigger] self.ordered_values()[i],
                    r.ordered_values()[i],
                ),
    {
        proof {
            use_type_invariant(self);
        }
        let keys = self.keys();
        let mut values: Vec<V> = Vec::new();
        let mut i: usize = 0;
        while i < self.values.len()
            invariant
                i <= self.values.len(),
                values.len() == i,
                forall|j: int| 0 <= j < i ==> cloned(#[trigger] self.values@[j], values@[j]),
            decreases self.values.len() - i,
        {
            values.push(self.values[i].clone());
            i += 1;
        }
        OrderedMap { keys, values }
    }
}

} // verus!
