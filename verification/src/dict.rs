//! A small map from names to values, kept in insertion order.
//!
//! Names are compared by their characters. A name occurs at most once, so
//! the number of entries is the size of the map.
use crate::chars::same_text;
use vstd::prelude::*;
use vstd::std_specs::cmp::PartialEqSpecImpl;

verus! {

/// A value that can be stored in a [`Dict`]: it has a mathematical view and
/// an executable test for equality of views.
pub trait Content: View + Sized {
    /// Whether `self` and `other` have the same view.
    fn same(&self, other: &Self) -> (b: bool)
        ensures
            b == (self@ == other@),
    ;
}

impl Content for String {
    fn same(&self, other: &Self) -> (b: bool) {
        *self == *other
    }
}

/// The index of the first entry of `s` named `key`, if there is one.
spec fn position_of<V>(s: Seq<(String, V)>, key: Seq<char>) -> int {
    choose|i: int| 0 <= i < s.len() && #[trigger] s[i].0@ == key
}

/// Whether some entry of `s` is named `key`.
spec fn names<V>(s: Seq<(String, V)>, key: Seq<char>) -> bool {
    exists|i: int| 0 <= i < s.len() && #[trigger] s[i].0@ == key
}

/// Whether no two entries of `s` have the same name.
spec fn distinct_names<V>(s: Seq<(String, V)>) -> bool {
    forall|i: int, j: int|
        0 <= i < j < s.len() ==> #[trigger] s[i].0@ != #[trigger] s[j].0@
}

/// The map that the entries `s` stand for.
spec fn model<V: View>(s: Seq<(String, V)>) -> Map<Seq<char>, V::V> {
    Map::new(|k: Seq<char>| names(s, k), |k: Seq<char>| s[position_of(s, k)].1@)
}

/// Whether the pairs `listing` are the entries of `map`, each once: no
/// name occurs twice, every pair is in the map, and every name of the map
/// is listed.
pub open spec fn lists<T>(listing: Seq<(Seq<char>, T)>, map: Map<Seq<char>, T>) -> bool {
    &&& forall|i: int, j: int|
        0 <= i < j < listing.len() ==> (#[trigger] listing[i]).0 != (#[trigger] listing[j]).0
    &&& forall|i: int|
        0 <= i < listing.len() ==> map.contains_key((#[trigger] listing[i]).0)
            && map[listing[i].0] == listing[i].1
    &&& forall|k: Seq<char>|
        map.contains_key(k) ==> exists|i: int|
            0 <= i < listing.len() && (#[trigger] listing[i]).0 == k
}

/// A map from names to values.
#[derive(Debug)]
pub struct Dict<V> {
    entries: Vec<(String, V)>,
}

impl<V: Content> View for Dict<V> {
    type V = Map<Seq<char>, V::V>;

    closed spec fn view(&self) -> Map<Seq<char>, V::V> {
        model(self.entries@)
    }
}

impl<V> Dict<V> {
    #[verifier::type_invariant]
    spec fn inv(&self) -> bool {
        distinct_names(self.entries@)
    }
}

impl<V: Content> Dict<V> {
    /// The entries of the map, in the order in which their names were first
    /// inserted.
    pub closed spec fn listing(&self) -> Seq<(Seq<char>, V::V)> {
        Seq::new(self.entries@.len(), |i: int| (self.entries@[i].0@, self.entries@[i].1@))
    }

    /// The empty map.
    pub fn new() -> (d: Self)
        ensures
            d@ == Map::<Seq<char>, V::V>::empty(),
    {
        let d = Dict { entries: Vec::new() };
        assert(d@ =~= Map::<Seq<char>, V::V>::empty());
        d
    }

    /// The number of names in the map.
    pub fn len(&self) -> (n: usize)
        ensures
            self@.dom().finite(),
            n == self@.dom().len(),
            n == self.listing().len(),
            lists(self.listing(), self@),
    {
        proof {
            use_type_invariant(self);
            lemma_model_size(self.entries@);
            let listing = self.listing();
            assert forall|i: int| 0 <= i < listing.len() implies self@.contains_key(
                (#[trigger] listing[i]).0,
            ) && self@[listing[i].0] == listing[i].1 by {
                lemma_model_at(self.entries@, i);
            }
            assert forall|k: Seq<char>| self@.contains_key(k) implies exists|i: int|
                0 <= i < listing.len() && (#[trigger] listing[i]).0 == k by {
                let i = position_of(self.entries@, k);
                assert(listing[i].0 == k);
            }
        }
        self.entries.len()
    }

    /// The entry at place `i` of the listing: its name and its value.
    pub fn entry_at(&self, i: usize) -> (e: (&String, &V))
        requires
            i < self.listing().len(),
        ensures
            (e.0@, e.1@) == self.listing()[i as int],
    {
        (&self.entries[i].0, &self.entries[i].1)
    }

    /// The index of the entry named `key`, or the number of entries if
    /// there is none.
    fn find(&self, key: &str) -> (i: usize)
        ensures
            i <= self.entries@.len(),
            i < self.entries@.len() ==> self.entries@[i as int].0@ == key@,
            i == self.entries@.len() ==> !names(self.entries@, key@),
    {
        let mut i: usize = 0;
        while i < self.entries.len()
            invariant
                i <= self.entries@.len(),
                forall|j: int| 0 <= j < i ==> (#[trigger] self.entries@[j]).0@ != key@,
            decreases self.entries@.len() - i,
        {
            if same_text(self.entries[i].0.as_str(), key) {
                return i;
            }
            i += 1;
        }
        i
    }

    /// The value stored under `key`, if there is one.
    pub fn get(&self, key: &str) -> (r: Option<&V>)
        ensures
            match r {
                Some(v) => self@.contains_key(key@) && self@[key@] == v@,
                None => !self@.contains_key(key@),
            },
    {
        let i = self.find(key);
        if i < self.entries.len() {
            proof {
                use_type_invariant(self);
                lemma_model_at(self.entries@, i as int);
            }
            Some(&self.entries[i].1)
        } else {
            None
        }
    }

    /// Whether a value is stored under `key`.
    pub fn contains_key(&self, key: &str) -> (b: bool)
        ensures
            b == self@.contains_key(key@),
    {
        self.get(key).is_some()
    }

    /// Stores `value` under `key`, replacing what was stored there.
    pub fn insert(&mut self, key: String, value: V)
        ensures
            final(self)@ == old(self)@.insert(key@, value@),
    {
        proof {
            use_type_invariant(&*self);
        }
        let i = self.find(key.as_str());
        let ghost before = self.entries@;
        let ghost k = key@;
        let ghost v = value@;
        let mut entries: Vec<(String, V)> = Vec::new();
        core::mem::swap(&mut self.entries, &mut entries);
        if i < entries.len() {
            entries.set(i, (key, value));
        } else {
            entries.push((key, value));
        }
        let ghost after = entries@;
        assert(distinct_names(after));
        core::mem::swap(&mut self.entries, &mut entries);
        proof {
            assert forall|n: Seq<char>| names(after, n) <==> (n == k || names(before, n)) by {
                if names(after, n) {
                    let j = position_of(after, n);
                    if j != i {
                        assert(before[j].0@ == n);
                    }
                }
                if n == k {
                    assert(after[i as int].0@ == n);
                } else if names(before, n) {
                    let j = position_of(before, n);
                    assert(after[j].0@ == n);
                }
            }
            assert forall|n: Seq<char>| names(after, n) implies #[trigger] model(after)[n] == model(
                before,
            ).insert(k, v)[n] by {
                let j = position_of(after, n);
                lemma_model_at(after, j);
                if n != k {
                    assert(before[j] == after[j]);
                    lemma_model_at(before, j);
                }
            }
            assert(model(after) =~= model(before).insert(k, v));
        }
    }

    /// Whether every entry of `self` is in `other` with the same value.
    fn within(&self, other: &Self) -> (b: bool)
        ensures
            b == self@.submap_of(other@),
    {
        proof {
            use_type_invariant(self);
        }
        let mut i: usize = 0;
        while i < self.entries.len()
            invariant
                i <= self.entries@.len(),
                distinct_names(self.entries@),
                forall|j: int|
                    0 <= j < i ==> other@.contains_key((#[trigger] self.entries@[j]).0@)
                        && other@[self.entries@[j].0@] == self.entries@[j].1@,
            decreases self.entries@.len() - i,
        {
            proof {
                lemma_model_at(self.entries@, i as int);
            }
            match other.get(self.entries[i].0.as_str()) {
                Some(v) => {
                    if !self.entries[i].1.same(v) {
                        return false;
                    }
                },
                None => {
                    return false;
                },
            }
            i += 1;
        }
        proof {
            assert forall|n: Seq<char>| self@.contains_key(n) implies other@.contains_key(n)
                && self@[n] == other@[n] by {
                let j = position_of(self.entries@, n);
                lemma_model_at(self.entries@, j);
            }
        }
        true
    }

    /// Whether `self` and `other` hold the same values under the same names.
    pub fn same_entries(&self, other: &Self) -> (b: bool)
        ensures
            b == (self@ == other@),
    {
        let b = self.within(other) && other.within(self);
        proof {
            if b {
                assert(self@ =~= other@);
            }
        }
        b
    }
}

impl<V: Content> PartialEq for Dict<V> {
    /// Two maps are equal when they hold the same values under the same
    /// names, whatever the order in which they were filled.
    fn eq(&self, other: &Self) -> (b: bool) {
        self.same_entries(other)
    }
}

impl<V: Content> PartialEqSpecImpl for Dict<V> {
    open spec fn obeys_eq_spec() -> bool {
        true
    }

    open spec fn eq_spec(&self, other: &Self) -> bool {
        self@ == other@
    }
}

/// An entry of a sequence with distinct names is what the model holds under
/// its name.
proof fn lemma_model_at<V: View>(s: Seq<(String, V)>, i: int)
    requires
        distinct_names(s),
        0 <= i < s.len(),
    ensures
        model(s).contains_key(s[i].0@),
        model(s)[s[i].0@] == s[i].1@,
{
    let k = s[i].0@;
    assert(names(s, k));
    let j = position_of(s, k);
    assert(j == i);
}

/// A sequence with distinct names stands for a finite map with as many
/// names as the sequence has entries.
proof fn lemma_model_size<V: View>(s: Seq<(String, V)>)
    requires
        distinct_names(s),
    ensures
        model(s).dom().finite(),
        model(s).dom().len() == s.len(),
{
    let keys = s.map(|i: int, e: (String, V)| e.0@);
    assert(keys.no_duplicates());
    assert(model(s).dom() =~= keys.to_set()) by {
        assert forall|k: Seq<char>| model(s).dom().contains(k) <==> keys.to_set().contains(k) by {
            if names(s, k) {
                let j = position_of(s, k);
                assert(keys[j] == k);
            }
            if keys.to_set().contains(k) {
                let j = choose|j: int| 0 <= j < keys.len() && keys[j] == k;
                assert(s[j].0@ == k);
            }
        }
    }
    keys.unique_seq_to_set();
    vstd::seq_lib::seq_to_set_is_finite(keys);
}

} // verus!
