//! A map from text keys to values that keeps its entries in ascending key
//! order, so that walking it by index visits the keys in order.

use crate::text::{
    lemma_text_lt_asymmetric, lemma_text_lt_irreflexive, lemma_text_lt_total,
    lemma_text_lt_transitive, text_eq, text_lt, text_precedes,
};
use vstd::prelude::*;

verus! {

/// Every key stands before the keys that follow it.
pub open spec fn ascending(keys: Seq<Seq<char>>) -> bool {
    forall|i: int, j: int|
        0 <= i < j < keys.len() ==> text_lt(#[trigger] keys[i], #[trigger] keys[j])
}

/// Index of the first key that does not stand before `key`; the number of
/// keys where all of them do.
pub open spec fn lower_bound(keys: Seq<Seq<char>>, key: Seq<char>) -> int
    decreases keys.len(),
{
    if keys.len() == 0 || !text_lt(keys[0], key) {
        0
    } else {
        1 + lower_bound(keys.drop_first(), key)
    }
}

/// Where `key` stands among ascending `keys`, if it is one of them.
pub open spec fn position(keys: Seq<Seq<char>>, key: Seq<char>) -> Option<int> {
    let p = lower_bound(keys, key);
    if p < keys.len() && keys[p] == key {
        Some(p)
    } else {
        None
    }
}

/// The lower bound is an index into the keys or their number; every key
/// before it stands before `key`, and the key at it does not.
pub proof fn lemma_lower_bound(keys: Seq<Seq<char>>, key: Seq<char>)
    ensures
        0 <= lower_bound(keys, key) <= keys.len(),
        forall|i: int| 0 <= i < lower_bound(keys, key) ==> text_lt(#[trigger] keys[i], key),
        lower_bound(keys, key) < keys.len() ==> !text_lt(keys[lower_bound(keys, key)], key),
    decreases keys.len(),
{
    if keys.len() > 0 && text_lt(keys[0], key) {
        let rest = keys.drop_first();
        lemma_lower_bound(rest, key);
        assert forall|i: int| 0 <= i < lower_bound(keys, key) implies text_lt(
            #[trigger] keys[i],
            key,
        ) by {
            if i > 0 {
                assert(keys[i] == rest[i - 1]);
            }
        }
    }
}

/// The index that parts the keys before `key` from the others is the lower
/// bound.
pub proof fn lemma_lower_bound_is(keys: Seq<Seq<char>>, key: Seq<char>, p: int)
    requires
        0 <= p <= keys.len(),
        forall|i: int| 0 <= i < p ==> text_lt(#[trigger] keys[i], key),
        p < keys.len() ==> !text_lt(keys[p], key),
    ensures
        lower_bound(keys, key) == p,
{
    lemma_lower_bound(keys, key);
    let q = lower_bound(keys, key);
    if q < p {
        assert(text_lt(keys[q], key));
    } else if p < q {
        assert(text_lt(keys[p], key));
    }
}

/// Among ascending keys none at or after the lower bound stands before
/// `key`, and `key` is found at the lower bound or nowhere.
pub proof fn lemma_position(keys: Seq<Seq<char>>, key: Seq<char>)
    requires
        ascending(keys),
    ensures
        forall|i: int|
            lower_bound(keys, key) <= i < keys.len() ==> !text_lt(#[trigger] keys[i], key),
        forall|i: int|
            0 <= i < keys.len() && #[trigger] keys[i] == key ==> position(keys, key) == Some(i),
        position(keys, key) matches Some(i) ==> 0 <= i < keys.len() && keys[i] == key,
{
    lemma_lower_bound(keys, key);
    let p = lower_bound(keys, key);
    assert forall|i: int| p <= i < keys.len() implies !text_lt(#[trigger] keys[i], key) by {
        if p < i && text_lt(keys[i], key) {
            lemma_text_lt_transitive(keys[p], keys[i], key);
        }
    }
    assert forall|i: int| 0 <= i < keys.len() && #[trigger] keys[i] == key implies position(
        keys,
        key,
    ) == Some(i) by {
        lemma_text_lt_irreflexive(key);
        if p < i {
            lemma_text_lt_asymmetric(keys[p], keys[i]);
        }
    }
}

/// Putting a new key at its lower bound keeps the keys ascending.
pub proof fn lemma_insert_ascending(keys: Seq<Seq<char>>, key: Seq<char>)
    requires
        ascending(keys),
        position(keys, key) is None,
    ensures
        ascending(keys.insert(lower_bound(keys, key), key)),
{
    lemma_lower_bound(keys, key);
    lemma_position(keys, key);
    let p = lower_bound(keys, key);
    let after = keys.insert(p, key);
    assert forall|i: int, j: int| 0 <= i < j < after.len() implies text_lt(
        #[trigger] after[i],
        #[trigger] after[j],
    ) by {
        if i == p {
            assert(after[j] == keys[j - 1]);
            lemma_text_lt_total(keys[j - 1], key);
        } else if j == p {
            assert(after[i] == keys[i]);
        } else {
            let a = if i < p { i } else { i - 1 };
            let b = if j < p { j } else { j - 1 };
            assert(after[i] == keys[a]);
            assert(after[j] == keys[b]);
        }
    }
}

/// Taking a key out keeps the others ascending.
pub proof fn lemma_remove_ascending(keys: Seq<Seq<char>>, i: int)
    requires
        ascending(keys),
        0 <= i < keys.len(),
    ensures
        ascending(keys.remove(i)),
{
    let after = keys.remove(i);
    assert forall|a: int, b: int| 0 <= a < b < after.len() implies text_lt(
        #[trigger] after[a],
        #[trigger] after[b],
    ) by {
        let x = if a < i { a } else { a + 1 };
        let y = if b < i { b } else { b + 1 };
        assert(after[a] == keys[x]);
        assert(after[b] == keys[y]);
    }
}

/// Ascending keys are pairwise different.
pub proof fn lemma_ascending_distinct(keys: Seq<Seq<char>>, i: int, j: int)
    requires
        ascending(keys),
        0 <= i < keys.len(),
        0 <= j < keys.len(),
        keys[i] == keys[j],
    ensures
        i == j,
{
    if i < j {
        lemma_text_lt_asymmetric(keys[i], keys[j]);
    } else if j < i {
        lemma_text_lt_asymmetric(keys[j], keys[i]);
    }
}

/// The map that ascending `keys` make with the values at their indices.
pub open spec fn map_of<V>(keys: Seq<Seq<char>>, values: Seq<V>) -> Map<Seq<char>, V> {
    Map::new(
        |k: Seq<char>| position(keys, k) is Some,
        |k: Seq<char>| values[position(keys, k).unwrap()],
    )
}

/// Putting a new key with its value at the key's lower bound adds that
/// pair to the map and leaves the others.
pub proof fn lemma_map_of_insert<V>(
    keys: Seq<Seq<char>>,
    values: Seq<V>,
    key: Seq<char>,
    value: V,
)
    requires
        ascending(keys),
        keys.len() == values.len(),
        position(keys, key) is None,
    ensures
        map_of(
            keys.insert(lower_bound(keys, key), key),
            values.insert(lower_bound(keys, key), value),
        ) == map_of(keys, values).insert(key, value),
{
    lemma_lower_bound(keys, key);
    lemma_insert_ascending(keys, key);
    let p = lower_bound(keys, key);
    let keys2 = keys.insert(p, key);
    let values2 = values.insert(p, value);
    let before = map_of(keys, values);
    let after = map_of(keys2, values2);
    assert forall|k: Seq<char>| after.dom().contains(k) == before.insert(key, value).dom().contains(
        k,
    ) by {
        lemma_position(keys, k);
        lemma_position(keys2, k);
        match position(keys, k) {
            Some(a) => {
                let b = if a < p { a } else { a + 1 };
                assert(keys2[b] == k);
            },
            None => {},
        }
        match position(keys2, k) {
            Some(b) => {
                if b != p {
                    let a = if b < p { b } else { b - 1 };
                    assert(keys[a] == k);
                }
            },
            None => {
                assert(keys2[p] == key);
            },
        }
    }
    assert forall|k: Seq<char>| after.dom().contains(k) implies after[k] == before.insert(
        key,
        value,
    )[k] by {
        lemma_position(keys, k);
        lemma_position(keys2, k);
        match position(keys2, k) {
            Some(b) => {
                assert(keys2[p] == key);
                if k == key {
                    lemma_ascending_distinct(keys2, b, p);
                } else {
                    let a = if b < p { b } else { b - 1 };
                    assert(keys[a] == k);
                }
            },
            None => {},
        }
    }
    assert(after =~= before.insert(key, value));
}

/// Replacing the value at an index replaces the value of the key there.
pub proof fn lemma_map_of_update<V>(keys: Seq<Seq<char>>, values: Seq<V>, i: int, value: V)
    requires
        ascending(keys),
        keys.len() == values.len(),
        0 <= i < keys.len(),
    ensures
        map_of(keys, values.update(i, value)) == map_of(keys, values).insert(keys[i], value),
{
    let before = map_of(keys, values);
    let after = map_of(keys, values.update(i, value));
    lemma_position(keys, keys[i]);
    assert forall|k: Seq<char>| after.dom().contains(k) implies after[k] == before.insert(
        keys[i],
        value,
    )[k] by {
        lemma_position(keys, k);
    }
    assert(after =~= before.insert(keys[i], value));
}

/// Text keys with their values, in ascending key order.
#[derive(Clone, Debug)]
pub struct OrderedMap<V> {
    entries: Vec<(String, V)>,
}

impl<V> OrderedMap<V> {
    /// The keys, in the order in which the map holds them.
    pub closed spec fn keys(&self) -> Seq<Seq<char>> {
        Seq::new(self.entries@.len(), |i: int| self.entries@[i].0@)
    }

    /// The values, each at the index of its key.
    pub closed spec fn values(&self) -> Seq<V> {
        Seq::new(self.entries@.len(), |i: int| self.entries@[i].1)
    }

    /// The keys are ascending, and each has its value.
    pub open spec fn wf(&self) -> bool {
        &&& self.keys().len() == self.values().len()
        &&& ascending(self.keys())
    }

    /// An empty map.
    pub fn new() -> (r: Self)
        ensures
            r.wf(),
            r.keys() == Seq::<Seq<char>>::empty(),
            r.values() == Seq::<V>::empty(),
    {
        let r = OrderedMap { entries: Vec::new() };
        assert(r.keys() =~= Seq::<Seq<char>>::empty());
        assert(r.values() =~= Seq::<V>::empty());
        r
    }

    /// The number of entries.
    pub fn len(&self) -> (n: usize)
        ensures
            n == self.keys().len(),
            n == self.values().len(),
    {
        self.entries.len()
    }

    /// The key at `i` in ascending order.
    pub fn key_at(&self, i: usize) -> (r: &String)
        requires
            i < self.keys().len(),
        ensures
            r@ == self.keys()[i as int],
    {
        &self.entries[i].0
    }

    /// The value of the key at `i`.
    pub fn value_at(&self, i: usize) -> (r: &V)
        requires
            i < self.values().len(),
        ensures
            *r == self.values()[i as int],
    {
        &self.entries[i].1
    }

    /// Hands out the value at `i` for change in place; the keys stay.
    pub fn value_at_mut(&mut self, i: usize) -> (r: &mut V)
        requires
            i < old(self).values().len(),
        ensures
            *r == old(self).values()[i as int],
            final(self).values() =~= old(self).values().update(i as int, *final(r)),
            final(self).keys() =~= old(self).keys(),
    {
        &mut self.entries[i].1
    }

    /// Binary search for the first key that does not stand before `key`.
    pub fn search(&self, key: &str) -> (p: usize)
        requires
            self.wf(),
        ensures
            p == lower_bound(self.keys(), key@),
            p <= self.keys().len(),
    {
        let mut lo: usize = 0;
        let mut hi: usize = self.entries.len();
        while lo < hi
            invariant
                self.wf(),
                lo <= hi <= self.keys().len(),
                self.keys().len() == self.entries@.len(),
                forall|i: int| 0 <= i < lo ==> text_lt(#[trigger] self.keys()[i], key@),
                forall|i: int|
                    hi <= i < self.keys().len() ==> !text_lt(#[trigger] self.keys()[i], key@),
            decreases hi - lo,
        {
            let mid = lo + (hi - lo) / 2;
            if text_precedes(self.entries[mid].0.as_str(), key) {
                proof {
                    let keys = self.keys();
                    assert forall|i: int| 0 <= i < mid + 1 implies text_lt(
                        #[trigger] keys[i],
                        key@,
                    ) by {
                        if i < mid {
                            lemma_text_lt_transitive(keys[i], keys[mid as int], key@);
                        }
                    }
                }
                lo = mid + 1;
            } else {
                proof {
                    let keys = self.keys();
                    assert forall|i: int| mid <= i < keys.len() implies !text_lt(
                        #[trigger] keys[i],
                        key@,
                    ) by {
                        if mid < i && text_lt(keys[i], key@) {
                            lemma_text_lt_transitive(keys[mid as int], keys[i], key@);
                        }
                    }
                }
                hi = mid;
            }
        }
        proof {
            lemma_lower_bound_is(self.keys(), key@, lo as int);
        }
        lo
    }

    /// The index at which `key` stands, if the map holds it.
    pub fn find(&self, key: &str) -> (r: Option<usize>)
        requires
            self.wf(),
        ensures
            match r {
                Some(i) => position(self.keys(), key@) == Some(i as int) && i < self.keys().len(),
                None => position(self.keys(), key@) is None,
            },
    {
        let p = self.search(key);
        proof {
            lemma_position(self.keys(), key@);
        }
        if p < self.entries.len() && text_eq(self.entries[p].0.as_str(), key) {
            Some(p)
        } else {
            None
        }
    }

    /// Puts `value` under `key`. Where the key was there already, its value
    /// is replaced and handed back.
    pub fn insert(&mut self, key: String, value: V) -> (r: Option<V>)
        requires
            old(self).wf(),
        ensures
            final(self).wf(),
            map_of(final(self).keys(), final(self).values()) == map_of(
                old(self).keys(),
                old(self).values(),
            ).insert(key@, value),
            match position(old(self).keys(), key@) {
                Some(i) => {
                    &&& r == Some(old(self).values()[i])
                    &&& final(self).keys() == old(self).keys()
                    &&& final(self).values() == old(self).values().update(i, value)
                },
                None => {
                    let p = lower_bound(old(self).keys(), key@);
                    &&& r is None
                    &&& final(self).keys() == old(self).keys().insert(p, key@)
                    &&& final(self).values() == old(self).values().insert(p, value)
                },
            },
    {
        let p = self.search(key.as_str());
        proof {
            lemma_position(self.keys(), key@);
        }
        if p < self.entries.len() && text_eq(self.entries[p].0.as_str(), key.as_str()) {
            proof {
                lemma_map_of_update(self.keys(), self.values(), p as int, value);
            }
            let mut value = value;
            let slot = self.value_at_mut(p);
            core::mem::swap(slot, &mut value);
            Some(value)
        } else {
            proof {
                lemma_insert_ascending(self.keys(), key@);
                lemma_map_of_insert(self.keys(), self.values(), key@, value);
            }
            self.entries.insert(p, (key, value));
            proof {
                assert(self.keys() =~= old(self).keys().insert(p as int, key@));
                assert(self.values() =~= old(self).values().insert(p as int, value));
            }
            None
        }
    }

    /// Puts a key that the map does not hold yet, with its value, at the
    /// index that `search` gave for it.
    pub(crate) fn insert_at(&mut self, p: usize, key: String, value: V)
        requires
            old(self).wf(),
            p == lower_bound(old(self).keys(), key@),
            position(old(self).keys(), key@) is None,
        ensures
            final(self).wf(),
            final(self).keys() == old(self).keys().insert(p as int, key@),
            final(self).values() == old(self).values().insert(p as int, value),
    {
        proof {
            lemma_lower_bound(self.keys(), key@);
            lemma_insert_ascending(self.keys(), key@);
        }
        self.entries.insert(p, (key, value));
        proof {
            assert(self.keys() =~= old(self).keys().insert(p as int, key@));
            assert(self.values() =~= old(self).values().insert(p as int, value));
        }
    }

    /// Takes the entry at `i` out of the map.
    pub fn remove_at(&mut self, i: usize) -> (r: (String, V))
        requires
            old(self).wf(),
            i < old(self).keys().len(),
        ensures
            final(self).wf(),
            r.0@ == old(self).keys()[i as int],
            r.1 == old(self).values()[i as int],
            final(self).keys() == old(self).keys().remove(i as int),
            final(self).values() == old(self).values().remove(i as int),
    {
        proof {
            lemma_remove_ascending(self.keys(), i as int);
        }
        let r = self.entries.remove(i);
        proof {
            assert(self.keys() =~= old(self).keys().remove(i as int));
            assert(self.values() =~= old(self).values().remove(i as int));
        }
        r
    }

    /// Empties the map.
    pub fn clear(&mut self)
        ensures
            final(self).wf(),
            final(self).keys() == Seq::<Seq<char>>::empty(),
            final(self).values() == Seq::<V>::empty(),
    {
        self.entries.clear();
        proof {
            assert(self.keys() =~= Seq::<Seq<char>>::empty());
            assert(self.values() =~= Seq::<V>::empty());
        }
    }
}

} // verus!
