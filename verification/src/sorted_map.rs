//! A map from text keys, kept as a vector sorted by key.
use vstd::prelude::*;

use crate::text::{
    lemma_precedes_irreflexive, lemma_precedes_total, lemma_precedes_transitive, precedes,
    same_text, text_before,
};

verus! {

/// A map from text to values. The entries are held in code-point order of their
/// keys, and no key occurs twice.
#[derive(Debug, PartialEq)]
pub struct SortedMap<V> {
    pub(crate) keys: Vec<String>,
    pub(crate) values: Vec<V>,
}

/// Whether a sequence of entries has a key.
pub open spec fn has_key<V>(entries: Seq<(String, V)>, key: Seq<char>) -> bool {
    exists|i: int| 0 <= i < entries.len() && (#[trigger] entries[i]).0@ == key
}

/// Where a key stands in a sequence of entries that has it.
pub open spec fn key_index<V>(entries: Seq<(String, V)>, key: Seq<char>) -> int {
    choose|i: int| 0 <= i < entries.len() && (#[trigger] entries[i]).0@ == key
}

/// Whether the keys ascend strictly.
pub open spec fn ascending<V>(entries: Seq<(String, V)>) -> bool {
    forall|i: int, j: int|
        0 <= i < j < entries.len() ==> precedes(
            (#[trigger] entries[i]).0@,
            (#[trigger] entries[j]).0@,
        )
}

/// The map that a sequence of entries holds.
pub open spec fn entry_map<V>(entries: Seq<(String, V)>) -> Map<Seq<char>, V> {
    Map::new(
        |key: Seq<char>| has_key(entries, key),
        |key: Seq<char>| entries[key_index(entries, key)].1,
    )
}

/// Whether texts ascend strictly.
pub open spec fn texts_ascend(texts: Seq<String>) -> bool {
    forall|i: int, j: int|
        0 <= i < j < texts.len() ==> precedes((#[trigger] texts[i])@, (#[trigger] texts[j])@)
}

/// The texts of a sequence, as a set.
pub open spec fn text_set(texts: Seq<String>) -> Set<Seq<char>> {
    Set::new(|key: Seq<char>| exists|i: int| 0 <= i < texts.len() && (#[trigger] texts[i])@ == key)
}

/// In an ascending sequence a key occurs at one place.
pub proof fn lemma_key_index<V>(entries: Seq<(String, V)>, i: int)
    requires
        ascending(entries),
        0 <= i < entries.len(),
    ensures
        has_key(entries, entries[i].0@),
        key_index(entries, entries[i].0@) == i,
        entry_map(entries).contains_key(entries[i].0@),
        entry_map(entries)[entries[i].0@] == entries[i].1,
{
    let k = key_index(entries, entries[i].0@);
    assert(0 <= k < entries.len() && entries[k].0@ == entries[i].0@);
    lemma_precedes_irreflexive(entries[i].0@);
    if k < i {
        assert(precedes(entries[k].0@, entries[i].0@));
    } else if i < k {
        assert(precedes(entries[i].0@, entries[k].0@));
    }
}

/// The keys of an ascending sequence are as many as its entries.
pub proof fn lemma_entry_map_len<V>(entries: Seq<(String, V)>)
    requires
        ascending(entries),
    ensures
        entry_map(entries).dom().finite(),
        entry_map(entries).dom().len() == entries.len(),
    decreases entries.len(),
{
    if entries.len() == 0 {
        assert(entry_map(entries).dom() =~= Set::empty());
    } else {
        let front = entries.drop_last();
        let key = entries.last().0@;
        lemma_entry_map_len(front);
        assert forall|k: Seq<char>| has_key(entries, k) == (has_key(front, k) || k == key) by {
            if has_key(entries, k) {
                let i = key_index(entries, k);
                if i < front.len() {
                    assert(front[i] == entries[i]);
                }
            }
            if has_key(front, k) {
                let i = key_index(front, k);
                assert(entries[i] == front[i]);
            }
            if k == key {
                assert(entries[entries.len() - 1].0@ == k);
            }
        }
        if has_key(front, key) {
            let i = key_index(front, key);
            assert(front[i] == entries[i]);
            lemma_precedes_irreflexive(key);
            assert(precedes(entries[i].0@, entries[entries.len() - 1].0@));
        }
        assert(entry_map(entries).dom() =~= entry_map(front).dom().insert(key));
    }
}

/// Pairs keys with values.
pub open spec fn paired<V>(keys: Seq<String>, values: Seq<V>) -> Seq<(String, V)> {
    Seq::new(values.len(), |i: int| (keys[i], values[i]))
}

/// Changing the value at a key's place changes the map at that key.
pub proof fn lemma_update_value<V>(keys: Seq<String>, values: Seq<V>, i: int, value: V)
    requires
        keys.len() == values.len(),
        texts_ascend(keys),
        0 <= i < keys.len(),
    ensures
        entry_map(paired(keys, values.update(i, value))) == entry_map(
            paired(keys, values),
        ).insert(keys[i]@, value),
{
    let before = paired(keys, values);
    let after = paired(keys, values.update(i, value));
    assert forall|key: Seq<char>| has_key(before, key) == has_key(after, key) by {
        if has_key(before, key) {
            assert(after[key_index(before, key)].0@ == key);
        }
        if has_key(after, key) {
            assert(before[key_index(after, key)].0@ == key);
        }
    }
    lemma_key_index(before, i);
    lemma_key_index(after, i);
    assert forall|key: Seq<char>| has_key(before, key) && key != keys[i]@ implies entry_map(
        before,
    )[key] == entry_map(after)[key] by {
        let k = key_index(before, key);
        lemma_key_index(before, k);
        assert(after[k].0 == before[k].0);
        lemma_key_index(after, k);
    }
    assert(entry_map(after) =~= entry_map(before).insert(keys[i]@, value));
}

/// Inserting a new key at its place inserts it into the map.
pub proof fn lemma_insert_entry<V>(
    keys: Seq<String>,
    values: Seq<V>,
    i: int,
    key: String,
    value: V,
)
    requires
        keys.len() == values.len(),
        texts_ascend(keys),
        0 <= i <= keys.len(),
        forall|k: int| 0 <= k < i ==> precedes((#[trigger] keys[k])@, key@),
        forall|k: int| i <= k < keys.len() ==> precedes(key@, (#[trigger] keys[k])@),
    ensures
        texts_ascend(keys.insert(i, key)),
        entry_map(paired(keys.insert(i, key), values.insert(i, value))) == entry_map(
            paired(keys, values),
        ).insert(key@, value),
{
    let before = paired(keys, values);
    let after = paired(keys.insert(i, key), values.insert(i, value));
    assert(after[i] == (key, value));
    assert forall|k: int| 0 <= k < before.len() implies #[trigger] before[k] == after[(if k < i {
        k
    } else {
        k + 1
    })] by {}
    assert(ascending(after));
    assert forall|x: Seq<char>| has_key(after, x) == (has_key(before, x) || x == key@) by {
        if has_key(after, x) {
            let k = key_index(after, x);
            if k != i {
                let j = if k < i {
                    k
                } else {
                    k - 1
                };
                assert(before[j].0@ == x);
            }
        }
        if has_key(before, x) {
            let k = key_index(before, x);
            let j = if k < i {
                k
            } else {
                k + 1
            };
            assert(after[j].0@ == x);
        }
    }
    lemma_key_index(after, i);
    assert forall|x: Seq<char>| has_key(before, x) && x != key@ implies entry_map(before)[x]
        == entry_map(after)[x] by {
        let k = key_index(before, x);
        let j = if k < i {
            k
        } else {
            k + 1
        };
        lemma_key_index(before, k);
        lemma_key_index(after, j);
    }
    assert(entry_map(after) =~= entry_map(before).insert(key@, value));
}

/// Removing the entry at a place removes its key from the map.
pub proof fn lemma_remove_entry<V>(keys: Seq<String>, values: Seq<V>, i: int)
    requires
        keys.len() == values.len(),
        texts_ascend(keys),
        0 <= i < keys.len(),
    ensures
        texts_ascend(keys.remove(i)),
        paired(keys.remove(i), values.remove(i)) == paired(keys, values).remove(i),
        entry_map(paired(keys.remove(i), values.remove(i))) == entry_map(
            paired(keys, values),
        ).remove(keys[i]@),
{
    let before = paired(keys, values);
    let after = paired(keys.remove(i), values.remove(i));
    let key = keys[i]@;
    assert(after =~= before.remove(i));
    lemma_precedes_irreflexive(key);
    lemma_key_index(before, i);
    assert(ascending(after));
    assert forall|x: Seq<char>| has_key(after, x) == (has_key(before, x) && x != key) by {
        if has_key(after, x) {
            let k = key_index(after, x);
            let j = if k < i {
                k
            } else {
                k + 1
            };
            assert(before[j] == after[k]);
            lemma_key_index(before, j);
        }
        if has_key(before, x) && x != key {
            let k = key_index(before, x);
            let j = if k < i {
                k
            } else {
                k - 1
            };
            assert(after[j] == before[k]);
        }
    }
    assert forall|x: Seq<char>| has_key(after, x) implies entry_map(before)[x] == entry_map(
        after,
    )[x] by {
        let k = key_index(after, x);
        let j = if k < i {
            k
        } else {
            k + 1
        };
        assert(before[j] == after[k]);
        lemma_key_index(after, k);
        lemma_key_index(before, j);
    }
    assert(entry_map(after) =~= entry_map(before).remove(key));
}

impl<V> View for SortedMap<V> {
    type V = Map<Seq<char>, V>;

    closed spec fn view(&self) -> Map<Seq<char>, V> {
        entry_map(paired(self.keys@, self.values@))
    }
}

/// A map is what its entries hold.
pub(crate) proof fn lemma_in_order<V>(map: SortedMap<V>)
    ensures
        map@ == entry_map(map.in_order()),
        map.in_order() == paired(map.keys@, map.values@),
{
}

impl<V> SortedMap<V> {
    #[verifier::type_invariant]
    spec fn inv(self) -> bool {
        &&& self.keys@.len() == self.values@.len()
        &&& texts_ascend(self.keys@)
    }

    /// The entries in order of their keys.
    pub closed spec fn in_order(&self) -> Seq<(String, V)> {
        paired(self.keys@, self.values@)
    }

    /// An empty map.
    pub fn new() -> (map: Self)
        ensures
            map@ == Map::<Seq<char>, V>::empty(),
            map.in_order() == Seq::<(String, V)>::empty(),
    {
        let map = SortedMap { keys: Vec::new(), values: Vec::new() };
        assert(map@ =~= Map::<Seq<char>, V>::empty());
        assert(map.in_order() =~= Seq::<(String, V)>::empty());
        map
    }

    /// How many entries there are. The entries stand in ascending order of their
    /// keys and are what the map holds.
    pub fn len(&self) -> (n: usize)
        ensures
            n == self@.dom().len(),
            n == self.in_order().len(),
            self@.dom().finite(),
            ascending(self.in_order()),
            self@ == entry_map(self.in_order()),
    {
        proof {
            use_type_invariant(self);
            lemma_entry_map_len(self.in_order());
        }
        self.keys.len()
    }

    /// The place of a key: where it stands, or where it would be inserted.
    fn place(&self, key: &str) -> (r: (usize, bool))
        ensures
            r.0 <= self.keys@.len(),
            self.keys@.len() == self.values@.len(),
            texts_ascend(self.keys@),
            r.1 ==> r.0 < self.keys@.len() && self.keys@[r.0 as int]@ == key@,
            r.1 == has_key(self.in_order(), key@),
            !r.1 ==> forall|i: int| 0 <= i < r.0 ==> precedes((#[trigger] self.keys@[i])@, key@),
            !r.1 ==> forall|i: int|
                r.0 <= i < self.keys@.len() ==> precedes(key@, (#[trigger] self.keys@[i])@),
    {
        proof {
            use_type_invariant(self);
        }
        let mut i: usize = 0;
        while i < self.keys.len() && text_before(self.keys[i].as_str(), key)
            invariant
                i <= self.keys@.len(),
                forall|k: int| 0 <= k < i ==> precedes((#[trigger] self.keys@[k])@, key@),
            decreases self.keys@.len() - i,
        {
            i += 1;
        }
        let found = i < self.keys.len() && same_text(self.keys[i].as_str(), key);
        proof {
            lemma_precedes_irreflexive(key@);
            assert forall|k: int| 0 <= k < self.keys@.len() implies #[trigger] self.in_order()[k].0
                == self.keys@[k] by {}
            if i < self.keys@.len() {
                lemma_precedes_total(self.keys@[i as int]@, key@);
                if found {
                    assert(self.in_order()[i as int].0@ == key@);
                } else {
                    assert forall|k: int| i <= k < self.keys@.len() implies precedes(
                        key@,
                        (#[trigger] self.keys@[k])@,
                    ) by {
                        if i < k {
                            lemma_precedes_transitive(
                                key@,
                                self.keys@[i as int]@,
                                self.keys@[k]@,
                            );
                        }
                    }
                }
            }
        }
        (i, found)
    }

    pub fn contains_key(&self, key: &str) -> (r: bool)
        ensures
            r == self@.contains_key(key@),
    {
        self.place(key).1
    }

    pub fn get(&self, key: &str) -> (r: Option<&V>)
        ensures
            r == (if self@.contains_key(key@) {
                Some(&self@[key@])
            } else {
                None
            }),
    {
        let (i, found) = self.place(key);
        if found {
            proof {
                lemma_key_index(self.in_order(), i as int);
            }
            Some(&self.values[i])
        } else {
            None
        }
    }

    pub fn get_mut(&mut self, key: &str) -> (r: Option<&mut V>)
        ensures
            match r {
                Some(v) => {
                    &&& old(self)@.contains_key(key@)
                    &&& *v == old(self)@[key@]
                    &&& final(self)@ == old(self)@.insert(key@, *final(v))
                },
                None => !old(self)@.contains_key(key@) && final(self)@ == old(self)@,
            },
    {
        let (i, found) = self.place(key);
        if found {
            proof {
                lemma_key_index(self.in_order(), i as int);
                let keys = self.keys@;
                let values = self.values@;
                assert forall|value: V|
                    entry_map(paired(keys, #[trigger] values.update(i as int, value))) == entry_map(
                        paired(keys, values),
                    ).insert(key@, value) by {
                    lemma_update_value(keys, values, i as int, value);
                }
            }
            Some(&mut self.values[i])
        } else {
            None
        }
    }

    /// Sets the value of a key and hands back the one that it had.
    pub fn insert(&mut self, key: String, value: V) -> (r: Option<V>)
        ensures
            final(self)@ == old(self)@.insert(key@, value),
            r == (if old(self)@.contains_key(key@) {
                Some(old(self)@[key@])
            } else {
                None
            }),
    {
        let (i, found) = self.place(key.as_str());
        let mut taken = SortedMap::new();
        std::mem::swap(self, &mut taken);
        let SortedMap { mut keys, mut values } = taken;
        if found {
            proof {
                lemma_key_index(old(self).in_order(), i as int);
                lemma_update_value(keys@, values@, i as int, value);
            }
            let previous = values.remove(i);
            values.insert(i, value);
            assert(values@ =~= old(self).values@.update(i as int, value));
            *self = SortedMap { keys, values };
            Some(previous)
        } else {
            proof {
                lemma_insert_entry(keys@, values@, i as int, key, value);
            }
            keys.insert(i, key);
            values.insert(i, value);
            *self = SortedMap { keys, values };
            None
        }
    }

    /// Removes the entry at a place in the order.
    pub fn remove_at(&mut self, i: usize) -> (r: (String, V))
        requires
            i < old(self).in_order().len(),
        ensures
            r == old(self).in_order()[i as int],
            final(self).in_order() == old(self).in_order().remove(i as int),
            final(self)@ == old(self)@.remove(r.0@),
            old(self)@.contains_key(r.0@),
            old(self)@[r.0@] == r.1,
    {
        proof {
            use_type_invariant(&*self);
            lemma_key_index(self.in_order(), i as int);
            lemma_remove_entry(self.keys@, self.values@, i as int);
        }
        let mut taken = SortedMap::new();
        std::mem::swap(self, &mut taken);
        let SortedMap { mut keys, mut values } = taken;
        let key = keys.remove(i);
        let value = values.remove(i);
        *self = SortedMap { keys, values };
        (key, value)
    }

    /// Removes a key and hands back its value.
    pub fn remove(&mut self, key: &str) -> (r: Option<V>)
        ensures
            final(self)@ == old(self)@.remove(key@),
            r == (if old(self)@.contains_key(key@) {
                Some(old(self)@[key@])
            } else {
                None
            }),
    {
        let (i, found) = self.place(key);
        if found {
            let (_, value) = self.remove_at(i);
            Some(value)
        } else {
            assert(self@ =~= self@.remove(key@));
            None
        }
    }

    /// The key at a place in the order.
    pub fn key_at(&self, i: usize) -> (key: &String)
        requires
            i < self.in_order().len(),
        ensures
            *key == self.in_order()[i as int].0,
    {
        proof {
            use_type_invariant(self);
        }
        &self.keys[i]
    }

    /// The value at a place in the order.
    pub fn value_at(&self, i: usize) -> (value: &V)
        requires
            i < self.in_order().len(),
        ensures
            *value == self.in_order()[i as int].1,
            self@.contains_key(self.in_order()[i as int].0@),
            self@[self.in_order()[i as int].0@] == *value,
    {
        proof {
            use_type_invariant(self);
            lemma_key_index(self.in_order(), i as int);
        }
        &self.values[i]
    }
}

} // verus!
