//! A map from texts to values that keeps its entries in the order in which
//! their keys were first inserted.

use vstd::prelude::*;
use crate::text::same_str;

verus! {

/// The keys of `entries`, as texts, in order.
pub open spec fn key_texts<V>(entries: Seq<(String, V)>) -> Seq<Seq<char>> {
    entries.map_values(|e: (String, V)| e.0@)
}

/// Where `key` stands among `keys`.
pub open spec fn key_index(keys: Seq<Seq<char>>, key: Seq<char>) -> int {
    choose|i: int| 0 <= i < keys.len() && keys[i] == key
}

/// What `entries` map each of their keys to.
pub open spec fn map_of<V>(entries: Seq<(String, V)>) -> Map<Seq<char>, V> {
    Map::new(
        |k: Seq<char>| key_texts(entries).contains(k),
        |k: Seq<char>| entries[key_index(key_texts(entries), k)].1,
    )
}

/// Among entries without a repeated key, the entry at `i` is what its key is
/// mapped to, and the keys are as many as the entries.
pub proof fn lemma_map_of<V>(entries: Seq<(String, V)>)
    requires
        key_texts(entries).no_duplicates(),
    ensures
        forall|i: int|
            0 <= i < entries.len() ==> map_of(entries).contains_key(#[trigger] entries[i].0@)
                && map_of(entries)[entries[i].0@] == entries[i].1,
        map_of(entries).dom() == key_texts(entries).to_set(),
        map_of(entries).dom().finite(),
        map_of(entries).dom().len() == entries.len(),
{
    let keys = key_texts(entries);
    assert forall|i: int| 0 <= i < entries.len() implies map_of(entries).contains_key(
        #[trigger] entries[i].0@,
    ) && map_of(entries)[entries[i].0@] == entries[i].1 by {
        assert(keys[i] == entries[i].0@);
        assert(keys.contains(entries[i].0@));
        let j = key_index(keys, entries[i].0@);
        assert(keys[j] == keys[i]);
    }
    assert(map_of(entries).dom() =~= keys.to_set());
    keys.unique_seq_to_set();
}

/// A map keyed by text.
#[derive(Debug)]
pub struct TextMap<V> {
    entries: Vec<(String, V)>,
}

impl<V> View for TextMap<V> {
    type V = Map<Seq<char>, V>;

    closed spec fn view(&self) -> Map<Seq<char>, V> {
        map_of(self.entries@)
    }
}

/// Where an entry with the key `key` stands in `entries`.
fn find_entry<V>(entries: &Vec<(String, V)>, key: &str) -> (at: Option<usize>)
    ensures
        match at {
            Some(i) => i < entries.len() && entries@[i as int].0@ == key@,
            None => !key_texts(entries@).contains(key@),
        },
{
    let mut i: usize = 0;
    while i < entries.len()
        invariant
            i <= entries.len(),
            forall|j: int| 0 <= j < i ==> entries@[j].0@ != key@,
        decreases entries.len() - i,
    {
        if same_str(entries[i].0.as_str(), key) {
            return Some(i);
        }
        i = i + 1;
    }
    proof {
        let keys = key_texts(entries@);
        assert forall|j: int| 0 <= j < keys.len() implies keys[j] != key@ by {
            assert(keys[j] == entries@[j].0@);
        }
    }
    None
}

impl<V> TextMap<V> {
    #[verifier::type_invariant]
    spec fn well_formed(&self) -> bool {
        key_texts(self.entries@).no_duplicates()
    }

    /// The keys, in the order in which they were first inserted.
    pub closed spec fn key_order(&self) -> Seq<Seq<char>> {
        key_texts(self.entries@)
    }

    /// An empty map.
    pub fn new() -> (m: Self)
        ensures
            m@ == Map::<Seq<char>, V>::empty(),
            m.key_order() == Seq::<Seq<char>>::empty(),
    {
        let m = TextMap { entries: Vec::new() };
        assert(m@ =~= Map::<Seq<char>, V>::empty());
        assert(m.key_order() =~= Seq::<Seq<char>>::empty());
        m
    }

    /// The number of keys.
    pub fn len(&self) -> (n: usize)
        ensures
            self@.dom().finite(),
            n == self@.dom().len(),
            n == self.key_order().len(),
    {
        proof {
            use_type_invariant(self);
            lemma_map_of(self.entries@);
        }
        self.entries.len()
    }

    pub fn is_empty(&self) -> (b: bool)
        ensures
            b == (self@ == Map::<Seq<char>, V>::empty()),
    {
        proof {
            use_type_invariant(self);
            lemma_map_of(self.entries@);
            if self.entries@.len() == 0 {
                assert(self@ =~= Map::<Seq<char>, V>::empty());
            } else {
                assert(self@.contains_key(self.entries@[0].0@));
            }
        }
        self.entries.len() == 0
    }

    /// Whether `key` is mapped to a value.
    pub fn contains_key(&self, key: &str) -> (b: bool)
        ensures
            b == self@.contains_key(key@),
    {
        proof {
            use_type_invariant(self);
            lemma_map_of(self.entries@);
        }
        find_entry(&self.entries, key).is_some()
    }

    /// The value that `key` is mapped to.
    pub fn get(&self, key: &str) -> (r: Option<&V>)
        ensures
            match r {
                Some(v) => self@.contains_key(key@) && *v == self@[key@],
                None => !self@.contains_key(key@),
            },
    {
        proof {
            use_type_invariant(self);
            lemma_map_of(self.entries@);
        }
        match find_entry(&self.entries, key) {
            Some(i) => Some(&self.entries[i].1),
            None => None,
        }
    }

    /// Maps `key` to `value`, and returns what it was mapped to before. A new
    /// key goes behind the others; a known key keeps its place.
    pub fn insert(&mut self, key: String, value: V) -> (r: Option<V>)
        ensures
            final(self)@ == old(self)@.insert(key@, value),
            r == if old(self)@.contains_key(key@) {
                Some(old(self)@[key@])
            } else {
                None::<V>
            },
            final(self).key_order() == if old(self)@.contains_key(key@) {
                old(self).key_order()
            } else {
                old(self).key_order().push(key@)
            },
    {
        proof {
            use_type_invariant(&*self);
            lemma_map_of(self.entries@);
        }
        let mut entries: Vec<(String, V)> = Vec::new();
        assert(key_texts(entries@) =~= Seq::<Seq<char>>::empty());
        core::mem::swap(&mut self.entries, &mut entries);
        let ghost before = entries@;
        let ghost key_text = key@;
        let ghost mut at: int = 0;
        let r: Option<V> = match find_entry(&entries, key.as_str()) {
            Some(i) => {
                let mut entry: (String, V) = (key, value);
                core::mem::swap(&mut entries[i], &mut entry);
                proof {
                    at = i as int;
                    assert(entries@ =~= before.update(at, (entries@[at].0, value)));
                    assert(key_texts(entries@) =~= key_texts(before));
                }
                Some(entry.1)
            },
            None => {
                entries.push((key, value));
                proof {
                    at = before.len() as int;
                    assert(key_texts(entries@) =~= key_texts(before).push(key_text));
                    assert forall|i: int, j: int|
                        0 <= i < j < key_texts(entries@).len() implies key_texts(entries@)[i]
                        != key_texts(entries@)[j] by {
                        if j < before.len() {
                            assert(key_texts(before)[i] != key_texts(before)[j]);
                        } else {
                            assert(key_texts(before)[i] == key_texts(entries@)[i]);
                        }
                    }
                }
                None
            },
        };
        proof {
            lemma_map_of(entries@);
            lemma_map_of(before);
            assert(0 <= at < entries@.len());
            assert(entries@[at].0@ == key_text && entries@[at].1 == value);
            assert(forall|j: int|
                0 <= j < before.len() && j != at ==> entries@[j] == #[trigger] before[j]);
            assert(map_of(entries@) =~= map_of(before).insert(key_text, value)) by {
                assert forall|k: Seq<char>| #[trigger]
                    map_of(entries@).contains_key(k) <==> map_of(before).insert(
                        key_text,
                        value,
                    ).contains_key(k) by {
                    if key_texts(entries@).contains(k) {
                        let i = key_index(key_texts(entries@), k);
                        if i < before.len() {
                            assert(key_texts(before)[i] == before[i].0@);
                        }
                    }
                    if key_texts(before).contains(k) {
                        let i = key_index(key_texts(before), k);
                        assert(key_texts(entries@)[i] == k);
                    }
                    if k == key_text {
                        if key_texts(before).contains(k) {
                        } else {
                            assert(key_texts(entries@)[before.len() as int] == k);
                        }
                    }
                }
                assert forall|k: Seq<char>| #[trigger]
                    map_of(entries@).contains_key(k) implies map_of(entries@)[k] == map_of(
                    before,
                ).insert(key_text, value)[k] by {
                    let i = key_index(key_texts(entries@), k);
                    assert(key_texts(entries@)[i] == entries@[i].0@);
                    assert(map_of(entries@)[entries@[i].0@] == entries@[i].1);
                    assert(key_texts(entries@)[at] == entries@[at].0@);
                    if k != key_text {
                        assert(i != at);
                        assert(i < before.len());
                        assert(entries@[i] == before[i]);
                        assert(key_texts(before)[i] == before[i].0@);
                        assert(map_of(before)[before[i].0@] == before[i].1);
                    } else {
                        assert(i == at);
                    }
                }
            }
        }
        core::mem::swap(&mut self.entries, &mut entries);
        r
    }

    /// Takes `key` and its value out of the map, and returns the value.
    pub fn remove(&mut self, key: &str) -> (r: Option<V>)
        ensures
            final(self)@ == old(self)@.remove(key@),
            r == if old(self)@.contains_key(key@) {
                Some(old(self)@[key@])
            } else {
                None::<V>
            },
            final(self).key_order() == if old(self)@.contains_key(key@) {
                old(self).key_order().remove(key_index(old(self).key_order(), key@))
            } else {
                old(self).key_order()
            },
    {
        proof {
            use_type_invariant(&*self);
            lemma_map_of(self.entries@);
        }
        let mut entries: Vec<(String, V)> = Vec::new();
        assert(key_texts(entries@) =~= Seq::<Seq<char>>::empty());
        core::mem::swap(&mut self.entries, &mut entries);
        let ghost before = entries@;
        let r: Option<V> = match find_entry(&entries, key) {
            Some(i) => {
                let entry: (String, V) = entries.remove(i);
                proof {
                    let at = i as int;
                    let keys = key_texts(before);
                    assert(keys[at] == before[at].0@);
                    assert(key_index(keys, key@) == at);
                    assert(key_texts(entries@) =~= keys.remove(at));
                    assert forall|a: int, b: int|
                        0 <= a < b < key_texts(entries@).len() implies key_texts(entries@)[a]
                        != key_texts(entries@)[b] by {
                        let a0 = if a < at { a } else { a + 1 };
                        let b0 = if b < at { b } else { b + 1 };
                        assert(key_texts(entries@)[a] == keys[a0]);
                        assert(key_texts(entries@)[b] == keys[b0]);
                    }
                    lemma_map_of(entries@);
                    assert(map_of(entries@) =~= map_of(before).remove(key@)) by {
                        assert forall|k: Seq<char>| #[trigger]
                            map_of(entries@).contains_key(k) <==> map_of(before).remove(
                                key@,
                            ).contains_key(k) by {
                            if key_texts(entries@).contains(k) {
                                let j = key_index(key_texts(entries@), k);
                                let j0 = if j < at { j } else { j + 1 };
                                assert(keys[j0] == k);
                                assert(j0 != at);
                            }
                            if keys.contains(k) && k != key@ {
                                let j0 = key_index(keys, k);
                                let j = if j0 < at { j0 } else { j0 - 1 };
                                assert(key_texts(entries@)[j] == k);
                            }
                        }
                        assert forall|k: Seq<char>| #[trigger]
                            map_of(entries@).contains_key(k) implies map_of(entries@)[k] == map_of(
                            before,
                        ).remove(key@)[k] by {
                            let j = key_index(key_texts(entries@), k);
                            let j0 = if j < at { j } else { j + 1 };
                            assert(key_texts(entries@)[j] == entries@[j].0@);
                            assert(map_of(entries@)[entries@[j].0@] == entries@[j].1);
                            assert(entries@[j] == before[j0]);
                            assert(map_of(before)[before[j0].0@] == before[j0].1);
                        }
                    }
                }
                Some(entry.1)
            },
            None => None,
        };
        core::mem::swap(&mut self.entries, &mut entries);
        r
    }

    /// Takes every key out of the map.
    pub fn clear(&mut self)
        ensures
            final(self)@ == Map::<Seq<char>, V>::empty(),
            final(self).key_order() == Seq::<Seq<char>>::empty(),
    {
        let mut entries: Vec<(String, V)> = Vec::new();
        assert(key_texts(entries@) =~= Seq::<Seq<char>>::empty());
        core::mem::swap(&mut self.entries, &mut entries);
        assert(self@ =~= Map::<Seq<char>, V>::empty());
    }

    /// The keys, in the order in which they were first inserted.
    pub fn keys(&self) -> (r: Vec<String>)
        ensures
            r@.map_values(|k: String| k@) == self.key_order(),
            self.key_order().no_duplicates(),
            self.key_order().to_set() == self@.dom(),
    {
        proof {
            use_type_invariant(self);
            lemma_map_of(self.entries@);
        }
        let mut r: Vec<String> = Vec::new();
        let mut i: usize = 0;
        while i < self.entries.len()
            invariant
                i <= self.entries.len(),
                r@.map_values(|k: String| k@) == key_texts(self.entries@).take(i as int),
            decreases self.entries.len() - i,
        {
            let ghost before = r@;
            r.push(self.entries[i].0.clone());
            assert(r@.map_values(|k: String| k@) =~= before.map_values(|k: String| k@).push(
                self.entries@[i as int].0@,
            ));
            assert(key_texts(self.entries@).take(i + 1) =~= key_texts(self.entries@).take(
                i as int,
            ).push(self.entries@[i as int].0@));
            i = i + 1;
        }
        assert(key_texts(self.entries@).take(self.entries@.len() as int) =~= key_texts(
            self.entries@,
        ));
        r
    }
}

} // verus!
