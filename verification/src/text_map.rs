//! A map from texts to values that remembers the order in which its keys came.

use vstd::prelude::*;

use crate::text::same_text;

verus! {

/// A map from texts to values. Each key occurs once; a key keeps its place in
/// the order of keys when its value is replaced.
#[derive(Debug)]
pub struct TextMap<V> {
    entries: Vec<(String, V)>,
}

/// Where a key stands in a list of entries.
spec fn place_of<V>(entries: Seq<(String, V)>, key: Seq<char>) -> int {
    choose|i: int| 0 <= i < entries.len() && (#[trigger] entries[i]).0@ == key
}

spec fn has_key<V>(entries: Seq<(String, V)>, key: Seq<char>) -> bool {
    exists|i: int| 0 <= i < entries.len() && (#[trigger] entries[i]).0@ == key
}

spec fn keys_differ<V>(entries: Seq<(String, V)>) -> bool {
    forall|i: int, j: int|
        0 <= i < entries.len() && 0 <= j < entries.len() && i != j ==> (#[trigger] entries[i]).0@ != (
        #[trigger] entries[j]).0@
}

spec fn map_of<V>(entries: Seq<(String, V)>) -> Map<Seq<char>, V> {
    Map::new(|k: Seq<char>| has_key(entries, k), |k: Seq<char>| entries[place_of(entries, k)].1)
}

spec fn keys_of<V>(entries: Seq<(String, V)>) -> Seq<Seq<char>> {
    entries.map_values(|e: (String, V)| e.0@)
}

/// Each entry is found in the map under its key.
proof fn lemma_entry<V>(entries: Seq<(String, V)>, i: int)
    requires
        keys_differ(entries),
        0 <= i < entries.len(),
    ensures
        map_of(entries).dom().contains(entries[i].0@),
        map_of(entries)[entries[i].0@] == entries[i].1,
{
    let key = entries[i].0@;
    let j = place_of(entries, key);
    assert(0 <= j < entries.len() && entries[j].0@ == key);
}

/// The keys in order are those of the map, each once.
proof fn lemma_keys<V>(entries: Seq<(String, V)>)
    requires
        keys_differ(entries),
    ensures
        keys_of(entries).no_duplicates(),
        keys_of(entries).to_set() == map_of(entries).dom(),
{
    let keys = keys_of(entries);
    assert forall|k: Seq<char>| keys.to_set().contains(k) <==> map_of(entries).dom().contains(k) by {
        if keys.contains(k) {
            let i = choose|i: int| 0 <= i < keys.len() && keys[i] == k;
            assert(entries[i].0@ == k);
        }
        if has_key(entries, k) {
            let i = place_of(entries, k);
            assert(keys[i] == k);
        }
    }
    assert(keys.to_set() =~= map_of(entries).dom());
    assert forall|i: int, j: int| 0 <= i < keys.len() && 0 <= j < keys.len() && i != j implies keys[i]
        != keys[j] by {
        assert(entries[i].0@ != entries[j].0@);
    }
}

impl<V> View for TextMap<V> {
    type V = Map<Seq<char>, V>;

    closed spec fn view(&self) -> Map<Seq<char>, V> {
        map_of(self.entries@)
    }
}

impl<V> TextMap<V> {
    #[verifier::type_invariant]
    spec fn well_formed(self) -> bool {
        keys_differ(self.entries@)
    }

    /// The keys in the order in which they came.
    pub closed spec fn order(self) -> Seq<Seq<char>> {
        keys_of(self.entries@)
    }

    /// An empty map.
    pub fn new() -> (r: Self)
        ensures
            r@ == Map::<Seq<char>, V>::empty(),
            r.order() == Seq::<Seq<char>>::empty(),
    {
        let r = TextMap { entries: Vec::new() };
        proof {
            assert(r@ =~= Map::<Seq<char>, V>::empty());
            assert(r.order() =~= Seq::<Seq<char>>::empty());
        }
        r
    }

    /// The number of keys.
    pub fn len(&self) -> (r: usize)
        ensures
            r == self.order().len(),
            self.order().no_duplicates(),
            self.order().to_set() == self@.dom(),
    {
        proof {
            use_type_invariant(self);
            lemma_keys(self.entries@);
        }
        self.entries.len()
    }

    /// The key at a place in the order.
    pub fn key_at(&self, i: usize) -> (r: &String)
        requires
            i < self.order().len(),
        ensures
            r@ == self.order()[i as int],
    {
        &self.entries[i].0
    }

    /// The value under the key at a place in the order.
    pub fn value_at(&self, i: usize) -> (r: &V)
        requires
            i < self.order().len(),
        ensures
            self@.dom().contains(self.order()[i as int]),
            *r == self@[self.order()[i as int]],
    {
        proof {
            use_type_invariant(self);
            lemma_entry(self.entries@, i as int);
        }
        &self.entries[i].1
    }

    fn find(&self, key: &str) -> (r: Option<usize>)
        ensures
            match r {
                Some(i) => i < self.entries@.len() && self.entries@[i as int].0@ == key@,
                None => !has_key(self.entries@, key@),
            },
    {
        let mut i: usize = 0;
        while i < self.entries.len()
            invariant
                i <= self.entries@.len(),
                forall|j: int| 0 <= j < i ==> (#[trigger] self.entries@[j]).0@ != key@,
            decreases self.entries@.len() - i,
        {
            if same_text(self.entries[i].0.as_str(), key) {
                return Some(i);
            }
            i = i + 1;
        }
        None
    }

    /// The value under a key.
    pub fn get(&self, key: &str) -> (r: Option<&V>)
        ensures
            match r {
                Some(v) => self@.dom().contains(key@) && *v == self@[key@],
                None => !self@.dom().contains(key@),
            },
    {
        match self.find(key) {
            Some(i) => {
                proof {
                    use_type_invariant(self);
                    lemma_entry(self.entries@, i as int);
                }
                Some(&self.entries[i].1)
            },
            None => None,
        }
    }

    /// Whether a key is there.
    pub fn contains_key(&self, key: &str) -> (r: bool)
        ensures
            r == self@.dom().contains(key@),
    {
        match self.find(key) {
            Some(_) => true,
            None => false,
        }
    }

    /// Puts a value under a key, in place of the one that was there.
    pub fn insert(&mut self, key: String, value: V)
        ensures
            final(self)@ == old(self)@.insert(key@, value),
            final(self).order() == if old(self)@.dom().contains(key@) {
                old(self).order()
            } else {
                old(self).order().push(key@)
            },
    {
        proof {
            use_type_invariant(&*self);
        }
        let ghost before = self.entries@;
        let found: Option<usize> = self.find(key.as_str());
        let mut entries: Vec<(String, V)> = Vec::new();
        std::mem::swap(&mut entries, &mut self.entries);
        match found {
            Some(i) => {
                entries.set(i, (key, value));
                proof {
                    let after = entries@;
                    assert(keys_differ(after));
                    assert(keys_of(after) =~= keys_of(before));
                    lemma_entry(before, i as int);
                    assert(map_of(after) =~= map_of(before).insert(key@, value)) by {
                        assert forall|k: Seq<char>| map_of(after).dom().contains(k) <==> map_of(
                            before,
                        ).insert(key@, value).dom().contains(k) by {
                            if has_key(after, k) {
                                let j = place_of(after, k);
                                assert(before[j].0@ == k);
                            }
                            if has_key(before, k) {
                                let j = place_of(before, k);
                                assert(after[j].0@ == k);
                            }
                            assert(after[i as int].0@ == key@);
                        }
                        assert forall|k: Seq<char>| map_of(after).dom().contains(k) implies map_of(
                            after,
                        )[k] == map_of(before).insert(key@, value)[k] by {
                            let j = place_of(after, k);
                            lemma_entry(after, j);
                            if j != i {
                                assert(before[j].0@ == k);
                                lemma_entry(before, j);
                            }
                        }
                    }
                }
            },
            None => {
                entries.push((key, value));
                proof {
                    let after = entries@;
                    let n = before.len() as int;
                    assert(keys_differ(after)) by {
                        assert forall|i: int, j: int|
                            0 <= i < after.len() && 0 <= j < after.len() && i != j implies (
                        #[trigger] after[i]).0@ != (#[trigger] after[j]).0@ by {
                            if i < n {
                                assert(before[i] == after[i]);
                            }
                            if j < n {
                                assert(before[j] == after[j]);
                            }
                        }
                    }
                    assert(keys_of(after) =~= keys_of(before).push(key@));
                    assert(map_of(after) =~= map_of(before).insert(key@, value)) by {
                        assert forall|k: Seq<char>| map_of(after).dom().contains(k) <==> map_of(
                            before,
                        ).insert(key@, value).dom().contains(k) by {
                            if has_key(after, k) {
                                let j = place_of(after, k);
                                if j < n {
                                    assert(before[j].0@ == k);
                                }
                            }
                            if has_key(before, k) {
                                let j = place_of(before, k);
                                assert(after[j].0@ == k);
                            }
                            assert(after[n].0@ == key@);
                        }
                        assert forall|k: Seq<char>| map_of(after).dom().contains(k) implies map_of(
                            after,
                        )[k] == map_of(before).insert(key@, value)[k] by {
                            let j = place_of(after, k);
                            lemma_entry(after, j);
                            if j < n {
                                assert(before[j].0@ == k);
                                lemma_entry(before, j);
                            }
                        }
                    }
                }
            },
        }
        self.entries = entries;
    }

    /// Takes a key and its value out.
    pub fn remove(&mut self, key: &str) -> (r: Option<V>)
        ensures
            final(self)@ == old(self)@.remove(key@),
            match r {
                Some(v) => old(self)@.dom().contains(key@) && v == old(self)@[key@],
                None => !old(self)@.dom().contains(key@),
            },
    {
        proof {
            use_type_invariant(&*self);
        }
        let ghost before = self.entries@;
        let found: Option<usize> = self.find(key);
        match found {
            Some(i) => {
                let mut entries: Vec<(String, V)> = Vec::new();
                std::mem::swap(&mut entries, &mut self.entries);
                let taken: (String, V) = entries.remove(i);
                proof {
                    let after = entries@;
                    assert forall|j: int| 0 <= j < after.len() implies #[trigger] after[j] == before[if j < i {
                        j
                    } else {
                        j + 1
                    }] by {}
                    assert(keys_differ(after));
                    lemma_entry(before, i as int);
                    assert(map_of(after) =~= map_of(before).remove(key@)) by {
                        assert forall|k: Seq<char>| map_of(after).dom().contains(k) <==> map_of(
                            before,
                        ).remove(key@).dom().contains(k) by {
                            if has_key(after, k) {
                                let j = place_of(after, k);
                                let b = if j < i {
                                    j
                                } else {
                                    j + 1
                                };
                                assert(before[b].0@ == k);
                                assert(before[b].0@ != before[i as int].0@);
                            }
                            if has_key(before, k) && k != key@ {
                                let j = place_of(before, k);
                                assert(after[if j < i {
                                    j
                                } else {
                                    j - 1
                                }].0@ == k);
                            }
                        }
                        assert forall|k: Seq<char>| map_of(after).dom().contains(k) implies map_of(
                            after,
                        )[k] == map_of(before).remove(key@)[k] by {
                            let j = place_of(after, k);
                            let b = if j < i {
                                j
                            } else {
                                j + 1
                            };
                            assert(before[b] == after[j]);
                            lemma_entry(after, j);
                            lemma_entry(before, b);
                        }
                    }
                }
                self.entries = entries;
                Some(taken.1)
            },
            None => {
                proof {
                    assert(map_of(before) =~= map_of(before).remove(key@));
                }
                None
            },
        }
    }
}

impl<V: Copy> Clone for TextMap<V> {
    fn clone(&self) -> (r: Self)
        ensures
            r@ == self@,
            r.order() == self.order(),
    {
        proof {
            use_type_invariant(self);
        }
        let mut entries: Vec<(String, V)> = Vec::new();
        for i in 0..self.entries.len()
            invariant
                entries@.len() == i,
                forall|j: int|
                    0 <= j < i ==> (#[trigger] entries@[j]).0@ == self.entries@[j].0@ && entries@[j].1
                        == self.entries@[j].1,
        {
            entries.push((self.entries[i].0.clone(), self.entries[i].1));
        }
        proof {
            lemma_same_entries(self.entries@, entries@);
        }
        TextMap { entries }
    }
}

/// Lists with the same texts and values are the same map.
proof fn lemma_same_entries<V>(a: Seq<(String, V)>, b: Seq<(String, V)>)
    requires
        keys_differ(a),
        a.len() == b.len(),
        forall|i: int| 0 <= i < a.len() ==> (#[trigger] b[i]).0@ == a[i].0@ && b[i].1 == a[i].1,
    ensures
        keys_differ(b),
        map_of(a) == map_of(b),
        keys_of(a) == keys_of(b),
{
    assert(keys_differ(b)) by {
        assert forall|i: int, j: int|
            0 <= i < b.len() && 0 <= j < b.len() && i != j implies (#[trigger] b[i]).0@ != (
        #[trigger] b[j]).0@ by {
            assert(a[i].0@ != a[j].0@);
        }
    }
    assert forall|k: Seq<char>| has_key(a, k) == has_key(b, k) by {
        if has_key(a, k) {
            let i = place_of(a, k);
            assert(b[i].0@ == k);
        }
        if has_key(b, k) {
            let i = place_of(b, k);
            assert(a[i].0@ == k);
        }
    }
    assert forall|k: Seq<char>| has_key(a, k) implies #[trigger] map_of(a)[k] == map_of(b)[k] by {
        let i = place_of(a, k);
        lemma_entry(a, i);
        lemma_entry(b, i);
        assert(b[i].0@ == k);
    }
    assert(map_of(a) =~= map_of(b));
    assert(keys_of(a) =~= keys_of(b));
}

} // verus!
