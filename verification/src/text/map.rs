//! Maps whose keys are texts, in ascending order.

use vstd::prelude::*;
use crate::text::chars::{copied, same_text};
use crate::text::order::{
    comes_before, is_ascending, lemma_text_before_irreflexive, lemma_text_before_total,
    lemma_text_before_transitive, text_before,
};

verus! {

/// A map from texts to values, kept in ascending order of its keys.
#[derive(Debug)]
pub struct TextMap<V> {
    entries: Vec<(String, V)>,
}

/// The keys of a list of entries.
spec fn entry_keys<V>(entries: Seq<(String, V)>) -> Seq<Seq<char>> {
    Seq::new(entries.len(), |i: int| entries[i].0@)
}

/// The map that a list of entries holds.
spec fn entry_map<V>(entries: Seq<(String, V)>) -> Map<Seq<char>, V>
    decreases entries.len(),
{
    if entries.len() == 0 {
        Map::empty()
    } else {
        entry_map(entries.drop_last()).insert(entries.last().0@, entries.last().1)
    }
}

/// The keys are those of the map, in ascending order.
pub open spec fn is_listing<V>(keys: Seq<Seq<char>>, map: Map<Seq<char>, V>) -> bool {
    is_ascending(keys) && keys.to_set() == map.dom()
}

proof fn lemma_ascending_prefix<V>(entries: Seq<(String, V)>)
    requires
        entries.len() > 0,
        is_ascending(entry_keys(entries)),
    ensures
        is_ascending(entry_keys(entries.drop_last())),
{
    let keys = entry_keys(entries);
    let front = entry_keys(entries.drop_last());
    assert forall|i: int, j: int| 0 <= i < j < front.len() implies text_before(
        #[trigger] front[i],
        #[trigger] front[j],
    ) by {
        assert(front[i] == keys[i] && front[j] == keys[j]);
    }
}

/// The map holds exactly the entries.
proof fn lemma_entry_map<V>(entries: Seq<(String, V)>)
    requires
        is_ascending(entry_keys(entries)),
    ensures
        entry_keys(entries).to_set() == entry_map(entries).dom(),
        forall|i: int|
            0 <= i < entries.len() ==> entry_map(entries)[(#[trigger] entries[i]).0@]
                == entries[i].1,
    decreases entries.len(),
{
    let keys = entry_keys(entries);
    if entries.len() == 0 {
        assert(keys.to_set() =~= Set::<Seq<char>>::empty());
    } else {
        let front = entries.drop_last();
        let n = entries.len() - 1;
        lemma_ascending_prefix(entries);
        lemma_entry_map(front);
        assert forall|k: Seq<char>| keys.to_set().contains(k) == entry_keys(
            front,
        ).to_set().insert(entries.last().0@).contains(k) by {
            if keys.contains(k) {
                let i = choose|i: int| 0 <= i < keys.len() && keys[i] == k;
                if i < n {
                    assert(entry_keys(front)[i] == k);
                }
            }
            if entry_keys(front).contains(k) {
                let i = choose|i: int| 0 <= i < n && entry_keys(front)[i] == k;
                assert(keys[i] == k);
            }
            assert(keys[n] == entries.last().0@);
        }
        assert(keys.to_set() =~= entry_map(entries).dom());
        assert forall|i: int| 0 <= i < entries.len() implies entry_map(
            entries,
        )[(#[trigger] entries[i]).0@] == entries[i].1 by {
            if i < n {
                assert(front[i] == entries[i]);
                assert(text_before(keys[i], keys[n]));
                lemma_text_before_irreflexive(keys[n]);
            }
        }
    }
}

/// A map is determined by its ascending entries.
proof fn lemma_same_map<V>(entries: Seq<(String, V)>, map: Map<Seq<char>, V>)
    requires
        is_ascending(entry_keys(entries)),
        entry_keys(entries).to_set() == map.dom(),
        forall|i: int| 0 <= i < entries.len() ==> map[(#[trigger] entries[i]).0@] == entries[i].1,
    ensures
        entry_map(entries) == map,
{
    lemma_entry_map(entries);
    assert forall|k: Seq<char>| map.dom().contains(k) implies entry_map(entries)[k]
        == map[k] by {
        assert(entry_keys(entries).contains(k));
        let i = choose|i: int| 0 <= i < entries.len() && entry_keys(entries)[i] == k;
        assert(entries[i].0@ == k);
    }
    assert(entry_map(entries) =~= map);
}

impl<V> View for TextMap<V> {
    type V = Map<Seq<char>, V>;

    closed spec fn view(&self) -> Map<Seq<char>, V> {
        entry_map(self.entries@)
    }
}

impl<V> TextMap<V> {
    /// The keys, in order.
    pub closed spec fn keys(&self) -> Seq<Seq<char>> {
        entry_keys(self.entries@)
    }

    #[verifier::type_invariant]
    spec fn ascending(self) -> bool {
        is_ascending(entry_keys(self.entries@))
    }

    /// The empty map.
    pub fn new() -> (r: Self)
        ensures
            r@ == Map::<Seq<char>, V>::empty(),
    {
        TextMap { entries: Vec::new() }
    }

    /// The number of entries.
    pub fn len(&self) -> (r: usize)
        ensures
            r == self.keys().len(),
            is_listing(self.keys(), self@),
    {
        proof {
            use_type_invariant(self);
            lemma_entry_map(self.entries@);
        }
        self.entries.len()
    }

    /// The key at a position.
    pub fn key_at(&self, i: usize) -> (r: &String)
        requires
            i < self.keys().len(),
        ensures
            r@ == self.keys()[i as int],
    {
        &self.entries[i].0
    }

    /// The value at a position.
    pub fn value_at(&self, i: usize) -> (r: &V)
        requires
            i < self.keys().len(),
        ensures
            self@.dom().contains(self.keys()[i as int]),
            *r == self@[self.keys()[i as int]],
    {
        proof {
            use_type_invariant(self);
            lemma_entry_map(self.entries@);
            assert(self.entries@[i as int].0@ == self.keys()[i as int]);
            assert(self.keys().to_set().contains(self.keys()[i as int]));
        }
        &self.entries[i].1
    }

    /// The first position whose key does not come before `key`.
    fn position(&self, key: &str) -> (r: usize)
        ensures
            r <= self.keys().len(),
            forall|j: int| 0 <= j < r ==> text_before(#[trigger] self.keys()[j], key@),
            r < self.keys().len() ==> !text_before(self.keys()[r as int], key@),
    {
        let mut k: usize = 0;
        while k < self.entries.len() && comes_before(self.entries[k].0.as_str(), key)
            invariant
                k <= self.entries@.len(),
                forall|j: int| 0 <= j < k ==> text_before(#[trigger] self.keys()[j], key@),
            decreases self.entries@.len() - k,
        {
            assert(self.keys()[k as int] == self.entries@[k as int].0@);
            k += 1;
        }
        proof {
            if k < self.entries@.len() {
                assert(self.keys()[k as int] == self.entries@[k as int].0@);
            }
        }
        k
    }

    /// The value under a key.
    pub fn get(&self, key: &str) -> (r: Option<&V>)
        ensures
            match r {
                Some(v) => self@.dom().contains(key@) && *v == self@[key@],
                None => !self@.dom().contains(key@),
            },
    {
        proof {
            use_type_invariant(self);
            lemma_entry_map(self.entries@);
        }
        let k: usize = self.position(key);
        if k < self.entries.len() && same_text(self.entries[k].0.as_str(), key) {
            assert(self.keys()[k as int] == self.entries@[k as int].0@);
            assert(self.keys().to_set().contains(key@));
            Some(&self.entries[k].1)
        } else {
            proof {
                if k < self.entries@.len() {
                    assert(self.keys()[k as int] == self.entries@[k as int].0@);
                }
                lemma_absent_key(self.keys(), key@, k as int);
                assert(!self.keys().to_set().contains(key@));
            }
            None
        }
    }

    /// Sets the value under a key.
    pub fn insert(&mut self, key: String, value: V)
        ensures
            final(self)@ == old(self)@.insert(key@, value),
    {
        proof {
            use_type_invariant(&*self);
            lemma_entry_map(self.entries@);
        }
        let k: usize = self.position(key.as_str());
        let ghost before = self.entries@;
        let ghost keys = self.keys();
        let ghost map = self@.insert(key@, value);
        let ghost name = key@;
        let mut entries: Vec<(String, V)> = Vec::new();
        std::mem::swap(&mut entries, &mut self.entries);
        if k < entries.len() && same_text(entries[k].0.as_str(), key.as_str()) {
            assert(keys[k as int] == before[k as int].0@);
            entries[k] = (key, value);
            proof {
                let after = entries@;
                assert(entry_keys(after) =~= keys);
                assert(keys.to_set().contains(name));
                assert(map.dom() =~= keys.to_set());
                assert forall|i: int| 0 <= i < after.len() implies map[(#[trigger] after[i]).0@]
                    == after[i].1 by {
                    if i != k {
                        assert(after[i] == before[i]);
                        assert(keys[i] == before[i].0@);
                        if i < k {
                            assert(text_before(keys[i], keys[k as int]));
                        } else {
                            assert(text_before(keys[k as int], keys[i]));
                        }
                        lemma_text_before_irreflexive(name);
                    }
                }
                lemma_same_map(after, map);
            }
        } else {
            proof {
                if k < before.len() {
                    assert(keys[k as int] == before[k as int].0@);
                }
                assert(keys == entry_keys(before));
                lemma_absent_key(keys, name, k as int);
            }
            entries.insert(k, (key, value));
            proof {
                let after = entries@;
                let grown = entry_keys(after);
                assert(grown =~= keys.insert(k as int, name));
                assert forall|i: int, j: int| 0 <= i < j < grown.len() implies text_before(
                    #[trigger] grown[i],
                    #[trigger] grown[j],
                ) by {
                    let a = if i <= k {
                        i
                    } else {
                        i - 1
                    };
                    let b = if j <= k {
                        j
                    } else {
                        j - 1
                    };
                    assert(i != k ==> grown[i] == keys[a]);
                    assert(j != k ==> grown[j] == keys[b]);
                }
                assert forall|t: Seq<char>| grown.to_set().contains(t) == map.dom().contains(t) by {
                    if keys.contains(t) {
                        let i = choose|i: int| 0 <= i < keys.len() && keys[i] == t;
                        if i < k {
                            assert(grown[i] == t);
                        } else {
                            assert(grown[i + 1] == t);
                        }
                    }
                    if grown.contains(t) {
                        let i = choose|i: int| 0 <= i < grown.len() && grown[i] == t;
                        if i < k {
                            assert(keys[i] == t);
                        } else if i > k {
                            assert(keys[i - 1] == t);
                        }
                    }
                    assert(grown[k as int] == name);
                    assert(keys.to_set().contains(t) == keys.contains(t));
                }
                assert(grown.to_set() =~= map.dom());
                assert forall|i: int| 0 <= i < after.len() implies map[(#[trigger] after[i]).0@]
                    == after[i].1 by {
                    if i < k {
                        assert(after[i] == before[i]);
                        assert(keys[i] == before[i].0@);
                        assert(keys.contains(keys[i]));
                    } else if i > k {
                        assert(after[i] == before[i - 1]);
                        assert(keys[i - 1] == before[i - 1].0@);
                        assert(keys.contains(keys[i - 1]));
                    }
                }
                lemma_same_map(after, map);
            }
        }
        self.entries = entries;
    }

    /// Removes a key.
    pub fn remove(&mut self, key: &str)
        ensures
            final(self)@ == old(self)@.remove(key@),
    {
        proof {
            use_type_invariant(&*self);
            lemma_entry_map(self.entries@);
        }
        let k: usize = self.position(key);
        let ghost before = self.entries@;
        let ghost keys = self.keys();
        let ghost map = self@.remove(key@);
        if k < self.entries.len() && same_text(self.entries[k].0.as_str(), key) {
            let mut entries: Vec<(String, V)> = Vec::new();
            std::mem::swap(&mut entries, &mut self.entries);
            assert(keys[k as int] == before[k as int].0@);
            let _removed: (String, V) = entries.remove(k);
            proof {
                let after = entries@;
                let shrunk = entry_keys(after);
                assert(shrunk =~= keys.remove(k as int));
                assert forall|i: int, j: int| 0 <= i < j < shrunk.len() implies text_before(
                    #[trigger] shrunk[i],
                    #[trigger] shrunk[j],
                ) by {
                    let a = if i < k {
                        i
                    } else {
                        i + 1
                    };
                    let b = if j < k {
                        j
                    } else {
                        j + 1
                    };
                    assert(shrunk[i] == keys[a] && shrunk[j] == keys[b]);
                }
                lemma_text_before_irreflexive(key@);
                assert forall|t: Seq<char>| shrunk.to_set().contains(t) == map.dom().contains(t) by {
                    if keys.contains(t) && t != key@ {
                        let i = choose|i: int| 0 <= i < keys.len() && keys[i] == t;
                        if i < k {
                            assert(shrunk[i] == t);
                        } else {
                            assert(shrunk[i - 1] == t);
                        }
                    }
                    if shrunk.contains(t) {
                        let i = choose|i: int| 0 <= i < shrunk.len() && shrunk[i] == t;
                        if i < k {
                            assert(keys[i] == t);
                            assert(text_before(keys[i], keys[k as int]));
                        } else {
                            assert(keys[i + 1] == t);
                            assert(text_before(keys[k as int], keys[i + 1]));
                        }
                        assert(keys.contains(t));
                    }
                    assert(keys.to_set().contains(t) == keys.contains(t));
                }
                assert(shrunk.to_set() =~= map.dom());
                assert forall|i: int| 0 <= i < after.len() implies map[(#[trigger] after[i]).0@]
                    == after[i].1 by {
                    let a = if i < k {
                        i
                    } else {
                        i + 1
                    };
                    assert(after[i] == before[a]);
                    assert(shrunk[i] == after[i].0@);
                    assert(shrunk.to_set().contains(shrunk[i]));
                }
                lemma_same_map(after, map);
            }
            self.entries = entries;
        } else {
            proof {
                if k < before.len() {
                    assert(keys[k as int] == before[k as int].0@);
                }
                lemma_absent_key(keys, key@, k as int);
                assert(!keys.to_set().contains(key@));
                assert(map =~= self@);
            }
        }
    }
}

/// A key that is not at its position is not there.
proof fn lemma_absent_key(keys: Seq<Seq<char>>, key: Seq<char>, k: int)
    requires
        is_ascending(keys),
        0 <= k <= keys.len(),
        forall|j: int| 0 <= j < k ==> text_before(#[trigger] keys[j], key),
        k < keys.len() ==> !text_before(keys[k], key) && keys[k] != key,
    ensures
        !keys.contains(key),
        forall|j: int| k <= j < keys.len() ==> text_before(key, #[trigger] keys[j]),
{
    lemma_text_before_irreflexive(key);
    if k < keys.len() {
        lemma_text_before_total(keys[k], key);
    }
    assert forall|j: int| k <= j < keys.len() implies text_before(key, #[trigger] keys[j]) by {
        if j > k {
            lemma_text_before_transitive(key, keys[k], keys[j]);
        }
    }
    assert forall|j: int| 0 <= j < keys.len() implies keys[j] != key by {
        if j < k {
            assert(text_before(keys[j], key));
        } else {
            assert(text_before(key, keys[j]));
        }
    }
}

/// The texts that a map of texts holds.
pub open spec fn text_entries(m: TextMap<String>) -> Map<Seq<char>, Seq<char>> {
    Map::new(|k: Seq<char>| m@.dom().contains(k), |k: Seq<char>| m@[k]@)
}

/// The text under a key.
pub open spec fn text_under(m: Map<Seq<char>, Seq<char>>, key: Seq<char>) -> Option<Seq<char>> {
    if m.dom().contains(key) {
        Some(m[key])
    } else {
        None
    }
}

/// The entries of a map of texts, in the order of their keys.
pub open spec fn text_pairs(m: TextMap<String>) -> Seq<(Seq<char>, Seq<char>)> {
    Seq::new(m.keys().len(), |i: int| (m.keys()[i], m@[m.keys()[i]]@))
}

/// A copy of a map of texts.
pub fn copied_map(m: &TextMap<String>) -> (r: TextMap<String>)
    ensures
        text_entries(r) == text_entries(*m),
{
    let mut r: TextMap<String> = TextMap::new();
    let n: usize = m.len();
    let ghost keys = m.keys();
    let mut i: usize = 0;
    while i < n
        invariant
            i <= n,
            n == m.keys().len(),
            keys == m.keys(),
            is_listing(keys, m@),
            forall|k: Seq<char>|
                #[trigger] r@.dom().contains(k) <==> exists|j: int| 0 <= j < i && keys[j] == k,
            forall|k: Seq<char>| #[trigger] r@.dom().contains(k) ==> r@[k]@ == m@[k]@,
        decreases n - i,
    {
        let ghost before = r@;
        let key: String = copied(m.key_at(i));
        let value: String = copied(m.value_at(i));
        r.insert(key, value);
        proof {
            assert forall|k: Seq<char>|
                #[trigger] r@.dom().contains(k) <==> exists|j: int|
                    0 <= j < i + 1 && keys[j] == k by {
                if before.dom().contains(k) {
                    let j = choose|j: int| 0 <= j < i && keys[j] == k;
                    assert(keys[j] == k);
                }
                if exists|j: int| 0 <= j < i + 1 && keys[j] == k {
                    let j = choose|j: int| 0 <= j < i + 1 && keys[j] == k;
                    if j < i {
                        assert(before.dom().contains(k));
                    }
                }
                assert(keys[i as int] == key@);
            }
        }
        i += 1;
    }
    proof {
        assert forall|k: Seq<char>| r@.dom().contains(k) == m@.dom().contains(k) by {
            assert(keys.to_set().contains(k) == keys.contains(k));
        }
        assert(text_entries(r) =~= text_entries(*m));
    }
    r
}

} // verus!
