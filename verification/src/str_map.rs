//! A map from strings to values that keeps its entries in a vector.

use vstd::prelude::*;

verus! {

/// A map from strings to values. Each key occurs in at most one entry.
#[derive(Debug)]
pub struct StrMap<V: View> {
    pub(crate) entries: Vec<(String, V)>,
}

/// The keys of a sequence of entries, in order.
pub closed spec fn keys_of<V>(es: Seq<(String, V)>) -> Seq<Seq<char>> {
    es.map_values(|e: (String, V)| e.0@)
}

/// The map that a sequence of entries with distinct keys spells out.
pub closed spec fn map_from<V: View>(es: Seq<(String, V)>) -> Map<Seq<char>, V::V> {
    Map::new(
        |k: Seq<char>| keys_of(es).contains(k),
        |k: Seq<char>| es[keys_of(es).index_of(k)].1@,
    )
}

/// In a sequence of entries with distinct keys, each entry's key maps to
/// its value, and only the entries' keys are in the map.
proof fn lemma_map_from<V: View>(es: Seq<(String, V)>)
    requires
        keys_of(es).no_duplicates(),
    ensures
        forall|i: int|
            0 <= i < es.len() ==> #[trigger] map_from(es).contains_key(es[i].0@) && map_from(
                es,
            )[es[i].0@] == es[i].1@,
        forall|k: Seq<char>|
            #[trigger] map_from(es).contains_key(k) ==> exists|i: int|
                0 <= i < es.len() && es[i].0@ == k,
{
    assert forall|i: int| 0 <= i < es.len() implies #[trigger] map_from(es).contains_key(
        es[i].0@,
    ) && map_from(es)[es[i].0@] == es[i].1@ by {
        let k = es[i].0@;
        assert(keys_of(es)[i] == k);
        let j = keys_of(es).index_of(k);
        assert(keys_of(es)[j] == k);
    }
    assert forall|k: Seq<char>| #[trigger] map_from(es).contains_key(k) implies exists|i: int|
        0 <= i < es.len() && es[i].0@ == k by {
        let j = keys_of(es).index_of(k);
        assert(keys_of(es)[j] == k);
    }
}

/// Overwriting the value of the entry at `i`, keeping its key.
proof fn lemma_update<V: View>(es: Seq<(String, V)>, i: int, key: String, value: V)
    requires
        keys_of(es).no_duplicates(),
        0 <= i < es.len(),
        es[i].0@ == key@,
    ensures
        keys_of(es.update(i, (key, value))) == keys_of(es),
        map_from(es.update(i, (key, value))) == map_from(es).insert(key@, value@),
{
    let es2 = es.update(i, (key, value));
    assert(keys_of(es2) =~= keys_of(es));
    lemma_map_from(es);
    let m = map_from(es).insert(key@, value@);
    assert forall|k: Seq<char>| #[trigger] map_from(es2).contains_key(k) implies map_from(es2)[k]
        == m[k] by {
        let j = keys_of(es).index_of(k);
        assert(keys_of(es)[j] == k);
        assert(keys_of(es)[i] == key@);
    }
    assert(map_from(es2) =~= m);
}

/// Appending an entry whose key is not there yet.
proof fn lemma_push<V: View>(es: Seq<(String, V)>, key: String, value: V)
    requires
        keys_of(es).no_duplicates(),
        !keys_of(es).contains(key@),
    ensures
        keys_of(es.push((key, value))).no_duplicates(),
        map_from(es.push((key, value))) == map_from(es).insert(key@, value@),
{
    let es2 = es.push((key, value));
    assert(keys_of(es2) =~= keys_of(es).push(key@));
    let m = map_from(es).insert(key@, value@);
    lemma_map_from(es);
    lemma_map_from(es2);
    assert forall|k: Seq<char>| #[trigger] map_from(es2).contains_key(k) <==> m.contains_key(k) by {
        if k != key@ && m.contains_key(k) {
            let a = choose|a: int| 0 <= a < es.len() && es[a].0@ == k;
            assert(es2[a] == es[a]);
        }
        if map_from(es2).contains_key(k) && k != key@ {
            let a = choose|a: int| 0 <= a < es2.len() && es2[a].0@ == k;
            assert(es2[a] == es[a]);
        }
        if k == key@ {
            assert(es2[es.len() as int].0@ == k);
        }
    }
    assert forall|k: Seq<char>| #[trigger] map_from(es2).contains_key(k) implies map_from(es2)[k]
        == m[k] by {
        let a = choose|a: int| 0 <= a < es2.len() && es2[a].0@ == k;
        if a < es.len() {
            assert(es2[a] == es[a]);
        }
    }
    assert(map_from(es2) =~= m);
}

/// Dropping the entry at `i`.
proof fn lemma_remove<V: View>(es: Seq<(String, V)>, i: int)
    requires
        keys_of(es).no_duplicates(),
        0 <= i < es.len(),
    ensures
        keys_of(es.remove(i)).no_duplicates(),
        map_from(es.remove(i)) == map_from(es).remove(es[i].0@),
{
    let es2 = es.remove(i);
    let k0 = es[i].0@;
    assert forall|a: int| 0 <= a < es2.len() implies #[trigger] es2[a] == es[if a < i {
        a
    } else {
        a + 1
    }] by {}
    assert forall|a: int, b: int|
        0 <= a < es2.len() && 0 <= b < es2.len() && a != b implies #[trigger] keys_of(es2)[a]
        != #[trigger] keys_of(es2)[b] by {
        let a1 = if a < i { a } else { a + 1 };
        let b1 = if b < i { b } else { b + 1 };
        assert(keys_of(es)[a1] == es[a1].0@);
        assert(keys_of(es)[b1] == es[b1].0@);
    }
    let m = map_from(es).remove(k0);
    lemma_map_from(es);
    lemma_map_from(es2);
    assert forall|k: Seq<char>| #[trigger] map_from(es2).contains_key(k) <==> m.contains_key(k) by {
        if map_from(es2).contains_key(k) {
            let a = choose|a: int| 0 <= a < es2.len() && es2[a].0@ == k;
            let a1 = if a < i { a } else { a + 1 };
            assert(es2[a] == es[a1]);
            assert(keys_of(es)[a1] == es[a1].0@);
            assert(keys_of(es)[i] == es[i].0@);
        }
        if m.contains_key(k) {
            let a1 = choose|a: int| 0 <= a < es.len() && es[a].0@ == k;
            let a = if a1 < i { a1 } else { a1 - 1 };
            assert(es2[a] == es[a1]);
        }
    }
    assert forall|k: Seq<char>| #[trigger] map_from(es2).contains_key(k) implies map_from(es2)[k]
        == m[k] by {
        let a = choose|a: int| 0 <= a < es2.len() && es2[a].0@ == k;
        let a1 = if a < i { a } else { a + 1 };
        assert(es2[a] == es[a1]);
    }
    assert(map_from(es2) =~= m);
}

impl<V: View> StrMap<V> {
    /// The keys of the entries, in entry order.
    pub closed spec fn keys(&self) -> Seq<Seq<char>> {
        keys_of(self.entries@)
    }

    /// No key occurs twice.
    #[verifier::type_invariant]
    pub closed spec fn keys_distinct(&self) -> bool {
        self.keys().no_duplicates()
    }

    /// The map that the entries spell out.
    pub closed spec fn map_of(&self) -> Map<Seq<char>, V::V> {
        map_from(self.entries@)
    }

    pub(crate) proof fn lemma_entries(&self)
        requires
            self.keys_distinct(),
        ensures
            forall|i: int|
                0 <= i < self.entries.len() ==> #[trigger] self@.contains_key(
                    self.entries@[i].0@,
                ) && self@[self.entries@[i].0@] == self.entries@[i].1@,
            forall|k: Seq<char>|
                #[trigger] self@.contains_key(k) ==> exists|i: int|
                    0 <= i < self.entries.len() && self.entries@[i].0@ == k,
    {
        lemma_map_from(self.entries@);
    }

    /// An empty map.
    pub fn new() -> (r: Self)
        ensures
            r@ == Map::<Seq<char>, V::V>::empty(),
    {
        let r = StrMap { entries: Vec::new() };
        assert(r@ =~= Map::<Seq<char>, V::V>::empty());
        r
    }

    /// The index of the entry whose key is `key`.
    fn find(&self, key: &String) -> (res: Option<usize>)
        ensures
            match res {
                Some(i) => i < self.entries.len() && self.entries@[i as int].0@ == key@,
                None => forall|j: int| 0 <= j < self.entries.len() ==> self.entries@[j].0@ != key@,
            },
    {
        let mut i: usize = 0;
        while i < self.entries.len()
            invariant
                i <= self.entries.len(),
                forall|j: int| 0 <= j < i ==> self.entries@[j].0@ != key@,
            decreases self.entries.len() - i,
        {
            if self.entries[i].0 == *key {
                return Some(i);
            }
            i += 1;
        }
        None
    }

    /// The number of entries.
    pub fn len(&self) -> (n: usize)
        ensures
            n == self@.len(),
    {
        proof {
            use_type_invariant(self);
            self.keys().unique_seq_to_set();
            self.lemma_entries();
            assert forall|k: Seq<char>| self.keys().to_set().contains(k) implies #[trigger] self@.dom().contains(k) by {
                let j = choose|j: int| 0 <= j < self.keys().len() && self.keys()[j] == k;
                assert(self.keys()[j] == self.entries@[j].0@);
            }
            assert forall|k: Seq<char>| #[trigger] self@.dom().contains(k) implies self.keys().to_set().contains(k) by {
                let j = choose|j: int| 0 <= j < self.entries.len() && self.entries@[j].0@ == k;
                assert(self.keys()[j] == self.entries@[j].0@);
            }
            assert(self@.dom() =~= self.keys().to_set());
        }
        self.entries.len()
    }

    /// The value under `key`, if there is one.
    pub fn get(&self, key: &str) -> (res: Option<&V>)
        ensures
            match res {
                Some(v) => self@.contains_key(key@) && v@ == self@[key@],
                None => !self@.contains_key(key@),
            },
    {
        proof {
            use_type_invariant(self);
        }
        let k = key.to_owned();
        proof {
            self.lemma_entries();
        }
        match self.find(&k) {
            Some(i) => {
                Some(&self.entries[i].1)
            },
            None => None,
        }
    }

    /// Puts `value` under `key` and gives back the value that was there.
    pub fn insert(&mut self, key: String, value: V) -> (res: Option<V>)
        ensures
            final(self)@ == old(self)@.insert(key@, value@),
            match res {
                Some(v) => old(self)@.contains_key(key@) && v@ == old(self)@[key@],
                None => !old(self)@.contains_key(key@),
            },
    {
        proof {
            use_type_invariant(&*self);
        }
        let ghost old_map = self@;
        let ghost k = key@;
        let found = self.find(&key);
        let mut entries: Vec<(String, V)> = Vec::new();
        std::mem::swap(&mut entries, &mut self.entries);
        let ghost old_entries = entries@;
        proof {
            lemma_map_from(old_entries);
        }
        let res = match found {
            Some(i) => {
                proof {
                    lemma_update(old_entries, i as int, key, value);
                    assert(map_from(old_entries).contains_key(old_entries[i as int].0@));
                }
                let (_, old_value) = entries.remove(i);
                entries.insert(i, (key, value));
                proof {
                    assert(entries@ =~= old_entries.update(i as int, (key, value)));
                }
                Some(old_value)
            },
            None => {
                proof {
                    assert forall|j: int| 0 <= j < old_entries.len() implies keys_of(old_entries)[j] != k by {
                    }
                    lemma_push(old_entries, key, value);
                }
                entries.push((key, value));
                None
            },
        };
        self.entries = entries;
        res
    }

    /// Takes the value under `key` out of the map, if there is one.
    pub fn remove(&mut self, key: &str) -> (res: Option<V>)
        ensures
            final(self)@ == old(self)@.remove(key@),
            match res {
                Some(v) => old(self)@.contains_key(key@) && v@ == old(self)@[key@],
                None => !old(self)@.contains_key(key@),
            },
    {
        proof {
            use_type_invariant(&*self);
            self.lemma_entries();
        }
        let k = key.to_owned();
        let found = self.find(&k);
        match found {
            Some(i) => {
                let mut entries: Vec<(String, V)> = Vec::new();
                std::mem::swap(&mut entries, &mut self.entries);
                let ghost old_entries = entries@;
                proof {
                    lemma_map_from(old_entries);
                    lemma_remove(old_entries, i as int);
                    assert(map_from(old_entries).contains_key(old_entries[i as int].0@));
                }
                let (_, old_value) = entries.remove(i);
                self.entries = entries;
                Some(old_value)
            },
            None => {
                proof {
                    assert(old(self)@.remove(key@) =~= old(self)@);
                }
                None
            },
        }
    }
}

impl<V: View> View for StrMap<V> {
    type V = Map<Seq<char>, V::V>;

    open spec fn view(&self) -> Map<Seq<char>, V::V> {
        self.map_of()
    }
}

} // verus!
