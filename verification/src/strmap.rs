//! A map keyed by strings, kept as a list of distinct keys in insertion order.
//!
//! Environment variables, metadata and per-step figures are string-keyed
//! tables; this type gives them a `Map<Seq<char>, V>` view.
use vstd::prelude::*;
use crate::text::str_eq;

verus! {

/// The map denoted by a list of key/value pairs (a later pair overrides an
/// earlier one with the same key).
pub open spec fn pairs_map<V>(s: Seq<(String, V)>) -> Map<Seq<char>, V>
    decreases s.len(),
{
    if s.len() == 0 {
        Map::empty()
    } else {
        pairs_map(s.drop_last()).insert(s.last().0@, s.last().1)
    }
}

/// No key occurs twice in the list.
pub open spec fn keys_distinct<V>(s: Seq<(String, V)>) -> bool {
    forall|i: int, j: int| 0 <= i < j < s.len() ==> s[i].0@ != s[j].0@
}

/// Keys of the list, in order.
pub open spec fn pair_keys<V>(s: Seq<(String, V)>) -> Seq<Seq<char>> {
    Seq::new(s.len(), |i: int| s[i].0@)
}

/// A key not carried by any pair is absent from the map.
pub proof fn lemma_pairs_map_absent<V>(s: Seq<(String, V)>, k: Seq<char>)
    requires
        forall|i: int| 0 <= i < s.len() ==> s[i].0@ != k,
    ensures
        !pairs_map(s).contains_key(k),
    decreases s.len(),
{
    if s.len() > 0 {
        lemma_pairs_map_absent(s.drop_last(), k);
    }
}

/// With distinct keys, the map sends each key to the value of its pair.
pub proof fn lemma_pairs_map_at<V>(s: Seq<(String, V)>, i: int)
    requires
        keys_distinct(s),
        0 <= i < s.len(),
    ensures
        pairs_map(s).contains_key(s[i].0@),
        pairs_map(s)[s[i].0@] == s[i].1,
    decreases s.len(),
{
    if i < s.len() - 1 {
        lemma_pairs_map_at(s.drop_last(), i);
    }
}

/// The domain of the map is the set of keys of the list.
pub proof fn lemma_pairs_map_dom<V>(s: Seq<(String, V)>)
    ensures
        pairs_map(s).dom() == pair_keys(s).to_set(),
        pairs_map(s).dom().finite(),
    decreases s.len(),
{
    if s.len() > 0 {
        lemma_pairs_map_dom(s.drop_last());
        let pk = pair_keys(s.drop_last());
        assert(pair_keys(s) =~= pk + seq![s.last().0@]);
        Seq::lemma_to_set_insert_commutes(pk, s.last().0@);
        assert(pairs_map(s).dom() =~= pair_keys(s).to_set());
    } else {
        assert(pair_keys(s).to_set() =~= Set::empty());
    }
}

/// With distinct keys, the map has as many entries as the list.
pub proof fn lemma_pairs_map_len<V>(s: Seq<(String, V)>)
    requires
        keys_distinct(s),
    ensures
        pairs_map(s).len() == s.len(),
    decreases s.len(),
{
    if s.len() > 0 {
        let t = s.drop_last();
        lemma_pairs_map_len(t);
        lemma_pairs_map_dom(t);
        lemma_pairs_map_absent(t, s.last().0@);
    }
}

/// A string-keyed map with distinct keys held in insertion order.
#[derive(Debug)]
pub struct StrMap<V> {
    entries: Vec<(String, V)>,
}

impl<V> View for StrMap<V> {
    type V = Map<Seq<char>, V>;

    closed spec fn view(&self) -> Map<Seq<char>, V> {
        pairs_map(self.entries@)
    }
}

impl<V> StrMap<V> {
    #[verifier::type_invariant]
    spec fn distinct(self) -> bool {
        keys_distinct(self.entries@)
    }

    /// The keys in insertion order.
    pub closed spec fn key_order(self) -> Seq<Seq<char>> {
        pair_keys(self.entries@)
    }

    /// The value stored at position `i` of the insertion order.
    pub closed spec fn value_order(self, i: int) -> V {
        self.entries@[i].1
    }

    /// The map formed by the first `i` entries of the insertion order.
    pub closed spec fn prefix_view(self, i: int) -> Map<Seq<char>, V> {
        pairs_map(self.entries@.subrange(0, i))
    }

    /// Adding the entry at position `i` to the first `i` entries.
    pub proof fn lemma_prefix_step(self, i: int)
        requires
            0 <= i < self.key_order().len(),
        ensures
            self.prefix_view(i + 1) == self.prefix_view(i).insert(
                self.key_order()[i],
                self.value_order(i),
            ),
    {
        assert(self.entries@.subrange(0, i + 1).drop_last() =~= self.entries@.subrange(0, i));
    }

    /// All entries together form the whole map.
    pub proof fn lemma_prefix_full(self)
        ensures
            self.prefix_view(self.key_order().len() as int) == self@,
    {
        assert(self.entries@.subrange(0, self.entries@.len() as int) =~= self.entries@);
    }

    /// An empty map.
    pub fn new() -> (r: Self)
        ensures
            r@ == Map::<Seq<char>, V>::empty(),
            r.key_order().len() == 0,
    {
        let r = StrMap { entries: Vec::new() };
        assert(pair_keys(r.entries@) =~= Seq::<Seq<char>>::empty());
        r
    }

    /// Number of entries; also relates the insertion order to the map.
    pub fn len(&self) -> (r: usize)
        ensures
            r == self@.len(),
            r == self.key_order().len(),
            self.key_order().no_duplicates(),
            self@.dom() == self.key_order().to_set(),
            self@.dom().finite(),
            forall|i: int|
                0 <= i < self.key_order().len() ==> #[trigger] self@[self.key_order()[i]]
                    == self.value_order(i),
    {
        proof {
            use_type_invariant(self);
            lemma_pairs_map_dom(self.entries@);
            lemma_pairs_map_len(self.entries@);
            assert forall|i: int| 0 <= i < self.key_order().len() implies #[trigger] self@[self.key_order()[i]]
                == self.value_order(i) by {
                lemma_pairs_map_at(self.entries@, i);
            }
        }
        self.entries.len()
    }

    /// True when there are no entries.
    pub fn is_empty(&self) -> (r: bool)
        ensures
            r == (self@.len() == 0),
    {
        self.len() == 0
    }

    /// Position of `key` in the insertion order, if present.
    fn find(&self, key: &str) -> (r: Option<usize>)
        ensures
            match r {
                Some(i) => i < self.entries@.len() && self.entries@[i as int].0@ == key@,
                None => forall|i: int| 0 <= i < self.entries@.len() ==> self.entries@[i].0@ != key@,
            },
    {
        let mut i: usize = 0;
        while i < self.entries.len()
            invariant
                i <= self.entries@.len(),
                forall|j: int| 0 <= j < i ==> self.entries@[j].0@ != key@,
            decreases self.entries@.len() - i,
        {
            if str_eq(self.entries[i].0.as_str(), key) {
                return Some(i);
            }
            i = i + 1;
        }
        None
    }

    /// True when `key` has an entry.
    pub fn contains_key(&self, key: &str) -> (r: bool)
        ensures
            r == self@.contains_key(key@),
    {
        proof {
            use_type_invariant(self);
        }
        match self.find(key) {
            Some(i) => {
                proof {
                    lemma_pairs_map_at(self.entries@, i as int);
                }
                true
            },
            None => {
                proof {
                    lemma_pairs_map_absent(self.entries@, key@);
                }
                false
            },
        }
    }

    /// The value stored for `key`, if any.
    pub fn get(&self, key: &str) -> (r: Option<&V>)
        ensures
            match r {
                Some(v) => self@.contains_key(key@) && self@[key@] == *v,
                None => !self@.contains_key(key@),
            },
    {
        proof {
            use_type_invariant(self);
        }
        match self.find(key) {
            Some(i) => {
                proof {
                    lemma_pairs_map_at(self.entries@, i as int);
                }
                Some(&self.entries[i].1)
            },
            None => {
                proof {
                    lemma_pairs_map_absent(self.entries@, key@);
                }
                None
            },
        }
    }

    /// The key at position `i` of the insertion order.
    pub fn key_at(&self, i: usize) -> (r: &String)
        requires
            i < self.key_order().len(),
        ensures
            r@ == self.key_order()[i as int],
    {
        &self.entries[i].0
    }

    /// The value at position `i` of the insertion order.
    pub fn value_at(&self, i: usize) -> (r: &V)
        requires
            i < self.key_order().len(),
        ensures
            *r == self.value_order(i as int),
    {
        &self.entries[i].1
    }

    /// Sets the value of `key`, keeping its position if it is already present
    /// and appending it otherwise.
    pub fn insert(&mut self, key: String, value: V)
        ensures
            final(self)@ == old(self)@.insert(key@, value),
            old(self)@.contains_key(key@) ==> final(self).key_order() == old(self).key_order(),
            !old(self)@.contains_key(key@) ==> final(self).key_order() == old(
                self,
            ).key_order().push(key@),
    {
        proof {
            use_type_invariant(&*self);
        }
        let ghost old_entries = self.entries@;
        match self.find(key.as_str()) {
            Some(i) => {
                proof {
                    lemma_pairs_map_at(old_entries, i as int);
                }
                let ghost k = key@;
                let mut entries: Vec<(String, V)> = Vec::new();
                std::mem::swap(&mut entries, &mut self.entries);
                entries.set(i, (key, value));
                self.entries = entries;
                proof {
                    let s = self.entries@;
                    assert(s == old_entries.update(i as int, s[i as int]));
                    assert(keys_distinct(s));
                    assert forall|k2: Seq<char>|
                        #![trigger pairs_map(s).contains_key(k2)]
                        pairs_map(s).contains_key(k2) == pairs_map(old_entries).insert(
                            k,
                            value,
                        ).contains_key(k2) && (pairs_map(s).contains_key(k2) ==> pairs_map(s)[k2]
                            == pairs_map(old_entries).insert(k, value)[k2]) by {
                        if exists|j: int| 0 <= j < s.len() && s[j].0@ == k2 {
                            let j = choose|j: int| 0 <= j < s.len() && s[j].0@ == k2;
                            lemma_pairs_map_at(s, j);
                            if j != i {
                                lemma_pairs_map_at(old_entries, j);
                            }
                        } else {
                            lemma_pairs_map_absent(s, k2);
                            assert forall|j: int| 0 <= j < old_entries.len() implies old_entries[j].0@
                                != k2 by {
                                if j != i {
                                    assert(s[j] == old_entries[j]);
                                }
                            }
                            lemma_pairs_map_absent(old_entries, k2);
                        }
                    }
                    assert(pairs_map(s) =~= pairs_map(old_entries).insert(k, value));
                    assert(pair_keys(s) =~= pair_keys(old_entries));
                }
            },
            None => {
                proof {
                    lemma_pairs_map_absent(old_entries, key@);
                }
                let mut entries: Vec<(String, V)> = Vec::new();
                std::mem::swap(&mut entries, &mut self.entries);
                entries.push((key, value));
                proof {
                    assert(entries@.drop_last() =~= old_entries);
                    assert(keys_distinct(entries@));
                }
                self.entries = entries;
                proof {
                    let s = self.entries@;
                    assert(s.drop_last() =~= old_entries);
                    assert(pair_keys(s) =~= pair_keys(old_entries).push(s.last().0@));
                }
            },
        }
    }
}

impl<V: Clone> Clone for StrMap<V> {
    /// Copies the map, keeping the keys and their order; each value is
    /// copied with its own `clone`.
    fn clone(&self) -> (r: Self)
        ensures
            r.key_order() == self.key_order(),
    {
        proof {
            use_type_invariant(self);
        }
        let mut entries: Vec<(String, V)> = Vec::new();
        let mut i: usize = 0;
        while i < self.entries.len()
            invariant
                i <= self.entries@.len(),
                keys_distinct(self.entries@),
                entries@.len() == i,
                forall|j: int| 0 <= j < i ==> #[trigger] entries@[j].0@ == self.entries@[j].0@,
            decreases self.entries@.len() - i,
        {
            let k = self.entries[i].0.clone();
            let v = self.entries[i].1.clone();
            entries.push((k, v));
            i = i + 1;
        }
        assert(pair_keys(entries@) =~= pair_keys(self.entries@));
        StrMap { entries }
    }
}

impl StrMap<String> {
    /// Inserts every entry of `other`, overriding existing keys.
    pub fn extend_from(&mut self, other: &StrMap<String>)
        ensures
            final(self)@ == old(self)@.union_prefer_right(other@),
    {
        let n = other.len();
        let mut i: usize = 0;
        let ghost start = self@;
        assert(other.prefix_view(0) =~= Map::<Seq<char>, String>::empty());
        assert(start.union_prefer_right(other.prefix_view(0)) =~= start);
        while i < n
            invariant
                n == other.key_order().len(),
                i <= n,
                self@ == start.union_prefer_right(other.prefix_view(i as int)),
            decreases n - i,
        {
            let k = other.key_at(i).clone();
            let v = other.value_at(i).clone();
            proof {
                other.lemma_prefix_step(i as int);
            }
            self.insert(k, v);
            assert(self@ =~= start.union_prefer_right(other.prefix_view(i + 1)));
            i = i + 1;
        }
        proof {
            other.lemma_prefix_full();
        }
    }
}

impl<V> StrMap<V> {
    /// The map of a list of key/value pairs, a later pair overriding an
    /// earlier one with the same key.
    pub fn from_pairs(pairs: Vec<(String, V)>) -> (r: Self)
        ensures
            r@ == pairs_map(pairs@),
    {
        let mut m: StrMap<V> = StrMap::new();
        let mut rest = pairs;
        let ghost all = rest@;
        let mut i: usize = 0;
        assert(all.len() == rest.len());
        assert(all.subrange(0, 0) =~= Seq::<(String, V)>::empty());
        assert(rest@ =~= all.subrange(0, all.len() as int));
        while rest.len() > 0
            invariant
                i <= all.len(),
                all.len() <= usize::MAX,
                rest@ == all.subrange(i as int, all.len() as int),
                m@ == pairs_map(all.subrange(0, i as int)),
            decreases rest@.len(),
        {
            let (k, v) = rest.remove(0);
            proof {
                assert(all.subrange(0, i + 1).drop_last() =~= all.subrange(0, i as int));
                assert(all.subrange(0, i + 1).last() == all[i as int]);
                assert(rest@ =~= all.subrange(i + 1, all.len() as int));
            }
            m.insert(k, v);
            i = i + 1;
        }
        assert(all.subrange(0, all.len() as int) =~= all);
        m
    }
}


/// Law: after a value is inserted under a key, reading that key gives the
/// value, and every other key reads as before.
pub proof fn law_read_after_insert<V>(m: Map<Seq<char>, V>, k: Seq<char>, v: V, other: Seq<char>)
    ensures
        m.insert(k, v).dom().contains(k),
        m.insert(k, v)[k] == v,
        other != k ==> (m.insert(k, v).dom().contains(other) == m.dom().contains(other)),
        other != k && m.dom().contains(other) ==> m.insert(k, v)[other] == m[other],
{
}

} // verus!
