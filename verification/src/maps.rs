//! Small association maps that keep their entries in insertion order.
//!
//! The bot keys most of its records either by a Discord id (`u64`) or by a
//! name (`String`).  `KeyMap` stores the pairs in a `Vec`, keeps every key
//! unique, and exposes the contents as a mathematical `Map` over the keys'
//! views.
use vstd::prelude::*;

verus! {

/// A key type whose equality is decided by its view.
pub trait MapKey: View + Sized {
    fn key_eq(&self, other: &Self) -> (r: bool)
        ensures
            r == (self@ == other@),
    ;

    fn key_clone(&self) -> (r: Self)
        ensures
            r@ == self@,
    ;
}

impl MapKey for u64 {
    fn key_eq(&self, other: &Self) -> (r: bool) {
        *self == *other
    }

    fn key_clone(&self) -> (r: Self) {
        *self
    }
}

impl MapKey for i64 {
    fn key_eq(&self, other: &Self) -> (r: bool) {
        *self == *other
    }

    fn key_clone(&self) -> (r: Self) {
        *self
    }
}

impl MapKey for String {
    fn key_eq(&self, other: &Self) -> (r: bool) {
        *self == *other
    }

    fn key_clone(&self) -> (r: Self) {
        self.clone()
    }
}

/// The map that a sequence of pairs describes, later pairs winning.
pub open spec fn pairs_map<K: View, V>(s: Seq<(K, V)>) -> Map<K::V, V>
    decreases s.len(),
{
    if s.len() == 0 {
        Map::empty()
    } else {
        pairs_map(s.drop_last()).insert(s.last().0@, s.last().1)
    }
}

/// No two pairs share a key.
pub open spec fn keys_unique<K: View, V>(s: Seq<(K, V)>) -> bool {
    forall|i: int, j: int| 0 <= i < j < s.len() ==> s[i].0@ != s[j].0@
}

/// The keys of a sequence of pairs, in order.
pub open spec fn pairs_keys<K: View, V>(s: Seq<(K, V)>) -> Seq<K::V> {
    s.map_values(|p: (K, V)| p.0@)
}

/// The keys of the map of pairs are the keys of the pairs.
pub proof fn lemma_pairs_map_dom<K: View, V>(s: Seq<(K, V)>, k: K::V)
    ensures
        pairs_map(s).dom().contains(k) <==> exists|i: int| 0 <= i < s.len() && s[i].0@ == k,
    decreases s.len(),
{
    if s.len() > 0 {
        lemma_pairs_map_dom(s.drop_last(), k);
        if pairs_map(s.drop_last()).dom().contains(k) {
            let i = choose|i: int| 0 <= i < s.drop_last().len() && s.drop_last()[i].0@ == k;
            assert(s[i].0@ == k);
        }
        if exists|i: int| 0 <= i < s.len() && s[i].0@ == k {
            let i = choose|i: int| 0 <= i < s.len() && s[i].0@ == k;
            if i < s.len() - 1 {
                assert(s.drop_last()[i].0@ == k);
            }
        }
    }
}

/// With unique keys, each pair's key maps to its value.
pub proof fn lemma_pairs_map_value<K: View, V>(s: Seq<(K, V)>, i: int)
    requires
        keys_unique(s),
        0 <= i < s.len(),
    ensures
        pairs_map(s).dom().contains(s[i].0@),
        pairs_map(s)[s[i].0@] == s[i].1,
    decreases s.len(),
{
    if i < s.len() - 1 {
        assert(keys_unique(s.drop_last()));
        assert(s.drop_last()[i] == s[i]);
        lemma_pairs_map_value(s.drop_last(), i);
    }
}

/// With unique keys, updating the value of a pair updates the map.
pub proof fn lemma_pairs_map_update<K: View, V>(s: Seq<(K, V)>, i: int, k: K, v: V)
    requires
        keys_unique(s),
        0 <= i < s.len(),
        k@ == s[i].0@,
    ensures
        pairs_map(s.update(i, (k, v))) == pairs_map(s).insert(s[i].0@, v),
        keys_unique(s.update(i, (k, v))),
    decreases s.len(),
{
    let t = s.update(i, (k, v));
    if i == s.len() - 1 {
        assert(t.drop_last() =~= s.drop_last());
        assert(pairs_map(s).insert(s[i].0@, v) =~= pairs_map(s.drop_last()).insert(s[i].0@, v));
    } else {
        assert(keys_unique(s.drop_last()));
        assert(t.drop_last() =~= s.drop_last().update(i, (k, v)));
        lemma_pairs_map_update(s.drop_last(), i, k, v);
        assert(s.last().0@ != s[i].0@);
        assert(pairs_map(t) =~= pairs_map(s).insert(s[i].0@, v));
    }
}

/// With unique keys, removing a pair removes its key from the map.
pub proof fn lemma_pairs_map_remove<K: View, V>(s: Seq<(K, V)>, i: int)
    requires
        keys_unique(s),
        0 <= i < s.len(),
    ensures
        pairs_map(s.remove(i)) == pairs_map(s).remove(s[i].0@),
        keys_unique(s.remove(i)),
    decreases s.len(),
{
    let t = s.remove(i);
    if i == s.len() - 1 {
        assert(t =~= s.drop_last());
        lemma_pairs_map_dom(s.drop_last(), s[i].0@);
        assert(!pairs_map(s.drop_last()).dom().contains(s[i].0@));
        assert(pairs_map(t) =~= pairs_map(s).remove(s[i].0@));
    } else {
        assert(keys_unique(s.drop_last()));
        assert(t.drop_last() =~= s.drop_last().remove(i));
        assert(t.last() == s.last());
        lemma_pairs_map_remove(s.drop_last(), i);
        assert(s.last().0@ != s[i].0@);
        assert(pairs_map(t) =~= pairs_map(s).remove(s[i].0@));
    }
}

/// An insertion-ordered map with unique keys.
pub struct KeyMap<K: MapKey, V> {
    entries: Vec<(K, V)>,
}

/// Records keyed by name.
pub type NameMap<V> = KeyMap<String, V>;

/// Records keyed by a Discord id.
pub type IdMap<V> = KeyMap<u64, V>;

impl<K: MapKey, V> KeyMap<K, V> {
    #[verifier::type_invariant]
    closed spec fn inv(self) -> bool {
        keys_unique(self.entries@)
    }

    /// The contents as a map from key views to values.
    pub closed spec fn view(&self) -> Map<K::V, V> {
        pairs_map(self.entries@)
    }

    /// The keys, in insertion order.
    pub closed spec fn key_seq(&self) -> Seq<K::V> {
        pairs_keys(self.entries@)
    }

    /// The values, in the same order as `key_seq`.
    pub closed spec fn value_seq(&self) -> Seq<V> {
        self.entries@.map_values(|p: (K, V)| p.1)
    }

    /// Relates the ordered keys and values to the map view.
    pub fn lemma_seqs(&self)
        ensures
            self.key_seq().len() == self.value_seq().len(),
            self.key_seq().no_duplicates(),
            forall|i: int|
                #![trigger self.key_seq()[i]]
                0 <= i < self.key_seq().len() ==> self@.dom().contains(self.key_seq()[i])
                    && self@[self.key_seq()[i]] == self.value_seq()[i],
            forall|k: K::V| #[trigger]
                self@.dom().contains(k) ==> self.key_seq().contains(k),
            self@.dom().finite(),
            self@.dom().len() == self.key_seq().len(),
    {
        proof {
            use_type_invariant(self);
            self.lemma_seqs_inner();
        }
    }

    proof fn lemma_seqs_inner(&self)
        requires
            keys_unique(self.entries@),
        ensures
            self.key_seq().len() == self.value_seq().len(),
            self.key_seq().no_duplicates(),
            forall|i: int|
                #![trigger self.key_seq()[i]]
                0 <= i < self.key_seq().len() ==> self@.dom().contains(self.key_seq()[i])
                    && self@[self.key_seq()[i]] == self.value_seq()[i],
            forall|k: K::V| #[trigger]
                self@.dom().contains(k) ==> self.key_seq().contains(k),
            self@.dom().finite(),
            self@.dom().len() == self.key_seq().len(),
    {
        let s = self.entries@;
        assert forall|i: int| 0 <= i < self.key_seq().len() implies self@.dom().contains(
            #[trigger] self.key_seq()[i],
        ) && self@[self.key_seq()[i]] == self.value_seq()[i] by {
            lemma_pairs_map_value(s, i);
        }
        assert forall|k: K::V| #[trigger] self@.dom().contains(k) implies self.key_seq().contains(
            k,
        ) by {
            lemma_pairs_map_dom(s, k);
            let i = choose|i: int| 0 <= i < s.len() && s[i].0@ == k;
            assert(self.key_seq()[i] == k);
        }
        assert forall|k: K::V| self.key_seq().contains(k) implies #[trigger] self@.dom().contains(
            k,
        ) by {
            let i = choose|i: int| 0 <= i < self.key_seq().len() && self.key_seq()[i] == k;
            lemma_pairs_map_value(s, i);
        }
        assert(self@.dom() =~= self.key_seq().to_set());
        self.key_seq().unique_seq_to_set();
    }

    /// An empty map.
    pub fn new() -> (m: Self)
        ensures
            m@ == Map::<K::V, V>::empty(),
            m.key_seq() == Seq::<K::V>::empty(),
    {
        let m = KeyMap { entries: Vec::new() };
        assert(m.key_seq() =~= Seq::<K::V>::empty());
        m
    }

    /// The number of keys.
    pub fn len(&self) -> (n: usize)
        ensures
            n == self.key_seq().len(),
            n == self@.dom().len(),
    {
        self.lemma_seqs();
        self.entries.len()
    }

    fn find(&self, k: &K) -> (r: Option<usize>)
        ensures
            match r {
                Some(i) => i < self.entries@.len() && self.entries@[i as int].0@ == k@,
                None => !self@.dom().contains(k@),
            },
    {
        let mut i: usize = 0;
        while i < self.entries.len()
            invariant
                i <= self.entries@.len(),
                forall|j: int| 0 <= j < i ==> self.entries@[j].0@ != k@,
            decreases self.entries@.len() - i,
        {
            if self.entries[i].0.key_eq(k) {
                return Some(i);
            }
            i = i + 1;
        }
        proof {
            lemma_pairs_map_dom(self.entries@, k@);
        }
        None
    }

    /// Whether `k` is a key.
    pub fn contains_key(&self, k: &K) -> (r: bool)
        ensures
            r == self@.dom().contains(k@),
    {
        proof {
            use_type_invariant(self);
        }
        match self.find(k) {
            Some(i) => {
                proof {
                    lemma_pairs_map_value(self.entries@, i as int);
                }
                true
            },
            None => false,
        }
    }

    /// The value stored under `k`, if any.
    pub fn get(&self, k: &K) -> (r: Option<&V>)
        ensures
            match r {
                Some(v) => self@.dom().contains(k@) && self@[k@] == *v,
                None => !self@.dom().contains(k@),
            },
    {
        proof {
            use_type_invariant(self);
        }
        match self.find(k) {
            Some(i) => {
                proof {
                    lemma_pairs_map_value(self.entries@, i as int);
                }
                Some(&self.entries[i].1)
            },
            None => None,
        }
    }

    /// Inserts or replaces the value of `k`; a new key goes last.
    pub fn insert(&mut self, k: K, v: V)
        ensures
            final(self)@ == old(self)@.insert(k@, v),
            old(self)@.dom().contains(k@) ==> final(self).key_seq() == old(self).key_seq(),
            !old(self)@.dom().contains(k@) ==> final(self).key_seq() == old(self).key_seq().push(
                k@,
            ),
    {
        proof {
            use_type_invariant(&*self);
        }
        match self.find(&k) {
            Some(i) => {
                let ghost s = self.entries@;
                proof {
                    lemma_pairs_map_update(s, i as int, k, v);
                    lemma_pairs_map_value(s, i as int);
                }
                let mut e = Vec::new();
                std::mem::swap(&mut e, &mut self.entries);
                e.set(i, (k, v));
                self.entries = e;
                proof {
                    assert(pairs_keys(self.entries@) =~= pairs_keys(s));
                }
            },
            None => {
                let ghost s = self.entries@;
                let mut e = Vec::new();
                std::mem::swap(&mut e, &mut self.entries);
                e.push((k, v));
                proof {
                    assert(e@.drop_last() =~= s);
                    assert(forall|j: int| 0 <= j < s.len() ==> s[j].0@ != k@) by {
                        lemma_pairs_map_dom(s, k@);
                    }
                }
                self.entries = e;
                proof {
                    assert(self.entries@.drop_last() =~= s);
                    assert(self.entries@[s.len() as int] == (k, v));
                    assert forall|j: int| 0 <= j < s.len() + 1 implies pairs_keys(self.entries@)[j] == pairs_keys(s).push(k@)[j] by {
                        if j < s.len() {
                            assert(self.entries@[j] == s[j]);
                        }
                    }
                    assert(pairs_keys(self.entries@) =~= pairs_keys(s).push(k@));
                }
            },
        }
    }

    /// The `i`-th entry in insertion order.
    pub fn entry_at(&self, i: usize) -> (r: (&K, &V))
        requires
            i < self.key_seq().len(),
        ensures
            r.0@ == self.key_seq()[i as int],
            *r.1 == self.value_seq()[i as int],
    {
        let e = &self.entries[i];
        (&e.0, &e.1)
    }

    /// The keys, in insertion order.
    pub fn keys(&self) -> (r: Vec<K>)
        ensures
            r@.len() == self.key_seq().len(),
            forall|j: int| 0 <= j < r@.len() ==> #[trigger] r@[j]@ == self.key_seq()[j],
    {
        let mut r: Vec<K> = Vec::new();
        let mut i: usize = 0;
        while i < self.entries.len()
            invariant
                i <= self.entries@.len(),
                r@.len() == i,
                forall|j: int| 0 <= j < i ==> #[trigger] r@[j]@ == self.entries@[j].0@,
            decreases self.entries@.len() - i,
        {
            r.push(self.entries[i].0.key_clone());
            i = i + 1;
        }
        r
    }

    /// Removes `k`, returning its value; the other keys keep their order.
    pub fn remove(&mut self, k: &K) -> (r: Option<V>)
        ensures
            final(self)@ == old(self)@.remove(k@),
            match r {
                Some(v) => old(self)@.dom().contains(k@) && old(self)@[k@] == v,
                None => !old(self)@.dom().contains(k@),
            },
    {
        proof {
            use_type_invariant(&*self);
        }
        match self.find(k) {
            Some(i) => {
                let ghost s = self.entries@;
                proof {
                    lemma_pairs_map_remove(s, i as int);
                    lemma_pairs_map_value(s, i as int);
                }
                let mut e = Vec::new();
                std::mem::swap(&mut e, &mut self.entries);
                let (_, v) = e.remove(i);
                self.entries = e;
                Some(v)
            },
            None => {
                proof {
                    assert(old(self)@.remove(k@) =~= old(self)@);
                }
                None
            },
        }
    }
}

} // verus!
