//! A keyed table: every key occurs at most once, and the table is viewed as
//! a mathematical map from keys to values.

use vstd::prelude::*;

verus! {

/// Keys of a [`KeyMap`]: executable equality that agrees with equality of
/// values.
pub trait MapKey: Sized {
    fn key_eq(&self, other: &Self) -> (eq: bool)
        ensures
            eq == (*self == *other),
    ;
}

impl MapKey for u32 {
    fn key_eq(&self, other: &Self) -> (eq: bool) {
        *self == *other
    }
}

/// The position of `k` among the keys of `s`, where it occurs.
pub open spec fn key_index<K, V>(s: Seq<(K, V)>, k: K) -> int {
    choose|i: int| 0 <= i < s.len() && s[i].0 == k
}

/// `s` holds `k` as a key.
pub open spec fn has_key<K, V>(s: Seq<(K, V)>, k: K) -> bool {
    exists|i: int| 0 <= i < s.len() && s[i].0 == k
}

/// No key occurs twice in `s`.
pub open spec fn distinct_keys<K, V>(s: Seq<(K, V)>) -> bool {
    forall|i: int, j: int| 0 <= i < s.len() && 0 <= j < s.len() && i != j ==> s[i].0 != s[j].0
}

/// The map that a sequence of distinct-keyed pairs stands for.
pub open spec fn pairs_map<K, V>(s: Seq<(K, V)>) -> Map<K, V> {
    Map::new(|k: K| has_key(s, k), |k: K| s[key_index(s, k)].1)
}

/// Where the keys of `s` are distinct, the map that `s` stands for takes
/// the key of its `i`-th pair to the value of that pair.
pub proof fn lemma_pairs_map_at<K, V>(s: Seq<(K, V)>, i: int)
    requires
        distinct_keys(s),
        0 <= i < s.len(),
    ensures
        pairs_map(s).contains_key(s[i].0),
        pairs_map(s)[s[i].0] == s[i].1,
        key_index(s, s[i].0) == i,
{
    assert(has_key(s, s[i].0));
}

/// Replacing the value of the `i`-th pair changes the map at that pair's key
/// alone, and keeps the keys distinct.
pub proof fn lemma_pairs_map_update<K, V>(s: Seq<(K, V)>, i: int)
    requires
        distinct_keys(s),
        0 <= i < s.len(),
    ensures
        forall|v: V|
            #![trigger s.update(i, (s[i].0, v))]
            distinct_keys(s.update(i, (s[i].0, v))) && pairs_map(s.update(i, (s[i].0, v)))
                == pairs_map(s).insert(s[i].0, v),
{
    assert forall|v: V|
        #![trigger s.update(i, (s[i].0, v))]
        distinct_keys(s.update(i, (s[i].0, v))) && pairs_map(s.update(i, (s[i].0, v)))
            == pairs_map(s).insert(s[i].0, v) by {
        let t = s.update(i, (s[i].0, v));
        let key = s[i].0;
        assert(distinct_keys(t));
        assert forall|k: K| #[trigger] pairs_map(t).contains_key(k) == pairs_map(s).insert(key, v).contains_key(k) by {
            assert(t[i].0 == key);
            assert(s[i].0 == key);
            if has_key(s, k) {
                let j = key_index(s, k);
                assert(t[j].0 == k);
            }
            if has_key(t, k) {
                let j = key_index(t, k);
                assert(s[j].0 == k);
            }
        }
        assert forall|k: K| #[trigger] pairs_map(t).contains_key(k) implies pairs_map(t)[k] == pairs_map(s).insert(key, v)[k] by {
            let j = key_index(t, k);
            lemma_pairs_map_at(t, j);
            if j != i {
                lemma_pairs_map_at(s, j);
            }
        }
        assert(pairs_map(t) =~= pairs_map(s).insert(key, v));
    }
}

/// Appending a pair whose key is new adds that key to the map, and keeps the
/// keys distinct.
pub proof fn lemma_pairs_map_push<K, V>(s: Seq<(K, V)>, key: K, v: V)
    requires
        distinct_keys(s),
        !has_key(s, key),
    ensures
        distinct_keys(s.push((key, v))),
        pairs_map(s.push((key, v))) == pairs_map(s).insert(key, v),
{
    let t = s.push((key, v));
    let n = s.len() as int;
    assert forall|a: int, b: int| 0 <= a < t.len() && 0 <= b < t.len() && a != b implies t[a].0 != t[b].0 by {
        if a == n {
            assert(s[b].0 == t[b].0);
        } else if b == n {
            assert(s[a].0 == t[a].0);
        } else {
            assert(s[a] == t[a] && s[b] == t[b]);
        }
    }
    assert forall|k: K| #[trigger] pairs_map(t).contains_key(k) == pairs_map(s).insert(key, v).contains_key(k) by {
        assert(t[n].0 == key);
        if has_key(s, k) {
            let j = key_index(s, k);
            assert(t[j].0 == k);
        }
        if has_key(t, k) {
            let j = key_index(t, k);
            if j != n {
                assert(s[j].0 == k);
            }
        }
    }
    assert forall|k: K| #[trigger] pairs_map(t).contains_key(k) implies pairs_map(t)[k] == pairs_map(s).insert(key, v)[k] by {
        let j = key_index(t, k);
        lemma_pairs_map_at(t, j);
        if j != n {
            assert(s[j] == t[j]);
            lemma_pairs_map_at(s, j);
        }
    }
    assert(pairs_map(t) =~= pairs_map(s).insert(key, v));
}

/// The map of distinct-keyed pairs is finite and has as many keys as there
/// are pairs.
pub proof fn lemma_pairs_map_len<K, V>(s: Seq<(K, V)>)
    requires
        distinct_keys(s),
    ensures
        pairs_map(s).dom().finite(),
        pairs_map(s).len() == s.len(),
    decreases s.len(),
{
    if s.len() == 0 {
        assert(pairs_map(s) =~= Map::<K, V>::empty());
    } else {
        let t = s.drop_last();
        let last = s.last();
        assert(distinct_keys(t));
        assert(!has_key(t, last.0)) by {
            if has_key(t, last.0) {
                let j = key_index(t, last.0);
                assert(s[j].0 == s[s.len() - 1].0);
            }
        }
        lemma_pairs_map_len(t);
        lemma_pairs_map_push(t, last.0, last.1);
        assert(t.push((last.0, last.1)) =~= s);
    }
}

/// A table from keys to values, in which every key occurs at most once.
pub struct KeyMap<K: MapKey, V> {
    entries: Vec<(K, V)>,
}

impl<K: MapKey, V> View for KeyMap<K, V> {
    type V = Map<K, V>;

    closed spec fn view(&self) -> Map<K, V> {
        pairs_map(self.entries@)
    }
}

impl<K: MapKey, V> KeyMap<K, V> {
    /// No key occurs twice among the stored pairs.
    pub closed spec fn wf(self) -> bool {
        distinct_keys(self.entries@)
    }

    pub closed spec fn entries(self) -> Seq<(K, V)> {
        self.entries@
    }

    /// An empty table.
    pub fn new() -> (m: Self)
        ensures
            m.wf(),
            m@ == Map::<K, V>::empty(),
    {
        let m = KeyMap { entries: Vec::new() };
        assert(m@ =~= Map::<K, V>::empty());
        m
    }

    fn find(&self, key: &K) -> (r: Option<usize>)
        ensures
            match r {
                Some(i) => i < self.entries@.len() && self.entries@[i as int].0 == *key,
                None => !has_key(self.entries@, *key),
            },
    {
        let mut i: usize = 0;
        while i < self.entries.len()
            invariant
                i <= self.entries@.len(),
                forall|j: int| 0 <= j < i ==> self.entries@[j].0 != *key,
            decreases self.entries@.len() - i,
        {
            if self.entries[i].0.key_eq(key) {
                return Some(i);
            }
            i = i + 1;
        }
        None
    }

    /// The value stored under `key`, if any.
    pub fn get(&self, key: &K) -> (r: Option<&V>)
        requires
            self.wf(),
        ensures
            match r {
                Some(v) => self@.contains_key(*key) && *v == self@[*key],
                None => !self@.contains_key(*key),
            },
    {
        match self.find(key) {
            Some(i) => {
                assert(key_index(self.entries@, *key) == i as int);
                Some(&self.entries[i].1)
            },
            None => None,
        }
    }

    /// The value stored under `key`, to be changed in place, if any.
    pub fn get_mut(&mut self, key: &K) -> (r: Option<&mut V>)
        requires
            old(self).wf(),
        ensures
            final(self).wf(),
            match r {
                Some(v) => {
                    &&& old(self)@.contains_key(*key)
                    &&& *v == old(self)@[*key]
                    &&& final(self)@ == old(self)@.insert(*key, *final(v))
                },
                None => {
                    &&& !old(self)@.contains_key(*key)
                    &&& *final(self) == *old(self)
                },
            },
    {
        match self.find(key) {
            Some(i) => {
                proof {
                    lemma_pairs_map_at(self.entries@, i as int);
                    lemma_pairs_map_update(self.entries@, i as int);
                }
                let pair = &mut self.entries[i];
                Some(&mut pair.1)
            },
            None => None,
        }
    }

    /// Stores `value` under `key`, in place of any value stored there.
    pub fn insert(&mut self, key: K, value: V)
        requires
            old(self).wf(),
        ensures
            final(self).wf(),
            final(self)@ == old(self)@.insert(key, value),
    {
        let ghost old_entries = self.entries@;
        match self.find(&key) {
            Some(i) => {
                proof { lemma_pairs_map_update(old_entries, i as int); }
                self.entries.set(i, (key, value));
                assert(self.entries@ == old_entries.update(i as int, (old_entries[i as int].0, value)));
            },
            None => {
                proof { lemma_pairs_map_push(old_entries, key, value); }
                self.entries.push((key, value));
            },
        }
    }

    /// The number of keys in the table.
    pub fn len(&self) -> (n: usize)
        requires
            self.wf(),
        ensures
            n == self@.len(),
            n == self.entries().len(),
    {
        proof { self.lemma_view_entries(); }
        self.entries.len()
    }

    /// The pair at position `i` of the table's listing.
    pub fn pair_at(&self, i: usize) -> (r: (&K, &V))
        requires
            i < self.entries().len(),
        ensures
            (*r.0, *r.1) == self.entries()[i as int],
    {
        let pair = &self.entries[i];
        (&pair.0, &pair.1)
    }

    /// The listing of a well-formed table holds each of its keys exactly
    /// once, with the value stored under it, and nothing else.
    pub proof fn lemma_view_entries(self)
        requires
            self.wf(),
        ensures
            distinct_keys(self.entries()),
            forall|i: int|
                #![trigger self.entries()[i]]
                0 <= i < self.entries().len() ==> self@.contains_key(self.entries()[i].0)
                    && self@[self.entries()[i].0] == self.entries()[i].1,
            forall|k: K|
                #![trigger self@.contains_key(k)]
                self@.contains_key(k) ==> exists|i: int|
                    0 <= i < self.entries().len() && self.entries()[i].0 == k,
            self@.dom().finite(),
            self@.len() == self.entries().len(),
    {
        let s = self.entries@;
        assert forall|i: int| #![trigger s[i]] 0 <= i < s.len() implies self@.contains_key(s[i].0) && self@[s[i].0] == s[i].1 by {
            lemma_pairs_map_at(s, i);
        }
        lemma_pairs_map_len(s);
    }

    /// Takes out the pair at `i`.
    fn remove_at(&mut self, i: usize) -> (r: (K, V))
        requires
            old(self).wf(),
            i < old(self).entries@.len(),
        ensures
            final(self).wf(),
            r == old(self).entries@[i as int],
            old(self)@.contains_key(r.0),
            r.1 == old(self)@[r.0],
            final(self)@ == old(self)@.remove(r.0),
    {
        let ghost old_entries = self.entries@;
        proof { lemma_pairs_map_at(old_entries, i as int); }
        let pair = self.entries.swap_remove(i);
        proof {
            let key = pair.0;
            let s = self.entries@;
            let n = old_entries.len() - 1;
            assert forall|a: int, b: int| 0 <= a < s.len() && 0 <= b < s.len() && a != b implies s[a].0 != s[b].0 by {
                let oa = if a == i { n } else { a };
                let ob = if b == i { n } else { b };
                assert(s[a] == old_entries[oa]);
                assert(s[b] == old_entries[ob]);
            }
            assert(distinct_keys(s));
            assert forall|k: K| #[trigger] pairs_map(s).contains_key(k) == old(self)@.remove(key).contains_key(k) by {
                if has_key(old_entries, k) && k != key {
                    let j = key_index(old_entries, k);
                    let sj = if j == n { i as int } else { j };
                    assert(s[sj].0 == k);
                }
                if has_key(s, k) {
                    let j = key_index(s, k);
                    let oj = if j == i { n } else { j };
                    assert(old_entries[oj].0 == k);
                }
            }
            assert forall|k: K| #[trigger] pairs_map(s).contains_key(k) implies pairs_map(s)[k] == old(self)@.remove(key)[k] by {
                let j = key_index(s, k);
                lemma_pairs_map_at(s, j);
                let oj = if j == i { n } else { j };
                lemma_pairs_map_at(old_entries, oj);
            }
            assert(pairs_map(s) =~= old(self)@.remove(key));
        }
        pair
    }

    /// Takes out the value stored under `key`, if any.
    pub fn remove(&mut self, key: &K) -> (r: Option<V>)
        requires
            old(self).wf(),
        ensures
            final(self).wf(),
            final(self)@ == old(self)@.remove(*key),
            match r {
                Some(v) => old(self)@.contains_key(*key) && v == old(self)@[*key],
                None => !old(self)@.contains_key(*key) && *final(self) == *old(self),
            },
    {
        match self.find(key) {
            Some(i) => {
                let pair = self.remove_at(i);
                Some(pair.1)
            },
            None => {
                assert(old(self)@.remove(*key) =~= old(self)@);
                None
            },
        }
    }
}

/// The place of a key in a [`KeyMap`]: either holding a value or free.
pub enum MapEntry<'a, K: MapKey, V> {
    Vacant(VacantMapEntry<'a, K, V>),
    Occupied(OccupiedMapEntry<'a, K, V>),
}

/// The place of a key that holds no value.
pub struct VacantMapEntry<'a, K: MapKey, V> {
    pub map: &'a mut KeyMap<K, V>,
    pub key: K,
}

/// The place of a key that holds a value: the pair at `index` in `map`.
pub struct OccupiedMapEntry<'a, K: MapKey, V> {
    pub map: &'a mut KeyMap<K, V>,
    pub index: usize,
}

impl<'a, K: MapKey, V> OccupiedMapEntry<'a, K, V> {
    /// `index` is the place of a pair in a well-formed table.
    pub closed spec fn wf(&self) -> bool {
        &&& self.map.wf()
        &&& self.index < self.map.entries@.len()
    }

    /// The key of this place.
    pub closed spec fn key(&self) -> K {
        self.map.entries@[self.index as int].0
    }

    /// The value held at this place.
    pub closed spec fn value(&self) -> V {
        self.map.entries@[self.index as int].1
    }

    /// The value held at this place.
    pub fn get(&self) -> (r: &V)
        requires
            self.wf(),
        ensures
            *r == self.value(),
    {
        proof { lemma_pairs_map_at(self.map.entries@, self.index as int); }
        &self.map.entries[self.index].1
    }

    /// Takes the key and its value out of the table.
    pub fn remove(self)
        requires
            self.wf(),
        ensures
            final(self.map).wf(),
            final(self.map)@ == old(self.map)@.remove(self.key()),
    {
        let _ = self.map.remove_at(self.index);
    }
}

impl<K: MapKey, V> KeyMap<K, V> {
    /// The place of `key` in the table.
    pub fn entry<'a>(&'a mut self, key: K) -> (r: MapEntry<'a, K, V>)
        requires
            old(self).wf(),
        ensures
            match r {
                MapEntry::Vacant(e) => {
                    &&& !old(self)@.contains_key(key)
                    &&& e.key == key
                    &&& *e.map == *old(self)
                    &&& *final(e.map) == *final(self)
                },
                MapEntry::Occupied(e) => {
                    &&& old(self)@.contains_key(key)
                    &&& e.wf()
                    &&& e.key() == key
                    &&& e.value() == old(self)@[key]
                    &&& *e.map == *old(self)
                    &&& *final(e.map) == *final(self)
                },
            },
    {
        match self.find(&key) {
            Some(i) => {
                proof { lemma_pairs_map_at(self.entries@, i as int); }
                MapEntry::Occupied(OccupiedMapEntry { map: self, index: i })
            },
            None => MapEntry::Vacant(VacantMapEntry { map: self, key }),
        }
    }
}

/// What a read gives back after a write: once `key` is stored with
/// `value`, it is found with `value`, every other key is found as before,
/// and the table has grown by one exactly when `key` was new.
pub proof fn lemma_get_after_insert<K: MapKey, V>(before: KeyMap<K, V>, after: KeyMap<K, V>, key: K, value: V)
    requires
        before.wf(),
        after@ == before@.insert(key, value),
    ensures
        after@.contains_key(key),
        after@[key] == value,
        forall|k: K| k != key ==> (#[trigger] after@.contains_key(k) <==> before@.contains_key(k)),
        forall|k: K| k != key && before@.contains_key(k) ==> #[trigger] after@[k] == before@[k],
        after@.len() == if before@.contains_key(key) { before@.len() } else { before@.len() + 1 },
{
    before.lemma_view_entries();
    if before@.contains_key(key) {
        assert(before@.insert(key, value).dom() =~= before@.dom());
    }
}

/// After `key` is removed, it is not found, every other key is found as
/// before, and the table has shrunk by one exactly when `key` was there.
pub proof fn lemma_get_after_remove<K: MapKey, V>(before: KeyMap<K, V>, after: KeyMap<K, V>, key: K)
    requires
        before.wf(),
        after@ == before@.remove(key),
    ensures
        !after@.contains_key(key),
        forall|k: K| k != key ==> (#[trigger] after@.contains_key(k) <==> before@.contains_key(k)),
        forall|k: K| k != key && before@.contains_key(k) ==> #[trigger] after@[k] == before@[k],
        after@.len() == if before@.contains_key(key) { before@.len() - 1 } else { before@.len() as int },
{
    before.lemma_view_entries();
    if !before@.contains_key(key) {
        assert(before@.remove(key).dom() =~= before@.dom());
    }
}

} // verus!
