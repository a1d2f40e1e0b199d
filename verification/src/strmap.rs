use vstd::prelude::*;

verus! {

/// True when no key occurs twice in `ps`.
pub open spec fn keys_distinct<V>(ps: Seq<(Seq<char>, V)>) -> bool {
    forall|i: int, j: int|
        0 <= i < ps.len() && 0 <= j < ps.len() && i != j ==> #[trigger] ps[i].0 != #[trigger] ps[j].0
}

/// True when some entry of `ps` has key `k`.
pub open spec fn has_key<V>(ps: Seq<(Seq<char>, V)>, k: Seq<char>) -> bool {
    exists|i: int| 0 <= i < ps.len() && #[trigger] ps[i].0 == k
}

/// The position of key `k` in `ps` (meaningful when `has_key(ps, k)`).
pub open spec fn key_index<V>(ps: Seq<(Seq<char>, V)>, k: Seq<char>) -> int {
    choose|i: int| 0 <= i < ps.len() && #[trigger] ps[i].0 == k
}

/// The finite map that a sequence of entries with distinct keys denotes.
pub open spec fn pairs_map<V>(ps: Seq<(Seq<char>, V)>) -> Map<Seq<char>, V> {
    Map::new(|k: Seq<char>| has_key(ps, k), |k: Seq<char>| ps[key_index(ps, k)].1)
}

/// With distinct keys, the entry at position `i` is what the map holds for its key.
pub proof fn lemma_pairs_map_at<V>(ps: Seq<(Seq<char>, V)>, i: int)
    requires
        keys_distinct(ps),
        0 <= i < ps.len(),
    ensures
        pairs_map(ps).contains_key(ps[i].0),
        pairs_map(ps)[ps[i].0] == ps[i].1,
        key_index(ps, ps[i].0) == i,
{
    assert(has_key(ps, ps[i].0));
}

/// Pushing an entry with a fresh key inserts it into the map.
pub proof fn lemma_pairs_map_push<V>(ps: Seq<(Seq<char>, V)>, k: Seq<char>, v: V)
    requires
        keys_distinct(ps),
        !has_key(ps, k),
    ensures
        keys_distinct(ps.push((k, v))),
        pairs_map(ps.push((k, v))) =~= pairs_map(ps).insert(k, v),
{
    let qs = ps.push((k, v));
    assert forall|i: int, j: int|
        0 <= i < qs.len() && 0 <= j < qs.len() && i != j implies #[trigger] qs[i].0 != #[trigger] qs[j].0 by {
        if i < ps.len() && j < ps.len() {
            assert(qs[i] == ps[i] && qs[j] == ps[j]);
        } else if i < ps.len() {
            assert(qs[i] == ps[i]);
        } else if j < ps.len() {
            assert(qs[j] == ps[j]);
        }
    }
    assert forall|key: Seq<char>| #[trigger] has_key(qs, key) == (has_key(ps, key) || key == k) by {
        if has_key(ps, key) {
            let i = choose|i: int| 0 <= i < ps.len() && #[trigger] ps[i].0 == key;
            assert(qs[i] == ps[i]);
        }
        if key == k {
            assert(qs[ps.len() as int].0 == k);
        }
        if has_key(qs, key) && key != k {
            let i = choose|i: int| 0 <= i < qs.len() && #[trigger] qs[i].0 == key;
            assert(i < ps.len());
            assert(ps[i] == qs[i]);
        }
    }
    assert forall|key: Seq<char>| has_key(qs, key) implies #[trigger] pairs_map(qs)[key]
        == pairs_map(ps).insert(k, v)[key] by {
        let i = key_index(qs, key);
        if key == k {
            lemma_pairs_map_at(qs, ps.len() as int);
        } else {
            lemma_pairs_map_at(qs, i);
            assert(i < ps.len());
            assert(qs[i] == ps[i]);
            lemma_pairs_map_at(ps, i);
        }
    }
}

/// Replacing the value at position `i` updates the map at that entry's key.
pub proof fn lemma_pairs_map_update<V>(ps: Seq<(Seq<char>, V)>, i: int, v: V)
    requires
        keys_distinct(ps),
        0 <= i < ps.len(),
    ensures
        keys_distinct(ps.update(i, (ps[i].0, v))),
        pairs_map(ps.update(i, (ps[i].0, v))) =~= pairs_map(ps).insert(ps[i].0, v),
{
    let k = ps[i].0;
    let qs = ps.update(i, (k, v));
    assert forall|a: int, b: int|
        0 <= a < qs.len() && 0 <= b < qs.len() && a != b implies #[trigger] qs[a].0 != #[trigger] qs[b].0 by {
        assert(qs[a].0 == ps[a].0 && qs[b].0 == ps[b].0);
    }
    assert forall|key: Seq<char>| #[trigger] has_key(qs, key) == has_key(ps, key) by {
        if has_key(ps, key) {
            let j = choose|j: int| 0 <= j < ps.len() && #[trigger] ps[j].0 == key;
            assert(qs[j].0 == key);
        }
        if has_key(qs, key) {
            let j = choose|j: int| 0 <= j < qs.len() && #[trigger] qs[j].0 == key;
            assert(ps[j].0 == key);
        }
    }
    assert(has_key(ps, k)) by {
        assert(ps[i].0 == k);
    }
    assert forall|key: Seq<char>| has_key(qs, key) implies #[trigger] pairs_map(qs)[key]
        == pairs_map(ps).insert(k, v)[key] by {
        let j = key_index(qs, key);
        lemma_pairs_map_at(qs, j);
        lemma_pairs_map_at(ps, j);
    }
}

/// Removing the entry at position `i` removes its key from the map.
pub proof fn lemma_pairs_map_remove<V>(ps: Seq<(Seq<char>, V)>, i: int)
    requires
        keys_distinct(ps),
        0 <= i < ps.len(),
    ensures
        keys_distinct(ps.remove(i)),
        pairs_map(ps.remove(i)) =~= pairs_map(ps).remove(ps[i].0),
{
    let k = ps[i].0;
    let qs = ps.remove(i);
    assert forall|a: int| 0 <= a < qs.len() implies #[trigger] qs[a] == (if a < i {
        ps[a]
    } else {
        ps[a + 1]
    }) by {}
    assert forall|a: int, b: int|
        0 <= a < qs.len() && 0 <= b < qs.len() && a != b implies #[trigger] qs[a].0 != #[trigger] qs[b].0 by {
        let a2 = if a < i { a } else { a + 1 };
        let b2 = if b < i { b } else { b + 1 };
        assert(qs[a] == ps[a2] && qs[b] == ps[b2]);
    }
    assert forall|key: Seq<char>| #[trigger] has_key(qs, key) == (has_key(ps, key) && key != k) by {
        if has_key(ps, key) && key != k {
            let j = choose|j: int| 0 <= j < ps.len() && #[trigger] ps[j].0 == key;
            assert(j != i);
            let j2 = if j < i { j } else { j - 1 };
            assert(qs[j2] == ps[j]);
        }
        if has_key(qs, key) {
            let j = choose|j: int| 0 <= j < qs.len() && #[trigger] qs[j].0 == key;
            let j2 = if j < i { j } else { j + 1 };
            assert(qs[j] == ps[j2]);
            assert(j2 != i);
        }
    }
    assert forall|key: Seq<char>| has_key(qs, key) implies #[trigger] pairs_map(qs)[key]
        == pairs_map(ps).remove(k)[key] by {
        let j = key_index(qs, key);
        lemma_pairs_map_at(qs, j);
        let j2 = if j < i { j } else { j + 1 };
        assert(qs[j] == ps[j2]);
        lemma_pairs_map_at(ps, j2);
    }
}

/// An insertion-ordered map keyed by strings, in which no key occurs twice.
pub struct StrMap<V> {
    items: Vec<(String, V)>,
}

impl<V> StrMap<V> {
    /// The entries in order, each key taken by its characters.
    pub closed spec fn pairs(&self) -> Seq<(Seq<char>, V)> {
        self.items@.map_values(|p: (String, V)| (p.0@, p.1))
    }

    #[verifier::type_invariant]
    closed spec fn distinct(&self) -> bool {
        keys_distinct(self.pairs())
    }

    /// The map from keys to values.
    pub open spec fn map(&self) -> Map<Seq<char>, V> {
        pairs_map(self.pairs())
    }

    /// An empty map.
    pub fn new() -> (r: Self)
        ensures
            r.pairs() == Seq::<(Seq<char>, V)>::empty(),
            r.map() == Map::<Seq<char>, V>::empty(),
    {
        let r = StrMap { items: Vec::new() };
        assert(r.pairs() =~= Seq::<(Seq<char>, V)>::empty());
        assert(r.map() =~= Map::<Seq<char>, V>::empty());
        r
    }

    /// The number of entries.
    pub fn len(&self) -> (r: usize)
        ensures
            r == self.pairs().len(),
            keys_distinct(self.pairs()),
    {
        proof {
            use_type_invariant(self);
        }
        self.items.len()
    }

    /// True when there are no entries.
    pub fn is_empty(&self) -> (r: bool)
        ensures
            r == (self.pairs().len() == 0),
            r == (self.map() =~= Map::<Seq<char>, V>::empty()),
    {
        proof {
            use_type_invariant(self);
            if self.pairs().len() > 0 {
                lemma_pairs_map_at(self.pairs(), 0);
            }
        }
        self.items.len() == 0
    }

    /// The key of the entry at position `i`.
    pub fn key_at(&self, i: usize) -> (r: &String)
        requires
            i < self.pairs().len(),
        ensures
            r@ == self.pairs()[i as int].0,
    {
        &self.items[i].0
    }

    /// The value of the entry at position `i`.
    pub fn value_at(&self, i: usize) -> (r: &V)
        requires
            i < self.pairs().len(),
        ensures
            *r == self.pairs()[i as int].1,
    {
        &self.items[i].1
    }

    /// The position of key `k`, if it is present.
    pub fn find(&self, k: &String) -> (r: Option<usize>)
        ensures
            keys_distinct(self.pairs()),
            match r {
                Some(i) => i < self.pairs().len() && self.pairs()[i as int].0 == k@
                    && key_index(self.pairs(), k@) == i,
                None => !has_key(self.pairs(), k@),
            },
    {
        proof {
            use_type_invariant(self);
        }
        let n = self.items.len();
        let mut i: usize = 0;
        while i < n
            invariant
                n == self.pairs().len(),
                i <= n,
                keys_distinct(self.pairs()),
                forall|j: int| 0 <= j < i ==> self.pairs()[j].0 != k@,
            decreases n - i,
        {
            if self.items[i].0 == *k {
                proof {
                    lemma_pairs_map_at(self.pairs(), i as int);
                }
                return Some(i);
            }
            i = i + 1;
        }
        None
    }

    /// True when key `k` is present.
    pub fn contains_key(&self, k: &String) -> (r: bool)
        ensures
            r == has_key(self.pairs(), k@),
            r == self.map().contains_key(k@),
    {
        self.find(k).is_some()
    }

    /// The value stored under key `k`, if any.
    pub fn get(&self, k: &String) -> (r: Option<&V>)
        ensures
            match r {
                Some(v) => self.map().contains_key(k@) && *v == self.map()[k@],
                None => !self.map().contains_key(k@),
            },
    {
        match self.find(k) {
            Some(i) => {
                proof {
                    lemma_pairs_map_at(self.pairs(), i as int);
                }
                Some(&self.items[i].1)
            },
            None => None,
        }
    }

    /// Stores `v` under `k`: in place when `k` is present, at the end otherwise.
    pub fn insert(&mut self, k: String, v: V)
        ensures
            has_key(old(self).pairs(), k@) ==> final(self).pairs() == old(self).pairs().update(
                key_index(old(self).pairs(), k@),
                (k@, v),
            ),
            !has_key(old(self).pairs(), k@) ==> final(self).pairs() == old(self).pairs().push(
                (k@, v),
            ),
            final(self).map() == old(self).map().insert(k@, v),
    {
        proof {
            use_type_invariant(&*self);
        }
        let ghost ps = self.pairs();
        let mut items: Vec<(String, V)> = Vec::new();
        std::mem::swap(&mut items, &mut self.items);
        assert(items@.map_values(|p: (String, V)| (p.0@, p.1)) == ps);
        match Self::find_in(&items, &k) {
            Some(i) => {
                proof {
                    lemma_pairs_map_update(ps, i as int, v);
                }
                items.set(i, (k, v));
                assert(items@.map_values(|p: (String, V)| (p.0@, p.1)) =~= ps.update(
                    i as int,
                    (ps[i as int].0, v),
                ));
            },
            None => {
                proof {
                    lemma_pairs_map_push(ps, k@, v);
                }
                items.push((k, v));
                assert(items@.map_values(|p: (String, V)| (p.0@, p.1)) =~= ps.push((k@, v)));
            },
        }
        self.items = items;
    }

    /// Removes key `k` and hands back its value, if it was present.
    pub fn remove(&mut self, k: &String) -> (r: Option<V>)
        ensures
            match r {
                Some(v) => old(self).map().contains_key(k@) && v == old(self).map()[k@]
                    && final(self).pairs() == old(self).pairs().remove(
                    key_index(old(self).pairs(), k@),
                ),
                None => !old(self).map().contains_key(k@) && final(self).pairs() == old(
                    self,
                ).pairs(),
            },
            final(self).map() == old(self).map().remove(k@),
    {
        proof {
            use_type_invariant(&*self);
        }
        let ghost ps = self.pairs();
        let mut items: Vec<(String, V)> = Vec::new();
        std::mem::swap(&mut items, &mut self.items);
        assert(items@.map_values(|p: (String, V)| (p.0@, p.1)) == ps);
        match Self::find_in(&items, k) {
            Some(i) => {
                proof {
                    lemma_pairs_map_remove(ps, i as int);
                    lemma_pairs_map_at(ps, i as int);
                }
                let (_, v) = items.remove(i);
                assert(items@.map_values(|p: (String, V)| (p.0@, p.1)) =~= ps.remove(i as int));
                self.items = items;
                Some(v)
            },
            None => {
                assert(pairs_map(ps).remove(k@) =~= pairs_map(ps));
                self.items = items;
                None
            },
        }
    }

    /// Replaces the value of the entry at position `i`, keeping its key.
    pub fn set_value_at(&mut self, i: usize, v: V)
        requires
            i < old(self).pairs().len(),
        ensures
            final(self).pairs() == old(self).pairs().update(i as int, (old(self).pairs()[i as int].0, v)),
            final(self).map() == old(self).map().insert(old(self).pairs()[i as int].0, v),
    {
        proof {
            use_type_invariant(&*self);
        }
        let ghost ps = self.pairs();
        let mut items: Vec<(String, V)> = Vec::new();
        std::mem::swap(&mut items, &mut self.items);
        assert(items@.map_values(|p: (String, V)| (p.0@, p.1)) == ps);
        proof {
            lemma_pairs_map_update(ps, i as int, v);
        }
        let (key, _) = items.remove(i);
        items.insert(i, (key, v));
        assert(items@.map_values(|p: (String, V)| (p.0@, p.1)) =~= ps.update(
            i as int,
            (ps[i as int].0, v),
        ));
        self.items = items;
    }

    fn find_in(items: &Vec<(String, V)>, k: &String) -> (r: Option<usize>)
        requires
            keys_distinct(items@.map_values(|p: (String, V)| (p.0@, p.1))),
        ensures
            ({
                let ps = items@.map_values(|p: (String, V)| (p.0@, p.1));
                match r {
                    Some(i) => i < ps.len() && ps[i as int].0 == k@ && key_index(ps, k@) == i,
                    None => !has_key(ps, k@),
                }
            }),
    {
        let ghost ps = items@.map_values(|p: (String, V)| (p.0@, p.1));
        let n = items.len();
        let mut i: usize = 0;
        while i < n
            invariant
                n == ps.len(),
                ps == items@.map_values(|p: (String, V)| (p.0@, p.1)),
                keys_distinct(ps),
                i <= n,
                forall|j: int| 0 <= j < i ==> ps[j].0 != k@,
            decreases n - i,
        {
            if items[i].0 == *k {
                proof {
                    lemma_pairs_map_at(ps, i as int);
                }
                return Some(i);
            }
            i = i + 1;
        }
        None
    }
}

} // verus!
