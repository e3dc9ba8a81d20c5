//! Association tables that keep their keys unique and in insertion order:
//! one keyed by raw identities, one keyed by text.

use vstd::prelude::*;

verus! {

/// The character sequences of a sequence of strings.
pub open spec fn texts(v: Seq<String>) -> Seq<Seq<char>> {
    v.map_values(|s: String| s@)
}

/// A map from raw identities to values; keys listed in insertion order.
pub struct Table<V> {
    keys: Vec<u128>,
    values: Vec<V>,
}

impl<V> Table<V> {
    pub closed spec fn wf(&self) -> bool {
        &&& self.keys@.len() == self.values@.len()
        &&& self.keys@.no_duplicates()
    }

    /// The keys, in insertion order.
    pub closed spec fn order(&self) -> Seq<u128> {
        self.keys@
    }

    pub closed spec fn as_map(&self) -> Map<u128, V> {
        Map::new(
            |k: u128| self.keys@.contains(k),
            |k: u128| self.values@[self.keys@.index_of(k)],
        )
    }

    proof fn lemma_at(&self, j: int)
        requires
            self.wf(),
            0 <= j < self.keys@.len(),
        ensures
            self.keys@.index_of(self.keys@[j]) == j,
            self.as_map().contains_key(self.keys@[j]),
            self.as_map()[self.keys@[j]] == self.values@[j],
    {
        let k = self.keys@[j];
        assert(self.keys@.contains(k));
        let i = self.keys@.index_of(k);
        assert(0 <= i < self.keys@.len() && self.keys@[i] == k);
    }

    /// The keys are distinct, and they are exactly the keys of the map.
    pub proof fn lemma_order(&self)
        requires
            self.wf(),
        ensures
            self.order().no_duplicates(),
            self.order().to_set() == self.as_map().dom(),
            self.as_map().dom().finite(),
            self.as_map().len() == self.order().len(),
            forall|i: int| #![auto] 0 <= i < self.order().len()
                ==> self.as_map().contains_key(self.order()[i]),
    {
        assert(self.order().to_set() =~= self.as_map().dom());
        self.keys@.unique_seq_to_set();
    }

    pub fn new() -> (r: Table<V>)
        ensures
            r.wf(),
            r.order() == Seq::<u128>::empty(),
            r.as_map() == Map::<u128, V>::empty(),
    {
        let r = Table { keys: Vec::new(), values: Vec::new() };
        assert(r.as_map() =~= Map::<u128, V>::empty());
        r
    }

    pub fn len(&self) -> (r: usize)
        ensures
            r == self.order().len(),
    {
        self.keys.len()
    }

    pub fn key_at(&self, i: usize) -> (r: u128)
        requires
            self.wf(),
            i < self.order().len(),
        ensures
            r == self.order()[i as int],
    {
        self.keys[i]
    }

    pub fn value_at(&self, i: usize) -> (r: &V)
        requires
            self.wf(),
            i < self.order().len(),
        ensures
            self.as_map().contains_key(self.order()[i as int]),
            *r == self.as_map()[self.order()[i as int]],
    {
        proof {
            self.lemma_at(i as int);
        }
        &self.values[i]
    }

    fn position(&self, key: u128) -> (r: Option<usize>)
        requires
            self.wf(),
        ensures
            match r {
                Some(i) => i < self.keys@.len() && self.keys@[i as int] == key,
                None => !self.keys@.contains(key),
            },
    {
        let mut i: usize = 0;
        while i < self.keys.len()
            invariant
                i <= self.keys@.len(),
                forall|j: int| 0 <= j < i ==> self.keys@[j] != key,
            decreases self.keys@.len() - i,
        {
            if self.keys[i] == key {
                return Some(i);
            }
            i = i + 1;
        }
        None
    }

    pub fn get(&self, key: u128) -> (r: Option<&V>)
        requires
            self.wf(),
        ensures
            match r {
                Some(v) => self.as_map().contains_key(key) && *v == self.as_map()[key],
                None => !self.as_map().contains_key(key),
            },
    {
        match self.position(key) {
            Some(i) => {
                proof {
                    self.lemma_at(i as int);
                }
                Some(&self.values[i])
            },
            None => None,
        }
    }

    pub fn insert(&mut self, key: u128, value: V)
        requires
            old(self).wf(),
        ensures
            final(self).wf(),
            final(self).as_map() == old(self).as_map().insert(key, value),
            final(self).order() == (if old(self).as_map().contains_key(key) {
                old(self).order()
            } else {
                old(self).order().push(key)
            }),
    {
        match self.position(key) {
            Some(i) => {
                self.values.set(i, value);
                proof {
                    assert forall|j: int| 0 <= j < self.keys@.len() implies self.as_map()[self.keys@[j]]
                        == old(self).as_map().insert(key, value)[self.keys@[j]] by {
                        self.lemma_at(j);
                        old(self).lemma_at(j);
                    }
                    assert(self.as_map() =~= old(self).as_map().insert(key, value));
                }
            },
            None => {
                self.keys.push(key);
                self.values.push(value);
                proof {
                    assert(self.keys@.no_duplicates()) by {
                        assert forall|a: int, b: int|
                            0 <= a < b < self.keys@.len() implies self.keys@[a] != self.keys@[b] by {
                            if b == self.keys@.len() - 1 {
                                assert(old(self).keys@.contains(self.keys@[a]));
                            }
                        }
                    }
                    assert forall|j: int| 0 <= j < self.keys@.len() implies self.as_map()[self.keys@[j]]
                        == old(self).as_map().insert(key, value)[self.keys@[j]] by {
                        self.lemma_at(j);
                        if j < old(self).keys@.len() {
                            old(self).lemma_at(j);
                        }
                    }
                    assert forall|k: u128| self.as_map().contains_key(k) <==> old(self).as_map().insert(key, value).contains_key(k) by {
                        assert(self.keys@ =~= old(self).keys@.push(key));
                        if old(self).keys@.contains(k) {
                            let j = choose|j: int| 0 <= j < old(self).keys@.len() && old(self).keys@[j] == k;
                            assert(self.keys@[j] == k);
                        }
                        if k == key {
                            assert(self.keys@[self.keys@.len() - 1] == k);
                        }
                        if self.keys@.contains(k) && k != key {
                            let j = self.keys@.index_of(k);
                            assert(old(self).keys@[j] == k);
                        }
                    }
                    assert(self.as_map() =~= old(self).as_map().insert(key, value));
                }
            },
        }
    }
}

/// A map from text keys to values; keys listed in insertion order.
pub struct TextTable<V> {
    keys: Vec<String>,
    values: Vec<V>,
}

impl<V> TextTable<V> {
    pub closed spec fn wf(&self) -> bool {
        &&& self.keys@.len() == self.values@.len()
        &&& self.key_views().no_duplicates()
    }

    pub closed spec fn key_views(&self) -> Seq<Seq<char>> {
        self.keys@.map_values(|k: String| k@)
    }

    /// The keys, in insertion order.
    pub closed spec fn order(&self) -> Seq<Seq<char>> {
        self.key_views()
    }

    pub closed spec fn as_map(&self) -> Map<Seq<char>, V> {
        Map::new(
            |k: Seq<char>| self.key_views().contains(k),
            |k: Seq<char>| self.values@[self.key_views().index_of(k)],
        )
    }

    proof fn lemma_at(&self, j: int)
        requires
            self.wf(),
            0 <= j < self.keys@.len(),
        ensures
            self.key_views().index_of(self.key_views()[j]) == j,
            self.as_map().contains_key(self.key_views()[j]),
            self.as_map()[self.key_views()[j]] == self.values@[j],
    {
        let k = self.key_views()[j];
        assert(self.key_views().contains(k));
        let i = self.key_views().index_of(k);
        assert(0 <= i < self.keys@.len() && self.key_views()[i] == k);
    }

    pub fn new() -> (r: TextTable<V>)
        ensures
            r.wf(),
            r.order() == Seq::<Seq<char>>::empty(),
            r.as_map() == Map::<Seq<char>, V>::empty(),
    {
        let r = TextTable { keys: Vec::new(), values: Vec::new() };
        assert(r.key_views() =~= Seq::<Seq<char>>::empty());
        assert(r.as_map() =~= Map::<Seq<char>, V>::empty());
        r
    }

    fn position(&self, key: &str) -> (r: Option<usize>)
        requires
            self.wf(),
        ensures
            match r {
                Some(i) => i < self.keys@.len() && self.key_views()[i as int] == key@,
                None => !self.key_views().contains(key@),
            },
    {
        let wanted = key.to_owned();
        let mut i: usize = 0;
        while i < self.keys.len()
            invariant
                i <= self.keys@.len(),
                wanted@ == key@,
                forall|j: int| 0 <= j < i ==> self.key_views()[j] != key@,
            decreases self.keys@.len() - i,
        {
            if self.keys[i] == wanted {
                return Some(i);
            }
            i = i + 1;
        }
        None
    }

    pub fn get(&self, key: &str) -> (r: Option<&V>)
        requires
            self.wf(),
        ensures
            match r {
                Some(v) => self.as_map().contains_key(key@) && *v == self.as_map()[key@],
                None => !self.as_map().contains_key(key@),
            },
    {
        match self.position(key) {
            Some(i) => {
                proof {
                    self.lemma_at(i as int);
                }
                Some(&self.values[i])
            },
            None => None,
        }
    }

    pub fn insert(&mut self, key: String, value: V)
        requires
            old(self).wf(),
        ensures
            final(self).wf(),
            final(self).as_map() == old(self).as_map().insert(key@, value),
            final(self).order() == (if old(self).as_map().contains_key(key@) {
                old(self).order()
            } else {
                old(self).order().push(key@)
            }),
    {
        match self.position(key.as_str()) {
            Some(i) => {
                self.values.set(i, value);
                proof {
                    assert forall|j: int| 0 <= j < self.keys@.len() implies self.as_map()[self.key_views()[j]]
                        == old(self).as_map().insert(key@, value)[self.key_views()[j]] by {
                        self.lemma_at(j);
                        old(self).lemma_at(j);
                    }
                    assert(self.as_map() =~= old(self).as_map().insert(key@, value));
                }
            },
            None => {
                let ghost kv = key@;
                self.keys.push(key);
                self.values.push(value);
                proof {
                    assert(self.key_views() =~= old(self).key_views().push(kv));
                    assert(self.key_views().no_duplicates()) by {
                        assert forall|a: int, b: int|
                            0 <= a < b < self.keys@.len() implies self.key_views()[a] != self.key_views()[b] by {
                            if b == self.keys@.len() - 1 {
                                assert(old(self).key_views().contains(self.key_views()[a]));
                            }
                        }
                    }
                    assert forall|j: int| 0 <= j < self.keys@.len() implies self.as_map()[self.key_views()[j]]
                        == old(self).as_map().insert(kv, value)[self.key_views()[j]] by {
                        self.lemma_at(j);
                        if j < old(self).keys@.len() {
                            old(self).lemma_at(j);
                        }
                    }
                    assert forall|k: Seq<char>| self.as_map().contains_key(k) <==> old(self).as_map().insert(kv, value).contains_key(k) by {
                        if old(self).key_views().contains(k) {
                            let j = choose|j: int| 0 <= j < old(self).key_views().len() && old(self).key_views()[j] == k;
                            assert(self.key_views()[j] == k);
                        }
                        if k == kv {
                            assert(self.key_views()[self.keys@.len() - 1] == k);
                        }
                        if self.key_views().contains(k) && k != kv {
                            let j = self.key_views().index_of(k);
                            assert(old(self).key_views()[j] == k);
                        }
                    }
                    assert(self.as_map() =~= old(self).as_map().insert(kv, value));
                }
            },
        }
    }
}

} // verus!
