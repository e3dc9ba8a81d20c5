//! The keyword facet: keywords interned as small ids in a bidirectional map,
//! and the targets each keyword is attached to.

use vstd::prelude::*;
use bimap::BiHashMap;
use crate::ids::KeywordTarget;
use crate::table::texts;

verus! {

#[verifier::external_type_specification]
#[verifier::external_body]
#[verifier::reject_recursive_types(L)]
#[verifier::reject_recursive_types(R)]
#[verifier::reject_recursive_types(LS)]
#[verifier::reject_recursive_types(RS)]
pub struct ExBiHashMap<L, R, LS, RS>(BiHashMap<L, R, LS, RS>);

/// The pairs an interning bimap holds, keyword to id.
pub uninterp spec fn interned(m: BiHashMap<String, u16>) -> Map<Seq<char>, u16>;

/// Relies on bimap::BiHashMap::new: an empty bimap.
#[verifier::external_body]
fn bimap_new() -> (r: BiHashMap<String, u16>)
    ensures
        interned(r).dom() == Set::<Seq<char>>::empty(),
{
    BiHashMap::new()
}

/// Relies on bimap::BiHashMap::get_by_left: the id paired with a keyword.
#[verifier::external_body]
fn bimap_get_by_left(m: &BiHashMap<String, u16>, keyword: &str) -> (r: Option<u16>)
    ensures
        r == (if interned(*m).contains_key(keyword@) {
            Some(interned(*m)[keyword@])
        } else {
            None::<u16>
        }),
{
    m.get_by_left(keyword).copied()
}

/// Relies on bimap::BiHashMap::get_by_right: the keyword paired with an id.
#[verifier::external_body]
fn bimap_get_by_right(m: &BiHashMap<String, u16>, id: u16) -> (r: Option<String>)
    ensures
        match r {
            Some(s) => interned(*m).contains_key(s@) && interned(*m)[s@] == id,
            None => forall|k: Seq<char>| #[trigger]
                interned(*m).contains_key(k) ==> interned(*m)[k] != id,
        },
{
    m.get_by_right(&id).cloned()
}

/// Relies on bimap::BiHashMap::insert_no_overwrite: the pair goes in exactly
/// when neither side is present yet; otherwise nothing changes.
#[verifier::external_body]
fn bimap_insert_no_overwrite(m: &mut BiHashMap<String, u16>, keyword: String, id: u16) -> (r: bool)
    ensures
        r == (!interned(*old(m)).contains_key(keyword@) && forall|k: Seq<char>| #[trigger]
            interned(*old(m)).contains_key(k) ==> interned(*old(m))[k] != id),
        r ==> interned(*final(m)) == interned(*old(m)).insert(keyword@, id),
        !r ==> interned(*final(m)) == interned(*old(m)),
{
    m.insert_no_overwrite(keyword, id).is_ok()
}

/// Relies on bimap::BiHashMap::left_values: every keyword once, in no
/// particular order.
#[verifier::external_body]
fn bimap_left_values(m: &BiHashMap<String, u16>) -> (r: Vec<String>)
    ensures
        texts(r@).no_duplicates(),
        texts(r@).to_set() == interned(*m).dom(),
{
    m.left_values().cloned().collect()
}

/// The number of distinct keywords the index can intern.
pub const KEYWORD_CAPACITY: u32 = 65536;

fn contains_target(v: &Vec<KeywordTarget>, t: KeywordTarget) -> (r: bool)
    ensures
        r == v@.contains(t),
{
    let mut i: usize = 0;
    while i < v.len()
        invariant
            i <= v@.len(),
            forall|j: int| 0 <= j < i ==> v@[j] != t,
        decreases v@.len() - i,
    {
        if v[i] == t {
            return true;
        }
        i = i + 1;
    }
    false
}

/// The keyword facet as a relation: the keywords known, which keyword is
/// attached to which target, and how many keywords have been interned.
pub struct KeywordView {
    pub keywords: Set<Seq<char>>,
    pub tags: Set<(Seq<char>, KeywordTarget)>,
    pub count: nat,
}

impl KeywordView {
    pub open spec fn empty() -> KeywordView {
        KeywordView { keywords: Set::empty(), tags: Set::empty(), count: 0 }
    }

    /// The view after attaching `k` to `t`: a new keyword is dropped once
    /// every keyword id is taken.
    pub open spec fn add(self, k: Seq<char>, t: KeywordTarget) -> KeywordView {
        if self.keywords.contains(k) {
            KeywordView { tags: self.tags.insert((k, t)), ..self }
        } else if self.count < KEYWORD_CAPACITY {
            KeywordView {
                keywords: self.keywords.insert(k),
                tags: self.tags.insert((k, t)),
                count: self.count + 1,
            }
        } else {
            self
        }
    }

    /// The keywords attached to `t`.
    pub open spec fn keywords_of(self, t: KeywordTarget) -> Set<Seq<char>> {
        Set::new(|k: Seq<char>| self.tags.contains((k, t)))
    }

    /// The targets `k` is attached to.
    pub open spec fn targets_of(self, k: Seq<char>) -> Set<KeywordTarget> {
        Set::new(|t: KeywordTarget| self.tags.contains((k, t)))
    }
}

/// Keywords attached to targets.
pub struct KeywordIndex {
    names: BiHashMap<String, u16>,
    next_id: u32,
    targets_of: Vec<Vec<KeywordTarget>>,
}

impl View for KeywordIndex {
    type V = KeywordView;

    closed spec fn view(&self) -> KeywordView {
        KeywordView {
            keywords: self.keywords(),
            tags: Set::new(|p: (Seq<char>, KeywordTarget)| self.tagged(p.0, p.1)),
            count: self.next_id as nat,
        }
    }
}

impl KeywordIndex {
    pub closed spec fn names_map(&self) -> Map<Seq<char>, u16> {
        interned(self.names)
    }

    pub closed spec fn wf(&self) -> bool {
        let m = self.names_map();
        &&& self.next_id <= KEYWORD_CAPACITY
        &&& self.targets_of@.len() == self.next_id
        &&& forall|k: Seq<char>| #[trigger] m.contains_key(k) ==> (m[k] as u32) < self.next_id
        &&& forall|id: int| 0 <= id < self.next_id ==> #[trigger] self.id_named(id)
        &&& forall|k1: Seq<char>, k2: Seq<char>| #[trigger]
            m.contains_key(k1) && #[trigger] m.contains_key(k2) && m[k1] == m[k2] ==> k1 == k2
        &&& forall|id: int| #![auto] 0 <= id < self.next_id ==> self.targets_of@[id]@.no_duplicates()
    }

    closed spec fn id_named(&self, id: int) -> bool {
        exists|k: Seq<char>| #[trigger] self.names_map().contains_key(k) && self.names_map()[k] == id
    }

    /// Every keyword the index knows.
    pub closed spec fn keywords(&self) -> Set<Seq<char>> {
        self.names_map().dom()
    }

    /// Whether `keyword` is attached to `target`.
    pub closed spec fn tagged(&self, keyword: Seq<char>, target: KeywordTarget) -> bool {
        self.names_map().contains_key(keyword) && self.targets_of@[self.names_map()[keyword] as int]@.contains(target)
    }

    pub fn new() -> (r: KeywordIndex)
        ensures
            r.wf(),
            r.keywords() == Set::<Seq<char>>::empty(),
            forall|k: Seq<char>, t: KeywordTarget| !r.tagged(k, t),
            r@ == KeywordView::empty(),
    {
        let r = KeywordIndex { names: bimap_new(), next_id: 0, targets_of: Vec::new() };
        assert(r.keywords() =~= Set::<Seq<char>>::empty());
        assert(r@.tags =~= Set::<(Seq<char>, KeywordTarget)>::empty());
        r
    }

    /// The id of `keyword`, interning it if it is new and there is room.
    fn get_or_reserve_id(&mut self, keyword: String) -> (r: Option<u16>)
        requires
            old(self).wf(),
        ensures
            final(self).wf(),
            old(self).names_map().contains_key(keyword@) ==> final(self).names_map()
                == old(self).names_map() && final(self).targets_of@ == old(self).targets_of@,
            !old(self).names_map().contains_key(keyword@) && old(self).next_id < KEYWORD_CAPACITY
                ==> final(self).names_map() == old(self).names_map().insert(
                keyword@,
                old(self).next_id as u16,
            ) && final(self).targets_of@.len() == old(self).targets_of@.len() + 1
                && final(self).targets_of@.drop_last() == old(self).targets_of@
                && final(self).targets_of@.last()@.len() == 0
                && final(self).next_id == old(self).next_id + 1,
            !old(self).names_map().contains_key(keyword@) && old(self).next_id == KEYWORD_CAPACITY
                ==> final(self).names_map() == old(self).names_map() && final(self).targets_of@
                == old(self).targets_of@,
            old(self).names_map().contains_key(keyword@) || old(self).next_id == KEYWORD_CAPACITY
                ==> final(self).next_id == old(self).next_id,
            match r {
                Some(id) => final(self).names_map().contains_key(keyword@)
                    && final(self).names_map()[keyword@] == id,
                None => !final(self).names_map().contains_key(keyword@),
            },
    {
        match bimap_get_by_left(&self.names, keyword.as_str()) {
            Some(id) => Some(id),
            None => {
                if self.next_id < KEYWORD_CAPACITY {
                    let id = self.next_id as u16;
                    let ghost kv = keyword@;
                    let ghost m0 = self.names_map();
                    proof {
                        assert forall|k: Seq<char>| #[trigger] m0.contains_key(k) implies m0[k] != id by {}
                    }
                    let inserted = bimap_insert_no_overwrite(&mut self.names, keyword, id);
                    assert(inserted);
                    self.targets_of.push(Vec::new());
                    assert(self.targets_of@.drop_last() =~= old(self).targets_of@);
                    self.next_id = self.next_id + 1;
                    proof {
                        let m = self.names_map();
                        assert(m == m0.insert(kv, id));
                        assert forall|i: int| 0 <= i < self.next_id implies #[trigger] self.id_named(i) by {
                            if i == id {
                                assert(m.contains_key(kv) && m[kv] == i);
                            } else {
                                assert(old(self).id_named(i));
                                let k = choose|k: Seq<char>| #[trigger] m0.contains_key(k) && m0[k] == i;
                                assert(m.contains_key(k) && m[k] == i);
                            }
                        }
                        assert forall|i: int| #![auto] 0 <= i < self.next_id implies self.targets_of@[i]@.no_duplicates() by {
                            if i < old(self).next_id {
                                assert(self.targets_of@[i] == old(self).targets_of@[i]);
                            } else {
                                assert(self.targets_of@[i]@ =~= Seq::<KeywordTarget>::empty());
                            }
                        }
                    }
                    Some(id)
                } else {
                    None
                }
            },
        }
    }
}

impl KeywordIndex {
    /// Whether every keyword id is taken.
    pub closed spec fn is_full(&self) -> bool {
        self.next_id == KEYWORD_CAPACITY
    }

    /// Attaches `keyword` to `target`, interning the keyword if it is new.
    /// Attaching a pair twice changes nothing. A new keyword is dropped once
    /// every keyword id is taken.
    pub fn add_keyword_to_target(&mut self, keyword: String, target: KeywordTarget)
        requires
            old(self).wf(),
        ensures
            final(self).wf(),
            old(self).keywords().contains(keyword@) || !old(self).is_full() ==> {
                &&& final(self).keywords() == old(self).keywords().insert(keyword@)
                &&& forall|k: Seq<char>, t: KeywordTarget| #[trigger] final(self).tagged(k, t)
                    == (old(self).tagged(k, t) || (k == keyword@ && t == target))
            },
            !old(self).keywords().contains(keyword@) && old(self).is_full() ==> {
                &&& final(self).keywords() == old(self).keywords()
                &&& forall|k: Seq<char>, t: KeywordTarget| #[trigger] final(self).tagged(k, t)
                    == old(self).tagged(k, t)
            },
            final(self)@ == old(self)@.add(keyword@, target),
    {
        let ghost kv = keyword@;
        match self.get_or_reserve_id(keyword) {
            Some(id) => {
                let ghost mid = *self;
                let i = id as usize;
                if !contains_target(&self.targets_of[i], target) {
                    self.targets_of[i].push(target);
                }
                proof {
                    let m = self.names_map();
                    assert(self.targets_of@[i as int]@.to_set() =~= mid.targets_of@[i as int]@.to_set().insert(target)
                        || self.targets_of@[i as int]@ == mid.targets_of@[i as int]@.push(target));
                    assert forall|j: int| #![auto] 0 <= j < self.next_id implies self.targets_of@[j]@.no_duplicates() by {
                        if j != i {
                            assert(self.targets_of@[j] == mid.targets_of@[j]);
                        } else if !mid.targets_of@[j]@.contains(target) {
                            let v = self.targets_of@[j]@;
                            assert forall|a: int, b: int| 0 <= a < b < v.len() implies v[a] != v[b] by {
                                if b == v.len() - 1 {
                                    assert(mid.targets_of@[j]@.contains(v[a]));
                                }
                            }
                        }
                    }
                    assert(self.targets_of@[i as int]@.contains(target)) by {
                        if !mid.targets_of@[i as int]@.contains(target) {
                            assert(self.targets_of@[i as int]@.last() == target);
                        }
                    }
                    assert forall|k: Seq<char>, t: KeywordTarget| #[trigger] self.tagged(k, t)
                        == (old(self).tagged(k, t) || (k == kv && t == target)) by {
                        if m.contains_key(k) && k != kv {
                            assert(old(self).names_map().contains_key(k));
                            assert(m[k] != id);
                            assert(self.targets_of@[m[k] as int] == old(self).targets_of@[m[k] as int]);
                        }
                        if k == kv {
                            let v = self.targets_of@[i as int]@;
                            let w = mid.targets_of@[i as int]@;
                            if mid.targets_of@[i as int]@.contains(target) {
                                assert(v == w);
                            } else {
                                assert(v == w.push(target));
                                if w.contains(t) {
                                    let x = choose|x: int| 0 <= x < w.len() && w[x] == t;
                                    assert(v[x] == t);
                                }
                                if v.contains(t) && t != target {
                                    let x = choose|x: int| 0 <= x < v.len() && v[x] == t;
                                    assert(w[x] == t);
                                }
                            }
                            if !old(self).names_map().contains_key(kv) {
                                assert(w.len() == 0);
                            } else {
                                assert(w == old(self).targets_of@[i as int]@);
                            }
                        }
                    }
                    assert(self.keywords() =~= old(self).keywords().insert(kv));
                    assert(forall|j: int| 0 <= j < self.next_id ==> #[trigger] self.id_named(j) == mid.id_named(j));
                    assert(self@.tags =~= old(self)@.tags.insert((kv, target)));
                }
            },
            None => {
                proof {
                    assert(self.keywords() =~= old(self).keywords());
                    assert(self@.tags =~= old(self)@.tags);
                }
            },
        }
    }

    /// Detaches `keyword` from `target`; every other pair stays.
    pub fn remove_keyword_from_target(&mut self, keyword: &str, target: KeywordTarget)
        requires
            old(self).wf(),
        ensures
            final(self).wf(),
            final(self).keywords() == old(self).keywords(),
            forall|k: Seq<char>, t: KeywordTarget| #[trigger] final(self).tagged(k, t)
                == (old(self).tagged(k, t) && !(k == keyword@ && t == target)),
    {
        match bimap_get_by_left(&self.names, keyword) {
            Some(id) => {
                proof {
                    assert(self.names_map().contains_key(keyword@));
                    assert((self.names_map()[keyword@] as u32) < self.next_id);
                }
                let i = id as usize;
                let mut kept: Vec<KeywordTarget> = Vec::new();
                let mut j: usize = 0;
                let ghost src = self.targets_of@[i as int]@;
                while j < self.targets_of[i].len()
                    invariant
                        self.wf(),
                        *self == *old(self),
                        i < self.targets_of@.len(),
                        src == self.targets_of@[i as int]@,
                        j <= src.len(),
                        kept@.no_duplicates(),
                        forall|t: KeywordTarget| #[trigger] kept@.contains(t) == (t != target && exists|y: int| 0 <= y < j && #[trigger] src[y] == t),
                    decreases src.len() - j,
                {
                    let t = self.targets_of[i][j];
                    proof {
                        assert forall|y: int| 0 <= y < j implies src[y] != t by {
                            assert(src[y] != src[j as int]);
                        }
                    }
                    if t != target {
                        let ghost before = kept@;
                        kept.push(t);
                        proof {
                            assert forall|a: int, b: int| 0 <= a < b < kept@.len() implies kept@[a] != kept@[b] by {
                                if b == kept@.len() - 1 {
                                    assert(before.contains(kept@[a]));
                                }
                            }
                            assert forall|x: KeywordTarget| #[trigger] kept@.contains(x) == (before.contains(x) || x == t) by {
                                if before.contains(x) {
                                    let y = choose|y: int| 0 <= y < before.len() && before[y] == x;
                                    assert(kept@[y] == x);
                                }
                                if x == t {
                                    assert(kept@[before.len() as int] == x);
                                }
                                if kept@.contains(x) && x != t {
                                    let y = choose|y: int| 0 <= y < kept@.len() && kept@[y] == x;
                                    assert(before[y] == x);
                                }
                            }
                        }
                    }
                    proof {
                        assert forall|x: KeywordTarget| #[trigger] kept@.contains(x) == (x != target && exists|y: int| 0 <= y < j + 1 && #[trigger] src[y] == x) by {
                            if x != target && exists|y: int| 0 <= y < j + 1 && #[trigger] src[y] == x {
                                let y = choose|y: int| 0 <= y < j + 1 && #[trigger] src[y] == x;
                                if y < j {
                                    assert(exists|y: int| 0 <= y < j && #[trigger] src[y] == x);
                                }
                            }
                            if x == t && x != target {
                                assert(src[j as int] == x);
                            }
                        }
                    }
                    j = j + 1;
                }
                proof {
                    assert forall|x: KeywordTarget| #[trigger] kept@.contains(x) == (x != target && src.contains(x)) by {
                        if src.contains(x) {
                            let y = choose|y: int| 0 <= y < src.len() && src[y] == x;
                            assert(exists|y: int| 0 <= y < j && #[trigger] src[y] == x);
                        }
                    }
                }
                self.targets_of.set(i, kept);
                proof {
                    let m = self.names_map();
                    assert forall|k: Seq<char>, t: KeywordTarget| #[trigger] self.tagged(k, t)
                        == (old(self).tagged(k, t) && !(k == keyword@ && t == target)) by {
                        if m.contains_key(k) && k != keyword@ {
                            assert(m.contains_key(keyword@));
                            assert(m[k] != id);
                        }
                    }
                    assert(forall|x: int| 0 <= x < self.next_id ==> #[trigger] self.id_named(x) == old(self).id_named(x));
                }
            },
            None => {},
        }
    }
}

impl KeywordIndex {
    /// Every keyword, each once.
    pub fn all_keywords(&self) -> (r: Vec<String>)
        requires
            self.wf(),
        ensures
            texts(r@).no_duplicates(),
            texts(r@).to_set() == self.keywords(),
            texts(r@).to_set() == self@.keywords,
    {
        bimap_left_values(&self.names)
    }

    /// The targets `keyword` is attached to, each once.
    pub fn get_targets_of_keyword(&self, keyword: &str) -> (r: Vec<KeywordTarget>)
        requires
            self.wf(),
        ensures
            r@.no_duplicates(),
            forall|t: KeywordTarget| #[trigger] r@.contains(t) == self.tagged(keyword@, t),
            r@.to_set() == self@.targets_of(keyword@),
    {
        let mut r: Vec<KeywordTarget> = Vec::new();
        match bimap_get_by_left(&self.names, keyword) {
            Some(id) => {
                proof {
                    assert(self.names_map().contains_key(keyword@));
                    assert((self.names_map()[keyword@] as u32) < self.next_id);
                }
                let src = &self.targets_of[id as usize];
                let mut j: usize = 0;
                while j < src.len()
                    invariant
                        j <= src@.len(),
                        src@.no_duplicates(),
                        r@ == src@.subrange(0, j as int),
                    decreases src@.len() - j,
                {
                    r.push(src[j]);
                    j = j + 1;
                    assert(r@ =~= src@.subrange(0, j as int));
                }
                assert(r@ =~= src@);
            },
            None => {},
        }
        assert(r@.to_set() =~= self@.targets_of(keyword@));
        r
    }

    /// The keywords attached to `target`, each once.
    pub fn get_keywords(&self, target: &KeywordTarget) -> (r: Vec<String>)
        requires
            self.wf(),
        ensures
            texts(r@).no_duplicates(),
            forall|k: Seq<char>| #[trigger] texts(r@).contains(k) == self.tagged(k, *target),
            texts(r@).to_set() == self@.keywords_of(*target),
    {
        let mut r: Vec<String> = Vec::new();
        let mut id: u32 = 0;
        while id < self.next_id
            invariant
                self.wf(),
                id <= self.next_id,
                texts(r@).no_duplicates(),
                forall|k: Seq<char>| #[trigger] texts(r@).contains(k) == (self.tagged(k, *target)
                    && (self.names_map()[k] as u32) < id),
            decreases self.next_id - id,
        {
            let ghost before = texts(r@);
            if contains_target(&self.targets_of[id as usize], *target) {
                proof {
                    assert(self.id_named(id as int));
                }
                match bimap_get_by_right(&self.names, id as u16) {
                    Some(s) => {
                        let ghost sv = s@;
                        r.push(s);
                        proof {
                            let after = texts(r@);
                            assert(after =~= before.push(sv));
                            assert(!before.contains(sv));
                            assert forall|a: int, b: int| 0 <= a < b < after.len() implies after[a] != after[b] by {
                                if b == after.len() - 1 {
                                    assert(before.contains(after[a]));
                                }
                            }
                            assert forall|k: Seq<char>| #[trigger] after.contains(k) == (self.tagged(k, *target)
                                && (self.names_map()[k] as u32) < id + 1) by {
                                if before.contains(k) {
                                    let y = choose|y: int| 0 <= y < before.len() && before[y] == k;
                                    assert(after[y] == k);
                                }
                                if k == sv {
                                    assert(after[before.len() as int] == k);
                                }
                                if after.contains(k) && k != sv {
                                    let y = choose|y: int| 0 <= y < after.len() && after[y] == k;
                                    assert(before[y] == k);
                                }
                                if self.tagged(k, *target) && self.names_map()[k] as u32 == id {
                                    assert(self.names_map().contains_key(sv));
                                }
                            }
                        }
                    },
                    None => {},
                }
            } else {
                proof {
                    assert forall|k: Seq<char>| #[trigger] before.contains(k) == (self.tagged(k, *target)
                        && (self.names_map()[k] as u32) < id + 1) by {}
                }
            }
            id = id + 1;
        }
        proof {
            assert forall|k: Seq<char>| #[trigger] texts(r@).contains(k) == self.tagged(k, *target) by {
                if self.tagged(k, *target) {
                    assert(self.names_map().contains_key(k));
                }
            }
            assert(texts(r@).to_set() =~= self@.keywords_of(*target));
        }
        r
    }
}

} // verus!
