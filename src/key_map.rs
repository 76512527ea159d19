//! A map from text keys to values that keeps its entries in ascending key
//! order, so that walking it yields the keys sorted.
use std::cmp::Ordering;
use vstd::prelude::*;
use crate::keys::{compare_keys, key_less, strictly_sorted, lemma_key_less_transitive,
    lemma_key_less_irreflexive};

verus! {

pub struct KeyMap<V> {
    keys: Vec<String>,
    vals: Vec<V>,
}

pub open spec fn views_of(ks: Seq<String>) -> Seq<Seq<char>> {
    ks.map_values(|k: String| k@)
}

impl<V> KeyMap<V> {
    #[verifier::type_invariant]
    spec fn inv(self) -> bool {
        &&& self.keys.len() == self.vals.len()
        &&& strictly_sorted(views_of(self.keys@))
    }

    /// The keys, in ascending order.
    pub closed spec fn key_seq(self) -> Seq<Seq<char>> {
        views_of(self.keys@)
    }

    /// The map as a mathematical map from keys to values.
    pub closed spec fn contents(self) -> Map<Seq<char>, V> {
        Map::new(
            |k: Seq<char>| self.key_seq().contains(k),
            |k: Seq<char>| self.vals@[self.key_seq().index_of(k)],
        )
    }

    proof fn lemma_index(self, i: int)
        requires
            self.inv(),
            0 <= i < self.keys.len(),
        ensures
            self.contents().contains_key(self.key_seq()[i]),
            self.contents()[self.key_seq()[i]] == self.vals@[i],
    {
        let ks = self.key_seq();
        assert(ks.contains(ks[i]));
        let j = ks.index_of(ks[i]);
        if j < i {
            assert(key_less(ks[j], ks[i]));
            lemma_key_less_irreflexive(ks[i]);
        } else if i < j {
            assert(key_less(ks[i], ks[j]));
            lemma_key_less_irreflexive(ks[i]);
        }
    }

    /// An empty map.
    pub fn new() -> (r: Self)
        ensures
            r@ == Map::<Seq<char>, V>::empty(),
            r.key_seq().len() == 0,
    {
        let r = KeyMap { keys: Vec::new(), vals: Vec::new() };
        assert(r.contents() =~= Map::<Seq<char>, V>::empty());
        r
    }

    /// Where `k` stands (`Ok`), or where it would be inserted (`Err`).
    fn find(&self, k: &str) -> (r: Result<usize, usize>)
        ensures
            match r {
                Ok(i) => i < self.key_seq().len() && self.key_seq()[i as int] == k@,
                Err(i) => {
                    &&& i <= self.key_seq().len()
                    &&& forall|j: int| 0 <= j < i ==> key_less(#[trigger] self.key_seq()[j], k@)
                    &&& forall|j: int|
                        i <= j < self.key_seq().len() ==> key_less(k@, #[trigger] self.key_seq()[j])
                },
            },
    {
        proof {
            use_type_invariant(self);
        }
        let ghost ks = self.key_seq();
        let mut lo: usize = 0;
        let mut hi: usize = self.keys.len();
        while lo < hi
            invariant
                ks == self.key_seq(),
                ks.len() == self.keys.len(),
                strictly_sorted(ks),
                lo <= hi <= ks.len(),
                forall|j: int| 0 <= j < lo ==> key_less(#[trigger] ks[j], k@),
                forall|j: int| hi <= j < ks.len() ==> key_less(k@, #[trigger] ks[j]),
            decreases hi - lo,
        {
            let mid = lo + (hi - lo) / 2;
            match compare_keys(self.keys[mid].as_str(), k) {
                Ordering::Equal => {
                    return Ok(mid);
                },
                Ordering::Less => {
                    assert forall|j: int| 0 <= j < mid + 1 implies key_less(#[trigger] ks[j], k@) by {
                        if j < mid {
                            lemma_key_less_transitive(ks[j], ks[mid as int], k@);
                        }
                    }
                    lo = mid + 1;
                },
                Ordering::Greater => {
                    assert forall|j: int| mid <= j < ks.len() implies key_less(k@, #[trigger] ks[j]) by {
                        if j > mid {
                            lemma_key_less_transitive(k@, ks[mid as int], ks[j]);
                        }
                    }
                    hi = mid;
                },
            }
        }
        Err(lo)
    }

    /// Whether `k` has a value.
    pub fn contains_key(&self, k: &str) -> (r: bool)
        ensures
            r == self@.contains_key(k@),
    {
        proof {
            use_type_invariant(self);
        }
        match self.find(k) {
            Ok(i) => {
                proof {
                    self.lemma_index(i as int);
                }
                true
            },
            Err(i) => {
                proof {
                    if self.key_seq().contains(k@) {
                        let j = choose|j: int| 0 <= j < self.key_seq().len() && self.key_seq()[j] == k@;
                        lemma_key_less_irreflexive(k@);
                    }
                }
                false
            },
        }
    }

    /// The value of `k`, if it has one.
    pub fn get(&self, k: &str) -> (r: Option<&V>)
        ensures
            match r {
                Some(v) => self@.contains_key(k@) && *v == self@[k@],
                None => !self@.contains_key(k@),
            },
    {
        proof {
            use_type_invariant(self);
        }
        match self.find(k) {
            Ok(i) => {
                proof {
                    self.lemma_index(i as int);
                }
                Some(&self.vals[i])
            },
            Err(i) => {
                proof {
                    if self.key_seq().contains(k@) {
                        let j = choose|j: int| 0 <= j < self.key_seq().len() && self.key_seq()[j] == k@;
                        lemma_key_less_irreflexive(k@);
                    }
                }
                None
            },
        }
    }

    /// The number of keys that have a value; the keys stand in ascending order.
    pub fn len(&self) -> (r: usize)
        ensures
            r == self@.len(),
            r == self.key_seq().len(),
            strictly_sorted(self.key_seq()),
            forall|k: Seq<char>| self@.contains_key(k) <==> self.key_seq().contains(k),
    {
        proof {
            use_type_invariant(self);
            self.lemma_dom();
        }
        self.keys.len()
    }

    /// The `i`-th key in ascending order, with its value.
    pub fn entry(&self, i: usize) -> (r: (&String, &V))
        requires
            i < self.key_seq().len(),
        ensures
            r.0@ == self.key_seq()[i as int],
            self@.contains_key(r.0@),
            *r.1 == self@[r.0@],
    {
        proof {
            use_type_invariant(self);
            self.lemma_index(i as int);
        }
        (&self.keys[i], &self.vals[i])
    }

    proof fn lemma_dom(self)
        requires
            self.inv(),
        ensures
            self.contents().dom() == self.key_seq().to_set(),
            self.contents().len() == self.key_seq().len(),
    {
        assert(self.contents().dom() =~= self.key_seq().to_set());
        assert forall|a: int, b: int| 0 <= a < self.key_seq().len() && 0 <= b < self.key_seq().len()
            && a != b implies self.key_seq()[a] != self.key_seq()[b] by {
            if a < b {
                assert(key_less(self.key_seq()[a], self.key_seq()[b]));
            } else {
                assert(key_less(self.key_seq()[b], self.key_seq()[a]));
            }
            lemma_key_less_irreflexive(self.key_seq()[a]);
        }
        self.key_seq().unique_seq_to_set();
    }

    proof fn lemma_all(self)
        requires
            self.inv(),
        ensures
            forall|j: int|
                0 <= j < self.key_seq().len() ==> {
                    &&& self.contents().contains_key(#[trigger] self.key_seq()[j])
                    &&& self.contents()[self.key_seq()[j]] == self.vals@[j]
                },
            forall|q: Seq<char>|
                #[trigger] self.contents().contains_key(q) <==> self.key_seq().contains(q),
    {
        assert forall|j: int| 0 <= j < self.key_seq().len() implies {
            &&& self.contents().contains_key(#[trigger] self.key_seq()[j])
            &&& self.contents()[self.key_seq()[j]] == self.vals@[j]
        } by {
            self.lemma_index(j);
        }
    }

    /// Gives `k` the value `v`, in place of any value it had.
    pub fn insert(&mut self, k: String, v: V)
        ensures
            final(self)@ == old(self)@.insert(k@, v),
    {
        proof {
            use_type_invariant(&*self);
        }
        let ghost prev: KeyMap<V> = *self;
        proof {
            prev.lemma_all();
        }
        match self.find(k.as_str()) {
            Ok(i) => {
                let mut parts = KeyMap::new();
                std::mem::swap(self, &mut parts);
                let KeyMap { keys, mut vals } = parts;
                vals.set(i, v);
                *self = KeyMap { keys, vals };
                proof {
                    self.lemma_all();
                    assert(self.key_seq() == prev.key_seq());
                    let goal = prev.contents().insert(k@, v);
                    assert forall|q: Seq<char>| #[trigger] self.contents().contains_key(q)
                        implies self.contents()[q] == goal[q] by {
                        let j = choose|j: int| 0 <= j < self.key_seq().len() && self.key_seq()[j] == q;
                        assert(self.contents()[self.key_seq()[j]] == self.vals@[j]);
                    }
                    assert(self.contents() =~= goal);
                }
            },
            Err(i) => {
                let ghost kv = k@;
                let mut parts = KeyMap::new();
                std::mem::swap(self, &mut parts);
                let KeyMap { mut keys, mut vals } = parts;
                keys.insert(i, k);
                vals.insert(i, v);
                proof {
                    let ks = prev.key_seq();
                    assert(views_of(keys@) =~= ks.insert(i as int, kv));
                    assert forall|a: int, b: int| 0 <= a < b < keys.len()
                        implies #[trigger] key_less(views_of(keys@)[a], views_of(keys@)[b]) by {
                        if b < i {
                        } else if b == i {
                        } else if a < i {
                            lemma_key_less_transitive(ks[a], kv, ks[b - 1]);
                        } else if a == i {
                        } else {
                            assert(key_less(ks[a - 1], ks[b - 1]));
                        }
                    }
                }
                *self = KeyMap { keys, vals };
                proof {
                    let ks = prev.key_seq();
                    assert(self.key_seq() =~= ks.insert(i as int, kv));
                    self.lemma_all();
                    let goal = prev.contents().insert(kv, v);
                    assert forall|q: Seq<char>| #[trigger] self.contents().contains_key(q)
                        == goal.contains_key(q) by {
                        if goal.contains_key(q) && q != kv {
                            let j = choose|j: int| 0 <= j < ks.len() && ks[j] == q;
                            if j < i {
                                assert(self.key_seq()[j] == q);
                            } else {
                                assert(self.key_seq()[j + 1] == q);
                            }
                        }
                        if q == kv {
                            assert(self.key_seq()[i as int] == q);
                        }
                    }
                    assert forall|q: Seq<char>| #[trigger] self.contents().contains_key(q)
                        implies self.contents()[q] == goal[q] by {
                        let j = choose|j: int| 0 <= j < self.key_seq().len() && self.key_seq()[j] == q;
                        assert(self.contents()[self.key_seq()[j]] == self.vals@[j]);
                        if j < i {
                            assert(ks[j] == q);
                            lemma_key_less_irreflexive(q);
                            assert(prev.contents()[ks[j]] == prev.vals@[j]);
                        } else if j > i {
                            assert(ks[j - 1] == q);
                            lemma_key_less_irreflexive(q);
                            assert(prev.contents()[ks[j - 1]] == prev.vals@[j - 1]);
                        }
                    }
                    assert(self.contents() =~= goal);
                }
            },
        }
    }

    /// Takes the value of `k` out of the map.
    pub fn remove(&mut self, k: &str) -> (r: Option<V>)
        ensures
            final(self)@ == old(self)@.remove(k@),
            match r {
                Some(v) => old(self)@.contains_key(k@) && v == old(self)@[k@],
                None => !old(self)@.contains_key(k@),
            },
    {
        proof {
            use_type_invariant(&*self);
        }
        let ghost prev: KeyMap<V> = *self;
        proof {
            prev.lemma_all();
        }
        match self.find(k) {
            Ok(i) => {
                let mut parts = KeyMap::new();
                std::mem::swap(self, &mut parts);
                let KeyMap { mut keys, mut vals } = parts;
                keys.remove(i);
                let v = vals.remove(i);
                proof {
                    let ks = prev.key_seq();
                    assert(views_of(keys@) =~= ks.remove(i as int));
                    assert forall|a: int, b: int| 0 <= a < b < keys.len()
                        implies #[trigger] key_less(views_of(keys@)[a], views_of(keys@)[b]) by {
                        if b < i {
                        } else if a < i {
                            assert(key_less(ks[a], ks[b + 1]));
                        } else {
                            assert(key_less(ks[a + 1], ks[b + 1]));
                        }
                    }
                }
                *self = KeyMap { keys, vals };
                proof {
                    let ks = prev.key_seq();
                    assert(self.key_seq() =~= ks.remove(i as int));
                    self.lemma_all();
                    let goal = prev.contents().remove(k@);
                    assert forall|q: Seq<char>| #[trigger] self.contents().contains_key(q)
                        == goal.contains_key(q) by {
                        if goal.contains_key(q) {
                            let j = choose|j: int| 0 <= j < ks.len() && ks[j] == q;
                            if j < i {
                                assert(self.key_seq()[j] == q);
                            } else {
                                assert(j != i);
                                assert(self.key_seq()[j - 1] == q);
                            }
                        }
                        if self.contents().contains_key(q) {
                            let j = choose|j: int| 0 <= j < self.key_seq().len() && self.key_seq()[j] == q;
                            if j < i {
                                assert(key_less(ks[j], ks[i as int]));
                                lemma_key_less_irreflexive(q);
                                assert(ks[j] == q);
                            } else {
                                assert(key_less(ks[i as int], ks[j + 1]));
                                lemma_key_less_irreflexive(q);
                                assert(ks[j + 1] == q);
                            }
                        }
                    }
                    assert forall|q: Seq<char>| #[trigger] self.contents().contains_key(q)
                        implies self.contents()[q] == goal[q] by {
                        let j = choose|j: int| 0 <= j < self.key_seq().len() && self.key_seq()[j] == q;
                        assert(self.contents()[self.key_seq()[j]] == self.vals@[j]);
                        if j < i {
                            assert(ks[j] == q);
                        } else {
                            assert(ks[j + 1] == q);
                        }
                    }
                    assert(self.contents() =~= goal);
                }
                Some(v)
            },
            Err(i) => {
                proof {
                    if prev.key_seq().contains(k@) {
                        let j = choose|j: int| 0 <= j < prev.key_seq().len() && prev.key_seq()[j] == k@;
                        lemma_key_less_irreflexive(k@);
                    }
                    assert(prev.contents().remove(k@) =~= prev.contents());
                }
                None
            },
        }
    }
}

impl<V> View for KeyMap<V> {
    type V = Map<Seq<char>, V>;

    closed spec fn view(&self) -> Map<Seq<char>, V> {
        self.contents()
    }
}

} // verus!
