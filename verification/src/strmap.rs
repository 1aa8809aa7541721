//! A map keyed by strings, kept as an association list: the later of two
//! entries with one key wins, as an insertion into a hash map replaces.

use vstd::prelude::*;
use crate::text::str_eq;

verus! {

/// Index of the last key equal to `k`, or -1.
pub open spec fn key_index(ks: Seq<Seq<char>>, k: Seq<char>) -> int
    decreases ks.len(),
{
    if ks.len() == 0 {
        -1
    } else if ks.last() == k {
        ks.len() - 1
    } else {
        key_index(ks.drop_last(), k)
    }
}

pub proof fn lemma_key_index_bounds(ks: Seq<Seq<char>>, k: Seq<char>)
    ensures
        -1 <= key_index(ks, k) < ks.len(),
        key_index(ks, k) >= 0 ==> ks[key_index(ks, k)] == k,
        key_index(ks, k) < 0 ==> !ks.contains(k),
    decreases ks.len(),
{
    if ks.len() > 0 && ks.last() != k {
        lemma_key_index_bounds(ks.drop_last(), k);
        if key_index(ks, k) < 0 {
            assert forall|i: int| 0 <= i < ks.len() implies ks[i] != k by {
                if i < ks.len() - 1 {
                    assert(ks.drop_last()[i] == ks[i]);
                }
            }
        }
    }
}

pub proof fn lemma_key_index_push(ks: Seq<Seq<char>>, x: Seq<char>, k: Seq<char>)
    ensures
        key_index(ks.push(x), k) == if x == k { ks.len() as int } else { key_index(ks, k) },
{
    assert(ks.push(x).drop_last() =~= ks);
}

/// An association list from strings to values.
#[derive(Debug)]
pub struct StrMap<V> {
    pub keys: Vec<String>,
    pub vals: Vec<V>,
}

impl<V> StrMap<V> {
    pub open spec fn wf(&self) -> bool {
        self.keys@.len() == self.vals@.len()
    }

    pub open spec fn kv(&self) -> Seq<Seq<char>> {
        self.keys.deep_view()
    }

    /// The map this list stands for.
    pub open spec fn map(&self) -> Map<Seq<char>, V> {
        Map::new(
            |k: Seq<char>| key_index(self.kv(), k) >= 0,
            |k: Seq<char>| self.vals@[key_index(self.kv(), k)],
        )
    }

    pub fn new() -> (r: Self)
        ensures
            r.wf(),
            r.map() == Map::<Seq<char>, V>::empty(),
            r.keys@.len() == 0,
    {
        let r = StrMap { keys: Vec::new(), vals: Vec::new() };
        assert(r.map() =~= Map::<Seq<char>, V>::empty());
        r
    }

    pub fn len(&self) -> (r: usize)
        ensures
            r == self.keys@.len(),
    {
        self.keys.len()
    }

    /// Whether the keys and values line up.
    pub fn is_wf(&self) -> (r: bool)
        ensures
            r == self.wf(),
    {
        self.keys.len() == self.vals.len()
    }

    /// Whether there are no entries.
    pub fn is_empty(&self) -> (r: bool)
        requires
            self.wf(),
        ensures
            r == (self.map().dom() == Set::<Seq<char>>::empty()),
    {
        proof {
            if self.keys@.len() > 0 {
                let k = self.kv().last();
                assert(key_index(self.kv(), k) >= 0);
                assert(self.map().dom().contains(k));
            } else {
                assert(self.map().dom() =~= Set::<Seq<char>>::empty());
            }
        }
        self.keys.len() == 0
    }

    /// Index of the entry for `k`.
    pub fn find(&self, k: &str) -> (r: Option<usize>)
        requires
            self.wf(),
        ensures
            match r {
                Some(i) => i == key_index(self.kv(), k@) && i < self.vals@.len(),
                None => key_index(self.kv(), k@) < 0,
            },
            r is Some <==> self.map().contains_key(k@),
    {
        let mut i = self.keys.len();
        assert(self.kv().subrange(0, i as int) =~= self.kv());
        while i > 0
            invariant
                i <= self.keys@.len(),
                self.wf(),
                key_index(self.kv(), k@) == key_index(self.kv().subrange(0, i as int), k@),
            decreases i,
        {
            let ghost sub = self.kv().subrange(0, i as int);
            assert(sub.drop_last() =~= self.kv().subrange(0, i - 1));
            assert(sub.last() == self.keys@[i - 1]@);
            if str_eq(self.keys[i - 1].as_str(), k) {
                return Some(i - 1);
            }
            i = i - 1;
        }
        None
    }

    pub fn get(&self, k: &str) -> (r: Option<&V>)
        requires
            self.wf(),
        ensures
            match r {
                Some(v) => self.map().contains_key(k@) && self.map()[k@] == *v,
                None => !self.map().contains_key(k@),
            },
    {
        match self.find(k) {
            Some(i) => Some(&self.vals[i]),
            None => None,
        }
    }

    pub fn contains_key(&self, k: &str) -> (r: bool)
        requires
            self.wf(),
        ensures
            r == self.map().contains_key(k@),
    {
        self.find(k).is_some()
    }

    /// Sets the value for `k`, replacing any value it had.
    pub fn insert(&mut self, k: String, v: V)
        requires
            old(self).wf(),
        ensures
            final(self).wf(),
            final(self).map() == old(self).map().insert(k@, v),
    {
        match self.find(k.as_str()) {
            Some(i) => {
                let ghost ks = self.kv();
                self.vals.remove(i);
                self.vals.insert(i, v);
                assert(self.vals@ =~= old(self).vals@.update(i as int, v));
                assert(self.kv() == ks);
                assert forall|x: Seq<char>| key_index(ks, x) >= 0 && x != k@ implies key_index(ks, x) != i by {
                    lemma_key_index_bounds(ks, x);
                    lemma_key_index_bounds(ks, k@);
                }
                assert(key_index(ks, k@) == i);
                assert forall|x: Seq<char>| #[trigger] self.map().contains_key(x) implies self.map()[x]
                    == old(self).map().insert(k@, v)[x] by {
                    lemma_key_index_bounds(ks, x);
                    if x == k@ {
                        assert(self.map()[x] == self.vals@[i as int]);
                    } else {
                        assert(self.map()[x] == old(self).vals@[key_index(ks, x)]);
                    }
                }
                assert(self.map() =~= old(self).map().insert(k@, v));
            },
            None => {
                let ghost ks = self.kv();
                let ghost kk = k@;
                self.keys.push(k);
                self.vals.push(v);
                assert(self.kv() =~= ks.push(kk));
                assert forall|x: Seq<char>| #[trigger] key_index(self.kv(), x) == if kk == x {
                    ks.len() as int
                } else {
                    key_index(ks, x)
                } by {
                    lemma_key_index_push(ks, kk, x);
                }
                assert forall|x: Seq<char>| key_index(ks, x) < ks.len() by {
                    lemma_key_index_bounds(ks, x);
                }
                assert(self.map() =~= old(self).map().insert(kk, v));
            },
        }
    }

    /// Replaces the value at index `i`, returning the value it had.
    pub fn replace_at(&mut self, i: usize, v: V) -> (r: V)
        requires
            old(self).wf(),
            i < old(self).vals@.len(),
        ensures
            final(self).wf(),
            final(self).keys == old(self).keys,
            final(self).vals@ == old(self).vals@.update(i as int, v),
            r == old(self).vals@[i as int],
    {
        let r = self.vals.remove(i);
        self.vals.insert(i, v);
        assert(self.vals@ =~= old(self).vals@.update(i as int, v));
        r
    }

    pub fn key_at(&self, i: usize) -> (r: &String)
        requires
            i < self.keys@.len(),
        ensures
            *r == self.keys@[i as int],
    {
        &self.keys[i]
    }

    pub fn value_at(&self, i: usize) -> (r: &V)
        requires
            i < self.vals@.len(),
        ensures
            *r == self.vals@[i as int],
    {
        &self.vals[i]
    }

    /// Replaces the value at index `i`; when `i` is the entry of a key `k`, the map
    /// is the old map with `k` set to `v`.
    pub fn set_entry(&mut self, i: usize, v: V) -> (r: V)
        requires
            old(self).wf(),
            i < old(self).vals@.len(),
        ensures
            final(self).wf(),
            final(self).keys == old(self).keys,
            final(self).vals@ == old(self).vals@.update(i as int, v),
            r == old(self).vals@[i as int],
            forall|k: Seq<char>| #[trigger] key_index(old(self).kv(), k) == i ==> final(self).map()
                == old(self).map().insert(k, v) && r == old(self).map()[k],
    {
        let r = self.replace_at(i, v);
        proof {
            let ks = self.kv();
            assert forall|k: Seq<char>| #[trigger] key_index(old(self).kv(), k) == i implies final(self).map()
                == old(self).map().insert(k, v) by {
                assert forall|x: Seq<char>| key_index(ks, x) >= 0 && x != k implies key_index(ks, x) != i by {
                    lemma_key_index_bounds(ks, x);
                    lemma_key_index_bounds(ks, k);
                }
                assert forall|x: Seq<char>| #[trigger] self.map().contains_key(x) implies self.map()[x]
                    == old(self).map().insert(k, v)[x] by {
                    lemma_key_index_bounds(ks, x);
                    if x == k {
                        assert(self.map()[x] == self.vals@[i as int]);
                    } else {
                        assert(self.map()[x] == old(self).vals@[key_index(ks, x)]);
                    }
                }
                assert(self.map() =~= old(self).map().insert(k, v));
            }
        }
        r
    }

    /// Index of the entry for `k`, inserting `default` first when `k` has none.
    pub fn entry_index(&mut self, k: &str, default: V) -> (r: usize)
        requires
            old(self).wf(),
        ensures
            final(self).wf(),
            r < final(self).vals@.len(),
            r == key_index(final(self).kv(), k@),
            final(self).map() == if old(self).map().contains_key(k@) {
                old(self).map()
            } else {
                old(self).map().insert(k@, default)
            },
    {
        match self.find(k) {
            Some(i) => {
                assert(self.map() == old(self).map());
                i
            },
            None => {
                self.insert(crate::text::str_of(k), default);
                let i = self.find(k);
                assert(self.map().contains_key(k@));
                i.unwrap()
            },
        }
    }
}

} // verus!
