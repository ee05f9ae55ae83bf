//! A small map from 64-bit handles to records, kept in insertion order.
use vstd::prelude::*;

verus! {

/// Records keyed by handle. Each handle appears at most once; iteration follows
/// insertion order.
pub struct Table<T> {
    entries: Vec<(u64, T)>,
    contents: Ghost<Map<u64, T>>,
}

impl<T> Table<T> {
    pub closed spec fn view(&self) -> Map<u64, T> {
        self.contents@
    }

    /// The keys in the order they were inserted.
    pub closed spec fn key_order(&self) -> Seq<u64> {
        self.entries@.map_values(|e: (u64, T)| e.0)
    }

    pub closed spec fn wf(&self) -> bool {
        &&& forall|i: int, j: int|
            0 <= i < j < self.entries@.len() ==> #[trigger] self.entries@[i].0
                != #[trigger] self.entries@[j].0
        &&& forall|i: int|
            0 <= i < self.entries@.len() ==> self.contents@.contains_key(
                #[trigger] self.entries@[i].0,
            ) && self.contents@[self.entries@[i].0] == self.entries@[i].1
        &&& forall|k: u64|
            #[trigger] self.contents@.contains_key(k) ==> exists|i: int|
                0 <= i < self.entries@.len() && #[trigger] self.entries@[i].0 == k
    }

    pub fn new() -> (r: Self)
        ensures
            r.wf(),
            r@ == Map::<u64, T>::empty(),
            r.key_order() == Seq::<u64>::empty(),
    {
        let r = Table { entries: Vec::new(), contents: Ghost(Map::empty()) };
        assert(r.key_order() =~= Seq::<u64>::empty());
        r
    }

    fn index_of(&self, key: u64) -> (r: Option<usize>)
        requires
            self.wf(),
        ensures
            r matches Some(i) ==> i < self.entries@.len() && self.entries@[i as int].0 == key,
            r is None ==> !self@.contains_key(key),
    {
        let mut i: usize = 0;
        while i < self.entries.len()
            invariant
                i <= self.entries@.len(),
                forall|j: int| 0 <= j < i ==> self.entries@[j].0 != key,
            decreases self.entries@.len() - i,
        {
            if self.entries[i].0 == key {
                return Some(i);
            }
            i = i + 1;
        }
        None
    }

    /// Whether a record is filed under `key`.
    pub fn contains(&self, key: u64) -> (r: bool)
        requires
            self.wf(),
        ensures
            r == self@.contains_key(key),
    {
        self.index_of(key).is_some()
    }

    /// The record filed under `key`.
    pub fn get(&self, key: u64) -> (r: Option<&T>)
        requires
            self.wf(),
        ensures
            r matches Some(v) ==> self@.contains_key(key) && self@[key] == *v,
            r is None ==> !self@.contains_key(key),
    {
        match self.index_of(key) {
            Some(i) => Some(&self.entries[i].1),
            None => None,
        }
    }

    /// Files `value` under a key that holds nothing yet.
    pub fn insert(&mut self, key: u64, value: T)
        requires
            old(self).wf(),
            !old(self)@.contains_key(key),
        ensures
            final(self).wf(),
            final(self)@ == old(self)@.insert(key, value),
            final(self).key_order() == old(self).key_order().push(key),
    {
        let ghost before = self.entries@;
        let ghost v = value;
        self.entries.push((key, value));
        assert(self.key_order() =~= old(self).key_order().push(key));
        self.contents = Ghost(self.contents@.insert(key, v));
        proof {
            assert(self.entries@[before.len() as int].0 == key);
            assert forall|k: u64| #[trigger] self.contents@.contains_key(k) implies exists|i: int|
                0 <= i < self.entries@.len() && #[trigger] self.entries@[i].0 == k by {
                if k == key {
                    assert(self.entries@[before.len() as int].0 == k);
                } else {
                    let i = choose|i: int| 0 <= i < before.len() && #[trigger] before[i].0 == k;
                    assert(self.entries@[i].0 == k);
                }
            }
        }
    }

    /// Replaces the record filed under `key`.
    pub fn set(&mut self, key: u64, value: T)
        requires
            old(self).wf(),
            old(self)@.contains_key(key),
        ensures
            final(self).wf(),
            final(self)@ == old(self)@.insert(key, value),
            final(self).key_order() == old(self).key_order(),
    {
        let i = self.index_of(key).unwrap();
        let ghost before = self.entries@;
        let ghost v = value;
        self.entries.set(i, (key, value));
        assert(self.key_order() =~= old(self).key_order());
        self.contents = Ghost(self.contents@.insert(key, v));
        proof {
            assert forall|k: u64| #[trigger] self.contents@.contains_key(k) implies exists|j: int|
                0 <= j < self.entries@.len() && #[trigger] self.entries@[j].0 == k by {
                let j = choose|j: int| 0 <= j < before.len() && #[trigger] before[j].0 == k;
                assert(self.entries@[j].0 == k);
            }
        }
    }

    /// Takes out the record filed under `key`, if there is one.
    pub fn remove(&mut self, key: u64) -> (r: Option<T>)
        requires
            old(self).wf(),
        ensures
            final(self).wf(),
            final(self)@ == old(self)@.remove(key),
            r matches Some(v) ==> old(self)@.contains_key(key) && old(self)@[key] == v,
            r is None ==> !old(self)@.contains_key(key),
            r is Some ==> exists|i: int|
                0 <= i < old(self).key_order().len() && old(self).key_order()[i] == key && final(self).key_order() == old(self).key_order().remove(i),
            r is None ==> final(self).key_order() == old(self).key_order(),
    {
        match self.index_of(key) {
            Some(i) => {
                let ghost before = self.entries@;
                let (_, v) = self.entries.remove(i);
                assert(self.key_order() =~= old(self).key_order().remove(i as int));
                assert(old(self).key_order()[i as int] == key);
                self.contents = Ghost(self.contents@.remove(key));
                proof {
                    assert forall|k: u64| #[trigger] self.contents@.contains_key(k) implies exists|
                        j: int,
                    | 0 <= j < self.entries@.len() && #[trigger] self.entries@[j].0 == k by {
                        let j = choose|j: int| 0 <= j < before.len() && #[trigger] before[j].0 == k;
                        if j < i {
                            assert(self.entries@[j].0 == k);
                        } else {
                            assert(j != i);
                            assert(self.entries@[j - 1].0 == k);
                        }
                    }
                    assert forall|a: int| 0 <= a < self.entries@.len() implies self.contents@.contains_key(
                        #[trigger] self.entries@[a].0,
                    ) && self.contents@[self.entries@[a].0] == self.entries@[a].1 by {
                        if a < i {
                            assert(self.entries@[a] == before[a]);
                        } else {
                            assert(self.entries@[a] == before[a + 1]);
                        }
                    }
                }
                Some(v)
            },
            None => {
                assert(self.contents@.remove(key) =~= self.contents@);
                None
            },
        }
    }

    /// Every key, in insertion order.
    pub fn keys(&self) -> (r: Vec<u64>)
        requires
            self.wf(),
        ensures
            r@ == self.key_order(),
            r@.no_duplicates(),
            r@.to_set() == self@.dom(),
            forall|i: int| 0 <= i < r@.len() ==> self@.contains_key(#[trigger] r@[i]),
            forall|k: u64| self@.contains_key(k) ==> r@.contains(k),
    {
        let mut r: Vec<u64> = Vec::new();
        let mut i: usize = 0;
        while i < self.entries.len()
            invariant
                self.wf(),
                i <= self.entries@.len(),
                r@.len() == i,
                forall|j: int| 0 <= j < i ==> r@[j] == self.entries@[j].0,
            decreases self.entries@.len() - i,
        {
            r.push(self.entries[i].0);
            i = i + 1;
        }
        proof {
            assert forall|a: int, b: int| 0 <= a < r@.len() && 0 <= b < r@.len() && a != b implies r@[a]
                != r@[b] by {
                if a < b {
                    assert(self.entries@[a].0 != self.entries@[b].0);
                } else {
                    assert(self.entries@[b].0 != self.entries@[a].0);
                }
            }
            assert forall|k: u64| self@.contains_key(k) implies r@.contains(k) by {
                let j = choose|j: int| 0 <= j < self.entries@.len() && #[trigger] self.entries@[j].0 == k;
                assert(r@[j] == k);
            }
            assert(r@.to_set() =~= self@.dom());
            assert(r@ =~= self.key_order());
        }
        r
    }

    /// The insertion order names each key once, and only keys the table holds.
    pub proof fn lemma_key_order_unique(&self)
        requires
            self.wf(),
        ensures
            self.key_order().no_duplicates(),
            forall|i: int|
                0 <= i < self.key_order().len() ==> self@.contains_key(#[trigger] self.key_order()[i]),
    {
        assert forall|i: int, j: int|
            0 <= i < self.key_order().len() && 0 <= j < self.key_order().len() && i != j implies self.key_order()[i]
            != self.key_order()[j] by {
            if i < j {
                assert(self.entries@[i].0 != self.entries@[j].0);
            } else {
                assert(self.entries@[j].0 != self.entries@[i].0);
            }
        }
        assert forall|i: int| 0 <= i < self.key_order().len() implies self@.contains_key(
            #[trigger] self.key_order()[i],
        ) by {
            assert(self.contents@.contains_key(self.entries@[i].0));
        }
    }
}

} // verus!
