//! A table of values under text keys.

use vstd::prelude::*;

use crate::text::{list_has, same_text, texts};

verus! {

/// Values under distinct text keys, in the order in which the keys came.
#[derive(Debug)]
pub struct Table<V> {
    entries: Vec<(String, V)>,
}

impl<V> Table<V> {
    /// The keys in their order.
    pub closed spec fn keys(self) -> Seq<Seq<char>> {
        Seq::new(self.entries@.len(), |i: int| self.entries@[i].0@)
    }

    /// The values in the order of their keys.
    pub closed spec fn values(self) -> Seq<V> {
        Seq::new(self.entries@.len(), |i: int| self.entries@[i].1)
    }

    /// No key comes twice.
    pub open spec fn wf(self) -> bool {
        &&& self.keys().no_duplicates()
        &&& self.keys().len() == self.values().len()
    }

    /// The table as a map.
    pub open spec fn view(self) -> Map<Seq<char>, V> {
        Map::new(
            |k: Seq<char>| self.keys().contains(k),
            |k: Seq<char>| self.values()[self.keys().index_of(k)],
        )
    }

    /// Each key has its value in the map, and the map has no other keys.
    pub proof fn lemma_entries(self)
        requires
            self.wf(),
        ensures
            forall|i: int|
                0 <= i < self.keys().len() ==> self@.dom().contains(#[trigger] self.keys()[i])
                    && self@[self.keys()[i]] == self.values()[i],
            self@.dom() == self.keys().to_set(),
            self@.dom().finite(),
            self@.dom().len() == self.keys().len(),
            self.keys().len() == self.values().len(),
    {
        let keys = self.keys();
        assert forall|i: int| 0 <= i < keys.len() implies self@.dom().contains(
            #[trigger] keys[i],
        ) && self@[keys[i]] == self.values()[i] by {
            assert(keys.contains(keys[i]));
            let j = keys.index_of(keys[i]);
            assert(keys[j] == keys[i]);
        }
        assert(self@.dom() =~= keys.to_set());
        keys.unique_seq_to_set();
    }

    /// The table without entries.
    pub fn new() -> (r: Self)
        ensures
            r.wf(),
            r@ == Map::<Seq<char>, V>::empty(),
            r.keys() == Seq::<Seq<char>>::empty(),
    {
        let r = Table { entries: Vec::new() };
        assert(r@ =~= Map::<Seq<char>, V>::empty());
        assert(r.keys() =~= Seq::<Seq<char>>::empty());
        r
    }

    /// The number of entries.
    pub fn len(&self) -> (r: usize)
        requires
            self.wf(),
        ensures
            r == self@.dom().len(),
            r == self.keys().len(),
            self@.dom().finite(),
    {
        proof {
            self.lemma_entries();
        }
        self.entries.len()
    }

    /// The place of a key.
    fn find(&self, key: &str) -> (r: Option<usize>)
        ensures
            match r {
                Some(i) => i < self.keys().len() && self.keys()[i as int] == key@,
                None => !self.keys().contains(key@),
            },
    {
        let mut i: usize = 0;
        while i < self.entries.len()
            invariant
                0 <= i <= self.entries@.len(),
                forall|j: int| 0 <= j < i ==> self.keys()[j] != key@,
            decreases self.entries@.len() - i,
        {
            if same_text(self.entries[i].0.as_str(), key) {
                return Some(i);
            }
            i = i + 1;
        }
        None
    }

    /// The key at a place.
    pub fn key_at<'a>(&'a self, i: usize) -> (r: &'a str)
        requires
            i < self.keys().len(),
        ensures
            r@ == self.keys()[i as int],
    {
        self.entries[i].0.as_str()
    }

    /// The value at a place.
    pub fn value_at<'a>(&'a self, i: usize) -> (r: &'a V)
        requires
            i < self.keys().len(),
        ensures
            *r == self.values()[i as int],
    {
        &self.entries[i].1
    }

    /// The value at a place, to be changed.
    pub fn value_at_mut<'a>(&'a mut self, i: usize) -> (r: &'a mut V)
        requires
            old(self).wf(),
            i < old(self).keys().len(),
        ensures
            *r == old(self).values()[i as int],
            final(self).wf(),
            final(self).keys() == old(self).keys(),
            final(self).values() == old(self).values().update(i as int, *final(r)),
            final(self)@ == old(self)@.insert(old(self).keys()[i as int], *final(r)),
    {
        let r = &mut self.entries[i].1;
        assert(after_borrow(*self).keys() =~= old(self).keys());
        r
    }

    /// Whether a key is in the table.
    pub fn has(&self, key: &str) -> (r: bool)
        requires
            self.wf(),
        ensures
            r == self@.dom().contains(key@),
    {
        self.find(key).is_some()
    }

    /// The value under a key.
    pub fn get<'a>(&'a self, key: &str) -> (r: Option<&'a V>)
        requires
            self.wf(),
        ensures
            match r {
                Some(v) => self@.dom().contains(key@) && self@[key@] == *v,
                None => !self@.dom().contains(key@),
            },
    {
        proof {
            self.lemma_entries();
        }
        match self.find(key) {
            Some(i) => Some(&self.entries[i].1),
            None => None,
        }
    }

    /// The value under a key, to be changed.
    pub fn get_mut<'a>(&'a mut self, key: &str) -> (r: Option<&'a mut V>)
        requires
            old(self).wf(),
        ensures
            final(self).wf(),
            final(self).keys() == old(self).keys(),
            match r {
                Some(v) => old(self)@.dom().contains(key@) && *v == old(self)@[key@]
                    && final(self)@ == old(self)@.insert(key@, *final(v)),
                None => !old(self)@.dom().contains(key@) && *final(self) == *old(self),
            },
    {
        proof {
            self.lemma_entries();
        }
        match self.find(key) {
            Some(i) => Some(self.value_at_mut(i)),
            None => None,
        }
    }

    /// Puts a value under a key, in place of the one that was there.
    pub fn insert(&mut self, key: String, value: V)
        requires
            old(self).wf(),
        ensures
            final(self).wf(),
            final(self)@ == old(self)@.insert(key@, value),
            old(self)@.dom().contains(key@) ==> final(self).keys() == old(self).keys(),
            !old(self)@.dom().contains(key@) ==> final(self).keys() == old(self).keys().push(key@),
    {
        match self.find(key.as_str()) {
            Some(i) => {
                assert(self.keys().contains(key@));
                *self.value_at_mut(i) = value;
            },
            None => {
                let ghost before = *self;
                self.entries.push((key, value));
                proof {
                    assert(self.keys() =~= before.keys().push(key@));
                    assert(self.values() =~= before.values().push(value));
                    assert(self.wf());
                    before.lemma_entries();
                    self.lemma_entries();
                    let n = before.keys().len() as int;
                    assert(self.keys()[n] == key@);
                    assert forall|k: Seq<char>| self@.dom().contains(k) <==> before@.insert(
                        key@,
                        value,
                    ).dom().contains(k) by {
                        if before.keys().contains(k) {
                            let i = before.keys().index_of(k);
                            assert(self.keys()[i] == k);
                        }
                    }
                    assert forall|k: Seq<char>| self@.dom().contains(k) implies self@[k]
                        == before@.insert(key@, value)[k] by {
                        let i = self.keys().index_of(k);
                        if i < n {
                            assert(before.keys()[i] == k);
                        }
                    }
                    assert(self@ =~= before@.insert(key@, value));
                }
            },
        }
    }

    /// Takes the entry at a place out.
    pub fn remove_at(&mut self, i: usize) -> (r: V)
        requires
            old(self).wf(),
            i < old(self).keys().len(),
        ensures
            r == old(self).values()[i as int],
            final(self).wf(),
            final(self).keys() == old(self).keys().remove(i as int),
            final(self).values() == old(self).values().remove(i as int),
            final(self)@ == old(self)@.remove(old(self).keys()[i as int]),
    {
        let ghost before = *self;
        let (_key, value) = self.entries.remove(i);
        proof {
            let key = before.keys()[i as int];
            assert(self.keys() =~= before.keys().remove(i as int));
            assert(self.values() =~= before.values().remove(i as int));
            assert(self.wf());
            before.lemma_entries();
            self.lemma_entries();
            assert forall|k: Seq<char>| self@.dom().contains(k) <==> before@.remove(
                key,
            ).dom().contains(k) by {
                if self.keys().contains(k) {
                    let j = self.keys().index_of(k);
                    if j < i {
                        assert(before.keys()[j] == k);
                    } else {
                        assert(before.keys()[j + 1] == k);
                    }
                }
                if before.keys().contains(k) && k != key {
                    let j = before.keys().index_of(k);
                    if j < i {
                        assert(self.keys()[j] == k);
                    } else {
                        assert(self.keys()[j - 1] == k);
                    }
                }
            }
            assert forall|k: Seq<char>| self@.dom().contains(k) implies self@[k] == before@[k] by {
                let j = self.keys().index_of(k);
                if j < i {
                    assert(before.keys()[j] == k);
                } else {
                    assert(before.keys()[j + 1] == k);
                }
            }
            assert(self@ =~= before@.remove(key));
        }
        value
    }

    /// Takes the entries out whose keys are not in the list.
    pub fn keep(&mut self, keys: &Vec<String>)
        requires
            old(self).wf(),
        ensures
            final(self).wf(),
            final(self)@ == old(self)@.restrict(texts(keys@).to_set()),
    {
        let ghost start = self@;
        let ghost wanted = texts(keys@).to_set();
        let mut i: usize = 0;
        while i < self.entries.len()
            invariant
                0 <= i <= self.entries@.len(),
                self.wf(),
                wanted == texts(keys@).to_set(),
                self.keys().len() == self.entries@.len(),
                forall|j: int| 0 <= j < i ==> wanted.contains(#[trigger] self.keys()[j]),
                self@.restrict(wanted) == start.restrict(wanted),
            decreases self.entries@.len() - i,
        {
            let wants = list_has(keys, self.entries[i].0.as_str());
            assert(wants == wanted.contains(self.keys()[i as int]));
            if wants {
                i = i + 1;
            } else {
                let ghost before = self@;
                let ghost key = self.keys()[i as int];
                let _dropped = self.remove_at(i);
                assert(self@.restrict(wanted) =~= before.restrict(wanted));
            }
        }
        proof {
            self.lemma_entries();
            assert forall|k: Seq<char>| self@.dom().contains(k) implies wanted.contains(k) by {
                let j = self.keys().index_of(k);
                assert(wanted.contains(self.keys()[j]));
            }
            assert(self@ =~= self@.restrict(wanted));
        }
    }
}

} // verus!
