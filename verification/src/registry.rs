//! Items kept under string identifiers: found by identifier through a
//! hash index, and walked in the order in which they were registered.

use vstd::prelude::*;
use dashmap::DashMap;
use crate::outside::index::{index_entries, index_get, index_insert, index_new, index_remove};

verus! {

/// A registry of items, each under an identifier of its own. The items
/// sit in slots numbered from zero in the order of registration; the
/// index maps each identifier to its slot.
pub struct Registry<T> {
    keys: Vec<String>,
    items: Vec<T>,
    index: DashMap<String, usize>,
}

impl<T> Registry<T> {
    /// The identifiers, by slot.
    pub closed spec fn keys(&self) -> Seq<Seq<char>> {
        Seq::new(self.keys@.len(), |i: int| self.keys@[i]@)
    }

    /// The items, by slot.
    pub closed spec fn items(&self) -> Seq<T> {
        self.items@
    }

    /// Keys and items pair up, and the index agrees with the slots.
    pub closed spec fn wf(&self) -> bool {
        &&& self.keys@.len() == self.items@.len()
        &&& forall|i: int|
            0 <= i < self.keys@.len() ==> index_entries(self.index).contains_key(
                #[trigger] self.keys@[i]@,
            ) && index_entries(self.index)[self.keys@[i]@] == i
        &&& forall|k: Seq<char>| #[trigger]
            index_entries(self.index).contains_key(k) ==> index_entries(self.index)[k]
                < self.keys@.len() && self.keys@[index_entries(self.index)[k] as int]@ == k
    }

    /// In a well-formed registry there is a key for every item and no
    /// identifier occurs twice.
    pub proof fn lemma_wf_keys(&self)
        requires
            self.wf(),
        ensures
            self.keys().len() == self.items().len(),
            self.keys().no_duplicates(),
    {
        assert forall|i: int, j: int|
            0 <= i < self.keys().len() && 0 <= j < self.keys().len() && i != j implies self.keys()[i]
            != self.keys()[j] by {
            assert(index_entries(self.index)[self.keys@[i]@] == i);
            assert(index_entries(self.index)[self.keys@[j]@] == j);
        }
    }

    /// An empty registry.
    pub fn new() -> (r: Self)
        ensures
            r.wf(),
            r.keys() == Seq::<Seq<char>>::empty(),
            r.items() == Seq::<T>::empty(),
    {
        let r = Registry { keys: Vec::new(), items: Vec::new(), index: index_new() };
        assert(r.keys() =~= Seq::<Seq<char>>::empty());
        r
    }

    /// The number of items.
    pub fn len(&self) -> (n: usize)
        requires
            self.wf(),
        ensures
            n == self.items().len(),
            n == self.keys().len(),
    {
        self.items.len()
    }

    /// The slot of the item registered under `key`, if there is one.
    pub fn find(&self, key: &str) -> (slot: Option<usize>)
        requires
            self.wf(),
        ensures
            (match slot {
                Some(i) => i < self.keys().len() && self.keys()[i as int] == key@,
                None => !self.keys().contains(key@),
            }),
    {
        let slot = index_get(&self.index, key);
        proof {
            if slot is None {
                assert forall|i: int| 0 <= i < self.keys().len() implies self.keys()[i]
                    != key@ by {
                    assert(index_entries(self.index).contains_key(self.keys@[i]@));
                }
            }
        }
        slot
    }

    /// The item in slot `slot`.
    pub fn get(&self, slot: usize) -> (item: &T)
        requires
            slot < self.items().len(),
        ensures
            *item == self.items()[slot as int],
    {
        &self.items[slot]
    }

    /// The item in slot `slot`, to be changed in place.
    pub fn get_mut(&mut self, slot: usize) -> (item: &mut T)
        requires
            slot < old(self).items().len(),
        ensures
            *item == old(self).items()[slot as int],
            final(self).items() == old(self).items().update(slot as int, *final(item)),
            final(self).keys() == old(self).keys(),
            old(self).wf() ==> final(self).wf(),
    {
        &mut self.items[slot]
    }

    /// The identifier of slot `slot`.
    pub fn key_at(&self, slot: usize) -> (key: &String)
        requires
            self.wf(),
            slot < self.keys().len(),
        ensures
            key@ == self.keys()[slot as int],
    {
        &self.keys[slot]
    }

    /// Registers `item` under `key` in a new last slot.
    pub fn push(&mut self, key: String, item: T) -> (slot: usize)
        requires
            old(self).wf(),
            !old(self).keys().contains(key@),
        ensures
            final(self).wf(),
            slot == old(self).keys().len(),
            final(self).keys() == old(self).keys().push(key@),
            final(self).items() == old(self).items().push(item),
    {
        let slot = self.keys.len();
        let ghost before = *self;
        let copy = key.clone();
        let prev = index_insert(&mut self.index, copy, slot);
        self.keys.push(key);
        self.items.push(item);
        proof {
            assert(self.keys() =~= before.keys().push(key@));
            assert forall|i: int| 0 <= i < self.keys@.len() implies index_entries(
                self.index,
            ).contains_key(#[trigger] self.keys@[i]@) && index_entries(
                self.index,
            )[self.keys@[i]@] == i by {
                if i < slot {
                    assert(self.keys@[i] == before.keys@[i]);
                    assert(before.keys()[i] == before.keys@[i]@);
                    assert(before.keys()[i] != key@);
                }
            }
            assert forall|k: Seq<char>| #[trigger]
                index_entries(self.index).contains_key(k) implies index_entries(self.index)[k]
                < self.keys@.len() && self.keys@[index_entries(self.index)[k] as int]@ == k by {
                if k != key@ {
                    assert(index_entries(before.index).contains_key(k));
                    let s = index_entries(before.index)[k];
                    assert(self.keys@[s as int] == before.keys@[s as int]);
                }
            }
        }
        slot
    }

    /// Takes the item registered under `key` out, if there is one. The
    /// items behind it move up by one slot and keep their order.
    pub fn remove(&mut self, key: &str) -> (removed: Option<T>)
        requires
            old(self).wf(),
        ensures
            final(self).wf(),
            (match removed {
                Some(item) => old(self).keys().contains(key@) && item == old(self).items()[old(
                    self,
                ).keys().index_of(key@)] && final(self).keys() == old(self).keys().remove(
                    old(self).keys().index_of(key@),
                ) && final(self).items() == old(self).items().remove(
                    old(self).keys().index_of(key@),
                ),
                None => !old(self).keys().contains(key@) && final(self).keys() == old(self).keys()
                    && final(self).items() == old(self).items(),
            }),
    {
        let ghost before = *self;
        proof {
            before.lemma_wf_keys();
        }
        let found = index_remove(&mut self.index, key);
        match found {
            None => {
                proof {
                    assert forall|i: int| 0 <= i < before.keys().len() implies before.keys()[i]
                        != key@ by {
                        assert(index_entries(before.index).contains_key(before.keys@[i]@));
                    }
                    assert(index_entries(self.index) =~= index_entries(before.index));
                }
                None
            },
            Some(slot) => {
                proof {
                    assert(before.keys()[slot as int] == key@);
                    assert(before.keys().contains(key@));
                    before.keys().index_of_first_ensures(key@);
                    assert(before.keys().index_of(key@) == slot);
                }
                let _gone = self.keys.remove(slot);
                let item = self.items.remove(slot);
                let n = self.keys.len();
                let ghost after_keys = self.keys@;
                let mut j: usize = slot;
                proof {
                    assert forall|i: int| 0 <= i < n implies #[trigger] after_keys[i]@ != key@ by {
                        if i < slot {
                            assert(after_keys[i] == before.keys@[i]);
                            assert(before.keys()[i] == before.keys@[i]@);
                        } else {
                            assert(after_keys[i] == before.keys@[i + 1]);
                            assert(before.keys()[i + 1] == before.keys@[i + 1]@);
                        }
                    }
                }
                while j < n
                    invariant
                        slot <= j <= n,
                        n == self.keys@.len(),
                        n == self.items@.len(),
                        n + 1 == before.keys@.len(),
                        self.keys@ == after_keys,
                        after_keys == before.keys@.remove(slot as int),
                        self.items@ == before.items@.remove(slot as int),
                        before.wf(),
                        forall|i: int|
                            0 <= i < j ==> index_entries(self.index).contains_key(
                                #[trigger] after_keys[i]@,
                            ) && index_entries(self.index)[after_keys[i]@] == i,
                        forall|i: int|
                            j <= i < n ==> index_entries(self.index).contains_key(
                                #[trigger] after_keys[i]@,
                            ) && index_entries(self.index)[after_keys[i]@] == i + 1,
                        forall|k: Seq<char>| #[trigger]
                            index_entries(self.index).contains_key(k) ==> {
                                let s = index_entries(self.index)[k];
                                (s < j && after_keys[s as int]@ == k) || (j < s <= n && after_keys[s
                                    - 1]@ == k)
                            },
                    decreases n - j,
                {
                    let ghost entries = index_entries(self.index);
                    let copy = self.keys[j].clone();
                    let _prev = index_insert(&mut self.index, copy, j);
                    proof {
                        let kj = after_keys[j as int]@;
                        assert(entries[kj] == j + 1);
                        assert forall|i: int| 0 <= i < j + 1 implies index_entries(
                            self.index,
                        ).contains_key(#[trigger] after_keys[i]@) && index_entries(
                            self.index,
                        )[after_keys[i]@] == i by {
                            if i < j {
                                assert(entries[after_keys[i]@] == i);
                            }
                        }
                        assert forall|i: int| j + 1 <= i < n implies index_entries(
                            self.index,
                        ).contains_key(#[trigger] after_keys[i]@) && index_entries(
                            self.index,
                        )[after_keys[i]@] == i + 1 by {
                            assert(entries[after_keys[i]@] == i + 1);
                        }
                        assert forall|k: Seq<char>| #[trigger]
                            index_entries(self.index).contains_key(k) implies {
                            let s = index_entries(self.index)[k];
                            (s < j + 1 && after_keys[s as int]@ == k) || (j + 1 < s <= n
                                && after_keys[s - 1]@ == k)
                        } by {
                            if k != kj {
                                assert(entries.contains_key(k));
                                let s = entries[k];
                                if s == j + 1 {
                                    assert(after_keys[s - 1]@ == k);
                                }
                            }
                        }
                    }
                    j = j + 1;
                }
                proof {
                    assert(self.keys() =~= before.keys().remove(slot as int));
                }
                Some(item)
            },
        }
    }
}

} // verus!
