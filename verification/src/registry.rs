//! The registry: the places of the registered beans, found by key.

use crate::key::Key;
use crate::ledger::distinct;
use crate::place::{Slot, StaticPlace};
use vstd::prelude::*;

verus! {

/// One registered bean: its key, whether it is torn down at the end, and
/// its place.
struct Record<B> {
    key: Key,
    finalize: bool,
    place: StaticPlace<B>,
}

/// The places of the registered beans, in the order of registration. No key
/// is registered twice.
pub struct Registry<B> {
    records: Vec<Record<B>>,
}

impl<B> Registry<B> {
    /// The registered keys, in the order of registration.
    pub closed spec fn keys(&self) -> Seq<Key> {
        Seq::new(self.records@.len(), |i: int| self.records@[i].key)
    }

    /// For each registered bean, whether it is torn down at the end.
    pub closed spec fn finalizers(&self) -> Seq<bool> {
        Seq::new(self.records@.len(), |i: int| self.records@[i].finalize)
    }

    /// What the place of each registered bean holds.
    pub closed spec fn slots(&self) -> Seq<Slot<B>> {
        Seq::new(self.records@.len(), |i: int| self.records@[i].place@)
    }

    /// The invariant of the registry: one place and one flag for each key,
    /// and no key twice.
    pub open spec fn wf(&self) -> bool {
        &&& self.finalizers().len() == self.keys().len()
        &&& self.slots().len() == self.keys().len()
        &&& distinct(self.keys())
    }

    /// Whether an entry is registered for `key`.
    pub open spec fn has(&self, key: Key) -> bool {
        self.keys().contains(key)
    }

    /// Where `key` stands among the registered keys.
    pub open spec fn index_of(&self, key: Key) -> int {
        self.keys().index_of(key)
    }

    /// What the place registered for `key` holds.
    pub open spec fn slot_of(&self, key: Key) -> Slot<B> {
        self.slots()[self.index_of(key)]
    }

    /// The registry as `key` and its place are found in it: the key is
    /// registered, `at` is its index, and no other index holds it.
    pub proof fn lemma_index(&self, key: Key, at: int)
        requires
            self.wf(),
            0 <= at < self.keys().len(),
            self.keys()[at] == key,
        ensures
            self.has(key),
            self.index_of(key) == at,
    {
        assert(self.keys().contains(key));
        let i = self.keys().index_of(key);
        assert(0 <= i < self.keys().len() && self.keys()[i] == key);
        if i < at {
            assert(self.keys()[i] != self.keys()[at]);
        } else if at < i {
            assert(self.keys()[at] != self.keys()[i]);
        }
    }

    /// A registry without entries.
    pub fn new() -> (registry: Self)
        ensures
            registry.wf(),
            registry.keys() == Seq::<Key>::empty(),
            registry.finalizers() == Seq::<bool>::empty(),
            registry.slots() == Seq::<Slot<B>>::empty(),
    {
        Registry { records: Vec::new() }
    }

    /// The number of registered beans.
    pub fn len(&self) -> (n: usize)
        ensures
            n == self.keys().len(),
            n == self.slots().len(),
            n == self.finalizers().len(),
    {
        self.records.len()
    }

    /// The index at which `key` is registered, if it is.
    pub fn find(&self, key: Key) -> (found: Option<usize>)
        requires
            self.wf(),
        ensures
            match found {
                Some(at) => self.has(key) && at == self.index_of(key) && at < self.keys().len(),
                None => !self.has(key),
            },
    {
        let n = self.records.len();
        let mut at: usize = 0;
        while at < n
            invariant
                n == self.records@.len(),
                0 <= at <= n,
                self.wf(),
                forall|j: int| 0 <= j < at ==> self.keys()[j] != key,
            decreases n - at,
        {
            if self.records[at].key == key {
                proof {
                    self.lemma_index(key, at as int);
                }
                return Some(at);
            }
            at = at + 1;
        }
        None
    }

    /// The key registered at `at`.
    pub(crate) fn key_at(&self, at: usize) -> (key: Key)
        requires
            at < self.keys().len(),
        ensures
            key == self.keys()[at as int],
    {
        self.records[at].key
    }

    /// Whether the bean registered at `at` is torn down at the end.
    pub(crate) fn finalizer_at(&self, at: usize) -> (finalize: bool)
        requires
            at < self.keys().len(),
        ensures
            finalize == self.finalizers()[at as int],
    {
        self.records[at].finalize
    }

    /// Registers `key` with a vacant place.
    pub(crate) fn add(&mut self, key: Key, finalize: bool)
        requires
            old(self).wf(),
            !old(self).has(key),
        ensures
            final(self).wf(),
            final(self).keys() == old(self).keys().push(key),
            final(self).finalizers() == old(self).finalizers().push(finalize),
            final(self).slots() == old(self).slots().push(Slot::Vacant),
    {
        self.records.push(Record { key, finalize, place: StaticPlace::uninit() });
        assert(self.keys() =~= old(self).keys().push(key));
        assert(self.finalizers() =~= old(self).finalizers().push(finalize));
        assert(self.slots() =~= old(self).slots().push(Slot::Vacant));
        assert forall|i: int, j: int| 0 <= i < j < self.keys().len() implies self.keys()[i]
            != self.keys()[j] by {
            if j == self.keys().len() - 1 {
                assert(old(self).keys()[i] == self.keys()[i]);
                assert(old(self).keys().contains(self.keys()[i]));
            } else {
                assert(old(self).keys()[i] != old(self).keys()[j]);
            }
        }
    }

    /// The place registered at `at`.
    pub(crate) fn place(&self, at: usize) -> (place: &StaticPlace<B>)
        requires
            at < self.keys().len(),
        ensures
            place@ == self.slots()[at as int],
    {
        &self.records[at].place
    }

    /// The place registered at `at`, to change what it holds.
    pub(crate) fn place_mut(&mut self, at: usize) -> (place: &mut StaticPlace<B>)
        requires
            at < old(self).keys().len(),
        ensures
            place@ == old(self).slots()[at as int],
            final(self).keys() == old(self).keys(),
            final(self).finalizers() == old(self).finalizers(),
            final(self).slots() == old(self).slots().update(at as int, final(place)@),
    {
        &mut self.records[at].place
    }
}

} // verus!
