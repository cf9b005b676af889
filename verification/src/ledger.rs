//! The registration ledger: what each service definition contributes before
//! the kernel starts, in the order of registration.

use crate::key::Key;
use vstd::prelude::*;

verus! {

/// What one service definition registers: the key of its bean, the function
/// that constructs the bean, and whether the bean is torn down when the
/// kernel is finalized.
pub struct Entry<I> {
    pub key: Key,
    pub init: I,
    pub finalize: bool,
}

/// The entries that were registered, first come first.
pub struct Ledger<I> {
    entries: Vec<Entry<I>>,
}

/// The keys of `entries`, in their order.
pub open spec fn keys_of<I>(entries: Seq<Entry<I>>) -> Seq<Key> {
    Seq::new(entries.len(), |i: int| entries[i].key)
}

/// For each of `entries`, in their order, whether its bean is torn down at
/// the end.
pub open spec fn finalizers_of<I>(entries: Seq<Entry<I>>) -> Seq<bool> {
    Seq::new(entries.len(), |i: int| entries[i].finalize)
}

/// Whether the key at `at` was met earlier in `keys`.
pub open spec fn repeats(keys: Seq<Key>, at: int) -> bool {
    exists|i: int| 0 <= i < at && keys[i] == keys[at]
}

/// Whether no key stands twice in `keys`.
pub open spec fn distinct(keys: Seq<Key>) -> bool {
    forall|i: int, j: int| 0 <= i < j < keys.len() ==> keys[i] != keys[j]
}

impl<I> View for Ledger<I> {
    type V = Seq<Entry<I>>;

    closed spec fn view(&self) -> Seq<Entry<I>> {
        self.entries@
    }
}

impl<I> Ledger<I> {
    /// A ledger without entries.
    pub fn new() -> (ledger: Self)
        ensures
            ledger@ == Seq::<Entry<I>>::empty(),
    {
        Ledger { entries: Vec::new() }
    }

    /// Appends an entry. Nothing is checked here: an entry whose key was
    /// registered before is found when the kernel starts.
    pub fn register(&mut self, key: Key, init: I, finalize: bool)
        ensures
            final(self)@ == old(self)@.push(Entry { key, init, finalize }),
    {
        self.entries.push(Entry { key, init, finalize });
    }

    /// The number of entries.
    pub fn len(&self) -> (n: usize)
        ensures
            n == self@.len(),
    {
        self.entries.len()
    }

    /// The entry at `at`.
    pub(crate) fn entry(&self, at: usize) -> (e: &Entry<I>)
        requires
            at < self@.len(),
        ensures
            *e == self@[at as int],
    {
        &self.entries[at]
    }

    /// The place in the ledger of the first entry whose key was registered
    /// before it, if there is one.
    pub fn first_repeat(&self) -> (found: Option<usize>)
        ensures
            match found {
                Some(at) => {
                    &&& at < self@.len()
                    &&& repeats(keys_of(self@), at as int)
                    &&& forall|j: int| 0 <= j < at ==> !repeats(keys_of(self@), j)
                },
                None => distinct(keys_of(self@)),
            },
    {
        let n = self.entries.len();
        let mut at: usize = 0;
        while at < n
            invariant
                n == self.entries@.len(),
                0 <= at <= n,
                forall|j: int| 0 <= j < at ==> !repeats(keys_of(self@), j),
            decreases n - at,
        {
            let mut i: usize = 0;
            while i < at
                invariant
                    n == self.entries@.len(),
                    0 <= i <= at < n,
                    forall|j: int| 0 <= j < at ==> !repeats(keys_of(self@), j),
                    forall|k: int| 0 <= k < i ==> keys_of(self@)[k] != keys_of(self@)[at as int],
                decreases at - i,
            {
                if self.entries[i].key == self.entries[at].key {
                    assert(keys_of(self@)[i as int] == keys_of(self@)[at as int]);
                    return Some(at);
                }
                i = i + 1;
            }
            at = at + 1;
        }
        assert forall|i: int, j: int| 0 <= i < j < keys_of(self@).len() implies keys_of(self@)[i]
            != keys_of(self@)[j] by {
            assert(!repeats(keys_of(self@), j));
        }
        None
    }
}

/// The hooks that run once every bean is in its place and before the active
/// context is handed out, first come first.
pub struct Hooks<P> {
    hooks: Vec<P>,
}

impl<P> View for Hooks<P> {
    type V = Seq<P>;

    closed spec fn view(&self) -> Seq<P> {
        self.hooks@
    }
}

impl<P> Hooks<P> {
    /// A list without hooks.
    pub fn new() -> (hooks: Self)
        ensures
            hooks@ == Seq::<P>::empty(),
    {
        Hooks { hooks: Vec::new() }
    }

    /// Appends a hook.
    pub fn register(&mut self, hook: P)
        ensures
            final(self)@ == old(self)@.push(hook),
    {
        self.hooks.push(hook);
    }

    /// The number of hooks.
    pub fn len(&self) -> (n: usize)
        ensures
            n == self@.len(),
    {
        self.hooks.len()
    }

    /// The hook at `at`.
    pub(crate) fn hook(&self, at: usize) -> (h: &P)
        requires
            at < self@.len(),
        ensures
            *h == self@[at as int],
    {
        &self.hooks[at]
    }
}

} // verus!
