//! Identities: the key under which a bean is registered, and the alias, a
//! named role that a context resolves to a key.

use vstd::prelude::*;

verus! {

/// The identity under which one bean is registered and looked up.
#[derive(Clone, Copy, Debug, PartialEq, Eq, Hash, Structural)]
pub struct Key(pub u64);

/// A named role. It is no key: a context resolves it to one.
#[derive(Clone, Copy, Debug, PartialEq, Eq, Hash, Structural)]
pub struct Alias(pub u64);

/// One declaration of a context: `alias` stands for `key`.
#[derive(Clone, Copy, Debug, PartialEq, Eq, Hash, Structural)]
pub struct Binding {
    pub alias: Alias,
    pub key: Key,
}

} // verus!
