//! The errors of the kernel.

use crate::key::{Alias, Key};
use vstd::prelude::*;

verus! {

/// A use of a place, or of the kernel, against its lifecycle.
#[derive(Clone, Copy, Debug, PartialEq, Eq, Structural)]
pub enum Violation {
    /// The place was never written.
    NotInitialized,
    /// The place already holds a value.
    AlreadyInitialized,
    /// The value of the place was already dropped.
    AlreadyDropped,
    /// The initializers have not run, or one of them failed.
    NotStarted,
    /// The initializers have already been run.
    AlreadyStarted,
    /// The kernel was already finalized.
    Finalized,
}

/// Why a configuration lookup failed.
#[derive(Clone, Copy, Debug, PartialEq, Eq, Structural)]
pub enum ConfigFault {
    /// Nothing is stored under the key.
    NotFound,
    /// What is stored under the key does not read as the type asked for.
    Mismatch,
    /// What is stored under the key could not be read when the configuration
    /// was loaded.
    Unreadable,
}

/// What can go wrong in the kernel.
#[derive(Debug)]
pub enum Error {
    /// An initializer could not construct its bean.
    Other(String),
    /// A configuration lookup failed, or its value could not be read as the type asked for.
    ConfigError(ConfigFault),
    /// The one-shot latch named here was already taken.
    DuplicatedInit(&'static str),
    /// The ledger holds two entries for this key.
    DuplicatedKey(Key),
    /// No entry is registered for this key.
    UnregisteredKey(Key),
    /// The context in use binds this alias to no key, and neither do its parents.
    UnboundAlias(Alias),
    /// A context would see this alias bound to two different keys.
    AmbiguousAlias(Alias),
    /// The caller broke the lifecycle contract.
    ContractViolation(Violation),
    /// The initializer of entry `entry`, registered for `key`, failed with `cause`.
    InitFailed { entry: usize, key: Key, cause: Box<Error> },
}

} // verus!
