//! The phases of the kernel's life, the tokens that stand for them, and what
//! each token lets a caller do with a place.

use crate::error::{Error, Violation};
use crate::place::{Slot, StaticPlace, UninitSlot};
use vstd::prelude::*;

verus! {

/// The one-shot guard of a kernel. Each phase token descends from one
/// acquisition of a latch, and a latch is acquired once.
pub struct Latch {
    taken: bool,
}

impl Latch {
    /// Whether the latch was acquired.
    pub closed spec fn is_taken(self) -> bool {
        self.taken
    }

    /// The latch as any acquisition leaves it.
    pub closed spec fn spent() -> Latch {
        Latch { taken: true }
    }

    /// Whether an attempt to acquire the latch succeeds.
    pub open spec fn grants(self) -> bool {
        !self.is_taken()
    }

    /// The latch after `n` attempts to acquire it.
    pub open spec fn after(self, n: nat) -> Latch {
        if n == 0 {
            self
        } else {
            Latch::spent()
        }
    }

    /// A latch that nobody has acquired.
    pub fn new() -> (latch: Self)
        ensures
            !latch.is_taken(),
    {
        Latch { taken: false }
    }

    /// Whether the latch was acquired.
    pub fn taken(&self) -> (taken: bool)
        ensures
            taken == self.is_taken(),
    {
        self.taken
    }
}

/// The token of a kernel that has been acquired and not yet begun.
#[derive(Debug)]
pub struct UninitPhase {
    _private: (),
}

/// The token of the initializing phase. It lets its holder initialize places.
#[derive(Debug)]
pub struct InitPhase {
    _private: (),
}

/// The token of the active phase. It lets its holder read and change the values
/// of places, and tear them down.
#[derive(Debug)]
pub struct ActivePhase {
    _private: (),
}

impl UninitPhase {
    /// Acquires `latch`. The first acquisition of a latch gives the token;
    /// every later one is refused as a duplicated initialization.
    pub fn acquire(latch: &mut Latch) -> (token: Result<UninitPhase, Error>)
        ensures
            *final(latch) == old(latch).after(1),
            final(latch).is_taken(),
            token is Ok <==> old(latch).grants(),
            token matches Err(e) ==> e == Error::DuplicatedInit("InitPhase"),
    {
        if latch.taken {
            Err(Error::DuplicatedInit("InitPhase"))
        } else {
            latch.taken = true;
            Ok(UninitPhase { _private: () })
        }
    }

    /// Begins the registration: the token is exchanged for that of the
    /// initializing phase.
    pub fn begin(self) -> InitPhase {
        InitPhase { _private: () }
    }
}

impl InitPhase {
    /// Acquires `latch` and begins the registration at once.
    pub fn take(latch: &mut Latch) -> (token: Result<InitPhase, Error>)
        ensures
            *final(latch) == old(latch).after(1),
            final(latch).is_taken(),
            token is Ok <==> old(latch).grants(),
            token matches Err(e) ==> e == Error::DuplicatedInit("InitPhase"),
    {
        match UninitPhase::acquire(latch) {
            Ok(token) => Ok(token.begin()),
            Err(e) => Err(e),
        }
    }

    /// Ends the registration: the token is exchanged for that of the active
    /// phase, and there is no way back.
    pub fn complete(self) -> ActivePhase {
        ActivePhase { _private: () }
    }
}

/// A latch grants exactly one acquisition. Of the attempts made one after the
/// other on a latch that nobody has acquired, the first succeeds and no other
/// does; on a latch that was acquired before, none does.
pub proof fn lemma_single_acquisition(latch: Latch, n: nat)
    ensures
        latch.after(n + 1) == latch.after(n).after(1),
        latch.after(n).grants() <==> n == 0 && !latch.is_taken(),
{
}

/// Why a place in state `slot` refuses to be initialized, if it does.
pub open spec fn initialize_refusal<T>(slot: Slot<T>) -> Option<Violation> {
    match slot {
        Slot::Vacant => None,
        Slot::Occupied(_) => Some(Violation::AlreadyInitialized),
        Slot::Dropped => Some(Violation::AlreadyDropped),
    }
}

/// Why a place in state `slot` refuses to be read, changed or torn down, if
/// it does.
pub open spec fn access_refusal<T>(slot: Slot<T>) -> Option<Violation> {
    match slot {
        Slot::Vacant => Some(Violation::NotInitialized),
        Slot::Occupied(_) => None,
        Slot::Dropped => Some(Violation::AlreadyDropped),
    }
}

/// What a place in state `slot` holds after an attempt to tear it down: an
/// occupied place has dropped its value, any other is as it was.
pub open spec fn deinitialized<T>(slot: Slot<T>) -> Slot<T> {
    match slot {
        Slot::Occupied(_) => Slot::Dropped,
        _ => slot,
    }
}

/// No premature access. A place is read, changed or torn down only while it
/// holds the value that was written to it; a place that nothing was written
/// to refuses as not initialized.
pub proof fn lemma_no_premature_access<T>(slot: Slot<T>)
    ensures
        access_refusal(slot) is None <==> slot is Occupied,
        slot is Vacant ==> access_refusal(slot) == Some(Violation::NotInitialized),
{
}

/// Drop-once. After an attempt to tear a place down, every further attempt is
/// refused and leaves the place as it is; after a teardown that succeeded,
/// it is refused as already dropped.
pub proof fn lemma_drop_once<T>(slot: Slot<T>)
    ensures
        access_refusal(deinitialized(slot)) is Some,
        deinitialized(deinitialized(slot)) == deinitialized(slot),
        slot is Occupied ==> access_refusal(deinitialized(slot)) == Some(Violation::AlreadyDropped),
{
}

/// A storage location whose value is written in the initializing phase, read
/// and changed in the active phase, and dropped once at the end.
pub trait Place<T> {
    /// What the place holds.
    spec fn slot(&self) -> Slot<T>;

    /// Opens a vacant place for its one write. A place that was written or
    /// dropped before refuses.
    fn initialize<'a>(&'a mut self, _init_token: &'a mut InitPhase) -> (handle: Result<
        UninitSlot<'a, T>,
        Error,
    >)
        ensures
            match handle {
                Ok(h) => {
                    &&& old(self).slot() is Vacant
                    &&& *h.target() == Slot::<T>::Vacant
                    &&& final(self).slot() == *final(h.target())
                },
                Err(e) => {
                    &&& initialize_refusal(old(self).slot()) matches Some(v)
                    &&& e == Error::ContractViolation(v)
                    &&& final(self).slot() == old(self).slot()
                },
            },
    ;

    /// The value of an occupied place. A vacant or dropped place refuses.
    fn get<'a>(&'a self, _active_token: &'a ActivePhase) -> (value: Result<&'a T, Error>)
        ensures
            match value {
                Ok(v) => self.slot() == Slot::Occupied(*v),
                Err(e) => access_refusal(self.slot()) matches Some(v) && e
                    == Error::ContractViolation(v),
            },
    ;

    /// The value of an occupied place, to change it. A vacant or dropped place
    /// refuses.
    fn get_mut<'a>(&'a mut self, _active_token: &'a mut ActivePhase) -> (value: Result<
        &'a mut T,
        Error,
    >)
        ensures
            match value {
                Ok(v) => old(self).slot() == Slot::Occupied(*v) && final(self).slot()
                    == Slot::Occupied(*final(v)),
                Err(e) => {
                    &&& access_refusal(old(self).slot()) matches Some(v)
                    &&& e == Error::ContractViolation(v)
                    &&& final(self).slot() == old(self).slot()
                },
            },
    ;

    /// Drops the value of an occupied place. A vacant place, and one that was
    /// torn down before, refuses and stays as it is.
    fn deinitialize(&mut self, _drop_token: &mut ActivePhase) -> (done: Result<(), Error>)
        ensures
            final(self).slot() == deinitialized(old(self).slot()),
            match done {
                Ok(()) => access_refusal(old(self).slot()) is None,
                Err(e) => access_refusal(old(self).slot()) matches Some(v) && e
                    == Error::ContractViolation(v),
            },
    ;
}

impl<T> Place<T> for StaticPlace<T> {
    open spec fn slot(&self) -> Slot<T> {
        self@
    }

    fn initialize<'a>(&'a mut self, _init_token: &'a mut InitPhase) -> (handle: Result<
        UninitSlot<'a, T>,
        Error,
    >) {
        if self.is_initialized() {
            Err(Error::ContractViolation(Violation::AlreadyInitialized))
        } else if self.is_dropped() {
            Err(Error::ContractViolation(Violation::AlreadyDropped))
        } else {
            Ok(self.vacant_slot())
        }
    }

    fn get<'a>(&'a self, _active_token: &'a ActivePhase) -> (value: Result<&'a T, Error>) {
        match self.held() {
            Some(v) => Ok(v),
            None => Err(Error::ContractViolation(self.refusal())),
        }
    }

    fn get_mut<'a>(&'a mut self, _active_token: &'a mut ActivePhase) -> (value: Result<
        &'a mut T,
        Error,
    >) {
        if self.is_initialized() {
            match self.held_mut() {
                Some(v) => Ok(v),
                None => vstd::pervasive::unreached(),
            }
        } else {
            Err(Error::ContractViolation(self.refusal()))
        }
    }

    fn deinitialize(&mut self, _drop_token: &mut ActivePhase) -> (done: Result<(), Error>) {
        if self.is_initialized() {
            self.release();
            Ok(())
        } else {
            Err(Error::ContractViolation(self.refusal()))
        }
    }
}

} // verus!
