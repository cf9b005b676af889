//! The storage cell of one bean.

use crate::error::Violation;
use vstd::prelude::*;

verus! {

/// What a place holds at a given moment. A place starts vacant or occupied,
/// becomes occupied by one write, and dropped by one teardown; nothing leads
/// back.
pub enum Slot<T> {
    /// Nothing was written yet.
    Vacant,
    /// The value that was written, as it is now.
    Occupied(T),
    /// The value was dropped.
    Dropped,
}

/// A storage cell for exactly one value, which owns the value from the write
/// until the teardown.
pub struct StaticPlace<T> {
    slot: Slot<T>,
}

impl<T> View for StaticPlace<T> {
    type V = Slot<T>;

    closed spec fn view(&self) -> Slot<T> {
        self.slot
    }
}

impl<T> StaticPlace<T> {
    /// A place that holds `value` from the start.
    pub fn new(value: T) -> (place: Self)
        ensures
            place@ == Slot::Occupied(value),
    {
        StaticPlace { slot: Slot::Occupied(value) }
    }

    /// A place that waits for its value.
    pub fn uninit() -> (place: Self)
        ensures
            place@ == Slot::<T>::Vacant,
    {
        StaticPlace { slot: Slot::Vacant }
    }

    /// Whether the place holds a value now.
    pub fn is_initialized(&self) -> (held: bool)
        ensures
            held == (self@ is Occupied),
    {
        match &self.slot {
            Slot::Occupied(_) => true,
            _ => false,
        }
    }

    /// Whether the value of the place was dropped.
    pub fn is_dropped(&self) -> (gone: bool)
        ensures
            gone == (self@ is Dropped),
    {
        match &self.slot {
            Slot::Dropped => true,
            _ => false,
        }
    }

    /// Why a place that holds no value refuses to be read, changed or torn down.
    pub(crate) fn refusal(&self) -> (why: Violation)
        requires
            !(self@ is Occupied),
        ensures
            why == (if self@ is Dropped {
                Violation::AlreadyDropped
            } else {
                Violation::NotInitialized
            }),
    {
        if self.is_dropped() {
            Violation::AlreadyDropped
        } else {
            Violation::NotInitialized
        }
    }

    /// The write-once handle on the slot of a vacant place.
    pub(crate) fn vacant_slot(&mut self) -> (handle: UninitSlot<'_, T>)
        requires
            old(self)@ is Vacant,
        ensures
            *handle.target() == Slot::<T>::Vacant,
            final(self)@ == *final(handle.target()),
    {
        UninitSlot { target: &mut self.slot }
    }

    /// The value, where the place holds one.
    pub(crate) fn held(&self) -> (value: Option<&T>)
        ensures
            match value {
                Some(v) => self@ == Slot::Occupied(*v),
                None => !(self@ is Occupied),
            },
    {
        match &self.slot {
            Slot::Occupied(v) => Some(v),
            _ => None,
        }
    }

    /// The value, to change it, where the place holds one.
    pub(crate) fn held_mut(&mut self) -> (value: Option<&mut T>)
        ensures
            match value {
                Some(v) => old(self)@ == Slot::Occupied(*v) && final(self)@ == Slot::Occupied(
                    *final(v),
                ),
                None => !(old(self)@ is Occupied) && *final(self) == *old(self),
            },
    {
        match &mut self.slot {
            Slot::Occupied(v) => Some(v),
            _ => None,
        }
    }

    /// Drops the value of an occupied place.
    pub(crate) fn release(&mut self)
        requires
            old(self)@ is Occupied,
        ensures
            final(self)@ == Slot::<T>::Dropped,
    {
        self.slot = Slot::Dropped;
    }
}

/// The handle that initializing a place gives out. Writing the value is all
/// that can be done with it; a handle that is dropped unwritten leaves the
/// place vacant.
pub struct UninitSlot<'a, T> {
    target: &'a mut Slot<T>,
}

impl<'a, T> UninitSlot<'a, T> {
    /// The slot that the handle writes to.
    pub closed spec fn target(self) -> &'a mut Slot<T> {
        self.target
    }

    /// Writes `value` into the place and hands back the value in its place.
    pub fn write(self, value: T) -> (written: &'a mut T)
        ensures
            *written == value,
            *final(self.target()) == Slot::Occupied(*final(written)),
    {
        *self.target = Slot::Occupied(value);
        match self.target {
            Slot::Occupied(v) => v,
            _ => vstd::pervasive::unreached(),
        }
    }
}

} // verus!
