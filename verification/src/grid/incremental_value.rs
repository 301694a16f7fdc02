//! The grid variant's dirty tracking: a value with a manual changed flag,
//! set by any mutable access or replacement and cleared once an update has
//! gone out.
use vstd::prelude::*;

verus! {

pub struct IncrementalValue<T> {
    /// The value that is being held by the structure.
    pub value: T,
    /// Set by any mutable access or replacement; cleared by `updated`.
    pub is_changed: bool,
}

impl<T> IncrementalValue<T> {
    pub fn new(value: T) -> (iv: IncrementalValue<T>)
        ensures
            iv.value == value,
            !iv.is_changed,
    {
        IncrementalValue { value, is_changed: false }
    }

    /// If changed.
    pub fn is_changed(&self) -> (r: bool)
        ensures
            r == self.is_changed,
    {
        self.is_changed
    }

    /// Forces the changed flag to a certain value; usually the structure
    /// maintains the flag by itself and this never needs to be called.
    pub fn force_changed(&mut self, is_changed: bool)
        ensures
            final(self).value == old(self).value,
            final(self).is_changed == is_changed,
    {
        self.is_changed = is_changed;
    }

    /// Called after the value was sent to the client: clears the flag.
    pub fn updated(&mut self)
        ensures
            final(self).value == old(self).value,
            !final(self).is_changed,
    {
        self.is_changed = false;
    }

    /// Returns the value.
    pub fn get(&self) -> (r: &T)
        ensures
            *r == self.value,
    {
        &self.value
    }

    /// Returns the value and flags it as changed.
    pub fn get_mut(&mut self) -> (r: &mut T)
        ensures
            *r == old(self).value,
            final(self).value == *final(r),
            final(self).is_changed,
    {
        self.is_changed = true;
        &mut self.value
    }

    /// Sets a new value and flags it as changed.
    pub fn set(&mut self, new_value: T)
        ensures
            final(self).value == new_value,
            final(self).is_changed,
    {
        self.value = new_value;
        self.is_changed = true;
    }
}

impl<T: Clone> IncrementalValue<T> {
    pub fn clone_value(&self) -> T {
        self.value.clone()
    }
}

} // verus!
