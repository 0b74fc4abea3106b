//! A value with a mark that says whether it has changed.

use vstd::prelude::*;

verus! {

/// A flag used to check for state change.
pub struct Flag<T> {
    value: T,
    is_dirty: bool,
}

impl<T> Flag<T> {
    /// The value that the flag holds.
    pub closed spec fn value(&self) -> T {
        self.value
    }

    /// Whether the value has been set since the flag was last cleaned.
    pub closed spec fn dirty(&self) -> bool {
        self.is_dirty
    }

    /// Create a new flag. Initialized as dirty.
    pub fn new_dirty(value: T) -> (flag: Self)
        ensures
            flag.value() == value,
            flag.dirty(),
    {
        Self { value: value, is_dirty: true }
    }

    /// Create a new flag. Initialized as clean.
    pub fn new_clean(value: T) -> (flag: Self)
        ensures
            flag.value() == value,
            !flag.dirty(),
    {
        Self { value: value, is_dirty: false }
    }

    /// Get whether the flag is dirty or not.
    pub fn is_dirty(&self) -> (dirty: bool)
        ensures
            dirty == self.dirty(),
    {
        self.is_dirty
    }

    /// Get the value of the flag.
    pub fn get(&self) -> (value: &T)
        ensures
            *value == self.value(),
    {
        &self.value
    }

    /// Change the state of the flag clean.
    pub fn clean(&mut self)
        ensures
            final(self).value() == old(self).value(),
            !final(self).dirty(),
    {
        self.is_dirty = false;
    }

    /// Set the value of the flag.
    /// This automatically changes the flag to dirty.
    pub fn set(&mut self, new_value: T)
        ensures
            final(self).value() == new_value,
            final(self).dirty(),
    {
        self.value = new_value;
        self.is_dirty = true;
    }
}

} // verus!
