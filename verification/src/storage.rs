//! Where a cell keeps its value.
//!
//! Two strategies hold the one value of a cell: a slot inside the cell
//! itself, and a pointer to a value that was placed on the heap when it was
//! produced. Both are written once, never cleared, and never run the value's
//! destructor.

use core::mem::ManuallyDrop;
use vstd::prelude::*;

verus! {

/// A write-once place for a value of type `T`.
pub trait Storage<T>: Sized {
    /// What the storage holds: nothing yet, or the value.
    spec fn held(&self) -> Option<T>;

    /// Storage that holds nothing.
    fn empty() -> (s: Self)
        ensures
            s.held() is None,
    ;

    /// Whether the value has been written.
    fn is_filled(&self) -> (b: bool)
        ensures
            b == self.held() is Some,
    ;

    /// Puts the value in place. Only empty storage is written.
    fn write(&mut self, value: T)
        requires
            old(self).held() is None,
        ensures
            final(self).held() == Some(value),
    ;

    /// The value, once written.
    fn read(&self) -> (value: &T)
        requires
            self.held() is Some,
        ensures
            self.held() == Some(*value),
    ;
}

/// Storage inside the cell itself: a slot for one `T` and the fact of
/// whether it is taken.
pub struct Inline<T> {
    slot: Option<ManuallyDrop<T>>,
}

impl<T> Storage<T> for Inline<T> {
    closed spec fn held(&self) -> Option<T> {
        match self.slot {
            Some(kept) => Some(kept@),
            None => None,
        }
    }

    fn empty() -> (s: Self) {
        Inline { slot: None }
    }

    fn is_filled(&self) -> (b: bool) {
        self.slot.is_some()
    }

    fn write(&mut self, value: T) {
        self.slot = Some(ManuallyDrop::new(value));
    }

    fn read(&self) -> (value: &T) {
        let kept: &ManuallyDrop<T> = self.slot.as_ref().unwrap();
        kept
    }
}

/// Storage outside the cell: a pointer that is null until the value has been
/// placed on the heap, and points to it from then on.
pub struct Boxed<T> {
    ptr: Option<ManuallyDrop<Box<T>>>,
}

impl<T> Storage<T> for Boxed<T> {
    closed spec fn held(&self) -> Option<T> {
        match self.ptr {
            Some(kept) => Some(*kept@),
            None => None,
        }
    }

    fn empty() -> (s: Self) {
        Boxed { ptr: None }
    }

    fn is_filled(&self) -> (b: bool) {
        self.ptr.is_some()
    }

    fn write(&mut self, value: T) {
        self.ptr = Some(ManuallyDrop::new(Box::new(value)));
    }

    fn read(&self) -> (value: &T) {
        let kept: &ManuallyDrop<Box<T>> = self.ptr.as_ref().unwrap();
        let boxed: &Box<T> = kept;
        &**boxed
    }
}

} // verus!
