//! A lazily produced value: a cell together with the initializer that will
//! fill it on first access.

use crate::cell::{CellView, LazyCell};
use crate::state::State;
use crate::storage::{Inline, Storage};
use crate::LazyStatic;
use vstd::prelude::*;

verus! {

/// A value of type `T` that `F` produces when it is first asked for.
#[verifier::reject_recursive_types(T)]
pub struct Lazy<T, F: FnOnce() -> T, S: Storage<T> = Inline<T>> {
    cell: LazyCell<T, S>,
    initializer: Option<F>,
}

impl<T, F: FnOnce() -> T, S: Storage<T>> View for Lazy<T, F, S> {
    type V = CellView<T>;

    closed spec fn view(&self) -> CellView<T> {
        self.cell@
    }
}

impl<T, F: FnOnce() -> T, S: Storage<T>> Lazy<T, F, S> {
    /// The initializer, as long as it has not been started.
    pub closed spec fn pending(&self) -> Option<F> {
        self.initializer
    }

    /// The cell is consistent and not left half-way, and the initializer is
    /// on hand, ready to be called, exactly as long as the cell is
    /// untouched.
    pub open spec fn wf(&self) -> bool {
        &&& self@.consistent()
        &&& self@.state != State::Initializing
        &&& self.pending() is Some <==> self@.state == State::Uninitialized
        &&& self.pending() matches Some(f) ==> f.requires(())
    }

    /// What the predicates of `LazyStatic` mean for a `Lazy`. A caller that
    /// knows the type of the initializer learns it here.
    pub proof fn lemma_lazy_static(&self, before: &Self)
        ensures
            self.initialized() <==> self@.state == State::Initialized,
            self.can_initialize() <==> self.wf(),
            self.forced_from(before) <==> {
                &&& self@.value matches Some(value)
                &&& self@ == before@.accessed(value)
                &&& before.pending() matches Some(f) ==> f.ensures((), value)
                &&& self.pending() is None
            },
    {
    }

    /// A value that `initializer` will produce on first access.
    pub fn new(initializer: F) -> (lazy: Self)
        requires
            initializer.requires(()),
        ensures
            lazy.wf(),
            lazy.can_initialize(),
            lazy@ == CellView::<T>::fresh(),
            lazy.pending() == Some(initializer),
    {
        Lazy { cell: LazyCell::new(), initializer: Some(initializer) }
    }

    /// Whether the value has been produced.
    pub fn is_initialized(&self) -> (b: bool)
        ensures
            b == (self@.state == State::Initialized),
    {
        self.cell.load().is_initialized()
    }

    /// The value, if it has been produced; this never runs the initializer.
    pub fn peek(&self) -> (r: Option<&T>)
        ensures
            self@.state == State::Initialized ==> r is Some && self@.value == Some(*r.unwrap()),
            self@.state != State::Initialized ==> r is None,
    {
        self.cell.get()
    }

    /// The value, produced now if this is the first access. Every later
    /// access returns the same value and leaves everything as it is.
    pub fn get(&mut self) -> (value: &T)
        requires
            old(self).wf(),
        ensures
            final(self).wf(),
            final(self).can_initialize(),
            final(self)@ == old(self)@.accessed(*value),
            final(self)@.value == Some(*value),
            old(self).pending() matches Some(f) ==> f.ensures((), *value),
            old(self)@.state == State::Initialized ==> *final(self) == *old(self),
    {
        match self.initializer.take() {
            Some(initializer) => self.cell.get_or_init(initializer),
            None => self.cell.get().unwrap(),
        }
    }
}

impl<T, F: FnOnce() -> T, S: Storage<T>> LazyStatic for Lazy<T, F, S> {
    open spec fn initialized(&self) -> bool {
        self@.state == State::Initialized
    }

    open spec fn can_initialize(&self) -> bool {
        self.wf()
    }

    open spec fn forced_from(&self, before: &Self) -> bool {
        &&& self@.value matches Some(value)
        &&& self@ == before@.accessed(value)
        &&& before.pending() matches Some(f) ==> f.ensures((), value)
        &&& self.pending() is None
    }

    fn initialize(lazy: &mut Self) {
        let _ = lazy.get();
    }
}

} // verus!
