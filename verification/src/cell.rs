//! The lazily initialized cell: a life-cycle state next to write-once
//! storage.
//!
//! Every method that changes the cell is one indivisible step of the
//! protocol, so holding the cell exclusively for the length of a call stands
//! for the atomicity of that step.

use crate::protocol::{Event, Phase};
use crate::state::State;
use crate::storage::{Inline, Storage};
use core::marker::PhantomData;
use vstd::prelude::*;

verus! {

/// What a cell is, seen from outside: its state and the value it holds.
pub struct CellView<T> {
    pub state: State,
    pub value: Option<T>,
}

impl<T> CellView<T> {
    /// A cell that nobody has touched.
    pub open spec fn fresh() -> Self {
        CellView { state: State::Uninitialized, value: None }
    }

    /// State and storage agree: an unclaimed cell holds nothing, a finished
    /// one holds its value.
    pub open spec fn consistent(self) -> bool {
        &&& self.state == State::Uninitialized ==> self.value is None
        &&& self.state == State::Initialized ==> self.value is Some
    }

    /// The cell after one complete access whose initializer, had it run,
    /// would have produced `produced`: a finished cell is left as it is,
    /// any other ends up finished and holding `produced`.
    pub open spec fn accessed(self, produced: T) -> Self {
        if self.state == State::Initialized {
            self
        } else {
            CellView { state: State::Initialized, value: Some(produced) }
        }
    }

    /// The cell after one complete access for each entry of `produced`, in
    /// that order; the entry is what the initializer of that access would
    /// have produced.
    pub open spec fn accessed_each(self, produced: Seq<T>) -> Self
        decreases produced.len(),
    {
        if produced.len() == 0 {
            self
        } else {
            self.accessed(produced[0]).accessed_each(produced.skip(1))
        }
    }

    /// What a caller in `phase` learns from the operation of that phase.
    /// `outcome` is what the initializer yields should this operation run
    /// it: its result, or nothing when it fails.
    pub open spec fn event_for(self, phase: Phase, outcome: Option<T>) -> Event {
        match phase {
            Phase::Claiming => Event::Claimed(self.state == State::Uninitialized),
            Phase::Running => if outcome is Some {
                Event::Produced
            } else {
                Event::Failed
            },
            Phase::Publishing => Event::Published,
            _ => Event::Observed(self.state),
        }
    }

    /// What the operation of a caller in `phase` makes of the cell.
    pub open spec fn after(self, phase: Phase, outcome: Option<T>) -> Self {
        match phase {
            Phase::Claiming => CellView { state: self.state.claimed(), value: self.value },
            Phase::Running => if outcome is Some {
                CellView { state: self.state, value: outcome }
            } else {
                self
            },
            Phase::Publishing => CellView { state: State::Initialized, value: self.value },
            _ => self,
        }
    }
}

/// A slot for one value of type `T` that is produced on first access.
pub struct LazyCell<T, S: Storage<T> = Inline<T>> {
    state: State,
    storage: S,
    value_type: PhantomData<T>,
}

impl<T, S: Storage<T>> View for LazyCell<T, S> {
    type V = CellView<T>;

    closed spec fn view(&self) -> CellView<T> {
        CellView { state: self.state, value: self.storage.held() }
    }
}

impl<T, S: Storage<T>> LazyCell<T, S> {
    #[verifier::type_invariant]
    spec fn consistent(&self) -> bool {
        self@.consistent()
    }

    /// A cell that nobody has touched.
    pub fn new() -> (cell: Self)
        ensures
            cell@ == CellView::<T>::fresh(),
    {
        LazyCell { state: State::Uninitialized, storage: S::empty(), value_type: PhantomData }
    }

    /// Reads the state.
    pub fn load(&self) -> (s: State)
        ensures
            s == self@.state,
            self@.consistent(),
    {
        proof {
            use_type_invariant(self);
        }
        self.state
    }

    /// The value, if and only if it has been published.
    pub fn get(&self) -> (r: Option<&T>)
        ensures
            self@.state == State::Initialized ==> r is Some && self@.value == Some(*r.unwrap()),
            self@.state != State::Initialized ==> r is None,
    {
        proof {
            use_type_invariant(self);
        }
        if self.state.is_initialized() {
            Some(self.storage.read())
        } else {
            None
        }
    }

    /// Tries to claim the cell for initialization. The attempt wins on an
    /// untouched cell only; a cell that is claimed or finished is left as it
    /// is.
    pub fn try_claim(&mut self) -> (won: bool)
        ensures
            won == (old(self)@.state == State::Uninitialized),
            final(self)@.state == old(self)@.state.claimed(),
            final(self)@.value == old(self)@.value,
            !won ==> *final(self) == *old(self),
    {
        proof {
            use_type_invariant(&*self);
        }
        let claim = self.state.claim();
        self.state = claim.after;
        claim.won
    }

    /// Writes the value into storage. Only the caller that won the claim
    /// does this, once, before it publishes.
    pub fn fill(&mut self, value: T)
        requires
            old(self)@.state == State::Initializing,
            old(self)@.value is None,
        ensures
            final(self)@.state == State::Initializing,
            final(self)@.value == Some(value),
    {
        let mut storage = S::empty();
        storage.write(value);
        self.storage = storage;
    }

    /// Publishes the value that was written: from here on every reader sees
    /// it.
    pub fn publish(&mut self)
        requires
            old(self)@.state == State::Initializing,
            old(self)@.value is Some,
        ensures
            final(self)@.state == State::Initialized,
            final(self)@.value == old(self)@.value,
    {
        self.state = self.state.publish();
    }

    /// Performs the operation of a caller in `phase` and reports what came
    /// of it. The initializer is not run here: the caller in `Running` runs
    /// it and hands the result to `fill`.
    pub fn perform(&mut self, phase: Phase) -> (event: Event)
        requires
            phase != Phase::Running,
            phase == Phase::Publishing ==> old(self)@.state == State::Initializing
                && old(self)@.value is Some,
        ensures
            event == old(self)@.event_for(phase, None),
            final(self)@ == old(self)@.after(phase, None),
    {
        match phase {
            Phase::Claiming => Event::Claimed(self.try_claim()),
            Phase::Publishing => {
                self.publish();
                Event::Published
            },
            _ => Event::Observed(self.load()),
        }
    }

    /// The accessor, for a caller that has the cell to itself: returns the
    /// value, producing it with `initializer` if the cell is untouched.
    ///
    /// A finished cell is returned as it stands. Nothing is asked of
    /// `initializer` in that case, so it cannot be run: the value is produced
    /// at most once in the life of a cell. A cell whose claim is held by an
    /// unfinished initialization is not accepted, since a lone caller would
    /// wait for it without end.
    pub fn get_or_init<F: FnOnce() -> T>(&mut self, initializer: F) -> (value: &T)
        requires
            old(self)@.state != State::Initializing,
            old(self)@.state == State::Uninitialized ==> initializer.requires(()),
        ensures
            final(self)@ == old(self)@.accessed(*value),
            final(self)@.value == Some(*value),
            old(self)@.state == State::Uninitialized ==> initializer.ensures((), *value),
            old(self)@.state == State::Initialized ==> *final(self) == *old(self),
    {
        proof {
            use_type_invariant(&*self);
        }
        if self.try_claim() {
            let produced = initializer();
            self.fill(produced);
            self.publish();
        }
        self.storage.read()
    }

    /// The accessor of a cell whose value is derived from the value of
    /// another cell: `derive` is the initializer of this cell, and it reads
    /// `source` through the accessor of `source`.
    ///
    /// If this cell is untouched, it is claimed first; then `source` is
    /// accessed, which initializes it if need be; then `derive` turns the
    /// value of `source` into the value of this cell. A finished cell is
    /// returned as it stands, and `source` is not touched. The two cells are
    /// held exclusively and so are distinct: a cell cannot depend on
    /// itself.
    pub fn get_or_init_from<U, SU: Storage<U>, FU: FnOnce() -> U, G: FnOnce(&U) -> T>(
        &mut self,
        source: &mut LazyCell<U, SU>,
        source_initializer: FU,
        derive: G,
    ) -> (value: &T)
        requires
            old(self)@.state != State::Initializing,
            old(self)@.state == State::Uninitialized ==> {
                &&& old(source)@.state != State::Initializing
                &&& old(source)@.state == State::Uninitialized ==> source_initializer.requires(())
                &&& forall|u: U|
                    (if old(source)@.state == State::Initialized {
                        old(source)@.value == Some(u)
                    } else {
                        source_initializer.ensures((), u)
                    }) ==> derive.requires((&u,))
            },
        ensures
            final(self)@ == old(self)@.accessed(*value),
            final(self)@.value == Some(*value),
            old(self)@.state == State::Initialized ==> *final(self) == *old(self) && *final(source)
                == *old(source),
            old(self)@.state == State::Uninitialized ==> {
                &&& final(source)@.value matches Some(u)
                &&& final(source)@ == old(source)@.accessed(u)
                &&& old(source)@.state == State::Uninitialized ==> source_initializer.ensures(
                    (),
                    u,
                )
                &&& old(source)@.state == State::Initialized ==> *final(source) == *old(source)
                &&& derive.ensures((&u,), *value)
            },
    {
        proof {
            use_type_invariant(&*self);
        }
        if self.try_claim() {
            let seen = source.get_or_init(source_initializer);
            let produced = derive(seen);
            self.fill(produced);
            self.publish();
        }
        self.storage.read()
    }

    /// Forces the initialization without handing the value out: afterwards
    /// the cell is finished, and an already finished cell is left untouched.
    pub fn initialize<F: FnOnce() -> T>(&mut self, initializer: F)
        requires
            old(self)@.state != State::Initializing,
            old(self)@.state == State::Uninitialized ==> initializer.requires(()),
        ensures
            final(self)@.state == State::Initialized,
            final(self)@.value is Some,
            final(self)@ == old(self)@.accessed(final(self)@.value.unwrap()),
            old(self)@.state == State::Uninitialized ==> initializer.ensures(
                (),
                final(self)@.value.unwrap(),
            ),
            old(self)@.state == State::Initialized ==> *final(self) == *old(self),
    {
        let _ = self.get_or_init(initializer);
    }
}

/// A second access changes nothing: whatever its initializer would have
/// produced, the cell keeps the state and the value that the first access
/// left.
pub proof fn lemma_access_is_idempotent<T>(cell: CellView<T>, first: T, second: T)
    ensures
        cell.accessed(first).state == State::Initialized,
        cell.accessed(first).accessed(second) == cell.accessed(first),
        cell.state == State::Initialized ==> cell.accessed(first) == cell,
        cell.state != State::Initialized ==> cell.accessed(first).value == Some(first),
{
}

/// Any number of accesses amounts to the first of them: the cell keeps the
/// value that the first access found or produced, and no later initializer
/// has any effect. So it is with an explicit initialization followed by any
/// number of accesses.
pub proof fn lemma_only_the_first_access_counts<T>(cell: CellView<T>, produced: Seq<T>)
    requires
        produced.len() > 0,
    ensures
        cell.accessed_each(produced) == cell.accessed(produced[0]),
        cell.state == State::Initialized ==> cell.accessed_each(produced) == cell,
    decreases produced.len(),
{
    let first = cell.accessed(produced[0]);
    let rest = produced.skip(1);
    if rest.len() > 0 {
        lemma_only_the_first_access_counts(first, rest);
        lemma_access_is_idempotent(cell, produced[0], rest[0]);
    } else {
        assert(first.accessed_each(rest) == first);
    }
}

/// An access keeps a consistent cell consistent and never moves it backwards
/// in its life cycle.
pub proof fn lemma_access_moves_forward<T>(cell: CellView<T>, produced: T)
    requires
        cell.consistent(),
    ensures
        cell.accessed(produced).consistent(),
        cell.state.reaches(cell.accessed(produced).state),
{
}

} // verus!
