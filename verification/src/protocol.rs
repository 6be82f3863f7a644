//! The steps of one caller of the accessor.
//!
//! A caller is a small machine: it reads the state, tries to claim the cell,
//! and then either produces and publishes the value or waits for the caller
//! that does. Whoever drives a caller performs the operation that its phase
//! names on the shared cell and reports what came of it; the functions here
//! decide where the caller goes next.

use crate::state::State;
use vstd::prelude::*;

verus! {

/// What a caller is about to do.
#[derive(Clone, Copy, Debug, PartialEq, Eq, Structural)]
pub enum Phase {
    /// Read the state; a finished cell is returned at once.
    Start,
    /// Try to move the cell from `Uninitialized` to `Initializing`.
    Claiming,
    /// Run the initializer and write its result into storage.
    Running,
    /// Store `Initialized`, which makes the value visible to everyone.
    Publishing,
    /// Yield the processor, then read the state again.
    Waiting,
    /// Return the reference to the stored value.
    Done,
    /// Nothing: the initializer failed and the caller left, still holding
    /// the claim.
    Abandoned,
}

/// What came of the operation that a caller performed.
#[derive(Clone, Copy, Debug, PartialEq, Eq, Structural)]
pub enum Event {
    /// The state was read and found to be this.
    Observed(State),
    /// The claim was attempted and was won, or not.
    Claimed(bool),
    /// The initializer returned and its result is in storage.
    Produced,
    /// The initializer did not return.
    Failed,
    /// `Initialized` has been stored.
    Published,
}

/// How an operation on the state is ordered against the accesses to storage
/// around it.
#[derive(Clone, Copy, Debug, PartialEq, Eq, Structural)]
pub enum MemoryOrder {
    /// What was written before a release store is visible after this read of
    /// that store.
    Acquire,
    /// What was written before this store is visible to whoever reads the
    /// store with `Acquire`.
    Release,
}

impl Phase {
    /// The caller holds the claim: it is the one that moved the cell out of
    /// `Uninitialized`, and the cell has not been published yet.
    pub open spec fn holds_claim(self) -> bool {
        self == Phase::Running || self == Phase::Publishing || self == Phase::Abandoned
    }

    /// The event answers the operation of this phase.
    pub open spec fn expects(self, event: Event) -> bool {
        match (self, event) {
            (Phase::Start, Event::Observed(_)) => true,
            (Phase::Waiting, Event::Observed(_)) => true,
            (Phase::Claiming, Event::Claimed(_)) => true,
            (Phase::Running, Event::Produced) => true,
            (Phase::Running, Event::Failed) => true,
            (Phase::Publishing, Event::Published) => true,
            _ => false,
        }
    }

    /// The phase that follows `self` on `event`. An event that the phase
    /// does not expect leaves the caller where it is.
    pub open spec fn advanced(self, event: Event) -> Phase {
        match (self, event) {
            (Phase::Start, Event::Observed(seen)) => if seen == State::Initialized {
                Phase::Done
            } else {
                Phase::Claiming
            },
            (Phase::Waiting, Event::Observed(seen)) => if seen == State::Initialized {
                Phase::Done
            } else {
                Phase::Waiting
            },
            (Phase::Claiming, Event::Claimed(won)) => if won {
                Phase::Running
            } else {
                Phase::Waiting
            },
            (Phase::Running, Event::Produced) => Phase::Publishing,
            (Phase::Running, Event::Failed) => Phase::Abandoned,
            (Phase::Publishing, Event::Published) => Phase::Done,
            _ => self,
        }
    }

    /// How many more steps the caller takes at most, not counting polls that
    /// find the cell unfinished.
    pub open spec fn steps_left(self) -> nat {
        match self {
            Phase::Start => 4,
            Phase::Claiming => 3,
            Phase::Running => 2,
            Phase::Publishing => 1,
            Phase::Waiting => 1,
            Phase::Done => 0,
            Phase::Abandoned => 0,
        }
    }

    /// The ordering of the operation that this phase performs on the state,
    /// if it performs one.
    pub open spec fn order_of(self) -> Option<MemoryOrder> {
        match self {
            Phase::Start => Some(MemoryOrder::Acquire),
            Phase::Claiming => Some(MemoryOrder::Acquire),
            Phase::Waiting => Some(MemoryOrder::Acquire),
            Phase::Publishing => Some(MemoryOrder::Release),
            _ => None,
        }
    }

    /// Whether the caller has the reference in hand.
    pub fn is_done(self) -> (b: bool)
        ensures
            b == (self == Phase::Done),
    {
        match self {
            Phase::Done => true,
            _ => false,
        }
    }

    /// Whether `event` answers the operation of this phase.
    pub fn accepts(self, event: Event) -> (b: bool)
        ensures
            b == self.expects(event),
    {
        match (self, event) {
            (Phase::Start, Event::Observed(_)) => true,
            (Phase::Waiting, Event::Observed(_)) => true,
            (Phase::Claiming, Event::Claimed(_)) => true,
            (Phase::Running, Event::Produced) => true,
            (Phase::Running, Event::Failed) => true,
            (Phase::Publishing, Event::Published) => true,
            _ => false,
        }
    }

    /// Moves the caller on: the phase that follows on `event`.
    pub fn advance(self, event: Event) -> (next: Phase)
        ensures
            next == self.advanced(event),
    {
        match (self, event) {
            (Phase::Start, Event::Observed(seen)) => {
                if seen.is_initialized() {
                    Phase::Done
                } else {
                    Phase::Claiming
                }
            },
            (Phase::Waiting, Event::Observed(seen)) => {
                if seen.is_initialized() {
                    Phase::Done
                } else {
                    Phase::Waiting
                }
            },
            (Phase::Claiming, Event::Claimed(won)) => {
                if won {
                    Phase::Running
                } else {
                    Phase::Waiting
                }
            },
            (Phase::Running, Event::Produced) => Phase::Publishing,
            (Phase::Running, Event::Failed) => Phase::Abandoned,
            (Phase::Publishing, Event::Published) => Phase::Done,
            (phase, _) => phase,
        }
    }

    /// The ordering to use for the operation that this phase performs on the
    /// state: reads and the claim acquire, the publishing store releases.
    pub fn memory_order(self) -> (order: Option<MemoryOrder>)
        ensures
            order == self.order_of(),
    {
        match self {
            Phase::Start => Some(MemoryOrder::Acquire),
            Phase::Claiming => Some(MemoryOrder::Acquire),
            Phase::Waiting => Some(MemoryOrder::Acquire),
            Phase::Publishing => Some(MemoryOrder::Release),
            _ => None,
        }
    }
}

/// A caller reaches `Done` only on reading `Initialized` or on publishing
/// the value itself.
pub proof fn lemma_done_needs_a_published_value(phase: Phase, event: Event)
    requires
        phase != Phase::Done,
        phase.advanced(event) == Phase::Done,
    ensures
        event == Event::Observed(State::Initialized) || (phase == Phase::Publishing && event
            == Event::Published),
{
}

/// A caller comes to hold the claim only by winning it, and gives it up only
/// by publishing.
pub proof fn lemma_claim_is_won_and_published(phase: Phase, event: Event)
    ensures
        !phase.holds_claim() && phase.advanced(event).holds_claim() ==> phase == Phase::Claiming
            && event == Event::Claimed(true),
        phase.holds_claim() && !phase.advanced(event).holds_claim() ==> phase == Phase::Publishing
            && event == Event::Published && phase.advanced(event) == Phase::Done,
{
}

/// No event moves a caller away from its goal: an expected event brings it
/// strictly closer, except a poll that finds the cell unfinished.
pub proof fn lemma_events_bring_closer(phase: Phase, event: Event)
    ensures
        phase.advanced(event).steps_left() <= phase.steps_left(),
        phase.expects(event) && !(phase == Phase::Waiting && event != Event::Observed(
            State::Initialized,
        )) ==> phase.advanced(event).steps_left() < phase.steps_left(),
        phase == Phase::Done || phase == Phase::Abandoned ==> phase.advanced(event) == phase,
{
}

/// A caller that finds the cell claimed by another never returns while the
/// cell stays `Initializing`, however often it looks: it tries the claim,
/// loses, and polls.
pub proof fn lemma_waiting_on_unfinished_cell(phase: Phase)
    requires
        !phase.holds_claim(),
        phase != Phase::Done,
    ensures
        phase.advanced(Event::Observed(State::Initializing)) != Phase::Done,
        phase.advanced(Event::Claimed(false)) != Phase::Done,
        !phase.advanced(Event::Observed(State::Initializing)).holds_claim(),
        !phase.advanced(Event::Claimed(false)).holds_claim(),
{
}

} // verus!
