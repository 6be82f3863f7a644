//! The life cycle of a lazily initialized cell.
//!
//! A cell starts `Uninitialized`, is claimed by exactly one caller
//! (`Initializing`) and ends `Initialized`, where it stays for good. The
//! functions here are the pure meaning of the atomic operations that move a
//! cell along that path.

use vstd::prelude::*;

verus! {

/// Where a cell stands in its life cycle.
#[derive(Clone, Copy, Debug, PartialEq, Eq, Structural)]
pub enum State {
    /// Nobody has claimed the cell yet.
    Uninitialized,
    /// One caller has claimed the cell and is producing its value.
    Initializing,
    /// The value is in place and will never change again.
    Initialized,
}

/// The result of trying to claim a cell.
#[derive(Clone, Copy, Debug, PartialEq, Eq, Structural)]
pub struct Claim {
    /// The state the cell is left in.
    pub after: State,
    /// Whether this attempt was the one that claimed the cell.
    pub won: bool,
}

impl State {
    /// The number under which the state is kept in an atomic word.
    pub open spec fn code_of(self) -> int {
        match self {
            State::Uninitialized => 0,
            State::Initializing => 1,
            State::Initialized => 2,
        }
    }

    /// The state that a number stands for, if any.
    pub open spec fn of_code(code: int) -> Option<State> {
        if code == 0 {
            Some(State::Uninitialized)
        } else if code == 1 {
            Some(State::Initializing)
        } else if code == 2 {
            Some(State::Initialized)
        } else {
            None
        }
    }

    /// The one step that the life cycle allows from `self`, if `next` is it.
    pub open spec fn may_become(self, next: State) -> bool {
        ||| self == State::Uninitialized && next == State::Initializing
        ||| self == State::Initializing && next == State::Initialized
    }

    /// `later` is `self` or comes after it in the life cycle.
    pub open spec fn reaches(self, later: State) -> bool {
        self.code_of() <= later.code_of()
    }

    /// The state after a claim attempt: an unclaimed cell becomes
    /// `Initializing`, any other cell is left alone.
    pub open spec fn claimed(self) -> State {
        if self == State::Uninitialized {
            State::Initializing
        } else {
            self
        }
    }

    /// The number under which the state is kept in an atomic word.
    pub fn code(self) -> (c: usize)
        ensures
            c == self.code_of(),
            State::of_code(c as int) == Some(self),
    {
        match self {
            State::Uninitialized => 0,
            State::Initializing => 1,
            State::Initialized => 2,
        }
    }

    /// Reads a state back from its number; numbers above 2 stand for nothing.
    pub fn from_code(code: usize) -> (s: Option<State>)
        ensures
            s == State::of_code(code as int),
            s matches Some(st) ==> st.code_of() == code,
    {
        if code == 0 {
            Some(State::Uninitialized)
        } else if code == 1 {
            Some(State::Initializing)
        } else if code == 2 {
            Some(State::Initialized)
        } else {
            None
        }
    }

    /// Whether the value is in place.
    pub fn is_initialized(self) -> (b: bool)
        ensures
            b == (self == State::Initialized),
    {
        match self {
            State::Initialized => true,
            _ => false,
        }
    }

    /// The compare-and-swap that every racing caller performs: it succeeds
    /// on an `Uninitialized` cell only, and moves nothing otherwise.
    pub fn claim(self) -> (c: Claim)
        ensures
            c.after == self.claimed(),
            c.won == (self == State::Uninitialized),
    {
        match self {
            State::Uninitialized => Claim { after: State::Initializing, won: true },
            other => Claim { after: other, won: false },
        }
    }

    /// The winner's final store, made once the value is in storage.
    pub fn publish(self) -> (s: State)
        requires
            self == State::Initializing,
        ensures
            s == State::Initialized,
            self.may_become(s),
    {
        State::Initialized
    }
}

/// No step of the life cycle leaves `Initialized`.
pub proof fn lemma_initialized_is_final(next: State)
    ensures
        !State::Initialized.may_become(next),
{
}

/// Every step of the life cycle moves forward, so no state comes back.
pub proof fn lemma_steps_move_forward(s: State, next: State)
    requires
        s.may_become(next),
    ensures
        s.reaches(next),
        !next.reaches(s),
        next != State::Uninitialized,
{
}

/// A claim attempt either takes the one allowed step or changes nothing,
/// and a second attempt on its result never wins.
pub proof fn lemma_claim_is_won_once(s: State)
    ensures
        s.claimed() == s || s.may_become(s.claimed()),
        s.claimed() != State::Uninitialized,
        s.claimed().claimed() == s.claimed(),
{
}

/// The codes tell the three states apart.
pub proof fn lemma_codes_are_distinct(a: State, b: State)
    ensures
        a.code_of() == b.code_of() <==> a == b,
        State::of_code(a.code_of()) == Some(a),
{
}

} // verus!
