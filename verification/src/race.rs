//! Many callers racing for one cell.
//!
//! The race is a transition system: its state is the cell together with the
//! phase of every caller, and a step lets one caller perform the operation
//! of its phase. Any interleaving of the callers is a sequence of such
//! steps, so what holds after every step holds under every schedule.

use crate::cell::{CellView, LazyCell};
use crate::protocol::{Event, Phase};
use crate::state::State;
use crate::storage::{Inline, Storage};
use vstd::prelude::*;

verus! {

/// The state of a race: the cell, where each caller stands, and how often
/// the initializer has been started.
pub struct RaceView<T> {
    pub cell: CellView<T>,
    pub phases: Seq<Phase>,
    pub runs: nat,
}

impl<T> RaceView<T> {
    /// An untouched cell and `callers` callers that have not begun.
    pub open spec fn fresh(callers: nat) -> Self {
        RaceView {
            cell: CellView::fresh(),
            phases: Seq::new(callers, |i: int| Phase::Start),
            runs: 0,
        }
    }

    /// `who` is one of the callers.
    pub open spec fn has_caller(self, who: int) -> bool {
        0 <= who < self.phases.len()
    }

    /// One step of caller `who`. A caller that is not in the race, or that
    /// has returned or left, changes nothing.
    pub open spec fn step(self, who: int, outcome: Option<T>) -> Self {
        if self.has_caller(who) {
            RaceView {
                cell: self.cell.after(self.phases[who], outcome),
                phases: self.phases.update(
                    who,
                    self.phases[who].advanced(self.cell.event_for(self.phases[who], outcome)),
                ),
                runs: if self.phases[who] == Phase::Running {
                    self.runs + 1
                } else {
                    self.runs
                },
            }
        } else {
            self
        }
    }

    /// The race after the callers have stepped in the order that `schedule`
    /// lists them.
    pub open spec fn run(self, schedule: Seq<int>, outcome: Option<T>) -> Self
        decreases schedule.len(),
    {
        if schedule.len() == 0 {
            self
        } else {
            self.step(schedule[0], outcome).run(schedule.skip(1), outcome)
        }
    }

    /// What caller `who` has been handed: the stored value once it is done,
    /// nothing before.
    pub open spec fn returned(self, who: int) -> Option<T> {
        if self.has_caller(who) && self.phases[who] == Phase::Done {
            self.cell.value
        } else {
            None
        }
    }

    /// Every caller has the reference in hand.
    pub open spec fn all_done(self) -> bool {
        forall|i: int| self.has_caller(i) ==> #[trigger] self.phases[i] == Phase::Done
    }

    /// Some caller's initializer failed.
    pub open spec fn abandoned(self) -> bool {
        exists|i: int| self.has_caller(i) && #[trigger] self.phases[i] == Phase::Abandoned
    }

    /// A caller in `phase` is where the cell allows it to be.
    pub open spec fn phase_fits(self, phase: Phase) -> bool {
        match phase {
            Phase::Start => true,
            Phase::Claiming => true,
            Phase::Running => self.cell.state == State::Initializing && self.cell.value is None
                && self.runs == 0,
            Phase::Publishing => self.cell.state == State::Initializing && self.cell.value is Some
                && self.runs == 1,
            Phase::Abandoned => self.cell.state == State::Initializing && self.cell.value is None
                && self.runs == 1,
            Phase::Waiting => self.cell.state != State::Uninitialized,
            Phase::Done => self.cell.state == State::Initialized,
        }
    }

    /// What holds of every race that started fresh, whatever the schedule:
    /// the cell is consistent, at most one caller holds the claim, and that
    /// caller exists exactly while the cell is `Initializing`.
    pub open spec fn sound(self) -> bool {
        &&& self.cell.state == State::Uninitialized ==> self.cell.value is None && self.runs == 0
        &&& self.cell.state == State::Initialized ==> self.cell.value is Some && self.runs == 1
        &&& self.runs <= 1
        &&& forall|i: int| self.has_caller(i) ==> self.phase_fits(#[trigger] self.phases[i])
        &&& forall|i: int, j: int|
            self.has_caller(i) && self.has_caller(j) && (#[trigger] self.phases[i]).holds_claim()
                && (#[trigger] self.phases[j]).holds_claim() ==> i == j
        &&& self.cell.state == State::Initializing ==> exists|i: int|
            self.has_caller(i) && (#[trigger] self.phases[i]).holds_claim()
    }
}

/// A fresh race is sound.
pub proof fn lemma_fresh_is_sound<T>(callers: nat)
    ensures
        RaceView::<T>::fresh(callers).sound(),
        RaceView::<T>::fresh(callers).phases.len() == callers,
{
}

/// A step keeps a sound race sound, keeps its callers, and never runs the
/// initializer a second time.
pub proof fn lemma_step_keeps_sound<T>(race: RaceView<T>, who: int, outcome: Option<T>)
    requires
        race.sound(),
    ensures
        race.step(who, outcome).sound(),
        race.step(who, outcome).phases.len() == race.phases.len(),
        race.runs <= race.step(who, outcome).runs <= 1,
        race.cell.state.reaches(race.step(who, outcome).cell.state),
        race.cell.value is Some ==> race.step(who, outcome).cell.value == race.cell.value,
        race.cell.value is None ==> race.step(who, outcome).cell.value is None || race.step(
            who,
            outcome,
        ).cell.value == outcome,
{
    let next = race.step(who, outcome);
    if race.has_caller(who) {
        let before = race.phases[who];
        let after = next.phases[who];
        assert(race.phase_fits(before));
        assert forall|i: int| next.has_caller(i) implies next.phase_fits(
            #[trigger] next.phases[i],
        ) by {
            assert(race.phase_fits(race.phases[i]));
            if i != who && before.holds_claim() {
                assert(!race.phases[i].holds_claim());
            }
        }
        assert forall|i: int, j: int|
            next.has_caller(i) && next.has_caller(j) && (#[trigger] next.phases[i]).holds_claim()
                && (#[trigger] next.phases[j]).holds_claim() implies i == j by {
            assert(race.phase_fits(race.phases[i]));
            assert(race.phase_fits(race.phases[j]));
        }
        if next.cell.state == State::Initializing {
            if after.holds_claim() {
                assert(next.has_caller(who) && next.phases[who].holds_claim());
            } else {
                let holder = choose|i: int|
                    race.has_caller(i) && (#[trigger] race.phases[i]).holds_claim();
                assert(holder != who);
                assert(next.has_caller(holder) && next.phases[holder].holds_claim());
            }
        }
    }
}

/// What the initializer yields matters to the step of the caller in
/// `Running` only.
pub proof fn lemma_outcome_matters_when_running<T>(
    race: RaceView<T>,
    who: int,
    one: Option<T>,
    other: Option<T>,
)
    requires
        !(race.has_caller(who) && race.phases[who] == Phase::Running),
    ensures
        race.step(who, one) == race.step(who, other),
{
}

/// Running a schedule and then one more step is running the longer
/// schedule.
pub proof fn lemma_run_then_step<T>(
    race: RaceView<T>,
    schedule: Seq<int>,
    who: int,
    outcome: Option<T>,
)
    ensures
        race.run(schedule.push(who), outcome) == race.run(schedule, outcome).step(who, outcome),
    decreases schedule.len(),
{
    let longer = schedule.push(who);
    if schedule.len() == 0 {
        assert(longer.skip(1) =~= schedule);
        assert(race.step(who, outcome).run(longer.skip(1), outcome) == race.step(who, outcome));
    } else {
        assert(longer.skip(1) =~= schedule.skip(1).push(who));
        lemma_run_then_step(race.step(schedule[0], outcome), schedule.skip(1), who, outcome);
    }
}

/// Whatever the schedule, a sound race stays sound, the initializer is never
/// started a second time, the cell only moves forward, and a value that is
/// in storage stays there unchanged.
pub proof fn lemma_run_keeps_sound<T>(race: RaceView<T>, schedule: Seq<int>, outcome: Option<T>)
    requires
        race.sound(),
    ensures
        race.run(schedule, outcome).sound(),
        race.run(schedule, outcome).phases.len() == race.phases.len(),
        race.runs <= race.run(schedule, outcome).runs <= 1,
        race.cell.state.reaches(race.run(schedule, outcome).cell.state),
        race.cell.value is Some ==> race.run(schedule, outcome).cell.value == race.cell.value,
        race.cell.value is None ==> race.run(schedule, outcome).cell.value is None || race.run(
            schedule,
            outcome,
        ).cell.value == outcome,
    decreases schedule.len(),
{
    if schedule.len() > 0 {
        lemma_step_keeps_sound(race, schedule[0], outcome);
        lemma_run_keeps_sound(race.step(schedule[0], outcome), schedule.skip(1), outcome);
    }
}

/// Exactly once: however many callers race for a fresh cell and however
/// their steps interleave, the initializer is started at most once, and it
/// has been started exactly once as soon as any caller has returned. What a
/// caller is handed is what that one run produced.
pub proof fn lemma_initializer_runs_once<T>(
    callers: nat,
    schedule: Seq<int>,
    outcome: Option<T>,
    who: int,
)
    ensures
        RaceView::<T>::fresh(callers).run(schedule, outcome).runs <= 1,
        RaceView::<T>::fresh(callers).run(schedule, outcome).returned(who) is Some ==> {
            &&& RaceView::<T>::fresh(callers).run(schedule, outcome).runs == 1
            &&& RaceView::<T>::fresh(callers).run(schedule, outcome).returned(who) == outcome
        },
        callers > 0 && RaceView::<T>::fresh(callers).run(schedule, outcome).all_done()
            ==> RaceView::<T>::fresh(callers).run(schedule, outcome).runs == 1,
{
    let start = RaceView::<T>::fresh(callers);
    let end = start.run(schedule, outcome);
    lemma_fresh_is_sound::<T>(callers);
    lemma_run_keeps_sound(start, schedule, outcome);
    if end.returned(who) is Some {
        assert(end.phase_fits(end.phases[who]));
    }
    if callers > 0 && end.all_done() {
        assert(end.has_caller(0));
        assert(end.phase_fits(end.phases[0]));
    }
}

/// A caller that has returned stays returned.
pub proof fn lemma_done_stays_done<T>(
    race: RaceView<T>,
    schedule: Seq<int>,
    outcome: Option<T>,
    who: int,
)
    requires
        race.has_caller(who),
        race.phases[who] == Phase::Done,
    ensures
        race.run(schedule, outcome).has_caller(who),
        race.run(schedule, outcome).phases[who] == Phase::Done,
    decreases schedule.len(),
{
    if schedule.len() > 0 {
        lemma_done_stays_done(race.step(schedule[0], outcome), schedule.skip(1), outcome, who);
    }
}

/// Stability: once the cell is `Initialized`, no step of any caller changes
/// its state or its value or runs the initializer, and every caller that
/// has returned, or returns later, holds that same value.
pub proof fn lemma_published_value_is_stable<T>(
    race: RaceView<T>,
    schedule: Seq<int>,
    outcome: Option<T>,
    who: int,
)
    requires
        race.sound(),
        race.cell.state == State::Initialized,
    ensures
        race.run(schedule, outcome).cell == race.cell,
        race.run(schedule, outcome).runs == race.runs,
        race.returned(who) is Some ==> race.run(schedule, outcome).returned(who) == race.returned(
            who,
        ),
        race.run(schedule, outcome).returned(who) is Some ==> race.run(schedule, outcome).returned(
            who,
        ) == race.cell.value,
{
    let end = race.run(schedule, outcome);
    lemma_run_keeps_sound(race, schedule, outcome);
    if race.returned(who) is Some {
        lemma_done_stays_done(race, schedule, outcome, who);
    }
}

/// No deadlock: in a race where no initializer has failed, as long as some
/// caller has not returned there is a caller whose next step brings it
/// closer to returning.
pub proof fn lemma_some_caller_can_move<T>(race: RaceView<T>, outcome: Option<T>) -> (who: int)
    requires
        race.sound(),
        !race.abandoned(),
        !race.all_done(),
    ensures
        race.has_caller(who),
        race.step(who, outcome).phases[who].steps_left() < race.phases[who].steps_left(),
{
    let busy = choose|i: int| race.has_caller(i) && #[trigger] race.phases[i] != Phase::Done;
    assert(race.phase_fits(race.phases[busy]));
    if race.phases[busy] == Phase::Waiting && race.cell.state == State::Initializing {
        let holder = choose|i: int| race.has_caller(i) && (#[trigger] race.phases[i]).holds_claim();
        assert(race.phases[holder] != Phase::Abandoned);
        holder
    } else {
        busy
    }
}

/// While the cell is `Initializing`, a caller that does not hold the claim
/// can neither change the cell nor return: it depends on the one that holds
/// the claim. A caller that waits for a cell whose claim it will never see
/// published, because the holder has failed or is this very caller's own
/// initializer, waits for ever.
pub proof fn lemma_waiters_depend_on_the_holder<T>(
    race: RaceView<T>,
    who: int,
    outcome: Option<T>,
)
    requires
        race.sound(),
        race.cell.state == State::Initializing,
        race.has_caller(who),
        !race.phases[who].holds_claim(),
    ensures
        race.step(who, outcome).cell == race.cell,
        race.step(who, outcome).runs == race.runs,
        race.step(who, outcome).phases[who] != Phase::Done,
        !race.step(who, outcome).phases[who].holds_claim(),
{
    assert(race.phase_fits(race.phases[who]));
}

/// A failed initializer is never made good: the cell stays `Initializing`
/// under every schedule, and no caller ever returns.
pub proof fn lemma_failure_is_permanent<T>(
    race: RaceView<T>,
    schedule: Seq<int>,
    outcome: Option<T>,
    who: int,
)
    requires
        race.sound(),
        race.abandoned(),
    ensures
        race.run(schedule, outcome).abandoned(),
        race.run(schedule, outcome).cell == race.cell,
        race.run(schedule, outcome).cell.state == State::Initializing,
        race.run(schedule, outcome).returned(who) is None,
    decreases schedule.len(),
{
    let left = choose|i: int| race.has_caller(i) && #[trigger] race.phases[i] == Phase::Abandoned;
    assert(race.phase_fits(race.phases[left]));
    if schedule.len() > 0 {
        let next = race.step(schedule[0], outcome);
        lemma_step_keeps_sound(race, schedule[0], outcome);
        if race.has_caller(schedule[0]) && schedule[0] != left {
            assert(!race.phases[schedule[0]].holds_claim());
            lemma_waiters_depend_on_the_holder(race, schedule[0], outcome);
        }
        assert(next.has_caller(left) && next.phases[left] == Phase::Abandoned);
        assert(next.cell == race.cell);
        lemma_failure_is_permanent(next, schedule.skip(1), outcome, who);
    } else {
        if race.has_caller(who) {
            assert(race.phase_fits(race.phases[who]));
        }
    }
}

/// A race that can be run: a cell, the initializer that will produce its
/// value, and callers that are stepped one at a time in any order.
#[verifier::reject_recursive_types(T)]
pub struct Race<T, F: FnOnce() -> T, S: Storage<T> = Inline<T>> {
    cell: LazyCell<T, S>,
    initializer: Option<F>,
    phases: Vec<Phase>,
    runs: usize,
}

impl<T, F: FnOnce() -> T, S: Storage<T>> View for Race<T, F, S> {
    type V = RaceView<T>;

    closed spec fn view(&self) -> RaceView<T> {
        RaceView { cell: self.cell@, phases: self.phases@, runs: self.runs as nat }
    }
}

impl<T, F: FnOnce() -> T, S: Storage<T>> Race<T, F, S> {
    /// The initializer, as long as it has not been started.
    pub closed spec fn pending(&self) -> Option<F> {
        self.initializer
    }

    /// The race is sound, and the initializer is on hand, ready to be
    /// called, exactly as long as it has not been started.
    pub open spec fn wf(&self) -> bool {
        &&& self@.sound()
        &&& self.pending() is Some <==> self@.runs == 0
        &&& self.pending() matches Some(f) ==> f.requires(())
    }

    /// A fresh cell and `callers` callers that have not begun.
    pub fn new(callers: usize, initializer: F) -> (race: Self)
        requires
            initializer.requires(()),
        ensures
            race.wf(),
            race@ == RaceView::<T>::fresh(callers as nat),
            race.pending() == Some(initializer),
    {
        let mut phases: Vec<Phase> = Vec::new();
        let mut i: usize = 0;
        while i < callers
            invariant
                i <= callers,
                phases@ =~= Seq::new(i as nat, |k: int| Phase::Start),
            decreases callers - i,
        {
            phases.push(Phase::Start);
            i = i + 1;
        }
        let race = Race { cell: LazyCell::new(), initializer: Some(initializer), phases, runs: 0 };
        proof {
            lemma_fresh_is_sound::<T>(callers as nat);
        }
        race
    }

    /// How many callers take part.
    pub fn callers(&self) -> (n: usize)
        ensures
            n == self@.phases.len(),
    {
        self.phases.len()
    }

    /// Where caller `who` stands, if it takes part.
    pub fn phase(&self, who: usize) -> (p: Option<Phase>)
        ensures
            p == if self@.has_caller(who as int) {
                Some(self@.phases[who as int])
            } else {
                None
            },
    {
        if who < self.phases.len() {
            Some(self.phases[who])
        } else {
            None
        }
    }

    /// The state of the cell.
    pub fn state(&self) -> (s: State)
        ensures
            s == self@.cell.state,
    {
        self.cell.load()
    }

    /// How often the initializer has been started.
    pub fn runs(&self) -> (n: usize)
        ensures
            n == self@.runs,
    {
        self.runs
    }

    /// What caller `who` has been handed: the stored value once it is done,
    /// nothing before.
    pub fn result(&self, who: usize) -> (r: Option<&T>)
        requires
            self.wf(),
        ensures
            r is Some <==> self@.returned(who as int) is Some,
            r matches Some(value) ==> self@.returned(who as int) == Some(*value),
    {
        if who < self.phases.len() && self.phases[who].is_done() {
            proof {
                assert(self@.phase_fits(self@.phases[who as int]));
            }
            self.cell.get()
        } else {
            None
        }
    }

    /// Whether every caller has the reference in hand.
    pub fn all_done(&self) -> (b: bool)
        ensures
            b == self@.all_done(),
    {
        let mut i: usize = 0;
        while i < self.phases.len()
            invariant
                i <= self.phases.len(),
                forall|k: int| 0 <= k < i ==> #[trigger] self@.phases[k] == Phase::Done,
            decreases self.phases.len() - i,
        {
            if !self.phases[i].is_done() {
                return false;
            }
            i = i + 1;
        }
        true
    }

    /// Lets caller `who` take its next step: it performs the operation of
    /// its phase on the cell and moves on according to what it found. The
    /// caller in `Running` calls the initializer, whose result is then the
    /// value in storage. A caller that has returned, and a number that names
    /// no caller, change nothing.
    pub fn step(&mut self, who: usize)
        requires
            old(self).wf(),
        ensures
            final(self).wf(),
            final(self)@ == old(self)@.step(who as int, final(self)@.cell.value),
            final(self).pending() == old(self).pending() || final(self).pending() is None,
            old(self).pending() matches Some(f) ==> final(self).pending() is Some || {
                &&& final(self)@.cell.value matches Some(value)
                &&& f.ensures((), value)
            },
    {
        if who >= self.phases.len() {
            return ;
        }
        let phase = self.phases[who];
        proof {
            assert(self@.phase_fits(self@.phases[who as int]));
        }
        match phase {
            Phase::Running => {
                let initializer = self.initializer.take().unwrap();
                self.runs = self.runs + 1;
                // Should the initializer not return, the caller is left as
                // having abandoned its claim.
                self.phases.set(who, phase.advance(Event::Failed));
                let produced = initializer();
                self.cell.fill(produced);
                self.phases.set(who, phase.advance(Event::Produced));
                proof {
                    let outcome = self@.cell.value;
                    lemma_step_keeps_sound(old(self)@, who as int, outcome);
                    assert(self@.phases =~= old(self)@.step(who as int, outcome).phases);
                    assert(self@.cell == old(self)@.step(who as int, outcome).cell);
                }
            },
            _ => {
                let event = self.cell.perform(phase);
                self.phases.set(who, phase.advance(event));
                proof {
                    lemma_step_keeps_sound(old(self)@, who as int, None);
                    lemma_outcome_matters_when_running(
                        old(self)@,
                        who as int,
                        None,
                        self@.cell.value,
                    );
                    assert(self@.phases =~= old(self)@.step(who as int, None).phases);
                }
            },
        }
    }

    /// Lets the callers step in the order that `schedule` lists them.
    pub fn run(&mut self, schedule: &Vec<usize>)
        requires
            old(self).wf(),
        ensures
            final(self).wf(),
            final(self)@ == old(self)@.run(schedule_of(schedule@), final(self)@.cell.value),
            final(self).pending() == old(self).pending() || final(self).pending() is None,
            old(self).pending() matches Some(f) ==> final(self).pending() is Some || {
                &&& final(self)@.cell.value matches Some(value)
                &&& f.ensures((), value)
            },
    {
        let ghost planned = schedule_of(schedule@);
        let mut i: usize = 0;
        while i < schedule.len()
            invariant
                i <= schedule.len(),
                planned == schedule_of(schedule@),
                self.wf(),
                forall|outcome: Option<T>|
                    (self@.cell.value is Some ==> outcome == self@.cell.value) ==> self@ == (
                    #[trigger] old(self)@.run(planned.take(i as int), outcome)),
                self.pending() == old(self).pending() || self.pending() is None,
                old(self).pending() matches Some(f) ==> self.pending() is Some || {
                    &&& self@.cell.value matches Some(value)
                    &&& f.ensures((), value)
                },
            decreases schedule.len() - i,
        {
            let ghost before = self@;
            let who = schedule[i];
            self.step(who);
            proof {
                lemma_step_keeps_sound(before, who as int, self@.cell.value);
                assert(planned.take(i + 1) =~= planned.take(i as int).push(who as int));
                assert forall|outcome: Option<T>|
                    (self@.cell.value is Some ==> outcome == self@.cell.value) implies self@ == (
                #[trigger] old(self)@.run(planned.take(i + 1), outcome)) by {
                    lemma_run_then_step(old(self)@, planned.take(i as int), who as int, outcome);
                    if before.has_caller(who as int) && before.phases[who as int]
                        == Phase::Running {
                        assert(before.phase_fits(before.phases[who as int]));
                    } else {
                        lemma_outcome_matters_when_running(
                            before,
                            who as int,
                            outcome,
                            self@.cell.value,
                        );
                    }
                }
            }
            i = i + 1;
        }
        proof {
            assert(planned.take(i as int) =~= planned);
        }
    }
}

/// A schedule given by the numbers of the callers, as the model reads it.
pub open spec fn schedule_of(schedule: Seq<usize>) -> Seq<int> {
    schedule.map_values(|who: usize| who as int)
}

} // verus!
