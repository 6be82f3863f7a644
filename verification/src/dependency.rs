//! Callers racing for two cells, one of which is derived from the other.
//!
//! The initializer of the derived cell reads the source cell through the
//! accessor of the source cell. A caller that wins the claim on the derived
//! cell therefore becomes, for a while, one more caller of the source cell,
//! racing there with everyone who accesses the source cell directly.
//!
//! Both initializers are taken to return here; what a failed initializer
//! leaves behind is the same for every cell and is treated with the race
//! for a single cell.

use crate::cell::LazyCell;
use crate::protocol::{Event, Phase};
use crate::race::{lemma_fresh_is_sound, lemma_step_keeps_sound, schedule_of, RaceView};
use crate::state::State;
use crate::storage::{Inline, Storage};
use vstd::prelude::*;

verus! {

/// Which of the two cells a caller asks for.
#[derive(Clone, Copy, Debug, PartialEq, Eq, Structural)]
pub enum Target {
    /// The cell that stands on its own.
    Source,
    /// The cell whose initializer reads the source cell.
    Derived,
}

/// The state of the two races. Every caller has a phase in each: a caller
/// that has nothing to do with a cell stays in `Start` there.
pub struct DependencyView<U, T> {
    pub source: RaceView<U>,
    pub derived: RaceView<T>,
    pub targets: Seq<Target>,
}

impl<U, T> DependencyView<U, T> {
    /// Two untouched cells, and one caller for each entry of `targets`.
    pub open spec fn fresh(targets: Seq<Target>) -> Self {
        DependencyView {
            source: RaceView::fresh(targets.len()),
            derived: RaceView::fresh(targets.len()),
            targets,
        }
    }

    /// `who` is one of the callers.
    pub open spec fn has_caller(self, who: int) -> bool {
        0 <= who < self.targets.len()
    }

    /// The next step of caller `who` is a step on the source cell: it asked
    /// for that cell, or it is running the initializer of the derived cell
    /// and has not yet got the source value.
    pub open spec fn steps_on_source(self, who: int) -> bool {
        self.targets[who] == Target::Source || (self.derived.phases[who] == Phase::Running
            && self.source.phases[who] != Phase::Done)
    }

    /// One step of caller `who`. `made` is what the initializer of the
    /// source cell produces, `derived` what the initializer of the derived
    /// cell makes of the source value.
    pub open spec fn step(self, who: int, made: U, derived: T) -> Self {
        if !self.has_caller(who) {
            self
        } else if self.steps_on_source(who) {
            DependencyView {
                source: self.source.step(who, Some(made)),
                derived: self.derived,
                targets: self.targets,
            }
        } else {
            DependencyView {
                source: self.source,
                derived: self.derived.step(who, Some(derived)),
                targets: self.targets,
            }
        }
    }

    /// The races after the callers have stepped in the order that
    /// `schedule` lists them.
    pub open spec fn run(self, schedule: Seq<int>, made: U, derived: T) -> Self
        decreases schedule.len(),
    {
        if schedule.len() == 0 {
            self
        } else {
            self.step(schedule[0], made, derived).run(schedule.skip(1), made, derived)
        }
    }

    /// `made` and `derived` are the values in storage, as far as the two
    /// cells hold any.
    pub open spec fn stores_only(self, made: U, derived: T) -> bool {
        &&& self.source.cell.value matches Some(u) ==> u == made
        &&& self.derived.cell.value matches Some(t) ==> t == derived
    }

    /// Caller `who` has the reference that it asked for.
    pub open spec fn is_done(self, who: int) -> bool {
        match self.targets[who] {
            Target::Source => self.source.phases[who] == Phase::Done,
            Target::Derived => self.derived.phases[who] == Phase::Done,
        }
    }

    /// Every caller has the reference that it asked for.
    pub open spec fn all_done(self) -> bool {
        forall|i: int| self.has_caller(i) ==> #[trigger] self.is_done(i)
    }

    /// How many more steps caller `who` takes at most on the two cells, not
    /// counting polls that find a cell unfinished.
    pub open spec fn steps_left(self, who: int) -> nat {
        self.source.phases[who].steps_left() + self.derived.phases[who].steps_left()
    }

    /// Where caller `who` stands in the two races fits together: it touches
    /// the source cell from inside the initializer of the derived cell only,
    /// unless it asked for the source cell itself, and it publishes the
    /// derived value only after it has got the source value.
    pub open spec fn coupled(self, who: int) -> bool {
        let on_source = self.source.phases[who];
        let on_derived = self.derived.phases[who];
        &&& on_source != Phase::Abandoned
        &&& on_derived != Phase::Abandoned
        &&& self.targets[who] == Target::Source ==> on_derived == Phase::Start
        &&& self.targets[who] == Target::Derived && on_derived != Phase::Running ==> on_source
            == Phase::Start || on_source == Phase::Done
        &&& on_derived == Phase::Publishing ==> on_source == Phase::Done
    }

    /// What holds of the two races under every schedule: each is sound in
    /// itself, the callers' phases fit together, and the derived value is
    /// never in storage before the source cell is finished.
    pub open spec fn sound(self) -> bool {
        &&& self.source.sound()
        &&& self.derived.sound()
        &&& self.source.phases.len() == self.targets.len()
        &&& self.derived.phases.len() == self.targets.len()
        &&& forall|i: int| self.has_caller(i) ==> #[trigger] self.coupled(i)
        &&& self.derived.cell.value is Some ==> self.source.cell.state == State::Initialized
    }
}

/// Two fresh races are sound.
pub proof fn lemma_fresh_dependency_is_sound<U, T>(targets: Seq<Target>)
    ensures
        DependencyView::<U, T>::fresh(targets).sound(),
{
    lemma_fresh_is_sound::<U>(targets.len());
    lemma_fresh_is_sound::<T>(targets.len());
}

/// A step keeps the two races sound; neither initializer is started a second
/// time, neither cell moves backwards, and a value in storage stays.
pub proof fn lemma_step_keeps_dependency_sound<U, T>(
    races: DependencyView<U, T>,
    who: int,
    made: U,
    derived: T,
)
    requires
        races.sound(),
    ensures
        races.step(who, made, derived).sound(),
        races.step(who, made, derived).targets == races.targets,
        races.source.runs <= races.step(who, made, derived).source.runs <= 1,
        races.derived.runs <= races.step(who, made, derived).derived.runs <= 1,
        races.source.cell.state.reaches(races.step(who, made, derived).source.cell.state),
        races.derived.cell.state.reaches(races.step(who, made, derived).derived.cell.state),
        races.source.cell.value is Some ==> races.step(who, made, derived).source.cell.value
            == races.source.cell.value,
        races.derived.cell.value is Some ==> races.step(who, made, derived).derived.cell.value
            == races.derived.cell.value,
        races.source.cell.value is None ==> races.step(who, made, derived).source.cell.value is None
            || races.step(who, made, derived).source.cell.value == Some(made),
        races.derived.cell.value is None ==> races.step(
            who,
            made,
            derived,
        ).derived.cell.value is None || races.step(who, made, derived).derived.cell.value == Some(
            derived,
        ),
{
    let next = races.step(who, made, derived);
    if races.has_caller(who) {
        assert(races.coupled(who));
        assert(races.source.phase_fits(races.source.phases[who]));
        assert(races.derived.phase_fits(races.derived.phases[who]));
        lemma_step_keeps_sound(races.source, who, Some(made));
        lemma_step_keeps_sound(races.derived, who, Some(derived));
        assert forall|i: int| next.has_caller(i) implies #[trigger] next.coupled(i) by {
            assert(races.coupled(i));
        }
    }
}

/// Running a schedule and then one more step is running the longer
/// schedule.
pub proof fn lemma_run_then_step_between_cells<U, T>(
    races: DependencyView<U, T>,
    schedule: Seq<int>,
    who: int,
    made: U,
    derived: T,
)
    ensures
        races.run(schedule.push(who), made, derived) == races.run(schedule, made, derived).step(
            who,
            made,
            derived,
        ),
    decreases schedule.len(),
{
    let longer = schedule.push(who);
    if schedule.len() == 0 {
        let next = races.step(who, made, derived);
        assert(longer.skip(1) =~= schedule);
        assert(next.run(longer.skip(1), made, derived) == next);
    } else {
        assert(longer.skip(1) =~= schedule.skip(1).push(who));
        lemma_run_then_step_between_cells(
            races.step(schedule[0], made, derived),
            schedule.skip(1),
            who,
            made,
            derived,
        );
    }
}

/// Whatever the schedule, the two races stay sound; neither initializer is
/// started a second time, and a value in storage stays.
pub proof fn lemma_run_keeps_dependency_sound<U, T>(
    races: DependencyView<U, T>,
    schedule: Seq<int>,
    made: U,
    derived: T,
)
    requires
        races.sound(),
    ensures
        races.run(schedule, made, derived).sound(),
        races.run(schedule, made, derived).targets == races.targets,
        races.source.runs <= races.run(schedule, made, derived).source.runs <= 1,
        races.derived.runs <= races.run(schedule, made, derived).derived.runs <= 1,
        races.source.cell.state.reaches(races.run(schedule, made, derived).source.cell.state),
        races.derived.cell.state.reaches(races.run(schedule, made, derived).derived.cell.state),
        races.source.cell.value is Some ==> races.run(schedule, made, derived).source.cell.value
            == races.source.cell.value,
        races.derived.cell.value is Some ==> races.run(schedule, made, derived).derived.cell.value
            == races.derived.cell.value,
        races.source.cell.value is None ==> races.run(
            schedule,
            made,
            derived,
        ).source.cell.value is None || races.run(schedule, made, derived).source.cell.value
            == Some(made),
        races.derived.cell.value is None ==> races.run(
            schedule,
            made,
            derived,
        ).derived.cell.value is None || races.run(schedule, made, derived).derived.cell.value
            == Some(derived),
    decreases schedule.len(),
{
    if schedule.len() > 0 {
        lemma_step_keeps_dependency_sound(races, schedule[0], made, derived);
        lemma_run_keeps_dependency_sound(
            races.step(schedule[0], made, derived),
            schedule.skip(1),
            made,
            derived,
        );
    }
}

/// In sound races a value in storage means that its initializer has run,
/// once.
pub proof fn lemma_stored_value_was_produced<U, T>(races: DependencyView<U, T>)
    requires
        races.sound(),
    ensures
        races.source.cell.value is Some <==> races.source.runs == 1,
        races.derived.cell.value is Some <==> races.derived.runs == 1,
{
    if races.source.cell.state == State::Initializing {
        let holder = choose|i: int|
            races.source.has_caller(i) && (#[trigger] races.source.phases[i]).holds_claim();
        assert(races.coupled(holder));
        assert(races.source.phase_fits(races.source.phases[holder]));
    }
    if races.derived.cell.state == State::Initializing {
        let holder = choose|i: int|
            races.derived.has_caller(i) && (#[trigger] races.derived.phases[i]).holds_claim();
        assert(races.coupled(holder));
        assert(races.derived.phase_fits(races.derived.phases[holder]));
    }
}

/// A cell that depends on another: however the callers of the two cells
/// interleave, each initializer runs at most once; the derived value is what
/// its initializer made of the source value, and it is in storage only when
/// the source cell is finished; and every caller is handed the one value of
/// the cell that it asked for.
pub proof fn lemma_derived_cell_sees_source_finished<U, T>(
    targets: Seq<Target>,
    schedule: Seq<int>,
    made: U,
    derived: T,
    who: int,
)
    ensures
        DependencyView::<U, T>::fresh(targets).run(schedule, made, derived).sound(),
        ({
            let end = DependencyView::<U, T>::fresh(targets).run(schedule, made, derived);
            &&& end.source.runs <= 1
            &&& end.derived.runs <= 1
            &&& end.derived.cell.value is Some ==> {
                &&& end.derived.cell.value == Some(derived)
                &&& end.derived.runs == 1
                &&& end.source.cell.state == State::Initialized
                &&& end.source.cell.value == Some(made)
                &&& end.source.runs == 1
            }
            &&& end.derived.returned(who) is Some ==> end.derived.returned(who) == Some(derived)
            &&& end.source.returned(who) is Some ==> end.source.returned(who) == Some(made)
                && end.source.runs == 1
        }),
{
    let start = DependencyView::<U, T>::fresh(targets);
    let end = start.run(schedule, made, derived);
    lemma_fresh_dependency_is_sound::<U, T>(targets);
    lemma_run_keeps_dependency_sound(start, schedule, made, derived);
    lemma_stored_value_was_produced(end);
    if end.derived.returned(who) is Some {
        assert(end.derived.phase_fits(end.derived.phases[who]));
    }
    if end.source.returned(who) is Some {
        assert(end.source.phase_fits(end.source.phases[who]));
    }
}

/// A caller whose next step is on the source cell can move, or else the
/// caller that holds the claim on the source cell can.
proof fn lemma_source_can_move<U, T>(
    races: DependencyView<U, T>,
    stuck: int,
    made: U,
    derived: T,
) -> (who: int)
    requires
        races.sound(),
        races.has_caller(stuck),
        races.steps_on_source(stuck),
        races.source.phases[stuck] != Phase::Done,
    ensures
        races.has_caller(who),
        races.step(who, made, derived).steps_left(who) < races.steps_left(who),
{
    assert(races.coupled(stuck));
    assert(races.source.phase_fits(races.source.phases[stuck]));
    if races.source.phases[stuck] == Phase::Waiting && races.source.cell.state
        == State::Initializing {
        let holder = choose|i: int|
            races.source.has_caller(i) && (#[trigger] races.source.phases[i]).holds_claim();
        assert(races.coupled(holder));
        assert(races.source.phase_fits(races.source.phases[holder]));
        holder
    } else {
        stuck
    }
}

/// No deadlock between the two cells: as long as some caller has not got
/// what it asked for, there is a caller whose next step brings it closer to
/// returning. The dependency runs one way only, so the wait for the derived
/// cell ends with its initializer, and the wait for the source cell inside
/// that initializer ends with the initializer of the source cell.
pub proof fn lemma_no_deadlock_between_cells<U, T>(
    races: DependencyView<U, T>,
    made: U,
    derived: T,
) -> (who: int)
    requires
        races.sound(),
        !races.all_done(),
    ensures
        races.has_caller(who),
        races.step(who, made, derived).steps_left(who) < races.steps_left(who),
{
    let busy = choose|i: int| races.has_caller(i) && !#[trigger] races.is_done(i);
    assert(races.coupled(busy));
    assert(races.source.phase_fits(races.source.phases[busy]));
    assert(races.derived.phase_fits(races.derived.phases[busy]));
    if races.steps_on_source(busy) {
        lemma_source_can_move(races, busy, made, derived)
    } else if races.derived.phases[busy] == Phase::Waiting && races.derived.cell.state
        == State::Initializing {
        let holder = choose|i: int|
            races.derived.has_caller(i) && (#[trigger] races.derived.phases[i]).holds_claim();
        assert(races.coupled(holder));
        assert(races.derived.phase_fits(races.derived.phases[holder]));
        if races.steps_on_source(holder) {
            lemma_source_can_move(races, holder, made, derived)
        } else {
            holder
        }
    } else {
        busy
    }
}

/// Two races that can be run: a source cell with its initializer, a derived
/// cell with the function that makes its value from the source value, and
/// callers, each asking for one of the two cells, that are stepped one at a
/// time in any order.
#[verifier::reject_recursive_types(U)]
#[verifier::reject_recursive_types(T)]
pub struct Dependency<
    U,
    T,
    FU: FnOnce() -> U,
    G: FnOnce(&U) -> T,
    SU: Storage<U> = Inline<U>,
    ST: Storage<T> = Inline<T>,
> {
    source: LazyCell<U, SU>,
    derived: LazyCell<T, ST>,
    make: Option<FU>,
    derive: Option<G>,
    targets: Vec<Target>,
    on_source: Vec<Phase>,
    on_derived: Vec<Phase>,
    source_runs: usize,
    derived_runs: usize,
}

impl<
    U,
    T,
    FU: FnOnce() -> U,
    G: FnOnce(&U) -> T,
    SU: Storage<U>,
    ST: Storage<T>,
> View for Dependency<U, T, FU, G, SU, ST> {
    type V = DependencyView<U, T>;

    closed spec fn view(&self) -> DependencyView<U, T> {
        DependencyView {
            source: RaceView {
                cell: self.source@,
                phases: self.on_source@,
                runs: self.source_runs as nat,
            },
            derived: RaceView {
                cell: self.derived@,
                phases: self.on_derived@,
                runs: self.derived_runs as nat,
            },
            targets: self.targets@,
        }
    }
}

impl<
    U,
    T,
    FU: FnOnce() -> U,
    G: FnOnce(&U) -> T,
    SU: Storage<U>,
    ST: Storage<T>,
> Dependency<U, T, FU, G, SU, ST> {
    /// The initializer of the source cell, as long as it has not been
    /// started.
    pub closed spec fn pending_make(&self) -> Option<FU> {
        self.make
    }

    /// The initializer of the derived cell, as long as it has not been
    /// started.
    pub closed spec fn pending_derive(&self) -> Option<G> {
        self.derive
    }

    /// The races are sound, and each initializer is on hand exactly as long
    /// as it has not been started, ready to be called: the first at once,
    /// the second on the source value.
    pub open spec fn wf(&self) -> bool {
        &&& self@.sound()
        &&& self.pending_make() is Some <==> self@.source.runs == 0
        &&& self.pending_derive() is Some <==> self@.derived.runs == 0
        &&& self.pending_make() matches Some(f) ==> f.requires(())
        &&& self.pending_derive() matches Some(g) ==> {
            &&& self@.source.cell.value matches Some(u) ==> g.requires((&u,))
            &&& self.pending_make() matches Some(f) ==> forall|u: U|
                f.ensures((), u) ==> g.requires((&u,))
        }
    }

    /// Two fresh cells, and one caller for each entry of `targets`. `make`
    /// initializes the source cell; `derive` initializes the derived cell
    /// from the source value.
    pub fn new(targets: Vec<Target>, make: FU, derive: G) -> (races: Self)
        requires
            make.requires(()),
            forall|u: U| make.ensures((), u) ==> derive.requires((&u,)),
        ensures
            races.wf(),
            races@ == DependencyView::<U, T>::fresh(targets@),
            races.pending_make() == Some(make),
            races.pending_derive() == Some(derive),
    {
        let mut on_source: Vec<Phase> = Vec::new();
        let mut on_derived: Vec<Phase> = Vec::new();
        let mut i: usize = 0;
        while i < targets.len()
            invariant
                i <= targets.len(),
                on_source@ =~= Seq::new(i as nat, |k: int| Phase::Start),
                on_derived@ =~= Seq::new(i as nat, |k: int| Phase::Start),
            decreases targets.len() - i,
        {
            on_source.push(Phase::Start);
            on_derived.push(Phase::Start);
            i = i + 1;
        }
        proof {
            lemma_fresh_dependency_is_sound::<U, T>(targets@);
        }
        Dependency {
            source: LazyCell::new(),
            derived: LazyCell::new(),
            make: Some(make),
            derive: Some(derive),
            targets,
            on_source,
            on_derived,
            source_runs: 0,
            derived_runs: 0,
        }
    }

    /// How many callers take part.
    pub fn callers(&self) -> (n: usize)
        ensures
            n == self@.targets.len(),
    {
        self.targets.len()
    }

    /// How often the initializer of the source cell has been started.
    pub fn source_runs(&self) -> (n: usize)
        ensures
            n == self@.source.runs,
    {
        self.source_runs
    }

    /// How often the initializer of the derived cell has been started.
    pub fn derived_runs(&self) -> (n: usize)
        ensures
            n == self@.derived.runs,
    {
        self.derived_runs
    }

    /// The state of the source cell.
    pub fn source_state(&self) -> (s: State)
        ensures
            s == self@.source.cell.state,
    {
        self.source.load()
    }

    /// The state of the derived cell.
    pub fn derived_state(&self) -> (s: State)
        ensures
            s == self@.derived.cell.state,
    {
        self.derived.load()
    }

    /// Whether caller `who` has the reference that it asked for.
    pub fn is_done(&self, who: usize) -> (b: bool)
        requires
            self.wf(),
        ensures
            b == (self@.has_caller(who as int) && self@.is_done(who as int)),
    {
        if who >= self.targets.len() {
            return false;
        }
        match self.targets[who] {
            Target::Source => self.on_source[who].is_done(),
            Target::Derived => self.on_derived[who].is_done(),
        }
    }

    /// What a caller that asked for the source cell has been handed.
    pub fn source_result(&self, who: usize) -> (r: Option<&U>)
        requires
            self.wf(),
        ensures
            r is Some <==> self@.source.returned(who as int) is Some,
            r matches Some(value) ==> self@.source.returned(who as int) == Some(*value),
    {
        if who < self.on_source.len() && self.on_source[who].is_done() {
            proof {
                assert(self@.source.phase_fits(self@.source.phases[who as int]));
            }
            self.source.get()
        } else {
            None
        }
    }

    /// What a caller that asked for the derived cell has been handed.
    pub fn derived_result(&self, who: usize) -> (r: Option<&T>)
        requires
            self.wf(),
        ensures
            r is Some <==> self@.derived.returned(who as int) is Some,
            r matches Some(value) ==> self@.derived.returned(who as int) == Some(*value),
    {
        if who < self.on_derived.len() && self.on_derived[who].is_done() {
            proof {
                assert(self@.derived.phase_fits(self@.derived.phases[who as int]));
            }
            self.derived.get()
        } else {
            None
        }
    }

    /// Lets caller `who` take its next step, on the cell that it asked for
    /// or, from inside the initializer of the derived cell, on the source
    /// cell. A caller that has returned, and a number that names no caller,
    /// change nothing.
    ///
    /// The result is the step of the model for every pair of values that
    /// agrees with what is in storage afterwards; an initializer that this
    /// step has used up has produced the value that its cell now holds.
    pub fn step(&mut self, who: usize)
        requires
            old(self).wf(),
        ensures
            final(self).wf(),
            forall|made: U, derived: T|
                final(self)@.stores_only(made, derived) ==> final(self)@
                    == #[trigger] old(self)@.step(who as int, made, derived),
            final(self).pending_make() == old(self).pending_make()
                || final(self).pending_make() is None,
            final(self).pending_derive() == old(self).pending_derive()
                || final(self).pending_derive() is None,
            old(self).pending_make() matches Some(f) ==> final(self).pending_make() is Some || {
                &&& final(self)@.source.cell.value matches Some(u)
                &&& f.ensures((), u)
            },
            old(self).pending_derive() matches Some(g) ==> final(self).pending_derive() is Some
                || {
                &&& final(self)@.source.cell.value matches Some(u)
                &&& final(self)@.derived.cell.value matches Some(t)
                &&& g.ensures((&u,), t)
            },
    {
        if who >= self.targets.len() {
            return ;
        }
        proof {
            assert(self@.coupled(who as int));
            assert(self@.source.phase_fits(self@.source.phases[who as int]));
            assert(self@.derived.phase_fits(self@.derived.phases[who as int]));
            lemma_stored_value_was_produced(self@);
        }
        let on_source = self.on_source[who];
        let on_derived = self.on_derived[who];
        let to_source = match self.targets[who] {
            Target::Source => true,
            Target::Derived => on_derived == Phase::Running && !on_source.is_done(),
        };
        if to_source {
            if on_source == Phase::Running {
                let make = self.make.take().unwrap();
                self.source_runs = self.source_runs + 1;
                let made = make();
                self.source.fill(made);
                self.on_source.set(who, on_source.advance(Event::Produced));
            } else {
                let event = self.source.perform(on_source);
                self.on_source.set(who, on_source.advance(event));
            }
        } else {
            if on_derived == Phase::Running {
                let derive = self.derive.take().unwrap();
                self.derived_runs = self.derived_runs + 1;
                let derived = derive(self.source.get().unwrap());
                self.derived.fill(derived);
                self.on_derived.set(who, on_derived.advance(Event::Produced));
            } else {
                let event = self.derived.perform(on_derived);
                self.on_derived.set(who, on_derived.advance(event));
            }
        }
        proof {
            assert forall|made: U, derived: T| self@.stores_only(made, derived) implies self@
                == #[trigger] old(self)@.step(who as int, made, derived) && self@.sound() by {
                let next = old(self)@.step(who as int, made, derived);
                lemma_step_keeps_dependency_sound(old(self)@, who as int, made, derived);
                assert(self@.source.phases =~= next.source.phases);
                assert(self@.derived.phases =~= next.derived.phases);
                assert(self@.source.cell == next.source.cell);
                assert(self@.derived.cell == next.derived.cell);
            }
            let made = match self@.source.cell.value {
                Some(u) => u,
                None => arbitrary(),
            };
            let derived = match self@.derived.cell.value {
                Some(t) => t,
                None => arbitrary(),
            };
            assert(self@ == old(self)@.step(who as int, made, derived));
        }
    }

    /// Lets the callers step in the order that `schedule` lists them. The
    /// result is the run of the model for every pair of values that agrees
    /// with what is in storage afterwards.
    pub fn run(&mut self, schedule: &Vec<usize>)
        requires
            old(self).wf(),
        ensures
            final(self).wf(),
            forall|made: U, derived: T|
                final(self)@.stores_only(made, derived) ==> final(self)@
                    == #[trigger] old(self)@.run(schedule_of(schedule@), made, derived),
            final(self).pending_make() == old(self).pending_make()
                || final(self).pending_make() is None,
            final(self).pending_derive() == old(self).pending_derive()
                || final(self).pending_derive() is None,
            old(self).pending_make() matches Some(f) ==> final(self).pending_make() is Some || {
                &&& final(self)@.source.cell.value matches Some(u)
                &&& f.ensures((), u)
            },
            old(self).pending_derive() matches Some(g) ==> final(self).pending_derive() is Some
                || {
                &&& final(self)@.source.cell.value matches Some(u)
                &&& final(self)@.derived.cell.value matches Some(t)
                &&& g.ensures((&u,), t)
            },
    {
        let ghost planned = schedule_of(schedule@);
        let mut i: usize = 0;
        while i < schedule.len()
            invariant
                i <= schedule.len(),
                planned == schedule_of(schedule@),
                self.wf(),
                forall|made: U, derived: T|
                    self@.stores_only(made, derived) ==> self@ == #[trigger] old(self)@.run(
                        planned.take(i as int),
                        made,
                        derived,
                    ),
                self.pending_make() == old(self).pending_make() || self.pending_make() is None,
                self.pending_derive() == old(self).pending_derive()
                    || self.pending_derive() is None,
                old(self).pending_make() matches Some(f) ==> self.pending_make() is Some || {
                    &&& self@.source.cell.value matches Some(u)
                    &&& f.ensures((), u)
                },
                old(self).pending_derive() matches Some(g) ==> self.pending_derive() is Some || {
                    &&& self@.source.cell.value matches Some(u)
                    &&& self@.derived.cell.value matches Some(t)
                    &&& g.ensures((&u,), t)
                },
            decreases schedule.len() - i,
        {
            let ghost before = self@;
            let who = schedule[i];
            self.step(who);
            proof {
                let stored_made = match self@.source.cell.value {
                    Some(u) => u,
                    None => arbitrary(),
                };
                let stored_derived = match self@.derived.cell.value {
                    Some(t) => t,
                    None => arbitrary(),
                };
                assert(self@ == before.step(who as int, stored_made, stored_derived));
                lemma_step_keeps_dependency_sound(before, who as int, stored_made, stored_derived);
                assert(planned.take(i + 1) =~= planned.take(i as int).push(who as int));
                assert forall|made: U, derived: T| self@.stores_only(made, derived) implies self@
                    == #[trigger] old(self)@.run(planned.take(i + 1), made, derived) by {
                    lemma_step_keeps_dependency_sound(before, who as int, made, derived);
                    lemma_run_then_step_between_cells(
                        old(self)@,
                        planned.take(i as int),
                        who as int,
                        made,
                        derived,
                    );
                }
            }
            i = i + 1;
        }
        proof {
            assert(planned.take(i as int) =~= planned);
        }
    }
}

} // verus!