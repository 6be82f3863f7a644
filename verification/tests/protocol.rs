use lazy_static::protocol::{Event, MemoryOrder, Phase};
use lazy_static::state::State;

const PHASES: [Phase; 7] = [
    Phase::Start,
    Phase::Claiming,
    Phase::Running,
    Phase::Publishing,
    Phase::Waiting,
    Phase::Done,
    Phase::Abandoned,
];

const EVENTS: [Event; 8] = [
    Event::Observed(State::Uninitialized),
    Event::Observed(State::Initializing),
    Event::Observed(State::Initialized),
    Event::Claimed(true),
    Event::Claimed(false),
    Event::Produced,
    Event::Failed,
    Event::Published,
];

#[test]
fn fast_path_returns_at_once() {
    assert_eq!(Phase::Start.advance(Event::Observed(State::Initialized)), Phase::Done);
}

#[test]
fn unfinished_cell_is_claimed() {
    assert_eq!(Phase::Start.advance(Event::Observed(State::Uninitialized)), Phase::Claiming);
    assert_eq!(Phase::Start.advance(Event::Observed(State::Initializing)), Phase::Claiming);
}

#[test]
fn winner_runs_then_publishes_then_returns() {
    let mut phase = Phase::Claiming.advance(Event::Claimed(true));
    assert_eq!(phase, Phase::Running);
    phase = phase.advance(Event::Produced);
    assert_eq!(phase, Phase::Publishing);
    phase = phase.advance(Event::Published);
    assert_eq!(phase, Phase::Done);
}

#[test]
fn loser_waits_until_initialized() {
    let mut phase = Phase::Claiming.advance(Event::Claimed(false));
    assert_eq!(phase, Phase::Waiting);
    for _ in 0..1000 {
        phase = phase.advance(Event::Observed(State::Initializing));
        assert_eq!(phase, Phase::Waiting);
    }
    phase = phase.advance(Event::Observed(State::Initialized));
    assert_eq!(phase, Phase::Done);
}

#[test]
fn failed_initializer_abandons_the_claim() {
    let phase = Phase::Running.advance(Event::Failed);
    assert_eq!(phase, Phase::Abandoned);
    for event in EVENTS {
        assert_eq!(phase.advance(event), Phase::Abandoned);
    }
}

#[test]
fn done_is_final() {
    for event in EVENTS {
        assert_eq!(Phase::Done.advance(event), Phase::Done);
        assert!(!Phase::Done.accepts(event));
    }
}

#[test]
fn unexpected_events_change_nothing() {
    for phase in PHASES {
        for event in EVENTS {
            if !phase.accepts(event) {
                assert_eq!(phase.advance(event), phase);
            }
        }
    }
}

#[test]
fn accepted_events_per_phase() {
    let expected: [(Phase, [bool; 8]); 7] = [
        (Phase::Start, [true, true, true, false, false, false, false, false]),
        (Phase::Claiming, [false, false, false, true, true, false, false, false]),
        (Phase::Running, [false, false, false, false, false, true, true, false]),
        (Phase::Publishing, [false, false, false, false, false, false, false, true]),
        (Phase::Waiting, [true, true, true, false, false, false, false, false]),
        (Phase::Done, [false; 8]),
        (Phase::Abandoned, [false; 8]),
    ];
    for (phase, row) in expected {
        for (event, accepted) in EVENTS.iter().zip(row) {
            assert_eq!(phase.accepts(*event), accepted);
        }
    }
}

#[test]
fn only_done_is_done() {
    for phase in PHASES {
        assert_eq!(phase.is_done(), phase == Phase::Done);
    }
}

#[test]
fn reads_acquire_and_publication_releases() {
    assert_eq!(Phase::Start.memory_order(), Some(MemoryOrder::Acquire));
    assert_eq!(Phase::Waiting.memory_order(), Some(MemoryOrder::Acquire));
    assert_eq!(Phase::Claiming.memory_order(), Some(MemoryOrder::Acquire));
    assert_eq!(Phase::Publishing.memory_order(), Some(MemoryOrder::Release));
    assert_eq!(Phase::Running.memory_order(), None);
    assert_eq!(Phase::Done.memory_order(), None);
    assert_eq!(Phase::Abandoned.memory_order(), None);
}
