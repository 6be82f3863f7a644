use lazy_static::state::{Claim, State};

#[test]
fn codes_are_zero_one_two() {
    assert_eq!(State::Uninitialized.code(), 0);
    assert_eq!(State::Initializing.code(), 1);
    assert_eq!(State::Initialized.code(), 2);
}

#[test]
fn codes_read_back() {
    assert_eq!(State::from_code(0), Some(State::Uninitialized));
    assert_eq!(State::from_code(1), Some(State::Initializing));
    assert_eq!(State::from_code(2), Some(State::Initialized));
    assert_eq!(State::from_code(3), None);
    assert_eq!(State::from_code(usize::MAX), None);
    for state in [State::Uninitialized, State::Initializing, State::Initialized] {
        assert_eq!(State::from_code(state.code()), Some(state));
    }
}

#[test]
fn only_initialized_is_initialized() {
    assert!(!State::Uninitialized.is_initialized());
    assert!(!State::Initializing.is_initialized());
    assert!(State::Initialized.is_initialized());
}

#[test]
fn claim_wins_on_untouched_state_only() {
    assert_eq!(
        State::Uninitialized.claim(),
        Claim { after: State::Initializing, won: true }
    );
    assert_eq!(
        State::Initializing.claim(),
        Claim { after: State::Initializing, won: false }
    );
    assert_eq!(
        State::Initialized.claim(),
        Claim { after: State::Initialized, won: false }
    );
}

#[test]
fn second_claim_never_wins() {
    let first = State::Uninitialized.claim();
    assert!(first.won);
    let second = first.after.claim();
    assert!(!second.won);
    assert_eq!(second.after, first.after);
}

#[test]
fn publish_finishes_the_cell() {
    assert_eq!(State::Initializing.publish(), State::Initialized);
}
