use lazy_static::cell::LazyCell;
use lazy_static::dependency::{Dependency, Target};
use lazy_static::state::State;
use lazy_static::storage::{Boxed, Storage};
use std::cell::Cell;
use std::collections::HashMap;

fn next_random(seed: &mut u64) -> usize {
    *seed = seed.wrapping_mul(6364136223846793005).wrapping_add(1442695040888963407);
    (*seed >> 33) as usize
}

fn build_map(runs: &Cell<u32>) -> HashMap<u32, &'static str> {
    runs.set(runs.get() + 1);
    let mut m = HashMap::new();
    m.insert(0, "foo");
    m.insert(1, "bar");
    m.insert(2, "baz");
    m
}

/// Each of `threads` threads asks for both cells: thread `k` is caller `2k`,
/// which takes its first cell, and caller `2k + 1`, which takes the other
/// and only starts once the first has returned.
fn targets_for(threads: usize, derived_first: bool) -> Vec<Target> {
    let mut targets = Vec::new();
    for _ in 0..threads {
        if derived_first {
            targets.push(Target::Derived);
            targets.push(Target::Source);
        } else {
            targets.push(Target::Source);
            targets.push(Target::Derived);
        }
    }
    targets
}

fn run_threads<U, T, FU, G, SU, ST>(races: &mut Dependency<U, T, FU, G, SU, ST>, mut seed: u64)
where
    FU: FnOnce() -> U,
    G: FnOnce(&U) -> T,
    SU: Storage<U>,
    ST: Storage<T>,
{
    let threads = races.callers() / 2;
    let mut steps = 0;
    loop {
        let mut finished = true;
        for who in 0..races.callers() {
            finished = finished && races.is_done(who);
        }
        if finished {
            break;
        }
        let thread = next_random(&mut seed) % threads;
        let who = if races.is_done(2 * thread) { 2 * thread + 1 } else { 2 * thread };
        races.step(who);
        steps += 1;
        assert!(steps < 1_000_000);
    }
}

#[test]
fn eight_threads_on_map_and_count() {
    for seed in 0..100u64 {
        let map_runs = Cell::new(0u32);
        let count_runs = Cell::new(0u32);
        let mut races: Dependency<HashMap<u32, &'static str>, usize, _, _> = Dependency::new(
            targets_for(8, seed % 2 == 0),
            || build_map(&map_runs),
            |map: &HashMap<u32, &'static str>| {
                count_runs.set(count_runs.get() + 1);
                map.len()
            },
        );
        run_threads(&mut races, seed);
        assert_eq!(map_runs.get(), 1);
        assert_eq!(count_runs.get(), 1);
        assert_eq!(races.source_runs(), 1);
        assert_eq!(races.derived_runs(), 1);
        assert_eq!(races.source_state(), State::Initialized);
        assert_eq!(races.derived_state(), State::Initialized);
        for thread in 0..8 {
            let (on_map, on_count) = if seed % 2 == 0 {
                (2 * thread + 1, 2 * thread)
            } else {
                (2 * thread, 2 * thread + 1)
            };
            assert_eq!(races.derived_result(on_count), Some(&3));
            let map = races.source_result(on_map).unwrap();
            assert_eq!(map.len(), 3);
            assert_eq!(map.get(&0), Some(&"foo"));
            assert_eq!(map.get(&1), Some(&"bar"));
            assert_eq!(map.get(&2), Some(&"baz"));
            assert_eq!(map.get(&3), None);
        }
    }
}

#[test]
fn derived_cell_initializes_its_source() {
    let map_runs = Cell::new(0u32);
    let mut races: Dependency<HashMap<u32, &'static str>, usize, _, _, Boxed<_>, Boxed<_>> =
        Dependency::new(
            vec![Target::Derived],
            || build_map(&map_runs),
            |map: &HashMap<u32, &'static str>| map.len(),
        );
    // Start, claim: the derived cell is claimed and its initializer begins.
    races.step(0);
    races.step(0);
    assert_eq!(races.derived_state(), State::Initializing);
    assert_eq!(races.source_state(), State::Uninitialized);
    // Inside the initializer: the accessor of the source cell, four steps.
    races.step(0);
    races.step(0);
    assert_eq!(races.source_state(), State::Initializing);
    assert_eq!(map_runs.get(), 0);
    races.step(0);
    assert_eq!(map_runs.get(), 1);
    assert_eq!(races.source_state(), State::Initializing);
    races.step(0);
    assert_eq!(races.source_state(), State::Initialized);
    assert_eq!(races.derived_runs(), 0);
    // The derived value is made from the finished source, then published.
    races.step(0);
    assert_eq!(races.derived_runs(), 1);
    assert_eq!(races.derived_state(), State::Initializing);
    assert!(!races.is_done(0));
    races.step(0);
    assert_eq!(races.derived_state(), State::Initialized);
    assert!(races.is_done(0));
    assert_eq!(races.derived_result(0), Some(&3));
}

#[test]
fn source_caller_and_derived_winner_race_for_the_source() {
    let map_runs = Cell::new(0u32);
    let mut races: Dependency<HashMap<u32, &'static str>, usize, _, _> = Dependency::new(
        vec![Target::Derived, Target::Source, Target::Derived],
        || build_map(&map_runs),
        |map: &HashMap<u32, &'static str>| map.len(),
    );
    // Caller 0 wins the derived cell and reaches the claim on the source.
    races.step(0);
    races.step(0);
    races.step(0);
    // Caller 1 claims the source before caller 0 does.
    races.step(1);
    races.step(1);
    assert_eq!(races.source_state(), State::Initializing);
    // Caller 0 loses that claim and waits; caller 2 waits for the derived cell.
    races.step(0);
    races.step(2);
    races.step(2);
    for _ in 0..5 {
        races.step(0);
        races.step(2);
    }
    assert!(!races.is_done(0));
    assert!(!races.is_done(2));
    assert_eq!(races.derived_runs(), 0);
    // Caller 1 finishes the source cell.
    races.step(1);
    races.step(1);
    assert!(races.is_done(1));
    assert_eq!(map_runs.get(), 1);
    // Now caller 0 gets the source value, derives, publishes.
    races.step(0);
    races.step(0);
    races.step(0);
    assert!(races.is_done(0));
    races.step(2);
    assert!(races.is_done(2));
    assert_eq!(races.derived_result(0), Some(&3));
    assert_eq!(races.derived_result(2), Some(&3));
    assert_eq!(races.source_result(1).map(|map| map.len()), Some(3));
    assert_eq!(races.source_result(0).map(|map| map.len()), Some(3));
    assert_eq!(races.source_result(2).map(|map| map.len()), None);
    assert_eq!(races.source_runs(), 1);
    assert_eq!(races.derived_runs(), 1);
    assert_eq!(map_runs.get(), 1);
}

#[test]
fn dependent_access_on_plain_cells() {
    let map_runs = Cell::new(0u32);
    let count_runs = Cell::new(0u32);
    let mut map_cell: LazyCell<HashMap<u32, &'static str>> = LazyCell::new();
    let mut count_cell: LazyCell<usize> = LazyCell::new();
    for _ in 0..8 {
        let count = *count_cell.get_or_init_from(
            &mut map_cell,
            || build_map(&map_runs),
            |map: &HashMap<u32, &'static str>| {
                count_runs.set(count_runs.get() + 1);
                map.len()
            },
        );
        assert_eq!(count, 3);
        let map = map_cell.get_or_init(|| build_map(&map_runs));
        assert_eq!(map.get(&0), Some(&"foo"));
        assert_eq!(map.get(&1), Some(&"bar"));
        assert_eq!(map.get(&2), Some(&"baz"));
        assert_eq!(map.len(), 3);
    }
    assert_eq!(map_runs.get(), 1);
    assert_eq!(count_runs.get(), 1);
}

#[test]
fn finished_derived_cell_leaves_its_source_alone() {
    let mut source: LazyCell<u32> = LazyCell::new();
    let mut derived: LazyCell<u32> = LazyCell::new();
    derived.initialize(|| 5);
    let value = *derived.get_or_init_from(&mut source, || 1, |n: &u32| *n + 1);
    assert_eq!(value, 5);
    assert_eq!(source.load(), State::Uninitialized);
    assert_eq!(source.get(), None);
}

#[test]
fn derived_cell_reads_a_finished_source() {
    let runs = Cell::new(0u32);
    let mut source: LazyCell<u32> = LazyCell::new();
    let mut derived: LazyCell<u32> = LazyCell::new();
    source.initialize(|| 20);
    let value = *derived.get_or_init_from(
        &mut source,
        || {
            runs.set(runs.get() + 1);
            1
        },
        |n: &u32| *n + 1,
    );
    assert_eq!(value, 21);
    assert_eq!(runs.get(), 0);
    assert_eq!(source.get(), Some(&20));
}

#[test]
fn run_follows_the_schedule_on_both_cells() {
    let map_runs = Cell::new(0u32);
    let mut races: Dependency<HashMap<u32, &'static str>, usize, _, _> = Dependency::new(
        vec![Target::Source, Target::Derived],
        || build_map(&map_runs),
        |map: &HashMap<u32, &'static str>| map.len(),
    );
    assert_eq!(races.callers(), 2);
    // The derived cell is claimed, then its initializer loses the source
    // cell to caller 0 and has to wait until caller 0 has published.
    races.run(&vec![1, 1, 0, 0, 1, 1, 1, 1]);
    assert_eq!(races.derived_state(), State::Initializing);
    assert_eq!(races.source_state(), State::Initializing);
    assert_eq!(races.source_runs(), 0);
    races.run(&vec![0, 1, 1]);
    assert_eq!(races.source_runs(), 1);
    assert_eq!(races.derived_runs(), 0);
    assert!(!races.is_done(0));
    races.run(&vec![0, 5, 1, 1, 1]);
    assert!(races.is_done(0));
    assert!(races.is_done(1));
    assert!(!races.is_done(2));
    assert_eq!(races.derived_result(1), Some(&3));
    assert_eq!(races.derived_result(0), None);
    assert_eq!(races.source_result(0).map(|map| map.len()), Some(3));
    assert_eq!(races.source_runs(), 1);
    assert_eq!(races.derived_runs(), 1);
    assert_eq!(map_runs.get(), 1);
}
