use rendezvous::actor::Chameneos;
use rendezvous::color::Color;
use rendezvous::coordinator::{RunError, Shared, State, Step, MAX_ACTORS};
use rendezvous::color::Color::{Blue, Red, Yellow};
use rendezvous::packed::{encode, BATCH, STOPPED};
use rendezvous::rng::Rng;

/// Runs one worker per actor, all on this thread: at each turn a
/// pseudo-random worker that has not stopped takes one step, so the
/// workers' transactions interleave in ever different ways.
fn run_with(limit: usize, colors: &[Color], skip: u32) -> Vec<(usize, usize)> {
    let shared = Shared::new(limit, colors).unwrap();
    if shared.can_meet() {
        let mut workers: Vec<State> =
            (0..colors.len()).map(|i| State::new(&shared, (i + 1) as u64)).collect();
        let mut stopped = vec![false; colors.len()];
        let mut pick = Rng::new().future(skip);
        let mut live = colors.len();
        while live > 0 {
            let i = pick.gen() as usize % colors.len();
            if !stopped[i] {
                let outcome = workers[i].step(&shared);
                assert_ne!(outcome, Step::Corrupt);
                assert_ne!(outcome, Step::Full);
                if outcome == Step::Stopped {
                    stopped[i] = true;
                    live -= 1;
                }
            }
        }
    }
    shared.report()
}

fn run(limit: usize, colors: &[Color]) -> Vec<(usize, usize)> {
    run_with(limit, colors, 0)
}

fn check_counts(counts: &[(usize, usize)], limit: usize) {
    let total: usize = counts.iter().map(|c| c.0).sum();
    assert_eq!(total, 2 * limit);
    for &(meet, same) in counts {
        assert!(same <= meet);
    }
}

#[test]
fn three_actors_one_meeting() {
    let counts = run(1, &[Color::Blue, Color::Red, Color::Yellow]);
    assert_eq!(counts.len(), 3);
    assert_eq!(counts.iter().filter(|c| c.0 == 1).count(), 2);
    assert_eq!(counts.iter().filter(|c| c.0 == 0).count(), 1);
    check_counts(&counts, 1);
}

#[test]
fn single_actor_never_meets() {
    for limit in [1, 10, 600] {
        let counts = run(limit, &[Color::Blue]);
        assert_eq!(counts, vec![(0, 0)]);
    }
}

#[test]
fn no_actor_run_is_empty() {
    assert_eq!(run(5, &[]), Vec::<(usize, usize)>::new());
}

#[test]
fn small_run_counts_every_meeting_twice() {
    let counts = run(600, &[Color::Blue, Color::Red, Color::Yellow]);
    check_counts(&counts, 600);
    assert!(counts.iter().all(|c| c.1 == 0));
}

#[test]
fn ten_actors_under_contention() {
    let colors = [Blue, Red, Yellow, Red, Yellow, Blue, Red, Yellow, Red, Blue];
    let counts = run(100000, &colors);
    assert_eq!(counts.len(), 10);
    check_counts(&counts, 100000);
}

#[test]
fn many_schedules_keep_the_count() {
    let colors = [Blue, Red, Yellow, Red, Yellow];
    for skip in 0..40 {
        let counts = run_with(97, &colors, skip * 1000);
        check_counts(&counts, 97);
    }
}

#[test]
fn three_actors_one_meeting_any_schedule() {
    for skip in 0..40 {
        let counts = run_with(1, &[Blue, Red, Yellow], skip * 7);
        assert_eq!(counts.iter().map(|c| c.0).sum::<usize>(), 2);
        assert_eq!(counts.iter().filter(|c| c.0 == 1).count(), 2);
    }
}

#[test]
fn budget_larger_than_one_counter_byte() {
    let counts = run(257, &[Color::Blue, Color::Red]);
    assert_eq!(counts, vec![(257, 0), (257, 0)]);
}

#[test]
fn too_many_actors_rejected() {
    let colors = vec![Color::Red; MAX_ACTORS + 1];
    assert!(matches!(Shared::new(10, &colors), Err(RunError::TooManyActors)));
    let ok = vec![Color::Red; MAX_ACTORS];
    assert!(Shared::new(10, &ok).is_ok());
}

#[test]
fn invalid_limits_rejected() {
    let colors = [Color::Red, Color::Blue];
    assert!(matches!(Shared::new(0, &colors), Err(RunError::InvalidLimit)));
}

#[test]
fn any_positive_budget_accepted() {
    let colors = [Color::Red, Color::Blue];
    assert!(Shared::new(BATCH as usize + 1, &colors).is_ok());
    assert!(Shared::new(usize::MAX, &colors).is_ok());
    assert_eq!(run(usize::MAX, &[Color::Blue]), vec![(0, 0)]);
}

#[test]
fn stopped_word_is_left_alone() {
    let shared = Shared::new(3, &[Color::Red, Color::Blue]).unwrap();
    let mut state = State {
        cache: STOPPED,
        task: Chameneos { idx: 1 },
        mall: Chameneos { idx: 2 },
        seen_batches: 0,
        resolving: false,
    };
    for _ in 0..3 {
        assert_eq!(state.step(&shared), Step::Stopped);
        assert_eq!(state.cache, STOPPED);
        assert_eq!(state.task, Chameneos { idx: 1 });
        assert_eq!(state.mall, Chameneos { idx: 2 });
        assert!(state.run().is_none());
    }
    assert_eq!(shared.report(), vec![(0, 0), (0, 0)]);
}

#[test]
fn single_worker_steps() {
    let shared = Shared::new(2, &[Color::Red, Color::Blue]).unwrap();
    let mut one = State::new(&shared, 1);
    let mut two = State::new(&shared, 2);
    // The first worker installs its actor as broker.
    assert_eq!(one.step(&shared), Step::Parked);
    assert_eq!(one.cache, encode(0, 1, 0));
    assert_eq!(one.task.idx, 0);
    // With nothing queued it is then idle.
    assert_eq!(one.step(&shared), Step::Idle);
    // The second worker's cache is stale: its commit fails.
    assert_eq!(two.step(&shared), Step::Retry);
    assert_eq!(two.cache, encode(0, 1, 0));
    // Now it meets the broker.
    assert_eq!(two.step(&shared), Step::Met);
    assert_eq!(two.cache, encode(1, 0, 0));
    assert_eq!((two.task.idx, two.mall.idx), (2, 1));
    assert_eq!(shared.report(), vec![(1, 0), (1, 0)]);
    // It puts both back, partner first, takes 1 from the front and
    // installs it as broker, and takes 2 as its actor.
    assert_eq!(two.step(&shared), Step::Parked);
    assert_eq!(two.cache, encode(1, 1, 0));
    assert_eq!((two.task.idx, two.mall.idx), (2, 0));
    // Actor 2 meets broker 1: that meeting exhausts the budget.
    assert_eq!(two.step(&shared), Step::Stopped);
    assert_eq!(two.cache, STOPPED);
    assert_eq!(shared.report(), vec![(2, 0), (2, 0)]);
    one.cancel(&shared);
    assert_eq!(one.step(&shared), Step::Stopped);
}

fn worker(cache: u64, task: u64, mall: u64, resolving: bool) -> State {
    State {
        cache,
        task: Chameneos { idx: task },
        mall: Chameneos { idx: mall },
        seen_batches: 0,
        resolving,
    }
}

#[test]
fn id_outside_the_run_is_corrupt() {
    let shared = Shared::new(10, &[Color::Red, Color::Blue]).unwrap();
    let mut state = worker(encode(0, 5, 0), 1, 0, false);
    assert_eq!(state.step(&shared), Step::Corrupt);
    assert_eq!(state.cache, encode(0, 5, 0));
    let mut state = worker(encode(0, 1, 0x103), 2, 0, false);
    assert_eq!(state.step(&shared), Step::Corrupt);
    assert_eq!(shared.report(), vec![(0, 0), (0, 0)]);
}

#[test]
fn word_without_room_is_full() {
    let shared = Shared::new(10, &[Color::Red, Color::Blue]).unwrap();
    let mut state = worker(encode(0, 2, 0x1_1111_1111), 1, 2, false);
    assert_eq!(state.step(&shared), Step::Full);
    assert_eq!((state.task.idx, state.mall.idx), (1, 2));
    assert_eq!(state.cache, encode(0, 0, 0));
}

#[test]
fn full_batch_makes_meetings_wait() {
    let shared = Shared::new(10, &[Color::Red, Color::Blue]).unwrap();
    let mut state = worker(encode(BATCH, 1, 0), 2, 0, false);
    assert_eq!(state.step(&shared), Step::Waiting);
    assert_eq!((state.task.idx, state.mall.idx), (2, 0));
    assert_eq!(state.cache, encode(0, 0, 0));
    assert_eq!(shared.report(), vec![(0, 0), (0, 0)]);
}

#[test]
fn full_batch_can_still_take_a_broker() {
    let shared = Shared::new(10, &[Color::Red, Color::Blue]).unwrap();
    let mut state = worker(encode(BATCH, 0, 0), 2, 0, false);
    // The cache is stale, so the commit fails, but the step is a park.
    assert_eq!(state.step(&shared), Step::Retry);
    assert_eq!(state.cache, encode(0, 0, 0));
}

#[test]
fn reset_of_a_batch() {
    let shared = Shared::new(10, &[Color::Red, Color::Blue]).unwrap();
    let mut state = worker(encode(BATCH, 1, 0x2), 1, 2, true);
    assert_eq!(state.step(&shared), Step::Retry);
    assert!(state.resolving);
    assert_eq!(state.cache, encode(0, 0, 0));
    // A worker owing a reset on a word whose batch is not full.
    assert_eq!(state.step(&shared), Step::Corrupt);
}

#[test]
fn idle_only_without_any_id() {
    let shared = Shared::new(10, &[Color::Red, Color::Blue]).unwrap();
    let mut empty = worker(encode(0, 1, 0), 0, 0, false);
    assert_eq!(empty.step(&shared), Step::Idle);
    let mut queued = worker(encode(0, 0, 0x2), 0, 0, false);
    assert_eq!(queued.step(&shared), Step::Retry);
}
