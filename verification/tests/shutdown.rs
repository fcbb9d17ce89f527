//! Shutdown results and their caching.

use sharded_sink::{ShutdownError, ShutdownState, ShutdownStep};

/// Begin a call of shutdown that is not over yet.
fn begin(state: &ShutdownState<u32>) {
    assert!(matches!(state.begin(), ShutdownStep::Join));
}

/// Wait for all tasks that are left, and list them; those in `panicking` panic.
fn join(state: &mut ShutdownState<u32>, panicking: &[u32]) -> Vec<u32> {
    let mut joined = Vec::new();
    while state.is_waiting() {
        let task = *state.next_mut();
        joined.push(task);
        state.ended(panicking.contains(&task));
    }
    joined
}

#[test]
fn shutdown_is_idempotent() {
    let mut state = ShutdownState::new(vec![1, 2, 3]);
    begin(&state);
    assert_eq!(join(&mut state, &[]), vec![1, 2, 3]);
    let first = state.finish(false);
    assert!(first.is_ok());
    for _ in 0..2 {
        match state.begin() {
            ShutdownStep::Cached(second) => assert_eq!(first, second),
            ShutdownStep::Join => panic!("not over"),
        }
    }
}

#[test]
fn a_failed_shutdown_stays_failed() {
    let mut state = ShutdownState::new(vec![1]);
    begin(&state);
    let first = state.finish(true);
    assert_eq!(first, Err(ShutdownError::TimedOut));
    assert!(matches!(state.begin(), ShutdownStep::Cached(Err(ShutdownError::TimedOut))));
    assert!(matches!(state.begin(), ShutdownStep::Cached(Err(ShutdownError::TimedOut))));
}

#[test]
fn an_abandoned_shutdown_leaves_the_tasks_to_the_next() {
    let mut state = ShutdownState::new(vec![1, 2, 3]);
    begin(&state);
    assert_eq!(*state.next_mut(), 1);
    // Abandoned while it waited for the first task: the next call gets all of them.
    begin(&state);
    assert_eq!(*state.next_mut(), 1);
    state.ended(true);
    assert_eq!(*state.next_mut(), 2);
    // Abandoned after the first task: the next call gets the others.
    begin(&state);
    assert!(state.is_waiting());
    assert_eq!(join(&mut state, &[]), vec![2, 3]);
    assert_eq!(state.finish(false), Err(ShutdownError::WorkerPanicked));
}

#[test]
fn a_task_can_be_changed_while_it_is_waited_for() {
    let mut state = ShutdownState::new(vec![1, 2]);
    *state.next_mut() = 7;
    assert_eq!(join(&mut state, &[]), vec![7, 2]);
}

#[test]
fn any_panicked_task_fails_the_shutdown() {
    for (tasks, panicking, result) in [
        (vec![], vec![], Ok(())),
        (vec![1, 2], vec![], Ok(())),
        (vec![1], vec![1], Err(ShutdownError::WorkerPanicked)),
        (vec![1, 2], vec![1], Err(ShutdownError::WorkerPanicked)),
        (vec![1, 2, 3], vec![2], Err(ShutdownError::WorkerPanicked)),
    ] {
        let mut state = ShutdownState::new(tasks.clone());
        assert_eq!(join(&mut state, &panicking), tasks);
        assert_eq!(state.finish(false), result);
    }
}

#[test]
fn a_result_that_stands_is_kept() {
    let mut state = ShutdownState::new(vec![1]);
    assert_eq!(state.finish(true), Err(ShutdownError::TimedOut));
    assert_eq!(join(&mut state, &[1]), vec![1]);
    assert_eq!(state.finish(false), Err(ShutdownError::TimedOut));
    assert!(matches!(state.begin(), ShutdownStep::Cached(Err(ShutdownError::TimedOut))));
}

#[test]
fn running_out_of_time_goes_before_a_panic() {
    let mut state = ShutdownState::new(vec![1, 2]);
    state.ended(true);
    assert_eq!(state.finish(true), Err(ShutdownError::TimedOut));
}

#[test]
fn shutdown_errors_in_words() {
    assert_eq!(
        ShutdownError::TimedOut.message(),
        "sink shutdown timed out before all workers finished"
    );
    assert_eq!(ShutdownError::WorkerPanicked.message(), "a sink worker panicked during shutdown");
}
