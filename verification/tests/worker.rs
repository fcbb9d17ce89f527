//! Draining, stealing, and the life of a worker.

use sharded_sink::{
    drain_burst, maybe_steal, steal, DrainOutcome, NormalizedWorkStealing, Ring, Shard, Worker,
    WorkerAction,
};

/// Build `shards` shards, each pre-filled with `fill` items.
fn filled(shards: usize, capacity: usize, fill: usize) -> Vec<Shard<u64>> {
    assert!(Ring::<u64>::fits(capacity));
    (0..shards)
        .map(|s| {
            let mut shard = Shard::new(capacity);
            for i in 0..fill {
                assert!(shard.push((s * 1000 + i) as u64), "capacity");
            }
            shard
        })
        .collect()
}

/// Empty a shard and list what it held.
fn contents(shard: &mut Shard<u64>) -> Vec<u64> {
    let mut items = Vec::new();
    while let Some(item) = shard.pop() {
        items.push(item);
    }
    items
}

#[test]
fn drain_burst_stops_at_batch() {
    let mut qs = filled(1, 100, 50);
    let mut buf = Vec::new();
    drain_burst(&mut qs[0], &mut buf, 10);
    assert_eq!(buf.len(), 10);
}

#[test]
fn drain_burst_stops_when_empty() {
    let mut qs = filled(1, 100, 5);
    let mut buf = Vec::new();
    drain_burst(&mut qs[0], &mut buf, 100);
    assert_eq!(buf.len(), 5);
}

#[test]
fn drain_burst_takes_the_oldest_first() {
    let mut qs = filled(1, 100, 6);
    let mut buf = vec![77];
    drain_burst(&mut qs[0], &mut buf, 5);
    assert_eq!(buf, vec![77, 0, 1, 2, 3]);
    drain_burst(&mut qs[0], &mut buf, 5);
    assert_eq!(buf.len(), 5);
    assert_eq!(contents(&mut qs[0]), vec![4, 5]);
}

#[test]
fn steal_respects_victim_and_item_budgets() {
    let mut qs = filled(4, 100, 100);
    let mut buf = Vec::new();
    let _cursor = steal(&mut qs, 0, 1, &mut buf, 1000, 2, 3);
    assert!(buf.len() <= 2 * 3);
    assert_eq!(buf.len(), 6);
}

#[test]
fn steal_skips_home_shard() {
    let mut qs = filled(1, 100, 100); // shard 0, full
    for _ in 0..3 {
        qs.push(Shard::new(100));
    }
    let mut buf = Vec::new();
    steal(&mut qs, 0, 1, &mut buf, 1000, 3, 10);
    assert_eq!(buf.len(), 0);
}

#[test]
fn steal_is_bounded_when_batch_nearly_full() {
    let mut qs = filled(4, 100, 100);
    let mut buf = Vec::new();
    steal(&mut qs, 0, 1, &mut buf, 2, 4, 100);
    assert_eq!(buf.len(), 2);
}

#[test]
fn steal_visits_victims_in_turn_and_returns_the_cursor() {
    let mut qs = filled(4, 10, 2);
    let mut buf = Vec::new();
    let cursor = steal(&mut qs, 0, 3, &mut buf, 1000, 2, 1);
    // Shard 3 gives one item, shard 0 is home and passed over, shard 1 gives one.
    assert_eq!(buf, vec![3000, 1000]);
    assert_eq!(cursor, 6);
    assert_eq!(contents(&mut qs[0]), vec![0, 1]);
    assert_eq!(contents(&mut qs[1]), vec![1001]);
    assert_eq!(contents(&mut qs[2]), vec![2000, 2001]);
    assert_eq!(contents(&mut qs[3]), vec![3001]);
}

#[test]
fn an_empty_victim_counts_as_visited() {
    let mut qs = filled(1, 10, 3);
    qs.push(Shard::new(10));
    qs.extend(filled(1, 10, 2));
    let mut buf = Vec::new();
    assert_eq!(steal(&mut qs, 0, 1, &mut buf, 1000, 1, 5), 2);
    assert_eq!(buf.len(), 0);
    assert_eq!(steal(&mut qs, 0, 2, &mut buf, 1000, 1, 5), 3);
    assert_eq!(buf, vec![0, 1]);
}

#[test]
fn steal_without_shards_or_budget_does_nothing() {
    let mut none: Vec<Shard<u64>> = Vec::new();
    let mut buf = Vec::new();
    assert_eq!(steal(&mut none, 0, 7, &mut buf, 10, 3, 3), 7);
    let mut qs = filled(2, 10, 2);
    assert_eq!(steal(&mut qs, 0, 1, &mut buf, 10, 0, 3), 1);
    assert_eq!(steal(&mut qs, 0, 1, &mut buf, 10, 3, 0), 3);
    assert!(buf.is_empty());
}

#[test]
fn the_cursor_wraps_around() {
    let mut qs = filled(3, 10, 4);
    let mut buf = Vec::new();
    // The largest cursor and zero both fall on shard 0.
    let cursor = steal(&mut qs, 2, usize::MAX, &mut buf, 100, 3, 2);
    assert_eq!(buf, vec![0, 1, 2, 3, 1000, 1001]);
    assert_eq!(cursor, 2);
}

#[test]
fn maybe_steal_keeps_out_when_off_or_full() {
    let mut qs = filled(2, 10, 2);
    let mut buf = vec![9];
    let policy = NormalizedWorkStealing::Opportunistic {
        max_victims_per_idle_tick: 1,
        max_items_per_victim: 1,
    };
    assert_eq!(maybe_steal(&mut qs, 0, 1, &mut buf, 5, NormalizedWorkStealing::Off), 1);
    assert_eq!(maybe_steal(&mut qs, 0, 1, &mut buf, 1, policy), 1);
    assert_eq!(buf, vec![9]);
    assert_eq!(maybe_steal(&mut qs, 0, 1, &mut buf, 5, policy), 2);
    assert_eq!(buf, vec![9, 1000]);
}

#[test]
fn a_worker_drains_sleeps_and_exits() {
    let mut qs = filled(1, 10, 5);
    let mut worker = Worker::new(0, 3, NormalizedWorkStealing::Off);
    assert_eq!(worker.poll(&mut qs, false), WorkerAction::Drain);
    assert_eq!(worker.batch_mut(), &vec![0, 1, 2]);
    assert!(!worker.finish_batch(DrainOutcome::Completed));
    assert_eq!(worker.poll(&mut qs, false), WorkerAction::Drain);
    assert_eq!(worker.batch_mut(), &vec![3, 4]);
    assert!(!worker.finish_batch(DrainOutcome::Completed));
    assert_eq!(worker.poll(&mut qs, false), WorkerAction::Sleep);
    assert!(qs[0].push(8));
    assert_eq!(worker.poll(&mut qs, true), WorkerAction::Drain);
    assert_eq!(worker.batch_mut(), &vec![8]);
    assert!(!worker.finish_batch(DrainOutcome::Completed));
    assert_eq!(worker.poll(&mut qs, true), WorkerAction::Exit);
    assert!(qs[0].push(9));
    assert_eq!(worker.poll(&mut qs, true), WorkerAction::Exit);
    assert_eq!(contents(&mut qs[0]), vec![9]);
}

#[test]
fn a_panicking_drain_loses_its_batch_and_nothing_else() {
    let mut qs = filled(1, 10, 4);
    let mut worker = Worker::new(0, 2, NormalizedWorkStealing::Off);
    assert_eq!(worker.poll(&mut qs, false), WorkerAction::Drain);
    assert!(worker.finish_batch(DrainOutcome::Panicked));
    assert_eq!(worker.poll(&mut qs, false), WorkerAction::Drain);
    assert_eq!(worker.batch_mut(), &vec![2, 3]);
}

#[test]
fn a_finishing_worker_does_not_steal() {
    let mut qs = filled(2, 10, 3);
    let policy = NormalizedWorkStealing::Opportunistic {
        max_victims_per_idle_tick: 1,
        max_items_per_victim: 8,
    };
    let mut worker = Worker::new(1, 8, policy);
    assert_eq!(worker.poll(&mut qs, true), WorkerAction::Drain);
    assert_eq!(worker.batch_mut(), &vec![1000, 1001, 1002]);
    assert!(!worker.finish_batch(DrainOutcome::Completed));
    // Once finishing, a worker stays so.
    assert_eq!(worker.poll(&mut qs, false), WorkerAction::Exit);
    assert_eq!(contents(&mut qs[0]), vec![0, 1, 2]);
}

#[test]
fn a_polling_worker_tops_its_batch_up() {
    let mut qs = filled(3, 10, 3);
    let policy = NormalizedWorkStealing::Opportunistic {
        max_victims_per_idle_tick: 2,
        max_items_per_victim: 2,
    };
    let mut worker = Worker::new(2, 6, policy);
    assert_eq!(worker.poll(&mut qs, false), WorkerAction::Drain);
    // Its own shard first, then the ones that follow it.
    assert_eq!(worker.batch_mut(), &vec![2000, 2001, 2002, 0, 1, 1000]);
}

#[test]
fn a_poll_takes_what_single_pops_take() {
    let policy = NormalizedWorkStealing::Opportunistic {
        max_victims_per_idle_tick: 2,
        max_items_per_victim: 2,
    };
    let mut polled = filled(3, 10, 3);
    let mut worker = Worker::new(0, 6, policy);
    assert_eq!(worker.poll(&mut polled, false), WorkerAction::Drain);

    let mut popped = filled(3, 10, 3);
    let mut batch = Vec::new();
    for shard in [0, 0, 0, 1, 1, 2] {
        batch.extend(popped[shard].pop());
    }

    assert_eq!(worker.batch_mut(), &batch);
    assert_eq!(batch.len(), 6);
    for shard in 0..3 {
        assert_eq!(contents(&mut polled[shard]), contents(&mut popped[shard]));
    }
}

#[test]
fn each_turn_takes_the_oldest_items_of_the_home_shard() {
    for cancelled in [false, true] {
        let mut qs = filled(1, 10, 7);
        let mut worker = Worker::new(0, 3, NormalizedWorkStealing::Off);
        for batch in [vec![0, 1, 2], vec![3, 4, 5], vec![6]] {
            assert_eq!(worker.poll(&mut qs, cancelled), WorkerAction::Drain);
            assert_eq!(worker.batch_mut(), &batch);
            assert!(!worker.finish_batch(DrainOutcome::Completed));
        }
        let end = if cancelled { WorkerAction::Exit } else { WorkerAction::Sleep };
        assert_eq!(worker.poll(&mut qs, cancelled), end);
    }
}

#[test]
fn a_shard_accepts_until_full_and_counts_the_rest() {
    let mut shard = Shard::new(2);
    assert!(shard.push('a'));
    assert!(shard.push('b'));
    assert!(!shard.push('c'));
    assert!(!shard.push('d'));
    assert_eq!(shard.dropped(), 2);
    assert_eq!(shard.pop(), Some('a'));
    assert!(shard.push('e'));
    assert_eq!(shard.pop(), Some('b'));
    assert_eq!(shard.pop(), Some('e'));
    assert_eq!(shard.pop(), None);
    assert_eq!(shard.dropped(), 2);
}

#[test]
fn only_rings_that_can_be_allocated_fit() {
    assert!(Ring::<u64>::fits(8192));
    assert!(Ring::<()>::fits(1));
    assert!(!Ring::<u64>::fits(usize::MAX));
    assert!(!Ring::<u64>::fits(usize::MAX / 16));
}
