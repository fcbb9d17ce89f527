//! The sink as its producers and workers see it.

use sharded_sink::{
    DrainOutcome, MonitorStep, OverloadAction, OverloadMonitor, Overloaded, Ring, SeedSource,
    ShardSelection, ShardStats, ShardedSink, SinkConfig, SinkConfigError, SinkStats, Span, Spawned,
    ThreadState, WorkStealing, Worker, WorkerAction,
};
use std::sync::Mutex;

#[derive(Debug, Clone, Copy, PartialEq, Eq)]
struct Ev {
    id: u64,
}

impl Ev {
    fn new(id: u64) -> Self {
        Self { id }
    }
}

fn cfg(shards: usize, ring_capacity: usize, drain_batch: usize) -> SinkConfig {
    SinkConfig {
        name: "test",
        shards,
        ring_capacity,
        drain_batch,
        overload_check_interval: Span::from_millis(50),
        shard_selection: ShardSelection::ThreadLocalRoundRobin,
        idle_sleep: Span::from_micros(50),
        work_stealing: WorkStealing::Off,
        shutdown_timeout: Some(Span::from_secs(5)),
    }
}

fn spawn(config: SinkConfig) -> Spawned<Ev> {
    assert!(Ring::<Ev>::fits(config.ring_capacity));
    ShardedSink::try_spawn(config).ok().expect("valid config")
}

/// Let one worker take one turn; what it drains goes to `seen`.
fn turn(
    sink: &mut ShardedSink<Ev>,
    worker: &mut Worker<Ev>,
    cancelled: bool,
    seen: &mut Vec<Ev>,
) -> WorkerAction {
    let action = sink.poll_worker(worker, cancelled);
    if action == WorkerAction::Drain {
        seen.extend(worker.batch_mut().iter().copied());
        assert!(!worker.finish_batch(DrainOutcome::Completed));
    }
    action
}

/// Stop all workers, in turns, and wait for them.
fn shut_down(sink: &mut ShardedSink<Ev>, workers: &mut Vec<Worker<Ev>>, seen: &mut Vec<Ev>) {
    let mut running = true;
    while running {
        running = false;
        for worker in workers.iter_mut() {
            if turn(sink, worker, true, seen) != WorkerAction::Exit {
                running = true;
            }
        }
    }
}

fn distinct(seen: &[Ev]) -> usize {
    let mut ids: Vec<u64> = seen.iter().map(|e| e.id).collect();
    ids.sort_unstable();
    ids.dedup();
    ids.len()
}

#[test]
fn push_returns_true_when_accepted() {
    let mut s = spawn(cfg(2, 64, 16));
    let handle = s.sink.issue();
    assert!(handle.push(&mut s.sink, Ev::new(1)));
    let mut seen = Vec::new();
    shut_down(&mut s.sink, &mut s.workers, &mut seen);
    assert_eq!(seen, vec![Ev::new(1)]);
}

#[test]
fn push_returns_false_and_counts_drop_when_ring_full() {
    // Single shard, capacity 4, batch 1. The worker takes one item and is then held
    // up in its drain, so that the ring fills.
    let mut s = spawn(cfg(1, 4, 1));
    let handle = s.sink.issue();
    assert!(handle.push(&mut s.sink, Ev::new(0)));
    assert_eq!(s.sink.poll_worker(&mut s.workers[0], false), WorkerAction::Drain);
    for _ in 0..4 {
        assert!(handle.push(&mut s.sink, Ev::new(1)));
    }
    let mut rejected = 0;
    for _ in 0..10 {
        if !handle.push(&mut s.sink, Ev::new(2)) {
            rejected += 1;
        }
    }
    assert_eq!(rejected, 10);
    assert_eq!(s.sink.dropped_total(), 10);
}

#[test]
fn push_after_shutdown_is_accepted_no_closed_state() {
    let mut s = spawn(cfg(1, 64, 16));
    let (mut thread, mut seeds) = (ThreadState::new(), SeedSource::new());
    let handle = s.sink.issue();
    assert!(handle.push(&mut s.sink, Ev::new(1)));
    let mut seen = Vec::new();
    shut_down(&mut s.sink, &mut s.workers, &mut seen);

    assert!(handle.push(&mut s.sink, Ev::new(2)));
    assert!(s.sink.push(&mut thread, &mut seeds, Ev::new(3)));
    assert_eq!(s.sink.dropped_total(), 0);
}

#[test]
fn stats_total_equals_sum_of_shards() {
    let mut s = spawn(cfg(1, 2, 1));
    let handle = s.sink.issue();
    assert!(handle.push(&mut s.sink, Ev::new(0)));
    assert_eq!(s.sink.poll_worker(&mut s.workers[0], false), WorkerAction::Drain);
    for _ in 0..2 {
        assert!(handle.push(&mut s.sink, Ev::new(1)));
    }
    for _ in 0..5 {
        let _ = handle.push(&mut s.sink, Ev::new(2));
    }
    let stats = s.sink.stats();
    let per_shard: u64 = s.sink.stats_per_shard().iter().map(|s| s.dropped).sum();
    assert_eq!(stats.dropped, per_shard);
    assert_eq!(stats.dropped, s.sink.dropped_total());
    assert_eq!(stats, SinkStats { shards: 1, dropped: 5 });
}

#[test]
fn drops_are_counted_on_the_shard_that_shed() {
    let mut s = spawn(cfg(3, 1, 1));
    let first = s.sink.issue();
    let second = s.sink.issue();
    for _ in 0..3 {
        let _ = first.push(&mut s.sink, Ev::new(0));
    }
    for _ in 0..2 {
        let _ = second.push(&mut s.sink, Ev::new(1));
    }
    assert_eq!(
        s.sink.stats_per_shard(),
        vec![
            ShardStats { shard: 0, dropped: 2 },
            ShardStats { shard: 1, dropped: 1 },
            ShardStats { shard: 2, dropped: 0 },
        ]
    );
    assert_eq!(s.sink.stats(), SinkStats { shards: 3, dropped: 3 });
    assert_eq!(s.sink.shards(), 3);
}

#[test]
fn handleless_round_robin_uses_all_shards() {
    // Capacity 1 per shard and no draining: `shards` consecutive pushes must hit each
    // shard once.
    let shards = 4;
    let mut s = spawn(cfg(shards, 1, 1));
    let (mut thread, mut seeds) = (ThreadState::new(), SeedSource::new());
    for _ in 0..shards {
        assert!(s.sink.push(&mut thread, &mut seeds, Ev::new(0)));
    }
    assert_eq!(s.sink.dropped_total(), 0);
}

#[test]
fn issue_round_robin_uses_all_shards() {
    let shards = 4;
    let mut s = spawn(cfg(shards, 1, 1));
    for _ in 0..shards {
        let h = s.sink.issue();
        assert!(h.push(&mut s.sink, Ev::new(0)));
    }
    assert_eq!(s.sink.dropped_total(), 0);
}

#[test]
fn thread_local_home_is_stable_on_same_thread() {
    // Two handles issued on the same thread target the same (home) shard. With
    // capacity 1 and no draining, the second push overflows.
    let mut config = cfg(4, 1, 1);
    config.shard_selection = ShardSelection::ThreadLocalHome;
    let mut s = spawn(config);
    let (mut thread, mut seeds) = (ThreadState::new(), SeedSource::new());
    let h1 = s.sink.issue_thread_local(&mut thread, &mut seeds);
    let h2 = s.sink.issue_thread_local(&mut thread, &mut seeds);
    assert!(h1.push(&mut s.sink, Ev::new(0)));
    assert!(!h2.push(&mut s.sink, Ev::new(1)));
    assert_eq!(s.sink.dropped_total(), 1);
    // A handle-less push goes there too; another thread has another home.
    assert!(!s.sink.push(&mut thread, &mut seeds, Ev::new(2)));
    let mut other = ThreadState::new();
    assert!(s.sink.push(&mut other, &mut seeds, Ev::new(3)));
}

#[test]
fn a_copied_handle_targets_the_same_shard() {
    let mut s = spawn(cfg(2, 1, 1));
    let handle = s.sink.issue();
    let copy = handle;
    assert!(handle.push(&mut s.sink, Ev::new(0)));
    assert!(!copy.push(&mut s.sink, Ev::new(1)));
}

#[test]
fn no_loss_under_non_overload_conditions() {
    let mut s = spawn(cfg(4, 4096, 128));
    let (mut thread, mut seeds) = (ThreadState::new(), SeedSource::new());
    let mut seen = Vec::new();
    let n = 5_000_u64;
    let mut accepted = 0_u64;
    for i in 0..n {
        if s.sink.push(&mut thread, &mut seeds, Ev::new(i)) {
            accepted += 1;
        }
        if i % 256 == 0 {
            for worker in s.workers.iter_mut() {
                let _ = turn(&mut s.sink, worker, false, &mut seen);
            }
        }
    }
    assert_eq!(accepted, n);
    assert_eq!(s.sink.dropped_total(), 0);
    shut_down(&mut s.sink, &mut s.workers, &mut seen);
    assert_eq!(seen.len() as u64, accepted);
}

#[test]
fn producer_quiesced_shutdown_drains_all_buffered_items() {
    let mut s = spawn(cfg(4, 8192, 64));
    let (mut thread, mut seeds) = (ThreadState::new(), SeedSource::new());
    let n = 2_000_u64;
    let mut accepted = 0_u64;
    for i in 0..n {
        if s.sink.push(&mut thread, &mut seeds, Ev::new(i)) {
            accepted += 1;
        }
    }
    let mut seen = Vec::new();
    shut_down(&mut s.sink, &mut s.workers, &mut seen);
    assert_eq!(seen.len() as u64, accepted);
    assert_eq!(distinct(&seen) as u64, accepted);
}

#[test]
fn work_stealing_drains_skewed_load_without_loss() {
    let mut config = cfg(4, 4096, 128);
    config.work_stealing =
        WorkStealing::Opportunistic { max_victims_per_idle_tick: 3, max_items_per_victim: 32 };
    config.shard_selection = ShardSelection::ThreadLocalHome;
    let mut s = spawn(config);
    let (mut thread, mut seeds) = (ThreadState::new(), SeedSource::new());
    let handle = s.sink.issue_thread_local(&mut thread, &mut seeds);
    let mut seen = Vec::new();
    let n = 10_000_u64;
    let mut accepted = 0_u64;
    for i in 0..n {
        if handle.push(&mut s.sink, Ev::new(i)) {
            accepted += 1;
        }
        if i % 128 == 0 {
            for worker in s.workers.iter_mut() {
                let _ = turn(&mut s.sink, worker, false, &mut seen);
            }
        }
    }
    shut_down(&mut s.sink, &mut s.workers, &mut seen);
    assert_eq!(seen.len() as u64, accepted);
    assert_eq!(distinct(&seen) as u64, accepted);
}

#[test]
fn try_spawn_rejects_invalid_config() {
    let bad = SinkConfig { shards: 0, ..cfg(1, 16, 4) };
    let result = ShardedSink::<Ev>::try_spawn(bad);
    assert_eq!(result.err(), Some(SinkConfigError::ZeroShards));
}

#[test]
fn spawn_builds_one_worker_per_shard() {
    let mut s: Spawned<Ev> = ShardedSink::spawn(cfg(3, 4, 2));
    assert_eq!(s.workers.len(), 3);
    assert_eq!(s.sink.shards(), 3);
    assert_eq!(s.sink.dropped_total(), 0);
    for _ in 0..3 {
        let handle = s.sink.issue();
        assert!(handle.push(&mut s.sink, Ev::new(7)));
    }
    for worker in s.workers.iter_mut() {
        assert_eq!(s.sink.poll_worker(worker, false), WorkerAction::Drain);
        assert_eq!(worker.batch_mut().len(), 1);
    }
}

#[test]
fn one_shard_keeps_global_order() {
    let mut s = spawn(cfg(1, 8, 3));
    let (mut thread, mut seeds) = (ThreadState::new(), SeedSource::new());
    let mut seen = Vec::new();
    let mut accepted = Vec::new();
    for i in 0..40_u64 {
        if s.sink.push(&mut thread, &mut seeds, Ev::new(i)) {
            accepted.push(Ev::new(i));
        }
        if i % 5 == 0 {
            let _ = turn(&mut s.sink, &mut s.workers[0], false, &mut seen);
        }
    }
    assert!(s.sink.dropped_total() > 0);
    shut_down(&mut s.sink, &mut s.workers, &mut seen);
    assert_eq!(seen, accepted);
}

#[test]
fn without_stealing_each_shard_keeps_its_order() {
    let mut s = spawn(cfg(3, 8, 3));
    let handles = [s.sink.issue(), s.sink.issue(), s.sink.issue()];
    let mut accepted = vec![Vec::new(); 3];
    let mut seen = vec![Vec::new(); 3];
    for i in 0..120_u64 {
        let shard = (i * i % 3) as usize;
        if handles[shard].push(&mut s.sink, Ev::new(i)) {
            accepted[shard].push(Ev::new(i));
        }
        let turning = (i % 4) as usize;
        if turning < 3 {
            let _ = turn(&mut s.sink, &mut s.workers[turning], false, &mut seen[turning]);
        }
    }
    for shard in 0..3 {
        while turn(&mut s.sink, &mut s.workers[shard], true, &mut seen[shard]) != WorkerAction::Exit
        {}
    }
    assert!(accepted[1].len() > 8);
    assert_eq!(seen, accepted);
}

#[test]
fn a_shed_item_is_handed_back() {
    let mut s = spawn(cfg(1, 1, 1));
    let (mut thread, mut seeds) = (ThreadState::new(), SeedSource::new());
    let handle = s.sink.issue();
    assert_eq!(handle.offer(&mut s.sink, Ev::new(1)), Ok(()));
    assert_eq!(handle.offer(&mut s.sink, Ev::new(2)), Err(Ev::new(2)));
    assert_eq!(s.sink.offer(&mut thread, &mut seeds, Ev::new(3)), Err(Ev::new(3)));
    assert_eq!(s.sink.dropped_total(), 2);
}

#[test]
fn accounting_identity_holds_across_shapes() {
    for &shards in &[1_usize, 2, 4, 8] {
        for &capacity in &[1_usize, 16, 100] {
            let mut s = spawn(cfg(shards, capacity, 1));
            let (mut thread, mut seeds) = (ThreadState::new(), SeedSource::new());
            let attempted = (shards * capacity * 4 + 7) as u64;
            let mut accepted = 0_u64;
            let mut rejected = 0_u64;
            for i in 0..attempted {
                if s.sink.push(&mut thread, &mut seeds, Ev::new(i)) {
                    accepted += 1;
                } else {
                    rejected += 1;
                }
            }
            assert_eq!(accepted + rejected, attempted, "shards={shards} cap={capacity}");
            assert_eq!(accepted, (shards * capacity) as u64);
            assert_eq!(
                s.sink.dropped_total(),
                rejected,
                "every rejection is a drop (shards={shards} cap={capacity})"
            );
        }
    }
}

#[test]
fn accepted_items_are_observed_exactly_once() {
    for &shards in &[1_usize, 2, 4, 8] {
        let mut s = spawn(cfg(shards, 8192, 128));
        let (mut thread, mut seeds) = (ThreadState::new(), SeedSource::new());
        let mut seen = Vec::new();
        let n = 20_000_u64;
        let mut accepted = 0_u64;
        for i in 0..n {
            if s.sink.push(&mut thread, &mut seeds, Ev::new(i)) {
                accepted += 1;
            }
            if i % 200 == 0 {
                for worker in s.workers.iter_mut() {
                    let _ = turn(&mut s.sink, worker, false, &mut seen);
                }
            }
        }
        shut_down(&mut s.sink, &mut s.workers, &mut seen);
        assert_eq!(
            seen.len() as u64,
            accepted,
            "every accepted item observed once (shards={shards})"
        );
        assert_eq!(distinct(&seen) as u64, accepted, "no duplicates (shards={shards})");
    }
}

#[derive(Default)]
struct Recording {
    events: Mutex<Vec<(u64, u64)>>,
}

impl OverloadAction for Recording {
    fn on_overload(&self, ev: Overloaded<'_>) {
        assert_eq!(ev.sink, "test");
        assert_eq!(ev.interval, Span::from_millis(100));
        self.events.lock().expect("events").push((ev.delta_full, ev.total_full));
    }
}

/// Wake the monitor up and do what its step asks for; `false` once it leaves.
fn wake(monitor: &mut OverloadMonitor, cancelled: bool, total: u64, action: &Recording) -> bool {
    match monitor.tick(cancelled, total) {
        MonitorStep::Exit => return false,
        MonitorStep::Wait => {}
        MonitorStep::Tell(event) => action.on_overload(event),
    }
    true
}

#[test]
fn drops_trigger_overload_once_per_positive_delta_tick() {
    let overload = Recording::default();
    let mut config = cfg(1, 4, 1);
    config.overload_check_interval = Span::from_millis(100);
    let mut s = spawn(config);
    assert!(wake(&mut s.monitor, false, s.sink.dropped_total(), &overload));
    assert!(overload.events.lock().expect("events").is_empty());
    let handle = s.sink.issue();
    assert!(handle.push(&mut s.sink, Ev::new(0)));
    assert_eq!(s.sink.poll_worker(&mut s.workers[0], false), WorkerAction::Drain);
    for _ in 0..4 {
        assert!(handle.push(&mut s.sink, Ev::new(1)));
    }
    for _ in 0..6 {
        let _ = handle.push(&mut s.sink, Ev::new(2));
    }
    assert_eq!(s.sink.dropped_total(), 6);

    assert!(wake(&mut s.monitor, false, s.sink.dropped_total(), &overload));
    assert_eq!(*overload.events.lock().expect("events"), vec![(6, 6)]);
    assert!(wake(&mut s.monitor, false, s.sink.dropped_total(), &overload));
    assert!(!wake(&mut s.monitor, true, s.sink.dropped_total(), &overload));
    assert_eq!(*overload.events.lock().expect("events"), vec![(6, 6)]);
}

#[test]
fn a_cancelled_monitor_leaves_without_a_word() {
    let overload = Recording::default();
    let mut monitor = OverloadMonitor::new("test", Span::from_millis(100));
    assert!(!wake(&mut monitor, true, 5, &overload));
    assert!(overload.events.lock().expect("events").is_empty());
    // The sample that was not taken is not lost.
    assert!(wake(&mut monitor, false, 7, &overload));
    assert!(wake(&mut monitor, false, 9, &overload));
    assert_eq!(*overload.events.lock().expect("events"), vec![(7, 7), (2, 9)]);
}

#[test]
fn a_series_of_pushes_fills_the_rings_it_reaches() {
    for (selection, room) in
        [(ShardSelection::ThreadLocalRoundRobin, 15), (ShardSelection::ThreadLocalHome, 5)]
    {
        let mut config = cfg(3, 5, 1);
        config.shard_selection = selection;
        let mut s = spawn(config);
        let (mut thread, mut seeds) = (ThreadState::new(), SeedSource::new());
        for k in 0..22_u64 {
            let accepted = s.sink.push(&mut thread, &mut seeds, Ev::new(k));
            assert_eq!(accepted, k < room, "{selection:?} push {k}");
        }
        assert_eq!(s.sink.dropped_total(), 22 - room);
    }
}

#[test]
fn overload_deltas_add_up() {
    let mut monitor = OverloadMonitor::new("m", Span::from_secs(1));
    let mut reported = 0;
    for total in [0, 3, 3, 10, 11, 11] {
        if let Some(event) = monitor.sample(total) {
            assert_eq!(event.total_full, total);
            reported += event.delta_full;
        }
    }
    assert_eq!(reported, 11);
    // A total that falls is no overload.
    assert!(monitor.sample(4).is_none());
    assert_eq!(monitor.sample(6).expect("event").delta_full, 2);
}
