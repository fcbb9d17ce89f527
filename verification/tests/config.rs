//! Validation, normalization, and the recommended configuration.

use sharded_sink::{
    NormalizedWorkStealing, ShardSelection, SinkConfig, SinkConfigError, Span, WorkStealing,
};

fn base() -> SinkConfig {
    SinkConfig {
        name: "t",
        shards: 4,
        ring_capacity: 100,
        drain_batch: 32,
        overload_check_interval: Span::from_secs(1),
        shard_selection: ShardSelection::ThreadLocalRoundRobin,
        idle_sleep: Span::from_micros(100),
        work_stealing: WorkStealing::Off,
        shutdown_timeout: None,
    }
}

#[test]
fn rejects_zero_idle_sleep() {
    assert_eq!(
        SinkConfig { idle_sleep: Span::from_micros(0), ..base() }
            .normalize()
            .expect_err("should be invalid"),
        SinkConfigError::ZeroIdleSleep
    );
}

#[test]
fn rejects_invalid_fields() {
    assert_eq!(
        SinkConfig { name: "", ..base() }.normalize().expect_err("should be invalid"),
        SinkConfigError::EmptyName
    );
    assert_eq!(
        SinkConfig { shards: 0, ..base() }.normalize().expect_err("should be invalid"),
        SinkConfigError::ZeroShards
    );
    assert_eq!(
        SinkConfig { ring_capacity: 0, ..base() }.normalize().expect_err("should be invalid"),
        SinkConfigError::ZeroRingCapacity
    );
    assert_eq!(
        SinkConfig { drain_batch: 0, ..base() }.normalize().expect_err("should be invalid"),
        SinkConfigError::ZeroDrainBatch
    );
    assert_eq!(
        SinkConfig { overload_check_interval: Span::from_secs(0), ..base() }
            .normalize()
            .expect_err("should be invalid"),
        SinkConfigError::ZeroOverloadInterval
    );
    assert_eq!(
        SinkConfig {
            work_stealing: WorkStealing::Opportunistic {
                max_victims_per_idle_tick: 0,
                max_items_per_victim: 4,
            },
            ..base()
        }
        .normalize()
        .expect_err("should be invalid"),
        SinkConfigError::InvalidWorkStealing
    );
}

#[test]
fn clamps_drain_batch_to_ring_capacity() {
    let cfg =
        SinkConfig { ring_capacity: 8, drain_batch: 256, ..base() }.normalize().expect("valid");
    assert_eq!(cfg.drain_batch, 8);
}

#[test]
fn clamps_steal_budgets() {
    let cfg = SinkConfig {
        shards: 3,
        ring_capacity: 100,
        drain_batch: 10,
        work_stealing: WorkStealing::Opportunistic {
            max_victims_per_idle_tick: 100,
            max_items_per_victim: 100,
        },
        ..base()
    }
    .normalize()
    .expect("valid");
    // Victims are clamped to the other shards (2), items to the batch (10).
    assert_eq!(
        cfg.work_stealing,
        NormalizedWorkStealing::Opportunistic {
            max_victims_per_idle_tick: 2,
            max_items_per_victim: 10,
        }
    );
}

#[test]
fn single_shard_disables_stealing() {
    let cfg = SinkConfig {
        shards: 1,
        work_stealing: WorkStealing::Opportunistic {
            max_victims_per_idle_tick: 2,
            max_items_per_victim: 4,
        },
        ..base()
    }
    .normalize()
    .expect("valid");
    assert_eq!(cfg.work_stealing, NormalizedWorkStealing::Off);
}

#[test]
fn faults_are_reported_in_field_order() {
    let worst = SinkConfig {
        name: "",
        shards: 0,
        ring_capacity: 0,
        drain_batch: 0,
        overload_check_interval: Span::from_secs(0),
        shard_selection: ShardSelection::ThreadLocalHome,
        idle_sleep: Span::from_secs(0),
        work_stealing: WorkStealing::Opportunistic {
            max_victims_per_idle_tick: 1,
            max_items_per_victim: 0,
        },
        shutdown_timeout: None,
    };
    let named = worst.clone().with_name("named");
    let sharded = SinkConfig { shards: 1, ..named.clone() };
    let roomy = SinkConfig { ring_capacity: 1, ..sharded.clone() };
    let batched = SinkConfig { drain_batch: 1, ..roomy.clone() };
    let watched = SinkConfig { overload_check_interval: Span::from_millis(1), ..batched.clone() };
    let rested = SinkConfig { idle_sleep: Span::from_micros(1), ..watched.clone() };
    let faults: Vec<SinkConfigError> = [worst, named, sharded, roomy, batched, watched, rested]
        .iter()
        .map(|c| c.normalize().expect_err("should be invalid"))
        .collect();
    assert_eq!(
        faults,
        vec![
            SinkConfigError::EmptyName,
            SinkConfigError::ZeroShards,
            SinkConfigError::ZeroRingCapacity,
            SinkConfigError::ZeroDrainBatch,
            SinkConfigError::ZeroOverloadInterval,
            SinkConfigError::ZeroIdleSleep,
            SinkConfigError::InvalidWorkStealing,
        ]
    );
}

#[test]
fn normalized_fields_are_passed_through() {
    let cfg = SinkConfig { shutdown_timeout: Some(Span::from_millis(7)), ..base() }
        .normalize()
        .expect("valid");
    assert_eq!(cfg.name, "t");
    assert_eq!(cfg.shards, 4);
    assert_eq!(cfg.ring_capacity, 100);
    assert_eq!(cfg.drain_batch, 32);
    assert_eq!(cfg.overload_check_interval, Span { nanos: 1_000_000_000 });
    assert_eq!(cfg.shard_selection, ShardSelection::ThreadLocalRoundRobin);
    assert_eq!(cfg.idle_sleep, Span { nanos: 100_000 });
    assert_eq!(cfg.work_stealing, NormalizedWorkStealing::Off);
    assert_eq!(cfg.shutdown_timeout, Some(Span { nanos: 7_000_000 }));
}

#[test]
fn normalizing_twice_changes_nothing() {
    let once = SinkConfig {
        shards: 3,
        ring_capacity: 6,
        drain_batch: 50,
        work_stealing: WorkStealing::Opportunistic {
            max_victims_per_idle_tick: 9,
            max_items_per_victim: 9,
        },
        ..base()
    }
    .normalize()
    .expect("valid");
    assert_eq!(once.drain_batch, 6);
    let twice = SinkConfig {
        shards: 3,
        ring_capacity: 6,
        drain_batch: once.drain_batch,
        work_stealing: WorkStealing::Opportunistic {
            max_victims_per_idle_tick: 2,
            max_items_per_victim: 6,
        },
        ..base()
    }
    .normalize()
    .expect("valid");
    assert_eq!(once.work_stealing, twice.work_stealing);
    assert_eq!(once.drain_batch, twice.drain_batch);
}

#[test]
fn recommended_values() {
    let unknown = SinkConfig::recommended(None);
    assert_eq!(unknown.name, "sink");
    assert_eq!(unknown.shards, 4);
    assert_eq!(unknown.ring_capacity, 8192);
    assert_eq!(unknown.drain_batch, 256);
    assert_eq!(unknown.overload_check_interval, Span::from_secs(5));
    assert_eq!(unknown.shard_selection, ShardSelection::ThreadLocalRoundRobin);
    assert_eq!(unknown.idle_sleep, Span::from_micros(100));
    assert_eq!(
        unknown.work_stealing,
        WorkStealing::Opportunistic { max_victims_per_idle_tick: 2, max_items_per_victim: 64 }
    );
    assert_eq!(unknown.shutdown_timeout, Some(Span::from_secs(5)));
    for (threads, shards) in [(0, 1), (1, 1), (6, 6), (8, 8), (9, 8), (128, 8)] {
        assert_eq!(SinkConfig::recommended(Some(threads)).shards, shards);
    }
    assert!(unknown.normalize().is_ok());
}

#[test]
fn with_name_replaces_the_name_only() {
    let named = base().with_name("events");
    assert_eq!(named.name, "events");
    assert_eq!(named.shards, 4);
    assert_eq!(named.ring_capacity, 100);
}

#[test]
fn config_errors_in_words() {
    let texts = [
        (SinkConfigError::EmptyName, "sink name must not be empty"),
        (SinkConfigError::ZeroShards, "shards must be greater than zero"),
        (SinkConfigError::ZeroRingCapacity, "ring_capacity must be greater than zero"),
        (SinkConfigError::ZeroDrainBatch, "drain_batch must be greater than zero"),
        (
            SinkConfigError::ZeroOverloadInterval,
            "overload_check_interval must be greater than zero",
        ),
        (SinkConfigError::InvalidWorkStealing, "work-stealing budgets must be greater than zero"),
        (SinkConfigError::ZeroIdleSleep, "DrainMode::Poll idle_sleep must be greater than zero"),
    ];
    for (error, text) in texts {
        assert_eq!(error.message(), text);
    }
}

#[test]
fn spans_count_nanoseconds() {
    assert_eq!(Span::from_secs(2).nanos, 2_000_000_000);
    assert_eq!(Span::from_millis(3).nanos, 3_000_000);
    assert_eq!(Span::from_micros(4).nanos, 4_000);
    assert_eq!(Span::from_secs(u64::MAX).nanos, u64::MAX as u128 * 1_000_000_000);
    assert!(Span::from_millis(0).is_zero());
    assert!(!Span::from_micros(1).is_zero());
}
