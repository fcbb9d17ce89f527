//! Deterministic shard selection.

use std::collections::HashSet;

use sharded_sink::{home_shard, next_round_robin, thread_seed, SeedSource, ThreadState};

#[test]
fn home_shard_is_stable_on_same_thread() {
    let mut seeds = SeedSource::new();
    let mut thread = ThreadState::new();
    let first = home_shard(&mut thread, &mut seeds, 8);
    for _ in 0..100 {
        assert_eq!(home_shard(&mut thread, &mut seeds, 8), first);
    }
    assert!(first < 8);
}

#[test]
fn round_robin_covers_all_shards_in_one_cycle() {
    let shards = 8;
    let mut thread = ThreadState::new();
    // From any starting cursor, `shards` consecutive selections cover all shards
    // exactly once.
    for _ in 0..3 {
        let _ = next_round_robin(&mut thread, shards);
        let seen: HashSet<usize> =
            (0..shards).map(|_| next_round_robin(&mut thread, shards)).collect();
        assert_eq!(seen.len(), shards);
    }
}

#[test]
fn round_robin_is_in_bounds() {
    let mut thread = ThreadState::new();
    for _ in 0..1000 {
        assert!(next_round_robin(&mut thread, 3) < 3);
    }
}

#[test]
fn each_thread_gets_its_own_seed() {
    let mut seeds = SeedSource::new();
    let mut threads = [ThreadState::new(), ThreadState::new(), ThreadState::new()];
    let drawn: Vec<usize> = threads.iter_mut().map(|t| thread_seed(t, &mut seeds)).collect();
    assert_eq!(drawn, vec![0, 1, 2]);
    let again: Vec<usize> = threads.iter_mut().map(|t| thread_seed(t, &mut seeds)).collect();
    assert_eq!(again, drawn);
    assert_eq!(seeds.draw(), 3);
    assert_eq!(home_shard(&mut threads[2], &mut seeds, 2), 0);
    assert_eq!(home_shard(&mut threads[2], &mut seeds, 3), 2);
}

#[test]
fn one_cursor_serves_sinks_of_different_widths() {
    let mut thread = ThreadState::new();
    assert_eq!(next_round_robin(&mut thread, 4), 0);
    assert_eq!(next_round_robin(&mut thread, 4), 1);
    assert_eq!(next_round_robin(&mut thread, 2), 0);
    assert_eq!(next_round_robin(&mut thread, 5), 3);
}

#[test]
fn a_seeded_thread_needs_no_source() {
    let mut seeds = SeedSource::new();
    let _ = seeds.draw();
    let mut thread = ThreadState::new();
    assert!(!thread.is_seeded());
    let _ = next_round_robin(&mut thread, 4);
    assert!(!thread.is_seeded());
    assert_eq!(thread_seed(&mut thread, &mut seeds), 1);
    assert!(thread.is_seeded());
    let mut other = SeedSource::new();
    assert_eq!(home_shard(&mut thread, &mut other, 4), 1);
    assert_eq!(other.draw(), 0);
}
