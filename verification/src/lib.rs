//! A small **fire-and-forget sink** for fan-in workloads.
//!
//! Many producers hand items to a bounded, sharded set of rings; one worker per
//! shard takes them out in batches, off the producers' path. When a ring is full the
//! sink **sheds** the item and counts it rather than applying backpressure.
//!
//! This is for telemetry, logging, counters, and other loss-tolerant streams. It is
//! not a durable queue: there is no order across shards and no dynamic resharding.
//!
//! # Behavioral contract
//!
//! 1. A push is one attempt on one ring; it waits for nothing.
//! 2. A successful push touches no counter.
//! 3. Every full-ring rejection increments exactly one shard's drop counter.
//! 4. Accepted items are given to the sink action exactly once.
//! 5. A shutdown with silent producers drains everything that is buffered.
//! 6. There is no closed state: a push that races with a shutdown, or comes after it,
//!    is accepted until its ring is full, and may sit there undrained.
//!
//! The first three stand in the contracts of `push`, the others in the module `flow`,
//! which speaks of every interleaving of producers and workers.
//!
//! # Layout
//!
//! - `config`, `span`: configuration, its validation and normalization.
//! - `ring`, `shard`: one ring with its drop counter.
//! - `selection`, `handle`, `sink`: who pushes where.
//! - `haul`, `worker`: how workers take batches out, from their own shard and others.
//! - `overload`, `monitor`: sampling the drop counters.
//! - `error`, `shutdown`: ending a sink once and for all.
//! - `stats`: observability snapshots.
//! - `series`: what becomes of a series of pushes by one thread.
//! - `flow`: what holds of a running sink as a whole.
//!
//! The library runs no task and reads no clock: whoever drives it calls
//! [`ShardedSink::poll_worker`] for each worker and performs the [`WorkerAction`] it gets,
//! calls [`OverloadMonitor::tick`] once per interval and performs the [`MonitorStep`] it
//! gets, and waits for its tasks as [`ShutdownState`] says.

pub mod config;
pub mod error;
pub mod flow;
pub mod handle;
pub mod haul;
pub mod monitor;
pub mod overload;
pub mod ring;
pub mod selection;
pub mod series;
pub mod shard;
pub mod shutdown;
pub mod sink;
pub mod span;
pub mod stats;
pub mod worker;

pub use config::{
    NormalizedConfig, NormalizedWorkStealing, ShardSelection, SinkConfig, SinkConfigError,
    WorkStealing,
};
pub use error::ShutdownError;
pub use handle::ShardHandle;
pub use monitor::{MonitorStep, OverloadMonitor};
pub use overload::{OverloadAction, Overloaded};
pub use ring::Ring;
pub use selection::{home_shard, next_round_robin, thread_seed, SeedSource, ThreadState};
pub use shard::Shard;
pub use shutdown::{ShutdownState, ShutdownStep};
pub use sink::{ShardedSink, Spawned};
pub use span::Span;
pub use stats::{ShardStats, SinkStats};
pub use worker::{
    drain_burst, maybe_steal, steal, DrainOutcome, Worker, WorkerAction, WorkerPhase,
};
