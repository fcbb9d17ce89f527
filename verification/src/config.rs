//! Configuration, validation, and normalization.

use vstd::prelude::*;

use crate::span::Span;

verus! {

/// How a handle-less push selects a shard.
///
/// There is no random shard issuance. Selection is driven by deterministic
/// per-thread state.
#[derive(Debug, Clone, Copy, PartialEq, Eq, Structural)]
pub enum ShardSelection {
    /// Stable home shard per thread.
    ///
    /// Best locality when traffic is naturally spread across threads.
    ThreadLocalHome,
    /// Per-thread deterministic round-robin.
    ///
    /// Better when one thread may produce a lot of traffic.
    ThreadLocalRoundRobin,
}

/// Drain-side work-stealing policy.
///
/// Work stealing never changes what a producer does.
#[derive(Debug, Clone, Copy, PartialEq, Eq, Structural)]
pub enum WorkStealing {
    /// No work stealing. Each shard is drained only by its home worker.
    Off,
    /// Opportunistic stealing.
    ///
    /// After draining its own shard without filling the batch, a worker checks
    /// at most `max_victims_per_idle_tick` other shards and drains at most
    /// `max_items_per_victim` items from each before going back to its own.
    Opportunistic {
        /// Maximum number of victim shards inspected per top-up attempt.
        max_victims_per_idle_tick: usize,
        /// Maximum number of items pulled from each victim shard.
        max_items_per_victim: usize,
    },
}

/// What is wrong with a [`SinkConfig`].
#[derive(Debug, Clone, Copy, PartialEq, Eq, Structural)]
pub enum SinkConfigError {
    /// `name` was empty.
    EmptyName,
    /// `shards` was zero.
    ZeroShards,
    /// `ring_capacity` was zero.
    ZeroRingCapacity,
    /// `drain_batch` was zero.
    ZeroDrainBatch,
    /// `overload_check_interval` was zero.
    ZeroOverloadInterval,
    /// A [`WorkStealing::Opportunistic`] budget was zero.
    InvalidWorkStealing,
    /// `idle_sleep` was zero.
    ZeroIdleSleep,
}

impl SinkConfigError {
    /// The error in words.
    pub fn message(&self) -> (text: &'static str)
        ensures
            text@ == match *self {
                SinkConfigError::EmptyName => "sink name must not be empty"@,
                SinkConfigError::ZeroShards => "shards must be greater than zero"@,
                SinkConfigError::ZeroRingCapacity => "ring_capacity must be greater than zero"@,
                SinkConfigError::ZeroDrainBatch => "drain_batch must be greater than zero"@,
                SinkConfigError::ZeroOverloadInterval =>
                    "overload_check_interval must be greater than zero"@,
                SinkConfigError::InvalidWorkStealing =>
                    "work-stealing budgets must be greater than zero"@,
                SinkConfigError::ZeroIdleSleep =>
                    "DrainMode::Poll idle_sleep must be greater than zero"@,
            },
    {
        match self {
            SinkConfigError::EmptyName => "sink name must not be empty",
            SinkConfigError::ZeroShards => "shards must be greater than zero",
            SinkConfigError::ZeroRingCapacity => "ring_capacity must be greater than zero",
            SinkConfigError::ZeroDrainBatch => "drain_batch must be greater than zero",
            SinkConfigError::ZeroOverloadInterval => {
                "overload_check_interval must be greater than zero"
            },
            SinkConfigError::InvalidWorkStealing => {
                "work-stealing budgets must be greater than zero"
            },
            SinkConfigError::ZeroIdleSleep => {
                "DrainMode::Poll idle_sleep must be greater than zero"
            },
        }
    }
}

/// Construction-time configuration of a sink.
///
/// Shard count and ring capacity are fixed at construction; there is no dynamic
/// resharding.
#[derive(Debug, Clone)]
pub struct SinkConfig {
    /// Stable name used in overload notifications and metrics labels.
    pub name: &'static str,
    /// Number of independent shard rings.
    pub shards: usize,
    /// Capacity of each shard ring (items).
    pub ring_capacity: usize,
    /// Maximum items a drain worker batches before calling the sink action.
    pub drain_batch: usize,
    /// How often the overload monitor samples the drop counters.
    pub overload_check_interval: Span,
    /// Shard-selection strategy for handle-less pushes.
    pub shard_selection: ShardSelection,
    /// How long a drain worker sleeps after finding nothing to drain before
    /// polling again.
    pub idle_sleep: Span,
    /// Drain-side work-stealing policy.
    pub work_stealing: WorkStealing,
    /// Maximum time a shutdown waits for the workers; `None` waits indefinitely.
    pub shutdown_timeout: Option<Span>,
}

/// Work-stealing policy with all clamps already applied.
#[derive(Debug, Clone, Copy, PartialEq, Eq, Structural)]
pub enum NormalizedWorkStealing {
    /// No work stealing.
    Off,
    /// Opportunistic stealing within budgets that can be spent.
    Opportunistic {
        /// Maximum number of victim shards inspected per top-up attempt.
        max_victims_per_idle_tick: usize,
        /// Maximum number of items pulled from each victim shard.
        max_items_per_victim: usize,
    },
}

/// Validated, normalized configuration stored inside the sink, so that workers
/// never repeat clamps.
#[derive(Debug, Clone)]
pub struct NormalizedConfig {
    /// Not empty.
    pub name: &'static str,
    /// Not zero.
    pub shards: usize,
    /// Not zero.
    pub ring_capacity: usize,
    /// Not zero, and no more than a ring's worth of items.
    pub drain_batch: usize,
    /// Not zero.
    pub overload_check_interval: Span,
    /// As configured.
    pub shard_selection: ShardSelection,
    /// Not zero.
    pub idle_sleep: Span,
    /// As configured, clamped.
    pub work_stealing: NormalizedWorkStealing,
    /// As configured.
    pub shutdown_timeout: Option<Span>,
}

/// The smaller of two sizes.
pub open spec fn smaller(a: usize, b: usize) -> usize {
    if a <= b {
        a
    } else {
        b
    }
}

impl NormalizedConfig {
    /// What normalization guarantees.
    pub open spec fn wf(&self) -> bool {
        &&& self.name@.len() > 0
        &&& self.shards > 0
        &&& self.ring_capacity > 0
        &&& 0 < self.drain_batch <= self.ring_capacity
        &&& self.overload_check_interval.nanos > 0
        &&& self.idle_sleep.nanos > 0
        &&& match self.work_stealing {
            NormalizedWorkStealing::Off => true,
            NormalizedWorkStealing::Opportunistic {
                max_victims_per_idle_tick,
                max_items_per_victim,
            } => {
                &&& 0 < max_victims_per_idle_tick < self.shards
                &&& 0 < max_items_per_victim <= self.drain_batch
            },
        }
    }
}

/// How many shards are recommended on a machine that runs so many threads at once, or an
/// unknown number of them.
pub open spec fn recommended_shards(parallelism: Option<usize>) -> int {
    match parallelism {
        None => 4,
        Some(threads) if threads < 1 => 1,
        Some(threads) if threads > 8 => 8,
        Some(threads) => threads as int,
    }
}

impl SinkConfig {
    /// The first fault of the configuration, in the order in which the fields are
    /// checked.
    pub open spec fn fault(&self) -> Option<SinkConfigError> {
        if self.name@.len() == 0 {
            Some(SinkConfigError::EmptyName)
        } else if self.shards == 0 {
            Some(SinkConfigError::ZeroShards)
        } else if self.ring_capacity == 0 {
            Some(SinkConfigError::ZeroRingCapacity)
        } else if self.drain_batch == 0 {
            Some(SinkConfigError::ZeroDrainBatch)
        } else if self.overload_check_interval.nanos == 0 {
            Some(SinkConfigError::ZeroOverloadInterval)
        } else if self.idle_sleep.nanos == 0 {
            Some(SinkConfigError::ZeroIdleSleep)
        } else {
            match self.work_stealing {
                WorkStealing::Opportunistic {
                    max_victims_per_idle_tick,
                    max_items_per_victim,
                } if max_victims_per_idle_tick == 0 || max_items_per_victim == 0 => Some(
                    SinkConfigError::InvalidWorkStealing,
                ),
                _ => None,
            }
        }
    }

    /// The work-stealing policy after clamping: no more victims than there are
    /// other shards, no more items per victim than a batch holds, and off where
    /// there is no victim.
    pub open spec fn clamped_stealing(&self) -> NormalizedWorkStealing {
        match self.work_stealing {
            WorkStealing::Off => NormalizedWorkStealing::Off,
            WorkStealing::Opportunistic { max_victims_per_idle_tick, max_items_per_victim } => {
                if self.shards <= 1 {
                    NormalizedWorkStealing::Off
                } else {
                    NormalizedWorkStealing::Opportunistic {
                        max_victims_per_idle_tick: smaller(
                            max_victims_per_idle_tick,
                            (self.shards - 1) as usize,
                        ),
                        max_items_per_victim: smaller(
                            max_items_per_victim,
                            smaller(self.drain_batch, self.ring_capacity),
                        ),
                    }
                }
            },
        }
    }

    /// The configuration after clamping.
    pub open spec fn normalized(&self) -> NormalizedConfig {
        NormalizedConfig {
            name: self.name,
            shards: self.shards,
            ring_capacity: self.ring_capacity,
            drain_batch: smaller(self.drain_batch, self.ring_capacity),
            overload_check_interval: self.overload_check_interval,
            shard_selection: self.shard_selection,
            idle_sleep: self.idle_sleep,
            work_stealing: self.clamped_stealing(),
            shutdown_timeout: self.shutdown_timeout,
        }
    }

    /// The recommended configuration on a machine that runs `parallelism` threads
    /// at once, or an unknown number of them.
    pub fn recommended(parallelism: Option<usize>) -> (config: SinkConfig)
        ensures
            config.name@ == "sink"@,
            config.shards == match parallelism {
                None => 4,
                Some(n) => if n < 1 {
                    1
                } else if n > 8 {
                    8
                } else {
                    n as int
                },
            },
            config.shards == recommended_shards(parallelism),
            config.ring_capacity == 8192,
            config.drain_batch == 256,
            config.overload_check_interval.nanos == 5_000_000_000,
            config.shard_selection == ShardSelection::ThreadLocalRoundRobin,
            config.idle_sleep.nanos == 100_000,
            config.work_stealing == (WorkStealing::Opportunistic {
                max_victims_per_idle_tick: 2,
                max_items_per_victim: 64,
            }),
            config.shutdown_timeout == Some(Span { nanos: 5_000_000_000 }),
            config.fault() is None,
    {
        let threads: usize = parallelism.unwrap_or(4);
        let shards: usize = if threads < 1 {
            1
        } else if threads > 8 {
            8
        } else {
            threads
        };
        proof {
            reveal_strlit("sink");
        }
        SinkConfig {
            name: "sink",
            shards,
            ring_capacity: 8192,
            drain_batch: 256,
            overload_check_interval: Span::from_secs(5),
            shard_selection: ShardSelection::ThreadLocalRoundRobin,
            idle_sleep: Span::from_micros(100),
            work_stealing: WorkStealing::Opportunistic {
                max_victims_per_idle_tick: 2,
                max_items_per_victim: 64,
            },
            shutdown_timeout: Some(Span::from_secs(5)),
        }
    }

    /// Returns this configuration with `name` replaced.
    #[must_use]
    pub fn with_name(self, name: &'static str) -> (config: SinkConfig)
        ensures
            config == (SinkConfig { name, ..self }),
    {
        SinkConfig { name, ..self }
    }

    /// Validates and normalizes this configuration.
    pub fn normalize(&self) -> (result: Result<NormalizedConfig, SinkConfigError>)
        ensures
            result == match self.fault() {
                Some(error) => Err::<NormalizedConfig, SinkConfigError>(error),
                None => Ok::<NormalizedConfig, SinkConfigError>(self.normalized()),
            },
            result matches Ok(cfg) ==> cfg.wf(),
    {
        if self.name.is_empty() {
            return Err(SinkConfigError::EmptyName);
        }
        if self.shards == 0 {
            return Err(SinkConfigError::ZeroShards);
        }
        if self.ring_capacity == 0 {
            return Err(SinkConfigError::ZeroRingCapacity);
        }
        if self.drain_batch == 0 {
            return Err(SinkConfigError::ZeroDrainBatch);
        }
        if self.overload_check_interval.is_zero() {
            return Err(SinkConfigError::ZeroOverloadInterval);
        }
        if self.idle_sleep.is_zero() {
            return Err(SinkConfigError::ZeroIdleSleep);
        }
        // A batch can never exceed a ring's worth of items.
        let drain_batch = self.drain_batch.min(self.ring_capacity);

        let work_stealing = match self.work_stealing {
            WorkStealing::Off => NormalizedWorkStealing::Off,
            WorkStealing::Opportunistic { max_victims_per_idle_tick, max_items_per_victim } => {
                if max_victims_per_idle_tick == 0 || max_items_per_victim == 0 {
                    return Err(SinkConfigError::InvalidWorkStealing);
                }
                // A single-shard sink has no victims to steal from.
                let max_victims = max_victims_per_idle_tick.min(self.shards.saturating_sub(1));
                if max_victims == 0 {
                    NormalizedWorkStealing::Off
                } else {
                    NormalizedWorkStealing::Opportunistic {
                        max_victims_per_idle_tick: max_victims,
                        max_items_per_victim: max_items_per_victim.min(drain_batch),
                    }
                }
            },
        };

        Ok(
            NormalizedConfig {
                name: self.name,
                shards: self.shards,
                ring_capacity: self.ring_capacity,
                drain_batch,
                overload_check_interval: self.overload_check_interval,
                shard_selection: self.shard_selection,
                idle_sleep: self.idle_sleep,
                work_stealing,
                shutdown_timeout: self.shutdown_timeout,
            },
        )
    }
}

/// The configuration that asks for just what a normalized one holds.
pub open spec fn reconfigured(cfg: NormalizedConfig) -> SinkConfig {
    SinkConfig {
        name: cfg.name,
        shards: cfg.shards,
        ring_capacity: cfg.ring_capacity,
        drain_batch: cfg.drain_batch,
        overload_check_interval: cfg.overload_check_interval,
        shard_selection: cfg.shard_selection,
        idle_sleep: cfg.idle_sleep,
        work_stealing: match cfg.work_stealing {
            NormalizedWorkStealing::Off => WorkStealing::Off,
            NormalizedWorkStealing::Opportunistic {
                max_victims_per_idle_tick,
                max_items_per_victim,
            } => WorkStealing::Opportunistic { max_victims_per_idle_tick, max_items_per_victim },
        },
        shutdown_timeout: cfg.shutdown_timeout,
    }
}

/// Nothing is left to clamp in a normalized configuration: normalizing it again
/// finds no fault and changes nothing.
pub proof fn clamps_are_settled(config: SinkConfig)
    requires
        config.fault() is None,
    ensures
        reconfigured(config.normalized()).fault() is None,
        reconfigured(config.normalized()).normalized() == config.normalized(),
{
}

/// A configuration is rejected only for what is missing: an empty name, a size or a time of
/// zero, or a stealing budget of zero. Of several faults the first one is reported, in the
/// order of the fields, with the budgets last.
pub proof fn only_zeros_are_faults(config: SinkConfig)
    ensures
        ({
            let named = config.name@.len() > 0;
            let sharded = named && config.shards > 0;
            let sized = sharded && config.ring_capacity > 0;
            let batched = sized && config.drain_batch > 0;
            let watched = batched && config.overload_check_interval.nanos > 0;
            let timed = watched && config.idle_sleep.nanos > 0;
            let budgeted = match config.work_stealing {
                WorkStealing::Off => true,
                WorkStealing::Opportunistic { max_victims_per_idle_tick, max_items_per_victim } =>
                    max_victims_per_idle_tick > 0 && max_items_per_victim > 0,
            };
            &&& config.fault() is None <==> timed && budgeted
            &&& config.fault() == Some(SinkConfigError::EmptyName) <==> !named
            &&& config.fault() == Some(SinkConfigError::ZeroShards) <==> named && !sharded
            &&& config.fault() == Some(SinkConfigError::ZeroRingCapacity) <==> sharded && !sized
            &&& config.fault() == Some(SinkConfigError::ZeroDrainBatch) <==> sized && !batched
            &&& config.fault() == Some(SinkConfigError::ZeroOverloadInterval) <==> batched
                && !watched
            &&& config.fault() == Some(SinkConfigError::ZeroIdleSleep) <==> watched && !timed
            &&& config.fault() == Some(SinkConfigError::InvalidWorkStealing) <==> timed
                && !budgeted
        }),
{
}

/// Normalization only lowers what was asked for, and only where it must: the batch to what a
/// ring holds, the victims to the number of other shards, the items per victim to the batch.
/// What is within its bound is kept, what is not becomes the bound itself, and stealing is
/// given up only where there is no other shard. All else is kept.
pub proof fn normalization_only_lowers(config: SinkConfig)
    requires
        config.fault() is None,
    ensures
        ({
            let kept = config.normalized();
            &&& kept.name == config.name
            &&& kept.shards == config.shards
            &&& kept.ring_capacity == config.ring_capacity
            &&& kept.overload_check_interval == config.overload_check_interval
            &&& kept.shard_selection == config.shard_selection
            &&& kept.idle_sleep == config.idle_sleep
            &&& kept.shutdown_timeout == config.shutdown_timeout
            &&& kept.drain_batch <= config.drain_batch
            &&& config.drain_batch <= config.ring_capacity ==> kept.drain_batch
                == config.drain_batch
            &&& config.drain_batch > config.ring_capacity ==> kept.drain_batch
                == config.ring_capacity
            &&& config.work_stealing == WorkStealing::Off || config.shards == 1
                <==> kept.work_stealing == NormalizedWorkStealing::Off
            &&& (config.work_stealing matches WorkStealing::Opportunistic {
                max_victims_per_idle_tick: victims,
                max_items_per_victim: items,
            } ==> kept.work_stealing matches NormalizedWorkStealing::Opportunistic {
                max_victims_per_idle_tick: kept_victims,
                max_items_per_victim: kept_items,
            } ==> {
                &&& kept_victims <= victims
                &&& victims < config.shards ==> kept_victims == victims
                &&& victims >= config.shards ==> kept_victims == config.shards - 1
                &&& kept_items <= items
                &&& items <= kept.drain_batch ==> kept_items == items
                &&& items > kept.drain_batch ==> kept_items == kept.drain_batch
            })
        }),
{
}

/// A configuration that is within all bounds is kept as it is.
pub proof fn what_is_within_bounds_is_kept(config: SinkConfig)
    requires
        config.fault() is None,
        config.drain_batch <= config.ring_capacity,
        config.work_stealing matches WorkStealing::Opportunistic {
            max_victims_per_idle_tick,
            max_items_per_victim,
        } ==> max_victims_per_idle_tick < config.shards && max_items_per_victim
            <= config.drain_batch,
    ensures
        reconfigured(config.normalized()) == config,
{
}

/// The recommended number of shards follows the number of threads, one for one, as far as it
/// may: never less than one nor more than eight, and one more thread means at most one more
/// shard, and never fewer.
pub proof fn shards_follow_the_threads(threads: usize, more: usize)
    ensures
        ({
            let shards = recommended_shards(Some(threads));
            &&& 1 <= shards <= 8
            &&& 1 <= threads <= 8 ==> shards == threads
            &&& threads <= more ==> shards <= recommended_shards(Some(more))
            &&& more == threads + 1 ==> recommended_shards(Some(more)) <= shards + 1
        }),
{
}

} // verus!
