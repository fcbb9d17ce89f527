//! The sink itself: a bounded, lossy, sharded fan-in sink.
//!
//! Producers push to a shard; one worker per shard takes batches out of it.

use vstd::prelude::*;

use crate::config::{NormalizedConfig, ShardSelection, SinkConfig, SinkConfigError};
use crate::handle::ShardHandle;
use crate::haul::{hauling_thins, Haul};
use crate::monitor::OverloadMonitor;
use crate::ring::ring_fits;
use crate::selection::{
    advanced, chosen, cursor_after, home_of, home_shard, homes_spread_over_all_shards, in_turn,
    lemma_nth_in_turn, next_round_robin, nth, round_robin_goes_from_shard_to_shard, seeded,
    SeedSource, ThreadState,
};
use crate::shard::{views, Shard, ShardView};
use crate::stats::{ShardStats, SinkStats};
use crate::worker::{
    batch_fits, lemma_batch_of_ring_fits, Polled, Worker, WorkerAction, WorkerPhase, WorkerView,
};

verus! {

/// What a sink holds.
#[verifier::ext_equal]
pub struct SinkView<T> {
    /// Its shards.
    pub shards: Seq<ShardView<T>>,
    /// The round-robin cursor of issued handles.
    pub issue_cursor: usize,
}

impl<T> SinkView<T> {
    /// After an item was pushed to a shard.
    pub open spec fn pushed(self, shard: int, item: T) -> SinkView<T> {
        SinkView { shards: pushed_to(self.shards, shard, item), ..self }
    }

    /// The shard that the next handle is bound to.
    pub open spec fn due(self) -> int {
        self.issue_cursor as int % self.shards.len() as int
    }

    /// After a handle was issued.
    pub open spec fn issued(self) -> SinkView<T> {
        SinkView { issue_cursor: advanced(self.issue_cursor), ..self }
    }

    /// After so many handles were issued.
    pub open spec fn issued_all(self, k: nat) -> SinkView<T>
        decreases k,
    {
        if k == 0 {
            self
        } else {
            self.issued_all((k - 1) as nat).issued()
        }
    }
}

/// Shards after an item was pushed to one of them.
pub open spec fn pushed_to<T>(shards: Seq<ShardView<T>>, shard: int, item: T) -> Seq<ShardView<T>> {
    shards.update(shard, shards[shard].push(item))
}

/// The drops of all shards together.
pub open spec fn total_dropped<T>(shards: Seq<ShardView<T>>) -> nat
    decreases shards.len(),
{
    if shards.len() == 0 {
        0
    } else {
        total_dropped(shards.drop_last()) + shards.last().dropped as nat
    }
}

/// A drop count as a counter shows it.
pub open spec fn shown(drops: nat) -> u64 {
    (drops % 0x1_0000_0000_0000_0000) as u64
}

/// The drop statistics of each shard.
pub open spec fn per_shard<T>(shards: Seq<ShardView<T>>) -> Seq<ShardStats> {
    Seq::new(
        shards.len(),
        |i: int| ShardStats { shard: i as usize, dropped: shards[i].dropped },
    )
}

/// The drops of several statistics together.
pub open spec fn added_up(stats: Seq<ShardStats>) -> nat
    decreases stats.len(),
{
    if stats.len() == 0 {
        0
    } else {
        added_up(stats.drop_last()) + stats.last().dropped as nat
    }
}

/// The aggregate drop count is the sum of the per-shard ones.
pub proof fn stats_total_equals_sum_of_shards<T>(shards: Seq<ShardView<T>>)
    ensures
        added_up(per_shard(shards)) == total_dropped(shards),
    decreases shards.len(),
{
    if shards.len() > 0 {
        stats_total_equals_sum_of_shards(shards.drop_last());
        assert(per_shard(shards).drop_last() =~= per_shard(shards.drop_last()));
    }
}

/// A bounded, lossy, sharded fan-in sink.
///
/// There is no closed state: the rings outlive the workers, so a push after the
/// workers have left is accepted until its ring is full.
#[verifier::reject_recursive_types(T)]
pub struct ShardedSink<T> {
    cfg: NormalizedConfig,
    shards: Vec<Shard<T>>,
    issue_cursor: usize,
}

/// A sink and what has to run beside it.
#[verifier::reject_recursive_types(T)]
pub struct Spawned<T> {
    /// The sink.
    pub sink: ShardedSink<T>,
    /// One drain worker per shard, in shard order.
    pub workers: Vec<Worker<T>>,
    /// The overload monitor.
    pub monitor: OverloadMonitor,
}

/// The worker that shard `home` starts with.
pub open spec fn fresh_worker<T>(cfg: NormalizedConfig, home: usize) -> WorkerView<T> {
    WorkerView {
        home,
        limit: cfg.drain_batch,
        stealing: cfg.work_stealing,
        cursor: advanced(home),
        batch: Seq::empty(),
        phase: WorkerPhase::Polling,
    }
}

/// A shard that nothing was pushed to yet.
pub open spec fn fresh_shard<T>(cfg: NormalizedConfig) -> ShardView<T> {
    ShardView { items: Seq::empty(), capacity: cfg.ring_capacity as nat, dropped: 0 }
}

impl<T> Spawned<T> {
    /// Everything is as at the start of a sink of this configuration.
    pub open spec fn starts(&self, cfg: NormalizedConfig) -> bool {
        &&& self.sink.wf()
        &&& self.sink.config() == cfg
        &&& self.sink@ == (SinkView {
            shards: Seq::new(cfg.shards as nat, |i: int| fresh_shard::<T>(cfg)),
            issue_cursor: 0,
        })
        &&& self.workers@.len() == cfg.shards
        &&& forall|i: int|
            0 <= i < cfg.shards ==> (#[trigger] self.workers@[i])@ == fresh_worker::<T>(
                cfg,
                i as usize,
            )
        &&& self.monitor.name() == cfg.name
        &&& self.monitor.interval() == cfg.overload_check_interval
        &&& self.monitor.last_total() == 0
    }
}

impl<T> View for ShardedSink<T> {
    type V = SinkView<T>;

    closed spec fn view(&self) -> SinkView<T> {
        SinkView { shards: views(self.shards@), issue_cursor: self.issue_cursor }
    }
}

impl<T> ShardedSink<T> {
    /// The sink's configuration.
    pub closed spec fn config(&self) -> NormalizedConfig {
        self.cfg
    }

    /// There are as many shards as configured, each within the configured bounds.
    pub open spec fn wf(&self) -> bool {
        &&& self.config().wf()
        &&& self@.shards.len() == self.config().shards
        &&& forall|i: int|
            0 <= i < self@.shards.len() ==> (#[trigger] self@.shards[i]).wf()
                && self@.shards[i].capacity == self.config().ring_capacity
    }

    /// The shard that a handle-less push by this thread goes to.
    pub open spec fn selected(&self, thread: &ThreadState, source: &SeedSource) -> int {
        chosen(
            self.config().shard_selection,
            thread.seed_from(source),
            thread.cursor(),
            self.config().shards as nat,
        )
    }

    /// The shard that a handle issued to this thread for its home is bound to.
    pub open spec fn home(&self, thread: &ThreadState, source: &SeedSource) -> int {
        home_of(thread.seed_from(source), self.config().shards as nat)
    }

    /// Validates `cfg` and builds the shards, their workers, and the monitor.
    pub fn try_spawn(cfg: SinkConfig) -> (result: Result<Spawned<T>, SinkConfigError>)
        requires
            cfg.fault() is None ==> ring_fits::<T>(cfg.ring_capacity as nat),
        ensures
            match cfg.fault() {
                Some(error) => result is Err && result->Err_0 == error,
                None => result is Ok && result->Ok_0.starts(cfg.normalized()),
            },
    {
        let cfg = match cfg.normalize() {
            Ok(cfg) => cfg,
            Err(error) => {
                return Err(error);
            },
        };
        let mut shards: Vec<Shard<T>> = Vec::new();
        let mut workers: Vec<Worker<T>> = Vec::new();
        let mut home: usize = 0;
        proof {
            lemma_batch_of_ring_fits::<T>(cfg.drain_batch as nat, cfg.ring_capacity as nat);
        }
        while home < cfg.shards
            invariant
                cfg.wf(),
                ring_fits::<T>(cfg.ring_capacity as nat),
                batch_fits::<T>(cfg.drain_batch as nat),
                home <= cfg.shards,
                shards@.len() == home,
                workers@.len() == home,
                forall|i: int| 0 <= i < home ==> (#[trigger] shards@[i])@ == fresh_shard::<T>(cfg),
                forall|i: int|
                    0 <= i < home ==> (#[trigger] workers@[i])@ == fresh_worker::<T>(
                        cfg,
                        i as usize,
                    ),
            decreases cfg.shards - home,
        {
            shards.push(Shard::new(cfg.ring_capacity));
            workers.push(Worker::new(home, cfg.drain_batch, cfg.work_stealing));
            home += 1;
        }
        let monitor = OverloadMonitor::new(cfg.name, cfg.overload_check_interval);
        let sink = ShardedSink { cfg, shards, issue_cursor: 0 };
        assert(sink@.shards =~= Seq::new(
            sink.cfg.shards as nat,
            |i: int| fresh_shard::<T>(sink.cfg),
        ));
        Ok(Spawned { sink, workers, monitor })
    }

    /// Like [`try_spawn`](Self::try_spawn), for a configuration without fault.
    pub fn spawn(cfg: SinkConfig) -> (spawned: Spawned<T>)
        requires
            cfg.fault() is None,
            ring_fits::<T>(cfg.ring_capacity as nat),
        ensures
            spawned.starts(cfg.normalized()),
    {
        let result = Self::try_spawn(cfg);
        result.unwrap()
    }

    /// A handle bound to the given shard.
    fn handle_for(&self, shard: usize) -> (handle: ShardHandle)
        ensures
            handle.shard() == shard,
    {
        ShardHandle::new(shard)
    }

    /// Issues a reusable producer handle, spread across shards by a round-robin
    /// cursor that all producers share.
    #[must_use]
    pub fn issue(&mut self) -> (handle: ShardHandle)
        requires
            old(self).wf(),
        ensures
            handle.shard() == old(self)@.issue_cursor % old(self).config().shards,
            handle.shard() == old(self)@.due(),
            final(self)@ == old(self)@.issued(),
            handle.shard() < old(self)@.shards.len(),
            final(self)@ == (SinkView {
                issue_cursor: advanced(old(self)@.issue_cursor),
                ..old(self)@
            }),
            final(self).config() == old(self).config(),
            final(self).wf(),
    {
        let shard: usize = self.issue_cursor % self.cfg.shards;
        self.issue_cursor = self.issue_cursor.wrapping_add(1);
        self.handle_for(shard)
    }

    /// Issues a handle bound to the thread's stable home shard.
    ///
    /// Favors locality over burst smoothing.
    #[must_use]
    pub fn issue_thread_local(&self, thread: &mut ThreadState, source: &mut SeedSource) -> (handle:
        ShardHandle)
        requires
            self.wf(),
        ensures
            handle.shard() == old(thread).seed_from(old(source)) % self.config().shards,
            handle.shard() == self.home(old(thread), old(source)),
            handle.shard() < self@.shards.len(),
            seeded(*old(thread), *old(source), *final(thread), *final(source)),
    {
        let shard: usize = home_shard(thread, source, self.cfg.shards);
        self.handle_for(shard)
    }

    /// Offers an item to a given shard.
    pub(crate) fn offer_to(&mut self, shard: usize, item: T) -> (result: Result<(), T>)
        requires
            old(self).wf(),
            shard < old(self)@.shards.len(),
        ensures
            result is Ok == old(self)@.shards[shard as int].accepts(),
            result matches Err(shed) ==> shed == item,
            final(self)@ == old(self)@.pushed(shard as int, item),
            final(self).config() == old(self).config(),
            final(self).wf(),
    {
        assert(old(self)@.shards[shard as int] == self.shards@[shard as int]@);
        let result = self.shards[shard].offer(item);
        assert(self@ =~= old(self)@.pushed(shard as int, item));
        result
    }

    /// Handle-less offer: selects a shard as configured and offers the item to it. A shed
    /// item counts one drop on the selected shard and is handed back, so that the caller
    /// decides where it is dropped.
    pub fn offer(&mut self, thread: &mut ThreadState, source: &mut SeedSource, item: T) -> (result:
        Result<(), T>)
        requires
            old(self).wf(),
        ensures
            ({
                let shard = old(self).selected(old(thread), old(source));
                &&& 0 <= shard < old(self)@.shards.len()
                &&& result is Ok == old(self)@.shards[shard].accepts()
                &&& result matches Err(shed) ==> shed == item
                &&& final(self)@ == old(self)@.pushed(shard, item)
            }),
            final(thread).cursor() == cursor_after(
                old(self).config().shard_selection,
                old(thread).cursor(),
            ),
            match old(self).config().shard_selection {
                ShardSelection::ThreadLocalHome => seeded(
                    *old(thread),
                    *old(source),
                    *final(thread),
                    *final(source),
                ),
                ShardSelection::ThreadLocalRoundRobin => {
                    &&& final(thread).cursor() == advanced(old(thread).cursor())
                    &&& final(thread).seed() == old(thread).seed()
                    &&& final(source).upcoming() == old(source).upcoming()
                },
            },
            final(self).config() == old(self).config(),
            final(self).wf(),
    {
        let shards = self.cfg.shards;
        let shard: usize = match self.cfg.shard_selection {
            ShardSelection::ThreadLocalHome => home_shard(thread, source, shards),
            ShardSelection::ThreadLocalRoundRobin => next_round_robin(thread, shards),
        };
        self.offer_to(shard, item)
    }

    /// Handle-less push: selects a shard as configured and pushes to it.
    ///
    /// Returns `true` if the item was accepted into the ring, `false` if it was
    /// shed because the ring was full, which counts one drop on the selected shard.
    #[must_use]
    pub fn push(&mut self, thread: &mut ThreadState, source: &mut SeedSource, item: T) -> (accepted:
        bool)
        requires
            old(self).wf(),
        ensures
            ({
                let shard = old(self).selected(old(thread), old(source));
                &&& 0 <= shard < old(self)@.shards.len()
                &&& accepted == old(self)@.shards[shard].accepts()
                &&& final(self)@ == old(self)@.pushed(shard, item)
            }),
            final(thread).cursor() == cursor_after(
                old(self).config().shard_selection,
                old(thread).cursor(),
            ),
            match old(self).config().shard_selection {
                ShardSelection::ThreadLocalHome => seeded(
                    *old(thread),
                    *old(source),
                    *final(thread),
                    *final(source),
                ),
                ShardSelection::ThreadLocalRoundRobin => {
                    &&& final(thread).cursor() == advanced(old(thread).cursor())
                    &&& final(thread).seed() == old(thread).seed()
                    &&& final(source).upcoming() == old(source).upcoming()
                },
            },
            final(self).config() == old(self).config(),
            final(self).wf(),
    {
        self.offer(thread, source, item).is_ok()
    }

    /// One turn of a worker on this sink's shards.
    pub fn poll_worker(&mut self, worker: &mut Worker<T>, cancelled: bool) -> (action: WorkerAction)
        requires
            old(self).wf(),
            old(worker)@.home < old(self)@.shards.len(),
        ensures
            (Polled { worker: final(worker)@, shards: final(self)@.shards, action }) == old(
                worker,
            )@.polled(old(self)@.shards, cancelled),
            final(self)@.issue_cursor == old(self)@.issue_cursor,
            final(self).config() == old(self).config(),
            final(self).wf(),
    {
        proof {
            let start = Haul {
                shards: self@.shards,
                batch: worker@.batch,
                cursor: worker@.cursor,
            };
            hauling_thins(start, worker@.home as int, worker@.limit as nat, worker@.stealing);
        }
        worker.poll(&mut self.shards, cancelled)
    }

    /// Aggregate drop statistics across all shards.
    #[must_use]
    pub fn stats(&self) -> (stats: SinkStats)
        requires
            self.wf(),
        ensures
            stats == (SinkStats {
                shards: self.config().shards,
                dropped: shown(total_dropped(self@.shards)),
            }),
    {
        SinkStats { shards: self.cfg.shards, dropped: self.dropped_total() }
    }

    /// Per-shard drop statistics, in shard order.
    #[must_use]
    pub fn stats_per_shard(&self) -> (stats: Vec<ShardStats>)
        requires
            self.wf(),
        ensures
            stats@ == per_shard(self@.shards),
    {
        let mut stats: Vec<ShardStats> = Vec::new();
        let mut shard: usize = 0;
        while shard < self.cfg.shards
            invariant
                self.wf(),
                shard <= self.cfg.shards,
                stats@.len() == shard,
                forall|i: int|
                    0 <= i < shard ==> stats@[i] == (ShardStats {
                        shard: i as usize,
                        dropped: self@.shards[i].dropped,
                    }),
            decreases self.cfg.shards - shard,
        {
            assert(self@.shards[shard as int] == self.shards@[shard as int]@);
            stats.push(ShardStats { shard, dropped: self.shards[shard].dropped() });
            shard += 1;
        }
        stats
    }

    /// Total items shed because a ring was full.
    #[must_use]
    pub fn dropped_total(&self) -> (total: u64)
        requires
            self.wf(),
        ensures
            total == shown(total_dropped(self@.shards)),
    {
        let mut total: u64 = 0;
        let mut shard: usize = 0;
        while shard < self.shards.len()
            invariant
                self.wf(),
                shard <= self.shards.len(),
                total == shown(total_dropped(self@.shards.take(shard as int))),
            decreases self.shards.len() - shard,
        {
            let ghost seen = self@.shards.take(shard as int);
            assert(self@.shards.take(shard + 1).drop_last() =~= seen);
            assert(self@.shards[shard as int] == self.shards@[shard as int]@);
            total = total.wrapping_add(self.shards[shard].dropped());
            shard += 1;
        }
        assert(self@.shards.take(shard as int) =~= self@.shards);
        total
    }

    /// Number of shards.
    #[must_use]
    pub fn shards(&self) -> (count: usize)
        ensures
            count == self.config().shards,
    {
        self.cfg.shards
    }
}

/// A push changes one shard and nothing else.
pub proof fn pushes_touch_one_shard<T>(sink: SinkView<T>, shard: int, item: T)
    requires
        0 <= shard < sink.shards.len(),
    ensures
        ({
            let after = sink.pushed(shard, item);
            &&& after.issue_cursor == sink.issue_cursor
            &&& after.shards.len() == sink.shards.len()
            &&& after.shards[shard] == sink.shards[shard].push(item)
            &&& forall|i: int|
                0 <= i < sink.shards.len() && i != shard ==> (#[trigger] after.shards[i])
                    == sink.shards[i]
        }),
{
}

/// Under home selection a handle-less push goes to the very shard that a home handle of the
/// same thread is bound to: the first seeds name their shards, a seed that is larger by the
/// number of shards has the same, and threads whose seeds differ by less push to different
/// shards, whatever their cursors are.
pub proof fn home_pushes_go_home<T>(
    sink: ShardedSink<T>,
    thread: ThreadState,
    other: ThreadState,
    source: SeedSource,
)
    requires
        sink.wf(),
        sink.config().shard_selection == ShardSelection::ThreadLocalHome,
    ensures
        ({
            let shards = sink@.shards.len();
            let (a, b) = (thread.seed_from(&source), other.seed_from(&source));
            let (one, two) = (sink.selected(&thread, &source), sink.selected(&other, &source));
            &&& 0 <= one < shards
            &&& one == sink.home(&thread, &source)
            &&& a < shards ==> one == a
            &&& b == a + shards ==> two == one
            &&& a < b < a + shards ==> two != one
            &&& one == a as int % shards as int
        }),
{
    let (a, b) = (thread.seed_from(&source), other.seed_from(&source));
    homes_spread_over_all_shards(a, b, thread.cursor(), sink@.shards.len());
}

/// Under round-robin a handle-less push goes to the shard under the thread's cursor, whatever
/// its seed is: the first cursors name their shards, one that is larger by the number of
/// shards selects the same, and of cursors that differ by less each selects another.
pub proof fn round_robin_pushes_go_round<T>(
    sink: ShardedSink<T>,
    thread: ThreadState,
    later: ThreadState,
    source: SeedSource,
)
    requires
        sink.wf(),
        sink.config().shard_selection == ShardSelection::ThreadLocalRoundRobin,
    ensures
        ({
            let shards = sink@.shards.len();
            let (a, b) = (thread.cursor(), later.cursor());
            let (one, two) = (sink.selected(&thread, &source), sink.selected(&later, &source));
            &&& 0 <= one < shards
            &&& a < shards ==> one == a
            &&& b == a + shards ==> two == one
            &&& a < b < a + shards ==> two != one
            &&& one == a as int % shards as int
        }),
{
    round_robin_goes_from_shard_to_shard(
        thread.seed_from(&source),
        thread.cursor(),
        later.cursor(),
        sink@.shards.len(),
    );
}

/// Handles are issued to the shards one after the other, and issuing touches no shard: the
/// handle after the first `k` is bound to the shard that is `k` further on. This holds of any
/// cursor from which the shards come up in turn.
pub proof fn handles_spread_over_all_shards<T>(sink: SinkView<T>, k: nat)
    requires
        sink.shards.len() > 0,
        in_turn(sink.issue_cursor, k + 1, sink.shards.len()),
    ensures
        sink.issued_all(k).shards == sink.shards,
        sink.issued_all(k).due() == (sink.issue_cursor + k) % sink.shards.len() as int,
{
    lemma_issued(sink, k);
    lemma_nth_in_turn(sink.issue_cursor, k + 1, sink.shards.len(), k);
}

proof fn lemma_issued<T>(sink: SinkView<T>, k: nat)
    ensures
        sink.issued_all(k).shards == sink.shards,
        sink.issued_all(k).issue_cursor == nth(sink.issue_cursor, k),
    decreases k,
{
    if k > 0 {
        lemma_issued(sink, (k - 1) as nat);
    }
}

/// A sink starts as it was configured: so many shards, all empty, with rings of the configured
/// capacity and no drop counted, each with a worker of its own that polls, has taken nothing,
/// looks for victims from the next shard on, and takes batches of the configured size, or of
/// a ring's worth of items where that is less.
pub proof fn sinks_start_as_configured<T>(spawned: Spawned<T>, config: SinkConfig)
    requires
        config.fault() is None,
        spawned.starts(config.normalized()),
    ensures
        spawned.sink@.shards.len() == config.shards,
        spawned.sink@.issue_cursor == 0,
        spawned.workers@.len() == config.shards,
        spawned.monitor.name() == config.name,
        spawned.monitor.interval() == config.overload_check_interval,
        spawned.monitor.last_total() == 0,
        forall|i: int|
            0 <= i < config.shards ==> {
                let shard = #[trigger] spawned.sink@.shards[i];
                &&& shard.items.len() == 0
                &&& shard.capacity == config.ring_capacity
                &&& shard.dropped == 0
            },
        forall|i: int|
            0 <= i < config.shards ==> {
                let worker = (#[trigger] spawned.workers@[i])@;
                &&& worker.home == i
                &&& worker.batch.len() == 0
                &&& worker.phase == WorkerPhase::Polling
                &&& worker.stealing == config.normalized().work_stealing
                &&& worker.cursor == i + 1
                &&& worker.limit == if config.drain_batch <= config.ring_capacity {
                    config.drain_batch
                } else {
                    config.ring_capacity
                }
            },
{
}

/// The total is the sum of the counters: it is zero without shards, one more shard adds its
/// own count, and a counter that is replaced by another changes the total by the difference.
pub proof fn totals_are_sums<T>(shards: Seq<ShardView<T>>, i: int, shard: ShardView<T>)
    ensures
        total_dropped(Seq::<ShardView<T>>::empty()) == 0,
        total_dropped(shards.push(shard)) == total_dropped(shards) + shard.dropped,
        0 <= i < shards.len() ==> total_dropped(shards.update(i, shard)) + shards[i].dropped
            == total_dropped(shards) + shard.dropped,
    decreases shards.len(),
{
    assert(shards.push(shard).drop_last() =~= shards);
    if 0 <= i < shards.len() {
        let after = shards.update(i, shard);
        if i == shards.len() - 1 {
            assert(after.drop_last() =~= shards.drop_last());
        } else {
            totals_are_sums(shards.drop_last(), i, shard);
            assert(after.drop_last() =~= shards.drop_last().update(i, shard));
        }
    }
}

/// A counter shows a count as it is, until it has to wrap around.
pub proof fn counters_show_what_they_count(drops: nat)
    ensures
        drops <= u64::MAX ==> shown(drops) == drops,
        shown(drops + u64::MAX as nat + 1) == shown(drops),
{
}

/// The statistics list each shard once, in order, with its own count.
pub proof fn statistics_list_each_shard<T>(shards: Seq<ShardView<T>>)
    requires
        shards.len() <= usize::MAX,
    ensures
        per_shard(shards).len() == shards.len(),
        forall|i: int|
            0 <= i < shards.len() ==> (#[trigger] per_shard(shards)[i]).shard == i
                && per_shard(shards)[i].dropped == shards[i].dropped,
{
}

} // verus!
