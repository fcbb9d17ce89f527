//! Drain workers.
//!
//! Each shard has one home worker. A worker takes items out of its own shard
//! first; if its batch is not full after that, it may top the batch up with a
//! bounded number of items from other shards.

use vstd::prelude::*;

use crate::config::NormalizedWorkStealing;
use crate::haul::{
    bursts_fill_the_batch_or_empty_the_shard, haul, stealing_is_bounded, the_next_shard_helps_out,
    topping_up_takes_all_it_may, Haul, Raid,
};
use crate::ring::{ring_fits, slot_bytes};
use crate::selection::{advanced, in_turn};
use crate::shard::{all_wf, views, Shard, ShardView};

verus! {

/// Moves items from `shard` into `buf`, oldest first, until the ring is empty,
/// the batch is full, or `most` items have moved.
fn take_up_to<T>(shard: &mut Shard<T>, buf: &mut Vec<T>, drain_batch: usize, most: usize)
    requires
        old(shard)@.wf(),
    ensures
        ({
            let n = haul(
                old(shard)@.items.len(),
                old(buf)@.len(),
                drain_batch as nat,
                most as nat,
            ) as int;
            &&& final(buf)@ == old(buf)@ + old(shard)@.items.take(n)
            &&& final(shard)@ == old(shard)@.take(n)
        }),
        final(shard)@.wf(),
{
    let ghost start = shard@;
    let ghost before = buf@;
    let mut taken: usize = 0;
    while taken < most && buf.len() < drain_batch
        invariant
            shard@.wf(),
            start == old(shard)@,
            before == old(buf)@,
            0 <= taken <= haul(start.items.len(), before.len(), drain_batch as nat, most as nat),
            taken > 0 ==> buf@.len() <= drain_batch,
            buf@ == before + start.items.take(taken as int),
            shard@ == start.take(taken as int),
        ensures
            taken == haul(start.items.len(), before.len(), drain_batch as nat, most as nat),
        decreases most - taken,
    {
        match shard.pop() {
            Some(item) => {
                buf.push(item);
                taken += 1;
                assert(buf@ =~= before + start.items.take(taken as int));
                assert(start.take(taken - 1).take(1) =~= start.take(taken as int));
            },
            None => {
                break;
            },
        }
    }
}

/// Drains `shard` into `buf` until the batch is full or the ring is empty.
pub fn drain_burst<T>(shard: &mut Shard<T>, buf: &mut Vec<T>, drain_batch: usize)
    requires
        old(shard)@.wf(),
    ensures
        ({
            let held = old(shard)@.items.len();
            let n = haul(held, old(buf)@.len(), drain_batch as nat, held) as int;
            &&& final(buf)@ == old(buf)@ + old(shard)@.items.take(n)
            &&& final(shard)@ == old(shard)@.take(n)
        }),
        final(shard)@.wf(),
{
    take_up_to(shard, buf, drain_batch, drain_batch);
}

/// Tops up `buf` by stealing from shards other than `home`, within the budgets.
/// Victims are tried in turn, starting under `victim_cursor`; returns the advanced
/// cursor.
pub fn steal<T>(
    shards: &mut Vec<Shard<T>>,
    home: usize,
    victim_cursor: usize,
    buf: &mut Vec<T>,
    drain_batch: usize,
    max_victims: usize,
    max_items_per_victim: usize,
) -> (cursor: usize)
    requires
        all_wf(views(old(shards)@)),
    ensures
        (Haul { shards: views(final(shards)@), batch: final(buf)@, cursor }) == (Haul {
            shards: views(old(shards)@),
            batch: old(buf)@,
            cursor: victim_cursor,
        }).stolen(
            home as int,
            drain_batch as nat,
            max_victims as nat,
            max_items_per_victim as nat,
            old(shards)@.len(),
        ),
        final(shards)@.len() == old(shards)@.len(),
        all_wf(views(final(shards)@)),
{
    let count = shards.len();
    let mut cursor: usize = victim_cursor;
    let mut victims_tried: usize = 0;
    let mut probes: usize = 0;
    let ghost start = Haul { shards: views(shards@), batch: buf@, cursor };
    // `probes < count` bounds the loop, so skipping the home shard can never spin.
    while victims_tried < max_victims && probes < count && buf.len() < drain_batch
        invariant
            count == shards@.len(),
            victims_tried <= max_victims,
            probes <= count,
            all_wf(views(shards@)),
            start.stolen(
                home as int,
                drain_batch as nat,
                max_victims as nat,
                max_items_per_victim as nat,
                count as nat,
            ) == (Haul { shards: views(shards@), batch: buf@, cursor }).stolen(
                home as int,
                drain_batch as nat,
                (max_victims - victims_tried) as nat,
                max_items_per_victim as nat,
                (count - probes) as nat,
            ),
        decreases count - probes,
    {
        let ghost here = Haul { shards: views(shards@), batch: buf@, cursor };
        let victim = cursor % count;
        cursor = cursor.wrapping_add(1);
        probes += 1;
        if victim == home {
            continue;
        }
        victims_tried += 1;
        assert(shards@[victim as int]@ == views(shards@)[victim as int]);
        take_up_to(&mut shards[victim], buf, drain_batch, max_items_per_victim);
        assert((Haul { shards: views(shards@), batch: buf@, cursor }) =~= here.robbed(
            drain_batch as nat,
            max_items_per_victim as nat,
        ));
    }
    cursor
}

/// Tops up `buf` from other shards if it is underfilled and stealing is on;
/// returns the victim cursor.
pub fn maybe_steal<T>(
    shards: &mut Vec<Shard<T>>,
    home: usize,
    victim_cursor: usize,
    buf: &mut Vec<T>,
    drain_batch: usize,
    work_stealing: NormalizedWorkStealing,
) -> (cursor: usize)
    requires
        all_wf(views(old(shards)@)),
    ensures
        (Haul { shards: views(final(shards)@), batch: final(buf)@, cursor }) == (Haul {
            shards: views(old(shards)@),
            batch: old(buf)@,
            cursor: victim_cursor,
        }).topped_up(home as int, drain_batch as nat, work_stealing),
        final(shards)@.len() == old(shards)@.len(),
        all_wf(views(final(shards)@)),
{
    if buf.len() < drain_batch {
        if let NormalizedWorkStealing::Opportunistic {
            max_victims_per_idle_tick,
            max_items_per_victim,
        } = work_stealing {
            return steal(
                shards,
                home,
                victim_cursor,
                buf,
                drain_batch,
                max_victims_per_idle_tick,
                max_items_per_victim,
            );
        }
    }
    victim_cursor
}

/// Where a worker is in its life.
#[derive(Debug, Clone, Copy, PartialEq, Eq, Structural)]
pub enum WorkerPhase {
    /// Polling its shard, and stealing if it may.
    Polling,
    /// Emptying its own shard for good, without stealing, so that each shard has
    /// exactly one final owner.
    Finishing,
    /// Done.
    Stopped,
}

/// What a worker wants done next.
#[derive(Debug, Clone, Copy, PartialEq, Eq, Structural)]
pub enum WorkerAction {
    /// Hand the batch to the sink action, then finish the batch.
    Drain,
    /// Sleep, or be woken by cancellation.
    Sleep,
    /// Leave: the worker is done.
    Exit,
}

/// How the sink action ended.
#[derive(Debug, Clone, Copy, PartialEq, Eq, Structural)]
pub enum DrainOutcome {
    /// It returned.
    Completed,
    /// It panicked.
    Panicked,
}

/// The state of a worker.
#[verifier::ext_equal]
pub struct WorkerView<T> {
    /// The shard that the worker drains first, and alone at the end.
    pub home: usize,
    /// The most items in a batch.
    pub limit: usize,
    /// The stealing policy.
    pub stealing: NormalizedWorkStealing,
    /// Where the next victim is looked for.
    pub cursor: usize,
    /// The items taken out and not yet handed on.
    pub batch: Seq<T>,
    /// Where the worker is in its life.
    pub phase: WorkerPhase,
}

/// The outcome of a poll.
#[verifier::ext_equal]
pub struct Polled<T> {
    /// The worker after it.
    pub worker: WorkerView<T>,
    /// The shards after it.
    pub shards: Seq<ShardView<T>>,
    /// What is to be done next.
    pub action: WorkerAction,
}

impl<T> WorkerView<T> {
    /// After the batch was handed to the sink action: the worker goes on with an empty one.
    pub open spec fn handed(self) -> WorkerView<T> {
        WorkerView { batch: Seq::empty(), ..self }
    }

    /// What a poll does. As long as nothing is cancelled the worker drains its own
    /// shard and tops the batch up from others; it then has a batch to hand on, or
    /// sleeps. From the first poll that finds the sink cancelled it drains its own
    /// shard only, and stops once a poll finds that shard empty.
    pub open spec fn polled(self, shards: Seq<ShardView<T>>, cancelled: bool) -> Polled<T> {
        let start = Haul { shards, batch: self.batch, cursor: self.cursor };
        let own = start.burst(self.home as int, self.limit as nat);
        match self.phase {
            WorkerPhase::Stopped => Polled { worker: self, shards, action: WorkerAction::Exit },
            WorkerPhase::Polling if !cancelled => {
                let all = own.topped_up(self.home as int, self.limit as nat, self.stealing);
                Polled {
                    worker: WorkerView { batch: all.batch, cursor: all.cursor, ..self },
                    shards: all.shards,
                    action: if all.batch.len() == 0 {
                        WorkerAction::Sleep
                    } else {
                        WorkerAction::Drain
                    },
                }
            },
            _ => {
                let empty = own.batch.len() == 0;
                Polled {
                    worker: WorkerView {
                        batch: own.batch,
                        phase: if empty {
                            WorkerPhase::Stopped
                        } else {
                            WorkerPhase::Finishing
                        },
                        ..self
                    },
                    shards: own.shards,
                    action: if empty {
                        WorkerAction::Exit
                    } else {
                        WorkerAction::Drain
                    },
                }
            },
        }
    }
}

/// Room for a batch of this many items of type `T` can be allocated.
pub open spec fn batch_fits<T>(limit: nat) -> bool {
    limit * vstd::layout::size_of::<T>() <= isize::MAX
}

/// Where a ring can be allocated, so can room for a batch that is no larger.
pub proof fn lemma_batch_of_ring_fits<T>(limit: nat, capacity: nat)
    requires
        limit <= capacity,
        ring_fits::<T>(capacity),
    ensures
        batch_fits::<T>(limit),
{
    let (size, slot) = (vstd::layout::size_of::<T>(), slot_bytes::<T>());
    assert(limit * size <= capacity * slot) by (nonlinear_arith)
        requires
            limit <= capacity,
            size <= slot,
    ;
}

/// The drain worker of one shard.
pub struct Worker<T> {
    home: usize,
    drain_batch: usize,
    work_stealing: NormalizedWorkStealing,
    victim_cursor: usize,
    buf: Vec<T>,
    phase: WorkerPhase,
}

impl<T> View for Worker<T> {
    type V = WorkerView<T>;

    closed spec fn view(&self) -> WorkerView<T> {
        WorkerView {
            home: self.home,
            limit: self.drain_batch,
            stealing: self.work_stealing,
            cursor: self.victim_cursor,
            batch: self.buf@,
            phase: self.phase,
        }
    }
}

impl<T> Worker<T> {
    /// The worker of shard `home`, with an empty batch; it looks for victims from
    /// the next shard on. Room for a full batch is allocated up front.
    pub fn new(home: usize, drain_batch: usize, work_stealing: NormalizedWorkStealing) -> (worker:
        Worker<T>)
        requires
            batch_fits::<T>(drain_batch as nat),
        ensures
            worker@ == (WorkerView {
                home,
                limit: drain_batch,
                stealing: work_stealing,
                cursor: advanced(home),
                batch: Seq::<T>::empty(),
                phase: WorkerPhase::Polling,
            }),
    {
        Worker {
            home,
            drain_batch,
            work_stealing,
            victim_cursor: home.wrapping_add(1),
            buf: Vec::with_capacity(drain_batch),
            phase: WorkerPhase::Polling,
        }
    }

    /// One turn of the worker: takes a batch out of the shards and says what is to
    /// be done next.
    pub fn poll(&mut self, shards: &mut Vec<Shard<T>>, cancelled: bool) -> (action: WorkerAction)
        requires
            old(self)@.home < old(shards)@.len(),
            all_wf(views(old(shards)@)),
        ensures
            (Polled { worker: final(self)@, shards: views(final(shards)@), action }) == old(
                self,
            )@.polled(views(old(shards)@), cancelled),
            old(self)@.phase == WorkerPhase::Polling && !cancelled ==> {
                &&& final(self)@.phase == WorkerPhase::Polling
                &&& action == if final(self)@.batch.len() == 0 {
                    WorkerAction::Sleep
                } else {
                    WorkerAction::Drain
                }
            },
            final(shards)@.len() == old(shards)@.len(),
            all_wf(views(final(shards)@)),
    {
        let home = self.home;
        if self.phase == WorkerPhase::Stopped {
            return WorkerAction::Exit;
        }
        let ghost start = Haul {
            shards: views(shards@),
            batch: self.buf@,
            cursor: self.victim_cursor,
        };
        assert(shards@[home as int]@ == views(shards@)[home as int]);
        drain_burst(&mut shards[home], &mut self.buf, self.drain_batch);
        assert((Haul { shards: views(shards@), batch: self.buf@, cursor: self.victim_cursor })
            =~= start.burst(home as int, self.drain_batch as nat));
        if self.phase == WorkerPhase::Polling && !cancelled {
            self.victim_cursor = maybe_steal(
                shards,
                home,
                self.victim_cursor,
                &mut self.buf,
                self.drain_batch,
                self.work_stealing,
            );
            if self.buf.is_empty() {
                WorkerAction::Sleep
            } else {
                WorkerAction::Drain
            }
        } else if self.buf.is_empty() {
            self.phase = WorkerPhase::Stopped;
            WorkerAction::Exit
        } else {
            self.phase = WorkerPhase::Finishing;
            WorkerAction::Drain
        }
    }

    /// The batch, for the sink action.
    pub fn batch_mut(&mut self) -> (batch: &mut Vec<T>)
        ensures
            batch@ == old(self)@.batch,
            final(self)@ == (WorkerView { batch: final(batch)@, ..old(self)@ }),
    {
        &mut self.buf
    }

    /// Ends the batch, however the sink action ended: the worker goes on with an
    /// empty one. A batch whose drain panicked is lost, which the caller is told to
    /// report.
    pub fn finish_batch(&mut self, outcome: DrainOutcome) -> (report: bool)
        ensures
            final(self)@ == (WorkerView { batch: Seq::<T>::empty(), ..old(self)@ }),
            final(self)@ == old(self)@.handed(),
            report == (outcome == DrainOutcome::Panicked),
    {
        self.buf.clear();
        outcome == DrainOutcome::Panicked
    }
}

/// A worker stops, and asks to exit, only on account of cancellation: a turn that finds nothing
/// cancelled leaves a polling worker polling, and it sleeps if it then has an empty batch, and
/// has its batch drained if not, whatever its stealing policy.
pub proof fn workers_run_until_cancelled<T>(worker: WorkerView<T>, shards: Seq<ShardView<T>>)
    requires
        worker.phase == WorkerPhase::Polling,
    ensures
        ({
            let polled = worker.polled(shards, false);
            &&& polled.worker.phase == WorkerPhase::Polling
            &&& polled.action == WorkerAction::Sleep <==> polled.worker.batch.len() == 0
            &&& polled.action == WorkerAction::Drain <==> polled.worker.batch.len() > 0
        }),
{
}

/// A cancelled worker empties its own shard for good: each turn that finds the sink cancelled,
/// and each one after that, takes items from its own shard only, oldest first, until the batch
/// is full or the shard is empty. It has a batch drained as long as there is one, and stops
/// when there is none, so the shard is then empty. The victim cursor stays where it is.
pub proof fn cancelled_workers_empty_their_shard<T>(
    worker: WorkerView<T>,
    shards: Seq<ShardView<T>>,
    cancelled: bool,
)
    requires
        worker.home < shards.len(),
        worker.limit > 0,
        worker.phase == WorkerPhase::Finishing || (worker.phase == WorkerPhase::Polling
            && cancelled),
    ensures
        ({
            let polled = worker.polled(shards, cancelled);
            let home = worker.home as int;
            let (before, after) = (shards[home], polled.shards[home]);
            let batch = polled.worker.batch;
            &&& batch + after.items == worker.batch + before.items
            &&& after.capacity == before.capacity
            &&& after.dropped == before.dropped
            &&& batch.len() >= worker.batch.len()
            &&& batch.len() >= worker.limit || after.items.len() == 0
            &&& batch.len() <= worker.limit || batch == worker.batch
            &&& polled.shards.len() == shards.len()
            &&& forall|i: int|
                0 <= i < shards.len() && i != home ==> (#[trigger] polled.shards[i]) == shards[i]
            &&& polled.worker.cursor == worker.cursor
            &&& batch.len() > 0 ==> polled.action == WorkerAction::Drain && polled.worker.phase
                == WorkerPhase::Finishing
            &&& batch.len() == 0 ==> polled.action == WorkerAction::Exit && polled.worker.phase
                == WorkerPhase::Stopped && after.items.len() == 0
        }),
{
    bursts_fill_the_batch_or_empty_the_shard(
        Haul { shards, batch: worker.batch, cursor: worker.cursor },
        worker.home as int,
        worker.limit as nat,
    );
}

/// A worker that has stopped touches nothing, and stays so.
pub proof fn stopped_workers_stay_stopped<T>(
    worker: WorkerView<T>,
    shards: Seq<ShardView<T>>,
    cancelled: bool,
)
    requires
        worker.phase == WorkerPhase::Stopped,
    ensures
        worker.polled(shards, cancelled).worker == worker,
        worker.polled(shards, cancelled).shards == shards,
        worker.polled(shards, cancelled).action == WorkerAction::Exit,
{
}

/// A worker keeps its shard, its limit and its policy, and its batch once taken, whatever
/// happens to it; handing its batch on empties the batch and changes nothing else.
pub proof fn workers_keep_their_orders<T>(
    worker: WorkerView<T>,
    shards: Seq<ShardView<T>>,
    cancelled: bool,
)
    requires
        worker.home < shards.len(),
    ensures
        ({
            let after = worker.polled(shards, cancelled).worker;
            &&& after.home == worker.home
            &&& after.limit == worker.limit
            &&& after.stealing == worker.stealing
            &&& worker.batch.is_prefix_of(after.batch)
        }),
        worker.handed().batch.len() == 0,
        worker.handed().home == worker.home,
        worker.handed().limit == worker.limit,
        worker.handed().stealing == worker.stealing,
        worker.handed().cursor == worker.cursor,
        worker.handed().phase == worker.phase,
{
    let own = (Haul { shards, batch: worker.batch, cursor: worker.cursor }).burst(
        worker.home as int,
        worker.limit as nat,
    );
    assert(worker.batch.is_prefix_of(own.batch));
    if let NormalizedWorkStealing::Opportunistic {
        max_victims_per_idle_tick,
        max_items_per_victim,
    } = worker.stealing {
        stealing_is_bounded(
            own,
            worker.home as int,
            worker.limit as nat,
            max_victims_per_idle_tick as nat,
            max_items_per_victim as nat,
            own.shards.len(),
        );
    }
}

/// A turn of a polling worker takes all it may: first the oldest items of its own shard, until
/// the batch is full or the shard is empty; then, if stealing is on, what the shards from the
/// victim cursor on give within the budgets. `own` is where the first part ends. This holds of
/// any cursor from which the shards come up in turn.
pub proof fn turns_take_all_they_may<T>(worker: WorkerView<T>, shards: Seq<ShardView<T>>) -> (ret: (
    Haul<T>,
    Seq<nat>,
))
    requires
        worker.phase == WorkerPhase::Polling,
        worker.home < shards.len(),
        in_turn(worker.cursor, shards.len(), shards.len()),
    ensures
        ({
            let (own, gifts) = ret;
            let polled = worker.polled(shards, false);
            let home = worker.home as int;
            let end = Haul {
                shards: polled.shards,
                batch: polled.worker.batch,
                cursor: polled.worker.cursor,
            };
            &&& own.batch + own.shards[home].items == worker.batch + shards[home].items
            &&& own.shards[home].capacity == shards[home].capacity
            &&& own.shards[home].dropped == shards[home].dropped
            &&& own.batch.len() >= worker.batch.len()
            &&& own.batch.len() >= worker.limit || own.shards[home].items.len() == 0
            &&& own.batch.len() <= worker.limit || own.batch == worker.batch
            &&& own.cursor == worker.cursor
            &&& own.shards.len() == shards.len()
            &&& forall|i: int|
                0 <= i < shards.len() && i != home ==> (#[trigger] own.shards[i]) == shards[i]
            &&& worker.stealing == NormalizedWorkStealing::Off ==> end == own
            &&& (worker.stealing matches NormalizedWorkStealing::Opportunistic {
                max_victims_per_idle_tick,
                max_items_per_victim,
            } ==> (Raid {
                start: own,
                home,
                limit: worker.limit as nat,
                victims: max_victims_per_idle_tick as nat,
                most: max_items_per_victim as nat,
                gifts,
                end,
            }).proper())
        }),
{
    let start = Haul { shards, batch: worker.batch, cursor: worker.cursor };
    let (home, limit) = (worker.home as int, worker.limit as nat);
    let own = start.burst(home, limit);
    bursts_fill_the_batch_or_empty_the_shard(start, home, limit);
    (own, topping_up_takes_all_it_may(own, home, limit, worker.stealing))
}

/// An idle worker helps out: if its own shard is empty and the first other shard from its
/// victim cursor on holds an item, a turn of a worker that may steal takes the oldest item of
/// that shard, and has it drained.
pub proof fn idle_workers_help_out<T>(
    worker: WorkerView<T>,
    shards: Seq<ShardView<T>>,
    shard: int,
)
    requires
        worker.phase == WorkerPhase::Polling,
        worker.limit > 0,
        worker.batch.len() == 0,
        worker.home < shards.len(),
        shards[worker.home as int].items.len() == 0,
        worker.stealing matches NormalizedWorkStealing::Opportunistic {
            max_victims_per_idle_tick,
            max_items_per_victim,
        } && max_victims_per_idle_tick > 0 && max_items_per_victim > 0,
        0 <= shard < shards.len(),
        shard != worker.home,
        shard == worker.cursor as int % shards.len() as int || (worker.cursor as int
            % shards.len() as int == worker.home && shard == advanced(worker.cursor) as int
            % shards.len() as int),
        shards[shard].items.len() > 0,
    ensures
        worker.polled(shards, false).action == WorkerAction::Drain,
        worker.polled(shards, false).worker.batch.len() > 0,
        worker.polled(shards, false).worker.batch[0] == shards[shard].items[0],
{
    let own = (Haul { shards, batch: worker.batch, cursor: worker.cursor }).burst(
        worker.home as int,
        worker.limit as nat,
    );
    the_next_shard_helps_out(own, worker.home as int, worker.limit as nat, worker.stealing, shard);
}

} // verus!
