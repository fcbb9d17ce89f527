//! What holds of a whole sink over time, whoever does what in which order.
//!
//! A sink, its workers and its producers run as a series of steps: a push, a poll of
//! a worker, or a worker handing its batch to the sink action. A poll may also fall
//! apart into single pops, between which anything else may happen. Any series counts,
//! so what is proved here holds of every interleaving of producers and workers.

use vstd::multiset::Multiset;
use vstd::prelude::*;
use vstd::seq_lib::lemma_multiset_commutative;

use crate::config::{NormalizedConfig, NormalizedWorkStealing};
use crate::haul::{
    hauling_conserves, hauling_thins, lemma_pooled_update, lemma_taking_conserves,
    lemma_taking_thins, lemma_unchanged_is_thinned, pooled, rings, stealing_is_bounded,
    stealing_spares_home, thinned, Haul,
};
use crate::shard::ShardView;
use crate::sink::{
    fresh_shard, fresh_worker, pushed_to, shown, total_dropped, totals_are_sums,
};
use crate::worker::{WorkerAction, WorkerPhase, WorkerView};

verus! {

/// One step of a running sink.
pub enum Step<T> {
    /// A producer pushes an item to a shard.
    Push {
        /// The shard.
        shard: int,
        /// The item.
        item: T,
    },
    /// A worker takes its turn.
    Poll {
        /// The worker.
        worker: int,
        /// Whether it finds the sink cancelled.
        cancelled: bool,
    },
    /// A worker moves the oldest item of a shard, if there is one, into its batch; a
    /// worker that has stopped moves nothing.
    Pop {
        /// The worker.
        worker: int,
        /// The shard.
        shard: int,
    },
    /// A worker hands its batch to the sink action and starts an empty one.
    Hand {
        /// The worker.
        worker: int,
    },
}

/// A running sink and its history.
#[verifier::ext_equal]
pub struct Flow<T> {
    /// What each shard holds.
    pub shards: Seq<ShardView<T>>,
    /// The worker of each shard.
    pub workers: Seq<WorkerView<T>>,
    /// The items that each shard's ring accepted.
    pub entered: Seq<Seq<T>>,
    /// The items that pushes were called with.
    pub attempted: Seq<T>,
    /// The items of the pushes that returned `true`.
    pub accepted: Seq<T>,
    /// The items of the pushes that returned `false`.
    pub rejected: Seq<T>,
    /// The items that the sink action was given.
    pub delivered: Seq<T>,
    /// The items that each worker handed to the sink action.
    pub handed: Seq<Seq<T>>,
}

/// The items that each worker holds.
pub open spec fn batches<T>(workers: Seq<WorkerView<T>>) -> Seq<Seq<T>> {
    Seq::new(workers.len(), |i: int| workers[i].batch)
}

impl<T> Flow<T> {
    /// A sink of this configuration to which nothing has happened yet.
    pub open spec fn start(cfg: NormalizedConfig) -> Flow<T> {
        Flow {
            shards: Seq::new(cfg.shards as nat, |i: int| fresh_shard::<T>(cfg)),
            workers: Seq::new(cfg.shards as nat, |i: int| fresh_worker::<T>(cfg, i as usize)),
            entered: Seq::new(cfg.shards as nat, |i: int| Seq::empty()),
            attempted: Seq::empty(),
            accepted: Seq::empty(),
            rejected: Seq::empty(),
            delivered: Seq::empty(),
            handed: Seq::new(cfg.shards as nat, |i: int| Seq::empty()),
        }
    }

    /// The step speaks of a shard or worker that there is.
    pub open spec fn can(self, step: Step<T>) -> bool {
        match step {
            Step::Push { shard, .. } => 0 <= shard < self.shards.len(),
            Step::Poll { worker, .. } => 0 <= worker < self.workers.len(),
            Step::Pop { worker, shard } => 0 <= worker < self.workers.len() && 0 <= shard
                < self.shards.len(),
            Step::Hand { worker } => 0 <= worker < self.workers.len(),
        }
    }

    /// How many items a pop moves.
    pub open spec fn popped(self, worker: int, shard: int) -> int {
        if self.workers[worker].phase == WorkerPhase::Stopped || self.shards[shard].items.len()
            == 0 {
            0
        } else {
            1
        }
    }

    /// After a step.
    pub open spec fn after(self, step: Step<T>) -> Flow<T> {
        match step {
            Step::Push { shard, item } => {
                let taken = self.shards[shard].accepts();
                Flow {
                    shards: pushed_to(self.shards, shard, item),
                    entered: if taken {
                        self.entered.update(shard, self.entered[shard].push(item))
                    } else {
                        self.entered
                    },
                    attempted: self.attempted.push(item),
                    accepted: if taken {
                        self.accepted.push(item)
                    } else {
                        self.accepted
                    },
                    rejected: if taken {
                        self.rejected
                    } else {
                        self.rejected.push(item)
                    },
                    ..self
                }
            },
            Step::Poll { worker, cancelled } => {
                let polled = self.workers[worker].polled(self.shards, cancelled);
                Flow {
                    shards: polled.shards,
                    workers: self.workers.update(worker, polled.worker),
                    ..self
                }
            },
            Step::Pop { worker, shard } => {
                let popping = self.workers[worker];
                let n = self.popped(worker, shard);
                Flow {
                    shards: self.shards.update(shard, self.shards[shard].take(n)),
                    workers: self.workers.update(
                        worker,
                        WorkerView {
                            batch: popping.batch + self.shards[shard].items.take(n),
                            ..popping
                        },
                    ),
                    ..self
                }
            },
            Step::Hand { worker } => {
                let handing = self.workers[worker];
                Flow {
                    workers: self.workers.update(worker, handing.handed()),
                    delivered: self.delivered + handing.batch,
                    handed: self.handed.update(worker, self.handed[worker] + handing.batch),
                    ..self
                }
            },
        }
    }

    /// Each step of the series speaks of a shard or worker that there is.
    pub open spec fn can_all(self, steps: Seq<Step<T>>) -> bool {
        forall|i: int| 0 <= i < steps.len() ==> self.can(#[trigger] steps[i])
    }

    /// After a series of steps.
    pub open spec fn after_all(self, steps: Seq<Step<T>>) -> Flow<T>
        decreases steps.len(),
    {
        if steps.len() == 0 {
            self
        } else {
            self.after_all(steps.drop_last()).after(steps.last())
        }
    }

    /// There is one worker for each shard, whose batches can hold something.
    pub open spec fn paired(self) -> bool {
        &&& self.workers.len() == self.shards.len()
        &&& forall|i: int|
            0 <= i < self.workers.len() ==> (#[trigger] self.workers[i]).home == i
                && self.workers[i].limit > 0
    }

    /// Each accepted item is in exactly one place: in a ring, in a worker's batch, or
    /// with the sink action.
    pub open spec fn conserved(self) -> bool {
        self.accepted.to_multiset() == pooled(rings(self.shards)).add(
            pooled(batches(self.workers)),
        ).add(self.delivered.to_multiset())
    }

    /// Each push was either accepted or rejected, and the drop counters show how many
    /// were rejected.
    pub open spec fn accounted(self) -> bool {
        &&& self.attempted.len() == self.accepted.len() + self.rejected.len()
        &&& self.attempted.to_multiset() == self.accepted.to_multiset().add(
            self.rejected.to_multiset(),
        )
        &&& shown(total_dropped(self.shards)) == shown(self.rejected.len())
    }

    /// What a ring holds is what it accepted last, in the order of the pushes: items
    /// leave a ring in the order in which they entered it.
    pub open spec fn ordered(self) -> bool {
        &&& self.entered.len() == self.shards.len()
        &&& forall|i: int|
            0 <= i < self.shards.len() ==> (#[trigger] self.shards[i]).items.is_suffix_of(
                self.entered[i],
            )
    }

    /// Every ring is within its bounds.
    pub open spec fn bounded(self) -> bool {
        crate::shard::all_wf(self.shards)
    }

    /// A worker that has stopped left nothing behind: neither in its batch nor in its
    /// shard.
    pub open spec fn settled(self) -> bool {
        forall|i: int|
            0 <= i < self.workers.len() && (#[trigger] self.workers[i]).phase
                == WorkerPhase::Stopped ==> self.workers[i].batch.len() == 0
                && self.shards[i].items.len() == 0
    }

    /// No worker has stopped.
    pub open spec fn running(self) -> bool {
        forall|i: int|
            0 <= i < self.workers.len() ==> (#[trigger] self.workers[i]).phase
                != WorkerPhase::Stopped
    }

    /// Every worker has stopped.
    pub open spec fn stopped(self) -> bool {
        forall|i: int|
            0 <= i < self.workers.len() ==> (#[trigger] self.workers[i]).phase
                == WorkerPhase::Stopped
    }
}

impl<T> Step<T> {
    /// The worker takes items out of shards.
    pub open spec fn takes(self, by: int) -> bool {
        match self {
            Step::Poll { worker, .. } => worker == by,
            Step::Pop { worker, .. } => worker == by,
            _ => false,
        }
    }
}

proof fn lemma_taking<T>(flow: Flow<T>, step: Step<T>, worker: int)
    requires
        flow.paired(),
        flow.can(step),
        step.takes(worker),
    ensures
        ({
            let next = flow.after(step);
            &&& next.paired()
            &&& next.workers == flow.workers.update(worker, next.workers[worker])
            &&& thinned(flow.shards, next.shards)
            &&& pooled(rings(next.shards)).add(next.workers[worker].batch.to_multiset()) == pooled(
                rings(flow.shards),
            ).add(flow.workers[worker].batch.to_multiset())
        }),
{
    let w = flow.workers[worker];
    match step {
        Step::Poll { worker: _, cancelled } => {
            let haul = Haul { shards: flow.shards, batch: w.batch, cursor: w.cursor };
            hauling_thins(haul, w.home as int, w.limit as nat, w.stealing);
            hauling_conserves(haul, w.home as int, w.limit as nat, w.stealing);
            lemma_unchanged_is_thinned(flow.shards);
        },
        Step::Pop { worker: _, shard } => {
            let n = flow.popped(worker, shard);
            lemma_taking_thins(flow.shards, shard, n);
            lemma_taking_conserves(flow.shards, shard, n, w.batch);
        },
        _ => {},
    }
}

proof fn lemma_paired<T>(flow: Flow<T>, steps: Seq<Step<T>>)
    requires
        flow.paired(),
        flow.can_all(steps),
    ensures
        flow.after_all(steps).paired(),
        flow.after_all(steps).shards.len() == flow.shards.len(),
    decreases steps.len(),
{
    if steps.len() > 0 {
        let last = steps.last();
        assert(flow.can(steps[steps.len() - 1]));
        assert forall|i: int| 0 <= i < steps.drop_last().len() implies flow.can(
            #[trigger] steps.drop_last()[i],
        ) by {
            assert(flow.can(steps[i]));
        }
        lemma_paired(flow, steps.drop_last());
        let flow = flow.after_all(steps.drop_last());
        match last {
            Step::Poll { worker, .. } => lemma_taking(flow, last, worker),
            Step::Pop { worker, .. } => lemma_taking(flow, last, worker),
            _ => {},
        }
    }
}

proof fn lemma_conserved_taking<T>(flow: Flow<T>, step: Step<T>, worker: int)
    requires
        flow.paired(),
        flow.can(step),
        step.takes(worker),
        flow.conserved(),
    ensures
        flow.after(step).conserved(),
{
    let next = flow.after(step);
    let (r0, b0, d0) = (
        pooled(rings(flow.shards)),
        pooled(batches(flow.workers)),
        flow.delivered.to_multiset(),
    );
    let (r1, b1) = (pooled(rings(next.shards)), pooled(batches(next.workers)));
    lemma_taking(flow, step, worker);
    let (before, after) = (flow.workers[worker].batch, next.workers[worker].batch);
    assert(batches(next.workers) =~= batches(flow.workers).update(worker, after));
    lemma_pooled_update(batches(flow.workers), worker, after);
    assert forall|x: T| next.accepted.to_multiset().count(x) == r1.add(b1).add(d0).count(x) by {
        assert(b1.add(before.to_multiset()).count(x) == b0.add(after.to_multiset()).count(x));
        assert(r1.add(after.to_multiset()).count(x) == r0.add(before.to_multiset()).count(x));
        assert(flow.accepted.to_multiset().count(x) == r0.add(b0).add(d0).count(x));
    }
    assert(next.accepted.to_multiset() =~= r1.add(b1).add(d0));
}

proof fn lemma_conserved_step<T>(flow: Flow<T>, step: Step<T>)
    requires
        flow.paired(),
        flow.can(step),
        flow.conserved(),
    ensures
        flow.after(step).conserved(),
{
    let next = flow.after(step);
    let (r0, b0, d0) = (
        pooled(rings(flow.shards)),
        pooled(batches(flow.workers)),
        flow.delivered.to_multiset(),
    );
    let (r1, b1, d1) = (
        pooled(rings(next.shards)),
        pooled(batches(next.workers)),
        next.delivered.to_multiset(),
    );
    match step {
        Step::Push { shard, item } => {
            let items = flow.shards[shard].items;
            if flow.shards[shard].accepts() {
                assert(rings(next.shards) =~= rings(flow.shards).update(shard, items.push(item)));
                lemma_pooled_update(rings(flow.shards), shard, items.push(item));
                items.to_multiset_ensures();
                flow.accepted.to_multiset_ensures();
                assert forall|x: T|
                    next.accepted.to_multiset().count(x) == r1.add(b1).add(d1).count(x) by {
                    assert(r1.add(items.to_multiset()).count(x) == r0.add(
                        items.push(item).to_multiset(),
                    ).count(x));
                    assert(flow.accepted.to_multiset().count(x) == r0.add(b0).add(d0).count(x));
                }
            } else {
                assert(rings(next.shards) =~= rings(flow.shards));
            }
        },
        Step::Poll { worker, .. } => lemma_conserved_taking(flow, step, worker),
        Step::Pop { worker, .. } => lemma_conserved_taking(flow, step, worker),
        Step::Hand { worker } => {
            let batch = flow.workers[worker].batch;
            let none = Seq::<T>::empty();
            assert(batches(next.workers) =~= batches(flow.workers).update(worker, none));
            lemma_pooled_update(batches(flow.workers), worker, none);
            lemma_multiset_commutative(flow.delivered, batch);
            none.to_multiset_ensures();
            assert forall|x: T|
                next.accepted.to_multiset().count(x) == r1.add(b1).add(d1).count(x) by {
                assert(b1.add(batch.to_multiset()).count(x) == b0.add(none.to_multiset()).count(
                    x,
                ));
                assert(flow.accepted.to_multiset().count(x) == r0.add(b0).add(d0).count(x));
            }
        },
    }
    assert(next.accepted.to_multiset() =~= r1.add(b1).add(d1));
}

proof fn lemma_nothing_pooled<T>(parts: Seq<Seq<T>>)
    requires
        forall|i: int| 0 <= i < parts.len() ==> (#[trigger] parts[i]).len() == 0,
    ensures
        pooled(parts) == Multiset::<T>::empty(),
    decreases parts.len(),
{
    if parts.len() > 0 {
        lemma_nothing_pooled(parts.drop_last());
        assert(parts.last() =~= Seq::<T>::empty());
        parts.last().to_multiset_ensures();
        assert(pooled(parts) =~= Multiset::<T>::empty());
    }
}

proof fn lemma_start<T>(cfg: NormalizedConfig)
    requires
        cfg.wf(),
    ensures
        Flow::<T>::start(cfg).paired(),
        Flow::<T>::start(cfg).conserved(),
        Flow::<T>::start(cfg).accounted(),
        Flow::<T>::start(cfg).ordered(),
        Flow::<T>::start(cfg).bounded(),
{
    let flow = Flow::<T>::start(cfg);
    let none = Seq::<T>::empty();
    none.to_multiset_ensures();
    lemma_nothing_pooled(rings(flow.shards));
    lemma_nothing_pooled(batches(flow.workers));
    assert(none.to_multiset() =~= Multiset::empty());
    assert(flow.accepted.to_multiset() =~= pooled(rings(flow.shards)).add(
        pooled(batches(flow.workers)),
    ).add(flow.delivered.to_multiset()));
    assert(flow.attempted.to_multiset() =~= flow.accepted.to_multiset().add(
        flow.rejected.to_multiset(),
    ));
    lemma_none_dropped(flow.shards);
}

proof fn lemma_none_dropped<T>(shards: Seq<ShardView<T>>)
    requires
        forall|i: int| 0 <= i < shards.len() ==> (#[trigger] shards[i]).dropped == 0,
    ensures
        total_dropped(shards) == 0,
    decreases shards.len(),
{
    if shards.len() > 0 {
        lemma_none_dropped(shards.drop_last());
    }
}

proof fn lemma_total_update<T>(shards: Seq<ShardView<T>>, i: int, shard: ShardView<T>)
    requires
        0 <= i < shards.len(),
    ensures
        total_dropped(shards.update(i, shard)) + shards[i].dropped == total_dropped(shards)
            + shard.dropped,
{
    totals_are_sums(shards, i, shard);
}

proof fn lemma_total_thinned<T>(before: Seq<ShardView<T>>, after: Seq<ShardView<T>>)
    requires
        thinned(before, after),
    ensures
        total_dropped(after) == total_dropped(before),
    decreases before.len(),
{
    if before.len() > 0 {
        let last = before.len() - 1;
        assert(after[last].dropped == before[last].dropped);
        assert forall|i: int| 0 <= i < last implies ({
            let lost = before.drop_last()[i].items.len() - (
            #[trigger] after.drop_last()[i]).items.len();
            &&& 0 <= lost
            &&& after.drop_last()[i] == before.drop_last()[i].take(lost)
        }) by {
            assert(after[i].items.len() <= before[i].items.len());
        }
        lemma_total_thinned(before.drop_last(), after.drop_last());
    }
}

/// A rejected push counts exactly one drop, on the shard that rejected it; an
/// accepted push touches no counter.
pub proof fn rejections_count_once<T>(shards: Seq<ShardView<T>>, shard: int, item: T)
    requires
        0 <= shard < shards.len(),
    ensures
        ({
            let after = shards.update(shard, shards[shard].push(item));
            let one: nat = if shards[shard].accepts() {
                0
            } else {
                1
            };
            &&& shown(total_dropped(after)) == shown(total_dropped(shards) + one)
            &&& after[shard].dropped == shown(shards[shard].dropped as nat + one)
            &&& forall|i: int|
                0 <= i < shards.len() && i != shard ==> (#[trigger] after[i]) == shards[i]
        }),
{
    lemma_total_update(shards, shard, shards[shard].push(item));
}

/// Counters that show the same number show the same one after one more drop.
proof fn lemma_shown_next(a: nat, b: nat)
    requires
        shown(a) == shown(b),
    ensures
        shown(a + 1) == shown(b + 1),
{
}

proof fn lemma_ledger_push<T>(flow: Flow<T>, shard: int, item: T)
    requires
        flow.can(Step::Push { shard, item }),
        flow.accounted(),
    ensures
        flow.after(Step::Push { shard, item }).accounted(),
{
    let next = flow.after(Step::Push { shard, item });
    rejections_count_once(flow.shards, shard, item);
    lemma_shown_next(total_dropped(flow.shards), flow.rejected.len());
    flow.attempted.to_multiset_ensures();
    flow.accepted.to_multiset_ensures();
    flow.rejected.to_multiset_ensures();
    assert(next.attempted.to_multiset() =~= next.accepted.to_multiset().add(
        next.rejected.to_multiset(),
    ));
}

proof fn lemma_ledger_step<T>(flow: Flow<T>, step: Step<T>)
    requires
        flow.paired(),
        flow.can(step),
        flow.accounted(),
    ensures
        flow.after(step).accounted(),
{
    let next = flow.after(step);
    match step {
        Step::Push { shard, item } => lemma_ledger_push(flow, shard, item),
        Step::Poll { worker, .. } => {
            lemma_taking(flow, step, worker);
            lemma_total_thinned(flow.shards, next.shards);
        },
        Step::Pop { worker, .. } => {
            lemma_taking(flow, step, worker);
            lemma_total_thinned(flow.shards, next.shards);
        },
        Step::Hand { .. } => {},
    }
}

proof fn lemma_order_step<T>(flow: Flow<T>, step: Step<T>)
    requires
        flow.paired(),
        flow.can(step),
        flow.ordered(),
        flow.bounded(),
    ensures
        flow.after(step).ordered(),
        flow.after(step).bounded(),
{
    let next = flow.after(step);
    match step {
        Step::Poll { worker, .. } => lemma_taking(flow, step, worker),
        Step::Pop { worker, .. } => lemma_taking(flow, step, worker),
        _ => {},
    }
    assert forall|i: int| 0 <= i < next.shards.len() implies (#[trigger] next.shards[i]).wf()
        && next.shards[i].items.is_suffix_of(next.entered[i]) by {
        let (before, after) = (flow.shards[i].items, next.shards[i].items);
        assert(flow.shards[i].wf());
        assert(before.is_suffix_of(flow.entered[i]));
        if thinned(flow.shards, next.shards) {
            assert(after == before.skip(before.len() - after.len()));
        }
    }
}

proof fn lemma_history<T>(cfg: NormalizedConfig, steps: Seq<Step<T>>)
    requires
        cfg.wf(),
        Flow::<T>::start(cfg).can_all(steps),
    ensures
        ({
            let flow = Flow::<T>::start(cfg).after_all(steps);
            &&& flow.paired()
            &&& flow.shards.len() == cfg.shards
            &&& flow.conserved()
            &&& flow.accounted()
            &&& flow.ordered()
            &&& flow.bounded()
        }),
    decreases steps.len(),
{
    let start = Flow::<T>::start(cfg);
    lemma_start::<T>(cfg);
    lemma_paired(start, steps);
    if steps.len() > 0 {
        let (sofar, last) = (steps.drop_last(), steps.last());
        assert(start.can(steps[steps.len() - 1]));
        assert forall|i: int| 0 <= i < sofar.len() implies start.can(#[trigger] sofar[i]) by {
            assert(start.can(steps[i]));
        }
        lemma_history(cfg, sofar);
        let flow = start.after_all(sofar);
        lemma_conserved_step(flow, last);
        lemma_ledger_step(flow, last);
        lemma_order_step(flow, last);
    }
}

/// Exactly once: whatever producers and workers do in whatever order, each accepted
/// item is in exactly one place. It is still in a ring, or in the batch of exactly
/// one worker, or the sink action was given it once; none is lost or duplicated, and
/// nothing else is ever delivered.
pub proof fn accepted_items_are_observed_exactly_once<T>(
    cfg: NormalizedConfig,
    steps: Seq<Step<T>>,
)
    requires
        cfg.wf(),
        Flow::<T>::start(cfg).can_all(steps),
    ensures
        Flow::<T>::start(cfg).after_all(steps).conserved(),
{
    lemma_history(cfg, steps);
}

/// Accounting: whatever producers and workers do in whatever order, each attempted
/// push was either accepted or rejected, and the drop counters together show the
/// number of rejections.
pub proof fn every_push_is_accounted_for<T>(cfg: NormalizedConfig, steps: Seq<Step<T>>)
    requires
        cfg.wf(),
        Flow::<T>::start(cfg).can_all(steps),
    ensures
        Flow::<T>::start(cfg).after_all(steps).accounted(),
        ({
            let flow = Flow::<T>::start(cfg).after_all(steps);
            flow.rejected.len() <= u64::MAX ==> shown(total_dropped(flow.shards))
                == flow.rejected.len()
        }),
{
    lemma_history(cfg, steps);
}

/// First in, first out within a shard: whatever producers and workers do in whatever
/// order, items leave a ring in the order in which they entered it, and no ring holds
/// more than its capacity.
pub proof fn rings_are_bounded_and_ordered<T>(cfg: NormalizedConfig, steps: Seq<Step<T>>)
    requires
        cfg.wf(),
        Flow::<T>::start(cfg).can_all(steps),
    ensures
        Flow::<T>::start(cfg).after_all(steps).ordered(),
        Flow::<T>::start(cfg).after_all(steps).bounded(),
{
    lemma_history(cfg, steps);
}

impl<T> Step<T> {
    /// No producer pushes.
    pub open spec fn quiet(self) -> bool {
        !(self is Push)
    }
}

proof fn lemma_settled_step<T>(flow: Flow<T>, step: Step<T>)
    requires
        flow.paired(),
        flow.can(step),
        flow.settled(),
        step.quiet(),
    ensures
        flow.after(step).settled(),
{
    let next = flow.after(step);
    match step {
        Step::Poll { worker, cancelled } => {
            lemma_taking(flow, step, worker);
            let w = flow.workers[worker];
            let own = (Haul { shards: flow.shards, batch: w.batch, cursor: w.cursor }).burst(
                w.home as int,
                w.limit as nat,
            );
            assert forall|i: int|
                0 <= i < next.workers.len() && (#[trigger] next.workers[i]).phase
                    == WorkerPhase::Stopped implies next.workers[i].batch.len() == 0
                && next.shards[i].items.len() == 0 by {
                assert(next.shards[i].items.len() <= flow.shards[i].items.len());
                if i != worker {
                    assert(flow.workers[i].phase == WorkerPhase::Stopped);
                } else if w.phase != WorkerPhase::Stopped {
                    assert(own.batch.len() == 0);
                }
            }
        },
        Step::Pop { worker, .. } => {
            lemma_taking(flow, step, worker);
            assert forall|i: int|
                0 <= i < next.workers.len() && (#[trigger] next.workers[i]).phase
                    == WorkerPhase::Stopped implies next.workers[i].batch.len() == 0
                && next.shards[i].items.len() == 0 by {
                assert(next.shards[i].items.len() <= flow.shards[i].items.len());
                assert(flow.workers[i].phase == WorkerPhase::Stopped);
            }
        },
        Step::Hand { .. } => {
            assert forall|i: int|
                0 <= i < next.workers.len() && (#[trigger] next.workers[i]).phase
                    == WorkerPhase::Stopped implies next.workers[i].batch.len() == 0
                && next.shards[i].items.len() == 0 by {
                assert(flow.workers[i].phase == WorkerPhase::Stopped);
            }
        },
        Step::Push { .. } => {},
    }
}

proof fn lemma_settled<T>(flow: Flow<T>, steps: Seq<Step<T>>)
    requires
        flow.paired(),
        flow.can_all(steps),
        flow.settled(),
        flow.conserved(),
        forall|i: int| 0 <= i < steps.len() ==> (#[trigger] steps[i]).quiet(),
    ensures
        flow.after_all(steps).paired(),
        flow.after_all(steps).settled(),
        flow.after_all(steps).conserved(),
        flow.after_all(steps).accepted == flow.accepted,
    decreases steps.len(),
{
    lemma_paired(flow, steps);
    if steps.len() > 0 {
        let (sofar, last) = (steps.drop_last(), steps.last());
        assert(flow.can(steps[steps.len() - 1]));
        assert(steps[steps.len() - 1].quiet());
        assert forall|i: int| 0 <= i < sofar.len() implies flow.can(#[trigger] sofar[i])
            && sofar[i].quiet() by {
            assert(flow.can(steps[i]));
            assert(steps[i].quiet());
        }
        lemma_paired(flow, sofar);
        lemma_settled(flow, sofar);
        lemma_settled_step(flow.after_all(sofar), last);
        lemma_conserved_step(flow.after_all(sofar), last);
    }
}

/// Producer-quiesced shutdown drains everything: if no worker has stopped when the
/// producers fall silent, then once all workers have stopped, whatever they did in
/// whatever order and however their turns were interleaved, no ring and no batch holds
/// an item any more, and the sink action was given each accepted item exactly once.
pub proof fn quiesced_shutdown_drains_everything<T>(
    cfg: NormalizedConfig,
    busy: Seq<Step<T>>,
    quiet: Seq<Step<T>>,
)
    requires
        cfg.wf(),
        Flow::<T>::start(cfg).can_all(busy),
        Flow::<T>::start(cfg).after_all(busy).running(),
        Flow::<T>::start(cfg).can_all(quiet),
        forall|i: int| 0 <= i < quiet.len() ==> (#[trigger] quiet[i]).quiet(),
        Flow::<T>::start(cfg).after_all(busy).after_all(quiet).stopped(),
    ensures
        ({
            let then = Flow::<T>::start(cfg).after_all(busy);
            let end = then.after_all(quiet);
            &&& end.accepted == then.accepted
            &&& end.delivered.to_multiset() == end.accepted.to_multiset()
            &&& forall|i: int|
                0 <= i < end.shards.len() ==> (#[trigger] end.shards[i]).items.len() == 0
            &&& forall|i: int|
                0 <= i < end.workers.len() ==> (#[trigger] end.workers[i]).batch.len() == 0
        }),
{
    let start = Flow::<T>::start(cfg);
    let then = start.after_all(busy);
    lemma_history(cfg, busy);
    assert(then.settled());
    assert forall|i: int| 0 <= i < quiet.len() implies then.can(#[trigger] quiet[i]) by {
        assert(start.can(quiet[i]));
    }
    lemma_settled(then, quiet);
    let end = then.after_all(quiet);
    assert forall|i: int| 0 <= i < end.shards.len() implies (#[trigger] end.shards[i]).items.len()
        == 0 by {
        assert(end.workers[i].phase == WorkerPhase::Stopped);
    }
    lemma_nothing_pooled(rings(end.shards));
    lemma_nothing_pooled(batches(end.workers));
    assert(end.delivered.to_multiset() =~= end.accepted.to_multiset());
}

/// There is no closed state: what a push does depends on its shard alone, whatever
/// the workers are doing. After a shutdown it is accepted like before, until the ring
/// is full.
pub proof fn pushes_ignore_workers<T>(
    flow: Flow<T>,
    workers: Seq<WorkerView<T>>,
    shard: int,
    item: T,
)
    requires
        0 <= shard < flow.shards.len(),
    ensures
        ({
            let push = Step::Push { shard, item };
            let one = flow.after(push);
            let other = (Flow { workers, ..flow }).after(push);
            &&& other == Flow { workers, ..one }
            &&& flow.shards[shard].accepts() ==> one.accepted == flow.accepted.push(item)
                && one.shards[shard].items == flow.shards[shard].items.push(item)
            &&& !flow.shards[shard].accepts() ==> one.accepted == flow.accepted
        }),
{
}

/// A worker's batch never grows beyond its limit.
pub proof fn batches_stay_within_their_limit<T>(flow: Flow<T>, worker: int, cancelled: bool)
    requires
        flow.paired(),
        0 <= worker < flow.workers.len(),
        flow.workers[worker].batch.len() <= flow.workers[worker].limit,
    ensures
        ({
            let next = flow.after(Step::Poll { worker, cancelled });
            next.workers[worker].batch.len() <= next.workers[worker].limit
        }),
{
    let w = flow.workers[worker];
    let own = (Haul { shards: flow.shards, batch: w.batch, cursor: w.cursor }).burst(
        w.home as int,
        w.limit as nat,
    );
    if let NormalizedWorkStealing::Opportunistic {
        max_victims_per_idle_tick,
        max_items_per_victim,
    } = w.stealing {
        stealing_is_bounded(
            own,
            w.home as int,
            w.limit as nat,
            max_victims_per_idle_tick as nat,
            max_items_per_victim as nat,
            own.shards.len(),
        );
    }
}

/// No accepted item waits forever while its worker gets turns: each turn of a worker
/// that has not stopped and starts with an empty batch takes the oldest items of its own
/// shard, as many as the batch can hold, and asks for the batch to be handed on.
pub proof fn turns_make_progress<T>(flow: Flow<T>, worker: int, cancelled: bool)
    requires
        flow.paired(),
        0 <= worker < flow.workers.len(),
        flow.workers[worker].phase != WorkerPhase::Stopped,
        flow.workers[worker].batch.len() == 0,
        flow.shards[worker].items.len() > 0,
    ensures
        ({
            let w = flow.workers[worker];
            let items = flow.shards[worker].items;
            let n: int = if items.len() < w.limit {
                items.len() as int
            } else {
                w.limit as int
            };
            let next = flow.after(Step::Poll { worker, cancelled });
            &&& n > 0
            &&& items.take(n).is_prefix_of(next.workers[worker].batch)
            &&& next.shards[worker].items == items.skip(n)
            &&& w.polled(flow.shards, cancelled).action == WorkerAction::Drain
        }),
{
    let w = flow.workers[worker];
    let (home, limit) = (w.home as int, w.limit as nat);
    let own = (Haul { shards: flow.shards, batch: w.batch, cursor: w.cursor }).burst(home, limit);
    if let NormalizedWorkStealing::Opportunistic {
        max_victims_per_idle_tick,
        max_items_per_victim,
    } = w.stealing {
        let (victims, most) = (max_victims_per_idle_tick as nat, max_items_per_victim as nat);
        stealing_is_bounded(own, home, limit, victims, most, own.shards.len());
        stealing_spares_home(own, home, limit, victims, most, own.shards.len());
    }
}

/// A shutdown comes to an end: each turn of a cancelled worker with an empty batch
/// either stops it or takes something out of its own shard, and out of no other.
pub proof fn finishing_makes_progress<T>(flow: Flow<T>, worker: int)
    requires
        flow.paired(),
        0 <= worker < flow.workers.len(),
        flow.workers[worker].batch.len() == 0,
    ensures
        ({
            let next = flow.after(Step::Poll { worker, cancelled: true });
            &&& next.workers[worker].phase == WorkerPhase::Stopped
                || next.shards[worker].items.len() < flow.shards[worker].items.len()
            &&& next.workers[worker].phase != WorkerPhase::Polling
            &&& forall|i: int|
                0 <= i < flow.shards.len() && i != worker ==> (#[trigger] next.shards[i])
                    == flow.shards[i]
        }),
{
}

proof fn lemma_order_of_one_step<T>(flow: Flow<T>, step: Step<T>)
    requires
        flow.paired(),
        flow.shards.len() == 1,
        flow.workers[0].stealing == NormalizedWorkStealing::Off,
        flow.can(step),
        flow.accepted == flow.delivered + flow.workers[0].batch + flow.shards[0].items,
    ensures
        ({
            let next = flow.after(step);
            &&& next.workers[0].stealing == NormalizedWorkStealing::Off
            &&& next.accepted == next.delivered + next.workers[0].batch + next.shards[0].items
        }),
{
    let next = flow.after(step);
    match step {
        Step::Poll { worker, .. } => lemma_taking(flow, step, worker),
        Step::Pop { worker, .. } => lemma_taking(flow, step, worker),
        _ => {},
    }
    assert(next.accepted =~= next.delivered + next.workers[0].batch + next.shards[0].items);
}

/// One shard keeps the global order: with a single shard, the sink action is given
/// the accepted items in the order in which they were accepted; what it was not given
/// yet follows, in order, in the batch and then in the ring.
pub proof fn one_shard_keeps_the_order<T>(cfg: NormalizedConfig, steps: Seq<Step<T>>)
    requires
        cfg.wf(),
        cfg.shards == 1,
        Flow::<T>::start(cfg).can_all(steps),
    ensures
        ({
            let flow = Flow::<T>::start(cfg).after_all(steps);
            &&& flow.accepted == flow.delivered + flow.workers[0].batch + flow.shards[0].items
            &&& flow.workers[0].stealing == NormalizedWorkStealing::Off
        }),
    decreases steps.len(),
{
    let start = Flow::<T>::start(cfg);
    if steps.len() == 0 {
        assert(start.accepted =~= start.delivered + start.workers[0].batch
            + start.shards[0].items);
    } else {
        let sofar = steps.drop_last();
        assert(start.can(steps[steps.len() - 1]));
        assert forall|i: int| 0 <= i < sofar.len() implies start.can(#[trigger] sofar[i]) by {
            assert(start.can(steps[i]));
        }
        one_shard_keeps_the_order(cfg, sofar);
        lemma_history(cfg, sofar);
        lemma_order_of_one_step(start.after_all(sofar), steps.last());
    }
}

impl<T> Step<T> {
    /// A single pop is by the worker of the shard that it pops from.
    pub open spec fn at_home(self) -> bool {
        self matches Step::Pop { worker, shard } ==> worker == shard
    }
}

impl<T> Flow<T> {
    /// Nobody steals, and what the worker of a shard has handed on, then its batch, then
    /// its ring, is what the shard accepted, in the order in which it was accepted.
    pub open spec fn in_line(self) -> bool {
        &&& self.entered.len() == self.shards.len()
        &&& self.handed.len() == self.shards.len()
        &&& forall|i: int|
            0 <= i < self.shards.len() ==> (#[trigger] self.workers[i]).stealing
                == NormalizedWorkStealing::Off && self.entered[i] == self.handed[i]
                + self.workers[i].batch + self.shards[i].items
    }
}

proof fn lemma_in_line_step<T>(flow: Flow<T>, step: Step<T>)
    requires
        flow.paired(),
        flow.can(step),
        flow.in_line(),
        step.at_home(),
    ensures
        flow.after(step).in_line(),
{
    let next = flow.after(step);
    match step {
        Step::Poll { worker, .. } => lemma_taking(flow, step, worker),
        Step::Pop { worker, .. } => lemma_taking(flow, step, worker),
        _ => {},
    }
    assert forall|i: int| 0 <= i < next.shards.len() implies (#[trigger] next.workers[i]).stealing
        == NormalizedWorkStealing::Off && next.entered[i] == next.handed[i] + next.workers[i].batch
        + next.shards[i].items by {
        assert(flow.workers[i].stealing == NormalizedWorkStealing::Off);
        assert(next.entered[i] =~= next.handed[i] + next.workers[i].batch + next.shards[i].items);
    }
}

/// Without stealing, each shard keeps its order up to the sink action: what a shard's
/// worker has handed on is what the shard accepted first, in the order in which it was
/// accepted; what was not handed on yet follows, in order, in the batch and then in the
/// ring.
pub proof fn shards_keep_their_order<T>(cfg: NormalizedConfig, steps: Seq<Step<T>>)
    requires
        cfg.wf(),
        cfg.work_stealing == NormalizedWorkStealing::Off,
        Flow::<T>::start(cfg).can_all(steps),
        forall|i: int| 0 <= i < steps.len() ==> (#[trigger] steps[i]).at_home(),
    ensures
        Flow::<T>::start(cfg).after_all(steps).in_line(),
    decreases steps.len(),
{
    let start = Flow::<T>::start(cfg);
    if steps.len() == 0 {
        assert forall|i: int| 0 <= i < start.shards.len() implies (
        #[trigger] start.workers[i]).stealing == NormalizedWorkStealing::Off && start.entered[i]
            == start.handed[i] + start.workers[i].batch + start.shards[i].items by {
            assert(start.entered[i] =~= start.handed[i] + start.workers[i].batch
                + start.shards[i].items);
        }
    } else {
        let sofar = steps.drop_last();
        assert(start.can(steps[steps.len() - 1]));
        assert(steps[steps.len() - 1].at_home());
        assert forall|i: int| 0 <= i < sofar.len() implies start.can(#[trigger] sofar[i])
            && sofar[i].at_home() by {
            assert(start.can(steps[i]));
            assert(steps[i].at_home());
        }
        shards_keep_their_order(cfg, sofar);
        lemma_history(cfg, sofar);
        lemma_in_line_step(start.after_all(sofar), steps.last());
    }
}

proof fn lemma_after_series<T>(flow: Flow<T>, first: Seq<Step<T>>, then: Seq<Step<T>>)
    ensures
        flow.after_all(first + then) == flow.after_all(first).after_all(then),
    decreases then.len(),
{
    if then.len() == 0 {
        assert(first + then =~= first);
    } else {
        assert((first + then).drop_last() =~= first + then.drop_last());
        lemma_after_series(flow, first, then.drop_last());
    }
}

impl<T> Flow<T> {
    /// With other shards, and another batch in the hands of a worker.
    pub open spec fn hauled(self, worker: int, haul: Haul<T>) -> Flow<T> {
        Flow {
            shards: haul.shards,
            workers: self.workers.update(
                worker,
                WorkerView { batch: haul.batch, ..self.workers[worker] },
            ),
            ..self
        }
    }
}

/// Nothing but pops by one worker, on shards that there are.
pub open spec fn pops_by<T>(worker: int, shards: nat, steps: Seq<Step<T>>) -> bool {
    forall|i: int|
        0 <= i < steps.len() ==> match #[trigger] steps[i] {
            Step::Pop { worker: by, shard } => by == worker && 0 <= shard < shards,
            _ => false,
        }
}

/// Taking several items is a series of pops.
proof fn lemma_taking_is_popping<T>(flow: Flow<T>, worker: int, shard: int, n: nat) -> (pops: Seq<
    Step<T>,
>)
    requires
        flow.paired(),
        0 <= worker < flow.workers.len(),
        flow.workers[worker].phase != WorkerPhase::Stopped,
        0 <= shard < flow.shards.len(),
        n <= flow.shards[shard].items.len(),
    ensures
        pops_by(worker, flow.shards.len(), pops),
        flow.after_all(pops) == flow.hauled(
            worker,
            Haul {
                shards: flow.shards.update(shard, flow.shards[shard].take(n as int)),
                batch: flow.workers[worker].batch + flow.shards[shard].items.take(n as int),
                cursor: 0,
            },
        ),
    decreases n,
{
    if n == 0 {
        let pops = Seq::<Step<T>>::empty();
        let held = flow.shards[shard];
        assert(held.take(0) =~= held);
        assert(flow.after_all(pops) =~= flow.hauled(
            worker,
            Haul {
                shards: flow.shards.update(shard, held.take(0)),
                batch: flow.workers[worker].batch + held.items.take(0),
                cursor: 0,
            },
        ));
        pops
    } else {
        let fewer = lemma_taking_is_popping(flow, worker, shard, (n - 1) as nat);
        let pop = Step::Pop { worker, shard };
        let pops = fewer.push(pop);
        assert(pops.drop_last() =~= fewer);
        let held = flow.shards[shard];
        let before = flow.after_all(fewer);
        assert(held.take(n - 1).take(1) =~= held.take(n as int));
        assert(held.items.take(n - 1) + held.items.skip(n - 1).take(1) =~= held.items.take(
            n as int,
        ));
        assert(flow.workers[worker].batch + held.items.take(n - 1) + held.items.skip(n - 1).take(1)
            =~= flow.workers[worker].batch + held.items.take(n as int));
        assert(before.after(pop) =~= flow.hauled(
            worker,
            Haul {
                shards: flow.shards.update(shard, held.take(n as int)),
                batch: flow.workers[worker].batch + held.items.take(n as int),
                cursor: 0,
            },
        ));
        pops
    }
}

proof fn lemma_stealing_is_popping<T>(
    flow: Flow<T>,
    worker: int,
    haul: Haul<T>,
    home: int,
    limit: nat,
    victims: nat,
    most: nat,
    probes: nat,
) -> (pops: Seq<Step<T>>)
    requires
        flow.paired(),
        0 <= worker < flow.workers.len(),
        flow.workers[worker].phase != WorkerPhase::Stopped,
        haul.shards == flow.shards,
        haul.batch == flow.workers[worker].batch,
        probes <= flow.shards.len(),
    ensures
        pops_by(worker, flow.shards.len(), pops),
        flow.after_all(pops) == flow.hauled(
            worker,
            haul.stolen(home, limit, victims, most, probes),
        ),
    decreases probes,
{
    if victims == 0 || probes == 0 || haul.batch.len() >= limit {
        let pops = Seq::<Step<T>>::empty();
        assert(flow.after_all(pops) =~= flow.hauled(worker, haul));
        pops
    } else if haul.victim() == home {
        lemma_stealing_is_popping(
            flow,
            worker,
            haul.passed(),
            home,
            limit,
            victims,
            most,
            (probes - 1) as nat,
        )
    } else {
        let next = haul.robbed(limit, most);
        let first = lemma_taking_is_popping(
            flow,
            worker,
            haul.victim(),
            haul.yielded(limit, most) as nat,
        );
        let between = flow.after_all(first);
        let then = lemma_stealing_is_popping(
            between,
            worker,
            next,
            home,
            limit,
            (victims - 1) as nat,
            most,
            (probes - 1) as nat,
        );
        lemma_after_series(flow, first, then);
        assert(flow.after_all(first + then) =~= flow.hauled(
            worker,
            haul.stolen(home, limit, victims, most, probes),
        ));
        first + then
    }
}

/// A poll is a series of pops: it takes out of the shards what so many single pops
/// take out, and puts into the batch what they put there.
pub proof fn polls_are_series_of_pops<T>(flow: Flow<T>, worker: int, cancelled: bool) -> (pops: Seq<
    Step<T>,
>)
    requires
        flow.paired(),
        0 <= worker < flow.workers.len(),
    ensures
        pops_by(worker, flow.shards.len(), pops),
        flow.can_all(pops),
        ({
            let poll = flow.after(Step::Poll { worker, cancelled });
            let series = flow.after_all(pops);
            &&& series.shards == poll.shards
            &&& series.workers == flow.workers.update(
                worker,
                WorkerView { batch: poll.workers[worker].batch, ..flow.workers[worker] },
            )
            &&& series == Flow { shards: poll.shards, workers: series.workers, ..flow }
        }),
{
    let w = flow.workers[worker];
    let start = Haul { shards: flow.shards, batch: w.batch, cursor: w.cursor };
    if w.phase == WorkerPhase::Stopped {
        let pops = Seq::<Step<T>>::empty();
        assert(flow.after_all(pops).workers =~= flow.workers.update(worker, w));
        pops
    } else {
        let (home, limit) = (w.home as int, w.limit as nat);
        let held = flow.shards[home].items.len();
        let own = start.burst(home, limit);
        let first = lemma_taking_is_popping(
            flow,
            worker,
            home,
            crate::haul::haul(held, w.batch.len(), limit, held),
        );
        match w.stealing {
            NormalizedWorkStealing::Opportunistic {
                max_victims_per_idle_tick,
                max_items_per_victim,
            } if w.phase == WorkerPhase::Polling && !cancelled => {
                let between = flow.after_all(first);
                let then = lemma_stealing_is_popping(
                    between,
                    worker,
                    own,
                    home,
                    limit,
                    max_victims_per_idle_tick as nat,
                    max_items_per_victim as nat,
                    own.shards.len(),
                );
                lemma_after_series(flow, first, then);
                let pops = first + then;
                assert(flow.after_all(pops).workers =~= flow.workers.update(
                    worker,
                    WorkerView {
                        batch: own.topped_up(home, limit, w.stealing).batch,
                        ..flow.workers[worker]
                    },
                ));
                pops
            },
            _ => first,
        }
    }
}

} // verus!
