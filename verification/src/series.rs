//! What becomes of a series of pushes by one thread.

use vstd::arithmetic::div_mod::{
    lemma_add_mod_noop, lemma_div_pos_is_pos, lemma_fundamental_div_mod,
    lemma_fundamental_div_mod_converse, lemma_mod_bound, lemma_small_mod, lemma_sub_mod_noop,
};
use vstd::prelude::*;

use crate::config::{NormalizedConfig, ShardSelection};
use crate::selection::{chosen, cursor_after, in_turn, lemma_nth_in_turn, nth};
use crate::shard::ShardView;
use crate::sink::{fresh_shard, SinkView};

verus! {

/// A sink and a thread that pushes to it without a handle.
#[verifier::ext_equal]
pub struct Producer<T> {
    /// The sink.
    pub sink: SinkView<T>,
    /// How the sink selects shards.
    pub selection: ShardSelection,
    /// The thread's seed.
    pub seed: usize,
    /// The thread's round-robin cursor.
    pub cursor: usize,
    /// What the thread's pushes returned.
    pub results: Seq<bool>,
}

impl<T> Producer<T> {
    /// A thread that starts to push to a sink to which nothing has happened yet.
    pub open spec fn start(cfg: NormalizedConfig, seed: usize, cursor: usize) -> Producer<T> {
        Producer {
            sink: SinkView {
                shards: Seq::new(cfg.shards as nat, |i: int| fresh_shard::<T>(cfg)),
                issue_cursor: 0,
            },
            selection: cfg.shard_selection,
            seed,
            cursor,
            results: Seq::empty(),
        }
    }

    /// The shard that the next push goes to.
    pub open spec fn selected(self) -> int {
        chosen(self.selection, self.seed, self.cursor, self.sink.shards.len())
    }

    /// After a push.
    pub open spec fn after(self, item: T) -> Producer<T> {
        let shard = self.selected();
        Producer {
            sink: self.sink.pushed(shard, item),
            cursor: cursor_after(self.selection, self.cursor),
            results: self.results.push(self.sink.shards[shard].accepts()),
            ..self
        }
    }

    /// After a push of each of several items, in a row.
    pub open spec fn after_all(self, items: Seq<T>) -> Producer<T>
        decreases items.len(),
    {
        if items.len() == 0 {
            self
        } else {
            self.after_all(items.drop_last()).after(items.last())
        }
    }
}

/// How many pushes were accepted.
pub open spec fn accepted(results: Seq<bool>) -> nat
    decreases results.len(),
{
    if results.len() == 0 {
        0
    } else {
        accepted(results.drop_last()) + if results.last() {
            1nat
        } else {
            0
        }
    }
}

/// The first `room` pushes were accepted, and no others.
pub open spec fn accepted_first(results: Seq<bool>, room: int) -> bool {
    forall|k: int| 0 <= k < results.len() ==> #[trigger] results[k] == (k < room)
}

proof fn lemma_accepted(results: Seq<bool>, room: nat)
    requires
        accepted_first(results, room as int),
    ensures
        accepted(results) == if results.len() < room {
            results.len()
        } else {
            room
        },
    decreases results.len(),
{
    if results.len() > 0 {
        assert forall|k: int| 0 <= k < results.drop_last().len() implies (
        #[trigger] results.drop_last()[k]) == (k < room) by {
            assert(results[k] == (k < room));
        }
        lemma_accepted(results.drop_last(), room);
        assert(results[results.len() - 1] == (results.len() - 1 < room));
    }
}

/// How many pushes it takes from the cursor on until a shard comes up.
spec fn distance(cursor: usize, shards: int, shard: int) -> int {
    (shard - cursor) % shards
}

/// How many of the first `k` pushes from the cursor on go to a shard.
spec fn visits(cursor: usize, shards: int, shard: int, k: int) -> int {
    k / shards + if distance(cursor, shards, shard) < k % shards {
        1int
    } else {
        0
    }
}

/// The push after the first `k` goes to the shard whose distance is the rest of `k`, and to
/// no other.
proof fn lemma_distance(cursor: usize, shards: int, shard: int, k: int)
    requires
        0 <= shard < shards,
        0 <= k,
    ensures
        0 <= distance(cursor, shards, shard) < shards,
        shard == (cursor + k) % shards <==> distance(cursor, shards, shard) == k % shards,
{
    let (c, n, d) = (cursor as int, shards, distance(cursor, shards, shard));
    lemma_mod_bound(shard - c, n);
    lemma_small_mod(shard as nat, n as nat);
    if shard == (c + k) % n {
        lemma_sub_mod_noop(c + k, c, n);
        lemma_sub_mod_noop(shard, c, n);
    }
    if d == k % n {
        lemma_add_mod_noop(c, shard - c, n);
        lemma_add_mod_noop(c, k, n);
    }
}

proof fn lemma_next(k: int, n: int)
    requires
        0 <= k,
        0 < n,
    ensures
        k % n + 1 < n ==> (k + 1) / n == k / n && (k + 1) % n == k % n + 1,
        k % n + 1 == n ==> (k + 1) / n == k / n + 1 && (k + 1) % n == 0,
        0 <= k % n < n,
{
    let (q, r) = (k / n, k % n);
    lemma_fundamental_div_mod(k, n);
    lemma_mod_bound(k, n);
    assert(n * q == q * n && n * (q + 1) == q * n + n && (q + 1) * n == q * n + n)
        by (nonlinear_arith);
    if r + 1 < n {
        lemma_fundamental_div_mod_converse(k + 1, n, q, r + 1);
    } else {
        lemma_fundamental_div_mod_converse(k + 1, n, q + 1, 0);
    }
}

/// One more push goes to the shard that comes up, and to no other.
proof fn lemma_visits(cursor: usize, shards: int, shard: int, k: int)
    requires
        0 <= shard < shards,
        0 <= k,
    ensures
        visits(cursor, shards, shard, k + 1) == visits(cursor, shards, shard, k) + if shard == (
        cursor + k) % shards {
            1int
        } else {
            0
        },
        shard == (cursor + k) % shards ==> visits(cursor, shards, shard, k) == k / shards,
{
    lemma_distance(cursor, shards, shard, k);
    lemma_next(k, shards);
}

/// The part of a series that goes to a shard fills it up to its capacity.
spec fn filled<T>(shard: ShardView<T>, capacity: int, visits: int) -> bool {
    &&& shard.capacity == capacity
    &&& shard.items.len() == if visits < capacity {
        visits
    } else {
        capacity
    }
}

proof fn lemma_round_robin<T>(
    cfg: NormalizedConfig,
    seed: usize,
    cursor: usize,
    steps: nat,
    items: Seq<T>,
)
    requires
        cfg.wf(),
        cfg.shard_selection == ShardSelection::ThreadLocalRoundRobin,
        items.len() <= steps,
        in_turn(cursor, steps, cfg.shards as nat),
    ensures
        ({
            let end = Producer::<T>::start(cfg, seed, cursor).after_all(items);
            &&& end.selection == cfg.shard_selection
            &&& end.sink.shards.len() == cfg.shards
            &&& end.cursor == nth(cursor, items.len())
            &&& end.results.len() == items.len()
            &&& accepted_first(end.results, cfg.shards * cfg.ring_capacity)
            &&& forall|i: int|
                0 <= i < cfg.shards ==> filled(
                    #[trigger] end.sink.shards[i],
                    cfg.ring_capacity as int,
                    visits(cursor, cfg.shards as int, i, items.len() as int),
                )
        }),
    decreases items.len(),
{
    let (n, c) = (cfg.shards as int, cfg.ring_capacity as int);
    let start = Producer::<T>::start(cfg, seed, cursor);
    let end = start.after_all(items);
    if items.len() == 0 {
        lemma_small_mod(0, n as nat);
        assert forall|i: int| 0 <= i < n implies filled(
            #[trigger] end.sink.shards[i],
            c,
            visits(cursor, n, i, 0),
        ) by {
            lemma_distance(cursor, n, i, 0);
            lemma_fundamental_div_mod_converse(0, n, 0, 0);
        }
    } else {
        let k = items.len() - 1;
        let before = start.after_all(items.drop_last());
        lemma_round_robin(cfg, seed, cursor, steps, items.drop_last());
        lemma_nth_in_turn(cursor, steps, n as nat, k as nat);
        let shard = before.selected();
        assert(shard == (cursor + k) % n);
        lemma_mod_bound(cursor + k, n);
        lemma_visits(cursor, n, shard, k);
        assert(filled(before.sink.shards[shard], c, k / n));
        lemma_fundamental_div_mod(k, n);
        lemma_mod_bound(k, n);
        let q = k / n;
        assert(q < c <==> k < n * c) by (nonlinear_arith)
            requires
                k == n * q + k % n,
                0 <= k % n < n,
        ;
        assert(0 <= q) by {
            lemma_div_pos_is_pos(k, n);
        }
        assert forall|i: int| 0 <= i < n implies filled(
            #[trigger] end.sink.shards[i],
            c,
            visits(cursor, n, i, k + 1),
        ) by {
            lemma_visits(cursor, n, i, k);
            assert(filled(before.sink.shards[i], c, visits(cursor, n, i, k)));
        }
        assert forall|j: int| 0 <= j < end.results.len() implies (#[trigger] end.results[j]) == (j
            < n * c) by {
            if j < k {
                assert(before.results[j] == (j < n * c));
            }
        }
    }
}

/// By round robin a series of pushes fills all rings before it loses an item: of pushes
/// in a row by one thread to a fresh sink that nobody drains, the first are accepted, as
/// many as all rings together hold, and the others are shed. This holds of any starting
/// cursor from which the shards come up in turn.
pub proof fn round_robin_fills_all_rings<T>(
    cfg: NormalizedConfig,
    seed: usize,
    cursor: usize,
    items: Seq<T>,
)
    requires
        cfg.wf(),
        cfg.shard_selection == ShardSelection::ThreadLocalRoundRobin,
        in_turn(cursor, items.len(), cfg.shards as nat),
    ensures
        ({
            let results = Producer::<T>::start(cfg, seed, cursor).after_all(items).results;
            let room = cfg.shards * cfg.ring_capacity;
            &&& results.len() == items.len()
            &&& accepted_first(results, room)
            &&& accepted(results) == if items.len() < room {
                items.len() as int
            } else {
                room
            }
        }),
{
    let room = cfg.shards * cfg.ring_capacity;
    assert(0 <= room) by (nonlinear_arith)
        requires
            room == cfg.shards * cfg.ring_capacity,
    ;
    lemma_round_robin(cfg, seed, cursor, items.len(), items);
    lemma_accepted(
        Producer::<T>::start(cfg, seed, cursor).after_all(items).results,
        room as nat,
    );
}

proof fn lemma_home<T>(cfg: NormalizedConfig, seed: usize, cursor: usize, items: Seq<T>)
    requires
        cfg.wf(),
        cfg.shard_selection == ShardSelection::ThreadLocalHome,
    ensures
        ({
            let end = Producer::<T>::start(cfg, seed, cursor).after_all(items);
            let home = seed as int % cfg.shards as int;
            &&& end.selection == cfg.shard_selection
            &&& end.seed == seed
            &&& end.sink.shards.len() == cfg.shards
            &&& end.results.len() == items.len()
            &&& accepted_first(end.results, cfg.ring_capacity as int)
            &&& filled(end.sink.shards[home], cfg.ring_capacity as int, items.len() as int)
            &&& forall|i: int|
                0 <= i < cfg.shards && i != home ==> #[trigger] end.sink.shards[i]
                    == fresh_shard::<T>(cfg)
        }),
    decreases items.len(),
{
    if items.len() > 0 {
        lemma_home(cfg, seed, cursor, items.drop_last());
        let before = Producer::<T>::start(cfg, seed, cursor).after_all(items.drop_last());
        let end = Producer::<T>::start(cfg, seed, cursor).after_all(items);
        assert forall|j: int| 0 <= j < end.results.len() implies (#[trigger] end.results[j]) == (j
            < cfg.ring_capacity) by {
            if j < items.len() - 1 {
                assert(before.results[j] == (j < cfg.ring_capacity));
            }
        }
    }
}

/// A thread that pushes to its home shard fills one ring: of pushes in a row by one thread
/// to a fresh sink that nobody drains, the first are accepted, as many as a ring holds, and
/// the others are shed. All other shards stay as they are.
pub proof fn home_fills_one_ring<T>(
    cfg: NormalizedConfig,
    seed: usize,
    cursor: usize,
    items: Seq<T>,
)
    requires
        cfg.wf(),
        cfg.shard_selection == ShardSelection::ThreadLocalHome,
    ensures
        ({
            let end = Producer::<T>::start(cfg, seed, cursor).after_all(items);
            let room = cfg.ring_capacity;
            &&& end.results.len() == items.len()
            &&& accepted_first(end.results, room as int)
            &&& accepted(end.results) == if items.len() < room {
                items.len() as int
            } else {
                room as int
            }
            &&& forall|i: int|
                0 <= i < cfg.shards && i != seed as int % cfg.shards as int ==> (
                #[trigger] end.sink.shards[i]) == fresh_shard::<T>(cfg)
        }),
{
    lemma_home(cfg, seed, cursor, items);
    lemma_accepted(
        Producer::<T>::start(cfg, seed, cursor).after_all(items).results,
        cfg.ring_capacity as nat,
    );
}

} // verus!
