//! What taking items out of shards does.

use vstd::multiset::Multiset;
use vstd::prelude::*;
use vstd::seq_lib::lemma_multiset_commutative;

use crate::config::NormalizedWorkStealing;
use crate::selection::{
    advanced, in_turn, lemma_hits_differ, lemma_in_turn_step, nth,
    round_robin_covers_all_shards, turn,
};
use crate::shard::ShardView;

verus! {

/// How many items leave a ring that holds `held` of them for a batch of `len`
/// items that may grow to `limit`, if at most `most` may be taken.
pub open spec fn haul(held: nat, len: nat, limit: nat, most: nat) -> nat {
    let room: nat = if len < limit {
        (limit - len) as nat
    } else {
        0
    };
    let wanted: nat = if most < room {
        most
    } else {
        room
    };
    if held < wanted {
        held
    } else {
        wanted
    }
}

/// A batch in the making: what the shards still hold, what the batch holds, and
/// where the next victim is looked for.
#[verifier::ext_equal]
pub struct Haul<T> {
    /// What each shard holds.
    pub shards: Seq<ShardView<T>>,
    /// The items of the batch.
    pub batch: Seq<T>,
    /// The victim cursor.
    pub cursor: usize,
}

impl<T> Haul<T> {
    /// After the shard under the cursor was passed over.
    pub open spec fn passed(self) -> Haul<T> {
        Haul { cursor: advanced(self.cursor), ..self }
    }

    /// How many items the shard under the cursor gives for a batch of `limit`, if
    /// it gives at most `most`.
    pub open spec fn yielded(self, limit: nat, most: nat) -> int {
        haul(self.shards[self.victim()].items.len(), self.batch.len(), limit, most) as int
    }

    /// The shard under the cursor.
    pub open spec fn victim(self) -> int {
        self.cursor as int % self.shards.len() as int
    }

    /// After the shard under the cursor was robbed.
    pub open spec fn robbed(self, limit: nat, most: nat) -> Haul<T> {
        let v = self.victim();
        let n = self.yielded(limit, most);
        Haul {
            shards: self.shards.update(v, self.shards[v].take(n)),
            batch: self.batch + self.shards[v].items.take(n),
            cursor: advanced(self.cursor),
        }
    }

    /// After stealing: starting under the cursor, the shards are visited one after
    /// the other, `probes` of them at most. The home shard is passed over; each of
    /// the others gives at most `most` items. Stealing ends early when `victims`
    /// of them have been visited or the batch holds `limit` items.
    pub open spec fn stolen(
        self,
        home: int,
        limit: nat,
        victims: nat,
        most: nat,
        probes: nat,
    ) -> Haul<T>
        decreases probes,
    {
        if victims == 0 || probes == 0 || self.batch.len() >= limit {
            self
        } else if self.victim() == home {
            self.passed().stolen(home, limit, victims, most, (probes - 1) as nat)
        } else {
            self.robbed(limit, most).stolen(
                home,
                limit,
                (victims - 1) as nat,
                most,
                (probes - 1) as nat,
            )
        }
    }

    /// After the home shard was drained into the batch, up to `limit` items.
    pub open spec fn burst(self, home: int, limit: nat) -> Haul<T> {
        let held = self.shards[home].items.len();
        let n = haul(held, self.batch.len(), limit, held) as int;
        Haul {
            shards: self.shards.update(home, self.shards[home].take(n)),
            batch: self.batch + self.shards[home].items.take(n),
            ..self
        }
    }

    /// After the batch was topped up from other shards, where that is allowed.
    pub open spec fn topped_up(
        self,
        home: int,
        limit: nat,
        stealing: NormalizedWorkStealing,
    ) -> Haul<T> {
        match stealing {
            NormalizedWorkStealing::Off => self,
            NormalizedWorkStealing::Opportunistic {
                max_victims_per_idle_tick,
                max_items_per_victim,
            } => self.stolen(
                home,
                limit,
                max_victims_per_idle_tick as nat,
                max_items_per_victim as nat,
                self.shards.len(),
            ),
        }
    }
}

/// From `before` to `after`, nothing but taking items out happened: each shard lost
/// some of its oldest items and kept everything else.
pub open spec fn thinned<T>(before: Seq<ShardView<T>>, after: Seq<ShardView<T>>) -> bool {
    &&& before.len() == after.len()
    &&& forall|i: int|
        0 <= i < before.len() ==> {
            let lost = before[i].items.len() - (#[trigger] after[i]).items.len();
            &&& 0 <= lost
            &&& after[i] == before[i].take(lost)
        }
}

proof fn lemma_thinned_trans<T>(a: Seq<ShardView<T>>, b: Seq<ShardView<T>>, c: Seq<ShardView<T>>)
    requires
        thinned(a, b),
        thinned(b, c),
    ensures
        thinned(a, c),
{
    assert forall|i: int| 0 <= i < a.len() implies ({
        let lost = a[i].items.len() - (#[trigger] c[i]).items.len();
        &&& 0 <= lost
        &&& c[i] == a[i].take(lost)
    }) by {
        let ab = a[i].items.len() - b[i].items.len();
        let bc = b[i].items.len() - c[i].items.len();
        assert(b[i] == a[i].take(ab));
        assert(c[i] == b[i].take(bc));
        assert(a[i].take(ab).take(bc) =~= a[i].take(ab + bc));
    }
}

/// Taking items out of one shard thins the shards.
pub proof fn lemma_taking_thins<T>(shards: Seq<ShardView<T>>, shard: int, n: int)
    requires
        0 <= shard < shards.len(),
        0 <= n <= shards[shard].items.len(),
    ensures
        thinned(shards, shards.update(shard, shards[shard].take(n))),
{
    let after = shards.update(shard, shards[shard].take(n));
    assert forall|i: int| 0 <= i < shards.len() implies ({
        let lost = shards[i].items.len() - (#[trigger] after[i]).items.len();
        &&& 0 <= lost
        &&& after[i] == shards[i].take(lost)
    }) by {
        if i != shard {
            assert(shards[i].take(0) =~= shards[i]);
        }
    }
}

/// Shards that lost nothing count as thinned.
pub proof fn lemma_unchanged_is_thinned<T>(shards: Seq<ShardView<T>>)
    ensures
        thinned(shards, shards),
{
    assert forall|i: int| 0 <= i < shards.len() implies (#[trigger] shards[i]) == shards[i].take(
        0,
    ) by {
        assert(shards[i].take(0) =~= shards[i]);
    }
}

/// Stealing takes items out and changes nothing else: each shard loses some of its
/// oldest items.
pub proof fn stealing_thins<T>(
    haul: Haul<T>,
    home: int,
    limit: nat,
    victims: nat,
    most: nat,
    probes: nat,
)
    requires
        probes <= haul.shards.len(),
    ensures
        thinned(haul.shards, haul.stolen(home, limit, victims, most, probes).shards),
    decreases probes,
{
    if victims == 0 || probes == 0 || haul.batch.len() >= limit {
        lemma_unchanged_is_thinned(haul.shards);
    } else if haul.victim() == home {
        stealing_thins(haul.passed(), home, limit, victims, most, (probes - 1) as nat);
    } else {
        let next = haul.robbed(limit, most);
        lemma_taking_thins(haul.shards, haul.victim(), haul.yielded(limit, most));
        stealing_thins(next, home, limit, (victims - 1) as nat, most, (probes - 1) as nat);
        lemma_thinned_trans(
            haul.shards,
            next.shards,
            next.stolen(home, limit, (victims - 1) as nat, most, (probes - 1) as nat).shards,
        );
    }
}

/// Draining the home shard and topping the batch up from others takes items out and
/// changes nothing else.
pub proof fn hauling_thins<T>(
    haul: Haul<T>,
    home: int,
    limit: nat,
    stealing: NormalizedWorkStealing,
)
    requires
        0 <= home < haul.shards.len(),
    ensures
        thinned(haul.shards, haul.burst(home, limit).shards),
        thinned(haul.shards, haul.burst(home, limit).topped_up(home, limit, stealing).shards),
{
    let own = haul.burst(home, limit);
    let held = haul.shards[home].items.len();
    lemma_taking_thins(
        haul.shards,
        home,
        crate::haul::haul(held, haul.batch.len(), limit, held) as int,
    );
    if let NormalizedWorkStealing::Opportunistic {
        max_victims_per_idle_tick,
        max_items_per_victim,
    } = stealing {
        stealing_thins(
            own,
            home,
            limit,
            max_victims_per_idle_tick as nat,
            max_items_per_victim as nat,
            own.shards.len(),
        );
        lemma_thinned_trans(
            haul.shards,
            own.shards,
            own.topped_up(home, limit, stealing).shards,
        );
    }
}

/// Stealing never touches the home shard.
pub proof fn stealing_spares_home<T>(
    haul: Haul<T>,
    home: int,
    limit: nat,
    victims: nat,
    most: nat,
    probes: nat,
)
    requires
        probes <= haul.shards.len(),
        0 <= home < haul.shards.len(),
    ensures
        haul.stolen(home, limit, victims, most, probes).shards[home] == haul.shards[home],
    decreases probes,
{
    if victims == 0 || probes == 0 || haul.batch.len() >= limit {
    } else if haul.victim() == home {
        stealing_spares_home(haul.passed(), home, limit, victims, most, (probes - 1) as nat);
    } else {
        stealing_spares_home(
            haul.robbed(limit, most),
            home,
            limit,
            (victims - 1) as nat,
            most,
            (probes - 1) as nat,
        );
    }
}

/// Stealing appends to the batch and stays within its budgets: the batch does not
/// grow beyond its limit, nor by more than the victims may give together.
pub proof fn stealing_is_bounded<T>(
    haul: Haul<T>,
    home: int,
    limit: nat,
    victims: nat,
    most: nat,
    probes: nat,
)
    requires
        probes <= haul.shards.len(),
    ensures
        ({
            let after = haul.stolen(home, limit, victims, most, probes).batch;
            &&& haul.batch.is_prefix_of(after)
            &&& after.len() <= haul.batch.len() || after.len() <= limit
            &&& after.len() <= haul.batch.len() + victims * most
        }),
    decreases probes,
{
    if victims == 0 || probes == 0 || haul.batch.len() >= limit {
        assert(0 <= victims * most) by (nonlinear_arith);
    } else if haul.victim() == home {
        stealing_is_bounded(haul.passed(), home, limit, victims, most, (probes - 1) as nat);
    } else {
        let next = haul.robbed(limit, most);
        stealing_is_bounded(next, home, limit, (victims - 1) as nat, most, (probes - 1) as nat);
        assert(victims * most == (victims - 1) * most + most) by (nonlinear_arith);
        assert(haul.batch.is_prefix_of(next.batch));
    }
}

/// Each shard outside a set of shards holds before what it holds after.
pub open spec fn same_outside<T>(
    set: Set<int>,
    before: Seq<ShardView<T>>,
    after: Seq<ShardView<T>>,
) -> bool {
    &&& before.len() == after.len()
    &&& forall|i: int| 0 <= i < before.len() && !set.contains(i) ==> before[i] == after[i]
}

/// Stealing visits no more victims than it may: all shards outside a set of at most
/// `victims` shards keep all they hold.
pub proof fn stealing_robs_few<T>(
    haul: Haul<T>,
    home: int,
    limit: nat,
    victims: nat,
    most: nat,
    probes: nat,
) -> (robbed: Set<int>)
    requires
        probes <= haul.shards.len(),
    ensures
        robbed.finite(),
        robbed.len() <= victims,
        same_outside(
            robbed,
            haul.shards,
            haul.stolen(home, limit, victims, most, probes).shards,
        ),
    decreases probes,
{
    if victims == 0 || probes == 0 || haul.batch.len() >= limit {
        Set::empty()
    } else if haul.victim() == home {
        stealing_robs_few(haul.passed(), home, limit, victims, most, (probes - 1) as nat)
    } else {
        let next = haul.robbed(limit, most);
        let (fewer, left) = ((victims - 1) as nat, (probes - 1) as nat);
        let later = stealing_robs_few(next, home, limit, fewer, most, left);
        let robbed = later.insert(haul.victim());
        assert(same_outside(robbed, haul.shards, next.shards));
        robbed
    }
}

/// What stealing leaves of a shard that the next `probes` positions of the cursor do
/// not fall on.
proof fn lemma_unvisited<T>(
    haul: Haul<T>,
    home: int,
    limit: nat,
    victims: nat,
    most: nat,
    probes: nat,
    shard: int,
)
    requires
        probes <= haul.shards.len(),
        0 <= shard < haul.shards.len(),
        in_turn(haul.cursor, probes, haul.shards.len()),
        forall|k: int|
            0 <= k < probes ==> #[trigger] ((haul.cursor + k) % haul.shards.len() as int) != shard,
    ensures
        haul.stolen(home, limit, victims, most, probes).shards[shard] == haul.shards[shard],
    decreases probes,
{
    if victims == 0 || probes == 0 || haul.batch.len() >= limit {
    } else {
        let n = haul.shards.len() as int;
        assert((haul.cursor + 0) % n != shard);
        let left = (probes - 1) as nat;
        let next = if haul.victim() == home {
            haul.passed()
        } else {
            haul.robbed(limit, most)
        };
        assert forall|k: int| 0 <= k < left implies #[trigger] ((next.cursor + k) % n) != shard by {
            lemma_in_turn_step(haul.cursor, probes, haul.shards.len(), k);
            assert((haul.cursor + (k + 1)) % n != shard);
        }
        if haul.victim() == home {
            lemma_unvisited(next, home, limit, victims, most, left, shard);
        } else {
            lemma_unvisited(next, home, limit, (victims - 1) as nat, most, left, shard);
        }
    }
}

/// No victim gives more than it may: each shard loses at most `most` items. This
/// holds of any cursor from which the shards come up in turn.
pub proof fn stealing_robs_lightly<T>(
    haul: Haul<T>,
    home: int,
    limit: nat,
    victims: nat,
    most: nat,
    probes: nat,
    shard: int,
)
    requires
        probes <= haul.shards.len(),
        0 <= shard < haul.shards.len(),
        in_turn(haul.cursor, probes, haul.shards.len()),
    ensures
        haul.shards[shard].items.len() <= haul.stolen(
            home,
            limit,
            victims,
            most,
            probes,
        ).shards[shard].items.len() + most,
    decreases probes,
{
    if victims == 0 || probes == 0 || haul.batch.len() >= limit {
    } else {
        let n = haul.shards.len() as int;
        let left = (probes - 1) as nat;
        let next = if haul.victim() == home {
            haul.passed()
        } else {
            haul.robbed(limit, most)
        };
        if haul.victim() == home {
            stealing_robs_lightly(next, home, limit, victims, most, left, shard);
        } else if haul.victim() != shard {
            stealing_robs_lightly(
                next,
                home,
                limit,
                (victims - 1) as nat,
                most,
                left,
                shard,
            );
        } else {
            assert forall|k: int| 0 <= k < left implies #[trigger] ((next.cursor + k) % n)
                != shard by {
                lemma_in_turn_step(haul.cursor, probes, haul.shards.len(), k);
                lemma_hits_differ(haul.cursor as int, n, 0, k + 1);
            }
            lemma_unvisited(next, home, limit, (victims - 1) as nat, most, left, shard);
        }
    }
}

/// All items of several sequences together.
pub open spec fn pooled<T>(parts: Seq<Seq<T>>) -> Multiset<T>
    decreases parts.len(),
{
    if parts.len() == 0 {
        Multiset::empty()
    } else {
        pooled(parts.drop_last()).add(parts.last().to_multiset())
    }
}

/// What each shard buffers.
pub open spec fn rings<T>(shards: Seq<ShardView<T>>) -> Seq<Seq<T>> {
    Seq::new(shards.len(), |i: int| shards[i].items)
}

/// Replacing one part exchanges its items.
pub proof fn lemma_pooled_update<T>(parts: Seq<Seq<T>>, i: int, part: Seq<T>)
    requires
        0 <= i < parts.len(),
    ensures
        pooled(parts.update(i, part)).add(parts[i].to_multiset()) == pooled(parts).add(
            part.to_multiset(),
        ),
    decreases parts.len(),
{
    let after = parts.update(i, part);
    if i == parts.len() - 1 {
        assert(after.drop_last() =~= parts.drop_last());
    } else {
        lemma_pooled_update(parts.drop_last(), i, part);
        assert(after.drop_last() =~= parts.drop_last().update(i, part));
    }
    let (left, right) = (
        pooled(after).add(parts[i].to_multiset()),
        pooled(parts).add(part.to_multiset()),
    );
    assert forall|x: T| left.count(x) == right.count(x) by {
        if i < parts.len() - 1 {
            assert(pooled(after.drop_last()).add(parts[i].to_multiset()).count(x) == pooled(
                parts.drop_last(),
            ).add(part.to_multiset()).count(x));
        }
    }
    assert(left =~= right);
}

/// Items taken out of a shard and put into a batch are neither lost nor duplicated.
pub proof fn lemma_taking_conserves<T>(shards: Seq<ShardView<T>>, shard: int, n: int, batch: Seq<T>)
    requires
        0 <= shard < shards.len(),
        0 <= n <= shards[shard].items.len(),
    ensures
        pooled(rings(shards.update(shard, shards[shard].take(n)))).add(
            (batch + shards[shard].items.take(n)).to_multiset(),
        ) == pooled(rings(shards)).add(batch.to_multiset()),
{
    let items = shards[shard].items;
    let after = shards.update(shard, shards[shard].take(n));
    assert(rings(after) =~= rings(shards).update(shard, items.skip(n)));
    lemma_pooled_update(rings(shards), shard, items.skip(n));
    lemma_multiset_commutative(batch, items.take(n));
    lemma_multiset_commutative(items.take(n), items.skip(n));
    assert(items.take(n) + items.skip(n) =~= items);
    let moved = pooled(rings(after)).add((batch + items.take(n)).to_multiset());
    let kept = pooled(rings(shards)).add(batch.to_multiset());
    assert forall|x: T| moved.count(x) == kept.count(x) by {
        assert(pooled(rings(after)).add(items.to_multiset()).count(x) == pooled(rings(shards)).add(
            items.skip(n).to_multiset(),
        ).count(x));
    }
    assert(moved =~= kept);
}

/// Stealing moves items and neither loses nor duplicates one: what the shards and
/// the batch hold together stays the same.
pub proof fn stealing_conserves<T>(
    haul: Haul<T>,
    home: int,
    limit: nat,
    victims: nat,
    most: nat,
    probes: nat,
)
    requires
        probes <= haul.shards.len(),
    ensures
        ({
            let after = haul.stolen(home, limit, victims, most, probes);
            pooled(rings(after.shards)).add(after.batch.to_multiset()) == pooled(
                rings(haul.shards),
            ).add(haul.batch.to_multiset())
        }),
    decreases probes,
{
    if victims == 0 || probes == 0 || haul.batch.len() >= limit {
    } else if haul.victim() == home {
        stealing_conserves(haul.passed(), home, limit, victims, most, (probes - 1) as nat);
    } else {
        lemma_taking_conserves(
            haul.shards,
            haul.victim(),
            haul.yielded(limit, most),
            haul.batch,
        );
        stealing_conserves(
            haul.robbed(limit, most),
            home,
            limit,
            (victims - 1) as nat,
            most,
            (probes - 1) as nat,
        );
    }
}

/// Draining the home shard and topping the batch up from others neither loses nor
/// duplicates an item.
pub proof fn hauling_conserves<T>(
    haul: Haul<T>,
    home: int,
    limit: nat,
    stealing: NormalizedWorkStealing,
)
    requires
        0 <= home < haul.shards.len(),
    ensures
        ({
            let own = haul.burst(home, limit);
            let all = own.topped_up(home, limit, stealing);
            let before = pooled(rings(haul.shards)).add(haul.batch.to_multiset());
            &&& pooled(rings(own.shards)).add(own.batch.to_multiset()) == before
            &&& pooled(rings(all.shards)).add(all.batch.to_multiset()) == before
        }),
{
    let own = haul.burst(home, limit);
    let held = haul.shards[home].items.len();
    lemma_taking_conserves(
        haul.shards,
        home,
        crate::haul::haul(held, haul.batch.len(), limit, held) as int,
        haul.batch,
    );
    if let NormalizedWorkStealing::Opportunistic {
        max_victims_per_idle_tick,
        max_items_per_victim,
    } = stealing {
        stealing_conserves(
            own,
            home,
            limit,
            max_victims_per_idle_tick as nat,
            max_items_per_victim as nat,
            own.shards.len(),
        );
    }
}

/// As many items are taken as may be: no more than there are, than may be taken, and than the
/// batch has room for, and all of one of these.
pub proof fn hauls_take_all_they_may(held: nat, len: nat, limit: nat, most: nat)
    ensures
        ({
            let n = haul(held, len, limit, most);
            &&& n <= held
            &&& n <= most
            &&& n > 0 ==> len + n <= limit
            &&& n == held || n == most || len + n >= limit
        }),
{
}

/// Draining the home shard takes its oldest items, in order, to the end of the batch, until the
/// batch is full or the shard is empty; no other shard and not the cursor change.
pub proof fn bursts_fill_the_batch_or_empty_the_shard<T>(haul: Haul<T>, home: int, limit: nat)
    requires
        0 <= home < haul.shards.len(),
    ensures
        ({
            let own = haul.burst(home, limit);
            let (before, after) = (haul.shards[home], own.shards[home]);
            &&& own.batch + after.items == haul.batch + before.items
            &&& after.capacity == before.capacity
            &&& after.dropped == before.dropped
            &&& own.batch.len() >= limit || after.items.len() == 0
            &&& own.batch.len() <= limit || own.batch == haul.batch
            &&& own.batch.len() >= haul.batch.len()
            &&& own.cursor == haul.cursor
            &&& own.shards.len() == haul.shards.len()
            &&& forall|i: int|
                0 <= i < haul.shards.len() && i != home ==> (#[trigger] own.shards[i])
                    == haul.shards[i]
        }),
{
    let own = haul.burst(home, limit);
    let held = haul.shards[home].items;
    assert(own.batch + own.shards[home].items =~= haul.batch + held);
    if haul.batch.len() >= limit {
        assert(own.batch =~= haul.batch);
    }
}

/// How many of the first `k` shards from the cursor on are not the home shard.
pub open spec fn others_before(cursor: usize, shards: nat, home: int, k: nat) -> nat
    decreases k,
{
    if k == 0 {
        0
    } else {
        others_before(cursor, shards, home, (k - 1) as nat) + if turn(
            cursor,
            shards,
            (k - 1) as nat,
        ) == home {
            0nat
        } else {
            1
        }
    }
}

/// How much several shards gave together.
pub open spec fn given(gifts: Seq<nat>) -> nat
    decreases gifts.len(),
{
    if gifts.len() == 0 {
        0
    } else {
        given(gifts.drop_last()) + gifts.last()
    }
}

/// The oldest items of the shards from the cursor on, as many of each as it gave.
pub open spec fn poured<T>(shards: Seq<ShardView<T>>, cursor: usize, gifts: Seq<nat>) -> Seq<T>
    decreases gifts.len(),
{
    if gifts.len() == 0 {
        Seq::empty()
    } else {
        poured(shards, cursor, gifts.drop_last()) + shards[turn(
            cursor,
            shards.len(),
            (gifts.len() - 1) as nat,
        )].items.take(gifts.last() as int)
    }
}

/// How stealing may go: what it is given, and where it ended.
pub struct Raid<T> {
    /// Where it started.
    pub start: Haul<T>,
    /// The home shard.
    pub home: int,
    /// The most items in the batch.
    pub limit: nat,
    /// The most shards to visit.
    pub victims: nat,
    /// The most items to take from each.
    pub most: nat,
    /// What each of the shards that came up gave.
    pub gifts: Seq<nat>,
    /// Where it ended.
    pub end: Haul<T>,
}

impl<T> Raid<T> {
    /// The shard that comes up after the first `k`.
    pub open spec fn shard(self, k: int) -> int {
        turn(self.start.cursor, self.start.shards.len(), k as nat)
    }

    /// The number of items in the batch after the first `k` shards have come up.
    pub open spec fn size(self, k: int) -> nat {
        self.start.batch.len() + given(self.gifts.take(k))
    }

    /// Nothing is left to do after the first `k` shards have come up: enough other shards were
    /// visited, the batch is full, or all shards have come up.
    pub open spec fn over(self, k: int) -> bool {
        ||| others_before(self.start.cursor, self.start.shards.len(), self.home, k as nat)
            >= self.victims
        ||| self.size(k) >= self.limit
        ||| k >= self.start.shards.len()
    }

    /// The shard that comes up after the first `k` gives all it may, if it is not the home
    /// shard: what it holds, the most that may be taken from a shard, or what there is room for
    /// in the batch, whichever is least. The home shard gives nothing.
    pub open spec fn gives_all_it_may(self, k: int) -> bool {
        let gift = self.gifts[k];
        if self.shard(k) == self.home {
            gift == 0
        } else {
            let held = self.start.shards[self.shard(k)].items.len();
            let room = self.limit - self.size(k);
            &&& gift <= held && gift <= self.most && gift <= room
            &&& gift == held || gift == self.most || gift == room
        }
    }

    /// Each shard that came up lost just what it gave, oldest first.
    pub open spec fn pays(self, k: int) -> bool {
        let (before, after) = (self.start.shards[self.shard(k)], self.end.shards[self.shard(k)]);
        &&& before.items == before.items.take(self.gifts[k] as int) + after.items
        &&& after.capacity == before.capacity
        &&& after.dropped == before.dropped
    }

    /// The shards come up one after the other, from the cursor on, until nothing is left to do.
    /// Each gives all it may, and its oldest items go to the end of the batch, in order. The
    /// shards that have not come up keep all they hold. The cursor ends behind the last one
    /// that came up.
    pub open spec fn proper(self) -> bool {
        let came = self.gifts.len() as int;
        &&& self.over(came)
        &&& forall|k: int|
            0 <= k < came ==> !(#[trigger] self.over(k)) && self.gives_all_it_may(k) && self.pays(k)
        &&& forall|k: int|
            came <= k < self.start.shards.len() ==> self.end.shards[#[trigger] self.shard(k)]
                == self.start.shards[self.shard(k)]
        &&& self.end.shards.len() == self.start.shards.len()
        &&& self.end.batch == self.start.batch + poured(
            self.start.shards,
            self.start.cursor,
            self.gifts,
        )
        &&& self.end.cursor == nth(self.start.cursor, self.gifts.len())
    }
}

proof fn lemma_raid<T>(raid: Raid<T>) -> (gifts: Seq<nat>)
    requires
        ({
            let n = raid.start.shards.len();
            let came = raid.gifts.len();
            &&& n > 0
            &&& came <= n
            &&& in_turn(raid.start.cursor, n, n)
            &&& forall|k: int|
                0 <= k < came ==> !(#[trigger] raid.over(k)) && raid.gives_all_it_may(k)
                    && raid.pays(k)
            &&& forall|k: int|
                came <= k < n ==> raid.end.shards[#[trigger] raid.shard(k)]
                    == raid.start.shards[raid.shard(k)]
            &&& raid.end.shards.len() == n
            &&& raid.end.batch == raid.start.batch + poured(
                raid.start.shards,
                raid.start.cursor,
                raid.gifts,
            )
            &&& raid.end.batch.len() == raid.size(came as int)
            &&& raid.end.cursor == nth(raid.start.cursor, came)
            &&& others_before(raid.start.cursor, n, raid.home, came) <= raid.victims
        }),
    ensures
        ({
            let n = raid.start.shards.len();
            let left = raid.victims - others_before(
                raid.start.cursor,
                n,
                raid.home,
                raid.gifts.len(),
            );
            let end = raid.end.stolen(
                raid.home,
                raid.limit,
                left as nat,
                raid.most,
                (n - raid.gifts.len()) as nat,
            );
            (Raid { gifts, end, ..raid }).proper()
        }),
    decreases raid.start.shards.len() - raid.gifts.len(),
{
    let n = raid.start.shards.len();
    let came = raid.gifts.len();
    let seen = others_before(raid.start.cursor, n, raid.home, came);
    let left = (raid.victims - seen) as nat;
    let probes = (n - came) as nat;
    assert(raid.gifts.take(came as int) =~= raid.gifts);
    if left == 0 || probes == 0 || raid.end.batch.len() >= raid.limit {
        assert(raid.over(came as int));
        assert((Raid { gifts: raid.gifts, end: raid.end, ..raid }) == raid);
        raid.gifts
    } else {
        let v = raid.shard(came as int);
        assert(v == raid.end.victim());
        assert(!raid.over(came as int));
        let home = raid.end.victim() == raid.home;
        let gift: nat = if home {
            0
        } else {
            raid.end.yielded(raid.limit, raid.most) as nat
        };
        let end = if home {
            raid.end.passed()
        } else {
            raid.end.robbed(raid.limit, raid.most)
        };
        let gifts = raid.gifts.push(gift);
        let next = Raid { gifts, end, ..raid };
        assert(gifts.drop_last() =~= raid.gifts);
        assert(gifts.take(came as int + 1) =~= gifts);
        round_robin_covers_all_shards(raid.start.cursor, n);
        assert(raid.end.shards[raid.shard(came as int)] == raid.start.shards[v]);
        assert forall|k: int| 0 <= k <= came implies !(#[trigger] next.over(k))
            && next.gives_all_it_may(k) && next.pays(k) by {
            assert(gifts.take(k) =~= raid.gifts.take(k));
            assert(next.size(k) == raid.size(k));
            assert(next.over(k) == raid.over(k));
            if k < came {
                assert(raid.gives_all_it_may(k) && raid.pays(k));
                assert(turn(raid.start.cursor, n, k as nat) != turn(
                    raid.start.cursor,
                    n,
                    came,
                ));
                assert(next.shard(k) == raid.shard(k));
            } else {
                let items = raid.start.shards[v].items;
                assert(items =~= items.take(gift as int) + items.skip(gift as int));
                assert(items =~= items.take(0) + items);
            }
        }
        assert forall|k: int| came + 1 <= k < n implies next.end.shards[#[trigger] next.shard(k)]
            == next.start.shards[next.shard(k)] by {
            assert(raid.end.shards[raid.shard(k)] == raid.start.shards[raid.shard(k)]);
            assert(turn(raid.start.cursor, n, came) != turn(raid.start.cursor, n, k as nat));
        }
        assert(next.end.batch =~= next.start.batch + poured(
            next.start.shards,
            next.start.cursor,
            gifts,
        ));
        lemma_raid(next)
    }
}

/// Stealing takes all it may: the shards come up one after the other, from the cursor on, until
/// as many shards other than home as may be were visited, or the batch is full, or all have
/// come up. Each visited one gives exactly what it holds, the most that may be taken from it,
/// or what there is room for, whichever is least. This holds of any cursor from which the
/// shards come up in turn.
pub proof fn stealing_takes_all_it_may<T>(
    haul: Haul<T>,
    home: int,
    limit: nat,
    victims: nat,
    most: nat,
) -> (gifts: Seq<nat>)
    requires
        haul.shards.len() > 0,
        in_turn(haul.cursor, haul.shards.len(), haul.shards.len()),
    ensures
        (Raid {
            start: haul,
            home,
            limit,
            victims,
            most,
            gifts,
            end: haul.stolen(home, limit, victims, most, haul.shards.len()),
        }).proper(),
{
    let none = Seq::<nat>::empty();
    let raid = Raid { start: haul, home, limit, victims, most, gifts: none, end: haul };
    assert(none.take(0) =~= none);
    assert(haul.batch =~= haul.batch + poured(haul.shards, haul.cursor, none));
    lemma_raid(raid)
}

/// Topping up is stealing within the configured budgets, from an empty batch too; where
/// stealing is off it does nothing. This holds of any cursor from which the shards come up in
/// turn.
pub proof fn topping_up_takes_all_it_may<T>(
    haul: Haul<T>,
    home: int,
    limit: nat,
    stealing: NormalizedWorkStealing,
) -> (gifts: Seq<nat>)
    requires
        haul.shards.len() > 0,
        in_turn(haul.cursor, haul.shards.len(), haul.shards.len()),
    ensures
        stealing == NormalizedWorkStealing::Off ==> haul.topped_up(home, limit, stealing) == haul,
        stealing matches NormalizedWorkStealing::Opportunistic {
            max_victims_per_idle_tick,
            max_items_per_victim,
        } ==> (Raid {
            start: haul,
            home,
            limit,
            victims: max_victims_per_idle_tick as nat,
            most: max_items_per_victim as nat,
            gifts,
            end: haul.topped_up(home, limit, stealing),
        }).proper(),
{
    match stealing {
        NormalizedWorkStealing::Off => Seq::empty(),
        NormalizedWorkStealing::Opportunistic {
            max_victims_per_idle_tick,
            max_items_per_victim,
        } => stealing_takes_all_it_may(
            haul,
            home,
            limit,
            max_victims_per_idle_tick as nat,
            max_items_per_victim as nat,
        ),
    }
}

/// A batch with room gets an item from the first other shard from the cursor on, if that holds
/// one and stealing is on: the batch grows, and its next item is the oldest of that shard.
pub proof fn the_next_shard_helps_out<T>(
    haul: Haul<T>,
    home: int,
    limit: nat,
    stealing: NormalizedWorkStealing,
    shard: int,
)
    requires
        stealing matches NormalizedWorkStealing::Opportunistic {
            max_victims_per_idle_tick,
            max_items_per_victim,
        } && max_victims_per_idle_tick > 0 && max_items_per_victim > 0,
        haul.batch.len() < limit,
        haul.shards.len() > 1,
        0 <= shard < haul.shards.len(),
        shard != home,
        shard == haul.cursor as int % haul.shards.len() as int || (haul.cursor as int
            % haul.shards.len() as int == home && shard == advanced(haul.cursor) as int
            % haul.shards.len() as int),
        haul.shards[shard].items.len() > 0,
    ensures
        ({
            let after = haul.topped_up(home, limit, stealing).batch;
            &&& after.len() > haul.batch.len()
            &&& after[haul.batch.len() as int] == haul.shards[shard].items[0]
        }),
{
    if let NormalizedWorkStealing::Opportunistic {
        max_victims_per_idle_tick,
        max_items_per_victim,
    } = stealing {
        let (victims, most) = (max_victims_per_idle_tick as nat, max_items_per_victim as nat);
        let n = haul.shards.len();
        let (at, left) = if haul.victim() == home {
            (haul.passed(), (n - 1) as nat)
        } else {
            (haul, n)
        };
        assert(haul.stolen(home, limit, victims, most, n) == at.stolen(
            home,
            limit,
            victims,
            most,
            left,
        ));
        let next = at.robbed(limit, most);
        assert(at.victim() == shard);
        assert(next.batch[haul.batch.len() as int] == haul.shards[shard].items[0]);
        stealing_is_bounded(next, home, limit, (victims - 1) as nat, most, (left - 1) as nat);
    }
}

} // verus!
