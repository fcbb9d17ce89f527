//! Shard selection.
//!
//! There is no random shard issuance. Each thread has a stable seed, drawn on
//! first use, and a monotonic cursor. Selection is `seed % shards` (home) or
//! `cursor % shards` (round-robin), so the same thread state serves any number of
//! sinks with differing shard counts.

use vstd::arithmetic::div_mod::{lemma_fundamental_div_mod, lemma_mod_multiples_vanish};
use vstd::prelude::*;

use crate::config::ShardSelection;

verus! {

/// One more, wrapping around at the largest size.
pub open spec fn advanced(cursor: usize) -> usize {
    if cursor == usize::MAX {
        0
    } else {
        (cursor + 1) as usize
    }
}

/// Hands out a seed to each thread that asks for one.
#[derive(Debug)]
pub struct SeedSource {
    next: usize,
}

impl SeedSource {
    /// The seed that is handed out next.
    pub closed spec fn upcoming(&self) -> usize {
        self.next
    }

    /// A source that starts at zero.
    pub fn new() -> (source: SeedSource)
        ensures
            source.upcoming() == 0,
    {
        SeedSource { next: 0 }
    }

    /// Draws a seed.
    pub fn draw(&mut self) -> (seed: usize)
        ensures
            seed == old(self).upcoming(),
            final(self).upcoming() == advanced(old(self).upcoming()),
    {
        let seed: usize = self.next;
        self.next = seed.wrapping_add(1);
        seed
    }
}

/// What one thread remembers between selections.
#[derive(Debug)]
pub struct ThreadState {
    seed: Option<usize>,
    cursor: usize,
}

impl ThreadState {
    /// The thread's seed, once it has one.
    pub closed spec fn seed(&self) -> Option<usize> {
        self.seed
    }

    /// The thread's round-robin cursor.
    pub closed spec fn cursor(&self) -> usize {
        self.cursor
    }

    /// The seed that the thread has, or else gets from `source`.
    pub open spec fn seed_from(&self, source: &SeedSource) -> usize {
        match self.seed() {
            Some(seed) => seed,
            None => source.upcoming(),
        }
    }

    /// A thread that has not selected a shard yet.
    pub fn new() -> (thread: ThreadState)
        ensures
            thread.seed() is None,
            thread.cursor() == 0,
    {
        ThreadState { seed: None, cursor: 0 }
    }

    /// Whether the thread has drawn its seed, and so needs no source any more.
    pub fn is_seeded(&self) -> (seeded: bool)
        ensures
            seeded == self.seed() is Some,
    {
        self.seed.is_some()
    }
}

/// `thread` has drawn its seed from `source`, unless it had one; nothing else
/// changed.
pub open spec fn seeded(
    before: ThreadState,
    source_before: SeedSource,
    after: ThreadState,
    source_after: SeedSource,
) -> bool {
    &&& after.seed() == Some(before.seed_from(&source_before))
    &&& after.cursor() == before.cursor()
    &&& source_after.upcoming() == if before.seed() is Some {
        source_before.upcoming()
    } else {
        advanced(source_before.upcoming())
    }
}

/// The thread's stable seed, drawn from `source` on first use.
pub fn thread_seed(thread: &mut ThreadState, source: &mut SeedSource) -> (seed: usize)
    ensures
        seed == old(thread).seed_from(old(source)),
        seeded(*old(thread), *old(source), *final(thread), *final(source)),
{
    match thread.seed {
        Some(seed) => seed,
        None => {
            let seed: usize = source.draw();
            thread.seed = Some(seed);
            seed
        },
    }
}

/// The thread's stable home shard.
pub fn home_shard(thread: &mut ThreadState, source: &mut SeedSource, shards: usize) -> (shard:
    usize)
    requires
        shards > 0,
    ensures
        shard == old(thread).seed_from(old(source)) % shards,
        shard < shards,
        seeded(*old(thread), *old(source), *final(thread), *final(source)),
{
    thread_seed(thread, source) % shards
}

/// The thread's next shard in turn.
pub fn next_round_robin(thread: &mut ThreadState, shards: usize) -> (shard: usize)
    requires
        shards > 0,
    ensures
        shard == old(thread).cursor() % shards,
        shard < shards,
        final(thread).cursor() == advanced(old(thread).cursor()),
        final(thread).seed() == old(thread).seed(),
{
    let cursor: usize = thread.cursor;
    thread.cursor = cursor.wrapping_add(1);
    cursor % shards
}

/// The home shard of a thread with this seed.
pub open spec fn home_of(seed: usize, shards: nat) -> int {
    seed as int % shards as int
}

/// The shard that a handle-less push goes to, by a thread with this seed and this cursor.
pub open spec fn chosen(selection: ShardSelection, seed: usize, cursor: usize, shards: nat) -> int {
    match selection {
        ShardSelection::ThreadLocalHome => home_of(seed, shards),
        ShardSelection::ThreadLocalRoundRobin => cursor as int % shards as int,
    }
}

/// The thread's cursor after a handle-less push.
pub open spec fn cursor_after(selection: ShardSelection, cursor: usize) -> usize {
    match selection {
        ShardSelection::ThreadLocalHome => cursor,
        ShardSelection::ThreadLocalRoundRobin => advanced(cursor),
    }
}

/// How many values a cursor runs through before it wraps around.
pub open spec fn lap() -> int {
    usize::MAX + 1
}

/// Where a cursor stands after it was advanced `k` times.
pub open spec fn nth(cursor: usize, k: nat) -> usize
    decreases k,
{
    if k == 0 {
        cursor
    } else {
        advanced(nth(cursor, (k - 1) as nat))
    }
}

/// The shard that a cursor falls on after it was advanced `k` times.
pub open spec fn turn(cursor: usize, shards: nat, k: nat) -> int {
    nth(cursor, k) as int % shards as int
}

/// A shard comes up in a round that starts at a cursor.
pub open spec fn comes_up(cursor: usize, shards: nat, shard: int) -> bool {
    exists|k: nat| k < shards && #[trigger] turn(cursor, shards, k) == shard
}

/// The next `steps` positions of a cursor fall on shards in turn: either it does not
/// wrap around on the way, or a lap is a whole number of rounds over the shards, so
/// that wrapping around makes no difference.
pub open spec fn in_turn(cursor: usize, steps: nat, shards: nat) -> bool {
    cursor + steps <= lap() || lap() % shards as int == 0
}

/// Advancing the cursor moves on to the next shard.
pub proof fn lemma_in_turn_step(cursor: usize, steps: nat, shards: nat, k: int)
    requires
        shards > 0,
        steps > 0,
        in_turn(cursor, steps, shards),
        0 <= k < steps - 1,
    ensures
        (advanced(cursor) + k) % shards as int == (cursor + (k + 1)) % shards as int,
{
    if cursor == usize::MAX {
        let (n, l) = (shards as int, lap());
        lemma_fundamental_div_mod(l, n);
        lemma_mod_multiples_vanish(l / n, k, n);
        assert((k + l) % n == k % n);
    }
}

/// Two different positions less than a round apart fall on different shards.
pub proof fn lemma_hits_differ(cursor: int, shards: int, i: int, j: int)
    requires
        0 <= i < j < shards,
    ensures
        (cursor + i) % shards != (cursor + j) % shards,
{
    let (a, b) = (cursor + i, cursor + j);
    if a % shards == b % shards {
        lemma_fundamental_div_mod(a, shards);
        lemma_fundamental_div_mod(b, shards);
        assert(b - a == shards * (b / shards - a / shards)) by (nonlinear_arith)
            requires
                a == shards * (a / shards) + a % shards,
                b == shards * (b / shards) + b % shards,
                a % shards == b % shards,
        ;
        assert(false) by (nonlinear_arith)
            requires
                0 < b - a < shards,
                b - a == shards * (b / shards - a / shards),
        ;
    }
}

/// The shard that the `k`-th position falls on.
pub proof fn lemma_nth_in_turn(cursor: usize, steps: nat, shards: nat, k: nat)
    requires
        shards > 0,
        k < steps,
        in_turn(cursor, steps, shards),
    ensures
        nth(cursor, k) as int % shards as int == (cursor + k) % shards as int,
{
    lemma_nth(cursor, k);
    let (n, l) = (shards as int, lap());
    if cursor + steps <= l {
        vstd::arithmetic::div_mod::lemma_small_mod((cursor + k) as nat, l as nat);
    } else {
        let m = cursor + k;
        lemma_fundamental_div_mod(m, l);
        lemma_fundamental_div_mod(l, n);
        let (q, r) = (m / l, l / n);
        assert(m == n * (r * q) + m % l) by (nonlinear_arith)
            requires
                m == l * q + m % l,
                l == n * r,
        ;
        lemma_mod_multiples_vanish(r * q, m % l, n);
    }
}

proof fn lemma_nth(cursor: usize, k: nat)
    ensures
        nth(cursor, k) == (cursor + k) % lap(),
    decreases k,
{
    let l = lap();
    if k == 0 {
        vstd::arithmetic::div_mod::lemma_small_mod(cursor as nat, l as nat);
    } else {
        let m = cursor + k - 1;
        lemma_nth(cursor, (k - 1) as nat);
        vstd::arithmetic::div_mod::lemma_add_mod_noop(m, 1, l);
        vstd::arithmetic::div_mod::lemma_small_mod(1, l as nat);
        if m % l == l - 1 {
            vstd::arithmetic::div_mod::lemma_mod_self_0(l);
        } else {
            vstd::arithmetic::div_mod::lemma_small_mod((m % l + 1) as nat, l as nat);
        }
    }
}

/// Round-robin is fair: among any `shards` consecutive selections, each shard comes
/// up exactly once. This holds of any starting cursor from which the shards come up
/// in turn.
pub proof fn round_robin_covers_all_shards(cursor: usize, shards: nat)
    requires
        shards > 0,
        in_turn(cursor, shards, shards),
    ensures
        forall|i: nat, j: nat|
            i < j < shards ==> #[trigger] turn(cursor, shards, i) != #[trigger] turn(
                cursor,
                shards,
                j,
            ),
        forall|shard: int| 0 <= shard < shards ==> #[trigger] comes_up(cursor, shards, shard),
{
    let n = shards as int;
    assert forall|i: nat, j: nat| i < j < shards implies #[trigger] turn(cursor, shards, i)
        != #[trigger] turn(cursor, shards, j) by {
        lemma_nth_in_turn(cursor, shards, shards, i);
        lemma_nth_in_turn(cursor, shards, shards, j);
        lemma_hits_differ(cursor as int, n, i as int, j as int);
    }
    assert forall|shard: int| 0 <= shard < shards implies #[trigger] comes_up(
        cursor,
        shards,
        shard,
    ) by {
        let k = ((shard - cursor) % n) as nat;
        lemma_nth_in_turn(cursor, shards, shards, k);
        vstd::arithmetic::div_mod::lemma_add_mod_noop_right(cursor as int, shard - cursor, n);
        vstd::arithmetic::div_mod::lemma_small_mod(shard as nat, shards);
        assert(turn(cursor, shards, k) == shard);
    }
}

/// Seeds are unique: a source hands out the same seed twice only after all others.
pub proof fn seeds_are_unique(first: usize, i: nat, j: nat)
    requires
        i < j < i + lap(),
    ensures
        nth(first, i) != nth(first, j),
{
    lemma_nth(first, i);
    lemma_nth(first, j);
    lemma_hits_differ(first + i, lap(), 0, j - i);
}

/// A home shard is stable: once a thread has drawn its seed, it keeps it whatever
/// the source hands out next, and draws no other.
pub proof fn home_is_stable(
    thread: ThreadState,
    source: SeedSource,
    seeded_thread: ThreadState,
    seeded_source: SeedSource,
    later_source: SeedSource,
    later_thread: ThreadState,
    last_source: SeedSource,
)
    requires
        seeded(thread, source, seeded_thread, seeded_source),
        seeded(seeded_thread, later_source, later_thread, last_source),
    ensures
        seeded_thread.seed_from(&later_source) == thread.seed_from(&source),
        later_thread.seed() == seeded_thread.seed(),
        last_source.upcoming() == later_source.upcoming(),
{
}

/// A cursor moves up by one, and only from the largest size back to zero.
pub proof fn cursors_move_up_by_one(cursor: usize)
    ensures
        cursor < usize::MAX ==> advanced(cursor) == cursor + 1,
        advanced(usize::MAX) == 0,
{
}

/// Seeds are handed out one after the other: a thread that has no seed gets the upcoming one
/// and no other, the next such thread gets the one after it, and a thread that has a seed
/// takes none away.
pub proof fn threads_draw_consecutive_seeds(
    first: ThreadState,
    source: SeedSource,
    seeded_first: ThreadState,
    between: SeedSource,
    second: ThreadState,
    seeded_second: ThreadState,
    last: SeedSource,
)
    requires
        seeded(first, source, seeded_first, between),
        seeded(second, between, seeded_second, last),
    ensures
        seeded_first.seed() == Some(first.seed_from(&source)),
        first.seed() is None ==> seeded_first.seed() == Some(source.upcoming()),
        first.seed() is Some ==> seeded_first.seed() == first.seed() && between.upcoming()
            == source.upcoming(),
        first.seed() is None && second.seed() is None && source.upcoming() < usize::MAX ==> {
            &&& seeded_second.seed() is Some
            &&& seeded_second.seed()->0 == seeded_first.seed()->0 + 1
        },
        seeded_first.cursor() == first.cursor(),
{
}

/// The homes of threads with consecutive seeds are the shards one after the other: the first
/// seeds name their homes, a seed that is larger by the number of shards has the same home,
/// and of seeds that differ by less each has another.
pub proof fn homes_spread_over_all_shards(seed: usize, other: usize, cursor: usize, shards: nat)
    requires
        shards > 0,
    ensures
        ({
            let home = ShardSelection::ThreadLocalHome;
            let one = chosen(home, seed, cursor, shards);
            let two = chosen(home, other, cursor, shards);
            &&& 0 <= one < shards
            &&& seed < shards ==> one == seed
            &&& other == seed + shards ==> two == one
            &&& seed < other < seed + shards ==> two != one
            &&& home_of(seed, shards) == one
            &&& cursor_after(home, cursor) == cursor
        }),
{
    let n = shards as int;
    vstd::arithmetic::div_mod::lemma_mod_bound(seed as int, n);
    if seed < shards {
        vstd::arithmetic::div_mod::lemma_small_mod(seed as nat, shards);
    }
    if other == seed + shards {
        vstd::arithmetic::div_mod::lemma_mod_add_multiples_vanish(seed as int, n);
    }
    if seed < other < seed + shards {
        lemma_hits_differ(seed as int, n, 0, other - seed);
    }
}

/// Round-robin goes from shard to shard: the first cursors name their shards, one that is
/// larger by the number of shards selects the same, of cursors that differ by less each
/// selects another, and each selection moves the cursor up by one.
pub proof fn round_robin_goes_from_shard_to_shard(
    seed: usize,
    cursor: usize,
    other: usize,
    shards: nat,
)
    requires
        shards > 0,
    ensures
        ({
            let round_robin = ShardSelection::ThreadLocalRoundRobin;
            let one = chosen(round_robin, seed, cursor, shards);
            let two = chosen(round_robin, seed, other, shards);
            &&& 0 <= one < shards
            &&& cursor < shards ==> one == cursor
            &&& other == cursor + shards ==> two == one
            &&& cursor < other < cursor + shards ==> two != one
            &&& cursor < usize::MAX ==> cursor_after(round_robin, cursor) == cursor + 1
        }),
{
    homes_spread_over_all_shards(cursor, other, 0, shards);
}

} // verus!
