//! One shard: a ring and the count of the items it shed.

use vstd::prelude::*;

use crate::ring::{ring_fits, Ring};

verus! {

/// What a shard holds.
#[verifier::ext_equal]
pub struct ShardView<T> {
    /// The buffered items, oldest first.
    pub items: Seq<T>,
    /// How many items the ring can hold.
    pub capacity: nat,
    /// Items shed because the ring was full, counted modulo the counter's width.
    pub dropped: u64,
}

/// The counter's next value.
pub open spec fn counted(dropped: u64) -> u64 {
    if dropped == u64::MAX {
        0
    } else {
        (dropped + 1) as u64
    }
}

impl<T> ShardView<T> {
    /// The ring has room for one more item.
    pub open spec fn accepts(self) -> bool {
        self.items.len() < self.capacity
    }

    /// After an item was pushed: buffered if there was room, else counted.
    pub open spec fn push(self, item: T) -> ShardView<T> {
        if self.accepts() {
            ShardView { items: self.items.push(item), ..self }
        } else {
            ShardView { dropped: counted(self.dropped), ..self }
        }
    }

    /// After the `n` oldest items were taken out.
    pub open spec fn take(self, n: int) -> ShardView<T> {
        ShardView { items: self.items.skip(n), ..self }
    }

    /// The ring can hold something, and never holds more than it can.
    pub open spec fn wf(self) -> bool {
        &&& 0 < self.capacity
        &&& self.items.len() <= self.capacity
    }
}

/// One shard of the sink.
#[verifier::reject_recursive_types(T)]
pub struct Shard<T> {
    ring: Ring<T>,
    dropped: u64,
}

impl<T> View for Shard<T> {
    type V = ShardView<T>;

    closed spec fn view(&self) -> ShardView<T> {
        ShardView { items: self.ring@, capacity: self.ring.capacity(), dropped: self.dropped }
    }
}

/// What each of several shards holds.
pub open spec fn views<T>(shards: Seq<Shard<T>>) -> Seq<ShardView<T>> {
    Seq::new(shards.len(), |i: int| shards[i]@)
}

/// Every shard is within its bounds.
pub open spec fn all_wf<T>(shards: Seq<ShardView<T>>) -> bool {
    forall|i: int| 0 <= i < shards.len() ==> (#[trigger] shards[i]).wf()
}

impl<T> Shard<T> {
    /// An empty shard that can buffer `capacity` items.
    pub fn new(capacity: usize) -> (shard: Shard<T>)
        requires
            0 < capacity,
            ring_fits::<T>(capacity as nat),
        ensures
            shard@ == (ShardView {
                items: Seq::<T>::empty(),
                capacity: capacity as nat,
                dropped: 0,
            }),
            shard@.wf(),
    {
        Shard { ring: Ring::new(capacity), dropped: 0 }
    }

    /// Offers an item to the ring. If the ring is full, the item is counted as shed and
    /// handed back, so that the caller decides where it is dropped. Success touches no
    /// counter.
    pub fn offer(&mut self, item: T) -> (result: Result<(), T>)
        requires
            old(self)@.wf(),
        ensures
            result is Ok == old(self)@.accepts(),
            result matches Err(shed) ==> shed == item,
            final(self)@ == old(self)@.push(item),
            final(self)@.wf(),
    {
        let result = self.ring.push(item);
        if result.is_err() {
            self.dropped = self.dropped.wrapping_add(1);
        }
        result
    }

    /// Pushes an item: `true` if the ring took it, `false` if the ring was full
    /// and the item was shed and counted.
    pub fn push(&mut self, item: T) -> (accepted: bool)
        requires
            old(self)@.wf(),
        ensures
            accepted == old(self)@.accepts(),
            final(self)@ == old(self)@.push(item),
            final(self)@.wf(),
    {
        self.offer(item).is_ok()
    }

    /// Takes out the oldest item, if there is one.
    pub fn pop(&mut self) -> (item: Option<T>)
        requires
            old(self)@.wf(),
        ensures
            old(self)@.items.len() > 0 ==> item == Some(old(self)@.items[0]) && final(self)@
                == old(self)@.take(1),
            old(self)@.items.len() == 0 ==> item is None && final(self)@ == old(self)@,
            final(self)@.wf(),
    {
        let item = self.ring.pop();
        assert(old(self)@.items.len() > 0 ==> old(self)@.items.drop_first()
            =~= old(self)@.items.skip(1));
        item
    }

    /// Items shed so far because the ring was full.
    pub fn dropped(&self) -> (count: u64)
        ensures
            count == self@.dropped,
    {
        self.dropped
    }
}

/// A shard that has room appends what is pushed and touches no counter; one that is full keeps
/// what it holds and counts one drop. Its capacity never changes.
pub proof fn pushes_append_or_count<T>(shard: ShardView<T>, item: T)
    ensures
        ({
            let after = shard.push(item);
            &&& after.capacity == shard.capacity
            &&& shard.accepts() <==> shard.items.len() < shard.capacity
            &&& shard.items.len() < shard.capacity ==> after.items == shard.items.push(item)
                && after.dropped == shard.dropped
            &&& shard.items.len() >= shard.capacity ==> after.items == shard.items
                && after.dropped == (shard.dropped + 1) % (u64::MAX + 1)
        }),
{
}

/// Items come out as they went in: taking out the oldest items gives up just those, and
/// changes neither the order of the others nor the capacity nor the count.
pub proof fn the_oldest_go_first<T>(shard: ShardView<T>, n: int)
    requires
        0 <= n <= shard.items.len(),
    ensures
        shard.items == shard.items.take(n) + shard.take(n).items,
        shard.take(n).capacity == shard.capacity,
        shard.take(n).dropped == shard.dropped,
{
    assert(shard.items =~= shard.items.take(n) + shard.items.skip(n));
}

} // verus!
