//! The bounded ring behind every shard.
//!
//! A ring is a `crossbeam_queue::ArrayQueue`. The queue's own methods take it
//! shared; here each of them takes the ring exclusively, so that a contract can
//! say what the ring holds before and after the call.

use crossbeam_queue::ArrayQueue;
use vstd::arithmetic::div_mod::lemma_fundamental_div_mod;
use vstd::prelude::*;

verus! {

/// `crossbeam_queue::ArrayQueue`, the bounded lock-free queue.
#[verifier::external_type_specification]
#[verifier::external_body]
#[verifier::reject_recursive_types(T)]
pub struct ExArrayQueue<T>(ArrayQueue<T>);

/// A bounded first-in first-out ring of items.
///
/// `items` and `bound` say what `queue` holds and how much it can hold. The
/// fields are private to this module and nothing outside `new`, `push` and `pop`
/// touches them, so they always describe the queue beside them.
#[verifier::reject_recursive_types(T)]
pub struct Ring<T> {
    queue: ArrayQueue<T>,
    items: Ghost<Seq<T>>,
    bound: Ghost<nat>,
}

impl<T> View for Ring<T> {
    type V = Seq<T>;

    /// The buffered items, oldest first.
    closed spec fn view(&self) -> Seq<T> {
        self.items@
    }
}

/// An upper bound on the bytes that one slot of a ring of `T` takes: the item,
/// an eight-byte stamp, and the padding between and behind them.
pub open spec fn slot_bytes<T>() -> nat {
    vstd::layout::size_of::<T>() + vstd::layout::align_of::<T>() + 16
}

/// A ring of this many items of type `T` can be allocated: its slots take no
/// more than the largest allocation that Rust allows.
pub open spec fn ring_fits<T>(capacity: nat) -> bool {
    capacity * slot_bytes::<T>() <= isize::MAX
}

impl<T> Ring<T> {
    /// How many items the ring can hold.
    pub closed spec fn capacity(&self) -> nat {
        self.bound@
    }

    /// A ring can hold something, and never holds more than it can.
    pub open spec fn wf(&self) -> bool {
        &&& 0 < self.capacity()
        &&& self@.len() <= self.capacity()
    }

    /// Tells whether a ring of `capacity` items can be allocated.
    pub fn fits(capacity: usize) -> (ok: bool)
        ensures
            ok == ring_fits::<T>(capacity as nat),
    {
        let size = core::mem::size_of::<T>() as u128;
        let align = core::mem::align_of::<T>() as u128;
        let slot: u128 = size + align + 16;
        let limit: u128 = isize::MAX as u128;
        let most: u128 = limit / slot;
        proof {
            let (l, s, c) = (limit as int, slot as int, capacity as int);
            lemma_fundamental_div_mod(l, s);
            assert(c <= l / s <==> c * s <= l) by (nonlinear_arith)
                requires
                    l == s * (l / s) + l % s,
                    0 <= l % s < s,
            ;
        }
        capacity as u128 <= most
    }

    /// `ArrayQueue::new`: an empty queue of the given capacity. It panics if the
    /// capacity is zero or too large to allocate; both are left out.
    #[verifier::external_body]
    pub(crate) fn new(capacity: usize) -> (ring: Ring<T>)
        requires
            0 < capacity,
            ring_fits::<T>(capacity as nat),
        ensures
            ring@ == Seq::<T>::empty(),
            ring.capacity() == capacity,
    {
        Ring {
            queue: ArrayQueue::new(capacity),
            items: Ghost(Seq::empty()),
            bound: Ghost(capacity as nat),
        }
    }

    /// `ArrayQueue::push`: appends the item, or hands it back if the queue is full.
    #[verifier::external_body]
    pub(crate) fn push(&mut self, item: T) -> (result: Result<(), T>)
        requires
            old(self).wf(),
        ensures
            final(self).capacity() == old(self).capacity(),
            old(self)@.len() < old(self).capacity() ==> result is Ok && final(self)@
                == old(self)@.push(item),
            old(self)@.len() >= old(self).capacity() ==> result is Err && result->Err_0 == item
                && final(self)@ == old(self)@,
    {
        self.queue.push(item)
    }

    /// `ArrayQueue::pop`: removes the oldest item, or gives `None` if the queue is
    /// empty.
    #[verifier::external_body]
    pub(crate) fn pop(&mut self) -> (item: Option<T>)
        requires
            old(self).wf(),
        ensures
            final(self).capacity() == old(self).capacity(),
            old(self)@.len() > 0 ==> item == Some(old(self)@[0]) && final(self)@
                == old(self)@.drop_first(),
            old(self)@.len() == 0 ==> item is None && final(self)@ == old(self)@,
    {
        self.queue.pop()
    }
}

/// A ring fits wherever its slots, each with an item, its alignment and sixteen bytes more, take
/// no more than the largest allocation; so where a ring fits, a smaller one does.
pub proof fn rings_fit_where_memory_allows<T>(capacity: nat, smaller: nat)
    ensures
        ring_fits::<T>(capacity) <==> capacity * (vstd::layout::size_of::<T>()
            + vstd::layout::align_of::<T>() + 16) <= isize::MAX,
        smaller <= capacity && ring_fits::<T>(capacity) ==> ring_fits::<T>(smaller),
{
    if smaller <= capacity {
        vstd::arithmetic::mul::lemma_mul_inequality(
            smaller as int,
            capacity as int,
            slot_bytes::<T>() as int,
        );
    }
}

} // verus!
