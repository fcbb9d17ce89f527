//! Reusable producer handles.

use vstd::prelude::*;

use crate::sink::ShardedSink;

verus! {

/// A reusable producer handle bound to a single shard.
///
/// Issue one handle per request, connection, or producer object and reuse it for
/// all events from that producer: a held handle performs no shard selection. A
/// copy of a handle targets the same shard.
#[derive(Debug, Clone, Copy)]
pub struct ShardHandle {
    shard: usize,
}

impl ShardHandle {
    /// The shard that the handle is bound to.
    pub closed spec fn shard(&self) -> usize {
        self.shard
    }

    /// A handle bound to `shard`.
    pub(crate) fn new(shard: usize) -> (handle: ShardHandle)
        ensures
            handle.shard() == shard,
    {
        ShardHandle { shard }
    }

    /// Offers an item to this handle's shard. A shed item counts one drop on this shard
    /// and is handed back, so that the caller decides where it is dropped. Success
    /// touches no counter.
    pub fn offer<T>(&self, sink: &mut ShardedSink<T>, item: T) -> (result: Result<(), T>)
        requires
            old(sink).wf(),
            self.shard() < old(sink)@.shards.len(),
        ensures
            result is Ok == old(sink)@.shards[self.shard() as int].accepts(),
            result matches Err(shed) ==> shed == item,
            final(sink)@ == old(sink)@.pushed(self.shard() as int, item),
            final(sink).config() == old(sink).config(),
            final(sink).wf(),
    {
        sink.offer_to(self.shard, item)
    }

    /// Pushes an item into this handle's shard.
    ///
    /// Returns `true` if the item was accepted into the ring, `false` if it was
    /// shed because the ring was full, which counts one drop on this shard. `true`
    /// means "accepted into a ring", not "durably delivered". Success touches no
    /// counter.
    #[must_use]
    pub fn push<T>(&self, sink: &mut ShardedSink<T>, item: T) -> (accepted: bool)
        requires
            old(sink).wf(),
            self.shard() < old(sink)@.shards.len(),
        ensures
            accepted == old(sink)@.shards[self.shard() as int].accepts(),
            final(sink)@ == old(sink)@.pushed(self.shard() as int, item),
            final(sink).config() == old(sink).config(),
            final(sink).wf(),
    {
        self.offer(sink, item).is_ok()
    }
}

} // verus!
