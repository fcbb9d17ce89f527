# sharded_sink

A small fire-and-forget sink for fan-in workloads, verified with Verus.

Many producers hand items to a bounded, sharded set of
`crossbeam_queue::ArrayQueue` rings, one per shard. One worker per shard takes the
items out in batches and hands them to a sink action. When a ring is full the sink
sheds the item and counts it rather than applying backpressure.

Items are first in, first out within a shard; there is no order across shards. Set
`shards: 1` for a global order.

## Layout

- `src/` is the library. Every function in it is verified against its contract; the
  only code that is believed is the three calls of `ArrayQueue` in `src/ring.rs`.
  `src/flow.rs` states what holds of a running sink as a whole: each accepted item is
  delivered exactly once, each rejected one is counted exactly once, and a shutdown
  with silent producers drains everything.
- `app/` is the asynchronous runtime around it: Tokio tasks and timers, logging, and
  metrics where they are turned on. The library's contracts speak of what a ring holds
  before and after a call, so each call has the sink to itself: `app/` guards it with
  one lock, which a push may have to wait for. The lock is never held across an await,
  a call of an action, or the drop of a shed item.
- `tests/` runs the library.

## How it works

- **Producers** push through a `ShardHandle`, which is bound to one shard, or without
  a handle, in which case the shard is selected by the thread's home or round-robin.
  Selection is deterministic, never random.
- **Workers** poll their own shard. If that does not fill the batch they may steal a
  bounded number of items from other shards. A worker that finds nothing asks to
  sleep; one that finds the sink cancelled empties its own shard and exits. A batch
  whose drain panics is lost, and the worker goes on.
- **The monitor** samples the drop counters; each rise is one step that asks for the
  overload action to be told.
- **Shutdown** is producer-quiesced and idempotent. A call that is dropped while it
  waits leaves the remaining tasks to the next one.
