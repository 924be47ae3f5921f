# work-queue

A work-stealing queue for building schedulers, verified with Verus.

Each worker holds a fixed-capacity local queue, and there is also an unbounded global queue that all
workers share. In the general case each worker only interacts with its local queue. If one worker
happens to have a lot less work than another, the work is spread out by stealing.

Additionally, each local queue stores a non-stealable LIFO slot to optimize for message passing
patterns, so that if one task creates another, that created task will be polled immediately, instead
of only much later when it reaches the front of the local queue.

- Work stealing is done automatically when calling `pop`.
- Queues have a fixed number of local queues that they support, and this number cannot grow.
- Each local queue has a fixed capacity, which is a power of two.

## Layout

- `src/queue.rs`: `Queue`, the state that the local queues share, and `LocalQueue`, whose operations
  take it. Popping is made of indivisible steps, so that the local queues can be run in any order.
- `src/ring.rs`: the fixed-capacity queue of a local queue, with its two heads.
- `src/heads.rs`, `src/cell.rs`: how the heads and the slots are stored.
- `src/global.rs`: the global queue, on top of the `concurrent-queue` crate.
- `src/identity.rs`: what tells one queue from another, so that a local queue is used with its own
  queue only.
- `src/rng.rs`: the generator that picks the sibling a search starts from, and why every pick ends.
- `src/uniform.rs`: every number is as likely to be picked as any other.
- `src/model.rs`: the mathematical model that the contracts speak of.
- `src/run.rs`: what a search comes to if nothing interferes with it, and that it ends.
- `src/system.rs`: what holds in every state that local queues at work side by side can reach.
- `src/items.rs`: no item is lost or duplicated.
- `src/laws.rs`: in which order items come out, and when none does.
- `app/`: handles through which threads share a queue.
- `tests/`: scenarios.
