//! The mathematical model of a work queue: what it holds, and what each operation makes of that.
use vstd::prelude::*;

use crate::identity::Identity;
use crate::ring::RingView;
use crate::rng::{pick, pick_state};

verus! {

/// What a work queue holds.
#[verifier::ext_equal]
pub struct QueueView<T> {
    /// Which queue this is.
    pub id: Identity,
    /// The fixed-capacity queue of each local queue.
    pub rings: Seq<RingView<T>>,
    /// The items in the global queue, the first to be popped first.
    pub global: Seq<T>,
    /// Whether a local queue is currently stealing from the global queue.
    pub stealing_global: bool,
    /// Whether the local queues have already been yielded.
    pub taken: bool,
    /// The number of local queues searching for work.
    pub searchers: usize,
}

/// How far a local queue is with a search for work, and the items it has in hand meanwhile.
#[verifier::ext_equal]
pub enum SearchView<T> {
    /// Not searching.
    Idle,
    /// The local queue is empty; about to be counted as a searcher.
    Entering,
    /// About to see whether another local queue is stealing from the global queue.
    Acquiring,
    /// The only one stealing from the global queue; about to pop its first item.
    Popping,
    /// Gathering up to `limit` more items from the global queue.
    Refilling { first: T, batch: Seq<T>, limit: nat },
    /// About to push the gathered items to the local queue.
    Refilled { first: T, batch: Seq<T> },
    /// About to let others steal from the global queue.
    Releasing { found: Option<T> },
    /// About to pick the sibling to look at first.
    Picking,
    /// Looking at the siblings, having looked at `visited` of them.
    Probing { start: int, visited: int },
    /// About to take the `count` items that were claimed from a sibling.
    Copying { victim: int, count: int },
    /// About to tell the sibling that its items have been taken.
    Finishing { victim: int, first: T, batch: Seq<T> },
    /// About to push the stolen items to the local queue.
    Stolen { first: T, batch: Seq<T> },
    /// About to pop from the global queue whoever else is stealing from it.
    LastResort,
    /// About to be no longer counted as a searcher.
    Leaving { found: Option<T> },
}

/// What a local queue holds besides the slots in the shared state.
#[verifier::ext_equal]
pub struct LocalView<T> {
    /// Which queue it is one of the local queues of.
    pub queue: Identity,
    /// Which of the fixed-capacity queues it owns.
    pub index: int,
    /// The item that is popped first.
    pub lifo_slot: Option<T>,
    /// The state of its random number generator.
    pub rng: u64,
    /// How far it is with a search for work.
    pub search: SearchView<T>,
}

/// What an operation leaves behind, and the item it came up with.
#[verifier::ext_equal]
pub struct Popped<T> {
    pub queue: QueueView<T>,
    pub local: LocalView<T>,
    pub item: Option<T>,
}

/// What one step of a search leaves behind, and the outcome of the search once it is over.
#[verifier::ext_equal]
pub struct Stepped<T> {
    pub queue: QueueView<T>,
    pub local: LocalView<T>,
    pub outcome: Option<Option<T>>,
}

/// Whether a local queue can steal from another.
pub open spec fn can_steal<T>(rings: Seq<RingView<T>>, index: int, victim: int) -> bool {
    &&& victim != index
    &&& rings[victim].claimed.len() == 0
    &&& rings[victim].ready.len() > 0
}

/// Which of `queues` local queues is looked at after `visited` others, starting from `start`.
pub open spec fn sibling(queues: nat, start: int, visited: int) -> int {
    if start + visited < queues {
        start + visited
    } else {
        start + visited - queues
    }
}

/// The first local queue that `index` can steal from, starting from `start` and leaving out those
/// that were visited.
pub open spec fn first_victim<T>(
    rings: Seq<RingView<T>>,
    index: int,
    start: int,
    visited: int,
) -> Option<int>
    decreases rings.len() - visited,
{
    let victim = sibling(rings.len(), start, visited);
    if visited >= rings.len() {
        None
    } else if can_steal(rings, index, victim) {
        Some(victim)
    } else {
        first_victim(rings, index, start, visited + 1)
    }
}

/// Whether none of the local queues can be stolen from by the one number `index`.
pub open spec fn nothing_to_steal<T>(rings: Seq<RingView<T>>, index: int) -> bool {
    forall|victim: int| 0 <= victim < rings.len() ==> !#[trigger] can_steal(rings, index, victim)
}

impl<T> QueueView<T> {
    /// A work queue without items.
    pub open spec fn empty(id: Identity, local_queues: nat, local_queue_size: nat) -> Self {
        QueueView {
            id,
            rings: Seq::new(local_queues, |i: int| RingView::empty(local_queue_size)),
            global: Seq::empty(),
            stealing_global: false,
            taken: false,
            searchers: 0,
        }
    }

    /// What every work queue keeps: all local queues have the same size, and none holds more than
    /// that.
    pub open spec fn wf(self) -> bool {
        &&& self.rings.len() <= usize::MAX
        &&& forall|i: int| 0 <= i < self.rings.len() ==> (#[trigger] self.rings[i]).wf()
        &&& forall|i: int, j: int|
            0 <= i < self.rings.len() && 0 <= j < self.rings.len() ==> (
            #[trigger] self.rings[i]).capacity == (#[trigger] self.rings[j]).capacity
    }

    pub open spec fn with_ring(self, index: int, ring: RingView<T>) -> Self {
        QueueView { rings: self.rings.update(index, ring), ..self }
    }

    pub open spec fn with_global(self, global: Seq<T>) -> Self {
        QueueView { global, ..self }
    }

    pub open spec fn with_stealing_global(self, stealing_global: bool) -> Self {
        QueueView { stealing_global, ..self }
    }

    /// One more searcher. The counter wraps around.
    pub open spec fn enter(self) -> Self {
        QueueView {
            searchers: if self.searchers == usize::MAX {
                0
            } else {
                (self.searchers + 1) as usize
            },
            ..self
        }
    }

    /// One searcher less. The counter wraps around.
    pub open spec fn leave(self) -> Self {
        QueueView {
            searchers: if self.searchers == 0 {
                usize::MAX
            } else {
                (self.searchers - 1) as usize
            },
            ..self
        }
    }

    /// The queue with an item pushed to the global queue.
    pub open spec fn push(self, item: T) -> Self {
        self.with_global(self.global.push(item))
    }

    /// The queue with an item pushed to a local queue, past its LIFO slot.
    ///
    /// If the local queue is full, half of its items move to the global queue, and the pushed item
    /// behind them. While a stealer is at work on it, it is about to become less full, so only the
    /// pushed item goes to the global queue.
    pub open spec fn push_yield(self, index: int, item: T) -> Self {
        let ring = self.rings[index];
        let half = ring.capacity as int / 2;
        if ring.room() > 0 {
            self.with_ring(index, ring.append(seq![item]))
        } else if ring.claimed.len() == 0 {
            self.with_ring(index, ring.skip(half)).with_global(
                (self.global + ring.ready.take(half)).push(item),
            )
        } else {
            self.push(item)
        }
    }

    /// How many items a local queue gathers from the global queue for itself: half of its size, or
    /// less where a stealer still protects its slots.
    pub open spec fn refill_limit(self, index: int) -> int {
        let ring = self.rings[index];
        if ring.room() < ring.capacity as int / 2 {
            ring.room()
        } else {
            ring.capacity as int / 2
        }
    }

    /// How many items a local queue claims from a sibling: half of the sibling's items, rounded
    /// up, or less where a stealer still protects its own slots. One of them is popped at once.
    pub open spec fn steal_count(self, index: int, victim: int) -> int {
        self.rings[victim].stealable(self.rings[index].room() + 1)
    }

    /// What comes of popping from the global queue whoever else is stealing from it.
    pub open spec fn pop_global(self, local: LocalView<T>) -> Popped<T> {
        if self.global.len() == 0 {
            Popped { queue: self, local, item: None }
        } else {
            Popped {
                queue: self.with_global(self.global.drop_first()),
                local,
                item: Some(self.global[0]),
            }
        }
    }

    /// What comes of stealing from the global queue: its first item is popped, and those behind it
    /// fill the local queue.
    pub open spec fn refill(self, local: LocalView<T>) -> Popped<T> {
        let limit = self.refill_limit(local.index);
        let end = if limit + 1 < self.global.len() {
            limit + 1
        } else {
            self.global.len() as int
        };
        let ring = self.rings[local.index];
        Popped {
            queue: self.with_ring(
                local.index,
                ring.append(self.global.subrange(1, end)),
            ).with_global(self.global.skip(end)),
            local,
            item: Some(self.global[0]),
        }
    }

    /// What comes of stealing from a sibling: the first item that is stolen is popped, and those
    /// behind it fill the local queue.
    pub open spec fn steal(self, local: LocalView<T>, victim: int) -> Popped<T> {
        let count = self.steal_count(local.index, victim);
        let from = self.rings[victim];
        let to = self.rings[local.index];
        Popped {
            queue: self.with_ring(victim, from.skip(count)).with_ring(
                local.index,
                to.append(from.ready.subrange(1, count)),
            ),
            local,
            item: Some(from.ready[0]),
        }
    }

    /// Whether `popped` is what looking for items at the siblings, and at last in the global queue,
    /// can come to, wherever it starts.
    pub open spec fn may_steal_or_pop_global(self, local: LocalView<T>, popped: Popped<T>) -> bool {
        if nothing_to_steal(self.rings, local.index) {
            &&& popped.queue == self.pop_global(local).queue
            &&& popped.item == self.pop_global(local).item
        } else {
            exists|victim: int|
                {
                    &&& 0 <= victim < self.rings.len()
                    &&& #[trigger] can_steal(self.rings, local.index, victim)
                    &&& popped.queue == self.steal(local, victim).queue
                    &&& popped.item == self.steal(local, victim).item
                }
        }
    }

    /// What comes of looking for items at the siblings, starting from `start`, and at last in the
    /// global queue.
    pub open spec fn steal_or_pop_global(
        self,
        local: LocalView<T>,
        start: int,
        visited: int,
    ) -> Popped<T> {
        match first_victim(self.rings, local.index, start, visited) {
            Some(victim) => self.steal(local, victim),
            None => self.pop_global(local),
        }
    }

    /// What comes of looking for items at the siblings, starting from a random one, and at last
    /// in the global queue.
    pub open spec fn pick_and_steal(self, local: LocalView<T>) -> Popped<T> {
        let queues = self.rings.len() as usize;
        self.steal_or_pop_global(
            LocalView { rng: pick_state(local.rng, queues), ..local },
            pick(local.rng, queues),
            0,
        )
    }

    /// What comes of popping from a local queue: the item in its LIFO slot, else the first of its
    /// other items, else one stolen from the global queue unless another local queue is currently
    /// stealing from that, else one stolen from a sibling, else one popped from the global queue.
    pub open spec fn pop(self, local: LocalView<T>) -> Popped<T> {
        let ring = self.rings[local.index];
        if local.lifo_slot is Some {
            Popped {
                queue: self,
                local: LocalView { lifo_slot: None, ..local },
                item: local.lifo_slot,
            }
        } else if ring.ready.len() > 0 {
            Popped {
                queue: self.with_ring(local.index, ring.pop()),
                local,
                item: Some(ring.ready[0]),
            }
        } else if !self.stealing_global && self.global.len() > 0 {
            self.refill(local)
        } else {
            self.pick_and_steal(local)
        }
    }
}

impl<T> LocalView<T> {
    /// A local queue without items of its own that is not searching.
    pub open spec fn fresh(queue: Identity, index: int, rng: u64) -> Self {
        LocalView { queue, index, lifo_slot: None, rng, search: SearchView::Idle }
    }

    pub open spec fn at(self, search: SearchView<T>) -> Self {
        LocalView { search, ..self }
    }

    /// Whether this is one of the local queues of `queue`, and what its search has in hand and has
    /// claimed agrees with what `queue` holds.
    pub open spec fn belongs_to(self, queue: QueueView<T>) -> bool {
        &&& self.queue == queue.id
        &&& 0 <= self.index < queue.rings.len()
        &&& match self.search {
            SearchView::Popping => queue.stealing_global,
            SearchView::Refilling { first, batch, limit } => {
                &&& queue.stealing_global
                &&& batch.len() <= limit <= queue.rings[self.index].room()
            },
            SearchView::Refilled { first, batch } => {
                &&& queue.stealing_global
                &&& batch.len() <= queue.rings[self.index].room()
            },
            SearchView::Releasing { found } => queue.stealing_global,
            SearchView::Probing { start, visited } => {
                &&& 0 <= start < queue.rings.len()
                &&& 0 <= visited <= queue.rings.len()
            },
            SearchView::Copying { victim, count } => {
                &&& 0 <= victim < queue.rings.len()
                &&& victim != self.index
                &&& 1 <= count <= queue.rings[self.index].room() + 1
                &&& queue.rings[victim].holds_claimed(count)
                &&& queue.rings[victim].empty_beyond(count)
            },
            SearchView::Finishing { victim, first, batch } => {
                &&& 0 <= victim < queue.rings.len()
                &&& victim != self.index
                &&& queue.rings[victim].claimed.len() > 0
                &&& queue.rings[victim].empty_beyond(0)
                &&& batch.len() <= queue.rings[self.index].room()
            },
            SearchView::Stolen { first, batch } => batch.len() <= queue.rings[self.index].room(),
            _ => true,
        }
    }

    /// The local queue with an item pushed to its LIFO slot, and `queue` with the item that was
    /// there before pushed past it.
    pub open spec fn push(self, queue: QueueView<T>, item: T) -> (QueueView<T>, LocalView<T>) {
        (
            match self.lifo_slot {
                Some(previous) => queue.push_yield(self.index, previous),
                None => queue,
            },
            LocalView { lifo_slot: Some(item), ..self },
        )
    }

    /// One indivisible step of a search for work.
    pub open spec fn step(self, queue: QueueView<T>) -> Stepped<T> {
        let ring = queue.rings[self.index];
        match self.search {
            SearchView::Idle => if self.lifo_slot is Some {
                Stepped {
                    queue,
                    local: LocalView { lifo_slot: None, ..self },
                    outcome: Some(self.lifo_slot),
                }
            } else if ring.ready.len() > 0 {
                Stepped {
                    queue: queue.with_ring(self.index, ring.pop()),
                    local: self,
                    outcome: Some(Some(ring.ready[0])),
                }
            } else {
                Stepped { queue, local: self.at(SearchView::Entering), outcome: None }
            },
            SearchView::Entering => Stepped {
                queue: queue.enter(),
                local: self.at(SearchView::Acquiring),
                outcome: None,
            },
            SearchView::Acquiring => Stepped {
                queue: queue.with_stealing_global(true),
                local: self.at(
                    if queue.stealing_global {
                        SearchView::Picking
                    } else {
                        SearchView::Popping
                    },
                ),
                outcome: None,
            },
            SearchView::Popping => if queue.global.len() == 0 {
                Stepped {
                    queue,
                    local: self.at(SearchView::Releasing { found: None }),
                    outcome: None,
                }
            } else {
                Stepped {
                    queue: queue.with_global(queue.global.drop_first()),
                    local: self.at(
                        SearchView::Refilling {
                            first: queue.global[0],
                            batch: Seq::empty(),
                            limit: queue.refill_limit(self.index) as nat,
                        },
                    ),
                    outcome: None,
                }
            },
            SearchView::Refilling { first, batch, limit } => if batch.len() < limit
                && queue.global.len() > 0 {
                Stepped {
                    queue: queue.with_global(queue.global.drop_first()),
                    local: self.at(
                        SearchView::Refilling { first, batch: batch.push(queue.global[0]), limit },
                    ),
                    outcome: None,
                }
            } else {
                Stepped {
                    queue,
                    local: self.at(SearchView::Refilled { first, batch }),
                    outcome: None,
                }
            },
            SearchView::Refilled { first, batch } => Stepped {
                queue: queue.with_ring(self.index, ring.append(batch)),
                local: self.at(SearchView::Releasing { found: Some(first) }),
                outcome: None,
            },
            SearchView::Releasing { found } => Stepped {
                queue: queue.with_stealing_global(false),
                local: self.at(
                    if found is Some {
                        SearchView::Leaving { found }
                    } else {
                        SearchView::Picking
                    },
                ),
                outcome: None,
            },
            SearchView::Picking => {
                let queues = queue.rings.len() as usize;
                Stepped {
                    queue,
                    local: LocalView {
                        rng: pick_state(self.rng, queues),
                        search: SearchView::Probing { start: pick(self.rng, queues), visited: 0 },
                        ..self
                    },
                    outcome: None,
                }
            },
            SearchView::Probing { start, visited } => {
                let victim = sibling(queue.rings.len(), start, visited);
                if visited >= queue.rings.len() {
                    Stepped { queue, local: self.at(SearchView::LastResort), outcome: None }
                } else if can_steal(queue.rings, self.index, victim) {
                    let count = queue.steal_count(self.index, victim);
                    Stepped {
                        queue: queue.with_ring(victim, queue.rings[victim].claim(count)),
                        local: self.at(SearchView::Copying { victim, count }),
                        outcome: None,
                    }
                } else {
                    Stepped {
                        queue,
                        local: self.at(SearchView::Probing { start, visited: visited + 1 }),
                        outcome: None,
                    }
                }
            },
            SearchView::Copying { victim, count } => {
                let items = queue.rings[victim].claimed_items(count);
                Stepped {
                    queue: queue.with_ring(victim, queue.rings[victim].take_claimed(count)),
                    local: self.at(
                        SearchView::Finishing {
                            victim,
                            first: items[0],
                            batch: items.drop_first(),
                        },
                    ),
                    outcome: None,
                }
            },
            SearchView::Finishing { victim, first, batch } => Stepped {
                queue: queue.with_ring(victim, queue.rings[victim].release()),
                local: self.at(SearchView::Stolen { first, batch }),
                outcome: None,
            },
            SearchView::Stolen { first, batch } => Stepped {
                queue: queue.with_ring(self.index, ring.append(batch)),
                local: self.at(SearchView::Leaving { found: Some(first) }),
                outcome: None,
            },
            SearchView::LastResort => if queue.global.len() == 0 {
                Stepped {
                    queue,
                    local: self.at(SearchView::Leaving { found: None }),
                    outcome: None,
                }
            } else {
                Stepped {
                    queue: queue.with_global(queue.global.drop_first()),
                    local: self.at(SearchView::Leaving { found: Some(queue.global[0]) }),
                    outcome: None,
                }
            },
            SearchView::Leaving { found } => Stepped {
                queue: queue.leave(),
                local: self.at(SearchView::Idle),
                outcome: Some(found),
            },
        }
    }
}

} // verus!
