//! The work queue and its local queues.
use std::collections::hash_map::{DefaultHasher, RandomState};
use std::collections::VecDeque;
use std::hash::{BuildHasher, Hasher};

use vstd::bytes::{spec_u64_to_le_bytes, u64_to_le_bytes};
use vstd::prelude::*;
use vstd::std_specs::hash::DefaultHasherAdditionalSpecFns;

use crate::global::GlobalQueue;
use crate::identity::Identity;
use crate::laws::search_steals_if_it_can;
use crate::model::{sibling, LocalView, QueueView, SearchView};
use crate::ring::{is_queue_size, LocalQueueInner, Positions, RingView};
use crate::rng::Rng;
use crate::run::{finish, repeats_left, stages_left, step_keeps_finish, step_makes_progress};

verus! {

/// A work queue: what its local queues share.
///
/// When it goes away, the items in the global queue are dropped. Those that are left in the
/// fixed-capacity queues of the local queues are not.
#[verifier::reject_recursive_types(T)]
pub struct Queue<T> {
    /// Which queue this is.
    id: Identity,
    local_queues: Vec<LocalQueueInner<T>>,
    global_queue: GlobalQueue<T>,
    /// Whether a local queue is currently stealing from the global queue. When `true`, others
    /// should avoid trying to pop from it to reduce contention.
    stealing_global: bool,
    /// Whether the local queues have already been yielded to the user and so shouldn't be yielded
    /// again.
    taken_local_queues: bool,
    /// The number of queues searching for work.
    searchers: usize,
}

impl<T> View for Queue<T> {
    type V = QueueView<T>;

    closed spec fn view(&self) -> QueueView<T> {
        QueueView {
            id: self.id,
            rings: self.local_queues@.map_values(|ring: LocalQueueInner<T>| ring@),
            global: self.global_queue@,
            stealing_global: self.stealing_global,
            taken: self.taken_local_queues,
            searchers: self.searchers,
        }
    }
}

impl<T> Queue<T> {
    /// Every local queue is in order, and all have the same size.
    pub closed spec fn wf(self) -> bool {
        &&& forall|i: int|
            0 <= i < self.local_queues@.len() ==> (#[trigger] self.local_queues@[i]).wf()
        &&& self@.wf()
    }

    /// What the model of a queue can rely on.
    pub proof fn lemma_view_wf(self)
        requires
            self.wf(),
        ensures
            self@.wf(),
    {
    }

    /// Create a new work queue.
    ///
    /// `local_queues` is the number of [`LocalQueue`]s yielded by [`Self::local_queues`]. Typically
    /// you will have a local queue for each thread on a thread pool.
    ///
    /// `local_queue_size` is the number of items that can be stored in each local queue before it
    /// overflows into the global one. You should fine-tune this to your needs. It is a power of
    /// two.
    pub fn new(local_queues: usize, local_queue_size: u16) -> (queue: Self)
        requires
            is_queue_size(local_queue_size as int),
        ensures
            queue.wf(),
            queue@ == QueueView::<T>::empty(
                queue@.id,
                local_queues as nat,
                local_queue_size as nat,
            ),
    {
        let mut rings: Vec<LocalQueueInner<T>> = Vec::new();
        while rings.len() < local_queues
            invariant
                rings.len() <= local_queues,
                is_queue_size(local_queue_size as int),
                forall|i: int|
                    0 <= i < rings.len() ==> (#[trigger] rings@[i]).wf() && rings@[i]@
                        == RingView::<T>::empty(local_queue_size as nat),
            decreases local_queues - rings.len(),
        {
            rings.push(LocalQueueInner::new(local_queue_size));
        }
        let id: Identity = Identity::fresh();
        let queue = Queue {
            id,
            local_queues: rings,
            global_queue: GlobalQueue::new(),
            stealing_global: false,
            taken_local_queues: false,
            searchers: 0,
        };
        assert(queue@ =~= QueueView::<T>::empty(id, local_queues as nat, local_queue_size as nat));
        queue
    }

    /// Push an item to the global queue. When one of the local queues empties, they can pick this
    /// item up.
    pub fn push(&mut self, item: T)
        requires
            old(self).wf(),
        ensures
            final(self).wf(),
            final(self)@ == old(self)@.push(item),
    {
        self.global_queue.push(item);
        assert(self@ =~= old(self)@.push(item));
    }

    /// Where the heads and the tail of a local queue are, and its mask.
    pub fn positions(&self, index: usize) -> (positions: Positions)
        requires
            self.wf(),
            index < self@.rings.len(),
        ensures
            positions.protected_head == self@.rings[index as int].protected_head,
            positions.head == self@.rings[index as int].head(),
            positions.tail == self@.rings[index as int].tail(),
            positions.mask == self@.rings[index as int].capacity - 1,
    {
        self.local_queues[index].positions()
    }

    /// Whether a local queue is currently stealing from the global queue.
    pub fn is_stealing_global(&self) -> (stealing: bool)
        ensures
            stealing == self@.stealing_global,
    {
        self.stealing_global
    }

    /// The number of local queues that are currently searching for work.
    pub fn searchers(&self) -> (searchers: usize)
        ensures
            searchers == self@.searchers,
    {
        self.searchers
    }

    /// Whether the local queues have already been yielded.
    pub fn local_queues_taken(&self) -> (taken: bool)
        ensures
            taken == self@.taken,
    {
        self.taken_local_queues
    }

    /// Iterate over the local queues of this queue. They can be yielded once only.
    pub fn local_queues(&mut self) -> (locals: LocalQueues<'_, T>)
        requires
            old(self).wf(),
            !old(self)@.taken,
        ensures
            final(self).wf(),
            final(self)@ == (QueueView { taken: true, ..old(self)@ }),
            locals.wf(),
            locals.queue() == final(self)@,
            locals.yielded() == 0,
    {
        self.taken_local_queues = true;
        assert(self@ =~= QueueView { taken: true, ..old(self)@ });
        let hasher: DefaultHasher = build_hasher(&RandomState::new());
        LocalQueues { shared: self, index: 0, hasher }
    }
}

/// How far a local queue is with a search for work.
#[derive(Debug)]
enum Search<T> {
    Idle,
    Entering,
    Acquiring,
    Popping,
    Refilling { first: T, batch: VecDeque<T>, limit: u16 },
    Refilled { first: T, batch: VecDeque<T> },
    Releasing { found: Option<T> },
    Picking,
    Probing { start: usize, visited: usize },
    Copying { victim: usize, count: u16 },
    Finishing { victim: usize, first: T, batch: VecDeque<T> },
    Stolen { first: T, batch: VecDeque<T> },
    LastResort,
    Leaving { found: Option<T> },
}

impl<T> Search<T> {
    spec fn view(self) -> SearchView<T> {
        match self {
            Search::Idle => SearchView::Idle,
            Search::Entering => SearchView::Entering,
            Search::Acquiring => SearchView::Acquiring,
            Search::Popping => SearchView::Popping,
            Search::Refilling { first, batch, limit } => SearchView::Refilling {
                first,
                batch: batch@,
                limit: limit as nat,
            },
            Search::Refilled { first, batch } => SearchView::Refilled { first, batch: batch@ },
            Search::Releasing { found } => SearchView::Releasing { found },
            Search::Picking => SearchView::Picking,
            Search::Probing { start, visited } => SearchView::Probing {
                start: start as int,
                visited: visited as int,
            },
            Search::Copying { victim, count } => SearchView::Copying {
                victim: victim as int,
                count: count as int,
            },
            Search::Finishing { victim, first, batch } => SearchView::Finishing {
                victim: victim as int,
                first,
                batch: batch@,
            },
            Search::Stolen { first, batch } => SearchView::Stolen { first, batch: batch@ },
            Search::LastResort => SearchView::LastResort,
            Search::Leaving { found } => SearchView::Leaving { found },
        }
    }
}

/// One of the local queues in a [`Queue`].
///
/// You can create this using [`Queue::local_queues`]. Every operation takes the queue that it is
/// one of.
#[derive(Debug)]
pub struct LocalQueue<T> {
    /// Which queue this is one of the local queues of.
    queue: Identity,
    /// Special slot that is always popped from first, to optimize for message passing where one
    /// task is blocked on another.
    lifo_slot: Option<T>,
    /// Which of the local queues this is.
    index: usize,
    /// Random number generator used to find which queue to start work stealing from.
    rng: Rng,
    /// How far the current search for work is.
    search: Search<T>,
}

impl<T> View for LocalQueue<T> {
    type V = LocalView<T>;

    closed spec fn view(&self) -> LocalView<T> {
        LocalView {
            queue: self.queue,
            index: self.index as int,
            lifo_slot: self.lifo_slot,
            rng: self.rng.state,
            search: self.search.view(),
        }
    }
}

/// What a step of a search for work came to.
#[derive(Debug)]
pub enum Progress<T> {
    /// The search goes on.
    Searching,
    /// The search is over, with this outcome.
    Done(Option<T>),
}

impl<T> Progress<T> {
    /// The outcome of the search, once it is over.
    pub open spec fn outcome(self) -> Option<Option<T>> {
        match self {
            Progress::Searching => None,
            Progress::Done(item) => Some(item),
        }
    }
}

impl<T> LocalQueue<T> {
    /// The local queue number `index` of `queue`, whose random number generator starts from `seed`.
    fn with_seed(queue: &Queue<T>, index: usize, seed: u64) -> (local: Self)
        requires
            index < queue@.rings.len(),
        ensures
            local@ == LocalView::<T>::fresh(queue@.id, index as int, seed),
    {
        LocalQueue {
            queue: queue.id,
            lifo_slot: None,
            index,
            rng: Rng { state: seed },
            search: Search::Idle,
        }
    }

    /// Push an item to the local queue, skipping the LIFO slot. This can be used to give other
    /// tasks a chance to run. Otherwise, there's a risk that one task will completely take over a
    /// thread in a push-pop cycle due to the LIFO slot.
    pub fn push_yield(&mut self, queue: &mut Queue<T>, item: T)
        requires
            old(queue).wf(),
            old(self)@.belongs_to(old(queue)@),
            old(self)@.search is Idle,
        ensures
            final(queue).wf(),
            final(queue)@ == old(queue)@.push_yield(old(self)@.index, item),
            final(self)@ == old(self)@,
            final(self)@.belongs_to(final(queue)@),
    {
        let i: usize = self.index;
        let ghost before = queue@;
        let ghost ring = queue.local_queues@[i as int]@;
        assert(before.rings[i as int] == ring);
        // If the local queue is not full, we can simply push to that.
        if queue.local_queues[i].room() > 0 {
            queue.local_queues[i].push(item);
            assert(queue@ =~= before.with_ring(i as int, ring.append(seq![item])));
            return;
        }
        // If no local queues are currently stealing, our overflowing local queue will not be
        // drained, so we should push half of it to the global queue.
        //
        // Otherwise we don't want to wait for them to finish, so we just push this single item to
        // the global queue (but we don't need to push any more since we're about to become less
        // full).
        if !queue.local_queues[i].is_claimed() {
            let half: u16 = queue.local_queues[i].capacity() / 2;
            queue.local_queues[i].spill(half, &mut queue.global_queue);
            assert(queue@ =~= before.with_ring(i as int, ring.skip(half as int)).with_global(
                before.global + ring.ready.take(half as int),
            ));
        }
        queue.global_queue.push(item);
        assert(queue@ =~= before.push_yield(i as int, item));
    }

    /// Push an item to the local queue. If the local queue is full, it will move half of its items
    /// to the global queue.
    pub fn push(&mut self, queue: &mut Queue<T>, item: T)
        requires
            old(queue).wf(),
            old(self)@.belongs_to(old(queue)@),
            old(self)@.search is Idle,
        ensures
            final(queue).wf(),
            (final(queue)@, final(self)@) == old(self)@.push(old(queue)@, item),
            final(self)@.belongs_to(final(queue)@),
    {
        let previous: Option<T> = self.lifo_slot.take();
        self.lifo_slot = Some(item);
        if let Some(previous) = previous {
            self.push_yield(queue, previous);
        }
    }

    /// Take one indivisible step of popping an item. Between the steps of one local queue, others
    /// can push and take steps of their own.
    pub fn step(&mut self, queue: &mut Queue<T>) -> (progress: Progress<T>)
        requires
            old(queue).wf(),
            old(self)@.belongs_to(old(queue)@),
        ensures
            final(queue).wf(),
            final(self)@.belongs_to(final(queue)@),
            ({
                let stepped = old(self)@.step(old(queue)@);
                &&& final(queue)@ == stepped.queue
                &&& final(self)@ == stepped.local
                &&& progress.outcome() == stepped.outcome
            }),
    {
        let i: usize = self.index;
        let ghost q = queue@;
        let ghost l = self@;
        let ghost ring = queue.local_queues@[i as int]@;
        assert(q.rings[i as int] == ring);
        let mut search: Search<T> = Search::Idle;
        core::mem::swap(&mut search, &mut self.search);
        match search {
            Search::Idle => {
                // First try to pop from the LIFO slot.
                if let Some(item) = self.lifo_slot.take() {
                    return Progress::Done(Some(item));
                }
                // Then try to pop from the local queue.
                if let Some(item) = queue.local_queues[i].pop() {
                    assert(queue@ =~= q.with_ring(i as int, ring.pop()));
                    return Progress::Done(Some(item));
                }
                assert(queue@ =~= q);
                // Now we will try to steal into this queue from various places.
                self.search = Search::Entering;
            },
            Search::Entering => {
                queue.searchers = queue.searchers.wrapping_add(1);
                self.search = Search::Acquiring;
                assert(queue@ =~= q.enter());
            },
            Search::Acquiring => {
                // If no local queues are currently stealing from the global queue, we will steal
                // from it.
                let stealing: bool = queue.stealing_global;
                queue.stealing_global = true;
                self.search = if stealing {
                    Search::Picking
                } else {
                    Search::Popping
                };
                assert(queue@ =~= q.with_stealing_global(true));
            },
            Search::Popping => {
                match queue.global_queue.pop() {
                    Some(first) => {
                        // To avoid having to search for items again after we have completed this
                        // one, we fill half of our queue with items from the global queue.
                        let half: u16 = queue.local_queues[i].capacity() / 2;
                        let room: u16 = queue.local_queues[i].room();
                        let limit: u16 = if room < half {
                            room
                        } else {
                            half
                        };
                        self.search = Search::Refilling { first, batch: VecDeque::new(), limit };
                        assert(queue@ =~= q.with_global(q.global.drop_first()));
                    },
                    None => {
                        self.search = Search::Releasing { found: None };
                        assert(queue@ =~= q);
                    },
                }
            },
            Search::Refilling { first, batch, limit } => {
                let mut batch: VecDeque<T> = batch;
                if batch.len() < limit as usize {
                    if let Some(item) = queue.global_queue.pop() {
                        batch.push_back(item);
                        self.search = Search::Refilling { first, batch, limit };
                        assert(queue@ =~= q.with_global(q.global.drop_first()));
                        return Progress::Searching;
                    }
                }
                self.search = Search::Refilled { first, batch };
                assert(queue@ =~= q);
            },
            Search::Refilled { first, batch } => {
                let ghost items = batch@;
                queue.local_queues[i].append(batch);
                self.search = Search::Releasing { found: Some(first) };
                assert(queue@ =~= q.with_ring(i as int, ring.append(items)));
            },
            Search::Releasing { found } => {
                queue.stealing_global = false;
                self.search = if found.is_some() {
                    Search::Leaving { found }
                } else {
                    Search::Picking
                };
                assert(queue@ =~= q.with_stealing_global(false));
            },
            Search::Picking => {
                // Steal work from sibling queues starting from a random location.
                let start: usize = self.rng.gen_usize_to(queue.local_queues.len());
                self.search = Search::Probing { start, visited: 0 };
            },
            Search::Probing { start, visited } => {
                let queues: usize = queue.local_queues.len();
                if visited >= queues {
                    self.search = Search::LastResort;
                    return Progress::Searching;
                }
                let victim: usize = if visited < queues - start {
                    start + visited
                } else {
                    visited - (queues - start)
                };
                assert(victim == sibling(q.rings.len(), start as int, visited as int));
                let ghost from = queue.local_queues@[victim as int]@;
                assert(q.rings[victim as int] == from);
                let count: u16 = if victim == i {
                    0
                } else {
                    // The claimed items have to fit behind our own tail, except for the one that
                    // we will be returning.
                    let room: u16 = queue.local_queues[i].room();
                    queue.local_queues[victim].claim(room + 1)
                };
                self.search = if count == 0 {
                    Search::Probing { start, visited: visited + 1 }
                } else {
                    Search::Copying { victim, count }
                };
                proof {
                    if count == 0 {
                        assert(queue@ =~= q);
                    } else {
                        assert(queue@ =~= q.with_ring(victim as int, from.claim(count as int)));
                    }
                }
            },
            Search::Copying { victim, count } => {
                let ghost from = queue.local_queues@[victim as int]@;
                assert(q.rings[victim as int] == from);
                let mut batch: VecDeque<T> = queue.local_queues[victim].take_claimed(count);
                assert(queue@ =~= q.with_ring(victim as int, from.take_claimed(count as int)));
                // The first item is kept apart, as we will be returning it.
                if let Some(first) = batch.pop_front() {
                    self.search = Search::Finishing { victim, first, batch };
                }
            },
            Search::Finishing { victim, first, batch } => {
                let ghost from = queue.local_queues@[victim as int]@;
                assert(q.rings[victim as int] == from);
                queue.local_queues[victim].release();
                self.search = Search::Stolen { first, batch };
                assert(queue@ =~= q.with_ring(victim as int, from.release()));
            },
            Search::Stolen { first, batch } => {
                let ghost items = batch@;
                queue.local_queues[i].append(batch);
                self.search = Search::Leaving { found: Some(first) };
                assert(queue@ =~= q.with_ring(i as int, ring.append(items)));
            },
            Search::LastResort => {
                // Lastly, pop from the global queue without guarding against contention, since
                // there is nowhere else we can currently get items from.
                let found: Option<T> = queue.global_queue.pop();
                proof {
                    if q.global.len() == 0 {
                        assert(queue@ =~= q);
                    } else {
                        assert(queue@ =~= q.with_global(q.global.drop_first()));
                    }
                }
                self.search = Search::Leaving { found };
            },
            Search::Leaving { found } => {
                queue.searchers = queue.searchers.wrapping_sub(1);
                assert(queue@ =~= q.leave());
                return Progress::Done(found);
            },
        }
        Progress::Searching
    }

    /// Pop an item from the local queue, or steal from the global and sibling queues if it is
    /// empty.
    pub fn pop(&mut self, queue: &mut Queue<T>) -> (item: Option<T>)
        requires
            old(queue).wf(),
            old(self)@.belongs_to(old(queue)@),
            old(self)@.search is Idle,
        ensures
            final(queue).wf(),
            final(self)@.belongs_to(final(queue)@),
            ({
                let popped = old(queue)@.pop(old(self)@);
                &&& final(queue)@ == popped.queue
                &&& final(self)@ == popped.local
                &&& item == popped.item
            }),
            // Wherever the search of the siblings starts:
            ({
                let queue = old(queue)@;
                let local = old(self)@;
                local.lifo_slot is None && queue.rings[local.index].ready.len() == 0 && (
                queue.stealing_global || queue.global.len() == 0) ==> queue.may_steal_or_pop_global(
                    local,
                    queue.pop(local),
                )
            }),
    {
        proof {
            queue.lemma_view_wf();
            search_steals_if_it_can(queue@, self@);
        }
        loop
            invariant
                old(queue)@.may_steal_or_pop_global(
                    old(self)@,
                    old(queue)@.pick_and_steal(old(self)@),
                ),
                queue.wf(),
                self@.belongs_to(queue@),
                finish(queue@, self@) == old(queue)@.pop(old(self)@),
            decreases stages_left(self@.search), repeats_left(queue@, self@.search),
        {
            proof {
                queue.lemma_view_wf();
                step_keeps_finish(queue@, self@);
                step_makes_progress(queue@, self@);
            }
            if let Progress::Done(item) = self.step(queue) {
                return item;
            }
        }
    }

    /// Get the number of local queues that are currently searching for work inside
    /// [`pop`](Self::pop).
    ///
    /// If this number is too high, you may wish to avoid calling [`pop`](Self::pop) to reduce
    /// contention.
    #[must_use]
    pub fn searchers(&self, queue: &Queue<T>) -> (searchers: usize)
        requires
            self@.belongs_to(queue@),
        ensures
            searchers == queue@.searchers,
    {
        queue.searchers()
    }

    /// Get the global queue that is associated with this local queue.
    #[must_use]
    pub fn global<'a>(&self, queue: &'a mut Queue<T>) -> (global: &'a mut Queue<T>)
        requires
            self@.belongs_to(old(queue)@),
        ensures
            *global == *old(queue),
            *final(queue) == *final(global),
    {
        queue
    }
}

/// An iterator over the [`LocalQueue`]s in a [`Queue`]. Created by [`Queue::local_queues`].
#[must_use]
#[verifier::reject_recursive_types(T)]
pub struct LocalQueues<'a, T> {
    shared: &'a Queue<T>,
    index: usize,
    hasher: DefaultHasher,
}

impl<'a, T> LocalQueues<'a, T> {
    /// What the queue holds whose local queues are yielded.
    pub closed spec fn queue(self) -> QueueView<T> {
        self.shared@
    }

    /// How many local queues have been yielded.
    pub closed spec fn yielded(self) -> nat {
        self.index as nat
    }

    /// What has been written to the hasher that the seeds come from.
    pub closed spec fn written(self) -> Seq<Seq<u8>> {
        self.hasher@
    }

    /// The seed that the hasher has come to.
    pub open spec fn seed(self) -> u64 {
        DefaultHasher::spec_finish(self.written())
    }

    /// How many local queues the queue has.
    pub open spec fn total(self) -> nat {
        self.queue().rings.len()
    }

    /// No more local queues have been yielded than there are.
    pub open spec fn wf(self) -> bool {
        self.yielded() <= self.total()
    }

    /// A seed is what the hasher finishes to after all that has been written to it, and there are
    /// as many local queues to yield as the queue has.
    pub proof fn lemma_seed_and_total(self)
        ensures
            self.seed() == DefaultHasher::spec_finish(self.written()),
            self.total() == self.queue().rings.len(),
            self.wf() <==> self.yielded() <= self.queue().rings.len(),
    {
    }

    /// Yield the next local queue. Its generator starts from a random seed: that of a hasher with
    /// random keys, to which the number of every local queue is written, counted from one.
    pub fn next(&mut self) -> (local: Option<LocalQueue<T>>)
        requires
            old(self).wf(),
        ensures
            final(self).wf(),
            final(self).queue() == old(self).queue(),
            match local {
                Some(local) => {
                    &&& old(self).yielded() < old(self).total()
                    &&& final(self).yielded() == old(self).yielded() + 1
                    &&& final(self).written() == old(self).written().push(
                        spec_u64_to_le_bytes(final(self).yielded() as u64),
                    )
                    &&& local@ == LocalView::<T>::fresh(
                        old(self).queue().id,
                        old(self).yielded() as int,
                        final(self).seed(),
                    )
                },
                None => {
                    &&& old(self).yielded() == old(self).total()
                    &&& *final(self) == *old(self)
                },
            },
    {
        if self.index >= self.shared.local_queues.len() {
            return None;
        }
        let number: Vec<u8> = u64_to_le_bytes((self.index + 1) as u64);
        self.hasher.write(number.as_slice());
        let seed: u64 = self.hasher.finish();
        self.next_with_seed(seed)
    }

    /// Yield the next local queue. Its generator starts from `seed`.
    pub fn next_with_seed(&mut self, seed: u64) -> (local: Option<LocalQueue<T>>)
        requires
            old(self).wf(),
        ensures
            final(self).wf(),
            final(self).queue() == old(self).queue(),
            final(self).written() == old(self).written(),
            match local {
                Some(local) => {
                    &&& old(self).yielded() < old(self).total()
                    &&& final(self).yielded() == old(self).yielded() + 1
                    &&& local@ == LocalView::<T>::fresh(
                        old(self).queue().id,
                        old(self).yielded() as int,
                        seed,
                    )
                },
                None => {
                    &&& old(self).yielded() == old(self).total()
                    &&& *final(self) == *old(self)
                },
            },
    {
        if self.index >= self.shared.local_queues.len() {
            return None;
        }
        let index: usize = self.index;
        self.index = index + 1;
        Some(LocalQueue::with_seed(self.shared, index, seed))
    }

    /// How many local queues are still to be yielded, as bounds from below and above.
    pub fn size_hint(&self) -> (bounds: (usize, Option<usize>))
        requires
            self.wf(),
        ensures
            bounds.0 == self.total() - self.yielded(),
            bounds.1 == Some(bounds.0),
    {
        let len: usize = self.len();
        (len, Some(len))
    }

    /// How many local queues are still to be yielded.
    pub fn len(&self) -> (len: usize)
        requires
            self.wf(),
        ensures
            len == self.total() - self.yielded(),
    {
        self.shared.local_queues.len() - self.index
    }
}

/// [`RandomState::new`]: a hasher factory with random keys. Nothing is claimed of it, as it depends
/// on chance.
pub assume_specification[ RandomState::new ]() -> (state: RandomState);

/// [`BuildHasher::build_hasher`] of [`RandomState`]: a hasher with the keys of the factory. Nothing
/// is claimed of it, as the keys depend on chance.
#[verifier::external_body]
fn build_hasher(state: &RandomState) -> DefaultHasher {
    state.build_hasher()
}

} // verus!
