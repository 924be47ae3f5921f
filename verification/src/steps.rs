//! What each step of a search for work does, to be relied on whatever others do between the steps.
use vstd::prelude::*;

use crate::model::{LocalView, QueueView, SearchView};
use crate::promises::{differs_at, differs_in_ready};
use crate::queue::Progress;
use crate::ring::RingView;
use crate::rng::{pick, pick_state};

verus! {

/// A step reports that the search goes on, or that it is over and what it came to.
pub proof fn progress_tells_outcome<T>(item: Option<T>)
    ensures
        Progress::<T>::Searching.outcome() is None,
        Progress::Done(item).outcome() == Some(item),
{
}

/// A search ends with its first step if there is an item in the LIFO slot or in the local queue
/// itself, and pops that. Otherwise the search begins, and nothing else changes.
pub proof fn first_step_pops_own_item<T>(queue: QueueView<T>, local: LocalView<T>)
    requires
        0 <= local.index < queue.rings.len(),
        local.search is Idle,
    ensures
        ({
            let ring = queue.rings[local.index];
            let stepped = local.step(queue);
            let after = stepped.queue.rings[local.index];
            &&& local.lifo_slot is Some ==> {
                &&& stepped.outcome == Some(local.lifo_slot)
                &&& stepped.queue == queue
                &&& stepped.local == (LocalView { lifo_slot: None, ..local })
            }
            &&& local.lifo_slot is None && ring.ready.len() > 0 ==> {
                &&& stepped.outcome == Some(Some(ring.ready[0]))
                &&& ring.ready == seq![ring.ready[0]] + after.ready
                &&& after.capacity == ring.capacity
                &&& ring.claimed.len() == 0 ==> after.claimed.len() == 0 && after.protected_head
                    == (ring.protected_head + 1) % 0x1_0000
                &&& ring.claimed.len() > 0 ==> after.claimed == ring.claimed.push(None)
                    && after.protected_head == ring.protected_head
                &&& stepped.queue.global == queue.global
                &&& differs_at(queue, stepped.queue, local.index)
                &&& stepped.local == local
            }
            &&& local.lifo_slot is None && ring.ready.len() == 0 ==> {
                &&& stepped.outcome is None
                &&& stepped.queue == queue
                &&& stepped.local == (LocalView { search: SearchView::Entering, ..local })
            }
        }),
{
    let ring = queue.rings[local.index];
    if local.lifo_slot is None && ring.ready.len() > 0 {
        assert(ring.ready =~= seq![ring.ready[0]]
            + local.step(queue).queue.rings[local.index].ready);
    }
}

/// A search ends with its first step or with its last one.
pub proof fn other_steps_do_not_end<T>(queue: QueueView<T>, local: LocalView<T>)
    requires
        !(local.search is Idle),
        !(local.search is Leaving),
    ensures
        local.step(queue).outcome is None,
{
}

/// A search touches neither which local queue it is of, nor its LIFO slot, nor whether the local
/// queues were yielded. Its generator moves only when a sibling is picked.
pub proof fn steps_keep_local_queue<T>(queue: QueueView<T>, local: LocalView<T>)
    ensures
        local.step(queue).local.queue == local.queue,
        local.step(queue).local.index == local.index,
        !(local.search is Idle) ==> local.step(queue).local.lifo_slot == local.lifo_slot,
        !(local.search is Picking) ==> local.step(queue).local.rng == local.rng,
        local.step(queue).queue.id == queue.id,
        local.step(queue).queue.taken == queue.taken,
{
}

/// The number of searchers goes up by one when the local queue is found empty and down by one at
/// the end, and no other step changes it. The counter wraps around.
pub proof fn steps_count_searchers<T>(queue: QueueView<T>, local: LocalView<T>)
    ensures
        ({
            let after = local.step(queue).queue.searchers;
            &&& local.search is Entering && queue.searchers < usize::MAX ==> after
                == queue.searchers + 1
            &&& local.search is Entering && queue.searchers == usize::MAX ==> after == 0
            &&& local.search is Leaving && queue.searchers > 0 ==> after == queue.searchers - 1
            &&& local.search is Leaving && queue.searchers == 0 ==> after == usize::MAX
            &&& !(local.search is Entering) && !(local.search is Leaving) ==> after
                == queue.searchers
        }),
{
}

/// A local queue is counted as a searcher before it looks at anything.
pub proof fn step_enters<T>(queue: QueueView<T>, local: LocalView<T>)
    requires
        local.search is Entering,
    ensures
        local.step(queue).queue.rings == queue.rings,
        local.step(queue).queue.global == queue.global,
        local.step(queue).queue.stealing_global == queue.stealing_global,
        local.step(queue).local.search is Acquiring,
{
}

/// The outcome of a search is what it found, and nothing else changes when it ends.
pub proof fn step_leaves<T>(queue: QueueView<T>, local: LocalView<T>)
    requires
        local.search is Leaving,
    ensures
        local.step(queue).outcome == Some(local.search->Leaving_found),
        local.step(queue).local.search is Idle,
        local.step(queue).queue.rings == queue.rings,
        local.step(queue).queue.global == queue.global,
        local.step(queue).queue.stealing_global == queue.stealing_global,
{
}

/// A search goes to the global queue first, unless another local queue is already stealing from it,
/// and keeps others from doing so.
pub proof fn step_tries_global_first<T>(queue: QueueView<T>, local: LocalView<T>)
    requires
        local.search is Acquiring,
    ensures
        queue.stealing_global ==> local.step(queue).local.search is Picking,
        !queue.stealing_global ==> local.step(queue).local.search is Popping,
        local.step(queue).queue.stealing_global,
        local.step(queue).queue.rings == queue.rings,
        local.step(queue).queue.global == queue.global,
{
}

/// The search that steals from the global queue takes its first item, and then gathers more until
/// they fill half of the local queue or all of its free slots. If there is no item, it lets others
/// try.
pub proof fn step_takes_global_front<T>(queue: QueueView<T>, local: LocalView<T>)
    requires
        local.search is Popping,
        0 <= local.index < queue.rings.len(),
        queue.rings[local.index].claimed.len() + queue.rings[local.index].ready.len()
            <= queue.rings[local.index].capacity,
    ensures
        ({
            let ring = queue.rings[local.index];
            let stepped = local.step(queue);
            &&& stepped.queue.rings == queue.rings
            &&& stepped.queue.stealing_global == queue.stealing_global
            &&& queue.global.len() == 0 ==> {
                &&& stepped.local.search == SearchView::<T>::Releasing { found: None }
                &&& stepped.queue.global.len() == 0
            }
            &&& queue.global.len() > 0 ==> {
                let limit = stepped.local.search->limit;
                let free = ring.capacity - ring.claimed.len() - ring.ready.len();
                &&& stepped.local.search is Refilling
                &&& stepped.local.search->Refilling_first == queue.global[0]
                &&& stepped.local.search->Refilling_batch.len() == 0
                &&& queue.global == seq![queue.global[0]] + stepped.queue.global
                &&& 2 * limit <= ring.capacity
                &&& limit <= free
                &&& limit == free || 2 * (limit + 1) > ring.capacity
            }
        }),
{
    if queue.global.len() > 0 {
        assert(queue.global =~= seq![queue.global[0]] + local.step(queue).queue.global);
    }
}

/// Items are gathered from the front of the global queue, one by one and in order, until there are
/// enough or none is left.
pub proof fn step_gathers_in_order<T>(queue: QueueView<T>, local: LocalView<T>)
    requires
        local.search is Refilling,
    ensures
        ({
            let search = local.search;
            let stepped = local.step(queue);
            let after = stepped.local.search;
            &&& stepped.queue.rings == queue.rings
            &&& stepped.queue.stealing_global == queue.stealing_global
            &&& search->Refilling_batch.len() < search->limit && queue.global.len() > 0 ==> {
                &&& after is Refilling
                &&& after->Refilling_first == search->Refilling_first
                &&& after->limit == search->limit
                &&& after->Refilling_batch == search->Refilling_batch + seq![queue.global[0]]
                &&& queue.global == seq![queue.global[0]] + stepped.queue.global
            }
            &&& search->Refilling_batch.len() >= search->limit || queue.global.len() == 0 ==> {
                &&& after is Refilled
                &&& after->Refilled_first == search->Refilling_first
                &&& after->Refilled_batch == search->Refilling_batch
                &&& stepped.queue.global == queue.global
            }
        }),
{
    let search = local.search;
    if search->Refilling_batch.len() < search->limit && queue.global.len() > 0 {
        assert(queue.global =~= seq![queue.global[0]] + local.step(queue).queue.global);
        assert(local.step(queue).local.search->Refilling_batch =~= search->Refilling_batch
            + seq![queue.global[0]]);
    }
}

/// The gathered items go behind those of the local queue, in order, and nothing else changes.
pub proof fn step_fills_local_queue<T>(queue: QueueView<T>, local: LocalView<T>)
    requires
        local.search is Refilled || local.search is Stolen,
        0 <= local.index < queue.rings.len(),
    ensures
        ({
            let stepped = local.step(queue);
            let ring = queue.rings[local.index];
            let after = stepped.queue.rings[local.index];
            &&& differs_in_ready(ring, after)
            &&& differs_at(queue, stepped.queue, local.index)
            &&& stepped.queue.global == queue.global
            &&& local.search matches SearchView::Refilled { first, batch } ==> {
                &&& after.ready == ring.ready + batch
                &&& stepped.local.search == (SearchView::Releasing { found: Some(first) })
            }
            &&& local.search matches SearchView::Stolen { first, batch } ==> {
                &&& after.ready == ring.ready + batch
                &&& stepped.local.search == (SearchView::Leaving { found: Some(first) })
            }
        }),
{
}

/// Once a search is done with the global queue, others can steal from it. If there was an item, the
/// search is about to end with it, and otherwise it goes to the siblings.
pub proof fn step_lets_others_try<T>(queue: QueueView<T>, local: LocalView<T>)
    requires
        local.search is Releasing,
    ensures
        !local.step(queue).queue.stealing_global,
        local.step(queue).queue.rings == queue.rings,
        local.step(queue).queue.global == queue.global,
        local.search->Releasing_found is Some ==> local.step(queue).local.search == (
        SearchView::Leaving { found: local.search->Releasing_found }),
        local.search->Releasing_found is None ==> local.step(queue).local.search is Picking,
{
}

/// The sibling to look at first is picked at random.
pub proof fn step_picks_start<T>(queue: QueueView<T>, local: LocalView<T>)
    requires
        local.search is Picking,
    ensures
        local.step(queue).queue == queue,
        local.step(queue).local.rng == pick_state(local.rng, queue.rings.len() as usize),
        local.step(queue).local.search == (SearchView::<T>::Probing {
            start: pick(local.rng, queue.rings.len() as usize),
            visited: 0,
        }),
{
}

/// A search that has looked at all siblings goes to the global queue at last.
pub proof fn step_has_looked_everywhere<T>(queue: QueueView<T>, local: LocalView<T>)
    requires
        local.search is Probing,
        local.search->visited == queue.rings.len(),
    ensures
        local.step(queue).queue == queue,
        local.step(queue).local.search is LastResort,
{
}

/// A search goes on to the next sibling if the one it looks at has no items, or if another is
/// already stealing from it, or if it is the local queue itself. Otherwise it claims half of the
/// sibling's items, rounded up, from their front, or as many as it has free slots for besides the
/// one that it pops. They stay where they are.
pub proof fn step_claims_half<T>(queue: QueueView<T>, local: LocalView<T>, sibling: int)
    requires
        local.search is Probing,
        0 <= local.index < queue.rings.len(),
        queue.rings[local.index].claimed.len() + queue.rings[local.index].ready.len()
            <= queue.rings[local.index].capacity,
        0 <= local.search->start < queue.rings.len(),
        0 <= local.search->visited < queue.rings.len(),
        // Siblings are looked at in order, and after the last comes the first.
        0 <= sibling < queue.rings.len(),
        sibling == local.search->start + local.search->visited || sibling + queue.rings.len()
            == local.search->start + local.search->visited,
    ensures
        ({
            let from = queue.rings[sibling];
            let stepped = local.step(queue);
            let after = stepped.queue.rings[sibling];
            let count = stepped.local.search->Copying_count;
            let free = queue.rings[local.index].capacity - queue.rings[local.index].claimed.len()
                - queue.rings[local.index].ready.len();
            if sibling == local.index || from.claimed.len() > 0 || from.ready.len() == 0 {
                &&& stepped.queue == queue
                &&& stepped.local.search == (SearchView::<T>::Probing {
                    start: local.search->start,
                    visited: local.search->visited + 1,
                })
            } else {
                &&& stepped.local.search is Copying
                &&& stepped.local.search->Copying_victim == sibling
                &&& 1 <= count <= free + 1
                &&& 2 * count <= from.ready.len() + 1
                &&& count == free + 1 || 2 * count >= from.ready.len()
                &&& after.claimed.len() == count
                &&& forall|i: int|
                    0 <= i < count ==> #[trigger] after.claimed[i] == Some(from.ready[i])
                &&& from.ready == from.ready.take(count) + after.ready
                &&& after.protected_head == from.protected_head
                &&& after.capacity == from.capacity
                &&& stepped.queue.global == queue.global
                &&& differs_at(queue, stepped.queue, sibling)
            }
        }),
{
    let from = queue.rings[sibling];
    let stepped = local.step(queue);
    if stepped.local.search is Copying {
        let count = stepped.local.search->Copying_count;
        assert(from.ready =~= from.ready.take(count) + stepped.queue.rings[sibling].ready);
    }
}

/// A search takes the items that it claimed, in order, and leaves their slots empty. They still
/// cannot be overwritten.
pub proof fn step_takes_claimed<T>(queue: QueueView<T>, local: LocalView<T>)
    requires
        local.search is Copying,
        local.belongs_to(queue),
    ensures
        ({
            let victim = local.search->Copying_victim;
            let count = local.search->Copying_count;
            let from = queue.rings[victim];
            let stepped = local.step(queue);
            let after = stepped.queue.rings[victim];
            let first = stepped.local.search->Finishing_first;
            let batch = stepped.local.search->Finishing_batch;
            &&& stepped.local.search is Finishing
            &&& stepped.local.search->Finishing_victim == victim
            &&& batch.len() == count - 1
            &&& Some(first) == from.claimed[0]
            &&& forall|i: int|
                0 <= i < count - 1 ==> Some(#[trigger] batch[i]) == from.claimed[i + 1]
            &&& after.claimed.len() == from.claimed.len()
            &&& forall|i: int|
                0 <= i < from.claimed.len() ==> #[trigger] after.claimed[i] == if i < count {
                    None
                } else {
                    from.claimed[i]
                }
            &&& after.ready == from.ready
            &&& after.protected_head == from.protected_head
            &&& after.capacity == from.capacity
            &&& stepped.queue.global == queue.global
            &&& differs_at(queue, stepped.queue, victim)
        }),
{
}

/// Once a search has taken the items that it claimed, their slots are free, and so are those of the
/// items that the sibling popped meanwhile.
pub proof fn step_frees_claimed<T>(queue: QueueView<T>, local: LocalView<T>)
    requires
        local.search is Finishing,
        0 <= local.search->Finishing_victim < queue.rings.len(),
    ensures
        ({
            let victim = local.search->Finishing_victim;
            let from: RingView<T> = queue.rings[victim];
            let stepped = local.step(queue);
            let after = stepped.queue.rings[victim];
            &&& stepped.local.search == (SearchView::Stolen {
                first: local.search->Finishing_first,
                batch: local.search->Finishing_batch,
            })
            &&& after.claimed.len() == 0
            &&& after.protected_head == (from.protected_head + from.claimed.len()) % 0x1_0000
            &&& after.ready == from.ready
            &&& after.capacity == from.capacity
            &&& stepped.queue.global == queue.global
            &&& differs_at(queue, stepped.queue, victim)
        }),
{
}

/// At last the first item of the global queue is popped, whoever else is stealing from it.
pub proof fn step_resorts_to_global<T>(queue: QueueView<T>, local: LocalView<T>)
    requires
        local.search is LastResort,
    ensures
        ({
            let stepped = local.step(queue);
            &&& stepped.queue.rings == queue.rings
            &&& stepped.queue.stealing_global == queue.stealing_global
            &&& queue.global.len() == 0 ==> {
                &&& stepped.local.search == SearchView::<T>::Leaving { found: None }
                &&& stepped.queue.global.len() == 0
            }
            &&& queue.global.len() > 0 ==> {
                &&& stepped.local.search == (SearchView::Leaving { found: Some(queue.global[0]) })
                &&& queue.global == seq![queue.global[0]] + stepped.queue.global
            }
        }),
{
    if queue.global.len() > 0 {
        assert(queue.global =~= seq![queue.global[0]] + local.step(queue).queue.global);
    }
}

} // verus!
