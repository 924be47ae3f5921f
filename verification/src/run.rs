//! A search for work that is not interfered with: what it comes to, and that it ends.
use vstd::prelude::*;

use crate::model::{LocalView, Popped, QueueView, SearchView};

verus! {

/// What is left of a search once the local queue is no longer counted as a searcher.
pub open spec fn settled<T>(popped: Popped<T>) -> Popped<T> {
    Popped {
        queue: popped.queue.leave(),
        local: popped.local.at(SearchView::Idle),
        item: popped.item,
    }
}

/// What comes of the rest of a search if nothing interferes with it.
pub open spec fn finish<T>(queue: QueueView<T>, local: LocalView<T>) -> Popped<T> {
    let ring = queue.rings[local.index];
    let released = queue.with_stealing_global(false);
    match local.search {
        SearchView::Idle => queue.pop(local),
        SearchView::Entering => settled(
            if !queue.stealing_global && queue.global.len() > 0 {
                queue.enter().refill(local)
            } else {
                queue.enter().pick_and_steal(local)
            },
        ),
        SearchView::Acquiring => settled(
            if !queue.stealing_global && queue.global.len() > 0 {
                queue.refill(local)
            } else {
                queue.pick_and_steal(local)
            },
        ),
        SearchView::Popping => settled(
            if queue.global.len() > 0 {
                released.refill(local)
            } else {
                released.pick_and_steal(local)
            },
        ),
        SearchView::Refilling { first, batch, limit } => {
            let end = if limit - batch.len() < queue.global.len() {
                limit - batch.len()
            } else {
                queue.global.len() as int
            };
            settled(
                Popped {
                    queue: released.with_ring(
                        local.index,
                        ring.append(batch + queue.global.take(end)),
                    ).with_global(queue.global.skip(end)),
                    local,
                    item: Some(first),
                },
            )
        },
        SearchView::Refilled { first, batch } => settled(
            Popped {
                queue: released.with_ring(local.index, ring.append(batch)),
                local,
                item: Some(first),
            },
        ),
        SearchView::Releasing { found } => settled(
            if found is Some {
                Popped { queue: released, local, item: found }
            } else {
                released.pick_and_steal(local)
            },
        ),
        SearchView::Picking => settled(queue.pick_and_steal(local)),
        SearchView::Probing { start, visited } => settled(
            queue.steal_or_pop_global(local, start, visited),
        ),
        SearchView::Copying { victim, count } => {
            let from = queue.rings[victim];
            let items = from.claimed_items(count);
            settled(
                Popped {
                    queue: queue.with_ring(victim, from.take_claimed(count).release()).with_ring(
                        local.index,
                        ring.append(items.drop_first()),
                    ),
                    local,
                    item: Some(items[0]),
                },
            )
        },
        SearchView::Finishing { victim, first, batch } => settled(
            Popped {
                queue: queue.with_ring(victim, queue.rings[victim].release()).with_ring(
                    local.index,
                    ring.append(batch),
                ),
                local,
                item: Some(first),
            },
        ),
        SearchView::Stolen { first, batch } => settled(
            Popped {
                queue: queue.with_ring(local.index, ring.append(batch)),
                local,
                item: Some(first),
            },
        ),
        SearchView::LastResort => settled(queue.pop_global(local)),
        SearchView::Leaving { found } => settled(Popped { queue, local, item: found }),
    }
}

/// How many kinds of steps are still ahead of a search.
pub open spec fn stages_left<T>(search: SearchView<T>) -> int {
    match search {
        SearchView::Idle => 13,
        SearchView::Entering => 12,
        SearchView::Acquiring => 11,
        SearchView::Popping => 10,
        SearchView::Refilling { first, batch, limit } => 9,
        SearchView::Refilled { first, batch } => 8,
        SearchView::Releasing { found } => 7,
        SearchView::Picking => 6,
        SearchView::Probing { start, visited } => 5,
        SearchView::Copying { victim, count } => 4,
        SearchView::Finishing { victim, first, batch } => 3,
        SearchView::Stolen { first, batch } => 2,
        SearchView::LastResort => 1,
        SearchView::Leaving { found } => 0,
    }
}

/// How many times the current step can still be repeated.
pub open spec fn repeats_left<T>(queue: QueueView<T>, search: SearchView<T>) -> int {
    match search {
        SearchView::Refilling { first, batch, limit } => limit - batch.len(),
        SearchView::Probing { start, visited } => queue.rings.len() - visited,
        _ => 0,
    }
}

/// A step that looks whether others are stealing from the global queue changes nothing about what
/// the search comes to.
proof fn lemma_acquiring<T>(queue: QueueView<T>, local: LocalView<T>)
    requires
        queue.wf(),
        local.belongs_to(queue),
        local.search is Acquiring,
    ensures
        ({
            let stepped = local.step(queue);
            finish(stepped.queue, stepped.local) == finish(queue, local)
        }),
{
    let stepped = local.step(queue);
    if queue.stealing_global {
        assert(stepped.queue =~= queue);
    } else {
        assert(stepped.queue.with_stealing_global(false) =~= queue);
    }
    assert(finish(stepped.queue, stepped.local) =~~= finish(queue, local));
}

/// Nor does a step that steals from the global queue.
proof fn lemma_global<T>(queue: QueueView<T>, local: LocalView<T>)
    requires
        queue.wf(),
        local.belongs_to(queue),
        local.search is Popping || local.search is Refilling || local.search is Refilled,
    ensures
        ({
            let stepped = local.step(queue);
            finish(stepped.queue, stepped.local) == finish(queue, local)
        }),
{
    let stepped = local.step(queue);
    assert(finish(stepped.queue, stepped.local) =~~= finish(queue, local));
}

/// Nor does a step that looks at a sibling.
proof fn lemma_probing<T>(queue: QueueView<T>, local: LocalView<T>)
    requires
        queue.wf(),
        local.belongs_to(queue),
        local.search is Probing,
    ensures
        ({
            let stepped = local.step(queue);
            finish(stepped.queue, stepped.local) == finish(queue, local)
        }),
{
    let stepped = local.step(queue);
    assert(finish(stepped.queue, stepped.local) =~~= finish(queue, local));
}

/// Nor does a step that steals from a sibling.
proof fn lemma_stealing<T>(queue: QueueView<T>, local: LocalView<T>)
    requires
        queue.wf(),
        local.belongs_to(queue),
        local.search is Copying || local.search is Finishing || local.search is Stolen,
    ensures
        ({
            let stepped = local.step(queue);
            finish(stepped.queue, stepped.local) == finish(queue, local)
        }),
{
    let stepped = local.step(queue);
    assert(finish(stepped.queue, stepped.local) =~~= finish(queue, local));
}

/// A step changes nothing about what the search comes to, and once the search is over, it has come
/// to that.
pub proof fn step_keeps_finish<T>(queue: QueueView<T>, local: LocalView<T>)
    requires
        queue.wf(),
        local.belongs_to(queue),
    ensures
        ({
            let stepped = local.step(queue);
            match stepped.outcome {
                None => finish(stepped.queue, stepped.local) == finish(queue, local),
                Some(item) => finish(queue, local) == (Popped {
                    queue: stepped.queue,
                    local: stepped.local,
                    item,
                }),
            }
        }),
{
    let stepped = local.step(queue);
    let before = finish(queue, local);
    let after = finish(stepped.queue, stepped.local);
    match local.search {
        SearchView::Idle => {
            assert(queue.enter().leave() == queue);
            if stepped.outcome is None {
                assert(after =~~= before);
            }
        },
        SearchView::Entering => assert(after =~~= before),
        SearchView::Acquiring => lemma_acquiring(queue, local),
        SearchView::Popping => lemma_global(queue, local),
        SearchView::Refilling { first, batch, limit } => lemma_global(queue, local),
        SearchView::Refilled { first, batch } => lemma_global(queue, local),
        SearchView::Releasing { found } => assert(after =~~= before),
        SearchView::Picking => assert(after =~~= before),
        SearchView::Probing { start, visited } => lemma_probing(queue, local),
        SearchView::Copying { victim, count } => lemma_stealing(queue, local),
        SearchView::Finishing { victim, first, batch } => lemma_stealing(queue, local),
        SearchView::Stolen { first, batch } => lemma_stealing(queue, local),
        SearchView::LastResort => assert(after =~~= before),
        SearchView::Leaving { found } => {},
    }
}

/// Every search ends: a step that does not end it takes it to a later stage, or repeats its stage
/// once more, of a limited number of times. What others do between its steps does not matter; see
/// [`others_do_not_delay`].
pub proof fn step_makes_progress<T>(queue: QueueView<T>, local: LocalView<T>)
    requires
        queue.wf(),
        local.belongs_to(queue),
    ensures
        ({
            let stepped = local.step(queue);
            stepped.outcome is None ==> {
                ||| 0 <= stages_left(stepped.local.search) < stages_left(local.search)
                ||| {
                    &&& stages_left(stepped.local.search) == stages_left(local.search)
                    &&& 0 <= repeats_left(stepped.queue, stepped.local.search) < repeats_left(
                        queue,
                        local.search,
                    )
                }
            }
        }),
{
}

/// A step of one local queue, or a push, leaves another as close to the end of its search as it
/// was.
pub proof fn others_do_not_delay<T>(
    queue: QueueView<T>,
    local: LocalView<T>,
    other: LocalView<T>,
    item: T,
)
    requires
        queue.wf(),
        local.belongs_to(queue),
    ensures
        repeats_left(local.step(queue).queue, other.search) == repeats_left(queue, other.search),
        repeats_left(local.push(queue, item).0, other.search) == repeats_left(queue, other.search),
        repeats_left(queue.push_yield(local.index, item), other.search) == repeats_left(
            queue,
            other.search,
        ),
        repeats_left(queue.push(item), other.search) == repeats_left(queue, other.search),
{
}

} // verus!
